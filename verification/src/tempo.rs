//! The tempo map: which tempo is in effect at a tick position.
//!
//! Tempo changes are recorded in any order, from any track. A lookup answers with the
//! change that has the greatest tick not after the queried one. Where several changes
//! share that tick, the one recorded last wins.

use vstd::prelude::*;

verus! {

/// Microseconds per quarter note in effect where no tempo change applies (120 beats per minute).
pub const DEFAULT_TEMPO: u32 = 500_000;

/// A tempo change: from `tick` on, a quarter note lasts `tempo` microseconds.
#[derive(Clone, Copy, Debug, PartialEq, Eq, Structural)]
pub struct TempoEvent {
    pub tick: u32,
    pub tempo: u32,
}

/// The event at index `i` is the one in effect at `tick`: it is not after `tick`, and
/// every other event that is not after `tick` either has a smaller tick or has the same
/// tick and stands earlier in `events`.
pub open spec fn governs(events: Seq<TempoEvent>, tick: int, i: int) -> bool {
    &&& 0 <= i < events.len()
    &&& events[i].tick <= tick
    &&& forall|j: int|
        #![trigger events[j]]
        0 <= j < events.len() && events[j].tick <= tick ==> events[j].tick < events[i].tick || (
        events[j].tick == events[i].tick && j <= i)
}

/// The tempo in effect at `tick`: that of the governing event, or [`DEFAULT_TEMPO`]
/// where no event governs.
pub open spec fn tempo_at(events: Seq<TempoEvent>, tick: int) -> u32 {
    if exists|i: int| governs(events, tick, i) {
        events[choose|i: int| governs(events, tick, i)].tempo
    } else {
        DEFAULT_TEMPO
    }
}

/// The ticks never decrease along `events`.
pub open spec fn sorted_by_tick(events: Seq<TempoEvent>) -> bool {
    forall|i: int, j: int| 0 <= i <= j < events.len() ==> events[i].tick <= events[j].tick
}

/// Whether an event is at `tick`.
pub open spec fn at_tick(tick: u32) -> spec_fn(TempoEvent) -> bool {
    |event: TempoEvent| event.tick == tick
}

/// The events of `events` at `tick`, in their order.
pub open spec fn events_at(events: Seq<TempoEvent>, tick: u32) -> Seq<TempoEvent> {
    events.filter(at_tick(tick))
}

/// `sorted` holds the events of `events` in the order of their ticks, those with the
/// same tick in the order in which `events` holds them.
pub open spec fn stably_sorted(sorted: Seq<TempoEvent>, events: Seq<TempoEvent>) -> bool {
    &&& sorted_by_tick(sorted)
    &&& forall|tick: u32| #[trigger] events_at(sorted, tick) == events_at(events, tick)
}

/// Two collections of events answer every lookup alike.
pub open spec fn same_timeline(a: Seq<TempoEvent>, b: Seq<TempoEvent>) -> bool {
    forall|tick: int| #[trigger] tempo_at(a, tick) == tempo_at(b, tick)
}

/// `s` with the events at `k - 1` and `k` exchanged.
pub open spec fn swap_adjacent(s: Seq<TempoEvent>, k: int) -> Seq<TempoEvent> {
    s.update(k - 1, s[k]).update(k, s[k - 1])
}

/// Where the event at `k - 1` or `k` goes when the two are exchanged.
spec fn swapped_index(k: int, i: int) -> int {
    if i == k {
        k - 1
    } else if i == k - 1 {
        k
    } else {
        i
    }
}

/// At most one event governs a tick.
pub proof fn lemma_governs_unique(events: Seq<TempoEvent>, tick: int, i: int, j: int)
    requires
        governs(events, tick, i),
        governs(events, tick, j),
    ensures
        i == j,
{
    let _ = events[i];
    let _ = events[j];
}

/// The tempo at a tick is that of the event that governs it.
pub proof fn lemma_tempo_at_governed(events: Seq<TempoEvent>, tick: int, i: int)
    requires
        governs(events, tick, i),
    ensures
        tempo_at(events, tick) == events[i].tempo,
{
    let c = choose|c: int| governs(events, tick, c);
    lemma_governs_unique(events, tick, i, c);
}

/// Index of the event that governs `tick` among the first `n`, or -1 where none of
/// them is at or before `tick`.
spec fn latest_among(events: Seq<TempoEvent>, tick: int, n: int) -> int
    decreases n,
{
    if n <= 0 {
        -1
    } else {
        let before = latest_among(events, tick, n - 1);
        if events[n - 1].tick <= tick && (before < 0 || events[before].tick <= events[n - 1].tick) {
            n - 1
        } else {
            before
        }
    }
}

proof fn lemma_latest_among(events: Seq<TempoEvent>, tick: int, n: int)
    requires
        0 <= n <= events.len(),
    ensures
        -1 <= latest_among(events, tick, n) < n,
        latest_among(events, tick, n) < 0 ==> forall|j: int|
            #![trigger events[j]]
            0 <= j < n ==> events[j].tick > tick,
        latest_among(events, tick, n) >= 0 ==> governs(
            events.take(n),
            tick,
            latest_among(events, tick, n),
        ),
    decreases n,
{
    if n > 0 {
        lemma_latest_among(events, tick, n - 1);
        let before = latest_among(events, tick, n - 1);
        let now = latest_among(events, tick, n);
        let shorter = events.take(n - 1);
        let longer = events.take(n);
        if now >= 0 {
            assert forall|j: int|
                #![trigger longer[j]]
                0 <= j < longer.len() && longer[j].tick <= tick implies longer[j].tick
                < longer[now].tick || (longer[j].tick == longer[now].tick && j <= now) by {
                if j < n - 1 && before >= 0 {
                    assert(governs(shorter, tick, before));
                    assert(shorter[j] == longer[j]);
                    assert(shorter[before] == longer[before]);
                }
            }
        }
    }
}

/// A tick that some event does not come after is governed by an event; a tick that
/// every event comes after has the default tempo.
pub proof fn lemma_tempo_at_default(events: Seq<TempoEvent>, tick: int)
    ensures
        (exists|j: int| 0 <= j < events.len() && #[trigger] events[j].tick <= tick) <==> (exists|
            i: int,
        | governs(events, tick, i)),
        (forall|j: int| 0 <= j < events.len() ==> #[trigger] events[j].tick > tick)
            ==> tempo_at(events, tick) == DEFAULT_TEMPO,
{
    lemma_latest_among(events, tick, events.len() as int);
    assert(events.take(events.len() as int) =~= events);
    let found = latest_among(events, tick, events.len() as int);
    if exists|j: int| 0 <= j < events.len() && #[trigger] events[j].tick <= tick {
        assert(governs(events, tick, found));
    }
    if exists|i: int| governs(events, tick, i) {
        let i = choose|i: int| governs(events, tick, i);
        assert(events[i].tick <= tick);
    }
}

/// Exchanging two neighbours with different ticks moves the governing event along.
proof fn lemma_swap_governs(s: Seq<TempoEvent>, k: int, tick: int, i: int)
    requires
        0 < k < s.len(),
        s[k - 1].tick != s[k].tick,
        governs(s, tick, i),
    ensures
        governs(swap_adjacent(s, k), tick, swapped_index(k, i)),
        swap_adjacent(s, k)[swapped_index(k, i)] == s[i],
{
    let t = swap_adjacent(s, k);
    let at = swapped_index(k, i);
    assert forall|j: int|
        #![trigger t[j]]
        0 <= j < t.len() && t[j].tick <= tick implies t[j].tick < t[at].tick || (t[j].tick
        == t[at].tick && j <= at) by {
        let from = swapped_index(k, j);
        assert(t[j] == s[from]);
    }
}

/// Of two events with different ticks, those at a tick are the same in either order.
proof fn lemma_events_at_pair(first: TempoEvent, second: TempoEvent, tick: u32)
    requires
        first.tick != second.tick,
    ensures
        events_at(seq![first, second], tick) == events_at(seq![second, first], tick),
{
    reveal_with_fuel(Seq::filter, 3);
    let ahead = seq![first, second];
    let behind = seq![second, first];
    assert(ahead.drop_last() =~= seq![first]);
    assert(behind.drop_last() =~= seq![second]);
    assert(seq![first].drop_last() =~= Seq::<TempoEvent>::empty());
    assert(seq![second].drop_last() =~= Seq::<TempoEvent>::empty());
    assert(ahead.filter(at_tick(tick)) =~= behind.filter(at_tick(tick)));
}

/// Exchanging two neighbours with different ticks leaves the events at each tick in
/// their order.
proof fn lemma_swap_keeps_events_at(s: Seq<TempoEvent>, k: int, tick: u32)
    requires
        0 < k < s.len(),
        s[k - 1].tick != s[k].tick,
    ensures
        events_at(swap_adjacent(s, k), tick) == events_at(s, tick),
{
    let front = s.take(k - 1);
    let back = s.skip(k + 1);
    let ahead = seq![s[k - 1], s[k]];
    let behind = seq![s[k], s[k - 1]];
    assert(s =~= front + ahead + back);
    assert(swap_adjacent(s, k) =~= front + behind + back);
    Seq::filter_distributes_over_add(front + ahead, back, at_tick(tick));
    Seq::filter_distributes_over_add(front, ahead, at_tick(tick));
    Seq::filter_distributes_over_add(front + behind, back, at_tick(tick));
    Seq::filter_distributes_over_add(front, behind, at_tick(tick));
    lemma_events_at_pair(s[k - 1], s[k], tick);
}

/// Exchanging two neighbours with different ticks changes no lookup, and leaves the
/// events at each tick in their order.
pub proof fn lemma_swap_keeps_timeline(s: Seq<TempoEvent>, k: int)
    requires
        0 < k < s.len(),
        s[k - 1].tick != s[k].tick,
    ensures
        same_timeline(swap_adjacent(s, k), s),
        forall|tick: u32| #[trigger] events_at(swap_adjacent(s, k), tick) == events_at(s, tick),
        swap_adjacent(s, k).to_multiset() == s.to_multiset(),
        swap_adjacent(s, k).len() == s.len(),
{
    let t = swap_adjacent(s, k);
    assert forall|tick: u32| #[trigger] events_at(t, tick) == events_at(s, tick) by {
        lemma_swap_keeps_events_at(s, k, tick);
    }
    assert(swap_adjacent(t, k) =~= s);
    assert forall|tick: int| #[trigger] tempo_at(t, tick) == tempo_at(s, tick) by {
        if exists|i: int| governs(s, tick, i) {
            let i = choose|i: int| governs(s, tick, i);
            lemma_swap_governs(s, k, tick, i);
            lemma_tempo_at_governed(s, tick, i);
            lemma_tempo_at_governed(t, tick, swapped_index(k, i));
        } else if exists|i: int| governs(t, tick, i) {
            let i = choose|i: int| governs(t, tick, i);
            lemma_swap_governs(t, k, tick, i);
        }
    }
    assert(t.to_multiset() =~= s.to_multiset()) by {
        let half = s.update(k - 1, s[k]);
        s.to_multiset_ensures();
        half.to_multiset_ensures();
        assert(s.contains(s[k - 1]));
        assert(half[k] == s[k]);
        assert(half.contains(half[k]));
        vstd::seq_lib::to_multiset_update(s, k - 1, s[k]);
        vstd::seq_lib::to_multiset_update(half, k, s[k - 1]);
    }
}

/// In a sorted collection the last event that is not after `tick` governs it.
pub proof fn lemma_sorted_governs(events: Seq<TempoEvent>, tick: int, i: int)
    requires
        sorted_by_tick(events),
        0 <= i < events.len(),
        events[i].tick <= tick,
        forall|j: int| i < j < events.len() ==> #[trigger] events[j].tick > tick,
    ensures
        governs(events, tick, i),
{
}

/// The tempo changes recorded so far.
pub struct TempoHelper {
    data: Vec<TempoEvent>,
}

impl View for TempoHelper {
    type V = Seq<TempoEvent>;

    /// The recorded events, in the order in which they are stored.
    closed spec fn view(&self) -> Seq<TempoEvent> {
        self.data@
    }
}

impl TempoHelper {
    /// A map without tempo changes: every tick has the default tempo.
    pub fn new() -> (map: TempoHelper)
        ensures
            map@ == Seq::<TempoEvent>::empty(),
    {
        TempoHelper { data: Vec::new() }
    }

    /// Records a tempo change behind those recorded before. Any tick and any order are
    /// accepted, also a tick that was recorded already.
    pub fn new_tempo(&mut self, tick: u32, tempo: u32)
        ensures
            final(self)@ == old(self)@.push(TempoEvent { tick, tempo }),
    {
        self.data.push(TempoEvent { tick, tempo });
    }

    /// The number of events recorded.
    pub fn len(&self) -> (len: usize)
        ensures
            len == self@.len(),
    {
        self.data.len()
    }

    /// Orders the events by tick. Events with the same tick keep their order, so no
    /// lookup changes.
    pub fn sort(&mut self)
        ensures
            stably_sorted(final(self)@, old(self)@),
            same_timeline(final(self)@, old(self)@),
            final(self)@.to_multiset() == old(self)@.to_multiset(),
            final(self)@.len() == old(self)@.len(),
    {
        let n = self.data.len();
        let mut i: usize = 0;
        while i < n
            invariant
                i <= n,
                self.data@.len() == n,
                sorted_by_tick(self.data@.take(i as int)),
                forall|tick: u32| #[trigger]
                    events_at(self.data@, tick) == events_at(old(self).data@, tick),
                same_timeline(self.data@, old(self).data@),
                self.data@.to_multiset() == old(self).data@.to_multiset(),
            decreases n - i,
        {
            let mut j: usize = i;
            proof {
                let sorted = self.data@.take(i as int);
                assert forall|a: int, b: int| 0 <= a <= b < i implies self.data@[a].tick
                    <= self.data@[b].tick by {
                    assert(sorted[a].tick <= sorted[b].tick);
                }
            }
            while j > 0 && self.data[j - 1].tick > self.data[j].tick
                invariant
                    j <= i < n,
                    self.data@.len() == n,
                    forall|a: int, b: int|
                        0 <= a <= b <= i && a != j && b != j ==> self.data@[a].tick
                            <= self.data@[b].tick,
                    forall|b: int| j < b <= i ==> self.data@[j as int].tick < self.data@[b].tick,
                    forall|tick: u32| #[trigger]
                        events_at(self.data@, tick) == events_at(old(self).data@, tick),
                    same_timeline(self.data@, old(self).data@),
                    self.data@.to_multiset() == old(self).data@.to_multiset(),
                decreases j,
            {
                let ghost before = self.data@;
                let moved = self.data[j];
                let passed = self.data[j - 1];
                self.data.set(j - 1, moved);
                self.data.set(j, passed);
                proof {
                    assert(self.data@ =~= swap_adjacent(before, j as int));
                    lemma_swap_keeps_timeline(before, j as int);
                }
                j -= 1;
            }
            proof {
                let now = self.data@.take(i + 1);
                assert forall|a: int, b: int| 0 <= a <= b < now.len() implies now[a].tick
                    <= now[b].tick by {
                    if b == j && a < j {
                        assert(self.data@[a].tick <= self.data@[j - 1].tick);
                    }
                }
            }
            i += 1;
        }
        proof {
            assert(self.data@.take(n as int) =~= self.data@);
        }
    }

    /// The tempo in effect at `tick`: that of the event with the greatest tick that is
    /// not after `tick`, the one recorded last where several share that tick, and
    /// [`DEFAULT_TEMPO`] where every event is after `tick` or none was recorded.
    ///
    /// The events are put in order by tick first, which changes no lookup.
    pub fn get_tempo(&mut self, tick: u32) -> (tempo: u32)
        ensures
            tempo == tempo_at(old(self)@, tick as int),
            forall|i: int| governs(old(self)@, tick as int, i) ==> tempo == old(self)@[i].tempo,
            (forall|j: int| 0 <= j < old(self)@.len() ==> (#[trigger] old(self)@[j]).tick > tick)
                ==> tempo == DEFAULT_TEMPO,
            stably_sorted(final(self)@, old(self)@),
            same_timeline(final(self)@, old(self)@),
            final(self)@.to_multiset() == old(self)@.to_multiset(),
            final(self)@.len() == old(self)@.len(),
    {
        proof {
            lemma_tempo_at_default(self.data@, tick as int);
            assert forall|i: int| governs(self.data@, tick as int, i) implies tempo_at(
                self.data@,
                tick as int,
            ) == self.data@[i].tempo by {
                lemma_tempo_at_governed(self.data@, tick as int, i);
            }
        }
        self.sort();
        let mut i: usize = self.data.len();
        while i > 0
            invariant
                i <= self.data@.len(),
                stably_sorted(self.data@, old(self).data@),
                same_timeline(self.data@, old(self).data@),
                self.data@.to_multiset() == old(self).data@.to_multiset(),
                self.data@.len() == old(self).data@.len(),
                forall|j: int| i <= j < self.data@.len() ==> #[trigger] self.data@[j].tick > tick,
            decreases i,
        {
            i -= 1;
            if self.data[i].tick <= tick {
                proof {
                    lemma_sorted_governs(self.data@, tick as int, i as int);
                    lemma_tempo_at_governed(self.data@, tick as int, i as int);
                }
                return self.data[i].tempo;
            }
        }
        proof {
            lemma_tempo_at_default(self.data@, tick as int);
        }
        DEFAULT_TEMPO
    }
}

} // verus!
