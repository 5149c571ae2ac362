//! What a file yields, stated over its tracks: the tick position and the time of each
//! event, the tempo changes found, and the commands that come of its notes.
//!
//! Every track is replayed from tick zero over the tempo changes of all tracks. The
//! commands of a track follow those of the tracks before it, whatever their times: the
//! whole is ordered by time within each track only.

use vstd::prelude::*;
use crate::command::{command_for, Command};
use crate::event::{EventKind, TrackEvent};
use crate::sequence::{ordered_within_tracks, time_ordered, track_end};
use crate::tempo::{same_timeline, tempo_at, TempoEvent};
use crate::time::{lemma_elapsed_bounded, scaled_micros};

verus! {


/// The tick position after the first `n` events of a track.
pub open spec fn position(events: Seq<TrackEvent>, n: int) -> int
    decreases n,
{
    if n <= 0 {
        0
    } else {
        position(events, n - 1) + events[n - 1].delta_ticks
    }
}

/// The tick positions of a track fit in 32 bits.
pub open spec fn fits(events: Seq<TrackEvent>) -> bool {
    position(events, events.len() as int) <= u32::MAX
}

/// The tick positions of every track fit in 32 bits.
pub open spec fn all_fit(tracks: Seq<Seq<TrackEvent>>) -> bool {
    forall|k: int| 0 <= k < tracks.len() ==> fits(#[trigger] tracks[k])
}

/// The tempo changes among the first `n` events of a track, each at the position of
/// its event.
pub open spec fn track_tempos(events: Seq<TrackEvent>, n: int) -> Seq<TempoEvent>
    decreases n,
{
    if n <= 0 {
        Seq::empty()
    } else {
        let before = track_tempos(events, n - 1);
        match events[n - 1].kind {
            EventKind::TempoChange { tempo } => before.push(
                TempoEvent { tick: position(events, n) as u32, tempo },
            ),
            _ => before,
        }
    }
}

/// The tempo changes of the first `k` tracks, in file order.
pub open spec fn discovered(tracks: Seq<Seq<TrackEvent>>, k: int) -> Seq<TempoEvent>
    decreases k,
{
    if k <= 0 {
        Seq::empty()
    } else {
        discovered(tracks, k - 1) + track_tempos(tracks[k - 1], tracks[k - 1].len() as int)
    }
}

/// The scaled microseconds from the start of a track to its `n`-th event: each delta
/// lasts what it lasts at the tempo in effect at the position that it leads to.
pub open spec fn time_after(events: Seq<TrackEvent>, tempos: Seq<TempoEvent>, n: int) -> int
    decreases n,
{
    if n <= 0 {
        0
    } else {
        time_after(events, tempos, n - 1) + scaled_micros(
            events[n - 1].delta_ticks as int,
            tempo_at(tempos, position(events, n)) as int,
        )
    }
}

/// The commands that the first `n` events of a track give rise to, each at the time of
/// its event.
pub open spec fn track_commands(events: Seq<TrackEvent>, tempos: Seq<TempoEvent>, n: int) -> Seq<
    Command,
>
    decreases n,
{
    if n <= 0 {
        Seq::empty()
    } else {
        let before = track_commands(events, tempos, n - 1);
        match command_for(events[n - 1].kind, time_after(events, tempos, n) as u64) {
            Some(command) => before.push(command),
            None => before,
        }
    }
}

/// The commands of the first `k` tracks: those of each track behind those of the
/// tracks before it.
pub open spec fn commands_before(
    tracks: Seq<Seq<TrackEvent>>,
    tempos: Seq<TempoEvent>,
    k: int,
) -> Seq<Command>
    decreases k,
{
    if k <= 0 {
        Seq::empty()
    } else {
        commands_before(tracks, tempos, k - 1) + track_commands(
            tracks[k - 1],
            tempos,
            tracks[k - 1].len() as int,
        )
    }
}

/// For each of the first `k` tracks, the number of commands before its own.
pub open spec fn starts_before(
    tracks: Seq<Seq<TrackEvent>>,
    tempos: Seq<TempoEvent>,
    k: int,
) -> Seq<int> {
    Seq::new(k as nat, |t: int| commands_before(tracks, tempos, t).len() as int)
}

/// What sequencing a file yields: the commands of all its tracks over the tempo
/// changes of all its tracks.
pub open spec fn file_commands(tracks: Seq<Seq<TrackEvent>>) -> Seq<Command> {
    commands_before(tracks, discovered(tracks, tracks.len() as int), tracks.len() as int)
}

/// Where the commands of each track of a file begin in [`file_commands`].
pub open spec fn file_track_starts(tracks: Seq<Seq<TrackEvent>>) -> Seq<int> {
    starts_before(tracks, discovered(tracks, tracks.len() as int), tracks.len() as int)
}

/// Tick positions never fall along a track.
pub proof fn lemma_position_monotonic(events: Seq<TrackEvent>, i: int, j: int)
    requires
        0 <= i <= j,
    ensures
        0 <= position(events, i) <= position(events, j),
    decreases j,
{
    if j > 0 {
        if i < j {
            lemma_position_monotonic(events, i, j - 1);
        } else {
            lemma_position_monotonic(events, i - 1, j - 1);
        }
    }
}

/// Time never runs backwards along a track, and it is at most what the ticks passed
/// last at the slowest tempo.
pub proof fn lemma_time_monotonic(events: Seq<TrackEvent>, tempos: Seq<TempoEvent>, i: int, j: int)
    requires
        0 <= i <= j,
    ensures
        0 <= time_after(events, tempos, i) <= time_after(events, tempos, j),
        time_after(events, tempos, j) <= position(events, j) * u32::MAX,
    decreases j,
{
    if j > 0 {
        if i < j {
            lemma_time_monotonic(events, tempos, i, j - 1);
        } else {
            lemma_time_monotonic(events, tempos, i - 1, j - 1);
        }
        lemma_elapsed_bounded(
            events[j - 1].delta_ticks as int,
            tempo_at(tempos, position(events, j)) as int,
        );
    }
}

/// In a track whose positions fit in 32 bits, time fits in 64 bits.
pub proof fn lemma_time_fits(events: Seq<TrackEvent>, tempos: Seq<TempoEvent>, n: int)
    requires
        0 <= n <= events.len(),
        fits(events),
    ensures
        0 <= time_after(events, tempos, n) <= u64::MAX,
        0 <= position(events, n) <= u32::MAX,
{
    lemma_time_monotonic(events, tempos, n, n);
    lemma_position_monotonic(events, n, events.len() as int);
    assert(position(events, n) * u32::MAX <= u32::MAX * u32::MAX) by (nonlinear_arith)
        requires
            0 <= position(events, n) <= u32::MAX,
    ;
}

/// The commands of a track come in the order of their times, none later than the
/// time of the last event taken.
pub proof fn lemma_track_commands_ordered(
    events: Seq<TrackEvent>,
    tempos: Seq<TempoEvent>,
    n: int,
)
    requires
        0 <= n <= events.len(),
        fits(events),
    ensures
        time_ordered(
            track_commands(events, tempos, n),
            0,
            track_commands(events, tempos, n).len() as int,
        ),
        forall|i: int|
            0 <= i < track_commands(events, tempos, n).len() ==> (#[trigger] track_commands(
                events,
                tempos,
                n,
            )[i]).spec_time() <= time_after(events, tempos, n),
    decreases n,
{
    if n > 0 {
        lemma_track_commands_ordered(events, tempos, n - 1);
        lemma_time_monotonic(events, tempos, n - 1, n);
        lemma_time_fits(events, tempos, n);
    }
}

/// Two tempo maps that answer every lookup alike give a track the same times and the
/// same commands: the order in which a map holds its events does not matter.
pub proof fn lemma_same_timeline_same_commands(
    events: Seq<TrackEvent>,
    a: Seq<TempoEvent>,
    b: Seq<TempoEvent>,
    n: int,
)
    requires
        same_timeline(a, b),
    ensures
        time_after(events, a, n) == time_after(events, b, n),
        track_commands(events, a, n) == track_commands(events, b, n),
    decreases n,
{
    if n > 0 {
        lemma_same_timeline_same_commands(events, a, b, n - 1);
    }
}

/// A key struck with velocity 0 is a key released: the command is a stop, the same as
/// that of an outright release of the key at that time, whatever the velocity of the
/// release.
pub proof fn lemma_zero_velocity_stops(key: u8, velocity: u8, time: u64)
    ensures
        command_for(EventKind::NoteOn { key, velocity: 0 }, time) == command_for(
            EventKind::NoteOff { key, velocity },
            time,
        ),
        command_for(EventKind::NoteOn { key, velocity: 0 }, time) matches Some(
            Command::StopNote { .. },
        ),
{
}

/// The track `events` with the strike at `at` written as a release of the same key
/// with `velocity`.
pub open spec fn released(events: Seq<TrackEvent>, at: int, velocity: u8) -> Seq<TrackEvent> {
    events.update(
        at,
        TrackEvent {
            delta_ticks: events[at].delta_ticks,
            kind: EventKind::NoteOff { key: events[at].kind->NoteOn_key, velocity },
        },
    )
}

/// The event at `at` is a key struck with velocity 0.
pub open spec fn struck_silent(events: Seq<TrackEvent>, at: int) -> bool {
    &&& 0 <= at < events.len()
    &&& events[at].kind matches EventKind::NoteOn { velocity, .. } && velocity == 0
}

/// Writing the release of a key in place of a strike with velocity 0 changes nothing
/// in what a track yields: not its positions, its tempo changes or its times, and not
/// its commands.
pub proof fn lemma_zero_velocity_is_release(
    events: Seq<TrackEvent>,
    tempos: Seq<TempoEvent>,
    at: int,
    velocity: u8,
    n: int,
)
    requires
        struck_silent(events, at),
        0 <= n <= events.len(),
    ensures
        position(released(events, at, velocity), n) == position(events, n),
        track_tempos(released(events, at, velocity), n) == track_tempos(events, n),
        time_after(released(events, at, velocity), tempos, n) == time_after(events, tempos, n),
        track_commands(released(events, at, velocity), tempos, n) == track_commands(
            events,
            tempos,
            n,
        ),
    decreases n,
{
    if n > 0 {
        lemma_zero_velocity_is_release(events, tempos, at, velocity, n - 1);
        let other = released(events, at, velocity);
        assert(other[n - 1].delta_ticks == events[n - 1].delta_ticks);
        if n - 1 != at {
            assert(other[n - 1] == events[n - 1]);
        }
    }
}

/// Writing the release of a key in place of a strike with velocity 0, in any track of
/// a file, changes nothing in what the file yields: the same tracks fit, the same tempo
/// changes are found, and the same commands come out at the same places.
pub proof fn lemma_zero_velocity_is_release_in_file(
    tracks: Seq<Seq<TrackEvent>>,
    track: int,
    at: int,
    velocity: u8,
)
    requires
        0 <= track < tracks.len(),
        struck_silent(tracks[track], at),
    ensures
        ({
            let other = tracks.update(track, released(tracks[track], at, velocity));
            &&& all_fit(other) <==> all_fit(tracks)
            &&& discovered(other, other.len() as int) == discovered(tracks, tracks.len() as int)
            &&& file_commands(other) == file_commands(tracks)
            &&& file_track_starts(other) == file_track_starts(tracks)
        }),
{
    let other = tracks.update(track, released(tracks[track], at, velocity));
    let count = tracks.len() as int;
    lemma_release_keeps_tempos(tracks, track, at, velocity, count);
    let tempos = discovered(tracks, count);
    lemma_release_keeps_commands(tracks, tempos, track, at, velocity, count);
    assert(file_track_starts(other) =~= file_track_starts(tracks)) by {
        assert forall|t: int| 0 <= t < count implies commands_before(other, tempos, t)
            == commands_before(tracks, tempos, t) by {
            lemma_release_keeps_commands(tracks, tempos, track, at, velocity, t);
        }
    }
    lemma_zero_velocity_is_release(
        tracks[track],
        tempos,
        at,
        velocity,
        tracks[track].len() as int,
    );
    if all_fit(tracks) {
        assert forall|k: int| 0 <= k < other.len() implies fits(#[trigger] other[k]) by {
            assert(fits(tracks[k]));
        }
    }
    if all_fit(other) {
        assert forall|k: int| 0 <= k < tracks.len() implies fits(#[trigger] tracks[k]) by {
            assert(fits(other[k]));
        }
    }
}

/// The tempo changes of the first `n` tracks stay when a strike with velocity 0 is
/// written as a release.
proof fn lemma_release_keeps_tempos(
    tracks: Seq<Seq<TrackEvent>>,
    track: int,
    at: int,
    velocity: u8,
    n: int,
)
    requires
        0 <= track < tracks.len(),
        struck_silent(tracks[track], at),
        0 <= n <= tracks.len(),
    ensures
        discovered(tracks.update(track, released(tracks[track], at, velocity)), n) == discovered(
            tracks,
            n,
        ),
    decreases n,
{
    if n > 0 {
        lemma_release_keeps_tempos(tracks, track, at, velocity, n - 1);
        if n - 1 == track {
            lemma_zero_velocity_is_release(
                tracks[track],
                Seq::empty(),
                at,
                velocity,
                tracks[track].len() as int,
            );
        }
    }
}

/// The commands of the first `n` tracks stay when a strike with velocity 0 is written
/// as a release.
proof fn lemma_release_keeps_commands(
    tracks: Seq<Seq<TrackEvent>>,
    tempos: Seq<TempoEvent>,
    track: int,
    at: int,
    velocity: u8,
    n: int,
)
    requires
        0 <= track < tracks.len(),
        struck_silent(tracks[track], at),
        0 <= n <= tracks.len(),
    ensures
        commands_before(tracks.update(track, released(tracks[track], at, velocity)), tempos, n)
            == commands_before(tracks, tempos, n),
    decreases n,
{
    if n > 0 {
        lemma_release_keeps_commands(tracks, tempos, track, at, velocity, n - 1);
        if n - 1 == track {
            lemma_zero_velocity_is_release(
                tracks[track],
                tempos,
                at,
                velocity,
                tracks[track].len() as int,
            );
        }
    }
}

/// Every command of a track names the channel that has an instrument, and no volume
/// is above full volume.
pub proof fn lemma_track_commands_well_formed(
    events: Seq<TrackEvent>,
    tempos: Seq<TempoEvent>,
    n: int,
)
    ensures
        forall|i: int|
            0 <= i < track_commands(events, tempos, n).len() ==> (#[trigger] track_commands(
                events,
                tempos,
                n,
            )[i]).well_formed(),
    decreases n,
{
    if n > 0 {
        lemma_track_commands_well_formed(events, tempos, n - 1);
        let before = track_commands(events, tempos, n - 1);
        let now = track_commands(events, tempos, n);
        assert forall|i: int| 0 <= i < now.len() implies (#[trigger] now[i]).well_formed() by {
            if i < before.len() {
                assert(now[i] == before[i]);
            }
        }
    }
}

/// Every command of a file names the channel that has an instrument, and no volume is
/// above full volume.
pub proof fn lemma_commands_well_formed(
    tracks: Seq<Seq<TrackEvent>>,
    tempos: Seq<TempoEvent>,
    k: int,
)
    ensures
        forall|i: int|
            0 <= i < commands_before(tracks, tempos, k).len() ==> (#[trigger] commands_before(
                tracks,
                tempos,
                k,
            )[i]).well_formed(),
    decreases k,
{
    if k > 0 {
        lemma_commands_well_formed(tracks, tempos, k - 1);
        lemma_track_commands_well_formed(tracks[k - 1], tempos, tracks[k - 1].len() as int);
        let before = commands_before(tracks, tempos, k - 1);
        let own = track_commands(tracks[k - 1], tempos, tracks[k - 1].len() as int);
        let now = commands_before(tracks, tempos, k);
        assert forall|i: int| 0 <= i < now.len() implies (#[trigger] now[i]).well_formed() by {
            if i < before.len() {
                assert(now[i] == before[i]);
            } else {
                assert(now[i] == own[i - before.len()]);
            }
        }
    }
}

/// The commands of the first `k` tracks stand at the front of those of the first `l`.
pub proof fn lemma_commands_before_prefix(
    tracks: Seq<Seq<TrackEvent>>,
    tempos: Seq<TempoEvent>,
    k: int,
    l: int,
)
    requires
        0 <= k <= l,
    ensures
        commands_before(tracks, tempos, k).len() <= commands_before(tracks, tempos, l).len(),
        commands_before(tracks, tempos, l).subrange(
            0,
            commands_before(tracks, tempos, k).len() as int,
        ) == commands_before(tracks, tempos, k),
    decreases l,
{
    let shorter = commands_before(tracks, tempos, k);
    let longer = commands_before(tracks, tempos, l);
    if k < l {
        lemma_commands_before_prefix(tracks, tempos, k, l - 1);
        let middle = commands_before(tracks, tempos, l - 1);
        assert(middle.subrange(0, shorter.len() as int) == shorter);
        assert(longer.subrange(0, shorter.len() as int) =~= middle.subrange(
            0,
            shorter.len() as int,
        ));
    } else {
        assert(longer.subrange(0, shorter.len() as int) =~= shorter);
    }
}

/// Sequenced over any tempo map, the commands of each track whose positions fit come
/// in the order of their times.
pub proof fn lemma_ordered_within_tracks(
    tracks: Seq<Seq<TrackEvent>>,
    tempos: Seq<TempoEvent>,
)
    requires
        all_fit(tracks),
    ensures
        ordered_within_tracks(
            commands_before(tracks, tempos, tracks.len() as int),
            starts_before(tracks, tempos, tracks.len() as int),
        ),
{
    let count = tracks.len() as int;
    let commands = commands_before(tracks, tempos, count);
    let starts = starts_before(tracks, tempos, count);
    assert forall|k: int| 0 <= k < starts.len() implies time_ordered(
        commands,
        #[trigger] starts[k],
        track_end(starts, commands.len() as int, k),
    ) by {
        lemma_track_span(tracks, tempos, k);
    }
}

/// The commands of track `k` stand in the whole sequence from its start to its end,
/// in the order of their times.
pub proof fn lemma_track_span(tracks: Seq<Seq<TrackEvent>>, tempos: Seq<TempoEvent>, k: int)
    requires
        0 <= k < tracks.len(),
        all_fit(tracks),
    ensures
        ({
            let count = tracks.len() as int;
            let commands = commands_before(tracks, tempos, count);
            let starts = starts_before(tracks, tempos, count);
            &&& starts[k] == commands_before(tracks, tempos, k).len()
            &&& track_end(starts, commands.len() as int, k) == commands_before(
                tracks,
                tempos,
                k + 1,
            ).len()
            &&& starts[k] <= track_end(starts, commands.len() as int, k) <= commands.len()
            &&& commands.subrange(starts[k], track_end(starts, commands.len() as int, k))
                == track_commands(tracks[k], tempos, tracks[k].len() as int)
            &&& time_ordered(commands, starts[k], track_end(starts, commands.len() as int, k))
        }),
{
    let count = tracks.len() as int;
    let commands = commands_before(tracks, tempos, count);
    let starts = starts_before(tracks, tempos, count);
    let before = commands_before(tracks, tempos, k);
    let through = commands_before(tracks, tempos, k + 1);
    let own = track_commands(tracks[k], tempos, tracks[k].len() as int);
    lemma_commands_before_prefix(tracks, tempos, k + 1, count);
    lemma_commands_before_prefix(tracks, tempos, k, k + 1);
    assert(fits(tracks[k]));
    lemma_track_commands_ordered(tracks[k], tempos, tracks[k].len() as int);
    assert(through == before + own);
    assert(commands.subrange(0, through.len() as int) == through);
    assert forall|i: int| 0 <= i < own.len() implies commands[before.len() + i] == own[i] by {
        assert(commands.subrange(0, through.len() as int)[before.len() + i] == through[before.len()
            + i]);
    }
    assert(commands.subrange(before.len() as int, through.len() as int) =~= own);
    assert forall|i: int, j: int| before.len() <= i <= j < through.len() implies (
    #[trigger] commands[i]).spec_time() <= (#[trigger] commands[j]).spec_time() by {
        assert(commands[i] == own[i - before.len()]);
        assert(commands[j] == own[j - before.len()]);
    }
}

} // verus!
