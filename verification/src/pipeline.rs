//! The two passes over a file: the tempo changes of all tracks are gathered into one
//! map, then every track is replayed over that map and its notes are turned into
//! commands.

use vstd::prelude::*;
use crate::builder::SequenceBuilder;
use crate::error::SequenceError;
use crate::event::{track_views, EventKind, Track, TrackEvent};
use crate::sequence::{ordered_within_tracks, Sequence};
use crate::tempo::{same_timeline, TempoHelper};
use crate::time::{ticks_per_quarter_note, TimeResolution};
use crate::timeline::{
    all_fit,
    commands_before,
    discovered,
    file_commands,
    file_track_starts,
    fits,
    lemma_commands_well_formed,
    lemma_ordered_within_tracks,
    lemma_position_monotonic,
    lemma_track_span,
    position,
    starts_before,
    time_after,
    track_commands,
    track_tempos,
};

verus! {

/// What sequencing a file with these tracks has to yield: for ticks per quarter note
/// and tracks that fit, the commands of the file, with the place at which each track
/// begins and the resolution that their times count in; for timecode, a refusal before
/// anything else; for a track that does not fit, a refusal.
pub open spec fn sequenced(
    resolution: TimeResolution,
    tracks: Seq<Seq<TrackEvent>>,
    result: Result<Sequence, SequenceError>,
) -> bool {
    match result {
        Ok(sequence) => {
            &&& resolution == TimeResolution::TicksPerQuarterNote(sequence.ticks_per_quarter_note)
            &&& all_fit(tracks)
            &&& sequence.commands@ == file_commands(tracks)
            &&& sequence.starts() == file_track_starts(tracks)
        },
        Err(error) => match resolution {
            TimeResolution::Timecode => error == SequenceError::UnsupportedTimeResolution,
            TimeResolution::TicksPerQuarterNote(_) => !all_fit(tracks) && error
                == SequenceError::TickOverflow,
        },
    }
}

/// Sequencing is repeatable: whatever it yields for a file, it yields whenever it is
/// given that file. Two results for the same resolution and tracks are the same
/// refusal, or hold the same commands, track starts and resolution.
pub proof fn lemma_sequencing_repeats(
    resolution: TimeResolution,
    tracks: Seq<Seq<TrackEvent>>,
    first: Result<Sequence, SequenceError>,
    second: Result<Sequence, SequenceError>,
)
    requires
        sequenced(resolution, tracks, first),
        sequenced(resolution, tracks, second),
    ensures
        match (first, second) {
            (Ok(a), Ok(b)) => {
                &&& a.commands@ == b.commands@
                &&& a.track_starts@ == b.track_starts@
                &&& a.ticks_per_quarter_note == b.ticks_per_quarter_note
            },
            (Err(a), Err(b)) => a == b,
            _ => false,
        },
{
    if let (Ok(a), Ok(b)) = (first, second) {
        assert(a.track_starts@.len() == a.starts().len());
        assert(b.track_starts@.len() == b.starts().len());
        assert forall|k: int| 0 <= k < a.track_starts@.len() implies a.track_starts@[k]
            == b.track_starts@[k] by {
            assert(a.starts()[k] == a.track_starts@[k] as int);
            assert(b.starts()[k] == b.track_starts@[k] as int);
        }
        assert(a.track_starts@ =~= b.track_starts@);
    }
}

/// The first pass: gathers the tempo changes of all tracks into one map, each at the
/// tick position of its event in its own track, in file order.
///
/// Fails with `TickOverflow` where the tick positions of some track do not fit in 32
/// bits.
pub fn discover_tempos(tracks: &Vec<Track>) -> (result: Result<TempoHelper, SequenceError>)
    ensures
        match result {
            Ok(map) => {
                &&& all_fit(track_views(tracks@))
                &&& map@ == discovered(track_views(tracks@), tracks@.len() as int)
            },
            Err(error) => !all_fit(track_views(tracks@)) && error == SequenceError::TickOverflow,
        },
{
    let ghost views = track_views(tracks@);
    let mut map = TempoHelper::new();
    let mut k: usize = 0;
    while k < tracks.len()
        invariant
            k <= tracks@.len(),
            views == track_views(tracks@),
            map@ == discovered(views, k as int),
            forall|t: int| 0 <= t < k ==> fits(#[trigger] views[t]),
        decreases tracks@.len() - k,
    {
        let events = &tracks[k].events;
        let ghost found = map@;
        let mut at_tick: u32 = 0;
        let mut i: usize = 0;
        while i < events.len()
            invariant
                i <= events@.len(),
                k < tracks@.len(),
                views == track_views(tracks@),
                events@ == views[k as int],
                at_tick == position(events@, i as int),
                map@ == found + track_tempos(events@, i as int),
            decreases events@.len() - i,
        {
            let event = events[i];
            if event.delta_ticks > u32::MAX - at_tick {
                proof {
                    lemma_position_monotonic(events@, i + 1, events@.len() as int);
                    assert(!fits(views[k as int]));
                }
                return Err(SequenceError::TickOverflow);
            }
            at_tick = at_tick + event.delta_ticks;
            match event.kind {
                EventKind::TempoChange { tempo } => {
                    map.new_tempo(at_tick, tempo);
                },
                _ => {},
            }
            proof {
                assert(map@ =~= found + track_tempos(events@, i + 1));
            }
            i += 1;
        }
        k += 1;
    }
    Ok(map)
}

/// The second pass: replays every track from tick zero over `tempo_map` and emits the
/// commands of its notes, those of each track behind those of the tracks before it.
///
/// Fails with `TickOverflow` where the tick positions of some track do not fit in 32
/// bits.
pub fn sequence_tracks(
    tempo_map: TempoHelper,
    ticks_per_quarter_note: u16,
    tracks: &Vec<Track>,
) -> (result: Result<Sequence, SequenceError>)
    ensures
        match result {
            Ok(sequence) => {
                &&& all_fit(track_views(tracks@))
                &&& sequence.commands@ == commands_before(
                    track_views(tracks@),
                    tempo_map@,
                    tracks@.len() as int,
                )
                &&& sequence.starts() == starts_before(
                    track_views(tracks@),
                    tempo_map@,
                    tracks@.len() as int,
                )
                &&& sequence.ticks_per_quarter_note == ticks_per_quarter_note
                &&& forall|k: int| 0 <= k < tracks@.len() ==> #[trigger] sequence.has_track(k)
                &&& ordered_within_tracks(sequence.commands@, sequence.starts())
                &&& forall|i: int|
                    0 <= i < sequence.commands@.len() ==> (
                    #[trigger] sequence.commands@[i]).well_formed()
            },
            Err(error) => !all_fit(track_views(tracks@)) && error == SequenceError::TickOverflow,
        },
{
    let ghost views = track_views(tracks@);
    let ghost tempos = tempo_map@;
    let mut builder = SequenceBuilder::new(tempo_map, ticks_per_quarter_note);
    let mut k: usize = 0;
    while k < tracks.len()
        invariant
            k <= tracks@.len(),
            views == track_views(tracks@),
            same_timeline(builder.tempo_events(), tempos),
            builder.resolution() == ticks_per_quarter_note,
            builder@.commands == commands_before(views, tempos, k as int),
            builder@.track_starts == starts_before(views, tempos, k as int),
            forall|t: int| 0 <= t < k ==> fits(#[trigger] views[t]),
        decreases tracks@.len() - k,
    {
        let events = &tracks[k].events;
        let ghost before = builder@.commands;
        builder.reset_for_new_track();
        proof {
            assert(builder@.track_starts =~= starts_before(views, tempos, k + 1));
        }
        let mut i: usize = 0;
        while i < events.len()
            invariant
                i <= events@.len(),
                k < tracks@.len(),
                views == track_views(tracks@),
                events@ == views[k as int],
                same_timeline(builder.tempo_events(), tempos),
                builder.resolution() == ticks_per_quarter_note,
                builder@.cursor == position(events@, i as int),
                position(events@, i as int) <= u32::MAX,
                builder@.time == time_after(events@, tempos, i as int),
                builder@.commands == before + track_commands(events@, tempos, i as int),
                builder@.track_starts == starts_before(views, tempos, k + 1),
            decreases events@.len() - i,
        {
            match builder.process_event(&events[i]) {
                Ok(_) => {},
                Err(error) => {
                    proof {
                        lemma_position_monotonic(events@, i + 1, events@.len() as int);
                        assert(!fits(views[k as int]));
                    }
                    return Err(error);
                },
            }
            proof {
                assert(builder@.commands =~= before + track_commands(events@, tempos, i + 1));
            }
            i += 1;
        }
        k += 1;
    }
    let sequence = builder.finish();
    proof {
        assert(all_fit(views));
        lemma_ordered_within_tracks(views, tempos);
        assert forall|k: int| 0 <= k < tracks@.len() implies #[trigger] sequence.has_track(k) by {
            lemma_track_span(views, tempos, k);
        }
        lemma_commands_well_formed(views, tempos, tracks@.len() as int);
    }
    Ok(sequence)
}

/// Sequences a file: refuses a time resolution other than ticks per quarter note
/// before anything else, gathers the tempo changes of all tracks, then replays every
/// track over them.
///
/// Fails with `UnsupportedTimeResolution` for a file that counts by timecode, else
/// with `TickOverflow` where the tick positions of some track do not fit in 32 bits.
pub fn sequence_file(resolution: TimeResolution, tracks: &Vec<Track>) -> (result: Result<
    Sequence,
    SequenceError,
>)
    ensures
        sequenced(resolution, track_views(tracks@), result),
        result matches Ok(sequence) ==> forall|k: int|
            0 <= k < tracks@.len() ==> #[trigger] sequence.has_track(k),
        result matches Ok(sequence) ==> ordered_within_tracks(
            sequence.commands@,
            sequence.starts(),
        ),
        result matches Ok(sequence) ==> forall|i: int|
            0 <= i < sequence.commands@.len() ==> (#[trigger] sequence.commands@[i]).well_formed(),
{
    let ticks = match ticks_per_quarter_note(resolution) {
        Ok(ticks) => ticks,
        Err(error) => {
            return Err(error);
        },
    };
    let tempo_map = match discover_tempos(tracks) {
        Ok(tempo_map) => tempo_map,
        Err(error) => {
            return Err(error);
        },
    };
    sequence_tracks(tempo_map, ticks, tracks)
}

} // verus!
