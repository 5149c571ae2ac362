//! The sequence that sequencing a file yields: the commands of all its tracks in one
//! list, with the place at which each track begins.

use vstd::prelude::*;
use crate::command::Command;

verus! {

/// The commands of all tracks of a file, one track after the other.
#[derive(Debug)]
pub struct Sequence {
    /// The commands, in the order of the tracks and, within a track, of its events.
    pub commands: Vec<Command>,
    /// For each track, the index in `commands` at which its commands begin.
    pub track_starts: Vec<usize>,
    /// The unit of the commands' times: they count `1 / ticks_per_quarter_note` microseconds.
    pub ticks_per_quarter_note: u16,
}

/// Indices as plain integers.
pub open spec fn as_ints(indices: Seq<usize>) -> Seq<int> {
    indices.map_values(|index: usize| index as int)
}

/// The commands from `from` up to `to` come in the order of their times.
pub open spec fn time_ordered(commands: Seq<Command>, from: int, to: int) -> bool {
    forall|i: int, j: int|
        from <= i <= j < to ==> (#[trigger] commands[i]).spec_time() <= (
        #[trigger] commands[j]).spec_time()
}

/// Where the commands of track `k` end: where those of the next track begin, or at
/// the end of the sequence.
pub open spec fn track_end(track_starts: Seq<int>, total: int, k: int) -> int {
    if k + 1 < track_starts.len() {
        track_starts[k + 1]
    } else {
        total
    }
}

/// Within each track the commands come in the order of their times.
pub open spec fn ordered_within_tracks(commands: Seq<Command>, track_starts: Seq<int>) -> bool {
    forall|k: int|
        0 <= k < track_starts.len() ==> time_ordered(
            commands,
            #[trigger] track_starts[k],
            track_end(track_starts, commands.len() as int, k),
        )
}

impl Sequence {
    /// For each track, the index in `commands` at which its commands begin.
    pub open spec fn starts(&self) -> Seq<int> {
        as_ints(self.track_starts@)
    }

    /// The commands of a track reach from its start to its end, within the sequence.
    pub open spec fn has_track(&self, track: int) -> bool {
        &&& 0 <= track < self.starts().len()
        &&& 0 <= self.starts()[track] <= track_end(
            self.starts(),
            self.commands@.len() as int,
            track,
        ) <= self.commands@.len()
    }

    /// Where the commands of a track stand in `commands`: from the first index up to,
    /// not including, the second. `None` for a track that the sequence does not have.
    pub fn track_span(&self, track: usize) -> (span: Option<(usize, usize)>)
        ensures
            match span {
                Some((from, to)) => {
                    &&& self.has_track(track as int)
                    &&& from == self.starts()[track as int]
                    &&& to == track_end(self.starts(), self.commands@.len() as int, track as int)
                },
                None => !self.has_track(track as int),
            },
    {
        if track >= self.track_starts.len() {
            return None;
        }
        let from = self.track_starts[track];
        let to = if track + 1 < self.track_starts.len() {
            self.track_starts[track + 1]
        } else {
            self.commands.len()
        };
        if from <= to && to <= self.commands.len() {
            Some((from, to))
        } else {
            None
        }
    }
}

} // verus!
