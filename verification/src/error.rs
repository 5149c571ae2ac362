//! The ways in which sequencing a file can fail.

use vstd::prelude::*;

verus! {

/// Why a file could not be sequenced. Every failure ends the work on the file: no part
/// of a sequence is handed out.
#[derive(Clone, Copy, Debug, PartialEq, Eq, Structural)]
pub enum SequenceError {
    /// The file counts time by timecode frames, not by ticks per quarter note.
    UnsupportedTimeResolution,
    /// A command names a channel that has no instrument.
    InvalidVoiceReference,
    /// A volume lies above full volume.
    MalformedVolume,
    /// The tick position of a track does not fit in 32 bits.
    TickOverflow,
}

} // verus!
