//! The parsed contents of a file: tracks of events, each a tick delta after the one before.

use vstd::prelude::*;

verus! {

/// What happens at an event.
#[derive(Clone, Copy, Debug, PartialEq, Eq, Structural)]
pub enum EventKind {
    /// From here on a quarter note lasts `tempo` microseconds, in every track.
    TempoChange { tempo: u32 },
    /// A key is struck. Struck with velocity 0, it is released.
    NoteOn { key: u8, velocity: u8 },
    /// A key is released.
    NoteOff { key: u8, velocity: u8 },
    /// Anything that neither changes the tempo nor sounds.
    Other,
}

/// An event and the ticks between it and the event before it in its track.
#[derive(Clone, Copy, Debug, PartialEq, Eq, Structural)]
pub struct TrackEvent {
    pub delta_ticks: u32,
    pub kind: EventKind,
}

/// The events of one track, in file order.
#[derive(Debug)]
pub struct Track {
    pub events: Vec<TrackEvent>,
}

impl View for Track {
    type V = Seq<TrackEvent>;

    open spec fn view(&self) -> Seq<TrackEvent> {
        self.events@
    }
}

/// The tracks of a file as sequences of events.
pub open spec fn track_views(tracks: Seq<Track>) -> Seq<Seq<TrackEvent>> {
    Seq::new(tracks.len(), |k: int| tracks[k]@)
}

} // verus!
