//! The sequence builder: walks the events of one track after another and turns them
//! into timed commands, all in one sequence.

use vstd::prelude::*;
use crate::command::{
    command_for,
    velocity_to_volume,
    Command,
    VoiceKey,
    FULL_VOLUME,
    OUTPUT_CHANNEL,
};
use crate::error::SequenceError;
use crate::event::{EventKind, TrackEvent};
use crate::sequence::{as_ints, Sequence};
use crate::tempo::{same_timeline, tempo_at, TempoEvent, TempoHelper};
use crate::time::{scaled_micros, TimeCursor};

verus! {

/// What a builder has reached: where it stands in the current track, and what it has
/// emitted.
pub struct BuilderState {
    /// The tick position in the current track.
    pub cursor: int,
    /// The scaled microseconds since the start of the current track.
    pub time: int,
    /// The commands emitted so far.
    pub commands: Seq<Command>,
    /// For each track begun so far, the number of commands emitted before it.
    pub track_starts: Seq<int>,
}

impl BuilderState {
    /// The state at the start of the next track.
    pub open spec fn reset(self) -> BuilderState {
        BuilderState {
            cursor: 0,
            time: 0,
            commands: self.commands,
            track_starts: self.track_starts.push(self.commands.len() as int),
        }
    }

    /// The tick position that `delta_ticks` more ticks lead to.
    pub open spec fn next_cursor(self, delta_ticks: u32) -> int {
        self.cursor + delta_ticks
    }

    /// The time that `delta_ticks` more ticks lead to: they pass at the tempo in
    /// effect at the position that they lead to.
    pub open spec fn next_time(self, delta_ticks: u32, tempos: Seq<TempoEvent>) -> int {
        self.time + scaled_micros(
            delta_ticks as int,
            tempo_at(tempos, self.next_cursor(delta_ticks)) as int,
        )
    }

    /// The state after `delta_ticks` more ticks.
    pub open spec fn advanced(self, delta_ticks: u32, tempos: Seq<TempoEvent>) -> BuilderState {
        BuilderState {
            cursor: self.next_cursor(delta_ticks),
            time: self.next_time(delta_ticks, tempos),
            commands: self.commands,
            track_starts: self.track_starts,
        }
    }

    /// The state after emitting `command`.
    pub open spec fn emitted(self, command: Command) -> BuilderState {
        BuilderState {
            cursor: self.cursor,
            time: self.time,
            commands: self.commands.push(command),
            track_starts: self.track_starts,
        }
    }

    /// The state after an event: time advances by its delta, then its command, if it
    /// has one, is emitted at the time reached.
    pub open spec fn after_event(self, event: TrackEvent, tempos: Seq<TempoEvent>) -> BuilderState {
        let moved = self.advanced(event.delta_ticks, tempos);
        match command_for(event.kind, moved.time as u64) {
            Some(command) => moved.emitted(command),
            None => moved,
        }
    }
}

/// Accumulates the commands of a file, track by track, over a finished tempo map.
pub struct SequenceBuilder {
    tempo_map: TempoHelper,
    ticks_per_quarter_note: u16,
    clock: TimeCursor,
    commands: Vec<Command>,
    track_starts: Vec<usize>,
}

impl View for SequenceBuilder {
    type V = BuilderState;

    closed spec fn view(&self) -> BuilderState {
        BuilderState {
            cursor: self.clock.spec_ticks() as int,
            time: self.clock.spec_time() as int,
            commands: self.commands@,
            track_starts: as_ints(self.track_starts@),
        }
    }
}

impl SequenceBuilder {
    /// The tempo changes that the builder looks tempos up in.
    pub closed spec fn tempo_events(&self) -> Seq<TempoEvent> {
        self.tempo_map@
    }

    /// The unit of the builder's times.
    pub closed spec fn resolution(&self) -> u16 {
        self.ticks_per_quarter_note
    }

    /// A builder at the start, with nothing emitted and no track begun.
    pub fn new(tempo_map: TempoHelper, ticks_per_quarter_note: u16) -> (builder: SequenceBuilder)
        ensures
            builder@ == (BuilderState {
                cursor: 0,
                time: 0,
                commands: Seq::empty(),
                track_starts: Seq::empty(),
            }),
            builder.tempo_events() == tempo_map@,
            builder.resolution() == ticks_per_quarter_note,
    {
        let builder = SequenceBuilder {
            tempo_map,
            ticks_per_quarter_note,
            clock: TimeCursor::new(),
            commands: Vec::new(),
            track_starts: Vec::new(),
        };
        proof {
            assert(as_ints(builder.track_starts@) =~= Seq::<int>::empty());
        }
        builder
    }

    /// Begins a track: its tick position and its time start at zero, and its commands
    /// follow those emitted so far.
    pub fn reset_for_new_track(&mut self)
        ensures
            final(self)@ == old(self)@.reset(),
            final(self).tempo_events() == old(self).tempo_events(),
            final(self).resolution() == old(self).resolution(),
    {
        self.clock = TimeCursor::new();
        let start = self.commands.len();
        self.track_starts.push(start);
        proof {
            assert(as_ints(self.track_starts@) =~= as_ints(old(self).track_starts@).push(
                start as int,
            ));
        }
    }

    /// Moves `delta_ticks` ticks on in the current track. The time grows by what the
    /// ticks last at the tempo in effect at the position reached.
    ///
    /// Fails with `TickOverflow`, leaving the builder as it was, where the position
    /// would leave 32 bits.
    pub fn advance_time(&mut self, delta_ticks: u32) -> (result: Result<(), SequenceError>)
        ensures
            same_timeline(final(self).tempo_events(), old(self).tempo_events()),
            final(self).tempo_events().to_multiset() == old(self).tempo_events().to_multiset(),
            final(self).resolution() == old(self).resolution(),
            match result {
                Ok(_) => {
                    &&& old(self)@.next_cursor(delta_ticks) <= u32::MAX
                    &&& final(self)@ == old(self)@.advanced(delta_ticks, old(self).tempo_events())
                },
                Err(error) => {
                    &&& old(self)@.next_cursor(delta_ticks) > u32::MAX
                    &&& error == SequenceError::TickOverflow
                    &&& final(self)@ == old(self)@
                    &&& final(self).tempo_events() == old(self).tempo_events()
                },
            },
    {
        let position: u32 = match self.clock.position_after(delta_ticks) {
            Ok(position) => position,
            Err(error) => {
                return Err(error);
            },
        };
        let tempo: u32 = self.tempo_map.get_tempo(position);
        self.clock.advance(delta_ticks, tempo)
    }

    /// Emits the start of a note at the time reached.
    ///
    /// Fails, emitting nothing, with `InvalidVoiceReference` where the voice's channel
    /// has no instrument, else with `MalformedVolume` where the volume is above full
    /// volume.
    pub fn start_note(&mut self, voice: VoiceKey, volume: u8) -> (result: Result<(), SequenceError>)
        ensures
            final(self).tempo_events() == old(self).tempo_events(),
            final(self).resolution() == old(self).resolution(),
            match result {
                Ok(_) => {
                    &&& voice.channel == OUTPUT_CHANNEL
                    &&& volume <= FULL_VOLUME
                    &&& final(self)@ == old(self)@.emitted(
                        Command::StartNote { time: old(self)@.time as u64, voice, volume },
                    )
                },
                Err(error) => {
                    &&& final(self)@ == old(self)@
                    &&& if voice.channel != OUTPUT_CHANNEL {
                        error == SequenceError::InvalidVoiceReference
                    } else {
                        volume > FULL_VOLUME && error == SequenceError::MalformedVolume
                    }
                },
            },
    {
        if voice.channel != OUTPUT_CHANNEL {
            return Err(SequenceError::InvalidVoiceReference);
        }
        if volume > FULL_VOLUME {
            return Err(SequenceError::MalformedVolume);
        }
        self.commands.push(Command::StartNote { time: self.clock.time(), voice, volume });
        Ok(())
    }

    /// Emits the stop of a note at the time reached, whether or not the note was
    /// started.
    ///
    /// Fails, emitting nothing, with `InvalidVoiceReference` where the voice's channel
    /// has no instrument.
    pub fn stop_note(&mut self, voice: VoiceKey) -> (result: Result<(), SequenceError>)
        ensures
            final(self).tempo_events() == old(self).tempo_events(),
            final(self).resolution() == old(self).resolution(),
            match result {
                Ok(_) => {
                    &&& voice.channel == OUTPUT_CHANNEL
                    &&& final(self)@ == old(self)@.emitted(
                        Command::StopNote { time: old(self)@.time as u64, voice },
                    )
                },
                Err(error) => {
                    &&& final(self)@ == old(self)@
                    &&& voice.channel != OUTPUT_CHANNEL
                    &&& error == SequenceError::InvalidVoiceReference
                },
            },
    {
        if voice.channel != OUTPUT_CHANNEL {
            return Err(SequenceError::InvalidVoiceReference);
        }
        self.commands.push(Command::StopNote { time: self.clock.time(), voice });
        Ok(())
    }

    /// Takes one event of the current track: moves on by its delta, then emits the
    /// start or stop that it stands for, if any.
    ///
    /// Fails with `TickOverflow`, leaving the builder as it was, where the position
    /// would leave 32 bits.
    pub fn process_event(&mut self, event: &TrackEvent) -> (result: Result<(), SequenceError>)
        ensures
            same_timeline(final(self).tempo_events(), old(self).tempo_events()),
            final(self).tempo_events().to_multiset() == old(self).tempo_events().to_multiset(),
            final(self).resolution() == old(self).resolution(),
            match result {
                Ok(_) => {
                    &&& old(self)@.next_cursor(event.delta_ticks) <= u32::MAX
                    &&& final(self)@ == old(self)@.after_event(*event, old(self).tempo_events())
                },
                Err(error) => {
                    &&& old(self)@.next_cursor(event.delta_ticks) > u32::MAX
                    &&& error == SequenceError::TickOverflow
                    &&& final(self)@ == old(self)@
                },
            },
    {
        match self.advance_time(event.delta_ticks) {
            Ok(_) => {},
            Err(error) => {
                return Err(error);
            },
        }
        match event.kind {
            EventKind::NoteOn { key, velocity } => {
                let voice = VoiceKey { channel: OUTPUT_CHANNEL, note: key };
                if velocity > 0 {
                    self.start_note(voice, velocity_to_volume(velocity))
                } else {
                    self.stop_note(voice)
                }
            },
            EventKind::NoteOff { key, velocity } => {
                self.stop_note(VoiceKey { channel: OUTPUT_CHANNEL, note: key })
            },
            _ => Ok(()),
        }
    }

    /// The tick position in the current track.
    pub fn cursor(&self) -> (cursor: u32)
        ensures
            cursor == self@.cursor,
    {
        self.clock.ticks()
    }

    /// The scaled microseconds since the start of the current track.
    pub fn time(&self) -> (time: u64)
        ensures
            time == self@.time,
    {
        self.clock.time()
    }

    /// Hands out what was emitted, with the place at which each track begins.
    pub fn finish(self) -> (sequence: Sequence)
        ensures
            sequence.commands@ == self@.commands,
            sequence.starts() == self@.track_starts,
            sequence.ticks_per_quarter_note == self.resolution(),
    {
        Sequence {
            commands: self.commands,
            track_starts: self.track_starts,
            ticks_per_quarter_note: self.ticks_per_quarter_note,
        }
    }
}

} // verus!
