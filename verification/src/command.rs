//! The commands that drive the synthesizer: timed note starts and stops per voice.

use vstd::prelude::*;
use crate::event::EventKind;

verus! {

/// The one channel that has an instrument.
pub const OUTPUT_CHANNEL: u8 = 0;

/// Full volume. Volumes count in 128ths of it: a volume `v` stands for `v / 128`.
pub const FULL_VOLUME: u8 = 128;

/// One slot that sounds on its own: a note of a channel.
#[derive(Clone, Copy, Debug, PartialEq, Eq, Structural)]
pub struct VoiceKey {
    pub channel: u8,
    pub note: u8,
}

/// An instruction to the synthesizer. `time` counts scaled microseconds from the start
/// of the track that the command comes from.
#[derive(Clone, Copy, Debug, PartialEq, Eq, Structural)]
pub enum Command {
    StartNote { time: u64, voice: VoiceKey, volume: u8 },
    StopNote { time: u64, voice: VoiceKey },
}

impl Command {
    /// When the command takes effect.
    pub open spec fn spec_time(&self) -> u64 {
        match *self {
            Command::StartNote { time, .. } => time,
            Command::StopNote { time, .. } => time,
        }
    }

    /// The voice that the command addresses.
    pub open spec fn spec_voice(&self) -> VoiceKey {
        match *self {
            Command::StartNote { voice, .. } => voice,
            Command::StopNote { voice, .. } => voice,
        }
    }

    /// The command names a channel that has an instrument, and a volume of at most
    /// full volume.
    pub open spec fn well_formed(&self) -> bool {
        &&& self.spec_voice().channel == OUTPUT_CHANNEL
        &&& *self matches Command::StartNote { volume, .. } ==> volume <= FULL_VOLUME
    }

    /// When the command takes effect.
    #[verifier::when_used_as_spec(spec_time)]
    pub fn time(&self) -> (time: u64)
        ensures
            time == self.spec_time(),
    {
        match *self {
            Command::StartNote { time, .. } => time,
            Command::StopNote { time, .. } => time,
        }
    }

    /// The voice that the command addresses.
    #[verifier::when_used_as_spec(spec_voice)]
    pub fn voice(&self) -> (voice: VoiceKey)
        ensures
            voice == self.spec_voice(),
    {
        match *self {
            Command::StartNote { voice, .. } => voice,
            Command::StopNote { voice, .. } => voice,
        }
    }
}

/// The volume of a note struck with `velocity`: the velocity in 128ths, and full
/// volume for a velocity beyond it.
pub open spec fn volume_of_velocity(velocity: u8) -> u8 {
    if velocity <= FULL_VOLUME {
        velocity
    } else {
        FULL_VOLUME
    }
}

/// The volume of a note struck with `velocity`, never above full volume.
pub fn velocity_to_volume(velocity: u8) -> (volume: u8)
    ensures
        volume == volume_of_velocity(velocity),
        volume <= FULL_VOLUME,
{
    if velocity <= FULL_VOLUME {
        velocity
    } else {
        FULL_VOLUME
    }
}

/// The command that an event gives rise to at `time`, if any. A key struck with
/// velocity 0 is released, as one that is released outright.
pub open spec fn command_for(kind: EventKind, time: u64) -> Option<Command> {
    match kind {
        EventKind::NoteOn { key, velocity } => {
            let voice = VoiceKey { channel: OUTPUT_CHANNEL, note: key };
            if velocity > 0 {
                Some(Command::StartNote { time, voice, volume: volume_of_velocity(velocity) })
            } else {
                Some(Command::StopNote { time, voice })
            }
        },
        EventKind::NoteOff { key, velocity } => Some(
            Command::StopNote { time, voice: VoiceKey { channel: OUTPUT_CHANNEL, note: key } },
        ),
        _ => None,
    }
}

} // verus!
