//! What the synthesizer is told besides the sequence: the waveform of the instrument
//! and the format of the samples.

use vstd::prelude::*;

verus! {

/// Samples per second of the output.
pub const SAMPLE_RATE: u32 = 44_100;

/// Channels of the output samples: one, the output is mono.
pub const PCM_CHANNELS: u8 = 1;

/// The periodic waveform that the instrument plays.
#[derive(Clone, Copy, Debug, PartialEq, Eq, Structural)]
pub enum Waveform {
    Square,
    Triangle,
    Sawtooth,
}

/// The waveform that a name selects. A name that is neither `triangle` nor `sawtooth`
/// selects the square wave: this is the default, and no error.
pub open spec fn waveform_named(name: Seq<char>) -> Waveform {
    if name == "triangle"@ {
        Waveform::Triangle
    } else if name == "sawtooth"@ {
        Waveform::Sawtooth
    } else {
        Waveform::Square
    }
}

/// The waveform that `name` selects, the square wave where it names no other.
pub fn select_waveform(name: &str) -> (waveform: Waveform)
    ensures
        waveform == waveform_named(name@),
{
    let chosen = name.to_owned();
    if chosen == "triangle".to_owned() {
        Waveform::Triangle
    } else if chosen == "sawtooth".to_owned() {
        Waveform::Sawtooth
    } else {
        Waveform::Square
    }
}

} // verus!
