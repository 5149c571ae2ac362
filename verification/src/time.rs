//! Time resolution and the conversion of tick deltas into elapsed time.
//!
//! Elapsed time is kept exact. A quarter note lasts `tempo` microseconds and has
//! `ticks_per_quarter_note` ticks, so `delta_ticks` ticks last
//! `delta_ticks * tempo / ticks_per_quarter_note` microseconds. The product
//! `delta_ticks * tempo` is that time in units of `1 / ticks_per_quarter_note`
//! microseconds, called scaled microseconds here; the division is left to the reader
//! of the time.

use vstd::prelude::*;
use crate::error::SequenceError;

verus! {

/// How a file counts time.
#[derive(Clone, Copy, Debug, PartialEq, Eq, Structural)]
pub enum TimeResolution {
    /// So many ticks make a quarter note.
    TicksPerQuarterNote(u16),
    /// Ticks subdivide the frames of a timecode.
    Timecode,
}

/// The ticks per quarter note of a file, or the refusal of a file that counts by timecode.
pub fn ticks_per_quarter_note(resolution: TimeResolution) -> (result: Result<u16, SequenceError>)
    ensures
        match resolution {
            TimeResolution::TicksPerQuarterNote(ticks) => result == Ok::<u16, SequenceError>(ticks),
            TimeResolution::Timecode => result == Err::<u16, SequenceError>(
                SequenceError::UnsupportedTimeResolution,
            ),
        },
{
    match resolution {
        TimeResolution::TicksPerQuarterNote(ticks) => Ok(ticks),
        TimeResolution::Timecode => Err(SequenceError::UnsupportedTimeResolution),
    }
}

/// The scaled microseconds that `delta_ticks` ticks last at `tempo` microseconds per
/// quarter note.
pub open spec fn scaled_micros(delta_ticks: int, tempo: int) -> int {
    delta_ticks * tempo
}

/// Elapsed time grows with the ticks in proportion: twice the ticks last twice as
/// long, `factor` times the ticks `factor` times as long, and the time of two deltas
/// in a row is the sum of their times.
pub proof fn lemma_elapsed_linear(delta_ticks: int, other_ticks: int, factor: int, tempo: int)
    ensures
        scaled_micros(2 * delta_ticks, tempo) == 2 * scaled_micros(delta_ticks, tempo),
        scaled_micros(factor * delta_ticks, tempo) == factor * scaled_micros(delta_ticks, tempo),
        scaled_micros(delta_ticks + other_ticks, tempo) == scaled_micros(delta_ticks, tempo)
            + scaled_micros(other_ticks, tempo),
{
    assert((2 * delta_ticks) * tempo == 2 * (delta_ticks * tempo)) by (nonlinear_arith);
    assert((factor * delta_ticks) * tempo == factor * (delta_ticks * tempo)) by (nonlinear_arith);
    assert((delta_ticks + other_ticks) * tempo == delta_ticks * tempo + other_ticks * tempo)
        by (nonlinear_arith);
}

/// Elapsed time never exceeds what the ticks would last at the slowest tempo.
pub proof fn lemma_elapsed_bounded(delta_ticks: int, tempo: int)
    requires
        0 <= delta_ticks,
        0 <= tempo <= u32::MAX,
    ensures
        0 <= scaled_micros(delta_ticks, tempo) <= delta_ticks * u32::MAX,
{
    assert(0 <= delta_ticks * tempo <= delta_ticks * u32::MAX) by (nonlinear_arith)
        requires
            0 <= delta_ticks,
            0 <= tempo <= u32::MAX,
    ;
}

/// The scaled microseconds that `delta_ticks` ticks last at `tempo`.
pub fn elapsed_scaled(delta_ticks: u32, tempo: u32) -> (elapsed: u64)
    ensures
        elapsed == scaled_micros(delta_ticks as int, tempo as int),
{
    proof {
        lemma_elapsed_bounded(delta_ticks as int, tempo as int);
        assert(delta_ticks * u32::MAX <= u32::MAX * u32::MAX) by (nonlinear_arith)
            requires
                delta_ticks <= u32::MAX,
        ;
    }
    (delta_ticks as u64) * (tempo as u64)
}

/// The whole microseconds in a time of `scaled` scaled microseconds, for a file with
/// `ticks_per_quarter_note` ticks in a quarter note.
pub fn whole_micros(scaled: u64, ticks_per_quarter_note: u16) -> (micros: u64)
    requires
        ticks_per_quarter_note > 0,
    ensures
        micros == scaled as int / ticks_per_quarter_note as int,
{
    scaled / (ticks_per_quarter_note as u64)
}

/// Where a walk through a track stands: the tick position, and the time that has
/// passed since the start of the track.
#[derive(Clone, Copy, Debug)]
pub struct TimeCursor {
    ticks: u32,
    time: u64,
}

impl TimeCursor {
    /// However the tempo went, the time is at most what the ticks last at the slowest
    /// tempo, so that it fits in 64 bits.
    #[verifier::type_invariant]
    spec fn bounded(&self) -> bool {
        self.time <= self.ticks * u32::MAX
    }

    /// The tick position.
    pub closed spec fn spec_ticks(&self) -> u32 {
        self.ticks
    }

    /// The scaled microseconds since the start of the track.
    pub closed spec fn spec_time(&self) -> u64 {
        self.time
    }

    /// The tick position that `delta_ticks` more ticks lead to.
    pub open spec fn next_ticks(&self, delta_ticks: u32) -> int {
        self.spec_ticks() + delta_ticks
    }

    /// A cursor at the start of a track.
    pub fn new() -> (cursor: TimeCursor)
        ensures
            cursor.spec_ticks() == 0,
            cursor.spec_time() == 0,
    {
        TimeCursor { ticks: 0, time: 0 }
    }

    /// The tick position.
    #[verifier::when_used_as_spec(spec_ticks)]
    pub fn ticks(&self) -> (ticks: u32)
        ensures
            ticks == self.spec_ticks(),
    {
        self.ticks
    }

    /// The scaled microseconds since the start of the track.
    #[verifier::when_used_as_spec(spec_time)]
    pub fn time(&self) -> (time: u64)
        ensures
            time == self.spec_time(),
            time <= self.spec_ticks() * u32::MAX,
    {
        proof {
            use_type_invariant(self);
        }
        self.time
    }

    /// The tick position that `delta_ticks` more ticks lead to, or `TickOverflow`
    /// where it does not fit in 32 bits.
    pub fn position_after(&self, delta_ticks: u32) -> (result: Result<u32, SequenceError>)
        ensures
            match result {
                Ok(position) => position == self.next_ticks(delta_ticks),
                Err(error) => self.next_ticks(delta_ticks) > u32::MAX && error
                    == SequenceError::TickOverflow,
            },
    {
        if delta_ticks > u32::MAX - self.ticks {
            Err(SequenceError::TickOverflow)
        } else {
            Ok(self.ticks + delta_ticks)
        }
    }

    /// Moves `delta_ticks` ticks on, which pass at `tempo` microseconds per quarter
    /// note. Fails with `TickOverflow`, leaving the cursor as it was, where the
    /// position would leave 32 bits.
    pub fn advance(&mut self, delta_ticks: u32, tempo: u32) -> (result: Result<(), SequenceError>)
        ensures
            match result {
                Ok(_) => {
                    &&& final(self).spec_ticks() == old(self).next_ticks(delta_ticks)
                    &&& final(self).spec_time() == old(self).spec_time() + scaled_micros(
                        delta_ticks as int,
                        tempo as int,
                    )
                },
                Err(error) => {
                    &&& old(self).next_ticks(delta_ticks) > u32::MAX
                    &&& error == SequenceError::TickOverflow
                    &&& *final(self) == *old(self)
                },
            },
    {
        proof {
            use_type_invariant(&*self);
        }
        if delta_ticks > u32::MAX - self.ticks {
            return Err(SequenceError::TickOverflow);
        }
        let ticks: u32 = self.ticks + delta_ticks;
        let elapsed: u64 = elapsed_scaled(delta_ticks, tempo);
        proof {
            lemma_elapsed_bounded(delta_ticks as int, tempo as int);
            assert(ticks * u32::MAX <= u32::MAX * u32::MAX) by (nonlinear_arith)
                requires
                    ticks <= u32::MAX,
            ;
        }
        *self = TimeCursor { ticks, time: self.time + elapsed };
        Ok(())
    }
}

} // verus!
