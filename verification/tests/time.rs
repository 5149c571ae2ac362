use midi_sequencer::error::SequenceError;
use midi_sequencer::time::{
    elapsed_scaled, ticks_per_quarter_note, whole_micros, TimeCursor, TimeResolution,
};

fn seconds(scaled: u64, ticks_per_quarter_note: u16) -> f64 {
    scaled as f64 / f64::from(ticks_per_quarter_note) * 1e-6
}

#[test]
fn quarter_note_at_default_tempo_lasts_half_a_second() {
    let elapsed = elapsed_scaled(480, 500_000);
    assert_eq!(elapsed, 240_000_000);
    assert_eq!(whole_micros(elapsed, 480), 500_000);
    assert_eq!(seconds(elapsed, 480), 0.5);
}

#[test]
fn two_quarter_notes_last_a_second() {
    let elapsed = elapsed_scaled(960, 500_000);
    assert_eq!(elapsed, 480_000_000);
    assert_eq!(whole_micros(elapsed, 480), 1_000_000);
    assert_eq!(seconds(elapsed, 480), 1.0);
}

#[test]
fn elapsed_time_is_linear_in_ticks() {
    for (ticks, tempo) in [(0u32, 500_000u32), (1, 1), (240, 500_000), (480, 600_000), (7, 333_333)] {
        assert_eq!(elapsed_scaled(2 * ticks, tempo), 2 * elapsed_scaled(ticks, tempo));
        assert_eq!(elapsed_scaled(5 * ticks, tempo), 5 * elapsed_scaled(ticks, tempo));
        assert_eq!(
            elapsed_scaled(ticks + 13, tempo),
            elapsed_scaled(ticks, tempo) + elapsed_scaled(13, tempo)
        );
    }
}

#[test]
fn elapsed_time_of_nothing_is_nothing() {
    assert_eq!(elapsed_scaled(0, 500_000), 0);
    assert_eq!(elapsed_scaled(480, 0), 0);
}

#[test]
fn elapsed_time_of_the_largest_inputs_fits() {
    let most = u64::from(u32::MAX) * u64::from(u32::MAX);
    assert_eq!(elapsed_scaled(u32::MAX, u32::MAX), most);
    assert_eq!(elapsed_scaled(u32::MAX, u32::MAX), 18_446_744_065_119_617_025);
}

#[test]
fn whole_micros_rounds_down() {
    assert_eq!(whole_micros(0, 480), 0);
    assert_eq!(whole_micros(479, 480), 0);
    assert_eq!(whole_micros(480, 480), 1);
    assert_eq!(whole_micros(1_000_000, 3), 333_333);
    assert_eq!(whole_micros(u64::MAX, 1), u64::MAX);
    assert_eq!(whole_micros(120_000_000, 480), 250_000);
}

#[test]
fn ticks_per_quarter_note_is_accepted() {
    assert_eq!(ticks_per_quarter_note(TimeResolution::TicksPerQuarterNote(480)), Ok(480));
    assert_eq!(ticks_per_quarter_note(TimeResolution::TicksPerQuarterNote(1)), Ok(1));
    assert_eq!(
        ticks_per_quarter_note(TimeResolution::TicksPerQuarterNote(u16::MAX)),
        Ok(u16::MAX)
    );
}

#[test]
fn timecode_is_refused() {
    assert_eq!(
        ticks_per_quarter_note(TimeResolution::Timecode),
        Err(SequenceError::UnsupportedTimeResolution)
    );
}

#[test]
fn cursor_starts_at_zero() {
    let cursor = TimeCursor::new();
    assert_eq!(cursor.ticks(), 0);
    assert_eq!(cursor.time(), 0);
}

#[test]
fn cursor_accumulates_ticks_and_time() {
    let mut cursor = TimeCursor::new();
    assert_eq!(cursor.advance(240, 500_000), Ok(()));
    assert_eq!(cursor.ticks(), 240);
    assert_eq!(cursor.time(), 120_000_000);
    assert_eq!(cursor.advance(0, 123), Ok(()));
    assert_eq!(cursor.ticks(), 240);
    assert_eq!(cursor.time(), 120_000_000);
    assert_eq!(cursor.advance(10, 600_000), Ok(()));
    assert_eq!(cursor.ticks(), 250);
    assert_eq!(cursor.time(), 126_000_000);
}

#[test]
fn cursor_refuses_to_leave_32_bits() {
    let mut cursor = TimeCursor::new();
    assert_eq!(cursor.advance(u32::MAX - 1, 2), Ok(()));
    assert_eq!(cursor.position_after(1), Ok(u32::MAX));
    assert_eq!(cursor.position_after(2), Err(SequenceError::TickOverflow));
    assert_eq!(cursor.advance(2, 2), Err(SequenceError::TickOverflow));
    assert_eq!(cursor.ticks(), u32::MAX - 1);
    assert_eq!(cursor.time(), 2 * u64::from(u32::MAX - 1));
    assert_eq!(cursor.advance(1, 2), Ok(()));
    assert_eq!(cursor.ticks(), u32::MAX);
    assert_eq!(cursor.time(), 2 * u64::from(u32::MAX));
}

#[test]
fn cursor_holds_the_largest_time() {
    let mut cursor = TimeCursor::new();
    assert_eq!(cursor.advance(u32::MAX, u32::MAX), Ok(()));
    assert_eq!(cursor.time(), 18_446_744_065_119_617_025);
    assert_eq!(cursor.advance(0, u32::MAX), Ok(()));
    assert_eq!(cursor.advance(1, 0), Err(SequenceError::TickOverflow));
}
