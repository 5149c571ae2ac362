use midi_sequencer::builder::SequenceBuilder;
use midi_sequencer::command::{velocity_to_volume, Command, VoiceKey, FULL_VOLUME, OUTPUT_CHANNEL};
use midi_sequencer::config::{select_waveform, Waveform, PCM_CHANNELS, SAMPLE_RATE};
use midi_sequencer::error::SequenceError;
use midi_sequencer::event::{EventKind, TrackEvent};
use midi_sequencer::tempo::TempoHelper;

fn voice(note: u8) -> VoiceKey {
    VoiceKey { channel: 0, note }
}

fn two_tempo_map() -> TempoHelper {
    let mut map = TempoHelper::new();
    map.new_tempo(0, 500_000);
    map.new_tempo(480, 600_000);
    map
}

#[test]
fn new_builder_is_at_the_start() {
    let builder = SequenceBuilder::new(TempoHelper::new(), 480);
    assert_eq!(builder.cursor(), 0);
    assert_eq!(builder.time(), 0);
    let sequence = builder.finish();
    assert!(sequence.commands.is_empty());
    assert!(sequence.track_starts.is_empty());
    assert_eq!(sequence.ticks_per_quarter_note, 480);
}

#[test]
fn advance_uses_tempo_at_the_position_reached() {
    let mut builder = SequenceBuilder::new(two_tempo_map(), 480);
    builder.reset_for_new_track();
    assert_eq!(builder.advance_time(479), Ok(()));
    assert_eq!(builder.cursor(), 479);
    assert_eq!(builder.time(), 479 * 500_000);
    assert_eq!(builder.advance_time(1), Ok(()));
    assert_eq!(builder.cursor(), 480);
    assert_eq!(builder.time(), 479 * 500_000 + 600_000);
    assert_eq!(builder.advance_time(480), Ok(()));
    assert_eq!(builder.time(), 479 * 500_000 + 600_000 + 480 * 600_000);
}

#[test]
fn one_long_step_passes_at_the_tempo_of_its_end() {
    let mut builder = SequenceBuilder::new(two_tempo_map(), 480);
    builder.reset_for_new_track();
    assert_eq!(builder.advance_time(960), Ok(()));
    assert_eq!(builder.time(), 960 * 600_000);
}

#[test]
fn advance_refuses_to_leave_32_bits() {
    let mut builder = SequenceBuilder::new(TempoHelper::new(), 480);
    builder.reset_for_new_track();
    assert_eq!(builder.advance_time(u32::MAX), Ok(()));
    let time = builder.time();
    assert_eq!(time, u64::from(u32::MAX) * 500_000);
    assert_eq!(builder.advance_time(1), Err(SequenceError::TickOverflow));
    assert_eq!(builder.cursor(), u32::MAX);
    assert_eq!(builder.time(), time);
    assert_eq!(builder.advance_time(0), Ok(()));
}

#[test]
fn start_and_stop_are_emitted_at_the_time_reached() {
    let mut builder = SequenceBuilder::new(TempoHelper::new(), 480);
    builder.reset_for_new_track();
    assert_eq!(builder.start_note(voice(60), 100), Ok(()));
    assert_eq!(builder.advance_time(240), Ok(()));
    assert_eq!(builder.stop_note(voice(60)), Ok(()));
    let sequence = builder.finish();
    assert_eq!(
        sequence.commands,
        vec![
            Command::StartNote { time: 0, voice: voice(60), volume: 100 },
            Command::StopNote { time: 120_000_000, voice: voice(60) },
        ]
    );
    assert_eq!(sequence.track_starts, vec![0]);
}

#[test]
fn stop_without_start_is_accepted() {
    let mut builder = SequenceBuilder::new(TempoHelper::new(), 96);
    builder.reset_for_new_track();
    assert_eq!(builder.stop_note(voice(61)), Ok(()));
    assert_eq!(builder.stop_note(voice(61)), Ok(()));
    let sequence = builder.finish();
    assert_eq!(
        sequence.commands,
        vec![
            Command::StopNote { time: 0, voice: voice(61) },
            Command::StopNote { time: 0, voice: voice(61) },
        ]
    );
}

#[test]
fn channel_without_instrument_is_refused() {
    let mut builder = SequenceBuilder::new(TempoHelper::new(), 480);
    builder.reset_for_new_track();
    let elsewhere = VoiceKey { channel: 1, note: 60 };
    assert_eq!(builder.start_note(elsewhere, 100), Err(SequenceError::InvalidVoiceReference));
    assert_eq!(builder.stop_note(elsewhere), Err(SequenceError::InvalidVoiceReference));
    assert_eq!(
        builder.start_note(VoiceKey { channel: 255, note: 0 }, 200),
        Err(SequenceError::InvalidVoiceReference)
    );
    assert_eq!(builder.start_note(voice(60), 1), Ok(()));
    let sequence = builder.finish();
    assert_eq!(sequence.commands, vec![Command::StartNote { time: 0, voice: voice(60), volume: 1 }]);
}

#[test]
fn volume_above_full_is_refused() {
    let mut builder = SequenceBuilder::new(TempoHelper::new(), 480);
    builder.reset_for_new_track();
    assert_eq!(builder.start_note(voice(60), 129), Err(SequenceError::MalformedVolume));
    assert_eq!(builder.start_note(voice(60), 255), Err(SequenceError::MalformedVolume));
    assert_eq!(builder.start_note(voice(60), 128), Ok(()));
    assert_eq!(builder.start_note(voice(60), 0), Ok(()));
    let sequence = builder.finish();
    assert_eq!(
        sequence.commands,
        vec![
            Command::StartNote { time: 0, voice: voice(60), volume: 128 },
            Command::StartNote { time: 0, voice: voice(60), volume: 0 },
        ]
    );
}

#[test]
fn reset_starts_a_track_at_zero_and_keeps_the_commands() {
    let mut builder = SequenceBuilder::new(TempoHelper::new(), 480);
    builder.reset_for_new_track();
    assert_eq!(builder.advance_time(480), Ok(()));
    assert_eq!(builder.start_note(voice(1), 10), Ok(()));
    builder.reset_for_new_track();
    assert_eq!(builder.cursor(), 0);
    assert_eq!(builder.time(), 0);
    assert_eq!(builder.advance_time(240), Ok(()));
    assert_eq!(builder.start_note(voice(2), 20), Ok(()));
    builder.reset_for_new_track();
    let sequence = builder.finish();
    assert_eq!(
        sequence.commands,
        vec![
            Command::StartNote { time: 240_000_000, voice: voice(1), volume: 10 },
            Command::StartNote { time: 120_000_000, voice: voice(2), volume: 20 },
        ]
    );
    assert_eq!(sequence.track_starts, vec![0, 1, 2]);
}

#[test]
fn events_are_dispatched_by_kind() {
    let mut builder = SequenceBuilder::new(TempoHelper::new(), 480);
    builder.reset_for_new_track();
    let events = [
        TrackEvent { delta_ticks: 0, kind: EventKind::NoteOn { key: 60, velocity: 100 } },
        TrackEvent { delta_ticks: 10, kind: EventKind::Other },
        TrackEvent { delta_ticks: 10, kind: EventKind::TempoChange { tempo: 1 } },
        TrackEvent { delta_ticks: 10, kind: EventKind::NoteOn { key: 60, velocity: 0 } },
        TrackEvent { delta_ticks: 10, kind: EventKind::NoteOn { key: 62, velocity: 255 } },
        TrackEvent { delta_ticks: 10, kind: EventKind::NoteOff { key: 62, velocity: 64 } },
    ];
    for event in &events {
        assert_eq!(builder.process_event(event), Ok(()));
    }
    assert_eq!(builder.cursor(), 50);
    let sequence = builder.finish();
    assert_eq!(
        sequence.commands,
        vec![
            Command::StartNote { time: 0, voice: voice(60), volume: 100 },
            Command::StopNote { time: 15_000_000, voice: voice(60) },
            Command::StartNote { time: 20_000_000, voice: voice(62), volume: 128 },
            Command::StopNote { time: 25_000_000, voice: voice(62) },
        ]
    );
}

#[test]
fn event_that_overflows_changes_nothing() {
    let mut builder = SequenceBuilder::new(TempoHelper::new(), 480);
    builder.reset_for_new_track();
    let far = TrackEvent { delta_ticks: u32::MAX, kind: EventKind::Other };
    let note = TrackEvent { delta_ticks: 1, kind: EventKind::NoteOn { key: 60, velocity: 100 } };
    assert_eq!(builder.process_event(&far), Ok(()));
    assert_eq!(builder.process_event(&note), Err(SequenceError::TickOverflow));
    assert_eq!(builder.cursor(), u32::MAX);
    assert!(builder.finish().commands.is_empty());
}

#[test]
fn velocity_maps_to_volume_in_128ths() {
    assert_eq!(velocity_to_volume(0), 0);
    assert_eq!(velocity_to_volume(1), 1);
    assert_eq!(velocity_to_volume(100), 100);
    assert_eq!(velocity_to_volume(127), 127);
    assert_eq!(f64::from(velocity_to_volume(100)) / f64::from(FULL_VOLUME), 0.78125);
}

#[test]
fn volume_is_clamped_to_full() {
    assert_eq!(velocity_to_volume(128), 128);
    assert_eq!(velocity_to_volume(129), 128);
    assert_eq!(velocity_to_volume(255), 128);
    for velocity in 0..=255u8 {
        assert!(velocity_to_volume(velocity) <= FULL_VOLUME);
    }
}

#[test]
fn command_getters_read_both_variants() {
    let start = Command::StartNote { time: 7, voice: voice(3), volume: 9 };
    let stop = Command::StopNote { time: 8, voice: voice(4) };
    assert_eq!(start.time(), 7);
    assert_eq!(stop.time(), 8);
    assert_eq!(start.voice(), voice(3));
    assert_eq!(stop.voice(), voice(4));
    assert_eq!(OUTPUT_CHANNEL, 0);
}

#[test]
fn waveform_is_selected_by_name() {
    assert_eq!(select_waveform("triangle"), Waveform::Triangle);
    assert_eq!(select_waveform("sawtooth"), Waveform::Sawtooth);
    assert_eq!(select_waveform("square"), Waveform::Square);
}

#[test]
fn unknown_waveform_name_falls_back_to_square() {
    assert_eq!(select_waveform(""), Waveform::Square);
    assert_eq!(select_waveform("triangles"), Waveform::Square);
    assert_eq!(select_waveform("Triangle"), Waveform::Square);
    assert_eq!(select_waveform(" sawtooth"), Waveform::Square);
    assert_eq!(select_waveform("sine"), Waveform::Square);
}

#[test]
fn output_format_is_mono_at_44100() {
    assert_eq!(SAMPLE_RATE, 44_100);
    assert_eq!(PCM_CHANNELS, 1);
}
