use std::time::Duration;
use vast_player::{apply_tempo_to_ui, beat_index, command_for, format_time, time_label, MediaEvent, PlayerCommand};

fn nanos(secs: f64) -> u128 {
    Duration::from_secs_f64(secs).as_nanos()
}

#[test]
fn beat_index_without_tempo() {
    assert_eq!(beat_index(nanos(10.0), None, 4), -1);
    assert_eq!(beat_index(nanos(10.0), Some(0), 4), -1);
}

#[test]
fn beat_index_counts_beats_in_the_measure() {
    assert_eq!(beat_index(0, Some(120), 4), 0);
    assert_eq!(beat_index(nanos(0.49), Some(120), 4), 0);
    assert_eq!(beat_index(nanos(0.5), Some(120), 4), 1);
    assert_eq!(beat_index(nanos(1.5), Some(120), 4), 3);
    assert_eq!(beat_index(nanos(2.0), Some(120), 4), 0);
    assert_eq!(beat_index(nanos(61.0), Some(60), 3), 1);
    assert_eq!(beat_index(Duration::MAX.as_nanos(), Some(u32::MAX), 255), {
        let beats = Duration::MAX.as_nanos() * u128::from(u32::MAX) / 60_000_000_000;
        (beats % 255) as i32
    });
}

#[test]
fn tempo_display() {
    let d = apply_tempo_to_ui(Some(120));
    assert!(d.has_tempo);
    assert_eq!(d.tempo, 120);
    assert_eq!(d.duration_between_beats, 500);
    let d = apply_tempo_to_ui(Some(200));
    assert_eq!(d.duration_between_beats, 300);
    let d = apply_tempo_to_ui(Some(7));
    assert_eq!(d.duration_between_beats, 8571);
    let d = apply_tempo_to_ui(Some(3_000_000_000));
    assert_eq!(d.tempo, 3_000_000_000u32 as i32);
    assert_eq!(d.duration_between_beats, 0);
    let d = apply_tempo_to_ui(None);
    assert!(!d.has_tempo);
    assert_eq!((d.tempo, d.duration_between_beats), (0, 0));
    let d = apply_tempo_to_ui(Some(0));
    assert!(!d.has_tempo);
}

#[test]
fn tempo_display_matches_float_duration() {
    for bpm in [1u32, 3, 7, 60, 90, 97, 120, 128, 133, 200, 240, 999, 60_000, 1_000_000, u32::MAX] {
        let ms = Duration::from_secs_f64(60.0 / bpm as f64).as_millis() as i64;
        assert_eq!(apply_tempo_to_ui(Some(bpm)).duration_between_beats, ms, "{bpm}");
    }
}

#[test]
fn formats_minutes_and_seconds() {
    assert_eq!(format_time(0), "0:00");
    assert_eq!(format_time(nanos(9.99)), "0:09");
    assert_eq!(format_time(nanos(65.0)), "1:05");
    assert_eq!(format_time(nanos(3600.0 + 61.0)), "61:01");
}

#[test]
fn time_label_with_and_without_total() {
    assert_eq!(time_label(nanos(5.0), Some(nanos(200.0))), "0:05 / 3:20");
    assert_eq!(time_label(nanos(75.0), None), "1:15");
}

#[test]
fn media_events_map_to_commands() {
    assert_eq!(command_for(MediaEvent::Play, 0), PlayerCommand::SetPause(false));
    assert_eq!(command_for(MediaEvent::Pause, 0), PlayerCommand::SetPause(true));
    assert_eq!(command_for(MediaEvent::Toggle, 0), PlayerCommand::TogglePause);
    assert_eq!(command_for(MediaEvent::Next, 0), PlayerCommand::PlayNext);
    assert_eq!(command_for(MediaEvent::Previous, nanos(4.0)), PlayerCommand::PlayPrevious);
    assert_eq!(command_for(MediaEvent::Previous, nanos(4.5)), PlayerCommand::RestartTrack);
}
