use synth_core::midi::tempo_map_from_smf;
use synth_core::time::{
    seconds_to_samples, time_manager_from_meta, MetaEvent, TimeError, TimeManager, TimeStamp,
    Timing,
};

#[test]
fn default_tempo_maps_a_beat_to_half_a_second() {
    let tm = TimeManager::new();
    assert_eq!(tm.sample_index(TimeStamp::new(480)), Ok(22050));
    assert_eq!(tm.sample_index(TimeStamp::new(0)), Ok(0));
    assert_eq!(tm.sample_index(TimeStamp::new(960)), Ok(44100));
}

#[test]
fn zero_tempo_is_a_configuration_error() {
    let mut tm = TimeManager::new();
    tm.micros_per_beat = 0;
    assert_eq!(tm.sample_index(TimeStamp::new(1)), Err(TimeError::Configuration));
    let mut tm = TimeManager::new();
    tm.ticks_per_beat = 0;
    assert_eq!(tm.sample_index(TimeStamp::new(1)), Err(TimeError::Configuration));
}

#[test]
fn far_positions_are_reported() {
    let mut tm = TimeManager::new();
    tm.ticks_per_beat = 1;
    tm.micros_per_beat = u32::MAX;
    assert_eq!(tm.sample_index(TimeStamp::new(u64::MAX)), Err(TimeError::TooLate));
}

#[test]
fn later_ticks_never_map_earlier() {
    let tm = TimeManager::new();
    let mut last = 0;
    for t in 0..2000u64 {
        let s = tm.sample_index(TimeStamp::new(t)).unwrap();
        assert!(s >= last);
        last = s;
    }
}

#[test]
fn seconds_convert_to_samples() {
    assert_eq!(seconds_to_samples(1_000_000), 44100);
    assert_eq!(seconds_to_samples(100_000), 4410);
    assert_eq!(seconds_to_samples(10), 0);
}

#[test]
fn tempo_map_from_events_takes_last_values() {
    let events = vec![
        MetaEvent::Tempo(400_000),
        MetaEvent::TimeSignature(3, 2),
        MetaEvent::Other,
        MetaEvent::Tempo(600_000),
    ];
    let tm = time_manager_from_meta(Timing::Metrical(96), &events).unwrap();
    assert_eq!(tm.ticks_per_beat, 96);
    assert_eq!(tm.micros_per_beat, 600_000);
    assert_eq!(tm.beats_per_bar, 3);
    assert_eq!(tm.beat_value, 2);
    let none = time_manager_from_meta(Timing::Metrical(48), &vec![]).unwrap();
    assert_eq!(none.micros_per_beat, 500_000);
    assert_eq!(none.beats_per_bar, 4);
}

#[test]
fn timecode_timing_is_unsupported() {
    assert_eq!(
        time_manager_from_meta(Timing::Timecode, &vec![]),
        Err(TimeError::Unsupported)
    );
}

fn one_track_file(division: u16, events: &[u8]) -> Vec<u8> {
    let mut bytes = b"MThd".to_vec();
    bytes.extend_from_slice(&[0, 0, 0, 6, 0, 0, 0, 1]);
    bytes.extend_from_slice(&division.to_be_bytes());
    bytes.extend_from_slice(b"MTrk");
    bytes.extend_from_slice(&(events.len() as u32).to_be_bytes());
    bytes.extend_from_slice(events);
    bytes
}

#[test]
fn tempo_map_read_from_midi_bytes() {
    let events = [
        0x00, 0xFF, 0x51, 0x03, 0x09, 0x27, 0xC0, // tempo 600000 us per beat
        0x00, 0xFF, 0x58, 0x04, 0x03, 0x02, 0x18, 0x08, // time signature 3, 2
        0x00, 0xFF, 0x2F, 0x00, // end of track
    ];
    let tm = tempo_map_from_smf(&one_track_file(96, &events)).unwrap();
    assert_eq!(tm.ticks_per_beat, 96);
    assert_eq!(tm.micros_per_beat, 600_000);
    assert_eq!(tm.beats_per_bar, 3);
    assert_eq!(tm.beat_value, 2);
}

#[test]
fn tempo_map_defaults_without_meta_events() {
    let tm = tempo_map_from_smf(&one_track_file(480, &[0x00, 0xFF, 0x2F, 0x00])).unwrap();
    assert_eq!(tm, TimeManager::new());
}

#[test]
fn malformed_midi_bytes_are_reported() {
    assert_eq!(tempo_map_from_smf(b"not a midi file"), Err(TimeError::Malformed));
}

#[test]
fn timecode_midi_is_unsupported() {
    let division: u16 = 0xE728; // -25 frames per second, 40 ticks per frame
    let file = one_track_file(division, &[0x00, 0xFF, 0x2F, 0x00]);
    assert_eq!(tempo_map_from_smf(&file), Err(TimeError::Unsupported));
}

#[test]
fn timing_byte_0x80_is_malformed() {
    let file = one_track_file(0x8000, &[0x00, 0xFF, 0x2F, 0x00]);
    assert_eq!(tempo_map_from_smf(&file), Err(TimeError::Malformed));
    let mut riff = b"RIFF".to_vec();
    riff.extend_from_slice(&[0, 0, 0, 0]);
    riff.extend_from_slice(b"RMIDdata");
    riff.extend_from_slice(&[0, 0, 0, 0]);
    riff.extend_from_slice(&file);
    assert_eq!(tempo_map_from_smf(&riff), Err(TimeError::Malformed));
}
