//! Tests for MIDI decoding, note-to-frequency mapping, the voice's
//! event handling, and the wavetable sources.

use synthtoy::audio_thread::{apply_event, AudioEvent};
use synthtoy::filters::Filter;
use synthtoy::midi::{parse_midi, pick_port, MidiDevice, MidiEvent, MidiEventInner};
use synthtoy::note::{key_to_freq, midi_note_to_freq, Note};
use synthtoy::string_synth::StringSynth;
use synthtoy::wavetable::{SquareWave, WaveTable, WavetableSource};

fn check(note: u8, expect_freq: f32) {
    let got = midi_note_to_freq(note) as f32 / 100.0;
    assert!(
        got - expect_freq < 1.,
        "Note {note} has wrong frequency, got {got}"
    );
}

#[test]
fn test_midi_note_freq() {
    check(21, 27.5);
    check(22, 29.14);
    check(69, 440.);
}

#[test]
fn test_midi_note_freq_clamps_low_notes() {
    assert_eq!(midi_note_to_freq(0), 2750);
    assert_eq!(midi_note_to_freq(20), 2750);
    assert_eq!(midi_note_to_freq(21), 2750);
    // One octave above the reference doubles it.
    assert_eq!(midi_note_to_freq(33), 5500);
    // Concert A.
    assert_eq!(midi_note_to_freq(69), 44000);
}

#[test]
fn test_note_semitones_and_freq() {
    assert_eq!(Note::A.semitone(), 0);
    assert_eq!(Note::Gs.semitone(), 11);
    assert_eq!(Note::A.freq(4), 44000);
    assert_eq!(Note::As.freq(0), 2914);
}

#[test]
fn test_note_try_from() {
    assert!(matches!(Note::try_from(0), Ok(Note::A)));
    assert!(matches!(Note::try_from(11), Ok(Note::Gs)));
    assert!(matches!(Note::try_from(12), Err("note outside range 0..=11")));
    assert!(matches!(Note::try_from(255), Err(_)));
}

#[test]
fn test_key_to_freq_table() {
    assert_eq!(key_to_freq('z'), Some(44000));
    assert_eq!(key_to_freq(','), Some(88000));
    assert_eq!(key_to_freq('/'), Some(104640));
    assert_eq!(key_to_freq('q'), None);
}

#[test]
fn test_parse_midi_commands() {
    let down = parse_midi(7, &[0x93, 60, 100]).unwrap();
    assert_eq!(down.timestamp, 7);
    assert_eq!(down.channel, 3);
    assert!(matches!(
        down.inner,
        MidiEventInner::Down { velocity: 100, note: 60 }
    ));

    let up = parse_midi(8, &[0x80, 61, 10]).unwrap();
    assert_eq!(up.channel, 0);
    assert!(matches!(up.inner, MidiEventInner::Up { velocity: 10, note: 61 }));

    let pressure = parse_midi(9, &[0xa5, 62, 20]).unwrap();
    assert_eq!(pressure.channel, 5);
    assert!(matches!(
        pressure.inner,
        MidiEventInner::KeyPressure { key: 62, pressure: 20 }
    ));

    // Unrecognised commands are discarded, not errors.
    assert!(parse_midi(10, &[0x70, 0, 0]).is_none());
    assert!(parse_midi(11, &[0xff, 1, 2]).is_none());
}

#[test]
fn test_pick_port_takes_first_match() {
    let names: Vec<Vec<u8>> = vec![
        b"foo".to_vec(),
        b"synth A".to_vec(),
        b"bar".to_vec(),
        b"synth B".to_vec(),
    ];
    assert_eq!(pick_port(&names, &b"synth".to_vec()), Some(1));
    assert_eq!(pick_port(&names, &b"piano".to_vec()), None);
    assert_eq!(pick_port(&names, &b"".to_vec()), Some(0));
}

#[test]
fn test_midi_device_from_str() {
    let dev = MidiDevice::from_str("hw:1");
    assert!(matches!(dev, MidiDevice::Named(n) if n == "hw:1"));
}

#[test]
fn test_string_synth_deterministic() {
    // Same seed, same operations: bit-identical output streams.
    let mut a = StringSynth::new(2);
    let mut b = StringSynth::new(2);
    a.trigger();
    b.trigger();
    let mut buf_a: Vec<i64> = vec![0; 32];
    let mut buf_b: Vec<i64> = vec![0; 32];
    a.process(&mut buf_a);
    b.process(&mut buf_b);
    assert_eq!(buf_a, buf_b);
    assert!(buf_a.iter().any(|s| *s != 0));
}

#[test]
fn test_string_synth_counts_down_and_resonates() {
    let mut s = StringSynth::new(2);
    s.trigger();
    assert_eq!(s.trigger_count, 50);
    let mut buf: Vec<i64> = vec![0; 10];
    s.process(&mut buf);
    assert_eq!(s.trigger_count, 40);
    let mut rest: Vec<i64> = vec![0; 40];
    s.process(&mut rest);
    assert_eq!(s.trigger_count, 0);
    // Once the burst is exhausted, the noise generator is never
    // consulted again: its state stays put over any further stretch.
    let rng_state = s.rng.v;
    let mut tail: Vec<i64> = vec![0; 25];
    s.process(&mut tail);
    assert_eq!(s.rng.v, rng_state);
    assert_eq!(s.trigger_count, 0);
}

#[test]
fn test_string_synth_quiet_without_trigger() {
    // Never triggered: no noise is injected and the voice stays
    // silent; the generator still sits on its seed.
    let mut s = StringSynth::new(4);
    let mut buf: Vec<i64> = vec![0; 16];
    s.process(&mut buf);
    assert_eq!(buf, vec![0; 16]);
    assert_eq!(s.rng.v, 0xdeadbeef);
}

#[test]
fn test_string_synth_snoop_records_output() {
    let mut s = StringSynth::new(2);
    s.trigger();
    let mut buf: Vec<i64> = vec![0; 8];
    s.process(&mut buf);
    let logged = s.snoop.drain();
    assert_eq!(logged, buf);
    assert_eq!(s.snoop.drain(), Vec::<i64>::new());
}

#[test]
fn test_tune_sets_delay_length() {
    let mut s = StringSynth::new(10);
    s.tune(2750);
    assert_eq!(s.delay.len(), 1604);
    s.tune(44000);
    assert_eq!(s.delay.len(), 100);
    // A frequency beyond the sampling rate clamps to one slot.
    s.tune(10000000);
    assert_eq!(s.delay.len(), 1);
}

#[test]
fn test_apply_event_variants() {
    let mut s = StringSynth::new(10);
    let quit = apply_event(&mut s, &AudioEvent::PlayNote(44000));
    assert!(!quit);
    assert_eq!(s.delay.len(), 100);
    assert_eq!(s.trigger_count, 50);

    let down = AudioEvent::Midi(MidiEvent {
        timestamp: 0,
        channel: 0,
        inner: MidiEventInner::Down { velocity: 99, note: 69 },
    });
    let quit = apply_event(&mut s, &down);
    assert!(!quit);
    assert_eq!(s.delay.len(), 100);

    let up = AudioEvent::Midi(MidiEvent {
        timestamp: 0,
        channel: 0,
        inner: MidiEventInner::Up { velocity: 99, note: 69 },
    });
    s.tune(2750);
    let quit = apply_event(&mut s, &up);
    assert!(!quit);
    assert_eq!(s.delay.len(), 1604);

    assert!(apply_event(&mut s, &AudioEvent::Terminate));
    assert_eq!(s.delay.len(), 1604);
}

#[test]
fn test_wavetable_square_source() {
    let square = WaveTable::new(SquareWave).0;
    assert_eq!(square.sample(0), -65536);
    assert_eq!(square.sample(2047), -65536);
    assert_eq!(square.sample(2048), 65536);
    assert_eq!(square.sample(4095), 65536);
    assert_eq!(square.sample(4096), -65536);
}
