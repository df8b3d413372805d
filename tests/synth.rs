use polysynth::{
    NoteMessage, Synth, SynthError, Voice, HISTORY_SIZE, PARTIALS, UNITY,
};

fn engine(rate: u32) -> Synth<f32> {
    Synth::new(rate).unwrap()
}

/// One sample: advance, mix a sine per voice at its gain, record.
fn mix(s: &mut Synth<f32>) -> f32 {
    s.begin_sample();
    let phase = s.oscillator_phase() as f32;
    let rate = s.sample_rate() as f32;
    let mut out = 0.0f32;
    for i in 0..s.voices().len() {
        let key = s.voices()[i].key as f32;
        let freq = 440.0f32 * 2.0f32.powf((key - 69.0) / 12.0);
        let gain = s.voice_gain(i) as f32 / UNITY as f32;
        out += (phase * freq * 2.0 * std::f32::consts::PI / rate).sin() * gain;
    }
    s.finish_sample(out);
    out
}

#[test]
fn zero_sample_rate_is_refused() {
    assert_eq!(Synth::<f32>::new(0).err(), Some(SynthError::InvalidSampleRate));
    assert_eq!(
        Synth::<f32>::with_history(0, 16).err(),
        Some(SynthError::InvalidSampleRate)
    );
}

#[test]
fn zero_history_is_refused() {
    assert_eq!(Synth::<f32>::with_history(48_000, 0).err(), Some(SynthError::EmptyHistory));
}

#[test]
fn fresh_engine_is_silent_and_empty() {
    let s = engine(48_000);
    assert_eq!(s.sample_clock(), 0);
    assert_eq!(s.samples(), 0);
    assert!(s.voices().is_empty());
    assert_eq!(s.last_sample(), None);
    assert_eq!(s.sample_buffer().capacity(), HISTORY_SIZE);
    assert_eq!(s.partial(0), Some(0));
}

#[test]
fn phase_wraps_at_sample_rate() {
    let mut s = engine(4);
    for _ in 0..5 {
        s.begin_sample();
    }
    assert_eq!(s.sample_clock(), 5);
    assert_eq!(s.oscillator_phase(), 1);
    for _ in 0..3 {
        s.begin_sample();
    }
    assert_eq!(s.oscillator_phase(), 0);
    assert_eq!(s.set_sample_rate(3), Ok(()));
    assert_eq!(s.oscillator_phase(), 0);
}

#[test]
fn set_sample_rate_reduces_phase() {
    let mut s = engine(10);
    for _ in 0..7 {
        s.begin_sample();
    }
    assert_eq!(s.set_sample_rate(4), Ok(()));
    assert_eq!(s.oscillator_phase(), 3);
    assert_eq!(s.sample_clock(), 7);
}

#[test]
fn set_sample_rate_checks_value() {
    let mut s = engine(48_000);
    assert_eq!(s.set_sample_rate(0), Err(SynthError::InvalidSampleRate));
    assert_eq!(s.sample_rate(), 48_000);
    assert_eq!(s.set_sample_rate(44_100), Ok(()));
    assert_eq!(s.sample_rate(), 44_100);
}

#[test]
fn note_off_twice_is_no_op() {
    let mut s = engine(48_000);
    s.toggle_key_down(60, 100);
    mix(&mut s);
    s.toggle_key_up(60);
    let once = s.voices().clone();
    s.toggle_key_up(60);
    assert_eq!(s.voices(), &once);
    assert_eq!(once[0].release_time, Some(1));
}

#[test]
fn note_off_without_voice_is_no_op() {
    let mut s = engine(48_000);
    s.toggle_key_down(60, 100);
    s.toggle_key_up(61);
    assert_eq!(
        s.voices(),
        &vec![Voice { key: 60, velocity: 100, time: 0, release_time: None }]
    );
}

#[test]
fn retrigger_replaces_voice() {
    let mut s = engine(48_000);
    s.toggle_key_down(64, 30);
    s.toggle_key_down(70, 90);
    mix(&mut s);
    mix(&mut s);
    s.toggle_key_down(64, 110);
    assert_eq!(
        s.voices(),
        &vec![
            Voice { key: 70, velocity: 90, time: 0, release_time: None },
            Voice { key: 64, velocity: 110, time: 2, release_time: None },
        ]
    );
}

#[test]
fn retrigger_while_releasing_replaces_voice() {
    let mut s = engine(48_000);
    s.toggle_key_down(64, 30);
    mix(&mut s);
    s.toggle_key_up(64);
    mix(&mut s);
    s.toggle_key_down(64, 50);
    assert_eq!(
        s.voices(),
        &vec![Voice { key: 64, velocity: 50, time: 2, release_time: None }]
    );
}

#[test]
fn first_gain_is_exact() {
    let mut s = engine(48_000);
    s.toggle_key_down(69, 127);
    s.toggle_key_down(72, 64);
    s.begin_sample();
    // one sample into a 480-sample attack: 65536 * 1000 / 480000
    assert_eq!(s.voice_gain(0), 136);
    // scaled by velocity 64 / 127
    assert_eq!(s.voice_gain(1), 68);
}

#[test]
fn sustain_gain_is_half() {
    let mut s = engine(1_000);
    s.toggle_key_down(69, 127);
    for _ in 0..500 {
        mix(&mut s);
    }
    s.begin_sample();
    assert_eq!(s.voice_gain(0), UNITY / 2);
}

#[test]
fn released_voice_is_reclaimed_after_release() {
    let mut s = engine(48_000);
    s.toggle_key_down(69, 127);
    s.toggle_key_up(69);
    for _ in 0..28_799 {
        mix(&mut s);
    }
    assert_eq!(s.voices().len(), 1);
    mix(&mut s);
    assert!(s.voices().is_empty());
}

#[test]
fn held_voice_is_never_reclaimed() {
    let mut s = engine(1_000);
    s.toggle_key_down(40, 127);
    for _ in 0..5_000 {
        mix(&mut s);
    }
    assert_eq!(s.voices().len(), 1);
}

#[test]
fn history_and_counter_track_samples() {
    let mut s = Synth::<f32>::with_history(48_000, 4).unwrap();
    s.toggle_key_down(69, 127);
    let mut produced = vec![];
    for _ in 0..6 {
        produced.push(mix(&mut s));
    }
    assert_eq!(s.samples(), 6);
    assert_eq!(s.last_sample(), Some(&produced[5]));
    let b = s.sample_buffer();
    assert_eq!(b.len(), 4);
    for i in 0..4 {
        assert_eq!(b.get(i), Some(&produced[5 - i]));
    }
    assert_eq!(b.get(4), None);
}

#[test]
fn partial_writes_are_checked() {
    let mut s = engine(48_000);
    assert_eq!(s.set_partial(3, 1000), Ok(()));
    assert_eq!(s.partial(3), Some(1000));
    assert_eq!(s.set_partial(PARTIALS, 1), Err(SynthError::PartialOutOfRange));
    assert_eq!(s.set_partial(3, UNITY + 1), Err(SynthError::LevelOutOfRange));
    assert_eq!(s.partial(3), Some(1000));
    assert_eq!(s.partial(PARTIALS), None);
}

#[test]
fn apply_dispatches_messages() {
    let mut s = engine(48_000);
    s.apply(NoteMessage::NoteOn { key: 50, velocity: 80 });
    mix(&mut s);
    s.apply(NoteMessage::NoteOff { key: 50, velocity: 0 });
    assert_eq!(
        s.voices(),
        &vec![Voice { key: 50, velocity: 80, time: 0, release_time: Some(1) }]
    );
}

#[test]
fn end_to_end_note_rises_and_fades() {
    let mut s = engine(48_000);
    s.toggle_key_down(69, 127);
    let mut held = vec![];
    for _ in 0..480 {
        held.push(mix(&mut s));
    }
    assert!(held.iter().any(|x| *x != 0.0));
    assert!(held.iter().all(|x| *x >= -1.0 && *x <= 1.0));
    s.toggle_key_up(69);
    let mut tail = vec![];
    for _ in 0..28_800 {
        tail.push(mix(&mut s));
    }
    assert!(s.voices().is_empty());
    let early = tail[..480].iter().fold(0.0f32, |m, x| m.max(x.abs()));
    let late = tail[tail.len() - 48..].iter().fold(0.0f32, |m, x| m.max(x.abs()));
    assert!(late < early);
    assert!(late < 0.01);
}

#[test]
fn interleaved_events_match_serial_order() {
    let mut s = engine(48_000);
    let mut expected: Vec<Option<Voice>> = vec![None; 128];
    let mut order: Vec<u8> = vec![];
    for i in 0..1000u64 {
        let key = (i % 128) as u8;
        // ingestion role
        s.toggle_key_down(key, 100);
        expected[key as usize] =
            Some(Voice { key, velocity: 100, time: s.sample_clock(), release_time: None });
        order.retain(|k| *k != key);
        order.push(key);
        // audio role
        mix(&mut s);
        // ingestion role again, on a different key
        let up = ((i + 64) % 128) as u8;
        s.toggle_key_up(up);
        if let Some(v) = expected[up as usize].as_mut() {
            if v.release_time.is_none() {
                v.release_time = Some(s.sample_clock());
            }
        }
    }
    let want: Vec<Voice> = order.iter().map(|k| expected[*k as usize].unwrap()).collect();
    assert_eq!(s.voices(), &want);
}
