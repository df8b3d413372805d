//! A polyphonic synthesizer core: envelopes, voice lifecycle, note events and
//! a bounded history of produced samples.
//!
//! Time is counted in samples and amplitudes are fixed-point levels, so that
//! every rule of the engine is exact integer arithmetic. The oscillator itself
//! (a sine per voice) is left to the caller, who receives each voice's key and
//! gain for the current sample and hands the mixed sample back.

pub mod envelope;
pub mod midi;
pub mod voice;
pub mod ringbuffer;
pub mod synth;
pub mod viewer;

pub use envelope::{lin_lerp, ADSR, UNITY};
pub use midi::{MidiEvent, NoteMessage};
pub use ringbuffer::RingBuffer;
pub use synth::{
    Synth, SynthError, ATTACK_MS, CLOCK_LIMIT, DECAY_MS, HISTORY_SIZE, MAX_VELOCITY, PARTIALS,
    RELEASE_MS, SUSTAIN_LEVEL,
};
pub use voice::{Retain, Voice};
pub use viewer::{layout_notes, NoteLayout, NoteSpan};
