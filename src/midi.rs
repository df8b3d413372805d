use crate::synth::{press_key, release_key, Synth};
use vstd::prelude::*;

verus! {

/// A decoded MIDI note message. Key and velocity are 7-bit values.
#[derive(Clone, Copy, Debug, PartialEq, Eq)]
pub enum NoteMessage {
    NoteOff { key: u8, velocity: u8 },
    NoteOn { key: u8, velocity: u8 },
}

/// A note message and the device timestamp it arrived with.
#[derive(Clone, Copy, Debug, PartialEq, Eq)]
pub struct MidiEvent {
    pub input: NoteMessage,
    pub time: u64,
}

impl NoteMessage {
    /// Key and velocity are below 128.
    pub open spec fn wf(&self) -> bool {
        match *self {
            NoteMessage::NoteOff { key, velocity } => key < 128 && velocity < 128,
            NoteMessage::NoteOn { key, velocity } => key < 128 && velocity < 128,
        }
    }

    pub open spec fn spec_key(&self) -> u8 {
        match *self {
            NoteMessage::NoteOff { key, .. } => key,
            NoteMessage::NoteOn { key, .. } => key,
        }
    }

    /// The note number the message is about.
    pub fn key(&self) -> (r: u8)
        ensures
            r == self.spec_key(),
    {
        match *self {
            NoteMessage::NoteOff { key, .. } => key,
            NoteMessage::NoteOn { key, .. } => key,
        }
    }
}

/// The note message that the bytes of one MIDI message hold, if they hold
/// one: a status byte `0x8n` (note-off) or `0x9n` (note-on, on any channel
/// `n`) followed by two data bytes below 128. A note-on of velocity 0 is a
/// note-off. Bytes after the third are not read.
pub open spec fn note_message(bytes: Seq<u8>) -> Option<NoteMessage> {
    if bytes.len() >= 3 && bytes[1] < 128 && bytes[2] < 128 {
        if 0x80 <= bytes[0] < 0x90 {
            Some(NoteMessage::NoteOff { key: bytes[1], velocity: bytes[2] })
        } else if 0x90 <= bytes[0] < 0xA0 {
            if bytes[2] == 0 {
                Some(NoteMessage::NoteOff { key: bytes[1], velocity: 0 })
            } else {
                Some(NoteMessage::NoteOn { key: bytes[1], velocity: bytes[2] })
            }
        } else {
            None
        }
    } else {
        None
    }
}

/// Relies on wmidi's `MidiMessage::try_from(&[u8])` to decode note-off and
/// note-on messages; any other message, and any error, gives `None`.
#[verifier::external_body]
fn decode_note(bytes: &[u8]) -> (r: Option<NoteMessage>)
    ensures
        r == note_message(bytes@),
{
    match wmidi::MidiMessage::try_from(bytes) {
        Ok(wmidi::MidiMessage::NoteOff(_, n, v)) => Some(
            NoteMessage::NoteOff { key: u8::from(n), velocity: u8::from(v) },
        ),
        Ok(wmidi::MidiMessage::NoteOn(_, n, v)) => Some(
            NoteMessage::NoteOn { key: u8::from(n), velocity: u8::from(v) },
        ),
        _ => None,
    }
}

impl MidiEvent {
    /// The note event that the bytes of one MIDI message hold, stamped with
    /// `time`; `None` for any other message or malformed bytes.
    pub fn from_bytes(bytes: &[u8], time: u64) -> (r: Option<MidiEvent>)
        ensures
            r == match note_message(bytes@) {
                Some(m) => Some(MidiEvent { input: m, time }),
                None => None,
            },
            r matches Some(e) ==> e.input.wf(),
    {
        match decode_note(bytes) {
            Some(m) => Some(MidiEvent { input: m, time }),
            None => None,
        }
    }
}

impl<S> Synth<S> {
    /// Applies a note message: a note-on presses its key with its velocity, a
    /// note-off lets its key go.
    pub fn apply(&mut self, msg: NoteMessage)
        requires
            old(self).wf(),
            msg.wf(),
        ensures
            final(self).wf(),
            final(self).active() == match msg {
                NoteMessage::NoteOn { key, velocity } => press_key(
                    old(self).active(),
                    key,
                    velocity,
                    old(self).clock(),
                ),
                NoteMessage::NoteOff { key, .. } => release_key(
                    old(self).active(),
                    key,
                    old(self).clock(),
                ),
            },
            final(self).clock() == old(self).clock(),
            final(self).osc_phase() == old(self).osc_phase(),
            final(self).rate() == old(self).rate(),
            final(self).history() == old(self).history(),
            final(self).history_cap() == old(self).history_cap(),
            final(self).produced() == old(self).produced(),
            final(self).partial_levels() == old(self).partial_levels(),
    {
        match msg {
            NoteMessage::NoteOn { key, velocity } => self.toggle_key_down(key, velocity),
            NoteMessage::NoteOff { key, .. } => self.toggle_key_up(key),
        }
    }
}

} // verus!
