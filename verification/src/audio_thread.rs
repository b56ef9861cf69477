//! The audio thread's control contract: the events it consumes and
//! how each one mutates the live voice between buffer fills.
//!
//! Events arrive from the control thread (keyboard or MIDI) on a
//! queue; the audio thread applies each one to the voice under the
//! device's lock and then lets the device pull samples through the
//! filter tree. The queue, the lock and the device live outside the
//! library; the decision of what each event does lives here.

use vstd::prelude::*;
use crate::midi::{MidiEvent, MidiEventInner};
use crate::note::{midi_note_to_freq, spec_midi_freq};
use crate::string_synth::{StringSynth, ss_wf, tune_len, TRIGGER_SAMPLES};

verus! {

/// A control message for the audio thread.
#[derive(Clone, Copy, Debug)]
pub enum AudioEvent {
    /// A decoded MIDI event; only note-down retunes and restrikes.
    Midi(MidiEvent),
    /// Play a tone at the given frequency in centihertz.
    PlayNote(u64),
    /// Leave the audio loop.
    Terminate,
}

/// The target frequency an event retunes the voice to, if any.
pub open spec fn event_freq(ev: AudioEvent) -> Option<u64> {
    match ev {
        AudioEvent::Midi(m) => match m.inner {
            MidiEventInner::Down { velocity: _, note } => Some(spec_midi_freq(note)),
            _ => None,
        },
        AudioEvent::PlayNote(c) => Some(c),
        AudioEvent::Terminate => None,
    }
}

/// Apply one control event to the voice: a note-down or play request
/// retunes the string to the event's frequency and restrikes it;
/// anything else leaves the voice untouched. Returns whether the
/// audio loop should exit.
pub fn apply_event(synth: &mut StringSynth, ev: &AudioEvent) -> (quit: bool)
    requires
        ss_wf(old(synth)@),
    ensures
        ss_wf(final(synth)@),
        quit == (ev is Terminate),
        match event_freq(*ev) {
            Some(c) => {
                &&& final(synth)@.delay.buf.len() == tune_len(c as int)
                &&& final(synth)@.trigger_count == TRIGGER_SAMPLES
                &&& final(synth)@.lpf == old(synth)@.lpf
                &&& final(synth)@.snoop == old(synth)@.snoop
                &&& final(synth)@.last == old(synth)@.last
                &&& final(synth)@.rng == old(synth)@.rng
            },
            None => final(synth)@ == old(synth)@,
        },
{
    match ev {
        AudioEvent::Midi(m) => match m.inner {
            MidiEventInner::Down { velocity: _, note } => {
                let freq = midi_note_to_freq(note);
                synth.tune(freq);
                synth.trigger();
                false
            },
            _ => false,
        },
        AudioEvent::PlayNote(c) => {
            synth.tune(*c);
            synth.trigger();
            false
        },
        AudioEvent::Terminate => true,
    }
}

} // verus!
