//! MIDI event decoding and input-port selection.
//!
//! Raw three-byte messages are decoded by command nibble into
//! structured events; unrecognised commands are discarded rather than
//! reported as errors. Port selection picks the last listed port whose
//! name starts with the configured prefix; the transport itself
//! (enumeration, connection, callbacks) lives outside the library.

use vstd::prelude::*;

verus! {

/// Which MIDI input to use: a named hardware port, or a virtual port.
#[derive(Clone, Debug)]
pub enum MidiDevice {
    Named(String),
    Virtual,
}

impl MidiDevice {
    /// Parse a device argument; every name is taken as a named port.
    /// Virtual devices are not supported, so the one string that
    /// selects them is excluded here.
    pub fn from_str(value: &str) -> (r: MidiDevice)
        requires
            value@ != "virtual"@,
        ensures
            r matches MidiDevice::Named(n) && n@ == value@,
    {
        let name = value.to_string();
        proof {
            vstd::string::to_string_from_display_ensures_for_str(value, name);
        }
        MidiDevice::Named(name)
    }
}

/// A decoded MIDI event with its arrival timestamp and channel.
#[derive(Clone, Copy, Debug)]
pub struct MidiEvent {
    pub timestamp: u64,
    pub channel: u8,
    pub inner: MidiEventInner,
}

/// The payload of a decoded MIDI event.
#[derive(Clone, Copy, Debug)]
pub enum MidiEventInner {
    Down { velocity: u8, note: u8 },
    Up { velocity: u8, note: u8 },
    KeyPressure { key: u8, pressure: u8 },
}

/// Decode one raw MIDI message: the high nibble of the first byte is
/// the command (note-off, note-on, key-pressure), the low nibble the
/// channel; any other command yields no event.
pub fn parse_midi(timestamp: u64, midi: &[u8]) -> (r: Option<MidiEvent>)
    requires
        midi@.len() >= 3,
    ensures
        ({
            let cmd = (midi@[0] & 0xf0) >> 4;
            let channel = midi@[0] & 0x0f;
            match r {
                Some(ev) => {
                    &&& ev.timestamp == timestamp
                    &&& ev.channel == channel
                    &&& cmd == 8 ==> ev.inner == (MidiEventInner::Up {
                        velocity: midi@[2],
                        note: midi@[1],
                    })
                    &&& cmd == 9 ==> ev.inner == (MidiEventInner::Down {
                        velocity: midi@[2],
                        note: midi@[1],
                    })
                    &&& cmd == 10 ==> ev.inner == (MidiEventInner::KeyPressure {
                        key: midi@[1],
                        pressure: midi@[2],
                    })
                    &&& cmd == 8 || cmd == 9 || cmd == 10
                },
                None => cmd != 8 && cmd != 9 && cmd != 10,
            }
        }),
{
    let byte0 = midi[0];
    let cmd = (byte0 & 0xf0) >> 4;
    let channel = byte0 & 0xf;

    let inner = match cmd {
        0x8 => MidiEventInner::Up { velocity: midi[2], note: midi[1] },
        0x9 => MidiEventInner::Down { velocity: midi[2], note: midi[1] },
        0xa => MidiEventInner::KeyPressure { key: midi[1], pressure: midi[2] },
        _ => {
            return None;
        },
    };
    Some(MidiEvent { timestamp, channel, inner })
}

/// `p` is an initial segment of `s`.
pub open spec fn is_name_prefix(p: Seq<u8>, s: Seq<u8>) -> bool {
    p.len() <= s.len() && forall|i: int| 0 <= i < p.len() ==> p[i] == s[i]
}

/// Whether one byte string starts with another.
pub fn starts_with(s: &Vec<u8>, p: &Vec<u8>) -> (r: bool)
    ensures
        r == is_name_prefix(p@, s@),
{
    if p.len() > s.len() {
        return false;
    }
    let mut i: usize = 0;
    while i < p.len()
        invariant
            i <= p@.len(),
            p@.len() <= s@.len(),
            forall|j: int| 0 <= j < i ==> p@[j] == s@[j],
        decreases p@.len() - i,
    {
        if p[i] != s[i] {
            return false;
        }
        i += 1;
    }
    true
}

/// Choose which input port to connect to: the first of the listed
/// port names that starts with the wanted prefix, or none.
pub fn pick_port(names: &Vec<Vec<u8>>, prefix: &Vec<u8>) -> (r: Option<usize>)
    ensures
        match r {
            Some(i) => {
                &&& i < names@.len()
                &&& is_name_prefix(prefix@, names@[i as int]@)
                &&& forall|j: int|
                    0 <= j < i ==> !is_name_prefix(prefix@, (#[trigger] names@[j])@)
            },
            None => forall|j: int|
                0 <= j < names@.len() ==> !is_name_prefix(prefix@, (#[trigger] names@[j])@),
        },
{
    let mut k: usize = 0;
    while k < names.len()
        invariant
            k <= names@.len(),
            forall|j: int| 0 <= j < k ==> !is_name_prefix(prefix@, (#[trigger] names@[j])@),
        decreases names@.len() - k,
    {
        if starts_with(&names[k], prefix) {
            return Some(k);
        }
        k += 1;
    }
    None
}

} // verus!
