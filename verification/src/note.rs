//! Pitch classes and frequency mapping.
//!
//! Frequencies are carried in centihertz (hundredths of a hertz) so
//! that twelve-tone equal temperament can be tabulated exactly: one
//! table entry per pitch class in the lowest octave, referenced to A
//! at 27.50 Hz (MIDI note 21), doubled once per octave.

use vstd::prelude::*;

verus! {

/// The twelve pitch classes, with A as the reference.
#[derive(Clone, Copy, Debug)]
pub enum Note {
    A,
    As,
    B,
    C,
    Cs,
    D,
    Ds,
    E,
    F,
    Fs,
    G,
    Gs,
}

/// Semitone offset of a pitch class above the reference A.
pub open spec fn spec_semitone(n: Note) -> u32 {
    match n {
        Note::A => 0,
        Note::As => 1,
        Note::B => 2,
        Note::C => 3,
        Note::Cs => 4,
        Note::D => 5,
        Note::Ds => 6,
        Note::E => 7,
        Note::F => 8,
        Note::Fs => 9,
        Note::G => 10,
        Note::Gs => 11,
    }
}

/// The pitch class `s` semitones above A, for `s` in 0..=11.
pub open spec fn spec_note_of(s: int) -> Note {
    if s == 0 {
        Note::A
    } else if s == 1 {
        Note::As
    } else if s == 2 {
        Note::B
    } else if s == 3 {
        Note::C
    } else if s == 4 {
        Note::Cs
    } else if s == 5 {
        Note::D
    } else if s == 6 {
        Note::Ds
    } else if s == 7 {
        Note::E
    } else if s == 8 {
        Note::F
    } else if s == 9 {
        Note::Fs
    } else if s == 10 {
        Note::G
    } else {
        Note::Gs
    }
}

/// Frequency of a pitch class in the lowest octave, in centihertz:
/// 2750 times the equal-temperament semitone ratio to the power of
/// the semitone offset, rounded to the nearest centihertz.
pub open spec fn spec_note_centihz(n: Note) -> u64 {
    match n {
        Note::A => 2750,
        Note::As => 2914,
        Note::B => 3087,
        Note::C => 3270,
        Note::Cs => 3465,
        Note::D => 3671,
        Note::Ds => 3889,
        Note::E => 4120,
        Note::F => 4365,
        Note::Fs => 4625,
        Note::G => 4900,
        Note::Gs => 5191,
    }
}

/// What `midi_note_to_freq` returns: notes at or below the reference
/// clamp to it; above it, the offset splits into pitch class and
/// octave and the tabulated frequency doubles once per octave.
pub open spec fn spec_midi_freq(note: u8) -> u64 {
    if note <= 21 {
        2750
    } else {
        let rel = note - 21;
        spec_note_centihz(spec_note_of(rel as int % 12)) << ((rel as int / 12) as u64)
    }
}

impl Note {
    /// Semitone offset above the reference A.
    pub fn semitone(self) -> (r: u32)
        ensures
            r == spec_semitone(self),
    {
        match self {
            Note::A => 0,
            Note::As => 1,
            Note::B => 2,
            Note::C => 3,
            Note::Cs => 4,
            Note::D => 5,
            Note::Ds => 6,
            Note::E => 7,
            Note::F => 8,
            Note::Fs => 9,
            Note::G => 10,
            Note::Gs => 11,
        }
    }

    /// The pitch class `value` semitones above A, or an error for a
    /// value outside the twelve-semitone range.
    pub fn try_from(value: u8) -> (r: Result<Note, &'static str>)
        ensures
            value <= 11 ==> (r matches Ok(n) && n == spec_note_of(value as int)),
            value > 11 ==> (r matches Err(m) && m@ == "note outside range 0..=11"@),
    {
        match value {
            0 => Ok(Note::A),
            1 => Ok(Note::As),
            2 => Ok(Note::B),
            3 => Ok(Note::C),
            4 => Ok(Note::Cs),
            5 => Ok(Note::D),
            6 => Ok(Note::Ds),
            7 => Ok(Note::E),
            8 => Ok(Note::F),
            9 => Ok(Note::Fs),
            10 => Ok(Note::G),
            11 => Ok(Note::Gs),
            _ => Err("note outside range 0..=11"),
        }
    }

    /// Frequency of this pitch class in the given octave, in
    /// centihertz: the tabulated lowest-octave value doubled once per
    /// octave.
    pub fn freq(self, octave: u32) -> (r: u64)
        requires
            octave < 48,
        ensures
            r == spec_note_centihz(self) << (octave as u64),
    {
        let base = match self {
            Note::A => 2750u64,
            Note::As => 2914,
            Note::B => 3087,
            Note::C => 3270,
            Note::Cs => 3465,
            Note::D => 3671,
            Note::Ds => 3889,
            Note::E => 4120,
            Note::F => 4365,
            Note::Fs => 4625,
            Note::G => 4900,
            Note::Gs => 5191,
        };
        base << octave
    }
}

/// Convert a MIDI note number to a frequency in centihertz, in
/// twelve-tone equal temperament referenced to A at 27.50 Hz on note
/// 21; note numbers at or below the reference clamp to it instead of
/// underflowing.
pub fn midi_note_to_freq(note: u8) -> (r: u64)
    ensures
        r == spec_midi_freq(note),
        note <= 21 ==> r == 2750,
{
    if note <= 21 {
        2750
    } else {
        let relative_to_a0 = note - 21;
        let pitch = match Note::try_from(relative_to_a0 % 12) {
            Ok(n) => n,
            Err(_) => {
                proof {
                    assert(false);
                }
                Note::A
            },
        };
        let octave = (relative_to_a0 / 12) as u32;
        pitch.freq(octave)
    }
}

/// What `key_to_freq` returns for each logical key: a fixed mapping
/// covering one octave and three notes above it.
pub open spec fn spec_key_freq(key: char) -> Option<u64> {
    if key == 'z' {
        Some(spec_note_centihz(Note::A) << 4u64)
    } else if key == 'x' {
        Some(spec_note_centihz(Note::B) << 4u64)
    } else if key == 'c' {
        Some(spec_note_centihz(Note::C) << 4u64)
    } else if key == 'v' {
        Some(spec_note_centihz(Note::D) << 4u64)
    } else if key == 'b' {
        Some(spec_note_centihz(Note::E) << 4u64)
    } else if key == 'n' {
        Some(spec_note_centihz(Note::F) << 4u64)
    } else if key == 'm' {
        Some(spec_note_centihz(Note::G) << 4u64)
    } else if key == ',' {
        Some(spec_note_centihz(Note::A) << 5u64)
    } else if key == '.' {
        Some(spec_note_centihz(Note::B) << 5u64)
    } else if key == '/' {
        Some(spec_note_centihz(Note::C) << 5u64)
    } else {
        None
    }
}

/// Map a logical keyboard key to a target frequency in centihertz, or
/// none for a key outside the playing range.
pub fn key_to_freq(key: char) -> (r: Option<u64>)
    ensures
        r == spec_key_freq(key),
{
    match key {
        'z' => Some(Note::A.freq(4)),
        'x' => Some(Note::B.freq(4)),
        'c' => Some(Note::C.freq(4)),
        'v' => Some(Note::D.freq(4)),
        'b' => Some(Note::E.freq(4)),
        'n' => Some(Note::F.freq(4)),
        'm' => Some(Note::G.freq(4)),
        ',' => Some(Note::A.freq(5)),
        '.' => Some(Note::B.freq(5)),
        '/' => Some(Note::C.freq(5)),
        _ => None,
    }
}

} // verus!
