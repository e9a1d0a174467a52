//! The pitch table: the closed set of twelve equal-tempered pitch classes,
//! each carrying a canonical base frequency for octave zero.

use vstd::prelude::*;

verus! {

/// A trait for types that have a pitch property.
pub trait HasPitch {
    /// Returns the pitch of the type (usually a note).
    fn pitch(&self) -> Pitch;
}

/// An enum representing the pitch of a note.
///
/// One of the twelve equal-tempered chromatic tones, octave-independent and
/// totally ordered. There is no enharmonic representation here, so all of the
/// sharps are represented by their flat spelling of the next letter.
#[derive(PartialEq, Eq, Structural, Clone, Copy, Hash, Debug, PartialOrd, Ord)]
pub enum Pitch {
    /// The pitch C.
    C,
    /// The pitch C♯ / D♭.
    DFlat,
    /// The pitch D.
    D,
    /// The pitch D♯ / E♭.
    EFlat,
    /// The pitch E.
    E,
    /// The pitch F.
    F,
    /// The pitch F♯ / G♭.
    GFlat,
    /// The pitch G.
    G,
    /// The pitch G♯ / A♭.
    AFlat,
    /// The pitch A.
    A,
    /// The pitch A♯ / B♭.
    BFlat,
    /// The pitch B.
    B,
}

impl Pitch {
    /// The position of this pitch class in the chromatic scale: 0 for C up to 11 for B.
    pub open spec fn spec_index(self) -> int {
        match self {
            Pitch::C => 0,
            Pitch::DFlat => 1,
            Pitch::D => 2,
            Pitch::EFlat => 3,
            Pitch::E => 4,
            Pitch::F => 5,
            Pitch::GFlat => 6,
            Pitch::G => 7,
            Pitch::AFlat => 8,
            Pitch::A => 9,
            Pitch::BFlat => 10,
            Pitch::B => 11,
        }
    }

    /// Returns the chromatic index of this pitch class.
    pub fn index(self) -> (r: u8)
        ensures
            r == self.spec_index(),
    {
        match self {
            Pitch::C => 0,
            Pitch::DFlat => 1,
            Pitch::D => 2,
            Pitch::EFlat => 3,
            Pitch::E => 4,
            Pitch::F => 5,
            Pitch::GFlat => 6,
            Pitch::G => 7,
            Pitch::AFlat => 8,
            Pitch::A => 9,
            Pitch::BFlat => 10,
            Pitch::B => 11,
        }
    }

    /// The canonical base frequency of this pitch class at octave zero,
    /// in centihertz (hundredths of a hertz): C0 is 16.35 Hz, so 1635.
    pub open spec fn spec_base_frequency_centihertz(self) -> int {
        match self {
            Pitch::C => 1635,
            Pitch::DFlat => 1732,
            Pitch::D => 1835,
            Pitch::EFlat => 1945,
            Pitch::E => 2060,
            Pitch::F => 2183,
            Pitch::GFlat => 2312,
            Pitch::G => 2450,
            Pitch::AFlat => 2596,
            Pitch::A => 2750,
            Pitch::BFlat => 2914,
            Pitch::B => 3087,
        }
    }

    /// Returns the base (octave-zero) frequency of this pitch class in centihertz.
    pub fn base_frequency_centihertz(self) -> (r: u32)
        ensures
            r == self.spec_base_frequency_centihertz(),
    {
        match self {
            Pitch::C => 1635,
            Pitch::DFlat => 1732,
            Pitch::D => 1835,
            Pitch::EFlat => 1945,
            Pitch::E => 2060,
            Pitch::F => 2183,
            Pitch::GFlat => 2312,
            Pitch::G => 2450,
            Pitch::AFlat => 2596,
            Pitch::A => 2750,
            Pitch::BFlat => 2914,
            Pitch::B => 3087,
        }
    }

    /// The pitch class with the given chromatic index; indices 12 and above
    /// fall back to C, so callers go through [`Pitch::try_from`] for
    /// bounds-checked conversion.
    pub open spec fn spec_of_index(i: int) -> Pitch {
        if i == 1 {
            Pitch::DFlat
        } else if i == 2 {
            Pitch::D
        } else if i == 3 {
            Pitch::EFlat
        } else if i == 4 {
            Pitch::E
        } else if i == 5 {
            Pitch::F
        } else if i == 6 {
            Pitch::GFlat
        } else if i == 7 {
            Pitch::G
        } else if i == 8 {
            Pitch::AFlat
        } else if i == 9 {
            Pitch::A
        } else if i == 10 {
            Pitch::BFlat
        } else if i == 11 {
            Pitch::B
        } else {
            Pitch::C
        }
    }

    /// Bounds-checked conversion from a chromatic index: succeeds exactly on
    /// 0 through 11, and fails (it does not wrap or panic) on anything else.
    pub fn try_from(value: u8) -> (r: Result<Pitch, &'static str>)
        ensures
            r is Ok <==> value < 12,
            r is Ok ==> r->Ok_0 == Pitch::spec_of_index(value as int),
    {
        match value {
            0 => Ok(Pitch::C),
            1 => Ok(Pitch::DFlat),
            2 => Ok(Pitch::D),
            3 => Ok(Pitch::EFlat),
            4 => Ok(Pitch::E),
            5 => Ok(Pitch::F),
            6 => Ok(Pitch::GFlat),
            7 => Ok(Pitch::G),
            8 => Ok(Pitch::AFlat),
            9 => Ok(Pitch::A),
            10 => Ok(Pitch::BFlat),
            11 => Ok(Pitch::B),
            _ => Err("Invalid pitch"),
        }
    }

    /// Returns the pitch class with the given chromatic index, taken modulo 12.
    pub fn of_index(i: u8) -> (r: Pitch)
        requires
            i < 12,
        ensures
            r == Pitch::spec_of_index(i as int),
            r.spec_index() == i,
    {
        match i {
            1 => Pitch::DFlat,
            2 => Pitch::D,
            3 => Pitch::EFlat,
            4 => Pitch::E,
            5 => Pitch::F,
            6 => Pitch::GFlat,
            7 => Pitch::G,
            8 => Pitch::AFlat,
            9 => Pitch::A,
            10 => Pitch::BFlat,
            11 => Pitch::B,
            _ => Pitch::C,
        }
    }
}

impl HasPitch for Pitch {
    /// A pitch class is its own pitch.
    fn pitch(&self) -> (p: Pitch)
        ensures
            p == *self,
    {
        *self
    }
}

/// All twelve pitch classes in ascending chromatic order.
pub fn all_pitches() -> (r: Vec<Pitch>)
    ensures
        r@.len() == 12,
        forall|i: int| 0 <= i < 12 ==> #[trigger] r@[i] == Pitch::spec_of_index(i),
{
    let mut v: Vec<Pitch> = Vec::new();
    v.push(Pitch::C);
    v.push(Pitch::DFlat);
    v.push(Pitch::D);
    v.push(Pitch::EFlat);
    v.push(Pitch::E);
    v.push(Pitch::F);
    v.push(Pitch::GFlat);
    v.push(Pitch::G);
    v.push(Pitch::AFlat);
    v.push(Pitch::A);
    v.push(Pitch::BFlat);
    v.push(Pitch::B);
    v
}

/// Every chromatic index round-trips through the pitch table.
pub proof fn lemma_pitch_index_roundtrip(i: int)
    requires
        0 <= i < 12,
    ensures
        Pitch::spec_of_index(i).spec_index() == i,
{
}

} // verus!
