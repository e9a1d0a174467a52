//! Notes: a pitch class bound to an octave, with a derived absolute
//! frequency, and the table of all notes the classifier can report.

use vstd::prelude::*;
use vstd::arithmetic::power2::{pow2, lemma_pow2_unfold, lemma_pow2_pos};

use crate::pitch::{HasPitch, Pitch};

verus! {

/// The number of octaves the note table spans (octave 0 through 8).
pub const OCTAVE_COUNT: u8 = 9;

/// The number of notes in the note table: twelve pitch classes per octave.
pub const NOTE_COUNT: u8 = 108;

/// A pitch class bound to an octave number. Equality is by (pitch, octave);
/// the absolute frequency is derived, not stored.
#[derive(PartialEq, Eq, Structural, Clone, Copy, Hash, Debug)]
pub struct Note {
    /// The pitch class of the note.
    pub pitch: Pitch,
    /// The octave of the note, 0 through 8.
    pub octave: u8,
}

impl Note {
    /// A note is well formed when its octave lies inside the note table.
    pub open spec fn wf(self) -> bool {
        self.octave < OCTAVE_COUNT
    }

    /// The absolute frequency of the note in centihertz: the base frequency
    /// of its pitch class doubled once per octave.
    pub open spec fn spec_frequency_centihertz(self) -> int {
        self.pitch.spec_base_frequency_centihertz() * pow2(self.octave as nat)
    }

    /// The position of the note in the frequency-ascending note table.
    pub open spec fn spec_table_index(self) -> int {
        self.octave * 12 + self.pitch.spec_index()
    }

    /// Builds a note from a pitch class and an octave inside the table.
    pub fn new(pitch: Pitch, octave: u8) -> (r: Note)
        requires
            octave < OCTAVE_COUNT,
        ensures
            r == (Note { pitch, octave }),
            r.wf(),
    {
        Note { pitch, octave }
    }

    /// Returns the absolute frequency of the note in centihertz.
    pub fn frequency_centihertz(&self) -> (r: u32)
        requires
            self.wf(),
        ensures
            r == self.spec_frequency_centihertz(),
            r <= 790272,
    {
        let base: u32 = self.pitch.base_frequency_centihertz();
        let mut f: u32 = base;
        let mut i: u8 = 0;
        proof {
            vstd::arithmetic::power2::lemma2_to64();
        }
        while i < self.octave
            invariant
                i <= self.octave,
                self.wf(),
                base == self.pitch.spec_base_frequency_centihertz(),
                1635 <= base <= 3087,
                f == base * pow2(i as nat),
                f <= base * 256,
            decreases self.octave - i,
        {
            proof {
                lemma_pow2_unfold((i + 1) as nat);
                assert(base * pow2((i + 1) as nat) == (base * pow2(i as nat)) * 2)
                    by (nonlinear_arith)
                    requires pow2((i + 1) as nat) == 2 * pow2(i as nat);
                assert(pow2((i + 1) as nat) <= 256) by {
                    vstd::arithmetic::power2::lemma2_to64();
                    if ((i + 1) as nat) < 8 {
                        vstd::arithmetic::power2::lemma_pow2_strictly_increases(
                            (i + 1) as nat, 8);
                    }
                }
                assert(base * pow2((i + 1) as nat) <= base * 256) by (nonlinear_arith)
                    requires pow2((i + 1) as nat) <= 256, base >= 0;
            }
            f = f * 2;
            i = i + 1;
        }
        f
    }
}

impl HasPitch for Note {
    /// The pitch class of the note, octave stripped.
    fn pitch(&self) -> (p: Pitch)
        ensures
            p == self.pitch,
    {
        self.pitch
    }
}

/// The note standing at the given position of the frequency-ascending table.
pub open spec fn spec_note_of_index(k: int) -> Note {
    Note { pitch: Pitch::spec_of_index(k % 12), octave: (k / 12) as u8 }
}

/// The frequency, in centihertz, of the note at the given table position.
pub open spec fn spec_note_frequency(k: int) -> int {
    spec_note_of_index(k).spec_frequency_centihertz()
}

/// Returns the note at the given position of the frequency-ascending table.
pub fn note_of_index(k: u8) -> (r: Note)
    requires
        k < NOTE_COUNT,
    ensures
        r == spec_note_of_index(k as int),
        r.wf(),
        r.spec_table_index() == k,
{
    let pitch = Pitch::of_index(k % 12);
    let octave = k / 12;
    Note { pitch, octave }
}

/// Returns the frequency, in centihertz, of the note at the given table position.
pub fn note_frequency_centihertz(k: u8) -> (r: u32)
    requires
        k < NOTE_COUNT,
    ensures
        r == spec_note_frequency(k as int),
        1635 <= r <= 790272,
{
    let n = note_of_index(k);
    let f = n.frequency_centihertz();
    proof {
        lemma_pow2_pos(n.octave as nat);
        assert(f >= 1635 * 1) by (nonlinear_arith)
            requires
                f == n.pitch.spec_base_frequency_centihertz() * pow2(n.octave as nat),
                n.pitch.spec_base_frequency_centihertz() >= 1635,
                pow2(n.octave as nat) >= 1;
    }
    f
}

/// Adjacent notes of the table are strictly ascending in frequency.
pub proof fn lemma_note_frequency_step(k: int)
    requires
        0 <= k < 107,
    ensures
        spec_note_frequency(k) < spec_note_frequency(k + 1),
{
    let a = spec_note_of_index(k);
    let b = spec_note_of_index(k + 1);
    lemma_pow2_pos(a.octave as nat);
    if k % 12 == 11 {
        assert(b.octave == a.octave + 1);
        assert(a.pitch == Pitch::B && b.pitch == Pitch::C);
        lemma_pow2_unfold(b.octave as nat);
        assert(3087 * pow2(a.octave as nat) < 1635 * (2 * pow2(a.octave as nat)))
            by (nonlinear_arith)
            requires pow2(a.octave as nat) >= 1;
    } else {
        assert(b.octave == a.octave);
        assert(a.pitch.spec_base_frequency_centihertz()
            < b.pitch.spec_base_frequency_centihertz());
        assert(a.pitch.spec_base_frequency_centihertz() * pow2(a.octave as nat)
            < b.pitch.spec_base_frequency_centihertz() * pow2(a.octave as nat))
            by (nonlinear_arith)
            requires
                pow2(a.octave as nat) >= 1,
                a.pitch.spec_base_frequency_centihertz()
                    < b.pitch.spec_base_frequency_centihertz();
    }
}

/// The whole note table is strictly ascending in frequency: a later table
/// position always means a strictly higher absolute frequency.
pub proof fn lemma_note_frequency_increasing(i: int, j: int)
    requires
        0 <= i < j < 108,
    ensures
        spec_note_frequency(i) < spec_note_frequency(j),
    decreases j - i,
{
    if j == i + 1 {
        lemma_note_frequency_step(i);
    } else {
        lemma_note_frequency_increasing(i, j - 1);
        lemma_note_frequency_step(j - 1);
    }
}

/// All 108 notes of the table, in ascending order of absolute frequency.
pub fn all_notes() -> (r: Vec<Note>)
    ensures
        r@.len() == 108,
        forall|k: int| 0 <= k < 108 ==> #[trigger] r@[k] == spec_note_of_index(k),
        forall|k: int| 0 <= k < 108 ==> (#[trigger] r@[k]).wf(),
{
    let mut v: Vec<Note> = Vec::new();
    let mut k: u8 = 0;
    while k < NOTE_COUNT
        invariant
            k <= 108,
            v@.len() == k as int,
            forall|i: int| 0 <= i < k as int ==> #[trigger] v@[i] == spec_note_of_index(i),
            forall|i: int| 0 <= i < k as int ==> (#[trigger] v@[i]).wf(),
        decreases 108 - k,
    {
        let n = note_of_index(k);
        v.push(n);
        k = k + 1;
    }
    v
}

} // verus!
