//! The chord recognizer: reduces a note set to its distinct pitch classes,
//! matches every (root, quality template) pair against them, and ranks the
//! full matches — fewest extra tones first, then the more specific template,
//! then the lower root, deterministically.

use vstd::prelude::*;
use vstd::string::StringSliceAdditionalSpecFns;

use crate::note::Note;
use crate::pitch::Pitch;

verus! {

/// A chord quality: a fixed template of intervals above the root.
#[derive(PartialEq, Eq, Structural, Clone, Copy, Hash, Debug)]
pub enum Quality {
    /// Major triad.
    Major,
    /// Minor triad.
    Minor,
    /// Diminished triad.
    Diminished,
    /// Augmented triad.
    Augmented,
    /// Dominant seventh.
    DominantSeventh,
    /// Major seventh.
    MajorSeventh,
    /// Minor seventh.
    MinorSeventh,
    /// Suspended second.
    SuspendedSecond,
    /// Suspended fourth.
    SuspendedFourth,
    /// Dominant seventh with a flat nine.
    DominantSeventhFlatNine,
}

/// The number of quality templates in the library.
pub const QUALITY_COUNT: u8 = 10;

impl Quality {
    /// The template's intervals above the root, in semitones modulo 12:
    /// strictly ascending, starting at the root itself.
    pub open spec fn spec_intervals(self) -> Seq<u8> {
        match self {
            Quality::Major => seq![0u8, 4u8, 7u8],
            Quality::Minor => seq![0u8, 3u8, 7u8],
            Quality::Diminished => seq![0u8, 3u8, 6u8],
            Quality::Augmented => seq![0u8, 4u8, 8u8],
            Quality::DominantSeventh => seq![0u8, 4u8, 7u8, 10u8],
            Quality::MajorSeventh => seq![0u8, 4u8, 7u8, 11u8],
            Quality::MinorSeventh => seq![0u8, 3u8, 7u8, 10u8],
            Quality::SuspendedSecond => seq![0u8, 2u8, 7u8],
            Quality::SuspendedFourth => seq![0u8, 5u8, 7u8],
            Quality::DominantSeventhFlatNine => seq![0u8, 1u8, 4u8, 7u8, 10u8],
        }
    }

    /// The position of the quality in the template library.
    pub open spec fn spec_ordinal(self) -> int {
        match self {
            Quality::Major => 0,
            Quality::Minor => 1,
            Quality::Diminished => 2,
            Quality::Augmented => 3,
            Quality::DominantSeventh => 4,
            Quality::MajorSeventh => 5,
            Quality::MinorSeventh => 6,
            Quality::SuspendedSecond => 7,
            Quality::SuspendedFourth => 8,
            Quality::DominantSeventhFlatNine => 9,
        }
    }

    /// The quality at the given library position.
    pub open spec fn spec_of_ordinal(j: int) -> Quality {
        if j == 1 {
            Quality::Minor
        } else if j == 2 {
            Quality::Diminished
        } else if j == 3 {
            Quality::Augmented
        } else if j == 4 {
            Quality::DominantSeventh
        } else if j == 5 {
            Quality::MajorSeventh
        } else if j == 6 {
            Quality::MinorSeventh
        } else if j == 7 {
            Quality::SuspendedSecond
        } else if j == 8 {
            Quality::SuspendedFourth
        } else if j == 9 {
            Quality::DominantSeventhFlatNine
        } else {
            Quality::Major
        }
    }

    /// Returns the quality at the given library position.
    pub fn of_ordinal(j: u8) -> (r: Quality)
        requires
            j < QUALITY_COUNT,
        ensures
            r == Quality::spec_of_ordinal(j as int),
            r.spec_ordinal() == j,
    {
        match j {
            1 => Quality::Minor,
            2 => Quality::Diminished,
            3 => Quality::Augmented,
            4 => Quality::DominantSeventh,
            5 => Quality::MajorSeventh,
            6 => Quality::MinorSeventh,
            7 => Quality::SuspendedSecond,
            8 => Quality::SuspendedFourth,
            9 => Quality::DominantSeventhFlatNine,
            _ => Quality::Major,
        }
    }

    /// Returns the template's intervals, ascending from the root.
    pub fn intervals(self) -> (r: Vec<u8>)
        ensures
            r@ == self.spec_intervals(),
            1 <= r@.len() <= 12,
    {
        match self {
            Quality::Major => vec![0, 4, 7],
            Quality::Minor => vec![0, 3, 7],
            Quality::Diminished => vec![0, 3, 6],
            Quality::Augmented => vec![0, 4, 8],
            Quality::DominantSeventh => vec![0, 4, 7, 10],
            Quality::MajorSeventh => vec![0, 4, 7, 11],
            Quality::MinorSeventh => vec![0, 3, 7, 10],
            Quality::SuspendedSecond => vec![0, 2, 7],
            Quality::SuspendedFourth => vec![0, 5, 7],
            Quality::DominantSeventhFlatNine => vec![0, 1, 4, 7, 10],
        }
    }
}

/// Every template's intervals are unique modulo 12 and include the root:
/// they ascend strictly within 0 to 11 and start at 0.
pub proof fn lemma_quality_intervals_invariant(q: Quality)
    ensures
        q.spec_intervals()[0] == 0,
        forall|a: int, b: int| 0 <= a < b < q.spec_intervals().len()
            ==> q.spec_intervals()[a] < q.spec_intervals()[b],
        forall|a: int| 0 <= a < q.spec_intervals().len() ==> q.spec_intervals()[a] < 12,
{
}

/// An ordered, rooted interval set with a quality label. Equality is by
/// (root, quality); the interval set derives from the quality.
#[derive(PartialEq, Eq, Structural, Clone, Copy, Hash, Debug)]
pub struct Chord {
    /// The root pitch class.
    pub root: Pitch,
    /// The quality label naming the interval template.
    pub quality: Quality,
}

/// A ranked candidate of the recognizer: a chord whose template is fully
/// present in the observed pitch classes, with its ranking inputs.
#[derive(PartialEq, Eq, Structural, Clone, Copy, Debug)]
pub struct ChordCandidate {
    /// The matched chord.
    pub chord: Chord,
    /// How many observed pitch classes the template leaves unexplained.
    pub extra: u8,
    /// The template's specificity: how many intervals it pins down.
    pub size: u8,
}

/// Whether pitch class `c` occurs in the note list.
pub open spec fn spec_pc_present(notes: Seq<Note>, c: int) -> bool {
    exists|i: int| 0 <= i < notes.len() && (#[trigger] notes[i]).pitch.spec_index() == c
}

/// The observed pitch classes of a note list, as twelve flags.
pub open spec fn spec_observed_flags(notes: Seq<Note>) -> Seq<bool> {
    Seq::new(12, |c: int| spec_pc_present(notes, c))
}

/// How many of the first `n` template intervals, rooted at `root`, miss
/// from the observed pitch classes.
pub open spec fn spec_missing(obs: Seq<bool>, root: int, iv: Seq<u8>, n: int) -> int
    decreases n,
{
    if n <= 0 {
        0
    } else {
        spec_missing(obs, root, iv, n - 1) + if obs[(root + iv[n - 1]) % 12] {
            0int
        } else {
            1int
        }
    }
}

/// Whether the template rooted at `root` covers pitch class `c`.
pub open spec fn spec_covered(root: int, iv: Seq<u8>, c: int) -> bool {
    exists|t: int| 0 <= t < iv.len() && (root + (#[trigger] iv[t]) as int) % 12 == c
}

/// How many of the first `n` pitch classes are observed but not covered by
/// the template: the candidate's extra (altered) tones.
pub open spec fn spec_extra(obs: Seq<bool>, root: int, iv: Seq<u8>, n: int) -> int
    decreases n,
{
    if n <= 0 {
        0
    } else {
        spec_extra(obs, root, iv, n - 1) + if obs[n - 1] && !spec_covered(root, iv, n - 1) {
            1int
        } else {
            0int
        }
    }
}

/// The candidates among the first `n` (root, quality) pairs whose template
/// is fully present in the observed pitch classes, in enumeration order.
pub open spec fn spec_candidates_upto(obs: Seq<bool>, n: int) -> Seq<ChordCandidate>
    decreases n,
{
    if n <= 0 {
        Seq::empty()
    } else {
        let pre = spec_candidates_upto(obs, n - 1);
        let root = (n - 1) / 10;
        let q = Quality::spec_of_ordinal((n - 1) % 10);
        let iv = q.spec_intervals();
        if spec_missing(obs, root, iv, iv.len() as int) == 0 {
            pre.push(
                ChordCandidate {
                    chord: Chord { root: Pitch::spec_of_index(root), quality: q },
                    extra: spec_extra(obs, root, iv, 12) as u8,
                    size: iv.len() as u8,
                },
            )
        } else {
            pre
        }
    }
}

/// The ranking key: fewest extra tones first, then the larger (more
/// specific) template, then the lower root, then the library order of the
/// quality — a strict total order over the enumerated candidates.
pub open spec fn spec_candidate_key(c: ChordCandidate) -> int {
    c.extra * 4096 + (12 - c.size) * 256 + c.chord.root.spec_index() * 16
        + c.chord.quality.spec_ordinal()
}

/// Inserts a candidate into a key-sorted sequence, after every candidate
/// whose key is not larger.
pub open spec fn spec_insert_candidate(s: Seq<ChordCandidate>, c: ChordCandidate) -> Seq<
    ChordCandidate>
    decreases s.len(),
{
    if s.len() == 0 {
        seq![c]
    } else if spec_candidate_key(c) < spec_candidate_key(s[0]) {
        seq![c] + s
    } else {
        seq![s[0]] + spec_insert_candidate(s.drop_first(), c)
    }
}

/// The first `n` candidates, sorted by ascending key.
pub open spec fn spec_sort_candidates_upto(s: Seq<ChordCandidate>, n: int) -> Seq<ChordCandidate>
    decreases n,
{
    if n <= 0 {
        Seq::empty()
    } else {
        spec_insert_candidate(spec_sort_candidates_upto(s, n - 1), s[n - 1])
    }
}

/// The candidate list sorted by ascending ranking key.
pub open spec fn spec_sort_candidates(s: Seq<ChordCandidate>) -> Seq<ChordCandidate> {
    spec_sort_candidates_upto(s, s.len() as int)
}

/// What the recognizer returns on a note list, with ranking inputs kept.
pub open spec fn spec_recognize_ranked(notes: Seq<Note>) -> Seq<ChordCandidate> {
    spec_sort_candidates(spec_candidates_upto(spec_observed_flags(notes), 120))
}

/// What the recognizer returns on a note list: the ranked chords.
pub open spec fn spec_recognize(notes: Seq<Note>) -> Seq<Chord> {
    spec_recognize_ranked(notes).map_values(|c: ChordCandidate| c.chord)
}

/// Inserting at the first position whose key exceeds the new candidate's is
/// exactly the specification's insertion.
proof fn lemma_insert_candidate_at(s: Seq<ChordCandidate>, c: ChordCandidate, i: int)
    requires
        0 <= i <= s.len(),
        forall|t: int| 0 <= t < i
            ==> !(spec_candidate_key(c) < spec_candidate_key(#[trigger] s[t])),
        i < s.len() ==> spec_candidate_key(c) < spec_candidate_key(s[i]),
    ensures
        spec_insert_candidate(s, c) == s.insert(i, c),
    decreases s.len(),
{
    if s.len() == 0 {
        assert(s.insert(0, c) =~= seq![c]);
    } else if i == 0 {
        assert(s.insert(0, c) =~= seq![c] + s);
    } else {
        lemma_insert_candidate_at(s.drop_first(), c, i - 1);
        assert(s.insert(i, c) =~= seq![s[0]] + s.drop_first().insert(i - 1, c));
    }
}

/// Exec ranking key, exactly [`spec_candidate_key`].
fn candidate_key(c: &ChordCandidate) -> (r: u32)
    requires
        c.extra <= 12,
        1 <= c.size <= 12,
    ensures
        r == spec_candidate_key(*c),
{
    let extra: u32 = c.extra as u32;
    let size: u32 = c.size as u32;
    let root: u32 = c.chord.root.index() as u32;
    let ord: u32 = c.chord.quality.ordinal() as u32;
    extra * 4096 + (12 - size) * 256 + root * 16 + ord
}

impl Quality {
    /// Returns the library position of the quality.
    pub fn ordinal(self) -> (r: u8)
        ensures
            r == self.spec_ordinal(),
            r < QUALITY_COUNT,
    {
        match self {
            Quality::Major => 0,
            Quality::Minor => 1,
            Quality::Diminished => 2,
            Quality::Augmented => 3,
            Quality::DominantSeventh => 4,
            Quality::MajorSeventh => 5,
            Quality::MinorSeventh => 6,
            Quality::SuspendedSecond => 7,
            Quality::SuspendedFourth => 8,
            Quality::DominantSeventhFlatNine => 9,
        }
    }
}

/// Inserts a candidate into the key-sorted vector, keeping it sorted.
fn insert_candidate(v: &mut Vec<ChordCandidate>, c: ChordCandidate)
    requires
        c.extra <= 12,
        1 <= c.size <= 12,
        forall|t: int| 0 <= t < old(v)@.len()
            ==> (#[trigger] old(v)@[t]).extra <= 12 && 1 <= old(v)@[t].size <= 12,
    ensures
        final(v)@ == spec_insert_candidate(old(v)@, c),
{
    let key = candidate_key(&c);
    let mut idx: usize = 0;
    while idx < v.len() && candidate_key(&v[idx]) <= key
        invariant
            idx <= v@.len(),
            v@ == old(v)@,
            key == spec_candidate_key(c),
            forall|t: int| 0 <= t < v@.len()
                ==> (#[trigger] v@[t]).extra <= 12 && 1 <= v@[t].size <= 12,
            forall|t: int| 0 <= t < idx
                ==> !(spec_candidate_key(c) < spec_candidate_key(#[trigger] v@[t])),
        decreases v@.len() - idx,
    {
        idx = idx + 1;
    }
    proof {
        lemma_insert_candidate_at(v@, c, idx as int);
    }
    v.insert(idx, c);
}

/// Matches the observed pitch classes of the notes against every (root,
/// quality) pair of the library and returns the full matches — templates
/// with no missing tone — ranked by fewest extra tones, then template
/// specificity, then root, then library order. A pure function of the note
/// list, so equal note lists always rank equally.
pub fn recognize_candidates(notes: &Vec<Note>) -> (r: Vec<ChordCandidate>)
    ensures
        r@ == spec_recognize_ranked(notes@),
{
    // The distinct pitch classes the notes reduce to.
    let mut obs: Vec<bool> = Vec::new();
    let mut c0: usize = 0;
    while c0 < 12
        invariant
            c0 <= 12,
            obs@.len() == c0 as int,
            forall|t: int| 0 <= t < c0 as int ==> #[trigger] obs@[t] == false,
        decreases 12 - c0,
    {
        obs.push(false);
        c0 = c0 + 1;
    }
    let mut i: usize = 0;
    while i < notes.len()
        invariant
            i <= notes@.len(),
            obs@.len() == 12,
            forall|t: int| 0 <= t < 12 ==> #[trigger] obs@[t] == spec_pc_present(
                notes@.take(i as int), t),
        decreases notes@.len() - i,
    {
        let pc = notes[i].pitch.index();
        obs[pc as usize] = true;
        proof {
            let prev = notes@.take(i as int);
            let cur = notes@.take(i as int + 1);
            assert(cur.drop_last() =~= prev);
            assert(cur.last() == notes@[i as int]);
            assert forall|t: int| 0 <= t < 12 implies #[trigger] obs@[t]
                == spec_pc_present(cur, t)
            by {
                if obs@[t] {
                    if t == pc as int {
                        assert(cur[i as int].pitch.spec_index() == t);
                    } else {
                        let w = choose|j: int| 0 <= j < prev.len()
                            && (#[trigger] prev[j]).pitch.spec_index() == t;
                        assert(cur[w] == prev[w]);
                    }
                } else {
                    if spec_pc_present(cur, t) {
                        let w = choose|j: int| 0 <= j < cur.len()
                            && (#[trigger] cur[j]).pitch.spec_index() == t;
                        if w < i as int {
                            assert(prev[w] == cur[w]);
                        } else {
                            assert(t == pc as int);
                        }
                        assert(false);
                    }
                }
            }
        }
        i = i + 1;
    }
    proof {
        assert(notes@.take(notes@.len() as int) =~= notes@);
        assert(obs@ =~= spec_observed_flags(notes@));
    }

    // Enumerate every (root, quality) pair and keep the full matches.
    let mut cands: Vec<ChordCandidate> = Vec::new();
    let mut idx: usize = 0;
    while idx < 120
        invariant
            idx <= 120,
            obs@.len() == 12,
            obs@ == spec_observed_flags(notes@),
            cands@ == spec_candidates_upto(obs@, idx as int),
            forall|t: int| 0 <= t < cands@.len()
                ==> (#[trigger] cands@[t]).extra <= 12 && 1 <= cands@[t].size <= 12,
        decreases 120 - idx,
    {
        let root: u8 = (idx / 10) as u8;
        let qi: u8 = (idx % 10) as u8;
        let quality = Quality::of_ordinal(qi);
        let iv = quality.intervals();

        let mut missing: u8 = 0;
        let mut t: usize = 0;
        while t < iv.len()
            invariant
                t <= iv@.len(),
                iv@.len() <= 12,
                root < 12,
                obs@.len() == 12,
                iv@ == quality.spec_intervals(),
                missing as int == spec_missing(obs@, root as int, iv@, t as int),
                missing <= t,
            decreases iv@.len() - t,
        {
            let ci: usize = ((root as usize) + (iv[t] as usize)) % 12;
            if !obs[ci] {
                missing = missing + 1;
            }
            t = t + 1;
        }

        if missing == 0 {
            let mut extra: u8 = 0;
            let mut c: usize = 0;
            while c < 12
                invariant
                    c <= 12,
                    root < 12,
                    obs@.len() == 12,
                    iv@ == quality.spec_intervals(),
                    iv@.len() <= 12,
                    extra as int == spec_extra(obs@, root as int, iv@, c as int),
                    extra <= c,
                decreases 12 - c,
            {
                if obs[c] {
                    let mut cov: bool = false;
                    let mut u: usize = 0;
                    while u < iv.len()
                        invariant
                            u <= iv@.len(),
                            root < 12,
                            c < 12,
                            iv@ == quality.spec_intervals(),
                            cov == exists|w: int| 0 <= w < u as int
                                && ((root as int) + (#[trigger] iv@[w]) as int) % 12 == c as int,
                        decreases iv@.len() - u,
                    {
                        if !cov && ((root as usize) + (iv[u] as usize)) % 12 == c {
                            cov = true;
                        }
                        u = u + 1;
                    }
                    assert(cov == spec_covered(root as int, iv@, c as int));
                    if !cov {
                        extra = extra + 1;
                    }
                } else {
                    assert(!(obs@[c as int] && !spec_covered(root as int, iv@, c as int)));
                }
                c = c + 1;
            }
            let cand = ChordCandidate {
                chord: Chord { root: Pitch::of_index(root), quality },
                extra,
                size: iv.len() as u8,
            };
            cands.push(cand);
        }
        idx = idx + 1;
    }

    // Rank the matches by ascending key.
    let mut ranked: Vec<ChordCandidate> = Vec::new();
    let mut n: usize = 0;
    while n < cands.len()
        invariant
            n <= cands@.len(),
            ranked@ == spec_sort_candidates_upto(cands@, n as int),
            forall|t: int| 0 <= t < cands@.len()
                ==> (#[trigger] cands@[t]).extra <= 12 && 1 <= cands@[t].size <= 12,
            forall|t: int| 0 <= t < ranked@.len()
                ==> (#[trigger] ranked@[t]).extra <= 12 && 1 <= ranked@[t].size <= 12,
        decreases cands@.len() - n,
    {
        let ghost pre = ranked@;
        let cnd = cands[n];
        insert_candidate(&mut ranked, cnd);
        proof {
            assert forall|t: int| 0 <= t < ranked@.len()
                implies (#[trigger] ranked@[t]).extra <= 12 && 1 <= ranked@[t].size <= 12
            by {
                lemma_insert_candidate_elements(pre, cnd, t);
                if ranked@[t] != cnd {
                    let j = choose|j: int| 0 <= j < pre.len() && ranked@[t] == pre[j];
                }
            }
        }
        n = n + 1;
    }
    assert(cands@ == spec_candidates_upto(spec_observed_flags(notes@), 120));
    ranked
}

/// Every element of a candidate insertion is the new one or an old one.
proof fn lemma_insert_candidate_elements(s: Seq<ChordCandidate>, c: ChordCandidate, i: int)
    requires
        0 <= i < spec_insert_candidate(s, c).len(),
    ensures
        spec_insert_candidate(s, c)[i] == c || exists|j: int| 0 <= j < s.len()
            && spec_insert_candidate(s, c)[i] == s[j],
    decreases s.len(),
{
    if s.len() == 0 {
    } else if spec_candidate_key(c) < spec_candidate_key(s[0]) {
    } else {
        if i > 0 {
            lemma_insert_candidate_elements(s.drop_first(), c, i - 1);
            if spec_insert_candidate(s, c)[i] != c {
                let j = choose|j: int| 0 <= j < s.drop_first().len()
                    && spec_insert_candidate(s.drop_first(), c)[i - 1] == s.drop_first()[j];
                assert(s.drop_first()[j] == s[j + 1]);
            }
        }
    }
}

/// Ranks the chords whose template is fully present in the notes' pitch
/// classes: the recognizer's public entry point. Possibly empty; callers
/// may take the top result or inspect alternates.
pub fn recognize_chords(notes: &Vec<Note>) -> (r: Vec<Chord>)
    ensures
        r@ == spec_recognize(notes@),
{
    let cands = recognize_candidates(notes);
    let mut out: Vec<Chord> = Vec::new();
    let mut i: usize = 0;
    while i < cands.len()
        invariant
            i <= cands@.len(),
            cands@ == spec_recognize_ranked(notes@),
            out@.len() == i as int,
            forall|t: int| 0 <= t < i as int ==> #[trigger] out@[t] == cands@[t].chord,
        decreases cands@.len() - i,
    {
        out.push(cands[i].chord);
        i = i + 1;
    }
    proof {
        assert(out@ =~= spec_recognize_ranked(notes@).map_values(|c: ChordCandidate| c.chord));
    }
    out
}

/// The chromatic offset named by a root letter, if the byte is one.
pub open spec fn spec_letter_index(c: u8) -> Option<int> {
    if c == 67 {
        Some(0int)  // C
    } else if c == 68 {
        Some(2int)  // D
    } else if c == 69 {
        Some(4int)  // E
    } else if c == 70 {
        Some(5int)  // F
    } else if c == 71 {
        Some(7int)  // G
    } else if c == 65 {
        Some(9int)  // A
    } else if c == 66 {
        Some(11int)  // B
    } else {
        None
    }
}

/// The quality named by the suffix that follows the root, if any.
pub open spec fn spec_quality_of_suffix(t: Seq<u8>) -> Option<Quality> {
    if t.len() == 0 {
        Some(Quality::Major)
    } else if t.len() == 1 && t[0] == 109 {
        Some(Quality::Minor)  // "m"
    } else if t.len() == 1 && t[0] == 55 {
        Some(Quality::DominantSeventh)  // "7"
    } else if t.len() == 2 && t[0] == 109 && t[1] == 55 {
        Some(Quality::MinorSeventh)  // "m7"
    } else if t.len() == 3 && t[0] == 100 && t[1] == 105 && t[2] == 109 {
        Some(Quality::Diminished)  // "dim"
    } else if t.len() == 3 && t[0] == 97 && t[1] == 117 && t[2] == 103 {
        Some(Quality::Augmented)  // "aug"
    } else if t.len() == 3 && t[0] == 55 && t[1] == 98 && t[2] == 57 {
        Some(Quality::DominantSeventhFlatNine)  // "7b9"
    } else if t.len() == 4 && t[0] == 109 && t[1] == 97 && t[2] == 106 && t[3] == 55 {
        Some(Quality::MajorSeventh)  // "maj7"
    } else if t.len() == 4 && t[0] == 115 && t[1] == 117 && t[2] == 115 && t[3] == 50 {
        Some(Quality::SuspendedSecond)  // "sus2"
    } else if t.len() == 4 && t[0] == 115 && t[1] == 117 && t[2] == 115 && t[3] == 52 {
        Some(Quality::SuspendedFourth)  // "sus4"
    } else {
        None
    }
}

/// What parsing a chord name yields: a root letter, an optional accidental
/// (sharp 35 is `#`, flat 98 is `b`), then a quality suffix of the library.
pub open spec fn spec_parse_chord(b: Seq<u8>) -> Option<Chord> {
    if b.len() == 0 {
        None
    } else {
        match spec_letter_index(b[0]) {
            None => None,
            Some(base) => {
                let shift: int = if b.len() >= 2 && b[1] == 35 {
                    1int
                } else if b.len() >= 2 && b[1] == 98 {
                    11int
                } else {
                    0int
                };
                let start: int = if shift == 0 {
                    1int
                } else {
                    2int
                };
                match spec_quality_of_suffix(b.subrange(start, b.len() as int)) {
                    None => None,
                    Some(q) => Some(
                        Chord { root: Pitch::spec_of_index((base + shift) % 12), quality: q },
                    ),
                }
            },
        }
    }
}

impl Chord {
    /// Parses a chord name such as `C7b9`: a root letter `A` through `G`,
    /// an optional `#` or `b` accidental, and a quality suffix out of the
    /// template library. Returns nothing on any other text.
    pub fn parse(s: &str) -> (r: Option<Chord>)
        ensures
            r == spec_parse_chord(s.spec_bytes()),
    {
        let bytes: &[u8] = s.as_bytes();
        let n: usize = bytes.len();
        if n == 0 {
            return None;
        }
        let c0: u8 = bytes[0];
        let base: u8 = if c0 == 67 {
            0
        } else if c0 == 68 {
            2
        } else if c0 == 69 {
            4
        } else if c0 == 70 {
            5
        } else if c0 == 71 {
            7
        } else if c0 == 65 {
            9
        } else if c0 == 66 {
            11
        } else {
            return None;
        };
        let shift: u8 = if n >= 2 && bytes[1] == 35 {
            1
        } else if n >= 2 && bytes[1] == 98 {
            11
        } else {
            0
        };
        let start: usize = if shift == 0 {
            1
        } else {
            2
        };
        let ghost suf = s.spec_bytes().subrange(start as int, n as int);
        let rem: usize = n - start;
        let quality: Quality = if rem == 0 {
            Quality::Major
        } else if rem == 1 && bytes[start] == 109 {
            Quality::Minor
        } else if rem == 1 && bytes[start] == 55 {
            Quality::DominantSeventh
        } else if rem == 2 && bytes[start] == 109 && bytes[start + 1] == 55 {
            Quality::MinorSeventh
        } else if rem == 3 && bytes[start] == 100 && bytes[start + 1] == 105 && bytes[start + 2]
            == 109 {
            Quality::Diminished
        } else if rem == 3 && bytes[start] == 97 && bytes[start + 1] == 117 && bytes[start + 2]
            == 103 {
            Quality::Augmented
        } else if rem == 3 && bytes[start] == 55 && bytes[start + 1] == 98 && bytes[start + 2]
            == 57 {
            Quality::DominantSeventhFlatNine
        } else if rem == 4 && bytes[start] == 109 && bytes[start + 1] == 97 && bytes[start + 2]
            == 106 && bytes[start + 3] == 55 {
            Quality::MajorSeventh
        } else if rem == 4 && bytes[start] == 115 && bytes[start + 1] == 117 && bytes[start + 2]
            == 115 && bytes[start + 3] == 50 {
            Quality::SuspendedSecond
        } else if rem == 4 && bytes[start] == 115 && bytes[start + 1] == 117 && bytes[start + 2]
            == 115 && bytes[start + 3] == 52 {
            Quality::SuspendedFourth
        } else {
            return None;
        };
        let root = Pitch::of_index((base + shift) % 12);
        Some(Chord { root, quality })
    }
}

/// A missing-tone count never goes below zero.
proof fn lemma_missing_nonneg(obs: Seq<bool>, root: int, iv: Seq<u8>, n: int)
    ensures
        spec_missing(obs, root, iv, n) >= 0,
    decreases n,
{
    if n > 0 {
        lemma_missing_nonneg(obs, root, iv, n - 1);
    }
}

/// A template with no missing tone has every interval present.
proof fn lemma_missing_zero_all_present(obs: Seq<bool>, root: int, iv: Seq<u8>, n: int)
    requires
        spec_missing(obs, root, iv, n) == 0,
    ensures
        forall|t: int| 0 <= t < n ==> obs[(root + (#[trigger] iv[t]) as int) % 12],
    decreases n,
{
    if n > 0 {
        lemma_missing_nonneg(obs, root, iv, n - 1);
        assert(spec_missing(obs, root, iv, n - 1) == 0);
        lemma_missing_zero_all_present(obs, root, iv, n - 1);
        assert(obs[(root + iv[n - 1]) % 12]);
    }
}

/// Whether every interval of the candidate's template, rooted at its root,
/// is an observed pitch class.
pub open spec fn spec_candidate_matched(obs: Seq<bool>, c: ChordCandidate) -> bool {
    forall|t: int| 0 <= t < c.chord.quality.spec_intervals().len()
        ==> obs[(c.chord.root.spec_index()
            + (#[trigger] c.chord.quality.spec_intervals()[t]) as int) % 12]
}

/// Every enumerated candidate is a full match of the observed classes.
proof fn lemma_candidates_matched(obs: Seq<bool>, n: int, i: int)
    requires
        0 <= n <= 120,
        0 <= i < spec_candidates_upto(obs, n).len(),
    ensures
        spec_candidate_matched(obs, spec_candidates_upto(obs, n)[i]),
    decreases n,
{
    if n > 0 {
        let pre = spec_candidates_upto(obs, n - 1);
        let root = (n - 1) / 10;
        let q = Quality::spec_of_ordinal((n - 1) % 10);
        let iv = q.spec_intervals();
        if spec_missing(obs, root, iv, iv.len() as int) == 0 {
            if i < pre.len() {
                lemma_candidates_matched(obs, n - 1, i);
            } else {
                let c = spec_candidates_upto(obs, n)[i];
                assert(c.chord.root == Pitch::spec_of_index(root));
                assert(0 <= root < 12);
                assert(c.chord.root.spec_index() == root);
                lemma_missing_zero_all_present(obs, root, iv, iv.len() as int);
            }
        } else {
            lemma_candidates_matched(obs, n - 1, i);
        }
    }
}

/// Every element of the sorted ranking is one of the enumerated candidates.
proof fn lemma_sort_candidates_elements(s: Seq<ChordCandidate>, n: int, i: int)
    requires
        0 <= n <= s.len(),
        0 <= i < spec_sort_candidates_upto(s, n).len(),
    ensures
        exists|j: int| 0 <= j < n && spec_sort_candidates_upto(s, n)[i] == s[j],
    decreases n,
{
    if n > 0 {
        let pre = spec_sort_candidates_upto(s, n - 1);
        lemma_insert_candidate_elements(pre, s[n - 1], i);
        if spec_sort_candidates_upto(s, n)[i] == s[n - 1] {
            assert(0 <= n - 1 < n && spec_sort_candidates_upto(s, n)[i] == s[n - 1]);
        } else {
            let w = choose|w: int| 0 <= w < pre.len()
                && spec_sort_candidates_upto(s, n)[i] == pre[w];
            lemma_sort_candidates_elements(s, n - 1, w);
            let j = choose|j: int| 0 <= j < n - 1 && pre[w] == s[j];
            assert(0 <= j < n && spec_sort_candidates_upto(s, n)[i] == s[j]);
        }
    }
}

/// Every chord the recognizer returns is a genuine match: each interval of
/// its template, rooted at its root, is present among the observed pitch
/// classes of the notes. Extra observed tones lower a candidate's rank but
/// never disqualify it; a missing template tone always does.
pub proof fn lemma_recognized_chords_are_matches(notes: Seq<Note>, i: int)
    requires
        0 <= i < spec_recognize_ranked(notes).len(),
    ensures
        spec_candidate_matched(spec_observed_flags(notes), spec_recognize_ranked(notes)[i]),
        forall|t: int|
            0 <= t < spec_recognize_ranked(notes)[i].chord.quality.spec_intervals().len()
                ==> spec_pc_present(notes, (spec_recognize_ranked(notes)[i].chord.root
                    .spec_index() + (#[trigger] spec_recognize_ranked(
                    notes)[i].chord.quality.spec_intervals()[t]) as int) % 12),
{
    let obs = spec_observed_flags(notes);
    let cands = spec_candidates_upto(obs, 120);
    lemma_sort_candidates_elements(cands, cands.len() as int, i);
    let j = choose|j: int| 0 <= j < cands.len() && spec_recognize_ranked(notes)[i] == cands[j];
    lemma_candidates_matched(obs, 120, j);
    let c = spec_recognize_ranked(notes)[i];
    assert forall|t: int| 0 <= t < c.chord.quality.spec_intervals().len()
        implies spec_pc_present(notes, (c.chord.root.spec_index()
            + (#[trigger] c.chord.quality.spec_intervals()[t]) as int) % 12)
    by {
        let pc = (c.chord.root.spec_index() + c.chord.quality.spec_intervals()[t] as int) % 12;
        assert(0 <= pc < 12);
        assert(obs[pc]);
        assert(obs[pc] == spec_pc_present(notes, pc));
    }
}

/// A key-sorted candidate sequence.
pub open spec fn spec_keys_sorted(s: Seq<ChordCandidate>) -> bool {
    forall|i: int, j: int| 0 <= i < j < s.len() ==> spec_candidate_key(#[trigger] s[i])
        <= spec_candidate_key(#[trigger] s[j])
}

/// Insertion keeps a candidate sequence key-sorted.
proof fn lemma_insert_candidate_keeps_sorted(s: Seq<ChordCandidate>, c: ChordCandidate)
    requires
        spec_keys_sorted(s),
    ensures
        spec_keys_sorted(spec_insert_candidate(s, c)),
    decreases s.len(),
{
    let ins = spec_insert_candidate(s, c);
    if s.len() == 0 {
    } else if spec_candidate_key(c) < spec_candidate_key(s[0]) {
        assert forall|i: int, j: int| 0 <= i < j < ins.len()
            implies spec_candidate_key(#[trigger] ins[i])
                <= spec_candidate_key(#[trigger] ins[j])
        by {
            if i > 0 {
                assert(ins[i] == s[i - 1] && ins[j] == s[j - 1]);
            } else {
                assert(ins[j] == s[j - 1]);
            }
        }
    } else {
        let df = s.drop_first();
        assert(spec_keys_sorted(df)) by {
            assert forall|i: int, j: int| 0 <= i < j < df.len()
                implies spec_candidate_key(#[trigger] df[i])
                    <= spec_candidate_key(#[trigger] df[j])
            by {
                assert(df[i] == s[i + 1] && df[j] == s[j + 1]);
            }
        }
        lemma_insert_candidate_keeps_sorted(df, c);
        let tail = spec_insert_candidate(df, c);
        assert forall|t: int| 0 <= t < tail.len()
            implies spec_candidate_key(s[0]) <= spec_candidate_key(#[trigger] tail[t])
        by {
            lemma_insert_candidate_elements(df, c, t);
            if tail[t] != c {
                let w = choose|w: int| 0 <= w < df.len() && tail[t] == df[w];
                assert(df[w] == s[w + 1]);
            }
        }
        assert forall|i: int, j: int| 0 <= i < j < ins.len()
            implies spec_candidate_key(#[trigger] ins[i])
                <= spec_candidate_key(#[trigger] ins[j])
        by {
            if i == 0 {
                assert(ins[j] == tail[j - 1]);
            } else {
                assert(ins[i] == tail[i - 1] && ins[j] == tail[j - 1]);
            }
        }
    }
}

/// Any sorted prefix of the candidates is key-sorted.
proof fn lemma_sort_candidates_sorted(s: Seq<ChordCandidate>, n: int)
    requires
        0 <= n <= s.len(),
    ensures
        spec_keys_sorted(spec_sort_candidates_upto(s, n)),
    decreases n,
{
    if n > 0 {
        lemma_sort_candidates_sorted(s, n - 1);
        lemma_insert_candidate_keeps_sorted(spec_sort_candidates_upto(s, n - 1), s[n - 1]);
    }
}

/// The recognizer's ranking really is a ranking: along the returned
/// sequence the key — fewest extra tones, then template specificity, then
/// root, then library order — never decreases.
pub proof fn lemma_recognize_ranking_sorted(notes: Seq<Note>)
    ensures
        spec_keys_sorted(spec_recognize_ranked(notes)),
{
    let cands = spec_candidates_upto(spec_observed_flags(notes), 120);
    lemma_sort_candidates_sorted(cands, cands.len() as int);
}

/// Recognizer idempotence: the ranking is a pure function of the note list,
/// so equal note lists always yield the same ranked chord sequence — the
/// tie-breaks are deterministic.
pub proof fn lemma_recognize_deterministic(a: Seq<Note>, b: Seq<Note>)
    requires
        a == b,
    ensures
        spec_recognize(a) == spec_recognize(b),
        spec_recognize_ranked(a) == spec_recognize_ranked(b),
{
}

} // verus!
