//! The pitch classifier: maps each spectral peak to the nearest note of the
//! table, suppresses harmonics of louder accepted peaks, deduplicates, and
//! reports the surviving notes in ascending order of frequency.

use vstd::prelude::*;
use vstd::math::abs;

use crate::errors::Error;
use crate::note::{
    lemma_note_frequency_increasing, note_frequency_centihertz, note_of_index, spec_note_frequency,
    spec_note_of_index, Note, NOTE_COUNT,
};
use crate::pitch::Pitch;
use crate::spectrum::SpectralPeak;

verus! {

/// Overtone tolerance: a peak within 3% of an integer multiple of an
/// accepted peak's frequency counts as that peak's harmonic. Tunable.
pub const OVERTONE_TOLERANCE_PERCENT: u64 = 3;

/// The highest harmonic multiple the suppression looks for. Tunable.
pub const MAX_HARMONIC: u64 = 16;

/// The first table position at or after `k` whose note is nearest to
/// frequency `f` in the log-frequency sense: `f` lies below the geometric
/// midpoint of that note and its successor (compared without roots, by
/// squaring), or the table ran out.
pub open spec fn spec_nearest_from(f: int, k: int) -> int
    decreases 107 - k,
{
    if k >= 107 {
        107
    } else if f * f < spec_note_frequency(k) * spec_note_frequency(k + 1) {
        k
    } else {
        spec_nearest_from(f, k + 1)
    }
}

/// The table position of the note nearest to frequency `f` (centihertz).
pub open spec fn spec_nearest_note(f: int) -> int {
    spec_nearest_from(f, 0)
}

/// The nearest-note search stays inside the table.
pub proof fn lemma_nearest_from_bounds(f: int, k: int)
    requires
        0 <= k <= 107,
    ensures
        k <= spec_nearest_from(f, k) <= 107,
    decreases 107 - k,
{
    if k < 107 && !(f * f < spec_note_frequency(k) * spec_note_frequency(k + 1)) {
        lemma_nearest_from_bounds(f, k + 1);
    }
}

/// Characterizes the nearest note by its semitone region: `f` squared lies
/// at or above the product of the two table frequencies below the note, and
/// below the product of the note's own and its successor's frequency. Since
/// the table ascends, these geometric-midpoint regions are disjoint, so the
/// nearest note is the unique one within half a semitone of `f`.
pub proof fn lemma_nearest_note_region(f: int)
    ensures
        0 <= spec_nearest_note(f) <= 107,
        spec_nearest_note(f) > 0 ==> f * f >= spec_note_frequency(spec_nearest_note(f) - 1)
            * spec_note_frequency(spec_nearest_note(f)),
        spec_nearest_note(f) < 107 ==> f * f < spec_note_frequency(spec_nearest_note(f))
            * spec_note_frequency(spec_nearest_note(f) + 1),
{
    lemma_nearest_from_bounds(f, 0);
    lemma_nearest_from_region(f, 0);
}

/// Helper induction for [`lemma_nearest_note_region`].
proof fn lemma_nearest_from_region(f: int, k: int)
    requires
        0 <= k <= 107,
        k > 0 ==> f * f >= spec_note_frequency(k - 1) * spec_note_frequency(k),
    ensures
        spec_nearest_from(f, k) > 0 ==> f * f >= spec_note_frequency(
            spec_nearest_from(f, k) - 1) * spec_note_frequency(spec_nearest_from(f, k)),
        spec_nearest_from(f, k) < 107 ==> f * f < spec_note_frequency(spec_nearest_from(f, k))
            * spec_note_frequency(spec_nearest_from(f, k) + 1),
    decreases 107 - k,
{
    if k < 107 && !(f * f < spec_note_frequency(k) * spec_note_frequency(k + 1)) {
        lemma_nearest_from_region(f, k + 1);
    }
}

/// Returns the table position of the note nearest to `f` centihertz.
pub fn nearest_note_index(f: u64) -> (r: u8)
    requires
        1 <= f <= 1_000_000,
    ensures
        r == spec_nearest_note(f as int),
        r < 108,
{
    proof {
        assert((f as int) * (f as int) <= 1_000_000_000_000int) by (nonlinear_arith)
            requires 1 <= f <= 1_000_000;
    }
    let ff: u64 = f * f;
    let mut k: u8 = 0;
    loop
        invariant
            k <= 107,
            ff == (f as int) * (f as int),
            spec_nearest_note(f as int) == spec_nearest_from(f as int, k as int),
        decreases 107 - k as int,
    {
        if k >= 107 {
            return 107;
        }
        let fa: u64 = note_frequency_centihertz(k) as u64;
        let fb: u64 = note_frequency_centihertz(k + 1) as u64;
        proof {
            assert((fa as int) * (fb as int) <= 790272int * 790272) by (nonlinear_arith)
                requires 0 <= fa <= 790272, 0 <= fb <= 790272;
        }
        if ff < fa * fb {
            return k;
        }
        k = k + 1;
    }
}

/// Whether frequency `f` sits within tolerance of an integer multiple
/// (2x through [`MAX_HARMONIC`]) of the fundamental `q`: the harmonic test.
pub open spec fn spec_is_overtone(f: int, q: int) -> bool {
    exists|m: int| 2 <= m <= 16 && #[trigger] abs(f - m * q) * 100 <= q * 3
}

/// Returns whether `f` is an overtone of the fundamental `q`, exactly
/// [`spec_is_overtone`].
pub fn is_overtone(f: u64, q: u64) -> (r: bool)
    requires
        1 <= f <= 1_000_000,
        1 <= q <= 1_000_000,
    ensures
        r == spec_is_overtone(f as int, q as int),
{
    let mut m: u64 = 2;
    while m <= 16
        invariant
            2 <= m <= 17,
            1 <= f <= 1_000_000,
            1 <= q <= 1_000_000,
            forall|t: int| 2 <= t < m ==> #[trigger] abs(f as int - t * (q as int)) * 100
                > (q as int) * 3,
        decreases 17 - m,
    {
        proof {
            assert(0 <= (m as int) * (q as int) <= 16_000_000int) by (nonlinear_arith)
                requires 2 <= m <= 16, 1 <= q <= 1_000_000;
        }
        let mq: u64 = m * q;
        let diff: u64 = if f >= mq {
            f - mq
        } else {
            mq - f
        };
        assert(diff == abs(f as int - (m as int) * (q as int)));
        if diff * 100 <= q * 3 {
            assert(spec_is_overtone(f as int, q as int)) by {
                assert(2 <= m as int <= 16 && abs(f as int - (m as int) * (q as int)) * 100
                    <= (q as int) * 3);
            }
            return true;
        }
        m = m + 1;
    }
    false
}

/// Peak ordering for harmonic suppression: louder peaks first, and between
/// equal magnitudes the lower frequency first, for determinism.
pub open spec fn spec_peak_before(a: SpectralPeak, b: SpectralPeak) -> bool {
    a.magnitude > b.magnitude || (a.magnitude == b.magnitude && a.freq_centihertz
        < b.freq_centihertz)
}

/// Inserts a peak into a sequence already sorted by [`spec_peak_before`],
/// after every element it does not precede.
pub open spec fn spec_insert_peak(s: Seq<SpectralPeak>, p: SpectralPeak) -> Seq<SpectralPeak>
    decreases s.len(),
{
    if s.len() == 0 {
        seq![p]
    } else if spec_peak_before(p, s[0]) {
        seq![p] + s
    } else {
        seq![s[0]] + spec_insert_peak(s.drop_first(), p)
    }
}

/// The first `n` peaks of `s`, sorted by [`spec_peak_before`].
pub open spec fn spec_sort_peaks_upto(s: Seq<SpectralPeak>, n: int) -> Seq<SpectralPeak>
    decreases n,
{
    if n <= 0 {
        Seq::empty()
    } else {
        spec_insert_peak(spec_sort_peaks_upto(s, n - 1), s[n - 1])
    }
}

/// The peaks of `s` sorted loudest first (ties to the lower frequency).
pub open spec fn spec_sort_peaks(s: Seq<SpectralPeak>) -> Seq<SpectralPeak> {
    spec_sort_peaks_upto(s, s.len() as int)
}

/// Whether, among the first `n` accepted peaks, some fundamental makes `p`
/// an overtone.
pub open spec fn spec_suppressed_by(p: SpectralPeak, acc: Seq<SpectralPeak>, n: int) -> bool {
    exists|j: int| 0 <= j < n && spec_is_overtone(p.freq_centihertz as int,
        (#[trigger] acc[j]).freq_centihertz as int)
}

/// Walks the first `n` peaks of `s` (already sorted loudest first) and keeps
/// each that is not an overtone of an already-kept, louder peak.
pub open spec fn spec_accept_upto(s: Seq<SpectralPeak>, n: int) -> Seq<SpectralPeak>
    decreases n,
{
    if n <= 0 {
        Seq::empty()
    } else {
        let acc = spec_accept_upto(s, n - 1);
        if spec_suppressed_by(s[n - 1], acc, acc.len() as int) {
            acc
        } else {
            acc.push(s[n - 1])
        }
    }
}

/// The peaks that survive harmonic suppression, in acceptance order.
pub open spec fn spec_accepted(s: Seq<SpectralPeak>) -> Seq<SpectralPeak> {
    spec_accept_upto(s, s.len() as int)
}

/// Whether some accepted peak classifies to table position `k`.
pub open spec fn spec_present(acc: Seq<SpectralPeak>, k: int) -> bool {
    exists|j: int| 0 <= j < acc.len() && spec_nearest_note(
        (#[trigger] acc[j]).freq_centihertz as int) == k
}

/// The notes of the first `n` table positions some accepted peak maps to:
/// deduplicated by construction and ascending in table position.
pub open spec fn spec_notes_upto(acc: Seq<SpectralPeak>, n: int) -> Seq<Note>
    decreases n,
{
    if n <= 0 {
        Seq::empty()
    } else {
        let pre = spec_notes_upto(acc, n - 1);
        if spec_present(acc, n - 1) {
            pre.push(spec_note_of_index(n - 1))
        } else {
            pre
        }
    }
}

/// What classification returns on a non-empty peak list: the deduplicated
/// notes of the accepted (non-overtone) peaks, ascending in frequency.
pub open spec fn spec_classify_notes(peaks: Seq<SpectralPeak>) -> Seq<Note> {
    spec_notes_upto(spec_accepted(spec_sort_peaks(peaks)), 108)
}

/// Inserting into a sorted prefix at the first position the new peak
/// precedes is exactly the specification's insertion.
proof fn lemma_insert_peak_at(s: Seq<SpectralPeak>, p: SpectralPeak, i: int)
    requires
        0 <= i <= s.len(),
        forall|t: int| 0 <= t < i ==> !spec_peak_before(p, #[trigger] s[t]),
        i < s.len() ==> spec_peak_before(p, s[i]),
    ensures
        spec_insert_peak(s, p) == s.insert(i, p),
    decreases s.len(),
{
    if s.len() == 0 {
        assert(s.insert(0, p) =~= seq![p]);
    } else if i == 0 {
        assert(s.insert(0, p) =~= seq![p] + s);
    } else {
        assert(!spec_peak_before(p, s[0]));
        lemma_insert_peak_at(s.drop_first(), p, i - 1);
        assert(s.insert(i, p) =~= seq![s[0]] + s.drop_first().insert(i - 1, p));
    }
}

/// Insertion grows a sequence by exactly one element.
proof fn lemma_insert_peak_len(s: Seq<SpectralPeak>, p: SpectralPeak)
    ensures
        spec_insert_peak(s, p).len() == s.len() + 1,
    decreases s.len(),
{
    if s.len() > 0 && !spec_peak_before(p, s[0]) {
        lemma_insert_peak_len(s.drop_first(), p);
    }
}

/// Sorting keeps the number of peaks.
pub proof fn lemma_sort_peaks_len(s: Seq<SpectralPeak>, n: int)
    requires
        0 <= n <= s.len(),
    ensures
        spec_sort_peaks_upto(s, n).len() == n,
    decreases n,
{
    if n > 0 {
        lemma_sort_peaks_len(s, n - 1);
        lemma_insert_peak_len(spec_sort_peaks_upto(s, n - 1), s[n - 1]);
    }
}

/// Acceptance never shrinks, and keeps the loudest peak, so at least one
/// peak survives suppression whenever any peak was found.
pub proof fn lemma_accept_nonempty(s: Seq<SpectralPeak>, n: int)
    requires
        1 <= n <= s.len(),
    ensures
        spec_accept_upto(s, n).len() >= 1,
    decreases n,
{
    if n == 1 {
        assert(spec_accept_upto(s, 0) =~= Seq::<SpectralPeak>::empty());
        assert(!spec_suppressed_by(s[0], spec_accept_upto(s, 0), 0));
    } else {
        lemma_accept_nonempty(s, n - 1);
    }
}

/// The note list ascends strictly in table position (hence it holds no
/// duplicates), every entry is well formed, and every entry's position
/// stays below `n`.
pub proof fn lemma_notes_upto_sorted(acc: Seq<SpectralPeak>, n: int)
    requires
        0 <= n <= 108,
    ensures
        forall|i: int, j: int| 0 <= i < j < spec_notes_upto(acc, n).len()
            ==> (#[trigger] spec_notes_upto(acc, n)[i]).spec_table_index()
                < (#[trigger] spec_notes_upto(acc, n)[j]).spec_table_index(),
        forall|i: int| 0 <= i < spec_notes_upto(acc, n).len()
            ==> 0 <= (#[trigger] spec_notes_upto(acc, n)[i]).spec_table_index() < n,
        forall|i: int| 0 <= i < spec_notes_upto(acc, n).len()
            ==> (#[trigger] spec_notes_upto(acc, n)[i]).wf(),
    decreases n,
{
    if n > 0 {
        lemma_notes_upto_sorted(acc, n - 1);
        let pre = spec_notes_upto(acc, n - 1);
        let cur = spec_notes_upto(acc, n);
        if spec_present(acc, n - 1) {
            assert(cur == pre.push(spec_note_of_index(n - 1)));
            assert(cur.len() == pre.len() + 1);
            assert(forall|i: int| 0 <= i < pre.len() ==> #[trigger] cur[i] == pre[i]);
            assert(cur[pre.len() as int] == spec_note_of_index(n - 1));
            assert(spec_note_of_index(n - 1).spec_table_index() == n - 1) by {
                let q = (n - 1) / 12;
                let m = (n - 1) % 12;
                assert(0 <= m < 12);
                assert(0 <= q <= 8);
                assert(Pitch::spec_of_index(m).spec_index() == m);
                assert(spec_note_of_index(n - 1).spec_table_index() == q * 12 + m);
            }
        } else {
            assert(cur == pre);
        }
    }
}

/// If any accepted peak classifies somewhere in the table, the note list is
/// not empty.
pub proof fn lemma_notes_upto_nonempty(acc: Seq<SpectralPeak>, n: int, k: int)
    requires
        0 <= k < n,
        spec_present(acc, k),
    ensures
        spec_notes_upto(acc, n).len() >= 1,
    decreases n,
{
    if n - 1 > k {
        lemma_notes_upto_nonempty(acc, n - 1, k);
    }
}

/// Exec comparison for the suppression ordering, exactly [`spec_peak_before`].
fn peak_before(a: &SpectralPeak, b: &SpectralPeak) -> (r: bool)
    ensures
        r == spec_peak_before(*a, *b),
{
    a.magnitude > b.magnitude || (a.magnitude == b.magnitude && a.freq_centihertz
        < b.freq_centihertz)
}

/// Inserts `p` into `v`, which is sorted by [`spec_peak_before`], keeping it
/// sorted; the result is the specification's insertion.
fn insert_peak(v: &mut Vec<SpectralPeak>, p: SpectralPeak)
    ensures
        final(v)@ == spec_insert_peak(old(v)@, p),
{
    let mut idx: usize = 0;
    while idx < v.len() && !peak_before(&p, &v[idx])
        invariant
            idx <= v@.len(),
            v@ == old(v)@,
            forall|t: int| 0 <= t < idx ==> !spec_peak_before(p, #[trigger] v@[t]),
        decreases v@.len() - idx,
    {
        idx = idx + 1;
    }
    proof {
        lemma_insert_peak_at(v@, p, idx as int);
    }
    v.insert(idx, p);
}

/// Maps each spectral peak to the nearest note, suppresses overtones of
/// louder accepted peaks, deduplicates, and returns the notes sorted by
/// ascending frequency.
///
/// Fails with `InvalidDuration` on a non-positive duration, and with
/// `EmptySpectrum` when no peak exceeded the noise floor, so silence is
/// distinguishable from an empty success; on any non-empty peak list it
/// succeeds with at least one note.
pub fn classify(peaks: &Vec<SpectralPeak>, duration_ms: u32) -> (r: Result<Vec<Note>, Error>)
    requires
        forall|i: int| 0 <= i < peaks@.len() ==> (#[trigger] peaks@[i]).wf(),
    ensures
        r is Err <==> (duration_ms == 0 || peaks@.len() == 0),
        duration_ms == 0 ==> r is Err && r->Err_0 == Error::InvalidDuration,
        duration_ms > 0 && peaks@.len() == 0 ==> r is Err && r->Err_0 == Error::EmptySpectrum,
        r is Ok ==> r->Ok_0@ == spec_classify_notes(peaks@),
        r is Ok ==> r->Ok_0@.len() >= 1,
        r is Ok ==> forall|i: int, j: int| 0 <= i < j < r->Ok_0@.len()
            ==> (#[trigger] r->Ok_0@[i]).spec_frequency_centihertz()
                < (#[trigger] r->Ok_0@[j]).spec_frequency_centihertz(),
        r is Ok ==> forall|i: int| 0 <= i < r->Ok_0@.len() ==> (#[trigger] r->Ok_0@[i]).wf(),
{
    if duration_ms == 0 {
        return Err(Error::InvalidDuration);
    }
    if peaks.len() == 0 {
        return Err(Error::EmptySpectrum);
    }

    // Sort the peaks loudest first (ties to the lower frequency).
    let mut sorted: Vec<SpectralPeak> = Vec::new();
    let mut n: usize = 0;
    while n < peaks.len()
        invariant
            n <= peaks@.len(),
            sorted@ == spec_sort_peaks_upto(peaks@, n as int),
            sorted@.len() == n as int,
            forall|i: int| 0 <= i < peaks@.len() ==> (#[trigger] peaks@[i]).wf(),
            forall|i: int| 0 <= i < sorted@.len() ==> (#[trigger] sorted@[i]).wf(),
        decreases peaks@.len() - n,
    {
        let p = peaks[n];
        let ghost pre = sorted@;
        insert_peak(&mut sorted, p);
        proof {
            lemma_insert_peak_len(pre, p);
            assert forall|i: int| 0 <= i < sorted@.len() implies (#[trigger] sorted@[i]).wf()
            by {
                lemma_insert_peak_elements(pre, p, i);
            }
        }
        n = n + 1;
    }
    assert(sorted@ == spec_sort_peaks(peaks@));

    // Keep each peak that is no overtone of an already-kept louder peak.
    let mut acc: Vec<SpectralPeak> = Vec::new();
    let mut n2: usize = 0;
    while n2 < sorted.len()
        invariant
            n2 <= sorted@.len(),
            acc@ == spec_accept_upto(sorted@, n2 as int),
            forall|i: int| 0 <= i < sorted@.len() ==> (#[trigger] sorted@[i]).wf(),
            forall|i: int| 0 <= i < acc@.len() ==> (#[trigger] acc@[i]).wf(),
        decreases sorted@.len() - n2,
    {
        let p = sorted[n2];
        let mut j: usize = 0;
        let mut found: bool = false;
        while j < acc.len()
            invariant
                j <= acc@.len(),
                p.wf(),
                forall|i: int| 0 <= i < acc@.len() ==> (#[trigger] acc@[i]).wf(),
                found == spec_suppressed_by(p, acc@, j as int),
            decreases acc@.len() - j,
        {
            if !found && is_overtone(p.freq_centihertz, acc[j].freq_centihertz) {
                found = true;
            }
            j = j + 1;
        }
        if !found {
            acc.push(p);
        }
        n2 = n2 + 1;
    }
    assert(acc@ == spec_accepted(spec_sort_peaks(peaks@)));

    // Mark the table position nearest to each accepted peak.
    let mut present: Vec<bool> = Vec::new();
    let mut k: usize = 0;
    while k < 108
        invariant
            k <= 108,
            present@.len() == k as int,
            forall|t: int| 0 <= t < k as int ==> #[trigger] present@[t] == false,
        decreases 108 - k,
    {
        present.push(false);
        k = k + 1;
    }
    let mut n3: usize = 0;
    while n3 < acc.len()
        invariant
            n3 <= acc@.len(),
            present@.len() == 108,
            forall|i: int| 0 <= i < acc@.len() ==> (#[trigger] acc@[i]).wf(),
            forall|t: int| 0 <= t < 108 ==> #[trigger] present@[t] == spec_present(
                acc@.take(n3 as int), t),
        decreases acc@.len() - n3,
    {
        let idx = nearest_note_index(acc[n3].freq_centihertz);
        proof {
            lemma_nearest_from_bounds(acc@[n3 as int].freq_centihertz as int, 0);
        }
        present[idx as usize] = true;
        proof {
            let prev = acc@.take(n3 as int);
            let cur = acc@.take(n3 as int + 1);
            assert(cur.drop_last() =~= prev);
            assert(cur.last() == acc@[n3 as int]);
            assert forall|t: int| 0 <= t < 108 implies #[trigger] present@[t]
                == spec_present(cur, t)
            by {
                if present@[t] {
                    if t == idx as int {
                        assert(spec_nearest_note(cur[n3 as int].freq_centihertz as int) == t);
                        assert(spec_present(cur, t));
                    } else {
                        let w = choose|j: int| 0 <= j < prev.len()
                            && spec_nearest_note((#[trigger] prev[j]).freq_centihertz as int)
                                == t;
                        assert(cur[w] == prev[w]);
                        assert(spec_present(cur, t));
                    }
                } else {
                    if spec_present(cur, t) {
                        let w = choose|j: int| 0 <= j < cur.len()
                            && spec_nearest_note((#[trigger] cur[j]).freq_centihertz as int)
                                == t;
                        if w < n3 as int {
                            assert(prev[w] == cur[w]);
                            assert(spec_present(prev, t));
                        } else {
                            assert(t == idx as int);
                        }
                        assert(false);
                    }
                }
            }
        }
        n3 = n3 + 1;
    }
    proof {
        assert(acc@.take(acc@.len() as int) =~= acc@);
    }

    // Emit the marked notes in ascending table order.
    let mut out: Vec<Note> = Vec::new();
    let mut k2: u8 = 0;
    while k2 < NOTE_COUNT
        invariant
            k2 <= 108,
            present@.len() == 108,
            forall|t: int| 0 <= t < 108 ==> #[trigger] present@[t] == spec_present(acc@, t),
            out@ == spec_notes_upto(acc@, k2 as int),
        decreases 108 - k2,
    {
        if present[k2 as usize] {
            out.push(note_of_index(k2));
        }
        k2 = k2 + 1;
    }

    // The loudest peak always survives and classifies somewhere, so the
    // result is never empty; table order is frequency order.
    proof {
        lemma_sort_peaks_len(peaks@, peaks@.len() as int);
        lemma_accept_nonempty(sorted@, sorted@.len() as int);
        let f0 = acc@[0].freq_centihertz as int;
        lemma_nearest_from_bounds(f0, 0);
        assert(spec_present(acc@, spec_nearest_note(f0)));
        lemma_notes_upto_nonempty(acc@, 108, spec_nearest_note(f0));
        lemma_notes_upto_sorted(acc@, 108);
        assert forall|i: int, j: int| 0 <= i < j < out@.len()
            implies (#[trigger] out@[i]).spec_frequency_centihertz()
                < (#[trigger] out@[j]).spec_frequency_centihertz()
        by {
            lemma_note_frequency_increasing(out@[i].spec_table_index(),
                out@[j].spec_table_index());
            lemma_note_table_index_identity(out@[i]);
            lemma_note_table_index_identity(out@[j]);
        }
    }
    Ok(out)
}

/// Every element of an insertion is the new peak or one of the old ones.
proof fn lemma_insert_peak_elements(s: Seq<SpectralPeak>, p: SpectralPeak, i: int)
    requires
        0 <= i < spec_insert_peak(s, p).len(),
    ensures
        spec_insert_peak(s, p)[i] == p || exists|j: int| 0 <= j < s.len()
            && spec_insert_peak(s, p)[i] == s[j],
    decreases s.len(),
{
    if s.len() == 0 {
    } else if spec_peak_before(p, s[0]) {
    } else {
        if i > 0 {
            lemma_insert_peak_elements(s.drop_first(), p, i - 1);
            if spec_insert_peak(s, p)[i] != p {
                let j = choose|j: int| 0 <= j < s.drop_first().len()
                    && spec_insert_peak(s.drop_first(), p)[i - 1] == s.drop_first()[j];
                assert(s.drop_first()[j] == s[j + 1]);
            }
        }
    }
}

/// A note's frequency is the frequency at its own table position.
proof fn lemma_note_table_index_identity(n: Note)
    requires
        n.wf(),
    ensures
        spec_note_frequency(n.spec_table_index()) == n.spec_frequency_centihertz(),
        0 <= n.spec_table_index() < 108,
{
    let k = n.spec_table_index();
    assert(k % 12 == n.pitch.spec_index() && k / 12 == n.octave as int) by (nonlinear_arith)
        requires
            k == n.octave * 12 + n.pitch.spec_index(),
            0 <= n.pitch.spec_index() < 12,
            0 <= n.octave < 9;
    assert(spec_note_of_index(k).pitch == n.pitch);
    assert(spec_note_of_index(k).octave == n.octave);
}

} // verus!
