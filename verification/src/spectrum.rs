//! The spectral analyzer: applies a Hann window and a discrete frequency
//! transform to a window of fixed-point samples, and extracts the salient
//! peaks — the local maxima of the magnitude spectrum that exceed a noise
//! floor set relative to the spectrum's overall energy.
//!
//! All arithmetic is integer fixed point: samples, window weights and the
//! sine table all use a scale of 32768 (Q15), and a full turn of phase is
//! 65536 units. The transform analyzes at most [`DFT_SIZE`] samples against
//! a frequency grid of `sample_rate / DFT_SIZE`; callers must record long
//! enough that this resolution separates semitones at the lowest pitch of
//! interest (a documented design constraint, not enforced at runtime).

use vstd::prelude::*;
use vstd::arithmetic::div_mod::{
    lemma_div_is_ordered, lemma_div_is_ordered_by_denominator, lemma_div_pos_is_pos,
    lemma_multiply_divide_le, lemma_multiply_divide_lt, lemma_fundamental_div_mod,
};

use crate::capture::AudioWindow;

verus! {

/// The number of samples the frequency transform spans; longer windows are
/// truncated to their first `DFT_SIZE` samples.
pub const DFT_SIZE: usize = 16384;

/// Lowest frequency of the analyzed band, in centihertz (55 Hz).
pub const BAND_LOW_CENTIHERTZ: u64 = 5500;

/// Highest frequency of the analyzed band, in centihertz (9 kHz).
pub const BAND_HIGH_CENTIHERTZ: u64 = 900000;

/// A bin only counts as a peak when its magnitude exceeds this multiple of
/// the mean magnitude of the analyzed band (the noise floor). Tunable.
pub const NOISE_FLOOR_FACTOR: u64 = 8;

/// A (frequency, magnitude) pair extracted from one analysis window;
/// consumed within a single classification pass.
#[derive(PartialEq, Eq, Structural, Clone, Copy, Hash, Debug)]
pub struct SpectralPeak {
    /// The frequency at the center of the peak's bin, in centihertz.
    pub freq_centihertz: u64,
    /// The squared, scaled magnitude of the bin.
    pub magnitude: u64,
}

impl SpectralPeak {
    /// Peaks the analyzer reports lie inside the audible band it scans.
    pub open spec fn wf(self) -> bool {
        1 <= self.freq_centihertz <= 1_000_000
    }
}

/// Fixed-point half-turn sine: for `x` in `[0, 32768]` phase units (one half
/// turn), the rational approximation `16·x·(H−x)·S / (5·H² − 4·x·(H−x))`
/// with `H = 32768` the half turn and `S = 32768` the output scale.
pub open spec fn spec_sin_half(x: int) -> int {
    (16 * x * (32768 - x) * 32768) / (5368709120 - 4 * x * (32768 - x))
}

/// Fixed-point sine over a full turn of 65536 phase units, scaled by 32768.
pub open spec fn spec_sin_q15(p: int) -> int {
    if p <= 32768 {
        spec_sin_half(p)
    } else {
        -spec_sin_half(p - 32768)
    }
}

/// Fixed-point cosine: sine advanced by a quarter turn.
pub open spec fn spec_cos_q15(p: int) -> int {
    spec_sin_q15((p + 16384) % 65536)
}

/// The Hann window weight of position `i` in a window of length `l`,
/// scaled by 32768: `(1 − cos(2π·i/l)) / 2`.
pub open spec fn spec_hann(i: int, l: int) -> int {
    (32768 - spec_cos_q15((65536 * i) / l)) / 2
}

/// How many leading samples of the window the transform spans.
pub open spec fn spec_window_len(s: Seq<i32>) -> int {
    if s.len() <= 16384 {
        s.len() as int
    } else {
        16384
    }
}

/// The real part of bin `k`, summed over the first `n` samples: each sample
/// weighted by the Hann window and the cosine of its phase `2π·k·i / DFT_SIZE`
/// (in phase units, `4·k·i mod 65536`).
pub open spec fn spec_re_sum(s: Seq<i32>, l: int, k: int, n: int) -> int
    decreases n,
{
    if n <= 0 {
        0
    } else {
        spec_re_sum(s, l, k, n - 1) + s[n - 1] * spec_hann(n - 1, l) * spec_cos_q15(
            (4 * k * (n - 1)) % 65536)
    }
}

/// The imaginary part of bin `k`, summed over the first `n` samples.
pub open spec fn spec_im_sum(s: Seq<i32>, l: int, k: int, n: int) -> int
    decreases n,
{
    if n <= 0 {
        0
    } else {
        spec_im_sum(s, l, k, n - 1) + s[n - 1] * spec_hann(n - 1, l) * spec_sin_q15(
            (4 * k * (n - 1)) % 65536)
    }
}

/// The squared magnitude of bin `k`, scaled down by 2^60.
pub open spec fn spec_mag(s: Seq<i32>, k: int) -> int {
    let l = spec_window_len(s);
    let re = spec_re_sum(s, l, k, l);
    let im = spec_im_sum(s, l, k, l);
    (re * re + im * im) / 1152921504606846976
}

/// The first bin of the analyzed band: just above [`BAND_LOW_CENTIHERTZ`].
pub open spec fn spec_k_lo(sr: int) -> int {
    5500int * 16384 / (sr * 100) + 1
}

/// The last bin of the analyzed band: at most [`BAND_HIGH_CENTIHERTZ`], and
/// always below the transform's folding bin.
pub open spec fn spec_k_hi(sr: int) -> int {
    let k: int = 900000int * 16384 / (sr * 100);
    if k > 8191 {
        8191
    } else {
        k
    }
}

/// The number of bins in the analyzed band.
pub open spec fn spec_num_bins(sr: int) -> int {
    spec_k_hi(sr) - spec_k_lo(sr) + 1
}

/// The total magnitude of the analyzed band over its first `n` bins.
pub open spec fn spec_total_upto(s: Seq<i32>, sr: int, n: int) -> int
    decreases n,
{
    if n <= 0 {
        0
    } else {
        spec_total_upto(s, sr, n - 1) + spec_mag(s, spec_k_lo(sr) + n - 1)
    }
}

/// The total magnitude of the analyzed band.
pub open spec fn spec_total(s: Seq<i32>, sr: int) -> int {
    spec_total_upto(s, sr, spec_num_bins(sr))
}

/// Whether band position `j` is a salient peak: a local maximum (an equal
/// neighbor resolves to the lower-frequency bin) whose magnitude exceeds
/// [`NOISE_FLOOR_FACTOR`] times the band's mean magnitude.
pub open spec fn spec_is_peak(s: Seq<i32>, sr: int, j: int) -> bool {
    let k = spec_k_lo(sr) + j;
    let nb = spec_num_bins(sr);
    &&& 0 <= j < nb
    &&& (j == 0 || spec_mag(s, k) > spec_mag(s, k - 1))
    &&& (j == nb - 1 || spec_mag(s, k) >= spec_mag(s, k + 1))
    &&& spec_mag(s, k) * nb > 8 * spec_total(s, sr)
}

/// The center frequency of bin `k`, in centihertz.
pub open spec fn spec_bin_freq(sr: int, k: int) -> int {
    k * sr * 100 / 16384
}

/// The peaks found in the first `n` band positions, in ascending frequency.
pub open spec fn spec_peaks_upto(s: Seq<i32>, sr: int, n: int) -> Seq<SpectralPeak>
    decreases n,
{
    if n <= 0 {
        Seq::empty()
    } else {
        let prefix = spec_peaks_upto(s, sr, n - 1);
        if spec_is_peak(s, sr, n - 1) {
            prefix.push(
                SpectralPeak {
                    freq_centihertz: spec_bin_freq(sr, spec_k_lo(sr) + n - 1) as u64,
                    magnitude: spec_mag(s, spec_k_lo(sr) + n - 1) as u64,
                },
            )
        } else {
            prefix
        }
    }
}

/// What [`analyze`] returns: every salient peak of the analyzed band, in
/// ascending order of frequency.
pub open spec fn spec_analyze(s: Seq<i32>, sr: int) -> Seq<SpectralPeak> {
    spec_peaks_upto(s, sr, spec_num_bins(sr))
}

/// Half-turn fixed-point sine, exactly [`spec_sin_half`].
fn sin_half_q15(x: u32) -> (r: i64)
    requires
        x <= 32768,
    ensures
        r == spec_sin_half(x as int),
        0 <= r <= 32768,
{
    proof {
        assert(0 <= (x as int) * (32768 - x as int) <= 268435456) by (nonlinear_arith)
            requires x <= 32768;
    }
    let a: u64 = (x as u64) * ((32768 - x) as u64);
    let num: u64 = 16 * a * 32768;
    let den: u64 = 5368709120 - 4 * a;
    let q: u64 = num / den;
    proof {
        assert(num <= 32768 * (den as int));
        lemma_multiply_divide_le(num as int, den as int, 32768);
        lemma_div_pos_is_pos(num as int, den as int);
        assert(16 * (a as int) * 32768 == 16 * (x as int) * (32768 - x as int) * 32768)
            by (nonlinear_arith)
            requires a as int == (x as int) * (32768 - x as int);
        assert(4 * (a as int) == 4 * (x as int) * (32768 - x as int))
            by (nonlinear_arith)
            requires a as int == (x as int) * (32768 - x as int);
    }
    q as i64
}

/// Full-turn fixed-point sine, exactly [`spec_sin_q15`].
fn sin_q15(p: u32) -> (r: i64)
    requires
        p < 65536,
    ensures
        r == spec_sin_q15(p as int),
        -32768 <= r <= 32768,
{
    if p <= 32768 {
        sin_half_q15(p)
    } else {
        let h = sin_half_q15(p - 32768);
        -h
    }
}

/// The Hann window weight of position `i` of `l`, exactly [`spec_hann`].
fn hann_q15(i: usize, l: usize) -> (r: i64)
    requires
        i < l,
        l <= 16384,
    ensures
        r == spec_hann(i as int, l as int),
        0 <= r <= 32768,
{
    let scaled: u64 = 65536 * (i as u64);
    let phase: u64 = scaled / (l as u64);
    proof {
        assert(65536 * (i as int) < (l as int) * 65536) by (nonlinear_arith)
            requires i < l;
        lemma_multiply_divide_lt(scaled as int, l as int, 65536);
        lemma_div_pos_is_pos(scaled as int, l as int);
    }
    let c = sin_q15(((phase + 16384) % 65536) as u32);
    assert(c == spec_cos_q15(phase as int));
    let r: i64 = (32768 - c) / 2;
    r
}

/// Transforms the window into a magnitude spectrum over the audible band and
/// extracts its salient peaks, in ascending order of frequency. A pure
/// function of the window; silence (an all-zero window) yields no peaks.
pub fn analyze(window: &AudioWindow) -> (peaks: Vec<SpectralPeak>)
    requires
        window.wf(),
    ensures
        peaks@ == spec_analyze(window.samples@, window.sample_rate_hz as int),
        forall|j: int| 0 <= j < peaks@.len() ==> (#[trigger] peaks@[j]).wf(),
{
    let s = &window.samples;
    let sr: u32 = window.sample_rate_hz;
    let ghost sq: Seq<i32> = s@;
    let ghost sri: int = sr as int;

    let l: usize = if s.len() > 16384 {
        16384
    } else {
        s.len()
    };
    assert(l == spec_window_len(sq));

    let denom: u64 = (sr as u64) * 100;
    let k_lo_u: u64 = 90112000 / denom + 1;
    let k_hi_raw: u64 = 14745600000 / denom;
    let k_hi_u: u64 = if k_hi_raw > 8191 {
        8191
    } else {
        k_hi_raw
    };
    proof {
        assert(denom == sri * 100);
        lemma_div_is_ordered_by_denominator(90112000, 800000, sri * 100);
        assert(k_lo_u <= 113);
        lemma_div_is_ordered_by_denominator(14745600000, sri * 100, 19200000);
        assert(k_hi_raw >= 768);
        assert(k_lo_u == spec_k_lo(sri));
        assert(k_hi_u == spec_k_hi(sri));
        lemma_div_pos_is_pos(90112000, sri * 100);
    }
    let k_lo: usize = k_lo_u as usize;
    let k_hi: usize = k_hi_u as usize;
    let nb: usize = k_hi - k_lo + 1;
    assert(nb == spec_num_bins(sri));

    // The sine table: one entry per phase unit of the full turn.
    let mut sines: Vec<i64> = Vec::new();
    let mut ph0: usize = 0;
    while ph0 < 65536
        invariant
            ph0 <= 65536,
            sines@.len() == ph0 as int,
            forall|t: int| 0 <= t < ph0 as int ==> #[trigger] sines@[t] == spec_sin_q15(t)
                && -32768 <= sines@[t] <= 32768,
        decreases 65536 - ph0,
    {
        sines.push(sin_q15(ph0 as u32));
        ph0 = ph0 + 1;
    }

    // The samples with the Hann window already applied.
    let mut ws: Vec<i64> = Vec::new();
    let mut i0: usize = 0;
    while i0 < l
        invariant
            i0 <= l,
            l == spec_window_len(sq),
            l <= 16384,
            l <= sq.len(),
            sq == s@,
            forall|t: int| 0 <= t < sq.len() ==> -32768 <= #[trigger] sq[t] <= 32768,
            ws@.len() == i0 as int,
            forall|t: int| 0 <= t < i0 as int ==> #[trigger] ws@[t] == sq[t] * spec_hann(t,
                l as int) && -1073741824 <= ws@[t] <= 1073741824,
        decreases l - i0,
    {
        let smp: i64 = s[i0] as i64;
        let h: i64 = hann_q15(i0, l);
        proof {
            assert(-1073741824 <= smp * h <= 1073741824) by (nonlinear_arith)
                requires -32768 <= smp <= 32768, 0 <= h <= 32768;
        }
        ws.push(smp * h);
        i0 = i0 + 1;
    }

    // Pass one: the magnitude of every bin of the band.
    let mut mags: Vec<u64> = Vec::new();
    let mut j: usize = 0;
    while j < nb
        invariant
            j <= nb,
            nb == spec_num_bins(sri),
            k_lo == spec_k_lo(sri),
            k_hi == spec_k_hi(sri),
            1 <= k_lo <= 113,
            k_lo <= k_hi <= 8191,
            nb == k_hi - k_lo + 1,
            l == spec_window_len(sq),
            l <= 16384,
            l <= sq.len(),
            sq == s@,
            sines@.len() == 65536,
            forall|t: int| 0 <= t < 65536 ==> #[trigger] sines@[t] == spec_sin_q15(t)
                && -32768 <= sines@[t] <= 32768,
            ws@.len() == l as int,
            forall|t: int| 0 <= t < l as int ==> #[trigger] ws@[t] == sq[t] * spec_hann(t,
                l as int) && -1073741824 <= ws@[t] <= 1073741824,
            forall|t: int| 0 <= t < sq.len() ==> -32768 <= #[trigger] sq[t] <= 32768,
            mags@.len() == j as int,
            forall|t: int| 0 <= t < j as int
                ==> #[trigger] mags@[t] == spec_mag(sq, k_lo + t),
        decreases nb - j,
    {
        let k: usize = k_lo + j;
        let mut re: i64 = 0;
        let mut im: i64 = 0;
        let mut i: usize = 0;
        while i < l
            invariant
                i <= l,
                l <= 16384,
                l <= sq.len(),
                sq == s@,
                k <= 8191,
                sines@.len() == 65536,
                forall|t: int| 0 <= t < 65536 ==> #[trigger] sines@[t] == spec_sin_q15(t)
                    && -32768 <= sines@[t] <= 32768,
                ws@.len() == l as int,
                forall|t: int| 0 <= t < l as int ==> #[trigger] ws@[t] == sq[t] * spec_hann(
                    t, l as int) && -1073741824 <= ws@[t] <= 1073741824,
                re == spec_re_sum(sq, l as int, k as int, i as int),
                im == spec_im_sum(sq, l as int, k as int, i as int),
                -(i as int) * 35184372088832 <= re <= (i as int) * 35184372088832,
                -(i as int) * 35184372088832 <= im <= (i as int) * 35184372088832,
            decreases l - i,
        {
            proof {
                assert(0 <= 4 * (k as int) * (i as int) <= 4 * 8191 * 16384)
                    by (nonlinear_arith)
                    requires 0 <= k <= 8191, 0 <= i <= 16384;
            }
            let ph: u64 = (4 * (k as u64) * (i as u64)) % 65536;
            let c: i64 = sines[((ph + 16384) % 65536) as usize];
            let sn: i64 = sines[ph as usize];
            proof {
                assert(c == spec_cos_q15(ph as int));
            }
            let wi: i64 = ws[i];
            proof {
                assert(-35184372088832 <= wi * c <= 35184372088832) by (nonlinear_arith)
                    requires -1073741824 <= wi <= 1073741824, -32768 <= c <= 32768;
                assert(-35184372088832 <= wi * sn <= 35184372088832) by (nonlinear_arith)
                    requires -1073741824 <= wi <= 1073741824, -32768 <= sn <= 32768;
                assert(((i as int) + 1) * 35184372088832 <= 1152921504606846976)
                    by (nonlinear_arith)
                    requires i as int + 1 <= 16384;
                assert((i as int) * 35184372088832 + 35184372088832
                    == ((i as int) + 1) * 35184372088832) by (nonlinear_arith);
                assert(wi * c == sq[i as int] * spec_hann(i as int, l as int) * spec_cos_q15(
                    (4 * (k as int) * (i as int)) % 65536)) by (nonlinear_arith)
                    requires
                        wi == sq[i as int] * spec_hann(i as int, l as int),
                        c == spec_cos_q15((4 * (k as int) * (i as int)) % 65536);
                assert(wi * sn == sq[i as int] * spec_hann(i as int, l as int) * spec_sin_q15(
                    (4 * (k as int) * (i as int)) % 65536)) by (nonlinear_arith)
                    requires
                        wi == sq[i as int] * spec_hann(i as int, l as int),
                        sn == spec_sin_q15((4 * (k as int) * (i as int)) % 65536);
            }
            let tre: i64 = wi * c;
            let tim: i64 = wi * sn;
            re = re + tre;
            im = im + tim;
            i = i + 1;
        }
        proof {
            assert(-1152921504606846976 <= re as int <= 1152921504606846976)
                by (nonlinear_arith)
                requires
                    -(l as int) * 35184372088832 <= re as int
                        <= (l as int) * 35184372088832,
                    l <= 16384;
            assert(-1152921504606846976 <= im as int <= 1152921504606846976)
                by (nonlinear_arith)
                requires
                    -(l as int) * 35184372088832 <= im as int
                        <= (l as int) * 35184372088832,
                    l <= 16384;
            assert(0 <= (re as int) * (re as int)
                <= 1152921504606846976int * 1152921504606846976) by (nonlinear_arith)
                requires -1152921504606846976 <= re as int <= 1152921504606846976;
            assert(0 <= (im as int) * (im as int)
                <= 1152921504606846976int * 1152921504606846976) by (nonlinear_arith)
                requires -1152921504606846976 <= im as int <= 1152921504606846976;
        }
        let re2: i128 = (re as i128) * (re as i128);
        let im2: i128 = (im as i128) * (im as i128);
        let m: i128 = re2 + im2;
        let q: i128 = m / 1152921504606846976;
        proof {
            lemma_div_pos_is_pos(m as int, 1152921504606846976);
            lemma_div_is_ordered(m as int,
                1152921504606846976int * 1152921504606846976 * 2, 1152921504606846976);
            assert(q < 0x10000000000000000);
        }
        let mag: u64 = q as u64;
        assert(mag == spec_mag(sq, k as int));
        mags.push(mag);
        j = j + 1;
    }

    // Pass two: the band's total magnitude, for the noise floor.
    let mut total: u128 = 0;
    let mut t: usize = 0;
    while t < nb
        invariant
            t <= nb,
            nb == mags@.len(),
            nb <= 8191,
            k_lo == spec_k_lo(sri),
            forall|u: int| 0 <= u < nb as int
                ==> #[trigger] mags@[u] == spec_mag(sq, k_lo as int + u),
            total == spec_total_upto(sq, sri, t as int),
            nb == spec_num_bins(sri),
            total <= (t as int) * 0xFFFFFFFFFFFFFFFF,
        decreases nb - t,
    {
        proof {
            assert((t as int) * 0xFFFFFFFFFFFFFFFF + 0xFFFFFFFFFFFFFFFF
                == ((t as int) + 1) * 0xFFFFFFFFFFFFFFFF) by (nonlinear_arith);
            assert(((t as int) + 1) * 0xFFFFFFFFFFFFFFFF
                <= 8191 * 0xFFFFFFFFFFFFFFFF) by (nonlinear_arith)
                requires t as int + 1 <= 8191;
        }
        total = total + mags[t] as u128;
        t = t + 1;
    }
    assert(total == spec_total(sq, sri));
    proof {
        assert(total <= 8191 * 0xFFFFFFFFFFFFFFFF) by (nonlinear_arith)
            requires total <= (nb as int) * 0xFFFFFFFFFFFFFFFF, nb <= 8191;
    }

    // Pass three: keep the local maxima that clear the noise floor.
    let mut peaks: Vec<SpectralPeak> = Vec::new();
    let mut p: usize = 0;
    while p < nb
        invariant
            p <= nb,
            nb == mags@.len(),
            nb <= 8191,
            1 <= k_lo <= 113,
            k_lo + nb - 1 == k_hi,
            k_hi <= 8191,
            k_hi as int <= 14745600000int / (sri * 100),
            8000 <= sr <= 192000,
            sri == sr as int,
            total <= 8191 * 0xFFFFFFFFFFFFFFFF,
            k_lo == spec_k_lo(sri),
            nb == spec_num_bins(sri),
            forall|u: int| 0 <= u < nb as int
                ==> #[trigger] mags@[u] == spec_mag(sq, k_lo as int + u),
            total == spec_total(sq, sri),
            peaks@ == spec_peaks_upto(sq, sri, p as int),
            forall|u: int| 0 <= u < peaks@.len() ==> (#[trigger] peaks@[u]).wf(),
        decreases nb - p,
    {
        let mk: u64 = mags[p];
        let rises: bool = p == 0 || mk > mags[p - 1];
        let falls: bool = p == nb - 1 || mk >= mags[p + 1];
        proof {
            assert((mk as int) * (nb as int) <= 0xFFFFFFFFFFFFFFFFint * 8191)
                by (nonlinear_arith)
                requires 0 <= mk <= 0xFFFFFFFFFFFFFFFF, 0 <= nb <= 8191;
        }
        let loud: bool = (mk as u128) * (nb as u128) > 8 * total;
        if rises && falls && loud {
            let k: u64 = (k_lo + p) as u64;
            proof {
                assert(0 <= (k as int) * sri * 100 <= 8191int * 19200000)
                    by (nonlinear_arith)
                    requires 1 <= k as int <= 8191, 8000 <= sri <= 192000;
            }
            let num: u64 = k * (sr as u64) * 100;
            let freq: u64 = num / 16384;
            proof {
                // The band keeps frequencies audible: between 1 and 1_000_000.
                assert((k as int) * sri * 100 >= 800000) by (nonlinear_arith)
                    requires k as int >= 1, sri >= 8000;
                lemma_div_is_ordered(16384, num as int, 16384);
                assert(freq >= 1);
                // k is at most k_hi, which is at most 14745600000 / (sri * 100),
                // so num = k * sri * 100 is at most 14745600000 = 16384 * 900000.
                let d: int = sri * 100;
                let qq: int = 14745600000int / d;
                lemma_fundamental_div_mod(14745600000, d);
                assert(d * qq <= 14745600000);
                assert((k as int) * d <= qq * d) by (nonlinear_arith)
                    requires k as int <= qq, d >= 1;
                assert(num as int <= 14745600000) by (nonlinear_arith)
                    requires num as int == (k as int) * sri * 100, d == sri * 100,
                        (k as int) * d <= qq * d, d * qq <= 14745600000;
                assert(14745600000int == 16384 * 900000);
                lemma_multiply_divide_le(num as int, 16384, 900000);
            }
            let pk = SpectralPeak { freq_centihertz: freq, magnitude: mk };
            peaks.push(pk);
        }
        p = p + 1;
    }
    peaks
}

/// An all-zero window has an all-zero transform: every partial sum of every
/// bin vanishes.
pub proof fn lemma_silent_sums_zero(s: Seq<i32>, l: int, k: int, n: int)
    requires
        forall|i: int| 0 <= i < s.len() ==> #[trigger] s[i] == 0,
        n <= s.len(),
    ensures
        spec_re_sum(s, l, k, n) == 0,
        spec_im_sum(s, l, k, n) == 0,
    decreases n,
{
    if n > 0 {
        lemma_silent_sums_zero(s, l, k, n - 1);
        assert(s[n - 1] == 0);
        assert(s[n - 1] * spec_hann(n - 1, l) * spec_cos_q15((4 * k * (n - 1)) % 65536) == 0)
            by (nonlinear_arith)
            requires s[n - 1] == 0;
        assert(s[n - 1] * spec_hann(n - 1, l) * spec_sin_q15((4 * k * (n - 1)) % 65536) == 0)
            by (nonlinear_arith)
            requires s[n - 1] == 0;
    }
}

/// An all-zero window has an all-zero band total.
pub proof fn lemma_silent_total_zero(s: Seq<i32>, sr: int, n: int)
    requires
        forall|i: int| 0 <= i < s.len() ==> #[trigger] s[i] == 0,
    ensures
        spec_total_upto(s, sr, n) == 0,
    decreases n,
{
    if n > 0 {
        lemma_silent_total_zero(s, sr, n - 1);
        lemma_silent_sums_zero(s, spec_window_len(s), spec_k_lo(sr) + n - 1,
            spec_window_len(s));
    }
}

/// Silence yields no peaks at all: on an all-zero window the analyzer's
/// result is the empty sequence, whatever the sample rate.
pub proof fn lemma_silence_has_no_peaks(s: Seq<i32>, sr: int)
    ensures
        (forall|i: int| 0 <= i < s.len() ==> #[trigger] s[i] == 0)
            ==> spec_analyze(s, sr) == Seq::<SpectralPeak>::empty(),
{
    if forall|i: int| 0 <= i < s.len() ==> #[trigger] s[i] == 0 {
        lemma_silent_peaks_upto_empty(s, sr, spec_num_bins(sr));
    }
}

/// Helper induction for [`lemma_silence_has_no_peaks`]: no prefix of the
/// band holds a peak when the window is silent.
proof fn lemma_silent_peaks_upto_empty(s: Seq<i32>, sr: int, n: int)
    requires
        forall|i: int| 0 <= i < s.len() ==> #[trigger] s[i] == 0,
    ensures
        spec_peaks_upto(s, sr, n) == Seq::<SpectralPeak>::empty(),
    decreases n,
{
    if n > 0 {
        lemma_silent_peaks_upto_empty(s, sr, n - 1);
        let k = spec_k_lo(sr) + n - 1;
        lemma_silent_sums_zero(s, spec_window_len(s), k, spec_window_len(s));
        lemma_silent_total_zero(s, sr, spec_num_bins(sr));
        assert(spec_mag(s, k) == 0);
        assert(spec_mag(s, k) * spec_num_bins(sr) == 0) by (nonlinear_arith)
            requires spec_mag(s, k) == 0;
        assert(!spec_is_peak(s, sr, n - 1));
    }
}

} // verus!
