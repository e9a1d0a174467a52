//! The pipeline seam for pre-recorded data: fixed-point samples in, notes
//! out. Capture hands its window to this seam; test suites target it
//! directly for determinism.

use vstd::prelude::*;

use crate::capture::{spec_clamp_sample, AudioWindow};
use crate::classify::{classify, spec_classify_notes};
use crate::errors::Error;
use crate::note::Note;
use crate::spectrum::{analyze, lemma_silence_has_no_peaks, spec_analyze, SpectralPeak};

verus! {

/// The sample rate this seam assumes of pre-recorded data, in hertz.
pub const PIPELINE_SAMPLE_RATE_HZ: u32 = 44100;

/// The samples as the analyzer sees them: forced into fixed-point range.
pub open spec fn spec_clamped_samples(s: Seq<i32>) -> Seq<i32> {
    Seq::new(s.len(), |i: int| spec_clamp_sample(s[i] as int) as i32)
}

/// The peaks the analyzer finds in pre-recorded data at the seam's rate.
pub open spec fn spec_audio_peaks(s: Seq<i32>) -> Seq<SpectralPeak> {
    spec_analyze(spec_clamped_samples(s), PIPELINE_SAMPLE_RATE_HZ as int)
}

/// Classifies pre-recorded audio data into notes: spectral analysis, then
/// pitch classification with harmonic suppression and deduplication.
///
/// Fails with `InvalidDuration` on a zero duration and with `EmptySpectrum`
/// when nothing exceeds the noise floor — in particular on silence (all-zero
/// samples), which is therefore distinguishable from an empty success. On
/// success the notes ascend strictly in frequency and at least one is
/// returned.
pub fn notes_from_audio(samples: &Vec<i32>, duration_ms: u32) -> (r: Result<Vec<Note>, Error>)
    ensures
        r is Err <==> (duration_ms == 0 || spec_audio_peaks(samples@).len() == 0),
        duration_ms == 0 ==> r is Err && r->Err_0 == Error::InvalidDuration,
        duration_ms > 0 && spec_audio_peaks(samples@).len() == 0 ==> r is Err && r->Err_0
            == Error::EmptySpectrum,
        duration_ms > 0 && (forall|i: int| 0 <= i < samples@.len() ==> #[trigger] samples@[i]
            == 0) ==> r is Err && r->Err_0 == Error::EmptySpectrum,
        r is Ok ==> r->Ok_0@ == spec_classify_notes(spec_audio_peaks(samples@)),
        r is Ok ==> r->Ok_0@.len() >= 1,
        r is Ok ==> forall|i: int, j: int| 0 <= i < j < r->Ok_0@.len()
            ==> (#[trigger] r->Ok_0@[i]).spec_frequency_centihertz()
                < (#[trigger] r->Ok_0@[j]).spec_frequency_centihertz(),
{
    let mut owned: Vec<i32> = Vec::new();
    let mut i: usize = 0;
    while i < samples.len()
        invariant
            i <= samples@.len(),
            owned@.len() == i as int,
            forall|t: int| 0 <= t < i as int ==> #[trigger] owned@[t] == samples@[t],
        decreases samples@.len() - i,
    {
        owned.push(samples[i]);
        i = i + 1;
    }
    proof {
        assert(owned@ =~= samples@);
    }
    let window = AudioWindow::new(owned, PIPELINE_SAMPLE_RATE_HZ);
    proof {
        assert(window.samples@ =~= spec_clamped_samples(samples@));
        if forall|t: int| 0 <= t < samples@.len() ==> #[trigger] samples@[t] == 0 {
            assert forall|t: int| 0 <= t < spec_clamped_samples(samples@).len()
                implies #[trigger] spec_clamped_samples(samples@)[t] == 0
            by {
                assert(samples@[t] == 0);
            }
            lemma_silence_has_no_peaks(spec_clamped_samples(samples@),
                PIPELINE_SAMPLE_RATE_HZ as int);
        }
    }
    let peaks = analyze(&window);
    classify(&peaks, duration_ms)
}

} // verus!
