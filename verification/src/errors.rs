//! The error taxonomy of the pipeline: one typed variant per failure cause,
//! so that callers can branch without matching on message strings.

use vstd::prelude::*;

verus! {

/// Every failure the capture-to-chords pipeline can report.
///
/// Capture-layer variants (`DurationTooShort`, `DeviceUnavailable`,
/// `ConfigUnavailable`, `DeviceStreamError`) abort the whole pipeline;
/// classification-layer variants (`EmptySpectrum`, `InvalidDuration`) report
/// bad data; `InferenceUnavailable` is recoverable by falling back to the
/// rule-based chord ranking.
#[derive(PartialEq, Eq, Structural, Clone, Copy, Debug, Hash)]
pub enum Error {
    /// The requested capture window is shorter than the supported minimum.
    DurationTooShort,
    /// No default input device exists.
    DeviceUnavailable,
    /// The input device cannot report a supported stream format.
    ConfigUnavailable,
    /// The device reported a stream-level error while recording.
    DeviceStreamError,
    /// No spectral peak exceeded the noise floor (silence or sub-threshold input).
    EmptySpectrum,
    /// A non-positive analysis duration was supplied.
    InvalidDuration,
    /// The learned inferencer is absent or was handed a malformed feature vector.
    InferenceUnavailable,
}

} // verus!
