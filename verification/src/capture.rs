//! The capture side of the pipeline: the bounded sample accumulator that a
//! device callback appends into, the fixed-duration precondition, and the
//! one-shot handoff that turns the accumulator into a read-only window.
//!
//! Opening the physical device and running its stream is I/O and lives with
//! the caller; everything here is the decision logic around that stream.

use vstd::prelude::*;

use crate::errors::Error;

verus! {

/// The shortest capture window the pipeline accepts, in milliseconds.
pub const MIN_CAPTURE_MS: u32 = 200;

/// Fixed-point unit for samples: 32768 stands for full scale (1.0).
pub const SAMPLE_SCALE: i32 = 32768;

/// A sample value forced into the fixed-point range `[-32768, 32768]`.
pub open spec fn spec_clamp_sample(x: int) -> int {
    if x < -32768 {
        -32768
    } else if x > 32768 {
        32768
    } else {
        x
    }
}

/// A sample rate forced into the supported range of 8 kHz to 192 kHz.
pub open spec fn spec_clamp_rate(r: int) -> int {
    if r < 8000 {
        8000
    } else if r > 192000 {
        192000
    } else {
        r
    }
}

/// Forces a sample value into the fixed-point range.
pub fn clamp_sample(x: i32) -> (r: i32)
    ensures
        r == spec_clamp_sample(x as int),
{
    if x < -32768 {
        -32768
    } else if x > 32768 {
        32768
    } else {
        x
    }
}

/// A fixed window of mono fixed-point samples with its sample rate: the unit
/// the spectral analyzer operates on. Read-only once built.
#[derive(Debug)]
pub struct AudioWindow {
    /// The samples, each within `[-SAMPLE_SCALE, SAMPLE_SCALE]`.
    pub samples: Vec<i32>,
    /// The sample rate in hertz, within 8000 to 192000.
    pub sample_rate_hz: u32,
}

impl AudioWindow {
    /// Every sample is in range and the rate is a supported one.
    pub open spec fn wf(self) -> bool {
        &&& forall|i: int|
            0 <= i < self.samples@.len() ==> -32768 <= #[trigger] self.samples@[i] <= 32768
        &&& 8000 <= self.sample_rate_hz <= 192000
    }

    /// Builds a window, forcing samples and rate into their supported ranges.
    pub fn new(samples: Vec<i32>, sample_rate_hz: u32) -> (r: AudioWindow)
        ensures
            r.wf(),
            r.samples@.len() == samples@.len(),
            forall|i: int|
                0 <= i < samples@.len()
                    ==> #[trigger] r.samples@[i] == spec_clamp_sample(samples@[i] as int),
            r.sample_rate_hz == spec_clamp_rate(sample_rate_hz as int),
    {
        let mut clamped: Vec<i32> = Vec::new();
        let mut i: usize = 0;
        while i < samples.len()
            invariant
                i <= samples@.len(),
                clamped@.len() == i as int,
                forall|j: int|
                    0 <= j < i as int
                        ==> #[trigger] clamped@[j] == spec_clamp_sample(samples@[j] as int),
            decreases samples@.len() - i,
        {
            clamped.push(clamp_sample(samples[i]));
            i = i + 1;
        }
        let rate: u32 = if sample_rate_hz < 8000 {
            8000
        } else if sample_rate_hz > 192000 {
            192000
        } else {
            sample_rate_hz
        };
        AudioWindow { samples: clamped, sample_rate_hz: rate }
    }

    /// The number of samples in the window.
    pub fn len(&self) -> (r: usize)
        ensures
            r == self.samples@.len(),
    {
        self.samples.len()
    }
}

/// The bounded accumulator of one capture session. The device callback is its
/// only writer; after the stream is torn down it is consumed exactly once by
/// [`finish_capture`], so no reader ever observes a buffer still being written.
#[derive(Debug)]
pub struct SampleBuffer {
    /// The samples delivered so far, each already forced into range.
    pub data: Vec<i32>,
}

impl SampleBuffer {
    /// Everything the callback has appended is in fixed-point range.
    pub open spec fn wf(self) -> bool {
        forall|i: int| 0 <= i < self.data@.len() ==> -32768 <= #[trigger] self.data@[i] <= 32768
    }

    /// An empty accumulator.
    pub fn new() -> (r: SampleBuffer)
        ensures
            r.wf(),
            r.data@.len() == 0,
    {
        SampleBuffer { data: Vec::new() }
    }

    /// Appends one delivered block of samples, forcing each into range; the
    /// samples already accumulated are kept unchanged, in order.
    pub fn append_block(&mut self, block: &Vec<i32>)
        requires
            old(self).wf(),
        ensures
            final(self).wf(),
            final(self).data@.len() == old(self).data@.len() + block@.len(),
            forall|i: int|
                0 <= i < old(self).data@.len()
                    ==> #[trigger] final(self).data@[i] == old(self).data@[i],
            forall|i: int|
                0 <= i < block@.len()
                    ==> #[trigger] final(self).data@[old(self).data@.len() + i]
                        == spec_clamp_sample(block@[i] as int),
    {
        let mut i: usize = 0;
        while i < block.len()
            invariant
                i <= block@.len(),
                self.wf(),
                self.data@.len() == old(self).data@.len() + i as int,
                forall|j: int|
                    0 <= j < old(self).data@.len()
                        ==> #[trigger] self.data@[j] == old(self).data@[j],
                forall|j: int|
                    0 <= j < i as int
                        ==> #[trigger] self.data@[old(self).data@.len() + j]
                            == spec_clamp_sample(block@[j] as int),
            decreases block@.len() - i,
        {
            self.data.push(clamp_sample(block[i]));
            i = i + 1;
        }
    }
}

/// Checks the fixed-duration precondition: a capture below
/// [`MIN_CAPTURE_MS`] is rejected before any device is opened.
pub fn validate_capture_duration(duration_ms: u32) -> (r: Result<(), Error>)
    ensures
        r is Ok <==> duration_ms >= MIN_CAPTURE_MS,
        r is Err ==> r->Err_0 == Error::DurationTooShort,
{
    if duration_ms < MIN_CAPTURE_MS {
        Err(Error::DurationTooShort)
    } else {
        Ok(())
    }
}

/// The number of samples a capture of the given duration is expected to
/// deliver: used to size the accumulator up front.
pub fn required_samples(sample_rate_hz: u32, channels: u16, duration_ms: u32) -> (r: u64)
    requires
        sample_rate_hz <= 1_000_000,
        duration_ms <= 3_600_000,
    ensures
        r == (sample_rate_hz * duration_ms / 1000) * channels,
{
    proof {
        assert(sample_rate_hz * duration_ms <= 3_600_000_000_000) by (nonlinear_arith)
            requires sample_rate_hz <= 1_000_000, duration_ms <= 3_600_000;
    }
    let per_channel: u64 = sample_rate_hz as u64 * duration_ms as u64 / 1000;
    proof {
        assert(per_channel * channels <= 3_600_000_000 * 65536) by (nonlinear_arith)
            requires per_channel <= 3_600_000_000, channels <= 65536;
    }
    per_channel * channels as u64
}

/// The one-shot handoff at the end of a capture session. The caller must
/// have torn the stream down first, so the buffer it moves in here has no
/// other writer. A device-level error observed by the callback during
/// capture is surfaced in preference to returning partial data.
pub fn finish_capture(buffer: SampleBuffer, sample_rate_hz: u32, had_stream_error: bool) -> (r:
    Result<AudioWindow, Error>)
    requires
        buffer.wf(),
    ensures
        had_stream_error <==> r is Err,
        r is Err ==> r->Err_0 == Error::DeviceStreamError,
        r is Ok ==> r->Ok_0.wf() && r->Ok_0.samples@ == buffer.data@
            && r->Ok_0.sample_rate_hz == spec_clamp_rate(sample_rate_hz as int),
{
    if had_stream_error {
        Err(Error::DeviceStreamError)
    } else {
        let rate: u32 = if sample_rate_hz < 8000 {
            8000
        } else if sample_rate_hz > 192000 {
            192000
        } else {
            sample_rate_hz
        };
        Ok(AudioWindow { samples: buffer.data, sample_rate_hz: rate })
    }
}

} // verus!
