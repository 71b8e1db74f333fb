//! Resampling at a fixed ratio: the sample movement, block bookkeeping and
//! delay compensation of realtime and non-realtime resamplers, and the
//! bookkeeping of a realtime-safe resampling channel.
use vstd::prelude::*;

pub mod buffers;
pub mod channel;
pub mod interleave;
pub mod non_realtime;
pub mod realtime;
pub mod request;
pub mod ring;

pub use channel::{
    buffer_capacity_frames, channel_latency_frames, resampler_input_frames, resampling_channel_inner, ReadStatus,
    ResamplingCons,
    ResamplingProd,
};
pub use interleave::{deinterleave, interleave};
pub use non_realtime::{NonRtCursor, NonRtResampler, NonRtStage};
pub use realtime::RtResampler;

verus! {

/// The quality of the resampling algorithm to use.
#[derive(Debug, Clone, Copy, PartialEq, Eq, Structural)]
pub enum ResampleQuality {
    /// Low quality, fast performance
    ///
    /// This uses the `FastFixedIn` resampler of rubato with linear
    /// interpolation and a chunk size of `1024`.
    Low,
    /// Great quality, medium performance
    ///
    /// This is recommended for most applications. This uses the `FftFixedIn`
    /// resampler of rubato with a chunk size of `1024` and 2 sub chunks.
    Normal,
}

impl Default for ResampleQuality {
    fn default() -> (q: Self)
        ensures
            q == ResampleQuality::Normal,
    {
        ResampleQuality::Normal
    }
}

/// The kind of rubato resampler that a quality selects.
#[derive(Debug, Clone, Copy, PartialEq, Eq, Structural)]
pub enum ResamplerKind {
    /// `FastFixedIn` with linear interpolation.
    Fast,
    /// `FftFixedIn`.
    Fft,
}

/// The parameters of the rubato resampler that a quality selects.
#[derive(Debug, Clone, Copy, PartialEq, Eq, Structural)]
pub struct ResamplerParams {
    /// The kind of resampler.
    pub kind: ResamplerKind,
    /// The input chunk size in frames.
    pub chunk_size: usize,
    /// The number of sub chunks (for `FftFixedIn`).
    pub sub_chunks: usize,
    /// The sample rate of the input stream.
    pub in_sample_rate: u32,
    /// The sample rate of the output stream.
    pub out_sample_rate: u32,
    /// The number of channels.
    pub num_channels: usize,
}

/// The chunk size of the resamplers that a quality selects.
pub const CHUNK_SIZE: usize = 1024;

/// The sub chunks of the FFT resampler.
pub const FFT_SUB_CHUNKS: usize = 2;

impl ResamplerParams {
    /// The resampler that `quality` selects for resampling `num_channels`
    /// channels from `in_sample_rate` to `out_sample_rate`: a fast linear
    /// resampler for low quality, and an FFT resampler otherwise, both with
    /// chunks of `1024` frames (and 2 sub chunks for the FFT resampler).
    pub fn from_quality(in_sample_rate: u32, out_sample_rate: u32, num_channels: usize, quality: ResampleQuality) -> (p: Self)
        requires
            in_sample_rate != 0,
            out_sample_rate != 0,
            num_channels != 0,
        ensures
            p.kind == (match quality {
                ResampleQuality::Low => ResamplerKind::Fast,
                ResampleQuality::Normal => ResamplerKind::Fft,
            }),
            p.chunk_size == CHUNK_SIZE,
            p.sub_chunks == FFT_SUB_CHUNKS,
            p.in_sample_rate == in_sample_rate,
            p.out_sample_rate == out_sample_rate,
            p.num_channels == num_channels,
    {
        let kind = match quality {
            ResampleQuality::Low => ResamplerKind::Fast,
            ResampleQuality::Normal => ResamplerKind::Fft,
        };
        ResamplerParams {
            kind,
            chunk_size: CHUNK_SIZE,
            sub_chunks: FFT_SUB_CHUNKS,
            in_sample_rate,
            out_sample_rate,
            num_channels,
        }
    }
}

} // verus!
