//! A verified core for a one-shot audio decode pipeline: accumulation of
//! decoded frames into rectangular per-channel buffers, resample planning,
//! mixdown and quantization over raw binary32 bit patterns, and a single-slot
//! output buffer cache.

use vstd::prelude::*;

pub mod accum;
pub mod bits;
pub mod cache;
pub mod mix;
pub mod pipeline;
pub mod plan;
pub mod policy;

verus! {

/// The error taxonomy of a decode call. Recoverable conditions (a decoder
/// reset, a transient per-packet decode error, a foreign-track packet) are
/// handled inside the packet loop and never appear here.
#[derive(Clone, Copy, PartialEq, Eq, Structural, Debug)]
pub enum DecodeError {
    /// The container format could not be identified.
    ProbeFailure,
    /// No decodable default track was found.
    NoTrackFound,
    /// The decoder for the selected track could not be constructed.
    DecoderInitFailure,
    /// The channel count changed in the middle of the stream.
    ChannelCountMismatch,
    /// A non-recoverable I/O fault while reading packets.
    IOFailure,
    /// Invalid rate, ratio or block parameters for the resampler.
    ResamplerConfigFailure,
    /// A null pointer was handed across the foreign-function boundary.
    NullPointer,
}

} // verus!
