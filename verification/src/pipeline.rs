//! The decode pipeline: resample preparation around the streaming filter,
//! mixdown ordering, optional quantization, and the decoder handle with its
//! single-slot output buffer cache.

use vstd::prelude::*;
use crate::accum::{AccumView, DecodedFrame, spec_push};
use crate::bits::{bits_quantize, spec_quantize};
use crate::mix::{mix_down, mix_frame, rectangular};
use crate::plan::{plan_blocks, Block, nblocks_of, block_take};
use crate::DecodeError;

verus! {

/// Output sample representation, fixed per pipeline instance.
#[derive(Clone, Copy, PartialEq, Eq, Structural, Debug)]
pub enum SampleFormat {
    /// Binary32 bit patterns.
    Binary32,
    /// Signed 16-bit samples, quantized from the binary32 pipeline.
    Int16,
}

/// When the mixdown runs relative to resampling, fixed per pipeline
/// instance.
#[derive(Clone, Copy, PartialEq, Eq, Structural, Debug)]
pub enum MixOrder {
    /// Mix to one channel while accumulating, resample the mixed channel.
    BeforeResample,
    /// Resample every channel, then average the resampled channels.
    AfterResample,
}

/// The final single-channel output buffer at the target rate.
pub enum PcmBuffer {
    /// Binary32 bit patterns.
    Binary32(Vec<u32>),
    /// Quantized 16-bit samples.
    Int16(Vec<i16>),
}

impl PcmBuffer {
    /// Element count.
    pub open spec fn spec_len(&self) -> int {
        match self {
            PcmBuffer::Binary32(v) => v@.len() as int,
            PcmBuffer::Int16(v) => v@.len() as int,
        }
    }
}

/// The buffer `b` holds exactly the mono run `mono` rendered in `format`:
/// the bit patterns themselves, or each sample quantized.
pub open spec fn buffer_matches(b: &PcmBuffer, format: SampleFormat, mono: Seq<u32>) -> bool {
    match b {
        PcmBuffer::Binary32(v) => format == SampleFormat::Binary32 && v@ == mono,
        PcmBuffer::Int16(v) => format == SampleFormat::Int16 && v@.len() == mono.len()
            && (forall|i: int| 0 <= i < mono.len() ==> v@[i] == spec_quantize(mono[i])),
    }
}

/// The per-frame mean of a set of channel runs, as one mono sequence.
pub open spec fn mixed_of(runs: Seq<Seq<u32>>, frames: int) -> Seq<u32> {
    Seq::new(frames as nat, |f: int| mix_frame(runs, f))
}

/// Quantize a mono buffer of bit patterns to 16-bit samples, clamping and
/// rounding every sample.
pub fn quantize_buffer(mono: &Vec<u32>) -> (out: Vec<i16>)
    ensures
        out@.len() == mono@.len(),
        forall|i: int|
            0 <= i < mono@.len() ==> out@[i] == spec_quantize(mono@[i]) && -32768 <= out@[i]
                <= 32767,
{
    let mut out: Vec<i16> = Vec::new();
    let mut i: usize = 0;
    while i < mono.len()
        invariant
            i <= mono@.len(),
            out@.len() == i,
            forall|j: int| 0 <= j < i ==> out@[j] == spec_quantize(mono@[j]),
        decreases mono@.len() - i,
    {
        out.push(bits_quantize(mono[i]));
        i = i + 1;
    }
    out
}

/// Render a mono run in the given format.
pub fn finalize_mono(format: SampleFormat, mono: Vec<u32>) -> (r: PcmBuffer)
    ensures
        buffer_matches(&r, format, mono@),
        r.spec_len() == mono@.len(),
{
    match format {
        SampleFormat::Binary32 => PcmBuffer::Binary32(mono),
        SampleFormat::Int16 => PcmBuffer::Int16(quantize_buffer(&mono)),
    }
}

/// Outcome of preparing the multi-channel (mix-after) resample.
pub enum ResamplePrep {
    /// The mono output is already complete: the input was degenerate, or the
    /// rates were equal and only the mixdown was needed.
    Done(Vec<u32>),
    /// The host must feed the planned blocks (each zero-padded to the chunk
    /// size) and then three all-zero flush blocks through the streaming
    /// filter.
    Chunked(Vec<Block>),
}

/// All runs have the length of the first one.
pub open spec fn runs_rectangular(runs: Seq<Seq<u32>>) -> bool {
    forall|c: int| 0 <= c < runs.len() ==> (#[trigger] runs[c]).len() == runs[0].len()
}

/// Prepare the multi-channel resample. Degenerate input (no channels, or a
/// zero rate) short-circuits to an empty output; equal rates short-circuit
/// to the plain per-frame mean; otherwise the input is planned into blocks
/// for the streaming filter. Ragged channel runs are a configuration error.
pub fn resample_prepare(samples: &Vec<Vec<u32>>, source_rate: u32, target_rate: u32) -> (r: Result<
    ResamplePrep,
    DecodeError,
>)
    requires
        samples@.len() <= u32::MAX,
    ensures
        (samples@.len() == 0 || source_rate == 0 || target_rate == 0) ==> (r matches Ok(
            ResamplePrep::Done(v),
        ) && v@.len() == 0),
        samples@.len() > 0 && source_rate > 0 && target_rate > 0 && !runs_rectangular(
            samples.deep_view(),
        ) ==> (r matches Err(e) && e == DecodeError::ResamplerConfigFailure),
        samples@.len() > 0 && source_rate > 0 && target_rate > 0 && runs_rectangular(
            samples.deep_view(),
        ) && source_rate == target_rate ==> (r matches Ok(ResamplePrep::Done(v)) && v@ == mixed_of(
            samples.deep_view(),
            samples.deep_view()[0].len() as int,
        )),
        samples@.len() > 0 && source_rate > 0 && target_rate > 0 && runs_rectangular(
            samples.deep_view(),
        ) && source_rate != target_rate ==> (r matches Ok(ResamplePrep::Chunked(blocks))
            && blocks@.len() == nblocks_of(samples.deep_view()[0].len() as int) && (forall|b: int|
            0 <= b < blocks@.len() ==> (#[trigger] blocks@[b]).start == b * 4096
                && blocks@[b].take == block_take(samples.deep_view()[0].len() as int, b))),
{
    if samples.len() == 0 || source_rate == 0 || target_rate == 0 {
        return Ok(ResamplePrep::Done(Vec::new()));
    }
    let in_frames: usize = samples[0].len();
    let mut c: usize = 1;
    while c < samples.len()
        invariant
            1 <= c <= samples@.len(),
            source_rate > 0,
            target_rate > 0,
            in_frames == samples.deep_view()[0].len(),
            forall|k: int| 0 <= k < c ==> (#[trigger] samples.deep_view()[k]).len() == in_frames,
        decreases samples@.len() - c,
    {
        proof {
            assert(samples.deep_view()[c as int] == samples@[c as int].deep_view());
            assert(samples@[c as int].deep_view() =~= samples@[c as int]@);
        }
        if samples[c].len() != in_frames {
            proof {
                assert(!runs_rectangular(samples.deep_view()));
            }
            return Err(DecodeError::ResamplerConfigFailure);
        }
        c = c + 1;
    }
    proof {
        assert(runs_rectangular(samples.deep_view()));
        assert(rectangular(samples.deep_view(), in_frames as int));
    }
    if source_rate == target_rate {
        let mixed = mix_down(samples, in_frames);
        proof {
            assert(mixed@ =~= mixed_of(samples.deep_view(), in_frames as int));
        }
        Ok(ResamplePrep::Done(mixed))
    } else {
        Ok(ResamplePrep::Chunked(plan_blocks(in_frames)))
    }
}

/// Outcome of preparing the single-channel (mix-first) resample.
pub enum MonoPrep {
    /// The mono output is already complete.
    Done(Vec<u32>),
    /// The host must resample this whole run in a single fixed-ratio call.
    SingleShot(Vec<u32>),
}

/// Prepare the single-channel resample: degenerate input yields an empty
/// output, equal rates pass the run through unchanged, and otherwise the
/// whole run is handed out for one single-shot resample sized to its length.
pub fn resample_prepare_mono(mono: Vec<u32>, source_rate: u32, target_rate: u32) -> (r: MonoPrep)
    ensures
        (mono@.len() == 0 || source_rate == 0 || target_rate == 0) ==> (r matches MonoPrep::Done(v)
            && v@.len() == 0),
        mono@.len() > 0 && source_rate > 0 && target_rate > 0 && source_rate == target_rate ==> (
        r matches MonoPrep::Done(v) && v@ == mono@),
        mono@.len() > 0 && source_rate > 0 && target_rate > 0 && source_rate != target_rate ==> (
        r matches MonoPrep::SingleShot(v) && v@ == mono@),
{
    if mono.len() == 0 || source_rate == 0 || target_rate == 0 {
        MonoPrep::Done(Vec::new())
    } else if source_rate == target_rate {
        MonoPrep::Done(mono)
    } else {
        MonoPrep::SingleShot(mono)
    }
}

/// Average the streaming filter's per-channel outputs into the final mono
/// run. An empty channel set yields an empty run; ragged channel outputs are
/// a configuration error.
pub fn mixdown_output(out_ch: &Vec<Vec<u32>>) -> (r: Result<Vec<u32>, DecodeError>)
    requires
        out_ch@.len() <= u32::MAX,
    ensures
        out_ch@.len() == 0 ==> (r matches Ok(v) && v@.len() == 0),
        out_ch@.len() > 0 && !runs_rectangular(out_ch.deep_view()) ==> (r matches Err(e) && e
            == DecodeError::ResamplerConfigFailure),
        out_ch@.len() > 0 && runs_rectangular(out_ch.deep_view()) ==> (r matches Ok(v) && v@
            == mixed_of(out_ch.deep_view(), out_ch.deep_view()[0].len() as int)),
{
    if out_ch.len() == 0 {
        return Ok(Vec::new());
    }
    let out_frames: usize = out_ch[0].len();
    let mut c: usize = 1;
    while c < out_ch.len()
        invariant
            1 <= c <= out_ch@.len(),
            out_frames == out_ch.deep_view()[0].len(),
            forall|k: int| 0 <= k < c ==> (#[trigger] out_ch.deep_view()[k]).len() == out_frames,
        decreases out_ch@.len() - c,
    {
        proof {
            assert(out_ch.deep_view()[c as int] == out_ch@[c as int].deep_view());
            assert(out_ch@[c as int].deep_view() =~= out_ch@[c as int]@);
        }
        if out_ch[c].len() != out_frames {
            proof {
                assert(!runs_rectangular(out_ch.deep_view()));
            }
            return Err(DecodeError::ResamplerConfigFailure);
        }
        c = c + 1;
    }
    proof {
        assert(runs_rectangular(out_ch.deep_view()));
        assert(rectangular(out_ch.deep_view(), out_frames as int));
    }
    let mixed = mix_down(out_ch, out_frames);
    proof {
        assert(mixed@ =~= mixed_of(out_ch.deep_view(), out_frames as int));
    }
    Ok(mixed)
}

/// Folding a whole frame sequence through the accumulator: the state after
/// the first `i` frames, or the first fatal error.
pub open spec fn accum_fold(v: AccumView, fs: Seq<DecodedFrame>, i: int) -> Result<
    AccumView,
    DecodeError,
>
    decreases i,
{
    if i <= 0 {
        Ok(v)
    } else {
        match accum_fold(v, fs, i - 1) {
            Ok(w) => spec_push(w, fs[i - 1].channels as int, fs[i - 1].samples@),
            Err(e) => Err(e),
        }
    }
}

/// The source rate after a frame sequence: the rate of the last frame, or
/// the fallback when no frame arrived.
pub open spec fn last_rate(fs: Seq<DecodedFrame>, fallback: u32) -> u32 {
    if fs.len() == 0 {
        fallback
    } else {
        fs[fs.len() - 1].rate
    }
}

/// The empty accumulator state for a mixdown ordering.
pub open spec fn empty_accum(mix_first: bool) -> AccumView {
    AccumView {
        mix_first,
        channels: 0,
        runs: Seq::<Seq<u32>>::empty(),
        mono: Seq::<u32>::empty(),
    }
}

} // verus!
