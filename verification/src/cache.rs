//! The decoder handle: pipeline configuration, the single-slot output
//! buffer cache, and the orchestration of a whole decode call around the
//! host-driven resampler.
//!
//! The slot holds at most one output buffer. A successful decode replaces
//! it, a failed decode leaves it untouched, and an explicit release clears
//! it. The host serializes access (one lock per handle); every operation
//! here is a complete critical section.

use vstd::prelude::*;
use crate::accum::{AccumView, ChannelAccumulator, DecodedFrame};
use crate::pipeline::{
    accum_fold,
    buffer_matches,
    empty_accum,
    last_rate,
    mixed_of,
    mixdown_output,
    resample_prepare,
    resample_prepare_mono,
    runs_rectangular,
    MonoPrep,
    MixOrder,
    PcmBuffer,
    ResamplePrep,
    SampleFormat,
};
use crate::plan::{block_take, nblocks_of, valid_out_len, Block};
use crate::DecodeError;

verus! {

/// What a decode call needs next from the host.
pub enum DecodeStep {
    /// The output buffer was computed and stored in the slot.
    Stored,
    /// Feed each block of every run (zero-padded to the chunk size) and
    /// three all-zero flush blocks through the streaming filter, then call
    /// `complete_chunked` with the filter's per-channel outputs.
    NeedChunked {
        /// The accumulated per-channel runs.
        runs: Vec<Vec<u32>>,
        /// The block partition of the runs.
        blocks: Vec<Block>,
    },
    /// Resample this run in one fixed-ratio call sized to its length, then
    /// call `complete_mono` with the output.
    NeedSingle {
        /// The accumulated mixed channel.
        mono: Vec<u32>,
    },
}

/// The mono run a decode call stores without the host's resampler: the
/// empty run for degenerate input, the accumulated data (mixed if needed)
/// when the rates are equal, and nothing otherwise.
pub open spec fn pipeline_done_mono(w: AccumView, sr: u32, target: u32) -> Option<Seq<u32>> {
    if w.mix_first {
        if w.mono.len() == 0 || sr == 0 || target == 0 {
            Some(Seq::<u32>::empty())
        } else if sr == target {
            Some(w.mono)
        } else {
            None
        }
    } else {
        if w.runs.len() == 0 || sr == 0 || target == 0 {
            Some(Seq::<u32>::empty())
        } else if sr == target {
            Some(mixed_of(w.runs, w.runs[0].len() as int))
        } else {
            None
        }
    }
}

/// An error met while folding frames never goes away.
proof fn lemma_fold_err_persists(v: AccumView, fs: Seq<DecodedFrame>, i: int, j: int)
    requires
        0 <= i <= j,
        accum_fold(v, fs, i) matches Err(_),
    ensures
        accum_fold(v, fs, j) == accum_fold(v, fs, i),
    decreases j - i,
{
    if j > i {
        lemma_fold_err_persists(v, fs, i, j - 1);
    }
}

/// A one-shot decode-then-fetch pipeline with a single-slot output cache.
pub struct PCMDecoder {
    /// Output sample representation.
    pub format: SampleFormat,
    /// Mixdown ordering.
    pub mix_order: MixOrder,
    /// The slot: the most recently produced output buffer, if any.
    pub buffer: Option<PcmBuffer>,
}

impl PCMDecoder {
    /// Element count of the cached buffer; zero when the slot is empty.
    pub open spec fn spec_size(&self) -> int {
        match self.buffer {
            Option::None => 0,
            Option::Some(b) => b.spec_len(),
        }
    }

    /// The cached binary32 contents, when the slot holds that format.
    pub open spec fn contents_b32(&self) -> Option<Seq<u32>> {
        match self.buffer {
            Option::Some(PcmBuffer::Binary32(v)) => Some(v@),
            _ => Option::None,
        }
    }

    /// The cached 16-bit contents, when the slot holds that format.
    pub open spec fn contents_i16(&self) -> Option<Seq<i16>> {
        match self.buffer {
            Option::Some(PcmBuffer::Int16(v)) => Some(v@),
            _ => Option::None,
        }
    }

    /// Whether this accumulator ordering mixes before resampling.
    pub open spec fn spec_mix_first(&self) -> bool {
        self.mix_order == MixOrder::BeforeResample
    }

    /// A pipeline in the classic configuration: binary32 output, mixdown
    /// after resampling, empty slot.
    pub fn new() -> (r: Self)
        ensures
            r.format == SampleFormat::Binary32,
            r.mix_order == MixOrder::AfterResample,
            r.buffer matches Option::None,
    {
        PCMDecoder {
            format: SampleFormat::Binary32,
            mix_order: MixOrder::AfterResample,
            buffer: Option::None,
        }
    }

    /// A pipeline with an explicit output representation and mixdown
    /// ordering, empty slot.
    pub fn with_mode(format: SampleFormat, mix_order: MixOrder) -> (r: Self)
        ensures
            r.format == format,
            r.mix_order == mix_order,
            r.buffer matches Option::None,
    {
        PCMDecoder { format, mix_order, buffer: Option::None }
    }

    /// The cached buffer.
    pub fn buffer(&self) -> (r: &Option<PcmBuffer>)
        ensures
            r == &self.buffer,
    {
        &self.buffer
    }

    /// Element count of the cached buffer, or zero if the slot is empty.
    pub fn get_size(&self) -> (r: usize)
        ensures
            r == self.spec_size(),
    {
        match &self.buffer {
            Option::None => 0,
            Option::Some(PcmBuffer::Binary32(v)) => v.len(),
            Option::Some(PcmBuffer::Int16(v)) => v.len(),
        }
    }

    /// Clear the slot. Idempotent.
    pub fn free(&mut self)
        ensures
            final(self).buffer matches Option::None,
            final(self).spec_size() == 0,
            final(self).format == old(self).format,
            final(self).mix_order == old(self).mix_order,
    {
        self.buffer = Option::None;
    }

    /// Copy the cached binary32 buffer into the front of `dest`, which the
    /// caller has sized from a prior `get_size`. Fails, leaving `dest`
    /// untouched, if the slot is empty, holds the other format, or `dest`
    /// is too small.
    pub fn copy(&self, dest: &mut Vec<u32>) -> (r: bool)
        ensures
            r == (self.contents_b32() matches Some(s) && old(dest)@.len() >= s.len()),
            r ==> (self.contents_b32() matches Some(s) && final(dest)@ == s + old(dest)@.skip(
                s.len() as int,
            )),
            !r ==> final(dest)@ == old(dest)@,
    {
        match &self.buffer {
            Option::Some(PcmBuffer::Binary32(v)) => {
                if dest.len() < v.len() {
                    return false;
                }
                let n: usize = v.len();
                let total: usize = dest.len();
                let mut out: Vec<u32> = Vec::new();
                let mut i: usize = 0;
                while i < n
                    invariant
                        i <= n,
                        n == v@.len() <= total,
                        out@ =~= v@.subrange(0, i as int),
                    decreases n - i,
                {
                    out.push(v[i]);
                    i = i + 1;
                }
                while i < total
                    invariant
                        n <= i <= total,
                        total == dest@.len(),
                        n == v@.len(),
                        out@ =~= v@ + dest@.subrange(n as int, i as int),
                    decreases total - i,
                {
                    out.push(dest[i]);
                    i = i + 1;
                }
                proof {
                    assert(out@ =~= v@ + dest@.skip(n as int));
                }
                core::mem::swap(dest, &mut out);
                true
            },
            _ => false,
        }
    }

    /// Copy the cached 16-bit buffer into the front of `dest`, under the
    /// same contract as `copy`.
    pub fn copy_i16(&self, dest: &mut Vec<i16>) -> (r: bool)
        ensures
            r == (self.contents_i16() matches Some(s) && old(dest)@.len() >= s.len()),
            r ==> (self.contents_i16() matches Some(s) && final(dest)@ == s + old(dest)@.skip(
                s.len() as int,
            )),
            !r ==> final(dest)@ == old(dest)@,
    {
        match &self.buffer {
            Option::Some(PcmBuffer::Int16(v)) => {
                if dest.len() < v.len() {
                    return false;
                }
                let n: usize = v.len();
                let total: usize = dest.len();
                let mut out: Vec<i16> = Vec::new();
                let mut i: usize = 0;
                while i < n
                    invariant
                        i <= n,
                        n == v@.len() <= total,
                        out@ =~= v@.subrange(0, i as int),
                    decreases n - i,
                {
                    out.push(v[i]);
                    i = i + 1;
                }
                while i < total
                    invariant
                        n <= i <= total,
                        total == dest@.len(),
                        n == v@.len(),
                        out@ =~= v@ + dest@.subrange(n as int, i as int),
                    decreases total - i,
                {
                    out.push(dest[i]);
                    i = i + 1;
                }
                proof {
                    assert(out@ =~= v@ + dest@.skip(n as int));
                }
                core::mem::swap(dest, &mut out);
                true
            },
            _ => false,
        }
    }

    /// Run the accumulation and rate decisions of one decode call over the
    /// frames the codec produced, in arrival order. Degenerate or equal-rate
    /// input is finished and stored here; otherwise the accumulated data is
    /// handed back for the host's resampler and the slot is left untouched.
    /// On any error the slot is left untouched.
    pub fn decode(&mut self, frames: &Vec<DecodedFrame>, fallback_rate: u32, target_rate: u32)
        -> (r: Result<DecodeStep, DecodeError>)
        ensures
            final(self).format == old(self).format,
            final(self).mix_order == old(self).mix_order,
            ({
                let fold = accum_fold(
                    empty_accum(old(self).spec_mix_first()),
                    frames@,
                    frames@.len() as int,
                );
                let sr = last_rate(frames@, fallback_rate);
                &&& (fold matches Err(e) ==> r matches Err(e2) && e2 == e && final(self).buffer
                    == old(self).buffer)
                &&& (fold matches Ok(w) ==> match pipeline_done_mono(w, sr, target_rate) {
                    Some(m) => r matches Ok(DecodeStep::Stored) && (final(self).buffer matches Some(
                        b,
                    ) && buffer_matches(&b, old(self).format, m)),
                    Option::None => final(self).buffer == old(self).buffer && (if old(
                        self,
                    ).spec_mix_first() {
                        r matches Ok(DecodeStep::NeedSingle { mono }) && mono@ == w.mono
                    } else {
                        r matches Ok(DecodeStep::NeedChunked { runs, blocks }) && runs.deep_view()
                            == w.runs && blocks@.len() == nblocks_of(w.runs[0].len() as int) && (
                        forall|b: int|
                            0 <= b < blocks@.len() ==> (#[trigger] blocks@[b]).start == b * 4096
                                && blocks@[b].take == block_take(w.runs[0].len() as int, b))
                    }),
                })
            }),
    {
        let mix_first: bool = match self.mix_order {
            MixOrder::BeforeResample => true,
            MixOrder::AfterResample => false,
        };
        let mut acc = ChannelAccumulator::new(mix_first);
        let mut source_rate: u32 = fallback_rate;
        let mut i: usize = 0;
        proof {
            assert(acc.v() == empty_accum(mix_first));
        }
        while i < frames.len()
            invariant
                i <= frames@.len(),
                acc.wf(),
                acc.v().mix_first == mix_first,
                mix_first == (self.mix_order == MixOrder::BeforeResample),
                Ok::<AccumView, DecodeError>(acc.v()) == accum_fold(
                    empty_accum(mix_first),
                    frames@,
                    i as int,
                ),
                source_rate == last_rate(frames@.subrange(0, i as int), fallback_rate),
                self.format == old(self).format,
                self.mix_order == old(self).mix_order,
                self.buffer == old(self).buffer,
            decreases frames@.len() - i,
        {
            let fr: &DecodedFrame = &frames[i];
            source_rate = fr.rate;
            let res = acc.push_frame(fr.channels as usize, &fr.samples);
            match res {
                Ok(_) => {},
                Err(e) => {
                    proof {
                        assert(accum_fold(empty_accum(mix_first), frames@, i as int + 1)
                            == Err::<AccumView, DecodeError>(e));
                        lemma_fold_err_persists(
                            empty_accum(mix_first),
                            frames@,
                            i as int + 1,
                            frames@.len() as int,
                        );
                    }
                    return Err(e);
                },
            }
            proof {
                assert(frames@.subrange(0, i as int + 1).last() == frames@[i as int]);
            }
            i = i + 1;
        }
        proof {
            assert(frames@.subrange(0, frames@.len() as int) =~= frames@);
        }
        if mix_first {
            let ghost w = acc.v();
            let mono = acc.into_mono();
            match resample_prepare_mono(mono, source_rate, target_rate) {
                MonoPrep::Done(v) => {
                    proof {
                        if w.mono.len() == 0 || source_rate == 0 || target_rate == 0 {
                            assert(v@ =~= Seq::<u32>::empty());
                        }
                    }
                    self.store_mono(v);
                    Ok(DecodeStep::Stored)
                },
                MonoPrep::SingleShot(v) => Ok(DecodeStep::NeedSingle { mono: v }),
            }
        } else {
            let ghost w = acc.v();
            let runs = acc.into_runs();
            proof {
                assert(runs@.len() <= u32::MAX);
                assert forall|c: int| 0 <= c < runs.deep_view().len() implies (
                #[trigger] runs.deep_view()[c]).len() == runs.deep_view()[0].len() by {
                    assert(runs.deep_view()[c] == runs@[c].deep_view());
                    assert(runs@[c].deep_view() =~= runs@[c]@);
                    assert(runs.deep_view()[0] == runs@[0].deep_view());
                    assert(runs@[0].deep_view() =~= runs@[0]@);
                }
            }
            match resample_prepare(&runs, source_rate, target_rate) {
                Ok(ResamplePrep::Done(v)) => {
                    proof {
                        if w.runs.len() == 0 || source_rate == 0 || target_rate == 0 {
                            assert(v@ =~= Seq::<u32>::empty());
                        }
                    }
                    self.store_mono(v);
                    Ok(DecodeStep::Stored)
                },
                Ok(ResamplePrep::Chunked(blocks)) => Ok(DecodeStep::NeedChunked { runs, blocks }),
                Err(e) => {
                    proof {
                        assert(false);
                    }
                    Err(e)
                },
            }
        }
    }

    /// Mix the streaming filter's outputs down, truncate to the output
    /// length the real input implies (the extra frames produced from the
    /// zero padding and the flush blocks are not part of the signal), and
    /// store the result in the slot. On a ragged output the slot is left
    /// untouched.
    pub fn complete_chunked(
        &mut self,
        out_ch: &Vec<Vec<u32>>,
        in_frames: usize,
        source_rate: u32,
        target_rate: u32,
    ) -> (r: Result<(), DecodeError>)
        requires
            out_ch@.len() <= u32::MAX,
            source_rate >= 1,
            in_frames * target_rate + source_rate <= u64::MAX,
        ensures
            final(self).format == old(self).format,
            final(self).mix_order == old(self).mix_order,
            (out_ch@.len() == 0 || runs_rectangular(out_ch.deep_view())) ==> (r matches Ok(_)),
            out_ch@.len() > 0 && !runs_rectangular(out_ch.deep_view()) ==> (r matches Err(_)),
            r matches Err(e) ==> e == DecodeError::ResamplerConfigFailure && final(self).buffer
                == old(self).buffer,
            r matches Ok(_) ==> (final(self).buffer matches Some(b) && buffer_matches(
                &b,
                old(self).format,
                ({
                    let full = if out_ch@.len() == 0 {
                        Seq::<u32>::empty()
                    } else {
                        mixed_of(out_ch.deep_view(), out_ch.deep_view()[0].len() as int)
                    };
                    let valid = valid_out_len(
                        in_frames as int,
                        source_rate as int,
                        target_rate as int,
                    );
                    if full.len() <= valid {
                        full
                    } else {
                        full.subrange(0, valid)
                    }
                }),
            )),
            r matches Ok(_) ==> final(self).spec_size() == ({
                let full_len = if out_ch@.len() == 0 {
                    0int
                } else {
                    out_ch.deep_view()[0].len() as int
                };
                let valid = valid_out_len(in_frames as int, source_rate as int, target_rate as int);
                if full_len <= valid {
                    full_len
                } else {
                    valid
                }
            }),
    {
        match mixdown_output(out_ch) {
            Ok(mut mono) => {
                proof {
                    if out_ch@.len() == 0 {
                        assert(mono@ =~= Seq::<u32>::empty());
                    }
                }
                let valid_wide: u64 = ((in_frames as u64) * (target_rate as u64) + (source_rate
                    as u64) - 1) / (source_rate as u64);
                if valid_wide < mono.len() as u64 {
                    mono.truncate(valid_wide as usize);
                }
                self.store_mono(mono);
                Ok(())
            },
            Err(e) => Err(e),
        }
    }

    /// Store the single-shot resampler's output in the slot.
    pub fn complete_mono(&mut self, mono: Vec<u32>)
        ensures
            final(self).format == old(self).format,
            final(self).mix_order == old(self).mix_order,
            final(self).buffer matches Some(b) && buffer_matches(&b, old(self).format, mono@),
    {
        self.store_mono(mono);
    }

    /// Render a mono run in this pipeline's format and replace the slot.
    fn store_mono(&mut self, mono: Vec<u32>)
        ensures
            final(self).format == old(self).format,
            final(self).mix_order == old(self).mix_order,
            final(self).buffer matches Some(b) && buffer_matches(&b, old(self).format, mono@),
            final(self).spec_size() == mono@.len(),
    {
        let b = crate::pipeline::finalize_mono(self.format, mono);
        self.buffer = Some(b);
    }
}

/// Channel-mismatch fatality: once a non-empty frame has fixed the channel
/// count, a later non-empty frame reporting a different count fails the
/// whole fold with a channel-count-mismatch error — and `decode` then leaves
/// the cached buffer untouched, by its own contract.
pub proof fn lemma_mismatch_is_fatal(v0: AccumView, fs: Seq<DecodedFrame>, j: int)
    requires
        0 <= j < fs.len(),
        accum_fold(v0, fs, j) matches Ok(w) && w.channels != 0 && w.channels != fs[j].channels,
        fs[j].channels > 0,
        fs[j].samples@.len() > 0,
    ensures
        accum_fold(v0, fs, fs.len() as int) == Err::<AccumView, DecodeError>(
            DecodeError::ChannelCountMismatch,
        ),
{
    assert(accum_fold(v0, fs, j + 1) == Err::<AccumView, DecodeError>(
        DecodeError::ChannelCountMismatch,
    ));
    lemma_fold_err_persists(v0, fs, j + 1, fs.len() as int);
}

/// Degenerate-input short-circuit: with no accumulated data, or a zero
/// source or target rate, a decode finishes at once with an empty output
/// buffer and no error.
pub proof fn lemma_degenerate_short_circuit(w: AccumView, sr: u32, target: u32)
    requires
        (if w.mix_first {
            w.mono.len() == 0
        } else {
            w.runs.len() == 0
        }) || sr == 0 || target == 0,
    ensures
        pipeline_done_mono(w, sr, target) == Some(Seq::<u32>::empty()),
{
}

/// Equal-rate identity: with equal nonzero rates and data present, a decode
/// finishes without any resampling filter and stores exactly one sample per
/// accumulated frame: the per-frame channel mean in the mix-after ordering,
/// and the already mixed run unchanged in the mix-first ordering.
pub proof fn lemma_equal_rate_identity(w: AccumView, rate: u32)
    requires
        rate > 0,
    ensures
        !w.mix_first && w.runs.len() > 0 ==> pipeline_done_mono(w, rate, rate) == Some(
            mixed_of(w.runs, w.runs[0].len() as int),
        ) && pipeline_done_mono(w, rate, rate).unwrap().len() == w.runs[0].len(),
        w.mix_first && w.mono.len() > 0 ==> pipeline_done_mono(w, rate, rate) == Some(w.mono),
{
}

/// Cache lifecycle: an empty slot reports size zero and refuses both copies,
/// whatever was cached before; a populated slot's size is exactly the
/// element count either copy hands out.
pub proof fn lemma_cache_lifecycle(d: PCMDecoder)
    requires
        d.buffer matches Option::None,
    ensures
        d.spec_size() == 0,
        !(d.contents_b32() matches Some(_)),
        !(d.contents_i16() matches Some(_)),
{
}

/// A populated slot's reported size equals the element count that a
/// successful copy writes.
pub proof fn lemma_size_matches_copy(d: PCMDecoder)
    ensures
        d.contents_b32() matches Some(s) ==> s.len() == d.spec_size(),
        d.contents_i16() matches Some(s) ==> s.len() == d.spec_size(),
{
}

} // verus!
