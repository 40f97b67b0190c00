//! Channel accumulation: de-interleaving decoded frames into rectangular
//! per-channel runs, or mixing them down inline to one running channel.
//!
//! The channel count is fixed by the first non-empty frame; a later frame
//! that reports a different count is a fatal stream error. Frames with zero
//! channels or no samples are skipped. A trailing partial frame of an
//! interleaved buffer (fewer samples than channels) is dropped.

use vstd::prelude::*;
use vstd::arithmetic::div_mod::{lemma_fundamental_div_mod, lemma_mod_bound};
use crate::bits::{bits_add, bits_div_int, spec_add_bits, spec_div_bits};
use crate::DecodeError;

verus! {

/// One decoded unit handed over by the codec adapter: a sample rate, a
/// channel count, and interleaved samples as binary32 bit patterns.
pub struct DecodedFrame {
    /// Sample rate reported for this frame.
    pub rate: u32,
    /// Channel count reported for this frame.
    pub channels: u32,
    /// Interleaved samples, `channels` per whole frame.
    pub samples: Vec<u32>,
}

/// The mathematical state of an accumulator.
#[verifier::ext_equal]
pub ghost struct AccumView {
    /// Mix down inline per frame instead of keeping channel runs.
    pub mix_first: bool,
    /// Established channel count; 0 until the first non-empty frame.
    pub channels: int,
    /// Per-channel runs (empty in mix-first mode).
    pub runs: Seq<Seq<u32>>,
    /// The single running mixed channel (empty in mix-after mode).
    pub mono: Seq<u32>,
}

/// Whole frames contained in an interleaved buffer.
pub open spec fn frames_of(inter: Seq<u32>, channels: int) -> int {
    inter.len() as int / channels
}

/// The run of channel `c` inside an interleaved buffer.
pub open spec fn channel_slice(inter: Seq<u32>, channels: int, c: int) -> Seq<u32> {
    Seq::new(frames_of(inter, channels) as nat, |f: int| inter[f * channels + c])
}

/// Running sum of the first `k` samples of frame `f` of an interleaved
/// buffer, started from a positive zero.
pub open spec fn frame_sum(inter: Seq<u32>, channels: int, f: int, k: int) -> u32
    decreases k,
{
    if k <= 0 {
        0u32
    } else {
        spec_add_bits(frame_sum(inter, channels, f, k - 1), inter[f * channels + (k - 1)]) as u32
    }
}

/// The mean of frame `f` of an interleaved buffer.
pub open spec fn frame_mean(inter: Seq<u32>, channels: int, f: int) -> u32 {
    spec_div_bits(frame_sum(inter, channels, f, channels), channels as u32) as u32
}

/// All whole frames of an interleaved buffer, each mixed down to its mean.
pub open spec fn mixed_slice(inter: Seq<u32>, channels: int) -> Seq<u32> {
    Seq::new(frames_of(inter, channels) as nat, |f: int| frame_mean(inter, channels, f))
}

/// What accumulating one frame does to the state: skips, fails on a channel
/// mismatch, or appends to every run (or to the mixed channel).
pub open spec fn spec_push(v: AccumView, channels: int, inter: Seq<u32>) -> Result<
    AccumView,
    DecodeError,
> {
    if channels <= 0 || inter.len() == 0 {
        Ok(v)
    } else if v.channels != 0 && v.channels != channels {
        Err(DecodeError::ChannelCountMismatch)
    } else if v.mix_first {
        Ok(
            AccumView {
                channels,
                mono: v.mono + mixed_slice(inter, channels),
                ..v
            },
        )
    } else {
        Ok(
            AccumView {
                channels,
                runs: Seq::new(
                    channels as nat,
                    |c: int|
                        (if v.channels == 0 {
                            Seq::<u32>::empty()
                        } else {
                            v.runs[c]
                        }) + channel_slice(inter, channels, c),
                ),
                ..v
            },
        )
    }
}

/// Accumulates decoded frames into per-channel runs, or into one mixed
/// channel when configured to mix before resampling.
pub struct ChannelAccumulator {
    /// Mix down inline per frame instead of keeping channel runs.
    pub mix_first: bool,
    /// Established channel count; 0 until the first non-empty frame.
    pub channels: usize,
    /// Per-channel runs (mix-after mode).
    pub chans: Vec<Vec<u32>>,
    /// The single running mixed channel (mix-first mode).
    pub mono: Vec<u32>,
}

impl ChannelAccumulator {
    /// The mathematical state of this accumulator.
    pub open spec fn v(&self) -> AccumView {
        AccumView {
            mix_first: self.mix_first,
            channels: self.channels as int,
            runs: self.chans.deep_view(),
            mono: self.mono@,
        }
    }

    /// Structural invariant: the runs exist exactly for the established
    /// channels, are rectangular, and the unused representation is empty.
    pub open spec fn wf(&self) -> bool {
        &&& self.channels <= u32::MAX
        &&& (self.mix_first ==> self.chans@.len() == 0)
        &&& (!self.mix_first ==> self.mono@.len() == 0)
        &&& (!self.mix_first ==> self.chans@.len() == if self.channels == 0 {
            0int
        } else {
            self.channels as int
        })
        &&& (self.mix_first ==> (self.channels == 0 ==> self.mono@.len() == 0))
        &&& (forall|c: int|
            0 <= c < self.chans@.len() ==> (#[trigger] self.chans@[c])@.len()
                == self.frame_count())
    }

    /// Number of accumulated frames per channel.
    pub open spec fn frame_count(&self) -> int {
        if self.mix_first {
            self.mono@.len() as int
        } else if self.chans@.len() == 0 {
            0
        } else {
            self.chans@[0]@.len() as int
        }
    }

    /// A fresh accumulator with no established channel count.
    pub fn new(mix_first: bool) -> (r: Self)
        ensures
            r.wf(),
            r.v() == (AccumView {
                mix_first,
                channels: 0,
                runs: Seq::<Seq<u32>>::empty(),
                mono: Seq::<u32>::empty(),
            }),
    {
        let r = ChannelAccumulator { mix_first, channels: 0, chans: Vec::new(), mono: Vec::new() };
        proof {
            assert(r.v().runs =~= Seq::<Seq<u32>>::empty());
            assert(r.v().mono =~= Seq::<u32>::empty());
            assert(r.v() =~= (AccumView {
                mix_first,
                channels: 0,
                runs: Seq::<Seq<u32>>::empty(),
                mono: Seq::<u32>::empty(),
            }));
        }
        r
    }

    /// Established channel count (0 until the first non-empty frame).
    pub fn channel_count(&self) -> (r: usize)
        ensures
            r == self.v().channels,
    {
        self.channels
    }

    /// Accumulate one decoded frame.
    pub fn push_frame(&mut self, channels: usize, inter: &Vec<u32>) -> (r: Result<
        (),
        DecodeError,
    >)
        requires
            old(self).wf(),
            channels <= u32::MAX,
        ensures
            final(self).wf(),
            final(self).v().mix_first == old(self).v().mix_first,
            r matches Ok(_) ==> Ok::<AccumView, DecodeError>(final(self).v()) == spec_push(
                old(self).v(),
                channels as int,
                inter@,
            ),
            r matches Err(e) ==> Err::<AccumView, DecodeError>(e) == spec_push(
                old(self).v(),
                channels as int,
                inter@,
            ) && final(self).v() == old(self).v(),
    {
        if channels == 0 || inter.len() == 0 {
            return Ok(());
        }
        if self.channels != 0 && channels != self.channels {
            return Err(DecodeError::ChannelCountMismatch);
        }
        let ghost pre = self.v();
        let first: bool = self.channels == 0;
        let total: usize = inter.len();
        let frames: usize = total / channels;
        proof {
            let t = total as int;
            let ch = channels as int;
            lemma_fundamental_div_mod(t, ch);
            lemma_mod_bound(t, ch);
            let q = t / ch;
            let rm = t % ch;
            assert(t == ch * q + rm);
            assert(0 <= rm);
            assert(q * ch <= t) by (nonlinear_arith)
                requires
                    t == ch * q + rm,
                    0 <= rm,
            ;
            assert(frames as int == q);
            assert(frames * channels <= total);
        }
        if self.mix_first {
            self.channels = channels;
            let mut f: usize = 0;
            while f < frames
                invariant
                    0 < channels <= u32::MAX,
                    f <= frames,
                    frames == frames_of(inter@, channels as int),
                    total == inter@.len(),
                    frames * channels <= total,
                    self.mix_first,
                    self.chans@.len() == 0,
                    self.channels == channels,
                    self.mono@ == pre.mono + Seq::new(
                        f as nat,
                        |j: int| frame_mean(inter@, channels as int, j),
                    ),
                decreases frames - f,
            {
                let mut acc: u32 = 0;
                let mut c: usize = 0;
                proof {
                    assert(acc == frame_sum(inter@, channels as int, f as int, 0));
                }
                while c < channels
                    invariant
                        0 < channels <= u32::MAX,
                        f < frames,
                        total == inter@.len(),
                    frames * channels <= total,
                        c <= channels,
                        acc == frame_sum(inter@, channels as int, f as int, c as int),
                    decreases channels - c,
                {
                    proof {
                        assert(f * channels + c < frames * channels) by (nonlinear_arith)
                            requires
                                f < frames,
                                c < channels,
                                0 < channels,
                        ;
                    }
                    acc = bits_add(acc, inter[f * channels + c]);
                    c = c + 1;
                }
                let m: u32 = bits_div_int(acc, channels as u32);
                self.mono.push(m);
                proof {
                    assert(self.mono@ =~= pre.mono + Seq::new(
                        (f + 1) as nat,
                        |j: int| frame_mean(inter@, channels as int, j),
                    ));
                }
                f = f + 1;
            }
            proof {
                assert(self.mono@ =~= pre.mono + mixed_slice(inter@, channels as int));
                assert(self.v() =~= (AccumView {
                    channels: channels as int,
                    mono: pre.mono + mixed_slice(inter@, channels as int),
                    ..pre
                }));
            }
            Ok(())
        } else {
            let mut taken: Vec<Vec<u32>> = Vec::new();
            core::mem::swap(&mut self.chans, &mut taken);
            let ghost old_vecs = taken@;
            let mut new_chans: Vec<Vec<u32>> = Vec::new();
            let mut c: usize = 0;
            while c < channels
                invariant
                    0 < channels <= u32::MAX,
                    c <= channels,
                    frames == frames_of(inter@, channels as int),
                    total == inter@.len(),
                    frames * channels <= total,
                    first ==> taken@.len() == 0,
                    !first ==> taken@ =~= old_vecs.skip(c as int),
                    !first ==> old_vecs.len() == channels,
                    new_chans@.len() == c,
                    forall|k: int|
                        0 <= k < c ==> (#[trigger] new_chans@[k])@ =~= (if first {
                            Seq::<u32>::empty()
                        } else {
                            old_vecs[k]@
                        }) + channel_slice(inter@, channels as int, k),
                decreases channels - c,
            {
                let mut run: Vec<u32> = if first {
                    Vec::new()
                } else {
                    proof {
                        assert(taken@.len() == old_vecs.skip(c as int).len());
                    }
                    taken.remove(0)
                };
                proof {
                    if !first {
                        assert(run@ == old_vecs[c as int]@);
                        assert(taken@ =~= old_vecs.skip(c as int + 1));
                    }
                }
                let ghost run0 = run@;
                let mut f: usize = 0;
                while f < frames
                    invariant
                        0 < channels <= u32::MAX,
                        c < channels,
                        f <= frames,
                        total == inter@.len(),
                    frames * channels <= total,
                        run@ =~= run0 + Seq::new(f as nat, |j: int| inter@[j * channels + c]),
                    decreases frames - f,
                {
                    proof {
                        assert(f * channels + c < frames * channels) by (nonlinear_arith)
                            requires
                                f < frames,
                                c < channels,
                                0 < channels,
                        ;
                    }
                    let val: u32 = inter[f * channels + c];
                    run.push(val);
                    proof {
                        assert(run@ =~= run0 + Seq::new(
                            (f + 1) as nat,
                            |j: int| inter@[j * channels + c],
                        ));
                    }
                    f = f + 1;
                }
                proof {
                    assert(run@ =~= run0 + channel_slice(inter@, channels as int, c as int));
                }
                new_chans.push(run);
                c = c + 1;
            }
            self.chans = new_chans;
            self.channels = channels;
            proof {
                let target = Seq::new(
                    channels as nat,
                    |k: int|
                        (if pre.channels == 0 {
                            Seq::<u32>::empty()
                        } else {
                            pre.runs[k]
                        }) + channel_slice(inter@, channels as int, k),
                );
                assert forall|k: int| 0 <= k < channels implies #[trigger] self.chans.deep_view()[k]
                    =~= target[k] by {
                    assert(self.chans.deep_view()[k] == self.chans@[k].deep_view());
                    assert(self.chans@[k].deep_view() =~= self.chans@[k]@);
                    if pre.channels != 0 {
                        assert(pre.runs[k] == old_vecs[k].deep_view());
                        assert(old_vecs[k].deep_view() =~= old_vecs[k]@);
                    }
                }
                assert(self.chans.deep_view() =~= target);
                assert(self.v() =~= (AccumView {
                    channels: channels as int,
                    runs: target,
                    ..pre
                }));
                assert forall|k: int| 0 <= k < channels implies (#[trigger] self.chans@[k])@.len()
                    == self.frame_count() by {
                    assert(self.chans@[k]@.len() == target[k].len());
                    assert(self.chans@[0]@.len() == target[0].len());
                    if pre.channels != 0 {
                        assert(old(self).wf());
                        assert(pre.runs[k].len() == old(self).frame_count());
                        assert(pre.runs[0].len() == old(self).frame_count());
                    }
                }
            }
            Ok(())
        }
    }

    /// Hand the per-channel runs out for resampling.
    pub fn into_runs(self) -> (r: Vec<Vec<u32>>)
        ensures
            r.deep_view() == self.v().runs,
    {
        self.chans
    }

    /// Hand the running mixed channel out.
    pub fn into_mono(self) -> (r: Vec<u32>)
        ensures
            r@ == self.v().mono,
    {
        self.mono
    }
}

} // verus!
