//! Mixdown: the unweighted arithmetic mean across channels, frame by frame.
//!
//! Both pipeline orderings funnel through this: the mix-after-resample path
//! averages the resampler's per-channel outputs, and the equal-rate shortcut
//! averages the accumulated channels directly.

use vstd::prelude::*;
use crate::bits::{bits_add, bits_div_int, spec_add_bits, spec_div_bits};

verus! {

/// All channel runs have exactly `frames` samples.
pub open spec fn rectangular(chans: Seq<Seq<u32>>, frames: int) -> bool {
    forall|c: int| 0 <= c < chans.len() ==> (#[trigger] chans[c]).len() == frames
}

/// Running sum of the first `k` channels at frame `f`, started from a
/// positive zero, exactly as a running accumulator adds them.
pub open spec fn mix_sum(chans: Seq<Seq<u32>>, f: int, k: int) -> u32
    decreases k,
{
    if k <= 0 {
        0u32
    } else {
        spec_add_bits(mix_sum(chans, f, k - 1), chans[k - 1][f]) as u32
    }
}

/// The mean of all channels at frame `f`: their sum divided by the channel
/// count.
pub open spec fn mix_frame(chans: Seq<Seq<u32>>, f: int) -> u32 {
    spec_div_bits(mix_sum(chans, f, chans.len() as int), chans.len() as u32) as u32
}

/// Average a rectangular set of channel runs into one run of the same
/// length.
pub fn mix_down(chans: &Vec<Vec<u32>>, frames: usize) -> (out: Vec<u32>)
    requires
        1 <= chans@.len() <= u32::MAX,
        rectangular(chans.deep_view(), frames as int),
    ensures
        out@.len() == frames,
        forall|f: int| 0 <= f < frames ==> out@[f] == mix_frame(chans.deep_view(), f),
{
    let n: usize = chans.len();
    let mut out: Vec<u32> = Vec::new();
    let mut f: usize = 0;
    while f < frames
        invariant
            1 <= chans@.len() <= u32::MAX,
            rectangular(chans.deep_view(), frames as int),
            n == chans@.len(),
            f <= frames,
            out@.len() == f,
            forall|j: int| 0 <= j < f ==> out@[j] == mix_frame(chans.deep_view(), j),
        decreases frames - f,
    {
        let mut acc: u32 = 0;
        let mut c: usize = 0;
        proof {
            assert(mix_sum(chans.deep_view(), f as int, 0) == 0u32);
        }
        while c < n
            invariant
                1 <= chans@.len() <= u32::MAX,
                rectangular(chans.deep_view(), frames as int),
                n == chans@.len(),
                f < frames,
                c <= n,
                acc == mix_sum(chans.deep_view(), f as int, c as int),
            decreases n - c,
        {
            proof {
                assert(chans.deep_view()[c as int] == chans@[c as int].deep_view());
                assert(chans@[c as int].deep_view() == chans@[c as int]@);
            }
            acc = bits_add(acc, chans[c][f]);
            c = c + 1;
        }
        let m: u32 = bits_div_int(acc, n as u32);
        proof {
            assert(m == mix_frame(chans.deep_view(), f as int));
        }
        out.push(m);
        f = f + 1;
    }
    out
}

} // verus!
