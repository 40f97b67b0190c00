//! Resample planning for the chunked streaming strategy: the input is cut
//! into fixed-size blocks of 4096 frames per channel; the final partial
//! block is zero-padded up to the block size, and three extra all-zero
//! blocks are fed after the real input to flush the filter's group delay.

use vstd::prelude::*;
use vstd::arithmetic::div_mod::{
    lemma_fundamental_div_mod,
    lemma_mod_bound,
    lemma_div_is_ordered,
    lemma_div_multiples_vanish,
    lemma_div_multiples_vanish_fancy,
};

verus! {

/// Frames per input block fed to the streaming resampler.
pub const CHUNK_FRAMES: usize = 4096;

/// All-zero blocks fed after the real input to flush the filter delay.
pub const FLUSH_BLOCKS: usize = 3;

/// One block of the chunked plan: `take` real frames starting at `start`;
/// a block with `take` below the chunk size is zero-padded when fed.
#[derive(Clone, Copy, PartialEq, Eq, Structural, Debug)]
pub struct Block {
    /// First frame of the block.
    pub start: usize,
    /// Real frames in the block, at most the chunk size.
    pub take: usize,
}

/// Number of blocks that cover `in_frames` frames.
pub open spec fn nblocks_of(in_frames: int) -> int {
    if in_frames <= 0 {
        0
    } else {
        (in_frames - 1) / 4096 + 1
    }
}

/// The output length the real input implies at the target/source ratio,
/// rounded up: frames produced beyond it come only from the zero padding
/// and the flush blocks.
pub open spec fn valid_out_len(in_frames: int, source: int, target: int) -> int {
    (in_frames * target + source - 1) / source
}

/// The real length of block `b`.
pub open spec fn block_take(in_frames: int, b: int) -> int {
    if in_frames - b * 4096 >= 4096 {
        4096
    } else {
        in_frames - b * 4096
    }
}

/// Cut `in_frames` frames into consecutive blocks of at most 4096 frames:
/// every block but the last is full, and together they cover the input
/// exactly.
pub fn plan_blocks(in_frames: usize) -> (r: Vec<Block>)
    ensures
        r@.len() == nblocks_of(in_frames as int),
        forall|b: int|
            0 <= b < r@.len() ==> (#[trigger] r@[b]).start == b * 4096 && r@[b].take == block_take(
                in_frames as int,
                b,
            ),
        forall|b: int|
            0 <= b < r@.len() ==> 1 <= (#[trigger] r@[b]).take <= 4096 && r@[b].start + r@[b].take
                <= in_frames,
        in_frames > 0 ==> r@.len() >= 1 && r@[r@.len() - 1].start + r@[r@.len() - 1].take
            == in_frames,
{
    let mut r: Vec<Block> = Vec::new();
    if in_frames == 0 {
        return r;
    }
    let nblocks: usize = (in_frames - 1) / CHUNK_FRAMES + 1;
    proof {
        lemma_fundamental_div_mod(in_frames as int - 1, 4096);
        lemma_mod_bound(in_frames as int - 1, 4096);
    }
    let mut b: usize = 0;
    while b < nblocks
        invariant
            0 < in_frames <= usize::MAX,
            nblocks == nblocks_of(in_frames as int),
            (nblocks - 1) * 4096 <= in_frames - 1,
            nblocks * 4096 >= in_frames,
            b <= nblocks,
            r@.len() == b,
            forall|k: int|
                0 <= k < b ==> (#[trigger] r@[k]).start == k * 4096 && r@[k].take == block_take(
                    in_frames as int,
                    k,
                ),
        decreases nblocks - b,
    {
        proof {
            assert(b * 4096 <= (nblocks - 1) * 4096) by (nonlinear_arith)
                requires
                    b <= nblocks - 1,
            ;
        }
        let start: usize = b * CHUNK_FRAMES;
        let take: usize = if in_frames - start >= CHUNK_FRAMES {
            CHUNK_FRAMES
        } else {
            in_frames - start
        };
        r.push(Block { start, take });
        b = b + 1;
    }
    proof {
        assert forall|k: int| 0 <= k < r@.len() implies 1 <= (#[trigger] r@[k]).take <= 4096
            && r@[k].start + r@[k].take <= in_frames by {
            assert(r@[k].start == k * 4096);
            if k < r@.len() - 1 {
                assert(k * 4096 + 4096 <= (nblocks - 1) * 4096) by (nonlinear_arith)
                    requires
                        k + 1 <= nblocks - 1,
                ;
            }
        }
        let last = r@.len() - 1;
        assert(r@[last].start + r@[last].take == in_frames);
    }
    r
}

/// The implied output length is enough: converted back at the source rate it
/// covers every real input frame, and it is never less than the plainly
/// converted count.
pub proof fn lemma_valid_out_len_covers(in_frames: int, source: int, target: int)
    requires
        in_frames >= 0,
        source >= 1,
        target >= 1,
    ensures
        valid_out_len(in_frames, source, target) * source >= in_frames * target,
        valid_out_len(in_frames, source, target) >= in_frames * target / source,
{
    let v = valid_out_len(in_frames, source, target);
    lemma_fundamental_div_mod(in_frames * target + source - 1, source);
    lemma_mod_bound(in_frames * target + source - 1, source);
    assert(source * v == in_frames * target + source - 1 - ((in_frames * target + source - 1)
        % source));
    assert(v * source >= in_frames * target) by (nonlinear_arith)
        requires
            source * v >= in_frames * target,
    ;
    lemma_div_is_ordered(in_frames * target, v * source, source);
    lemma_div_multiples_vanish(v, source);
    assert(v * source / source == v) by {
        assert(v * source == source * v) by (nonlinear_arith);
    };
}

/// Flush completeness at the completion step: if the filter's per-channel
/// output reaches the ceiling-converted input length — the host feeds every
/// planned block, the final one zero-padded, and then the flush blocks, so
/// that the filter's group delay cannot swallow trailing audio — then the
/// stored length (the output truncated to the valid length) is exactly that
/// ceiling, and no smaller than the plainly converted input count.
pub proof fn lemma_chunked_stored_covers_input(
    full_len: int,
    in_frames: int,
    source: int,
    target: int,
)
    requires
        in_frames >= 0,
        source >= 1,
        target >= 1,
        full_len >= valid_out_len(in_frames, source, target),
    ensures
        ({
            let valid = valid_out_len(in_frames, source, target);
            let stored = if full_len <= valid {
                full_len
            } else {
                valid
            };
            stored == valid && stored >= in_frames * target / source
        }),
{
    lemma_valid_out_len_covers(in_frames, source, target);
}

/// Flush completeness for the chunked strategy: the real blocks cover the
/// whole input, so if every fed block (real or flush) yields at least
/// `out_per_block` output frames with `out_per_block * source >= 4096 *
/// target`, the total output is at least the input length converted by the
/// target/source ratio — no trailing audio is lost to the block partition or
/// the filter delay.
pub proof fn lemma_flush_completeness(
    in_frames: int,
    source: int,
    target: int,
    out_per_block: int,
)
    requires
        in_frames >= 0,
        source >= 1,
        target >= 1,
        out_per_block >= 0,
        out_per_block * source >= 4096 * target,
    ensures
        nblocks_of(in_frames) * 4096 >= in_frames,
        (nblocks_of(in_frames) + 3) * out_per_block >= in_frames * target / source,
        (nblocks_of(in_frames) + 3) * out_per_block >= valid_out_len(in_frames, source, target),
        valid_out_len(in_frames, source, target) * source >= in_frames * target,
{
    let nb = nblocks_of(in_frames);
    lemma_valid_out_len_covers(in_frames, source, target);
    if in_frames <= 0 {
        assert(in_frames == 0);
        assert(nb == 0);
        assert(0 * target / source == 0) by {
            lemma_div_multiples_vanish(0, source);
        };
        assert(valid_out_len(0, source, target) == (source - 1) / source);
        assert((source - 1) / source == 0) by {
            lemma_div_multiples_vanish_fancy(0, source - 1, source);
        };
    } else {
        lemma_fundamental_div_mod(in_frames - 1, 4096);
        lemma_mod_bound(in_frames - 1, 4096);
        assert(nb * 4096 >= in_frames) by (nonlinear_arith)
            requires
                nb == (in_frames - 1) / 4096 + 1,
                in_frames - 1 == 4096 * ((in_frames - 1) / 4096) + (in_frames - 1) % 4096,
                0 <= (in_frames - 1) % 4096 < 4096,
        ;
        assert((nb + 3) * out_per_block * source >= in_frames * target) by (nonlinear_arith)
            requires
                nb >= 1,
                out_per_block >= 0,
                source >= 1,
                target >= 1,
                in_frames >= 1,
                nb * 4096 >= in_frames,
                out_per_block * source >= 4096 * target,
        ;
        lemma_div_is_ordered(in_frames * target, (nb + 3) * out_per_block * source, source);
        lemma_div_multiples_vanish((nb + 3) * out_per_block, source);
        assert((nb + 3) * out_per_block * source / source == (nb + 3) * out_per_block) by {
            assert((nb + 3) * out_per_block * source == source * ((nb + 3) * out_per_block))
                by (nonlinear_arith);
        };
        let x = (nb + 3) * out_per_block;
        assert(x * source >= in_frames * target);
        assert(x * source + source - 1 == source * x + (source - 1)) by (nonlinear_arith);
        lemma_div_is_ordered(
            in_frames * target + source - 1,
            source * x + (source - 1),
            source,
        );
        lemma_div_multiples_vanish_fancy(x, source - 1, source);
    }
}

} // verus!
