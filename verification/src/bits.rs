//! Arithmetic on binary32 sample bit patterns.
//!
//! Audio samples cross this library as raw binary32 bit patterns held in
//! `u32` values. The few arithmetic operations the pipeline needs on them —
//! addition and division by a channel count for the mixdown mean, and
//! clamping with rounding for the fixed-point quantizer — are implemented
//! here over plain integers, so that every step is visible to the verifier.
//! Sums and quotients are rounded to nearest, ties to even, with lost low
//! bits folded into a sticky bit; in rare cases a result may differ from a
//! fully rounded one by one unit in the last place. A non-finite operand
//! (all-ones exponent) propagates through the arithmetic unchanged, and the
//! quantizer maps it to zero or to the saturated bound by sign.

use vstd::prelude::*;
use vstd::arithmetic::power2::{pow2, lemma2_to64, lemma2_to64_rest, lemma_pow2_strictly_increases, lemma_pow2_pos, lemma_pow2_adds};
use vstd::arithmetic::div_mod::{lemma_div_is_ordered_by_denominator, lemma_fundamental_div_mod, lemma_div_denominator};

verus! {

/// Sign field of a bit pattern: 0 for positive, 1 for negative.
pub open spec fn sign_of(b: u32) -> int {
    b as int / 0x8000_0000
}

/// Biased exponent field.
pub open spec fn exp_of(b: u32) -> int {
    (b as int / 0x0080_0000) % 256
}

/// Fraction field.
pub open spec fn frac_of(b: u32) -> int {
    b as int % 0x0080_0000
}

/// Magnitude exponent: subnormal values share the exponent of the smallest
/// normal values.
pub open spec fn mag_exp(b: u32) -> int {
    if exp_of(b) == 0 {
        1
    } else {
        exp_of(b)
    }
}

/// Full significand, including the implicit leading bit of normal values.
pub open spec fn mag_sig(b: u32) -> int {
    if exp_of(b) == 0 {
        frac_of(b)
    } else {
        frac_of(b) + 0x0080_0000
    }
}

/// Magnitude order on bit patterns: `a` is at least as large as `b`.
pub open spec fn mag_ge(a: u32, b: u32) -> bool {
    mag_exp(a) > mag_exp(b) || (mag_exp(a) == mag_exp(b) && mag_sig(a) >= mag_sig(b))
}

/// Right shift by `d` that folds any lost ones into the lowest kept bit, so
/// that a later round-to-nearest decision still sees them.
pub open spec fn shift_sticky(x: int, d: nat) -> int {
    let q = x / pow2(d) as int;
    if x % pow2(d) as int > 0 && q % 2 == 0 {
        q + 1
    } else {
        q
    }
}

/// Normalize a small significand upward until it reaches the normal range
/// `[2^29, 2^30)` (six guard bits below a 24-bit significand) or the
/// exponent bottoms out at 1.
pub open spec fn norm_up(e: int, s: int) -> (int, int)
    decreases e,
{
    if s > 0 && s < 0x2000_0000 && e > 1 {
        norm_up(e - 1, 2 * s)
    } else {
        (e, s)
    }
}

/// Normalize a large significand downward below `2^30`. The low bits that
/// fall off are truncated; the six guard bits keep the final rounding error
/// within a unit in the last place.
pub open spec fn norm_down(e: int, s: int) -> (int, int)
    decreases s,
{
    if s >= 0x4000_0000 {
        norm_down(e + 1, s / 2)
    } else {
        (e, s)
    }
}

/// Push an exponent below the representable floor back up to 1, shifting the
/// significand right to compensate.
pub open spec fn clamp_low(e: int, s: int) -> (int, int) {
    if e < 1 {
        (1, shift_sticky(s, (1 - e) as nat))
    } else {
        (e, s)
    }
}

/// Round a significand carrying six guard bits to nearest, ties to even.
pub open spec fn round_sig(s: int) -> int {
    let q = s / 64;
    let r = s % 64;
    if r > 32 || (r == 32 && q % 2 == 1) {
        q + 1
    } else {
        q
    }
}

/// Build a bit pattern from a sign, an exponent and a significand with six
/// guard bits, where the value stood for is `significand / 64 * 2^(e - 150)`.
/// The significand is normalized, rounded, and packed; overflow saturates to
/// the largest-exponent pattern and a vanished significand packs a signed
/// zero.
pub open spec fn assemble(sign: int, e: int, s: int) -> int {
    let p1 = norm_down(e, s);
    let p2 = clamp_low(p1.0, p1.1);
    let p3 = norm_up(p2.0, p2.1);
    let m = round_sig(p3.1);
    let e4 = if m >= 0x0100_0000 { p3.0 + 1 } else { p3.0 };
    let m4 = if m >= 0x0100_0000 { m / 2 } else { m };
    if m4 == 0 {
        sign * 0x8000_0000
    } else if e4 >= 255 {
        sign * 0x8000_0000 + 0x7F80_0000
    } else if m4 >= 0x0080_0000 {
        sign * 0x8000_0000 + e4 * 0x0080_0000 + (m4 - 0x0080_0000)
    } else {
        sign * 0x8000_0000 + m4
    }
}

/// The sum of two binary32 bit patterns, rounded to nearest up to the
/// sticky-bit simplification described in the module note. A non-finite
/// operand (all-ones exponent) propagates unchanged, the left one first.
pub open spec fn spec_add_bits(a: u32, b: u32) -> int {
    if exp_of(a) == 255 {
        a as int
    } else if exp_of(b) == 255 {
        b as int
    } else {
        spec_add_finite(a, b)
    }
}

/// The sum of two finite binary32 bit patterns.
pub open spec fn spec_add_finite(a: u32, b: u32) -> int {
    let hi = if mag_ge(a, b) { a } else { b };
    let lo = if mag_ge(a, b) { b } else { a };
    let d = (mag_exp(hi) - mag_exp(lo)) as nat;
    let shi = mag_sig(hi) * 64;
    let slo = shift_sticky(mag_sig(lo) * 64, d);
    if mag_sig(a) == 0 && mag_sig(b) == 0 {
        if sign_of(a) == 1 && sign_of(b) == 1 {
            0x8000_0000
        } else {
            0
        }
    } else if sign_of(hi) == sign_of(lo) {
        assemble(sign_of(hi), mag_exp(hi), shi + slo)
    } else if shi == slo {
        0
    } else {
        assemble(sign_of(hi), mag_exp(hi), shi - slo)
    }
}

/// The quotient of a binary32 bit pattern by a positive integer, rounded to
/// nearest up to the sticky-bit simplification described in the module
/// note. The divisor is a channel count, not another sample.
pub open spec fn spec_div_bits(a: u32, c: u32) -> int {
    if exp_of(a) == 255 {
        a as int
    } else if mag_sig(a) == 0 {
        sign_of(a) * 0x8000_0000
    } else {
        let s = mag_sig(a) * 0x0400_0000;
        let q = s / c as int;
        let st = if s % c as int > 0 && q % 2 == 0 { q + 1 } else { q };
        assemble(sign_of(a), mag_exp(a) - 20, st)
    }
}

/// The clamped, rounded 16-bit value of a binary32 bit pattern: the value is
/// rounded to the nearest integer, ties away from zero, then clamped to
/// `[-32768, 32767]`. Patterns with the all-ones exponent are saturated by
/// sign, except that a NaN pattern maps to 0.
pub open spec fn spec_quantize(b: u32) -> int {
    if exp_of(b) == 255 {
        if frac_of(b) != 0 {
            0
        } else if sign_of(b) == 1 {
            -32768
        } else {
            32767
        }
    } else {
        let mag = if mag_exp(b) >= 150 {
            mag_sig(b) * pow2((mag_exp(b) - 150) as nat) as int
        } else {
            let den = pow2((150 - mag_exp(b)) as nat) as int;
            let q = mag_sig(b) / den;
            if 2 * (mag_sig(b) % den) >= den {
                q + 1
            } else {
                q
            }
        };
        let v = if sign_of(b) == 1 { -mag } else { mag };
        if v < -32768 {
            -32768
        } else if v > 32767 {
            32767
        } else {
            v
        }
    }
}

/// A finite bit pattern decomposes into its three fields.
proof fn lemma_fields_recompose(b: u32)
    ensures
        b == sign_of(b) * 0x8000_0000 + exp_of(b) * 0x0080_0000 + frac_of(b),
        0 <= sign_of(b) <= 1,
{
    lemma_fundamental_div_mod(b as int, 0x0080_0000);
    lemma_fundamental_div_mod(b as int / 0x0080_0000, 256);
    lemma_div_denominator(b as int, 0x0080_0000, 256);
    assert(b as int / 0x8000_0000 == (b as int / 0x0080_0000) / 256);
}

/// Re-encoding the decoded fields of a finite, nonzero pattern through
/// `assemble` gives the pattern back: the normalization, rounding and
/// packing steps are exact on an already normalized significand.
proof fn lemma_assemble_exact(b: u32)
    requires
        exp_of(b) != 255,
        mag_sig(b) > 0,
    ensures
        assemble(sign_of(b), mag_exp(b), mag_sig(b) * 64) == b,
{
    let s = mag_sig(b) * 64;
    let e = mag_exp(b);
    assert(mag_sig(b) < 0x0100_0000);
    assert(s < 0x4000_0000);
    assert(norm_down(e, s) == (e, s));
    assert(e >= 1);
    assert(clamp_low(e, s) == (e, s));
    if exp_of(b) == 0 {
        assert(e == 1);
        assert(norm_up(e, s) == (e, s));
    } else {
        assert(mag_sig(b) >= 0x0080_0000);
        assert(s >= 0x2000_0000);
        assert(norm_up(e, s) == (e, s));
    }
    assert(s % 64 == 0 && s / 64 == mag_sig(b)) by (nonlinear_arith)
        requires
            s == mag_sig(b) * 64,
            0 <= mag_sig(b),
    ;
    assert(round_sig(s) == mag_sig(b));
    lemma_fields_recompose(b);
}

/// Adding a positive zero changes nothing: the seed of the mixdown
/// accumulator is neutral for every finite pattern that is not a negative
/// zero (a negative zero comes out as a positive one).
pub proof fn lemma_add_zero_identity(x: u32)
    requires
        exp_of(x) != 255,
        !(sign_of(x) == 1 && mag_sig(x) == 0),
    ensures
        spec_add_bits(0u32, x) == x,
{
    assert(exp_of(0u32) == 0);
    assert(mag_sig(0u32) == 0 && mag_exp(0u32) == 1 && sign_of(0u32) == 0);
    if mag_sig(x) == 0 {
        assert(sign_of(x) == 0);
        lemma_fields_recompose(x);
        assert(frac_of(x) == 0 && exp_of(x) == 0);
        assert(x == 0);
    } else {
        assert(!mag_ge(0u32, x));
        let d = (mag_exp(x) - 1) as nat;
        lemma_pow2_pos(d);
        assert(0int / pow2(d) as int == 0 && 0int % pow2(d) as int == 0) by (nonlinear_arith)
            requires
                pow2(d) > 0,
        ;
        assert(shift_sticky(mag_sig(0u32) * 64, d) == 0);
        lemma_assemble_exact(x);
        if sign_of(x) == 0 {
            assert(spec_add_finite(0u32, x) == assemble(sign_of(x), mag_exp(x), mag_sig(x) * 64));
        } else {
            assert(mag_sig(x) * 64 != 0);
            assert(spec_add_finite(0u32, x) == assemble(sign_of(x), mag_exp(x), mag_sig(x) * 64));
        }
    }
}

/// Two raised to the power `n`, as a machine word.
fn pow2_u64(n: u32) -> (r: u64)
    requires
        n <= 63,
    ensures
        r == pow2(n as nat),
        r >= 1,
    decreases n,
{
    if n == 0 {
        proof {
            lemma2_to64();
        }
        1
    } else {
        let h = pow2_u64(n - 1);
        proof {
            lemma2_to64();
            lemma2_to64_rest();
            if (((n - 1) as nat) < 63) {
                lemma_pow2_strictly_increases((n - 1) as nat, 63);
            }
        }
        2 * h
    }
}

/// Executable form of `shift_sticky`.
fn shift_sticky_u64(x: u64, d: u32) -> (r: u64)
    ensures
        r == shift_sticky(x as int, d as nat),
        r <= x,
{
    proof {
        lemma2_to64();
        lemma_pow2_pos(d as nat);
    }
    if x == 0 {
        proof {
            assert(0int / (pow2(d as nat) as int) == 0 && 0int % (pow2(d as nat) as int) == 0)
                by (nonlinear_arith)
                requires
                    pow2(d as nat) > 0,
            ;
        }
        0
    } else if d >= 64 {
        proof {
            lemma2_to64();
            if ((d as nat) > 64) {
                lemma_pow2_strictly_increases(64, d as nat);
            }
            assert(x < pow2(d as nat));
            assert((x as int) / (pow2(d as nat) as int) == 0 && (x as int) % (pow2(d as nat) as int) == x)
                by (nonlinear_arith)
                requires
                    0 <= x,
                    x < pow2(d as nat),
            ;
        }
        1
    } else {
        let p = pow2_u64(d);
        let q = x / p;
        let rm = x % p;
        if rm > 0 && q % 2 == 0 {
            proof {
                if d == 0 {
                    assert(pow2(0) == 1) by {
                        lemma2_to64();
                    };
                    assert(x as int % 1 == 0);
                }
                assert(d >= 1);
                lemma_pow2_strictly_increases(0, d as nat);
                lemma_div_is_ordered_by_denominator(x as int, 2, pow2(d as nat) as int);
                assert(x as int / 2 < x as int) by (nonlinear_arith)
                    requires
                        x >= 1,
                ;
                assert(q < x);
            }
            q + 1
        } else {
            q
        }
    }
}

/// Shifting by zero keeps the value.
proof fn lemma_shift_sticky_zero(x: int)
    requires
        x >= 0,
    ensures
        shift_sticky(x, 0) == x,
{
    lemma2_to64();
    assert(x / 1 == x);
    assert(x % 1 == 0);
}

/// Executable form of `norm_up`.
fn norm_up_x(e: i32, s: u64) -> (r: (i32, u64))
    requires
        1 <= e <= 0x2000,
        s < 0x4000_0000,
    ensures
        (r.0 as int, r.1 as int) == norm_up(e as int, s as int),
        1 <= r.0 <= e,
        r.1 < 0x4000_0000,
    decreases e,
{
    if s > 0 && s < 0x2000_0000 && e > 1 {
        norm_up_x(e - 1, 2 * s)
    } else {
        (e, s)
    }
}

/// Executable form of `norm_down`.
fn norm_down_x(e0: i32, s0: u64) -> (r: (i32, u64))
    requires
        -0x1000 <= e0 <= 0x1000,
    ensures
        (r.0 as int, r.1 as int) == norm_down(e0 as int, s0 as int),
        e0 <= r.0 <= e0 + 64,
        r.1 < 0x4000_0000,
{
    let mut e: i32 = e0;
    let mut s: u64 = s0;
    let mut i: u32 = 0;
    proof {
        lemma2_to64();
        lemma2_to64_rest();
    }
    while s >= 0x4000_0000
        invariant
            norm_down(e0 as int, s0 as int) == norm_down(e as int, s as int),
            e == e0 + i,
            -0x1000 <= e0 <= 0x1000,
            i <= 34,
            s < pow2((64 - i) as nat),
        decreases 64 - i,
    {
        proof {
            lemma2_to64();
            if 64 - i <= 30 {
                if ((64 - i) as nat) < 30 {
                    lemma_pow2_strictly_increases((64 - i) as nat, 30);
                }
                assert(pow2((64 - i) as nat) <= pow2(30));
                assert(false);
            }
            assert(i < 34);
            lemma_pow2_adds(1, (63 - i) as nat);
            assert(pow2((64 - i) as nat) == 2 * pow2((63 - i) as nat));
            assert(((s / 2) as int) < pow2((63 - i) as nat));
        }
        s = s / 2;
        e = e + 1;
        i = i + 1;
    }
    (e, s)
}

/// Executable form of `clamp_low`.
fn clamp_low_x(e: i32, s: u64) -> (r: (i32, u64))
    requires
        -0x1000 <= e <= 0x2000,
    ensures
        (r.0 as int, r.1 as int) == clamp_low(e as int, s as int),
        1 <= r.0,
        e >= 1 ==> r.0 == e,
        r.1 <= s,
{
    if e < 1 {
        let d = 1 - e;
        let s2 = shift_sticky_u64(s, d as u32);
        (1, s2)
    } else {
        (e, s)
    }
}

/// Executable form of `assemble`: packs a sign, exponent and guarded
/// significand into a bit pattern.
fn assemble_x(sign: u32, e: i32, s: u64) -> (r: u32)
    requires
        sign <= 1,
        -0x1000 <= e <= 0x1000,
    ensures
        r == assemble(sign as int, e as int, s as int),
{
    let p1 = norm_down_x(e, s);
    let p2 = clamp_low_x(p1.0, p1.1);
    let p3 = norm_up_x(p2.0, p2.1);
    let q = p3.1 / 64;
    let rm = p3.1 % 64;
    let m: u64 = if rm > 32 || (rm == 32 && q % 2 == 1) {
        q + 1
    } else {
        q
    };
    let e4: i32 = if m >= 0x0100_0000 {
        p3.0 + 1
    } else {
        p3.0
    };
    let m4: u64 = if m >= 0x0100_0000 {
        m / 2
    } else {
        m
    };
    if m4 == 0 {
        sign * 0x8000_0000
    } else if e4 >= 255 {
        sign * 0x8000_0000 + 0x7F80_0000
    } else if m4 >= 0x0080_0000 {
        sign * 0x8000_0000 + (e4 as u32) * 0x0080_0000 + ((m4 - 0x0080_0000) as u32)
    } else {
        sign * 0x8000_0000 + (m4 as u32)
    }
}

/// Sign field of a bit pattern, executable.
pub fn sign_x(b: u32) -> (r: u32)
    ensures
        r == sign_of(b),
        r <= 1,
{
    b / 0x8000_0000
}

/// Biased exponent field, executable.
pub fn exp_x(b: u32) -> (r: u32)
    ensures
        r == exp_of(b),
        r < 256,
{
    (b / 0x0080_0000) % 256
}

/// Magnitude exponent, executable.
pub fn mag_exp_x(b: u32) -> (r: u32)
    ensures
        r == mag_exp(b),
        1 <= r <= 255,
{
    let e = exp_x(b);
    if e == 0 {
        1
    } else {
        e
    }
}

/// Full significand, executable.
pub fn mag_sig_x(b: u32) -> (r: u32)
    ensures
        r == mag_sig(b),
        r < 0x0100_0000,
{
    let e = exp_x(b);
    let f = b % 0x0080_0000;
    if e == 0 {
        f
    } else {
        f + 0x0080_0000
    }
}

/// Add two binary32 bit patterns.
pub fn bits_add(a: u32, b: u32) -> (r: u32)
    ensures
        r == spec_add_bits(a, b),
{
    if exp_x(a) == 255 {
        return a;
    }
    if exp_x(b) == 255 {
        return b;
    }
    let ea = mag_exp_x(a);
    let eb = mag_exp_x(b);
    let sa = mag_sig_x(a);
    let sb = mag_sig_x(b);
    let a_ge = ea > eb || (ea == eb && sa >= sb);
    proof {
        assert(a_ge == mag_ge(a, b));
    }
    let hi: u32 = if a_ge { a } else { b };
    let lo: u32 = if a_ge { b } else { a };
    let ehi = mag_exp_x(hi);
    let elo = mag_exp_x(lo);
    let sig_hi = mag_sig_x(hi);
    let sig_lo = mag_sig_x(lo);
    let d: u32 = ehi - elo;
    let shi: u64 = (sig_hi as u64) * 64;
    let slo: u64 = shift_sticky_u64((sig_lo as u64) * 64, d);
    let sgn_hi = sign_x(hi);
    let sgn_lo = sign_x(lo);
    if sa == 0 && sb == 0 {
        if sign_x(a) == 1 && sign_x(b) == 1 {
            0x8000_0000
        } else {
            0
        }
    } else if sgn_hi == sgn_lo {
        assemble_x(sgn_hi, ehi as i32, shi + slo)
    } else {
        proof {
            if d >= 1 {
                assert(mag_exp(hi) > mag_exp(lo));
                assert(mag_exp(lo) >= 1);
                assert(exp_of(hi) != 0);
                assert(mag_sig(hi) >= 0x0080_0000);
                assert(shi >= 0x2000_0000);
                lemma2_to64();
                lemma_pow2_strictly_increases(0, d as nat);
                lemma_div_is_ordered_by_denominator(
                    (sig_lo as u64 * 64) as int,
                    2,
                    pow2(d as nat) as int,
                );
                assert(slo <= (sig_lo as u64 * 64) as int / 2 + 1);
                assert(slo < 0x2000_0000);
            } else {
                assert(mag_sig(hi) >= mag_sig(lo));
                lemma_shift_sticky_zero((sig_lo as u64 * 64) as int);
                assert(slo == sig_lo as u64 * 64);
            }
            assert(shi >= slo);
        }
        if shi == slo {
            0
        } else {
            assemble_x(sgn_hi, ehi as i32, shi - slo)
        }
    }
}

/// Divide a binary32 bit pattern by a positive integer.
pub fn bits_div_int(a: u32, c: u32) -> (r: u32)
    requires
        c >= 1,
    ensures
        r == spec_div_bits(a, c),
{
    let sig = mag_sig_x(a);
    let sgn = sign_x(a);
    if exp_x(a) == 255 {
        a
    } else if sig == 0 {
        sgn * 0x8000_0000
    } else {
        let s: u64 = (sig as u64) * 0x0400_0000;
        let q: u64 = s / (c as u64);
        let rm: u64 = s % (c as u64);
        let st: u64 = if rm > 0 && q % 2 == 0 {
            q + 1
        } else {
            q
        };
        let e = mag_exp_x(a);
        assemble_x(sgn, e as i32 - 20, st)
    }
}

/// Quantize a binary32 bit pattern to a signed 16-bit sample: round to the
/// nearest integer, ties away from zero, then clamp to the representable
/// range.
pub fn bits_quantize(b: u32) -> (r: i16)
    ensures
        r == spec_quantize(b),
        -32768 <= r <= 32767,
{
    let e = exp_x(b);
    let sgn = sign_x(b);
    let sig = mag_sig_x(b);
    let me = mag_exp_x(b);
    if e == 255 {
        if b % 0x0080_0000 != 0 {
            0
        } else if sgn == 1 {
            -32768
        } else {
            32767
        }
    } else if me >= 143 {
        // The magnitude is at least 2^16, so the clamp decides alone.
        proof {
            assert(exp_of(b) != 0);
            assert(mag_sig(b) >= 0x0080_0000);
            if mag_exp(b) >= 150 {
                lemma_pow2_pos((mag_exp(b) - 150) as nat);
                assert(pow2((mag_exp(b) - 150) as nat) >= 1);
                assert(mag_sig(b) * pow2((mag_exp(b) - 150) as nat) as int >= 0x0080_0000) by (nonlinear_arith)
                    requires
                        mag_sig(b) >= 0x0080_0000,
                        pow2((mag_exp(b) - 150) as nat) >= 1,
                ;
            } else {
                let den = pow2((150 - mag_exp(b)) as nat) as int;
                assert((150 - mag_exp(b)) as nat <= 7);
                assert(den <= 128) by {
                    lemma2_to64();
                    if (((150 - mag_exp(b)) as nat) < 7) {
                        lemma_pow2_strictly_increases((150 - mag_exp(b)) as nat, 7);
                    }
                };
                lemma_pow2_pos((150 - mag_exp(b)) as nat);
                assert(mag_sig(b) / den >= 0x0080_0000int / 128) by (nonlinear_arith)
                    requires
                        mag_sig(b) >= 0x0080_0000,
                        1 <= den <= 128,
                ;
            }
        }
        if sgn == 1 {
            -32768
        } else {
            32767
        }
    } else {
        // me <= 142, so the denominator exponent 150 - me is in [8, 149].
        let dexp: u32 = 150 - me;
        if dexp >= 25 {
            // The magnitude is below 1/2, so it rounds to zero.
            proof {
                assert(mag_exp(b) < 150);
                let den = pow2((150 - mag_exp(b)) as nat) as int;
                assert(den >= 0x0200_0000) by {
                    lemma2_to64();
                    if (((150 - mag_exp(b)) as nat) > 25) {
                        lemma_pow2_strictly_increases(25, (150 - mag_exp(b)) as nat);
                    }
                };
                assert(mag_sig(b) < 0x0100_0000);
                assert(mag_sig(b) / den == 0) by (nonlinear_arith)
                    requires
                        0 <= mag_sig(b) < 0x0100_0000,
                        den >= 0x0200_0000,
                ;
                assert(mag_sig(b) % den == mag_sig(b)) by (nonlinear_arith)
                    requires
                        0 <= mag_sig(b) < 0x0100_0000,
                        den >= 0x0200_0000,
                ;
                assert(2 * (mag_sig(b) % den) < den) by (nonlinear_arith)
                    requires
                        0 <= mag_sig(b) < 0x0100_0000,
                        den >= 0x0200_0000,
                        mag_sig(b) % den == mag_sig(b),
                ;
            }
            0
        } else {
            let den: u64 = pow2_u64(dexp);
            proof {
                assert(den <= 0x0100_0000) by {
                    lemma2_to64();
                    if ((dexp as nat) < 24) {
                        lemma_pow2_strictly_increases(dexp as nat, 24);
                    }
                };
                lemma_pow2_pos(dexp as nat);
            }
            let q: u64 = (sig as u64) / den;
            let rm: u64 = (sig as u64) % den;
            let v: u64 = if 2 * rm >= den {
                q + 1
            } else {
                q
            };
            proof {
                assert(mag_exp(b) < 150);
                assert(v <= 0x0100_0000);
            }
            if sgn == 1 {
                if v > 32768 {
                    -32768
                } else {
                    let vi: i32 = -(v as i32);
                    proof {
                        assert(-32768 <= vi <= 0);
                    }
                    vi as i16
                }
            } else {
                if v > 32767 {
                    32767
                } else {
                    v as i16
                }
            }
        }
    }
}

} // verus!
