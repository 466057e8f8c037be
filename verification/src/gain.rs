//! Exact integer arithmetic for mixing: clamping, saturating addition, and
//! fixed-point gain application.
//!
//! A gain is a `u64` holding a fixed-point value with 32 fractional bits, so
//! [`crate::GAIN_ONE`] is unity. Scaling a sample multiplies it by the gain,
//! truncates the quotient toward zero, and clamps the result to the `i16`
//! range. A gain within `1/i16::MAX` of unity leaves samples untouched, so
//! that the common case of an unadjusted sound adds without rounding.

use vstd::prelude::*;
use crate::GAIN_ONE;

verus! {

/// Clamp a mathematical integer into the `i16` range.
pub open spec fn clamp_i16(x: int) -> int {
    if x > i16::MAX as int {
        i16::MAX as int
    } else if x < i16::MIN as int {
        i16::MIN as int
    } else {
        x
    }
}

/// Division that truncates toward zero, the rounding a hardware division and
/// a float-to-integer cast perform.
pub open spec fn div_trunc(num: int, den: int) -> int
    recommends
        den >= 1,
{
    if num >= 0 {
        num / den
    } else {
        -((-num) / den)
    }
}

/// Saturating `i16` addition: the sum clamped instead of wrapped.
pub open spec fn sat_add_spec(a: int, b: int) -> int {
    clamp_i16(a + b)
}

/// Whether a gain lies within `1/i16::MAX` of unity, the band in which
/// samples pass through unscaled.
pub open spec fn near_one(gain: u64) -> bool {
    abs_diff_one(gain) * (i16::MAX as int) < GAIN_ONE as int
}

/// The distance of a gain from unity, in fixed-point units.
pub open spec fn abs_diff_one(gain: u64) -> int {
    if gain >= GAIN_ONE {
        gain - GAIN_ONE
    } else {
        GAIN_ONE - gain
    }
}

/// A sample multiplied by a gain: the exact product truncated toward zero
/// and clamped to the `i16` range.
pub open spec fn scaled_spec(gain: u64, x: int) -> int {
    clamp_i16(div_trunc(x * gain, GAIN_ONE as int))
}

/// What one source sample contributes before saturating addition: itself for
/// a gain near unity (the fast path), the scaled sample otherwise.
pub open spec fn applied_gain(gain: u64, x: int) -> int {
    if near_one(gain) {
        x
    } else {
        scaled_spec(gain, x)
    }
}

/// The product of two fixed-point gains, saturating at `u64::MAX`.
pub open spec fn combined_gain(v: u64, g: u64) -> u64 {
    let p = (v * g) / (GAIN_ONE as int);
    if p > u64::MAX as int {
        u64::MAX
    } else {
        p as u64
    }
}

/// Saturating addition of two samples.
pub fn sat_add_i16(a: i16, b: i16) -> (r: i16)
    ensures
        r as int == sat_add_spec(a as int, b as int),
{
    let s: i32 = a as i32 + b as i32;
    if s > i16::MAX as i32 {
        i16::MAX
    } else if s < i16::MIN as i32 {
        i16::MIN
    } else {
        s as i16
    }
}

/// Truncating division of possibly negative `num` by positive `den`.
pub fn div_trunc_i64(num: i64, den: i64) -> (r: i64)
    requires
        den >= 1,
        num > i64::MIN,
    ensures
        r == div_trunc(num as int, den as int),
        0 <= r || 0 <= -r,
{
    if num >= 0 {
        let q: u64 = (num as u64) / (den as u64);
        q as i64
    } else {
        let q: u64 = ((-num) as u64) / (den as u64);
        proof {
            vstd::arithmetic::div_mod::lemma_div_nonincreasing((-num) as int, den as int);
            vstd::arithmetic::div_mod::lemma_div_pos_is_pos((-num) as int, den as int);
        }
        -(q as i64)
    }
}

/// Truncating division is bounded by any integer bracket of the numerator:
/// if `lo * den <= num <= hi * den` then the truncated quotient lies in
/// `[lo, hi]`.
pub proof fn lemma_div_trunc_bounds(num: int, den: int, lo: int, hi: int)
    requires
        den >= 1,
        lo * den <= num,
        num <= hi * den,
    ensures
        lo <= div_trunc(num, den) <= hi,
{
    if num >= 0 {
        if lo >= 0 {
            vstd::arithmetic::div_mod::lemma_div_is_ordered(lo * den, num, den);
            vstd::arithmetic::div_mod::lemma_div_by_multiple(lo, den);
        } else {
            vstd::arithmetic::div_mod::lemma_div_pos_is_pos(num, den);
        }
        assert(hi >= 0) by (nonlinear_arith)
            requires
                num <= hi * den,
                num >= 0,
                den >= 1,
        ;
        vstd::arithmetic::div_mod::lemma_div_is_ordered(num, hi * den, den);
        vstd::arithmetic::div_mod::lemma_div_by_multiple(hi, den);
    } else {
        let m = -num;
        assert(div_trunc(num, den) == -(m / den));
        assert((-lo) * den == -(lo * den)) by (nonlinear_arith);
        assert((-hi) * den == -(hi * den)) by (nonlinear_arith);
        assert(lo < 0) by (nonlinear_arith)
            requires
                lo * den <= num,
                num < 0,
                den >= 1,
        ;
        vstd::arithmetic::div_mod::lemma_div_is_ordered(m, (-lo) * den, den);
        vstd::arithmetic::div_mod::lemma_div_by_multiple(-lo, den);
        if hi >= 0 {
            vstd::arithmetic::div_mod::lemma_div_pos_is_pos(m, den);
        } else {
            vstd::arithmetic::div_mod::lemma_div_is_ordered((-hi) * den, m, den);
            vstd::arithmetic::div_mod::lemma_div_by_multiple(-hi, den);
        }
    }
}

/// Apply a fixed-point gain to one sample: identity near unity, otherwise
/// multiply, truncate toward zero and clamp.
pub fn apply_gain(gain: u64, x: i16) -> (r: i16)
    ensures
        r as int == applied_gain(gain, x as int),
{
    let diff: u64 = if gain >= GAIN_ONE {
        gain - GAIN_ONE
    } else {
        GAIN_ONE - gain
    };
    if (diff as u128) * (i16::MAX as u128) < GAIN_ONE as u128 {
        return x;
    }
    let mag: u64 = if x >= 0 {
        x as u64
    } else {
        (-(x as i32)) as u64
    };
    proof {
        assert((mag as int) * (gain as int) <= (0x8000int) * (u64::MAX as int))
            by (nonlinear_arith)
            requires
                mag <= 0x8000,
                gain <= u64::MAX,
        ;
    }
    let p: u128 = (mag as u128) * (gain as u128);
    let q: u128 = p / (GAIN_ONE as u128);
    proof {
        assert(mag * gain == (if x >= 0 { x as int * gain } else { -(x as int * gain) }))
            by (nonlinear_arith)
            requires
                mag == (if x >= 0 { x as int } else { -(x as int) }),
        ;
    }
    if x >= 0 {
        if q > i16::MAX as u128 {
            i16::MAX
        } else {
            q as i16
        }
    } else {
        if q >= 32768 {
            i16::MIN
        } else {
            -(q as i16)
        }
    }
}

/// Combine a per-sound gain with its group gain: the fixed-point product,
/// saturating at `u64::MAX`.
pub fn combine_gains(v: u64, g: u64) -> (r: u64)
    ensures
        r == combined_gain(v, g),
{
    proof {
        assert((v as int) * (g as int) <= (u64::MAX as int) * (u64::MAX as int))
            by (nonlinear_arith)
            requires
                v <= u64::MAX,
                g <= u64::MAX,
        ;
        assert((u64::MAX as int) * (u64::MAX as int) < u128::MAX as int);
    }
    let p: u128 = (v as u128) * (g as u128);
    let q: u128 = p / (GAIN_ONE as u128);
    if q > u64::MAX as u128 {
        u64::MAX
    } else {
        q as u64
    }
}

} // verus!
