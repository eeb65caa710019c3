//! Non-negative IEEE 754 binary32 numbers, handled by their encoding.
//!
//! The numeric value of the window state is a binary32 number. This module
//! works on the 32-bit encoding of such a number and gives each finite
//! encoding its exact magnitude as a natural number of units of 2^-149, the
//! smallest positive binary32 value.

use vstd::arithmetic::power2::{
    lemma2_to64, lemma_pow2_adds, lemma_pow2_pos, lemma_pow2_strictly_increases,
    lemma_pow2_unfold, pow2,
};
use vstd::prelude::*;

verus! {

/// Number of distinct fractions within one binade: 2^23.
pub const FRACTION_SPAN: u32 = 0x0080_0000;

/// Encoding of positive infinity; every smaller encoding is finite and
/// has a clear sign bit.
pub const INFINITY_BITS: u32 = 0x7f80_0000;

/// Encoding of -0.0.
pub const NEGATIVE_ZERO_BITS: u32 = 0x8000_0000;

/// Encoding of 1.0.
pub const ONE_BITS: u32 = 0x3f80_0000;

/// Encoding of 9.0.
pub const NINE_BITS: u32 = 0x4110_0000;

/// Encoding of 10.0.
pub const TEN_BITS: u32 = 0x4120_0000;

/// The biased exponent field of an encoding.
pub open spec fn exponent_field(bits: u32) -> nat {
    ((bits / FRACTION_SPAN) % 256) as nat
}

/// The fraction field of an encoding.
pub open spec fn fraction_field(bits: u32) -> nat {
    (bits % FRACTION_SPAN) as nat
}

/// The integer significand: the fraction, with the implicit leading bit
/// for a normal number.
pub open spec fn significand(bits: u32) -> nat {
    if exponent_field(bits) == 0 {
        fraction_field(bits)
    } else {
        FRACTION_SPAN as nat + fraction_field(bits)
    }
}

/// The binary logarithm of the spacing between an encoding and the next,
/// in units of 2^-149.
pub open spec fn scale(bits: u32) -> nat {
    if exponent_field(bits) == 0 {
        0
    } else {
        (exponent_field(bits) - 1) as nat
    }
}

/// The magnitude of a finite encoding in units of 2^-149. The sign bit is
/// not looked at.
pub open spec fn magnitude(bits: u32) -> nat {
    significand(bits) * pow2(scale(bits))
}

/// The magnitude of 1.0.
pub open spec fn one_magnitude() -> nat {
    pow2(149)
}

/// The magnitude of 10.0.
pub open spec fn ten_magnitude() -> nat {
    10 * pow2(149)
}

/// Whether an encoding denotes a number in the closed range from 0.0 to
/// 10.0. Both zeros count.
pub open spec fn in_range(bits: u32) -> bool {
    bits <= TEN_BITS || bits == NEGATIVE_ZERO_BITS
}

/// Tells whether `bits` encodes a number from 0.0 to 10.0.
pub fn is_in_range(bits: u32) -> (r: bool)
    ensures
        r == in_range(bits),
{
    bits <= TEN_BITS || bits == NEGATIVE_ZERO_BITS
}

/// The distance between two magnitudes.
pub open spec fn distance(a: nat, b: nat) -> nat {
    if a <= b {
        (b - a) as nat
    } else {
        (a - b) as nat
    }
}

/// Round to nearest, ties to even, among the finite non-negative
/// encodings: `bits` is strictly closer to `target` than every other such
/// encoding, or as close as the closest other one and even.
pub open spec fn rounds_to(target: nat, bits: u32) -> bool {
    &&& bits < INFINITY_BITS
    &&& forall|other: u32|
        other < INFINITY_BITS && other != bits ==> {
            ||| distance(magnitude(bits), target) < distance(#[trigger] magnitude(other), target)
            ||| (distance(magnitude(bits), target) == distance(magnitude(other), target) && bits
                % 2 == 0)
        }
}

proof fn lemma_product_increases(x: nat, y: nat, p: nat)
    by (nonlinear_arith)
    requires
        x < y,
        0 < p,
    ensures
        x * p < y * p,
{
}

proof fn lemma_product_grows(x: nat, p: nat, q: nat)
    by (nonlinear_arith)
    requires
        p <= q,
    ensures
        x * p <= x * q,
{
}

proof fn lemma_product_regroup(x: nat, p: nat)
    by (nonlinear_arith)
    ensures
        (2 * x) * p == x * (2 * p),
        (x + 1) * p == x * p + p,
{
}

/// `pow2` does not decrease.
pub proof fn lemma_pow2_increases(a: nat, b: nat)
    requires
        a <= b,
    ensures
        pow2(a) <= pow2(b),
{
    if a < b {
        lemma_pow2_strictly_increases(a, b);
    }
}

/// A finite encoding with a clear sign bit is its exponent field times
/// 2^23 plus its fraction field.
pub proof fn lemma_fields(bits: u32)
    requires
        bits < INFINITY_BITS,
    ensures
        exponent_field(bits) == bits / FRACTION_SPAN,
        exponent_field(bits) < 255,
        fraction_field(bits) < FRACTION_SPAN,
        bits == exponent_field(bits) * FRACTION_SPAN + fraction_field(bits),
        significand(bits) < 2 * FRACTION_SPAN,
        exponent_field(bits) > 0 ==> significand(bits) >= FRACTION_SPAN,
{
}

/// The next encoding is one spacing further from zero.
pub proof fn lemma_magnitude_of_next(bits: u32)
    requires
        bits + 1 < INFINITY_BITS,
    ensures
        magnitude((bits + 1) as u32) == magnitude(bits) + pow2(scale(bits)),
{
    let next = (bits + 1) as u32;
    lemma_fields(bits);
    lemma_fields(next);
    lemma2_to64();
    let p = pow2(scale(bits));
    lemma_product_regroup(significand(bits), p);
    if fraction_field(bits) + 1 < FRACTION_SPAN {
        assert(exponent_field(next) == exponent_field(bits));
        assert(significand(next) == significand(bits) + 1);
    } else {
        assert(exponent_field(next) == exponent_field(bits) + 1);
        assert(fraction_field(next) == 0);
        if exponent_field(bits) == 0 {
            assert(magnitude(next) == FRACTION_SPAN as nat * pow2(0));
            assert(magnitude(bits) == (FRACTION_SPAN - 1) as nat * pow2(0));
        } else {
            lemma_pow2_unfold(scale(next));
            lemma_product_regroup(FRACTION_SPAN as nat, p);
            assert(significand(bits) + 1 == 2 * FRACTION_SPAN);
        }
    }
}

/// Among finite encodings with a clear sign bit, a larger encoding has a
/// larger magnitude.
pub proof fn lemma_magnitude_increases(a: u32, b: u32)
    requires
        a < b < INFINITY_BITS,
    ensures
        magnitude(a) < magnitude(b),
{
    lemma_fields(a);
    lemma_fields(b);
    let pa = pow2(scale(a));
    let pb = pow2(scale(b));
    lemma_pow2_pos(scale(a));
    lemma_pow2_pos(scale(b));
    if exponent_field(a) == exponent_field(b) {
        lemma_product_increases(significand(a), significand(b), pa);
    } else {
        assert(exponent_field(a) < exponent_field(b));
        let span = FRACTION_SPAN as nat;
        lemma_product_grows(span, 1, pb);
        if exponent_field(a) == 0 {
            lemma2_to64();
            assert(pa == 1);
            assert(magnitude(a) == significand(a) * 1);
            assert(magnitude(a) < span);
            assert(span * pb <= significand(b) * pb) by (nonlinear_arith)
                requires
                    span <= significand(b),
            ;
        } else {
            lemma_product_increases(significand(a), 2 * span, pa);
            lemma_product_regroup(span, pa);
            lemma_pow2_unfold(scale(a) + 1);
            lemma_pow2_increases(scale(a) + 1, scale(b));
            lemma_product_grows(span, 2 * pa, pb);
            assert(span * pb <= significand(b) * pb) by (nonlinear_arith)
                requires
                    span <= significand(b),
            ;
        }
    }
}

/// An encoding rounds to itself: its own magnitude is at distance zero.
pub proof fn lemma_exact_rounds(bits: u32)
    requires
        bits < INFINITY_BITS,
    ensures
        rounds_to(magnitude(bits), bits),
{
    assert forall|other: u32| other < INFINITY_BITS && other != bits implies distance(
        magnitude(bits),
        magnitude(bits),
    ) < distance(#[trigger] magnitude(other), magnitude(bits)) by {
        if other < bits {
            lemma_magnitude_increases(other, bits);
        } else {
            lemma_magnitude_increases(bits, other);
        }
    }
}

/// A target that lies between two neighbouring encodings rounds to the
/// nearer one, and to the even one when it lies half way.
pub proof fn lemma_rounds_between(low: u32, target: nat)
    requires
        low + 1 < INFINITY_BITS,
        magnitude(low) <= target <= magnitude((low + 1) as u32),
    ensures
        ({
            let below = target - magnitude(low);
            let above = magnitude((low + 1) as u32) - target;
            &&& (below < above || (below == above && low % 2 == 0)) ==> rounds_to(target, low)
            &&& (above < below || (below == above && low % 2 == 1)) ==> rounds_to(
                target,
                (low + 1) as u32,
            )
        }),
{
    let high = (low + 1) as u32;
    let below = target - magnitude(low);
    let above = magnitude(high) - target;
    assert forall|other: u32| other < INFINITY_BITS && other < low implies target
        - #[trigger] magnitude(other) > below by {
        lemma_magnitude_increases(other, low);
    }
    assert forall|other: u32| other < INFINITY_BITS && other > high implies #[trigger] magnitude(
        other,
    ) - target > above by {
        lemma_magnitude_increases(high, other);
    }
    if below < above || (below == above && low % 2 == 0) {
        assert forall|other: u32| other < INFINITY_BITS && other != low implies {
            ||| distance(magnitude(low), target) < distance(#[trigger] magnitude(other), target)
            ||| (distance(magnitude(low), target) == distance(magnitude(other), target) && low
                % 2 == 0)
        } by {
            if other > high {
                assert(magnitude(other) - target > above);
            } else if other < low {
                assert(target - magnitude(other) > below);
            }
        }
    }
    if above < below || (below == above && low % 2 == 1) {
        assert forall|other: u32| other < INFINITY_BITS && other != high implies {
            ||| distance(magnitude(high), target) < distance(#[trigger] magnitude(other), target)
            ||| (distance(magnitude(high), target) == distance(magnitude(other), target) && high
                % 2 == 0)
        } by {
            if other > high {
                assert(magnitude(other) - target > above);
            } else if other < low {
                assert(target - magnitude(other) > below);
            }
        }
    }
}

/// Rounding picks one encoding: two encodings to which the same target
/// rounds are equal.
pub proof fn lemma_rounding_is_unique(target: nat, a: u32, b: u32)
    requires
        rounds_to(target, a),
        rounds_to(target, b),
    ensures
        a == b,
{
    if a != b {
        let low = if a < b {
            a
        } else {
            b
        };
        let high = if a < b {
            b
        } else {
            a
        };
        let next = (low + 1) as u32;
        lemma_magnitude_increases(low, high);
        assert(distance(magnitude(a), target) == distance(magnitude(b), target));
        assert(magnitude(low) < target < magnitude(high));
        if next != high {
            lemma_magnitude_increases(low, next);
            lemma_magnitude_increases(next, high);
            assert(distance(magnitude(next), target) < distance(magnitude(low), target));
            assert(false);
        }
        assert(a % 2 == 0 && b % 2 == 0);
        assert(false);
    }
}

/// The magnitudes of the encodings of 1.0, 9.0 and 10.0.
pub proof fn lemma_named_magnitudes()
    ensures
        magnitude(0) == 0,
        magnitude(NEGATIVE_ZERO_BITS) == 0,
        magnitude(ONE_BITS) == one_magnitude(),
        magnitude(NINE_BITS) == 9 * one_magnitude(),
        magnitude(TEN_BITS) == ten_magnitude(),
{
    lemma2_to64();
    lemma_pow2_adds(23, 126);
    lemma_pow2_adds(20, 129);
    assert(exponent_field(ONE_BITS) == 127 && fraction_field(ONE_BITS) == 0);
    assert(exponent_field(NINE_BITS) == 130 && fraction_field(NINE_BITS) == 0x10_0000);
    assert(exponent_field(TEN_BITS) == 130 && fraction_field(TEN_BITS) == 0x20_0000);
    assert(exponent_field(NEGATIVE_ZERO_BITS) == 0 && fraction_field(NEGATIVE_ZERO_BITS) == 0);
    assert(exponent_field(0) == 0 && fraction_field(0) == 0);
    assert(0 * pow2(0) == 0) by (nonlinear_arith);
    let p = pow2(129);
    assert(magnitude(NINE_BITS) == 9 * (0x10_0000 * p)) by (nonlinear_arith)
        requires
            magnitude(NINE_BITS) == 0x90_0000 * p,
    ;
    assert(magnitude(TEN_BITS) == 10 * (0x10_0000 * p)) by (nonlinear_arith)
        requires
            magnitude(TEN_BITS) == 0xa0_0000 * p,
    ;
}

} // verus!
