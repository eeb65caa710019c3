//! Steps of exactly 1.0 on a value kept between 0.0 and 10.0.
//!
//! A step adds or subtracts 1.0, clamps the exact result to the range, and
//! rounds it to the nearest binary32 number, ties to even. A value outside
//! the range is left as it is.

use crate::binary32::{
    exponent_field, fraction_field, in_range, lemma_exact_rounds, lemma_fields,
    lemma_magnitude_increases, lemma_magnitude_of_next, lemma_named_magnitudes,
    lemma_pow2_increases, lemma_rounds_between, magnitude, one_magnitude, rounds_to, scale,
    significand, ten_magnitude, FRACTION_SPAN, INFINITY_BITS, NEGATIVE_ZERO_BITS, NINE_BITS,
    ONE_BITS, TEN_BITS,
};
use vstd::arithmetic::power2::{
    lemma2_to64, lemma_pow2_adds, lemma_pow2_pos, lemma_pow2_unfold, pow2,
};
use vstd::bits::{lemma_u32_shl_is_mul, lemma_u32_shr_is_div};
use vstd::prelude::*;

verus! {

/// The exact result of adding 1.0 and clamping at 10.0.
pub open spec fn raised(before: u32) -> nat {
    if magnitude(before) + one_magnitude() <= ten_magnitude() {
        magnitude(before) + one_magnitude()
    } else {
        ten_magnitude()
    }
}

/// The exact result of subtracting 1.0 and clamping at 0.0.
pub open spec fn lowered(before: u32) -> nat {
    if magnitude(before) >= one_magnitude() {
        (magnitude(before) - one_magnitude()) as nat
    } else {
        0
    }
}

/// What a step up makes of `before`: the rounded raised value, with a
/// clear sign bit; a value outside the range stays.
pub open spec fn steps_up(before: u32, after: u32) -> bool {
    if in_range(before) {
        rounds_to(raised(before), after)
    } else {
        after == before
    }
}

/// What a step down makes of `before`: the rounded lowered value, with a
/// clear sign bit; a zero of either sign and a value outside the range
/// stay.
pub open spec fn steps_down(before: u32, after: u32) -> bool {
    if in_range(before) && magnitude(before) > 0 {
        rounds_to(lowered(before), after)
    } else {
        after == before
    }
}

proof fn lemma_split_product(q: nat, u: nat, r: nat, p: nat)
    by (nonlinear_arith)
    ensures
        (q * u + r) * p == q * (u * p) + r * p,
        (u + q) * p == u * p + q * p,
{
}

proof fn lemma_scaled_order(r: nat, s: nat, p: nat)
    by (nonlinear_arith)
    requires
        0 < p,
    ensures
        r < s ==> r * p < s * p,
        r == s ==> r * p == s * p,
        r > s ==> r * p > s * p,
{
}

/// Below 9.0 a step up stays below 10.0.
proof fn lemma_raised_below_nine(bits: u32)
    requires
        bits < NINE_BITS,
    ensures
        raised(bits) == magnitude(bits) + one_magnitude(),
{
    lemma_named_magnitudes();
    lemma_magnitude_increases(bits, NINE_BITS);
}

/// Adds 1.0 to a value of at least 1.0 and less than 9.0.
fn step_up_from_one(bits: u32) -> (after: u32)
    requires
        ONE_BITS <= bits < NINE_BITS,
    ensures
        rounds_to(raised(bits), after),
        ONE_BITS <= after <= TEN_BITS,
{
    let exponent: u32 = bits / FRACTION_SPAN;
    let fraction: u32 = bits % FRACTION_SPAN;
    proof {
        lemma_fields(bits);
        lemma2_to64();
    }
    let shift: u32 = exponent - 127;
    let one: u32 = FRACTION_SPAN >> shift;
    proof {
        lemma_u32_shr_is_div(FRACTION_SPAN, shift);
        assert(shift == 0 || shift == 1 || shift == 2 || shift == 3);
        assert(one as nat == pow2((23 - shift) as nat));
    }
    let sum: u32 = FRACTION_SPAN + fraction + one;
    proof {
        lemma_raised_below_nine(bits);
        lemma_pow2_adds((150 - exponent) as nat, scale(bits));
        let p: nat = pow2(scale(bits));
        lemma_pow2_pos(scale(bits));
        lemma_split_product(one as nat, significand(bits), 0, p);
        assert(raised(bits) == sum as nat * p);
    }
    if sum < 2 * FRACTION_SPAN {
        let after: u32 = bits + one;
        proof {
            lemma_fields(after);
            assert(exponent_field(after) == exponent);
            assert(fraction_field(after) == fraction + one);
            assert(magnitude(after) == raised(bits));
            lemma_exact_rounds(after);
            lemma_named_magnitudes();
            if after > TEN_BITS {
                lemma_magnitude_increases(TEN_BITS, after);
            }
        }
        after
    } else {
        let half: u32 = sum / 2;
        let low: u32 = (exponent + 1) * FRACTION_SPAN + (half - FRACTION_SPAN);
        proof {
            let p: nat = pow2(scale(bits));
            let r: nat = (sum % 2) as nat;
            lemma_fields(low);
            assert(exponent_field(low) == exponent + 1);
            assert(fraction_field(low) == half - FRACTION_SPAN);
            assert(scale(low) == scale(bits) + 1);
            lemma_pow2_unfold(scale(low));
            lemma_split_product(half as nat, 2, r, p);
            assert(magnitude(low) == half as nat * (2 * p));
            assert(raised(bits) == magnitude(low) + r * p);
            lemma_magnitude_of_next(low);
            lemma_scaled_order(r, 1, p);
            lemma_scaled_order(r, 0, p);
            lemma_rounds_between(low, raised(bits));
        }
        if sum % 2 == 1 && low % 2 == 1 {
            low + 1
        } else {
            low
        }
    }
}

/// A value whose exponent field is below 103 is less than half the
/// spacing of the numbers just above 1.0.
proof fn lemma_tiny_magnitude(bits: u32)
    requires
        bits < INFINITY_BITS,
        exponent_field(bits) < 103,
    ensures
        magnitude(bits) < pow2(125),
{
    lemma_fields(bits);
    lemma2_to64();
    let p: nat = pow2(scale(bits));
    lemma_pow2_pos(scale(bits));
    lemma_pow2_increases(scale(bits), 101);
    lemma_pow2_adds(24, 101);
    lemma_scaled_order(significand(bits), pow2(24), p);
    assert(pow2(24) * p <= pow2(24) * pow2(101)) by (nonlinear_arith)
        requires
            p <= pow2(101),
    ;
}

/// Adds 1.0 to a value below 1.0.
fn step_up_below_one(bits: u32) -> (after: u32)
    requires
        bits < ONE_BITS,
    ensures
        rounds_to(raised(bits), after),
        ONE_BITS <= after <= TEN_BITS,
{
    let exponent: u32 = bits / FRACTION_SPAN;
    let fraction: u32 = bits % FRACTION_SPAN;
    proof {
        lemma_fields(bits);
        lemma_fields(ONE_BITS);
        lemma2_to64();
        lemma_raised_below_nine(bits);
        lemma_named_magnitudes();
        lemma_magnitude_of_next(ONE_BITS);
        lemma_pow2_unfold(126);
        lemma_pow2_adds(23, 126);
    }
    if exponent < 103 {
        proof {
            lemma_tiny_magnitude(bits);
            lemma_rounds_between(ONE_BITS, raised(bits));
        }
        ONE_BITS
    } else {
        let shift: u32 = 127 - exponent;
        let unit: u32 = 1u32 << shift;
        proof {
            lemma_pow2_increases(shift as nat, 24);
            lemma_u32_shl_is_mul(1, shift);
            assert(unit as nat == pow2(shift as nat));
            lemma_pow2_unfold(shift as nat);
        }
        let whole: u32 = FRACTION_SPAN + fraction;
        let quotient: u32 = whole / unit;
        let rest: u32 = whole % unit;
        let half: u32 = unit / 2;
        let low: u32 = ONE_BITS + quotient;
        proof {
            let p: nat = pow2(scale(bits));
            lemma_pow2_pos(scale(bits));
            lemma_pow2_adds(shift as nat, scale(bits));
            assert(unit as nat * p == pow2(126));
            assert(whole == quotient * unit + rest) by (nonlinear_arith)
                requires
                    quotient == whole / unit,
                    rest == whole % unit,
                    unit > 0,
            ;
            assert(quotient < FRACTION_SPAN) by (nonlinear_arith)
                requires
                    whole == quotient * unit + rest,
                    whole < 2 * FRACTION_SPAN,
                    unit >= 2,
            ;
            lemma_split_product(quotient as nat, unit as nat, rest as nat, p);
            lemma_fields(low);
            assert(exponent_field(low) == 127);
            assert(fraction_field(low) == quotient);
            lemma_split_product(quotient as nat, FRACTION_SPAN as nat, 0, pow2(126));
            assert(magnitude(low) == pow2(149) + quotient as nat * pow2(126));
            assert(raised(bits) == magnitude(low) + rest as nat * p);
            lemma_magnitude_of_next(low);
            lemma_split_product(half as nat, half as nat, 0, p);
            assert(pow2(126) == half as nat * p + half as nat * p);
            lemma_scaled_order(rest as nat, half as nat, p);
            lemma_scaled_order(rest as nat, unit as nat, p);
            lemma_rounds_between(low, raised(bits));
        }
        if rest > half || (rest == half && low % 2 == 1) {
            low + 1
        } else {
            low
        }
    }
}

/// One step up: adds 1.0 to a value from 0.0 to 10.0 and stops at 10.0.
/// The result is correctly rounded. A value outside the range is returned
/// unchanged.
pub fn step_up(bits: u32) -> (after: u32)
    ensures
        steps_up(bits, after),
        in_range(bits) ==> ONE_BITS <= after <= TEN_BITS,
{
    if bits == NEGATIVE_ZERO_BITS {
        proof {
            lemma_named_magnitudes();
            lemma_exact_rounds(ONE_BITS);
        }
        ONE_BITS
    } else if bits > TEN_BITS {
        bits
    } else if bits >= NINE_BITS {
        proof {
            lemma_named_magnitudes();
            if bits > NINE_BITS {
                lemma_magnitude_increases(NINE_BITS, bits);
            }
            lemma_exact_rounds(TEN_BITS);
        }
        TEN_BITS
    } else {
        if bits < ONE_BITS {
            step_up_below_one(bits)
        } else {
            step_up_from_one(bits)
        }
    }
}

proof fn lemma_double_product(x: nat, p: nat)
    by (nonlinear_arith)
    ensures
        (2 * x) * p == x * (2 * p),
{
}

proof fn lemma_difference_product(x: nat, y: nat, p: nat)
    by (nonlinear_arith)
    requires
        y <= x,
    ensures
        (x - y) * p == x * p - y * p,
{
}

/// Subtracts 1.0 from a value of at least 1.0 and at most 10.0. The
/// difference is a binary32 number, so nothing is rounded off.
fn step_down_from_one(bits: u32) -> (after: u32)
    requires
        ONE_BITS <= bits <= TEN_BITS,
    ensures
        after <= bits,
        magnitude(after) == lowered(bits),
{
    let exponent: u32 = bits / FRACTION_SPAN;
    let fraction: u32 = bits % FRACTION_SPAN;
    proof {
        lemma_fields(bits);
        lemma2_to64();
        lemma_named_magnitudes();
        if bits > ONE_BITS {
            lemma_magnitude_increases(ONE_BITS, bits);
        }
    }
    let shift: u32 = exponent - 127;
    let one: u32 = FRACTION_SPAN >> shift;
    proof {
        lemma_u32_shr_is_div(FRACTION_SPAN, shift);
        assert(shift == 0 || shift == 1 || shift == 2 || shift == 3);
        assert(one as nat == pow2((23 - shift) as nat));
        lemma_pow2_adds((23 - shift) as nat, scale(bits));
        lemma_difference_product(significand(bits), one as nat, pow2(scale(bits)));
    }
    let mut rest: u32 = FRACTION_SPAN + fraction - one;
    if rest == 0 {
        return 0;
    }
    let mut field: u32 = exponent;
    proof {
        assert(rest as nat * pow2((field - 1) as nat) == lowered(bits));
    }
    while rest < FRACTION_SPAN
        invariant
            0 < rest < 2 * FRACTION_SPAN,
            field <= exponent <= 130,
            exponent - field <= 23,
            pow2((exponent - field) as nat) <= rest,
            rest as nat * pow2((field - 1) as nat) == lowered(bits),
            127 <= exponent,
            bits == exponent * FRACTION_SPAN + fraction,
            field == exponent ==> rest <= FRACTION_SPAN + fraction,
        decreases field,
    {
        proof {
            lemma2_to64();
            if exponent - field == 23 {
                assert(false);
            }
            lemma_pow2_unfold((exponent - field + 1) as nat);
            lemma_pow2_unfold((field - 1) as nat);
            lemma_double_product(rest as nat, pow2((field - 2) as nat));
        }
        rest = rest * 2;
        field = field - 1;
    }
    let after: u32 = field * FRACTION_SPAN + (rest - FRACTION_SPAN);
    proof {
        lemma_fields(after);
        assert(exponent_field(after) == field);
        assert(fraction_field(after) == rest - FRACTION_SPAN);
    }
    after
}

/// One step down: subtracts 1.0 from a value from 0.0 to 10.0 and stops at
/// 0.0. The result is correctly rounded; from 1.0 upwards it is exact. A
/// zero of either sign and a value outside the range are returned
/// unchanged.
pub fn step_down(bits: u32) -> (after: u32)
    ensures
        steps_down(bits, after),
        in_range(bits) ==> in_range(after),
        in_range(bits) && magnitude(bits) > 0 ==> after < bits,
{
    if bits == 0 || bits > TEN_BITS {
        proof {
            lemma_named_magnitudes();
        }
        bits
    } else if bits < ONE_BITS {
        proof {
            lemma_named_magnitudes();
            lemma_magnitude_increases(0, bits);
            lemma_magnitude_increases(bits, ONE_BITS);
            lemma_exact_rounds(0);
        }
        0
    } else {
        let after: u32 = step_down_from_one(bits);
        proof {
            lemma_named_magnitudes();
            lemma_magnitude_increases(0, bits);
            lemma_exact_rounds(after);
            if after == bits {
                if bits > ONE_BITS {
                    lemma_magnitude_increases(ONE_BITS, bits);
                }
                lemma_pow2_pos(149);
            }
        }
        after
    }
}

} // verus!
