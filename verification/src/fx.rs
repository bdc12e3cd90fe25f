//! Fixed-point arithmetic: values are integers carrying a scale of 1/65536.
//!
//! Every product or quotient rounds toward negative infinity (floor), which
//! matches the mathematical `/` on `int`, so the specification of each
//! operation is a single arithmetic expression.

use vstd::prelude::*;
use vstd::arithmetic::div_mod::{
    lemma_fundamental_div_mod, lemma_fundamental_div_mod_converse, lemma_div_is_ordered,
    lemma_div_is_ordered_by_denominator, lemma_div_pos_is_pos,
};
use vstd::arithmetic::mul::{lemma_mul_inequality, lemma_mul_upper_bound};

verus! {

/// One whole unit in fixed-point representation.
pub const SCALE: i128 = 65536;

/// Magnitude of a mathematical integer.
pub open spec fn mag(x: int) -> int {
    if x < 0 {
        -x
    } else {
        x
    }
}

/// Fixed-point product: `(a * b) / 65536`, rounded toward negative infinity.
pub open spec fn fxm_s(a: int, b: int) -> int {
    (a * b) / 65536
}

/// Fixed-point quotient: `(a * 65536) / b`, rounded toward negative infinity.
pub open spec fn fxd_s(a: int, b: int) -> int {
    (a * 65536) / b
}

/// Floor division of `a` by a positive divisor `d`.
///
/// The executable `/` on unsigned integers already matches the mathematical
/// `/`; for a negative dividend the quotient is corrected so that the result
/// is the floor rather than the truncation.
pub fn floor_div(a: i128, d: i128) -> (r: i128)
    requires
        1 <= d,
        mag(a as int) <= 0x40000000000000000000000000000000,
        d <= 0x40000000000000000000000000000000,
    ensures
        r as int == a as int / d as int,
        mag(r as int) <= mag(a as int),
{
    if a >= 0 {
        let q: u128 = (a as u128) / (d as u128);
        proof {
            lemma_div_is_ordered(0, a as int, d as int);
            lemma_div_is_ordered(a as int, mag(a as int), d as int);
            lemma_div_is_ordered_by_denominator(a as int, 1, d as int);
        }
        q as i128
    } else {
        let m: u128 = (-a) as u128;
        let du: u128 = d as u128;
        let q: u128 = m / du;
        let rem: u128 = m % du;
        proof {
            lemma_fundamental_div_mod(m as int, du as int);
            assert(m as int == d as int * (q as int) + rem as int);
            if rem == 0 {
                assert(a as int == (-(q as int)) * (d as int) + 0) by (nonlinear_arith)
                    requires
                        m as int == d as int * (q as int) + rem as int,
                        rem as int == 0,
                        a as int == -(m as int),
                ;
                lemma_fundamental_div_mod_converse(a as int, d as int, -(q as int), 0);
            } else {
                assert(a as int == (-(q as int) - 1) * (d as int) + (d as int - rem as int))
                    by (nonlinear_arith)
                    requires
                        m as int == d as int * (q as int) + rem as int,
                        a as int == -(m as int),
                ;
                lemma_fundamental_div_mod_converse(
                    a as int,
                    d as int,
                    -(q as int) - 1,
                    d as int - rem as int,
                );
            }
            lemma_div_is_ordered_by_denominator(m as int, 1, d as int);
            if rem != 0 {
                assert(q as int <= d as int * (q as int)) by (nonlinear_arith)
                    requires
                        1 <= d as int,
                        0 <= q as int,
                ;
            }
        }
        if rem == 0 {
            -(q as i128)
        } else {
            -(q as i128) - 1
        }
    }
}

/// Fixed-point multiplication; the product is formed exactly in `i128`
/// and rescaled with a floor division.
pub fn fx_mul(a: i128, b: i128) -> (r: i128)
    requires
        mag(a as int * b as int) <= 0x40000000000000000000000000000000,
    ensures
        r as int == fxm_s(a as int, b as int),
        mag(r as int) <= mag(a as int * b as int),
{
    let p: i128 = a * b;
    floor_div(p, SCALE)
}

/// Fixed-point division by a positive divisor.
pub fn fx_div(a: i128, b: i128) -> (r: i128)
    requires
        1 <= b,
        b <= 0x40000000000000000000000000000000,
        mag(a as int) <= 0x1000000000000000000000000000,
    ensures
        r as int == fxd_s(a as int, b as int),
{
    let p: i128 = a * SCALE;
    floor_div(p, b)
}

/// Euclidean remainder with a positive modulus; the result is in `[0, m)`.
pub fn euclid_mod(a: i128, m: i128) -> (r: i128)
    requires
        1 <= m,
        m <= 0x40000000000000000000000000000000,
        mag(a as int) <= 0x20000000000000000000000000000000,
    ensures
        r as int == a as int % m as int,
        0 <= r < m,
{
    let q: i128 = floor_div(a, m);
    proof {
        lemma_fundamental_div_mod(a as int, m as int);
        lemma_mul_upper_bound(
            m as int,
            0x40000000000000000000000000000000,
            mag(q as int),
            0x20000000000000000000000000000000,
        );
        lemma_mul_inequality(0, mag(q as int), m as int);
    }
    a - m * q
}

/// The magnitude of a product is bounded by the product of the bounds.
pub proof fn lemma_mag_mul(a: int, b: int, aa: int, bb: int)
    requires
        mag(a) <= aa,
        mag(b) <= bb,
    ensures
        mag(a * b) <= aa * bb,
{
    assert(mag(a * b) <= aa * bb) by (nonlinear_arith)
        requires
            mag(a) <= aa,
            mag(b) <= bb,
    ;
}

/// Floor division by a positive divisor shrinks a magnitude bound, up to the
/// one unit the floor may add on the negative side.
pub proof fn lemma_floor_div_mag(x: int, xx: int, d: int)
    requires
        mag(x) <= xx,
        1 <= d,
    ensures
        mag(x / d) <= xx / d + 1,
{
    if x >= 0 {
        lemma_div_pos_is_pos(x, d);
        lemma_div_is_ordered(x, xx, d);
    } else {
        lemma_fundamental_div_mod(x, d);
        lemma_div_is_ordered(-xx, x, d);
        lemma_fundamental_div_mod(xx, d);
        if xx % d == 0 {
            assert(-xx == (-(xx / d)) * d + 0) by (nonlinear_arith)
                requires
                    xx == d * (xx / d) + xx % d,
                    xx % d == 0,
            ;
            lemma_fundamental_div_mod_converse(-xx, d, -(xx / d), 0);
        } else {
            assert(-xx == (-(xx / d) - 1) * d + (d - xx % d)) by (nonlinear_arith)
                requires
                    xx == d * (xx / d) + xx % d,
            ;
            lemma_fundamental_div_mod_converse(-xx, d, -(xx / d) - 1, d - xx % d);
        }
    }
}

/// Magnitude bound for a fixed-point product.
pub proof fn lemma_fxm_mag(a: int, b: int, aa: int, bb: int)
    requires
        mag(a) <= aa,
        mag(b) <= bb,
    ensures
        mag(fxm_s(a, b)) <= (aa * bb) / 65536 + 1,
        mag(a * b) <= aa * bb,
{
    lemma_mag_mul(a, b, aa, bb);
    lemma_floor_div_mag(a * b, aa * bb, 65536);
}

/// Magnitude bound for a fixed-point quotient with a positive divisor.
pub proof fn lemma_fxd_mag(a: int, aa: int, b: int)
    requires
        mag(a) <= aa,
        1 <= b,
    ensures
        mag(fxd_s(a, b)) <= aa * 65536 + 1,
{
    lemma_mag_mul(a, 65536, aa, 65536);
    lemma_floor_div_mag(a * 65536, aa * 65536, b);
    lemma_div_is_ordered_by_denominator(aa * 65536, 1, b);
}

/// A fixed-point quotient of values `0 <= a <= b` lies in `[0, 65536]`.
pub proof fn lemma_fxd_unit_range(a: int, b: int)
    requires
        0 <= a,
        a <= b,
        1 <= b,
    ensures
        0 <= fxd_s(a, b) <= 65536,
{
    lemma_div_pos_is_pos(a * 65536, b);
    lemma_mul_inequality(a, b, 65536);
    lemma_div_is_ordered(a * 65536, b * 65536, b);
    assert((b * 65536) / b == 65536) by (nonlinear_arith)
        requires
            1 <= b,
    ;
}

/// Multiplying by a factor in `[0, 65536]` cannot grow a nonnegative
/// fixed-point value.
pub proof fn lemma_fxm_unit_contract(a: int, b: int, aa: int)
    requires
        0 <= a <= aa,
        0 <= b <= 65536,
    ensures
        0 <= fxm_s(a, b) <= aa,
{
    lemma_mul_upper_bound(a, aa, b, 65536);
    lemma_div_pos_is_pos(a * b, 65536);
    lemma_div_is_ordered(a * b, aa * 65536, 65536);
    assert((aa * 65536) / 65536 == aa) by (nonlinear_arith);
}

} // verus!
