//! The influence stamp: a precomputed radial falloff curve, sampled at the
//! field's spatial resolution (one sample every 3 distance units, i.e. every
//! 196608 fixed-point units).
//!
//! Sample `i` corresponds to the spatial offset `i * step - influenceRadius`;
//! its value is a smoothstep `t * t * (3 - 2 * t)` of `t = 1 - |offset| /
//! influenceRadius`, clamped to zero at and beyond the radius.  The curve is
//! one unit (65536) at the center and zero at both ends.

use crate::fx::{fx_div, fxd_s, floor_div, mag};
use vstd::arithmetic::div_mod::{
    lemma_div_pos_is_pos, lemma_fundamental_div_mod, lemma_multiply_divide_le,
};
use vstd::prelude::*;

verus! {

/// Number of stamp samples for a given influence radius: the diameter in
/// sample steps, plus one for the center.
pub open spec fn stamp_len_s(inf: int) -> int {
    (2 * inf) / 196608 + 1
}

/// The falloff value of stamp sample `i` for influence radius `inf`.
pub open spec fn stamp_at(inf: int, i: int) -> int {
    let lx = i * 196608 - inf;
    let nd = fxd_s(mag(lx), inf);
    let t = 65536 - nd;
    if t > 0 {
        let t2 = t * t;
        (t2 * (196608 - 2 * t)) / 4294967296
    } else {
        0
    }
}

/// Every stamp sample lies in `[0, 65536]`.
pub proof fn lemma_stamp_at_range(inf: int, i: int)
    requires
        1 <= inf,
    ensures
        0 <= stamp_at(inf, i) <= 65536,
{
    let lx = i * 196608 - inf;
    let nd = fxd_s(mag(lx), inf);
    lemma_div_pos_is_pos(mag(lx) * 65536, inf);
    let t = 65536 - nd;
    if t > 0 {
        let t2 = t * t;
        assert(0 <= t2 * (196608 - 2 * t) <= 4294967296 * 65536) by (nonlinear_arith)
            requires
                0 < t <= 65536,
                t2 == t * t,
        ;
        lemma_div_pos_is_pos(t2 * (196608 - 2 * t), 4294967296);
        lemma_multiply_divide_le(t2 * (196608 - 2 * t), 4294967296, 65536);
    }
}

/// The stamp is symmetric about the source center whenever the diameter is
/// an exact multiple of the sample step (`2 * inf` divisible by 196608):
/// sample `i` equals sample `n - 1 - i` where `n` is the stamp length.
pub proof fn lemma_stamp_symmetric(inf: int, i: int)
    requires
        1 <= inf,
        (2 * inf) % 196608 == 0,
        0 <= i < stamp_len_s(inf),
    ensures
        stamp_at(inf, i) == stamp_at(inf, stamp_len_s(inf) - 1 - i),
{
    let n1 = (2 * inf) / 196608;
    lemma_fundamental_div_mod(2 * inf, 196608);
    assert(196608 * n1 == 2 * inf);
    let j = n1 - i;
    assert(j * 196608 - inf == -(i * 196608 - inf)) by (nonlinear_arith)
        requires
            196608 * n1 == 2 * inf,
            j == n1 - i,
    ;
    assert(mag(j * 196608 - inf) == mag(i * 196608 - inf));
}

/// Builds the stamp for the given influence radius.
pub fn build_stamp(inf: i128) -> (v: Vec<i128>)
    requires
        1 <= inf <= 0x1000000000,
    ensures
        v@.len() == stamp_len_s(inf as int),
        v@.len() <= 0x200000,
        forall|i: int| 0 <= i < v@.len() ==> #[trigger] v@[i] as int == stamp_at(inf as int, i),
{
    let n128: i128 = floor_div(2 * inf, 196608) + 1;
    proof {
        lemma_fundamental_div_mod(2 * inf as int, 196608);
        lemma_div_pos_is_pos(2 * inf as int, 196608);
    }
    let n: usize = n128 as usize;
    let mut v: Vec<i128> = Vec::new();
    let mut i: usize = 0;
    while i < n
        invariant
            n == stamp_len_s(inf as int),
            n <= 0x200000,
            1 <= inf <= 0x1000000000,
            i <= n,
            v@.len() == i,
            forall|k: int| 0 <= k < i ==> #[trigger] v@[k] as int == stamp_at(inf as int, k),
        decreases n - i,
    {
        proof {
            lemma_fundamental_div_mod(2 * inf as int, 196608);
        }
        let lx: i128 = (i as i128) * 196608 - inf;
        let a: i128 = if lx < 0 {
            -lx
        } else {
            lx
        };
        let nd: i128 = fx_div(a, inf);
        let t: i128 = 65536 - nd;
        proof {
            lemma_div_pos_is_pos(a as int * 65536, inf as int);
        }
        let val: i128 = if t > 0 {
            proof {
                assert(0 <= t * t <= 4294967296) by (nonlinear_arith)
                    requires
                        0 < t <= 65536,
                ;
            }
            let t2: i128 = t * t;
            proof {
                assert(0 <= t2 * (196608 - 2 * t) <= 281474976710656) by (nonlinear_arith)
                    requires
                        0 < t <= 65536,
                        t2 == t * t,
                ;
            }
            floor_div(t2 * (196608 - 2 * t), 4294967296)
        } else {
            0
        };
        v.push(val);
        i = i + 1;
    }
    v
}

} // verus!
