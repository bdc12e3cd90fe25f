//! Ripple sources and their lifecycle.
//!
//! A source has a position, a birth time and an intensity; its linger
//! duration scales between the configured bounds by the intensity relative
//! to the lifetime normalizer, and while it lives its strength decays as a
//! quadratic ease-out of its age.  At the linger boundary (inclusive) the
//! source expires and is removed by swapping the last live entry into its
//! slot, so removal does not preserve order.

use crate::fx::{
    fx_div, fx_mul, fxd_s, fxm_s, lemma_fxd_unit_range, lemma_fxm_unit_contract, lemma_mag_mul,
    mag,
};
use vstd::arithmetic::div_mod::{lemma_div_is_ordered, lemma_div_pos_is_pos};
use vstd::arithmetic::mul::lemma_mul_inequality;
use vstd::prelude::*;

verus! {

/// A transient ripple disturbance.
#[derive(Clone, Copy, PartialEq, Eq, Structural, Debug)]
pub struct Source {
    /// Horizontal position, fixed point.
    pub x: i128,
    /// Vertical position, fixed point.
    pub y: i128,
    /// Birth timestamp, fixed point, same epoch as the `now` of `compute`.
    pub created: i128,
    /// Nonnegative magnitude of the disturbance, fixed point.
    pub intensity: i128,
    /// Current decay factor in `[0, 65536]`, recomputed each surviving frame.
    pub strength: i128,
}

/// All scalar fields of a source stay within the engine's working range.
pub open spec fn src_bounded(s: Source) -> bool {
    &&& mag(s.x as int) <= 0x1000000000
    &&& mag(s.y as int) <= 0x1000000000
    &&& mag(s.created as int) <= 0x1000000000
    &&& 0 <= s.intensity <= 0x1000000000
    &&& 0 <= s.strength <= 65536
}

/// Intensity relative to the lifetime normalizer, clamped to one unit.
pub open spec fn ratio_s(intensity: int, lvt: int) -> int {
    let r = fxd_s(intensity, lvt);
    if r > 65536 {
        65536
    } else {
        r
    }
}

/// The linger duration of a source: the configured minimum plus the linger
/// range scaled by the clamped intensity ratio.
pub open spec fn linger_s(intensity: int, lvt: int, min_l: int, l_rng: int) -> int {
    min_l + fxm_s(l_rng, ratio_s(intensity, lvt))
}

/// The age of a source, clamped below at zero.
pub open spec fn age_s(now: int, created: int) -> int {
    if now - created < 0 {
        0
    } else {
        now - created
    }
}

/// Quadratic ease-out decay: `(1 - age / linger)^2` in fixed point.
pub open spec fn strength_s(age: int, linger: int) -> int {
    let p = fxd_s(age, linger);
    fxm_s(65536 - p, 65536 - p)
}

/// A source is expired once its age reaches its linger duration
/// (boundary inclusive).
pub open spec fn src_expired(s: Source, now: int, lvt: int, min_l: int, l_rng: int) -> bool {
    age_s(now, s.created as int) >= linger_s(s.intensity as int, lvt, min_l, l_rng)
}

/// A surviving source with its strength recomputed for the current frame.
pub open spec fn src_refresh(s: Source, now: int, lvt: int, min_l: int, l_rng: int) -> Source {
    Source {
        strength: strength_s(
            age_s(now, s.created as int),
            linger_s(s.intensity as int, lvt, min_l, l_rng),
        ) as i128,
        ..s
    }
}

/// The registry contents after one frame's maintenance pass: walk the
/// entries from the front; an expired entry is overwritten by the last
/// entry (which is then examined in its place), a live entry is refreshed
/// and kept.  This is exactly the swap-remove walk the engine performs.
pub open spec fn surviving(s: Seq<Source>, now: int, lvt: int, min_l: int, l_rng: int) -> Seq<
    Source,
>
    decreases s.len(),
{
    if s.len() == 0 {
        Seq::empty()
    } else if src_expired(s[0], now, lvt, min_l, l_rng) {
        surviving(s.update(0, s.last()).drop_last(), now, lvt, min_l, l_rng)
    } else {
        seq![src_refresh(s[0], now, lvt, min_l, l_rng)] + surviving(
            s.subrange(1, s.len() as int),
            now,
            lvt,
            min_l,
            l_rng,
        )
    }
}

/// Computes the linger duration of a source.
pub fn linger_of(intensity: i128, lvt: i128, min_l: i128, l_rng: i128) -> (r: i128)
    requires
        0 <= intensity <= 0x1000000000,
        1 <= lvt <= 0x1000000000,
        1 <= min_l <= 0x1000000000,
        0 <= l_rng <= 0x1000000000,
    ensures
        r as int == linger_s(intensity as int, lvt as int, min_l as int, l_rng as int),
        min_l <= r <= min_l + l_rng,
{
    let q: i128 = fx_div(intensity, lvt);
    proof {
        lemma_div_pos_is_pos(intensity as int * 65536, lvt as int);
    }
    let ratio: i128 = if q > 65536 {
        65536
    } else {
        q
    };
    proof {
        lemma_mag_mul(l_rng as int, ratio as int, 0x1000000000, 65536);
        lemma_fxm_unit_contract(l_rng as int, ratio as int, l_rng as int);
    }
    min_l + fx_mul(l_rng, ratio)
}

/// Computes the decay strength of a live source from its age and linger.
pub fn strength_of(age: i128, linger: i128) -> (r: i128)
    requires
        0 <= age < linger,
        linger <= 0x2000000000,
    ensures
        r as int == strength_s(age as int, linger as int),
        0 <= r <= 65536,
{
    let p: i128 = fx_div(age, linger);
    proof {
        lemma_fxd_unit_range(age as int, linger as int);
    }
    let inv: i128 = 65536 - p;
    proof {
        lemma_mag_mul(inv as int, inv as int, 65536, 65536);
        lemma_fxm_unit_contract(inv as int, inv as int, 65536);
    }
    fx_mul(inv, inv)
}

/// A newborn source has full strength.
///
/// Decay law, first part: at age zero the strength is exactly one unit.
pub proof fn lemma_strength_initial(linger: int)
    requires
        1 <= linger,
    ensures
        strength_s(0, linger) == 65536,
{
    assert(0int * 65536 == 0);
    assert(0int / linger == 0) by (nonlinear_arith)
        requires
            1 <= linger,
    ;
    assert((65536int * 65536) / 65536 == 65536) by (nonlinear_arith);
}

/// Decay law, second part: strength never increases as age grows, up to the
/// linger boundary.  (Two ages that round to the same fixed-point progress
/// share a strength value, so the decrease is not strict step by step.)
pub proof fn lemma_strength_monotone(a1: int, a2: int, linger: int)
    requires
        0 <= a1 <= a2 <= linger,
        1 <= linger,
    ensures
        strength_s(a1, linger) >= strength_s(a2, linger),
{
    let p1 = fxd_s(a1, linger);
    let p2 = fxd_s(a2, linger);
    lemma_mul_inequality(a1, a2, 65536);
    lemma_div_is_ordered(a1 * 65536, a2 * 65536, linger);
    lemma_fxd_unit_range(a1, linger);
    lemma_fxd_unit_range(a2, linger);
    assert((65536 - p2) * (65536 - p2) <= (65536 - p1) * (65536 - p1)) by (nonlinear_arith)
        requires
            0 <= p1 <= p2 <= 65536,
    ;
    lemma_div_is_ordered((65536 - p2) * (65536 - p2), (65536 - p1) * (65536 - p1), 65536);
}

/// Decay law, third part: expiry is boundary inclusive — a source whose age
/// has reached its linger duration, even exactly, is expired.
pub proof fn lemma_expiry_at_boundary(s: Source, now: int, lvt: int, min_l: int, l_rng: int)
    requires
        age_s(now, s.created as int) >= linger_s(s.intensity as int, lvt, min_l, l_rng),
    ensures
        src_expired(s, now, lvt, min_l, l_rng),
{
}

/// The maintenance walk never grows the registry, and every survivor is a
/// bounded source whose strength lies in `[0, 65536]`.
pub proof fn lemma_surviving_bounded(s: Seq<Source>, now: int, lvt: int, min_l: int, l_rng: int)
    requires
        forall|k: int| 0 <= k < s.len() ==> src_bounded(#[trigger] s[k]),
        1 <= lvt,
        1 <= min_l,
        0 <= l_rng,
    ensures
        surviving(s, now, lvt, min_l, l_rng).len() <= s.len(),
        forall|k: int|
            0 <= k < surviving(s, now, lvt, min_l, l_rng).len() ==> src_bounded(
                #[trigger] surviving(s, now, lvt, min_l, l_rng)[k],
            ),
    decreases s.len(),
{
    if s.len() == 0 {
    } else if src_expired(s[0], now, lvt, min_l, l_rng) {
        let s2 = s.update(0, s.last()).drop_last();
        assert(forall|k: int| 0 <= k < s2.len() ==> src_bounded(#[trigger] s2[k]));
        lemma_surviving_bounded(s2, now, lvt, min_l, l_rng);
    } else {
        let head = s[0];
        let age = age_s(now, head.created as int);
        let linger = linger_s(head.intensity as int, lvt, min_l, l_rng);
        lemma_linger_range(head.intensity as int, lvt, min_l, l_rng);
        lemma_strength_range(age, linger);
        let s2 = s.subrange(1, s.len() as int);
        assert(forall|k: int| 0 <= k < s2.len() ==> src_bounded(#[trigger] s2[k]));
        lemma_surviving_bounded(s2, now, lvt, min_l, l_rng);
    }
}

/// The linger duration lies between the configured bounds.
pub proof fn lemma_linger_range(intensity: int, lvt: int, min_l: int, l_rng: int)
    requires
        0 <= intensity,
        1 <= lvt,
        0 <= l_rng,
    ensures
        min_l <= linger_s(intensity, lvt, min_l, l_rng) <= min_l + l_rng,
{
    lemma_div_pos_is_pos(intensity * 65536, lvt);
    lemma_fxm_unit_contract(l_rng, ratio_s(intensity, lvt), l_rng);
}

/// The strength of any live source lies in `[0, 65536]`.
pub proof fn lemma_strength_range(age: int, linger: int)
    requires
        0 <= age <= linger,
        1 <= linger,
    ensures
        0 <= strength_s(age, linger) <= 65536,
{
    lemma_fxd_unit_range(age, linger);
    let p = fxd_s(age, linger);
    lemma_fxm_unit_contract(65536 - p, 65536 - p, 65536);
}

} // verus!
