//! Immutable lookup tables for approximate trigonometry and lattice noise.
//!
//! The table holds 4352 fixed-point entries: indices `[0, 4096)` are one full
//! period of an approximate sine (a rational approximation evaluated in exact
//! integer arithmetic, so the table is reproducible bit for bit), and indices
//! `[4096, 4352)` are 256 noise values in roughly `[0.4, 1.0]`, generated by a
//! fixed deterministic hash of the index.  All trigonometric and noise
//! evaluation in the engine routes through these entries.

use crate::fx::{euclid_mod, floor_div, mag};
use vstd::arithmetic::div_mod::{
    lemma_div_is_ordered, lemma_div_pos_is_pos, lemma_mod_division_less_than_divisor,
    lemma_multiply_divide_le,
};
use vstd::prelude::*;

verus! {

/// Half-period sine approximation on table units: `k` ranges over `[0, 2048)`
/// where 2048 table units correspond to a half turn; the value is the sine
/// scaled by 65536.
pub open spec fn sin_half(k: int) -> int {
    let kk = k * (2048 - k);
    (16 * kk * 65536) / (20971520 - 4 * kk)
}

/// One full period of the sine table: the second half is the negated mirror
/// of the first half.
pub open spec fn sin_entry(i: int) -> int {
    if i < 2048 {
        sin_half(i)
    } else {
        -sin_half(i - 2048)
    }
}

/// Deterministic noise hash for lattice index `i`, scaled into
/// `[26214, 65535]` (about `[0.4, 1.0)` in fixed point).
pub open spec fn noise_entry(i: int) -> int {
    let f = (i * 2654435761) % 65536;
    26214 + (f * 39322) / 65536
}

/// The full table: sine period followed by the noise block.
pub open spec fn lut_entry(i: int) -> int {
    if i < 4096 {
        sin_entry(i)
    } else {
        noise_entry(i - 4096)
    }
}

/// Index into the sine period for a fixed-point phase `x` (radians):
/// scale by `4096 / 2pi` and wrap into the period.
pub open spec fn sin_index(x: int) -> int {
    ((x * 42722829) / 4294967296) % 4096
}

/// The approximate sine of a fixed-point phase.
pub open spec fn fsin_s(x: int) -> int {
    sin_entry(sin_index(x))
}

/// The approximate cosine: a sine lookup with a quarter-period phase offset.
pub open spec fn fcos_s(x: int) -> int {
    fsin_s(x + 102944)
}

/// The noise value for a lattice index, wrapped into the noise block.
pub open spec fn fnoise_s(i: int) -> int {
    noise_entry(i % 256)
}

/// Each sine entry has magnitude at most one unit (65536).
pub proof fn lemma_sin_entry_bound(i: int)
    requires
        0 <= i < 4096,
    ensures
        mag(sin_entry(i)) <= 65536,
{
    let k = if i < 2048 {
        i
    } else {
        i - 2048
    };
    let kk = k * (2048 - k);
    assert(0 <= kk <= 1048576) by (nonlinear_arith)
        requires
            kk == k * (2048 - k),
            0 <= k < 2048,
    ;
    lemma_div_pos_is_pos(16 * kk * 65536, 20971520 - 4 * kk);
    lemma_multiply_divide_le(16 * kk * 65536, 20971520 - 4 * kk, 65536);
}

/// Each noise entry lies in `[26214, 65535]`.
pub proof fn lemma_noise_entry_bound(i: int)
    ensures
        26214 <= noise_entry(i) <= 65535,
{
    let f = (i * 2654435761) % 65536;
    lemma_mod_division_less_than_divisor(i * 2654435761, 65536);
    lemma_div_pos_is_pos(f * 39322, 65536);
    lemma_div_is_ordered(f * 39322, 65535int * 39322, 65536);
}

/// The approximate sine of any phase has magnitude at most one unit.
pub proof fn lemma_fsin_bound(x: int)
    ensures
        mag(fsin_s(x)) <= 65536,
{
    lemma_mod_division_less_than_divisor((x * 42722829) / 4294967296, 4096);
    lemma_sin_entry_bound(sin_index(x));
}

/// The noise value of any lattice index lies in `[26214, 65535]`.
pub proof fn lemma_fnoise_bound(i: int)
    ensures
        26214 <= fnoise_s(i) <= 65535,
{
    lemma_mod_division_less_than_divisor(i, 256);
    lemma_noise_entry_bound(i % 256);
}

/// The precomputed sine and noise tables; read-only after construction.
pub struct Tables {
    pub lut: Vec<i128>,
}

impl Tables {
    /// The table holds exactly the 4352 entries of the fixed construction.
    pub open spec fn wf(self) -> bool {
        &&& self.lut@.len() == 4352
        &&& forall|i: int| 0 <= i < 4352 ==> #[trigger] self.lut@[i] as int == lut_entry(i)
    }

    /// Builds both tables; the contents depend on nothing but this code.
    pub fn build() -> (t: Tables)
        ensures
            t.wf(),
    {
        let mut lut: Vec<i128> = Vec::new();
        let mut i: usize = 0;
        while i < 4096
            invariant
                i <= 4096,
                lut@.len() == i,
                forall|j: int| 0 <= j < i ==> #[trigger] lut@[j] as int == lut_entry(j),
            decreases 4096 - i,
        {
            let k: i128 = if i < 2048 {
                i as i128
            } else {
                (i - 2048) as i128
            };
            proof {
                assert(0 <= k as int * (2048 - k as int) <= 1048576) by (nonlinear_arith)
                    requires
                        0 <= (k as int) && (k as int) < 2048,
                ;
            }
            let kk: i128 = k * (2048 - k);
            let num: i128 = 16 * kk * 65536;
            let den: i128 = 20971520 - 4 * kk;
            let v: i128 = floor_div(num, den);
            proof {
                lemma_div_pos_is_pos(num as int, den as int);
                lemma_multiply_divide_le(num as int, den as int, 65536);
            }
            let e: i128 = if i < 2048 {
                v
            } else {
                -v
            };
            lut.push(e);
            i = i + 1;
        }
        let mut n: usize = 0;
        while n < 256
            invariant
                n <= 256,
                lut@.len() == 4096 + n,
                forall|j: int| 0 <= j < 4096 + n ==> #[trigger] lut@[j] as int == lut_entry(j),
            decreases 256 - n,
        {
            let h: i128 = (n as i128) * 2654435761;
            let f: i128 = euclid_mod(h, 65536);
            let v: i128 = 26214 + floor_div(f * 39322, 65536);
            proof {
                lemma_div_pos_is_pos(f as int * 39322, 65536);
            }
            lut.push(v);
            n = n + 1;
        }
        Tables { lut }
    }

    /// The approximate sine of a fixed-point phase, by table lookup.
    pub fn sin_at(&self, x: i128) -> (r: i128)
        requires
            self.wf(),
            mag(x as int) <= 0x40000000000000000000000,
        ensures
            r as int == fsin_s(x as int),
    {
        proof {
            crate::fx::lemma_mag_mul(x as int, 42722829, 0x40000000000000000000000, 42722829);
            assert(0x40000000000000000000000 * 42722829 < 0x40000000000000000000000000000000)
                by (nonlinear_arith);
        }
        let s: i128 = x * 42722829;
        let q: i128 = floor_div(s, 4294967296);
        let idx: i128 = euclid_mod(q, 4096);
        self.lut[idx as usize]
    }

    /// The approximate cosine of a fixed-point phase.
    pub fn cos_at(&self, x: i128) -> (r: i128)
        requires
            self.wf(),
            mag(x as int) <= 0x20000000000000000000000,
        ensures
            r as int == fcos_s(x as int),
    {
        self.sin_at(x + 102944)
    }

    /// The noise value of a lattice index, by table lookup.
    pub fn noise_at(&self, i: i128) -> (r: i128)
        requires
            self.wf(),
            mag(i as int) <= 0x20000000000000000000000000000000,
        ensures
            r as int == fnoise_s(i as int),
    {
        let idx: i128 = euclid_mod(i, 256);
        self.lut[4096 + idx as usize]
    }
}

} // verus!
