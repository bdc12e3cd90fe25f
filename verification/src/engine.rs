//! The wave engine: configuration, resizing, the ripple registry, and the
//! per-frame height-field evaluation.
//!
//! All scalar quantities are fixed-point numbers (scale 1/65536) in `i128`.
//! The height field is an ordered sequence of vertical offsets sampled every
//! 3 distance units (196608 fixed-point units); each frame combines a
//! background oscillation with the contributions of the live ripple sources.

use crate::fx::{
    fx_div, fx_mul, fxd_s, fxm_s, floor_div, lemma_fxd_unit_range, lemma_fxm_mag,
    lemma_fxm_unit_contract, lemma_mag_mul, mag,
};
use vstd::arithmetic::div_mod::{
    lemma_div_is_ordered, lemma_div_is_ordered_by_denominator, lemma_div_of0,
    lemma_div_pos_is_pos, lemma_fundamental_div_mod, lemma_mod_division_less_than_divisor,
};
use crate::source::{
    linger_of, src_bounded, src_expired, src_refresh, strength_of, surviving, Source,
};
use crate::stamp::{build_stamp, lemma_stamp_at_range, stamp_at, stamp_len_s};
use crate::tables::{fcos_s, fnoise_s, fsin_s, lemma_fnoise_bound, lemma_fsin_bound, Tables};
use vstd::prelude::*;

verus! {

/// The per-frame evaluation context: everything the height formula reads
/// apart from the sources themselves.
pub struct FrameCfg {
    /// The influence stamp contents.
    pub stamp: Seq<i128>,
    /// Number of field samples.
    pub np: int,
    /// Vertical center of the surface.
    pub cy: int,
    /// Vertical attenuation factor.
    pub damp: int,
    /// Influence radius of a ripple.
    pub inf: int,
    /// Per-source oscillation frequency.
    pub wfreq: int,
    /// Per-source oscillation phase speed.
    pub wspeed: int,
    /// Per-source oscillation amplitude.
    pub wamp: int,
    /// Background oscillation frequency.
    pub gfreq: int,
    /// Background oscillation amplitude.
    pub gamp: int,
}

/// The spatial position of field sample `j`: one sample every 3 units.
pub open spec fn x_pos(j: int) -> int {
    j * 196608
}

/// The background wave at sample `j`: the approximate sine of the scaled
/// position plus the frame phase, scaled by the background amplitude.
pub open spec fn base_wave_at(c: FrameCfg, j: int, phase: int) -> int {
    fxm_s(fsin_s(fxm_s(x_pos(j), c.gfreq) + phase), c.gamp)
}

/// Vertical attenuation of a source at height `sy`: sources nearer the
/// vertical center produce larger amplitude.
pub open spec fn adv_amp_s(c: FrameCfg, sy: int) -> int {
    let icy = fxd_s(131072, c.cy);
    let t1 = 65536 - fxm_s(mag(sy - c.cy), icy);
    fxm_s(fxm_s(t1, c.cy), c.damp)
}

/// First field sample reached by a source at `sx`, clipped below at zero.
pub open spec fn start_i(c: FrameCfg, sx: int) -> int {
    let s = (sx - c.inf) / 196608;
    if s < 0 {
        0
    } else {
        s
    }
}

/// Last field sample reached by a source at `sx`, clipped above at the
/// field's end (may be negative, in which case the range is empty).
pub open spec fn end_i(c: FrameCfg, sx: int) -> int {
    let e = (sx + c.inf) / 196608;
    if e >= c.np {
        c.np - 1
    } else {
        e
    }
}

/// The stamp sample corresponding to field sample `j` for a source at `sx`.
pub open spec fn stamp_i(c: FrameCfg, sx: int, j: int) -> int {
    (x_pos(j) - sx + c.inf) / 196608
}

/// The per-source oscillation phase at sample `j`.
pub open spec fn wph_s(c: FrameCfg, j: int, phase: int) -> int {
    fxm_s(x_pos(j), c.wfreq) + fxm_s(phase, c.wspeed)
}

/// Interpolated lattice noise for a wave phase: the phase selects a lattice
/// cell of width pi, and the two adjacent noise values are blended with a
/// cosine-eased weight of the position inside the cell.
pub open spec fn noise_mix_s(wph: int) -> int {
    let ni = wph / 205887;
    let a1 = fnoise_s(ni);
    let a2 = fnoise_s(ni + 1);
    let fp = fxd_s(wph - ni * 205887, 205887);
    let sf = (65536 - fcos_s(fxm_s(fp, 205887))) / 2;
    a1 + fxm_s(a2 - a1, sf)
}

/// Whether a source at `sx` influences field sample `j` at all: the sample
/// lies in the source's clipped range and maps into the stamp.
pub open spec fn in_reach(c: FrameCfg, sx: int, j: int) -> bool {
    &&& c.cy >= 1
    &&& start_i(c, sx) <= j <= end_i(c, sx)
    &&& 0 <= stamp_i(c, sx, j) < c.stamp.len()
}

/// The falloff coverage a source lays on sample `j`: its stamp value scaled
/// by its current strength, zero outside its reach.
#[verifier::opaque]
pub open spec fn cov_s(c: FrameCfg, src: Source, j: int) -> int {
    if in_reach(c, src.x as int, j) {
        fxm_s(c.stamp[stamp_i(c, src.x as int, j)] as int, src.strength as int)
    } else {
        0
    }
}

/// The displacement a source adds to sample `j`: its oscillation value
/// scaled by amplitude, noise, falloff coverage and vertical attenuation.
#[verifier::opaque]
pub open spec fn contrib_s(c: FrameCfg, src: Source, j: int, phase: int) -> int {
    if in_reach(c, src.x as int, j) {
        let fo = fxm_s(c.stamp[stamp_i(c, src.x as int, j)] as int, src.strength as int);
        let wph = wph_s(c, j, phase);
        let v1 = fxm_s(fsin_s(wph), c.wamp);
        let v2 = fxm_s(v1, noise_mix_s(wph));
        let v3 = fxm_s(v2, fo);
        fxm_s(v3, adv_amp_s(c, src.y as int))
    } else {
        0
    }
}

/// Total displacement of a sequence of live sources at sample `j`.
pub open spec fn disp_sum(c: FrameCfg, srcs: Seq<Source>, j: int, phase: int) -> int
    decreases srcs.len(),
{
    if srcs.len() == 0 {
        0
    } else {
        disp_sum(c, srcs.drop_last(), j, phase) + contrib_s(c, srcs.last(), j, phase)
    }
}

/// The strongest falloff coverage any live source lays on sample `j`.
pub open spec fn fall_max(c: FrameCfg, srcs: Seq<Source>, j: int) -> int
    decreases srcs.len(),
{
    if srcs.len() == 0 {
        0
    } else {
        let rest = fall_max(c, srcs.drop_last(), j);
        let cv = cov_s(c, srcs.last(), j);
        if cv > rest {
            cv
        } else {
            rest
        }
    }
}

/// The height of sample `j`: the vertical center, plus the background wave
/// suppressed by the strongest ripple coverage, plus the accumulated ripple
/// displacement.
pub open spec fn height_at(c: FrameCfg, srcs: Seq<Source>, j: int, phase: int) -> int {
    c.cy + fxm_s(base_wave_at(c, j, phase), 65536 - fall_max(c, srcs, j)) + disp_sum(
        c,
        srcs,
        j,
        phase,
    )
}

/// The wave engine.  Field buffers are reallocated only by `resize`; the
/// stamp is rebuilt only by `configure`; sources are added by `add_source`
/// and expire inside `compute`.
pub struct WaveEngine {
    /// Sine and noise lookup tables, built once.
    pub tables: Tables,
    /// Per-frame displacement accumulation buffer.
    pub disp: Vec<i128>,
    /// Per-frame falloff-coverage buffer.
    pub fall: Vec<i128>,
    /// The height field produced by the last `compute` call.
    pub y: Vec<i128>,
    /// The influence stamp; empty until the first `configure` call.
    pub stamp: Vec<i128>,
    /// The live ripple sources, at most 25.
    pub sources: Vec<Source>,
    /// Ring cursor for overwrite-on-full insertion.
    pub src_idx: usize,
    /// Surface width, fixed point.
    pub width: i128,
    /// Surface height, fixed point.
    pub height: i128,
    /// Half the surface height, fixed point.
    pub center_y: i128,
    /// Number of field samples; buffers always have exactly this length.
    pub num_points: usize,
    /// Background oscillation frequency.
    pub conf_gfreq: i128,
    /// Background oscillation amplitude.
    pub conf_gamp: i128,
    /// Influence radius of a ripple.
    pub conf_inf: i128,
    /// Vertical attenuation factor.
    pub conf_damp: i128,
    /// Reference intensity for linger scaling.
    pub conf_lvt: i128,
    /// Minimum linger duration.
    pub conf_min_l: i128,
    /// Linger duration range above the minimum.
    pub conf_l_rng: i128,
    /// Per-source oscillation frequency.
    pub wave_freq: i128,
    /// Per-source oscillation phase speed.
    pub wave_speed: i128,
    /// Per-source oscillation amplitude.
    pub wave_amp: i128,
}

impl WaveEngine {
    /// The per-frame evaluation context of this engine state.
    pub open spec fn frame_cfg(self) -> FrameCfg {
        FrameCfg {
            stamp: self.stamp@,
            np: self.num_points as int,
            cy: self.center_y as int,
            damp: self.conf_damp as int,
            inf: self.conf_inf as int,
            wfreq: self.wave_freq as int,
            wspeed: self.wave_speed as int,
            wamp: self.wave_amp as int,
            gfreq: self.conf_gfreq as int,
            gamp: self.conf_gamp as int,
        }
    }

    /// Well-formedness: buffers sized to the field, all configuration within
    /// the working range, sources bounded and at most 25.
    pub open spec fn wf(self) -> bool {
        &&& self.tables.wf()
        &&& self.disp@.len() == self.num_points
        &&& self.fall@.len() == self.num_points
        &&& self.y@.len() == self.num_points
        &&& self.num_points <= 0x200000
        &&& 0 <= self.width <= 0x1000000000
        &&& (self.height == 0 || 65536 <= self.height)
        &&& self.height <= 0x1000000000
        &&& self.center_y as int == self.height as int / 2
        &&& mag(self.conf_gfreq as int) <= 0x1000000000
        &&& mag(self.conf_gamp as int) <= 0x1000000000
        &&& 1 <= self.conf_inf <= 0x1000000000
        &&& mag(self.conf_damp as int) <= 0x1000000000
        &&& 1 <= self.conf_lvt <= 0x1000000000
        &&& 1 <= self.conf_min_l <= 0x1000000000
        &&& 0 <= self.conf_l_rng <= 0x1000000000
        &&& mag(self.wave_freq as int) <= 0x1000000000
        &&& mag(self.wave_speed as int) <= 0x1000000000
        &&& mag(self.wave_amp as int) <= 0x1000000000
        &&& self.sources@.len() <= 25
        &&& self.src_idx < 25
        &&& forall|k: int| 0 <= k < self.sources@.len() ==> src_bounded(#[trigger] self.sources@[k])
        &&& self.stamp@.len() <= 0x200000
        &&& forall|k: int| 0 <= k < self.stamp@.len() ==> 0 <= #[trigger] self.stamp@[k] <= 65536
    }

    /// A fresh engine: lookup tables built, empty field buffers, empty
    /// stamp, no sources, and the default configuration.
    pub fn new() -> (e: WaveEngine)
        ensures
            e.wf(),
            e.sources@.len() == 0,
            e.src_idx == 0,
            e.num_points == 0,
            e.width == 0,
            e.height == 0,
            e.center_y == 0,
            e.stamp@.len() == 0,
            e.conf_gfreq == 1311,
            e.conf_gamp == 327680,
            e.conf_inf == 27525120,
            e.conf_damp == 4522,
            e.conf_lvt == 65536,
            e.conf_min_l == 39321600,
            e.conf_l_rng == 104857600,
            e.wave_freq == 2621,
            e.wave_speed == 45875,
            e.wave_amp == 13107,
    {
        WaveEngine {
            tables: Tables::build(),
            disp: Vec::new(),
            fall: Vec::new(),
            y: Vec::new(),
            stamp: Vec::new(),
            sources: Vec::new(),
            src_idx: 0,
            width: 0,
            height: 0,
            center_y: 0,
            num_points: 0,
            conf_gfreq: 1311,
            conf_gamp: 327680,
            conf_inf: 27525120,
            conf_damp: 4522,
            conf_lvt: 65536,
            conf_min_l: 39321600,
            conf_l_rng: 104857600,
            wave_freq: 2621,
            wave_speed: 45875,
            wave_amp: 13107,
        }
    }

    /// Applies a configuration and synchronously rebuilds the influence
    /// stamp for the new radius.  `max_l` is the maximum linger duration;
    /// the stored range is `max_l - min_l`.
    pub fn configure(
        &mut self,
        gfreq: i128,
        gamp: i128,
        inf: i128,
        damp: i128,
        lvt: i128,
        min_l: i128,
        max_l: i128,
    )
        requires
            old(self).wf(),
            mag(gfreq as int) <= 0x1000000000,
            mag(gamp as int) <= 0x1000000000,
            1 <= inf <= 0x1000000000,
            mag(damp as int) <= 0x1000000000,
            1 <= lvt <= 0x1000000000,
            1 <= min_l <= max_l <= 0x1000000000,
        ensures
            final(self).wf(),
            final(self).conf_gfreq == gfreq,
            final(self).conf_gamp == gamp,
            final(self).conf_inf == inf,
            final(self).conf_damp == damp,
            final(self).conf_lvt == lvt,
            final(self).conf_min_l == min_l,
            final(self).conf_l_rng == max_l - min_l,
            final(self).stamp@.len() == stamp_len_s(inf as int),
            forall|i: int|
                0 <= i < final(self).stamp@.len() ==> #[trigger] final(self).stamp@[i] as int == stamp_at(
                    inf as int,
                    i,
                ),
            final(self).sources@ == old(self).sources@,
            final(self).src_idx == old(self).src_idx,
            final(self).tables == old(self).tables,
            final(self).disp@ == old(self).disp@,
            final(self).fall@ == old(self).fall@,
            final(self).y@ == old(self).y@,
            final(self).width == old(self).width,
            final(self).height == old(self).height,
            final(self).center_y == old(self).center_y,
            final(self).num_points == old(self).num_points,
            final(self).wave_freq == old(self).wave_freq,
            final(self).wave_speed == old(self).wave_speed,
            final(self).wave_amp == old(self).wave_amp,
    {
        self.conf_gfreq = gfreq;
        self.conf_gamp = gamp;
        self.conf_inf = inf;
        self.conf_damp = damp;
        self.conf_lvt = lvt;
        self.conf_min_l = min_l;
        self.conf_l_rng = max_l - min_l;
        let st = build_stamp(inf);
        proof {
            assert forall|k: int| 0 <= k < st@.len() implies 0 <= #[trigger] st@[k] <= 65536 by {
                lemma_stamp_at_range(inf as int, k);
            }
        }
        self.stamp = st;
    }

    /// Updates the per-source oscillation parameters; they take effect on
    /// the next `compute` call.
    pub fn set_wave_params(&mut self, freq: i128, speed: i128, amp: i128)
        requires
            old(self).wf(),
            mag(freq as int) <= 0x1000000000,
            mag(speed as int) <= 0x1000000000,
            mag(amp as int) <= 0x1000000000,
        ensures
            final(self).wf(),
            final(self).wave_freq == freq,
            final(self).wave_speed == speed,
            final(self).wave_amp == amp,
            *final(self) == (WaveEngine { wave_freq: freq, wave_speed: speed, wave_amp: amp, ..*old(self) }),
    {
        self.wave_freq = freq;
        self.wave_speed = speed;
        self.wave_amp = amp;
    }

    /// Recomputes the sample count for a new surface size and reallocates
    /// the three field buffers, zeroed.  `num_points` is the width in
    /// sample steps plus two.
    pub fn resize(&mut self, width: i128, height: i128)
        requires
            old(self).wf(),
            0 <= width <= 0x1000000000,
            65536 <= height <= 0x1000000000,
        ensures
            final(self).wf(),
            final(self).width == width,
            final(self).height == height,
            final(self).center_y as int == height as int / 2,
            final(self).num_points as int == width as int / 196608 + 2,
            final(self).disp@ =~= Seq::new(final(self).num_points as nat, |i: int| 0i128),
            final(self).fall@ =~= Seq::new(final(self).num_points as nat, |i: int| 0i128),
            final(self).y@ =~= Seq::new(final(self).num_points as nat, |i: int| 0i128),
            final(self).sources@ == old(self).sources@,
            final(self).src_idx == old(self).src_idx,
            final(self).tables == old(self).tables,
            final(self).stamp@ == old(self).stamp@,
            final(self).conf_gfreq == old(self).conf_gfreq,
            final(self).conf_gamp == old(self).conf_gamp,
            final(self).conf_inf == old(self).conf_inf,
            final(self).conf_damp == old(self).conf_damp,
            final(self).conf_lvt == old(self).conf_lvt,
            final(self).conf_min_l == old(self).conf_min_l,
            final(self).conf_l_rng == old(self).conf_l_rng,
            final(self).wave_freq == old(self).wave_freq,
            final(self).wave_speed == old(self).wave_speed,
            final(self).wave_amp == old(self).wave_amp,
    {
        self.width = width;
        self.height = height;
        self.center_y = floor_div(height, 2);
        proof {
            vstd::arithmetic::div_mod::lemma_fundamental_div_mod(width as int, 196608);
            vstd::arithmetic::div_mod::lemma_div_pos_is_pos(width as int, 196608);
        }
        let np128: i128 = floor_div(width, 196608) + 2;
        let np: usize = np128 as usize;
        self.num_points = np;
        self.disp = zeros(np);
        self.fall = zeros(np);
        self.y = zeros(np);
        proof {
            vstd::arithmetic::div_mod::lemma_div_pos_is_pos(height as int, 2);
            vstd::arithmetic::div_mod::lemma_div_is_ordered(height as int, 0x1000000000, 2);
            assert(0x1000000000int / 2 == 0x800000000) by (nonlinear_arith);
        }
    }

    /// Registers a new ripple source.  Below capacity the source is
    /// appended; at capacity it overwrites the slot under the ring cursor,
    /// which then advances by one (mod 25) — strict insertion-order
    /// overwrite, regardless of the evicted source's remaining linger.
    pub fn add_source(&mut self, x: i128, y: i128, time: i128, intensity: i128)
        requires
            old(self).wf(),
            mag(x as int) <= 0x1000000000,
            mag(y as int) <= 0x1000000000,
            mag(time as int) <= 0x1000000000,
            0 <= intensity <= 0x1000000000,
        ensures
            final(self).wf(),
            old(self).sources@.len() < 25 ==> {
                &&& final(self).sources@ == old(self).sources@.push(
                    Source { x, y, created: time, intensity, strength: 65536 },
                )
                &&& final(self).src_idx == old(self).src_idx
            },
            old(self).sources@.len() == 25 ==> {
                &&& final(self).sources@ == old(self).sources@.update(
                    old(self).src_idx as int,
                    Source { x, y, created: time, intensity, strength: 65536 },
                )
                &&& final(self).src_idx == (old(self).src_idx + 1) % 25
            },
            final(self).tables == old(self).tables,
            final(self).stamp@ == old(self).stamp@,
            final(self).disp@ == old(self).disp@,
            final(self).fall@ == old(self).fall@,
            final(self).y@ == old(self).y@,
            final(self).width == old(self).width,
            final(self).height == old(self).height,
            final(self).center_y == old(self).center_y,
            final(self).num_points == old(self).num_points,
            final(self).conf_gfreq == old(self).conf_gfreq,
            final(self).conf_gamp == old(self).conf_gamp,
            final(self).conf_inf == old(self).conf_inf,
            final(self).conf_damp == old(self).conf_damp,
            final(self).conf_lvt == old(self).conf_lvt,
            final(self).conf_min_l == old(self).conf_min_l,
            final(self).conf_l_rng == old(self).conf_l_rng,
            final(self).wave_freq == old(self).wave_freq,
            final(self).wave_speed == old(self).wave_speed,
            final(self).wave_amp == old(self).wave_amp,
    {
        let ns = Source { x, y, created: time, intensity, strength: 65536 };
        if self.sources.len() < 25 {
            self.sources.push(ns);
        } else {
            self.sources.set(self.src_idx, ns);
            self.src_idx = (self.src_idx + 1) % 25;
        }
    }

    /// Number of samples in the height field.
    pub fn get_num_points(&self) -> (r: usize)
        ensures
            r == self.num_points,
    {
        self.num_points
    }

    /// The fixed sample spacing: 3 distance units, fixed point.
    pub fn get_step(&self) -> (r: i128)
        ensures
            r == 196608,
    {
        196608
    }

    /// The vertical center of the surface, fixed point.
    pub fn get_center_y(&self) -> (r: i128)
        ensures
            r == self.center_y,
    {
        self.center_y
    }

    /// The height of sample `j` from the last `compute` call.
    pub fn get_height(&self, j: usize) -> (r: i128)
        requires
            j < self.y@.len(),
        ensures
            r == self.y@[j as int],
    {
        self.y[j]
    }

    /// A read-only view of the whole height buffer; valid until the next
    /// mutating call on this engine.
    pub fn heights(&self) -> (r: &Vec<i128>)
        ensures
            r@ == self.y@,
    {
        &self.y
    }

    /// The table-approximated sine of a fixed-point phase.
    pub fn fast_sin(&self, x: i128) -> (r: i128)
        requires
            self.wf(),
            mag(x as int) <= 0x40000000000000000000000,
        ensures
            r as int == fsin_s(x as int),
    {
        self.tables.sin_at(x)
    }

    /// The table-approximated cosine of a fixed-point phase.
    pub fn fast_cos(&self, x: i128) -> (r: i128)
        requires
            self.wf(),
            mag(x as int) <= 0x20000000000000000000000,
        ensures
            r as int == fcos_s(x as int),
    {
        self.tables.cos_at(x)
    }

    /// The noise-table value of a lattice index.
    pub fn fast_noise(&self, i: i128) -> (r: i128)
        requires
            self.wf(),
            mag(i as int) <= 0x20000000000000000000000000000000,
        ensures
            r as int == fnoise_s(i as int),
    {
        self.tables.noise_at(i)
    }
}

/// The larger of two integers.
pub open spec fn imax(a: int, b: int) -> int {
    if a < b {
        b
    } else {
        a
    }
}

/// Bounds on the vertical center implied by well-formedness: zero for the
/// unsized engine, otherwise at least half a unit.
proof fn lemma_cy_bounds(h: int, cy: int)
    requires
        h == 0 || 65536 <= h,
        h <= 0x1000000000,
        cy == h / 2,
    ensures
        cy == 0 || 32768 <= cy,
        0 <= cy <= 0x800000000,
{
    if h == 0 {
        lemma_div_of0(2);
    } else {
        lemma_div_pos_is_pos(h, 2);
        lemma_div_is_ordered(65536, h, 2);
        lemma_div_is_ordered(h, 0x1000000000, 2);
        assert(65536int / 2 == 32768) by (nonlinear_arith);
        assert(0x1000000000int / 2 == 0x800000000) by (nonlinear_arith);
    }
}

impl WaveEngine {
    /// The displacement and falloff coverage one source lays on one field
    /// sample inside its clipped range.
    #[verifier::rlimit(60)]
    fn sample_vals(&self, src: Source, adv: i128, j: i128, phase: i128) -> (r: (i128, i128))
        requires
            self.wf(),
            src_bounded(src),
            mag(phase as int) <= 0x1000000000,
            1 <= self.center_y,
            0 <= j < self.num_points,
            adv as int == adv_amp_s(self.frame_cfg(), src.y as int),
            mag(adv as int) <= 0x400000000000000000000,
            start_i(self.frame_cfg(), src.x as int) <= j <= end_i(self.frame_cfg(), src.x as int),
        ensures
            r.0 as int == contrib_s(self.frame_cfg(), src, j as int, phase as int),
            r.1 as int == cov_s(self.frame_cfg(), src, j as int),
            mag(r.0 as int) <= 0x800000000000000000000000000,
            0 <= r.1 <= 65536,
    {
        let ghost c = self.frame_cfg();
        let xp: i128 = j * 196608;
        let sti: i128 = floor_div(xp - src.x + self.conf_inf, 196608);
        let slen: usize = self.stamp.len();
        if sti >= 0 && sti < slen as i128 {
            let stv: i128 = self.stamp[sti as usize];
            proof {
                lemma_fxm_unit_contract(stv as int, src.strength as int, 65536);
                lemma_mag_mul(stv as int, src.strength as int, 65536, 65536);
                assert(65536int * 65536 < 0x40000000000000000000000000000000)
                    by (nonlinear_arith);
            }
            let fo: i128 = fx_mul(stv, src.strength);
            proof {
                lemma_fxm_mag(xp as int, self.wave_freq as int, 0x8000000000, 0x1000000000);
                assert(0x8000000000int * 0x1000000000 < 0x40000000000000000000000000000000)
                    by (nonlinear_arith);
                assert((0x8000000000int * 0x1000000000) / 65536 + 1 <= 0x1000000000000000)
                    by (nonlinear_arith);
                lemma_fxm_mag(phase as int, self.wave_speed as int, 0x1000000000, 0x1000000000);
                assert(0x1000000000int * 0x1000000000 < 0x40000000000000000000000000000000)
                    by (nonlinear_arith);
                assert((0x1000000000int * 0x1000000000) / 65536 + 1 <= 0x200000000000000)
                    by (nonlinear_arith);
            }
            let wph: i128 = fx_mul(xp, self.wave_freq) + fx_mul(phase, self.wave_speed);
            let ni: i128 = floor_div(wph, 205887);
            proof {
                lemma_fundamental_div_mod(wph as int, 205887);
                lemma_mod_division_less_than_divisor(wph as int, 205887);
            }
            let rem: i128 = wph - ni * 205887;
            let fp: i128 = fx_div(rem, 205887);
            proof {
                lemma_fxd_unit_range(rem as int, 205887);
                lemma_fxm_mag(fp as int, 205887, 65536, 205887);
                assert(65536int * 205887 < 0x40000000000000000000000000000000)
                    by (nonlinear_arith);
                assert((65536int * 205887) / 65536 + 1 <= 0x20000000000000000000000)
                    by (nonlinear_arith);
            }
            let cparg: i128 = fx_mul(fp, 205887);
            let cvl: i128 = self.tables.cos_at(cparg);
            proof {
                lemma_fsin_bound(cparg as int + 102944);
                lemma_div_pos_is_pos(65536 - cvl as int, 2);
                lemma_div_is_ordered(65536 - cvl as int, 131072, 2);
                assert(131072int / 2 == 65536) by (nonlinear_arith);
            }
            let sf: i128 = floor_div(65536 - cvl, 2);
            let a1: i128 = self.tables.noise_at(ni);
            let a2: i128 = self.tables.noise_at(ni + 1);
            proof {
                lemma_fnoise_bound(ni as int);
                lemma_fnoise_bound(ni as int + 1);
                lemma_fxm_mag(a2 as int - a1 as int, sf as int, 39321, 65536);
                assert(39321int * 65536 < 0x40000000000000000000000000000000)
                    by (nonlinear_arith);
                assert((39321int * 65536) / 65536 + 1 <= 39322) by (nonlinear_arith);
            }
            let ia: i128 = a1 + fx_mul(a2 - a1, sf);
            proof {
                assert(ia as int == noise_mix_s(wph as int));
                lemma_fsin_bound(wph as int);
            }
            let sv: i128 = self.tables.sin_at(wph);
            proof {
                lemma_fxm_mag(sv as int, self.wave_amp as int, 65536, 0x1000000000);
                assert(65536int * 0x1000000000 < 0x40000000000000000000000000000000)
                    by (nonlinear_arith);
                assert((65536int * 0x1000000000) / 65536 + 1 <= 0x2000000000)
                    by (nonlinear_arith);
            }
            let v1: i128 = fx_mul(sv, self.wave_amp);
            proof {
                lemma_fxm_mag(v1 as int, ia as int, 0x2000000000, 0x20000);
                assert(0x2000000000int * 0x20000 < 0x40000000000000000000000000000000)
                    by (nonlinear_arith);
                assert((0x2000000000int * 0x20000) / 65536 + 1 <= 0x8000000000)
                    by (nonlinear_arith);
            }
            let v2: i128 = fx_mul(v1, ia);
            proof {
                lemma_fxm_mag(v2 as int, fo as int, 0x8000000000, 65536);
                assert(0x8000000000int * 65536 < 0x40000000000000000000000000000000)
                    by (nonlinear_arith);
                assert((0x8000000000int * 65536) / 65536 + 1 <= 0x10000000000)
                    by (nonlinear_arith);
            }
            let v3: i128 = fx_mul(v2, fo);
            proof {
                lemma_fxm_mag(v3 as int, adv as int, 0x10000000000, 0x400000000000000000000);
                assert(0x10000000000int * 0x400000000000000000000
                    < 0x40000000000000000000000000000000) by (nonlinear_arith);
                assert((0x10000000000int * 0x400000000000000000000) / 65536 + 1
                    <= 0x800000000000000000000000000) by (nonlinear_arith);
            }
            let val: i128 = fx_mul(v3, adv);
            proof {
                reveal(crate::engine::cov_s);
                reveal(crate::engine::contrib_s);
                assert(in_reach(c, src.x as int, j as int));
                assert(wph as int == wph_s(c, j as int, phase as int));
                assert(fo as int == cov_s(c, src, j as int));
                assert(val as int == contrib_s(c, src, j as int, phase as int));
            }
            (val, fo)
        } else {
            proof {
                reveal(crate::engine::cov_s);
                reveal(crate::engine::contrib_s);
                assert(!in_reach(c, src.x as int, j as int));
                assert(contrib_s(c, src, j as int, phase as int) == 0);
                assert(cov_s(c, src, j as int) == 0);
            }
            (0, 0)
        }
    }

    /// Adds one live source's displacement and falloff coverage into the
    /// working buffers.  The source's strength must already be refreshed
    /// for this frame.
    #[verifier::rlimit(100)]
    fn accumulate(&mut self, src: Source, phase: i128)
        requires
            old(self).wf(),
            src_bounded(src),
            mag(phase as int) <= 0x1000000000,
            forall|q: int|
                0 <= q < old(self).disp@.len() ==> mag(#[trigger] old(self).disp@[q] as int)
                    <= 0xc000000000000000000000000000,
            forall|q: int| 0 <= q < old(self).fall@.len() ==> 0 <= #[trigger] old(self).fall@[q]
                <= 65536,
        ensures
            final(self).wf(),
            final(self).frame_cfg() == old(self).frame_cfg(),
            final(self).sources@ == old(self).sources@,
            final(self).src_idx == old(self).src_idx,
            final(self).tables == old(self).tables,
            final(self).y@ == old(self).y@,
            final(self).width == old(self).width,
            final(self).height == old(self).height,
            final(self).conf_lvt == old(self).conf_lvt,
            final(self).conf_min_l == old(self).conf_min_l,
            final(self).conf_l_rng == old(self).conf_l_rng,
            final(self).disp@.len() == old(self).disp@.len(),
            final(self).fall@.len() == old(self).fall@.len(),
            forall|q: int|
                0 <= q < final(self).disp@.len() ==> #[trigger] final(self).disp@[q] as int == old(
                    self,
                ).disp@[q] as int + contrib_s(old(self).frame_cfg(), src, q, phase as int),
            forall|q: int|
                0 <= q < final(self).disp@.len() ==> mag(#[trigger] final(self).disp@[q] as int)
                    <= mag(old(self).disp@[q] as int) + 0x800000000000000000000000000,
            forall|q: int|
                0 <= q < final(self).fall@.len() ==> #[trigger] final(self).fall@[q] as int == imax(
                    old(self).fall@[q] as int,
                    cov_s(old(self).frame_cfg(), src, q),
                ),
            forall|q: int| 0 <= q < final(self).fall@.len() ==> 0 <= #[trigger] final(self).fall@[q]
                <= 65536,
    {
        let ghost c = self.frame_cfg();
        proof {
            lemma_cy_bounds(self.height as int, self.center_y as int);
        }
        if self.center_y < 1 {
            proof {
                reveal(crate::engine::cov_s);
                reveal(crate::engine::contrib_s);
                assert forall|q: int| 0 <= q < self.disp@.len() implies {
                    &&& contrib_s(c, src, q, phase as int) == 0
                    &&& cov_s(c, src, q) == 0
                } by {
                    assert(!in_reach(c, src.x as int, q));
                }
                assert forall|q: int| 0 <= q < self.fall@.len() implies self.fall@[q] as int
                    == imax(self.fall@[q] as int, cov_s(c, src, q)) by {
                    assert(!in_reach(c, src.x as int, q));
                }
            }
            return ;
        }
        // vertical attenuation of this source
        let icy: i128 = fx_div(131072, self.center_y);
        proof {
            lemma_div_pos_is_pos(131072int * 65536, self.center_y as int);
            lemma_div_is_ordered_by_denominator(131072int * 65536, 32768, self.center_y as int);
            assert((131072int * 65536) / 32768 == 262144) by (nonlinear_arith);
        }
        let dyr: i128 = src.y - self.center_y;
        let dy: i128 = if dyr < 0 {
            -dyr
        } else {
            dyr
        };
        proof {
            lemma_fxm_mag(dy as int, icy as int, 0x2000000000, 0x40000);
            assert(0x2000000000int * 0x40000 < 0x40000000000000000000000000000000)
                by (nonlinear_arith);
            assert((0x2000000000int * 0x40000) / 65536 + 1 <= 0x10000000000) by (nonlinear_arith);
        }
        let m1: i128 = fx_mul(dy, icy);
        let t1: i128 = 65536 - m1;
        proof {
            lemma_fxm_mag(t1 as int, self.center_y as int, 0x20000000000, 0x800000000);
            assert(0x20000000000int * 0x800000000 < 0x40000000000000000000000000000000)
                by (nonlinear_arith);
            assert((0x20000000000int * 0x800000000) / 65536 + 1 <= 0x2000000000000000)
                by (nonlinear_arith);
        }
        let m2: i128 = fx_mul(t1, self.center_y);
        proof {
            lemma_fxm_mag(m2 as int, self.conf_damp as int, 0x2000000000000000, 0x1000000000);
            assert(0x2000000000000000int * 0x1000000000 < 0x40000000000000000000000000000000)
                by (nonlinear_arith);
            assert((0x2000000000000000int * 0x1000000000) / 65536 + 1 <= 0x400000000000000000000)
                by (nonlinear_arith);
        }
        let adv: i128 = fx_mul(m2, self.conf_damp);
        proof {
            assert(adv as int == adv_amp_s(c, src.y as int));
        }
        // clipped sample range of this source
        let sr: i128 = floor_div(src.x - self.conf_inf, 196608);
        let si: i128 = if sr < 0 {
            0
        } else {
            sr
        };
        let er: i128 = floor_div(src.x + self.conf_inf, 196608);
        let np: usize = self.num_points;
        let en: i128 = if er >= np as i128 {
            np as i128 - 1
        } else {
            er
        };
        proof {
            assert(si == start_i(c, src.x as int));
            assert(en == end_i(c, src.x as int));
        }
        let ghost pre_disp = self.disp@;
        let ghost pre_fall = self.fall@;
        if si <= en {
            let mut j: i128 = si;
            while j <= en
                invariant
                    self.wf(),
                    self.frame_cfg() == c,
                    c == old(self).frame_cfg(),
                    self.sources@ == old(self).sources@,
                    self.src_idx == old(self).src_idx,
                    self.tables == old(self).tables,
                    self.y@ == old(self).y@,
                    self.width == old(self).width,
                    self.height == old(self).height,
                    self.conf_lvt == old(self).conf_lvt,
                    self.conf_min_l == old(self).conf_min_l,
                    self.conf_l_rng == old(self).conf_l_rng,
                    src_bounded(src),
                    mag(phase as int) <= 0x1000000000,
                    1 <= self.center_y,
                    si <= j <= en + 1,
                    si == start_i(c, src.x as int),
                    en == end_i(c, src.x as int),
                    0 <= si,
                    en < np,
                    np == self.num_points,
                    adv as int == adv_amp_s(c, src.y as int),
                    mag(adv as int) <= 0x400000000000000000000,
                    pre_disp == old(self).disp@,
                    pre_fall == old(self).fall@,
                    pre_disp.len() == np,
                    pre_fall.len() == np,
                    forall|q: int|
                        0 <= q < np ==> mag(#[trigger] pre_disp[q] as int)
                            <= 0xc000000000000000000000000000,
                    self.disp@.len() == np,
                    self.fall@.len() == np,
                    forall|q: int|
                        0 <= q < np && si <= q < j ==> #[trigger] self.disp@[q] as int
                            == pre_disp[q] as int + contrib_s(c, src, q, phase as int),
                    forall|q: int|
                        0 <= q < np && !(si <= q < j) ==> #[trigger] self.disp@[q] == pre_disp[q],
                    forall|q: int|
                        0 <= q < np && si <= q < j ==> mag(#[trigger] self.disp@[q] as int) <= mag(
                            pre_disp[q] as int,
                        ) + 0x800000000000000000000000000,
                    forall|q: int|
                        0 <= q < np && si <= q < j ==> #[trigger] self.fall@[q] as int == imax(
                            pre_fall[q] as int,
                            cov_s(c, src, q),
                        ),
                    forall|q: int|
                        0 <= q < np && !(si <= q < j) ==> #[trigger] self.fall@[q] == pre_fall[q],
                    forall|q: int| 0 <= q < np ==> 0 <= #[trigger] self.fall@[q] <= 65536,
                decreases en + 1 - j,
            {
                let r = self.sample_vals(src, adv, j, phase);
                let val: i128 = r.0;
                let fo: i128 = r.1;
                let dj: i128 = self.disp[j as usize] + val;
                self.disp.set(j as usize, dj);
                let fj: i128 = self.fall[j as usize];
                if fo > fj {
                    self.fall.set(j as usize, fo);
                }
                j = j + 1;
            }
        }
        proof {
            reveal(crate::engine::cov_s);
            reveal(crate::engine::contrib_s);
            assert forall|q: int| 0 <= q < np && !(si <= q <= en) implies {
                &&& contrib_s(c, src, q, phase as int) == 0
                &&& cov_s(c, src, q) == 0
            } by {
                assert(!in_reach(c, src.x as int, q));
            }
        }
    }
}

/// Baseline law: with no live sources, every height sample is exactly the
/// vertical center plus the background wave — the ripple terms vanish and
/// the coverage suppression factor is exactly one unit.
pub proof fn lemma_no_source_baseline(c: FrameCfg, j: int, phase: int)
    ensures
        height_at(c, Seq::empty(), j, phase) == c.cy + base_wave_at(c, j, phase),
{
    let bw = base_wave_at(c, j, phase);
    vstd::arithmetic::div_mod::lemma_div_multiples_vanish(bw, 65536);
    assert(bw * 65536 == 65536 * bw) by (nonlinear_arith);
}

/// Determinism law: the per-frame results are functions of the engine state
/// and the frame inputs alone.  Two engines whose evaluation contexts and
/// registries agree yield the same surviving registry and the same height
/// formula, so identical call sequences produce identical height sequences.
pub proof fn lemma_deterministic(e1: WaveEngine, e2: WaveEngine, now: int, phase: int, j: int)
    requires
        e1.frame_cfg() == e2.frame_cfg(),
        e1.sources@ == e2.sources@,
        e1.conf_lvt == e2.conf_lvt,
        e1.conf_min_l == e2.conf_min_l,
        e1.conf_l_rng == e2.conf_l_rng,
    ensures
        surviving(e1.sources@, now, e1.conf_lvt as int, e1.conf_min_l as int, e1.conf_l_rng as int)
            == surviving(
            e2.sources@,
            now,
            e2.conf_lvt as int,
            e2.conf_min_l as int,
            e2.conf_l_rng as int,
        ),
        forall|s: Seq<Source>|
            height_at(e1.frame_cfg(), s, j, phase) == #[trigger] height_at(
                e2.frame_cfg(),
                s,
                j,
                phase,
            ),
{
}

/// Appending a source to a fold adds its contribution and merges its
/// coverage.
proof fn lemma_fold_push(c: FrameCfg, srcs: Seq<Source>, s: Source, j: int, phase: int)
    ensures
        disp_sum(c, srcs.push(s), j, phase) == disp_sum(c, srcs, j, phase) + contrib_s(
            c,
            s,
            j,
            phase,
        ),
        fall_max(c, srcs.push(s), j) == imax(fall_max(c, srcs, j), cov_s(c, s, j)),
{
    assert(srcs.push(s).drop_last() =~= srcs);
    assert(srcs.push(s).last() == s);
}

impl WaveEngine {
    /// Evaluates one frame: expires stale sources (swap-remove, interleaved
    /// with accumulation), refreshes each survivor's strength, accumulates
    /// every survivor's displacement and falloff coverage, then folds in the
    /// background oscillation to produce the height sequence.
    ///
    /// The resulting registry is exactly the maintenance walk `surviving`,
    /// and every height sample is exactly the `height_at` formula over the
    /// surviving sources — so identically constructed engines driven by the
    /// same calls produce identical height sequences.
    #[verifier::rlimit(100)]
    pub fn compute(&mut self, now: i128, phase: i128)
        requires
            old(self).wf(),
            mag(now as int) <= 0x1000000000,
            mag(phase as int) <= 0x1000000000,
        ensures
            final(self).wf(),
            final(self).frame_cfg() == old(self).frame_cfg(),
            final(self).tables == old(self).tables,
            final(self).width == old(self).width,
            final(self).height == old(self).height,
            final(self).src_idx == old(self).src_idx,
            final(self).conf_lvt == old(self).conf_lvt,
            final(self).conf_min_l == old(self).conf_min_l,
            final(self).conf_l_rng == old(self).conf_l_rng,
            final(self).num_points == old(self).num_points,
            final(self).sources@ == surviving(
                old(self).sources@,
                now as int,
                old(self).conf_lvt as int,
                old(self).conf_min_l as int,
                old(self).conf_l_rng as int,
            ),
            final(self).y@.len() == old(self).num_points,
            forall|j: int|
                0 <= j < final(self).y@.len() ==> #[trigger] final(self).y@[j] as int == height_at(
                    old(self).frame_cfg(),
                    final(self).sources@,
                    j,
                    phase as int,
                ),
    {
        let ghost c = self.frame_cfg();
        let ghost lvt = self.conf_lvt as int;
        let ghost minl = self.conf_min_l as int;
        let ghost lrng = self.conf_l_rng as int;
        let ghost orig = self.sources@;
        let np: usize = self.num_points;
        self.disp = zeros(np);
        self.fall = zeros(np);
        let ghost mut done: Seq<Source> = Seq::empty();
        proof {
            assert(self.sources@.skip(0) =~= orig);
            assert(done + surviving(orig, now as int, lvt, minl, lrng) =~= surviving(
                orig,
                now as int,
                lvt,
                minl,
                lrng,
            ));
        }
        let mut i: usize = 0;
        while i < self.sources.len()
            invariant
                self.wf(),
                self.frame_cfg() == c,
                c == old(self).frame_cfg(),
                self.tables == old(self).tables,
                self.y@ == old(self).y@,
                self.width == old(self).width,
                self.height == old(self).height,
                self.src_idx == old(self).src_idx,
                self.conf_lvt == old(self).conf_lvt,
                self.conf_min_l == old(self).conf_min_l,
                self.conf_l_rng == old(self).conf_l_rng,
                lvt == self.conf_lvt as int,
                minl == self.conf_min_l as int,
                lrng == self.conf_l_rng as int,
                mag(now as int) <= 0x1000000000,
                mag(phase as int) <= 0x1000000000,
                np == self.num_points,
                i <= self.sources.len(),
                orig == old(self).sources@,
                done + surviving(self.sources@.skip(i as int), now as int, lvt, minl, lrng)
                    == surviving(orig, now as int, lvt, minl, lrng),
                self.sources@.take(i as int) == done,
                done.len() == i,
                self.disp@.len() == np,
                self.fall@.len() == np,
                forall|q: int|
                    0 <= q < np ==> #[trigger] self.disp@[q] as int == disp_sum(
                        c,
                        done,
                        q,
                        phase as int,
                    ),
                forall|q: int|
                    0 <= q < np ==> mag(#[trigger] self.disp@[q] as int) <= (done.len() as int)
                        * 0x800000000000000000000000000,
                forall|q: int|
                    0 <= q < np ==> #[trigger] self.fall@[q] as int == fall_max(c, done, q),
                forall|q: int| 0 <= q < np ==> 0 <= #[trigger] self.fall@[q] <= 65536,
            decreases self.sources.len() - i,
        {
            let s: Source = self.sources[i];
            let lg: i128 = linger_of(s.intensity, self.conf_lvt, self.conf_min_l, self.conf_l_rng);
            let diff: i128 = now - s.created;
            let age: i128 = if diff < 0 {
                0
            } else {
                diff
            };
            let ghost pre = self.sources@;
            if age >= lg {
                let _removed = self.sources.swap_remove(i);
                proof {
                    let a = pre.skip(i as int);
                    assert(a[0] == s);
                    assert(src_expired(s, now as int, lvt, minl, lrng));
                    assert(self.sources@.skip(i as int) =~= a.update(0, a.last()).drop_last());
                    assert(self.sources@.take(i as int) =~= pre.take(i as int));
                    assert forall|k: int|
                        0 <= k < self.sources@.len() implies src_bounded(
                        #[trigger] self.sources@[k],
                    ) by {
                        assert(self.sources@[k] == pre[k] || self.sources@[k] == pre[pre.len()
                            - 1]);
                    }
                }
            } else {
                let st: i128 = strength_of(age, lg);
                let s2 = Source {
                    x: s.x,
                    y: s.y,
                    created: s.created,
                    intensity: s.intensity,
                    strength: st,
                };
                self.sources.set(i, s2);
                proof {
                    assert(!src_expired(s, now as int, lvt, minl, lrng));
                    assert(s2 == src_refresh(s, now as int, lvt, minl, lrng));
                }
                self.accumulate(s2, phase);
                proof {
                    let a = pre.skip(i as int);
                    assert(a[0] == s);
                    assert(self.sources@.skip(i as int + 1) =~= a.subrange(1, a.len() as int));
                    assert(surviving(a, now as int, lvt, minl, lrng) == seq![s2] + surviving(
                        a.subrange(1, a.len() as int),
                        now as int,
                        lvt,
                        minl,
                        lrng,
                    ));
                    assert(done.push(s2) + surviving(
                        self.sources@.skip(i as int + 1),
                        now as int,
                        lvt,
                        minl,
                        lrng,
                    ) =~= done + surviving(a, now as int, lvt, minl, lrng));
                    assert forall|q: int|
                        0 <= q < np implies #[trigger] self.disp@[q] as int == disp_sum(
                        c,
                        done.push(s2),
                        q,
                        phase as int,
                    ) by {
                        lemma_fold_push(c, done, s2, q, phase as int);
                    }
                    assert forall|q: int|
                        0 <= q < np implies #[trigger] self.fall@[q] as int == fall_max(
                        c,
                        done.push(s2),
                        q,
                    ) by {
                        lemma_fold_push(c, done, s2, q, phase as int);
                    }
                    done = done.push(s2);
                    assert(self.sources@.take(i as int + 1) =~= done);
                }
                i = i + 1;
            }
        }
        proof {
            assert(self.sources@.skip(i as int) =~= Seq::<Source>::empty());
            assert(done + Seq::<Source>::empty() =~= done);
            assert(self.sources@.take(i as int) =~= self.sources@);
            assert(self.sources@ == surviving(orig, now as int, lvt, minl, lrng));
        }
        let ghost survivors = self.sources@;
        let mut j: usize = 0;
        while j < np
            invariant
                self.wf(),
                self.frame_cfg() == c,
                c == old(self).frame_cfg(),
                self.tables == old(self).tables,
                self.width == old(self).width,
                self.height == old(self).height,
                self.src_idx == old(self).src_idx,
                self.conf_lvt == old(self).conf_lvt,
                self.conf_min_l == old(self).conf_min_l,
                self.conf_l_rng == old(self).conf_l_rng,
                mag(phase as int) <= 0x1000000000,
                np == self.num_points,
                j <= np,
                self.sources@ == survivors,
                survivors == surviving(orig, now as int, lvt, minl, lrng),
                orig == old(self).sources@,
                survivors.len() <= 25,
                self.disp@.len() == np,
                self.fall@.len() == np,
                forall|q: int|
                    0 <= q < np ==> #[trigger] self.disp@[q] as int == disp_sum(
                        c,
                        survivors,
                        q,
                        phase as int,
                    ),
                forall|q: int|
                    0 <= q < np ==> mag(#[trigger] self.disp@[q] as int) <= (
                    survivors.len() as int) * 0x800000000000000000000000000,
                forall|q: int|
                    0 <= q < np ==> #[trigger] self.fall@[q] as int == fall_max(c, survivors, q),
                forall|q: int| 0 <= q < np ==> 0 <= #[trigger] self.fall@[q] <= 65536,
                self.y@.len() == np,
                forall|q: int|
                    0 <= q < j ==> #[trigger] self.y@[q] as int == height_at(
                        c,
                        survivors,
                        q,
                        phase as int,
                    ),
            decreases np - j,
        {
            let xp: i128 = (j as i128) * 196608;
            proof {
                lemma_fxm_mag(xp as int, self.conf_gfreq as int, 0x8000000000, 0x1000000000);
                assert(0x8000000000int * 0x1000000000 < 0x40000000000000000000000000000000)
                    by (nonlinear_arith);
                assert((0x8000000000int * 0x1000000000) / 65536 + 1 <= 0x1000000000000000)
                    by (nonlinear_arith);
            }
            let barg: i128 = fx_mul(xp, self.conf_gfreq) + phase;
            let sv: i128 = self.tables.sin_at(barg);
            proof {
                lemma_fsin_bound(barg as int);
                lemma_fxm_mag(sv as int, self.conf_gamp as int, 65536, 0x1000000000);
                assert(65536int * 0x1000000000 < 0x40000000000000000000000000000000)
                    by (nonlinear_arith);
                assert((65536int * 0x1000000000) / 65536 + 1 <= 0x2000000000) by (nonlinear_arith);
            }
            let bw: i128 = fx_mul(sv, self.conf_gamp);
            let fl: i128 = self.fall[j];
            proof {
                lemma_fxm_mag(bw as int, 65536 - fl as int, 0x2000000000, 65536);
                assert(0x2000000000int * 65536 < 0x40000000000000000000000000000000)
                    by (nonlinear_arith);
                assert((0x2000000000int * 65536) / 65536 + 1 <= 0x4000000000) by (nonlinear_arith);
            }
            let t: i128 = fx_mul(bw, 65536 - fl);
            let h: i128 = self.center_y + t + self.disp[j];
            self.y.set(j, h);
            proof {
                assert(h as int == height_at(c, survivors, j as int, phase as int));
            }
            j = j + 1;
        }
    }
}

/// A zeroed buffer of the given length.
fn zeros(n: usize) -> (v: Vec<i128>)
    ensures
        v@ =~= Seq::new(n as nat, |i: int| 0i128),
{
    let mut v: Vec<i128> = Vec::new();
    let mut i: usize = 0;
    while i < n
        invariant
            i <= n,
            v@.len() == i,
            forall|k: int| 0 <= k < i ==> #[trigger] v@[k] == 0i128,
        decreases n - i,
    {
        v.push(0);
        i = i + 1;
    }
    v
}

} // verus!
