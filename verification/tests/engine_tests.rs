use wave_engine::engine::WaveEngine;
use wave_engine::fx::fx_mul;
use wave_engine::source::{linger_of, strength_of};

const S: i128 = 65536;

fn configured_engine() -> WaveEngine {
    let mut e = WaveEngine::new();
    e.resize(900 * S, 400 * S);
    e.configure(1311, 5 * S, 420 * S, 4522, 420 * S, 600 * S, 2200 * S);
    e
}

#[test]
fn determinism_two_engines() {
    let mut e1 = configured_engine();
    let mut e2 = configured_engine();
    e1.set_wave_params(2621, 45875, 13107);
    e2.set_wave_params(2621, 45875, 13107);
    e1.add_source(450 * S, 200 * S, 0, 420 * S);
    e2.add_source(450 * S, 200 * S, 0, 420 * S);
    e1.add_source(100 * S, 380 * S, 5 * S, 50 * S);
    e2.add_source(100 * S, 380 * S, 5 * S, 50 * S);
    e1.compute(0, 12345);
    e2.compute(0, 12345);
    assert_eq!(e1.heights(), e2.heights());
    e1.compute(300 * S, 99999);
    e2.compute(300 * S, 99999);
    assert_eq!(e1.heights(), e2.heights());
}

#[test]
fn capacity_ring_overwrite() {
    let mut e = configured_engine();
    for k in 0..25 {
        e.add_source(k as i128 * S, 200 * S, 0, 420 * S);
    }
    assert_eq!(e.sources.len(), 25);
    // the 26th insertion lands in slot 0, whatever that slot's remaining linger
    e.add_source(777 * S, 123 * S, 0, 420 * S);
    assert_eq!(e.sources.len(), 25);
    assert_eq!(e.sources[0].x, 777 * S);
    assert_eq!(e.sources[0].y, 123 * S);
    // the 27th lands in slot 1
    e.add_source(888 * S, 50 * S, 0, 420 * S);
    assert_eq!(e.sources.len(), 25);
    assert_eq!(e.sources[1].x, 888 * S);
    assert_eq!(e.sources[0].x, 777 * S);
}

#[test]
fn decay_strength_profile() {
    let lg: i128 = linger_of(420 * S, 420 * S, 600 * S, 1600 * S);
    assert_eq!(lg, 2200 * S);
    // full strength at birth
    assert_eq!(strength_of(0, lg), 65536);
    // non-increasing with age, with a strict drop across the span
    let mut prev: i128 = 65536;
    let mut age: i128 = 0;
    while age < lg {
        let st = strength_of(age, lg);
        assert!(st <= prev);
        assert!(st >= 0);
        prev = st;
        age += lg / 16;
    }
    assert!(strength_of(lg - 1, lg) < 65536);
}

#[test]
fn decay_expiry_at_boundary() {
    let mut e = configured_engine();
    e.add_source(450 * S, 200 * S, 0, 420 * S);
    // one tick before the linger boundary the source is still live
    e.compute(2200 * S - 1, 0);
    assert_eq!(e.sources.len(), 1);
    // at exactly age == linger the source is expired
    e.compute(2200 * S, 0);
    assert_eq!(e.sources.len(), 0);
}

#[test]
fn resize_dimensions() {
    let mut e = WaveEngine::new();
    e.resize(900 * S, 400 * S);
    assert_eq!(e.get_num_points(), 302);
    assert_eq!(e.heights().len(), 302);
    assert_eq!(e.disp.len(), 302);
    assert_eq!(e.fall.len(), 302);
    assert_eq!(e.get_center_y(), 200 * S);
    assert_eq!(e.get_step(), 3 * S);
}

#[test]
fn stamp_symmetry() {
    let mut e = WaveEngine::new();
    e.configure(1311, 5 * S, 420 * S, 4522, 420 * S, 600 * S, 2200 * S);
    let n = e.stamp.len();
    assert_eq!(n, 281);
    for i in 0..n {
        assert_eq!(e.stamp[i], e.stamp[n - 1 - i]);
    }
    // one unit at the center, zero at both ends
    assert_eq!(e.stamp[140], 65536);
    assert_eq!(e.stamp[0], 0);
    assert_eq!(e.stamp[280], 0);
}

#[test]
fn no_source_baseline() {
    let mut e = configured_engine();
    let phase: i128 = 31415;
    e.compute(0, phase);
    let cy = e.get_center_y();
    for j in 0..e.get_num_points() {
        let xp = j as i128 * 196608;
        let expected = cy + fx_mul(e.fast_sin(fx_mul(xp, 1311) + phase), 5 * S);
        assert_eq!(e.heights()[j], expected);
    }
}

#[test]
fn scenario_ripple_reach_and_expiry() {
    let mut e = configured_engine();
    let mut baseline = configured_engine();
    e.add_source(450 * S, 200 * S, 0, 420 * S);
    e.compute(0, 0);
    baseline.compute(0, 0);
    // nonzero displacement at the sample nearest x = 450
    assert_ne!(e.heights()[150], baseline.heights()[150]);
    assert_eq!(e.heights()[150], 200 * S - 117287);
    // exactly zero beyond 420 units from the source center
    for j in 0..10 {
        assert_eq!(e.heights()[j], baseline.heights()[j]);
    }
    for j in 291..302 {
        assert_eq!(e.heights()[j], baseline.heights()[j]);
    }
    // intensity 420 against normalizer 420 gives ratio 1, so linger is the
    // configured maximum 2200; at now == linger the source has expired and
    // no longer contributes anywhere
    e.compute(2200 * S, 0);
    baseline.compute(2200 * S, 0);
    assert_eq!(e.sources.len(), 0);
    assert_eq!(e.heights(), baseline.heights());
}

#[test]
fn linger_clamps_ratio_at_one() {
    // intensity far above the normalizer still yields the maximum linger
    assert_eq!(linger_of(5000 * S, 420 * S, 600 * S, 1600 * S), 2200 * S);
    // zero intensity yields the minimum linger
    assert_eq!(linger_of(0, 420 * S, 600 * S, 1600 * S), 600 * S);
}

#[test]
fn lookup_tables_fixed_points() {
    let e = WaveEngine::new();
    // sine: zero at phase zero, one unit at a quarter turn
    assert_eq!(e.fast_sin(0), 0);
    assert_eq!(e.fast_sin(102944), 65536);
    // odd shape: the second half-period mirrors the first
    assert_eq!(e.fast_sin(102944 * 3), -65536);
    // noise values stay within [0.4, 1.0) units
    for i in 0..300i128 {
        let v = e.fast_noise(i);
        assert!(26214 <= v && v < 65536);
    }
    // noise repeats with period 256
    assert_eq!(e.fast_noise(7), e.fast_noise(7 + 256));
}

#[test]
fn negative_phase_wraps_around() {
    let e = WaveEngine::new();
    // the table index wraps with a Euclidean remainder, so negative phases
    // land on the right entries instead of degenerating
    assert_eq!(e.fast_sin(-102944), -65535);
    assert_eq!(e.fast_sin(-102944 * 3), 65535);
    assert_eq!(e.fast_noise(-1), e.fast_noise(255));
}

#[test]
fn expiry_swaps_last_entry_into_slot() {
    let mut e = configured_engine();
    // lingers: 2200 time units for full intensity, 600 for zero intensity
    e.add_source(100 * S, 200 * S, 0, 420 * S);
    e.add_source(200 * S, 200 * S, 0, 0);
    e.add_source(300 * S, 200 * S, 0, 420 * S);
    // at now == 600 only the middle source has expired; the last entry is
    // swapped into its slot, so order is not preserved
    e.compute(600 * S, 0);
    assert_eq!(e.sources.len(), 2);
    assert_eq!(e.sources[0].x, 100 * S);
    assert_eq!(e.sources[1].x, 300 * S);
}

#[test]
fn compute_before_configure_or_resize_is_inert() {
    let mut e = WaveEngine::new();
    e.add_source(450 * S, 200 * S, 0, 420 * S);
    e.compute(0, 0);
    assert_eq!(e.get_num_points(), 0);
    assert_eq!(e.heights().len(), 0);
    assert_eq!(e.sources.len(), 1);
}
