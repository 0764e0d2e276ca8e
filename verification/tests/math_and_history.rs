//! Fixed-point math and the lag-compensation history.

use shooter_core::history::{push_sample, rewind_pos, PosSample};
use shooter_core::math::{
    atan2_mrad, cos_mrad, isqrt128, isqrt64, sin_mrad, wrap_pi, Vec3i, HALF_PI_MRAD, PI_MRAD,
};

#[test]
fn isqrt_exact_values() {
    assert_eq!(isqrt64(0), 0);
    assert_eq!(isqrt64(1), 1);
    assert_eq!(isqrt64(3), 1);
    assert_eq!(isqrt64(4), 2);
    assert_eq!(isqrt64(99), 9);
    assert_eq!(isqrt64(100), 10);
    assert_eq!(isqrt64(u64::MAX), 4_294_967_295);
    assert_eq!(isqrt128(360_000_000_000), 600_000);
}

#[test]
fn wrap_into_canonical_turn() {
    assert_eq!(wrap_pi(0), 0);
    assert_eq!(wrap_pi(PI_MRAD), -PI_MRAD);
    assert_eq!(wrap_pi(-PI_MRAD), -PI_MRAD);
    assert_eq!(wrap_pi(2 * PI_MRAD), 0);
    assert_eq!(wrap_pi(7 * PI_MRAD + 5), -PI_MRAD + 5);
}

#[test]
fn sine_and_cosine_landmarks() {
    assert_eq!(sin_mrad(0), 0);
    assert_eq!(sin_mrad(HALF_PI_MRAD), 1000);
    assert_eq!(sin_mrad(-HALF_PI_MRAD), -1000);
    assert_eq!(cos_mrad(0), 1000);
    // The quarter-turn shift lands just past the canonical wrap.
    assert!(cos_mrad(HALF_PI_MRAD).abs() <= 2);
    for a in [-3142i64, -1571, -700, 0, 333, 1571, 3142] {
        assert!(sin_mrad(a).abs() <= 1000);
        assert!(cos_mrad(a).abs() <= 1000);
    }
}

#[test]
fn planar_angle_landmarks() {
    assert_eq!(atan2_mrad(0, 5000), 0);
    assert_eq!(atan2_mrad(5000, 0), HALF_PI_MRAD);
    assert_eq!(atan2_mrad(0, -5000), PI_MRAD);
    assert_eq!(atan2_mrad(-5000, 0), -HALF_PI_MRAD);
}

#[test]
fn rewind_interpolates_and_clamps() {
    let mut h: Vec<PosSample> = Vec::new();
    push_sample(&mut h, 100, Vec3i { x: 0, y: 0, z: 0 }, 100_000);
    push_sample(&mut h, 200, Vec3i { x: 1000, y: 0, z: -2000 }, 100_000);
    // Midpoint of the bracketing samples.
    let mid = rewind_pos(&h, 150).unwrap();
    assert_eq!(mid, Vec3i { x: 500, y: 0, z: -1000 });
    // Querying exactly at a stored sample's timestamp gives that sample.
    let exact = rewind_pos(&h, 200).unwrap();
    assert_eq!(exact, Vec3i { x: 1000, y: 0, z: -2000 });
    let exact0 = rewind_pos(&h, 100).unwrap();
    assert_eq!(exact0, Vec3i { x: 0, y: 0, z: 0 });
    // Clamped to the ends outside the window.
    assert_eq!(rewind_pos(&h, 10).unwrap(), Vec3i { x: 0, y: 0, z: 0 });
    assert_eq!(rewind_pos(&h, 900).unwrap(), Vec3i { x: 1000, y: 0, z: -2000 });
    // Determinism: the same history and query give the same answer.
    assert_eq!(rewind_pos(&h, 150), rewind_pos(&h, 150));
    // No history, no answer.
    let empty: Vec<PosSample> = Vec::new();
    assert!(rewind_pos(&empty, 100).is_none());
}

#[test]
fn history_prunes_old_samples() {
    let mut h: Vec<PosSample> = Vec::new();
    push_sample(&mut h, 100, Vec3i { x: 1, y: 2, z: 3 }, 800);
    push_sample(&mut h, 300, Vec3i { x: 4, y: 5, z: 6 }, 800);
    push_sample(&mut h, 1000, Vec3i { x: 7, y: 8, z: 9 }, 800);
    // The first sample fell out of the 800 ms window.
    assert_eq!(h.len(), 2);
    assert_eq!(h[0].t_ms, 300);
    assert_eq!(h[1].t_ms, 1000);
}
