use aoe_core::steering::isqrt;
use aoe_core::steering::steer;
use aoe_core::units::MINION_STEP;
use aoe_core::units::SUBUNITS;
use aoe_core::units::Vec2;
use aoe_core::units::dist_sq_i64;

#[test]
fn isqrt_small_values() {
    assert_eq!(isqrt(0), 0);
    assert_eq!(isqrt(1), 1);
    assert_eq!(isqrt(3), 1);
    assert_eq!(isqrt(4), 2);
    assert_eq!(isqrt(99), 9);
    assert_eq!(isqrt(100), 10);
}

#[test]
fn isqrt_large_values() {
    assert_eq!(isqrt(4_000_000_000_000_000_000), 2_000_000_000);
    assert_eq!(isqrt(4_000_000_000_000_000_001), 2_000_000_000);
    assert_eq!(isqrt(3_999_999_999_999_999_999), 1_999_999_999);
}

#[test]
fn steer_snaps_below_epsilon() {
    // 0.1 subunit offsets squared stay far below the 0.001-unit^2 snap
    // threshold of 4_096_000 square subunits.
    let pos = Vec2::new(2 * SUBUNITS - 100, 2 * SUBUNITS);
    let target = Vec2::new(2 * SUBUNITS, 2 * SUBUNITS);
    let moved = steer(pos, target, MINION_STEP);
    assert_eq!(moved, target);
}

#[test]
fn steer_clamps_to_step_length() {
    // Diagonal from the origin to (4, 4): length 4*sqrt(2) units, so one
    // tick moves 1000/sqrt(2) = 707 subunits on each axis (rounded down).
    let pos = Vec2::new(0, 0);
    let target = Vec2::new(4 * SUBUNITS, 4 * SUBUNITS);
    let moved = steer(pos, target, MINION_STEP);
    assert_eq!(moved, Vec2::new(707, 707));
}

#[test]
fn steer_axis_aligned_moves_full_step() {
    let pos = Vec2::new(0, 0);
    let target = Vec2::new(SUBUNITS, 0);
    let moved = steer(pos, target, MINION_STEP);
    assert_eq!(moved, Vec2::new(MINION_STEP, 0));
}

#[test]
fn steer_converges_monotonically_and_reaches_target() {
    // A minion 0.5 units from its target closes in by one step per tick,
    // never diverging, and lands exactly on the target once within the
    // snap threshold.
    let target = Vec2::new(32000, 0);
    let mut pos = Vec2::new(0, 0);
    let mut last = dist_sq_i64(pos, target);
    let mut reached = false;
    for _ in 0..100 {
        pos = steer(pos, target, MINION_STEP);
        let d = dist_sq_i64(pos, target);
        assert!(d <= last);
        last = d;
        if pos == target {
            reached = true;
            break;
        }
    }
    assert!(reached);
    // The terminal state is stable: steering from the target stays put.
    assert_eq!(steer(pos, target, MINION_STEP), target);
}
