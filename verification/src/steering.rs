//! Per-tick steering of an entity toward its assigned target.
//!
//! Every tick, for a position `p` and target `t`, let `diff = t - p`. If
//! `|diff|^2` is below the snap threshold the position snaps exactly onto the
//! target (terminal state, no oscillation). Otherwise the position advances
//! by `diff` clamped to the per-tick step length: straight toward the target
//! at bounded speed, never overshooting. The same rule runs on the server
//! (authoritative) and on clients (prediction and interpolation).

use vstd::prelude::*;

use crate::units::COORD_LIMIT;
use crate::units::SNAP_EPSILON_SQ;
use crate::units::SUBUNITS;
use crate::units::Vec2;
use crate::units::dist_sq;
use crate::units::dist_sq_i64;
use crate::units::sq;

verus! {

/// `r` is the floor of the square root of `n`.
pub open spec fn is_sqrt_floor(n: int, r: int) -> bool {
    0 <= r && sq(r) <= n && n < sq(r + 1)
}

/// Floor of the square root of a nonnegative integer.
pub open spec fn floor_sqrt(n: int) -> int {
    choose|r: int| is_sqrt_floor(n, r)
}

/// A witness pins `floor_sqrt` down: the floor square root is unique.
pub proof fn lemma_floor_sqrt_eq(n: int, r: int)
    requires
        is_sqrt_floor(n, r),
    ensures
        floor_sqrt(n) == r,
{
    assert(is_sqrt_floor(n, floor_sqrt(n)));
    let c = floor_sqrt(n);
    if c < r {
        assert(sq(c + 1) <= sq(r)) by (nonlinear_arith)
            requires 0 <= c, c < r;
    }
    if r < c {
        assert(sq(r + 1) <= sq(c)) by (nonlinear_arith)
            requires 0 <= r, r < c;
    }
}

/// Integer square root, rounded down.
pub fn isqrt(n: u64) -> (r: u64)
    requires
        n < 0x8000_0000_0000_0000,
    ensures
        is_sqrt_floor(n as int, r as int),
        r == floor_sqrt(n as int),
        r <= 3_037_000_499,
{
    let mut lo: u64 = 0;
    let mut hi: u64 = 3_037_000_500;
    proof {
        assert((3_037_000_500 as int) * (3_037_000_500 as int) == 9_223_372_037_000_250_000);
    }
    while lo + 1 < hi
        invariant
            lo < hi <= 3_037_000_500,
            sq(lo as int) <= n as int,
            (n as int) < sq(hi as int),
        decreases hi - lo,
    {
        let mid: u64 = lo + (hi - lo) / 2;
        proof {
            assert(mid * mid <= 3_037_000_499 * 3_037_000_499) by (nonlinear_arith)
                requires mid <= 3_037_000_499;
        }
        if mid * mid <= n {
            lo = mid;
        } else {
            hi = mid;
        }
    }
    proof {
        lemma_floor_sqrt_eq(n as int, lo as int);
    }
    lo
}

/// The component of the clamped move along one axis: the full difference `d`
/// scaled by `step / len`, rounded toward zero, where `len` is the length of
/// the difference vector.
pub open spec fn scaled_move(d: int, step: int, len: int) -> int {
    if d >= 0 {
        (d * step) / len
    } else {
        -(((-d) * step) / len)
    }
}

/// For a step no longer than the divisor, the scaled component keeps its
/// sign and never exceeds the full difference.
pub proof fn lemma_scaled_div(a: int, step: int, len: int)
    requires
        0 <= a,
        0 < step <= len,
    ensures
        0 <= (a * step) / len <= a,
{
    let q = (a * step) / len;
    assert(0 <= a * step) by (nonlinear_arith)
        requires 0 <= a, 0 < step;
    vstd::arithmetic::div_mod::lemma_fundamental_div_mod(a * step, len);
    vstd::arithmetic::div_mod::lemma_remainder_lower(a * step, len);
    vstd::arithmetic::div_mod::lemma_remainder_upper(a * step, len);
    vstd::arithmetic::div_mod::lemma_div_pos_is_pos(a * step, len);
    assert(a * step == len * q + (a * step) % len);
    assert(len * q <= a * step);
    assert(a * step <= a * len) by (nonlinear_arith)
        requires 0 <= a, step <= len;
    if q > a {
        assert(len * (a + 1) <= len * q) by (nonlinear_arith)
            requires 0 < len, a + 1 <= q;
        assert(len * (a + 1) == len * a + len) by (nonlinear_arith);
        assert(a * len == len * a) by (nonlinear_arith);
        assert(false);
    }
}

/// One steering update: the pair of new coordinates for position `pos`
/// steered toward `target` with per-tick step length `step`.
pub open spec fn steer_spec(pos: Vec2, target: Vec2, step: int) -> (int, int) {
    let dx = target.x - pos.x;
    let dy = target.y - pos.y;
    let d2 = sq(dx) + sq(dy);
    if d2 < SNAP_EPSILON_SQ {
        (target.x as int, target.y as int)
    } else if d2 <= sq(step) {
        (target.x as int, target.y as int)
    } else {
        let len = floor_sqrt(d2);
        (pos.x + scaled_move(dx, step, len), pos.y + scaled_move(dy, step, len))
    }
}

/// One axis of the clamped advance, computed in `i64`.
fn scaled_move_i64(d: i64, step: i64, len: i64) -> (m: i64)
    requires
        -2_000_000_000 <= d <= 2_000_000_000,
        0 < step <= SUBUNITS,
        step <= len <= 4_000_000_000,
    ensures
        m == scaled_move(d as int, step as int, len as int),
        d >= 0 ==> 0 <= m <= d,
        d < 0 ==> d <= m <= 0,
{
    let a: i64 = if d >= 0 { d } else { -d };
    proof {
        assert(a * step <= 2_000_000_000 * 64000) by (nonlinear_arith)
            requires 0 <= a <= 2_000_000_000, 0 < step <= 64000;
        assert(0 <= a * step) by (nonlinear_arith)
            requires 0 <= a, 0 < step;
        lemma_scaled_div(a as int, step as int, len as int);
    }
    let q: i64 = (a * step) / len;
    if d >= 0 {
        q
    } else {
        -q
    }
}

/// Steer `pos` one tick toward `target` at step length `step`.
///
/// The result is pinned exactly by [`steer_spec`]. In addition the contract
/// states the convergence law: the new position lies componentwise between
/// the old position and the target, the squared distance to an unchanged
/// target never grows, and once the squared distance is below the snap
/// threshold the position lands exactly on the target.
pub fn steer(pos: Vec2, target: Vec2, step: i64) -> (r: Vec2)
    requires
        pos.in_bounds(),
        target.in_bounds(),
        0 < step <= SUBUNITS,
    ensures
        r.x == steer_spec(pos, target, step as int).0,
        r.y == steer_spec(pos, target, step as int).1,
        r.in_bounds(),
        dist_sq(r, target) <= dist_sq(pos, target),
        dist_sq(pos, target) < SNAP_EPSILON_SQ ==> r == target,
{
    let d2: i64 = dist_sq_i64(pos, target);
    proof {
        assert(sq(target.x - pos.x) == sq(pos.x - target.x)) by (nonlinear_arith);
        assert(sq(target.y - pos.y) == sq(pos.y - target.y)) by (nonlinear_arith);
        assert(d2 == sq(target.x - pos.x) + sq(target.y - pos.y));
        assert(step * step <= 64000 * 64000) by (nonlinear_arith)
            requires 0 < step <= 64000;
    }
    let s2: i64 = step * step;
    if d2 < SNAP_EPSILON_SQ {
        proof {
            assert(dist_sq(target, target) == 0);
        }
        target
    } else if d2 <= s2 {
        proof {
            assert(dist_sq(target, target) == 0);
        }
        target
    } else {
        let dx: i64 = target.x - pos.x;
        let dy: i64 = target.y - pos.y;
        let len_u: u64 = isqrt(d2 as u64);
        let len: i64 = len_u as i64;
        proof {
            assert(is_sqrt_floor(d2 as int, len as int));
            if len < step {
                assert(sq(len as int + 1) <= sq(step as int)) by (nonlinear_arith)
                    requires 0 <= (len as int), (len as int) < (step as int);
            }
            assert(sq(len as int) <= d2 as int);
            if len > 4_000_000_000 {
                assert(sq(4_000_000_001) <= sq(len as int)) by (nonlinear_arith)
                    requires 4_000_000_001 <= (len as int);
            }
        }
        let mx: i64 = scaled_move_i64(dx, step, len);
        let my: i64 = scaled_move_i64(dy, step, len);
        let r = Vec2 { x: pos.x + mx, y: pos.y + my };
        proof {
            lemma_move_axis_monotone(dx as int, mx as int);
            lemma_move_axis_monotone(dy as int, my as int);
            assert(r.x - target.x == -(dx - mx));
            assert(sq(r.x - target.x) == sq(dx - mx)) by (nonlinear_arith)
                requires r.x - target.x == -(dx - mx);
            assert(sq(r.y - target.y) == sq(dy - my)) by (nonlinear_arith)
                requires r.y - target.y == -(dy - my);
            assert(sq(pos.x - target.x) == sq(dx as int)) by (nonlinear_arith)
                requires pos.x - target.x == -(dx as int);
            assert(sq(pos.y - target.y) == sq(dy as int)) by (nonlinear_arith)
                requires pos.y - target.y == -(dy as int);
        }
        r
    }
}

/// A move component that keeps its sign and does not exceed the difference
/// leaves the remaining difference no larger in square.
proof fn lemma_move_axis_monotone(d: int, m: int)
    requires
        d >= 0 ==> 0 <= m <= d,
        d < 0 ==> d <= m <= 0,
    ensures
        sq(d - m) <= sq(d),
{
    assert(sq(d - m) <= sq(d)) by (nonlinear_arith)
        requires (d >= 0 && 0 <= m <= d) || (d < 0 && d <= m <= 0);
}

} // verus!
