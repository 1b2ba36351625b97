//! Where a new target goes: a random point of the shell, turned once
//! away from a reference point that it would crowd.

use vstd::prelude::*;
use rand::Rng;
use crate::arith::{
    abs, lemma_abs_square, lemma_product_bound, lemma_round_div_error, lemma_square_bound,
    lemma_square_monotone, round_div, rounded_quotient,
};
use crate::consts::{
    DEADZONE_RADIUS_SQUARED, NUDGE_COSINE, NUDGE_SINE, SAMPLE_SPAN, TARGET_DISTANCE, TRIG_SCALE,
};
use crate::vector::{
    lemma_cross_lies_across, lemma_direction_length, lemma_dot_squared_bound,
    lemma_norm_sq_bound, lemma_rounded_length, lemma_scaled_dot, lemma_scaled_length,
    lemma_scaled_reaches, lemma_scaled_within, lemma_triple_product, SpecVec3, Vec3, VEC_LIMIT,
};

verus! {

/// What `random_direction` draws from: the cube whose coordinates run
/// from `-SAMPLE_SPAN` up to, but not including, `SAMPLE_SPAN`.
pub open spec fn in_sample_cube(sample: SpecVec3) -> bool {
    &&& -SAMPLE_SPAN <= sample.x < SAMPLE_SPAN
    &&& -SAMPLE_SPAN <= sample.y < SAMPLE_SPAN
    &&& -SAMPLE_SPAN <= sample.z < SAMPLE_SPAN
}

/// The point of the shell in the direction of `sample`. A sample of
/// zero has no direction: it stands for the X axis.
pub open spec fn shell_point(sample: SpecVec3) -> SpecVec3 {
    if sample.is_zero() {
        SpecVec3 { x: TARGET_DISTANCE as int, y: 0, z: 0 }
    } else {
        sample.scaled_to(TARGET_DISTANCE as int)
    }
}

/// `candidate` lies closer to `center` than the deadzone's radius.
pub open spec fn in_deadzone(candidate: SpecVec3, center: SpecVec3) -> bool {
    candidate.minus(center).norm_sq() < DEADZONE_RADIUS_SQUARED
}

/// The axis about which a candidate is turned: the cross product of
/// its offset from `center` with the candidate itself. Where that
/// product is zero, the candidate lies on the line through the origin
/// and `center`, and any axis across the candidate serves: the one
/// across the X axis too, or else the Z axis.
pub open spec fn nudge_axis(candidate: SpecVec3, center: SpecVec3) -> SpecVec3 {
    let axis = candidate.minus(center).cross(candidate);
    if !axis.is_zero() {
        axis
    } else if candidate.y != 0 || candidate.z != 0 {
        SpecVec3 { x: 0, y: candidate.z, z: -candidate.y }
    } else {
        SpecVec3 { x: 0, y: 0, z: candidate.x }
    }
}

/// The candidate turned about `nudge_axis` by `DEADZONE_ADJ_THETA`:
/// `cos * candidate + sin * (k x candidate)` for the unit axis `k`,
/// where `candidate x k` is taken at the length of the shell's radius.
/// The turn leads away from `center`.
pub open spec fn nudged(candidate: SpecVec3, center: SpecVec3) -> SpecVec3 {
    let side = candidate.cross(nudge_axis(candidate, center)).scaled_to(TARGET_DISTANCE as int);
    SpecVec3 {
        x: round_div(candidate.x * NUDGE_COSINE - side.x * NUDGE_SINE, TRIG_SCALE as int),
        y: round_div(candidate.y * NUDGE_COSINE - side.y * NUDGE_SINE, TRIG_SCALE as int),
        z: round_div(candidate.z * NUDGE_COSINE - side.z * NUDGE_SINE, TRIG_SCALE as int),
    }
}

/// Where a target drawn as `sample` is placed: on the shell, and turned
/// once if a deadzone is given and the point of the shell lies in it.
pub open spec fn placement(sample: SpecVec3, deadzone: Option<Vec3>) -> SpecVec3 {
    match deadzone {
        Some(center) if in_deadzone(shell_point(sample), center@) => nudged(
            shell_point(sample),
            center@,
        ),
        _ => shell_point(sample),
    }
}

/// A coordinate drawn by `rand`'s `Rng::gen_range` on the thread's
/// generator, from the range `low..high`. The range must not be empty,
/// or `gen_range` panics; the draw then lies in the range. Nothing else
/// is claimed of it.
#[verifier::external_body]
fn random_component(low: i64, high: i64) -> (r: i64)
    requires
        low < high,
    ensures
        low <= r < high,
{
    rand::thread_rng().gen_range(low..high)
}

/// A random direction: each coordinate drawn on its own from
/// `-SAMPLE_SPAN` up to `SAMPLE_SPAN`. The directions are not spread
/// evenly over the sphere: those toward the cube's corners are likelier.
pub fn random_direction() -> (sample: Vec3)
    ensures
        in_sample_cube(sample@),
        sample@.within(VEC_LIMIT as int),
{
    let x: i64 = random_component(-SAMPLE_SPAN, SAMPLE_SPAN);
    let y: i64 = random_component(-SAMPLE_SPAN, SAMPLE_SPAN);
    let z: i64 = random_component(-SAMPLE_SPAN, SAMPLE_SPAN);
    Vec3 { x, y, z }
}

/// The point of the shell in the direction of `sample`.
pub fn shell_point_of(sample: &Vec3) -> (candidate: Vec3)
    requires
        sample@.within(VEC_LIMIT as int),
    ensures
        candidate@ == shell_point(sample@),
        near_shell(candidate@, 2),
        candidate@.within(TARGET_DISTANCE as int),
        !candidate@.is_zero(),
{
    proof {
        lemma_shell_point(sample@);
    }
    if sample.is_zero() {
        Vec3 { x: TARGET_DISTANCE, y: 0, z: 0 }
    } else {
        sample.scaled_to(TARGET_DISTANCE)
    }
}

/// Whether `candidate` lies in the deadzone around `center`.
pub fn within_deadzone(candidate: &Vec3, center: &Vec3) -> (b: bool)
    ensures
        b == in_deadzone(candidate@, center@),
{
    let ex: i128 = candidate.x as i128 - center.x as i128;
    let ey: i128 = candidate.y as i128 - center.y as i128;
    let ez: i128 = candidate.z as i128 - center.z as i128;
    if ex <= -2000 || ex >= 2000 || ey <= -2000 || ey >= 2000 || ez <= -2000 || ez >= 2000 {
        assert(ex * ex + ey * ey + ez * ez >= 4_000_000) by (nonlinear_arith)
            requires
                ex <= -2000 || ex >= 2000 || ey <= -2000 || ey >= 2000 || ez <= -2000 || ez
                    >= 2000,
        ;
        return false;
    }
    proof {
        lemma_square_bound(ex as int, 2000);
        lemma_square_bound(ey as int, 2000);
        lemma_square_bound(ez as int, 2000);
    }
    ex * ex + ey * ey + ez * ez < DEADZONE_RADIUS_SQUARED as i128
}

/// In the deadzone, each coordinate of the offset is below its radius.
proof fn lemma_deadzone_offset(candidate: SpecVec3, center: SpecVec3)
    requires
        in_deadzone(candidate, center),
    ensures
        candidate.minus(center).within(1_999),
{
    let e = candidate.minus(center);
    assert(-2000 < e.x < 2000 && -2000 < e.y < 2000 && -2000 < e.z < 2000) by (nonlinear_arith)
        requires
            e.x * e.x + e.y * e.y + e.z * e.z < 4_000_000,
    ;
}

/// The axis of the turn is not zero, lies across the candidate, and
/// is bounded as the candidate and its offset are.
proof fn lemma_nudge_axis(candidate: SpecVec3, center: SpecVec3)
    requires
        !candidate.is_zero(),
        candidate.within(TARGET_DISTANCE as int),
        in_deadzone(candidate, center),
    ensures
        !nudge_axis(candidate, center).is_zero(),
        candidate.dot(nudge_axis(candidate, center)) == 0,
        nudge_axis(candidate, center).within(32_000_000),
        !candidate.cross(nudge_axis(candidate, center)).is_zero(),
        candidate.cross(nudge_axis(candidate, center)).within(512_000_000_000),
{
    let v = candidate;
    let e = candidate.minus(center);
    let axis = nudge_axis(candidate, center);
    lemma_deadzone_offset(candidate, center);
    lemma_product_bound(e.y, v.z, 1_999, 8_000);
    lemma_product_bound(e.z, v.y, 1_999, 8_000);
    lemma_product_bound(e.z, v.x, 1_999, 8_000);
    lemma_product_bound(e.x, v.z, 1_999, 8_000);
    lemma_product_bound(e.x, v.y, 1_999, 8_000);
    lemma_product_bound(e.y, v.x, 1_999, 8_000);
    let raw = e.cross(v);
    if !raw.is_zero() {
        assert(v.x * (e.y * v.z - e.z * v.y) + v.y * (e.z * v.x - e.x * v.z) + v.z * (e.x * v.y
            - e.y * v.x) == 0) by (nonlinear_arith);
    } else if v.y != 0 || v.z != 0 {
        assert(v.y * v.z + v.z * (-v.y) == 0) by (nonlinear_arith);
    } else {
        assert(v.z * v.x == 0) by (nonlinear_arith)
            requires
                v.z == 0,
        ;
    }
    assert(v.dot(axis) == 0);
    lemma_dot_squared_bound(v, axis);
    lemma_direction_length(v);
    lemma_direction_length(axis);
    let side = v.cross(axis);
    assert(side.norm_sq() > 0) by (nonlinear_arith)
        requires
            side.norm_sq() == v.norm_sq() * axis.norm_sq() - v.dot(axis) * v.dot(axis),
            v.dot(axis) == 0,
            v.norm_sq() > 0,
            axis.norm_sq() > 0,
    ;
    lemma_product_bound(v.y, axis.z, 8_000, 32_000_000);
    lemma_product_bound(v.z, axis.y, 8_000, 32_000_000);
    lemma_product_bound(v.z, axis.x, 8_000, 32_000_000);
    lemma_product_bound(v.x, axis.z, 8_000, 32_000_000);
    lemma_product_bound(v.x, axis.y, 8_000, 32_000_000);
    lemma_product_bound(v.y, axis.x, 8_000, 32_000_000);
}

/// The candidate turned once away from `center`.
fn nudge(candidate: &Vec3, center: &Vec3) -> (p: Vec3)
    requires
        !candidate@.is_zero(),
        candidate@.within(TARGET_DISTANCE as int),
        in_deadzone(candidate@, center@),
    ensures
        p@ == nudged(candidate@, center@),
{
    proof {
        lemma_deadzone_offset(candidate@, center@);
        lemma_nudge_axis(candidate@, center@);
    }
    let vx: i128 = candidate.x as i128;
    let vy: i128 = candidate.y as i128;
    let vz: i128 = candidate.z as i128;
    let ex: i128 = vx - center.x as i128;
    let ey: i128 = vy - center.y as i128;
    let ez: i128 = vz - center.z as i128;
    proof {
        lemma_product_bound(ey as int, vz as int, 1_999, 8_000);
        lemma_product_bound(ez as int, vy as int, 1_999, 8_000);
        lemma_product_bound(ez as int, vx as int, 1_999, 8_000);
        lemma_product_bound(ex as int, vz as int, 1_999, 8_000);
        lemma_product_bound(ex as int, vy as int, 1_999, 8_000);
        lemma_product_bound(ey as int, vx as int, 1_999, 8_000);
    }
    let mut ax: i128 = ey * vz - ez * vy;
    let mut ay: i128 = ez * vx - ex * vz;
    let mut az: i128 = ex * vy - ey * vx;
    if ax == 0 && ay == 0 && az == 0 {
        if vy != 0 || vz != 0 {
            ay = vz;
            az = -vy;
        } else {
            az = vx;
        }
    }
    let ghost axis = nudge_axis(candidate@, center@);
    assert(ax == axis.x && ay == axis.y && az == axis.z);
    proof {
        lemma_product_bound(vy as int, az as int, 8_000, 32_000_000);
        lemma_product_bound(vz as int, ay as int, 8_000, 32_000_000);
        lemma_product_bound(vz as int, ax as int, 8_000, 32_000_000);
        lemma_product_bound(vx as int, az as int, 8_000, 32_000_000);
        lemma_product_bound(vx as int, ay as int, 8_000, 32_000_000);
        lemma_product_bound(vy as int, ax as int, 8_000, 32_000_000);
    }
    let across = Vec3 {
        x: (vy * az - vz * ay) as i64,
        y: (vz * ax - vx * az) as i64,
        z: (vx * ay - vy * ax) as i64,
    };
    assert(across@ == candidate@.cross(axis));
    let side = across.scaled_to(TARGET_DISTANCE);
    let cos: i128 = NUDGE_COSINE as i128;
    let sin: i128 = NUDGE_SINE as i128;
    proof {
        lemma_product_bound(vx as int, cos as int, 8_000, 1_000_000_000);
        lemma_product_bound(vy as int, cos as int, 8_000, 1_000_000_000);
        lemma_product_bound(vz as int, cos as int, 8_000, 1_000_000_000);
        lemma_product_bound(side.x as int, sin as int, 8_000, 1_000_000_000);
        lemma_product_bound(side.y as int, sin as int, 8_000, 1_000_000_000);
        lemma_product_bound(side.z as int, sin as int, 8_000, 1_000_000_000);
        lemma_nudged_bound(candidate@, side@);
    }
    let px: i128 = rounded_quotient(vx * cos - side.x as i128 * sin, TRIG_SCALE as u128);
    let py: i128 = rounded_quotient(vy * cos - side.y as i128 * sin, TRIG_SCALE as u128);
    let pz: i128 = rounded_quotient(vz * cos - side.z as i128 * sin, TRIG_SCALE as u128);
    Vec3 { x: px as i64, y: py as i64, z: pz as i64 }
}

/// A turned coordinate stays within twice the shell's radius.
proof fn lemma_nudged_coordinate(v: int, s: int)
    requires
        abs(v) <= TARGET_DISTANCE,
        abs(s) <= TARGET_DISTANCE,
    ensures
        abs(round_div(v * NUDGE_COSINE - s * NUDGE_SINE, TRIG_SCALE as int)) <= 2 * TARGET_DISTANCE,
{
    let n = v * NUDGE_COSINE - s * NUDGE_SINE;
    lemma_product_bound(v, NUDGE_COSINE as int, 8_000, 1_000_000_000);
    lemma_product_bound(s, NUDGE_SINE as int, 8_000, 1_000_000_000);
    assert(-16_000_000_000_000 <= n <= 16_000_000_000_000);
    if n >= 0 {
        assert((2 * n + 1_000_000_000) / 2_000_000_000 <= 16_000);
        assert((2 * n + 1_000_000_000) / 2_000_000_000 >= 0);
    } else {
        assert((2 * (-n) + 1_000_000_000) / 2_000_000_000 <= 16_000);
        assert((2 * (-n) + 1_000_000_000) / 2_000_000_000 >= 0);
    }
}

proof fn lemma_nudged_bound(v: SpecVec3, side: SpecVec3)
    requires
        v.within(TARGET_DISTANCE as int),
        side.within(TARGET_DISTANCE as int),
    ensures
        abs(round_div(v.x * NUDGE_COSINE - side.x * NUDGE_SINE, TRIG_SCALE as int)) <= 2
            * TARGET_DISTANCE,
        abs(round_div(v.y * NUDGE_COSINE - side.y * NUDGE_SINE, TRIG_SCALE as int)) <= 2
            * TARGET_DISTANCE,
        abs(round_div(v.z * NUDGE_COSINE - side.z * NUDGE_SINE, TRIG_SCALE as int)) <= 2
            * TARGET_DISTANCE,
{
    lemma_nudged_coordinate(v.x, side.x);
    lemma_nudged_coordinate(v.y, side.y);
    lemma_nudged_coordinate(v.z, side.z);
}

/// Where a target drawn as `sample` is placed.
pub fn place(sample: &Vec3, deadzone: Option<Vec3>) -> (p: Vec3)
    requires
        sample@.within(VEC_LIMIT as int),
    ensures
        p@ == placement(sample@, deadzone),
        near_shell(p@, 4),
        (deadzone matches Some(center) && in_deadzone(shell_point(sample@), center@)) ==> p@
            != shell_point(sample@),
        !(deadzone matches Some(center) && in_deadzone(shell_point(sample@), center@)) ==> p@
            == shell_point(sample@),
{
    proof {
        lemma_placement_near_shell(sample@, deadzone);
        lemma_deadzone_rule(sample@, deadzone);
    }
    let candidate = shell_point_of(sample);
    match deadzone {
        Some(center) => {
            if within_deadzone(&candidate, &center) {
                nudge(&candidate, &center)
            } else {
                candidate
            }
        },
        None => candidate,
    }
}

/// A coordinate whose sideways part is at least half the shell's radius
/// does not stay where it was.
proof fn lemma_turned_coordinate(v: int, s: int)
    requires
        abs(v) <= TARGET_DISTANCE,
        abs(s) >= TARGET_DISTANCE / 2,
    ensures
        round_div(v * NUDGE_COSINE - s * NUDGE_SINE, TRIG_SCALE as int) != v,
{
    let n = v * NUDGE_COSINE - s * NUDGE_SINE;
    assert(n == v * 999_800_007 + s * 19_998_667) by (nonlinear_arith)
        requires
            n == v * NUDGE_COSINE - s * NUDGE_SINE,
            NUDGE_COSINE == 999_800_007,
            NUDGE_SINE == -19_998_667,
    ;
    if s >= 4_000 {
        assert(n - v * 1_000_000_000 >= 78_394_724_000);
    } else {
        assert(n - v * 1_000_000_000 <= -78_394_724_000);
    }
    if n >= 0 {
        assert((2 * n + 1_000_000_000) / 2_000_000_000 != v);
    } else {
        assert(-((2 * (-n) + 1_000_000_000) / 2_000_000_000) != v);
    }
}

/// A candidate in the deadzone does not stay where it was: the turn
/// moves it.
pub proof fn lemma_nudge_moves(candidate: SpecVec3, center: SpecVec3)
    requires
        !candidate.is_zero(),
        candidate.within(TARGET_DISTANCE as int),
        in_deadzone(candidate, center),
    ensures
        nudged(candidate, center) != candidate,
{
    let across = candidate.cross(nudge_axis(candidate, center));
    let side = across.scaled_to(TARGET_DISTANCE as int);
    lemma_nudge_axis(candidate, center);
    lemma_scaled_reaches(across, TARGET_DISTANCE as int);
    if abs(side.x) >= TARGET_DISTANCE / 2 {
        lemma_turned_coordinate(candidate.x, side.x);
    } else if abs(side.y) >= TARGET_DISTANCE / 2 {
        lemma_turned_coordinate(candidate.y, side.y);
    } else {
        lemma_turned_coordinate(candidate.z, side.z);
    }
}

/// The lattice has few points at exactly the shell's radius from the
/// origin: a point is near the shell where its distance from the
/// origin is within `tolerance` of that radius.
pub open spec fn near_shell(p: SpecVec3, tolerance: int) -> bool {
    (TARGET_DISTANCE - tolerance) * (TARGET_DISTANCE - tolerance) <= p.norm_sq() <= (
    TARGET_DISTANCE + tolerance) * (TARGET_DISTANCE + tolerance)
}

/// The point of the shell lies within two of the shell, is not zero,
/// and lies within the shell's radius of the origin along each axis.
pub proof fn lemma_shell_point(sample: SpecVec3)
    ensures
        near_shell(shell_point(sample), 2),
        !shell_point(sample).is_zero(),
        shell_point(sample).within(TARGET_DISTANCE as int),
{
    if !sample.is_zero() {
        lemma_scaled_length(sample, TARGET_DISTANCE as int);
        lemma_scaled_reaches(sample, TARGET_DISTANCE as int);
        lemma_scaled_within(sample, TARGET_DISTANCE as int);
    }
}

/// A target placed in the deadzone of its reference point is moved off
/// the point of the shell that was drawn for it; any other target
/// stands on that point.
pub proof fn lemma_deadzone_rule(sample: SpecVec3, deadzone: Option<Vec3>)
    ensures
        (deadzone matches Some(center) && in_deadzone(shell_point(sample), center@)) ==> placement(
            sample,
            deadzone,
        ) != shell_point(sample),
        !(deadzone matches Some(center) && in_deadzone(shell_point(sample), center@))
            ==> placement(sample, deadzone) == shell_point(sample),
{
    lemma_shell_point(sample);
    if let Some(center) = deadzone {
        if in_deadzone(shell_point(sample), center@) {
            lemma_nudge_moves(shell_point(sample), center@);
        }
    }
}

/// The square of a turned coordinate's numerator.
proof fn lemma_turned_square(v: int, s: int)
    ensures
        (v * NUDGE_COSINE - s * NUDGE_SINE) * (v * NUDGE_COSINE - s * NUDGE_SINE)
            == 999_600_053_997_200_049 * (v * v) + 39_989_334_813_181_338 * (v * s)
            + 399_946_681_776_889 * (s * s),
{
    let q = v * NUDGE_COSINE - s * NUDGE_SINE;
    assert(q == 999_800_007 * v + 19_998_667 * s) by (nonlinear_arith)
        requires
            q == v * NUDGE_COSINE - s * NUDGE_SINE,
            NUDGE_COSINE == 999_800_007,
            NUDGE_SINE == -19_998_667,
    ;
    assert(q * q == 999_600_053_997_200_049 * (v * v) + 39_989_334_813_181_338 * (v * s)
        + 399_946_681_776_889 * (s * s)) by (nonlinear_arith)
        requires
            q == 999_800_007 * v + 19_998_667 * s,
    ;
}

/// The turn keeps a candidate near the shell: it changes the length
/// by what the rounding of the sideways part and of the result adds,
/// and by no more.
pub proof fn lemma_nudged_near_shell(candidate: SpecVec3, center: SpecVec3)
    requires
        near_shell(candidate, 2),
        candidate.within(TARGET_DISTANCE as int),
        in_deadzone(candidate, center),
    ensures
        near_shell(nudged(candidate, center), 4),
{
    let v = candidate;
    let across = v.cross(nudge_axis(v, center));
    let s = across.scaled_to(TARGET_DISTANCE as int);
    assert(!v.is_zero()) by {
        if v.is_zero() {
            assert(v.norm_sq() == 0) by (nonlinear_arith)
                requires
                    v.norm_sq() == v.x * v.x + v.y * v.y + v.z * v.z,
                    v.x == 0 && v.y == 0 && v.z == 0,
            ;
        }
    }
    lemma_nudge_axis(v, center);
    lemma_scaled_length(across, TARGET_DISTANCE as int);
    lemma_cross_lies_across(v, nudge_axis(v, center));
    lemma_scaled_dot(v, across, TARGET_DISTANCE as int, TARGET_DISTANCE as int);
    let q = SpecVec3 {
        x: v.x * NUDGE_COSINE - s.x * NUDGE_SINE,
        y: v.y * NUDGE_COSINE - s.y * NUDGE_SINE,
        z: v.z * NUDGE_COSINE - s.z * NUDGE_SINE,
    };
    assert(nudged(v, center) == q.divided_by(TRIG_SCALE as int));
    lemma_turned_square(v.x, s.x);
    lemma_turned_square(v.y, s.y);
    lemma_turned_square(v.z, s.z);
    let vv = v.norm_sq();
    let ss = s.norm_sq();
    let vs = v.dot(s);
    assert(q.norm_sq() == 999_600_053_997_200_049 * vv + 39_989_334_813_181_338 * vs
        + 399_946_681_776_889 * ss);
    assert(7_998 * 7_998 <= vv <= 8_002 * 8_002);
    assert(7_998 * 7_998 <= ss <= 8_002 * 8_002);
    assert(-12_000 <= vs <= 12_000);
    let qq = q.norm_sq();
    assert(63942420252493108723232196int <= 999600053997200049 * vv <= 64006394655948929526368196int);
    assert(25583790939690762659556int <= 399946681776889 * ss <= 25609387527324483555556int);
    assert(-479872017758176056000int <= 39989334813181338 * vs <= 479872017758176056000int);
    assert(63952009000000000000000000int <= qq <= 64048009000000000000000000int);
    let t = TRIG_SCALE as int;
    let lo = 7_997int;
    let hi = 8_003int;
    assert((lo * lo) * (t * t) == 63952009000000000000000000int && (hi * hi) * (t * t)
        == 64048009000000000000000000int) by (nonlinear_arith)
        requires
            t == 1_000_000_000,
            lo == 7_997,
            hi == 8_003,
    ;
    lemma_rounded_length(q, t, lo, hi);
}

/// Every target is placed within four of the shell.
pub proof fn lemma_placement_near_shell(sample: SpecVec3, deadzone: Option<Vec3>)
    ensures
        near_shell(placement(sample, deadzone), 4),
{
    lemma_shell_point(sample);
    let candidate = shell_point(sample);
    if let Some(center) = deadzone {
        if in_deadzone(candidate, center@) {
            lemma_nudged_near_shell(candidate, center@);
        }
    }
}

/// A point near the shell lies, along each axis, no farther from the
/// origin than the shell's radius and the tolerance together.
pub proof fn lemma_near_shell_within(p: SpecVec3, tolerance: int)
    requires
        near_shell(p, tolerance),
        tolerance >= 0,
    ensures
        p.within(TARGET_DISTANCE + tolerance),
{
    let m = TARGET_DISTANCE + tolerance;
    assert(-m <= p.x <= m && -m <= p.y <= m && -m <= p.z <= m) by (nonlinear_arith)
        requires
            p.x * p.x + p.y * p.y + p.z * p.z <= m * m,
            m >= 0,
    ;
}

/// The square of what the turn adds to a coordinate, in units of
/// `1 / TRIG_SCALE`.
proof fn lemma_drift_square(v: int, s: int)
    ensures
        (19_998_667 * s - 199_993 * v) * (19_998_667 * s - 199_993 * v) == 39_997_200_049 * (v * v)
            - 7_999_186_818_662 * (v * s) + 399_946_681_776_889 * (s * s),
{
    let g = 19_998_667 * s - 199_993 * v;
    assert(g * g == 39_997_200_049 * (v * v) - 7_999_186_818_662 * (v * s) + 399_946_681_776_889 * (s * s))
        by (nonlinear_arith)
        requires
            g == 19_998_667 * s - 199_993 * v,
    ;
}

/// The square of `2 g + e`.
proof fn lemma_doubled_square(g: int, e: int)
    ensures
        (2 * g + e) * (2 * g + e) == 4 * (g * g) + 4 * (g * e) + e * e,
{
    assert((2 * g + e) * (2 * g + e) == 4 * (g * g) + 4 * (g * e) + e * e) by (nonlinear_arith);
}

/// What a move by `m` adds to the square of a coordinate `d`, where
/// `h` is `m` in units of `1 / (2 t)`.
proof fn lemma_moved_coordinate(d: int, m: int, h: int, t: int)
    requires
        2 * t * m == h,
    ensures
        4 * (t * t) * ((d + m) * (d + m) - d * d) == 4 * t * (d * h) + h * h,
{
    let tm = t * m;
    assert(h == 2 * tm) by (nonlinear_arith)
        requires
            2 * t * m == h,
            tm == t * m,
    ;
    assert((d + m) * (d + m) - d * d == 2 * (d * m) + m * m) by (nonlinear_arith);
    assert(h * h == 4 * (tm * tm)) by (nonlinear_arith)
        requires
            h == 2 * tm,
    ;
    assert(tm * tm == (t * t) * (m * m)) by (nonlinear_arith)
        requires
            tm == t * m,
    ;
    assert(d * h == 2 * (d * tm)) by (nonlinear_arith)
        requires
            h == 2 * tm,
    ;
    assert(t * (d * tm) == (t * t) * (d * m)) by (nonlinear_arith)
        requires
            tm == t * m,
    ;
    assert(4 * t * (d * h) == 8 * (t * (d * tm))) by (nonlinear_arith)
        requires
            d * h == 2 * (d * tm),
    ;
    assert(4 * (t * t) * (2 * (d * m) + m * m) == 8 * ((t * t) * (d * m)) + 4 * ((t * t) * (m
        * m))) by (nonlinear_arith);
}

/// The offset of a candidate from the reference point does not point
/// against the direction in which the turn leads.
proof fn lemma_turn_direction(candidate: SpecVec3, center: SpecVec3)
    ensures
        candidate.minus(center).dot(candidate.cross(nudge_axis(candidate, center))) >= 0,
{
    let v = candidate;
    let e = v.minus(center);
    let raw = e.cross(v);
    let axis = nudge_axis(v, center);
    lemma_triple_product(e, v, axis);
    if !raw.is_zero() {
        assert(raw.x * raw.x >= 0 && raw.y * raw.y >= 0 && raw.z * raw.z >= 0)
            by (nonlinear_arith);
    } else {
        assert(axis.x * raw.x + axis.y * raw.y + axis.z * raw.z == 0) by (nonlinear_arith)
            requires
                raw.x == 0 && raw.y == 0 && raw.z == 0,
        ;
    }
}

/// The turn leads away: a candidate in the deadzone is placed farther
/// from the reference point than it was drawn.
pub proof fn lemma_nudge_leads_away(candidate: SpecVec3, center: SpecVec3)
    requires
        near_shell(candidate, 2),
        candidate.within(TARGET_DISTANCE as int),
        in_deadzone(candidate, center),
    ensures
        nudged(candidate, center).minus(center).norm_sq() > candidate.minus(center).norm_sq(),
{
    let v = candidate;
    let e = v.minus(center);
    let axis = nudge_axis(v, center);
    let across = v.cross(axis);
    let s = across.scaled_to(TARGET_DISTANCE as int);
    let t = TRIG_SCALE as int;
    let p = nudged(v, center);
    assert(!v.is_zero()) by {
        if v.is_zero() {
            assert(v.norm_sq() == 0) by (nonlinear_arith)
                requires
                    v.norm_sq() == v.x * v.x + v.y * v.y + v.z * v.z,
                    v.x == 0 && v.y == 0 && v.z == 0,
            ;
        }
    }
    lemma_nudge_axis(v, center);
    lemma_deadzone_offset(v, center);
    lemma_scaled_length(across, TARGET_DISTANCE as int);
    lemma_cross_lies_across(v, axis);
    lemma_scaled_dot(v, across, TARGET_DISTANCE as int, TARGET_DISTANCE as int);
    lemma_turn_direction(v, center);
    lemma_scaled_dot(e, across, TARGET_DISTANCE as int, 1_999);
    let vv = v.norm_sq();
    let ss = s.norm_sq();
    let vs = v.dot(s);
    let es = e.dot(s);
    let ev = e.dot(v);
    assert(7_998 * 7_998 <= vv <= 8_002 * 8_002);
    assert(7_998 * 7_998 <= ss <= 8_002 * 8_002);
    assert(-12_000 <= vs <= 12_000);
    assert(es >= -2_999);
    // the offset and the candidate
    lemma_dot_squared_bound(e, v);
    lemma_norm_sq_bound(e, 1_999);
    assert(e.norm_sq() * vv <= 3_999_999 * (8_002 * 8_002)) by (nonlinear_arith)
        requires
            0 <= e.norm_sq() <= 3_999_999,
            0 <= vv <= 8_002 * 8_002,
    ;
    assert(ev * ev < 16_004_000 * 16_004_000);
    if abs(ev) >= 16_004_000 {
        lemma_square_monotone(16_004_000, abs(ev));
        lemma_abs_square(ev);
    }
    assert(-16_004_000 < ev < 16_004_000);
    // the numerators of the turned point, and what rounding adds
    let q = SpecVec3 {
        x: v.x * NUDGE_COSINE - s.x * NUDGE_SINE,
        y: v.y * NUDGE_COSINE - s.y * NUDGE_SINE,
        z: v.z * NUDGE_COSINE - s.z * NUDGE_SINE,
    };
    assert(p == q.divided_by(t));
    lemma_round_div_error(q.x, t);
    lemma_round_div_error(q.y, t);
    lemma_round_div_error(q.z, t);
    let r = SpecVec3 {
        x: 2 * t * p.x - 2 * q.x,
        y: 2 * t * p.y - 2 * q.y,
        z: 2 * t * p.z - 2 * q.z,
    };
    let g = SpecVec3 {
        x: 19_998_667 * s.x - 199_993 * v.x,
        y: 19_998_667 * s.y - 199_993 * v.y,
        z: 19_998_667 * s.z - 199_993 * v.z,
    };
    assert(g.x == q.x - t * v.x && g.y == q.y - t * v.y && g.z == q.z - t * v.z)
        by (nonlinear_arith)
        requires
            q.x == v.x * NUDGE_COSINE - s.x * NUDGE_SINE,
            q.y == v.y * NUDGE_COSINE - s.y * NUDGE_SINE,
            q.z == v.z * NUDGE_COSINE - s.z * NUDGE_SINE,
            g.x == 19_998_667 * s.x - 199_993 * v.x,
            g.y == 19_998_667 * s.y - 199_993 * v.y,
            g.z == 19_998_667 * s.z - 199_993 * v.z,
            NUDGE_COSINE == 999_800_007,
            NUDGE_SINE == -19_998_667,
            t == 1_000_000_000,
    ;
    let h = SpecVec3 { x: 2 * g.x + r.x, y: 2 * g.y + r.y, z: 2 * g.z + r.z };
    let m = p.minus(v);
    assert(2 * t * m.x == h.x && 2 * t * m.y == h.y && 2 * t * m.z == h.z) by (nonlinear_arith)
        requires
            m.x == p.x - v.x,
            m.y == p.y - v.y,
            m.z == p.z - v.z,
            h.x == 2 * (q.x - t * v.x) + (2 * t * p.x - 2 * q.x),
            h.y == 2 * (q.y - t * v.y) + (2 * t * p.y - 2 * q.y),
            h.z == 2 * (q.z - t * v.z) + (2 * t * p.z - 2 * q.z),
    ;
    // the length of what the turn adds
    lemma_drift_square(v.x, s.x);
    lemma_drift_square(v.y, s.y);
    lemma_drift_square(v.z, s.z);
    let gg = g.norm_sq();
    assert(gg == 39_997_200_049 * vv - 7_999_186_818_662 * vs + 399_946_681_776_889 * ss);
    assert(25_586_253_490_501_661_947_752int <= gg <= 25_612_044_618_439_833_867_752int);
    lemma_square_bound(r.x, t);
    lemma_square_bound(r.y, t);
    lemma_square_bound(r.z, t);
    let rr = r.norm_sq();
    let gr = g.dot(r);
    assert(0 <= rr <= 3 * (t * t));
    lemma_dot_squared_bound(g, r);
    let bound = 277_193_314_954_238_212_060int;
    assert(gg * rr < bound * bound) by (nonlinear_arith)
        requires
            0 <= gg <= 25_612_044_618_439_833_867_752int,
            0 <= rr <= 3 * (t * t),
            t == 1_000_000_000,
            bound == 277_193_314_954_238_212_060int,
    ;
    if abs(gr) >= bound {
        lemma_square_monotone(bound, abs(gr));
        lemma_abs_square(gr);
    }
    assert(-bound < gr < bound);
    lemma_doubled_square(g.x, r.x);
    lemma_doubled_square(g.y, r.y);
    lemma_doubled_square(g.z, r.z);
    let hh = h.norm_sq();
    assert(hh == 4 * gg + 4 * gr + rr);
    // the offset and what the turn adds
    lemma_product_bound(e.x, r.x, 1_999, t);
    lemma_product_bound(e.y, r.y, 1_999, t);
    lemma_product_bound(e.z, r.z, 1_999, t);
    let er = e.dot(r);
    assert(1_999 * t == 1_999_000_000_000) by (nonlinear_arith)
        requires
            t == 1_000_000_000,
    ;
    assert(er >= -5_997_000_000_000);
    let eg = e.dot(g);
    assert(e.x * g.x == 19_998_667 * (e.x * s.x) - 199_993 * (e.x * v.x)) by (nonlinear_arith)
        requires
            g.x == 19_998_667 * s.x - 199_993 * v.x,
    ;
    assert(e.y * g.y == 19_998_667 * (e.y * s.y) - 199_993 * (e.y * v.y)) by (nonlinear_arith)
        requires
            g.y == 19_998_667 * s.y - 199_993 * v.y,
    ;
    assert(e.z * g.z == 19_998_667 * (e.z * s.z) - 199_993 * (e.z * v.z)) by (nonlinear_arith)
        requires
            g.z == 19_998_667 * s.z - 199_993 * v.z,
    ;
    assert(eg == 19_998_667 * es - 199_993 * ev);
    assert(eg >= -3_260_663_974_333);
    let eh = e.dot(h);
    assert(e.x * h.x == 2 * (e.x * g.x) + e.x * r.x) by (nonlinear_arith)
        requires
            h.x == 2 * g.x + r.x,
    ;
    assert(e.y * h.y == 2 * (e.y * g.y) + e.y * r.y) by (nonlinear_arith)
        requires
            h.y == 2 * g.y + r.y,
    ;
    assert(e.z * h.z == 2 * (e.z * g.z) + e.z * r.z) by (nonlinear_arith)
        requires
            h.z == 2 * g.z + r.z,
    ;
    assert(eh == 2 * eg + er);
    assert(eh >= -12_518_327_948_666);
    assert(4 * t * eh >= -50_073_311_794_664_000_000_000) by (nonlinear_arith)
        requires
            eh >= -12_518_327_948_666,
            t == 1_000_000_000,
    ;
    assert(4 * t * eh + hh > 0);
    // the same, in squared distances from the reference point
    lemma_moved_coordinate(e.x, m.x, h.x, t);
    lemma_moved_coordinate(e.y, m.y, h.y, t);
    lemma_moved_coordinate(e.z, m.z, h.z, t);
    let after = p.minus(center);
    assert(after.x == e.x + m.x && after.y == e.y + m.y && after.z == e.z + m.z);
    let gain = after.norm_sq() - e.norm_sq();
    let tt4 = 4 * (t * t);
    assert(tt4 * gain == tt4 * ((e.x + m.x) * (e.x + m.x) - e.x * e.x) + tt4 * ((e.y + m.y) * (
        e.y + m.y) - e.y * e.y) + tt4 * ((e.z + m.z) * (e.z + m.z) - e.z * e.z))
        by (nonlinear_arith)
        requires
            gain == (e.x + m.x) * (e.x + m.x) + (e.y + m.y) * (e.y + m.y) + (e.z + m.z) * (e.z
                + m.z) - (e.x * e.x + e.y * e.y + e.z * e.z),
    ;
    assert(4 * t * eh == 4 * t * (e.x * h.x) + 4 * t * (e.y * h.y) + 4 * t * (e.z * h.z))
        by (nonlinear_arith)
        requires
            eh == e.x * h.x + e.y * h.y + e.z * h.z,
    ;
    assert(tt4 * gain == 4 * t * eh + hh);
    assert(gain > 0) by (nonlinear_arith)
        requires
            tt4 * gain > 0,
            tt4 == 4 * (t * t),
            t > 0,
    ;
}

/// A target placed in the deadzone of its reference point stands
/// farther from that point than the point of the shell that was drawn
/// for it.
pub proof fn lemma_placement_leads_away(sample: SpecVec3, center: Vec3)
    requires
        in_deadzone(shell_point(sample), center@),
    ensures
        placement(sample, Some(center)).minus(center@).norm_sq() > shell_point(sample).minus(
            center@,
        ).norm_sq(),
{
    lemma_shell_point(sample);
    lemma_nudge_leads_away(shell_point(sample), center@);
}

} // verus!
