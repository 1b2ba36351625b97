//! The ray test: does a ray of bounded reach meet a ball?

use vstd::prelude::*;
use crate::arith::{lemma_product_bound, lemma_square_bound};
use crate::vector::{
    lemma_direction_length, lemma_dot_squared_bound, lemma_norm_sq_bound, SpecVec3, Vec3,
};

verus! {

/// The largest coordinate, in absolute value, of a ray's direction.
pub const DIR_LIMIT: i64 = 0x10_0000;

/// The longest reach of a ray.
pub const REACH_LIMIT: i64 = 500_000;

/// The largest radius of a bounding sphere.
pub const RADIUS_LIMIT: i64 = 500_000;

/// The foot of the perpendicular from the ball's centre onto the ray's
/// line lies at a parameter within `[0, max]`. Here `w` leads from the
/// ray's origin to the centre and `d` is the ray's direction, of any
/// length but zero; the parameter is `w.dot(d) / |d|`.
pub open spec fn approach_in_reach(w: SpecVec3, d: SpecVec3, max: int) -> bool {
    0 <= w.dot(d) && w.dot(d) * w.dot(d) <= max * max * d.norm_sq()
}

/// The foot of the perpendicular lies beyond the ray's far end.
pub open spec fn approach_beyond_reach(w: SpecVec3, d: SpecVec3, max: int) -> bool {
    0 < w.dot(d) && w.dot(d) * w.dot(d) > max * max * d.norm_sq()
}

/// The ray's unbounded line passes within `radius` of the centre: the
/// squared distance `|w|^2 - (w.d)^2 / |d|^2` is at most `radius^2`.
pub open spec fn line_within(w: SpecVec3, d: SpecVec3, radius: int) -> bool {
    w.norm_sq() * d.norm_sq() - w.dot(d) * w.dot(d) <= radius * radius * d.norm_sq()
}

/// The ray's far end, at distance `max` from the origin, lies within
/// `radius` of the centre: `|w|^2 - 2 max (w.d) / |d| + max^2 <= radius^2`,
/// that is `a |d| <= 2 max (w.d)` for `a = |w|^2 + max^2 - radius^2`.
pub open spec fn far_end_within(w: SpecVec3, d: SpecVec3, max: int, radius: int) -> bool {
    let a = w.norm_sq() + max * max - radius * radius;
    if w.dot(d) >= 0 {
        a <= 0 || a * a * d.norm_sq() <= 4 * max * max * w.dot(d) * w.dot(d)
    } else {
        a <= 0 && a * a * d.norm_sq() >= 4 * max * max * w.dot(d) * w.dot(d)
    }
}

/// The point of the ray nearest to the centre lies within `radius` of
/// it. That point is the origin where the centre lies beside or behind
/// it, the foot of the perpendicular where that is in reach, and the far
/// end otherwise.
pub open spec fn segment_meets_ball(w: SpecVec3, d: SpecVec3, max: int, radius: int) -> bool {
    if w.dot(d) <= 0 {
        w.norm_sq() <= radius * radius
    } else if approach_in_reach(w, d, max) {
        line_within(w, d, radius)
    } else {
        far_end_within(w, d, max, radius)
    }
}

/// A ray: an origin, a direction, and how far it reaches.
#[derive(Clone, Copy, Debug)]
pub struct Ray {
    origin: Vec3,
    direction: Vec3,
    max: i64,
}

/// A ball around a centre.
#[derive(Clone, Copy, Debug)]
pub struct BoundingSphere {
    center: Vec3,
    radius: i64,
}

impl BoundingSphere {
    pub closed spec fn spec_center(&self) -> Vec3 {
        self.center
    }

    pub closed spec fn spec_radius(&self) -> i64 {
        self.radius
    }

    #[verifier::when_used_as_spec(spec_center)]
    pub fn center(&self) -> (c: Vec3)
        ensures
            c == self.center(),
    {
        self.center
    }

    #[verifier::when_used_as_spec(spec_radius)]
    pub fn radius(&self) -> (r: i64)
        ensures
            r == self.radius(),
    {
        self.radius
    }

    pub open spec fn wf(self) -> bool {
        0 <= self.radius() <= RADIUS_LIMIT
    }

    /// A ball, unless the radius is negative or above `RADIUS_LIMIT`.
    pub fn new(center: Vec3, radius: i64) -> (s: Option<BoundingSphere>)
        ensures
            s.is_some() <==> 0 <= radius <= RADIUS_LIMIT,
            s matches Some(b) ==> b.wf() && b.center() == center && b.radius() == radius,
    {
        if 0 <= radius && radius <= RADIUS_LIMIT {
            Some(BoundingSphere { center, radius })
        } else {
            None
        }
    }
}

impl Ray {
    pub closed spec fn spec_origin(&self) -> Vec3 {
        self.origin
    }

    pub closed spec fn spec_direction(&self) -> Vec3 {
        self.direction
    }

    pub closed spec fn spec_max(&self) -> i64 {
        self.max
    }

    #[verifier::when_used_as_spec(spec_origin)]
    pub fn origin(&self) -> (o: Vec3)
        ensures
            o == self.origin(),
    {
        self.origin
    }

    #[verifier::when_used_as_spec(spec_direction)]
    pub fn direction(&self) -> (d: Vec3)
        ensures
            d == self.direction(),
    {
        self.direction
    }

    #[verifier::when_used_as_spec(spec_max)]
    pub fn max(&self) -> (m: i64)
        ensures
            m == self.max(),
    {
        self.max
    }

    /// What `new` accepts: a direction that is not zero and has no
    /// coordinate beyond `DIR_LIMIT`, and a reach within `REACH_LIMIT`.
    pub open spec fn valid(direction: Vec3, max: i64) -> bool {
        &&& !direction@.is_zero()
        &&& direction@.within(DIR_LIMIT as int)
        &&& 0 <= max <= REACH_LIMIT
    }

    pub open spec fn wf(self) -> bool {
        Ray::valid(self.direction(), self.max())
    }

    /// The ray meets the ball: some point of the ray, no farther than
    /// `max` from its origin, lies within the ball.
    pub open spec fn meets(self, sphere: BoundingSphere) -> bool {
        segment_meets_ball(
            sphere.center()@.minus(self.origin()@),
            self.direction()@,
            self.max() as int,
            sphere.radius() as int,
        )
    }

    /// A ray, where `Ray::valid` holds of the direction and the reach.
    pub fn new(origin: Vec3, direction: Vec3, max: i64) -> (r: Option<Ray>)
        ensures
            r.is_some() <==> Ray::valid(direction, max),
            r matches Some(ray) ==> ray.wf() && ray.origin() == origin && ray.direction()
                == direction && ray.max() == max,
    {
        if !direction.is_zero() && direction.is_within(DIR_LIMIT) && 0 <= max && max
            <= REACH_LIMIT {
            Some(Ray { origin, direction, max })
        } else {
            None
        }
    }

    /// Whether the ray meets the ball.
    pub fn intersects(&self, sphere: &BoundingSphere) -> (hit: bool)
        requires
            self.wf(),
            sphere.wf(),
        ensures
            hit == self.meets(*sphere),
    {
        let m: i128 = self.max as i128;
        let r: i128 = sphere.radius as i128;
        let s: i128 = m + r;
        let wx: i128 = sphere.center.x as i128 - self.origin.x as i128;
        let wy: i128 = sphere.center.y as i128 - self.origin.y as i128;
        let wz: i128 = sphere.center.z as i128 - self.origin.z as i128;
        let ghost w = sphere.center@.minus(self.origin@);
        let ghost d = self.direction@;
        if wx < -s || wx > s || wy < -s || wy > s || wz < -s || wz > s {
            proof {
                lemma_far_centre_misses(w, d, m as int, r as int);
            }
            return false;
        }
        let dx: i128 = self.direction.x as i128;
        let dy: i128 = self.direction.y as i128;
        let dz: i128 = self.direction.z as i128;
        proof {
            lemma_norm_sq_bound(w, 1_000_000);
            lemma_norm_sq_bound(d, DIR_LIMIT as int);
            lemma_product_bound(wx as int, dx as int, 1_000_000, DIR_LIMIT as int);
            lemma_product_bound(wy as int, dy as int, 1_000_000, DIR_LIMIT as int);
            lemma_product_bound(wz as int, dz as int, 1_000_000, DIR_LIMIT as int);
            lemma_square_bound(m as int, REACH_LIMIT as int);
            lemma_square_bound(r as int, RADIUS_LIMIT as int);
        }
        let ww: i128 = wx * wx + wy * wy + wz * wz;
        let dd: i128 = dx * dx + dy * dy + dz * dz;
        let p: i128 = wx * dx + wy * dy + wz * dz;
        let mm: i128 = m * m;
        let rr: i128 = r * r;
        assert(ww == w.norm_sq() && dd == d.norm_sq() && p == w.dot(d));
        assert(0 <= ww <= 3_000_000_000_000);
        assert(0 <= dd <= 3_298_534_883_328);
        assert(-3_145_728_000_000 <= p <= 3_145_728_000_000);
        assert(0 <= mm <= 250_000_000_000 && 0 <= rr <= 250_000_000_000);
        if p <= 0 {
            return ww <= rr;
        }
        proof {
            lemma_product_bound(p as int, p as int, 3_145_728_000_000int, 3_145_728_000_000int);
            lemma_product_bound(mm as int, dd as int, 250_000_000_000int, 3_298_534_883_328int);
            lemma_product_bound(rr as int, dd as int, 250_000_000_000int, 3_298_534_883_328int);
            lemma_product_bound(ww as int, dd as int, 3_000_000_000_000int, 3_298_534_883_328int);
        }
        let pp: i128 = p * p;
        if pp <= mm * dd {
            return ww * dd - pp <= rr * dd;
        }
        let a: i128 = ww + mm - rr;
        if a <= 0 {
            return true;
        }
        proof {
            lemma_product_bound(a as int, a as int, 3_250_000_000_000int, 3_250_000_000_000int);
            lemma_product_bound(
                (a * a) as int,
                dd as int,
                10_562_500_000_000_000_000_000_000int,
                3_298_534_883_328int,
            );
            lemma_product_bound(
                (4 * mm) as int,
                pp as int,
                1_000_000_000_000int,
                9_895_604_649_984_000_000_000_000int,
            );
            assert(4 * m * m * p * p == (4 * mm) * pp) by (nonlinear_arith)
                requires
                    mm == m * m,
                    pp == p * p,
            ;
        }
        a * a * dd <= 4 * mm * pp
    }
}

/// A ray that meets a ball starts no farther from the ball's centre
/// than its reach and the radius together.
pub proof fn lemma_hit_within_reach(w: SpecVec3, d: SpecVec3, max: int, radius: int)
    requires
        !d.is_zero(),
        max >= 0,
        radius >= 0,
        segment_meets_ball(w, d, max, radius),
    ensures
        w.norm_sq() <= (max + radius) * (max + radius),
{
    let ww = w.norm_sq();
    let dd = d.norm_sq();
    let p = w.dot(d);
    let mm = max * max;
    let rr = radius * radius;
    let ss = (max + radius) * (max + radius);
    assert(ss >= mm + rr && ss >= rr && mm >= 0 && rr >= 0) by (nonlinear_arith)
        requires
            ss == (max + radius) * (max + radius),
            mm == max * max,
            rr == radius * radius,
            max >= 0,
            radius >= 0,
    ;
    assert(dd > 0) by (nonlinear_arith)
        requires
            dd == d.x * d.x + d.y * d.y + d.z * d.z,
            d.x != 0 || d.y != 0 || d.z != 0,
    ;
    if p <= 0 {
    } else if approach_in_reach(w, d, max) {
        assert(ww <= mm + rr) by (nonlinear_arith)
            requires
                ww * dd - p * p <= rr * dd,
                p * p <= mm * dd,
                dd > 0,
        ;
    } else {
        let a = ww + mm - rr;
        if a > 0 {
            lemma_dot_squared_bound(w, d);
            assert(a * a <= 4 * mm * ww) by (nonlinear_arith)
                requires
                    a * a * dd <= 4 * max * max * p * p,
                    mm == max * max,
                    p * p <= ww * dd,
                    dd > 0,
                    mm >= 0,
            ;
            if ww > ss {
                let dm = (max - radius) * (max - radius);
                assert(a * a - 4 * mm * ww == (ww - ss) * (ww - dm)) by (nonlinear_arith)
                    requires
                        a == ww + mm - rr,
                        mm == max * max,
                        rr == radius * radius,
                        ss == (max + radius) * (max + radius),
                        dm == (max - radius) * (max - radius),
                ;
                assert(dm <= ss) by (nonlinear_arith)
                    requires
                        ss == (max + radius) * (max + radius),
                        dm == (max - radius) * (max - radius),
                        max >= 0,
                        radius >= 0,
                ;
                assert((ww - ss) * (ww - dm) > 0) by (nonlinear_arith)
                    requires
                        ww > ss,
                        dm <= ss,
                ;
            }
        }
    }
}

/// A ray misses a ball whose centre lies, along some axis, farther from
/// the origin than the reach and the radius together.
pub proof fn lemma_far_centre_misses(w: SpecVec3, d: SpecVec3, max: int, radius: int)
    requires
        !d.is_zero(),
        max >= 0,
        radius >= 0,
        !w.within(max + radius),
    ensures
        !segment_meets_ball(w, d, max, radius),
{
    if segment_meets_ball(w, d, max, radius) {
        lemma_hit_within_reach(w, d, max, radius);
        let s = max + radius;
        assert(w.norm_sq() > s * s) by (nonlinear_arith)
            requires
                w.norm_sq() == w.x * w.x + w.y * w.y + w.z * w.z,
                s >= 0,
                w.x < -s || w.x > s || w.y < -s || w.y > s || w.z < -s || w.z > s,
        ;
    }
}

/// A point of the ray within the ball puts the ray's line within the
/// ball's radius of the centre.
pub proof fn lemma_hit_puts_line_within(w: SpecVec3, d: SpecVec3, max: int, radius: int)
    requires
        !d.is_zero(),
        max >= 0,
        radius >= 0,
        segment_meets_ball(w, d, max, radius),
    ensures
        line_within(w, d, radius),
{
    let ww = w.norm_sq();
    let dd = d.norm_sq();
    let p = w.dot(d);
    let mm = max * max;
    let rr = radius * radius;
    lemma_direction_length(d);
    assert(mm >= 0 && rr >= 0 && p * p >= 0) by (nonlinear_arith)
        requires
            mm == max * max,
            rr == radius * radius,
    ;
    if p > 0 && approach_in_reach(w, d, max) {
    } else if p <= 0 || ww + mm - rr <= 0 {
        assert(ww * dd <= rr * dd) by (nonlinear_arith)
            requires
                ww <= rr,
                dd > 0,
        ;
    } else {
        let a = ww + mm - rr;
        let x = p * p;
        let y = mm * dd;
        assert(a * a * dd <= 4 * mm * x) by (nonlinear_arith)
            requires
                a * a * dd <= 4 * max * max * p * p,
                mm == max * max,
                x == p * p,
        ;
        if (ww - rr) * dd > x {
            assert(a * dd > x + y) by (nonlinear_arith)
                requires
                    a == ww + mm - rr,
                    (ww - rr) * dd > x,
                    y == mm * dd,
            ;
            assert(y >= 0) by (nonlinear_arith)
                requires
                    y == mm * dd,
                    mm >= 0,
                    dd > 0,
            ;
            assert((a * dd) * (a * dd) > 4 * (x * y)) by (nonlinear_arith)
                requires
                    a * dd > x + y,
                    x >= 0,
                    y >= 0,
            ;
            assert((a * dd) * (a * dd) == (a * a * dd) * dd) by (nonlinear_arith);
            assert(4 * (x * y) == (4 * mm * x) * dd) by (nonlinear_arith)
                requires
                    y == mm * dd,
            ;
            assert((a * a * dd) * dd <= (4 * mm * x) * dd) by (nonlinear_arith)
                requires
                    a * a * dd <= 4 * mm * x,
                    dd > 0,
            ;
        }
        assert(ww * dd - x <= rr * dd) by (nonlinear_arith)
            requires
                (ww - rr) * dd <= x,
        ;
    }
}

/// A ray whose closest approach to the centre of a ball lies within
/// its reach, and within the radius of the centre, meets the ball.
pub proof fn lemma_close_approach_hits(ray: Ray, sphere: BoundingSphere)
    requires
        ray.wf(),
        sphere.wf(),
        approach_in_reach(
            sphere.center()@.minus(ray.origin()@),
            ray.direction()@,
            ray.max() as int,
        ),
        line_within(
            sphere.center()@.minus(ray.origin()@),
            ray.direction()@,
            sphere.radius() as int,
        ),
    ensures
        ray.meets(sphere),
{
    let w = sphere.center()@.minus(ray.origin()@);
    let d = ray.direction()@;
    let rr = sphere.radius() as int * sphere.radius() as int;
    lemma_direction_length(d);
    if w.dot(d) == 0 {
        assert(w.norm_sq() <= rr) by (nonlinear_arith)
            requires
                w.norm_sq() * d.norm_sq() - w.dot(d) * w.dot(d) <= rr * d.norm_sq(),
                w.dot(d) == 0,
                d.norm_sq() > 0,
        ;
    }
}

/// A ray whose line stays farther from the centre of a ball than the
/// radius misses the ball, whatever its reach.
pub proof fn lemma_distant_line_misses(ray: Ray, sphere: BoundingSphere)
    requires
        ray.wf(),
        sphere.wf(),
        !line_within(
            sphere.center()@.minus(ray.origin()@),
            ray.direction()@,
            sphere.radius() as int,
        ),
    ensures
        !ray.meets(sphere),
{
    if ray.meets(sphere) {
        lemma_hit_puts_line_within(
            sphere.center()@.minus(ray.origin()@),
            ray.direction()@,
            ray.max() as int,
            sphere.radius() as int,
        );
    }
}

/// A ray whose closest approach lies beyond its reach misses the ball,
/// unless its far end lies within the ball.
pub proof fn lemma_beyond_reach_misses(ray: Ray, sphere: BoundingSphere)
    requires
        ray.wf(),
        sphere.wf(),
        approach_beyond_reach(
            sphere.center()@.minus(ray.origin()@),
            ray.direction()@,
            ray.max() as int,
        ),
        !far_end_within(
            sphere.center()@.minus(ray.origin()@),
            ray.direction()@,
            ray.max() as int,
            sphere.radius() as int,
        ),
    ensures
        !ray.meets(sphere),
{
}

/// A ray whose closest approach lies beyond its reach by more than the
/// ball's radius misses the ball.
pub proof fn lemma_far_approach_misses(ray: Ray, sphere: BoundingSphere)
    requires
        ray.wf(),
        sphere.wf(),
        approach_beyond_reach(
            sphere.center()@.minus(ray.origin()@),
            ray.direction()@,
            ray.max() + sphere.radius(),
        ),
    ensures
        !ray.meets(sphere),
{
    let w = sphere.center()@.minus(ray.origin()@);
    let d = ray.direction()@;
    let s = ray.max() + sphere.radius();
    if ray.meets(sphere) {
        lemma_hit_within_reach(w, d, ray.max() as int, sphere.radius() as int);
        lemma_dot_squared_bound(w, d);
        lemma_direction_length(d);
        assert(w.norm_sq() * d.norm_sq() <= s * s * d.norm_sq()) by (nonlinear_arith)
            requires
                w.norm_sq() <= s * s,
                d.norm_sq() > 0,
        ;
    }
}

} // verus!
