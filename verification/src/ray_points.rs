//! The ray test against the points of the ray: a ray meets a ball
//! where one of its points lies in the ball.

use vstd::prelude::*;
use crate::arith::lemma_square_monotone;
use crate::hit::{approach_in_reach, far_end_within, segment_meets_ball};
use crate::vector::{
    lemma_direction_length, lemma_square_of_difference, lemma_square_of_product, SpecVec3,
};

verus! {

/// The point `origin + (a / b) * d` of the ray lies within its reach
/// and within the ball: `(a / b) * |d| <= max`, and
/// `|w - (a / b) * d| <= radius`.
pub open spec fn point_in_ball(w: SpecVec3, d: SpecVec3, max: int, radius: int, a: int, b: int)
    -> bool {
    &&& b > 0
    &&& a >= 0
    &&& a * a * d.norm_sq() <= max * max * (b * b)
    &&& w.times(b).minus(d.times(a)).norm_sq() <= radius * radius * (b * b)
}

/// The square of `w b - d a`.
proof fn lemma_offset_square(w: int, d: int, a: int, b: int)
    ensures
        (w * b - d * a) * (w * b - d * a) == (b * b) * (w * w) - 2 * ((a * b) * (w * d)) + (a * a)
            * (d * d),
{
    lemma_square_of_difference(w * b, d * a);
    lemma_square_of_product(w, b);
    lemma_square_of_product(d, a);
    assert((w * b) * (d * a) == (a * b) * (w * d)) by (nonlinear_arith);
    assert((b * b) * (w * w) == (w * w) * (b * b)) by (nonlinear_arith);
    assert((a * a) * (d * d) == (d * d) * (a * a)) by (nonlinear_arith);
}

/// The squared distance from the centre to the point `a / b` along the
/// ray, cleared of its denominator.
proof fn lemma_distance_to_point(w: SpecVec3, d: SpecVec3, a: int, b: int)
    ensures
        w.times(b).minus(d.times(a)).norm_sq() == (b * b) * w.norm_sq() - 2 * ((a * b) * w.dot(d))
            + (a * a) * d.norm_sq(),
{
    lemma_offset_square(w.x, d.x, a, b);
    lemma_offset_square(w.y, d.y, a, b);
    lemma_offset_square(w.z, d.z, a, b);
    let bb = b * b;
    let aa = a * a;
    let ab = a * b;
    assert(bb * (w.x * w.x + w.y * w.y + w.z * w.z) == bb * (w.x * w.x) + bb * (w.y * w.y) + bb
        * (w.z * w.z)) by (nonlinear_arith);
    assert(aa * (d.x * d.x + d.y * d.y + d.z * d.z) == aa * (d.x * d.x) + aa * (d.y * d.y) + aa
        * (d.z * d.z)) by (nonlinear_arith);
    assert(ab * (w.x * d.x + w.y * d.y + w.z * d.z) == ab * (w.x * d.x) + ab * (w.y * d.y) + ab
        * (w.z * d.z)) by (nonlinear_arith);
}

/// Where the closest approach lies beyond the reach, a point of the
/// ray in the ball puts the far end in the ball: toward the far end
/// the ray only comes closer to the centre.
proof fn lemma_far_end_is_nearest(
    ww: int,
    dd: int,
    p: int,
    max: int,
    radius: int,
    a: int,
    b: int,
)
    requires
        dd > 0,
        max >= 0,
        b > 0,
        a >= 0,
        p > 0,
        p * p > max * max * dd,
        a * a * dd <= max * max * (b * b),
        (b * b) * ww - 2 * ((a * b) * p) + (a * a) * dd <= radius * radius * (b * b),
        ww + max * max - radius * radius > 0,
    ensures
        (ww + max * max - radius * radius) * (ww + max * max - radius * radius) * dd <= 4 * max
            * max * p * p,
{
    let big_a = ww + max * max - radius * radius;
    let bb = b * b;
    let y = bb * big_a;
    let bm = b * max;
    let bp = b * p;
    let x = bm * bm;
    let u = a * a * dd;
    let v = x * dd;
    let c = x - u;
    let m = a * bp;
    let z = c + 2 * m;
    let t = a * dd;
    lemma_square_of_product(b, max);
    lemma_square_of_product(b, p);
    assert(x == max * max * bb) by (nonlinear_arith)
        requires
            x == (b * max) * (b * max),
            bb == b * b,
    ;
    assert(bp * bp == bb * (p * p));
    assert(m == (a * b) * p) by (nonlinear_arith)
        requires
            m == a * (b * p),
    ;
    assert(y == bb * ww + bb * (max * max) - bb * (radius * radius)) by (nonlinear_arith)
        requires
            y == bb * (ww + max * max - radius * radius),
    ;
    assert(y <= z) by (nonlinear_arith)
        requires
            y == bb * ww + bb * (max * max) - bb * (radius * radius),
            z == x - u + 2 * m,
            x == max * max * bb,
            m == (a * b) * p,
            u == a * a * dd,
            bb * ww - 2 * ((a * b) * p) + (a * a) * dd <= radius * radius * bb,
    ;
    assert(y > 0) by (nonlinear_arith)
        requires
            y == bb * big_a,
            bb == b * b,
            b > 0,
            big_a > 0,
    ;
    assert(c >= 0);
    // a * dd lies below b * p
    assert(bp * bp > v) by (nonlinear_arith)
        requires
            bp * bp == bb * (p * p),
            v == x * dd,
            x == max * max * bb,
            p * p > max * max * dd,
            bb == b * b,
            b > 0,
    ;
    assert(t * t == u * dd) by (nonlinear_arith)
        requires
            t == a * dd,
            u == a * a * dd,
    ;
    assert(u * dd <= v) by (nonlinear_arith)
        requires
            u <= x,
            v == x * dd,
            dd > 0,
    ;
    assert(bp > 0 && t >= 0) by (nonlinear_arith)
        requires
            bp == b * p,
            t == a * dd,
            b > 0,
            p > 0,
            a >= 0,
            dd > 0,
    ;
    if t >= bp {
        lemma_square_monotone(bp, t);
    }
    let s = 2 * bp - t;
    lemma_square_of_difference(2 * bp, t);
    assert((2 * bp) * (2 * bp) == 4 * (bp * bp)) by (nonlinear_arith);
    assert((2 * bp) * t == 2 * (bp * t)) by (nonlinear_arith);
    assert(s * s == 4 * (bp * bp) + t * t - 4 * (bp * t));
    assert(s * s > bp * bp) by (nonlinear_arith)
        requires
            s == 2 * bp - t,
            0 <= t < bp,
    ;
    assert(s * s - v > 0);
    // z^2 dd = c^2 dd + 4 c t bp + 4 u bp^2
    assert(z * z == c * c + 4 * (c * m) + 4 * (m * m)) by (nonlinear_arith)
        requires
            z == c + 2 * m,
    ;
    lemma_square_of_product(a, bp);
    assert(m * m == (a * a) * (bp * bp));
    assert((m * m) * dd == u * (bp * bp)) by (nonlinear_arith)
        requires
            m * m == (a * a) * (bp * bp),
            u == a * a * dd,
    ;
    assert((c * m) * dd == c * (bp * t)) by (nonlinear_arith)
        requires
            m == a * bp,
            t == a * dd,
    ;
    assert(z * z * dd == (c * c) * dd + 4 * ((c * m) * dd) + 4 * ((m * m) * dd))
        by (nonlinear_arith)
        requires
            z * z == c * c + 4 * (c * m) + 4 * (m * m),
    ;
    // 4 x bp^2 - z^2 dd = c (s^2 - v)
    assert(c * (s * s - v) == 4 * (c * (bp * bp)) + c * (t * t) - 4 * (c * (bp * t)) - c * v)
        by (nonlinear_arith)
        requires
            s * s == 4 * (bp * bp) + t * t - 4 * (bp * t),
    ;
    assert(c * (t * t) - c * v == -((c * c) * dd)) by (nonlinear_arith)
        requires
            t * t == u * dd,
            v == x * dd,
            c == x - u,
    ;
    assert(c * (bp * bp) == x * (bp * bp) - u * (bp * bp)) by (nonlinear_arith)
        requires
            c == x - u,
    ;
    assert(4 * (x * (bp * bp)) - z * z * dd == c * (s * s - v));
    assert(c * (s * s - v) >= 0) by (nonlinear_arith)
        requires
            c >= 0,
            s * s - v > 0,
    ;
    assert(y * y <= z * z) by (nonlinear_arith)
        requires
            0 < y <= z,
    ;
    assert((y * y) * dd <= (z * z) * dd) by (nonlinear_arith)
        requires
            y * y <= z * z,
            dd > 0,
    ;
    let q = big_a * big_a * dd;
    let r = 4 * max * max * p * p;
    let b4 = bb * bb;
    lemma_square_of_product(bb, big_a);
    assert((y * y) * dd == b4 * q) by (nonlinear_arith)
        requires
            y * y == (bb * bb) * (big_a * big_a),
            b4 == bb * bb,
            q == big_a * big_a * dd,
    ;
    assert(4 * (x * (bp * bp)) == b4 * r) by (nonlinear_arith)
        requires
            x == max * max * bb,
            bp * bp == bb * (p * p),
            b4 == bb * bb,
            r == 4 * max * max * p * p,
    ;
    assert(b4 > 0) by (nonlinear_arith)
        requires
            b4 == bb * bb,
            bb == b * b,
            b > 0,
    ;
    assert(q <= r) by (nonlinear_arith)
        requires
            b4 * q <= b4 * r,
            b4 > 0,
    ;
}

/// A miss is a miss: where any point of the ray, at a rational
/// distance along it and within its reach, lies in the ball, the ray
/// meets the ball.
pub proof fn lemma_point_in_ball_hits(
    w: SpecVec3,
    d: SpecVec3,
    max: int,
    radius: int,
    a: int,
    b: int,
)
    requires
        !d.is_zero(),
        max >= 0,
        radius >= 0,
        point_in_ball(w, d, max, radius, a, b),
    ensures
        segment_meets_ball(w, d, max, radius),
{
    let ww = w.norm_sq();
    let dd = d.norm_sq();
    let p = w.dot(d);
    let rr = radius * radius;
    let f = w.times(b).minus(d.times(a)).norm_sq();
    lemma_direction_length(d);
    lemma_distance_to_point(w, d, a, b);
    if p <= 0 {
        assert((a * b) * p <= 0 && (a * a) * dd >= 0) by (nonlinear_arith)
            requires
                p <= 0,
                a >= 0,
                b > 0,
                dd > 0,
        ;
        assert(ww <= rr) by (nonlinear_arith)
            requires
                (b * b) * ww <= rr * (b * b),
                b > 0,
        ;
    } else if approach_in_reach(w, d, max) {
        let bb = b * b;
        let e = b * p - a * dd;
        let h = ww * dd - p * p;
        lemma_square_of_difference(b * p, a * dd);
        lemma_square_of_product(b, p);
        lemma_square_of_product(a, dd);
        assert((b * p) * (a * dd) == ((a * b) * p) * dd) by (nonlinear_arith);
        assert(e * e == bb * (p * p) + (a * a) * (dd * dd) - 2 * (((a * b) * p) * dd));
        assert(dd * f == (bb * ww) * dd - 2 * (((a * b) * p) * dd) + ((a * a) * dd) * dd)
            by (nonlinear_arith)
            requires
                f == bb * ww - 2 * ((a * b) * p) + (a * a) * dd,
        ;
        assert(bb * h == (bb * ww) * dd - bb * (p * p)) by (nonlinear_arith)
            requires
                h == ww * dd - p * p,
        ;
        assert(((a * a) * dd) * dd == (a * a) * (dd * dd)) by (nonlinear_arith);
        assert(dd * f == bb * h + e * e);
        assert(e * e >= 0) by (nonlinear_arith);
        assert(dd * f <= dd * (rr * bb)) by (nonlinear_arith)
            requires
                f <= rr * bb,
                dd > 0,
        ;
        assert(bb * h <= bb * (rr * dd)) by (nonlinear_arith)
            requires
                bb * h <= dd * (rr * bb),
        ;
        assert(h <= rr * dd) by (nonlinear_arith)
            requires
                bb * h <= bb * (rr * dd),
                bb == b * b,
                b > 0,
        ;
    } else {
        if ww + max * max - rr > 0 {
            lemma_far_end_is_nearest(ww, dd, p, max, radius, a, b);
        }
    }
}

/// A hit is a hit: a ray that meets the ball has a point in it, which
/// is the origin, the foot of the perpendicular from the centre, or
/// the far end.
pub proof fn lemma_hit_has_point(w: SpecVec3, d: SpecVec3, max: int, radius: int)
    requires
        !d.is_zero(),
        max >= 0,
        radius >= 0,
        segment_meets_ball(w, d, max, radius),
    ensures
        point_in_ball(w, d, max, radius, 0, 1) || point_in_ball(
            w,
            d,
            max,
            radius,
            w.dot(d),
            d.norm_sq(),
        ) || far_end_within(w, d, max, radius),
{
    let ww = w.norm_sq();
    let dd = d.norm_sq();
    let p = w.dot(d);
    let rr = radius * radius;
    lemma_direction_length(d);
    if p <= 0 {
        lemma_distance_to_point(w, d, 0, 1);
        assert(max * max * (1 * 1) >= 0) by (nonlinear_arith);
    } else if approach_in_reach(w, d, max) {
        lemma_distance_to_point(w, d, p, dd);
        let f = w.times(dd).minus(d.times(p)).norm_sq();
        let h = ww * dd - p * p;
        assert((dd * dd) * ww == dd * (ww * dd)) by (nonlinear_arith);
        assert((p * dd) * p == dd * (p * p)) by (nonlinear_arith);
        assert((p * p) * dd == dd * (p * p)) by (nonlinear_arith);
        assert(dd * h == dd * (ww * dd) - dd * (p * p)) by (nonlinear_arith)
            requires
                h == ww * dd - p * p,
        ;
        assert(f == dd * h);
        assert(f <= rr * (dd * dd)) by (nonlinear_arith)
            requires
                f == dd * h,
                h <= rr * dd,
                dd > 0,
        ;
        assert(p * p * dd <= max * max * (dd * dd)) by (nonlinear_arith)
            requires
                p * p <= max * max * dd,
                dd > 0,
        ;
    }
}

} // verus!
