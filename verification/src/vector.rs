//! Lattice vectors and the integer arithmetic on them.

use vstd::prelude::*;
use crate::arith::{
    abs, floor_sqrt, is_floor_sqrt, isqrt, lemma_abs_square, lemma_floor_sqrt_exists,
    lemma_product_bound, lemma_round_div_error, lemma_square_bound, lemma_square_monotone,
    round_div, rounded_quotient,
};

verus! {

/// The largest coordinate, in absolute value, of a vector that
/// [`Vec3::scaled_to`] accepts.
pub const VEC_LIMIT: i64 = 0x100_0000_0000;

/// The largest length that [`Vec3::scaled_to`] scales to.
pub const LEN_LIMIT: i64 = 0x10_0000;

/// The factor by which a squared length is enlarged before its root is
/// taken, so that a short vector is scaled as precisely as a long one.
pub const ROOT_GUARD: i64 = 0x10_0000;

/// A vector of unbounded integers: the mathematical value of a [`Vec3`].
pub struct SpecVec3 {
    pub x: int,
    pub y: int,
    pub z: int,
}

impl SpecVec3 {
    pub open spec fn minus(self, o: SpecVec3) -> SpecVec3 {
        SpecVec3 { x: self.x - o.x, y: self.y - o.y, z: self.z - o.z }
    }

    pub open spec fn times(self, k: int) -> SpecVec3 {
        SpecVec3 { x: self.x * k, y: self.y * k, z: self.z * k }
    }

    pub open spec fn dot(self, o: SpecVec3) -> int {
        self.x * o.x + self.y * o.y + self.z * o.z
    }

    pub open spec fn cross(self, o: SpecVec3) -> SpecVec3 {
        SpecVec3 {
            x: self.y * o.z - self.z * o.y,
            y: self.z * o.x - self.x * o.z,
            z: self.x * o.y - self.y * o.x,
        }
    }

    /// The squared Euclidean length.
    pub open spec fn norm_sq(self) -> int {
        self.dot(self)
    }

    pub open spec fn is_zero(self) -> bool {
        self.x == 0 && self.y == 0 && self.z == 0
    }

    /// Every coordinate lies within `limit` of zero.
    pub open spec fn within(self, limit: int) -> bool {
        abs(self.x) <= limit && abs(self.y) <= limit && abs(self.z) <= limit
    }

    /// The vector divided by `t`, each coordinate rounded to the nearest
    /// integer.
    pub open spec fn divided_by(self, t: int) -> SpecVec3 {
        SpecVec3 { x: round_div(self.x, t), y: round_div(self.y, t), z: round_div(self.z, t) }
    }

    /// The length of the vector, enlarged by `ROOT_GUARD` and rounded down.
    pub open spec fn guarded_length(self) -> int {
        floor_sqrt(self.norm_sq() * ROOT_GUARD * ROOT_GUARD)
    }

    /// The vector of length `len` in the direction of `self`, each
    /// coordinate rounded to the nearest integer.
    pub open spec fn scaled_to(self, len: int) -> SpecVec3 {
        SpecVec3 {
            x: round_div(self.x * len * ROOT_GUARD, self.guarded_length()),
            y: round_div(self.y * len * ROOT_GUARD, self.guarded_length()),
            z: round_div(self.z * len * ROOT_GUARD, self.guarded_length()),
        }
    }
}

/// A point or displacement whose coordinates are whole thousandths of a
/// world unit.
#[derive(Clone, Copy, Debug, PartialEq, Eq, Structural)]
pub struct Vec3 {
    pub x: i64,
    pub y: i64,
    pub z: i64,
}

impl View for Vec3 {
    type V = SpecVec3;

    open spec fn view(&self) -> SpecVec3 {
        SpecVec3 { x: self.x as int, y: self.y as int, z: self.z as int }
    }
}

impl Vec3 {
    pub fn new(x: i64, y: i64, z: i64) -> (v: Vec3)
        ensures
            v.x == x,
            v.y == y,
            v.z == z,
    {
        Vec3 { x, y, z }
    }

    /// Whether every coordinate lies within `limit` of zero.
    pub fn is_within(&self, limit: i64) -> (b: bool)
        ensures
            b == self@.within(limit as int),
    {
        limit >= 0 && -limit <= self.x && self.x <= limit && -limit <= self.y && self.y <= limit
            && -limit <= self.z && self.z <= limit
    }

    pub fn is_zero(&self) -> (b: bool)
        ensures
            b == self@.is_zero(),
    {
        self.x == 0 && self.y == 0 && self.z == 0
    }

    /// The vector of length `len` that points where `self` points.
    pub fn scaled_to(&self, len: i64) -> (r: Vec3)
        requires
            !self@.is_zero(),
            self@.within(VEC_LIMIT as int),
            0 <= len <= LEN_LIMIT,
        ensures
            r@ == self@.scaled_to(len as int),
            r@.within(len as int),
    {
        let x: i128 = self.x as i128;
        let y: i128 = self.y as i128;
        let z: i128 = self.z as i128;
        let k: i128 = ROOT_GUARD as i128;
        proof {
            lemma_norm_sq_bound(self@, VEC_LIMIT as int);
        }
        let nn: i128 = x * x + y * y + z * z;
        assert(1 <= nn <= 3 * VEC_LIMIT * VEC_LIMIT) by (nonlinear_arith)
            requires
                nn == x * x + y * y + z * z,
                nn <= 3 * VEC_LIMIT * VEC_LIMIT,
                x != 0 || y != 0 || z != 0,
        ;
        let guarded: u128 = (nn * k * k) as u128;
        let root: u128 = isqrt(guarded);
        proof {
            lemma_guarded_length(self@);
        }
        let lk: i128 = len as i128 * k;
        proof {
            lemma_scaled_within(self@, len as int);
            lemma_scaled_numerator(self.x as int, len as int);
            lemma_scaled_numerator(self.y as int, len as int);
            lemma_scaled_numerator(self.z as int, len as int);
            assert(x * (len * k) == x * len * k) by (nonlinear_arith);
            assert(y * (len * k) == y * len * k) by (nonlinear_arith);
            assert(z * (len * k) == z * len * k) by (nonlinear_arith);
        }
        let rx: i128 = rounded_quotient(x * lk, root);
        let ry: i128 = rounded_quotient(y * lk, root);
        let rz: i128 = rounded_quotient(z * lk, root);
        Vec3 { x: rx as i64, y: ry as i64, z: rz as i64 }
    }
}

/// A vector within `limit` has a squared length of at most `3 * limit^2`.
pub proof fn lemma_norm_sq_bound(v: SpecVec3, limit: int)
    requires
        v.within(limit),
    ensures
        0 <= v.x * v.x <= limit * limit,
        0 <= v.y * v.y <= limit * limit,
        0 <= v.z * v.z <= limit * limit,
        0 <= v.norm_sq() <= 3 * limit * limit,
{
    lemma_square_bound(v.x, limit);
    lemma_square_bound(v.y, limit);
    lemma_square_bound(v.z, limit);
    assert(3 * limit * limit == 3 * (limit * limit)) by (nonlinear_arith);
}

/// The guarded length of a vector that is not zero is at least
/// `ROOT_GUARD`, and at least `ROOT_GUARD` times each coordinate.
pub proof fn lemma_guarded_length(v: SpecVec3)
    requires
        !v.is_zero(),
    ensures
        v.norm_sq() >= 1,
        is_floor_sqrt(v.norm_sq() * ROOT_GUARD * ROOT_GUARD, v.guarded_length()),
        v.guarded_length() >= ROOT_GUARD,
        v.guarded_length() >= abs(v.x) * ROOT_GUARD,
        v.guarded_length() >= abs(v.y) * ROOT_GUARD,
        v.guarded_length() >= abs(v.z) * ROOT_GUARD,
{
    let k = ROOT_GUARD as int;
    let n = v.norm_sq();
    let g = n * k * k;
    assert(n >= 1 && n >= v.x * v.x && n >= v.y * v.y && n >= v.z * v.z) by (nonlinear_arith)
        requires
            n == v.x * v.x + v.y * v.y + v.z * v.z,
            v.x != 0 || v.y != 0 || v.z != 0,
    ;
    assert(g >= 0) by (nonlinear_arith)
        requires
            g == n * k * k,
            n >= 1,
    ;
    lemma_floor_sqrt_exists(g);
    let l = v.guarded_length();
    assert(is_floor_sqrt(g, l));
    lemma_abs_square(v.x);
    lemma_abs_square(v.y);
    lemma_abs_square(v.z);
    lemma_root_dominates(g, l, k, 1, n);
    lemma_root_dominates(g, l, k, abs(v.x), n);
    lemma_root_dominates(g, l, k, abs(v.y), n);
    lemma_root_dominates(g, l, k, abs(v.z), n);
}

proof fn lemma_root_dominates(g: int, l: int, k: int, a: int, n: int)
    requires
        is_floor_sqrt(g, l),
        g == n * k * k,
        0 <= a,
        a * a <= n,
        k > 0,
    ensures
        a * k <= l,
{
    if a * k > l {
        assert(a * k >= 0) by (nonlinear_arith)
            requires
                a >= 0,
                k > 0,
        ;
        lemma_square_monotone(l + 1, a * k);
        assert((a * k) * (a * k) <= n * k * k) by (nonlinear_arith)
            requires
                a * a <= n,
                k > 0,
        ;
    }
}

/// One coordinate of a scaled vector lies within `len` of zero.
proof fn lemma_scaled_coordinate(c: int, v: SpecVec3, len: int)
    requires
        !v.is_zero(),
        c == v.x || c == v.y || c == v.z,
        0 <= len,
    ensures
        abs(round_div(c * len * ROOT_GUARD, v.guarded_length())) <= len,
        abs(c * len * ROOT_GUARD) == abs(c) * len * ROOT_GUARD,
{
    let k = ROOT_GUARD as int;
    let l = v.guarded_length();
    lemma_guarded_length(v);
    let a = abs(c);
    assert(a * k <= l);
    assert(abs(c * len * k) == a * len * k) by (nonlinear_arith)
        requires
            a == abs(c),
            len >= 0,
            k > 0,
    ;
    let m = a * len * k;
    assert(0 <= m <= l * len) by (nonlinear_arith)
        requires
            m == a * len * k,
            a * k <= l,
            len >= 0,
            a >= 0,
            k > 0,
    ;
    assert((2 * m + l) / (2 * l) <= len) by (nonlinear_arith)
        requires
            0 <= m <= l * len,
            l > 0,
            len >= 0,
    ;
    assert((2 * m + l) / (2 * l) >= 0) by (nonlinear_arith)
        requires
            0 <= m,
            l > 0,
    ;
}

/// The numerator of a scaled coordinate fits the machine's integers.
proof fn lemma_scaled_numerator(c: int, len: int)
    requires
        abs(c) <= VEC_LIMIT,
        0 <= len <= LEN_LIMIT,
    ensures
        abs(c * len * ROOT_GUARD) <= 0x1_0000_0000_0000_0000_0000,
{
    let a = abs(c);
    assert(abs(c * len * ROOT_GUARD) == a * len * 0x10_0000) by (nonlinear_arith)
        requires
            a == abs(c),
            len >= 0,
            ROOT_GUARD == 0x10_0000,
    ;
    assert(a * len * 0x10_0000 <= 0x1_0000_0000_0000_0000_0000) by (nonlinear_arith)
        requires
            0 <= a <= 0x100_0000_0000,
            0 <= len <= 0x10_0000,
    ;
}

/// A coordinate that carries at least a third of the squared length
/// keeps at least half of the length asked for.
proof fn lemma_leading_coordinate(c: int, v: SpecVec3, len: int)
    requires
        c == v.x || c == v.y || c == v.z,
        3 * (c * c) >= v.norm_sq(),
        !v.is_zero(),
        0 <= len,
    ensures
        abs(round_div(c * len * ROOT_GUARD, v.guarded_length())) >= len / 2,
{
    let k = ROOT_GUARD as int;
    let l = v.guarded_length();
    let n = v.norm_sq();
    let a = abs(c);
    lemma_guarded_length(v);
    lemma_abs_square(c);
    assert(a > 0) by (nonlinear_arith)
        requires
            3 * (a * a) >= n,
            n >= 1,
            a >= 0,
    ;
    if l >= 2 * a * k {
        assert(2 * a * k >= 0) by (nonlinear_arith)
            requires
                a > 0,
                k > 0,
        ;
        lemma_square_monotone(2 * a * k, l);
        assert((2 * a * k) * (2 * a * k) > n * k * k) by (nonlinear_arith)
            requires
                3 * (a * a) >= n,
                a > 0,
                k > 0,
        ;
    }
    let m = a * len * k;
    assert(abs(c * len * k) == m) by (nonlinear_arith)
        requires
            a == abs(c),
            m == a * len * k,
            len >= 0,
            k > 0,
    ;
    assert(2 * m >= l * len) by (nonlinear_arith)
        requires
            m == a * len * k,
            l < 2 * a * k,
            len >= 0,
    ;
    let h = len / 2;
    assert((2 * m + l) / (2 * l) >= h) by (nonlinear_arith)
        requires
            2 * m >= l * len,
            l > 0,
            0 <= 2 * h <= len,
    ;
}

/// A scaled vector has a coordinate of at least half the length asked
/// for, so it is not zero unless that length is below two.
pub proof fn lemma_scaled_reaches(v: SpecVec3, len: int)
    requires
        !v.is_zero(),
        0 <= len,
    ensures
        abs(v.scaled_to(len).x) >= len / 2 || abs(v.scaled_to(len).y) >= len / 2 || abs(
            v.scaled_to(len).z,
        ) >= len / 2,
{
    let n = v.norm_sq();
    if 3 * (v.x * v.x) >= n {
        lemma_leading_coordinate(v.x, v, len);
    } else if 3 * (v.y * v.y) >= n {
        lemma_leading_coordinate(v.y, v, len);
    } else {
        lemma_leading_coordinate(v.z, v, len);
    }
}

/// A scaled vector lies within the length asked for along each axis.
pub proof fn lemma_scaled_within(v: SpecVec3, len: int)
    requires
        !v.is_zero(),
        0 <= len,
    ensures
        v.scaled_to(len).within(len),
{
    lemma_scaled_coordinate(v.x, v, len);
    lemma_scaled_coordinate(v.y, v, len);
    lemma_scaled_coordinate(v.z, v, len);
}

pub proof fn lemma_square_of_product(a: int, b: int)
    ensures
        (a * a) * (b * b) == (a * b) * (a * b),
{
    assert((a * a) * (b * b) == (a * b) * (a * b)) by (nonlinear_arith);
}

proof fn lemma_swap_factors(a: int, x: int, b: int, y: int)
    ensures
        (a * x) * (b * y) == (a * y) * (b * x),
{
    assert((a * x) * (b * y) == (a * y) * (b * x)) by (nonlinear_arith);
}

proof fn lemma_square_of_sum(a: int, b: int, c: int)
    ensures
        (a + b + c) * (a + b + c) == a * a + b * b + c * c + 2 * (a * b) + 2 * (a * c) + 2 * (b
            * c),
{
    assert((a + b + c) * (a + b + c) == a * a + b * b + c * c + 2 * (a * b) + 2 * (a * c) + 2
        * (b * c)) by (nonlinear_arith);
}

pub proof fn lemma_square_of_difference(a: int, b: int)
    ensures
        (a - b) * (a - b) == a * a + b * b - 2 * (a * b),
{
    assert((a - b) * (a - b) == a * a + b * b - 2 * (a * b)) by (nonlinear_arith);
}

proof fn lemma_product_of_sums(a: int, b: int, c: int, x: int, y: int, z: int)
    ensures
        (a + b + c) * (x + y + z) == a * x + a * y + a * z + b * x + b * y + b * z + c * x + c * y
            + c * z,
{
    assert((a + b + c) * (x + y + z) == a * x + a * y + a * z + b * x + b * y + b * z + c * x + c
        * y + c * z) by (nonlinear_arith);
}

/// The identity of Lagrange, and with it the inequality of Cauchy and
/// Schwarz, on the lattice.
pub proof fn lemma_dot_squared_bound(w: SpecVec3, d: SpecVec3)
    ensures
        w.dot(d) * w.dot(d) <= w.norm_sq() * d.norm_sq(),
        w.norm_sq() * d.norm_sq() - w.dot(d) * w.dot(d) == w.cross(d).norm_sq(),
        w.cross(d).norm_sq() >= 0,
{
    let c = w.cross(d);
    lemma_product_of_sums(w.x * w.x, w.y * w.y, w.z * w.z, d.x * d.x, d.y * d.y, d.z * d.z);
    lemma_square_of_product(w.x, d.x);
    lemma_square_of_product(w.x, d.y);
    lemma_square_of_product(w.x, d.z);
    lemma_square_of_product(w.y, d.x);
    lemma_square_of_product(w.y, d.y);
    lemma_square_of_product(w.y, d.z);
    lemma_square_of_product(w.z, d.x);
    lemma_square_of_product(w.z, d.y);
    lemma_square_of_product(w.z, d.z);
    lemma_square_of_sum(w.x * d.x, w.y * d.y, w.z * d.z);
    lemma_square_of_difference(w.y * d.z, w.z * d.y);
    lemma_square_of_difference(w.z * d.x, w.x * d.z);
    lemma_square_of_difference(w.x * d.y, w.y * d.x);
    lemma_swap_factors(w.x, d.x, w.y, d.y);
    lemma_swap_factors(w.x, d.x, w.z, d.z);
    lemma_swap_factors(w.y, d.y, w.z, d.z);
    assert((w.z * d.x) * (w.x * d.z) == (w.x * d.x) * (w.z * d.z)) by (nonlinear_arith);
    assert(c.x * c.x >= 0 && c.y * c.y >= 0 && c.z * c.z >= 0) by (nonlinear_arith);
}

/// The squared length of a direction that is not zero is positive.
pub proof fn lemma_direction_length(d: SpecVec3)
    requires
        !d.is_zero(),
    ensures
        d.norm_sq() > 0,
{
    assert(d.norm_sq() > 0) by (nonlinear_arith)
        requires
            d.norm_sq() == d.x * d.x + d.y * d.y + d.z * d.z,
            d.x != 0 || d.y != 0 || d.z != 0,
    ;
}

/// The square of `2 n + e`, coordinate by coordinate.
proof fn lemma_shifted_square(r: int, n: int, e: int, l: int)
    requires
        2 * l * r == 2 * n + e,
    ensures
        4 * (l * l) * (r * r) == 4 * (n * n) + 4 * (n * e) + e * e,
{
    assert(4 * (l * l) * (r * r) == (2 * l * r) * (2 * l * r)) by (nonlinear_arith);
    assert((2 * n + e) * (2 * n + e) == 4 * (n * n) + 4 * (n * e) + e * e) by (nonlinear_arith);
}

/// A scaled vector has the length asked for, to within two: rounding
/// moves each coordinate by half a unit at most, and the root by less
/// than one part in `ROOT_GUARD`.
pub proof fn lemma_scaled_length(v: SpecVec3, len: int)
    requires
        !v.is_zero(),
        3 <= len <= LEN_LIMIT,
    ensures
        (len - 2) * (len - 2) <= v.scaled_to(len).norm_sq() <= (len + 2) * (len + 2),
{
    let k = ROOT_GUARD as int;
    let l = v.guarded_length();
    let vv = v.norm_sq();
    let r = v.scaled_to(len);
    let n = v.times(len * k);
    lemma_guarded_length(v);
    assert(l >= len);
    assert(n.x == v.x * len * k && n.y == v.y * len * k && n.z == v.z * len * k)
        by (nonlinear_arith)
        requires
            n.x == v.x * (len * k),
            n.y == v.y * (len * k),
            n.z == v.z * (len * k),
    ;
    lemma_round_div_error(n.x, l);
    lemma_round_div_error(n.y, l);
    lemma_round_div_error(n.z, l);
    let e = SpecVec3 {
        x: 2 * l * r.x - 2 * n.x,
        y: 2 * l * r.y - 2 * n.y,
        z: 2 * l * r.z - 2 * n.z,
    };
    // the numerators have the length len * sqrt(vv) * k, which lies
    // between len * l and len * (l + 1)
    let nn = n.norm_sq();
    let c = len * k;
    let g = vv * k * k;
    lemma_square_of_product(v.x, c);
    lemma_square_of_product(v.y, c);
    lemma_square_of_product(v.z, c);
    lemma_square_of_product(len, k);
    assert(nn == vv * (c * c)) by (nonlinear_arith)
        requires
            nn == n.x * n.x + n.y * n.y + n.z * n.z,
            n.x == v.x * c,
            n.y == v.y * c,
            n.z == v.z * c,
            (v.x * v.x) * (c * c) == (v.x * c) * (v.x * c),
            (v.y * v.y) * (c * c) == (v.y * c) * (v.y * c),
            (v.z * v.z) * (c * c) == (v.z * c) * (v.z * c),
            vv == v.x * v.x + v.y * v.y + v.z * v.z,
    ;
    assert(l * l <= g < (l + 1) * (l + 1));
    assert(nn == (len * len) * g) by (nonlinear_arith)
        requires
            nn == vv * (c * c),
            c * c == (len * len) * (k * k),
            g == vv * k * k,
    ;
    assert((len * len) * (l * l) <= nn <= (len * len) * ((l + 1) * (l + 1))) by (nonlinear_arith)
        requires
            nn == (len * len) * g,
            l * l <= g < (l + 1) * (l + 1),
    ;
    // the errors have a length of at most sqrt(3) * l
    let ee = e.norm_sq();
    lemma_square_bound(e.x, l);
    lemma_square_bound(e.y, l);
    lemma_square_bound(e.z, l);
    assert(0 <= ee <= 3 * (l * l));
    // so the two are nearly at right angles, as far as this sum goes
    let ne = n.dot(e);
    lemma_dot_squared_bound(n, e);
    let bound = 2 * len * (l + 1) * l;
    assert(ne * ne <= nn * ee);
    assert(nn * ee <= ((len * len) * ((l + 1) * (l + 1))) * (3 * (l * l))) by (nonlinear_arith)
        requires
            0 <= nn <= (len * len) * ((l + 1) * (l + 1)),
            0 <= ee <= 3 * (l * l),
    ;
    assert(((len * len) * ((l + 1) * (l + 1))) * (3 * (l * l)) < bound * bound)
        by (nonlinear_arith)
        requires
            bound == 2 * len * (l + 1) * l,
            len >= 3,
            l >= 1,
    ;
    assert(bound >= 0) by (nonlinear_arith)
        requires
            bound == 2 * len * (l + 1) * l,
            len >= 3,
            l >= 1,
    ;
    if abs(ne) >= bound {
        lemma_square_monotone(bound, abs(ne));
        lemma_abs_square(ne);
    }
    assert(-bound < ne < bound);
    // the square of 2 l r = 2 n + e
    lemma_shifted_square(r.x, n.x, e.x, l);
    lemma_shifted_square(r.y, n.y, e.y, l);
    lemma_shifted_square(r.z, n.z, e.z, l);
    let rr = r.norm_sq();
    assert(4 * (l * l) * rr == 4 * nn + 4 * ne + ee) by (nonlinear_arith)
        requires
            rr == r.x * r.x + r.y * r.y + r.z * r.z,
            nn == n.x * n.x + n.y * n.y + n.z * n.z,
            ee == e.x * e.x + e.y * e.y + e.z * e.z,
            ne == n.x * e.x + n.y * e.y + n.z * e.z,
            4 * (l * l) * (r.x * r.x) == 4 * (n.x * n.x) + 4 * (n.x * e.x) + e.x * e.x,
            4 * (l * l) * (r.y * r.y) == 4 * (n.y * n.y) + 4 * (n.y * e.y) + e.y * e.y,
            4 * (l * l) * (r.z * r.z) == 4 * (n.z * n.z) + 4 * (n.z * e.z) + e.z * e.z,
    ;
    assert(4 * (l * l) * rr >= 4 * (l * l) * ((len - 2) * (len - 2))) by (nonlinear_arith)
        requires
            4 * (l * l) * rr == 4 * nn + 4 * ne + ee,
            nn >= (len * len) * (l * l),
            ne > -bound,
            bound == 2 * len * (l + 1) * l,
            ee >= 0,
            3 <= len <= l,
    ;
    assert(4 * (l * l) * rr <= 4 * (l * l) * ((len + 2) * (len + 2))) by (nonlinear_arith)
        requires
            4 * (l * l) * rr == 4 * nn + 4 * ne + ee,
            nn <= (len * len) * ((l + 1) * (l + 1)),
            ne < bound,
            bound == 2 * len * (l + 1) * l,
            ee <= 3 * (l * l),
            3 <= len <= l,
    ;
    assert((len - 2) * (len - 2) <= rr <= (len + 2) * (len + 2)) by (nonlinear_arith)
        requires
            4 * (l * l) * rr >= 4 * (l * l) * ((len - 2) * (len - 2)),
            4 * (l * l) * rr <= 4 * (l * l) * ((len + 2) * (len + 2)),
            l >= 1,
    ;
}

/// Rounding changes the length of a divided vector by less than one:
/// where `q / t` is between `lo` and `hi` long, the rounded quotient is
/// between `lo - 1` and `hi + 1` long.
pub proof fn lemma_rounded_length(q: SpecVec3, t: int, lo: int, hi: int)
    requires
        t > 0,
        1 <= lo <= hi,
        7 * hi + 4 <= 8 * lo,
        (lo * lo) * (t * t) <= q.norm_sq() <= (hi * hi) * (t * t),
    ensures
        (lo - 1) * (lo - 1) <= q.divided_by(t).norm_sq() <= (hi + 1) * (hi + 1),
{
    let p = q.divided_by(t);
    lemma_round_div_error(q.x, t);
    lemma_round_div_error(q.y, t);
    lemma_round_div_error(q.z, t);
    let e = SpecVec3 {
        x: 2 * t * p.x - 2 * q.x,
        y: 2 * t * p.y - 2 * q.y,
        z: 2 * t * p.z - 2 * q.z,
    };
    let tt = t * t;
    let qq = q.norm_sq();
    let ee = e.norm_sq();
    let qe = q.dot(e);
    let pp = p.norm_sq();
    lemma_square_bound(e.x, t);
    lemma_square_bound(e.y, t);
    lemma_square_bound(e.z, t);
    assert(0 <= ee <= 3 * tt);
    lemma_dot_squared_bound(q, e);
    let bound = 7 * hi * tt;
    assert(tt > 0) by (nonlinear_arith)
        requires
            tt == t * t,
            t > 0,
    ;
    assert(qq * ee <= ((hi * hi) * tt) * (3 * tt)) by (nonlinear_arith)
        requires
            0 <= qq <= (hi * hi) * tt,
            0 <= ee <= 3 * tt,
    ;
    assert(16 * (((hi * hi) * tt) * (3 * tt)) < bound * bound) by (nonlinear_arith)
        requires
            bound == 7 * hi * tt,
            hi >= 1,
            tt > 0,
    ;
    assert(bound > 0) by (nonlinear_arith)
        requires
            bound == 7 * hi * tt,
            hi >= 1,
            tt > 0,
    ;
    let f = 4 * qe;
    assert(f * f == 16 * (qe * qe)) by (nonlinear_arith)
        requires
            f == 4 * qe,
    ;
    if abs(f) >= bound {
        lemma_square_monotone(bound, abs(f));
        lemma_abs_square(f);
    }
    assert(-bound < 4 * qe < bound);
    lemma_shifted_square(p.x, q.x, e.x, t);
    lemma_shifted_square(p.y, q.y, e.y, t);
    lemma_shifted_square(p.z, q.z, e.z, t);
    assert(4 * tt * pp == 4 * qq + 4 * qe + ee) by (nonlinear_arith)
        requires
            pp == p.x * p.x + p.y * p.y + p.z * p.z,
            qq == q.x * q.x + q.y * q.y + q.z * q.z,
            ee == e.x * e.x + e.y * e.y + e.z * e.z,
            qe == q.x * e.x + q.y * e.y + q.z * e.z,
            4 * tt * (p.x * p.x) == 4 * (q.x * q.x) + 4 * (q.x * e.x) + e.x * e.x,
            4 * tt * (p.y * p.y) == 4 * (q.y * q.y) + 4 * (q.y * e.y) + e.y * e.y,
            4 * tt * (p.z * p.z) == 4 * (q.z * q.z) + 4 * (q.z * e.z) + e.z * e.z,
    ;
    assert(4 * tt * pp >= 4 * tt * ((lo - 1) * (lo - 1))) by (nonlinear_arith)
        requires
            4 * tt * pp == 4 * qq + 4 * qe + ee,
            qq >= (lo * lo) * tt,
            4 * qe > -bound,
            bound == 7 * hi * tt,
            ee >= 0,
            7 * hi + 4 <= 8 * lo,
            tt > 0,
    ;
    assert(4 * tt * pp <= 4 * tt * ((hi + 1) * (hi + 1))) by (nonlinear_arith)
        requires
            4 * tt * pp == 4 * qq + 4 * qe + ee,
            qq <= (hi * hi) * tt,
            4 * qe < bound,
            bound == 7 * hi * tt,
            ee <= 3 * tt,
            hi >= 1,
            tt > 0,
    ;
    assert((lo - 1) * (lo - 1) <= pp <= (hi + 1) * (hi + 1)) by (nonlinear_arith)
        requires
            4 * tt * pp >= 4 * tt * ((lo - 1) * (lo - 1)),
            4 * tt * pp <= 4 * tt * ((hi + 1) * (hi + 1)),
            tt > 0,
    ;
}

/// A cross product lies across its first factor.
pub proof fn lemma_cross_lies_across(v: SpecVec3, a: SpecVec3)
    ensures
        v.dot(v.cross(a)) == 0,
{
    assert(v.x * (v.y * a.z - v.z * a.y) + v.y * (v.z * a.x - v.x * a.z) + v.z * (v.x * a.y - v.y
        * a.x) == 0) by (nonlinear_arith);
}

/// Scaling keeps the side of a plane on which a vector lies, up to
/// rounding: where `u` has with `v` a dot product that is not
/// negative, the scaled `u` has one of no less than minus one and a
/// half times the largest coordinate of `v`; and likewise where it is
/// not positive.
pub proof fn lemma_scaled_dot(v: SpecVec3, u: SpecVec3, len: int, limit: int)
    requires
        !u.is_zero(),
        0 <= len,
        v.within(limit),
    ensures
        v.dot(u) >= 0 ==> 2 * v.dot(u.scaled_to(len)) >= -3 * limit,
        v.dot(u) <= 0 ==> 2 * v.dot(u.scaled_to(len)) <= 3 * limit,
{
    let k = ROOT_GUARD as int;
    let l = u.guarded_length();
    let s = u.scaled_to(len);
    let c = len * k;
    lemma_guarded_length(u);
    assert(u.x * len * k == u.x * c && u.y * len * k == u.y * c && u.z * len * k == u.z * c)
        by (nonlinear_arith)
        requires
            c == len * k,
    ;
    lemma_round_div_error(u.x * c, l);
    lemma_round_div_error(u.y * c, l);
    lemma_round_div_error(u.z * c, l);
    let e = SpecVec3 {
        x: 2 * l * s.x - 2 * (u.x * c),
        y: 2 * l * s.y - 2 * (u.y * c),
        z: 2 * l * s.z - 2 * (u.z * c),
    };
    lemma_product_bound(v.x, e.x, limit, l);
    lemma_product_bound(v.y, e.y, limit, l);
    lemma_product_bound(v.z, e.z, limit, l);
    let ve = v.dot(e);
    assert(-(3 * (limit * l)) <= ve <= 3 * (limit * l));
    let vs = v.dot(s);
    assert(v.x * (2 * l * s.x) == v.x * (2 * (u.x * c)) + v.x * e.x) by (nonlinear_arith)
        requires
            e.x == 2 * l * s.x - 2 * (u.x * c),
    ;
    assert(v.y * (2 * l * s.y) == v.y * (2 * (u.y * c)) + v.y * e.y) by (nonlinear_arith)
        requires
            e.y == 2 * l * s.y - 2 * (u.y * c),
    ;
    assert(v.z * (2 * l * s.z) == v.z * (2 * (u.z * c)) + v.z * e.z) by (nonlinear_arith)
        requires
            e.z == 2 * l * s.z - 2 * (u.z * c),
    ;
    assert(v.x * (2 * l * s.x) == (2 * l) * (v.x * s.x)) by (nonlinear_arith);
    assert(v.y * (2 * l * s.y) == (2 * l) * (v.y * s.y)) by (nonlinear_arith);
    assert(v.z * (2 * l * s.z) == (2 * l) * (v.z * s.z)) by (nonlinear_arith);
    assert(v.x * (2 * (u.x * c)) == (2 * c) * (v.x * u.x)) by (nonlinear_arith);
    assert(v.y * (2 * (u.y * c)) == (2 * c) * (v.y * u.y)) by (nonlinear_arith);
    assert(v.z * (2 * (u.z * c)) == (2 * c) * (v.z * u.z)) by (nonlinear_arith);
    assert((2 * l) * vs == (2 * l) * (v.x * s.x) + (2 * l) * (v.y * s.y) + (2 * l) * (v.z * s.z))
        by (nonlinear_arith)
        requires
            vs == v.x * s.x + v.y * s.y + v.z * s.z,
    ;
    let vu = v.dot(u);
    assert((2 * c) * (v.x * u.x) + (2 * c) * (v.y * u.y) + (2 * c) * (v.z * u.z) == (2 * c) * vu)
        by (nonlinear_arith)
        requires
            vu == v.x * u.x + v.y * u.y + v.z * u.z,
    ;
    assert((2 * l) * vs == (2 * c) * vu + ve);
    assert(c >= 0) by (nonlinear_arith)
        requires
            c == len * k,
            len >= 0,
            k > 0,
    ;
    if vu >= 0 {
        assert(2 * vs >= -3 * limit) by (nonlinear_arith)
            requires
                (2 * l) * vs == (2 * c) * vu + ve,
                c >= 0,
                vu >= 0,
                -(3 * (limit * l)) <= ve,
                l > 0,
        ;
    }
    if vu <= 0 {
        assert(2 * vs <= 3 * limit) by (nonlinear_arith)
            requires
                (2 * l) * vs == (2 * c) * vu + ve,
                c >= 0,
                vu <= 0,
                ve <= 3 * (limit * l),
                l > 0,
        ;
    }
}

proof fn lemma_spread(x: int, y: int, z: int, u: int, w: int)
    ensures
        x * (y * z - u * w) == z * (x * y) - w * (x * u),
        z * (x * y - u * w) == z * (x * y) - z * (u * w),
{
    assert(x * (y * z - u * w) == z * (x * y) - w * (x * u)) by (nonlinear_arith);
    assert(z * (x * y - u * w) == z * (x * y) - z * (u * w)) by (nonlinear_arith);
}

/// The triple product does not change as its factors move round.
pub proof fn lemma_triple_product(d: SpecVec3, v: SpecVec3, a: SpecVec3)
    ensures
        d.dot(v.cross(a)) == a.dot(d.cross(v)),
{
    lemma_spread(d.x, v.y, a.z, v.z, a.y);
    lemma_spread(d.y, v.z, a.x, v.x, a.z);
    lemma_spread(d.z, v.x, a.y, v.y, a.x);
    lemma_spread(d.y, v.z, a.x, d.z, v.y);
    lemma_spread(d.z, v.x, a.y, d.x, v.z);
    lemma_spread(d.x, v.y, a.z, d.y, v.x);
    assert(a.y * (d.x * v.z) == a.y * (v.z * d.x)) by (nonlinear_arith);
    assert(a.z * (d.y * v.x) == a.z * (v.x * d.y)) by (nonlinear_arith);
    assert(a.x * (d.z * v.y) == a.x * (v.y * d.z)) by (nonlinear_arith);
}

} // verus!
