//! Integer points and vectors, and the mathematical vectors that model them.

use vstd::prelude::*;
use crate::barycentric::ratio::Ratio;

verus! {

/// Largest value that a colour channel may hold: ten bits. With channels
/// of this size every product that the projectors and decomposers form fits
/// a 128-bit integer.
pub const CHANNEL_MAX: u16 = 1023;

/// A vector of three mathematical integers.
pub struct Vec3 {
    pub x: int,
    pub y: int,
    pub z: int,
}

impl Vec3 {
    /// The difference, component by component.
    pub open spec fn minus(self, other: Vec3) -> Vec3 {
        Vec3 { x: self.x - other.x, y: self.y - other.y, z: self.z - other.z }
    }

    /// The sum, component by component.
    pub open spec fn plus(self, other: Vec3) -> Vec3 {
        Vec3 { x: self.x + other.x, y: self.y + other.y, z: self.z + other.z }
    }

    /// Every component times `k`.
    pub open spec fn scale(self, k: int) -> Vec3 {
        Vec3 { x: self.x * k, y: self.y * k, z: self.z * k }
    }

    /// The dot product.
    pub open spec fn dot(self, other: Vec3) -> int {
        self.x * other.x + self.y * other.y + self.z * other.z
    }

    /// The cross product.
    pub open spec fn cross(self, other: Vec3) -> Vec3 {
        Vec3 {
            x: self.y * other.z - self.z * other.y,
            y: self.z * other.x - self.x * other.z,
            z: self.x * other.y - self.y * other.x,
        }
    }

    /// The squared length.
    pub open spec fn norm_squared(self) -> int {
        self.dot(self)
    }

    /// Every component lies in `[-bound, bound]`.
    pub open spec fn within(self, bound: int) -> bool {
        &&& -bound <= self.x <= bound
        &&& -bound <= self.y <= bound
        &&& -bound <= self.z <= bound
    }
}

/// The determinant of the matrix whose columns are `a`, `b` and `c`.
pub open spec fn det3(a: Vec3, b: Vec3, c: Vec3) -> int {
    a.dot(b.cross(c))
}

/// A colour: three channels, each at most `CHANNEL_MAX`.
#[derive(Clone, Copy, Debug, PartialEq, Eq, Structural)]
pub struct Point3 {
    pub x: u16,
    pub y: u16,
    pub z: u16,
}

impl View for Point3 {
    type V = Vec3;

    open spec fn view(&self) -> Vec3 {
        Vec3 { x: self.x as int, y: self.y as int, z: self.z as int }
    }
}

impl Point3 {
    /// Every channel is within range.
    pub open spec fn wf(&self) -> bool {
        &&& self.x <= CHANNEL_MAX
        &&& self.y <= CHANNEL_MAX
        &&& self.z <= CHANNEL_MAX
    }

    /// The point with the given channels, if each is within range.
    pub fn new(x: u16, y: u16, z: u16) -> (r: Option<Point3>)
        ensures
            r is Some <==> x <= CHANNEL_MAX && y <= CHANNEL_MAX && z <= CHANNEL_MAX,
            r matches Some(p) ==> p.wf() && p.x == x && p.y == y && p.z == z,
    {
        if x <= CHANNEL_MAX && y <= CHANNEL_MAX && z <= CHANNEL_MAX {
            Some(Point3 { x, y, z })
        } else {
            None
        }
    }

    /// The vector from `other` to `self`.
    pub fn minus(&self, other: &Point3) -> (r: Vector3)
        ensures
            r@ == self@.minus(other@),
            self.wf() && other.wf() ==> r@.within(CHANNEL_MAX as int),
    {
        Vector3 {
            x: self.x as i128 - other.x as i128,
            y: self.y as i128 - other.y as i128,
            z: self.z as i128 - other.z as i128,
        }
    }
}

/// A vector of three machine integers.
#[derive(Clone, Copy, Debug, PartialEq, Eq, Structural)]
pub struct Vector3 {
    pub x: i128,
    pub y: i128,
    pub z: i128,
}

impl View for Vector3 {
    type V = Vec3;

    open spec fn view(&self) -> Vec3 {
        Vec3 { x: self.x as int, y: self.y as int, z: self.z as int }
    }
}

/// A point with rational coordinates: `num / den` in each component.
#[derive(Clone, Copy, Debug)]
pub struct RationalPoint3 {
    pub num: Vector3,
    pub den: i128,
}

/// The largest magnitude for which sums of three products stay in range.
pub open spec fn product_limit() -> int {
    0x2000_0000_0000_0000_0000_0000_0000_0000
}

/// `x * (y * z - w * u)` written as a difference of two products of three.
pub proof fn lemma_distribute_left(x: int, y: int, z: int, w: int, u: int)
    by (nonlinear_arith)
    ensures
        x * (y * z - w * u) == (x * y) * z - (x * w) * u,
{
}

/// `(y * z - w * u) * x` written as a difference of two products of three.
pub proof fn lemma_distribute_right(x: int, y: int, z: int, w: int, u: int)
    by (nonlinear_arith)
    ensures
        (y * z - w * u) * x == (y * z) * x - (w * u) * x,
{
}

/// A product of three may be rotated.
pub proof fn lemma_mul3_rotate(a: int, b: int, c: int)
    by (nonlinear_arith)
    ensures
        (a * b) * c == (b * c) * a,
{
}

proof fn lemma_det_rotate(
    ax: int,
    ay: int,
    az: int,
    bx: int,
    by: int,
    bz: int,
    cx: int,
    cy: int,
    cz: int,
)
    ensures
        ax * (by * cz - bz * cy) + ay * (bz * cx - bx * cz) + az * (bx * cy - by * cx) == bx * (cy
            * az - cz * ay) + by * (cz * ax - cx * az) + bz * (cx * ay - cy * ax),
{
    lemma_distribute_left(ax, by, cz, bz, cy);
    lemma_distribute_left(ay, bz, cx, bx, cz);
    lemma_distribute_left(az, bx, cy, by, cx);
    lemma_distribute_left(bx, cy, az, cz, ay);
    lemma_distribute_left(by, cz, ax, cx, az);
    lemma_distribute_left(bz, cx, ay, cy, ax);
    lemma_mul3_rotate(ax, by, cz);
    lemma_mul3_rotate(ax, bz, cy);
    lemma_mul3_rotate(ay, bz, cx);
    lemma_mul3_rotate(ay, bx, cz);
    lemma_mul3_rotate(az, bx, cy);
    lemma_mul3_rotate(az, by, cx);
}

proof fn lemma_triple_swap(
    ax: int,
    ay: int,
    az: int,
    bx: int,
    by: int,
    bz: int,
    cx: int,
    cy: int,
    cz: int,
)
    ensures
        (ay * bz - az * by) * cx + (az * bx - ax * bz) * cy + (ax * by - ay * bx) * cz == ax * (by
            * cz - bz * cy) + ay * (bz * cx - bx * cz) + az * (bx * cy - by * cx),
{
    lemma_distribute_right(cx, ay, bz, az, by);
    lemma_distribute_right(cy, az, bx, ax, bz);
    lemma_distribute_right(cz, ax, by, ay, bx);
    lemma_distribute_left(ax, by, cz, bz, cy);
    lemma_distribute_left(ay, bz, cx, bx, cz);
    lemma_distribute_left(az, bx, cy, by, cx);
}

proof fn lemma_dot_commutes_ints(ax: int, ay: int, az: int, bx: int, by: int, bz: int)
    ensures
        ax * bx + ay * by + az * bz == bx * ax + by * ay + bz * az,
{
    assert(ax * bx == bx * ax) by (nonlinear_arith);
    assert(ay * by == by * ay) by (nonlinear_arith);
    assert(az * bz == bz * az) by (nonlinear_arith);
}

proof fn lemma_dot_scale_ints(ax: int, ay: int, az: int, bx: int, by: int, bz: int, k: int)
    ensures
        ax * (bx * k) + ay * (by * k) + az * (bz * k) == k * (ax * bx + ay * by + az * bz),
{
    assert(ax * (bx * k) == k * (ax * bx)) by (nonlinear_arith);
    assert(ay * (by * k) == k * (ay * by)) by (nonlinear_arith);
    assert(az * (bz * k) == k * (az * bz)) by (nonlinear_arith);
    let p = ax * bx;
    let q = ay * by;
    let r = az * bz;
    assert(k * (p + q + r) == k * p + k * q + k * r) by (nonlinear_arith);
}

/// Rotating the columns of a determinant leaves it unchanged.
pub proof fn lemma_det3_cyclic(a: Vec3, b: Vec3, c: Vec3)
    ensures
        det3(a, b, c) == det3(b, c, a),
        det3(a, b, c) == det3(c, a, b),
{
    lemma_det_rotate(a.x, a.y, a.z, b.x, b.y, b.z, c.x, c.y, c.z);
    lemma_det_rotate(b.x, b.y, b.z, c.x, c.y, c.z, a.x, a.y, a.z);
}

/// The scalar triple product may be bracketed either way.
pub proof fn lemma_triple_product(a: Vec3, b: Vec3, c: Vec3)
    ensures
        a.cross(b).dot(c) == a.dot(b.cross(c)),
{
    lemma_triple_swap(a.x, a.y, a.z, b.x, b.y, b.z, c.x, c.y, c.z);
}

/// Swapping two columns of a determinant changes its sign.
pub proof fn lemma_det3_swap(a: Vec3, b: Vec3, c: Vec3)
    ensures
        det3(a, c, b) == -det3(a, b, c),
        det3(b, a, c) == -det3(a, b, c),
        det3(c, b, a) == -det3(a, b, c),
{
    lemma_det3_swap_last(a, b, c);
    // the other two swaps are this one, rotated
    lemma_det3_cyclic(b, a, c);
    lemma_det3_cyclic(a, c, b);
    lemma_det3_cyclic(c, b, a);
    lemma_det3_cyclic(a, b, c);
    lemma_det3_swap_last(b, c, a);
    lemma_det3_swap_last(c, a, b);
}

proof fn lemma_det3_swap_last(a: Vec3, b: Vec3, c: Vec3)
    ensures
        det3(a, c, b) == -det3(a, b, c),
{
    assert(b.y * c.z == c.z * b.y) by (nonlinear_arith);
    assert(b.z * c.y == c.y * b.z) by (nonlinear_arith);
    assert(b.z * c.x == c.x * b.z) by (nonlinear_arith);
    assert(b.x * c.z == c.z * b.x) by (nonlinear_arith);
    assert(b.x * c.y == c.y * b.x) by (nonlinear_arith);
    assert(b.y * c.x == c.x * b.y) by (nonlinear_arith);
    let w = b.cross(c);
    let u = c.cross(b);
    assert(u.x == -w.x && u.y == -w.y && u.z == -w.z);
    assert(a.x * u.x == -(a.x * w.x)) by (nonlinear_arith)
        requires
            u.x == -w.x,
    ;
    assert(a.y * u.y == -(a.y * w.y)) by (nonlinear_arith)
        requires
            u.y == -w.y,
    ;
    assert(a.z * u.z == -(a.z * w.z)) by (nonlinear_arith)
        requires
            u.z == -w.z,
    ;
}

/// A determinant with two equal columns, or with a column of zeros, is zero.
pub proof fn lemma_det3_degenerate(a: Vec3, b: Vec3)
    ensures
        det3(a, a, b) == 0,
        det3(a, b, a) == 0,
        det3(b, a, a) == 0,
        det3(Vec3 { x: 0, y: 0, z: 0 }, a, b) == 0,
        det3(a, Vec3 { x: 0, y: 0, z: 0 }, b) == 0,
        det3(a, b, Vec3 { x: 0, y: 0, z: 0 }) == 0,
{
    lemma_det3_swap(a, a, b);
    lemma_det3_swap(a, b, a);
    lemma_det3_swap(b, a, a);
    let o = Vec3 { x: 0, y: 0, z: 0 };
    assert(det3(o, a, b) == 0) by (nonlinear_arith)
        requires
            o.x == 0 && o.y == 0 && o.z == 0,
    ;
    lemma_det3_cyclic(o, b, a);
    lemma_det3_cyclic(o, a, b);
    assert(det3(o, b, a) == 0) by (nonlinear_arith)
        requires
            o.x == 0 && o.y == 0 && o.z == 0,
    ;
}

/// The dot product does not depend on the order of its operands.
pub proof fn lemma_dot_commutes(a: Vec3, b: Vec3)
    ensures
        a.dot(b) == b.dot(a),
{
    lemma_dot_commutes_ints(a.x, a.y, a.z, b.x, b.y, b.z);
}

/// A factor of one operand of a dot product can be taken out of it.
pub proof fn lemma_dot_scale(a: Vec3, b: Vec3, k: int)
    ensures
        a.dot(b.scale(k)) == k * a.dot(b),
{
    lemma_dot_scale_ints(a.x, a.y, a.z, b.x, b.y, b.z, k);
}

/// A product of two bounded numbers is bounded by the product of the bounds.
pub proof fn lemma_mul_within(x: int, y: int, a: int, b: int)
    by (nonlinear_arith)
    requires
        -a <= x <= a,
        -b <= y <= b,
    ensures
        -(a * b) <= x * y <= a * b,
{
}

impl Vector3 {
    /// The dot product, for vectors within the ghost bounds `a` and `b`.
    pub(crate) fn dot(&self, other: &Vector3, Ghost(a): Ghost<int>, Ghost(b): Ghost<int>) -> (r:
        i128)
        requires
            self@.within(a),
            other@.within(b),
            a * b <= product_limit(),
        ensures
            r == self@.dot(other@),
            -(3 * (a * b)) <= r <= 3 * (a * b),
    {
        proof {
            lemma_mul_within(self.x as int, other.x as int, a, b);
            lemma_mul_within(self.y as int, other.y as int, a, b);
            lemma_mul_within(self.z as int, other.z as int, a, b);
        }
        self.x * other.x + self.y * other.y + self.z * other.z
    }

    /// The cross product, for vectors within the ghost bounds `a` and `b`.
    pub(crate) fn cross(&self, other: &Vector3, Ghost(a): Ghost<int>, Ghost(b): Ghost<int>) -> (r:
        Vector3)
        requires
            self@.within(a),
            other@.within(b),
            a * b <= product_limit(),
        ensures
            r@ == self@.cross(other@),
            r@.within(2 * (a * b)),
    {
        proof {
            lemma_mul_within(self.y as int, other.z as int, a, b);
            lemma_mul_within(self.z as int, other.y as int, a, b);
            lemma_mul_within(self.z as int, other.x as int, a, b);
            lemma_mul_within(self.x as int, other.z as int, a, b);
            lemma_mul_within(self.x as int, other.y as int, a, b);
            lemma_mul_within(self.y as int, other.x as int, a, b);
        }
        Vector3 {
            x: self.y * other.z - self.z * other.y,
            y: self.z * other.x - self.x * other.z,
            z: self.x * other.y - self.y * other.x,
        }
    }
}

impl Vector3 {
    /// The vector that points the other way.
    pub(crate) fn negated(&self, Ghost(a): Ghost<int>) -> (r: Vector3)
        requires
            self@.within(a),
            a <= product_limit(),
        ensures
            r@ == self@.scale(-1),
            r@.within(a),
    {
        Vector3 { x: -self.x, y: -self.y, z: -self.z }
    }
}

impl RationalPoint3 {
    /// The squared distance `|num - pt * den|^2 / den^2` from `pt` to this point.
    pub fn distance_squared(&self, pt: &Point3) -> (r: Ratio)
        requires
            pt.wf(),
            self.num@.within(0x40_0000_0000),
            0 < self.den <= 0x80_0000,
        ensures
            r.num == self.num@.minus(pt@.scale(self.den as int)).norm_squared(),
            r.den == self.den * self.den,
            r.within_limits(),
    {
        proof {
            lemma_mul_within(pt.x as int, self.den as int, CHANNEL_MAX as int, 0x80_0000);
            lemma_mul_within(pt.y as int, self.den as int, CHANNEL_MAX as int, 0x80_0000);
            lemma_mul_within(pt.z as int, self.den as int, CHANNEL_MAX as int, 0x80_0000);
            lemma_mul_within(self.den as int, self.den as int, 0x80_0000, 0x80_0000);
            assert(self.den * self.den > 0) by (nonlinear_arith)
                requires
                    self.den > 0,
            ;
        }
        let diff = Vector3 {
            x: self.num.x - pt.x as i128 * self.den,
            y: self.num.y - pt.y as i128 * self.den,
            z: self.num.z - pt.z as i128 * self.den,
        };
        let num: i128 = diff.dot(&diff, Ghost(0x80_0000_0000), Ghost(0x80_0000_0000));
        proof {
            crate::barycentric::line::lemma_norm_squared_zero(diff@);
        }
        Ratio { num, den: self.den * self.den }
    }
}

} // verus!
