//! Projection onto the line through two points.

use vstd::prelude::*;
use crate::barycentric::ratio::{is_one_hot, Barycentric};
use crate::barycentric::vector::{Point3, RationalPoint3, Vec3, Vector3, CHANNEL_MAX};

verus! {

/// The weight numerators `[den - t, t]` of `pt` on the line from `origin`
/// along `direction`, where `t / den` is the position of the foot of `pt`
/// along the line. A line of length zero, and the origin itself, give `[1, 0]`.
pub open spec fn line_numerators(origin: Vec3, direction: Vec3, pt: Vec3) -> Seq<int> {
    if direction.norm_squared() == 0 || pt == origin {
        seq![1, 0]
    } else {
        let t = pt.minus(origin).dot(direction);
        seq![direction.norm_squared() - t, t]
    }
}

/// The denominator that goes with `line_numerators`.
pub open spec fn line_denominator(origin: Vec3, direction: Vec3, pt: Vec3) -> int {
    if direction.norm_squared() == 0 || pt == origin {
        1
    } else {
        direction.norm_squared()
    }
}

/// Whether the foot of `pt` lies outside the segment, so that projecting
/// with clipping moves it to the nearer end.
pub open spec fn line_is_clipped(origin: Vec3, direction: Vec3, pt: Vec3) -> bool {
    let t = pt.minus(origin).dot(direction);
    &&& direction.norm_squared() != 0
    &&& pt != origin
    &&& (t < 0 || t > direction.norm_squared())
}

/// The weight numerators of the point of the segment that is nearest to `pt`:
/// `[0, 1]` beyond the far end, `[1, 0]` before the origin, and those of the
/// foot of `pt` between the two.
pub open spec fn clipped_line_numerators(origin: Vec3, direction: Vec3, pt: Vec3) -> Seq<int> {
    let t = pt.minus(origin).dot(direction);
    if !line_is_clipped(origin, direction, pt) {
        line_numerators(origin, direction, pt)
    } else if t > direction.norm_squared() {
        seq![0, 1]
    } else {
        seq![1, 0]
    }
}

/// The denominator that goes with `clipped_line_numerators`.
pub open spec fn clipped_line_denominator(origin: Vec3, direction: Vec3, pt: Vec3) -> int {
    if line_is_clipped(origin, direction, pt) {
        1
    } else {
        line_denominator(origin, direction, pt)
    }
}

/// The line through two points, with what projecting onto it needs.
#[derive(Clone, Copy, Debug)]
pub struct LineProjector {
    /// The first of the two points.
    pub origin: Point3,
    /// From the first point to the second.
    pub direction: Vector3,
    /// The squared length of `direction`; zero where the two points are one.
    pub length_squared: i128,
}

impl LineProjector {
    /// The origin is a colour, and the other fields are what `new` derives
    /// from two colours.
    pub open spec fn wf(&self) -> bool {
        &&& self.origin.wf()
        &&& self.direction@.within(CHANNEL_MAX as int)
        &&& self.length_squared == self.direction@.norm_squared()
    }

    /// The line from `vertices[0]` to `vertices[1]`.
    pub fn new(vertices: [Point3; 2]) -> (r: LineProjector)
        requires
            vertices[0].wf(),
            vertices[1].wf(),
        ensures
            r.wf(),
            r.origin == vertices[0],
            r.direction@ == vertices[1]@.minus(vertices[0]@),
            r.length_squared == 0 <==> vertices[0] == vertices[1],
            r.length_squared >= 0,
    {
        let a = vertices[0];
        let b = vertices[1];
        let direction = b.minus(&a);
        let length_squared: i128 = direction.dot(
            &direction,
            Ghost(CHANNEL_MAX as int),
            Ghost(CHANNEL_MAX as int),
        );
        proof {
            lemma_norm_squared_zero(direction@);
        }
        LineProjector { origin: a, direction, length_squared }
    }

    /// The barycentric coordinates `[1 - t, t]` of the foot of `pt` on the line.
    pub fn project(&self, pt: &Point3) -> (r: Barycentric<2>)
        requires
            self.wf(),
            pt.wf(),
        ensures
            r.nums() == line_numerators(self.origin@, self.direction@, pt@),
            r.den == line_denominator(self.origin@, self.direction@, pt@),
            r.den > 0,
            r.num[0] + r.num[1] == r.den,
            self.length_squared == 0 ==> r.num[0] == 1 && r.num[1] == 0 && r.den == 1,
            r.within(6 * CHANNEL_MAX * CHANNEL_MAX),
    {
        if self.length_squared == 0 {
            let r = Barycentric { num: [1, 0], den: 1 };
            assert(r.nums() =~= seq![1, 0]);
            return r;
        }
        if pt.x == self.origin.x && pt.y == self.origin.y && pt.z == self.origin.z {
            let r = Barycentric { num: [1, 0], den: 1 };
            assert(r.nums() =~= seq![1, 0]);
            return r;
        }
        let origin_to_pt = pt.minus(&self.origin);
        let t: i128 = origin_to_pt.dot(
            &self.direction,
            Ghost(CHANNEL_MAX as int),
            Ghost(CHANNEL_MAX as int),
        );
        proof {
            lemma_norm_squared_zero(self.direction@);
            crate::barycentric::vector::lemma_mul_within(
                self.direction.x as int,
                self.direction.x as int,
                CHANNEL_MAX as int,
                CHANNEL_MAX as int,
            );
            crate::barycentric::vector::lemma_mul_within(
                self.direction.y as int,
                self.direction.y as int,
                CHANNEL_MAX as int,
                CHANNEL_MAX as int,
            );
            crate::barycentric::vector::lemma_mul_within(
                self.direction.z as int,
                self.direction.z as int,
                CHANNEL_MAX as int,
                CHANNEL_MAX as int,
            );
        }
        let r = Barycentric { num: [self.length_squared - t, t], den: self.length_squared };
        assert(r.nums() =~= seq![self.length_squared - t, t as int]);
        assert(pt@ != self.origin@);
        r
    }

    /// The point `origin + direction * (num[1] / den)` that the coordinates stand for.
    pub fn bary_to_point(&self, barycentric_coords: &Barycentric<2>) -> (r: RationalPoint3)
        requires
            self.wf(),
            barycentric_coords.within(0x1_0000_0000_0000_0000_0000),
        ensures
            r.num@ == self.origin@.scale(barycentric_coords.den as int).plus(
                self.direction@.scale(barycentric_coords.num[1] as int),
            ),
            r.den == barycentric_coords.den,
    {
        let den: i128 = barycentric_coords.den;
        let w: i128 = barycentric_coords.num[1];
        proof {
            let lim: int = 0x1_0000_0000_0000_0000_0000;
            let c: int = CHANNEL_MAX as int;
            crate::barycentric::vector::lemma_mul_within(self.origin.x as int, den as int, c, lim);
            crate::barycentric::vector::lemma_mul_within(self.origin.y as int, den as int, c, lim);
            crate::barycentric::vector::lemma_mul_within(self.origin.z as int, den as int, c, lim);
            crate::barycentric::vector::lemma_mul_within(self.direction.x as int, w as int, c, lim);
            crate::barycentric::vector::lemma_mul_within(self.direction.y as int, w as int, c, lim);
            crate::barycentric::vector::lemma_mul_within(self.direction.z as int, w as int, c, lim);
        }
        RationalPoint3 {
            num: Vector3 {
                x: self.origin.x as i128 * den + self.direction.x * w,
                y: self.origin.y as i128 * den + self.direction.y * w,
                z: self.origin.z as i128 * den + self.direction.z * w,
            },
            den,
        }
    }

    /// The coordinates of the point of the segment nearest to `pt`, and
    /// whether the foot of `pt` fell outside the segment.
    pub fn clipping_project(&self, pt: &Point3) -> (r: (Barycentric<2>, bool))
        requires
            self.wf(),
            pt.wf(),
        ensures
            r.0.nums() == clipped_line_numerators(self.origin@, self.direction@, pt@),
            r.0.den == clipped_line_denominator(self.origin@, self.direction@, pt@),
            r.1 == line_is_clipped(self.origin@, self.direction@, pt@),
            r.0.den > 0,
            r.0.num[0] >= 0,
            r.0.num[1] >= 0,
            r.0.num[0] + r.0.num[1] == r.0.den,
            r.0.within(3 * CHANNEL_MAX * CHANNEL_MAX),
    {
        let ret = self.project(pt);
        proof {
            lemma_norm_squared_zero(self.direction@);
            crate::barycentric::vector::lemma_mul_within(
                self.direction.x as int,
                self.direction.x as int,
                CHANNEL_MAX as int,
                CHANNEL_MAX as int,
            );
            crate::barycentric::vector::lemma_mul_within(
                self.direction.y as int,
                self.direction.y as int,
                CHANNEL_MAX as int,
                CHANNEL_MAX as int,
            );
            crate::barycentric::vector::lemma_mul_within(
                self.direction.z as int,
                self.direction.z as int,
                CHANNEL_MAX as int,
                CHANNEL_MAX as int,
            );
            assert(ret.nums()[0] == ret.num[0] && ret.nums()[1] == ret.num[1]);
        }
        if ret.num[0] < 0 {
            let r = Barycentric { num: [0, 1], den: 1 };
            assert(r.nums() =~= seq![0, 1]);
            (r, true)
        } else if ret.num[1] < 0 {
            let r = Barycentric { num: [1, 0], den: 1 };
            assert(r.nums() =~= seq![1, 0]);
            (r, true)
        } else {
            (ret, false)
        }
    }
}

/// A vector has squared length zero exactly when it is the zero vector,
/// and never a negative one.
pub proof fn lemma_norm_squared_zero(v: Vec3)
    ensures
        v.norm_squared() >= 0,
        v.norm_squared() == 0 <==> v == (Vec3 { x: 0, y: 0, z: 0 }),
{
    assert(v.x * v.x >= 0 && (v.x * v.x == 0 <==> v.x == 0)) by (nonlinear_arith);
    assert(v.y * v.y >= 0 && (v.y * v.y == 0 <==> v.y == 0)) by (nonlinear_arith);
    assert(v.z * v.z >= 0 && (v.z * v.z == 0 <==> v.z == 0)) by (nonlinear_arith);
}

/// At an end of a line that has a length, that end has the whole weight.
pub proof fn lemma_line_at_ends(origin: Vec3, direction: Vec3)
    requires
        direction.norm_squared() != 0,
    ensures
        is_one_hot(
            line_numerators(origin, direction, origin),
            line_denominator(origin, direction, origin),
            0,
        ),
        is_one_hot(
            line_numerators(origin, direction, origin.plus(direction)),
            line_denominator(origin, direction, origin.plus(direction)),
            1,
        ),
{
    let far = origin.plus(direction);
    lemma_norm_squared_zero(direction);
    assert(far != origin);
    assert(far.minus(origin) == direction);
    let at_far = line_numerators(origin, direction, far);
    assert(at_far[0] == 0 && at_far[1] == direction.norm_squared());
}

} // verus!
