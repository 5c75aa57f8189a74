//! Projection onto the plane of a triangle.

use vstd::prelude::*;
use crate::barycentric::line::lemma_norm_squared_zero;
use crate::barycentric::ratio::{is_one_hot, Barycentric};
use crate::barycentric::vector::{
    lemma_det3_degenerate, lemma_dot_commutes, lemma_mul_within, lemma_triple_product, Point3,
    Vec3, Vector3, CHANNEL_MAX,
};

verus! {

/// The weight numerators of the foot of `pt` in the plane of the triangle
/// with the corner `origin` and the edges `edge_b` and `edge_c` from it.
/// The denominator is the squared length of the normal `edge_b x edge_c`.
pub open spec fn triangle_numerators(origin: Vec3, edge_b: Vec3, edge_c: Vec3, pt: Vec3) -> Seq<
    int,
> {
    let v = pt.minus(origin);
    let n = edge_b.cross(edge_c);
    let wb = v.cross(edge_c).dot(n);
    let wc = edge_b.cross(v).dot(n);
    seq![n.norm_squared() - wb - wc, wb, wc]
}

/// The height of `pt` over the plane of the triangle, times the length of
/// the normal `edge_b x edge_c`.
pub open spec fn triangle_height(origin: Vec3, edge_b: Vec3, edge_c: Vec3, pt: Vec3) -> int {
    edge_b.cross(edge_c).dot(pt.minus(origin))
}

/// A triangle of non-zero area, with what projecting onto its plane needs.
#[derive(Clone, Copy, Debug)]
pub struct TriangleProjector {
    /// The first corner.
    pub origin: Point3,
    /// From the first corner to the second.
    pub edge_b: Vector3,
    /// From the first corner to the third.
    pub edge_c: Vector3,
    /// `edge_b x edge_c`.
    pub normal: Vector3,
    /// The squared length of `normal`; positive.
    pub normal_norm_squared: i128,
    /// `edge_c x normal`: the dot product with it is the numerator of the second weight.
    pub grad_b: Vector3,
    /// `normal x edge_b`: the dot product with it is the numerator of the third weight.
    pub grad_c: Vector3,
}

impl TriangleProjector {
    /// The fields are what `new` derives from three colours that do not
    /// lie on one line.
    pub open spec fn wf(&self) -> bool {
        &&& self.origin.wf()
        &&& self.edge_b@.within(CHANNEL_MAX as int)
        &&& self.edge_c@.within(CHANNEL_MAX as int)
        &&& self.normal@ == self.edge_b@.cross(self.edge_c@)
        &&& self.normal_norm_squared == self.normal@.norm_squared()
        &&& self.normal_norm_squared > 0
        &&& self.grad_b@ == self.edge_c@.cross(self.normal@)
        &&& self.grad_c@ == self.normal@.cross(self.edge_b@)
    }

    /// The triangle with the given corners, unless they lie on one line.
    pub fn new(vertices: [Point3; 3]) -> (r: Option<TriangleProjector>)
        requires
            vertices[0].wf(),
            vertices[1].wf(),
            vertices[2].wf(),
        ensures
            r is None <==> vertices[1]@.minus(vertices[0]@).cross(
                vertices[2]@.minus(vertices[0]@),
            ) == (Vec3 { x: 0, y: 0, z: 0 }),
            r matches Some(t) ==> {
                &&& t.wf()
                &&& t.origin == vertices[0]
                &&& t.edge_b@ == vertices[1]@.minus(vertices[0]@)
                &&& t.edge_c@ == vertices[2]@.minus(vertices[0]@)
            },
    {
        let ghost c: int = CHANNEL_MAX as int;
        let a = vertices[0];
        let edge_b = vertices[1].minus(&a);
        let edge_c = vertices[2].minus(&a);
        let normal = edge_b.cross(&edge_c, Ghost(c), Ghost(c));
        let normal_norm_squared: i128 = normal.dot(&normal, Ghost(2 * (c * c)), Ghost(2 * (c * c)));
        proof {
            lemma_norm_squared_zero(normal@);
        }
        if normal_norm_squared == 0 {
            return None;
        }
        let grad_b = edge_c.cross(&normal, Ghost(c), Ghost(2 * (c * c)));
        let grad_c = normal.cross(&edge_b, Ghost(2 * (c * c)), Ghost(c));
        Some(
            TriangleProjector {
                origin: a,
                edge_b,
                edge_c,
                normal,
                normal_norm_squared,
                grad_b,
                grad_c,
            },
        )
    }

    /// The barycentric coordinates of the foot of `pt` in the plane of the
    /// triangle, and the height of `pt` over that plane times the length of
    /// the normal. The squared distance of `pt` from the plane is the square
    /// of the second result over `normal_norm_squared`.
    pub fn project(&self, pt: &Point3) -> (r: (Barycentric<3>, i128))
        requires
            self.wf(),
            pt.wf(),
        ensures
            r.0.nums() == triangle_numerators(self.origin@, self.edge_b@, self.edge_c@, pt@),
            r.0.den == self.normal_norm_squared,
            r.0.den > 0,
            r.0.num[0] + r.0.num[1] + r.0.num[2] == r.0.den,
            r.1 == triangle_height(self.origin@, self.edge_b@, self.edge_c@, pt@),
            r.0.within(36 * (CHANNEL_MAX * CHANNEL_MAX * CHANNEL_MAX * CHANNEL_MAX)),
            -6 * (CHANNEL_MAX * CHANNEL_MAX * CHANNEL_MAX) <= r.1 <= 6 * (CHANNEL_MAX
                * CHANNEL_MAX * CHANNEL_MAX),
    {
        let ghost c: int = CHANNEL_MAX as int;
        let v = pt.minus(&self.origin);
        proof {
            lemma_mul_within(self.edge_b.y as int, self.edge_c.z as int, c, c);
            lemma_mul_within(self.edge_b.z as int, self.edge_c.y as int, c, c);
            lemma_mul_within(self.edge_b.z as int, self.edge_c.x as int, c, c);
            lemma_mul_within(self.edge_b.x as int, self.edge_c.z as int, c, c);
            lemma_mul_within(self.edge_b.x as int, self.edge_c.y as int, c, c);
            lemma_mul_within(self.edge_b.y as int, self.edge_c.x as int, c, c);
            assert(self.normal@.within(2 * (c * c)));
            let n = self.normal@;
            let m: int = 2 * (c * c);
            lemma_mul_within(n.x, n.x, m, m);
            lemma_mul_within(n.y, n.y, m, m);
            lemma_mul_within(n.z, n.z, m, m);
            lemma_mul_within(self.edge_c.y as int, n.z, c, m);
            lemma_mul_within(self.edge_c.z as int, n.y, c, m);
            lemma_mul_within(self.edge_c.z as int, n.x, c, m);
            lemma_mul_within(self.edge_c.x as int, n.z, c, m);
            lemma_mul_within(self.edge_c.x as int, n.y, c, m);
            lemma_mul_within(self.edge_c.y as int, n.x, c, m);
            lemma_mul_within(n.y, self.edge_b.z as int, m, c);
            lemma_mul_within(n.z, self.edge_b.y as int, m, c);
            lemma_mul_within(n.z, self.edge_b.x as int, m, c);
            lemma_mul_within(n.x, self.edge_b.z as int, m, c);
            lemma_mul_within(n.x, self.edge_b.y as int, m, c);
            lemma_mul_within(n.y, self.edge_b.x as int, m, c);
            assert(self.grad_b@.within(2 * (c * m)));
            assert(self.grad_c@.within(2 * (m * c)));
        }
        let wb: i128 = v.dot(&self.grad_b, Ghost(c), Ghost(2 * (c * (2 * (c * c)))));
        let wc: i128 = v.dot(&self.grad_c, Ghost(c), Ghost(2 * ((2 * (c * c)) * c)));
        let height: i128 = self.normal.dot(&v, Ghost(2 * (c * c)), Ghost(c));
        proof {
            // wb = v . (edge_c x n) = (v x edge_c) . n
            lemma_triple_product(v@, self.edge_c@, self.normal@);
            // wc = v . (n x edge_b) = (n x edge_b) . v = n . (edge_b x v) = (edge_b x v) . n
            lemma_dot_commutes(v@, self.normal@.cross(self.edge_b@));
            lemma_triple_product(self.normal@, self.edge_b@, v@);
            lemma_dot_commutes(self.normal@, self.edge_b@.cross(v@));
        }
        let r = Barycentric {
            num: [self.normal_norm_squared - wb - wc, wb, wc],
            den: self.normal_norm_squared,
        };
        assert(r.nums() =~= seq![self.normal_norm_squared - wb - wc, wb as int, wc as int]);
        (r, height)
    }
}

/// The cross product of a vector with itself is the zero vector.
proof fn lemma_cross_self(a: Vec3)
    ensures
        a.cross(a) == (Vec3 { x: 0, y: 0, z: 0 }),
{
    assert(a.y * a.z == a.z * a.y) by (nonlinear_arith);
    assert(a.z * a.x == a.x * a.z) by (nonlinear_arith);
    assert(a.x * a.y == a.y * a.x) by (nonlinear_arith);
}

/// Corner `k` of the triangle: the origin, or the end of one of the edges.
pub open spec fn triangle_corner(origin: Vec3, edge_b: Vec3, edge_c: Vec3, k: int) -> Vec3 {
    if k == 0 {
        origin
    } else if k == 1 {
        origin.plus(edge_b)
    } else {
        origin.plus(edge_c)
    }
}

/// At a corner of the triangle, that corner has the whole weight, and the
/// height over the plane is zero.
pub proof fn lemma_triangle_at_corner(origin: Vec3, edge_b: Vec3, edge_c: Vec3, k: int)
    requires
        0 <= k < 3,
    ensures
        is_one_hot(
            triangle_numerators(origin, edge_b, edge_c, triangle_corner(origin, edge_b, edge_c, k)),
            edge_b.cross(edge_c).norm_squared(),
            k,
        ),
        triangle_height(origin, edge_b, edge_c, triangle_corner(origin, edge_b, edge_c, k)) == 0,
{
    let pt = triangle_corner(origin, edge_b, edge_c, k);
    let v = pt.minus(origin);
    let n = edge_b.cross(edge_c);
    let o = Vec3 { x: 0, y: 0, z: 0 };
    lemma_cross_self(edge_b);
    lemma_cross_self(edge_c);
    // the normal stands at right angles to both edges
    lemma_triple_product(edge_b, edge_c, edge_b);
    lemma_triple_product(edge_b, edge_c, edge_c);
    lemma_det3_degenerate(edge_b, edge_c);
    assert(o.dot(n) == 0) by {
        assert(0 * n.x == 0 && 0 * n.y == 0 && 0 * n.z == 0);
    }
    if k == 0 {
        assert(v == o);
        assert(v.cross(edge_c) == o) by {
            assert(0 * edge_c.x == 0 && 0 * edge_c.y == 0 && 0 * edge_c.z == 0);
        }
        assert(edge_b.cross(v) == o) by {
            assert(edge_b.x * 0 == 0 && edge_b.y * 0 == 0 && edge_b.z * 0 == 0);
        }
        assert(n.dot(o) == 0) by {
            assert(n.x * 0 == 0 && n.y * 0 == 0 && n.z * 0 == 0);
        }
    } else if k == 1 {
        assert(v == edge_b);
        assert(n.dot(edge_b) == 0);
    } else {
        assert(v == edge_c);
        assert(n.dot(edge_c) == 0);
    }
    let nums = triangle_numerators(origin, edge_b, edge_c, pt);
    assert(nums.len() == 3);
    assert forall|j: int| 0 <= j < 3 implies nums[j] == if j == k {
        n.norm_squared()
    } else {
        0
    } by {}
}

} // verus!
