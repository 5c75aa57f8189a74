//! Barycentric coordinates relative to a tetrahedron.

use vstd::prelude::*;
use crate::barycentric::ratio::{is_one_hot, Barycentric};
use crate::barycentric::vector::{
    det3, lemma_det3_cyclic, lemma_det3_degenerate, lemma_dot_scale, lemma_mul_within, Point3,
    Vec3, Vector3, CHANNEL_MAX,
};

verus! {

/// The sign that makes the volume spanned by the three edges positive.
pub open spec fn orientation(edge_b: Vec3, edge_c: Vec3, edge_d: Vec3) -> int {
    if det3(edge_b, edge_c, edge_d) < 0 {
        -1
    } else {
        1
    }
}

/// Six times the volume of the tetrahedron spanned by the three edges.
pub open spec fn tetrahedron_volume(edge_b: Vec3, edge_c: Vec3, edge_d: Vec3) -> int {
    orientation(edge_b, edge_c, edge_d) * det3(edge_b, edge_c, edge_d)
}

/// The weight numerators of `pt` relative to the tetrahedron with the corner
/// `origin` and the edges `edge_b`, `edge_c` and `edge_d` from it, by
/// Cramer's rule. The denominator is `tetrahedron_volume`.
pub open spec fn tetrahedron_numerators(
    origin: Vec3,
    edge_b: Vec3,
    edge_c: Vec3,
    edge_d: Vec3,
    pt: Vec3,
) -> Seq<int> {
    let v = pt.minus(origin);
    let s = orientation(edge_b, edge_c, edge_d);
    let wb = s * det3(v, edge_c, edge_d);
    let wc = s * det3(edge_b, v, edge_d);
    let wd = s * det3(edge_b, edge_c, v);
    seq![tetrahedron_volume(edge_b, edge_c, edge_d) - wb - wc - wd, wb, wc, wd]
}

/// A tetrahedron of non-zero volume, with what Cramer's rule needs.
#[derive(Clone, Copy, Debug)]
pub struct TetrahedronProjector {
    /// The first corner.
    pub origin: Point3,
    /// From the first corner to the second.
    pub edge_b: Vector3,
    /// From the first corner to the third.
    pub edge_c: Vector3,
    /// From the first corner to the fourth.
    pub edge_d: Vector3,
    /// `edge_c x edge_d`, times the orientation.
    pub grad_b: Vector3,
    /// `edge_d x edge_b`, times the orientation.
    pub grad_c: Vector3,
    /// `edge_b x edge_c`, times the orientation.
    pub grad_d: Vector3,
    /// Six times the volume; positive.
    pub volume: i128,
    /// Whether the three edges, in their order, span a negative volume.
    pub flipped: bool,
}

impl TetrahedronProjector {
    /// The fields are what `new` derives from four colours that do not
    /// lie in one plane.
    pub open spec fn wf(&self) -> bool {
        let s = orientation(self.edge_b@, self.edge_c@, self.edge_d@);
        &&& self.origin.wf()
        &&& self.edge_b@.within(CHANNEL_MAX as int)
        &&& self.edge_c@.within(CHANNEL_MAX as int)
        &&& self.edge_d@.within(CHANNEL_MAX as int)
        &&& self.grad_b@ == self.edge_c@.cross(self.edge_d@).scale(s)
        &&& self.grad_c@ == self.edge_d@.cross(self.edge_b@).scale(s)
        &&& self.grad_d@ == self.edge_b@.cross(self.edge_c@).scale(s)
        &&& self.grad_b@.within(2 * (CHANNEL_MAX * CHANNEL_MAX))
        &&& self.grad_c@.within(2 * (CHANNEL_MAX * CHANNEL_MAX))
        &&& self.grad_d@.within(2 * (CHANNEL_MAX * CHANNEL_MAX))
        &&& self.volume == tetrahedron_volume(self.edge_b@, self.edge_c@, self.edge_d@)
        &&& 0 < self.volume <= 6 * (CHANNEL_MAX * CHANNEL_MAX * CHANNEL_MAX)
        &&& self.flipped == (det3(self.edge_b@, self.edge_c@, self.edge_d@) < 0)
    }

    /// The tetrahedron with the given corners, unless they lie in one plane.
    pub fn new(vertices: [Point3; 4]) -> (r: Option<TetrahedronProjector>)
        requires
            vertices[0].wf(),
            vertices[1].wf(),
            vertices[2].wf(),
            vertices[3].wf(),
        ensures
            r is None <==> det3(
                vertices[1]@.minus(vertices[0]@),
                vertices[2]@.minus(vertices[0]@),
                vertices[3]@.minus(vertices[0]@),
            ) == 0,
            r matches Some(t) ==> {
                &&& t.wf()
                &&& t.origin == vertices[0]
                &&& t.edge_b@ == vertices[1]@.minus(vertices[0]@)
                &&& t.edge_c@ == vertices[2]@.minus(vertices[0]@)
                &&& t.edge_d@ == vertices[3]@.minus(vertices[0]@)
            },
    {
        let ghost c: int = CHANNEL_MAX as int;
        let ghost m: int = 2 * (c * c);
        let a = vertices[0];
        let edge_b = vertices[1].minus(&a);
        let edge_c = vertices[2].minus(&a);
        let edge_d = vertices[3].minus(&a);
        let cd = edge_c.cross(&edge_d, Ghost(c), Ghost(c));
        let db = edge_d.cross(&edge_b, Ghost(c), Ghost(c));
        let bc = edge_b.cross(&edge_c, Ghost(c), Ghost(c));
        let det: i128 = edge_b.dot(&cd, Ghost(c), Ghost(m));
        if det == 0 {
            return None;
        }
        if det < 0 {
            let grad_b = cd.negated(Ghost(m));
            let grad_c = db.negated(Ghost(m));
            let grad_d = bc.negated(Ghost(m));
            Some(
                TetrahedronProjector {
                    origin: a,
                    edge_b,
                    edge_c,
                    edge_d,
                    grad_b,
                    grad_c,
                    grad_d,
                    volume: -det,
                    flipped: true,
                },
            )
        } else {
            proof {
                assert(cd@.scale(1) == cd@);
                assert(db@.scale(1) == db@);
                assert(bc@.scale(1) == bc@);
            }
            Some(
                TetrahedronProjector {
                    origin: a,
                    edge_b,
                    edge_c,
                    edge_d,
                    grad_b: cd,
                    grad_c: db,
                    grad_d: bc,
                    volume: det,
                    flipped: false,
                },
            )
        }
    }

    /// The barycentric coordinates of `pt` relative to the four corners.
    pub fn project(&self, pt: &Point3) -> (r: Barycentric<4>)
        requires
            self.wf(),
            pt.wf(),
        ensures
            r.nums() == tetrahedron_numerators(
                self.origin@,
                self.edge_b@,
                self.edge_c@,
                self.edge_d@,
                pt@,
            ),
            r.den == self.volume,
            r.den > 0,
            r.num[0] + r.num[1] + r.num[2] + r.num[3] == r.den,
            r.within(24 * (CHANNEL_MAX * CHANNEL_MAX * CHANNEL_MAX)),
    {
        let ghost c: int = CHANNEL_MAX as int;
        let ghost m: int = 2 * (c * c);
        let v = pt.minus(&self.origin);
        let wb: i128 = v.dot(&self.grad_b, Ghost(c), Ghost(m));
        let wc: i128 = v.dot(&self.grad_c, Ghost(c), Ghost(m));
        let wd: i128 = v.dot(&self.grad_d, Ghost(c), Ghost(m));
        proof {
            let s = orientation(self.edge_b@, self.edge_c@, self.edge_d@);
            lemma_dot_scale(v@, self.edge_c@.cross(self.edge_d@), s);
            lemma_dot_scale(v@, self.edge_d@.cross(self.edge_b@), s);
            lemma_dot_scale(v@, self.edge_b@.cross(self.edge_c@), s);
            // det3(b, v, d) = det3(v, d, b) and det3(b, c, v) = det3(v, b, c)
            lemma_det3_cyclic(self.edge_b@, v@, self.edge_d@);
            lemma_det3_cyclic(self.edge_b@, self.edge_c@, v@);
        }
        let r = Barycentric { num: [self.volume - wb - wc - wd, wb, wc, wd], den: self.volume };
        assert(r.nums() =~= seq![self.volume - wb - wc - wd, wb as int, wc as int, wd as int]);
        r
    }
}

/// Corner `k` of the tetrahedron: the origin, or the end of one of the edges.
pub open spec fn tetrahedron_corner(origin: Vec3, edge_b: Vec3, edge_c: Vec3, edge_d: Vec3, k: int) -> Vec3 {
    if k == 0 {
        origin
    } else if k == 1 {
        origin.plus(edge_b)
    } else if k == 2 {
        origin.plus(edge_c)
    } else {
        origin.plus(edge_d)
    }
}

/// At a corner of the tetrahedron, that corner has the whole weight.
pub proof fn lemma_tetrahedron_at_corner(
    origin: Vec3,
    edge_b: Vec3,
    edge_c: Vec3,
    edge_d: Vec3,
    k: int,
)
    requires
        0 <= k < 4,
    ensures
        is_one_hot(
            tetrahedron_numerators(
                origin,
                edge_b,
                edge_c,
                edge_d,
                tetrahedron_corner(origin, edge_b, edge_c, edge_d, k),
            ),
            tetrahedron_volume(edge_b, edge_c, edge_d),
            k,
        ),
{
    let pt = tetrahedron_corner(origin, edge_b, edge_c, edge_d, k);
    let v = pt.minus(origin);
    let s = orientation(edge_b, edge_c, edge_d);
    let o = Vec3 { x: 0, y: 0, z: 0 };
    lemma_det3_degenerate(edge_c, edge_d);
    lemma_det3_degenerate(edge_b, edge_d);
    lemma_det3_degenerate(edge_b, edge_c);
    lemma_det3_degenerate(edge_d, edge_b);
    lemma_det3_degenerate(edge_c, edge_b);
    lemma_det3_degenerate(edge_d, edge_c);
    if k == 0 {
        assert(v == o);
    } else if k == 1 {
        assert(v == edge_b);
    } else if k == 2 {
        assert(v == edge_c);
    } else {
        assert(v == edge_d);
    }
    assert(s * 0 == 0);
    let nums = tetrahedron_numerators(origin, edge_b, edge_c, edge_d, pt);
    assert(nums.len() == 4);
    assert forall|j: int| 0 <= j < 4 implies nums[j] == if j == k {
        tetrahedron_volume(edge_b, edge_c, edge_d)
    } else {
        0
    } by {}
}

proof fn lemma_weighted_component(
    o: int,
    b: int,
    c: int,
    d: int,
    v: int,
    n0: int,
    n1: int,
    n2: int,
    n3: int,
    vol: int,
)
    requires
        n0 + n1 + n2 + n3 == vol,
        b * n1 + c * n2 + d * n3 == v * vol,
    ensures
        o * n0 + (o + b) * n1 + (o + c) * n2 + (o + d) * n3 == (o + v) * vol,
{
    assert((o + b) * n1 == o * n1 + b * n1) by (nonlinear_arith);
    assert((o + c) * n2 == o * n2 + c * n2) by (nonlinear_arith);
    assert((o + d) * n3 == o * n3 + d * n3) by (nonlinear_arith);
    assert(o * n0 + o * n1 + o * n2 + o * n3 == o * (n0 + n1 + n2 + n3)) by (nonlinear_arith);
    assert((o + v) * vol == o * vol + v * vol) by (nonlinear_arith);
}

proof fn lemma_signed_component(s: int, b: int, c: int, d: int, p: int, q: int, r: int, v: int, t: int)
    requires
        s == 1 || s == -1,
        b * p + c * q + d * r == v * t,
    ensures
        b * (s * p) + c * (s * q) + d * (s * r) == v * (s * t),
{
    if s == 1 {
        assert(s * p == p && s * q == q && s * r == r && s * t == t);
    } else {
        assert(s * p == -p && s * q == -q && s * r == -r && s * t == -t);
        assert(b * (-p) == -(b * p)) by (nonlinear_arith);
        assert(c * (-q) == -(c * q)) by (nonlinear_arith);
        assert(d * (-r) == -(d * r)) by (nonlinear_arith);
        assert(v * (-t) == -(v * t)) by (nonlinear_arith);
    }
}

/// The weights reproduce the point: the corners, each times its weight
/// numerator, add up to the point times the denominator.
pub proof fn lemma_tetrahedron_reproduces(
    origin: Vec3,
    edge_b: Vec3,
    edge_c: Vec3,
    edge_d: Vec3,
    pt: Vec3,
)
    ensures
        ({
            let n = tetrahedron_numerators(origin, edge_b, edge_c, edge_d, pt);
            origin.scale(n[0]).plus(origin.plus(edge_b).scale(n[1])).plus(
                origin.plus(edge_c).scale(n[2]),
            ).plus(origin.plus(edge_d).scale(n[3])) == pt.scale(
                tetrahedron_volume(edge_b, edge_c, edge_d),
            )
        }),
{
    let v = pt.minus(origin);
    let s = orientation(edge_b, edge_c, edge_d);
    let p = det3(v, edge_c, edge_d);
    let q = det3(edge_b, v, edge_d);
    let r = det3(edge_b, edge_c, v);
    let t = det3(edge_b, edge_c, edge_d);
    let n = tetrahedron_numerators(origin, edge_b, edge_c, edge_d, pt);
    let vol = tetrahedron_volume(edge_b, edge_c, edge_d);
    crate::barycentric::cramer::lemma_cramer(edge_b, edge_c, edge_d, v);
    let sum = edge_b.scale(p).plus(edge_c.scale(q)).plus(edge_d.scale(r));
    assert(sum == v.scale(t));
    assert(sum.x == v.scale(t).x && sum.y == v.scale(t).y && sum.z == v.scale(t).z);
    lemma_signed_component(s, edge_b.x, edge_c.x, edge_d.x, p, q, r, v.x, t);
    lemma_signed_component(s, edge_b.y, edge_c.y, edge_d.y, p, q, r, v.y, t);
    lemma_signed_component(s, edge_b.z, edge_c.z, edge_d.z, p, q, r, v.z, t);
    lemma_weighted_component(
        origin.x,
        edge_b.x,
        edge_c.x,
        edge_d.x,
        v.x,
        n[0],
        n[1],
        n[2],
        n[3],
        vol,
    );
    lemma_weighted_component(
        origin.y,
        edge_b.y,
        edge_c.y,
        edge_d.y,
        v.y,
        n[0],
        n[1],
        n[2],
        n[3],
        vol,
    );
    lemma_weighted_component(
        origin.z,
        edge_b.z,
        edge_c.z,
        edge_d.z,
        v.z,
        n[0],
        n[1],
        n[2],
        n[3],
        vol,
    );
}

/// Where one corner has the whole weight, the point is that corner.
pub proof fn lemma_tetrahedron_one_hot_is_corner(
    origin: Vec3,
    edge_b: Vec3,
    edge_c: Vec3,
    edge_d: Vec3,
    pt: Vec3,
    k: int,
)
    requires
        tetrahedron_volume(edge_b, edge_c, edge_d) > 0,
        is_one_hot(
            tetrahedron_numerators(origin, edge_b, edge_c, edge_d, pt),
            tetrahedron_volume(edge_b, edge_c, edge_d),
            k,
        ),
    ensures
        pt == tetrahedron_corner(origin, edge_b, edge_c, edge_d, k),
{
    let n = tetrahedron_numerators(origin, edge_b, edge_c, edge_d, pt);
    let vol = tetrahedron_volume(edge_b, edge_c, edge_d);
    let corner = tetrahedron_corner(origin, edge_b, edge_c, edge_d, k);
    lemma_tetrahedron_reproduces(origin, edge_b, edge_c, edge_d, pt);
    assert(n[0] == if k == 0 { vol } else { 0 });
    assert(n[1] == if k == 1 { vol } else { 0 });
    assert(n[2] == if k == 2 { vol } else { 0 });
    assert(n[3] == if k == 3 { vol } else { 0 });
    let total = origin.scale(n[0]).plus(origin.plus(edge_b).scale(n[1])).plus(
        origin.plus(edge_c).scale(n[2]),
    ).plus(origin.plus(edge_d).scale(n[3]));
    assert(total == pt.scale(vol));
    assert(total.x == pt.x * vol && total.y == pt.y * vol && total.z == pt.z * vol);
    assert(total.x == corner.x * vol && total.y == corner.y * vol && total.z == corner.z * vol) by {
        assert(forall|a: int| #[trigger] (a * 0) == 0);
    }
    assert(pt.x == corner.x) by (nonlinear_arith)
        requires
            pt.x * vol == corner.x * vol,
            vol > 0,
    ;
    assert(pt.y == corner.y) by (nonlinear_arith)
        requires
            pt.y * vol == corner.y * vol,
            vol > 0,
    ;
    assert(pt.z == corner.z) by (nonlinear_arith)
        requires
            pt.z * vol == corner.z * vol,
            vol > 0,
    ;
}

} // verus!
