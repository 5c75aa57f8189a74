//! Barycentric coordinates relative to an octahedron: two poles and four
//! points around the axis between them.

use vstd::prelude::*;
use crate::barycentric::mixture::{colors_at, lemma_mixture_6, mixture};
use crate::barycentric::ratio::{all_nonnegative, is_one_hot, Barycentric};
use crate::barycentric::tetrahedron::{
    lemma_tetrahedron_at_corner, lemma_tetrahedron_reproduces, orientation, tetrahedron_corner,
    tetrahedron_numerators, TetrahedronProjector,
};
use crate::barycentric::vector::{det3, lemma_det3_swap, Point3, Vec3, CHANNEL_MAX};

verus! {

/// The volume that the axis and the two equator points of wedge `j` span, with its sign.
pub open spec fn wedge_det(v: Seq<Point3>, j: int) -> int {
    det3(
        v[1]@.minus(v[0]@),
        v[2 + j]@.minus(v[0]@),
        v[2 + (j + 1) % 4]@.minus(v[0]@),
    )
}

/// The six points are an octahedron around the axis from the first to the
/// second: walking the other four in their order, every wedge between two
/// neighbours and the axis has a volume, and all of these have one sign.
pub open spec fn octahedron_valid(v: Seq<Point3>) -> bool {
    &&& v.len() == 6
    &&& wedge_det(v, 0) != 0
    &&& forall|j: int| 0 <= j < 4 ==> (#[trigger] wedge_det(v, j) < 0) == (wedge_det(v, 0) < 0)
    &&& forall|j: int| 0 <= j < 4 ==> #[trigger] wedge_det(v, j) != 0
}

/// The weights of a wedge as weights of the six vertices: those of the poles
/// first, those of the two equator points of wedge `j` at their places, zero
/// for the other two.
pub open spec fn place(local: Seq<int>, j: int) -> Seq<int> {
    Seq::new(
        6,
        |i: int|
            if i < 2 {
                local[i]
            } else if i - 2 == j {
                local[2]
            } else if i - 2 == (j + 1) % 4 {
                local[3]
            } else {
                0
            },
    )
}

/// Both equator weights of a wedge are non-negative: the point lies in the
/// sector of that wedge around the axis.
pub open spec fn in_sector(local: Seq<int>) -> bool {
    local[2] >= 0 && local[3] >= 0
}

/// The indices from 1 to 5 without `j`, in rising order.
pub open spec fn rest_after(j: int) -> Seq<usize> {
    Seq::new(
        4,
        |k: int|
            if k + 1 < j {
                (k + 1) as usize
            } else {
                (k + 2) as usize
            },
    )
}

/// The ways to split six indices into three pairs, in lexicographic order:
/// number `n` pairs 0 with `n / 3 + 1`, the smallest index that is left with
/// one of the other three, and the last two with each other.
pub open spec fn matching(n: int) -> Seq<(usize, usize)> {
    let j = n / 3 + 1;
    let rest = rest_after(j);
    let t = n % 3 + 1;
    let last = if t == 1 {
        (rest[2], rest[3])
    } else if t == 2 {
        (rest[1], rest[3])
    } else {
        (rest[1], rest[2])
    };
    seq![(0usize, j as usize), (rest[0], rest[t]), last]
}

/// The vertices of the octahedron around axis `k` of a matching, as palette
/// indices: the two poles of pair `k`, then the other two pairs interleaved,
/// so that the equator is walked around the axis.
pub open spec fn axis_order(m: Seq<(usize, usize)>, k: int) -> Seq<usize> {
    seq![
        m[k % 3].0,
        m[k % 3].1,
        m[(k + 1) % 3].0,
        m[(k + 2) % 3].0,
        m[(k + 1) % 3].1,
        m[(k + 2) % 3].1,
    ]
}

/// Every one of the three pairs is the axis of an octahedron whose equator
/// is made of the other two.
pub open spec fn matching_valid(colors: Seq<Point3>, m: Seq<(usize, usize)>) -> bool {
    forall|k: int| 0 <= k < 3 ==> octahedron_valid(#[trigger] colors_at(colors, axis_order(m, k)))
}

/// The palette indices of the vertices around axis `k` of the pairs `m`.
pub fn axis_vertex_order(m: &[(usize, usize); 3], k: usize) -> (r: [usize; 6])
    requires
        k < 3,
    ensures
        r@ == axis_order(m@, k as int),
{
    let a: usize = k % 3;
    let b: usize = (k + 1) % 3;
    let c: usize = (k + 2) % 3;
    let r = [m[a].0, m[a].1, m[b].0, m[c].0, m[b].1, m[c].1];
    assert(r@ =~= axis_order(m@, k as int));
    r
}

/// An octahedron as four wedges around its axis.
#[derive(Clone, Copy, Debug)]
pub struct OctahedronProjector {
    /// Wedge `j` has the two poles and the equator points `j` and `j + 1` as corners.
    pub wedges: [TetrahedronProjector; 4],
}

impl OctahedronProjector {
    /// Every wedge is well formed.
    pub open spec fn wf(&self) -> bool {
        forall|j: int| 0 <= j < 4 ==> (#[trigger] self.wedges[j]).wf()
    }

    /// The wedges are those of the octahedron with the vertices `v`.
    pub open spec fn built_from(&self, v: Seq<Point3>) -> bool {
        forall|j: int|
            0 <= j < 4 ==> {
                &&& (#[trigger] self.wedges[j]).origin == v[0]
                &&& self.wedges[j].edge_b@ == v[1]@.minus(v[0]@)
                &&& self.wedges[j].edge_c@ == v[2 + j]@.minus(v[0]@)
                &&& self.wedges[j].edge_d@ == v[2 + (j + 1) % 4]@.minus(v[0]@)
            }
    }

    /// The weight numerators of `pt` in wedge `j`.
    pub open spec fn wedge_numerators(&self, j: int, pt: Vec3) -> Seq<int> {
        let t = self.wedges[j];
        tetrahedron_numerators(t.origin@, t.edge_b@, t.edge_c@, t.edge_d@, pt)
    }

    /// The wedge that `pt` is projected in: the first in whose sector it
    /// lies, the last where it lies in none.
    pub open spec fn chosen_wedge(&self, pt: Vec3) -> int {
        if in_sector(self.wedge_numerators(0, pt)) {
            0
        } else if in_sector(self.wedge_numerators(1, pt)) {
            1
        } else if in_sector(self.wedge_numerators(2, pt)) {
            2
        } else {
            3
        }
    }

    /// The weight numerators of `pt` relative to the six vertices.
    pub open spec fn numerators(&self, pt: Vec3) -> Seq<int> {
        place(self.wedge_numerators(self.chosen_wedge(pt), pt), self.chosen_wedge(pt))
    }

    /// The octahedron with the poles `vertices[0]` and `vertices[1]` and the
    /// equator `vertices[2..6]`, in the order in which the equator is walked.
    /// There is none where a wedge has no volume or the wedges do not all
    /// turn the same way.
    pub fn new(vertices: [Point3; 6]) -> (r: Option<OctahedronProjector>)
        requires
            forall|i: int| 0 <= i < 6 ==> (#[trigger] vertices[i]).wf(),
        ensures
            r is Some <==> octahedron_valid(vertices@),
            r matches Some(p) ==> p.wf() && p.built_from(vertices@),
    {
        let w0 = TetrahedronProjector::new([vertices[0], vertices[1], vertices[2], vertices[3]]);
        let w1 = TetrahedronProjector::new([vertices[0], vertices[1], vertices[3], vertices[4]]);
        let w2 = TetrahedronProjector::new([vertices[0], vertices[1], vertices[4], vertices[5]]);
        let w3 = TetrahedronProjector::new([vertices[0], vertices[1], vertices[5], vertices[2]]);
        proof {
            assert(wedge_det(vertices@, 0) == det3(
                vertices[1]@.minus(vertices[0]@),
                vertices[2]@.minus(vertices[0]@),
                vertices[3]@.minus(vertices[0]@),
            ));
            assert(wedge_det(vertices@, 1) == det3(
                vertices[1]@.minus(vertices[0]@),
                vertices[3]@.minus(vertices[0]@),
                vertices[4]@.minus(vertices[0]@),
            ));
            assert(wedge_det(vertices@, 2) == det3(
                vertices[1]@.minus(vertices[0]@),
                vertices[4]@.minus(vertices[0]@),
                vertices[5]@.minus(vertices[0]@),
            ));
            assert(wedge_det(vertices@, 3) == det3(
                vertices[1]@.minus(vertices[0]@),
                vertices[5]@.minus(vertices[0]@),
                vertices[2]@.minus(vertices[0]@),
            ));
        }
        match (w0, w1, w2, w3) {
            (Some(w0), Some(w1), Some(w2), Some(w3)) => {
                if w1.flipped == w0.flipped && w2.flipped == w0.flipped && w3.flipped
                    == w0.flipped {
                    let p = OctahedronProjector { wedges: [w0, w1, w2, w3] };
                    assert(octahedron_valid(vertices@));
                    Some(p)
                } else {
                    assert(!octahedron_valid(vertices@)) by {
                        if w1.flipped != w0.flipped {
                            assert((wedge_det(vertices@, 1) < 0) != (wedge_det(vertices@, 0) < 0));
                        } else if w2.flipped != w0.flipped {
                            assert((wedge_det(vertices@, 2) < 0) != (wedge_det(vertices@, 0) < 0));
                        } else {
                            assert((wedge_det(vertices@, 3) < 0) != (wedge_det(vertices@, 0) < 0));
                        }
                    }
                    None
                }
            },
            _ => {
                assert(wedge_det(vertices@, 0) == 0 || wedge_det(vertices@, 1) == 0 || wedge_det(
                    vertices@,
                    2,
                ) == 0 || wedge_det(vertices@, 3) == 0);
                None
            },
        }
    }

    /// The three pairs of opposite vertices of six points: the first way, in
    /// lexicographic order, to split them into three pairs such that each pair
    /// is the axis of an octahedron around which the other two pairs alternate.
    pub fn find_opposites(colors: &[Point3; 6]) -> (r: Option<[(usize, usize); 3]>)
        requires
            forall|i: int| 0 <= i < 6 ==> (#[trigger] colors[i]).wf(),
        ensures
            match r {
                Some(m) => exists|n: int|
                    {
                        &&& 0 <= n < 15
                        &&& m@ == #[trigger] matching(n)
                        &&& matching_valid(colors@, m@)
                        &&& forall|e: int| 0 <= e < n ==> !matching_valid(colors@, #[trigger] matching(e))
                    },
                None => forall|n: int| 0 <= n < 15 ==> !matching_valid(colors@, #[trigger] matching(n)),
            },
    {
        let mut n: usize = 0;
        while n < 15
            invariant
                n <= 15,
                forall|i: int| 0 <= i < 6 ==> (#[trigger] colors[i]).wf(),
                forall|e: int| 0 <= e < n ==> !matching_valid(colors@, #[trigger] matching(e)),
            decreases 15 - n,
        {
            let j: usize = n / 3 + 1;
            let t: usize = n % 3 + 1;
            let rest: [usize; 4] = [
                if 1 < j { 1 } else { 2 },
                if 2 < j { 2 } else { 3 },
                if 3 < j { 3 } else { 4 },
                if 4 < j { 4 } else { 5 },
            ];
            assert(rest@ =~= rest_after(j as int));
            let last: (usize, usize) = if t == 1 {
                (rest[2], rest[3])
            } else if t == 2 {
                (rest[1], rest[3])
            } else {
                (rest[1], rest[2])
            };
            let m: [(usize, usize); 3] = [(0, j), (rest[0], rest[t]), last];
            assert(m@ =~= matching(n as int));
            let mut k: usize = 0;
            let mut valid = true;
            while k < 3
                invariant
                    k <= 3,
                    forall|i: int| 0 <= i < 6 ==> (#[trigger] colors[i]).wf(),
                    m@ == matching(n as int),
                    n < 15,
                    valid ==> forall|e: int|
                        0 <= e < k ==> octahedron_valid(
                            #[trigger] colors_at(colors@, axis_order(m@, e)),
                        ),
                    !valid ==> !matching_valid(colors@, m@),
                decreases 3 - k,
            {
                let order = axis_vertex_order(&m, k);
                assert(forall|i: int| 0 <= i < 6 ==> (#[trigger] order[i]) < 6) by {
                    assert(forall|i: int| 0 <= i < 3 ==> (#[trigger] m[i]).0 < 6 && m[i].1 < 6);
                }
                let pts: [Point3; 6] = [
                    colors[order[0]],
                    colors[order[1]],
                    colors[order[2]],
                    colors[order[3]],
                    colors[order[4]],
                    colors[order[5]],
                ];
                assert(pts@ =~= colors_at(colors@, axis_order(m@, k as int)));
                if OctahedronProjector::new(pts).is_none() {
                    valid = false;
                }
                k += 1;
            }
            if valid {
                return Some(m);
            }
            n += 1;
        }
        None
    }

    /// The barycentric coordinates of `pt` relative to the six vertices, and
    /// whether `pt` lies inside the octahedron: whether none of them is negative.
    pub fn project(&self, pt: &Point3) -> (r: (Barycentric<6>, bool))
        requires
            self.wf(),
            pt.wf(),
        ensures
            r.0.nums() == self.numerators(pt@),
            r.0.den == self.wedges[self.chosen_wedge(pt@)].volume,
            r.0.den > 0,
            r.0.num[0] + r.0.num[1] + r.0.num[2] + r.0.num[3] + r.0.num[4] + r.0.num[5] == r.0.den,
            r.1 == all_nonnegative(r.0.nums()),
            r.0.within(24 * (CHANNEL_MAX * CHANNEL_MAX * CHANNEL_MAX)),
    {
        let mut j: usize = 0;
        assert(self.wedges[0].wf());
        let mut local = self.wedges[0].project(pt);
        while j < 3 && (local.num[2] < 0 || local.num[3] < 0)
            invariant
                j <= 3,
                self.wf(),
                pt.wf(),
                local.nums() == self.wedge_numerators(j as int, pt@),
                local.den == self.wedges[j as int].volume,
                local.den > 0,
                local.num[0] + local.num[1] + local.num[2] + local.num[3] == local.den,
                local.within(24 * (CHANNEL_MAX * CHANNEL_MAX * CHANNEL_MAX)),
                forall|k: int| 0 <= k < j ==> !in_sector(#[trigger] self.wedge_numerators(k, pt@)),
            decreases 3 - j,
        {
            assert(local.nums()[2] == local.num[2] && local.nums()[3] == local.num[3]);
            j += 1;
            assert(self.wedges[j as int].wf());
            local = self.wedges[j].project(pt);
        }
        proof {
            assert(local.nums()[0] == local.num[0] && local.nums()[1] == local.num[1]);
            assert(local.nums()[2] == local.num[2] && local.nums()[3] == local.num[3]);
            assert(j == self.chosen_wedge(pt@)) by {
                if j > 0 {
                    assert(!in_sector(self.wedge_numerators(0, pt@)));
                }
                if j > 1 {
                    assert(!in_sector(self.wedge_numerators(1, pt@)));
                }
                if j > 2 {
                    assert(!in_sector(self.wedge_numerators(2, pt@)));
                }
            }
        }
        let inside = !local.has_negative();
        let num: [i128; 6] = if j == 0 {
            [local.num[0], local.num[1], local.num[2], local.num[3], 0, 0]
        } else if j == 1 {
            [local.num[0], local.num[1], 0, local.num[2], local.num[3], 0]
        } else if j == 2 {
            [local.num[0], local.num[1], 0, 0, local.num[2], local.num[3]]
        } else {
            [local.num[0], local.num[1], local.num[3], 0, 0, local.num[2]]
        };
        let r = Barycentric { num, den: local.den };
        proof {
            assert(r.nums() =~= place(local.nums(), j as int));
            assert(all_nonnegative(r.nums()) == all_nonnegative(local.nums())) by {
                if all_nonnegative(local.nums()) {
                    assert forall|i: int| 0 <= i < 6 implies r.nums()[i] >= 0 by {
                        assert(local.nums()[0] >= 0 && local.nums()[1] >= 0 && local.nums()[2] >= 0
                            && local.nums()[3] >= 0);
                    }
                }
                if all_nonnegative(r.nums()) {
                    assert(r.nums()[0] >= 0 && r.nums()[1] >= 0 && r.nums()[2] >= 0 && r.nums()[3]
                        >= 0 && r.nums()[4] >= 0 && r.nums()[5] >= 0);
                    assert forall|i: int| 0 <= i < 4 implies local.nums()[i] >= 0 by {}
                }
            }
        }
        (r, inside)
    }
}

proof fn lemma_opposite_sign(det_j: int, det_k: int)
    requires
        det_j != 0,
        det_k != 0,
        (det_k < 0) == (det_j < 0),
    ensures
        (if det_j < 0 {
            -1int
        } else {
            1int
        }) * (-det_k) < 0,
{
    if det_j < 0 {
        assert((-1int) * (-det_k) == det_k);
    } else {
        assert(1int * (-det_k) == -det_k);
    }
}

/// At a vertex of a valid octahedron, that vertex has the whole weight.
pub proof fn lemma_octahedron_at_vertex(p: OctahedronProjector, v: Seq<Point3>, i: int)
    requires
        octahedron_valid(v),
        p.wf(),
        p.built_from(v),
        0 <= i < 6,
    ensures
        is_one_hot(p.numerators(v[i]@), p.wedges[p.chosen_wedge(v[i]@)].volume as int, i),
        p.wedges[p.chosen_wedge(v[i]@)].volume > 0,
{
    let pt = v[i]@;
    let o = v[0]@;
    let b = v[1]@.minus(o);
    let e0 = v[2]@.minus(o);
    let e1 = v[3]@.minus(o);
    let e2 = v[4]@.minus(o);
    let e3 = v[5]@.minus(o);
    assert(p.wedges[0].wf() && p.wedges[1].wf() && p.wedges[2].wf() && p.wedges[3].wf());
    assert(p.wedges[0].origin@ == o && p.wedges[0].edge_b@ == b && p.wedges[0].edge_c@ == e0
        && p.wedges[0].edge_d@ == e1);
    assert(p.wedges[1].origin@ == o && p.wedges[1].edge_b@ == b && p.wedges[1].edge_c@ == e1
        && p.wedges[1].edge_d@ == e2);
    assert(p.wedges[2].origin@ == o && p.wedges[2].edge_b@ == b && p.wedges[2].edge_c@ == e2
        && p.wedges[2].edge_d@ == e3);
    assert(wedge_det(v, 0) == det3(b, e0, e1));
    assert(wedge_det(v, 1) == det3(b, e1, e2));
    assert(wedge_det(v, 2) == det3(b, e2, e3));
    assert(wedge_det(v, 3) == det3(b, e3, e0));
    assert((wedge_det(v, 1) < 0) == (wedge_det(v, 0) < 0) && wedge_det(v, 1) != 0);
    assert((wedge_det(v, 2) < 0) == (wedge_det(v, 0) < 0) && wedge_det(v, 2) != 0);
    assert((wedge_det(v, 3) < 0) == (wedge_det(v, 0) < 0) && wedge_det(v, 3) != 0);
    let n0 = p.wedge_numerators(0, pt);
    let n1 = p.wedge_numerators(1, pt);
    let n2 = p.wedge_numerators(2, pt);
    if i < 4 {
        // a corner of the first wedge
        lemma_tetrahedron_at_corner(o, b, e0, e1, i);
        assert(pt == tetrahedron_corner(o, b, e0, e1, i));
        assert(in_sector(n0));
        assert(p.chosen_wedge(pt) == 0);
        assert(p.numerators(pt) =~= place(n0, 0));
    } else if i == 4 {
        // beyond the first wedge, a corner of the second
        assert(pt.minus(o) == e2);
        lemma_det3_swap(b, e1, e2);
        lemma_opposite_sign(wedge_det(v, 0), wedge_det(v, 1));
        assert(n0[2] == orientation(b, e0, e1) * det3(b, e2, e1));
        assert(n0[2] < 0);
        lemma_tetrahedron_at_corner(o, b, e1, e2, 3);
        assert(pt == tetrahedron_corner(o, b, e1, e2, 3));
        assert(in_sector(n1));
        assert(p.chosen_wedge(pt) == 1);
        assert(p.numerators(pt) =~= place(n1, 1));
    } else {
        // beyond the first two wedges, a corner of the third
        assert(pt.minus(o) == e3);
        lemma_det3_swap(b, e3, e0);
        lemma_opposite_sign(wedge_det(v, 0), wedge_det(v, 3));
        assert(n0[3] == orientation(b, e0, e1) * det3(b, e0, e3));
        assert(n0[3] < 0);
        lemma_det3_swap(b, e2, e3);
        lemma_opposite_sign(wedge_det(v, 1), wedge_det(v, 2));
        assert(n1[2] == orientation(b, e1, e2) * det3(b, e3, e2));
        assert(n1[2] < 0);
        lemma_tetrahedron_at_corner(o, b, e2, e3, 3);
        assert(pt == tetrahedron_corner(o, b, e2, e3, 3));
        assert(in_sector(n2));
        assert(p.chosen_wedge(pt) == 2);
        assert(p.numerators(pt) =~= place(n2, 2));
    }
}

/// The weights mix the vertices back to the point, inside the octahedron
/// and outside: the vertices, each times its weight numerator, add up to
/// the point times the denominator.
pub proof fn lemma_octahedron_reproduces(p: OctahedronProjector, v: Seq<Point3>, pt: Vec3)
    requires
        v.len() == 6,
        p.wf(),
        p.built_from(v),
    ensures
        mixture(p.numerators(pt), v) == pt.scale(p.wedges[p.chosen_wedge(pt)].volume as int),
{
    let j = p.chosen_wedge(pt);
    let t = p.wedges[j];
    assert(t.wf());
    let o = v[0]@;
    assert(t.origin@ == o);
    assert(t.edge_b@ == v[1]@.minus(o));
    assert(t.edge_c@ == v[2 + j]@.minus(o));
    assert(t.edge_d@ == v[2 + (j + 1) % 4]@.minus(o));
    let local = p.wedge_numerators(j, pt);
    let nums = p.numerators(pt);
    lemma_tetrahedron_reproduces(o, t.edge_b@, t.edge_c@, t.edge_d@, pt);
    lemma_mixture_6(nums, v);
    assert(o.plus(t.edge_b@) == v[1]@);
    assert(o.plus(t.edge_c@) == v[2 + j]@);
    assert(o.plus(t.edge_d@) == v[2 + (j + 1) % 4]@);
    assert(forall|c: Vec3| #[trigger] c.scale(0) == (Vec3 { x: 0, y: 0, z: 0 })) by {
        assert forall|c: Vec3| #[trigger] c.scale(0) == (Vec3 { x: 0, y: 0, z: 0 }) by {
            assert(c.x * 0 == 0 && c.y * 0 == 0 && c.z * 0 == 0);
        }
    }
    assert(nums[0] == local[0] && nums[1] == local[1]);
    if j == 0 {
        assert(nums[2] == local[2] && nums[3] == local[3] && nums[4] == 0 && nums[5] == 0);
    } else if j == 1 {
        assert(nums[2] == 0 && nums[3] == local[2] && nums[4] == local[3] && nums[5] == 0);
    } else if j == 2 {
        assert(nums[2] == 0 && nums[3] == 0 && nums[4] == local[2] && nums[5] == local[3]);
    } else {
        assert(nums[2] == local[3] && nums[3] == 0 && nums[4] == 0 && nums[5] == local[2]);
    }
}

} // verus!
