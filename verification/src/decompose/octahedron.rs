//! Decomposition for a palette of six colours that form an octahedron.
//!
//! Each of the three pairs of opposite colours can serve as the axis around
//! which the octahedron is cut into wedges; the strategies differ in the
//! axis that they project with.

use vstd::prelude::*;
use crate::barycentric::line::lemma_norm_squared_zero;
use crate::barycentric::mixture::{
    colors_at, lemma_corner_sum_is_mixture, lemma_mixture_6, lemma_mixture_scatter, mixture,
};
use crate::barycentric::octahedron::lemma_octahedron_reproduces;
use crate::barycentric::octahedron::{
    axis_order, axis_vertex_order, matching, matching_valid, octahedron_valid, wedge_det,
    OctahedronProjector,
};
use crate::barycentric::ratio::{
    all_nonnegative, first_best, is_one_hot, lemma_first_best_exists, lemma_first_best_extend,
    lemma_first_best_none, lemma_scatter_keeps, lemma_seq_sum_6, scatter, Barycentric, Candidate,
    Ratio,
};
use crate::barycentric::vector::{
    det3, lemma_mul_within, Point3, Vec3, Vector3, CHANNEL_MAX,
};
use crate::helpers::opt_array_transpose;

verus! {

/// The squared distance of `pt` from the line through `origin` along
/// `direction`, as numerator and denominator.
pub open spec fn line_distance(origin: Vec3, direction: Vec3, pt: Vec3) -> (int, int) {
    (direction.cross(origin.minus(pt)).norm_squared(), direction.norm_squared())
}

/// The line through two distinct points, with what measuring distances from it needs.
#[derive(Clone, Copy, Debug)]
pub struct LineDistanceCalculator {
    /// The first of the two points.
    pub origin: Point3,
    /// From the first point to the second.
    pub direction: Vector3,
    /// The squared length of `direction`; positive.
    pub direction_len_sq: i128,
}

impl LineDistanceCalculator {
    /// The fields are what `new` derives from two distinct colours.
    pub open spec fn wf(&self) -> bool {
        &&& self.origin.wf()
        &&& self.direction@.within(CHANNEL_MAX as int)
        &&& self.direction_len_sq == self.direction@.norm_squared()
        &&& self.direction_len_sq > 0
    }

    /// The line from `vertices[0]` to `vertices[1]`, unless they are one point.
    pub fn new(vertices: [Point3; 2]) -> (r: Option<LineDistanceCalculator>)
        requires
            vertices[0].wf(),
            vertices[1].wf(),
        ensures
            r is None <==> vertices[0] == vertices[1],
            r matches Some(l) ==> {
                &&& l.wf()
                &&& l.origin == vertices[0]
                &&& l.direction@ == vertices[1]@.minus(vertices[0]@)
            },
    {
        let origin = vertices[0];
        let target = vertices[1];
        let direction = target.minus(&origin);
        let direction_len_sq: i128 = direction.dot(
            &direction,
            Ghost(CHANNEL_MAX as int),
            Ghost(CHANNEL_MAX as int),
        );
        proof {
            lemma_norm_squared_zero(direction@);
        }
        if direction_len_sq == 0 {
            None
        } else {
            Some(LineDistanceCalculator { origin, direction, direction_len_sq })
        }
    }

    /// The squared distance of `pt` from the line.
    pub fn distance_squared(&self, pt: &Point3) -> (r: Ratio)
        requires
            self.wf(),
            pt.wf(),
        ensures
            r.num == line_distance(self.origin@, self.direction@, pt@).0,
            r.den == line_distance(self.origin@, self.direction@, pt@).1,
            r.within_limits(),
    {
        let ghost c: int = CHANNEL_MAX as int;
        let to_origin = self.origin.minus(pt);
        let across = self.direction.cross(&to_origin, Ghost(c), Ghost(c));
        assert(across@.within(0x20_0000)) by {
            assert(c * c <= 0x10_0000) by (nonlinear_arith)
                requires
                    0 <= c < 0x400,
            ;
        }
        let num: i128 = across.dot(&across, Ghost(0x20_0000), Ghost(0x20_0000));
        proof {
            lemma_norm_squared_zero(across@);
            lemma_mul_within(self.direction.x as int, self.direction.x as int, c, c);
            lemma_mul_within(self.direction.y as int, self.direction.y as int, c, c);
            lemma_mul_within(self.direction.z as int, self.direction.z as int, c, c);
        }
        Ratio { num, den: self.direction_len_sq }
    }
}

/// The vertex place that each colour has after the first `n` entries of
/// `order` were read: colour `order[i]` stands at place `i`, and a colour
/// that `order` does not name stands at place 0.
pub open spec fn index_inverse(order: Seq<usize>, n: int) -> Seq<usize>
    decreases n,
{
    if n <= 0 {
        seq![0usize, 0usize, 0usize, 0usize, 0usize, 0usize]
    } else {
        index_inverse(order, n - 1).update(order[n - 1] as int, (n - 1) as usize)
    }
}

/// Where `order` names every colour once, `index_inverse` undoes it.
pub proof fn lemma_index_inverse(order: Seq<usize>, n: int)
    requires
        order.len() == 6,
        0 <= n <= 6,
        forall|i: int| 0 <= i < 6 ==> (#[trigger] order[i]) < 6,
        forall|i: int, j: int| 0 <= i < j < 6 ==> (#[trigger] order[i]) != (#[trigger] order[j]),
    ensures
        index_inverse(order, n).len() == 6,
        forall|i: int| 0 <= i < n ==> index_inverse(order, n)[(#[trigger] order[i]) as int] == i,
        forall|c: int| 0 <= c < 6 ==> (#[trigger] index_inverse(order, n)[c]) < 6,
    decreases n,
{
    if n > 0 {
        lemma_index_inverse(order, n - 1);
        assert forall|i: int| 0 <= i < n implies index_inverse(order, n)[(#[trigger] order[
            i
        ]) as int] == i by {
            if i < n - 1 {
                assert(order[i] != order[n - 1]);
            }
        }
    }
}

/// `order` names each of the six palette indices once.
pub open spec fn is_permutation(order: Seq<usize>) -> bool {
    &&& order.len() == 6
    &&& forall|i: int| 0 <= i < 6 ==> (#[trigger] order[i]) < 6
    &&& forall|i: int, j: int| 0 <= i < j < 6 ==> (#[trigger] order[i]) != (#[trigger] order[j])
}

/// A permutation names every index.
pub proof fn lemma_permutation_onto(order: Seq<usize>, r: int)
    requires
        is_permutation(order),
        0 <= r < 6,
    ensures
        exists|k: int| 0 <= k < 6 && #[trigger] order[k] == r,
{
    assert(order[0] < 6 && order[1] < 6 && order[2] < 6 && order[3] < 6 && order[4] < 6 && order[5]
        < 6);
    assert(order[0] != order[1] && order[0] != order[2] && order[0] != order[3] && order[0]
        != order[4] && order[0] != order[5]);
    assert(order[1] != order[2] && order[1] != order[3] && order[1] != order[4] && order[1]
        != order[5]);
    assert(order[2] != order[3] && order[2] != order[4] && order[2] != order[5]);
    assert(order[3] != order[4] && order[3] != order[5]);
    assert(order[4] != order[5]);
    assert(order[0] == r || order[1] == r || order[2] == r || order[3] == r || order[4] == r
        || order[5] == r);
}

/// The inverse of a permutation is a permutation, and undoes it from either side.
pub proof fn lemma_inverse_is_permutation(order: Seq<usize>)
    requires
        is_permutation(order),
    ensures
        is_permutation(index_inverse(order, 6)),
        forall|i: int| 0 <= i < 6 ==> index_inverse(order, 6)[(#[trigger] order[i]) as int] == i,
        forall|c: int|
            0 <= c < 6 ==> order[(#[trigger] index_inverse(order, 6)[c]) as int] == c,
{
    lemma_index_inverse(order, 6);
    let inv = index_inverse(order, 6);
    assert forall|c: int| 0 <= c < 6 implies order[(#[trigger] inv[c]) as int] == c by {
        lemma_permutation_onto(order, c);
        let k = choose|k: int| 0 <= k < 6 && #[trigger] order[k] == c;
        assert(inv[order[k] as int] == k);
    }
    assert forall|i: int, j: int| 0 <= i < j < 6 implies (#[trigger] inv[i]) != (#[trigger] inv[
        j
    ]) by {
        assert(order[inv[i] as int] == i);
        assert(order[inv[j] as int] == j);
    }
}

/// One of the three ways to cut the octahedron: around the axis between two poles.
#[derive(Clone, Copy, Debug)]
pub struct OctahedronDecomposerAxis {
    /// The palette indices of the two poles.
    pub poles: [usize; 2],
    /// Measures the distance of a colour from the axis.
    pub distance_calc: LineDistanceCalculator,
    /// Projects a colour to weights of the vertices, in the order of the projector.
    pub projector: OctahedronProjector,
    /// The vertex place of each palette index.
    pub color_to_vertex_index: [usize; 6],
}

impl OctahedronDecomposerAxis {
    /// The parts are well formed, and every palette index has a vertex
    /// place of its own.
    pub open spec fn wf(&self) -> bool {
        &&& self.distance_calc.wf()
        &&& self.projector.wf()
        &&& is_permutation(self.color_to_vertex_index@)
    }

    /// This is the axis whose vertices are the colours at `order`.
    pub open spec fn built_from(&self, order: Seq<usize>, colors: Seq<Point3>) -> bool {
        &&& self.poles@ == seq![order[0], order[1]]
        &&& self.projector.built_from(colors_at(colors, order))
        &&& self.distance_calc.origin == colors[order[0] as int]
        &&& self.distance_calc.direction@ == colors[order[1] as int]@.minus(
            colors[order[0] as int]@,
        )
        &&& self.color_to_vertex_index@ == index_inverse(order, 6)
    }

    /// The weight numerators of `pt`, in the order of the palette.
    pub open spec fn numerators(&self, pt: Vec3) -> Seq<int> {
        Seq::new(
            6,
            |row: int| self.projector.numerators(pt)[self.color_to_vertex_index[row] as int],
        )
    }

    /// The denominator that goes with `numerators`.
    pub open spec fn denominator(&self, pt: Vec3) -> int {
        self.projector.wedges[self.projector.chosen_wedge(pt)].volume as int
    }

    /// Whether `pt` lies inside the octahedron, as cut around this axis.
    pub open spec fn inside(&self, pt: Vec3) -> bool {
        all_nonnegative(self.projector.numerators(pt))
    }

    /// The axis whose vertices are the colours at `vertex_index_to_color`:
    /// the poles first, then the equator in the order in which it is walked.
    pub fn new(vertex_index_to_color: [usize; 6], colors: &[Point3; 6]) -> (r: Option<
        OctahedronDecomposerAxis,
    >)
        requires
            is_permutation(vertex_index_to_color@),
            forall|i: int| 0 <= i < 6 ==> (#[trigger] colors[i]).wf(),
        ensures
            r is Some <==> octahedron_valid(colors_at(colors@, vertex_index_to_color@)),
            r matches Some(a) ==> a.wf() && a.built_from(vertex_index_to_color@, colors@),
    {
        let poles = [vertex_index_to_color[0], vertex_index_to_color[1]];
        let mut color_to_vertex_index: [usize; 6] = [0, 0, 0, 0, 0, 0];
        let mut vertex_index: usize = 0;
        assert(color_to_vertex_index@ =~= index_inverse(vertex_index_to_color@, 0));
        while vertex_index < 6
            invariant
                vertex_index <= 6,
                forall|i: int| 0 <= i < 6 ==> (#[trigger] vertex_index_to_color[i]) < 6,
                color_to_vertex_index@ == index_inverse(
                    vertex_index_to_color@,
                    vertex_index as int,
                ),
                forall|c: int| 0 <= c < 6 ==> (#[trigger] color_to_vertex_index[c]) < 6,
            decreases 6 - vertex_index,
        {
            let color_index: usize = vertex_index_to_color[vertex_index];
            color_to_vertex_index[color_index] = vertex_index;
            vertex_index += 1;
        }
        proof {
            lemma_inverse_is_permutation(vertex_index_to_color@);
        }
        let pts: [Point3; 6] = [
            colors[vertex_index_to_color[0]],
            colors[vertex_index_to_color[1]],
            colors[vertex_index_to_color[2]],
            colors[vertex_index_to_color[3]],
            colors[vertex_index_to_color[4]],
            colors[vertex_index_to_color[5]],
        ];
        assert(pts@ =~= colors_at(colors@, vertex_index_to_color@));
        let projector = match OctahedronProjector::new(pts) {
            Some(p) => p,
            None => {
                return None;
            },
        };
        let distance_calc = match LineDistanceCalculator::new([pts[0], pts[1]]) {
            Some(d) => d,
            None => {
                proof {
                    // coinciding poles span no wedge
                    let e = pts[1]@.minus(pts[0]@);
                    let f = pts[2]@.minus(pts[0]@);
                    let g = pts[3]@.minus(pts[0]@);
                    assert(e.x == 0 && e.y == 0 && e.z == 0);
                    assert(det3(e, f, g) == 0) by (nonlinear_arith)
                        requires
                            e.x == 0 && e.y == 0 && e.z == 0,
                    ;
                    assert(wedge_det(pts@, 0) == det3(e, f, g));
                    assert(false);
                }
                return None;
            },
        };
        Some(OctahedronDecomposerAxis { poles, projector, distance_calc, color_to_vertex_index })
    }

    /// The weights of `color` in the order of the palette, and whether it
    /// lies inside the octahedron.
    pub fn project(&self, color: &Point3) -> (r: (Barycentric<6>, bool))
        requires
            self.wf(),
            color.wf(),
        ensures
            r.0.nums() == self.numerators(color@),
            r.0.den == self.denominator(color@),
            r.0.den > 0,
            r.0.num[0] + r.0.num[1] + r.0.num[2] + r.0.num[3] + r.0.num[4] + r.0.num[5] == r.0.den,
            r.1 == self.inside(color@),
            r.0.within(24 * (CHANNEL_MAX * CHANNEL_MAX * CHANNEL_MAX)),
    {
        let (barycentric_local, is_inside) = self.projector.project(color);
        let c = &self.color_to_vertex_index;
        assert(c[0] < 6 && c[1] < 6 && c[2] < 6 && c[3] < 6 && c[4] < 6 && c[5] < 6);
        let barycentric_global = Barycentric {
            num: [
                barycentric_local.num[c[0]],
                barycentric_local.num[c[1]],
                barycentric_local.num[c[2]],
                barycentric_local.num[c[3]],
                barycentric_local.num[c[4]],
                barycentric_local.num[c[5]],
            ],
            den: barycentric_local.den,
        };
        proof {
            assert forall|row: int| 0 <= row < 6 implies barycentric_global.nums()[row]
                == self.numerators(color@)[row] by {
                assert(barycentric_local.nums()[c[row] as int] == barycentric_local.num[c[row] as int]);
            }
            assert(barycentric_global.nums() =~= self.numerators(color@));
            // the weights are those of the projector at other places: scattered by the
            // inverse of the permutation, they keep their sum
            let local = barycentric_local.nums();
            let back = index_inverse(c@, 6);
            lemma_inverse_is_permutation(c@);
            lemma_scatter_keeps(local, back, 6);
            assert forall|row: int| 0 <= row < 6 implies barycentric_global.nums()[row] == scatter(
                local,
                back,
                6,
            )[row] by {
                assert(back[c[row] as int] == row);
                assert(scatter(local, back, 6)[back[c[row] as int] as int] == local[c[row] as int]);
            }
            assert(barycentric_global.nums() =~= scatter(local, back, 6));
            lemma_seq_sum_6(local);
            lemma_seq_sum_6(barycentric_global.nums());
            assert(local[0] == barycentric_local.num[0] && local[1] == barycentric_local.num[1]
                && local[2] == barycentric_local.num[2] && local[3] == barycentric_local.num[3]
                && local[4] == barycentric_local.num[4] && local[5] == barycentric_local.num[5]);
        }
        (barycentric_global, is_inside)
    }
}

/// Which axis a colour is decomposed around.
#[derive(Copy, Clone, Debug)]
pub enum OctahedronDecomposerAxisStrategy {
    /// The axis with the given number, modulo three.
    Axis(usize),
    /// The axis that is nearest to the colour.
    Closest,
    /// The axis that is furthest from the colour.
    Furthest,
    /// The mean of the weights around all three axes, for a colour inside
    /// the octahedron.
    Average,
}

/// The numerator of entry `i` of the mean of three weight vectors over
/// their common denominator `3 * d0 * d1 * d2`.
pub open spec fn mean_numerator(n0: int, n1: int, n2: int, d0: int, d1: int, d2: int) -> int {
    n0 * (d1 * d2) + n1 * (d0 * d2) + n2 * (d0 * d1)
}

/// Six numbers times one factor add up to their sum times the factor.
proof fn lemma_sum6_times(a0: int, a1: int, a2: int, a3: int, a4: int, a5: int, k: int)
    by (nonlinear_arith)
    ensures
        a0 * k + a1 * k + a2 * k + a3 * k + a4 * k + a5 * k == (a0 + a1 + a2 + a3 + a4 + a5) * k,
{
}

/// Three weight vectors that each sum to their denominator have a mean
/// that sums to the common denominator.
proof fn lemma_mean_sum(s0: int, s1: int, s2: int, d0: int, d1: int, d2: int)
    requires
        s0 == d0,
        s1 == d1,
        s2 == d2,
    ensures
        s0 * (d1 * d2) + s1 * (d0 * d2) + s2 * (d0 * d1) == 3 * (d0 * (d1 * d2)),
{
    assert(d1 * (d0 * d2) == d0 * (d1 * d2)) by (nonlinear_arith);
    assert(d2 * (d0 * d1) == d0 * (d1 * d2)) by (nonlinear_arith);
}

/// `mean_numerator`, for weights from projections.
fn weighted(n0: i128, n1: i128, n2: i128, d0: i128, d1: i128, d2: i128) -> (r: i128)
    requires
        -0x8_0000_0000 <= n0 <= 0x8_0000_0000,
        -0x8_0000_0000 <= n1 <= 0x8_0000_0000,
        -0x8_0000_0000 <= n2 <= 0x8_0000_0000,
        0 < d0 <= 0x8_0000_0000,
        0 < d1 <= 0x8_0000_0000,
        0 < d2 <= 0x8_0000_0000,
    ensures
        r == mean_numerator(n0 as int, n1 as int, n2 as int, d0 as int, d1 as int, d2 as int),
        -0x1000_0000_0000_0000_0000_0000_0000 <= r <= 0x1000_0000_0000_0000_0000_0000_0000,
{
    proof {
        lemma_mul_within(d1 as int, d2 as int, 0x8_0000_0000, 0x8_0000_0000);
        lemma_mul_within(d0 as int, d2 as int, 0x8_0000_0000, 0x8_0000_0000);
        lemma_mul_within(d0 as int, d1 as int, 0x8_0000_0000, 0x8_0000_0000);
        lemma_mul_within(n0 as int, d1 * d2, 0x8_0000_0000, 0x40_0000_0000_0000_0000);
        lemma_mul_within(n1 as int, d0 * d2, 0x8_0000_0000, 0x40_0000_0000_0000_0000);
        lemma_mul_within(n2 as int, d0 * d1, 0x8_0000_0000, 0x40_0000_0000_0000_0000);
    }
    n0 * (d1 * d2) + n1 * (d0 * d2) + n2 * (d0 * d1)
}

/// The three axes of a palette of six colours that form an octahedron.
#[derive(Clone, Copy, Debug)]
pub struct OctahedronDecomposer {
    /// The three axes, in the order of the pairs of opposite colours.
    pub axis: [OctahedronDecomposerAxis; 3],
}

impl OctahedronDecomposer {
    /// Every axis is well formed.
    pub open spec fn wf(&self) -> bool {
        forall|k: int| 0 <= k < 3 ==> (#[trigger] self.axis[k]).wf()
    }

    /// The axes are those of the first valid way to pair the colours.
    pub open spec fn built_from(&self, colors: Seq<Point3>) -> bool {
        exists|n: int|
            {
                &&& 0 <= n < 15
                &&& matching_valid(colors, #[trigger] matching(n))
                &&& forall|e: int| 0 <= e < n ==> !matching_valid(colors, #[trigger] matching(e))
                &&& forall|k: int|
                    0 <= k < 3 ==> (#[trigger] self.axis[k]).built_from(
                        axis_order(matching(n), k),
                        colors,
                    )
            }
    }

    /// The axes as candidates, each ranked by the squared distance of `pt`
    /// from the line through its poles.
    pub open spec fn distance_candidates(&self, pt: Vec3) -> Seq<Candidate> {
        Seq::new(
            3,
            |k: int|
                {
                    let l = self.axis[k].distance_calc;
                    let d = line_distance(l.origin@, l.direction@, pt);
                    Candidate { eligible: true, num: d.0, den: d.1 }
                },
        )
    }

    /// The weights of `pt` around axis `k`, as numerators and denominator.
    pub open spec fn around(&self, k: int, pt: Vec3) -> (Seq<int>, int) {
        (self.axis[k].numerators(pt), self.axis[k].denominator(pt))
    }

    /// What `decompose` returns.
    pub open spec fn decomposition(
        &self,
        pt: Vec3,
        strategy: OctahedronDecomposerAxisStrategy,
    ) -> (Seq<int>, int) {
        match strategy {
            OctahedronDecomposerAxisStrategy::Axis(k) => self.around(k as int % 3, pt),
            OctahedronDecomposerAxisStrategy::Closest => self.around(
                first_best(self.distance_candidates(pt), false).unwrap(),
                pt,
            ),
            OctahedronDecomposerAxisStrategy::Furthest => self.around(
                first_best(self.distance_candidates(pt), true).unwrap(),
                pt,
            ),
            OctahedronDecomposerAxisStrategy::Average => if self.axis[0].inside(pt) {
                let a = self.around(0, pt);
                let b = self.around(1, pt);
                let c = self.around(2, pt);
                (
                    Seq::new(
                        6,
                        |i: int| mean_numerator(a.0[i], b.0[i], c.0[i], a.1, b.1, c.1),
                    ),
                    3 * (a.1 * (b.1 * c.1)),
                )
            } else {
                self.around(0, pt)
            },
        }
    }

    /// The decomposer of a palette. There is none unless the palette has six
    /// colours that can be paired into the three axes of an octahedron.
    pub fn new(colors: &[Point3]) -> (r: Option<OctahedronDecomposer>)
        requires
            forall|i: int| 0 <= i < colors.len() ==> (#[trigger] colors[i]).wf(),
        ensures
            r is Some <==> colors.len() == 6 && exists|n: int|
                0 <= n < 15 && matching_valid(colors@, #[trigger] matching(n)),
            r matches Some(d) ==> d.wf() && d.built_from(colors@),
    {
        if colors.len() != 6 {
            return None;
        }
        let six: [Point3; 6] = [colors[0], colors[1], colors[2], colors[3], colors[4], colors[5]];
        assert(six@ =~= colors@);
        let opposite_map = match OctahedronProjector::find_opposites(&six) {
            Some(m) => m,
            None => {
                return None;
            },
        };
        let ghost n = choose|n: int|
            {
                &&& 0 <= n < 15
                &&& opposite_map@ == #[trigger] matching(n)
                &&& matching_valid(colors@, opposite_map@)
                &&& forall|e: int| 0 <= e < n ==> !matching_valid(colors@, #[trigger] matching(e))
            };
        proof {
            assert(forall|i: int|
                0 <= i < 3 ==> (#[trigger] opposite_map[i]).0 < 6 && opposite_map[i].1 < 6);
            assert(octahedron_valid(colors_at(colors@, axis_order(opposite_map@, 0))));
            assert(octahedron_valid(colors_at(colors@, axis_order(opposite_map@, 1))));
            assert(octahedron_valid(colors_at(colors@, axis_order(opposite_map@, 2))));
        }
        let order0 = axis_vertex_order(&opposite_map, 0);
        let order1 = axis_vertex_order(&opposite_map, 1);
        let order2 = axis_vertex_order(&opposite_map, 2);
        let a0 = OctahedronDecomposerAxis::new(order0, &six);
        let a1 = OctahedronDecomposerAxis::new(order1, &six);
        let a2 = OctahedronDecomposerAxis::new(order2, &six);
        let axes = [a0, a1, a2];
        match opt_array_transpose(axes) {
            Some(axis) => {
                let d = OctahedronDecomposer { axis };
                proof {
                    assert(Some(axis[0]) == axes[0] && Some(axis[1]) == axes[1] && Some(axis[2])
                        == axes[2]);
                    assert forall|k: int| 0 <= k < 3 implies (#[trigger] d.axis[k]).built_from(
                        axis_order(matching(n), k),
                        colors@,
                    ) && d.axis[k].wf() by {
                        assert(k == 0 || k == 1 || k == 2);
                    }
                    assert(d.built_from(colors@));
                }
                Some(d)
            },
            None => {
                proof {
                    assert(axes[0] is Some && axes[1] is Some && axes[2] is Some);
                    assert(false);
                }
                None
            },
        }
    }

    /// The first axis that has the colour with the given palette index as a pole.
    pub fn get_axis_from_color(&self, color_index: usize) -> (r: Option<usize>)
        ensures
            match r {
                Some(k) => {
                    &&& k < 3
                    &&& (self.axis[k as int].poles[0] == color_index || self.axis[k as int].poles[1]
                        == color_index)
                    &&& forall|e: int|
                        0 <= e < k ==> (#[trigger] self.axis[e]).poles[0] != color_index
                            && self.axis[e].poles[1] != color_index
                },
                None => forall|e: int|
                    0 <= e < 3 ==> (#[trigger] self.axis[e]).poles[0] != color_index
                        && self.axis[e].poles[1] != color_index,
            },
    {
        let mut axis_index: usize = 0;
        while axis_index < 3
            invariant
                axis_index <= 3,
                forall|e: int|
                    0 <= e < axis_index ==> (#[trigger] self.axis[e]).poles[0] != color_index
                        && self.axis[e].poles[1] != color_index,
            decreases 3 - axis_index,
        {
            let axis = &self.axis[axis_index];
            if axis.poles[0] == color_index || axis.poles[1] == color_index {
                return Some(axis_index);
            }
            axis_index += 1;
        }
        None
    }

    /// The axis that is nearest to `color`, or the one that is furthest from
    /// it; the first of them where several are equally far.
    fn pick_axis(&self, color: &Point3, largest: bool) -> (r: usize)
        requires
            self.wf(),
            color.wf(),
        ensures
            r < 3,
            first_best(self.distance_candidates(color@), largest) == Some(r as int),
    {
        let ghost cands = self.distance_candidates(color@);
        let mut best: Option<(usize, Ratio)> = None;
        let mut k: usize = 0;
        proof {
            lemma_first_best_none(cands.take(0), largest);
        }
        while k < 3
            invariant
                k <= 3,
                self.wf(),
                color.wf(),
                cands == self.distance_candidates(color@),
                match best {
                    Some((b, ratio)) => {
                        &&& first_best(cands.take(k as int), largest) == Some(b as int)
                        &&& b < k
                        &&& ratio.num == cands[b as int].num
                        &&& ratio.den == cands[b as int].den
                        &&& ratio.within_limits()
                    },
                    None => {
                        &&& first_best(cands.take(k as int), largest) is None
                        &&& k == 0
                    },
                },
            decreases 3 - k,
        {
            let ghost prefix = cands.take(k as int);
            let ghost before: Option<int> = match best {
                Some((b, _)) => Some(b as int),
                None => None,
            };
            assert(self.axis[k as int].wf());
            let distance = self.axis[k].distance_calc.distance_squared(color);
            proof {
                assert forall|j: int| 0 <= j < prefix.len() implies (#[trigger] prefix[j]).den > 0 by {
                    assert(self.axis[j].wf());
                }
                assert(cands[k as int].den > 0);
                assert(prefix.push(cands[k as int]) =~= cands.take(k + 1));
                if before is Some {
                    assert(prefix[before.unwrap()] == cands[before.unwrap()]);
                }
                lemma_first_best_extend(prefix, cands[k as int], before, largest);
            }
            let better = match &best {
                None => true,
                Some((_, held)) => if largest {
                    held.less_than(&distance)
                } else {
                    distance.less_than(held)
                },
            };
            if better {
                best = Some((k, distance));
            }
            k += 1;
        }
        assert(cands.take(3) =~= cands);
        match best {
            Some((b, _)) => b,
            None => 0,
        }
    }

    /// The weights of `color` over the palette.
    pub fn decompose(&self, color: &Point3, strategy: OctahedronDecomposerAxisStrategy) -> (r:
        Barycentric<6>)
        requires
            self.wf(),
            color.wf(),
        ensures
            r.nums() == self.decomposition(color@, strategy).0,
            r.den == self.decomposition(color@, strategy).1,
            r.den > 0,
            r.num[0] + r.num[1] + r.num[2] + r.num[3] + r.num[4] + r.num[5] == r.den,
            r.within(0x1000_0000_0000_0000_0000_0000_0000),
    {
        match strategy {
            OctahedronDecomposerAxisStrategy::Axis(axis) => {
                let axis = &self.axis[axis % 3];
                let (barycentric, _) = axis.project(color);
                barycentric
            },
            OctahedronDecomposerAxisStrategy::Average => {
                let (first, is_inside) = self.axis[0].project(color);
                if is_inside {
                    let (second, _) = self.axis[1].project(color);
                    let (third, _) = self.axis[2].project(color);
                    let d0: i128 = first.den;
                    let d1: i128 = second.den;
                    let d2: i128 = third.den;
                    proof {
                        lemma_mul_within(d1 as int, d2 as int, 0x8_0000_0000, 0x8_0000_0000);
                        lemma_mul_within(
                            d0 as int,
                            d1 * d2,
                            0x8_0000_0000,
                            0x40_0000_0000_0000_0000,
                        );
                        assert(d1 * d2 > 0) by (nonlinear_arith)
                            requires
                                d1 > 0,
                                d2 > 0,
                        ;
                        assert(d0 * (d1 * d2) > 0) by (nonlinear_arith)
                            requires
                                d0 > 0,
                                d1 * d2 > 0,
                        ;
                    }
                    let r = Barycentric {
                        num: [
                            weighted(first.num[0], second.num[0], third.num[0], d0, d1, d2),
                            weighted(first.num[1], second.num[1], third.num[1], d0, d1, d2),
                            weighted(first.num[2], second.num[2], third.num[2], d0, d1, d2),
                            weighted(first.num[3], second.num[3], third.num[3], d0, d1, d2),
                            weighted(first.num[4], second.num[4], third.num[4], d0, d1, d2),
                            weighted(first.num[5], second.num[5], third.num[5], d0, d1, d2),
                        ],
                        den: 3 * (d0 * (d1 * d2)),
                    };
                    proof {
                        let want = self.decomposition(color@, strategy).0;
                        assert forall|i: int| 0 <= i < 6 implies r.nums()[i] == want[i] by {
                            assert(first.nums()[i] == first.num[i]);
                            assert(second.nums()[i] == second.num[i]);
                            assert(third.nums()[i] == third.num[i]);
                        }
                        assert(r.nums() =~= want);
                        lemma_mean_sum(
                            first.num[0] as int + first.num[1] + first.num[2] + first.num[3]
                                + first.num[4] + first.num[5],
                            second.num[0] as int + second.num[1] + second.num[2] + second.num[3]
                                + second.num[4] + second.num[5],
                            third.num[0] as int + third.num[1] + third.num[2] + third.num[3]
                                + third.num[4] + third.num[5],
                            d0 as int,
                            d1 as int,
                            d2 as int,
                        );
                        lemma_sum6_times(
                            first.num[0] as int,
                            first.num[1] as int,
                            first.num[2] as int,
                            first.num[3] as int,
                            first.num[4] as int,
                            first.num[5] as int,
                            d1 * d2,
                        );
                        lemma_sum6_times(
                            second.num[0] as int,
                            second.num[1] as int,
                            second.num[2] as int,
                            second.num[3] as int,
                            second.num[4] as int,
                            second.num[5] as int,
                            d0 * d2,
                        );
                        lemma_sum6_times(
                            third.num[0] as int,
                            third.num[1] as int,
                            third.num[2] as int,
                            third.num[3] as int,
                            third.num[4] as int,
                            third.num[5] as int,
                            d0 * d1,
                        );
                    }
                    r
                } else {
                    first
                }
            },
            OctahedronDecomposerAxisStrategy::Closest => {
                let k = self.pick_axis(color, false);
                self.axis[k].project(color).0
            },
            OctahedronDecomposerAxisStrategy::Furthest => {
                let k = self.pick_axis(color, true);
                self.axis[k].project(color).0
            },
        }
    }
}

/// The vertices around every axis of every pairing are a permutation of the palette.
pub proof fn lemma_axis_order_is_permutation(n: int, k: int)
    requires
        0 <= n < 15,
        0 <= k < 3,
    ensures
        is_permutation(axis_order(matching(n), k)),
{
    let j = n / 3 + 1;
    let rest = crate::barycentric::octahedron::rest_after(j);
    assert(rest[0] == if 1 < j { 1int } else { 2int });
    assert(rest[1] == if 2 < j { 2int } else { 3int });
    assert(rest[2] == if 3 < j { 3int } else { 4int });
    assert(rest[3] == if 4 < j { 4int } else { 5int });
    let m = matching(n);
    assert(m.len() == 3);
    let o = axis_order(m, k);
    assert(o.len() == 6);
    assert(is_permutation(o));
}

/// At a palette colour, around a valid axis, that colour has the whole weight.
pub proof fn lemma_axis_at_palette_colour(
    a: OctahedronDecomposerAxis,
    order: Seq<usize>,
    colors: Seq<Point3>,
    i: int,
)
    requires
        a.wf(),
        a.built_from(order, colors),
        is_permutation(order),
        colors.len() == 6,
        octahedron_valid(colors_at(colors, order)),
        0 <= i < 6,
    ensures
        is_one_hot(a.numerators(colors[i]@), a.denominator(colors[i]@), i),
        a.denominator(colors[i]@) > 0,
        a.inside(colors[i]@),
{
    let pt = colors[i]@;
    let v = colors_at(colors, order);
    lemma_permutation_onto(order, i);
    let k = choose|k: int| 0 <= k < 6 && #[trigger] order[k] == i;
    lemma_index_inverse(order, 6);
    let c2v = a.color_to_vertex_index@;
    assert(c2v[i] == k);
    assert(v[k] == colors[i]);
    crate::barycentric::octahedron::lemma_octahedron_at_vertex(a.projector, v, k);
    let local = a.projector.numerators(pt);
    let den = a.denominator(pt);
    let nums = a.numerators(pt);
    assert forall|row: int| 0 <= row < 6 implies nums[row] == if row == i {
        den
    } else {
        0
    } by {
        if row != i {
            lemma_permutation_onto(order, row);
            let kr = choose|kr: int| 0 <= kr < 6 && #[trigger] order[kr] == row;
            assert(c2v[row] == kr);
            assert(kr != k);
        }
    }
    assert forall|q: int| 0 <= q < local.len() implies local[q] >= 0 by {}
}

/// For every strategy, the decomposition of a palette colour gives that
/// colour the whole weight.
pub proof fn lemma_decompose_at_palette_colour(
    d: OctahedronDecomposer,
    colors: Seq<Point3>,
    i: int,
    strategy: OctahedronDecomposerAxisStrategy,
)
    requires
        d.wf(),
        d.built_from(colors),
        colors.len() == 6,
        0 <= i < 6,
    ensures
        is_one_hot(
            d.decomposition(colors[i]@, strategy).0,
            d.decomposition(colors[i]@, strategy).1,
            i,
        ),
{
    let pt = colors[i]@;
    let n = choose|n: int|
        {
            &&& 0 <= n < 15
            &&& matching_valid(colors, #[trigger] matching(n))
            &&& forall|e: int| 0 <= e < n ==> !matching_valid(colors, #[trigger] matching(e))
            &&& forall|k: int|
                0 <= k < 3 ==> (#[trigger] d.axis[k]).built_from(axis_order(matching(n), k), colors)
        };
    assert forall|k: int| 0 <= k < 3 implies is_one_hot(
        d.around(k, pt).0,
        d.around(k, pt).1,
        i,
    ) && d.around(k, pt).1 > 0 && (#[trigger] d.axis[k]).inside(pt) by {
        lemma_axis_order_is_permutation(n, k);
        assert(octahedron_valid(colors_at(colors, axis_order(matching(n), k))));
        lemma_axis_at_palette_colour(d.axis[k], axis_order(matching(n), k), colors, i);
    }
    assert(d.axis[0].inside(pt) && d.axis[1].inside(pt) && d.axis[2].inside(pt));
    match strategy {
        OctahedronDecomposerAxisStrategy::Axis(k) => {
            assert(d.axis[k as int % 3].inside(pt));
        },
        OctahedronDecomposerAxisStrategy::Closest => {
            let cands = d.distance_candidates(pt);
            assert forall|j: int| 0 <= j < cands.len() implies (#[trigger] cands[j]).den > 0 by {
                assert(d.axis[j].wf());
            }
            lemma_first_best_exists(cands, false);
            assert(cands[0].eligible);
            let k = first_best(cands, false).unwrap();
            assert(d.axis[k].inside(pt));
        },
        OctahedronDecomposerAxisStrategy::Furthest => {
            let cands = d.distance_candidates(pt);
            assert forall|j: int| 0 <= j < cands.len() implies (#[trigger] cands[j]).den > 0 by {
                assert(d.axis[j].wf());
            }
            lemma_first_best_exists(cands, true);
            assert(cands[0].eligible);
            let k = first_best(cands, true).unwrap();
            assert(d.axis[k].inside(pt));
        },
        OctahedronDecomposerAxisStrategy::Average => {
            let a = d.around(0, pt);
            let b = d.around(1, pt);
            let c = d.around(2, pt);
            let nums = d.decomposition(pt, strategy).0;
            let den = d.decomposition(pt, strategy).1;
            assert(b.1 * (a.1 * c.1) == a.1 * (b.1 * c.1)) by (nonlinear_arith);
            assert(c.1 * (a.1 * b.1) == a.1 * (b.1 * c.1)) by (nonlinear_arith);
            assert forall|q: int| 0 <= q < 6 implies nums[q] == if q == i {
                den
            } else {
                0
            } by {
                assert(nums[q] == mean_numerator(a.0[q], b.0[q], c.0[q], a.1, b.1, c.1));
                if q != i {
                    assert(0 * (b.1 * c.1) == 0 && 0 * (a.1 * c.1) == 0 && 0 * (a.1 * b.1) == 0);
                }
            }
        },
    }
}

/// Around a valid axis, the weights mix the palette back to the colour.
pub proof fn lemma_axis_reproduces(
    a: OctahedronDecomposerAxis,
    order: Seq<usize>,
    colors: Seq<Point3>,
    pt: Vec3,
)
    requires
        a.wf(),
        a.built_from(order, colors),
        is_permutation(order),
        colors.len() == 6,
    ensures
        mixture(a.numerators(pt), colors) == pt.scale(a.denominator(pt)),
{
    let local = a.projector.numerators(pt);
    let nums = a.numerators(pt);
    let c2v = a.color_to_vertex_index@;
    lemma_inverse_is_permutation(order);
    lemma_scatter_keeps(local, order, 6);
    assert forall|row: int| 0 <= row < 6 implies nums[row] == scatter(local, order, 6)[row] by {
        assert(order[c2v[row] as int] == row);
        assert(scatter(local, order, 6)[order[c2v[row] as int] as int] == local[c2v[row] as int]);
    }
    assert(nums =~= scatter(local, order, 6));
    lemma_mixture_scatter(local, order, colors, 6);
    assert(order.take(6) =~= order);
    lemma_corner_sum_is_mixture(local, order, colors, 6);
    assert(local.take(6) =~= local);
    lemma_octahedron_reproduces(a.projector, colors_at(colors, order), pt);
}

proof fn lemma_weighted_term(c: int, a: int, b: int, g: int, x: int, y: int, z: int)
    ensures
        c * (a * x + b * y + g * z) == (c * a) * x + (c * b) * y + (c * g) * z,
{
    assert(c * (a * x + b * y + g * z) == c * (a * x) + c * (b * y) + c * (g * z))
        by (nonlinear_arith);
    assert(c * (a * x) == (c * a) * x) by (nonlinear_arith);
    assert(c * (b * y) == (c * b) * y) by (nonlinear_arith);
    assert(c * (g * z) == (c * g) * z) by (nonlinear_arith);
}

/// One component of the mixture of a mean of three weight vectors.
proof fn lemma_mean_component(
    c: Seq<int>,
    a: Seq<int>,
    b: Seq<int>,
    g: Seq<int>,
    d0: int,
    d1: int,
    d2: int,
    p: int,
)
    requires
        c.len() == 6 && a.len() == 6 && b.len() == 6 && g.len() == 6,
        c[0] * a[0] + c[1] * a[1] + c[2] * a[2] + c[3] * a[3] + c[4] * a[4] + c[5] * a[5] == p * d0,
        c[0] * b[0] + c[1] * b[1] + c[2] * b[2] + c[3] * b[3] + c[4] * b[4] + c[5] * b[5] == p * d1,
        c[0] * g[0] + c[1] * g[1] + c[2] * g[2] + c[3] * g[3] + c[4] * g[4] + c[5] * g[5] == p * d2,
    ensures
        c[0] * mean_numerator(a[0], b[0], g[0], d0, d1, d2) + c[1] * mean_numerator(
            a[1],
            b[1],
            g[1],
            d0,
            d1,
            d2,
        ) + c[2] * mean_numerator(a[2], b[2], g[2], d0, d1, d2) + c[3] * mean_numerator(
            a[3],
            b[3],
            g[3],
            d0,
            d1,
            d2,
        ) + c[4] * mean_numerator(a[4], b[4], g[4], d0, d1, d2) + c[5] * mean_numerator(
            a[5],
            b[5],
            g[5],
            d0,
            d1,
            d2,
        ) == p * (3 * (d0 * (d1 * d2))),
{
    let x = d1 * d2;
    let y = d0 * d2;
    let z = d0 * d1;
    lemma_weighted_term(c[0], a[0], b[0], g[0], x, y, z);
    lemma_weighted_term(c[1], a[1], b[1], g[1], x, y, z);
    lemma_weighted_term(c[2], a[2], b[2], g[2], x, y, z);
    lemma_weighted_term(c[3], a[3], b[3], g[3], x, y, z);
    lemma_weighted_term(c[4], a[4], b[4], g[4], x, y, z);
    lemma_weighted_term(c[5], a[5], b[5], g[5], x, y, z);
    lemma_sum6_times(
        c[0] * a[0],
        c[1] * a[1],
        c[2] * a[2],
        c[3] * a[3],
        c[4] * a[4],
        c[5] * a[5],
        x,
    );
    lemma_sum6_times(
        c[0] * b[0],
        c[1] * b[1],
        c[2] * b[2],
        c[3] * b[3],
        c[4] * b[4],
        c[5] * b[5],
        y,
    );
    lemma_sum6_times(
        c[0] * g[0],
        c[1] * g[1],
        c[2] * g[2],
        c[3] * g[3],
        c[4] * g[4],
        c[5] * g[5],
        z,
    );
    assert((p * d0) * x == p * (d0 * (d1 * d2))) by (nonlinear_arith)
        requires
            x == d1 * d2,
    ;
    assert((p * d1) * y == p * (d0 * (d1 * d2))) by (nonlinear_arith)
        requires
            y == d0 * d2,
    ;
    assert((p * d2) * z == p * (d0 * (d1 * d2))) by (nonlinear_arith)
        requires
            z == d0 * d1,
    ;
    assert(p * (3 * (d0 * (d1 * d2))) == 3 * (p * (d0 * (d1 * d2)))) by (nonlinear_arith);
}

/// For every strategy, inside the octahedron and outside, the weights mix
/// the palette back to the colour: the palette colours, each times its
/// weight numerator, add up to the colour times the denominator.
pub proof fn lemma_decompose_reproduces(
    d: OctahedronDecomposer,
    colors: Seq<Point3>,
    pt: Vec3,
    strategy: OctahedronDecomposerAxisStrategy,
)
    requires
        d.wf(),
        d.built_from(colors),
        colors.len() == 6,
    ensures
        mixture(d.decomposition(pt, strategy).0, colors) == pt.scale(
            d.decomposition(pt, strategy).1,
        ),
{
    let n = choose|n: int|
        {
            &&& 0 <= n < 15
            &&& matching_valid(colors, #[trigger] matching(n))
            &&& forall|e: int| 0 <= e < n ==> !matching_valid(colors, #[trigger] matching(e))
            &&& forall|k: int|
                0 <= k < 3 ==> (#[trigger] d.axis[k]).built_from(axis_order(matching(n), k), colors)
        };
    assert forall|k: int| 0 <= k < 3 implies mixture(d.around(k, pt).0, colors) == pt.scale(
        d.around(k, pt).1,
    ) && (#[trigger] d.axis[k]).wf() by {
        lemma_axis_order_is_permutation(n, k);
        lemma_axis_reproduces(d.axis[k], axis_order(matching(n), k), colors, pt);
    }
    assert(d.axis[0].wf() && d.axis[1].wf() && d.axis[2].wf());
    match strategy {
        OctahedronDecomposerAxisStrategy::Axis(k) => {
            assert(d.axis[k as int % 3].wf());
        },
        OctahedronDecomposerAxisStrategy::Closest => {
            let cands = d.distance_candidates(pt);
            assert forall|j: int| 0 <= j < cands.len() implies (#[trigger] cands[j]).den > 0 by {
                assert(d.axis[j].wf());
            }
            lemma_first_best_exists(cands, false);
            assert(cands[0].eligible);
            assert(d.axis[first_best(cands, false).unwrap()].wf());
        },
        OctahedronDecomposerAxisStrategy::Furthest => {
            let cands = d.distance_candidates(pt);
            assert forall|j: int| 0 <= j < cands.len() implies (#[trigger] cands[j]).den > 0 by {
                assert(d.axis[j].wf());
            }
            lemma_first_best_exists(cands, true);
            assert(cands[0].eligible);
            assert(d.axis[first_best(cands, true).unwrap()].wf());
        },
        OctahedronDecomposerAxisStrategy::Average => {
            if d.axis[0].inside(pt) {
                let a = d.around(0, pt);
                let b = d.around(1, pt);
                let g = d.around(2, pt);
                let nums = d.decomposition(pt, strategy).0;
                lemma_mixture_6(a.0, colors);
                lemma_mixture_6(b.0, colors);
                lemma_mixture_6(g.0, colors);
                lemma_mixture_6(nums, colors);
                assert forall|q: int| 0 <= q < 6 implies nums[q] == mean_numerator(
                    a.0[q],
                    b.0[q],
                    g.0[q],
                    a.1,
                    b.1,
                    g.1,
                ) by {}
                let xs = Seq::new(6, |i: int| colors[i]@.x);
                let ys = Seq::new(6, |i: int| colors[i]@.y);
                let zs = Seq::new(6, |i: int| colors[i]@.z);
                lemma_mean_component(xs, a.0, b.0, g.0, a.1, b.1, g.1, pt.x);
                lemma_mean_component(ys, a.0, b.0, g.0, a.1, b.1, g.1, pt.y);
                lemma_mean_component(zs, a.0, b.0, g.0, a.1, b.1, g.1, pt.z);
            }
        },
    }
}

} // verus!
