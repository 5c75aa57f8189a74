//! Decomposition by exhaustive search over every tetrahedron, triangle and
//! edge that the palette spans.

use vstd::prelude::*;
use itertools::Itertools;
use crate::barycentric::line::{
    clipped_line_denominator, clipped_line_numerators, LineProjector,
};
use crate::barycentric::ratio::{
    all_nonnegative, first_best, lemma_first_best_extend, lemma_first_best_none,
    lemma_scatter_bounded, lemma_scatter_keeps, lemma_seq_max, lemma_seq_sum_2, lemma_seq_sum_3,
    lemma_seq_sum_4, ranks_before, scatter, seq_max, seq_sum, Barycentric, Candidate, Ratio,
    Weights,
};
use crate::barycentric::mixture::{corner_sum, lemma_mixture_scatter, mixture, zero3};
use crate::barycentric::ratio::{is_first_best, is_one_hot, lemma_first_best_exists};
use crate::barycentric::tetrahedron::{
    lemma_tetrahedron_at_corner, lemma_tetrahedron_one_hot_is_corner,
    lemma_tetrahedron_reproduces, tetrahedron_corner,
    tetrahedron_numerators, tetrahedron_volume, TetrahedronProjector,
};
use crate::barycentric::triangle::{triangle_height, triangle_numerators, TriangleProjector};
use crate::barycentric::vector::{det3, lemma_mul_within, Point3, Vec3, CHANNEL_MAX};

verus! {

/// Which covering tetrahedron to take where several hold the point.
#[derive(Debug, Clone, Copy)]
pub enum DecomposerBruteforceStrategy {
    /// The one whose largest weight is smallest: spread the mixture.
    FavorMix,
    /// The one whose largest weight is largest: let one colour dominate.
    FavorDominant,
}

/// `c` holds `k` indices below `n`, in strictly increasing order.
pub open spec fn is_combination(c: Seq<usize>, n: int, k: int) -> bool {
    &&& c.len() == k
    &&& forall|i: int| 0 <= i < k ==> (#[trigger] c[i]) < n
    &&& forall|i: int, j: int| 0 <= i < j < k ==> (#[trigger] c[i]) < (#[trigger] c[j])
}

/// `a` comes before `b` in lexicographic order.
pub open spec fn lex_before(a: Seq<usize>, b: Seq<usize>) -> bool {
    exists|p: int|
        0 <= p < a.len() && p < b.len() && (#[trigger] a[p]) < b[p] && forall|q: int|
            0 <= q < p ==> (#[trigger] a[q]) == b[q]
}

/// Every combination of `k` of the indices below `n`, each once, in
/// lexicographic order: what `Itertools::combinations` yields on the range
/// `0..n`, collected. Nothing of this is proved here.
#[verifier::external_body]
fn index_combinations(n: usize, k: usize) -> (r: Vec<Vec<usize>>)
    ensures
        forall|i: int| 0 <= i < r.len() ==> is_combination((#[trigger] r[i])@, n as int, k as int),
        forall|i: int, j: int|
            0 <= i < j < r.len() ==> lex_before((#[trigger] r[i])@, (#[trigger] r[j])@),
        forall|c: Seq<usize>| #[trigger]
            is_combination(c, n as int, k as int) ==> exists|i: int|
                0 <= i < r.len() && (#[trigger] r[i])@ == c,
{
    (0..n).combinations(k).collect()
}

/// The four colours at `c` lie in one plane.
pub open spec fn tetra_degenerate(colors: Seq<Point3>, c: Seq<usize>) -> bool {
    det3(
        colors[c[1] as int]@.minus(colors[c[0] as int]@),
        colors[c[2] as int]@.minus(colors[c[0] as int]@),
        colors[c[3] as int]@.minus(colors[c[0] as int]@),
    ) == 0
}

/// The three colours at `c` lie on one line.
pub open spec fn face_degenerate(colors: Seq<Point3>, c: Seq<usize>) -> bool {
    colors[c[1] as int]@.minus(colors[c[0] as int]@).cross(
        colors[c[2] as int]@.minus(colors[c[0] as int]@),
    ) == (Vec3 { x: 0, y: 0, z: 0 })
}

/// The two colours at `c` are one point.
pub open spec fn edge_degenerate(colors: Seq<Point3>, c: Seq<usize>) -> bool {
    colors[c[0] as int] == colors[c[1] as int]
}

/// `t` is the tetrahedron of the colours at `idx`.
pub open spec fn tetra_entry_ok(t: TetrahedronProjector, idx: Seq<usize>, colors: Seq<Point3>) -> bool {
    &&& is_combination(idx, colors.len() as int, 4)
    &&& t.wf()
    &&& !tetra_degenerate(colors, idx)
    &&& t.origin == colors[idx[0] as int]
    &&& t.edge_b@ == colors[idx[1] as int]@.minus(colors[idx[0] as int]@)
    &&& t.edge_c@ == colors[idx[2] as int]@.minus(colors[idx[0] as int]@)
    &&& t.edge_d@ == colors[idx[3] as int]@.minus(colors[idx[0] as int]@)
}

/// `t` is the triangle of the colours at `idx`.
pub open spec fn face_entry_ok(t: TriangleProjector, idx: Seq<usize>, colors: Seq<Point3>) -> bool {
    &&& is_combination(idx, colors.len() as int, 3)
    &&& t.wf()
    &&& !face_degenerate(colors, idx)
    &&& t.origin == colors[idx[0] as int]
    &&& t.edge_b@ == colors[idx[1] as int]@.minus(colors[idx[0] as int]@)
    &&& t.edge_c@ == colors[idx[2] as int]@.minus(colors[idx[0] as int]@)
}

/// `l` is the line from the first to the second of the colours at `idx`.
pub open spec fn edge_entry_ok(l: LineProjector, idx: Seq<usize>, colors: Seq<Point3>) -> bool {
    &&& is_combination(idx, colors.len() as int, 2)
    &&& l.wf()
    &&& !edge_degenerate(colors, idx)
    &&& l.length_squared > 0
    &&& l.origin == colors[idx[0] as int]
    &&& l.direction@ == colors[idx[1] as int]@.minus(colors[idx[0] as int]@)
}

/// Every colour is within range.
pub open spec fn colors_wf(colors: Seq<Point3>) -> bool {
    forall|i: int| 0 <= i < colors.len() ==> (#[trigger] colors[i]).wf()
}

/// The squared distance from `pt` to the point of the segment that is
/// nearest to it, as numerator and denominator.
pub open spec fn segment_distance(origin: Vec3, direction: Vec3, pt: Vec3) -> (int, int) {
    let w = clipped_line_numerators(origin, direction, pt);
    let den = clipped_line_denominator(origin, direction, pt);
    (
        origin.scale(den).plus(direction.scale(w[1])).minus(pt.scale(den)).norm_squared(),
        den * den,
    )
}

/// The projectors of a palette, each with the palette indices of its corners.
pub struct DecomposerBruteforce {
    /// The number of colours of the palette.
    pub num_colors: usize,
    /// The tetrahedra that have a volume.
    pub tetras: Vec<(TetrahedronProjector, [usize; 4])>,
    /// The triangles that have an area.
    pub faces: Vec<(TriangleProjector, [usize; 3])>,
    /// The edges that have a length.
    pub edges: Vec<(LineProjector, [usize; 2])>,
}

/// The tetrahedra of the palette that have a volume, in lexicographic order.
fn build_tetras(colors: &[Point3]) -> (out: Vec<(TetrahedronProjector, [usize; 4])>)
    requires
        colors_wf(colors@),
    ensures
        forall|i: int|
            0 <= i < out.len() ==> tetra_entry_ok((#[trigger] out[i]).0, out[i].1@, colors@),
        forall|i: int, j: int|
            0 <= i < j < out.len() ==> lex_before((#[trigger] out[i]).1@, (#[trigger] out[j]).1@),
        forall|c: Seq<usize>| #[trigger]
            is_combination(c, colors@.len() as int, 4) && !tetra_degenerate(colors@, c)
                ==> exists|i: int| 0 <= i < out.len() && (#[trigger] out[i]).1@ == c,
{
    let combos = index_combinations(colors.len(), 4);
    let mut out: Vec<(TetrahedronProjector, [usize; 4])> = Vec::new();
    let ghost mut src: Seq<int> = Seq::empty();
    let mut i: usize = 0;
    while i < combos.len()
        invariant
            i <= combos.len(),
            colors_wf(colors@),
            forall|j: int|
                0 <= j < combos.len() ==> is_combination(
                    (#[trigger] combos[j])@,
                    colors@.len() as int,
                    4,
                ),
            out.len() == src.len(),
            forall|t: int|
                0 <= t < out.len() ==> 0 <= #[trigger] src[t] < i && out[t].1@ == combos[src[t]]@
                    && tetra_entry_ok(out[t].0, out[t].1@, colors@),
            forall|s: int, t: int| 0 <= s < t < out.len() ==> #[trigger] src[s] < #[trigger] src[t],
            forall|j: int|
                0 <= j < i && !tetra_degenerate(colors@, (#[trigger] combos[j])@) ==> exists|t: int|
                    0 <= t < out.len() && #[trigger] src[t] == j,
        decreases combos.len() - i,
    {
        let c = &combos[i];
        assert(is_combination(combos[i as int]@, colors@.len() as int, 4));
        assert(c@[0] < colors.len() && c@[1] < colors.len() && c@[2] < colors.len() && c@[3]
            < colors.len());
        let idx: [usize; 4] = [c[0], c[1], c[2], c[3]];
        assert(idx@ =~= c@);
        let pts: [Point3; 4] = [colors[idx[0]], colors[idx[1]], colors[idx[2]], colors[idx[3]]];
        let ghost old_out = out@;
        let ghost old_src = src;
        match TetrahedronProjector::new(pts) {
            Some(t) => {
                out.push((t, idx));
                proof {
                    src = src.push(i as int);
                    assert forall|j: int|
                        0 <= j < i + 1 && !tetra_degenerate(
                            colors@,
                            (#[trigger] combos[j])@,
                        ) implies exists|t: int| 0 <= t < out.len() && #[trigger] src[t] == j by {
                        if j < i {
                            let t0 = choose|t: int| 0 <= t < old_out.len() && #[trigger] old_src[t] == j;
                            assert(src[t0] == j);
                        } else {
                            assert(src[out.len() - 1] == j);
                        }
                    }
                }
            },
            None => {
                proof {
                    assert forall|j: int|
                        0 <= j < i + 1 && !tetra_degenerate(
                            colors@,
                            (#[trigger] combos[j])@,
                        ) implies exists|t: int| 0 <= t < out.len() && #[trigger] src[t] == j by {
                        assert(j < i);
                    }
                }
            },
        }
        i += 1;
    }
    proof {
        assert forall|k: int| 0 <= k < out.len() implies tetra_entry_ok(
            (#[trigger] out[k]).0,
            out[k].1@,
            colors@,
        ) by {
            assert(0 <= src[k] < i);
        }
        assert forall|a: int, b: int| 0 <= a < b < out.len() implies lex_before(
            (#[trigger] out[a]).1@,
            (#[trigger] out[b]).1@,
        ) by {
            assert(src[a] < src[b]);
            assert(lex_before(combos[src[a]]@, combos[src[b]]@));
        }
        assert forall|c: Seq<usize>| #[trigger]
            is_combination(c, colors@.len() as int, 4) && !tetra_degenerate(
                colors@,
                c,
            ) implies exists|k: int| 0 <= k < out.len() && (#[trigger] out[k]).1@ == c by {
            let j = choose|j: int| 0 <= j < combos.len() && (#[trigger] combos[j])@ == c;
            let t = choose|t: int| 0 <= t < out.len() && #[trigger] src[t] == j;
            assert(out[t].1@ == c);
        }
    }
    out
}

/// The triangles of the palette that have an area, in lexicographic order.
fn build_faces(colors: &[Point3]) -> (out: Vec<(TriangleProjector, [usize; 3])>)
    requires
        colors_wf(colors@),
    ensures
        forall|i: int|
            0 <= i < out.len() ==> face_entry_ok((#[trigger] out[i]).0, out[i].1@, colors@),
        forall|i: int, j: int|
            0 <= i < j < out.len() ==> lex_before((#[trigger] out[i]).1@, (#[trigger] out[j]).1@),
        forall|c: Seq<usize>| #[trigger]
            is_combination(c, colors@.len() as int, 3) && !face_degenerate(colors@, c)
                ==> exists|i: int| 0 <= i < out.len() && (#[trigger] out[i]).1@ == c,
{
    let combos = index_combinations(colors.len(), 3);
    let mut out: Vec<(TriangleProjector, [usize; 3])> = Vec::new();
    let ghost mut src: Seq<int> = Seq::empty();
    let mut i: usize = 0;
    while i < combos.len()
        invariant
            i <= combos.len(),
            colors_wf(colors@),
            forall|j: int|
                0 <= j < combos.len() ==> is_combination(
                    (#[trigger] combos[j])@,
                    colors@.len() as int,
                    3,
                ),
            out.len() == src.len(),
            forall|t: int|
                0 <= t < out.len() ==> 0 <= #[trigger] src[t] < i && out[t].1@ == combos[src[t]]@
                    && face_entry_ok(out[t].0, out[t].1@, colors@),
            forall|s: int, t: int| 0 <= s < t < out.len() ==> #[trigger] src[s] < #[trigger] src[t],
            forall|j: int|
                0 <= j < i && !face_degenerate(colors@, (#[trigger] combos[j])@) ==> exists|t: int|
                    0 <= t < out.len() && #[trigger] src[t] == j,
        decreases combos.len() - i,
    {
        let c = &combos[i];
        assert(is_combination(combos[i as int]@, colors@.len() as int, 3));
        assert(c@[0] < colors.len() && c@[1] < colors.len() && c@[2] < colors.len());
        let idx: [usize; 3] = [c[0], c[1], c[2]];
        assert(idx@ =~= c@);
        let pts: [Point3; 3] = [colors[idx[0]], colors[idx[1]], colors[idx[2]]];
        let ghost old_out = out@;
        let ghost old_src = src;
        match TriangleProjector::new(pts) {
            Some(t) => {
                out.push((t, idx));
                proof {
                    src = src.push(i as int);
                    assert forall|j: int|
                        0 <= j < i + 1 && !face_degenerate(
                            colors@,
                            (#[trigger] combos[j])@,
                        ) implies exists|t: int| 0 <= t < out.len() && #[trigger] src[t] == j by {
                        if j < i {
                            let t0 = choose|t: int| 0 <= t < old_out.len() && #[trigger] old_src[t] == j;
                            assert(src[t0] == j);
                        } else {
                            assert(src[out.len() - 1] == j);
                        }
                    }
                }
            },
            None => {
                proof {
                    assert forall|j: int|
                        0 <= j < i + 1 && !face_degenerate(
                            colors@,
                            (#[trigger] combos[j])@,
                        ) implies exists|t: int| 0 <= t < out.len() && #[trigger] src[t] == j by {
                        assert(j < i);
                    }
                }
            },
        }
        i += 1;
    }
    proof {
        assert forall|k: int| 0 <= k < out.len() implies face_entry_ok(
            (#[trigger] out[k]).0,
            out[k].1@,
            colors@,
        ) by {
            assert(0 <= src[k] < i);
        }
        assert forall|a: int, b: int| 0 <= a < b < out.len() implies lex_before(
            (#[trigger] out[a]).1@,
            (#[trigger] out[b]).1@,
        ) by {
            assert(src[a] < src[b]);
            assert(lex_before(combos[src[a]]@, combos[src[b]]@));
        }
        assert forall|c: Seq<usize>| #[trigger]
            is_combination(c, colors@.len() as int, 3) && !face_degenerate(
                colors@,
                c,
            ) implies exists|k: int| 0 <= k < out.len() && (#[trigger] out[k]).1@ == c by {
            let j = choose|j: int| 0 <= j < combos.len() && (#[trigger] combos[j])@ == c;
            let t = choose|t: int| 0 <= t < out.len() && #[trigger] src[t] == j;
            assert(out[t].1@ == c);
        }
    }
    out
}

/// The edges of the palette that have a length, in lexicographic order.
fn build_edges(colors: &[Point3]) -> (out: Vec<(LineProjector, [usize; 2])>)
    requires
        colors_wf(colors@),
    ensures
        forall|i: int|
            0 <= i < out.len() ==> edge_entry_ok((#[trigger] out[i]).0, out[i].1@, colors@),
        forall|i: int, j: int|
            0 <= i < j < out.len() ==> lex_before((#[trigger] out[i]).1@, (#[trigger] out[j]).1@),
        forall|c: Seq<usize>| #[trigger]
            is_combination(c, colors@.len() as int, 2) && !edge_degenerate(colors@, c)
                ==> exists|i: int| 0 <= i < out.len() && (#[trigger] out[i]).1@ == c,
{
    let combos = index_combinations(colors.len(), 2);
    let mut out: Vec<(LineProjector, [usize; 2])> = Vec::new();
    let ghost mut src: Seq<int> = Seq::empty();
    let mut i: usize = 0;
    while i < combos.len()
        invariant
            i <= combos.len(),
            colors_wf(colors@),
            forall|j: int|
                0 <= j < combos.len() ==> is_combination(
                    (#[trigger] combos[j])@,
                    colors@.len() as int,
                    2,
                ),
            out.len() == src.len(),
            forall|t: int|
                0 <= t < out.len() ==> 0 <= #[trigger] src[t] < i && out[t].1@ == combos[src[t]]@
                    && edge_entry_ok(out[t].0, out[t].1@, colors@),
            forall|s: int, t: int| 0 <= s < t < out.len() ==> #[trigger] src[s] < #[trigger] src[t],
            forall|j: int|
                0 <= j < i && !edge_degenerate(colors@, (#[trigger] combos[j])@) ==> exists|t: int|
                    0 <= t < out.len() && #[trigger] src[t] == j,
        decreases combos.len() - i,
    {
        let c = &combos[i];
        assert(is_combination(combos[i as int]@, colors@.len() as int, 2));
        assert(c@[0] < colors.len() && c@[1] < colors.len());
        let idx: [usize; 2] = [c[0], c[1]];
        assert(idx@ =~= c@);
        let pts: [Point3; 2] = [colors[idx[0]], colors[idx[1]]];
        let ghost old_out = out@;
        let ghost old_src = src;
        let line = LineProjector::new(pts);
        if line.length_squared != 0 {
            out.push((line, idx));
            proof {
                src = src.push(i as int);
                assert forall|j: int|
                    0 <= j < i + 1 && !edge_degenerate(
                        colors@,
                        (#[trigger] combos[j])@,
                    ) implies exists|t: int| 0 <= t < out.len() && #[trigger] src[t] == j by {
                    if j < i {
                        let t0 = choose|t: int| 0 <= t < old_out.len() && #[trigger] old_src[t] == j;
                        assert(src[t0] == j);
                    } else {
                        assert(src[out.len() - 1] == j);
                    }
                }
            }
        } else {
            proof {
                assert forall|j: int|
                    0 <= j < i + 1 && !edge_degenerate(
                        colors@,
                        (#[trigger] combos[j])@,
                    ) implies exists|t: int| 0 <= t < out.len() && #[trigger] src[t] == j by {
                    assert(j < i);
                }
            }
        }
        i += 1;
    }
    proof {
        assert forall|k: int| 0 <= k < out.len() implies edge_entry_ok(
            (#[trigger] out[k]).0,
            out[k].1@,
            colors@,
        ) by {
            assert(0 <= src[k] < i);
        }
        assert forall|a: int, b: int| 0 <= a < b < out.len() implies lex_before(
            (#[trigger] out[a]).1@,
            (#[trigger] out[b]).1@,
        ) by {
            assert(src[a] < src[b]);
            assert(lex_before(combos[src[a]]@, combos[src[b]]@));
        }
        assert forall|c: Seq<usize>| #[trigger]
            is_combination(c, colors@.len() as int, 2) && !edge_degenerate(
                colors@,
                c,
            ) implies exists|k: int| 0 <= k < out.len() && (#[trigger] out[k]).1@ == c by {
            let j = choose|j: int| 0 <= j < combos.len() && (#[trigger] combos[j])@ == c;
            let t = choose|t: int| 0 <= t < out.len() && #[trigger] src[t] == j;
            assert(out[t].1@ == c);
        }
    }
    out
}


impl DecomposerBruteforce {
    /// Every projector is well formed, and there is an edge to fall back on.
    pub open spec fn wf(&self) -> bool {
        &&& forall|i: int| 0 <= i < self.tetras.len() ==> (#[trigger] self.tetras[i]).0.wf()
        &&& forall|i: int| 0 <= i < self.faces.len() ==> (#[trigger] self.faces[i]).0.wf()
        &&& forall|i: int| 0 <= i < self.edges.len() ==> (#[trigger] self.edges[i]).0.wf()
        &&& forall|i: int|
            0 <= i < self.tetras.len() ==> is_combination(
                (#[trigger] self.tetras[i]).1@,
                self.num_colors as int,
                4,
            )
        &&& forall|i: int|
            0 <= i < self.faces.len() ==> is_combination(
                (#[trigger] self.faces[i]).1@,
                self.num_colors as int,
                3,
            )
        &&& forall|i: int|
            0 <= i < self.edges.len() ==> is_combination(
                (#[trigger] self.edges[i]).1@,
                self.num_colors as int,
                2,
            )
        &&& self.edges.len() > 0
    }

    /// The lists hold, in lexicographic order of the indices, exactly the
    /// tetrahedra, triangles and edges of `colors` that are not degenerate.
    pub open spec fn built_from(&self, colors: Seq<Point3>) -> bool {
        &&& self.num_colors == colors.len()
        &&& forall|i: int|
            0 <= i < self.tetras.len() ==> tetra_entry_ok(
                (#[trigger] self.tetras[i]).0,
                self.tetras[i].1@,
                colors,
            )
        &&& forall|i: int, j: int|
            0 <= i < j < self.tetras.len() ==> lex_before(
                (#[trigger] self.tetras[i]).1@,
                (#[trigger] self.tetras[j]).1@,
            )
        &&& forall|c: Seq<usize>| #[trigger]
            is_combination(c, colors.len() as int, 4) && !tetra_degenerate(colors, c)
                ==> exists|i: int| 0 <= i < self.tetras.len() && (#[trigger] self.tetras[i]).1@ == c
        &&& forall|i: int|
            0 <= i < self.faces.len() ==> face_entry_ok(
                (#[trigger] self.faces[i]).0,
                self.faces[i].1@,
                colors,
            )
        &&& forall|i: int, j: int|
            0 <= i < j < self.faces.len() ==> lex_before(
                (#[trigger] self.faces[i]).1@,
                (#[trigger] self.faces[j]).1@,
            )
        &&& forall|c: Seq<usize>| #[trigger]
            is_combination(c, colors.len() as int, 3) && !face_degenerate(colors, c)
                ==> exists|i: int| 0 <= i < self.faces.len() && (#[trigger] self.faces[i]).1@ == c
        &&& forall|i: int|
            0 <= i < self.edges.len() ==> edge_entry_ok(
                (#[trigger] self.edges[i]).0,
                self.edges[i].1@,
                colors,
            )
        &&& forall|i: int, j: int|
            0 <= i < j < self.edges.len() ==> lex_before(
                (#[trigger] self.edges[i]).1@,
                (#[trigger] self.edges[j]).1@,
            )
        &&& forall|c: Seq<usize>| #[trigger]
            is_combination(c, colors.len() as int, 2) && !edge_degenerate(colors, c)
                ==> exists|i: int| 0 <= i < self.edges.len() && (#[trigger] self.edges[i]).1@ == c
    }

    /// The decomposer of a palette. It fails only where the palette spans
    /// nothing at all: where it has fewer than two colours or all of them are
    /// one point.
    pub fn new(colors: &[Point3]) -> (r: Option<DecomposerBruteforce>)
        requires
            colors_wf(colors@),
        ensures
            r is None <==> forall|i: int, j: int|
                0 <= i < j < colors.len() ==> colors[i] == colors[j],
            r matches Some(d) ==> d.wf() && d.built_from(colors@),
    {
        let num_colors: usize = colors.len();
        let tetras = build_tetras(colors);
        let faces = build_faces(colors);
        let edges = build_edges(colors);
        proof {
            if edges.len() == 0 {
                assert forall|i: int, j: int| 0 <= i < j < colors.len() implies colors[i]
                    == colors[j] by {
                    let c: Seq<usize> = seq![i as usize, j as usize];
                    assert(is_combination(c, colors@.len() as int, 2));
                    if !edge_degenerate(colors@, c) {
                        let k = choose|k: int| 0 <= k < edges.len() && (#[trigger] edges[k]).1@ == c;
                        assert(false);
                    }
                }
                if faces.len() > 0 {
                    let idx = faces[0].1@;
                    assert(face_entry_ok(faces[0].0, idx, colors@));
                    assert(idx[0] < idx[1]);
                    assert(colors[idx[0] as int] == colors[idx[1] as int]);
                    let e = colors[idx[1] as int]@.minus(colors[idx[0] as int]@);
                    let f = colors[idx[2] as int]@.minus(colors[idx[0] as int]@);
                    assert(e.x == 0 && e.y == 0 && e.z == 0);
                    assert(e.cross(f) == (Vec3 { x: 0, y: 0, z: 0 })) by (nonlinear_arith)
                        requires
                            e.x == 0 && e.y == 0 && e.z == 0,
                    ;
                    assert(false);
                }
                if tetras.len() > 0 {
                    let idx = tetras[0].1@;
                    assert(tetra_entry_ok(tetras[0].0, idx, colors@));
                    assert(idx[0] < idx[1]);
                    assert(colors[idx[0] as int] == colors[idx[1] as int]);
                    let e = colors[idx[1] as int]@.minus(colors[idx[0] as int]@);
                    let f = colors[idx[2] as int]@.minus(colors[idx[0] as int]@);
                    let g = colors[idx[3] as int]@.minus(colors[idx[0] as int]@);
                    assert(e.x == 0 && e.y == 0 && e.z == 0);
                    assert(det3(e, f, g) == 0) by (nonlinear_arith)
                        requires
                            e.x == 0 && e.y == 0 && e.z == 0,
                    ;
                    assert(false);
                }
            } else {
                let idx = edges[0].1@;
                assert(edge_entry_ok(edges[0].0, idx, colors@));
                assert(idx[0] < idx[1]);
                assert(colors[idx[0] as int] != colors[idx[1] as int]);
            }
        }
        if tetras.len() > 0 || faces.len() > 0 || edges.len() > 0 {
            let d = DecomposerBruteforce { num_colors, tetras, faces, edges };
            proof {
                assert forall|i: int| 0 <= i < d.tetras.len() implies (#[trigger] d.tetras[i]).0.wf()
                    && is_combination(d.tetras[i].1@, d.num_colors as int, 4) by {
                    assert(tetra_entry_ok(d.tetras[i].0, d.tetras[i].1@, colors@));
                }
                assert forall|i: int| 0 <= i < d.faces.len() implies (#[trigger] d.faces[i]).0.wf()
                    && is_combination(d.faces[i].1@, d.num_colors as int, 3) by {
                    assert(face_entry_ok(d.faces[i].0, d.faces[i].1@, colors@));
                }
                assert forall|i: int| 0 <= i < d.edges.len() implies (#[trigger] d.edges[i]).0.wf()
                    && is_combination(d.edges[i].1@, d.num_colors as int, 2) by {
                    assert(edge_entry_ok(d.edges[i].0, d.edges[i].1@, colors@));
                }
                assert(d.wf());
                assert forall|c: Seq<usize>| #[trigger]
                    is_combination(c, colors@.len() as int, 4) && !tetra_degenerate(
                        colors@,
                        c,
                    ) implies exists|i: int|
                    0 <= i < d.tetras.len() && (#[trigger] d.tetras[i]).1@ == c by {
                    let k = choose|k: int| 0 <= k < tetras.len() && (#[trigger] tetras[k]).1@ == c;
                    assert(d.tetras[k].1@ == c);
                }
                assert forall|c: Seq<usize>| #[trigger]
                    is_combination(c, colors@.len() as int, 3) && !face_degenerate(
                        colors@,
                        c,
                    ) implies exists|i: int|
                    0 <= i < d.faces.len() && (#[trigger] d.faces[i]).1@ == c by {
                    let k = choose|k: int| 0 <= k < faces.len() && (#[trigger] faces[k]).1@ == c;
                    assert(d.faces[k].1@ == c);
                }
                assert forall|c: Seq<usize>| #[trigger]
                    is_combination(c, colors@.len() as int, 2) && !edge_degenerate(
                        colors@,
                        c,
                    ) implies exists|i: int|
                    0 <= i < d.edges.len() && (#[trigger] d.edges[i]).1@ == c by {
                    let k = choose|k: int| 0 <= k < edges.len() && (#[trigger] edges[k]).1@ == c;
                    assert(d.edges[k].1@ == c);
                }
                assert(d.built_from(colors@));
            }
            Some(d)
        } else {
            None
        }
    }

    /// The tetrahedra as candidates: one qualifies where it holds `pt`, and
    /// is ranked by its largest weight.
    pub open spec fn tetra_candidates(&self, pt: Vec3) -> Seq<Candidate> {
        Seq::new(
            self.tetras.len() as nat,
            |i: int|
                {
                    let t = self.tetras[i].0;
                    let nums = tetrahedron_numerators(
                        t.origin@,
                        t.edge_b@,
                        t.edge_c@,
                        t.edge_d@,
                        pt,
                    );
                    Candidate {
                        eligible: all_nonnegative(nums),
                        num: seq_max(nums),
                        den: t.volume as int,
                    }
                },
        )
    }

    /// The triangles as candidates: one qualifies where the foot of `pt` in
    /// its plane lies in it, and is ranked by the squared distance of `pt`
    /// from that plane.
    pub open spec fn face_candidates(&self, pt: Vec3) -> Seq<Candidate> {
        Seq::new(
            self.faces.len() as nat,
            |i: int|
                {
                    let t = self.faces[i].0;
                    let h = triangle_height(t.origin@, t.edge_b@, t.edge_c@, pt);
                    Candidate {
                        eligible: all_nonnegative(
                            triangle_numerators(t.origin@, t.edge_b@, t.edge_c@, pt),
                        ),
                        num: h * h,
                        den: t.normal_norm_squared as int,
                    }
                },
        )
    }

    /// The edges as candidates: each qualifies, and is ranked by the squared
    /// distance of `pt` from the nearest point of its segment.
    pub open spec fn edge_candidates(&self, pt: Vec3) -> Seq<Candidate> {
        Seq::new(
            self.edges.len() as nat,
            |i: int|
                {
                    let l = self.edges[i].0;
                    let d = segment_distance(l.origin@, l.direction@, pt);
                    Candidate { eligible: true, num: d.0, den: d.1 }
                },
        )
    }

    /// The weights of `pt` relative to tetrahedron `i`, as numerators for the
    /// whole palette and their denominator.
    pub open spec fn tetra_weights(&self, i: int, pt: Vec3) -> (Seq<int>, int) {
        let t = self.tetras[i].0;
        (
            scatter(
                tetrahedron_numerators(t.origin@, t.edge_b@, t.edge_c@, t.edge_d@, pt),
                self.tetras[i].1@,
                self.num_colors as nat,
            ),
            t.volume as int,
        )
    }

    /// The weights of the foot of `pt` in the plane of triangle `i`.
    pub open spec fn face_weights(&self, i: int, pt: Vec3) -> (Seq<int>, int) {
        let t = self.faces[i].0;
        (
            scatter(
                triangle_numerators(t.origin@, t.edge_b@, t.edge_c@, pt),
                self.faces[i].1@,
                self.num_colors as nat,
            ),
            t.normal_norm_squared as int,
        )
    }

    /// The weights of the point of edge `i` that is nearest to `pt`.
    pub open spec fn edge_weights(&self, i: int, pt: Vec3) -> (Seq<int>, int) {
        let l = self.edges[i].0;
        (
            scatter(
                clipped_line_numerators(l.origin@, l.direction@, pt),
                self.edges[i].1@,
                self.num_colors as nat,
            ),
            clipped_line_denominator(l.origin@, l.direction@, pt),
        )
    }

    /// What `decompose` returns: the weights in the covering tetrahedron
    /// that the strategy prefers, the first of them where several are equal;
    /// where none covers `pt`, those of the nearest qualifying triangle or of
    /// the nearest edge, the edge only where it is strictly nearer.
    pub open spec fn decomposition(
        &self,
        pt: Vec3,
        strategy: DecomposerBruteforceStrategy,
    ) -> (Seq<int>, int) {
        match first_best(self.tetra_candidates(pt), strategy is FavorDominant) {
            Some(i) => self.tetra_weights(i, pt),
            None => {
                let e = first_best(self.edge_candidates(pt), false).unwrap();
                match first_best(self.face_candidates(pt), false) {
                    Some(f) => if ranks_before(
                        self.edge_candidates(pt)[e],
                        self.face_candidates(pt)[f],
                        false,
                    ) {
                        self.edge_weights(e, pt)
                    } else {
                        self.face_weights(f, pt)
                    },
                    None => self.edge_weights(e, pt),
                }
            },
        }
    }

    /// The covering tetrahedron that the strategy prefers, with the weights in it.
    fn best_tetra(&self, pt: &Point3, largest: bool) -> (r: Option<(usize, Barycentric<4>)>)
        requires
            self.wf(),
            pt.wf(),
        ensures
            match r {
                Some((i, b)) => {
                    &&& first_best(self.tetra_candidates(pt@), largest) == Some(i as int)
                    &&& i < self.tetras.len()
                    &&& b.nums() == tetrahedron_numerators(
                        self.tetras[i as int].0.origin@,
                        self.tetras[i as int].0.edge_b@,
                        self.tetras[i as int].0.edge_c@,
                        self.tetras[i as int].0.edge_d@,
                        pt@,
                    )
                    &&& b.den == self.tetras[i as int].0.volume
                    &&& all_nonnegative(b.nums())
                    &&& b.num[0] + b.num[1] + b.num[2] + b.num[3] == b.den
                },
                None => first_best(self.tetra_candidates(pt@), largest) is None,
            },
    {
        let ghost cands = self.tetra_candidates(pt@);
        let mut best: Option<(usize, Barycentric<4>, Ratio)> = None;
        let mut i: usize = 0;
        proof {
            lemma_first_best_none(cands.take(0), largest);
        }
        while i < self.tetras.len()
            invariant
                i <= self.tetras.len(),
                self.wf(),
                pt.wf(),
                cands == self.tetra_candidates(pt@),
                match best {
                    Some((b, bary, ratio)) => {
                        &&& first_best(cands.take(i as int), largest) == Some(b as int)
                        &&& b < i
                        &&& bary.nums() == tetrahedron_numerators(
                            self.tetras[b as int].0.origin@,
                            self.tetras[b as int].0.edge_b@,
                            self.tetras[b as int].0.edge_c@,
                            self.tetras[b as int].0.edge_d@,
                            pt@,
                        )
                        &&& bary.den == self.tetras[b as int].0.volume
                        &&& all_nonnegative(bary.nums())
                        &&& bary.num[0] + bary.num[1] + bary.num[2] + bary.num[3] == bary.den
                        &&& ratio.num == cands[b as int].num
                        &&& ratio.den == cands[b as int].den
                        &&& ratio.within_limits()
                    },
                    None => {
                        &&& first_best(cands.take(i as int), largest) is None
                        &&& forall|j: int| 0 <= j < i ==> !(#[trigger] cands.take(i as int)[j]).eligible
                    },
                },
            decreases self.tetras.len() - i,
        {
            let ghost prefix = cands.take(i as int);
            let ghost before: Option<int> = match best {
                Some((b, _, _)) => Some(b as int),
                None => None,
            };
            let t = &self.tetras[i].0;
            assert(self.tetras[i as int].0.wf());
            let projected = t.project(pt);
            proof {
                assert forall|j: int| 0 <= j < prefix.len() implies (#[trigger] prefix[j]).den > 0 by {
                    assert(self.tetras[j].0.wf());
                }
                assert(cands[i as int].den > 0);
                assert(prefix.push(cands[i as int]) =~= cands.take(i + 1));
                if before is Some {
                    assert(prefix[before.unwrap()] == cands[before.unwrap()]);
                }
                lemma_first_best_extend(prefix, cands[i as int], before, largest);
            }
            if !projected.has_negative() {
                let top: i128 = projected.max_num();
                proof {
                    lemma_seq_max(projected.nums());
                    let k = choose|k: int|
                        0 <= k < projected.nums().len() && projected.nums()[k] == seq_max(
                            projected.nums(),
                        );
                    assert(projected.nums()[k] == projected.num[k]);
                }
                let ratio = Ratio { num: top, den: projected.den };
                let better = match &best {
                    None => true,
                    Some((_, _, held)) => if largest {
                        held.less_than(&ratio)
                    } else {
                        ratio.less_than(held)
                    },
                };
                if better {
                    best = Some((i, projected, ratio));
                }
            }
            i += 1;
        }
        assert(cands.take(self.tetras.len() as int) =~= cands);
        match best {
            Some((b, bary, _)) => Some((b, bary)),
            None => None,
        }
    }

    /// The nearest triangle among those that hold the foot of `pt`, with the
    /// weights in it and the squared distance of `pt` from its plane.
    fn closest_face(&self, pt: &Point3) -> (r: Option<(usize, Barycentric<3>, Ratio)>)
        requires
            self.wf(),
            pt.wf(),
        ensures
            match r {
                Some((i, b, ratio)) => {
                    &&& first_best(self.face_candidates(pt@), false) == Some(i as int)
                    &&& i < self.faces.len()
                    &&& b.nums() == triangle_numerators(
                        self.faces[i as int].0.origin@,
                        self.faces[i as int].0.edge_b@,
                        self.faces[i as int].0.edge_c@,
                        pt@,
                    )
                    &&& b.den == self.faces[i as int].0.normal_norm_squared
                    &&& all_nonnegative(b.nums())
                    &&& b.num[0] + b.num[1] + b.num[2] == b.den
                    &&& b.den <= 0x4000_0000_0000
                    &&& ratio.num == self.face_candidates(pt@)[i as int].num
                    &&& ratio.den == self.face_candidates(pt@)[i as int].den
                    &&& ratio.within_limits()
                },
                None => first_best(self.face_candidates(pt@), false) is None,
            },
    {
        let ghost cands = self.face_candidates(pt@);
        let ghost c: int = CHANNEL_MAX as int;
        let mut best: Option<(usize, Barycentric<3>, Ratio)> = None;
        let mut i: usize = 0;
        proof {
            lemma_first_best_none(cands.take(0), false);
        }
        while i < self.faces.len()
            invariant
                i <= self.faces.len(),
                self.wf(),
                pt.wf(),
                c == CHANNEL_MAX as int,
                cands == self.face_candidates(pt@),
                match best {
                    Some((b, bary, ratio)) => {
                        &&& first_best(cands.take(i as int), false) == Some(b as int)
                        &&& b < i
                        &&& bary.nums() == triangle_numerators(
                            self.faces[b as int].0.origin@,
                            self.faces[b as int].0.edge_b@,
                            self.faces[b as int].0.edge_c@,
                            pt@,
                        )
                        &&& bary.den == self.faces[b as int].0.normal_norm_squared
                        &&& all_nonnegative(bary.nums())
                        &&& bary.num[0] + bary.num[1] + bary.num[2] == bary.den
                        &&& bary.den <= 0x4000_0000_0000
                        &&& ratio.num == cands[b as int].num
                        &&& ratio.den == cands[b as int].den
                        &&& ratio.within_limits()
                    },
                    None => {
                        &&& first_best(cands.take(i as int), false) is None
                        &&& forall|j: int| 0 <= j < i ==> !(#[trigger] cands.take(i as int)[j]).eligible
                    },
                },
            decreases self.faces.len() - i,
        {
            let ghost prefix = cands.take(i as int);
            let ghost before: Option<int> = match best {
                Some((b, _, _)) => Some(b as int),
                None => None,
            };
            let t = &self.faces[i].0;
            assert(self.faces[i as int].0.wf());
            let (projected, height) = t.project(pt);
            proof {
                assert forall|j: int| 0 <= j < prefix.len() implies (#[trigger] prefix[j]).den > 0 by {
                    assert(self.faces[j].0.wf());
                }
                assert(cands[i as int].den > 0);
                assert(prefix.push(cands[i as int]) =~= cands.take(i + 1));
                if before is Some {
                    assert(prefix[before.unwrap()] == cands[before.unwrap()]);
                }
                lemma_first_best_extend(prefix, cands[i as int], before, false);
            }
            if !projected.has_negative() {
                proof {
                    assert(-0x2_0000_0000 <= height <= 0x2_0000_0000);
                    lemma_mul_within(height as int, height as int, 0x2_0000_0000, 0x2_0000_0000);
                    assert(height * height >= 0) by (nonlinear_arith);
                }
                let ratio = Ratio { num: height * height, den: projected.den };
                let better = match &best {
                    None => true,
                    Some((_, _, held)) => ratio.less_than(held),
                };
                if better {
                    best = Some((i, projected, ratio));
                }
            }
            i += 1;
        }
        assert(cands.take(self.faces.len() as int) =~= cands);
        best
    }

    /// The nearest edge, with the weights of its point nearest to `pt` and
    /// the squared distance of `pt` from that point.
    fn closest_edge(&self, pt: &Point3) -> (r: (usize, Barycentric<2>, Ratio))
        requires
            self.wf(),
            pt.wf(),
        ensures
            first_best(self.edge_candidates(pt@), false) == Some(r.0 as int),
            r.0 < self.edges.len(),
            r.1.nums() == clipped_line_numerators(
                self.edges[r.0 as int].0.origin@,
                self.edges[r.0 as int].0.direction@,
                pt@,
            ),
            r.1.den == clipped_line_denominator(
                self.edges[r.0 as int].0.origin@,
                self.edges[r.0 as int].0.direction@,
                pt@,
            ),
            r.2.num == self.edge_candidates(pt@)[r.0 as int].num,
            r.2.den == self.edge_candidates(pt@)[r.0 as int].den,
            r.2.within_limits(),
            all_nonnegative(r.1.nums()),
            r.1.num[0] + r.1.num[1] == r.1.den,
            r.1.den <= 0x4000_0000_0000,
    {
        let ghost cands = self.edge_candidates(pt@);
        let ghost c: int = CHANNEL_MAX as int;
        let mut best: Option<(usize, Barycentric<2>, Ratio)> = None;
        let mut i: usize = 0;
        proof {
            lemma_first_best_none(cands.take(0), false);
        }
        while i < self.edges.len()
            invariant
                i <= self.edges.len(),
                self.wf(),
                pt.wf(),
                c == CHANNEL_MAX as int,
                cands == self.edge_candidates(pt@),
                match best {
                    Some((b, bary, ratio)) => {
                        &&& first_best(cands.take(i as int), false) == Some(b as int)
                        &&& b < i
                        &&& bary.nums() == clipped_line_numerators(
                            self.edges[b as int].0.origin@,
                            self.edges[b as int].0.direction@,
                            pt@,
                        )
                        &&& bary.den == clipped_line_denominator(
                            self.edges[b as int].0.origin@,
                            self.edges[b as int].0.direction@,
                            pt@,
                        )
                        &&& all_nonnegative(bary.nums())
                        &&& bary.num[0] + bary.num[1] == bary.den
                        &&& bary.den <= 0x4000_0000_0000
                        &&& ratio.num == cands[b as int].num
                        &&& ratio.den == cands[b as int].den
                        &&& ratio.within_limits()
                    },
                    None => {
                        &&& first_best(cands.take(i as int), false) is None
                        &&& i == 0
                    },
                },
            decreases self.edges.len() - i,
        {
            let ghost prefix = cands.take(i as int);
            let ghost before: Option<int> = match best {
                Some((b, _, _)) => Some(b as int),
                None => None,
            };
            let edge = &self.edges[i].0;
            assert(self.edges[i as int].0.wf());
            let (projected, _) = edge.clipping_project(pt);
            let projected_pt = edge.bary_to_point(&projected);
            proof {
                let den = projected.den as int;
                let w = projected.num[1] as int;
                assert(projected.nums()[1] == w);
                lemma_mul_within(edge.origin.x as int, den, c, 3 * (c * c));
                lemma_mul_within(edge.origin.y as int, den, c, 3 * (c * c));
                lemma_mul_within(edge.origin.z as int, den, c, 3 * (c * c));
                lemma_mul_within(edge.direction.x as int, w, c, 3 * (c * c));
                lemma_mul_within(edge.direction.y as int, w, c, 3 * (c * c));
                lemma_mul_within(edge.direction.z as int, w, c, 3 * (c * c));
            }
            let distance_sq = projected_pt.distance_squared(pt);
            proof {
                assert forall|j: int| 0 <= j < prefix.len() implies (#[trigger] prefix[j]).den > 0 by {
                    let l = self.edges[j].0;
                    let d = clipped_line_denominator(l.origin@, l.direction@, pt@);
                    assert(l.wf());
                    crate::barycentric::line::lemma_norm_squared_zero(l.direction@);
                    assert(d > 0);
                    assert(d * d > 0) by (nonlinear_arith)
                        requires
                            d > 0,
                    ;
                }
                assert(cands[i as int].den > 0);
                assert(prefix.push(cands[i as int]) =~= cands.take(i + 1));
                if before is Some {
                    assert(prefix[before.unwrap()] == cands[before.unwrap()]);
                }
                lemma_first_best_extend(prefix, cands[i as int], before, false);
            }
            assert(all_nonnegative(projected.nums())) by {
                assert(projected.nums()[0] == projected.num[0]);
                assert(projected.nums()[1] == projected.num[1]);
            }
            let better = match &best {
                None => true,
                Some((_, _, held)) => distance_sq.less_than(held),
            };
            if better {
                best = Some((i, projected, distance_sq));
            }
            i += 1;
        }
        assert(cands.take(self.edges.len() as int) =~= cands);
        match best {
            Some(found) => found,
            None => {
                proof {
                    assert(false);
                }
                (0, Barycentric { num: [1, 0], den: 1 }, Ratio { num: 0, den: 1 })
            },
        }
    }

    /// The weights of `pt` over the whole palette.
    pub fn decompose(&self, pt: &Point3, strategy: DecomposerBruteforceStrategy) -> (r: Weights)
        requires
            self.wf(),
            pt.wf(),
        ensures
            r.nums() == self.decomposition(pt@, strategy).0,
            r.den == self.decomposition(pt@, strategy).1,
            r.num.len() == self.num_colors,
            r.den > 0,
            all_nonnegative(r.nums()),
            seq_sum(r.nums()) == r.den,
            r.within(0x4000_0000_0000),
    {
        let largest = match strategy {
            DecomposerBruteforceStrategy::FavorMix => false,
            DecomposerBruteforceStrategy::FavorDominant => true,
        };
        if let Some((i, local_barycentric)) = self.best_tetra(pt, largest) {
            proof {
                lemma_scatter_keeps(
                    local_barycentric.nums(),
                    self.tetras[i as int].1@,
                    self.num_colors as nat,
                );
                lemma_seq_sum_4(local_barycentric.nums());
                assert(self.tetras[i as int].0.wf());
                assert(local_barycentric.nums()[0] == local_barycentric.num[0]
                    && local_barycentric.nums()[1] == local_barycentric.num[1]
                    && local_barycentric.nums()[2] == local_barycentric.num[2]
                    && local_barycentric.nums()[3] == local_barycentric.num[3]);
                lemma_scatter_bounded(
                    local_barycentric.nums(),
                    self.tetras[i as int].1@,
                    self.num_colors as nat,
                    0,
                    local_barycentric.den as int,
                );
            }
            let r = self.to_global_barycentric_coordinates(local_barycentric, &self.tetras[i].1);
            assert(r.within(0x4000_0000_0000)) by {
                assert forall|g: int| 0 <= g < r.num.len() implies -0x4000_0000_0000
                    <= #[trigger] r.num[g] <= 0x4000_0000_0000 by {
                    assert(r.nums()[g] == r.num[g]);
                }
            }
            return r;
        }
        let closest_face = self.closest_face(pt);
        let (e, edge_barycentric, edge_distance_sq) = self.closest_edge(pt);
        proof {
            lemma_scatter_keeps(edge_barycentric.nums(), self.edges[e as int].1@, self.num_colors as nat);
            lemma_seq_sum_2(edge_barycentric.nums());
            assert(edge_barycentric.nums()[0] == edge_barycentric.num[0] && edge_barycentric.nums()[1]
                == edge_barycentric.num[1]);
            lemma_scatter_bounded(
                edge_barycentric.nums(),
                self.edges[e as int].1@,
                self.num_colors as nat,
                0,
                edge_barycentric.den as int,
            );
            assert(self.edges[e as int].0.wf());
            crate::barycentric::line::lemma_norm_squared_zero(self.edges[e as int].0.direction@);
        }
        match closest_face {
            Some((f, face_barycentric, face_distance_sq)) => {
                proof {
                    lemma_scatter_keeps(
                        face_barycentric.nums(),
                        self.faces[f as int].1@,
                        self.num_colors as nat,
                    );
                    lemma_seq_sum_3(face_barycentric.nums());
                    assert(face_barycentric.nums()[0] == face_barycentric.num[0]
                        && face_barycentric.nums()[1] == face_barycentric.num[1]
                        && face_barycentric.nums()[2] == face_barycentric.num[2]);
                    lemma_scatter_bounded(
                        face_barycentric.nums(),
                        self.faces[f as int].1@,
                        self.num_colors as nat,
                        0,
                        face_barycentric.den as int,
                    );
                    assert(self.faces[f as int].0.wf());
                }
                let r = if edge_distance_sq.less_than(&face_distance_sq) {
                    self.to_global_barycentric_coordinates(edge_barycentric, &self.edges[e].1)
                } else {
                    self.to_global_barycentric_coordinates(face_barycentric, &self.faces[f].1)
                };
                assert(r.within(0x4000_0000_0000)) by {
                    assert forall|g: int| 0 <= g < r.num.len() implies -0x4000_0000_0000
                        <= #[trigger] r.num[g] <= 0x4000_0000_0000 by {
                        assert(r.nums()[g] == r.num[g]);
                    }
                }
                r
            },
            None => {
                let r = self.to_global_barycentric_coordinates(edge_barycentric, &self.edges[e].1);
                assert(r.within(0x4000_0000_0000)) by {
                    assert forall|g: int| 0 <= g < r.num.len() implies -0x4000_0000_0000
                        <= #[trigger] r.num[g] <= 0x4000_0000_0000 by {
                        assert(r.nums()[g] == r.num[g]);
                    }
                }
                r
            },
        }
    }

    /// The weights of a simplex as weights of the whole palette: the weight
    /// of corner `k` at the place `vertex_indices[k]`, zero elsewhere.
    pub fn to_global_barycentric_coordinates<const N: usize>(
        &self,
        local_barycentric: Barycentric<N>,
        vertex_indices: &[usize; N],
    ) -> (r: Weights)
        ensures
            r.nums() == scatter(local_barycentric.nums(), vertex_indices@, self.num_colors as nat),
            r.den == local_barycentric.den,
    {
        let mut num: Vec<i128> = Vec::new();
        let mut i: usize = 0;
        while i < self.num_colors
            invariant
                i <= self.num_colors,
                num.len() == i,
                forall|j: int| 0 <= j < i ==> num[j] == 0,
            decreases self.num_colors - i,
        {
            num.push(0);
            i += 1;
        }
        let ghost local = local_barycentric.nums();
        let ghost len = self.num_colors as nat;
        let mut k: usize = 0;
        assert(vertex_indices@.take(0) =~= Seq::<usize>::empty());
        assert(Seq::new(num.len() as nat, |i: int| num[i] as int) =~= scatter(
            local,
            vertex_indices@.take(0),
            len,
        ));
        while k < N
            invariant
                k <= N,
                num.len() == self.num_colors,
                len == self.num_colors,
                local == local_barycentric.nums(),
                Seq::new(num.len() as nat, |i: int| num[i] as int) == scatter(
                    local,
                    vertex_indices@.take(k as int),
                    len,
                ),
            decreases N - k,
        {
            let ghost before = Seq::new(num.len() as nat, |i: int| num[i] as int);
            let global_index: usize = vertex_indices[k];
            assert(vertex_indices@.take(k + 1).drop_last() =~= vertex_indices@.take(k as int));
            assert(vertex_indices@.take(k + 1).last() == global_index);
            if global_index < self.num_colors {
                num.set(global_index, local_barycentric.num[k]);
                assert(Seq::new(num.len() as nat, |i: int| num[i] as int) =~= before.update(
                    global_index as int,
                    local[k as int],
                ));
            }
            k += 1;
        }
        assert(vertex_indices@.take(N as int) =~= vertex_indices@);
        let r = Weights { num, den: local_barycentric.den };
        assert(r.nums() =~= Seq::new(num.len() as nat, |i: int| num[i] as int));
        r
    }
}

/// At a corner of a tetrahedron, the tetrahedron covers the point, and its
/// largest weight is the whole.
proof fn lemma_corner_candidate(origin: Vec3, edge_b: Vec3, edge_c: Vec3, edge_d: Vec3, k: int)
    requires
        tetrahedron_volume(edge_b, edge_c, edge_d) > 0,
        0 <= k < 4,
    ensures
        all_nonnegative(
            tetrahedron_numerators(
                origin,
                edge_b,
                edge_c,
                edge_d,
                tetrahedron_corner(origin, edge_b, edge_c, edge_d, k),
            ),
        ),
        seq_max(
            tetrahedron_numerators(
                origin,
                edge_b,
                edge_c,
                edge_d,
                tetrahedron_corner(origin, edge_b, edge_c, edge_d, k),
            ),
        ) == tetrahedron_volume(edge_b, edge_c, edge_d),
{
    let pt = tetrahedron_corner(origin, edge_b, edge_c, edge_d, k);
    let nums = tetrahedron_numerators(origin, edge_b, edge_c, edge_d, pt);
    lemma_tetrahedron_at_corner(origin, edge_b, edge_c, edge_d, k);
    lemma_seq_max(nums);
    let m = choose|m: int| 0 <= m < nums.len() && nums[m] == seq_max(nums);
    assert(nums[k] <= seq_max(nums));
}

/// Where a tetrahedron covers a point and its largest weight is the whole,
/// the point is one of its corners and that corner has the whole weight.
proof fn lemma_full_weight_is_corner(
    origin: Vec3,
    edge_b: Vec3,
    edge_c: Vec3,
    edge_d: Vec3,
    pt: Vec3,
) -> (m: int)
    requires
        tetrahedron_volume(edge_b, edge_c, edge_d) > 0,
        all_nonnegative(tetrahedron_numerators(origin, edge_b, edge_c, edge_d, pt)),
        seq_max(tetrahedron_numerators(origin, edge_b, edge_c, edge_d, pt)) >= tetrahedron_volume(
            edge_b,
            edge_c,
            edge_d,
        ),
    ensures
        0 <= m < 4,
        is_one_hot(
            tetrahedron_numerators(origin, edge_b, edge_c, edge_d, pt),
            tetrahedron_volume(edge_b, edge_c, edge_d),
            m,
        ),
        pt == tetrahedron_corner(origin, edge_b, edge_c, edge_d, m),
{
    let nums = tetrahedron_numerators(origin, edge_b, edge_c, edge_d, pt);
    let vol = tetrahedron_volume(edge_b, edge_c, edge_d);
    lemma_seq_max(nums);
    let m = choose|m: int| 0 <= m < nums.len() && nums[m] == seq_max(nums);
    assert(nums.len() == 4);
    assert(nums[0] + nums[1] + nums[2] + nums[3] == vol);
    assert(nums[0] >= 0 && nums[1] >= 0 && nums[2] >= 0 && nums[3] >= 0);
    assert(is_one_hot(nums, vol, m));
    lemma_tetrahedron_one_hot_is_corner(origin, edge_b, edge_c, edge_d, pt, m);
    m
}

/// Scattered to distinct places, a whole weight stays whole at its place.
proof fn lemma_scatter_one_hot(local: Seq<int>, indices: Seq<usize>, len: nat, den: int, m: int)
    requires
        local.len() == indices.len(),
        forall|k: int| 0 <= k < indices.len() ==> (#[trigger] indices[k]) < len,
        forall|j: int, k: int|
            0 <= j < k < indices.len() ==> (#[trigger] indices[j]) != (#[trigger] indices[k]),
        is_one_hot(local, den, m),
    ensures
        is_one_hot(scatter(local, indices, len), den, indices[m] as int),
{
    lemma_scatter_keeps(local, indices, len);
    let out = scatter(local, indices, len);
    assert forall|q: int| 0 <= q < out.len() implies out[q] == if q == indices[m] {
        den
    } else {
        0
    } by {
        if exists|j: int| 0 <= j < indices.len() && indices[j] == q {
            let j = choose|j: int| 0 <= j < indices.len() && indices[j] == q;
            assert(out[indices[j] as int] == local[j]);
            if j != m {
                if j < m {
                    assert(indices[j] != indices[m]);
                } else {
                    assert(indices[m] != indices[j]);
                }
            }
        } else {
            assert(forall|j: int| 0 <= j < indices.len() ==> (#[trigger] indices[j]) != q);
        }
    }
}

/// With `FavorDominant`, a palette of distinct colours, and a colour that
/// is a corner of at least one of the tetrahedra, the decomposition of that
/// colour gives it the whole weight.
pub proof fn lemma_favor_dominant_at_palette_colour(
    d: DecomposerBruteforce,
    colors: Seq<Point3>,
    i: int,
)
    requires
        d.wf(),
        d.built_from(colors),
        0 <= i < colors.len(),
        forall|a: int, b: int| 0 <= a < b < colors.len() ==> colors[a] != colors[b],
        exists|e: int, k: int|
            0 <= e < d.tetras.len() && 0 <= k < 4 && #[trigger] d.tetras[e].1[k] == i,
    ensures
        is_one_hot(
            d.decomposition(colors[i]@, DecomposerBruteforceStrategy::FavorDominant).0,
            d.decomposition(colors[i]@, DecomposerBruteforceStrategy::FavorDominant).1,
            i,
        ),
{
    let pt = colors[i]@;
    let cands = d.tetra_candidates(pt);
    let (e, k) = choose|e: int, k: int|
        0 <= e < d.tetras.len() && 0 <= k < 4 && #[trigger] d.tetras[e].1[k] == i;
    // the tetrahedron with the colour as a corner covers it, with the ratio 1
    let te = d.tetras[e].0;
    assert(cands[e].eligible && cands[e].num == te.volume && cands[e].den == te.volume
        && te.volume > 0) by {
        assert(tetra_entry_ok(te, d.tetras[e].1@, colors));
        assert(te.wf());
        assert(pt == tetrahedron_corner(te.origin@, te.edge_b@, te.edge_c@, te.edge_d@, k));
        lemma_corner_candidate(te.origin@, te.edge_b@, te.edge_c@, te.edge_d@, k);
    }
    // so a first best exists, and its ratio is no smaller
    assert forall|j: int| 0 <= j < cands.len() implies (#[trigger] cands[j]).den > 0 by {
        assert(d.tetras[j].0.wf());
    }
    lemma_first_best_exists(cands, true);
    let c = first_best(cands, true).unwrap();
    assert(is_first_best(cands, c, true));
    assert(!ranks_before(cands[e], cands[c], true));
    let tc = d.tetras[c].0;
    let idx_c = d.tetras[c].1@;
    let nums_c = tetrahedron_numerators(tc.origin@, tc.edge_b@, tc.edge_c@, tc.edge_d@, pt);
    let vol_c = tc.volume as int;
    let vol_e = te.volume as int;
    let top = seq_max(nums_c);
    assert(cands[c].num == top && cands[c].den == vol_c && cands[c].eligible);
    assert(tc.wf());
    assert(top >= vol_c) by (nonlinear_arith)
        requires
            !(top * vol_e < vol_e * vol_c),
            vol_e > 0,
    ;
    // its corner with the whole weight is the colour itself
    let m = lemma_full_weight_is_corner(tc.origin@, tc.edge_b@, tc.edge_c@, tc.edge_d@, pt);
    let g = idx_c[m] as int;
    assert(g == i && is_combination(idx_c, d.num_colors as int, 4)) by {
        assert(tetra_entry_ok(tc, idx_c, colors));
        assert(colors[g]@ == tetrahedron_corner(
            tc.origin@,
            tc.edge_b@,
            tc.edge_c@,
            tc.edge_d@,
            m,
        ));
        assert(colors[g] == colors[i]);
        if g < i {
            assert(colors[g] != colors[i]);
        } else if i < g {
            assert(colors[i] != colors[g]);
        }
    }
    lemma_scatter_one_hot(nums_c, idx_c, d.num_colors as nat, vol_c, m);
}

/// With either strategy: where a tetrahedron covers a palette colour, and
/// every tetrahedron that covers it has it as a corner, the decomposition of
/// that colour gives it the whole weight.
pub proof fn lemma_at_palette_colour_covered_by_its_own(
    d: DecomposerBruteforce,
    colors: Seq<Point3>,
    i: int,
    strategy: DecomposerBruteforceStrategy,
)
    requires
        d.wf(),
        d.built_from(colors),
        0 <= i < colors.len(),
        exists|e: int|
            0 <= e < d.tetras.len() && (#[trigger] d.tetra_candidates(colors[i]@)[e]).eligible,
        forall|e: int|
            0 <= e < d.tetras.len() && (#[trigger] d.tetra_candidates(colors[i]@)[e]).eligible
                ==> exists|k: int| 0 <= k < 4 && #[trigger] d.tetras[e].1[k] == i,
    ensures
        is_one_hot(d.decomposition(colors[i]@, strategy).0, d.decomposition(colors[i]@, strategy).1, i),
{
    let pt = colors[i]@;
    let cands = d.tetra_candidates(pt);
    let largest = strategy is FavorDominant;
    assert forall|j: int| 0 <= j < cands.len() implies (#[trigger] cands[j]).den > 0 by {
        assert(d.tetras[j].0.wf());
    }
    lemma_first_best_exists(cands, largest);
    let c = first_best(cands, largest).unwrap();
    assert(is_first_best(cands, c, largest));
    let tc = d.tetras[c].0;
    let idx = d.tetras[c].1@;
    let k = choose|k: int| 0 <= k < 4 && #[trigger] d.tetras[c].1[k] == i;
    assert(tetra_entry_ok(tc, idx, colors));
    assert(pt == tetrahedron_corner(tc.origin@, tc.edge_b@, tc.edge_c@, tc.edge_d@, k));
    lemma_tetrahedron_at_corner(tc.origin@, tc.edge_b@, tc.edge_c@, tc.edge_d@, k);
    assert(tc.wf());
    let nums = tetrahedron_numerators(tc.origin@, tc.edge_b@, tc.edge_c@, tc.edge_d@, pt);
    lemma_scatter_one_hot(nums, idx, d.num_colors as nat, tc.volume as int, k);
}

/// Where a tetrahedron covers the colour, the weights mix the palette
/// back to the colour: the palette colours, each times its weight numerator,
/// add up to the colour times the denominator.
pub proof fn lemma_covered_colour_is_reproduced(
    d: DecomposerBruteforce,
    colors: Seq<Point3>,
    pt: Vec3,
    strategy: DecomposerBruteforceStrategy,
)
    requires
        d.wf(),
        d.built_from(colors),
        first_best(d.tetra_candidates(pt), strategy is FavorDominant) is Some,
    ensures
        mixture(d.decomposition(pt, strategy).0, colors) == pt.scale(
            d.decomposition(pt, strategy).1,
        ),
{
    let cands = d.tetra_candidates(pt);
    let largest = strategy is FavorDominant;
    let c = first_best(cands, largest).unwrap();
    assert(is_first_best(cands, c, largest));
    let tc = d.tetras[c].0;
    let idx = d.tetras[c].1@;
    assert(tetra_entry_ok(tc, idx, colors));
    assert(tc.wf());
    let nums = tetrahedron_numerators(tc.origin@, tc.edge_b@, tc.edge_c@, tc.edge_d@, pt);
    lemma_mixture_scatter(nums, idx, colors, 4);
    assert(idx.take(4) =~= idx);
    lemma_tetrahedron_reproduces(tc.origin@, tc.edge_b@, tc.edge_c@, tc.edge_d@, pt);
    let o = tc.origin@;
    assert(colors[idx[0] as int]@ == o);
    assert(colors[idx[1] as int]@ == o.plus(tc.edge_b@));
    assert(colors[idx[2] as int]@ == o.plus(tc.edge_c@));
    assert(colors[idx[3] as int]@ == o.plus(tc.edge_d@));
    assert(corner_sum(nums, idx, colors, 0) == zero3());
    assert(corner_sum(nums, idx, colors, 1) == zero3().plus(o.scale(nums[0])));
    assert(corner_sum(nums, idx, colors, 2) == corner_sum(nums, idx, colors, 1).plus(
        o.plus(tc.edge_b@).scale(nums[1]),
    ));
    assert(corner_sum(nums, idx, colors, 3) == corner_sum(nums, idx, colors, 2).plus(
        o.plus(tc.edge_c@).scale(nums[2]),
    ));
    assert(corner_sum(nums, idx, colors, 4) == corner_sum(nums, idx, colors, 3).plus(
        o.plus(tc.edge_d@).scale(nums[3]),
    ));
}

} // verus!
