//! The colour that weights stand for: the sum of the palette colours, each
//! times its weight numerator.

use vstd::prelude::*;
use crate::barycentric::ratio::scatter;
use crate::barycentric::vector::{Point3, Vec3};

verus! {

/// The zero vector.
pub open spec fn zero3() -> Vec3 {
    Vec3 { x: 0, y: 0, z: 0 }
}

/// The sum of the colours, each times the numerator at its place.
pub open spec fn mixture(nums: Seq<int>, colors: Seq<Point3>) -> Vec3
    decreases nums.len(),
{
    if nums.len() == 0 {
        zero3()
    } else {
        mixture(nums.drop_last(), colors).plus(colors[nums.len() - 1]@.scale(nums.last()))
    }
}

/// The sum of the first `m` corners of a simplex, each times its weight
/// numerator: corner `k` is the colour at the place `indices[k]`.
pub open spec fn corner_sum(local: Seq<int>, indices: Seq<usize>, colors: Seq<Point3>, m: int) -> Vec3
    decreases m,
{
    if m <= 0 {
        zero3()
    } else {
        corner_sum(local, indices, colors, m - 1).plus(
            colors[indices[m - 1] as int]@.scale(local[m - 1]),
        )
    }
}

proof fn lemma_scale_difference(c: Vec3, old: int, new: int)
    ensures
        c.scale(new) == c.scale(old).plus(c.scale(new - old)),
{
    assert(c.x * new == c.x * old + c.x * (new - old)) by (nonlinear_arith);
    assert(c.y * new == c.y * old + c.y * (new - old)) by (nonlinear_arith);
    assert(c.z * new == c.z * old + c.z * (new - old)) by (nonlinear_arith);
}

/// Replacing one numerator changes the mixture by the colour at its place,
/// times the difference.
pub proof fn lemma_mixture_update(nums: Seq<int>, colors: Seq<Point3>, g: int, v: int)
    requires
        0 <= g < nums.len(),
    ensures
        mixture(nums.update(g, v), colors) == mixture(nums, colors).plus(
            colors[g]@.scale(v - nums[g]),
        ),
    decreases nums.len(),
{
    let changed = nums.update(g, v);
    if g == nums.len() - 1 {
        assert(changed.drop_last() =~= nums.drop_last());
        lemma_scale_difference(colors[g]@, nums[g], v);
    } else {
        assert(changed.drop_last() =~= nums.drop_last().update(g, v));
        lemma_mixture_update(nums.drop_last(), colors, g, v);
    }
}

/// Numerators that are all zero mix to the zero vector.
pub proof fn lemma_mixture_zeros(len: nat, colors: Seq<Point3>)
    ensures
        mixture(Seq::new(len, |i: int| 0int), colors) == zero3(),
    decreases len,
{
    if len > 0 {
        let zeros = Seq::new(len, |i: int| 0int);
        assert(zeros.drop_last() =~= Seq::new((len - 1) as nat, |i: int| 0int));
        lemma_mixture_zeros((len - 1) as nat, colors);
        let c = colors[len - 1]@;
        assert(c.x * 0 == 0 && c.y * 0 == 0 && c.z * 0 == 0);
    }
}

/// Scattered to distinct places of the palette, the weights of a simplex
/// mix the palette to what they mix the corners of the simplex to.
pub proof fn lemma_mixture_scatter(
    local: Seq<int>,
    indices: Seq<usize>,
    colors: Seq<Point3>,
    m: int,
)
    requires
        local.len() == indices.len(),
        0 <= m <= indices.len(),
        forall|k: int| 0 <= k < indices.len() ==> (#[trigger] indices[k]) < colors.len(),
        forall|j: int, k: int|
            0 <= j < k < indices.len() ==> (#[trigger] indices[j]) != (#[trigger] indices[k]),
    ensures
        mixture(scatter(local, indices.take(m), colors.len()), colors) == corner_sum(
            local,
            indices,
            colors,
            m,
        ),
    decreases m,
{
    let len = colors.len();
    if m == 0 {
        lemma_mixture_zeros(len, colors);
        assert(indices.take(0) =~= Seq::<usize>::empty());
    } else {
        lemma_mixture_scatter(local, indices, colors, m - 1);
        crate::barycentric::ratio::lemma_scatter_prefix(local, indices, len, m - 1);
        let taken = indices.take(m);
        assert(taken.drop_last() =~= indices.take(m - 1));
        assert(taken.last() == indices[m - 1]);
        let before = scatter(local, indices.take(m - 1), len);
        let g = indices[m - 1] as int;
        assert(scatter(local, taken, len) == before.update(g, local[m - 1]));
        assert(before[g] == 0) by {
            assert forall|k: int| 0 <= k < m - 1 implies (#[trigger] indices[k]) != g by {
                assert(indices[k] != indices[m - 1]);
            }
        }
        lemma_mixture_update(before, colors, g, local[m - 1]);
    }
}

/// The mixture of six numerators, written out.
pub proof fn lemma_mixture_6(nums: Seq<int>, colors: Seq<Point3>)
    requires
        nums.len() == 6,
    ensures
        mixture(nums, colors) == colors[0]@.scale(nums[0]).plus(colors[1]@.scale(nums[1])).plus(
            colors[2]@.scale(nums[2]),
        ).plus(colors[3]@.scale(nums[3])).plus(colors[4]@.scale(nums[4])).plus(
            colors[5]@.scale(nums[5]),
        ),
{
    let n5 = nums.drop_last();
    let n4 = n5.drop_last();
    let n3 = n4.drop_last();
    let n2 = n3.drop_last();
    let n1 = n2.drop_last();
    let n0 = n1.drop_last();
    assert(n0.len() == 0);
    assert(mixture(n0, colors) == zero3());
    assert(mixture(n1, colors) == mixture(n0, colors).plus(colors[0]@.scale(n1.last())));
    assert(mixture(n2, colors) == mixture(n1, colors).plus(colors[1]@.scale(n2.last())));
    assert(mixture(n3, colors) == mixture(n2, colors).plus(colors[2]@.scale(n3.last())));
    assert(mixture(n4, colors) == mixture(n3, colors).plus(colors[3]@.scale(n4.last())));
    assert(mixture(n5, colors) == mixture(n4, colors).plus(colors[4]@.scale(n5.last())));
    assert(mixture(nums, colors) == mixture(n5, colors).plus(colors[5]@.scale(nums.last())));
}

/// The colours at the given palette indices.
pub open spec fn colors_at(colors: Seq<Point3>, order: Seq<usize>) -> Seq<Point3> {
    Seq::new(order.len(), |i: int| colors[order[i] as int])
}

/// The sum over the corners of a simplex is the mixture of the colours at
/// its corners.
pub proof fn lemma_corner_sum_is_mixture(
    local: Seq<int>,
    indices: Seq<usize>,
    colors: Seq<Point3>,
    m: int,
)
    requires
        local.len() == indices.len(),
        0 <= m <= indices.len(),
    ensures
        corner_sum(local, indices, colors, m) == mixture(local.take(m), colors_at(colors, indices)),
    decreases m,
{
    if m > 0 {
        lemma_corner_sum_is_mixture(local, indices, colors, m - 1);
        assert(local.take(m).drop_last() =~= local.take(m - 1));
    }
}

} // verus!
