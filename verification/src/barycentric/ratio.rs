//! Exact rationals: a single ratio, and weight vectors that share one
//! denominator.

use vstd::prelude::*;

verus! {

/// The sum of the entries of `s`.
pub open spec fn seq_sum(s: Seq<int>) -> int
    decreases s.len(),
{
    if s.len() == 0 {
        0
    } else {
        seq_sum(s.drop_last()) + s.last()
    }
}

/// The largest entry of `s`; 0 for the empty sequence.
pub open spec fn seq_max(s: Seq<int>) -> int
    decreases s.len(),
{
    if s.len() == 0 {
        0
    } else if s.len() == 1 {
        s[0]
    } else {
        let m = seq_max(s.drop_last());
        if s.last() > m {
            s.last()
        } else {
            m
        }
    }
}

/// No entry of `s` is negative.
pub open spec fn all_nonnegative(s: Seq<int>) -> bool {
    forall|i: int| 0 <= i < s.len() ==> s[i] >= 0
}

/// Entry `i` is `den` and every other entry is 0: the weights of vertex `i` itself.
pub open spec fn is_one_hot(s: Seq<int>, den: int, i: int) -> bool {
    &&& 0 <= i < s.len()
    &&& forall|j: int| 0 <= j < s.len() ==> s[j] == if j == i { den } else { 0 }
}

/// The sum of two entries, written out.
pub proof fn lemma_seq_sum_2(s: Seq<int>)
    requires
        s.len() == 2,
    ensures
        seq_sum(s) == s[0] + s[1],
{
    let s1 = s.drop_last();
    assert(s1.drop_last().len() == 0);
    assert(seq_sum(s1) == seq_sum(s1.drop_last()) + s1.last());
}

/// The sum of three entries, written out.
pub proof fn lemma_seq_sum_3(s: Seq<int>)
    requires
        s.len() == 3,
    ensures
        seq_sum(s) == s[0] + s[1] + s[2],
{
    lemma_seq_sum_2(s.drop_last());
}

/// The sum of four entries, written out.
pub proof fn lemma_seq_sum_4(s: Seq<int>)
    requires
        s.len() == 4,
    ensures
        seq_sum(s) == s[0] + s[1] + s[2] + s[3],
{
    lemma_seq_sum_3(s.drop_last());
}

/// `seq_max` bounds every entry and is one of them.
/// The sum of six entries, written out.
pub proof fn lemma_seq_sum_6(s: Seq<int>)
    requires
        s.len() == 6,
    ensures
        seq_sum(s) == s[0] + s[1] + s[2] + s[3] + s[4] + s[5],
{
    let t = s.drop_last();
    lemma_seq_sum_4(t.drop_last());
    assert(seq_sum(t) == seq_sum(t.drop_last()) + t.last());
}

/// `seq_max` bounds every entry and is one of them.
pub proof fn lemma_seq_max(s: Seq<int>)
    requires
        s.len() > 0,
    ensures
        forall|i: int| 0 <= i < s.len() ==> s[i] <= seq_max(s),
        exists|i: int| 0 <= i < s.len() && s[i] == seq_max(s),
    decreases s.len(),
{
    if s.len() == 1 {
        assert(s[0] == seq_max(s));
    } else {
        let t = s.drop_last();
        lemma_seq_max(t);
        let k = choose|i: int| 0 <= i < t.len() && t[i] == seq_max(t);
        assert(t[k] == s[k]);
        if s.last() > seq_max(t) {
            assert(s[s.len() - 1] == seq_max(s));
        } else {
            assert(s[k] == seq_max(s));
        }
        assert forall|i: int| 0 <= i < s.len() implies s[i] <= seq_max(s) by {
            if i < t.len() {
                assert(t[i] == s[i]);
            }
        }
    }
}

/// The rational `num / den`, with `den > 0`.
#[derive(Clone, Copy, Debug)]
pub struct Ratio {
    pub num: i128,
    pub den: i128,
}

/// `an / ad < bn / bd`, for positive denominators.
pub open spec fn ratio_lt(an: int, ad: int, bn: int, bd: int) -> bool {
    an * bd < bn * ad
}

/// A product of two bounded numbers that are not negative is bounded by
/// the product of the bounds.
pub proof fn lemma_mul_nonneg_bound(x: int, y: int, a: int, b: int)
    by (nonlinear_arith)
    requires
        0 <= x <= a,
        0 <= y <= b,
    ensures
        0 <= x * y <= a * b,
{
}

impl Ratio {
    /// The numerator is not negative, the denominator is positive, and both
    /// are small enough for `less_than` to multiply them.
    pub open spec fn within_limits(&self) -> bool {
        &&& 0 <= self.num <= 0x1_0000_0000_0000_0000_0000
        &&& 0 < self.den <= 0x4000_0000_0000
    }

    /// Whether `self` is strictly smaller than `other`.
    pub fn less_than(&self, other: &Ratio) -> (r: bool)
        requires
            self.within_limits(),
            other.within_limits(),
        ensures
            r == ratio_lt(self.num as int, self.den as int, other.num as int, other.den as int),
    {
        proof {
            lemma_mul_nonneg_bound(
                self.num as int,
                other.den as int,
                0x1_0000_0000_0000_0000_0000,
                0x4000_0000_0000,
            );
            lemma_mul_nonneg_bound(
                other.num as int,
                self.den as int,
                0x1_0000_0000_0000_0000_0000,
                0x4000_0000_0000,
            );
        }
        self.num * other.den < other.num * self.den
    }
}

/// If `a < b` and `c` is not below `b`, then `a < c`.
pub proof fn lemma_ratio_lt_transitive(an: int, ad: int, bn: int, bd: int, cn: int, cd: int)
    requires
        ad > 0,
        bd > 0,
        cd > 0,
        ratio_lt(an, ad, bn, bd),
        !ratio_lt(cn, cd, bn, bd),
    ensures
        ratio_lt(an, ad, cn, cd),
{
    let x = an * bd;
    let y = bn * ad;
    let u = bn * cd;
    let w = cn * bd;
    assert(x * cd < y * cd) by (nonlinear_arith)
        requires
            x < y,
            cd > 0,
    ;
    assert(u * ad <= w * ad) by (nonlinear_arith)
        requires
            u <= w,
            ad > 0,
    ;
    assert(y * cd == u * ad) by (nonlinear_arith)
        requires
            y == bn * ad,
            u == bn * cd,
    ;
    assert(x * cd == (an * cd) * bd) by (nonlinear_arith)
        requires
            x == an * bd,
    ;
    assert(w * ad == (cn * ad) * bd) by (nonlinear_arith)
        requires
            w == cn * bd,
    ;
    let p = an * cd;
    let q = cn * ad;
    assert(p < q) by (nonlinear_arith)
        requires
            p * bd < q * bd,
            bd > 0,
    ;
}

/// One of a list of simplices that a query point is held against: whether
/// it qualifies, and the ratio `num / den` by which the qualifying ones are ranked.
pub struct Candidate {
    pub eligible: bool,
    pub num: int,
    pub den: int,
}

/// Whether candidate `a` ranks strictly before candidate `b`: by the smaller
/// ratio, or by the larger one where `largest` is set.
pub open spec fn ranks_before(a: Candidate, b: Candidate, largest: bool) -> bool {
    if largest {
        ratio_lt(b.num, b.den, a.num, a.den)
    } else {
        ratio_lt(a.num, a.den, b.num, b.den)
    }
}

/// Candidate `i` qualifies, none that qualifies ranks before it, and it
/// ranks before each one that qualifies and stands earlier in the list.
pub open spec fn is_first_best(cands: Seq<Candidate>, i: int, largest: bool) -> bool {
    &&& 0 <= i < cands.len()
    &&& cands[i].eligible
    &&& forall|j: int|
        0 <= j < cands.len() && (#[trigger] cands[j]).eligible ==> !ranks_before(
            cands[j],
            cands[i],
            largest,
        )
    &&& forall|j: int|
        0 <= j < i && (#[trigger] cands[j]).eligible ==> ranks_before(cands[i], cands[j], largest)
}

/// The candidate that `is_first_best` singles out, if any qualifies.
pub open spec fn first_best(cands: Seq<Candidate>, largest: bool) -> Option<int> {
    if exists|i: int| is_first_best(cands, i, largest) {
        Some(choose|i: int| is_first_best(cands, i, largest))
    } else {
        None
    }
}

/// At most one candidate is the first best.
pub proof fn lemma_first_best_unique(cands: Seq<Candidate>, i: int, j: int, largest: bool)
    requires
        is_first_best(cands, i, largest),
        is_first_best(cands, j, largest),
    ensures
        i == j,
{
    if i < j {
        assert(cands[i].eligible);
        assert(ranks_before(cands[j], cands[i], largest));
    } else if j < i {
        assert(cands[j].eligible);
        assert(ranks_before(cands[i], cands[j], largest));
    }
}

/// Where no candidate qualifies there is no first best.
pub proof fn lemma_first_best_none(cands: Seq<Candidate>, largest: bool)
    requires
        forall|j: int| 0 <= j < cands.len() ==> !(#[trigger] cands[j]).eligible,
    ensures
        first_best(cands, largest) is None,
{
}

/// The first best of a list that grew by one candidate: the newcomer where
/// it qualifies and ranks before the old best (or there was none), else the old best.
pub proof fn lemma_first_best_extend(
    cands: Seq<Candidate>,
    next: Candidate,
    best: Option<int>,
    largest: bool,
)
    requires
        forall|j: int| 0 <= j < cands.len() ==> (#[trigger] cands[j]).den > 0,
        next.den > 0,
        best == first_best(cands, largest),
        best is None ==> forall|j: int| 0 <= j < cands.len() ==> !(#[trigger] cands[j]).eligible,
    ensures
        first_best(cands.push(next), largest) == if next.eligible && (best is None || ranks_before(
            next,
            cands[best.unwrap()],
            largest,
        )) {
            Some(cands.len() as int)
        } else {
            best
        },
        first_best(cands.push(next), largest) is None ==> forall|j: int|
            0 <= j < cands.push(next).len() ==> !(#[trigger] cands.push(next)[j]).eligible,
{
    let ext = cands.push(next);
    let n = cands.len() as int;
    assert(forall|j: int| 0 <= j < n ==> ext[j] == cands[j]);
    assert(ext[n] == next);
    let expected: Option<int> = if next.eligible && (best is None || ranks_before(
        next,
        cands[best.unwrap()],
        largest,
    )) {
        Some(n)
    } else {
        best
    };
    match expected {
        Some(e) => {
            if e == n {
                assert forall|j: int| 0 <= j < ext.len() && (#[trigger] ext[j]).eligible implies !ranks_before(
                    ext[j],
                    ext[n],
                    largest,
                ) by {
                    if j < n {
                        let b = best.unwrap();
                        assert(is_first_best(cands, b, largest));
                        assert(cands[j].eligible);
                        assert(!ranks_before(cands[j], cands[b], largest));
                        lemma_rank_chain(next, cands[b], cands[j], largest);
                        lemma_rank_asymmetric(next, cands[j], largest);
                    } else {
                        lemma_rank_irreflexive(next, largest);
                    }
                }
                assert forall|j: int| 0 <= j < n && (#[trigger] ext[j]).eligible implies ranks_before(
                    ext[n],
                    ext[j],
                    largest,
                ) by {
                    let b = best.unwrap();
                    assert(is_first_best(cands, b, largest));
                    assert(cands[j].eligible);
                    assert(!ranks_before(cands[j], cands[b], largest));
                    lemma_rank_chain(next, cands[b], cands[j], largest);
                }
                assert(is_first_best(ext, n, largest));
            } else {
                assert(is_first_best(cands, e, largest));
                assert forall|j: int| 0 <= j < ext.len() && (#[trigger] ext[j]).eligible implies !ranks_before(
                    ext[j],
                    ext[e],
                    largest,
                ) by {
                    if j < n {
                        assert(cands[j].eligible);
                    }
                }
                assert forall|j: int| 0 <= j < e && (#[trigger] ext[j]).eligible implies ranks_before(
                    ext[e],
                    ext[j],
                    largest,
                ) by {
                    assert(cands[j].eligible);
                }
                assert(is_first_best(ext, e, largest));
            }
            let c = choose|i: int| is_first_best(ext, i, largest);
            lemma_first_best_unique(ext, c, e, largest);
        },
        None => {
            assert forall|j: int| 0 <= j < ext.len() implies !(#[trigger] ext[j]).eligible by {
                if j < n {
                    assert(!cands[j].eligible);
                }
            }
        },
    }
}

/// Among candidates with positive denominators, one is the first best
/// unless none qualifies.
pub proof fn lemma_first_best_exists(cands: Seq<Candidate>, largest: bool)
    requires
        forall|j: int| 0 <= j < cands.len() ==> (#[trigger] cands[j]).den > 0,
    ensures
        match first_best(cands, largest) {
            Some(i) => is_first_best(cands, i, largest),
            None => forall|j: int| 0 <= j < cands.len() ==> !(#[trigger] cands[j]).eligible,
        },
    decreases cands.len(),
{
    if cands.len() == 0 {
        lemma_first_best_none(cands, largest);
    } else {
        let front = cands.drop_last();
        lemma_first_best_exists(front, largest);
        lemma_first_best_extend(front, cands.last(), first_best(front, largest), largest);
        assert(front.push(cands.last()) =~= cands);
        match first_best(cands, largest) {
            Some(i) => {
                if exists|k: int| is_first_best(cands, k, largest) {
                } else {
                    assert(false);
                }
            },
            None => {},
        }
    }
}

proof fn lemma_rank_irreflexive(a: Candidate, largest: bool)
    ensures
        !ranks_before(a, a, largest),
{
}

proof fn lemma_rank_asymmetric(a: Candidate, b: Candidate, largest: bool)
    requires
        ranks_before(a, b, largest),
    ensures
        !ranks_before(b, a, largest),
{
    assert(a.num * b.den == a.num * b.den);
}

/// If `a` ranks before `b`, and `c` does not rank before `b`, then `a` ranks before `c`.
proof fn lemma_rank_chain(a: Candidate, b: Candidate, c: Candidate, largest: bool)
    requires
        a.den > 0,
        b.den > 0,
        c.den > 0,
        ranks_before(a, b, largest),
        !ranks_before(c, b, largest),
    ensures
        ranks_before(a, c, largest),
{
    if largest {
        // b < a and not b < c: negated, -a < -b and not -c < -b
        assert((-a.num) * b.den == -(a.num * b.den)) by (nonlinear_arith);
        assert((-b.num) * a.den == -(b.num * a.den)) by (nonlinear_arith);
        assert((-c.num) * b.den == -(c.num * b.den)) by (nonlinear_arith);
        assert((-b.num) * c.den == -(b.num * c.den)) by (nonlinear_arith);
        lemma_ratio_lt_transitive(-a.num, a.den, -b.num, b.den, -c.num, c.den);
        assert((-a.num) * c.den == -(a.num * c.den)) by (nonlinear_arith);
        assert((-c.num) * a.den == -(c.num * a.den)) by (nonlinear_arith);
    } else {
        lemma_ratio_lt_transitive(a.num, a.den, b.num, b.den, c.num, c.den);
    }
}

/// Barycentric coordinates relative to `N` vertices: numerators over one
/// denominator. Vertex `i` has the weight `num[i] / den`.
#[derive(Clone, Copy, Debug)]
pub struct Barycentric<const N: usize> {
    pub num: [i128; N],
    pub den: i128,
}

impl<const N: usize> Barycentric<N> {
    /// The numerators as mathematical integers.
    pub open spec fn nums(&self) -> Seq<int> {
        Seq::new(N as nat, |i: int| self.num[i] as int)
    }

    /// The denominator and the magnitude of every numerator are at most `bound`.
    pub open spec fn within(&self, bound: int) -> bool {
        &&& 0 < self.den <= bound
        &&& forall|i: int| 0 <= i < N ==> -bound <= #[trigger] self.num[i] <= bound
    }

    /// Whether some weight is negative: the point lies outside the simplex.
    pub fn has_negative(&self) -> (r: bool)
        ensures
            r == !all_nonnegative(self.nums()),
    {
        let mut i: usize = 0;
        while i < N
            invariant
                i <= N,
                forall|j: int| 0 <= j < i ==> self.nums()[j] >= 0,
            decreases N - i,
        {
            if self.num[i] < 0 {
                assert(self.nums()[i as int] < 0);
                return true;
            }
            i += 1;
        }
        false
    }

    /// The largest numerator.
    pub fn max_num(&self) -> (r: i128)
        requires
            N > 0,
        ensures
            r == seq_max(self.nums()),
    {
        let mut m: i128 = self.num[0];
        let mut i: usize = 1;
        assert(self.nums().take(1) =~= seq![self.num[0] as int]);
        while i < N
            invariant
                1 <= i <= N,
                m == seq_max(self.nums().take(i as int)),
            decreases N - i,
        {
            assert(self.nums().take(i + 1).drop_last() =~= self.nums().take(i as int));
            if self.num[i] > m {
                m = self.num[i];
            }
            i += 1;
        }
        assert(self.nums().take(N as int) =~= self.nums());
        m
    }
}

/// A weight for each colour of a palette: numerators over one denominator.
#[derive(Clone, Debug)]
pub struct Weights {
    pub num: Vec<i128>,
    pub den: i128,
}

impl Weights {
    /// The numerators as mathematical integers.
    pub open spec fn nums(&self) -> Seq<int> {
        Seq::new(self.num.len() as nat, |i: int| self.num[i] as int)
    }

    /// The denominator is positive, and it and the magnitude of every
    /// numerator are at most `bound`.
    pub open spec fn within(&self, bound: int) -> bool {
        &&& 0 < self.den <= bound
        &&& forall|i: int| 0 <= i < self.num.len() ==> -bound <= #[trigger] self.num[i] <= bound
    }
}

/// The weights of a simplex written into a vector of `len` zeros: the weight
/// of corner `k` goes to the place `indices[k]`, in the order of the corners,
/// and a corner whose place is not below `len` is left out.
pub open spec fn scatter(local: Seq<int>, indices: Seq<usize>, len: nat) -> Seq<int>
    decreases indices.len(),
{
    if indices.len() == 0 {
        Seq::new(len, |i: int| 0int)
    } else {
        let before = scatter(local, indices.drop_last(), len);
        if indices.last() < len {
            before.update(indices.last() as int, local[indices.len() - 1])
        } else {
            before
        }
    }
}

/// Replacing one entry changes the sum by the difference of the two values.
pub proof fn lemma_seq_sum_update(s: Seq<int>, i: int, v: int)
    requires
        0 <= i < s.len(),
    ensures
        seq_sum(s.update(i, v)) == seq_sum(s) - s[i] + v,
    decreases s.len(),
{
    let u = s.update(i, v);
    if i == s.len() - 1 {
        assert(u.drop_last() =~= s.drop_last());
    } else {
        assert(u.drop_last() =~= s.drop_last().update(i, v));
        lemma_seq_sum_update(s.drop_last(), i, v);
    }
}

/// A sequence of zeros sums to zero.
pub proof fn lemma_seq_sum_zeros(len: nat)
    ensures
        seq_sum(Seq::new(len, |i: int| 0int)) == 0,
    decreases len,
{
    if len > 0 {
        assert(Seq::new(len, |i: int| 0int).drop_last() =~= Seq::new(
            (len - 1) as nat,
            |i: int| 0int,
        ));
        lemma_seq_sum_zeros((len - 1) as nat);
    }
}

/// A prefix that grows by one entry grows in sum by that entry.
pub proof fn lemma_seq_sum_take(s: Seq<int>, m: int)
    requires
        0 <= m < s.len(),
    ensures
        seq_sum(s.take(m + 1)) == seq_sum(s.take(m)) + s[m],
{
    assert(s.take(m + 1).drop_last() =~= s.take(m));
}

/// With distinct places below `len`, scattering the first `m` weights puts
/// each at its place, leaves zero elsewhere, and keeps their sum.
pub proof fn lemma_scatter_prefix(local: Seq<int>, indices: Seq<usize>, len: nat, m: int)
    requires
        local.len() == indices.len(),
        0 <= m <= indices.len(),
        forall|k: int| 0 <= k < indices.len() ==> (#[trigger] indices[k]) < len,
        forall|j: int, k: int|
            0 <= j < k < indices.len() ==> (#[trigger] indices[j]) != (#[trigger] indices[k]),
    ensures
        scatter(local, indices.take(m), len).len() == len,
        forall|k: int|
            0 <= k < m ==> scatter(local, indices.take(m), len)[(#[trigger] indices[k]) as int]
                == local[k],
        forall|g: int|
            0 <= g < len && (forall|k: int| 0 <= k < m ==> (#[trigger] indices[k]) != g)
                ==> #[trigger] scatter(local, indices.take(m), len)[g] == 0,
        seq_sum(scatter(local, indices.take(m), len)) == seq_sum(local.take(m)),
    decreases m,
{
    let taken = indices.take(m);
    if m == 0 {
        lemma_seq_sum_zeros(len);
        assert(local.take(0) =~= Seq::<int>::empty());
    } else {
        lemma_scatter_prefix(local, indices, len, m - 1);
        assert(taken.drop_last() =~= indices.take(m - 1));
        assert(taken.last() == indices[m - 1]);
        let before = scatter(local, indices.take(m - 1), len);
        let g = indices[m - 1] as int;
        assert(scatter(local, taken, len) == before.update(g, local[m - 1]));
        assert(before[g] == 0) by {
            assert forall|k: int| 0 <= k < m - 1 implies (#[trigger] indices[k]) != g by {
                assert(indices[k] != indices[m - 1]);
            }
        }
        lemma_seq_sum_update(before, g, local[m - 1]);
        lemma_seq_sum_take(local, m - 1);
        assert forall|k: int| 0 <= k < m implies scatter(local, taken, len)[(#[trigger] indices[
            k
        ]) as int] == local[k] by {
            if k < m - 1 {
                assert(indices[k] != indices[m - 1]);
            }
        }
    }
}

/// Scattering weights to distinct places keeps their sum, and keeps them
/// from being negative.
pub proof fn lemma_scatter_keeps(local: Seq<int>, indices: Seq<usize>, len: nat)
    requires
        local.len() == indices.len(),
        forall|k: int| 0 <= k < indices.len() ==> (#[trigger] indices[k]) < len,
        forall|j: int, k: int|
            0 <= j < k < indices.len() ==> (#[trigger] indices[j]) != (#[trigger] indices[k]),
    ensures
        scatter(local, indices, len).len() == len,
        seq_sum(scatter(local, indices, len)) == seq_sum(local),
        all_nonnegative(local) ==> all_nonnegative(scatter(local, indices, len)),
        forall|k: int|
            0 <= k < indices.len() ==> scatter(local, indices, len)[(#[trigger] indices[k]) as int]
                == local[k],
        forall|g: int|
            0 <= g < len && (forall|k: int| 0 <= k < indices.len() ==> (#[trigger] indices[k]) != g)
                ==> #[trigger] scatter(local, indices, len)[g] == 0,
{
    let m = indices.len() as int;
    lemma_scatter_prefix(local, indices, len, m);
    assert(indices.take(m) =~= indices);
    assert(local.take(m) =~= local);
    let out = scatter(local, indices, len);
    if all_nonnegative(local) {
        assert forall|g: int| 0 <= g < out.len() implies out[g] >= 0 by {
            if exists|k: int| 0 <= k < m && indices[k] == g {
                let k = choose|k: int| 0 <= k < m && indices[k] == g;
                assert(out[indices[k] as int] == local[k]);
            } else {
                assert(forall|k: int| 0 <= k < m ==> (#[trigger] indices[k]) != g);
            }
        }
    }
}

/// Scattered weights lie between the bounds of the weights, where these
/// have zero between them.
pub proof fn lemma_scatter_bounded(
    local: Seq<int>,
    indices: Seq<usize>,
    len: nat,
    low: int,
    high: int,
)
    requires
        local.len() == indices.len(),
        forall|k: int| 0 <= k < indices.len() ==> (#[trigger] indices[k]) < len,
        forall|j: int, k: int|
            0 <= j < k < indices.len() ==> (#[trigger] indices[j]) != (#[trigger] indices[k]),
        forall|k: int| 0 <= k < local.len() ==> low <= #[trigger] local[k] <= high,
        low <= 0 <= high,
    ensures
        forall|g: int| 0 <= g < len ==> low <= #[trigger] scatter(local, indices, len)[g] <= high,
{
    lemma_scatter_keeps(local, indices, len);
    let out = scatter(local, indices, len);
    assert forall|g: int| 0 <= g < len implies low <= #[trigger] out[g] <= high by {
        if exists|k: int| 0 <= k < indices.len() && indices[k] == g {
            let k = choose|k: int| 0 <= k < indices.len() && indices[k] == g;
            assert(out[indices[k] as int] == local[k]);
        } else {
            assert(forall|k: int| 0 <= k < indices.len() ==> (#[trigger] indices[k]) != g);
        }
    }
}

} // verus!
