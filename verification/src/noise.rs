//! Noise for dithering, as fixed-point fractions, and the choice of a
//! palette index from weights and a noise value.
//!
//! A noise value is a `u64` that stands for itself over 2^64: a fraction in
//! the half-open interval from 0 to 1.

use vstd::prelude::*;

verus! {

/// 4 to the power `n`.
pub open spec fn pow4(n: nat) -> nat
    decreases n,
{
    if n == 0 {
        1
    } else {
        4 * pow4((n - 1) as nat)
    }
}

/// The entry of the base matrix `[[0, 2], [3, 1]]` that the lowest bits of
/// `y` and `x` select.
pub open spec fn bayer_base(x: nat, y: nat) -> nat {
    if y % 2 == 0 {
        if x % 2 == 0 {
            0
        } else {
            2
        }
    } else {
        if x % 2 == 0 {
            3
        } else {
            1
        }
    }
}

/// The ordered-dither threshold of `(x, y)` from at most `depth` levels of
/// the recursive tiling, over 4 to the power `bits`: level `k` adds the
/// entry of the base matrix for bit `k` of the coordinates, divided by 4 to
/// the power `k + 1`. Levels below the resolution of `bits` are cut off.
pub open spec fn bayer_fixed(x: nat, y: nat, depth: nat, bits: nat) -> nat
    decreases bits,
{
    if bits == 0 || depth == 0 {
        0
    } else {
        bayer_base(x, y) * pow4((bits - 1) as nat) + bayer_fixed(
            x / 2,
            y / 2,
            (depth - 1) as nat,
            (bits - 1) as nat,
        )
    }
}

proof fn lemma_pow4_values()
    ensures
        pow4(31) == 0x4000_0000_0000_0000,
        pow4(32) == 0x1_0000_0000_0000_0000,
{
    reveal_with_fuel(pow4, 2);
    assert(pow4(0) == 1);
    assert(pow4(1) == 4);
    assert(pow4(2) == 16);
    assert(pow4(3) == 64);
    assert(pow4(4) == 256);
    assert(pow4(5) == 1024);
    assert(pow4(6) == 4096);
    assert(pow4(7) == 16384);
    assert(pow4(8) == 65536);
    assert(pow4(9) == 262144);
    assert(pow4(10) == 1048576);
    assert(pow4(11) == 4194304);
    assert(pow4(12) == 16777216);
    assert(pow4(13) == 67108864);
    assert(pow4(14) == 268435456);
    assert(pow4(15) == 1073741824);
    assert(pow4(16) == 4294967296);
    assert(pow4(17) == 17179869184);
    assert(pow4(18) == 68719476736);
    assert(pow4(19) == 274877906944);
    assert(pow4(20) == 1099511627776);
    assert(pow4(21) == 4398046511104);
    assert(pow4(22) == 17592186044416);
    assert(pow4(23) == 70368744177664);
    assert(pow4(24) == 281474976710656);
    assert(pow4(25) == 1125899906842624);
    assert(pow4(26) == 4503599627370496);
    assert(pow4(27) == 18014398509481984);
    assert(pow4(28) == 72057594037927936);
    assert(pow4(29) == 288230376151711744);
    assert(pow4(30) == 1152921504606846976);
    assert(pow4(31) == 4611686018427387904);
    assert(pow4(32) == 18446744073709551616);
}

/// At the origin every level adds nothing.
pub proof fn lemma_bayer_origin(depth: nat, bits: nat)
    ensures
        bayer_fixed(0, 0, depth, bits) == 0,
    decreases bits,
{
    if bits > 0 && depth > 0 {
        lemma_bayer_origin((depth - 1) as nat, (bits - 1) as nat);
        assert(bayer_base(0, 0) == 0);
        assert(0 * pow4((bits - 1) as nat) == 0);
    }
}

/// The rank of a cell of the four by four matrix that the base matrix tiles
/// to: the entry for the low bits counts four times, the entry for the next
/// bits once.
pub open spec fn bayer_rank_16(x: nat, y: nat) -> nat {
    4 * bayer_base(x, y) + bayer_base(x / 2, y / 2)
}

/// On the first four columns and rows the threshold is the rank of the cell
/// in the four by four matrix, in sixteenths.
pub proof fn lemma_bayer_four_by_four(x: nat, y: nat)
    requires
        x < 4,
        y < 4,
    ensures
        bayer_fixed(x, y, 32, 32) == bayer_rank_16(x, y) * pow4(30),
        bayer_rank_16(x, y) < 16,
        pow4(30) * 16 == 0x1_0000_0000_0000_0000,
{
    lemma_pow4_values();
    assert(pow4(31) == 4 * pow4(30));
    assert(bayer_fixed(x, y, 32, 32) == bayer_base(x, y) * pow4(31) + bayer_fixed(
        x / 2,
        y / 2,
        31,
        31,
    ));
    assert(bayer_fixed(x / 2, y / 2, 31, 31) == bayer_base(x / 2, y / 2) * pow4(30) + bayer_fixed(
        x / 2 / 2,
        y / 2 / 2,
        30,
        30,
    ));
    assert(x / 2 / 2 == 0 && y / 2 / 2 == 0);
    lemma_bayer_origin(30, 30);
    let p = pow4(30) as int;
    let a = bayer_base(x, y) as int;
    let b = bayer_base(x / 2, y / 2) as int;
    assert(a * (4 * p) + b * p == (4 * a + b) * p) by (nonlinear_arith);
}

/// The entry of the base matrix for the lowest bits of the coordinates.
fn base_entry(x: usize, y: usize) -> (r: u64)
    ensures
        r == bayer_base(x as nat, y as nat),
{
    if y % 2 == 0 {
        if x % 2 == 0 {
            0
        } else {
            2
        }
    } else {
        if x % 2 == 0 {
            3
        } else {
            1
        }
    }
}

proof fn lemma_level_fits(ret: int, entry: int, p: int)
    by (nonlinear_arith)
    requires
        0 <= entry <= 3,
        0 <= p,
        0 <= ret,
        ret + 4 * p <= 0x1_0000_0000_0000_0000,
    ensures
        0 <= p * entry,
        ret + p * entry + p <= 0x1_0000_0000_0000_0000,
        p * entry == entry * p,
{
}

/// The ordered-dither threshold of the pixel `(x, y)` at unlimited depth,
/// to 64 binary places.
pub fn bayer_inf(x: usize, y: usize) -> (r: u64)
    ensures
        r == bayer_fixed(x as nat, y as nat, 32, 32),
{
    bayer(x, y, 32)
}

/// The ordered-dither threshold of the pixel `(x, y)` from at most
/// `max_depth` levels: that of a tiled matrix with a side of 2 to the power
/// `max_depth`, to 64 binary places.
pub fn bayer(x: usize, y: usize, max_depth: usize) -> (r: u64)
    ensures
        r == bayer_fixed(x as nat, y as nat, max_depth as nat, 32),
{
    let ghost total = bayer_fixed(x as nat, y as nat, max_depth as nat, 32);
    let mut ret: u64 = 0;
    let mut x = x;
    let mut y = y;
    let mut max_depth = max_depth;
    let mut bits: u32 = 32;
    let mut multiplier: u64 = 0x4000_0000_0000_0000;
    proof {
        lemma_pow4_values();
    }
    while max_depth > 0 && (x > 0 || y > 0) && bits > 0
        invariant
            bits <= 32,
            bits > 0 ==> multiplier == pow4((bits - 1) as nat),
            ret + pow4(bits as nat) <= 0x1_0000_0000_0000_0000,
            ret + bayer_fixed(x as nat, y as nat, max_depth as nat, bits as nat) == total,
        decreases bits,
    {
        let entry = base_entry(x, y);
        proof {
            lemma_level_fits(ret as int, entry as int, multiplier as int);
        }
        ret = ret + multiplier * entry;
        x /= 2;
        y /= 2;
        max_depth -= 1;
        bits -= 1;
        multiplier = multiplier / 4;
    }
    proof {
        if max_depth > 0 && bits > 0 {
            lemma_bayer_origin(max_depth as nat, bits as nat);
        }
    }
    ret
}

/// The numerator, over 10^15, of the interleaved gradient noise of
/// `(x, y)`: `fract(52.9829189 * fract(0.06711056 * x + 0.00583715 * y))`,
/// in exact decimal arithmetic.
pub open spec fn ign_numerator(x: nat, y: nat) -> nat {
    (((6711056 * x + 583715 * y) % 100_000_000) * 529829189) % 1_000_000_000_000_000
}

/// The interleaved gradient noise of the pixel `(x, y)`, rounded down to
/// 64 binary places.
pub fn interleaved_gradient_noise(x: usize, y: usize) -> (r: u64)
    ensures
        r == (ign_numerator(x as nat, y as nat) * 0x1_0000_0000_0000_0000)
            / 1_000_000_000_000_000,
{
    let inner: u128 = (6711056 * (x as u128) + 583715 * (y as u128)) % 100_000_000;
    let product: u128 = (inner * 529829189) % 1_000_000_000_000_000;
    let scaled: u128 = product * 0x1_0000_0000_0000_0000 / 1_000_000_000_000_000;
    assert(scaled < 0x1_0000_0000_0000_0000);
    scaled as u64
}

/// A weight, or 0 in place of a negative one.
pub open spec fn clipped(w: int) -> int {
    if w < 0 {
        0
    } else {
        w
    }
}

/// The sum of the clipped weights.
pub open spec fn clipped_sum(weights: Seq<i128>) -> int
    decreases weights.len(),
{
    if weights.len() == 0 {
        0
    } else {
        clipped_sum(weights.drop_last()) + clipped(weights.last() as int)
    }
}

/// The noise value times the sum of the clipped weights, rounded down: the
/// mark that the running sum of the clipped weights has to exceed.
pub open spec fn noise_mark(weights: Seq<i128>, noise: u64) -> int {
    (noise * clipped_sum(weights)) / 0x1_0000_0000_0000_0000
}

/// `k` is the index of the largest weight, the first of them where several
/// are equal.
pub open spec fn is_first_largest(weights: Seq<i128>, k: int) -> bool {
    &&& 0 <= k < weights.len()
    &&& forall|j: int| 0 <= j < weights.len() ==> (#[trigger] weights[j]) <= weights[k]
    &&& forall|j: int| 0 <= j < k ==> (#[trigger] weights[j]) < weights[k]
}

/// `k` is the index that the noise value selects: the first at which the
/// running sum of the clipped weights exceeds the mark. Where no weight is
/// positive it is the index of the largest weight, the first of these.
pub open spec fn is_picked(weights: Seq<i128>, noise: u64, k: int) -> bool {
    if clipped_sum(weights) > 0 {
        &&& 0 <= k < weights.len()
        &&& noise_mark(weights, noise) < clipped_sum(weights.take(k + 1))
        &&& forall|j: int|
            0 <= j < k ==> noise_mark(weights, noise) >= clipped_sum(#[trigger] weights.take(j + 1))
    } else {
        is_first_largest(weights, k)
    }
}

/// The index of the first largest weight.
pub open spec fn first_largest(weights: Seq<i128>) -> int {
    choose|k: int| is_first_largest(weights, k)
}

/// The index that the noise value selects.
pub open spec fn picked_index(weights: Seq<i128>, noise: u64) -> int {
    choose|k: int| is_picked(weights, noise, k)
}

/// Only one index is that of the first largest weight.
pub proof fn lemma_first_largest_unique(weights: Seq<i128>, a: int, b: int)
    requires
        is_first_largest(weights, a),
        is_first_largest(weights, b),
    ensures
        a == b,
{
    if a < b {
        assert(weights[a] < weights[b]);
    } else if b < a {
        assert(weights[b] < weights[a]);
    }
}

/// A noise value selects only one index.
pub proof fn lemma_picked_unique(weights: Seq<i128>, noise: u64, a: int, b: int)
    requires
        is_picked(weights, noise, a),
        is_picked(weights, noise, b),
    ensures
        a == b,
{
    if clipped_sum(weights) > 0 {
        if a < b {
            assert(noise_mark(weights, noise) >= clipped_sum(weights.take(a + 1)));
        } else if b < a {
            assert(noise_mark(weights, noise) >= clipped_sum(weights.take(b + 1)));
        }
    } else {
        lemma_first_largest_unique(weights, a, b);
    }
}

/// The index of the largest weight, the first of them where several are equal.
pub fn largest_weight(weights: &[i128]) -> (r: usize)
    requires
        weights.len() > 0,
    ensures
        is_first_largest(weights@, r as int),
        r == first_largest(weights@),
{
    let n = weights.len();
    let mut best: usize = 0;
    let mut i: usize = 1;
    while i < n
        invariant
            1 <= i <= n,
            n == weights.len(),
            best < i,
            forall|j: int| 0 <= j < i ==> (#[trigger] weights[j]) <= weights[best as int],
            forall|j: int| 0 <= j < best ==> (#[trigger] weights[j]) < weights[best as int],
        decreases n - i,
    {
        if weights[i] > weights[best] {
            best = i;
        }
        i += 1;
    }
    proof {
        lemma_first_largest_unique(weights@, best as int, first_largest(weights@));
    }
    best
}

/// The clipped sum of a prefix is at most that of the whole, and never negative.
pub proof fn lemma_clipped_sum_prefix(weights: Seq<i128>, k: int)
    requires
        0 <= k <= weights.len(),
    ensures
        0 <= clipped_sum(weights.take(k)) <= clipped_sum(weights),
    decreases weights.len() - k,
{
    if k == weights.len() {
        assert(weights.take(k) =~= weights);
        lemma_clipped_sum_nonnegative(weights);
    } else {
        lemma_clipped_sum_prefix(weights, k + 1);
        assert(weights.take(k + 1).drop_last() =~= weights.take(k));
        lemma_clipped_sum_nonnegative(weights.take(k));
    }
}

/// The sum of the clipped weights is not negative.
pub proof fn lemma_clipped_sum_nonnegative(weights: Seq<i128>)
    ensures
        clipped_sum(weights) >= 0,
    decreases weights.len(),
{
    if weights.len() > 0 {
        lemma_clipped_sum_nonnegative(weights.drop_last());
    }
}

/// The palette index that a noise value selects from weights: the weights
/// are clipped at 0, the noise value is scaled by their sum, and the indices
/// are walked until the running sum of the clipped weights exceeds it.
/// With weights that hold nothing positive, the largest weight is taken.
pub fn pick_from_barycentric_weights(weights: &[i128], noise: u64) -> (r: usize)
    requires
        weights.len() > 0,
        clipped_sum(weights@) <= i128::MAX,
    ensures
        is_picked(weights@, noise, r as int),
        r == picked_index(weights@, noise),
{
    let n = weights.len();
    let mut sum: u128 = 0;
    let mut i: usize = 0;
    assert(weights@.take(0) =~= Seq::empty());
    while i < n
        invariant
            i <= n,
            n == weights.len(),
            clipped_sum(weights@) <= i128::MAX,
            sum == clipped_sum(weights@.take(i as int)),
        decreases n - i,
    {
        proof {
            lemma_clipped_sum_prefix(weights@, i + 1);
            assert(weights@.take(i + 1).drop_last() =~= weights@.take(i as int));
        }
        if weights[i] > 0 {
            sum = sum + weights[i] as u128;
        }
        i += 1;
    }
    assert(weights@.take(n as int) =~= weights@);
    if sum == 0 {
        let best = largest_weight(weights);
        proof {
            lemma_picked_unique(weights@, noise, best as int, picked_index(weights@, noise));
        }
        return best;
    }
    // The product of the noise value and the sum has up to 191 bits; the
    // two halves of the sum are multiplied apart.
    let high: u128 = sum / 0x1_0000_0000_0000_0000;
    let low: u128 = sum % 0x1_0000_0000_0000_0000;
    proof {
        assert(0 <= (noise as int) * (high as int) <= 0xffff_ffff_ffff_ffff * 0x7fff_ffff_ffff_ffff)
            by (nonlinear_arith)
            requires
                0 <= noise <= 0xffff_ffff_ffff_ffff,
                0 <= high <= 0x7fff_ffff_ffff_ffff,
        ;
        assert(0 <= (noise as int) * (low as int) <= 0xffff_ffff_ffff_ffff * 0xffff_ffff_ffff_ffff)
            by (nonlinear_arith)
            requires
                0 <= noise <= 0xffff_ffff_ffff_ffff,
                0 <= low <= 0xffff_ffff_ffff_ffff,
        ;
    }
    let mark: u128 = (noise as u128) * high + ((noise as u128) * low) / 0x1_0000_0000_0000_0000;
    proof {
        let a = (noise as int) * (high as int);
        let b = (noise as int) * (low as int);
        assert((noise as int) * (sum as int) == a * 0x1_0000_0000_0000_0000 + b) by (nonlinear_arith)
            requires
                sum == high * 0x1_0000_0000_0000_0000 + low,
                a == (noise as int) * (high as int),
                b == (noise as int) * (low as int),
        ;
        assert(mark == noise_mark(weights@, noise));
        assert(mark < sum) by {
            assert((noise as int) * (sum as int) < 0x1_0000_0000_0000_0000 * (sum as int))
                by (nonlinear_arith)
                requires
                    0 <= noise < 0x1_0000_0000_0000_0000,
                    sum > 0,
            ;
        }
    }
    let mut index: usize = 0;
    let mut running: u128 = if weights[0] > 0 {
        weights[0] as u128
    } else {
        0
    };
    proof {
        assert(weights@.take(1).drop_last() =~= Seq::<i128>::empty());
        assert(weights@.take(1).last() == weights[0]);
        assert(clipped_sum(weights@.take(1)) == clipped_sum(Seq::<i128>::empty()) + clipped(
            weights[0] as int,
        ));
        lemma_clipped_sum_prefix(weights@, 1);
    }
    while index + 1 < n && running <= mark
        invariant
            index < n,
            n == weights.len(),
            clipped_sum(weights@) <= i128::MAX,
            sum == clipped_sum(weights@),
            mark == noise_mark(weights@, noise),
            mark < sum,
            running == clipped_sum(weights@.take(index + 1)),
            forall|j: int| 0 <= j < index ==> mark >= clipped_sum(#[trigger] weights@.take(j + 1)),
        decreases n - index,
    {
        index += 1;
        proof {
            lemma_clipped_sum_prefix(weights@, index + 1);
            assert(weights@.take(index + 1).drop_last() =~= weights@.take(index as int));
        }
        if weights[index] > 0 {
            running = running + weights[index] as u128;
        }
    }
    proof {
        if index + 1 == n {
            assert(weights@.take(n as int) =~= weights@);
        }
        lemma_picked_unique(weights@, noise, index as int, picked_index(weights@, noise));
    }
    index
}

} // verus!
