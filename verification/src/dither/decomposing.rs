//! The quantization strategy that decomposes each pixel over a palette:
//! the weights of the decomposition, in fixed point, take up the error
//! carried to the pixel; a noise value picks one palette colour from them;
//! and what the weights hold beyond that colour is the residual.

use vstd::prelude::*;
use crate::barycentric::ratio::{Barycentric, Weights};
use crate::barycentric::vector::{lemma_mul_within, Point3, Vec3};
use crate::decompose::octahedron::{OctahedronDecomposer, OctahedronDecomposerAxisStrategy};
use crate::decomposer_bruteforce::{DecomposerBruteforce, DecomposerBruteforceStrategy};
use crate::dither::canvas::Canvas;
use crate::dither::diffuse::{
    check_kernel_fits, diffuse_dither, is_dithered, kernel_fits, ErrorTerm, ImageReader,
    ImageSize, ImageWriter, PixelStrategy,
};
use crate::dither::diffusion_matrix::DiffusionMatrix;
use crate::noise::{
    clipped, clipped_sum, first_largest, largest_weight, pick_from_barycentric_weights,
    picked_index,
};

verus! {

/// The weight 1 in fixed point: weights carry 16 binary places.
pub const FIXED_ONE: i64 = 0x1_0000;

/// The nearest value that an `i64` can hold.
pub open spec fn saturated(v: int) -> i64 {
    if v > i64::MAX {
        i64::MAX
    } else if v < i64::MIN {
        i64::MIN
    } else {
        v as i64
    }
}

/// `v / d`, rounded towards zero.
pub open spec fn truncated_quotient(v: int, d: int) -> int {
    if v >= 0 {
        v / d
    } else {
        -((-v) / d)
    }
}

/// The weight `num / den` in fixed point.
pub open spec fn fixed_weight(num: int, den: int) -> i64 {
    saturated(truncated_quotient(num * FIXED_ONE, den))
}

/// An entry of an error, times a weight of the kernel.
pub open spec fn scaled_entry(x: i64, factor: usize) -> i64 {
    saturated(x * factor)
}

/// An entry of an error, divided by the divisor of the kernel. Division by
/// zero saturates, with the sign of the entry.
pub open spec fn divided_entry(x: i64, divisor: usize) -> i64 {
    if divisor == 0 {
        if x > 0 {
            i64::MAX
        } else if x < 0 {
            i64::MIN
        } else {
            0
        }
    } else {
        truncated_quotient(x as int, divisor as int) as i64
    }
}

/// The entries of `a`, each with the entry of `b` at its place added where
/// `b` has one.
pub open spec fn sum_entries(a: Seq<i64>, b: Seq<i64>) -> Seq<i64> {
    Seq::new(
        a.len(),
        |i: int|
            if i < b.len() {
                saturated(a[i] + b[i])
            } else {
                a[i]
            },
    )
}

/// The nearest value that an `i64` can hold.
fn saturate(v: i128) -> (r: i64)
    ensures
        r == saturated(v as int),
{
    if v > i64::MAX as i128 {
        i64::MAX
    } else if v < i64::MIN as i128 {
        i64::MIN
    } else {
        v as i64
    }
}

/// `v / d`, rounded towards zero.
fn truncating_divide(v: i128, d: i128) -> (r: i128)
    requires
        d > 0,
        v > i128::MIN,
    ensures
        r == truncated_quotient(v as int, d as int),
        v >= 0 ==> 0 <= r <= v,
        v < 0 ==> v <= r <= 0,
{
    if v >= 0 {
        assert(0 <= v / d <= v) by (nonlinear_arith)
            requires
                v >= 0,
                d > 0,
        ;
        v / d
    } else {
        let m: i128 = -v;
        assert(0 <= m / d <= m) by (nonlinear_arith)
            requires
                m >= 0,
                d > 0,
        ;
        -(m / d)
    }
}

/// The weights in fixed point.
pub fn to_fixed(weights: &Weights) -> (r: Vec<i64>)
    requires
        weights.within(0x1000_0000_0000_0000_0000_0000_0000),
    ensures
        r.len() == weights.num.len(),
        forall|i: int|
            0 <= i < r.len() ==> #[trigger] r[i] == fixed_weight(
                weights.num[i] as int,
                weights.den as int,
            ),
{
    let mut out: Vec<i64> = Vec::new();
    let mut i: usize = 0;
    while i < weights.num.len()
        invariant
            i <= weights.num.len(),
            weights.within(0x1000_0000_0000_0000_0000_0000_0000),
            out.len() == i,
            forall|j: int|
                0 <= j < i ==> #[trigger] out[j] == fixed_weight(
                    weights.num[j] as int,
                    weights.den as int,
                ),
        decreases weights.num.len() - i,
    {
        let n: i128 = weights.num[i];
        assert(-0x1000_0000_0000_0000_0000_0000_0000 <= n <= 0x1000_0000_0000_0000_0000_0000_0000);
        let scaled: i128 = n * 0x1_0000;
        out.push(saturate(truncating_divide(scaled, weights.den)));
        i += 1;
    }
    out
}

/// The error that the strategy leaves at a pixel: a surplus or a want for
/// each palette colour, in fixed point; or nothing yet.
#[derive(Clone, Debug)]
pub struct DecomposedQuantizationError(pub Option<Vec<i64>>);

impl ErrorTerm for DecomposedQuantizationError {
    type Model = Option<Seq<i64>>;

    open spec fn model(&self) -> Option<Seq<i64>> {
        match self.0 {
            Some(v) => Some(v@),
            None => None,
        }
    }

    open spec fn zero_model() -> Option<Seq<i64>> {
        None
    }

    open spec fn scaled_model(m: Option<Seq<i64>>, factor: usize) -> Option<Seq<i64>> {
        match m {
            Some(s) => Some(Seq::new(s.len(), |i: int| scaled_entry(s[i], factor))),
            None => None,
        }
    }

    open spec fn divided_model(m: Option<Seq<i64>>, divisor: usize) -> Option<Seq<i64>> {
        match m {
            Some(s) => Some(Seq::new(s.len(), |i: int| divided_entry(s[i], divisor))),
            None => None,
        }
    }

    open spec fn sum_model(a: Option<Seq<i64>>, b: Option<Seq<i64>>) -> Option<Seq<i64>> {
        match (a, b) {
            (a, None) => a,
            (None, b) => b,
            (Some(x), Some(y)) => Some(sum_entries(x, y)),
        }
    }

    fn zero() -> (r: Self) {
        DecomposedQuantizationError(None)
    }

    fn scaled(&self, factor: usize) -> (r: Self) {
        match &self.0 {
            None => DecomposedQuantizationError(None),
            Some(v) => {
                let mut out: Vec<i64> = Vec::new();
                let mut i: usize = 0;
                while i < v.len()
                    invariant
                        i <= v.len(),
                        out.len() == i,
                        forall|j: int| 0 <= j < i ==> #[trigger] out[j] == scaled_entry(v[j], factor),
                    decreases v.len() - i,
                {
                    proof {
                        lemma_mul_within(
                            v[i as int] as int,
                            factor as int,
                            0x8000_0000_0000_0000,
                            0xffff_ffff_ffff_ffff,
                        );
                    }
                    let product: i128 = (v[i] as i128) * (factor as i128);
                    out.push(saturate(product));
                    i += 1;
                }
                let r = DecomposedQuantizationError(Some(out));
                assert(r.model().unwrap() =~= Self::scaled_model(self.model(), factor).unwrap());
                r
            },
        }
    }

    fn divided(self, divisor: usize) -> (r: Self) {
        match self.0 {
            None => DecomposedQuantizationError(None),
            Some(v) => {
                let mut out: Vec<i64> = Vec::new();
                let mut i: usize = 0;
                while i < v.len()
                    invariant
                        i <= v.len(),
                        out.len() == i,
                        forall|j: int|
                            0 <= j < i ==> #[trigger] out[j] == divided_entry(v[j], divisor),
                    decreases v.len() - i,
                {
                    let x: i64 = v[i];
                    let q: i64 = if divisor == 0 {
                        if x > 0 {
                            i64::MAX
                        } else if x < 0 {
                            i64::MIN
                        } else {
                            0
                        }
                    } else {
                        truncating_divide(x as i128, divisor as i128) as i64
                    };
                    out.push(q);
                    i += 1;
                }
                let r = DecomposedQuantizationError(Some(out));
                assert(r.model().unwrap() =~= Self::divided_model(Some(v@), divisor).unwrap());
                r
            },
        }
    }

    fn accumulate(&mut self, other: Self) {
        let mut mine: Option<Vec<i64>> = None;
        core::mem::swap(&mut self.0, &mut mine);
        self.0 = match (mine, other.0) {
            (a, None) => a,
            (None, b) => b,
            (Some(a), Some(b)) => Some(add_entries(a, &b)),
        };
    }
}

/// The entries of `a`, each with the entry of `b` at its place added.
fn add_entries(a: Vec<i64>, b: &Vec<i64>) -> (r: Vec<i64>)
    ensures
        r@ == sum_entries(a@, b@),
{
    let mut out: Vec<i64> = Vec::new();
    let mut i: usize = 0;
    while i < a.len()
        invariant
            i <= a.len(),
            out.len() == i,
            forall|j: int| 0 <= j < i ==> #[trigger] out[j] == sum_entries(a@, b@)[j],
        decreases a.len() - i,
    {
        let x: i64 = if i < b.len() {
            saturate(a[i] as i128 + b[i] as i128)
        } else {
            a[i]
        };
        out.push(x);
        i += 1;
    }
    assert(out@ =~= sum_entries(a@, b@));
    out
}

/// A decomposer with the strategy that it is asked with.
pub enum PaletteDecomposer {
    /// For six colours that form an octahedron.
    Octahedron(OctahedronDecomposer, OctahedronDecomposerAxisStrategy),
    /// For any palette.
    Bruteforce(DecomposerBruteforce, DecomposerBruteforceStrategy),
}

impl PaletteDecomposer {
    /// The decomposer is well formed.
    pub open spec fn wf(&self) -> bool {
        match self {
            PaletteDecomposer::Octahedron(d, _) => d.wf(),
            PaletteDecomposer::Bruteforce(d, _) => d.wf(),
        }
    }

    /// The number of colours of the palette.
    pub open spec fn num_colors(&self) -> nat {
        match self {
            PaletteDecomposer::Octahedron(_, _) => 6,
            PaletteDecomposer::Bruteforce(d, _) => d.num_colors as nat,
        }
    }

    /// The number of colours of the palette.
    pub fn palette_len(&self) -> (r: usize)
        ensures
            r == self.num_colors(),
    {
        match self {
            PaletteDecomposer::Octahedron(_, _) => 6,
            PaletteDecomposer::Bruteforce(d, _) => d.num_colors,
        }
    }

    /// The weights of `pt` over the palette, as numerators and denominator.
    pub open spec fn decomposition(&self, pt: Vec3) -> (Seq<int>, int) {
        match self {
            PaletteDecomposer::Octahedron(d, s) => d.decomposition(pt, *s),
            PaletteDecomposer::Bruteforce(d, s) => d.decomposition(pt, *s),
        }
    }

    /// The weights of `pt` over the palette.
    pub fn decompose(&self, pt: &Point3) -> (r: Weights)
        requires
            self.wf(),
            pt.wf(),
        ensures
            r.nums() == self.decomposition(pt@).0,
            r.den == self.decomposition(pt@).1,
            r.num.len() == self.num_colors(),
            r.within(0x1000_0000_0000_0000_0000_0000_0000),
    {
        match self {
            PaletteDecomposer::Octahedron(d, s) => {
                let b: Barycentric<6> = d.decompose(pt, *s);
                let mut num: Vec<i128> = Vec::new();
                let mut i: usize = 0;
                while i < 6
                    invariant
                        i <= 6,
                        num.len() == i,
                        forall|j: int| 0 <= j < i ==> #[trigger] num[j] == b.num[j],
                    decreases 6 - i,
                {
                    num.push(b.num[i]);
                    i += 1;
                }
                let r = Weights { num, den: b.den };
                assert(r.nums() =~= b.nums());
                r
            },
            PaletteDecomposer::Bruteforce(d, s) => d.decompose(pt, *s),
        }
    }
}

/// The strategy: a decomposer for the colours that are mixed, and the
/// colours that are put out in their place.
pub struct DecomposingDitherStrategy {
    /// Decomposes a colour over the palette that is mixed.
    pub decomposer: PaletteDecomposer,
    /// The colour that is put out for each colour of the palette that is mixed.
    pub palette: Vec<Point3>,
}

/// The weights of a pixel with the error that was carried to it.
pub open spec fn mixed_weights(fixed: Seq<i64>, error: Option<Seq<i64>>) -> Seq<i64> {
    match error {
        Some(e) => sum_entries(fixed, e),
        None => fixed,
    }
}

/// The weights as wide integers.
pub open spec fn widened(weights: Seq<i64>) -> Seq<i128> {
    Seq::new(weights.len(), |i: int| weights[i] as i128)
}

/// The palette index that is put out: picked by the noise value where
/// there is one, else that of the largest weight.
pub open spec fn chosen_index(mixed: Seq<i64>, noise: Option<u64>) -> int {
    match noise {
        Some(n) => picked_index(widened(mixed), n),
        None => first_largest(widened(mixed)),
    }
}

proof fn lemma_clipped_sum_bound(weights: Seq<i128>)
    requires
        forall|i: int| 0 <= i < weights.len() ==> (#[trigger] weights[i]) <= 0x7fff_ffff_ffff_ffff,
    ensures
        clipped_sum(weights) <= weights.len() * 0x7fff_ffff_ffff_ffff,
    decreases weights.len(),
{
    if weights.len() > 0 {
        lemma_clipped_sum_bound(weights.drop_last());
        assert(clipped(weights.last() as int) <= 0x7fff_ffff_ffff_ffff);
    }
}

impl DecomposingDitherStrategy {
    /// The decomposer is well formed, and the palette has a colour for each
    /// of its weights.
    pub open spec fn wf(&self) -> bool {
        &&& self.decomposer.wf()
        &&& self.palette.len() == self.decomposer.num_colors()
        &&& self.palette.len() > 0
    }

    /// The weights of the colour `pt` in fixed point.
    pub open spec fn fixed_weights(&self, pt: Vec3) -> Seq<i64> {
        let d = self.decomposer.decomposition(pt);
        Seq::new(self.decomposer.num_colors(), |i: int| fixed_weight(d.0[i], d.1))
    }
}

impl PixelStrategy for DecomposingDitherStrategy {
    /// A colour, and the noise value for its pixel if there is one.
    type Source = (Point3, Option<u64>);

    type Target = Point3;

    type QuantizationError = DecomposedQuantizationError;

    open spec fn accepts(&self, source: (Point3, Option<u64>)) -> bool {
        self.wf() && source.0.wf()
    }

    open spec fn spec_quantize(
        &self,
        source: (Point3, Option<u64>),
        error: Option<Seq<i64>>,
    ) -> (Point3, Option<Seq<i64>>) {
        let mixed = mixed_weights(self.fixed_weights(source.0@), error);
        let index = chosen_index(mixed, source.1);
        (
            self.palette[index],
            Some(mixed.update(index, saturated(mixed[index] - FIXED_ONE))),
        )
    }

    fn quantize(&self, source: (Point3, Option<u64>), error: DecomposedQuantizationError) -> (r: (
        Point3,
        DecomposedQuantizationError,
    )) {
        let (color, noise) = source;
        let decomposed = self.decomposer.decompose(&color);
        let fixed = to_fixed(&decomposed);
        assert(fixed@ =~= self.fixed_weights(color@)) by {
            assert forall|i: int| 0 <= i < fixed.len() implies fixed[i] == self.fixed_weights(
                color@,
            )[i] by {
                assert(decomposed.nums()[i] == decomposed.num[i]);
            }
        }
        let mut mixed: Vec<i64> = match error.0 {
            None => fixed,
            Some(e) => add_entries(fixed, &e),
        };
        assert(mixed@ == mixed_weights(self.fixed_weights(color@), error.model()));
        let mut wide: Vec<i128> = Vec::new();
        let mut i: usize = 0;
        while i < mixed.len()
            invariant
                i <= mixed.len(),
                wide.len() == i,
                forall|j: int| 0 <= j < i ==> #[trigger] wide[j] == mixed[j] as i128,
            decreases mixed.len() - i,
        {
            wide.push(mixed[i] as i128);
            i += 1;
        }
        assert(wide@ =~= widened(mixed@));
        let index: usize = match noise {
            Some(n) => {
                proof {
                    lemma_clipped_sum_bound(wide@);
                    assert(wide.len() * 0x7fff_ffff_ffff_ffff <= i128::MAX) by (nonlinear_arith)
                        requires
                            wide.len() <= 0xffff_ffff_ffff_ffff,
                    ;
                }
                pick_from_barycentric_weights(wide.as_slice(), n)
            },
            None => largest_weight(wide.as_slice()),
        };
        let left: i64 = saturate(mixed[index] as i128 - FIXED_ONE as i128);
        mixed.set(index, left);
        (self.palette[index], DecomposedQuantizationError(Some(mixed)))
    }
}

/// Why a canvas was not dithered.
#[derive(Clone, Copy, Debug, PartialEq, Eq, Structural)]
pub enum DitherError {
    /// The output palette has no colour, or not one for each colour of the
    /// palette that is mixed.
    PaletteMismatch,
    /// The kernel reaches further than the machine can count for an image
    /// of this width.
    KernelTooLarge,
    /// A colour of the canvas has a channel beyond the range.
    ColorOutOfRange,
}

/// What stands in the way of dithering the canvas, if anything does.
pub open spec fn refusal<M: DiffusionMatrix>(
    strategy: &DecomposingDitherStrategy,
    matrix: &M,
    canvas: &Canvas,
) -> Option<DitherError> {
    if !(strategy.palette.len() == strategy.decomposer.num_colors() && strategy.palette.len() > 0) {
        Some(DitherError::PaletteMismatch)
    } else if !kernel_fits(matrix.spec_targets(), canvas.spec_width()) {
        Some(DitherError::KernelTooLarge)
    } else if !(forall|x: usize, y: usize|
        x < canvas.spec_width() && y < canvas.spec_height() ==> (#[trigger] canvas.spec_pixel(
            x,
            y,
        )).0.wf()) {
        Some(DitherError::ColorOutOfRange)
    } else {
        None
    }
}

/// Dithers the canvas with the strategy and the kernel, unless something
/// stands in the way; then the canvas is left as it is.
pub fn dither_canvas<M: DiffusionMatrix>(
    strategy: DecomposingDitherStrategy,
    matrix: M,
    canvas: &mut Canvas,
    serpentine: bool,
) -> (r: Result<(), DitherError>)
    requires
        strategy.decomposer.wf(),
    ensures
        match refusal(&strategy, &matrix, old(canvas)) {
            Some(e) => r == Err::<(), DitherError>(e) && *final(canvas) == *old(canvas),
            None => {
                &&& r is Ok
                &&& final(canvas).spec_width() == old(canvas).spec_width()
                &&& final(canvas).spec_height() == old(canvas).spec_height()
                &&& forall|x: usize, y: usize|
                    x < old(canvas).spec_width() && y < old(canvas).spec_height() ==> is_dithered::<
                        DecomposingDitherStrategy,
                        Canvas,
                    >(
                        &strategy,
                        matrix.spec_divisor(),
                        matrix.spec_targets(),
                        old(canvas),
                        serpentine,
                        x,
                        y,
                        #[trigger] final(canvas).spec_output(x, y),
                    )
            },
        },
{
    if !(strategy.palette.len() == strategy.decomposer.palette_len() && strategy.palette.len() > 0) {
        return Err(DitherError::PaletteMismatch);
    }
    if !check_kernel_fits(matrix.targets(), canvas.width()) {
        return Err(DitherError::KernelTooLarge);
    }
    if !canvas.colors_within_range() {
        return Err(DitherError::ColorOutOfRange);
    }
    diffuse_dither(strategy, matrix, canvas, serpentine);
    Ok(())
}

} // verus!
