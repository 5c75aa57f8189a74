//! The diffusion engine: it walks an image row by row, quantizes each pixel
//! with the error that earlier pixels left for it, and hands the residual on
//! to the pixels that the kernel names.

use vstd::prelude::*;
use crate::dither::diffusion_matrix::DiffusionMatrix;

verus! {

/// What the engine asks of a quantization error: a neutral value, scaling
/// by an integer weight, division by an integer divisor, and accumulation.
pub trait ErrorTerm: Sized {
    /// The mathematical value that an error stands for.
    type Model;

    /// The value that this error stands for.
    spec fn model(&self) -> Self::Model;

    /// The neutral value.
    spec fn zero_model() -> Self::Model;

    /// A value times a weight of the kernel.
    spec fn scaled_model(m: Self::Model, factor: usize) -> Self::Model;

    /// A value divided by the divisor of the kernel.
    spec fn divided_model(m: Self::Model, divisor: usize) -> Self::Model;

    /// The sum of two values.
    spec fn sum_model(a: Self::Model, b: Self::Model) -> Self::Model;

    /// The neutral error.
    fn zero() -> (r: Self)
        ensures
            r.model() == Self::zero_model(),
    ;

    /// A copy of this error, times `factor`.
    fn scaled(&self, factor: usize) -> (r: Self)
        ensures
            r.model() == Self::scaled_model(self.model(), factor),
    ;

    /// This error, divided by `divisor`.
    fn divided(self, divisor: usize) -> (r: Self)
        ensures
            r.model() == Self::divided_model(self.model(), divisor),
    ;

    /// Adds `other` to this error.
    fn accumulate(&mut self, other: Self)
        ensures
            final(self).model() == Self::sum_model(old(self).model(), other.model()),
    ;
}

/// How one pixel is quantized: from the source pixel and the error carried
/// to it, the output pixel and the residual that is left.
pub trait PixelStrategy {
    /// What is read from a pixel.
    type Source;

    /// What is written to a pixel.
    type Target;

    /// What is left of a pixel and handed on to others.
    type QuantizationError: ErrorTerm;

    /// Whether the strategy can quantize this source pixel.
    spec fn accepts(&self, source: Self::Source) -> bool;

    /// The output pixel and the residual for a source pixel and the error
    /// carried to it.
    spec fn spec_quantize(
        &self,
        source: Self::Source,
        error: <Self::QuantizationError as ErrorTerm>::Model,
    ) -> (Self::Target, <Self::QuantizationError as ErrorTerm>::Model);

    /// Quantizes one pixel.
    fn quantize(&self, source: Self::Source, error: Self::QuantizationError) -> (r: (
        Self::Target,
        Self::QuantizationError,
    ))
        requires
            self.accepts(source),
        ensures
            r.0 == self.spec_quantize(source, error.model()).0,
            r.1.model() == self.spec_quantize(source, error.model()).1,
    ;
}

/// The size of an image.
pub trait ImageSize {
    /// The number of columns.
    spec fn spec_width(&self) -> usize;

    /// The number of rows.
    spec fn spec_height(&self) -> usize;

    /// `later` is this image after a write to the pixel `(x, y)`: no other
    /// pixel differs.
    spec fn unchanged_except(&self, later: &Self, x: usize, y: usize) -> bool;

    /// The number of columns.
    fn width(&self) -> (w: usize)
        ensures
            w == self.spec_width(),
    ;

    /// The number of rows.
    fn height(&self) -> (h: usize)
        ensures
            h == self.spec_height(),
    ;
}

/// An image whose pixels can be read as values of `T`.
pub trait ImageReader<T>: ImageSize {
    /// What is read from the pixel `(x, y)`.
    spec fn spec_pixel(&self, x: usize, y: usize) -> T;

    /// A write to one pixel leaves what is read from every other pixel.
    proof fn lemma_read_unchanged(&self, later: &Self, x: usize, y: usize, i: usize, j: usize)
        requires
            self.unchanged_except(later, x, y),
            x < self.spec_width(),
            y < self.spec_height(),
            i < self.spec_width(),
            j < self.spec_height(),
            i != x || j != y,
        ensures
            later.spec_pixel(i, j) == self.spec_pixel(i, j),
    ;

    /// Reads the pixel `(x, y)`.
    fn get_pixel(&self, x: usize, y: usize) -> (p: T)
        requires
            x < self.spec_width(),
            y < self.spec_height(),
        ensures
            p == self.spec_pixel(x, y),
    ;
}

/// An image whose pixels can be written as values of `T`.
pub trait ImageWriter<T>: ImageSize {
    /// The value that the pixel `(x, y)` was last written with.
    spec fn spec_output(&self, x: usize, y: usize) -> T;

    /// A write to one pixel leaves what was written to every other pixel.
    proof fn lemma_output_unchanged(&self, later: &Self, x: usize, y: usize, i: usize, j: usize)
        requires
            self.unchanged_except(later, x, y),
            x < self.spec_width(),
            y < self.spec_height(),
            i < self.spec_width(),
            j < self.spec_height(),
            i != x || j != y,
        ensures
            later.spec_output(i, j) == self.spec_output(i, j),
    ;

    /// Writes the pixel `(x, y)`.
    fn put_pixel(&mut self, x: usize, y: usize, pixel: T)
        requires
            x < old(self).spec_width(),
            y < old(self).spec_height(),
        ensures
            final(self).spec_width() == old(self).spec_width(),
            final(self).spec_height() == old(self).spec_height(),
            old(self).unchanged_except(final(self), x, y),
            final(self).spec_output(x, y) == pixel,
    ;
}

/// `a + b`, if it is below `limit`.
pub fn add_usize_usize_clamped(a: usize, b: usize, limit: usize) -> (r: Option<usize>)
    ensures
        r == if a + b < limit {
            Some((a + b) as usize)
        } else {
            None
        },
{
    if a < limit && limit - a > b {
        Some(a + b)
    } else {
        None
    }
}

/// `a + b`, if it is not negative and below `limit`.
pub fn add_usize_isize_clamped(a: usize, b: isize, limit: usize) -> (r: Option<usize>)
    ensures
        r == if 0 <= a + b < limit {
            Some((a + b) as usize)
        } else {
            None
        },
{
    if b > 0 {
        add_usize_usize_clamped(a, b as usize, limit)
    } else if b < 0 {
        let neg_b: usize = if b == isize::MIN {
            isize::MAX as usize + 1
        } else {
            (0 - b) as usize
        };
        if neg_b > a {
            None
        } else if a - neg_b < limit {
            Some(a - neg_b)
        } else {
            None
        }
    } else {
        if a < limit {
            Some(a)
        } else {
            None
        }
    }
}

/// The indices from `min_inclusive` up to `max_exclusive`, walked in steps
/// of `dir`: upwards from the lower end where `dir` is positive, downwards
/// from the upper end where it is negative.
pub struct RangeWithDir {
    /// The smallest index that is left.
    pub min_inclusive: usize,
    /// One more than the largest index that is left.
    pub max_exclusive: usize,
    /// The step, with its direction.
    pub dir: isize,
}

/// The index that a range yields next, if any, and the range that is left.
pub open spec fn range_next(r: RangeWithDir) -> (Option<usize>, RangeWithDir) {
    if r.dir > 0 {
        if r.min_inclusive < r.max_exclusive {
            (
                Some(r.min_inclusive),
                RangeWithDir {
                    min_inclusive: if r.min_inclusive + r.dir > usize::MAX {
                        usize::MAX
                    } else {
                        (r.min_inclusive + r.dir) as usize
                    },
                    max_exclusive: r.max_exclusive,
                    dir: r.dir,
                },
            )
        } else {
            (None, r)
        }
    } else if r.dir < 0 {
        if r.max_exclusive - r.min_inclusive >= -r.dir {
            (
                Some((r.max_exclusive + r.dir) as usize),
                RangeWithDir {
                    min_inclusive: r.min_inclusive,
                    max_exclusive: (r.max_exclusive + r.dir) as usize,
                    dir: r.dir,
                },
            )
        } else {
            (None, r)
        }
    } else {
        (None, r)
    }
}

impl RangeWithDir {
    /// The range with the given ends and step.
    pub fn new(min_inclusive: usize, max_exclusive: usize, dir: isize) -> (r: Self)
        ensures
            r.min_inclusive == min_inclusive,
            r.max_exclusive == max_exclusive,
            r.dir == dir,
    {
        Self { min_inclusive, max_exclusive, dir }
    }

    /// The next index, if one is left.
    pub fn next(&mut self) -> (r: Option<usize>)
        ensures
            r == range_next(*old(self)).0,
            *final(self) == range_next(*old(self)).1,
    {
        if self.dir > 0 {
            if self.min_inclusive < self.max_exclusive {
                let ret = Some(self.min_inclusive);
                let step: usize = self.dir as usize;
                self.min_inclusive = if step > usize::MAX - self.min_inclusive {
                    usize::MAX
                } else {
                    self.min_inclusive + step
                };
                ret
            } else {
                None
            }
        } else if self.dir < 0 {
            let neg_dir: usize = if self.dir == isize::MIN {
                isize::MAX as usize + 1
            } else {
                (0 - self.dir) as usize
            };
            if self.max_exclusive >= self.min_inclusive && self.max_exclusive - self.min_inclusive
                >= neg_dir {
                self.max_exclusive -= neg_dir;
                Some(self.max_exclusive)
            } else {
                None
            }
        } else {
            None
        }
    }
}

/// The largest vertical offset among the targets; 0 where there are none.
pub open spec fn max_dy(targets: Seq<(isize, usize, usize)>) -> int
    decreases targets.len(),
{
    if targets.len() == 0 {
        0
    } else {
        let m = max_dy(targets.drop_last());
        if targets.last().1 > m {
            targets.last().1 as int
        } else {
            m
        }
    }
}

/// What a scan is made with: the size of the image, the scan order and the kernel.
pub struct Scan {
    /// The width of the image.
    pub width: int,
    /// The height of the image.
    pub height: int,
    /// Whether every second row is walked from right to left.
    pub serpentine: bool,
    /// The divisor of the kernel.
    pub divisor: usize,
    /// The targets of the kernel: offsets `(dx, dy)` and weight.
    pub targets: Seq<(isize, usize, usize)>,
}

impl Scan {
    /// The number of rows of the rolling error buffer.
    pub open spec fn buffer_height(self) -> int {
        max_dy(self.targets) + 1
    }

    /// The direction in which row `y` is walked: 1 to the right, -1 to the left.
    pub open spec fn dir(self, y: int) -> int {
        if self.serpentine && y % 2 == 1 {
            -1
        } else {
            1
        }
    }

    /// The column of the pixel that is visited as number `n` of row `y`.
    pub open spec fn column(self, y: int, n: int) -> int {
        if self.dir(y) == 1 {
            n
        } else {
            self.width - 1 - n
        }
    }

    /// The place of the pixel `(x, y)` in the rolling error buffer.
    pub open spec fn cell(self, x: int, y: int) -> int {
        x + (y % self.buffer_height()) * self.width
    }

    /// Whether the pixel `(i, j)` has been visited once `n` pixels of row `y`
    /// and all rows above it are done.
    pub open spec fn visited(self, y: int, n: int, i: int, j: int) -> bool {
        j < y || (j == y && if self.dir(y) == 1 {
            i < n
        } else {
            i >= self.width - n
        })
    }
}

/// The state of a scan: the rolling error buffer and the pixels written so far.
pub struct DitherState<E, T> {
    /// The accumulators of the rolling buffer.
    pub errors: Seq<E>,
    /// The output of every pixel that was visited.
    pub output: Map<(int, int), T>,
}

/// The error buffer after the residual of the pixel `(x, y)` went to the
/// first `n` targets of the kernel: each target inside the image gets the
/// residual times its weight added, the others are dropped.
pub open spec fn diffuse<E: ErrorTerm>(
    scan: Scan,
    errors: Seq<E::Model>,
    residual: E::Model,
    x: int,
    y: int,
    n: int,
) -> Seq<E::Model>
    decreases n,
{
    if n <= 0 {
        errors
    } else {
        let before = diffuse::<E>(scan, errors, residual, x, y, n - 1);
        let t = scan.targets[n - 1];
        let tx = if scan.dir(y) == 1 {
            x + t.0
        } else {
            x - t.0
        };
        let ty = y + t.1;
        if 0 <= tx < scan.width && ty < scan.height {
            before.update(
                scan.cell(tx, ty),
                E::sum_model(before[scan.cell(tx, ty)], E::scaled_model(residual, t.2)),
            )
        } else {
            before
        }
    }
}

/// The state after the visit of the pixel `(x, y)`: its accumulator is read
/// and reset, divided by the divisor and handed to the strategy with the
/// source pixel; the output is written and the residual diffused.
pub open spec fn visit<S: PixelStrategy>(
    scan: Scan,
    strategy: &S,
    st: DitherState<<S::QuantizationError as ErrorTerm>::Model, S::Target>,
    source: S::Source,
    x: int,
    y: int,
) -> DitherState<<S::QuantizationError as ErrorTerm>::Model, S::Target> {
    let c = scan.cell(x, y);
    let carried = <S::QuantizationError as ErrorTerm>::divided_model(st.errors[c], scan.divisor);
    let q = strategy.spec_quantize(source, carried);
    DitherState {
        errors: diffuse::<S::QuantizationError>(
            scan,
            st.errors.update(c, <S::QuantizationError as ErrorTerm>::zero_model()),
            q.1,
            x,
            y,
            scan.targets.len() as int,
        ),
        output: st.output.insert((x, y), q.0),
    }
}

/// The state after the first `n` pixels of row `y`, from the state `st` at
/// the start of the row.
pub open spec fn after_pixels<S: PixelStrategy, I: ImageReader<S::Source>>(
    scan: Scan,
    strategy: &S,
    image: &I,
    st: DitherState<<S::QuantizationError as ErrorTerm>::Model, S::Target>,
    y: int,
    n: int,
) -> DitherState<<S::QuantizationError as ErrorTerm>::Model, S::Target>
    decreases n,
{
    if n <= 0 {
        st
    } else {
        let x = scan.column(y, n - 1);
        visit(
            scan,
            strategy,
            after_pixels(scan, strategy, image, st, y, n - 1),
            image.spec_pixel(x as usize, y as usize),
            x,
            y,
        )
    }
}

/// The state after the first `y` rows: before the first, every accumulator
/// is neutral and nothing is written.
pub open spec fn after_rows<S: PixelStrategy, I: ImageReader<S::Source>>(
    scan: Scan,
    strategy: &S,
    image: &I,
    y: int,
) -> DitherState<<S::QuantizationError as ErrorTerm>::Model, S::Target>
    decreases y,
{
    if y <= 0 {
        DitherState {
            errors: Seq::new(
                (scan.width * scan.buffer_height()) as nat,
                |i: int| <S::QuantizationError as ErrorTerm>::zero_model(),
            ),
            output: Map::empty(),
        }
    } else {
        after_pixels(scan, strategy, image, after_rows(scan, strategy, image, y - 1), y - 1, scan.width)
    }
}

/// The kernel can be applied to an image of the given width on this
/// machine: no offset is the smallest `isize`, whose mirror image does not
/// exist, and the rolling buffer has a length that a `usize` can hold.
pub open spec fn kernel_fits(targets: Seq<(isize, usize, usize)>, width: usize) -> bool {
    &&& forall|i: int| 0 <= i < targets.len() ==> (#[trigger] targets[i]).0 > isize::MIN
    &&& max_dy(targets) < usize::MAX
    &&& (max_dy(targets) + 1) * width <= usize::MAX
}

/// The values that the errors of a buffer stand for.
pub open spec fn models<E: ErrorTerm>(errors: Seq<E>) -> Seq<E::Model> {
    Seq::new(errors.len(), |i: int| errors[i].model())
}

/// Takes the error out of an accumulator and leaves it neutral.
fn take_error<E: ErrorTerm>(errors: &mut Vec<E>, i: usize) -> (r: E)
    requires
        i < old(errors).len(),
    ensures
        r == old(errors)@[i as int],
        final(errors).len() == old(errors).len(),
        models(final(errors)@) == models(old(errors)@).update(i as int, E::zero_model()),
{
    let mut fresh = E::zero();
    core::mem::swap(&mut errors[i], &mut fresh);
    assert(models(errors@) =~= models(old(errors)@).update(i as int, E::zero_model()));
    fresh
}

/// Adds a term to an accumulator.
fn add_error<E: ErrorTerm>(errors: &mut Vec<E>, i: usize, term: E)
    requires
        i < old(errors).len(),
    ensures
        final(errors).len() == old(errors).len(),
        models(final(errors)@) == models(old(errors)@).update(
            i as int,
            E::sum_model(models(old(errors)@)[i as int], term.model()),
        ),
{
    let slot = &mut errors[i];
    slot.accumulate(term);
    assert(models(errors@) =~= models(old(errors)@).update(
        i as int,
        E::sum_model(models(old(errors)@)[i as int], term.model()),
    ));
}

/// Whether the kernel can be applied to an image of the given width.
pub fn check_kernel_fits(targets: &[(isize, usize, usize)], width: usize) -> (r: bool)
    ensures
        r == kernel_fits(targets@, width),
{
    let mut max_y_diffuse: usize = 0;
    let mut t: usize = 0;
    assert(targets@.take(0) =~= Seq::empty());
    while t < targets.len()
        invariant
            t <= targets.len(),
            max_y_diffuse == max_dy(targets@.take(t as int)),
            forall|i: int| 0 <= i < t ==> (#[trigger] targets[i]).0 > isize::MIN,
        decreases targets.len() - t,
    {
        assert(targets@.take(t + 1).drop_last() =~= targets@.take(t as int));
        if targets[t].0 == isize::MIN {
            return false;
        }
        if targets[t].1 > max_y_diffuse {
            max_y_diffuse = targets[t].1;
        }
        t += 1;
    }
    assert(targets@.take(targets.len() as int) =~= targets@);
    if max_y_diffuse == usize::MAX {
        return false;
    }
    (max_y_diffuse + 1).checked_mul(width).is_some()
}

proof fn lemma_cell_in_range(x: int, r: int, w: int, bh: int)
    by (nonlinear_arith)
    requires
        0 <= x < w,
        0 <= r < bh,
    ensures
        0 <= r * w,
        0 <= x + r * w < w * bh,
{
}

proof fn lemma_max_dy_bounds(targets: Seq<(isize, usize, usize)>, i: int)
    requires
        0 <= i < targets.len(),
    ensures
        targets[i].1 <= max_dy(targets),
        max_dy(targets) >= 0,
    decreases targets.len(),
{
    if i < targets.len() - 1 {
        lemma_max_dy_bounds(targets.drop_last(), i);
    } else if targets.len() > 1 {
        lemma_max_dy_bounds(targets.drop_last(), 0);
    }
}

/// Hands the residual of the pixel `(x, y)` on to the targets of the kernel.
fn diffuse_error<E: ErrorTerm>(
    errors: &mut Vec<E>,
    residual: &E,
    diffuse_targets: &[(isize, usize, usize)],
    x: usize,
    y: usize,
    dir: isize,
    width: usize,
    height: usize,
    errors_height: usize,
    Ghost(scan): Ghost<Scan>,
)
    requires
        scan.targets == diffuse_targets@,
        scan.width == width,
        scan.height == height,
        scan.buffer_height() == errors_height,
        scan.dir(y as int) == dir,
        kernel_fits(scan.targets, width),
        old(errors).len() == width * errors_height,
        x < width,
        y < height,
    ensures
        final(errors).len() == old(errors).len(),
        models(final(errors)@) == diffuse::<E>(
            scan,
            models(old(errors)@),
            residual.model(),
            x as int,
            y as int,
            diffuse_targets.len() as int,
        ),
{
    let mut t: usize = 0;
    while t < diffuse_targets.len()
        invariant
            t <= diffuse_targets.len(),
            scan.targets == diffuse_targets@,
            scan.width == width,
            scan.height == height,
            scan.buffer_height() == errors_height,
            scan.dir(y as int) == dir,
            kernel_fits(scan.targets, width),
            errors.len() == width * errors_height,
            x < width,
            y < height,
            models(errors@) == diffuse::<E>(
                scan,
                models(old(errors)@),
                residual.model(),
                x as int,
                y as int,
                t as int,
            ),
        decreases diffuse_targets.len() - t,
    {
        let (dx, dy, mul) = diffuse_targets[t];
        assert(scan.targets[t as int].0 > isize::MIN);
        let step: isize = if dir == 1 {
            dx
        } else {
            -dx
        };
        let tx = add_usize_isize_clamped(x, step, width);
        let ty = add_usize_usize_clamped(y, dy, height);
        if let (Some(tx), Some(ty)) = (tx, ty) {
            proof {
                lemma_max_dy_bounds(scan.targets, t as int);
                lemma_cell_in_range(
                    tx as int,
                    (ty % errors_height) as int,
                    width as int,
                    errors_height as int,
                );
            }
            let term = residual.scaled(mul);
            add_error(errors, tx + (ty % errors_height) * width, term);
        }
        t += 1;
    }
}

/// `pixel` is what a scan of `image` with the strategy and the kernel
/// writes to the pixel `(x, y)`.
pub open spec fn is_dithered<S: PixelStrategy, I: ImageReader<S::Source>>(
    strategy: &S,
    divisor: usize,
    targets: Seq<(isize, usize, usize)>,
    image: &I,
    serpentine: bool,
    x: usize,
    y: usize,
    pixel: S::Target,
) -> bool {
    let written = after_rows::<S, I>(
        Scan {
            width: image.spec_width() as int,
            height: image.spec_height() as int,
            serpentine,
            divisor,
            targets,
        },
        strategy,
        image,
        image.spec_height() as int,
    ).output;
    written.dom().contains((x as int, y as int)) && written[(x as int, y as int)] == pixel
}

/// Dithers the image in place: every pixel is read, quantized by the
/// strategy with the error that was carried to it, and written back, and
/// its residual is diffused by the kernel. Rows are walked from the top;
/// with `serpentine`, every second row is walked from right to left, with
/// the kernel mirrored.
pub fn diffuse_dither<
    S: PixelStrategy,
    M: DiffusionMatrix,
    I: ImageSize + ImageReader<S::Source> + ImageWriter<S::Target>,
>(strategy: S, matrix: M, inout: &mut I, serpentine: bool)
    requires
        kernel_fits(matrix.spec_targets(), old(inout).spec_width()),
        forall|x: usize, y: usize|
            x < old(inout).spec_width() && y < old(inout).spec_height() ==> strategy.accepts(
                #[trigger] old(inout).spec_pixel(x, y),
            ),
    ensures
        final(inout).spec_width() == old(inout).spec_width(),
        final(inout).spec_height() == old(inout).spec_height(),
        forall|x: usize, y: usize|
            x < old(inout).spec_width() && y < old(inout).spec_height() ==> is_dithered::<S, I>(
                &strategy,
                matrix.spec_divisor(),
                matrix.spec_targets(),
                old(inout),
                serpentine,
                x,
                y,
                #[trigger] final(inout).spec_output(x, y),
            ),
{
    let width = inout.width();
    let height = inout.height();
    let error_divisor = matrix.divisor();
    let diffuse_targets = matrix.targets();
    let ghost untouched = *inout;
    let ghost scan = Scan {
        width: width as int,
        height: height as int,
        serpentine,
        divisor: error_divisor,
        targets: diffuse_targets@,
    };
    // The rolling buffer holds as many rows as the kernel reaches down, and one more.
    let mut max_y_diffuse: usize = 0;
    let mut t: usize = 0;
    assert(diffuse_targets@.take(0) =~= Seq::empty());
    while t < diffuse_targets.len()
        invariant
            t <= diffuse_targets.len(),
            max_y_diffuse == max_dy(diffuse_targets@.take(t as int)),
        decreases diffuse_targets.len() - t,
    {
        assert(diffuse_targets@.take(t + 1).drop_last() =~= diffuse_targets@.take(t as int));
        if diffuse_targets[t].1 > max_y_diffuse {
            max_y_diffuse = diffuse_targets[t].1;
        }
        t += 1;
    }
    assert(diffuse_targets@.take(diffuse_targets.len() as int) =~= diffuse_targets@);
    assert(width * (max_y_diffuse + 1) == (max_y_diffuse + 1) * width) by (nonlinear_arith);
    let errors_height = max_y_diffuse + 1;
    let mut errors: Vec<S::QuantizationError> = Vec::new();
    let count: usize = width * errors_height;
    let mut k: usize = 0;
    while k < count
        invariant
            k <= count,
            errors.len() == k,
            forall|i: int|
                0 <= i < k ==> (#[trigger] errors[i]).model()
                    == <S::QuantizationError as ErrorTerm>::zero_model(),
        decreases count - k,
    {
        errors.push(<S::QuantizationError as ErrorTerm>::zero());
        k += 1;
    }
    let ghost mut st = after_rows::<S, I>(scan, &strategy, &untouched, 0);
    assert(models(errors@) =~= st.errors);
    let mut y: usize = 0;
    while y < height
        invariant
            y <= height,
            scan == (Scan {
                width: width as int,
                height: height as int,
                serpentine,
                divisor: error_divisor,
                targets: diffuse_targets@,
            }),
            scan.buffer_height() == errors_height,
            kernel_fits(scan.targets, width),
            errors.len() == width * errors_height,
            inout.spec_width() == width,
            inout.spec_height() == height,
            st == after_rows::<S, I>(scan, &strategy, &untouched, y as int),
            models(errors@) == st.errors,
            forall|i: usize, j: usize|
                i < width && j < height ==> strategy.accepts(#[trigger] untouched.spec_pixel(i, j)),
            forall|i: usize, j: usize|
                i < width && j < height && !scan.visited(y as int, 0, i as int, j as int)
                    ==> #[trigger] inout.spec_pixel(i, j) == untouched.spec_pixel(i, j),
            forall|i: usize, j: usize|
                i < width && j < height && scan.visited(y as int, 0, i as int, j as int)
                    ==> #[trigger] inout.spec_output(i, j) == st.output[(i as int, j as int)]
                    && st.output.dom().contains((i as int, j as int)),
        decreases height - y,
    {
        let dir: isize = if serpentine && (y % 2) == 1 {
            -1
        } else {
            1
        };
        let ghost row_start = st;
        let ghost mut n: int = 0;
        let mut range = RangeWithDir::new(0, width, dir);
        loop
            invariant_except_break
                range.dir == dir,
                dir == 1 ==> range.min_inclusive == n && range.max_exclusive == width,
                dir == -1 ==> range.min_inclusive == 0 && range.max_exclusive == width - n,
            invariant
                0 <= n <= width,
                y < height,
                dir == scan.dir(y as int),
                dir == 1 || dir == -1,
                scan == (Scan {
                    width: width as int,
                    height: height as int,
                    serpentine,
                    divisor: error_divisor,
                    targets: diffuse_targets@,
                }),
                scan.buffer_height() == errors_height,
                kernel_fits(scan.targets, width),
                errors.len() == width * errors_height,
                inout.spec_width() == width,
                inout.spec_height() == height,
                row_start == after_rows::<S, I>(scan, &strategy, &untouched, y as int),
                st == after_pixels::<S, I>(scan, &strategy, &untouched, row_start, y as int, n),
                models(errors@) == st.errors,
                forall|i: usize, j: usize|
                    i < width && j < height ==> strategy.accepts(
                        #[trigger] untouched.spec_pixel(i, j),
                    ),
                forall|i: usize, j: usize|
                    i < width && j < height && !scan.visited(y as int, n, i as int, j as int)
                        ==> #[trigger] inout.spec_pixel(i, j) == untouched.spec_pixel(i, j),
                forall|i: usize, j: usize|
                    i < width && j < height && scan.visited(y as int, n, i as int, j as int)
                        ==> #[trigger] inout.spec_output(i, j) == st.output[(i as int, j as int)]
                        && st.output.dom().contains((i as int, j as int)),
            ensures
                n == width,
            decreases width - n,
        {
            let next = range.next();
            match next {
                None => {
                    break ;
                },
                Some(x) => {
                    assert(x == scan.column(y as int, n));
                    assert(!scan.visited(y as int, n, x as int, y as int));
                    let source: S::Source = inout.get_pixel(x, y);
                    proof {
                        lemma_cell_in_range(
                            x as int,
                            (y % errors_height) as int,
                            width as int,
                            errors_height as int,
                        );
                    }
                    let cell: usize = x + (y % errors_height) * width;
                    let error = take_error(&mut errors, cell);
                    let (target, residual) = strategy.quantize(source, error.divided(error_divisor));
                    let ghost before = *inout;
                    inout.put_pixel(x, y, target);
                    diffuse_error(
                        &mut errors,
                        &residual,
                        diffuse_targets,
                        x,
                        y,
                        dir,
                        width,
                        height,
                        errors_height,
                        Ghost(scan),
                    );
                    proof {
                        let ghost prev = st;
                        st = visit(scan, &strategy, prev, source, x as int, y as int);
                        assert forall|i: usize, j: usize|
                            i < width && j < height && !scan.visited(
                                y as int,
                                n + 1,
                                i as int,
                                j as int,
                            ) implies #[trigger] inout.spec_pixel(i, j) == untouched.spec_pixel(
                            i,
                            j,
                        ) by {
                            assert(!scan.visited(y as int, n, i as int, j as int));
                            before.lemma_read_unchanged(&*inout, x, y, i, j);
                        }
                        assert forall|i: usize, j: usize|
                            i < width && j < height && scan.visited(
                                y as int,
                                n + 1,
                                i as int,
                                j as int,
                            ) implies #[trigger] inout.spec_output(i, j) == st.output[(
                                i as int,
                                j as int,
                            )] && st.output.dom().contains((i as int, j as int)) by {
                            if i == x && j == y {
                            } else {
                                assert(scan.visited(y as int, n, i as int, j as int));
                                before.lemma_output_unchanged(&*inout, x, y, i, j);
                            }
                        }
                        n = n + 1;
                    }
                },
            }
        }
        proof {
            assert forall|i: usize, j: usize| i < width && j < height implies (scan.visited(
                y as int,
                width as int,
                i as int,
                j as int,
            ) <==> scan.visited(y + 1, 0, i as int, j as int)) by {}
        }
        y += 1;
    }
}

/// What the strategy makes of the source pixel `(x, y)` alone: its output
/// for that pixel with the neutral error, divided by the divisor.
pub open spec fn pointwise<S: PixelStrategy, I: ImageReader<S::Source>>(
    scan: Scan,
    strategy: &S,
    image: &I,
    x: int,
    y: int,
) -> S::Target {
    strategy.spec_quantize(
        image.spec_pixel(x as usize, y as usize),
        <S::QuantizationError as ErrorTerm>::divided_model(
            <S::QuantizationError as ErrorTerm>::zero_model(),
            scan.divisor,
        ),
    ).0
}

/// A buffer of neutral accumulators.
pub open spec fn neutral_buffer<E: ErrorTerm>(len: int) -> Seq<E::Model> {
    Seq::new(len as nat, |i: int| E::zero_model())
}

/// The pixel `(i, j)` is written in `output` with what `pointwise` gives for it.
pub open spec fn is_pointwise<S: PixelStrategy, I: ImageReader<S::Source>>(
    output: Map<(int, int), S::Target>,
    scan: Scan,
    strategy: &S,
    image: &I,
    i: int,
    j: int,
) -> bool {
    output.dom().contains((i, j)) && output[(i, j)] == pointwise(scan, strategy, image, i, j)
}

proof fn lemma_no_targets_pixels<S: PixelStrategy, I: ImageReader<S::Source>>(
    scan: Scan,
    strategy: &S,
    image: &I,
    st: DitherState<<S::QuantizationError as ErrorTerm>::Model, S::Target>,
    y: int,
    n: int,
)
    requires
        scan.targets.len() == 0,
        0 <= n <= scan.width,
        0 <= y,
        st.errors == neutral_buffer::<S::QuantizationError>(scan.width),
        forall|i: int, j: int|
            0 <= i < scan.width && 0 <= j < y ==> #[trigger] is_pointwise(
                st.output,
                scan,
                strategy,
                image,
                i,
                j,
            ),
    ensures
        after_pixels(scan, strategy, image, st, y, n).errors == neutral_buffer::<
            S::QuantizationError,
        >(scan.width),
        forall|i: int, j: int|
            0 <= i < scan.width && 0 <= j && scan.visited(y, n, i, j) ==> #[trigger] is_pointwise(
                after_pixels(scan, strategy, image, st, y, n).output,
                scan,
                strategy,
                image,
                i,
                j,
            ),
    decreases n,
{
    if n > 0 {
        lemma_no_targets_pixels(scan, strategy, image, st, y, n - 1);
        let before = after_pixels(scan, strategy, image, st, y, n - 1);
        let after = after_pixels(scan, strategy, image, st, y, n);
        let x = scan.column(y, n - 1);
        assert(max_dy(scan.targets) == 0);
        assert(scan.buffer_height() == 1);
        assert(y % 1 == 0);
        assert(scan.cell(x, y) == x) by {
            assert(0 * scan.width == 0);
        }
        assert(0 <= x < scan.width);
        assert(after.errors =~= before.errors);
        assert forall|i: int, j: int|
            0 <= i < scan.width && 0 <= j && scan.visited(
                y,
                n,
                i,
                j,
            ) implies #[trigger] is_pointwise(after.output, scan, strategy, image, i, j) by {
            if i == x && j == y {
            } else {
                assert(scan.visited(y, n - 1, i, j));
                assert(is_pointwise(before.output, scan, strategy, image, i, j));
            }
        }
    } else {
        assert forall|i: int, j: int|
            0 <= i < scan.width && 0 <= j && scan.visited(
                y,
                0,
                i,
                j,
            ) implies #[trigger] is_pointwise(st.output, scan, strategy, image, i, j) by {
            assert(j < y);
        }
    }
}

proof fn lemma_no_targets_rows<S: PixelStrategy, I: ImageReader<S::Source>>(
    scan: Scan,
    strategy: &S,
    image: &I,
    y: int,
)
    requires
        scan.targets.len() == 0,
        0 <= scan.width,
        0 <= y,
    ensures
        after_rows(scan, strategy, image, y).errors == neutral_buffer::<S::QuantizationError>(
            scan.width,
        ),
        forall|i: int, j: int|
            0 <= i < scan.width && 0 <= j < y ==> #[trigger] is_pointwise(
                after_rows(scan, strategy, image, y).output,
                scan,
                strategy,
                image,
                i,
                j,
            ),
    decreases y,
{
    assert(max_dy(scan.targets) == 0);
    if y > 0 {
        lemma_no_targets_rows(scan, strategy, image, y - 1);
        let st = after_rows(scan, strategy, image, y - 1);
        lemma_no_targets_pixels(scan, strategy, image, st, y - 1, scan.width);
        let after = after_rows(scan, strategy, image, y);
        assert forall|i: int, j: int|
            0 <= i < scan.width && 0 <= j < y implies #[trigger] is_pointwise(
            after.output,
            scan,
            strategy,
            image,
            i,
            j,
        ) by {
            assert(scan.visited(y - 1, scan.width, i, j));
        }
    } else {
        assert(scan.width * 1 == scan.width);
        assert(after_rows(scan, strategy, image, y).errors =~= neutral_buffer::<
            S::QuantizationError,
        >(scan.width));
    }
}

/// With a kernel that has no targets, the output at every pixel is what the
/// strategy makes of the source pixel there with the neutral error: it
/// depends on no other pixel, and not on the order of the scan.
pub proof fn lemma_no_diffusion_is_pointwise<S: PixelStrategy, I: ImageReader<S::Source>>(
    scan: Scan,
    strategy: &S,
    image: &I,
    x: int,
    y: int,
)
    requires
        scan.targets.len() == 0,
        0 <= x < scan.width,
        0 <= y < scan.height,
    ensures
        after_rows(scan, strategy, image, scan.height).output.dom().contains((x, y)),
        after_rows(scan, strategy, image, scan.height).output[(x, y)] == pointwise(
            scan,
            strategy,
            image,
            x,
            y,
        ),
        pointwise(scan, strategy, image, x, y) == pointwise(
            Scan { serpentine: !scan.serpentine, ..scan },
            strategy,
            image,
            x,
            y,
        ),
{
    lemma_no_targets_rows(scan, strategy, image, scan.height);
    assert(is_pointwise(
        after_rows(scan, strategy, image, scan.height).output,
        scan,
        strategy,
        image,
        x,
        y,
    ));
}

} // verus!
