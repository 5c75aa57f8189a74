use epd_dither::dither::diffuse::{
    add_usize_isize_clamped, add_usize_usize_clamped, diffuse_dither, ErrorTerm, ImageReader,
    ImageSize, ImageWriter, PixelStrategy, RangeWithDir,
};
use epd_dither::dither::diffusion_matrix::{
    Atkinson, DiffusionMatrix, DynamicDiffusionMatrix, FloydSteinberg, JarvisJudiceAndNinke,
    NoDiffuse, Sierra,
};
use std::cell::RefCell;

#[derive(Clone, Debug, PartialEq)]
struct IntError(i64);

impl ErrorTerm for IntError {
    type Model = i64;

    fn model(&self) -> i64 {
        self.0
    }

    fn zero_model() -> i64 {
        0
    }

    fn scaled_model(m: i64, factor: usize) -> i64 {
        m * factor as i64
    }

    fn divided_model(m: i64, divisor: usize) -> i64 {
        m / divisor as i64
    }

    fn sum_model(a: i64, b: i64) -> i64 {
        a + b
    }

    fn zero() -> Self {
        IntError(0)
    }

    fn scaled(&self, factor: usize) -> Self {
        IntError(self.0 * factor as i64)
    }

    fn divided(self, divisor: usize) -> Self {
        IntError(self.0 / divisor as i64)
    }

    fn accumulate(&mut self, other: Self) {
        self.0 += other.0;
    }
}

/// Quantizes a grey level to 0 or 255 and records the order of the visits.
struct Threshold {
    visits: RefCell<Vec<(u8, i64)>>,
}

impl PixelStrategy for Threshold {
    type Source = u8;
    type Target = u8;
    type QuantizationError = IntError;

    fn accepts(&self, _source: u8) -> bool {
        true
    }

    fn spec_quantize(&self, source: u8, error: i64) -> (u8, i64) {
        let wanted = source as i64 + error;
        let out: u8 = if wanted >= 128 { 255 } else { 0 };
        (out, wanted - out as i64)
    }

    fn quantize(&self, source: u8, error: IntError) -> (u8, IntError) {
        self.visits.borrow_mut().push((source, error.0));
        let (out, residual) = self.spec_quantize(source, error.0);
        (out, IntError(residual))
    }
}

struct Grid {
    width: usize,
    height: usize,
    pixels: Vec<u8>,
}

impl Grid {
    fn new(width: usize, height: usize, pixels: Vec<u8>) -> Self {
        assert_eq!(pixels.len(), width * height);
        Grid { width, height, pixels }
    }
}

impl ImageSize for Grid {
    fn spec_width(&self) -> usize {
        self.width
    }

    fn spec_height(&self) -> usize {
        self.height
    }

    fn unchanged_except(&self, later: &Self, x: usize, y: usize) -> bool {
        self.width == later.width && self.height == later.height
            && (0..self.pixels.len())
                .all(|i| i == x + y * self.width || self.pixels[i] == later.pixels[i])
    }

    fn width(&self) -> usize {
        self.width
    }

    fn height(&self) -> usize {
        self.height
    }
}

impl ImageReader<u8> for Grid {
    fn spec_pixel(&self, x: usize, y: usize) -> u8 {
        self.pixels[x + y * self.width]
    }

    fn lemma_read_unchanged(&self, _later: &Self, _x: usize, _y: usize, _i: usize, _j: usize) {}

    fn get_pixel(&self, x: usize, y: usize) -> u8 {
        self.pixels[x + y * self.width]
    }
}

impl ImageWriter<u8> for Grid {
    fn spec_output(&self, x: usize, y: usize) -> u8 {
        self.pixels[x + y * self.width]
    }

    fn lemma_output_unchanged(&self, _later: &Self, _x: usize, _y: usize, _i: usize, _j: usize) {}

    fn put_pixel(&mut self, x: usize, y: usize, pixel: u8) {
        self.pixels[x + y * self.width] = pixel;
    }
}

fn threshold() -> Threshold {
    Threshold { visits: RefCell::new(Vec::new()) }
}

#[test]
fn serpentine_second_row_runs_right_to_left() {
    // Each source value names its place: row 0 holds 10..13, row 1 holds 20..23.
    let mut image = Grid::new(4, 2, vec![10, 11, 12, 13, 20, 21, 22, 23]);
    let strategy = threshold();
    let visits = {
        diffuse_dither_by_ref(&strategy, FloydSteinberg, &mut image, true);
        strategy.visits.borrow().iter().map(|v| v.0).collect::<Vec<u8>>()
    };
    assert_eq!(visits, vec![10, 11, 12, 13, 23, 22, 21, 20]);
}

#[test]
fn linear_second_row_runs_left_to_right() {
    let mut image = Grid::new(4, 2, vec![10, 11, 12, 13, 20, 21, 22, 23]);
    let strategy = threshold();
    diffuse_dither_by_ref(&strategy, FloydSteinberg, &mut image, false);
    let visits: Vec<u8> = strategy.visits.borrow().iter().map(|v| v.0).collect();
    assert_eq!(visits, vec![10, 11, 12, 13, 20, 21, 22, 23]);
}

/// A strategy that forwards to a borrowed one, so that a test can look at the
/// record of visits after the engine has consumed the strategy.
struct ByRef<'a>(&'a Threshold);

impl<'a> PixelStrategy for ByRef<'a> {
    type Source = u8;
    type Target = u8;
    type QuantizationError = IntError;

    fn accepts(&self, source: u8) -> bool {
        self.0.accepts(source)
    }

    fn spec_quantize(&self, source: u8, error: i64) -> (u8, i64) {
        self.0.spec_quantize(source, error)
    }

    fn quantize(&self, source: u8, error: IntError) -> (u8, IntError) {
        self.0.quantize(source, error)
    }
}

fn diffuse_dither_by_ref<M: DiffusionMatrix>(
    strategy: &Threshold,
    matrix: M,
    image: &mut Grid,
    serpentine: bool,
) {
    diffuse_dither(ByRef(strategy), matrix, image, serpentine);
}

#[test]
fn no_diffuse_is_pointwise_quantization() {
    let source = vec![0, 100, 127, 128, 200, 255, 90, 140, 30, 250, 128, 127];
    for serpentine in [false, true] {
        let mut image = Grid::new(4, 3, source.clone());
        let strategy = threshold();
        diffuse_dither_by_ref(&strategy, NoDiffuse, &mut image, serpentine);
        let expected: Vec<u8> = source.iter().map(|&v| if v >= 128 { 255 } else { 0 }).collect();
        assert_eq!(image.pixels, expected);
        // every pixel was quantized with the neutral error
        assert!(strategy.visits.borrow().iter().all(|v| v.1 == 0));
    }
}

#[test]
fn floyd_steinberg_carries_the_residual() {
    // One row of two pixels: the residual of the first goes to the second with 7/16.
    let mut image = Grid::new(2, 1, vec![100, 100]);
    let strategy = threshold();
    diffuse_dither_by_ref(&strategy, FloydSteinberg, &mut image, false);
    // first pixel: 100 -> 0, residual 100; second gets 100 * 7 / 16 = 43
    assert_eq!(*strategy.visits.borrow(), vec![(100, 0), (100, 43)]);
    assert_eq!(image.pixels, vec![0, 255]);
}

#[test]
fn floyd_steinberg_reaches_the_next_row() {
    // 2 x 2, linear. Residual of (0,0) = 64: right 7, below 5, below right 1.
    let mut image = Grid::new(2, 2, vec![64, 0, 0, 0]);
    let strategy = threshold();
    diffuse_dither_by_ref(&strategy, FloydSteinberg, &mut image, false);
    let visits = strategy.visits.borrow().clone();
    assert_eq!(visits[0], (64, 0));
    // (1,0): 64 * 7 / 16 = 28
    assert_eq!(visits[1], (0, 28));
    // (0,1): from (0,0) 64*5 = 320, from (1,0) (residual 28) 28*3 = 84: 404 / 16 = 25
    assert_eq!(visits[2], (0, 25));
    // (1,1): from (0,0) 64*1, from (1,0) 28*5 = 140, from (0,1) (residual 25) 25*7 = 175: 379 / 16 = 23
    assert_eq!(visits[3], (0, 23));
}

#[test]
fn serpentine_mirrors_the_kernel() {
    // 2 x 2, serpentine: row 1 starts at x = 1 and diffuses to the left.
    let mut image = Grid::new(2, 2, vec![0, 0, 0, 64]);
    let strategy = threshold();
    diffuse_dither_by_ref(&strategy, FloydSteinberg, &mut image, true);
    let visits = strategy.visits.borrow().clone();
    assert_eq!(visits[2], (64, 0));
    // (0,1) is visited last and gets 64 * 7 / 16 from its right neighbour
    assert_eq!(visits[3], (0, 28));
}

#[test]
fn empty_image_is_left_alone() {
    let mut image = Grid::new(0, 0, vec![]);
    let strategy = threshold();
    diffuse_dither_by_ref(&strategy, Sierra, &mut image, true);
    assert!(strategy.visits.borrow().is_empty());
}

#[test]
fn kernels_hold_their_tables() {
    assert_eq!(NoDiffuse.divisor(), 1);
    assert_eq!(NoDiffuse.targets().len(), 0);
    assert_eq!(FloydSteinberg.divisor(), 16);
    assert_eq!(FloydSteinberg.targets(), &[(1, 0, 7), (-1, 1, 3), (0, 1, 5), (1, 1, 1)]);
    assert_eq!(JarvisJudiceAndNinke.divisor(), 48);
    assert_eq!(JarvisJudiceAndNinke.targets().len(), 12);
    assert_eq!(JarvisJudiceAndNinke.targets().iter().map(|t| t.2).sum::<usize>(), 48);
    assert_eq!(Atkinson.divisor(), 8);
    assert_eq!(Atkinson.targets().len(), 6);
    assert_eq!(Atkinson.targets().iter().map(|t| t.2).sum::<usize>(), 6);
    assert_eq!(Sierra.divisor(), 32);
    assert_eq!(Sierra.targets().len(), 10);
    assert_eq!(Sierra.targets().iter().map(|t| t.2).sum::<usize>(), 32);
}

#[test]
fn dynamic_matrix_copies_a_kernel() {
    let copy = DynamicDiffusionMatrix::new(Atkinson);
    assert_eq!(copy.divisor(), 8);
    assert_eq!(copy.targets(), Atkinson.targets());
    let boxed: Box<dyn DiffusionMatrix> = Box::new(Sierra);
    assert_eq!(boxed.divisor(), 32);
    assert_eq!(boxed.targets(), Sierra.targets());
}

#[test]
fn clamped_sums() {
    assert_eq!(add_usize_usize_clamped(3, 4, 8), Some(7));
    assert_eq!(add_usize_usize_clamped(3, 5, 8), None);
    assert_eq!(add_usize_usize_clamped(9, 0, 8), None);
    assert_eq!(add_usize_usize_clamped(usize::MAX, usize::MAX, usize::MAX), None);
    assert_eq!(add_usize_isize_clamped(3, 4, 8), Some(7));
    assert_eq!(add_usize_isize_clamped(3, 5, 8), None);
    assert_eq!(add_usize_isize_clamped(3, -3, 8), Some(0));
    assert_eq!(add_usize_isize_clamped(3, -4, 8), None);
    assert_eq!(add_usize_isize_clamped(3, 0, 8), Some(3));
    assert_eq!(add_usize_isize_clamped(8, 0, 8), None);
    assert_eq!(add_usize_isize_clamped(9, -1, 8), None);
    assert_eq!(add_usize_isize_clamped(9, -2, 8), Some(7));
    assert_eq!(add_usize_isize_clamped(0, isize::MIN, 8), None);
}

#[test]
fn range_walks_both_ways() {
    let mut up = RangeWithDir::new(0, 4, 1);
    let mut seen = Vec::new();
    while let Some(x) = up.next() {
        seen.push(x);
    }
    assert_eq!(seen, vec![0, 1, 2, 3]);
    let mut down = RangeWithDir::new(0, 4, -1);
    let mut seen = Vec::new();
    while let Some(x) = down.next() {
        seen.push(x);
    }
    assert_eq!(seen, vec![3, 2, 1, 0]);
    let mut still = RangeWithDir::new(0, 4, 0);
    assert_eq!(still.next(), None);
    let mut by_two = RangeWithDir::new(1, 6, 2);
    assert_eq!(by_two.next(), Some(1));
    assert_eq!(by_two.next(), Some(3));
    assert_eq!(by_two.next(), Some(5));
    assert_eq!(by_two.next(), None);
    let mut back_by_two = RangeWithDir::new(1, 6, -2);
    assert_eq!(back_by_two.next(), Some(4));
    assert_eq!(back_by_two.next(), Some(2));
    assert_eq!(back_by_two.next(), None);
}
