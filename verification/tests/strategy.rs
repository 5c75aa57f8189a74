use epd_dither::barycentric::ratio::Weights;
use epd_dither::barycentric::vector::Point3;
use epd_dither::decompose::octahedron::{OctahedronDecomposer, OctahedronDecomposerAxisStrategy};
use epd_dither::decomposer_bruteforce::{DecomposerBruteforce, DecomposerBruteforceStrategy};
use epd_dither::dither::canvas::Canvas;
use epd_dither::dither::decomposing::{
    dither_canvas, to_fixed, DecomposedQuantizationError, DecomposingDitherStrategy, DitherError,
    PaletteDecomposer, FIXED_ONE,
};
use epd_dither::dither::diffuse::{
    check_kernel_fits, diffuse_dither, ErrorTerm, ImageReader, ImageSize, ImageWriter,
    PixelStrategy,
};
use epd_dither::dither::diffusion_matrix::{
    DiffusionMatrix, DynamicDiffusionMatrix, FloydSteinberg, JarvisJudiceAndNinke, NoDiffuse,
    Sierra,
};
use epd_dither::noise::{bayer_inf, largest_weight};

fn p(x: u16, y: u16, z: u16) -> Point3 {
    Point3::new(x, y, z).unwrap()
}

fn err(v: &[i64]) -> DecomposedQuantizationError {
    DecomposedQuantizationError(Some(v.to_vec()))
}

#[test]
fn to_fixed_rounds_towards_zero() {
    assert_eq!(FIXED_ONE, 65536);
    let w = Weights { num: vec![1, 1, 2, 0, 4, -1], den: 4 };
    assert_eq!(to_fixed(&w), vec![16384, 16384, 32768, 0, 65536, -16384]);
    let thirds = Weights { num: vec![1, 2, -1, -2], den: 3 };
    assert_eq!(to_fixed(&thirds), vec![21845, 43690, -21845, -43690]);
    let big = Weights { num: vec![1 << 108, -(1 << 108), 5], den: 1 };
    assert_eq!(to_fixed(&big), vec![i64::MAX, i64::MIN, 5 * 65536]);
}

#[test]
fn error_starts_neutral() {
    assert_eq!(DecomposedQuantizationError::zero().0, None);
    assert_eq!(DecomposedQuantizationError::zero().scaled(7).0, None);
    assert_eq!(DecomposedQuantizationError::zero().divided(16).0, None);
}

#[test]
fn error_scales_and_divides() {
    assert_eq!(err(&[1, -2, 0, 100]).scaled(7).0, Some(vec![7, -14, 0, 700]));
    assert_eq!(err(&[i64::MAX, i64::MIN, 1]).scaled(2).0, Some(vec![i64::MAX, i64::MIN, 2]));
    assert_eq!(err(&[33, -33, 15, -15, 0]).divided(16).0, Some(vec![2, -2, 0, 0, 0]));
    assert_eq!(err(&[5, -5, 0]).divided(0).0, Some(vec![i64::MAX, i64::MIN, 0]));
    assert_eq!(err(&[5, -5, 0]).divided(1).0, Some(vec![5, -5, 0]));
}

#[test]
fn error_accumulates() {
    let mut e = DecomposedQuantizationError::zero();
    e.accumulate(DecomposedQuantizationError::zero());
    assert_eq!(e.0, None);
    e.accumulate(err(&[1, 2, 3]));
    assert_eq!(e.0, Some(vec![1, 2, 3]));
    e.accumulate(DecomposedQuantizationError::zero());
    assert_eq!(e.0, Some(vec![1, 2, 3]));
    e.accumulate(err(&[10, -20, 30]));
    assert_eq!(e.0, Some(vec![11, -18, 33]));
    // sums saturate; an entry without a partner stays
    e.accumulate(err(&[i64::MAX, i64::MIN]));
    assert_eq!(e.0, Some(vec![i64::MAX, i64::MIN, 33]));
    // an entry beyond the end is dropped
    e.accumulate(err(&[-1, 1, 0, 99]));
    assert_eq!(e.0, Some(vec![i64::MAX - 1, i64::MIN + 1, 33]));
}

#[test]
fn largest_weight_takes_the_first_of_equals() {
    assert_eq!(largest_weight(&[3, 9, 9, 1]), 1);
    assert_eq!(largest_weight(&[-3]), 0);
    assert_eq!(largest_weight(&[-3, -3]), 0);
    assert_eq!(largest_weight(&[0, 1, 2, 3]), 3);
}

fn cube_palette() -> Vec<Point3> {
    vec![p(0, 0, 0), p(255, 255, 255), p(255, 0, 0), p(0, 255, 0), p(0, 0, 255), p(255, 255, 0)]
}

fn bruteforce_strategy(colors: Vec<Point3>) -> DecomposingDitherStrategy {
    DecomposingDitherStrategy {
        decomposer: PaletteDecomposer::Bruteforce(
            DecomposerBruteforce::new(&colors).unwrap(),
            DecomposerBruteforceStrategy::FavorDominant,
        ),
        palette: colors,
    }
}

#[test]
fn palette_decomposer_forwards() {
    let colors = cube_palette();
    let d = PaletteDecomposer::Bruteforce(
        DecomposerBruteforce::new(&colors).unwrap(),
        DecomposerBruteforceStrategy::FavorMix,
    );
    let w = d.decompose(&p(255, 0, 0));
    assert_eq!(w.num.iter().map(|n| n * 1 / w.den).collect::<Vec<_>>(), vec![0, 0, 1, 0, 0, 0]);
    let octa = vec![
        p(900, 500, 500),
        p(500, 900, 500),
        p(500, 500, 900),
        p(100, 500, 500),
        p(500, 100, 500),
        p(500, 500, 100),
    ];
    let d = PaletteDecomposer::Octahedron(
        OctahedronDecomposer::new(&octa).unwrap(),
        OctahedronDecomposerAxisStrategy::Average,
    );
    let w = d.decompose(&p(500, 500, 500));
    assert_eq!(w.num.len(), 6);
    assert!(w.num.iter().all(|&n| n * 6 == w.den));
}

#[test]
fn quantize_a_palette_colour_leaves_nothing() {
    let colors = cube_palette();
    let s = bruteforce_strategy(colors.clone());
    for (i, c) in colors.iter().enumerate() {
        for noise in [None, Some(0), Some(u64::MAX), Some(1 << 63)] {
            let (out, residual) = s.quantize((*c, noise), DecomposedQuantizationError::zero());
            assert_eq!(out, colors[i]);
            assert_eq!(residual.0, Some(vec![0; 6]));
        }
    }
}

#[test]
fn quantize_picks_by_noise_and_leaves_the_residual() {
    // black and white; a grey at a quarter of the way
    let s = bruteforce_strategy(vec![p(0, 0, 0), p(400, 400, 400)]);
    let grey = p(100, 100, 100);
    // weights 3/4 and 1/4
    let (out, residual) = s.quantize((grey, None), DecomposedQuantizationError::zero());
    assert_eq!(out, p(0, 0, 0));
    assert_eq!(residual.0, Some(vec![49152 - 65536, 16384]));
    let (out, residual) = s.quantize((grey, Some(0)), DecomposedQuantizationError::zero());
    assert_eq!(out, p(0, 0, 0));
    assert_eq!(residual.0, Some(vec![-16384, 16384]));
    // noise just below 3/4 still takes black, from 3/4 on white
    let three_quarters: u64 = 3 << 62;
    let (out, _) = s.quantize((grey, Some(three_quarters - 1)), DecomposedQuantizationError::zero());
    assert_eq!(out, p(0, 0, 0));
    let (out, residual) =
        s.quantize((grey, Some(three_quarters)), DecomposedQuantizationError::zero());
    assert_eq!(out, p(400, 400, 400));
    assert_eq!(residual.0, Some(vec![49152, 16384 - 65536]));
}

#[test]
fn quantize_adds_the_carried_error() {
    let s = bruteforce_strategy(vec![p(0, 0, 0), p(400, 400, 400)]);
    let grey = p(100, 100, 100);
    // carried error moves the weights to 1/4 and 3/4
    let carried = err(&[-32768, 32768]);
    let (out, residual) = s.quantize((grey, None), carried);
    assert_eq!(out, p(400, 400, 400));
    assert_eq!(residual.0, Some(vec![16384, 49152 - 65536]));
    // a negative weight is clipped before the noise picks
    let carried = err(&[-65536, 65536]);
    let (out, residual) = s.quantize((grey, Some(0)), carried);
    assert_eq!(out, p(400, 400, 400));
    assert_eq!(residual.0, Some(vec![-16384, 16384]));
}

fn flat_canvas(width: usize, height: usize, color: Point3, noise: bool) -> Canvas {
    let values = (0..height)
        .flat_map(|y| (0..width).map(move |x| if noise { Some(bayer_inf(x, y)) } else { None }))
        .collect();
    Canvas::new(width, height, vec![color; width * height], values).unwrap()
}

#[test]
fn dithering_keeps_the_mean_of_a_flat_picture() {
    let black = p(0, 0, 0);
    let white = p(400, 400, 400);
    for noise in [false, true] {
        for serpentine in [false, true] {
            let mut picture = flat_canvas(16, 16, p(100, 100, 100), noise);
            let strategy = bruteforce_strategy(vec![black, white]);
            diffuse_dither(strategy, FloydSteinberg, &mut picture, serpentine);
            let pixels = picture.into_pixels();
            assert!(pixels.iter().all(|q| *q == black || *q == white));
            let whites = pixels.iter().filter(|q| **q == white).count();
            // a quarter of 256, give or take what is still on its way at the borders
            assert!((56..=72).contains(&whites), "{whites} white pixels");
        }
    }
}

#[test]
fn dithering_without_diffusion_follows_the_noise() {
    let black = p(0, 0, 0);
    let white = p(400, 400, 400);
    let mut picture = flat_canvas(4, 4, p(100, 100, 100), true);
    assert_eq!(
        dither_canvas(bruteforce_strategy(vec![black, white]), NoDiffuse, &mut picture, true),
        Ok(())
    );
    let pixels = picture.into_pixels();
    // white where the threshold is at least 3/4: the ranks 12 to 15 of the sixteen
    let ranks: [[u64; 4]; 4] = [[0, 8, 2, 10], [12, 4, 14, 6], [3, 11, 1, 9], [15, 7, 13, 5]];
    for y in 0..4 {
        for x in 0..4 {
            let expected = if ranks[y][x] >= 12 { white } else { black };
            assert_eq!(pixels[x + y * 4], expected, "({x}, {y})");
        }
    }
}

#[test]
fn dithering_maps_palette_colours_to_the_output_palette() {
    let mixing = cube_palette();
    let output: Vec<Point3> = (0..6).map(|i| p(i, i, i)).collect();
    let strategy = DecomposingDitherStrategy {
        decomposer: PaletteDecomposer::Bruteforce(
            DecomposerBruteforce::new(&mixing).unwrap(),
            DecomposerBruteforceStrategy::FavorMix,
        ),
        palette: output.clone(),
    };
    let mut picture = Canvas::new(3, 2, mixing.clone(), vec![Some(1 << 63); 6]).unwrap();
    assert_eq!(dither_canvas(strategy, FloydSteinberg, &mut picture, true), Ok(()));
    assert_eq!(picture.into_pixels(), output);
}

#[test]
fn canvas_needs_a_value_for_every_pixel() {
    assert!(Canvas::new(2, 3, vec![p(0, 0, 0); 6], vec![None; 6]).is_some());
    assert!(Canvas::new(2, 3, vec![p(0, 0, 0); 5], vec![None; 6]).is_none());
    assert!(Canvas::new(2, 3, vec![p(0, 0, 0); 6], vec![None; 7]).is_none());
    assert!(Canvas::new(usize::MAX, 2, vec![], vec![]).is_none());
    assert!(Canvas::new(0, 7, vec![], vec![]).is_some());
}

#[test]
fn canvas_reads_and_writes_row_by_row() {
    let pixels: Vec<Point3> = (0..6).map(|i| p(i, 0, 0)).collect();
    let noise: Vec<Option<u64>> = (0..6).map(|i| Some(i * 10)).collect();
    let mut canvas = Canvas::new(3, 2, pixels, noise).unwrap();
    assert_eq!((canvas.width(), canvas.height()), (3, 2));
    assert_eq!(canvas.get_pixel(2, 0), (p(2, 0, 0), Some(20)));
    assert_eq!(canvas.get_pixel(0, 1), (p(3, 0, 0), Some(30)));
    assert!(canvas.colors_within_range());
    canvas.put_pixel(1, 1, p(9, 9, 9));
    assert_eq!(canvas.get_pixel(1, 1), (p(9, 9, 9), Some(40)));
    assert_eq!(
        canvas.into_pixels(),
        vec![p(0, 0, 0), p(1, 0, 0), p(2, 0, 0), p(3, 0, 0), p(9, 9, 9), p(5, 0, 0)]
    );
}

#[test]
fn dither_canvas_says_what_stands_in_the_way() {
    let black = p(0, 0, 0);
    let white = p(400, 400, 400);
    let mut short = bruteforce_strategy(vec![black, white]);
    short.palette.pop();
    let mut canvas = flat_canvas(2, 2, p(100, 100, 100), false);
    assert_eq!(
        dither_canvas(short, FloydSteinberg, &mut canvas, true),
        Err(DitherError::PaletteMismatch)
    );
    let far = DynamicDiffusionMatrix(vec![(1, usize::MAX, 1)], 1);
    assert_eq!(
        dither_canvas(bruteforce_strategy(vec![black, white]), far, &mut canvas, true),
        Err(DitherError::KernelTooLarge)
    );
    let mirrored = DynamicDiffusionMatrix(vec![(isize::MIN, 0, 1)], 1);
    assert_eq!(
        dither_canvas(bruteforce_strategy(vec![black, white]), mirrored, &mut canvas, true),
        Err(DitherError::KernelTooLarge)
    );
    let bright = Point3 { x: 5000, y: 0, z: 0 };
    let mut out_of_range =
        Canvas::new(2, 1, vec![p(100, 100, 100), bright], vec![None, None]).unwrap();
    assert!(!out_of_range.colors_within_range());
    assert_eq!(
        dither_canvas(bruteforce_strategy(vec![black, white]), Sierra, &mut out_of_range, true),
        Err(DitherError::ColorOutOfRange)
    );
    // the canvas is as it was
    assert_eq!(out_of_range.into_pixels(), vec![p(100, 100, 100), bright]);
}

#[test]
fn kernel_fits_where_the_buffer_can_be_counted() {
    assert!(check_kernel_fits(FloydSteinberg.targets(), 800));
    assert!(check_kernel_fits(JarvisJudiceAndNinke.targets(), usize::MAX / 3));
    assert!(!check_kernel_fits(JarvisJudiceAndNinke.targets(), usize::MAX / 3 + 1));
    assert!(check_kernel_fits(NoDiffuse.targets(), usize::MAX));
    assert!(!check_kernel_fits(&[(0, usize::MAX, 1)], 0));
    assert!(check_kernel_fits(&[(0, usize::MAX - 1, 1)], 1));
    assert!(!check_kernel_fits(&[(isize::MIN, 0, 1)], 1));
}
