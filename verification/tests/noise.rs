use epd_dither::noise::{bayer, bayer_inf, interleaved_gradient_noise, pick_from_barycentric_weights};

const SIXTEENTH: u64 = 1 << 60;

#[test]
fn bayer_inf_is_the_four_by_four_matrix() {
    // The 2 x 2 matrix [[0, 2], [3, 1]] tiled twice, in sixteenths.
    let expected: [[u64; 4]; 4] = [[0, 8, 2, 10], [12, 4, 14, 6], [3, 11, 1, 9], [15, 7, 13, 5]];
    for y in 0..4 {
        for x in 0..4 {
            assert_eq!(bayer_inf(x, y), expected[y][x] * SIXTEENTH, "({x}, {y})");
        }
    }
}

#[test]
fn bayer_inf_ranks_every_cell_once() {
    let mut seen = Vec::new();
    for y in 0..8 {
        for x in 0..8 {
            seen.push(bayer_inf(x, y) >> 58);
            assert_eq!(bayer_inf(x, y) & ((1 << 58) - 1), 0);
        }
    }
    seen.sort();
    assert_eq!(seen, (0..64).collect::<Vec<u64>>());
}

#[test]
fn bayer_stops_at_its_depth() {
    // depth 1: the base matrix in quarters, tiled
    let quarter: u64 = 1 << 62;
    for y in 0..6 {
        for x in 0..6 {
            let base = [[0, 2], [3, 1]][y % 2][x % 2];
            assert_eq!(bayer(x, y, 1), base * quarter);
            assert_eq!(bayer(x, y, 0), 0);
        }
    }
    assert_eq!(bayer(1, 0, 2), bayer_inf(1, 0));
    assert_eq!(bayer(5, 6, 2), bayer_inf(1, 2));
    assert_eq!(bayer(5, 6, 3), bayer_inf(5, 6));
    assert_eq!(bayer(5, 6, 1000), bayer_inf(5, 6));
}

#[test]
fn bayer_of_large_coordinates() {
    assert_eq!(bayer_inf(0, 0), 0);
    // every level adds 1/4 of what is left: 1/4 + 1/16 + ... for 32 levels
    assert_eq!(bayer_inf(u32::MAX as usize, u32::MAX as usize), 0x5555_5555_5555_5555);
    assert_eq!(bayer_inf(usize::MAX, usize::MAX), 0x5555_5555_5555_5555);
    assert_eq!(bayer_inf(usize::MAX, 0), 0xaaaa_aaaa_aaaa_aaaa);
    assert_eq!(bayer_inf(0, usize::MAX), 0xffff_ffff_ffff_ffff);
}

fn ign_exact(x: u128, y: u128) -> u64 {
    let inner = (6711056 * x + 583715 * y) % 100_000_000;
    let product = (inner * 529829189) % 1_000_000_000_000_000;
    ((product << 64) / 1_000_000_000_000_000) as u64
}

#[test]
fn interleaved_gradient_noise_values() {
    assert_eq!(interleaved_gradient_noise(0, 0), 0);
    // x = 1: 0.06711056 * 52.9829189 = 3.555713357813584, of which the fraction is kept
    let expected = ((555713357813584u128 << 64) / 1_000_000_000_000_000) as u64;
    assert_eq!(interleaved_gradient_noise(1, 0), expected);
    assert_eq!(expected >> 54, (0.555713357813584f64 * 1024.0) as u64);
    // y = 1: 0.00583715 * 52.9829189 = 0.309269245057135
    let expected = ((309269245057135u128 << 64) / 1_000_000_000_000_000) as u64;
    assert_eq!(interleaved_gradient_noise(0, 1), expected);
    for (x, y) in [(1, 1), (17, 4), (799, 479), (123456, 654321), (usize::MAX, usize::MAX)] {
        assert_eq!(interleaved_gradient_noise(x, y), ign_exact(x as u128, y as u128));
    }
}

#[test]
fn interleaved_gradient_noise_is_deterministic() {
    for y in 0..20 {
        for x in 0..20 {
            assert_eq!(interleaved_gradient_noise(x, y), interleaved_gradient_noise(x, y));
        }
    }
    // and not constant
    assert_ne!(interleaved_gradient_noise(3, 5), interleaved_gradient_noise(4, 5));
}

#[test]
fn pick_walks_the_running_sum() {
    let half: u64 = 1 << 63;
    let weights = [10, 20, 30, 40];
    assert_eq!(pick_from_barycentric_weights(&weights, 0), 0);
    // noise * 100: 9.99.. -> still index 0; 10 -> index 1
    assert_eq!(pick_from_barycentric_weights(&weights, u64::MAX / 10), 0);
    assert_eq!(pick_from_barycentric_weights(&weights, u64::MAX / 10 + 1), 1);
    assert_eq!(pick_from_barycentric_weights(&weights, half), 2);
    assert_eq!(pick_from_barycentric_weights(&weights, half + half / 2), 3);
    assert_eq!(pick_from_barycentric_weights(&weights, u64::MAX), 3);
}

#[test]
fn pick_clips_negative_weights() {
    let half: u64 = 1 << 63;
    // clipped: 0, 50, 0, 50
    let weights = [-100, 50, -7, 50];
    assert_eq!(pick_from_barycentric_weights(&weights, 0), 1);
    assert_eq!(pick_from_barycentric_weights(&weights, half - 1), 1);
    assert_eq!(pick_from_barycentric_weights(&weights, half), 3);
    assert_eq!(pick_from_barycentric_weights(&weights, u64::MAX), 3);
    // a one-hot vector selects its index whatever the noise
    for noise in [0, 1, half, u64::MAX] {
        assert_eq!(pick_from_barycentric_weights(&[0, 0, 7, 0], noise), 2);
    }
}

#[test]
fn pick_without_a_positive_weight_takes_the_largest() {
    assert_eq!(pick_from_barycentric_weights(&[-5, -2, -9], 12345), 1);
    assert_eq!(pick_from_barycentric_weights(&[-5, -2, -2], u64::MAX), 1);
    assert_eq!(pick_from_barycentric_weights(&[0, 0, 0], 0), 0);
    assert_eq!(pick_from_barycentric_weights(&[-1], 77), 0);
}

#[test]
fn pick_with_large_weights() {
    let big: i128 = 1 << 120;
    let weights = [big, big, big, big];
    let quarter: u64 = 1 << 62;
    assert_eq!(pick_from_barycentric_weights(&weights, quarter - 1), 0);
    assert_eq!(pick_from_barycentric_weights(&weights, quarter), 1);
    assert_eq!(pick_from_barycentric_weights(&weights, 3 * quarter), 3);
}
