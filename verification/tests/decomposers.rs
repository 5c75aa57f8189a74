use epd_dither::barycentric::octahedron::OctahedronProjector;
use epd_dither::barycentric::vector::Point3;
use epd_dither::decompose::octahedron::{
    LineDistanceCalculator, OctahedronDecomposer, OctahedronDecomposerAxisStrategy,
};
use epd_dither::decomposer_bruteforce::{DecomposerBruteforce, DecomposerBruteforceStrategy};
use epd_dither::helpers::opt_array_transpose;

fn p(x: u16, y: u16, z: u16) -> Point3 {
    Point3::new(x, y, z).unwrap()
}

/// Black, white, red, green, blue and yellow: six corners of the colour cube.
fn cube_palette() -> Vec<Point3> {
    vec![p(0, 0, 0), p(255, 255, 255), p(255, 0, 0), p(0, 255, 0), p(0, 0, 255), p(255, 255, 0)]
}

fn det(a: &Point3, b: &Point3, c: &Point3, d: &Point3) -> i64 {
    let e = |u: &Point3| [u.x as i64 - a.x as i64, u.y as i64 - a.y as i64, u.z as i64 - a.z as i64];
    let (b, c, d) = (e(b), e(c), e(d));
    b[0] * (c[1] * d[2] - c[2] * d[1]) + b[1] * (c[2] * d[0] - c[0] * d[2])
        + b[2] * (c[0] * d[1] - c[1] * d[0])
}

#[test]
fn bruteforce_builds_every_simplex_that_is_not_degenerate() {
    let colors = cube_palette();
    let d = DecomposerBruteforce::new(&colors).unwrap();
    assert_eq!(d.num_colors, 6);
    let mut tetras = Vec::new();
    for i in 0..6 {
        for j in i + 1..6 {
            for k in j + 1..6 {
                for l in k + 1..6 {
                    if det(&colors[i], &colors[j], &colors[k], &colors[l]) != 0 {
                        tetras.push([i, j, k, l]);
                    }
                }
            }
        }
    }
    assert_eq!(d.tetras.iter().map(|t| t.1).collect::<Vec<_>>(), tetras);
    // black, red, green and yellow lie in one plane, as do black, white, blue and yellow
    assert_eq!(d.tetras.len(), 13);
    // no three corners of a cube lie on one line
    assert_eq!(d.faces.len(), 20);
    assert_eq!(d.faces[0].1, [0, 1, 2]);
    assert_eq!(d.faces[19].1, [3, 4, 5]);
    assert_eq!(d.edges.len(), 15);
    assert_eq!(d.edges[0].1, [0, 1]);
    assert_eq!(d.edges[5].1, [1, 2]);
    assert_eq!(d.edges[14].1, [4, 5]);
}

#[test]
fn bruteforce_skips_degenerate_simplices() {
    // four points on a line and one beside it
    let colors = vec![p(0, 0, 0), p(1, 1, 1), p(2, 2, 2), p(2, 2, 2), p(5, 0, 0)];
    let d = DecomposerBruteforce::new(&colors).unwrap();
    assert_eq!(d.tetras.len(), 0);
    assert_eq!(
        d.faces.iter().map(|f| f.1).collect::<Vec<_>>(),
        vec![[0, 1, 4], [0, 2, 4], [0, 3, 4], [1, 2, 4], [1, 3, 4]]
    );
    assert_eq!(d.edges.len(), 9);
    assert!(d.edges.iter().all(|e| e.1 != [2, 3]));
}

#[test]
fn bruteforce_fails_without_any_simplex() {
    assert!(DecomposerBruteforce::new(&[]).is_none());
    assert!(DecomposerBruteforce::new(&[p(1, 2, 3)]).is_none());
    assert!(DecomposerBruteforce::new(&[p(1, 2, 3), p(1, 2, 3), p(1, 2, 3)]).is_none());
    assert!(DecomposerBruteforce::new(&[p(1, 2, 3), p(1, 2, 4)]).is_some());
}

#[test]
fn bruteforce_at_a_palette_colour_is_one_hot() {
    let colors = cube_palette();
    let d = DecomposerBruteforce::new(&colors).unwrap();
    for strategy in [DecomposerBruteforceStrategy::FavorMix, DecomposerBruteforceStrategy::FavorDominant] {
        for (i, c) in colors.iter().enumerate() {
            let w = d.decompose(c, strategy.clone());
            assert_eq!(w.num.len(), 6);
            for k in 0..6 {
                assert_eq!(w.num[k], if k == i { w.den } else { 0 }, "colour {i}, entry {k}");
            }
        }
    }
}

#[test]
fn favor_mix_prefers_a_mixture_over_a_colour_inside_the_hull() {
    // the last colour lies inside the tetrahedron of the first four
    let colors = vec![p(0, 0, 0), p(100, 0, 0), p(0, 100, 0), p(0, 0, 100), p(10, 10, 10)];
    let d = DecomposerBruteforce::new(&colors).unwrap();
    let mix = d.decompose(&colors[4], DecomposerBruteforceStrategy::FavorMix);
    assert_eq!(mix.num[4], 0);
    assert_eq!(mix.num.iter().sum::<i128>(), mix.den);
    assert!(mix.num.iter().all(|&n| n >= 0));
    let dominant = d.decompose(&colors[4], DecomposerBruteforceStrategy::FavorDominant);
    assert_eq!((dominant.num.clone(), dominant.den), (vec![0, 0, 0, 0, dominant.den], dominant.den));
}

#[test]
fn bruteforce_inside_the_hull_is_a_convex_mixture() {
    let colors = cube_palette();
    let d = DecomposerBruteforce::new(&colors).unwrap();
    for q in [p(100, 100, 100), p(128, 128, 128), p(200, 100, 50), p(30, 200, 60), p(250, 250, 10)] {
        for strategy in
            [DecomposerBruteforceStrategy::FavorMix, DecomposerBruteforceStrategy::FavorDominant]
        {
            let w = d.decompose(&q, strategy);
            assert!(w.den > 0);
            assert!(w.num.iter().all(|&n| n >= 0));
            assert_eq!(w.num.iter().sum::<i128>(), w.den);
            // the mixture is the colour itself
            let mix = |f: fn(&Point3) -> u16| -> i128 {
                colors.iter().zip(&w.num).map(|(c, n)| f(c) as i128 * n).sum()
            };
            assert_eq!(mix(|c| c.x), q.x as i128 * w.den);
            assert_eq!(mix(|c| c.y), q.y as i128 * w.den);
            assert_eq!(mix(|c| c.z), q.z as i128 * w.den);
        }
    }
}

#[test]
fn bruteforce_strategies_prefer_different_tetrahedra() {
    let colors = cube_palette();
    let d = DecomposerBruteforce::new(&colors).unwrap();
    let q = p(128, 128, 128);
    let mix = d.decompose(&q, DecomposerBruteforceStrategy::FavorMix);
    let dominant = d.decompose(&q, DecomposerBruteforceStrategy::FavorDominant);
    let largest = |w: &epd_dither::barycentric::ratio::Weights| {
        let m = *w.num.iter().max().unwrap();
        (m, w.den)
    };
    let (m, md) = largest(&mix);
    let (n, nd) = largest(&dominant);
    // largest weight of FavorMix <= largest weight of FavorDominant
    assert!(m * nd <= n * md);
}

#[test]
fn bruteforce_outside_the_hull_takes_the_nearest_face_or_edge() {
    // one tetrahedron; the query point lies over its face in the plane z = 0
    let colors = vec![p(100, 100, 100), p(200, 100, 100), p(100, 200, 100), p(100, 100, 200)];
    let d = DecomposerBruteforce::new(&colors).unwrap();
    let w = d.decompose(&p(120, 130, 50), DecomposerBruteforceStrategy::FavorMix);
    // foot (120, 130, 100) in the face of the colours 0, 1, 2
    assert_eq!(w.num[3], 0);
    assert_eq!(w.num.iter().sum::<i128>(), w.den);
    assert_eq!(w.num[0] * 2, w.den);
    assert_eq!(w.num[1] * 5, w.den);
    assert_eq!(w.num[2] * 10, w.den * 3);
    // beyond an edge: nearest is the point (150, 100, 100) of the edge 0-1
    let w = d.decompose(&p(150, 50, 50), DecomposerBruteforceStrategy::FavorDominant);
    assert_eq!(w.num.iter().sum::<i128>(), w.den);
    assert_eq!(w.num[0] * 2, w.den);
    assert_eq!(w.num[1] * 2, w.den);
    assert_eq!((w.num[2], w.num[3]), (0, 0));
    // beyond a corner: clipped to the corner
    let w = d.decompose(&p(300, 50, 50), DecomposerBruteforceStrategy::FavorDominant);
    assert_eq!((w.num.clone(), w.den), (vec![0, 1, 0, 0], 1));
}

#[test]
fn bruteforce_with_two_colours_uses_the_edge() {
    let d = DecomposerBruteforce::new(&[p(0, 0, 0), p(100, 0, 0)]).unwrap();
    let w = d.decompose(&p(25, 40, 0), DecomposerBruteforceStrategy::FavorMix);
    assert_eq!((w.num.clone(), w.den), (vec![7500, 2500], 10000));
}

#[test]
fn to_global_scatters_local_weights() {
    let d = DecomposerBruteforce::new(&cube_palette()).unwrap();
    let local = epd_dither::barycentric::ratio::Barycentric { num: [5, 6, 7], den: 18 };
    let w = d.to_global_barycentric_coordinates(local, &[4, 0, 2]);
    assert_eq!((w.num.clone(), w.den), (vec![6, 0, 7, 0, 5, 0], 18));
    // an index outside the palette is left out
    let w = d.to_global_barycentric_coordinates(local, &[4, 9, 2]);
    assert_eq!((w.num.clone(), w.den), (vec![0, 0, 7, 0, 5, 0], 18));
}

/// +x, +y, +z, -x, -y, -z around (500, 500, 500).
fn octahedron_palette() -> Vec<Point3> {
    vec![
        p(900, 500, 500),
        p(500, 900, 500),
        p(500, 500, 900),
        p(100, 500, 500),
        p(500, 100, 500),
        p(500, 500, 100),
    ]
}

#[test]
fn octahedron_decomposer_finds_the_axes() {
    let d = OctahedronDecomposer::new(&octahedron_palette()).unwrap();
    assert_eq!(d.axis[0].poles, [0, 3]);
    assert_eq!(d.axis[1].poles, [1, 4]);
    assert_eq!(d.axis[2].poles, [2, 5]);
    assert_eq!(d.axis[0].color_to_vertex_index, [0, 2, 3, 1, 4, 5]);
    assert_eq!(d.get_axis_from_color(0), Some(0));
    assert_eq!(d.get_axis_from_color(3), Some(0));
    assert_eq!(d.get_axis_from_color(4), Some(1));
    assert_eq!(d.get_axis_from_color(2), Some(2));
    assert_eq!(d.get_axis_from_color(6), None);
}

#[test]
fn octahedron_decomposer_needs_six_colours_of_an_octahedron() {
    let mut colors = octahedron_palette();
    assert!(OctahedronDecomposer::new(&colors[..5]).is_none());
    colors.push(p(1, 1, 1));
    assert!(OctahedronDecomposer::new(&colors).is_none());
    let flat = [p(0, 0, 0), p(10, 0, 0), p(0, 10, 0), p(10, 10, 0), p(5, 5, 0), p(7, 3, 0)];
    assert!(OctahedronDecomposer::new(&flat).is_none());
}

#[test]
fn octahedron_average_at_the_centre_is_even() {
    let d = OctahedronDecomposer::new(&octahedron_palette()).unwrap();
    let w = d.decompose(&p(500, 500, 500), OctahedronDecomposerAxisStrategy::Average);
    assert!(w.den > 0);
    for k in 0..6 {
        assert_eq!(w.num[k] * 6, w.den, "entry {k}");
    }
}

#[test]
fn octahedron_average_outside_is_the_first_axis_alone() {
    let d = OctahedronDecomposer::new(&octahedron_palette()).unwrap();
    let q = p(950, 520, 510);
    let average = d.decompose(&q, OctahedronDecomposerAxisStrategy::Average);
    let first = d.decompose(&q, OctahedronDecomposerAxisStrategy::Axis(0));
    assert_eq!((average.num, average.den), (first.num, first.den));
    assert!(first.num.iter().any(|&n| n < 0));
}

#[test]
fn octahedron_axis_strategy_takes_the_axis_modulo_three() {
    let d = OctahedronDecomposer::new(&octahedron_palette()).unwrap();
    let q = p(600, 450, 400);
    for k in 0..3 {
        let a = d.decompose(&q, OctahedronDecomposerAxisStrategy::Axis(k));
        let b = d.decompose(&q, OctahedronDecomposerAxisStrategy::Axis(k + 3));
        assert_eq!((a.num, a.den), (b.num, b.den));
        assert_eq!(a.num.iter().sum::<i128>(), a.den);
        // around axis k the colour mixes the poles of k with one colour of each other pair
        assert!(a.num.iter().all(|&n| n >= 0));
    }
    // around the x axis: x = 500 + 400 (a - b), y = 500 - 400 c, z = 500 - 400 d
    let a = d.decompose(&q, OctahedronDecomposerAxisStrategy::Axis(0));
    assert_eq!(a.num[4] * 8, a.den);
    assert_eq!(a.num[5] * 4, a.den);
    assert_eq!(a.num[0] * 16, a.den * 7);
    assert_eq!(a.num[3] * 16, a.den * 3);
    assert_eq!((a.num[1], a.num[2]), (0, 0));
}

#[test]
fn octahedron_closest_and_furthest_pick_by_distance() {
    let d = OctahedronDecomposer::new(&octahedron_palette()).unwrap();
    // near the x axis, far from the z axis... distances from the axes:
    // x axis: dy^2 + dz^2 = 1 + 4, y axis: dx^2 + dz^2 = 100 + 4, z axis: dx^2 + dy^2 = 101
    let q = p(510, 501, 502);
    let closest = d.decompose(&q, OctahedronDecomposerAxisStrategy::Closest);
    let along_x = d.decompose(&q, OctahedronDecomposerAxisStrategy::Axis(0));
    assert_eq!((closest.num, closest.den), (along_x.num, along_x.den));
    let furthest = d.decompose(&q, OctahedronDecomposerAxisStrategy::Furthest);
    let along_y = d.decompose(&q, OctahedronDecomposerAxisStrategy::Axis(1));
    assert_eq!((furthest.num, furthest.den), (along_y.num, along_y.den));
    // at the centre all are equally far: the first axis is taken
    let c = p(500, 500, 500);
    let closest = d.decompose(&c, OctahedronDecomposerAxisStrategy::Closest);
    let furthest = d.decompose(&c, OctahedronDecomposerAxisStrategy::Furthest);
    let first = d.decompose(&c, OctahedronDecomposerAxisStrategy::Axis(0));
    assert_eq!((closest.num, closest.den), (first.num, first.den));
    assert_eq!((furthest.num, furthest.den), (first.num, first.den));
}

#[test]
fn octahedron_at_a_palette_colour_is_one_hot() {
    let colors = octahedron_palette();
    let d = OctahedronDecomposer::new(&colors).unwrap();
    let strategies = [
        OctahedronDecomposerAxisStrategy::Axis(0),
        OctahedronDecomposerAxisStrategy::Axis(1),
        OctahedronDecomposerAxisStrategy::Axis(2),
        OctahedronDecomposerAxisStrategy::Closest,
        OctahedronDecomposerAxisStrategy::Furthest,
        OctahedronDecomposerAxisStrategy::Average,
    ];
    for strategy in strategies {
        for (i, c) in colors.iter().enumerate() {
            let w = d.decompose(c, strategy);
            for k in 0..6 {
                assert_eq!(
                    w.num[k],
                    if k == i { w.den } else { 0 },
                    "{strategy:?}, colour {i}, entry {k}"
                );
            }
        }
    }
}

#[test]
fn line_distance_is_the_distance_from_the_line() {
    let l = LineDistanceCalculator::new([p(0, 0, 0), p(10, 0, 0)]).unwrap();
    let d = l.distance_squared(&p(500, 3, 4));
    // 25, over the squared length of the direction
    assert_eq!((d.num, d.den), (2500, 100));
    assert!(LineDistanceCalculator::new([p(1, 1, 1), p(1, 1, 1)]).is_none());
}

#[test]
fn opt_array_transpose_needs_every_entry() {
    assert_eq!(opt_array_transpose([Some(1), Some(2), Some(3)]), Some([1, 2, 3]));
    assert_eq!(opt_array_transpose([Some(1), None, Some(3)]), None);
    assert_eq!(opt_array_transpose::<u8, 0>([]), Some([]));
    assert_eq!(opt_array_transpose([Some("a".to_string())]), Some(["a".to_string()]));
}

#[test]
fn octahedron_weights_mix_back_to_the_colour() {
    let colors = octahedron_palette();
    let d = OctahedronDecomposer::new(&colors).unwrap();
    let strategies = [
        OctahedronDecomposerAxisStrategy::Axis(0),
        OctahedronDecomposerAxisStrategy::Axis(1),
        OctahedronDecomposerAxisStrategy::Axis(2),
        OctahedronDecomposerAxisStrategy::Closest,
        OctahedronDecomposerAxisStrategy::Furthest,
        OctahedronDecomposerAxisStrategy::Average,
    ];
    // inside, on a face, and outside
    for q in [p(600, 450, 400), p(700, 700, 500), p(1000, 20, 999), p(0, 0, 0)] {
        for strategy in strategies {
            let w = d.decompose(&q, strategy);
            assert_eq!(w.num.iter().sum::<i128>(), w.den);
            let mix = |f: fn(&Point3) -> u16| -> i128 {
                colors.iter().zip(&w.num).map(|(c, n)| f(c) as i128 * n).sum()
            };
            assert_eq!(mix(|c| c.x), q.x as i128 * w.den, "{strategy:?}");
            assert_eq!(mix(|c| c.y), q.y as i128 * w.den, "{strategy:?}");
            assert_eq!(mix(|c| c.z), q.z as i128 * w.den, "{strategy:?}");
        }
    }
}

#[test]
fn find_opposites_of_an_octahedron_with_uneven_arms() {
    // arms of different lengths along the three axes through (300, 400, 500),
    // listed so that no pair stands together
    let colors = [
        p(300, 400, 900),
        p(310, 400, 500),
        p(300, 1000, 500),
        p(0, 400, 500),
        p(300, 400, 450),
        p(300, 390, 500),
    ];
    assert_eq!(OctahedronProjector::find_opposites(&colors), Some([(0, 4), (1, 3), (2, 5)]));
}
