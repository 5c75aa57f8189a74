use epd_dither::barycentric::line::LineProjector;
use epd_dither::barycentric::octahedron::OctahedronProjector;
use epd_dither::barycentric::ratio::{Barycentric, Ratio};
use epd_dither::barycentric::tetrahedron::TetrahedronProjector;
use epd_dither::barycentric::triangle::TriangleProjector;
use epd_dither::barycentric::vector::{Point3, CHANNEL_MAX};

fn p(x: u16, y: u16, z: u16) -> Point3 {
    Point3::new(x, y, z).unwrap()
}

#[test]
fn point_new_checks_the_range() {
    assert_eq!(CHANNEL_MAX, 1023);
    assert!(Point3::new(1023, 0, 1023).is_some());
    assert!(Point3::new(1024, 0, 0).is_none());
    assert!(Point3::new(0, 1024, 0).is_none());
    assert!(Point3::new(0, 0, 65535).is_none());
    let q = Point3::new(1, 2, 3).unwrap();
    assert_eq!((q.x, q.y, q.z), (1, 2, 3));
}

#[test]
fn point_minus_is_componentwise() {
    let d = p(1, 20, 3).minus(&p(4, 5, 6));
    assert_eq!((d.x, d.y, d.z), (-3, 15, -3));
}

#[test]
fn line_project_weights_sum_to_one() {
    let line = LineProjector::new([p(0, 0, 0), p(10, 0, 0)]);
    assert_eq!(line.length_squared, 100);
    let w = line.project(&p(3, 4, 0));
    assert_eq!((w.num, w.den), ([70, 30], 100));
    for q in [p(3, 4, 0), p(900, 7, 1), p(0, 1023, 1023), p(10, 0, 0), p(5, 5, 5)] {
        let w = line.project(&q);
        assert!(w.den > 0);
        assert_eq!(w.num[0] + w.num[1], w.den);
    }
}

#[test]
fn line_project_extrapolates_outside() {
    let line = LineProjector::new([p(5, 5, 5), p(15, 5, 5)]);
    let beyond = line.project(&p(20, 5, 5));
    assert_eq!((beyond.num, beyond.den), ([-50, 150], 100));
    let before = line.project(&p(2, 5, 5));
    assert_eq!((before.num, before.den), ([130, -30], 100));
}

#[test]
fn line_project_at_the_ends() {
    let line = LineProjector::new([p(5, 5, 5), p(15, 5, 5)]);
    let at_a = line.project(&p(5, 5, 5));
    assert_eq!((at_a.num, at_a.den), ([1, 0], 1));
    let at_b = line.project(&p(15, 5, 5));
    assert_eq!((at_b.num, at_b.den), ([0, 100], 100));
}

#[test]
fn clipping_project_clamps() {
    let line = LineProjector::new([p(5, 5, 5), p(15, 5, 5)]);
    let (w, clipped) = line.clipping_project(&p(20, 6, 5));
    assert_eq!((w.num, w.den, clipped), ([0, 1], 1, true));
    let (w, clipped) = line.clipping_project(&p(2, 5, 9));
    assert_eq!((w.num, w.den, clipped), ([1, 0], 1, true));
    let (w, clipped) = line.clipping_project(&p(8, 9, 5));
    assert_eq!((w.num, w.den, clipped), ([70, 30], 100, false));
    let unclipped = line.project(&p(8, 9, 5));
    assert_eq!((w.num, w.den), (unclipped.num, unclipped.den));
}

#[test]
fn degenerate_line_gives_the_origin() {
    let line = LineProjector::new([p(7, 8, 9), p(7, 8, 9)]);
    assert_eq!(line.length_squared, 0);
    for q in [p(7, 8, 9), p(0, 0, 0), p(1023, 1023, 1023), p(7, 8, 10)] {
        let w = line.project(&q);
        assert_eq!((w.num, w.den), ([1, 0], 1));
        let (w, clipped) = line.clipping_project(&q);
        assert_eq!((w.num, w.den, clipped), ([1, 0], 1, false));
    }
}

#[test]
fn bary_to_point_inverts_project() {
    let line = LineProjector::new([p(5, 5, 5), p(15, 25, 5)]);
    let w = line.project(&p(15, 25, 5));
    let q = line.bary_to_point(&w);
    // (15, 25, 5) over the denominator 500
    assert_eq!((q.num.x, q.num.y, q.num.z, q.den), (7500, 12500, 2500, 500));
    let half = Barycentric { num: [1, 1], den: 2 };
    let mid = line.bary_to_point(&half);
    assert_eq!((mid.num.x, mid.num.y, mid.num.z, mid.den), (20, 30, 10, 2));
    let d = mid.distance_squared(&p(10, 15, 9));
    // the midpoint is (10, 15, 5): distance 4, squared 16 = 64 / 4
    assert_eq!((d.num, d.den), (64, 4));
}

#[test]
fn ratio_less_than_compares_fractions() {
    let third = Ratio { num: 1, den: 3 };
    let half = Ratio { num: 2, den: 4 };
    let also_half = Ratio { num: 5, den: 10 };
    assert!(third.less_than(&half));
    assert!(!half.less_than(&third));
    assert!(!half.less_than(&also_half));
    assert!(!also_half.less_than(&half));
}

#[test]
fn barycentric_helpers() {
    let w = Barycentric { num: [3, -1, 7, 0], den: 9 };
    assert!(w.has_negative());
    assert_eq!(w.max_num(), 7);
    let v = Barycentric { num: [0, 5, 4], den: 9 };
    assert!(!v.has_negative());
    assert_eq!(v.max_num(), 5);
    let n = Barycentric { num: [-4, -2], den: 1 };
    assert_eq!(n.max_num(), -2);
}

#[test]
fn triangle_project_gives_foot_and_height() {
    let t = TriangleProjector::new([p(0, 0, 0), p(10, 0, 0), p(0, 10, 0)]).unwrap();
    assert_eq!(t.normal_norm_squared, 10000);
    let (w, height) = t.project(&p(2, 3, 7));
    assert_eq!((w.num, w.den), ([5000, 2000, 3000], 10000));
    assert_eq!(height, 700);
    // squared distance from the plane: 700^2 / 10000 = 49
    assert_eq!(height * height / t.normal_norm_squared, 49);
    let (outside, _) = t.project(&p(20, 3, 0));
    assert_eq!((outside.num, outside.den), ([-13000, 20000, 3000], 10000));
    assert!(outside.has_negative());
}

#[test]
fn triangle_at_its_corners() {
    let corners = [p(1, 2, 3), p(40, 5, 6), p(7, 80, 9)];
    let t = TriangleProjector::new(corners).unwrap();
    for (i, c) in corners.iter().enumerate() {
        let (w, height) = t.project(c);
        assert_eq!(height, 0);
        for k in 0..3 {
            assert_eq!(w.num[k], if k == i { w.den } else { 0 });
        }
    }
}

#[test]
fn degenerate_triangle_is_refused() {
    assert!(TriangleProjector::new([p(0, 0, 0), p(5, 5, 5), p(10, 10, 10)]).is_none());
    assert!(TriangleProjector::new([p(3, 3, 3), p(3, 3, 3), p(10, 0, 10)]).is_none());
    assert!(TriangleProjector::new([p(0, 0, 0), p(5, 5, 5), p(10, 10, 11)]).is_some());
}

#[test]
fn tetrahedron_project_by_cramer() {
    let t = TetrahedronProjector::new([p(0, 0, 0), p(10, 0, 0), p(0, 10, 0), p(0, 0, 10)]).unwrap();
    assert_eq!(t.volume, 1000);
    assert!(!t.flipped);
    let w = t.project(&p(1, 2, 3));
    assert_eq!((w.num, w.den), ([400, 100, 200, 300], 1000));
    let out = t.project(&p(10, 10, 10));
    assert_eq!((out.num, out.den), ([-2000, 1000, 1000, 1000], 1000));
    assert!(out.has_negative());
}

#[test]
fn tetrahedron_of_either_orientation() {
    let t = TetrahedronProjector::new([p(0, 0, 0), p(0, 10, 0), p(10, 0, 0), p(0, 0, 10)]).unwrap();
    assert_eq!(t.volume, 1000);
    assert!(t.flipped);
    let w = t.project(&p(1, 2, 3));
    assert_eq!((w.num, w.den), ([400, 200, 100, 300], 1000));
}

#[test]
fn degenerate_tetrahedron_is_refused() {
    assert!(
        TetrahedronProjector::new([p(0, 0, 0), p(10, 0, 0), p(0, 10, 0), p(10, 10, 0)]).is_none()
    );
    assert!(
        TetrahedronProjector::new([p(0, 0, 0), p(10, 0, 0), p(0, 10, 0), p(10, 10, 1)]).is_some()
    );
}

fn regular() -> [Point3; 6] {
    // poles on the x axis, equator walked +y, +z, -y, -z
    [
        p(900, 500, 500),
        p(100, 500, 500),
        p(500, 900, 500),
        p(500, 500, 900),
        p(500, 100, 500),
        p(500, 500, 100),
    ]
}

#[test]
fn octahedron_project_inside() {
    let o = OctahedronProjector::new(regular()).unwrap();
    let (w, inside) = o.project(&p(500, 500, 500));
    assert!(inside);
    assert_eq!(w.num.iter().sum::<i128>(), w.den);
    // the centre is the midpoint of the poles
    assert_eq!(w.num[0] * 2, w.den);
    assert_eq!(w.num[1] * 2, w.den);
    assert_eq!(&w.num[2..], &[0, 0, 0, 0]);
    let (w, inside) = o.project(&p(600, 450, 400));
    assert!(inside);
    assert_eq!(w.num.iter().sum::<i128>(), w.den);
    // the point lies in the wedge of -y and -z, the last one
    assert_eq!(w.num[2], 0);
    assert_eq!(w.num[3], 0);
    // x = 900 a + 100 b + 500 (1 - a - b), y = 500 - 400 c, z = 500 - 400 d
    assert_eq!(w.num[4] * 8, w.den);
    assert_eq!(w.num[5] * 4, w.den);
    assert_eq!(w.num[0] * 16, w.den * 7);
    assert_eq!(w.num[1] * 16, w.den * 3);
}

#[test]
fn octahedron_project_outside() {
    let o = OctahedronProjector::new(regular()).unwrap();
    let (w, inside) = o.project(&p(900, 900, 500));
    assert!(!inside);
    assert_eq!(w.num.iter().sum::<i128>(), w.den);
    assert!(w.num.iter().any(|&n| n < 0));
}

#[test]
fn octahedron_at_its_vertices() {
    let v = regular();
    let o = OctahedronProjector::new(v).unwrap();
    for (i, c) in v.iter().enumerate() {
        let (w, inside) = o.project(c);
        assert!(inside);
        for k in 0..6 {
            assert_eq!(w.num[k], if k == i { w.den } else { 0 });
        }
    }
}

#[test]
fn octahedron_needs_an_equator_around_the_axis() {
    let v = regular();
    // equator not walked around the axis: +y, -y, +z, -z
    assert!(OctahedronProjector::new([v[0], v[1], v[2], v[4], v[3], v[5]]).is_none());
    // poles that are no opposite pair
    assert!(OctahedronProjector::new([v[0], v[2], v[1], v[3], v[4], v[5]]).is_none());
    // walked the other way round
    assert!(OctahedronProjector::new([v[0], v[1], v[5], v[4], v[3], v[2]]).is_some());
}

#[test]
fn find_opposites_of_a_regular_octahedron() {
    // +x, +y, +z, -x, -y, -z
    let colors = [
        p(900, 500, 500),
        p(500, 900, 500),
        p(500, 500, 900),
        p(100, 500, 500),
        p(500, 100, 500),
        p(500, 500, 100),
    ];
    assert_eq!(OctahedronProjector::find_opposites(&colors), Some([(0, 3), (1, 4), (2, 5)]));
    // an octahedron with axes of unequal length, listed pair by pair
    let stretched = [
        p(1000, 500, 500),
        p(0, 500, 500),
        p(500, 600, 500),
        p(500, 400, 500),
        p(500, 500, 510),
        p(500, 500, 490),
    ];
    assert_eq!(OctahedronProjector::find_opposites(&stretched), Some([(0, 1), (2, 3), (4, 5)]));
}

#[test]
fn find_opposites_fails_on_a_flat_palette() {
    let flat = [p(0, 0, 0), p(10, 0, 0), p(0, 10, 0), p(10, 10, 0), p(5, 5, 0), p(7, 3, 0)];
    assert_eq!(OctahedronProjector::find_opposites(&flat), None);
}
