use drawing::canvas::Color;
use drawing::color::ColorAllocator;
use drawing::isqrt::{floor_sqrt5_times, isqrt};
use drawing::pentagon::Pentagon;
use drawing::line::{draw_line, Point};
use drawing::shapes::{Displayable, Drawable};
use raster::Image;

fn coords(vs: &[Point]) -> Vec<(i32, i32)> {
    vs.iter().map(|p| (p.0, p.1)).collect()
}

#[test]
fn pentagon_vertices_radius_ten() {
    let mut colors = ColorAllocator::new();
    let p = Pentagon::new(Point::new(50, 50), 10, &mut colors).unwrap();
    assert_eq!(coords(&p.corners()), vec![(50, 40), (59, 46), (55, 58), (44, 58), (40, 46)]);
}

#[test]
fn pentagon_vertices_round_toward_zero() {
    let mut colors = ColorAllocator::new();
    let p = Pentagon::new(Point::new(-5, -5), 10, &mut colors).unwrap();
    assert_eq!(coords(&p.corners()), vec![(-5, -15), (4, -8), (0, 3), (-10, 3), (-14, -8)]);
}

#[test]
fn pentagon_vertices_are_distinct_and_near_the_radius() {
    let mut colors = ColorAllocator::new();
    for r in [50, 77, 1000, 123_456] {
        let vs = coords(&Pentagon::new(Point::new(0, 0), r, &mut colors).unwrap().corners());
        for i in 0..5 {
            for j in (i + 1)..5 {
                assert_ne!(vs[i], vs[j]);
            }
            let d2 = (vs[i].0 as i64).pow(2) + (vs[i].1 as i64).pow(2);
            let r = r as i64;
            assert!((r - 2) * (r - 2) <= d2 && d2 <= r * r, "{:?}", vs[i]);
        }
    }
}

#[test]
fn unit_pentagon_vertices_collapse() {
    let mut colors = ColorAllocator::new();
    let vs = coords(&Pentagon::new(Point::new(0, 0), 1, &mut colors).unwrap().corners());
    assert_eq!(vs, vec![(0, -1), (0, 0), (0, 0), (0, 0), (0, 0)]);
}

#[test]
fn pentagon_draws_its_five_edges() {
    let mut colors = ColorAllocator::new();
    let p = Pentagon::new(Point::new(20, 20), 12, &mut colors).unwrap();
    let vs = p.corners();
    let mut a = Image::blank(40, 40);
    p.draw(&mut a);
    let mut b = Image::blank(40, 40);
    for i in 0..5 {
        draw_line(&mut b, vs[i], vs[(i + 1) % 5], p.color);
    }
    assert_eq!(a.bytes, b.bytes);
    let top = a.get_pixel(20, 8).unwrap();
    assert_eq!((top.r, top.g, top.b), (p.color.r, p.color.g, p.color.b));
}

#[test]
fn pentagon_display_and_random() {
    let mut colors = ColorAllocator::new();
    let mut p = Pentagon::new(Point::new(0, 0), 60, &mut colors).unwrap();
    assert!(colors.is_used(p.color));
    let c = Color { r: 1, g: 1, b: 1, a: 255 };
    p.display(9, 8, c);
    assert_eq!((p.center, p.radius, p.color), (Point(9, 8), 60, c));
    let mut colors = ColorAllocator::new();
    let q = Pentagon::random(400, 320, &mut colors).unwrap();
    assert!(50 <= q.radius && q.radius < 53);
    assert!(q.center.0 < 400 && q.center.1 < 320);
}

#[test]
fn square_roots() {
    assert_eq!(isqrt(0), 0);
    assert_eq!(isqrt(99), 9);
    assert_eq!(isqrt(100), 10);
    assert_eq!(floor_sqrt5_times(0), 0);
    assert_eq!(floor_sqrt5_times(10), 22);
    assert_eq!(floor_sqrt5_times(1_000_000), 2_236_067);
}

#[test]
fn pentagon_vertices_can_round_outward() {
    let mut colors = ColorAllocator::new();
    let p = Pentagon::new(Point::new(-10, -10), 10, &mut colors).unwrap();
    let vs = coords(&p.corners());
    assert_eq!(vs[2], (-4, -1));
    for &(x, y) in &vs {
        let d2 = (x + 10).pow(2) + (y + 10).pow(2);
        assert!(64 <= d2 && d2 <= 144, "{:?}", (x, y));
    }
    assert!(vs.iter().any(|&(x, y)| (x + 10).pow(2) + (y + 10).pow(2) > 100));
}
