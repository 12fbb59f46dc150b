use drawing::canvas::Color;
use drawing::color::ColorAllocator;
use drawing::line::{draw_line, Point};
use drawing::shapes::{Circle, Displayable, Drawable, Line, Rectangle, Triangle};
use raster::Image;

const RED: Color = Color { r: 200, g: 10, b: 20, a: 255 };

fn lit(img: &Image) -> Vec<(i32, i32)> {
    let mut out = Vec::new();
    for y in 0..img.height {
        for x in 0..img.width {
            let p = img.get_pixel(x, y).unwrap();
            if (p.r, p.g, p.b, p.a) != (0, 0, 0, 255) {
                out.push((x, y));
            }
        }
    }
    sorted(out)
}

fn sorted(mut v: Vec<(i32, i32)>) -> Vec<(i32, i32)> {
    v.sort();
    v.dedup();
    v
}

fn line_pixels(a: (i32, i32), b: (i32, i32), w: i32, h: i32) -> Vec<(i32, i32)> {
    let mut img = Image::blank(w, h);
    draw_line(&mut img, Point(a.0, a.1), Point(b.0, b.1), RED);
    lit(&img)
}

#[test]
fn diagonal_line_scenario() {
    let mut colors = ColorAllocator::new();
    let mut img = Image::blank(10, 10);
    let line = Line::new(&Point::new(0, 0), &Point::new(5, 5), &mut colors).unwrap();
    line.draw(&mut img);
    assert_eq!(lit(&img), vec![(0, 0), (1, 1), (2, 2), (3, 3), (4, 4), (5, 5)]);
    let p = img.get_pixel(3, 3).unwrap();
    let c = line.color;
    assert_eq!((p.r, p.g, p.b, p.a), (c.r, c.g, c.b, 255));
}

#[test]
fn zero_radius_circle_scenario() {
    let mut colors = ColorAllocator::new();
    let mut img = Image::blank(10, 10);
    Circle::new(Point::new(5, 5), 0, &mut colors).unwrap().draw(&mut img);
    assert_eq!(lit(&img), vec![(5, 5)]);
}

#[test]
fn triangle_is_union_of_its_edges() {
    let mut colors = ColorAllocator::new();
    let mut img = Image::blank(10, 10);
    let t = Triangle::new(&Point::new(0, 0), &Point::new(4, 0), &Point::new(0, 4), &mut colors).unwrap();
    t.draw(&mut img);
    let mut expected = line_pixels((0, 0), (4, 0), 10, 10);
    expected.extend(line_pixels((4, 0), (0, 4), 10, 10));
    expected.extend(line_pixels((0, 4), (0, 0), 10, 10));
    let got = lit(&img);
    assert_eq!(got, sorted(expected));
    for corner in [(0, 0), (4, 0), (0, 4)] {
        assert!(got.contains(&corner));
    }
}

#[test]
fn zero_length_line_in_and_out_of_bounds() {
    assert_eq!(line_pixels((3, 4), (3, 4), 10, 10), vec![(3, 4)]);
    assert_eq!(line_pixels((-3, 4), (-3, 4), 10, 10), Vec::<(i32, i32)>::new());
    assert_eq!(line_pixels((10, 0), (10, 0), 10, 10), Vec::<(i32, i32)>::new());
}

#[test]
fn axis_lines_swap_endpoints() {
    for (a, b) in [((1, 2), (8, 2)), ((4, 0), (4, 9)), ((0, 9), (9, 0)), ((2, 2), (7, 7))] {
        assert_eq!(sorted(line_pixels(a, b, 10, 10)), sorted(line_pixels(b, a, 10, 10)));
    }
}

#[test]
fn shallow_line_exact_pixels() {
    assert_eq!(line_pixels((0, 0), (2, 1), 5, 5), vec![(0, 0), (1, 1), (2, 1)]);
    assert_eq!(line_pixels((2, 1), (0, 0), 5, 5), vec![(0, 0), (1, 1), (2, 1)]);
}

#[test]
fn line_clipped_at_edges() {
    assert_eq!(line_pixels((-2, 1), (2, 1), 2, 2), vec![(0, 1), (1, 1)]);
}

#[test]
fn circle_radius_two() {
    let mut colors = ColorAllocator::new();
    let mut img = Image::blank(9, 9);
    Circle::new(Point::new(4, 4), 2, &mut colors).unwrap().draw(&mut img);
    let got = lit(&img);
    let expected = sorted(vec![
        (4, 6), (4, 2), (6, 4), (2, 4),
        (5, 6), (5, 2), (3, 6), (3, 2), (6, 5), (6, 3), (2, 5), (2, 3),
    ]);
    assert_eq!(got, expected);
    for &(x, y) in &got {
        assert!(got.contains(&(8 - x, y)));
        assert!(got.contains(&(x, 8 - y)));
        assert!(got.contains(&(y, x)));
    }
}

#[test]
fn negative_radius_draws_nothing() {
    let mut colors = ColorAllocator::new();
    let mut img = Image::blank(9, 9);
    Circle::new(Point::new(4, 4), -3, &mut colors).unwrap().draw(&mut img);
    assert!(lit(&img).is_empty());
}

#[test]
fn circle_partly_outside() {
    let mut colors = ColorAllocator::new();
    let mut img = Image::blank(5, 5);
    Circle::new(Point::new(0, 0), 1, &mut colors).unwrap().draw(&mut img);
    assert_eq!(lit(&img), vec![(0, 1), (1, 0)]);
}

#[test]
fn rectangle_any_corner_order() {
    let mut colors = ColorAllocator::new();
    let mut a = Image::blank(8, 8);
    let mut b = Image::blank(8, 8);
    Rectangle::new(&Point::new(1, 1), &Point::new(5, 4), &mut colors).unwrap().draw(&mut a);
    Rectangle::new(&Point::new(5, 1), &Point::new(1, 4), &mut colors).unwrap().draw(&mut b);
    let got = lit(&a);
    assert_eq!(got, lit(&b));
    assert_eq!(got.len(), 14);
    for x in 1..=5 {
        assert!(got.contains(&(x, 1)) && got.contains(&(x, 4)));
    }
    for y in 1..=4 {
        assert!(got.contains(&(1, y)) && got.contains(&(5, y)));
    }
}

#[test]
fn point_draws_one_opaque_pixel() {
    let mut img = Image::blank(4, 4);
    Point::new(2, 3).draw(&mut img);
    let p = img.get_pixel(2, 3).unwrap();
    assert_eq!(p.a, 255);
    for &(x, y) in &lit(&img) {
        assert_eq!((x, y), (2, 3));
    }
    let mut img = Image::blank(4, 4);
    Point::new(4, 0).draw(&mut img);
    assert!(lit(&img).is_empty());
}

#[test]
fn display_moves_shapes() {
    let mut colors = ColorAllocator::new();
    let mut t = Triangle::new(&Point::new(0, 0), &Point::new(4, 0), &Point::new(0, 4), &mut colors).unwrap();
    let blue = Color { r: 0, g: 0, b: 255, a: 255 };
    t.display(3, 7, blue);
    assert_eq!((t.first_p, t.sec_p, t.third_p, t.color), (Point(3, 7), Point(4, 8), Point(5, 9), blue));
    let mut l = Line::new(&Point::new(0, 0), &Point::new(9, 9), &mut colors).unwrap();
    l.display(-1, 2, blue);
    assert_eq!((l.first_p, l.sec_p), (Point(-1, 2), Point(0, 3)));
    let mut r = Rectangle::new(&Point::new(0, 0), &Point::new(9, 9), &mut colors).unwrap();
    r.display(5, 5, blue);
    assert_eq!((r.first_p, r.sec_p), (Point(5, 5), Point(6, 6)));
    let mut c = Circle::new(Point::new(0, 0), 4, &mut colors).unwrap();
    c.display(1, 2, blue);
    assert_eq!((c.center, c.radius, c.color), (Point(1, 2), 4, blue));
    let mut p = Point::new(0, 0);
    p.display(8, 9, blue);
    assert_eq!(p, Point(8, 9));
}

#[test]
fn allocator_gives_distinct_colors() {
    let mut colors = ColorAllocator::new();
    let mut seen = Vec::new();
    for _ in 0..500 {
        let c = colors.allocate().unwrap();
        assert_eq!(c.a, 255);
        assert!(!seen.contains(&(c.r, c.g, c.b)));
        seen.push((c.r, c.g, c.b));
    }
}

#[test]
fn claim_refuses_a_used_triple() {
    let mut colors = ColorAllocator::new();
    assert_eq!(colors.try_claim(1, 2, 3), Some(Color { r: 1, g: 2, b: 3, a: 255 }));
    assert!(colors.is_used(Color { r: 1, g: 2, b: 3, a: 7 }));
    assert_eq!(colors.try_claim(1, 2, 3), None);
    assert!(!colors.is_used(Color { r: 1, g: 2, b: 4, a: 255 }));
}

#[test]
fn random_shapes_stay_in_bounds() {
    let mut colors = ColorAllocator::new();
    for _ in 0..50 {
        let p = Point::random(7, 3);
        assert!(0 <= p.0 && p.0 < 7 && 0 <= p.1 && p.1 < 3);
        let l = Line::random(7, 3, &mut colors).unwrap();
        assert!(l.sec_p.0 < 7 && l.sec_p.1 < 3);
        let c = Circle::random(7, 4, &mut colors).unwrap();
        assert!(0 <= c.radius && c.radius < 2);
    }
}

#[test]
fn constructors_take_fresh_colors() {
    let mut colors = ColorAllocator::new();
    let a = Point::new(1, 2);
    let b = Point::new(3, 4);
    let l = Line::new(&a, &b, &mut colors).unwrap();
    let t = Triangle::new(&a, &b, &Point::new(5, 0), &mut colors).unwrap();
    let r = Rectangle::new(&a, &b, &mut colors).unwrap();
    let c = Circle::new(a, 3, &mut colors).unwrap();
    assert_eq!((l.first_p, l.sec_p), (a, b));
    assert_eq!((t.first_p, t.sec_p, t.third_p), (a, b, Point(5, 0)));
    assert_eq!((r.first_p, r.sec_p), (a, b));
    assert_eq!((c.center, c.radius), (a, 3));
    let got = [l.color, t.color, r.color, c.color];
    for i in 0..4 {
        assert_eq!(got[i].a, 255);
        assert!(colors.is_used(got[i]));
        for j in (i + 1)..4 {
            assert_ne!((got[i].r, got[i].g, got[i].b), (got[j].r, got[j].g, got[j].b));
        }
    }
    assert!(colors.try_claim(c.color.r, c.color.g, c.color.b).is_none());
}

#[test]
fn point_draw_with_takes_a_fresh_color() {
    let mut colors = ColorAllocator::new();
    let mut img = Image::blank(4, 4);
    let c = Point::new(1, 2).draw_with(&mut img, &mut colors).unwrap();
    assert_eq!(lit(&img), vec![(1, 2)]);
    let p = img.get_pixel(1, 2).unwrap();
    assert_eq!((p.r, p.g, p.b, p.a), (c.r, c.g, c.b, 255));
    assert!(colors.is_used(c));
    let d = Point::new(9, 9).draw_with(&mut img, &mut colors).unwrap();
    assert_ne!((c.r, c.g, c.b), (d.r, d.g, d.b));
    assert_eq!(lit(&img), vec![(1, 2)]);
}

#[test]
fn display_at_the_largest_anchor() {
    let blue = Color { r: 0, g: 0, b: 255, a: 255 };
    let mut p = Point::new(0, 0);
    p.display(i32::MAX, i32::MAX, blue);
    assert_eq!(p, Point(i32::MAX, i32::MAX));
    let mut colors = ColorAllocator::new();
    let mut c = Circle::new(Point::new(0, 0), 2, &mut colors).unwrap();
    c.display(i32::MAX, 0, blue);
    assert_eq!(c.center, Point(i32::MAX, 0));
    let mut l = Line::new(&Point::new(0, 0), &Point::new(1, 1), &mut colors).unwrap();
    l.display(i32::MAX - 1, 0, blue);
    assert_eq!(l.sec_p, Point(i32::MAX, 1));
}

#[test]
fn lines_do_not_depend_on_end_order() {
    for x0 in 0..7 {
        for y0 in 0..7 {
            for (x1, y1) in [(6, 1), (1, 5), (3, 0), (0, 4), (5, 6), (2, 3)] {
                assert_eq!(line_pixels((x0, y0), (x1, y1), 7, 7), line_pixels((x1, y1), (x0, y0), 7, 7));
            }
        }
    }
}
