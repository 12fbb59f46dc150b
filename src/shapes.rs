//! The shapes that can be drawn and moved, and polygons drawn edge by edge.
use vstd::prelude::*;
use crate::canvas::{image_wf, lemma_paint_push, lemma_painted_then, painted, plot, Color};
use crate::circle::{circle_path, draw_circle};
use crate::color::{all_rgb_used, fresh_color, ColorAllocator};
use crate::circle::lemma_concat_contains;
use crate::line::{draw_line, lemma_axis_line_pixels, line_path, max_of, min_of, Point};
use crate::sampling::random_in;

verus! {

/// The pixels of the edges `vs[0] -> vs[1]`, ..., `vs[k - 1] -> vs[k % n]` of the
/// closed outline through the `n` vertices `vs`, edge after edge.
pub open spec fn edge_paths(vs: Seq<(int, int)>, k: nat) -> Seq<(int, int)>
    decreases k,
{
    if k == 0 {
        Seq::empty()
    } else {
        let a = vs[k - 1];
        let b = vs[(k as int) % (vs.len() as int)];
        edge_paths(vs, (k - 1) as nat) + line_path(a.0, a.1, b.0, b.1)
    }
}

/// The pixels of the closed outline through the vertices `vs`, in drawing order.
pub open spec fn outline(vs: Seq<(int, int)>) -> Seq<(int, int)> {
    edge_paths(vs, vs.len())
}

/// The coordinates of each point of `ps`.
pub open spec fn coords(ps: Seq<Point>) -> Seq<(int, int)> {
    ps.map_values(|p: Point| p@)
}

/// Draws the closed outline through the vertices `vs` in colour `c`.
pub fn draw_polygon(img: &mut raster::Image, vs: &Vec<Point>, c: Color)
    requires
        image_wf(*old(img)),
        vs@.len() > 0,
    ensures
        image_wf(*final(img)),
        painted(*old(img), *final(img), outline(coords(vs@)), c),
{
    let ghost img0 = *img;
    let ghost cs = coords(vs@);
    let n = vs.len();
    let mut i: usize = 0;
    while i < n
        invariant
            n == vs@.len(),
            n > 0,
            i <= n,
            cs == coords(vs@),
            image_wf(*img),
            painted(img0, *img, edge_paths(cs, i as nat), c),
        decreases n - i,
    {
        let ghost img1 = *img;
        let a = vs[i];
        let b = vs[(i + 1) % n];
        draw_line(img, a, b, c);
        proof {
            lemma_painted_then(img0, img1, *img, edge_paths(cs, i as nat), line_path(a.0 as int, a.1 as int, b.0 as int, b.1 as int), c);
            assert(cs[i as int] == a@);
            assert(cs[(i as int + 1) % (n as int)] == b@);
        }
        i = i + 1;
    }
}

/// A shape that can be rasterized into an image.
pub trait Drawable {
    /// `after` is `before` with this shape drawn into it.
    spec fn draws(&self, before: raster::Image, after: raster::Image) -> bool;

    /// Writes the pixels of this shape that lie inside `image`.
    fn draw(&self, image: &mut raster::Image)
        requires
            image_wf(*old(image)),
        ensures
            image_wf(*final(image)),
            final(image).width == old(image).width,
            final(image).height == old(image).height,
            self.draws(*old(image), *final(image)),
    ;
}

/// A shape that can be moved so that it is anchored at a given position.
pub trait Displayable: Sized {
    /// The shape after `display(x, y, color)`.
    spec fn displayed(&self, x: i32, y: i32, color: Color) -> Self;

    /// Whether the points derived from anchor (x, y) fit in `i32`.
    spec fn anchor_fits(x: i32, y: i32) -> bool;

    /// Moves the shape so that its anchor is (x, y); its other defining points
    /// follow at fixed offsets from the anchor, and it takes colour `color`
    /// where it has one.
    fn display(&mut self, x: i32, y: i32, color: Color)
        requires
            Self::anchor_fits(x, y),
        ensures
            *final(self) == old(self).displayed(x, y, color),
    ;
}

impl Point {
    /// Writes this point's pixel, when it lies inside the image, in a colour
    /// newly taken from `colors`, and returns that colour; `None`, with nothing
    /// written, when `colors` has no colour left.
    pub fn draw_with(&self, image: &mut raster::Image, colors: &mut ColorAllocator) -> (res: Option<Color>)
        requires
            image_wf(*old(image)),
            old(colors).wf(),
        ensures
            image_wf(*final(image)),
            final(colors).wf(),
            res is None <==> all_rgb_used(old(colors)@),
            res is None ==> final(colors)@ == old(colors)@ && *final(image) == *old(image),
            res matches Some(c) ==> fresh_color(old(colors)@, final(colors)@, c)
                && painted(*old(image), *final(image), seq![self@], c),
    {
        let got = colors.allocate();
        if let Some(c) = got {
            proof {
                lemma_paint_push(image.bytes@, image.width as int, image.height as int, Seq::empty(), self@, c);
                assert(Seq::<(int, int)>::empty().push(self@) == seq![self@]);
            }
            plot(image, self.0 as i64, self.1 as i64, c);
        }
        got
    }
}

impl Drawable for Point {
    /// A point is drawn as its own pixel, in a random opaque colour; `draw_with`
    /// takes the colour from an allocator instead.
    open spec fn draws(&self, before: raster::Image, after: raster::Image) -> bool {
        exists|c: Color| c.a == 255 && #[trigger] painted(before, after, seq![self@], c)
    }

    fn draw(&self, image: &mut raster::Image) {
        let c = Color { r: random_in(0, 256) as u8, g: random_in(0, 256) as u8, b: random_in(0, 256) as u8, a: 255 };
        let ghost img0 = *image;
        proof {
            lemma_paint_push(image.bytes@, image.width as int, image.height as int, Seq::empty(), self@, c);
            assert(Seq::<(int, int)>::empty().push(self@) == seq![self@]);
        }
        plot(image, self.0 as i64, self.1 as i64, c);
        assert(painted(img0, *image, seq![self@], c));
    }
}

impl Displayable for Point {
    open spec fn anchor_fits(x: i32, y: i32) -> bool {
        true
    }

    open spec fn displayed(&self, x: i32, y: i32, color: Color) -> Self {
        Point(x, y)
    }

    fn display(&mut self, x: i32, y: i32, color: Color) {
        *self = Point(x, y);
    }
}

/// The segment from `first_p` to `sec_p`.
#[derive(Clone, Copy, Debug)]
pub struct Line {
    pub first_p: Point,
    pub sec_p: Point,
    pub color: Color,
}

impl Line {
    /// The line from `a` to `b`, in a colour newly taken from `colors`; `None`
    /// when `colors` has no colour left.
    pub fn new(a: &Point, b: &Point, colors: &mut ColorAllocator) -> (l: Option<Self>)
        requires
            old(colors).wf(),
        ensures
            final(colors).wf(),
            l is None <==> all_rgb_used(old(colors)@),
            l is None ==> final(colors)@ == old(colors)@,
            l matches Some(l) ==> l.first_p == *a && l.sec_p == *b && fresh_color(old(colors)@, final(colors)@, l.color),
    {
        match colors.allocate() {
            Some(color) => Some(Line { first_p: *a, sec_p: *b, color }),
            None => None,
        }
    }

    /// A line between two random points of [0, width) x [0, height), in a colour
    /// from `colors`; `None` when `colors` has no colour left.
    pub fn random(width: i32, height: i32, colors: &mut ColorAllocator) -> (l: Option<Self>)
        requires
            width > 0,
            height > 0,
            old(colors).wf(),
        ensures
            final(colors).wf(),
            l is None <==> all_rgb_used(old(colors)@),
            l is None ==> final(colors)@ == old(colors)@,
            l matches Some(l) ==> {
                &&& 0 <= l.first_p.0 < width && 0 <= l.first_p.1 < height
                &&& 0 <= l.sec_p.0 < width && 0 <= l.sec_p.1 < height
                &&& fresh_color(old(colors)@, final(colors)@, l.color)
            },
    {
        let p1 = Point::random(width, height);
        let p2 = Point::random(width, height);
        Line::new(&p1, &p2, colors)
    }
}

impl Drawable for Line {
    open spec fn draws(&self, before: raster::Image, after: raster::Image) -> bool {
        painted(before, after, line_path(self.first_p.0 as int, self.first_p.1 as int, self.sec_p.0 as int, self.sec_p.1 as int), self.color)
    }

    fn draw(&self, image: &mut raster::Image) {
        draw_line(image, self.first_p, self.sec_p, self.color);
    }
}

impl Displayable for Line {
    open spec fn anchor_fits(x: i32, y: i32) -> bool {
        x < i32::MAX && y < i32::MAX
    }

    open spec fn displayed(&self, x: i32, y: i32, color: Color) -> Self {
        Line { first_p: Point(x, y), sec_p: Point((x + 1) as i32, (y + 1) as i32), color }
    }

    fn display(&mut self, x: i32, y: i32, color: Color) {
        *self = Line { first_p: Point(x, y), sec_p: Point(x + 1, y + 1), color };
    }
}

/// The triangle with corners `first_p`, `sec_p` and `third_p`.
#[derive(Clone, Copy, Debug)]
pub struct Triangle {
    pub first_p: Point,
    pub sec_p: Point,
    pub third_p: Point,
    pub color: Color,
}

impl Triangle {
    /// The triangle with corners `a`, `b` and `c`, in a colour newly taken from
    /// `colors`; `None` when `colors` has no colour left.
    pub fn new(a: &Point, b: &Point, c: &Point, colors: &mut ColorAllocator) -> (t: Option<Self>)
        requires
            old(colors).wf(),
        ensures
            final(colors).wf(),
            t is None <==> all_rgb_used(old(colors)@),
            t is None ==> final(colors)@ == old(colors)@,
            t matches Some(t) ==> t.first_p == *a && t.sec_p == *b && t.third_p == *c && fresh_color(old(colors)@, final(colors)@, t.color),
    {
        match colors.allocate() {
            Some(color) => Some(Triangle { first_p: *a, sec_p: *b, third_p: *c, color }),
            None => None,
        }
    }

    /// The corners, in order.
    pub open spec fn vertices(&self) -> Seq<(int, int)> {
        seq![self.first_p@, self.sec_p@, self.third_p@]
    }
}

impl Drawable for Triangle {
    /// A triangle is drawn as its three edges, in its own colour.
    open spec fn draws(&self, before: raster::Image, after: raster::Image) -> bool {
        painted(before, after, outline(self.vertices()), self.color)
    }

    fn draw(&self, image: &mut raster::Image) {
        let vs = vec![self.first_p, self.sec_p, self.third_p];
        proof {
            assert(coords(vs@) =~= self.vertices());
        }
        draw_polygon(image, &vs, self.color);
    }
}

impl Displayable for Triangle {
    open spec fn anchor_fits(x: i32, y: i32) -> bool {
        x <= i32::MAX - 2 && y <= i32::MAX - 2
    }

    open spec fn displayed(&self, x: i32, y: i32, color: Color) -> Self {
        Triangle {
            first_p: Point(x, y),
            sec_p: Point((x + 1) as i32, (y + 1) as i32),
            third_p: Point((x + 2) as i32, (y + 2) as i32),
            color,
        }
    }

    fn display(&mut self, x: i32, y: i32, color: Color) {
        *self = Triangle { first_p: Point(x, y), sec_p: Point(x + 1, y + 1), third_p: Point(x + 2, y + 2), color };
    }
}

/// The axis-aligned rectangle with opposite corners `first_p` and `sec_p`.
#[derive(Clone, Copy, Debug)]
pub struct Rectangle {
    pub first_p: Point,
    pub sec_p: Point,
    pub color: Color,
}

/// The four corners of the rectangle with opposite corners (x0, y0) and (x1, y1),
/// in drawing order.
pub open spec fn rect_corners(x0: int, y0: int, x1: int, y1: int) -> Seq<(int, int)> {
    seq![(x0, y0), (x1, y0), (x1, y1), (x0, y1)]
}

impl Rectangle {
    /// The rectangle with opposite corners `a` and `b`, in a colour newly taken
    /// from `colors`; `None` when `colors` has no colour left.
    pub fn new(a: &Point, b: &Point, colors: &mut ColorAllocator) -> (r: Option<Self>)
        requires
            old(colors).wf(),
        ensures
            final(colors).wf(),
            r is None <==> all_rgb_used(old(colors)@),
            r is None ==> final(colors)@ == old(colors)@,
            r matches Some(r) ==> r.first_p == *a && r.sec_p == *b && fresh_color(old(colors)@, final(colors)@, r.color),
    {
        match colors.allocate() {
            Some(color) => Some(Rectangle { first_p: *a, sec_p: *b, color }),
            None => None,
        }
    }

    /// The corners, in drawing order.
    pub open spec fn vertices(&self) -> Seq<(int, int)> {
        rect_corners(self.first_p.0 as int, self.first_p.1 as int, self.sec_p.0 as int, self.sec_p.1 as int)
    }
}

impl Drawable for Rectangle {
    /// A rectangle is drawn as its four edges, in its own colour.
    open spec fn draws(&self, before: raster::Image, after: raster::Image) -> bool {
        painted(before, after, outline(self.vertices()), self.color)
    }

    fn draw(&self, image: &mut raster::Image) {
        let a = Point::new(self.first_p.0, self.first_p.1);
        let b = Point::new(self.sec_p.0, self.first_p.1);
        let c = Point::new(self.sec_p.0, self.sec_p.1);
        let d = Point::new(self.first_p.0, self.sec_p.1);
        let vs = vec![a, b, c, d];
        proof {
            assert(coords(vs@) =~= self.vertices());
        }
        draw_polygon(image, &vs, self.color);
    }
}

impl Displayable for Rectangle {
    open spec fn anchor_fits(x: i32, y: i32) -> bool {
        x < i32::MAX && y < i32::MAX
    }

    open spec fn displayed(&self, x: i32, y: i32, color: Color) -> Self {
        Rectangle { first_p: Point(x, y), sec_p: Point((x + 1) as i32, (y + 1) as i32), color }
    }

    fn display(&mut self, x: i32, y: i32, color: Color) {
        *self = Rectangle { first_p: Point(x, y), sec_p: Point(x + 1, y + 1), color };
    }
}

/// The circle of radius `radius` centred on `center`.
#[derive(Clone, Copy, Debug)]
pub struct Circle {
    pub center: Point,
    pub radius: i32,
    pub color: Color,
}

impl Circle {
    /// The circle centred on `center` with radius `radius`, in a colour newly
    /// taken from `colors`; `None` when `colors` has no colour left.
    pub fn new(center: Point, radius: i32, colors: &mut ColorAllocator) -> (c: Option<Self>)
        requires
            old(colors).wf(),
        ensures
            final(colors).wf(),
            c is None <==> all_rgb_used(old(colors)@),
            c is None ==> final(colors)@ == old(colors)@,
            c matches Some(c) ==> c.center == center && c.radius == radius && fresh_color(old(colors)@, final(colors)@, c.color),
    {
        match colors.allocate() {
            Some(color) => Some(Circle { center, radius, color }),
            None => None,
        }
    }


    /// A circle centred on a random point of [0, width) x [0, height), with a
    /// radius drawn from [0, min(width, height) / 2), in a colour from `colors`;
    /// `None` when `colors` has no colour left.
    pub fn random(width: i32, height: i32, colors: &mut ColorAllocator) -> (c: Option<Self>)
        requires
            width >= 2,
            height >= 2,
            old(colors).wf(),
        ensures
            final(colors).wf(),
            c is None <==> all_rgb_used(old(colors)@),
            c is None ==> final(colors)@ == old(colors)@,
            c matches Some(c) ==> {
                &&& 0 <= c.center.0 < width && 0 <= c.center.1 < height
                &&& 0 <= c.radius < (if width < height { width } else { height }) / 2
                &&& fresh_color(old(colors)@, final(colors)@, c.color)
            },
    {
        let center = Point::random(width, height);
        let side = if width < height { width } else { height };
        let radius = random_in(0, side / 2);
        Circle::new(center, radius, colors)
    }
}

impl Drawable for Circle {
    open spec fn draws(&self, before: raster::Image, after: raster::Image) -> bool {
        painted(before, after, circle_path(self.center.0 as int, self.center.1 as int, self.radius as int), self.color)
    }

    fn draw(&self, image: &mut raster::Image) {
        draw_circle(image, self.center, self.radius, self.color);
    }
}

impl Displayable for Circle {
    open spec fn anchor_fits(x: i32, y: i32) -> bool {
        true
    }

    open spec fn displayed(&self, x: i32, y: i32, color: Color) -> Self {
        Circle { center: Point(x, y), radius: self.radius, color }
    }

    fn display(&mut self, x: i32, y: i32, color: Color) {
        *self = Circle { center: Point(x, y), radius: self.radius, color };
    }
}

/// Whichever way round its two corners are given, a rectangle is drawn as four
/// edges that close up: from the first corner along its row to the second
/// corner's column, down that column to the second corner, back along the
/// second corner's row, and up the first corner's column to where it started.
pub proof fn lemma_rectangle_edges(x0: int, y0: int, x1: int, y1: int)
    ensures
        rect_corners(x0, y0, x1, y1).len() == 4,
        outline(rect_corners(x0, y0, x1, y1)) == line_path(x0, y0, x1, y0) + line_path(x1, y0, x1, y1)
            + line_path(x1, y1, x0, y1) + line_path(x0, y1, x0, y0),
        forall|i: int| 0 <= i < 4 ==> {
            let a = #[trigger] rect_corners(x0, y0, x1, y1)[i];
            let b = rect_corners(x0, y0, x1, y1)[(i + 1) % 4];
            a.0 == b.0 || a.1 == b.1
        },
{
    let vs = rect_corners(x0, y0, x1, y1);
    assert(vs[0] == (x0, y0) && vs[1] == (x1, y0) && vs[2] == (x1, y1) && vs[3] == (x0, y1));
    assert(edge_paths(vs, 0) == Seq::<(int, int)>::empty());
    assert(vs.len() == 4);
    assert((1int) % 4 == 1);
    assert(edge_paths(vs, 1) == edge_paths(vs, 0) + line_path(vs[0].0, vs[0].1, vs[1].0, vs[1].1));
    assert(edge_paths(vs, 1) =~= line_path(x0, y0, x1, y0));
    assert(edge_paths(vs, 2) == edge_paths(vs, 1) + line_path(x1, y0, x1, y1));
    assert(edge_paths(vs, 3) == edge_paths(vs, 2) + line_path(x1, y1, x0, y1));
    assert(edge_paths(vs, 4) == edge_paths(vs, 3) + line_path(x0, y1, x0, y0));
}

/// Whether `q` lies on the border of the axis-aligned rectangle with opposite
/// corners (x0, y0) and (x1, y1).
pub open spec fn on_rect_border(x0: int, y0: int, x1: int, y1: int, q: (int, int)) -> bool {
    &&& min_of(x0, x1) <= q.0 <= max_of(x0, x1)
    &&& min_of(y0, y1) <= q.1 <= max_of(y0, y1)
    &&& (q.0 == x0 || q.0 == x1 || q.1 == y0 || q.1 == y1)
}

/// The pixels of a rectangle drawn from corners (x0, y0) and (x1, y1) are exactly
/// the border of the box those corners span, whichever corner comes first and
/// whichever diagonal is given.
pub proof fn lemma_rectangle_border(x0: int, y0: int, x1: int, y1: int)
    ensures
        forall|q: (int, int)| #[trigger] outline(rect_corners(x0, y0, x1, y1)).contains(q)
            <==> on_rect_border(x0, y0, x1, y1, q),
{
    lemma_rectangle_edges(x0, y0, x1, y1);
    let e1 = line_path(x0, y0, x1, y0);
    let e2 = line_path(x1, y0, x1, y1);
    let e3 = line_path(x1, y1, x0, y1);
    let e4 = line_path(x0, y1, x0, y0);
    lemma_axis_line_pixels(x0, y0, x1, y0);
    lemma_axis_line_pixels(x1, y0, x1, y1);
    lemma_axis_line_pixels(x1, y1, x0, y1);
    lemma_axis_line_pixels(x0, y1, x0, y0);
    lemma_concat_contains(e1, e2);
    lemma_concat_contains(e1 + e2, e3);
    lemma_concat_contains(e1 + e2 + e3, e4);
    assert forall|q: (int, int)| #[trigger] outline(rect_corners(x0, y0, x1, y1)).contains(q)
        <==> on_rect_border(x0, y0, x1, y1, q) by {
        assert(outline(rect_corners(x0, y0, x1, y1)).contains(q) <==> (
            e1.contains(q) || e2.contains(q) || e3.contains(q) || e4.contains(q)));
    }
}

} // verus!
