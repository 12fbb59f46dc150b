//! Circles, rasterized with the midpoint circle algorithm.
use vstd::prelude::*;
use crate::canvas::{image_wf, lemma_paint_push, lemma_painted_then, painted, plot, Color};
use crate::line::Point;

verus! {

/// The eight points symmetric to (cx + x, cy + y) about the centre (cx, cy), in
/// the order in which the circle rasterizer writes them.
pub open spec fn octant_points(cx: int, cy: int, x: int, y: int) -> Seq<(int, int)> {
    seq![
        (cx + x, cy + y), (cx + x, cy - y), (cx - x, cy + y), (cx - x, cy - y),
        (cx + y, cy + x), (cx + y, cy - x), (cx - y, cy + x), (cx - y, cy - x),
    ]
}

/// The points that the midpoint circle algorithm writes from octant offset (x, y)
/// on, with decision variable `d`, for a circle centred on (cx, cy).
pub open spec fn arc(cx: int, cy: int, x: int, y: int, d: int) -> Seq<(int, int)>
    decreases y - x + 2,
{
    if y < x {
        Seq::empty()
    } else {
        let nd = if d <= 0 { d + 4 * x + 6 } else { d + 4 * (x - y) + 10 };
        let ny = if d <= 0 { y } else { y - 1 };
        octant_points(cx, cy, x, y) + arc(cx, cy, x + 1, ny, nd)
    }
}

/// The points written for the circle of radius `r` centred on (cx, cy).
pub open spec fn circle_path(cx: int, cy: int, r: int) -> Seq<(int, int)> {
    arc(cx, cy, 0, r, 3 - 2 * r)
}

fn plot_octants(img: &mut raster::Image, cx: i64, cy: i64, x: i64, y: i64, c: Color)
    requires
        image_wf(*old(img)),
        -0x4_0000_0000 <= cx <= 0x4_0000_0000,
        -0x4_0000_0000 <= cy <= 0x4_0000_0000,
        -0x4_0000_0000 <= x <= 0x4_0000_0000,
        -0x4_0000_0000 <= y <= 0x4_0000_0000,
    ensures
        image_wf(*final(img)),
        painted(*old(img), *final(img), octant_points(cx as int, cy as int, x as int, y as int), c),
{
    let ghost b0 = old(img).bytes@;
    let ghost w = img.width as int;
    let ghost h = img.height as int;
    let ghost mut seen: Seq<(int, int)> = Seq::empty();
    proof {
        lemma_paint_push(b0, w, h, seen, ((cx + x) as int, (cy + y) as int), c);
        seen = seen.push(((cx + x) as int, (cy + y) as int));
    }
    plot(img, cx + x, cy + y, c);
    proof {
        lemma_paint_push(b0, w, h, seen, ((cx + x) as int, (cy - y) as int), c);
        seen = seen.push(((cx + x) as int, (cy - y) as int));
    }
    plot(img, cx + x, cy - y, c);
    proof {
        lemma_paint_push(b0, w, h, seen, ((cx - x) as int, (cy + y) as int), c);
        seen = seen.push(((cx - x) as int, (cy + y) as int));
    }
    plot(img, cx - x, cy + y, c);
    proof {
        lemma_paint_push(b0, w, h, seen, ((cx - x) as int, (cy - y) as int), c);
        seen = seen.push(((cx - x) as int, (cy - y) as int));
    }
    plot(img, cx - x, cy - y, c);
    proof {
        lemma_paint_push(b0, w, h, seen, ((cx + y) as int, (cy + x) as int), c);
        seen = seen.push(((cx + y) as int, (cy + x) as int));
    }
    plot(img, cx + y, cy + x, c);
    proof {
        lemma_paint_push(b0, w, h, seen, ((cx + y) as int, (cy - x) as int), c);
        seen = seen.push(((cx + y) as int, (cy - x) as int));
    }
    plot(img, cx + y, cy - x, c);
    proof {
        lemma_paint_push(b0, w, h, seen, ((cx - y) as int, (cy + x) as int), c);
        seen = seen.push(((cx - y) as int, (cy + x) as int));
    }
    plot(img, cx - y, cy + x, c);
    proof {
        lemma_paint_push(b0, w, h, seen, ((cx - y) as int, (cy - x) as int), c);
        seen = seen.push(((cx - y) as int, (cy - x) as int));
    }
    plot(img, cx - y, cy - x, c);
    assert(seen =~= octant_points(cx as int, cy as int, x as int, y as int));
}

/// Writes into `img`, in colour `c`, each pixel of the circle of radius `r`
/// centred on `center` that lies inside the image. A negative radius writes nothing.
pub fn draw_circle(img: &mut raster::Image, center: Point, r: i32, c: Color)
    requires
        image_wf(*old(img)),
    ensures
        image_wf(*final(img)),
        painted(*old(img), *final(img), circle_path(center.0 as int, center.1 as int, r as int), c),
{
    let ghost img0 = *img;
    let ghost full = circle_path(center.0 as int, center.1 as int, r as int);
    let cx: i64 = center.0 as i64;
    let cy: i64 = center.1 as i64;
    let mut x: i64 = 0;
    let mut y: i64 = r as i64;
    let mut d: i128 = 3 - 2 * (r as i128);
    let ghost mut seen: Seq<(int, int)> = Seq::empty();
    assert(d == 2 * (x + 1) * (x + 1) + y * y + (y - 1) * (y - 1) - 2 * r * r) by (nonlinear_arith)
        requires d == 3 - 2 * r, x == 0, y == r;
    assert(seen + arc(cx as int, cy as int, x as int, y as int, d as int) =~= full);
    while y >= x
        invariant
            0 <= x,
            y <= r,
            y >= x - 2 || y == r,
            x <= r + 2 || r < 0,
            d == 2 * (x + 1) * (x + 1) + y * y + (y - 1) * (y - 1) - 2 * r * r,
            cx == center.0,
            cy == center.1,
            seen + arc(cx as int, cy as int, x as int, y as int, d as int) == full,
            image_wf(*img),
            painted(img0, *img, seen, c),
        decreases y - x + 2,
    {
        let ghost img1 = *img;
        plot_octants(img, cx, cy, x, y, c);
        proof {
            lemma_painted_then(img0, img1, *img, seen, octant_points(cx as int, cy as int, x as int, y as int), c);
            let ghost rest = arc(cx as int, cy as int, x as int, y as int, d as int);
            seen = seen + octant_points(cx as int, cy as int, x as int, y as int);
            assert(0 <= x <= y <= r);
            assert(-0x1_0000_0000_0000_0000 <= d <= 0x10_0000_0000_0000_0000) by (nonlinear_arith)
                requires
                    d == 2 * (x + 1) * (x + 1) + y * y + (y - 1) * (y - 1) - 2 * r * r,
                    0 <= x <= y <= r <= 0x8000_0000;
        }
        if d <= 0 {
            proof {
                assert(2 * (x + 2) * (x + 2) + y * y + (y - 1) * (y - 1) - 2 * r * r == d + 4 * x + 6) by (nonlinear_arith)
                    requires d == 2 * (x + 1) * (x + 1) + y * y + (y - 1) * (y - 1) - 2 * r * r;
            }
            d = d + 4 * (x as i128) + 6;
        } else {
            proof {
                assert(2 * (x + 2) * (x + 2) + (y - 1) * (y - 1) + (y - 2) * (y - 2) - 2 * r * r == d + 4 * (x - y) + 10) by (nonlinear_arith)
                    requires d == 2 * (x + 1) * (x + 1) + y * y + (y - 1) * (y - 1) - 2 * r * r;
            }
            d = d + 4 * ((x - y) as i128) + 10;
            y = y - 1;
        }
        x = x + 1;
        proof {
            assert(seen + arc(cx as int, cy as int, x as int, y as int, d as int) =~= full);
        }
    }
    proof {
        assert(arc(cx as int, cy as int, x as int, y as int, d as int) == Seq::<(int, int)>::empty());
        assert(seen =~= full);
    }
}

/// Whether the points of `s` are closed under reflection across the vertical and
/// the horizontal axis through (cx, cy), and across the diagonal through it.
pub open spec fn symmetric_about(s: Seq<(int, int)>, cx: int, cy: int) -> bool {
    forall|p: (int, int)| #[trigger] s.contains(p) ==> {
        &&& s.contains((2 * cx - p.0, p.1))
        &&& s.contains((p.0, 2 * cy - p.1))
        &&& s.contains((cx + (p.1 - cy), cy + (p.0 - cx)))
    }
}

/// A point is in a concatenation exactly when it is in one of the two parts.
pub proof fn lemma_concat_contains(a: Seq<(int, int)>, b: Seq<(int, int)>)
    ensures
        forall|q: (int, int)| #[trigger] (a + b).contains(q) <==> a.contains(q) || b.contains(q),
{
    assert forall|q: (int, int)| #[trigger] (a + b).contains(q) <==> a.contains(q) || b.contains(q) by {
        if a.contains(q) {
            let i = choose|i: int| 0 <= i < a.len() && a[i] == q;
            assert((a + b)[i] == q);
        }
        if b.contains(q) {
            let i = choose|i: int| 0 <= i < b.len() && b[i] == q;
            assert((a + b)[a.len() + i] == q);
        }
        if (a + b).contains(q) {
            let i = choose|i: int| 0 <= i < (a + b).len() && (a + b)[i] == q;
            if i < a.len() {
                assert(a[i] == q);
            } else {
                assert(b[i - a.len()] == q);
            }
        }
    }
}

/// The eight points of one octant step are closed under the three reflections.
pub proof fn lemma_octant_symmetric(cx: int, cy: int, x: int, y: int)
    ensures
        symmetric_about(octant_points(cx, cy, x, y), cx, cy),
{
    let o = octant_points(cx, cy, x, y);
    assert(o[0] == (cx + x, cy + y));
    assert(o[1] == (cx + x, cy - y));
    assert(o[2] == (cx - x, cy + y));
    assert(o[3] == (cx - x, cy - y));
    assert(o[4] == (cx + y, cy + x));
    assert(o[5] == (cx + y, cy - x));
    assert(o[6] == (cx - y, cy + x));
    assert(o[7] == (cx - y, cy - x));
    assert forall|p: (int, int)| #[trigger] o.contains(p) implies {
        &&& o.contains((2 * cx - p.0, p.1))
        &&& o.contains((p.0, 2 * cy - p.1))
        &&& o.contains((cx + (p.1 - cy), cy + (p.0 - cx)))
    } by {
        let i = choose|i: int| 0 <= i < o.len() && o[i] == p;
        assert(0 <= i < 8);
    }
}

/// The points that the circle rasterizer writes from any octant offset on are
/// closed under the three reflections.
pub proof fn lemma_arc_symmetric(cx: int, cy: int, x: int, y: int, d: int)
    ensures
        symmetric_about(arc(cx, cy, x, y, d), cx, cy),
    decreases y - x + 2,
{
    if y >= x {
        let nd = if d <= 0 { d + 4 * x + 6 } else { d + 4 * (x - y) + 10 };
        let ny = if d <= 0 { y } else { y - 1 };
        let head = octant_points(cx, cy, x, y);
        let rest = arc(cx, cy, x + 1, ny, nd);
        lemma_arc_symmetric(cx, cy, x + 1, ny, nd);
        lemma_octant_symmetric(cx, cy, x, y);
        lemma_concat_contains(head, rest);
        assert(arc(cx, cy, x, y, d) == head + rest);
    }
}

/// The pixels written for a circle of any radius are symmetric under reflection
/// across the vertical and the horizontal axis through the centre, and across
/// the diagonal through it.
pub proof fn lemma_circle_symmetric(cx: int, cy: int, r: int, p: (int, int))
    requires
        circle_path(cx, cy, r).contains(p),
    ensures
        circle_path(cx, cy, r).contains((2 * cx - p.0, p.1)),
        circle_path(cx, cy, r).contains((p.0, 2 * cy - p.1)),
        circle_path(cx, cy, r).contains((cx + (p.1 - cy), cy + (p.0 - cx))),
{
    lemma_arc_symmetric(cx, cy, 0, r, 3 - 2 * r);
}

} // verus!
