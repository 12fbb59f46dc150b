//! Points and the lines between them, rasterized with Bresenham's algorithm.
use vstd::prelude::*;
use crate::canvas::{image_wf, in_bounds, lemma_paint_push, paint, painted, plot, set_bytes, Color};
use crate::sampling::random_in;

verus! {

/// A point with integer coordinates (x, y).
#[derive(Clone, Copy, Debug, PartialEq, Eq, Structural)]
pub struct Point(pub i32, pub i32);

impl Point {
    /// The point (a, b).
    pub fn new(a: i32, b: i32) -> (p: Self)
        ensures
            p.0 == a,
            p.1 == b,
    {
        Point(a, b)
    }

    /// The coordinates as a pair of integers.
    pub open spec fn view(&self) -> (int, int) {
        (self.0 as int, self.1 as int)
    }

    /// A point drawn uniformly from [0, width) x [0, height).
    pub fn random(width: i32, height: i32) -> (p: Self)
        requires
            width > 0,
            height > 0,
        ensures
            0 <= p.0 < width,
            0 <= p.1 < height,
    {
        let x = random_in(0, width);
        let y = random_in(0, height);
        Point(x, y)
    }
}

/// The absolute value of `v`.
pub open spec fn abs(v: int) -> int {
    if v < 0 { -v } else { v }
}

/// The step direction from `a` towards `b` along one axis.
pub open spec fn step_dir(a: int, b: int) -> int {
    if a < b { 1 } else { -1 }
}

/// The points that Bresenham's algorithm visits from (x, y) on the way to (x1, y1),
/// with error term `err`, steps `sx`, `sy`, and `dx = |x1 - x0|`, `dy = -|y1 - y0|`.
/// `fuel` bounds the number of steps taken.
pub open spec fn walk(x: int, y: int, err: int, x1: int, y1: int, sx: int, sy: int, dx: int, dy: int, fuel: nat) -> Seq<(int, int)>
    decreases fuel,
{
    if (x == x1 && y == y1) || fuel == 0 {
        seq![(x, y)]
    } else {
        let e2 = 2 * err;
        let nx = if e2 >= dy { x + sx } else { x };
        let e1 = if e2 >= dy { err + dy } else { err };
        let ny = if e2 <= dx { y + sy } else { y };
        let ne = if e2 <= dx { e1 + dx } else { e1 };
        seq![(x, y)] + walk(nx, ny, ne, x1, y1, sx, sy, dx, dy, (fuel - 1) as nat)
    }
}

/// The pixels that Bresenham's algorithm visits on its way from (x0, y0) to
/// (x1, y1): it starts at (x0, y0) and ends at (x1, y1).
pub open spec fn bresenham_path(x0: int, y0: int, x1: int, y1: int) -> Seq<(int, int)> {
    let dx = abs(x1 - x0);
    let dy = -abs(y1 - y0);
    walk(x0, y0, dx + dy, x1, y1, step_dir(x0, x1), step_dir(y0, y1), dx, dy, (dx - dy) as nat)
}

/// Whether (x0, y0) comes before (x1, y1), or equals it, in lexicographic order.
pub open spec fn lex_le(x0: int, y0: int, x1: int, y1: int) -> bool {
    x0 < x1 || (x0 == x1 && y0 <= y1)
}

/// The pixels of the line between (x0, y0) and (x1, y1): Bresenham's walk from
/// whichever end comes first in lexicographic order, so that the line does not
/// depend on the order in which its ends are given.
pub open spec fn line_path(x0: int, y0: int, x1: int, y1: int) -> Seq<(int, int)> {
    if lex_le(x0, y0, x1, y1) {
        bresenham_path(x0, y0, x1, y1)
    } else {
        bresenham_path(x1, y1, x0, y0)
    }
}

/// Writes into `img`, in colour `c`, each pixel of the line between `a` and `b`
/// that lies inside the image; the same pixels whichever end is given first.
pub fn draw_line(img: &mut raster::Image, a: Point, b: Point, c: Color)
    requires
        image_wf(*old(img)),
    ensures
        image_wf(*final(img)),
        painted(*old(img), *final(img), line_path(a.0 as int, a.1 as int, b.0 as int, b.1 as int), c),
{
    if a.0 < b.0 || (a.0 == b.0 && a.1 <= b.1) {
        draw_walk(img, a, b, c);
    } else {
        draw_walk(img, b, a, c);
    }
}

/// Writes into `img`, in colour `c`, each pixel inside the image that
/// Bresenham's algorithm visits on its way from `a` to `b`.
fn draw_walk(img: &mut raster::Image, a: Point, b: Point, c: Color)
    requires
        image_wf(*old(img)),
    ensures
        image_wf(*final(img)),
        painted(*old(img), *final(img), bresenham_path(a.0 as int, a.1 as int, b.0 as int, b.1 as int), c),
{
    let ghost img0 = *img;
    let ghost full = bresenham_path(a.0 as int, a.1 as int, b.0 as int, b.1 as int);
    let x1: i64 = b.0 as i64;
    let y1: i64 = b.1 as i64;
    let mut x: i64 = a.0 as i64;
    let mut y: i64 = a.1 as i64;
    let dx: i64 = if x1 >= x { x1 - x } else { x - x1 };
    let dy: i64 = if y1 >= y { y - y1 } else { y1 - y };
    let sx: i64 = if x < x1 { 1 } else { -1 };
    let sy: i64 = if y < y1 { 1 } else { -1 };
    let mut err: i128 = dx as i128 + dy as i128;
    let ghost bb: int = -dy;
    let ghost mut i: int = 0;
    let ghost mut j: int = 0;
    let ghost mut fuel: nat = (dx - dy) as nat;
    let ghost mut seen: Seq<(int, int)> = Seq::empty();
    assert(-0x1_0000_0000_0000_0000 * 4 <= err <= 0x1_0000_0000_0000_0000 * 4);
    assert(err == dx * (1 + j) - bb * (1 + i)) by (nonlinear_arith)
        requires err == dx - bb, i == 0, j == 0;
    loop
        invariant_except_break
            0 <= dx <= 0x1_0000_0000,
            0 <= bb <= 0x1_0000_0000,
            dy == -bb,
            dx == abs(b.0 - a.0),
            bb == abs(b.1 - a.1),
            sx == step_dir(a.0 as int, b.0 as int),
            sy == step_dir(a.1 as int, b.1 as int),
            x1 == b.0,
            y1 == b.1,
            0 <= i <= dx,
            0 <= j <= bb,
            x == a.0 + sx * i,
            y == a.1 + sy * j,
            err == dx * (1 + j) - bb * (1 + i),
            -0x1_0000_0000_0000_0000 * 4 <= err <= 0x1_0000_0000_0000_0000 * 4,
            fuel >= (dx - i) + (bb - j),
            seen + walk(x as int, y as int, err as int, x1 as int, y1 as int, sx as int, sy as int, dx as int, dy as int, fuel) == full,
            image_wf(*img),
            painted(img0, *img, seen, c),
        ensures
            image_wf(*img),
            painted(img0, *img, full, c),
        decreases (dx - i) + (bb - j),
    {
        assert(sx * i == if sx == 1 { i } else { -i }) by (nonlinear_arith)
            requires sx == 1 || sx == -1;
        assert(sy * j == if sy == 1 { j } else { -j }) by (nonlinear_arith)
            requires sy == 1 || sy == -1;
        assert(b.0 == a.0 + sx * dx) by (nonlinear_arith)
            requires sx == step_dir(a.0 as int, b.0 as int), dx == abs(b.0 - a.0);
        assert(b.1 == a.1 + sy * bb) by (nonlinear_arith)
            requires sy == step_dir(a.1 as int, b.1 as int), bb == abs(b.1 - a.1);
        plot(img, x, y, c);
        proof {
            let ghost old_seen = seen;
            seen = seen.push((x as int, y as int));
            assert(seen.drop_last() == old_seen);
        }
        if x == x1 && y == y1 {
            proof {
                assert(walk(x as int, y as int, err as int, x1 as int, y1 as int, sx as int, sy as int, dx as int, dy as int, fuel) == seq![(x as int, y as int)]);
                assert(seen =~= full);
            }
            break;
        }
        let ghost w_rest = walk(x as int, y as int, err as int, x1 as int, y1 as int, sx as int, sy as int, dx as int, dy as int, fuel);
        proof {
            if i == dx {
                assert(j < bb);
                assert(2 * err < -bb) by (nonlinear_arith)
                    requires err == dx * (1 + j) - bb * (1 + i), i == dx, j < bb, 0 <= dx, 0 <= j;
            }
            if j == bb {
                assert(i < dx);
                assert(2 * err > dx) by (nonlinear_arith)
                    requires err == dx * (1 + j) - bb * (1 + i), j == bb, i < dx, 0 <= bb, 0 <= i;
            }
        }
        let e2: i128 = 2 * err;
        if e2 >= dy as i128 {
            proof {
                assert(dx * (1 + j) - bb * (1 + (i + 1)) == dx * (1 + j) - bb * (1 + i) - bb) by (nonlinear_arith);
                i = i + 1;
                assert(sx * i == sx * (i - 1) + sx) by (nonlinear_arith);
            }
            err = err + dy as i128;
            x = x + sx;
        }
        if e2 <= dx as i128 {
            proof {
                assert(dx * (1 + (j + 1)) - bb * (1 + i) == dx * (1 + j) - bb * (1 + i) + dx) by (nonlinear_arith);
                j = j + 1;
                assert(sy * j == sy * (j - 1) + sy) by (nonlinear_arith);
            }
            err = err + dx as i128;
            y = y + sy;
        }
        proof {
            assert(w_rest == seq![(seen.last())] + walk(x as int, y as int, err as int, x1 as int, y1 as int, sx as int, sy as int, dx as int, dy as int, (fuel - 1) as nat));
            fuel = (fuel - 1) as nat;
            assert(seen + walk(x as int, y as int, err as int, x1 as int, y1 as int, sx as int, sy as int, dx as int, dy as int, fuel) =~= full);
            assert(-0x1_0000_0000_0000_0000 * 4 <= dx * (1 + j) - bb * (1 + i) <= 0x1_0000_0000_0000_0000 * 4) by (nonlinear_arith)
                requires 0 <= dx <= 0x1_0000_0000, 0 <= bb <= 0x1_0000_0000, 0 <= i <= dx, 0 <= j <= bb;
        }
    }
}

/// A line whose two ends coincide is the single pixel at that point: drawing it
/// writes that pixel when it lies inside the image, and nothing otherwise.
pub proof fn lemma_zero_length_line(x: int, y: int, bytes: Seq<u8>, w: int, h: int, c: Color)
    ensures
        line_path(x, y, x, y) == seq![(x, y)],
        paint(bytes, w, h, line_path(x, y, x, y), c) == (if in_bounds(w, h, x, y) {
            set_bytes(bytes, w, x, y, c)
        } else {
            bytes
        }),
{
    assert(line_path(x, y, x, y) == bresenham_path(x, y, x, y));
    assert(bresenham_path(x, y, x, y) == seq![(x, y)]);
    lemma_paint_push(bytes, w, h, Seq::empty(), (x, y), c);
    assert(Seq::<(int, int)>::empty().push((x, y)) == seq![(x, y)]);
}

/// The pixels (x + ux k, y + uy k) for k from 0 to n.
pub open spec fn straight_run(x: int, y: int, ux: int, uy: int, n: nat) -> Seq<(int, int)> {
    Seq::new(n + 1, |k: int| (x + ux * k, y + uy * k))
}

/// When every step of Bresenham's walk moves by the same (ux, uy) and leaves the
/// error term as it was, the walk is a straight run of pixels.
proof fn lemma_walk_straight(
    x: int, y: int, e: int, x1: int, y1: int, sx: int, sy: int, dx: int, dy: int,
    fuel: nat, ux: int, uy: int, n: nat,
)
    requires
        x1 == x + ux * n,
        y1 == y + uy * n,
        fuel >= n,
        -1 <= ux <= 1,
        -1 <= uy <= 1,
        ux != 0 || uy != 0,
        (ux != 0) == (2 * e >= dy),
        ux != 0 ==> ux == sx,
        (uy != 0) == (2 * e <= dx),
        uy != 0 ==> uy == sy,
        (if ux != 0 { dy } else { 0 }) + (if uy != 0 { dx } else { 0 }) == 0,
    ensures
        walk(x, y, e, x1, y1, sx, sy, dx, dy, fuel) == straight_run(x, y, ux, uy, n),
    decreases n,
{
    if n == 0 {
        assert(walk(x, y, e, x1, y1, sx, sy, dx, dy, fuel) =~= straight_run(x, y, ux, uy, n));
    } else {
        assert(ux * n != 0 || uy * n != 0) by (nonlinear_arith)
            requires ux != 0 || uy != 0, n > 0;
        assert(x1 == (x + ux) + ux * (n - 1)) by (nonlinear_arith)
            requires x1 == x + ux * n;
        assert(y1 == (y + uy) + uy * (n - 1)) by (nonlinear_arith)
            requires y1 == y + uy * n;
        lemma_walk_straight(x + ux, y + uy, e, x1, y1, sx, sy, dx, dy, (fuel - 1) as nat, ux, uy, (n - 1) as nat);
        let rest = straight_run(x + ux, y + uy, ux, uy, (n - 1) as nat);
        let all = straight_run(x, y, ux, uy, n);
        assert forall|k: int| 0 <= k < all.len() implies all[k] == (seq![(x, y)] + rest)[k] by {
            assert(all[k] == (x + ux * k, y + uy * k));
            if k == 0 {
                assert(ux * k == 0 && uy * k == 0) by (nonlinear_arith)
                    requires k == 0;
            } else {
                assert(rest[k - 1] == ((x + ux) + ux * (k - 1), (y + uy) + uy * (k - 1)));
                assert((seq![(x, y)] + rest)[k] == rest[k - 1]);
                assert(x + ux * k == (x + ux) + ux * (k - 1)) by (nonlinear_arith);
                assert(y + uy * k == (y + uy) + uy * (k - 1)) by (nonlinear_arith);
            }
        }
        assert(all =~= seq![(x, y)] + rest);
    }
}

/// A horizontal, vertical or diagonal line from (x0, y0) to (x1, y1) is the
/// straight run of pixels from one end to the other.
proof fn lemma_line_straight(x0: int, y0: int, x1: int, y1: int)
    requires
        x0 == x1 || y0 == y1 || abs(x1 - x0) == abs(y1 - y0),
        x0 != x1 || y0 != y1,
    ensures
        ({
            let n = if abs(x1 - x0) > abs(y1 - y0) { abs(x1 - x0) } else { abs(y1 - y0) };
            let ux = if x0 == x1 { 0 } else { step_dir(x0, x1) };
            let uy = if y0 == y1 { 0 } else { step_dir(y0, y1) };
            &&& x1 == x0 + ux * n
            &&& y1 == y0 + uy * n
            &&& bresenham_path(x0, y0, x1, y1) == straight_run(x0, y0, ux, uy, n as nat)
        }),
{
    let a = abs(x1 - x0);
    let b = abs(y1 - y0);
    let n = if a > b { a } else { b };
    let ux = if x0 == x1 { 0 } else { step_dir(x0, x1) };
    let uy = if y0 == y1 { 0 } else { step_dir(y0, y1) };
    assert(x1 == x0 + ux * n) by (nonlinear_arith)
        requires
            a == abs(x1 - x0), x0 != x1 ==> a == n,
            ux == if x0 == x1 { 0 } else { step_dir(x0, x1) };
    assert(y1 == y0 + uy * n) by (nonlinear_arith)
        requires
            b == abs(y1 - y0), y0 != y1 ==> b == n,
            uy == if y0 == y1 { 0 } else { step_dir(y0, y1) };
    lemma_walk_straight(x0, y0, a - b, x1, y1, step_dir(x0, x1), step_dir(y0, y1), a, -b, (a + b) as nat, ux, uy, n as nat);
}

/// A line is the same whichever of its ends is given first: drawing it from
/// p0 to p1 and from p1 to p0 writes the same pixels, in the same order.
pub proof fn lemma_line_direction_independent(x0: int, y0: int, x1: int, y1: int)
    ensures
        line_path(x0, y0, x1, y1) == line_path(x1, y1, x0, y0),
{
}

/// The smaller of `a` and `b`.
pub open spec fn min_of(a: int, b: int) -> int {
    if a < b { a } else { b }
}

/// The larger of `a` and `b`.
pub open spec fn max_of(a: int, b: int) -> int {
    if a < b { b } else { a }
}

/// Bresenham's walk along a horizontal or vertical line covers exactly the
/// pixels of the segment between its ends.
proof fn lemma_axis_walk_pixels(ax: int, ay: int, bx: int, by: int)
    requires
        ax == bx || ay == by,
    ensures
        forall|q: (int, int)| #[trigger] bresenham_path(ax, ay, bx, by).contains(q) <==> (
            min_of(ax, bx) <= q.0 <= max_of(ax, bx) && min_of(ay, by) <= q.1 <= max_of(ay, by)),
{
    if ax == bx && ay == by {
        assert(bresenham_path(ax, ay, bx, by) == seq![(ax, ay)]);
        assert forall|q: (int, int)| #[trigger] bresenham_path(ax, ay, bx, by).contains(q) <==> (
            min_of(ax, bx) <= q.0 <= max_of(ax, bx) && min_of(ay, by) <= q.1 <= max_of(ay, by)) by {
            if q == (ax, ay) {
                assert(seq![(ax, ay)][0] == q);
            }
        }
        return;
    }
    lemma_line_straight(ax, ay, bx, by);
    let a = abs(bx - ax);
    let b = abs(by - ay);
    let n = if a > b { a } else { b };
    let ux = if ax == bx { 0 } else { step_dir(ax, bx) };
    let uy = if ay == by { 0 } else { step_dir(ay, by) };
    let run = straight_run(ax, ay, ux, uy, n as nat);
    assert forall|q: (int, int)| #[trigger] run.contains(q) <==> (
        min_of(ax, bx) <= q.0 <= max_of(ax, bx) && min_of(ay, by) <= q.1 <= max_of(ay, by)) by {
        if run.contains(q) {
            let k = choose|k: int| 0 <= k < run.len() && run[k] == q;
            assert(q == (ax + ux * k, ay + uy * k));
            assert(ux * k == if ux == 1 { k } else if ux == -1 { -k } else { 0 }) by (nonlinear_arith)
                requires -1 <= ux <= 1;
            assert(uy * k == if uy == 1 { k } else if uy == -1 { -k } else { 0 }) by (nonlinear_arith)
                requires -1 <= uy <= 1;
        }
        if min_of(ax, bx) <= q.0 <= max_of(ax, bx) && min_of(ay, by) <= q.1 <= max_of(ay, by) {
            let k = if ax == bx { abs(q.1 - ay) } else { abs(q.0 - ax) };
            assert(ux * k == if ux == 1 { k } else if ux == -1 { -k } else { 0 }) by (nonlinear_arith)
                requires -1 <= ux <= 1;
            assert(uy * k == if uy == 1 { k } else if uy == -1 { -k } else { 0 }) by (nonlinear_arith)
                requires -1 <= uy <= 1;
            assert(run[k] == q);
        }
    }
}


/// A horizontal or vertical line from (ax, ay) to (bx, by) covers exactly the
/// pixels of the segment between its ends.
pub proof fn lemma_axis_line_pixels(ax: int, ay: int, bx: int, by: int)
    requires
        ax == bx || ay == by,
    ensures
        forall|q: (int, int)| #[trigger] line_path(ax, ay, bx, by).contains(q) <==> (
            min_of(ax, bx) <= q.0 <= max_of(ax, bx) && min_of(ay, by) <= q.1 <= max_of(ay, by)),
{
    if lex_le(ax, ay, bx, by) {
        lemma_axis_walk_pixels(ax, ay, bx, by);
    } else {
        lemma_axis_walk_pixels(bx, by, ax, ay);
    }
}
} // verus!
