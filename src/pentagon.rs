//! Regular pentagons, with vertices computed in exact integer arithmetic.
use vstd::prelude::*;
use crate::canvas::{painted, Color};
use crate::color::{all_rgb_used, fresh_color, ColorAllocator};
use crate::isqrt::{floor_sqrt, floor_sqrt5_times, isqrt, lemma_floor_sqrt};
use crate::sampling::random_in;
use crate::line::{abs, Point};
use crate::shapes::{coords, draw_polygon, outline, Displayable, Drawable};

verus! {

/// For `m >= 0`, the integer parts of `m` times cos 18, sin 18, cos 54 and sin 54
/// degrees. With `s` the integer part of `m` times the square root of five:
/// `m sin 18 = m (sqrt 5 - 1) / 4`, `m sin 54 = m (sqrt 5 + 1) / 4`, and, with `t`
/// the integer part of `2 m^2 sqrt 5`, `m cos 18 = sqrt(10 m^2 + 2 m^2 sqrt 5) / 4` and
/// `m cos 54 = sqrt(10 m^2 - 2 m^2 sqrt 5) / 4`; for `m > 0` none of these four is
/// an integer.
pub open spec fn pent_floors(m: int) -> (int, int, int, int) {
    let s = floor_sqrt(5 * m * m);
    let t = floor_sqrt(20 * m * m * m * m);
    (floor_sqrt(10 * m * m + t) / 4, (s - m) / 4, floor_sqrt(10 * m * m - t - 1) / 4, (s + m) / 4)
}

/// The integer `c + x` rounded toward zero, where `x` is `v` times a positive
/// irrational constant and `fm` is the integer part of `|v|` times that constant.
pub open spec fn shift(c: int, v: int, fm: int) -> int {
    if v == 0 {
        c
    } else {
        let f = c + (if v > 0 { fm } else { -fm - 1 });
        if f >= 0 { f } else { f + 1 }
    }
}

/// `v` saturated to the range of `i32`.
pub open spec fn clamp_i32(v: int) -> int {
    if v < i32::MIN { i32::MIN as int } else if v > i32::MAX { i32::MAX as int } else { v }
}

/// The five vertices of the regular pentagon centred on (cx, cy) with radius `r`:
/// vertex `k` lies at angle `72 k - 90` degrees, at (cx + r cos, cy + r sin),
/// each coordinate rounded toward zero and saturated to `i32`.
pub open spec fn pentagon_vertices(cx: int, cy: int, r: int) -> Seq<(int, int)> {
    let (c18, s18, c54, s54) = pent_floors(abs(r));
    let nr = -r;
    seq![
        (clamp_i32(cx), clamp_i32(cy - r)),
        (clamp_i32(shift(cx, r, c18)), clamp_i32(shift(cy, nr, s18))),
        (clamp_i32(shift(cx, r, c54)), clamp_i32(shift(cy, r, s54))),
        (clamp_i32(shift(cx, nr, c54)), clamp_i32(shift(cy, r, s54))),
        (clamp_i32(shift(cx, nr, c18)), clamp_i32(shift(cy, nr, s18))),
    ]
}

fn pentagon_floors(m: u64) -> (res: (i64, i64, i64, i64))
    requires
        m <= 0x8000_0000,
    ensures
        res.0 == pent_floors(m as int).0,
        res.1 == pent_floors(m as int).1,
        res.2 == pent_floors(m as int).2,
        res.3 == pent_floors(m as int).3,
        0 <= res.0 < 0x1_0000_0000,
        0 <= res.1 < 0x1_0000_0000,
        0 <= res.2 < 0x1_0000_0000,
        0 <= res.3 < 0x1_0000_0000,
{
    let ghost mi = m as int;
    let s = floor_sqrt5_times(m);
    assert(m * m <= 0x4000_0000_0000_0000) by (nonlinear_arith)
        requires m <= 0x8000_0000;
    let mm: u128 = (m as u128) * (m as u128);
    let t = floor_sqrt5_times((2 * mm) as u64);
    proof {
        lemma_floor_sqrt(5 * mi * mi);
        lemma_floor_sqrt(20 * mi * mi * mi * mi);
        assert(5 * (2 * mm) * (2 * mm) == 20 * mi * mi * mi * mi) by (nonlinear_arith)
            requires mm == mi * mi;
        assert(10 * mi * mi == 10 * mm) by (nonlinear_arith)
            requires mm == mi * mi;
        assert(5 * mi * mi == 5 * mm) by (nonlinear_arith)
            requires mm == mi * mi;
        assert(20 * mi * mi * mi * mi == 20 * mm * mm) by (nonlinear_arith)
            requires mm == mi * mi;
        let si = s as int;
        let ti = t as int;
        assert(si * si <= 5 * mm < (si + 1) * (si + 1));
        assert(ti * ti <= 20 * mm * mm < (ti + 1) * (ti + 1));
        if si < 2 * mi {
            assert((si + 1) * (si + 1) <= 4 * mm) by (nonlinear_arith)
                requires 0 <= si + 1 <= 2 * mi, mm == mi * mi;
        }
        if si >= 3 * mi + 1 {
            assert(si * si >= 9 * mm + 1) by (nonlinear_arith)
                requires 3 * mi + 1 <= si, 0 <= mi, mm == mi * mi;
        }
        if ti >= 5 * mm + 1 {
            assert(ti * ti >= 25 * mm * mm + 1) by (nonlinear_arith)
                requires 5 * mm + 1 <= ti, 0 <= mm;
            assert(20 * mm * mm <= 25 * mm * mm) by (nonlinear_arith)
                requires 0 <= mm;
        }
        assert(ti <= 5 * mm);
        assert(2 * mi <= si <= 3 * mi);
        if m > 0 && ti >= 10 * mm {
            assert(ti * ti >= 100 * mm * mm) by (nonlinear_arith)
                requires 10 * mm <= ti, 0 <= mm;
            assert(0 < mm) by (nonlinear_arith)
                requires mm == mi * mi, 0 < mi;
            assert(0 < mm * mm) by (nonlinear_arith)
                requires 0 < mm;
        }
        assert(mm <= 0x4000_0000_0000_0000);
        assert(10 * mm + t < 0x10_0000_0000_0000_0000);
        lemma_floor_sqrt(10 * mi * mi + t);
        let q = floor_sqrt(10 * mi * mi + t);
        if q >= 0x4_0000_0000 {
            assert(q * q >= 0x10_0000_0000_0000_0000) by (nonlinear_arith)
                requires q >= 0x4_0000_0000;
        }
    }
    let c18 = isqrt(10 * mm + t) / 4;
    let c54 = if m == 0 {
        0
    } else {
        proof {
            lemma_floor_sqrt(10 * mi * mi - t - 1);
            let q = floor_sqrt(10 * mi * mi - t - 1);
            if q >= 0x4_0000_0000 {
                assert(q * q >= 0x10_0000_0000_0000_0000) by (nonlinear_arith)
                    requires q >= 0x4_0000_0000;
            }
        }
        isqrt(10 * mm - t - 1) / 4
    };
    proof {
        if m == 0 {
            assert(floor_sqrt(-1) == 0);
        }
    }
    let s18 = (s - m as u128) / 4;
    let s54 = (s + m as u128) / 4;
    (c18 as i64, s18 as i64, c54 as i64, s54 as i64)
}

fn shifted(c: i32, v: i64, fm: i64) -> (res: i32)
    requires
        0 <= fm < 0x1_0000_0000,
    ensures
        res == clamp_i32(shift(c as int, v as int, fm as int)),
{
    let f: i64 = if v == 0 {
        c as i64
    } else {
        let g: i64 = c as i64 + if v > 0 { fm } else { -fm - 1 };
        if g >= 0 { g } else { g + 1 }
    };
    if f < i32::MIN as i64 {
        i32::MIN
    } else if f > i32::MAX as i64 {
        i32::MAX
    } else {
        f as i32
    }
}

fn saturate(v: i64) -> (res: i32)
    ensures
        res == clamp_i32(v as int),
{
    if v < i32::MIN as i64 {
        i32::MIN
    } else if v > i32::MAX as i64 {
        i32::MAX
    } else {
        v as i32
    }
}

/// The regular pentagon with centre `center` and radius `radius`, one vertex
/// straight above the centre.
#[derive(Clone, Copy, Debug)]
pub struct Pentagon {
    pub center: Point,
    pub radius: i32,
    pub color: Color,
}

impl Pentagon {
    /// The pentagon centred on `center` with radius `radius`, in a colour newly
    /// taken from `colors`; `None` when `colors` has no colour left.
    pub fn new(center: Point, radius: i32, colors: &mut ColorAllocator) -> (p: Option<Self>)
        requires
            old(colors).wf(),
        ensures
            final(colors).wf(),
            p is None <==> all_rgb_used(old(colors)@),
            p is None ==> final(colors)@ == old(colors)@,
            p matches Some(p) ==> p.center == center && p.radius == radius && fresh_color(old(colors)@, final(colors)@, p.color),
    {
        match colors.allocate() {
            Some(color) => Some(Pentagon { center, radius, color }),
            None => None,
        }
    }

    /// A pentagon centred on a random point of [0, width) x [0, height), with a
    /// radius drawn from [50, min(width, height) / 6), in a colour from `colors`;
    /// `None` when `colors` has no colour left.
    pub fn random(width: i32, height: i32, colors: &mut ColorAllocator) -> (p: Option<Self>)
        requires
            (if width < height { width } else { height }) / 6 > 50,
            old(colors).wf(),
        ensures
            final(colors).wf(),
            p is None <==> all_rgb_used(old(colors)@),
            p is None ==> final(colors)@ == old(colors)@,
            p matches Some(p) ==> {
                &&& 0 <= p.center.0 < width && 0 <= p.center.1 < height
                &&& 50 <= p.radius < (if width < height { width } else { height }) / 6
                &&& fresh_color(old(colors)@, final(colors)@, p.color)
            },
    {
        let center = Point::random(width, height);
        let side = if width < height { width } else { height };
        let radius = random_in(50, side / 6);
        Pentagon::new(center, radius, colors)
    }

    /// The five vertices, in drawing order.
    pub open spec fn vertices(&self) -> Seq<(int, int)> {
        pentagon_vertices(self.center.0 as int, self.center.1 as int, self.radius as int)
    }

    /// The five vertices, in drawing order.
    pub fn corners(&self) -> (vs: Vec<Point>)
        ensures
            coords(vs@) == self.vertices(),
    {
        let cx = self.center.0;
        let cy = self.center.1;
        let r = self.radius as i64;
        let m: u64 = if r < 0 { (-r) as u64 } else { r as u64 };
        let (c18, s18, c54, s54) = pentagon_floors(m);
        let nr: i64 = -r;
        let top = saturate(cy as i64 + nr);
        let vs = vec![
            Point(cx, top),
            Point(shifted(cx, r, c18), shifted(cy, nr, s18)),
            Point(shifted(cx, r, c54), shifted(cy, r, s54)),
            Point(shifted(cx, nr, c54), shifted(cy, r, s54)),
            Point(shifted(cx, nr, c18), shifted(cy, nr, s18)),
        ];
        proof {
            assert(coords(vs@) =~= self.vertices());
        }
        vs
    }
}

impl Drawable for Pentagon {
    /// A pentagon is drawn as its five edges, in its own colour.
    open spec fn draws(&self, before: raster::Image, after: raster::Image) -> bool {
        painted(before, after, outline(self.vertices()), self.color)
    }

    fn draw(&self, image: &mut raster::Image) {
        let vs = self.corners();
        draw_polygon(image, &vs, self.color);
    }
}

impl Displayable for Pentagon {
    open spec fn anchor_fits(x: i32, y: i32) -> bool {
        true
    }

    open spec fn displayed(&self, x: i32, y: i32, color: Color) -> Self {
        Pentagon { center: Point(x, y), radius: self.radius, color }
    }

    fn display(&mut self, x: i32, y: i32, color: Color) {
        *self = Pentagon { center: Point(x, y), radius: self.radius, color };
    }
}

} // verus!

verus! {

proof fn lemma_floor_sqrt_at_least_four(n: int)
    requires
        16 <= n,
    ensures
        4 <= floor_sqrt(n),
{
    lemma_floor_sqrt(n);
    let q = floor_sqrt(n);
    if q < 4 {
        assert((q + 1) * (q + 1) <= 16) by (nonlinear_arith)
            requires 0 <= q < 4;
    }
}

proof fn lemma_floor_sqrt_at_most(n: int, b: int)
    requires
        0 <= n < (b + 1) * (b + 1),
        0 <= b,
    ensures
        floor_sqrt(n) <= b,
{
    lemma_floor_sqrt(n);
    let q = floor_sqrt(n);
    if q > b {
        assert((b + 1) * (b + 1) <= q * q) by (nonlinear_arith)
            requires 0 <= b + 1 <= q;
    }
}

/// For `m >= 2` the four scaled floors are at least one and at most `m`, and the
/// one for sin 18 degrees is at most `m - 2`.
proof fn lemma_pent_floors_bounds(m: int)
    requires
        m >= 2,
    ensures
        1 <= pent_floors(m).0 <= m,
        0 <= pent_floors(m).1 <= m - 2,
        1 <= pent_floors(m).2 <= m,
        1 <= pent_floors(m).3 <= m,
{
    let mm = m * m;
    assert(5 * m * m == 5 * mm && 10 * m * m == 10 * mm && 20 * m * m * m * m == 20 * mm * mm) by (nonlinear_arith)
        requires mm == m * m;
    assert(mm >= 4) by (nonlinear_arith)
        requires mm == m * m, m >= 2;
    lemma_floor_sqrt(5 * mm);
    lemma_floor_sqrt(20 * mm * mm);
    let s = floor_sqrt(5 * mm);
    let t = floor_sqrt(20 * mm * mm);
    if s < 2 * m {
        assert((s + 1) * (s + 1) <= 4 * mm) by (nonlinear_arith)
            requires 0 <= s + 1 <= 2 * m, mm == m * m;
    }
    if s >= 3 * m {
        assert(s * s >= 9 * mm) by (nonlinear_arith)
            requires 3 * m <= s, 0 <= m, mm == m * m;
    }
    if t >= 5 * mm + 1 {
        assert(t * t >= 25 * mm * mm + 1) by (nonlinear_arith)
            requires 5 * mm + 1 <= t, 0 <= mm;
        assert(20 * mm * mm <= 25 * mm * mm) by (nonlinear_arith)
            requires 0 <= mm;
    }
    assert(0 <= t <= 5 * mm);
    assert(2 * m <= s < 3 * m);
    lemma_floor_sqrt_at_least_four(10 * mm + t);
    lemma_floor_sqrt_at_least_four(10 * mm - t - 1);
    assert(10 * mm + t < (4 * m + 1) * (4 * m + 1)) by (nonlinear_arith)
        requires mm == m * m, t <= 5 * mm, m >= 2;
    lemma_floor_sqrt_at_most(10 * mm + t, 4 * m);
    lemma_floor_sqrt_at_most(10 * mm - t - 1, 4 * m);
}

/// For a radius of at least two, and a centre far enough from the limits of
/// `i32` that no coordinate saturates, the five vertices of a pentagon are
/// pairwise distinct. (For radius one they are not: centred on (0, 0), four of
/// them are (0, 0).)
pub proof fn lemma_pentagon_vertices_distinct(cx: int, cy: int, r: int)
    requires
        abs(r) >= 2,
        i32::MIN <= cx - abs(r) - 1,
        cx + abs(r) + 1 <= i32::MAX,
        i32::MIN <= cy - abs(r) - 1,
        cy + abs(r) + 1 <= i32::MAX,
    ensures
        forall|i: int, j: int| 0 <= i < j < 5 ==> pentagon_vertices(cx, cy, r)[i] != pentagon_vertices(cx, cy, r)[j],
{
    lemma_pent_floors_bounds(abs(r));
    let vs = pentagon_vertices(cx, cy, r);
    assert(vs.len() == 5);
}

/// For `m >= 4`, each pair of scaled floors used by a vertex spans a cell
/// `[f, f + 1] x [g, g + 1]` whose nearest corner to the origin is at distance at
/// least `m - 2`, and whose farthest corner at most `m + 2`.
proof fn lemma_pent_floor_squares(m: int)
    requires
        m >= 4,
    ensures
        (m - 2) * (m - 2) <= pent_floors(m).0 * pent_floors(m).0 + pent_floors(m).1 * pent_floors(m).1,
        (pent_floors(m).0 + 1) * (pent_floors(m).0 + 1) + (pent_floors(m).1 + 1) * (pent_floors(m).1 + 1) <= (m + 2) * (m + 2),
        (m - 2) * (m - 2) <= pent_floors(m).2 * pent_floors(m).2 + pent_floors(m).3 * pent_floors(m).3,
        (pent_floors(m).2 + 1) * (pent_floors(m).2 + 1) + (pent_floors(m).3 + 1) * (pent_floors(m).3 + 1) <= (m + 2) * (m + 2),
{
    lemma_pent_floors_bounds(m);
    let mm = m * m;
    assert(5 * m * m == 5 * mm && 10 * m * m == 10 * mm && 20 * m * m * m * m == 20 * mm * mm) by (nonlinear_arith)
        requires mm == m * m;
    assert(mm >= 16) by (nonlinear_arith)
        requires mm == m * m, m >= 4;
    lemma_floor_sqrt(5 * mm);
    lemma_floor_sqrt(20 * mm * mm);
    let s = floor_sqrt(5 * mm);
    let t = floor_sqrt(20 * mm * mm);
    // Bounds on s, close to m sqrt 5, and on t, close to 2 m^2 sqrt 5.
    if s < 2 * m {
        assert((s + 1) * (s + 1) <= 4 * mm) by (nonlinear_arith)
            requires 0 <= s + 1 <= 2 * m, mm == m * m;
    }
    if 4 * s >= 9 * m {
        assert(16 * (s * s) >= 81 * mm) by (nonlinear_arith)
            requires 4 * s >= 9 * m, m >= 0, mm == m * m;
    }
    if t >= 5 * mm + 1 {
        assert(t * t >= 25 * mm * mm + 1) by (nonlinear_arith)
            requires 5 * mm + 1 <= t, 0 <= mm;
        assert(20 * mm * mm <= 25 * mm * mm) by (nonlinear_arith)
            requires 0 <= mm;
    }
    if t < 4 * mm {
        assert((t + 1) * (t + 1) <= 16 * mm * mm) by (nonlinear_arith)
            requires 0 <= t + 1 <= 4 * mm;
        assert(16 * mm * mm <= 20 * mm * mm) by (nonlinear_arith)
            requires 0 <= mm;
    }
    if 2 * m * s > t {
        assert((2 * m * s) * (2 * m * s) >= (t + 1) * (t + 1)) by (nonlinear_arith)
            requires 2 * m * s >= t + 1, t >= 0;
        assert((2 * m * s) * (2 * m * s) == 4 * mm * (s * s)) by (nonlinear_arith)
            requires mm == m * m;
        assert(4 * mm * (s * s) <= 20 * mm * mm) by (nonlinear_arith)
            requires s * s <= 5 * mm, mm >= 0;
    }
    if 2 * m * (s + 1) <= t {
        assert((2 * m * (s + 1)) * (2 * m * (s + 1)) <= t * t) by (nonlinear_arith)
            requires 0 <= 2 * m * (s + 1) <= t;
        assert((2 * m * (s + 1)) * (2 * m * (s + 1)) == 4 * mm * ((s + 1) * (s + 1))) by (nonlinear_arith)
            requires mm == m * m;
        assert(4 * mm * ((s + 1) * (s + 1)) > 20 * mm * mm) by (nonlinear_arith)
            requires (s + 1) * (s + 1) > 5 * mm, mm > 0;
    }
    assert(2 * m <= s && 4 * s < 9 * m);
    assert(4 * mm <= t <= 5 * mm);
    assert(2 * m * s <= t < 2 * m * (s + 1));
    assert(2 * m * (s + 1) == 2 * m * s + 2 * m) by (nonlinear_arith);
    let n1 = 10 * mm + t;
    let n2 = 10 * mm - t - 1;
    lemma_floor_sqrt(n1);
    lemma_floor_sqrt(n2);
    let q = floor_sqrt(n1);
    let q2 = floor_sqrt(n2);
    lemma_floor_sqrt_at_least_four(n1);
    lemma_floor_sqrt_at_least_four(n2);
    assert(n1 < (4 * m + 1) * (4 * m + 1)) by (nonlinear_arith)
        requires mm == m * m, n1 == 10 * mm + t, t <= 5 * mm, m >= 4;
    lemma_floor_sqrt_at_most(n1, 4 * m);
    assert(n2 < (3 * m) * (3 * m)) by (nonlinear_arith)
        requires mm == m * m, n2 == 10 * mm - t - 1, t >= 4 * mm;
    lemma_floor_sqrt_at_most(n2, 3 * m - 1);
    let (c18, s18, c54, s54) = pent_floors(m);
    assert(c18 == q / 4 && s18 == (s - m) / 4 && c54 == q2 / 4 && s54 == (s + m) / 4);
    // Vertices 1 and 4.
    assert(16 * ((c18 + 1) * (c18 + 1)) <= (q + 4) * (q + 4)) by (nonlinear_arith)
        requires 0 <= 4 * c18 + 4 <= q + 4;
    assert((q + 4) * (q + 4) == q * q + 8 * q + 16) by (nonlinear_arith);
    assert(16 * ((s18 + 1) * (s18 + 1)) <= (s - m + 4) * (s - m + 4)) by (nonlinear_arith)
        requires 0 <= 4 * s18 + 4 <= s - m + 4;
    assert((s - m + 4) * (s - m + 4) == s * s - 2 * m * s + mm + 8 * s - 8 * m + 16) by (nonlinear_arith)
        requires mm == m * m;
    assert(16 * ((m + 2) * (m + 2)) == 16 * mm + 64 * m + 64) by (nonlinear_arith)
        requires mm == m * m;
    assert(16 * ((c18 + 1) * (c18 + 1) + (s18 + 1) * (s18 + 1)) <= 16 * ((m + 2) * (m + 2)));
    assert(16 * ((m - 2) * (m - 2)) <= 16 * (c18 * c18 + s18 * s18)) by (nonlinear_arith)
        requires
            q <= 4 * c18 + 3, s - m <= 4 * s18 + 3, q >= 4, s - m - 3 >= 0,
            n1 < (q + 1) * (q + 1), n1 == 10 * mm + t, 5 * mm < (s + 1) * (s + 1), mm == m * m,
            2 * m * s <= t, q <= 4 * m, 4 * s < 9 * m, m >= 4;
    // Vertices 2 and 3.
    assert(16 * ((c54 + 1) * (c54 + 1) + (s54 + 1) * (s54 + 1)) <= 16 * ((m + 2) * (m + 2))) by (nonlinear_arith)
        requires
            4 * c54 <= q2, 4 * s54 <= s + m, 0 <= c54, 0 <= s54,
            q2 * q2 <= n2, n2 == 10 * mm - t - 1, s * s <= 5 * mm, mm == m * m,
            2 * m * s <= t, q2 < 3 * m, 4 * s < 9 * m, m >= 4;
    assert(16 * ((m - 2) * (m - 2)) <= 16 * (c54 * c54 + s54 * s54)) by (nonlinear_arith)
        requires
            q2 <= 4 * c54 + 3, s + m <= 4 * s54 + 3, q2 >= 4,
            n2 < (q2 + 1) * (q2 + 1), n2 == 10 * mm - t - 1, 5 * mm < (s + 1) * (s + 1), mm == m * m,
            t - 2 * m * s < 2 * m, q2 < 3 * m, 4 * s < 9 * m, m >= 4;
}

/// A coordinate shifted by a non-zero irrational amount with integer part `f`
/// (or `-f - 1`) and rounded toward zero moves by `f` or `f + 1` in magnitude.
proof fn lemma_shift_square(c: int, v: int, f: int)
    requires
        v != 0,
        0 <= f,
    ensures
        f * f <= (shift(c, v, f) - c) * (shift(c, v, f) - c) <= (f + 1) * (f + 1),
{
    let o = shift(c, v, f) - c;
    assert(o == f || o == f + 1 || o == -f - 1 || o == -f);
    assert(f * f <= o * o <= (f + 1) * (f + 1)) by (nonlinear_arith)
        requires o == f || o == f + 1 || o == -f - 1 || o == -f, 0 <= f;
}

/// For a radius `r` with `|r| >= 4`, and a centre far enough from the limits of
/// `i32` that no coordinate saturates, every vertex of the pentagon lies at a
/// distance from the centre between `|r| - 2` and `|r| + 2`.
pub proof fn lemma_pentagon_vertices_near_radius(cx: int, cy: int, r: int)
    requires
        abs(r) >= 4,
        i32::MIN <= cx - abs(r) - 1,
        cx + abs(r) + 1 <= i32::MAX,
        i32::MIN <= cy - abs(r) - 1,
        cy + abs(r) + 1 <= i32::MAX,
    ensures
        forall|k: int| 0 <= k < 5 ==> {
            let v = #[trigger] pentagon_vertices(cx, cy, r)[k];
            let d2 = (v.0 - cx) * (v.0 - cx) + (v.1 - cy) * (v.1 - cy);
            (abs(r) - 2) * (abs(r) - 2) <= d2 <= (abs(r) + 2) * (abs(r) + 2)
        },
{
    let m = abs(r);
    lemma_pent_floors_bounds(m);
    lemma_pent_floor_squares(m);
    let (c18, s18, c54, s54) = pent_floors(m);
    let nr = -r;
    lemma_shift_square(cx, r, c18);
    lemma_shift_square(cy, nr, s18);
    lemma_shift_square(cx, r, c54);
    lemma_shift_square(cy, r, s54);
    lemma_shift_square(cx, nr, c54);
    lemma_shift_square(cx, nr, c18);
    let vs = pentagon_vertices(cx, cy, r);
    assert(vs[0] == (cx, cy - r));
    assert((m - 2) * (m - 2) <= r * r <= (m + 2) * (m + 2)) by (nonlinear_arith)
        requires m == abs(r), m >= 4;
    assert(vs[1] == (shift(cx, r, c18), shift(cy, nr, s18)));
    assert(vs[2] == (shift(cx, r, c54), shift(cy, r, s54)));
    assert(vs[3] == (shift(cx, nr, c54), shift(cy, r, s54)));
    assert(vs[4] == (shift(cx, nr, c18), shift(cy, nr, s18)));
    assert forall|k: int| 0 <= k < 5 implies {
        let v = #[trigger] pentagon_vertices(cx, cy, r)[k];
        let d2 = (v.0 - cx) * (v.0 - cx) + (v.1 - cy) * (v.1 - cy);
        (abs(r) - 2) * (abs(r) - 2) <= d2 <= (abs(r) + 2) * (abs(r) + 2)
    } by {
        let v = vs[k];
        if k == 0 {
            assert((v.1 - cy) * (v.1 - cy) == r * r) by (nonlinear_arith)
                requires v.1 - cy == -r;
            assert((v.0 - cx) * (v.0 - cx) == 0) by (nonlinear_arith)
                requires v.0 == cx;
        }
    }
}

} // verus!
