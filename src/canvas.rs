//! Pixel buffers and the colours written into them.
use vstd::prelude::*;

verus! {

/// raster's image: its public fields `width`, `height` and `bytes` (four bytes
/// r, g, b, a per pixel, row by row) are what the contracts speak of.
#[verifier::external_type_specification]
pub struct ExImage(raster::Image);

/// A colour with four 8-bit channels.
#[derive(Clone, Copy, Debug, PartialEq, Eq, Structural)]
pub struct Color {
    pub r: u8,
    pub g: u8,
    pub b: u8,
    pub a: u8,
}

/// An image whose byte buffer holds four bytes for each of its pixels, and whose
/// byte offsets fit in an `i32` (raster computes them in that type).
pub open spec fn image_wf(img: raster::Image) -> bool {
    &&& 0 <= img.width
    &&& 0 <= img.height
    &&& img.bytes@.len() == 4 * img.width * img.height
    &&& 4 * img.width * img.height <= i32::MAX + 1
}

/// Whether (x, y) addresses a pixel of a `w` by `h` image.
pub open spec fn in_bounds(w: int, h: int, x: int, y: int) -> bool {
    0 <= x < w && 0 <= y < h
}

/// The bytes after pixel (x, y) of a row-major RGBA buffer of width `w` is set to `c`.
pub open spec fn set_bytes(bytes: Seq<u8>, w: int, x: int, y: int, c: Color) -> Seq<u8> {
    let s = 4 * (y * w + x);
    bytes.update(s, c.r).update(s + 1, c.g).update(s + 2, c.b).update(s + 3, c.a)
}

/// The bytes after each point of `pts` that lies inside a `w` by `h` image is
/// set to `c`, in order; points outside the image are skipped.
pub open spec fn paint(bytes: Seq<u8>, w: int, h: int, pts: Seq<(int, int)>, c: Color) -> Seq<u8>
    decreases pts.len(),
{
    if pts.len() == 0 {
        bytes
    } else {
        let prev = paint(bytes, w, h, pts.drop_last(), c);
        let p = pts.last();
        if in_bounds(w, h, p.0, p.1) {
            set_bytes(prev, w, p.0, p.1, c)
        } else {
            prev
        }
    }
}

/// `after` is `before` with the points of `pts` painted in colour `c`.
pub open spec fn painted(before: raster::Image, after: raster::Image, pts: Seq<(int, int)>, c: Color) -> bool {
    &&& after.width == before.width
    &&& after.height == before.height
    &&& after.bytes@ == paint(before.bytes@, before.width as int, before.height as int, pts, c)
}

/// The four bytes of a pixel inside the image lie inside its buffer.
pub proof fn lemma_pixel_index(w: int, h: int, x: int, y: int)
    requires
        0 <= w,
        0 <= h,
        in_bounds(w, h, x, y),
    ensures
        0 <= 4 * (y * w + x),
        4 * (y * w + x) + 3 < 4 * w * h,
{
    assert(0 <= y * w) by (nonlinear_arith)
        requires 0 <= y, 0 <= w;
    assert(y * w + x < w * h) by (nonlinear_arith)
        requires 0 <= x < w, 0 <= y < h;
    assert(4 * (w * h) == 4 * w * h) by (nonlinear_arith);
}

/// Painting one more point after a run of points.
pub proof fn lemma_paint_push(bytes: Seq<u8>, w: int, h: int, pts: Seq<(int, int)>, p: (int, int), c: Color)
    ensures
        paint(bytes, w, h, pts.push(p), c) == (if in_bounds(w, h, p.0, p.1) {
            set_bytes(paint(bytes, w, h, pts, c), w, p.0, p.1, c)
        } else {
            paint(bytes, w, h, pts, c)
        }),
{
    assert(pts.push(p).drop_last() =~= pts);
}

/// Painting two runs of points one after the other paints their concatenation.
pub proof fn lemma_paint_append(bytes: Seq<u8>, w: int, h: int, s1: Seq<(int, int)>, s2: Seq<(int, int)>, c: Color)
    ensures
        paint(bytes, w, h, s1 + s2, c) == paint(paint(bytes, w, h, s1, c), w, h, s2, c),
    decreases s2.len(),
{
    if s2.len() == 0 {
        assert(s1 + s2 =~= s1);
    } else {
        lemma_paint_append(bytes, w, h, s1, s2.drop_last(), c);
        assert((s1 + s2).drop_last() =~= s1 + s2.drop_last());
        assert((s1 + s2).last() == s2.last());
    }
}

/// `painted` composes: painting `s1` and then `s2` paints `s1 + s2`.
pub proof fn lemma_painted_then(i0: raster::Image, i1: raster::Image, i2: raster::Image, s1: Seq<(int, int)>, s2: Seq<(int, int)>, c: Color)
    requires
        painted(i0, i1, s1, c),
        painted(i1, i2, s2, c),
    ensures
        painted(i0, i2, s1 + s2, c),
{
    lemma_paint_append(i0.bytes@, i0.width as int, i0.height as int, s1, s2, c);
}

/// Writes pixel (x, y) in colour `c` when it lies inside the image, and does
/// nothing otherwise.
pub fn plot(img: &mut raster::Image, x: i64, y: i64, c: Color)
    requires
        image_wf(*old(img)),
    ensures
        image_wf(*final(img)),
        final(img).width == old(img).width,
        final(img).height == old(img).height,
        final(img).bytes@ == (if in_bounds(old(img).width as int, old(img).height as int, x as int, y as int) {
            set_bytes(old(img).bytes@, old(img).width as int, x as int, y as int, c)
        } else {
            old(img).bytes@
        }),
{
    if 0 <= x && x < img.width as i64 && 0 <= y && y < img.height as i64 {
        proof {
            lemma_pixel_index(img.width as int, img.height as int, x as int, y as int);
        }
        put_pixel(img, x as i32, y as i32, c);
    }
}

/// Relies on raster::Image::set_pixel: for a pixel inside the image whose byte
/// offset 4 * (y * width + x), computed in `i32`, does not overflow, it writes the
/// channels r, g, b, a at that offset and the three after it, and changes nothing else.
#[verifier::external_body]
pub(crate) fn put_pixel(img: &mut raster::Image, x: i32, y: i32, c: Color)
    requires
        image_wf(*old(img)),
        in_bounds(old(img).width as int, old(img).height as int, x as int, y as int),
    ensures
        final(img).width == old(img).width,
        final(img).height == old(img).height,
        final(img).bytes@ == set_bytes(old(img).bytes@, old(img).width as int, x as int, y as int, c),
{
    let _ = img.set_pixel(x, y, raster::Color { r: c.r, g: c.g, b: c.b, a: c.a });
}

} // verus!
