//! Fixed-size RGBA pixel buffers and source-over alpha compositing: the
//! representation of the source image, of every palette entry and of the
//! output canvas.

use vstd::prelude::*;

use crate::color::Color;

verus! {

/// Row-major RGBA pixel buffer.
pub struct Bitmap {
    pub width: u32,
    pub height: u32,
    pub pixels: Vec<Color>,
}

impl Bitmap {
    /// The buffer holds exactly one color per pixel of the rectangle.
    pub open spec fn wf(self) -> bool {
        self.pixels@.len() == self.width as int * self.height as int
    }

    /// The color stored at column `x` of row `y`.
    pub open spec fn pixel(self, x: int, y: int) -> Color {
        self.pixels@[y * self.width as int + x]
    }

    pub open spec fn in_bounds(self, x: int, y: int) -> bool {
        0 <= x < self.width as int && 0 <= y < self.height as int
    }

    pub open spec fn same_dims(self, other: Bitmap) -> bool {
        self.width == other.width && self.height == other.height
    }
}

/// A pixel's position in the row-major buffer lies inside the buffer.
pub proof fn lemma_grid_index(x: int, y: int, w: int, h: int)
    requires
        0 <= x < w,
        0 <= y < h,
    ensures
        0 <= y * w + x < w * h,
{
    assert(0 <= y * w + x < w * h) by (nonlinear_arith)
        requires
            0 <= x < w,
            0 <= y < h,
    ;
}

/// Two distinct positions of the rectangle have distinct row-major indexes.
pub proof fn lemma_grid_index_injective(x1: int, y1: int, x2: int, y2: int, w: int)
    requires
        0 <= x1 < w,
        0 <= x2 < w,
        0 <= y1,
        0 <= y2,
        (x1, y1) != (x2, y2),
    ensures
        y1 * w + x1 != y2 * w + x2,
{
    assert(y1 * w + x1 != y2 * w + x2) by (nonlinear_arith)
        requires
            0 <= x1 < w,
            0 <= x2 < w,
            0 <= y1,
            0 <= y2,
            !(x1 == x2 && y1 == y2),
    ;
}

/// One channel of source-over compositing: the source channel weighted by
/// the source alpha, the destination channel by what the source lets
/// through, scaled back into one byte.
pub open spec fn blend_channel(d: u8, s: u8, a: u8) -> u8 {
    ((s * a + d * (255 - a)) / 255) as u8
}

/// The alpha left after laying a source with alpha `s` over a destination
/// with alpha `d`.
pub open spec fn blend_alpha(d: u8, s: u8) -> u8 {
    (s + d * (255 - s) / 255) as u8
}

/// Standard source-over compositing of `src` onto `dst`, alpha taken from
/// the source.
pub open spec fn blend(dst: Color, src: Color) -> Color {
    Color {
        r: blend_channel(dst.r, src.r, src.a),
        g: blend_channel(dst.g, src.g, src.a),
        b: blend_channel(dst.b, src.b, src.a),
        a: blend_alpha(dst.a, src.a),
    }
}

/// The product of two bytes stays under 16 bits.
pub(crate) proof fn lemma_byte_mul_bound(a: int, b: int)
    requires
        0 <= a <= 255,
        0 <= b <= 255,
    ensures
        0 <= a * b <= 65025,
{
    assert(0 <= a * b <= 65025) by (nonlinear_arith)
        requires
            0 <= a <= 255,
            0 <= b <= 255,
    ;
}

/// Composites `src` over `dst` and returns the blended color.
pub fn blend_colors(dst: Color, src: Color) -> (r: Color)
    ensures
        r == blend(dst, src),
{
    let a: u32 = src.a as u32;
    proof {
        lemma_byte_mul_bound(src.r as int, src.a as int);
        lemma_byte_mul_bound(src.g as int, src.a as int);
        lemma_byte_mul_bound(src.b as int, src.a as int);
        lemma_byte_mul_bound(dst.r as int, 255 - src.a as int);
        lemma_byte_mul_bound(dst.g as int, 255 - src.a as int);
        lemma_byte_mul_bound(dst.b as int, 255 - src.a as int);
        lemma_byte_mul_bound(dst.a as int, 255 - src.a as int);
        assert forall|s: int, d: int|
            0 <= s <= 255 && 0 <= d <= 255 implies #[trigger] ((s * src.a + d * (
        255 - src.a)) / 255) <= 255 by {
            assert((s * src.a + d * (255 - src.a)) / 255 <= 255) by (nonlinear_arith)
                requires
                    0 <= s <= 255,
                    0 <= d <= 255,
                    0 <= src.a <= 255,
            ;
        }
        assert(src.a + dst.a * (255 - src.a) / 255 <= 255) by (nonlinear_arith)
            requires
                0 <= src.a <= 255,
                0 <= dst.a <= 255,
        ;
    }
    Color {
        r: ((src.r as u32 * a + dst.r as u32 * (255 - a)) / 255) as u8,
        g: ((src.g as u32 * a + dst.g as u32 * (255 - a)) / 255) as u8,
        b: ((src.b as u32 * a + dst.b as u32 * (255 - a)) / 255) as u8,
        a: (src.a as u32 + dst.a as u32 * (255 - a) / 255) as u8,
    }
}

impl Bitmap {
    /// A fresh, fully transparent canvas.
    pub fn new(width: u32, height: u32) -> (r: Bitmap)
        requires
            width as int * height as int <= usize::MAX as int,
        ensures
            r.wf(),
            r.width == width,
            r.height == height,
            forall|x: int, y: int| r.in_bounds(x, y) ==> r.pixel(x, y) == Color::transparent(),
    {
        let n: usize = (width as usize) * (height as usize);
        let mut pixels: Vec<Color> = Vec::new();
        let mut i: usize = 0;
        while i < n
            invariant
                i <= n,
                pixels@.len() == i,
                forall|j: int| 0 <= j < i ==> pixels@[j] == Color::transparent(),
            decreases n - i,
        {
            pixels.push(Color { r: 0, g: 0, b: 0, a: 0 });
            i = i + 1;
        }
        let r = Bitmap { width, height, pixels };
        proof {
            assert forall|x: int, y: int| r.in_bounds(x, y) implies r.pixel(x, y)
                == Color::transparent() by {
                lemma_grid_index(x, y, width as int, height as int);
            }
        }
        r
    }

    /// Reads the pixel at `(x, y)`.
    pub fn get_pixel(&self, x: u32, y: u32) -> (r: Color)
        requires
            self.wf(),
            self.in_bounds(x as int, y as int),
        ensures
            r == self.pixel(x as int, y as int),
    {
        let n: usize = self.pixels.len();
        proof {
            lemma_grid_index(x as int, y as int, self.width as int, self.height as int);
        }
        self.pixels[(y as usize) * (self.width as usize) + (x as usize)]
    }

    /// Overwrites the pixel at `(x, y)` with `c`.
    pub fn put_pixel(&mut self, x: u32, y: u32, c: Color)
        requires
            old(self).wf(),
            old(self).in_bounds(x as int, y as int),
        ensures
            final(self).wf(),
            final(self).same_dims(*old(self)),
            final(self).pixel(x as int, y as int) == c,
            forall|px: int, py: int|
                old(self).in_bounds(px, py) && (px, py) != (x as int, y as int) ==> final(
                self).pixel(px, py) == old(self).pixel(px, py),
    {
        let n: usize = self.pixels.len();
        proof {
            lemma_grid_index(x as int, y as int, self.width as int, self.height as int);
        }
        let idx: usize = (y as usize) * (self.width as usize) + (x as usize);
        self.pixels.set(idx, c);
        proof {
            assert forall|px: int, py: int|
                old(self).in_bounds(px, py) && (px, py) != (x as int, y as int) implies self.pixel(
                px,
                py,
            ) == old(self).pixel(px, py) by {
                lemma_grid_index(px, py, self.width as int, self.height as int);
                lemma_grid_index_injective(px, py, x as int, y as int, self.width as int);
            }
        }
    }

    /// Composites `c` over the pixel at `(x, y)`.
    pub fn blend_pixel(&mut self, x: u32, y: u32, c: Color)
        requires
            old(self).wf(),
            old(self).in_bounds(x as int, y as int),
        ensures
            final(self).wf(),
            final(self).same_dims(*old(self)),
            final(self).pixel(x as int, y as int) == blend(old(self).pixel(x as int, y as int), c),
            forall|px: int, py: int|
                old(self).in_bounds(px, py) && (px, py) != (x as int, y as int) ==> final(
                self).pixel(px, py) == old(self).pixel(px, py),
    {
        let d = self.get_pixel(x, y);
        let blended = blend_colors(d, c);
        self.put_pixel(x, y, blended);
    }
}

/// Overwrites every pixel of `img` with `colour`.
pub fn paint_background(img: &mut Bitmap, colour: &Color)
    requires
        old(img).wf(),
    ensures
        final(img).wf(),
        final(img).same_dims(*old(img)),
        forall|x: int, y: int| final(img).in_bounds(x, y) ==> final(img).pixel(x, y) == *colour,
{
    let w = img.width;
    let h = img.height;
    let mut x: u32 = 0;
    while x < w
        invariant
            img.wf(),
            img.width == w,
            img.height == h,
            x <= w,
            forall|px: int, py: int|
                img.in_bounds(px, py) && px < x ==> img.pixel(px, py) == *colour,
        decreases w - x,
    {
        let mut y: u32 = 0;
        while y < h
            invariant
                img.wf(),
                img.width == w,
                img.height == h,
                x < w,
                y <= h,
                forall|px: int, py: int|
                    img.in_bounds(px, py) && px < x ==> img.pixel(px, py) == *colour,
                forall|py: int| 0 <= py < y ==> img.pixel(x as int, py) == *colour,
            decreases h - y,
        {
            img.put_pixel(x, y, *colour);
            y = y + 1;
        }
        x = x + 1;
    }
}

} // verus!
