//! Rasterized glyph coverage and glyph painting. A `GlyphCoverage` is what
//! an outside rasterizer reports for one character at a fixed point scale:
//! its bounding box and, per pixel, how much of that pixel the outline
//! covers, quantized to a byte.

use vstd::prelude::*;

use crate::bitmap::{blend, lemma_byte_mul_bound, Bitmap};
use crate::color::Color;

verus! {

/// The coverage mask of one rasterized glyph: a `width x height` bounding
/// box and one coverage byte per pixel (0 = untouched, 255 = fully
/// covered).
pub struct GlyphCoverage {
    pub width: u32,
    pub height: u32,
    pub coverage: Vec<u8>,
}

impl GlyphCoverage {
    /// One coverage byte per pixel, and a box small enough that a cell
    /// padded by one pixel still has representable dimensions.
    pub open spec fn wf(self) -> bool {
        &&& self.coverage@.len() == self.width as int * self.height as int
        &&& self.width < u32::MAX
        &&& self.height < u32::MAX
    }

    /// The coverage byte at column `x` of row `y`.
    pub open spec fn cov(self, x: int, y: int) -> u8 {
        self.coverage@[y * self.width as int + x]
    }

    /// Whether the glyph puts any ink on the page. A glyph whose bounding
    /// box is empty in either direction (whitespace, say) has no ink.
    pub open spec fn inked(self) -> bool {
        self.width > 0 && self.height > 0
    }

    /// Reads the coverage byte at `(x, y)`.
    pub fn cov_at(&self, x: u32, y: u32) -> (r: u8)
        requires
            self.wf(),
            x < self.width,
            y < self.height,
        ensures
            r == self.cov(x as int, y as int),
    {
        let n: usize = self.coverage.len();
        proof {
            crate::bitmap::lemma_grid_index(
                x as int,
                y as int,
                self.width as int,
                self.height as int,
            );
        }
        self.coverage[(y as usize) * (self.width as usize) + (x as usize)]
    }
}

/// The color that painting a glyph lays over one pixel: the foreground's
/// RGB, with the foreground alpha scaled by the pixel's coverage.
pub open spec fn glyph_source(fg: Color, v: u8) -> Color {
    Color { r: fg.r, g: fg.g, b: fg.b, a: (v * fg.a / 255) as u8 }
}

/// What one pixel of a bitmap holds after a glyph has been painted over
/// it: inside the glyph's box the source color is composited over what was
/// there, outside the box the pixel is untouched.
pub open spec fn painted_pixel(before: Color, glyph: GlyphCoverage, fg: Color, x: int, y: int) -> Color {
    if x < glyph.width as int && y < glyph.height as int {
        blend(before, glyph_source(fg, glyph.cov(x, y)))
    } else {
        before
    }
}

/// Composites the glyph's coverage onto `img` with the foreground color
/// `colour`, anchored at the top-left corner: standard source-over
/// compositing, so partial-coverage edge pixels fade toward what was
/// painted before.
pub fn paint_character(img: &mut Bitmap, colour: &Color, glyph: &GlyphCoverage)
    requires
        old(img).wf(),
        glyph.wf(),
        glyph.width <= old(img).width,
        glyph.height <= old(img).height,
    ensures
        final(img).wf(),
        final(img).same_dims(*old(img)),
        forall|x: int, y: int|
            old(img).in_bounds(x, y) ==> final(img).pixel(x, y) == painted_pixel(
                old(img).pixel(x, y),
                *glyph,
                *colour,
                x,
                y,
            ),
{
    let gw = glyph.width;
    let gh = glyph.height;
    let mut x: u32 = 0;
    while x < gw
        invariant
            img.wf(),
            img.same_dims(*old(img)),
            glyph.wf(),
            gw == glyph.width,
            gh == glyph.height,
            gw <= img.width,
            gh <= img.height,
            x <= gw,
            forall|px: int, py: int|
                old(img).in_bounds(px, py) && px < x && px < gw && py < gh ==> img.pixel(px, py)
                    == blend(
                    old(img).pixel(px, py),
                    glyph_source(*colour, glyph.cov(px, py)),
                ),
            forall|px: int, py: int|
                old(img).in_bounds(px, py) && !(px < x && px < gw && py < gh) ==> img.pixel(px, py)
                    == old(img).pixel(px, py),
        decreases gw - x,
    {
        let mut y: u32 = 0;
        while y < gh
            invariant
                img.wf(),
                img.same_dims(*old(img)),
                glyph.wf(),
                gw == glyph.width,
                gh == glyph.height,
                gw <= img.width,
                gh <= img.height,
                x < gw,
                y <= gh,
                forall|px: int, py: int|
                    old(img).in_bounds(px, py) && px < x && px < gw && py < gh ==> img.pixel(
                        px,
                        py,
                    ) == blend(
                        old(img).pixel(px, py),
                        glyph_source(*colour, glyph.cov(px, py)),
                    ),
                forall|py: int|
                    0 <= py < y && py < gh ==> img.pixel(x as int, py) == blend(
                        old(img).pixel(x as int, py),
                        glyph_source(*colour, glyph.cov(x as int, py)),
                    ),
                forall|px: int, py: int|
                    old(img).in_bounds(px, py) && !(px < x && px < gw && py < gh) && !(px == x
                        && py < y && py < gh) ==> img.pixel(px, py) == old(img).pixel(px, py),
            decreases gh - y,
        {
            let v = glyph.cov_at(x, y);
            proof {
                lemma_byte_mul_bound(v as int, colour.a as int);
            }
            let alpha: u8 = ((v as u32 * colour.a as u32) / 255) as u8;
            let src = Color { r: colour.r, g: colour.g, b: colour.b, a: alpha };
            proof {
                assert(src == glyph_source(*colour, glyph.cov(x as int, y as int)));
            }
            img.blend_pixel(x, y, src);
            y = y + 1;
        }
        x = x + 1;
    }
}

} // verus!
