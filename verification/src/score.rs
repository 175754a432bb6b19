//! The similarity scorer: how well a tile of the source image resembles
//! one palette bitmap. Scores are integer sums over pixels and channels;
//! every entry of one palette is compared against a tile of the same pixel
//! count, so leaving out the usual division by the pixel count changes no
//! comparison and keeps the arithmetic exact.

use vstd::prelude::*;

use crate::bitmap::{lemma_byte_mul_bound, Bitmap};
use crate::color::Color;

verus! {

/// The two interchangeable scoring strategies; in both, higher is better.
#[derive(Clone, Copy, PartialEq, Eq, Structural, Debug)]
pub enum Scoring {
    /// Per channel, 255 minus the channel difference: maximal exactly for
    /// identical bitmaps. The default.
    InverseDifference,
    /// Per channel, the product of the two samples: biased toward bright
    /// entries; kept as an alternate mode.
    Correlation,
}

pub open spec fn abs_diff(a: u8, b: u8) -> int {
    if a >= b {
        a - b
    } else {
        b - a
    }
}

/// Contribution of one pixel pair under inverse-difference scoring,
/// over the three color channels; alpha is excluded.
pub open spec fn pixel_diff(p: Color, q: Color) -> int {
    (255 - abs_diff(p.r, q.r)) + (255 - abs_diff(p.g, q.g)) + (255 - abs_diff(p.b, q.b))
}

/// Contribution of one pixel pair under correlation scoring.
pub open spec fn pixel_prod(p: Color, q: Color) -> int {
    p.r * q.r + p.g * q.g + p.b * q.b
}

pub open spec fn pixel_score(p: Color, q: Color, s: Scoring) -> int {
    match s {
        Scoring::InverseDifference => pixel_diff(p, q),
        Scoring::Correlation => pixel_prod(p, q),
    }
}

/// The largest contribution one pixel pair can make.
pub open spec fn pixel_score_max(s: Scoring) -> int {
    match s {
        Scoring::InverseDifference => 765,
        Scoring::Correlation => 195075,
    }
}

/// Sum of the pixel scores of rows `0..y` of column `x` of the entry,
/// against the tile of the source image anchored at `(tx, ty)`.
pub open spec fn col_score(
    img: Bitmap,
    tx: int,
    ty: int,
    e: Bitmap,
    s: Scoring,
    x: int,
    y: int,
) -> int
    decreases y,
{
    if y <= 0 {
        0
    } else {
        col_score(img, tx, ty, e, s, x, y - 1) + pixel_score(
            img.pixel(tx + x, ty + y - 1),
            e.pixel(x, y - 1),
            s,
        )
    }
}

/// Sum of the pixel scores of the full columns `0..x` of the entry.
pub open spec fn rect_score(img: Bitmap, tx: int, ty: int, e: Bitmap, s: Scoring, x: int) -> int
    decreases x,
{
    if x <= 0 {
        0
    } else {
        rect_score(img, tx, ty, e, s, x - 1) + col_score(
            img,
            tx,
            ty,
            e,
            s,
            x - 1,
            e.height as int,
        )
    }
}

/// The similarity score of palette entry `e` against the tile of `img`
/// anchored at `(tx, ty)`, summed over every pixel of the cell and every
/// color channel.
pub open spec fn score(img: Bitmap, tx: int, ty: int, e: Bitmap, s: Scoring) -> int {
    rect_score(img, tx, ty, e, s, e.width as int)
}

pub proof fn lemma_pixel_score_bounds(p: Color, q: Color, s: Scoring)
    ensures
        0 <= pixel_score(p, q, s) <= pixel_score_max(s),
{
    if s == Scoring::Correlation {
        lemma_byte_mul_bound(p.r as int, q.r as int);
        lemma_byte_mul_bound(p.g as int, q.g as int);
        lemma_byte_mul_bound(p.b as int, q.b as int);
    }
}

pub proof fn lemma_col_score_bounds(img: Bitmap, tx: int, ty: int, e: Bitmap, s: Scoring, x: int, y: int)
    requires
        0 <= y,
    ensures
        0 <= col_score(img, tx, ty, e, s, x, y) <= pixel_score_max(s) * y,
    decreases y,
{
    if y == 0 {
    } else {
        lemma_col_score_bounds(img, tx, ty, e, s, x, y - 1);
        lemma_pixel_score_bounds(img.pixel(tx + x, ty + y - 1), e.pixel(x, y - 1), s);
        assert(pixel_score_max(s) * y == pixel_score_max(s) * (y - 1) + pixel_score_max(s))
            by (nonlinear_arith);
    }
}

pub proof fn lemma_rect_score_bounds(img: Bitmap, tx: int, ty: int, e: Bitmap, s: Scoring, x: int)
    requires
        0 <= x,
    ensures
        0 <= rect_score(img, tx, ty, e, s, x) <= pixel_score_max(s) * (x * e.height as int),
    decreases x,
{
    if x == 0 {
    } else {
        lemma_rect_score_bounds(img, tx, ty, e, s, x - 1);
        lemma_col_score_bounds(img, tx, ty, e, s, x - 1, e.height as int);
        assert(pixel_score_max(s) * (x * e.height as int) == pixel_score_max(s) * ((x - 1)
            * e.height as int) + pixel_score_max(s) * e.height as int) by (nonlinear_arith);
    }
}

/// No score exceeds the per-pixel maximum times the cell's pixel count;
/// under inverse-difference that ceiling is 765 per pixel, or — after the
/// division by the pixel count that both strategies share — 765 in all.
pub proof fn lemma_score_max(img: Bitmap, tx: int, ty: int, e: Bitmap, s: Scoring)
    ensures
        0 <= score(img, tx, ty, e, s) <= pixel_score_max(s) * (e.width as int * e.height as int),
{
    lemma_rect_score_bounds(img, tx, ty, e, s, e.width as int);
}

proof fn lemma_col_score_self(img: Bitmap, tx: int, ty: int, e: Bitmap, x: int, y: int)
    requires
        0 <= y <= e.height as int,
        0 <= x < e.width as int,
        forall|px: int, py: int|
            0 <= px < e.width as int && 0 <= py < e.height as int ==> e.pixel(px, py) == img.pixel(
                tx + px,
                ty + py,
            ),
    ensures
        col_score(img, tx, ty, e, Scoring::InverseDifference, x, y) == 765 * y,
    decreases y,
{
    if y > 0 {
        lemma_col_score_self(img, tx, ty, e, x, y - 1);
    }
}

proof fn lemma_rect_score_self(img: Bitmap, tx: int, ty: int, e: Bitmap, x: int)
    requires
        0 <= x <= e.width as int,
        forall|px: int, py: int|
            0 <= px < e.width as int && 0 <= py < e.height as int ==> e.pixel(px, py) == img.pixel(
                tx + px,
                ty + py,
            ),
    ensures
        rect_score(img, tx, ty, e, Scoring::InverseDifference, x) == 765 * (x * e.height as int),
    decreases x,
{
    if x > 0 {
        lemma_rect_score_self(img, tx, ty, e, x - 1);
        lemma_col_score_self(img, tx, ty, e, x - 1, e.height as int);
        assert(rect_score(img, tx, ty, e, Scoring::InverseDifference, x) == rect_score(
            img,
            tx,
            ty,
            e,
            Scoring::InverseDifference,
            x - 1,
        ) + col_score(img, tx, ty, e, Scoring::InverseDifference, x - 1, e.height as int));
        assert(765 * (x * e.height as int) == 765 * ((x - 1) * e.height as int) + 765
            * e.height as int) by (nonlinear_arith);
    } else {
        assert(x == 0 && x * e.height as int == 0);
    }
}

/// Comparing a tile against a pixel-identical entry under
/// inverse-difference scoring attains the maximum: 765 per pixel — all
/// three channels contribute their full 255.
pub proof fn lemma_score_self(img: Bitmap, tx: int, ty: int, e: Bitmap)
    requires
        forall|px: int, py: int|
            0 <= px < e.width as int && 0 <= py < e.height as int ==> e.pixel(px, py) == img.pixel(
                tx + px,
                ty + py,
            ),
    ensures
        score(img, tx, ty, e, Scoring::InverseDifference) == 765 * (e.width as int
            * e.height as int),
{
    lemma_rect_score_self(img, tx, ty, e, e.width as int);
}

/// Computes the score of `character` against the tile of `img` anchored
/// at `(tx, ty)` under strategy `s`.
pub fn score_tile(img: &Bitmap, tx: u32, ty: u32, character: &Bitmap, s: Scoring) -> (r: u128)
    requires
        img.wf(),
        character.wf(),
        tx as int + character.width as int <= img.width as int,
        ty as int + character.height as int <= img.height as int,
    ensures
        r as int == score(*img, tx as int, ty as int, *character, s),
{
    let w = character.width;
    let h = character.height;
    let mut total: u128 = 0;
    let mut x: u32 = 0;
    proof {
        lemma_rect_score_bounds(*img, tx as int, ty as int, *character, s, w as int);
    }
    while x < w
        invariant
            img.wf(),
            character.wf(),
            w == character.width,
            h == character.height,
            tx as int + w as int <= img.width as int,
            ty as int + h as int <= img.height as int,
            x <= w,
            total as int == rect_score(*img, tx as int, ty as int, *character, s, x as int),
        decreases w - x,
    {
        let mut y: u32 = 0;
        while y < h
            invariant
                img.wf(),
                character.wf(),
                w == character.width,
                h == character.height,
                tx as int + w as int <= img.width as int,
                ty as int + h as int <= img.height as int,
                x < w,
                y <= h,
                total as int == rect_score(*img, tx as int, ty as int, *character, s, x as int)
                    + col_score(*img, tx as int, ty as int, *character, s, x as int, y as int),
            decreases h - y,
        {
            let p = img.get_pixel(tx + x, ty + y);
            let q = character.get_pixel(x, y);
            let ps: u32 = match s {
                Scoring::InverseDifference => {
                    let dr: u32 = if p.r >= q.r {
                        (p.r - q.r) as u32
                    } else {
                        (q.r - p.r) as u32
                    };
                    let dg: u32 = if p.g >= q.g {
                        (p.g - q.g) as u32
                    } else {
                        (q.g - p.g) as u32
                    };
                    let db: u32 = if p.b >= q.b {
                        (p.b - q.b) as u32
                    } else {
                        (q.b - p.b) as u32
                    };
                    (255 - dr) + (255 - dg) + (255 - db)
                },
                Scoring::Correlation => {
                    proof {
                        lemma_byte_mul_bound(p.r as int, q.r as int);
                        lemma_byte_mul_bound(p.g as int, q.g as int);
                        lemma_byte_mul_bound(p.b as int, q.b as int);
                    }
                    p.r as u32 * q.r as u32 + p.g as u32 * q.g as u32 + p.b as u32 * q.b as u32
                },
            };
            proof {
                assert(ps as int == pixel_score(
                    img.pixel(tx as int + x as int, ty as int + y as int),
                    character.pixel(x as int, y as int),
                    s,
                ));
                lemma_rect_score_bounds(*img, tx as int, ty as int, *character, s, x as int);
                lemma_col_score_bounds(
                    *img,
                    tx as int,
                    ty as int,
                    *character,
                    s,
                    x as int,
                    y as int,
                );
                let pm = pixel_score_max(s);
                assert(total as int + ps as int <= u128::MAX) by (nonlinear_arith)
                    requires
                        total as int <= pm * (x as int * h as int) + pm * y as int,
                        ps as int <= pm,
                        0 <= pm <= 195075,
                        0 <= (x as int) < 0x1_0000_0000,
                        0 <= (y as int) < 0x1_0000_0000,
                        0 <= (h as int) < 0x1_0000_0000,
                ;
            }
            total = total + ps as u128;
            y = y + 1;
        }
        x = x + 1;
    }
    total
}

/// Scores under the inverse-difference strategy: per pixel and channel,
/// 255 minus the channel difference.
pub fn filter_diff(img: &Bitmap, tx: u32, ty: u32, character: &Bitmap) -> (r: u128)
    requires
        img.wf(),
        character.wf(),
        tx as int + character.width as int <= img.width as int,
        ty as int + character.height as int <= img.height as int,
    ensures
        r as int == score(*img, tx as int, ty as int, *character, Scoring::InverseDifference),
{
    score_tile(img, tx, ty, character, Scoring::InverseDifference)
}

/// Scores under the correlation strategy: per pixel and channel, the
/// product of the two samples.
pub fn filter_convolve(img: &Bitmap, tx: u32, ty: u32, character: &Bitmap) -> (r: u128)
    requires
        img.wf(),
        character.wf(),
        tx as int + character.width as int <= img.width as int,
        ty as int + character.height as int <= img.height as int,
    ensures
        r as int == score(*img, tx as int, ty as int, *character, Scoring::Correlation),
{
    score_tile(img, tx, ty, character, Scoring::Correlation)
}

} // verus!
