//! The whole run, plumbing aside: build the palette, match every tile,
//! composite the winners into the output canvas. A run either completes
//! all tiles or aborts with one diagnostic and no partial output.

use vstd::prelude::*;

use crate::bitmap::Bitmap;
use crate::color::Color;
use crate::compose::{composed_pixel, composite, placed};
use crate::glyph::GlyphCoverage;
use crate::matcher::{
    canonical_matches, lemma_best_upto_props, match_tiles, matchable, valid_result,
};
use crate::palette::{
    build_palette, cell_height, cell_width, cells_fit, inked_glyphs, lemma_max_box_nonneg,
    lemma_palette_uniform, palette_ok, uniform_cells, CellSizing,
};
use crate::score::Scoring;

verus! {

/// Why a run aborted with no output.
#[derive(Clone, Copy, PartialEq, Eq, Structural, Debug)]
pub enum MosaicError {
    /// Every glyph in range was skipped for want of ink, or one of the
    /// color lists was empty: the palette has no entries to match tiles
    /// against.
    EmptyPalette,
}

/// Whether the palette of these inputs has no entries at all.
pub open spec fn palette_empty(
    gs: Seq<GlyphCoverage>,
    bgs: Seq<Color>,
    fgs: Seq<Color>,
) -> bool {
    inked_glyphs(gs).len() == 0 || bgs.len() == 0 || fgs.len() == 0
}

/// What a full run needs of its inputs: a well-formed image and glyphs,
/// palette cells that fit in one allocation and — as soon as there is
/// anything to render — one uniform cell no larger than the image.
pub open spec fn mosaic_inputs_ok(
    img: Bitmap,
    gs: Seq<GlyphCoverage>,
    bgs: Seq<Color>,
    fgs: Seq<Color>,
    sizing: CellSizing,
) -> bool {
    &&& img.wf()
    &&& forall|i: int| 0 <= i < gs.len() ==> (#[trigger] gs[i]).wf()
    &&& cells_fit(gs, sizing)
    &&& !palette_empty(gs, bgs, fgs) ==> {
        &&& uniform_cells(gs, sizing)
        &&& cell_width(gs, sizing) <= img.width as int
        &&& cell_height(gs, sizing) <= img.height as int
    }
}

/// Runs the whole pipeline on an already decoded image and already
/// rasterized glyph range.
///
/// Returns the composited canvas, of the source image's dimensions, or
/// the one diagnostic of the run: `EmptyPalette` exactly when no palette
/// entry could be produced. On success the canvas holds, pixel for
/// pixel, the palette entries that the canonical matching selects,
/// composited at their tile coordinates over a transparent background.
pub fn render_mosaic(
    img: &Bitmap,
    glyphs: &Vec<GlyphCoverage>,
    backgrounds: &Vec<Color>,
    foregrounds: &Vec<Color>,
    sizing: CellSizing,
    scoring: Scoring,
) -> (r: Result<Bitmap, MosaicError>)
    requires
        mosaic_inputs_ok(*img, glyphs@, backgrounds@, foregrounds@, sizing),
    ensures
        r is Err <==> palette_empty(glyphs@, backgrounds@, foregrounds@),
        r is Err ==> r == Result::<Bitmap, MosaicError>::Err(MosaicError::EmptyPalette),
        r matches Ok(out) ==> out.wf() && out.width == img.width && out.height == img.height
            && exists|pal: Seq<Bitmap>|
            {
                &&& #[trigger] palette_ok(pal, glyphs@, backgrounds@, foregrounds@, sizing)
                &&& matchable(*img, pal, scoring)
                &&& forall|x: int, y: int|
                    out.in_bounds(x, y) ==> out.pixel(x, y) == composed_pixel(
                        canonical_matches(*img, pal, scoring),
                        pal,
                        x,
                        y,
                    )
            },
{
    let built = build_palette(glyphs, backgrounds, foregrounds, sizing);
    let pal = built.0;
    let ghost inked = inked_glyphs(glyphs@);
    let ghost nb = backgrounds@.len() as int;
    let ghost nf = foregrounds@.len() as int;
    proof {
        assert(pal@.len() == 0 <==> (inked.len() == 0 || nb == 0 || nf == 0))
            by (nonlinear_arith)
            requires
                pal@.len() == inked.len() * (nb * nf),
                0 <= inked.len(),
                0 <= nb,
                0 <= nf,
        ;
    }
    if pal.len() == 0 {
        return Err(MosaicError::EmptyPalette);
    }
    proof {
        lemma_palette_uniform(pal@, glyphs@, backgrounds@, foregrounds@, sizing);
        lemma_max_box_nonneg(glyphs@);
        lemma_max_box_nonneg(inked);
        assert(cell_width(glyphs@, sizing) >= 1);
        assert(cell_height(glyphs@, sizing) >= 1);
        assert(matchable(*img, pal@, scoring));
    }
    let results = match_tiles(img, &pal, scoring);
    proof {
        assert forall|k: int| 0 <= k < results@.len() implies placed(
            #[trigger] results@[k],
            pal@,
            img.width as int,
            img.height as int,
        ) by {
            assert(valid_result(results@[k], *img, pal@, scoring));
            let m = results@[k];
            lemma_best_upto_props(
                *img,
                m.x as int,
                m.y as int,
                pal@,
                scoring,
                pal@.len() as int,
            );
        }
    }
    // Reading the buffer's length brings the canvas allocation bound
    // into scope for the compositor.
    let n_pixels: usize = img.pixels.len();
    let out = composite(img.width, img.height, &results, &pal);
    proof {
        assert(palette_ok(pal@, glyphs@, backgrounds@, foregrounds@, sizing) && matchable(
            *img,
            pal@,
            scoring,
        ) && forall|x: int, y: int|
            out.in_bounds(x, y) ==> out.pixel(x, y) == composed_pixel(
                canonical_matches(*img, pal@, scoring),
                pal@,
                x,
                y,
            ));
    }
    Ok(out)
}

} // verus!
