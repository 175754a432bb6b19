//! The palette builder: turns a list of rasterized glyphs and two ordered
//! color lists into a flat, ordered list of rendered cell bitmaps, one per
//! (glyph, background, foreground) combination, together with the resolved
//! cell size. Glyphs without ink are skipped entirely.

use vstd::prelude::*;

use crate::bitmap::{paint_background, Bitmap};
use crate::color::Color;
use crate::glyph::{paint_character, painted_pixel, GlyphCoverage};

verus! {

/// How the cell size of palette entries is chosen: each glyph's own
/// padded bounding box, or one uniform cell large enough for every glyph
/// in the range, computed by a pre-pass before any entry is rendered.
#[derive(Clone, Copy, PartialEq, Eq, Structural, Debug)]
pub enum CellSizing {
    PerGlyph,
    UniformMax,
}

/// The glyphs that put ink on the page, in the order they were given.
pub open spec fn inked_glyphs(gs: Seq<GlyphCoverage>) -> Seq<GlyphCoverage>
    decreases gs.len(),
{
    if gs.len() == 0 {
        Seq::empty()
    } else {
        let rest = inked_glyphs(gs.drop_last());
        if gs.last().inked() {
            rest.push(gs.last())
        } else {
            rest
        }
    }
}

/// The widest bounding box over a glyph range (0 when the range is empty).
pub open spec fn max_box_width(gs: Seq<GlyphCoverage>) -> int
    decreases gs.len(),
{
    if gs.len() == 0 {
        0
    } else {
        let m = max_box_width(gs.drop_last());
        if gs.last().width as int > m {
            gs.last().width as int
        } else {
            m
        }
    }
}

/// The tallest bounding box over a glyph range (0 when the range is empty).
pub open spec fn max_box_height(gs: Seq<GlyphCoverage>) -> int
    decreases gs.len(),
{
    if gs.len() == 0 {
        0
    } else {
        let m = max_box_height(gs.drop_last());
        if gs.last().height as int > m {
            gs.last().height as int
        } else {
            m
        }
    }
}

/// Width of the cell that one glyph's entries are rendered into: the
/// glyph's own padded box, or the uniform padded maximum over the whole
/// range.
pub open spec fn entry_width(g: GlyphCoverage, gs: Seq<GlyphCoverage>, sizing: CellSizing) -> int {
    match sizing {
        CellSizing::PerGlyph => g.width as int + 1,
        CellSizing::UniformMax => max_box_width(gs) + 1,
    }
}

/// Height of the cell that one glyph's entries are rendered into.
pub open spec fn entry_height(g: GlyphCoverage, gs: Seq<GlyphCoverage>, sizing: CellSizing) -> int {
    match sizing {
        CellSizing::PerGlyph => g.height as int + 1,
        CellSizing::UniformMax => max_box_height(gs) + 1,
    }
}

/// The cell width that the builder reports back to its caller, which the
/// caller uses to size tiles: under uniform sizing the pre-pass maximum,
/// under per-glyph sizing the widest cell actually rendered.
pub open spec fn cell_width(gs: Seq<GlyphCoverage>, sizing: CellSizing) -> int {
    match sizing {
        CellSizing::PerGlyph => if inked_glyphs(gs).len() == 0 {
            0
        } else {
            max_box_width(inked_glyphs(gs)) + 1
        },
        CellSizing::UniformMax => max_box_width(gs) + 1,
    }
}

/// The cell height that the builder reports back to its caller.
pub open spec fn cell_height(gs: Seq<GlyphCoverage>, sizing: CellSizing) -> int {
    match sizing {
        CellSizing::PerGlyph => if inked_glyphs(gs).len() == 0 {
            0
        } else {
            max_box_height(inked_glyphs(gs)) + 1
        },
        CellSizing::UniformMax => max_box_height(gs) + 1,
    }
}

/// Position of the entry for the `gi`-th inked glyph, `bi`-th background
/// and `fi`-th foreground in the flat palette: glyph id ascending, then
/// background index, then foreground index.
pub open spec fn entry_index(gi: int, bi: int, fi: int, nb: int, nf: int) -> int {
    gi * (nb * nf) + bi * nf + fi
}

/// One rendered palette entry: a cell of the given size, filled with the
/// background color, with the glyph composited over it in the foreground
/// color.
pub open spec fn entry_ok(
    e: Bitmap,
    g: GlyphCoverage,
    bg: Color,
    fg: Color,
    ew: int,
    eh: int,
) -> bool {
    &&& e.wf()
    &&& e.width as int == ew
    &&& e.height as int == eh
    &&& forall|x: int, y: int|
        0 <= x < ew && 0 <= y < eh ==> e.pixel(x, y) == painted_pixel(bg, g, fg, x, y)
}

/// The complete palette contract: one entry per (inked glyph, background,
/// foreground) combination, in order, each rendered into its cell.
pub open spec fn palette_ok(
    pal: Seq<Bitmap>,
    gs: Seq<GlyphCoverage>,
    bgs: Seq<Color>,
    fgs: Seq<Color>,
    sizing: CellSizing,
) -> bool {
    let inked = inked_glyphs(gs);
    let nb = bgs.len() as int;
    let nf = fgs.len() as int;
    &&& pal.len() == inked.len() * (nb * nf)
    &&& forall|gi: int, bi: int, fi: int|
        0 <= gi < inked.len() && 0 <= bi < nb && 0 <= fi < nf ==> entry_ok(
            pal[#[trigger] entry_index(gi, bi, fi, nb, nf)],
            inked[gi],
            bgs[bi],
            fgs[fi],
            entry_width(inked[gi], gs, sizing),
            entry_height(inked[gi], gs, sizing),
        )
}

/// Every cell that would be rendered fits in one allocation.
pub open spec fn cells_fit(gs: Seq<GlyphCoverage>, sizing: CellSizing) -> bool {
    forall|i: int|
        0 <= i < gs.len() && gs[i].inked() ==> #[trigger] entry_width(gs[i], gs, sizing)
            * entry_height(gs[i], gs, sizing) <= usize::MAX
}

/// An entry's flat position lies inside a palette of `ng` glyph blocks.
pub proof fn lemma_entry_index_bounds(gi: int, bi: int, fi: int, ng: int, nb: int, nf: int)
    requires
        0 <= gi < ng,
        0 <= bi < nb,
        0 <= fi < nf,
    ensures
        0 <= entry_index(gi, bi, fi, nb, nf) < ng * (nb * nf),
        entry_index(gi, bi, fi, nb, nf) >= gi * (nb * nf),
{
    assert(0 <= gi * (nb * nf) + bi * nf + fi < ng * (nb * nf)) by (nonlinear_arith)
        requires
            0 <= gi < ng,
            0 <= bi < nb,
            0 <= fi < nf,
    ;
    assert(gi * (nb * nf) + bi * nf + fi >= gi * (nb * nf)) by (nonlinear_arith)
        requires
            0 <= bi,
            0 <= fi,
            0 <= nf,
    ;
}

/// Every flat palette position is the position of exactly one
/// (glyph, background, foreground) combination.
pub proof fn lemma_entry_index_decompose(k: int, ng: int, nb: int, nf: int)
    requires
        0 <= k < ng * (nb * nf),
        0 <= ng,
        0 <= nb,
        0 <= nf,
    ensures
        exists|gi: int, bi: int, fi: int|
            0 <= gi < ng && 0 <= bi < nb && 0 <= fi < nf && k == #[trigger] entry_index(
                gi,
                bi,
                fi,
                nb,
                nf,
            ),
{
    assert(nb * nf > 0 && nf > 0) by (nonlinear_arith)
        requires
            0 <= k < ng * (nb * nf),
            0 <= ng,
            0 <= nb,
            0 <= nf,
    ;
    let block = nb * nf;
    let gi = k / block;
    let rem = k % block;
    let bi = rem / nf;
    let fi = rem % nf;
    assert(k == gi * block + rem && 0 <= rem < block) by (nonlinear_arith)
        requires
            block > 0,
            gi == k / block,
            rem == k % block,
            0 <= k,
    ;
    assert(rem == bi * nf + fi && 0 <= fi < nf) by (nonlinear_arith)
        requires
            nf > 0,
            bi == rem / nf,
            fi == rem % nf,
            0 <= rem,
    ;
    assert(0 <= gi < ng) by (nonlinear_arith)
        requires
            block > 0,
            k == gi * block + rem,
            0 <= rem < block,
            0 <= k < ng * block,
    ;
    assert(0 <= bi < nb) by (nonlinear_arith)
        requires
            nf > 0,
            rem == bi * nf + fi,
            0 <= fi < nf,
            0 <= rem < nb * nf,
    ;
    assert(k == entry_index(gi, bi, fi, nb, nf)) by (nonlinear_arith)
        requires
            k == gi * (nb * nf) + rem,
            rem == bi * nf + fi,
    ;
}

/// Appending a glyph extends the inked list exactly when the glyph has
/// ink.
pub proof fn lemma_inked_push(gs: Seq<GlyphCoverage>, g: GlyphCoverage)
    ensures
        inked_glyphs(gs.push(g)) == if g.inked() {
            inked_glyphs(gs).push(g)
        } else {
            inked_glyphs(gs)
        },
{
    assert(gs.push(g).drop_last() =~= gs);
    assert(gs.push(g).last() == g);
}

/// Appending a glyph can only widen the running maxima.
pub proof fn lemma_max_box_push(gs: Seq<GlyphCoverage>, g: GlyphCoverage)
    ensures
        max_box_width(gs.push(g)) == if g.width as int > max_box_width(gs) {
            g.width as int
        } else {
            max_box_width(gs)
        },
        max_box_height(gs.push(g)) == if g.height as int > max_box_height(gs) {
            g.height as int
        } else {
            max_box_height(gs)
        },
{
    assert(gs.push(g).drop_last() =~= gs);
    assert(gs.push(g).last() == g);
}

/// The maximum box covers every glyph of the range.
pub proof fn lemma_max_box_covers(gs: Seq<GlyphCoverage>, i: int)
    requires
        0 <= i < gs.len(),
    ensures
        max_box_width(gs) >= gs[i].width,
        max_box_height(gs) >= gs[i].height,
    decreases gs.len(),
{
    if i == gs.len() - 1 {
    } else {
        lemma_max_box_covers(gs.drop_last(), i);
    }
}

/// The maximum box never goes below the empty box.
pub proof fn lemma_max_box_nonneg(gs: Seq<GlyphCoverage>)
    ensures
        max_box_width(gs) >= 0,
        max_box_height(gs) >= 0,
    decreases gs.len(),
{
    if gs.len() > 0 {
        lemma_max_box_nonneg(gs.drop_last());
    }
}

/// The maximum box is the box of some glyph, so it stays representable.
pub proof fn lemma_max_box_bounded(gs: Seq<GlyphCoverage>)
    requires
        forall|i: int| 0 <= i < gs.len() ==> (#[trigger] gs[i]).wf(),
    ensures
        0 <= max_box_width(gs) < u32::MAX,
        0 <= max_box_height(gs) < u32::MAX,
    decreases gs.len(),
{
    if gs.len() > 0 {
        assert(forall|i: int|
            0 <= i < gs.drop_last().len() ==> (#[trigger] gs.drop_last()[i]).wf());
        lemma_max_box_bounded(gs.drop_last());
    }
}

/// Removing a glyph without ink leaves the inked list — and with it the
/// number and identity of the palette's (glyph, background, foreground)
/// combinations — unchanged.
pub proof fn lemma_no_ink_exclusion(gs: Seq<GlyphCoverage>, k: int)
    requires
        0 <= k < gs.len(),
        !gs[k].inked(),
    ensures
        inked_glyphs(gs.remove(k)) == inked_glyphs(gs),
        inked_glyphs(gs.remove(k)).len() == inked_glyphs(gs).len(),
    decreases gs.len(),
{
    if k == gs.len() - 1 {
        assert(gs.remove(k) =~= gs.drop_last());
    } else {
        assert(gs.remove(k).drop_last() =~= gs.drop_last().remove(k));
        assert(gs.remove(k).last() == gs.last());
        lemma_no_ink_exclusion(gs.drop_last(), k);
    }
}

/// Whether every rendered entry gets the same cell: always under
/// uniform sizing; under per-glyph sizing only when all inked boxes
/// agree.
pub open spec fn uniform_cells(gs: Seq<GlyphCoverage>, sizing: CellSizing) -> bool {
    match sizing {
        CellSizing::UniformMax => true,
        CellSizing::PerGlyph => forall|i: int|
            0 <= i < inked_glyphs(gs).len() ==> (#[trigger] inked_glyphs(gs)[i]).width as int + 1
                == cell_width(gs, sizing) && inked_glyphs(gs)[i].height as int + 1 == cell_height(
                gs,
                sizing,
            ),
    }
}

/// Palette uniformity: every entry of one palette built with one
/// invocation has identical dimensions — the cell size that the builder
/// reports. Uniform sizing guarantees this always; per-glyph sizing
/// exactly when all inked bounding boxes agree.
pub proof fn lemma_palette_uniform(
    pal: Seq<Bitmap>,
    gs: Seq<GlyphCoverage>,
    bgs: Seq<Color>,
    fgs: Seq<Color>,
    sizing: CellSizing,
)
    requires
        palette_ok(pal, gs, bgs, fgs, sizing),
        uniform_cells(gs, sizing),
    ensures
        forall|k: int|
            0 <= k < pal.len() ==> (#[trigger] pal[k]).width as int == cell_width(gs, sizing) && pal[k].height as int
                == cell_height(gs, sizing) && pal[k].wf(),
{
    let inked = inked_glyphs(gs);
    let nb = bgs.len() as int;
    let nf = fgs.len() as int;
    assert forall|k: int| 0 <= k < pal.len() implies (#[trigger] pal[k]).width as int == cell_width(
        gs,
        sizing,
    ) && pal[k].height as int == cell_height(gs, sizing) && pal[k].wf() by {
        lemma_entry_index_decompose(k, inked.len() as int, nb, nf);
        let (gi, bi, fi) = choose|gi: int, bi: int, fi: int|
            0 <= gi < inked.len() && 0 <= bi < nb && 0 <= fi < nf && k == #[trigger] entry_index(
                gi,
                bi,
                fi,
                nb,
                nf,
            );
        assert(entry_ok(
            pal[entry_index(gi, bi, fi, nb, nf)],
            inked[gi],
            bgs[bi],
            fgs[fi],
            entry_width(inked[gi], gs, sizing),
            entry_height(inked[gi], gs, sizing),
        ));
    }
}

/// Renders one palette entry: fills a fresh cell with the background
/// color and composites the glyph over it in the foreground color.
fn render_entry(glyph: &GlyphCoverage, bg: Color, fg: Color, ew: u32, eh: u32) -> (e: Bitmap)
    requires
        glyph.wf(),
        glyph.width <= ew,
        glyph.height <= eh,
        ew as int * eh as int <= usize::MAX,
    ensures
        entry_ok(e, *glyph, bg, fg, ew as int, eh as int),
{
    let mut e = Bitmap::new(ew, eh);
    paint_background(&mut e, &bg);
    paint_character(&mut e, &fg, glyph);
    e
}

/// Builds the palette for a glyph range and two ordered color lists, and
/// returns it together with the resolved cell size.
///
/// Entries appear in glyph order, then background order, then foreground
/// order. A glyph without ink contributes no entries. Under uniform
/// sizing every entry gets the padded maximum cell computed by a pre-pass
/// over the whole range; under per-glyph sizing each glyph's entries get
/// its own padded box, and the returned size is the largest cell
/// rendered.
pub fn build_palette(
    glyphs: &Vec<GlyphCoverage>,
    backgrounds: &Vec<Color>,
    foregrounds: &Vec<Color>,
    sizing: CellSizing,
) -> (r: (Vec<Bitmap>, u32, u32))
    requires
        forall|i: int| 0 <= i < glyphs@.len() ==> (#[trigger] glyphs@[i]).wf(),
        cells_fit(glyphs@, sizing),
    ensures
        palette_ok(r.0@, glyphs@, backgrounds@, foregrounds@, sizing),
        r.1 as int == cell_width(glyphs@, sizing),
        r.2 as int == cell_height(glyphs@, sizing),
{
    let nb = backgrounds.len();
    let nf = foregrounds.len();
    let ghost nb_i = nb as int;
    let ghost nf_i = nf as int;

    // Pre-pass: the maximum bounding box over the whole range.
    let mut max_w: u32 = 0;
    let mut max_h: u32 = 0;
    let mut i: usize = 0;
    while i < glyphs.len()
        invariant
            i <= glyphs@.len(),
            forall|j: int| 0 <= j < glyphs@.len() ==> (#[trigger] glyphs@[j]).wf(),
            max_w as int == max_box_width(glyphs@.take(i as int)),
            max_h as int == max_box_height(glyphs@.take(i as int)),
        decreases glyphs@.len() - i,
    {
        let g = &glyphs[i];
        proof {
            assert(glyphs@.take(i as int + 1).drop_last() =~= glyphs@.take(i as int));
            lemma_max_box_push(glyphs@.take(i as int), glyphs@[i as int]);
            assert(glyphs@.take(i as int).push(glyphs@[i as int]) =~= glyphs@.take(i as int + 1));
        }
        if g.width > max_w {
            max_w = g.width;
        }
        if g.height > max_h {
            max_h = g.height;
        }
        i = i + 1;
    }
    proof {
        assert(glyphs@.take(glyphs@.len() as int) =~= glyphs@);
        lemma_max_box_bounded(glyphs@);
    }

    // Main pass: render, in order, one entry per inked glyph and color
    // pair.
    let mut pal: Vec<Bitmap> = Vec::new();
    let mut out_w: u32 = 0;
    let mut out_h: u32 = 0;
    let mut i: usize = 0;
    while i < glyphs.len()
        invariant
            i <= glyphs@.len(),
            forall|j: int| 0 <= j < glyphs@.len() ==> (#[trigger] glyphs@[j]).wf(),
            cells_fit(glyphs@, sizing),
            max_w as int == max_box_width(glyphs@),
            max_h as int == max_box_height(glyphs@),
            max_w < u32::MAX,
            max_h < u32::MAX,
            nb == backgrounds@.len(),
            nf == foregrounds@.len(),
            nb_i == nb as int,
            nf_i == nf as int,
            pal@.len() == inked_glyphs(glyphs@.take(i as int)).len() * (nb_i * nf_i),
            forall|gi: int, bj: int, fj: int|
                0 <= gi < inked_glyphs(glyphs@.take(i as int)).len() && 0 <= bj < nb_i && 0 <= fj
                    < nf_i ==> entry_ok(
                    pal@[#[trigger] entry_index(gi, bj, fj, nb_i, nf_i)],
                    inked_glyphs(glyphs@.take(i as int))[gi],
                    backgrounds@[bj],
                    foregrounds@[fj],
                    entry_width(inked_glyphs(glyphs@.take(i as int))[gi], glyphs@, sizing),
                    entry_height(inked_glyphs(glyphs@.take(i as int))[gi], glyphs@, sizing),
                ),
            sizing == CellSizing::UniformMax ==> out_w == 0 && out_h == 0,
            sizing == CellSizing::PerGlyph ==> out_w as int == cell_width(
                glyphs@.take(i as int),
                CellSizing::PerGlyph,
            ) && out_h as int == cell_height(glyphs@.take(i as int), CellSizing::PerGlyph),
        decreases glyphs@.len() - i,
    {
        let ghost prefix = glyphs@.take(i as int);
        let ghost inked_prefix = inked_glyphs(prefix);
        let g = &glyphs[i];
        proof {
            assert(prefix.push(glyphs@[i as int]) =~= glyphs@.take(i as int + 1));
            lemma_inked_push(prefix, glyphs@[i as int]);
        }
        if g.width > 0 && g.height > 0 {
            let (ew, eh) = match sizing {
                CellSizing::PerGlyph => (g.width + 1, g.height + 1),
                CellSizing::UniformMax => (max_w + 1, max_h + 1),
            };
            proof {
                assert(ew as int == entry_width(glyphs@[i as int], glyphs@, sizing));
                assert(eh as int == entry_height(glyphs@[i as int], glyphs@, sizing));
                if sizing == CellSizing::UniformMax {
                    lemma_max_box_covers(glyphs@, i as int);
                }
                assert(glyphs@[i as int].inked());
            }
            let ghost base_len = pal@.len() as int;
            let mut bi: usize = 0;
            while bi < nb
                invariant
                    bi <= nb,
                    nb == backgrounds@.len(),
                    nf == foregrounds@.len(),
                    nb_i == nb as int,
                    nf_i == nf as int,
                    g.wf(),
                    g == glyphs@[i as int],
                    g.width <= ew,
                    g.height <= eh,
                    ew as int * eh as int <= usize::MAX,
                    base_len == inked_prefix.len() * (nb_i * nf_i),
                    pal@.len() == base_len + bi as int * nf_i,
                    forall|bj: int, fj: int|
                        0 <= bj < bi as int && 0 <= fj < nf_i ==> entry_ok(
                            pal@[base_len + #[trigger] (bj * nf_i + fj)],
                            glyphs@[i as int],
                            backgrounds@[bj],
                            foregrounds@[fj],
                            ew as int,
                            eh as int,
                        ),
                    forall|gi: int, bj: int, fj: int|
                        0 <= gi < inked_prefix.len() && 0 <= bj < nb_i && 0 <= fj < nf_i
                            ==> entry_ok(
                            pal@[#[trigger] entry_index(gi, bj, fj, nb_i, nf_i)],
                            inked_prefix[gi],
                            backgrounds@[bj],
                            foregrounds@[fj],
                            entry_width(inked_prefix[gi], glyphs@, sizing),
                            entry_height(inked_prefix[gi], glyphs@, sizing),
                        ),
                decreases nb - bi,
            {
                let mut fi: usize = 0;
                while fi < nf
                    invariant
                        fi <= nf,
                        bi < nb,
                        nb == backgrounds@.len(),
                        nf == foregrounds@.len(),
                        nb_i == nb as int,
                        nf_i == nf as int,
                        g.wf(),
                        g == glyphs@[i as int],
                        g.width <= ew,
                        g.height <= eh,
                        ew as int * eh as int <= usize::MAX,
                        base_len == inked_prefix.len() * (nb_i * nf_i),
                        pal@.len() == base_len + bi as int * nf_i + fi as int,
                        forall|fj: int|
                            0 <= fj < fi as int ==> entry_ok(
                                pal@[base_len + bi as int * nf_i + fj],
                                glyphs@[i as int],
                                backgrounds@[bi as int],
                                foregrounds@[fj],
                                ew as int,
                                eh as int,
                            ),
                        forall|bj: int, fj: int|
                            0 <= bj < bi as int && 0 <= fj < nf_i ==> entry_ok(
                                pal@[base_len + #[trigger] (bj * nf_i + fj)],
                                glyphs@[i as int],
                                backgrounds@[bj],
                                foregrounds@[fj],
                                ew as int,
                                eh as int,
                            ),
                        forall|gi: int, bj: int, fj: int|
                            0 <= gi < inked_prefix.len() && 0 <= bj < nb_i && 0 <= fj < nf_i
                                ==> entry_ok(
                                pal@[#[trigger] entry_index(gi, bj, fj, nb_i, nf_i)],
                                inked_prefix[gi],
                                backgrounds@[bj],
                                foregrounds@[fj],
                                entry_width(inked_prefix[gi], glyphs@, sizing),
                                entry_height(inked_prefix[gi], glyphs@, sizing),
                            ),
                    decreases nf - fi,
                {
                    let e = render_entry(g, backgrounds[bi], foregrounds[fi], ew, eh);
                    pal.push(e);
                    proof {
                        let new_at = base_len + bi as int * nf_i + fi as int;
                        assert(pal@[new_at] == e);
                        assert forall|bj: int, fj: int|
                            0 <= bj < bi as int && 0 <= fj < nf_i implies entry_ok(
                            pal@[base_len + #[trigger] (bj * nf_i + fj)],
                            glyphs@[i as int],
                            backgrounds@[bj],
                            foregrounds@[fj],
                            ew as int,
                            eh as int,
                        ) by {
                            assert(bj * nf_i + fj < bi as int * nf_i) by (nonlinear_arith)
                                requires
                                    0 <= bj < bi as int,
                                    0 <= fj < nf_i,
                            ;
                        }
                        assert forall|gi: int, bj: int, fj: int|
                            0 <= gi < inked_prefix.len() && 0 <= bj < nb_i && 0 <= fj < nf_i
                            implies entry_ok(
                            pal@[#[trigger] entry_index(gi, bj, fj, nb_i, nf_i)],
                            inked_prefix[gi],
                            backgrounds@[bj],
                            foregrounds@[fj],
                            entry_width(inked_prefix[gi], glyphs@, sizing),
                            entry_height(inked_prefix[gi], glyphs@, sizing),
                        ) by {
                            lemma_entry_index_bounds(
                                gi,
                                bj,
                                fj,
                                inked_prefix.len() as int,
                                nb_i,
                                nf_i,
                            );
                        }
                    }
                    fi = fi + 1;
                }
                proof {
                    assert((bi as int + 1) * nf_i == bi as int * nf_i + nf_i) by (nonlinear_arith);
                    assert forall|bj: int, fj: int|
                        0 <= bj < bi as int + 1 && 0 <= fj < nf_i implies entry_ok(
                        pal@[base_len + #[trigger] (bj * nf_i + fj)],
                        glyphs@[i as int],
                        backgrounds@[bj],
                        foregrounds@[fj],
                        ew as int,
                        eh as int,
                    ) by {
                        if bj < bi as int {
                        } else {
                            assert(bj * nf_i + fj == bi as int * nf_i + fj);
                        }
                    }
                }
                bi = bi + 1;
            }
            match sizing {
                CellSizing::PerGlyph => {
                    if g.width + 1 > out_w {
                        out_w = g.width + 1;
                    }
                    if g.height + 1 > out_h {
                        out_h = g.height + 1;
                    }
                },
                CellSizing::UniformMax => {},
            }
            proof {
                let next = glyphs@.take(i as int + 1);
                let inked_next = inked_glyphs(next);
                assert(inked_next == inked_prefix.push(glyphs@[i as int]));
                assert(inked_next.len() * (nb_i * nf_i) == inked_prefix.len() * (nb_i * nf_i) + nb_i
                    * nf_i) by (nonlinear_arith)
                    requires
                        inked_next.len() == inked_prefix.len() + 1,
                ;
                assert forall|gi: int, bj: int, fj: int|
                    0 <= gi < inked_next.len() && 0 <= bj < nb_i && 0 <= fj < nf_i implies entry_ok(
                    pal@[#[trigger] entry_index(gi, bj, fj, nb_i, nf_i)],
                    inked_next[gi],
                    backgrounds@[bj],
                    foregrounds@[fj],
                    entry_width(inked_next[gi], glyphs@, sizing),
                    entry_height(inked_next[gi], glyphs@, sizing),
                ) by {
                    if gi < inked_prefix.len() {
                        assert(inked_next[gi] == inked_prefix[gi]);
                    } else {
                        assert(gi == inked_prefix.len());
                        assert(inked_next[gi] == glyphs@[i as int]);
                        assert(entry_index(gi, bj, fj, nb_i, nf_i) == gi * (nb_i * nf_i) + (bj
                            * nf_i + fj));
                        assert(gi * (nb_i * nf_i) == base_len) by (nonlinear_arith)
                            requires
                                gi == inked_prefix.len(),
                                base_len == inked_prefix.len() * (nb_i * nf_i),
                        ;
                    }
                }
                // The reported per-glyph cell size grows to cover this
                // glyph's cell.
                lemma_max_box_push(inked_prefix, glyphs@[i as int]);
            }
        } else {
            proof {
                assert(!glyphs@[i as int].inked());
            }
        }
        i = i + 1;
    }
    proof {
        assert(glyphs@.take(glyphs@.len() as int) =~= glyphs@);
    }
    match sizing {
        CellSizing::PerGlyph => (pal, out_w, out_h),
        CellSizing::UniformMax => (pal, max_w + 1, max_h + 1),
    }
}

} // verus!
