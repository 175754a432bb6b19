//! The tile matcher: partitions the source image into a grid of
//! palette-cell-sized tiles and selects, for every tile, the palette entry
//! with the greatest similarity score, earlier entries winning ties.
//!
//! Matching one tile reads only the immutable source image and palette,
//! so tiles may be matched in any order — or concurrently — and the set
//! of results is the same; `lemma_match_determinism` states that.

use vstd::prelude::*;

use crate::bitmap::Bitmap;
use crate::score::{score, score_tile, Scoring};

verus! {

/// The decision for one tile: its origin and the index of the palette
/// entry chosen for it.
#[derive(Clone, Copy, PartialEq, Eq, Structural, Debug)]
pub struct MatchResult {
    pub x: u32,
    pub y: u32,
    pub index: usize,
}

/// Index of the winner among the first `n` palette entries: the entry
/// with the greatest score, the earliest such entry when scores tie,
/// since a later entry only takes over with a strictly greater score.
pub open spec fn best_upto(
    img: Bitmap,
    tx: int,
    ty: int,
    pal: Seq<Bitmap>,
    s: Scoring,
    n: int,
) -> int
    decreases n,
{
    if n <= 1 {
        0
    } else {
        let b = best_upto(img, tx, ty, pal, s, n - 1);
        if score(img, tx, ty, pal[n - 1], s) > score(img, tx, ty, pal[b], s) {
            n - 1
        } else {
            b
        }
    }
}

/// Index of the palette entry matched to the tile anchored at `(tx, ty)`.
pub open spec fn best_index(img: Bitmap, tx: int, ty: int, pal: Seq<Bitmap>, s: Scoring) -> int {
    best_upto(img, tx, ty, pal, s, pal.len() as int)
}

/// The winner among the first `n` entries scores at least as well as each
/// of them, and strictly better than every earlier one.
pub proof fn lemma_best_upto_props(
    img: Bitmap,
    tx: int,
    ty: int,
    pal: Seq<Bitmap>,
    s: Scoring,
    n: int,
)
    requires
        1 <= n <= pal.len(),
    ensures
        0 <= best_upto(img, tx, ty, pal, s, n) < n,
        forall|j: int|
            0 <= j < n ==> score(img, tx, ty, #[trigger] pal[j], s) <= score(
                img,
                tx,
                ty,
                pal[best_upto(img, tx, ty, pal, s, n)],
                s,
            ),
        forall|j: int|
            0 <= j < best_upto(img, tx, ty, pal, s, n) ==> score(img, tx, ty, #[trigger] pal[j], s)
                < score(img, tx, ty, pal[best_upto(img, tx, ty, pal, s, n)], s),
    decreases n,
{
    if n > 1 {
        lemma_best_upto_props(img, tx, ty, pal, s, n - 1);
    }
}

/// Tie-break determinism: an entry whose score equals that of an earlier
/// entry never wins — of entries with identical scores, the match keeps
/// the lower palette index.
pub proof fn lemma_tie_break(
    img: Bitmap,
    tx: int,
    ty: int,
    pal: Seq<Bitmap>,
    s: Scoring,
    i: int,
    j: int,
)
    requires
        0 <= i < j < pal.len(),
        score(img, tx, ty, pal[i], s) == score(img, tx, ty, pal[j], s),
    ensures
        best_index(img, tx, ty, pal, s) != j,
{
    lemma_best_upto_props(img, tx, ty, pal, s, pal.len() as int);
}

/// Scores every palette entry against the tile of `img` anchored at
/// `(tx, ty)`, in index order, and returns the index of the first entry
/// attaining the greatest score.
pub fn match_character(
    img: &Bitmap,
    tx: u32,
    ty: u32,
    characters: &Vec<Bitmap>,
    s: Scoring,
) -> (r: usize)
    requires
        img.wf(),
        characters@.len() >= 1,
        forall|k: int|
            0 <= k < characters@.len() ==> (#[trigger] characters@[k]).wf()
                && characters@[k].width == characters@[0].width && characters@[k].height
                == characters@[0].height,
        tx as int + characters@[0].width as int <= img.width as int,
        ty as int + characters@[0].height as int <= img.height as int,
    ensures
        r as int == best_index(*img, tx as int, ty as int, characters@, s),
        r < characters@.len(),
        forall|k: int|
            0 <= k < characters@.len() ==> score(
                *img,
                tx as int,
                ty as int,
                #[trigger] characters@[k],
                s,
            ) <= score(*img, tx as int, ty as int, characters@[r as int], s),
        forall|k: int|
            0 <= k < r ==> score(*img, tx as int, ty as int, #[trigger] characters@[k], s) < score(
                *img,
                tx as int,
                ty as int,
                characters@[r as int],
                s,
            ),
{
    let mut max_idx: usize = 0;
    let mut max_value: u128 = score_tile(img, tx, ty, &characters[0], s);
    let mut idx: usize = 1;
    while idx < characters.len()
        invariant
            img.wf(),
            characters@.len() >= 1,
            forall|k: int|
                0 <= k < characters@.len() ==> (#[trigger] characters@[k]).wf()
                    && characters@[k].width == characters@[0].width && characters@[k].height
                    == characters@[0].height,
            tx as int + characters@[0].width as int <= img.width as int,
            ty as int + characters@[0].height as int <= img.height as int,
            1 <= idx <= characters@.len(),
            max_idx as int == best_upto(*img, tx as int, ty as int, characters@, s, idx as int),
            max_idx < idx,
            max_value as int == score(
                *img,
                tx as int,
                ty as int,
                characters@[max_idx as int],
                s,
            ),
        decreases characters@.len() - idx,
    {
        let value = score_tile(img, tx, ty, &characters[idx], s);
        if value > max_value {
            max_value = value;
            max_idx = idx;
        }
        idx = idx + 1;
    }
    proof {
        lemma_best_upto_props(*img, tx as int, ty as int, characters@, s, characters@.len() as int);
    }
    max_idx
}

/// How many tile columns the grid has: tiles start at every multiple of
/// the cell width that leaves room for a whole cell.
pub open spec fn tiles_across(w: int, cw: int) -> int {
    (w - cw) / cw + 1
}

/// How many tile rows the grid has.
pub open spec fn tiles_down(h: int, ch: int) -> int {
    (h - ch) / ch + 1
}

/// Position of tile `(i, j)` in the flat result list: column-major, as
/// the tiles are generated.
pub open spec fn tile_slot(i: int, j: int, ny: int) -> int {
    i * ny + j
}

/// The one result that matching assigns to tile `(i, j)`.
pub open spec fn canonical_match(
    img: Bitmap,
    pal: Seq<Bitmap>,
    s: Scoring,
    i: int,
    j: int,
) -> MatchResult {
    let cw = pal[0].width as int;
    let ch = pal[0].height as int;
    MatchResult {
        x: (i * cw) as u32,
        y: (j * ch) as u32,
        index: best_index(img, i * cw, j * ch, pal, s) as usize,
    }
}

/// The full list of canonical decisions, one per grid tile, in
/// column-major order: what any complete matching run amounts to.
pub open spec fn canonical_matches(img: Bitmap, pal: Seq<Bitmap>, s: Scoring) -> Seq<MatchResult> {
    let nx = tiles_across(img.width as int, pal[0].width as int);
    let ny = tiles_down(img.height as int, pal[0].height as int);
    Seq::new((nx * ny) as nat, |k: int| canonical_match(img, pal, s, k / ny, k % ny))
}

/// A well-formed, uniformly sized, nonempty palette whose cell fits the
/// image: what matching a whole image requires.
pub open spec fn matchable(img: Bitmap, pal: Seq<Bitmap>, s: Scoring) -> bool {
    &&& img.wf()
    &&& pal.len() >= 1
    &&& forall|k: int|
        0 <= k < pal.len() ==> (#[trigger] pal[k]).wf() && pal[k].width == pal[0].width
            && pal[k].height == pal[0].height
    &&& 1 <= pal[0].width as int <= img.width as int
    &&& 1 <= pal[0].height as int <= img.height as int
}

/// One acceptable match result: its origin lies on the tile grid, the
/// whole cell lies inside the image, and its index is the canonical
/// decision for that tile.
pub open spec fn valid_result(m: MatchResult, img: Bitmap, pal: Seq<Bitmap>, s: Scoring) -> bool {
    let cw = pal[0].width as int;
    let ch = pal[0].height as int;
    &&& m.x as int % cw == 0
    &&& m.y as int % ch == 0
    &&& m.x as int + cw <= img.width as int
    &&& m.y as int + ch <= img.height as int
    &&& m.index as int == best_index(img, m.x as int, m.y as int, pal, s)
}

/// A complete set of match results: one result per grid tile, no origin
/// twice, no origin missed, and every result the canonical decision for
/// its tile. Any scheduler that matches every tile once — in whatever
/// order its workers finish — produces a set with exactly this shape.
pub open spec fn complete_match_set(
    rs: Seq<MatchResult>,
    img: Bitmap,
    pal: Seq<Bitmap>,
    s: Scoring,
) -> bool {
    let nx = tiles_across(img.width as int, pal[0].width as int);
    let ny = tiles_down(img.height as int, pal[0].height as int);
    &&& rs.len() == nx * ny
    &&& forall|k: int| 0 <= k < rs.len() ==> valid_result(#[trigger] rs[k], img, pal, s)
    &&& forall|i: int, j: int|
        0 <= i < nx && 0 <= j < ny ==> rs.contains(#[trigger] canonical_match(img, pal, s, i, j))
    &&& forall|k1: int, k2: int|
        0 <= k1 < rs.len() && 0 <= k2 < rs.len() && k1 != k2 ==> ((#[trigger] rs[k1]).x, rs[k1].y)
            != ((#[trigger] rs[k2]).x, rs[k2].y)
}

/// A valid result is the canonical match of the grid position that its
/// origin spells out.
pub proof fn lemma_valid_is_canonical(m: MatchResult, img: Bitmap, pal: Seq<Bitmap>, s: Scoring)
    requires
        matchable(img, pal, s),
        valid_result(m, img, pal, s),
    ensures
        ({
            let i = m.x as int / pal[0].width as int;
            let j = m.y as int / pal[0].height as int;
            0 <= i < tiles_across(img.width as int, pal[0].width as int) && 0 <= j < tiles_down(
                img.height as int,
                pal[0].height as int,
            ) && m == canonical_match(img, pal, s, i, j)
        }),
{
    let cw = pal[0].width as int;
    let ch = pal[0].height as int;
    let i = m.x as int / cw;
    let j = m.y as int / ch;
    assert(i * cw == m.x as int && 0 <= i) by (nonlinear_arith)
        requires
            cw >= 1,
            m.x as int % cw == 0,
            i == m.x as int / cw,
            m.x >= 0,
    ;
    assert(j * ch == m.y as int && 0 <= j) by (nonlinear_arith)
        requires
            ch >= 1,
            m.y as int % ch == 0,
            j == m.y as int / ch,
            m.y >= 0,
    ;
    assert(i <= (img.width as int - cw) / cw) by (nonlinear_arith)
        requires
            cw >= 1,
            i * cw == m.x as int,
            m.x as int + cw <= img.width as int,
            0 <= i,
    ;
    assert(j <= (img.height as int - ch) / ch) by (nonlinear_arith)
        requires
            ch >= 1,
            j * ch == m.y as int,
            m.y as int + ch <= img.height as int,
            0 <= j,
    ;
    lemma_best_upto_props(img, m.x as int, m.y as int, pal, s, pal.len() as int);
}

/// A tile origin of the grid leaves room for a whole cell.
pub proof fn lemma_origin_in_bounds(i: int, w: int, cw: int)
    requires
        1 <= cw <= w,
        0 <= i < tiles_across(w, cw),
    ensures
        0 <= i * cw <= w - cw,
{
    assert(0 <= i * cw && i * cw <= ((w - cw) / cw) * cw && ((w - cw) / cw) * cw <= w - cw)
        by (nonlinear_arith)
        requires
            1 <= cw <= w,
            0 <= i <= (w - cw) / cw,
    ;
}

/// Distinct grid positions have distinct origins.
pub proof fn lemma_origin_injective(i1: int, j1: int, i2: int, j2: int, cw: int, ch: int)
    requires
        1 <= cw,
        1 <= ch,
        0 <= i1,
        0 <= j1,
        0 <= i2,
        0 <= j2,
        (i1, j1) != (i2, j2),
    ensures
        (i1 * cw, j1 * ch) != (i2 * cw, j2 * ch),
{
    assert(!(i1 * cw == i2 * cw && j1 * ch == j2 * ch)) by (nonlinear_arith)
        requires
            1 <= cw,
            1 <= ch,
            0 <= i1,
            0 <= j1,
            0 <= i2,
            0 <= j2,
            !(i1 == i2 && j1 == j2),
    ;
}

/// Every flat slot below `nx * ny` is the slot of exactly one grid
/// position.
pub proof fn lemma_slot_decompose(k: int, nx: int, ny: int)
    requires
        0 <= k < nx * ny,
        0 <= nx,
        0 <= ny,
    ensures
        exists|i: int, j: int|
            0 <= i < nx && 0 <= j < ny && k == #[trigger] tile_slot(i, j, ny),
{
    assert(ny > 0) by (nonlinear_arith)
        requires
            0 <= k < nx * ny,
            0 <= ny,
    ;
    let i = k / ny;
    let j = k % ny;
    assert(k == i * ny + j && 0 <= j < ny) by (nonlinear_arith)
        requires
            ny > 0,
            i == k / ny,
            j == k % ny,
            0 <= k,
    ;
    assert(0 <= i < nx) by (nonlinear_arith)
        requires
            ny > 0,
            k == i * ny + j,
            0 <= j < ny,
            0 <= k < nx * ny,
    ;
    assert(k == tile_slot(i, j, ny));
}

/// Matches every tile of the grid, in column-major order, and returns one
/// result per tile.
pub fn match_tiles(img: &Bitmap, palette: &Vec<Bitmap>, s: Scoring) -> (r: Vec<MatchResult>)
    requires
        matchable(*img, palette@, s),
    ensures
        r@.len() == tiles_across(img.width as int, palette@[0].width as int) * tiles_down(
            img.height as int,
            palette@[0].height as int,
        ),
        forall|i: int, j: int|
            0 <= i < tiles_across(img.width as int, palette@[0].width as int) && 0 <= j
                < tiles_down(img.height as int, palette@[0].height as int) ==> r@[#[trigger] tile_slot(
                i,
                j,
                tiles_down(img.height as int, palette@[0].height as int),
            )] == canonical_match(*img, palette@, s, i, j),
        r@ == canonical_matches(*img, palette@, s),
        complete_match_set(r@, *img, palette@, s),
{
    // Reading the palette's length bounds the winning index for the
    // cast in the canonical description.
    let n_entries: usize = palette.len();
    let cw = palette[0].width;
    let ch = palette[0].height;
    let width = img.width;
    let height = img.height;
    let ghost nx = tiles_across(width as int, cw as int);
    let ghost ny = tiles_down(height as int, ch as int);
    let mut r: Vec<MatchResult> = Vec::new();
    let mut x: u32 = 0;
    let mut i: u32 = 0;
    while x <= width - cw
        invariant
            matchable(*img, palette@, s),
            cw == palette@[0].width,
            ch == palette@[0].height,
            width == img.width,
            height == img.height,
            nx == tiles_across(width as int, cw as int),
            ny == tiles_down(height as int, ch as int),
            x as int == i as int * cw as int,
            i == 0 || (i as int - 1) * cw as int <= width as int - cw as int,
            i as int <= nx,
            r@.len() == i as int * ny,
            forall|i2: int, j2: int|
                0 <= i2 < i as int && 0 <= j2 < ny ==> r@[#[trigger] tile_slot(i2, j2, ny)]
                    == canonical_match(*img, palette@, s, i2, j2),
        decreases width as int - x as int,
    {
        let mut y: u32 = 0;
        let mut j: u32 = 0;
        while y <= height - ch
            invariant
                matchable(*img, palette@, s),
                cw == palette@[0].width,
                ch == palette@[0].height,
                width == img.width,
                height == img.height,
                nx == tiles_across(width as int, cw as int),
                ny == tiles_down(height as int, ch as int),
                x as int == i as int * cw as int,
                x as int <= width as int - cw as int,
                y as int == j as int * ch as int,
                j == 0 || (j as int - 1) * ch as int <= height as int - ch as int,
                j as int <= ny,
                r@.len() == i as int * ny + j as int,
                forall|i2: int, j2: int|
                    0 <= i2 < i as int && 0 <= j2 < ny ==> r@[#[trigger] tile_slot(i2, j2, ny)]
                        == canonical_match(*img, palette@, s, i2, j2),
                forall|j2: int|
                    0 <= j2 < j as int ==> r@[#[trigger] tile_slot(i as int, j2, ny)]
                        == canonical_match(*img, palette@, s, i as int, j2),
            decreases height as int - y as int,
        {
            let index = match_character(img, x, y, palette, s);
            r.push(MatchResult { x, y, index });
            proof {
                let slot = tile_slot(i as int, j as int, ny);
                assert(slot == r@.len() - 1);
                assert(r@[slot] == canonical_match(*img, palette@, s, i as int, j as int));
                assert forall|i2: int, j2: int|
                    0 <= i2 < i as int && 0 <= j2 < ny implies r@[#[trigger] tile_slot(i2, j2, ny)]
                    == canonical_match(*img, palette@, s, i2, j2) by {
                    assert(tile_slot(i2, j2, ny) < i as int * ny) by (nonlinear_arith)
                        requires
                            0 <= i2 < i as int,
                            0 <= j2 < ny,
                    ;
                }
            }
            proof {
                assert((j as int + 1) * ch as int == j as int * ch as int + ch as int)
                    by (nonlinear_arith);
                assert(j as int + 1 <= (height as int - ch as int) / ch as int + 1)
                    by (nonlinear_arith)
                    requires
                        y as int == j as int * ch as int,
                        y as int <= height as int - ch as int,
                        1 <= ch as int,
                        0 <= j as int,
                ;
            }
            y = y + ch;
            j = j + 1;
        }
        proof {
            // The inner loop filled exactly one whole column of tiles.
            assert(j as int >= 1) by (nonlinear_arith)
                requires
                    y as int == j as int * ch as int,
                    y as int > height as int - ch as int,
                    height as int - ch as int >= 0,
                    ch as int >= 1,
                    0 <= j as int,
            ;
            assert(j as int - 1 == (height as int - ch as int) / ch as int) by (nonlinear_arith)
                requires
                    1 <= ch as int,
                    1 <= j as int,
                    (j as int - 1) * ch as int <= height as int - ch as int,
                    j as int * ch as int > height as int - ch as int,
                    y as int == j as int * ch as int,
            ;
            assert(j as int == ny);
            assert((i as int + 1) * ny == i as int * ny + ny) by (nonlinear_arith);
        }
        proof {
            assert((i as int + 1) * cw as int == i as int * cw as int + cw as int)
                by (nonlinear_arith);
            assert(i as int + 1 <= (width as int - cw as int) / cw as int + 1) by (nonlinear_arith)
                requires
                    x as int == i as int * cw as int,
                    x as int <= width as int - cw as int,
                    1 <= cw as int,
                    0 <= i as int,
            ;
        }
        x = x + cw;
        i = i + 1;
    }
    proof {
        // The outer loop visited every tile column.
        assert(i as int >= 1) by (nonlinear_arith)
            requires
                x as int == i as int * cw as int,
                x as int > width as int - cw as int,
                width as int - cw as int >= 0,
                cw as int >= 1,
                0 <= i as int,
        ;
        assert(i as int - 1 == (width as int - cw as int) / cw as int) by (nonlinear_arith)
            requires
                1 <= cw as int,
                1 <= i as int,
                (i as int - 1) * cw as int <= width as int - cw as int,
                i as int * cw as int > width as int - cw as int,
        ;
        assert(i as int == nx);
        // The slot-indexed description yields the unordered one.
        assert forall|k: int| 0 <= k < r@.len() implies valid_result(
            #[trigger] r@[k],
            *img,
            palette@,
            s,
        ) by {
            lemma_slot_decompose(k, nx, ny);
            let (i2, j2) = choose|i2: int, j2: int|
                0 <= i2 < nx && 0 <= j2 < ny && k == #[trigger] tile_slot(i2, j2, ny);
            assert(r@[k] == canonical_match(*img, palette@, s, i2, j2));
            lemma_origin_in_bounds(i2, width as int, cw as int);
            lemma_origin_in_bounds(j2, height as int, ch as int);
            assert((i2 * cw as int) % cw as int == 0) by (nonlinear_arith)
                requires
                    cw as int >= 1,
            ;
            assert((j2 * ch as int) % ch as int == 0) by (nonlinear_arith)
                requires
                    ch as int >= 1,
            ;
            lemma_best_upto_props(
                *img,
                i2 * cw as int,
                j2 * ch as int,
                palette@,
                s,
                palette@.len() as int,
            );
            assert(palette@.len() <= usize::MAX);
            assert(r@[k].x as int == i2 * cw as int);
            assert(r@[k].y as int == j2 * ch as int);
            assert(r@[k].index as int == best_index(
                *img,
                i2 * cw as int,
                j2 * ch as int,
                palette@,
                s,
            ));
        }
        assert forall|i2: int, j2: int| 0 <= i2 < nx && 0 <= j2 < ny implies r@.contains(
            #[trigger] canonical_match(*img, palette@, s, i2, j2),
        ) by {
            assert(0 <= tile_slot(i2, j2, ny) < nx * ny) by (nonlinear_arith)
                requires
                    0 <= i2 < nx,
                    0 <= j2 < ny,
            ;
            assert(r@[tile_slot(i2, j2, ny)] == canonical_match(*img, palette@, s, i2, j2));
        }
        assert(ny >= 1) by (nonlinear_arith)
            requires
                ny == (height as int - ch as int) / ch as int + 1,
                height as int - ch as int >= 0,
                ch as int >= 1,
        ;
        assert forall|k: int| 0 <= k < r@.len() implies r@[k] == canonical_matches(
            *img,
            palette@,
            s,
        )[k] by {
            lemma_slot_decompose(k, nx, ny);
            let (i2, j2) = choose|i2: int, j2: int|
                0 <= i2 < nx && 0 <= j2 < ny && k == #[trigger] tile_slot(i2, j2, ny);
            assert(k / ny == i2 && k % ny == j2) by (nonlinear_arith)
                requires
                    ny >= 1,
                    k == i2 * ny + j2,
                    0 <= j2 < ny,
            ;
            assert(r@[k] == canonical_match(*img, palette@, s, i2, j2));
        }
        assert(r@ =~= canonical_matches(*img, palette@, s));
        assert forall|k1: int, k2: int|
            0 <= k1 < r@.len() && 0 <= k2 < r@.len() && k1 != k2 implies ((#[trigger] r@[k1]).x,
        r@[k1].y) != ((#[trigger] r@[k2]).x, r@[k2].y) by {
            lemma_slot_decompose(k1, nx, ny);
            lemma_slot_decompose(k2, nx, ny);
            let (i1, j1) = choose|i1: int, j1: int|
                0 <= i1 < nx && 0 <= j1 < ny && k1 == #[trigger] tile_slot(i1, j1, ny);
            let (i2, j2) = choose|i2: int, j2: int|
                0 <= i2 < nx && 0 <= j2 < ny && k2 == #[trigger] tile_slot(i2, j2, ny);
            assert((i1, j1) != (i2, j2)) by {
                if i1 == i2 && j1 == j2 {
                    assert(k1 == k2);
                }
            }
            lemma_origin_in_bounds(i1, width as int, cw as int);
            lemma_origin_in_bounds(i2, width as int, cw as int);
            lemma_origin_in_bounds(j1, height as int, ch as int);
            lemma_origin_in_bounds(j2, height as int, ch as int);
            lemma_origin_injective(i1, j1, i2, j2, cw as int, ch as int);
            assert(r@[k1] == canonical_match(*img, palette@, s, i1, j1));
            assert(r@[k2] == canonical_match(*img, palette@, s, i2, j2));
        }
    }
    r
}

/// Tile coverage completeness: the origins of a complete result set are
/// exactly the grid points `(i·cw, j·ch)` — none outside the grid, none
/// missed, none twice — and an origin plus its cell never exceeds the
/// image bounds. A trailing strip narrower than one cell gets no tile.
pub proof fn lemma_tile_coverage(rs: Seq<MatchResult>, img: Bitmap, pal: Seq<Bitmap>, s: Scoring)
    requires
        matchable(img, pal, s),
        complete_match_set(rs, img, pal, s),
    ensures
        rs.len() == tiles_across(img.width as int, pal[0].width as int) * tiles_down(
            img.height as int,
            pal[0].height as int,
        ),
        forall|k: int|
            0 <= k < rs.len() ==> (#[trigger] rs[k]).x as int % pal[0].width as int == 0
                && rs[k].y as int % pal[0].height as int == 0 && rs[k].x as int
                + pal[0].width as int <= img.width as int && rs[k].y as int
                + pal[0].height as int <= img.height as int,
        forall|i: int, j: int|
            0 <= i < tiles_across(img.width as int, pal[0].width as int) && 0 <= j < tiles_down(
                img.height as int,
                pal[0].height as int,
            ) ==> (#[trigger] canonical_match(img, pal, s, i, j)).x as int == i
                * pal[0].width as int && canonical_match(img, pal, s, i, j).y as int == j
                * pal[0].height as int && rs.contains(canonical_match(img, pal, s, i, j)),
        forall|k1: int, k2: int|
            0 <= k1 < rs.len() && 0 <= k2 < rs.len() && k1 != k2 ==> ((#[trigger] rs[k1]).x,
            rs[k1].y) != ((#[trigger] rs[k2]).x, rs[k2].y),
{
    let cw = pal[0].width as int;
    let ch = pal[0].height as int;
    assert forall|i: int, j: int|
        0 <= i < tiles_across(img.width as int, cw) && 0 <= j < tiles_down(
            img.height as int,
            ch,
        ) implies (#[trigger] canonical_match(img, pal, s, i, j)).x as int == i * cw
        && canonical_match(img, pal, s, i, j).y as int == j * ch && rs.contains(
        canonical_match(img, pal, s, i, j),
    ) by {
        lemma_origin_in_bounds(i, img.width as int, cw);
        lemma_origin_in_bounds(j, img.height as int, ch);
    }
}

/// Determinism of matching: any two complete result sets for the same
/// image, palette and strategy hold exactly the same results — whatever
/// order the tiles were matched in, and however many workers matched
/// them.
pub proof fn lemma_match_determinism(
    a: Seq<MatchResult>,
    b: Seq<MatchResult>,
    img: Bitmap,
    pal: Seq<Bitmap>,
    s: Scoring,
)
    requires
        matchable(img, pal, s),
        complete_match_set(a, img, pal, s),
        complete_match_set(b, img, pal, s),
    ensures
        a.to_multiset() == b.to_multiset(),
{
    broadcast use vstd::seq_lib::group_to_multiset_ensures;

    assert(a.no_duplicates()) by {
        assert forall|k1: int, k2: int|
            0 <= k1 < a.len() && 0 <= k2 < a.len() && k1 != k2 implies a[k1] != a[k2] by {
            assert(((a[k1]).x, a[k1].y) != ((a[k2]).x, a[k2].y));
        }
    }
    assert(b.no_duplicates()) by {
        assert forall|k1: int, k2: int|
            0 <= k1 < b.len() && 0 <= k2 < b.len() && k1 != k2 implies b[k1] != b[k2] by {
            assert(((b[k1]).x, b[k1].y) != ((b[k2]).x, b[k2].y));
        }
    }
    a.lemma_multiset_has_no_duplicates();
    b.lemma_multiset_has_no_duplicates();
    assert forall|m: MatchResult| a.contains(m) implies b.contains(m) by {
        let k = choose|k: int| 0 <= k < a.len() && a[k] == m;
        assert(valid_result(a[k], img, pal, s));
        lemma_valid_is_canonical(m, img, pal, s);
        let i = m.x as int / pal[0].width as int;
        let j = m.y as int / pal[0].height as int;
        assert(b.contains(canonical_match(img, pal, s, i, j)));
    }
    assert forall|m: MatchResult| b.contains(m) implies a.contains(m) by {
        let k = choose|k: int| 0 <= k < b.len() && b[k] == m;
        assert(valid_result(b[k], img, pal, s));
        lemma_valid_is_canonical(m, img, pal, s);
        let i = m.x as int / pal[0].width as int;
        let j = m.y as int / pal[0].height as int;
        assert(a.contains(canonical_match(img, pal, s, i, j)));
    }
    assert forall|m: MatchResult|
        #[trigger] a.to_multiset().count(m) == b.to_multiset().count(m) by {
        if a.contains(m) {
            assert(a.to_multiset().count(m) == 1);
            assert(b.to_multiset().count(m) == 1);
        } else {
            assert(!b.contains(m));
            assert(a.to_multiset().count(m) == 0);
            assert(b.to_multiset().count(m) == 0);
        }
    }
    assert(a.to_multiset() =~= b.to_multiset());
}

} // verus!
