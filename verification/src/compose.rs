//! The compositor: writes the selected palette bitmaps into a fresh,
//! fully transparent canvas at their tile coordinates, compositing each
//! entry over whatever is already there. On the non-overlapping tile grid
//! every entry only ever blends against the transparent background, so
//! the order of application has no observable effect.

use vstd::prelude::*;

use crate::bitmap::{blend, Bitmap};
use crate::color::Color;
use crate::matcher::MatchResult;

verus! {

/// Whether the entry selected by `m` covers the canvas pixel `(x, y)`.
pub open spec fn covers(m: MatchResult, pal: Seq<Bitmap>, x: int, y: int) -> bool {
    &&& m.x as int <= x < m.x as int + pal[m.index as int].width as int
    &&& m.y as int <= y < m.y as int + pal[m.index as int].height as int
}

/// A match result that can be composited: its entry exists and its cell
/// lies inside the canvas.
pub open spec fn placed(m: MatchResult, pal: Seq<Bitmap>, w: int, h: int) -> bool {
    &&& m.index < pal.len()
    &&& m.x as int + pal[m.index as int].width as int <= w
    &&& m.y as int + pal[m.index as int].height as int <= h
}

/// The color of canvas pixel `(x, y)` after the entries selected by
/// `results` have been composited, in order, over a transparent canvas.
pub open spec fn composed_pixel(
    results: Seq<MatchResult>,
    pal: Seq<Bitmap>,
    x: int,
    y: int,
) -> Color
    decreases results.len(),
{
    if results.len() == 0 {
        Color::transparent()
    } else {
        let prev = composed_pixel(results.drop_last(), pal, x, y);
        let m = results.last();
        if covers(m, pal, x, y) {
            blend(prev, pal[m.index as int].pixel(x - m.x as int, y - m.y as int))
        } else {
            prev
        }
    }
}

/// Composites `entry` over `canvas` with its top-left corner at
/// `(ox, oy)`.
pub fn overlay(canvas: &mut Bitmap, entry: &Bitmap, ox: u32, oy: u32)
    requires
        old(canvas).wf(),
        entry.wf(),
        ox as int + entry.width as int <= old(canvas).width as int,
        oy as int + entry.height as int <= old(canvas).height as int,
    ensures
        final(canvas).wf(),
        final(canvas).same_dims(*old(canvas)),
        forall|x: int, y: int|
            old(canvas).in_bounds(x, y) ==> final(canvas).pixel(x, y) == if ox as int <= x < ox as int
                + entry.width as int && oy as int <= y < oy as int + entry.height as int {
                blend(old(canvas).pixel(x, y), entry.pixel(x - ox as int, y - oy as int))
            } else {
                old(canvas).pixel(x, y)
            },
{
    let ew = entry.width;
    let eh = entry.height;
    let mut px: u32 = 0;
    while px < ew
        invariant
            canvas.wf(),
            canvas.same_dims(*old(canvas)),
            entry.wf(),
            ew == entry.width,
            eh == entry.height,
            ox as int + ew as int <= canvas.width as int,
            oy as int + eh as int <= canvas.height as int,
            px <= ew,
            forall|x: int, y: int|
                old(canvas).in_bounds(x, y) && ox as int <= x < ox as int + px as int && oy as int
                    <= y < oy as int + eh as int ==> canvas.pixel(x, y) == blend(
                    old(canvas).pixel(x, y),
                    entry.pixel(x - ox as int, y - oy as int),
                ),
            forall|x: int, y: int|
                old(canvas).in_bounds(x, y) && !(ox as int <= x < ox as int + px as int
                    && oy as int <= y < oy as int + eh as int) ==> canvas.pixel(x, y) == old(
                    canvas,
                ).pixel(x, y),
        decreases ew - px,
    {
        let cx = ox + px;
        let mut py: u32 = 0;
        while py < eh
            invariant
                canvas.wf(),
                canvas.same_dims(*old(canvas)),
                entry.wf(),
                ew == entry.width,
                eh == entry.height,
                ox as int + ew as int <= canvas.width as int,
                oy as int + eh as int <= canvas.height as int,
                px < ew,
                py <= eh,
                cx as int == ox as int + px as int,
                forall|x: int, y: int|
                    old(canvas).in_bounds(x, y) && ox as int <= x < ox as int + px as int
                        && oy as int <= y < oy as int + eh as int ==> canvas.pixel(x, y) == blend(
                        old(canvas).pixel(x, y),
                        entry.pixel(x - ox as int, y - oy as int),
                    ),
                forall|y: int|
                    oy as int <= y < oy as int + py as int ==> canvas.pixel(cx as int, y) == blend(
                        old(canvas).pixel(cx as int, y),
                        entry.pixel(px as int, y - oy as int),
                    ),
                forall|x: int, y: int|
                    old(canvas).in_bounds(x, y) && !(ox as int <= x < ox as int + px as int
                        && oy as int <= y < oy as int + eh as int) && !(x == cx as int
                        && oy as int <= y < oy as int + py as int) ==> canvas.pixel(x, y) == old(
                        canvas,
                    ).pixel(x, y),
            decreases eh - py,
        {
            let v = entry.get_pixel(px, py);
            canvas.blend_pixel(cx, oy + py, v);
            py = py + 1;
        }
        px = px + 1;
    }
}

/// Builds the output canvas: a fresh transparent buffer of the given
/// size, with every selected palette entry composited at its tile
/// coordinates.
pub fn composite(
    width: u32,
    height: u32,
    results: &Vec<MatchResult>,
    palette: &Vec<Bitmap>,
) -> (out: Bitmap)
    requires
        width as int * height as int <= usize::MAX,
        forall|k: int| 0 <= k < palette@.len() ==> (#[trigger] palette@[k]).wf(),
        forall|k: int|
            0 <= k < results@.len() ==> placed(
                #[trigger] results@[k],
                palette@,
                width as int,
                height as int,
            ),
    ensures
        out.wf(),
        out.width == width,
        out.height == height,
        forall|x: int, y: int|
            out.in_bounds(x, y) ==> out.pixel(x, y) == composed_pixel(results@, palette@, x, y),
{
    let mut out = Bitmap::new(width, height);
    let mut k: usize = 0;
    proof {
        assert(results@.take(0) =~= Seq::<MatchResult>::empty());
    }
    while k < results.len()
        invariant
            out.wf(),
            out.width == width,
            out.height == height,
            k <= results@.len(),
            forall|k2: int| 0 <= k2 < palette@.len() ==> (#[trigger] palette@[k2]).wf(),
            forall|k2: int|
                0 <= k2 < results@.len() ==> placed(
                    #[trigger] results@[k2],
                    palette@,
                    width as int,
                    height as int,
                ),
            forall|x: int, y: int|
                out.in_bounds(x, y) ==> out.pixel(x, y) == composed_pixel(
                    results@.take(k as int),
                    palette@,
                    x,
                    y,
                ),
        decreases results@.len() - k,
    {
        let ghost before = out;
        let m = results[k];
        let entry = &palette[m.index];
        overlay(&mut out, entry, m.x, m.y);
        proof {
            let taken = results@.take(k as int + 1);
            assert(taken.drop_last() =~= results@.take(k as int));
            assert(taken.last() == results@[k as int]);
            assert forall|x: int, y: int| out.in_bounds(x, y) implies out.pixel(x, y)
                == composed_pixel(taken, palette@, x, y) by {
                assert(before.pixel(x, y) == composed_pixel(
                    results@.take(k as int),
                    palette@,
                    x,
                    y,
                ));
            }
        }
        k = k + 1;
    }
    proof {
        assert(results@.take(results@.len() as int) =~= results@);
    }
    out
}

} // verus!
