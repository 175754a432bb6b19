//! A glyph-mosaic compositor: builds a palette of pre-rendered font-glyph
//! bitmaps, assigns to every tile of a source image the palette entry that
//! resembles it best, and composites the chosen entries into an output
//! canvas of the same size.

pub mod bitmap;
pub mod color;
pub mod compose;
pub mod glyph;
pub mod matcher;
pub mod palette;
pub mod pipeline;
pub mod score;

use vstd::prelude::*;

verus! {

/// Adds two numbers.
pub fn add(a: i32, b: i32) -> (r: i32)
    requires
        i32::MIN <= a + b <= i32::MAX,
    ensures
        r == a + b,
{
    a + b
}

} // verus!
