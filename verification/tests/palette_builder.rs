use ascii_mosaic::bitmap::Bitmap;
use ascii_mosaic::color::Color;
use ascii_mosaic::glyph::GlyphCoverage;
use ascii_mosaic::palette::{build_palette, CellSizing};

const BLACK: Color = Color { r: 0, g: 0, b: 0, a: 255 };
const WHITE: Color = Color { r: 255, g: 255, b: 255, a: 255 };

fn full_glyph(w: u32, h: u32) -> GlyphCoverage {
    GlyphCoverage { width: w, height: h, coverage: vec![255; (w * h) as usize] }
}

fn no_ink_glyph() -> GlyphCoverage {
    GlyphCoverage { width: 0, height: 0, coverage: Vec::new() }
}

#[test]
fn no_ink_glyph_contributes_zero_entries() {
    // A whitespace-like glyph adds nothing, whatever the color lists.
    let glyphs = vec![no_ink_glyph(), full_glyph(1, 1)];
    let (pal, _, _) = build_palette(
        &glyphs,
        &vec![WHITE, BLACK],
        &vec![BLACK, WHITE, BLACK],
        CellSizing::UniformMax,
    );
    assert_eq!(pal.len(), 6);
}

#[test]
fn only_no_ink_glyphs_give_an_empty_palette() {
    let glyphs = vec![no_ink_glyph(), no_ink_glyph()];
    let (pal, _, _) = build_palette(&glyphs, &vec![WHITE], &vec![BLACK], CellSizing::UniformMax);
    assert_eq!(pal.len(), 0);
}

#[test]
fn entry_order_is_glyph_then_background_then_foreground() {
    // Two glyphs, two backgrounds, one foreground: glyph 0's entries
    // come first, background order within a glyph.
    let glyphs = vec![full_glyph(1, 1), full_glyph(1, 1)];
    let bgs = vec![WHITE, BLACK];
    let semi = Color { r: 10, g: 20, b: 30, a: 0 };
    let (pal, cw, ch) = build_palette(&glyphs, &bgs, &vec![semi], CellSizing::UniformMax);
    assert_eq!(pal.len(), 4);
    assert_eq!((cw, ch), (2, 2));
    // The foreground is fully transparent, so every pixel keeps its
    // background color; entry k's background tells its position.
    assert_eq!(pal[0].get_pixel(1, 1), WHITE);
    assert_eq!(pal[1].get_pixel(1, 1), BLACK);
    assert_eq!(pal[2].get_pixel(1, 1), WHITE);
    assert_eq!(pal[3].get_pixel(1, 1), BLACK);
}

#[test]
fn uniform_sizing_gives_identical_dimensions() {
    // Palette uniformity: boxes 2x1 and 1x3 share the padded maximum
    // cell 3x4.
    let glyphs = vec![full_glyph(2, 1), full_glyph(1, 3)];
    let (pal, cw, ch) = build_palette(&glyphs, &vec![WHITE], &vec![BLACK], CellSizing::UniformMax);
    assert_eq!((cw, ch), (3, 4));
    assert_eq!(pal.len(), 2);
    for e in &pal {
        assert_eq!((e.width, e.height), (3, 4));
    }
}

#[test]
fn per_glyph_sizing_pads_each_box_by_one() {
    let glyphs = vec![full_glyph(2, 1), full_glyph(1, 3)];
    let (pal, cw, ch) = build_palette(&glyphs, &vec![WHITE], &vec![BLACK], CellSizing::PerGlyph);
    assert_eq!(pal.len(), 2);
    assert_eq!((pal[0].width, pal[0].height), (3, 2));
    assert_eq!((pal[1].width, pal[1].height), (2, 4));
    // The reported cell is the largest cell rendered, per axis.
    assert_eq!((cw, ch), (3, 4));
}

#[test]
fn pre_pass_maximum_counts_glyphs_without_ink() {
    // A 5x0 box has no ink but still widens the uniform pre-pass
    // maximum, as the pre-pass runs over all ids.
    let wide_no_ink = GlyphCoverage { width: 5, height: 0, coverage: Vec::new() };
    let glyphs = vec![wide_no_ink, full_glyph(1, 2)];
    let (pal, cw, ch) = build_palette(&glyphs, &vec![WHITE], &vec![BLACK], CellSizing::UniformMax);
    assert_eq!(pal.len(), 1);
    assert_eq!((cw, ch), (6, 3));
}

#[test]
fn entry_pixels_composite_glyph_over_background() {
    // One 1x1 fully covered glyph, white background, opaque black
    // foreground, uniform cell 2x2: the glyph pixel is black, the three
    // padding pixels stay white.
    let glyphs = vec![full_glyph(1, 1)];
    let (pal, cw, ch) = build_palette(&glyphs, &vec![WHITE], &vec![BLACK], CellSizing::UniformMax);
    assert_eq!((cw, ch), (2, 2));
    let e: &Bitmap = &pal[0];
    assert_eq!(e.get_pixel(0, 0), BLACK);
    assert_eq!(e.get_pixel(1, 0), WHITE);
    assert_eq!(e.get_pixel(0, 1), WHITE);
    assert_eq!(e.get_pixel(1, 1), WHITE);
}

#[test]
fn empty_color_lists_give_empty_palette() {
    // A nonzero glyph range with no colors to render it in produces no
    // entries at all.
    let glyphs = vec![full_glyph(2, 2), full_glyph(1, 1)];
    let (pal, _, _) = build_palette(
        &glyphs,
        &Vec::<Color>::new(),
        &Vec::<Color>::new(),
        CellSizing::UniformMax,
    );
    assert_eq!(pal.len(), 0);
}
