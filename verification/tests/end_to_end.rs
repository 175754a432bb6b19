use ascii_mosaic::bitmap::Bitmap;
use ascii_mosaic::color::Color;
use ascii_mosaic::compose::composite;
use ascii_mosaic::glyph::GlyphCoverage;
use ascii_mosaic::matcher::{match_tiles, MatchResult};
use ascii_mosaic::pipeline::{render_mosaic, MosaicError};
use ascii_mosaic::palette::CellSizing;
use ascii_mosaic::score::Scoring;

const TRANSPARENT: Color = Color { r: 0, g: 0, b: 0, a: 0 };
const BLACK: Color = Color { r: 0, g: 0, b: 0, a: 255 };
const WHITE: Color = Color { r: 255, g: 255, b: 255, a: 255 };

fn solid(w: u32, h: u32, c: Color) -> Bitmap {
    Bitmap { width: w, height: h, pixels: vec![c; (w * h) as usize] }
}

#[test]
fn black_image_two_entry_palette_selects_black_and_composites_black() {
    // A 2x2 fully black source, a palette of exactly two 2x2 entries —
    // entry 0 solid black, entry 1 solid white — inverse-difference
    // scoring: the single tile at (0, 0) takes entry 0 and the output
    // canvas is fully black.
    let img = solid(2, 2, BLACK);
    let palette = vec![solid(2, 2, BLACK), solid(2, 2, WHITE)];
    let results = match_tiles(&img, &palette, Scoring::InverseDifference);
    assert_eq!(results.len(), 1);
    assert_eq!((results[0].x, results[0].y, results[0].index), (0, 0, 0));
    let out = composite(2, 2, &results, &palette);
    for y in 0..2 {
        for x in 0..2 {
            assert_eq!(out.get_pixel(x, y), BLACK);
        }
    }
}

#[test]
fn empty_color_lists_abort_with_empty_palette() {
    // A nonzero glyph range but no colors at all: the palette builder
    // returns zero entries and the run aborts with the one diagnostic,
    // rather than matching anything.
    let img = solid(4, 4, BLACK);
    let glyphs = vec![GlyphCoverage { width: 2, height: 2, coverage: vec![255; 4] }];
    let r = render_mosaic(
        &img,
        &glyphs,
        &Vec::<Color>::new(),
        &Vec::<Color>::new(),
        CellSizing::UniformMax,
        Scoring::InverseDifference,
    );
    assert!(matches!(r, Err(MosaicError::EmptyPalette)));
}

#[test]
fn all_no_ink_glyphs_abort_with_empty_palette() {
    let img = solid(4, 4, BLACK);
    let glyphs = vec![GlyphCoverage { width: 0, height: 0, coverage: Vec::new() }];
    let r = render_mosaic(
        &img,
        &glyphs,
        &vec![WHITE],
        &vec![BLACK],
        CellSizing::UniformMax,
        Scoring::InverseDifference,
    );
    assert!(matches!(r, Err(MosaicError::EmptyPalette)));
}

#[test]
fn sums_of_integers() {
    assert_eq!(ascii_mosaic::add(2, 3), 5);
    assert_eq!(ascii_mosaic::add(-7, 7), 0);
}

#[test]
fn full_pipeline_renders_the_matching_entry() {
    // One fully covered 1x1 glyph painted black on a black background
    // gives a single all-black 2x2 entry; over a black 2x2 source the
    // output is that entry, opaque black everywhere.
    let img = solid(2, 2, BLACK);
    let glyphs = vec![GlyphCoverage { width: 1, height: 1, coverage: vec![255] }];
    let out = render_mosaic(
        &img,
        &glyphs,
        &vec![BLACK],
        &vec![BLACK],
        CellSizing::UniformMax,
        Scoring::InverseDifference,
    )
    .unwrap();
    assert_eq!((out.width, out.height), (2, 2));
    for y in 0..2 {
        for x in 0..2 {
            assert_eq!(out.get_pixel(x, y), BLACK);
        }
    }
}

#[test]
fn full_pipeline_prefers_the_closer_background() {
    // A white source image and two backgrounds: the white-background
    // entry must win every tile, so the output is white at the padding
    // pixels. The 1x1 glyph is painted with a fully transparent
    // foreground, so entries are pure background.
    let img = solid(2, 2, WHITE);
    let glyphs = vec![GlyphCoverage { width: 1, height: 1, coverage: vec![255] }];
    let clear = Color { r: 0, g: 0, b: 0, a: 0 };
    let out = render_mosaic(
        &img,
        &glyphs,
        &vec![BLACK, WHITE],
        &vec![clear],
        CellSizing::UniformMax,
        Scoring::InverseDifference,
    )
    .unwrap();
    for y in 0..2 {
        for x in 0..2 {
            assert_eq!(out.get_pixel(x, y), WHITE);
        }
    }
}

#[test]
fn compositor_leaves_uncovered_pixels_transparent() {
    // A 5x3 canvas under a 2x2 cell leaves the trailing strips without
    // any tile: those pixels stay fully transparent.
    let img = solid(5, 3, BLACK);
    let palette = vec![solid(2, 2, BLACK)];
    let results = match_tiles(&img, &palette, Scoring::InverseDifference);
    let out = composite(5, 3, &results, &palette);
    assert_eq!(out.get_pixel(0, 0), BLACK);
    assert_eq!(out.get_pixel(3, 1), BLACK);
    assert_eq!(out.get_pixel(4, 0), TRANSPARENT);
    assert_eq!(out.get_pixel(0, 2), TRANSPARENT);
    assert_eq!(out.get_pixel(4, 2), TRANSPARENT);
}

#[test]
fn compositor_places_each_entry_at_its_tile() {
    // Hand-built results: white at (0,0), black at (2,0).
    let palette = vec![solid(2, 1, WHITE), solid(2, 1, BLACK)];
    let results = vec![
        MatchResult { x: 0, y: 0, index: 0 },
        MatchResult { x: 2, y: 0, index: 1 },
    ];
    let out = composite(4, 1, &results, &palette);
    assert_eq!(out.get_pixel(0, 0), WHITE);
    assert_eq!(out.get_pixel(1, 0), WHITE);
    assert_eq!(out.get_pixel(2, 0), BLACK);
    assert_eq!(out.get_pixel(3, 0), BLACK);
}

#[test]
fn compositor_blends_partial_alpha_against_transparency() {
    // A half-transparent white entry over the transparent canvas:
    // channel (255*128 + 0*127) / 255 = 128, alpha 128 + 0 = 128.
    let half = Color { r: 255, g: 255, b: 255, a: 128 };
    let palette = vec![solid(1, 1, half)];
    let results = vec![MatchResult { x: 0, y: 0, index: 0 }];
    let out = composite(1, 1, &results, &palette);
    assert_eq!(out.get_pixel(0, 0), Color { r: 128, g: 128, b: 128, a: 128 });
}
