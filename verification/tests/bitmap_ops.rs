use ascii_mosaic::bitmap::{blend_colors, paint_background, Bitmap};
use ascii_mosaic::color::Color;
use ascii_mosaic::glyph::{paint_character, GlyphCoverage};

const TRANSPARENT: Color = Color { r: 0, g: 0, b: 0, a: 0 };
const BLACK: Color = Color { r: 0, g: 0, b: 0, a: 255 };
const WHITE: Color = Color { r: 255, g: 255, b: 255, a: 255 };

#[test]
fn new_bitmap_is_transparent() {
    let b = Bitmap::new(3, 2);
    assert_eq!(b.width, 3);
    assert_eq!(b.height, 2);
    assert_eq!(b.pixels.len(), 6);
    for y in 0..2 {
        for x in 0..3 {
            assert_eq!(b.get_pixel(x, y), TRANSPARENT);
        }
    }
}

#[test]
fn put_and_get_pixel() {
    let mut b = Bitmap::new(2, 2);
    let red = Color { r: 200, g: 10, b: 20, a: 255 };
    b.put_pixel(1, 0, red);
    assert_eq!(b.get_pixel(1, 0), red);
    assert_eq!(b.get_pixel(0, 0), TRANSPARENT);
}

#[test]
fn blend_opaque_source_overwrites() {
    let any = Color { r: 12, g: 34, b: 56, a: 78 };
    assert_eq!(blend_colors(any, WHITE), WHITE);
    assert_eq!(blend_colors(TRANSPARENT, BLACK), BLACK);
}

#[test]
fn blend_transparent_source_keeps_destination() {
    let dst = Color { r: 12, g: 34, b: 56, a: 200 };
    let src = Color { r: 255, g: 255, b: 255, a: 0 };
    assert_eq!(blend_colors(dst, src), dst);
}

#[test]
fn blend_partial_alpha_exact_values() {
    // Channel: (200*128 + 100*127) / 255 = 38300 / 255 = 150.
    // Alpha over an opaque destination stays opaque.
    let dst = Color { r: 100, g: 100, b: 100, a: 255 };
    let src = Color { r: 200, g: 200, b: 200, a: 128 };
    let out = blend_colors(dst, src);
    assert_eq!(out, Color { r: 150, g: 150, b: 150, a: 255 });
}

#[test]
fn paint_background_fills_every_pixel() {
    let mut b = Bitmap::new(4, 3);
    paint_background(&mut b, &WHITE);
    for y in 0..3 {
        for x in 0..4 {
            assert_eq!(b.get_pixel(x, y), WHITE);
        }
    }
}

#[test]
fn paint_character_blends_inside_box_only() {
    // A 1x1 glyph with full coverage painted black onto a 2x2 white
    // bitmap: the covered pixel turns black, the rest stay white.
    let mut b = Bitmap::new(2, 2);
    paint_background(&mut b, &WHITE);
    let glyph = GlyphCoverage { width: 1, height: 1, coverage: vec![255] };
    paint_character(&mut b, &BLACK, &glyph);
    assert_eq!(b.get_pixel(0, 0), BLACK);
    assert_eq!(b.get_pixel(1, 0), WHITE);
    assert_eq!(b.get_pixel(0, 1), WHITE);
    assert_eq!(b.get_pixel(1, 1), WHITE);
}

#[test]
fn paint_character_partial_coverage_fades_toward_background() {
    // Coverage 128 of an opaque black foreground over white:
    // alpha = 128, channel = (0*128 + 255*127) / 255 = 127.
    let mut b = Bitmap::new(1, 1);
    paint_background(&mut b, &WHITE);
    let glyph = GlyphCoverage { width: 1, height: 1, coverage: vec![128] };
    paint_character(&mut b, &BLACK, &glyph);
    assert_eq!(b.get_pixel(0, 0), Color { r: 127, g: 127, b: 127, a: 255 });
}

#[test]
fn paint_character_zero_coverage_is_invisible() {
    let mut b = Bitmap::new(1, 1);
    paint_background(&mut b, &WHITE);
    let glyph = GlyphCoverage { width: 1, height: 1, coverage: vec![0] };
    paint_character(&mut b, &BLACK, &glyph);
    assert_eq!(b.get_pixel(0, 0), WHITE);
}
