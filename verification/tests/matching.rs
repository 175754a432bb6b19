use ascii_mosaic::bitmap::Bitmap;
use ascii_mosaic::color::Color;
use ascii_mosaic::matcher::{match_character, match_tiles, MatchResult};
use ascii_mosaic::score::{filter_convolve, filter_diff, Scoring};

const BLACK: Color = Color { r: 0, g: 0, b: 0, a: 255 };
const WHITE: Color = Color { r: 255, g: 255, b: 255, a: 255 };

fn solid(w: u32, h: u32, c: Color) -> Bitmap {
    Bitmap { width: w, height: h, pixels: vec![c; (w * h) as usize] }
}

#[test]
fn score_of_identical_bitmaps_attains_the_maximum() {
    // 765 per pixel: with the w*h divisor both strategies share, that
    // is the scorer's maximum of 765.
    let tile = solid(2, 2, Color { r: 17, g: 170, b: 3, a: 255 });
    let copy = solid(2, 2, Color { r: 17, g: 170, b: 3, a: 255 });
    assert_eq!(filter_diff(&tile, 0, 0, &copy), 765 * 4);
}

#[test]
fn inverse_difference_of_opposites_is_zero() {
    let img = solid(1, 1, BLACK);
    let entry = solid(1, 1, WHITE);
    assert_eq!(filter_diff(&img, 0, 0, &entry), 0);
}

#[test]
fn inverse_difference_exact_value() {
    // Per channel 255 - |a - b|: (255-90) + (255-30) + (255-60) = 585.
    let img = solid(1, 1, Color { r: 100, g: 50, b: 200, a: 255 });
    let entry = solid(1, 1, Color { r: 10, g: 80, b: 140, a: 9 });
    assert_eq!(filter_diff(&img, 0, 0, &entry), 585);
}

#[test]
fn correlation_exact_value() {
    // Per channel the product: 10*2 + 20*3 + 30*4 = 200.
    let img = solid(1, 1, Color { r: 10, g: 20, b: 30, a: 255 });
    let entry = solid(1, 1, Color { r: 2, g: 3, b: 4, a: 0 });
    assert_eq!(filter_convolve(&img, 0, 0, &entry), 200);
}

#[test]
fn score_reads_the_tile_at_its_anchor() {
    // A 2x1 image, black then white; a 1x1 white entry matches the
    // right-hand tile perfectly and the left-hand one not at all.
    let img = Bitmap { width: 2, height: 1, pixels: vec![BLACK, WHITE] };
    let entry = solid(1, 1, WHITE);
    assert_eq!(filter_diff(&img, 0, 0, &entry), 0);
    assert_eq!(filter_diff(&img, 1, 0, &entry), 765);
}

#[test]
fn match_character_picks_the_best_entry() {
    let img = solid(1, 1, Color { r: 200, g: 200, b: 200, a: 255 });
    let characters = vec![
        solid(1, 1, BLACK),
        solid(1, 1, Color { r: 190, g: 190, b: 190, a: 255 }),
        solid(1, 1, WHITE),
    ];
    assert_eq!(match_character(&img, 0, 0, &characters, Scoring::InverseDifference), 1);
}

#[test]
fn match_character_tie_breaks_to_the_lower_index() {
    // Two identical entries score identically; the first wins.
    let img = solid(1, 1, Color { r: 9, g: 9, b: 9, a: 255 });
    let characters = vec![solid(1, 1, WHITE), solid(1, 1, WHITE)];
    assert_eq!(match_character(&img, 0, 0, &characters, Scoring::InverseDifference), 0);
    // Equidistant grays tie too — 128 sits 119 from 9 and 119 from 247.
    let both_off = vec![
        solid(1, 1, Color { r: 128, g: 128, b: 128, a: 255 }),
        solid(1, 1, Color { r: 128, g: 128, b: 128, a: 255 }),
        solid(1, 1, BLACK),
    ];
    assert_eq!(match_character(&img, 0, 0, &both_off, Scoring::InverseDifference), 2);
}

#[test]
fn tile_grid_covers_exact_multiples() {
    // A 4x2 image under a 2x2 cell: tiles at x = 0 and x = 2.
    let img = solid(4, 2, BLACK);
    let palette = vec![solid(2, 2, BLACK)];
    let results = match_tiles(&img, &palette, Scoring::InverseDifference);
    assert_eq!(results.len(), 2);
    assert_eq!((results[0].x, results[0].y, results[0].index), (0, 0, 0));
    assert_eq!((results[1].x, results[1].y, results[1].index), (2, 0, 0));
}

#[test]
fn tile_grid_drops_trailing_partial_strip() {
    // A 5x3 image under a 2x2 cell: the fifth column and third row are
    // narrower than one cell and get no tile.
    let img = solid(5, 3, BLACK);
    let palette = vec![solid(2, 2, BLACK)];
    let results = match_tiles(&img, &palette, Scoring::InverseDifference);
    let origins: Vec<(u32, u32)> = results.iter().map(|m| (m.x, m.y)).collect();
    assert_eq!(origins, vec![(0, 0), (2, 0)]);
}

#[test]
fn tile_grid_image_equal_to_cell_is_one_tile() {
    let img = solid(2, 2, BLACK);
    let palette = vec![solid(2, 2, WHITE)];
    let results = match_tiles(&img, &palette, Scoring::InverseDifference);
    assert_eq!(results.len(), 1);
    assert_eq!((results[0].x, results[0].y), (0, 0));
}

#[test]
fn match_results_are_one_per_tile() {
    // 6x6 under 2x3: 3 columns, 2 rows, every origin exactly once.
    let img = solid(6, 6, BLACK);
    let palette = vec![solid(2, 3, BLACK), solid(2, 3, WHITE)];
    let results = match_tiles(&img, &palette, Scoring::InverseDifference);
    assert_eq!(results.len(), 6);
    let mut origins: Vec<(u32, u32)> = results.iter().map(|m| (m.x, m.y)).collect();
    origins.sort();
    assert_eq!(origins, vec![(0, 0), (0, 3), (2, 0), (2, 3), (4, 0), (4, 3)]);
    for m in &results {
        assert_eq!(m.index, 0);
    }
}

#[test]
fn match_result_fields_round_trip() {
    let m = MatchResult { x: 4, y: 6, index: 9 };
    assert_eq!(m, MatchResult { x: 4, y: 6, index: 9 });
}
