use ascii_mosaic::color::{
    colour_scheme_gradations, colour_scheme_gray_scale, colour_scheme_hacker_green,
    colour_scheme_plotlogic, Color,
};

fn gray(v: u8) -> Color {
    Color { r: v, g: v, b: v, a: 255 }
}

#[test]
fn gray_scale_three_gradations() {
    // Step floor(255 / 3) = 85: levels 0, 85, 170, 255 — one entry more
    // than requested, the documented divisibility quirk.
    let mut colours: Vec<Color> = Vec::new();
    colour_scheme_gray_scale(&mut colours, 3);
    assert_eq!(colours, vec![gray(0), gray(85), gray(170), gray(255)]);
}

#[test]
fn gray_scale_seven_gradations() {
    // Step floor(255 / 7) = 36: 0, 36, ..., 252 — eight entries.
    let mut colours: Vec<Color> = Vec::new();
    colour_scheme_gray_scale(&mut colours, 7);
    assert_eq!(colours.len(), 8);
    assert_eq!(colours[0], gray(0));
    assert_eq!(colours[1], gray(36));
    assert_eq!(colours[7], gray(252));
}

#[test]
fn gray_scale_one_gradation() {
    // Step 255: just black and white.
    let mut colours: Vec<Color> = Vec::new();
    colour_scheme_gray_scale(&mut colours, 1);
    assert_eq!(colours, vec![gray(0), gray(255)]);
}

#[test]
fn gray_scale_appends_after_existing_entries() {
    let white = Color { r: 255, g: 255, b: 255, a: 255 };
    let mut colours: Vec<Color> = vec![white];
    colour_scheme_gray_scale(&mut colours, 1);
    assert_eq!(colours, vec![white, gray(0), gray(255)]);
}

#[test]
fn gradations_three_per_phase() {
    let mut colours: Vec<Color> = Vec::new();
    colour_scheme_gradations(&mut colours, 3);
    assert_eq!(colours.len(), 9);
    // Phase one: red rising, green falling.
    assert_eq!(colours[0], Color { r: 0, g: 255, b: 0, a: 255 });
    assert_eq!(colours[1], Color { r: 127, g: 127, b: 0, a: 255 });
    assert_eq!(colours[2], Color { r: 255, g: 0, b: 0, a: 255 });
    // Phase two: green rising, blue falling.
    assert_eq!(colours[3], Color { r: 0, g: 0, b: 255, a: 255 });
    assert_eq!(colours[4], Color { r: 0, g: 127, b: 127, a: 255 });
    assert_eq!(colours[5], Color { r: 0, g: 255, b: 0, a: 255 });
    // Phase three: blue rising, red falling.
    assert_eq!(colours[6], Color { r: 255, g: 0, b: 0, a: 255 });
    assert_eq!(colours[7], Color { r: 127, g: 0, b: 127, a: 255 });
    assert_eq!(colours[8], Color { r: 0, g: 0, b: 255, a: 255 });
}

#[test]
fn gradations_single_step_is_black() {
    // With one gradation per phase there is no ramp to climb: every
    // phase contributes one black entry.
    let mut colours: Vec<Color> = Vec::new();
    colour_scheme_gradations(&mut colours, 1);
    let black = Color { r: 0, g: 0, b: 0, a: 255 };
    assert_eq!(colours, vec![black, black, black]);
}

#[test]
fn gradations_zero_is_empty() {
    let mut colours: Vec<Color> = Vec::new();
    colour_scheme_gradations(&mut colours, 0);
    assert!(colours.is_empty());
}

#[test]
fn hacker_green_five_entries() {
    let mut colours: Vec<Color> = Vec::new();
    colour_scheme_hacker_green(&mut colours);
    assert_eq!(
        colours,
        vec![
            Color { r: 20, g: 148, b: 29, a: 255 },
            Color { r: 20, g: 107, b: 14, a: 255 },
            Color { r: 100, g: 149, b: 104, a: 255 },
            Color { r: 156, g: 204, b: 156, a: 255 },
            Color { r: 43, g: 83, b: 41, a: 255 },
        ]
    );
}

#[test]
fn plotlogic_four_entries() {
    let mut colours: Vec<Color> = Vec::new();
    colour_scheme_plotlogic(&mut colours);
    assert_eq!(
        colours,
        vec![
            Color { r: 31, g: 52, b: 115, a: 255 },
            Color { r: 41, g: 83, b: 166, a: 255 },
            Color { r: 50, g: 186, b: 217, a: 255 },
            Color { r: 27, g: 166, b: 152, a: 255 },
        ]
    );
}
