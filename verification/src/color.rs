//! Colors and the colour-scheme generators: grayscale ramps, hue-gradation
//! ramps and fixed palettes. Each generator appends an ordered list of
//! colors to the list it is given.

use vstd::prelude::*;

verus! {

/// One RGBA value, 8 bits per channel.
#[derive(Clone, Copy, PartialEq, Eq, Structural, Debug)]
pub struct Color {
    pub r: u8,
    pub g: u8,
    pub b: u8,
    pub a: u8,
}

impl Color {
    /// The fully transparent black that a fresh canvas is filled with.
    pub open spec fn transparent() -> Color {
        Color { r: 0, g: 0, b: 0, a: 0 }
    }

    pub open spec fn gray(v: int) -> Color {
        Color { r: v as u8, g: v as u8, b: v as u8, a: 255 }
    }

    pub open spec fn opaque(r: int, g: int, b: int) -> Color {
        Color { r: r as u8, g: g as u8, b: b as u8, a: 255 }
    }
}

/// Distance between two consecutive gray levels of a ramp with `n`
/// requested gradations.
pub open spec fn gray_step(n: u8) -> int {
    if n == 0 {
        256
    } else {
        255 as int / n as int
    }
}

/// Number of gray levels actually produced: every multiple of the step
/// from 0 up to 255 inclusive.
pub open spec fn gray_count(n: u8) -> int {
    255 as int / gray_step(n) + 1
}

pub open spec fn gray_colour(n: u8, k: int) -> Color {
    Color::gray(k * gray_step(n))
}

/// The gray ramp as a whole: evenly spaced levels from 0 towards 255.
pub open spec fn gray_scale_seq(n: u8) -> Seq<Color> {
    Seq::new(gray_count(n) as nat, |k: int| gray_colour(n, k))
}

/// Appends an evenly spaced gray ramp with step `floor(255 / gradations)`,
/// starting at black, stopping at the last level that is at most 255.
/// Depending on divisibility this yields one entry more or fewer than
/// `gradations`.
pub fn colour_scheme_gray_scale(colours: &mut Vec<Color>, gradations: u8)
    ensures
        final(colours)@ == old(colours)@ + gray_scale_seq(gradations),
{
    let step: usize = if gradations == 0 {
        256
    } else {
        255 / (gradations as usize)
    };
    proof {
        if gradations != 0 {
            assert(1 <= 255 as int / gradations as int <= 255) by (nonlinear_arith)
                requires
                    1 <= gradations <= 255,
            ;
        }
    }
    let ghost base = colours@;
    let mut i: usize = 0;
    let mut k: usize = 0;
    proof {
        assert(colours@ =~= base + Seq::new(0, |j: int| gray_colour(gradations, j)));
    }
    while i <= 255
        invariant
            step == gray_step(gradations),
            1 <= step <= 256,
            i == k * step,
            k == 0 || (k - 1) * step <= 255,
            k <= 256,
            colours@ == base + Seq::new(k as nat, |j: int| gray_colour(gradations, j)),
        decreases 512 - i,
    {
        colours.push(Color { r: i as u8, g: i as u8, b: i as u8, a: 255 });
        proof {
            assert(gray_colour(gradations, k as int) == Color::gray(k * step));
            assert(colours@ =~= base + Seq::new((k + 1) as nat, |j: int| gray_colour(gradations, j)));
            assert((k + 1) * step == k * step + step) by (nonlinear_arith);
            assert(k <= 255) by (nonlinear_arith)
                requires
                    i == k * step,
                    i <= 255,
                    1 <= step,
                    0 <= k,
            ;
        }
        i = i + step;
        k = k + 1;
    }
    proof {
        // i == k * step has just passed 255, so k - 1 is exactly 255 / step.
        assert(k >= 1) by (nonlinear_arith)
            requires
                i == k * step,
                i > 255,
                0 <= k,
        ;
        assert((k - 1) * step <= 255 < k * step);
        assert(k - 1 == 255 as int / step as int) by (nonlinear_arith)
            requires
                1 <= step,
                k >= 1,
                (k - 1) * step <= 255 < k * step,
        ;
        assert(colours@ =~= base + gray_scale_seq(gradations));
    }
}

/// Value of the rising branch of a hue ramp at position `i` of `n`:
/// 0 at the start, 255 at the end, evenly spaced.
pub open spec fn ramp_up(i: int, n: int) -> int {
    if n <= 1 {
        0
    } else {
        255 * i / (n - 1)
    }
}

/// Value of the falling branch of a hue ramp at position `i` of `n`.
pub open spec fn ramp_down(i: int, n: int) -> int {
    if n <= 1 {
        0
    } else {
        255 * (n - 1 - i) / (n - 1)
    }
}

/// Entry `k` of the hue-gradation scheme: three phases of `n` entries
/// each, cycling the rising and falling branches through R/G, G/B and B/R.
pub open spec fn gradation_colour(n: u8, k: int) -> Color {
    let m = n as int;
    if k < m {
        Color::opaque(ramp_up(k, m), ramp_down(k, m), 0)
    } else if k < 2 * m {
        Color::opaque(0, ramp_up(k - m, m), ramp_down(k - m, m))
    } else {
        Color::opaque(ramp_down(k - 2 * m, m), 0, ramp_up(k - 2 * m, m))
    }
}

pub open spec fn gradations_seq(n: u8) -> Seq<Color> {
    Seq::new((3 * n as int) as nat, |k: int| gradation_colour(n, k))
}

fn ramp_up_exec(i: u8, n: u8) -> (r: u8)
    requires
        i < n,
    ensures
        r == ramp_up(i as int, n as int),
{
    if n <= 1 {
        0
    } else {
        proof {
            assert(255 * i as int / (n - 1) as int <= 255) by (nonlinear_arith)
                requires
                    1 <= n - 1,
                    0 <= i <= n - 1,
            ;
        }
        ((255u32 * i as u32) / ((n - 1) as u32)) as u8
    }
}

fn ramp_down_exec(i: u8, n: u8) -> (r: u8)
    requires
        i < n,
    ensures
        r == ramp_down(i as int, n as int),
{
    if n <= 1 {
        0
    } else {
        proof {
            assert(255 * (n - 1 - i) as int / (n - 1) as int <= 255) by (nonlinear_arith)
                requires
                    1 <= n - 1,
                    0 <= n - 1 - i <= n - 1,
            ;
        }
        ((255u32 * ((n - 1 - i) as u32)) / ((n - 1) as u32)) as u8
    }
}

/// Appends three phase-shifted hue ramps of `gradations` entries each:
/// red fading into green, green into blue, blue into red.
pub fn colour_scheme_gradations(colours: &mut Vec<Color>, gradations: u8)
    ensures
        final(colours)@ == old(colours)@ + gradations_seq(gradations),
{
    let ghost base = colours@;
    let n = gradations;
    let mut i: u8 = 0;
    while i < n
        invariant
            i <= n,
            colours@ == base + Seq::new(i as nat, |k: int| gradation_colour(n, k)),
        decreases n - i,
    {
        let r = ramp_up_exec(i, n);
        let g = ramp_down_exec(i, n);
        colours.push(Color { r, g, b: 0, a: 255 });
        proof {
            assert(colours@ =~= base + Seq::new((i + 1) as nat, |k: int| gradation_colour(n, k)));
        }
        i = i + 1;
    }
    let mut i: u8 = 0;
    while i < n
        invariant
            i <= n,
            colours@ == base + Seq::new((n as int + i as int) as nat, |k: int| gradation_colour(n, k)),
        decreases n - i,
    {
        let g = ramp_up_exec(i, n);
        let b = ramp_down_exec(i, n);
        colours.push(Color { r: 0, g, b, a: 255 });
        proof {
            assert(colours@ =~= base + Seq::new(
                (n as int + i as int + 1) as nat,
                |k: int| gradation_colour(n, k),
            ));
        }
        i = i + 1;
    }
    let mut i: u8 = 0;
    while i < n
        invariant
            i <= n,
            colours@ == base + Seq::new((2 * n as int + i as int) as nat, |k: int| gradation_colour(n, k)),
        decreases n - i,
    {
        let r = ramp_down_exec(i, n);
        let b = ramp_up_exec(i, n);
        colours.push(Color { r, g: 0, b, a: 255 });
        proof {
            assert(colours@ =~= base + Seq::new(
                (2 * n as int + i as int + 1) as nat,
                |k: int| gradation_colour(n, k),
            ));
        }
        i = i + 1;
    }
    proof {
        assert(colours@ =~= base + gradations_seq(gradations));
    }
}

/// The fixed terminal-green scheme.
pub open spec fn hacker_green_seq() -> Seq<Color> {
    seq![
        Color { r: 20, g: 148, b: 29, a: 255 },
        Color { r: 20, g: 107, b: 14, a: 255 },
        Color { r: 100, g: 149, b: 104, a: 255 },
        Color { r: 156, g: 204, b: 156, a: 255 },
        Color { r: 43, g: 83, b: 41, a: 255 },
    ]
}

/// Appends the fixed five-color terminal-green scheme.
pub fn colour_scheme_hacker_green(colours: &mut Vec<Color>)
    ensures
        final(colours)@ == old(colours)@ + hacker_green_seq(),
{
    let ghost base = colours@;
    colours.push(Color { r: 20, g: 148, b: 29, a: 255 });
    colours.push(Color { r: 20, g: 107, b: 14, a: 255 });
    colours.push(Color { r: 100, g: 149, b: 104, a: 255 });
    colours.push(Color { r: 156, g: 204, b: 156, a: 255 });
    colours.push(Color { r: 43, g: 83, b: 41, a: 255 });
    proof {
        assert(colours@ =~= base + hacker_green_seq());
    }
}

/// The fixed four-color blue/teal scheme.
pub open spec fn plotlogic_seq() -> Seq<Color> {
    seq![
        Color { r: 31, g: 52, b: 115, a: 255 },
        Color { r: 41, g: 83, b: 166, a: 255 },
        Color { r: 50, g: 186, b: 217, a: 255 },
        Color { r: 27, g: 166, b: 152, a: 255 },
    ]
}

/// Appends the fixed four-color blue/teal scheme.
pub fn colour_scheme_plotlogic(colours: &mut Vec<Color>)
    ensures
        final(colours)@ == old(colours)@ + plotlogic_seq(),
{
    let ghost base = colours@;
    colours.push(Color { r: 31, g: 52, b: 115, a: 255 });
    colours.push(Color { r: 41, g: 83, b: 166, a: 255 });
    colours.push(Color { r: 50, g: 186, b: 217, a: 255 });
    colours.push(Color { r: 27, g: 166, b: 152, a: 255 });
    proof {
        assert(colours@ =~= base + plotlogic_seq());
    }
}

} // verus!
