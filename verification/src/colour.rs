//! Perceptual colour representation.
//!
//! Raw image pixels arrive as 8-bit RGB samples and are converted once, at
//! sampling time, into hue / saturation / lightness / alpha. Channels are
//! milli-valued: saturation, lightness and alpha range over `[0, 1000]` and
//! hue over `[0, 360_000]` milli-degrees.

use vstd::prelude::*;
use vstd::arithmetic::div_mod::{lemma_div_is_ordered, lemma_div_pos_is_pos, lemma_div_multiples_vanish};
use vstd::arithmetic::mul::{lemma_mul_inequality, lemma_mul_nonnegative};

verus! {

/// Full opacity for a colour channel, `1.0` in milli-units.
pub const CHANNEL_FULL: i64 = 1000;

/// A full hue turn, 360 degrees in milli-degrees.
pub const HUE_FULL: i64 = 360_000;

/// An 8-bit RGBA pixel as an image file stores it.
#[derive(Clone, Copy, Debug, PartialEq, Eq, Structural)]
pub struct Rgba {
    pub r: u8,
    pub g: u8,
    pub b: u8,
    pub a: u8,
}

/// A hue / saturation / lightness / alpha colour in milli-units.
#[derive(Clone, Copy, Debug, PartialEq, Eq, Structural)]
pub struct Hsla {
    /// Milli-degrees in `[0, 360_000]`.
    pub hue: i64,
    /// Milli-value in `[0, 1000]`.
    pub saturation: i64,
    /// Milli-value in `[0, 1000]`.
    pub lightness: i64,
    /// Milli-value in `[0, 1000]`.
    pub alpha: i64,
}

impl Hsla {
    /// Every channel lies in its valid range.
    pub open spec fn wf(self) -> bool {
        &&& 0 <= self.hue <= HUE_FULL
        &&& 0 <= self.saturation <= CHANNEL_FULL
        &&& 0 <= self.lightness <= CHANNEL_FULL
        &&& 0 <= self.alpha <= CHANNEL_FULL
    }
}

/// The largest of the three RGB channels.
pub open spec fn max3(r: int, g: int, b: int) -> int {
    if r >= g && r >= b {
        r
    } else if g >= b {
        g
    } else {
        b
    }
}

/// The smallest of the three RGB channels.
pub open spec fn min3(r: int, g: int, b: int) -> int {
    if r <= g && r <= b {
        r
    } else if g <= b {
        g
    } else {
        b
    }
}

/// HSL lightness of an 8-bit RGB sample, in milli-units: the mean of the
/// largest and smallest channel, rescaled from `[0, 510]` to `[0, 1000]`.
pub open spec fn hsl_lightness(r: int, g: int, b: int) -> int {
    (max3(r, g, b) + min3(r, g, b)) * 1000 / 510
}

/// HSL saturation of an 8-bit RGB sample, in milli-units: chroma over the
/// head-room left by the lightness.
pub open spec fn hsl_saturation(r: int, g: int, b: int) -> int {
    let mx = max3(r, g, b);
    let mn = min3(r, g, b);
    if mx == mn {
        0
    } else if mx + mn <= 255 {
        (mx - mn) * 1000 / (mx + mn)
    } else {
        (mx - mn) * 1000 / (510 - (mx + mn))
    }
}

/// HSL hue of an 8-bit RGB sample, in milli-degrees: which channel dominates
/// picks the 120-degree sector, the other two place the colour inside it.
pub open spec fn hsl_hue(r: int, g: int, b: int) -> int {
    let mx = max3(r, g, b);
    let mn = min3(r, g, b);
    let c = mx - mn;
    if c == 0 {
        0
    } else if mx == r {
        if g >= b {
            60_000 * (g - b) / c
        } else {
            360_000 - 60_000 * (b - g) / c
        }
    } else if mx == g {
        if b >= r {
            120_000 + 60_000 * (b - r) / c
        } else {
            120_000 - 60_000 * (r - b) / c
        }
    } else {
        if r >= g {
            240_000 + 60_000 * (r - g) / c
        } else {
            240_000 - 60_000 * (g - r) / c
        }
    }
}

/// The colour an 8-bit pixel converts to: fully opaque, with the HSL channels
/// given by the formulas above.
pub open spec fn pixel_colour(p: Rgba) -> Hsla {
    Hsla {
        hue: hsl_hue(p.r as int, p.g as int, p.b as int) as i64,
        saturation: hsl_saturation(p.r as int, p.g as int, p.b as int) as i64,
        lightness: hsl_lightness(p.r as int, p.g as int, p.b as int) as i64,
        alpha: CHANNEL_FULL,
    }
}

/// In a dominant-channel sector the hue offset `60_000 * d / c` stays inside
/// the sector, and is at least `235` milli-degrees when `d` is not zero.
proof fn lemma_hue_sector(d: int, c: int)
    requires
        0 <= d <= c,
        0 < c <= 255,
    ensures
        0 <= 60_000 * d / c <= 60_000,
        d > 0 ==> 60_000 * d / c >= 235,
{
    lemma_mul_nonnegative(60_000, d);
    lemma_div_pos_is_pos(60_000 * d, c);
    lemma_mul_inequality(d, c, 60_000);
    assert(60_000 * d == d * 60_000) by (nonlinear_arith);
    assert(60_000 * c == c * 60_000) by (nonlinear_arith);
    lemma_div_is_ordered(60_000 * d, 60_000 * c, c);
    lemma_div_multiples_vanish(60_000, c);
    assert(c * 60_000 == 60_000 * c) by (nonlinear_arith);
    if d > 0 {
        assert(235 * c <= 60_000) by {
            lemma_mul_inequality(c, 255, 235);
            assert(235 * c == c * 235) by (nonlinear_arith);
            assert(255 * 235 == c * 235 + (255 - c) * 235) by (nonlinear_arith);
        }
        assert(60_000 <= 60_000 * d) by {
            lemma_mul_inequality(1, d, 60_000);
        }
        lemma_div_is_ordered(235 * c, 60_000 * d, c);
        lemma_div_multiples_vanish(235, c);
        assert(c * 235 == 235 * c) by (nonlinear_arith);
    }
}

/// The HSL channels of any 8-bit RGB sample land in their valid ranges;
/// the hue never reaches the full turn.
proof fn lemma_channels_wf(r: int, g: int, b: int)
    requires
        0 <= r <= 255,
        0 <= g <= 255,
        0 <= b <= 255,
    ensures
        0 <= hsl_lightness(r, g, b) <= 1000,
        0 <= hsl_saturation(r, g, b) <= 1000,
        0 <= hsl_hue(r, g, b) < 360_000,
{
    let mx = max3(r, g, b);
    let mn = min3(r, g, b);
    let c = mx - mn;
    lemma_mul_nonnegative(mx + mn, 1000);
    lemma_div_pos_is_pos((mx + mn) * 1000, 510);
    assert((mx + mn) * 1000 <= 510 * 1000) by (nonlinear_arith)
        requires mx + mn <= 510;
    lemma_div_is_ordered((mx + mn) * 1000, 510000int, 510);
    if c != 0 {
        if mx + mn <= 255 {
            lemma_mul_nonnegative(c, 1000);
            lemma_div_pos_is_pos(c * 1000, mx + mn);
            assert(c * 1000 <= (mx + mn) * 1000) by (nonlinear_arith)
                requires c <= mx + mn;
            lemma_div_is_ordered(c * 1000, (mx + mn) * 1000, mx + mn);
            assert((mx + mn) * 1000 / (mx + mn) == 1000) by {
                lemma_div_multiples_vanish(1000, mx + mn);
                assert((mx + mn) * 1000 == (mx + mn) * 1000) by (nonlinear_arith);
                assert((mx + mn) * 1000 / (mx + mn) == ((mx + mn) * 1000) / (mx + mn));
                assert(((mx + mn) * 1000) == ((mx + mn)) * 1000);
                assert(((mx + mn)) * 1000 == 1000 * (mx + mn)) by (nonlinear_arith);
            }
        } else {
            let d = 510 - (mx + mn);
            assert(0 < d) by {
                assert(mx <= 255 && mn <= 255);
                assert(mx + mn < 510 || (mx == 255 && mn == 255));
            }
            lemma_mul_nonnegative(c, 1000);
            lemma_div_pos_is_pos(c * 1000, d);
            assert(c <= d) by {
                assert(mx - mn <= 510 - mx - mn ==> true);
                assert(2 * mx <= 510);
            }
            assert(c * 1000 <= d * 1000) by (nonlinear_arith)
                requires c <= d;
            lemma_div_is_ordered(c * 1000, d * 1000, d);
            assert(d * 1000 / d == 1000) by {
                lemma_div_multiples_vanish(1000, d);
                assert(d * 1000 == 1000 * d) by (nonlinear_arith);
            }
        }
        if mx == r {
            if g >= b {
                lemma_hue_sector(g - b, c);
            } else {
                lemma_hue_sector(b - g, c);
            }
        } else if mx == g {
            if b >= r {
                lemma_hue_sector(b - r, c);
            } else {
                lemma_hue_sector(r - b, c);
            }
        } else {
            if r >= g {
                lemma_hue_sector(r - g, c);
            } else {
                lemma_hue_sector(g - r, c);
            }
        }
    }
}

/// The colour any pixel converts to is well formed, and its hue never
/// reaches the full turn.
pub proof fn lemma_pixel_colour_wf(p: Rgba)
    ensures
        pixel_colour(p).wf(),
        pixel_colour(p).hue < HUE_FULL,
{
    lemma_channels_wf(p.r as int, p.g as int, p.b as int);
}

/// Convert an 8-bit RGB(A) pixel to a fully opaque HSLA colour.
///
/// The pixel's own alpha is ignored, as the mosaic draws every sampled cell
/// opaque.
pub fn pixel_to_hsla(pixel: Rgba) -> (c: Hsla)
    ensures
        c == pixel_colour(pixel),
        c.wf(),
{
    let r: i64 = pixel.r as i64;
    let g: i64 = pixel.g as i64;
    let b: i64 = pixel.b as i64;
    let mx: i64 = if r >= g && r >= b {
        r
    } else if g >= b {
        g
    } else {
        b
    };
    let mn: i64 = if r <= g && r <= b {
        r
    } else if g <= b {
        g
    } else {
        b
    };
    let c: i64 = mx - mn;
    proof {
        lemma_channels_wf(r as int, g as int, b as int);
    }
    let lightness: i64 = (mx + mn) * 1000 / 510;
    let saturation: i64 = if c == 0 {
        0
    } else if mx + mn <= 255 {
        c * 1000 / (mx + mn)
    } else {
        c * 1000 / (510 - (mx + mn))
    };
    let hue: i64 = if c == 0 {
        0
    } else if mx == r {
        if g >= b {
            60_000 * (g - b) / c
        } else {
            360_000 - 60_000 * (b - g) / c
        }
    } else if mx == g {
        if b >= r {
            120_000 + 60_000 * (b - r) / c
        } else {
            120_000 - 60_000 * (r - b) / c
        }
    } else {
        if r >= g {
            240_000 + 60_000 * (r - g) / c
        } else {
            240_000 - 60_000 * (g - r) / c
        }
    };
    Hsla { hue, saturation, lightness, alpha: CHANNEL_FULL }
}

} // verus!
