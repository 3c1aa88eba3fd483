//! Source-over compositing of packed ARGB colors.
//!
//! Alphas are weighed in units of 1/255³, so that every quantity is an
//! integer: a foreground of alpha `a` under a coverage `c` weighs
//! `a · c · 255`, and the background of alpha `b` behind it weighs
//! `b · (255² − a · c)`.

use vstd::prelude::*;

verus! {

/// The alpha channel of a packed ARGB color.
pub open spec fn alpha_of(color: u32) -> u32 {
    (color >> 24) & 0xff
}

/// The red channel of a packed ARGB color.
pub open spec fn red_of(color: u32) -> u32 {
    (color >> 16) & 0xff
}

/// The green channel of a packed ARGB color.
pub open spec fn green_of(color: u32) -> u32 {
    (color >> 8) & 0xff
}

/// The blue channel of a packed ARGB color.
pub open spec fn blue_of(color: u32) -> u32 {
    color & 0xff
}

/// The packed ARGB color of four channels.
pub open spec fn argb(alpha: u32, red: u32, green: u32, blue: u32) -> u32 {
    (alpha << 24) | (red << 16) | (green << 8) | blue
}

/// The weight of a foreground of alpha `fg_alpha` under `coverage`.
pub open spec fn foreground_weight(fg_alpha: int, coverage: int) -> int {
    fg_alpha * coverage * 255
}

/// The weight of a background of alpha `bg_alpha` behind a foreground of
/// alpha `fg_alpha` under `coverage`.
pub open spec fn background_weight(fg_alpha: int, bg_alpha: int, coverage: int) -> int {
    bg_alpha * (255 * 255 - fg_alpha * coverage)
}

/// The combined weight of foreground and background. The blend is defined
/// where it is positive.
pub open spec fn combined_weight(foreground: u32, background: u32, coverage: u32) -> int {
    foreground_weight(alpha_of(foreground) as int, coverage as int) + background_weight(
        alpha_of(foreground) as int,
        alpha_of(background) as int,
        coverage as int,
    )
}

/// One channel of the blend: the weighted mean of the two channels, rounded
/// down.
pub open spec fn mixed(fg: int, bg: int, fg_weight: int, bg_weight: int) -> int {
    (fg * fg_weight + bg * bg_weight) / (fg_weight + bg_weight)
}

/// `foreground` composited over `background` under `coverage`: the alpha is
/// the combined weight brought back to the range of a byte, and each color
/// channel is the weighted mean of the two colors.
pub open spec fn blended(foreground: u32, background: u32, coverage: u32) -> u32 {
    let fw = foreground_weight(alpha_of(foreground) as int, coverage as int);
    let bw = background_weight(
        alpha_of(foreground) as int,
        alpha_of(background) as int,
        coverage as int,
    );
    argb(
        ((fw + bw) / 65025) as u32,
        mixed(red_of(foreground) as int, red_of(background) as int, fw, bw) as u32,
        mixed(green_of(foreground) as int, green_of(background) as int, fw, bw) as u32,
        mixed(blue_of(foreground) as int, blue_of(background) as int, fw, bw) as u32,
    )
}

/// What a glyph cell of `coverage` leaves of `background` when it is drawn
/// in `foreground`: the blend where one is defined, and fully transparent
/// black where both colors are fully transparent.
pub open spec fn composited(foreground: u32, background: u32, coverage: u32) -> u32 {
    if combined_weight(foreground, background, coverage) > 0 {
        blended(foreground, background, coverage)
    } else {
        0
    }
}

/// Every channel of a color is a byte, and the four channels make up the
/// color.
pub proof fn lemma_channels(color: u32)
    ensures
        alpha_of(color) <= 255,
        red_of(color) <= 255,
        green_of(color) <= 255,
        blue_of(color) <= 255,
        argb(alpha_of(color), red_of(color), green_of(color), blue_of(color)) == color,
{
    assert((color >> 24) & 0xff <= 255) by (bit_vector);
    assert((color >> 16) & 0xff <= 255) by (bit_vector);
    assert((color >> 8) & 0xff <= 255) by (bit_vector);
    assert(color & 0xff <= 255) by (bit_vector);
    assert(((((color >> 24) & 0xff) << 24) | (((color >> 16) & 0xff) << 16) | (((color >> 8)
        & 0xff) << 8) | (color & 0xff)) == color) by (bit_vector);
}

/// The weights of a blend are never negative and their sum is at most 255³.
pub proof fn lemma_weights(fg_alpha: int, bg_alpha: int, coverage: int)
    requires
        0 <= fg_alpha <= 255,
        0 <= bg_alpha <= 255,
        0 <= coverage <= 255,
    ensures
        0 <= fg_alpha * coverage <= 255 * 255,
        0 <= foreground_weight(fg_alpha, coverage) <= 255 * 255 * 255,
        0 <= background_weight(fg_alpha, bg_alpha, coverage) <= 255 * 255 * 255,
        foreground_weight(fg_alpha, coverage) + background_weight(fg_alpha, bg_alpha, coverage)
            <= 255 * 255 * 255,
{
    let fc = fg_alpha * coverage;
    assert(0 <= fc <= 255 * 255) by (nonlinear_arith)
        requires
            fc == fg_alpha * coverage,
            0 <= fg_alpha <= 255,
            0 <= coverage <= 255,
    ;
    assert(0 <= bg_alpha * (255 * 255 - fc) <= 255 * (255 * 255 - fc)) by (nonlinear_arith)
        requires
            0 <= bg_alpha <= 255,
            0 <= fc <= 255 * 255,
    ;
}

/// A weighted mean of two bytes is a byte.
pub proof fn lemma_mixed_is_byte(fg: int, bg: int, fg_weight: int, bg_weight: int)
    requires
        0 <= fg <= 255,
        0 <= bg <= 255,
        0 <= fg_weight,
        0 <= bg_weight,
        0 < fg_weight + bg_weight,
    ensures
        0 <= fg * fg_weight <= 255 * fg_weight,
        0 <= bg * bg_weight <= 255 * bg_weight,
        0 <= mixed(fg, bg, fg_weight, bg_weight) <= 255,
{
    assert(0 <= fg * fg_weight <= 255 * fg_weight) by (nonlinear_arith)
        requires
            0 <= fg <= 255,
            0 <= fg_weight,
    ;
    assert(0 <= bg * bg_weight <= 255 * bg_weight) by (nonlinear_arith)
        requires
            0 <= bg <= 255,
            0 <= bg_weight,
    ;
    let total = fg * fg_weight + bg * bg_weight;
    let weight = fg_weight + bg_weight;
    assert(0 <= total / weight <= 255) by (nonlinear_arith)
        requires
            0 <= total <= 255 * weight,
            0 < weight,
    ;
}

/// Composites `foreground` over `background` under `coverage`.
pub fn blend(foreground: u32, background: u32, coverage: u32) -> (color: u32)
    requires
        coverage <= 255,
        combined_weight(foreground, background, coverage) > 0,
    ensures
        color == blended(foreground, background, coverage),
{
    let fg_a: u32 = (foreground >> 24) & 0xff;
    let fg_r: u32 = (foreground >> 16) & 0xff;
    let fg_g: u32 = (foreground >> 8) & 0xff;
    let fg_b: u32 = foreground & 0xff;
    let bg_a: u32 = (background >> 24) & 0xff;
    let bg_r: u32 = (background >> 16) & 0xff;
    let bg_g: u32 = (background >> 8) & 0xff;
    let bg_b: u32 = background & 0xff;
    proof {
        lemma_channels(foreground);
        lemma_channels(background);
        lemma_weights(fg_a as int, bg_a as int, coverage as int);
    }
    let fc: u64 = fg_a as u64 * coverage as u64;
    let fw: u64 = fc * 255;
    let bw: u64 = bg_a as u64 * (255 * 255 - fc);
    proof {
        lemma_mixed_is_byte(fg_r as int, bg_r as int, fw as int, bw as int);
        lemma_mixed_is_byte(fg_g as int, bg_g as int, fw as int, bw as int);
        lemma_mixed_is_byte(fg_b as int, bg_b as int, fw as int, bw as int);
    }
    let out_a: u32 = ((fw + bw) / (255 * 255)) as u32;
    let out_r: u32 = ((fg_r as u64 * fw + bg_r as u64 * bw) / (fw + bw)) as u32;
    let out_g: u32 = ((fg_g as u64 * fw + bg_g as u64 * bw) / (fw + bw)) as u32;
    let out_b: u32 = ((fg_b as u64 * fw + bg_b as u64 * bw) / (fw + bw)) as u32;
    (out_a << 24) | (out_r << 16) | (out_g << 8) | out_b
}

/// What a glyph cell of `coverage` leaves of `background` when it is drawn
/// in `foreground`.
pub fn composite(foreground: u32, background: u32, coverage: u8) -> (color: u32)
    ensures
        color == composited(foreground, background, coverage as u32),
{
    let fg_a: u32 = (foreground >> 24) & 0xff;
    let bg_a: u32 = (background >> 24) & 0xff;
    proof {
        lemma_channels(foreground);
        lemma_channels(background);
        lemma_weights(fg_a as int, bg_a as int, coverage as int);
    }
    let fc: u64 = fg_a as u64 * coverage as u64;
    let weight: u64 = fc * 255 + bg_a as u64 * (255 * 255 - fc);
    if weight > 0 {
        blend(foreground, background, coverage as u32)
    } else {
        0
    }
}

/// An opaque foreground under full coverage hides the background: the blend
/// is the foreground itself.
pub proof fn lemma_opaque_foreground(foreground: u32, background: u32)
    requires
        alpha_of(foreground) == 255,
    ensures
        combined_weight(foreground, background, 255) > 0,
        blended(foreground, background, 255) == foreground,
{
    lemma_channels(foreground);
    lemma_channels(background);
    let fw = foreground_weight(255, 255);
    let bw = background_weight(255, alpha_of(background) as int, 255);
    assert(fw == 255 * 255 * 255) by (nonlinear_arith)
        requires
            fw == 255 * 255 * 255int,
    ;
    assert(bw == 0) by (nonlinear_arith)
        requires
            bw == alpha_of(background) * (255 * 255 - 255 * 255int),
    ;
    assert forall|v: int| 0 <= v <= 255 implies #[trigger] mixed(v, 0, fw, 0) == v by {
        assert((v * fw + 0 * 0) / (fw + 0) == v) by (nonlinear_arith)
            requires
                fw > 0,
        ;
    }
    assert forall|v: int, b: int| #[trigger] mixed(v, b, fw, 0) == mixed(v, 0, fw, 0) by {
        assert(b * 0 == 0 * 0) by (nonlinear_arith);
    }
    assert((fw + bw) / 65025 == 255);
}

} // verus!
