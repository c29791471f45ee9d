//! The fixed glyph palette and the luminance-to-glyph mapping.
//!
//! Luminance is an 8-bit brightness estimate computed from an RGB triple by
//! the weighted sum `(3*r + 4*g + b) / 8` (an integer approximation of the
//! ITU-R BT.601 perceptual weights). The 0..=255 luminance range is split
//! into equal-width buckets of `255 / PALETTE_LEN` (that is 25.5, so the
//! bucket index is `(2 * luminance) / 51` in integers), one per palette
//! entry, and the index is clamped so that luminance 255 still selects the
//! last entry.

use vstd::prelude::*;

verus! {

/// Number of glyphs in the fixed palette.
pub const PALETTE_LEN: usize = 10;

/// The fixed glyph palette, ordered from darkest/sparsest to
/// brightest/densest visual weight.
pub open spec fn palette() -> Seq<char> {
    seq![' ', '.', ':', ';', '+', 'o', 'O', '&', '@', '#']
}

/// What `luminance` computes: `(3*r + 4*g + b) / 8`, always in `0..=255`.
pub open spec fn spec_luminance(rgb: (u8, u8, u8)) -> u8 {
    ((3 * (rgb.0 as int) + 4 * (rgb.1 as int) + (rgb.2 as int)) / 8) as u8
}

/// The weighted sum that luminance is a monotone function of.
pub open spec fn weighted_sum(rgb: (u8, u8, u8)) -> int {
    3 * (rgb.0 as int) + 4 * (rgb.1 as int) + (rgb.2 as int)
}

/// Brightness estimate of an RGB triple.
pub fn luminance(rgb: (u8, u8, u8)) -> (l: u8)
    ensures
        l == spec_luminance(rgb),
{
    let r: u16 = rgb.0 as u16;
    let g: u16 = rgb.1 as u16;
    let b: u16 = rgb.2 as u16;
    ((3 * r + 4 * g + b) / 8) as u8
}

/// The palette bucket that a luminance value falls in: equal-width buckets
/// of `255 / PALETTE_LEN` luminance values each — `(2 * l) / 51` written in
/// integers — clamped so the top edge (luminance 255) stays on the last
/// entry.
pub open spec fn spec_bucket(l: u8) -> int {
    let idx = (2 * (l as int)) / 51;
    if idx < PALETTE_LEN - 1 {
        idx
    } else {
        PALETTE_LEN - 1
    }
}

/// What `get_char` returns: the palette entry of the luminance's bucket.
pub open spec fn spec_get_char(l: u8) -> char {
    palette()[spec_bucket(l)]
}

/// The palette entry at a given index.
pub fn palette_char(i: usize) -> (c: char)
    requires
        i < PALETTE_LEN,
    ensures
        c == palette()[i as int],
{
    match i {
        0 => ' ',
        1 => '.',
        2 => ':',
        3 => ';',
        4 => '+',
        5 => 'o',
        6 => 'O',
        7 => '&',
        8 => '@',
        _ => '#',
    }
}

/// Glyph for a luminance value.
pub fn get_char(luminance: u8) -> (c: char)
    ensures
        c == spec_get_char(luminance),
{
    let idx: usize = (2 * (luminance as usize)) / 51;
    let idx: usize = if idx < PALETTE_LEN - 1 {
        idx
    } else {
        PALETTE_LEN - 1
    };
    palette_char(idx)
}

/// Every bucket index is in range, and no palette entry is a control
/// character.
pub proof fn lemma_palette_no_control(i: int)
    requires
        0 <= i < PALETTE_LEN,
    ensures
        palette()[i] != '\r',
        palette()[i] != '\n',
{
    if i == 0 {
        assert(palette()[0] == ' ');
    } else if i == 1 {
        assert(palette()[1] == '.');
    } else if i == 2 {
        assert(palette()[2] == ':');
    } else if i == 3 {
        assert(palette()[3] == ';');
    } else if i == 4 {
        assert(palette()[4] == '+');
    } else if i == 5 {
        assert(palette()[5] == 'o');
    } else if i == 6 {
        assert(palette()[6] == 'O');
    } else if i == 7 {
        assert(palette()[7] == '&');
    } else if i == 8 {
        assert(palette()[8] == '@');
    } else {
        assert(palette()[9] == '#');
    }
}

/// Luminance stays in the 8-bit range and is a monotonically non-decreasing
/// function of the weighted sum `3*r + 4*g + b`: a triple whose weighted sum
/// is no larger never maps to a brighter value.
pub proof fn lemma_luminance_monotone(a: (u8, u8, u8), b: (u8, u8, u8))
    requires
        weighted_sum(a) <= weighted_sum(b),
    ensures
        0 <= spec_luminance(a) <= 255,
        spec_luminance(a) <= spec_luminance(b),
{
    vstd::arithmetic::div_mod::lemma_div_is_ordered(weighted_sum(a), weighted_sum(b), 8);
}

/// Bucketing is consistent with brightness: a darker luminance never
/// selects a later (denser) palette bucket.
pub proof fn lemma_bucket_monotone(l1: u8, l2: u8)
    requires
        l1 <= l2,
    ensures
        spec_bucket(l1) <= spec_bucket(l2),
{
    vstd::arithmetic::div_mod::lemma_div_is_ordered(2 * (l1 as int), 2 * (l2 as int), 51);
}

/// The darkest luminance selects the palette's first (sparsest) entry and
/// the brightest selects its last (densest) entry, both in bounds.
pub proof fn lemma_glyph_extremes()
    ensures
        0 <= spec_bucket(0) < PALETTE_LEN,
        0 <= spec_bucket(255) < PALETTE_LEN,
        spec_get_char(0) == palette().first(),
        spec_get_char(255) == palette().last(),
{
}

} // verus!
