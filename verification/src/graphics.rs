//! Reduction of 24-bit colours to the 6x6x6 colour cube of the ANSI 256-colour palette.
use vstd::prelude::*;

verus! {

/// The level (0 to 5) of the ANSI colour cube that a channel value falls on:
/// values below 95 give 0, and from 95 up each step of 40 gives one more level.
pub open spec fn ansi_cube_level(v: u8) -> int {
    if v < 95 {
        0
    } else {
        1 + (v - 95) / 40
    }
}

/// The ANSI 256-colour palette index of the colour cube entry for the levels
/// of the three channels.
pub open spec fn ansi_cube_code(r: u8, g: u8, b: u8) -> int {
    16 + 36 * ansi_cube_level(r) + 6 * ansi_cube_level(g) + ansi_cube_level(b)
}

/// Every channel value falls on one of the cube's six levels.
pub proof fn lemma_ansi_cube_level_range(v: u8)
    ensures
        0 <= ansi_cube_level(v) <= 5,
{
}

fn rgb_channel_to_ansi_index(v: u8) -> (level: u8)
    ensures
        level == ansi_cube_level(v),
{
    // the ansi rgb values are on the scale 0-5
    // 0-95 map to 0, 95-255 map to 1-5
    if v < 95 {
        return 0;
    }
    1 + (v - 95) / 40
}

/// The ANSI 256-colour palette index that approximates the colour `(r, g, b)`.
pub fn rgb_to_ansi256(r: u8, g: u8, b: u8) -> (code: u16)
    ensures
        code == ansi_cube_code(r, g, b),
{
    let rc = rgb_channel_to_ansi_index(r);
    let gc = rgb_channel_to_ansi_index(g);
    let bc = rgb_channel_to_ansi_index(b);
    (16 + 36 * (rc as u16) + 6 * (gc as u16) + (bc as u16))
}

/// Every colour maps into the colour cube part of the palette, indices 16 to 231.
pub proof fn lemma_ansi_code_in_cube(r: u8, g: u8, b: u8)
    ensures
        16 <= ansi_cube_code(r, g, b) <= 231,
{
}

/// Raising one channel never lowers that channel's level.
pub proof fn lemma_ansi_cube_level_monotone(v: u8, w: u8)
    requires
        v <= w,
    ensures
        ansi_cube_level(v) <= ansi_cube_level(w),
{
}

/// Two colours get the same palette index exactly when their three channels
/// fall on the same cube levels.
pub proof fn lemma_ansi_code_determines_levels(r1: u8, g1: u8, b1: u8, r2: u8, g2: u8, b2: u8)
    ensures
        ansi_cube_code(r1, g1, b1) == ansi_cube_code(r2, g2, b2) <==> (ansi_cube_level(r1)
            == ansi_cube_level(r2) && ansi_cube_level(g1) == ansi_cube_level(g2)
            && ansi_cube_level(b1) == ansi_cube_level(b2)),
{
}

/// Whether `l` is the cube level whose band holds the channel value `v`:
/// band 0 is below 95, and band `l` (1 to 5) starts at `95 + 40 * (l - 1)`
/// and ends before `95 + 40 * l`.
pub open spec fn in_cube_band(v: u8, l: int) -> bool {
    &&& 0 <= l <= 5
    &&& l == 0 <==> v < 95
    &&& l > 0 ==> 95 + 40 * (l - 1) <= v < 95 + 40 * l
}

/// A channel's cube level is the band that holds it, and that band is unique.
pub proof fn lemma_ansi_cube_level_is_band(v: u8, l: int)
    ensures
        in_cube_band(v, ansi_cube_level(v)),
        in_cube_band(v, l) ==> l == ansi_cube_level(v),
{
}

/// The palette index of a colour is `16 + 36 r + 6 g + b` for the bands
/// `r`, `g`, `b` that hold its three channels.
pub proof fn lemma_ansi_code_from_bands(r: u8, g: u8, b: u8, lr: int, lg: int, lb: int)
    requires
        in_cube_band(r, lr),
        in_cube_band(g, lg),
        in_cube_band(b, lb),
    ensures
        ansi_cube_code(r, g, b) == 16 + 36 * lr + 6 * lg + lb,
{
    lemma_ansi_cube_level_is_band(r, lr);
    lemma_ansi_cube_level_is_band(g, lg);
    lemma_ansi_cube_level_is_band(b, lb);
}

} // verus!
