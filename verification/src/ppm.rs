//! The per-pixel computation of the plain-text image export: a color
//! as three 8-bit channel values.

use vstd::prelude::*;
use crate::fixed::{iabs, tdiv, lemma_fmul_bound, lemma_tdiv_mag, div_trunc};
use crate::vec3::{Color, v3_in};

verus! {

/// One channel scaled from `[0, 1]` to `[0, 255]`: multiplied by
/// 255.999, truncated, and saturated into the byte range.
pub open spec fn s_channel_byte(c: int) -> int {
    let q = tdiv(c * 255999, 65536000);
    if q < 0 {
        0
    } else if q > 255 {
        255
    } else {
        q
    }
}

/// The three 8-bit channel values of a color, as the text image format
/// writes them.
pub fn color_components(color: &Color) -> (rgb: (u8, u8, u8))
    requires
        v3_in(color@, 0x8_0000_0000),
    ensures
        rgb.0 as int == s_channel_byte(color@.x),
        rgb.1 as int == s_channel_byte(color@.y),
        rgb.2 as int == s_channel_byte(color@.z),
{
    (channel_byte(color.x), channel_byte(color.y), channel_byte(color.z))
}

/// One channel of the export.
fn channel_byte(c: i128) -> (b: u8)
    requires
        iabs(c as int) <= 0x8_0000_0000,
    ensures
        b as int == s_channel_byte(c as int),
{
    proof {
        lemma_fmul_bound(c as int, 255999, 0x8_0000_0000, 255999);
        lemma_tdiv_mag(c as int * 255999, 65536000);
    }
    let q = div_trunc(c * 255999, 65536000);
    if q < 0 {
        0
    } else if q > 255 {
        255
    } else {
        q as u8
    }
}

} // verus!
