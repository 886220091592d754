//! Colours packed into one integer as `0xRRGGBB`.

use crate::led::APA102DataFrame;
use vstd::prelude::*;

verus! {

/// Red shifted left by sixteen bits, green by eight, and blue, or-ed
/// together in 32 bits.
pub open spec fn packed_rgb(r: u32, g: u32, b: u32) -> u32 {
    (r << 16) | (g << 8) | b
}

/// Packs three channels into one integer. Channels of at most 255 give
/// `0xRRGGBB`; of a larger channel the bits that do not fit in its place
/// run into its neighbours or are lost.
pub fn from_u64_rgb(r: u64, g: u64, b: u64) -> (color: u32)
    requires
        r <= u32::MAX,
        g <= u32::MAX,
        b <= u32::MAX,
    ensures
        color == packed_rgb(r as u32, g as u32, b as u32),
        r <= 255 && g <= 255 && b <= 255 ==> color == r * 0x1_0000 + g * 0x100 + b,
{
    let (r, g, b): (u32, u32, u32) = (r as u32, g as u32, b as u32);
    assert(r <= 255 && g <= 255 && b <= 255 ==> (r << 16) | (g << 8) | b == r * 0x1_0000 + g * 0x100
        + b) by (bit_vector);
    (r << 16) | (g << 8) | b
}

/// A colour with channels of at most 255, packed and taken apart again, is
/// the colour that went in.
pub proof fn lemma_packed_color_unpacks(r: u64, g: u64, b: u64)
    requires
        r <= 255,
        g <= 255,
        b <= 255,
    ensures
        APA102DataFrame::from_packed(packed_rgb(r as u32, g as u32, b as u32)) == APA102DataFrame(
            r as u8,
            g as u8,
            b as u8,
        ),
{
    let (r, g, b): (u32, u32, u32) = (r as u32, g as u32, b as u32);
    assert(r <= 255 && g <= 255 && b <= 255 ==> (((r << 16) | (g << 8) | b) / 0x1_0000) % 0x100
        == r) by (bit_vector);
    assert(r <= 255 && g <= 255 && b <= 255 ==> (((r << 16) | (g << 8) | b) / 0x100) % 0x100 == g)
        by (bit_vector);
    assert(r <= 255 && g <= 255 && b <= 255 ==> ((r << 16) | (g << 8) | b) % 0x100 == b)
        by (bit_vector);
}

} // verus!
