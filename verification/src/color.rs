//! Colours of the logical frame and of the video surface.

use vstd::prelude::*;

verus! {

/// One pixel of the video surface: three channels of eight bits.
#[derive(Clone, Copy, Debug, PartialEq, Eq, Structural)]
pub struct Rgb {
    pub r: u8,
    pub g: u8,
    pub b: u8,
}

/// The channels of a colour packed as `0xRRGGBB`. Bits 24 to 31 are ignored.
pub open spec fn unpacked(color: u32) -> Rgb {
    Rgb {
        r: ((color / 0x1_0000) % 0x100) as u8,
        g: ((color / 0x100) % 0x100) as u8,
        b: (color % 0x100) as u8,
    }
}

/// The colour that an untouched or cleared surface shows.
pub open spec fn white() -> Rgb {
    Rgb { r: 255, g: 255, b: 255 }
}

/// Splits a packed colour into its channels by shifting and masking.
pub fn unpack(color: u32) -> (p: Rgb)
    ensures
        p == unpacked(color),
{
    let r: u32 = (color >> 16) & 0xff;
    let g: u32 = (color >> 8) & 0xff;
    let b: u32 = color & 0xff;
    assert(r == (color / 0x1_0000) % 0x100 && r < 0x100) by (bit_vector)
        requires
            r == (color >> 16) & 0xff,
    ;
    assert(g == (color / 0x100) % 0x100 && g < 0x100) by (bit_vector)
        requires
            g == (color >> 8) & 0xff,
    ;
    assert(b == color % 0x100 && b < 0x100) by (bit_vector)
        requires
            b == color & 0xff,
    ;
    Rgb { r: r as u8, g: g as u8, b: b as u8 }
}

/// The fill colour of [`white`].
pub fn white_pixel() -> (p: Rgb)
    ensures
        p == white(),
{
    Rgb { r: 255, g: 255, b: 255 }
}

} // verus!
