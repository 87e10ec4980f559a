use vstd::prelude::*;

verus! {

/// Color stamped on wireframe segments, which are colorless by construction.
pub const DEFAULT_LINE_COLOR: u32 = 0xffffff;

/// Color given to cloud points whose source carries no color fields.
pub const DEFAULT_POINT_COLOR: u32 = 0x000000;

/// Packs three 8-bit channels into one packed-RGB pixel value.
pub fn pack_rgb(r: u8, g: u8, b: u8) -> (c: u32)
    ensures
        c == ((r as u32) << 16) | ((g as u32) << 8) | (b as u32),
{
    ((r as u32) << 16) | ((g as u32) << 8) | (b as u32)
}

/// Coerces an unsigned vertex property into an 8-bit color channel,
/// saturating at 255.
pub fn channel_from_unsigned(v: u32) -> (c: u8)
    ensures
        c as int == if v <= 255 { v as int } else { 255int },
{
    if v <= 255 {
        v as u8
    } else {
        255
    }
}

/// Coerces a signed vertex property into an 8-bit color channel,
/// clamping to the range 0 to 255.
pub fn channel_from_signed(v: i32) -> (c: u8)
    ensures
        c as int == if v < 0 {
            0int
        } else if v > 255 {
            255int
        } else {
            v as int
        },
{
    if v < 0 {
        0
    } else if v > 255 {
        255
    } else {
        v as u8
    }
}

} // verus!
