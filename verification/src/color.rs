//! Colors: a palette index, or "by layer", "by block" or "by entity".

use vstd::prelude::*;

verus! {

/// The color of a drawing item, by its raw DXF value: `0` is "by block",
/// `256` is "by layer", `257` is "by entity", and `1` through `255` index the
/// AutoCAD color palette.
#[derive(Clone, Copy, Debug, PartialEq, Eq, Structural)]
pub struct Color {
    raw_value: i16,
}

impl vstd::view::View for Color {
    type V = i16;

    closed spec fn view(&self) -> i16 {
        self.raw_value
    }
}

/// The raw value that stands for "by block".
pub const COLOR_BY_BLOCK: i16 = 0;

/// The raw value that stands for "by layer".
pub const COLOR_BY_LAYER: i16 = 256;

/// The raw value that stands for "by entity".
pub const COLOR_BY_ENTITY: i16 = 257;

/// The 32-bit color value that multileaders write for a color with raw value
/// `raw`: the color method in the top byte (`0xC0` by layer, `0xC1` by block,
/// `0xC3` a palette index in the low byte); any other raw value is written as
/// by block.
pub open spec fn mleader_color_value(raw: i16) -> i32 {
    if raw == COLOR_BY_LAYER {
        -1073741824i32
    } else if 1 <= raw <= 255 {
        (-1023410176i32 + raw) as i32
    } else {
        -1056964608i32
    }
}

impl Color {
    /// The color with the given raw value.
    pub fn from_raw_value(v: i16) -> (c: Color)
        ensures
            c@ == v,
    {
        Color { raw_value: v }
    }

    /// The raw value of the color.
    pub fn raw_value(&self) -> (v: i16)
        ensures
            v == self@,
    {
        self.raw_value
    }

    /// The palette color with the given index.
    pub fn from_index(i: u8) -> (c: Color)
        ensures
            c@ == i as i16,
    {
        Color { raw_value: i as i16 }
    }

    /// The color "by layer".
    pub fn by_layer() -> (c: Color)
        ensures
            c@ == COLOR_BY_LAYER,
    {
        Color { raw_value: COLOR_BY_LAYER }
    }

    /// The color "by block".
    pub fn by_block() -> (c: Color)
        ensures
            c@ == COLOR_BY_BLOCK,
    {
        Color { raw_value: COLOR_BY_BLOCK }
    }

    /// The color "by entity".
    pub fn by_entity() -> (c: Color)
        ensures
            c@ == COLOR_BY_ENTITY,
    {
        Color { raw_value: COLOR_BY_ENTITY }
    }

    /// The palette index of the color, where it is one.
    pub fn index(&self) -> (r: Option<u8>)
        ensures
            r == (if 1 <= self@ <= 255 {
                Some(self@ as u8)
            } else {
                None::<u8>
            }),
    {
        if 1 <= self.raw_value && self.raw_value <= 255 {
            Some(self.raw_value as u8)
        } else {
            None
        }
    }

    /// Whether the color is "by layer".
    pub fn is_by_layer(&self) -> (b: bool)
        ensures
            b == (self@ == COLOR_BY_LAYER),
    {
        self.raw_value == COLOR_BY_LAYER
    }

    /// Whether the color is "by block".
    pub fn is_by_block(&self) -> (b: bool)
        ensures
            b == (self@ == COLOR_BY_BLOCK),
    {
        self.raw_value == COLOR_BY_BLOCK
    }

    /// The 32-bit value that multileaders write for this color.
    pub fn to_mleader_raw_value(&self) -> (v: i32)
        ensures
            v == mleader_color_value(self@),
    {
        if self.raw_value == COLOR_BY_LAYER {
            -1073741824i32
        } else if 1 <= self.raw_value && self.raw_value <= 255 {
            -1023410176i32 + self.raw_value as i32
        } else {
            -1056964608i32
        }
    }
}

/// A multileader color value holds the color method in its top byte and, for
/// a palette index, the index in its low byte: `0xC0000000` by layer,
/// `0xC3000000` plus the index for an index from 1 to 255, and `0xC1000000`
/// (by block) for any other raw value; read as unsigned 32-bit numbers.
pub proof fn mleader_color_law(raw: i16)
    ensures
        mleader_color_value(raw) + 0x1_0000_0000int == if raw == COLOR_BY_LAYER {
            0xC000_0000int
        } else if 1 <= raw <= 255 {
            0xC300_0000int + raw
        } else {
            0xC100_0000int
        },
{
}

} // verus!
