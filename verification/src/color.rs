//! The fixed 16-entry palette and the glyph-to-colour mapping.
//!
//! Bitmap text addresses the palette with the hex digits `0`-`9` and
//! `a`-`f`.  Palette index 0 is the reserved transparent colour value 0.

use vstd::prelude::*;

verus! {

/// The byte value of the glyph `a`.
pub const GLYPH_A: u8 = 97;

/// The byte value of the glyph `f`.
pub const GLYPH_F: u8 = 102;

/// The byte value of the glyph `0`.
pub const GLYPH_0: u8 = 48;

/// The byte value of the glyph `9`.
pub const GLYPH_9: u8 = 57;

/// The colour value stored at a palette index.  Indices outside 0..16
/// read as the transparent value 0.
pub open spec fn spec_palette(i: int) -> u32 {
    if i == 1 {
        0xffffff
    } else if i == 2 {
        0xff2121
    } else if i == 3 {
        0xff93c4
    } else if i == 4 {
        0xff8135
    } else if i == 5 {
        0xfff609
    } else if i == 6 {
        0x249ca3
    } else if i == 7 {
        0x78dc52
    } else if i == 8 {
        0x003fad
    } else if i == 9 {
        0x87f2ff
    } else if i == 10 {
        0x8e2ec4
    } else if i == 11 {
        0xa4839f
    } else if i == 12 {
        0x5c406c
    } else if i == 13 {
        0xe5cdc4
    } else if i == 14 {
        0x91463d
    } else if i == 15 {
        0x000000ff
    } else {
        0
    }
}

/// The colour a glyph byte selects: hex digits address the palette,
/// every other byte (`.` included) is transparent.
pub open spec fn spec_map_color(b: u8) -> u32 {
    if GLYPH_A <= b <= GLYPH_F {
        spec_palette(b - GLYPH_A + 10)
    } else if GLYPH_0 <= b <= GLYPH_9 {
        spec_palette(b - GLYPH_0)
    } else {
        0
    }
}

/// The colour a glyph byte selects when used as a fill: hex digits
/// address the palette, every other byte reads as palette entry 15.
pub open spec fn spec_map_color2(b: u8) -> u32 {
    if GLYPH_A <= b <= GLYPH_F {
        spec_palette(b - GLYPH_A + 10)
    } else if GLYPH_0 <= b <= GLYPH_9 {
        spec_palette(b - GLYPH_0)
    } else {
        spec_palette(15)
    }
}

/// The colour value at a palette index.
pub fn palette(i: u8) -> (r: u32)
    ensures
        r == spec_palette(i as int),
{
    match i {
        1 => 0xffffff,
        2 => 0xff2121,
        3 => 0xff93c4,
        4 => 0xff8135,
        5 => 0xfff609,
        6 => 0x249ca3,
        7 => 0x78dc52,
        8 => 0x003fad,
        9 => 0x87f2ff,
        10 => 0x8e2ec4,
        11 => 0xa4839f,
        12 => 0x5c406c,
        13 => 0xe5cdc4,
        14 => 0x91463d,
        15 => 0x000000ff,
        _ => 0,
    }
}

/// Maps a glyph byte to its colour; unmapped glyphs are transparent.
pub fn map_color(idx: &u8) -> (r: u32)
    ensures
        r == spec_map_color(*idx),
{
    let b = *idx;
    if GLYPH_A <= b && b <= GLYPH_F {
        palette(b - GLYPH_A + 10)
    } else if GLYPH_0 <= b && b <= GLYPH_9 {
        palette(b - GLYPH_0)
    } else {
        0
    }
}

/// Maps a glyph byte to a fill colour; unmapped glyphs read as palette
/// entry 15.
pub fn map_color2(idx: u8) -> (r: u32)
    ensures
        r == spec_map_color2(idx),
{
    if GLYPH_A <= idx && idx <= GLYPH_F {
        palette(idx - GLYPH_A + 10)
    } else if GLYPH_0 <= idx && idx <= GLYPH_9 {
        palette(idx - GLYPH_0)
    } else {
        palette(15)
    }
}

} // verus!
