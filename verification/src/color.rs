//! Colors: an RGBA value and the ANSI 16- and 256-color palettes.
use vstd::prelude::*;

verus! {

/// A color as red, green, blue and alpha channels.
#[derive(Clone, Copy, Debug, PartialEq, Eq, Structural)]
pub struct Rgba(pub u8, pub u8, pub u8, pub u8);

/// The 16-color ANSI palette (indices 0..=15); index 16 and above wrap to the last entry.
pub open spec fn spec_ansi16(i: u8) -> Rgba {
    if i == 0 { Rgba(30, 30, 30, 255) }
    else if i == 1 { Rgba(205, 49, 49, 255) }
    else if i == 2 { Rgba(13, 188, 121, 255) }
    else if i == 3 { Rgba(229, 229, 16, 255) }
    else if i == 4 { Rgba(36, 114, 200, 255) }
    else if i == 5 { Rgba(188, 63, 188, 255) }
    else if i == 6 { Rgba(17, 168, 205, 255) }
    else if i == 7 { Rgba(229, 229, 229, 255) }
    else if i == 8 { Rgba(102, 102, 102, 255) }
    else if i == 9 { Rgba(241, 76, 76, 255) }
    else if i == 10 { Rgba(35, 209, 139, 255) }
    else if i == 11 { Rgba(245, 245, 67, 255) }
    else if i == 12 { Rgba(59, 142, 234, 255) }
    else if i == 13 { Rgba(214, 112, 214, 255) }
    else if i == 14 { Rgba(41, 184, 219, 255) }
    else { Rgba(229, 229, 229, 255) }
}

/// Entry `i` of the 16-color ANSI palette.
pub fn ansi16(i: u8) -> (c: Rgba)
    requires
        i < 16,
    ensures
        c == spec_ansi16(i),
{
    match i {
        0 => Rgba(30, 30, 30, 255),
        1 => Rgba(205, 49, 49, 255),
        2 => Rgba(13, 188, 121, 255),
        3 => Rgba(229, 229, 16, 255),
        4 => Rgba(36, 114, 200, 255),
        5 => Rgba(188, 63, 188, 255),
        6 => Rgba(17, 168, 205, 255),
        7 => Rgba(229, 229, 229, 255),
        8 => Rgba(102, 102, 102, 255),
        9 => Rgba(241, 76, 76, 255),
        10 => Rgba(35, 209, 139, 255),
        11 => Rgba(245, 245, 67, 255),
        12 => Rgba(59, 142, 234, 255),
        13 => Rgba(214, 112, 214, 255),
        14 => Rgba(41, 184, 219, 255),
        _ => Rgba(229, 229, 229, 255),
    }
}

/// Intensity of one axis of the 6x6x6 color cube: 0 stays 0, level `v` is `55 + 40 v`.
pub open spec fn cube_level(v: int) -> int {
    if v == 0 { 0 } else { 55 + 40 * v }
}

/// Gray level of the 24-step ramp for codes 232..=255: `8 + 10 (n - 232)`, at most 255.
pub open spec fn gray_level(n: int) -> int {
    let v = 8 + (n - 232) * 10;
    if v < 255 { v } else { 255 }
}

/// The xterm 256-color palette.
pub open spec fn spec_ansi256(n: u8) -> Rgba {
    if n < 16 {
        spec_ansi16(n)
    } else if n >= 232 {
        let v = gray_level(n as int) as u8;
        Rgba(v, v, v, 255)
    } else {
        let i = n - 16;
        Rgba(
            cube_level(i / 36) as u8,
            cube_level((i % 36) / 6) as u8,
            cube_level(i % 6) as u8,
            255,
        )
    }
}

fn cube(v: u8) -> (r: u8)
    requires
        v < 6,
    ensures
        r as int == cube_level(v as int),
{
    if v == 0 { 0 } else { 55 + 40 * v }
}

/// Color `n` of the xterm 256-color palette: the 16 ANSI colors, the 6x6x6 cube, then the gray ramp.
pub fn ansi256_color(n: u8) -> (c: Rgba)
    ensures
        c == spec_ansi256(n),
{
    if n < 16 {
        return ansi16(n);
    }
    if n >= 232 {
        let w: u16 = 8 + (n - 232) as u16 * 10;
        let v: u8 = if w < 255 { w as u8 } else { 255 };
        return Rgba(v, v, v, 255);
    }
    let i = n - 16;
    let r = i / 36;
    let g = (i % 36) / 6;
    let b = i % 6;
    Rgba(cube(r), cube(g), cube(b), 255)
}

} // verus!
