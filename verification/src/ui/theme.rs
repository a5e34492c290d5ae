//! Colors of the interface.

use vstd::prelude::*;

verus! {

/// An RGB color.
#[derive(Debug, Clone, Copy, PartialEq, Eq)]
pub struct Color {
    pub r: u8,
    pub g: u8,
    pub b: u8,
}

impl Color {
    pub fn rgb(r: u8, g: u8, b: u8) -> (c: Self)
        ensures
            c == (Color { r, g, b }),
    {
        Color { r, g, b }
    }
}

/// Base colors for MIDI channels 0-7 (red, cyan, green, yellow, magenta,
/// blue, white, grey). Channels 8-15 reuse them.
pub open spec fn base_channel_color(i: int) -> Color {
    if i == 0 {
        Color { r: 0xEE, g: 0x22, b: 0x33 }
    } else if i == 1 {
        Color { r: 0x22, g: 0xCC, b: 0xCC }
    } else if i == 2 {
        Color { r: 0x22, g: 0xCC, b: 0x44 }
    } else if i == 3 {
        Color { r: 0xEE, g: 0xDD, b: 0x22 }
    } else if i == 4 {
        Color { r: 0xCC, g: 0x33, b: 0xCC }
    } else if i == 5 {
        Color { r: 0x55, g: 0x66, b: 0xFF }
    } else if i == 6 {
        Color { r: 0xEE, g: 0xEE, b: 0xEE }
    } else {
        Color { r: 0x99, g: 0x99, b: 0x99 }
    }
}

/// Returns a distinct color for each MIDI channel (0-15), cycling through 8 base hues.
pub fn channel_color(channel: u8) -> (c: Color)
    ensures
        c == base_channel_color((channel % 8) as int),
{
    let colors: [Color; 8] = [
        Color::rgb(0xEE, 0x22, 0x33),
        Color::rgb(0x22, 0xCC, 0xCC),
        Color::rgb(0x22, 0xCC, 0x44),
        Color::rgb(0xEE, 0xDD, 0x22),
        Color::rgb(0xCC, 0x33, 0xCC),
        Color::rgb(0x55, 0x66, 0xFF),
        Color::rgb(0xEE, 0xEE, 0xEE),
        Color::rgb(0x99, 0x99, 0x99),
    ];
    colors[(channel % 8) as usize]
}

} // verus!
