//! Colours of a panel with five bits of red, six of green and five of blue.

use vstd::prelude::*;

use embedded_graphics::pixelcolor::Rgb565;
use embedded_graphics::pixelcolor::RgbColor;

verus! {

/// A colour given by its three channels.
#[derive(Clone, Copy, Debug, PartialEq, Eq, Structural)]
pub struct Color {
    pub r: u8,
    pub g: u8,
    pub b: u8,
}

/// The colour that the panel shows for three requested channel values: each is
/// reduced to the bits that its channel has.
pub open spec fn rgb565(r: int, g: int, b: int) -> Color {
    Color { r: (r % 32) as u8, g: (g % 64) as u8, b: (b % 32) as u8 }
}

/// No light at all.
pub open spec fn black_color() -> Color {
    rgb565(0, 0, 0)
}

/// Every channel at its maximum.
pub open spec fn white_color() -> Color {
    rgb565(31, 63, 31)
}

/// Calls `Rgb565::new` of embedded-graphics and reads the three channels back
/// through its `RgbColor` accessors. Trusted: red and blue keep their low five
/// bits and green its low six, as that constructor documents ("too large channel
/// values will be limited by setting the unused most significant bits to zero").
#[verifier::external_body]
fn rgb565_channels(r: u8, g: u8, b: u8) -> (channels: (u8, u8, u8))
    ensures
        channels.0 == r % 32,
        channels.1 == g % 64,
        channels.2 == b % 32,
{
    let color = Rgb565::new(r, g, b);
    (color.r(), color.g(), color.b())
}

impl Color {
    /// Each channel lies in the range that the panel has for it.
    pub open spec fn wf(self) -> bool {
        self.r < 32 && self.g < 64 && self.b < 32
    }

    /// The panel colour for three channel values.
    pub fn new(r: u8, g: u8, b: u8) -> (color: Color)
        ensures
            color == rgb565(r as int, g as int, b as int),
            color.wf(),
    {
        let (red, green, blue): (u8, u8, u8) = rgb565_channels(r, g, b);
        Color { r: red, g: green, b: blue }
    }

    /// The background of both screens.
    pub fn black() -> (color: Color)
        ensures
            color == black_color(),
    {
        Color::new(0, 0, 0)
    }

    /// The colour of icons, titles and highlighted bars.
    pub fn white() -> (color: Color)
        ensures
            color == white_color(),
    {
        Color::new(31, 63, 31)
    }
}

/// How far a channel with maximum `top` has come after `pos` of the 23 steps of
/// a band.
pub open spec fn ramp(pos: int, top: int) -> int {
    pos * top / 23
}

/// The colour of a bar of height `val`. Heights run through five bands of 24, from
/// red over yellow, green, cyan and blue to magenta; in each band one channel
/// rises or falls while another stays at its maximum.
pub open spec fn bar_color(val: u8) -> Color {
    let v = if val == 0 {
        0
    } else {
        val - 1
    };
    if v < 24 {
        rgb565(31, ramp(v, 63), 0)
    } else if v < 48 {
        rgb565(31 - ramp(v - 24, 31), 63, 0)
    } else if v < 72 {
        rgb565(0, 63, ramp(v - 48, 31))
    } else if v < 96 {
        rgb565(0, 63 - ramp(v - 72, 63), 31)
    } else {
        rgb565(ramp(v - 96, 31), 0, 31)
    }
}

/// The colour of a bar of height `val`.
pub fn value_color(val: u8) -> (color: Color)
    ensures
        color == bar_color(val),
        color.wf(),
{
    let v: u8 = val.saturating_sub(1);
    match v {
        0..=23 => Color::new(31, (v as u16 * 63 / 23) as u8, 0),
        24..=47 => Color::new((31 - (v - 24) as u16 * 31 / 23) as u8, 63, 0),
        48..=71 => Color::new(0, 63, ((v - 48) as u16 * 31 / 23) as u8),
        72..=95 => Color::new(0, (63 - (v - 72) as u16 * 63 / 23) as u8, 31),
        _ => Color::new(((v - 96) as u16 * 31 / 23) as u8, 0, 31),
    }
}

/// A bar can always be told from the background and from a highlighted bar: no
/// height is painted black or white.
pub proof fn lemma_bar_color_stands_out(val: u8)
    ensures
        bar_color(val) != black_color(),
        bar_color(val) != white_color(),
{
}

/// Up to height 120, the end of the last band, no channel is asked for more than
/// it has: the colour holds the five ramps exactly, without reduction.
pub proof fn lemma_bar_color_in_bands(val: u8)
    requires
        1 <= val <= 120,
    ensures
        ({
            let v = val - 1;
            let c = bar_color(val);
            &&& v < 24 ==> c.r == 31 && c.g == ramp(v, 63) && c.b == 0
            &&& 24 <= v < 48 ==> c.r == 31 - ramp(v - 24, 31) && c.g == 63 && c.b == 0
            &&& 48 <= v < 72 ==> c.r == 0 && c.g == 63 && c.b == ramp(v - 48, 31)
            &&& 72 <= v < 96 ==> c.r == 0 && c.g == 63 - ramp(v - 72, 63) && c.b == 31
            &&& 96 <= v ==> c.r == ramp(v - 96, 31) && c.g == 0 && c.b == 31
        }),
{
}

} // verus!
