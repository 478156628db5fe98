//! 8-bit RGB colors and their packed 24-bit form.

use vstd::prelude::*;
use crate::fixed::{ONE, div_floor, clamp, floor_div};
use crate::vector::Vec3;

verus! {

/// An RGB color with 8-bit channels.
#[derive(Clone, Copy, Debug, PartialEq, Eq, Structural)]
pub struct Color {
    pub r: u8,
    pub g: u8,
    pub b: u8,
}

/// The packed `0xRRGGBB` value of three channels.
pub open spec fn hex_of(r: int, g: int, b: int) -> int {
    r * 65536 + g * 256 + b
}

/// The 8-bit channel for a fixed-point intensity, where `ONE` is full
/// intensity: scaled by 255, rounded down and clamped to `[0, 255]`.
pub open spec fn channel_of(v: int) -> int {
    clamp(div_floor(v * 255, ONE as int), 0, 255)
}

impl Color {
    pub fn new(r: u8, g: u8, b: u8) -> (c: Color)
        ensures
            c == (Color { r, g, b }),
    {
        Color { r, g, b }
    }

    pub fn black() -> (c: Color)
        ensures
            c == (Color { r: 0, g: 0, b: 0 }),
    {
        Color { r: 0, g: 0, b: 0 }
    }

    /// The color packed as `0xRRGGBB`.
    pub fn to_hex(&self) -> (h: u32)
        ensures
            h == hex_of(self.r as int, self.g as int, self.b as int),
    {
        (self.r as u32) * 65536 + (self.g as u32) * 256 + (self.b as u32)
    }

    /// The color whose packed form is the low 24 bits of `h`.
    pub fn from_hex(h: u32) -> (c: Color)
        ensures
            c.r == (h / 65536) % 256,
            c.g == (h / 256) % 256,
            c.b == h % 256,
    {
        Color { r: ((h / 65536) % 256) as u8, g: ((h / 256) % 256) as u8, b: (h % 256) as u8 }
    }

    /// The 8-bit color of a fixed-point linear RGB triple.
    pub fn from_intensity(rgb: Vec3) -> (c: Color)
        ensures
            c.r == channel_of(rgb.x as int),
            c.g == channel_of(rgb.y as int),
            c.b == channel_of(rgb.z as int),
    {
        Color { r: to_channel(rgb.x), g: to_channel(rgb.y), b: to_channel(rgb.z) }
    }
}

fn to_channel(v: i32) -> (c: u8)
    ensures
        c == channel_of(v as int),
{
    let scaled = floor_div(v as i128 * 255, ONE as i128);
    if scaled < 0 {
        0
    } else if scaled > 255 {
        255
    } else {
        scaled as u8
    }
}

} // verus!
