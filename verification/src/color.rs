//! Colors with 16-bit channels, and their conversion to and from 8-bit samples.

use vstd::prelude::*;

verus! {

/// The largest channel intensity; it stands for full brightness, 1.0.
pub const CHANNEL_MAX: u16 = 65535;

/// The color of a pixel or of a centroid: three channel intensities, each a
/// fixed-point number in which `0` stands for 0.0 and [`CHANNEL_MAX`] for 1.0.
#[derive(Clone, Copy, Debug, PartialEq, Eq, Structural)]
pub struct Color {
    pub r: u16,
    pub g: u16,
    pub b: u16,
}

/// The channel intensity that an 8-bit sample stands for: `v / 255` of full
/// brightness, which is `257 * v` exactly.
pub open spec fn widen(v: u8) -> u16 {
    (257 * v) as u16
}

/// The 8-bit sample nearest to a channel intensity: `c * 255 / 65535`, rounded
/// to the nearest integer.
pub open spec fn quantize(c: u16) -> u8 {
    ((c + 128) / 257) as u8
}

/// Converts an 8-bit sample to a channel intensity.
pub fn channel_from_u8(v: u8) -> (c: u16)
    ensures
        c == widen(v),
        c == 257 * v,
{
    let wide: u16 = v as u16;
    wide * 257
}

/// Converts a channel intensity to the nearest 8-bit sample.
pub fn channel_to_u8(c: u16) -> (v: u8)
    ensures
        v == quantize(c),
        257 * v - 128 <= c <= 257 * v + 128,
{
    let wide: u32 = (c as u32 + 128) / 257;
    wide as u8
}

impl Color {
    /// A color from its three channel intensities.
    pub fn new(r: u16, g: u16, b: u16) -> (p: Color)
        ensures
            p == (Color { r, g, b }),
    {
        Color { r, g, b }
    }

    /// A color from 8-bit samples.
    pub fn from_rgb8(r: u8, g: u8, b: u8) -> (p: Color)
        ensures
            p == (Color { r: widen(r), g: widen(g), b: widen(b) }),
    {
        Color { r: channel_from_u8(r), g: channel_from_u8(g), b: channel_from_u8(b) }
    }

    /// The 8-bit color nearest to this one, channel by channel.
    pub open spec fn rgb8(self) -> (u8, u8, u8) {
        (quantize(self.r), quantize(self.g), quantize(self.b))
    }

    /// The 8-bit color nearest to this one, channel by channel.
    pub fn to_rgb8(&self) -> (rgb: (u8, u8, u8))
        ensures
            rgb == self.rgb8(),
    {
        (channel_to_u8(self.r), channel_to_u8(self.g), channel_to_u8(self.b))
    }
}

/// Widening an 8-bit sample and quantizing it again gives the sample back.
pub proof fn lemma_quantize_widen(v: u8)
    ensures
        quantize(widen(v)) == v,
{
}

/// Quantizing never moves a channel by more than half an 8-bit step, and
/// keeps the order of intensities.
pub proof fn lemma_quantize_nearest(c: u16, d: u16)
    ensures
        257 * quantize(c) - 128 <= c <= 257 * quantize(c) + 128,
        c <= d ==> quantize(c) <= quantize(d),
{
}

} // verus!
