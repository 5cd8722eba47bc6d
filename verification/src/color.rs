//! From an escape measure to a colour.

use vstd::prelude::*;

verus! {

/// What the colour of one pixel is made from.
#[derive(Clone, Copy, Debug, PartialEq, Eq, Structural)]
pub struct Sample {
    /// The hue, on a scale on which the iteration cap is 255.
    pub hue: u16,
    /// Whether the escape measure lies below the iteration cap.
    pub below_cap: bool,
}

/// Every pixel is drawn at full saturation.
pub const SATURATION: u8 = 255;

/// The brightness of a pixel: full below the iteration cap, none at the cap.
pub open spec fn brightness_of(below_cap: bool) -> u8 {
    if below_cap { 255u8 } else { 0u8 }
}

/// What `raster::Color::to_rgb` makes of a hue, a saturation and a brightness.
pub uninterp spec fn hsv_rgb(hue: u16, saturation: u8, value: u8) -> (u8, u8, u8);

/// The colour of a sample: black at the iteration cap, else the fully
/// saturated, fully bright colour of its hue.
pub open spec fn color_of(sample: Sample) -> (u8, u8, u8) {
    if sample.below_cap {
        hsv_rgb(sample.hue, SATURATION, 255u8)
    } else {
        (0u8, 0u8, 0u8)
    }
}

/// Calls `raster::Color::to_rgb`, which takes saturation and brightness as
/// floating-point numbers; both are converted exactly. Trusted: the result
/// depends on the three arguments alone, and a brightness of zero gives
/// black, since every channel is then a sum of products with zero.
#[verifier::external_body]
fn hsv_to_rgb(hue: u16, saturation: u8, value: u8) -> (rgb: (u8, u8, u8))
    ensures
        rgb == hsv_rgb(hue, saturation, value),
        value == 0 ==> rgb == (0u8, 0u8, 0u8),
{
    raster::Color::to_rgb(hue, saturation.into(), value.into())
}

/// The brightness channel for a sample.
pub fn brightness(below_cap: bool) -> (value: u8)
    ensures
        value == brightness_of(below_cap),
        below_cap ==> value == 255,
        !below_cap ==> value == 0,
{
    if below_cap { 255 } else { 0 }
}

/// Maps a sample to its red, green and blue channels: the hue as given, full
/// saturation, and full brightness exactly where the escape measure lies
/// below the cap. A sample at the cap is black whatever its hue.
pub fn pixel_color(sample: Sample) -> (rgb: (u8, u8, u8))
    ensures
        rgb == color_of(sample),
        !sample.below_cap ==> rgb == (0u8, 0u8, 0u8),
{
    hsv_to_rgb(sample.hue, SATURATION, brightness(sample.below_cap))
}

} // verus!
