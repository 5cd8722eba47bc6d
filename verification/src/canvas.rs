//! The pixel grid: a `raster::Image` and what the renderer may assume of it.

use vstd::prelude::*;

verus! {

/// `raster::Image`, a grid of RGBA pixels stored row by row.
#[verifier::external_type_specification]
#[verifier::external_body]
pub struct ExImage(raster::Image);

/// `raster::error::RasterError`, the error of every fallible `raster` call.
#[verifier::external_type_specification]
#[verifier::external_body]
pub struct ExRasterError(raster::error::RasterError);

/// The field `bytes` of an image: four bytes per pixel, red, green, blue, alpha.
pub uninterp spec fn image_bytes(image: raster::Image) -> Seq<u8>;

/// The fields `width` and `height` of an image, in that order.
pub uninterp spec fn image_size(image: raster::Image) -> (i32, i32);

/// A dimension as the grid uses it: a negative one counts as zero.
pub open spec fn clamp_dim(d: i32) -> i32 {
    if d < 0 { 0i32 } else { d }
}

/// The number of bytes of a grid of the given dimensions.
pub open spec fn byte_count(width: i32, height: i32) -> int {
    4 * (clamp_dim(width) * clamp_dim(height))
}

/// Whether every byte index of a grid of these dimensions fits in `i32`,
/// the type in which `raster` computes them.
pub open spec fn grid_fits(width: i32, height: i32) -> bool {
    byte_count(width, height) <= i32::MAX
}

/// Tells whether a grid of these dimensions fits, without overflow for any
/// pair of dimensions.
pub fn fits(width: i32, height: i32) -> (ok: bool)
    ensures
        ok == grid_fits(width, height),
{
    let w: i64 = if width < 0 { 0 } else { width as i64 };
    let h: i64 = if height < 0 { 0 } else { height as i64 };
    assert(0 <= w * h <= 0x8000_0000 * 0x8000_0000) by (nonlinear_arith)
        requires
            0 <= w <= 0x8000_0000,
            0 <= h <= 0x8000_0000,
    ;
    w * h <= 0x1fff_ffff
}

/// The index of the first byte of pixel `(x, y)` in a grid `width` pixels wide.
pub open spec fn pixel_offset(width: int, x: int, y: int) -> int {
    4 * (y * width + x)
}

/// An image whose byte vector has the length its dimensions ask for.
pub open spec fn well_formed(image: raster::Image) -> bool {
    let (width, height) = image_size(image);
    &&& 0 <= width
    &&& 0 <= height
    &&& grid_fits(width, height)
    &&& image_bytes(image).len() == byte_count(width, height)
}

/// The four channels of pixel `(x, y)`.
pub open spec fn pixel_at(image: raster::Image, x: int, y: int) -> (u8, u8, u8, u8) {
    let at = pixel_offset(image_size(image).0 as int, x, y);
    let bytes = image_bytes(image);
    (bytes[at], bytes[at + 1], bytes[at + 2], bytes[at + 3])
}

/// The bytes of an all-black, opaque grid of `len / 4` pixels.
pub open spec fn blank_bytes(len: int) -> Seq<u8> {
    Seq::new(len as nat, |i: int| if i % 4 == 3 { 255u8 } else { 0u8 })
}

/// `bytes` with the four bytes from `at` on replaced by an opaque pixel of colour `rgb`.
pub open spec fn with_pixel(bytes: Seq<u8>, at: int, rgb: (u8, u8, u8)) -> Seq<u8> {
    bytes.update(at, rgb.0).update(at + 1, rgb.1).update(at + 2, rgb.2).update(at + 3, 255u8)
}

/// Calls `raster::Image::blank`. Trusted: the image has the dimensions asked
/// for and one black, opaque pixel for each position. The call computes
/// `width * height` in `i32` and allocates four times as many bytes, so the
/// dimensions must be non-negative and the grid must fit.
#[verifier::external_body]
pub(crate) fn blank(width: i32, height: i32) -> (image: raster::Image)
    requires
        0 <= width,
        0 <= height,
        grid_fits(width, height),
    ensures
        image_size(image) == (width, height),
        image_bytes(image) == blank_bytes(byte_count(width, height)),
{
    raster::Image::blank(width, height)
}

/// Calls `raster::Image::set_pixel` with the colour `raster::Color::rgb(r, g, b)`,
/// whose alpha is 255. Trusted: for a position inside a well-formed image the
/// call succeeds, overwrites the four bytes of that pixel and nothing else.
/// `raster` computes the byte index in `i32` before it looks at the bounds,
/// so positions outside the image are left out.
#[verifier::external_body]
pub(crate) fn set_pixel(image: &mut raster::Image, x: i32, y: i32, rgb: (u8, u8, u8)) -> (written:
    Result<(), raster::error::RasterError>)
    requires
        well_formed(*old(image)),
        0 <= x < image_size(*old(image)).0,
        0 <= y < image_size(*old(image)).1,
    ensures
        written is Ok,
        image_size(*final(image)) == image_size(*old(image)),
        image_bytes(*final(image)) == with_pixel(
            image_bytes(*old(image)),
            pixel_offset(image_size(*old(image)).0 as int, x as int, y as int),
            rgb,
        ),
{
    image.set_pixel(x, y, raster::Color::rgb(rgb.0, rgb.1, rgb.2))
}

} // verus!
