//! The driver: one sample, one colour and one write for every pixel.

use vstd::prelude::*;
use crate::canvas::{
    blank, byte_count, clamp_dim, grid_fits, image_bytes, image_size, pixel_at, pixel_offset,
    set_pixel, well_formed, with_pixel,
};
use crate::color::{color_of, pixel_color, Sample};

verus! {

/// A colour with full alpha, as it is stored in the grid.
pub open spec fn opaque(rgb: (u8, u8, u8)) -> (u8, u8, u8, u8) {
    (rgb.0, rgb.1, rgb.2, 255u8)
}

/// Whether pixel `(x, y)` holds the colour of a sample that `sample_at` may
/// return for that position.
pub open spec fn painted<F: Fn(i32, i32) -> Sample>(
    image: raster::Image,
    sample_at: F,
    x: i32,
    y: i32,
) -> bool {
    exists|sample: Sample|
        #![trigger call_ensures(sample_at, (x, y), sample)]
        call_ensures(sample_at, (x, y), sample) && pixel_at(image, x as int, y as int) == opaque(
            color_of(sample),
        )
}

/// Whether `image` is a complete rendering: it has the dimensions asked for,
/// negative ones taken as zero, exactly four bytes for each pixel, and every
/// pixel is painted.
pub open spec fn rendered<F: Fn(i32, i32) -> Sample>(
    image: raster::Image,
    width: i32,
    height: i32,
    sample_at: F,
) -> bool {
    &&& image_size(image) == (clamp_dim(width), clamp_dim(height))
    &&& image_bytes(image).len() == byte_count(width, height)
    &&& forall|x: i32, y: i32|
        0 <= x < width && 0 <= y < height ==> #[trigger] painted(image, sample_at, x, y)
}

/// The byte range of a pixel inside the grid lies inside the byte vector.
proof fn lemma_offset_in_range(w: int, h: int, x: int, y: int)
    requires
        0 <= x < w,
        0 <= y < h,
    ensures
        0 <= pixel_offset(w, x, y),
        pixel_offset(w, x, y) + 4 <= 4 * (w * h),
{
    assert(0 <= y * w && y * w + w <= w * h) by (nonlinear_arith)
        requires
            0 <= y < h,
            0 < w,
    ;
}

/// Two different pixels of the grid have byte ranges that do not overlap.
proof fn lemma_offsets_apart(w: int, x: int, y: int, px: int, py: int)
    requires
        0 <= x < w,
        0 <= px < w,
        0 <= y,
        0 <= py,
        (x, y) != (px, py),
    ensures
        pixel_offset(w, x, y) + 4 <= pixel_offset(w, px, py) || pixel_offset(w, px, py) + 4
            <= pixel_offset(w, x, y),
{
    if y < py {
        assert(y * w + w <= py * w) by (nonlinear_arith)
            requires
                y < py,
                0 < w,
        ;
    } else if py < y {
        assert(py * w + w <= y * w) by (nonlinear_arith)
            requires
                py < y,
                0 < w,
        ;
    }
}

/// Writing one pixel sets its four channels and leaves every other pixel as it was.
proof fn lemma_write_pixel(
    before: raster::Image,
    after: raster::Image,
    x: int,
    y: int,
    rgb: (u8, u8, u8),
    px: int,
    py: int,
)
    requires
        well_formed(before),
        image_size(after) == image_size(before),
        0 <= x < image_size(before).0,
        0 <= y < image_size(before).1,
        0 <= px < image_size(before).0,
        0 <= py < image_size(before).1,
        image_bytes(after) == with_pixel(
            image_bytes(before),
            pixel_offset(image_size(before).0 as int, x, y),
            rgb,
        ),
    ensures
        (px, py) == (x, y) ==> pixel_at(after, px, py) == opaque(rgb),
        (px, py) != (x, y) ==> pixel_at(after, px, py) == pixel_at(before, px, py),
{
    let w = image_size(before).0 as int;
    let h = image_size(before).1 as int;
    lemma_offset_in_range(w, h, x, y);
    lemma_offset_in_range(w, h, px, py);
    if (px, py) != (x, y) {
        lemma_offsets_apart(w, x, y, px, py);
    }
}

/// Renders a grid of `width` by `height` pixels: asks `sample_at` for the
/// sample of each position, maps it to a colour and writes that colour at
/// the position. A dimension that is zero or negative gives an image without
/// pixels. The positions are visited column by column.
pub fn draw_fractal<F: Fn(i32, i32) -> Sample>(width: i32, height: i32, sample_at: F) -> (canvas:
    raster::Image)
    requires
        grid_fits(width, height),
        forall|x: i32, y: i32|
            0 <= x < width && 0 <= y < height ==> call_requires(sample_at, (x, y)),
    ensures
        rendered(canvas, width, height, sample_at),
{
    let w: i32 = if width < 0 { 0 } else { width };
    let h: i32 = if height < 0 { 0 } else { height };
    let mut canvas = blank(w, h);
    let mut x: i32 = 0;
    while x < w
        invariant
            w == clamp_dim(width),
            h == clamp_dim(height),
            0 <= x <= w,
            forall|x: i32, y: i32|
                0 <= x < width && 0 <= y < height ==> call_requires(sample_at, (x, y)),
            well_formed(canvas),
            image_size(canvas) == (w, h),
            forall|px: i32, py: i32|
                0 <= px < x && 0 <= py < h ==> #[trigger] painted(canvas, sample_at, px, py),
        decreases w - x,
    {
        let mut y: i32 = 0;
        while y < h
            invariant
                w == clamp_dim(width),
                h == clamp_dim(height),
                0 <= x < w,
                0 <= y <= h,
                forall|x: i32, y: i32|
                    0 <= x < width && 0 <= y < height ==> call_requires(sample_at, (x, y)),
                well_formed(canvas),
                image_size(canvas) == (w, h),
                forall|px: i32, py: i32|
                    (0 <= px < x && 0 <= py < h) || (px == x && 0 <= py < y) ==> #[trigger] painted(
                        canvas,
                        sample_at,
                        px,
                        py,
                    ),
            decreases h - y,
        {
            let sample = sample_at(x, y);
            let rgb = pixel_color(sample);
            let ghost before = canvas;
            // The position lies inside the grid, so the write succeeds.
            let _ = set_pixel(&mut canvas, x, y, rgb);
            proof {
                lemma_offset_in_range(w as int, h as int, x as int, y as int);
                assert forall|px: i32, py: i32|
                    (0 <= px < x && 0 <= py < h) || (px == x && 0 <= py < y + 1) implies #[trigger] painted(
                    canvas,
                    sample_at,
                    px,
                    py,
                ) by {
                    lemma_write_pixel(before, canvas, x as int, y as int, rgb, px as int, py as int);
                    if px == x && py == y {
                        assert(call_ensures(sample_at, (px, py), sample));
                    } else {
                        assert(painted(before, sample_at, px, py));
                    }
                }
            }
            y = y + 1;
        }
        x = x + 1;
    }
    canvas
}

/// Whether `sample_at` returns at most one sample for each position.
pub open spec fn single_valued<F: Fn(i32, i32) -> Sample>(sample_at: F) -> bool {
    forall|x: i32, y: i32, a: Sample, b: Sample|
        #![trigger call_ensures(sample_at, (x, y), a), call_ensures(sample_at, (x, y), b)]
        call_ensures(sample_at, (x, y), a) && call_ensures(sample_at, (x, y), b) ==> a == b
}

/// Rendering is repeatable: where `sample_at` gives one sample for one
/// position, any two complete renderings of the same dimensions have the
/// same size and the same bytes.
pub proof fn lemma_render_is_unique<F: Fn(i32, i32) -> Sample>(
    first: raster::Image,
    second: raster::Image,
    width: i32,
    height: i32,
    sample_at: F,
)
    requires
        single_valued(sample_at),
        rendered(first, width, height, sample_at),
        rendered(second, width, height, sample_at),
    ensures
        image_size(first) == image_size(second),
        image_bytes(first) == image_bytes(second),
{
    let w = clamp_dim(width) as int;
    let h = clamp_dim(height) as int;
    assert forall|i: int| 0 <= i < byte_count(width, height) implies image_bytes(first)[i]
        == image_bytes(second)[i] by {
        let p = i / 4;
        let x = p % w;
        let y = p / w;
        assert(0 < w && 0 < h) by (nonlinear_arith)
            requires
                0 <= w,
                0 <= h,
                0 < 4 * (w * h),
        ;
        vstd::arithmetic::div_mod::lemma_fundamental_div_mod(p, w);
        assert(0 <= y < h) by (nonlinear_arith)
            requires
                p == w * y + x,
                0 <= x < w,
                0 <= p < w * h,
        ;
        assert(y * w + x == p) by (nonlinear_arith)
            requires
                p == w * y + x,
        ;
        assert(painted(first, sample_at, x as i32, y as i32));
        assert(painted(second, sample_at, x as i32, y as i32));
        assert(pixel_at(first, x, y) == pixel_at(second, x, y));
    }
    assert(image_bytes(first) =~= image_bytes(second));
}

/// A point taken to lie in the set is drawn black: in a complete rendering,
/// a pixel for which `sample_at` can only return samples at the cap is
/// black and opaque.
pub proof fn lemma_capped_pixel_is_black<F: Fn(i32, i32) -> Sample>(
    image: raster::Image,
    width: i32,
    height: i32,
    sample_at: F,
    x: i32,
    y: i32,
)
    requires
        rendered(image, width, height, sample_at),
        0 <= x < width,
        0 <= y < height,
        forall|sample: Sample| #[trigger]
            call_ensures(sample_at, (x, y), sample) ==> !sample.below_cap,
    ensures
        pixel_at(image, x as int, y as int) == (0u8, 0u8, 0u8, 255u8),
{
    assert(painted(image, sample_at, x, y));
}

} // verus!
