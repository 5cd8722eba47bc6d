use mandelbrot::color::{brightness, pixel_color, Sample, SATURATION};

#[test]
fn brightness_is_full_for_escaped() {
    assert_eq!(brightness(true), 255);
}

#[test]
fn brightness_is_zero_for_capped() {
    assert_eq!(brightness(false), 0);
}

#[test]
fn saturation_is_full() {
    assert_eq!(SATURATION, 255);
}

#[test]
fn capped_sample_is_black_for_every_hue() {
    for hue in [0u16, 1, 59, 60, 128, 255, 256, 359, 360, 1000, u16::MAX] {
        assert_eq!(pixel_color(Sample { hue, below_cap: false }), (0, 0, 0));
    }
}

#[test]
fn escaped_sample_primary_hues() {
    assert_eq!(pixel_color(Sample { hue: 0, below_cap: true }), (255, 0, 0));
    assert_eq!(pixel_color(Sample { hue: 60, below_cap: true }), (255, 255, 0));
    assert_eq!(pixel_color(Sample { hue: 120, below_cap: true }), (0, 255, 0));
    assert_eq!(pixel_color(Sample { hue: 180, below_cap: true }), (0, 255, 255));
    assert_eq!(pixel_color(Sample { hue: 240, below_cap: true }), (0, 0, 255));
}

#[test]
fn escaped_sample_at_top_of_hue_scale() {
    assert_eq!(pixel_color(Sample { hue: 255, below_cap: true }), (0, 0, 255));
}

#[test]
fn escaped_sample_matches_raster() {
    for hue in [0u16, 17, 42, 99, 150, 200, 255] {
        let expected = raster::Color::to_rgb(hue, 255.0, 255.0);
        assert_eq!(pixel_color(Sample { hue, below_cap: true }), expected);
    }
}

#[test]
fn escaped_sample_is_not_its_input() {
    let rgb = pixel_color(Sample { hue: 120, below_cap: true });
    assert_ne!(rgb, (120, 255, 255));
    assert_ne!(rgb, (0, 0, 0));
}

#[test]
fn samples_compare_by_fields() {
    let a = Sample { hue: 12, below_cap: true };
    assert_eq!(a, Sample { hue: 12, below_cap: true });
    assert_ne!(a, Sample { hue: 12, below_cap: false });
    assert_ne!(a, Sample { hue: 13, below_cap: true });
}
