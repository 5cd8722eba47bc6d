use mandelbrot::escape::{mandlebrot, Escape};
use num::complex::Complex;

fn classify(c: Complex<f64>, max_iter: u64) -> Escape<Complex<f64>> {
    mandlebrot(
        Complex::new(0.0, 0.0),
        |z: Complex<f64>| z * z + c,
        |z: &Complex<f64>| z.norm_sqr().sqrt() < 2.0,
        max_iter,
    )
}

#[test]
fn origin_is_capped_for_every_cap() {
    for max_iter in [1u64, 2, 15, 1000] {
        assert!(matches!(classify(Complex::new(0.0, 0.0), max_iter), Escape::Capped));
    }
}

#[test]
fn far_point_escapes_after_one_step() {
    let c = Complex::new(10.0, 10.0);
    match classify(c, 15) {
        Escape::Escaped { iterations, point } => {
            assert_eq!(iterations, 1);
            assert_eq!(point, c);
        }
        Escape::Capped => panic!("a point far outside must escape"),
    }
}

#[test]
fn far_point_smoothed_value() {
    let c = Complex::new(10.0, 10.0);
    match classify(c, 15) {
        Escape::Escaped { iterations, point } => {
            let smoothed = iterations as f64 + 1.0 - point.norm_sqr().sqrt().ln().log2();
            let expected = 2.0 - (200.0f64).sqrt().ln().log2();
            assert_eq!(smoothed, expected);
            assert!(smoothed > 0.5 && smoothed < 0.6);
        }
        Escape::Capped => panic!("a point far outside must escape"),
    }
}

#[test]
fn periodic_orbit_is_capped() {
    assert!(matches!(classify(Complex::new(-1.0, 0.0), 500), Escape::Capped));
}

#[test]
fn one_escapes_after_two_steps() {
    match classify(Complex::new(1.0, 0.0), 15) {
        Escape::Escaped { iterations, point } => {
            assert_eq!(iterations, 2);
            assert_eq!(point, Complex::new(2.0, 0.0));
        }
        Escape::Capped => panic!("the orbit of 1 leaves the disc"),
    }
}

#[test]
fn escape_on_the_last_step_is_an_escape() {
    match classify(Complex::new(1.0, 0.0), 2) {
        Escape::Escaped { iterations, point } => {
            assert_eq!(iterations, 2);
            assert_eq!(point, Complex::new(2.0, 0.0));
        }
        Escape::Capped => panic!("the orbit of 1 leaves on its second step"),
    }
    assert!(matches!(classify(Complex::new(1.0, 0.0), 3), Escape::Escaped { iterations: 2, .. }));
    assert!(matches!(classify(Complex::new(1.0, 0.0), 1), Escape::Capped));
}

#[test]
fn far_point_escapes_at_a_cap_of_one() {
    let c = Complex::new(10.0, 10.0);
    match classify(c, 1) {
        Escape::Escaped { iterations, point } => {
            assert_eq!(iterations, 1);
            assert_eq!(point, c);
            let smoothed = iterations as f64 + 1.0 - point.norm_sqr().sqrt().ln().log2();
            assert!((smoothed - 0.59447).abs() < 0.0001);
            assert!(smoothed < 1.0);
        }
        Escape::Capped => panic!("the orbit left on its first step"),
    }
}

#[test]
fn zero_cap_tests_the_origin_alone() {
    assert!(matches!(classify(Complex::new(10.0, 10.0), 0), Escape::Capped));
    let out = mandlebrot(7u32, |z: u32| z + 1, |z: &u32| *z < 5, 0);
    assert!(matches!(out, Escape::Escaped { iterations: 0, point: 7 }));
}

#[test]
fn origin_outside_escapes_without_a_step() {
    let out = mandlebrot(7u32, |z: u32| z + 1, |z: &u32| *z < 5, 10);
    assert!(matches!(out, Escape::Escaped { iterations: 0, point: 7 }));
}

#[test]
fn integer_orbit_counts_steps() {
    let out = mandlebrot(0u32, |z: u32| z + 3, |z: &u32| *z < 10, 100);
    assert!(matches!(out, Escape::Escaped { iterations: 4, point: 12 }));
    let at_cap = mandlebrot(0u32, |z: u32| z + 3, |z: &u32| *z < 10, 4);
    assert!(matches!(at_cap, Escape::Escaped { iterations: 4, point: 12 }));
    let capped = mandlebrot(0u32, |z: u32| z + 3, |z: &u32| *z < 10, 3);
    assert!(matches!(capped, Escape::Capped));
}

#[test]
fn classification_is_repeatable() {
    for (re, im) in [(0.0, 0.0), (-0.75, 0.1), (0.3, 0.5), (-1.5, -0.5), (10.0, 10.0)] {
        let c = Complex::new(re, im);
        let first = classify(c, 50);
        let second = classify(c, 50);
        match (first, second) {
            (Escape::Capped, Escape::Capped) => {}
            (
                Escape::Escaped { iterations: n, point: p },
                Escape::Escaped { iterations: m, point: q },
            ) => {
                assert_eq!(n, m);
                assert_eq!(p, q);
            }
            _ => panic!("two runs disagree"),
        }
    }
}

#[test]
fn every_point_up_to_the_cap_is_tested_once() {
    let calls = std::cell::Cell::new(0u32);
    let out = mandlebrot(
        0u32,
        |z: u32| z,
        |_z: &u32| {
            calls.set(calls.get() + 1);
            true
        },
        6,
    );
    assert!(matches!(out, Escape::Capped));
    assert_eq!(calls.get(), 7);
}
