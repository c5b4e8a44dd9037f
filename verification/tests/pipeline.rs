use mandelbrot::bands::{band_plan, render_banded};
use mandelbrot::complex::{Complex, SCALE};
use mandelbrot::escape::escape_time;
use mandelbrot::encode::{encode_image, EncodeError};
use mandelbrot::mapper::pixel_to_point;
use mandelbrot::render::render;

#[test]
fn test_pixel_to_point() {
    assert_eq!(
        pixel_to_point(
            100,
            100,
            (25, 75),
            Complex { re: -SCALE, im: SCALE },
            Complex { re: SCALE, im: -SCALE },
        ),
        Complex { re: -SCALE / 2, im: -SCALE / 2 },
    );
}

#[test]
fn test_pixel_to_point_corners() {
    let ul = Complex { re: -3 * SCALE, im: 2 * SCALE };
    let lr = Complex { re: SCALE, im: -SCALE };
    assert_eq!(pixel_to_point(640, 480, (0, 0), ul, lr), ul);
    assert_eq!(pixel_to_point(640, 480, (640, 480), ul, lr), lr);
}

#[test]
fn test_escape_outside_disk() {
    assert_eq!(escape_time(Complex { re: 3 * SCALE, im: 0 }, 255), Some(0));
    assert_eq!(escape_time(Complex { re: 0, im: -3 * SCALE }, 255), Some(0));
}

#[test]
fn test_escape_origin_never() {
    assert_eq!(escape_time(Complex { re: 0, im: 0 }, 1), None);
    assert_eq!(escape_time(Complex { re: 0, im: 0 }, 255), None);
    assert_eq!(escape_time(Complex { re: 0, im: 0 }, 10000), None);
}

#[test]
fn test_escape_limit_monotone() {
    // 0.5 + 0.5i escapes at iteration 4; a larger limit keeps that
    // result, a smaller one reports no escape.
    let c = Complex { re: SCALE / 2, im: SCALE / 2 };
    assert_eq!(escape_time(c, 255), Some(4));
    assert_eq!(escape_time(c, 5), Some(4));
    assert_eq!(escape_time(c, 10), Some(4));
    assert_eq!(escape_time(c, 4), None);
    assert_eq!(escape_time(c, 1), None);
}

#[test]
fn test_render_colors() {
    // A window entirely outside the disk of radius 2: every pixel
    // escapes at iteration 0, so red is 255 and green/blue follow the
    // horizontal gradient.
    let ul = Complex { re: 3 * SCALE, im: 0 };
    let lr = Complex { re: 4 * SCALE, im: -SCALE };
    let mut pixels: Vec<u8> = vec![0; 6];
    render(&mut pixels, 2, 1, ul, lr);
    assert_eq!(pixels, vec![255, 0, 255, 255, 127, 128]);
}

#[test]
fn test_render_black_pixel() {
    // The window corner at the origin never escapes: a black pixel.
    let ul = Complex { re: 0, im: 0 };
    let lr = Complex { re: SCALE, im: -SCALE };
    let mut pixels: Vec<u8> = vec![7; 3];
    render(&mut pixels, 1, 1, ul, lr);
    assert_eq!(pixels, vec![0, 0, 0]);
}

#[test]
fn test_band_plan_uneven() {
    // 7 rows over 3 workers: bands of 3 rows, the last shorter.
    let plan = band_plan(7, 3);
    assert_eq!(plan, vec![(0, 3), (3, 3), (6, 1)]);
}

#[test]
fn test_band_plan_covers() {
    for &(ph, threads) in &[(100usize, 12usize), (1, 12), (12, 12), (97, 4), (5, 1)] {
        let plan = band_plan(ph, threads);
        let mut next: usize = 0;
        for &(top, h) in plan.iter() {
            assert_eq!(top, next);
            assert!(h > 0);
            next = top + h;
        }
        assert_eq!(next, ph);
    }
}

#[test]
fn test_single_worker_matches_direct() {
    // With one worker the band sub-window is the full window, so the
    // banded rendering of the 100 x 100 grid over (-1, 1) .. (1, -1) is
    // byte-identical to the direct rendering.
    let ul = Complex { re: -SCALE, im: SCALE };
    let lr = Complex { re: SCALE, im: -SCALE };
    let mut full: Vec<u8> = vec![0; 100 * 100 * 3];
    render(&mut full, 100, 100, ul, lr);
    let mut one: Vec<u8> = vec![0; 100 * 100 * 3];
    render_banded(&mut one, 100, 100, ul, lr, 1);
    assert_eq!(full, one);
}

#[test]
fn test_many_workers_same_gradient() {
    // Deriving a band sub-window rounds the plane coordinate by up to
    // one fixed-point tick, so with twelve workers a red channel can
    // shift where an escape boundary crosses a pixel; the green and
    // blue channels depend on the column alone and stay identical.
    let ul = Complex { re: -SCALE, im: SCALE };
    let lr = Complex { re: SCALE, im: -SCALE };
    let mut full: Vec<u8> = vec![0; 100 * 100 * 3];
    render(&mut full, 100, 100, ul, lr);
    let mut many: Vec<u8> = vec![0; 100 * 100 * 3];
    render_banded(&mut many, 100, 100, ul, lr, 12);
    assert_eq!(full.len(), many.len());
    for i in 0..(100 * 100) {
        assert_eq!(full[3 * i + 1], many[3 * i + 1]);
        assert_eq!(full[3 * i + 2], many[3 * i + 2]);
    }
}

#[test]
fn test_encode_image_is_png() {
    let pixels: Vec<u8> = vec![255, 0, 255, 255, 127, 128];
    let bytes = encode_image(&pixels, 2, 1).expect("encoding failed");
    assert!(bytes.len() > 8);
    assert_eq!(&bytes[0..8], &[137, 80, 78, 71, 13, 10, 26, 10]);
    assert_ne!(bytes, pixels);
}

#[test]
fn test_encode_image_zero_dimension_fails() {
    let pixels: Vec<u8> = vec![];
    assert_eq!(encode_image(&pixels, 0, 0), Err(EncodeError::Encoding));
    assert_eq!(encode_image(&pixels, 4, 0), Err(EncodeError::Encoding));
    assert_eq!(encode_image(&pixels, 0, 7), Err(EncodeError::Encoding));
}
