//! The coordinate mapper: pixel grid position to complex-plane point.
//!
//! Mapping is linear interpolation over the plane window, carried out in
//! fixed-point arithmetic.  A pixel column or row may equal the grid
//! width or height, so that the far corner of a sub-rectangle can be
//! computed.

use vstd::prelude::*;
use crate::complex::Complex;

verus! {

/// Real part of the plane point of pixel column `col` on a grid `pw`
/// pixels wide whose window spans `ul_re ..= lr_re`.
pub open spec fn point_re(pw: int, col: int, ul_re: int, lr_re: int) -> int {
    ul_re + (col * (lr_re - ul_re)) / pw
}

/// Imaginary part of the plane point of pixel row `row` on a grid `ph`
/// pixels high whose window spans `ul_im` down to `lr_im`.
pub open spec fn point_im(ph: int, row: int, ul_im: int, lr_im: int) -> int {
    ul_im - (row * (ul_im - lr_im)) / ph
}

/// Map a pixel position to the corresponding point of the complex plane,
/// by linear interpolation over the window `upper_left ..= lower_right`.
/// `target_pixel` is a `(column, row)` pair; either component may equal
/// the grid size, which yields the window's far edge.
pub fn pixel_to_point(
    pixel_width: usize,
    pixel_height: usize,
    target_pixel: (usize, usize),
    upper_left: Complex,
    lower_right: Complex,
) -> (r: Complex)
    requires
        pixel_width > 0,
        pixel_height > 0,
        upper_left.in_range(),
        lower_right.in_range(),
        lower_right.re >= upper_left.re,
        upper_left.im >= lower_right.im,
        target_pixel.0 <= pixel_width,
        target_pixel.1 <= pixel_height,
    ensures
        r.re as int == point_re(
            pixel_width as int,
            target_pixel.0 as int,
            upper_left.re as int,
            lower_right.re as int,
        ),
        r.im as int == point_im(
            pixel_height as int,
            target_pixel.1 as int,
            upper_left.im as int,
            lower_right.im as int,
        ),
        upper_left.re <= r.re <= lower_right.re,
        lower_right.im <= r.im <= upper_left.im,
        r.in_range(),
{
    let col = target_pixel.0;
    let row = target_pixel.1;
    let w: u128 = (lower_right.re - upper_left.re) as u128;
    let h: u128 = (upper_left.im - lower_right.im) as u128;
    proof {
        lemma_scaled_fraction_bounds(col as int, pixel_width as int, w as int);
        lemma_scaled_fraction_bounds(row as int, pixel_height as int, h as int);
    }
    let dre: u128 = (col as u128) * w / (pixel_width as u128);
    let dim: u128 = (row as u128) * h / (pixel_height as u128);
    let re: i64 = upper_left.re + (dre as i64);
    let im: i64 = upper_left.im - (dim as i64);
    Complex { re, im }
}

/// For `0 <= col <= pw` the interpolation offset `col * w / pw` lies in
/// `[0, w]`, and the product stays within `u128`.
proof fn lemma_scaled_fraction_bounds(col: int, pw: int, w: int)
    requires
        0 < pw <= 0xffffffffffffffff,
        0 <= col <= pw,
        0 <= w <= 0x20000000000,
    ensures
        col * w <= pw * w <= u128::MAX,
        0 <= (col * w) / pw <= w,
{
    assert(col * w <= pw * w && 0 <= col * w) by (nonlinear_arith)
        requires 0 <= col <= pw && 0 <= w;
    assert(pw * w <= u128::MAX) by (nonlinear_arith)
        requires 0 < pw <= 0xffffffffffffffff && 0 <= w <= 0x20000000000;
    vstd::arithmetic::div_mod::lemma_div_pos_is_pos(col * w, pw);
    vstd::arithmetic::div_mod::lemma_div_is_ordered(col * w, pw * w, pw);
    vstd::arithmetic::div_mod::lemma_div_multiples_vanish(w, pw);
    assert(pw * w == w * pw) by (nonlinear_arith);
}

/// The corners map back to the window: pixel `(0, 0)` yields the upper
/// left point and pixel `(pw, ph)` yields the lower right point.
pub proof fn lemma_corner_round_trip(pw: int, ph: int, ul_re: int, ul_im: int, lr_re: int, lr_im: int)
    requires
        pw > 0,
        ph > 0,
    ensures
        point_re(pw, 0, ul_re, lr_re) == ul_re,
        point_im(ph, 0, ul_im, lr_im) == ul_im,
        point_re(pw, pw, ul_re, lr_re) == lr_re,
        point_im(ph, ph, ul_im, lr_im) == lr_im,
{
    vstd::arithmetic::div_mod::lemma_div_of0(pw);
    vstd::arithmetic::div_mod::lemma_div_of0(ph);
    vstd::arithmetic::div_mod::lemma_div_multiples_vanish(lr_re - ul_re, pw);
    vstd::arithmetic::div_mod::lemma_div_multiples_vanish(ul_im - lr_im, ph);
}

/// Moving down the grid never moves the mapped point up the plane.
pub proof fn lemma_point_im_monotone(ph: int, row1: int, row2: int, ul_im: int, lr_im: int)
    requires
        ph > 0,
        0 <= row1 <= row2,
        ul_im >= lr_im,
    ensures
        point_im(ph, row1, ul_im, lr_im) >= point_im(ph, row2, ul_im, lr_im),
{
    assert(row1 * (ul_im - lr_im) <= row2 * (ul_im - lr_im)) by (nonlinear_arith)
        requires 0 <= row1 <= row2 && ul_im - lr_im >= 0;
    vstd::arithmetic::div_mod::lemma_div_is_ordered(
        row1 * (ul_im - lr_im),
        row2 * (ul_im - lr_im),
        ph,
    );
}

} // verus!
