//! The scanline renderer: fill a pixel region with the Mandelbrot colors.
//!
//! Every pixel of the region is mapped to its plane point, evaluated with
//! an iteration limit of 255, and written as one RGB triple: black where
//! the orbit never escaped, and otherwise a red channel that encodes the
//! escape speed with a green/blue horizontal gradient.

use vstd::prelude::*;
use crate::complex::Complex;
use crate::escape::{escape_spec, escape_time};
use crate::mapper::{pixel_to_point, point_re, point_im};

verus! {

/// The iteration limit the renderer uses for every pixel.
pub const ITERATION_LIMIT: u32 = 255;

/// Escape result of the pixel at `(col, row)` of a `pw` x `ph` grid over
/// the window `ul ..= lr`.
pub open spec fn pixel_escape(pw: int, ph: int, ul: Complex, lr: Complex, col: int, row: int) -> Option<nat> {
    escape_spec(
        point_re(pw, col, ul.re as int, lr.re as int),
        point_im(ph, row, ul.im as int, lr.im as int),
        ITERATION_LIMIT as nat,
    )
}

/// The RGB triple written for a pixel in column `col` whose escape result
/// is `esc`: black when the orbit stayed bounded, otherwise an inverted
/// escape count in red and a horizontal gradient in green and blue.
pub open spec fn escape_color(pw: int, col: int, esc: Option<nat>) -> (u8, u8, u8) {
    match esc {
        None => (0u8, 0u8, 0u8),
        Some(n) => (
            (255 - n) as u8,
            ((col * 255) / pw) as u8,
            (255 - (col * 255) / pw) as u8,
        ),
    }
}

/// The color of the pixel at `(col, row)` of a `pw` x `ph` grid over the
/// window `ul ..= lr`.
pub open spec fn color_at(pw: int, ph: int, ul: Complex, lr: Complex, col: int, row: int) -> (u8, u8, u8) {
    escape_color(pw, col, pixel_escape(pw, ph, ul, lr, col, row))
}

/// The three bytes of pixel `(col, row)` in the row-major buffer `buf`
/// hold exactly the color of that pixel.
pub open spec fn pixel_ok(buf: Seq<u8>, pw: int, ph: int, ul: Complex, lr: Complex, col: int, row: int) -> bool {
    let base = 3 * (row * pw + col);
    &&& buf[base] == color_at(pw, ph, ul, lr, col, row).0
    &&& buf[base + 1] == color_at(pw, ph, ul, lr, col, row).1
    &&& buf[base + 2] == color_at(pw, ph, ul, lr, col, row).2
}

/// The window is ordered and within the accepted plane region.
pub open spec fn window_ok(ul: Complex, lr: Complex) -> bool {
    &&& ul.in_range()
    &&& lr.in_range()
    &&& lr.re >= ul.re
    &&& ul.im >= lr.im
}

/// Row-major order: an earlier pixel has a smaller linear index.
pub(crate) proof fn lemma_pixel_index_mono(pw: int, c1: int, r1: int, c2: int, r2: int)
    requires
        0 <= c1 < pw,
        0 <= c2 < pw,
        0 <= r1,
        0 <= r2,
        r1 < r2 || (r1 == r2 && c1 < c2),
    ensures
        r1 * pw + c1 < r2 * pw + c2,
{
    assert(r1 * pw + c1 < r2 * pw + c2) by (nonlinear_arith)
        requires
            0 <= c1 < pw,
            0 <= c2 < pw,
            0 <= r1,
            0 <= r2,
            r1 < r2 || (r1 == r2 && c1 < c2);
}

/// Compute the color of one pixel: map it to the plane, evaluate its
/// escape time with the fixed iteration limit, and translate the result
/// into an RGB triple.
pub fn compute_pixel(
    pixel_width: usize,
    pixel_height: usize,
    col: usize,
    row: usize,
    upper_left: Complex,
    lower_right: Complex,
) -> (rgb: (u8, u8, u8))
    requires
        pixel_width > 0,
        pixel_height > 0,
        window_ok(upper_left, lower_right),
        col < pixel_width,
        row < pixel_height,
    ensures
        rgb == color_at(
            pixel_width as int,
            pixel_height as int,
            upper_left,
            lower_right,
            col as int,
            row as int,
        ),
{
    let point = pixel_to_point(
        pixel_width,
        pixel_height,
        (col, row),
        upper_left,
        lower_right,
    );
    match escape_time(point, ITERATION_LIMIT) {
        None => (0, 0, 0),
        Some(count) => {
            let g128: u128 = (col as u128) * 255 / (pixel_width as u128);
            proof {
                vstd::arithmetic::div_mod::lemma_multiply_divide_lt(
                    col as int * 255,
                    pixel_width as int,
                    255,
                );
                assert((col as int) * 255 < (pixel_width as int) * 255) by (nonlinear_arith)
                    requires 0 <= (col as int) && (col as int) < (pixel_width as int);
                vstd::arithmetic::div_mod::lemma_div_pos_is_pos(col as int * 255, pixel_width as int);
            }
            let g: u8 = g128 as u8;
            ((255 - count) as u8, g, 255 - g)
        },
    }
}

/// Render a fresh row-major RGB buffer for a `pixel_width` x
/// `pixel_height` grid over the window `upper_left ..= lower_right`:
/// every pixel of the result holds exactly its color.
pub fn render_region(
    pixel_width: usize,
    pixel_height: usize,
    upper_left: Complex,
    lower_right: Complex,
) -> (out: Vec<u8>)
    requires
        pixel_width > 0,
        pixel_height > 0,
        pixel_width * pixel_height * 3 <= usize::MAX,
        window_ok(upper_left, lower_right),
    ensures
        out@.len() == pixel_width * pixel_height * 3,
        forall|col: int, row: int|
            0 <= col < pixel_width && 0 <= row < pixel_height ==> #[trigger] pixel_ok(
                out@,
                pixel_width as int,
                pixel_height as int,
                upper_left,
                lower_right,
                col,
                row,
            ),
{
    let ghost pw: int = pixel_width as int;
    let ghost ph: int = pixel_height as int;
    let mut out: Vec<u8> = Vec::new();
    let mut row: usize = 0;
    while row < pixel_height
        invariant
            row <= pixel_height,
            pixel_width > 0,
            pixel_height > 0,
            pw == pixel_width as int,
            ph == pixel_height as int,
            pw * ph * 3 <= usize::MAX,
            window_ok(upper_left, lower_right),
            out@.len() == row * pw * 3,
            forall|c: int, r: int|
                0 <= c < pw && 0 <= r < row ==> #[trigger] pixel_ok(
                    out@,
                    pw,
                    ph,
                    upper_left,
                    lower_right,
                    c,
                    r,
                ),
        decreases pixel_height - row,
    {
        let mut col: usize = 0;
        proof {
            assert(row * pw * 3 + pw * 3 <= ph * pw * 3 && ph * pw * 3 == pw * ph * 3)
                by (nonlinear_arith)
                requires 0 <= row < ph && pw > 0;
        }
        while col < pixel_width
            invariant
                col <= pixel_width,
                row < pixel_height,
                pixel_width > 0,
                pixel_height > 0,
                pw == pixel_width as int,
                ph == pixel_height as int,
                pw * ph * 3 <= usize::MAX,
                row * pw * 3 + pw * 3 <= pw * ph * 3,
                window_ok(upper_left, lower_right),
                out@.len() == row * pw * 3 + col * 3,
                forall|c: int, r: int|
                    0 <= c < pw && 0 <= r < row ==> #[trigger] pixel_ok(
                        out@,
                        pw,
                        ph,
                        upper_left,
                        lower_right,
                        c,
                        r,
                    ),
                forall|c: int|
                    0 <= c < col ==> #[trigger] pixel_ok(
                        out@,
                        pw,
                        ph,
                        upper_left,
                        lower_right,
                        c,
                        row as int,
                    ),
            decreases pixel_width - col,
        {
            let ghost old_buf = out@;
            let rgb = compute_pixel(
                pixel_width,
                pixel_height,
                col,
                row,
                upper_left,
                lower_right,
            );
            out.push(rgb.0);
            out.push(rgb.1);
            out.push(rgb.2);
            proof {
                assert(3 * (row as int * pw + col as int) == row * pw * 3 + col * 3);
                assert(pixel_ok(out@, pw, ph, upper_left, lower_right, col as int, row as int));
                assert forall|c: int, r: int|
                    0 <= c < pw && 0 <= r < row implies #[trigger] pixel_ok(
                        out@,
                        pw,
                        ph,
                        upper_left,
                        lower_right,
                        c,
                        r,
                    ) by {
                    if 0 <= c < pw && 0 <= r < row {
                        lemma_pixel_index_mono(pw, c, r, col as int, row as int);
                        assert(pixel_ok(old_buf, pw, ph, upper_left, lower_right, c, r));
                    }
                }
                assert forall|c: int|
                    0 <= c < col + 1 implies #[trigger] pixel_ok(
                        out@,
                        pw,
                        ph,
                        upper_left,
                        lower_right,
                        c,
                        row as int,
                    ) by {
                    if 0 <= c < col as int {
                        lemma_pixel_index_mono(pw, c, row as int, col as int, row as int);
                        assert(pixel_ok(old_buf, pw, ph, upper_left, lower_right, c, row as int));
                    }
                }
            }
            col += 1;
        }
        proof {
            assert((row as int + 1) * pw * 3 == row * pw * 3 + pw * 3) by (nonlinear_arith);
        }
        row += 1;
    }
    proof {
        assert(pixel_height * pw * 3 == pw * ph * 3) by (nonlinear_arith)
            requires pw == pixel_width as int && ph == pixel_height as int;
    }
    out
}

/// Fill `pixels`, a row-major RGB buffer whose length must equal
/// `pixel_width * pixel_height * 3`, with the rendering of the window
/// `upper_left ..= lower_right`: afterwards every pixel holds exactly its
/// color.
pub fn render(
    pixels: &mut Vec<u8>,
    pixel_width: usize,
    pixel_height: usize,
    upper_left: Complex,
    lower_right: Complex,
)
    requires
        old(pixels)@.len() == pixel_width * pixel_height * 3,
        pixel_width > 0,
        pixel_height > 0,
        window_ok(upper_left, lower_right),
    ensures
        final(pixels)@.len() == pixel_width * pixel_height * 3,
        forall|col: int, row: int|
            0 <= col < pixel_width && 0 <= row < pixel_height ==> #[trigger] pixel_ok(
                final(pixels)@,
                pixel_width as int,
                pixel_height as int,
                upper_left,
                lower_right,
                col,
                row,
            ),
{
    proof {
        vstd::std_specs::vec::axiom_spec_len(&*pixels);
    }
    let out = render_region(pixel_width, pixel_height, upper_left, lower_right);
    *pixels = out;
}

} // verus!
