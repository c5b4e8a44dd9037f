//! The band scheduler: partition the output into horizontal bands.
//!
//! The full pixel grid is cut into consecutive bands of
//! `pixel_height / threads + 1` rows (the last band shorter), each with
//! its own plane sub-window derived from the full window.  The partition
//! covers every row exactly once, which is what makes it safe to hand
//! each band to an independent worker.

use vstd::prelude::*;
use crate::complex::Complex;
use crate::escape::escape_spec;
use crate::mapper::{pixel_to_point, point_re, point_im, lemma_corner_round_trip, lemma_point_im_monotone};
use crate::render::{render_region, escape_color, pixel_escape, pixel_ok, window_ok, ITERATION_LIMIT};

verus! {

/// The fixed height of every band but the last, for a grid `ph` rows
/// high shared among `threads` workers.
pub open spec fn rows_per_band(ph: int, threads: int) -> int {
    ph / threads + 1
}

/// `plan` is a gapless run of bands: each entry `(top, height)` starts
/// where the previous one ended, heights are positive, and the run
/// starts at `start` and ends exactly at `ph`.
pub open spec fn band_chain(plan: Seq<(usize, usize)>, start: int, ph: int) -> bool
    decreases plan.len(),
{
    if plan.len() == 0 {
        start == ph
    } else {
        &&& plan[0].0 == start
        &&& plan[0].1 > 0
        &&& start + plan[0].1 <= ph
        &&& band_chain(plan.drop_first(), start + plan[0].1, ph)
    }
}

proof fn lemma_chain_push(plan: Seq<(usize, usize)>, start: int, mid: int, top: usize, h: usize)
    requires
        band_chain(plan, start, mid),
        top == mid,
        h > 0,
    ensures
        band_chain(plan.push((top, h)), start, mid + h),
    decreases plan.len(),
{
    if plan.len() == 0 {
        assert(plan.push((top, h))[0] == (top, h));
        assert(plan.push((top, h)).drop_first() =~= Seq::<(usize, usize)>::empty());
        assert(band_chain(Seq::<(usize, usize)>::empty(), mid + h, mid + h));
    } else {
        lemma_chain_push(plan.drop_first(), start + plan[0].1, mid, top, h);
        assert(plan.push((top, h))[0] == plan[0]);
        assert(plan.push((top, h)).drop_first() =~= plan.drop_first().push((top, h)));
    }
}

/// Every row of `[start, ph)` lies in exactly the returned band.
proof fn lemma_chain_find(plan: Seq<(usize, usize)>, start: int, ph: int, r: int) -> (i: int)
    requires
        band_chain(plan, start, ph),
        start <= r < ph,
    ensures
        0 <= i < plan.len(),
        plan[i].0 <= r < plan[i].0 + plan[i].1,
    decreases plan.len(),
{
    if r < start + plan[0].1 {
        0
    } else {
        let j = lemma_chain_find(plan.drop_first(), start + plan[0].1, ph, r);
        j + 1
    }
}

/// The bands of a chain sit in order: each ends no later than the next
/// begins, and all stay within `[start, ph)`.
proof fn lemma_chain_ordered(plan: Seq<(usize, usize)>, start: int, ph: int)
    requires
        band_chain(plan, start, ph),
    ensures
        forall|i: int| 0 <= i < plan.len() ==> start <= #[trigger] plan[i].0
            && plan[i].0 + plan[i].1 <= ph,
        forall|i: int, j: int| 0 <= i < j < plan.len() ==> #[trigger] plan[i].0 + plan[i].1
            <= #[trigger] plan[j].0,
    decreases plan.len(),
{
    if plan.len() > 0 {
        let rest = plan.drop_first();
        lemma_chain_ordered(rest, start + plan[0].1, ph);
        assert forall|i: int| 0 <= i < plan.len() implies start <= #[trigger] plan[i].0
            && plan[i].0 + plan[i].1 <= ph by {
            if i > 0 {
                assert(rest[i - 1] == plan[i]);
            }
        }
        assert forall|i: int, j: int| 0 <= i < j < plan.len() implies #[trigger] plan[i].0
            + plan[i].1 <= #[trigger] plan[j].0 by {
            assert(rest[j - 1] == plan[j]);
            if i > 0 {
                assert(rest[i - 1] == plan[i]);
            }
        }
    }
}

/// Row `r` lies in band `i` of the partition `plan`.
pub open spec fn in_band(plan: Seq<(usize, usize)>, i: int, r: int) -> bool {
    0 <= i < plan.len() && plan[i].0 <= r < plan[i].0 + plan[i].1
}

/// Some band of `plan` holds row `r`.
pub open spec fn covered(plan: Seq<(usize, usize)>, r: int) -> bool {
    exists|i: int| #[trigger] in_band(plan, i, r)
}

/// The band partition covers `[0, ph)` exactly: every row of the grid
/// lies in a band, no two bands share a row, and no band reaches outside
/// the grid.
pub proof fn lemma_bands_cover(plan: Seq<(usize, usize)>, ph: int)
    requires
        band_chain(plan, 0, ph),
    ensures
        forall|r: int| 0 <= r < ph ==> #[trigger] covered(plan, r),
        forall|i: int, j: int, r: int|
            #[trigger] in_band(plan, i, r) && #[trigger] in_band(plan, j, r) ==> i == j,
        forall|i: int, r: int| #[trigger] in_band(plan, i, r) ==> 0 <= r < ph,
{
    lemma_chain_ordered(plan, 0, ph);
    assert forall|r: int| 0 <= r < ph implies #[trigger] covered(plan, r) by {
        let i = lemma_chain_find(plan, 0, ph, r);
        assert(in_band(plan, i, r));
    }
    assert forall|i: int, j: int, r: int|
        #[trigger] in_band(plan, i, r) && #[trigger] in_band(plan, j, r) implies i == j by {
        if i < j {
            assert(plan[i].0 + plan[i].1 <= plan[j].0);
        } else if j < i {
            assert(plan[j].0 + plan[j].1 <= plan[i].0);
        }
    }
}

/// Compute the band partition of a grid `pixel_height` rows high for
/// `threads` workers: consecutive `(top, height)` bands of
/// `pixel_height / threads + 1` rows each, the last one shorter, covering
/// every row exactly once.
pub fn band_plan(pixel_height: usize, threads: usize) -> (plan: Vec<(usize, usize)>)
    requires
        threads > 0,
        pixel_height < usize::MAX,
    ensures
        band_chain(plan@, 0, pixel_height as int),
        forall|i: int| 0 <= i < plan@.len() ==> (#[trigger] plan@[i].0) == i * rows_per_band(
            pixel_height as int,
            threads as int,
        ),
        forall|i: int| 0 <= i < plan@.len() ==> (#[trigger] plan@[i].1) <= rows_per_band(
            pixel_height as int,
            threads as int,
        ),
{
    let rpb: usize = pixel_height / threads + 1;
    let ghost rpbi: int = rows_per_band(pixel_height as int, threads as int);
    let mut plan: Vec<(usize, usize)> = Vec::new();
    let mut top: usize = 0;
    while top < pixel_height
        invariant
            top <= pixel_height,
            rpb == rpbi,
            rpb > 0,
            band_chain(plan@, 0, top as int),
            top == plan@.len() * rpbi || (top == pixel_height && plan@.len() > 0),
            forall|i: int| 0 <= i < plan@.len() ==> (#[trigger] plan@[i].0) == i * rpbi,
            forall|i: int| 0 <= i < plan@.len() ==> (#[trigger] plan@[i].1) <= rpbi,
        decreases pixel_height - top,
    {
        let h: usize = if pixel_height - top < rpb {
            pixel_height - top
        } else {
            rpb
        };
        let ghost old_plan = plan@;
        proof {
            lemma_chain_push(plan@, 0, top as int, top, h);
        }
        plan.push((top, h));
        proof {
            assert(plan@.drop_last() =~= old_plan);
            assert((plan@.len() - 1) * rpbi == old_plan.len() * rpbi) by (nonlinear_arith)
                requires plan@.len() == old_plan.len() + 1;
            assert(plan@.len() * rpbi == old_plan.len() * rpbi + rpbi) by (nonlinear_arith)
                requires plan@.len() == old_plan.len() + 1;
            assert forall|i: int| 0 <= i < plan@.len() implies (#[trigger] plan@[i].0) == i
                * rpbi by {
                if i < plan@.len() - 1 {
                    assert(old_plan[i] == plan@[i]);
                }
            }
        }
        top = top + h;
    }
    plan
}

/// Escape result of pixel `(col, row)` as the band scheduler computes
/// it: the row's band gets its own sub-window, derived from the full
/// window by mapping the band's corner pixels, and the pixel is mapped
/// through that band window on the band-local grid.
pub open spec fn banded_escape(
    pw: int,
    ph: int,
    threads: int,
    ul: Complex,
    lr: Complex,
    col: int,
    row: int,
) -> Option<nat> {
    let rpb = rows_per_band(ph, threads);
    let top = (row / rpb) * rpb;
    let bh = if ph - top < rpb {
        ph - top
    } else {
        rpb
    };
    let bul_re = point_re(pw, 0, ul.re as int, lr.re as int);
    let bul_im = point_im(ph, top, ul.im as int, lr.im as int);
    let blr_re = point_re(pw, pw, ul.re as int, lr.re as int);
    let blr_im = point_im(ph, top + bh, ul.im as int, lr.im as int);
    escape_spec(
        point_re(pw, col, bul_re, blr_re),
        point_im(bh, row - top, bul_im, blr_im),
        ITERATION_LIMIT as nat,
    )
}

/// The three bytes of pixel `(col, row)` in `buf` hold exactly the color
/// the band scheduler computes for it.
pub open spec fn banded_pixel_ok(
    buf: Seq<u8>,
    pw: int,
    ph: int,
    threads: int,
    ul: Complex,
    lr: Complex,
    col: int,
    row: int,
) -> bool {
    let base = 3 * (row * pw + col);
    let rgb = escape_color(pw, col, banded_escape(pw, ph, threads, ul, lr, col, row));
    &&& buf[base] == rgb.0
    &&& buf[base + 1] == rgb.1
    &&& buf[base + 2] == rgb.2
}

/// With a single worker the band sub-window is the full window, so the
/// scheduler computes exactly what a direct rendering computes.
pub proof fn lemma_single_worker_matches(
    pw: int,
    ph: int,
    ul: Complex,
    lr: Complex,
    col: int,
    row: int,
)
    requires
        pw > 0,
        ph > 0,
        0 <= col < pw,
        0 <= row < ph,
        window_ok(ul, lr),
    ensures
        banded_escape(pw, ph, 1, ul, lr, col, row) == pixel_escape(pw, ph, ul, lr, col, row),
{
    let rpb = rows_per_band(ph, 1);
    vstd::arithmetic::div_mod::lemma_div_by_self(1);
    assert(rpb == ph + 1);
    assert(row / rpb == 0) by {
        vstd::arithmetic::div_mod::lemma_basic_div(row, rpb);
    }
    lemma_corner_round_trip(pw, ph, ul.re as int, ul.im as int, lr.re as int, lr.im as int);
}

/// Render the full grid the way the band scheduler does: cut the buffer
/// into bands, derive each band's sub-window from the full window, and
/// fill each band from its own window.  Afterwards every pixel holds
/// exactly the scheduler's color for it.
pub fn render_banded(
    pixels: &mut Vec<u8>,
    pixel_width: usize,
    pixel_height: usize,
    upper_left: Complex,
    lower_right: Complex,
    threads: usize,
)
    requires
        old(pixels)@.len() == pixel_width * pixel_height * 3,
        pixel_width > 0,
        pixel_height > 0,
        threads > 0,
        window_ok(upper_left, lower_right),
    ensures
        final(pixels)@.len() == pixel_width * pixel_height * 3,
        forall|col: int, row: int|
            0 <= col < pixel_width && 0 <= row < pixel_height ==> #[trigger] banded_pixel_ok(
                final(pixels)@,
                pixel_width as int,
                pixel_height as int,
                threads as int,
                upper_left,
                lower_right,
                col,
                row,
            ),
{
    let ghost pw: int = pixel_width as int;
    let ghost ph: int = pixel_height as int;
    let ghost t: int = threads as int;
    proof {
        vstd::std_specs::vec::axiom_spec_len(&*pixels);
        assert(ph * 3 <= pw * ph * 3) by (nonlinear_arith)
            requires pw >= 1 && ph >= 0;
    }
    let rpb: usize = pixel_height / threads + 1;
    let ghost rpbi: int = rows_per_band(ph, t);
    let mut out: Vec<u8> = Vec::new();
    let mut top: usize = 0;
    while top < pixel_height
        invariant
            top <= pixel_height,
            pixel_width > 0,
            pixel_height > 0,
            threads > 0,
            pw == pixel_width as int,
            ph == pixel_height as int,
            t == threads as int,
            rpb == rpbi,
            rpb > 0,
            rpbi == rows_per_band(ph, t),
            pw * ph * 3 <= usize::MAX,
            window_ok(upper_left, lower_right),
            out@.len() == top * pw * 3,
            top % rpb == 0 || top == pixel_height,
            forall|c: int, r: int|
                0 <= c < pw && 0 <= r < top ==> #[trigger] banded_pixel_ok(
                    out@,
                    pw,
                    ph,
                    t,
                    upper_left,
                    lower_right,
                    c,
                    r,
                ),
        decreases pixel_height - top,
    {
        let h: usize = if pixel_height - top < rpb {
            pixel_height - top
        } else {
            rpb
        };
        let band_upper_left = pixel_to_point(
            pixel_width,
            pixel_height,
            (0, top),
            upper_left,
            lower_right,
        );
        let band_lower_right = pixel_to_point(
            pixel_width,
            pixel_height,
            (pixel_width, top + h),
            upper_left,
            lower_right,
        );
        proof {
            lemma_corner_round_trip(
                pw,
                ph,
                upper_left.re as int,
                upper_left.im as int,
                lower_right.re as int,
                lower_right.im as int,
            );
            lemma_point_im_monotone(
                ph,
                top as int,
                top as int + h as int,
                upper_left.im as int,
                lower_right.im as int,
            );
            assert(h * pw * 3 <= ph * pw * 3 && ph * pw * 3 == pw * ph * 3
                && top * pw * 3 + h * pw * 3 <= ph * pw * 3) by (nonlinear_arith)
                requires 0 <= h as int, 0 <= top as int, top as int + h as int <= ph, pw > 0;
        }
        let ghost old_len = out@.len() as int;
        let ghost old_buf = out@;
        let ghost topi = top as int;
        let ghost hi = h as int;
        let mut band = render_region(pixel_width, h, band_upper_left, band_lower_right);
        let ghost band_buf = band@;
        proof {
            assert(out@.len() + band@.len() == (topi + hi) * pw * 3) by (nonlinear_arith)
                requires
                    out@.len() == topi * pw * 3,
                    band@.len() == pw * hi * 3;
        }
        out.append(&mut band);
        proof {
            assert(out@ == old_buf + band_buf);
            assert forall|c: int, r: int|
                0 <= c < pw && topi <= r < topi + hi implies #[trigger] banded_pixel_ok(
                    out@,
                    pw,
                    ph,
                    t,
                    upper_left,
                    lower_right,
                    c,
                    r,
                ) by {
                assert((r / rpbi) * rpbi == topi) by {
                    let k = topi / rpbi;
                    vstd::arithmetic::div_mod::lemma_fundamental_div_mod(topi, rpbi);
                    assert(topi == rpbi * k);
                    vstd::arithmetic::div_mod::lemma_div_multiples_vanish_fancy(
                        k,
                        r - topi,
                        rpbi,
                    );
                    assert(rpbi * k + (r - topi) == r);
                    assert(r / rpbi == k);
                    vstd::arithmetic::div_mod::lemma_div_multiples_vanish(k, rpbi);
                    assert(k * rpbi == rpbi * k) by (nonlinear_arith);
                }
                assert(pixel_ok(band_buf, pw, hi, band_upper_left, band_lower_right, c, r - topi));
                let base_local = 3 * ((r - topi) * pw + c);
                assert(base_local + old_len == 3 * (r * pw + c)) by (nonlinear_arith)
                    requires
                        base_local == 3 * ((r - topi) * pw + c),
                        old_len == topi * pw * 3;
                assert(0 <= base_local && base_local + 2 < pw * hi * 3) by (nonlinear_arith)
                    requires
                        base_local == 3 * ((r - topi) * pw + c),
                        0 <= c < pw,
                        0 <= r - topi < hi;
                assert(out@[base_local + old_len] == band_buf[base_local]);
                assert(out@[base_local + old_len + 1] == band_buf[base_local + 1]);
                assert(out@[base_local + old_len + 2] == band_buf[base_local + 2]);
            }
            assert forall|c: int, r: int|
                0 <= c < pw && 0 <= r < topi implies #[trigger] banded_pixel_ok(
                    out@,
                    pw,
                    ph,
                    t,
                    upper_left,
                    lower_right,
                    c,
                    r,
                ) by {
                assert(banded_pixel_ok(old_buf, pw, ph, t, upper_left, lower_right, c, r));
                crate::render::lemma_pixel_index_mono(pw, c, r, 0, topi);
                assert(3 * (r * pw + c) + 2 < 3 * (topi * pw)) by (nonlinear_arith)
                    requires r * pw + c < topi * pw;
                assert(3 * (topi * pw) == topi * pw * 3) by (nonlinear_arith);
            }
            assert((topi + hi) % rpbi == 0 || topi + hi == ph) by {
                if hi == rpbi {
                    vstd::arithmetic::div_mod::lemma_mod_add_multiples_vanish(topi, rpbi);
                }
            }
        }
        top = top + h;
    }
    proof {
        assert(top as int * pw * 3 == pw * ph * 3) by (nonlinear_arith)
            requires top as int == ph;
    }
    *pixels = out;
}

} // verus!
