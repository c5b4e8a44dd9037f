//! Escape-time evaluation of the Mandelbrot iteration.
//!
//! The orbit `z_0 = 0`, `z_{n+1} = z_n^2 + c` is modelled exactly over the
//! fixed-point plane: squaring rescales by `SCALE` with truncation toward
//! zero.  A point escapes at the first step whose squared magnitude
//! exceeds 4 (the standard divergence bound), i.e. `THRESHOLD` in squared
//! fixed-point ticks.

use vstd::prelude::*;
use crate::complex::{Complex, SCALE, COORD_MAX, tdiv, div_scale};

verus! {

/// Squared magnitude 4, in squared fixed-point ticks: `4 * SCALE * SCALE`.
pub const THRESHOLD: i128 = 73786976294838206464;

/// Squared magnitude of a fixed-point complex value, in squared ticks.
pub open spec fn norm_sqr(zr: int, zi: int) -> int {
    zr * zr + zi * zi
}

/// Real part of `z^2 + c` in fixed-point arithmetic.
pub open spec fn step_re(zr: int, zi: int, cr: int) -> int {
    tdiv(zr * zr - zi * zi, SCALE as int) + cr
}

/// Imaginary part of `z^2 + c` in fixed-point arithmetic.
pub open spec fn step_im(zr: int, zi: int, ci: int) -> int {
    tdiv(2 * zr * zi, SCALE as int) + ci
}

/// The orbit of `c`: the value of `z_n` under `z_0 = 0`, `z_{n+1} = z_n^2 + c`.
pub open spec fn orbit(cr: int, ci: int, n: nat) -> (int, int)
    decreases n,
{
    if n == 0 {
        (0int, 0int)
    } else {
        let prev = orbit(cr, ci, (n - 1) as nat);
        (step_re(prev.0, prev.1, cr), step_im(prev.0, prev.1, ci))
    }
}

/// The first index `j` in `[i, limit)` whose orbit value `z_{j+1}` exceeds
/// the escape threshold, if any.
pub open spec fn escape_from(cr: int, ci: int, i: nat, limit: nat) -> Option<nat>
    decreases limit - i,
{
    if i >= limit {
        None
    } else if norm_sqr(orbit(cr, ci, i + 1).0, orbit(cr, ci, i + 1).1) > THRESHOLD {
        Some(i)
    } else {
        escape_from(cr, ci, i + 1, limit)
    }
}

/// What the escape-time evaluator returns: the first iteration at which
/// the orbit of `c` leaves the disk of radius 2, or `None` within `limit`.
pub open spec fn escape_spec(cr: int, ci: int, limit: nat) -> Option<nat> {
    escape_from(cr, ci, 0, limit)
}

/// A squared magnitude within the threshold bounds both coordinates by
/// `2 * SCALE`.
proof fn lemma_norm_bounds(zr: int, zi: int)
    requires
        norm_sqr(zr, zi) <= THRESHOLD,
    ensures
        -2 * (SCALE as int) <= zr <= 2 * (SCALE as int),
        -2 * (SCALE as int) <= zi <= 2 * (SCALE as int),
{
    assert(zr * zr + zi * zi <= 4 * (SCALE as int) * (SCALE as int)
        ==> -2 * (SCALE as int) <= zr <= 2 * (SCALE as int)
            && -2 * (SCALE as int) <= zi <= 2 * (SCALE as int)) by (nonlinear_arith);
}

/// Truncating division shrinks magnitudes: a dividend within `m` gives a
/// quotient within `m / b`.
proof fn lemma_tdiv_bound(x: int, b: int, m: int)
    requires
        0 < b,
        0 <= m,
        -m <= x <= m,
    ensures
        -(m / b) <= tdiv(x, b) <= m / b,
{
    if x >= 0 {
        vstd::arithmetic::div_mod::lemma_div_pos_is_pos(x, b);
        vstd::arithmetic::div_mod::lemma_div_is_ordered(x, m, b);
    } else {
        vstd::arithmetic::div_mod::lemma_div_pos_is_pos(-x, b);
        vstd::arithmetic::div_mod::lemma_div_is_ordered(-x, m, b);
    }
}

/// A point strictly outside the disk of radius 2 escapes at iteration 0.
pub proof fn lemma_outside_disk_escapes(cr: int, ci: int, limit: nat)
    requires
        norm_sqr(cr, ci) > THRESHOLD,
        limit >= 1,
    ensures
        escape_spec(cr, ci, limit) == Some(0nat),
{
    vstd::arithmetic::div_mod::lemma_div_of0(SCALE as int);
    assert(orbit(cr, ci, 0) == (0int, 0int));
    assert(orbit(cr, ci, 1).0 == cr && orbit(cr, ci, 1).1 == ci);
}

/// The orbit of the origin never moves.
proof fn lemma_orbit_of_zero(n: nat)
    ensures
        orbit(0, 0, n) == (0int, 0int),
    decreases n,
{
    if n > 0 {
        lemma_orbit_of_zero((n - 1) as nat);
        vstd::arithmetic::div_mod::lemma_div_of0(SCALE as int);
    }
}

proof fn lemma_zero_escape_from(i: nat, limit: nat)
    ensures
        escape_from(0, 0, i, limit) is None,
    decreases limit - i,
{
    if i < limit {
        lemma_orbit_of_zero(i + 1);
        lemma_zero_escape_from(i + 1, limit);
    }
}

/// The origin never escapes, whatever the iteration limit.
pub proof fn lemma_zero_never_escapes(limit: nat)
    ensures
        escape_spec(0, 0, limit) is None,
{
    lemma_zero_escape_from(0, limit);
}

/// An escape index found from `i` lies in `[i, limit)`.
proof fn lemma_escape_index_in_range(cr: int, ci: int, i: nat, limit: nat)
    ensures
        escape_from(cr, ci, i, limit) matches Some(n) ==> i <= n < limit,
    decreases limit - i,
{
    if i < limit {
        lemma_escape_index_in_range(cr, ci, i + 1, limit);
    }
}

proof fn lemma_escape_from_monotone(cr: int, ci: int, i: nat, limit1: nat, limit2: nat)
    requires
        i <= limit1 <= limit2,
    ensures
        escape_from(cr, ci, i, limit1) matches Some(n) ==> escape_from(cr, ci, i, limit2)
            == Some(n),
        escape_from(cr, ci, i, limit1) is None ==> (escape_from(cr, ci, i, limit2)
            matches Some(n) ==> n >= limit1),
    decreases limit1 - i,
{
    if i >= limit1 {
        lemma_escape_index_in_range(cr, ci, i, limit2);
    } else {
        lemma_escape_from_monotone(cr, ci, i + 1, limit1, limit2);
    }
}

/// Raising the iteration limit never changes an escape already found,
/// and can only turn "did not escape" into an escape at an index at or
/// beyond the smaller limit.
pub proof fn lemma_escape_monotone(cr: int, ci: int, limit1: nat, limit2: nat)
    requires
        limit1 <= limit2,
    ensures
        escape_spec(cr, ci, limit1) matches Some(n) ==> escape_spec(cr, ci, limit2) == Some(n),
        escape_spec(cr, ci, limit1) is None ==> (escape_spec(cr, ci, limit2)
            matches Some(n) ==> n >= limit1),
{
    lemma_escape_from_monotone(cr, ci, 0, limit1, limit2);
}

/// Evaluate the escape time of `c`: iterate `z = z^2 + c` up to `limit`
/// times and report the first step whose squared magnitude exceeds 4, or
/// `None` if the orbit stays within the disk of radius 2 throughout.
pub fn escape_time(c: Complex, limit: u32) -> (r: Option<u32>)
    requires
        c.in_range(),
    ensures
        r matches Some(i) ==> escape_spec(c.re as int, c.im as int, limit as nat) == Some(
            i as nat,
        ) && i < limit,
        r is None ==> escape_spec(c.re as int, c.im as int, limit as nat) is None,
{
    let ghost cr: int = c.re as int;
    let ghost ci: int = c.im as int;
    let mut zr: i64 = 0;
    let mut zi: i64 = 0;
    let mut i: u32 = 0;
    while i < limit
        invariant
            c.in_range(),
            i <= limit,
            zr as int == orbit(cr, ci, i as nat).0,
            zi as int == orbit(cr, ci, i as nat).1,
            norm_sqr(zr as int, zi as int) <= THRESHOLD,
            escape_from(cr, ci, i as nat, limit as nat) == escape_spec(cr, ci, limit as nat),
            cr == c.re as int,
            ci == c.im as int,
        decreases limit - i,
    {
        proof {
            lemma_norm_bounds(zr as int, zi as int);
            assert(zr * zr >= 0 && zi * zi >= 0
                && 2 * zr * zi <= zr * zr + zi * zi && -(zr * zr + zi * zi) <= 2 * zr * zi)
                by (nonlinear_arith);
        }
        let zr2: i128 = (zr as i128) * (zr as i128);
        let zi2: i128 = (zi as i128) * (zi as i128);
        let cross: i128 = 2 * (zr as i128) * (zi as i128);
        let re_t: i128 = div_scale(zr2 - zi2);
        let im_t: i128 = div_scale(cross);
        proof {
            lemma_tdiv_bound((zr2 - zi2) as int, SCALE as int, THRESHOLD as int);
            lemma_tdiv_bound(cross as int, SCALE as int, THRESHOLD as int);
            assert(THRESHOLD as int / (SCALE as int) == 4 * (SCALE as int)) by {
                vstd::arithmetic::div_mod::lemma_div_by_multiple(
                    4 * (SCALE as int),
                    SCALE as int,
                );
                assert(4 * (SCALE as int) * (SCALE as int)
                    == (4 * (SCALE as int)) * (SCALE as int)) by (nonlinear_arith);
            }
        }
        let nzr: i64 = (re_t + (c.re as i128)) as i64;
        let nzi: i64 = (im_t + (c.im as i128)) as i64;
        proof {
            assert(nzr as int == step_re(zr as int, zi as int, cr));
            assert(nzi as int == step_im(zr as int, zi as int, ci));
            assert(orbit(cr, ci, i as nat + 1).0 == nzr as int);
            assert(orbit(cr, ci, i as nat + 1).1 == nzi as int);
            let m: int = 4 * (SCALE as int) + COORD_MAX as int;
            assert(-m <= nzr as int <= m && -m <= nzi as int <= m);
            assert((nzr as int) * (nzr as int) <= m * m
                && (nzi as int) * (nzi as int) <= m * m
                && (nzr as int) * (nzr as int) >= 0
                && (nzi as int) * (nzi as int) >= 0) by (nonlinear_arith)
                requires -m <= nzr as int <= m && -m <= nzi as int <= m && m > 0;
        }
        let n2: i128 = (nzr as i128) * (nzr as i128) + (nzi as i128) * (nzi as i128);
        if n2 > THRESHOLD {
            return Some(i);
        }
        zr = nzr;
        zi = nzi;
        i = i + 1;
    }
    None
}

} // verus!
