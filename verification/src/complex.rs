//! Fixed-point complex numbers.
//!
//! A coordinate on the complex plane is held as an `i64` that stores the
//! real value scaled by `SCALE` (a binary fixed-point format with 32
//! fractional bits).  `COORD_MAX` bounds the coordinates the renderer
//! accepts, which keeps every intermediate product inside `i128`.

use vstd::prelude::*;

verus! {

/// One plane unit, expressed in fixed-point ticks: 2^32.
pub const SCALE: i64 = 4294967296;

/// Largest coordinate magnitude the renderer accepts: 256 plane units.
pub const COORD_MAX: i64 = 1099511627776;

/// A point of the complex plane in fixed-point coordinates.
#[derive(Clone, Copy, PartialEq, Eq, Structural, Debug)]
pub struct Complex {
    /// Real part, in ticks of 1/`SCALE`.
    pub re: i64,
    /// Imaginary part, in ticks of 1/`SCALE`.
    pub im: i64,
}

impl Complex {
    /// Both coordinates lie within the accepted plane region.
    pub open spec fn in_range(self) -> bool {
        -COORD_MAX <= self.re <= COORD_MAX && -COORD_MAX <= self.im <= COORD_MAX
    }
}

/// Integer division truncated toward zero, for a positive divisor.
pub open spec fn tdiv(a: int, b: int) -> int
    recommends
        b > 0,
{
    if a >= 0 {
        a / b
    } else {
        -((-a) / b)
    }
}

/// Divide by `SCALE`, truncating toward zero.
pub fn div_scale(x: i128) -> (r: i128)
    requires
        -0x40000000000000000000000000000000 < x < 0x40000000000000000000000000000000,
    ensures
        r == tdiv(x as int, SCALE as int),
{
    let s: u128 = 4294967296;
    if x >= 0 {
        let q: u128 = (x as u128) / s;
        proof {
            assert(q * s + (x as u128) % s == x) by {
                vstd::arithmetic::div_mod::lemma_fundamental_div_mod(x as int, s as int);
            }
        }
        q as i128
    } else {
        let m: u128 = (-x) as u128;
        let q: u128 = m / s;
        proof {
            assert(q * s + m % s == m) by {
                vstd::arithmetic::div_mod::lemma_fundamental_div_mod(m as int, s as int);
            }
        }
        -(q as i128)
    }
}

} // verus!
