//! Small integer-vector and division helpers used by the tile engine.

use vstd::prelude::*;

verus! {

/// A two-dimensional vector of unsigned 32-bit coordinates, used for pixel
/// positions, pixel extents and tile-grid coordinates.
#[derive(Clone, Copy, Debug, PartialEq, Eq, Hash, Structural)]
pub struct UVec2 {
    pub x: u32,
    pub y: u32,
}

impl UVec2 {
    pub fn new(x: u32, y: u32) -> (v: UVec2)
        ensures
            v == (UVec2 { x, y }),
    {
        UVec2 { x, y }
    }
}

/// An axis-aligned rectangle of unsigned pixel coordinates: a position and
/// a size.
#[derive(Clone, Copy, Debug, PartialEq, Eq, Structural)]
pub struct URect {
    pub x: u32,
    pub y: u32,
    pub width: u32,
    pub height: u32,
}

/// Mathematical ceiling of `a / b`.
pub open spec fn div_ceil_spec(a: int, b: int) -> int {
    if a % b == 0 {
        a / b
    } else {
        a / b + 1
    }
}

/// Ceiling division on `u32`, without overflow.
pub fn div_ceil_u32(a: u32, b: u32) -> (r: u32)
    requires
        b > 0,
    ensures
        r == div_ceil_spec(a as int, b as int),
{
    let q = a / b;
    if a % b == 0 {
        q
    } else {
        proof {
            let ai = a as int;
            let bi = b as int;
            assert(ai > 0 && bi > 1) by (nonlinear_arith)
                requires
                    ai >= 0,
                    bi >= 1,
                    ai % bi != 0,
            ;
            vstd::arithmetic::div_mod::lemma_div_decreases(ai, bi);
        }
        q + 1
    }
}

/// For positive `a` and `b`, the ceiling quotient `q` of `a / b` is at least
/// one, `q` blocks of size `b` cover `a`, and `q - 1` blocks do not.
pub proof fn lemma_div_ceil_bounds(a: int, b: int)
    requires
        1 <= a,
        1 <= b,
    ensures
        1 <= div_ceil_spec(a, b),
        a <= div_ceil_spec(a, b) * b,
        (div_ceil_spec(a, b) - 1) * b < a,
{
    let q = a / b;
    let r = a % b;
    vstd::arithmetic::div_mod::lemma_fundamental_div_mod(a, b);
    vstd::arithmetic::div_mod::lemma_mod_bound(a, b);
    if r == 0 {
        assert(1 <= q && a <= q * b && (q - 1) * b < a) by (nonlinear_arith)
            requires
                1 <= a,
                1 <= b,
                a == b * q + r,
                r == 0,
        ;
    } else {
        assert(1 <= q + 1 && a <= (q + 1) * b && q * b < a) by (nonlinear_arith)
            requires
                1 <= a,
                1 <= b,
                a == b * q + r,
                0 < r < b,
        ;
    }
}

} // verus!
