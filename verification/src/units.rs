//! Fixed-point arithmetic in millionths of a whole.
//!
//! Every fraction the mesh works with (a quality, a link weight, a load, a learning rate)
//! is held as an unsigned count of millionths, so that the rules can be stated and proved
//! over the integers.

use vstd::prelude::*;

verus! {

/// One whole, expressed in millionths.
pub const UNIT: u32 = 1_000_000;

/// `x` limited to the closed range from `lo` to `hi`.
pub open spec fn clamp_int(x: int, lo: int, hi: int) -> int {
    if x < lo {
        lo
    } else if x > hi {
        hi
    } else {
        x
    }
}

/// The product of two quantities in millionths, rounded down to a millionth.
pub open spec fn scaled(a: int, b: int) -> int {
    a * b / 1_000_000
}

/// Scaling a quantity by a fraction of at most one whole moves it toward zero and never
/// past it.
pub proof fn lemma_scaled_shrinks(a: int, b: int)
    requires
        0 <= b <= UNIT,
    ensures
        a >= 0 ==> 0 <= scaled(a, b) <= a,
        a <= 0 ==> a <= scaled(a, b) <= 0,
{
    assert(a >= 0 ==> 0 <= a * b <= a * 1_000_000) by (nonlinear_arith)
        requires
            0 <= b <= 1_000_000,
    ;
    assert(a <= 0 ==> a * 1_000_000 <= a * b <= 0) by (nonlinear_arith)
        requires
            0 <= b <= 1_000_000,
    ;
}

/// Computes `scaled(a, b)`.
pub fn scale(a: u32, b: u32) -> (r: u64)
    ensures
        r == scaled(a as int, b as int),
{
    assert(a * b <= 0xFFFF_FFFF * 0xFFFF_FFFF) by (nonlinear_arith)
        requires
            a <= 0xFFFF_FFFF,
            b <= 0xFFFF_FFFF,
    ;
    (a as u64) * (b as u64) / 1_000_000
}

} // verus!
