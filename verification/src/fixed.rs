//! Signed fixed-point plane arithmetic.
//!
//! A plane coordinate is held as an `i64` counting `SCALE`ths of a plane
//! unit.  Sums and differences of such values are ordinary integer
//! operations; only the product needs care, since the raw product carries a
//! doubled scale factor and must be divided back down.  `fmul` performs that
//! rescaling with truncation toward zero, and `fmul_s` is its exact
//! mathematical description, which every contract above it speaks of.

use vstd::math::abs;
use vstd::prelude::*;

verus! {

/// Raw units per plane unit.
pub const SCALE: i64 = 65536;

/// Largest raw magnitude `fmul` accepts; generous enough for every value the
/// escape iteration can feed it, and small enough that the raw product of two
/// accepted values fits in 64 bits.
pub const FMUL_BOUND: i64 = 0x4000_0000;

/// The rescaled product of two fixed-point values, truncated toward zero.
pub open spec fn fmul_s(a: int, b: int) -> int {
    if a * b >= 0 {
        (a * b) / (SCALE as int)
    } else {
        -((-(a * b)) / (SCALE as int))
    }
}

/// Sign rules of the integer product.
pub proof fn lemma_mul_signs(a: int, b: int)
    by (nonlinear_arith)
    ensures
        a >= 0 && b >= 0 ==> a * b >= 0,
        a <= 0 && b <= 0 ==> a * b >= 0,
        a >= 0 && b <= 0 ==> a * b <= 0,
        a <= 0 && b >= 0 ==> a * b <= 0,
{
}

/// The product of the two magnitudes is the magnitude of the product.
proof fn lemma_magnitude_product(a: int, b: int, ma: int, mb: int)
    by (nonlinear_arith)
    requires
        ma == a || ma == -a,
        mb == b || mb == -b,
        ma >= 0,
        mb >= 0,
    ensures
        ma * mb >= 0,
        ma * mb == a * b || ma * mb == -(a * b),
{
}

/// The rescaled product sits within one truncation step of the true product,
/// and rescaling never flips the sign.
pub proof fn lemma_fmul_s_bound(a: int, b: int)
    ensures
        (SCALE as int) * abs(fmul_s(a, b)) <= abs(a * b),
        abs(a * b) < (SCALE as int) * (abs(fmul_s(a, b)) + 1),
        a * b >= 0 ==> fmul_s(a, b) >= 0,
        a * b <= 0 ==> fmul_s(a, b) <= 0,
{
    let p = a * b;
    if p >= 0 {
        vstd::arithmetic::div_mod::lemma_fundamental_div_mod(p, SCALE as int);
    } else {
        vstd::arithmetic::div_mod::lemma_fundamental_div_mod(-p, SCALE as int);
    }
}

/// Fixed-point multiplication: the product of two coordinates, rescaled back
/// to coordinate units, truncated toward zero.
pub fn fmul(a: i64, b: i64) -> (r: i64)
    requires
        -FMUL_BOUND <= a <= FMUL_BOUND,
        -FMUL_BOUND <= b <= FMUL_BOUND,
    ensures
        r == fmul_s(a as int, b as int),
{
    let neg: bool = (a < 0) != (b < 0);
    let ma: u64 = if a < 0 { (-a) as u64 } else { a as u64 };
    let mb: u64 = if b < 0 { (-b) as u64 } else { b as u64 };
    proof {
        assert(ma * mb <= 0x4000_0000 * 0x4000_0000) by (nonlinear_arith)
            requires
                0 <= ma <= 0x4000_0000,
                0 <= mb <= 0x4000_0000,
        ;
    }
    let m: u64 = ma * mb;
    let q: u64 = m / 65536;
    let r: i64 = if neg {
        -(q as i64)
    } else {
        q as i64
    };
    proof {
        let p = (a as int) * (b as int);
        lemma_mul_signs(a as int, b as int);
        lemma_magnitude_product(a as int, b as int, ma as int, mb as int);
        assert(m == abs(p));
        if p >= 0 {
            assert(q == p / (SCALE as int));
            if neg {
                // Mixed signs with a non-negative product force the product
                // to be zero.
                assert(p == 0);
                assert(q == 0);
            }
        } else {
            assert(q == (-p) / (SCALE as int));
            assert(neg);
        }
    }
    r
}

} // verus!
