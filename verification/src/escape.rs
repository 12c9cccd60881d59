//! The escape-time evaluator.
//!
//! For a plane point `c = x0 + i*y0` the orbit `z' = z*z + c`, seeded at `c`
//! itself, is iterated until its squared magnitude exceeds 4 plane units or
//! the iteration cap is reached.  All arithmetic is the fixed-point
//! arithmetic of [`crate::fixed`], so the orbit is a deterministic integer
//! sequence and the returned count is exactly characterized.

use crate::fixed::{fmul, fmul_s, lemma_fmul_s_bound, lemma_mul_signs, SCALE};
use vstd::math::abs;
use vstd::prelude::*;

verus! {

/// Iteration cap: points whose orbit stays within the escape radius this
/// long count as inside the set.
pub const MAX_ITER: u32 = 128;

/// The squared escape radius (plane value 4) in raw fixed-point units.
pub const ESCAPE_RADIUS_SQ: i64 = 4 * SCALE;

/// Largest raw coordinate magnitude `escape_time` accepts (plane value
/// 1024); every pixel of every well-formed view lies well within it.
pub const COORD_BOUND: i64 = 1024 * SCALE;

/// Raw magnitude that no orbit component can leave while the loop keeps
/// iterating: one escape check plus one truncation step beyond the inputs.
pub const ORBIT_BOUND: i64 = COORD_BOUND + ESCAPE_RADIUS_SQ + 2;

/// The fixed-point orbit: position `k` of the sequence seeded at `(x0, y0)`.
pub open spec fn orbit(x0: int, y0: int, k: nat) -> (int, int)
    decreases k,
{
    if k == 0 {
        (x0, y0)
    } else {
        let (x, y) = orbit(x0, y0, (k - 1) as nat);
        (fmul_s(x, x) - fmul_s(y, y) + x0, fmul_s(2 * x, y) + y0)
    }
}

/// Squared magnitude of a fixed-point point, in raw units.
pub open spec fn mag_sq(x: int, y: int) -> int {
    fmul_s(x, x) + fmul_s(y, y)
}

/// Whether the orbit of `(x0, y0)` is beyond the escape radius at step `k`.
pub open spec fn escaped_at(x0: int, y0: int, k: nat) -> bool {
    mag_sq(orbit(x0, y0, k).0, orbit(x0, y0, k).1) > ESCAPE_RADIUS_SQ
}

/// The first step at or after `j` at which the orbit escapes, or the cap if
/// it never does before the cap.
pub open spec fn escape_count_from(x0: int, y0: int, j: nat) -> nat
    decreases MAX_ITER as int - j,
{
    if j >= MAX_ITER {
        MAX_ITER as nat
    } else if escaped_at(x0, y0, j) {
        j
    } else {
        escape_count_from(x0, y0, j + 1)
    }
}

/// The escape time of a point: the first step at which its orbit escapes,
/// or `MAX_ITER` if none of the first `MAX_ITER` steps does.
pub open spec fn escape_count(x0: int, y0: int) -> nat {
    escape_count_from(x0, y0, 0)
}

/// A step bounded below the cap with no escape before it and an escape at it
/// (unless it is the cap itself) is the escape count.
proof fn lemma_escape_count_from_eq(x0: int, y0: int, n: nat, j: nat)
    requires
        j <= n <= MAX_ITER,
        forall|k: nat| j <= k < n ==> !escaped_at(x0, y0, k),
        n < MAX_ITER ==> escaped_at(x0, y0, n),
    ensures
        escape_count_from(x0, y0, j) == n,
    decreases n - j,
{
    if j < n {
        assert(!escaped_at(x0, y0, j));
        lemma_escape_count_from_eq(x0, y0, n, j + 1);
    }
}

/// AM-GM shape of the doubled cross product.
proof fn lemma_double_product_bound(x: int, y: int)
    by (nonlinear_arith)
    ensures
        (2 * x) * y <= x * x + y * y,
        -(x * x + y * y) <= (2 * x) * y,
{
}

/// Squares grow with the magnitude of their root.
proof fn lemma_square_bound(x: int, c: int)
    by (nonlinear_arith)
    requires
        -c <= x <= c,
    ensures
        x * x <= c * c,
{
}

/// Escape-time evaluation of one plane point, in fixed-point units.
///
/// Returns the smallest `n <= MAX_ITER` such that the orbit's squared
/// magnitude exceeds 4 plane units at step `n`, and `MAX_ITER` when no step
/// below the cap escapes.  Pure and total: it always terminates within
/// `MAX_ITER` steps and never panics.
pub fn escape_time(x0: i64, y0: i64) -> (n: u32)
    requires
        -COORD_BOUND <= x0 <= COORD_BOUND,
        -COORD_BOUND <= y0 <= COORD_BOUND,
    ensures
        n <= MAX_ITER,
        n == escape_count(x0 as int, y0 as int),
        forall|k: nat| k < n ==> !escaped_at(x0 as int, y0 as int, k),
        n < MAX_ITER ==> escaped_at(x0 as int, y0 as int, n as nat),
        mag_sq(x0 as int, y0 as int) > ESCAPE_RADIUS_SQ ==> n == 0,
{
    let mut x: i64 = x0;
    let mut y: i64 = y0;
    let mut n: u32 = 0;
    while n < MAX_ITER
        invariant
            n <= MAX_ITER,
            -COORD_BOUND <= x0 <= COORD_BOUND,
            -COORD_BOUND <= y0 <= COORD_BOUND,
            -ORBIT_BOUND <= x <= ORBIT_BOUND,
            -ORBIT_BOUND <= y <= ORBIT_BOUND,
            (x as int, y as int) == orbit(x0 as int, y0 as int, n as nat),
            forall|k: nat| k < n ==> !escaped_at(x0 as int, y0 as int, k),
        decreases MAX_ITER - n,
    {
        proof {
            lemma_square_bound(x as int, ORBIT_BOUND as int);
            lemma_square_bound(y as int, ORBIT_BOUND as int);
            lemma_mul_signs(x as int, x as int);
            lemma_mul_signs(y as int, y as int);
            lemma_fmul_s_bound(x as int, x as int);
            lemma_fmul_s_bound(y as int, y as int);
        }
        let xx: i64 = fmul(x, x);
        let yy: i64 = fmul(y, y);
        proof {
            assert((SCALE as int) * abs(xx as int) <= (x as int) * (x as int));
            assert((SCALE as int) * abs(yy as int) <= (y as int) * (y as int));
            assert((ORBIT_BOUND as int) * (ORBIT_BOUND as int) == 4538852988420100)
                by (nonlinear_arith)
                requires
                    ORBIT_BOUND == 67371010i64,
            ;
            assert(0 <= xx as int <= 70_000_000_000);
            assert(0 <= yy as int <= 70_000_000_000);
        }
        if xx + yy > ESCAPE_RADIUS_SQ {
            proof {
                assert(escaped_at(x0 as int, y0 as int, n as nat));
                lemma_escape_count_from_eq(x0 as int, y0 as int, n as nat, 0);
                if n > 0 {
                    assert(!escaped_at(x0 as int, y0 as int, 0));
                }
            }
            return n;
        }
        proof {
            lemma_double_product_bound(x as int, y as int);
            lemma_fmul_s_bound(2 * x as int, y as int);
            lemma_mul_signs(2 * x as int, y as int);
            assert(abs((2 * x as int) * (y as int)) <= x as int * x as int + y as int * y as int);
        }
        let xn: i64 = xx - yy + x0;
        let t: i64 = fmul(2 * x, y);
        let yn: i64 = t + y0;
        proof {
            assert(!escaped_at(x0 as int, y0 as int, n as nat));
            assert(orbit(x0 as int, y0 as int, (n + 1) as nat)
                == (xn as int, yn as int));
        }
        x = xn;
        y = yn;
        n = n + 1;
    }
    proof {
        lemma_escape_count_from_eq(x0 as int, y0 as int, MAX_ITER as nat, 0);
        assert(!escaped_at(x0 as int, y0 as int, 0));
    }
    n
}

} // verus!
