//! The two color mappers: iteration count to packed 32-bit pixel.
//!
//! A packed pixel is `alpha << 24 | red << 16 | green << 8 | blue` with the
//! alpha byte fully opaque; since the channels occupy disjoint byte
//! positions and each stays below 256, the packing is written as plain
//! arithmetic.
//!
//! Both mappers brighten with the square root of the normalized iteration
//! count.  For an iteration count `n` and a channel ceiling `c`, the value
//! `floor(c * sqrt(n / MAX_ITER))` equals `isqrt(floor(c*c*n / MAX_ITER))`,
//! so the whole computation stays in integers: `isqrt_s` is the integer
//! square root, with 65025 = 255*255 scaling the grayscale intensity and
//! 225 = 15*15 scaling the palette index.

use crate::escape::MAX_ITER;
use vstd::arithmetic::div_mod::lemma_div_is_ordered;
use vstd::prelude::*;

verus! {

/// The integer square root: the largest `r` with `r * r <= n`.
pub open spec fn isqrt_s(n: nat) -> nat
    decreases n,
{
    if n == 0 {
        0
    } else {
        let r = isqrt_s((n - 1) as nat);
        if (r + 1) * (r + 1) <= n {
            r + 1
        } else {
            r
        }
    }
}

/// `isqrt_s(n)` is the unique value whose square is at most `n` and whose
/// successor's square is beyond it.
pub proof fn lemma_isqrt_bounds(n: nat)
    ensures
        isqrt_s(n) * isqrt_s(n) <= n,
        n < (isqrt_s(n) + 1) * (isqrt_s(n) + 1),
    decreases n,
{
    if n > 0 {
        lemma_isqrt_bounds((n - 1) as nat);
        let r = isqrt_s((n - 1) as nat);
        if (r + 1) * (r + 1) <= n {
            assert(isqrt_s(n) == r + 1);
            assert(n - 1 < (r + 1) * (r + 1));
            assert((r + 1) * (r + 1) < ((r + 1) + 1) * ((r + 1) + 1)) by (nonlinear_arith);
            assert(n < (isqrt_s(n) + 1) * (isqrt_s(n) + 1));
        } else {
            assert(isqrt_s(n) == r);
            assert(r * r <= n - 1 < n);
            assert(n < (r + 1) * (r + 1));
        }
    } else {
        assert(isqrt_s(0) == 0);
        assert((0nat + 1) * (0nat + 1) == 1) by (nonlinear_arith);
    }
}

/// Any value squeezed the same way as the integer square root is it.
pub proof fn lemma_isqrt_unique(n: nat, r: nat)
    requires
        r * r <= n,
        n < (r + 1) * (r + 1),
    ensures
        isqrt_s(n) == r,
{
    lemma_isqrt_bounds(n);
    let s = isqrt_s(n);
    if s < r {
        assert((s + 1) * (s + 1) <= r * r) by (nonlinear_arith)
            requires
                s + 1 <= r,
        ;
    }
    if r < s {
        assert((r + 1) * (r + 1) <= s * s) by (nonlinear_arith)
            requires
                r + 1 <= s,
        ;
    }
}

/// The integer square root never decreases.
pub proof fn lemma_isqrt_monotone(m: nat, n: nat)
    requires
        m <= n,
    ensures
        isqrt_s(m) <= isqrt_s(n),
{
    lemma_isqrt_bounds(m);
    lemma_isqrt_bounds(n);
    if isqrt_s(n) < isqrt_s(m) {
        assert((isqrt_s(n) + 1) * (isqrt_s(n) + 1) <= isqrt_s(m) * isqrt_s(m))
            by (nonlinear_arith)
            requires
                isqrt_s(n) + 1 <= isqrt_s(m),
        ;
    }
}

/// The square of a small value, bounded so the product cannot wrap.
fn square(x: u32) -> (s: u32)
    requires
        x <= 256,
    ensures
        s == x * x,
{
    proof {
        assert(x * x <= 65536) by (nonlinear_arith)
            requires
                x <= 256,
        ;
    }
    x * x
}

/// Integer square root by upward search; the inputs here never exceed the
/// squared channel ceiling 65025.
fn isqrt(n: u32) -> (r: u32)
    requires
        n <= 65025,
    ensures
        r == isqrt_s(n as nat),
        r <= 255,
{
    let mut r: u32 = 0;
    while square(r + 1) <= n
        invariant
            n <= 65025,
            r <= 255,
            r * r <= n,
        decreases 256 - r,
    {
        proof {
            assert(r + 1 <= 255) by (nonlinear_arith)
                requires
                    (r + 1) * (r + 1) <= 65025,
                    r <= 255,
            ;
        }
        r = r + 1;
    }
    proof {
        lemma_isqrt_unique(n as nat, r as nat);
    }
    r
}

/// Grayscale intensity of an iteration count: `floor(255 * sqrt(n / MAX_ITER))`.
pub open spec fn gray_intensity(n: nat) -> nat {
    isqrt_s((65025 * n) / (MAX_ITER as nat))
}

/// Packed grayscale pixel of an iteration count: zero beyond the cap, and
/// otherwise the intensity replicated into the red, green and blue bytes
/// under an opaque alpha byte.
pub open spec fn gray_pixel(n: nat) -> u32 {
    if n > MAX_ITER {
        0u32
    } else {
        (0xFF00_0000 + gray_intensity(n) * 0x1_0101) as u32
    }
}

/// Palette index of an iteration count below the cap: `floor(15 * sqrt(n / MAX_ITER))`.
pub open spec fn smooth_index(n: nat) -> nat {
    isqrt_s((225 * n) / (MAX_ITER as nat))
}

/// The fixed 16-entry palette, darkest blues up through yellows and browns,
/// as (red, green, blue) triples.
pub open spec fn palette(i: nat) -> (int, int, int) {
    if i == 0 {
        (66, 30, 15)
    } else if i == 1 {
        (25, 7, 26)
    } else if i == 2 {
        (9, 1, 47)
    } else if i == 3 {
        (4, 4, 73)
    } else if i == 4 {
        (0, 7, 100)
    } else if i == 5 {
        (12, 44, 138)
    } else if i == 6 {
        (24, 82, 177)
    } else if i == 7 {
        (57, 125, 209)
    } else if i == 8 {
        (134, 181, 229)
    } else if i == 9 {
        (211, 236, 248)
    } else if i == 10 {
        (241, 233, 191)
    } else if i == 11 {
        (248, 201, 95)
    } else if i == 12 {
        (255, 170, 0)
    } else if i == 13 {
        (204, 128, 0)
    } else if i == 14 {
        (153, 87, 0)
    } else {
        (106, 52, 3)
    }
}

/// Packed smooth-gradient pixel of an iteration count: zero at or beyond
/// the cap, otherwise the palette entry at its index, packed opaque.
pub open spec fn smooth_pixel(n: nat) -> u32 {
    if n >= MAX_ITER {
        0u32
    } else {
        let (r, g, b) = palette(smooth_index(n));
        (0xFF00_0000 + r * 0x1_0000 + g * 0x100 + b) as u32
    }
}

/// Palette lookup as executable code.
fn palette_rgb(i: u32) -> (rgb: (u32, u32, u32))
    ensures
        (rgb.0 as int, rgb.1 as int, rgb.2 as int) == palette(i as nat),
        rgb.0 <= 255,
        rgb.1 <= 255,
        rgb.2 <= 255,
{
    if i == 0 {
        (66, 30, 15)
    } else if i == 1 {
        (25, 7, 26)
    } else if i == 2 {
        (9, 1, 47)
    } else if i == 3 {
        (4, 4, 73)
    } else if i == 4 {
        (0, 7, 100)
    } else if i == 5 {
        (12, 44, 138)
    } else if i == 6 {
        (24, 82, 177)
    } else if i == 7 {
        (57, 125, 209)
    } else if i == 8 {
        (134, 181, 229)
    } else if i == 9 {
        (211, 236, 248)
    } else if i == 10 {
        (241, 233, 191)
    } else if i == 11 {
        (248, 201, 95)
    } else if i == 12 {
        (255, 170, 0)
    } else if i == 13 {
        (204, 128, 0)
    } else if i == 14 {
        (153, 87, 0)
    } else {
        (106, 52, 3)
    }
}

/// Grayscale mapper: iteration counts beyond the cap map to zero; counts up
/// to the cap map to an opaque gray whose brightness follows the square
/// root of the normalized count.
pub fn color_grayscale(iteration: u32) -> (c: u32)
    ensures
        c == gray_pixel(iteration as nat),
{
    if iteration > MAX_ITER {
        return 0;
    }
    let m: u32 = (65025 * iteration) / MAX_ITER;
    proof {
        lemma_div_is_ordered(65025 * (iteration as int), 65025 * 128int, MAX_ITER as int);
    }
    let k: u32 = isqrt(m);
    0xFF00_0000u32 + k * 0x1_0101
}

/// Smooth-gradient mapper: iteration counts at or beyond the cap map to
/// zero; lower counts pick a palette entry by the square root of the
/// normalized count.
pub fn color_smooth(iteration: u32) -> (c: u32)
    ensures
        c == smooth_pixel(iteration as nat),
{
    if iteration >= MAX_ITER {
        return 0;
    }
    let m: u32 = (225 * iteration) / MAX_ITER;
    proof {
        lemma_div_is_ordered(225 * (iteration as int), 225 * 127int, MAX_ITER as int);
    }
    let k: u32 = isqrt(m);
    let (r, g, b): (u32, u32, u32) = palette_rgb(k);
    0xFF00_0000u32 + r * 0x1_0000 + g * 0x100 + b
}

/// Brightness law for the grayscale mapper: both the intensity and the
/// packed pixel value never decrease as the iteration count rises toward
/// the cap.
pub proof fn lemma_grayscale_monotone(m: nat, n: nat)
    requires
        m <= n <= MAX_ITER,
    ensures
        gray_intensity(m) <= gray_intensity(n),
        gray_pixel(m) <= gray_pixel(n),
{
    lemma_div_is_ordered(65025 * (m as int), 65025 * (n as int), MAX_ITER as int);
    lemma_isqrt_monotone((65025 * m) / (MAX_ITER as nat), (65025 * n) / (MAX_ITER as nat));
    lemma_div_is_ordered(65025 * (n as int), 65025 * 128int, MAX_ITER as int);
    lemma_isqrt_monotone((65025 * n) / (MAX_ITER as nat), 65025);
    assert((255nat + 1) * (255nat + 1) == 65536) by (nonlinear_arith);
    lemma_isqrt_unique(65025, 255);
}

/// Brightness law for the smooth mapper: the palette index never decreases
/// as the iteration count rises below the cap.
pub proof fn lemma_smooth_monotone(m: nat, n: nat)
    requires
        m <= n,
        n < MAX_ITER,
    ensures
        smooth_index(m) <= smooth_index(n),
{
    lemma_div_is_ordered(225 * (m as int), 225 * (n as int), MAX_ITER as int);
    lemma_isqrt_monotone((225 * m) / (MAX_ITER as nat), (225 * n) / (MAX_ITER as nat));
}

} // verus!
