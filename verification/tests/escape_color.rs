//! Tests of the escape-time evaluator and the two color mappers.

use mandelbrot::color::{color_grayscale, color_smooth};
use mandelbrot::escape::{escape_time, MAX_ITER};
use mandelbrot::fixed::SCALE;

/// A point already outside the escape radius escapes at step zero.
#[test]
fn escape_outside_radius_is_zero() {
    assert_eq!(escape_time(3 * SCALE, 3 * SCALE), 0);
    assert_eq!(escape_time(-3 * SCALE, 3 * SCALE), 0);
    assert_eq!(escape_time(200000, 200000), 0);
    assert_eq!(escape_time(5 * SCALE, 0), 0);
}

/// The origin never escapes: its orbit stays at the origin.
#[test]
fn escape_at_origin_reaches_cap() {
    assert_eq!(escape_time(0, 0), MAX_ITER);
}

/// 1 + 1i jumps straight past the radius on the first step.
#[test]
fn escape_one_plus_i_escapes_at_one() {
    assert_eq!(escape_time(SCALE, SCALE), 1);
}

/// Points of the set proper stay for the full cap.
#[test]
fn escape_inside_set_stays_at_cap() {
    assert_eq!(escape_time(-2 * SCALE, 0), MAX_ITER);
    assert_eq!(escape_time(-SCALE, 0), MAX_ITER);
    assert_eq!(escape_time(SCALE / 4, 0), MAX_ITER);
}

/// Escape times over a coordinate grid always land in [0, MAX_ITER].
#[test]
fn escape_is_bounded_on_grid() {
    let mut x = -4 * SCALE;
    while x <= 4 * SCALE {
        let mut y = -4 * SCALE;
        while y <= 4 * SCALE {
            let n = escape_time(x, y);
            assert!(n <= MAX_ITER);
            y += SCALE / 2;
        }
        x += SCALE / 2;
    }
}

/// Grayscale at the cap is full white; only counts beyond the cap give the
/// zero sentinel.
#[test]
fn gray_cap_boundary() {
    assert_eq!(color_grayscale(MAX_ITER), 0xFFFFFFFF);
    assert_eq!(color_grayscale(MAX_ITER + 1), 0);
    assert_eq!(color_grayscale(u32::MAX), 0);
}

/// The smooth mapper returns the inside-the-set sentinel at the cap.
#[test]
fn smooth_at_cap_is_zero() {
    assert_eq!(color_smooth(MAX_ITER), 0);
    assert_eq!(color_smooth(MAX_ITER + 7), 0);
}

/// Iteration count zero is opaque black under grayscale.
#[test]
fn gray_at_zero_is_black() {
    assert_eq!(color_grayscale(0), 0xFF000000);
}

/// Exact grayscale formula values: floor(255 * sqrt(n/128)) per channel.
#[test]
fn gray_exact_values() {
    assert_eq!(color_grayscale(32), 0xFF7F7F7F);
    assert_eq!(color_grayscale(127), 0xFFFEFEFE);
}

/// Exact smooth formula values: palette entry floor(15 * sqrt(n/128)).
#[test]
fn smooth_exact_values() {
    assert_eq!(color_smooth(0), 0xFF421E0F);
    assert_eq!(color_smooth(1), 0xFF19071A);
    assert_eq!(color_smooth(64), 0xFFF1E9BF);
    assert_eq!(color_smooth(127), 0xFF995700);
}

/// Grayscale brightness never decreases as the count rises to the cap.
#[test]
fn gray_monotone_up_to_cap() {
    let mut prev: u32 = color_grayscale(0);
    for i in 1..=MAX_ITER {
        let c = color_grayscale(i);
        assert!(c >= prev, "grayscale dropped at {}", i);
        prev = c;
    }
}

/// The smooth palette index never decreases as the count rises below the
/// cap.
#[test]
fn smooth_palette_index_monotone() {
    let palette: [u32; 16] = [
        0xFF421E0F, 0xFF19071A, 0xFF09012F, 0xFF040449, 0xFF000764, 0xFF0C2C8A, 0xFF1852B1,
        0xFF397DD1, 0xFF86B5E5, 0xFFD3ECF8, 0xFFF1E9BF, 0xFFF8C95F, 0xFFFFAA00, 0xFFCC8000,
        0xFF995700, 0xFF6A3403,
    ];
    let mut prev: usize = 0;
    for i in 0..MAX_ITER {
        let c = color_smooth(i);
        let idx = palette.iter().position(|&e| e == c).expect("color not in palette");
        assert!(idx >= prev, "palette index dropped at {}", i);
        prev = idx;
    }
}
