//! Tests of the tile renderer and the frame scheduler.

use mandelbrot::render::{
    render_frame, render_frame_parallel, render_tile, ColorMode, ViewTransform, CENTER_MAX,
    FB_PIXELS, NUM_TILES, RESOLUTION, TILE_PIXELS, TILE_SIDE, ZOOM_MAX,
};

fn initial_view() -> ViewTransform {
    ViewTransform::new(8 * 65536, 0, 0).expect("the initial view is well-formed")
}

/// A view whose every pixel lies far outside the escape radius, so frames
/// under it render almost instantly.
fn far_view() -> ViewTransform {
    ViewTransform::new(8 * 65536, 300 * 65536, 300 * 65536).expect("within bounds")
}

/// The tiling constants: 256 tiles of 48*48 pixels partition the 768*768
/// frame, contiguous, pairwise disjoint and jointly exhaustive.
#[test]
fn tile_partition_covers_frame() {
    assert_eq!(RESOLUTION, 768);
    assert_eq!(TILE_SIDE, RESOLUTION / 16);
    assert_eq!(TILE_PIXELS, TILE_SIDE * TILE_SIDE);
    assert_eq!(NUM_TILES, 256);
    assert_eq!(NUM_TILES * TILE_PIXELS, FB_PIXELS);
    let mut covered = vec![0u8; FB_PIXELS];
    for t in 0..NUM_TILES {
        for p in t * TILE_PIXELS..(t + 1) * TILE_PIXELS {
            covered[p] += 1;
        }
    }
    assert!(covered.iter().all(|&c| c == 1));
}

/// Every tile buffer has exactly the tile's pixel count.
#[test]
fn tile_has_fixed_size() {
    let vt = far_view();
    let tile = render_tile(0, &vt, ColorMode::Smooth);
    assert_eq!(tile.len(), TILE_PIXELS);
}

/// The screen-center pixel of the initial view maps to the plane origin,
/// which never escapes; grayscale paints the at-cap count as full white.
#[test]
fn center_pixel_of_initial_view() {
    let vt = initial_view();
    let center = 384 * RESOLUTION + 384;
    let tile = center / TILE_PIXELS;
    let within = center % TILE_PIXELS;
    let buf = render_tile(tile, &vt, ColorMode::Grayscale);
    assert_eq!(buf[within], 0xFFFFFFFF);
}

/// Whole-frame render of the initial view: the center pixel again, through
/// `render_frame`.
#[test]
fn render_frame_initial_view_center_pixel() {
    let vt = initial_view();
    let mut fb = vec![0u32; FB_PIXELS];
    render_frame(&vt, ColorMode::Grayscale, &mut fb);
    assert_eq!(fb[384 * RESOLUTION + 384], 0xFFFFFFFF);
}

/// A view centered on plane point (3, 3): the center pixel escapes at step
/// zero and grayscale paints it opaque black.
#[test]
fn render_frame_immediate_escape_pixel() {
    let vt = ViewTransform::new(8 * 65536, 3 * 65536, 3 * 65536).expect("within bounds");
    let mut fb = vec![0u32; FB_PIXELS];
    render_frame_parallel(&vt, ColorMode::Grayscale, &mut fb);
    assert_eq!(fb[384 * RESOLUTION + 384], 0xFF000000);
}

/// Two renders under identical view and mode give byte-identical frames.
#[test]
fn render_frame_is_deterministic() {
    let vt = far_view();
    let mut first = vec![0u32; FB_PIXELS];
    let mut second = vec![7u32; FB_PIXELS];
    render_frame(&vt, ColorMode::Smooth, &mut first);
    render_frame(&vt, ColorMode::Smooth, &mut second);
    assert_eq!(first, second);
}

/// The parallel scheduler produces exactly the frame the sequential one
/// does.
#[test]
fn parallel_matches_sequential() {
    let vt = initial_view();
    let mut seq = vec![0u32; FB_PIXELS];
    let mut par = vec![1u32; FB_PIXELS];
    render_frame(&vt, ColorMode::Grayscale, &mut seq);
    render_frame_parallel(&vt, ColorMode::Grayscale, &mut par);
    assert_eq!(seq, par);
    let vt2 = far_view();
    let mut seq2 = vec![0u32; FB_PIXELS];
    let mut par2 = vec![1u32; FB_PIXELS];
    render_frame(&vt2, ColorMode::Smooth, &mut seq2);
    render_frame_parallel(&vt2, ColorMode::Smooth, &mut par2);
    assert_eq!(seq2, par2);
}

/// The view-transform builder accepts exactly the documented bounds.
#[test]
fn view_transform_bounds() {
    assert!(ViewTransform::new(0, 0, 0).is_none());
    assert!(ViewTransform::new(-65536, 0, 0).is_none());
    assert!(ViewTransform::new(ZOOM_MAX + 1, 0, 0).is_none());
    assert!(ViewTransform::new(65536, CENTER_MAX + 1, 0).is_none());
    assert!(ViewTransform::new(65536, 0, -CENTER_MAX - 1).is_none());
    let vt = ViewTransform::new(ZOOM_MAX, -CENTER_MAX, CENTER_MAX).expect("at the bounds");
    assert_eq!(vt.zoom, ZOOM_MAX);
    assert_eq!(vt.center_x, -CENTER_MAX);
    assert_eq!(vt.center_y, CENTER_MAX);
}
