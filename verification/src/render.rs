//! The tile renderer and the frame scheduler.
//!
//! The square framebuffer is split into `NUM_TILES` contiguous ranges of
//! `TILE_PIXELS` pixels each — `TILE_SIDE * TILE_SIDE` pixels per tile, so a
//! tile is three full rows of the frame.  Each tile is an independent unit
//! of work: `render_tile` computes one from nothing but the tile index, the
//! view transform and the color mode, and `render_frame` stitches the tiles
//! together in place.  `render_frame_parallel` produces the identical frame
//! with the tile computations spread over a worker pool, joining on all of
//! them before it assembles; the pool dispatch is the one trusted step.

use crate::color::{color_grayscale, color_smooth, gray_pixel, smooth_pixel};
use crate::escape::{escape_count, escape_time, COORD_BOUND};
use crate::fixed::SCALE;
use rayon::iter::{IntoParallelIterator, ParallelIterator};
use vstd::prelude::*;

verus! {

/// Width and height of the square framebuffer, in pixels.
pub const RESOLUTION: usize = 768;

/// Side of the square tile a frame is divided into: `RESOLUTION / 16`.
pub const TILE_SIDE: usize = 48;

/// Pixels per tile: `TILE_SIDE * TILE_SIDE`, three full rows of the frame.
pub const TILE_PIXELS: usize = 2304;

/// Tiles per frame.
pub const NUM_TILES: usize = 256;

/// Pixels per frame: `RESOLUTION * RESOLUTION`.
pub const FB_PIXELS: usize = 589824;

/// Largest raw zoom accepted: the frame then spans 768 plane units.
pub const ZOOM_MAX: i64 = 768 * SCALE;

/// Largest raw center offset magnitude accepted: 512 plane units.
pub const CENTER_MAX: i64 = 512 * SCALE;

/// Which color mapper paints the frame.
#[derive(Clone, Copy, PartialEq, Eq, Structural, Debug)]
pub enum ColorMode {
    /// The 16-entry palette gradient.
    Smooth,
    /// Equal red, green and blue channels.
    Grayscale,
}

/// The viewport: a zoom factor (plane units spanned by the frame) and the
/// plane point at the frame's center, both in raw fixed-point units.
#[derive(Clone, Copy, PartialEq, Eq, Structural, Debug)]
pub struct ViewTransform {
    /// Raw plane width of the frame; positive.
    pub zoom: i64,
    /// Raw plane x of the frame center.
    pub center_x: i64,
    /// Raw plane y of the frame center.
    pub center_y: i64,
}

impl ViewTransform {
    /// Well-formed: the zoom is positive and, with the center offsets,
    /// bounded so that every pixel's plane coordinate stays within what
    /// `escape_time` accepts.
    pub open spec fn wf(self) -> bool {
        &&& 0 < self.zoom <= ZOOM_MAX
        &&& -CENTER_MAX <= self.center_x <= CENTER_MAX
        &&& -CENTER_MAX <= self.center_y <= CENTER_MAX
    }

    /// Builds a well-formed view transform, or nothing when a bound is
    /// broken.
    pub fn new(zoom: i64, center_x: i64, center_y: i64) -> (vt: Option<ViewTransform>)
        ensures
            vt is Some <==> (0 < zoom <= ZOOM_MAX && -CENTER_MAX <= center_x <= CENTER_MAX
                && -CENTER_MAX <= center_y <= CENTER_MAX),
            vt is Some ==> vt->Some_0 == (ViewTransform { zoom, center_x, center_y })
                && vt->Some_0.wf(),
    {
        if 0 < zoom && zoom <= ZOOM_MAX && -CENTER_MAX <= center_x && center_x <= CENTER_MAX
            && -CENTER_MAX <= center_y && center_y <= CENTER_MAX {
            Some(ViewTransform { zoom, center_x, center_y })
        } else {
            None
        }
    }

    /// The starting viewport: zoom 8 plane units, centered on the origin.
    pub fn initial() -> (vt: ViewTransform)
        ensures
            vt.wf(),
            vt.zoom == 8 * SCALE,
            vt.center_x == 0,
            vt.center_y == 0,
    {
        ViewTransform { zoom: 8 * SCALE, center_x: 0, center_y: 0 }
    }
}

/// Raw plane units per pixel step under a view transform.
pub open spec fn pixel_scale(vt: ViewTransform) -> int {
    (vt.zoom as int) / (RESOLUTION as int)
}

/// Raw plane x-coordinate of the pixel at linear framebuffer index `p`:
/// its column, recentered on the frame middle, stepped by the pixel scale
/// and shifted to the view center.
pub open spec fn coord_x(vt: ViewTransform, p: int) -> int {
    (p % (RESOLUTION as int) - (RESOLUTION as int) / 2) * pixel_scale(vt) + vt.center_x
}

/// Raw plane y-coordinate of the pixel at linear framebuffer index `p`.
pub open spec fn coord_y(vt: ViewTransform, p: int) -> int {
    (p / (RESOLUTION as int) - (RESOLUTION as int) / 2) * pixel_scale(vt) + vt.center_y
}

/// The packed color owed to the pixel at linear index `p`: the escape time
/// of its plane point, mapped by the selected color mapper.
pub open spec fn pixel_spec(vt: ViewTransform, mode: ColorMode, p: int) -> u32 {
    match mode {
        ColorMode::Smooth => smooth_pixel(escape_count(coord_x(vt, p), coord_y(vt, p))),
        ColorMode::Grayscale => gray_pixel(escape_count(coord_x(vt, p), coord_y(vt, p))),
    }
}

/// First pixel index of tile `t`.
pub open spec fn tile_start(t: int) -> int {
    t * (TILE_PIXELS as int)
}

/// A pixel offset from the frame middle, stepped by a pixel scale, stays
/// well within the coordinate budget.
proof fn lemma_pixel_product_bound(d: int, s: int)
    by (nonlinear_arith)
    requires
        -384 <= d <= 384,
        0 <= s <= 65536,
    ensures
        -25165824 <= d * s <= 25165824,
{
}

/// Renders one tile: the packed colors of the `TILE_PIXELS` pixels starting
/// at the tile's first index, in row-major order.
pub fn render_tile(tile: usize, vt: &ViewTransform, mode: ColorMode) -> (out: Vec<u32>)
    requires
        tile < NUM_TILES,
        vt.wf(),
    ensures
        out@.len() == TILE_PIXELS,
        forall|j: int|
            0 <= j < TILE_PIXELS ==> out@[j] == pixel_spec(*vt, mode, tile_start(tile as int) + j),
{
    let offset: usize = tile * TILE_PIXELS;
    let scale: i64 = ((vt.zoom as u64) / 768) as i64;
    proof {
        assert(scale == pixel_scale(*vt));
        vstd::arithmetic::div_mod::lemma_div_is_ordered(vt.zoom as int, ZOOM_MAX as int, 768);
        assert(0 <= scale <= 65536);
    }
    let mut out: Vec<u32> = Vec::new();
    let mut j: usize = 0;
    while j < TILE_PIXELS
        invariant
            j <= TILE_PIXELS,
            tile < NUM_TILES,
            offset == tile * TILE_PIXELS,
            vt.wf(),
            scale == pixel_scale(*vt),
            0 <= scale <= 65536,
            out@.len() == j,
            forall|i: int|
                0 <= i < j ==> out@[i] == pixel_spec(*vt, mode, tile_start(tile as int) + i),
        decreases TILE_PIXELS - j,
    {
        let p: usize = offset + j;
        let px: usize = p % RESOLUTION;
        let py: usize = p / RESOLUTION;
        proof {
            lemma_pixel_product_bound(px as int - 384, scale as int);
            lemma_pixel_product_bound(py as int - 384, scale as int);
        }
        let fx: i64 = (px as i64 - 384) * scale + vt.center_x;
        let fy: i64 = (py as i64 - 384) * scale + vt.center_y;
        proof {
            assert(fx == coord_x(*vt, p as int));
            assert(fy == coord_y(*vt, p as int));
            assert(-COORD_BOUND <= fx <= COORD_BOUND);
            assert(-COORD_BOUND <= fy <= COORD_BOUND);
        }
        let n: u32 = escape_time(fx, fy);
        let c: u32 = match mode {
            ColorMode::Smooth => color_smooth(n),
            ColorMode::Grayscale => color_grayscale(n),
        };
        proof {
            assert(c == pixel_spec(*vt, mode, p as int));
        }
        out.push(c);
        j = j + 1;
    }
    out
}

/// Copies a rendered tile into its range of the framebuffer, touching no
/// pixel outside that range.
fn write_tile(fb: &mut Vec<u32>, tile: usize, buf: &Vec<u32>)
    requires
        old(fb)@.len() == FB_PIXELS,
        tile < NUM_TILES,
        buf@.len() == TILE_PIXELS,
    ensures
        final(fb)@.len() == FB_PIXELS,
        forall|j: int| 0 <= j < TILE_PIXELS ==> final(fb)@[tile_start(tile as int) + j] == buf@[j],
        forall|p: int|
            0 <= p < FB_PIXELS && !(tile_start(tile as int) <= p < tile_start(tile as int)
                + TILE_PIXELS) ==> final(fb)@[p] == old(fb)@[p],
{
    let base: usize = tile * TILE_PIXELS;
    let mut j: usize = 0;
    while j < TILE_PIXELS
        invariant
            j <= TILE_PIXELS,
            tile < NUM_TILES,
            base == tile * TILE_PIXELS,
            buf@.len() == TILE_PIXELS,
            fb@.len() == FB_PIXELS,
            forall|i: int| 0 <= i < j ==> fb@[tile_start(tile as int) + i] == buf@[i],
            forall|p: int|
                0 <= p < FB_PIXELS && !(tile_start(tile as int) <= p < tile_start(tile as int)
                    + j) ==> fb@[p] == old(fb)@[p],
        decreases TILE_PIXELS - j,
    {
        fb.set(base + j, buf[j]);
        j = j + 1;
    }
}

/// Renders one full frame in place, tile by tile: every pixel of the
/// framebuffer is overwritten with exactly the color `pixel_spec` owes it.
/// Total: it cannot fail.
pub fn render_frame(vt: &ViewTransform, mode: ColorMode, fb: &mut Vec<u32>)
    requires
        vt.wf(),
        old(fb)@.len() == FB_PIXELS,
    ensures
        final(fb)@.len() == FB_PIXELS,
        forall|p: int| 0 <= p < FB_PIXELS ==> final(fb)@[p] == pixel_spec(*vt, mode, p),
{
    let mut t: usize = 0;
    while t < NUM_TILES
        invariant
            t <= NUM_TILES,
            vt.wf(),
            fb@.len() == FB_PIXELS,
            forall|p: int| 0 <= p < tile_start(t as int) ==> fb@[p] == pixel_spec(*vt, mode, p),
        decreases NUM_TILES - t,
    {
        let buf: Vec<u32> = render_tile(t, vt, mode);
        write_tile(fb, t, &buf);
        proof {
            assert forall|p: int| 0 <= p < tile_start(t as int + 1) implies fb@[p] == pixel_spec(
                *vt,
                mode,
                p,
            ) by {
                if tile_start(t as int) <= p {
                    let j = p - tile_start(t as int);
                    assert(fb@[tile_start(t as int) + j] == buf@[j]);
                    assert(buf@[j] == pixel_spec(*vt, mode, tile_start(t as int) + j));
                }
            }
        }
        t = t + 1;
    }
}

/// Computes every tile of a frame on a worker pool and hands them back in
/// tile order, joining on all of them first.
///
/// Relies on rayon: a parallel iterator over the range of tile indices,
/// mapped and collected into a `Vec`, yields exactly the image of each
/// index, in index order (`collect` on an indexed parallel iterator is
/// documented to place every item at its index), and `collect` returns only
/// after every worker has finished its tiles.  Each item is computed by the
/// verified `render_tile`, whose contract gives the clauses below.
#[verifier::external_body]
fn par_tiles(vt: &ViewTransform, mode: ColorMode) -> (tiles: Vec<Vec<u32>>)
    requires
        vt.wf(),
    ensures
        tiles@.len() == NUM_TILES,
        forall|t: int| 0 <= t < NUM_TILES ==> tiles@[t]@.len() == TILE_PIXELS,
        forall|t: int, j: int|
            0 <= t < NUM_TILES && 0 <= j < TILE_PIXELS ==> tiles@[t]@[j] == pixel_spec(
                *vt,
                mode,
                tile_start(t) + j,
            ),
{
    (0..NUM_TILES).into_par_iter().map(|t| render_tile(t, vt, mode)).collect()
}

/// Renders one full frame in place like [`render_frame`], but computes the
/// tiles in parallel: the frame produced is pixel-for-pixel the same.
pub fn render_frame_parallel(vt: &ViewTransform, mode: ColorMode, fb: &mut Vec<u32>)
    requires
        vt.wf(),
        old(fb)@.len() == FB_PIXELS,
    ensures
        final(fb)@.len() == FB_PIXELS,
        forall|p: int| 0 <= p < FB_PIXELS ==> final(fb)@[p] == pixel_spec(*vt, mode, p),
{
    let tiles: Vec<Vec<u32>> = par_tiles(vt, mode);
    let mut t: usize = 0;
    while t < NUM_TILES
        invariant
            t <= NUM_TILES,
            vt.wf(),
            fb@.len() == FB_PIXELS,
            tiles@.len() == NUM_TILES,
            forall|i: int| 0 <= i < NUM_TILES ==> tiles@[i]@.len() == TILE_PIXELS,
            forall|i: int, j: int|
                0 <= i < NUM_TILES && 0 <= j < TILE_PIXELS ==> tiles@[i]@[j] == pixel_spec(
                    *vt,
                    mode,
                    tile_start(i) + j,
                ),
            forall|p: int| 0 <= p < tile_start(t as int) ==> fb@[p] == pixel_spec(*vt, mode, p),
        decreases NUM_TILES - t,
    {
        write_tile(fb, t, &tiles[t]);
        proof {
            assert forall|p: int| 0 <= p < tile_start(t as int + 1) implies fb@[p] == pixel_spec(
                *vt,
                mode,
                p,
            ) by {
                if tile_start(t as int) <= p {
                    let j = p - tile_start(t as int);
                    assert(fb@[tile_start(t as int) + j] == tiles@[t as int]@[j]);
                    assert(tiles@[t as int]@[j] == pixel_spec(*vt, mode, tile_start(t as int) + j));
                }
            }
        }
        t = t + 1;
    }
}

/// Partition law of the tiling: the frame is cut into exactly `NUM_TILES`
/// tiles of `TILE_PIXELS` pixels each, the tiles' pixel ranges are pairwise
/// disjoint, and together they cover every pixel index of the frame.
pub proof fn lemma_tile_partition()
    ensures
        (NUM_TILES as int) * (TILE_PIXELS as int) == FB_PIXELS,
        forall|t: int|
            0 <= t < NUM_TILES ==> 0 <= #[trigger] tile_start(t) && tile_start(t) + TILE_PIXELS
                <= FB_PIXELS,
        forall|s: int, t: int|
            0 <= s < t < NUM_TILES ==> #[trigger] tile_start(s) + TILE_PIXELS <= #[trigger] tile_start(t),
        forall|p: int|
            0 <= p < FB_PIXELS ==> #[trigger] tile_start(p / (TILE_PIXELS as int)) <= p
                && p < tile_start(p / (TILE_PIXELS as int)) + TILE_PIXELS
                && 0 <= p / (TILE_PIXELS as int) < NUM_TILES,
{
    assert forall|p: int| 0 <= p < FB_PIXELS implies #[trigger] tile_start(
        p / (TILE_PIXELS as int),
    ) <= p && p < tile_start(p / (TILE_PIXELS as int)) + TILE_PIXELS && 0 <= p / (
    TILE_PIXELS as int) < NUM_TILES by {
        vstd::arithmetic::div_mod::lemma_fundamental_div_mod(p, TILE_PIXELS as int);
    }
}

/// Determinism law of the renderer: any two framebuffers that satisfy
/// `render_frame`'s postcondition for the same view transform and color
/// mode are pixel-for-pixel identical.
pub proof fn lemma_render_deterministic(
    a: Seq<u32>,
    b: Seq<u32>,
    vt: ViewTransform,
    mode: ColorMode,
)
    requires
        a.len() == FB_PIXELS,
        b.len() == FB_PIXELS,
        forall|p: int| 0 <= p < FB_PIXELS ==> a[p] == pixel_spec(vt, mode, p),
        forall|p: int| 0 <= p < FB_PIXELS ==> b[p] == pixel_spec(vt, mode, p),
    ensures
        a == b,
{
    assert(a =~= b);
}

} // verus!
