//! The wall pass: marching one ray across the map, and drawing the textured
//! wall strip where it stopped.

use crate::error::RenderError;
use crate::framebuffer::{FrameView, Framebuffer};
use crate::grid::{GridMap, GridView};
use crate::texture::Texture;
use vstd::prelude::*;

verus! {

/// The colour of the dots that show on the overhead map where a ray went:
/// an opaque light grey.
pub const CONE_COLOR: u32 = 0xFFA0_A0A0;

/// One step of a ray, as far as the wall pass needs it: the pixel of the
/// overhead map that shows it, the cell of the map that it lies in, and
/// what the wall looks like if the ray meets one at this step. `depth` is
/// the distance of that wall from the viewer on the scale of the depth
/// buffer, `height` the number of rows of the screen that it covers, and
/// `offset` how far the step lies from the nearest grid line, in texture
/// pixels.
#[derive(Debug, Clone, Copy, PartialEq, Eq, Structural)]
pub struct RaySample {
    pub px: usize,
    pub py: usize,
    pub cell_x: u32,
    pub cell_y: u32,
    pub depth: u32,
    pub height: u32,
    pub offset: i32,
}

/// Where a ray met a wall: the step at which it did, and the wall's texture.
#[derive(Debug, Clone, Copy, PartialEq, Eq, Structural)]
pub struct RayHit {
    pub step: usize,
    pub tex_id: u32,
}

/// The ray goes on past this step: its dot can be drawn and its cell is
/// empty floor.
pub open spec fn passes(f: FrameView, g: GridView, s: RaySample) -> bool {
    f.in_bounds(s.px as int, s.py as int) && g.is_empty(s.cell_x as int, s.cell_y as int)
}

/// The first step at or after `from` that the ray does not pass, or the
/// number of steps if it passes them all.
pub open spec fn first_stop_from(f: FrameView, g: GridView, samples: Seq<RaySample>, from: int) -> int
    decreases samples.len() - from,
{
    if from < 0 || from >= samples.len() || !passes(f, g, samples[from]) {
        from
    } else {
        first_stop_from(f, g, samples, from + 1)
    }
}

/// The first step that the ray does not pass, or the number of steps if it
/// passes them all.
pub open spec fn first_stop(f: FrameView, g: GridView, samples: Seq<RaySample>) -> int {
    first_stop_from(f, g, samples, 0)
}

/// The first stop of a ray is one of its steps, or the number of its steps.
pub proof fn lemma_first_stop_bounds(f: FrameView, g: GridView, samples: Seq<RaySample>, from: int)
    requires
        0 <= from <= samples.len(),
    ensures
        from <= first_stop_from(f, g, samples, from) <= samples.len(),
    decreases samples.len() - from,
{
    if from < samples.len() && passes(f, g, samples[from]) {
        lemma_first_stop_bounds(f, g, samples, from + 1);
    }
}

/// `n` is the first stop of a ray if the ray passes every step before `n`
/// and does not pass step `n`.
pub proof fn lemma_first_stop(f: FrameView, g: GridView, samples: Seq<RaySample>, n: int)
    requires
        0 <= n <= samples.len(),
        forall|k: int| 0 <= k < n ==> passes(f, g, #[trigger] samples[k]),
        n < samples.len() ==> !passes(f, g, samples[n]),
    ensures
        first_stop(f, g, samples) == n,
{
    lemma_first_stop_from(f, g, samples, 0, n);
}

proof fn lemma_first_stop_from(
    f: FrameView,
    g: GridView,
    samples: Seq<RaySample>,
    from: int,
    n: int,
)
    requires
        0 <= from <= n <= samples.len(),
        forall|k: int| from <= k < n ==> passes(f, g, #[trigger] samples[k]),
        n < samples.len() ==> !passes(f, g, samples[n]),
    ensures
        first_stop_from(f, g, samples, from) == n,
    decreases n - from,
{
    if from < n {
        lemma_first_stop_from(f, g, samples, from + 1, n);
    }
}

/// The raster target after the dots of the first `n` steps were drawn, in
/// order.
pub open spec fn with_dots(f: FrameView, samples: Seq<RaySample>, n: nat) -> FrameView
    decreases n,
{
    if n == 0 {
        f
    } else {
        with_dots(f, samples, (n - 1) as nat).set_pixel(
            samples[n - 1].px as int,
            samples[n - 1].py as int,
            CONE_COLOR,
        )
    }
}

/// Drawing dots keeps the dimensions of the target.
pub proof fn lemma_with_dots_dims(f: FrameView, samples: Seq<RaySample>, n: nat)
    requires
        f.wf(),
    ensures
        with_dots(f, samples, n).w == f.w,
        with_dots(f, samples, n).h == f.h,
        with_dots(f, samples, n).wf(),
    decreases n,
{
    if n > 0 {
        let prev = with_dots(f, samples, (n - 1) as nat);
        lemma_with_dots_dims(f, samples, (n - 1) as nat);
        let x = samples[n - 1].px as int;
        let y = samples[n - 1].py as int;
        if prev.in_bounds(x, y) {
            crate::framebuffer::lemma_pixel_index(prev.w as int, prev.h as int, x, y);
        }
    }
}

/// After the dots of the first `n` steps were drawn, a pixel holds the dot
/// colour if one of those steps shows there, and what it held before if
/// none does.
pub proof fn lemma_with_dots_pixel(f: FrameView, samples: Seq<RaySample>, n: nat, x: int, y: int)
    requires
        f.wf(),
        f.in_bounds(x, y),
        n <= samples.len(),
    ensures
        with_dots(f, samples, n).wf(),
        with_dots(f, samples, n).pixel(x, y) == if exists|k: int|
            0 <= k < n && #[trigger] samples[k].px == x && samples[k].py == y {
            CONE_COLOR
        } else {
            f.pixel(x, y)
        },
    decreases n,
{
    if n > 0 {
        let m = (n - 1) as nat;
        let prev = with_dots(f, samples, m);
        lemma_with_dots_pixel(f, samples, m, x, y);
        lemma_with_dots_dims(f, samples, m);
        crate::framebuffer::lemma_set_pixel(
            prev,
            samples[m as int].px as int,
            samples[m as int].py as int,
            CONE_COLOR,
            x,
            y,
        );
        if samples[m as int].px == x && samples[m as int].py == y {
        } else if exists|k: int| 0 <= k < n && #[trigger] samples[k].px == x && samples[k].py == y {
            let k = choose|k: int| 0 <= k < n && #[trigger] samples[k].px == x && samples[k].py == y;
            assert(0 <= k < m && samples[k].px == x && samples[k].py == y);
        }
    }
}

/// How the march of a ray ends. It stops at the first step whose dot cannot
/// be drawn or whose cell is not empty floor. There it fails if the dot lies
/// outside the target or the cell outside the map, and else has met a wall.
/// A ray that passes every step meets none.
pub open spec fn march(f: FrameView, g: GridView, samples: Seq<RaySample>) -> Result<
    Option<RayHit>,
    RenderError,
> {
    let n = first_stop(f, g, samples);
    if n >= samples.len() {
        Ok(None)
    } else if !f.in_bounds(samples[n].px as int, samples[n].py as int) {
        Err(RenderError::PixelOutOfBounds)
    } else {
        match g.get(samples[n].cell_x as int, samples[n].cell_y as int) {
            Some(tex_id) => Ok(Some(RayHit { step: n as usize, tex_id })),
            None => Err(RenderError::CellOutOfBounds),
        }
    }
}

/// The number of dots that the march of a ray draws: one for each step up
/// to and with the one where it stops, but none for a step whose dot lies
/// outside the target.
pub open spec fn march_dots(f: FrameView, g: GridView, samples: Seq<RaySample>) -> nat {
    let n = first_stop(f, g, samples);
    if n < samples.len() && f.in_bounds(samples[n].px as int, samples[n].py as int) {
        (n + 1) as nat
    } else {
        n as nat
    }
}

/// Marches a ray over the map, step by step. Each step draws its dot on the
/// overhead map and then looks at its cell; the march ends at the first
/// cell that is not empty floor, which is the wall that the ray has met.
pub fn cast_ray(fb: &mut Framebuffer, map: &GridMap, samples: &[RaySample]) -> (r: Result<
    Option<RayHit>,
    RenderError,
>)
    requires
        old(fb).wf(),
        map.wf(),
    ensures
        final(fb).wf(),
        r == march(old(fb)@, map@, samples@),
        final(fb)@ == with_dots(old(fb)@, samples@, march_dots(old(fb)@, map@, samples@)),
        r matches Ok(Some(hit)) ==> hit.step < samples@.len(),
{
    let ghost f = fb@;
    let ghost g = map@;
    let mut n: usize = 0;
    while n < samples.len()
        invariant
            n <= samples@.len(),
            fb.wf(),
            map.wf(),
            map@ == g,
            old(fb)@ == f,
            fb@.w == f.w,
            fb@.h == f.h,
            first_stop(f, g, samples@) == first_stop_from(f, g, samples@, n as int),
            fb@ == with_dots(f, samples@, n as nat),
        decreases samples@.len() - n,
    {
        let s = samples[n];
        match fb.set_pixel(s.px, s.py, CONE_COLOR) {
            Ok(()) => {},
            Err(_) => {
                return Err(RenderError::PixelOutOfBounds);
            },
        }
        if !map.is_empty(s.cell_x, s.cell_y) {
            return match map.get(s.cell_x, s.cell_y) {
                Some(tex_id) => Ok(Some(RayHit { step: n, tex_id })),
                None => Err(RenderError::CellOutOfBounds),
            };
        }
        n += 1;
    }
    Ok(None)
}

/// The texture column that a wall shows where a ray met it. `offset` is how
/// far the meeting point lies from the nearest grid line, in texture pixels
/// and rounded towards zero; an offset to the left of the line counts from
/// the far edge of the tile. `None` where that column is not in the tile.
pub open spec fn wall_x_texcoord_spec(offset: int, size: int) -> Option<int> {
    if 0 <= offset < size {
        Some(offset)
    } else if -size <= offset < 0 {
        Some(offset + size)
    } else {
        None
    }
}

/// A texture column is a column of the tile, and every offset of at most
/// half a tile to either side of a grid line has one.
pub proof fn lemma_texcoord_in_tile(offset: int, size: int)
    ensures
        wall_x_texcoord_spec(offset, size) matches Some(u) ==> 0 <= u < size,
        size >= 1 && -size <= 2 * offset <= size ==> wall_x_texcoord_spec(offset, size) is Some,
{
}

/// The column of the wall texture for a meeting point `offset` texture
/// pixels from the nearest grid line.
pub fn wall_x_texcoord(offset: i32, tex_walls: &Texture) -> (r: Option<u32>)
    ensures
        match r {
            Some(u) => wall_x_texcoord_spec(offset as int, tex_walls@.size as int) == Some(
                u as int,
            ),
            None => wall_x_texcoord_spec(offset as int, tex_walls@.size as int) is None,
        },
        r matches Some(u) ==> u < tex_walls@.size,
{
    let size: i64 = tex_walls.size() as i64;
    let x: i64 = offset as i64;
    let x = if x < 0 {
        x + size
    } else {
        x
    };
    if 0 <= x && x < size {
        Some(x as u32)
    } else {
        None
    }
}

/// The wall that one ray met, as the wall pass draws it: its texture, how
/// far away it is, how many rows of the screen it covers, and where across
/// the tile the ray met it.
#[derive(Debug, Clone, Copy, PartialEq, Eq, Structural)]
pub struct WallStrip {
    pub tex_id: u32,
    pub depth: u32,
    pub height: u32,
    pub offset: i32,
}

/// The pixels of a wall strip from top to bottom, or `None` where the atlas
/// has no such tile or the tile no such column.
pub open spec fn strip_pixels(t: crate::texture::AtlasView, strip: WallStrip) -> Option<Seq<u32>> {
    if strip.tex_id < t.count {
        match wall_x_texcoord_spec(strip.offset as int, t.size as int) {
            Some(u) => Some(t.scaled_column(strip.tex_id as int, u, strip.height as nat)),
            None => None,
        }
    } else {
        None
    }
}

/// The row of a strip of `height` rows that shows in row `y` of a target of
/// `h` rows, the middle of the strip being at the middle of the target.
pub open spec fn strip_row(h: int, height: int, y: int) -> int {
    y - h / 2 + height / 2
}

/// The raster target with a strip drawn in column `x`, centred from top to
/// bottom; the rows of the strip that lie above or below the target are
/// dropped.
pub open spec fn with_strip(f: FrameView, x: int, strip: Seq<u32>) -> FrameView {
    FrameView {
        w: f.w,
        h: f.h,
        pixels: Seq::new(
            f.pixels.len(),
            |k: int|
                {
                    let j = strip_row(f.h as int, strip.len() as int, k / (f.w as int));
                    if k % (f.w as int) == x && 0 <= j < strip.len() {
                        strip[j]
                    } else {
                        f.pixels[k]
                    }
                },
        ),
    }
}

/// Drawing a strip changes the pixels of its column that a row of the strip
/// shows in, and no others.
pub proof fn lemma_with_strip(f: FrameView, x: int, strip: Seq<u32>, px: int, py: int)
    requires
        f.wf(),
        f.in_bounds(px, py),
    ensures
        with_strip(f, x, strip).wf(),
        with_strip(f, x, strip).pixel(px, py) == {
            let j = strip_row(f.h as int, strip.len() as int, py);
            if px == x && 0 <= j < strip.len() {
                strip[j]
            } else {
                f.pixel(px, py)
            }
        },
{
    crate::framebuffer::lemma_pixel_index(f.w as int, f.h as int, px, py);
}

/// Draws the wall that the ray of screen column `column` met, and records
/// how far away it is. The view takes the right half of the target, so the
/// strip is drawn `w / 2` pixels to the right of `column`. Nothing is drawn
/// or recorded where the atlas lacks the texture.
pub fn draw_wall_column(
    fb: &mut Framebuffer,
    tex_walls: &Texture,
    depth_buffer: &mut Vec<u32>,
    column: usize,
    strip: &WallStrip,
) -> (r: Result<(), RenderError>)
    requires
        old(fb).wf(),
        tex_walls.wf(),
        old(depth_buffer)@.len() == old(fb)@.w / 2,
        column < old(fb)@.w / 2,
    ensures
        final(fb).wf(),
        match strip_pixels(tex_walls@, *strip) {
            Some(pixels) => {
                &&& r == Ok::<(), RenderError>(())
                &&& final(fb)@ == with_strip(old(fb)@, column + old(fb)@.w / 2, pixels)
                &&& final(depth_buffer)@ == old(depth_buffer)@.update(column as int, strip.depth)
            },
            None => {
                &&& r == Err::<(), RenderError>(RenderError::TextureOutOfBounds)
                &&& final(fb)@ == old(fb)@
                &&& final(depth_buffer)@ == old(depth_buffer)@
            },
        },
{
    if strip.tex_id >= tex_walls.count() {
        return Err(RenderError::TextureOutOfBounds);
    }
    let u = match wall_x_texcoord(strip.offset, tex_walls) {
        Some(u) => u,
        None => {
            return Err(RenderError::TextureOutOfBounds);
        },
    };
    depth_buffer[column] = strip.depth;
    let ghost f = fb@;
    let ghost t = tex_walls@;
    let ghost pixels = t.scaled_column(strip.tex_id as int, u as int, strip.height as nat);
    let w = fb.width();
    let h = fb.height();
    let x = column + w / 2;
    let height = strip.height;
    let size = tex_walls.size();
    let half_h: usize = h / 2;
    let half_c: usize = (height / 2) as usize;
    let mut j: u32 = 0;
    let mut y: usize = 0;
    if half_c <= half_h {
        y = half_h - half_c;
    } else {
        j = (half_c - half_h) as u32;
    }
    let ghost first = j as int;
    proof {
        tex_walls.lemma_wf();
        assert(fb@.pixels =~= f.pixels);
    }
    while j < height && y < h
        invariant
            fb.wf(),
            tex_walls.wf(),
            t == tex_walls@,
            t.wf(),
            f.wf(),
            fb@.w == f.w,
            fb@.h == f.h,
            w == f.w,
            h == f.h,
            x < w,
            size == t.size,
            strip.tex_id < t.count,
            u < t.size,
            height == strip.height,
            pixels == t.scaled_column(strip.tex_id as int, u as int, height as nat),
            j <= height,
            y <= h,
            j == strip_row(h as int, height as int, y as int),
            first <= j,
            first == 0 || first == strip_row(h as int, height as int, 0),
            forall|k: int|
                0 <= k < f.pixels.len() ==> #[trigger] fb@.pixels[k] == {
                    let row = strip_row(h as int, height as int, k / (w as int));
                    if k % (w as int) == x && first <= row < j {
                        pixels[row]
                    } else {
                        f.pixels[k]
                    }
                },
        decreases height - j,
    {
        proof {
            crate::texture::lemma_source_row_in_tile(size as int, j as int, height as int);
            assert(0 <= j * size <= u32::MAX * u32::MAX) by (nonlinear_arith)
                requires
                    0 <= j <= u32::MAX,
                    0 <= size <= u32::MAX,
            ;
        }
        let row = ((j as u64 * size as u64) / (height as u64)) as u32;
        let color = tex_walls.get(u, row, strip.tex_id).unwrap();
        let ghost prev = fb@;
        let drawn = fb.set_pixel(x, y, color);
        proof {
            crate::framebuffer::lemma_pixel_index(w as int, h as int, x as int, y as int);
            assert forall|k: int| 0 <= k < f.pixels.len() implies #[trigger] fb@.pixels[k] == {
                let row = strip_row(h as int, height as int, k / (w as int));
                if k % (w as int) == x && first <= row < j + 1 {
                    pixels[row]
                } else {
                    f.pixels[k]
                }
            } by {
                crate::framebuffer::lemma_index_pixel(w as int, h as int, k);
                assert(fb@.pixels[k] == if k == x + y * w {
                    color
                } else {
                    prev.pixels[k]
                });
            }
        }
        j += 1;
        y += 1;
    }
    proof {
        let target = with_strip(f, x as int, pixels);
        assert forall|k: int| 0 <= k < f.pixels.len() implies fb@.pixels[k] == target.pixels[k] by {
            crate::framebuffer::lemma_index_pixel(w as int, h as int, k);
        }
        assert(fb@.pixels =~= target.pixels);
    }
    Ok(())
}

} // verus!
