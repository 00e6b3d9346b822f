//! One frame: the overhead map in the left half of the raster target, the
//! first-person view in the right half, walls first and sprites over them.
//!
//! The renderer works on whole numbers. Whoever calls it has followed each
//! ray step by step and has worked out where on the screen each sprite
//! stands; the renderer decides where each ray ends and draws.

use crate::error::RenderError;
use crate::framebuffer::{FrameView, Framebuffer};
use crate::grid::{GridMap, GridView};
use crate::overhead::{draw_map, walls_have_textures, with_map};
use crate::sprites::{
    first_missing, is_painters_order, render_sprites, with_marker, with_sprites, Sprite,
};
use crate::texture::{Texture, AtlasView};
use crate::walls::{
    cast_ray, draw_wall_column, march, march_dots, strip_pixels, with_dots, with_strip, RayHit,
    RaySample, WallStrip,
};
use vstd::prelude::*;

verus! {

/// The colour that a frame is cleared to before anything is drawn.
pub const BACKGROUND: u32 = 0xFF98_D1F9;

/// The wall strip of a ray that met a wall: the texture of the wall, and
/// what the step at which the ray met it says of the strip.
pub open spec fn hit_strip(samples: Seq<RaySample>, hit: RayHit) -> WallStrip {
    let s = samples[hit.step as int];
    WallStrip { tex_id: hit.tex_id, depth: s.depth, height: s.height, offset: s.offset }
}

/// The strip that a column of the view shows: the pixels of the wall that
/// its ray met, where it met one and the atlas has them.
pub open spec fn column_strip(f: FrameView, g: GridView, t: AtlasView, samples: Seq<RaySample>) -> Option<
    (WallStrip, Seq<u32>),
> {
    match march(f, g, samples) {
        Ok(Some(hit)) => match strip_pixels(t, hit_strip(samples, hit)) {
            Some(pixels) => Some((hit_strip(samples, hit), pixels)),
            None => None,
        },
        _ => None,
    }
}

/// How drawing one column of the view ends: as the march of its ray, and
/// with a failure where the ray met a wall whose texture the atlas lacks.
pub open spec fn column_result(
    f: FrameView,
    g: GridView,
    t: AtlasView,
    samples: Seq<RaySample>,
) -> Result<(), RenderError> {
    match march(f, g, samples) {
        Err(e) => Err(e),
        Ok(None) => Ok(()),
        Ok(Some(hit)) => if strip_pixels(t, hit_strip(samples, hit)) is Some {
            Ok(())
        } else {
            Err(RenderError::TextureOutOfBounds)
        },
    }
}

/// The raster target after one column of the view was drawn: the dots of
/// its ray on the overhead map, and its wall strip in the view.
pub open spec fn column_frame(
    f: FrameView,
    g: GridView,
    t: AtlasView,
    samples: Seq<RaySample>,
    column: int,
) -> FrameView {
    let dotted = with_dots(f, samples, march_dots(f, g, samples));
    match column_strip(f, g, t, samples) {
        Some((_, pixels)) => with_strip(dotted, column + f.w / 2, pixels),
        None => dotted,
    }
}

/// The depth buffer after one column of the view was drawn: the depth of
/// the wall strip recorded, where there is one.
pub open spec fn column_depth(
    f: FrameView,
    g: GridView,
    t: AtlasView,
    samples: Seq<RaySample>,
    column: int,
    depth: Seq<u32>,
) -> Seq<u32> {
    match column_strip(f, g, t, samples) {
        Some((strip, _)) => depth.update(column, strip.depth),
        None => depth,
    }
}

/// Drawing a column keeps the dimensions of the target.
pub proof fn lemma_column_frame_dims(
    f: FrameView,
    g: GridView,
    t: AtlasView,
    samples: Seq<RaySample>,
    column: int,
)
    requires
        f.wf(),
    ensures
        column_frame(f, g, t, samples, column).w == f.w,
        column_frame(f, g, t, samples, column).h == f.h,
        column_frame(f, g, t, samples, column).wf(),
{
    crate::walls::lemma_with_dots_dims(f, samples, march_dots(f, g, samples));
}

/// Draws one column of the view: marches its ray across the map, and draws
/// the wall that it met.
pub fn render_column(
    fb: &mut Framebuffer,
    map: &GridMap,
    tex_walls: &Texture,
    depth_buffer: &mut Vec<u32>,
    column: usize,
    samples: &[RaySample],
) -> (r: Result<(), RenderError>)
    requires
        old(fb).wf(),
        map.wf(),
        tex_walls.wf(),
        old(depth_buffer)@.len() == old(fb)@.w / 2,
        column < old(fb)@.w / 2,
    ensures
        final(fb).wf(),
        r == column_result(old(fb)@, map@, tex_walls@, samples@),
        final(fb)@ == column_frame(old(fb)@, map@, tex_walls@, samples@, column as int),
        final(depth_buffer)@ == column_depth(
            old(fb)@,
            map@,
            tex_walls@,
            samples@,
            column as int,
            old(depth_buffer)@,
        ),
{
    proof {
        crate::walls::lemma_with_dots_dims(
            fb@,
            samples@,
            march_dots(fb@, map@, samples@),
        );
    }
    match cast_ray(fb, map, samples) {
        Err(e) => Err(e),
        Ok(None) => Ok(()),
        Ok(Some(hit)) => {
            let s = samples[hit.step];
            let strip = WallStrip {
                tex_id: hit.tex_id,
                depth: s.depth,
                height: s.height,
                offset: s.offset,
            };
            draw_wall_column(fb, tex_walls, depth_buffer, column, &strip)
        },
    }
}

/// The raster target after the first `n` columns of the view were drawn.
pub open spec fn walls_frame(
    f: FrameView,
    g: GridView,
    t: AtlasView,
    rays: Seq<Vec<RaySample>>,
    n: nat,
) -> FrameView
    decreases n,
{
    if n == 0 {
        f
    } else {
        column_frame(walls_frame(f, g, t, rays, (n - 1) as nat), g, t, rays[n - 1]@, n - 1)
    }
}

/// The depth buffer after the first `n` columns of the view were drawn.
pub open spec fn walls_depth(
    f: FrameView,
    g: GridView,
    t: AtlasView,
    rays: Seq<Vec<RaySample>>,
    depth: Seq<u32>,
    n: nat,
) -> Seq<u32>
    decreases n,
{
    if n == 0 {
        depth
    } else {
        column_depth(
            walls_frame(f, g, t, rays, (n - 1) as nat),
            g,
            t,
            rays[n - 1]@,
            n - 1,
            walls_depth(f, g, t, rays, depth, (n - 1) as nat),
        )
    }
}

/// Drawing columns keeps the dimensions of the target and the length of
/// the depth buffer.
pub proof fn lemma_walls_dims(
    f: FrameView,
    g: GridView,
    t: AtlasView,
    rays: Seq<Vec<RaySample>>,
    depth: Seq<u32>,
    n: nat,
)
    requires
        f.wf(),
        n <= depth.len(),
    ensures
        walls_frame(f, g, t, rays, n).w == f.w,
        walls_frame(f, g, t, rays, n).h == f.h,
        walls_frame(f, g, t, rays, n).wf(),
        walls_depth(f, g, t, rays, depth, n).len() == depth.len(),
    decreases n,
{
    if n > 0 {
        lemma_walls_dims(f, g, t, rays, depth, (n - 1) as nat);
        lemma_column_frame_dims(walls_frame(f, g, t, rays, (n - 1) as nat), g, t, rays[n - 1]@, n - 1);
    }
}

/// The depth buffer holds for each column that was drawn the depth of the
/// wall that its own ray met, and what it held before for a column whose
/// ray met none and for a column not yet drawn.
pub proof fn lemma_depth_of_column(
    f: FrameView,
    g: GridView,
    t: AtlasView,
    rays: Seq<Vec<RaySample>>,
    depth: Seq<u32>,
    n: nat,
    c: int,
)
    requires
        f.wf(),
        n <= depth.len(),
        0 <= c < depth.len(),
    ensures
        walls_depth(f, g, t, rays, depth, n)[c] == if c < n {
            match column_strip(walls_frame(f, g, t, rays, c as nat), g, t, rays[c]@) {
                Some((strip, _)) => strip.depth,
                None => depth[c],
            }
        } else {
            depth[c]
        },
    decreases n,
{
    if n > 0 {
        let m = (n - 1) as nat;
        lemma_depth_of_column(f, g, t, rays, depth, m, c);
        lemma_walls_dims(f, g, t, rays, depth, m);
    }
}

/// Column `k` of the view cannot be drawn, the columns before it drawn.
pub open spec fn column_fails(
    f: FrameView,
    g: GridView,
    t: AtlasView,
    rays: Seq<Vec<RaySample>>,
    k: int,
) -> bool {
    column_result(walls_frame(f, g, t, rays, k as nat), g, t, rays[k]@) is Err
}

/// The first column at or after `from` that cannot be drawn, or the number
/// of columns if all can.
pub open spec fn first_failed_from(
    f: FrameView,
    g: GridView,
    t: AtlasView,
    rays: Seq<Vec<RaySample>>,
    from: int,
) -> int
    decreases rays.len() - from,
{
    if from < 0 || from >= rays.len() || column_fails(f, g, t, rays, from) {
        from
    } else {
        first_failed_from(f, g, t, rays, from + 1)
    }
}

/// The first column that cannot be drawn, or the number of columns if all
/// can.
pub open spec fn first_failed(
    f: FrameView,
    g: GridView,
    t: AtlasView,
    rays: Seq<Vec<RaySample>>,
) -> int {
    first_failed_from(f, g, t, rays, 0)
}

/// A depth buffer in which no column has a wall: every entry is `far`.
pub open spec fn empty_depth(columns: nat, far: u32) -> Seq<u32> {
    Seq::new(columns, |i: int| far)
}

/// The wall pass. Draws the columns of the view from left to right, one
/// ray for each, and hands back the depth buffer: for each column the depth
/// of its wall, or `far` where its ray met none. Stops at the first column
/// that cannot be drawn.
pub fn render_walls(
    fb: &mut Framebuffer,
    map: &GridMap,
    tex_walls: &Texture,
    rays: &Vec<Vec<RaySample>>,
    far: u32,
) -> (r: Result<Vec<u32>, RenderError>)
    requires
        old(fb).wf(),
        map.wf(),
        tex_walls.wf(),
        rays@.len() == old(fb)@.w / 2,
    ensures
        final(fb).wf(),
        final(fb)@.w == old(fb)@.w,
        final(fb)@.h == old(fb)@.h,
        ({
            let f = old(fb)@;
            let k = first_failed(f, map@, tex_walls@, rays@);
            if k >= rays@.len() {
                &&& r matches Ok(depth_buffer)
                &&& depth_buffer@ == walls_depth(
                    f,
                    map@,
                    tex_walls@,
                    rays@,
                    empty_depth(rays@.len(), far),
                    rays@.len(),
                )
                &&& depth_buffer@.len() == f.w / 2
                &&& final(fb)@ == walls_frame(f, map@, tex_walls@, rays@, rays@.len())
            } else {
                &&& r matches Err(e)
                &&& Err::<(), RenderError>(e) == column_result(
                    walls_frame(f, map@, tex_walls@, rays@, k as nat),
                    map@,
                    tex_walls@,
                    rays@[k]@,
                )
                &&& final(fb)@ == walls_frame(f, map@, tex_walls@, rays@, (k + 1) as nat)
            }
        }),
{
    let ghost f = fb@;
    let ghost g = map@;
    let ghost t = tex_walls@;
    let columns = rays.len();
    let mut depth_buffer: Vec<u32> = vec![far; columns];
    let ghost empty = empty_depth(columns as nat, far);
    assert(depth_buffer@ =~= empty);
    let mut n: usize = 0;
    while n < columns
        invariant
            n <= columns,
            columns == rays@.len(),
            columns == f.w / 2,
            fb.wf(),
            map.wf(),
            tex_walls.wf(),
            f.wf(),
            old(fb)@ == f,
            g == map@,
            t == tex_walls@,
            empty == empty_depth(columns as nat, far),
            fb@.w == f.w,
            fb@.h == f.h,
            depth_buffer@.len() == columns,
            fb@ == walls_frame(f, g, t, rays@, n as nat),
            depth_buffer@ == walls_depth(f, g, t, rays@, empty, n as nat),
            first_failed(f, g, t, rays@) == first_failed_from(f, g, t, rays@, n as int),
        decreases columns - n,
    {
        proof {
            lemma_column_frame_dims(fb@, g, t, rays@[n as int]@, n as int);
        }
        match render_column(fb, map, tex_walls, &mut depth_buffer, n, rays[n].as_slice()) {
            Ok(()) => {},
            Err(e) => {
                return Err(e);
            },
        }
        proof {
            lemma_walls_dims(f, g, t, rays@, empty, (n + 1) as nat);
        }
        n += 1;
    }
    Ok(depth_buffer)
}

/// Draws one frame. Clears the target, draws the overhead map, then the
/// walls column by column, then the sprites in painter's order, which are
/// left in that order. Stops at the first thing that cannot be drawn.
///
/// `rays` holds the ray of each column of the view, which is the right half
/// of the target; `far` is the depth of a column whose ray meets no wall.
pub fn render(
    fb: &mut Framebuffer,
    map: &GridMap,
    rays: &Vec<Vec<RaySample>>,
    far: u32,
    sprites: &mut Vec<Sprite>,
    tex_walls: &Texture,
    tex_monsters: &Texture,
) -> (r: Result<(), RenderError>)
    requires
        old(fb).wf(),
        map.wf(),
        tex_walls.wf(),
        tex_monsters.wf(),
        rays@.len() == old(fb)@.w / 2,
    ensures
        final(fb).wf(),
        final(fb)@.w == old(fb)@.w,
        final(fb)@.h == old(fb)@.h,
        ({
            let cleared = old(fb)@.clear(BACKGROUND);
            let mapped = with_map(cleared, map@, tex_walls@);
            let k = first_failed(mapped, map@, tex_walls@, rays@);
            let walled = walls_frame(mapped, map@, tex_walls@, rays@, rays@.len());
            let depth = walls_depth(
                mapped,
                map@,
                tex_walls@,
                rays@,
                empty_depth(rays@.len(), far),
                rays@.len(),
            );
            let sorted = final(sprites)@;
            let m = first_missing(walled, depth, tex_monsters@, sorted);
            if !walls_have_textures(map@, tex_walls@) {
                &&& r == Err::<(), RenderError>(RenderError::TextureOutOfBounds)
                &&& final(fb)@ == cleared
                &&& sorted == old(sprites)@
            } else if k < rays@.len() {
                &&& r == column_result(
                    walls_frame(mapped, map@, tex_walls@, rays@, k as nat),
                    map@,
                    tex_walls@,
                    rays@[k]@,
                )
                &&& r is Err
                &&& final(fb)@ == walls_frame(mapped, map@, tex_walls@, rays@, (k + 1) as nat)
                &&& sorted == old(sprites)@
            } else if m < sorted.len() {
                &&& r == Err::<(), RenderError>(RenderError::TextureOutOfBounds)
                &&& final(fb)@ == with_marker(
                    with_sprites(walled, depth, tex_monsters@, sorted, m as nat),
                    sorted[m],
                )
                &&& is_painters_order(old(sprites)@, sorted)
            } else {
                &&& r == Ok::<(), RenderError>(())
                &&& final(fb)@ == with_sprites(walled, depth, tex_monsters@, sorted, sorted.len())
                &&& is_painters_order(old(sprites)@, sorted)
            }
        }),
{
    fb.clear(BACKGROUND);
    match draw_map(fb, map, tex_walls) {
        Ok(()) => {},
        Err(e) => {
            return Err(e);
        },
    }
    let depth_buffer = match render_walls(fb, map, tex_walls, rays, far) {
        Ok(depth_buffer) => depth_buffer,
        Err(e) => {
            return Err(e);
        },
    };
    render_sprites(fb, &depth_buffer, sprites, tex_monsters)
}

} // verus!
