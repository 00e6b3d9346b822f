//! The overhead map: the left half of the raster target shows the tile map
//! from above, each wall cell as a block in the colour of its texture.

use crate::error::RenderError;
use crate::framebuffer::{FrameView, Framebuffer};
use crate::grid::{GridMap, GridView};
use crate::texture::{Texture, AtlasView};
use vstd::prelude::*;

verus! {

/// The width in pixels of one cell on the overhead map: the cells of a row
/// share the left half of the target.
pub open spec fn cell_width(f: FrameView, g: GridView) -> int {
    (f.w as int) / (2 * (g.w as int))
}

/// The height in pixels of one cell on the overhead map: the rows of the map
/// share the height of the target.
pub open spec fn cell_height(f: FrameView, g: GridView) -> int {
    (f.h as int) / (g.h as int)
}

/// The atlas has a tile for every wall of the map.
pub open spec fn walls_have_textures(g: GridView, t: AtlasView) -> bool {
    forall|i: int, j: int| #[trigger] g.get(i, j) matches Some(id) ==> id < t.count
}

/// What the pixel at `(x, y)` holds once the overhead map is drawn: the
/// first pixel of the texture of the wall whose block covers it, or what it
/// held before where no wall's block does.
pub open spec fn map_pixel(f: FrameView, g: GridView, t: AtlasView, x: int, y: int) -> u32 {
    let cw = cell_width(f, g);
    let ch = cell_height(f, g);
    if cw > 0 && ch > 0 {
        match g.get(x / cw, y / ch) {
            Some(id) => t.pixel(0, 0, id as int),
            None => f.pixel(x, y),
        }
    } else {
        f.pixel(x, y)
    }
}

/// The raster target with the overhead map drawn over it.
pub open spec fn with_map(f: FrameView, g: GridView, t: AtlasView) -> FrameView {
    FrameView {
        w: f.w,
        h: f.h,
        pixels: Seq::new(
            f.pixels.len(),
            |k: int| map_pixel(f, g, t, k % (f.w as int), k / (f.w as int)),
        ),
    }
}

/// Every pixel of the target with the overhead map drawn is as `map_pixel`
/// says.
pub proof fn lemma_with_map(f: FrameView, g: GridView, t: AtlasView, x: int, y: int)
    requires
        f.wf(),
        f.in_bounds(x, y),
    ensures
        with_map(f, g, t).wf(),
        with_map(f, g, t).pixel(x, y) == map_pixel(f, g, t, x, y),
{
    crate::framebuffer::lemma_pixel_index(f.w as int, f.h as int, x, y);
}

/// A pixel lies in the block of cell `i`, counted along one axis, exactly
/// if dividing its coordinate by the cell size gives `i`.
pub proof fn lemma_block_of_pixel(x: int, d: int, i: int)
    requires
        d > 0,
    ensures
        (i * d <= x < i * d + d) <==> x / d == i,
{
    vstd::arithmetic::div_mod::lemma_fundamental_div_mod(x, d);
    vstd::arithmetic::div_mod::lemma_mod_bound(x, d);
    assert(d * (x / d) == (x / d) * d) by (nonlinear_arith);
    if i * d <= x < i * d + d {
        assert(x == i * d + (x - i * d));
        vstd::arithmetic::div_mod::lemma_fundamental_div_mod_converse(x, d, i, x - i * d);
    }
}

/// The blocks of the map's cells lie inside the target.
proof fn lemma_block_in_target(size: int, cells: int, i: int)
    requires
        0 <= size,
        0 < cells,
        0 <= i < cells,
    ensures
        0 <= size / cells,
        0 <= i * (size / cells),
        i * (size / cells) + size / cells <= size,
{
    let d = size / cells;
    vstd::arithmetic::div_mod::lemma_fundamental_div_mod(size, cells);
    vstd::arithmetic::div_mod::lemma_mod_bound(size, cells);
    vstd::arithmetic::div_mod::lemma_div_pos_is_pos(size, cells);
    assert(0 <= i * d && i * d + d <= cells * d) by (nonlinear_arith)
        requires
            0 <= d,
            0 <= i,
            i + 1 <= cells,
    ;
}

/// The size in pixels of one cell on the overhead map, width first.
pub fn cell_size(fb: &Framebuffer, map: &GridMap) -> (size: (usize, usize))
    requires
        map.wf(),
    ensures
        size.0 == cell_width(fb@, map@),
        size.1 == cell_height(fb@, map@),
{
    let w: u64 = fb.width() as u64;
    let h: u64 = fb.height() as u64;
    let cw = w / (2 * (map.width() as u64));
    let ch = h / (map.height() as u64);
    proof {
        vstd::arithmetic::div_mod::lemma_div_is_ordered_by_denominator(
            w as int,
            1,
            2 * map@.w as int,
        );
        vstd::arithmetic::div_mod::lemma_div_is_ordered_by_denominator(h as int, 1, map@.h as int);
    }
    (cw as usize, ch as usize)
}

/// Whether the atlas has a tile for every wall of the map.
fn check_wall_textures(map: &GridMap, tex_walls: &Texture) -> (ok: bool)
    requires
        map.wf(),
    ensures
        ok == walls_have_textures(map@, tex_walls@),
{
    let count = tex_walls.count();
    let mut j: u32 = 0;
    while j < map.height()
        invariant
            map.wf(),
            count == tex_walls@.count,
            j <= map@.h,
            forall|a: int, b: int|
                0 <= b < j ==> (#[trigger] map@.get(a, b) matches Some(id) ==> id < count),
        decreases map@.h - j,
    {
        let mut i: u32 = 0;
        while i < map.width()
            invariant
                map.wf(),
                count == tex_walls@.count,
                j < map@.h,
                i <= map@.w,
                forall|a: int, b: int|
                    0 <= b < j ==> (#[trigger] map@.get(a, b) matches Some(id) ==> id < count),
                forall|a: int|
                    0 <= a < i ==> (#[trigger] map@.get(a, j as int) matches Some(id) ==> id
                        < count),
            decreases map@.w - i,
        {
            match map.get(i, j) {
                Some(id) => {
                    if id >= count {
                        return false;
                    }
                },
                None => {},
            }
            i += 1;
        }
        j += 1;
    }
    true
}

/// The cell at `(cx, cy)` comes before the cell at `(i, j)` when the map is
/// walked row by row.
spec fn walked(cx: int, cy: int, i: int, j: int) -> bool {
    cy < j || (cy == j && cx < i)
}

/// What a pixel holds while the overhead map is being drawn, the cells
/// before `(i, j)` done.
spec fn partial_map_pixel(
    f: FrameView,
    g: GridView,
    t: AtlasView,
    i: int,
    j: int,
    x: int,
    y: int,
) -> u32 {
    let cw = cell_width(f, g);
    let ch = cell_height(f, g);
    if walked(x / cw, y / ch, i, j) {
        map_pixel(f, g, t, x, y)
    } else {
        f.pixel(x, y)
    }
}

/// Draws the overhead map: for each wall cell a block in the colour of the
/// first pixel of its texture. Nothing is drawn where the atlas lacks the
/// texture of a wall.
pub fn draw_map(fb: &mut Framebuffer, map: &GridMap, tex_walls: &Texture) -> (r: Result<
    (),
    RenderError,
>)
    requires
        old(fb).wf(),
        map.wf(),
        tex_walls.wf(),
    ensures
        final(fb).wf(),
        walls_have_textures(map@, tex_walls@) ==> r == Ok::<(), RenderError>(()) && final(fb)@
            == with_map(old(fb)@, map@, tex_walls@),
        !walls_have_textures(map@, tex_walls@) ==> r == Err::<(), RenderError>(
            RenderError::TextureOutOfBounds,
        ) && final(fb)@ == old(fb)@,
{
    if !check_wall_textures(map, tex_walls) {
        return Err(RenderError::TextureOutOfBounds);
    }
    let ghost f = fb@;
    let ghost g = map@;
    let ghost t = tex_walls@;
    let (cw, ch) = cell_size(fb, map);
    let gw = map.width();
    let gh = map.height();
    let w = fb.width();
    let h = fb.height();
    proof {
        tex_walls.lemma_wf();
    }
    if cw == 0 || ch == 0 {
        proof {
            assert(with_map(f, g, t).pixels =~= f.pixels) by {
                assert forall|k: int| 0 <= k < f.pixels.len() implies with_map(f, g, t).pixels[k]
                    == f.pixels[k] by {
                    crate::framebuffer::lemma_index_pixel(f.w as int, f.h as int, k);
                }
            }
        }
        return Ok(());
    }
    proof {
        assert forall|k: int| 0 <= k < f.pixels.len() implies #[trigger] fb@.pixels[k]
            == partial_map_pixel(f, g, t, 0, 0, k % (f.w as int), k / (f.w as int)) by {
            crate::framebuffer::lemma_index_pixel(f.w as int, f.h as int, k);
            vstd::arithmetic::div_mod::lemma_div_pos_is_pos(k % (f.w as int), cw as int);
            vstd::arithmetic::div_mod::lemma_div_pos_is_pos(k / (f.w as int), ch as int);
        }
    }
    let mut j: u32 = 0;
    while j < gh
        invariant
            fb.wf(),
            map.wf(),
            tex_walls.wf(),
            f.wf(),
            t.wf(),
            g == map@,
            t == tex_walls@,
            walls_have_textures(g, t),
            fb@.w == f.w,
            fb@.h == f.h,
            w == f.w,
            h == f.h,
            gw == g.w,
            gh == g.h,
            cw == cell_width(f, g),
            ch == cell_height(f, g),
            cw > 0,
            ch > 0,
            j <= gh,
            forall|k: int|
                0 <= k < f.pixels.len() ==> #[trigger] fb@.pixels[k] == partial_map_pixel(
                    f,
                    g,
                    t,
                    0,
                    j as int,
                    k % (f.w as int),
                    k / (f.w as int),
                ),
        decreases gh - j,
    {
        let mut i: u32 = 0;
        while i < gw
            invariant
                fb.wf(),
                map.wf(),
                tex_walls.wf(),
                f.wf(),
                t.wf(),
                g == map@,
                t == tex_walls@,
                walls_have_textures(g, t),
                fb@.w == f.w,
                fb@.h == f.h,
                w == f.w,
                h == f.h,
                gw == g.w,
                gh == g.h,
                cw == cell_width(f, g),
                ch == cell_height(f, g),
                cw > 0,
                ch > 0,
                j < gh,
                i <= gw,
                forall|k: int|
                    0 <= k < f.pixels.len() ==> #[trigger] fb@.pixels[k] == partial_map_pixel(
                        f,
                        g,
                        t,
                        i as int,
                        j as int,
                        k % (f.w as int),
                        k / (f.w as int),
                    ),
            decreases gw - i,
        {
            let ghost prev = fb@;
            match map.get(i, j) {
                Some(id) => {
                    proof {
                        assert(id < t.count);
                        lemma_block_in_target(f.w as int / 2, g.w as int, i as int);
                        lemma_block_in_target(f.h as int, g.h as int, j as int);
                        vstd::arithmetic::div_mod::lemma_div_denominator(
                            f.w as int,
                            2,
                            g.w as int,
                        );
                        assert(cw == (f.w as int / 2) / (g.w as int));
                        assert(ch == (f.h as int) / (g.h as int));
                        assert(0 <= i * cw && i * cw + cw <= f.w);
                        assert(0 <= j * ch && j * ch + ch <= f.h);
                    }
                    let color = tex_walls.get(0, 0, id).unwrap();
                    let _ = fb.draw_rectangle(i as usize * cw, j as usize * ch, cw, ch, color);
                    proof {
                        assert forall|k: int| 0 <= k < f.pixels.len() implies #[trigger] fb@.pixels[k]
                            == partial_map_pixel(
                            f,
                            g,
                            t,
                            i + 1,
                            j as int,
                            k % (f.w as int),
                            k / (f.w as int),
                        ) by {
                            crate::framebuffer::lemma_index_pixel(f.w as int, f.h as int, k);
                            let x = k % (f.w as int);
                            let y = k / (f.w as int);
                            lemma_block_of_pixel(x, cw as int, i as int);
                            lemma_block_of_pixel(y, ch as int, j as int);
                            assert(prev.pixels[k] == partial_map_pixel(f, g, t, i as int, j as int, x, y));
                        }
                    }
                },
                None => {
                    proof {
                        assert forall|k: int| 0 <= k < f.pixels.len() implies #[trigger] fb@.pixels[k]
                            == partial_map_pixel(
                            f,
                            g,
                            t,
                            i + 1,
                            j as int,
                            k % (f.w as int),
                            k / (f.w as int),
                        ) by {
                            let x = k % (f.w as int);
                            let y = k / (f.w as int);
                            assert(prev.pixels[k] == partial_map_pixel(f, g, t, i as int, j as int, x, y));
                        }
                    }
                },
            }
            i += 1;
        }
        proof {
            assert forall|k: int| 0 <= k < f.pixels.len() implies #[trigger] fb@.pixels[k]
                == partial_map_pixel(
                f,
                g,
                t,
                0,
                j + 1,
                k % (f.w as int),
                k / (f.w as int),
            ) by {
                let x = k % (f.w as int);
                let y = k / (f.w as int);
                assert(fb@.pixels[k] == partial_map_pixel(f, g, t, gw as int, j as int, x, y));
                if x / (cw as int) >= gw && y / (ch as int) == j {
                    assert(g.get(x / (cw as int), y / (ch as int)) is None);
                }
            }
        }
        j += 1;
    }
    proof {
        assert forall|k: int| 0 <= k < f.pixels.len() implies fb@.pixels[k] == with_map(
            f,
            g,
            t,
        ).pixels[k] by {
            let x = k % (f.w as int);
            let y = k / (f.w as int);
            assert(fb@.pixels[k] == partial_map_pixel(f, g, t, 0, gh as int, x, y));
            if y / (ch as int) >= gh {
                assert(g.get(x / (cw as int), y / (ch as int)) is None);
            }
        }
        assert(fb@.pixels =~= with_map(f, g, t).pixels);
    }
    Ok(())
}

} // verus!
