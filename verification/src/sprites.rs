//! The sprite pass: billboards drawn over the finished wall view, each
//! hidden where a wall stands nearer than it.

use crate::error::RenderError;
use crate::framebuffer::{FrameError, FrameView, Framebuffer};
use crate::texture::{Texture, AtlasView};
use crate::utils::{unpack_color, unpack_spec};
use vstd::prelude::*;

verus! {

/// The colour of a sprite's marker on the overhead map: opaque red.
pub const MARKER_COLOR: u32 = 0xFF00_00FF;

/// The width and height of a sprite's marker on the overhead map.
pub const MARKER_SIZE: usize = 6;

/// A texture pixel shows only if its alpha is above this.
pub const ALPHA_THRESHOLD: u8 = 128;

/// A billboard as the rasteriser sees it, its place on the screen worked
/// out. `id` is what the caller knows the sprite by; nothing is drawn from
/// it. `depth` is the distance to the viewer on the scale of the depth
/// buffer. The sprite covers a square of `size` by `size` pixels of the
/// view, centred from top to bottom, whose left edge is `h_offset` pixels
/// from the left edge of the view. `(map_x, map_y)` is the top left corner
/// of its marker on the overhead map.
#[derive(Debug, Clone, Copy, PartialEq, Eq, Structural)]
pub struct Sprite {
    pub id: usize,
    pub tex_id: u32,
    pub depth: u32,
    pub h_offset: i32,
    pub size: i32,
    pub map_x: usize,
    pub map_y: usize,
}

impl Sprite {
    /// A sprite with these values.
    pub fn new(
        id: usize,
        tex_id: u32,
        depth: u32,
        h_offset: i32,
        size: i32,
        map_x: usize,
        map_y: usize,
    ) -> (s: Sprite)
        ensures
            s == (Sprite { id, tex_id, depth, h_offset, size, map_x, map_y }),
    {
        Sprite { id, tex_id, depth, h_offset, size, map_x, map_y }
    }
}

/// The row of the target in which the top row of a sprite shows.
pub open spec fn sprite_top(f: FrameView, s: Sprite) -> int {
    (f.h as int) / 2 - (s.size as int) / 2
}

/// Pixel `(i, j)` of the sprite's square is drawn unless it is transparent:
/// it is a pixel of the square, its column lies in the view and its row in
/// the target, and no wall in its column is nearer than the sprite.
pub open spec fn sprite_visible(f: FrameView, depth: Seq<u32>, s: Sprite, i: int, j: int) -> bool {
    let col = s.h_offset + i;
    let row = sprite_top(f, s) + j;
    &&& 0 <= i < s.size
    &&& 0 <= j < s.size
    &&& 0 <= col < (f.w as int) / 2
    &&& col < depth.len()
    &&& depth[col] >= s.depth
    &&& 0 <= row < f.h
}

/// Some pixel of the sprite's square is drawn unless it is transparent.
pub open spec fn sprite_shows(f: FrameView, depth: Seq<u32>, s: Sprite) -> bool {
    exists|i: int, j: int| sprite_visible(f, depth, s, i, j)
}

/// The texture pixel that pixel `(i, j)` of the sprite's square shows.
pub open spec fn sprite_texel(t: AtlasView, s: Sprite, i: int, j: int) -> u32 {
    t.pixel((i * t.size) / (s.size as int), (j * t.size) / (s.size as int), s.tex_id as int)
}

/// A texture pixel that is drawn: its alpha is above the threshold.
pub open spec fn is_opaque(color: u32) -> bool {
    unpack_spec(color).3 > ALPHA_THRESHOLD
}

/// What the pixel at `(x, y)` holds once the sprite is drawn.
pub open spec fn sprite_pixel(
    f: FrameView,
    depth: Seq<u32>,
    t: AtlasView,
    s: Sprite,
    x: int,
    y: int,
) -> u32 {
    let i = x - (f.w as int) / 2 - s.h_offset;
    let j = y - sprite_top(f, s);
    if sprite_visible(f, depth, s, i, j) && is_opaque(sprite_texel(t, s, i, j)) {
        sprite_texel(t, s, i, j)
    } else {
        f.pixel(x, y)
    }
}

/// The raster target with the sprite drawn over it.
pub open spec fn with_sprite(f: FrameView, depth: Seq<u32>, t: AtlasView, s: Sprite) -> FrameView {
    FrameView {
        w: f.w,
        h: f.h,
        pixels: Seq::new(
            f.pixels.len(),
            |k: int| sprite_pixel(f, depth, t, s, k % (f.w as int), k / (f.w as int)),
        ),
    }
}

/// Every pixel of the target with the sprite drawn is as `sprite_pixel`
/// says.
pub proof fn lemma_with_sprite(
    f: FrameView,
    depth: Seq<u32>,
    t: AtlasView,
    s: Sprite,
    x: int,
    y: int,
)
    requires
        f.wf(),
        f.in_bounds(x, y),
    ensures
        with_sprite(f, depth, t, s).wf(),
        with_sprite(f, depth, t, s).pixel(x, y) == sprite_pixel(f, depth, t, s, x, y),
{
    crate::framebuffer::lemma_pixel_index(f.w as int, f.h as int, x, y);
}

/// A wall hides what is behind it: drawing a sprite changes no pixel of the
/// overhead map, and no pixel of a column of the view whose wall is nearer
/// than the sprite.
pub proof fn lemma_wall_hides_sprite(
    f: FrameView,
    depth: Seq<u32>,
    t: AtlasView,
    s: Sprite,
    x: int,
    y: int,
)
    requires
        f.wf(),
        f.in_bounds(x, y),
    ensures
        x < f.w / 2 ==> with_sprite(f, depth, t, s).pixel(x, y) == f.pixel(x, y),
        0 <= x - f.w / 2 < depth.len() && depth[x - f.w / 2] < s.depth ==> with_sprite(
            f,
            depth,
            t,
            s,
        ).pixel(x, y) == f.pixel(x, y),
        with_sprite(f, depth, t, s).pixel(x, y) != f.pixel(x, y) ==> 0 <= x - f.w / 2
            < depth.len() && depth[x - f.w / 2] >= s.depth,
{
    lemma_with_sprite(f, depth, t, s, x, y);
}

/// The raster target with the sprite's marker drawn on the overhead map.
pub open spec fn with_marker(f: FrameView, s: Sprite) -> FrameView {
    f.fill_rect(s.map_x as int, s.map_y as int, MARKER_SIZE as int, MARKER_SIZE as int, MARKER_COLOR)
}

/// Draws the sprite's marker on the overhead map: a small square, whether
/// or not a wall hides the sprite. The part of it that lies outside the
/// target is dropped, so this never fails.
pub fn map_show_sprite(sprite: &Sprite, fb: &mut Framebuffer) -> (r: Result<(), FrameError>)
    requires
        old(fb).wf(),
    ensures
        final(fb).wf(),
        r == Ok::<(), FrameError>(()),
        final(fb)@ == with_marker(old(fb)@, *sprite),
{
    fb.draw_rectangle(sprite.map_x, sprite.map_y, MARKER_SIZE, MARKER_SIZE, MARKER_COLOR)
}

/// The sprite cannot be drawn: a pixel of it is to be sampled, and the
/// atlas has no tile for it.
pub open spec fn sprite_missing(f: FrameView, depth: Seq<u32>, t: AtlasView, s: Sprite) -> bool {
    s.tex_id >= t.count && sprite_shows(f, depth, s)
}

/// What a pixel holds while the sprite is being drawn, column by column,
/// the pixels of the square before `(i, j)` done.
spec fn partial_sprite_pixel(
    f: FrameView,
    depth: Seq<u32>,
    t: AtlasView,
    s: Sprite,
    i: int,
    j: int,
    x: int,
    y: int,
) -> u32 {
    let pi = x - (f.w as int) / 2 - s.h_offset;
    let pj = y - sprite_top(f, s);
    if pi < i || (pi == i && pj < j) {
        sprite_pixel(f, depth, t, s, x, y)
    } else {
        f.pixel(x, y)
    }
}

/// The texture coordinate of a pixel of the sprite's square lies in the
/// tile.
proof fn lemma_texel_in_tile(tsize: int, size: int, i: int)
    requires
        0 < tsize,
        0 <= i < size,
    ensures
        0 <= (i * tsize) / size < tsize,
        0 <= i * tsize,
{
    crate::texture::lemma_source_row_in_tile(tsize, i, size);
    assert(0 <= i * tsize) by (nonlinear_arith)
        requires
            0 <= i,
            0 < tsize,
    ;
}

/// Draws the sprite over the wall view: each pixel of its square that lies
/// in the view, is not behind a wall and is not transparent. Nothing is
/// drawn where a pixel is to be sampled and the atlas lacks the sprite's
/// texture.
pub fn draw_sprite(
    sprite: &Sprite,
    depth_buffer: &Vec<u32>,
    fb: &mut Framebuffer,
    tex_sprites: &Texture,
) -> (r: Result<(), RenderError>)
    requires
        old(fb).wf(),
        tex_sprites.wf(),
        depth_buffer@.len() == old(fb)@.w / 2,
    ensures
        final(fb).wf(),
        sprite_missing(old(fb)@, depth_buffer@, tex_sprites@, *sprite) ==> r == Err::<
            (),
            RenderError,
        >(RenderError::TextureOutOfBounds) && final(fb)@ == old(fb)@,
        !sprite_missing(old(fb)@, depth_buffer@, tex_sprites@, *sprite) ==> r == Ok::<
            (),
            RenderError,
        >(()) && final(fb)@ == with_sprite(old(fb)@, depth_buffer@, tex_sprites@, *sprite),
        forall|x: int, y: int|
            old(fb)@.in_bounds(x, y) && #[trigger] final(fb)@.pixel(x, y) != old(fb)@.pixel(x, y)
                ==> 0 <= x - old(fb)@.w / 2 < depth_buffer@.len() && depth_buffer@[x - old(
                fb,
            )@.w / 2] >= sprite.depth,
{
    let ghost f = fb@;
    let ghost d = depth_buffer@;
    let ghost t = tex_sprites@;
    let ghost s = *sprite;
    let w = fb.width();
    let h = fb.height();
    let half = w / 2;
    let size = sprite.size;
    let tsize = tex_sprites.size();
    let missing = sprite.tex_id >= tex_sprites.count();
    let top: i128 = (h / 2) as i128 - (size / 2) as i128;
    let offset: i128 = sprite.h_offset as i128;
    let i_lo: i128 = if offset < 0 {
        -offset
    } else {
        0
    };
    let i_hi: i128 = if (size as i128) < half as i128 - offset {
        size as i128
    } else {
        half as i128 - offset
    };
    let j_lo: i128 = if top < 0 {
        -top
    } else {
        0
    };
    let j_hi: i128 = if (size as i128) < h as i128 - top {
        size as i128
    } else {
        h as i128 - top
    };
    proof {
        tex_sprites.lemma_wf();
        assert(size > 0 ==> top == sprite_top(f, s));
        assert forall|k: int| 0 <= k < f.pixels.len() implies #[trigger] fb@.pixels[k]
            == partial_sprite_pixel(f, d, t, s, i_lo as int, j_lo as int, k % (w as int), k / (w as int)) by {
            crate::framebuffer::lemma_index_pixel(w as int, h as int, k);
        }
    }
    let mut i: i128 = i_lo;
    while i < i_hi
        invariant
            fb.wf(),
            tex_sprites.wf(),
            t == tex_sprites@,
            t.wf(),
            f.wf(),
            d == depth_buffer@,
            s == *sprite,
            fb@.w == f.w,
            fb@.h == f.h,
            old(fb)@ == f,
            w == f.w,
            h == f.h,
            half == w / 2,
            d.len() == half,
            size == s.size,
            tsize == t.size,
            offset == s.h_offset,
            missing == (s.tex_id >= t.count),
            size > 0 ==> top == sprite_top(f, s),
            0 <= i_lo <= i,
            i_hi <= size,
            i_hi <= half - offset,
            i_lo + offset >= 0,
            i_lo == 0 || i_lo + offset == 0,
            i_hi == size || i_hi == half - offset,
            0 <= j_lo,
            j_hi <= size,
            j_hi <= h - top,
            j_lo + top >= 0,
            j_lo == 0 || j_lo + top == 0,
            j_hi == size || j_hi == h - top,
            i_lo <= i_hi ==> i <= i_hi,
            missing ==> fb@ == f,
            missing ==> forall|a: int, b: int| a < i ==> !sprite_visible(f, d, s, a, b),
            forall|k: int|
                0 <= k < f.pixels.len() ==> #[trigger] fb@.pixels[k] == partial_sprite_pixel(
                    f,
                    d,
                    t,
                    s,
                    i as int,
                    j_lo as int,
                    k % (w as int),
                    k / (w as int),
                ),
        decreases i_hi - i,
    {
        let col = (offset + i) as usize;
        let ghost row_done: int = j_lo as int;
        if depth_buffer[col] >= sprite.depth {
            let mut j: i128 = j_lo;
            proof {
                assert forall|b: int| b < j_lo implies !sprite_visible(f, d, s, i as int, b) by {}
            }
            while j < j_hi
                invariant
                    fb.wf(),
                    tex_sprites.wf(),
                    t == tex_sprites@,
                    t.wf(),
                    f.wf(),
                    d == depth_buffer@,
                    s == *sprite,
                    fb@.w == f.w,
                    fb@.h == f.h,
                    old(fb)@ == f,
                    w == f.w,
                    h == f.h,
                    half == w / 2,
                    d.len() == half,
                    size == s.size,
                    tsize == t.size,
                    offset == s.h_offset,
                    missing == (s.tex_id >= t.count),
                    size > 0 ==> top == sprite_top(f, s),
                    0 <= i_lo <= i < i_hi,
                    i_hi <= size,
                    i_hi <= half - offset,
                    i_lo + offset >= 0,
                    col == offset + i,
                    d[col as int] >= s.depth,
                    0 <= j_lo <= j,
                    j_hi <= size,
                    j_hi <= h - top,
                    j_lo + top >= 0,
                    j_lo == 0 || j_lo + top == 0,
                    j_hi == size || j_hi == h - top,
                    j_lo <= j_hi ==> j <= j_hi,
                    missing ==> fb@ == f,
                    missing ==> forall|a: int, b: int| a < i ==> !sprite_visible(f, d, s, a, b),
                    missing ==> forall|b: int| b < j ==> !sprite_visible(f, d, s, i as int, b),
                    forall|k: int|
                        0 <= k < f.pixels.len() ==> #[trigger] fb@.pixels[k]
                            == partial_sprite_pixel(
                            f,
                            d,
                            t,
                            s,
                            i as int,
                            j as int,
                            k % (w as int),
                            k / (w as int),
                        ),
                decreases j_hi - j,
            {
                if missing {
                    proof {
                        assert(sprite_visible(f, d, s, i as int, j as int));
                    }
                    return Err(RenderError::TextureOutOfBounds);
                }
                let row = (top + j) as usize;
                proof {
                    lemma_texel_in_tile(tsize as int, size as int, i as int);
                    lemma_texel_in_tile(tsize as int, size as int, j as int);
                    assert(i * tsize <= u32::MAX * u32::MAX && j * tsize <= u32::MAX * u32::MAX)
                        by (nonlinear_arith)
                        requires
                            0 <= i <= u32::MAX,
                            0 <= j <= u32::MAX,
                            0 <= tsize <= u32::MAX,
                    ;
                }
                let ti = ((i as u64 * tsize as u64) / (size as u64)) as u32;
                let tj = ((j as u64 * tsize as u64) / (size as u64)) as u32;
                let color = tex_sprites.get(ti, tj, sprite.tex_id).unwrap();
                let (_, _, _, a) = unpack_color(color);
                let ghost prev = fb@;
                if a > ALPHA_THRESHOLD {
                    let _ = fb.set_pixel(half + col, row, color);
                }
                proof {
                    let x = (half + col) as int;
                    let y = row as int;
                    crate::framebuffer::lemma_pixel_index(w as int, h as int, x, y);
                    assert(sprite_visible(f, d, s, i as int, j as int));
                    assert(color == sprite_texel(t, s, i as int, j as int));
                    assert forall|k: int| 0 <= k < f.pixels.len() implies #[trigger] fb@.pixels[k]
                        == partial_sprite_pixel(
                        f,
                        d,
                        t,
                        s,
                        i as int,
                        j + 1,
                        k % (w as int),
                        k / (w as int),
                    ) by {
                        crate::framebuffer::lemma_index_pixel(w as int, h as int, k);
                        assert(prev.pixels[k] == partial_sprite_pixel(
                            f,
                            d,
                            t,
                            s,
                            i as int,
                            j as int,
                            k % (w as int),
                            k / (w as int),
                        ));
                    }
                }
                j += 1;
            }
            proof {
                row_done = j as int;
            }
        }
        proof {
            assert forall|b: int| b >= row_done implies !sprite_visible(f, d, s, i as int, b) by {}
            let next = i + 1;
            assert forall|b: int| b < j_lo implies !sprite_visible(f, d, s, next, b) by {}
            assert forall|k: int| 0 <= k < f.pixels.len() implies #[trigger] fb@.pixels[k]
                == partial_sprite_pixel(
                f,
                d,
                t,
                s,
                i + 1,
                j_lo as int,
                k % (w as int),
                k / (w as int),
            ) by {
                crate::framebuffer::lemma_index_pixel(w as int, h as int, k);
                let x = k % (w as int);
                let y = k / (w as int);
                let pi = x - (f.w as int) / 2 - s.h_offset;
                let pj = y - sprite_top(f, s);
                assert(fb@.pixels[k] == partial_sprite_pixel(f, d, t, s, i as int, row_done, x, y));
                if pi == i && pj >= row_done {
                    assert(!sprite_visible(f, d, s, pi, pj));
                }
                if pi == i + 1 && pj < j_lo {
                    assert(!sprite_visible(f, d, s, pi, pj));
                }
            }
        }
        i += 1;
    }
    proof {
        let target = with_sprite(f, d, t, s);
        assert forall|k: int| 0 <= k < f.pixels.len() implies fb@.pixels[k] == target.pixels[k] by {
            crate::framebuffer::lemma_index_pixel(w as int, h as int, k);
        }
        assert(fb@.pixels =~= target.pixels);
        assert forall|x: int, y: int|
            f.in_bounds(x, y) && #[trigger] fb@.pixel(x, y) != f.pixel(x, y) implies 0 <= x - f.w
            / 2 < d.len() && d[x - f.w / 2] >= s.depth by {
            lemma_wall_hides_sprite(f, d, t, s, x, y);
        }
    }
    Ok(())
}

/// The sprites are in painter's order: none is farther away than one
/// before it.
pub open spec fn farthest_first(sprites: Seq<Sprite>) -> bool {
    forall|a: int, b: int|
        0 <= a <= b < sprites.len() ==> #[trigger] sprites[a].depth >= #[trigger] sprites[b].depth
}

/// A sprite is at this depth.
pub open spec fn depth_is(depth: u32) -> spec_fn(Sprite) -> bool {
    |s: Sprite| s.depth == depth
}

/// The sprites at one depth, in the order in which they stand.
pub open spec fn at_depth(sprites: Seq<Sprite>, depth: u32) -> Seq<Sprite> {
    sprites.filter(depth_is(depth))
}

/// `sorted` holds the sprites of `sprites` in painter's order, those at the
/// same depth in the order in which they stood.
pub open spec fn is_painters_order(sprites: Seq<Sprite>, sorted: Seq<Sprite>) -> bool {
    &&& farthest_first(sorted)
    &&& sorted.to_multiset() == sprites.to_multiset()
    &&& forall|depth: u32| #[trigger] at_depth(sorted, depth) == at_depth(sprites, depth)
}

/// `sprites` with the sprite at `j` and the one before it swapped.
pub open spec fn swapped(sprites: Seq<Sprite>, j: int) -> Seq<Sprite> {
    sprites.update(j - 1, sprites[j]).update(j, sprites[j - 1])
}

/// Swapping two neighbours at different depths keeps the sprites, and the
/// order of the sprites at each depth.
proof fn lemma_swap(sprites: Seq<Sprite>, j: int, depth: u32)
    requires
        0 < j < sprites.len(),
        sprites[j - 1].depth != sprites[j].depth,
    ensures
        swapped(sprites, j).to_multiset() == sprites.to_multiset(),
        at_depth(swapped(sprites, j), depth) == at_depth(sprites, depth),
{
    let pred = depth_is(depth);
    let a = sprites[j - 1];
    let b = sprites[j];
    let head = sprites.take(j - 1);
    let tail = sprites.skip(j + 1);
    let ab = seq![a, b];
    let ba = seq![b, a];
    assert(sprites =~= head + ab + tail);
    assert(swapped(sprites, j) =~= head + ba + tail);
    Seq::filter_distributes_over_add(head + ab, tail, pred);
    Seq::filter_distributes_over_add(head, ab, pred);
    Seq::filter_distributes_over_add(head + ba, tail, pred);
    Seq::filter_distributes_over_add(head, ba, pred);
    assert(ab.filter(pred) =~= ba.filter(pred)) by {
        reveal_with_fuel(Seq::filter, 3);
        assert(ab.drop_last() =~= seq![a]);
        assert(ba.drop_last() =~= seq![b]);
        assert(seq![a].drop_last() =~= Seq::<Sprite>::empty());
        assert(seq![b].drop_last() =~= Seq::<Sprite>::empty());
    }
    vstd::seq_lib::lemma_multiset_commutative(head + ab, tail);
    vstd::seq_lib::lemma_multiset_commutative(head, ab);
    vstd::seq_lib::lemma_multiset_commutative(head + ba, tail);
    vstd::seq_lib::lemma_multiset_commutative(head, ba);
    assert(ab.to_multiset() =~= ba.to_multiset()) by {
        vstd::seq_lib::lemma_multiset_commutative(seq![a], seq![b]);
        vstd::seq_lib::lemma_multiset_commutative(seq![b], seq![a]);
        assert(ab =~= seq![a] + seq![b]);
        assert(ba =~= seq![b] + seq![a]);
    }
}

/// Of two lists in painter's order that hold the same sprites in the same
/// order at each depth, the last sprites are the same.
proof fn lemma_same_last(a: Seq<Sprite>, b: Seq<Sprite>)
    requires
        farthest_first(a),
        farthest_first(b),
        forall|depth: u32| #[trigger] at_depth(a, depth) == at_depth(b, depth),
        a.len() > 0,
    ensures
        b.len() > 0,
        a.last() == b.last(),
{
    reveal(Seq::filter);
    let m = a.last().depth;
    assert(at_depth(a, m) == at_depth(a.drop_last(), m).push(a.last()));
    assert(at_depth(b, m) == at_depth(a, m));
    assert(at_depth(b, m).len() > 0);
    assert(b.len() > 0);
    let n = b.last().depth;
    assert(at_depth(b, n) == at_depth(b.drop_last(), n).push(b.last()));
    assert(at_depth(a, n) == at_depth(b, n));
    // The last sprite of each list is among the sprites of the other.
    assert(at_depth(b, m).last() == a.last());
    assert(b.filter(depth_is(m)).contains(a.last()));
    b.lemma_filter_contains_rev(depth_is(m), a.last());
    let i = choose|i: int| 0 <= i < b.len() && b[i] == a.last();
    assert(b[i].depth >= b[b.len() - 1].depth);
    assert(at_depth(a, n).last() == b.last());
    assert(a.filter(depth_is(n)).contains(b.last()));
    a.lemma_filter_contains_rev(depth_is(n), b.last());
    let j = choose|j: int| 0 <= j < a.len() && a[j] == b.last();
    assert(a[j].depth >= a[a.len() - 1].depth);
    assert(m == n);
}

/// Two lists in painter's order that hold the same sprites in the same
/// order at each depth are the same list.
proof fn lemma_same_list(a: Seq<Sprite>, b: Seq<Sprite>)
    requires
        farthest_first(a),
        farthest_first(b),
        forall|depth: u32| #[trigger] at_depth(a, depth) == at_depth(b, depth),
    ensures
        a == b,
    decreases a.len(),
{
    reveal(Seq::filter);
    if a.len() == 0 {
        if b.len() > 0 {
            lemma_same_last(b, a);
        }
        assert(a =~= b);
    } else {
        lemma_same_last(a, b);
        let a0 = a.drop_last();
        let b0 = b.drop_last();
        let m = a.last().depth;
        assert forall|depth: u32| #[trigger] at_depth(a0, depth) == at_depth(b0, depth) by {
            assert(at_depth(a, depth) == at_depth(b, depth));
            if depth == m {
                assert(at_depth(a, m) == at_depth(a0, m).push(a.last()));
                assert(at_depth(b, m) == at_depth(b0, m).push(b.last()));
                assert(at_depth(a0, m) =~= at_depth(a, m).drop_last());
                assert(at_depth(b0, m) =~= at_depth(b, m).drop_last());
            } else {
                assert(at_depth(a, depth) == at_depth(a0, depth));
                assert(at_depth(b, depth) == at_depth(b0, depth));
            }
        }
        assert(farthest_first(a0)) by {
            assert forall|i: int, j: int| 0 <= i <= j < a0.len() implies #[trigger] a0[i].depth
                >= #[trigger] a0[j].depth by {
                assert(a[i].depth >= a[j].depth);
            }
        }
        assert(farthest_first(b0)) by {
            assert forall|i: int, j: int| 0 <= i <= j < b0.len() implies #[trigger] b0[i].depth
                >= #[trigger] b0[j].depth by {
                assert(b[i].depth >= b[j].depth);
            }
        }
        lemma_same_list(a0, b0);
        assert(a =~= a0.push(a.last()));
        assert(b =~= b0.push(b.last()));
    }
}

/// There is one painter's order of a list of sprites: the order of the
/// sprites at one depth is kept, so nothing is left open.
pub proof fn lemma_painters_order_is_unique(
    sprites: Seq<Sprite>,
    first: Seq<Sprite>,
    second: Seq<Sprite>,
)
    requires
        is_painters_order(sprites, first),
        is_painters_order(sprites, second),
    ensures
        first == second,
{
    assert forall|depth: u32| #[trigger] at_depth(first, depth) == at_depth(second, depth) by {
        assert(at_depth(first, depth) == at_depth(sprites, depth));
        assert(at_depth(second, depth) == at_depth(sprites, depth));
    }
    lemma_same_list(first, second);
}

/// Puts the sprites in painter's order, the farthest first, so that a
/// nearer sprite is drawn over a farther one. Sprites at the same depth stay
/// in the order in which they stood.
pub fn sort_sprites(sprites: &mut Vec<Sprite>)
    ensures
        is_painters_order(old(sprites)@, final(sprites)@),
{
    let ghost before = sprites@;
    let n = sprites.len();
    let mut i: usize = 0;
    while i < n
        invariant
            i <= n,
            sprites@.len() == n,
            farthest_first(sprites@.take(i as int)),
            sprites@.to_multiset() == before.to_multiset(),
            forall|depth: u32| #[trigger] at_depth(sprites@, depth) == at_depth(before, depth),
        decreases n - i,
    {
        let mut j: usize = i;
        proof {
            assert forall|a: int, b: int| 0 <= a <= b < i implies #[trigger] sprites@[a].depth
                >= #[trigger] sprites@[b].depth by {
                assert(sprites@.take(i as int)[a].depth >= sprites@.take(i as int)[b].depth);
            }
        }
        while j > 0 && sprites[j - 1].depth < sprites[j].depth
            invariant
                j <= i < n,
                sprites@.len() == n,
                sprites@.to_multiset() == before.to_multiset(),
                forall|depth: u32| #[trigger] at_depth(sprites@, depth) == at_depth(before, depth),
                forall|a: int, b: int|
                    0 <= a <= b <= i && a != j && b != j ==> #[trigger] sprites@[a].depth
                        >= #[trigger] sprites@[b].depth,
                forall|b: int| j < b <= i ==> sprites@[j as int].depth > #[trigger] sprites@[b].depth,
            decreases j,
        {
            let ghost prev = sprites@;
            let near = sprites[j - 1];
            let far = sprites[j];
            sprites[j - 1] = far;
            sprites[j] = near;
            proof {
                assert(sprites@ =~= swapped(prev, j as int));
                assert forall|depth: u32| #[trigger]
                    at_depth(sprites@, depth) == at_depth(before, depth) by {
                    lemma_swap(prev, j as int, depth);
                }
                lemma_swap(prev, j as int, 0);
            }
            j -= 1;
        }
        proof {
            assert forall|a: int, b: int| 0 <= a <= b < i + 1 implies #[trigger] sprites@.take(
                i + 1,
            )[a].depth >= #[trigger] sprites@.take(i + 1)[b].depth by {
                if a == b {
                } else if a == j {
                } else if b == j {
                    if j > 0 {
                        if a < j - 1 {
                            assert(sprites@[a].depth >= sprites@[j - 1].depth);
                        }
                    }
                }
            }
        }
        i += 1;
    }
    assert(sprites@.take(n as int) =~= sprites@);
}

/// Whether a pixel of a sprite is drawn depends on the size of the target,
/// not on what the target holds.
pub proof fn lemma_shows_by_size(f1: FrameView, f2: FrameView, depth: Seq<u32>, s: Sprite)
    requires
        f1.w == f2.w,
        f1.h == f2.h,
    ensures
        sprite_shows(f1, depth, s) == sprite_shows(f2, depth, s),
{
    if sprite_shows(f1, depth, s) {
        let (i, j) = choose|i: int, j: int| sprite_visible(f1, depth, s, i, j);
        assert(sprite_visible(f2, depth, s, i, j));
    }
    if sprite_shows(f2, depth, s) {
        let (i, j) = choose|i: int, j: int| sprite_visible(f2, depth, s, i, j);
        assert(sprite_visible(f1, depth, s, i, j));
    }
}

/// The raster target after the first `n` sprites were drawn in order, each
/// with its marker first.
pub open spec fn with_sprites(
    f: FrameView,
    depth: Seq<u32>,
    t: AtlasView,
    sprites: Seq<Sprite>,
    n: nat,
) -> FrameView
    decreases n,
{
    if n == 0 {
        f
    } else {
        with_sprite(
            with_marker(with_sprites(f, depth, t, sprites, (n - 1) as nat), sprites[n - 1]),
            depth,
            t,
            sprites[n - 1],
        )
    }
}

/// Drawing sprites keeps the dimensions of the target.
pub proof fn lemma_with_sprites_dims(
    f: FrameView,
    depth: Seq<u32>,
    t: AtlasView,
    sprites: Seq<Sprite>,
    n: nat,
)
    requires
        f.wf(),
    ensures
        with_sprites(f, depth, t, sprites, n).w == f.w,
        with_sprites(f, depth, t, sprites, n).h == f.h,
        with_sprites(f, depth, t, sprites, n).wf(),
    decreases n,
{
    if n > 0 {
        lemma_with_sprites_dims(f, depth, t, sprites, (n - 1) as nat);
    }
}

/// The first sprite at or after `from` that cannot be drawn, or the number
/// of sprites if all can.
pub open spec fn first_missing_from(
    f: FrameView,
    depth: Seq<u32>,
    t: AtlasView,
    sprites: Seq<Sprite>,
    from: int,
) -> int
    decreases sprites.len() - from,
{
    if from < 0 || from >= sprites.len() || sprite_missing(f, depth, t, sprites[from]) {
        from
    } else {
        first_missing_from(f, depth, t, sprites, from + 1)
    }
}

/// The first sprite that cannot be drawn, or the number of sprites if all
/// can.
pub open spec fn first_missing(
    f: FrameView,
    depth: Seq<u32>,
    t: AtlasView,
    sprites: Seq<Sprite>,
) -> int {
    first_missing_from(f, depth, t, sprites, 0)
}

/// The sprite pass. Puts the sprites in painter's order and draws them one
/// after the other, each with its marker on the overhead map first. Stops
/// at the first sprite that cannot be drawn, its marker drawn.
pub fn render_sprites(
    fb: &mut Framebuffer,
    depth_buffer: &Vec<u32>,
    sprites: &mut Vec<Sprite>,
    tex_sprites: &Texture,
) -> (r: Result<(), RenderError>)
    requires
        old(fb).wf(),
        tex_sprites.wf(),
        depth_buffer@.len() == old(fb)@.w / 2,
    ensures
        final(fb).wf(),
        final(fb)@.w == old(fb)@.w,
        final(fb)@.h == old(fb)@.h,
        is_painters_order(old(sprites)@, final(sprites)@),
        ({
            let f = old(fb)@;
            let sorted = final(sprites)@;
            let k = first_missing(f, depth_buffer@, tex_sprites@, sorted);
            if k >= sorted.len() {
                &&& r == Ok::<(), RenderError>(())
                &&& final(fb)@ == with_sprites(f, depth_buffer@, tex_sprites@, sorted, sorted.len())
            } else {
                &&& r == Err::<(), RenderError>(RenderError::TextureOutOfBounds)
                &&& final(fb)@ == with_marker(
                    with_sprites(f, depth_buffer@, tex_sprites@, sorted, k as nat),
                    sorted[k],
                )
            }
        }),
{
    sort_sprites(sprites);
    let ghost f = fb@;
    let ghost d = depth_buffer@;
    let ghost t = tex_sprites@;
    let ghost sorted = sprites@;
    let mut n: usize = 0;
    while n < sprites.len()
        invariant
            n <= sprites@.len(),
            sprites@ == sorted,
            is_painters_order(old(sprites)@, sorted),
            fb.wf(),
            tex_sprites.wf(),
            f.wf(),
            old(fb)@ == f,
            d == depth_buffer@,
            t == tex_sprites@,
            d.len() == f.w / 2,
            fb@.w == f.w,
            fb@.h == f.h,
            fb@ == with_sprites(f, d, t, sorted, n as nat),
            first_missing(f, d, t, sorted) == first_missing_from(f, d, t, sorted, n as int),
        decreases sprites@.len() - n,
    {
        let sprite = sprites[n];
        let _ = map_show_sprite(&sprite, fb);
        proof {
            lemma_shows_by_size(f, fb@, d, sprite);
        }
        match draw_sprite(&sprite, depth_buffer, fb, tex_sprites) {
            Ok(()) => {},
            Err(e) => {
                return Err(e);
            },
        }
        n += 1;
    }
    Ok(())
}

} // verus!
