//! The texture atlas: square tiles of equal size, side by side in one strip.

use crate::utils::{pack_color_rgba, pack_spec};
use vstd::prelude::*;

verus! {

/// What an atlas holds: `count` tiles of `size` by `size` pixels, and the
/// pixels of the whole strip, row by row.
pub struct AtlasView {
    pub size: nat,
    pub count: nat,
    pub pixels: Seq<u32>,
}

impl AtlasView {
    /// The width of the strip in pixels.
    pub open spec fn width(self) -> nat {
        self.size * self.count
    }

    /// The strip holds at least one tile, its width fits in a `u32`, and
    /// there is one pixel for each of its cells.
    pub open spec fn wf(self) -> bool {
        &&& self.size > 0
        &&& self.count > 0
        &&& self.width() <= u32::MAX
        &&& self.pixels.len() == self.width() * self.size
    }

    /// Tile `idx` exists and `(i, j)` is a pixel of it.
    pub open spec fn has_pixel(self, i: int, j: int, idx: int) -> bool {
        0 <= idx < self.count && 0 <= i < self.size && 0 <= j < self.size
    }

    /// The pixel in column `i` of row `j` of tile `idx`.
    pub open spec fn pixel(self, i: int, j: int, idx: int) -> u32 {
        self.pixels[i + idx * self.size + j * self.width()]
    }

    /// The pixel at `(i, j)` of tile `idx`, if there is one.
    pub open spec fn get(self, i: int, j: int, idx: int) -> Option<u32> {
        if self.has_pixel(i, j, idx) {
            Some(self.pixel(i, j, idx))
        } else {
            None
        }
    }

    /// The row of a tile that row `y` of a column of `out_height` rows is
    /// taken from: the nearest one above, by truncating division.
    pub open spec fn source_row(self, y: int, out_height: int) -> int {
        (y * self.size) / out_height
    }

    /// Column `u` of tile `idx`, stretched or squeezed to `out_height` rows.
    pub open spec fn scaled_column(self, idx: int, u: int, out_height: nat) -> Seq<u32> {
        Seq::new(out_height, |y: int| self.pixel(u, self.source_row(y, out_height as int), idx))
    }

    /// The scaled column, if every pixel that it samples exists. A column of
    /// no rows samples nothing.
    pub open spec fn get_scaled_column(self, idx: int, u: int, out_height: nat) -> Option<
        Seq<u32>,
    > {
        if out_height == 0 || (0 <= idx < self.count && 0 <= u < self.size) {
            Some(self.scaled_column(idx, u, out_height))
        } else {
            None
        }
    }
}

/// Row `y` of a scaled column is taken from a row of the tile.
pub proof fn lemma_source_row_in_tile(size: int, y: int, out_height: int)
    requires
        0 < size,
        0 <= y < out_height,
    ensures
        0 <= (y * size) / out_height < size,
{
    assert(0 <= y * size) by (nonlinear_arith)
        requires
            0 <= y,
            0 < size,
    ;
    assert(y * size < size * out_height) by (nonlinear_arith)
        requires
            y < out_height,
            0 < size,
    ;
    vstd::arithmetic::div_mod::lemma_div_pos_is_pos(y * size, out_height);
    vstd::arithmetic::div_mod::lemma_div_by_multiple_is_strongly_ordered(
        y * size,
        size * out_height,
        size,
        out_height,
    );
    vstd::arithmetic::div_mod::lemma_div_by_multiple(size, out_height);
}

/// A pixel of a tile is stored inside the strip.
pub proof fn lemma_tile_index(t: AtlasView, i: int, j: int, idx: int)
    requires
        t.wf(),
        t.has_pixel(i, j, idx),
    ensures
        0 <= idx * t.size,
        0 <= i + idx * t.size < t.width(),
        0 <= j * t.width(),
        0 <= i + idx * t.size + j * t.width() < t.pixels.len(),
{
    let size = t.size as int;
    let count = t.count as int;
    let width = t.width() as int;
    assert(0 <= idx * size && idx * size + size <= size * count) by (nonlinear_arith)
        requires
            0 <= idx,
            idx + 1 <= count,
            0 < size,
    ;
    assert(0 <= j * width && j * width + width <= width * size) by (nonlinear_arith)
        requires
            0 <= j,
            j + 1 <= size,
            0 < width,
    ;
}

/// The colours that a buffer of RGBA bytes holds: one for each four bytes.
pub open spec fn packed_pixels(rgba: Seq<u8>) -> Seq<u32> {
    Seq::new(
        rgba.len() / 4,
        |k: int| pack_spec(rgba[4 * k], rgba[4 * k + 1], rgba[4 * k + 2], rgba[4 * k + 3]),
    )
}

/// An image of `width` by `height` pixels is a strip of square tiles.
pub open spec fn is_tile_strip(width: int, height: int) -> bool {
    height > 0 && width > 0 && width % height == 0
}

/// Why an image is no texture atlas.
#[derive(Debug, Clone, Copy, PartialEq, Eq, Structural)]
pub enum TextureError {
    /// The image is empty, or its width is no multiple of its height.
    NotATileStrip,
    /// The buffer does not hold four bytes for each pixel of the image.
    BadLength,
}

/// A strip of `count` square tiles, each `size` pixels wide and high.
pub struct Texture {
    img_w: u32,
    img_h: u32,
    count: u32,
    size: u32,
    img: Vec<u32>,
}

impl View for Texture {
    type V = AtlasView;

    closed spec fn view(&self) -> AtlasView {
        AtlasView { size: self.size as nat, count: self.count as nat, pixels: self.img@ }
    }
}

impl Texture {
    /// The fields agree with each other and with the pixels.
    pub closed spec fn wf(&self) -> bool {
        &&& self@.wf()
        &&& self.img_w == self.size * self.count
        &&& self.img_h == self.size
    }

    /// A well-formed atlas has a well-formed view.
    pub proof fn lemma_wf(&self)
        requires
            self.wf(),
        ensures
            self@.wf(),
    {
    }

    /// The atlas of an image of `width` by `height` pixels, given as RGBA
    /// bytes, row by row. The image must be a strip of square tiles, and the
    /// buffer must hold exactly its pixels.
    pub fn new(width: u32, height: u32, rgba: &[u8]) -> (r: Result<Texture, TextureError>)
        ensures
            match r {
                Ok(t) => {
                    &&& is_tile_strip(width as int, height as int)
                    &&& rgba@.len() == 4 * (width * height)
                    &&& t.wf()
                    &&& t@.size == height
                    &&& t@.count == width / height
                    &&& t@.pixels == packed_pixels(rgba@)
                },
                Err(TextureError::NotATileStrip) => !is_tile_strip(width as int, height as int),
                Err(TextureError::BadLength) => is_tile_strip(width as int, height as int)
                    && rgba@.len() != 4 * (width * height),
            },
    {
        if height == 0 || width == 0 || width % height != 0 {
            return Err(TextureError::NotATileStrip);
        }
        assert(width * height <= u32::MAX * u32::MAX) by (nonlinear_arith)
            requires
                0 <= width <= u32::MAX,
                0 <= height <= u32::MAX,
        ;
        let n: u64 = (width as u64) * (height as u64);
        if rgba.len() % 4 != 0 || (rgba.len() / 4) as u64 != n {
            return Err(TextureError::BadLength);
        }
        let count = width / height;
        proof {
            vstd::arithmetic::div_mod::lemma_fundamental_div_mod(width as int, height as int);
            assert(count >= 1) by (nonlinear_arith)
                requires
                    width == height * count,
                    width > 0,
                    height > 0,
                    count >= 0,
            ;
        }
        let len = rgba.len() / 4;
        let mut img: Vec<u32> = Vec::new();
        let mut k: usize = 0;
        while k < len
            invariant
                k <= len,
                len == rgba@.len() / 4,
                rgba@.len() % 4 == 0,
                rgba@.len() <= usize::MAX,
                img@.len() == k,
                forall|m: int|
                    0 <= m < k ==> #[trigger] img@[m] == pack_spec(
                        rgba@[4 * m],
                        rgba@[4 * m + 1],
                        rgba@[4 * m + 2],
                        rgba@[4 * m + 3],
                    ),
            decreases len - k,
        {
            let p = 4 * k;
            img.push(pack_color_rgba(rgba[p], rgba[p + 1], rgba[p + 2], rgba[p + 3]));
            k += 1;
        }
        assert(img@ =~= packed_pixels(rgba@));
        let t = Texture { img_w: width, img_h: height, count, size: height, img };
        proof {
            assert(height * count * height == width * height) by (nonlinear_arith)
                requires
                    width == height * count,
            ;
        }
        Ok(t)
    }

    /// The width of the strip in pixels.
    pub fn img_w(&self) -> (w: u32)
        requires
            self.wf(),
        ensures
            w == self@.width(),
    {
        self.img_w
    }

    /// The height of the strip in pixels, which is the size of a tile.
    pub fn img_h(&self) -> (h: u32)
        requires
            self.wf(),
        ensures
            h == self@.size,
    {
        self.img_h
    }

    /// The number of tiles.
    pub fn count(&self) -> (n: u32)
        ensures
            n == self@.count,
    {
        self.count
    }

    /// The width and height of a tile in pixels.
    pub fn size(&self) -> (n: u32)
        ensures
            n == self@.size,
    {
        self.size
    }

    /// The pixel in column `i` of row `j` of tile `idx`, or `None` where
    /// there is no such tile or the tile has no such pixel.
    pub fn get(&self, i: u32, j: u32, idx: u32) -> (r: Option<u32>)
        requires
            self.wf(),
        ensures
            r == self@.get(i as int, j as int, idx as int),
    {
        if idx < self.count && i < self.size && j < self.size {
            proof {
                lemma_tile_index(self@, i as int, j as int, idx as int);
                assert(self.img_w == self@.width());
                assert(self.img.len() == self@.pixels.len());
            }
            let column = i as usize + idx as usize * self.size as usize;
            let at = column + j as usize * self.img_w as usize;
            Some(self.img[at])
        } else {
            None
        }
    }

    /// Column `tex_coord` of tile `texture_id`, resampled to `column_height`
    /// rows by taking row `y` from row `(y * size) / column_height` of the
    /// tile. `None` if a sampled pixel does not exist.
    pub fn get_scaled_column(&self, texture_id: u32, tex_coord: u32, column_height: u32) -> (r:
        Option<Vec<u32>>)
        requires
            self.wf(),
        ensures
            match r {
                Some(column) => Some(column@) == self@.get_scaled_column(
                    texture_id as int,
                    tex_coord as int,
                    column_height as nat,
                ),
                None => self@.get_scaled_column(
                    texture_id as int,
                    tex_coord as int,
                    column_height as nat,
                ) is None,
            },
            r matches Some(column) ==> column@.len() == column_height && forall|y: int|
                0 <= y < column_height ==> #[trigger] column@[y] == self@.pixel(
                    tex_coord as int,
                    (y * self@.size) / (column_height as int),
                    texture_id as int,
                ),
    {
        let mut column: Vec<u32> = Vec::new();
        let mut y: u32 = 0;
        while y < column_height
            invariant
                self.wf(),
                y <= column_height,
                column@.len() == y,
                y > 0 ==> texture_id < self@.count && tex_coord < self@.size,
                forall|m: int|
                    0 <= m < y ==> #[trigger] column@[m] == self@.pixel(
                        tex_coord as int,
                        self@.source_row(m, column_height as int),
                        texture_id as int,
                    ),
            decreases column_height - y,
        {
            proof {
                lemma_source_row_in_tile(self@.size as int, y as int, column_height as int);
                assert(0 <= y * self.size <= u32::MAX * u32::MAX) by (nonlinear_arith)
                    requires
                        0 <= y <= u32::MAX,
                        0 <= self.size <= u32::MAX,
                ;
            }
            let row = ((y as u64 * self.size as u64) / (column_height as u64)) as u32;
            match self.get(tex_coord, row, texture_id) {
                Some(pix) => column.push(pix),
                None => return None,
            }
            y += 1;
        }
        assert(column@ =~= self@.scaled_column(
            texture_id as int,
            tex_coord as int,
            column_height as nat,
        ));
        Some(column)
    }
}

} // verus!
