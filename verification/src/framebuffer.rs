//! The raster target: a grid of packed colours with checked writes.

use vstd::prelude::*;

verus! {

/// The colour a fresh raster target is filled with: opaque white.
pub const WHITE: u32 = 0xFFFF_FFFF;

/// What a raster target holds: its dimensions and its pixels, row by row.
pub struct FrameView {
    pub w: nat,
    pub h: nat,
    pub pixels: Seq<u32>,
}

impl FrameView {
    /// There is one pixel for each cell of the grid.
    pub open spec fn wf(self) -> bool {
        self.pixels.len() == self.w * self.h
    }

    /// `(x, y)` names a pixel of the grid.
    pub open spec fn in_bounds(self, x: int, y: int) -> bool {
        0 <= x < self.w && 0 <= y < self.h
    }

    /// The pixel in column `x` of row `y`.
    pub open spec fn pixel(self, x: int, y: int) -> u32 {
        self.pixels[x + y * self.w]
    }

    /// The same grid with every pixel set to `color`.
    pub open spec fn clear(self, color: u32) -> FrameView {
        FrameView { w: self.w, h: self.h, pixels: Seq::new(self.pixels.len(), |k: int| color) }
    }

    /// The same grid with the pixel at `(x, y)` set to `color`; the same
    /// grid unchanged where `(x, y)` is no pixel of it.
    pub open spec fn set_pixel(self, x: int, y: int, color: u32) -> FrameView {
        if self.in_bounds(x, y) {
            FrameView { w: self.w, h: self.h, pixels: self.pixels.update(x + y * self.w, color) }
        } else {
            self
        }
    }

    /// `(px, py)` lies in the rectangle of `w` columns and `h` rows whose
    /// top left corner is `(x, y)`.
    pub open spec fn in_rect(x: int, y: int, w: int, h: int, px: int, py: int) -> bool {
        x <= px < x + w && y <= py < y + h
    }

    /// The same grid with every pixel of the rectangle set to `color`; the
    /// part of the rectangle that lies outside the grid is dropped.
    pub open spec fn fill_rect(self, x: int, y: int, w: int, h: int, color: u32) -> FrameView {
        FrameView {
            w: self.w,
            h: self.h,
            pixels: Seq::new(
                self.pixels.len(),
                |k: int|
                    if Self::in_rect(x, y, w, h, k % (self.w as int), k / (self.w as int)) {
                        color
                    } else {
                        self.pixels[k]
                    },
            ),
        }
    }
}

/// In a grid of `w` columns, the pixel at `(x, y)` is stored at `x + y * w`,
/// and no other pixel is stored there.
pub proof fn lemma_pixel_index(w: int, h: int, x: int, y: int)
    requires
        0 <= x < w,
        0 <= y < h,
    ensures
        0 <= x + y * w < w * h,
        (x + y * w) % w == x,
        (x + y * w) / w == y,
{
    assert(y * w + w <= h * w) by (nonlinear_arith)
        requires
            y + 1 <= h,
            0 < w,
    ;
    assert(0 <= y * w) by (nonlinear_arith)
        requires
            0 <= y,
            0 < w,
    ;
    assert(h * w == w * h) by (nonlinear_arith);
    assert(x + y * w == y * w + x);
    vstd::arithmetic::div_mod::lemma_fundamental_div_mod_converse(x + y * w, w, y, x);
}

/// In a grid of `w` columns and `h` rows, every stored pixel has a column
/// and a row.
pub proof fn lemma_index_pixel(w: int, h: int, k: int)
    requires
        0 <= k < w * h,
        0 <= w,
        0 <= h,
    ensures
        0 <= k % w < w,
        0 <= k / w < h,
        k == k % w + (k / w) * w,
{
    assert(w > 0) by (nonlinear_arith)
        requires
            0 <= k < w * h,
            0 <= w,
            0 <= h,
    ;
    vstd::arithmetic::div_mod::lemma_fundamental_div_mod(k, w);
    vstd::arithmetic::div_mod::lemma_mod_bound(k, w);
    let q = k / w;
    assert(w * q == q * w) by (nonlinear_arith);
    assert(q >= 0) by (nonlinear_arith)
        requires
            w > 0,
            k >= 0,
            k == w * q + k % w,
            k % w < w,
    ;
    assert(q < h) by (nonlinear_arith)
        requires
            w > 0,
            h >= 0,
            k < w * h,
            k == w * q + k % w,
            0 <= k % w,
    ;
}

/// Setting one pixel changes that pixel and no other.
pub proof fn lemma_set_pixel(f: FrameView, x: int, y: int, color: u32, px: int, py: int)
    requires
        f.wf(),
        f.in_bounds(px, py),
    ensures
        f.set_pixel(x, y, color).wf(),
        f.set_pixel(x, y, color).pixel(px, py) == if px == x && py == y {
            color
        } else {
            f.pixel(px, py)
        },
{
    if f.in_bounds(x, y) {
        lemma_pixel_index(f.w as int, f.h as int, x, y);
    }
    lemma_pixel_index(f.w as int, f.h as int, px, py);
}

/// Filling a rectangle changes the pixels of the grid that lie inside it,
/// and no others.
pub proof fn lemma_fill_rect(
    f: FrameView,
    x: int,
    y: int,
    w: int,
    h: int,
    color: u32,
    px: int,
    py: int,
)
    requires
        f.wf(),
        f.in_bounds(px, py),
    ensures
        f.fill_rect(x, y, w, h, color).wf(),
        f.fill_rect(x, y, w, h, color).pixel(px, py) == if FrameView::in_rect(x, y, w, h, px, py) {
            color
        } else {
            f.pixel(px, py)
        },
{
    lemma_pixel_index(f.w as int, f.h as int, px, py);
}

/// A write that fell outside the raster target.
#[derive(Debug, Clone, Copy, PartialEq, Eq, Structural)]
pub enum FrameError {
    PixelOutOfBounds,
}

/// A grid of `w` by `h` packed colours, stored row by row.
pub struct Framebuffer {
    w: usize,
    h: usize,
    img: Vec<u32>,
}

impl View for Framebuffer {
    type V = FrameView;

    closed spec fn view(&self) -> FrameView {
        FrameView { w: self.w as nat, h: self.h as nat, pixels: self.img@ }
    }
}

impl Framebuffer {
    /// The buffer holds one pixel for each cell of the grid.
    pub open spec fn wf(&self) -> bool {
        self@.wf()
    }

    /// A white raster target of `width` by `height` pixels.
    pub fn new(width: usize, height: usize) -> (fb: Framebuffer)
        requires
            width * height <= usize::MAX,
        ensures
            fb.wf(),
            fb@.w == width,
            fb@.h == height,
            fb@.pixels == Seq::new((width * height) as nat, |k: int| WHITE),
    {
        let fb = Framebuffer { w: width, h: height, img: vec![WHITE; width * height] };
        assert(fb.img@ =~= Seq::new((width * height) as nat, |k: int| WHITE));
        fb
    }

    /// The number of columns.
    pub fn width(&self) -> (w: usize)
        ensures
            w == self@.w,
    {
        self.w
    }

    /// The number of rows.
    pub fn height(&self) -> (h: usize)
        ensures
            h == self@.h,
    {
        self.h
    }

    /// The pixels, row by row.
    pub fn pixels(&self) -> (img: &Vec<u32>)
        ensures
            img@ == self@.pixels,
    {
        &self.img
    }

    /// Fills every pixel with `color`.
    pub fn clear(&mut self, color: u32)
        requires
            old(self).wf(),
        ensures
            final(self).wf(),
            final(self)@ == old(self)@.clear(color),
    {
        let n = self.img.len();
        self.img = vec![color; n];
        assert(self.img@ =~= Seq::new(n as nat, |k: int| color));
    }

    /// Writes `color` at `(x, y)`, or reports that `(x, y)` is no pixel of
    /// the target and leaves it as it was.
    pub fn set_pixel(&mut self, x: usize, y: usize, color: u32) -> (r: Result<(), FrameError>)
        requires
            old(self).wf(),
        ensures
            final(self).wf(),
            final(self)@ == old(self)@.set_pixel(x as int, y as int, color),
            r == if old(self)@.in_bounds(x as int, y as int) {
                Ok::<(), FrameError>(())
            } else {
                Err::<(), FrameError>(FrameError::PixelOutOfBounds)
            },
    {
        if x < self.w && y < self.h {
            proof {
                lemma_pixel_index(self.w as int, self.h as int, x as int, y as int);
                assert(0 <= y * self.w) by (nonlinear_arith);
                assert(self.w * self.h == self.img.len());
            }
            self.img[x + y * self.w] = color;
            Ok(())
        } else {
            Err(FrameError::PixelOutOfBounds)
        }
    }

    /// Fills the rectangle of `w` columns and `h` rows whose top left corner
    /// is `(x, y)`. The part of it that lies outside the target is dropped,
    /// so this never fails.
    pub fn draw_rectangle(&mut self, x: usize, y: usize, w: usize, h: usize, color: u32) -> (r:
        Result<(), FrameError>)
        requires
            old(self).wf(),
        ensures
            final(self).wf(),
            r == Ok::<(), FrameError>(()),
            final(self)@ == old(self)@.fill_rect(x as int, y as int, w as int, h as int, color),
    {
        let ghost before = self@;
        let ghost target = before.fill_rect(x as int, y as int, w as int, h as int, color);
        if x >= self.w || y >= self.h {
            proof {
                assert forall|k: int| 0 <= k < before.pixels.len() implies target.pixels[k]
                    == before.pixels[k] by {
                    lemma_index_pixel(before.w as int, before.h as int, k);
                }
                assert(target.pixels =~= before.pixels);
            }
            return Ok(());
        }
        let cols = if w < self.w - x {
            w
        } else {
            self.w - x
        };
        let rows = if h < self.h - y {
            h
        } else {
            self.h - y
        };
        let mut j: usize = 0;
        while j < rows
            invariant
                j <= rows,
                x < self.w,
                y < self.h,
                x + cols <= self.w,
                y + rows <= self.h,
                self.w == before.w,
                self.h == before.h,
                self.img.len() == before.pixels.len(),
                before.wf(),
                forall|k: int|
                    0 <= k < before.pixels.len() ==> #[trigger] self.img@[k] == if FrameView::in_rect(
                        x as int,
                        y as int,
                        cols as int,
                        j as int,
                        k % (before.w as int),
                        k / (before.w as int),
                    ) {
                        color
                    } else {
                        before.pixels[k]
                    },
            decreases rows - j,
        {
            proof {
                lemma_pixel_index(self.w as int, self.h as int, x as int, (y + j) as int);
                assert(0 <= (y + j) * self.w) by (nonlinear_arith);
            }
            let base = x + (y + j) * self.w;
            let mut i: usize = 0;
            while i < cols
                invariant
                    i <= cols,
                    j < rows,
                    x < self.w,
                    y < self.h,
                    x + cols <= self.w,
                    y + rows <= self.h,
                    self.w == before.w,
                    self.h == before.h,
                    self.img.len() == before.pixels.len(),
                    before.wf(),
                    base == x + (y + j) * self.w,
                    forall|k: int|
                        0 <= k < before.pixels.len() ==> #[trigger] self.img@[k] == if FrameView::in_rect(
                            x as int,
                            y as int,
                            cols as int,
                            j as int,
                            k % (before.w as int),
                            k / (before.w as int),
                        ) || FrameView::in_rect(
                            x as int,
                            (y + j) as int,
                            i as int,
                            1,
                            k % (before.w as int),
                            k / (before.w as int),
                        ) {
                            color
                        } else {
                            before.pixels[k]
                        },
                decreases cols - i,
            {
                let ghost prev = self.img@;
                proof {
                    lemma_pixel_index(self.w as int, self.h as int, (x + i) as int, (y + j) as int);
                }
                self.img[base + i] = color;
                proof {
                    assert forall|k: int| 0 <= k < before.pixels.len() implies #[trigger] self.img@[k]
                        == if FrameView::in_rect(
                        x as int,
                        y as int,
                        cols as int,
                        j as int,
                        k % (before.w as int),
                        k / (before.w as int),
                    ) || FrameView::in_rect(
                        x as int,
                        (y + j) as int,
                        (i + 1) as int,
                        1,
                        k % (before.w as int),
                        k / (before.w as int),
                    ) {
                        color
                    } else {
                        before.pixels[k]
                    } by {
                        lemma_index_pixel(before.w as int, before.h as int, k);
                        assert(self.img@[k] == if k == base + i {
                            color
                        } else {
                            prev[k]
                        });
                    }
                }
                i += 1;
            }
            j += 1;
        }
        proof {
            assert forall|k: int| 0 <= k < before.pixels.len() implies self.img@[k]
                == target.pixels[k] by {
                lemma_index_pixel(before.w as int, before.h as int, k);
            }
            assert(self.img@ =~= target.pixels);
        }
        Ok(())
    }
}

} // verus!
