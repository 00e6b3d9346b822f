//! The tile map: a grid of cells, each a wall with a texture or empty.

use vstd::prelude::*;

verus! {

/// A cell holds a blank, which is empty floor, or a digit, which is a wall
/// with that texture.
pub open spec fn is_cell(c: char) -> bool {
    c == ' ' || ('0' <= c && c <= '9')
}

/// Every character of `cells` is a blank or a digit.
pub open spec fn all_cells(cells: Seq<char>) -> bool {
    forall|k: int| 0 <= k < cells.len() ==> is_cell(#[trigger] cells[k])
}

/// The layout of the map, row by row from the top, sixteen cells to a row.
pub const LAYOUT: &'static str = "0000222222220000\
                                  1              0\
                                  1      11111   0\
                                  1     0        0\
                                  0     0  1110000\
                                  0     3        0\
                                  0   10000      0\
                                  0   3   11100  0\
                                  5   4   0      0\
                                  5   4   1  00000\
                                  0       1      0\
                                  2       1      0\
                                  0       0      0\
                                  0 0000000      0\
                                  0              0\
                                  0002222222200000";

/// The fixed layout: 256 cells, each a blank or a digit.
pub proof fn lemma_layout()
    ensures
        LAYOUT@.len() == 256,
        all_cells(LAYOUT@),
{
    reveal_strlit("0000222222220000\
                                  1              0\
                                  1      11111   0\
                                  1     0        0\
                                  0     0  1110000\
                                  0     3        0\
                                  0   10000      0\
                                  0   3   11100  0\
                                  5   4   0      0\
                                  5   4   1  00000\
                                  0       1      0\
                                  2       1      0\
                                  0       0      0\
                                  0 0000000      0\
                                  0              0\
                                  0002222222200000");
}

/// What a map holds: its dimensions and its cells, row by row.
pub struct GridView {
    pub w: nat,
    pub h: nat,
    pub cells: Seq<char>,
}

impl GridView {
    /// The grid has a cell, there is one cell for each place of the grid,
    /// and each is a blank or a digit.
    pub open spec fn wf(self) -> bool {
        &&& self.w > 0
        &&& self.h > 0
        &&& self.cells.len() == self.w * self.h
        &&& all_cells(self.cells)
    }

    /// `(i, j)` names a cell: column `i` of row `j`.
    pub open spec fn in_range(self, i: int, j: int) -> bool {
        0 <= i < self.w && 0 <= j < self.h
    }

    /// The character in column `i` of row `j`.
    pub open spec fn cell(self, i: int, j: int) -> char {
        self.cells[i + j * self.w]
    }

    /// `(i, j)` is a cell of the map and holds a blank. A place outside the
    /// map is not empty.
    pub open spec fn is_empty(self, i: int, j: int) -> bool {
        self.in_range(i, j) && self.cell(i, j) == ' '
    }

    /// The texture of the wall at `(i, j)`; `None` where the cell is empty
    /// or `(i, j)` lies outside the map.
    pub open spec fn get(self, i: int, j: int) -> Option<u32> {
        if self.in_range(i, j) && '0' <= self.cell(i, j) && self.cell(i, j) <= '9' {
            Some((self.cell(i, j) as u32 - '0' as u32) as u32)
        } else {
            None
        }
    }
}

/// In a well-formed map, a cell that is not empty is a wall with a texture
/// below ten, and a place outside the map is neither.
pub proof fn lemma_wall_or_empty(g: GridView, i: int, j: int)
    requires
        g.wf(),
    ensures
        g.in_range(i, j) ==> (g.is_empty(i, j) <==> g.get(i, j) is None),
        !g.in_range(i, j) ==> !g.is_empty(i, j) && g.get(i, j) is None,
        g.get(i, j) matches Some(id) ==> id < 10,
{
    if g.in_range(i, j) {
        crate::framebuffer::lemma_pixel_index(g.w as int, g.h as int, i, j);
        assert(is_cell(g.cells[i + j * g.w]));
    }
}

/// Why a map could not be made.
#[derive(Debug, Clone, Copy, PartialEq, Eq, Structural)]
pub enum MapError {
    /// The dimensions do not hold exactly the cells of the layout.
    BadParameters,
}

/// The tile map: `w` by `h` cells, stored row by row.
pub struct GridMap {
    layout: Vec<char>,
    w: u32,
    h: u32,
}

impl View for GridMap {
    type V = GridView;

    closed spec fn view(&self) -> GridView {
        GridView { w: self.w as nat, h: self.h as nat, cells: self.layout@ }
    }
}

impl GridMap {
    /// The map holds one valid cell for each place of its grid.
    pub open spec fn wf(&self) -> bool {
        self@.wf()
    }

    /// The fixed layout as a map of `width` by `height` cells. The
    /// dimensions must hold exactly the 256 cells of the layout.
    pub fn init(width: u32, height: u32) -> (r: Result<GridMap, MapError>)
        ensures
            match r {
                Ok(m) => {
                    &&& width * height == 256
                    &&& m.wf()
                    &&& m@.w == width
                    &&& m@.h == height
                    &&& m@.cells == LAYOUT@
                },
                Err(e) => e == MapError::BadParameters && width * height != 256,
            },
    {
        let mut layout: Vec<char> = Vec::new();
        for c in it: LAYOUT.chars()
            invariant
                it.seq() == LAYOUT@,
                layout@ == LAYOUT@.take(it.index()),
        {
            layout.push(c);
        }
        proof {
            lemma_layout();
            assert(width * height <= u32::MAX * u32::MAX) by (nonlinear_arith)
                requires
                    0 <= width <= u32::MAX,
                    0 <= height <= u32::MAX,
            ;
        }
        if width as u64 * height as u64 == layout.len() as u64 {
            assert(width > 0 && height > 0) by (nonlinear_arith)
                requires
                    width * height == 256,
            ;
            Ok(GridMap { layout, w: width, h: height })
        } else {
            Err(MapError::BadParameters)
        }
    }

    /// The number of columns.
    pub fn width(&self) -> (w: u32)
        ensures
            w == self@.w,
    {
        self.w
    }

    /// The number of rows.
    pub fn height(&self) -> (h: u32)
        ensures
            h == self@.h,
    {
        self.h
    }

    /// The texture of the wall in column `i` of row `j`, or `None` where the
    /// cell is empty or `(i, j)` lies outside the map.
    pub fn get(&self, i: u32, j: u32) -> (r: Option<u32>)
        requires
            self.wf(),
        ensures
            r == self@.get(i as int, j as int),
    {
        if i < self.w && j < self.h {
            proof {
                crate::framebuffer::lemma_pixel_index(
                    self.w as int,
                    self.h as int,
                    i as int,
                    j as int,
                );
                assert(0 <= j * self.w) by (nonlinear_arith);
                assert(self.layout.len() == self.w * self.h);
            }
            let c = self.layout[i as usize + j as usize * self.w as usize];
            if '0' <= c && c <= '9' {
                Some(c as u32 - '0' as u32)
            } else {
                None
            }
        } else {
            None
        }
    }

    /// Whether column `i` of row `j` is empty floor. A place outside the map
    /// is not: a ray that leaves the map stops there.
    pub fn is_empty(&self, i: u32, j: u32) -> (r: bool)
        requires
            self.wf(),
        ensures
            r == self@.is_empty(i as int, j as int),
    {
        if i < self.w && j < self.h {
            proof {
                crate::framebuffer::lemma_pixel_index(
                    self.w as int,
                    self.h as int,
                    i as int,
                    j as int,
                );
                assert(0 <= j * self.w) by (nonlinear_arith);
                assert(self.layout.len() == self.w * self.h);
            }
            self.layout[i as usize + j as usize * self.w as usize] == ' '
        } else {
            false
        }
    }
}

} // verus!
