//! The grid of cells and its boundary policy.
//!
//! A [`Grid`] holds a flat boolean cell array of size `width * height`,
//! indexed by `row * width + col`. Out-of-range lookups never fail: a
//! [`BoundaryMode`] decides whether they read as dead (`Clamped`) or wrap
//! around toroidally (`Wrapped`).

use vstd::prelude::*;

verus! {

use vstd::arithmetic::div_mod::lemma_mod_division_less_than_divisor;
use vstd::pervasive::VecAdditionalExecFns;

/// Relies on String::push: it appends the given character to the end of
/// the string.
pub assume_specification[ String::push ](s: &mut String, ch: char)
    ensures
        final(s)@ == old(s)@.push(ch),
;

/// Policy for resolving coordinates that fall outside the grid.
#[derive(Clone, Copy, Debug, PartialEq, Eq, Structural)]
pub enum BoundaryMode {
    /// Positions outside the grid count as dead cells.
    Clamped,
    /// The grid is a torus: rows and columns wrap around modulo the
    /// grid's dimensions.
    Wrapped,
}

/// The one error the core can raise: a grid with zero width or height
/// was requested.
#[derive(Clone, Copy, Debug, PartialEq, Eq, Structural)]
pub enum GridError {
    InvalidDimensions,
}

/// A fixed-size grid of live/dead cells, one generation of the simulation.
#[derive(Debug)]
pub struct Grid {
    pub width: usize,
    pub height: usize,
    pub cells: Vec<bool>,
}

/// In the rendered text, every position of an earlier row precedes the
/// current write position.
proof fn lemma_text_index_lt(w: int, r: int, c: int, row: int, col: int)
    by (nonlinear_arith)
    requires
        0 <= c <= w,
        0 <= r < row,
        0 <= col,
    ensures
        0 <= r * (w + 1) + c < row * (w + 1) + col,
{
}

/// A flat cell index is in range whenever its row and column are.
pub proof fn lemma_index_in_range(w: int, h: int, row: int, col: int)
    by (nonlinear_arith)
    requires
        1 <= w,
        1 <= h,
        0 <= row < h,
        0 <= col < w,
    ensures
        0 <= row * w + col < w * h,
{
}

impl Grid {
    /// A well-formed grid has positive dimensions and exactly one cell
    /// per position; the cell count fits the machine's word.
    pub open spec fn wf(&self) -> bool {
        &&& 1 <= self.width
        &&& 1 <= self.height
        &&& self.width * self.height <= usize::MAX
        &&& self.cells@.len() == self.width * self.height
    }

    pub open spec fn in_bounds(&self, row: int, col: int) -> bool {
        &&& 0 <= row < self.height
        &&& 0 <= col < self.width
    }

    /// The cell stored at (row, col); meaningful only in bounds.
    pub open spec fn spec_cell(&self, row: int, col: int) -> bool {
        self.cells@[row * (self.width as int) + col]
    }

    /// What a lookup at (row, col) yields under the given boundary mode:
    /// `Clamped` reads positions outside the grid as dead, `Wrapped`
    /// reduces the coordinates modulo the dimensions first.
    pub open spec fn spec_get(&self, row: int, col: int, mode: BoundaryMode) -> bool {
        match mode {
            BoundaryMode::Clamped => self.in_bounds(row, col) && self.spec_cell(row, col),
            BoundaryMode::Wrapped => self.spec_cell(
                row % (self.height as int),
                col % (self.width as int),
            ),
        }
    }

    /// Build a grid of `width * height` cells, initializing cell `i`
    /// (in row-major order) from the supplied function. Rejects a zero
    /// width or height: an empty simulation is meaningless.
    pub fn new<F: Fn(usize) -> bool>(width: usize, height: usize, initial: F) -> (result: Result<
        Grid,
        GridError,
    >)
        requires
            width * height <= usize::MAX,
            forall|i: usize| i < width * height ==> call_requires(initial, (i,)),
        ensures
            match result {
                Ok(g) => {
                    &&& g.wf()
                    &&& g.width == width
                    &&& g.height == height
                    &&& forall|i: int|
                        0 <= i < g.cells@.len() ==> call_ensures(
                            initial,
                            ((i as usize),),
                            g.cells@[i],
                        )
                },
                Err(e) => e == GridError::InvalidDimensions,
            },
            result is Err <==> (width == 0 || height == 0),
    {
        if width == 0 || height == 0 {
            return Err(GridError::InvalidDimensions);
        }
        let n = width * height;
        let mut cells: Vec<bool> = Vec::new();
        let mut i: usize = 0;
        while i < n
            invariant
                n == width * height,
                i <= n,
                cells@.len() == i,
                forall|j: usize| j < n ==> call_requires(initial, (j,)),
                forall|j: int| 0 <= j < i ==> call_ensures(initial, ((j as usize),), cells@[j]),
            decreases n - i,
        {
            cells.push(initial(i));
            i += 1;
        }
        Ok(Grid { width, height, cells })
    }

    /// Flat index of an in-bounds (row, col) position.
    pub(crate) fn cell_index(&self, row: usize, col: usize) -> (idx: usize)
        requires
            self.wf(),
            row < self.height,
            col < self.width,
        ensures
            idx == row * self.width + col,
            idx < self.cells@.len(),
    {
        proof {
            lemma_index_in_range(
                self.width as int,
                self.height as int,
                row as int,
                col as int,
            );
        }
        row * self.width + col
    }

    /// Live/dead state at (row, col), resolved by the boundary mode:
    /// under `Clamped` any position outside the grid reads as dead, under
    /// `Wrapped` the coordinates are reduced modulo height and width.
    pub fn get(&self, row: usize, col: usize, mode: BoundaryMode) -> (live: bool)
        requires
            self.wf(),
        ensures
            live == self.spec_get(row as int, col as int, mode),
    {
        match mode {
            BoundaryMode::Clamped => {
                if row < self.height && col < self.width {
                    let idx = self.cell_index(row, col);
                    self.cells[idx]
                } else {
                    false
                }
            },
            BoundaryMode::Wrapped => {
                proof {
                    lemma_mod_division_less_than_divisor(row as int, self.height as int);
                    lemma_mod_division_less_than_divisor(col as int, self.width as int);
                }
                let r = row % self.height;
                let c = col % self.width;
                let idx = self.cell_index(r, c);
                self.cells[idx]
            },
        }
    }

    /// Render the grid as `height` newline-terminated rows of `width`
    /// characters, one per cell.
    pub fn to_text(&self, dead: char, live: char) -> (out: String)
        requires
            self.wf(),
        ensures
            out@.len() == self.height * (self.width as int + 1),
            forall|r: int, c: int|
                #![trigger out@[r * (self.width as int + 1) + c]]
                0 <= r < self.height && 0 <= c < self.width ==> out@[r * (self.width as int + 1)
                    + c] == (if self.spec_cell(r, c) {
                    live
                } else {
                    dead
                }),
            forall|r: int|
                #![trigger out@[r * (self.width as int + 1) + self.width]]
                0 <= r < self.height ==> out@[r * (self.width as int + 1) + self.width] == '\n',
    {
        let out = format_bitvec(&self.cells, self.width, self.height, dead, live);
        proof {
            assert forall|r: int, c: int|
                0 <= r < self.height && 0 <= c < self.width implies out@[r * (self.width as int + 1)
                + c] == (if self.spec_cell(r, c) {
                live
            } else {
                dead
            }) by {
                lemma_index_in_range(self.width as int, self.height as int, r, c);
            }
        }
        out
    }

    /// Overwrite the single cell at an in-bounds (row, col).
    pub fn set(&mut self, row: usize, col: usize, value: bool)
        requires
            old(self).wf(),
            row < old(self).height,
            col < old(self).width,
        ensures
            final(self).wf(),
            final(self).width == old(self).width,
            final(self).height == old(self).height,
            final(self).cells@ == old(self).cells@.update(
                row * (old(self).width as int) + col,
                value,
            ),
    {
        let idx = self.cell_index(row, col);
        self.cells.set(idx, value);
    }
}

/// The character that stands for position `idx` of a flat cell array:
/// the live character for an in-range live cell, the dead character for
/// everything else.
pub open spec fn render_char(cells: Seq<bool>, idx: int, dead: char, live: char) -> char {
    if 0 <= idx < cells.len() && cells[idx] {
        live
    } else {
        dead
    }
}

/// Render a flat cell array as `height` newline-terminated rows of
/// `width` characters each. Positions past the end of the array read as
/// dead, so the function is total in the array's length.
pub fn format_bitvec(bv: &Vec<bool>, width: usize, height: usize, dead: char, live: char) -> (out:
    String)
    requires
        width * height <= usize::MAX,
    ensures
        out@.len() == height * (width as int + 1),
        forall|r: int, c: int|
            #![trigger out@[r * (width as int + 1) + c]]
            0 <= r < height && 0 <= c < width ==> out@[r * (width as int + 1) + c] == render_char(
                bv@,
                r * (width as int) + c,
                dead,
                live,
            ),
        forall|r: int|
            #![trigger out@[r * (width as int + 1) + width]]
            0 <= r < height ==> out@[r * (width as int + 1) + width] == '\n',
{
    let mut out = String::new();
    let mut row: usize = 0;
    while row < height
        invariant
            width * height <= usize::MAX,
            row <= height,
            out@.len() == row * (width as int + 1),
            forall|r: int, c: int|
                #![trigger out@[r * (width as int + 1) + c]]
                0 <= r < row && 0 <= c < width ==> out@[r * (width as int + 1) + c] == render_char(
                    bv@,
                    r * (width as int) + c,
                    dead,
                    live,
                ),
            forall|r: int|
                #![trigger out@[r * (width as int + 1) + width]]
                0 <= r < row ==> out@[r * (width as int + 1) + width] == '\n',
        decreases height - row,
    {
        let mut col: usize = 0;
        while col < width
            invariant
                width * height <= usize::MAX,
                row < height,
                col <= width,
                out@.len() == row * (width as int + 1) + col,
                forall|r: int, c: int|
                    #![trigger out@[r * (width as int + 1) + c]]
                    0 <= r < row && 0 <= c < width ==> out@[r * (width as int + 1) + c]
                        == render_char(bv@, r * (width as int) + c, dead, live),
                forall|r: int|
                    #![trigger out@[r * (width as int + 1) + width]]
                    0 <= r < row ==> out@[r * (width as int + 1) + width] == '\n',
                forall|c: int|
                    #![trigger out@[row * (width as int + 1) + c]]
                    0 <= c < col ==> out@[row * (width as int + 1) + c] == render_char(
                        bv@,
                        row * (width as int) + c,
                        dead,
                        live,
                    ),
            decreases width - col,
        {
            proof {
                lemma_index_in_range(width as int, height as int, row as int, col as int);
            }
            let idx = row * width + col;
            let ch = if idx < bv.len() {
                if bv[idx] {
                    live
                } else {
                    dead
                }
            } else {
                dead
            };
            out.push(ch);
            proof {
                assert forall|r: int, c: int|
                    #![trigger out@[r * (width as int + 1) + c]]
                    0 <= r < row && 0 <= c < width implies out@[r * (width as int + 1) + c]
                    == render_char(bv@, r * (width as int) + c, dead, live) by {
                    lemma_text_index_lt(width as int, r, c, row as int, col as int);
                }
                assert forall|r: int|
                    #![trigger out@[r * (width as int + 1) + width]]
                    0 <= r < row implies out@[r * (width as int + 1) + width] == '\n' by {
                    lemma_text_index_lt(width as int, r, width as int, row as int, col as int);
                }
            }
            col += 1;
        }
        out.push('\n');
        proof {
            assert forall|r: int, c: int|
                #![trigger out@[r * (width as int + 1) + c]]
                0 <= r < row && 0 <= c < width implies out@[r * (width as int + 1) + c]
                == render_char(bv@, r * (width as int) + c, dead, live) by {
                lemma_text_index_lt(width as int, r, c, row as int, width as int);
            }
            assert forall|r: int|
                #![trigger out@[r * (width as int + 1) + width]]
                0 <= r < row implies out@[r * (width as int + 1) + width] == '\n' by {
                lemma_text_index_lt(width as int, r, width as int, row as int, width as int);
            }
            assert((row + 1) * (width as int + 1) == row * (width as int + 1) + width + 1)
                by (nonlinear_arith);
        }
        row += 1;
    }
    out
}

} // verus!
