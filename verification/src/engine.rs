//! Neighbor counting, the evolution rule, and one-generation stepping.
//!
//! Neighbors are counted per offset position: each of the eight offsets
//! around a cell contributes on its own, so on a very small wrapped grid
//! two offsets may land on the same physical cell and count it twice.
//! That literal offset-based computation is deliberate and part of the
//! contract.

use vstd::prelude::*;

verus! {

use vstd::arithmetic::div_mod::lemma_div_pos_is_pos;
use vstd::arithmetic::div_mod::lemma_fundamental_div_mod_converse;
use vstd::arithmetic::div_mod::lemma_mod_add_multiples_vanish;
use vstd::arithmetic::div_mod::lemma_mod_division_less_than_divisor;
use vstd::arithmetic::div_mod::lemma_mod_self_0;
use vstd::arithmetic::div_mod::lemma_multiply_divide_lt;
use vstd::arithmetic::div_mod::lemma_small_mod;
use crate::grid::lemma_index_in_range;
use crate::grid::BoundaryMode;
use crate::grid::Grid;

/// The canonical B3/S23 rule: a live cell survives with 2 or 3 live
/// neighbors, a dead cell is born with exactly 3, everything else dies
/// or stays dead.
pub open spec fn spec_evolve(live: bool, neighbors: int) -> bool {
    if live {
        2 <= neighbors <= 3
    } else {
        neighbors == 3
    }
}

/// Whether the center cell at (row, col) is live or dead at the next
/// generation, given its current state and its live-neighbor count.
pub fn evolve(live: bool, neighbors: usize) -> (next: bool)
    ensures
        next == spec_evolve(live, neighbors as int),
{
    if live {
        2 <= neighbors && neighbors <= 3
    } else {
        neighbors == 3
    }
}

/// 1 for a live lookup, 0 for a dead one.
pub open spec fn live_as_count(live: bool) -> int {
    if live {
        1
    } else {
        0
    }
}

/// How many of the eight offset positions around (row, col) hold a live
/// cell, each lookup resolved by the boundary mode. The center cell is
/// excluded; each offset counts on its own.
pub open spec fn spec_count_live_neighbors(g: Grid, row: int, col: int, mode: BoundaryMode) -> int {
    live_as_count(g.spec_get(row - 1, col - 1, mode)) + live_as_count(
        g.spec_get(row - 1, col, mode),
    ) + live_as_count(g.spec_get(row - 1, col + 1, mode)) + live_as_count(
        g.spec_get(row, col - 1, mode),
    ) + live_as_count(g.spec_get(row, col + 1, mode)) + live_as_count(
        g.spec_get(row + 1, col - 1, mode),
    ) + live_as_count(g.spec_get(row + 1, col, mode)) + live_as_count(
        g.spec_get(row + 1, col + 1, mode),
    )
}

/// Shift a coordinate by an offset of at most one, wrapping around the
/// axis length toroidally.
fn wrap_shift(coord: usize, delta: i8, len: usize) -> (shifted: usize)
    requires
        1 <= len,
        coord < len,
        -1 <= delta as int <= 1,
    ensures
        shifted == (coord + delta as int) % (len as int),
        shifted < len,
{
    if delta == -1 {
        if coord == 0 {
            proof {
                lemma_mod_add_multiples_vanish(-1, len as int);
                lemma_small_mod((len - 1) as nat, len as nat);
            }
            len - 1
        } else {
            proof {
                lemma_small_mod((coord - 1) as nat, len as nat);
            }
            coord - 1
        }
    } else if delta == 1 {
        if coord + 1 == len {
            proof {
                lemma_mod_self_0(len as int);
            }
            0
        } else {
            proof {
                lemma_small_mod((coord + 1) as nat, len as nat);
            }
            coord + 1
        }
    } else {
        proof {
            lemma_small_mod(coord as nat, len as nat);
        }
        coord
    }
}

/// Whether the cell one offset step (dr, dc) away from the in-bounds
/// position (row, col) reads as live under the boundary mode.
fn neighbor_live(g: &Grid, row: usize, col: usize, dr: i8, dc: i8, mode: BoundaryMode) -> (live:
    bool)
    requires
        g.wf(),
        row < g.height,
        col < g.width,
        -1 <= dr as int <= 1,
        -1 <= dc as int <= 1,
    ensures
        live == g.spec_get(row + dr as int, col + dc as int, mode),
{
    match mode {
        BoundaryMode::Clamped => {
            let row_ok = if dr == -1 {
                row > 0
            } else if dr == 1 {
                row + 1 < g.height
            } else {
                true
            };
            let col_ok = if dc == -1 {
                col > 0
            } else if dc == 1 {
                col + 1 < g.width
            } else {
                true
            };
            if row_ok && col_ok {
                let r2 = if dr == -1 {
                    row - 1
                } else if dr == 1 {
                    row + 1
                } else {
                    row
                };
                let c2 = if dc == -1 {
                    col - 1
                } else if dc == 1 {
                    col + 1
                } else {
                    col
                };
                let idx = g.cell_index(r2, c2);
                g.cells[idx]
            } else {
                false
            }
        },
        BoundaryMode::Wrapped => {
            let r2 = wrap_shift(row, dr, g.height);
            let c2 = wrap_shift(col, dc, g.width);
            let idx = g.cell_index(r2, c2);
            g.cells[idx]
        },
    }
}

/// Count the live cells among the eight offset positions around the
/// in-bounds cell (row, col), resolving each lookup by the boundary
/// mode. Always between 0 and 8.
pub fn count_live_neighbors(grid: &Grid, row: usize, col: usize, mode: BoundaryMode) -> (count:
    usize)
    requires
        grid.wf(),
        row < grid.height,
        col < grid.width,
    ensures
        count == spec_count_live_neighbors(*grid, row as int, col as int, mode),
        count <= 8,
{
    let mut count: usize = 0;
    if neighbor_live(grid, row, col, -1, -1, mode) {
        count += 1;
    }
    if neighbor_live(grid, row, col, -1, 0, mode) {
        count += 1;
    }
    if neighbor_live(grid, row, col, -1, 1, mode) {
        count += 1;
    }
    if neighbor_live(grid, row, col, 0, -1, mode) {
        count += 1;
    }
    if neighbor_live(grid, row, col, 0, 1, mode) {
        count += 1;
    }
    if neighbor_live(grid, row, col, 1, -1, mode) {
        count += 1;
    }
    if neighbor_live(grid, row, col, 1, 0, mode) {
        count += 1;
    }
    if neighbor_live(grid, row, col, 1, 1, mode) {
        count += 1;
    }
    count
}

/// Count the live neighbors of the cell at flat index `cell_idx`. An
/// index past the end of the cell array yields 0, so the function is
/// total in the index.
pub fn cell_neighbors(grid: &Grid, cell_idx: usize, mode: BoundaryMode) -> (count: usize)
    requires
        grid.wf(),
    ensures
        cell_idx < grid.cells@.len() ==> count == spec_count_live_neighbors(
            *grid,
            cell_idx as int / grid.width as int,
            cell_idx as int % grid.width as int,
            mode,
        ),
        cell_idx >= grid.cells@.len() ==> count == 0,
        count <= 8,
{
    if cell_idx < grid.cells.len() {
        proof {
            lemma_div_pos_is_pos(cell_idx as int, grid.width as int);
            lemma_multiply_divide_lt(cell_idx as int, grid.width as int, grid.height as int);
            lemma_mod_division_less_than_divisor(cell_idx as int, grid.width as int);
        }
        let row = cell_idx / grid.width;
        let col = cell_idx % grid.width;
        count_live_neighbors(grid, row, col, mode)
    } else {
        0
    }
}

/// The cell array of the next generation: cell `i` evolves from its
/// current state and its live-neighbor count.
pub open spec fn step_cells(g: Grid, mode: BoundaryMode) -> Seq<bool> {
    Seq::new(
        (g.width * g.height) as nat,
        |i: int|
            spec_evolve(
                g.cells@[i],
                spec_count_live_neighbors(g, i / (g.width as int), i % (g.width as int), mode),
            ),
    )
}

/// Produce the next generation: a new grid of the same dimensions where
/// each cell evolves from its current state and its live-neighbor count
/// under the given boundary mode. The input grid is left untouched, so
/// the result is a function of the grid and the mode alone.
pub fn step(grid: &Grid, mode: BoundaryMode) -> (next: Grid)
    requires
        grid.wf(),
    ensures
        next.wf(),
        next.width == grid.width,
        next.height == grid.height,
        next.cells@ == step_cells(*grid, mode),
        forall|row: int, col: int|
            #![trigger next.cells@[row * (grid.width as int) + col]]
            0 <= row < grid.height && 0 <= col < grid.width ==> next.cells@[row * (
            grid.width as int) + col] == spec_evolve(
                grid.spec_cell(row, col),
                spec_count_live_neighbors(*grid, row, col, mode),
            ),
{
    let ghost target = step_cells(*grid, mode);
    let mut cells: Vec<bool> = Vec::new();
    let mut row: usize = 0;
    while row < grid.height
        invariant
            grid.wf(),
            row <= grid.height,
            target == step_cells(*grid, mode),
            cells@.len() == row * (grid.width as int),
            forall|i: int| 0 <= i < cells@.len() ==> cells@[i] == target[i],
        decreases grid.height - row,
    {
        let mut col: usize = 0;
        while col < grid.width
            invariant
                grid.wf(),
                row < grid.height,
                col <= grid.width,
                target == step_cells(*grid, mode),
                cells@.len() == row * (grid.width as int) + col,
                forall|i: int| 0 <= i < cells@.len() ==> cells@[i] == target[i],
            decreases grid.width - col,
        {
            let idx = grid.cell_index(row, col);
            let count = count_live_neighbors(grid, row, col, mode);
            let cell = evolve(grid.cells[idx], count);
            proof {
                lemma_index_in_range(
                    grid.width as int,
                    grid.height as int,
                    row as int,
                    col as int,
                );
                lemma_fundamental_div_mod_converse(
                    idx as int,
                    grid.width as int,
                    row as int,
                    col as int,
                );
            }
            cells.push(cell);
            col += 1;
        }
        proof {
            assert((row + 1) * (grid.width as int) == row * (grid.width as int) + grid.width)
                by (nonlinear_arith);
        }
        row += 1;
    }
    let next = Grid { width: grid.width, height: grid.height, cells };
    proof {
        assert(grid.height * (grid.width as int) == grid.width * (grid.height as int))
            by (nonlinear_arith);
        assert(next.cells@ =~= step_cells(*grid, mode));
        assert forall|row: int, col: int|
            #![trigger next.cells@[row * (grid.width as int) + col]]
            0 <= row < grid.height && 0 <= col < grid.width implies next.cells@[row * (
        grid.width as int) + col] == spec_evolve(
            grid.spec_cell(row, col),
            spec_count_live_neighbors(*grid, row, col, mode),
        ) by {
            lemma_index_in_range(grid.width as int, grid.height as int, row, col);
            lemma_fundamental_div_mod_converse(
                row * (grid.width as int) + col,
                grid.width as int,
                row,
                col,
            );
        }
    }
    next
}

/// A grid with no live cells is fully dead again after one step, under
/// either boundary mode: every lookup reads dead, so every neighbor
/// count is zero, and a dead cell with zero live neighbors stays dead.
pub proof fn lemma_dead_grid_stays_dead(g: Grid, mode: BoundaryMode)
    requires
        g.wf(),
        forall|i: int| 0 <= i < g.cells@.len() ==> !g.cells@[i],
    ensures
        step_cells(g, mode).len() == g.cells@.len(),
        forall|i: int| 0 <= i < step_cells(g, mode).len() ==> !step_cells(g, mode)[i],
{
    assert forall|r: int, c: int| #![trigger g.spec_get(r, c, mode)] !g.spec_get(r, c, mode) by {
        match mode {
            BoundaryMode::Clamped => {
                if g.in_bounds(r, c) {
                    lemma_index_in_range(g.width as int, g.height as int, r, c);
                }
            },
            BoundaryMode::Wrapped => {
                lemma_mod_division_less_than_divisor(r, g.height as int);
                lemma_mod_division_less_than_divisor(c, g.width as int);
                lemma_index_in_range(
                    g.width as int,
                    g.height as int,
                    r % (g.height as int),
                    c % (g.width as int),
                );
            },
        }
    }
}

/// On a fully live grid, an interior cell — one not on any edge — has
/// exactly 8 live neighbors under the clamped boundary mode.
pub proof fn lemma_full_grid_interior_count(g: Grid, row: int, col: int)
    requires
        g.wf(),
        forall|i: int| 0 <= i < g.cells@.len() ==> g.cells@[i],
        1 <= row < g.height - 1,
        1 <= col < g.width - 1,
    ensures
        spec_count_live_neighbors(g, row, col, BoundaryMode::Clamped) == 8,
{
    assert forall|r: int, c: int|
        #![trigger g.spec_get(r, c, BoundaryMode::Clamped)]
        g.in_bounds(r, c) implies g.spec_get(r, c, BoundaryMode::Clamped) by {
        lemma_index_in_range(g.width as int, g.height as int, r, c);
    }
}

/// Stepping is deterministic: the next generation is a function of the
/// input grid and the boundary mode alone, so any two grids that satisfy
/// `step`'s contract for the same input agree in dimensions and cells.
pub proof fn lemma_step_deterministic(g: Grid, mode: BoundaryMode, first: Grid, second: Grid)
    requires
        first.width == g.width,
        first.height == g.height,
        first.cells@ == step_cells(g, mode),
        second.width == g.width,
        second.height == g.height,
        second.cells@ == step_cells(g, mode),
    ensures
        first.width == second.width,
        first.height == second.height,
        first.cells@ == second.cells@,
{
}

/// The cells of the 2x2 block whose corners are (1, 1) and (2, 2).
pub open spec fn block_cell(row: int, col: int) -> bool {
    1 <= row <= 2 && 1 <= col <= 2
}

/// The 2x2 all-live block with corners (1, 1) and (2, 2) is a still
/// life: on a clamped grid at least 4x4 that is dead everywhere else,
/// evolving any cell leaves it unchanged. Each block cell sees exactly
/// 3 live neighbors and survives; every dead cell sees at most 2 and
/// stays dead.
pub proof fn lemma_block_still_life(g: Grid, row: int, col: int)
    requires
        g.wf(),
        g.width >= 4,
        g.height >= 4,
        forall|r: int, c: int|
            #![trigger g.cells@[r * (g.width as int) + c]]
            0 <= r < g.height && 0 <= c < g.width ==> g.cells@[r * (g.width as int) + c]
                == block_cell(r, c),
        0 <= row < g.height,
        0 <= col < g.width,
    ensures
        spec_evolve(
            g.spec_cell(row, col),
            spec_count_live_neighbors(g, row, col, BoundaryMode::Clamped),
        ) == g.spec_cell(row, col),
{
    assert forall|r: int, c: int|
        #![trigger g.spec_get(r, c, BoundaryMode::Clamped)]
        g.spec_get(r, c, BoundaryMode::Clamped) == block_cell(r, c) by {
        if g.in_bounds(r, c) {
            lemma_index_in_range(g.width as int, g.height as int, r, c);
        }
    }
    lemma_index_in_range(g.width as int, g.height as int, row, col);
    assert(g.spec_cell(row, col) == block_cell(row, col));
}

} // verus!
