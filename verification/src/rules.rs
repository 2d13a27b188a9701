//! The mathematical model of the automaton: the neighbor count, the
//! transition rule for one cell, and the transition of a whole grid.
//!
//! A grid of side `n` is modelled as a sequence of `n * n` booleans in
//! row-major order; the cell at `row`, `col` sits at index `row * n + col`.

use vstd::prelude::*;
use vstd::arithmetic::div_mod::lemma_fundamental_div_mod_converse;

verus! {

/// Flat row-major index of the cell at `row`, `col` on a grid of side `n`.
pub open spec fn pos(row: int, col: int, n: nat) -> int {
    row * n + col
}

/// 1 when the position `row`, `col` lies on the grid and holds a live cell,
/// 0 otherwise. Positions outside `[0, n)` in either axis count as dead:
/// the grid has hard edges, with no wrap-around.
pub open spec fn live_at(cells: Seq<bool>, n: nat, row: int, col: int) -> nat {
    if 0 <= row < n && 0 <= col < n && cells[pos(row, col, n)] {
        1nat
    } else {
        0nat
    }
}

/// Number of live cells in the 3x3 window centered on `row`, `col`,
/// excluding the center itself and every out-of-bounds position.
pub open spec fn neighbor_count(cells: Seq<bool>, n: nat, row: int, col: int) -> nat {
    live_at(cells, n, row - 1, col - 1) + live_at(cells, n, row - 1, col) + live_at(
        cells,
        n,
        row - 1,
        col + 1,
    ) + live_at(cells, n, row, col - 1) + live_at(cells, n, row, col + 1) + live_at(
        cells,
        n,
        row + 1,
        col - 1,
    ) + live_at(cells, n, row + 1, col) + live_at(cells, n, row + 1, col + 1)
}

/// The transition rule for one cell: a live cell survives with exactly two
/// or three live neighbors; a dead cell becomes live with exactly three live
/// neighbors; every other combination yields a dead cell.
pub open spec fn next_cell(alive: bool, live_neighbors: nat) -> bool {
    if alive {
        live_neighbors == 2 || live_neighbors == 3
    } else {
        live_neighbors == 3
    }
}

/// The next generation of a whole grid: every cell's next state is computed
/// from the current grid alone.
pub open spec fn step_spec(cells: Seq<bool>, n: nat) -> Seq<bool> {
    Seq::new(
        n * n,
        |p: int| next_cell(cells[p], neighbor_count(cells, n, p / (n as int), p % (n as int))),
    )
}

/// Row-major indexing is a bijection between coordinate pairs on the grid
/// and flat indices below `n * n`.
pub proof fn lemma_pos_bounds(row: int, col: int, n: nat)
    requires
        0 <= row < n,
        0 <= col < n,
    ensures
        0 <= pos(row, col, n) < n * n,
        pos(row, col, n) / (n as int) == row,
        pos(row, col, n) % (n as int) == col,
{
    assert(0 <= row * n + col < n * n) by (nonlinear_arith)
        requires
            0 <= row < n,
            0 <= col < n,
    ;
    lemma_fundamental_div_mod_converse(row * n + col, n as int, row, col);
}

/// Whether `r`, `c` lies in the 3x3 window centered on `row`, `col`,
/// the center itself included. The relation is symmetric.
pub open spec fn in_window(row: int, col: int, r: int, c: int) -> bool {
    row - 1 <= r <= row + 1 && col - 1 <= c <= col + 1
}

/// A cell whose whole window on the grid is dead has no live neighbors, so
/// the transition leaves it dead: only a cell adjacent to a live cell can
/// come to life. This is what lets the optimized transition skip every cell
/// that the live-cell frontier does not reach.
pub proof fn lemma_unreached_cell_stays_dead(cells: Seq<bool>, n: nat, row: int, col: int)
    requires
        0 <= row < n,
        0 <= col < n,
        cells.len() == n * n,
        forall|r: int, c: int|
            0 <= r < n && 0 <= c < n && in_window(row, col, r, c) ==> !cells[pos(r, c, n)],
    ensures
        neighbor_count(cells, n, row, col) == 0,
        !step_spec(cells, n)[pos(row, col, n)],
{
    lemma_pos_bounds(row, col, n);
    assert(in_window(row, col, row, col));
    assert(!cells[pos(row, col, n)]);
    assert forall|r: int, c: int| in_window(row, col, r, c) implies live_at(cells, n, r, c)
        == 0 by {
        if 0 <= r < n && 0 <= c < n {
            assert(!cells[pos(r, c, n)]);
        }
    }
}

/// A corner cell has only three positions of its window on the grid, so its
/// live-neighbor count never exceeds three, let alone reaches eight.
pub proof fn lemma_corner_neighbor_bound(cells: Seq<bool>, n: nat)
    ensures
        neighbor_count(cells, n, 0, 0) <= 3,
{
}

} // verus!
