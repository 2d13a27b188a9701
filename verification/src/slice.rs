//! One generation of the automaton: a square grid of binary cell states.
//!
//! A `Slice` owns `n * n` cells in row-major order. It is a pure value type:
//! a transition replaces the whole cell buffer at once, so no cell's new
//! state can ever read another cell's already-computed new state.

use vstd::prelude::*;
use crate::errors::EngineError;
use crate::rules::{pos, in_window, neighbor_count, step_spec};
use crate::rules::{lemma_pos_bounds, lemma_unreached_cell_stays_dead};
use crate::hex::{group_count, group_val, hex_digit_str, hex_prefix, hex_spec};
use vstd::string::StringExecFns;

verus! {

/// The abstract value of a [`Slice`]: its side length and its cells.
#[verifier::ext_equal]
pub struct SliceView {
    /// Side length of the square grid.
    pub n: nat,
    /// The `n * n` cell states in row-major order.
    pub cells: Seq<bool>,
}

/// A square grid of cells, one generation of the automaton.
#[derive(Debug)]
pub struct Slice {
    /// One side of the square grid; `n == 3` means a 3x3 grid.
    n: usize,
    /// The cells of the slice, stored in row-major order.
    cells: Vec<bool>,
}

impl View for Slice {
    type V = SliceView;

    closed spec fn view(&self) -> SliceView {
        SliceView { n: self.n as nat, cells: self.cells@ }
    }
}

/// Relies on `rand::random`: draws one value of a type that `rand`'s
/// `Standard` distribution covers. Nothing can be promised of the result.
pub assume_specification<T>[ rand::random::<T> ]() -> (r: T)
    where
        rand::distributions::Standard: rand::distributions::Distribution<T>,
;

/// The bookkeeping tie between the frontier queue and the visited map:
/// exactly the queued indices are marked visited, and all lie on the grid.
spec fn frontier_ok(queue: Seq<usize>, visited: Seq<bool>) -> bool {
    &&& forall|k: int|
        0 <= k < queue.len() ==> (#[trigger] queue[k] < visited.len() && visited[queue[k] as int])
    &&& forall|j: int| 0 <= j < visited.len() && #[trigger] visited[j] ==> queue.contains(j as usize)
}

/// Whether one of the first `bound` entries of the frontier queue is `j`.
spec fn queued(queue: Seq<usize>, bound: int, j: int) -> bool {
    exists|k: int| 0 <= k < bound && #[trigger] queue[k] as int == j
}

/// Mark one cell as part of the frontier, queueing it unless it is already
/// queued.
fn mark_cell(visited: &mut Vec<bool>, queue: &mut Vec<usize>, p: usize)
    requires
        p < old(visited)@.len(),
        frontier_ok(old(queue)@, old(visited)@),
    ensures
        final(visited)@.len() == old(visited)@.len(),
        frontier_ok(final(queue)@, final(visited)@),
        final(visited)@[p as int],
        forall|j: int|
            0 <= j < old(visited)@.len() && j != p ==> final(visited)@[j] == old(visited)@[j],
        forall|j: int|
            0 <= j < old(visited)@.len() && #[trigger] old(visited)@[j] ==> final(visited)@[j],
{
    if !visited[p] {
        visited[p] = true;
        queue.push(p);
        proof {
            assert forall|j: int|
                0 <= j < visited@.len() && #[trigger] visited@[j] implies queue@.contains(
                j as usize,
            ) by {
                if j == p as int {
                    assert(queue@[queue@.len() - 1] == p);
                } else {
                    assert(old(visited)@[j]);
                    assert(old(queue)@.contains(j as usize));
                    let k = choose|k: int|
                        0 <= k < old(queue)@.len() && old(queue)@[k] == j as usize;
                    assert(queue@[k] == j as usize);
                }
            }
        }
    }
}

/// Mark every position of the 3x3 window centered on `row`, `col` that lies
/// on the grid, queueing each newly marked cell.
#[verifier::rlimit(60)]
fn mark_window(visited: &mut Vec<bool>, queue: &mut Vec<usize>, row: usize, col: usize, n: usize)
    requires
        row < n,
        col < n,
        old(visited)@.len() == n * n,
        frontier_ok(old(queue)@, old(visited)@),
    ensures
        final(visited)@.len() == old(visited)@.len(),
        frontier_ok(final(queue)@, final(visited)@),
        forall|j: int| 0 <= j < old(visited)@.len() && old(visited)@[j] ==> final(visited)@[j],
        forall|r: int, c: int|
            0 <= r < n && 0 <= c < n && in_window(row as int, col as int, r, c)
                ==> final(visited)@[pos(r, c, n as nat)],
{
    let len = visited.len();
    proof {
        lemma_pos_bounds(row as int, col as int, n as nat);
    }
    mark_cell(visited, queue, row * n + col);
    if row >= 1 {
        if col >= 1 {
            proof {
                lemma_pos_bounds(row - 1, col - 1, n as nat);
            }
            mark_cell(visited, queue, (row - 1) * n + (col - 1));
        }
        proof {
            lemma_pos_bounds(row - 1, col as int, n as nat);
        }
        mark_cell(visited, queue, (row - 1) * n + col);
        if col + 1 < n {
            proof {
                lemma_pos_bounds(row - 1, col + 1, n as nat);
            }
            mark_cell(visited, queue, (row - 1) * n + (col + 1));
        }
    }
    if col >= 1 {
        proof {
            lemma_pos_bounds(row as int, col - 1, n as nat);
        }
        mark_cell(visited, queue, row * n + (col - 1));
    }
    if col + 1 < n {
        proof {
            lemma_pos_bounds(row as int, col + 1, n as nat);
        }
        mark_cell(visited, queue, row * n + (col + 1));
    }
    if row + 1 < n {
        if col >= 1 {
            proof {
                lemma_pos_bounds(row + 1, col - 1, n as nat);
            }
            mark_cell(visited, queue, (row + 1) * n + (col - 1));
        }
        proof {
            lemma_pos_bounds(row + 1, col as int, n as nat);
        }
        mark_cell(visited, queue, (row + 1) * n + col);
        if col + 1 < n {
            proof {
                lemma_pos_bounds(row + 1, col + 1, n as nat);
            }
            mark_cell(visited, queue, (row + 1) * n + (col + 1));
        }
    }
    proof {
        assert forall|r: int, c: int|
            0 <= r < n && 0 <= c < n && in_window(row as int, col as int, r, c) implies visited@[pos(
            r,
            c,
            n as nat,
        )] by {
            lemma_pos_bounds(r, c, n as nat);
        }
    }
}

impl Slice {
    /// A slice is well formed when it holds exactly `n * n` cells.
    pub open spec fn wf(&self) -> bool {
        self@.cells.len() == self@.n * self@.n
    }

    /// The cell buffer is held in one vector, so its length fits the
    /// machine's word.
    pub proof fn lemma_cells_bounded(&self)
        ensures
            self@.cells.len() <= usize::MAX,
    {
        vstd::std_specs::vec::axiom_spec_len(&self.cells);
    }

    /// Allocate an `n` by `n` grid with every cell dead. A side of zero
    /// gives a valid degenerate empty grid.
    pub fn new(n: usize) -> (r: Slice)
        requires
            n * n <= usize::MAX,
        ensures
            r.wf(),
            r@.n == n,
            r@.cells.len() == n * n,
            forall|p: int| 0 <= p < r@.cells.len() ==> !r@.cells[p],
    {
        let cells = vec![false; n * n];
        Slice { n, cells }
    }

    /// Side length of the grid.
    pub fn get_size(&self) -> (r: usize)
        ensures
            r == self@.n,
    {
        self.n
    }

    /// Read the cell at `row`, `col`. A coordinate outside `[0, n)` in
    /// either axis is rejected rather than read out of, or elsewhere in,
    /// the cell buffer.
    pub fn get(&self, row: usize, col: usize) -> (r: Result<bool, EngineError>)
        requires
            self.wf(),
        ensures
            row < self@.n && col < self@.n ==> r == Ok::<bool, EngineError>(
                self@.cells[pos(row as int, col as int, self@.n)],
            ),
            !(row < self@.n && col < self@.n) ==> r == Err::<bool, EngineError>(
                EngineError::IndexOutOfRange,
            ),
    {
        if row < self.n && col < self.n {
            let len = self.cells.len();
            proof {
                lemma_pos_bounds(row as int, col as int, self@.n);
            }
            Ok(self.cells[row * self.n + col])
        } else {
            Err(EngineError::IndexOutOfRange)
        }
    }

    /// Write the cell at `row`, `col`. A coordinate outside `[0, n)` in
    /// either axis is rejected and leaves the grid unchanged.
    pub fn set_cell(&mut self, row: usize, col: usize, value: bool) -> (r: Result<
        (),
        EngineError,
    >)
        requires
            old(self).wf(),
        ensures
            final(self).wf(),
            final(self)@.n == old(self)@.n,
            row < old(self)@.n && col < old(self)@.n ==> r == Ok::<(), EngineError>(())
                && final(self)@.cells == old(self)@.cells.update(
                pos(row as int, col as int, old(self)@.n),
                value,
            ),
            !(row < old(self)@.n && col < old(self)@.n) ==> r == Err::<(), EngineError>(
                EngineError::IndexOutOfRange,
            ) && final(self)@ == old(self)@,
    {
        if row < self.n && col < self.n {
            let len = self.cells.len();
            proof {
                lemma_pos_bounds(row as int, col as int, self@.n);
            }
            let p = row * self.n + col;
            self.cells[p] = value;
            Ok(())
        } else {
            Err(EngineError::IndexOutOfRange)
        }
    }

    /// Replace the whole cell buffer. A buffer whose length is not exactly
    /// `n * n` is rejected and leaves the grid unchanged.
    pub fn set_cells(&mut self, cells: Vec<bool>) -> (r: Result<(), EngineError>)
        requires
            old(self).wf(),
        ensures
            final(self).wf(),
            final(self)@.n == old(self)@.n,
            cells@.len() == old(self)@.n * old(self)@.n ==> r == Ok::<(), EngineError>(())
                && final(self)@.cells == cells@,
            cells@.len() != old(self)@.n * old(self)@.n ==> r == Err::<(), EngineError>(
                EngineError::InvalidInput,
            ) && final(self)@ == old(self)@,
    {
        let len = self.cells.len();
        if cells.len() != self.n * self.n {
            return Err(EngineError::InvalidInput);
        }
        self.cells = cells;
        Ok(())
    }

    /// Number of live cells in the 3x3 window centered on the cell at the
    /// given flat index, excluding the center. Any neighbor position outside
    /// `[0, n)` in either axis is simply absent, so edge and corner cells
    /// have fewer than eight neighbors. Both transition algorithms share
    /// this counter.
    pub fn count_live_neighbors(&self, index: usize) -> (r: usize)
        requires
            self.wf(),
            index < self@.n * self@.n,
        ensures
            r == neighbor_count(
                self@.cells,
                self@.n,
                index as int / self@.n as int,
                index as int % self@.n as int,
            ),
            r <= 8,
    {
        let n = self.n;
        let len = self.cells.len();
        proof {
            assert(self@.n != 0) by {
                if self@.n == 0 {
                    assert(self@.n * self@.n == 0);
                }
            }
        }
        let row = index / n;
        let col = index % n;
        proof {
            vstd::arithmetic::div_mod::lemma_fundamental_div_mod(index as int, n as int);
            assert(row < n) by (nonlinear_arith)
                requires
                    index as int == n as int * (row as int) + col as int,
                    0 <= col < n,
                    index < n * n,
            ;
        }
        let mut count: usize = 0;
        if row >= 1 {
            if col >= 1 {
                proof {
                    lemma_pos_bounds(row - 1, col - 1, self@.n);
                }
                if self.cells[(row - 1) * n + (col - 1)] {
                    count += 1;
                }
            }
            proof {
                lemma_pos_bounds(row - 1, col as int, self@.n);
            }
            if self.cells[(row - 1) * n + col] {
                count += 1;
            }
            if col + 1 < n {
                proof {
                    lemma_pos_bounds(row - 1, col + 1, self@.n);
                }
                if self.cells[(row - 1) * n + (col + 1)] {
                    count += 1;
                }
            }
        }
        if col >= 1 {
            proof {
                lemma_pos_bounds(row as int, col - 1, self@.n);
            }
            if self.cells[row * n + (col - 1)] {
                count += 1;
            }
        }
        if col + 1 < n {
            proof {
                lemma_pos_bounds(row as int, col + 1, self@.n);
            }
            if self.cells[row * n + (col + 1)] {
                count += 1;
            }
        }
        if row + 1 < n {
            if col >= 1 {
                proof {
                    lemma_pos_bounds(row + 1, col - 1, self@.n);
                }
                if self.cells[(row + 1) * n + (col - 1)] {
                    count += 1;
                }
            }
            proof {
                lemma_pos_bounds(row + 1, col as int, self@.n);
            }
            if self.cells[(row + 1) * n + col] {
                count += 1;
            }
            if col + 1 < n {
                proof {
                    lemma_pos_bounds(row + 1, col + 1, self@.n);
                }
                if self.cells[(row + 1) * n + (col + 1)] {
                    count += 1;
                }
            }
        }
        count
    }

    /// Compute the next generation by the full rebuild: every cell's next
    /// state is computed independently from the current grid and its
    /// live-neighbor count, into a fresh buffer that is then swapped in
    /// whole.
    pub fn next_generation_naive(&mut self)
        requires
            old(self).wf(),
        ensures
            final(self).wf(),
            final(self)@.n == old(self)@.n,
            final(self)@.cells == step_spec(old(self)@.cells, old(self)@.n),
    {
        let n = self.n;
        let len = self.cells.len();
        let mut next_cells: Vec<bool> = Vec::new();
        let mut p: usize = 0;
        while p < len
            invariant
                *self == *old(self),
                self.wf(),
                len == self@.cells.len(),
                n == self@.n,
                p <= len,
                next_cells@.len() == p,
                forall|q: int|
                    0 <= q < p ==> next_cells@[q] == step_spec(self@.cells, self@.n)[q],
            decreases len - p,
        {
            let live_neighbors = self.count_live_neighbors(p);
            let alive = self.cells[p];
            let next = if alive {
                live_neighbors == 2 || live_neighbors == 3
            } else {
                live_neighbors == 3
            };
            next_cells.push(next);
            p += 1;
        }
        self.cells = next_cells;
        proof {
            assert(self@.cells =~= step_spec(old(self)@.cells, old(self)@.n));
        }
    }

    /// Compute the next generation by visiting only the frontier: every
    /// live cell and every cell of its 3x3 window, collected once each with
    /// a visited set. Any cell the frontier does not reach has no live
    /// neighbor, so it is dead and stays dead. The result is cell-for-cell
    /// the same generation that the full rebuild computes.
    pub fn next_generation_naive_optimized(&mut self)
        requires
            old(self).wf(),
        ensures
            final(self).wf(),
            final(self)@.n == old(self)@.n,
            final(self)@.cells == step_spec(old(self)@.cells, old(self)@.n),
    {
        let n = self.n;
        let len = self.cells.len();
        let mut next_cells: Vec<bool> = vec![false; len];
        let mut visited: Vec<bool> = vec![false; len];
        let mut queue: Vec<usize> = Vec::new();

        // Collect every live cell and its whole window.
        let mut p: usize = 0;
        while p < len
            invariant
                *self == *old(self),
                self.wf(),
                len == self@.cells.len(),
                n == self@.n,
                p <= len,
                visited@.len() == len,
                next_cells@.len() == len,
                forall|j: int| 0 <= j < len ==> !next_cells@[j],
                frontier_ok(queue@, visited@),
                forall|q: int, r: int, c: int|
                    #![trigger self@.cells[q], visited@[pos(r, c, self@.n)]]
                    0 <= q < p && self@.cells[q] && 0 <= r < n && 0 <= c < n && in_window(
                        q / (n as int),
                        q % (n as int),
                        r,
                        c,
                    ) ==> visited@[pos(r, c, self@.n)],
            decreases len - p,
        {
            let ghost visited_pre = visited@;
            if self.cells[p] {
                proof {
                    assert(n != 0) by (nonlinear_arith)
                        requires
                            len == n * n,
                            p < len,
                    ;
                }
                let row = p / n;
                let col = p % n;
                proof {
                    vstd::arithmetic::div_mod::lemma_fundamental_div_mod(p as int, n as int);
                    assert(row < n) by (nonlinear_arith)
                        requires
                            p as int == n as int * (row as int) + col as int,
                            0 <= col < n,
                            p < n * n,
                    ;
                }
                mark_window(&mut visited, &mut queue, row, col, n);
            }
            proof {
                assert forall|q: int, r: int, c: int|
                    #![trigger self@.cells[q], visited@[pos(r, c, self@.n)]]
                    0 <= q < p + 1 && self@.cells[q] && 0 <= r < n && 0 <= c < n && in_window(
                        q / (n as int),
                        q % (n as int),
                        r,
                        c,
                    ) implies visited@[pos(r, c, self@.n)] by {
                    lemma_pos_bounds(r, c, self@.n);
                    if q < p {
                        assert(visited_pre[pos(r, c, self@.n)]);
                    }
                }
            }
            p += 1;
        }

        // Compute the next state of every frontier cell; the rest of the
        // fresh buffer is already dead.
        let qlen = queue.len();
        let mut k: usize = 0;
        while k < qlen
            invariant
                *self == *old(self),
                self.wf(),
                len == self@.cells.len(),
                n == self@.n,
                k <= qlen,
                qlen == queue@.len(),
                next_cells@.len() == len,
                forall|kk: int| 0 <= kk < qlen ==> #[trigger] queue@[kk] < len,
                forall|j: int|
                    0 <= j < len && queued(queue@, k as int, j) ==> #[trigger] next_cells@[j]
                        == step_spec(self@.cells, self@.n)[j],
                forall|j: int|
                    0 <= j < len && !queued(queue@, k as int, j) ==> !(#[trigger] next_cells@[j]),
            decreases qlen - k,
        {
            let idx = queue[k];
            let live_neighbors = self.count_live_neighbors(idx);
            let alive = self.cells[idx];
            let next = if alive {
                live_neighbors == 2 || live_neighbors == 3
            } else {
                live_neighbors == 3
            };
            next_cells[idx] = next;
            proof {
                assert forall|j: int|
                    queued(queue@, k as int + 1, j) implies (queued(queue@, k as int, j)
                    || queue@[k as int] as int == j) by {
                    let kk = choose|kk: int| 0 <= kk < k + 1 && queue@[kk] as int == j;
                    if kk < k {
                        assert(queued(queue@, k as int, j));
                    }
                }
                assert(queued(queue@, k as int + 1, idx as int)) by {
                    assert(queue@[k as int] as int == idx as int);
                }
                assert forall|j: int| queued(queue@, k as int, j) implies queued(
                    queue@,
                    k as int + 1,
                    j,
                ) by {
                    let kk = choose|kk: int| 0 <= kk < k && queue@[kk] as int == j;
                    assert(0 <= kk < k + 1 && queue@[kk] as int == j);
                }
            }
            k += 1;
        }

        proof {
            // A cell the frontier never reached has an all-dead window, so
            // its next state is dead, which is what the fresh buffer holds.
            assert forall|j: int| 0 <= j < len implies next_cells@[j] == step_spec(
                self@.cells,
                self@.n,
            )[j] by {
                if !queued(queue@, qlen as int, j) {
                    assert(self@.n != 0) by {
                        if self@.n == 0 {
                            assert(self@.n * self@.n == 0);
                        }
                    }
                    let jrow = j / (n as int);
                    let jcol = j % (n as int);
                    vstd::arithmetic::div_mod::lemma_fundamental_div_mod(j, n as int);
                    assert(jrow < n) by (nonlinear_arith)
                        requires
                            j == n as int * jrow + jcol,
                            0 <= jcol < n,
                            j < n * n,
                    ;
                    lemma_pos_bounds(jrow, jcol, self@.n);
                    assert(!visited@[j]) by {
                        if visited@[j] {
                            assert(queue@.contains(j as usize));
                            let kk = choose|kk: int|
                                0 <= kk < queue@.len() && queue@[kk] == j as usize;
                            assert(queue@[kk] as int == j);
                        }
                    }
                    assert forall|r: int, c: int|
                        0 <= r < n && 0 <= c < n && in_window(jrow, jcol, r, c) implies !self@.cells[pos(
                        r,
                        c,
                        self@.n,
                    )] by {
                        lemma_pos_bounds(r, c, self@.n);
                        if self@.cells[pos(r, c, self@.n)] {
                            let q = pos(r, c, self@.n);
                            assert(in_window(q / (n as int), q % (n as int), jrow, jcol));
                            assert(visited@[pos(jrow, jcol, self@.n)]);
                            assert(jrow * (self@.n as int) == (n as int) * jrow) by (nonlinear_arith)
                                requires
                                    self@.n == n as nat,
                            ;
                            assert(pos(jrow, jcol, self@.n) == j);
                        }
                    }
                    lemma_unreached_cell_stays_dead(self@.cells, self@.n, jrow, jcol);
                }
            }
            assert(next_cells@ =~= step_spec(self@.cells, self@.n));
        }
        self.cells = next_cells;
    }

    /// Serialize the grid to its canonical hex-string form: one digit per
    /// group of four cells in row-major order, the first cell of a group as
    /// the low bit, the final group possibly partial, and a space after
    /// every fourth digit. Every cell is encoded, so two grids of one side
    /// length are equal cell by cell exactly when their hex strings match.
    pub fn to_hex_string(&self) -> (r: String)
        ensures
            r@ == hex_spec(self@.cells),
    {
        let len = self.cells.len();
        let groups = if len % 4 == 0 {
            len / 4
        } else {
            len / 4 + 1
        };
        let mut s = String::new();
        proof {
            assert(s@ =~= hex_prefix(self@.cells, 0));
        }
        let mut i: usize = 0;
        while i < groups
            invariant
                groups == group_count(len as int),
                len == self@.cells.len(),
                i <= groups,
                s@ == hex_prefix(self@.cells, i as int),
            decreases groups - i,
        {
            proof {
                assert(4 * i < len);
            }
            let base = 4 * i;
            let remaining = len - base;
            let mut val: u8 = 0;
            if self.cells[base] {
                val += 1;
            }
            if remaining > 1 && self.cells[base + 1] {
                val += 2;
            }
            if remaining > 2 && self.cells[base + 2] {
                val += 4;
            }
            if remaining > 3 && self.cells[base + 3] {
                val += 8;
            }
            proof {
                assert(val as nat == group_val(self@.cells, i as int));
            }
            s.append(hex_digit_str(val));
            if i % 4 == 3 {
                s.append(" ");
                proof {
                    reveal_strlit(" ");
                }
            }
            proof {
                assert(s@ =~= hex_prefix(self@.cells, i as int + 1));
            }
            i += 1;
        }
        proof {
            assert(s@ =~= hex_spec(self@.cells));
        }
        s
    }

    /// Set every cell independently to live or dead by an unbiased coin
    /// flip. The grid's shape is kept; nothing is promised of the pattern.
    pub fn randomize(&mut self)
        requires
            old(self).wf(),
        ensures
            final(self).wf(),
            final(self)@.n == old(self)@.n,
    {
        let len = self.cells.len();
        let mut i: usize = 0;
        while i < len
            invariant
                self.cells@.len() == len,
                self@.n == old(self)@.n,
            decreases len - i,
        {
            let value = rand::random::<bool>();
            self.cells[i] = value;
            i += 1;
        }
    }
}

/// The two transition algorithms are interchangeable strategies under one
/// shared contract: on the same starting grid, the grid that
/// [`Slice::next_generation_naive`] produces and the grid that
/// [`Slice::next_generation_naive_optimized`] produces — each pinned by its
/// own postcondition to `step_spec` of the start — are equal cell by cell,
/// and therefore serialize to the same hex string.
pub proof fn lemma_algorithms_agree(before: SliceView, by_naive: SliceView, by_optimized: SliceView)
    requires
        by_naive.n == before.n,
        by_naive.cells == step_spec(before.cells, before.n),
        by_optimized.n == before.n,
        by_optimized.cells == step_spec(before.cells, before.n),
    ensures
        by_naive == by_optimized,
        hex_spec(by_naive.cells) == hex_spec(by_optimized.cells),
{
    assert(by_naive =~= by_optimized);
}

/// The hex string is the canonical comparable form of a grid: two
/// well-formed grids of one side length hold the same cells exactly when
/// their serializations match.
pub proof fn lemma_hex_equality_is_cell_equality(a: SliceView, b: SliceView)
    requires
        a.n == b.n,
        a.cells.len() == a.n * a.n,
        b.cells.len() == b.n * b.n,
    ensures
        (hex_spec(a.cells) == hex_spec(b.cells)) <==> (a == b),
{
    crate::hex::lemma_hex_canonical(a.cells, b.cells);
    if a.cells == b.cells {
        assert(a =~= b);
    }
}

impl Clone for Slice {
    /// A clone carries exactly the same side length and cells.
    fn clone(&self) -> (r: Self)
        ensures
            r@ == self@,
    {
        let r = Slice { n: self.n, cells: self.cells.clone() };
        proof {
            assert(r@.cells =~= self@.cells);
            assert(r@ =~= self@);
        }
        r
    }
}

impl PartialEq for Slice {
    /// Two slices are equal when they hold the same cells.
    fn eq(&self, other: &Self) -> (r: bool) {
        let r = self.cells == other.cells;
        proof {
            if r {
                assert(self.cells@ =~= other.cells@);
            } else if self.cells@ == other.cells@ {
                assert(forall|i: int|
                    0 <= i < self.cells@.len() ==> self.cells@[i] == other.cells@[i]);
                assert(false);
            }
        }
        r
    }
}

impl vstd::std_specs::cmp::PartialEqSpecImpl for Slice {
    open spec fn obeys_eq_spec() -> bool {
        true
    }

    open spec fn eq_spec(&self, other: &Self) -> bool {
        self@.cells == other@.cells
    }
}

} // verus!
