//! The temporal history of a game: an ordered, capacity-bounded buffer of
//! grid snapshots with a cursor that steps forward and backward through
//! generations. A forward step past the newest retained generation computes
//! a fresh one with the optimized transition; once the buffer is full, the
//! oldest snapshot is evicted from the front.

use vstd::prelude::*;
use crate::errors::EngineError;
use crate::hex::hex_spec;
use crate::rules::step_spec;
use crate::slice::{Slice, SliceView};

verus! {

/// The abstract value of a [`GameOfLife`]: the capacity, the retained
/// snapshots oldest first, and the cursor with its two optional companion
/// indices.
#[verifier::ext_equal]
pub struct GameView {
    /// Maximum number of retained snapshots.
    pub max_size: nat,
    /// The retained snapshots, oldest first.
    pub buffer: Seq<SliceView>,
    /// Index of the snapshot currently presented.
    pub curr: int,
    /// Index of the snapshot before the current one; absent at the start of
    /// the retained history.
    pub prev: Option<int>,
    /// Index of the snapshot after the current one; absent while the current
    /// snapshot is the newest retained one.
    pub next: Option<int>,
}

/// Well-formedness of a game state: at least one snapshot is retained and
/// never more than the capacity, the cursor is a valid index, the two
/// companion indices are exactly the cursor's neighbors where those exist,
/// and every snapshot is a well-formed grid of one common side length.
pub open spec fn game_wf(v: GameView) -> bool {
    &&& 1 <= v.max_size
    &&& 1 <= v.buffer.len() <= v.max_size
    &&& 0 <= v.curr < v.buffer.len()
    &&& v.prev == (if v.curr == 0 {
        None::<int>
    } else {
        Some(v.curr - 1)
    })
    &&& v.next == (if v.curr == v.buffer.len() - 1 {
        None::<int>
    } else {
        Some(v.curr + 1)
    })
    &&& forall|i: int|
        0 <= i < v.buffer.len() ==> (#[trigger] v.buffer[i]).cells.len() == v.buffer[i].n
            * v.buffer[i].n
    &&& forall|i: int| 0 <= i < v.buffer.len() ==> (#[trigger] v.buffer[i]).n == v.buffer[0].n
}

/// The next generation of one snapshot.
pub open spec fn next_snapshot(g: SliceView) -> SliceView {
    SliceView { n: g.n, cells: step_spec(g.cells, g.n) }
}

/// One forward step on the abstract state. With a next snapshot already
/// retained, only the cursor advances. Otherwise the next generation of the
/// current grid is computed and appended, after evicting the oldest
/// snapshot when the buffer is at capacity, and the cursor lands on the
/// newly appended newest snapshot.
pub open spec fn game_step_forward(v: GameView) -> GameView {
    match v.next {
        Some(nx) => GameView {
            curr: nx,
            prev: Some(v.curr),
            next: if nx == v.buffer.len() - 1 {
                None
            } else {
                Some(nx + 1)
            },
            ..v
        },
        None => {
            let g = next_snapshot(v.buffer[v.curr]);
            let buffer = if v.buffer.len() >= v.max_size {
                v.buffer.subrange(1, v.buffer.len() as int).push(g)
            } else {
                v.buffer.push(g)
            };
            let curr = buffer.len() - 1;
            GameView {
                max_size: v.max_size,
                buffer,
                curr,
                prev: if curr == 0 {
                    None
                } else {
                    Some(curr - 1)
                },
                next: None,
            }
        },
    }
}

/// One backward step on the abstract state: a no-op without a previous
/// snapshot, otherwise the cursor moves back one and the snapshot it leaves
/// becomes the next one.
pub open spec fn game_step_backward(v: GameView) -> GameView {
    match v.prev {
        None => v,
        Some(pv) => GameView {
            curr: pv,
            prev: if pv == 0 {
                None
            } else {
                Some(pv - 1)
            },
            next: Some(v.curr),
            ..v
        },
    }
}

/// Forward stepping preserves well-formedness; in particular the buffer
/// never outgrows the capacity, so the bound holds after any number of
/// forward steps.
pub proof fn lemma_step_forward_preserves_wf(v: GameView)
    requires
        game_wf(v),
    ensures
        game_wf(game_step_forward(v)),
        game_step_forward(v).buffer.len() <= v.max_size,
{
    let w = game_step_forward(v);
    match v.next {
        Some(nx) => {},
        None => {
            let g = next_snapshot(v.buffer[v.curr]);
            assert(g.cells.len() == g.n * g.n);
            if v.buffer.len() >= v.max_size {
                assert forall|i: int| 0 <= i < w.buffer.len() implies (#[trigger] w.buffer[i]).n
                    == w.buffer[0].n && w.buffer[i].cells.len() == w.buffer[i].n
                    * w.buffer[i].n by {
                    if i < w.buffer.len() - 1 {
                        assert(w.buffer[i] == v.buffer[i + 1]);
                    }
                }
            }
        },
    }
}

/// Backward stepping preserves well-formedness; the buffer itself is
/// untouched.
pub proof fn lemma_step_backward_preserves_wf(v: GameView)
    requires
        game_wf(v),
    ensures
        game_wf(game_step_backward(v)),
        game_step_backward(v).buffer == v.buffer,
{
}

/// Stepping backward and then forward from any state with a previous
/// snapshot restores the state exactly — in particular the current grid,
/// and with it the grid's hex serialization.
pub proof fn lemma_backward_then_forward_restores(v: GameView)
    requires
        game_wf(v),
        v.prev is Some,
    ensures
        game_step_forward(game_step_backward(v)) == v,
        hex_spec(game_step_forward(game_step_backward(v)).buffer[game_step_forward(
            game_step_backward(v),
        ).curr].cells) == hex_spec(v.buffer[v.curr].cells),
{
    assert(game_step_forward(game_step_backward(v)) =~= v);
}

/// Five forward steps on a fresh buffer of capacity three, starting from
/// any sole snapshot: with the k-th computed generation written `G_k`, the
/// buffer then retains exactly the third, fourth and fifth computed
/// generations, in order; the fifth is current with no next; and the
/// previous generation is the fourth computed one — the earlier ones were
/// evicted from the front.
pub proof fn lemma_five_steps_at_capacity_three(v: GameView)
    requires
        game_wf(v),
        v.max_size == 3,
        v.buffer.len() == 1,
    ensures
        ({
            let g1 = next_snapshot(v.buffer[0]);
            let g2 = next_snapshot(g1);
            let g3 = next_snapshot(g2);
            let g4 = next_snapshot(g3);
            let g5 = next_snapshot(g4);
            let w = game_step_forward(
                game_step_forward(
                    game_step_forward(game_step_forward(game_step_forward(v))),
                ),
            );
            &&& w.buffer == seq![g3, g4, g5]
            &&& w.curr == 2
            &&& w.buffer[w.curr] == g5
            &&& w.prev == Some(1int)
            &&& w.buffer[w.prev->0] == g4
            &&& w.next is None
        }),
{
    let g0 = v.buffer[0];
    let g1 = next_snapshot(g0);
    let g2 = next_snapshot(g1);
    let g3 = next_snapshot(g2);
    let g4 = next_snapshot(g3);
    let g5 = next_snapshot(g4);
    let v1 = game_step_forward(v);
    assert(v1.buffer =~= seq![g0, g1]);
    let v2 = game_step_forward(v1);
    assert(v2.buffer =~= seq![g0, g1, g2]);
    let v3 = game_step_forward(v2);
    assert(v3.buffer =~= seq![g1, g2, g3]);
    let v4 = game_step_forward(v3);
    assert(v4.buffer =~= seq![g2, g3, g4]);
    let v5 = game_step_forward(v4);
    assert(v5.buffer =~= seq![g3, g4, g5]);
}

/// A navigable, capacity-bounded timeline of grid snapshots.
pub struct GameOfLife {
    /// Maximum number of retained snapshots.
    slice_buffer_max_size: usize,
    /// Index into the buffer of the snapshot currently presented.
    curr_slice_idx: usize,
    /// Index of the snapshot before the current one, where one exists.
    prev_slice_idx: Option<usize>,
    /// Index of the snapshot after the current one, where one is retained.
    next_slice_idx: Option<usize>,
    /// The retained snapshots, oldest first.
    slice_buffer: Vec<Slice>,
}

impl View for GameOfLife {
    type V = GameView;

    closed spec fn view(&self) -> GameView {
        GameView {
            max_size: self.slice_buffer_max_size as nat,
            buffer: self.slice_buffer@.map_values(|s: Slice| s@),
            curr: self.curr_slice_idx as int,
            prev: match self.prev_slice_idx {
                Some(i) => Some(i as int),
                None => None,
            },
            next: match self.next_slice_idx {
                Some(i) => Some(i as int),
                None => None,
            },
        }
    }
}

impl GameOfLife {
    /// A game is well formed when its abstract state is.
    pub open spec fn wf(&self) -> bool {
        game_wf(self@)
    }

    /// Create a game that retains at most `slice_buffer_max_size` snapshots,
    /// holding one randomized grid of side `slice_size` as its sole, current
    /// snapshot: no previous and no next generation exist yet.
    pub fn new(slice_buffer_max_size: usize, slice_size: usize) -> (r: GameOfLife)
        requires
            slice_buffer_max_size >= 1,
            slice_size * slice_size <= usize::MAX,
        ensures
            r.wf(),
            r@.max_size == slice_buffer_max_size,
            r@.buffer.len() == 1,
            r@.buffer[0].n == slice_size,
            r@.curr == 0,
            r@.prev is None,
            r@.next is None,
    {
        let mut game = GameOfLife {
            slice_buffer_max_size,
            curr_slice_idx: 0,
            prev_slice_idx: None,
            next_slice_idx: None,
            slice_buffer: Vec::with_capacity(slice_buffer_max_size),
        };
        game.init(slice_size);
        game
    }

    /// Fill an empty snapshot buffer with one randomized grid of the given
    /// side length.
    fn init(&mut self, slice_size: usize)
        requires
            slice_size * slice_size <= usize::MAX,
            old(self)@.buffer.len() == 0,
        ensures
            final(self)@.max_size == old(self)@.max_size,
            final(self)@.curr == old(self)@.curr,
            final(self)@.prev == old(self)@.prev,
            final(self)@.next == old(self)@.next,
            final(self)@.buffer.len() == 1,
            final(self)@.buffer[0].n == slice_size,
            final(self)@.buffer[0].cells.len() == final(self)@.buffer[0].n
                * final(self)@.buffer[0].n,
    {
        let mut slice = Slice::new(slice_size);
        slice.randomize();
        self.slice_buffer.push(slice);
    }

    /// Discard every snapshot and reinitialize with a single fresh
    /// randomized grid, keeping the original side length and capacity; the
    /// new sole snapshot is current, with no previous and no next.
    pub fn reset(&mut self)
        requires
            old(self).wf(),
        ensures
            final(self).wf(),
            final(self)@.max_size == old(self)@.max_size,
            final(self)@.buffer.len() == 1,
            final(self)@.buffer[0].n == old(self)@.buffer[0].n,
            final(self)@.curr == 0,
            final(self)@.prev is None,
            final(self)@.next is None,
    {
        proof {
            self.slice_buffer[0].lemma_cells_bounded();
        }
        let slice_size = self.slice_buffer[0].get_size();
        proof {
            assert(self@.buffer[0] == self.slice_buffer@[0]@);
            assert(slice_size * slice_size <= usize::MAX);
        }
        self.curr_slice_idx = 0;
        self.prev_slice_idx = None;
        self.next_slice_idx = None;
        self.slice_buffer.clear();
        self.init(slice_size);
    }

    /// Number of snapshots currently retained.
    pub fn buffer_len(&self) -> (r: usize)
        ensures
            r == self@.buffer.len(),
    {
        self.slice_buffer.len()
    }

    /// Capacity the game was created with.
    pub fn max_size(&self) -> (r: usize)
        ensures
            r == self@.max_size,
    {
        self.slice_buffer_max_size
    }

    /// The snapshot currently presented, read-only.
    pub fn get_curr_slice(&self) -> (r: &Slice)
        requires
            self.wf(),
        ensures
            r@ == self@.buffer[self@.curr],
    {
        &self.slice_buffer[self.curr_slice_idx]
    }

    /// The snapshot currently presented, open to in-place mutation. The
    /// history stays well formed as long as the mutation keeps the grid's
    /// shape, which every grid operation does; an in-place edit stands in
    /// for the snapshot from then on.
    pub fn get_curr_slice_mut(&mut self) -> (r: &mut Slice)
        requires
            old(self).wf(),
        ensures
            (*r)@ == old(self)@.buffer[old(self)@.curr],
            final(self)@ == (GameView {
                buffer: old(self)@.buffer.update(old(self)@.curr, (*final(r))@),
                ..old(self)@
            }),
    {
        let idx = self.curr_slice_idx;
        proof {
            assert forall|x: Slice|
                self.slice_buffer@.update(idx as int, x).map_values(|sl: Slice| sl@) == self@.buffer.update(
                    idx as int,
                    x@,
                ) by {
                assert(self.slice_buffer@.update(idx as int, x).map_values(|sl: Slice| sl@)
                    =~= self@.buffer.update(idx as int, x@));
            }
        }
        &mut self.slice_buffer[idx]
    }

    /// The snapshot before the current one, read-only. Immediately after
    /// creation or reset, or back at the oldest retained snapshot, none
    /// exists and the request is rejected.
    pub fn get_prev_slice(&self) -> (r: Result<&Slice, EngineError>)
        requires
            self.wf(),
        ensures
            match self@.prev {
                Some(i) => r matches Ok(s) && s@ == self@.buffer[i],
                None => r matches Err(e) && e == EngineError::InvalidState,
            },
    {
        match self.prev_slice_idx {
            Some(i) => Ok(&self.slice_buffer[i]),
            None => Err(EngineError::InvalidState),
        }
    }

    /// The snapshot after the current one, read-only, if one has already
    /// been computed and retained; absent otherwise — an absent next
    /// generation is not an error, it simply has not been computed yet.
    pub fn get_next_slice(&self) -> (r: Option<&Slice>)
        requires
            self.wf(),
        ensures
            match self@.next {
                Some(i) => r matches Some(s) && s@ == self@.buffer[i],
                None => r is None,
            },
    {
        match self.next_slice_idx {
            Some(i) => Some(&self.slice_buffer[i]),
            None => None,
        }
    }

    /// The snapshot before the current one, open to in-place mutation, under
    /// the same rejection rule as the read-only access.
    pub fn get_prev_slice_mut(&mut self) -> (r: Result<&mut Slice, EngineError>)
        requires
            old(self).wf(),
        ensures
            match old(self)@.prev {
                Some(i) => r matches Ok(s) && (*s)@ == old(self)@.buffer[i] && final(self)@
                    == (GameView { buffer: old(self)@.buffer.update(i, (*final(s))@), ..old(self)@ }),
                None => r matches Err(e) && e == EngineError::InvalidState && final(self)@ == old(
                    self,
                )@,
            },
    {
        match self.prev_slice_idx {
            Some(i) => {
                proof {
                    assert forall|x: Slice|
                        self.slice_buffer@.update(i as int, x).map_values(|sl: Slice| sl@)
                            == self@.buffer.update(i as int, x@) by {
                        assert(self.slice_buffer@.update(i as int, x).map_values(
                            |sl: Slice| sl@,
                        ) =~= self@.buffer.update(i as int, x@));
                    }
                }
                Ok(&mut self.slice_buffer[i])
            },
            None => Err(EngineError::InvalidState),
        }
    }

    /// The snapshot after the current one, open to in-place mutation, if one
    /// has already been computed and retained; absent otherwise.
    pub fn get_next_slice_mut(&mut self) -> (r: Option<&mut Slice>)
        requires
            old(self).wf(),
        ensures
            match old(self)@.next {
                Some(i) => r matches Some(s) && (*s)@ == old(self)@.buffer[i] && final(self)@
                    == (GameView { buffer: old(self)@.buffer.update(i, (*final(s))@), ..old(self)@ }),
                None => r is None && final(self)@ == old(self)@,
            },
    {
        match self.next_slice_idx {
            Some(i) => {
                proof {
                    assert forall|x: Slice|
                        self.slice_buffer@.update(i as int, x).map_values(|sl: Slice| sl@)
                            == self@.buffer.update(i as int, x@) by {
                        assert(self.slice_buffer@.update(i as int, x).map_values(
                            |sl: Slice| sl@,
                        ) =~= self@.buffer.update(i as int, x@));
                    }
                }
                Some(&mut self.slice_buffer[i])
            },
            None => None,
        }
    }

    /// Step forward one generation: reuse the retained next snapshot if one
    /// exists, otherwise compute the next generation of the current grid
    /// with the optimized transition and append it, evicting the oldest
    /// snapshot first when the buffer is at capacity. The buffer never
    /// outgrows the capacity.
    pub fn step_forward(&mut self)
        requires
            old(self).wf(),
        ensures
            final(self).wf(),
            final(self)@ == game_step_forward(old(self)@),
            final(self)@.buffer.len() <= final(self)@.max_size,
    {
        proof {
            lemma_step_forward_preserves_wf(old(self)@);
        }
        match self.next_slice_idx {
            None => {
                let mut slice = self.get_curr_slice().clone();
                slice.next_generation_naive_optimized();
                if self.slice_buffer.len() >= self.slice_buffer_max_size {
                    self.slice_buffer.remove(0);
                }
                self.slice_buffer.push(slice);
                let c = self.slice_buffer.len() - 1;
                self.curr_slice_idx = c;
                self.prev_slice_idx = if c == 0 {
                    None
                } else {
                    Some(c - 1)
                };
                self.next_slice_idx = None;
                proof {
                    assert(self@.buffer =~= game_step_forward(old(self)@).buffer);
                    assert(self@ =~= game_step_forward(old(self)@));
                }
            },
            Some(nx) => {
                self.prev_slice_idx = Some(self.curr_slice_idx);
                self.curr_slice_idx = nx;
                self.next_slice_idx = if nx == self.slice_buffer.len() - 1 {
                    None
                } else {
                    Some(nx + 1)
                };
                proof {
                    assert(self@ =~= game_step_forward(old(self)@));
                }
            },
        }
    }

    /// Step backward one generation by moving the cursor to the previous
    /// retained snapshot; without one this is a no-op — the timeline cannot
    /// go back past the oldest retained generation.
    pub fn step_backward(&mut self)
        requires
            old(self).wf(),
        ensures
            final(self).wf(),
            final(self)@ == game_step_backward(old(self)@),
    {
        proof {
            lemma_step_backward_preserves_wf(old(self)@);
        }
        match self.prev_slice_idx {
            None => {},
            Some(pv) => {
                self.next_slice_idx = Some(self.curr_slice_idx);
                self.curr_slice_idx = pv;
                self.prev_slice_idx = if pv == 0 {
                    None
                } else {
                    Some(pv - 1)
                };
                proof {
                    assert(self@ =~= game_step_backward(old(self)@));
                }
            },
        }
    }
}

} // verus!
