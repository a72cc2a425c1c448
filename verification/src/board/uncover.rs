//! Revealing cells: the part of a move that opens cells and spreads over
//! the grid.

use vstd::prelude::*;
use crate::board::{Board, BoardResult, BoardState};
use crate::cell::{CellKind, CellState};
use crate::flood::{
    flooded, flooding, hits_mine, is_closed, is_closed_mine, lemma_flood_compose,
    lemma_flood_nothing, lemma_flooded_cells, lemma_flooding_done, lemma_flooding_open,
    lemma_flooding_skip, lemma_flooding_start, lemma_open_cell, lemma_reached_not_mine,
    lemma_reveal_sources_empty, lemma_reveal_sources_no_mine, lemma_reveal_sources_step,
    next_to_flood, opened_cell, reaches, reveal_sources,
};
use crate::geometry::as_positions;
use crate::grid::{
    cell_at, lemma_adjacent_mines_same_kinds, lemma_same_kinds_sets, lemma_with_cell, on_grid,
    rectangular, same_kinds, width_of, with_cell,
};
use crate::rules::{settled, well_shaped, BoardView};

verus! {

impl Board {
    /// Opens the closed cell at `(i, j)` and counts it out of the unopened
    /// cells.
    fn set_opened(&mut self, i: usize, j: usize)
        requires
            well_shaped(old(self)@),
            is_closed(old(self)@.cells, (i as int, j as int)),
        ensures
            final(self)@ == (BoardView {
                cells: with_cell(
                    old(self)@.cells,
                    (i as int, j as int),
                    opened_cell(cell_at(old(self)@.cells, (i as int, j as int))),
                ),
                mine_count: old(self)@.mine_count,
                state: old(self)@.state,
                closed_cell_count: (old(self)@.closed_cell_count - 1) as nat,
            }),
            well_shaped(final(self)@),
            old(self)@.closed_cell_count > 0,
    {
        proof {
            assert(self@.cells[i as int].len() == width_of(self@.cells));
            lemma_open_cell(self@.cells, (i as int, j as int));
        }
        self.cells[i][j].state = CellState::Opened;
        self.closed_cell_count -= 1;
        assert(self@.cells =~~= with_cell(
            old(self)@.cells,
            (i as int, j as int),
            opened_cell(cell_at(old(self)@.cells, (i as int, j as int))),
        ));
    }

    /// Reveals the closed cell at `(i, j)`: opens it, ends the game if it
    /// holds a mine, and goes on to its closed neighbours if it is free with
    /// no mine around it, and so on from each cell of that kind.
    ///
    /// The cells still to look at wait on a work list, so that a reveal
    /// over a large board needs no deep call stack.
    pub(super) fn uncover(&mut self, i: usize, j: usize)
        requires
            settled(old(self)@),
            old(self)@.state is Playing,
            is_closed(old(self)@.cells, (i as int, j as int)),
        ensures
            settled(final(self)@),
            final(self)@.cells == flooded(old(self)@.cells, set![(i as int, j as int)]),
            final(self)@.mine_count == old(self)@.mine_count,
            final(self)@.state == if cell_at(old(self)@.cells, (i as int, j as int)).kind is Mine {
                BoardState::Finished(BoardResult::Lost)
            } else {
                BoardState::Playing
            },
            final(self)@.closed_cell_count < old(self)@.closed_cell_count,
    {
        let ghost g0 = self@.cells;
        let ghost src = (i as int, j as int);
        let ghost sources = set![src];
        proof {
            lemma_open_cell(g0, src);
            lemma_flooding_start(g0, src);
            assert(g0[i as int].len() == width_of(g0));
        }
        self.set_opened(i, j);
        proof {
            lemma_same_kinds_sets(g0, self@.cells);
            lemma_adjacent_mines_same_kinds(g0, self@.cells, i as int, j as int);
            lemma_with_cell(g0, src, opened_cell(cell_at(g0, src)));
            assert(self@.cells[i as int].len() == width_of(self@.cells));
            assert(cell_at(self@.cells, src).kind == cell_at(g0, src).kind);
        }
        let mut work: Vec<(usize, usize)> = Vec::new();
        if let CellKind::Mine = self.cells[i][j].kind {
            self.state = BoardState::Finished(BoardResult::Lost);
        } else if self.count_adjacent_mines(i, j) == 0 {
            work = self.nbr_indices(i, j);
        }
        assert(as_positions(work@) =~= next_to_flood(g0, src));
        while work.len() > 0
            invariant
                settled(self@),
                flooding(g0, self@.cells, sources, as_positions(work@)),
                same_kinds(g0, self@.cells),
                sources == set![src],
                is_closed(g0, src),
                work.len() > 0 ==> !(cell_at(g0, src).kind is Mine),
                self@.mine_count == old(self)@.mine_count,
                self@.state == if cell_at(g0, src).kind is Mine {
                    BoardState::Finished(BoardResult::Lost)
                } else {
                    BoardState::Playing
                },
                self@.closed_cell_count < old(self)@.closed_cell_count,
            decreases self.closed_cell_count, work.len(),
        {
            let ghost g = self@.cells;
            let ghost list = as_positions(work@);
            let (row, col) = work[work.len() - 1];
            let ghost here = (row as int, col as int);
            work.pop();
            proof {
                assert(here == list.last());
                assert(as_positions(work@) =~= list.drop_last());
                assert(on_grid(g0, list[list.len() - 1]));
                assert(g[row as int].len() == width_of(g));
            }
            if let CellState::Closed = self.cells[row][col].state {
                proof {
                    lemma_flooding_open(g0, g, sources, list);
                    lemma_open_cell(g, here);
                    assert forall|s: (int, int)| sources.contains(s) implies
                        !#[trigger] is_closed_mine(g0, s)
                    by {}
                    lemma_reached_not_mine(g0, sources, here);
                    lemma_adjacent_mines_same_kinds(g0, g, row as int, col as int);
                }
                self.set_opened(row, col);
                proof {
                    lemma_same_kinds_sets(g, self@.cells);
                    lemma_adjacent_mines_same_kinds(g, self@.cells, row as int, col as int);
                    assert(same_kinds(g0, self@.cells)) by {
                        assert forall|p: (int, int)| on_grid(g0, p) implies
                            (#[trigger] cell_at(self@.cells, p)).kind == cell_at(g0, p).kind
                        by {
                            assert(cell_at(self@.cells, p).kind == cell_at(g, p).kind);
                        }
                    }
                }
                let ghost rest = as_positions(work@);
                if self.count_adjacent_mines(row, col) == 0 {
                    let mut nbrs = self.nbr_indices(row, col);
                    let ghost more = as_positions(nbrs@);
                    work.append(&mut nbrs);
                    proof {
                        assert(more == next_to_flood(g0, here));
                        assert(as_positions(work@) =~= rest + more);
                    }
                } else {
                    proof {
                        assert(rest + next_to_flood(g0, here) =~= rest);
                    }
                }
            } else {
                proof {
                    lemma_flooding_skip(g0, g, sources, list);
                }
            }
        }
        proof {
            lemma_flooding_done(g0, self@.cells, sources, as_positions(work@));
        }
    }

    /// Reveals the closed cells of `list` in order, while the game goes on.
    pub(super) fn uncover_each(&mut self, list: &Vec<(usize, usize)>)
        requires
            settled(old(self)@),
            old(self)@.state is Playing,
            forall|k: int|
                0 <= k < list.len() ==> on_grid(
                    old(self)@.cells,
                    #[trigger] as_positions(list@)[k],
                ),
        ensures
            settled(final(self)@),
            final(self)@.cells == flooded(
                old(self)@.cells,
                reveal_sources(old(self)@.cells, as_positions(list@)),
            ),
            final(self)@.mine_count == old(self)@.mine_count,
            final(self)@.state == if hits_mine(old(self)@.cells, as_positions(list@)) {
                BoardState::Finished(BoardResult::Lost)
            } else {
                BoardState::Playing
            },
            final(self)@.closed_cell_count <= old(self)@.closed_cell_count,
    {
        let ghost g0 = self@.cells;
        let ghost all = as_positions(list@);
        proof {
            lemma_reveal_sources_empty(g0, all.take(0));
            lemma_flood_nothing(g0, reveal_sources(g0, all.take(0)));
        }
        for k in 0..list.len()
            invariant
                settled(self@),
                rectangular(g0),
                g0 == old(self)@.cells,
                all == as_positions(list@),
                forall|m: int| 0 <= m < list.len() ==> on_grid(g0, #[trigger] all[m]),
                self@.cells == flooded(g0, reveal_sources(g0, all.take(k as int))),
                self@.mine_count == old(self)@.mine_count,
                self@.state == if hits_mine(g0, all.take(k as int)) {
                    BoardState::Finished(BoardResult::Lost)
                } else {
                    BoardState::Playing
                },
                self.closed_cell_count <= old(self).closed_cell_count,
                self@.closed_cell_count == self.closed_cell_count,
        {
            let (i_nbr, j_nbr) = list[k];
            let ghost here = all[k as int];
            let ghost done = reveal_sources(g0, all.take(k as int));
            let ghost g = self@.cells;
            proof {
                assert(here == (i_nbr as int, j_nbr as int));
                lemma_reveal_sources_step(g0, all, k as int);
                lemma_flooded_cells(g0, done);
                assert(on_grid(g0, all[k as int]));
                assert(g[i_nbr as int].len() == width_of(g));
                lemma_flood_compose(g0, done, set![here]);
                assert(done + set![here] =~= done.insert(here));
            }
            if let BoardState::Playing = self.state {
                if let CellState::Closed = self.cells[i_nbr][j_nbr].state {
                    self.uncover(i_nbr, j_nbr);
                } else {
                    proof {
                        lemma_flood_nothing(g, set![here]);
                        if is_closed(g0, here) {
                            assert(reaches(g0, done, here));
                            assert forall|s: (int, int)| done.contains(s) implies
                                !#[trigger] is_closed_mine(g0, s)
                            by {
                                lemma_reveal_sources_no_mine(g0, all.take(k as int));
                                let m = choose|m: int|
                                    0 <= m < all.take(k as int).len() && all.take(k as int)[m] == s;
                                if is_closed_mine(g0, s) {
                                    assert(is_closed_mine(g0, all.take(k as int)[m]));
                                }
                            }
                            lemma_reached_not_mine(g0, done, here);
                        }
                    }
                }
            }
        }
        assert(all.take(list.len() as int) =~= all);
    }
}

} // verus!
