//! The rules of the game, stated on the board as a mathematical value.
//!
//! [`BoardView`] is what a board is worth: its grid, the number of mines it
//! was made for, the count of cells that are not opened, and how far the
//! game has come. [`valid`] says which such values a game can reach, and
//! [`open_result`] and [`flag_result`] say what a move makes of one.

use vstd::prelude::*;
use crate::board::{BoardResult, BoardState};
use crate::cell::{toggled_state, Cell, CellKind, CellState};
use crate::flood::{
    flooded, hits_mine, is_closed_mine, is_reveal_source, lemma_first_closed_mine,
    lemma_flood_nothing, lemma_flooded_cells, lemma_reached_not_mine, lemma_reaches_source,
    lemma_reveal_sources_empty, reaches, reveal_sources,
};
use crate::geometry::adjacent;
use crate::grid::{
    adjacent_mines, cell_at, height_of, lemma_same_kinds_sets, lemma_with_cell, mines, neighbors_on,
    on_grid, rectangular, same_kinds, same_states, surrounding_flags, unopened, width_of, with_cell,
};

verus! {

/// A board as a mathematical value.
pub struct BoardView {
    /// The grid, row by row.
    pub cells: Seq<Seq<Cell>>,
    /// The number of mines the board was made for.
    pub mine_count: nat,
    /// How far the game has come.
    pub state: BoardState,
    /// The number of cells that are not opened.
    pub closed_cell_count: nat,
}

/// Whether a board of `height` rows and `width` columns can hold
/// `mine_count` mines: it is at least nine by nine, and at least nine cells
/// stay free.
pub open spec fn valid_config(height: int, width: int, mine_count: int) -> bool {
    height >= 9 && width >= 9 && mine_count <= height * width - 9
}

/// The cell that a new board holds at every position.
pub open spec fn blank_cell() -> Cell {
    Cell { kind: CellKind::Uninitialized, state: CellState::Closed }
}

/// The board that construction gives: every cell blank, no move made.
pub open spec fn fresh(height: int, width: int, mine_count: int) -> BoardView {
    BoardView {
        cells: Seq::new(height as nat, |i: int| Seq::new(width as nat, |j: int| blank_cell())),
        mine_count: mine_count as nat,
        state: BoardState::Uninitialized,
        closed_cell_count: (height * width) as nat,
    }
}

/// Whether every cell's content is decided.
pub open spec fn all_decided(g: Seq<Seq<Cell>>) -> bool {
    forall|p: (int, int)| on_grid(g, p) ==> !((#[trigger] cell_at(g, p)).kind is Uninitialized)
}

/// Whether no cell that holds a mine is opened.
pub open spec fn no_mine_opened(g: Seq<Seq<Cell>>) -> bool {
    forall|p: (int, int)|
        on_grid(g, p) && (#[trigger] cell_at(g, p)).kind is Mine ==> !(cell_at(
            g,
            p,
        ).state is Opened)
}

/// Whether a cell that holds a mine is opened.
pub open spec fn some_mine_opened(g: Seq<Seq<Cell>>) -> bool {
    exists|p: (int, int)|
        on_grid(g, p) && (#[trigger] cell_at(g, p)).kind is Mine && cell_at(g, p).state is Opened
}

/// What holds of a board whatever its state: the grid is a rectangle of at
/// least nine by nine cells that can be indexed, at least nine cells are
/// left for the safe zone, and the count of unopened cells is right.
pub open spec fn well_shaped(v: BoardView) -> bool {
    &&& rectangular(v.cells)
    &&& height_of(v.cells) >= 9
    &&& width_of(v.cells) >= 9
    &&& height_of(v.cells) * width_of(v.cells) <= usize::MAX
    &&& v.mine_count + 9 <= height_of(v.cells) * width_of(v.cells)
    &&& v.closed_cell_count == unopened(v.cells).len()
}

/// What holds of a board once its mines are laid: every cell is decided and
/// the mines are as many as the board was made for.
pub open spec fn settled(v: BoardView) -> bool {
    &&& well_shaped(v)
    &&& all_decided(v.cells)
    &&& mines(v.cells).len() == v.mine_count
}

/// The boards that a game can reach.
///
/// Before the first move nothing is decided and nothing is opened. While the
/// game goes on no mine is opened and some free cell is still unopened. A
/// won board has no mine opened and exactly its mines unopened. A lost board
/// has a mine opened.
pub open spec fn valid(v: BoardView) -> bool {
    &&& well_shaped(v)
    &&& match v.state {
        BoardState::Uninitialized => forall|p: (int, int)|
            on_grid(v.cells, p) ==> {
                &&& (#[trigger] cell_at(v.cells, p)).kind is Uninitialized
                &&& !(cell_at(v.cells, p).state is Opened)
            },
        BoardState::Playing => settled(v) && no_mine_opened(v.cells) && v.closed_cell_count
            != v.mine_count,
        BoardState::Finished(BoardResult::Win) => settled(v) && no_mine_opened(v.cells)
            && v.closed_cell_count == v.mine_count,
        BoardState::Finished(BoardResult::Lost) => settled(v) && some_mine_opened(v.cells),
    }
}

/// Whether the cell at `(i, j)` and each of its neighbours is free.
pub open spec fn safe_zone_free(g: Seq<Seq<Cell>>, i: int, j: int) -> bool {
    &&& cell_at(g, (i, j)).kind is Free
    &&& forall|q: (int, int)|
        on_grid(g, q) && adjacent((i, j), q) ==> (#[trigger] cell_at(g, q)).kind is Free
}

/// Whether `after` is `before` with its mines laid for a first move at
/// `(i, j)`.
///
/// Where the mines lie is left to chance. What holds of every outcome: no
/// cell changes its state, the cell of the first move and its neighbours are
/// free, every cell is decided, the mines are as many as the board was made
/// for, and the game goes on.
pub open spec fn initialized_from(before: BoardView, after: BoardView, i: int, j: int) -> bool {
    &&& after.mine_count == before.mine_count
    &&& after.closed_cell_count == before.closed_cell_count
    &&& after.state == BoardState::Playing
    &&& rectangular(after.cells)
    &&& same_states(before.cells, after.cells)
    &&& safe_zone_free(after.cells, i, j)
    &&& all_decided(after.cells)
    &&& mines(after.cells).len() == before.mine_count
}

/// The grid whose cells hold what the cells of `kinds` hold and are in the
/// state of the cells of `states`.
pub open spec fn with_kinds_of(states: Seq<Seq<Cell>>, kinds: Seq<Seq<Cell>>) -> Seq<Seq<Cell>> {
    Seq::new(
        states.len(),
        |i: int|
            Seq::new(
                states[i].len(),
                |j: int| Cell { kind: kinds[i][j].kind, state: states[i][j].state },
            ),
    )
}

/// The board from which the first move is played, told from the board
/// before that move and the grid after it: a board in play is that board
/// itself; a board without mines becomes a board in play whose cells hold
/// what they hold in `after`.
pub open spec fn start_of_play(before: BoardView, after: Seq<Seq<Cell>>) -> BoardView {
    if before.state is Uninitialized {
        BoardView {
            cells: with_kinds_of(before.cells, after),
            mine_count: before.mine_count,
            state: BoardState::Playing,
            closed_cell_count: before.closed_cell_count,
        }
    } else {
        before
    }
}

/// The board in play `v` after the closed cells of `list` are revealed in
/// order, up to the first that turns out to be a mine.
///
/// Each reveal spreads as [`flooded`] says. The game is lost if a mine was
/// revealed, won if only the mines are left unopened, and goes on otherwise.
pub open spec fn revealed(v: BoardView, list: Seq<(int, int)>) -> BoardView {
    let cells = flooded(v.cells, reveal_sources(v.cells, list));
    let closed = unopened(cells).len();
    BoardView {
        cells,
        mine_count: v.mine_count,
        state: if hits_mine(v.cells, list) {
            BoardState::Finished(BoardResult::Lost)
        } else if closed == v.mine_count {
            BoardState::Finished(BoardResult::Win)
        } else {
            BoardState::Playing
        },
        closed_cell_count: closed,
    }
}

/// Whether the opened cell `(i, j)` has mines around it and as many flags as
/// mines, so that opening it again reveals its closed neighbours.
pub open spec fn chord_ready(g: Seq<Seq<Cell>>, i: int, j: int) -> bool {
    adjacent_mines(g, i, j) > 0 && surrounding_flags(g, i, j) == adjacent_mines(g, i, j)
}

/// The cells that a move at `(i, j)` sets out to reveal: a closed cell
/// itself; for an opened cell that is ready for a chord, its neighbours;
/// nothing for a flagged cell or an opened cell that is not ready.
pub open spec fn open_targets(g: Seq<Seq<Cell>>, i: int, j: int) -> Seq<(int, int)> {
    match cell_at(g, (i, j)).state {
        CellState::Closed => seq![(i, j)],
        CellState::Opened => if chord_ready(g, i, j) {
            neighbors_on(g, i, j)
        } else {
            Seq::empty()
        },
        CellState::Flagged => Seq::empty(),
    }
}

/// The board after a move at `(i, j)` on a board whose mines are laid: a
/// finished board stays as it is, a board in play has the targets of the
/// move revealed.
pub open spec fn open_result(v: BoardView, i: int, j: int) -> BoardView {
    if v.state is Playing {
        revealed(v, open_targets(v.cells, i, j))
    } else {
        v
    }
}

/// The cell `c` with its flag toggled.
pub open spec fn toggled_cell(c: Cell) -> Cell {
    Cell { kind: c.kind, state: toggled_state(c.state) }
}

/// The board after the flag at `(i, j)` is toggled: a finished board stays
/// as it is; on any other board the cell at `(i, j)` has its flag toggled
/// and nothing else changes.
pub open spec fn flag_result(v: BoardView, i: int, j: int) -> BoardView {
    if v.state is Finished {
        v
    } else {
        BoardView {
            cells: with_cell(v.cells, (i, j), toggled_cell(cell_at(v.cells, (i, j)))),
            mine_count: v.mine_count,
            state: v.state,
            closed_cell_count: v.closed_cell_count,
        }
    }
}

/// Revealing cells of a board in play whose mines are laid gives a board
/// that a game can reach. No cell changes what it holds.
pub proof fn lemma_revealed_valid(v: BoardView, list: Seq<(int, int)>)
    requires
        settled(v),
        no_mine_opened(v.cells),
    ensures
        valid(revealed(v, list)),
        same_kinds(v.cells, revealed(v, list).cells),
{
    let g = v.cells;
    let sources = reveal_sources(g, list);
    let r = revealed(v, list);
    lemma_flooded_cells(g, sources);
    lemma_same_kinds_sets(g, r.cells);
    if hits_mine(g, list) {
        let k = choose|k: int| 0 <= k < list.len() && #[trigger] is_closed_mine(g, list[k]);
        lemma_first_closed_mine(g, list, k);
        let m = choose|m: int|
            #[trigger] is_reveal_source(g, list, m) && is_closed_mine(g, list[m]);
        assert(sources.contains(list[m]));
        lemma_reaches_source(g, sources, list[m]);
        assert(cell_at(r.cells, list[m]).kind is Mine && cell_at(r.cells, list[m]).state is Opened);
    } else {
        assert forall|s: (int, int)| sources.contains(s) implies
            !#[trigger] is_closed_mine(g, s)
        by {
            let k = choose|k: int| #[trigger] is_reveal_source(g, list, k) && list[k] == s;
            if is_closed_mine(g, s) {
                assert(is_closed_mine(g, list[k]));
            }
        }
        assert forall|p: (int, int)|
            on_grid(r.cells, p) && (#[trigger] cell_at(r.cells, p)).kind is Mine implies
            !(cell_at(r.cells, p).state is Opened)
        by {
            if reaches(g, sources, p) {
                lemma_reached_not_mine(g, sources, p);
            }
            assert(cell_at(g, p).kind is Mine);
        }
    }
}

/// Revealing no cell of a board in play changes nothing.
pub proof fn lemma_revealed_nothing(v: BoardView, list: Seq<(int, int)>)
    requires
        valid(v),
        v.state is Playing,
        list.len() == 0,
    ensures
        revealed(v, list) == v,
{
    lemma_reveal_sources_empty(v.cells, list);
    lemma_flood_nothing(v.cells, reveal_sources(v.cells, list));
}

/// A move on a board that a game can reach, once its mines are laid, gives
/// a board that a game can reach. No cell changes what it holds.
pub proof fn lemma_open_result_valid(v: BoardView, i: int, j: int)
    requires
        valid(v),
        !(v.state is Uninitialized),
    ensures
        valid(open_result(v, i, j)),
        same_kinds(v.cells, open_result(v, i, j).cells),
{
    if v.state is Playing {
        lemma_revealed_valid(v, open_targets(v.cells, i, j));
    }
}

/// An opened cell has no flag: toggling it changes nothing.
pub proof fn lemma_flag_opened(v: BoardView, i: int, j: int)
    requires
        valid(v),
        on_grid(v.cells, (i, j)),
        cell_at(v.cells, (i, j)).state is Opened,
    ensures
        flag_result(v, i, j) == v,
{
    let p = (i, j);
    lemma_with_cell(v.cells, p, toggled_cell(cell_at(v.cells, p)));
    crate::grid::lemma_grid_ext(flag_result(v, i, j).cells, v.cells);
}

/// Toggling a flag on a board that a game can reach gives a board that a
/// game can reach, with as many unopened cells as before.
pub proof fn lemma_flag_result_valid(v: BoardView, i: int, j: int)
    requires
        valid(v),
        on_grid(v.cells, (i, j)),
    ensures
        valid(flag_result(v, i, j)),
{
    let p = (i, j);
    let r = flag_result(v, i, j);
    if !(v.state is Finished) {
        lemma_with_cell(v.cells, p, toggled_cell(cell_at(v.cells, p)));
        assert forall|q: (int, int)| on_grid(v.cells, q) implies
            (#[trigger] cell_at(r.cells, q)).kind == cell_at(v.cells, q).kind
                && (cell_at(r.cells, q).state is Opened) == (cell_at(v.cells, q).state is Opened)
        by {
            if q != p {
                assert(cell_at(r.cells, q) == cell_at(v.cells, q));
            }
        }
        assert(unopened(r.cells) =~= unopened(v.cells));
        assert(mines(r.cells) =~= mines(v.cells));
    }
}

} // verus!
