//! The board: a grid of cells with its mines, its count of unopened cells
//! and the state of the game.

use vstd::prelude::*;
use crate::cell::{BoardCell, Cell, CellKind, CellState};
use crate::error::Error;
use crate::flood::lemma_reveal_sources_single;
use crate::geometry::{as_positions, is_neighbor_of, lemma_neighbors_adjacent, window};
use crate::grid::{
    adjacent_mines, all_positions, cell_at, height_of, holds_flag, holds_mine,
    lemma_all_positions_len, lemma_grid_ext, lemma_with_cell, neighbors_on, on_grid, rectangular,
    surrounding_flags, unopened, width_of, with_cell,
};
use crate::rules::{
    flag_result, fresh, initialized_from, lemma_flag_result_valid, lemma_open_result_valid,
    lemma_revealed_nothing, open_result, open_targets, safe_zone_free, start_of_play, toggled_cell,
    valid, valid_config, well_shaped, with_kinds_of, BoardView,
};
use crate::theorems::theorem_first_move_safe;

mod laying;
mod uncover;

verus! {

/// How a finished game ended.
#[derive(Clone, Copy, Debug, PartialEq, Eq, Structural)]
pub enum BoardResult {
    Win,
    Lost,
}

/// How far a game has come. A board only moves forward: from
/// `Uninitialized` to `Playing` with the first move, and from `Playing` to
/// `Finished`.
#[derive(Clone, Copy, Debug, PartialEq, Eq, Structural)]
pub enum BoardState {
    /// No move was made yet and no mine is laid.
    Uninitialized,
    Playing,
    Finished(BoardResult),
}

/// Whether `cells` shows the grid `g`: it has the rows and columns of `g`,
/// and each of its cells holds what the cell of `g` at its place holds and
/// is in that cell's state.
pub open spec fn shows<T: BoardCell>(cells: Vec<Vec<T>>, g: Seq<Seq<Cell>>) -> bool {
    &&& cells.len() == g.len()
    &&& forall|i: int| 0 <= i < cells.len() ==> (#[trigger] cells[i]).len() == g[i].len()
    &&& forall|i: int, j: int|
        0 <= i < cells.len() && 0 <= j < cells[i].len() ==> {
            &&& (#[trigger] cells[i][j]).cell_kind() == g[i][j].kind
            &&& cells[i][j].cell_state() == g[i][j].state
        }
}

/// What a minesweeper board offers to a front end.
///
/// A board stands for a [`BoardView`], and its moves are the moves of
/// [`crate::rules`] on that value, whatever the board keeps its cells in.
pub trait SweeperBoard<T>: Sized where T: BoardCell {
    /// Whether the board is in order, as every board is that was made by
    /// `new` and changed by the moves of this trait only.
    spec fn wf(&self) -> bool;

    /// The board as a mathematical value.
    spec fn value(&self) -> BoardView;

    /// The value of a board that is in order is one that a game can reach.
    proof fn lemma_value_valid(&self)
        requires
            self.wf(),
        ensures
            valid(self.value()),
    ;

    /// Makes a board of `height` rows and `width` columns for `mine_count`
    /// mines, with every cell closed and nothing decided, or refuses a
    /// configuration that is not valid.
    fn new(height: usize, width: usize, mine_count: usize) -> (board: Result<Self, Error>)
        requires
            height * width <= usize::MAX,
        ensures
            board is Ok <==> valid_config(height as int, width as int, mine_count as int),
            board matches Ok(b) ==> {
                &&& b.wf()
                &&& b.value() == fresh(height as int, width as int, mine_count as int)
            },
            board matches Err(e) ==> e is InvalidConfigError,
    ;

    /// Plays a move at `(i, j)` and returns what the cell there holds. The
    /// first move lays the mines, away from `(i, j)` and its neighbours;
    /// then the move is played as [`open_result`] says.
    fn open(&mut self, i: usize, j: usize) -> (kind: &CellKind)
        requires
            old(self).wf(),
            i < height_of(old(self).value().cells),
            j < width_of(old(self).value().cells),
        ensures
            final(self).wf(),
            !(final(self).value().state is Uninitialized),
            old(self).value().state is Uninitialized ==> initialized_from(
                old(self).value(),
                start_of_play(old(self).value(), final(self).value().cells),
                i as int,
                j as int,
            ),
            old(self).value().state is Uninitialized ==> safe_zone_free(
                final(self).value().cells,
                i as int,
                j as int,
            ),
            final(self).value() == open_result(
                start_of_play(old(self).value(), final(self).value().cells),
                i as int,
                j as int,
            ),
            *kind == cell_at(final(self).value().cells, (i as int, j as int)).kind,
    ;

    /// As `open`, for a position that may lie outside the board: such a
    /// position is refused and the board stays as it is.
    fn open_save(&mut self, i: usize, j: usize) -> (kind: Result<&CellKind, Error>)
        requires
            old(self).wf(),
        ensures
            final(self).wf(),
            kind is Ok <==> i < height_of(old(self).value().cells) && j < width_of(
                old(self).value().cells,
            ),
            kind matches Err(e) ==> e is IndexOutOfBoundError,
            kind matches Ok(k) ==> {
                &&& old(self).value().state is Uninitialized ==> initialized_from(
                    old(self).value(),
                    start_of_play(old(self).value(), final(self).value().cells),
                    i as int,
                    j as int,
                )
                &&& final(self).value() == open_result(
                    start_of_play(old(self).value(), final(self).value().cells),
                    i as int,
                    j as int,
                )
                &&& *k == cell_at(final(self).value().cells, (i as int, j as int)).kind
            },
            kind is Err ==> final(self).value() == old(self).value(),
    ;

    /// Toggles the flag of the cell at `(i, j)`, as [`flag_result`] says,
    /// and returns the cell's state.
    fn flag(&mut self, i: usize, j: usize) -> (state: &CellState)
        requires
            old(self).wf(),
            i < height_of(old(self).value().cells),
            j < width_of(old(self).value().cells),
        ensures
            final(self).wf(),
            final(self).value() == flag_result(old(self).value(), i as int, j as int),
            *state == cell_at(final(self).value().cells, (i as int, j as int)).state,
    ;

    /// As `flag`, for a position that may lie outside the board: such a
    /// position is refused and the board stays as it is.
    fn flag_save(&mut self, i: usize, j: usize) -> (state: Result<&CellState, Error>)
        requires
            old(self).wf(),
        ensures
            final(self).wf(),
            state is Ok <==> i < height_of(old(self).value().cells) && j < width_of(
                old(self).value().cells,
            ),
            state matches Err(e) ==> e is IndexOutOfBoundError,
            state matches Ok(s) ==> {
                &&& final(self).value() == flag_result(old(self).value(), i as int, j as int)
                &&& *s == cell_at(final(self).value().cells, (i as int, j as int)).state
            },
            state is Err ==> final(self).value() == old(self).value(),
    ;

    /// How far the game has come.
    fn state(&self) -> (state: &BoardState)
        ensures
            *state == self.value().state,
    ;

    /// The grid, row by row, for reading.
    fn cells(&self) -> (cells: &Vec<Vec<T>>)
        requires
            self.wf(),
        ensures
            shows(*cells, self.value().cells),
    ;
}

/// The board of the game.
#[derive(Debug)]
pub struct Board {
    cells: Vec<Vec<Cell>>,
    mine_count: usize,
    state: BoardState,
    closed_cell_count: usize,
}

/// A vector of rows read as a grid.
pub open spec fn grid_of(cells: Vec<Vec<Cell>>) -> Seq<Seq<Cell>> {
    Seq::new(cells@.len(), |i: int| cells@[i]@)
}

impl View for Board {
    type V = BoardView;

    closed spec fn view(&self) -> BoardView {
        BoardView {
            cells: grid_of(self.cells),
            mine_count: self.mine_count as nat,
            state: self.state,
            closed_cell_count: self.closed_cell_count as nat,
        }
    }
}

impl Board {
    /// Whether the board is one that a game can reach.
    pub open spec fn wf(&self) -> bool {
        valid(self@)
    }

    /// The number of rows.
    pub fn height(&self) -> (height: usize)
        ensures
            height == height_of(self@.cells),
    {
        self.cells.len()
    }

    /// The number of columns.
    pub fn width(&self) -> (width: usize)
        requires
            well_shaped(self@),
        ensures
            width == width_of(self@.cells),
    {
        self.cells[0].len()
    }

    /// Returns the neighbours of `(i, j)` on the board, from left to right
    /// and from top to bottom.
    pub fn nbr_indices(&self, i: usize, j: usize) -> (indices: Vec<(usize, usize)>)
        requires
            well_shaped(self@),
            i < height_of(self@.cells),
            j < width_of(self@.cells),
        ensures
            as_positions(indices@) == neighbors_on(self@.cells, i as int, j as int),
    {
        let height = self.height();
        let width = self.width();
        let ghost win = window(i as int, j as int);
        let ghost keep = is_neighbor_of(height as int, width as int, i as int, j as int);
        let mut indices: Vec<(usize, usize)> = Vec::new();
        proof {
            reveal(Seq::filter);
            assert(win.take(0).filter(keep) =~= as_positions(indices@));
        }
        for i_offset in 0..3usize
            invariant
                i < height,
                j < width,
                height * width <= usize::MAX,
                height >= 9,
                width >= 9,
                win == window(i as int, j as int),
                keep == is_neighbor_of(height as int, width as int, i as int, j as int),
                as_positions(indices@) == win.take(3 * i_offset).filter(keep),
        {
            for j_offset in 0..3usize
                invariant
                    i < height,
                    j < width,
                    height * width <= usize::MAX,
                    height >= 9,
                    width >= 9,
                    i_offset < 3,
                    win == window(i as int, j as int),
                    keep == is_neighbor_of(height as int, width as int, i as int, j as int),
                    as_positions(indices@) == win.take(3 * i_offset + j_offset).filter(keep),
            {
                assert(height + 2 <= height * width && width + 2 <= height * width)
                    by (nonlinear_arith)
                    requires
                        width >= 9,
                        height >= 9,
                ;
                let i_nbr = i + i_offset;
                let j_nbr = j + j_offset;
                let ghost k = 3 * i_offset + j_offset;
                let ghost before = as_positions(indices@);
                proof {
                    assert(win.take(k + 1) =~= win.take(k).push(win[k]));
                    win.take(k).lemma_filter_push(win[k], keep);
                    assert(win[k] == (i_nbr - 1, j_nbr - 1));
                }
                if 0 < i_nbr && i_nbr <= height && 0 < j_nbr && j_nbr <= width && !(i_offset == 1
                    && j_offset == 1) {
                    indices.push((i_nbr - 1, j_nbr - 1));
                    assert(as_positions(indices@) =~= before.push(win[k]));
                }
            }
        }
        assert(win.take(9) =~= win);
        indices
    }

    /// Counts the neighbours of `(i, j)` that hold a mine.
    pub fn count_adjacent_mines(&self, i: usize, j: usize) -> (count: usize)
        requires
            well_shaped(self@),
            i < height_of(self@.cells),
            j < width_of(self@.cells),
        ensures
            count == adjacent_mines(self@.cells, i as int, j as int),
    {
        let nbrs = self.nbr_indices(i, j);
        let ghost list = as_positions(nbrs@);
        let ghost test = holds_mine(self@.cells);
        let mut count: usize = 0;
        proof {
            reveal(Seq::filter);
            assert(list.take(0).filter(test).len() == 0);
            lemma_neighbors_adjacent(
                height_of(self@.cells),
                width_of(self@.cells),
                i as int,
                j as int,
            );
        }
        for k in 0..nbrs.len()
            invariant
                well_shaped(self@),
                list == as_positions(nbrs@),
                list == neighbors_on(self@.cells, i as int, j as int),
                test == holds_mine(self@.cells),
                forall|q: (int, int)| list.contains(q) ==> on_grid(self@.cells, q),
                count == list.take(k as int).filter(test).len(),
                count <= k,
        {
            let (i_nbr, j_nbr) = nbrs[k];
            proof {
                assert(list.take(k + 1) =~= list.take(k as int).push(list[k as int]));
                list.take(k as int).lemma_filter_push(list[k as int], test);
                assert(list.contains(list[k as int]));
                assert(self@.cells[i_nbr as int].len() == width_of(self@.cells));
            }
            if let CellKind::Mine = self.cells[i_nbr][j_nbr].kind {
                count += 1;
            }
        }
        assert(list.take(nbrs.len() as int) =~= list);
        count
    }

    /// Counts the neighbours of `(i, j)` that are flagged.
    pub fn count_surrounding_flags(&self, i: usize, j: usize) -> (count: usize)
        requires
            well_shaped(self@),
            i < height_of(self@.cells),
            j < width_of(self@.cells),
        ensures
            count == surrounding_flags(self@.cells, i as int, j as int),
    {
        let nbrs = self.nbr_indices(i, j);
        let ghost list = as_positions(nbrs@);
        let ghost test = holds_flag(self@.cells);
        let mut count: usize = 0;
        proof {
            reveal(Seq::filter);
            assert(list.take(0).filter(test).len() == 0);
            lemma_neighbors_adjacent(
                height_of(self@.cells),
                width_of(self@.cells),
                i as int,
                j as int,
            );
        }
        for k in 0..nbrs.len()
            invariant
                well_shaped(self@),
                list == as_positions(nbrs@),
                list == neighbors_on(self@.cells, i as int, j as int),
                test == holds_flag(self@.cells),
                forall|q: (int, int)| list.contains(q) ==> on_grid(self@.cells, q),
                count == list.take(k as int).filter(test).len(),
                count <= k,
        {
            let (i_nbr, j_nbr) = nbrs[k];
            proof {
                assert(list.take(k + 1) =~= list.take(k as int).push(list[k as int]));
                list.take(k as int).lemma_filter_push(list[k as int], test);
                assert(list.contains(list[k as int]));
                assert(self@.cells[i_nbr as int].len() == width_of(self@.cells));
            }
            if let CellState::Flagged = self.cells[i_nbr][j_nbr].state {
                count += 1;
            }
        }
        assert(list.take(nbrs.len() as int) =~= list);
        count
    }

    /// Makes a board of `height` rows and `width` columns for `mine_count`
    /// mines, with every cell closed and nothing decided.
    ///
    /// The board must have at least nine rows and nine columns, and
    /// `mine_count` must leave nine cells free. Any other configuration is
    /// refused.
    pub fn new(height: usize, width: usize, mine_count: usize) -> (board: Result<Self, Error>)
        requires
            height * width <= usize::MAX,
        ensures
            board is Ok <==> valid_config(height as int, width as int, mine_count as int),
            board matches Ok(b) ==> {
                &&& b.wf()
                &&& b@ == fresh(height as int, width as int, mine_count as int)
            },
            board matches Err(e) ==> e is InvalidConfigError,
    {
        if width < 9 || height < 9 {
            return Err(Error::InvalidConfigError);
        }
        assert(height * width >= 81) by (nonlinear_arith)
            requires
                width >= 9,
                height >= 9,
        ;
        if height * width - 9 < mine_count {
            return Err(Error::InvalidConfigError);
        }
        let cell = Cell { kind: CellKind::Uninitialized, state: CellState::Closed };
        let board = Self {
            cells: vec![vec![cell; width]; height],
            mine_count,
            state: BoardState::Uninitialized,
            closed_cell_count: width * height,
        };
        proof {
            let v = fresh(height as int, width as int, mine_count as int);
            assert(board@.cells =~~= v.cells);
            assert(width * height == height * width) by (nonlinear_arith);
            lemma_all_positions_len(height as int, width as int);
            assert(unopened(v.cells) =~= all_positions(height as int, width as int));
        }
        Ok(board)
    }

    /// Plays a move at `(i, j)` and returns what the cell there holds.
    ///
    /// The first move on a board lays the mines, leaving the cell at
    /// `(i, j)` and its neighbours free. Then, while the game goes on: a
    /// closed cell is revealed; an opened cell with mines around it and as
    /// many flags as mines has its closed neighbours revealed; a flagged
    /// cell stays as it is. On a finished board nothing changes.
    pub fn open(&mut self, i: usize, j: usize) -> (kind: &CellKind)
        requires
            old(self).wf(),
            i < height_of(old(self)@.cells),
            j < width_of(old(self)@.cells),
        ensures
            final(self).wf(),
            !(final(self)@.state is Uninitialized),
            old(self)@.state is Uninitialized ==> initialized_from(
                old(self)@,
                start_of_play(old(self)@, final(self)@.cells),
                i as int,
                j as int,
            ),
            old(self)@.state is Uninitialized ==> safe_zone_free(
                final(self)@.cells,
                i as int,
                j as int,
            ),
            final(self)@ == open_result(
                start_of_play(old(self)@, final(self)@.cells),
                i as int,
                j as int,
            ),
            *kind == cell_at(final(self)@.cells, (i as int, j as int)).kind,
    {
        if let BoardState::Uninitialized = self.state {
            self.initialize(i, j);
        }
        let ghost start = self@;
        let ghost here = (i as int, j as int);
        proof {
            assert(start.cells[i as int].len() == width_of(start.cells));
            lemma_open_result_valid(start, i as int, j as int);
        }
        if let BoardState::Playing = self.state {
            match self.cells[i][j].state {
                CellState::Closed => {
                    proof {
                        lemma_reveal_sources_single(start.cells, here);
                    }
                    self.uncover(i, j);
                },
                CellState::Opened => {
                    let mine_count = self.count_adjacent_mines(i, j);
                    if mine_count > 0 && self.count_surrounding_flags(i, j) == mine_count {
                        let nbrs = self.nbr_indices(i, j);
                        proof {
                            let list = as_positions(nbrs@);
                            lemma_neighbors_adjacent(
                                height_of(start.cells),
                                width_of(start.cells),
                                i as int,
                                j as int,
                            );
                            assert forall|k: int| 0 <= k < list.len() implies
                                on_grid(start.cells, #[trigger] list[k])
                            by {
                                assert(list.contains(list[k]));
                            }
                        }
                        self.uncover_each(&nbrs);
                    } else {
                        proof {
                            lemma_revealed_nothing(
                                start,
                                open_targets(start.cells, i as int, j as int),
                            );
                        }
                    }
                },
                _ => {
                    proof {
                        lemma_revealed_nothing(
                            start,
                            open_targets(start.cells, i as int, j as int),
                        );
                    }
                },
            }
            if let BoardState::Playing = self.state {
                if self.mine_count == self.closed_cell_count {
                    self.state = BoardState::Finished(BoardResult::Win);
                }
            }
        }
        proof {
            assert(self@ == open_result(start, i as int, j as int));
            if old(self)@.state is Uninitialized {
                let laid = with_kinds_of(old(self)@.cells, self@.cells);
                assert forall|p: (int, int)| on_grid(laid, p) implies
                    #[trigger] cell_at(laid, p) == cell_at(start.cells, p)
                by {
                    assert(old(self)@.cells[p.0].len() == width_of(old(self)@.cells));
                    assert(cell_at(self@.cells, p).kind == cell_at(start.cells, p).kind);
                    assert(cell_at(start.cells, p).state == cell_at(old(self)@.cells, p).state);
                }
                assert(rectangular(laid)) by {
                    assert forall|r: int| 0 <= r < laid.len() implies
                        (#[trigger] laid[r]).len() == width_of(laid)
                    by {
                        assert(old(self)@.cells[r].len() == width_of(old(self)@.cells));
                        assert(old(self)@.cells[0].len() == width_of(old(self)@.cells));
                    }
                }
                lemma_grid_ext(laid, start.cells);
                theorem_first_move_safe(old(self)@, self@, i as int, j as int);
            }
            assert(self@.cells[i as int].len() == width_of(self@.cells));
        }
        &self.cells[i][j].kind
    }

    /// As `open`, for a position that may lie outside the board: such a
    /// position is refused and the board stays as it is.
    pub fn open_save(&mut self, i: usize, j: usize) -> (kind: Result<&CellKind, Error>)
        requires
            old(self).wf(),
        ensures
            final(self).wf(),
            kind is Ok <==> i < height_of(old(self)@.cells) && j < width_of(old(self)@.cells),
            kind matches Err(e) ==> e is IndexOutOfBoundError,
            kind matches Ok(k) ==> {
                &&& old(self)@.state is Uninitialized ==> initialized_from(
                    old(self)@,
                    start_of_play(old(self)@, final(self)@.cells),
                    i as int,
                    j as int,
                )
                &&& final(self)@ == open_result(
                    start_of_play(old(self)@, final(self)@.cells),
                    i as int,
                    j as int,
                )
                &&& *k == cell_at(final(self)@.cells, (i as int, j as int)).kind
            },
            kind is Err ==> final(self)@ == old(self)@,
    {
        if i < self.height() && j < self.width() {
            Ok(self.open(i, j))
        } else {
            Err(Error::IndexOutOfBoundError)
        }
    }

    /// Toggles the flag of the cell at `(i, j)` and returns the cell's
    /// state. An opened cell has no flag to toggle, and on a finished board
    /// nothing changes.
    pub fn flag(&mut self, i: usize, j: usize) -> (state: &CellState)
        requires
            old(self).wf(),
            i < height_of(old(self)@.cells),
            j < width_of(old(self)@.cells),
        ensures
            final(self).wf(),
            final(self)@ == flag_result(old(self)@, i as int, j as int),
            *state == cell_at(final(self)@.cells, (i as int, j as int)).state,
    {
        proof {
            lemma_flag_result_valid(self@, i as int, j as int);
            assert(self@.cells[i as int].len() == width_of(self@.cells));
        }
        if let BoardState::Finished(_) = self.state {
            return &self.cells[i][j].state;
        }
        let ghost before = self@.cells;
        self.cells[i][j].flag();
        proof {
            let p = (i as int, j as int);
            let after = with_cell(before, p, toggled_cell(cell_at(before, p)));
            lemma_with_cell(before, p, toggled_cell(cell_at(before, p)));
            assert(grid_of(self.cells) =~~= after);
        }
        &self.cells[i][j].state
    }

    /// As `flag`, for a position that may lie outside the board: such a
    /// position is refused and the board stays as it is.
    pub fn flag_save(&mut self, i: usize, j: usize) -> (state: Result<&CellState, Error>)
        requires
            old(self).wf(),
        ensures
            final(self).wf(),
            state is Ok <==> i < height_of(old(self)@.cells) && j < width_of(old(self)@.cells),
            state matches Err(e) ==> e is IndexOutOfBoundError,
            state matches Ok(s) ==> {
                &&& final(self)@ == flag_result(old(self)@, i as int, j as int)
                &&& *s == cell_at(final(self)@.cells, (i as int, j as int)).state
            },
            state is Err ==> final(self)@ == old(self)@,
    {
        if i < self.height() && j < self.width() {
            Ok(self.flag(i, j))
        } else {
            Err(Error::IndexOutOfBoundError)
        }
    }

    /// How far the game has come.
    pub fn state(&self) -> (state: &BoardState)
        ensures
            *state == self@.state,
    {
        &self.state
    }

    /// The grid, row by row, for reading.
    pub fn cells(&self) -> (cells: &Vec<Vec<Cell>>)
        ensures
            grid_of(*cells) == self@.cells,
    {
        &self.cells
    }
}

impl SweeperBoard<Cell> for Board {
    open spec fn wf(&self) -> bool {
        valid(self@)
    }

    open spec fn value(&self) -> BoardView {
        self@
    }

    proof fn lemma_value_valid(&self) {
    }

    fn new(height: usize, width: usize, mine_count: usize) -> (board: Result<Self, Error>) {
        Board::new(height, width, mine_count)
    }

    fn open(&mut self, i: usize, j: usize) -> (kind: &CellKind) {
        Board::open(self, i, j)
    }

    fn open_save(&mut self, i: usize, j: usize) -> (kind: Result<&CellKind, Error>) {
        Board::open_save(self, i, j)
    }

    fn flag(&mut self, i: usize, j: usize) -> (state: &CellState) {
        Board::flag(self, i, j)
    }

    fn flag_save(&mut self, i: usize, j: usize) -> (state: Result<&CellState, Error>) {
        Board::flag_save(self, i, j)
    }

    fn state(&self) -> (state: &BoardState) {
        Board::state(self)
    }

    fn cells(&self) -> (cells: &Vec<Vec<Cell>>) {
        let cells = Board::cells(self);
        proof {
            let g = self@.cells;
            assert forall|i: int| 0 <= i < cells.len() implies (#[trigger] cells[i]).len()
                == g[i].len() by {
                assert(g[i] == cells@[i]@);
            }
            assert forall|i: int, j: int| 0 <= i < cells.len() && 0 <= j < cells[i].len() implies {
                &&& (#[trigger] cells[i][j]).cell_kind() == g[i][j].kind
                &&& cells[i][j].cell_state() == g[i][j].state
            } by {
                assert(g[i] == cells@[i]@);
            }
        }
        cells
    }
}

} // verus!
