//! The game behind a plainer interface: a configuration in one value, the
//! state of the game as one flat list of cases, and moves that say whether
//! they did anything.
//!
//! A [`Sweeper`] plays by the rules of [`Board`]. It refuses, with `None`,
//! what would change nothing: any request on a finished game, a move on a
//! flagged cell, a flag on an opened cell.

use vstd::prelude::*;
use crate::board::{Board, BoardResult, BoardState};
use crate::cell::{toggled_state, CellKind, CellState};
use crate::error::Error;
use crate::grid::{cell_at, height_of, width_of};
use crate::rules::{
    flag_result, fresh, initialized_from, open_result, start_of_play, valid, valid_config,
    BoardView,
};

verus! {

/// The size of a board and the number of its mines.
#[derive(Clone, Copy, Debug, PartialEq, Eq, Structural)]
pub struct BoardConfig {
    pub height: usize,
    pub width: usize,
    pub mine_count: usize,
}

impl BoardConfig {
    /// Nine by nine cells with ten mines.
    pub fn easy() -> (config: BoardConfig)
        ensures
            config == (BoardConfig { height: 9, width: 9, mine_count: 10 }),
    {
        BoardConfig { height: 9, width: 9, mine_count: 10 }
    }

    /// Sixteen by sixteen cells with forty mines.
    pub fn medium() -> (config: BoardConfig)
        ensures
            config == (BoardConfig { height: 16, width: 16, mine_count: 40 }),
    {
        BoardConfig { height: 16, width: 16, mine_count: 40 }
    }

    /// Twenty-four by twenty-four cells with ninety-nine mines.
    pub fn hard() -> (config: BoardConfig)
        ensures
            config == (BoardConfig { height: 24, width: 24, mine_count: 99 }),
    {
        BoardConfig { height: 24, width: 24, mine_count: 99 }
    }
}

/// How far a game has come, and how it ended.
#[derive(Clone, Copy, Debug, PartialEq, Eq, Structural)]
pub enum SweeperState {
    Uninitialized,
    Playing,
    Lost,
    Win,
}

/// The state of a board as a [`SweeperState`].
pub open spec fn flat_state(state: BoardState) -> SweeperState {
    match state {
        BoardState::Uninitialized => SweeperState::Uninitialized,
        BoardState::Playing => SweeperState::Playing,
        BoardState::Finished(BoardResult::Lost) => SweeperState::Lost,
        BoardState::Finished(BoardResult::Win) => SweeperState::Win,
    }
}

/// Whether a move at `(i, j)` is played: the game is not finished and the
/// cell is not flagged. A closed cell is revealed; on an opened cell the
/// move is a chord.
pub open spec fn can_open(v: BoardView, i: int, j: int) -> bool {
    !(v.state is Finished) && !(cell_at(v.cells, (i, j)).state is Flagged)
}

/// Whether the cell at `(i, j)` has a flag to toggle: the game is not
/// finished and the cell is not opened.
pub open spec fn can_flag(v: BoardView, i: int, j: int) -> bool {
    !(v.state is Finished) && !(cell_at(v.cells, (i, j)).state is Opened)
}

/// A game of minesweeper.
#[derive(Debug)]
pub struct Sweeper {
    board: Board,
}

impl View for Sweeper {
    type V = BoardView;

    closed spec fn view(&self) -> BoardView {
        self.board@
    }
}

impl Sweeper {
    /// Whether the game is one that play can reach.
    pub open spec fn wf(&self) -> bool {
        valid(self@)
    }

    /// Starts a game on a board of the given configuration, or refuses a
    /// configuration that is not valid.
    pub fn new(config: BoardConfig) -> (sweeper: Result<Self, Error>)
        requires
            config.height * config.width <= usize::MAX,
        ensures
            sweeper is Ok <==> valid_config(
                config.height as int,
                config.width as int,
                config.mine_count as int,
            ),
            sweeper matches Ok(s) ==> s.wf() && s@ == fresh(
                config.height as int,
                config.width as int,
                config.mine_count as int,
            ),
            sweeper matches Err(e) ==> e is InvalidConfigError,
    {
        match Board::new(config.height, config.width, config.mine_count) {
            Ok(board) => Ok(Sweeper { board }),
            Err(e) => Err(e),
        }
    }

    /// Plays a move at `(i, j)`, as [`Board::open`] does, and returns what
    /// the cell there holds: a closed cell is revealed, and an opened cell
    /// with mines around it and as many flags as mines has its closed
    /// neighbours revealed. A move on a flagged cell or on a finished game
    /// is refused with `None` and changes nothing.
    pub fn open(&mut self, i: usize, j: usize) -> (kind: Option<CellKind>)
        requires
            old(self).wf(),
            i < height_of(old(self)@.cells),
            j < width_of(old(self)@.cells),
        ensures
            final(self).wf(),
            kind is Some <==> can_open(old(self)@, i as int, j as int),
            kind is None ==> final(self)@ == old(self)@,
            kind matches Some(k) ==> {
                &&& old(self)@.state is Uninitialized ==> initialized_from(
                    old(self)@,
                    start_of_play(old(self)@, final(self)@.cells),
                    i as int,
                    j as int,
                )
                &&& final(self)@ == open_result(
                    start_of_play(old(self)@, final(self)@.cells),
                    i as int,
                    j as int,
                )
                &&& k == cell_at(final(self)@.cells, (i as int, j as int)).kind
            },
    {
        proof {
            assert(self@.cells[i as int].len() == width_of(self@.cells));
        }
        if let BoardState::Finished(_) = self.board.state() {
            return None;
        }
        match self.board.cells()[i][j].state {
            CellState::Flagged => None,
            _ => {
                let kind = *self.board.open(i, j);
                Some(kind)
            },
        }
    }

    /// Toggles the flag of the cell at `(i, j)` if the cell is not opened
    /// and the game is not finished, and returns the cell's new state. Any
    /// other request is refused with `None` and changes nothing.
    pub fn flag(&mut self, i: usize, j: usize) -> (state: Option<CellState>)
        requires
            old(self).wf(),
            i < height_of(old(self)@.cells),
            j < width_of(old(self)@.cells),
        ensures
            final(self).wf(),
            final(self)@ == flag_result(old(self)@, i as int, j as int),
            state == if can_flag(old(self)@, i as int, j as int) {
                Some(toggled_state(cell_at(old(self)@.cells, (i as int, j as int)).state))
            } else {
                None
            },
            state is None ==> final(self)@ == old(self)@,
    {
        proof {
            assert(self@.cells[i as int].len() == width_of(self@.cells));
        }
        if let BoardState::Finished(_) = self.board.state() {
            return None;
        }
        match self.board.cells()[i][j].state {
            CellState::Opened => {
                proof {
                    crate::rules::lemma_flag_opened(self@, i as int, j as int);
                }
                None
            },
            _ => {
                let state = *self.board.flag(i, j);
                proof {
                    crate::grid::lemma_with_cell(
                        old(self)@.cells,
                        (i as int, j as int),
                        crate::rules::toggled_cell(cell_at(old(self)@.cells, (i as int, j as int))),
                    );
                }
                Some(state)
            },
        }
    }

    /// How far the game has come, and how it ended.
    pub fn game_state(&self) -> (state: SweeperState)
        ensures
            state == flat_state(self@.state),
    {
        match self.board.state() {
            BoardState::Uninitialized => SweeperState::Uninitialized,
            BoardState::Playing => SweeperState::Playing,
            BoardState::Finished(BoardResult::Lost) => SweeperState::Lost,
            BoardState::Finished(BoardResult::Win) => SweeperState::Win,
        }
    }

    /// The number of rows.
    pub fn get_height(&self) -> (height: usize)
        ensures
            height == height_of(self@.cells),
    {
        self.board.height()
    }

    /// The number of columns.
    pub fn get_width(&self) -> (width: usize)
        requires
            self.wf(),
        ensures
            width == width_of(self@.cells),
    {
        self.board.width()
    }

    /// The board on which the game is played, for reading.
    pub fn get_board(&self) -> (board: &Board)
        ensures
            board@ == self@,
    {
        &self.board
    }

    /// Counts the neighbours of `(i, j)` that hold a mine.
    pub fn count_mine_in_nbrs(&self, i: usize, j: usize) -> (count: usize)
        requires
            self.wf(),
            i < height_of(self@.cells),
            j < width_of(self@.cells),
        ensures
            count == crate::grid::adjacent_mines(self@.cells, i as int, j as int),
    {
        self.board.count_adjacent_mines(i, j)
    }
}

} // verus!
