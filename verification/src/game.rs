//! A game as a front end plays it: a board, a cursor on it, and the
//! commands that a player gives.
//!
//! The cursor never leaves the board, so every move that a command makes is
//! a move on the board.

use core::ops::{AddAssign, SubAssign};
use vstd::prelude::*;
use crate::board::{Board, BoardState};
use crate::cell::{Cell, CellKind, CellState};
use crate::cursor::{moved_back, moved_forward, BoundedIndex};
use crate::grid::{adjacent_mines, cell_at, height_of, width_of};
use crate::rules::{flag_result, initialized_from, open_result, start_of_play, valid, BoardView};

verus! {

/// What a player can ask for.
#[derive(Clone, Copy, Debug, PartialEq, Eq, Structural)]
pub enum Command {
    /// Leave the game.
    Quit,
    /// Play a move at the cursor.
    Open,
    /// Toggle the flag at the cursor.
    Flag,
    Up,
    Down,
    Left,
    Right,
    /// Anything else: nothing is done.
    Ignore,
}

/// What a front end shows for a cell.
#[derive(Clone, Copy, Debug, PartialEq, Eq, Structural)]
pub enum Glyph {
    /// A cell that hides what it holds: a closed cell, or an opened cell of
    /// a board without mines yet.
    Closed,
    Flagged,
    /// An opened mine.
    Mine,
    /// An opened free cell with no mine around it.
    Blank,
    /// An opened free cell with this many mines around it.
    Number(usize),
}

/// How a front end sets a cell off from the others.
#[derive(Clone, Copy, Debug, PartialEq, Eq, Structural)]
pub enum Paint {
    Plain,
    /// The glyph itself is coloured.
    Text,
    /// The ground behind the glyph is coloured, for a glyph that shows
    /// nothing.
    Ground,
}

/// The glyph for a cell that has `mines` mines around it.
pub open spec fn glyph_of(cell: Cell, mines: nat) -> Glyph {
    match cell.state {
        CellState::Closed => Glyph::Closed,
        CellState::Flagged => Glyph::Flagged,
        CellState::Opened => match cell.kind {
            CellKind::Uninitialized => Glyph::Closed,
            CellKind::Mine => Glyph::Mine,
            CellKind::Free => if mines == 0 {
                Glyph::Blank
            } else {
                Glyph::Number(mines as usize)
            },
        },
    }
}

/// How the cell with the glyph `glyph` is set off: while the game is not
/// finished, the cell under the cursor; once it is finished, every mine.
pub open spec fn paint_of(state: BoardState, cell: Cell, glyph: Glyph, at_cursor: bool) -> Paint {
    if state is Finished {
        if cell.kind is Mine {
            Paint::Text
        } else {
            Paint::Plain
        }
    } else if at_cursor {
        if glyph is Blank {
            Paint::Ground
        } else {
            Paint::Text
        }
    } else {
        Paint::Plain
    }
}

/// A game as a mathematical value: the board, where the cursor stands, and
/// the bounds below which the cursor is kept.
pub struct GameView {
    pub board: BoardView,
    pub row: int,
    pub col: int,
    pub row_bound: int,
    pub col_bound: int,
}

/// The game `v` with the cursor at `(row, col)`.
pub open spec fn with_cursor(v: GameView, row: int, col: int) -> GameView {
    GameView { board: v.board, row, col, row_bound: v.row_bound, col_bound: v.col_bound }
}

/// The game `v` on the board `board`.
pub open spec fn with_board(v: GameView, board: BoardView) -> GameView {
    GameView {
        board,
        row: v.row,
        col: v.col,
        row_bound: v.row_bound,
        col_bound: v.col_bound,
    }
}

/// A board with a cursor on it.
#[derive(Debug)]
pub struct Game {
    i: BoundedIndex,
    j: BoundedIndex,
    sweeper: Board,
}

impl View for Game {
    type V = GameView;

    closed spec fn view(&self) -> GameView {
        GameView {
            board: self.sweeper@,
            row: self.i.index as int,
            col: self.j.index as int,
            row_bound: self.i.max as int,
            col_bound: self.j.max as int,
        }
    }
}

impl Game {
    /// Whether the game is one that play can reach: the board is, the
    /// bounds of the cursor are the sides of the board, and the cursor
    /// stands on the board.
    pub open spec fn wf(&self) -> bool {
        &&& valid(self@.board)
        &&& self@.row_bound == height_of(self@.board.cells)
        &&& self@.col_bound == width_of(self@.board.cells)
        &&& 0 <= self@.row < self@.row_bound
        &&& 0 <= self@.col < self@.col_bound
    }

    /// Starts a game on `sweeper`, with the cursor in the top left corner.
    pub fn new(sweeper: Board) -> (game: Game)
        requires
            sweeper.wf(),
        ensures
            game.wf(),
            game@ == (GameView {
                board: sweeper@,
                row: 0,
                col: 0,
                row_bound: height_of(sweeper@.cells),
                col_bound: width_of(sweeper@.cells),
            }),
    {
        Game {
            i: BoundedIndex { index: 0, max: sweeper.height() },
            j: BoundedIndex { index: 0, max: sweeper.width() },
            sweeper,
        }
    }

    /// Carries out a command and says whether the game goes on: it does
    /// unless the player quits or the board is finished.
    ///
    /// `Open` plays a move at the cursor and `Flag` toggles the flag there,
    /// as [`Board::open`] and [`Board::flag`] do. `Up`, `Down`, `Left` and
    /// `Right` move the cursor by one cell, unless it would leave the board.
    /// `Quit` and `Ignore` change nothing.
    pub fn step(&mut self, command: Command) -> (go_on: bool)
        requires
            old(self).wf(),
        ensures
            final(self).wf(),
            go_on == (!(command is Quit) && !(final(self)@.board.state is Finished)),
            match command {
                Command::Open => {
                    &&& final(self)@ == with_board(old(self)@, final(self)@.board)
                    &&& old(self)@.board.state is Uninitialized ==> initialized_from(
                        old(self)@.board,
                        start_of_play(old(self)@.board, final(self)@.board.cells),
                        old(self)@.row,
                        old(self)@.col,
                    )
                    &&& final(self)@.board == open_result(
                        start_of_play(old(self)@.board, final(self)@.board.cells),
                        old(self)@.row,
                        old(self)@.col,
                    )
                },
                Command::Flag => final(self)@ == with_board(
                    old(self)@,
                    flag_result(old(self)@.board, old(self)@.row, old(self)@.col),
                ),
                Command::Up => final(self)@ == with_cursor(
                    old(self)@,
                    moved_back(old(self)@.row, 1),
                    old(self)@.col,
                ),
                Command::Down => final(self)@ == with_cursor(
                    old(self)@,
                    moved_forward(old(self)@.row, old(self)@.row_bound, 1),
                    old(self)@.col,
                ),
                Command::Left => final(self)@ == with_cursor(
                    old(self)@,
                    old(self)@.row,
                    moved_back(old(self)@.col, 1),
                ),
                Command::Right => final(self)@ == with_cursor(
                    old(self)@,
                    old(self)@.row,
                    moved_forward(old(self)@.col, old(self)@.col_bound, 1),
                ),
                Command::Quit | Command::Ignore => final(self)@ == old(self)@,
            },
    {
        match command {
            Command::Quit => {
                return false;
            },
            Command::Open => {
                self.sweeper.open(self.i.index, self.j.index);
            },
            Command::Flag => {
                self.sweeper.flag(self.i.index, self.j.index);
            },
            Command::Up => self.i.sub_assign(1),
            Command::Down => self.i.add_assign(1),
            Command::Left => self.j.sub_assign(1),
            Command::Right => self.j.add_assign(1),
            Command::Ignore => (),
        }
        if let BoardState::Finished(_) = self.sweeper.state() {
            false
        } else {
            true
        }
    }

    /// The row and the column at which the cursor stands.
    pub fn cursor(&self) -> (at: (usize, usize))
        ensures
            at.0 == self@.row,
            at.1 == self@.col,
    {
        (self.i.index, self.j.index)
    }

    /// The board, for reading.
    pub fn board(&self) -> (board: &Board)
        ensures
            board@ == self@.board,
    {
        &self.sweeper
    }

    /// What to show for the cell at `(i, j)`.
    pub fn glyph(&self, i: usize, j: usize) -> (glyph: Glyph)
        requires
            self.wf(),
            i < height_of(self@.board.cells),
            j < width_of(self@.board.cells),
        ensures
            glyph == glyph_of(
                cell_at(self@.board.cells, (i as int, j as int)),
                adjacent_mines(self@.board.cells, i as int, j as int),
            ),
    {
        proof {
            assert(self@.board.cells[i as int].len() == width_of(self@.board.cells));
        }
        let cell = self.sweeper.cells()[i][j];
        match cell.state {
            CellState::Closed => Glyph::Closed,
            CellState::Flagged => Glyph::Flagged,
            CellState::Opened => match cell.kind {
                CellKind::Uninitialized => Glyph::Closed,
                CellKind::Mine => Glyph::Mine,
                CellKind::Free => {
                    let mine_count = self.sweeper.count_adjacent_mines(i, j);
                    if mine_count == 0 {
                        Glyph::Blank
                    } else {
                        Glyph::Number(mine_count)
                    }
                },
            },
        }
    }

    /// How to set off the cell at `(i, j)`.
    pub fn paint(&self, i: usize, j: usize) -> (paint: Paint)
        requires
            self.wf(),
            i < height_of(self@.board.cells),
            j < width_of(self@.board.cells),
        ensures
            paint == paint_of(
                self@.board.state,
                cell_at(self@.board.cells, (i as int, j as int)),
                glyph_of(
                    cell_at(self@.board.cells, (i as int, j as int)),
                    adjacent_mines(self@.board.cells, i as int, j as int),
                ),
                i == self@.row && j == self@.col,
            ),
    {
        proof {
            assert(self@.board.cells[i as int].len() == width_of(self@.board.cells));
        }
        match self.sweeper.state() {
            BoardState::Uninitialized | BoardState::Playing => {
                if i == self.i.index && j == self.j.index {
                    if let Glyph::Blank = self.glyph(i, j) {
                        Paint::Ground
                    } else {
                        Paint::Text
                    }
                } else {
                    Paint::Plain
                }
            },
            BoardState::Finished(_) => {
                if let CellKind::Mine = self.sweeper.cells()[i][j].kind {
                    Paint::Text
                } else {
                    Paint::Plain
                }
            },
        }
    }
}

} // verus!
