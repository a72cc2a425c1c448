//! A single grid cell: what it holds and whether the player can see it.

use vstd::prelude::*;

verus! {

/// What a cell holds.
#[derive(Clone, Copy, Debug, PartialEq, Eq, Structural)]
pub enum CellKind {
    Mine,
    Free,
    /// Not yet decided: the board has not seen its first move.
    Uninitialized,
}

/// Whether the player can see a cell.
#[derive(Clone, Copy, Debug, PartialEq, Eq, Structural)]
pub enum CellState {
    Closed,
    Flagged,
    Opened,
}

/// One position of the grid.
#[derive(Clone, Copy, Debug, PartialEq, Eq, Structural)]
pub struct Cell {
    pub kind: CellKind,
    pub state: CellState,
}

/// The state a cell has after an attempt to open it: a closed cell opens,
/// a flagged or opened cell stays as it is.
pub open spec fn opened_state(state: CellState) -> CellState {
    match state {
        CellState::Closed => CellState::Opened,
        CellState::Flagged => CellState::Flagged,
        CellState::Opened => CellState::Opened,
    }
}

/// The state a cell has after its flag is toggled: closed and flagged swap,
/// an opened cell stays opened.
pub open spec fn toggled_state(state: CellState) -> CellState {
    match state {
        CellState::Closed => CellState::Flagged,
        CellState::Flagged => CellState::Closed,
        CellState::Opened => CellState::Opened,
    }
}

/// The two operations a board needs from its cells.
pub trait BoardCell {
    /// What the cell holds.
    spec fn cell_kind(&self) -> CellKind;

    /// Whether the cell is closed, flagged or opened.
    spec fn cell_state(&self) -> CellState;

    /// Opens the cell if it is closed and returns what it holds.
    fn open(&mut self) -> (kind: &CellKind)
        ensures
            final(self).cell_kind() == old(self).cell_kind(),
            final(self).cell_state() == opened_state(old(self).cell_state()),
            *kind == old(self).cell_kind(),
    ;

    /// Toggles the flag of a cell that is not opened and returns the
    /// resulting state.
    fn flag(&mut self) -> (state: &CellState)
        ensures
            final(self).cell_kind() == old(self).cell_kind(),
            final(self).cell_state() == toggled_state(old(self).cell_state()),
            *state == final(self).cell_state(),
    ;
}

impl BoardCell for Cell {
    open spec fn cell_kind(&self) -> CellKind {
        self.kind
    }

    open spec fn cell_state(&self) -> CellState {
        self.state
    }

    fn open(&mut self) -> (kind: &CellKind) {
        if let CellState::Closed = self.state {
            self.state = CellState::Opened;
        }
        &self.kind
    }

    fn flag(&mut self) -> (state: &CellState) {
        match self.state {
            CellState::Closed => self.state = CellState::Flagged,
            CellState::Flagged => self.state = CellState::Closed,
            _ => (),
        }
        &self.state
    }
}

} // verus!
