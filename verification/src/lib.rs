//! A minesweeper engine: a grid of cells, lazy mine placement on the first
//! move, flood and chord reveal, flags, and win/loss detection.
//!
//! [`Board`] is the engine. Its contracts are stated over [`rules`], which
//! gives the game as functions on a board's mathematical value; [`flood`]
//! says how a reveal spreads, [`grid`] and [`geometry`] hold the grid and its
//! neighbourhoods, and [`theorems`] proves what follows from the rules.
//! [`Sweeper`] offers the same game behind a plainer interface, and [`Game`]
//! adds the cursor and the commands of a front end. The only thing taken on
//! trust is the source of chance, in [`random`].

pub mod board;
pub mod cell;
pub mod cursor;
pub mod error;
pub mod flood;
pub mod game;
pub mod geometry;
pub mod grid;
pub mod random;
pub mod rules;
pub mod sweeper;
pub mod theorems;

pub use board::{Board, BoardResult, BoardState, SweeperBoard};
pub use cell::{BoardCell, Cell, CellKind, CellState};
pub use error::Error;
pub use game::{Command, Game, Glyph, Paint};
pub use sweeper::{BoardConfig, Sweeper, SweeperState};
