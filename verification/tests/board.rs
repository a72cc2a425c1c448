use sweeprs::{Board, CellKind, CellState};

#[test]
fn new_board() {
    let valid = Board::new(9, 9, 10);
    assert!(valid.is_ok());
    let invalid_height = Board::new(8, 9, 10);
    assert!(invalid_height.is_err());
    let invalid_width = Board::new(9, 7, 10);
    assert!(invalid_width.is_err());
    let too_many_mines = Board::new(9, 9, 73);
    assert!(too_many_mines.is_err());
}

#[test]
fn board_new_board() {
    let valid = Board::new(9, 9, 10);
    assert!(valid.is_ok());
    let invalid_height = Board::new(8, 9, 10);
    assert!(invalid_height.is_err());
    let invalid_width = Board::new(9, 7, 10);
    assert!(invalid_width.is_err());
    let too_many_mines = Board::new(9, 9, 73);
    assert!(too_many_mines.is_err());
}

#[test]
fn open_cell() {
    let mut board = Board::new(9, 9, 10).unwrap();
    board.open(4, 4);

    // check surrounding initial
    for (i_nbr, j_nbr) in board.nbr_indices(4, 4) {
        assert!(matches!(board.cells()[i_nbr][j_nbr].kind, CellKind::Free));
    }

    // check opened cell is a free cell
    for cell in board.cells().iter().flatten() {
        if let CellState::Opened = cell.state {
            assert!(matches!(cell.kind, CellKind::Free))
        }
    }
}

#[test]
fn init_board() {
    let mut board = Board::new(9, 9, 10).unwrap();
    let mut mine_count = 0;
    let mut uninitialized_cell = 0;
    for cell in board.cells().iter().flatten() {
        match cell.kind {
            CellKind::Mine => mine_count += 1,
            CellKind::Uninitialized => uninitialized_cell += 1,
            _ => (),
        }
    }
    assert_eq!(mine_count, 0);
    assert_eq!(uninitialized_cell, 81);
    board.initialize(4, 4);
    mine_count = 0;
    uninitialized_cell = 0;
    for cell in board.cells().iter().flatten() {
        match cell.kind {
            CellKind::Mine => mine_count += 1,
            CellKind::Uninitialized => uninitialized_cell += 1,
            _ => (),
        }
    }
    assert_eq!(mine_count, 10);
    assert_eq!(uninitialized_cell, 0);
}

#[test]
fn dimension() {
    let board = Board::new(9, 9, 10).unwrap();
    assert_eq!(board.width(), 9);
    assert_eq!(board.height(), 9);
}

#[test]
fn out_of_bound() {
    let mut board = Board::new(9, 9, 10).unwrap();
    assert!(board.open_save(10, 0).is_err());
    assert!(board.open_save(0, 10).is_err());
    assert!(board.flag_save(10, 0).is_err());
    assert!(board.flag_save(0, 10).is_err());
}

#[test]
fn top_left_nbr() {
    let board = Board::new(9, 9, 5).unwrap();
    let indices = board.nbr_indices(0, 0);
    assert_eq!(indices, [(0, 1), (1, 0), (1, 1)])
}

#[test]
fn top_right_nbr() {
    let board = Board::new(9, 9, 5).unwrap();
    let indices = board.nbr_indices(0, 8);
    assert_eq!(indices, [(0, 7), (1, 7), (1, 8)])
}

#[test]
fn bot_left_nbr() {
    let board = Board::new(9, 9, 5).unwrap();
    let indices = board.nbr_indices(8, 0);
    assert_eq!(indices, [(7, 0), (7, 1), (8, 1)])
}

#[test]
fn bot_right_nbr() {
    let board = Board::new(9, 9, 5).unwrap();
    let indices = board.nbr_indices(8, 8);
    assert_eq!(indices, [(7, 7), (7, 8), (8, 7)])
}

#[test]
fn top_nbr() {
    let board = Board::new(9, 9, 5).unwrap();
    let indices = board.nbr_indices(0, 4);
    assert_eq!(indices, [(0, 3), (0, 5), (1, 3), (1, 4), (1, 5)])
}

#[test]
fn left_nbr() {
    let board = Board::new(9, 9, 5).unwrap();
    let indices = board.nbr_indices(4, 0);
    assert_eq!(indices, [(3, 0), (3, 1), (4, 1), (5, 0), (5, 1)])
}

#[test]
fn right_nbr() {
    let board = Board::new(9, 9, 5).unwrap();
    let indices = board.nbr_indices(4, 8);
    assert_eq!(indices, [(3, 7), (3, 8), (4, 7), (5, 7), (5, 8)])
}

#[test]
fn bot_nbr() {
    let board = Board::new(9, 9, 5).unwrap();
    let indices = board.nbr_indices(8, 4);
    assert_eq!(indices, [(7, 3), (7, 4), (7, 5), (8, 3), (8, 5)])
}

#[test]
fn inner_nbr() {
    let board = Board::new(9, 9, 5).unwrap();
    let indices = board.nbr_indices(4, 4);
    assert_eq!(
        indices,
        [(3, 3), (3, 4), (3, 5), (4, 3), (4, 5), (5, 3), (5, 4), (5, 5)]
    )
}

#[test]
fn nbr_on_a_wide_board() {
    let board = Board::new(9, 12, 5).unwrap();
    assert_eq!(board.nbr_indices(8, 11), [(7, 10), (7, 11), (8, 10)]);
    assert_eq!(
        board.nbr_indices(0, 10),
        [(0, 9), (0, 11), (1, 9), (1, 10), (1, 11)]
    );
}
