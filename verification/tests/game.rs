use sweeprs::{
    Board, BoardConfig, BoardResult, BoardState, Cell, CellKind, CellState, Error, Sweeper,
    SweeperBoard, SweeperState,
};

fn neighbors_of(height: usize, width: usize, i: usize, j: usize) -> Vec<(usize, usize)> {
    let mut found = Vec::new();
    for r in i.saturating_sub(1)..=(i + 1).min(height - 1) {
        for c in j.saturating_sub(1)..=(j + 1).min(width - 1) {
            if (r, c) != (i, j) {
                found.push((r, c));
            }
        }
    }
    found
}

fn mines_around(cells: &Vec<Vec<Cell>>, i: usize, j: usize) -> usize {
    neighbors_of(cells.len(), cells[0].len(), i, j)
        .into_iter()
        .filter(|&(r, c)| cells[r][c].kind == CellKind::Mine)
        .count()
}

fn count_kind(cells: &Vec<Vec<Cell>>, kind: CellKind) -> usize {
    cells.iter().flatten().filter(|cell| cell.kind == kind).count()
}

fn count_state(cells: &Vec<Vec<Cell>>, state: CellState) -> usize {
    cells.iter().flatten().filter(|cell| cell.state == state).count()
}

/// What a reveal from `(i, j)` must leave, worked out with a work list.
fn expected_after_reveal(cells: &Vec<Vec<Cell>>, i: usize, j: usize) -> Vec<Vec<Cell>> {
    let mut grid = cells.clone();
    let mut work = vec![(i, j)];
    while let Some((r, c)) = work.pop() {
        if grid[r][c].state != CellState::Closed {
            continue;
        }
        grid[r][c].state = CellState::Opened;
        if grid[r][c].kind == CellKind::Free && mines_around(&grid, r, c) == 0 {
            work.extend(neighbors_of(grid.len(), grid[0].len(), r, c));
        }
    }
    grid
}

#[test]
fn a_new_board_is_blank() {
    let board = Board::new(9, 12, 30).unwrap();
    assert_eq!(board.height(), 9);
    assert_eq!(board.width(), 12);
    assert_eq!(*board.state(), BoardState::Uninitialized);
    assert_eq!(board.cells().len(), 9);
    for row in board.cells() {
        assert_eq!(row.len(), 12);
        for cell in row {
            assert_eq!(*cell, Cell { kind: CellKind::Uninitialized, state: CellState::Closed });
        }
    }
}

#[test]
fn new_accepts_exactly_the_valid_configurations() {
    assert!(Board::new(9, 9, 0).is_ok());
    assert!(Board::new(9, 9, 72).is_ok());
    assert!(matches!(Board::new(9, 9, 73), Err(Error::InvalidConfigError)));
    assert!(matches!(Board::new(8, 9, 10), Err(Error::InvalidConfigError)));
    assert!(matches!(Board::new(9, 8, 10), Err(Error::InvalidConfigError)));
    assert!(matches!(Board::new(0, 0, 0), Err(Error::InvalidConfigError)));
    assert!(Board::new(16, 16, 40).is_ok());
    assert!(Board::new(24, 24, 99).is_ok());
    assert!(Board::new(24, 24, 567).is_ok());
    assert!(Board::new(24, 24, 568).is_err());
    assert!(Board::new(9, 100, 891).is_ok());
    assert!(Board::new(9, 100, 892).is_err());
}

#[test]
fn error_messages() {
    assert_eq!(Error::InvalidConfigError.message(), "board configuration is invalid");
    assert_eq!(Error::IndexOutOfBoundError.message(), "index is out of bound");
}

#[test]
fn the_first_move_is_safe_wherever_it_is() {
    for &(i, j) in &[(0, 0), (0, 8), (8, 0), (8, 8), (0, 4), (4, 0), (4, 4), (8, 5), (3, 8)] {
        for &mine_count in &[0, 1, 10, 40, 72] {
            let mut board = Board::new(9, 9, mine_count).unwrap();
            let kind = *board.open(i, j);
            assert_eq!(kind, CellKind::Free);
            assert_eq!(board.cells()[i][j].kind, CellKind::Free);
            assert_eq!(board.cells()[i][j].state, CellState::Opened);
            for (r, c) in neighbors_of(9, 9, i, j) {
                assert_eq!(board.cells()[r][c].kind, CellKind::Free);
                assert_eq!(board.cells()[r][c].state, CellState::Opened);
            }
            assert_eq!(count_kind(board.cells(), CellKind::Mine), mine_count);
            assert_eq!(count_kind(board.cells(), CellKind::Uninitialized), 0);
        }
    }
}

#[test]
fn initialize_lays_every_mine_and_decides_every_cell() {
    for &(height, width, mine_count) in
        &[(9, 9, 72), (9, 9, 0), (16, 16, 40), (24, 24, 99), (9, 14, 117), (12, 9, 1)]
    {
        for &(i, j) in &[(0, 0), (4, 4), (8, 8), (0, 3)] {
            let mut board = Board::new(height, width, mine_count).unwrap();
            board.flag(1, 1);
            board.initialize(i, j);
            assert_eq!(*board.state(), BoardState::Playing);
            assert_eq!(count_kind(board.cells(), CellKind::Mine), mine_count);
            assert_eq!(count_kind(board.cells(), CellKind::Uninitialized), 0);
            assert_eq!(count_kind(board.cells(), CellKind::Free), height * width - mine_count);
            assert_eq!(board.cells()[i][j].kind, CellKind::Free);
            for (r, c) in neighbors_of(height, width, i, j) {
                assert_eq!(board.cells()[r][c].kind, CellKind::Free);
            }
            assert_eq!(count_state(board.cells(), CellState::Opened), 0);
            assert_eq!(count_state(board.cells(), CellState::Flagged), 1);
            assert_eq!(board.cells()[1][1].state, CellState::Flagged);
        }
    }
}

#[test]
fn mines_are_laid_once() {
    let mut board = Board::new(16, 16, 40).unwrap();
    board.open(8, 8);
    let kinds: Vec<Vec<CellKind>> =
        board.cells().iter().map(|row| row.iter().map(|cell| cell.kind).collect()).collect();
    for &(i, j) in &[(0, 0), (15, 15), (8, 8), (3, 12), (12, 3)] {
        board.flag(i, j);
        board.open(i, j);
        board.flag(i, j);
        board.open(i, j);
        let now: Vec<Vec<CellKind>> =
            board.cells().iter().map(|row| row.iter().map(|cell| cell.kind).collect()).collect();
        assert_eq!(now, kinds);
    }
}

#[test]
fn a_board_full_of_mines_is_won_by_its_first_move() {
    let mut board = Board::new(9, 9, 72).unwrap();
    assert_eq!(*board.open(4, 4), CellKind::Free);
    assert_eq!(*board.state(), BoardState::Finished(BoardResult::Win));
    for i in 0..9 {
        for j in 0..9 {
            let cell = board.cells()[i][j];
            let inside = (3..=5).contains(&i) && (3..=5).contains(&j);
            if inside {
                assert_eq!(cell, Cell { kind: CellKind::Free, state: CellState::Opened });
            } else {
                assert_eq!(cell, Cell { kind: CellKind::Mine, state: CellState::Closed });
            }
        }
    }
    assert_eq!(board.count_adjacent_mines(4, 4), 0);
    assert_eq!(board.count_adjacent_mines(3, 3), 5);
    assert_eq!(board.count_adjacent_mines(3, 4), 3);
    assert_eq!(board.count_adjacent_mines(0, 0), 3);
    assert_eq!(board.count_adjacent_mines(1, 1), 8);
    assert_eq!(board.count_adjacent_mines(2, 2), 7);
}

#[test]
fn a_board_without_mines_is_opened_whole_by_its_first_move() {
    let mut board = Board::new(9, 11, 0).unwrap();
    board.flag(0, 0);
    assert_eq!(*board.open(8, 10), CellKind::Free);
    assert_eq!(*board.state(), BoardState::Playing);
    assert_eq!(count_state(board.cells(), CellState::Opened), 98);
    assert_eq!(board.cells()[0][0].state, CellState::Flagged);
    assert_eq!(*board.open(0, 0), CellKind::Free);
    assert_eq!(board.cells()[0][0].state, CellState::Flagged);
    assert_eq!(*board.flag(0, 0), CellState::Closed);
    assert_eq!(*board.open(0, 0), CellKind::Free);
    assert_eq!(*board.state(), BoardState::Finished(BoardResult::Win));
    assert_eq!(count_state(board.cells(), CellState::Opened), 99);
}

#[test]
fn a_reveal_opens_what_a_work_list_opens() {
    for round in 0..40 {
        let mine_count = 10 + round;
        let mut board = Board::new(16, 16, mine_count).unwrap();
        board.initialize(round % 16, (round * 7) % 16);
        for k in 0..8 {
            let (i, j) = ((round * 3 + k * 5) % 16, (round + k * 11) % 16);
            if *board.state() != BoardState::Playing {
                break;
            }
            if board.cells()[i][j].state != CellState::Closed {
                continue;
            }
            let expected = expected_after_reveal(board.cells(), i, j);
            let kind = *board.open(i, j);
            assert_eq!(kind, expected[i][j].kind);
            assert_eq!(*board.cells(), expected);
            let unopened = 256 - count_state(board.cells(), CellState::Opened);
            let state = if kind == CellKind::Mine {
                BoardState::Finished(BoardResult::Lost)
            } else if unopened == mine_count {
                BoardState::Finished(BoardResult::Win)
            } else {
                BoardState::Playing
            };
            assert_eq!(*board.state(), state);
        }
    }
}

#[test]
fn a_reveal_covers_a_large_board() {
    let mut board = Board::new(500, 400, 0).unwrap();
    assert_eq!(*board.open(250, 200), CellKind::Free);
    assert_eq!(count_state(board.cells(), CellState::Opened), 200_000);
    assert_eq!(*board.state(), BoardState::Finished(BoardResult::Win));
}

#[test]
fn a_reveal_stops_at_flags_and_at_numbered_cells() {
    let mut board = Board::new(9, 9, 0).unwrap();
    board.initialize(0, 0);
    for i in 0..9 {
        board.flag(i, 4);
    }
    assert_eq!(*board.open(0, 0), CellKind::Free);
    for i in 0..9 {
        for j in 0..9 {
            let state = board.cells()[i][j].state;
            if j < 4 {
                assert_eq!(state, CellState::Opened);
            } else if j == 4 {
                assert_eq!(state, CellState::Flagged);
            } else {
                assert_eq!(state, CellState::Closed);
            }
        }
    }
    assert_eq!(*board.state(), BoardState::Playing);
}

#[test]
fn a_reveal_does_not_pass_through_opened_cells() {
    let mut board = Board::new(9, 9, 0).unwrap();
    board.flag(0, 0);
    board.flag(0, 8);
    assert_eq!(*board.open(4, 4), CellKind::Free);
    assert_eq!(count_state(board.cells(), CellState::Opened), 79);
    assert_eq!(*board.state(), BoardState::Playing);
    // With the flags taken off, two closed cells lie apart, with opened
    // cells between them. A reveal from one of them does not come to the
    // other.
    assert_eq!(*board.flag(0, 0), CellState::Closed);
    assert_eq!(*board.flag(0, 8), CellState::Closed);
    assert_eq!(*board.open(0, 0), CellKind::Free);
    assert_eq!(board.cells()[0][0].state, CellState::Opened);
    assert_eq!(board.cells()[0][8].state, CellState::Closed);
    assert_eq!(*board.state(), BoardState::Playing);
    assert_eq!(*board.open(0, 8), CellKind::Free);
    assert_eq!(*board.state(), BoardState::Finished(BoardResult::Win));
}

#[test]
fn a_numbered_cell_opens_alone() {
    let mut board = Board::new(9, 9, 71).unwrap();
    board.initialize(4, 4);
    let before = board.cells().clone();
    assert!(board.count_adjacent_mines(3, 3) >= 4);
    assert_eq!(*board.open(3, 3), CellKind::Free);
    for i in 0..9 {
        for j in 0..9 {
            if (i, j) == (3, 3) {
                assert_eq!(board.cells()[i][j].state, CellState::Opened);
            } else {
                assert_eq!(board.cells()[i][j], before[i][j]);
            }
        }
    }
}

#[test]
fn opening_a_mine_loses_and_ends_the_game() {
    let mut board = Board::new(9, 9, 72).unwrap();
    board.initialize(4, 4);
    board.flag(8, 8);
    assert_eq!(*board.open(0, 0), CellKind::Mine);
    assert_eq!(*board.state(), BoardState::Finished(BoardResult::Lost));
    assert_eq!(board.cells()[0][0].state, CellState::Opened);
    assert_eq!(count_state(board.cells(), CellState::Opened), 1);
    let lost = board.cells().clone();
    for i in 0..9 {
        for j in 0..9 {
            assert_eq!(*board.open(i, j), lost[i][j].kind);
            assert_eq!(*board.flag(i, j), lost[i][j].state);
            assert_eq!(*board.open_save(i, j).unwrap(), lost[i][j].kind);
            assert_eq!(*board.flag_save(i, j).unwrap(), lost[i][j].state);
        }
    }
    assert_eq!(*board.cells(), lost);
    assert_eq!(*board.state(), BoardState::Finished(BoardResult::Lost));
}

#[test]
fn the_game_is_won_when_the_last_free_cell_is_opened() {
    for _ in 0..10 {
        let mut board = Board::new(9, 9, 20).unwrap();
        board.open(4, 4);
        let free: Vec<(usize, usize)> = (0..9)
            .flat_map(|i| (0..9).map(move |j| (i, j)))
            .filter(|&(i, j)| board.cells()[i][j].kind == CellKind::Free)
            .collect();
        assert_eq!(free.len(), 61);
        for (i, j) in free {
            let left = 81 - count_state(board.cells(), CellState::Opened);
            if left == 20 {
                assert_eq!(*board.state(), BoardState::Finished(BoardResult::Win));
            } else {
                assert_eq!(*board.state(), BoardState::Playing);
            }
            assert_eq!(*board.open(i, j), CellKind::Free);
        }
        assert_eq!(*board.state(), BoardState::Finished(BoardResult::Win));
        assert_eq!(count_state(board.cells(), CellState::Opened), 61);
        for row in board.cells() {
            for cell in row {
                assert_eq!(cell.state == CellState::Opened, cell.kind == CellKind::Free);
            }
        }
        let won = board.cells().clone();
        for i in 0..9 {
            for j in 0..9 {
                board.open(i, j);
                board.flag(i, j);
            }
        }
        assert_eq!(*board.cells(), won);
        assert_eq!(*board.state(), BoardState::Finished(BoardResult::Win));
    }
}

#[test]
fn a_chord_opens_the_closed_neighbors() {
    for _ in 0..20 {
        let mut board = Board::new(9, 9, 71).unwrap();
        board.open(4, 4);
        assert_eq!(*board.state(), BoardState::Playing);
        let around = board.nbr_indices(3, 3);
        for &(r, c) in &around {
            if board.cells()[r][c].kind == CellKind::Mine {
                assert_eq!(*board.flag(r, c), CellState::Flagged);
            }
        }
        let mines = board.count_adjacent_mines(3, 3);
        assert_eq!(board.count_surrounding_flags(3, 3), mines);
        let before = board.cells().clone();
        let closed: Vec<(usize, usize)> = around
            .iter()
            .copied()
            .filter(|&(r, c)| before[r][c].state == CellState::Closed)
            .collect();
        assert_eq!(closed.len(), 5 - mines);
        assert_eq!(*board.open(3, 3), CellKind::Free);
        for &(r, c) in &around {
            match before[r][c].state {
                CellState::Closed => assert_eq!(board.cells()[r][c].state, CellState::Opened),
                state => assert_eq!(board.cells()[r][c].state, state),
            }
        }
        if closed.is_empty() {
            assert_eq!(*board.cells(), before);
            assert_eq!(*board.state(), BoardState::Playing);
        } else {
            assert_eq!(*board.state(), BoardState::Finished(BoardResult::Win));
        }
    }
}

#[test]
fn a_chord_needs_as_many_flags_as_mines() {
    let mut board = Board::new(9, 9, 72).unwrap();
    board.initialize(4, 4);
    assert_eq!(*board.open(3, 3), CellKind::Free);
    assert_eq!(board.count_adjacent_mines(3, 3), 5);
    let mines = [(2, 2), (2, 3), (2, 4), (3, 2), (4, 2)];
    for (n, &(r, c)) in mines.iter().enumerate() {
        assert_eq!(board.count_surrounding_flags(3, 3), n);
        let before = board.cells().clone();
        assert_eq!(*board.open(3, 3), CellKind::Free);
        assert_eq!(*board.cells(), before);
        assert_eq!(*board.state(), BoardState::Playing);
        board.flag(r, c);
    }
    assert_eq!(board.count_surrounding_flags(3, 3), 5);
    assert_eq!(*board.open(3, 3), CellKind::Free);
    for &(r, c) in &[(3, 4), (4, 3), (4, 4)] {
        assert_eq!(board.cells()[r][c].state, CellState::Opened);
    }
    for &(r, c) in &mines {
        assert_eq!(board.cells()[r][c].state, CellState::Flagged);
    }
    // The chord comes to (4, 4), which has no mine around it, and the
    // reveal spreads from there over the rest of the safe zone.
    assert_eq!(count_state(board.cells(), CellState::Opened), 9);
    assert_eq!(*board.state(), BoardState::Finished(BoardResult::Win));
}

#[test]
fn a_chord_on_an_opened_cell_without_mines_around_does_nothing() {
    let mut board = Board::new(9, 9, 0).unwrap();
    board.initialize(0, 0);
    for &(r, c) in &[(0, 1), (1, 0), (1, 1)] {
        board.flag(r, c);
    }
    board.flag(0, 0);
    board.flag(0, 0);
    assert_eq!(*board.open(0, 0), CellKind::Free);
    assert_eq!(count_state(board.cells(), CellState::Opened), 1);
    for &(r, c) in &[(0, 1), (1, 0), (1, 1)] {
        board.flag(r, c);
    }
    let before = board.cells().clone();
    assert_eq!(*board.open(0, 0), CellKind::Free);
    assert_eq!(*board.cells(), before);
    assert_eq!(count_state(board.cells(), CellState::Closed), 80);
}

#[test]
fn a_chord_with_a_wrong_flag_stops_at_the_mine() {
    let mut board = Board::new(9, 9, 72).unwrap();
    board.initialize(4, 4);
    board.open(3, 3);
    // Five mines lie around (3, 3). Flag four of them and the free cell
    // (3, 4): the flags count five, and the mine at (3, 2) is unflagged.
    for &(r, c) in &[(2, 2), (2, 3), (2, 4), (4, 2), (3, 4)] {
        board.flag(r, c);
    }
    assert_eq!(board.count_surrounding_flags(3, 3), 5);
    assert_eq!(*board.open(3, 3), CellKind::Free);
    assert_eq!(*board.state(), BoardState::Finished(BoardResult::Lost));
    assert_eq!(board.cells()[3][2], Cell { kind: CellKind::Mine, state: CellState::Opened });
    // The closed neighbours that come after the mine stay closed.
    assert_eq!(board.cells()[4][3].state, CellState::Closed);
    assert_eq!(board.cells()[4][4].state, CellState::Closed);
    assert_eq!(board.cells()[3][4].state, CellState::Flagged);
    assert_eq!(count_state(board.cells(), CellState::Opened), 2);
}

#[test]
fn a_chord_reveals_from_each_neighbor() {
    // One free cell lies outside the safe zone. Where it touches the zone,
    // a chord on the zone's cell next to it opens it.
    for _ in 0..60 {
        let mut board = Board::new(9, 9, 71).unwrap();
        board.open(4, 4);
        let around = board.nbr_indices(3, 3);
        let outside_free: Vec<(usize, usize)> = around
            .iter()
            .copied()
            .filter(|&(r, c)| {
                board.cells()[r][c].kind == CellKind::Free
                    && board.cells()[r][c].state == CellState::Closed
            })
            .collect();
        if outside_free.is_empty() {
            continue;
        }
        let (r, c) = outside_free[0];
        for &(a, b) in &around {
            if board.cells()[a][b].kind == CellKind::Mine {
                board.flag(a, b);
            }
        }
        let expected = expected_after_reveal(board.cells(), r, c);
        board.open(3, 3);
        assert_eq!(*board.cells(), expected);
        assert_eq!(*board.state(), BoardState::Finished(BoardResult::Win));
    }
}

#[test]
fn flags_toggle() {
    let mut board = Board::new(9, 9, 10).unwrap();
    assert_eq!(*board.flag(2, 3), CellState::Flagged);
    assert_eq!(board.cells()[2][3].state, CellState::Flagged);
    assert_eq!(*board.state(), BoardState::Uninitialized);
    assert_eq!(count_kind(board.cells(), CellKind::Uninitialized), 81);
    assert_eq!(*board.flag(2, 3), CellState::Closed);
    assert_eq!(board.cells()[2][3].state, CellState::Closed);
    board.open(4, 4);
    assert_eq!(*board.flag(4, 4), CellState::Opened);
    assert_eq!(board.cells()[4][4].state, CellState::Opened);
    let mine = (0..81)
        .map(|n| (n / 9, n % 9))
        .find(|&(i, j)| board.cells()[i][j].kind == CellKind::Mine)
        .unwrap();
    let before = board.cells().clone();
    assert_eq!(*board.flag(mine.0, mine.1), CellState::Flagged);
    assert_eq!(*board.open(mine.0, mine.1), CellKind::Mine);
    assert_eq!(board.cells()[mine.0][mine.1].state, CellState::Flagged);
    assert_eq!(*board.state(), BoardState::Playing);
    assert_eq!(*board.flag(mine.0, mine.1), CellState::Closed);
    assert_eq!(*board.cells(), before);
}

#[test]
fn a_flagged_first_move_lays_the_mines_and_opens_nothing() {
    let mut board = Board::new(9, 9, 10).unwrap();
    board.flag(4, 4);
    assert_eq!(*board.open(4, 4), CellKind::Free);
    assert_eq!(*board.state(), BoardState::Playing);
    assert_eq!(count_state(board.cells(), CellState::Opened), 0);
    assert_eq!(count_kind(board.cells(), CellKind::Mine), 10);
    assert_eq!(board.cells()[4][4].state, CellState::Flagged);
}

#[test]
fn checked_moves_refuse_positions_off_the_board() {
    let mut board = Board::new(9, 12, 10).unwrap();
    assert!(matches!(board.open_save(9, 0), Err(Error::IndexOutOfBoundError)));
    assert!(matches!(board.open_save(0, 12), Err(Error::IndexOutOfBoundError)));
    assert!(matches!(board.open_save(9, 12), Err(Error::IndexOutOfBoundError)));
    assert!(matches!(board.open_save(usize::MAX, usize::MAX), Err(Error::IndexOutOfBoundError)));
    assert!(matches!(board.flag_save(9, 0), Err(Error::IndexOutOfBoundError)));
    assert!(matches!(board.flag_save(0, 12), Err(Error::IndexOutOfBoundError)));
    assert_eq!(*board.state(), BoardState::Uninitialized);
    assert_eq!(count_kind(board.cells(), CellKind::Uninitialized), 108);
    assert_eq!(count_state(board.cells(), CellState::Closed), 108);
    assert_eq!(*board.flag_save(8, 11).unwrap(), CellState::Flagged);
    assert_eq!(*board.flag_save(8, 11).unwrap(), CellState::Closed);
    assert_eq!(*board.open_save(8, 11).unwrap(), CellKind::Free);
    assert_eq!(board.cells()[8][11].state, CellState::Opened);
    let kind = *board.open_save(0, 9).unwrap();
    assert_eq!(kind, board.cells()[0][9].kind);
}

#[test]
fn counts_of_mines_are_right_and_stay() {
    let mut board = Board::new(16, 16, 60).unwrap();
    board.open(8, 8);
    let mut counts = vec![vec![0; 16]; 16];
    for i in 0..16 {
        for j in 0..16 {
            counts[i][j] = mines_around(board.cells(), i, j);
            assert_eq!(board.count_adjacent_mines(i, j), counts[i][j]);
            assert_eq!(board.count_adjacent_mines(i, j), counts[i][j]);
        }
    }
    for &(i, j) in &[(0, 0), (1, 5), (15, 15), (8, 8), (7, 7), (3, 12)] {
        board.flag(i, j);
        board.open(i, j);
        board.flag(15 - i, j);
        for r in 0..16 {
            for c in 0..16 {
                assert_eq!(board.count_adjacent_mines(r, c), counts[r][c]);
            }
        }
    }
}

#[test]
fn counts_of_flags() {
    let mut board = Board::new(9, 9, 10).unwrap();
    assert_eq!(board.count_surrounding_flags(0, 0), 0);
    board.flag(0, 1);
    board.flag(1, 1);
    board.flag(0, 0);
    board.flag(2, 2);
    assert_eq!(board.count_surrounding_flags(0, 0), 2);
    assert_eq!(board.count_surrounding_flags(1, 1), 3);
    assert_eq!(board.count_surrounding_flags(1, 2), 3);
    assert_eq!(board.count_surrounding_flags(8, 8), 0);
    board.flag(1, 1);
    assert_eq!(board.count_surrounding_flags(0, 0), 1);
}

fn play_through_the_trait<B: SweeperBoard<Cell>>() -> (BoardState, usize, usize) {
    let mut board = B::new(9, 9, 72).ok().unwrap();
    assert!(B::new(9, 9, 73).is_err());
    assert!(board.open_save(9, 9).is_err());
    assert!(board.flag_save(9, 9).is_err());
    assert_eq!(*board.flag(0, 0), CellState::Flagged);
    assert_eq!(*board.flag_save(0, 0).ok().unwrap(), CellState::Closed);
    assert_eq!(*board.open(4, 4), CellKind::Free);
    assert_eq!(*board.open_save(0, 0).ok().unwrap(), CellKind::Mine);
    let opened = count_state(board.cells(), CellState::Opened);
    (*board.state(), opened, board.cells().len())
}

#[test]
fn the_board_behind_its_trait() {
    let (state, opened, rows) = play_through_the_trait::<Board>();
    assert_eq!(state, BoardState::Finished(BoardResult::Win));
    assert_eq!(opened, 9);
    assert_eq!(rows, 9);
}

#[test]
fn presets() {
    assert_eq!(BoardConfig::easy(), BoardConfig { height: 9, width: 9, mine_count: 10 });
    assert_eq!(BoardConfig::medium(), BoardConfig { height: 16, width: 16, mine_count: 40 });
    assert_eq!(BoardConfig::hard(), BoardConfig { height: 24, width: 24, mine_count: 99 });
}

#[test]
fn a_sweeper_refuses_invalid_configurations() {
    assert!(Sweeper::new(BoardConfig::easy()).is_ok());
    assert!(Sweeper::new(BoardConfig::medium()).is_ok());
    assert!(Sweeper::new(BoardConfig::hard()).is_ok());
    let small = BoardConfig { height: 8, width: 9, mine_count: 10 };
    assert!(matches!(Sweeper::new(small), Err(Error::InvalidConfigError)));
    let narrow = BoardConfig { height: 9, width: 8, mine_count: 10 };
    assert!(matches!(Sweeper::new(narrow), Err(Error::InvalidConfigError)));
    let crowded = BoardConfig { height: 9, width: 9, mine_count: 73 };
    assert!(matches!(Sweeper::new(crowded), Err(Error::InvalidConfigError)));
}

#[test]
fn a_sweeper_refuses_a_move_on_a_flagged_cell() {
    let config = BoardConfig { height: 9, width: 10, mine_count: 80 };
    let mut sweeper = Sweeper::new(config).ok().unwrap();
    assert_eq!(sweeper.get_height(), 9);
    assert_eq!(sweeper.get_width(), 10);
    assert_eq!(sweeper.game_state(), SweeperState::Uninitialized);
    assert_eq!(sweeper.flag(4, 4), Some(CellState::Flagged));
    assert_eq!(sweeper.open(4, 4), None);
    assert_eq!(sweeper.game_state(), SweeperState::Uninitialized);
    assert_eq!(count_kind(sweeper.get_board().cells(), CellKind::Uninitialized), 90);
    assert_eq!(sweeper.flag(4, 4), Some(CellState::Closed));
    assert_eq!(sweeper.flag(0, 0), Some(CellState::Flagged));
    assert_eq!(sweeper.open(4, 4), Some(CellKind::Free));
    assert_eq!(sweeper.game_state(), SweeperState::Playing);
    let before = sweeper.get_board().cells().clone();
    // Opened cells that are not ready for a chord: the move is played and
    // changes nothing.
    assert_eq!(sweeper.open(4, 4), Some(CellKind::Free));
    assert_eq!(sweeper.open(3, 3), Some(CellKind::Free));
    assert_eq!(sweeper.flag(3, 3), None);
    assert_eq!(sweeper.open(0, 0), None);
    assert_eq!(*sweeper.get_board().cells(), before);
    assert_eq!(sweeper.game_state(), SweeperState::Playing);
    assert_eq!(sweeper.count_mine_in_nbrs(4, 4), 0);
    assert_eq!(sweeper.count_mine_in_nbrs(3, 3), mines_around(sweeper.get_board().cells(), 3, 3));
    let opened = count_state(sweeper.get_board().cells(), CellState::Opened);
    assert_eq!(opened, 9);
    assert_eq!(count_kind(sweeper.get_board().cells(), CellKind::Mine), 80);
}

#[test]
fn a_sweeper_plays_a_chord_on_an_opened_cell() {
    for _ in 0..20 {
        let config = BoardConfig { height: 9, width: 9, mine_count: 71 };
        let mut sweeper = Sweeper::new(config).ok().unwrap();
        assert_eq!(sweeper.open(4, 4), Some(CellKind::Free));
        let around = neighbors_of(9, 9, 3, 3);
        // Short of one flag the chord is not ready.
        let mines: Vec<(usize, usize)> = around
            .iter()
            .copied()
            .filter(|&(r, c)| sweeper.get_board().cells()[r][c].kind == CellKind::Mine)
            .collect();
        for &(r, c) in &mines[1..] {
            assert_eq!(sweeper.flag(r, c), Some(CellState::Flagged));
        }
        let short = sweeper.get_board().cells().clone();
        assert_eq!(sweeper.open(3, 3), Some(CellKind::Free));
        assert_eq!(*sweeper.get_board().cells(), short);
        assert_eq!(sweeper.flag(mines[0].0, mines[0].1), Some(CellState::Flagged));
        let before = sweeper.get_board().cells().clone();
        assert_eq!(sweeper.open(3, 3), Some(CellKind::Free));
        let mut closed = 0;
        for &(r, c) in &around {
            let now = sweeper.get_board().cells()[r][c].state;
            match before[r][c].state {
                CellState::Closed => {
                    closed += 1;
                    assert_eq!(now, CellState::Opened);
                }
                state => assert_eq!(now, state),
            }
        }
        assert_eq!(closed, 5 - mines.len());
        if closed == 0 {
            assert_eq!(*sweeper.get_board().cells(), before);
            assert_eq!(sweeper.game_state(), SweeperState::Playing);
        } else {
            assert_eq!(sweeper.game_state(), SweeperState::Win);
        }
    }
}

#[test]
fn a_sweeper_loses_by_a_chord_with_a_wrong_flag() {
    let mut seen = false;
    for _ in 0..500 {
        let config = BoardConfig { height: 9, width: 9, mine_count: 71 };
        let mut sweeper = Sweeper::new(config).ok().unwrap();
        assert_eq!(sweeper.open(4, 4), Some(CellKind::Free));
        // One free cell lies outside the opened zone. Where it touches the
        // zone, flag it in place of one of the mines around a cell next to it.
        let cells = sweeper.get_board().cells().clone();
        let free = (0..81)
            .map(|n| (n / 9, n % 9))
            .find(|&(i, j)| {
                cells[i][j].kind == CellKind::Free && cells[i][j].state == CellState::Closed
            })
            .unwrap();
        let next = neighbors_of(9, 9, free.0, free.1)
            .into_iter()
            .find(|&(r, c)| cells[r][c].state == CellState::Opened);
        let (i, j) = match next {
            Some(cell) => cell,
            None => continue,
        };
        seen = true;
        let mines: Vec<(usize, usize)> = neighbors_of(9, 9, i, j)
            .into_iter()
            .filter(|&(r, c)| cells[r][c].kind == CellKind::Mine)
            .collect();
        assert!(mines.len() >= 2);
        for &(r, c) in &mines[1..] {
            assert_eq!(sweeper.flag(r, c), Some(CellState::Flagged));
        }
        assert_eq!(sweeper.flag(free.0, free.1), Some(CellState::Flagged));
        assert_eq!(sweeper.open(i, j), Some(CellKind::Free));
        assert_eq!(sweeper.game_state(), SweeperState::Lost);
        let after = sweeper.get_board().cells();
        assert_eq!(after[mines[0].0][mines[0].1].state, CellState::Opened);
        assert_eq!(after[free.0][free.1].state, CellState::Flagged);
        for &(r, c) in &mines[1..] {
            assert_eq!(after[r][c].state, CellState::Flagged);
        }
        assert_eq!(count_state(after, CellState::Opened), 10);
        assert_eq!(sweeper.open(i, j), None);
    }
    assert!(seen);
}

#[test]
fn a_sweeper_is_lost_on_a_mine_and_then_refuses_every_move() {
    let config = BoardConfig { height: 9, width: 9, mine_count: 72 };
    let mut sweeper = Sweeper::new(config).ok().unwrap();
    assert_eq!(sweeper.flag(8, 8), Some(CellState::Flagged));
    assert_eq!(sweeper.open(4, 4), Some(CellKind::Free));
    assert_eq!(sweeper.game_state(), SweeperState::Win);
    assert_eq!(sweeper.open(0, 0), None);
    assert_eq!(sweeper.flag(8, 8), None);
    assert_eq!(sweeper.flag(0, 0), None);

    let config = BoardConfig { height: 9, width: 9, mine_count: 71 };
    let mut other = Sweeper::new(config).ok().unwrap();
    assert_eq!(other.open(4, 4), Some(CellKind::Free));
    assert_eq!(other.game_state(), SweeperState::Playing);
    let mine = (0..81)
        .map(|n| (n / 9, n % 9))
        .find(|&(i, j)| other.get_board().cells()[i][j].kind == CellKind::Mine)
        .unwrap();
    assert_eq!(other.open(mine.0, mine.1), Some(CellKind::Mine));
    assert_eq!(other.game_state(), SweeperState::Lost);
    let lost = other.get_board().cells().clone();
    for i in 0..9 {
        for j in 0..9 {
            assert_eq!(other.open(i, j), None);
            assert_eq!(other.flag(i, j), None);
        }
    }
    assert_eq!(*other.get_board().cells(), lost);
    assert_eq!(count_state(&lost, CellState::Opened), 10);
}
