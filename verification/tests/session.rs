use sweeprs::{
    Board, BoardResult, BoardState, CellKind, CellState, Command, Game, Glyph, Paint,
};

fn opened(game: &Game) -> usize {
    game.board()
        .cells()
        .iter()
        .flatten()
        .filter(|cell| cell.state == CellState::Opened)
        .count()
}

#[test]
fn a_game_starts_in_the_top_left_corner() {
    let game = Game::new(Board::new(9, 12, 10).unwrap());
    assert_eq!(game.cursor(), (0, 0));
    assert_eq!(*game.board().state(), BoardState::Uninitialized);
    assert_eq!(game.board().height(), 9);
    assert_eq!(game.board().width(), 12);
}

#[test]
fn the_cursor_stays_on_the_board() {
    let mut game = Game::new(Board::new(9, 12, 10).unwrap());
    assert!(game.step(Command::Up));
    assert_eq!(game.cursor(), (0, 0));
    assert!(game.step(Command::Left));
    assert_eq!(game.cursor(), (0, 0));
    assert!(game.step(Command::Down));
    assert_eq!(game.cursor(), (1, 0));
    assert!(game.step(Command::Right));
    assert_eq!(game.cursor(), (1, 1));
    for _ in 0..20 {
        assert!(game.step(Command::Down));
    }
    assert_eq!(game.cursor(), (8, 1));
    for _ in 0..20 {
        assert!(game.step(Command::Right));
    }
    assert_eq!(game.cursor(), (8, 11));
    assert!(game.step(Command::Up));
    assert!(game.step(Command::Left));
    assert_eq!(game.cursor(), (7, 10));
    assert!(game.step(Command::Ignore));
    assert_eq!(game.cursor(), (7, 10));
    assert_eq!(opened(&game), 0);
    assert_eq!(*game.board().state(), BoardState::Uninitialized);
}

#[test]
fn quitting_ends_the_game_and_changes_nothing() {
    let mut game = Game::new(Board::new(9, 9, 10).unwrap());
    game.step(Command::Down);
    game.step(Command::Flag);
    assert!(!game.step(Command::Quit));
    assert_eq!(game.cursor(), (1, 0));
    assert_eq!(game.board().cells()[1][0].state, CellState::Flagged);
    assert_eq!(*game.board().state(), BoardState::Uninitialized);
}

#[test]
fn commands_play_at_the_cursor() {
    let mut game = Game::new(Board::new(9, 9, 72).unwrap());
    for _ in 0..4 {
        game.step(Command::Down);
        game.step(Command::Right);
    }
    assert!(game.step(Command::Flag));
    assert_eq!(game.board().cells()[4][4].state, CellState::Flagged);
    assert!(game.step(Command::Open));
    assert_eq!(*game.board().state(), BoardState::Playing);
    assert_eq!(opened(&game), 0);
    assert!(game.step(Command::Flag));
    assert_eq!(game.board().cells()[4][4].state, CellState::Closed);
    assert!(!game.step(Command::Open));
    assert_eq!(*game.board().state(), BoardState::Finished(BoardResult::Win));
    assert_eq!(opened(&game), 9);
    assert_eq!(game.cursor(), (4, 4));
    assert!(!game.step(Command::Up));
    assert!(!game.step(Command::Open));
    assert!(!game.step(Command::Ignore));
    assert_eq!(game.cursor(), (3, 4));
    assert_eq!(opened(&game), 9);
}

#[test]
fn a_game_is_lost_on_a_mine() {
    let mut game = Game::new(Board::new(9, 9, 71).unwrap());
    for _ in 0..4 {
        game.step(Command::Down);
        game.step(Command::Right);
    }
    assert!(game.step(Command::Open));
    while game.board().cells()[game.cursor().0][game.cursor().1].kind != CellKind::Mine {
        if game.cursor().1 > 0 {
            game.step(Command::Left);
        } else {
            game.step(Command::Up);
        }
    }
    let at = game.cursor();
    assert!(!game.step(Command::Open));
    assert_eq!(*game.board().state(), BoardState::Finished(BoardResult::Lost));
    assert_eq!(game.board().cells()[at.0][at.1].state, CellState::Opened);
    assert_eq!(game.glyph(at.0, at.1), Glyph::Mine);
    assert_eq!(opened(&game), 10);
}

#[test]
fn glyphs_and_paints_while_the_game_goes_on() {
    let mut game = Game::new(Board::new(9, 9, 71).unwrap());
    assert_eq!(game.glyph(0, 0), Glyph::Closed);
    assert_eq!(game.paint(0, 0), Paint::Text);
    assert_eq!(game.paint(0, 1), Paint::Plain);
    game.step(Command::Flag);
    assert_eq!(game.glyph(0, 0), Glyph::Flagged);
    assert_eq!(game.paint(0, 0), Paint::Text);
    game.step(Command::Flag);
    for _ in 0..4 {
        game.step(Command::Down);
        game.step(Command::Right);
    }
    assert!(game.step(Command::Open));
    assert_eq!(game.glyph(4, 4), Glyph::Blank);
    assert_eq!(game.paint(4, 4), Paint::Ground);
    assert_eq!(game.paint(3, 3), Paint::Plain);
    let around = game.board().count_adjacent_mines(3, 3);
    assert!(around == 4 || around == 5);
    assert_eq!(game.glyph(3, 3), Glyph::Number(around));
    assert_eq!(game.glyph(4, 3), Glyph::Number(game.board().count_adjacent_mines(4, 3)));
    assert_eq!(game.glyph(0, 0), Glyph::Closed);
    game.step(Command::Up);
    assert_eq!(game.paint(4, 4), Paint::Plain);
    assert_eq!(game.paint(3, 4), Paint::Text);
}

#[test]
fn paints_of_a_finished_game_show_the_mines() {
    let mut game = Game::new(Board::new(9, 9, 72).unwrap());
    for _ in 0..4 {
        game.step(Command::Down);
        game.step(Command::Right);
    }
    assert!(!game.step(Command::Open));
    for i in 0..9 {
        for j in 0..9 {
            let inside = (3..=5).contains(&i) && (3..=5).contains(&j);
            if inside {
                assert_eq!(game.paint(i, j), Paint::Plain);
                assert_ne!(game.glyph(i, j), Glyph::Closed);
            } else {
                assert_eq!(game.paint(i, j), Paint::Text);
                assert_eq!(game.glyph(i, j), Glyph::Closed);
            }
        }
    }
    assert_eq!(game.glyph(4, 4), Glyph::Blank);
    assert_eq!(game.glyph(3, 3), Glyph::Number(5));
    assert_eq!(game.glyph(3, 4), Glyph::Number(3));
}
