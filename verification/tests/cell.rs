use sweeprs::{BoardCell, Cell, CellKind, CellState};

#[test]
fn open_closed() {
    let mut cell = Cell { kind: CellKind::Free, state: CellState::Closed };
    cell.open();
    assert!(matches!(cell.state, CellState::Opened));
}

#[test]
fn open_flagged() {
    let mut cell = Cell { kind: CellKind::Free, state: CellState::Flagged };
    cell.open();
    assert!(matches!(cell.state, CellState::Flagged));
}

#[test]
fn open_opened() {
    let mut cell = Cell { kind: CellKind::Free, state: CellState::Opened };
    cell.open();
    assert!(matches!(cell.state, CellState::Opened));
}

#[test]
fn flag_closed() {
    let mut cell = Cell { kind: CellKind::Free, state: CellState::Closed };
    cell.flag();
    assert!(matches!(cell.state, CellState::Flagged));
}

#[test]
fn flag_flagged() {
    let mut cell = Cell { kind: CellKind::Free, state: CellState::Flagged };
    cell.flag();
    assert!(matches!(cell.state, CellState::Closed));
}

#[test]
fn flag_opened() {
    let mut cell = Cell { kind: CellKind::Free, state: CellState::Opened };
    cell.flag();
    assert!(matches!(cell.state, CellState::Opened));
}

#[test]
fn open_returns_the_kind_and_keeps_it() {
    for kind in [CellKind::Mine, CellKind::Free, CellKind::Uninitialized] {
        for state in [CellState::Closed, CellState::Flagged, CellState::Opened] {
            let mut cell = Cell { kind, state };
            assert_eq!(*cell.open(), kind);
            assert_eq!(cell.kind, kind);
        }
    }
}

#[test]
fn flag_returns_the_new_state_and_keeps_the_kind() {
    let mut cell = Cell { kind: CellKind::Mine, state: CellState::Closed };
    assert_eq!(*cell.flag(), CellState::Flagged);
    assert_eq!(*cell.flag(), CellState::Closed);
    assert_eq!(cell.kind, CellKind::Mine);
    let mut opened = Cell { kind: CellKind::Free, state: CellState::Opened };
    assert_eq!(*opened.flag(), CellState::Opened);
    assert_eq!(opened.kind, CellKind::Free);
}

#[test]
fn flag_twice_is_no_change() {
    for state in [CellState::Closed, CellState::Flagged, CellState::Opened] {
        let mut cell = Cell { kind: CellKind::Free, state };
        cell.flag();
        cell.flag();
        assert_eq!(cell.state, state);
    }
}
