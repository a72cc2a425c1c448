//! What follows from the rules: the facts about the game that a player and
//! a front end rely on, each proved from the definitions in
//! [`crate::rules`].

use vstd::prelude::*;
use vstd::set_lib::*;
use crate::board::{BoardResult, BoardState};
use crate::cell::Cell;
use crate::flood::{
    flood_step, flooded, hits_mine, is_closed, is_closed_mine, is_flood_path, is_reveal_source,
    lemma_flood_single_cell,
    lemma_flooded_cells, lemma_reached_not_mine, lemma_reaches_closed, lemma_reaches_extend,
    lemma_reaches_from, lemma_reaches_source, lemma_reveal_sources_no_mine,
    lemma_reveal_sources_single, lemma_spreads_same_kinds, opened_cell, reaches, reveal_sources,
    spreads,
};
use crate::geometry::{adjacent, lemma_neighbors_adjacent};
use crate::grid::{
    adjacent_mines, cell_at, height_of, lemma_adjacent_mines_same_kinds, lemma_grid_ext,
    lemma_position_sets_finite, lemma_with_cell, mines, neighbors_on, on_grid, same_kinds,
    undecided, unopened, width_of,
};
use crate::rules::{
    chord_ready, flag_result, initialized_from, lemma_flag_opened, lemma_revealed_nothing,
    no_mine_opened, open_result, open_targets, safe_zone_free, start_of_play, toggled_cell, valid,
    BoardView,
};

verus! {

/// The first move is safe: on the board that the first move at `(i, j)`
/// leaves, the cell at `(i, j)` and each of its neighbours holds no mine.
pub proof fn theorem_first_move_safe(before: BoardView, after: BoardView, i: int, j: int)
    requires
        valid(before),
        before.state is Uninitialized,
        on_grid(before.cells, (i, j)),
        initialized_from(before, start_of_play(before, after.cells), i, j),
        after == open_result(start_of_play(before, after.cells), i, j),
    ensures
        safe_zone_free(after.cells, i, j),
{
    let start = start_of_play(before, after.cells);
    theorem_mines_stay(start, i, j);
    assert forall|q: (int, int)| on_grid(after.cells, q) && adjacent((i, j), q) implies
        (#[trigger] cell_at(after.cells, q)).kind is Free
    by {
        assert(cell_at(start.cells, q).kind is Free);
    }
}

/// Once the mines are laid, there are exactly as many as the board was made
/// for, and no cell is left undecided.
pub proof fn theorem_mines_laid(v: BoardView)
    requires
        valid(v),
        !(v.state is Uninitialized),
    ensures
        mines(v.cells).len() == v.mine_count,
        undecided(v.cells) == Set::<(int, int)>::empty(),
{
    assert(undecided(v.cells) =~= Set::<(int, int)>::empty());
}

/// A move changes neither where the mines lie nor, therefore, the number of
/// mines around any cell: a count taken once stays right for the rest of the
/// game.
pub proof fn theorem_mines_stay(v: BoardView, i: int, j: int)
    requires
        v.state is Playing || v.state is Finished,
        crate::grid::rectangular(v.cells),
    ensures
        same_kinds(v.cells, open_result(v, i, j).cells),
        forall|r: int, c: int|
            adjacent_mines(open_result(v, i, j).cells, r, c) == adjacent_mines(v.cells, r, c),
{
    let after = open_result(v, i, j);
    if v.state is Playing {
        lemma_flooded_cells(v.cells, reveal_sources(v.cells, open_targets(v.cells, i, j)));
    }
    assert forall|r: int, c: int|
        adjacent_mines(after.cells, r, c) == adjacent_mines(v.cells, r, c)
    by {
        lemma_adjacent_mines_same_kinds(v.cells, after.cells, r, c);
    }
}

/// Toggling a flag changes neither where the mines lie nor the number of
/// mines around any cell.
pub proof fn theorem_flag_keeps_mines(v: BoardView, i: int, j: int)
    requires
        valid(v),
        on_grid(v.cells, (i, j)),
    ensures
        same_kinds(v.cells, flag_result(v, i, j).cells),
        forall|r: int, c: int|
            adjacent_mines(flag_result(v, i, j).cells, r, c) == adjacent_mines(v.cells, r, c),
{
    let after = flag_result(v, i, j);
    if !(v.state is Finished) {
        lemma_with_cell(v.cells, (i, j), toggled_cell(cell_at(v.cells, (i, j))));
        assert forall|p: (int, int)| on_grid(v.cells, p) implies
            (#[trigger] cell_at(after.cells, p)).kind == cell_at(v.cells, p).kind
        by {
            if p != (i, j) {
                assert(cell_at(after.cells, p) == cell_at(v.cells, p));
            }
        }
    }
    assert forall|r: int, c: int|
        adjacent_mines(after.cells, r, c) == adjacent_mines(v.cells, r, c)
    by {
        lemma_adjacent_mines_same_kinds(v.cells, after.cells, r, c);
    }
}

/// Opening a closed cell that holds a mine loses the game.
pub proof fn theorem_mine_loses(v: BoardView, i: int, j: int)
    requires
        valid(v),
        v.state is Playing,
        is_closed_mine(v.cells, (i, j)),
    ensures
        open_result(v, i, j).state == BoardState::Finished(BoardResult::Lost),
        cell_at(open_result(v, i, j).cells, (i, j)).state is Opened,
{
    let p = (i, j);
    lemma_reveal_sources_single(v.cells, p);
    lemma_flooded_cells(v.cells, set![p]);
    lemma_reaches_source(v.cells, set![p], p);
}

/// A finished game is over: no move and no flag changes a finished board,
/// so no cell of it is opened any more.
pub proof fn theorem_finished_is_final(v: BoardView, i: int, j: int)
    requires
        v.state is Finished,
    ensures
        open_result(v, i, j) == v,
        flag_result(v, i, j) == v,
{
}

/// A move only ever opens cells: a cell that is opened stays opened, a
/// flagged cell stays flagged, and the state of the game never goes back.
pub proof fn theorem_forward_only(v: BoardView, i: int, j: int)
    requires
        valid(v),
        !(v.state is Uninitialized),
    ensures
        forall|p: (int, int)|
            on_grid(v.cells, p) && !(cell_at(v.cells, p).state is Closed) ==> #[trigger] cell_at(
                open_result(v, i, j).cells,
                p,
            ) == cell_at(v.cells, p),
        !(open_result(v, i, j).state is Uninitialized),
        v.state is Finished ==> open_result(v, i, j).state == v.state,
        open_result(v, i, j).closed_cell_count <= v.closed_cell_count,
{
    if v.state is Playing {
        let sources = reveal_sources(v.cells, open_targets(v.cells, i, j));
        lemma_flooded_cells(v.cells, sources);
        crate::flood::lemma_flooded_unopened(v.cells, sources);
        assert forall|p: (int, int)|
            on_grid(v.cells, p) && !(cell_at(v.cells, p).state is Closed) implies
            #[trigger] cell_at(open_result(v, i, j).cells, p) == cell_at(v.cells, p)
        by {
            if reaches(v.cells, sources, p) {
                lemma_reaches_closed(v.cells, sources, p);
            }
        }
    }
}

/// The game is won exactly when no mine is opened and the unopened cells
/// are as many as the mines; and then every cell that holds no mine is
/// opened.
pub proof fn theorem_win(v: BoardView)
    requires
        valid(v),
        !(v.state is Uninitialized),
    ensures
        v.state == BoardState::Finished(BoardResult::Win) <==> (no_mine_opened(v.cells)
            && v.closed_cell_count == v.mine_count),
        v.state == BoardState::Finished(BoardResult::Win) ==> unopened(v.cells) == mines(v.cells),
        v.state == BoardState::Finished(BoardResult::Win) ==> forall|p: (int, int)|
            on_grid(v.cells, p) && (#[trigger] cell_at(v.cells, p)).kind is Free ==> cell_at(
                v.cells,
                p,
            ).state is Opened,
{
    if v.state == BoardState::Finished(BoardResult::Win) {
        lemma_position_sets_finite(v.cells);
        assert(mines(v.cells).subset_of(unopened(v.cells)));
        lemma_subset_equality(mines(v.cells), unopened(v.cells));
        assert forall|p: (int, int)|
            on_grid(v.cells, p) && (#[trigger] cell_at(v.cells, p)).kind is Free implies
            cell_at(v.cells, p).state is Opened
        by {
            if !(cell_at(v.cells, p).state is Opened) {
                assert(unopened(v.cells).contains(p));
                assert(mines(v.cells).contains(p));
            }
        }
    }
}

/// A move wins the game exactly when it opens no mine and leaves as many
/// cells unopened as there are mines.
pub proof fn theorem_move_wins(v: BoardView, i: int, j: int)
    requires
        valid(v),
        v.state is Playing,
    ensures
        open_result(v, i, j).state == BoardState::Finished(BoardResult::Win) <==> (!hits_mine(
            v.cells,
            open_targets(v.cells, i, j),
        ) && unopened(open_result(v, i, j).cells).len() == v.mine_count),
{
}

/// Flood fill. Opening a closed free cell with no mine around it opens
/// exactly the closed cells that a path of closed cells reaches from it, each
/// cell of the path but the last being free with no mine around it. So:
/// the cell itself is opened; every closed neighbour of an opened cell of
/// that kind is opened too, which takes in the whole region and its border
/// of numbered cells; every other cell that the move opens touches such a
/// cell, so nothing beyond the border is opened; no flagged cell and no mine
/// is opened; and every other cell stays as it was.
pub proof fn theorem_flood_fill(v: BoardView, i: int, j: int)
    requires
        valid(v),
        v.state is Playing,
        is_closed(v.cells, (i, j)),
        spreads(v.cells, (i, j)),
    ensures
        open_result(v, i, j).cells == flooded(v.cells, set![(i, j)]),
        !(open_result(v, i, j).state == BoardState::Finished(BoardResult::Lost)),
        cell_at(open_result(v, i, j).cells, (i, j)).state is Opened,
        forall|p: (int, int), q: (int, int)|
            #![trigger reaches(v.cells, set![(i, j)], p), adjacent(p, q)]
            reaches(v.cells, set![(i, j)], p) && spreads(v.cells, p) && adjacent(p, q) && is_closed(
                v.cells,
                q,
            ) ==> cell_at(open_result(v, i, j).cells, q).state is Opened,
        forall|p: (int, int)|
            on_grid(v.cells, p) && #[trigger] cell_at(open_result(v, i, j).cells, p) != cell_at(
                v.cells,
                p,
            ) ==> {
                &&& cell_at(v.cells, p).state is Closed
                &&& cell_at(open_result(v, i, j).cells, p) == opened_cell(cell_at(v.cells, p))
                &&& !(cell_at(v.cells, p).kind is Mine)
                &&& reaches(v.cells, set![(i, j)], p)
                &&& p == (i, j) || exists|q: (int, int)|
                    #[trigger] reaches(v.cells, set![(i, j)], q) && spreads(v.cells, q)
                        && adjacent(q, p)
            },
{
    let g = v.cells;
    let src = (i, j);
    let start = set![src];
    let after = open_result(v, i, j);
    lemma_reveal_sources_single(g, src);
    lemma_flooded_cells(g, start);
    lemma_reaches_source(g, start, src);
    assert forall|p: (int, int), q: (int, int)| #![trigger reaches(g, start, p), adjacent(p, q)]
        reaches(g, start, p) && spreads(g, p) && adjacent(p, q) && is_closed(g, q) implies
        cell_at(after.cells, q).state is Opened
    by {
        lemma_reaches_extend(g, start, p, q);
    }
    assert forall|p: (int, int)|
        on_grid(g, p) && #[trigger] cell_at(after.cells, p) != cell_at(g, p) implies {
        &&& cell_at(g, p).state is Closed
        &&& cell_at(after.cells, p) == opened_cell(cell_at(g, p))
        &&& !(cell_at(g, p).kind is Mine)
        &&& reaches(g, start, p)
        &&& p == src || exists|q: (int, int)|
            #[trigger] reaches(g, start, q) && spreads(g, q) && adjacent(q, p)
    } by {
        lemma_reaches_closed(g, start, p);
        lemma_reached_not_mine(g, start, p);
        lemma_reaches_from(g, start, p);
    }
}

/// Whether `path` runs through the region of `g` that a reveal would cover
/// if flags were all that stopped it: no cell of it is flagged, and each
/// cell but the last is free with no mine around it and touches the next.
/// The cells may be closed or opened.
pub open spec fn is_region_path(g: Seq<Seq<Cell>>, path: Seq<(int, int)>) -> bool {
    &&& path.len() > 0
    &&& forall|k: int|
        0 <= k < path.len() ==> {
            &&& on_grid(g, #[trigger] path[k])
            &&& !(cell_at(g, path[k]).state is Flagged)
        }
    &&& forall|k: int| 0 <= k < path.len() - 1 ==> #[trigger] flood_step(g, path, k)
}

/// Whether the reveal has been seen through from `a` to `b`: if `a` is
/// opened and free with no mine around it, its neighbour `b` is not closed.
pub open spec fn seen_through(g: Seq<Seq<Cell>>, a: (int, int), b: (int, int)) -> bool {
    cell_at(g, a).state is Opened && spreads(g, a) && adjacent(a, b) ==> !is_closed(g, b)
}

/// Whether every opened cell that is free with no mine around it has no
/// closed neighbour. That holds as long as no flag was taken off a cell next
/// to such a cell.
pub open spec fn floods_seen_through(g: Seq<Seq<Cell>>) -> bool {
    forall|a: (int, int), b: (int, int)| #[trigger] seen_through(g, a, b)
}

/// On a grid whose reveals were seen through, a path through the region that
/// starts and ends at closed cells runs over closed cells only.
proof fn lemma_region_path_closed(g: Seq<Seq<Cell>>, path: Seq<(int, int)>)
    requires
        floods_seen_through(g),
        is_region_path(g, path),
        is_closed(g, path.last()),
    ensures
        is_flood_path(g, path),
    decreases path.len(),
{
    let n = path.len() as int;
    if n > 1 {
        let shorter = path.drop_last();
        let q = shorter.last();
        let p = path.last();
        assert(flood_step(g, path, n - 2));
        assert(on_grid(g, path[n - 2]) && !(cell_at(g, path[n - 2]).state is Flagged));
        assert(seen_through(g, q, p));
        assert forall|k: int| 0 <= k < shorter.len() implies
            on_grid(g, #[trigger] shorter[k]) && !(cell_at(g, shorter[k]).state is Flagged)
        by {
            assert(on_grid(g, path[k]) && !(cell_at(g, path[k]).state is Flagged));
        }
        assert forall|k: int| 0 <= k < shorter.len() - 1 implies
            #[trigger] flood_step(g, shorter, k)
        by {
            assert(flood_step(g, path, k));
        }
        lemma_region_path_closed(g, shorter);
        assert forall|k: int| 0 <= k < path.len() implies #[trigger] is_closed(g, path[k]) by {
            if k < n - 1 {
                assert(is_closed(g, shorter[k]));
            }
        }
    }
}

/// Flood fill over the whole region. On a board whose earlier reveals were
/// seen through, opening a closed free cell with no mine around it opens
/// every closed cell that a path through the region reaches from it, whether
/// the path runs over closed or over opened cells: the whole region of cells
/// with no mine around them, and the numbered cells at its border.
pub proof fn theorem_flood_fill_region(v: BoardView, i: int, j: int, path: Seq<(int, int)>)
    requires
        valid(v),
        v.state is Playing,
        is_closed(v.cells, (i, j)),
        floods_seen_through(v.cells),
        is_region_path(v.cells, path),
        path[0] == (i, j),
        is_closed(v.cells, path.last()),
    ensures
        cell_at(open_result(v, i, j).cells, path.last()).state is Opened,
{
    let start = set![(i, j)];
    lemma_region_path_closed(v.cells, path);
    lemma_reveal_sources_single(v.cells, (i, j));
    lemma_flooded_cells(v.cells, start);
    assert(is_flood_path(v.cells, path) && start.contains(path[0]));
    assert(reaches(v.cells, start, path.last()));
    assert(on_grid(v.cells, path[path.len() - 1]));
}

/// Reveals are seen through from the start: on a board before its first
/// move, and on the board from which the first move is played, no cell is
/// opened.
pub proof fn theorem_seen_through_at_start(before: BoardView, after: Seq<Seq<Cell>>)
    requires
        valid(before),
        before.state is Uninitialized,
    ensures
        floods_seen_through(before.cells),
        floods_seen_through(start_of_play(before, after).cells),
{
    let g = before.cells;
    let laid = start_of_play(before, after).cells;
    assert forall|a: (int, int), b: (int, int)| #[trigger] seen_through(g, a, b) by {
        if spreads(g, a) {
            assert(!(cell_at(g, a).state is Opened));
        }
    }
    assert forall|a: (int, int), b: (int, int)| #[trigger] seen_through(laid, a, b) by {
        if spreads(laid, a) {
            assert(g[a.0].len() == width_of(g));
            assert(g[0].len() == width_of(g));
            assert(!(cell_at(g, a).state is Opened));
        }
    }
}

/// Reveals stay seen through: a move keeps them so, and so does a flag set
/// on a closed cell. Only a flag taken off can leave a closed cell next to
/// an opened cell with no mine around it.
pub proof fn theorem_seen_through_kept(v: BoardView, i: int, j: int)
    requires
        valid(v),
        on_grid(v.cells, (i, j)),
    ensures
        !(v.state is Uninitialized) && floods_seen_through(v.cells) ==> floods_seen_through(
            open_result(v, i, j).cells,
        ),
        floods_seen_through(v.cells) && !(cell_at(v.cells, (i, j)).state is Flagged)
            ==> floods_seen_through(flag_result(v, i, j).cells),
{
    let g = v.cells;
    if !(v.state is Uninitialized) && floods_seen_through(g) {
        let r = open_result(v, i, j).cells;
        theorem_mines_stay(v, i, j);
        if v.state is Playing {
            let sources = reveal_sources(g, open_targets(g, i, j));
            lemma_flooded_cells(g, sources);
            assert forall|a: (int, int), b: (int, int)| #[trigger] seen_through(r, a, b) by {
                if cell_at(r, a).state is Opened && spreads(r, a) && adjacent(a, b) && is_closed(
                    r,
                    b,
                ) {
                    lemma_spreads_same_kinds(g, r, a);
                    assert(seen_through(g, a, b));
                    assert(cell_at(r, b) == cell_at(g, b));
                    assert(reaches(g, sources, a));
                    lemma_reaches_extend(g, sources, a, b);
                }
            }
        }
    }
    if floods_seen_through(g) && !(cell_at(g, (i, j)).state is Flagged) {
        let r = flag_result(v, i, j).cells;
        theorem_flag_keeps_mines(v, i, j);
        if !(v.state is Finished) {
            lemma_with_cell(g, (i, j), toggled_cell(cell_at(g, (i, j))));
            assert forall|a: (int, int), b: (int, int)| #[trigger] seen_through(r, a, b) by {
                if cell_at(r, a).state is Opened && spreads(r, a) && adjacent(a, b) && is_closed(
                    r,
                    b,
                ) {
                    lemma_spreads_same_kinds(g, r, a);
                    assert(seen_through(g, a, b));
                    if a != (i, j) {
                        assert(cell_at(r, a) == cell_at(g, a));
                    }
                    if b != (i, j) {
                        assert(cell_at(r, b) == cell_at(g, b));
                    }
                }
            }
        }
    }
}

/// Opening a closed cell that is free but has a mine around it opens that
/// cell and no other.
pub proof fn theorem_numbered_cell_stops(v: BoardView, i: int, j: int)
    requires
        valid(v),
        v.state is Playing,
        is_closed(v.cells, (i, j)),
        cell_at(v.cells, (i, j)).kind is Free,
        adjacent_mines(v.cells, i, j) > 0,
    ensures
        open_result(v, i, j).cells == crate::grid::with_cell(
            v.cells,
            (i, j),
            opened_cell(cell_at(v.cells, (i, j))),
        ),
{
    lemma_reveal_sources_single(v.cells, (i, j));
    lemma_flood_single_cell(v.cells, (i, j));
}

/// Chord. Opening again an opened cell that has mines around it and as many
/// flags as mines reveals its closed neighbours one after the other, up to
/// the first that holds a mine: each closed neighbour that no closed mine
/// precedes among the neighbours is opened, the flagged cells stay flagged,
/// and the game is lost exactly if a closed neighbour holds a mine.
pub proof fn theorem_chord(v: BoardView, i: int, j: int)
    requires
        valid(v),
        v.state is Playing,
        on_grid(v.cells, (i, j)),
        cell_at(v.cells, (i, j)).state is Opened,
        chord_ready(v.cells, i, j),
    ensures
        open_result(v, i, j).cells == flooded(
            v.cells,
            reveal_sources(v.cells, neighbors_on(v.cells, i, j)),
        ),
        forall|k: int|
            #[trigger] is_reveal_source(v.cells, neighbors_on(v.cells, i, j), k) ==> cell_at(
                open_result(v, i, j).cells,
                neighbors_on(v.cells, i, j)[k],
            ).state is Opened,
        forall|q: (int, int)|
            on_grid(v.cells, q) && cell_at(v.cells, q).state is Flagged ==> (#[trigger] cell_at(
                open_result(v, i, j).cells,
                q,
            )).state is Flagged,
        open_result(v, i, j).state == BoardState::Finished(BoardResult::Lost) <==> hits_mine(
            v.cells,
            neighbors_on(v.cells, i, j),
        ),
{
    let g = v.cells;
    let list = neighbors_on(g, i, j);
    let sources = reveal_sources(g, list);
    lemma_flooded_cells(g, sources);
    assert forall|k: int| #[trigger] is_reveal_source(g, list, k) implies
        cell_at(open_result(v, i, j).cells, list[k]).state is Opened
    by {
        assert(sources.contains(list[k]));
        lemma_reaches_source(g, sources, list[k]);
    }
    assert forall|q: (int, int)| on_grid(g, q) && cell_at(g, q).state is Flagged implies
        (#[trigger] cell_at(open_result(v, i, j).cells, q)).state is Flagged
    by {
        if reaches(g, sources, q) {
            lemma_reaches_closed(g, sources, q);
        }
    }
}

/// Chord without a wrong flag. Where no closed neighbour of the opened cell
/// holds a mine, the chord opens every closed neighbour, and the game is not
/// lost by it.
pub proof fn theorem_chord_opens_neighbors(v: BoardView, i: int, j: int)
    requires
        valid(v),
        v.state is Playing,
        on_grid(v.cells, (i, j)),
        cell_at(v.cells, (i, j)).state is Opened,
        chord_ready(v.cells, i, j),
        !hits_mine(v.cells, neighbors_on(v.cells, i, j)),
    ensures
        forall|q: (int, int)|
            adjacent((i, j), q) && is_closed(v.cells, q) ==> (#[trigger] cell_at(
                open_result(v, i, j).cells,
                q,
            )).state is Opened,
        !(open_result(v, i, j).state == BoardState::Finished(BoardResult::Lost)),
{
    let g = v.cells;
    let list = neighbors_on(g, i, j);
    let sources = reveal_sources(g, list);
    lemma_neighbors_adjacent(height_of(g), width_of(g), i, j);
    lemma_reveal_sources_no_mine(g, list);
    lemma_flooded_cells(g, sources);
    assert forall|q: (int, int)| adjacent((i, j), q) && is_closed(g, q) implies
        (#[trigger] cell_at(open_result(v, i, j).cells, q)).state is Opened
    by {
        assert(list.contains(q));
        lemma_reaches_source(g, sources, q);
    }
}

/// No chord. Opening again an opened cell that has no mine around it, or
/// not as many flags as mines, changes nothing; nor does opening a flagged
/// cell.
pub proof fn theorem_no_chord(v: BoardView, i: int, j: int)
    requires
        valid(v),
        v.state is Playing,
        on_grid(v.cells, (i, j)),
        cell_at(v.cells, (i, j)).state is Flagged || (cell_at(v.cells, (i, j)).state is Opened
            && !chord_ready(v.cells, i, j)),
    ensures
        open_result(v, i, j) == v,
{
    lemma_revealed_nothing(v, open_targets(v.cells, i, j));
}

/// Flags toggle. On a board that is not finished, a flag request turns a
/// closed cell into a flagged one and a flagged cell into a closed one, so
/// that two requests in a row leave the board as it was; an opened cell is
/// not changed by it.
pub proof fn theorem_flag_toggles(v: BoardView, i: int, j: int)
    requires
        valid(v),
        !(v.state is Finished),
        on_grid(v.cells, (i, j)),
    ensures
        cell_at(v.cells, (i, j)).state is Closed ==> cell_at(
            flag_result(v, i, j).cells,
            (i, j),
        ).state is Flagged,
        cell_at(v.cells, (i, j)).state is Flagged ==> cell_at(
            flag_result(v, i, j).cells,
            (i, j),
        ).state is Closed,
        cell_at(v.cells, (i, j)).state is Opened ==> flag_result(v, i, j) == v,
        flag_result(flag_result(v, i, j), i, j) == v,
{
    let p = (i, j);
    let once = flag_result(v, i, j);
    let twice = flag_result(once, i, j);
    lemma_with_cell(v.cells, p, toggled_cell(cell_at(v.cells, p)));
    lemma_with_cell(once.cells, p, toggled_cell(cell_at(once.cells, p)));
    if cell_at(v.cells, p).state is Opened {
        lemma_flag_opened(v, i, j);
    }
    assert forall|q: (int, int)| on_grid(twice.cells, q) implies
        #[trigger] cell_at(twice.cells, q) == cell_at(v.cells, q)
    by {
        if q != p {
            assert(cell_at(once.cells, q) == cell_at(v.cells, q));
        }
    }
    lemma_grid_ext(twice.cells, v.cells);
}

} // verus!
