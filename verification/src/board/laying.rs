//! Laying the mines: what the first move does to a board before it is
//! played.

use vstd::prelude::*;
use crate::board::{Board, BoardState};
use crate::cell::{Cell, CellKind};
use crate::geometry::{
    adjacent, as_positions, lemma_neighbors_adjacent, lemma_window_contains, neighbors, on_board,
    window,
};
use crate::grid::{
    all_positions, cell_at, cell_holding, height_of, lemma_all_positions_len,
    lemma_position_sets_finite, lemma_set_kind, lemma_with_cell, mines, on_grid, rectangular,
    same_states, undecided, unopened, width_of, with_cell,
};
use crate::random::random_index;
use crate::rules::{initialized_from, safe_zone_free, well_shaped, BoardView};

verus! {

/// What holds while the mines are being laid for a first move at `centre`:
/// the safe zone is free, `placed` mines lie on the grid, and enough
/// undecided cells are left for the mines still to lay.
spec fn laying(v: BoardView, centre: (int, int), placed: int) -> bool {
    &&& well_shaped(v)
    &&& v.state is Uninitialized
    &&& on_grid(v.cells, centre)
    &&& safe_zone_free(v.cells, centre.0, centre.1)
    &&& mines(v.cells).len() == placed
    &&& 0 <= placed <= v.mine_count
    &&& undecided(v.cells).len() + placed >= v.mine_count
}

/// Whether `after` differs from `before` at most in what its cells hold.
spec fn only_kinds_changed(before: BoardView, after: BoardView) -> bool {
    &&& after.mine_count == before.mine_count
    &&& after.closed_cell_count == before.closed_cell_count
    &&& after.state == before.state
    &&& same_states(before.cells, after.cells)
}

/// Whether every decided cell of the grid is free and lies in the window
/// around `centre`.
spec fn decided_in_zone(g: Seq<Seq<Cell>>, centre: (int, int)) -> bool {
    forall|p: (int, int)|
        on_grid(g, p) ==> {
            ||| (#[trigger] cell_at(g, p)).kind is Uninitialized
            ||| cell_at(g, p).kind is Free && window(centre.0, centre.1).contains(p)
        }
}

/// Whether every cell that comes before `(row, col)`, row by row, is
/// decided.
spec fn decided_before(g: Seq<Seq<Cell>>, row: int, col: int) -> bool {
    forall|p: (int, int)|
        on_grid(g, p) && (p.0 < row || (p.0 == row && p.1 < col)) ==> !((#[trigger] cell_at(
            g,
            p,
        )).kind is Uninitialized)
}

/// The board `v` with the cell at `p` holding `kind`.
spec fn with_kind_at(v: BoardView, p: (int, int), kind: CellKind) -> BoardView {
    BoardView {
        cells: with_cell(v.cells, p, cell_holding(cell_at(v.cells, p), kind)),
        mine_count: v.mine_count,
        state: v.state,
        closed_cell_count: v.closed_cell_count,
    }
}

/// A grid on which only cells of the window around `centre` are decided has
/// all but nine cells, or more, undecided.
proof fn lemma_safe_zone_leaves_room(g: Seq<Seq<Cell>>, centre: (int, int))
    requires
        rectangular(g),
        decided_in_zone(g, centre),
    ensures
        undecided(g).len() + 9 >= height_of(g) * width_of(g),
{
    let all = all_positions(height_of(g), width_of(g));
    let zone = window(centre.0, centre.1).to_set();
    lemma_all_positions_len(height_of(g), width_of(g));
    lemma_position_sets_finite(g);
    window(centre.0, centre.1).lemma_cardinality_of_set();
    vstd::seq_lib::seq_to_set_is_finite(window(centre.0, centre.1));
    assert(all.subset_of(undecided(g) + zone)) by {
        assert forall|p: (int, int)| all.contains(p) implies (undecided(g) + zone).contains(p) by {
            if !(cell_at(g, p).kind is Uninitialized) {
                assert(window(centre.0, centre.1).contains(p));
            }
        }
    }
    vstd::set_lib::lemma_len_subset(all, undecided(g) + zone);
    vstd::set_lib::lemma_len_union(undecided(g), zone);
}

/// Making a cell of the window free keeps every decided cell free and in
/// the window, and changes no state.
proof fn lemma_zone_step(v: BoardView, centre: (int, int), p: (int, int))
    requires
        well_shaped(v),
        decided_in_zone(v.cells, centre),
        on_grid(v.cells, p),
        window(centre.0, centre.1).contains(p),
    ensures
        decided_in_zone(with_kind_at(v, p, CellKind::Free).cells, centre),
        only_kinds_changed(v, with_kind_at(v, p, CellKind::Free)),
        cell_at(with_kind_at(v, p, CellKind::Free).cells, p).kind is Free,
        forall|q: (int, int)|
            on_grid(v.cells, q) && cell_at(v.cells, q).kind is Free ==> (#[trigger] cell_at(
                with_kind_at(v, p, CellKind::Free).cells,
                q,
            )).kind is Free,
{
    let next = with_kind_at(v, p, CellKind::Free);
    lemma_set_kind(v.cells, p, CellKind::Free);
    lemma_with_cell(v.cells, p, cell_holding(cell_at(v.cells, p), CellKind::Free));
    assert forall|q: (int, int)| on_grid(next.cells, q) implies {
        ||| (#[trigger] cell_at(next.cells, q)).kind is Uninitialized
        ||| cell_at(next.cells, q).kind is Free && window(centre.0, centre.1).contains(q)
    } by {
        if q != p {
            assert(cell_at(next.cells, q) == cell_at(v.cells, q));
        }
    }
    assert forall|q: (int, int)| on_grid(v.cells, q) && cell_at(v.cells, q).kind is Free implies
        (#[trigger] cell_at(next.cells, q)).kind is Free
    by {
        if q != p {
            assert(cell_at(next.cells, q) == cell_at(v.cells, q));
        }
    }
}

/// Deciding one undecided cell keeps what holds while the mines are laid:
/// a mine while mines are owed, a free cell once all mines lie.
proof fn lemma_laying_step(
    v: BoardView,
    centre: (int, int),
    placed: int,
    p: (int, int),
    kind: CellKind,
)
    requires
        laying(v, centre, placed),
        on_grid(v.cells, p),
        cell_at(v.cells, p).kind is Uninitialized,
        kind is Mine ==> placed < v.mine_count,
        kind is Free ==> placed == v.mine_count,
        kind is Mine || kind is Free,
    ensures
        laying(
            with_kind_at(v, p, kind),
            centre,
            if kind is Mine {
                placed + 1
            } else {
                placed
            },
        ),
        only_kinds_changed(v, with_kind_at(v, p, kind)),
        forall|q: (int, int)|
            q != p && on_grid(v.cells, q) ==> #[trigger] cell_at(with_kind_at(v, p, kind).cells, q)
                == cell_at(v.cells, q),
{
    let next = with_kind_at(v, p, kind);
    lemma_set_kind(v.cells, p, kind);
    lemma_with_cell(v.cells, p, cell_holding(cell_at(v.cells, p), kind));
    lemma_position_sets_finite(v.cells);
    assert(undecided(v.cells).contains(p));
    assert(!mines(v.cells).contains(p));
    assert forall|q: (int, int)| on_grid(next.cells, q) && adjacent(centre, q) implies
        (#[trigger] cell_at(next.cells, q)).kind is Free
    by {
        assert(cell_at(v.cells, q).kind is Free);
        assert(q != p);
    }
    assert(cell_at(next.cells, centre) == cell_at(v.cells, centre));
}

impl Board {
    /// Decides what the cell at `(i, j)` holds.
    fn set_kind(&mut self, i: usize, j: usize, kind: CellKind)
        requires
            well_shaped(old(self)@),
            i < height_of(old(self)@.cells),
            j < width_of(old(self)@.cells),
        ensures
            final(self)@ == with_kind_at(old(self)@, (i as int, j as int), kind),
            well_shaped(final(self)@),
    {
        proof {
            assert(self@.cells[i as int].len() == width_of(self@.cells));
            lemma_set_kind(self@.cells, (i as int, j as int), kind);
        }
        self.cells[i][j].kind = kind;
        assert(self@.cells =~~= with_kind_at(old(self)@, (i as int, j as int), kind).cells);
    }

    /// Lays a mine at `(i, j)` if what that cell holds is still undecided,
    /// and says whether it did.
    fn place_mine(&mut self, i: usize, j: usize) -> (placed: bool)
        requires
            well_shaped(old(self)@),
            i < height_of(old(self)@.cells),
            j < width_of(old(self)@.cells),
        ensures
            placed == (cell_at(old(self)@.cells, (i as int, j as int)).kind is Uninitialized),
            final(self)@ == if placed {
                with_kind_at(old(self)@, (i as int, j as int), CellKind::Mine)
            } else {
                old(self)@
            },
            well_shaped(final(self)@),
    {
        proof {
            assert(self@.cells[i as int].len() == width_of(self@.cells));
        }
        if let CellKind::Uninitialized = self.cells[i][j].kind {
            self.set_kind(i, j, CellKind::Mine);
            true
        } else {
            false
        }
    }

    /// Makes the cell at `(i, j)` and its neighbours free, on a board on
    /// which nothing is decided yet.
    fn free_safe_zone(&mut self, i: usize, j: usize)
        requires
            old(self).wf(),
            old(self)@.state is Uninitialized,
            i < height_of(old(self)@.cells),
            j < width_of(old(self)@.cells),
        ensures
            laying(final(self)@, (i as int, j as int), 0),
            only_kinds_changed(old(self)@, final(self)@),
    {
        let ghost before = self@;
        let ghost centre = (i as int, j as int);
        let ghost height = height_of(before.cells);
        let ghost width = width_of(before.cells);
        proof {
            lemma_neighbors_adjacent(height, width, i as int, j as int);
            lemma_window_contains(i as int, j as int, centre);
            lemma_zone_step(before, centre, centre);
        }
        self.set_kind(i, j, CellKind::Free);
        let nbrs = self.nbr_indices(i, j);
        let ghost list = as_positions(nbrs@);
        for k in 0..nbrs.len()
            invariant
                well_shaped(self@),
                only_kinds_changed(before, self@),
                decided_in_zone(self@.cells, centre),
                centre == (i as int, j as int),
                height == height_of(before.cells),
                width == width_of(before.cells),
                list == as_positions(nbrs@),
                list == neighbors(height, width, i as int, j as int),
                forall|q: (int, int)|
                    list.contains(q) <==> on_board(height, width, q) && adjacent(centre, q),
                on_grid(self@.cells, centre),
                cell_at(self@.cells, centre).kind is Free,
                forall|m: int|
                    0 <= m < k ==> (#[trigger] cell_at(self@.cells, list[m])).kind is Free,
        {
            let (i_nbr, j_nbr) = nbrs[k];
            let ghost now = self@;
            proof {
                assert(list.contains(list[k as int]));
                lemma_window_contains(i as int, j as int, list[k as int]);
                lemma_zone_step(now, centre, list[k as int]);
            }
            self.set_kind(i_nbr, j_nbr, CellKind::Free);
            proof {
                assert forall|m: int| 0 <= m < k + 1 implies
                    (#[trigger] cell_at(self@.cells, list[m])).kind is Free
                by {
                    assert(list.contains(list[m]));
                    if m < k {
                        assert(cell_at(now.cells, list[m]).kind is Free);
                    }
                }
            }
        }
        proof {
            lemma_safe_zone_leaves_room(self@.cells, centre);
            lemma_position_sets_finite(before.cells);
            lemma_all_positions_len(height, width);
            assert(mines(self@.cells) =~= Set::<(int, int)>::empty());
            assert forall|q: (int, int)| on_grid(self@.cells, q) && adjacent(centre, q) implies
                (#[trigger] cell_at(self@.cells, q)).kind is Free
            by {
                assert(list.contains(q));
                let m = choose|m: int| 0 <= m < list.len() && list[m] == q;
                assert(cell_at(self@.cells, list[m]).kind is Free);
            }
        }
    }

    /// Lays all the mines: on cells drawn at random that are still undecided
    /// and, should the draws run out, on the first undecided cells, row by
    /// row. Returns the number of mines laid.
    fn draw_mines(&mut self, Ghost(centre): Ghost<(int, int)>) -> (placed_mine: usize)
        requires
            laying(old(self)@, centre, 0),
        ensures
            placed_mine == final(self)@.mine_count,
            laying(final(self)@, centre, placed_mine as int),
            only_kinds_changed(old(self)@, final(self)@),
            decided_as(old(self)@.cells, final(self)@.cells, CellKind::Mine),
    {
        let height = self.height();
        let width = self.width();
        let mut placed_mine: usize = 0;
        let mut rng = rand::thread_rng();
        let mut draws_left: usize = usize::MAX;
        while placed_mine < self.mine_count && draws_left > 0
            invariant
                laying(self@, centre, placed_mine as int),
                only_kinds_changed(old(self)@, self@),
                decided_as(old(self)@.cells, self@.cells, CellKind::Mine),
                height == height_of(self@.cells),
                width == width_of(self@.cells),
                self.mine_count == self@.mine_count,
            decreases draws_left,
        {
            draws_left -= 1;
            let i = random_index(&mut rng, height);
            let j = random_index(&mut rng, width);
            let ghost now = self@;
            if self.place_mine(i, j) {
                proof {
                    let here = (i as int, j as int);
                    lemma_laying_step(now, centre, placed_mine as int, here, CellKind::Mine);
                    lemma_decided_step(old(self)@, now, here, CellKind::Mine);
                }
                placed_mine += 1;
            }
        }
        if placed_mine < self.mine_count {
            let ghost drawn = self@;
            placed_mine = self.lay_owed_mines(placed_mine, Ghost(centre));
            proof {
                lemma_decided_twice(old(self)@, drawn, self@, CellKind::Mine);
            }
        }
        placed_mine
    }

    /// Lays the mines that are still owed when `placed_mine` mines lie, on
    /// the first undecided cells, row by row. Returns the number of mines
    /// that lie then, which is the number owed.
    fn lay_owed_mines(
        &mut self,
        placed_mine: usize,
        Ghost(centre): Ghost<(int, int)>,
    ) -> (laid: usize)
        requires
            laying(old(self)@, centre, placed_mine as int),
        ensures
            laid == final(self)@.mine_count,
            laying(final(self)@, centre, laid as int),
            only_kinds_changed(old(self)@, final(self)@),
            decided_as(old(self)@.cells, final(self)@.cells, CellKind::Mine),
    {
        let height = self.height();
        let width = self.width();
        let mut placed_mine = placed_mine;
        for row in 0..height
            invariant
                laying(self@, centre, placed_mine as int),
                only_kinds_changed(old(self)@, self@),
                decided_as(old(self)@.cells, self@.cells, CellKind::Mine),
                height == height_of(self@.cells),
                width == width_of(self@.cells),
                self.mine_count == self@.mine_count,
                placed_mine < self.mine_count ==> decided_before(self@.cells, row as int, 0),
        {
            for col in 0..width
                invariant
                    laying(self@, centre, placed_mine as int),
                    only_kinds_changed(old(self)@, self@),
                    decided_as(old(self)@.cells, self@.cells, CellKind::Mine),
                    height == height_of(self@.cells),
                    width == width_of(self@.cells),
                    self.mine_count == self@.mine_count,
                    row < height,
                    placed_mine < self.mine_count ==> decided_before(
                        self@.cells,
                        row as int,
                        col as int,
                    ),
            {
                let ghost now = self@;
                let ghost here = (row as int, col as int);
                proof {
                    assert(now.cells[row as int].len() == width_of(now.cells));
                }
                if placed_mine < self.mine_count {
                    if self.place_mine(row, col) {
                        proof {
                            let sofar = placed_mine as int;
                            lemma_laying_step(now, centre, sofar, here, CellKind::Mine);
                            lemma_decided_step(old(self)@, now, here, CellKind::Mine);
                        }
                        placed_mine += 1;
                    }
                    proof {
                        lemma_decided_next(now.cells, self@.cells, row as int, col as int);
                    }
                }
            }
            proof {
                if placed_mine < self.mine_count {
                    lemma_decided_row(self@.cells, row as int);
                }
            }
        }
        proof {
            if placed_mine < self.mine_count {
                lemma_position_sets_finite(self@.cells);
                assert(undecided(self@.cells) =~= Set::<(int, int)>::empty());
            }
        }
        placed_mine
    }

    /// Makes every cell free that is still undecided, once all mines lie.
    fn settle_rest(&mut self, Ghost(centre): Ghost<(int, int)>)
        requires
            laying(old(self)@, centre, old(self)@.mine_count as int),
        ensures
            laying(final(self)@, centre, final(self)@.mine_count as int),
            only_kinds_changed(old(self)@, final(self)@),
            decided_as(old(self)@.cells, final(self)@.cells, CellKind::Free),
            undecided(final(self)@.cells) == Set::<(int, int)>::empty(),
    {
        let height = self.height();
        let width = self.width();
        for row in 0..height
            invariant
                laying(self@, centre, self@.mine_count as int),
                only_kinds_changed(old(self)@, self@),
                decided_as(old(self)@.cells, self@.cells, CellKind::Free),
                height == height_of(self@.cells),
                width == width_of(self@.cells),
                decided_before(self@.cells, row as int, 0),
        {
            for col in 0..width
                invariant
                    laying(self@, centre, self@.mine_count as int),
                    only_kinds_changed(old(self)@, self@),
                    decided_as(old(self)@.cells, self@.cells, CellKind::Free),
                    height == height_of(self@.cells),
                    width == width_of(self@.cells),
                    row < height,
                    decided_before(self@.cells, row as int, col as int),
            {
                let ghost now = self@;
                let ghost here = (row as int, col as int);
                proof {
                    assert(now.cells[row as int].len() == width_of(now.cells));
                }
                if let CellKind::Uninitialized = self.cells[row][col].kind {
                    proof {
                        lemma_laying_step(
                            now,
                            centre,
                            now.mine_count as int,
                            here,
                            CellKind::Free,
                        );
                        lemma_decided_step(old(self)@, now, here, CellKind::Free);
                    }
                    self.set_kind(row, col, CellKind::Free);
                }
                proof {
                    lemma_decided_next(now.cells, self@.cells, row as int, col as int);
                }
            }
            proof {
                lemma_decided_row(self@.cells, row as int);
            }
        }
        proof {
            lemma_position_sets_finite(self@.cells);
            assert(undecided(self@.cells) =~= Set::<(int, int)>::empty());
        }
    }

    /// Lays the mines for a first move at `(i, j)`.
    ///
    /// The cell at `(i, j)` and its neighbours are made free. Then cells are
    /// drawn at random, and each drawn cell that is still undecided gets a
    /// mine, until all mines lie. At last every cell left undecided is made
    /// free, and the game goes on.
    ///
    /// The number of draws is bounded, so that the laying ends whatever is
    /// drawn: should the draws run out, the undecided cells get the mines
    /// still owed, row by row, before the rest is made free.
    pub fn initialize(&mut self, i: usize, j: usize)
        requires
            old(self).wf(),
            old(self)@.state is Uninitialized,
            i < height_of(old(self)@.cells),
            j < width_of(old(self)@.cells),
        ensures
            initialized_from(old(self)@, final(self)@, i as int, j as int),
            final(self).wf(),
    {
        let ghost before = self@;
        let ghost centre = (i as int, j as int);
        self.free_safe_zone(i, j);
        let ghost zoned = self@;
        self.draw_mines(Ghost(centre));
        let ghost drawn = self@;
        self.settle_rest(Ghost(centre));
        let ghost laid = self@;
        self.state = BoardState::Playing;
        proof {
            assert forall|p: (int, int)| on_grid(before.cells, p) implies
                (#[trigger] cell_at(laid.cells, p)).state == cell_at(before.cells, p).state
            by {
                assert(cell_at(zoned.cells, p).state == cell_at(before.cells, p).state);
                assert(cell_at(drawn.cells, p).state == cell_at(zoned.cells, p).state);
            }
            assert forall|p: (int, int)| on_grid(laid.cells, p) implies
                !((#[trigger] cell_at(laid.cells, p)).kind is Uninitialized)
            by {
                if cell_at(laid.cells, p).kind is Uninitialized {
                    assert(undecided(laid.cells).contains(p));
                }
            }
            lemma_position_sets_finite(before.cells);
            lemma_all_positions_len(height_of(before.cells), width_of(before.cells));
            assert(unopened(before.cells) =~= all_positions(
                height_of(before.cells),
                width_of(before.cells),
            ));
            assert(unopened(laid.cells) =~= unopened(before.cells));
        }
    }
}

/// Whether `after` is `before` with some of its undecided cells holding
/// `kind` now, and every other cell as it was.
spec fn decided_as(before: Seq<Seq<Cell>>, after: Seq<Seq<Cell>>, kind: CellKind) -> bool {
    &&& crate::grid::same_shape(before, after)
    &&& forall|p: (int, int)|
        on_grid(before, p) ==> {
            ||| (#[trigger] cell_at(after, p)) == cell_at(before, p)
            ||| cell_at(before, p).kind is Uninitialized && cell_at(after, p) == cell_holding(
                cell_at(before, p),
                kind,
            )
        }
}

/// Deciding one more undecided cell as `kind` keeps a board one on which
/// only undecided cells were decided as `kind`.
proof fn lemma_decided_step(before: BoardView, now: BoardView, p: (int, int), kind: CellKind)
    requires
        well_shaped(now),
        only_kinds_changed(before, now),
        decided_as(before.cells, now.cells, kind),
        on_grid(now.cells, p),
        cell_at(now.cells, p).kind is Uninitialized,
    ensures
        only_kinds_changed(before, with_kind_at(now, p, kind)),
        decided_as(before.cells, with_kind_at(now, p, kind).cells, kind),
{
    let next = with_kind_at(now, p, kind);
    lemma_set_kind(now.cells, p, kind);
    lemma_with_cell(now.cells, p, cell_holding(cell_at(now.cells, p), kind));
    assert forall|q: (int, int)| on_grid(before.cells, q) implies
        (#[trigger] cell_at(next.cells, q)).state == cell_at(before.cells, q).state
    by {
        assert(cell_at(next.cells, q).state == cell_at(now.cells, q).state);
    }
    assert forall|q: (int, int)| on_grid(before.cells, q) implies {
        ||| (#[trigger] cell_at(next.cells, q)) == cell_at(before.cells, q)
        ||| cell_at(before.cells, q).kind is Uninitialized && cell_at(next.cells, q)
            == cell_holding(cell_at(before.cells, q), kind)
    } by {
        if q != p {
            assert(cell_at(next.cells, q) == cell_at(now.cells, q));
        }
    }
}

/// Deciding undecided cells as `kind` twice over is deciding undecided cells
/// as `kind`.
proof fn lemma_decided_twice(first: BoardView, second: BoardView, third: BoardView, kind: CellKind)
    requires
        only_kinds_changed(first, second),
        only_kinds_changed(second, third),
        decided_as(first.cells, second.cells, kind),
        decided_as(second.cells, third.cells, kind),
    ensures
        only_kinds_changed(first, third),
        decided_as(first.cells, third.cells, kind),
{
    assert forall|p: (int, int)| on_grid(first.cells, p) implies
        (#[trigger] cell_at(third.cells, p)).state == cell_at(first.cells, p).state
    by {
        assert(cell_at(second.cells, p).state == cell_at(first.cells, p).state);
    }
    assert forall|p: (int, int)| on_grid(first.cells, p) implies {
        ||| (#[trigger] cell_at(third.cells, p)) == cell_at(first.cells, p)
        ||| cell_at(first.cells, p).kind is Uninitialized && cell_at(third.cells, p)
            == cell_holding(cell_at(first.cells, p), kind)
    } by {
        let one = cell_at(first.cells, p);
        let two = cell_at(second.cells, p);
        assert(two == one || (one.kind is Uninitialized && two == cell_holding(one, kind)));
    }
}

/// Where every cell before `(row, col)` is decided and the cell at
/// `(row, col)` is decided by now, with no other cell changed, every cell
/// before the next position of the row is decided.
proof fn lemma_decided_next(before: Seq<Seq<Cell>>, now: Seq<Seq<Cell>>, row: int, col: int)
    requires
        decided_before(before, row, col),
        crate::grid::same_shape(before, now),
        !(cell_at(now, (row, col)).kind is Uninitialized),
        forall|p: (int, int)|
            on_grid(before, p) && p != (row, col) ==> #[trigger] cell_at(now, p) == cell_at(
                before,
                p,
            ),
    ensures
        decided_before(now, row, col + 1),
{
    assert forall|p: (int, int)|
        on_grid(now, p) && (p.0 < row || (p.0 == row && p.1 < col + 1)) implies
        !((#[trigger] cell_at(now, p)).kind is Uninitialized)
    by {
        if p != (row, col) {
            assert(cell_at(now, p) == cell_at(before, p));
        }
    }
}

/// Where every cell of a row and before it is decided, every cell before
/// the next row is.
proof fn lemma_decided_row(g: Seq<Seq<Cell>>, row: int)
    requires
        decided_before(g, row, width_of(g)),
    ensures
        decided_before(g, row + 1, 0),
{
}

} // verus!
