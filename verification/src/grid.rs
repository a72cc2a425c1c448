//! The grid of cells as a mathematical value: a sequence of rows, each a
//! sequence of cells, with the sets and counts that the rules of the game
//! speak of.

use vstd::prelude::*;
use vstd::set_lib::*;
use crate::cell::{Cell, CellKind};
use crate::geometry::{adjacent, lemma_neighbors_adjacent, neighbors, on_board};

verus! {

/// The number of rows of a grid.
pub open spec fn height_of(g: Seq<Seq<Cell>>) -> int {
    g.len() as int
}

/// The number of columns of a grid: the length of its first row.
pub open spec fn width_of(g: Seq<Seq<Cell>>) -> int {
    if g.len() > 0 {
        g[0].len() as int
    } else {
        0
    }
}

/// Whether all rows of a grid have the same length.
pub open spec fn rectangular(g: Seq<Seq<Cell>>) -> bool {
    forall|i: int| 0 <= i < g.len() ==> (#[trigger] g[i]).len() == width_of(g)
}

/// Whether `p` is a position of the grid.
pub open spec fn on_grid(g: Seq<Seq<Cell>>, p: (int, int)) -> bool {
    on_board(height_of(g), width_of(g), p)
}

/// The cell at position `p`.
pub open spec fn cell_at(g: Seq<Seq<Cell>>, p: (int, int)) -> Cell {
    g[p.0][p.1]
}

/// Whether two grids have the same number of rows and of columns.
pub open spec fn same_shape(a: Seq<Seq<Cell>>, b: Seq<Seq<Cell>>) -> bool {
    height_of(a) == height_of(b) && width_of(a) == width_of(b)
}

/// The grid with the cell at `p` replaced by `c`.
pub open spec fn with_cell(g: Seq<Seq<Cell>>, p: (int, int), c: Cell) -> Seq<Seq<Cell>> {
    g.update(p.0, g[p.0].update(p.1, c))
}

/// All positions of a board of `h` rows and `w` columns.
pub open spec fn all_positions(h: int, w: int) -> Set<(int, int)> {
    Set::new(|p: (int, int)| on_board(h, w, p))
}

/// The positions whose cell is not opened: closed or flagged.
pub open spec fn unopened(g: Seq<Seq<Cell>>) -> Set<(int, int)> {
    Set::new(|p: (int, int)| on_grid(g, p) && !(cell_at(g, p).state is Opened))
}

/// The positions that hold a mine.
pub open spec fn mines(g: Seq<Seq<Cell>>) -> Set<(int, int)> {
    Set::new(|p: (int, int)| on_grid(g, p) && cell_at(g, p).kind is Mine)
}

/// The positions whose content is not decided yet.
pub open spec fn undecided(g: Seq<Seq<Cell>>) -> Set<(int, int)> {
    Set::new(|p: (int, int)| on_grid(g, p) && cell_at(g, p).kind is Uninitialized)
}

/// The test "holds a mine" on the positions of a grid.
pub open spec fn holds_mine(g: Seq<Seq<Cell>>) -> spec_fn((int, int)) -> bool {
    |p: (int, int)| cell_at(g, p).kind is Mine
}

/// The test "is flagged" on the positions of a grid.
pub open spec fn holds_flag(g: Seq<Seq<Cell>>) -> spec_fn((int, int)) -> bool {
    |p: (int, int)| cell_at(g, p).state is Flagged
}

/// The neighbours of `(i, j)` on the grid, row by row.
pub open spec fn neighbors_on(g: Seq<Seq<Cell>>, i: int, j: int) -> Seq<(int, int)> {
    neighbors(height_of(g), width_of(g), i, j)
}

/// The number of neighbours of `(i, j)` that hold a mine.
pub open spec fn adjacent_mines(g: Seq<Seq<Cell>>, i: int, j: int) -> nat {
    neighbors_on(g, i, j).filter(holds_mine(g)).len()
}

/// The number of neighbours of `(i, j)` that are flagged.
pub open spec fn surrounding_flags(g: Seq<Seq<Cell>>, i: int, j: int) -> nat {
    neighbors_on(g, i, j).filter(holds_flag(g)).len()
}

/// Whether two grids have the same shape and hold the same content in every
/// cell, whatever the cells' states.
pub open spec fn same_kinds(a: Seq<Seq<Cell>>, b: Seq<Seq<Cell>>) -> bool {
    &&& same_shape(a, b)
    &&& forall|p: (int, int)|
        on_grid(a, p) ==> (#[trigger] cell_at(b, p)).kind == cell_at(a, p).kind
}

/// Whether two grids have the same shape and every cell is in the same state
/// in both, whatever the cells hold.
pub open spec fn same_states(a: Seq<Seq<Cell>>, b: Seq<Seq<Cell>>) -> bool {
    &&& same_shape(a, b)
    &&& forall|p: (int, int)|
        on_grid(a, p) ==> (#[trigger] cell_at(b, p)).state == cell_at(a, p).state
}

/// One row of a board: the positions `(i, 0)` to `(i, w - 1)`.
spec fn row_positions(i: int, w: int) -> Set<(int, int)> {
    Set::new(|p: (int, int)| p.0 == i && 0 <= p.1 < w)
}

proof fn lemma_row_positions_len(i: int, w: int)
    requires
        0 <= w,
    ensures
        row_positions(i, w).finite(),
        row_positions(i, w).len() == w,
    decreases w,
{
    if w == 0 {
        assert(row_positions(i, w) =~= Set::empty());
    } else {
        lemma_row_positions_len(i, w - 1);
        assert(row_positions(i, w) =~= row_positions(i, w - 1).insert((i, w - 1)));
    }
}

/// A board of `h` rows and `w` columns has `h * w` positions.
pub proof fn lemma_all_positions_len(h: int, w: int)
    requires
        0 <= h,
        0 <= w,
    ensures
        all_positions(h, w).finite(),
        all_positions(h, w).len() == h * w,
    decreases h,
{
    if h == 0 {
        assert(all_positions(h, w) =~= Set::empty());
        assert(h * w == 0);
    } else {
        lemma_all_positions_len(h - 1, w);
        lemma_row_positions_len(h - 1, w);
        let above = all_positions(h - 1, w);
        let last = row_positions(h - 1, w);
        assert(all_positions(h, w) =~= above + last);
        assert(above.disjoint(last));
        lemma_set_disjoint_lens(above, last);
        assert(h * w == (h - 1) * w + w) by (nonlinear_arith);
    }
}

/// The sets of positions that the rules count are finite, and none is
/// larger than the grid.
pub proof fn lemma_position_sets_finite(g: Seq<Seq<Cell>>)
    ensures
        unopened(g).finite(),
        mines(g).finite(),
        undecided(g).finite(),
        unopened(g).len() <= height_of(g) * width_of(g),
        mines(g).len() <= height_of(g) * width_of(g),
        undecided(g).len() <= height_of(g) * width_of(g),
{
    let all = all_positions(height_of(g), width_of(g));
    lemma_all_positions_len(height_of(g), width_of(g));
    lemma_len_subset(unopened(g), all);
    lemma_len_subset(mines(g), all);
    lemma_len_subset(undecided(g), all);
}

/// Replacing one cell of a rectangular grid changes that cell and nothing
/// else.
pub proof fn lemma_with_cell(g: Seq<Seq<Cell>>, p: (int, int), c: Cell)
    requires
        rectangular(g),
        on_grid(g, p),
    ensures
        rectangular(with_cell(g, p, c)),
        same_shape(g, with_cell(g, p, c)),
        cell_at(with_cell(g, p, c), p) == c,
        forall|q: (int, int)|
            q != p && on_grid(g, q) ==> #[trigger] cell_at(with_cell(g, p, c), q) == cell_at(g, q),
{
    let g2 = with_cell(g, p, c);
    assert(g[0].len() == width_of(g));
    assert(g[p.0].len() == width_of(g));
    assert forall|i: int| 0 <= i < g2.len() implies (#[trigger] g2[i]).len() == width_of(g2) by {
        assert(g[i].len() == width_of(g));
    }
    assert forall|q: (int, int)| q != p && on_grid(g, q) implies
        #[trigger] cell_at(g2, q) == cell_at(g, q)
    by {
        assert(g[q.0].len() == width_of(g));
    }
}

/// Two rectangular grids of the same shape with the same cell at every
/// position are the same grid.
pub proof fn lemma_grid_ext(a: Seq<Seq<Cell>>, b: Seq<Seq<Cell>>)
    requires
        rectangular(a),
        rectangular(b),
        same_shape(a, b),
        forall|p: (int, int)| on_grid(a, p) ==> #[trigger] cell_at(a, p) == cell_at(b, p),
    ensures
        a == b,
{
    assert forall|i: int| 0 <= i < a.len() implies #[trigger] a[i] =~= b[i] by {
        assert(a[i].len() == width_of(a));
        assert(b[i].len() == width_of(b));
        assert forall|j: int| 0 <= j < a[i].len() implies a[i][j] == b[i][j] by {
            assert(cell_at(a, (i, j)) == cell_at(b, (i, j)));
        }
    }
    assert(a =~= b);
}

/// Grids that hold the same in every cell have the same mines and the same
/// undecided cells.
pub proof fn lemma_same_kinds_sets(a: Seq<Seq<Cell>>, b: Seq<Seq<Cell>>)
    requires
        same_kinds(a, b),
    ensures
        mines(a) == mines(b),
        undecided(a) == undecided(b),
{
    assert(mines(a) =~= mines(b));
    assert(undecided(a) =~= undecided(b));
}

/// The cell `c` holding `kind`, in the state it was in.
pub open spec fn cell_holding(c: Cell, kind: CellKind) -> Cell {
    Cell { kind, state: c.state }
}

/// Deciding what one cell holds moves that position into or out of the sets
/// of mines and of undecided cells, and changes nothing else.
pub proof fn lemma_set_kind(g: Seq<Seq<Cell>>, p: (int, int), kind: CellKind)
    requires
        rectangular(g),
        on_grid(g, p),
    ensures
        rectangular(with_cell(g, p, cell_holding(cell_at(g, p), kind))),
        same_states(g, with_cell(g, p, cell_holding(cell_at(g, p), kind))),
        unopened(with_cell(g, p, cell_holding(cell_at(g, p), kind))) == unopened(g),
        mines(with_cell(g, p, cell_holding(cell_at(g, p), kind))) == if kind is Mine {
            mines(g).insert(p)
        } else {
            mines(g).remove(p)
        },
        undecided(with_cell(g, p, cell_holding(cell_at(g, p), kind))) == if kind is Uninitialized {
            undecided(g).insert(p)
        } else {
            undecided(g).remove(p)
        },
{
    let g2 = with_cell(g, p, cell_holding(cell_at(g, p), kind));
    lemma_with_cell(g, p, cell_holding(cell_at(g, p), kind));
    assert forall|q: (int, int)| on_grid(g, q) implies
        (#[trigger] cell_at(g2, q)).state == cell_at(g, q).state
    by {
        if q != p {
            assert(cell_at(g2, q) == cell_at(g, q));
        }
    }
    assert(unopened(g2) =~= unopened(g));
    assert(mines(g2) =~= if kind is Mine {
        mines(g).insert(p)
    } else {
        mines(g).remove(p)
    }) by {
        assert forall|q: (int, int)| q != p && on_grid(g, q) implies
            cell_at(g2, q) == cell_at(g, q)
        by {}
    }
    assert(undecided(g2) =~= if kind is Uninitialized {
        undecided(g).insert(p)
    } else {
        undecided(g).remove(p)
    }) by {
        assert forall|q: (int, int)| q != p && on_grid(g, q) implies
            cell_at(g2, q) == cell_at(g, q)
        by {}
    }
}

/// Two tests that agree on every element of a sequence keep the same
/// elements of it.
pub proof fn lemma_filter_agree<A>(s: Seq<A>, one: spec_fn(A) -> bool, other: spec_fn(A) -> bool)
    requires
        forall|k: int| 0 <= k < s.len() ==> one(#[trigger] s[k]) == other(s[k]),
    ensures
        s.filter(one) == s.filter(other),
    decreases s.len(),
{
    reveal(Seq::filter);
    if s.len() > 0 {
        lemma_filter_agree(s.drop_last(), one, other);
    }
}

/// The number of mines around a position depends only on what the cells
/// hold, not on their states.
pub proof fn lemma_adjacent_mines_same_kinds(a: Seq<Seq<Cell>>, b: Seq<Seq<Cell>>, i: int, j: int)
    requires
        same_kinds(a, b),
    ensures
        adjacent_mines(a, i, j) == adjacent_mines(b, i, j),
{
    let nbrs = neighbors_on(a, i, j);
    lemma_neighbors_adjacent(height_of(a), width_of(a), i, j);
    assert forall|k: int| 0 <= k < nbrs.len() implies
        holds_mine(a)(#[trigger] nbrs[k]) == holds_mine(b)(nbrs[k])
    by {
        assert(nbrs.contains(nbrs[k]));
        assert(cell_at(b, nbrs[k]).kind == cell_at(a, nbrs[k]).kind);
    }
    lemma_filter_agree(nbrs, holds_mine(a), holds_mine(b));
}

/// Around a position with no adjacent mine, no neighbour holds a mine.
pub proof fn lemma_no_mine_around(g: Seq<Seq<Cell>>, p: (int, int), q: (int, int))
    requires
        adjacent_mines(g, p.0, p.1) == 0,
        on_grid(g, q),
        adjacent(p, q),
    ensures
        !(cell_at(g, q).kind is Mine),
{
    let nbrs = neighbors_on(g, p.0, p.1);
    lemma_neighbors_adjacent(height_of(g), width_of(g), p.0, p.1);
    assert(nbrs.contains(q));
    let k = choose|k: int| 0 <= k < nbrs.len() && nbrs[k] == q;
    if cell_at(g, q).kind is Mine {
        nbrs.lemma_filter_contains(holds_mine(g), k);
        assert(nbrs.filter(holds_mine(g)).len() > 0);
    }
}

} // verus!
