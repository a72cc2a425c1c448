//! How a reveal spreads over the grid.
//!
//! Opening a closed cell that is free and has no mine around it opens its
//! closed neighbours too, and so on from each of them. What one reveal opens
//! is therefore the set of cells that a path of closed cells reaches from
//! where the reveal starts, each cell of the path but the last being free
//! with no mine around it. Cells that are flagged or opened already are
//! neither opened nor passed.
//!
//! This module defines that set, proves that a reveal which works through a
//! list of cells still to look at opens exactly that set, in whatever order
//! it takes them, and proves how one reveal after another composes.

use vstd::prelude::*;
use vstd::set_lib::*;
use crate::cell::{Cell, CellState};
use crate::geometry::{adjacent, lemma_neighbors_adjacent};
use crate::grid::{
    adjacent_mines, cell_at, height_of, lemma_adjacent_mines_same_kinds, lemma_grid_ext,
    lemma_no_mine_around, lemma_position_sets_finite, lemma_with_cell, neighbors_on, on_grid,
    rectangular, same_kinds, same_shape, unopened, width_of, with_cell,
};

verus! {

/// Whether `p` is a closed cell of the grid.
pub open spec fn is_closed(g: Seq<Seq<Cell>>, p: (int, int)) -> bool {
    on_grid(g, p) && cell_at(g, p).state is Closed
}

/// Whether `p` is a closed cell of the grid that holds a mine.
pub open spec fn is_closed_mine(g: Seq<Seq<Cell>>, p: (int, int)) -> bool {
    is_closed(g, p) && cell_at(g, p).kind is Mine
}

/// Whether a reveal that opens `p` goes on to its neighbours: `p` is free
/// and no neighbour of it holds a mine.
pub open spec fn spreads(g: Seq<Seq<Cell>>, p: (int, int)) -> bool {
    on_grid(g, p) && cell_at(g, p).kind is Free && adjacent_mines(g, p.0, p.1) == 0
}

/// Whether a reveal passes from the `k`-th cell of a path to the next one.
pub open spec fn flood_step(g: Seq<Seq<Cell>>, path: Seq<(int, int)>, k: int) -> bool {
    spreads(g, path[k]) && adjacent(path[k], path[k + 1])
}

/// Whether a reveal that starts at the first cell of `path` follows it to
/// its last cell: every cell is closed, and the reveal passes from each to
/// the next.
pub open spec fn is_flood_path(g: Seq<Seq<Cell>>, path: Seq<(int, int)>) -> bool {
    &&& path.len() > 0
    &&& forall|k: int| 0 <= k < path.len() ==> #[trigger] is_closed(g, path[k])
    &&& forall|k: int| 0 <= k < path.len() - 1 ==> #[trigger] flood_step(g, path, k)
}

/// Whether a reveal that starts at the cells of `sources` opens `p`.
pub open spec fn reaches(g: Seq<Seq<Cell>>, sources: Set<(int, int)>, p: (int, int)) -> bool {
    exists|path: Seq<(int, int)>|
        #[trigger] is_flood_path(g, path) && sources.contains(path[0]) && path.last() == p
}

/// The cell `c`, opened.
pub open spec fn opened_cell(c: Cell) -> Cell {
    Cell { kind: c.kind, state: CellState::Opened }
}

/// The grid after a reveal that starts at the cells of `sources`: what the
/// reveal reaches is opened, every other cell is as before.
pub open spec fn flooded(g: Seq<Seq<Cell>>, sources: Set<(int, int)>) -> Seq<Seq<Cell>> {
    Seq::new(
        g.len(),
        |i: int|
            Seq::new(
                g[i].len(),
                |j: int|
                    if reaches(g, sources, (i, j)) {
                        opened_cell(g[i][j])
                    } else {
                        g[i][j]
                    },
            ),
    )
}

/// Whether the `k`-th cell of `list` is opened when the closed cells of the
/// list are revealed in order until one of them turns out to be a mine: it
/// is closed, and no closed mine stands before it.
pub open spec fn is_reveal_source(g: Seq<Seq<Cell>>, list: Seq<(int, int)>, k: int) -> bool {
    &&& 0 <= k < list.len()
    &&& is_closed(g, list[k])
    &&& forall|m: int| 0 <= m < k ==> !#[trigger] is_closed_mine(g, list[m])
}

/// The cells at which the reveals start when the closed cells of `list` are
/// revealed in order until one of them turns out to be a mine.
pub open spec fn reveal_sources(g: Seq<Seq<Cell>>, list: Seq<(int, int)>) -> Set<(int, int)> {
    Set::new(|p: (int, int)| exists|k: int| #[trigger] is_reveal_source(g, list, k) && list[k] == p)
}

/// Whether a closed cell of `list` holds a mine.
pub open spec fn hits_mine(g: Seq<Seq<Cell>>, list: Seq<(int, int)>) -> bool {
    exists|k: int| 0 <= k < list.len() && #[trigger] is_closed_mine(g, list[k])
}

/// A reveal keeps the shape of the grid and what the cells hold, and opens
/// exactly what it reaches.
pub proof fn lemma_flooded_cells(g: Seq<Seq<Cell>>, sources: Set<(int, int)>)
    requires
        rectangular(g),
    ensures
        rectangular(flooded(g, sources)),
        same_shape(g, flooded(g, sources)),
        same_kinds(g, flooded(g, sources)),
        forall|p: (int, int)|
            on_grid(g, p) ==> #[trigger] cell_at(flooded(g, sources), p) == if reaches(
                g,
                sources,
                p,
            ) {
                opened_cell(cell_at(g, p))
            } else {
                cell_at(g, p)
            },
{
    let f = flooded(g, sources);
    assert forall|i: int| 0 <= i < f.len() implies (#[trigger] f[i]).len() == width_of(f) by {
        assert(g[i].len() == width_of(g));
        assert(g[0].len() == width_of(g));
    }
    assert forall|p: (int, int)| on_grid(g, p) implies
        #[trigger] cell_at(f, p)
            == if reaches(g, sources, p) { opened_cell(cell_at(g, p)) } else { cell_at(g, p) }
    by {
        assert(g[p.0].len() == width_of(g));
    }
}

/// What a reveal reaches is a closed cell.
pub proof fn lemma_reaches_closed(g: Seq<Seq<Cell>>, sources: Set<(int, int)>, p: (int, int))
    requires
        reaches(g, sources, p),
    ensures
        is_closed(g, p),
{
    let path = choose|path: Seq<(int, int)>|
        #[trigger] is_flood_path(g, path) && sources.contains(path[0]) && path.last() == p;
    assert(is_closed(g, path[path.len() - 1]));
}

/// A reveal reaches each closed cell at which it starts.
pub proof fn lemma_reaches_source(g: Seq<Seq<Cell>>, sources: Set<(int, int)>, s: (int, int))
    requires
        sources.contains(s),
        is_closed(g, s),
    ensures
        reaches(g, sources, s),
{
    let path = seq![s];
    assert(is_flood_path(g, path));
}

/// A reveal that reaches a cell through which it spreads reaches each closed
/// neighbour of that cell.
pub proof fn lemma_reaches_extend(
    g: Seq<Seq<Cell>>,
    sources: Set<(int, int)>,
    q: (int, int),
    r: (int, int),
)
    requires
        reaches(g, sources, q),
        spreads(g, q),
        adjacent(q, r),
        is_closed(g, r),
    ensures
        reaches(g, sources, r),
{
    let path = choose|path: Seq<(int, int)>|
        #[trigger] is_flood_path(g, path) && sources.contains(path[0]) && path.last() == q;
    let longer = path.push(r);
    assert forall|k: int| 0 <= k < longer.len() implies #[trigger] is_closed(g, longer[k]) by {
        if k < path.len() {
            assert(is_closed(g, path[k]));
        }
    }
    assert forall|k: int| 0 <= k < longer.len() - 1 implies #[trigger] flood_step(g, longer, k) by {
        if k < path.len() - 1 {
            assert(flood_step(g, path, k));
        }
    }
    assert(is_flood_path(g, longer));
}

/// What a reveal reaches it starts at, or comes to from a neighbour that it
/// reaches and through which it spreads.
pub proof fn lemma_reaches_from(g: Seq<Seq<Cell>>, sources: Set<(int, int)>, p: (int, int))
    requires
        reaches(g, sources, p),
    ensures
        sources.contains(p) || exists|q: (int, int)|
            #[trigger] reaches(g, sources, q) && spreads(g, q) && adjacent(q, p),
{
    let path = choose|path: Seq<(int, int)>|
        #[trigger] is_flood_path(g, path) && sources.contains(path[0]) && path.last() == p;
    if path.len() > 1 {
        let shorter = path.drop_last();
        let q = shorter.last();
        assert forall|k: int| 0 <= k < shorter.len() implies
            #[trigger] is_closed(g, shorter[k])
        by {
            assert(is_closed(g, path[k]));
        }
        assert forall|k: int| 0 <= k < shorter.len() - 1 implies
            #[trigger] flood_step(g, shorter, k)
        by {
            assert(flood_step(g, path, k));
        }
        assert(is_flood_path(g, shorter) && sources.contains(shorter[0]) && shorter.last() == q);
        assert(flood_step(g, path, path.len() - 2));
        assert(reaches(g, sources, q) && spreads(g, q) && adjacent(q, p));
    }
}

/// A reveal that starts at more cells reaches at least as much.
pub proof fn lemma_reaches_more_sources(
    g: Seq<Seq<Cell>>,
    fewer: Set<(int, int)>,
    more: Set<(int, int)>,
    p: (int, int),
)
    requires
        fewer.subset_of(more),
        reaches(g, fewer, p),
    ensures
        reaches(g, more, p),
{
    let path = choose|path: Seq<(int, int)>|
        #[trigger] is_flood_path(g, path) && fewer.contains(path[0]) && path.last() == p;
    assert(is_flood_path(g, path) && more.contains(path[0]));
}

/// A reveal never reaches a mine unless it starts at one.
pub proof fn lemma_reached_not_mine(g: Seq<Seq<Cell>>, sources: Set<(int, int)>, p: (int, int))
    requires
        reaches(g, sources, p),
        forall|s: (int, int)| sources.contains(s) ==> !#[trigger] is_closed_mine(g, s),
    ensures
        !(cell_at(g, p).kind is Mine),
{
    let path = choose|path: Seq<(int, int)>|
        #[trigger] is_flood_path(g, path) && sources.contains(path[0]) && path.last() == p;
    let n = path.len() as int;
    assert(is_closed(g, path[n - 1]));
    if n == 1 {
        assert(!is_closed_mine(g, path[0]));
    } else {
        assert(flood_step(g, path, n - 2));
        lemma_no_mine_around(g, path[n - 2], p);
    }
}

/// A path that a reveal follows on one grid it follows on another grid that
/// holds the same in every cell and on which the cells of the path are
/// closed too.
proof fn lemma_path_transfer(a: Seq<Seq<Cell>>, b: Seq<Seq<Cell>>, path: Seq<(int, int)>)
    requires
        is_flood_path(a, path),
        same_kinds(a, b),
        forall|k: int| 0 <= k < path.len() ==> #[trigger] is_closed(b, path[k]),
    ensures
        is_flood_path(b, path),
{
    assert forall|k: int| 0 <= k < path.len() - 1 implies #[trigger] flood_step(b, path, k) by {
        assert(flood_step(a, path, k));
        lemma_spreads_same_kinds(a, b, path[k]);
    }
}

/// Whether a reveal spreads through a cell depends only on what the cells
/// hold.
pub proof fn lemma_spreads_same_kinds(a: Seq<Seq<Cell>>, b: Seq<Seq<Cell>>, p: (int, int))
    requires
        same_kinds(a, b),
    ensures
        spreads(a, p) == spreads(b, p),
{
    lemma_adjacent_mines_same_kinds(a, b, p.0, p.1);
}

/// A reveal that starts at no closed cell changes nothing.
pub proof fn lemma_flood_nothing(g: Seq<Seq<Cell>>, sources: Set<(int, int)>)
    requires
        rectangular(g),
        forall|s: (int, int)| sources.contains(s) ==> !#[trigger] is_closed(g, s),
    ensures
        flooded(g, sources) == g,
{
    let f = flooded(g, sources);
    lemma_flooded_cells(g, sources);
    assert forall|p: (int, int)| on_grid(f, p) implies
        #[trigger] cell_at(f, p) == cell_at(g, p)
    by {
        if reaches(g, sources, p) {
            let path = choose|path: Seq<(int, int)>|
                #[trigger] is_flood_path(g, path) && sources.contains(path[0]) && path.last() == p;
            assert(is_closed(g, path[0]));
        }
    }
    lemma_grid_ext(f, g);
}

/// The end of a path from one of two sets of sources is reached from the
/// first set, or from the second set once the reveal from the first is done.
proof fn lemma_compose_path(
    g: Seq<Seq<Cell>>,
    first: Set<(int, int)>,
    second: Set<(int, int)>,
    path: Seq<(int, int)>,
)
    requires
        rectangular(g),
        is_flood_path(g, path),
        (first + second).contains(path[0]),
    ensures
        reaches(g, first, path.last()) || reaches(flooded(g, first), second, path.last()),
    decreases path.len(),
{
    let g1 = flooded(g, first);
    let p = path.last();
    lemma_flooded_cells(g, first);
    assert(is_closed(g, path[path.len() - 1]));
    if reaches(g, first, p) {
    } else {
        assert(is_closed(g1, p));
        if path.len() == 1 {
            assert(is_closed(g, path[0]));
            if first.contains(p) {
                lemma_reaches_source(g, first, p);
            } else {
                lemma_reaches_source(g1, second, p);
            }
        } else {
            let shorter = path.drop_last();
            let q = shorter.last();
            assert forall|k: int| 0 <= k < shorter.len() implies
                #[trigger] is_closed(g, shorter[k])
            by {
                assert(is_closed(g, path[k]));
            }
            assert forall|k: int| 0 <= k < shorter.len() - 1 implies
                #[trigger] flood_step(g, shorter, k)
            by {
                assert(flood_step(g, path, k));
            }
            lemma_compose_path(g, first, second, shorter);
            assert(flood_step(g, path, path.len() - 2));
            if reaches(g, first, q) {
                lemma_reaches_extend(g, first, q, p);
            } else {
                lemma_spreads_same_kinds(g, g1, q);
                lemma_reaches_extend(g1, second, q, p);
            }
        }
    }
}

/// One reveal after another opens what a single reveal from both sets of
/// sources opens.
pub proof fn lemma_flood_compose(g: Seq<Seq<Cell>>, first: Set<(int, int)>, second: Set<(int, int)>)
    requires
        rectangular(g),
    ensures
        flooded(flooded(g, first), second) == flooded(g, first + second),
{
    let g1 = flooded(g, first);
    let both = first + second;
    lemma_flooded_cells(g, first);
    lemma_flooded_cells(g1, second);
    lemma_flooded_cells(g, both);
    assert forall|p: (int, int)| on_grid(g, p) implies
        #[trigger] cell_at(flooded(g1, second), p) == cell_at(flooded(g, both), p)
    by {
        if reaches(g, first, p) {
            lemma_reaches_more_sources(g, first, both, p);
        }
        if reaches(g1, second, p) {
            let path = choose|path: Seq<(int, int)>|
                #[trigger] is_flood_path(g1, path) && second.contains(path[0]) && path.last() == p;
            assert forall|k: int| 0 <= k < path.len() implies #[trigger] is_closed(g, path[k]) by {
                assert(is_closed(g1, path[k]));
            }
            lemma_path_transfer(g1, g, path);
            assert(is_flood_path(g, path) && both.contains(path[0]));
        }
        if reaches(g, both, p) {
            let path = choose|path: Seq<(int, int)>|
                #[trigger] is_flood_path(g, path) && both.contains(path[0]) && path.last() == p;
            lemma_compose_path(g, first, second, path);
        }
    }
    lemma_grid_ext(flooded(g1, second), flooded(g, both));
}

/// Whether the reveal, having opened `a`, has seen to its neighbour `b`:
/// where `a` was closed and is opened, the reveal spreads through it, and
/// `b` is a neighbour of it that was closed, `b` is opened or waits on the
/// work list.
pub open spec fn flood_passed(
    g0: Seq<Seq<Cell>>,
    g: Seq<Seq<Cell>>,
    work: Seq<(int, int)>,
    a: (int, int),
    b: (int, int),
) -> bool {
    (is_closed(g0, a) && cell_at(g, a).state is Opened && spreads(g0, a) && adjacent(a, b)
        && is_closed(g0, b)) ==> (cell_at(g, b).state is Opened || work.contains(b))
}

/// What holds while a reveal that started on the grid `g0` at the cells of
/// `sources` works through its list `work`, the grid being `g` by now.
///
/// Every cell is as it was or was reached and is opened. The sources that
/// were closed are opened. Each closed neighbour of an opened cell through
/// which the reveal spreads is opened or waits on the list. And what waits
/// on the list is a cell that the reveal reaches, if it was closed.
pub open spec fn flooding(
    g0: Seq<Seq<Cell>>,
    g: Seq<Seq<Cell>>,
    sources: Set<(int, int)>,
    work: Seq<(int, int)>,
) -> bool {
    &&& rectangular(g0)
    &&& rectangular(g)
    &&& same_shape(g0, g)
    &&& forall|p: (int, int)|
        on_grid(g0, p) ==> (#[trigger] cell_at(g, p)) == cell_at(g0, p) || (reaches(g0, sources, p)
            && cell_at(g, p) == opened_cell(cell_at(g0, p)))
    &&& forall|s: (int, int)|
        sources.contains(s) && is_closed(g0, s) ==> (#[trigger] cell_at(g, s)).state is Opened
    &&& forall|a: (int, int), b: (int, int)| #[trigger] flood_passed(g0, g, work, a, b)
    &&& forall|k: int|
        0 <= k < work.len() ==> {
            &&& on_grid(g0, #[trigger] work[k])
            &&& is_closed(g0, work[k]) ==> reaches(g0, sources, work[k])
        }
}

/// The cells that a reveal puts on its list when it opens `p`: the
/// neighbours of `p` if the reveal spreads through `p`, none otherwise.
pub open spec fn next_to_flood(g: Seq<Seq<Cell>>, p: (int, int)) -> Seq<(int, int)> {
    if spreads(g, p) {
        neighbors_on(g, p.0, p.1)
    } else {
        Seq::empty()
    }
}

/// A reveal from one closed cell begins by opening that cell and listing
/// what comes next to it.
pub proof fn lemma_flooding_start(g0: Seq<Seq<Cell>>, src: (int, int))
    requires
        rectangular(g0),
        is_closed(g0, src),
    ensures
        flooding(
            g0,
            with_cell(g0, src, opened_cell(cell_at(g0, src))),
            set![src],
            next_to_flood(g0, src),
        ),
{
    let g = with_cell(g0, src, opened_cell(cell_at(g0, src)));
    let sources = set![src];
    let work = next_to_flood(g0, src);
    lemma_with_cell(g0, src, opened_cell(cell_at(g0, src)));
    lemma_reaches_source(g0, sources, src);
    lemma_neighbors_adjacent(height_of(g0), width_of(g0), src.0, src.1);
    assert forall|p: (int, int)| on_grid(g0, p) implies
        (#[trigger] cell_at(g, p)) == cell_at(g0, p)
            || (reaches(g0, sources, p) && cell_at(g, p) == opened_cell(cell_at(g0, p)))
    by {
        if p != src {
            assert(cell_at(g, p) == cell_at(g0, p));
        }
    }
    assert forall|a: (int, int), b: (int, int)| #[trigger] flood_passed(g0, g, work, a, b) by {
        if is_closed(g0, a) && cell_at(g, a).state is Opened && spreads(g0, a) && adjacent(a, b)
            && is_closed(g0, b) {
            if a != src {
                assert(cell_at(g, a) == cell_at(g0, a));
            }
            assert(work.contains(b));
        }
    }
    assert forall|k: int| 0 <= k < work.len() implies
        on_grid(g0, #[trigger] work[k])
            && (is_closed(g0, work[k]) ==> reaches(g0, sources, work[k]))
    by {
        assert(work.contains(work[k]));
        if is_closed(g0, work[k]) {
            lemma_reaches_extend(g0, sources, src, work[k]);
        }
    }
}

/// A cell on the list that is not closed any more is dropped from it.
pub proof fn lemma_flooding_skip(
    g0: Seq<Seq<Cell>>,
    g: Seq<Seq<Cell>>,
    sources: Set<(int, int)>,
    work: Seq<(int, int)>,
)
    requires
        flooding(g0, g, sources, work),
        work.len() > 0,
        !is_closed(g, work.last()),
    ensures
        flooding(g0, g, sources, work.drop_last()),
{
    let rest = work.drop_last();
    let w = work.last();
    assert forall|a: (int, int), b: (int, int)| #[trigger] flood_passed(g0, g, rest, a, b) by {
        assert(flood_passed(g0, g, work, a, b));
        if is_closed(g0, a) && cell_at(g, a).state is Opened && spreads(g0, a) && adjacent(a, b)
            && is_closed(g0, b) && !(cell_at(g, b).state is Opened) {
            let k = choose|k: int| 0 <= k < work.len() && work[k] == b;
            if k == work.len() - 1 {
                assert(cell_at(g, b) == cell_at(g0, b));
            } else {
                assert(rest[k] == b);
            }
        }
    }
    assert forall|k: int| 0 <= k < rest.len() implies
        on_grid(g0, #[trigger] rest[k])
            && (is_closed(g0, rest[k]) ==> reaches(g0, sources, rest[k]))
    by {
        assert(rest[k] == work[k]);
    }
}

/// A closed cell on the list is opened, and what comes next to it is put on
/// the list in its place.
pub proof fn lemma_flooding_open(
    g0: Seq<Seq<Cell>>,
    g: Seq<Seq<Cell>>,
    sources: Set<(int, int)>,
    work: Seq<(int, int)>,
)
    requires
        flooding(g0, g, sources, work),
        work.len() > 0,
        is_closed(g, work.last()),
    ensures
        is_closed(g0, work.last()),
        reaches(g0, sources, work.last()),
        flooding(
            g0,
            with_cell(g, work.last(), opened_cell(cell_at(g, work.last()))),
            sources,
            work.drop_last() + next_to_flood(g0, work.last()),
        ),
{
    let w = work.last();
    let rest = work.drop_last();
    let more = next_to_flood(g0, w);
    let next = rest + more;
    let g2 = with_cell(g, w, opened_cell(cell_at(g, w)));
    lemma_with_cell(g, w, opened_cell(cell_at(g, w)));
    lemma_neighbors_adjacent(height_of(g0), width_of(g0), w.0, w.1);
    assert(on_grid(g0, work[work.len() - 1]));
    assert(cell_at(g, w) == cell_at(g0, w));
    assert(reaches(g0, sources, w));
    assert forall|p: (int, int)| on_grid(g0, p) implies
        (#[trigger] cell_at(g2, p)) == cell_at(g0, p)
            || (reaches(g0, sources, p) && cell_at(g2, p) == opened_cell(cell_at(g0, p)))
    by {
        if p != w {
            assert(cell_at(g2, p) == cell_at(g, p));
        }
    }
    assert forall|s: (int, int)| sources.contains(s) && is_closed(g0, s) implies
        (#[trigger] cell_at(g2, s)).state is Opened
    by {
        if s != w {
            assert(cell_at(g2, s) == cell_at(g, s));
        }
    }
    assert forall|a: (int, int), b: (int, int)| #[trigger] flood_passed(g0, g2, next, a, b) by {
        if is_closed(g0, a) && cell_at(g2, a).state is Opened && spreads(g0, a) && adjacent(a, b)
            && is_closed(g0, b) {
            if a == w {
                assert(more.contains(b));
                let k = choose|k: int| 0 <= k < more.len() && more[k] == b;
                assert(next[rest.len() + k] == b);
            } else {
                assert(cell_at(g2, a) == cell_at(g, a));
                assert(flood_passed(g0, g, work, a, b));
                if b != w {
                    assert(cell_at(g2, b) == cell_at(g, b));
                    if !(cell_at(g, b).state is Opened) {
                        let k = choose|k: int| 0 <= k < work.len() && work[k] == b;
                        assert(next[k] == b);
                    }
                }
            }
        }
    }
    assert forall|k: int| 0 <= k < next.len() implies
        on_grid(g0, #[trigger] next[k])
            && (is_closed(g0, next[k]) ==> reaches(g0, sources, next[k]))
    by {
        if k < rest.len() {
            assert(next[k] == work[k]);
        } else {
            let q = more[k - rest.len()];
            assert(next[k] == q);
            assert(more.contains(q));
            if is_closed(g0, q) {
                lemma_reaches_extend(g0, sources, w, q);
            }
        }
    }
}

/// Once the list is empty, every cell at the end of a path from a source is
/// opened.
proof fn lemma_flooding_path(
    g0: Seq<Seq<Cell>>,
    g: Seq<Seq<Cell>>,
    sources: Set<(int, int)>,
    work: Seq<(int, int)>,
    path: Seq<(int, int)>,
)
    requires
        flooding(g0, g, sources, work),
        work.len() == 0,
        is_flood_path(g0, path),
        sources.contains(path[0]),
    ensures
        cell_at(g, path.last()).state is Opened,
    decreases path.len(),
{
    assert(is_closed(g0, path[0]));
    if path.len() > 1 {
        let shorter = path.drop_last();
        let q = shorter.last();
        let p = path.last();
        assert forall|k: int| 0 <= k < shorter.len() implies
            #[trigger] is_closed(g0, shorter[k])
        by {
            assert(is_closed(g0, path[k]));
        }
        assert forall|k: int| 0 <= k < shorter.len() - 1 implies
            #[trigger] flood_step(g0, shorter, k)
        by {
            assert(flood_step(g0, path, k));
        }
        lemma_flooding_path(g0, g, sources, work, shorter);
        assert(flood_step(g0, path, path.len() - 2));
        assert(is_closed(g0, path[path.len() - 2]));
        assert(is_closed(g0, path[path.len() - 1]));
        assert(flood_passed(g0, g, work, q, p));
    }
}

/// Once the list is empty, the reveal is done: the grid is the grid it
/// started on with everything opened that it reaches.
pub proof fn lemma_flooding_done(
    g0: Seq<Seq<Cell>>,
    g: Seq<Seq<Cell>>,
    sources: Set<(int, int)>,
    work: Seq<(int, int)>,
)
    requires
        flooding(g0, g, sources, work),
        work.len() == 0,
    ensures
        g == flooded(g0, sources),
{
    let f = flooded(g0, sources);
    lemma_flooded_cells(g0, sources);
    assert forall|p: (int, int)| on_grid(g, p) implies
        #[trigger] cell_at(g, p) == cell_at(f, p)
    by {
        if reaches(g0, sources, p) {
            let path = choose|path: Seq<(int, int)>|
                #[trigger] is_flood_path(g0, path) && sources.contains(path[0]) && path.last() == p;
            lemma_flooding_path(g0, g, sources, work, path);
            lemma_reaches_closed(g0, sources, p);
        }
    }
    lemma_grid_ext(g, f);
}

/// A reveal from a cell through which it does not spread opens that cell
/// and no other.
pub proof fn lemma_flood_single_cell(g: Seq<Seq<Cell>>, src: (int, int))
    requires
        rectangular(g),
        is_closed(g, src),
        !spreads(g, src),
    ensures
        flooded(g, set![src]) == with_cell(g, src, opened_cell(cell_at(g, src))),
{
    lemma_flooding_start(g, src);
    lemma_flooding_done(
        g,
        with_cell(g, src, opened_cell(cell_at(g, src))),
        set![src],
        next_to_flood(g, src),
    );
}

/// Opening one closed cell takes it out of the unopened cells and changes
/// nothing else.
pub proof fn lemma_open_cell(g: Seq<Seq<Cell>>, p: (int, int))
    requires
        rectangular(g),
        is_closed(g, p),
    ensures
        rectangular(with_cell(g, p, opened_cell(cell_at(g, p)))),
        same_kinds(g, with_cell(g, p, opened_cell(cell_at(g, p)))),
        unopened(with_cell(g, p, opened_cell(cell_at(g, p)))) == unopened(g).remove(p),
        unopened(with_cell(g, p, opened_cell(cell_at(g, p)))).len() == unopened(g).len() - 1,
{
    let g1 = with_cell(g, p, opened_cell(cell_at(g, p)));
    lemma_with_cell(g, p, opened_cell(cell_at(g, p)));
    lemma_position_sets_finite(g);
    assert forall|q: (int, int)| on_grid(g, q) implies
        (#[trigger] cell_at(g1, q)).kind == cell_at(g, q).kind
    by {
        if q != p {
            assert(cell_at(g1, q) == cell_at(g, q));
        }
    }
    assert(unopened(g1) =~= unopened(g).remove(p)) by {
        assert forall|q: (int, int)| q != p && on_grid(g, q) implies
            cell_at(g1, q) == cell_at(g, q)
        by {}
    }
    assert(unopened(g).contains(p));
}

/// A reveal opens cells and closes none: what is unopened afterwards was
/// unopened before.
pub proof fn lemma_flooded_unopened(g: Seq<Seq<Cell>>, sources: Set<(int, int)>)
    requires
        rectangular(g),
    ensures
        unopened(flooded(g, sources)).subset_of(unopened(g)),
        unopened(flooded(g, sources)).len() <= unopened(g).len(),
{
    lemma_flooded_cells(g, sources);
    lemma_position_sets_finite(g);
    assert(unopened(flooded(g, sources)).subset_of(unopened(g)));
    lemma_len_subset(unopened(flooded(g, sources)), unopened(g));
}

/// The reveals of a list cut after its `k`-th cell start where those of the
/// list cut before that cell start, and at that cell if it is closed and no
/// closed mine stands before it.
pub proof fn lemma_reveal_sources_step(g: Seq<Seq<Cell>>, list: Seq<(int, int)>, k: int)
    requires
        0 <= k < list.len(),
    ensures
        reveal_sources(g, list.take(k + 1)) == if is_closed(g, list[k]) && !hits_mine(
            g,
            list.take(k),
        ) {
            reveal_sources(g, list.take(k)).insert(list[k])
        } else {
            reveal_sources(g, list.take(k))
        },
        hits_mine(g, list.take(k + 1)) == (hits_mine(g, list.take(k)) || is_closed_mine(
            g,
            list[k],
        )),
{
    let before = list.take(k);
    let upto = list.take(k + 1);
    let s0 = reveal_sources(g, before);
    let s1 = reveal_sources(g, upto);
    let expected = if is_closed(g, list[k]) && !hits_mine(g, before) {
        s0.insert(list[k])
    } else {
        s0
    };
    assert(hits_mine(g, upto) == (hits_mine(g, before) || is_closed_mine(g, list[k]))) by {
        if hits_mine(g, before) {
            let m = choose|m: int| 0 <= m < before.len() && #[trigger] is_closed_mine(g, before[m]);
            assert(is_closed_mine(g, upto[m]));
        }
        if is_closed_mine(g, list[k]) {
            assert(is_closed_mine(g, upto[k]));
        }
        if hits_mine(g, upto) {
            let m = choose|m: int| 0 <= m < upto.len() && #[trigger] is_closed_mine(g, upto[m]);
            if m < k {
                assert(is_closed_mine(g, before[m]));
            }
        }
    }
    assert forall|p: (int, int)| s1.contains(p) <==> expected.contains(p) by {
        if s1.contains(p) {
            let m = choose|m: int| #[trigger] is_reveal_source(g, upto, m) && upto[m] == p;
            if m < k {
                assert forall|n: int| 0 <= n < m implies
                    !#[trigger] is_closed_mine(g, before[n])
                by {
                    assert(!is_closed_mine(g, upto[n]));
                }
                assert(is_reveal_source(g, before, m) && before[m] == p);
            } else {
                if hits_mine(g, before) {
                    let n = choose|n: int| 0 <= n < before.len() && #[trigger] is_closed_mine(
                        g,
                        before[n],
                    );
                    assert(is_closed_mine(g, upto[n]));
                }
            }
        }
        if expected.contains(p) {
            if s0.contains(p) {
                let m = choose|m: int| #[trigger] is_reveal_source(g, before, m) && before[m] == p;
                assert forall|n: int| 0 <= n < m implies !#[trigger] is_closed_mine(g, upto[n]) by {
                    assert(!is_closed_mine(g, before[n]));
                }
                assert(is_reveal_source(g, upto, m) && upto[m] == p);
            } else {
                assert forall|n: int| 0 <= n < k implies !#[trigger] is_closed_mine(g, upto[n]) by {
                    if is_closed_mine(g, upto[n]) {
                        assert(is_closed_mine(g, before[n]));
                    }
                }
                assert(is_reveal_source(g, upto, k) && upto[k] == p);
            }
        }
    }
    assert(s1 =~= expected);
}

/// Where no closed cell of a list holds a mine, the reveals start at every
/// closed cell of the list.
pub proof fn lemma_reveal_sources_no_mine(g: Seq<Seq<Cell>>, list: Seq<(int, int)>)
    requires
        !hits_mine(g, list),
    ensures
        forall|q: (int, int)|
            reveal_sources(g, list).contains(q) <==> list.contains(q) && is_closed(g, q),
{
    assert forall|q: (int, int)|
        reveal_sources(g, list).contains(q) <==> list.contains(q) && is_closed(g, q)
    by {
        if reveal_sources(g, list).contains(q) {
            let k = choose|k: int| #[trigger] is_reveal_source(g, list, k) && list[k] == q;
            assert(list[k] == q);
        }
        if list.contains(q) && is_closed(g, q) {
            let k = choose|k: int| 0 <= k < list.len() && list[k] == q;
            assert(is_reveal_source(g, list, k));
        }
    }
}

/// Where a closed cell of a list holds a mine, the reveals start at a first
/// such cell.
pub proof fn lemma_first_closed_mine(g: Seq<Seq<Cell>>, list: Seq<(int, int)>, k: int)
    requires
        0 <= k < list.len(),
        is_closed_mine(g, list[k]),
    ensures
        exists|m: int| #[trigger] is_reveal_source(g, list, m) && is_closed_mine(g, list[m]),
    decreases k,
{
    if forall|n: int| 0 <= n < k ==> !#[trigger] is_closed_mine(g, list[n]) {
        assert(is_reveal_source(g, list, k));
    } else {
        let n = choose|n: int| 0 <= n < k && #[trigger] is_closed_mine(g, list[n]);
        lemma_first_closed_mine(g, list, n);
    }
}

/// Revealing the closed cells of an empty list starts nowhere.
pub proof fn lemma_reveal_sources_empty(g: Seq<Seq<Cell>>, list: Seq<(int, int)>)
    requires
        list.len() == 0,
    ensures
        reveal_sources(g, list) == Set::<(int, int)>::empty(),
        !hits_mine(g, list),
{
    assert(reveal_sources(g, list) =~= Set::<(int, int)>::empty());
}

/// Revealing a single closed cell starts at that cell.
pub proof fn lemma_reveal_sources_single(g: Seq<Seq<Cell>>, p: (int, int))
    requires
        is_closed(g, p),
    ensures
        reveal_sources(g, seq![p]) == set![p],
        hits_mine(g, seq![p]) == (cell_at(g, p).kind is Mine),
{
    let list = seq![p];
    assert(is_reveal_source(g, list, 0) && list[0] == p);
    assert(reveal_sources(g, list) =~= set![p]);
    if cell_at(g, p).kind is Mine {
        assert(is_closed_mine(g, list[0]));
    }
}

} // verus!
