//! Positions on a rectangular board and the neighbourhood of a position.
//!
//! A position is a pair `(row, column)` of mathematical integers. The
//! neighbourhood of a position is its Moore neighbourhood clipped to the
//! board, listed row by row.

use vstd::prelude::*;

verus! {

/// Whether `p` lies on a board of `h` rows and `w` columns.
pub open spec fn on_board(h: int, w: int, p: (int, int)) -> bool {
    0 <= p.0 < h && 0 <= p.1 < w
}

/// Whether `p` and `q` are distinct and touch, by a side or by a corner.
pub open spec fn adjacent(p: (int, int), q: (int, int)) -> bool {
    p != q && -1 <= p.0 - q.0 <= 1 && -1 <= p.1 - q.1 <= 1
}

/// The three by three window centred on `(i, j)`, row by row, centre
/// included, whether or not its positions lie on a board.
pub open spec fn window(i: int, j: int) -> Seq<(int, int)> {
    Seq::new(9, |k: int| (i - 1 + k / 3, j - 1 + k % 3))
}

/// The test that keeps, of a window around `(i, j)`, the positions that
/// are neighbours of `(i, j)` on a board of `h` rows and `w` columns.
pub open spec fn is_neighbor_of(h: int, w: int, i: int, j: int) -> spec_fn((int, int)) -> bool {
    |p: (int, int)| p != (i, j) && on_board(h, w, p)
}

/// The neighbours of `(i, j)` on a board of `h` rows and `w` columns: the
/// window around `(i, j)` without its centre and without what falls off the
/// board, in the window's order.
pub open spec fn neighbors(h: int, w: int, i: int, j: int) -> Seq<(int, int)> {
    window(i, j).filter(is_neighbor_of(h, w, i, j))
}

/// A list of index pairs read as a list of positions.
pub open spec fn as_positions(indices: Seq<(usize, usize)>) -> Seq<(int, int)> {
    Seq::new(indices.len(), |k: int| (indices[k].0 as int, indices[k].1 as int))
}

/// A position is in the window around `(i, j)` exactly when each of its
/// coordinates differs from the centre's by at most one.
pub proof fn lemma_window_contains(i: int, j: int, q: (int, int))
    ensures
        window(i, j).contains(q) <==> (-1 <= q.0 - i <= 1 && -1 <= q.1 - j <= 1),
{
    let win = window(i, j);
    if -1 <= q.0 - i <= 1 && -1 <= q.1 - j <= 1 {
        let k = 3 * (q.0 - i + 1) + (q.1 - j + 1);
        assert(0 <= k < 9);
        assert(win[k] == q);
    }
    if win.contains(q) {
        let k = choose|k: int| 0 <= k < win.len() && win[k] == q;
        assert(win[k] == (i - 1 + k / 3, j - 1 + k % 3));
    }
}

/// The neighbours of `(i, j)` are exactly the positions on the board that
/// touch `(i, j)`, and there are at most eight of them.
pub proof fn lemma_neighbors_adjacent(h: int, w: int, i: int, j: int)
    ensures
        forall|q: (int, int)|
            neighbors(h, w, i, j).contains(q) <==> (on_board(h, w, q) && adjacent((i, j), q)),
        neighbors(h, w, i, j).len() <= 8,
{
    let win = window(i, j);
    let pred = is_neighbor_of(h, w, i, j);
    let nbrs = neighbors(h, w, i, j);
    assert forall|q: (int, int)|
        nbrs.contains(q) <==> (on_board(h, w, q) && adjacent((i, j), q))
    by {
        lemma_window_contains(i, j, q);
        if nbrs.contains(q) {
            let k = choose|k: int| 0 <= k < nbrs.len() && nbrs[k] == q;
            win.lemma_filter_pred(pred, k);
            win.lemma_filter_contains_rev(pred, q);
        }
        if on_board(h, w, q) && adjacent((i, j), q) {
            let k = choose|k: int| 0 <= k < win.len() && win[k] == q;
            win.lemma_filter_contains(pred, k);
        }
    }
    assert(nbrs.len() <= 8) by {
        let head = win.take(4);
        let tail = win.skip(5);
        assert(win =~= head.push(win[4]) + tail);
        assert(win[4] == (i, j));
        Seq::filter_distributes_over_add(head.push(win[4]), tail, pred);
        head.lemma_filter_push(win[4], pred);
        head.lemma_filter_len(pred);
        tail.lemma_filter_len(pred);
    }
}

} // verus!
