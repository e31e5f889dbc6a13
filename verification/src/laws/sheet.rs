//! Laws of the data regions of a sheet: which cells lie together, and where a
//! cell stands in its table.

use crate::sheet::{
    adjacent, all_leaders, before, connected, connected_transitive, cut, is_block_table, is_bounds,
    is_regions, led, path, shown, stands, Bounds, CellV,
};
use vstd::prelude::*;

verus! {

/// Whether two cells share an edge.
pub open spec fn share_an_edge(p: (int, int), q: (int, int)) -> bool {
    (p.0 - q.0) * (p.0 - q.0) + (p.1 - q.1) * (p.1 - q.1) == 1
}

proof fn edges(p: (int, int), q: (int, int))
    ensures
        share_an_edge(p, q) == adjacent(p, q),
{
    let a = p.0 - q.0;
    let b = p.1 - q.1;
    assert(a * a + b * b == 1 <==> (a == 0 && (b == 1 || b == -1)) || (b == 0 && (a == 1 || a
        == -1))) by (nonlinear_arith);
}

/// Two cells that share an edge lie in one region. A cell none of whose
/// neighbours over an edge holds anything is a region of its own, whatever
/// lies at its corners.
pub proof fn regions_hang_together_by_edges(cells: Set<(int, int)>, p: (int, int), q: (int, int))
    requires
        cells.contains(p),
        cells.contains(q),
    ensures
        share_an_edge(p, q) ==> connected(cells, p, q),
        (forall|r: (int, int)| #[trigger] cells.contains(r) ==> !share_an_edge(p, r)) && p != q
            ==> !connected(cells, p, q),
{
    reveal(connected);
    edges(p, q);
    if share_an_edge(p, q) {
        let s = seq![p, q];
        assert(path(cells, s));
        assert(s.last() == q);
    }
    if (forall|r: (int, int)| #[trigger] cells.contains(r) ==> !share_an_edge(p, r)) && p != q
        && connected(cells, p, q) {
        let s = choose|s: Seq<(int, int)>| #[trigger] path(cells, s) && s[0] == p && s.last() == q;
        if s.len() == 1 {
            assert(s.last() == s[0]);
        } else {
            assert(adjacent(s[0], s[1]));
            assert(cells.contains(s[1]));
            edges(p, s[1]);
        }
    }
}

proof fn a_leader_is_found(cells: Set<(int, int)>, leaders: Seq<(int, int)>, p: (int, int)) -> (k: int)
    requires
        led(cells, leaders, p),
    ensures
        0 <= k < leaders.len(),
        connected(cells, leaders[k], p),
{
    reveal(led);
    choose|k: int| 0 <= k < leaders.len() && connected(cells, #[trigger] leaders[k], p)
}

proof fn cuts_keep_places(
    cells: Map<(int, int), CellV>,
    tables: Seq<Seq<Seq<CellV>>>,
    k: int,
    b: Bounds,
    p: (int, int),
)
    requires
        0 <= k < tables.len(),
        tables[k] == cut(cells, b),
        b.covers(p),
        cells.contains_key(p),
    ensures
        stands(tables, k, p.0 - b.top, p.1 - b.left, cells[p]),
{
    let i = p.0 - b.top;
    let j = p.1 - b.left;
    assert(b.top + i == p.0 && b.left + j == p.1);
    assert(shown(cells, p.0, p.1) == cells[p]);
    assert(tables[k][i][j] == shown(cells, b.top + i, b.left + j));
}

/// Two cells of one region stand in one table, as far apart by rows and by
/// columns as in the sheet.
pub proof fn regions_keep_places(
    cells: Map<(int, int), CellV>,
    tables: Seq<Seq<Seq<CellV>>>,
    p: (int, int),
    rows: int,
    cols: int,
)
    requires
        is_regions(cells, tables),
        cells.contains_key(p),
        cells.contains_key((p.0 + rows, p.1 + cols)),
        connected(cells.dom(), p, (p.0 + rows, p.1 + cols)),
    ensures
        exists|k: int, i: int, j: int| #[trigger]
            stand_apart(tables, k, i, j, cells[p], rows, cols, cells[(p.0 + rows, p.1 + cols)]),
{
    let q = (p.0 + rows, p.1 + cols);
    let leaders = choose|leaders: Seq<(int, int)>|
        {
            &&& #[trigger] all_leaders(cells.dom(), leaders)
            &&& leaders.len() == tables.len()
            &&& forall|k: int|
                0 <= k < leaders.len() ==> is_block_table(cells, #[trigger] leaders[k], tables[k])
        };
    assert(cells.dom().contains(p));
    let k = a_leader_is_found(cells.dom(), leaders, p);
    assert(is_block_table(cells, leaders[k], tables[k]));
    let b = choose|b: Bounds|
        #[trigger] is_bounds(cells.dom(), leaders[k], b) && tables[k] == cut(cells, b);
    connected_transitive(cells.dom(), leaders[k], p, q);
    assert(b.covers(p));
    assert(b.covers(q));
    let i = p.0 - b.top;
    let j = p.1 - b.left;
    cuts_keep_places(cells, tables, k, b, p);
    cuts_keep_places(cells, tables, k, b, q);
    assert(q.0 - b.top == i + rows && q.1 - b.left == j + cols);
    assert(stand_apart(tables, k, i, j, cells[p], rows, cols, cells[q]));
}

/// Whether two cells stand in one table, so many rows and columns apart.
pub open spec fn stand_apart(
    tables: Seq<Seq<Seq<CellV>>>,
    k: int,
    i: int,
    j: int,
    v: CellV,
    rows: int,
    cols: int,
    w: CellV,
) -> bool {
    stands(tables, k, i, j, v) && stands(tables, k, i + rows, j + cols, w)
}

/// Regions come by the row of their first cell, and in one row by its column.
pub proof fn regions_come_row_by_row(p: (int, int), q: (int, int))
    ensures
        p.0 < q.0 ==> before(p, q),
        p.0 == q.0 && p.1 < q.1 ==> before(p, q),
        p.0 > q.0 ==> !before(p, q),
        !before(p, p),
{
}

} // verus!
