//! Laws of the slide reader.

use crate::document::{blank, blank_has_shape};
use crate::slide::{cell_text, cells_from, table_of, table_rows, widest, within, GridsV};
use crate::text::uint;
use crate::tree::{attr_of, kids_of, ElementV};
use vstd::prelude::*;

verus! {

// ------------------------------------------------------------ tables

/// How many rows or columns an attribute of a cell says; one without it.
pub open spec fn taken(tc: ElementV, name: Seq<char>) -> int {
    match attr_of(tc, name) {
        Some(v) => match uint(v, usize::MAX as int) {
            Some(n) => n,
            None => 1,
        },
        None => 1,
    }
}

/// Whether a cell goes on with no other one.
pub open spec fn is_origin(tc: ElementV) -> bool {
    attr_of(tc, "hMerge"@) is None && attr_of(tc, "vMerge"@) is None
}

/// Whether a cell that stands at a row and a column of a table takes a place:
/// its `rowSpan` counts the rows, its `gridSpan` the columns.
pub open spec fn takes(tc: ElementV, r: int, c: int, i: int, j: int) -> bool {
    &&& is_origin(tc)
    &&& r <= i < r + taken(tc, "rowSpan"@)
    &&& c <= j < c + taken(tc, "gridSpan"@)
}

/// Whether a cell of a row from column `c` on takes a place.
spec fn row_takes(v: Seq<ElementV>, r: int, c: int, i: int, j: int) -> bool {
    exists|k: int| c <= k < v.len() && #[trigger] takes(v[k], r, k, i, j)
}

proof fn cells_before_stay(v: Seq<ElementV>, r: int, c: int, g: GridsV, i: int, j: int)
    requires
        0 <= c,
        0 <= i < g.text.len(),
        0 <= j < g.text[i].len(),
        !(row_takes(v, r, c, i, j)),
    ensures
        cells_from(v, r, c, g).text.len() == g.text.len(),
        cells_from(v, r, c, g).text[i].len() == g.text[i].len(),
        cells_from(v, r, c, g).text[i][j] == g.text[i][j],
    decreases v.len() - c,
{
    if c < v.len() {
        let one = cells_from(v.take(c + 1), r, c, g);
        reveal_with_fuel(cells_from, 2);
        assert(v.take(c + 1)[c] == v[c]);
        assert(!(takes(v[c], r, c, i, j)));
        assert(one.text[i][j] == g.text[i][j]);
        assert(cells_from(v, r, c, g) == cells_from(v, r, c + 1, one));
        assert(!(row_takes(v, r, c + 1, i, j)));
        cells_before_stay(v, r, c + 1, one, i, j);
    }
}

proof fn the_last_cell_shows(
    v: Seq<ElementV>,
    r: int,
    c: int,
    g: GridsV,
    k: int,
    i: int,
    j: int,
)
    requires
        0 <= c <= k < v.len(),
        0 <= i < g.text.len(),
        0 <= j < g.text[i].len(),
        takes(v[k], r, k, i, j),
        !(row_takes(v, r, k + 1, i, j)),
    ensures
        cells_from(v, r, c, g).text.len() == g.text.len(),
        cells_from(v, r, c, g).text[i].len() == g.text[i].len(),
        cells_from(v, r, c, g).text[i][j] == cell_text(v[k]),
    decreases v.len() - c,
{
    let one = cells_from(v.take(c + 1), r, c, g);
    reveal_with_fuel(cells_from, 2);
    assert(v.take(c + 1)[c] == v[c]);
    assert(cells_from(v, r, c, g) == cells_from(v, r, c + 1, one));
    assert(one.text.len() == g.text.len());
    assert(one.text[i].len() == g.text[i].len());
    if c == k {
        assert(one.text[i][j] == cell_text(v[k]));
        cells_before_stay(v, r, c + 1, one, i, j);
    } else {
        the_last_cell_shows(v, r, c + 1, one, k, i, j);
    }
}

/// Whether a cell of a row from `r` on takes a place.
spec fn rows_take(v: Seq<ElementV>, r: int, i: int, j: int) -> bool {
    exists|q: int| r <= q < v.len() && #[trigger] row_takes(kids_of(v[q], "tc"@), q, 0, i, j)
}

proof fn rows_before_stay(v: Seq<ElementV>, r: int, g: GridsV, i: int, j: int)
    requires
        0 <= r,
        0 <= i < g.text.len(),
        0 <= j < g.text[i].len(),
        !(rows_take(v, r, i, j)),
    ensures
        table_rows(v, r, g).text[i][j] == g.text[i][j],
    decreases v.len() - r,
{
    if r < v.len() {
        let row = kids_of(v[r], "tc"@);
        assert(!(row_takes(row, r, 0, i, j)));
        cells_before_stay(row, r, 0, g, i, j);
        assert(!(rows_take(v, r + 1, i, j)));
        rows_before_stay(v, r + 1, cells_from(row, r, 0, g), i, j);
    }
}

proof fn sizes_stay(v: Seq<ElementV>, r: int, c: int, g: GridsV, i: int)
    requires
        0 <= c,
        0 <= i < g.text.len(),
    ensures
        cells_from(v, r, c, g).text.len() == g.text.len(),
        cells_from(v, r, c, g).text[i].len() == g.text[i].len(),
    decreases v.len() - c,
{
    if c < v.len() {
        let one = cells_from(v.take(c + 1), r, c, g);
        reveal_with_fuel(cells_from, 2);
        assert(v.take(c + 1)[c] == v[c]);
        assert(cells_from(v, r, c, g) == cells_from(v, r, c + 1, one));
        sizes_stay(v, r, c + 1, one, i);
    }
}

proof fn the_last_cell_of_rows_shows(
    v: Seq<ElementV>,
    r: int,
    g: GridsV,
    q: int,
    k: int,
    i: int,
    j: int,
)
    requires
        0 <= r <= q < v.len(),
        0 <= k < kids_of(v[q], "tc"@).len(),
        0 <= i < g.text.len(),
        0 <= j < g.text[i].len(),
        takes(kids_of(v[q], "tc"@)[k], q, k, i, j),
        !(row_takes(kids_of(v[q], "tc"@), q, k + 1, i, j)),
        !(rows_take(v, q + 1, i, j)),
    ensures
        table_rows(v, r, g).text[i][j] == cell_text(kids_of(v[q], "tc"@)[k]),
    decreases v.len() - r,
{
    let row = kids_of(v[r], "tc"@);
    let next = cells_from(row, r, 0, g);
    if r == q {
        the_last_cell_shows(row, r, 0, g, k, i, j);
        rows_before_stay(v, r + 1, next, i, j);
    } else {
        sizes_stay(row, r, 0, g, i);
        the_last_cell_of_rows_shows(v, r + 1, next, q, k, i, j);
    }
}

/// Whether the cell `k` of row `q` comes behind the cell `c` of row `r`.
pub open spec fn is_behind(q: int, k: int, r: int, c: int) -> bool {
    q > r || q == r && k > c
}

/// In a slide's table a cell at row `r` and column `c` that goes on with no
/// other one shows its text at each place of the `rowSpan` rows from `r` on
/// and the `gridSpan` columns from `c` on that no cell behind it takes.
pub proof fn spanning_cells_show_in_their_rectangle(
    tbl: ElementV,
    r: int,
    c: int,
    i: int,
    j: int,
)
    requires
        0 <= r < kids_of(tbl, "tr"@).len(),
        0 <= c < kids_of(kids_of(tbl, "tr"@)[r], "tc"@).len(),
        0 <= i < kids_of(tbl, "tr"@).len(),
        0 <= j < kids_of(kids_of(tbl, "tr"@)[i], "tc"@).len(),
        takes(kids_of(kids_of(tbl, "tr"@)[r], "tc"@)[c], r, c, i, j),
        forall|q: int, k: int|
            0 <= q < kids_of(tbl, "tr"@).len() && 0 <= k < kids_of(
                kids_of(tbl, "tr"@)[q],
                "tc"@,
            ).len() && is_behind(q, k, r, c) ==> !(#[trigger] takes(
                kids_of(kids_of(tbl, "tr"@)[q], "tc"@)[k],
                q,
                k,
                i,
                j,
            )),
    ensures
        table_of(tbl) matches Some(t) && t.rows[i][j] == cell_text(
            kids_of(kids_of(tbl, "tr"@)[r], "tc"@)[c],
        ),
{
    broadcast use blank_has_shape;

    let v = kids_of(tbl, "tr"@);
    let rows = v.len() as int;
    let cols = widest(v, 0, 0);
    rows_are_no_wider(v, 0, 0, i);
    let g = GridsV {
        text: blank(rows, cols, Seq::<char>::empty()),
        across: blank(rows, cols, false),
        down: blank(rows, cols, false),
    };
    assert(!(row_takes(kids_of(v[r], "tc"@), r, c + 1, i, j))) by {
        if row_takes(kids_of(v[r], "tc"@), r, c + 1, i, j) {
            let k = choose|k: int|
                c + 1 <= k < kids_of(v[r], "tc"@).len() && #[trigger] takes(
                    kids_of(v[r], "tc"@)[k],
                    r,
                    k,
                    i,
                    j,
                );
            assert(is_behind(r, k, r, c));
        }
    }
    assert(!(rows_take(v, r + 1, i, j))) by {
        if rows_take(v, r + 1, i, j) {
            let q = choose|q: int|
                r + 1 <= q < v.len() && #[trigger] row_takes(kids_of(v[q], "tc"@), q, 0, i, j);
            let k = choose|k: int|
                0 <= k < kids_of(v[q], "tc"@).len() && #[trigger] takes(
                    kids_of(v[q], "tc"@)[k],
                    q,
                    k,
                    i,
                    j,
                );
            assert(is_behind(q, k, r, c));
        }
    }
    the_last_cell_of_rows_shows(v, 0, g, r, c, i, j);
}

proof fn rows_are_no_wider(v: Seq<ElementV>, k: int, n: int, i: int)
    requires
        0 <= k,
        0 <= i < v.len(),
        k <= i || kids_of(v[i], "tc"@).len() <= n,
    ensures
        kids_of(v[i], "tc"@).len() <= widest(v, k, n),
    decreases v.len() - k,
{
    if k < v.len() {
        let m = kids_of(v[k], "tc"@).len() as int;
        rows_are_no_wider(
            v,
            k + 1,
            if m > n {
                m
            } else {
                n
            },
            i,
        );
    }
}

/// A cell with `hMerge` right of one that spans two columns or more shows the
/// text of that one, unless a cell behind them takes its place.
pub proof fn merged_cells_show_the_cell_to_the_left(tbl: ElementV, r: int, c: int)
    requires
        0 <= r < kids_of(tbl, "tr"@).len(),
        0 <= c,
        ({
            let row = kids_of(kids_of(tbl, "tr"@)[r], "tc"@);
            &&& c + 1 < row.len()
            &&& is_origin(row[c])
            &&& taken(row[c], "rowSpan"@) >= 1
            &&& taken(row[c], "gridSpan"@) >= 2
            &&& attr_of(row[c + 1], "hMerge"@) is Some
        }),
    ensures
        table_of(tbl) matches Some(t) && t.rows[r][c + 1] == cell_text(
            kids_of(kids_of(tbl, "tr"@)[r], "tc"@)[c],
        ) && t.rows[r][c] == t.rows[r][c + 1],
{
    spanning_cells_show_in_their_rectangle(tbl, r, c, r, c + 1);
    spanning_cells_show_in_their_rectangle(tbl, r, c, r, c);
}

// ------------------------------------------------------------ flags

proof fn flags_of_a_row(v: Seq<ElementV>, r: int, c: int, g: GridsV, i: int, j: int)
    requires
        0 <= c,
        0 <= i < g.across.len(),
        0 <= j < g.across[i].len(),
        i < g.down.len(),
        j < g.down[i].len(),
    ensures
        ({
            let n = cells_from(v, r, c, g);
            &&& n.across.len() == g.across.len()
            &&& n.across[i].len() == g.across[i].len()
            &&& n.down.len() == g.down.len()
            &&& n.down[i].len() == g.down[i].len()
            &&& n.across[i][j] == (if i == r && c <= j < v.len() {
                attr_of(v[j], "hMerge"@) is Some
            } else {
                g.across[i][j]
            })
            &&& n.down[i][j] == (if i == r && c <= j < v.len() {
                attr_of(v[j], "vMerge"@) is Some
            } else {
                g.down[i][j]
            })
        }),
    decreases v.len() - c,
{
    if c < v.len() {
        let one = cells_from(v.take(c + 1), r, c, g);
        reveal_with_fuel(cells_from, 2);
        assert(v.take(c + 1)[c] == v[c]);
        assert(cells_from(v, r, c, g) == cells_from(v, r, c + 1, one));
        flags_of_a_row(v, r, c + 1, one, i, j);
    }
}

proof fn flags_of_the_rows(v: Seq<ElementV>, r: int, g: GridsV, i: int, j: int)
    requires
        0 <= r,
        0 <= i < g.across.len(),
        0 <= j < g.across[i].len(),
        i < g.down.len(),
        j < g.down[i].len(),
    ensures
        ({
            let n = table_rows(v, r, g);
            let row = kids_of(v[i], "tc"@);
            &&& n.across[i][j] == (if r <= i < v.len() && j < row.len() {
                attr_of(row[j], "hMerge"@) is Some
            } else {
                g.across[i][j]
            })
            &&& n.down[i][j] == (if r <= i < v.len() && j < row.len() {
                attr_of(row[j], "vMerge"@) is Some
            } else {
                g.down[i][j]
            })
        }),
    decreases v.len() - r,
{
    if r < v.len() {
        let row = kids_of(v[r], "tc"@);
        flags_of_a_row(row, r, 0, g, i, j);
        flags_of_the_rows(v, r + 1, cells_from(row, r, 0, g), i, j);
    }
}

/// A place of a slide's table goes on with the one to the left where its cell
/// has an `hMerge`, and with the one above where it has a `vMerge`.
pub proof fn merge_marks_are_continuations(tbl: ElementV, i: int, j: int)
    requires
        0 <= i < kids_of(tbl, "tr"@).len(),
        0 <= j < kids_of(kids_of(tbl, "tr"@)[i], "tc"@).len(),
    ensures
        table_of(tbl) matches Some(t) && t.structure matches Some(s) && s.col_continuation[i][j]
            == (attr_of(kids_of(kids_of(tbl, "tr"@)[i], "tc"@)[j], "hMerge"@) is Some)
            && s.row_continuation[i][j] == (attr_of(
            kids_of(kids_of(tbl, "tr"@)[i], "tc"@)[j],
            "vMerge"@,
        ) is Some),
{
    broadcast use blank_has_shape;

    let v = kids_of(tbl, "tr"@);
    let rows = v.len() as int;
    let cols = widest(v, 0, 0);
    rows_are_no_wider(v, 0, 0, i);
    let g = GridsV {
        text: blank(rows, cols, Seq::<char>::empty()),
        across: blank(rows, cols, false),
        down: blank(rows, cols, false),
    };
    flags_of_the_rows(v, 0, g, i, j);
}

/// Only the first row of a slide's table can be a header, and it is one where
/// the table's properties have a `firstRow` of `1` or `true`.
pub proof fn the_first_row_is_the_header(tbl: ElementV, p: ElementV)
    requires
        within(tbl, "tblPr"@) == Some(p),
    ensures
        table_of(tbl) matches Some(t) ==> {
            let s = t.structure->0;
            &&& s.header_row.len() == kids_of(tbl, "tr"@).len()
            &&& forall|i: int| 0 < i < s.header_row.len() ==> !#[trigger] s.header_row[i]
            &&& s.header_row.len() > 0 ==> s.header_row[0] == (attr_of(p, "firstRow"@) == Some(
                seq!['1'],
            ) || attr_of(p, "firstRow"@) == Some(seq!['t', 'r', 'u', 'e']))
        },
{
    reveal_strlit("1");
    reveal_strlit("true");
    assert("1"@ =~= seq!['1']);
    assert("true"@ =~= seq!['t', 'r', 'u', 'e']);
}

} // verus!
