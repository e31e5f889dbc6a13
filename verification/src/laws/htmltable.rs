//! Laws of the tables of a page.

use crate::htmltable::{
    all_heads, data_rows, empty_grid, grid_fits, is_label_row, laid_out, nth, put, put_cells,
    put_rows, row_of, row_width, table_rows, widest, GridV, RenderedV, RowKind,
};
use crate::jats::free_col;
use crate::text::{strip, uint};
use crate::tree::{plain_attr_of, ElementV};
use vstd::prelude::*;

verus! {

/// How many rows or columns a cell of a page says to span: a whole number of
/// at least one, else one.
pub open spec fn says_to_span(e: ElementV, name: Seq<char>) -> int {
    match plain_attr_of(e, name) {
        Some(v) => match uint(strip(v), usize::MAX as int) {
            Some(n) => if n >= 1 {
                n
            } else {
                1
            },
            None => 1,
        },
        None => 1,
    }
}

/// Whether a place lies in the rectangle of a cell at a row and a column: its
/// `rowspan` counts the rows and its `colspan` the columns.
pub open spec fn is_in(e: ElementV, r: int, c: int, i: int, j: int) -> bool {
    r <= i < r + says_to_span(e, "rowspan"@) && c <= j < c + says_to_span(e, "colspan"@)
}

/// A cell fills the rectangle that its `rowspan` and `colspan` say, and
/// nothing outside of it. Its places right of the first column go on with the
/// one to the left and those below the first row with the one above; the
/// cells of a row of `th` cells are column headers, and a `th` cell of another
/// row is a row header.
pub proof fn cells_fill_their_rectangle(
    g: GridV,
    e: ElementV,
    x: RenderedV,
    r: int,
    c: int,
    heads: bool,
    height: int,
    width: int,
    i: int,
    j: int,
)
    requires
        grid_fits(g, height, width),
        0 <= r,
        0 <= c,
        0 <= i < height,
        0 <= j < width,
    ensures
        ({
            let p = put(g, e, x, r, c, (RowKind { label: false, heads }), height, width);
            if is_in(e, r, c, i, j) {
                &&& p.taken[i][j]
                &&& !x.rich ==> p.text[i][j] == x.text
                &&& x.rich && i == r && j == c ==> p.text[i][j] == x.text
                &&& x.rich && !(i == r && j == c) ==> p.text[i][j].len() == 0
                &&& p.cols[i][j] == (j > c)
                &&& p.rows[i][j] == (i > r)
                &&& p.heads[i][j] == heads
                &&& p.labels[i][j] == (!heads && e.tag == "th"@)
            } else {
                &&& p.taken[i][j] == g.taken[i][j]
                &&& p.text[i][j] == g.text[i][j]
                &&& p.cols[i][j] == g.cols[i][j]
                &&& p.rows[i][j] == g.rows[i][j]
                &&& p.heads[i][j] == g.heads[i][j]
                &&& p.labels[i][j] == g.labels[i][j]
            }
        }),
{
}

/// A row of a table all of whose cells are `th` cells that span more than one
/// row labels the rows below it: it takes no row of its own, and its cells
/// are row headers.
pub proof fn label_rows_are_row_headers(
    g: GridV,
    e: ElementV,
    x: RenderedV,
    r: int,
    c: int,
    height: int,
    width: int,
    i: int,
    j: int,
)
    requires
        grid_fits(g, height, width),
        0 <= r,
        0 <= c,
        0 <= i < height,
        0 <= j < width,
        r <= i < r + says_to_span(e, "rowspan"@) - 1,
        c <= j < c + says_to_span(e, "colspan"@),
    ensures
        ({
            let p = put(g, e, x, r, c, (RowKind { label: true, heads: true }), height, width);
            &&& p.taken[i][j]
            &&& !x.rich ==> p.text[i][j] == x.text
            &&& !p.heads[i][j]
            &&& p.labels[i][j]
        }),
{
}

// ------------------------------------------------------------ whole tables

/// How many columns the first `j` cells of a row take.
pub open spec fn columns_before(v: Seq<ElementV>, j: int) -> int
    decreases j,
{
    if j <= 0 {
        0
    } else {
        columns_before(v, j - 1) + says_to_span(v[j - 1], "colspan"@)
    }
}

/// How many cells the first `i` rows have.
pub open spec fn cells_before(rows: Seq<ElementV>, i: int) -> int
    decreases i,
{
    if i <= 0 {
        0
    } else {
        cells_before(rows, i - 1) + row_of(rows[i - 1]).len()
    }
}

/// Whether no cell of a row spans more than one row.
pub open spec fn is_flat(v: Seq<ElementV>) -> bool {
    forall|j: int| 0 <= j < v.len() ==> says_to_span(#[trigger] v[j], "rowspan"@) == 1
}

proof fn columns_grow(v: Seq<ElementV>, i: int, j: int)
    requires
        0 <= i <= j,
    ensures
        columns_before(v, i) + (j - i) <= columns_before(v, j),
    decreases j,
{
    if i < j {
        columns_grow(v, i, j - 1);
    }
}

proof fn widths_are_columns(v: Seq<ElementV>)
    ensures
        row_width(v) == columns_before(v, v.len() as int),
    decreases v.len(),
{
    if v.len() > 0 {
        widths_are_columns(v.drop_last());
        same_columns(v, v.drop_last(), v.len() - 1);
    }
}

proof fn same_columns(v: Seq<ElementV>, w: Seq<ElementV>, j: int)
    requires
        0 <= j <= v.len(),
        j <= w.len(),
        forall|k: int| 0 <= k < j ==> #[trigger] v[k] == w[k],
    ensures
        columns_before(v, j) == columns_before(w, j),
    decreases j,
{
    if j > 0 {
        same_columns(v, w, j - 1);
        assert(v[j - 1] == w[j - 1]);
    }
}

proof fn rows_are_no_wider(rows: Seq<ElementV>, k: int, most: int, i: int)
    requires
        0 <= k,
        0 <= i < rows.len(),
        k <= i || row_width(row_of(rows[i])) <= most,
    ensures
        row_width(row_of(rows[i])) <= widest(rows, k, most),
    decreases rows.len() - k,
{
    if k < rows.len() {
        let w = row_width(row_of(rows[k]));
        rows_are_no_wider(
            rows,
            k + 1,
            if w > most {
                w
            } else {
                most
            },
            i,
        );
    }
}

proof fn flat_rows_are_data(rows: Seq<ElementV>, k: int, n: int)
    requires
        0 <= k <= rows.len(),
        forall|i: int| 0 <= i < rows.len() ==> is_flat(row_of(#[trigger] rows[i])),
    ensures
        data_rows(rows, k, n) == n + (rows.len() - k),
    decreases rows.len() - k,
{
    if k < rows.len() {
        assert(is_flat(row_of(rows[k])));
        flat_rows_label_nothing(row_of(rows[k]));
        flat_rows_are_data(rows, k + 1, n + 1);
    }
}

proof fn flat_rows_label_nothing(v: Seq<ElementV>)
    requires
        is_flat(v),
    ensures
        !is_label_row(v),
{
    if v.len() > 0 {
        assert(says_to_span(v[0], "rowspan"@) == 1);
    }
}

/// Whether a grid shows the cells of a row from `j` on, the first of which is
/// the rendered cell `k`.
spec fn shows_row(
    g: GridV,
    r: int,
    v: Seq<ElementV>,
    j: int,
    shown: Seq<RenderedV>,
    k: int,
) -> bool {
    forall|q: int, d: int|
        j <= q < v.len() && 0 <= d < says_to_span(v[q], "colspan"@) ==> #[trigger] shows_at(
            g,
            r,
            columns_before(v, q),
            d,
            shown[k + (q - j)],
        )
}

/// Whether a grid shows a cell at a place.
pub open spec fn shows_at(g: GridV, r: int, c: int, d: int, x: RenderedV) -> bool {
    !x.rich ==> g.text[r][c + d] == x.text
}

/// Whether two grids have the same texts but for a row, and that row up to a
/// column, and the same marks of what is taken but for that row.
spec fn is_same_outside(g: GridV, h: GridV, r: int, c: int, height: int, width: int) -> bool {
    &&& forall|i: int, j: int|
        0 <= i < height && 0 <= j < width && (i != r || j < c) ==> #[trigger] h.text[i][j]
            == g.text[i][j]
    &&& forall|i: int, j: int|
        0 <= i < height && 0 <= j < width && i != r ==> #[trigger] h.taken[i][j] == g.taken[i][j]
}

proof fn a_flat_row_is_put(
    v: Seq<ElementV>,
    j: int,
    kind: RowKind,
    shown: Seq<RenderedV>,
    height: int,
    width: int,
    g: GridV,
)
    requires
        0 <= j <= v.len(),
        is_flat(v),
        !kind.label,
        grid_fits(g, height, width),
        columns_before(v, v.len() as int) <= width,
        g.down == 0,
        1 <= g.next <= height,
        0 <= g.k,
        g.k + (v.len() - j) <= shown.len(),
        forall|q: int|
            columns_before(v, j) <= q < width ==> !(#[trigger] g.taken[g.next - 1][q]),
    ensures
        ({
            let h = put_cells(v, j, columns_before(v, j), kind, shown, height, width, g);
            &&& grid_fits(h, height, width)
            &&& h.next == g.next
            &&& h.down == 0
            &&& h.k == g.k + (v.len() - j)
            &&& is_same_outside(g, h, g.next - 1, columns_before(v, j), height, width)
            &&& shows_row(h, g.next - 1, v, j, shown, g.k)
        }),
    decreases v.len() - j,
{
    if j < v.len() {
        let r = g.next - 1;
        let c = columns_before(v, j);
        columns_grow(v, 0, j);
        columns_grow(v, j + 1, v.len() as int);
        let w = says_to_span(v[j], "colspan"@);
        assert(columns_before(v, j + 1) == c + w);
        assert(says_to_span(v[j], "rowspan"@) == 1);
        assert(!g.taken[r][c]);
        assert(free_col(g.taken[r], c, width) == c);
        let x = nth(shown, g.k);
        let one = GridV { k: g.k + 1, ..put(g, v[j], x, r, c, kind, height, width) };
        assert forall|i: int, q: int| 0 <= i < height && 0 <= q < width implies one.taken[i][q] == (
        is_in(v[j], r, c, i, q) || g.taken[i][q]) && (!x.rich && is_in(v[j], r, c, i, q)
            ==> one.text[i][q] == x.text) && (!is_in(v[j], r, c, i, q) ==> #[trigger] one.text[i][q]
            == g.text[i][q]) by {}
        assert(one.next == g.next && one.down == 0);
        assert(put_cells(v, j, c, kind, shown, height, width, g) == put_cells(
            v,
            j + 1,
            c + w,
            kind,
            shown,
            height,
            width,
            one,
        ));
        assert forall|q: int| c + w <= q < width implies !(#[trigger] one.taken[one.next - 1][q]) by {
            assert(!g.taken[r][q]);
            assert(one.text[r][q] == g.text[r][q]);
        }
        a_flat_row_is_put(v, j + 1, kind, shown, height, width, one);
        let h = put_cells(v, j + 1, c + w, kind, shown, height, width, one);
        assert forall|q: int, d: int|
            j <= q < v.len() && 0 <= d < says_to_span(v[q], "colspan"@) implies #[trigger] shows_at(
            h,
            r,
            columns_before(v, q),
            d,
            shown[g.k + (q - j)],
        ) by {
            if q == j {
                assert(one.text[r][c + d] == one.text[r][c + d]);
                assert(h.text[r][c + d] == one.text[r][c + d]);
            } else {
                assert(shows_at(h, r, columns_before(v, q), d, shown[one.k + (q - (j + 1))]));
            }
        }
        assert forall|i: int, q: int|
            0 <= i < height && 0 <= q < width && (i != r || q < c) implies #[trigger] h.text[i][q]
            == g.text[i][q] by {
            assert(one.text[i][q] == g.text[i][q]);
        }
        assert forall|i: int, q: int|
            0 <= i < height && 0 <= q < width && i != r implies #[trigger] h.taken[i][q]
            == g.taken[i][q] by {
            assert(one.text[i][q] == g.text[i][q]);
            assert(h.taken[i][q] == one.taken[i][q]);
        }
    }
}

/// Whether a grid shows the rows of a table before `i`.
spec fn shows_rows(g: GridV, rows: Seq<ElementV>, i: int, shown: Seq<RenderedV>) -> bool {
    forall|r: int| 0 <= r < i ==> #[trigger] shows_row(
        g,
        r,
        row_of(rows[r]),
        0,
        shown,
        cells_before(rows, r),
    )
}

proof fn cells_grow(rows: Seq<ElementV>, i: int, j: int)
    requires
        0 <= i <= j,
    ensures
        0 <= cells_before(rows, i) <= cells_before(rows, j),
    decreases j,
{
    if i < j {
        cells_grow(rows, i, j - 1);
    } else if i > 0 {
        cells_grow(rows, i - 1, i - 1);
    }
}

proof fn flat_rows_are_put(
    rows: Seq<ElementV>,
    i: int,
    shown: Seq<RenderedV>,
    width: int,
    g: GridV,
)
    requires
        0 <= i <= rows.len(),
        forall|q: int| 0 <= q < rows.len() ==> is_flat(row_of(#[trigger] rows[q])),
        forall|q: int|
            0 <= q < rows.len() ==> columns_before(
                row_of(#[trigger] rows[q]),
                row_of(rows[q]).len() as int,
            ) <= width,
        grid_fits(g, rows.len() as int, width),
        cells_before(rows, rows.len() as int) <= shown.len(),
        g.next == i,
        g.down == 0,
        g.k == cells_before(rows, i),
        forall|r: int, q: int|
            i <= r < rows.len() && 0 <= q < width ==> !(#[trigger] g.taken[r][q]),
        shows_rows(g, rows, i, shown),
    ensures
        shows_rows(
            put_rows(rows, i, true, shown, rows.len() as int, width, g),
            rows,
            rows.len() as int,
            shown,
        ),
    decreases rows.len() - i,
{
    if i < rows.len() {
        let height = rows.len() as int;
        let v = row_of(rows[i]);
        assert(is_flat(row_of(rows[i])));
        flat_rows_label_nothing(v);
        let kind = RowKind { label: false, heads: all_heads(v, 0) };
        let start = GridV { next: g.next + 1, down: 0, ..g };
        cells_grow(rows, 0, i);
        cells_grow(rows, i + 1, height);
        assert(cells_before(rows, i + 1) == cells_before(rows, i) + v.len());
        assert(columns_before(v, 0) == 0);
        a_flat_row_is_put(v, 0, kind, shown, height, width, start);
        let next = put_cells(v, 0, 0, kind, shown, height, width, start);
        assert(put_rows(rows, i, true, shown, height, width, g) == put_rows(
            rows,
            i + 1,
            true,
            shown,
            height,
            width,
            next,
        ));
        assert forall|r: int, q: int| i + 1 <= r < height && 0 <= q < width implies !(
        #[trigger] next.taken[r][q]) by {
            assert(next.taken[r][q] == start.taken[r][q]);
            assert(!g.taken[r][q]);
        }
        assert forall|r: int| 0 <= r < i + 1 implies #[trigger] shows_row(
            next,
            r,
            row_of(rows[r]),
            0,
            shown,
            cells_before(rows, r),
        ) by {
            if r < i {
                let u = row_of(rows[r]);
                let k = cells_before(rows, r);
                assert(shows_row(g, r, u, 0, shown, k));
                assert forall|q: int, d: int|
                    0 <= q < u.len() && 0 <= d < says_to_span(u[q], "colspan"@) implies
                    #[trigger] shows_at(next, r, columns_before(u, q), d, shown[k + (q - 0)]) by {
                    assert(shows_at(g, r, columns_before(u, q), d, shown[k + (q - 0)]));
                    columns_grow(u, 0, q);
                    columns_grow(u, q + 1, u.len() as int);
                    assert(columns_before(u, q + 1) == columns_before(u, q) + says_to_span(
                        u[q],
                        "colspan"@,
                    ));
                    assert(columns_before(row_of(rows[r]), row_of(rows[r]).len() as int) <= width);
                    assert(next.text[r][columns_before(u, q) + d] == start.text[r][columns_before(
                        u,
                        q,
                    ) + d]);
                }
            }
        }
        flat_rows_are_put(rows, i + 1, shown, width, next);
    }
}

/// In a table without cells that span rows, the row `i` of the table shows
/// the cells of its row in order: the `j`-th one behind the columns that the
/// cells before it take by their `colspan`, in as many columns as its own
/// says.
pub proof fn cells_come_in_order(
    table: ElementV,
    shown: Seq<RenderedV>,
    i: int,
    j: int,
    d: int,
)
    requires
        ({
            let rows = table_rows(table.children, 0, false, seq![]);
            &&& 0 <= i < rows.len()
            &&& 0 <= j < row_of(rows[i]).len()
            &&& 0 <= d < says_to_span(row_of(rows[i])[j], "colspan"@)
            &&& forall|q: int| 0 <= q < rows.len() ==> is_flat(row_of(#[trigger] rows[q]))
            &&& widest(rows, 0, 0) <= usize::MAX
            &&& cells_before(rows, rows.len() as int) <= shown.len()
            &&& !shown[cells_before(rows, i) + j].rich
        }),
    ensures
        ({
            let rows = table_rows(table.children, 0, false, seq![]);
            laid_out(table, shown) matches Some(t) && t.rows[i][columns_before(
                row_of(rows[i]),
                j,
            ) + d] == shown[cells_before(rows, i) + j].text
        }),
{
    let rows = table_rows(table.children, 0, false, seq![]);
    let height = rows.len() as int;
    let width = widest(rows, 0, 0);
    flat_rows_are_data(rows, 0, 0);
    assert forall|q: int| 0 <= q < rows.len() implies columns_before(
        row_of(#[trigger] rows[q]),
        row_of(rows[q]).len() as int,
    ) <= width by {
        rows_are_no_wider(rows, 0, 0, q);
        widths_are_columns(row_of(rows[q]));
    }
    let v = row_of(rows[i]);
    columns_grow(v, 0, j);
    columns_grow(v, j + 1, v.len() as int);
    assert(columns_before(v, v.len() as int) <= width);
    let g = empty_grid(height, width);
    assert(grid_fits(g, height, width));
    flat_rows_are_put(rows, 0, shown, width, g);
    let h = put_rows(rows, 0, true, shown, height, width, g);
    assert(shows_row(h, i, row_of(rows[i]), 0, shown, cells_before(rows, i)));
    assert(shows_at(
        h,
        i,
        columns_before(v, j),
        d,
        shown[cells_before(rows, i) + (j - 0)],
    ));
}

proof fn taken_columns_are_passed(taken: Seq<bool>, c: int, q: int, width: int)
    requires
        0 <= c <= q <= width,
        width <= taken.len(),
        forall|k: int| c <= k < q ==> #[trigger] taken[k],
        q == width || !taken[q],
    ensures
        free_col(taken, c, width) == q,
    decreases q - c,
{
    if c < q {
        assert(taken[c]);
        taken_columns_are_passed(taken, c + 1, q, width);
    }
}

/// A cell goes to the next column of its row that no cell from above has
/// taken, and the cell behind it starts where it ends.
pub proof fn cells_go_to_the_next_free_column(
    v: Seq<ElementV>,
    j: int,
    c: int,
    q: int,
    kind: RowKind,
    shown: Seq<RenderedV>,
    height: int,
    width: int,
    g: GridV,
)
    requires
        grid_fits(g, height, width),
        0 <= j < v.len(),
        0 <= g.next + g.down - 1 < height,
        0 <= g.k < shown.len(),
        0 <= c <= q < width,
        q + says_to_span(v[j], "colspan"@) <= width,
        forall|k: int| c <= k < q ==> #[trigger] g.taken[g.next + g.down - 1][k],
        !g.taken[g.next + g.down - 1][q],
    ensures
        put_cells(v, j, c, kind, shown, height, width, g) == put_cells(
            v,
            j + 1,
            q + says_to_span(v[j], "colspan"@),
            kind,
            shown,
            height,
            width,
            GridV {
                k: g.k + 1,
                ..put(g, v[j], shown[g.k], g.next + g.down - 1, q, kind, height, width)
            },
        ),
{
    let r = g.next + g.down - 1;
    assert(g.taken[r].len() == width);
    taken_columns_are_passed(g.taken[r], c, q, width);
}

} // verus!
