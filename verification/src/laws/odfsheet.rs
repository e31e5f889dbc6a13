//! Laws of the sheets of an OpenDocument spreadsheet.

use crate::odfbody::{
    placed_cells, repeated, sheet_cells, sheet_from, sheet_text, with_cells, with_rows, PlacedV,
};
use crate::sheet::CellV;
use crate::text::uint;
use crate::tree::{attr_of, either_kids_of, kids_of, ElementV};
use vstd::prelude::*;

verus! {

/// How often an element says that it stands there: the whole number of an
/// attribute when it is at least one, else once.
pub open spec fn stands(e: ElementV, name: Seq<char>) -> int {
    match attr_of(e, name) {
        Some(v) => match uint(v, usize::MAX as int) {
            Some(n) => if n >= 1 {
                n
            } else {
                1
            },
            None => 1,
        },
        None => 1,
    }
}

/// How many places the first `i` of a run of elements take together.
pub open spec fn places_before(v: Seq<ElementV>, name: Seq<char>, i: int) -> int
    decreases i,
{
    if i <= 0 {
        0
    } else {
        places_before(v, name, i - 1) + stands(v[i - 1], name)
    }
}

/// Whether the `i`-th of a run of elements stands at a place: behind those
/// before it, as often as it says but at most 1024 times.
pub open spec fn is_at(v: Seq<ElementV>, name: Seq<char>, i: int, place: int) -> bool {
    &&& 0 <= i < v.len()
    &&& places_before(v, name, i) <= place < places_before(v, name, i) + stands(v[i], name)
    &&& place < places_before(v, name, i) + 1024
}

/// The cells of a row.
pub open spec fn cells_of_row(tr: ElementV) -> Seq<ElementV> {
    either_kids_of(tr, "table-cell"@, "covered-table-cell"@)
}

/// Whether the `b`-th cell of a row shows in a column.
pub open spec fn shows_in(v: Seq<ElementV>, b: int, col: int) -> bool {
    &&& is_at(v, "number-columns-repeated"@, b, col)
    &&& sheet_text(v[b]).len() > 0 || v[b].tag == "covered-table-cell"@
}

/// Whether a sheet has a text at a row and a column.
pub open spec fn has_text(m: Map<(int, int), CellV>, row: int, col: int, text: Seq<char>) -> bool {
    m.contains_key((row, col)) && m[(row, col)] == CellV::Text(text)
}

proof fn places_grow(v: Seq<ElementV>, name: Seq<char>, i: int, j: int)
    requires
        0 <= i <= j,
    ensures
        places_before(v, name, i) + (j - i) <= places_before(v, name, j),
    decreases j,
{
    if i < j {
        places_grow(v, name, i, j - 1);
    }
}

proof fn repeats_run_on(col: int, k: int, n: int, text: Seq<char>, done: Seq<PlacedV>)
    requires
        0 <= k <= n,
        0 <= col,
        col + n <= u64::MAX,
    ensures
        repeated(col, k, n, text, done) == done + Seq::new(
            (n - k) as nat,
            |y: int| PlacedV { col: col + k + y, text },
        ),
    decreases n - k,
{
    let all = Seq::new((n - k) as nat, |y: int| PlacedV { col: col + k + y, text });
    if k < n {
        let one = PlacedV { col: col + k, text };
        repeats_run_on(col, k + 1, n, text, done.push(one));
        let rest = Seq::new(
            (n - k - 1) as nat,
            |y: int| PlacedV { col: col + (k + 1) + y, text },
        );
        assert(repeated(col, k, n, text, done) == done.push(one) + rest);
        assert(done.push(one) + rest =~= done + all);
    } else {
        assert(done + all =~= done);
    }
}

/// What the cells of a row before `i` put into it.
spec fn is_row(v: Seq<ElementV>, i: int, p: Seq<PlacedV>) -> bool {
    &&& forall|b: int, col: int|
        b < i && #[trigger] shows_in(v, b, col) ==> p.contains(
            PlacedV { col, text: sheet_text(v[b]) },
        )
    &&& forall|q: int| 0 <= q < p.len() ==> #[trigger] comes_from(v, i, p[q])
    &&& forall|q: int, s: int| 0 <= q < s < p.len() ==> #[trigger] p[q].col < #[trigger] p[s].col
    &&& forall|q: int|
        0 <= q < p.len() ==> 0 <= (#[trigger] p[q]).col < places_before(
            v,
            "number-columns-repeated"@,
            i,
        )
}

spec fn comes_from(v: Seq<ElementV>, i: int, p: PlacedV) -> bool {
    exists|b: int| b < i && #[trigger] shows_in(v, b, p.col) && p.text == sheet_text(v[b])
}

proof fn cells_of_a_row(v: Seq<ElementV>, i: int, done: Seq<PlacedV>)
    requires
        0 <= i <= v.len(),
        places_before(v, "number-columns-repeated"@, v.len() as int) <= u64::MAX,
        is_row(v, i, done),
    ensures
        is_row(
            v,
            v.len() as int,
            placed_cells(v, i, places_before(v, "number-columns-repeated"@, i), done),
        ),
    decreases v.len() - i,
{
    if i < v.len() {
        let name = "number-columns-repeated"@;
        let col = places_before(v, name, i);
        let n = stands(v[i], name);
        let text = sheet_text(v[i]);
        places_grow(v, name, 0, i);
        places_grow(v, name, i + 1, v.len() as int);
        assert(places_before(v, name, i + 1) == col + n);
        let shown = text.len() > 0 || v[i].tag == "covered-table-cell"@;
        let m = if n > 1024 {
            1024
        } else {
            n
        };
        let more = Seq::new(m as nat, |y: int| PlacedV { col: col + y, text });
        let next = if shown {
            done + more
        } else {
            done
        };
        if shown {
            repeats_run_on(col, 0, m, text, done);
            assert(Seq::new((m - 0) as nat, |y: int| PlacedV { col: col + 0 + y, text }) =~= more);
        }
        assert(placed_cells(v, i, col, done) == placed_cells(v, i + 1, col + n, next));
        assert forall|b: int, c: int| b < i + 1 && #[trigger] shows_in(v, b, c) implies next.contains(
            PlacedV { col: c, text: sheet_text(v[b]) },
        ) by {
            let p = PlacedV { col: c, text: sheet_text(v[b]) };
            if b < i {
                assert(done.contains(p));
                let q = done.index_of(p);
                assert(next[q] == p);
            } else {
                assert(more[c - col] == p);
                assert(next[done.len() + (c - col)] == p);
            }
        }
        assert forall|q: int| 0 <= q < next.len() implies #[trigger] comes_from(v, i + 1, next[q]) by {
            if q < done.len() {
                assert(comes_from(v, i, done[q]));
                let b = choose|b: int|
                    b < i && #[trigger] shows_in(v, b, done[q].col) && done[q].text == sheet_text(
                        v[b],
                    );
                assert(shows_in(v, b, next[q].col));
            } else {
                assert(next[q] == more[q - done.len()]);
                assert(shows_in(v, i, next[q].col));
            }
        }
        assert(is_row(v, i + 1, next));
        cells_of_a_row(v, i + 1, next);
    }
}

proof fn cells_are_put(m: Map<(int, int), CellV>, row: Seq<PlacedV>, j: int, r: int)
    requires
        0 <= j <= row.len(),
        forall|q: int, s: int| 0 <= q < s < row.len() ==> #[trigger] row[q].col < #[trigger] row[s].col,
    ensures
        forall|q: int|
            j <= q < row.len() ==> has_text(
                with_cells(m, row, j, r),
                r,
                (#[trigger] row[q]).col,
                row[q].text,
            ),
        forall|a: int, c: int, t: Seq<char>|
            (a != r || forall|q: int| j <= q < row.len() ==> (#[trigger] row[q]).col != c)
                && has_text(m, a, c, t) ==> #[trigger] has_text(with_cells(m, row, j, r), a, c, t),
        forall|a: int, c: int| #[trigger]
            with_cells(m, row, j, r).contains_key((a, c)) ==> m.contains_key((a, c)) || a == r
                && exists|q: int| j <= q < row.len() && (#[trigger] row[q]).col == c,
    decreases row.len() - j,
{
    if j < row.len() {
        let one = m.insert((r, row[j].col), CellV::Text(row[j].text));
        cells_are_put(one, row, j + 1, r);
        let all = with_cells(one, row, j + 1, r);
        assert(all == with_cells(m, row, j, r));
        assert(has_text(one, r, row[j].col, row[j].text));
        assert(has_text(all, r, row[j].col, row[j].text));
        assert forall|a: int, c: int, t: Seq<char>|
            (a != r || forall|q: int| j <= q < row.len() ==> (#[trigger] row[q]).col != c)
                && has_text(m, a, c, t) implies #[trigger] has_text(all, a, c, t) by {
            if a == r {
                assert(row[j].col != c);
            }
            assert(has_text(one, a, c, t));
        }
        assert forall|a: int, c: int| #[trigger] all.contains_key((a, c)) implies m.contains_key(
            (a, c),
        ) || a == r && exists|q: int| j <= q < row.len() && (#[trigger] row[q]).col == c by {
            if !m.contains_key((a, c)) {
                if one.contains_key((a, c)) {
                    assert(row[j].col == c);
                }
            }
        }
    }
}

/// Whether the rows before `i` put all their cells into a sheet, and nothing
/// else is in it.
spec fn is_sheet(rows: Seq<ElementV>, i: int, m: Map<(int, int), CellV>) -> bool {
    &&& forall|a: int, b: int, r: int, c: int|
        a < i && #[trigger] is_at(rows, "number-rows-repeated"@, a, r) && #[trigger] shows_in(
            cells_of_row(rows[a]),
            b,
            c,
        ) ==> has_text(m, r, c, sheet_text(cells_of_row(rows[a])[b]))
    &&& forall|r: int, c: int| #[trigger] m.contains_key((r, c)) ==> is_shown(rows, i, r, c)
}

/// Whether a cell of a row before `i` shows at a row and a column.
pub open spec fn is_shown(rows: Seq<ElementV>, i: int, r: int, c: int) -> bool {
    exists|a: int, b: int|
        a < i && #[trigger] is_at(rows, "number-rows-repeated"@, a, r) && #[trigger] shows_in(
            cells_of_row(rows[a]),
            b,
            c,
        )
}

/// Whether a row put at the first `k` of its places is in a sheet, with what
/// was there before.
spec fn is_put(
    old_m: Map<(int, int), CellV>,
    m: Map<(int, int), CellV>,
    row: Seq<PlacedV>,
    r: int,
    k: int,
) -> bool {
    &&& forall|a: int, q: int|
        r <= a < r + k && 0 <= q < row.len() ==> #[trigger] has_text(
            m,
            a,
            row[q].col,
            row[q].text,
        )
    &&& forall|a: int, c: int, t: Seq<char>|
        a < r && has_text(old_m, a, c, t) ==> #[trigger] has_text(m, a, c, t)
    &&& forall|a: int, c: int| #[trigger]
        m.contains_key((a, c)) ==> old_m.contains_key((a, c)) || r <= a < r + k && exists|q: int|
            0 <= q < row.len() && (#[trigger] row[q]).col == c
}

proof fn a_row_is_put(
    old_m: Map<(int, int), CellV>,
    m: Map<(int, int), CellV>,
    row: Seq<PlacedV>,
    r: int,
    k: int,
    n: int,
)
    requires
        0 <= k <= n,
        0 <= r,
        r + n <= u64::MAX,
        forall|q: int, s: int| 0 <= q < s < row.len() ==> #[trigger] row[q].col < #[trigger] row[s].col,
        is_put(old_m, m, row, r, k),
    ensures
        is_put(old_m, with_rows(m, row, r, k, n), row, r, n),
    decreases n - k,
{
    if k < n {
        cells_are_put(m, row, 0, r + k);
        let next = with_cells(m, row, 0, r + k);
        assert forall|a: int, q: int|
            r <= a < r + (k + 1) && 0 <= q < row.len() implies #[trigger] has_text(
            next,
            a,
            row[q].col,
            row[q].text,
        ) by {
            if a < r + k {
                assert(has_text(m, a, row[q].col, row[q].text));
            }
        }
        assert forall|a: int, c: int, t: Seq<char>|
            a < r && has_text(old_m, a, c, t) implies #[trigger] has_text(next, a, c, t) by {
            assert(has_text(m, a, c, t));
        }
        a_row_is_put(old_m, next, row, r, k + 1, n);
    }
}

proof fn rows_of_a_sheet(rows: Seq<ElementV>, i: int, m: Map<(int, int), CellV>)
    requires
        0 <= i <= rows.len(),
        places_before(rows, "number-rows-repeated"@, rows.len() as int) <= u64::MAX,
        forall|a: int|
            0 <= a < rows.len() ==> places_before(
                cells_of_row(#[trigger] rows[a]),
                "number-columns-repeated"@,
                cells_of_row(rows[a]).len() as int,
            ) <= u64::MAX,
        is_sheet(rows, i, m),
    ensures
        is_sheet(
            rows,
            rows.len() as int,
            sheet_from(rows, i, places_before(rows, "number-rows-repeated"@, i), m),
        ),
    decreases rows.len() - i,
{
    if i < rows.len() {
        let name = "number-rows-repeated"@;
        let r = places_before(rows, name, i);
        let n = stands(rows[i], name);
        places_grow(rows, name, 0, i);
        places_grow(rows, name, i + 1, rows.len() as int);
        assert(places_before(rows, name, i + 1) == r + n);
        let v = cells_of_row(rows[i]);
        let row = placed_cells(v, 0, 0, seq![]);
        cells_of_a_row(v, 0, seq![]);
        let k = if n > 1024 {
            1024
        } else {
            n
        };
        a_row_is_put(m, m, row, r, 0, k);
        let next = with_rows(m, row, r, 0, k);
        assert(sheet_from(rows, i, r, m) == sheet_from(rows, i + 1, r + n, next));
        assert forall|a: int, b: int, s: int, c: int|
            a < i + 1 && #[trigger] is_at(rows, name, a, s) && #[trigger] shows_in(
                cells_of_row(rows[a]),
                b,
                c,
            ) implies has_text(next, s, c, sheet_text(cells_of_row(rows[a])[b])) by {
            let t = sheet_text(cells_of_row(rows[a])[b]);
            if a < i {
                places_grow(rows, name, a + 1, i);
                assert(s < r);
                assert(has_text(m, s, c, t));
            } else {
                let p = PlacedV { col: c, text: t };
                assert(row.contains(p));
                let q = row.index_of(p);
                assert(has_text(next, s, row[q].col, row[q].text));
            }
        }
        assert forall|s: int, c: int| #[trigger] next.contains_key((s, c)) implies is_shown(
            rows,
            i + 1,
            s,
            c,
        ) by {
            if m.contains_key((s, c)) {
                assert(is_shown(rows, i, s, c));
                let (a, b) = choose|a: int, b: int|
                    a < i && #[trigger] is_at(rows, name, a, s) && #[trigger] shows_in(
                        cells_of_row(rows[a]),
                        b,
                        c,
                    );
                assert(is_at(rows, name, a, s) && shows_in(cells_of_row(rows[a]), b, c));
            } else {
                let q = choose|q: int| 0 <= q < row.len() && (#[trigger] row[q]).col == c;
                assert(comes_from(v, v.len() as int, row[q]));
                let b = choose|b: int|
                    b < v.len() && #[trigger] shows_in(v, b, row[q].col) && row[q].text
                        == sheet_text(v[b]);
                assert(is_at(rows, name, i, s));
                assert(shows_in(cells_of_row(rows[i]), b, c));
            }
        }
        rows_of_a_sheet(rows, i + 1, next);
    }
}

/// A cell of a sheet lies behind the cells before it in its row, each of
/// which takes as many columns as its `number-columns-repeated` says, and its
/// row behind the rows before it by their `number-rows-repeated`. It shows
/// its text there, as often as its own attributes say but at most 1024 times
/// each way, and nothing else is in the sheet.
pub proof fn cells_lie_behind_those_before_them(e: ElementV)
    requires
        places_before(
            kids_of(e, "table-row"@),
            "number-rows-repeated"@,
            kids_of(e, "table-row"@).len() as int,
        ) <= u64::MAX,
        forall|a: int|
            0 <= a < kids_of(e, "table-row"@).len() ==> places_before(
                cells_of_row(#[trigger] kids_of(e, "table-row"@)[a]),
                "number-columns-repeated"@,
                cells_of_row(kids_of(e, "table-row"@)[a]).len() as int,
            ) <= u64::MAX,
    ensures
        forall|a: int, b: int, r: int, c: int| #[trigger]
            is_at(kids_of(e, "table-row"@), "number-rows-repeated"@, a, r) && #[trigger] shows_in(
                cells_of_row(kids_of(e, "table-row"@)[a]),
                b,
                c,
            ) ==> has_text(
                sheet_cells(e),
                r,
                c,
                sheet_text(cells_of_row(kids_of(e, "table-row"@)[a])[b]),
            ),
        forall|r: int, c: int| #[trigger]
            sheet_cells(e).contains_key((r, c)) ==> is_shown(
                kids_of(e, "table-row"@),
                kids_of(e, "table-row"@).len() as int,
                r,
                c,
            ),
{
    rows_of_a_sheet(kids_of(e, "table-row"@), 0, Map::empty());
}

} // verus!
