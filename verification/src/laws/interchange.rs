//! Laws of the DIF, SYLK and dBase readers.

use crate::bytes::{u16_at, u32_at};
use crate::interchange::{
    after_comma, ansi, before_comma, dbf_field, dbf_fields, dbf_row, dbf_rows, dbf_table, dbf_value,
    dif_cells, is_marker, name_end, sylk_cells, sylk_fields, sylk_place, total_width, unquoted,
    Cells, DbfFieldV, PlaceV,
};
use crate::sheet::CellV;
use crate::text::{index_from, is_digit, lstrip, rstrip, strip, uint, white};
use vstd::prelude::*;

verus! {

/// A logical field whose text without the white space around it is `T`, `t`,
/// `Y` or `y` is true, one with `F`, `f`, `N` or `n` is false, and any other
/// one shows nothing.
pub proof fn logical_fields_are_true_or_false(raw: Seq<u8>)
    ensures
        forall|c: char|
            (c == 'T' || c == 't' || c == 'Y' || c == 'y') && strip(ansi(raw)) == #[trigger] seq![c]
                ==> dbf_value(0x4c, raw) == "true"@,
        forall|c: char|
            (c == 'F' || c == 'f' || c == 'N' || c == 'n') && strip(ansi(raw)) == #[trigger] seq![c]
                ==> dbf_value(0x4c, raw) == "false"@,
        strip(ansi(raw)).len() != 1 ==> dbf_value(0x4c, raw).len() == 0,
        dbf_value(0x4c, raw).len() > 0 ==> dbf_value(0x4c, raw) == seq!['t', 'r', 'u', 'e']
            || dbf_value(0x4c, raw) == seq!['f', 'a', 'l', 's', 'e'],
{
    reveal_strlit("T");
    reveal_strlit("t");
    reveal_strlit("Y");
    reveal_strlit("y");
    reveal_strlit("F");
    reveal_strlit("f");
    reveal_strlit("N");
    reveal_strlit("n");
    reveal_strlit("true");
    reveal_strlit("false");
    assert("true"@ =~= seq!['t', 'r', 'u', 'e']);
    assert("false"@ =~= seq!['f', 'a', 'l', 's', 'e']);
    let t = strip(ansi(raw));
    if t.len() == 1 {
        let c = t[0];
        assert(t =~= seq![c]);
        assert(t == "T"@ <==> c == 'T') by {
            if c == 'T' {
                assert(t =~= "T"@);
            }
        }
        assert(t == "t"@ <==> c == 't') by {
            if c == 't' {
                assert(t =~= "t"@);
            }
        }
        assert(t == "Y"@ <==> c == 'Y') by {
            if c == 'Y' {
                assert(t =~= "Y"@);
            }
        }
        assert(t == "y"@ <==> c == 'y') by {
            if c == 'y' {
                assert(t =~= "y"@);
            }
        }
        assert(t == "F"@ <==> c == 'F') by {
            if c == 'F' {
                assert(t =~= "F"@);
            }
        }
        assert(t == "f"@ <==> c == 'f') by {
            if c == 'f' {
                assert(t =~= "f"@);
            }
        }
        assert(t == "N"@ <==> c == 'N') by {
            if c == 'N' {
                assert(t =~= "N"@);
            }
        }
        assert(t == "n"@ <==> c == 'n') by {
            if c == 'n' {
                assert(t =~= "n"@);
            }
        }
    }
}

/// A logical field of one byte, by the byte.
pub proof fn logical_bytes(b: u8)
    ensures
        b == 0x54 || b == 0x74 || b == 0x59 || b == 0x79 ==> dbf_value(0x4c, seq![b]) == "true"@,
        b == 0x46 || b == 0x66 || b == 0x4e || b == 0x6e ==> dbf_value(0x4c, seq![b]) == "false"@,
        b == 0x20 || b == 0x3f ==> dbf_value(0x4c, seq![b]).len() == 0,
{
    logical_fields_are_true_or_false(seq![b]);
    if b < 0x80 {
        let t = ansi(seq![b]);
        assert(t =~= seq![b as char]);
        reveal_with_fuel(lstrip, 2);
        reveal_with_fuel(rstrip, 2);
        assert(seq![b as char][0] == b as char);
        assert(b == 0x20 ==> t.drop_first().len() == 0);
        reveal_strlit("T");
        reveal_strlit("t");
        reveal_strlit("Y");
        reveal_strlit("y");
        reveal_strlit("F");
        reveal_strlit("f");
        reveal_strlit("N");
        reveal_strlit("n");
    }
}

/// A date field of eight digits shows the year, the month and the day with
/// dashes between them.
pub proof fn dates_show_year_month_and_day(raw: Seq<u8>)
    requires
        strip(ansi(raw)).len() == 8,
        forall|i: int| 0 <= i < 8 ==> is_digit(#[trigger] strip(ansi(raw))[i]),
    ensures
        dbf_value(0x44, raw).len() == 10,
        dbf_value(0x44, raw)[4] == '-',
        dbf_value(0x44, raw)[7] == '-',
        forall|i: int| 0 <= i < 4 ==> #[trigger] dbf_value(0x44, raw)[i] == strip(ansi(raw))[i],
        forall|i: int|
            5 <= i < 7 ==> #[trigger] dbf_value(0x44, raw)[i] == strip(ansi(raw))[i - 1],
        forall|i: int|
            8 <= i < 10 ==> #[trigger] dbf_value(0x44, raw)[i] == strip(ansi(raw))[i - 2],
{
}

/// A character or number field shows its text without the white space around
/// it, and a memo field shows nothing.
pub proof fn texts_are_trimmed_and_memos_empty(raw: Seq<u8>)
    ensures
        dbf_value(0x43, raw) == strip(ansi(raw)),
        dbf_value(0x4e, raw) == strip(ansi(raw)),
        dbf_value(0x46, raw) == strip(ansi(raw)),
        dbf_value(0x4d, raw).len() == 0,
{
}

// ------------------------------------------------------------ dBase tables

/// The widths of the first `j` fields of a dBase file together: byte sixteen
/// of each descriptor.
pub open spec fn widths_before(d: Seq<u8>, j: int) -> int
    decreases j,
{
    if j <= 0 {
        0
    } else {
        widths_before(d, j - 1) + d[32 * j + 16]
    }
}

/// The records among the first `n` that no asterisk marks as deleted, by
/// their places.
pub open spec fn kept(d: Seq<u8>, start: int, size: int, n: int) -> Seq<int>
    decreases n,
{
    if n <= 0 {
        seq![]
    } else if d[start + (n - 1) * size] == '*' as u8 {
        kept(d, start, size, n - 1)
    } else {
        kept(d, start, size, n - 1).push(n - 1)
    }
}

/// Whether the descriptor `j` describes a field.
spec fn describes(d: Seq<u8>, j: int) -> bool {
    d[32 + 32 * j] != 0x0d
}

proof fn fields_by_place(d: Seq<u8>, k: int, n: int, end: int, done: Seq<DbfFieldV>)
    requires
        0 <= k <= n,
        done.len() == k,
        32 + 32 * n <= end <= d.len(),
        end < 32 + 32 * n + 32 || d[32 + 32 * n] == 0x0d,
        forall|j: int| 0 <= j < n ==> #[trigger] describes(d, j),
        forall|j: int| 0 <= j < k ==> #[trigger] done[j] == dbf_field(d, 32 + 32 * j),
    ensures
        dbf_fields(d, 32 + 32 * k, end, done).len() == n,
        forall|j: int|
            0 <= j < n ==> #[trigger] dbf_fields(d, 32 + 32 * k, end, done)[j] == dbf_field(
                d,
                32 + 32 * j,
            ),
    decreases n - k,
{
    if k < n {
        let f = dbf_field(d, 32 + 32 * k);
        assert(describes(d, k));
        fields_by_place(d, k + 1, n, end, done.push(f));
        assert(32 + 32 * (k + 1) == 32 + 32 * k + 32);
    }
}

proof fn widths_add_up(d: Seq<u8>, f: Seq<DbfFieldV>)
    requires
        forall|j: int| 0 <= j < f.len() ==> #[trigger] f[j] == dbf_field(d, 32 + 32 * j),
    ensures
        total_width(f) == widths_before(d, f.len() as int),
    decreases f.len(),
{
    if f.len() > 0 {
        assert forall|j: int| 0 <= j < f.drop_last().len() implies #[trigger] f.drop_last()[j]
            == dbf_field(d, 32 + 32 * j) by {
            assert(f.drop_last()[j] == f[j]);
        }
        widths_add_up(d, f.drop_last());
        assert(f.last() == f[f.len() - 1]);
    }
}

proof fn row_by_place(d: Seq<u8>, f: Seq<DbfFieldV>, k: int, at: int, done: Seq<Seq<char>>)
    requires
        0 <= k <= f.len(),
        done.len() == k,
        forall|j: int| 0 <= j < f.len() ==> #[trigger] f[j] == dbf_field(d, 32 + 32 * j),
        forall|j: int| 0 <= j < k ==> #[trigger] done[j] == shown_field(d, at, j),
    ensures
        dbf_row(d, f, k, at + widths_before(d, k), done).len() == f.len(),
        forall|j: int|
            0 <= j < f.len() ==> #[trigger] dbf_row(d, f, k, at + widths_before(d, k), done)[j]
                == shown_field(d, at, j),
    decreases f.len() - k,
{
    if k < f.len() {
        let p = at + widths_before(d, k);
        assert(f[k] == dbf_field(d, 32 + 32 * k));
        assert(widths_before(d, k + 1) == widths_before(d, k) + d[32 * (k + 1) + 16]);
        let next = done.push(dbf_value(f[k].kind, d.subrange(p, p + f[k].width)));
        assert(next[k] == shown_field(d, at, k));
        row_by_place(d, f, k + 1, at, next);
    }
}

/// What the field `j` of the record whose first field stands at `at` shows:
/// its bytes lie behind those of the fields before it, and byte eleven of its
/// descriptor is its kind.
pub open spec fn shown_field(d: Seq<u8>, at: int, j: int) -> Seq<char> {
    dbf_value(
        d[32 + 32 * j + 11],
        d.subrange(at + widths_before(d, j), at + widths_before(d, j + 1)),
    )
}

proof fn rows_by_place(
    d: Seq<u8>,
    f: Seq<DbfFieldV>,
    size: int,
    start: int,
    i: int,
    n: int,
    done: Seq<Seq<Seq<char>>>,
)
    requires
        0 <= i <= n,
        0 <= size,
        start + n * size <= d.len(),
        done.len() == 1 + kept(d, start, size, i).len(),
        forall|q: int|
            0 <= q < kept(d, start, size, i).len() ==> #[trigger] done[q + 1] == dbf_row(
                d,
                f,
                0,
                start + kept(d, start, size, i)[q] * size + 1,
                seq![],
            ),
    ensures
        ({
            let r = dbf_rows(d, f, size, start + i * size, n - i, done);
            &&& r.len() == 1 + kept(d, start, size, n).len()
            &&& r[0] == done[0]
            &&& forall|q: int|
                0 <= q < kept(d, start, size, n).len() ==> #[trigger] r[q + 1] == dbf_row(
                    d,
                    f,
                    0,
                    start + kept(d, start, size, n)[q] * size + 1,
                    seq![],
                )
        }),
    decreases n - i,
{
    if i < n {
        assert((i + 1) * size == i * size + size) by (nonlinear_arith);
        assert((i + 1) * size <= n * size) by (nonlinear_arith)
            requires
                i + 1 <= n,
                0 <= size,
        ;
        let at = start + i * size;
        let before = kept(d, start, size, i);
        if d[at] == 0x2a {
            rows_by_place(d, f, size, start, i + 1, n, done);
        } else {
            let row = dbf_row(d, f, 0, at + 1, seq![]);
            let next = done.push(row);
            let now = kept(d, start, size, i + 1);
            assert(now == before.push(i));
            assert forall|q: int| 0 <= q < now.len() implies #[trigger] next[q + 1] == dbf_row(
                d,
                f,
                0,
                start + now[q] * size + 1,
                seq![],
            ) by {
                if q < before.len() {
                    assert(done[q + 1] == next[q + 1]);
                }
            }
            rows_by_place(d, f, size, start, i + 1, n, next);
        }
    }
}

/// A dBase file of `n` descriptors of 32 bytes each behind a head of 32 bytes
/// shows a row of their names, and then, in the order of the file, a row for
/// each record that no asterisk marks as deleted: each field shows the bytes
/// behind the mark and the fields before it, by the kind in its descriptor.
pub proof fn each_record_is_a_row(d: Seq<u8>, n: int, count: int, header: int, size: int)
    requires
        0 < n,
        32 + 32 * n <= header <= d.len(),
        header < 32 + 32 * n + 32 || d[32 + 32 * n] == 0x0d,
        forall|j: int| 0 <= j < n ==> #[trigger] d[32 + 32 * j] != 0x0d,
        header == d[8] + 256 * d[9],
        size == d[10] + 256 * d[11],
        size == 1 + widths_before(d, n),
        count == d[4] + 256 * d[5] + 65536 * d[6] + 16777216 * d[7],
        header + count * size <= d.len(),
    ensures
        ({
            let records = kept(d, header, size, count);
            &&& dbf_table(d) matches Ok(rows)
            &&& rows.len() == 1 + records.len()
            &&& rows[0].len() == n
            &&& forall|j: int|
                0 <= j < n ==> #[trigger] rows[0][j] == dbf_field(d, 32 + 32 * j).name
            &&& forall|q: int, j: int|
                0 <= q < records.len() && 0 <= j < n ==> #[trigger] rows[q + 1][j] == shown_field(
                    d,
                    header + records[q] * size + 1,
                    j,
                )
            &&& forall|q: int| 0 <= q < records.len() ==> (#[trigger] rows[q + 1]).len() == n
        }),
{
    let f = dbf_fields(d, 32, header, seq![]);
    assert forall|j: int| 0 <= j < n implies #[trigger] describes(d, j) by {
        assert(d[32 + 32 * j] != 0x0d);
    }
    fields_by_place(d, 0, n, header, seq![]);
    widths_add_up(d, f);
    let names = Seq::new(f.len(), |i: int| f[i].name);
    assert(count * size >= 0) by (nonlinear_arith)
        requires
            count >= 0,
            size >= 0,
    ;
    rows_by_place(d, f, size, header, 0, count, seq![names]);
    assert(u16_at(d, 8) == header);
    assert(u16_at(d, 10) == size);
    assert(u32_at(d, 4) == count);
    assert(dbf_table(d) is Ok);
    let rows = dbf_table(d)->Ok_0;
    let records = kept(d, header, size, count);
    assert forall|q: int, j: int| 0 <= q < records.len() && 0 <= j < n implies #[trigger] rows[q
        + 1][j] == shown_field(d, header + records[q] * size + 1, j) by {
        row_by_place(d, f, 0, header + records[q] * size + 1, seq![]);
    }
    assert forall|q: int| 0 <= q < records.len() implies (#[trigger] rows[q + 1]).len() == n by {
        row_by_place(d, f, 0, header + records[q] * size + 1, seq![]);
    }
}

/// The name of a field is the bytes of its descriptor before the first zero
/// among the first eleven.
pub proof fn names_end_at_the_first_zero(d: Seq<u8>, off: int, n: int)
    requires
        0 <= n <= 11,
        forall|k: int| 0 <= k < n ==> #[trigger] d[off + k] != 0,
        n < 11 ==> d[off + n] == 0,
    ensures
        dbf_field(d, off).name == ansi(d.subrange(off, off + n)),
{
    name_ends(d, off, 0, n);
}

proof fn name_ends(d: Seq<u8>, off: int, k: int, n: int)
    requires
        0 <= k <= n <= 11,
        forall|q: int| 0 <= q < n ==> #[trigger] d[off + q] != 0,
        n < 11 ==> d[off + n] == 0,
    ensures
        name_end(d, off + k, off + 11) == off + n,
    decreases n - k,
{
    if k < n {
        assert(d[off + k] != 0);
        name_ends(d, off, k + 1, n);
    }
}

// ------------------------------------------------------------ SYLK

/// Whether a record places a cell: `C`, a column `X`, a row `Y` and a value
/// `K`, in this order.
pub open spec fn places(fields: Seq<Seq<char>>, x: int, y: int, value: Seq<char>) -> bool {
    &&& fields.len() == 4
    &&& fields[0] == seq!['C']
    &&& fields[1].len() > 0 && fields[1][0] == 'X' && uint(fields[1].skip(1), u64::MAX as int)
        == Some(x)
    &&& fields[2].len() > 0 && fields[2][0] == 'Y' && uint(fields[2].skip(1), u64::MAX as int)
        == Some(y)
    &&& fields[3] == seq!['K'] + value
}

/// A SYLK record puts its value in the row of its `Y` and the column of its
/// `X`: a quoted value as a text without the quotes, another one as a number.
/// The records behind it go on from there.
pub proof fn records_place_cells_by_row_and_column(
    lines: Seq<Seq<char>>,
    i: int,
    x0: int,
    y0: int,
    cells: Cells,
    x: int,
    y: int,
    value: Seq<char>,
)
    requires
        0 <= i < lines.len(),
        places(sylk_fields(lines[i]), x, y, value),
        value.len() > 0,
    ensures
        value[0] != '"' ==> sylk_cells(lines, i, x0, y0, cells) == sylk_cells(
            lines,
            i + 1,
            x,
            y,
            cells.insert((y, x), CellV::Numeral(value)),
        ),
        forall|t: Seq<char>|
            value == seq!['"'] + t + seq!['"'] && #[trigger] t.len() > 0 ==> sylk_cells(
                lines,
                i,
                x0,
                y0,
                cells,
            ) == sylk_cells(lines, i + 1, x, y, cells.insert((y, x), CellV::Text(t))),
{
    let f = sylk_fields(lines[i]);
    reveal_with_fuel(sylk_place, 4);
    assert(f[3][0] == 'K');
    assert(f[3].skip(1) =~= value);
    let p = sylk_place(f, 1, PlaceV { x: x0, y: y0, value: None });
    assert(p.x == x && p.y == y);
    assert forall|t: Seq<char>|
        value == seq!['"'] + t + seq!['"'] && #[trigger] t.len() > 0 implies sylk_cells(
        lines,
        i,
        x0,
        y0,
        cells,
    ) == sylk_cells(lines, i + 1, x, y, cells.insert((y, x), CellV::Text(t))) by {
        assert(value.skip(1).drop_last() =~= t);
    }
}

/// A coordinate that a SYLK record leaves out is that of the record before.
pub proof fn missing_coordinates_repeat(
    lines: Seq<Seq<char>>,
    i: int,
    x0: int,
    y0: int,
    cells: Cells,
    c: char,
    n: int,
    value: Seq<char>,
)
    requires
        0 <= i < lines.len(),
        ({
            let f = sylk_fields(lines[i]);
            &&& f.len() == 3
            &&& f[0] == seq!['C']
            &&& f[1].len() > 0 && f[1][0] == c && uint(f[1].skip(1), u64::MAX as int) == Some(n)
            &&& f[2] == seq!['K'] + value
        }),
        c == 'X' || c == 'Y',
        value.len() > 0,
        value[0] != '"',
    ensures
        c == 'X' ==> sylk_cells(lines, i, x0, y0, cells) == sylk_cells(
            lines,
            i + 1,
            n,
            y0,
            cells.insert((y0, n), CellV::Numeral(value)),
        ),
        c == 'Y' ==> sylk_cells(lines, i, x0, y0, cells) == sylk_cells(
            lines,
            i + 1,
            x0,
            n,
            cells.insert((n, x0), CellV::Numeral(value)),
        ),
{
    let f = sylk_fields(lines[i]);
    reveal_with_fuel(sylk_place, 3);
    assert(f[2][0] == 'K');
    assert(f[2].skip(1) =~= value);
}

// ------------------------------------------------------------ DIF

/// Whether the two lines at `at` write a cell: a text stands in quotes behind
/// a line `1,0`, a number behind the comma of a line `0,` that `V` follows.
pub open spec fn writes(lines: Seq<Seq<char>>, at: int, cell: CellV) -> bool {
    &&& at + 1 < lines.len()
    &&& match cell {
        CellV::Text(t) => lines[at] == "1,0"@ && lines[at + 1] == seq!['"'] + t + seq!['"']
            && t.len() > 0,
        CellV::Numeral(s) => lines[at] == "0,"@ + s && lines[at + 1] == "V"@ && s.len() > 0
            && !white(s[0]) && !white(s.last()),
        _ => false,
    }
}

/// Whether the lines from `i` on write a table of `cols` columns: each row is
/// a line `-1,0` with `BOT` behind it and then two lines for each cell.
pub open spec fn writes_table(
    lines: Seq<Seq<char>>,
    i: int,
    table: Seq<Seq<CellV>>,
    cols: int,
) -> bool {
    &&& i + table.len() * (2 + 2 * cols) <= lines.len()
    &&& forall|r: int|
        0 <= r < table.len() ==> (#[trigger] table[r]).len() == cols && lines[i + r * (2 + 2
            * cols)] == "-1,0"@ && lines[i + r * (2 + 2 * cols) + 1] == "BOT"@
    &&& forall|r: int, c: int|
        0 <= r < table.len() && 0 <= c < cols ==> writes(
            lines,
            i + r * (2 + 2 * cols) + 2 + 2 * c,
            #[trigger] table[r][c],
        )
}

/// Whether a sheet has a cell at a row and a column.
pub open spec fn has_cell(m: Cells, row: int, col: int, cell: CellV) -> bool {
    m.contains_key((row, col)) && m[(row, col)] == cell
}

/// Whether the cells of a sheet are those of a table before a place: all rows
/// before `r`, and row `r` before column `c`.
pub open spec fn holds(m: Cells, table: Seq<Seq<CellV>>, cols: int, r: int, c: int) -> bool {
    forall|a: int, b: int|
        0 <= a && 0 <= b < cols && (a < r || a == r && b < c) ==> #[trigger] has_cell(
            m,
            a,
            b,
            table[a][b],
        )
}

/// A text before a comma, without white space of its own.
proof fn before_a_comma(k: Seq<char>, rest: Seq<char>)
    requires
        0 < k.len() <= 2,
        forall|q: int| 0 <= q < k.len() ==> !white(#[trigger] k[q]) && k[q] != ',',
    ensures
        strip(before_comma(k + seq![','] + rest)) == k,
        after_comma(k + seq![','] + rest) == rest,
{
    let s = k + seq![','] + rest;
    reveal_with_fuel(index_from, 4);
    assert(s[0] == k[0]);
    assert(k.len() == 2 ==> s[1] == k[1]);
    assert(s[k.len() as int] == ',');
    assert(index_from(s, ',', 0) == k.len());
    assert(s.take(k.len() as int) =~= k);
    assert(s.skip(k.len() as int + 1) =~= rest);
    assert(!white(k[0]));
    assert(!white(k.last()));
}

proof fn dif_line_kinds(s: Seq<char>)
    ensures
        strip(before_comma("-1,0"@)) == "-1"@,
        strip(before_comma("1,0"@)) == "1"@,
        strip(before_comma("0,"@ + s)) == "0"@,
        after_comma("0,"@ + s) == s,
        "-1"@ != "0"@,
        "-1"@ != "1"@,
        "0"@ != "1"@,
        strip("BOT"@) == "BOT"@,
        !is_marker(strip("V"@)),
{
    reveal_strlit("-1,0");
    reveal_strlit("1,0");
    reveal_strlit("0,");
    reveal_strlit("-1");
    reveal_strlit("0");
    reveal_strlit("1");
    reveal_strlit("BOT");
    reveal_strlit("V");
    reveal_strlit("NA");
    reveal_strlit("ERROR");
    reveal_strlit("TRUE");
    reveal_strlit("FALSE");
    let zero = seq!['0'];
    before_a_comma("-1"@, zero);
    before_a_comma("1"@, zero);
    before_a_comma("0"@, s);
    assert("-1,0"@ =~= "-1"@ + seq![','] + zero);
    assert("1,0"@ =~= "1"@ + seq![','] + zero);
    assert("0,"@ + s =~= "0"@ + seq![','] + s);
    assert("-1"@.len() == 2 && "0"@.len() == 1 && "1"@.len() == 1);
    assert("0"@[0] == '0' && "1"@[0] == '1');
    assert(!white('B') && !white('T') && !white('V'));
    assert("BOT"@[0] == 'B' && "BOT"@.last() == 'T');
    assert("V"@[0] == 'V' && "V"@.last() == 'V');
    assert("V"@.len() == 1 && "NA"@.len() == 2 && "ERROR"@.len() == 5 && "TRUE"@.len() == 4
        && "FALSE"@.len() == 5);
}

proof fn a_written_cell_is_put(
    lines: Seq<Seq<char>>,
    i: int,
    row: int,
    col: int,
    cells: Cells,
    cell: CellV,
)
    requires
        0 <= i,
        writes(lines, i, cell),
    ensures
        dif_cells(lines, i, row, col, true, cells) == dif_cells(
            lines,
            i + 2,
            row,
            col + 1,
            true,
            cells.insert((row, col), cell),
        ),
{
    match cell {
        CellV::Text(t) => {
            dif_line_kinds(seq![]);
            let q = seq!['"'] + t + seq!['"'];
            assert(!white('"'));
            assert(q[0] == '"' && q.last() == '"');
            assert(strip(q) == q);
            assert(q.skip(1).drop_last() =~= t);
            assert(unquoted(q) == t);
        },
        CellV::Numeral(s) => {
            dif_line_kinds(s);
            assert(strip(s) == s);
        },
        _ => {},
    }
}

proof fn rows_are_done(m: Cells, table: Seq<Seq<CellV>>, cols: int, r: int)
    requires
        holds(m, table, cols, r, cols),
    ensures
        holds(m, table, cols, r + 1, 0),
{
    assert forall|a: int, b: int|
        0 <= a && 0 <= b < cols && (a < r + 1 || a == r + 1 && b < 0) implies #[trigger] has_cell(
        m,
        a,
        b,
        table[a][b],
    ) by {
        assert(a < r || a == r && b < cols);
    }
}

proof fn written_rows(
    lines: Seq<Seq<char>>,
    i: int,
    table: Seq<Seq<CellV>>,
    cols: int,
    r: int,
    c: int,
    cells: Cells,
)
    requires
        0 <= i,
        0 <= c <= cols,
        0 <= r < table.len(),
        writes_table(lines, i, table, cols),
        i + table.len() * (2 + 2 * cols) == lines.len(),
        holds(cells, table, cols, r, c),
    ensures
        holds(
            dif_cells(lines, i + r * (2 + 2 * cols) + 2 + 2 * c, r, c, true, cells),
            table,
            cols,
            table.len() as int,
            0,
        ),
    decreases table.len() - r, cols - c,
{
    let w = 2 + 2 * cols;
    let at = i + r * w + 2 + 2 * c;
    assert((r + 1) * w == r * w + w) by (nonlinear_arith);
    assert(r * w >= 0) by (nonlinear_arith)
        requires
            r >= 0,
            w >= 0,
    ;
    assert((r + 1) * w <= table.len() * w) by (nonlinear_arith)
        requires
            r + 1 <= table.len(),
            w >= 0,
    ;
    if c < cols {
        let cell = table[r][c];
        assert(writes(lines, at, cell));
        a_written_cell_is_put(lines, at, r, c, cells, cell);
        let next = cells.insert((r, c), cell);
        assert forall|a: int, b: int|
            0 <= a && 0 <= b < cols && (a < r || a == r && b < c + 1) implies #[trigger] has_cell(
            next,
            a,
            b,
            table[a][b],
        ) by {
            if !(a == r && b == c) {
                assert(has_cell(cells, a, b, table[a][b]));
            }
        }
        written_rows(lines, i, table, cols, r, c + 1, next);
    } else if r + 1 < table.len() {
        assert(table[r + 1].len() == cols);
        assert(at == i + (r + 1) * w);
        assert((r + 2) * w == (r + 1) * w + w) by (nonlinear_arith);
        assert((r + 2) * w <= table.len() * w) by (nonlinear_arith)
            requires
                r + 2 <= table.len(),
                w >= 0,
        ;
        dif_line_kinds(seq![]);
        assert(lines[at] == "-1,0"@);
        assert(dif_cells(lines, at, r, c, true, cells) == dif_cells(
            lines,
            at + 2,
            r + 1,
            0,
            true,
            cells,
        ));
        rows_are_done(cells, table, cols, r);
        written_rows(lines, i, table, cols, r + 1, 0, cells);
    } else {
        assert(at == lines.len());
        rows_are_done(cells, table, cols, r);
        assert(dif_cells(lines, at, r, c, true, cells) == cells);
    }
}

/// A DIF table reads back as it was written: the `c`-th cell of the `r`-th
/// row lies at row `r` and column `c`, texts as texts and numbers as numbers.
pub proof fn written_tables_read_back(
    lines: Seq<Seq<char>>,
    i: int,
    table: Seq<Seq<CellV>>,
    cols: int,
)
    requires
        0 <= i,
        0 <= cols,
        writes_table(lines, i, table, cols),
        i + table.len() * (2 + 2 * cols) == lines.len(),
    ensures
        holds(
            dif_cells(lines, i, 0, 0, false, Map::empty()),
            table,
            cols,
            table.len() as int,
            0,
        ),
{
    if table.len() > 0 {
        dif_line_kinds(seq![]);
        assert(table[0].len() == cols);
        assert(0 * (2 + 2 * cols) == 0);
        assert(table.len() * (2 + 2 * cols) >= 2 + 2 * cols) by (nonlinear_arith)
            requires
                table.len() >= 1,
                cols >= 0,
        ;
        written_rows(lines, i, table, cols, 0, 0, Map::empty());
    }
}

} // verus!
