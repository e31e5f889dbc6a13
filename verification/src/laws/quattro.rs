//! Laws of Quattro Pro sheets: where the cells of a record lie and what they
//! show.

use crate::bytes::u32_at;
use crate::quattro::{
    dos_book, dos_cell, has_string, label, packed, pascal_label, put, put_run, read_zone, run_at,
    run_cell, string_text, windows_book, windows_cell, workbook, Book, Content, Progress,
    QuattroError, RunV,
};
use crate::sheet::{CellV, Num};
use vstd::prelude::*;

verus! {

/// The signed number of two bytes, the lower one first.
pub open spec fn signed_of(a: u8, b: u8) -> int {
    a + 256 * (if b < 128 {
        b as int
    } else {
        b - 256
    })
}

/// A cell of the Windows format lies in the column of its first byte, on the
/// sheet of its second one and in the row of the two bytes behind them.
pub proof fn windows_cells_lie_by_column_sheet_and_row(op: int, p: Seq<u8>)
    requires
        p.len() >= 6,
    ensures
        windows_cell(op, p) matches Some(x) ==> {
            &&& x.col == p[0]
            &&& x.sheet == p[1]
            &&& x.row == p[2] + 256 * p[3]
        },
        op == 0x0d && p.len() >= 8 ==> (windows_cell(op, p) matches Some(x) && x.cell
            == CellV::Number(Num::Int(signed_of(p[6], p[7]) as i64))),
        (op == 0x0f || op == 0x33) && p.len() > 6 ==> (windows_cell(op, p) matches Some(x) && x.cell
            == CellV::Text(label(p.skip(7), false))),
{
    let d = p.skip(6);
    if p.len() >= 8 {
        assert(d[0] == p[6] && d[1] == p[7]);
    }
    if p.len() > 6 {
        assert(d.skip(1) =~= p.skip(7));
    }
}

/// A cell of the DOS format lies in the same way; the first version has one
/// more byte in front and one less behind.
pub proof fn dos_cells_lie_by_column_sheet_and_row(op: int, p: Seq<u8>)
    requires
        p.len() >= 6,
    ensures
        dos_cell(op, p, 2) matches Some(x) ==> {
            &&& x.col == p[0]
            &&& x.sheet == p[1]
            &&& x.row == p[2] + 256 * p[3]
            &&& p[3] < 128
        },
        dos_cell(op, p, 1) matches Some(x) ==> {
            &&& x.col == p[1]
            &&& x.sheet == p[2]
            &&& x.row == p[3] + 256 * p[4]
            &&& p[4] < 128
        },
        op == 0x0d && p.len() >= 8 && p[3] < 128 ==> (dos_cell(op, p, 2) matches Some(x) && x.cell
            == CellV::Number(Num::Int(signed_of(p[6], p[7]) as i64))),
        op == 0x0d && p.len() >= 8 && p[4] < 128 ==> (dos_cell(op, p, 1) matches Some(x) && x.cell
            == CellV::Number(Num::Int(signed_of(p[5], p[6]) as i64))),
        op == 0x0f && p.len() > 6 && p[3] < 128 ==> (dos_cell(op, p, 2) matches Some(x) && x.cell
            == CellV::Text(pascal_label(p.skip(7), true))),
{
    let d = p.skip(6);
    let e = p.skip(5);
    assert(e[0] == p[5]);
    if p.len() >= 8 {
        assert(d[0] == p[6] && d[1] == p[7]);
        assert(e[1] == p[6]);
    }
    if p.len() > 6 {
        assert(d.skip(1) =~= p.skip(7));
    }
}

/// A packed number whose lowest bits are ten is a whole number of thirty bits
/// with a sign.
pub proof fn packed_integers_have_thirty_bits(n: int)
    requires
        -0x2000_0000 <= n < 0x2000_0000,
    ensures
        packed(4 * (if n < 0 {
            n + 0x4000_0000
        } else {
            n
        }) + 2) == Some(Num::Int(n as i64)),
{
}

/// A text with its length in front is as many bytes as the length says.
pub proof fn lengths_stand_before_texts(n: u8, d: Seq<u8>, dos: bool)
    requires
        n <= d.len(),
    ensures
        pascal_label(seq![n] + d, dos) == label(d.take(n as int), dos),
{
    let s = seq![n] + d;
    assert(s[0] == n);
    assert(s.drop_first() =~= d);
}

/// A label shows its characters up to the first zero; a tab or a line break is
/// a space, and other control characters are gone.
pub proof fn labels_end_at_a_zero(b: u8, d: Seq<u8>, dos: bool)
    ensures
        b == 0 ==> label(seq![b] + d, dos).len() == 0,
        0x20 <= b < 0x80 ==> label(seq![b] + d, dos) == seq![b as char] + label(d, dos),
        b == 0x09 || b == 0x0d ==> label(seq![b] + d, dos) == seq![' '] + label(d, dos),
        0 < b < 0x20 && b != 0x09 && b != 0x0d ==> label(seq![b] + d, dos) == label(d, dos),
{
    let s = seq![b] + d;
    assert(s[0] == b);
    assert(s.drop_first() =~= d);
    assert(Seq::<char>::empty() + label(d, dos) =~= label(d, dos));
}

// ------------------------------------------------------------ zones

/// A zone that names a sheet or a column sets it for the zones behind it, and
/// a text zone puts a text in its row and column.
pub proof fn zones_set_sheet_and_column(p: Seq<u8>, s: Progress)
    requires
        p.len() >= 2,
    ensures
        read_zone(0x601, p, s).sheet == p[0] + 256 * p[1],
        read_zone(0x601, p, s).col == s.col,
        read_zone(0x601, p, s).book == s.book,
        read_zone(0xa01, p, s).col == p[0] + 256 * p[1],
        read_zone(0xa01, p, s).sheet == s.sheet,
        read_zone(0xa01, p, s).book == s.book,
        p.len() >= 6 && has_string(p, 6) && string_text(p, 6).len() > 0
            ==> read_zone(0xc02, p, s).book == put(
            s.book,
            s.sheet,
            p[2] + 256 * p[3] + 65536 * p[4] + 16777216 * p[5],
            p[0] + 256 * p[1],
            CellV::Text(string_text(p, 6)),
        ),
{
}

/// The head of a run says its kind in the lower five bits, and in the two bits
/// above whether it is one cell, a list of cells or a row of steps.
pub proof fn run_heads_say_kind_and_count(p: Seq<u8>, at: int, kind: int)
    requires
        0 <= at,
        at + 7 <= p.len(),
        at + 3 + 2 * (p[at + 1] + 256 * p[at + 2]) <= p.len(),
        kind == 2 || kind == 3,
    ensures
        p[at] == 0x40 + kind ==> run_at(p, at) == Some(
            RunV {
                kind,
                n: p[at + 1] + 256 * p[at + 2],
                step: false,
                base: at + 3,
                next: at + 3 + 2 * (p[at + 1] + 256 * p[at + 2]),
            },
        ),
        p[at] == 0x60 + kind ==> run_at(p, at) == Some(
            RunV {
                kind,
                n: p[at + 1] + 256 * p[at + 2],
                step: true,
                base: at + 3,
                next: at + 7,
            },
        ),
        p[at] == kind ==> run_at(p, at) == Some(
            RunV { kind, n: 1, step: false, base: at + 1, next: at + 3 },
        ),
{
}

/// The cells of a list of numbers are the numbers one behind the other, and
/// those of a row of steps go on by the second number.
pub proof fn runs_of_numbers(p: Seq<u8>, r: RunV, strings: Seq<Seq<char>>, k: int)
    requires
        0 <= k < 0x10000,
    ensures
        r.kind == 2 && !r.step ==> run_cell(p, r, strings, k) == Some(
            CellV::Number(
                Num::Int((p[r.base + 2 * k] + 256 * p[r.base + 2 * k + 1]) as i64),
            ),
        ),
        r.kind == 3 && !r.step ==> run_cell(p, r, strings, k) == Some(
            CellV::Number(
                Num::Int(signed_of(p[r.base + 2 * k], p[r.base + 2 * k + 1]) as i64),
            ),
        ),
        r.kind == 3 && r.step ==> run_cell(p, r, strings, k) == Some(
            CellV::Number(
                Num::Int(
                    (signed_of(p[r.base], p[r.base + 1]) + k * signed_of(
                        p[r.base + 2],
                        p[r.base + 3],
                    )) as i64,
                ),
            ),
        ),
        r.kind == 7 && !r.step && 1 <= u32_at(p, r.base + 4 * k) <= strings.len() ==> run_cell(
            p,
            r,
            strings,
            k,
        ) == Some(CellV::Text(strings[u32_at(p, r.base + 4 * k) - 1])),
        r.kind == 1 ==> run_cell(p, r, strings, k) is None,
{
}

/// Whether a sheet of a book has a cell at a row and a column.
pub open spec fn has_cell(book: Book, sheet: u16, row: int, col: int, cell: CellV) -> bool {
    book.contains_key(sheet) && book[sheet].contains_key((row, col)) && book[sheet][(row, col)]
        == cell
}

proof fn later_rows_keep_a_cell(
    p: Seq<u8>,
    r: RunV,
    strings: Seq<Seq<char>>,
    k: int,
    sheet: u16,
    row: int,
    col: int,
    book: Book,
    at: int,
    cell: CellV,
)
    requires
        0 <= k,
        at < row + k,
        has_cell(book, sheet, at, col, cell),
    ensures
        has_cell(put_run(p, r, strings, k, sheet, row, col, book), sheet, at, col, cell),
    decreases r.n - k,
{
    if k < r.n {
        let next = match run_cell(p, r, strings, k) {
            Some(c) => put(book, sheet, row + k, col, c),
            None => book,
        };
        assert(has_cell(next, sheet, at, col, cell));
        later_rows_keep_a_cell(p, r, strings, k + 1, sheet, row, col, next, at, cell);
    }
}

/// The cells of a run lie below each other in the column of its zone, from the
/// row where it starts.
pub proof fn runs_go_down_their_column(
    p: Seq<u8>,
    r: RunV,
    strings: Seq<Seq<char>>,
    k: int,
    sheet: u16,
    row: int,
    col: int,
    book: Book,
    i: int,
    cell: CellV,
)
    requires
        0 <= k <= i < r.n,
        run_cell(p, r, strings, i) == Some(cell),
        cell != CellV::Text(seq![]),
    ensures
        has_cell(put_run(p, r, strings, k, sheet, row, col, book), sheet, row + i, col, cell),
    decreases r.n - k,
{
    let next = match run_cell(p, r, strings, k) {
        Some(c) => put(book, sheet, row + k, col, c),
        None => book,
    };
    if k == i {
        assert(has_cell(next, sheet, row + i, col, cell));
        later_rows_keep_a_cell(p, r, strings, k + 1, sheet, row, col, next, row + i, cell);
    } else {
        runs_go_down_their_column(p, r, strings, k + 1, sheet, row, col, next, i, cell);
    }
}

// ------------------------------------------------------------ files

/// The fifth and sixth byte of a plain file say which format it has.
pub proof fn signatures_say_the_format(c: Content, d: Seq<u8>)
    requires
        c matches Content::Plain(v) && v@ == d,
        d.len() >= 6,
        d[0] == 0,
        d[1] == 0,
    ensures
        d[4] == 0x20 && d[5] == 0x51 ==> workbook(c) == Ok::<Book, QuattroError>(
            dos_book(d, 0, 1, Map::empty()),
        ),
        d[4] == 0x21 && d[5] == 0x51 ==> workbook(c) == Ok::<Book, QuattroError>(
            dos_book(d, 0, 2, Map::empty()),
        ),
        (d[4] == 0x01 || d[4] == 0x02) && d[5] == 0x10 ==> workbook(c) == Ok::<
            Book,
            QuattroError,
        >(windows_book(d, 0, Map::empty())),
{
}

} // verus!
