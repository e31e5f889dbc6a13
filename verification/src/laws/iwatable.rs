//! Laws of the tables of Pages documents: where the texts of their cells lie.

use crate::bytes::u32_at;
use crate::celltable::{cell_table, TextCellV};
use crate::iwatable::{
    cell_key, cell_text, columns_from, passed, row_parts, store_cells, table_of, text_with, KeyedV,
};
use crate::pages_iwa::ArchiveV;
use crate::wire::{bytes_of, number_of};
use vstd::prelude::*;

verus! {

/// The number of four bytes of `s` from `at` on, the lowest one first.
pub open spec fn four(s: Seq<u8>, at: int) -> int {
    s[at] + 256 * s[at + 1] + 0x1_0000 * s[at + 2] + 0x100_0000 * s[at + 3]
}

/// A cell of the fifth version says in its flags which of its parts are there.
/// The key of its text stands behind a number of sixteen bytes and two of
/// eight, as far as they are there: a plain text by the fourth flag, a rich one
/// by the fifth.
pub proof fn keys_stand_behind_the_numbers(
    s: Seq<u8>,
    at: int,
    a: int,
    b: int,
    c: int,
    plain: int,
    rich: int,
    more: int,
)
    requires
        0 <= at,
        at + 12 <= s.len(),
        s[at] == 5,
        s[at + 1] == 3 || s[at + 1] == 9,
        0 <= a <= 1,
        0 <= b <= 1,
        0 <= c <= 1,
        0 <= plain <= 1,
        0 <= rich <= 1,
        0 <= more,
        four(s, at + 8) == a + 2 * b + 4 * c + 8 * plain + 16 * rich + 32 * more,
        at + 12 + 16 * a + 8 * b + 8 * c + 4 <= s.len(),
    ensures
        ({
            let k = at + 12 + 16 * a + 8 * b + 8 * c;
            &&& plain == 1 ==> cell_key(s, at) == Some((false, four(s, k)))
            &&& plain == 0 && rich == 1 ==> cell_key(s, at) == Some((true, four(s, k)))
            &&& plain == 0 && rich == 0 ==> cell_key(s, at) is None
        }),
{
    let flags = four(s, at + 8);
    bits(flags, a, b, c, plain, rich, more);
    assert(u32_at(s, at + 8) == flags);
    let n = s.len() as int;
    assert(passed(n, at + 12, flags % 2 == 1, 16) == Some(at + 12 + 16 * a));
    assert(passed(n, at + 12 + 16 * a, flags / 2 % 2 == 1, 8) == Some(at + 12 + 16 * a + 8 * b));
    assert(passed(n, at + 12 + 16 * a + 8 * b, flags / 4 % 2 == 1, 8) == Some(
        at + 12 + 16 * a + 8 * b + 8 * c,
    ));
    assert(u32_at(s, at + 12 + 16 * a + 8 * b + 8 * c) == four(
        s,
        at + 12 + 16 * a + 8 * b + 8 * c,
    ));
}

proof fn bits(n: int, a: int, b: int, c: int, d: int, e: int, more: int)
    requires
        0 <= a <= 1,
        0 <= b <= 1,
        0 <= c <= 1,
        0 <= d <= 1,
        0 <= e <= 1,
        0 <= more,
        n == a + 2 * b + 4 * c + 8 * d + 16 * e + 32 * more,
    ensures
        n % 2 == a,
        n / 2 % 2 == b,
        n / 4 % 2 == c,
        n / 8 % 2 == d,
        n / 16 % 2 == e,
{
    let k = b + 2 * c + 4 * d + 8 * e + 16 * more;
    assert(n == a + 2 * k);
    assert(n / 2 == k);
    let l = c + 2 * d + 4 * e + 8 * more;
    assert(k == b + 2 * l);
    assert(n / 4 == l);
    let m = d + 2 * e + 4 * more;
    assert(l == c + 2 * m);
    assert(n / 8 == m);
    let o = e + 2 * more;
    assert(m == d + 2 * o);
    assert(n / 16 == o);
}

/// A cell of the fourth version with a text has its key sixteen bytes behind
/// its start; other versions and other kinds of cells have none.
pub proof fn older_cells_have_their_key_behind(s: Seq<u8>, at: int)
    requires
        0 <= at,
        at + 20 <= s.len(),
    ensures
        s[at] == 4 && s[at + 1] == 3 ==> cell_key(s, at) == Some((false, four(s, at + 16))),
        s[at] == 4 && s[at + 1] != 3 ==> cell_key(s, at) is None,
        s[at] == 5 && s[at + 1] != 3 && s[at + 1] != 9 ==> cell_key(s, at) is None,
        s[at] != 4 && s[at] != 5 ==> cell_key(s, at) is None,
{
}

/// A cell that is plain has its text among the plain ones, a rich one among
/// the rich ones.
pub proof fn cells_have_the_text_of_their_key(
    s: Seq<u8>,
    at: int,
    strings: Seq<KeyedV>,
    rich: Seq<KeyedV>,
    key: int,
)
    ensures
        cell_key(s, at) == Some((false, key)) ==> cell_text(s, at, strings, rich) == text_with(
            strings,
            strings.len() as int,
            key as u32,
        ),
        cell_key(s, at) == Some((true, key)) ==> cell_text(s, at, strings, rich) == text_with(
            rich,
            rich.len() as int,
            key as u32,
        ),
        cell_key(s, at) is None ==> cell_text(s, at, strings, rich) is None,
{
}

/// Of several texts with a key the last one counts.
pub proof fn the_last_text_counts(v: Seq<KeyedV>, t: Seq<char>, k: u32, other: u32)
    ensures
        text_with(v.push(KeyedV { key: k, text: t }), v.len() as int + 1, k) == Some(t),
        other != k ==> text_with(v.push(KeyedV { key: k, text: t }), v.len() as int + 1, other)
            == text_with(v, v.len() as int, other),
        text_with(seq![], 0, k) is None,
{
    if other != k {
        beginnings_have_the_same_texts(v, KeyedV { key: k, text: t }, v.len() as int, other);
    }
}

proof fn beginnings_have_the_same_texts(v: Seq<KeyedV>, x: KeyedV, n: int, key: u32)
    requires
        0 <= n <= v.len(),
    ensures
        text_with(v.push(x), n, key) == text_with(v, n, key),
    decreases n,
{
    if n > 0 {
        assert(v.push(x)[n - 1] == v[n - 1]);
        beginnings_have_the_same_texts(v, x, n - 1, key);
    }
}

/// A row has its cells in the sixth field and where they begin in the seventh,
/// counted by four if the eighth says so; older ones have them in the third
/// and the fourth.
pub proof fn rows_have_cells_and_offsets(row: Seq<u8>, s: Seq<u8>, o: Seq<u8>)
    ensures
        bytes_of(row, 6) == Some(s) && bytes_of(row, 7) == Some(o) && number_of(row, 8) == Some(1u64)
            ==> row_parts(row) == Some((s, o, 4int)),
        bytes_of(row, 6) == Some(s) && bytes_of(row, 7) == Some(o) && number_of(row, 8) is None
            ==> row_parts(row) == Some((s, o, 1int)),
        bytes_of(row, 6) is None && bytes_of(row, 3) == Some(s) && bytes_of(row, 4) == Some(o)
            ==> row_parts(row) == Some((s, o, 1int)),
        bytes_of(row, 6) is None && bytes_of(row, 3) is None ==> row_parts(row) is None,
{
}

/// Each column has two bytes that say where its cell begins, the lower one
/// first; a negative number is no cell.
pub proof fn columns_begin_at_their_offset(
    cells: Seq<u8>,
    offsets: Seq<u8>,
    scale: int,
    row: int,
    col: int,
    cols: int,
    strings: Seq<KeyedV>,
    rich: Seq<KeyedV>,
    done: Seq<TextCellV>,
    t: Seq<char>,
)
    requires
        0 <= col < cols,
        2 * col + 2 <= offsets.len(),
        1 <= scale <= 4,
    ensures
        ({
            let at = offsets[2 * col] + 256 * offsets[2 * col + 1];
            let rest = columns_from(
                (cells, offsets, scale),
                row,
                col + 1,
                cols,
                strings,
                rich,
                done,
            );
            let all = columns_from((cells, offsets, scale), row, col, cols, strings, rich, done);
            &&& at >= 32768 ==> all == rest
            &&& at < 32768 && cell_text(cells, scale * at, strings, rich) is None ==> all == rest
            &&& at < 32768 && cell_text(cells, scale * at, strings, rich) == Some(t) ==> all
                == columns_from(
                (cells, offsets, scale),
                row,
                col + 1,
                cols,
                strings,
                rich,
                done + seq![TextCellV { text: t, row, col }],
            )
        }),
        columns_from((cells, offsets, scale), row, cols, cols, strings, rich, done) == done,
{
    let at = offsets[2 * col] + 256 * offsets[2 * col + 1];
    let x = TextCellV { text: t, row, col };
    assert(done.push(x) =~= done + seq![x]);
    if at >= 32768 {
        assert((at - 65536) * scale < 0) by (nonlinear_arith)
            requires
                at < 65536,
                scale >= 1,
        ;
    } else {
        assert(at * scale == scale * at) by (nonlinear_arith);
    }
}

/// A table has its number of rows in the sixth field, its number of columns in
/// the seventh and its number of header rows in the ninth.
pub proof fn tables_say_their_size(
    v: Seq<ArchiveV>,
    model: Seq<u8>,
    store: Seq<u8>,
    r: u64,
    c: u64,
    h: u64,
)
    requires
        number_of(model, 6) == Some(r),
        number_of(model, 7) == Some(c),
        bytes_of(model, 4) == Some(store),
        0 < r < 0x1_0000_0000,
        0 < c < 0x1_0000_0000,
        h < 0x1_0000_0000,
        store_cells(v, store, c as int).len() > 0,
    ensures
        number_of(model, 9) == Some(h) ==> table_of(v, model) == Some(
            cell_table(store_cells(v, store, c as int), r as int, c as int, h as int),
        ),
        number_of(model, 9) is None ==> table_of(v, model) == Some(
            cell_table(store_cells(v, store, c as int), r as int, c as int, 0),
        ),
{
}

} // verus!
