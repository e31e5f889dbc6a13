//! Tables of Pages documents of the newer kind.
//!
//! A table keeps its size on its model, the texts of its cells in lists by
//! key, and the places of the cells in tiles.

use crate::bytes::{as_i16, room, to_i16, u16_at, u16le, u32_at, u32le};
use crate::celltable::{cell_table, grid_table, text_cells, text_cells_push, TextCell, TextCellV};
use crate::decode::{lossy, to_lossy};
use crate::document::{table_view, Table, TableV};
use crate::jats::opt_chars;
use crate::pages_iwa::{
    archives_view, find_object, find_target, object, read_text, storage_text, target, Archive,
    ArchiveV, STORAGE, TEXT_REF, TILE, VALUE_LIST,
};
use crate::text::{chars_of, copy, strip, trim};
use crate::wire::{
    bytes_of, fields, fields_of, fields_view, first_bytes, first_varint, number_of, reference_field,
    reference_list, reference_of, references_of, FieldV, Value, ValueV,
};
use vstd::prelude::*;

verus! {

// ------------------------------------------------------------ values

/// A text by its key.
pub struct Keyed {
    pub key: u32,
    pub text: Vec<char>,
}

/// View of a [`Keyed`].
#[verifier::ext_equal]
pub struct KeyedV {
    pub key: u32,
    pub text: Seq<char>,
}

impl View for Keyed {
    type V = KeyedV;

    open spec fn view(&self) -> KeyedV {
        KeyedV { key: self.key, text: self.text@ }
    }
}

/// Views of keyed texts.
pub open spec fn keyed_view(v: Seq<Keyed>) -> Seq<KeyedV> {
    Seq::new(v.len(), |i: int| v[i]@)
}

/// The text of a key among the first `n`: the last one counts.
pub open spec fn text_with(v: Seq<KeyedV>, n: int, key: u32) -> Option<Seq<char>>
    decreases n,
{
    if n <= 0 || n > v.len() {
        None
    } else if v[n - 1].key == key {
        Some(v[n - 1].text)
    } else {
        text_with(v, n - 1, key)
    }
}

fn find_text(v: &Vec<Keyed>, key: u32) -> (r: Option<Vec<char>>)
    ensures
        opt_chars(r) == text_with(keyed_view(v@), v@.len() as int, key),
{
    let ghost w = keyed_view(v@);
    let mut n: usize = v.len();
    while n > 0
        invariant
            n <= v@.len(),
            w == keyed_view(v@),
            text_with(w, v@.len() as int, key) == text_with(w, n as int, key),
        decreases n,
    {
        assert(w[n - 1] == v@[n - 1]@);
        if v[n - 1].key == key {
            return Some(copy(&v[n - 1].text));
        }
        n -= 1;
    }
    None
}

/// The text of an entry: its own, or that of the storage that it leads to.
pub open spec fn entry_text(v: Seq<ArchiveV>, e: Seq<u8>, rich: bool) -> Option<Seq<char>> {
    if !rich {
        match bytes_of(e, 3) {
            Some(b) => Some(lossy(b)),
            None => None,
        }
    } else {
        match target(v, reference_of(e, 9), TEXT_REF) {
            None => None,
            Some(a) => match target(v, reference_of(a.payload, 1), STORAGE) {
                None => None,
                Some(s) => {
                    let t = strip(storage_text(s.payload));
                    if t.len() == 0 {
                        None
                    } else {
                        Some(t)
                    }
                },
            },
        }
    }
}

fn read_entry(v: &Vec<Archive>, e: &[u8], rich: bool) -> (r: Option<Vec<char>>)
    ensures
        opt_chars(r) == entry_text(archives_view(v@), e@, rich),
{
    if !rich {
        return match first_bytes(e, 3) {
            Some(b) => Some(chars_of(to_lossy(b).as_str())),
            None => None,
        };
    }
    match find_target(v, reference_field(e, 9), TEXT_REF) {
        None => None,
        Some(a) => match find_target(v, reference_field(a.payload.as_slice(), 1), STORAGE) {
            None => None,
            Some(s) => {
                let t = trim(&read_text(s.payload.as_slice()));
                if t.len() == 0 {
                    None
                } else {
                    Some(t)
                }
            },
        },
    }
}

/// The entries of the fields from `i` on, added to `done`.
pub open spec fn entries_from(
    v: Seq<ArchiveV>,
    f: Seq<FieldV>,
    i: int,
    rich: bool,
    done: Seq<KeyedV>,
) -> Seq<KeyedV>
    decreases f.len() - i,
{
    if i >= f.len() {
        done
    } else {
        entries_from(
            v,
            f,
            i + 1,
            rich,
            match f[i].value {
                ValueV::Bytes(e) => match (number_of(e, 1), entry_text(v, e, rich)) {
                    (Some(key), Some(text)) => if f[i].number == 3 {
                        done.push(KeyedV { key: key as u32, text })
                    } else {
                        done
                    },
                    _ => done,
                },
                _ => done,
            },
        )
    }
}

fn add_entries(v: &Vec<Archive>, payload: &[u8], rich: bool, out: &mut Vec<Keyed>)
    ensures
        keyed_view(final(out)@) == entries_from(
            archives_view(v@),
            fields_of(payload@),
            0,
            rich,
            keyed_view(old(out)@),
        ),
{
    let ghost o = archives_view(v@);
    let ghost first = keyed_view(out@);
    let f = fields(payload);
    let ghost w = fields_view(f@);
    let mut i: usize = 0;
    while i < f.len()
        invariant
            i <= f@.len(),
            o == archives_view(v@),
            w == fields_view(f@),
            entries_from(o, w, 0, rich, first) == entries_from(
                o,
                w,
                i as int,
                rich,
                keyed_view(out@),
            ),
        decreases f@.len() - i,
    {
        assert(w[i as int] == f@[i as int]@);
        match f[i].value {
            Value::Bytes(e) => {
                if f[i].number == 3 {
                    match (first_varint(e, 1), read_entry(v, e, rich)) {
                        (Some(key), Some(text)) => {
                            let ghost before = out@;
                            let k = Keyed { key: key as u32, text };
                            out.push(k);
                            assert(keyed_view(out@) =~= keyed_view(before).push(k@));
                        },
                        _ => {},
                    }
                }
            },
            _ => {},
        }
        i += 1;
    }
}

/// The entries of the segments from `i` on, added to `done`.
pub open spec fn segments_from(
    v: Seq<ArchiveV>,
    ids: Seq<u64>,
    i: int,
    rich: bool,
    done: Seq<KeyedV>,
) -> Seq<KeyedV>
    decreases ids.len() - i,
{
    if i >= ids.len() {
        done
    } else {
        segments_from(
            v,
            ids,
            i + 1,
            rich,
            match object(v, ids[i]) {
                Some(a) => entries_from(v, fields_of(a.payload), 0, rich, done),
                None => done,
            },
        )
    }
}

/// The texts that a list of a table's store holds, with the segments that it
/// goes on in.
pub open spec fn value_list(v: Seq<ArchiveV>, store: Seq<u8>, field: u64, rich: bool) -> Seq<KeyedV> {
    match target(v, reference_of(store, field), VALUE_LIST) {
        None => seq![],
        Some(a) => segments_from(
            v,
            references_of(a.payload, 4),
            0,
            rich,
            entries_from(v, fields_of(a.payload), 0, rich, seq![]),
        ),
    }
}

fn read_values(v: &Vec<Archive>, store: &[u8], field: u64, rich: bool) -> (r: Vec<Keyed>)
    ensures
        keyed_view(r@) == value_list(archives_view(v@), store@, field, rich),
{
    let ghost o = archives_view(v@);
    let mut out: Vec<Keyed> = Vec::new();
    assert(keyed_view(out@) =~= seq![]);
    let a = match find_target(v, reference_field(store, field), VALUE_LIST) {
        None => {
            return out;
        },
        Some(a) => a,
    };
    add_entries(v, a.payload.as_slice(), rich, &mut out);
    let ids = reference_list(a.payload.as_slice(), 4);
    let ghost first = keyed_view(out@);
    let mut i: usize = 0;
    while i < ids.len()
        invariant
            i <= ids@.len(),
            o == archives_view(v@),
            segments_from(o, ids@, 0, rich, first) == segments_from(
                o,
                ids@,
                i as int,
                rich,
                keyed_view(out@),
            ),
        decreases ids@.len() - i,
    {
        match find_object(v, ids[i]) {
            Some(s) => {
                add_entries(v, s.payload.as_slice(), rich, &mut out);
            },
            None => {},
        }
        i += 1;
    }
    out
}

// ------------------------------------------------------------ packed cells

/// Where a current cell's value with a flag begins, when those before it were
/// passed: none where a value does not fit.
pub open spec fn passed(len: int, at: int, set: bool, width: int) -> Option<int> {
    if !set {
        Some(at)
    } else if at + width > len {
        None
    } else {
        Some(at + width)
    }
}

/// Which text a packed cell shows: whether it is rich, and its key.
pub open spec fn cell_key(s: Seq<u8>, start: int) -> Option<(bool, int)> {
    if start < 0 || start + 12 > s.len() {
        None
    } else if s[start] == 4 {
        if s[start + 1] == 3 && room(s, start + 16, 4) {
            Some((false, u32_at(s, start + 16)))
        } else {
            None
        }
    } else if s[start] == 5 && (s[start + 1] == 3 || s[start + 1] == 9) {
        let n = s.len() as int;
        let flags = u32_at(s, start + 8);
        match passed(n, start + 12, flags % 2 == 1, 16) {
            None => None,
            Some(a) => match passed(n, a, flags / 2 % 2 == 1, 8) {
                None => None,
                Some(b) => match passed(n, b, flags / 4 % 2 == 1, 8) {
                    None => None,
                    Some(c) => if c + 4 > n {
                        None
                    } else if flags / 8 % 2 == 1 {
                        Some((false, u32_at(s, c)))
                    } else if flags / 16 % 2 == 1 {
                        Some((true, u32_at(s, c)))
                    } else {
                        None
                    },
                },
            },
        }
    } else {
        None
    }
}

fn pass(len: usize, at: usize, set: bool, width: usize) -> (r: Option<usize>)
    requires
        at <= len,
    ensures
        match passed(len as int, at as int, set, width as int) {
            Some(n) => r matches Some(x) && x == n && x <= len,
            None => r is None,
        },
{
    if !set {
        Some(at)
    } else if width > len - at {
        None
    } else {
        Some(at + width)
    }
}

fn read_key(s: &[u8], start: i64) -> (r: Option<(bool, u32)>)
    ensures
        match cell_key(s@, start as int) {
            Some(p) => r matches Some(q) && q.0 == p.0 && q.1 == p.1,
            None => r is None,
        },
{
    let n: usize = s.len();
    if start < 0 {
        return None;
    }
    let wide = start as u64;
    if n < 12 || wide > (n - 12) as u64 {
        return None;
    }
    let at = wide as usize;
    if s[at] == 4 {
        if s[at + 1] != 3 || n - at < 20 {
            return None;
        }
        return match u32le(s, at + 16) {
            Some(k) => Some((false, k)),
            None => None,
        };
    }
    if s[at] != 5 || (s[at + 1] != 3 && s[at + 1] != 9) {
        return None;
    }
    let flags = match u32le(s, at + 8) {
        Some(f) => f,
        None => {
            return None;
        },
    };
    let a = match pass(n, at + 12, flags % 2 == 1, 16) {
        Some(x) => x,
        None => {
            return None;
        },
    };
    let b = match pass(n, a, flags / 2 % 2 == 1, 8) {
        Some(x) => x,
        None => {
            return None;
        },
    };
    let c = match pass(n, b, flags / 4 % 2 == 1, 8) {
        Some(x) => x,
        None => {
            return None;
        },
    };
    if n - c < 4 {
        return None;
    }
    let key = match u32le(s, c) {
        Some(k) => k,
        None => {
            return None;
        },
    };
    if flags / 8 % 2 == 1 {
        Some((false, key))
    } else if flags / 16 % 2 == 1 {
        Some((true, key))
    } else {
        None
    }
}

/// The text that a packed cell shows.
pub open spec fn cell_text(
    s: Seq<u8>,
    start: int,
    strings: Seq<KeyedV>,
    rich: Seq<KeyedV>,
) -> Option<Seq<char>> {
    match cell_key(s, start) {
        Some((is_rich, key)) => if is_rich {
            text_with(rich, rich.len() as int, key as u32)
        } else {
            text_with(strings, strings.len() as int, key as u32)
        },
        None => None,
    }
}

fn read_cell(s: &[u8], start: i64, strings: &Vec<Keyed>, rich: &Vec<Keyed>) -> (r: Option<Vec<char>>)
    ensures
        opt_chars(r) == cell_text(s@, start as int, keyed_view(strings@), keyed_view(rich@)),
{
    match read_key(s, start) {
        Some((is_rich, key)) => if is_rich {
            find_text(rich, key)
        } else {
            find_text(strings, key)
        },
        None => None,
    }
}

// ------------------------------------------------------------ tiles

/// The storage of a row's cells, their offsets, and what an offset counts
/// for.
pub open spec fn row_parts(row: Seq<u8>) -> Option<(Seq<u8>, Seq<u8>, int)> {
    match (bytes_of(row, 6), bytes_of(row, 7)) {
        (Some(s), Some(o)) => Some(
            (
                s,
                o,
                match number_of(row, 8) {
                    Some(n) => if n != 0 {
                        4
                    } else {
                        1
                    },
                    None => 1,
                },
            ),
        ),
        _ => match (bytes_of(row, 3), bytes_of(row, 4)) {
            (Some(s), Some(o)) => Some((s, o, 1)),
            _ => None,
        },
    }
}

fn read_row<'a>(row: &'a [u8]) -> (r: Option<(&'a [u8], &'a [u8], i64)>)
    ensures
        match row_parts(row@) {
            Some(p) => r matches Some(q) && q.0@ == p.0 && q.1@ == p.1 && q.2 == p.2 && (q.2 == 1
                || q.2 == 4),
            None => r is None,
        },
{
    match (first_bytes(row, 6), first_bytes(row, 7)) {
        (Some(s), Some(o)) => {
            let scale: i64 = match first_varint(row, 8) {
                Some(n) => if n != 0 {
                    4
                } else {
                    1
                },
                None => 1,
            };
            Some((s, o, scale))
        },
        _ => match (first_bytes(row, 3), first_bytes(row, 4)) {
            (Some(s), Some(o)) => Some((s, o, 1)),
            _ => None,
        },
    }
}

/// The cells of a row from a column on, added to `done`.
pub open spec fn columns_from(
    p: (Seq<u8>, Seq<u8>, int),
    row: int,
    col: int,
    cols: int,
    strings: Seq<KeyedV>,
    rich: Seq<KeyedV>,
    done: Seq<TextCellV>,
) -> Seq<TextCellV>
    decreases cols - col,
{
    if col < 0 || col >= cols || 2 * col + 2 > p.1.len() {
        done
    } else {
        let start = as_i16(u16_at(p.1, 2 * col)) * p.2;
        columns_from(
            p,
            row,
            col + 1,
            cols,
            strings,
            rich,
            match cell_text(p.0, start, strings, rich) {
                Some(text) => done.push(TextCellV { text, row, col }),
                None => done,
            },
        )
    }
}

fn add_columns(
    s: &[u8],
    offsets: &[u8],
    scale: i64,
    row: usize,
    cols: usize,
    strings: &Vec<Keyed>,
    rich: &Vec<Keyed>,
    out: &mut Vec<TextCell>,
)
    requires
        scale == 1 || scale == 4,
    ensures
        text_cells(final(out)@) == columns_from(
            (s@, offsets@, scale as int),
            row as int,
            0,
            cols as int,
            keyed_view(strings@),
            keyed_view(rich@),
            text_cells(old(out)@),
        ),
{
    let ghost p = (s@, offsets@, scale as int);
    let ghost a = keyed_view(strings@);
    let ghost b = keyed_view(rich@);
    let ghost first = text_cells(out@);
    let n: usize = offsets.len();
    let mut col: usize = 0;
    while col < cols && col < n / 2
        invariant
            n == offsets@.len(),
            p == (s@, offsets@, scale as int),
            a == keyed_view(strings@),
            b == keyed_view(rich@),
            scale == 1 || scale == 4,
            columns_from(p, row as int, 0, cols as int, a, b, first) == columns_from(
                p,
                row as int,
                col as int,
                cols as int,
                a,
                b,
                text_cells(out@),
            ),
        decreases cols - col,
    {
        broadcast use text_cells_push;

        let raw: u16 = match u16le(offsets, 2 * col) {
            Some(x) => x,
            None => 0,
        };
        let offset = to_i16(raw);
        let start: i64 = if scale == 4 {
            offset * 4
        } else {
            offset
        };
        assert(start == offset * scale) by (nonlinear_arith)
            requires
                scale == 1 && start == offset || scale == 4 && start == offset * 4,
        ;
        match read_cell(s, start, strings, rich) {
            Some(text) => {
                out.push(TextCell { text, row, col });
            },
            None => {},
        }
        col += 1;
    }
}

/// The cells of the rows among the fields from `i` on, added to `done`.
pub open spec fn rows_from(
    f: Seq<FieldV>,
    i: int,
    cols: int,
    strings: Seq<KeyedV>,
    rich: Seq<KeyedV>,
    done: Seq<TextCellV>,
) -> Seq<TextCellV>
    decreases f.len() - i,
{
    if i >= f.len() {
        done
    } else {
        rows_from(
            f,
            i + 1,
            cols,
            strings,
            rich,
            match f[i].value {
                ValueV::Bytes(r) => match (number_of(r, 1), row_parts(r)) {
                    (Some(n), Some(p)) => if f[i].number == 5 {
                        columns_from(p, (n as usize) as int, 0, cols, strings, rich, done)
                    } else {
                        done
                    },
                    _ => done,
                },
                _ => done,
            },
        )
    }
}

fn tile_cells(
    payload: &[u8],
    cols: usize,
    strings: &Vec<Keyed>,
    rich: &Vec<Keyed>,
    out: &mut Vec<TextCell>,
)
    ensures
        text_cells(final(out)@) == rows_from(
            fields_of(payload@),
            0,
            cols as int,
            keyed_view(strings@),
            keyed_view(rich@),
            text_cells(old(out)@),
        ),
{
    let ghost a = keyed_view(strings@);
    let ghost b = keyed_view(rich@);
    let ghost first = text_cells(out@);
    let f = fields(payload);
    let ghost w = fields_view(f@);
    let mut i: usize = 0;
    while i < f.len()
        invariant
            i <= f@.len(),
            w == fields_view(f@),
            a == keyed_view(strings@),
            b == keyed_view(rich@),
            rows_from(w, 0, cols as int, a, b, first) == rows_from(
                w,
                i as int,
                cols as int,
                a,
                b,
                text_cells(out@),
            ),
        decreases f@.len() - i,
    {
        assert(w[i as int] == f@[i as int]@);
        match f[i].value {
            Value::Bytes(r) => {
                if f[i].number == 5 {
                    match (first_varint(r, 1), read_row(r)) {
                        (Some(n), Some((s, o, scale))) => {
                            add_columns(s, o, scale, n as usize, cols, strings, rich, out);
                        },
                        _ => {},
                    }
                }
            },
            _ => {},
        }
        i += 1;
    }
}

/// The cells of the tiles among the fields from `i` on, added to `done`.
pub open spec fn tiles_from(
    v: Seq<ArchiveV>,
    f: Seq<FieldV>,
    i: int,
    cols: int,
    strings: Seq<KeyedV>,
    rich: Seq<KeyedV>,
    done: Seq<TextCellV>,
) -> Seq<TextCellV>
    decreases f.len() - i,
{
    if i >= f.len() {
        done
    } else {
        tiles_from(
            v,
            f,
            i + 1,
            cols,
            strings,
            rich,
            match f[i].value {
                ValueV::Bytes(e) => match target(v, reference_of(e, 2), TILE) {
                    Some(t) => if f[i].number == 1 {
                        rows_from(fields_of(t.payload), 0, cols, strings, rich, done)
                    } else {
                        done
                    },
                    None => done,
                },
                _ => done,
            },
        )
    }
}

/// The cells of a table's store.
pub open spec fn store_cells(v: Seq<ArchiveV>, store: Seq<u8>, cols: int) -> Seq<TextCellV> {
    match bytes_of(store, 3) {
        None => seq![],
        Some(c) => tiles_from(
            v,
            fields_of(c),
            0,
            cols,
            value_list(v, store, 4, false),
            value_list(v, store, 17, true),
            seq![],
        ),
    }
}

fn read_cells(v: &Vec<Archive>, store: &[u8], cols: usize) -> (r: Vec<TextCell>)
    ensures
        text_cells(r@) == store_cells(archives_view(v@), store@, cols as int),
{
    let ghost o = archives_view(v@);
    let mut out: Vec<TextCell> = Vec::new();
    assert(text_cells(out@) =~= seq![]);
    let container = match first_bytes(store, 3) {
        None => {
            return out;
        },
        Some(c) => c,
    };
    let strings = read_values(v, store, 4, false);
    let rich = read_values(v, store, 17, true);
    let ghost a = keyed_view(strings@);
    let ghost b = keyed_view(rich@);
    let f = fields(container);
    let ghost w = fields_view(f@);
    let mut i: usize = 0;
    while i < f.len()
        invariant
            i <= f@.len(),
            o == archives_view(v@),
            w == fields_view(f@),
            a == keyed_view(strings@),
            b == keyed_view(rich@),
            tiles_from(o, w, 0, cols as int, a, b, seq![]) == tiles_from(
                o,
                w,
                i as int,
                cols as int,
                a,
                b,
                text_cells(out@),
            ),
        decreases f@.len() - i,
    {
        assert(w[i as int] == f@[i as int]@);
        match f[i].value {
            Value::Bytes(e) => {
                if f[i].number == 1 {
                    match find_target(v, reference_field(e, 2), TILE) {
                        Some(t) => {
                            tile_cells(t.payload.as_slice(), cols, &strings, &rich, &mut out);
                        },
                        None => {},
                    }
                }
            },
            _ => {},
        }
        i += 1;
    }
    out
}

/// The table of a model; none without a size, a store or cells with text.
pub open spec fn table_of(v: Seq<ArchiveV>, model: Seq<u8>) -> Option<TableV> {
    match (number_of(model, 6), number_of(model, 7), bytes_of(model, 4)) {
        (Some(r), Some(c), Some(store)) => {
            let rows = (r as usize) as int;
            let cols = (c as usize) as int;
            let header = match number_of(model, 9) {
                Some(h) => (h as usize) as int,
                None => 0,
            };
            let cells = store_cells(v, store, cols);
            if rows == 0 || cols == 0 || cells.len() == 0 {
                None
            } else {
                Some(cell_table(cells, rows, cols, header))
            }
        },
        _ => None,
    }
}

/// The table of a model.
pub fn table(v: &Vec<Archive>, model: &[u8]) -> (r: Option<Table>)
    ensures
        match table_of(archives_view(v@), model@) {
            Some(t) => r matches Some(x) && table_view(x) == t,
            None => r is None,
        },
{
    match (first_varint(model, 6), first_varint(model, 7), first_bytes(model, 4)) {
        (Some(r), Some(c), Some(store)) => {
            let rows = r as usize;
            let cols = c as usize;
            if rows == 0 || cols == 0 {
                return None;
            }
            let header: usize = match first_varint(model, 9) {
                Some(h) => h as usize,
                None => 0,
            };
            let cells = read_cells(v, store, cols);
            assert(text_cells(cells@).len() == cells@.len());
            if cells.len() == 0 {
                return None;
            }
            Some(grid_table(&cells, rows, cols, header))
        },
        _ => None,
    }
}

} // verus!
