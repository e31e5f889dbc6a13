//! Quattro Pro spreadsheets. Every generation is a `[u16 type][u16 len]`
//! record stream, but the cell records moved with each one:
//!
//! - **DOS 1-4 and 5**: cells 0x0C-0x10 address `[fmt u8]` (the first
//!   generation only) `[col u8][sheet u8][row i16]` (and `[style u16]` in the
//!   second), then data: an i16, a double, an aligned pascal string, or a
//!   double formula cache. Formula strings arrive as 0x33 records. Labels are
//!   code page 437.
//! - **Windows 1-8**: record types carry a high flag bit; cells address
//!   `[col u8][sheet u8][row u16][style u16]`, labels are `[align][C string]`.
//!   Code page 1252.
//! - **9-X9**: zones `[u16 id][u16 len]` (`u32 len` when bit 15 of the id is
//!   set): 0x407 is the string table, 0x601 begins a sheet, 0xA01 a column,
//!   0xC01 is a run of cells down that column, 0xC02 a formula's string.
//!
//! Formulas contribute their cached value; a NaN cache is the empty cell that
//! a string result fills. A number stays as the file stores it.

use crate::bytes::{
    as_i16, has_room, part, room, to_i16, u16_at, u16le, u32_at, u32le, u64_at, u64le,
};
use crate::codepage::{cp1252, cp437, decode_cp1252, decode_cp437};
use crate::document::{strs, strs_push};
use crate::sheet::{is_regions, tables_view, Cell, CellV, Grid, Num};
use crate::text::string_of;
use vstd::prelude::*;

verus! {

/// The content cells of one sheet.
pub type Cells = Map<(int, int), CellV>;

/// The sheets of a workbook by their number.
pub type Book = Map<u16, Cells>;

/// One numbered sheet.
pub struct Sheet {
    pub id: u16,
    pub grid: Grid,
}

/// The sheets of a workbook, in ascending order of their numbers.
pub struct Sheets {
    list: Vec<Sheet>,
}

impl Sheets {
    /// Sheets stand in strictly ascending order.
    pub closed spec fn wf(self) -> bool {
        &&& forall|i: int| 0 <= i < self.list@.len() ==> (#[trigger] self.list@[i]).grid.wf()
        &&& forall|i: int, j: int|
            0 <= i < j < self.list@.len() ==> (#[trigger] self.list@[i]).id < (
            #[trigger] self.list@[j]).id
    }

    spec fn slot(self, id: u16) -> int {
        choose|i: int| 0 <= i < self.list@.len() && (#[trigger] self.list@[i]).id == id
    }

    spec fn holds(self, id: u16) -> bool {
        exists|i: int| 0 <= i < self.list@.len() && (#[trigger] self.list@[i]).id == id
    }
}

impl View for Sheets {
    type V = Book;

    closed spec fn view(&self) -> Book {
        Map::new(|id: u16| self.holds(id), |id: u16| self.list@[self.slot(id)].grid@)
    }
}

/// The workbook with `cell` put on a sheet; an empty text changes nothing.
pub open spec fn put(book: Book, sheet: u16, row: int, col: int, cell: CellV) -> Book {
    if cell == CellV::Text(seq![]) {
        book
    } else {
        let cells = if book.contains_key(sheet) {
            book[sheet]
        } else {
            Map::empty()
        };
        book.insert(sheet, cells.insert((row, col), cell))
    }
}

impl Sheets {
    /// A workbook without sheets.
    pub fn new() -> (r: Sheets)
        ensures
            r.wf(),
            r@ == Map::<u16, Cells>::empty(),
    {
        let r = Sheets { list: Vec::new() };
        assert(r@ =~= Map::<u16, Cells>::empty());
        r
    }

    proof fn slot_is(self, i: int)
        requires
            self.wf(),
            0 <= i < self.list@.len(),
        ensures
            self@.contains_key(self.list@[i].id),
            self@[self.list@[i].id] == self.list@[i].grid@,
    {
        let id = self.list@[i].id;
        assert(self.holds(id));
        let j = self.slot(id);
        if j < i {
            assert(self.list@[j].id < self.list@[i].id);
        } else if i < j {
            assert(self.list@[i].id < self.list@[j].id);
        }
    }

    /// Puts `cell` on a sheet, which begins with its first cell. An empty
    /// text is no cell.
    pub fn insert(&mut self, sheet: u16, row: u64, col: u64, cell: Cell)
        requires
            old(self).wf(),
        ensures
            final(self).wf(),
            final(self)@ == put(old(self)@, sheet, row as int, col as int, cell@),
    {
        let ghost want = put(self@, sheet, row as int, col as int, cell@);
        match &cell {
            Cell::Text(t) => {
                if t.as_str().is_empty() {
                    assert(cell@ == CellV::Text(seq![])) by {
                        assert(t@ =~= seq![]);
                    }
                    return;
                }
                assert(t@.len() != 0);
            },
            _ => {},
        }
        let ghost was = *self;
        let mut i: usize = 0;
        while i < self.list.len() && self.list[i].id < sheet
            invariant
                *self == was,
                was.wf(),
                i <= self.list@.len(),
                forall|j: int| 0 <= j < i ==> (#[trigger] self.list@[j]).id < sheet,
            decreases self.list@.len() - i,
        {
            i += 1;
        }
        if i < self.list.len() && self.list[i].id == sheet {
            proof {
                was.slot_is(i as int);
            }
            self.list[i].grid.insert(row, col, cell);
        } else {
            let mut grid = Grid::new();
            grid.insert(row, col, cell);
            proof {
                assert(!was.holds(sheet)) by {
                    if was.holds(sheet) {
                        let j = was.slot(sheet);
                        if j > i {
                            assert(was.list@[i as int].id < was.list@[j].id);
                        }
                    }
                }
            }
            self.list.insert(i, Sheet { id: sheet, grid });
        }
        proof {
            assert(self.wf()) by {
                assert forall|a: int, b: int| 0 <= a < b < self.list@.len() implies (
                #[trigger] self.list@[a]).id < (#[trigger] self.list@[b]).id by {
                    if self.list@.len() == was.list@.len() {
                        assert(was.list@[a].id < was.list@[b].id);
                    } else {
                        let a0 = if a < i { a } else { a - 1 };
                        let b0 = if b < i { b } else { b - 1 };
                        if a != i && b != i {
                            assert(was.list@[a0].id < was.list@[b0].id);
                        } else if a == i && b0 > i {
                            assert(was.list@[i as int].id < was.list@[b0].id);
                        }
                    }
                }
            }
            assert forall|id: u16|
                #![trigger self@.dom().contains(id)]
                #![trigger want.dom().contains(id)]
                #![trigger self@[id]]
                #![trigger want[id]]
                self@.dom().contains(id) == want.dom().contains(id) && (self@.dom().contains(id)
                    ==> self@[id] == want[id]) by {
                if was.holds(id) {
                    let j = was.slot(id);
                    was.slot_is(j);
                    let k = if self.list@.len() == was.list@.len() || j < i { j } else { j + 1 };
                    assert(self.list@[k].id == id);
                    self.slot_is(k);
                }
                if self.holds(id) {
                    let k = self.slot(id);
                    if k != i {
                        let j = if self.list@.len() == was.list@.len() || k < i { k } else { k - 1 };
                        assert(was.list@[j].id == id);
                        was.slot_is(j);
                    }
                }
                if id == sheet {
                    assert(self.list@[i as int].id == id);
                    self.slot_is(i as int);
                }
            }
            assert(self@.dom() =~= want.dom());
            assert(self@ =~= want);
        }
    }
}

// ------------------------------------------------------------ labels

/// The character a label byte stands for: a carriage return and a tab are a
/// space, other control bytes drop, high bytes decode through the code page.
pub open spec fn label_char(b: u8, dos: bool) -> Option<char> {
    if b == 0x0d || b == 0x09 {
        Some(' ')
    } else if b < 0x20 {
        None
    } else if dos {
        Some(cp437(b))
    } else {
        Some(cp1252(b))
    }
}

/// The text of label bytes; a NUL ends it.
pub open spec fn label(d: Seq<u8>, dos: bool) -> Seq<char>
    decreases d.len(),
{
    if d.len() == 0 || d[0] == 0 {
        seq![]
    } else {
        (match label_char(d[0], dos) {
            Some(c) => seq![c],
            None => seq![],
        }) + label(d.drop_first(), dos)
    }
}

/// The text of a `[u8 len][bytes]` string; a length past the end is cut.
pub open spec fn pascal_label(d: Seq<u8>, dos: bool) -> Seq<char> {
    if d.len() == 0 {
        seq![]
    } else {
        let rest = d.drop_first();
        label(
            rest.take(
                if d[0] < rest.len() {
                    d[0] as int
                } else {
                    rest.len() as int
                },
            ),
            dos,
        )
    }
}

/// The text of label bytes.
pub fn text(bytes: &[u8], dos: bool) -> (r: String)
    ensures
        r@ == label(bytes@, dos),
{
    let mut out: Vec<char> = Vec::new();
    let mut i: usize = 0;
    proof {
        assert(bytes@.skip(0) =~= bytes@);
    }
    while i < bytes.len() && bytes[i] != 0
        invariant
            i <= bytes@.len(),
            out@ + label(bytes@.skip(i as int), dos) == label(bytes@, dos),
        decreases bytes@.len() - i,
    {
        let b: u8 = bytes[i];
        let ghost before = out@;
        if b == 0x0d || b == 0x09 {
            out.push(' ');
        } else if b >= 0x20 {
            if dos {
                out.push(decode_cp437(b));
            } else {
                out.push(decode_cp1252(b));
            }
        }
        proof {
            assert(bytes@.skip(i as int).drop_first() =~= bytes@.skip(i + 1));
            assert(before + label(bytes@.skip(i as int), dos) =~= out@ + label(
                bytes@.skip(i + 1),
                dos,
            ));
        }
        i += 1;
    }
    assert(out@ + label(bytes@.skip(i as int), dos) =~= out@);
    string_of(&out)
}

/// The text of a `[u8 len][bytes]` string.
pub fn pascal(d: &[u8], dos: bool) -> (r: String)
    ensures
        r@ == pascal_label(d@, dos),
{
    if d.len() == 0 {
        return String::new();
    }
    let n: usize = d[0] as usize;
    let rest: usize = d.len() - 1;
    let end: usize = if n < rest {
        n + 1
    } else {
        d.len()
    };
    assert(d@.subrange(1, end as int) =~= d@.drop_first().take(end - 1));
    text(part(d, 1, end), dos)
}

// ------------------------------------------------------------ numbers

/// The bits of a NaN.
pub open spec fn is_nan(bits: int) -> bool {
    bits % 0x8000_0000_0000_0000 > 0x7ff0_0000_0000_0000
}

/// The bits of an infinity.
pub open spec fn is_infinite(bits: int) -> bool {
    bits % 0x8000_0000_0000_0000 == 0x7ff0_0000_0000_0000
}

/// A formula's cached result: a NaN is a string result that another record
/// supplies, an infinity an error.
pub open spec fn formula_cell(bits: int) -> Option<CellV> {
    if is_nan(bits) {
        None
    } else if is_infinite(bits) {
        Some(CellV::Text("ERR"@))
    } else {
        Some(CellV::Number(Num::Double(bits as u64)))
    }
}

/// The view of an optional cell.
pub open spec fn cell_view(c: Option<Cell>) -> Option<CellV> {
    match c {
        Some(c) => Some(c@),
        None => None,
    }
}

/// A formula's cached result.
pub fn formula_text(bits: u64) -> (r: Option<Cell>)
    ensures
        cell_view(r) == formula_cell(bits as int),
{
    let magnitude: u64 = bits % 0x8000_0000_0000_0000;
    if magnitude > 0x7ff0_0000_0000_0000 {
        None
    } else if magnitude == 0x7ff0_0000_0000_0000 {
        Some(Cell::Text("ERR".to_owned()))
    } else {
        Some(Cell::Number(Num::Double(bits)))
    }
}

/// The packed four-byte number `raw`: with low bits 10 a signed 30-bit
/// integer; otherwise a float, whose exponent field 0 stands for zero and
/// 0x7ff for no number.
pub open spec fn packed(raw: int) -> Option<Num> {
    if raw % 4 == 2 {
        let v = raw / 4;
        Some(
            Num::Int(
                if v >= 0x2000_0000 {
                    (v - 0x4000_0000) as i64
                } else {
                    v as i64
                },
            ),
        )
    } else {
        let exponent = raw / 0x10_0000 % 0x800;
        if exponent == 0 {
            Some(Num::Int(0))
        } else if exponent == 0x7ff {
            None
        } else {
            Some(Num::Packed(raw as u32))
        }
    }
}

/// The packed four-byte number `raw`.
pub fn double4(raw: u32) -> (r: Option<Num>)
    ensures
        r == packed(raw as int),
{
    if raw % 4 == 2 {
        let v: i64 = (raw / 4) as i64;
        if v >= 0x2000_0000 {
            Some(Num::Int(v - 0x4000_0000))
        } else {
            Some(Num::Int(v))
        }
    } else {
        let exponent: u32 = raw / 0x10_0000 % 0x800;
        if exponent == 0 {
            Some(Num::Int(0))
        } else if exponent == 0x7ff {
            None
        } else {
            Some(Num::Packed(raw))
        }
    }
}

// ------------------------------------------------------------ records

/// Whether a whole `[u16 type][u16 len][payload]` record stands at `pos`.
pub open spec fn has_record(d: Seq<u8>, pos: int) -> bool {
    room(d, pos, 4) && room(d, pos + 4, u16_at(d, pos + 2))
}

/// The type of the record at `pos`, without the flag bit where `mask` is set.
pub open spec fn record_op(d: Seq<u8>, pos: int, mask: bool) -> int {
    if mask {
        u16_at(d, pos) % 0x8000
    } else {
        u16_at(d, pos)
    }
}

/// The payload of the record at `pos`.
pub open spec fn record_data(d: Seq<u8>, pos: int) -> Seq<u8> {
    d.subrange(pos + 4, pos + 4 + u16_at(d, pos + 2))
}

/// Where the record after the one at `pos` begins.
pub open spec fn record_end(d: Seq<u8>, pos: int) -> int {
    pos + 4 + u16_at(d, pos + 2)
}

/// One record of a stream.
pub struct Record<'a> {
    pub op: u16,
    pub data: &'a [u8],
    pub end: usize,
}

/// The record at `pos`; a truncated one ends the stream.
pub fn record_at<'a>(d: &'a [u8], pos: usize, mask: bool) -> (r: Option<Record<'a>>)
    requires
        pos <= d@.len(),
    ensures
        r is Some <==> has_record(d@, pos as int),
        r matches Some(x) ==> {
            &&& x.op == record_op(d@, pos as int, mask)
            &&& x.data@ == record_data(d@, pos as int)
            &&& x.end == record_end(d@, pos as int)
            &&& pos < x.end <= d@.len()
        },
{
    let n = d.len();
    if n - pos < 4 {
        return None;
    }
    let op: u16 = (d[pos] as u16) + 0x100 * (d[pos + 1] as u16);
    let len: usize = (d[pos + 2] as usize) + 0x100 * (d[pos + 3] as usize);
    if n - pos - 4 < len {
        return None;
    }
    let end: usize = pos + 4 + len;
    Some(
        Record {
            op: if mask {
                op % 0x8000
            } else {
                op
            },
            data: part(d, pos + 4, end),
            end,
        },
    )
}

/// A cell and where it goes.
pub struct Placed {
    pub sheet: u16,
    pub row: u64,
    pub col: u64,
    pub cell: Cell,
}

/// View of a [`Placed`].
#[verifier::ext_equal]
pub struct PlacedV {
    pub sheet: u16,
    pub row: int,
    pub col: int,
    pub cell: CellV,
}

/// The view of an optional placed cell.
pub open spec fn placed_view(p: Option<Placed>) -> Option<PlacedV> {
    match p {
        Some(p) => Some(
            PlacedV { sheet: p.sheet, row: p.row as int, col: p.col as int, cell: p.cell@ },
        ),
        None => None,
    }
}

/// Cell records: numbers, labels and formulas, and formula strings.
pub open spec fn is_cell_op(op: int) -> bool {
    0x0c <= op <= 0x10 || op == 0x33
}

/// The double at the start of `data` as a number cell.
pub open spec fn double_cell(data: Seq<u8>) -> Option<CellV> {
    if data.len() >= 8 {
        Some(CellV::Number(Num::Double(u64_at(data, 0) as u64)))
    } else {
        None
    }
}

/// The formula cache at the start of `data`.
pub open spec fn cached_cell(data: Seq<u8>) -> Option<CellV> {
    if data.len() >= 8 {
        formula_cell(u64_at(data, 0))
    } else {
        None
    }
}

/// The integer at the start of `data` as a number cell.
pub open spec fn integer_cell(data: Seq<u8>) -> Option<CellV> {
    if data.len() >= 2 {
        Some(CellV::Number(Num::Int(as_i16(u16_at(data, 0)) as i64)))
    } else {
        None
    }
}

/// The cell that a DOS record's data holds.
pub open spec fn dos_value(op: int, data: Seq<u8>) -> Option<CellV> {
    if op == 0x0d {
        integer_cell(data)
    } else if op == 0x0e {
        double_cell(data)
    } else if op == 0x0f {
        if data.len() > 0 {
            Some(CellV::Text(pascal_label(data.skip(1), true)))
        } else {
            None
        }
    } else if op == 0x10 {
        cached_cell(data)
    } else if op == 0x33 {
        Some(CellV::Text(pascal_label(data, true)))
    } else {
        None
    }
}

/// The cell that a Windows record's data holds.
pub open spec fn windows_value(op: int, data: Seq<u8>) -> Option<CellV> {
    if op == 0x0d {
        integer_cell(data)
    } else if op == 0x0e {
        double_cell(data)
    } else if op == 0x0f || op == 0x33 {
        if data.len() > 0 {
            Some(CellV::Text(label(data.skip(1), false)))
        } else {
            None
        }
    } else if op == 0x10 {
        cached_cell(data)
    } else {
        None
    }
}

/// The cell of a DOS record: the first generation puts a format byte before
/// the address, the second a style word behind it. Rows below zero hold no
/// cells.
pub open spec fn dos_cell(op: int, p: Seq<u8>, vers: u8) -> Option<PlacedV> {
    let base = if vers == 1 { 1int } else { 0 };
    let hdr = if vers == 1 { 5int } else { 6 };
    if !is_cell_op(op) || p.len() < hdr || as_i16(u16_at(p, base + 2)) < 0 {
        None
    } else {
        match dos_value(op, p.skip(hdr)) {
            Some(cell) => Some(
                PlacedV {
                    sheet: p[base + 1] as u16,
                    row: as_i16(u16_at(p, base + 2)),
                    col: p[base] as int,
                    cell,
                },
            ),
            None => None,
        }
    }
}

/// The cell of a Windows record.
pub open spec fn windows_cell(op: int, p: Seq<u8>) -> Option<PlacedV> {
    if !is_cell_op(op) || p.len() < 6 {
        None
    } else {
        match windows_value(op, p.skip(6)) {
            Some(cell) => Some(
                PlacedV { sheet: p[1] as u16, row: u16_at(p, 2), col: p[0] as int, cell },
            ),
            None => None,
        }
    }
}

/// The workbook with a placed cell put in.
pub open spec fn place(book: Book, p: Option<PlacedV>) -> Book {
    match p {
        Some(p) => put(book, p.sheet, p.row, p.col, p.cell),
        None => book,
    }
}

/// The workbook after the DOS records from `pos` on; a record of type 1 ends
/// the stream.
pub open spec fn dos_book(d: Seq<u8>, pos: int, vers: u8, book: Book) -> Book
    decreases d.len() - pos,
{
    if pos < 0 || !has_record(d, pos) || record_op(d, pos, false) == 1 {
        book
    } else {
        dos_book(
            d,
            record_end(d, pos),
            vers,
            place(book, dos_cell(record_op(d, pos, false), record_data(d, pos), vers)),
        )
    }
}

/// The workbook after the Windows records from `pos` on.
pub open spec fn windows_book(d: Seq<u8>, pos: int, book: Book) -> Book
    decreases d.len() - pos,
{
    if pos < 0 || !has_record(d, pos) || record_op(d, pos, true) == 1 {
        book
    } else {
        windows_book(
            d,
            record_end(d, pos),
            place(book, windows_cell(record_op(d, pos, true), record_data(d, pos))),
        )
    }
}

fn read_double(data: &[u8]) -> (r: Option<Cell>)
    ensures
        cell_view(r) == double_cell(data@),
{
    match u64le(data, 0) {
        Some(bits) => Some(Cell::Number(Num::Double(bits))),
        None => None,
    }
}

fn read_cached(data: &[u8]) -> (r: Option<Cell>)
    ensures
        cell_view(r) == cached_cell(data@),
{
    match u64le(data, 0) {
        Some(bits) => formula_text(bits),
        None => None,
    }
}

fn read_integer(data: &[u8]) -> (r: Option<Cell>)
    ensures
        cell_view(r) == integer_cell(data@),
{
    match u16le(data, 0) {
        Some(v) => Some(Cell::Number(Num::Int(to_i16(v)))),
        None => None,
    }
}

fn read_dos_cell(op: u16, p: &[u8], vers: u8) -> (r: Option<Placed>)
    ensures
        placed_view(r) == dos_cell(op as int, p@, vers),
{
    let base: usize = if vers == 1 { 1 } else { 0 };
    let hdr: usize = if vers == 1 { 5 } else { 6 };
    if !((0x0c <= op && op <= 0x10) || op == 0x33) || p.len() < hdr {
        return None;
    }
    let raw: u16 = (p[base + 2] as u16) + 0x100 * (p[base + 3] as u16);
    let row: i64 = to_i16(raw);
    if row < 0 {
        return None;
    }
    let data = part(p, hdr, p.len());
    assert(data@ =~= p@.skip(hdr as int));
    let value = if op == 0x0d {
        read_integer(data)
    } else if op == 0x0e {
        read_double(data)
    } else if op == 0x0f {
        if data.len() > 0 {
            assert(data@.subrange(1, data@.len() as int) =~= data@.skip(1));
            Some(Cell::Text(pascal(part(data, 1, data.len()), true)))
        } else {
            None
        }
    } else if op == 0x10 {
        read_cached(data)
    } else if op == 0x33 {
        Some(Cell::Text(pascal(data, true)))
    } else {
        None
    };
    match value {
        Some(cell) => Some(
            Placed { sheet: p[base + 1] as u16, row: row as u64, col: p[base] as u64, cell },
        ),
        None => None,
    }
}

fn read_windows_cell(op: u16, p: &[u8]) -> (r: Option<Placed>)
    ensures
        placed_view(r) == windows_cell(op as int, p@),
{
    if !((0x0c <= op && op <= 0x10) || op == 0x33) || p.len() < 6 {
        return None;
    }
    let row: u64 = (p[2] as u64) + 0x100 * (p[3] as u64);
    let data = part(p, 6, p.len());
    assert(data@ =~= p@.skip(6));
    let value = if op == 0x0d {
        read_integer(data)
    } else if op == 0x0e {
        read_double(data)
    } else if op == 0x0f || op == 0x33 {
        if data.len() > 0 {
            assert(data@.subrange(1, data@.len() as int) =~= data@.skip(1));
            Some(Cell::Text(text(part(data, 1, data.len()), false)))
        } else {
            None
        }
    } else if op == 0x10 {
        read_cached(data)
    } else {
        None
    };
    match value {
        Some(cell) => Some(Placed { sheet: p[1] as u16, row, col: p[0] as u64, cell }),
        None => None,
    }
}

/// Reads a DOS workbook of the first (`vers` 1) or second generation.
pub fn read_dos(d: &[u8], vers: u8) -> (sheets: Sheets)
    ensures
        sheets.wf(),
        sheets@ == dos_book(d@, 0, vers, Map::empty()),
{
    let mut sheets = Sheets::new();
    let mut pos: usize = 0;
    loop
        invariant
            pos <= d@.len(),
            sheets.wf(),
            dos_book(d@, pos as int, vers, sheets@) == dos_book(d@, 0, vers, Map::empty()),
        decreases d@.len() - pos,
    {
        match record_at(d, pos, false) {
            None => {
                return sheets;
            },
            Some(record) => {
                if record.op == 1 {
                    return sheets;
                }
                match read_dos_cell(record.op, record.data, vers) {
                    Some(p) => {
                        sheets.insert(p.sheet, p.row, p.col, p.cell);
                    },
                    None => {},
                }
                pos = record.end;
            },
        }
    }
}

/// Reads a Windows workbook.
pub fn read_windows(d: &[u8]) -> (sheets: Sheets)
    ensures
        sheets.wf(),
        sheets@ == windows_book(d@, 0, Map::empty()),
{
    let mut sheets = Sheets::new();
    let mut pos: usize = 0;
    loop
        invariant
            pos <= d@.len(),
            sheets.wf(),
            windows_book(d@, pos as int, sheets@) == windows_book(d@, 0, Map::empty()),
        decreases d@.len() - pos,
    {
        match record_at(d, pos, true) {
            None => {
                return sheets;
            },
            Some(record) => {
                if record.op == 1 {
                    return sheets;
                }
                match read_windows_cell(record.op, record.data) {
                    Some(p) => {
                        sheets.insert(p.sheet, p.row, p.col, p.cell);
                    },
                    None => {},
                }
                pos = record.end;
            },
        }
    }
}

// ------------------------------------------------------------ zones

/// The length of the header of the zone at `pos`: six bytes when bit 15 of
/// the id announces a long length.
pub open spec fn zone_header(d: Seq<u8>, pos: int) -> int {
    if u16_at(d, pos) >= 0x8000 {
        6
    } else {
        4
    }
}

/// The payload length of the zone at `pos`.
pub open spec fn zone_len(d: Seq<u8>, pos: int) -> int {
    if u16_at(d, pos) >= 0x8000 {
        u32_at(d, pos + 2)
    } else {
        u16_at(d, pos + 2)
    }
}

/// Whether a whole zone stands at `pos`.
pub open spec fn has_zone(d: Seq<u8>, pos: int) -> bool {
    room(d, pos, 2) && room(d, pos, zone_header(d, pos)) && room(
        d,
        pos + zone_header(d, pos),
        zone_len(d, pos),
    )
}

/// The id of the zone at `pos`.
pub open spec fn zone_id(d: Seq<u8>, pos: int) -> int {
    u16_at(d, pos) % 0x8000
}

/// Where the zone after the one at `pos` begins.
pub open spec fn zone_end(d: Seq<u8>, pos: int) -> int {
    pos + zone_header(d, pos) + zone_len(d, pos)
}

/// The payload of the zone at `pos`.
pub open spec fn zone_data(d: Seq<u8>, pos: int) -> Seq<u8> {
    d.subrange(pos + zone_header(d, pos), zone_end(d, pos))
}

/// The zone at `pos`; a truncated one ends the stream.
pub fn zone_at<'a>(d: &'a [u8], pos: usize) -> (r: Option<Record<'a>>)
    requires
        pos <= d@.len(),
    ensures
        r is Some <==> has_zone(d@, pos as int),
        r matches Some(x) ==> {
            &&& x.op == zone_id(d@, pos as int)
            &&& x.data@ == zone_data(d@, pos as int)
            &&& x.data@.len() <= u32::MAX
            &&& x.end == zone_end(d@, pos as int)
            &&& pos < x.end <= d@.len()
        },
{
    let n = d.len();
    let id: u16 = match u16le(d, pos) {
        Some(id) => id,
        None => {
            return None;
        },
    };
    let hdr: usize = if id >= 0x8000 { 6 } else { 4 };
    if n - pos < hdr {
        return None;
    }
    let len: usize = if id >= 0x8000 {
        match u32le(d, pos + 2) {
            Some(len) => len as usize,
            None => {
                return None;
            },
        }
    } else {
        match u16le(d, pos + 2) {
            Some(len) => len as usize,
            None => {
                return None;
            },
        }
    };
    if n - pos - hdr < len {
        return None;
    }
    let end: usize = pos + hdr + len;
    Some(Record { op: id % 0x8000, data: part(d, pos + hdr, end), end })
}

// ------------------------------------------------------------ strings

/// Whether a string entry `[u16 len][u8 flags][bytes]` stands at `at`, with
/// a style block of at least six bytes where flags bit 1 announces one.
pub open spec fn has_string(d: Seq<u8>, at: int) -> bool {
    &&& room(d, at, 3)
    &&& room(d, at + 3, u16_at(d, at))
    &&& d[at + 2] / 2 % 2 == 1 ==> {
        let end = at + 3 + u16_at(d, at);
        room(d, end, 2) && u16_at(d, end) >= 6
    }
}

/// The text of the string entry at `at`.
pub open spec fn string_text(d: Seq<u8>, at: int) -> Seq<char> {
    label(d.subrange(at + 3, at + 3 + u16_at(d, at)), false)
}

/// Where the entry after the string entry at `at` begins.
pub open spec fn string_end(d: Seq<u8>, at: int) -> int {
    let end = at + 3 + u16_at(d, at);
    if d[at + 2] / 2 % 2 == 1 {
        end + u16_at(d, end)
    } else {
        end
    }
}

/// The string entry at `at` and the offset after it.
pub fn qpw_string(d: &[u8], at: usize) -> (r: Option<(String, usize)>)
    requires
        d@.len() <= isize::MAX,
    ensures
        r is Some <==> has_string(d@, at as int),
        r matches Some(x) ==> x.0@ == string_text(d@, at as int) && x.1 == string_end(
            d@,
            at as int,
        ) && at < x.1 <= d@.len() + 0xffff,
{
    let n = d.len();
    if at > n || n - at < 3 {
        return None;
    }
    let len: usize = (d[at] as usize) + 0x100 * (d[at + 1] as usize);
    let styled = d[at + 2] / 2 % 2 == 1;
    if n - at - 3 < len {
        return None;
    }
    let mut end: usize = at + 3 + len;
    let bytes = part(d, at + 3, end);
    if styled {
        let size: usize = match u16le(d, end) {
            Some(size) => size as usize,
            None => {
                return None;
            },
        };
        if size < 6 {
            return None;
        }
        end = end + size;
    }
    Some((text(bytes, false), end))
}

/// The strings of a string table after `n` more entries from `at` on; an
/// entry that does not fit ends the table.
pub open spec fn string_table(
    p: Seq<u8>,
    at: int,
    n: int,
    strings: Seq<Seq<char>>,
) -> Seq<Seq<char>>
    decreases n,
{
    if n <= 0 || !has_string(p, at) {
        strings
    } else {
        string_table(p, string_end(p, at), n - 1, strings.push(string_text(p, at)))
    }
}

// ------------------------------------------------------------ cell runs

/// A run of cells of one type: `n` rows, read from values at `base`, with
/// `step` set when they are a first value and an increment.
pub struct Run {
    pub kind: u8,
    pub n: usize,
    pub step: bool,
    pub base: usize,
    pub next: usize,
}

/// View of a [`Run`].
pub struct RunV {
    pub kind: int,
    pub n: int,
    pub step: bool,
    pub base: int,
    pub next: int,
}

impl View for Run {
    type V = RunV;

    open spec fn view(&self) -> RunV {
        RunV {
            kind: self.kind as int,
            n: self.n as int,
            step: self.step,
            base: self.base as int,
            next: self.next as int,
        }
    }
}

/// How far the value `k` of a run stands behind the first.
pub open spec fn offset(kind: int, k: int) -> int {
    if kind == 2 || kind == 3 {
        2 * k
    } else if kind == 4 || kind == 7 {
        4 * k
    } else if kind == 5 {
        8 * k
    } else if kind == 8 {
        14 * k
    } else {
        0
    }
}

/// The bytes of a value that are read.
pub open spec fn width(kind: int) -> int {
    if kind == 8 {
        8
    } else {
        offset(kind, 1)
    }
}

/// The types of cells: 1 empty, 2 and 3 16-bit, 4 packed, 5 double, 7 string
/// index, 8 formula.
pub open spec fn is_kind(kind: int) -> bool {
    1 <= kind <= 5 || kind == 7 || kind == 8
}

/// Where the type's count or first value stands, behind the style word.
pub open spec fn run_body(p: Seq<u8>, at: int) -> int {
    if p[at] >= 0x80 {
        at + 3
    } else {
        at + 1
    }
}

/// How the values are given: 0 one value, 2 a counted list, 3 a counted
/// first value with an increment.
pub open spec fn run_mode(p: Seq<u8>, at: int) -> int {
    p[at] as int % 0x80 / 0x20
}

/// The number of values that the file holds.
pub open spec fn run_values(p: Seq<u8>, at: int) -> int {
    if run_mode(p, at) == 2 {
        u16_at(p, run_body(p, at))
    } else if run_mode(p, at) == 3 {
        2
    } else {
        1
    }
}

/// The run at `at`, when it is whole.
pub open spec fn run_at(p: Seq<u8>, at: int) -> Option<RunV> {
    let mode = run_mode(p, at);
    let body = run_body(p, at);
    let kind = p[at] as int % 0x20;
    let values = run_values(p, at);
    let base = if mode >= 2 { body + 2 } else { body };
    if mode == 1 || (mode >= 2 && !room(p, body, 2)) || !is_kind(kind) {
        None
    } else if kind != 1 && values > 0 && !room(p, base + offset(kind, values - 1), width(kind)) {
        None
    } else {
        Some(
            RunV {
                kind,
                n: if mode >= 2 { u16_at(p, body) } else { 1 },
                step: mode == 3,
                base,
                next: base + offset(kind, values),
            },
        )
    }
}

/// The number that the value `k` of a run holds.
pub open spec fn run_number(p: Seq<u8>, r: RunV, k: int) -> Option<Num> {
    let at = r.base + offset(r.kind, k);
    if r.kind == 2 {
        Some(Num::Int(u16_at(p, at) as i64))
    } else if r.kind == 3 {
        Some(Num::Int(as_i16(u16_at(p, at)) as i64))
    } else if r.kind == 4 {
        packed(u32_at(p, at))
    } else if is_nan(u64_at(p, at)) {
        None
    } else {
        Some(Num::Double(u64_at(p, at) as u64))
    }
}

/// `first + k * step`; integers add up exactly.
pub open spec fn progress(first: Num, step: Num, k: int) -> CellV {
    match (first, step) {
        (Num::Int(a), Num::Int(b)) => CellV::Number(Num::Int((a + k * b) as i64)),
        _ => CellV::Series { first, step, times: k as u64 },
    }
}

/// The formula result `k` steps behind the first one of a run: an infinite
/// first result or increment is an error, and without an increment the first
/// result stands.
pub open spec fn stepped_formula(first: int, step: int, k: int) -> Option<CellV> {
    match formula_cell(first) {
        Some(CellV::Number(a)) => if is_nan(step) || (is_infinite(step) && k == 0) {
            Some(CellV::Number(a))
        } else if is_infinite(step) {
            formula_cell(step)
        } else {
            Some(progress(a, Num::Double(step as u64), k))
        },
        c => c,
    }
}

/// The string at a 1-based index.
pub open spec fn string_cell(strings: Seq<Seq<char>>, ix: int) -> Option<CellV> {
    if 1 <= ix <= strings.len() {
        Some(CellV::Text(strings[ix - 1]))
    } else {
        None
    }
}

/// The cell in row `k` of a run.
pub open spec fn run_cell(p: Seq<u8>, r: RunV, strings: Seq<Seq<char>>, k: int) -> Option<CellV> {
    if r.kind == 1 {
        None
    } else if r.kind == 7 {
        if r.step {
            string_cell(strings, u32_at(p, r.base) + k * u32_at(p, r.base + 4))
        } else {
            string_cell(strings, u32_at(p, r.base + 4 * k))
        }
    } else if r.kind == 8 {
        if r.step {
            stepped_formula(u64_at(p, r.base), u64_at(p, r.base + 14), k)
        } else {
            formula_cell(u64_at(p, r.base + 14 * k))
        }
    } else if r.step {
        match (run_number(p, r, 0), run_number(p, r, 1)) {
            (Some(a), Some(b)) => Some(progress(a, b, k)),
            (Some(a), None) => Some(CellV::Number(a)),
            (None, _) => None,
        }
    } else {
        match run_number(p, r, k) {
            Some(a) => Some(CellV::Number(a)),
            None => None,
        }
    }
}

/// The workbook with the rows of a run from `k` on put in.
pub open spec fn put_run(
    p: Seq<u8>,
    r: RunV,
    strings: Seq<Seq<char>>,
    k: int,
    sheet: u16,
    row: int,
    col: int,
    book: Book,
) -> Book
    decreases r.n - k,
{
    if k >= r.n {
        book
    } else {
        put_run(
            p,
            r,
            strings,
            k + 1,
            sheet,
            row,
            col,
            match run_cell(p, r, strings, k) {
                Some(cell) => put(book, sheet, row + k, col, cell),
                None => book,
            },
        )
    }
}

/// The workbook with the runs from `at` on put down the column; a run that
/// is not whole ends the zone.
pub open spec fn put_runs(
    p: Seq<u8>,
    at: int,
    strings: Seq<Seq<char>>,
    sheet: u16,
    row: int,
    col: int,
    book: Book,
) -> Book
    decreases
            if at < p.len() {
                p.len() - at
            } else {
                0
            },
{
    if at < 0 || at >= p.len() {
        book
    } else {
        match run_at(p, at) {
            None => book,
            Some(r) => put_runs(
                p,
                r.next,
                strings,
                sheet,
                row + r.n,
                col,
                put_run(p, r, strings, 0, sheet, row, col, book),
            ),
        }
    }
}

/// The workbook with a zone of cells (`u32 first row`, `u32 count`, runs)
/// put down the column.
pub open spec fn put_zone(
    p: Seq<u8>,
    strings: Seq<Seq<char>>,
    sheet: u16,
    col: int,
    book: Book,
) -> Book {
    if room(p, 0, 8) {
        put_runs(p, 8, strings, sheet, u32_at(p, 0), col, book)
    } else {
        book
    }
}

/// The run at `at`, when it is whole.
fn read_run(p: &[u8], at: usize) -> (r: Option<Run>)
    requires
        at < p@.len() <= isize::MAX,
    ensures
        r is Some <==> run_at(p@, at as int) is Some,
        r matches Some(x) ==> run_at(p@, at as int) == Some(x@) && x.n <= 0xffff && x.next > at,
{
    let typ: u8 = p[at];
    let body: usize = if typ >= 0x80 { at + 3 } else { at + 1 };
    let mode: u8 = typ % 0x80 / 0x20;
    let kind: u8 = typ % 0x20;
    if mode == 1 {
        return None;
    }
    let mut n: usize = 1;
    let mut base: usize = body;
    if mode >= 2 {
        match u16le(p, body) {
            Some(v) => {
                n = v as usize;
                base = body + 2;
            },
            None => {
                return None;
            },
        }
    }
    let values: usize = if mode == 2 { n } else if mode == 3 { 2 } else { 1 };
    let stride: usize = if kind == 2 || kind == 3 {
        2
    } else if kind == 4 || kind == 7 {
        4
    } else if kind == 5 {
        8
    } else if kind == 8 {
        14
    } else if kind == 1 {
        0
    } else {
        return None;
    };
    assert(forall|k: int| #[trigger] offset(kind as int, k) == stride * k) by {
        assert forall|k: int| #[trigger] offset(kind as int, k) == stride * k by {
            assert(stride * k == offset(kind as int, k)) by (nonlinear_arith)
                requires
                    offset(kind as int, k) == 2 * k && stride == 2 || offset(kind as int, k) == 4
                        * k && stride == 4 || offset(kind as int, k) == 8 * k && stride == 8
                        || offset(kind as int, k) == 14 * k && stride == 14 || offset(
                        kind as int,
                        k,
                    ) == 0 && stride == 0,
            ;
        }
    }
    assert(stride * values <= 14 * 0xffff) by (nonlinear_arith)
        requires
            stride <= 14,
            values <= 0xffff,
    ;
    if kind != 1 && values > 0 {
        let reach: usize = if kind == 8 { 8 } else { stride };
        assert(stride * (values - 1) <= stride * values) by (nonlinear_arith);
        assert(offset(kind as int, values - 1) == stride * (values - 1));
        if !has_room(p, base + stride * (values - 1), reach) {
            return None;
        }
    }
    assert(offset(kind as int, values as int) == stride * values);
    assert(0 <= stride * values) by (nonlinear_arith);
    Some(Run { kind, n, step: mode == 3, base, next: base + stride * values })
}

/// A value of a run can be read where the last one can.
proof fn value_fits(p: Seq<u8>, at: int, r: RunV, k: int)
    requires
        0 <= at < p.len(),
        run_at(p, at) == Some(r),
        r.kind != 1,
        0 <= k < run_values(p, at),
    ensures
        room(p, r.base + offset(r.kind, k), width(r.kind)),
        0 <= offset(r.kind, k),
        k <= 0xffff,
{
}

/// The number that the value `k` of a run holds.
fn read_number(p: &[u8], at: usize, r: &Run, k: usize) -> (v: Option<Num>)
    requires
        at < p@.len() <= isize::MAX,
        run_at(p@, at as int) == Some(r@),
        r.kind != 1 && r.kind != 7,
        k < run_values(p@, at as int),
    ensures
        v == run_number(p@, r@, k as int),
        v matches Some(Num::Int(a)) ==> -0x4000_0000 <= a <= 0x4000_0000,
{
    proof {
        value_fits(p@, at as int, r@, k as int);
    }
    if r.kind == 2 || r.kind == 3 {
        match u16le(p, r.base + 2 * k) {
            Some(v) => if r.kind == 2 {
                Some(Num::Int(v as i64))
            } else {
                Some(Num::Int(to_i16(v)))
            },
            None => None,
        }
    } else if r.kind == 4 {
        match u32le(p, r.base + 4 * k) {
            Some(v) => double4(v),
            None => None,
        }
    } else {
        let from: usize = if r.kind == 5 { r.base + 8 * k } else { r.base + 14 * k };
        match u64le(p, from) {
            Some(bits) => if bits % 0x8000_0000_0000_0000 > 0x7ff0_0000_0000_0000 {
                None
            } else {
                Some(Num::Double(bits))
            },
            None => None,
        }
    }
}

/// `first + k * step`.
fn advance(first: Num, step: Num, k: usize) -> (r: Cell)
    requires
        k <= 0xffff,
        first matches Num::Int(a) ==> -0x4000_0000 <= a <= 0x4000_0000,
        step matches Num::Int(a) ==> -0x4000_0000 <= a <= 0x4000_0000,
    ensures
        r@ == progress(first, step, k as int),
{
    match (first, step) {
        (Num::Int(a), Num::Int(b)) => {
            let k: i64 = k as i64;
            assert(-0x4000_0000 * 0xffff <= k * b <= 0x4000_0000 * 0xffff) by (nonlinear_arith)
                requires
                    0 <= k <= 0xffff,
                    -0x4000_0000 <= b <= 0x4000_0000,
            ;
            Cell::Number(Num::Int(a + k * b))
        },
        _ => Cell::Series { first, step, times: k as u64 },
    }
}

/// The formula result `k` steps behind the first one of a run.
fn step_formula(first: u64, step: u64, k: usize) -> (r: Option<Cell>)
    requires
        k <= 0xffff,
    ensures
        cell_view(r) == stepped_formula(first as int, step as int, k as int),
{
    match formula_text(first) {
        Some(Cell::Number(a)) => {
            let magnitude: u64 = step % 0x8000_0000_0000_0000;
            assert(a == Num::Double(first));
            if magnitude > 0x7ff0_0000_0000_0000 || (magnitude == 0x7ff0_0000_0000_0000 && k == 0) {
                Some(Cell::Number(a))
            } else if magnitude == 0x7ff0_0000_0000_0000 {
                formula_text(step)
            } else {
                Some(advance(a, Num::Double(step), k))
            }
        },
        c => c,
    }
}

/// The string at a 1-based index.
fn string_at(strings: &Vec<String>, ix: u64) -> (r: Option<Cell>)
    ensures
        cell_view(r) == string_cell(strs(strings@), ix as int),
{
    if 1 <= ix && ix <= strings.len() as u64 {
        let i: usize = (ix - 1) as usize;
        Some(Cell::Text(strings[i].clone()))
    } else {
        None
    }
}

/// The cell in row `k` of a run.
fn read_run_cell(p: &[u8], at: usize, r: &Run, strings: &Vec<String>, k: usize) -> (c: Option<Cell>)
    requires
        at < p@.len() <= isize::MAX,
        run_at(p@, at as int) == Some(r@),
        k < r.n <= 0xffff,
    ensures
        cell_view(c) == run_cell(p@, r@, strs(strings@), k as int),
{
    if r.kind == 1 {
        return None;
    }
    if r.kind == 7 {
        if r.step {
            proof {
                value_fits(p@, at as int, r@, 0);
                value_fits(p@, at as int, r@, 1);
            }
            match (u32le(p, r.base), u32le(p, r.base + 4)) {
                (Some(a), Some(b)) => {
                    let (a, b, k64): (u64, u64, u64) = (a as u64, b as u64, k as u64);
                    assert(0 <= k64 * b <= 0xffff * 0xffff_ffff) by (nonlinear_arith)
                        requires
                            k64 <= 0xffff,
                            b <= 0xffff_ffff,
                    ;
                    string_at(strings, a + k64 * b)
                },
                _ => None,
            }
        } else {
            proof {
                value_fits(p@, at as int, r@, k as int);
            }
            match u32le(p, r.base + 4 * k) {
                Some(ix) => string_at(strings, ix as u64),
                None => None,
            }
        }
    } else if r.kind == 8 {
        if r.step {
            proof {
                value_fits(p@, at as int, r@, 0);
                value_fits(p@, at as int, r@, 1);
            }
            match (u64le(p, r.base), u64le(p, r.base + 14)) {
                (Some(a), Some(b)) => step_formula(a, b, k),
                _ => None,
            }
        } else {
            proof {
                value_fits(p@, at as int, r@, k as int);
            }
            match u64le(p, r.base + 14 * k) {
                Some(bits) => formula_text(bits),
                None => None,
            }
        }
    } else if r.step {
        match (read_number(p, at, r, 0), read_number(p, at, r, 1)) {
            (Some(a), Some(b)) => Some(advance(a, b, k)),
            (Some(a), None) => Some(Cell::Number(a)),
            (None, _) => None,
        }
    } else {
        match read_number(p, at, r, k) {
            Some(a) => Some(Cell::Number(a)),
            None => None,
        }
    }
}

/// Puts a zone of cells down a column: `u32 first row`, `u32 count`, then
/// runs of typed cells.
pub fn qpw_cells(p: &[u8], strings: &Vec<String>, sheets: &mut Sheets, sheet: u16, col: u64)
    requires
        old(sheets).wf(),
        p@.len() <= u32::MAX,
        p@.len() <= isize::MAX,
    ensures
        final(sheets).wf(),
        final(sheets)@ == put_zone(p@, strs(strings@), sheet, col as int, old(sheets)@),
{
    let ghost want = put_zone(p@, strs(strings@), sheet, col as int, sheets@);
    let first: u32 = match u32le(p, 0) {
        Some(first) => first,
        None => {
            return;
        },
    };
    if u32le(p, 4).is_none() {
        return;
    }
    let mut row: u64 = first as u64;
    let mut at: usize = 8;
    while at < p.len()
        invariant
            sheets.wf(),
            p@.len() <= u32::MAX,
            p@.len() <= isize::MAX,
            row <= 0xffff_ffff + 0xffff * at,
            want == put_zone(p@, strs(strings@), sheet, col as int, old(sheets)@),
            want == put_runs(
                p@,
                at as int,
                strs(strings@),
                sheet,
                row as int,
                col as int,
                sheets@,
            ),
        decreases
                if at < p@.len() {
                    p@.len() - at
                } else {
                    0
                },
    {
        let r = match read_run(p, at) {
            Some(r) => r,
            None => {
                return;
            },
        };
        let mut k: usize = 0;
        while k < r.n
            invariant
                sheets.wf(),
                at < p@.len() <= isize::MAX,
                p@.len() <= u32::MAX,
                row <= 0xffff_ffff + 0xffff * at,
                run_at(p@, at as int) == Some(r@),
                k <= r.n <= 0xffff,
                want == put_runs(
                    p@,
                    r.next as int,
                    strs(strings@),
                    sheet,
                    row + r.n,
                    col as int,
                    put_run(
                        p@,
                        r@,
                        strs(strings@),
                        k as int,
                        sheet,
                        row as int,
                        col as int,
                        sheets@,
                    ),
                ),
            decreases r.n - k,
        {
            match read_run_cell(p, at, &r, strings, k) {
                Some(cell) => {
                    sheets.insert(sheet, row + k as u64, col, cell);
                },
                None => {},
            }
            k += 1;
        }
        row = row + r.n as u64;
        at = r.next;
    }
}

// ------------------------------------------------------------ workbooks

/// What reading the zones has found so far.
pub struct Progress {
    pub book: Book,
    pub strings: Seq<Seq<char>>,
    pub sheet: u16,
    pub col: int,
}

/// What one zone adds.
pub open spec fn read_zone(id: int, p: Seq<u8>, s: Progress) -> Progress {
    if id == 0x407 {
        if room(p, 0, 4) {
            Progress { strings: string_table(p, 12, u32_at(p, 0), s.strings), ..s }
        } else {
            s
        }
    } else if id == 0x601 {
        Progress {
            sheet: if room(p, 0, 2) {
                u16_at(p, 0) as u16
            } else {
                0
            },
            ..s
        }
    } else if id == 0xa01 {
        Progress {
            col: if room(p, 0, 2) {
                u16_at(p, 0)
            } else {
                0
            },
            ..s
        }
    } else if id == 0xc01 {
        Progress { book: put_zone(p, s.strings, s.sheet, s.col, s.book), ..s }
    } else if id == 0xc02 {
        if room(p, 0, 6) && has_string(p, 6) {
            Progress {
                book: put(
                    s.book,
                    s.sheet,
                    u32_at(p, 2),
                    u16_at(p, 0),
                    CellV::Text(string_text(p, 6)),
                ),
                ..s
            }
        } else {
            s
        }
    } else {
        s
    }
}

/// What the zones from `pos` on add.
pub open spec fn read_zones(d: Seq<u8>, pos: int, s: Progress) -> Progress
    decreases d.len() - pos,
{
    if pos < 0 || !has_zone(d, pos) {
        s
    } else {
        read_zones(d, zone_end(d, pos), read_zone(zone_id(d, pos), zone_data(d, pos), s))
    }
}

/// The workbook of a zone stream.
pub open spec fn qpw_book(d: Seq<u8>) -> Book {
    read_zones(d, 0, Progress { book: Map::empty(), strings: seq![], sheet: 0, col: 0 }).book
}

fn read_strings(p: &[u8], strings: &mut Vec<String>)
    requires
        p@.len() <= isize::MAX,
    ensures
        strs(final(strings)@) == if room(p@, 0, 4) {
            string_table(p@, 12, u32_at(p@, 0), strs(old(strings)@))
        } else {
            strs(old(strings)@)
        },
{
    let n: u32 = match u32le(p, 0) {
        Some(n) => n,
        None => {
            return;
        },
    };
    let mut at: usize = 12;
    let mut left: u32 = n;
    while left > 0
        invariant
            p@.len() <= isize::MAX,
            room(p@, 0, 4),
            n == u32_at(p@, 0),
            string_table(p@, at as int, left as int, strs(strings@)) == string_table(
                p@,
                12,
                n as int,
                strs(old(strings)@),
            ),
        decreases left,
    {
        match qpw_string(p, at) {
            None => {
                return;
            },
            Some((s, end)) => {
                proof {
                    strs_push(strings@, s);
                }
                strings.push(s);
                at = end;
            },
        }
        left -= 1;
    }
}

/// Reads a zone stream.
pub fn read_qpw(d: &[u8]) -> (sheets: Sheets)
    requires
        d@.len() <= isize::MAX,
    ensures
        sheets.wf(),
        sheets@ == qpw_book(d@),
{
    let mut sheets = Sheets::new();
    let mut strings: Vec<String> = Vec::new();
    let mut sheet: u16 = 0;
    let mut col: u64 = 0;
    let mut pos: usize = 0;
    assert(strs(strings@) =~= seq![]);
    loop
        invariant
            d@.len() <= isize::MAX,
            pos <= d@.len(),
            sheets.wf(),
            read_zones(
                d@,
                pos as int,
                (Progress { book: sheets@, strings: strs(strings@), sheet, col: col as int }),
            ).book == qpw_book(d@),
        decreases d@.len() - pos,
    {
        match zone_at(d, pos) {
            None => {
                return sheets;
            },
            Some(zone) => {
                let p = zone.data;
                let ghost was = Progress {
                    book: sheets@,
                    strings: strs(strings@),
                    sheet,
                    col: col as int,
                };
                if zone.op == 0x407 {
                    read_strings(p, &mut strings);
                } else if zone.op == 0x601 {
                    sheet = match u16le(p, 0) {
                        Some(v) => v,
                        None => 0,
                    };
                } else if zone.op == 0xa01 {
                    col = match u16le(p, 0) {
                        Some(v) => v as u64,
                        None => 0,
                    };
                } else if zone.op == 0xc01 {
                    qpw_cells(p, &strings, &mut sheets, sheet, col);
                } else if zone.op == 0xc02 {
                    match (u16le(p, 0), u32le(p, 2)) {
                        (Some(c), Some(row)) => {
                            match qpw_string(p, 6) {
                                Some((s, _)) => {
                                    sheets.insert(sheet, row as u64, c as u64, Cell::Text(s));
                                },
                                None => {},
                            }
                        },
                        _ => {},
                    }
                }
                assert(read_zone(zone.op as int, p@, was) == (Progress {
                    book: sheets@,
                    strings: strs(strings@),
                    sheet,
                    col: col as int,
                }));
                pos = zone.end;
            },
        }
    }
}

/// The tables of sheets one after another.
pub open spec fn chained(parts: Seq<Seq<Seq<Seq<CellV>>>>) -> Seq<Seq<Seq<CellV>>>
    decreases parts.len(),
{
    if parts.len() == 0 {
        seq![]
    } else {
        chained(parts.drop_last()) + parts.last()
    }
}

/// `tables` are the data regions of the sheets, sheet by sheet in ascending
/// order of their numbers.
pub open spec fn is_book_tables(book: Book, tables: Seq<Seq<Seq<CellV>>>) -> bool {
    exists|ids: Seq<u16>, parts: Seq<Seq<Seq<Seq<CellV>>>>|
        {
            &&& #[trigger] sheet_order(book, ids)
            &&& parts.len() == ids.len()
            &&& forall|k: int| 0 <= k < ids.len() ==> is_regions(book[#[trigger] ids[k]], parts[k])
            &&& tables == #[trigger] chained(parts)
        }
}

/// `ids` are the numbers of the sheets in ascending order.
pub open spec fn sheet_order(book: Book, ids: Seq<u16>) -> bool {
    &&& forall|i: int, j: int| 0 <= i < j < ids.len() ==> #[trigger] ids[i] < #[trigger] ids[j]
    &&& forall|id: u16| #[trigger] book.contains_key(id) <==> ids.contains(id)
}

impl Sheets {
    /// The data regions of all sheets.
    pub fn tables(&self) -> (r: Vec<Vec<Vec<Cell>>>)
        requires
            self.wf(),
        ensures
            is_book_tables(self@, tables_view(r@)),
    {
        let mut out: Vec<Vec<Vec<Cell>>> = Vec::new();
        let ghost mut parts: Seq<Seq<Seq<Seq<CellV>>>> = seq![];
        let mut i: usize = 0;
        assert(tables_view(out@) =~= chained(parts));
        while i < self.list.len()
            invariant
                i <= self.list@.len(),
                self.wf(),
                parts.len() == i,
                forall|k: int| 0 <= k < i ==> is_regions(self.list@[k].grid@, #[trigger] parts[k]),
                tables_view(out@) == chained(parts),
            decreases self.list@.len() - i,
        {
            let mut part = self.list[i].grid.regions();
            proof {
                let p = tables_view(part@);
                let more = parts.push(p);
                assert(more.drop_last() =~= parts);
                assert(tables_view(out@ + part@) =~= chained(more));
                parts = more;
            }
            out.append(&mut part);
            i += 1;
        }
        proof {
            let ids = Seq::new(self.list@.len(), |k: int| self.list@[k].id);
            assert forall|id: u16| #[trigger] self@.contains_key(id) <==> ids.contains(id) by {
                if self.holds(id) {
                    assert(ids[self.slot(id)] == id);
                }
                if ids.contains(id) {
                    let k = choose|k: int| 0 <= k < ids.len() && ids[k] == id;
                    assert(self.list@[k].id == id);
                }
            }
            assert forall|k: int| 0 <= k < ids.len() implies is_regions(
                self@[#[trigger] ids[k]],
                parts[k],
            ) by {
                self.slot_is(k);
            }
            assert(sheet_order(self@, ids));
        }
        out
    }
}

/// Why a file is no Quattro Pro spreadsheet.
#[derive(Clone, Copy, Debug, PartialEq, Eq, Structural)]
pub enum QuattroError {
    /// The container cannot be read.
    UnreadableContainer,
    /// The main stream of an office container is no spreadsheet.
    NoBofInMainStream,
    /// The native content stream is no zone stream.
    NotQpw9,
    /// The container holds neither stream.
    NoStream,
    /// The file ends before its signature.
    TooShort,
    /// The signature is not known.
    NoBof,
}

impl QuattroError {
    /// The message of an error.
    pub open spec fn text(self) -> Seq<char> {
        match self {
            QuattroError::UnreadableContainer => "quattro: unreadable OLE container"@,
            QuattroError::NoBofInMainStream =>
                "quattro: PerfectOffice_MAIN stream without a Quattro Pro BOF"@,
            QuattroError::NotQpw9 =>
                "quattro: NativeContent_MAIN stream is not a QPW9 spreadsheet"@,
            QuattroError::NoStream =>
                "quattro: OLE container without a Quattro Pro stream (no PerfectOffice_MAIN / NativeContent_MAIN)"@,
            QuattroError::TooShort => "quattro: file too short"@,
            QuattroError::NoBof => "quattro: no Quattro Pro BOF signature"@,
        }
    }

    /// The message of an error.
    pub fn message(&self) -> (r: String)
        ensures
            r@ == self.text(),
    {
        match self {
            QuattroError::UnreadableContainer => "quattro: unreadable OLE container".to_owned(),
            QuattroError::NoBofInMainStream => "quattro: PerfectOffice_MAIN stream without a Quattro Pro BOF".to_owned(),
            QuattroError::NotQpw9 => "quattro: NativeContent_MAIN stream is not a QPW9 spreadsheet".to_owned(),
            QuattroError::NoStream => "quattro: OLE container without a Quattro Pro stream (no PerfectOffice_MAIN / NativeContent_MAIN)".to_owned(),
            QuattroError::TooShort => "quattro: file too short".to_owned(),
            QuattroError::NoBof => "quattro: no Quattro Pro BOF signature".to_owned(),
        }
    }
}

/// What a file holds: plain bytes, or a compound container with its two
/// streams of interest. `None` stands for a container that cannot be read.
pub enum Content {
    Plain(Vec<u8>),
    Container(Option<Streams>),
}

/// The streams of a container that may hold a spreadsheet.
pub struct Streams {
    pub main: Option<Vec<u8>>,
    pub native: Option<Vec<u8>>,
}

/// The workbook that a file holds, or why it holds none.
pub open spec fn workbook(c: Content) -> Result<Book, QuattroError> {
    match c {
        Content::Container(None) => Err(QuattroError::UnreadableContainer),
        Content::Container(Some(s)) => match (s.main, s.native) {
            (Some(main), _) => if main@.len() >= 6 && main@.take(6) == seq![
                0u8,
                0,
                2,
                0,
                0x07,
                0x10,
            ] {
                Ok(windows_book(main@, 0, Map::empty()))
            } else {
                Err(QuattroError::NoBofInMainStream)
            },
            (None, Some(native)) => if native@.len() >= 8 && native@.take(8) == seq![
                1u8,
                0,
                0x0e,
                0,
                0x51,
                0x50,
                0x57,
                0x39,
            ] {
                Ok(qpw_book(native@))
            } else {
                Err(QuattroError::NotQpw9)
            },
            (None, None) => Err(QuattroError::NoStream),
        },
        Content::Plain(d) => if d@.len() < 6 {
            Err(QuattroError::TooShort)
        } else if u16_at(d@, 0) != 0 {
            Err(QuattroError::NoBof)
        } else if u16_at(d@, 4) == 0x5120 {
            Ok(dos_book(d@, 0, 1, Map::empty()))
        } else if u16_at(d@, 4) == 0x5121 {
            Ok(dos_book(d@, 0, 2, Map::empty()))
        } else if u16_at(d@, 4) == 0x1001 || u16_at(d@, 4) == 0x1002 {
            Ok(windows_book(d@, 0, Map::empty()))
        } else {
            Err(QuattroError::NoBof)
        },
    }
}

/// Whether `d` begins with `magic`.
fn begins(d: &Vec<u8>, magic: &[u8]) -> (r: bool)
    ensures
        r == (d@.len() >= magic@.len() && d@.take(magic@.len() as int) == magic@),
{
    if d.len() < magic.len() {
        return false;
    }
    let mut i: usize = 0;
    while i < magic.len()
        invariant
            i <= magic@.len() <= d@.len(),
            d@.take(i as int) == magic@.take(i as int),
        decreases magic@.len() - i,
    {
        if d[i] != magic[i] {
            assert(d@.take(magic@.len() as int)[i as int] == d@[i as int]);
            return false;
        }
        proof {
            assert(d@.take(i + 1) =~= d@.take(i as int).push(d@[i as int]));
            assert(magic@.take(i + 1) =~= magic@.take(i as int).push(magic@[i as int]));
        }
        i += 1;
    }
    assert(magic@.take(magic@.len() as int) =~= magic@);
    true
}

/// The Quattro Pro backend.
pub struct QuattroBackend;

impl QuattroBackend {
    /// Reads a file into the data regions of its sheets.
    pub fn convert(&self, content: &Content) -> (r: Result<Vec<Vec<Vec<Cell>>>, QuattroError>)
        requires
            content matches Content::Container(Some(s)) ==> (s.native matches Some(d)
                ==> d@.len() <= isize::MAX),
        ensures
            match workbook(*content) {
                Ok(book) => r matches Ok(tables) && is_book_tables(book, tables_view(tables@)),
                Err(e) => r == Err::<Vec<Vec<Vec<Cell>>>, QuattroError>(e),
            },
    {
        let sheets = match content {
            Content::Container(None) => {
                return Err(QuattroError::UnreadableContainer);
            },
            Content::Container(Some(s)) => match (&s.main, &s.native) {
                (Some(main), _) => {
                    let magic: [u8; 6] = [0, 0, 2, 0, 0x07, 0x10];
                    assert(magic@ =~= seq![0u8, 0, 2, 0, 0x07, 0x10]);
                    if begins(main, magic.as_slice()) {
                        read_windows(main.as_slice())
                    } else {
                        return Err(QuattroError::NoBofInMainStream);
                    }
                },
                (None, Some(native)) => {
                    let magic: [u8; 8] = [1, 0, 0x0e, 0, 0x51, 0x50, 0x57, 0x39];
                    assert(magic@ =~= seq![1u8, 0, 0x0e, 0, 0x51, 0x50, 0x57, 0x39]);
                    if begins(native, magic.as_slice()) {
                        read_qpw(native.as_slice())
                    } else {
                        return Err(QuattroError::NotQpw9);
                    }
                },
                (None, None) => {
                    return Err(QuattroError::NoStream);
                },
            },
            Content::Plain(d) => {
                if d.len() < 6 {
                    return Err(QuattroError::TooShort);
                }
                let opcode: u16 = (d[0] as u16) + 0x100 * (d[1] as u16);
                let version: u16 = (d[4] as u16) + 0x100 * (d[5] as u16);
                if opcode != 0 {
                    return Err(QuattroError::NoBof);
                }
                if version == 0x5120 {
                    read_dos(d.as_slice(), 1)
                } else if version == 0x5121 {
                    read_dos(d.as_slice(), 2)
                } else if version == 0x1001 || version == 0x1002 {
                    read_windows(d.as_slice())
                } else {
                    return Err(QuattroError::NoBof);
                }
            },
        };
        Ok(sheets.tables())
    }
}

} // verus!
