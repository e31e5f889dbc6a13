//! Spreadsheet-interchange files: DIF, SYLK and dBase.
//!
//! - **DIF**: line pairs, a `type,number` line and a value line. Type 1
//!   carries a quoted string, type 0 a number (the value line is a validity
//!   marker), type -1 a directive (`BOT` starts a row, anything else ends the
//!   data).
//! - **SYLK**: `;`-separated records; `C` records place a cell at `X`/`Y`
//!   (1-based, and an omitted coordinate repeats the previous one) with the
//!   value in `K` (a quoted string with `;;` escaping, or a bare number).
//! - **dBase**: a header with 32-byte field descriptors and fixed-width
//!   records; the field names become the header row. Deleted records are
//!   skipped, memo fields come out empty and dates in ISO form. High bytes
//!   decode as Windows-1252.
//!
//! DIF and SYLK are sheet snapshots and split into their data regions; dBase
//! is a single table. A number of a sheet stays as written.

use crate::bytes::{u16_at, u32_at};
use crate::codepage::{cp1252, decode_cp1252};
use crate::document::{grid, grid_push, strs, strs_push};
use crate::sheet::{is_regions, tables_view, Cell, CellV, Grid};
use crate::text::{
    chars_of, find_from, has_prefix, index_from, is, is_digit, lines, lines_of, lstrip, parse_uint,
    slice, starts_with, string_of, strip, texts, texts_push, trim, trim_start, uint,
};
use vstd::prelude::*;

verus! {

/// The content cells of a sheet.
pub type Cells = Map<(int, int), CellV>;

/// The sheet with a cell put in; a text or numeral without characters is no
/// cell.
pub open spec fn put(cells: Cells, row: int, col: int, cell: CellV) -> Cells {
    match cell {
        CellV::Text(s) => if s.len() == 0 {
            cells
        } else {
            cells.insert((row, col), cell)
        },
        CellV::Numeral(s) => if s.len() == 0 {
            cells
        } else {
            cells.insert((row, col), cell)
        },
        _ => cells.insert((row, col), cell),
    }
}

fn put_text(cells: &mut Grid, row: u64, col: u64, s: &Vec<char>)
    requires
        old(cells).wf(),
    ensures
        final(cells).wf(),
        final(cells)@ == put(old(cells)@, row as int, col as int, CellV::Text(s@)),
{
    if s.len() > 0 {
        cells.insert(row, col, Cell::Text(string_of(s)));
    }
}

fn put_numeral(cells: &mut Grid, row: u64, col: u64, s: &Vec<char>)
    requires
        old(cells).wf(),
    ensures
        final(cells).wf(),
        final(cells)@ == put(old(cells)@, row as int, col as int, CellV::Numeral(s@)),
{
    if s.len() > 0 {
        cells.insert(row, col, Cell::Numeral(string_of(s)));
    }
}

/// Why a file cannot be read.
#[derive(Clone, Copy, Debug, PartialEq, Eq, Structural)]
pub enum InterchangeError {
    /// A DIF file without a data section.
    NoData,
    /// A dBase file that ends inside its header.
    TruncatedHeader,
    /// A dBase file without field descriptors.
    NoFields,
    /// A dBase file whose record size is not that of its fields.
    RecordSize,
    /// None of the three formats.
    Unknown,
}

impl InterchangeError {
    /// The message of an error.
    pub open spec fn text(self) -> Seq<char> {
        match self {
            InterchangeError::NoData => "dif: no DATA section"@,
            InterchangeError::TruncatedHeader => "dbf: truncated header"@,
            InterchangeError::NoFields => "dbf: no field descriptors"@,
            InterchangeError::RecordSize => "dbf: record size does not match the field widths"@,
            InterchangeError::Unknown =>
                "interchange: neither DIF (TABLE header), SYLK (ID; record) nor dBase"@,
        }
    }

    /// The message of an error.
    pub fn message(&self) -> (r: String)
        ensures
            r@ == self.text(),
    {
        match self {
            InterchangeError::NoData => "dif: no DATA section".to_owned(),
            InterchangeError::TruncatedHeader => "dbf: truncated header".to_owned(),
            InterchangeError::NoFields => "dbf: no field descriptors".to_owned(),
            InterchangeError::RecordSize => "dbf: record size does not match the field widths".to_owned(),
            InterchangeError::Unknown => "interchange: neither DIF (TABLE header), SYLK (ID; record) nor dBase".to_owned(),
        }
    }
}

// ------------------------------------------------------------ DIF

/// Where the cell stream begins: behind the header section `DATA`. Sections
/// take three lines each.
pub open spec fn dif_start(lines: Seq<Seq<char>>, i: int) -> Option<int>
    decreases lines.len() - i + 3,
{
    if i >= lines.len() {
        None
    } else if strip(lines[i]) == "DATA"@ {
        Some(i + 3)
    } else {
        dif_start(lines, i + 3)
    }
}

/// The part of a line before its first comma.
pub open spec fn before_comma(s: Seq<char>) -> Seq<char> {
    s.take(index_from(s, ',', 0))
}

/// The part of a line behind its first comma.
pub open spec fn after_comma(s: Seq<char>) -> Seq<char> {
    if index_from(s, ',', 0) < s.len() {
        s.skip(index_from(s, ',', 0) + 1)
    } else {
        seq![]
    }
}

/// A text without one quote at its beginning and one at its end.
pub open spec fn unquoted(s: Seq<char>) -> Seq<char> {
    let t = if s.len() > 0 && s[0] == '"' {
        s.skip(1)
    } else {
        s
    };
    if t.len() > 0 && t.last() == '"' {
        t.drop_last()
    } else {
        t
    }
}

/// The markers that stand for themselves in place of a number.
pub open spec fn is_marker(s: Seq<char>) -> bool {
    s == "NA"@ || s == "ERROR"@ || s == "TRUE"@ || s == "FALSE"@
}

/// The cell of a number pair.
pub open spec fn dif_number(number: Seq<char>, value: Seq<char>) -> CellV {
    if is_marker(strip(value)) {
        CellV::Text(strip(value))
    } else {
        CellV::Numeral(strip(number))
    }
}

/// The sheet with the cells of the line pairs from `i` on put in.
pub open spec fn dif_cells(
    lines: Seq<Seq<char>>,
    i: int,
    row: int,
    col: int,
    started: bool,
    cells: Cells,
) -> Cells
    decreases lines.len() - i + 3,
{
    if i >= lines.len() {
        cells
    } else {
        let head = lines[i];
        let value = if i + 1 < lines.len() {
            lines[i + 1]
        } else {
            seq![]
        };
        let kind = strip(before_comma(head));
        if kind == "-1"@ {
            if strip(value) == "BOT"@ {
                dif_cells(
                    lines,
                    i + 2,
                    if started {
                        row + 1
                    } else {
                        row
                    },
                    0,
                    true,
                    cells,
                )
            } else {
                cells
            }
        } else if kind == "0"@ {
            dif_cells(
                lines,
                i + 2,
                row,
                col + 1,
                started,
                put(cells, row, col, dif_number(after_comma(head), value)),
            )
        } else if kind == "1"@ {
            dif_cells(
                lines,
                i + 2,
                row,
                col + 1,
                started,
                put(cells, row, col, CellV::Text(unquoted(strip(value)))),
            )
        } else {
            dif_cells(lines, i + 2, row, col, started, cells)
        }
    }
}

fn unquote(s: &Vec<char>) -> (r: Vec<char>)
    ensures
        r@ == unquoted(s@),
{
    let from: usize = if s.len() > 0 && s[0] == '"' {
        1
    } else {
        0
    };
    let to: usize = if s.len() > from && s[s.len() - 1] == '"' {
        s.len() - 1
    } else {
        s.len()
    };
    let r = slice(s, from, to);
    assert(r@ =~= unquoted(s@));
    r
}

/// The content cells of a DIF file.
pub fn convert_dif(text: &Vec<char>) -> (r: Result<Grid, InterchangeError>)
    ensures
        match dif_start(lines_of(text@), 0) {
            None => r matches Err(e) && e == InterchangeError::NoData,
            Some(i) => r matches Ok(g) && g.wf() && g@ == dif_cells(
                lines_of(text@),
                i,
                0,
                0,
                false,
                Map::empty(),
            ),
        },
{
    let all = lines(text);
    let ghost want = lines_of(text@);
    let n: usize = all.len();
    let mut i: usize = 0;
    let mut found = false;
    let ghost mut first: int = 0;
    while i < n && !found
        invariant
            n == all@.len(),
            texts(all@) == want,
            i <= n,
            found ==> dif_start(want, 0) == Some(first) && (first == i || first >= n && i == n),
            !found ==> dif_start(want, 0) == dif_start(want, i as int),
        decreases n - i,
    {
        assert(texts(all@)[i as int] == all@[i as int]@);
        let line = trim(&all[i]);
        if is(&line, "DATA") {
            found = true;
            proof {
                first = i + 3;
            }
        }
        proof {
            reveal_with_fuel(dif_start, 2);
        }
        if n - i > 3 {
            i = i + 3;
        } else {
            i = n;
        }
    }
    if !found {
        return Err(InterchangeError::NoData);
    }
    let mut cells = Grid::new();
    let mut row: u64 = 0;
    let mut col: u64 = 0;
    let mut started = false;
    while i < n
        invariant
            n == all@.len(),
            texts(all@) == want,
            cells.wf(),
            row <= i,
            col <= i,
            i <= n,
            want == lines_of(text@),
            dif_start(want, 0) == Some(first),
            dif_cells(want, first, 0, 0, false, Map::empty()) == dif_cells(
                want,
                i as int,
                row as int,
                col as int,
                started,
                cells@,
            ),
        decreases n - i,
    {
        assert(texts(all@)[i as int] == all@[i as int]@);
        let head = &all[i];
        let value = if i + 1 < n {
            assert(texts(all@)[i + 1] == all@[i + 1]@);
            trim(&all[i + 1])
        } else {
            let empty: Vec<char> = Vec::new();
            trim(&empty)
        };
        let comma: usize = find_from(head, ',', 0);
        let kind = trim(&slice(head, 0, comma));
        let number = if comma < head.len() {
            slice(head, comma + 1, head.len())
        } else {
            Vec::new()
        };
        assert(head@.subrange(0, comma as int) =~= before_comma(head@));
        assert(number@ =~= after_comma(head@));
        if is(&kind, "-1") {
            if is(&value, "BOT") {
                if started {
                    row = row + 1;
                }
                started = true;
                col = 0;
            } else {
                return Ok(cells);
            }
        } else if is(&kind, "0") {
            if is(&value, "NA") || is(&value, "ERROR") || is(&value, "TRUE") || is(&value, "FALSE") {
                put_text(&mut cells, row, col, &value);
            } else {
                put_numeral(&mut cells, row, col, &trim(&number));
            }
            col = col + 1;
        } else if is(&kind, "1") {
            put_text(&mut cells, row, col, &unquote(&value));
            col = col + 1;
        }
        proof {
            reveal_with_fuel(dif_cells, 2);
        }
        if n - i > 2 {
            i = i + 2;
        } else {
            i = n;
        }
    }
    Ok(cells)
}

// ------------------------------------------------------------ SYLK

/// The fields with the last one added; fields without characters drop.
pub open spec fn with_field(done: Seq<Seq<char>>, field: Seq<char>) -> Seq<Seq<char>> {
    if field.len() == 0 {
        done
    } else {
        done.push(field)
    }
}

/// The fields of a record from `i` on, with `cur` the field begun and `done`
/// those before. A semicolon ends a field, a doubled one stands for itself.
pub open spec fn sylk_from(
    s: Seq<char>,
    i: int,
    cur: Seq<char>,
    done: Seq<Seq<char>>,
) -> Seq<Seq<char>>
    decreases s.len() - i,
{
    if i < 0 || i >= s.len() {
        with_field(done, cur)
    } else if s[i] != ';' {
        sylk_from(s, i + 1, cur.push(s[i]), done)
    } else if i + 1 < s.len() && s[i + 1] == ';' {
        sylk_from(s, i + 2, cur.push(';'), done)
    } else {
        sylk_from(s, i + 1, seq![], with_field(done, cur))
    }
}

/// The fields of a record.
pub open spec fn sylk_fields(s: Seq<char>) -> Seq<Seq<char>> {
    sylk_from(s, 0, seq![], seq![])
}

/// The fields of a record: split on `;`, where `;;` stands for a semicolon.
pub fn split_sylk(line: &Vec<char>) -> (r: Vec<Vec<char>>)
    ensures
        texts(r@) == sylk_fields(line@),
{
    broadcast use texts_push;

    let mut out: Vec<Vec<char>> = Vec::new();
    let mut cur: Vec<char> = Vec::new();
    let mut i: usize = 0;
    assert(texts(out@) =~= seq![]);
    while i < line.len()
        invariant
            i <= line@.len(),
            sylk_from(line@, 0, seq![], seq![]) == sylk_from(
                line@,
                i as int,
                cur@,
                texts(out@),
            ),
        decreases line@.len() - i,
    {
        broadcast use texts_push;

        if line[i] != ';' {
            cur.push(line[i]);
            i += 1;
        } else if line.len() - i > 1 && line[i + 1] == ';' {
            cur.push(';');
            i += 2;
        } else {
            if cur.len() > 0 {
                out.push(cur);
            }
            cur = Vec::new();
            assert(cur@ =~= seq![]);
            i += 1;
        }
    }
    if cur.len() > 0 {
        out.push(cur);
    }
    out
}

/// A field as a record writes it: semicolons doubled.
pub open spec fn escaped(s: Seq<char>) -> Seq<char>
    decreases s.len(),
{
    if s.len() == 0 {
        seq![]
    } else if s[0] == ';' {
        seq![';', ';'] + escaped(s.drop_first())
    } else {
        seq![s[0]] + escaped(s.drop_first())
    }
}

/// The record of some fields: the fields escaped, with semicolons between.
pub open spec fn sylk_record(fields: Seq<Seq<char>>) -> Seq<char>
    decreases fields.len(),
{
    if fields.len() == 0 {
        seq![]
    } else if fields.len() == 1 {
        escaped(fields[0])
    } else {
        escaped(fields[0]) + seq![';'] + sylk_record(fields.drop_first())
    }
}

/// Reading on behind an escaped text adds the text to the field begun.
proof fn escaped_is_read(
    s: Seq<char>,
    i: int,
    field: Seq<char>,
    cur: Seq<char>,
    done: Seq<Seq<char>>,
)
    requires
        0 <= i,
        i + escaped(field).len() <= s.len(),
        s.subrange(i, i + escaped(field).len()) == escaped(field),
    ensures
        sylk_from(s, i, cur, done) == sylk_from(s, i + escaped(field).len(), cur + field, done),
    decreases field.len(),
{
    if field.len() == 0 {
        assert(cur + field =~= cur);
    } else {
        let rest = field.drop_first();
        let e = escaped(field);
        let sub = s.subrange(i, i + e.len());
        if field[0] == ';' {
            assert(s[i] == sub[0] && s[i + 1] == sub[1]);
            assert(s.subrange(i + 2, i + 2 + escaped(rest).len()) =~= escaped(rest)) by {
                assert(sub.skip(2) =~= escaped(rest));
            }
            escaped_is_read(s, i + 2, rest, cur.push(';'), done);
            assert(cur.push(';') + rest =~= cur + field);
        } else {
            assert(s[i] == sub[0]);
            assert(s.subrange(i + 1, i + 1 + escaped(rest).len()) =~= escaped(rest)) by {
                assert(sub.skip(1) =~= escaped(rest));
            }
            escaped_is_read(s, i + 1, rest, cur.push(field[0]), done);
            assert(cur.push(field[0]) + rest =~= cur + field);
        }
    }
}

proof fn record_is_read(s: Seq<char>, i: int, fields: Seq<Seq<char>>, done: Seq<Seq<char>>)
    requires
        0 <= i <= s.len(),
        s.skip(i) == sylk_record(fields),
        forall|k: int| 0 <= k < fields.len() ==> (#[trigger] fields[k]).len() > 0,
        forall|k: int| 1 <= k < fields.len() ==> (#[trigger] fields[k])[0] != ';',
    ensures
        sylk_from(s, i, seq![], done) == done + fields,
    decreases fields.len(),
{
    if fields.len() == 0 {
        assert(s.skip(i).len() == 0);
        assert(done + fields =~= done);
    } else {
        let e = escaped(fields[0]);
        let n = e.len() as int;
        let rest = fields.drop_first();
        assert(sylk_record(fields).len() >= n);
        assert(s.skip(i).len() == s.len() - i);
        assert(s.subrange(i, i + n) =~= e) by {
            assert(s.skip(i).take(n) =~= e);
            assert(s.skip(i).take(n) =~= s.subrange(i, i + n));
        }
        escaped_is_read(s, i, fields[0], seq![], done);
        assert(Seq::<char>::empty() + fields[0] =~= fields[0]);
        if fields.len() == 1 {
            assert(i + n == s.len());
            assert(done.push(fields[0]) =~= done + fields);
        } else {
            assert(s[i + n] == s.skip(i)[n]);
            assert(s[i + n] == ';');
            assert(s.skip(i + n + 1) =~= sylk_record(rest)) by {
                assert(s.skip(i).skip(n + 1) =~= sylk_record(rest));
                assert(s.skip(i).skip(n + 1) =~= s.skip(i + n + 1));
            }
            assert(rest[0] == fields[1]);
            if i + n + 1 < s.len() {
                assert(s[i + n + 1] == s.skip(i + n + 1)[0]);
                assert(escaped(rest[0])[0] == rest[0][0]);
                assert(sylk_record(rest)[0] == rest[0][0]);
            }
            assert forall|k: int| 0 <= k < rest.len() implies (#[trigger] rest[k]).len() > 0 by {
                assert(rest[k] == fields[k + 1]);
            }
            assert forall|k: int| 1 <= k < rest.len() implies (#[trigger] rest[k])[0] != ';' by {
                assert(rest[k] == fields[k + 1]);
            }
            record_is_read(s, i + n + 1, rest, done.push(fields[0]));
            assert(done.push(fields[0]) + rest =~= done + fields);
        }
    }
}

/// Splitting gives back the fields that a record was written from, where
/// each has a character and none but the first begins with a semicolon.
pub proof fn sylk_record_splits_into_its_fields(fields: Seq<Seq<char>>)
    requires
        forall|k: int| 0 <= k < fields.len() ==> (#[trigger] fields[k]).len() > 0,
        forall|k: int| 1 <= k < fields.len() ==> (#[trigger] fields[k])[0] != ';',
    ensures
        sylk_fields(sylk_record(fields)) == fields,
{
    let s = sylk_record(fields);
    assert(s.skip(0) =~= s);
    record_is_read(s, 0, fields, seq![]);
    assert(Seq::<Seq<char>>::empty() + fields =~= fields);
}

/// The place and value that the fields of a record set; `None` keeps what
/// was.
#[verifier::ext_equal]
pub struct PlaceV {
    pub x: int,
    pub y: int,
    pub value: Option<CellV>,
}

/// A value field: quoted text, or a number as written.
pub open spec fn sylk_value(rest: Seq<char>) -> CellV {
    if rest.len() > 0 && rest[0] == '"' {
        let t = rest.skip(1);
        CellV::Text(
            if t.len() > 0 && t.last() == '"' {
                t.drop_last()
            } else {
                t
            },
        )
    } else {
        CellV::Numeral(rest)
    }
}

/// The coordinate that a field sets, or the one before.
pub open spec fn coordinate(rest: Seq<char>, before: int) -> int {
    match uint(rest, u64::MAX as int) {
        Some(n) => n,
        None => before,
    }
}

/// What the fields from `k` on set.
pub open spec fn sylk_place(fields: Seq<Seq<char>>, k: int, p: PlaceV) -> PlaceV
    decreases fields.len() - k,
{
    if k >= fields.len() {
        p
    } else {
        let f = fields[k];
        let rest = f.skip(1);
        sylk_place(
            fields,
            k + 1,
            if f[0] == 'X' {
                PlaceV { x: coordinate(rest, p.x), ..p }
            } else if f[0] == 'Y' {
                PlaceV { y: coordinate(rest, p.y), ..p }
            } else if f[0] == 'K' {
                PlaceV { value: Some(sylk_value(rest)), ..p }
            } else {
                p
            },
        )
    }
}

/// The sheet with the cells of the records from `i` on put in. The
/// coordinates carry over from record to record.
pub open spec fn sylk_cells(
    lines: Seq<Seq<char>>,
    i: int,
    x: int,
    y: int,
    cells: Cells,
) -> Cells
    decreases lines.len() - i,
{
    if i >= lines.len() {
        cells
    } else {
        let fields = sylk_fields(lines[i]);
        if fields.len() == 0 || fields[0] != seq!['C'] {
            sylk_cells(lines, i + 1, x, y, cells)
        } else {
            let p = sylk_place(fields, 1, PlaceV { x, y, value: None });
            sylk_cells(
                lines,
                i + 1,
                p.x,
                p.y,
                match p.value {
                    Some(v) => put(cells, p.y, p.x, v),
                    None => cells,
                },
            )
        }
    }
}

/// Whether every field has a character.
spec fn are_full(fields: Seq<Seq<char>>) -> bool {
    forall|k: int| 0 <= k < fields.len() ==> (#[trigger] fields[k]).len() > 0
}

proof fn fields_have_characters(s: Seq<char>, i: int, cur: Seq<char>, done: Seq<Seq<char>>)
    requires
        are_full(done),
    ensures
        are_full(sylk_from(s, i, cur, done)),
    decreases s.len() - i,
{
    assert(are_full(with_field(done, cur)));
    if i < 0 || i >= s.len() {
    } else if s[i] != ';' {
        fields_have_characters(s, i + 1, cur.push(s[i]), done);
    } else if i + 1 < s.len() && s[i + 1] == ';' {
        fields_have_characters(s, i + 2, cur.push(';'), done);
    } else {
        fields_have_characters(s, i + 1, seq![], with_field(done, cur));
    }
}

/// The content cells of a SYLK file.
pub fn convert_sylk(text: &Vec<char>) -> (r: Grid)
    ensures
        r.wf(),
        r@ == sylk_cells(lines_of(text@), 0, 1, 1, Map::empty()),
{
    let all = lines(text);
    let ghost want = lines_of(text@);
    let mut cells = Grid::new();
    let mut x: u64 = 1;
    let mut y: u64 = 1;
    let mut i: usize = 0;
    while i < all.len()
        invariant
            i <= all@.len(),
            texts(all@) == want,
            cells.wf(),
            sylk_cells(want, 0, 1, 1, Map::empty()) == sylk_cells(
                want,
                i as int,
                x as int,
                y as int,
                cells@,
            ),
        decreases all@.len() - i,
    {
        assert(texts(all@)[i as int] == all@[i as int]@);
        let fields = split_sylk(&all[i]);
        let ghost f = texts(fields@);
        proof {
            fields_have_characters(all@[i as int]@, 0, seq![], seq![]);
            if fields@.len() > 0 {
                assert(f[0] == fields@[0]@);
                if f[0].len() == 1 && f[0][0] == 'C' {
                    assert(f[0] =~= seq!['C']);
                }
            }
        }
        if fields.len() > 0 && fields[0].len() == 1 && fields[0][0] == 'C' {
            let ghost x0 = x as int;
            let ghost y0 = y as int;
            let mut value: Option<Cell> = None;
            let mut k: usize = 1;
            while k < fields.len()
                invariant
                    1 <= k <= fields@.len(),
                    f == texts(fields@),
                    are_full(f),
                    sylk_place(f, 1, (PlaceV { x: x0, y: y0, value: None })) == sylk_place(
                        f,
                        k as int,
                        (PlaceV {
                            x: x as int,
                            y: y as int,
                            value: match value {
                                Some(v) => Some(v@),
                                None => None,
                            },
                        }),
                    ),
                decreases fields@.len() - k,
            {
                assert(f[k as int] == fields@[k as int]@);
                let field = &fields[k];
                let tag = field[0];
                let rest = slice(field, 1, field.len());
                assert(rest@ =~= field@.skip(1));
                if tag == 'X' {
                    match parse_uint(&rest, u64::MAX as u128) {
                        Some(n) => {
                            x = n as u64;
                        },
                        None => {},
                    }
                } else if tag == 'Y' {
                    match parse_uint(&rest, u64::MAX as u128) {
                        Some(n) => {
                            y = n as u64;
                        },
                        None => {},
                    }
                } else if tag == 'K' {
                    if rest.len() > 0 && rest[0] == '"' {
                        let to: usize = if rest.len() > 1 && rest[rest.len() - 1] == '"' {
                            rest.len() - 1
                        } else {
                            rest.len()
                        };
                        let t = slice(&rest, 1, to);
                        assert(t@ =~= if rest@.skip(1).len() > 0 && rest@.skip(1).last() == '"' {
                            rest@.skip(1).drop_last()
                        } else {
                            rest@.skip(1)
                        });
                        value = Some(Cell::Text(string_of(&t)));
                    } else {
                        value = Some(Cell::Numeral(string_of(&rest)));
                    }
                }
                k += 1;
            }
            match value {
                Some(Cell::Text(t)) => {
                    put_text(&mut cells, y, x, &chars_of(t.as_str()));
                },
                Some(Cell::Numeral(t)) => {
                    put_numeral(&mut cells, y, x, &chars_of(t.as_str()));
                },
                Some(other) => {
                    cells.insert(y, x, other);
                },
                None => {},
            }
        } else {
            assert(fields@.len() > 0 ==> f[0] != seq!['C']) by {
                if fields@.len() > 0 && f[0] == seq!['C'] {
                    assert(seq!['C'].len() == 1 && seq!['C'][0] == 'C');
                }
            }
        }
        i += 1;
    }
    cells
}

// ------------------------------------------------------------ dBase

/// The version bytes of the dBase and FoxPro families.
pub open spec fn is_dbf_version(b: u8) -> bool {
    b == 0x02 || b == 0x03 || b == 0x04 || b == 0x05 || b == 0x30 || b == 0x31 || b == 0x32 || b
        == 0x43 || b == 0x63 || b == 0x83 || b == 0x8b || b == 0x8e || b == 0xcb || b == 0xf5 || b
        == 0xfb
}

/// A known version byte and a sane last-update date.
pub open spec fn is_dbf(d: Seq<u8>) -> bool {
    d.len() >= 32 && is_dbf_version(d[0]) && 1 <= d[2] <= 12 && 1 <= d[3] <= 31
}

/// Whether the bytes are plausibly a dBase file.
pub fn looks_like_dbf(d: &[u8]) -> (r: bool)
    ensures
        r == is_dbf(d@),
{
    if d.len() < 32 {
        return false;
    }
    let b: u8 = d[0];
    let known = b == 0x02 || b == 0x03 || b == 0x04 || b == 0x05 || b == 0x30 || b == 0x31 || b
        == 0x32 || b == 0x43 || b == 0x63 || b == 0x83 || b == 0x8b || b == 0x8e || b == 0xcb || b
        == 0xf5 || b == 0xfb;
    known && 1 <= d[2] && d[2] <= 12 && 1 <= d[3] && d[3] <= 31
}

/// A field of a dBase table.
pub struct DbfField {
    pub name: String,
    pub kind: u8,
    pub width: usize,
}

/// View of a [`DbfField`].
#[verifier::ext_equal]
pub struct DbfFieldV {
    pub name: Seq<char>,
    pub kind: u8,
    pub width: int,
}

/// The views of a list of fields.
pub open spec fn dbf_view(v: Seq<DbfField>) -> Seq<DbfFieldV> {
    Seq::new(
        v.len(),
        |i: int| DbfFieldV { name: v[i].name@, kind: v[i].kind, width: v[i].width as int },
    )
}

/// The text of Windows-1252 bytes.
pub open spec fn ansi(d: Seq<u8>) -> Seq<char> {
    Seq::new(d.len(), |i: int| cp1252(d[i]))
}

/// The bytes from `i` on up to the first NUL or `end`.
pub open spec fn name_end(d: Seq<u8>, i: int, end: int) -> int
    decreases end - i,
{
    if i >= end || d[i] == 0 {
        i
    } else {
        name_end(d, i + 1, end)
    }
}

/// The field that the descriptor at `off` describes.
pub open spec fn dbf_field(d: Seq<u8>, off: int) -> DbfFieldV {
    DbfFieldV {
        name: ansi(d.subrange(off, name_end(d, off, off + 11))),
        kind: d[off + 11],
        width: d[off + 16] as int,
    }
}

/// The fields of the descriptors from `off` on, added to `done`; a carriage
/// return or `end` ends them.
pub open spec fn dbf_fields(
    d: Seq<u8>,
    off: int,
    end: int,
    done: Seq<DbfFieldV>,
) -> Seq<DbfFieldV>
    decreases end - off,
{
    if off + 32 > end || d[off] == 0x0d {
        done
    } else {
        dbf_fields(d, off + 32, end, done.push(dbf_field(d, off)))
    }
}

/// The widths of the fields added up.
pub open spec fn total_width(f: Seq<DbfFieldV>) -> int
    decreases f.len(),
{
    if f.len() == 0 {
        0
    } else {
        total_width(f.drop_last()) + f.last().width
    }
}

/// Whether `s` is a run of eight digits.
pub open spec fn is_date(s: Seq<char>) -> bool {
    s.len() == 8 && forall|i: int| 0 <= i < 8 ==> is_digit(#[trigger] s[i])
}

/// What a field of a record shows.
pub open spec fn dbf_value(kind: u8, raw: Seq<u8>) -> Seq<char> {
    let text = strip(ansi(raw));
    if kind == 0x4d {
        seq![]
    } else if kind == 0x44 && is_date(text) {
        text.subrange(0, 4) + seq!['-'] + text.subrange(4, 6) + seq!['-'] + text.subrange(6, 8)
    } else if kind == 0x4c {
        if text == "T"@ || text == "t"@ || text == "Y"@ || text == "y"@ {
            "true"@
        } else if text == "F"@ || text == "f"@ || text == "N"@ || text == "n"@ {
            "false"@
        } else {
            seq![]
        }
    } else {
        text
    }
}

/// The row of the record at `at`: the fields from `k` on, the next of which
/// stands at `p`, added to `done`.
pub open spec fn dbf_row(
    d: Seq<u8>,
    fields: Seq<DbfFieldV>,
    k: int,
    p: int,
    done: Seq<Seq<char>>,
) -> Seq<Seq<char>>
    decreases fields.len() - k,
{
    if k >= fields.len() {
        done
    } else {
        dbf_row(
            d,
            fields,
            k + 1,
            p + fields[k].width,
            done.push(dbf_value(fields[k].kind, d.subrange(p, p + fields[k].width))),
        )
    }
}

/// The rows with those of the next `left` records from `start` on added;
/// deleted records drop, and the end of the file ends the table.
pub open spec fn dbf_rows(
    d: Seq<u8>,
    fields: Seq<DbfFieldV>,
    size: int,
    start: int,
    left: int,
    done: Seq<Seq<Seq<char>>>,
) -> Seq<Seq<Seq<char>>>
    decreases left,
{
    if left <= 0 || start + size > d.len() {
        done
    } else if d[start] == 0x2a {
        dbf_rows(d, fields, size, start + size, left - 1, done)
    } else {
        dbf_rows(
            d,
            fields,
            size,
            start + size,
            left - 1,
            done.push(dbf_row(d, fields, 0, start + 1, seq![])),
        )
    }
}

/// The names of the fields.
pub open spec fn dbf_names(f: Seq<DbfFieldV>) -> Seq<Seq<char>> {
    Seq::new(f.len(), |i: int| f[i].name)
}

/// The table of a dBase file, or why there is none.
pub open spec fn dbf_table(d: Seq<u8>) -> Result<Seq<Seq<Seq<char>>>, InterchangeError> {
    let header = u16_at(d, 8);
    let size = u16_at(d, 10);
    let fields = dbf_fields(
        d,
        32,
        if header < d.len() {
            header
        } else {
            d.len() as int
        },
        seq![],
    );
    if d.len() < 8 {
        Err(InterchangeError::TruncatedHeader)
    } else if fields.len() == 0 {
        Err(InterchangeError::NoFields)
    } else if size != 1 + total_width(fields) {
        Err(InterchangeError::RecordSize)
    } else {
        Ok(dbf_rows(d, fields, size, header, u32_at(d, 4), seq![dbf_names(fields)]))
    }
}

fn decode_ansi(d: &[u8], from: usize, to: usize) -> (r: Vec<char>)
    requires
        from <= to <= d@.len(),
    ensures
        r@ == ansi(d@.subrange(from as int, to as int)),
{
    let mut out: Vec<char> = Vec::new();
    let mut i: usize = from;
    while i < to
        invariant
            from <= i <= to <= d@.len(),
            out@ == ansi(d@.subrange(from as int, i as int)),
        decreases to - i,
    {
        out.push(decode_cp1252(d[i]));
        assert(out@ =~= ansi(d@.subrange(from as int, i + 1)));
        i += 1;
    }
    out
}

fn all_eight_digits(s: &Vec<char>) -> (r: bool)
    ensures
        r == is_date(s@),
{
    if s.len() != 8 {
        return false;
    }
    let mut i: usize = 0;
    while i < 8
        invariant
            i <= 8,
            s@.len() == 8,
            forall|k: int| 0 <= k < i ==> is_digit(#[trigger] s@[k]),
        decreases 8 - i,
    {
        if !('0' <= s[i] && s[i] <= '9') {
            assert(!is_digit(s@[i as int]));
            return false;
        }
        i += 1;
    }
    true
}

fn read_dbf_value(d: &[u8], kind: u8, from: usize, to: usize) -> (r: String)
    requires
        from <= to <= d@.len(),
    ensures
        r@ == dbf_value(kind, d@.subrange(from as int, to as int)),
{
    let text = trim(&decode_ansi(d, from, to));
    if kind == 0x4d {
        let s = String::new();
        assert(s@ =~= seq![]);
        s
    } else if kind == 0x44 && all_eight_digits(&text) {
        let mut out = slice(&text, 0, 4);
        out.push('-');
        out.push(text[4]);
        out.push(text[5]);
        out.push('-');
        out.push(text[6]);
        out.push(text[7]);
        assert(out@ =~= text@.subrange(0, 4) + seq!['-'] + text@.subrange(4, 6) + seq!['-']
            + text@.subrange(6, 8));
        string_of(&out)
    } else if kind == 0x4c {
        if is(&text, "T") || is(&text, "t") || is(&text, "Y") || is(&text, "y") {
            "true".to_owned()
        } else if is(&text, "F") || is(&text, "f") || is(&text, "N") || is(&text, "n") {
            "false".to_owned()
        } else {
            let s = String::new();
            assert(s@ =~= seq![]);
            s
        }
    } else {
        string_of(&text)
    }
}

fn read_dbf_fields(d: &[u8], end: usize) -> (r: Vec<DbfField>)
    requires
        end <= d@.len(),
    ensures
        dbf_view(r@) == dbf_fields(d@, 32, end as int, seq![]),
        forall|i: int| 0 <= i < r@.len() ==> (#[trigger] r@[i]).width <= 0xff,
{
    let n: usize = d.len();
    let mut out: Vec<DbfField> = Vec::new();
    let mut off: usize = 32;
    assert(dbf_view(out@) =~= seq![]);
    while end >= 32 && off <= end - 32 && d[off] != 0x0d
        invariant
            n == d@.len(),
            end <= d@.len(),
            32 <= off,
            off <= end || off == 32,
            dbf_fields(d@, 32, end as int, seq![]) == dbf_fields(
                d@,
                off as int,
                end as int,
                dbf_view(out@),
            ),
            forall|i: int| 0 <= i < out@.len() ==> (#[trigger] out@[i]).width <= 0xff,
        decreases d@.len() - off,
    {
        let mut stop: usize = off;
        let last: usize = off + 11;
        while stop < last && d[stop] != 0
            invariant
                last == off + 11,
                off <= stop <= off + 11,
                off + 32 <= d@.len(),
                name_end(d@, off as int, off + 11) == name_end(d@, stop as int, off + 11),
            decreases off + 11 - stop,
        {
            stop += 1;
        }
        let name = decode_ansi(d, off, stop);
        let field = DbfField {
            name: string_of(&name),
            kind: d[off + 11],
            width: d[off + 16] as usize,
        };
        let ghost before = out@;
        out.push(field);
        assert(dbf_view(out@) =~= dbf_view(before).push(dbf_field(d@, off as int)));
        off = off + 32;
    }
    out
}

fn add_widths(f: &Vec<DbfField>) -> (r: u128)
    requires
        forall|i: int| 0 <= i < f@.len() ==> (#[trigger] f@[i]).width <= 0xff,
    ensures
        r == total_width(dbf_view(f@)),
        r <= 0xff * f@.len(),
{
    let mut sum: u128 = 0;
    let mut i: usize = 0;
    assert(dbf_view(f@).take(0) =~= seq![]);
    while i < f.len()
        invariant
            i <= f@.len(),
            forall|j: int| 0 <= j < f@.len() ==> (#[trigger] f@[j]).width <= 0xff,
            sum == total_width(dbf_view(f@).take(i as int)),
            sum <= 0xff * i,
        decreases f@.len() - i,
    {
        assert(dbf_view(f@).take(i + 1).drop_last() =~= dbf_view(f@).take(i as int));
        sum = sum + f[i].width as u128;
        i += 1;
    }
    assert(dbf_view(f@).take(i as int) =~= dbf_view(f@));
    sum
}

/// The widths of the first `k` fields are part of the whole.
proof fn width_prefix(f: Seq<DbfFieldV>, k: int)
    requires
        0 <= k <= f.len(),
        forall|i: int| 0 <= i < f.len() ==> 0 <= (#[trigger] f[i]).width,
    ensures
        0 <= total_width(f.take(k)) <= total_width(f),
    decreases f.len(),
{
    if k == f.len() {
        assert(f.take(k) =~= f);
        if k > 0 {
            width_prefix(f.drop_last(), k - 1);
            assert(f.drop_last().take(k - 1) =~= f.drop_last());
        }
    } else {
        width_prefix(f.drop_last(), k);
        assert(f.drop_last().take(k) =~= f.take(k));
    }
}

fn read_dbf_row(d: &[u8], fields: &Vec<DbfField>, start: usize) -> (r: Vec<String>)
    requires
        start + 1 + total_width(dbf_view(fields@)) <= d@.len(),
    ensures
        strs(r@) == dbf_row(d@, dbf_view(fields@), 0, start + 1, seq![]),
{
    let n: usize = d.len();
    let ghost f = dbf_view(fields@);
    let mut row: Vec<String> = Vec::new();
    proof {
        width_prefix(f, 0);
        assert(f.take(0) =~= seq![]);
        assert(strs(row@) =~= seq![]);
    }
    let mut p: usize = start + 1;
    let mut k: usize = 0;
    while k < fields.len()
        invariant
            k <= fields@.len(),
            f == dbf_view(fields@),
            n == d@.len(),
            start + 1 + total_width(f) <= d@.len(),
            p == start + 1 + total_width(f.take(k as int)),
            dbf_row(d@, f, 0, start + 1, seq![]) == dbf_row(
                d@,
                f,
                k as int,
                p as int,
                strs(row@),
            ),
        decreases fields@.len() - k,
    {
        let width: usize = fields[k].width;
        proof {
            width_prefix(f, k + 1);
            assert(f.take(k + 1).drop_last() =~= f.take(k as int));
        }
        let value = read_dbf_value(d, fields[k].kind, p, p + width);
        proof {
            strs_push(row@, value);
        }
        row.push(value);
        p = p + width;
        k += 1;
    }
    row
}

/// The table of a dBase file.
pub fn convert_dbf(d: &[u8]) -> (r: Result<Vec<Vec<String>>, InterchangeError>)
    requires
        d@.len() < 8 || d@.len() >= 12,
    ensures
        match dbf_table(d@) {
            Ok(rows) => r matches Ok(x) && grid(x@) == rows,
            Err(e) => r matches Err(x) && x == e,
        },
{
    let n: usize = d.len();
    if n < 8 {
        return Err(InterchangeError::TruncatedHeader);
    }
    let count: u64 = (d[4] as u64) + 0x100 * (d[5] as u64) + 0x1_0000 * (d[6] as u64) + 0x100_0000
        * (d[7] as u64);
    let header: usize = (d[8] as usize) + 0x100 * (d[9] as usize);
    let size: usize = (d[10] as usize) + 0x100 * (d[11] as usize);
    let fields = read_dbf_fields(
        d,
        if header < n {
            header
        } else {
            n
        },
    );
    let ghost f = dbf_view(fields@);
    if fields.len() == 0 {
        return Err(InterchangeError::NoFields);
    }
    let width = add_widths(&fields);
    if size as u128 != 1 + width {
        return Err(InterchangeError::RecordSize);
    }
    let mut names: Vec<String> = Vec::new();
    let mut i: usize = 0;
    while i < fields.len()
        invariant
            i <= fields@.len(),
            f == dbf_view(fields@),
            strs(names@) == dbf_names(f).take(i as int),
        decreases fields@.len() - i,
    {
        proof {
            strs_push(names@, fields@[i as int].name);
            assert(dbf_names(f).take(i + 1) =~= dbf_names(f).take(i as int).push(
                fields@[i as int].name@,
            ));
        }
        names.push(fields[i].name.clone());
        i += 1;
    }
    assert(dbf_names(f).take(i as int) =~= dbf_names(f));
    let mut rows: Vec<Vec<String>> = Vec::new();
    rows.push(names);
    assert(grid(rows@) =~= seq![dbf_names(f)]);
    let mut start: usize = header;
    let mut left: u64 = count;
    while left > 0 && start <= n && n - start >= size
        invariant
            n == d@.len(),
            f == dbf_view(fields@),
            size == 1 + total_width(f),
            size >= 1,
            start <= n || start == header,
            header <= 0xffff,
            dbf_rows(d@, f, size as int, header as int, count as int, seq![dbf_names(f)])
                == dbf_rows(d@, f, size as int, start as int, left as int, grid(rows@)),
        decreases left,
    {
        if d[start] != 0x2a {
            let row = read_dbf_row(d, &fields, start);
            proof {
                grid_push(rows@, row);
            }
            rows.push(row);
        }
        start = start + size;
        left = left - 1;
    }
    Ok(rows)
}

// ------------------------------------------------------------ files

/// What a file converts to: the data regions of a sheet, or one table.
pub enum Converted {
    Sheet(Vec<Vec<Vec<Cell>>>),
    Table(Vec<Vec<String>>),
}

/// The kinds of files.
#[derive(Clone, Copy, Debug, PartialEq, Eq, Structural)]
pub enum Kind {
    Sylk,
    Dif,
    Dbf,
}

/// The kind of a file: the text signatures go first, for they are exact.
pub open spec fn kind_of(text: Option<Seq<char>>, d: Seq<u8>) -> Option<Kind> {
    if text matches Some(t) && has_prefix(lstrip(t), "ID;"@) {
        Some(Kind::Sylk)
    } else if text matches Some(t) && lines_of(t).len() > 0 && strip(lines_of(t)[0]) == "TABLE"@ {
        Some(Kind::Dif)
    } else if is_dbf(d) {
        Some(Kind::Dbf)
    } else {
        None
    }
}

/// What a file converts to.
pub open spec fn is_conversion(
    text: Option<Seq<char>>,
    d: Seq<u8>,
    r: Result<Converted, InterchangeError>,
) -> bool {
    match kind_of(text, d) {
        None => r matches Err(e) && e == InterchangeError::Unknown,
        Some(Kind::Sylk) => r matches Ok(Converted::Sheet(t)) && is_regions(
            sylk_cells(lines_of(text->0), 0, 1, 1, Map::empty()),
            tables_view(t@),
        ),
        Some(Kind::Dif) => match dif_start(lines_of(text->0), 0) {
            None => r matches Err(e) && e == InterchangeError::NoData,
            Some(i) => r matches Ok(Converted::Sheet(t)) && is_regions(
                dif_cells(lines_of(text->0), i, 0, 0, false, Map::empty()),
                tables_view(t@),
            ),
        },
        Some(Kind::Dbf) => match dbf_table(d) {
            Ok(rows) => r matches Ok(Converted::Table(t)) && grid(t@) == rows,
            Err(x) => r matches Err(e) && e == x,
        },
    }
}

/// The backend of the interchange formats.
pub struct InterchangeBackend;

impl InterchangeBackend {
    /// Reads a file from its bytes and, where they are text, from the text.
    pub fn convert(&self, text: Option<&str>, bytes: &[u8]) -> (r: Result<
        Converted,
        InterchangeError,
    >)
        ensures
            is_conversion(
                match text {
                    Some(t) => Some(t@),
                    None => None,
                },
                bytes@,
                r,
            ),
    {
        match text {
            Some(t) => {
                let chars = chars_of(t);
                if starts_with(&trim_start(&chars), "ID;") {
                    return Ok(Converted::Sheet(convert_sylk(&chars).regions()));
                }
                let all = lines(&chars);
                if all.len() > 0 {
                    assert(texts(all@)[0] == all@[0]@);
                    if is(&trim(&all[0]), "TABLE") {
                        return match convert_dif(&chars) {
                            Ok(cells) => Ok(Converted::Sheet(cells.regions())),
                            Err(e) => Err(e),
                        };
                    }
                }
            },
            None => {},
        }
        if looks_like_dbf(bytes) {
            return match convert_dbf(bytes) {
                Ok(rows) => Ok(Converted::Table(rows)),
                Err(e) => Err(e),
            };
        }
        Err(InterchangeError::Unknown)
    }
}

} // verus!
