//! Pages documents of the newer kind, which are a graph of objects.
//!
//! Each object is a message of a type. Text is kept in storages, whose tables
//! say which style, list and link is in force from which character on, and
//! what is anchored at which.

use crate::decode::{lossy, to_lossy};
use crate::jats::opt_chars;
use crate::pages::{
    formatting, in_order, indices, opt_style, script, script_of, text_table, Formatting, ListStyle,
    ListStyleV, StorageRuns, StorageRunsV,
};
use crate::pages_xml::to_text;
use crate::text::{chars_of, push_str, strip, texts_push, trim};
use crate::wire::{
    bytes_of, fields, fields_of, fields_view, first_bytes, first_varint, number_of, opt_slice,
    reference_field, reference_of, FieldV, Value, ValueV,
};
use vstd::prelude::*;
use vstd::utf8::{decode_utf8, valid_utf8};

verus! {

// ------------------------------------------------------------ vocabulary

/// An author of comments.
pub const AUTHOR: u32 = 212;

/// A text with its tables of runs.
pub const STORAGE: u32 = 2001;

/// A drawable that is anchored in a text.
pub const ATTACHMENT: u32 = 2003;

/// A footnote.
pub const NOTE: u32 = 2008;

/// A shape with a text.
pub const SHAPE: u32 = 2011;

/// The mark of a comment.
pub const COMMENT_MARK: u32 = 2013;

/// A style of characters.
pub const CHARACTER_STYLE: u32 = 2021;

/// A style of paragraphs.
pub const PARAGRAPH_STYLE: u32 = 2022;

/// A style of lists.
pub const LIST_STYLE: u32 = 2023;

/// A link.
pub const LINK: u32 = 2032;

/// An image.
pub const IMAGE: u32 = 3005;

/// A group of drawables.
pub const GROUP: u32 = 3008;

/// A comment, with its replies.
pub const COMMENT: u32 = 3056;

/// A table as a drawable.
pub const TABLE_INFO: u32 = 6000;

/// The contents of a table.
pub const TABLE_MODEL: u32 = 6001;

/// Some rows of a table.
pub const TILE: u32 = 6002;

/// The values that cells refer to.
pub const VALUE_LIST: u32 = 6005;

/// The text of a cell.
pub const TEXT_REF: u32 = 6218;

/// The document itself.
pub const DOCUMENT: u32 = 10000;

/// A page master.
pub const PAGE_MASTER: u32 = 10011;

/// The headers and footers of a page master.
pub const HEADERS_AND_FOOTERS: u32 = 10143;

/// The list of the data files.
pub const PACKAGE_METADATA: u32 = 11006;

/// The field of a storage with the styles of paragraphs.
pub const STORAGE_STYLES: u64 = 5;

/// The field of a storage with the depths of lists.
pub const STORAGE_DEPTHS: u64 = 6;

/// The field of a storage with the styles of lists.
pub const STORAGE_LISTS: u64 = 7;

/// The field of a storage with the styles of characters.
pub const STORAGE_CHARACTERS: u64 = 8;

/// The field of a storage with the attachments.
pub const STORAGE_ATTACHMENTS: u64 = 9;

/// The field of a storage with the links.
pub const STORAGE_LINKS: u64 = 11;

/// The field of a storage with the footnotes.
pub const STORAGE_FOOTNOTES: u64 = 16;

/// The field of a storage with the page masters.
pub const STORAGE_PAGE_MASTERS: u64 = 17;

/// The field of a storage with the comments.
pub const STORAGE_COMMENTS: u64 = 23;

/// The field of the document with its text.
pub const DOCUMENT_BODY: u64 = 4;

/// The field of the document with the drawables that it owns.
pub const DOCUMENT_DRAWABLES: u64 = 20;

// ------------------------------------------------------------ objects

/// An object of a document.
pub struct Archive {
    pub id: u64,
    pub ty: u32,
    pub payload: Vec<u8>,
}

/// View of an [`Archive`].
#[verifier::ext_equal]
pub struct ArchiveV {
    pub id: u64,
    pub ty: u32,
    pub payload: Seq<u8>,
}

impl View for Archive {
    type V = ArchiveV;

    open spec fn view(&self) -> ArchiveV {
        ArchiveV { id: self.id, ty: self.ty, payload: self.payload@ }
    }
}

/// Views of objects.
pub open spec fn archives_view(v: Seq<Archive>) -> Seq<ArchiveV> {
    Seq::new(v.len(), |i: int| v[i]@)
}

/// The place of the object with an identifier among the first `n`: the last
/// one counts.
pub open spec fn object_in(v: Seq<ArchiveV>, n: int, id: u64) -> Option<int>
    decreases n,
{
    if n <= 0 || n > v.len() {
        None
    } else if v[n - 1].id == id {
        Some(n - 1)
    } else {
        object_in(v, n - 1, id)
    }
}

/// The object with an identifier.
pub open spec fn object(v: Seq<ArchiveV>, id: u64) -> Option<ArchiveV> {
    match object_in(v, v.len() as int, id) {
        Some(k) => Some(v[k]),
        None => None,
    }
}

/// The object of a type with an identifier.
pub open spec fn typed(v: Seq<ArchiveV>, id: u64, ty: u32) -> Option<ArchiveV> {
    match object(v, id) {
        Some(a) => if a.ty == ty {
            Some(a)
        } else {
            None
        },
        None => None,
    }
}

/// The object of a type that a reference names, if there is one.
pub open spec fn target(v: Seq<ArchiveV>, id: Option<u64>, ty: u32) -> Option<ArchiveV> {
    match id {
        Some(k) => typed(v, k, ty),
        None => None,
    }
}

/// View of an optional object.
pub open spec fn opt_archive(o: Option<&Archive>) -> Option<ArchiveV> {
    match o {
        Some(a) => Some(a@),
        None => None,
    }
}

pub(crate) fn find_object<'a>(v: &'a Vec<Archive>, id: u64) -> (r: Option<&'a Archive>)
    ensures
        opt_archive(r) == object(archives_view(v@), id),
{
    let ghost w = archives_view(v@);
    let mut n: usize = v.len();
    while n > 0
        invariant
            n <= v@.len(),
            w == archives_view(v@),
            object_in(w, w.len() as int, id) == object_in(w, n as int, id),
        decreases n,
    {
        assert(w[n - 1] == v@[n - 1]@);
        if v[n - 1].id == id {
            return Some(&v[n - 1]);
        }
        n -= 1;
    }
    None
}

pub(crate) fn find_typed<'a>(v: &'a Vec<Archive>, id: u64, ty: u32) -> (r: Option<&'a Archive>)
    ensures
        opt_archive(r) == typed(archives_view(v@), id, ty),
{
    match find_object(v, id) {
        Some(a) => if a.ty == ty {
            Some(a)
        } else {
            None
        },
        None => None,
    }
}

pub(crate) fn find_target<'a>(v: &'a Vec<Archive>, id: Option<u64>, ty: u32) -> (r: Option<&'a Archive>)
    ensures
        opt_archive(r) == target(archives_view(v@), id, ty),
{
    match id {
        Some(k) => find_typed(v, k, ty),
        None => None,
    }
}

/// The first object from `i` on of a type, in the order in which the
/// identifiers appear.
pub open spec fn first_typed(v: Seq<ArchiveV>, i: int, ty: u32) -> Option<ArchiveV>
    decreases v.len() - i,
{
    if i >= v.len() {
        None
    } else {
        match typed(v, v[i].id, ty) {
            Some(a) => Some(a),
            None => first_typed(v, i + 1, ty),
        }
    }
}

pub(crate) fn find_first<'a>(v: &'a Vec<Archive>, ty: u32) -> (r: Option<&'a Archive>)
    ensures
        opt_archive(r) == first_typed(archives_view(v@), 0, ty),
{
    let ghost w = archives_view(v@);
    let mut i: usize = 0;
    while i < v.len()
        invariant
            i <= v@.len(),
            w == archives_view(v@),
            first_typed(w, 0, ty) == first_typed(w, i as int, ty),
        decreases v@.len() - i,
    {
        assert(w[i as int] == v@[i as int]@);
        match find_typed(v, v[i].id, ty) {
            Some(a) => {
                return Some(a);
            },
            None => {},
        }
        i += 1;
    }
    None
}

// ------------------------------------------------------------ tables of a storage

/// Where an entry goes among indices in order: behind those that are not
/// greater.
pub open spec fn slot(p: Seq<int>, i: int, index: int) -> int
    decreases p.len() - i,
{
    if i >= p.len() || p[i] > index {
        i
    } else {
        slot(p, i + 1, index)
    }
}

proof fn slot_bounds(p: Seq<int>, i: int, index: int)
    requires
        0 <= i <= p.len(),
    ensures
        i <= slot(p, i, index) <= p.len(),
        forall|k: int| i <= k < slot(p, i, index) ==> #[trigger] p[k] <= index,
        slot(p, i, index) < p.len() ==> p[slot(p, i, index)] > index,
    decreases p.len() - i,
{
    if i < p.len() && p[i] <= index {
        slot_bounds(p, i + 1, index);
    }
}

/// Indices with one added in its place.
pub open spec fn slotted(p: Seq<int>, index: int) -> Seq<int> {
    p.insert(slot(p, 0, index), index)
}

/// Adding an entry in its place keeps the order.
pub proof fn entries_stay_in_order(p: Seq<int>, index: int)
    requires
        in_order(p),
    ensures
        in_order(slotted(p, index)),
{
    slot_bounds(p, 0, index);
    let k = slot(p, 0, index);
    let q = slotted(p, index);
    assert forall|i: int, j: int| 0 <= i <= j < q.len() implies #[trigger] q[i] <= #[trigger] q[j] by {
        if i < k {
            assert(q[i] == p[i]);
        } else if i > k {
            assert(q[i] == p[i - 1]);
        }
        if j < k {
            assert(q[j] == p[j]);
        } else if j > k {
            assert(q[j] == p[j - 1]);
            assert(p[k] <= p[j - 1]);
        }
    }
}

fn add_entry<T>(t: &mut Vec<(usize, T)>, index: usize, value: T)
    ensures
        final(t)@ == old(t)@.insert(
            slot(indices(old(t)@), 0, index as int),
            (index, value),
        ),
{
    let ghost p = indices(t@);
    let mut k: usize = 0;
    while k < t.len() && t[k].0 <= index
        invariant
            k <= t@.len(),
            p == indices(t@),
            slot(p, 0, index as int) == slot(p, k as int, index as int),
        decreases t@.len() - k,
    {
        assert(p[k as int] == t@[k as int].0);
        k += 1;
    }
    if k < t.len() {
        assert(p[k as int] == t@[k as int].0);
    }
    t.insert(k, (index, value));
}

/// The entries of a table from `i` on that name an object of a type, or none,
/// added to `done` in order.
pub open spec fn object_entries(
    v: Seq<ArchiveV>,
    f: Seq<FieldV>,
    i: int,
    ty: u32,
    done: Seq<(int, Option<ArchiveV>)>,
) -> Seq<(int, Option<ArchiveV>)>
    decreases f.len() - i,
{
    if i >= f.len() {
        done
    } else {
        object_entries(
            v,
            f,
            i + 1,
            ty,
            match f[i].value {
                ValueV::Bytes(e) => if f[i].number == 1 && number_of(e, 1) is Some {
                    let at = (number_of(e, 1)->0 as usize) as int;
                    done.insert(
                        slot(crate::pages::positions(done), 0, at),
                        (at, target(v, reference_of(e, 2), ty)),
                    )
                } else {
                    done
                },
                _ => done,
            },
        )
    }
}

/// The fields of a table.
pub open spec fn table_fields(payload: Seq<u8>, field: u64) -> Seq<FieldV> {
    match bytes_of(payload, field) {
        Some(t) => fields_of(t),
        None => seq![],
    }
}

/// The entries of a table that name objects of a type.
pub open spec fn object_table(v: Seq<ArchiveV>, payload: Seq<u8>, field: u64, ty: u32) -> Seq<
    (int, Option<ArchiveV>),
> {
    object_entries(v, table_fields(payload, field), 0, ty, seq![])
}

/// Views of entries that name objects.
pub open spec fn object_view(t: Seq<(usize, Option<&Archive>)>) -> Seq<(int, Option<ArchiveV>)> {
    Seq::new(t.len(), |i: int| (t[i].0 as int, opt_archive(t[i].1)))
}

fn object_runs<'a>(v: &'a Vec<Archive>, payload: &[u8], field: u64, ty: u32) -> (r: Vec<
    (usize, Option<&'a Archive>),
>)
    ensures
        object_view(r@) == object_table(archives_view(v@), payload@, field, ty),
{
    let ghost o = archives_view(v@);
    let mut out: Vec<(usize, Option<&'a Archive>)> = Vec::new();
    assert(object_view(out@) =~= seq![]);
    let table = match first_bytes(payload, field) {
        Some(t) => t,
        None => {
            return out;
        },
    };
    let f = fields(table);
    let ghost w = fields_view(f@);
    let mut i: usize = 0;
    while i < f.len()
        invariant
            i <= f@.len(),
            o == archives_view(v@),
            w == fields_view(f@),
            object_entries(o, w, 0, ty, seq![]) == object_entries(
                o,
                w,
                i as int,
                ty,
                object_view(out@),
            ),
        decreases f@.len() - i,
    {
        assert(w[i as int] == f@[i as int]@);
        match f[i].value {
            Value::Bytes(e) => {
                if f[i].number == 1 {
                    match first_varint(e, 1) {
                        Some(n) => {
                            let at = n as usize;
                            let found = find_target(v, reference_field(e, 2), ty);
                            let ghost before = out@;
                            add_entry(&mut out, at, found);
                            proof {
                                assert(crate::pages::positions(object_view(before)) =~= indices(
                                    before,
                                ));
                                slot_bounds(indices(before), 0, at as int);
                                assert(object_view(out@) =~= object_view(before).insert(
                                    slot(indices(before), 0, at as int),
                                    (at as int, opt_archive(found)),
                                ));
                            }
                        },
                        None => {},
                    }
                }
            },
            _ => {},
        }
        i += 1;
    }
    out
}

/// The entries of a table from `i` on that hold a number, added to `done` in
/// order.
pub open spec fn depth_entries(f: Seq<FieldV>, i: int, done: Seq<(int, usize)>) -> Seq<(int, usize)>
    decreases f.len() - i,
{
    if i >= f.len() {
        done
    } else {
        depth_entries(
            f,
            i + 1,
            match f[i].value {
                ValueV::Bytes(e) => if f[i].number == 1 && number_of(e, 1) is Some && number_of(
                    e,
                    2,
                ) is Some {
                    let at = (number_of(e, 1)->0 as usize) as int;
                    done.insert(
                        slot(crate::pages::positions(done), 0, at),
                        (at, number_of(e, 2)->0 as usize),
                    )
                } else {
                    done
                },
                _ => done,
            },
        )
    }
}

/// Views of entries with numbers.
pub open spec fn depth_view(t: Seq<(usize, usize)>) -> Seq<(int, usize)> {
    Seq::new(t.len(), |i: int| (t[i].0 as int, t[i].1))
}

fn depth_runs(payload: &[u8]) -> (r: Vec<(usize, usize)>)
    ensures
        depth_view(r@) == depth_entries(table_fields(payload@, STORAGE_DEPTHS), 0, seq![]),
{
    let mut out: Vec<(usize, usize)> = Vec::new();
    assert(depth_view(out@) =~= seq![]);
    let table = match first_bytes(payload, STORAGE_DEPTHS) {
        Some(t) => t,
        None => {
            return out;
        },
    };
    let f = fields(table);
    let ghost w = fields_view(f@);
    let mut i: usize = 0;
    while i < f.len()
        invariant
            i <= f@.len(),
            w == fields_view(f@),
            depth_entries(w, 0, seq![]) == depth_entries(w, i as int, depth_view(out@)),
        decreases f@.len() - i,
    {
        assert(w[i as int] == f@[i as int]@);
        match f[i].value {
            Value::Bytes(e) => {
                if f[i].number == 1 {
                    match (first_varint(e, 1), first_varint(e, 2)) {
                        (Some(n), Some(d)) => {
                            let at = n as usize;
                            let depth = d as usize;
                            let ghost before = out@;
                            add_entry(&mut out, at, depth);
                            proof {
                                assert(crate::pages::positions(depth_view(before)) =~= indices(
                                    before,
                                ));
                                slot_bounds(indices(before), 0, at as int);
                                assert(depth_view(out@) =~= depth_view(before).insert(
                                    slot(indices(before), 0, at as int),
                                    (at as int, depth),
                                ));
                            }
                        },
                        _ => {},
                    }
                }
            },
            _ => {},
        }
        i += 1;
    }
    out
}

/// The entries of a table from `i` on that anchor an object, added to `done`
/// in order.
pub open spec fn anchor_entries(f: Seq<FieldV>, i: int, done: Seq<(int, u64)>) -> Seq<(int, u64)>
    decreases f.len() - i,
{
    if i >= f.len() {
        done
    } else {
        anchor_entries(
            f,
            i + 1,
            match f[i].value {
                ValueV::Bytes(e) => if f[i].number == 1 && number_of(e, 1) is Some && reference_of(
                    e,
                    2,
                ) is Some {
                    let at = (number_of(e, 1)->0 as usize) as int;
                    done.insert(
                        slot(crate::pages::positions(done), 0, at),
                        (at, reference_of(e, 2)->0),
                    )
                } else {
                    done
                },
                _ => done,
            },
        )
    }
}

/// The objects that a storage's table anchors.
pub open spec fn anchors(payload: Seq<u8>, field: u64) -> Seq<(int, u64)> {
    anchor_entries(table_fields(payload, field), 0, seq![])
}

/// Views of anchors.
pub open spec fn anchor_view(t: Seq<(usize, u64)>) -> Seq<(int, u64)> {
    Seq::new(t.len(), |i: int| (t[i].0 as int, t[i].1))
}

pub(crate) fn attachment_runs(payload: &[u8], field: u64) -> (r: Vec<(usize, u64)>)
    ensures
        anchor_view(r@) == anchors(payload@, field),
{
    let mut out: Vec<(usize, u64)> = Vec::new();
    assert(anchor_view(out@) =~= seq![]);
    let table = match first_bytes(payload, field) {
        Some(t) => t,
        None => {
            return out;
        },
    };
    let f = fields(table);
    let ghost w = fields_view(f@);
    let mut i: usize = 0;
    while i < f.len()
        invariant
            i <= f@.len(),
            w == fields_view(f@),
            anchor_entries(w, 0, seq![]) == anchor_entries(w, i as int, anchor_view(out@)),
        decreases f@.len() - i,
    {
        assert(w[i as int] == f@[i as int]@);
        match f[i].value {
            Value::Bytes(e) => {
                if f[i].number == 1 {
                    match (first_varint(e, 1), reference_field(e, 2)) {
                        (Some(n), Some(id)) => {
                            let at = n as usize;
                            let ghost before = out@;
                            add_entry(&mut out, at, id);
                            proof {
                                assert(crate::pages::positions(anchor_view(before)) =~= indices(
                                    before,
                                ));
                                slot_bounds(indices(before), 0, at as int);
                                assert(anchor_view(out@) =~= anchor_view(before).insert(
                                    slot(indices(before), 0, at as int),
                                    (at as int, id),
                                ));
                            }
                        },
                        _ => {},
                    }
                }
            },
            _ => {},
        }
        i += 1;
    }
    out
}

// ------------------------------------------------------------ styles

/// The name of a paragraph style.
pub open spec fn style_name(payload: Seq<u8>) -> Option<Seq<char>> {
    match bytes_of(payload, 1) {
        Some(s) => match bytes_of(s, 1) {
            Some(n) => if valid_utf8(n) {
                Some(decode_utf8(n))
            } else {
                None
            },
            None => None,
        },
        None => None,
    }
}

fn copy_bytes(b: &[u8]) -> (r: Vec<u8>)
    ensures
        r@ == b@,
{
    let n: usize = b.len();
    let mut out: Vec<u8> = Vec::new();
    let mut i: usize = 0;
    while i < n
        invariant
            i <= n == b@.len(),
            out@ == b@.take(i as int),
        decreases n - i,
    {
        out.push(b[i]);
        assert(out@ =~= b@.take(i + 1));
        i += 1;
    }
    assert(b@.take(n as int) =~= b@);
    out
}

fn read_style_name(payload: &[u8]) -> (r: Option<Vec<char>>)
    ensures
        opt_chars(r) == style_name(payload@),
{
    match first_bytes(payload, 1) {
        Some(s) => match first_bytes(s, 1) {
            Some(n) => match to_text(copy_bytes(n)) {
                Some(t) => Some(chars_of(t.as_str())),
                None => None,
            },
            None => None,
        },
        None => None,
    }
}

/// What the fields of a style's properties say.
#[verifier::ext_equal]
pub struct MarksV {
    pub bold: bool,
    pub italic: bool,
    pub underline: bool,
    pub strike: bool,
    pub script: Option<u64>,
}

/// What the fields from `i` on say, on top of `m`.
pub open spec fn marks_from(f: Seq<FieldV>, i: int, m: MarksV) -> MarksV
    decreases f.len() - i,
{
    if i >= f.len() {
        m
    } else {
        marks_from(
            f,
            i + 1,
            match f[i].value {
                ValueV::Varint(n) => if f[i].number == 1 && n != 0 {
                    MarksV { bold: true, ..m }
                } else if f[i].number == 2 && n != 0 {
                    MarksV { italic: true, ..m }
                } else if f[i].number == 11 && n != 0 {
                    MarksV { underline: true, ..m }
                } else if f[i].number == 12 && n != 0 {
                    MarksV { strike: true, ..m }
                } else if f[i].number == 10 && m.script is None {
                    MarksV { script: Some(n), ..m }
                } else {
                    m
                },
                _ => m,
            },
        )
    }
}

/// No marks.
pub open spec fn no_marks() -> MarksV {
    MarksV { bold: false, italic: false, underline: false, strike: false, script: None }
}

/// The formatting of a character style.
pub open spec fn style_format(payload: Seq<u8>) -> Option<Formatting> {
    match bytes_of(payload, 11) {
        Some(p) => {
            let m = marks_from(fields_of(p), 0, no_marks());
            formatting(
                m.bold,
                m.italic,
                m.underline,
                m.strike,
                match m.script {
                    Some(n) => script(n),
                    None => None,
                },
            )
        },
        None => None,
    }
}

fn read_format(payload: &[u8]) -> (r: Option<Formatting>)
    ensures
        r == style_format(payload@),
{
    let p = match first_bytes(payload, 11) {
        Some(p) => p,
        None => {
            return None;
        },
    };
    let f = fields(p);
    let ghost w = fields_view(f@);
    let mut bold = false;
    let mut italic = false;
    let mut underline = false;
    let mut strike = false;
    let mut found: Option<u64> = None;
    let mut i: usize = 0;
    while i < f.len()
        invariant
            i <= f@.len(),
            w == fields_view(f@),
            marks_from(w, 0, no_marks()) == marks_from(
                w,
                i as int,
                MarksV { bold, italic, underline, strike, script: found },
            ),
        decreases f@.len() - i,
    {
        assert(w[i as int] == f@[i as int]@);
        match f[i].value {
            Value::Varint(n) => {
                let k = f[i].number;
                if k == 1 && n != 0 {
                    bold = true;
                } else if k == 2 && n != 0 {
                    italic = true;
                } else if k == 11 && n != 0 {
                    underline = true;
                } else if k == 12 && n != 0 {
                    strike = true;
                } else if k == 10 && found.is_none() {
                    found = Some(n);
                }
            },
            _ => {},
        }
        i += 1;
    }
    let script = match found {
        Some(n) => script_of(n),
        None => None,
    };
    Formatting::build(bold, italic, underline, strike, script)
}

/// The levels of a list style that the fields from `i` on say, added to
/// `done`.
pub open spec fn levels_from(f: Seq<FieldV>, i: int, done: ListStyleV) -> ListStyleV
    decreases f.len() - i,
{
    if i >= f.len() {
        done
    } else {
        levels_from(
            f,
            i + 1,
            match f[i].value {
                ValueV::Varint(n) => if f[i].number == 11 {
                    ListStyleV { label_types: done.label_types.push(n), ..done }
                } else {
                    done
                },
                ValueV::Bytes(b) => if f[i].number == 16 {
                    ListStyleV { strings: done.strings.push(lossy(b)), ..done }
                } else {
                    done
                },
                ValueV::Fixed => done,
            },
        )
    }
}

/// The list style of a message.
pub open spec fn list_style(payload: Seq<u8>) -> ListStyleV {
    levels_from(
        fields_of(payload),
        0,
        ListStyleV { label_types: seq![], strings: seq![] },
    )
}

fn read_list_style(payload: &[u8]) -> (r: ListStyle)
    ensures
        r@ == list_style(payload@),
{
    let f = fields(payload);
    let ghost w = fields_view(f@);
    let mut out = ListStyle { label_types: Vec::new(), strings: Vec::new() };
    let ghost first = ListStyleV { label_types: seq![], strings: seq![] };
    assert(out@ =~= first);
    let mut i: usize = 0;
    while i < f.len()
        invariant
            i <= f@.len(),
            w == fields_view(f@),
            levels_from(w, 0, first) == levels_from(w, i as int, out@),
        decreases f@.len() - i,
    {
        broadcast use texts_push;

        assert(w[i as int] == f@[i as int]@);
        match f[i].value {
            Value::Varint(n) => {
                if f[i].number == 11 {
                    out.label_types.push(n);
                }
            },
            Value::Bytes(b) => {
                if f[i].number == 16 {
                    out.strings.push(chars_of(to_lossy(b).as_str()));
                }
            },
            Value::Fixed => {},
        }
        i += 1;
    }
    out
}

/// The address of a link.
pub open spec fn link_of(payload: Seq<u8>) -> Option<Seq<char>> {
    match bytes_of(payload, 2) {
        Some(b) => if strip(lossy(b)).len() == 0 {
            None
        } else {
            Some(strip(lossy(b)))
        },
        None => None,
    }
}

/// The text of bytes without the white space around it; none where it is
/// blank.
pub(crate) fn text_of_bytes(b: Option<&[u8]>) -> (r: Option<Vec<char>>)
    ensures
        opt_chars(r) == match opt_slice(b) {
            Some(x) => if strip(lossy(x)).len() == 0 {
                None
            } else {
                Some(strip(lossy(x)))
            },
            None => None,
        },
{
    match b {
        Some(x) => {
            let t = trim(&chars_of(to_lossy(x).as_str()));
            if t.len() == 0 {
                None
            } else {
                Some(t)
            }
        },
        None => None,
    }
}

/// The tables of a storage.
pub open spec fn storage_tables(v: Seq<ArchiveV>, payload: Seq<u8>) -> StorageRunsV {
    let styles = object_table(v, payload, STORAGE_STYLES, PARAGRAPH_STYLE);
    let characters = object_table(v, payload, STORAGE_CHARACTERS, CHARACTER_STYLE);
    let lists = object_table(v, payload, STORAGE_LISTS, LIST_STYLE);
    let links = object_table(v, payload, STORAGE_LINKS, LINK);
    StorageRunsV {
        styles: Seq::new(
            styles.len(),
            |i: int|
                (
                    styles[i].0,
                    match styles[i].1 {
                        Some(a) => style_name(a.payload),
                        None => None,
                    },
                ),
        ),
        characters: Seq::new(
            characters.len(),
            |i: int|
                (
                    characters[i].0,
                    match characters[i].1 {
                        Some(a) => style_format(a.payload),
                        None => None,
                    },
                ),
        ),
        lists: Seq::new(
            lists.len(),
            |i: int|
                (
                    lists[i].0,
                    match lists[i].1 {
                        Some(a) => Some(list_style(a.payload)),
                        None => None,
                    },
                ),
        ),
        depths: depth_entries(table_fields(payload, STORAGE_DEPTHS), 0, seq![]),
        links: Seq::new(
            links.len(),
            |i: int|
                (
                    links[i].0,
                    match links[i].1 {
                        Some(a) => link_of(a.payload),
                        None => None,
                    },
                ),
        ),
    }
}

fn name_table(t: &Vec<(usize, Option<&Archive>)>, link: bool) -> (r: Vec<
    (usize, Option<Vec<char>>),
>)
    ensures
        text_table(r@) == Seq::new(
            t@.len(),
            |i: int|
                (
                    t@[i].0 as int,
                    match opt_archive(t@[i].1) {
                        Some(a) => if link {
                            link_of(a.payload)
                        } else {
                            style_name(a.payload)
                        },
                        None => None,
                    },
                ),
        ),
{
    let ghost want = Seq::new(
        t@.len(),
        |i: int|
            (
                t@[i].0 as int,
                match opt_archive(t@[i].1) {
                    Some(a) => if link {
                        link_of(a.payload)
                    } else {
                        style_name(a.payload)
                    },
                    None => None,
                },
            ),
    );
    let mut out: Vec<(usize, Option<Vec<char>>)> = Vec::new();
    let mut i: usize = 0;
    while i < t.len()
        invariant
            i <= t@.len(),
            out@.len() == i,
            want.len() == t@.len(),
            forall|k: int|
                0 <= k < t@.len() ==> #[trigger] want[k] == (
                    t@[k].0 as int,
                    match opt_archive(t@[k].1) {
                        Some(a) => if link {
                            link_of(a.payload)
                        } else {
                            style_name(a.payload)
                        },
                        None => None,
                    },
                ),
            forall|k: int|
                0 <= k < i ==> (out@[k].0 as int, opt_chars((#[trigger] out@[k]).1)) == want[k],
        decreases t@.len() - i,
    {
        assert(want[i as int].0 == t@[i as int].0);
        let value = match t[i].1 {
            Some(a) => if link {
                text_of_bytes(first_bytes(a.payload.as_slice(), 2))
            } else {
                read_style_name(a.payload.as_slice())
            },
            None => None,
        };
        out.push((t[i].0, value));
        i += 1;
    }
    assert(text_table(out@) =~= want);
    out
}

fn format_table(t: &Vec<(usize, Option<&Archive>)>) -> (r: Vec<(usize, Option<Formatting>)>)
    ensures
        r@.len() == t@.len(),
        forall|k: int|
            0 <= k < t@.len() ==> (#[trigger] r@[k]).0 == t@[k].0 && r@[k].1 == match opt_archive(
                t@[k].1,
            ) {
                Some(a) => style_format(a.payload),
                None => None,
            },
{
    let mut out: Vec<(usize, Option<Formatting>)> = Vec::new();
    let mut i: usize = 0;
    while i < t.len()
        invariant
            i <= t@.len(),
            out@.len() == i,
            forall|k: int|
                0 <= k < i ==> (#[trigger] out@[k]).0 == t@[k].0 && out@[k].1 == match opt_archive(
                    t@[k].1,
                ) {
                    Some(a) => style_format(a.payload),
                    None => None,
                },
        decreases t@.len() - i,
    {
        let value = match t[i].1 {
            Some(a) => read_format(a.payload.as_slice()),
            None => None,
        };
        out.push((t[i].0, value));
        i += 1;
    }
    out
}

fn list_table(t: &Vec<(usize, Option<&Archive>)>) -> (r: Vec<(usize, Option<ListStyle>)>)
    ensures
        r@.len() == t@.len(),
        forall|k: int|
            0 <= k < t@.len() ==> (#[trigger] r@[k]).0 == t@[k].0 && opt_style(r@[k].1)
                == match opt_archive(t@[k].1) {
                Some(a) => Some(list_style(a.payload)),
                None => None,
            },
{
    let mut out: Vec<(usize, Option<ListStyle>)> = Vec::new();
    let mut i: usize = 0;
    while i < t.len()
        invariant
            i <= t@.len(),
            out@.len() == i,
            forall|k: int|
                0 <= k < i ==> (#[trigger] out@[k]).0 == t@[k].0 && opt_style(out@[k].1)
                    == match opt_archive(t@[k].1) {
                    Some(a) => Some(list_style(a.payload)),
                    None => None,
                },
        decreases t@.len() - i,
    {
        let value = match t[i].1 {
            Some(a) => Some(read_list_style(a.payload.as_slice())),
            None => None,
        };
        out.push((t[i].0, value));
        i += 1;
    }
    out
}

/// The tables of a storage.
pub fn storage_runs(v: &Vec<Archive>, payload: &[u8]) -> (r: StorageRuns)
    ensures
        r@ == storage_tables(archives_view(v@), payload@),
{
    let ghost o = archives_view(v@);
    let styles = object_runs(v, payload, STORAGE_STYLES, PARAGRAPH_STYLE);
    let characters = object_runs(v, payload, STORAGE_CHARACTERS, CHARACTER_STYLE);
    let lists = object_runs(v, payload, STORAGE_LISTS, LIST_STYLE);
    let links = object_runs(v, payload, STORAGE_LINKS, LINK);
    let r = StorageRuns {
        styles: name_table(&styles, false),
        characters: format_table(&characters),
        lists: list_table(&lists),
        depths: depth_runs(payload),
        links: name_table(&links, true),
    };
    proof {
        let want = storage_tables(o, payload@);
        let s = object_view(styles@);
        let c = object_view(characters@);
        let l = object_view(lists@);
        let k = object_view(links@);
        assert(s.len() == styles@.len());
        assert(r@.styles =~= want.styles) by {
            assert forall|i: int| 0 <= i < s.len() implies r@.styles[i] == #[trigger] want.styles[i] by {
                assert(s[i].1 == opt_archive(styles@[i].1));
            }
        }
        assert(r@.characters =~= want.characters) by {
            assert forall|i: int| 0 <= i < c.len() implies r@.characters[i]
                == #[trigger] want.characters[i] by {
                assert(c[i].1 == opt_archive(characters@[i].1));
                assert(r.characters@[i].0 == characters@[i].0);
            }
        }
        assert(r@.lists =~= want.lists) by {
            assert forall|i: int| 0 <= i < l.len() implies r@.lists[i] == #[trigger] want.lists[i] by {
                assert(l[i].1 == opt_archive(lists@[i].1));
                assert(r.lists@[i].0 == lists@[i].0);
            }
        }
        assert(r@.depths =~= want.depths);
        assert(r@.links =~= want.links) by {
            assert forall|i: int| 0 <= i < k.len() implies r@.links[i] == #[trigger] want.links[i] by {
                assert(k[i].1 == opt_archive(links@[i].1));
            }
        }
    }
    r
}

/// The texts of the fields from `i` on, added to `out`.
pub open spec fn text_from(f: Seq<FieldV>, i: int, out: Seq<char>) -> Seq<char>
    decreases f.len() - i,
{
    if i >= f.len() {
        out
    } else {
        text_from(
            f,
            i + 1,
            match f[i].value {
                ValueV::Bytes(b) => if f[i].number == 3 {
                    out + lossy(b)
                } else {
                    out
                },
                _ => out,
            },
        )
    }
}

/// The text of a storage.
pub open spec fn storage_text(payload: Seq<u8>) -> Seq<char> {
    text_from(fields_of(payload), 0, seq![])
}

pub(crate) fn read_text(payload: &[u8]) -> (r: Vec<char>)
    ensures
        r@ == storage_text(payload@),
{
    let f = fields(payload);
    let ghost w = fields_view(f@);
    let mut out: Vec<char> = Vec::new();
    let mut i: usize = 0;
    assert(out@ =~= seq![]);
    while i < f.len()
        invariant
            i <= f@.len(),
            w == fields_view(f@),
            text_from(w, 0, seq![]) == text_from(w, i as int, out@),
        decreases f@.len() - i,
    {
        assert(w[i as int] == f@[i as int]@);
        match f[i].value {
            Value::Bytes(b) => {
                if f[i].number == 3 {
                    push_str(&mut out, to_lossy(b).as_str());
                }
            },
            _ => {},
        }
        i += 1;
    }
    out
}

} // verus!
