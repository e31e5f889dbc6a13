//! The walk through the objects of a newer Pages document.
//!
//! A drawable can be reached from the text that it is anchored in and from
//! the document's own list. It is drawn where it is reached first.

use crate::decode::lossy;
use crate::iwatable::{table, table_of};
use crate::jats::opt_chars;
use crate::pages::{
    authored, blocks_view, blocks_view_push, comments_view, label_at, line_runs, list_label_at,
    paragraphs_view, run_views, runs_for, split_at, split_paragraphs, style_at, style_kind,
    style_label_at, unique_from, unique_paragraphs, with_author, Block, BlockV, Comment, CommentV,
    Content, ContentV, Paragraph, ParagraphV, StorageRuns, StorageRunsV,
};
use crate::pages_iwa::{
    anchor_view, anchors, archives_view, attachment_runs, find_first, find_object, find_target,
    find_typed, first_typed, object, read_text, storage_runs, storage_tables, storage_text, target,
    text_of_bytes, typed, Archive, ArchiveV, ATTACHMENT, AUTHOR, COMMENT, COMMENT_MARK, DOCUMENT,
    DOCUMENT_BODY, DOCUMENT_DRAWABLES, GROUP, HEADERS_AND_FOOTERS, IMAGE, NOTE, PACKAGE_METADATA,
    PAGE_MASTER, SHAPE, STORAGE, STORAGE_ATTACHMENTS, STORAGE_COMMENTS, STORAGE_FOOTNOTES,
    STORAGE_PAGE_MASTERS, TABLE_INFO, TABLE_MODEL,
};
use crate::text::{
    chars_of, copy, decimal, find_from, index_from, push_decimal, push_str, slice, strip, texts,
    texts_push,
};
use crate::decode::to_lossy;
use crate::wire::{
    bytes_of, fields, fields_of, fields_view, first_bytes, first_varint, number_of, reference_field,
    reference_list, reference_of, referenced, references_of, FieldV, Value, ValueV,
};
use vstd::prelude::*;

verus! {

// ------------------------------------------------------------ identifiers

/// Where an identifier goes among others in order.
pub open spec fn id_slot(v: Seq<u64>, i: int, id: u64) -> int
    decreases v.len() - i,
{
    if i >= v.len() || v[i] >= id {
        i
    } else {
        id_slot(v, i + 1, id)
    }
}

/// Identifiers in order with one added, if it is not there.
pub open spec fn with_id(v: Seq<u64>, id: u64) -> Seq<u64> {
    let k = id_slot(v, 0, id);
    if k < v.len() && v[k] == id {
        v
    } else {
        v.insert(k, id)
    }
}

/// Whether identifiers stand in order, each once.
pub open spec fn ascending(v: Seq<u64>) -> bool {
    forall|i: int, j: int| 0 <= i < j < v.len() ==> #[trigger] v[i] < #[trigger] v[j]
}

proof fn id_slot_bounds(v: Seq<u64>, i: int, id: u64)
    requires
        0 <= i <= v.len(),
    ensures
        i <= id_slot(v, i, id) <= v.len(),
        forall|k: int| i <= k < id_slot(v, i, id) ==> #[trigger] v[k] < id,
        id_slot(v, i, id) < v.len() ==> v[id_slot(v, i, id)] >= id,
    decreases v.len() - i,
{
    if i < v.len() && v[i] < id {
        id_slot_bounds(v, i + 1, id);
    }
}

/// Adding an identifier keeps the others and their order, and each once.
pub proof fn identifiers_stay_in_order(v: Seq<u64>, id: u64)
    requires
        ascending(v),
    ensures
        ascending(with_id(v, id)),
        with_id(v, id).contains(id),
        forall|x: u64| v.contains(x) ==> #[trigger] with_id(v, id).contains(x),
{
    id_slot_bounds(v, 0, id);
    let k = id_slot(v, 0, id);
    let w = with_id(v, id);
    if k < v.len() && v[k] == id {
    } else {
        assert(w[k] == id);
        assert forall|i: int, j: int| 0 <= i < j < w.len() implies #[trigger] w[i]
            < #[trigger] w[j] by {
            if i < k {
                assert(w[i] == v[i]);
            } else if i > k {
                assert(w[i] == v[i - 1]);
            }
            if j < k {
                assert(w[j] == v[j]);
            } else if j > k {
                assert(w[j] == v[j - 1]);
                if j - 1 > k {
                    assert(v[k] < v[j - 1]);
                }
            }
        }
        assert forall|x: u64| v.contains(x) implies #[trigger] w.contains(x) by {
            let i = choose|i: int| 0 <= i < v.len() && v[i] == x;
            if i < k {
                assert(w[i] == x);
            } else {
                assert(w[i + 1] == x);
            }
        }
    }
}

fn add_id(v: &mut Vec<u64>, id: u64)
    ensures
        final(v)@ == with_id(old(v)@, id),
{
    let ghost w = v@;
    let mut k: usize = 0;
    while k < v.len() && v[k] < id
        invariant
            k <= v@.len(),
            v@ == w,
            id_slot(w, 0, id) == id_slot(w, k as int, id),
        decreases v@.len() - k,
    {
        k += 1;
    }
    if k < v.len() && v[k] == id {
        return;
    }
    v.insert(k, id);
}

/// The objects that the fields from `i` on refer to, at any nesting up to a
/// bound, added to `found`.
pub open spec fn ids_from(f: Seq<FieldV>, i: int, depth: int, found: Seq<u64>) -> Seq<u64>
    decreases 5 - depth, f.len() - i,
{
    if i < 0 || i >= f.len() || depth < 0 || depth > 4 {
        found
    } else {
        ids_from(
            f,
            i + 1,
            depth,
            match f[i].value {
                ValueV::Bytes(b) => if b.len() <= 6 {
                    match referenced(b) {
                        Some(id) => with_id(found, id),
                        None => found,
                    }
                } else {
                    ids_from(fields_of(b), 0, depth + 1, found)
                },
                _ => found,
            },
        )
    }
}

/// The objects that a message refers to.
pub open spec fn referenced_ids(b: Seq<u8>) -> Seq<u64> {
    ids_from(fields_of(b), 0, 0, seq![])
}

fn collect_ids(b: &[u8], depth: u32, found: &mut Vec<u64>)
    requires
        depth <= 5,
    ensures
        final(found)@ == ids_from(fields_of(b@), 0, depth as int, old(found)@),
    decreases 5 - depth,
{
    if depth > 4 {
        return;
    }
    let ghost first = found@;
    let f = fields(b);
    let ghost w = fields_view(f@);
    let mut i: usize = 0;
    while i < f.len()
        invariant
            i <= f@.len(),
            depth <= 4,
            w == fields_view(f@),
            ids_from(w, 0, depth as int, first) == ids_from(w, i as int, depth as int, found@),
        decreases f@.len() - i,
    {
        assert(w[i as int] == f@[i as int]@);
        match f[i].value {
            Value::Bytes(x) => {
                if x.len() <= 6 {
                    match first_varint(x, 1) {
                        Some(id) => {
                            add_id(found, id);
                        },
                        None => {},
                    }
                } else {
                    collect_ids(x, depth + 1, found);
                }
            },
            _ => {},
        }
        i += 1;
    }
}

fn find_ids(b: &[u8]) -> (r: Vec<u64>)
    ensures
        r@ == referenced_ids(b@),
{
    let mut found: Vec<u64> = Vec::new();
    assert(found@ =~= seq![]);
    collect_ids(b, 0, &mut found);
    found
}

// ------------------------------------------------------------ files

/// A file of the container by its identifier.
pub struct DataFile {
    pub id: u64,
    pub name: Vec<char>,
}

/// View of a [`DataFile`].
#[verifier::ext_equal]
pub struct DataFileV {
    pub id: u64,
    pub name: Seq<char>,
}

impl View for DataFile {
    type V = DataFileV;

    open spec fn view(&self) -> DataFileV {
        DataFileV { id: self.id, name: self.name@ }
    }
}

/// Views of files.
pub open spec fn files_view(v: Seq<DataFile>) -> Seq<DataFileV> {
    Seq::new(v.len(), |i: int| v[i]@)
}

/// The name of a file's entry.
pub open spec fn entry_name(e: Seq<u8>) -> Option<Seq<u8>> {
    match bytes_of(e, 4) {
        Some(b) => Some(b),
        None => bytes_of(e, 3),
    }
}

/// The files that the fields from `i` on name, added to `done`.
pub open spec fn files_from(f: Seq<FieldV>, i: int, done: Seq<DataFileV>) -> Seq<DataFileV>
    decreases f.len() - i,
{
    if i >= f.len() {
        done
    } else {
        files_from(
            f,
            i + 1,
            match f[i].value {
                ValueV::Bytes(e) => match (number_of(e, 1), entry_name(e)) {
                    (Some(id), Some(n)) => if f[i].number == 4 {
                        done.push(DataFileV { id, name: "Data/"@ + lossy(n) })
                    } else {
                        done
                    },
                    _ => done,
                },
                _ => done,
            },
        )
    }
}

/// The files of a document.
pub open spec fn data_files(v: Seq<ArchiveV>) -> Seq<DataFileV> {
    match first_typed(v, 0, PACKAGE_METADATA) {
        Some(a) => files_from(fields_of(a.payload), 0, seq![]),
        None => seq![],
    }
}

fn read_files(v: &Vec<Archive>) -> (r: Vec<DataFile>)
    ensures
        files_view(r@) == data_files(archives_view(v@)),
{
    let mut out: Vec<DataFile> = Vec::new();
    assert(files_view(out@) =~= seq![]);
    let a = match find_first(v, PACKAGE_METADATA) {
        Some(a) => a,
        None => {
            return out;
        },
    };
    let f = fields(a.payload.as_slice());
    let ghost w = fields_view(f@);
    let mut i: usize = 0;
    while i < f.len()
        invariant
            i <= f@.len(),
            w == fields_view(f@),
            files_from(w, 0, seq![]) == files_from(w, i as int, files_view(out@)),
        decreases f@.len() - i,
    {
        assert(w[i as int] == f@[i as int]@);
        match f[i].value {
            Value::Bytes(e) => {
                if f[i].number == 4 {
                    let name = match first_bytes(e, 4) {
                        Some(b) => Some(b),
                        None => first_bytes(e, 3),
                    };
                    match (first_varint(e, 1), name) {
                        (Some(id), Some(n)) => {
                            let mut t = chars_of("Data/");
                            push_str(&mut t, to_lossy(n).as_str());
                            let ghost before = out@;
                            let d = DataFile { id, name: t };
                            out.push(d);
                            assert(files_view(out@) =~= files_view(before).push(d@));
                        },
                        _ => {},
                    }
                }
            },
            _ => {},
        }
        i += 1;
    }
    out
}

/// The file with an identifier among the first `n`: the last one counts.
pub open spec fn file_with(v: Seq<DataFileV>, n: int, id: u64) -> Option<Seq<char>>
    decreases n,
{
    if n <= 0 || n > v.len() {
        None
    } else if v[n - 1].id == id {
        Some(v[n - 1].name)
    } else {
        file_with(v, n - 1, id)
    }
}

fn find_file(v: &Vec<DataFile>, id: u64) -> (r: Option<Vec<char>>)
    ensures
        opt_chars(r) == file_with(files_view(v@), v@.len() as int, id),
{
    let ghost w = files_view(v@);
    let mut n: usize = v.len();
    while n > 0
        invariant
            n <= v@.len(),
            w == files_view(v@),
            file_with(w, v@.len() as int, id) == file_with(w, n as int, id),
        decreases n,
    {
        assert(w[n - 1] == v@[n - 1]@);
        if v[n - 1].id == id {
            return Some(copy(&v[n - 1].name));
        }
        n -= 1;
    }
    None
}

/// The names with the file that an image's field names.
pub open spec fn with_file(files: Seq<DataFileV>, image: Seq<u8>, field: u64, names: Seq<Seq<char>>) -> Seq<
    Seq<char>,
> {
    match reference_of(image, field) {
        Some(id) => match file_with(files, files.len() as int, id) {
            Some(n) => names.push(n),
            None => names,
        },
        None => names,
    }
}

/// The files of an image, in the order in which to try them.
pub open spec fn image_files(files: Seq<DataFileV>, image: Seq<u8>) -> Seq<Seq<char>> {
    with_file(
        files,
        image,
        12,
        with_file(files, image, 11, with_file(files, image, 13, with_file(files, image, 15, seq![]))),
    )
}

fn add_file(files: &Vec<DataFile>, image: &[u8], field: u64, names: &mut Vec<Vec<char>>)
    ensures
        texts(final(names)@) == with_file(files_view(files@), image@, field, texts(old(names)@)),
{
    broadcast use texts_push;

    match reference_field(image, field) {
        Some(id) => match find_file(files, id) {
            Some(n) => {
                names.push(n);
            },
            None => {},
        },
        None => {},
    }
}

fn files_of_image(files: &Vec<DataFile>, image: &[u8]) -> (r: Vec<Vec<char>>)
    ensures
        texts(r@) == image_files(files_view(files@), image@),
{
    let mut names: Vec<Vec<char>> = Vec::new();
    assert(texts(names@) =~= seq![]);
    add_file(files, image, 15, &mut names);
    add_file(files, image, 13, &mut names);
    add_file(files, image, 11, &mut names);
    add_file(files, image, 12, &mut names);
    names
}

// ------------------------------------------------------------ drawables

/// The blocks, and the objects that were drawn.
#[verifier::ext_equal]
pub struct DrawV {
    pub blocks: Seq<BlockV>,
    pub drawn: Seq<u64>,
}

/// The blocks, and the objects that were drawn.
pub struct Draw {
    pub blocks: Vec<Block>,
    pub drawn: Vec<u64>,
}

impl View for Draw {
    type V = DrawV;

    open spec fn view(&self) -> DrawV {
        DrawV { blocks: blocks_view(self.blocks@), drawn: self.drawn@ }
    }
}

/// The identifiers of the comments at indices from `lo` to `hi` from `i` on, in
/// digits, added to `done`.
pub open spec fn marks_from(t: Seq<(int, u64)>, i: int, lo: int, hi: int, done: Seq<Seq<char>>) -> Seq<
    Seq<char>,
>
    decreases t.len() - i,
{
    if i >= t.len() {
        done
    } else {
        marks_from(
            t,
            i + 1,
            lo,
            hi,
            if lo <= t[i].0 <= hi {
                done.push(decimal(t[i].1 as int))
            } else {
                done
            },
        )
    }
}

fn read_marks(t: &Vec<(usize, u64)>, lo: usize, hi: usize) -> (r: Vec<Vec<char>>)
    ensures
        texts(r@) == marks_from(anchor_view(t@), 0, lo as int, hi as int, seq![]),
{
    let ghost w = anchor_view(t@);
    let mut out: Vec<Vec<char>> = Vec::new();
    let mut i: usize = 0;
    assert(texts(out@) =~= seq![]);
    while i < t.len()
        invariant
            i <= t@.len(),
            w == anchor_view(t@),
            marks_from(w, 0, lo as int, hi as int, seq![]) == marks_from(
                w,
                i as int,
                lo as int,
                hi as int,
                texts(out@),
            ),
        decreases t@.len() - i,
    {
        broadcast use texts_push;

        assert(w[i as int] == (t@[i as int].0 as int, t@[i as int].1));
        if lo <= t[i].0 && t[i].0 <= hi {
            out.push(digits(t[i].1));
        }
        i += 1;
    }
    out
}

fn digits(n: u64) -> (r: Vec<char>)
    ensures
        r@ == decimal(n as int),
{
    let mut d: Vec<char> = Vec::new();
    push_decimal(&mut d, n as u128);
    assert(d@ =~= decimal(n as int));
    d
}

/// The block of a line of a storage, if it has text.
pub open spec fn line_block(
    text: Seq<char>,
    from: int,
    to: int,
    runs: StorageRunsV,
    comments: Seq<(int, u64)>,
) -> Option<BlockV> {
    let pieces = line_runs(text.subrange(from, to), from, runs);
    if pieces.len() == 0 {
        None
    } else {
        Some(
            BlockV::Paragraph(
                ParagraphV {
                    runs: pieces,
                    label: style_kind(style_at(runs, from)),
                    list: label_at(runs, from),
                    anchors: marks_from(comments, 0, from, to, seq![]),
                },
            ),
        )
    }
}

/// The state with the drawable of an identifier added. `depth` bounds how
/// deep drawables lie in one another; each one is drawn once, so that a bound
/// of as many as there are objects cuts nothing off.
pub open spec fn drawn(v: Seq<ArchiveV>, id: u64, depth: int, s: DrawV) -> DrawV
    decreases depth, 0int, 0int,
{
    if depth <= 0 || s.drawn.contains(id) {
        s
    } else {
        let t = DrawV { drawn: s.drawn.push(id), ..s };
        match object(v, id) {
            None => t,
            Some(a) => if a.ty == ATTACHMENT {
                match reference_of(a.payload, 1) {
                    Some(k) => drawn(v, k, depth - 1, t),
                    None => t,
                }
            } else if a.ty == IMAGE {
                DrawV {
                    blocks: t.blocks.push(BlockV::Picture(image_files(data_files(v), a.payload))),
                    ..t
                }
            } else if a.ty == TABLE_INFO {
                match target(v, reference_of(a.payload, 2), TABLE_MODEL) {
                    Some(m) => match table_of(v, m.payload) {
                        Some(x) => DrawV { blocks: t.blocks.push(BlockV::Table(x)), ..t },
                        None => t,
                    },
                    None => t,
                }
            } else if a.ty == GROUP {
                drawn_all(v, references_of(a.payload, 2), 0, depth - 1, t)
            } else if a.ty == SHAPE {
                storages_from(v, referenced_ids(a.payload), 0, depth - 1, t)
            } else {
                t
            },
        }
    }
}

/// The state with the drawables of the identifiers from `i` on.
pub open spec fn drawn_all(v: Seq<ArchiveV>, ids: Seq<u64>, i: int, depth: int, s: DrawV) -> DrawV
    decreases depth, 1int, ids.len() - i,
{
    if i < 0 || i >= ids.len() {
        s
    } else {
        drawn_all(v, ids, i + 1, depth, drawn(v, ids[i], depth, s))
    }
}

/// The state with the drawables anchored at indices from `lo` to `hi`, from `i` on.
pub open spec fn anchored(
    v: Seq<ArchiveV>,
    t: Seq<(int, u64)>,
    i: int,
    lo: int,
    hi: int,
    depth: int,
    s: DrawV,
) -> DrawV
    decreases depth, 1int, t.len() - i,
{
    if i < 0 || i >= t.len() {
        s
    } else {
        anchored(
            v,
            t,
            i + 1,
            lo,
            hi,
            depth,
            if lo <= t[i].0 <= hi {
                drawn(v, t[i].1, depth, s)
            } else {
                s
            },
        )
    }
}

/// What a storage holds: its text, its tables, what is anchored in it and
/// what comments are on it.
#[verifier::ext_equal]
pub struct StorageV {
    pub text: Seq<char>,
    pub runs: StorageRunsV,
    pub attachments: Seq<(int, u64)>,
    pub comments: Seq<(int, u64)>,
}

/// What a storage holds.
pub open spec fn storage_of(v: Seq<ArchiveV>, payload: Seq<u8>) -> StorageV {
    StorageV {
        text: storage_text(payload),
        runs: storage_tables(v, payload),
        attachments: anchors(payload, STORAGE_ATTACHMENTS),
        comments: anchors(payload, STORAGE_COMMENTS),
    }
}

/// The state with the lines of a storage from an index on, each followed by
/// what is anchored in it.
pub open spec fn lines_from(v: Seq<ArchiveV>, x: StorageV, from: int, depth: int, s: DrawV) -> DrawV
    decreases depth, 2int, x.text.len() - from,
{
    let k = index_from(x.text, '\n', from);
    if from < 0 || from > x.text.len() || k < from {
        s
    } else {
        let t = match line_block(x.text, from, k, x.runs, x.comments) {
            Some(b) => DrawV { blocks: s.blocks.push(b), ..s },
            None => s,
        };
        let u = anchored(v, x.attachments, 0, from, k, depth, t);
        if k >= x.text.len() {
            u
        } else {
            lines_from(v, x, k + 1, depth, u)
        }
    }
}

/// The state with the storages among the identifiers from `i` on.
pub open spec fn storages_from(v: Seq<ArchiveV>, ids: Seq<u64>, i: int, depth: int, s: DrawV) -> DrawV
    decreases depth, 3int, ids.len() - i,
{
    if i < 0 || i >= ids.len() {
        s
    } else {
        storages_from(
            v,
            ids,
            i + 1,
            depth,
            match typed(v, ids[i], STORAGE) {
                Some(a) => lines_from(v, storage_of(v, a.payload), 0, depth, s),
                None => s,
            },
        )
    }
}

fn has_id(v: &Vec<u64>, id: u64) -> (r: bool)
    ensures
        r == v@.contains(id),
{
    let mut i: usize = 0;
    while i < v.len()
        invariant
            i <= v@.len(),
            forall|k: int| 0 <= k < i ==> v@[k] != id,
        decreases v@.len() - i,
    {
        if v[i] == id {
            assert(v@[i as int] == id);
            return true;
        }
        i += 1;
    }
    false
}

fn push_block(s: &mut Draw, b: Block)
    ensures
        final(s)@ == (DrawV { blocks: old(s)@.blocks.push(b@), drawn: old(s)@.drawn }),
{
    broadcast use blocks_view_push;

    s.blocks.push(b);
}

/// Adds the drawable of an identifier.
pub fn drawable_blocks(v: &Vec<Archive>, files: &Vec<DataFile>, id: u64, depth: usize, s: &mut Draw)
    requires
        files_view(files@) == data_files(archives_view(v@)),
    ensures
        final(s)@ == drawn(archives_view(v@), id, depth as int, old(s)@),
    decreases depth, 0int,
{
    if depth == 0 || has_id(&s.drawn, id) {
        return;
    }
    let ghost before = s@;
    s.drawn.push(id);
    assert(s@ =~= (DrawV { drawn: before.drawn.push(id), ..before }));
    let a = match find_object(v, id) {
        None => {
            return;
        },
        Some(a) => a,
    };
    if a.ty == ATTACHMENT {
        match reference_field(a.payload.as_slice(), 1) {
            Some(k) => {
                drawable_blocks(v, files, k, depth - 1, s);
            },
            None => {},
        }
    } else if a.ty == IMAGE {
        push_block(s, Block::Picture(files_of_image(files, a.payload.as_slice())));
    } else if a.ty == TABLE_INFO {
        match find_target(v, reference_field(a.payload.as_slice(), 2), TABLE_MODEL) {
            Some(m) => match table(v, m.payload.as_slice()) {
                Some(x) => {
                    push_block(s, Block::Table(x));
                },
                None => {},
            },
            None => {},
        }
    } else if a.ty == GROUP {
        let ids = reference_list(a.payload.as_slice(), 2);
        draw_all(v, files, &ids, depth - 1, s);
    } else if a.ty == SHAPE {
        let ids = find_ids(a.payload.as_slice());
        let mut i: usize = 0;
        let ghost o = archives_view(v@);
        let ghost first = s@;
        while i < ids.len()
            invariant
                i <= ids@.len(),
                depth > 0,
                o == archives_view(v@),
                files_view(files@) == data_files(archives_view(v@)),
                storages_from(o, ids@, 0, depth - 1, first) == storages_from(
                    o,
                    ids@,
                    i as int,
                    depth - 1,
                    s@,
                ),
            decreases ids@.len() - i,
        {
            match find_typed(v, ids[i], STORAGE) {
                Some(x) => {
                    storage_blocks(v, files, x.payload.as_slice(), depth - 1, s);
                },
                None => {},
            }
            i += 1;
        }
    }
}

fn draw_all(v: &Vec<Archive>, files: &Vec<DataFile>, ids: &Vec<u64>, depth: usize, s: &mut Draw)
    requires
        files_view(files@) == data_files(archives_view(v@)),
    ensures
        final(s)@ == drawn_all(archives_view(v@), ids@, 0, depth as int, old(s)@),
    decreases depth, 1int,
{
    let ghost o = archives_view(v@);
    let ghost first = s@;
    let mut i: usize = 0;
    while i < ids.len()
        invariant
            i <= ids@.len(),
            o == archives_view(v@),
            files_view(files@) == data_files(archives_view(v@)),
            drawn_all(o, ids@, 0, depth as int, first) == drawn_all(
                o,
                ids@,
                i as int,
                depth as int,
                s@,
            ),
        decreases ids@.len() - i,
    {
        drawable_blocks(v, files, ids[i], depth, s);
        i += 1;
    }
}

fn draw_anchored(
    v: &Vec<Archive>,
    files: &Vec<DataFile>,
    t: &Vec<(usize, u64)>,
    lo: usize,
    hi: usize,
    depth: usize,
    s: &mut Draw,
)
    requires
        files_view(files@) == data_files(archives_view(v@)),
    ensures
        final(s)@ == anchored(
            archives_view(v@),
            anchor_view(t@),
            0,
            lo as int,
            hi as int,
            depth as int,
            old(s)@,
        ),
    decreases depth, 1int,
{
    let ghost o = archives_view(v@);
    let ghost w = anchor_view(t@);
    let ghost first = s@;
    let mut i: usize = 0;
    while i < t.len()
        invariant
            i <= t@.len(),
            o == archives_view(v@),
            w == anchor_view(t@),
            files_view(files@) == data_files(archives_view(v@)),
            anchored(o, w, 0, lo as int, hi as int, depth as int, first) == anchored(
                o,
                w,
                i as int,
                lo as int,
                hi as int,
                depth as int,
                s@,
            ),
        decreases t@.len() - i,
    {
        assert(w[i as int] == (t@[i as int].0 as int, t@[i as int].1));
        if lo <= t[i].0 && t[i].0 <= hi {
            drawable_blocks(v, files, t[i].1, depth, s);
        }
        i += 1;
    }
}

fn read_line(
    text: &Vec<char>,
    from: usize,
    to: usize,
    runs: &StorageRuns,
    comments: &Vec<(usize, u64)>,
) -> (r: Option<Block>)
    requires
        from <= to <= text@.len(),
    ensures
        match line_block(text@, from as int, to as int, runs@, anchor_view(comments@)) {
            Some(b) => r matches Some(x) && x@ == b,
            None => r is None,
        },
{
    let line = slice(text, from, to);
    let pieces = runs_for(&line, from, runs);
    assert(run_views(pieces@).len() == pieces@.len());
    if pieces.len() == 0 {
        return None;
    }
    Some(
        Block::Paragraph(
            Paragraph {
                runs: pieces,
                label: style_label_at(runs, from),
                list: list_label_at(runs, from),
                anchors: read_marks(comments, from, to),
            },
        ),
    )
}

/// Adds the lines of a storage, each followed by what is anchored in it.
pub fn storage_blocks(
    v: &Vec<Archive>,
    files: &Vec<DataFile>,
    payload: &[u8],
    depth: usize,
    s: &mut Draw,
)
    requires
        files_view(files@) == data_files(archives_view(v@)),
    ensures
        final(s)@ == lines_from(
            archives_view(v@),
            storage_of(archives_view(v@), payload@),
            0,
            depth as int,
            old(s)@,
        ),
    decreases depth, 2int,
{
    let text = read_text(payload);
    let runs = storage_runs(v, payload);
    let attachments = attachment_runs(payload, STORAGE_ATTACHMENTS);
    let comments = attachment_runs(payload, STORAGE_COMMENTS);
    let ghost o = archives_view(v@);
    let ghost x = storage_of(o, payload@);
    let ghost first = s@;
    let n: usize = text.len();
    let mut from: usize = 0;
    loop
        invariant
            from <= n == text@.len(),
            o == archives_view(v@),
            files_view(files@) == data_files(archives_view(v@)),
            x.text == text@,
            x.runs == runs@,
            x.attachments == anchor_view(attachments@),
            x.comments == anchor_view(comments@),
            x == storage_of(archives_view(v@), payload@),
            first == old(s)@,
            lines_from(o, x, 0, depth as int, first) == lines_from(
                o,
                x,
                from as int,
                depth as int,
                s@,
            ),
        decreases n - from,
    {
        let k = find_from(&text, '\n', from);
        match read_line(&text, from, k, &runs, &comments) {
            Some(b) => {
                push_block(s, b);
            },
            None => {},
        }
        draw_anchored(v, files, &attachments, from, k, depth, s);
        if k == n {
            return;
        }
        from = k + 1;
    }
}

// ------------------------------------------------------------ furniture

/// The paragraphs of the storage that an identifier names.
pub open spec fn storage_paragraphs(v: Seq<ArchiveV>, id: Option<u64>) -> Seq<ParagraphV> {
    match target(v, id, STORAGE) {
        Some(a) => split_at(storage_text(a.payload), 0, storage_tables(v, a.payload), seq![]),
        None => seq![],
    }
}

fn add_paragraphs(v: &Vec<Archive>, id: Option<u64>, out: &mut Vec<Paragraph>)
    ensures
        paragraphs_view(final(out)@) == paragraphs_view(old(out)@) + storage_paragraphs(
            archives_view(v@),
            id,
        ),
{
    let ghost first = paragraphs_view(out@);
    match find_target(v, id, STORAGE) {
        Some(a) => {
            let text = read_text(a.payload.as_slice());
            let runs = storage_runs(v, a.payload.as_slice());
            let mut more = split_paragraphs(&text, &runs);
            let ghost w = paragraphs_view(more@);
            out.append(&mut more);
            assert(paragraphs_view(out@) =~= first + w);
        },
        None => {
            assert(first + Seq::<ParagraphV>::empty() =~= first);
        },
    }
}

/// The paragraphs of the storages from `i` on, added to `done`.
pub open spec fn paragraphs_from(v: Seq<ArchiveV>, ids: Seq<u64>, i: int, done: Seq<ParagraphV>) -> Seq<
    ParagraphV,
>
    decreases ids.len() - i,
{
    if i >= ids.len() {
        done
    } else {
        paragraphs_from(v, ids, i + 1, done + storage_paragraphs(v, Some(ids[i])))
    }
}

fn add_all_paragraphs(v: &Vec<Archive>, ids: &Vec<u64>, out: &mut Vec<Paragraph>)
    ensures
        paragraphs_view(final(out)@) == paragraphs_from(
            archives_view(v@),
            ids@,
            0,
            paragraphs_view(old(out)@),
        ),
{
    let ghost o = archives_view(v@);
    let ghost first = paragraphs_view(out@);
    let mut i: usize = 0;
    while i < ids.len()
        invariant
            i <= ids@.len(),
            o == archives_view(v@),
            paragraphs_from(o, ids@, 0, first) == paragraphs_from(
                o,
                ids@,
                i as int,
                paragraphs_view(out@),
            ),
        decreases ids@.len() - i,
    {
        add_paragraphs(v, Some(ids[i]), out);
        i += 1;
    }
}

/// The notes of the anchors from `i` on, added to `done`.
pub open spec fn notes_from(v: Seq<ArchiveV>, t: Seq<(int, u64)>, i: int, done: Seq<ParagraphV>) -> Seq<
    ParagraphV,
>
    decreases t.len() - i,
{
    if i >= t.len() {
        done
    } else {
        notes_from(
            v,
            t,
            i + 1,
            match typed(v, t[i].1, NOTE) {
                Some(a) => done + storage_paragraphs(v, reference_of(a.payload, 2)),
                None => done,
            },
        )
    }
}

fn footnotes(v: &Vec<Archive>, storage: &[u8]) -> (r: Vec<Paragraph>)
    ensures
        paragraphs_view(r@) == notes_from(archives_view(v@), anchors(storage@, STORAGE_FOOTNOTES), 0, seq![]),
{
    let ghost o = archives_view(v@);
    let t = attachment_runs(storage, STORAGE_FOOTNOTES);
    let ghost w = anchor_view(t@);
    let mut out: Vec<Paragraph> = Vec::new();
    assert(paragraphs_view(out@) =~= seq![]);
    let mut i: usize = 0;
    while i < t.len()
        invariant
            i <= t@.len(),
            o == archives_view(v@),
            w == anchor_view(t@),
            notes_from(o, w, 0, seq![]) == notes_from(o, w, i as int, paragraphs_view(out@)),
        decreases t@.len() - i,
    {
        assert(w[i as int].1 == t@[i as int].1);
        match find_typed(v, t[i].1, NOTE) {
            Some(a) => {
                add_paragraphs(v, reference_field(a.payload.as_slice(), 2), &mut out);
            },
            None => {},
        }
        i += 1;
    }
    out
}

/// The headers, or the footers, of the pages that a field of a page master
/// names, added to `done`.
pub open spec fn bundle_from(
    v: Seq<ArchiveV>,
    master: Seq<u8>,
    field: u64,
    which: u64,
    done: Seq<ParagraphV>,
) -> Seq<ParagraphV> {
    match target(v, reference_of(master, field), HEADERS_AND_FOOTERS) {
        Some(b) => paragraphs_from(v, references_of(b.payload, which), 0, done),
        None => done,
    }
}

/// The headers, or the footers, of the page masters from `i` on, added to
/// `done`.
pub open spec fn masters_from(
    v: Seq<ArchiveV>,
    t: Seq<(int, u64)>,
    i: int,
    which: u64,
    done: Seq<ParagraphV>,
) -> Seq<ParagraphV>
    decreases t.len() - i,
{
    if i >= t.len() {
        done
    } else {
        masters_from(
            v,
            t,
            i + 1,
            which,
            match typed(v, t[i].1, PAGE_MASTER) {
                Some(m) => bundle_from(
                    v,
                    m.payload,
                    25,
                    which,
                    bundle_from(
                        v,
                        m.payload,
                        24,
                        which,
                        bundle_from(v, m.payload, 23, which, done),
                    ),
                ),
                None => done,
            },
        )
    }
}

/// The headers (field 1 of a bundle) or the footers (field 2) of a document,
/// each text once.
pub open spec fn furniture(v: Seq<ArchiveV>, storage: Seq<u8>, which: u64) -> Seq<ParagraphV> {
    unique_from(masters_from(v, anchors(storage, STORAGE_PAGE_MASTERS), 0, which, seq![]), 0, seq![])
}

fn add_bundle(v: &Vec<Archive>, master: &[u8], field: u64, which: u64, out: &mut Vec<Paragraph>)
    ensures
        paragraphs_view(final(out)@) == bundle_from(
            archives_view(v@),
            master@,
            field,
            which,
            paragraphs_view(old(out)@),
        ),
{
    match find_target(v, reference_field(master, field), HEADERS_AND_FOOTERS) {
        Some(b) => {
            let ids = reference_list(b.payload.as_slice(), which);
            add_all_paragraphs(v, &ids, out);
        },
        None => {},
    }
}

fn page_furniture(v: &Vec<Archive>, storage: &[u8], which: u64) -> (r: Vec<Paragraph>)
    ensures
        paragraphs_view(r@) == furniture(archives_view(v@), storage@, which),
{
    let ghost o = archives_view(v@);
    let t = attachment_runs(storage, STORAGE_PAGE_MASTERS);
    let ghost w = anchor_view(t@);
    let mut out: Vec<Paragraph> = Vec::new();
    assert(paragraphs_view(out@) =~= seq![]);
    let mut i: usize = 0;
    while i < t.len()
        invariant
            i <= t@.len(),
            o == archives_view(v@),
            w == anchor_view(t@),
            masters_from(o, w, 0, which, seq![]) == masters_from(
                o,
                w,
                i as int,
                which,
                paragraphs_view(out@),
            ),
        decreases t@.len() - i,
    {
        assert(w[i as int].1 == t@[i as int].1);
        match find_typed(v, t[i].1, PAGE_MASTER) {
            Some(m) => {
                add_bundle(v, m.payload.as_slice(), 23, which, &mut out);
                add_bundle(v, m.payload.as_slice(), 24, which, &mut out);
                add_bundle(v, m.payload.as_slice(), 25, which, &mut out);
            },
            None => {},
        }
        i += 1;
    }
    unique_paragraphs(out)
}

// ------------------------------------------------------------ comments

/// How many of the first `n` objects have an identifier that was not seen.
pub open spec fn unseen(v: Seq<ArchiveV>, n: int, seen: Seq<u64>) -> nat
    decreases n,
{
    if n <= 0 || n > v.len() {
        0
    } else {
        unseen(v, n - 1, seen) + if seen.contains(v[n - 1].id) {
            0nat
        } else {
            1nat
        }
    }
}

/// What is seen leaves less that is not.
pub proof fn unseen_shrinks(v: Seq<ArchiveV>, n: int, seen: Seq<u64>, id: u64)
    requires
        n <= v.len(),
    ensures
        unseen(v, n, seen.push(id)) <= unseen(v, n, seen),
        !seen.contains(id) && object_before(v, n, id) ==> unseen(v, n, seen.push(id)) < unseen(
            v,
            n,
            seen,
        ),
    decreases n,
{
    if n > 0 {
        unseen_shrinks(v, n - 1, seen, id);
        let x = v[n - 1].id;
        let next = seen.push(id);
        if seen.contains(x) {
            let k = choose|k: int| 0 <= k < seen.len() && seen[k] == x;
            assert(next[k] == x);
        }
        if x == id {
            assert(next[seen.len() as int] == id);
        }
    }
}

/// Whether one of the first `n` objects has an identifier.
pub open spec fn object_before(v: Seq<ArchiveV>, n: int, id: u64) -> bool
    decreases n,
{
    n > 0 && n <= v.len() && (v[n - 1].id == id || object_before(v, n - 1, id))
}

/// An object that is found is one of the objects.
pub proof fn found_objects_are_there(v: Seq<ArchiveV>, n: int, id: u64)
    requires
        crate::pages_iwa::object_in(v, n, id) is Some,
    ensures
        object_before(v, n, id),
    decreases n,
{
    if v[n - 1].id != id {
        found_objects_are_there(v, n - 1, id);
    }
}

/// The name of whoever wrote a comment.
pub open spec fn author(v: Seq<ArchiveV>, payload: Seq<u8>) -> Option<Seq<char>> {
    match target(v, reference_of(payload, 3), AUTHOR) {
        Some(a) => match bytes_of(a.payload, 1) {
            Some(b) => if strip(lossy(b)).len() == 0 {
                None
            } else {
                Some(strip(lossy(b)))
            },
            None => None,
        },
        None => None,
    }
}

/// The texts with that of a comment, if it has one.
pub open spec fn with_comment(v: Seq<ArchiveV>, payload: Seq<u8>, done: Seq<Seq<char>>) -> Seq<
    Seq<char>,
> {
    match bytes_of(payload, 1) {
        Some(b) => if strip(lossy(b)).len() == 0 {
            done
        } else {
            done.push(with_author(author(v, payload), strip(lossy(b))))
        },
        None => done,
    }
}

/// The texts of the comments that wait, and of the replies to them, added to
/// `done`. A comment that was seen is not read again.
pub open spec fn thread_from(
    v: Seq<ArchiveV>,
    pending: Seq<u64>,
    seen: Seq<u64>,
    done: Seq<Seq<char>>,
) -> Seq<Seq<char>>
    decreases unseen(v, v.len() as int, seen), pending.len(),
{
    if pending.len() == 0 {
        done
    } else {
        let id = pending[0];
        let rest = pending.skip(1);
        if seen.contains(id) {
            thread_from(v, rest, seen, done)
        } else {
            proof {
                unseen_shrinks(v, v.len() as int, seen, id);
                if typed(v, id, COMMENT) is Some {
                    found_objects_are_there(v, v.len() as int, id);
                }
            }
            match typed(v, id, COMMENT) {
                None => thread_from(v, rest, seen.push(id), done),
                Some(a) => thread_from(
                    v,
                    rest + references_of(a.payload, 4),
                    seen.push(id),
                    with_comment(v, a.payload, done),
                ),
            }
        }
    }
}

/// The texts of a comment and the replies to it.
pub open spec fn thread(v: Seq<ArchiveV>, head: Option<u64>) -> Seq<Seq<char>> {
    match head {
        Some(id) => thread_from(v, seq![id], seq![], seq![]),
        None => seq![],
    }
}

fn read_author(v: &Vec<Archive>, payload: &[u8]) -> (r: Option<Vec<char>>)
    ensures
        opt_chars(r) == author(archives_view(v@), payload@),
{
    match find_target(v, reference_field(payload, 3), AUTHOR) {
        Some(a) => text_of_bytes(first_bytes(a.payload.as_slice(), 1)),
        None => None,
    }
}

fn read_thread(v: &Vec<Archive>, head: Option<u64>) -> (r: Vec<Vec<char>>)
    ensures
        texts(r@) == thread(archives_view(v@), head),
{
    let ghost o = archives_view(v@);
    let mut out: Vec<Vec<char>> = Vec::new();
    assert(texts(out@) =~= seq![]);
    let mut pending: Vec<u64> = Vec::new();
    match head {
        Some(id) => {
            pending.push(id);
            assert(pending@ =~= seq![id]);
        },
        None => {
            return out;
        },
    }
    let mut seen: Vec<u64> = Vec::new();
    assert(seen@ =~= seq![]);
    let mut at: usize = 0;
    assert(pending@.skip(0) =~= pending@);
    while at < pending.len()
        invariant
            at <= pending@.len(),
            o == archives_view(v@),
            thread(o, head) == thread_from(o, pending@.skip(at as int), seen@, texts(out@)),
        decreases unseen(o, o.len() as int, seen@), pending@.len() - at,
    {
        broadcast use texts_push;

        let id = pending[at];
        let ghost left = pending@.skip(at as int);
        assert(left[0] == id);
        assert(left.skip(1) =~= pending@.skip(at + 1));
        at += 1;
        if !has_id(&seen, id) {
            proof {
                unseen_shrinks(o, o.len() as int, seen@, id);
                if typed(o, id, COMMENT) is Some {
                    found_objects_are_there(o, o.len() as int, id);
                }
            }
            seen.push(id);
            match find_typed(v, id, COMMENT) {
                None => {},
                Some(a) => {
                    match text_of_bytes(first_bytes(a.payload.as_slice(), 1)) {
                        Some(t) => {
                            let name = read_author(v, a.payload.as_slice());
                            out.push(authored(&name, &t));
                        },
                        None => {},
                    }
                    let mut more = reference_list(a.payload.as_slice(), 4);
                    let ghost before = pending@;
                    let ghost refs = more@;
                    pending.append(&mut more);
                    assert(pending@.skip(at as int) =~= before.skip(at as int) + refs);
                },
            }
        }
    }
    assert(pending@.skip(at as int) =~= seq![]);
    out
}

/// Comments with texts of one anchor from `i` on, added to `done`.
pub open spec fn anchored_texts(t: Seq<Seq<char>>, i: int, anchor: Seq<char>, done: Seq<CommentV>) -> Seq<
    CommentV,
>
    decreases t.len() - i,
{
    if i >= t.len() {
        done
    } else {
        anchored_texts(t, i + 1, anchor, done.push(CommentV { text: t[i], anchor }))
    }
}

/// The comments of the anchors from `i` on, added to `done`.
pub open spec fn comments_from(v: Seq<ArchiveV>, t: Seq<(int, u64)>, i: int, done: Seq<CommentV>) -> Seq<
    CommentV,
>
    decreases t.len() - i,
{
    if i >= t.len() {
        done
    } else {
        comments_from(
            v,
            t,
            i + 1,
            match typed(v, t[i].1, COMMENT_MARK) {
                Some(a) => anchored_texts(
                    thread(v, reference_of(a.payload, 1)),
                    0,
                    decimal(t[i].1 as int),
                    done,
                ),
                None => done,
            },
        )
    }
}

fn add_comments(t: &Vec<Vec<char>>, anchor: &Vec<char>, out: &mut Vec<Comment>)
    ensures
        comments_view(final(out)@) == anchored_texts(
            texts(t@),
            0,
            anchor@,
            comments_view(old(out)@),
        ),
{
    let ghost w = texts(t@);
    let ghost first = comments_view(out@);
    let mut i: usize = 0;
    while i < t.len()
        invariant
            i <= t@.len(),
            w == texts(t@),
            anchored_texts(w, 0, anchor@, first) == anchored_texts(
                w,
                i as int,
                anchor@,
                comments_view(out@),
            ),
        decreases t@.len() - i,
    {
        assert(w[i as int] == t@[i as int]@);
        let ghost before = out@;
        let c = Comment { text: copy(&t[i]), anchor: copy(anchor) };
        out.push(c);
        assert(comments_view(out@) =~= comments_view(before).push(c@));
        i += 1;
    }
}

fn comments(v: &Vec<Archive>, storage: &[u8]) -> (r: Vec<Comment>)
    ensures
        comments_view(r@) == comments_from(archives_view(v@), anchors(storage@, STORAGE_COMMENTS), 0, seq![]),
{
    let ghost o = archives_view(v@);
    let t = attachment_runs(storage, STORAGE_COMMENTS);
    let ghost w = anchor_view(t@);
    let mut out: Vec<Comment> = Vec::new();
    assert(comments_view(out@) =~= seq![]);
    let mut i: usize = 0;
    while i < t.len()
        invariant
            i <= t@.len(),
            o == archives_view(v@),
            w == anchor_view(t@),
            comments_from(o, w, 0, seq![]) == comments_from(o, w, i as int, comments_view(out@)),
        decreases t@.len() - i,
    {
        assert(w[i as int].1 == t@[i as int].1);
        match find_typed(v, t[i].1, COMMENT_MARK) {
            Some(a) => {
                let found = read_thread(v, reference_field(a.payload.as_slice(), 1));
                add_comments(&found, &digits(t[i].1), &mut out);
            },
            None => {},
        }
        i += 1;
    }
    out
}

// ------------------------------------------------------------ documents

/// Why a document was not read.
#[derive(Debug, PartialEq, Eq)]
pub enum GraphError {
    /// There is no document object.
    NoDocument,
    /// The document has no text.
    NoBody,
}

/// The content of a document: its text with what is anchored in it, then the
/// drawables that it owns.
pub open spec fn content(v: Seq<ArchiveV>, document: Seq<u8>, storage: Seq<u8>) -> ContentV {
    let depth = v.len();
    let a = lines_from(
        v,
        storage_of(v, storage),
        0,
        depth as int,
        DrawV { blocks: seq![], drawn: seq![] },
    );
    let b = match reference_of(document, DOCUMENT_DRAWABLES) {
        Some(id) => match object(v, id) {
            Some(r) => drawn_all(v, referenced_ids(r.payload), 0, depth as int, a),
            None => a,
        },
        None => a,
    };
    ContentV {
        blocks: b.blocks,
        headers: furniture(v, storage, 1),
        footers: furniture(v, storage, 2),
        footnotes: notes_from(v, anchors(storage, STORAGE_FOOTNOTES), 0, seq![]),
        comments: comments_from(v, anchors(storage, STORAGE_COMMENTS), 0, seq![]),
    }
}

/// The content of a document's objects.
pub fn read_content(v: &Vec<Archive>) -> (r: Result<Content, GraphError>)
    ensures
        match first_typed(archives_view(v@), 0, DOCUMENT) {
            None => r matches Err(GraphError::NoDocument),
            Some(d) => match target(archives_view(v@), reference_of(d.payload, DOCUMENT_BODY), STORAGE) {
                None => r matches Err(GraphError::NoBody),
                Some(s) => r matches Ok(c) && c@ == content(
                    archives_view(v@),
                    d.payload,
                    s.payload,
                ),
            },
        },
{
    let document = match find_first(v, DOCUMENT) {
        None => {
            return Err(GraphError::NoDocument);
        },
        Some(a) => a.payload.as_slice(),
    };
    let storage = match find_target(v, reference_field(document, DOCUMENT_BODY), STORAGE) {
        None => {
            return Err(GraphError::NoBody);
        },
        Some(a) => a.payload.as_slice(),
    };
    let files = read_files(v);
    let depth: usize = v.len();
    let mut s = Draw { blocks: Vec::new(), drawn: Vec::new() };
    assert(s@ =~= (DrawV { blocks: seq![], drawn: seq![] }));
    storage_blocks(v, &files, storage, depth, &mut s);
    match reference_field(document, DOCUMENT_DRAWABLES) {
        Some(id) => match find_object(v, id) {
            Some(r) => {
                let ids = find_ids(r.payload.as_slice());
                draw_all(v, &files, &ids, depth, &mut s);
            },
            None => {},
        },
        None => {},
    }
    Ok(
        Content {
            blocks: s.blocks,
            headers: page_furniture(v, storage, 1),
            footers: page_furniture(v, storage, 2),
            footnotes: footnotes(v, storage),
            comments: comments(v, storage),
        },
    )
}

} // verus!
