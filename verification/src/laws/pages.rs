//! Laws of Pages documents and of the message format of their objects.

use crate::celltable::TextCellV;
use crate::document::{ContentLayer, NodeV, Script};
use crate::pages::{
    block_node, blocks_from, closed, commented, comments_from, comments_on, counted, emitted,
    formatting, furniture_from, inline_of, item_node, lower_kind, paragraph_view, run_markdown,
    runs_text, script, style_label, with_author, CommentV, ContentV, Formatting, Label, ListLabelV,
    ListStyleV, ParagraphV, StackV,
};
use crate::pages_graph::{file_with, image_files, DataFileV};
use crate::pages_iwa::{marks_from, no_marks, MarksV};
use crate::pages_xml::{cells_from, ct_text};
use crate::text::{decimal, decimals_read_back, escaped, is_digit, lstrip, white};
use crate::tree::ElementV;
use crate::wire::{
    bytes_of, field_at, fields_from, number_of, reference_of, scale, varint, varint_from, FieldV,
    ValueV,
};
use vstd::prelude::*;

verus! {

// ------------------------------------------------------------ messages

/// The bytes that write a number: seven bits each from the lowest on, with the
/// highest bit set in all but the last.
pub open spec fn written(n: int) -> Seq<u8>
    decreases n,
{
    if n < 128 {
        seq![n as u8]
    } else {
        seq![(128 + n % 128) as u8] + written(n / 128)
    }
}

proof fn written_numbers_go_on(b: Seq<u8>, at: int, k: int, acc: int, m: int, rest: Seq<u8>)
    requires
        0 <= at <= b.len(),
        b.skip(at) == written(m) + rest,
        0 <= m,
        0 <= acc,
        0 <= k < 10,
        k > 0 ==> m > 0,
        acc + m * scale(k) <= u64::MAX,
    ensures
        varint_from(b, at, k, acc) == Some(
            ((acc + m * scale(k)) as u64, at + written(m).len() as int),
        ),
    decreases m,
{
    let w = written(m);
    assert(w.len() > 0);
    assert(b.skip(at)[0] == w[0]);
    assert(b[at] == w[0]);
    if m >= 128 {
        let q = m / 128;
        let r = m % 128;
        let s = scale(k);
        assert(b[at] as int % 128 == r);
        assert(m * s == q * (128 * s) + r * s) by (nonlinear_arith)
            requires
                m == 128 * q + r,
        ;
        if k == 9 {
            assert(m * s >= 128 * s) by (nonlinear_arith)
                requires
                    m >= 128,
                    s >= 0,
            ;
        }
        assert(k < 9);
        assert(scale(k + 1) == 128 * s);
        assert(b.skip(at + 1) =~= written(q) + rest) by {
            assert(b.skip(at + 1) =~= b.skip(at).skip(1));
            assert((w + rest).skip(1) =~= written(q) + rest);
        }
        assert(q > 0);
        assert(r * s >= 0) by (nonlinear_arith)
            requires
                r >= 0,
                s >= 0,
        ;
        written_numbers_go_on(b, at + 1, k + 1, acc + r * s, q, rest);
        assert(w.len() == 1 + written(q).len());
    }
}

/// A number reads back as it was written, and what stands behind it is left.
pub proof fn written_numbers_read_back(n: u64, rest: Seq<u8>)
    ensures
        varint(written(n as int) + rest, 0) == Some((n, written(n as int).len() as int)),
{
    let b = written(n as int) + rest;
    assert(b.skip(0) =~= b);
    written_numbers_go_on(b, 0, 0, 0, n as int, rest);
}

proof fn numbers_read_back_at(a: Seq<u8>, n: u64, rest: Seq<u8>)
    ensures
        varint(a + written(n as int) + rest, a.len() as int) == Some(
            (n, (a.len() + written(n as int).len()) as int),
        ),
{
    let b = a + written(n as int) + rest;
    assert(b.skip(a.len() as int) =~= written(n as int) + rest);
    written_numbers_go_on(b, a.len() as int, 0, 0, n as int, rest);
}

/// A field of a message is its number and its kind in one, and then a number,
/// or a length and as many bytes.
pub proof fn written_fields_read_back(number: u64, n: u64, data: Seq<u8>, rest: Seq<u8>)
    requires
        8 * number + 2 <= u64::MAX,
        data.len() <= u64::MAX,
    ensures
        field_at(written(8 * number) + written(n as int) + rest, 0) == Some(
            (
                FieldV { number, value: ValueV::Varint(n) },
                (written(8 * number).len() + written(n as int).len()) as int,
            ),
        ),
        field_at(written(8 * number + 2) + written(data.len() as int) + (data + rest), 0) == Some(
            (
                FieldV { number, value: ValueV::Bytes(data) },
                (written(8 * number + 2).len() + written(data.len() as int).len() + data.len())
                    as int,
            ),
        ),
{
    let a = written(8 * number);
    written_numbers_read_back((8 * number) as u64, written(n as int) + rest);
    assert(a + (written(n as int) + rest) =~= a + written(n as int) + rest);
    numbers_read_back_at(a, n, rest);
    let c = written(8 * number + 2);
    let l = data.len() as u64;
    let tail = data + rest;
    written_numbers_read_back((8 * number + 2) as u64, written(l as int) + tail);
    assert(c + (written(l as int) + tail) =~= c + written(l as int) + tail);
    numbers_read_back_at(c, l, tail);
    let b = c + written(l as int) + tail;
    let j = (c.len() + written(l as int).len()) as int;
    assert(b.subrange(j, j + l) =~= data);
    assert((8 * number) % 8 == 0 && (8 * number) / 8 == number);
    assert((8 * number + 2) % 8 == 2 && (8 * number + 2) / 8 == number);
}

/// A message of one field holds that field.
pub proof fn messages_hold_their_fields(number: u64, n: u64, data: Seq<u8>)
    requires
        8 * number + 2 <= u64::MAX,
        data.len() <= u64::MAX,
    ensures
        number_of(written(8 * number) + written(n as int), number) == Some(n),
        bytes_of(written(8 * number + 2) + written(data.len() as int) + data, number) == Some(data),
{
    let none = Seq::<u8>::empty();
    written_fields_read_back(number, n, data, none);
    let a = written(8 * number) + written(n as int);
    assert(a + none =~= a);
    sizes(8 * number);
    sizes(n as int);
    sizes(8 * number + 2);
    sizes(data.len() as int);
    let f = FieldV { number, value: ValueV::Varint(n) };
    let nothing = Seq::<FieldV>::empty();
    assert(fields_from(a, a.len() as int, nothing.push(f)) == nothing.push(f));
    assert(fields_from(a, 0, nothing) == nothing.push(f));
    assert(nothing.push(f)[0] == f);
    let b = written(8 * number + 2) + written(data.len() as int) + data;
    assert(written(8 * number + 2) + written(data.len() as int) + (data + none) =~= b);
    let g = FieldV { number, value: ValueV::Bytes(data) };
    assert(fields_from(b, b.len() as int, nothing.push(g)) == nothing.push(g));
    assert(fields_from(b, 0, nothing) == nothing.push(g));
    assert(nothing.push(g)[0] == g);
}

proof fn sizes(n: int)
    requires
        0 <= n,
    ensures
        written(n).len() > 0,
{
}

// ------------------------------------------------------------ styles

/// The fields of a character style say its markup: the first bold, the second
/// italic, the tenth the script, the eleventh underlined and the twelfth
/// struck.
pub proof fn fields_say_the_markup(n: u64)
    requires
        n != 0,
    ensures
        marks_from(seq![FieldV { number: 1, value: ValueV::Varint(n) }], 0, no_marks())
            == (MarksV { bold: true, ..no_marks() }),
        marks_from(seq![FieldV { number: 2, value: ValueV::Varint(n) }], 0, no_marks())
            == (MarksV { italic: true, ..no_marks() }),
        marks_from(seq![FieldV { number: 10, value: ValueV::Varint(n) }], 0, no_marks())
            == (MarksV { script: Some(n), ..no_marks() }),
        marks_from(seq![FieldV { number: 11, value: ValueV::Varint(n) }], 0, no_marks())
            == (MarksV { underline: true, ..no_marks() }),
        marks_from(seq![FieldV { number: 12, value: ValueV::Varint(n) }], 0, no_marks())
            == (MarksV { strike: true, ..no_marks() }),
        marks_from(seq![FieldV { number: 1, value: ValueV::Varint(0) }], 0, no_marks())
            == no_marks(),
{
    reveal_with_fuel(marks_from, 2);
    assert(seq![FieldV { number: 1, value: ValueV::Varint(n) }][0].number == 1);
    assert(seq![FieldV { number: 2, value: ValueV::Varint(n) }][0].number == 2);
    assert(seq![FieldV { number: 10, value: ValueV::Varint(n) }][0].number == 10);
    assert(seq![FieldV { number: 11, value: ValueV::Varint(n) }][0].number == 11);
    assert(seq![FieldV { number: 12, value: ValueV::Varint(n) }][0].number == 12);
    assert(seq![FieldV { number: 1, value: ValueV::Varint(0) }][0].number == 1);
}

/// One raises a text and two lowers it; a text without markup has none.
pub proof fn scripts_and_marks_make_a_format(
    bold: bool,
    italic: bool,
    underline: bool,
    strike: bool,
    s: Option<Script>,
)
    ensures
        script(1) == Some(Script::Super),
        script(2) == Some(Script::Sub),
        script(0) is None,
        formatting(bold, italic, underline, strike, s) matches Some(f) ==> f.bold == bold && f.italic
            == italic && f.underline == underline && f.strike == strike && (s matches Some(x)
            ==> f.script == x),
        formatting(bold, italic, underline, strike, s) is None <==> !bold && !italic && !underline
            && !strike && s is None,
{
}

/// The kind of label of a level decides: none is no item, three is a numbered
/// one, and any other has the mark of its level or a dash.
pub proof fn label_kinds_decide(s: ListStyleV, depth: usize)
    requires
        depth < s.label_types.len(),
    ensures
        s.label_types[depth as int] == 0 ==> style_label(s, depth) is None,
        s.label_types[depth as int] == 3 ==> style_label(s, depth) == Some(
            ListLabelV { depth, enumerated: true, marker: seq![] },
        ),
        s.label_types[depth as int] == 2 && depth < s.strings.len() && s.strings[depth as int].len()
            > 0 ==> style_label(s, depth) == Some(
            ListLabelV { depth, enumerated: false, marker: s.strings[depth as int] },
        ),
        s.label_types[depth as int] == 2 && depth >= s.strings.len() ==> style_label(s, depth)
            == Some(ListLabelV { depth, enumerated: false, marker: seq!['-'] }),
{
    reveal_strlit("-");
    assert("-"@ =~= seq!['-']);
}

/// The name of a paragraph style says what a paragraph is.
pub proof fn style_names_say_what_a_paragraph_is(n: int)
    requires
        0 <= n <= 9,
    ensures
        lower_kind("title"@) == Label::Title,
        lower_kind("subtitle"@) == Label::Heading(2),
        lower_kind("subheading"@) == Label::Heading(2),
        lower_kind("heading"@) == Label::Heading(1),
        lower_kind("heading "@ + decimal(n)) == Label::Heading(
            (if n < 1 {
                1
            } else if n > 6 {
                6
            } else {
                n
            }) as u8,
        ),
        lower_kind("body"@) == Label::Text,
{
    reveal_strlit("title");
    reveal_strlit("subtitle");
    reveal_strlit("subheading");
    reveal_strlit("heading");
    reveal_strlit("heading ");
    reveal_strlit("body");
    assert("title"@.len() == 5);
    assert("subtitle"@.len() == 8);
    assert("subheading"@.len() == 10);
    assert("heading"@.len() == 7);
    assert("heading "@.len() == 8);
    assert("body"@.len() == 4);
    assert("subtitle"@[0] == 's');
    assert("heading "@[0] == 'h');
    let h = "heading"@;
    assert(h.take(7) =~= h);
    assert(h.skip(7) =~= seq![]);
    assert("subheading"@[0] == 's' && "subtitle"@[0] == 's' && "title"@[0] == 't' && "body"@[0] == 'b');
    decimals_read_back(n);
    let d = decimal(n);
    let s = "heading "@ + d;
    assert(s[0] == 'h');
    assert(s.take(7) =~= h);
    let r = s.skip(7);
    assert(r =~= seq![' '] + d);
    assert(r[0] == ' ');
    assert(white(' '));
    assert(r.drop_first() =~= d);
    assert(is_digit(d[0]));
    reveal_with_fuel(lstrip, 3);
    assert(lstrip(r) == d);
}

/// A title is a heading of the first level and a heading lies one level below
/// its number.
pub proof fn headings_lie_below_the_title(p: ParagraphV, n: u8)
    requires
        n < 255,
    ensures
        p.label == Label::Title ==> paragraph_view(p) == (NodeV::Heading {
            level: 1,
            text: escaped(runs_text(p.runs)),
        }),
        p.label == Label::Heading(n) ==> paragraph_view(p) == (NodeV::Heading {
            level: (n + 1) as u8,
            text: escaped(runs_text(p.runs)),
        }),
{
}

/// Bold text stands between double asterisks, italic text between asterisks
/// and struck text between double tildes; a link stands in brackets before its
/// target, and the runs keep their markup.
pub proof fn markup_shows_as_marks(t: Seq<char>, f: Formatting, url: Seq<char>)
    requires
        !f.bold,
        !f.italic,
        !f.strike,
    ensures
        run_markdown(t, Some(f), None) == escaped(t),
        run_markdown(t, None, None) == escaped(t),
        run_markdown(t, Some(Formatting { bold: true, ..f }), None) == seq!['*', '*'] + escaped(t)
            + seq!['*', '*'],
        run_markdown(t, Some(Formatting { italic: true, ..f }), None) == seq!['*'] + escaped(t)
            + seq!['*'],
        run_markdown(t, Some(Formatting { strike: true, ..f }), None) == seq!['~', '~'] + escaped(t)
            + seq!['~', '~'],
        run_markdown(t, None, Some(url)) == seq!['['] + escaped(t) + seq![']', '('] + url + seq![
            ')',
        ],
        inline_of(t, Some(f)).text == t,
        inline_of(t, Some(f)).underline == f.underline,
        inline_of(t, Some(f)).script == f.script,
        inline_of(t, Some(Formatting { bold: true, ..f })).bold && !inline_of(t, Some(f)).bold,
        inline_of(t, Some(Formatting { italic: true, ..f })).italic && !inline_of(t, Some(f)).italic,
        inline_of(t, Some(Formatting { strike: true, ..f })).strike && !inline_of(t, Some(f)).strike,
{
    reveal_strlit("*");
    reveal_strlit("**");
    reveal_strlit("~~");
    reveal_strlit("[");
    reveal_strlit("](");
    reveal_strlit(")");
    assert("*"@ =~= seq!['*']);
    assert("**"@ =~= seq!['*', '*']);
    assert("~~"@ =~= seq!['~', '~']);
    assert("["@ =~= seq!['[']);
    assert("]("@ =~= seq![']', '(']);
    assert(")"@ =~= seq![')']);
}

// ------------------------------------------------------------ lists

/// The items of one level count on from one, and the first of them is the
/// first of the list; an item has the marker and the level of its label.
pub proof fn items_count_on(p: ParagraphV, q: ParagraphV, l: ListLabelV)
    requires
        l.depth < 255,
    ensures
        ({
            let a = item_node(closed(), p, l);
            let s = counted(closed(), l.depth as int);
            let b = item_node(s, q, l);
            &&& a->ListItem_number == 1
            &&& b->ListItem_number == 2
            &&& a->ListItem_first_in_list
            &&& !b->ListItem_first_in_list
            &&& a->ListItem_ordered == l.enumerated
            &&& a->ListItem_level == l.depth
            &&& a->ListItem_marker == Some(l.marker)
        }),
{
}

// ------------------------------------------------------------ documents

proof fn furniture_is_added(v: Seq<ParagraphV>, i: int, nodes: Seq<NodeV>)
    requires
        0 <= i <= v.len(),
    ensures
        furniture_from(v, i, nodes) == nodes + Seq::new(
            (v.len() - i) as nat,
            |k: int|
                NodeV::Furniture {
                    layer: ContentLayer::Furniture,
                    inner: Box::new(paragraph_view(v[i + k])),
                },
        ),
    decreases v.len() - i,
{
    let all = Seq::new(
        (v.len() - i) as nat,
        |k: int|
            NodeV::Furniture {
                layer: ContentLayer::Furniture,
                inner: Box::new(paragraph_view(v[i + k])),
            },
    );
    if i < v.len() {
        let here = NodeV::Furniture {
            layer: ContentLayer::Furniture,
            inner: Box::new(paragraph_view(v[i])),
        };
        furniture_is_added(v, i + 1, nodes.push(here));
        let rest = Seq::new(
            (v.len() - (i + 1)) as nat,
            |k: int|
                NodeV::Furniture {
                    layer: ContentLayer::Furniture,
                    inner: Box::new(paragraph_view(v[i + 1 + k])),
                },
        );
        assert(nodes.push(here) + rest =~= nodes + all);
    } else {
        assert(nodes + all =~= nodes);
    }
}

proof fn comments_are_added(v: Seq<CommentV>, i: int, nodes: Seq<NodeV>)
    requires
        0 <= i <= v.len(),
    ensures
        comments_from(v, i, nodes) == nodes + Seq::new(
            (v.len() - i) as nat,
            |k: int| NodeV::Comment { text: escaped(v[i + k].text) },
        ),
    decreases v.len() - i,
{
    let all = Seq::new(
        (v.len() - i) as nat,
        |k: int| NodeV::Comment { text: escaped(v[i + k].text) },
    );
    if i < v.len() {
        let here = NodeV::Comment { text: escaped(v[i].text) };
        comments_are_added(v, i + 1, nodes.push(here));
        let rest = Seq::new(
            (v.len() - (i + 1)) as nat,
            |k: int| NodeV::Comment { text: escaped(v[i + 1 + k].text) },
        );
        assert(nodes.push(here) + rest =~= nodes + all);
    } else {
        assert(nodes + all =~= nodes);
    }
}

proof fn blocks_are_added(c: ContentV, i: int, s: StackV, nodes: Seq<NodeV>)
    requires
        0 <= i <= c.blocks.len(),
    ensures
        blocks_from(c, i, s, nodes).len() == nodes.len() + (c.blocks.len() - i),
    decreases c.blocks.len() - i,
{
    if i < c.blocks.len() {
        let p = block_node(s, c.blocks[i]);
        blocks_are_added(
            c,
            i + 1,
            p.1,
            nodes.push(commented(p.0, comments_on(c.blocks, c.comments, i, 0, seq![]))),
        );
    }
}

/// A document shows a node for each block, then its headers, footers and
/// footnotes as furniture in this order, and then its comments.
pub proof fn documents_end_with_furniture_and_comments(c: ContentV, k: int)
    ensures
        ({
            let n = emitted(c);
            let a = c.blocks.len() as int;
            let b = a + c.headers.len();
            let d = b + c.footers.len();
            let e = d + c.footnotes.len();
            &&& n.len() == e + c.comments.len()
            &&& 0 <= k < c.headers.len() ==> n[a + k] == (NodeV::Furniture {
                layer: ContentLayer::Furniture,
                inner: Box::new(paragraph_view(c.headers[k])),
            })
            &&& 0 <= k < c.footers.len() ==> n[b + k] == (NodeV::Furniture {
                layer: ContentLayer::Furniture,
                inner: Box::new(paragraph_view(c.footers[k])),
            })
            &&& 0 <= k < c.footnotes.len() ==> n[d + k] == (NodeV::Furniture {
                layer: ContentLayer::Furniture,
                inner: Box::new(paragraph_view(c.footnotes[k])),
            })
            &&& 0 <= k < c.comments.len() ==> n[e + k] == (NodeV::Comment {
                text: escaped(c.comments[k].text),
            })
        }),
{
    blocks_are_added(c, 0, closed(), seq![]);
    let a = blocks_from(c, 0, closed(), seq![]);
    furniture_is_added(c.headers, 0, a);
    let b = furniture_from(c.headers, 0, a);
    furniture_is_added(c.footers, 0, b);
    let d = furniture_from(c.footers, 0, b);
    furniture_is_added(c.footnotes, 0, d);
    let e = furniture_from(c.footnotes, 0, d);
    comments_are_added(c.comments, 0, e);
}

/// A comment with an author names them in brackets in front of its text.
pub proof fn comments_name_their_author(a: Seq<char>, t: Seq<char>)
    ensures
        with_author(Some(a), t) == "[author: "@ + a + "]: "@ + t,
        with_author(None, t) == t,
{
}

/// The files of a picture are tried in the order of its fields fifteen,
/// thirteen, eleven and twelve.
pub proof fn pictures_try_their_files_in_order(
    files: Seq<DataFileV>,
    image: Seq<u8>,
    a: Seq<char>,
    b: Seq<char>,
    i: u64,
    j: u64,
)
    requires
        file_with(files, files.len() as int, i) == Some(a),
        file_with(files, files.len() as int, j) == Some(b),
    ensures
        reference_of(image, 15) == Some(i) ==> image_files(files, image).len() > 0 && image_files(
            files,
            image,
        )[0] == a,
        reference_of(image, 15) is None && reference_of(image, 13) == Some(i) && reference_of(
            image,
            11,
        ) == Some(j) ==> image_files(files, image).len() >= 2 && image_files(files, image)[0] == a
            && image_files(files, image)[1] == b,
        reference_of(image, 15) is None && reference_of(image, 13) is None && reference_of(image, 11)
            == Some(i) && reference_of(image, 12) == Some(j) ==> image_files(files, image) == seq![
            a,
            b,
        ],
{
    if reference_of(image, 15) is None && reference_of(image, 13) is None && reference_of(image, 11)
        == Some(i) && reference_of(image, 12) == Some(j) {
        assert(image_files(files, image) =~= seq![a, b]);
    }
}

// ------------------------------------------------------------ tables

proof fn cells_by_place(
    v: Seq<ElementV>,
    i: int,
    rows: int,
    cols: int,
    done: Seq<TextCellV>,
    k: int,
)
    requires
        0 < cols,
        0 <= rows,
        0 <= i <= v.len(),
        done.len() == i,
        0 <= k < v.len(),
        k < rows * cols,
        i <= k || done[k] == (TextCellV { text: ct_text(v[k]), row: k / cols, col: k % cols }),
    ensures
        k < cells_from(v, i, rows, cols, done).len(),
        cells_from(v, i, rows, cols, done)[k] == (TextCellV {
            text: ct_text(v[k]),
            row: k / cols,
            col: k % cols,
        }),
    decreases v.len() - i,
{
    if i < v.len() && i / cols < rows {
        let here = TextCellV { text: ct_text(v[i]), row: i / cols, col: i % cols };
        cells_by_place(v, i + 1, rows, cols, done.push(here), k);
    } else if i < v.len() {
        assert(k / cols < rows) by (nonlinear_arith)
            requires
                0 <= k < rows * cols,
                0 < cols,
        ;
        if i <= k {
            assert(i / cols <= k / cols) by (nonlinear_arith)
                requires
                    0 <= i <= k,
                    0 < cols,
            ;
        }
    }
}

/// The cells of an older document's table come row by row.
pub proof fn cells_come_row_by_row(v: Seq<ElementV>, rows: int, cols: int, r: int, c: int)
    requires
        0 <= r < rows,
        0 <= c < cols,
        r * cols + c < v.len(),
    ensures
        ({
            let k = r * cols + c;
            let w = cells_from(v, 0, rows, cols, seq![]);
            &&& k < w.len()
            &&& w[k].row == r
            &&& w[k].col == c
            &&& w[k].text == ct_text(v[k])
        }),
{
    let k = r * cols + c;
    assert(k >= 0 && k < rows * cols && k / cols == r && k % cols == c) by (nonlinear_arith)
        requires
            0 <= r < rows,
            0 <= c < cols,
            k == r * cols + c,
    ;
    cells_by_place(v, 0, rows, cols, seq![], k);
}

} // verus!
