//! Laws of documents in JSON.

use crate::docling_json::{
    caption, formatted, is_claimed, label, language, list_item, marker, mime_of, no_rows, raw_text,
    resolved, rows_from, walked, with_text,
};
use crate::document::NodeV;
use crate::json::{element, elements, is_true, member, number_at, text_at, JsonItemV};
use crate::location::last_slash;
use crate::text::{decimal, decimals_read_back, escaped, is_digit, or_empty};
use vstd::prelude::*;

verus! {

proof fn labels_differ()
    ensures
        label_group("title"@) == 1,
        label_group("section_header"@) == 2,
        label_group("code"@) == 3,
        label_group("list_item"@) == 4,
        label_group("checkbox_selected"@) == 5,
        label_group("checkbox_unselected"@) == 6,
        label_group("formula"@) == 7,
        label_group("caption"@) == 8,
        label_group("text"@) == 0,
{
    reveal_strlit("formula");
    reveal_strlit("title");
    reveal_strlit("section_header");
    reveal_strlit("code");
    reveal_strlit("list_item");
    reveal_strlit("checkbox_selected");
    reveal_strlit("checkbox_unselected");
    reveal_strlit("caption");
    reveal_strlit("text");
    assert("formula"@.len() == 7);
    assert("title"@.len() == 5);
    assert("section_header"@.len() == 14);
    assert("code"@.len() == 4);
    assert("list_item"@.len() == 9);
    assert("checkbox_selected"@.len() == 17);
    assert("checkbox_unselected"@.len() == 19);
    assert("caption"@.len() == 7);
    assert("text"@.len() == 4);
    assert("formula"@[0] == 'f');
    assert("code"@[0] == 'c');
    assert("caption"@[0] == 'c');
    assert("text"@[0] == 't');
}

/// The labels of texts in the order in which they are told apart.
spec fn label_group(l: Seq<char>) -> int {
    if l == "title"@ {
        1
    } else if l == "section_header"@ {
        2
    } else if l == "code"@ {
        3
    } else if l == "list_item"@ {
        4
    } else if l == "checkbox_selected"@ {
        5
    } else if l == "checkbox_unselected"@ {
        6
    } else if l == "formula"@ {
        7
    } else if l == "caption"@ {
        8
    } else {
        0
    }
}

/// A `title` is a heading of the first level.
pub proof fn titles_have_the_first_level(v: Seq<JsonItemV>, item: int, level: u8, nodes: Seq<NodeV>)
    requires
        label(v, item) == Some("title"@),
        raw_text(v, item).len() > 0,
    ensures
        with_text(v, item, level, nodes) == nodes.push(NodeV::Heading { level: 1, text: formatted(v, item) }),
{
    labels_differ();
}

/// A `section_header` lies one level below the level that it says, which is
/// one where it says none.
pub proof fn section_headers_lie_below_the_title(
    v: Seq<JsonItemV>,
    item: int,
    n: int,
    level: u8,
    nodes: Seq<NodeV>,
)
    requires
        label(v, item) == Some("section_header"@),
        raw_text(v, item).len() > 0,
        match number_at(v, member(v, Some(item), "level"@)) {
            Some(k) => k == n,
            None => n == 1,
        },
        0 <= n < 255,
    ensures
        with_text(v, item, level, nodes) == nodes.push(
            NodeV::Heading { level: (n + 1) as u8, text: formatted(v, item) },
        ),
{
    labels_differ();
}

/// A `text` is a paragraph.
pub proof fn plain_texts_are_paragraphs(v: Seq<JsonItemV>, item: int, level: u8, nodes: Seq<NodeV>)
    requires
        label(v, item) == Some("text"@),
        raw_text(v, item).len() > 0,
    ensures
        with_text(v, item, level, nodes) == nodes.push(NodeV::Paragraph { text: formatted(v, item) }),
{
    labels_differ();
}

/// A selected check box is checked.
pub proof fn selected_boxes_are_checked(v: Seq<JsonItemV>, item: int, level: u8, nodes: Seq<NodeV>)
    requires
        label(v, item) == Some("checkbox_selected"@),
        raw_text(v, item).len() > 0,
    ensures
        with_text(v, item, level, nodes) == nodes.push(
            NodeV::CheckboxItem { checked: true, text: formatted(v, item) },
        ),
{
    labels_differ();
}

/// An unselected check box is not checked.
pub proof fn unselected_boxes_are_not_checked(
    v: Seq<JsonItemV>,
    item: int,
    level: u8,
    nodes: Seq<NodeV>,
)
    requires
        label(v, item) == Some("checkbox_unselected"@),
        raw_text(v, item).len() > 0,
    ensures
        with_text(v, item, level, nodes) == nodes.push(
            NodeV::CheckboxItem { checked: false, text: formatted(v, item) },
        ),
{
    labels_differ();
}

/// Code keeps its text as it is, and the language that it says.
pub proof fn code_keeps_its_text(v: Seq<JsonItemV>, item: int, level: u8, nodes: Seq<NodeV>)
    requires
        label(v, item) == Some("code"@),
        raw_text(v, item).len() > 0,
        caption(v, item) is None,
    ensures
        with_text(v, item, level, nodes) == nodes.push(
            NodeV::Code {
                language: match text_at(v, member(v, Some(item), "code_language"@)) {
                    Some(s) => if s.len() == 0 || s == "unknown"@ {
                        None
                    } else {
                        Some(s)
                    },
                    None => None,
                },
                text: raw_text(v, item),
            },
        ),
{
    labels_differ();
}

/// A formula has its text and the one it was read from.
pub proof fn formulas_keep_both_texts(v: Seq<JsonItemV>, item: int, level: u8, nodes: Seq<NodeV>)
    requires
        label(v, item) == Some("formula"@),
        raw_text(v, item).len() > 0,
    ensures
        with_text(v, item, level, nodes) == nodes.push(
            NodeV::Formula {
                latex: raw_text(v, item),
                orig: or_empty(text_at(v, member(v, Some(item), "orig"@))),
            },
        ),
{
    labels_differ();
}

/// A caption that nothing claims stands alone.
pub proof fn loose_captions_stand_alone(v: Seq<JsonItemV>, item: int, level: u8, nodes: Seq<NodeV>)
    requires
        label(v, item) == Some("caption"@),
        raw_text(v, item).len() > 0,
        !is_claimed(v, item),
    ensures
        with_text(v, item, level, nodes) == nodes.push(
            NodeV::Caption { text: formatted(v, item), href: None },
        ),
{
    labels_differ();
}

/// An item outside of a list is the first of its own, and is ordered where it
/// is enumerated.
pub proof fn loose_items_are_items(v: Seq<JsonItemV>, item: int, level: u8, nodes: Seq<NodeV>)
    requires
        label(v, item) == Some("list_item"@),
        raw_text(v, item).len() > 0,
    ensures
        with_text(v, item, level, nodes) == nodes.push(
            NodeV::ListItem {
                ordered: is_true(v, member(v, Some(item), "enumerated"@)),
                number: 1,
                first_in_list: true,
                text: formatted(v, item),
                level,
                marker: None,
                href: None,
                layer: None,
            },
        ),
{
    labels_differ();
}

/// A formula without a text is said not to be decoded.
pub proof fn empty_formulas_are_not_decoded(
    v: Seq<JsonItemV>,
    item: int,
    level: u8,
    nodes: Seq<NodeV>,
)
    requires
        raw_text(v, item).len() == 0,
    ensures
        label(v, item) == Some("formula"@) ==> with_text(v, item, level, nodes) == nodes.push(
            NodeV::Paragraph { text: "<!-- formula-not-decoded -->"@ },
        ),
        label(v, item) == Some("text"@) ==> with_text(v, item, level, nodes) == nodes,
{
    labels_differ();
}

/// The formatting of a text shows as marks: double asterisks for bold,
/// asterisks for italic, double tildes for struck text, and a link in
/// brackets before its address.
pub proof fn formatting_shows_as_marks(v: Seq<JsonItemV>, item: int, fmt: Option<int>, a: Seq<char>)
    requires
        fmt == member(v, Some(item), "formatting"@),
        a == escaped(raw_text(v, item)),
    ensures
        ({
            let bold = is_true(v, member(v, fmt, "bold"@));
            let italic = is_true(v, member(v, fmt, "italic"@));
            let strike = is_true(v, member(v, fmt, "strikethrough"@));
            let link = text_at(v, member(v, Some(item), "hyperlink"@));
            &&& bold && !italic && !strike && link is None ==> formatted(v, item) == seq!['*', '*']
                + a + seq!['*', '*']
            &&& !bold && italic && !strike && link is None ==> formatted(v, item) == seq!['*'] + a
                + seq!['*']
            &&& !bold && !italic && strike && link is None ==> formatted(v, item) == seq!['~', '~']
                + a + seq!['~', '~']
            &&& !bold && !italic && !strike && link is None ==> formatted(v, item) == a
            &&& !bold && !italic && !strike && link is Some ==> formatted(v, item) == seq!['['] + a
                + seq![']', '('] + link->0 + seq![')']
        }),
{
    reveal_strlit("*");
    reveal_strlit("**");
    reveal_strlit("~~");
    reveal_strlit("[");
    reveal_strlit("](");
    reveal_strlit(")");
    assert("*"@ =~= seq!['*']);
    assert("**"@ =~= seq!['*', '*']);
    assert("~~"@ =~= seq!['~', '~']);
    assert("["@ =~= seq!['[']);
    assert("]("@ =~= seq![']', '(']);
    assert(")"@ =~= seq![')']);
}

/// A reference is the number behind a list of the document: `#/texts/3` is the
/// fourth text.
pub proof fn references_lead_to_their_item(v: Seq<JsonItemV>, r: int, list: Seq<char>, n: int)
    requires
        0 <= n <= u32::MAX,
        text_at(v, member(v, Some(r), "$ref"@)) == Some("#/"@ + list + seq!['/'] + decimal(n)),
        !list.contains('/'),
    ensures
        resolved(v, Some(r)) == element(v, member(v, Some(0), list), n),
{
    reveal_strlit("#/");
    decimals_read_back(n);
    let d = decimal(n);
    let t = "#/"@ + list + seq!['/'] + d;
    let p = list + seq!['/'] + d;
    assert(t.take(2) =~= "#/"@);
    assert(t.skip(2) =~= p);
    assert(p[list.len() as int] == '/');
    assert forall|q: int| list.len() < q < p.len() implies #[trigger] p[q] != '/' by {
        assert(p[q] == d[q - list.len() - 1]);
        assert(is_digit(d[q - list.len() - 1]));
    }
    last_slash_is(p, p.len() as int, list.len() as int);
    assert(p.take(list.len() as int) =~= list);
    assert(p.skip(list.len() as int + 1) =~= d);
    assert(is_digit(d[0]));
}

proof fn last_slash_is(s: Seq<char>, n: int, k: int)
    requires
        0 <= k < n <= s.len(),
        s[k] == '/',
        forall|q: int| k < q < n ==> #[trigger] s[q] != '/',
    ensures
        last_slash(s, n) == k,
    decreases n,
{
    if k < n - 1 {
        assert(s[n - 1] != '/');
        last_slash_is(s, n - 1, k);
    }
}

/// A row of a table shows the texts of its cells in order, and each cell is a
/// header of its column or its row where it says so. A cell that starts in an
/// earlier column goes on with the one to the left, and one that starts in an
/// earlier row with the one above.
pub proof fn rows_show_their_cells(v: Seq<JsonItemV>, i: int, r: int, a: int, b: int, k: int)
    requires
        elements(v, Some(i)) == Some((a, b)),
        0 <= k < b - a,
    ensures
        ({
            let t = rows_from(v, i, i + 1, r, no_rows());
            &&& t.rows.len() == 1
            &&& t.rows[0].len() == b - a
            &&& t.rows[0][k] == raw_text(v, a + k)
            &&& t.col_header[0][k] == is_true(v, member(v, Some(a + k), "column_header"@))
            &&& t.row_header[0][k] == is_true(v, member(v, Some(a + k), "row_header"@))
            &&& number_at(v, member(v, Some(a + k), "start_col_offset_idx"@)) matches Some(c)
                ==> t.col_continuation[0][k] == (c < k)
            &&& number_at(v, member(v, Some(a + k), "start_row_offset_idx"@)) matches Some(c)
                ==> t.row_continuation[0][k] == (c < r)
        }),
{
    reveal_with_fuel(rows_from, 2);
}

/// An item of a list has the number of its place in a numbered list; its own
/// marker wins: a number before a dot is its number, and a dash, an asterisk
/// or a plus sign is a bullet.
pub proof fn items_are_numbered_by_place_or_marker(
    v: Seq<JsonItemV>,
    item: int,
    position: u64,
    numbered: bool,
    first: bool,
    level: u8,
    n: u64,
)
    ensures
        ({
            let m = or_empty(text_at(v, member(v, Some(item), "marker"@)));
            let x = list_item(v, item, position, numbered, first, level);
            &&& x is ListItem
            &&& x->ListItem_level == level
            &&& x->ListItem_first_in_list == first
            &&& m.len() == 0 ==> x->ListItem_ordered == numbered && x->ListItem_number == position
                && x->ListItem_text == formatted(v, item)
            &&& m == seq!['-'] || m == seq!['*'] || m == seq!['+'] ==> !x->ListItem_ordered
                && x->ListItem_text == formatted(v, item)
            &&& m == decimal(n as int).push('.') ==> x->ListItem_ordered && x->ListItem_number == n
                && x->ListItem_text == formatted(v, item)
        }),
{
    reveal_strlit("-");
    reveal_strlit("*");
    reveal_strlit("+");
    assert("-"@ =~= seq!['-']);
    assert("*"@ =~= seq!['*']);
    assert("+"@ =~= seq!['+']);
    let m = or_empty(text_at(v, member(v, Some(item), "marker"@)));
    decimals_read_back(n as int);
    let d = decimal(n as int);
    assert(is_digit(d[0]));
    if m == d.push('.') {
        assert(m.drop_last() =~= d);
        assert(m.len() >= 2);
        assert("-"@.len() == 1 && "*"@.len() == 1 && "+"@.len() == 1);
    }
}

/// What is furniture shows nothing.
pub proof fn furniture_shows_nothing(
    v: Seq<JsonItemV>,
    r: int,
    level: u8,
    depth: int,
    nodes: Seq<NodeV>,
    item: int,
)
    requires
        resolved(v, Some(r)) == Some(item),
        text_at(v, member(v, Some(item), "content_layer"@)) == Some("furniture"@),
    ensures
        walked(v, r, level, depth, nodes) == nodes,
{
}

/// The kind of a picture follows from the extension of its file.
pub proof fn extensions_say_the_kind_of_picture()
    ensures
        mime_of("jpg"@) == "image/jpeg"@,
        mime_of("jpeg"@) == "image/jpeg"@,
        mime_of("gif"@) == "image/gif"@,
        mime_of("bmp"@) == "image/bmp"@,
        mime_of("webp"@) == "image/webp"@,
        mime_of("tif"@) == "image/tiff"@,
        mime_of("tiff"@) == "image/tiff"@,
        forall|e: Seq<char>|
            e != "jpg"@ && e != "jpeg"@ && e != "gif"@ && e != "bmp"@ && e != "webp"@ && e != "tif"@
                && e != "tiff"@ ==> #[trigger] mime_of(e) == "image/png"@,
{
    reveal_strlit("jpg");
    reveal_strlit("jpeg");
    reveal_strlit("gif");
    reveal_strlit("bmp");
    reveal_strlit("webp");
    reveal_strlit("tif");
    reveal_strlit("tiff");
    assert("jpg"@.len() == 3);
    assert("jpeg"@.len() == 4);
    assert("gif"@.len() == 3);
    assert("bmp"@.len() == 3);
    assert("webp"@.len() == 4);
    assert("tif"@.len() == 3);
    assert("tiff"@.len() == 4);
    assert("jpg"@[0] == 'j');
    assert("jpeg"@[0] == 'j');
    assert("gif"@[0] == 'g');
    assert("bmp"@[0] == 'b');
    assert("webp"@[0] == 'w');
    assert("tif"@[0] == 't');
    assert("tiff"@[0] == 't');
}

} // verus!
