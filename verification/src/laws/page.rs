//! Laws of the pictures, forms, code and captions of a page.

use crate::document::{CaptionParent, ContentLayer, FieldItemV, NodeV};
use crate::html::{
    handled, has_picture, image, item_named, kvp_id, language, lone_code_from, placed_part,
    text_under, with_figcaption, with_input, with_title, KvpKind,
};
use crate::htmllist::{dd_lists, dd_runs, dl_from, first_target};
use crate::inline::{inline_text, no_runs, runs_from, tidied, with_raw_text, Fmt};
use crate::text::{
    all_digits, decimal, decimals_read_back, escaped, has_prefix, index_from, is_digit, lowered,
    number, or_empty, strip, uint, words_of,
};
use crate::tree::{all_text, plain_attr_of, ElementV, ItemV, TreeV};
use vstd::prelude::*;

verus! {

// ------------------------------------------------------------ pictures

/// A picture shows its `alt` text as the caption, and its source is the
/// address in its `src`, which is named only where pictures are fetched.
pub proof fn pictures_show_their_alt_text(e: ElementV, src: Seq<char>, alt: Seq<char>)
    requires
        plain_attr_of(e, "src"@) == Some(src),
        strip(src) == src,
        src.len() > 0,
        !has_prefix(src, "data:"@),
        plain_attr_of(e, "alt"@) == Some(alt),
        alt.len() > 0,
    ensures
        image(e, true) == (NodeV::Picture {
            caption: Some(alt),
            caption_href: None,
            caption_parent: CaptionParent::Body,
            sources: seq![src],
        }),
        image(e, false) == (NodeV::Picture {
            caption: Some(alt),
            caption_href: None,
            caption_parent: CaptionParent::Body,
            sources: seq![],
        }),
{
}

/// A picture whose `src` only stands in for one that loads later has the
/// address in its `data-src`.
pub proof fn late_pictures_have_their_late_source(e: ElementV, src: Seq<char>, late: Seq<char>)
    requires
        plain_attr_of(e, "src"@) == Some(src),
        strip(src) == src,
        has_prefix(src, "data:"@),
        plain_attr_of(e, "data-src"@) == Some(late),
        strip(late) == late,
        late.len() > 0,
    ensures
        image(e, true)->Picture_sources == seq![late],
{
}

// ------------------------------------------------------------ forms

/// A check box or a radio button is an item with the text that names it, and
/// is checked where it has the attribute `checked`.
pub proof fn choices_are_checked_by_their_attribute(
    e: ElementV,
    root: ElementV,
    label: Seq<char>,
    nodes: Seq<NodeV>,
)
    requires
        lowered(or_empty(plain_attr_of(e, "type"@))) == "checkbox"@ || lowered(
            or_empty(plain_attr_of(e, "type"@)),
        ) == "radio"@,
        plain_attr_of(e, "id"@) is None,
        plain_attr_of(e, "aria-label"@) == Some(label),
        tidied(label).len() > 0,
    ensures
        with_input(e, root, nodes) == nodes.push(
            NodeV::CheckboxItem {
                checked: plain_attr_of(e, "checked"@) is Some,
                text: tidied(label),
            },
        ),
{
    reveal_strlit("hidden");
    reveal_strlit("checkbox");
    reveal_strlit("radio");
    assert("hidden"@.len() == 6);
    assert("checkbox"@.len() == 8);
    assert("radio"@.len() == 5);
}

/// A hidden input shows nothing; another one shows its value, or else its
/// placeholder, or else its name.
pub proof fn inputs_show_their_value_first(
    e: ElementV,
    root: ElementV,
    text: Seq<char>,
    nodes: Seq<NodeV>,
)
    requires
        strip(text) == text,
        text.len() > 0,
    ensures
        lowered(or_empty(plain_attr_of(e, "type"@))) == "hidden"@ ==> with_input(e, root, nodes)
            == nodes,
        lowered(or_empty(plain_attr_of(e, "type"@))) == "text"@ && plain_attr_of(e, "value"@)
            == Some(text) ==> with_input(e, root, nodes) == nodes.push(
            NodeV::Paragraph { text: escaped(tidied(text)) },
        ),
        lowered(or_empty(plain_attr_of(e, "type"@))) == "text"@ && plain_attr_of(e, "value"@)
            is None && plain_attr_of(e, "placeholder"@) == Some(text) ==> with_input(e, root, nodes)
            == nodes.push(NodeV::Paragraph { text: escaped(tidied(text)) }),
        lowered(or_empty(plain_attr_of(e, "type"@))) == "text"@ && plain_attr_of(e, "value"@)
            is None && plain_attr_of(e, "placeholder"@) is None && plain_attr_of(e, "name"@)
            == Some(text) ==> with_input(e, root, nodes) == nodes.push(
            NodeV::Paragraph { text: escaped(tidied(text)) },
        ),
{
    reveal_strlit("hidden");
    reveal_strlit("checkbox");
    reveal_strlit("radio");
    reveal_strlit("text");
    assert("hidden"@.len() == 6);
    assert("checkbox"@.len() == 8);
    assert("radio"@.len() == 5);
    assert("text"@.len() == 4);
}

proof fn digits_hold_no(s: Seq<char>, c: char)
    requires
        all_digits(s),
        !('0' <= c <= '9'),
    ensures
        !s.contains(c),
{
    if s.contains(c) {
        let k = s.index_of(c);
        assert(is_digit(s[k]));
    }
}

proof fn finds_first(s: Seq<char>, c: char, i: int, k: int)
    requires
        0 <= i <= k < s.len(),
        s[k] == c,
        forall|q: int| i <= q < k ==> #[trigger] s[q] != c,
    ensures
        index_from(s, c, i) == k,
    decreases k - i,
{
    if i < k {
        finds_first(s, c, i + 1, k);
    }
}

/// A decimal number is read as a number, and with more behind a bar it is
/// not.
proof fn decimals_are_read(n: int, rest: Seq<char>)
    requires
        0 <= n <= u32::MAX,
    ensures
        uint(decimal(n), u32::MAX as int) == Some(n),
        uint(decimal(n) + seq!['_'] + rest, u32::MAX as int) is None,
        index_from(decimal(n) + seq!['_'] + rest, '_', 0) == decimal(n).len(),
        (decimal(n) + seq!['_'] + rest).take(decimal(n).len() as int) == decimal(n),
        (decimal(n) + seq!['_'] + rest).skip(decimal(n).len() as int + 1) == rest,
{
    decimals_read_back(n);
    let d = decimal(n);
    let s = d + seq!['_'] + rest;
    assert(is_digit(d[0]));
    assert(s[0] == d[0]);
    assert(s[d.len() as int] == '_');
    assert(!is_digit('_'));
    assert(!all_digits(s)) by {
        if all_digits(s) {
            assert(is_digit(s[d.len() as int]));
        }
    }
    digits_hold_no(d, '_');
    assert forall|q: int| 0 <= q < d.len() implies #[trigger] s[q] != '_' by {
        assert(s[q] == d[q]);
        assert(d.contains(d[q]));
    }
    finds_first(s, '_', 0, d.len() as int);
    assert(s.take(d.len() as int) =~= d);
    assert(s.skip(d.len() as int + 1) =~= rest);
}

/// The identifier `key` and a number is the key of that field, with `_marker`
/// behind it its marker, and with `_value` and a number its value.
pub proof fn field_identifiers_name_their_part(n: int, m: int)
    requires
        0 <= n <= u32::MAX,
        0 <= m <= u32::MAX,
    ensures
        kvp_id("key"@ + decimal(n)) == Some((n, KvpKind::Key)),
        kvp_id("key"@ + (decimal(n) + seq!['_'] + "marker"@)) == Some((n, KvpKind::Marker)),
        kvp_id("key"@ + (decimal(n) + seq!['_'] + ("value"@ + decimal(m)))) == Some(
            (n, KvpKind::Value),
        ),
{
    reveal_strlit("key");
    reveal_strlit("marker");
    reveal_strlit("value");
    assert("key"@.len() == 3);
    assert("marker"@.len() == 6);
    assert("value"@.len() == 5);
    assert forall|x: Seq<char>| has_prefix(#[trigger] ("key"@ + x), "key"@) && ("key"@ + x).skip(3)
        == x by {
        assert(("key"@ + x).take(3) =~= "key"@);
        assert(("key"@ + x).skip(3) =~= x);
    }
    decimals_are_read(n, seq![]);
    decimals_are_read(n, "marker"@);
    let v = "value"@ + decimal(m);
    decimals_are_read(n, v);
    decimals_are_read(m, seq![]);
    assert(v.take(5) =~= "value"@);
    assert(v.skip(5) =~= decimal(m));
    assert(v[0] == 'v');
    assert("marker"@[0] == 'm');
    assert(!has_prefix(v, "marker"@)) by {
        if has_prefix(v, "marker"@) {
            assert(v.take(6)[0] == v[0]);
        }
    }
    assert(v != "marker"@);
}

/// A part of a field goes into the field with its number, which is new where
/// none has it, and the part that was there first stays.
pub proof fn parts_go_into_their_field(number: int, kind: KvpKind, text: Seq<char>)
    ensures
        ({
            let f = placed_part(seq![], 0, number, kind, text);
            &&& f.len() == 1
            &&& f[0].number == number
            &&& f[0].field == match kind {
                KvpKind::Key => FieldItemV { marker: None, key: Some(text), value: None },
                KvpKind::Marker => FieldItemV { marker: Some(text), key: None, value: None },
                KvpKind::Value => FieldItemV { marker: None, key: None, value: Some(text) },
            }
            &&& forall|more: Seq<char>| #[trigger] placed_part(f, 0, number, kind, more) == f
        }),
{
    let f = placed_part(seq![], 0, number, kind, text);
    assert forall|more: Seq<char>| #[trigger] placed_part(f, 0, number, kind, more) == f by {
        assert(placed_part(f, 0, number, kind, more) =~= f);
    }
}

// ------------------------------------------------------------ code

/// The language of a code block is what stands behind `language-` or `lang-`
/// in its class.
pub proof fn classes_name_the_language(class: Seq<char>, name: Seq<char>)
    requires
        words_of(class).len() > 0,
    ensures
        words_of(class)[0] == "language-"@ + name ==> language(Some(class)) == Some(name),
        words_of(class)[0] == "lang-"@ + name ==> language(Some(class)) == Some(name),
        language(None) is None,
{
    reveal_strlit("language-");
    reveal_strlit("lang-");
    let w = words_of(class)[0];
    if w == "language-"@ + name {
        assert(w.take(9) =~= "language-"@);
        assert(w.skip(9) =~= name);
    }
    if w == "lang-"@ + name {
        assert(w.take(5) =~= "lang-"@);
        assert(w.skip(5) =~= name);
        if has_prefix(w, "language-"@) {
            assert(w.take(9)[4] == w[4]);
            assert("language-"@[4] == 'u');
            assert(w[4] == '-');
        }
    }
}

/// A paragraph that holds nothing but code is a code block without a
/// language.
pub proof fn lone_code_is_a_block(
    e: ElementV,
    k: ElementV,
    level: u8,
    base: Fmt,
    root: ElementV,
    fetch: bool,
    nodes: Seq<NodeV>,
)
    requires
        e.tag == "p"@,
        e.children == seq![TreeV::Element(k)],
        k.tag == "code"@ || k.tag == "kbd"@ || k.tag == "samp"@,
    ensures
        handled(e, level, base, root, fetch, nodes) == nodes.push(
            NodeV::Code { language: None, text: all_text(k) },
        ),
{
    reveal_strlit("p");
    reveal_strlit("h1");
    reveal_strlit("h2");
    reveal_strlit("h3");
    reveal_strlit("h4");
    reveal_strlit("h5");
    reveal_strlit("h6");
    assert("p"@.len() == 1);
    assert("h1"@.len() == 2);
    assert("h2"@.len() == 2);
    assert("h3"@.len() == 2);
    assert("h4"@.len() == 2);
    assert("h5"@.len() == 2);
    assert("h6"@.len() == 2);
    assert("h1"@[1] == '1');
    assert("h2"@[1] == '2');
    assert("h3"@[1] == '3');
    assert("h4"@[1] == '4');
    assert("h5"@[1] == '5');
    assert("h6"@[1] == '6');
    reveal_with_fuel(lone_code_from, 3);
    assert(e.children[0] == TreeV::Element(k));
}

// ------------------------------------------------------------ definitions

/// A term of a description list is bold text at the level of the list, and
/// its description lies one level deeper.
pub proof fn descriptions_lie_below_their_term(
    dt: ElementV,
    dd: ElementV,
    t: Seq<char>,
    level: u8,
    base: Fmt,
    nodes: Seq<NodeV>,
)
    requires
        dt.tag == "dt"@,
        dd.tag == "dd"@,
        level < 255,
        inline_text(dt.children, (Fmt { bold: true, ..base })).len() > 0,
        dd.children == seq![TreeV::Text(t)],
        inline_text(dd.children, base).len() > 0,
    ensures
        dl_from(seq![TreeV::Element(dt), TreeV::Element(dd)], 0, level, base, nodes) == nodes.push(
            NodeV::ListItem {
                ordered: false,
                number: 1,
                first_in_list: false,
                text: inline_text(dt.children, (Fmt { bold: true, ..base })),
                level,
                marker: None,
                href: first_target(dt),
                layer: None,
            },
        ).push(
            NodeV::ListItem {
                ordered: false,
                number: 1,
                first_in_list: false,
                text: inline_text(dd.children, base),
                level: (level + 1) as u8,
                marker: None,
                href: first_target(dd),
                layer: None,
            },
        ),
{
    reveal_strlit("dt");
    reveal_strlit("dd");
    assert("dt"@.len() == 2);
    assert("dd"@.len() == 2);
    assert("dt"@[1] == 't');
    assert("dd"@[1] == 'd');
    let ch = seq![TreeV::Element(dt), TreeV::Element(dd)];
    assert(ch[0] == TreeV::Element(dt));
    assert(ch[1] == TreeV::Element(dd));
    assert(dd.children[0] == TreeV::Text(t));
    let a = no_runs();
    let b = with_raw_text(a, t, base, None);
    assert(dd_runs(dd.children, 1, base, b) == b);
    assert(dd_runs(dd.children, 0, base, a) == b);
    assert(runs_from(dd.children, 1, base, None, b) == b);
    assert(runs_from(dd.children, 0, base, None, a) == b);
    let one = nodes.push(
        NodeV::ListItem {
            ordered: false,
            number: 1,
            first_in_list: false,
            text: inline_text(dt.children, (Fmt { bold: true, ..base })),
            level,
            marker: None,
            href: first_target(dt),
            layer: None,
        },
    );
    let two = one.push(
        NodeV::ListItem {
            ordered: false,
            number: 1,
            first_in_list: false,
            text: inline_text(dd.children, base),
            level: (level + 1) as u8,
            marker: None,
            href: first_target(dd),
            layer: None,
        },
    );
    assert(dd_lists(dd.children, 1, (level + 1) as u8, base, two) == two);
    assert(dd_lists(dd.children, 0, (level + 1) as u8, base, two) == two);
    assert(dl_from(ch, 2, level, base, two) == two);
    assert(dl_from(ch, 1, level, base, one) == dl_from(ch, 2, level, base, two));
    assert(dl_from(ch, 0, level, base, nodes) == dl_from(ch, 1, level, base, one));
}

// ------------------------------------------------------------ captions

/// The caption of a figure is that of its pictures; without one it goes with
/// the table that the figure starts with, behind it, or else stands alone.
pub proof fn figure_captions_go_with_what_they_caption(
    nodes: Seq<NodeV>,
    start: int,
    text: Seq<char>,
    href: Option<Seq<char>>,
)
    requires
        0 <= start <= nodes.len(),
    ensures
        start < nodes.len() && nodes[start] is Picture ==> ({
            let n = with_figcaption(nodes, start, Some(text), href)[start];
            n is Picture && n->Picture_caption == Some(text) && n->Picture_caption_href == href
                && n->Picture_sources == nodes[start]->Picture_sources
        }),
        start + 1 == nodes.len() && nodes[start] is Table ==> ({
            let n = with_figcaption(nodes, start, Some(text), href);
            n.len() == nodes.len() && n[start] is Table && n[start]->Table_0.caption == Some(text)
                && n[start]->Table_0.caption_parent == CaptionParent::ContainerAfter
                && n[start]->Table_0.rows == nodes[start]->Table_0.rows
        }),
        start == nodes.len() ==> with_figcaption(nodes, start, Some(text), href) == nodes.push(
            NodeV::Caption { text, href },
        ),
        with_figcaption(nodes, start, None, href) == nodes,
{
    reveal_with_fuel(has_picture, 2);
}

/// The title of a page is a heading of the first level in its furniture.
pub proof fn titles_are_furniture(nodes: Seq<NodeV>, items: Seq<ItemV>, k: int)
    requires
        k == item_named(items, 0, "title"@),
        k < items.len(),
        tidied(text_under(items, k, k + 1, seq![])).len() > 0,
    ensures
        with_title(nodes, items) == nodes.push(
            NodeV::Furniture {
                layer: ContentLayer::Furniture,
                inner: Box::new(
                    NodeV::Heading {
                        level: 1,
                        text: tidied(text_under(items, k, k + 1, seq![])),
                    },
                ),
            },
        ),
{
}

/// A rule shows nothing.
pub proof fn rules_show_nothing(
    e: ElementV,
    level: u8,
    base: Fmt,
    root: ElementV,
    fetch: bool,
    nodes: Seq<NodeV>,
)
    requires
        e.tag == "hr"@,
    ensures
        handled(e, level, base, root, fetch, nodes) == nodes,
{
    reveal_strlit("h1");
    reveal_strlit("h2");
    reveal_strlit("h3");
    reveal_strlit("h4");
    reveal_strlit("h5");
    reveal_strlit("h6");
    reveal_strlit("p");
    reveal_strlit("ul");
    reveal_strlit("ol");
    reveal_strlit("dl");
    reveal_strlit("pre");
    reveal_strlit("table");
    reveal_strlit("figure");
    reveal_strlit("hr");
    assert("h1"@.len() == 2);
    assert("h2"@.len() == 2);
    assert("h3"@.len() == 2);
    assert("h4"@.len() == 2);
    assert("h5"@.len() == 2);
    assert("h6"@.len() == 2);
    assert("p"@.len() == 1);
    assert("ul"@.len() == 2);
    assert("ol"@.len() == 2);
    assert("dl"@.len() == 2);
    assert("pre"@.len() == 3);
    assert("table"@.len() == 5);
    assert("figure"@.len() == 6);
    assert("hr"@.len() == 2);
    assert("h1"@[0] == 'h');
    assert("h1"@[1] == '1');
    assert("h2"@[0] == 'h');
    assert("h2"@[1] == '2');
    assert("h3"@[0] == 'h');
    assert("h3"@[1] == '3');
    assert("h4"@[0] == 'h');
    assert("h4"@[1] == '4');
    assert("h5"@[0] == 'h');
    assert("h5"@[1] == '5');
    assert("h6"@[0] == 'h');
    assert("h6"@[1] == '6');
    assert("ul"@[0] == 'u');
    assert("ol"@[0] == 'o');
    assert("dl"@[0] == 'd');
    assert("hr"@[0] == 'h');
    assert("hr"@[1] == 'r');
}

} // verus!
