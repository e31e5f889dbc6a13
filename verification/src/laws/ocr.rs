//! Laws of pages that a model has read: blocks by their label and boxes on
//! the grid.

use crate::chandra::{block_nodes, box_of, item_nodes, step, steps_from, BlockV};
use crate::deepseek::{caption_at, hashes, is_taken, text_lines, unhashed, with_block, AnnotationV};
use crate::document::{CaptionParent, ContentLayer, Location, NodeV};
use crate::text::{escaped, lstrip, rstrip, strip, uint, white, words_of};
use vstd::prelude::*;

verus! {

proof fn block_labels_differ()
    ensures
        block_group("Table"@) == 1,
        block_group("Form"@) == 1,
        block_group("List-Group"@) == 2,
        block_group("Figure"@) == 3,
        block_group("Image"@) == 3,
        block_group("Diagram"@) == 3,
        block_group("Title"@) == 4,
        block_group("Section-Header"@) == 5,
        block_group("Page-Header"@) == 6,
        block_group("Page-Footer"@) == 6,
        block_group("Equation-Block"@) == 7,
        block_group("Chemical-Block"@) == 7,
        block_group("Code-Block"@) == 8,
        block_group("Text"@) == 0,
{
    reveal_strlit("Table");
    reveal_strlit("Form");
    reveal_strlit("List-Group");
    reveal_strlit("Figure");
    reveal_strlit("Image");
    reveal_strlit("Diagram");
    reveal_strlit("Title");
    reveal_strlit("Section-Header");
    reveal_strlit("Page-Header");
    reveal_strlit("Page-Footer");
    reveal_strlit("Equation-Block");
    reveal_strlit("Chemical-Block");
    reveal_strlit("Code-Block");
    reveal_strlit("Text");
    assert("Table"@.len() == 5);
    assert("Form"@.len() == 4);
    assert("List-Group"@.len() == 10);
    assert("Figure"@.len() == 6);
    assert("Image"@.len() == 5);
    assert("Diagram"@.len() == 7);
    assert("Title"@.len() == 5);
    assert("Section-Header"@.len() == 14);
    assert("Page-Header"@.len() == 11);
    assert("Page-Footer"@.len() == 11);
    assert("Equation-Block"@.len() == 14);
    assert("Chemical-Block"@.len() == 14);
    assert("Code-Block"@.len() == 10);
    assert("Text"@.len() == 4);
    assert("Table"@[0] == 'T');
    assert("Table"@[1] == 'a');
    assert("Form"@[0] == 'F');
    assert("List-Group"@[0] == 'L');
    assert("Image"@[0] == 'I');
    assert("Title"@[0] == 'T');
    assert("Title"@[1] == 'i');
    assert("Section-Header"@[0] == 'S');
    assert("Page-Header"@[5] == 'H');
    assert("Page-Footer"@[5] == 'F');
    assert("Equation-Block"@[0] == 'E');
    assert("Chemical-Block"@[0] == 'C');
    assert("Code-Block"@[0] == 'C');
    assert("Text"@[0] == 'T');
}

/// The labels of blocks in the order in which they are told apart.
spec fn block_group(l: Seq<char>) -> int {
    if l == "Table"@ || l == "Form"@ {
        1
    } else if l == "List-Group"@ {
        2
    } else if l == "Figure"@ || l == "Image"@ || l == "Diagram"@ {
        3
    } else if l == "Title"@ {
        4
    } else if l == "Section-Header"@ {
        5
    } else if l == "Page-Header"@ || l == "Page-Footer"@ {
        6
    } else if l == "Equation-Block"@ || l == "Chemical-Block"@ {
        7
    } else if l == "Code-Block"@ {
        8
    } else {
        0
    }
}

/// The label of a block says what it is: a title is a heading of the first
/// level and a section header one of the second, headers and footers of a
/// page are furniture, equations are formulas, code is code, and other text is
/// a paragraph.
pub proof fn labels_say_what_a_block_is(label: Seq<char>, b: BlockV)
    requires
        b.text.len() > 0,
    ensures
        label == "Title"@ ==> block_nodes(label, b) == seq![
            NodeV::Heading { level: 1, text: escaped(b.text) },
        ],
        label == "Section-Header"@ ==> block_nodes(label, b) == seq![
            NodeV::Heading { level: 2, text: escaped(b.text) },
        ],
        label == "Page-Header"@ || label == "Page-Footer"@ ==> block_nodes(label, b) == seq![
            NodeV::Furniture {
                layer: ContentLayer::Furniture,
                inner: Box::new(NodeV::Paragraph { text: escaped(b.text) }),
            },
        ],
        label == "Equation-Block"@ || label == "Chemical-Block"@ ==> block_nodes(label, b) == seq![
            NodeV::Formula { latex: b.text, orig: b.text },
        ],
        label == "Code-Block"@ ==> block_nodes(label, b) == seq![
            NodeV::Code { language: None, text: b.text },
        ],
        label == "Text"@ ==> block_nodes(label, b) == seq![
            NodeV::Paragraph { text: escaped(b.text) },
        ],
        label == "Figure"@ || label == "Image"@ || label == "Diagram"@ ==> block_nodes(label, b)
            == seq![
            NodeV::Picture {
                caption: None,
                caption_href: None,
                caption_parent: CaptionParent::Body,
                sources: seq![],
            },
        ],
{
    block_labels_differ();
    assert(block_group(label) == block_group(label));
}

/// A table or a form with a table in it is that table; a group of items is a
/// list of them, the first of which is the first of the list.
pub proof fn tables_and_lists_show_what_they_hold(label: Seq<char>, b: BlockV)
    ensures
        (label == "Table"@ || label == "Form"@) && b.has_table ==> (match b.table {
            Some(t) => block_nodes(label, b) == seq![NodeV::Table(t)],
            None => block_nodes(label, b).len() == 0,
        }),
        label == "List-Group"@ && b.items.len() > 0 ==> {
            let r = block_nodes(label, b);
            &&& r.len() == b.items.len()
            &&& forall|k: int|
                0 <= k < r.len() ==> #[trigger] r[k] == (NodeV::ListItem {
                    ordered: false,
                    number: 0,
                    first_in_list: k == 0,
                    text: escaped(b.items[k]),
                    level: 0,
                    marker: None,
                    href: None,
                    layer: None,
                })
        },
{
    block_labels_differ();
    if label == "List-Group"@ && b.items.len() > 0 {
        items_in_order(b.items, 0, seq![]);
    }
}

proof fn items_in_order(v: Seq<Seq<char>>, i: int, nodes: Seq<NodeV>)
    requires
        0 <= i <= v.len(),
        nodes.len() == i,
        forall|k: int|
            0 <= k < i ==> #[trigger] nodes[k] == (NodeV::ListItem {
                ordered: false,
                number: 0,
                first_in_list: k == 0,
                text: escaped(v[k]),
                level: 0,
                marker: None,
                href: None,
                layer: None,
            }),
    ensures
        item_nodes(v, i, nodes).len() == v.len(),
        forall|k: int|
            0 <= k < v.len() ==> #[trigger] item_nodes(v, i, nodes)[k] == (NodeV::ListItem {
                ordered: false,
                number: 0,
                first_in_list: k == 0,
                text: escaped(v[k]),
                level: 0,
                marker: None,
                href: None,
                layer: None,
            }),
    decreases v.len() - i,
{
    if i < v.len() {
        let here = NodeV::ListItem {
            ordered: false,
            number: 0,
            first_in_list: i == 0,
            text: escaped(v[i]),
            level: 0,
            marker: None,
            href: None,
            layer: None,
        };
        items_in_order(v, i + 1, nodes.push(here));
    }
}

/// A coordinate of a thousandth of the page is the nearest step of 511.
pub proof fn coordinates_are_scaled(v: int)
    requires
        0 <= v <= 1000,
    ensures
        -500 <= 1000 * step(v) - 511 * v <= 500,
        0 <= step(v) <= 511,
        step(0) == 0,
        step(1000) == 511,
{
    let a = v * 511 + 500;
    assert(1000 * (a / 1000) <= a < 1000 * (a / 1000) + 1000);
}

/// The four numbers of a box are its left, top, right and bottom.
pub proof fn boxes_are_left_top_right_bottom(
    raw: Seq<char>,
    w: Seq<Seq<char>>,
    a: int,
    b: int,
    c: int,
    d: int,
)
    requires
        words_of(raw) == w,
        w.len() == 4,
        uint(w[0], u32::MAX as int) == Some(a),
        uint(w[1], u32::MAX as int) == Some(b),
        uint(w[2], u32::MAX as int) == Some(c),
        uint(w[3], u32::MAX as int) == Some(d),
    ensures
        box_of(raw) == Some(
            Location {
                left: step(a) as u16,
                top: step(b) as u16,
                right: step(c) as u16,
                bottom: step(d) as u16,
            },
        ),
{
    reveal_with_fuel(steps_from, 5);
    assert(steps_from(w, 0, seq![]) =~= seq![step(a), step(b), step(c), step(d)]);
}

// ------------------------------------------------------------ annotations

proof fn annotation_labels_differ()
    ensures
        annotation_group("figure"@) == 1 && annotation_group("image"@) == 1,
        annotation_group("table"@) == 2,
        annotation_group("title"@) == 3,
        annotation_group("sub_title"@) == 4,
        annotation_group("text"@) == 0,
{
    reveal_strlit("figure");
    reveal_strlit("image");
    reveal_strlit("table");
    reveal_strlit("title");
    reveal_strlit("sub_title");
    reveal_strlit("text");
    assert("figure"@.len() == 6);
    assert("image"@.len() == 5);
    assert("table"@.len() == 5);
    assert("title"@.len() == 5);
    assert("sub_title"@.len() == 9);
    assert("text"@.len() == 4);
    assert("image"@[0] == 'i');
    assert("table"@[0] == 't');
    assert("table"@[1] == 'a');
    assert("title"@[0] == 't');
    assert("title"@[1] == 'i');
}

/// The labels of annotations in the order in which they are told apart.
spec fn annotation_group(l: Seq<char>) -> int {
    if l == "figure"@ || l == "image"@ {
        1
    } else if l == "table"@ {
        2
    } else if l == "title"@ {
        3
    } else if l == "sub_title"@ {
        4
    } else {
        0
    }
}

proof fn counts_hashes(s: Seq<char>, i: int, n: int)
    requires
        0 <= i <= n <= s.len(),
        forall|k: int| i <= k < n ==> #[trigger] s[k] == '#',
        n < s.len() ==> s[n] != '#',
    ensures
        hashes(s, i) == n,
    decreases n - i,
{
    if i < n {
        assert(s[i] == '#');
        counts_hashes(s, i + 1, n);
    }
}

/// A title is a heading of the first level, and a subtitle one of as many
/// levels as hash signs stand before it, but at least two; the text is what
/// stands behind them. A figure or an image is a picture with its caption, and
/// other text a paragraph.
pub proof fn annotations_say_what_a_block_is(
    nodes: Seq<NodeV>,
    label: Seq<char>,
    n: int,
    rest: Seq<char>,
    caption: Option<Seq<char>>,
    limit: int,
)
    requires
        0 < n <= 6,
        rest.len() > 0,
        rest[0] != '#',
        !white(rest[0]),
    ensures
        ({
            let content = Seq::new(n as nat, |i: int| '#') + seq![' '] + rest;
            &&& label == "title"@ ==> with_block(nodes, label, content, caption, limit)
                == nodes.push(NodeV::Heading { level: 1, text: escaped(rest) })
            &&& label == "sub_title"@ ==> with_block(nodes, label, content, caption, limit)
                == nodes.push(
                NodeV::Heading {
                    level: (if n > 1 {
                        n
                    } else {
                        2
                    }) as u8,
                    text: escaped(rest),
                },
            )
            &&& label == "text"@ ==> with_block(nodes, label, rest, caption, limit) == nodes.push(
                NodeV::Paragraph { text: escaped(rest) },
            )
            &&& label == "figure"@ || label == "image"@ ==> with_block(
                nodes,
                label,
                rest,
                caption,
                limit,
            ) == nodes.push(
                NodeV::Picture {
                    caption,
                    caption_href: None,
                    caption_parent: CaptionParent::Body,
                    sources: seq![],
                },
            )
        }),
{
    annotation_labels_differ();
    let content = Seq::new(n as nat, |i: int| '#') + seq![' '] + rest;
    assert(content[n] == ' ');
    counts_hashes(content, 0, n);
    let tail = content.skip(n);
    assert(tail =~= seq![' '] + rest);
    assert(tail[0] == ' ');
    assert(white(' '));
    assert(tail.drop_first() =~= rest);
    reveal_with_fuel(lstrip, 3);
    assert(unhashed(content) == rest);
}

/// A caption right behind what it captions goes with it and shows nowhere
/// else.
pub proof fn captions_go_with_what_they_caption(v: Seq<AnnotationV>, i: int)
    requires
        0 <= i,
        i + 1 < v.len(),
    ensures
        v[i].label == "table"@ && v[i + 1].label == "table_caption"@ ==> caption_at(v, i) == Some(
            escaped(v[i + 1].content),
        ) && is_taken(v, i + 1),
        v[i].label == "figure"@ && v[i + 1].label == "figure_caption"@ ==> caption_at(v, i) == Some(
            escaped(v[i + 1].content),
        ) && is_taken(v, i + 1),
        v[i].label == "image"@ && v[i + 1].label == "image_caption"@ ==> caption_at(v, i) == Some(
            escaped(v[i + 1].content),
        ) && is_taken(v, i + 1),
        v[i + 1].label == "text"@ ==> caption_at(v, i) is None && !is_taken(v, i + 1),
{
    reveal_strlit("table_caption");
    reveal_strlit("figure_caption");
    reveal_strlit("image_caption");
    reveal_strlit("text");
    assert("table_caption"@.len() == 13);
    assert("figure_caption"@.len() == 14);
    assert("image_caption"@.len() == 13);
    assert("text"@.len() == 4);
    assert("table_caption"@[0] == 't');
    assert("image_caption"@[0] == 'i');
}

/// Behind a label the text is the next line with something on it, and behind
/// that of a picture all lines up to an empty one or another label.
pub proof fn labels_are_followed_by_their_text(
    lines: Seq<Seq<char>>,
    labels: Seq<Option<Seq<char>>>,
    i: int,
    used: Seq<bool>,
)
    requires
        0 <= i < lines.len(),
        labels.len() == lines.len(),
        labels[i] is None,
        strip(lines[i]).len() > 0,
    ensures
        text_lines(lines, labels, i, false, used, seq![]).parts == seq![rstrip(lines[i])],
        text_lines(lines, labels, i, false, used, seq![]).at == i + 1,
        i + 1 < lines.len() && strip(lines[i + 1]).len() == 0 ==> text_lines(
            lines,
            labels,
            i,
            true,
            used,
            seq![],
        ).parts == seq![rstrip(lines[i])],
{
    reveal_with_fuel(text_lines, 3);
    assert(Seq::<Seq<char>>::empty().push(rstrip(lines[i])) =~= seq![rstrip(lines[i])]);
}

} // verus!
