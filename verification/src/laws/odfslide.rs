//! Laws of what an OpenDocument file is turned into: slides, charts and plain
//! text.

use crate::document::{nodes_view, NodeV};
use crate::laws::tree::an_element_comes_before_those_below;
use crate::odf::{inline_runs, para_runs, runs_text, spaces};
use crate::odfbody::{
    blocks_from, box_from, boxes_from, chart_of, is_converted, is_title, kind_of, parsed, part_kind,
    plain_from, slide_from, slide_name, slides_from, text_in, titled, with_box_para, with_frame,
    Converted, Kind, OdfV, PieceV,
};
use crate::text::strip;
use crate::tree::{attr_of, first_tagged, kids_of, self_and_under, ElementV, TreeV};
use vstd::prelude::*;

verus! {

/// Text becomes the blocks of its element, a presentation those of its pages,
/// and a spreadsheet its sheets, as many as it has tables.
pub proof fn pieces_become_what_they_are(c: Converted, e: ElementV, x: OdfV, framed: bool)
    ensures
        is_converted(c, PieceV { kind: Kind::Text, element: e }, x, framed) ==> (
        c matches Converted::Nodes(v) && nodes_view(v@) == blocks_from(
            e.children,
            0,
            None,
            x,
            framed,
            seq![],
        )),
        is_converted(c, PieceV { kind: Kind::Slides, element: e }, x, framed) ==> (
        c matches Converted::Nodes(v) && nodes_view(v@) == slides_from(
            kids_of(e, "page"@),
            0,
            x,
            framed,
            seq![],
        )),
        is_converted(c, PieceV { kind: Kind::Sheet, element: e }, x, framed) ==> (
        c matches Converted::Sheets(s) && s@.len() == kids_of(e, "table"@).len()),
{
}

// ------------------------------------------------------------ slides

/// Slides come in their order; one without a title is headed by its name.
pub proof fn slides_come_in_order(
    v: Seq<ElementV>,
    k: int,
    x: OdfV,
    framed: bool,
    nodes: Seq<NodeV>,
)
    requires
        0 <= k < v.len(),
    ensures
        titled(v[k].children, 0, false) ==> slides_from(v, k, x, framed, nodes) == slides_from(
            v,
            k + 1,
            x,
            framed,
            slide_from(v[k].children, 0, false, x, framed, nodes),
        ),
        !(titled(v[k].children, 0, false)) ==> slides_from(v, k, x, framed, nodes) == slides_from(
            v,
            k + 1,
            x,
            framed,
            slide_from(
                v[k].children,
                0,
                false,
                x,
                framed,
                nodes + seq![NodeV::Heading { level: 1, text: slide_name(v[k], k) }],
            ),
        ),
        slides_from(v, v.len() as int, x, framed, nodes) == nodes,
{
    let h = NodeV::Heading { level: 1, text: slide_name(v[k], k) };
    assert(nodes.push(h) =~= nodes + seq![h]);
}

/// A shape of the class `title` is a title, and so is the first one with text
/// if it is a custom shape. Others are none.
pub proof fn titles_are_told_by_their_class(e: ElementV, first: bool)
    ensures
        attr_of(e, "class"@) == Some("title"@) ==> is_title(e, first),
        e.tag == "custom-shape"@ && text_in(e.children, 0) ==> is_title(e, true),
        attr_of(e, "class"@) == Some("subtitle"@) ==> !(is_title(e, false)),
        attr_of(e, "class"@) is None ==> !(is_title(e, false)),
        attr_of(e, "class"@) is None && e.tag == "frame"@ ==> !(is_title(e, first)),
{
    reveal_strlit("title");
    reveal_strlit("subtitle");
    reveal_strlit("custom-shape");
    reveal_strlit("frame");
    assert("title"@.len() == 5 && "subtitle"@.len() == 8);
    assert("custom-shape"@.len() == 12 && "frame"@.len() == 5);
}

/// A paragraph in the frame of a title is a heading of level one, and one in
/// another frame is a paragraph; an empty one shows nothing.
pub proof fn title_paragraphs_are_headings(e: ElementV, x: OdfV, nodes: Seq<NodeV>)
    ensures
        ({
            let runs = para_runs(e, x.styles);
            let text = runs_text(runs);
            &&& text.len() > 0 ==> with_box_para(e, x, true, nodes) == nodes + seq![
                NodeV::Heading { level: 1, text },
            ]
            &&& text.len() > 0 ==> with_box_para(e, x, false, nodes) == nodes + seq![
                NodeV::Inline { text, runs: inline_runs(runs), unwrapped: false },
            ]
            &&& text.len() == 0 ==> with_box_para(e, x, true, nodes) == nodes && with_box_para(
                e,
                x,
                false,
                nodes,
            ) == nodes
        }),
{
    let runs = para_runs(e, x.styles);
    let text = runs_text(runs);
    let a = NodeV::Heading { level: 1, text };
    let b = NodeV::Inline { text, runs: inline_runs(runs), unwrapped: false };
    assert(nodes.push(a) =~= nodes + seq![a]);
    assert(nodes.push(b) =~= nodes + seq![b]);
}

/// Speaker notes and animations of a slide are not shown; a frame is shown,
/// as a title or not.
pub proof fn slides_show_their_frames(
    e: ElementV,
    ch: Seq<TreeV>,
    i: int,
    seen: bool,
    x: OdfV,
    framed: bool,
    nodes: Seq<NodeV>,
)
    requires
        0 <= i < ch.len(),
        ch[i] == TreeV::Element(e),
    ensures
        e.tag == "notes"@ || e.tag == "par"@ ==> slide_from(ch, i, seen, x, framed, nodes)
            == slide_from(ch, i + 1, seen, x, framed, nodes),
        e.tag == "frame"@ ==> slide_from(ch, i, seen, x, framed, nodes) == slide_from(
            ch,
            i + 1,
            seen || text_in(e.children, 0),
            x,
            framed,
            with_frame(e, x, is_title(e, !seen), nodes),
        ),
        e.tag == "custom-shape"@ ==> slide_from(ch, i, seen, x, framed, nodes) == slide_from(
            ch,
            i + 1,
            seen || text_in(e.children, 0),
            x,
            framed,
            box_from(e.children, 0, None, is_title(e, !seen), x, framed, nodes),
        ),
{
    reveal_strlit("notes");
    reveal_strlit("par");
    reveal_strlit("frame");
    reveal_strlit("custom-shape");
    assert("notes"@.len() == 5 && "par"@.len() == 3 && "frame"@.len() == 5 && "custom-shape"@.len()
        == 12);
    assert("notes"@[0] == 'n' && "frame"@[0] == 'f');
}

/// Text is found wherever it stands below an element; white space is none.
pub proof fn text_is_found_below(e: ElementV, s: Seq<char>, rest: Seq<TreeV>)
    ensures
        strip(s).len() > 0 ==> text_in(seq![TreeV::Text(s)] + rest, 0),
        text_in(e.children, 0) ==> text_in(seq![TreeV::Element(e)] + rest, 0),
        !(text_in(seq![], 0)),
{
    assert((seq![TreeV::Text(s)] + rest)[0] == TreeV::Text(s));
    assert((seq![TreeV::Element(e)] + rest)[0] == TreeV::Element(e));
    reveal_with_fuel(text_in, 2);
}

/// A text box shows what it holds.
pub proof fn boxes_show_what_they_hold(e: ElementV, x: OdfV, title: bool, nodes: Seq<NodeV>)
    requires
        e.tag == "text-box"@,
        e.children.len() == 0,
    ensures
        boxes_from(seq![TreeV::Element(e)], 0, x, title, nodes) == nodes,
{
    let ch = seq![TreeV::Element(e)];
    assert(ch[0] == TreeV::Element(e));
    reveal_with_fuel(boxes_from, 3);
    reveal_with_fuel(box_from, 2);
}

// ------------------------------------------------------------ charts

/// A chart shows the first table of its part, under the part's name; a part
/// without a chart or a table shows none.
pub proof fn charts_show_their_table(name: Seq<char>, root: ElementV, x: OdfV, t: ElementV)
    ensures
        first_tagged(self_and_under(root), "chart"@) is None ==> chart_of(name, root, x) is None,
        first_tagged(self_and_under(root), "table"@) is None ==> chart_of(name, root, x) is None,
        first_tagged(self_and_under(root), "chart"@) is Some && first_tagged(
            self_and_under(root),
            "table"@,
        ) == Some(t) ==> (match parsed(t, x, false) {
            None => chart_of(name, root, x) is None,
            Some(table) => chart_of(name, root, x) matches Some(c) && c.name == name && c.table
                == table && c.kind == part_kind(root),
        }),
{
}

/// The kind of a chart is that of its chart element, whatever its series are.
pub proof fn the_chart_says_its_kind(root: ElementV, k: Seq<char>)
    requires
        root.tag == "chart"@,
        kind_of(attr_of(root, "class"@)) == Some(k),
    ensures
        part_kind(root) == k,
{
    let v = self_and_under(root);
    an_element_comes_before_those_below(root);
    assert(v[0] == root);
}

// ------------------------------------------------------------ plain text

/// Plain text keeps the texts in their order; a line break is a line feed, a
/// tab a tab and a run of spaces spaces.
pub proof fn plain_text_keeps_breaks(e: ElementV, s: Seq<char>, out: Seq<char>)
    ensures
        plain_from(seq![TreeV::Text(s)], 0, out) == out + s,
        e.tag == "line-break"@ ==> plain_from(seq![TreeV::Element(e)], 0, out) == out.push('\n'),
        e.tag == "tab"@ ==> plain_from(seq![TreeV::Element(e)], 0, out) == out.push('\t'),
        e.tag == "s"@ && attr_of(e, "c"@) is None ==> plain_from(seq![TreeV::Element(e)], 0, out)
            == out.push(' '),
        e.tag == "span"@ && e.children == seq![TreeV::Text(s)] ==> plain_from(
            seq![TreeV::Element(e)],
            0,
            out,
        ) == out + s,
        e.tag == "object"@ ==> plain_from(seq![TreeV::Element(e)], 0, out) == out,
{
    reveal_strlit("line-break");
    reveal_strlit("tab");
    reveal_strlit("tab-stop");
    reveal_strlit("s");
    reveal_strlit("span");
    reveal_strlit("object");
    reveal_strlit("binary-data");
    assert("line-break"@.len() == 10 && "tab"@.len() == 3 && "tab-stop"@.len() == 8 && "s"@.len()
        == 1 && "span"@.len() == 4 && "object"@.len() == 6 && "binary-data"@.len() == 11);
    let a = seq![TreeV::Text(s)];
    let b = seq![TreeV::Element(e)];
    assert(a[0] == TreeV::Text(s));
    assert(b[0] == TreeV::Element(e));
    reveal_with_fuel(plain_from, 3);
    if e.tag == "s"@ && attr_of(e, "c"@) is None {
        assert(out + spaces(1) =~= out.push(' '));
    }
}

} // verus!
