//! Laws of presentations: placeholders, list markers, places, notes and
//! comments.

use crate::document::{CaptionParent, ContentLayer, Location, NodeV};
use crate::pptx::{
    author_with, authors_from, chart_node, comment_text, comments_from, full_comment, images_with,
    is_slide, paras_from, size_of, with_shape, AuthorV, ChartPartV, RelationV, SheetV, Slide,
    SlideSource,
};
use crate::slide::{
    geom_of, grid_step, item_kind, kind_of, level, location_of, long_attr, own_geom, style_marker,
    text_from, text_of_para, within, Geom, PhMapV, Placeholder,
};
use crate::text::{decimal, has_prefix, has_suffix, joined, uint};
use crate::tree::{attr_of, child_of, head, ElementV};
use vstd::prelude::*;

verus! {

// ------------------------------------------------------------ placeholders

/// The type of a placeholder says what a shape is: a title, a subtitle or
/// else a body; a shape that fills none is a text box.
pub proof fn placeholder_types_say_what_a_shape_is(sp: ElementV)
    ensures
        within(sp, "ph"@) is None ==> kind_of(sp) == Placeholder::TextBox,
        within(sp, "ph"@) matches Some(ph) ==> {
            let t = attr_of(ph, "type"@);
            &&& t == Some("title"@) || t == Some("ctrTitle"@) ==> kind_of(sp) == Placeholder::Title
            &&& t == Some("subTitle"@) ==> kind_of(sp) == Placeholder::Subtitle
            &&& t == Some("body"@) || t is None ==> kind_of(sp) == Placeholder::Body
        },
{
    reveal_strlit("title");
    reveal_strlit("ctrTitle");
    reveal_strlit("subTitle");
    reveal_strlit("body");
    assert("title"@.len() == 5);
    assert("ctrTitle"@.len() == 8);
    assert("subTitle"@.len() == 8);
    assert("body"@.len() == 4);
    assert("ctrTitle"@[0] == 'c');
    assert("subTitle"@[0] == 's');
}

/// The marker that a paragraph declares decides what it is: `buNone` is no
/// item, `buAutoNum` a numbered one, `buChar` and `buBlip` a bullet.
pub proof fn declared_markers_decide(
    p: ElementV,
    pr: ElementV,
    tx: Option<ElementV>,
    placeholder: Placeholder,
)
    requires
        child_of(p, "pPr"@) == Some(pr),
    ensures
        child_of(pr, "buNone"@) is Some ==> item_kind(p, tx, placeholder) is None,
        child_of(pr, "buNone"@) is None && child_of(pr, "buAutoNum"@) is Some ==> item_kind(
            p,
            tx,
            placeholder,
        ) == Some(true),
        child_of(pr, "buNone"@) is None && child_of(pr, "buAutoNum"@) is None && (child_of(
            pr,
            "buChar"@,
        ) is Some || child_of(pr, "buBlip"@) is Some) ==> item_kind(p, tx, placeholder) == Some(
            false,
        ),
{
}

/// Where nothing declares a marker, the paragraphs of a body are bullets, and
/// so are those below the first level; the others are no items.
pub proof fn bodies_are_bulleted(
    p: ElementV,
    tx: Option<ElementV>,
    placeholder: Placeholder,
    n: int,
)
    requires
        child_of(p, "pPr"@) matches Some(pr) ==> {
            &&& child_of(pr, "buNone"@) is None
            &&& child_of(pr, "buAutoNum"@) is None
            &&& child_of(pr, "buChar"@) is None
            &&& child_of(pr, "buBlip"@) is None
            &&& match attr_of(pr, "lvl"@) {
                Some(v) => uint(v, usize::MAX as int) == Some(n),
                None => n == 0,
            }
        },
        child_of(p, "pPr"@) is None ==> n == 0,
        0 <= n,
        style_marker(tx, n) is None,
    ensures
        placeholder == Placeholder::Body || n > 0 ==> item_kind(p, tx, placeholder) == Some(false),
        placeholder != Placeholder::Body && n == 0 ==> item_kind(p, tx, placeholder) is None,
{
}

/// The list style of a shape decides for a level by the element of that level,
/// which are counted from one.
pub proof fn list_styles_decide_by_level(tx: ElementV, st: ElementV, pr: ElementV, n: int)
    requires
        child_of(tx, "lstStyle"@) == Some(st),
        child_of(st, "lvl"@ + decimal(n + 1) + "pPr"@) == Some(pr),
    ensures
        child_of(pr, "buNone"@) is Some ==> style_marker(Some(tx), n) == Some(None::<bool>),
        child_of(pr, "buNone"@) is None && child_of(pr, "buAutoNum"@) is Some ==> style_marker(
            Some(tx),
            n,
        ) == Some(Some(true)),
        child_of(pr, "buNone"@) is None && child_of(pr, "buAutoNum"@) is None && child_of(
            pr,
            "buChar"@,
        ) is Some ==> style_marker(Some(tx), n) == Some(Some(false)),
{
}

// ------------------------------------------------------------ paragraphs

/// The text of a paragraph is that of its runs and fields in order, with a
/// gap for each break.
pub proof fn paragraphs_are_their_runs(
    v: Seq<ElementV>,
    i: int,
    gap: char,
    out: Seq<char>,
    t: ElementV,
    s: Seq<char>,
)
    requires
        0 <= i < v.len(),
    ensures
        (v[i].tag == "r"@ || v[i].tag == "fld"@) && child_of(v[i], "t"@) == Some(t) && head(t)
            == Some(s) ==> text_from(v, i, gap, out) == text_from(v, i + 1, gap, out + s),
        v[i].tag == "br"@ ==> text_from(v, i, gap, out) == text_from(v, i + 1, gap, out.push(gap)),
        v[i].tag == "endParaRPr"@ ==> text_from(v, i, gap, out) == text_from(v, i + 1, gap, out),
{
    reveal_strlit("r");
    reveal_strlit("fld");
    reveal_strlit("br");
    reveal_strlit("endParaRPr");
    assert("r"@.len() == 1);
    assert("fld"@.len() == 3);
    assert("br"@.len() == 2);
    assert("endParaRPr"@.len() == 10);
}

/// A paragraph of a title is a heading of the first level, and one of another
/// shape that is no item is a paragraph; both lie where their shape lies.
pub proof fn titles_are_headings(
    p: ElementV,
    tx: ElementV,
    kind: Placeholder,
    location: Location,
    nodes: Seq<NodeV>,
)
    requires
        item_kind(p, Some(tx), kind) is None,
    ensures
        paras_from(seq![p], 0, tx, kind, location, false, 0, nodes) == nodes.push(
            NodeV::Located {
                location,
                inner: Box::new(
                    if kind == Placeholder::Title {
                        NodeV::Heading { level: 1, text: text_of_para(p, ' ') }
                    } else {
                        NodeV::Paragraph { text: text_of_para(p, ' ') }
                    },
                ),
            },
        ),
{
    reveal_with_fuel(paras_from, 2);
    assert(seq![p][0] == p);
}

proof fn numbers_go_on(
    v: Seq<ElementV>,
    i: int,
    tx: ElementV,
    kind: Placeholder,
    location: Location,
    open: bool,
    number: u64,
    nodes: Seq<NodeV>,
)
    requires
        0 <= i <= v.len(),
        forall|k: int| 0 <= k < v.len() ==> item_kind(#[trigger] v[k], Some(tx), kind) == Some(true),
        open || number == 0,
        number + (v.len() - i) <= u64::MAX,
    ensures
        ({
            let r = paras_from(v, i, tx, kind, location, open, number, nodes);
            &&& r.len() == nodes.len() + (v.len() - i)
            &&& forall|k: int| 0 <= k < nodes.len() ==> #[trigger] r[k] == nodes[k]
            &&& forall|k: int|
                i <= k < v.len() ==> #[trigger] r[nodes.len() + k - i] == numbered_item(
                    text_of_para(v[k], ' '),
                    number + 1 + (k - i),
                    !open && k == i,
                    location,
                )
        }),
    decreases v.len() - i,
{
    reveal_strlit(".");
    assert("."@ =~= seq!['.']);
    if i < v.len() {
        assert(item_kind(v[i], Some(tx), kind) == Some(true));
        let n = (number + 1) as u64;
        let here = numbered_item(text_of_para(v[i], ' '), number + 1, !open, location);
        assert(decimal(number + 1) + "."@ =~= decimal(number + 1).push('.'));
        let more = nodes.push(here);
        assert(paras_from(v, i, tx, kind, location, open, number, nodes) == paras_from(
            v,
            i + 1,
            tx,
            kind,
            location,
            true,
            n,
            more,
        ));
        numbers_go_on(v, i + 1, tx, kind, location, true, n, more);
        let r = paras_from(v, i, tx, kind, location, open, number, nodes);
        assert forall|k: int| 0 <= k < nodes.len() implies #[trigger] r[k] == nodes[k] by {
            assert(more[k] == nodes[k]);
        }
        assert forall|k: int| i <= k < v.len() implies #[trigger] r[nodes.len() + k - i]
            == numbered_item(
            text_of_para(v[k], ' '),
            number + 1 + (k - i),
            !open && k == i,
            location,
        ) by {
            if k == i {
                assert(more[nodes.len() as int] == here);
                assert(r[nodes.len() as int] == here);
            } else {
                assert(r[more.len() + k - (i + 1)] == r[nodes.len() + k - i]);
            }
        }
    }
}

/// A numbered item of a slide.
pub open spec fn numbered_item(text: Seq<char>, n: int, first: bool, location: Location) -> NodeV {
    NodeV::Located {
        location,
        inner: Box::new(
            NodeV::ListItem {
                ordered: true,
                number: n as u64,
                first_in_list: first,
                text,
                level: 0,
                marker: Some(decimal(n).push('.')),
                href: None,
                layer: None,
            },
        ),
    }
}

/// A bullet of a slide.
pub open spec fn bulleted_item(text: Seq<char>, first: bool, location: Location) -> NodeV {
    NodeV::Located {
        location,
        inner: Box::new(
            NodeV::ListItem {
                ordered: false,
                number: 0,
                first_in_list: first,
                text,
                level: 0,
                marker: None,
                href: None,
                layer: None,
            },
        ),
    }
}

/// Numbered paragraphs in a row count from one, and the first of them is the
/// first of its list.
pub proof fn numbered_paragraphs_count_from_one(
    v: Seq<ElementV>,
    tx: ElementV,
    kind: Placeholder,
    location: Location,
)
    requires
        forall|k: int| 0 <= k < v.len() ==> item_kind(#[trigger] v[k], Some(tx), kind) == Some(true),
        v.len() <= u64::MAX,
    ensures
        ({
            let r = paras_from(v, 0, tx, kind, location, false, 0, seq![]);
            &&& r.len() == v.len()
            &&& forall|k: int|
                0 <= k < v.len() ==> #[trigger] r[k] == numbered_item(
                    text_of_para(v[k], ' '),
                    k + 1,
                    k == 0,
                    location,
                )
        }),
{
    numbers_go_on(v, 0, tx, kind, location, false, 0, seq![]);
    let r = paras_from(v, 0, tx, kind, location, false, 0, seq![]);
    assert forall|k: int| 0 <= k < v.len() implies #[trigger] r[k] == numbered_item(
        text_of_para(v[k], ' '),
        k + 1,
        k == 0,
        location,
    ) by {
        assert(r[0 + k - 0] == r[k]);
    }
}

/// A bullet has no number, and behind a paragraph that is no item a list
/// starts anew.
pub proof fn lists_start_anew_behind_a_paragraph(
    a: ElementV,
    b: ElementV,
    c: ElementV,
    tx: ElementV,
    kind: Placeholder,
    location: Location,
)
    requires
        item_kind(a, Some(tx), kind) == Some(false),
        item_kind(b, Some(tx), kind) is None,
        item_kind(c, Some(tx), kind) == Some(false),
        kind != Placeholder::Title,
    ensures
        paras_from(seq![a, b, c], 0, tx, kind, location, false, 0, seq![]) == seq![
            bulleted_item(text_of_para(a, ' '), true, location),
            NodeV::Located {
                location,
                inner: Box::new(NodeV::Paragraph { text: text_of_para(b, ' ') }),
            },
            bulleted_item(text_of_para(c, ' '), true, location),
        ],
{
    let v = seq![a, b, c];
    assert(v[0] == a && v[1] == b && v[2] == c);
    reveal_with_fuel(paras_from, 4);
    assert(paras_from(v, 0, tx, kind, location, false, 0, seq![]) =~= seq![
        bulleted_item(text_of_para(a, ' '), true, location),
        NodeV::Located {
            location,
            inner: Box::new(NodeV::Paragraph { text: text_of_para(b, ' ') }),
        },
        bulleted_item(text_of_para(c, ' '), true, location),
    ]);
}

// ------------------------------------------------------------ places

/// Whether a step of the grid of 512 is the nearest one to a part of a
/// length.
pub open spec fn is_nearest(step: u16, part: int, length: int) -> bool {
    &&& step <= 511
    &&& step < 511 ==> -length <= 2 * length * step - 1024 * part <= length
    &&& step == 511 ==> 2 * length * 511 - 1024 * part <= length
}

proof fn steps_are_nearest(v: int, dim: int)
    requires
        0 < dim,
        0 <= v,
    ensures
        is_nearest(grid_step(v, dim), v, dim),
{
    let n = (1024 * v + dim) / (2 * dim);
    assert(0 <= n && 2 * dim * n <= 1024 * v + dim && 1024 * v + dim < 2 * dim * (n + 1)) by (
    nonlinear_arith)
        requires
            0 < dim,
            0 <= v,
            n == (1024 * v + dim) / (2 * dim),
    ;
    assert(2 * dim * (n + 1) == 2 * dim * n + 2 * dim) by (nonlinear_arith);
    if n > 511 {
        assert(2 * dim * 511 <= 2 * dim * n) by (nonlinear_arith)
            requires
                n > 511,
                0 < dim,
        ;
    }
}

/// A shape lies on the grid of its slide by its left and right edge, and by
/// its distance from the bottom: its top is the lower edge of its box and its
/// bottom the upper one.
pub proof fn shapes_lie_by_their_edges(g: Geom, w: i64, h: i64)
    requires
        0 < w,
        0 < h,
        0 <= g.x,
        0 <= g.y,
        0 <= g.cx,
        0 <= g.cy,
        g.y + g.cy <= h,
    ensures
        ({
            let l = location_of(Some(g), w, h);
            &&& is_nearest(l.left, g.x as int, w as int)
            &&& is_nearest(l.right, g.x + g.cx, w as int)
            &&& is_nearest(l.top, h - g.y - g.cy, h as int)
            &&& is_nearest(l.bottom, h - g.y, h as int)
        }),
{
    steps_are_nearest(g.x as int, w as int);
    steps_are_nearest(g.x + g.cx, w as int);
    steps_are_nearest(h - (g.y + g.cy), h as int);
    steps_are_nearest(h - g.y, h as int);
}

/// A shape without a place of its own takes up the whole slide.
pub proof fn shapes_without_a_place_take_the_slide(w: i64, h: i64)
    requires
        0 < w,
        0 < h,
    ensures
        location_of(None, w, h).left == 0,
        location_of(None, w, h).top == 0,
        location_of(None, w, h).right == 511,
        location_of(None, w, h).bottom == 511,
{
    let a = (1024 * w + w) / (2 * w as int);
    assert(a == 512) by (nonlinear_arith)
        requires
            0 < w,
            a == (1024 * w + w) / (2 * w as int),
    ;
    let b = (1024 * h + h) / (2 * h as int);
    assert(b == 512) by (nonlinear_arith)
        requires
            0 < h,
            b == (1024 * h + h) / (2 * h as int),
    ;
    let c = (1024 * 0 + w) / (2 * w as int);
    assert(c == 0) by (nonlinear_arith)
        requires
            0 < w,
            c == (1024 * 0 + w) / (2 * w as int),
    ;
    let d = (1024 * 0 + h) / (2 * h as int);
    assert(d == 0) by (nonlinear_arith)
        requires
            0 < h,
            d == (1024 * 0 + h) / (2 * h as int),
    ;
}

/// The box of a shape starts at the `x` and `y` of its offset and is as wide
/// and high as the `cx` and `cy` of its extent.
pub proof fn boxes_are_offset_and_extent(
    e: ElementV,
    t: ElementV,
    off: ElementV,
    ext: ElementV,
    x: i64,
    y: i64,
    cx: i64,
    cy: i64,
)
    requires
        within(e, "xfrm"@) == Some(t),
        child_of(t, "off"@) == Some(off),
        child_of(t, "ext"@) == Some(ext),
        long_attr(off, "x"@) == Some(x as int),
        long_attr(off, "y"@) == Some(y as int),
        long_attr(ext, "cx"@) == Some(cx as int),
        long_attr(ext, "cy"@) == Some(cy as int),
    ensures
        own_geom(e) == Some(Geom { x, y, cx, cy }),
        forall|m: PhMapV| #[trigger] geom_of(e, m) == Some(Geom { x, y, cx, cy }),
{
}

/// The size of a presentation is the `cx` and `cy` of its slide size, and ten
/// by seven and a half inches where it says none.
pub proof fn sizes_are_those_of_the_slide(root: ElementV, z: ElementV, x: i64, y: i64)
    ensures
        within(root, "sldSz"@) == Some(z) && long_attr(z, "cx"@) == Some(x as int)
            && long_attr(z, "cy"@) == Some(y as int) ==> size_of(Some(root)) == (
            x,
            y,
        ),
        within(root, "sldSz"@) is None ==> size_of(Some(root)) == (9144000i64, 6858000i64),
        size_of(None) == (9144000i64, 6858000i64),
{
}

// ------------------------------------------------------------ shapes

/// A picture of a slide is the image that its relation leads to.
pub proof fn pictures_follow_their_relation(
    e: ElementV,
    b: ElementV,
    r: RelationV,
    s: SheetV,
    nodes: Seq<NodeV>,
)
    requires
        e.tag == "pic"@,
        within(e, "blip"@) == Some(b),
        attr_of(b, "embed"@) == Some(r.id),
        s.relations == seq![r],
        r.content_type matches Some(t) && has_prefix(t, "image/"@),
        !has_suffix(r.rel_type, "/chart"@),
    ensures
        with_shape(e, s, nodes) == nodes.push(
            NodeV::Located {
                location: location_of(geom_of(e, s.places), s.width, s.height),
                inner: Box::new(
                    NodeV::Picture {
                        caption: None,
                        caption_href: None,
                        caption_parent: CaptionParent::Body,
                        sources: seq![r.path],
                    },
                ),
            },
        ),
{
    reveal_strlit("pic");
    reveal_strlit("grpSp");
    reveal_strlit("graphicFrame");
    reveal_strlit("sp");
    assert("pic"@.len() == 3);
    assert("grpSp"@.len() == 5);
    assert("graphicFrame"@.len() == 12);
    assert("sp"@.len() == 2);
    reveal_with_fuel(images_with, 2);
    assert(s.relations[0] == r);
    assert(images_with(s.relations, 1, r.id, seq![]) =~= seq![r.path]);
}

/// A chart has the kind and the data of its part and its title as the
/// caption; one in space is of another kind and shows no data.
pub proof fn charts_show_their_part(c: ChartPartV)
    ensures
        !has_suffix(c.plot_tag, "3DChart"@) && c.table is Some ==> {
            &&& chart_node(c) matches Some(n)
            &&& n is Chart
            &&& n->Chart_kind == c.kind
            &&& n->Chart_table.rows == c.table->0.rows
            &&& n->Chart_table.caption == c.title
        },
        has_suffix(c.plot_tag, "3DChart"@) ==> {
            &&& chart_node(c) matches Some(n)
            &&& n is Chart
            &&& n->Chart_kind == "other_chart"@
            &&& n->Chart_table.rows.len() == 0
            &&& n->Chart_table.caption == c.title
        },
{
}

// ------------------------------------------------------------ comments

/// A comment reads as its author with their initials and its time in square
/// brackets, a colon and its text.
pub proof fn comments_name_author_and_time(
    cm: ElementV,
    a: AuthorV,
    time: Seq<char>,
    nodes: Seq<NodeV>,
)
    requires
        cm.tag == "cm"@,
        attr_of(cm, "authorId"@) == Some(a.id),
        attr_of(cm, "dt"@) == Some(time),
        time.len() > 0,
        a.name.len() > 0,
        a.initials.len() > 0,
        comment_text(cm).len() > 0,
    ensures
        full_comment(cm, seq![a]) == "[author: "@ + a.name + " ("@ + a.initials + "), time: "@ + time
            + "]: "@ + comment_text(cm),
        comments_from(seq![cm], 0, seq![a], nodes) == nodes.push(
            NodeV::Furniture {
                layer: ContentLayer::Notes,
                inner: Box::new(NodeV::Paragraph { text: full_comment(cm, seq![a]) }),
            },
        ),
{
    reveal_strlit("[");
    reveal_strlit("author: ");
    reveal_strlit("[author: ");
    reveal_strlit(" (");
    reveal_strlit(")");
    reveal_strlit("time: ");
    reveal_strlit(", ");
    reveal_strlit("), time: ");
    reveal_strlit("]: ");
    reveal_with_fuel(author_with, 2);
    assert(seq![a][0] == a);
    let who = "author: "@ + a.name + " ("@ + a.initials + ")"@;
    let when = "time: "@ + time;
    let marks = seq![who].push(when);
    reveal_with_fuel(joined, 3);
    assert(marks.drop_last() =~= seq![who]);
    assert(joined(marks, ", "@) == who + ", "@ + when);
    assert(full_comment(cm, seq![a]) == "["@ + (who + ", "@ + when) + "]: "@ + comment_text(cm));
    assert(full_comment(cm, seq![a]) =~= "[author: "@ + a.name + " ("@ + a.initials + "), time: "@
        + time + "]: "@ + comment_text(cm));
    reveal_with_fuel(comments_from, 2);
    assert(seq![cm][0] == cm);
}

/// The author of a comment has the attributes of the element with its
/// identifier.
pub proof fn authors_have_their_attributes(
    e: ElementV,
    id: Seq<char>,
    name: Seq<char>,
    initials: Seq<char>,
)
    requires
        e.tag == "cmAuthor"@,
        attr_of(e, "id"@) == Some(id),
        attr_of(e, "name"@) == Some(name),
        attr_of(e, "initials"@) == Some(initials),
    ensures
        authors_from(seq![e], 0, seq![]) == seq![AuthorV { id, name, initials }],
        author_with(seq![AuthorV { id, name, initials }], 1, id) == Some(
            AuthorV { id, name, initials },
        ),
{
    reveal_with_fuel(authors_from, 2);
    assert(seq![e][0] == e);
    assert(authors_from(seq![e], 0, seq![]) =~= seq![AuthorV { id, name, initials }]);
    assert(seq![AuthorV { id, name, initials }][0].id == id);
}

/// A slide is numbered from one and named from zero, and a page break follows
/// every one but the first.
pub proof fn slides_are_numbered(
    x: Slide,
    s: SlideSource,
    root: ElementV,
    authors: Seq<AuthorV>,
    w: i64,
    h: i64,
)
    requires
        is_slide(x, s, root, authors, w, h),
    ensures
        x.page_no == s.index + 1,
        x.name@ == "slide-"@ + decimal(s.index as int),
        s.index == 0 ==> !x.page_break,
        s.index > 0 ==> x.page_break,
{
}

} // verus!
