//! Presentations: the shapes of each slide in reading order, its notes and
//! its comments.

use crate::document::{
    nodes_view, opt, paragraph, push_node, strs, table_view, CaptionParent, ContentLayer, Location,
    Node, NodeV, Table, TableV,
};
use crate::duplicate::{copy_opt_text, copy_table, copy_text};
use crate::htmllist::next_number;
use crate::parse::{parse_xml, xml_root};
use crate::slide::{
    body_text, collect_placeholders, find_within, geom_of, get_long, item_kind, kind_of, list_kind,
    location_of, long_attr, paragraph_text, parse_table, placeholder_kind, shape_geom,
    shape_location, shapes_by_position, table_of, text_of_body, text_of_para, visual_order,
    with_layout, within, Info, PhMap, PhMapV, Placeholder,
};
use crate::text::{
    chars_of, chars_or_empty, copy, decimal, ends_with, has_prefix, has_suffix, join, joined,
    or_empty, push_all, push_decimal, push_str, same, starts_with, str_eq, string_of, strip, texts,
    texts_push, trim,
};
use crate::tree::{
    attr, attr_of, child, child_of, has_tag, head, head_of, kids, kids_of, opt_str, ref_view,
    refs_view, self_and_descendants, self_and_under, tree_view, trees_view, AttrV, Element,
    ElementV, Tree, TreeV,
};
use vstd::prelude::*;

verus! {

// ------------------------------------------------------------ sources

/// A relationship of a part to another one.
pub struct Relation {
    pub id: String,
    /// The address that tells what the other part is for.
    pub rel_type: String,
    /// The name of the other part in the package.
    pub path: String,
    pub content_type: Option<String>,
}

/// View of a [`Relation`].
#[verifier::ext_equal]
pub struct RelationV {
    pub id: Seq<char>,
    pub rel_type: Seq<char>,
    pub path: Seq<char>,
    pub content_type: Option<Seq<char>>,
}

impl View for Relation {
    type V = RelationV;

    open spec fn view(&self) -> RelationV {
        RelationV {
            id: self.id@,
            rel_type: self.rel_type@,
            path: self.path@,
            content_type: opt(self.content_type),
        }
    }
}

/// Views of relationships.
pub open spec fn relations_view(v: Seq<Relation>) -> Seq<RelationV> {
    Seq::new(v.len(), |i: int| v[i]@)
}

/// A chart that a slide refers to: the element of its plot, its kind, its
/// title, and the table of its data, if that could be read.
pub struct ChartPart {
    pub id: String,
    pub plot_tag: String,
    pub kind: String,
    pub title: Option<String>,
    pub table: Option<Table>,
}

/// View of a [`ChartPart`].
#[verifier::ext_equal]
pub struct ChartPartV {
    pub id: Seq<char>,
    pub plot_tag: Seq<char>,
    pub kind: Seq<char>,
    pub title: Option<Seq<char>>,
    pub table: Option<TableV>,
}

impl View for ChartPart {
    type V = ChartPartV;

    open spec fn view(&self) -> ChartPartV {
        ChartPartV {
            id: self.id@,
            plot_tag: self.plot_tag@,
            kind: self.kind@,
            title: opt(self.title),
            table: match self.table {
                Some(t) => Some(table_view(t)),
                None => None,
            },
        }
    }
}

/// Views of charts.
pub open spec fn charts_view(v: Seq<ChartPart>) -> Seq<ChartPartV> {
    Seq::new(v.len(), |i: int| v[i]@)
}

/// What the package holds of a slide.
pub struct SlideSource {
    /// The place of the slide in the presentation, from zero.
    pub index: usize,
    pub xml: Option<String>,
    pub layout: Option<String>,
    pub master: Option<String>,
    pub relations: Vec<Relation>,
    pub charts: Vec<ChartPart>,
    pub notes: Vec<String>,
    pub comments: Vec<String>,
}

// ------------------------------------------------------------ images

/// Whether a relationship leads to an image.
pub open spec fn is_image(r: RelationV) -> bool {
    &&& !has_suffix(r.rel_type, "/chart"@)
    &&& r.content_type is Some
    &&& has_prefix(r.content_type->0, "image/"@)
}

/// The names of the images with an identifier among the first `n`
/// relationships, from the last one on, added to `done`.
pub open spec fn images_with(v: Seq<RelationV>, n: int, id: Seq<char>, done: Seq<Seq<char>>) -> Seq<
    Seq<char>,
>
    decreases n,
{
    if n <= 0 || n > v.len() {
        done
    } else {
        images_with(
            v,
            n - 1,
            id,
            if v[n - 1].id == id && is_image(v[n - 1]) {
                done.push(v[n - 1].path)
            } else {
                done
            },
        )
    }
}

fn leads_to_image(r: &Relation) -> (b: bool)
    ensures
        b == is_image(r@),
{
    match &r.content_type {
        Some(t) => !ends_with(&chars_of(r.rel_type.as_str()), "/chart") && starts_with(
            &chars_of(t.as_str()),
            "image/",
        ),
        None => false,
    }
}

fn find_images(v: &Vec<Relation>, id: &str) -> (r: Vec<String>)
    ensures
        strs(r@) == images_with(relations_view(v@), v@.len() as int, id@, seq![]),
{
    let ghost w = relations_view(v@);
    let mut out: Vec<String> = Vec::new();
    assert(strs(out@) =~= seq![]);
    let mut n: usize = v.len();
    while n > 0
        invariant
            n <= v@.len(),
            w == relations_view(v@),
            images_with(w, v@.len() as int, id@, seq![]) == images_with(
                w,
                n as int,
                id@,
                strs(out@),
            ),
        decreases n,
    {
        assert(w[n - 1] == v@[n - 1]@);
        if str_eq(v[n - 1].id.as_str(), id) && leads_to_image(&v[n - 1]) {
            let ghost before = out@;
            let path = copy_text(&v[n - 1].path);
            let ghost p = path@;
            out.push(path);
            assert(strs(out@) =~= strs(before).push(p));
        }
        n -= 1;
    }
    out
}

// ------------------------------------------------------------ parts

/// The name of the first part from `i` on that a relationship of some type
/// leads to.
pub open spec fn target_from(v: Seq<RelationV>, i: int, suffix: Seq<char>) -> Option<Seq<char>>
    decreases v.len() - i,
{
    if i >= v.len() {
        None
    } else if has_suffix(v[i].rel_type, suffix) {
        Some(v[i].path)
    } else {
        target_from(v, i + 1, suffix)
    }
}

/// The name of the first part that a relationship of some type leads to.
pub fn rel_target(v: &Vec<Relation>, suffix: &str) -> (r: Option<String>)
    ensures
        opt(r) == target_from(relations_view(v@), 0, suffix@),
{
    let ghost w = relations_view(v@);
    let mut i: usize = 0;
    while i < v.len()
        invariant
            i <= v@.len(),
            w == relations_view(v@),
            target_from(w, 0, suffix@) == target_from(w, i as int, suffix@),
        decreases v@.len() - i,
    {
        assert(w[i as int] == v@[i as int]@);
        if ends_with(&chars_of(v[i].rel_type.as_str()), suffix) {
            return Some(copy_text(&v[i].path));
        }
        i += 1;
    }
    None
}

/// The names of the parts from `i` on that relationships of some type lead
/// to, added to `done`.
pub open spec fn targets_from(v: Seq<RelationV>, i: int, suffix: Seq<char>, done: Seq<Seq<char>>) -> Seq<
    Seq<char>,
>
    decreases v.len() - i,
{
    if i >= v.len() {
        done
    } else {
        targets_from(
            v,
            i + 1,
            suffix,
            if has_suffix(v[i].rel_type, suffix) {
                done.push(v[i].path)
            } else {
                done
            },
        )
    }
}

/// The names of all the parts that relationships of some type lead to.
pub fn rel_targets(v: &Vec<Relation>, suffix: &str) -> (r: Vec<String>)
    ensures
        strs(r@) == targets_from(relations_view(v@), 0, suffix@, seq![]),
{
    let ghost w = relations_view(v@);
    let mut out: Vec<String> = Vec::new();
    assert(strs(out@) =~= seq![]);
    let mut i: usize = 0;
    while i < v.len()
        invariant
            i <= v@.len(),
            w == relations_view(v@),
            targets_from(w, 0, suffix@, seq![]) == targets_from(
                w,
                i as int,
                suffix@,
                strs(out@),
            ),
        decreases v@.len() - i,
    {
        assert(w[i as int] == v@[i as int]@);
        if ends_with(&chars_of(v[i].rel_type.as_str()), suffix) {
            let ghost before = out@;
            let path = copy_text(&v[i].path);
            let ghost p = path@;
            out.push(path);
            assert(strs(out@) =~= strs(before).push(p));
        }
        i += 1;
    }
    out
}

/// The name of the part with an identifier among the first `n` relationships:
/// the last one counts.
pub open spec fn part_with(v: Seq<RelationV>, n: int, id: Seq<char>) -> Option<Seq<char>>
    decreases n,
{
    if n <= 0 || n > v.len() {
        None
    } else if v[n - 1].id == id {
        Some(v[n - 1].path)
    } else {
        part_with(v, n - 1, id)
    }
}

/// The name of the part with an identifier.
pub fn find_part(v: &Vec<Relation>, id: &str) -> (r: Option<String>)
    ensures
        opt(r) == part_with(relations_view(v@), v@.len() as int, id@),
{
    let ghost w = relations_view(v@);
    let mut n: usize = v.len();
    while n > 0
        invariant
            n <= v@.len(),
            w == relations_view(v@),
            part_with(w, v@.len() as int, id@) == part_with(w, n as int, id@),
        decreases n,
    {
        assert(w[n - 1] == v@[n - 1]@);
        if str_eq(v[n - 1].id.as_str(), id) {
            return Some(copy_text(&v[n - 1].path));
        }
        n -= 1;
    }
    None
}

// ------------------------------------------------------------ charts

/// A table without rows.
pub open spec fn no_table() -> TableV {
    TableV {
        rows: seq![],
        structure: None,
        cell_blocks: None,
        caption: None,
        caption_parent: CaptionParent::Body,
    }
}

/// Whether a chart is one in space.
pub open spec fn is_spatial(c: ChartPartV) -> bool {
    has_suffix(c.plot_tag, "3DChart"@)
}

/// The node of a chart; none where its data could not be read. One in space
/// is of no known kind and has no data.
pub open spec fn chart_node(c: ChartPartV) -> Option<NodeV> {
    if is_spatial(c) {
        Some(
            NodeV::Chart {
                kind: "other_chart"@,
                table: TableV { caption: c.title, ..no_table() },
            },
        )
    } else {
        match c.table {
            Some(t) => Some(NodeV::Chart { kind: c.kind, table: TableV { caption: c.title, ..t } }),
            None => None,
        }
    }
}

/// The node of the chart with an identifier among the first `n`: the last one
/// that has a node counts.
pub open spec fn chart_with(v: Seq<ChartPartV>, n: int, id: Seq<char>) -> Option<NodeV>
    decreases n,
{
    if n <= 0 || n > v.len() {
        None
    } else if v[n - 1].id == id && chart_node(v[n - 1]) is Some {
        chart_node(v[n - 1])
    } else {
        chart_with(v, n - 1, id)
    }
}

/// View of an optional node.
pub open spec fn opt_node(o: Option<Node>) -> Option<NodeV> {
    match o {
        Some(n) => Some(crate::document::node_view(n)),
        None => None,
    }
}

fn make_chart(c: &ChartPart) -> (r: Option<Node>)
    ensures
        opt_node(r) == chart_node(c@),
{
    if ends_with(&chars_of(c.plot_tag.as_str()), "3DChart") {
        let table = Table {
            rows: Vec::new(),
            structure: None,
            cell_blocks: None,
            caption: copy_opt_text(&c.title),
            caption_parent: CaptionParent::Body,
        };
        assert(table_view(table) =~= (TableV { caption: c@.title, ..no_table() }));
        return Some(Node::Chart { kind: string_of(&chars_of("other_chart")), table });
    }
    match &c.table {
        Some(t) => {
            let x = copy_table(t);
            let table = Table { caption: copy_opt_text(&c.title), ..x };
            assert(table_view(table) =~= (TableV { caption: c@.title, ..table_view(*t) }));
            Some(Node::Chart { kind: copy_text(&c.kind), table })
        },
        None => None,
    }
}

fn find_chart(v: &Vec<ChartPart>, id: &str) -> (r: Option<Node>)
    ensures
        opt_node(r) == chart_with(charts_view(v@), v@.len() as int, id@),
{
    let ghost w = charts_view(v@);
    let mut n: usize = v.len();
    while n > 0
        invariant
            n <= v@.len(),
            w == charts_view(v@),
            chart_with(w, v@.len() as int, id@) == chart_with(w, n as int, id@),
        decreases n,
    {
        assert(w[n - 1] == v@[n - 1]@);
        if str_eq(v[n - 1].id.as_str(), id) {
            match make_chart(&v[n - 1]) {
                Some(x) => {
                    return Some(x);
                },
                None => {},
            }
        }
        n -= 1;
    }
    None
}

// ------------------------------------------------------------ text shapes

/// Whether the paragraphs from `i` on are blank.
pub open spec fn all_blank(v: Seq<ElementV>, i: int) -> bool
    decreases v.len() - i,
{
    i >= v.len() || (strip(text_of_para(v[i], ' ')).len() == 0 && all_blank(v, i + 1))
}

/// A node at a location.
pub open spec fn at(location: Location, n: NodeV) -> NodeV {
    NodeV::Located { location, inner: Box::new(n) }
}

/// The item of a list with a text and a number.
pub open spec fn list_item(text: Seq<char>, numbered: bool, number: u64, first: bool) -> NodeV {
    NodeV::ListItem {
        ordered: numbered,
        number: if numbered {
            number
        } else {
            0
        },
        first_in_list: first,
        text,
        level: 0,
        marker: if numbered {
            Some(decimal(number as int) + "."@)
        } else {
            None
        },
        href: None,
        layer: None,
    }
}

/// The nodes of the paragraphs from `i` on, added to `nodes`. `open` says that
/// a list is open, and `number` counts its numbered items.
pub open spec fn paras_from(
    v: Seq<ElementV>,
    i: int,
    tx: ElementV,
    kind: Placeholder,
    location: Location,
    open: bool,
    number: u64,
    nodes: Seq<NodeV>,
) -> Seq<NodeV>
    decreases v.len() - i,
{
    if i >= v.len() {
        nodes
    } else {
        let text = text_of_para(v[i], ' ');
        match item_kind(v[i], Some(tx), kind) {
            Some(numbered) => {
                let before = if open {
                    number
                } else {
                    0
                };
                let n = if numbered {
                    next_number(before)
                } else {
                    before
                };
                paras_from(
                    v,
                    i + 1,
                    tx,
                    kind,
                    location,
                    true,
                    n,
                    nodes.push(at(location, list_item(text, numbered, n, !open))),
                )
            },
            None => paras_from(
                v,
                i + 1,
                tx,
                kind,
                location,
                false,
                number,
                nodes.push(
                    at(
                        location,
                        if kind == Placeholder::Title {
                            NodeV::Heading { level: 1, text }
                        } else {
                            NodeV::Paragraph { text }
                        },
                    ),
                ),
            ),
        }
    }
}

/// The nodes of a text shape, added to `nodes`. A blank one makes none.
pub open spec fn with_text(sp: ElementV, location: Location, nodes: Seq<NodeV>) -> Seq<NodeV> {
    match within(sp, "txBody"@) {
        None => nodes,
        Some(tx) => {
            let v = kids_of(tx, "p"@);
            if all_blank(v, 0) {
                nodes
            } else {
                paras_from(v, 0, tx, kind_of(sp), location, false, 0, nodes)
            }
        },
    }
}

fn are_blank(v: &Vec<&Element>) -> (r: bool)
    ensures
        r == all_blank(refs_view(v@), 0),
{
    let ghost w = refs_view(v@);
    let mut i: usize = 0;
    while i < v.len()
        invariant
            i <= v@.len(),
            w == refs_view(v@),
            all_blank(w, 0) == all_blank(w, i as int),
        decreases v@.len() - i,
    {
        assert(w[i as int] == v@[i as int]@);
        if trim(&paragraph_text(v[i], ' ')).len() > 0 {
            return false;
        }
        i += 1;
    }
    true
}

fn push_at(nodes: &mut Vec<Node>, location: Location, n: Node)
    ensures
        nodes_view(final(nodes)@) == nodes_view(old(nodes)@).push(
            at(location, crate::document::node_view(n)),
        ),
{
    push_node(nodes, Node::Located { location, inner: Box::new(n) });
}

fn make_item(text: &Vec<char>, numbered: bool, number: u64, first: bool) -> (r: Node)
    ensures
        crate::document::node_view(r) == list_item(text@, numbered, number, first),
{
    let marker = if numbered {
        let mut d: Vec<char> = Vec::new();
        push_decimal(&mut d, number as u128);
        assert(d@ =~= decimal(number as int));
        push_str(&mut d, ".");
        Some(string_of(&d))
    } else {
        None
    };
    Node::ListItem {
        ordered: numbered,
        number: if numbered {
            number
        } else {
            0
        },
        first_in_list: first,
        text: string_of(text),
        level: 0,
        marker,
        href: None,
        layer: None,
    }
}

/// Adds the nodes of a text shape.
pub fn handle_text_shape(sp: &Element, location: Location, nodes: &mut Vec<Node>)
    ensures
        nodes_view(final(nodes)@) == with_text(sp@, location, nodes_view(old(nodes)@)),
{
    let tx = match find_within(sp, "txBody") {
        None => {
            return;
        },
        Some(t) => t,
    };
    let v = kids(tx, "p");
    if are_blank(&v) {
        return;
    }
    let kind = placeholder_kind(sp);
    let ghost w = refs_view(v@);
    let ghost first = nodes_view(nodes@);
    let mut open = false;
    let mut number: u64 = 0;
    let mut i: usize = 0;
    while i < v.len()
        invariant
            i <= v@.len(),
            w == refs_view(v@),
            paras_from(w, 0, tx@, kind, location, false, 0, first) == paras_from(
                w,
                i as int,
                tx@,
                kind,
                location,
                open,
                number,
                nodes_view(nodes@),
            ),
        decreases v@.len() - i,
    {
        assert(w[i as int] == v@[i as int]@);
        let text = paragraph_text(v[i], ' ');
        match list_kind(v[i], Some(tx), kind) {
            Some(numbered) => {
                if !open {
                    number = 0;
                }
                if numbered && number < u64::MAX {
                    number = number + 1;
                }
                push_at(nodes, location, make_item(&text, numbered, number, !open));
                open = true;
            },
            None => {
                open = false;
                if kind == Placeholder::Title {
                    push_at(nodes, location, crate::document::heading(1, &text));
                } else {
                    push_at(nodes, location, paragraph(&text));
                }
            },
        }
        i += 1;
    }
}

// ------------------------------------------------------------ shapes

/// What shapes refer to: the slide's relationships, charts and placeholders, and its
/// size.
#[verifier::ext_equal]
pub struct SheetV {
    pub relations: Seq<RelationV>,
    pub charts: Seq<ChartPartV>,
    pub places: PhMapV,
    pub width: i64,
    pub height: i64,
}

/// What shapes refer to.
pub struct Sheet<'a> {
    pub relations: &'a Vec<Relation>,
    pub charts: &'a Vec<ChartPart>,
    pub places: &'a PhMap,
    pub width: i64,
    pub height: i64,
}

impl<'a> View for Sheet<'a> {
    type V = SheetV;

    open spec fn view(&self) -> SheetV {
        SheetV {
            relations: relations_view(self.relations@),
            charts: charts_view(self.charts@),
            places: self.places@,
            width: self.width,
            height: self.height,
        }
    }
}

/// The location of a shape.
pub open spec fn place(e: ElementV, s: SheetV) -> Location {
    location_of(geom_of(e, s.places), s.width, s.height)
}

/// The nodes of a frame, added to `nodes`: its table, or its chart.
pub open spec fn with_frame(e: ElementV, s: SheetV, nodes: Seq<NodeV>) -> Seq<NodeV> {
    match within(e, "tbl"@) {
        Some(t) => match table_of(t) {
            Some(x) => nodes.push(at(place(e, s), NodeV::Table(x))),
            None => nodes,
        },
        None => match within(e, "chart"@) {
            Some(c) => match attr_of(c, "id"@) {
                Some(id) => match chart_with(s.charts, s.charts.len() as int, id) {
                    Some(n) => nodes.push(at(place(e, s), n)),
                    None => nodes,
                },
                None => nodes,
            },
            None => nodes,
        },
    }
}

/// The nodes of a picture, added to `nodes`: one where it embeds an image.
pub open spec fn with_picture(e: ElementV, s: SheetV, nodes: Seq<NodeV>) -> Seq<NodeV> {
    match within(e, "blip"@) {
        Some(b) => match attr_of(b, "embed"@) {
            Some(id) => {
                let sources = images_with(s.relations, s.relations.len() as int, id, seq![]);
                if sources.len() == 0 {
                    nodes
                } else {
                    nodes.push(
                        at(
                            place(e, s),
                            NodeV::Picture {
                                caption: None,
                                caption_href: None,
                                caption_parent: CaptionParent::Body,
                                sources,
                            },
                        ),
                    )
                }
            },
            None => nodes,
        },
        None => nodes,
    }
}

/// The nodes of a shape, added to `nodes`.
pub open spec fn with_shape(e: ElementV, s: SheetV, nodes: Seq<NodeV>) -> Seq<NodeV>
    decreases e, 1int, 0int,
{
    if e.tag == "grpSp"@ {
        with_shapes(e.children, visual_order(e.children, s.places), 0, s, nodes)
    } else if e.tag == "graphicFrame"@ {
        with_frame(e, s, nodes)
    } else if e.tag == "pic"@ {
        with_picture(e, s, nodes)
    } else if e.tag == "sp"@ {
        with_text(e, place(e, s), nodes)
    } else {
        nodes
    }
}

/// The nodes of the shapes among nodes in an order from `k` on, added to
/// `nodes`.
pub open spec fn with_shapes(
    ch: Seq<TreeV>,
    order: Seq<Info>,
    k: int,
    s: SheetV,
    nodes: Seq<NodeV>,
) -> Seq<NodeV>
    decreases ch, 0int, order.len() - k,
{
    if k < 0 || k >= order.len() {
        nodes
    } else {
        let i = order[k].at as int;
        with_shapes(
            ch,
            order,
            k + 1,
            s,
            if i < ch.len() {
                match ch[i] {
                    TreeV::Element(e) => with_shape(e, s, nodes),
                    _ => nodes,
                }
            } else {
                nodes
            },
        )
    }
}

fn locate(e: &Element, s: &Sheet) -> (r: Location)
    ensures
        r == place(e@, s@),
{
    shape_location(shape_geom(e, s.places), s.width, s.height)
}

fn add_frame(e: &Element, s: &Sheet, nodes: &mut Vec<Node>)
    ensures
        nodes_view(final(nodes)@) == with_frame(e@, s@, nodes_view(old(nodes)@)),
{
    match find_within(e, "tbl") {
        Some(t) => match parse_table(t) {
            Some(x) => {
                push_at(nodes, locate(e, s), Node::Table(x));
            },
            None => {},
        },
        None => match find_within(e, "chart") {
            Some(c) => match attr(c, "id") {
                Some(id) => match find_chart(s.charts, id) {
                    Some(n) => {
                        push_at(nodes, locate(e, s), n);
                    },
                    None => {},
                },
                None => {},
            },
            None => {},
        },
    }
}

fn add_picture(e: &Element, s: &Sheet, nodes: &mut Vec<Node>)
    ensures
        nodes_view(final(nodes)@) == with_picture(e@, s@, nodes_view(old(nodes)@)),
{
    match find_within(e, "blip") {
        Some(b) => match attr(b, "embed") {
            Some(id) => {
                let sources = find_images(s.relations, id);
                assert(strs(sources@).len() == sources@.len());
                if sources.len() > 0 {
                    push_at(
                        nodes,
                        locate(e, s),
                        Node::Picture {
                            caption: None,
                            caption_href: None,
                            caption_parent: CaptionParent::Body,
                            sources,
                        },
                    );
                }
            },
            None => {},
        },
        None => {},
    }
}

/// Adds the nodes of a shape.
pub fn handle_shape(e: &Element, s: &Sheet, nodes: &mut Vec<Node>)
    ensures
        nodes_view(final(nodes)@) == with_shape(e@, s@, nodes_view(old(nodes)@)),
    decreases e, 1int,
{
    if has_tag(e, "grpSp") {
        handle_shapes(&e.children, s, nodes);
    } else if has_tag(e, "graphicFrame") {
        add_frame(e, s, nodes);
    } else if has_tag(e, "pic") {
        add_picture(e, s, nodes);
    } else if has_tag(e, "sp") {
        handle_text_shape(e, locate(e, s), nodes);
    }
}

fn handle_shapes(ch: &Vec<Tree>, s: &Sheet, nodes: &mut Vec<Node>)
    ensures
        nodes_view(final(nodes)@) == with_shapes(
            trees_view(ch@),
            visual_order(trees_view(ch@), s@.places),
            0,
            s@,
            nodes_view(old(nodes)@),
        ),
    decreases ch, 0int,
{
    let ghost v = trees_view(ch@);
    let order = shapes_by_position(ch, s.places);
    let ghost first = nodes_view(nodes@);
    let mut k: usize = 0;
    while k < order.len()
        invariant
            k <= order@.len(),
            v == trees_view(ch@),
            with_shapes(v, order@, 0, s@, first) == with_shapes(
                v,
                order@,
                k as int,
                s@,
                nodes_view(nodes@),
            ),
        decreases order@.len() - k,
    {
        let i = order[k].at;
        if i < ch.len() {
            assert(v[i as int] == tree_view(ch@[i as int]));
            match &ch[i] {
                Tree::Element(e) => {
                    handle_shape(e, s, nodes);
                },
                _ => {},
            }
        }
        k += 1;
    }
}

// ------------------------------------------------------------ notes and comments

/// Whether an element under another, or itself, is a placeholder for body
/// text, from `i` on.
pub open spec fn fills_body(v: Seq<ElementV>, i: int) -> bool
    decreases v.len() - i,
{
    i < v.len() && ((v[i].tag == "ph"@ && attr_of(v[i], "type"@) == Some("body"@))
        || fills_body(v, i + 1))
}

/// The first shape from `i` on that fills a placeholder for body text.
pub open spec fn notes_shape(v: Seq<ElementV>, i: int) -> Option<ElementV>
    decreases v.len() - i,
{
    if i >= v.len() {
        None
    } else if v[i].tag == "sp"@ && fills_body(self_and_under(v[i]), 0) {
        Some(v[i])
    } else {
        notes_shape(v, i + 1)
    }
}

/// The nodes of a page of notes, added to `nodes`.
pub open spec fn with_notes(root: Option<ElementV>, nodes: Seq<NodeV>) -> Seq<NodeV> {
    match root {
        None => nodes,
        Some(r) => match notes_shape(self_and_under(r), 0) {
            None => nodes,
            Some(sp) => match within(sp, "txBody"@) {
                None => nodes,
                Some(tx) => {
                    let text = body_text(tx, '\u{b}');
                    if text.len() == 0 {
                        nodes
                    } else {
                        nodes.push(
                            NodeV::Furniture {
                                layer: ContentLayer::Notes,
                                inner: Box::new(
                                    at(
                                        Location { left: 0, top: 0, right: 0, bottom: 0 },
                                        NodeV::Paragraph { text },
                                    ),
                                ),
                            },
                        )
                    }
                },
            },
        },
    }
}

fn has_body(e: &Element) -> (r: bool)
    ensures
        r == fills_body(self_and_under(e@), 0),
{
    let v = self_and_descendants(e);
    let ghost w = refs_view(v@);
    let mut i: usize = 0;
    while i < v.len()
        invariant
            i <= v@.len(),
            w == refs_view(v@),
            fills_body(w, 0) == fills_body(w, i as int),
            w == self_and_under(e@),
        decreases v@.len() - i,
    {
        assert(w[i as int] == v@[i as int]@);
        if has_tag(v[i], "ph") {
            match attr(v[i], "type") {
                Some(t) => {
                    if str_eq(t, "body") {
                        return true;
                    }
                },
                None => {},
            }
        }
        i += 1;
    }
    false
}

fn find_notes<'a>(root: &'a Element) -> (r: Option<&'a Element>)
    ensures
        ref_view(r) == notes_shape(self_and_under(root@), 0),
{
    let v = self_and_descendants(root);
    let ghost w = refs_view(v@);
    let mut i: usize = 0;
    while i < v.len()
        invariant
            i <= v@.len(),
            w == refs_view(v@),
            w == self_and_under(root@),
            notes_shape(w, 0) == notes_shape(w, i as int),
        decreases v@.len() - i,
    {
        assert(w[i as int] == v@[i as int]@);
        if has_tag(v[i], "sp") && has_body(v[i]) {
            return Some(v[i]);
        }
        i += 1;
    }
    None
}

fn read_root(xml: &str) -> (r: Option<Element>)
    ensures
        match r {
            Some(e) => xml_root(xml@, false) == Some(e@),
            None => xml_root(xml@, false) is None,
        },
{
    match parse_xml(xml, false) {
        Ok(e) => Some(e),
        Err(_) => None,
    }
}

/// Adds the nodes of a page of notes.
pub fn slide_notes(xml: &str, nodes: &mut Vec<Node>)
    ensures
        nodes_view(final(nodes)@) == with_notes(xml_root(xml@, false), nodes_view(old(nodes)@)),
{
    match read_root(xml) {
        None => {},
        Some(r) => match find_notes(&r) {
            None => {},
            Some(sp) => match find_within(sp, "txBody") {
                None => {},
                Some(tx) => {
                    let text = text_of_body(tx, '\u{b}');
                    if text.len() > 0 {
                        let location = Location { left: 0, top: 0, right: 0, bottom: 0 };
                        let note = Node::Located { location, inner: Box::new(paragraph(&text)) };
                        assert(crate::document::node_view(note) == at(
                            location,
                            NodeV::Paragraph { text: text@ },
                        ));
                        push_node(
                            nodes,
                            Node::Furniture {
                                layer: ContentLayer::Notes,
                                inner: Box::new(note),
                            },
                        );
                    }
                },
            },
        },
    }
}

/// An author of comments.
pub struct Author {
    pub id: Vec<char>,
    pub name: Vec<char>,
    pub initials: Vec<char>,
}

/// View of an [`Author`].
#[verifier::ext_equal]
pub struct AuthorV {
    pub id: Seq<char>,
    pub name: Seq<char>,
    pub initials: Seq<char>,
}

impl View for Author {
    type V = AuthorV;

    open spec fn view(&self) -> AuthorV {
        AuthorV { id: self.id@, name: self.name@, initials: self.initials@ }
    }
}

/// Views of authors.
pub open spec fn authors_view(v: Seq<Author>) -> Seq<AuthorV> {
    Seq::new(v.len(), |i: int| v[i]@)
}

/// The authors among the elements from `i` on, added to `done`.
pub open spec fn authors_from(v: Seq<ElementV>, i: int, done: Seq<AuthorV>) -> Seq<AuthorV>
    decreases v.len() - i,
{
    if i >= v.len() {
        done
    } else {
        authors_from(
            v,
            i + 1,
            if v[i].tag == "cmAuthor"@ {
                done.push(
                    AuthorV {
                        id: or_empty(attr_of(v[i], "id"@)),
                        name: or_empty(attr_of(v[i], "name"@)),
                        initials: or_empty(attr_of(v[i], "initials"@)),
                    },
                )
            } else {
                done
            },
        )
    }
}

/// The authors that a part names.
pub open spec fn authors_of(xml: Option<Seq<char>>) -> Seq<AuthorV> {
    match xml {
        Some(x) => match xml_root(x, false) {
            Some(r) => authors_from(self_and_under(r), 0, seq![]),
            None => seq![],
        },
        None => seq![],
    }
}

/// The authors that a part names.
pub fn comment_authors(xml: Option<&str>) -> (r: Vec<Author>)
    ensures
        authors_view(r@) == authors_of(opt_str(xml)),
{
    let mut out: Vec<Author> = Vec::new();
    assert(authors_view(out@) =~= seq![]);
    let root = match xml {
        Some(x) => match read_root(x) {
            Some(r) => r,
            None => {
                return out;
            },
        },
        None => {
            return out;
        },
    };
    let v = self_and_descendants(&root);
    let ghost w = refs_view(v@);
    let mut i: usize = 0;
    while i < v.len()
        invariant
            i <= v@.len(),
            w == refs_view(v@),
            authors_from(w, 0, seq![]) == authors_from(w, i as int, authors_view(out@)),
        decreases v@.len() - i,
    {
        assert(w[i as int] == v@[i as int]@);
        if has_tag(v[i], "cmAuthor") {
            let ghost before = out@;
            let a = Author {
                id: chars_or_empty(attr(v[i], "id")),
                name: chars_or_empty(attr(v[i], "name")),
                initials: chars_or_empty(attr(v[i], "initials")),
            };
            out.push(a);
            assert(authors_view(out@) =~= authors_view(before).push(a@));
        }
        i += 1;
    }
    out
}

/// The author with an identifier among the first `n`: the last one counts.
pub open spec fn author_with(v: Seq<AuthorV>, n: int, id: Seq<char>) -> Option<AuthorV>
    decreases n,
{
    if n <= 0 || n > v.len() {
        None
    } else if v[n - 1].id == id {
        Some(v[n - 1])
    } else {
        author_with(v, n - 1, id)
    }
}

fn find_author<'a>(v: &'a Vec<Author>, id: &Vec<char>) -> (r: Option<&'a Author>)
    ensures
        match r {
            Some(a) => author_with(authors_view(v@), v@.len() as int, id@) == Some(a@),
            None => author_with(authors_view(v@), v@.len() as int, id@) is None,
        },
{
    let ghost w = authors_view(v@);
    let mut n: usize = v.len();
    while n > 0
        invariant
            n <= v@.len(),
            w == authors_view(v@),
            author_with(w, v@.len() as int, id@) == author_with(w, n as int, id@),
        decreases n,
    {
        assert(w[n - 1] == v@[n - 1]@);
        if same(&v[n - 1].id, id) {
            return Some(&v[n - 1]);
        }
        n -= 1;
    }
    None
}

/// What is said of a comment: who wrote it, and when.
pub open spec fn comment_marks(cm: ElementV, authors: Seq<AuthorV>) -> Seq<Seq<char>> {
    let who = match author_with(
        authors,
        authors.len() as int,
        or_empty(attr_of(cm, "authorId"@)),
    ) {
        Some(a) => if a.name.len() == 0 {
            seq![]
        } else if a.initials.len() == 0 {
            seq!["author: "@ + a.name]
        } else {
            seq!["author: "@ + a.name + " ("@ + a.initials + ")"@]
        },
        None => seq![],
    };
    let dt = or_empty(attr_of(cm, "dt"@));
    if dt.len() == 0 {
        who
    } else {
        who.push("time: "@ + dt)
    }
}

/// The text of a comment.
pub open spec fn comment_text(cm: ElementV) -> Seq<char> {
    match child_of(cm, "text"@) {
        Some(t) => strip(or_empty(head(t))),
        None => strip(seq![]),
    }
}

/// A comment behind what is said of it.
pub open spec fn full_comment(cm: ElementV, authors: Seq<AuthorV>) -> Seq<char> {
    let marks = comment_marks(cm, authors);
    if marks.len() == 0 {
        comment_text(cm)
    } else {
        "["@ + joined(marks, ", "@) + "]: "@ + comment_text(cm)
    }
}

/// The comments among the elements from `i` on that have text, added to
/// `nodes`.
pub open spec fn comments_from(
    v: Seq<ElementV>,
    i: int,
    authors: Seq<AuthorV>,
    nodes: Seq<NodeV>,
) -> Seq<NodeV>
    decreases v.len() - i,
{
    if i >= v.len() {
        nodes
    } else {
        comments_from(
            v,
            i + 1,
            authors,
            if v[i].tag == "cm"@ && comment_text(v[i]).len() > 0 {
                nodes.push(
                    NodeV::Furniture {
                        layer: ContentLayer::Notes,
                        inner: Box::new(NodeV::Paragraph { text: full_comment(v[i], authors) }),
                    },
                )
            } else {
                nodes
            },
        )
    }
}

/// The nodes of a part with comments, added to `nodes`.
pub open spec fn with_comments(root: Option<ElementV>, authors: Seq<AuthorV>, nodes: Seq<NodeV>) -> Seq<
    NodeV,
> {
    match root {
        Some(r) => comments_from(self_and_under(r), 0, authors, nodes),
        None => nodes,
    }
}

fn read_comment(cm: &Element) -> (r: Vec<char>)
    ensures
        r@ == comment_text(cm@),
{
    match child(cm, "text") {
        Some(t) => trim(&chars_or_empty(head_of(t))),
        None => {
            let none: Vec<char> = Vec::new();
            assert(none@ =~= seq![]);
            trim(&none)
        },
    }
}

fn read_full(cm: &Element, authors: &Vec<Author>, text: &Vec<char>) -> (r: Vec<char>)
    requires
        text@ == comment_text(cm@),
    ensures
        r@ == full_comment(cm@, authors_view(authors@)),
{
    let mut marks: Vec<Vec<char>> = Vec::new();
    assert(texts(marks@) =~= seq![]);
    match find_author(authors, &chars_or_empty(attr(cm, "authorId"))) {
        Some(a) => {
            if a.name.len() > 0 {
                let mut t = chars_of("author: ");
                push_all(&mut t, &a.name);
                if a.initials.len() > 0 {
                    push_str(&mut t, " (");
                    push_all(&mut t, &a.initials);
                    push_str(&mut t, ")");
                }
                let ghost x = t@;
                marks.push(t);
                assert(texts(marks@) =~= seq![x]);
            }
        },
        None => {},
    }
    let dt = chars_or_empty(attr(cm, "dt"));
    if dt.len() > 0 {
        let mut t = chars_of("time: ");
        push_all(&mut t, &dt);
        let ghost before = marks@;
        marks.push(t);
        proof {
            texts_push(before, t);
        }
    }
    assert(texts(marks@) == comment_marks(cm@, authors_view(authors@)));
    assert(texts(marks@).len() == marks@.len());
    if marks.len() == 0 {
        return copy(text);
    }
    let mut out = chars_of("[");
    push_all(&mut out, &join(&marks, ", "));
    push_str(&mut out, "]: ");
    push_all(&mut out, text);
    out
}

/// Adds the nodes of a part with comments.
pub fn slide_comments(xml: &str, authors: &Vec<Author>, nodes: &mut Vec<Node>)
    ensures
        nodes_view(final(nodes)@) == with_comments(
            xml_root(xml@, false),
            authors_view(authors@),
            nodes_view(old(nodes)@),
        ),
{
    let root = match read_root(xml) {
        Some(r) => r,
        None => {
            return;
        },
    };
    let ghost a = authors_view(authors@);
    let v = self_and_descendants(&root);
    let ghost w = refs_view(v@);
    let ghost first = nodes_view(nodes@);
    let mut i: usize = 0;
    while i < v.len()
        invariant
            i <= v@.len(),
            w == refs_view(v@),
            a == authors_view(authors@),
            comments_from(w, 0, a, first) == comments_from(w, i as int, a, nodes_view(nodes@)),
        decreases v@.len() - i,
    {
        assert(w[i as int] == v@[i as int]@);
        if has_tag(v[i], "cm") {
            let text = read_comment(v[i]);
            if text.len() > 0 {
                let full = read_full(v[i], authors, &text);
                push_node(
                    nodes,
                    Node::Furniture {
                        layer: ContentLayer::Notes,
                        inner: Box::new(paragraph(&full)),
                    },
                );
            }
        }
        i += 1;
    }
}

// ------------------------------------------------------------ presentations

/// The value of the first qualified identifier from `i` on.
pub open spec fn spaced_id(a: Seq<AttrV>, i: int) -> Option<Seq<char>>
    decreases a.len() - i,
{
    if i >= a.len() {
        None
    } else if a[i].name == "id"@ && a[i].namespace.len() > 0 {
        Some(a[i].value)
    } else {
        spaced_id(a, i + 1)
    }
}

/// The relationships of the slides from `i` on, added to `done`.
pub open spec fn rids_from(v: Seq<ElementV>, i: int, done: Seq<Seq<char>>) -> Seq<Seq<char>>
    decreases v.len() - i,
{
    if i >= v.len() {
        done
    } else {
        rids_from(
            v,
            i + 1,
            match spaced_id(v[i].attrs, 0) {
                Some(id) => if v[i].tag == "sldId"@ {
                    done.push(id)
                } else {
                    done
                },
                None => done,
            },
        )
    }
}

/// The relationships of a presentation's slides in order.
pub open spec fn rids(root: Option<ElementV>) -> Seq<Seq<char>> {
    match root {
        Some(r) => rids_from(self_and_under(r), 0, seq![]),
        None => seq![],
    }
}

fn find_spaced_id<'a>(e: &'a Element) -> (r: Option<&'a str>)
    ensures
        opt_str(r) == spaced_id(e@.attrs, 0),
{
    let ghost w = e@.attrs;
    let mut i: usize = 0;
    while i < e.attrs.len()
        invariant
            i <= e.attrs@.len(),
            w == e@.attrs,
            w == crate::tree::attrs_view(e.attrs@),
            spaced_id(w, 0) == spaced_id(w, i as int),
        decreases e.attrs@.len() - i,
    {
        assert(w[i as int] == e.attrs@[i as int]@);
        if str_eq(e.attrs[i].name.as_str(), "id") && chars_of(
            e.attrs[i].namespace.as_str(),
        ).len() > 0 {
            return Some(e.attrs[i].value.as_str());
        }
        i += 1;
    }
    None
}

/// The relationships of a presentation's slides in order.
pub fn slide_rids(presentation: &str) -> (r: Vec<Vec<char>>)
    ensures
        texts(r@) == rids(xml_root(presentation@, false)),
{
    let mut out: Vec<Vec<char>> = Vec::new();
    assert(texts(out@) =~= seq![]);
    let root = match read_root(presentation) {
        Some(r) => r,
        None => {
            return out;
        },
    };
    let v = self_and_descendants(&root);
    let ghost w = refs_view(v@);
    let mut i: usize = 0;
    while i < v.len()
        invariant
            i <= v@.len(),
            w == refs_view(v@),
            rids_from(w, 0, seq![]) == rids_from(w, i as int, texts(out@)),
        decreases v@.len() - i,
    {
        broadcast use texts_push;

        assert(w[i as int] == v@[i as int]@);
        if has_tag(v[i], "sldId") {
            match find_spaced_id(v[i]) {
                Some(id) => {
                    out.push(chars_of(id));
                },
                None => {},
            }
        }
        i += 1;
    }
    out
}

/// The size of a presentation's slides.
pub open spec fn size_of(root: Option<ElementV>) -> (i64, i64) {
    match root {
        Some(r) => match within(r, "sldSz"@) {
            Some(z) => match (long_attr(z, "cx"@), long_attr(z, "cy"@)) {
                (Some(x), Some(y)) => (x as i64, y as i64),
                _ => (9144000, 6858000),
            },
            None => (9144000, 6858000),
        },
        None => (9144000, 6858000),
    }
}

/// The size of a presentation's slides.
pub fn slide_size(presentation: &str) -> (r: (i64, i64))
    ensures
        r == size_of(xml_root(presentation@, false)),
{
    match read_root(presentation) {
        Some(r) => match find_within(&r, "sldSz") {
            Some(z) => match (get_long(z, "cx"), get_long(z, "cy")) {
                (Some(x), Some(y)) => (x, y),
                _ => (9144000, 6858000),
            },
            None => (9144000, 6858000),
        },
        None => (9144000, 6858000),
    }
}

/// The placeholders with those of a layout's text, if it has a tree.
pub open spec fn with_part(xml: Option<Seq<char>>, m: PhMapV) -> PhMapV {
    match xml {
        Some(x) => match xml_root(x, false) {
            Some(r) => with_layout(r, m),
            None => m,
        },
        None => m,
    }
}

/// The placeholders of a slide: those of its layout, then those of its
/// master.
pub open spec fn slide_places(s: SlideSource) -> PhMapV {
    with_part(
        opt(s.master),
        with_part(opt(s.layout), PhMapV { by_idx: seq![], by_type: seq![] }),
    )
}

fn add_part(xml: &Option<String>, m: &mut PhMap)
    ensures
        final(m)@ == with_part(opt(*xml), old(m)@),
{
    match xml {
        Some(x) => match read_root(x.as_str()) {
            Some(r) => {
                collect_placeholders(&r, m);
            },
            None => {},
        },
        None => {},
    }
}

fn slide_placeholders(s: &SlideSource) -> (r: PhMap)
    ensures
        r@ == slide_places(*s),
{
    let mut m = PhMap { by_idx: Vec::new(), by_type: Vec::new() };
    assert(m@ =~= (PhMapV { by_idx: seq![], by_type: seq![] }));
    add_part(&s.layout, &mut m);
    add_part(&s.master, &mut m);
    m
}

/// The nodes of the pages of notes from `i` on, added to `nodes`.
pub open spec fn notes_from(v: Seq<String>, i: int, nodes: Seq<NodeV>) -> Seq<NodeV>
    decreases v.len() - i,
{
    if i >= v.len() {
        nodes
    } else {
        notes_from(v, i + 1, with_notes(xml_root(v[i]@, false), nodes))
    }
}

/// The nodes of the parts with comments from `i` on, added to `nodes`.
pub open spec fn all_comments(v: Seq<String>, i: int, authors: Seq<AuthorV>, nodes: Seq<NodeV>) -> Seq<
    NodeV,
>
    decreases v.len() - i,
{
    if i >= v.len() {
        nodes
    } else {
        all_comments(v, i + 1, authors, with_comments(xml_root(v[i]@, false), authors, nodes))
    }
}

/// The nodes of a slide: its shapes in reading order, then its notes.
pub open spec fn slide_nodes(s: SlideSource, root: ElementV, w: i64, h: i64) -> Seq<NodeV> {
    let sheet = SheetV {
        relations: relations_view(s.relations@),
        charts: charts_view(s.charts@),
        places: slide_places(s),
        width: w,
        height: h,
    };
    let a = match within(root, "spTree"@) {
        Some(t) => with_shapes(
            t.children,
            visual_order(t.children, sheet.places),
            0,
            sheet,
            seq![],
        ),
        None => seq![],
    };
    notes_from(s.notes@, 0, a)
}

/// A slide of a document.
pub struct Slide {
    /// The number of its page, from one.
    pub page_no: u128,
    pub name: String,
    pub nodes: Vec<Node>,
    /// Whether a page break follows it.
    pub page_break: bool,
    /// Its comments, which follow the page break.
    pub comments: Vec<Node>,
}

/// Whether a slide was made so.
pub open spec fn is_slide(x: Slide, s: SlideSource, root: ElementV, authors: Seq<AuthorV>, w: i64, h: i64) -> bool {
    &&& x.page_no == s.index + 1
    &&& x.name@ == "slide-"@ + decimal(s.index as int)
    &&& nodes_view(x.nodes@) == slide_nodes(s, root, w, h)
    &&& x.page_break == (s.index > 0)
    &&& nodes_view(x.comments@) == all_comments(s.comments@, 0, authors, seq![])
}

/// The tree of a slide, if it has one.
pub open spec fn slide_root(s: SlideSource) -> Option<ElementV> {
    match s.xml {
        Some(x) => xml_root(x@, false),
        None => None,
    }
}

/// The slide of a source; none where it has no tree.
pub fn convert_slide(s: &SlideSource, w: i64, h: i64, authors: &Vec<Author>) -> (r: Option<Slide>)
    ensures
        match slide_root(*s) {
            Some(root) => r matches Some(x) && is_slide(x, *s, root, authors_view(authors@), w, h),
            None => r is None,
        },
{
    let root = match &s.xml {
        Some(x) => match read_root(x.as_str()) {
            Some(r) => r,
            None => {
                return None;
            },
        },
        None => {
            return None;
        },
    };
    let places = slide_placeholders(s);
    let sheet = Sheet { relations: &s.relations, charts: &s.charts, places: &places, width: w, height: h };
    let mut nodes: Vec<Node> = Vec::new();
    assert(nodes_view(nodes@) =~= seq![]);
    match find_within(&root, "spTree") {
        Some(t) => {
            handle_shapes(&t.children, &sheet, &mut nodes);
        },
        None => {},
    }
    let ghost first = nodes_view(nodes@);
    let mut i: usize = 0;
    while i < s.notes.len()
        invariant
            i <= s.notes@.len(),
            notes_from(s.notes@, 0, first) == notes_from(s.notes@, i as int, nodes_view(nodes@)),
        decreases s.notes@.len() - i,
    {
        slide_notes(s.notes[i].as_str(), &mut nodes);
        i += 1;
    }
    let ghost a = authors_view(authors@);
    let mut comments: Vec<Node> = Vec::new();
    assert(nodes_view(comments@) =~= seq![]);
    let mut k: usize = 0;
    while k < s.comments.len()
        invariant
            k <= s.comments@.len(),
            a == authors_view(authors@),
            all_comments(s.comments@, 0, a, seq![]) == all_comments(
                s.comments@,
                k as int,
                a,
                nodes_view(comments@),
            ),
        decreases s.comments@.len() - k,
    {
        slide_comments(s.comments[k].as_str(), authors, &mut comments);
        k += 1;
    }
    let mut name = chars_of("slide-");
    let mut d: Vec<char> = Vec::new();
    push_decimal(&mut d, s.index as u128);
    assert(d@ =~= decimal(s.index as int));
    push_all(&mut name, &d);
    Some(
        Slide {
            page_no: s.index as u128 + 1,
            name: string_of(&name),
            nodes,
            page_break: s.index > 0,
            comments,
        },
    )
}

/// A presentation: the size of its slides, and the slides.
pub struct Presentation {
    pub width: i64,
    pub height: i64,
    pub slides: Vec<Slide>,
}

/// The sources from `i` on that have a tree, added to `done`.
pub open spec fn readable(v: Seq<SlideSource>, i: int, done: Seq<int>) -> Seq<int>
    decreases v.len() - i,
{
    if i >= v.len() {
        done
    } else {
        readable(
            v,
            i + 1,
            if slide_root(v[i]) is Some {
                done.push(i)
            } else {
                done
            },
        )
    }
}

proof fn readable_keeps_order(v: Seq<SlideSource>, i: int, done: Seq<int>)
    requires
        0 <= i,
        forall|a: int, b: int| 0 <= a < b < done.len() ==> #[trigger] done[a] < #[trigger] done[b],
        forall|a: int|
            0 <= a < done.len() ==> 0 <= #[trigger] done[a] < i && done[a] < v.len() && slide_root(
                v[done[a]],
            ) is Some,
        forall|j: int|
            0 <= j < i && j < v.len() && slide_root(#[trigger] v[j]) is Some ==> done.contains(j),
    ensures
        forall|a: int, b: int|
            0 <= a < b < readable(v, i, done).len() ==> #[trigger] readable(v, i, done)[a]
                < #[trigger] readable(v, i, done)[b],
        forall|a: int|
            0 <= a < readable(v, i, done).len() ==> 0 <= #[trigger] readable(v, i, done)[a]
                < v.len() && slide_root(v[readable(v, i, done)[a]]) is Some,
        forall|j: int|
            0 <= j < v.len() && slide_root(#[trigger] v[j]) is Some ==> readable(
                v,
                i,
                done,
            ).contains(j),
    decreases v.len() - i,
{
    if i < v.len() {
        let next = if slide_root(v[i]) is Some {
            done.push(i)
        } else {
            done
        };
        assert forall|j: int|
            0 <= j < i + 1 && j < v.len() && slide_root(#[trigger] v[j]) is Some implies next.contains(
            j,
        ) by {
            if j == i {
                assert(next[next.len() - 1] == i);
            } else {
                let a = choose|a: int| 0 <= a < done.len() && done[a] == j;
                assert(next[a] == j);
            }
        }
        readable_keeps_order(v, i + 1, next);
    }
}

/// The slides of a presentation come in their order, and each one that can be
/// read comes once.
pub proof fn each_slide_comes_once_in_order(v: Seq<SlideSource>)
    ensures
        forall|a: int, b: int|
            0 <= a < b < readable(v, 0, seq![]).len() ==> #[trigger] readable(v, 0, seq![])[a]
                < #[trigger] readable(v, 0, seq![])[b],
        forall|j: int|
            0 <= j < v.len() && slide_root(#[trigger] v[j]) is Some ==> readable(
                v,
                0,
                seq![],
            ).contains(j),
{
    readable_keeps_order(v, 0, seq![]);
}

/// The backend of presentations.
pub struct PptxBackend;

impl PptxBackend {
    /// The presentation of its parts. A slide without a tree is left out.
    pub fn convert(
        &self,
        presentation: &str,
        authors: Option<&str>,
        slides: &Vec<SlideSource>,
    ) -> (r: Presentation)
        ensures
            (r.width, r.height) == size_of(xml_root(presentation@, false)),
            r.slides@.len() == readable(slides@, 0, seq![]).len(),
            forall|k: int|
                0 <= k < r.slides@.len() ==> is_slide(
                    #[trigger] r.slides@[k],
                    slides@[readable(slides@, 0, seq![])[k]],
                    slide_root(slides@[readable(slides@, 0, seq![])[k]])->0,
                    authors_of(opt_str(authors)),
                    r.width,
                    r.height,
                ),
    {
        let (width, height) = slide_size(presentation);
        let known = comment_authors(authors);
        let ghost a = authors_of(opt_str(authors));
        let mut out: Vec<Slide> = Vec::new();
        let ghost mut done: Seq<int> = seq![];
        let mut i: usize = 0;
        while i < slides.len()
            invariant
                i <= slides@.len(),
                a == authors_view(known@),
                out@.len() == done.len(),
                readable(slides@, 0, seq![]) == readable(slides@, i as int, done),
                forall|k: int|
                    0 <= k < done.len() ==> is_slide(
                        #[trigger] out@[k],
                        slides@[done[k]],
                        slide_root(slides@[done[k]])->0,
                        a,
                        width,
                        height,
                    ),
            decreases slides@.len() - i,
        {
            match convert_slide(&slides[i], width, height, &known) {
                Some(x) => {
                    out.push(x);
                    proof {
                        done = done.push(i as int);
                    }
                },
                None => {},
            }
            i += 1;
        }
        Presentation { width, height, slides: out }
    }
}

} // verus!
