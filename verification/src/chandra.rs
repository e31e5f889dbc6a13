//! Layout HTML of the Chandra OCR model.
//!
//! Each block is a `div` with a box, in thousandths of the page, and a label.
//! The label decides the kind of node, and the box becomes its place on the
//! page.

use crate::document::{
    heading, node_view, nodes_view, paragraph, push_node, strs, table_view, CaptionParent,
    ContentLayer, Location, Node, NodeV, Table, TableV,
};
use crate::html::{parse_table, table_of};
use crate::parse::{fragment_items, parse_fragment_items};
use crate::pattern::{
    capture_pairs, capture_text, captured_pairs, captured_text, pairs_view, substitute, substituted,
};
use crate::text::{
    chars_of, contains, contains_from, escape_text, escaped, is, join, joined, lowercase,
    parse_uint, str_eq, string_of, swap_text, swapped, texts, texts_push, to_lowercase, uint, words,
    words_of,
};
use crate::tree::{
    all_text, build_tree, descendants, find_tagged, first_tagged, has_tag, refs_view, root_of,
    text_of, under, Element, ElementV,
};
use vstd::prelude::*;

verus! {

/// Whether a text looks like layout HTML: it names a box and a label.
pub open spec fn is_layout(text: Seq<char>) -> bool {
    contains_from(text, "data-bbox="@, 0) && contains_from(text, "data-label="@, 0)
}

/// Whether a text looks like layout HTML.
pub fn looks_like_chandra(text: &str) -> (r: bool)
    ensures
        r == is_layout(text@),
{
    let v = chars_of(text);
    contains(&v, "data-bbox=") && contains(&v, "data-label=")
}

/// A coordinate in thousandths as one of 512 steps, rounded; more than a
/// thousand is the end.
pub open spec fn step(v: int) -> int {
    ((if v > 1000 {
        1000
    } else {
        v
    }) * 511 + 500) / 1000
}

/// The numbers among the words from `i` on, as steps, added to `done`.
pub open spec fn steps_from(w: Seq<Seq<char>>, i: int, done: Seq<int>) -> Seq<int>
    decreases w.len() - i,
{
    if i >= w.len() {
        done
    } else {
        steps_from(
            w,
            i + 1,
            match uint(w[i], u32::MAX as int) {
                Some(n) => done.push(step(n)),
                None => done,
            },
        )
    }
}

/// The place of a box: four numbers.
pub open spec fn box_of(raw: Seq<char>) -> Option<Location> {
    let s = steps_from(words_of(raw), 0, seq![]);
    if s.len() == 4 {
        Some(
            Location {
                left: s[0] as u16,
                top: s[1] as u16,
                right: s[2] as u16,
                bottom: s[3] as u16,
            },
        )
    } else {
        None
    }
}

/// The place of a box.
pub fn parse_bbox(raw: &str) -> (r: Option<Location>)
    ensures
        r == box_of(raw@),
{
    let w = words(&chars_of(raw));
    let ghost v = texts(w@);
    let mut out: Vec<u16> = Vec::new();
    let ghost mut done: Seq<int> = seq![];
    let mut i: usize = 0;
    while i < w.len()
        invariant
            i <= w@.len(),
            v == texts(w@),
            steps_from(v, 0, seq![]) == steps_from(v, i as int, done),
            done.len() == out@.len(),
            forall|k: int| 0 <= k < done.len() ==> #[trigger] done[k] == out@[k],
        decreases w@.len() - i,
    {
        assert(v[i as int] == w@[i as int]@);
        match parse_uint(&w[i], u32::MAX as u128) {
            Some(n) => {
                let m: u32 = if n > 1000 {
                    1000
                } else {
                    n as u32
                };
                let s: u16 = ((m * 511 + 500) / 1000) as u16;
                assert(s == step(n as int));
                out.push(s);
                proof {
                    done = done.push(s as int);
                }
            },
            None => {},
        }
        i += 1;
    }
    if out.len() == 4 {
        assert(done[0] == out@[0] && done[1] == out@[1] && done[2] == out@[2] && done[3]
            == out@[3]);
        Some(Location { left: out[0], top: out[1], right: out[2], bottom: out[3] })
    } else {
        None
    }
}

/// The steps are numbers from 0 to 511.
proof fn steps_are_bounded(w: Seq<Seq<char>>, i: int, done: Seq<int>)
    requires
        forall|k: int| 0 <= k < done.len() ==> 0 <= #[trigger] done[k] <= 511,
    ensures
        forall|k: int|
            0 <= k < steps_from(w, i, done).len() ==> 0 <= #[trigger] steps_from(w, i, done)[k]
                <= 511,
    decreases w.len() - i,
{
    if i < w.len() {
        match uint(w[i], u32::MAX as int) {
            Some(n) => {
                crate::text::uint_is_positive(w[i], u32::MAX as int);
                let next = done.push(step(n));
                assert forall|k: int| 0 <= k < next.len() implies 0 <= #[trigger] next[k] <= 511 by {
                    if k < done.len() {
                        assert(next[k] == done[k]);
                    }
                }
                steps_are_bounded(w, i + 1, next);
                assert(steps_from(w, i, done) == steps_from(w, i + 1, next));
            },
            None => {
                steps_are_bounded(w, i + 1, done);
                assert(steps_from(w, i, done) == steps_from(w, i + 1, done));
            },
        }
    }
}

/// Every box lies on the grid of location tokens: its four sides are between
/// 0 and 511.
pub proof fn boxes_lie_on_the_grid(raw: Seq<char>)
    ensures
        box_of(raw) is Some ==> {
            let b = box_of(raw)->0;
            b.left <= 511 && b.top <= 511 && b.right <= 511 && b.bottom <= 511
        },
{
    let s = steps_from(words_of(raw), 0, seq![]);
    steps_are_bounded(words_of(raw), 0, seq![]);
    if s.len() == 4 {
        assert(0 <= s[0] <= 511 && 0 <= s[1] <= 511 && 0 <= s[2] <= 511 && 0 <= s[3] <= 511);
    }
}

// ------------------------------------------------------------ text

/// A text with its character entities as characters.
pub open spec fn decoded(s: Seq<char>) -> Seq<char> {
    let a = swapped(s, "&lt;"@, "<"@);
    let b = swapped(a, "&gt;"@, ">"@);
    let c = swapped(b, "&quot;"@, "\""@);
    let d = swapped(c, "&#39;"@, "'"@);
    let e = swapped(d, "&nbsp;"@, " "@);
    swapped(e, "&amp;"@, "&"@)
}

/// A text without tags: its entities are characters, and single spaces stand
/// between its words.
pub open spec fn worded(s: Seq<char>) -> Seq<char> {
    joined(words_of(decoded(s)), " "@)
}

/// A text without tags as plain words.
pub fn tidy_words(s: &str) -> (r: Vec<char>)
    ensures
        r@ == worded(s@),
{
    let a = swap_text(&chars_of(s), "&lt;", "<");
    let b = swap_text(&a, "&gt;", ">");
    let c = swap_text(&b, "&quot;", "\"");
    let d = swap_text(&c, "&#39;", "'");
    let e = swap_text(&d, "&nbsp;", " ");
    let f = swap_text(&e, "&amp;", "&");
    join(&words(&f), " ")
}

/// The text of HTML: a line break is a space, and other tags are dropped.
pub open spec fn stripped(html: Seq<char>) -> Seq<char> {
    worded(
        substituted("<[^>]+>"@, substituted("(?i)<br\\s*/?>"@, html, " "@), ""@),
    )
}

/// The text of HTML.
pub fn strip_tags(html: &str) -> (r: Vec<char>)
    ensures
        r@ == stripped(html@),
{
    let spaced = substitute("(?i)<br\\s*/?>", html, " ");
    let text = substitute("<[^>]+>", spaced.as_str(), "");
    tidy_words(text.as_str())
}

// ------------------------------------------------------------ tables, lists

/// The table of a parsed fragment: its first.
pub open spec fn table_in(root: Option<ElementV>) -> Option<TableV> {
    match root {
        Some(r) => match first_tagged(under(r), "table"@) {
            Some(t) => table_of(t, r),
            None => None,
        },
        None => None,
    }
}

/// View of an optional table.
pub open spec fn opt_table(o: Option<Table>) -> Option<TableV> {
    match o {
        Some(t) => Some(table_view(t)),
        None => None,
    }
}

/// View of an optional element.
pub open spec fn opt_element(o: Option<Element>) -> Option<ElementV> {
    match o {
        Some(e) => Some(e@),
        None => None,
    }
}

/// The table of a parsed fragment.
pub fn first_table(root: &Option<Element>) -> (r: Option<Table>)
    ensures
        opt_table(r) == table_in(opt_element(*root)),
{
    match root {
        Some(e) => match find_tagged(&descendants(e), "table") {
            Some(t) => parse_table(t, e),
            None => None,
        },
        None => None,
    }
}

/// The texts of the items from `i` on that are not blank, added to `done`.
pub open spec fn items_from(v: Seq<ElementV>, i: int, done: Seq<Seq<char>>) -> Seq<Seq<char>>
    decreases v.len() - i,
{
    if i >= v.len() {
        done
    } else {
        let t = joined(words_of(all_text(v[i])), " "@);
        items_from(
            v,
            i + 1,
            if v[i].tag == "li"@ && t.len() > 0 {
                done.push(t)
            } else {
                done
            },
        )
    }
}

/// The texts of the items of a parsed fragment.
pub open spec fn list_in(root: Option<ElementV>) -> Seq<Seq<char>> {
    match root {
        Some(r) => items_from(under(r), 0, seq![]),
        None => seq![],
    }
}

/// The texts of the items of a parsed fragment.
pub fn list_items(root: &Option<Element>) -> (r: Vec<Vec<char>>)
    ensures
        texts(r@) == list_in(opt_element(*root)),
{
    let mut out: Vec<Vec<char>> = Vec::new();
    assert(texts(out@) =~= seq![]);
    match root {
        Some(e) => {
            let v = descendants(e);
            let ghost w = refs_view(v@);
            let mut i: usize = 0;
            while i < v.len()
                invariant
                    i <= v@.len(),
                    w == refs_view(v@),
                    items_from(w, 0, seq![]) == items_from(w, i as int, texts(out@)),
                decreases v@.len() - i,
            {
                broadcast use texts_push;

                assert(w[i as int] == v@[i as int]@);
                if has_tag(v[i], "li") {
                    let t = join(&words(&text_of(v[i])), " ");
                    if t.len() > 0 {
                        out.push(t);
                    }
                }
                i += 1;
            }
        },
        None => {},
    }
    out
}

// ------------------------------------------------------------ blocks

/// The items of a list as nodes, from `i` on, added to `nodes`.
pub open spec fn item_nodes(v: Seq<Seq<char>>, i: int, nodes: Seq<NodeV>) -> Seq<NodeV>
    decreases v.len() - i,
{
    if i >= v.len() {
        nodes
    } else {
        item_nodes(
            v,
            i + 1,
            nodes.push(
                NodeV::ListItem {
                    ordered: false,
                    number: 0,
                    first_in_list: i == 0,
                    text: escaped(v[i]),
                    level: 0,
                    marker: None,
                    href: None,
                    layer: None,
                },
            ),
        )
    }
}

/// What a block of a label holds: whether its HTML opens a table, that table,
/// the items of its list, and its text.
pub struct Block {
    pub has_table: bool,
    pub table: Option<Table>,
    pub items: Vec<Vec<char>>,
    pub text: Vec<char>,
}

/// View of a [`Block`].
#[verifier::ext_equal]
pub struct BlockV {
    pub has_table: bool,
    pub table: Option<TableV>,
    pub items: Seq<Seq<char>>,
    pub text: Seq<char>,
}

impl View for Block {
    type V = BlockV;

    open spec fn view(&self) -> BlockV {
        BlockV {
            has_table: self.has_table,
            table: opt_table(self.table),
            items: texts(self.items@),
            text: self.text@,
        }
    }
}

/// One node, unless its text is empty.
pub open spec fn unless_empty(text: Seq<char>, n: NodeV) -> Seq<NodeV> {
    if text.len() == 0 {
        seq![]
    } else {
        seq![n]
    }
}

/// The nodes of a block with a label.
pub open spec fn block_nodes(label: Seq<char>, b: BlockV) -> Seq<NodeV> {
    let t = escaped(b.text);
    if (label == "Table"@ || label == "Form"@) && b.has_table {
        match b.table {
            Some(x) => seq![NodeV::Table(x)],
            None => seq![],
        }
    } else if label == "List-Group"@ {
        item_nodes(
            if b.items.len() == 0 {
                seq![b.text]
            } else {
                b.items
            },
            0,
            seq![],
        )
    } else if label == "Figure"@ || label == "Image"@ || label == "Diagram"@ {
        seq![NodeV::Picture { caption: None, caption_href: None, caption_parent: CaptionParent::Body, sources: seq![] }]
    } else if label == "Title"@ {
        unless_empty(b.text, NodeV::Heading { level: 1, text: t })
    } else if label == "Section-Header"@ {
        unless_empty(b.text, NodeV::Heading { level: 2, text: t })
    } else if label == "Page-Header"@ || label == "Page-Footer"@ {
        unless_empty(
            b.text,
            NodeV::Furniture {
                layer: ContentLayer::Furniture,
                inner: Box::new(NodeV::Paragraph { text: t }),
            },
        )
    } else if label == "Equation-Block"@ || label == "Chemical-Block"@ {
        unless_empty(b.text, NodeV::Formula { latex: b.text, orig: b.text })
    } else if label == "Code-Block"@ {
        unless_empty(b.text, NodeV::Code { language: None, text: b.text })
    } else {
        unless_empty(b.text, NodeV::Paragraph { text: t })
    }
}

fn add_items(v: &Vec<Vec<char>>, nodes: &mut Vec<Node>)
    ensures
        nodes_view(final(nodes)@) == item_nodes(texts(v@), 0, nodes_view(old(nodes)@)),
{
    let ghost w = texts(v@);
    let ghost first = nodes_view(nodes@);
    let mut i: usize = 0;
    while i < v.len()
        invariant
            i <= v@.len(),
            w == texts(v@),
            item_nodes(w, 0, first) == item_nodes(w, i as int, nodes_view(nodes@)),
        decreases v@.len() - i,
    {
        assert(w[i as int] == v@[i as int]@);
        push_node(
            nodes,
            Node::ListItem {
                ordered: false,
                number: 0,
                first_in_list: i == 0,
                text: string_of(&escape_text(&v[i])),
                level: 0,
                marker: None,
                href: None,
                layer: None,
            },
        );
        i += 1;
    }
}

/// The nodes of a block with a label.
pub fn nodes_of(label: &str, b: Block) -> (r: Vec<Node>)
    ensures
        nodes_view(r@) == block_nodes(label@, b@),
{
    let mut nodes: Vec<Node> = Vec::new();
    assert(nodes_view(nodes@) =~= seq![]);
    let ghost want = block_nodes(label@, b@);
    if (str_eq(label, "Table") || str_eq(label, "Form")) && b.has_table {
        match b.table {
            Some(t) => {
                push_node(&mut nodes, Node::Table(t));
            },
            None => {},
        }
        assert(nodes_view(nodes@) =~= want);
        return nodes;
    }
    if str_eq(label, "List-Group") {
        assert(texts(b.items@).len() == b.items@.len());
        if b.items.len() == 0 {
            let mut one: Vec<Vec<char>> = Vec::new();
            one.push(b.text);
            assert(texts(one@) =~= seq![b@.text]);
            add_items(&one, &mut nodes);
        } else {
            add_items(&b.items, &mut nodes);
        }
        return nodes;
    }
    if str_eq(label, "Figure") || str_eq(label, "Image") || str_eq(label, "Diagram") {
        let sources: Vec<String> = Vec::new();
        assert(strs(sources@) =~= seq![]);
        push_node(&mut nodes, Node::Picture { caption: None, caption_href: None, caption_parent: CaptionParent::Body, sources });
        assert(nodes_view(nodes@) =~= want);
        return nodes;
    }
    if b.text.len() == 0 {
        return nodes;
    }
    let t = escape_text(&b.text);
    let n = if str_eq(label, "Title") {
        heading(1, &t)
    } else if str_eq(label, "Section-Header") {
        heading(2, &t)
    } else if str_eq(label, "Page-Header") || str_eq(label, "Page-Footer") {
        Node::Furniture { layer: ContentLayer::Furniture, inner: Box::new(paragraph(&t)) }
    } else if str_eq(label, "Equation-Block") || str_eq(label, "Chemical-Block") {
        Node::Formula { latex: string_of(&b.text), orig: string_of(&b.text) }
    } else if str_eq(label, "Code-Block") {
        Node::Code { language: None, text: string_of(&b.text) }
    } else {
        paragraph(&t)
    };
    push_node(&mut nodes, n);
    assert(nodes_view(nodes@) =~= want);
    nodes
}

/// What a block of HTML holds.
pub open spec fn block_of(inner: Seq<char>) -> BlockV {
    let root = root_of(fragment_items(inner));
    BlockV {
        has_table: contains_from(lowercase(inner), "<table"@, 0),
        table: table_in(root),
        items: list_in(root),
        text: stripped(inner),
    }
}

/// The nodes of a block of HTML with a label.
pub fn nodes_for(label: &str, inner: &str) -> (r: Vec<Node>)
    ensures
        nodes_view(r@) == block_nodes(label@, block_of(inner@)),
{
    let root = build_tree(&parse_fragment_items(inner));
    let b = Block {
        has_table: contains(&chars_of(to_lowercase(inner).as_str()), "<table"),
        table: first_table(&root),
        items: list_items(&root),
        text: strip_tags(inner),
    };
    nodes_of(label, b)
}

/// A node at a place, if there is one.
pub open spec fn located(n: NodeV, at: Option<Location>) -> NodeV {
    match at {
        Some(location) => NodeV::Located { location, inner: Box::new(n) },
        None => n,
    }
}

/// The nodes from `i` on at a place, added to `done`.
pub open spec fn placed_from(v: Seq<NodeV>, i: int, at: Option<Location>, done: Seq<NodeV>) -> Seq<
    NodeV,
>
    decreases v.len() - i,
{
    if i >= v.len() {
        done
    } else {
        placed_from(v, i + 1, at, done.push(located(v[i], at)))
    }
}

fn place(v: Vec<Node>, at: Option<Location>, nodes: &mut Vec<Node>)
    ensures
        nodes_view(final(nodes)@) == placed_from(
            nodes_view(v@),
            0,
            at,
            nodes_view(old(nodes)@),
        ),
{
    let ghost w = nodes_view(v@);
    let ghost first = nodes_view(nodes@);
    let mut v = v;
    let n: usize = v.len();
    let mut i: usize = 0;
    while i < n
        invariant
            i <= n,
            v@.len() == n,
            w.len() == n,
            forall|k: int| i <= k < n ==> node_view(#[trigger] v@[k]) == w[k],
            placed_from(w, 0, at, first) == placed_from(w, i as int, at, nodes_view(nodes@)),
        decreases n - i,
    {
        assert(node_view(v@[i as int]) == w[i as int]);
        let mut x = Node::PageBreak;
        std::mem::swap(&mut x, &mut v[i]);
        match at {
            Some(location) => {
                push_node(nodes, Node::Located { location, inner: Box::new(x) });
            },
            None => {
                push_node(nodes, x);
            },
        }
        i += 1;
    }
}

/// The pattern of a block.
pub open spec fn div_pattern() -> Seq<char> {
    "(?s)<div\\s+([^>]*?)>(.*?)</div>"@
}

/// The nodes with those of the blocks from `i` on added. A block without a
/// box or a label is dropped.
pub open spec fn blocks_from(v: Seq<(Seq<char>, Seq<char>)>, i: int, nodes: Seq<NodeV>) -> Seq<NodeV>
    decreases v.len() - i,
{
    if i >= v.len() {
        nodes
    } else {
        blocks_from(
            v,
            i + 1,
            match (
                captured_text("data-bbox=\"(\\d+\\s+\\d+\\s+\\d+\\s+\\d+)\""@, v[i].0),
                captured_text("data-label=\"([^\"]+)\""@, v[i].0),
            ) {
                (Some(raw), Some(label)) => placed_from(
                    block_nodes(label, block_of(v[i].1)),
                    0,
                    box_of(raw),
                    nodes,
                ),
                _ => nodes,
            },
        )
    }
}

/// The nodes with those of a page added. A text that does not look like layout
/// HTML holds no block.
pub open spec fn with_page_blocks(text: Seq<char>, nodes: Seq<NodeV>) -> Seq<NodeV> {
    if is_layout(text) {
        blocks_from(captured_pairs(div_pattern(), text), 0, nodes)
    } else {
        nodes
    }
}

fn parse_fragment(content: &str, nodes: &mut Vec<Node>)
    ensures
        nodes_view(final(nodes)@) == with_page_blocks(content@, nodes_view(old(nodes)@)),
{
    if !looks_like_chandra(content) {
        return;
    }
    let v = capture_pairs("(?s)<div\\s+([^>]*?)>(.*?)</div>", content);
    let ghost w = pairs_view(v@);
    let ghost first = nodes_view(nodes@);
    let mut i: usize = 0;
    while i < v.len()
        invariant
            i <= v@.len(),
            w == pairs_view(v@),
            blocks_from(w, 0, first) == blocks_from(w, i as int, nodes_view(nodes@)),
        decreases v@.len() - i,
    {
        assert(w[i as int] == (v@[i as int].0@, v@[i as int].1@));
        let attrs = v[i].0.as_str();
        let raw = capture_text("data-bbox=\"(\\d+\\s+\\d+\\s+\\d+\\s+\\d+)\"", attrs);
        let label = capture_text("data-label=\"([^\"]+)\"", attrs);
        match raw {
            Some(r) => match label {
                Some(l) => {
                    let found = nodes_for(l.as_str(), v[i].1.as_str());
                    place(found, parse_bbox(r.as_str()), nodes);
                },
                None => {},
            },
            None => {},
        }
        i += 1;
    }
}

/// The nodes of the pages from `i` on, added to `nodes`.
pub open spec fn pages_from(v: Seq<Seq<char>>, i: int, nodes: Seq<NodeV>) -> Seq<NodeV>
    decreases v.len() - i,
{
    if i >= v.len() {
        nodes
    } else {
        pages_from(v, i + 1, with_page_blocks(v[i], nodes))
    }
}

/// No block is missed where a text is not taken for layout HTML: pages that do
/// not look like it have none.
pub proof fn other_texts_hold_no_block(v: Seq<Seq<char>>, i: int, nodes: Seq<NodeV>)
    requires
        0 <= i,
        forall|k: int| i <= k < v.len() ==> !is_layout(#[trigger] v[k]),
    ensures
        pages_from(v, i, nodes) == nodes,
    decreases v.len() - i,
{
    if i < v.len() {
        other_texts_hold_no_block(v, i + 1, nodes);
    }
}

/// The nodes of pages of layout HTML.
pub fn parse_chandra_pages(fragments: &Vec<String>) -> (r: Vec<Node>)
    ensures
        nodes_view(r@) == pages_from(strs(fragments@), 0, seq![]),
{
    let ghost w = strs(fragments@);
    let mut nodes: Vec<Node> = Vec::new();
    let mut i: usize = 0;
    assert(nodes_view(nodes@) =~= seq![]);
    while i < fragments.len()
        invariant
            i <= fragments@.len(),
            w == strs(fragments@),
            pages_from(w, 0, seq![]) == pages_from(w, i as int, nodes_view(nodes@)),
        decreases fragments@.len() - i,
    {
        assert(w[i as int] == fragments@[i as int]@);
        parse_fragment(fragments[i].as_str(), &mut nodes);
        i += 1;
    }
    nodes
}

} // verus!
