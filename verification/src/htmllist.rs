//! HTML lists.

use crate::document::{adds_items, nodes_view, opt, push_node, Node, NodeV};
use crate::inline::{
    collect_element, element_runs, finalize, finished, inline_text, is_hidden, is_hidden_el,
    no_runs, normalize_ws, render_inline_fmt, tidied, with_raw_text, BufV, Fmt, RunBuf,
};
use crate::jats::next_level;
use crate::text::{
    chars_of, decimal, parse_uint, push_all, push_decimal, push_str, str_eq, string_of, strip, trim,
    uint,
};
use crate::tree::{
    descendants, has_tag, plain_attr, plain_attr_of, refs_view, self_and_descendants,
    self_and_under, tree_view, trees_view, under, Element, ElementV, Tree, TreeV,
};
use vstd::prelude::*;

verus! {

/// Wrappers of a list item's text.
pub open spec fn is_wrapper(t: Seq<char>) -> bool {
    t == "p"@ || t == "div"@ || t == "section"@ || t == "article"@ || t == "blockquote"@
}

fn wrapper(t: &str) -> (r: bool)
    ensures
        r == is_wrapper(t@),
{
    str_eq(t, "p") || str_eq(t, "div") || str_eq(t, "section") || str_eq(t, "article") || str_eq(
        t,
        "blockquote",
    )
}

/// The tags of lists.
pub open spec fn is_list(t: Seq<char>) -> bool {
    t == "ul"@ || t == "ol"@ || t == "dl"@
}

fn list(t: &str) -> (r: bool)
    ensures
        r == is_list(t@),
{
    str_eq(t, "ul") || str_eq(t, "ol") || str_eq(t, "dl")
}

/// The target of the first link among the elements from `i` on: an anchor that
/// has a target.
pub open spec fn target_from(v: Seq<ElementV>, i: int) -> Option<Seq<char>>
    decreases v.len() - i,
{
    if i >= v.len() {
        None
    } else {
        match plain_attr_of(v[i], "href"@) {
            Some(h) => if v[i].tag == "a"@ && h.len() > 0 {
                Some(h)
            } else {
                target_from(v, i + 1)
            },
            None => target_from(v, i + 1),
        }
    }
}

/// The target of an element's first link: its own, or that of one inside it.
pub open spec fn first_target(e: ElementV) -> Option<Seq<char>> {
    target_from(self_and_under(e), 0)
}

/// The target of an element's first link.
pub fn first_href(e: &Element) -> (r: Option<String>)
    ensures
        opt(r) == first_target(e@),
{
    let v = self_and_descendants(e);
    let ghost w = refs_view(v@);
    let mut i: usize = 0;
    while i < v.len()
        invariant
            i <= v@.len(),
            w == refs_view(v@),
            w == self_and_under(e@),
            target_from(w, 0) == target_from(w, i as int),
        decreases v@.len() - i,
    {
        assert(w[i as int] == v@[i as int]@);
        match plain_attr(v[i], "href") {
            Some(h) => {
                let t = chars_of(h);
                if has_tag(v[i], "a") && t.len() > 0 {
                    return Some(string_of(&t));
                }
            },
            None => {},
        }
        i += 1;
    }
    None
}

/// The text of a list item: the content of its wrappers with it, without its
/// lists and images.
pub open spec fn item_runs(ch: Seq<TreeV>, i: int, base: Fmt, b: BufV) -> BufV
    decreases ch, ch.len() - i,
{
    if i < 0 || i >= ch.len() {
        b
    } else {
        item_runs(
            ch,
            i + 1,
            base,
            match ch[i] {
                TreeV::Text(t) => with_raw_text(b, t, base, None),
                TreeV::Element(e) => if is_hidden_el(e) || is_list(e.tag) || e.tag == "img"@ {
                    b
                } else if is_wrapper(e.tag) {
                    item_runs(e.children, 0, base, b)
                } else {
                    element_runs(e, base, None, b)
                },
                TreeV::Other(_) => b,
            },
        )
    }
}

fn collect_li_inline(ch: &Vec<Tree>, base: Fmt, b: &mut RunBuf)
    ensures
        final(b)@ == item_runs(trees_view(ch@), 0, base, old(b)@),
    decreases ch,
{
    let ghost v = trees_view(ch@);
    let ghost first = b@;
    let mut i: usize = 0;
    while i < ch.len()
        invariant
            i <= ch@.len(),
            v == trees_view(ch@),
            item_runs(v, 0, base, first) == item_runs(v, i as int, base, b@),
        decreases ch@.len() - i,
    {
        assert(v[i as int] == tree_view(ch@[i as int]));
        match &ch[i] {
            Tree::Text(t) => {
                b.push_raw(t.as_str(), base, &None);
            },
            Tree::Element(e) => {
                if is_hidden(e) || list(e.tag.as_str()) || has_tag(e, "img") {
                } else if wrapper(e.tag.as_str()) {
                    collect_li_inline(&e.children, base, b);
                } else {
                    collect_element(e, base, &None, b);
                }
            },
            Tree::Other(_) => {},
        }
        i += 1;
    }
}

/// A text with the mark of an image added on a line of its own, below the
/// image's description.
pub open spec fn with_image(text: Seq<char>, img: ElementV) -> Seq<char> {
    (match plain_attr_of(img, "alt"@) {
        Some(alt) => if alt.len() == 0 {
            text.push('\n')
        } else {
            (text.push('\n') + tidied(alt)).push('\n')
        },
        None => text.push('\n'),
    }) + "<!-- image -->"@
}

fn fold_img(text: &mut Vec<char>, img: &Element)
    ensures
        final(text)@ == with_image(old(text)@, img@),
{
    text.push('\n');
    match plain_attr(img, "alt") {
        Some(alt) => {
            let v = chars_of(alt);
            if v.len() > 0 {
                push_all(text, &normalize_ws(&v));
                text.push('\n');
            }
        },
        None => {},
    }
    push_str(text, "<!-- image -->");
}

/// A text with the marks of the images among the elements from `i` on.
pub open spec fn with_images(v: Seq<ElementV>, i: int, text: Seq<char>) -> Seq<char>
    decreases v.len() - i,
{
    if i >= v.len() {
        text
    } else {
        with_images(
            v,
            i + 1,
            if v[i].tag == "img"@ {
                with_image(text, v[i])
            } else {
                text
            },
        )
    }
}

fn fold_images(e: &Element, text: &mut Vec<char>)
    ensures
        final(text)@ == with_images(under(e@), 0, old(text)@),
{
    let v = descendants(e);
    let ghost w = refs_view(v@);
    let ghost first = text@;
    let mut i: usize = 0;
    while i < v.len()
        invariant
            i <= v@.len(),
            w == refs_view(v@),
            with_images(w, 0, first) == with_images(w, i as int, text@),
        decreases v@.len() - i,
    {
        assert(w[i as int] == v@[i as int]@);
        if has_tag(v[i], "img") {
            fold_img(text, v[i]);
        }
        i += 1;
    }
}

/// A list item's text with the marks of its images, those of its wrappers
/// with them, but not those of its lists.
pub open spec fn item_images(ch: Seq<TreeV>, i: int, text: Seq<char>) -> Seq<char>
    decreases ch, ch.len() - i,
{
    if i < 0 || i >= ch.len() {
        text
    } else {
        item_images(
            ch,
            i + 1,
            match ch[i] {
                TreeV::Element(e) => if is_hidden_el(e) {
                    text
                } else if e.tag == "img"@ {
                    with_image(text, e)
                } else if is_list(e.tag) {
                    text
                } else if is_wrapper(e.tag) {
                    item_images(e.children, 0, text)
                } else {
                    with_images(under(e), 0, text)
                },
                _ => text,
            },
        )
    }
}

fn append_li_blocks(ch: &Vec<Tree>, text: &mut Vec<char>)
    ensures
        final(text)@ == item_images(trees_view(ch@), 0, old(text)@),
    decreases ch,
{
    let ghost v = trees_view(ch@);
    let ghost first = text@;
    let mut i: usize = 0;
    while i < ch.len()
        invariant
            i <= ch@.len(),
            v == trees_view(ch@),
            item_images(v, 0, first) == item_images(v, i as int, text@),
        decreases ch@.len() - i,
    {
        assert(v[i as int] == tree_view(ch@[i as int]));
        match &ch[i] {
            Tree::Element(e) => {
                if is_hidden(e) {
                } else if has_tag(e, "img") {
                    fold_img(text, e);
                } else if list(e.tag.as_str()) {
                } else if wrapper(e.tag.as_str()) {
                    append_li_blocks(&e.children, text);
                } else {
                    fold_images(e, text);
                }
            },
            _ => {},
        }
        i += 1;
    }
}

/// A list item.
pub open spec fn item(
    ordered: bool,
    number: u64,
    first: bool,
    text: Seq<char>,
    level: u8,
    marker: Option<Seq<char>>,
    href: Option<Seq<char>>,
) -> NodeV {
    NodeV::ListItem {
        ordered,
        number,
        first_in_list: first,
        text,
        level,
        marker,
        href,
        layer: None,
    }
}

/// The text of a list item, with its images.
pub open spec fn li_text(li: ElementV, base: Fmt) -> Seq<char> {
    item_images(li.children, 0, finished(item_runs(li.children, 0, base, no_runs()).md))
}

/// What is known of a list while its items are read: its kind, the number of
/// the next item, whether it has a start of its own, whether an item came,
/// and its level.
#[derive(Clone, Copy)]
pub struct ListState {
    pub ordered: bool,
    pub number: u64,
    pub marked: bool,
    pub first: bool,
    pub level: u8,
}

/// The start of a list.
pub open spec fn list_start(e: ElementV, ordered: bool, level: u8) -> ListState {
    let start = match plain_attr_of(e, "start"@) {
        Some(s) => uint(strip(s), u64::MAX as int),
        None => None,
    };
    ListState {
        ordered,
        number: if ordered && start is Some {
            start->0 as u64
        } else {
            1
        },
        marked: ordered && start is Some,
        first: level == 0,
        level,
    }
}

fn begin_list(e: &Element, ordered: bool, level: u8) -> (r: ListState)
    ensures
        r == list_start(e@, ordered, level),
{
    let start = match plain_attr(e, "start") {
        Some(s) => parse_uint(&trim(&chars_of(s)), u64::MAX as u128),
        None => None,
    };
    match start {
        Some(n) => if ordered {
            ListState { ordered, number: n as u64, marked: true, first: level == 0, level }
        } else {
            ListState { ordered, number: 1, marked: false, first: level == 0, level }
        },
        None => ListState { ordered, number: 1, marked: false, first: level == 0, level },
    }
}

/// The number behind a number. The last one that can be written stays.
pub open spec fn next_number(n: u64) -> u64 {
    if n == u64::MAX {
        n
    } else {
        (n + 1) as u64
    }
}

/// The nodes with the item of a list added, if it has text.
pub open spec fn with_li(li: ElementV, s: ListState, base: Fmt, nodes: Seq<NodeV>) -> Seq<NodeV> {
    let text = li_text(li, base);
    if text.len() == 0 {
        nodes
    } else {
        nodes.push(
            item(
                s.ordered,
                s.number,
                s.first,
                text,
                s.level,
                if s.marked {
                    Some(decimal(s.number as int).push('.'))
                } else {
                    None
                },
                first_target(li),
            ),
        )
    }
}

/// The state behind an item.
pub open spec fn after_li(li: ElementV, s: ListState, base: Fmt) -> ListState {
    ListState {
        number: next_number(s.number),
        first: s.first && li_text(li, base).len() == 0,
        ..s
    }
}

/// The nodes of the items among the children from `i` on of a list, added to
/// `nodes`; the lists inside an item follow it.
pub open spec fn list_from(
    ch: Seq<TreeV>,
    i: int,
    s: ListState,
    base: Fmt,
    nodes: Seq<NodeV>,
) -> Seq<NodeV>
    decreases ch, ch.len() - i,
{
    if i < 0 || i >= ch.len() {
        nodes
    } else {
        match ch[i] {
            TreeV::Element(e) => if e.tag == "li"@ {
                list_from(
                    ch,
                    i + 1,
                    after_li(e, s, base),
                    base,
                    nested_from(e.children, 0, s.level, base, with_li(e, s, base, nodes)),
                )
            } else {
                list_from(ch, i + 1, s, base, nodes)
            },
            _ => list_from(ch, i + 1, s, base, nodes),
        }
    }
}

/// The nodes of the lists inside an item at `level`, those of its wrappers
/// with them.
pub open spec fn nested_from(
    ch: Seq<TreeV>,
    i: int,
    level: u8,
    base: Fmt,
    nodes: Seq<NodeV>,
) -> Seq<NodeV>
    decreases ch, ch.len() - i,
{
    if i < 0 || i >= ch.len() {
        nodes
    } else {
        nested_from(
            ch,
            i + 1,
            level,
            base,
            match ch[i] {
                TreeV::Element(e) => if is_hidden_el(e) {
                    nodes
                } else if e.tag == "ul"@ {
                    list_from(
                        e.children,
                        0,
                        list_start(e, false, next_level(level)),
                        base,
                        nodes,
                    )
                } else if e.tag == "ol"@ {
                    list_from(
                        e.children,
                        0,
                        list_start(e, true, next_level(level)),
                        base,
                        nodes,
                    )
                } else if e.tag == "dl"@ {
                    dl_from(e.children, 0, level, base, nodes)
                } else if is_wrapper(e.tag) {
                    nested_from(e.children, 0, level, base, nodes)
                } else {
                    nodes
                },
                _ => nodes,
            },
        )
    }
}

/// The text of a description, without its lists.
pub open spec fn dd_runs(ch: Seq<TreeV>, i: int, base: Fmt, b: BufV) -> BufV
    decreases ch.len() - i,
{
    if i < 0 || i >= ch.len() {
        b
    } else {
        dd_runs(
            ch,
            i + 1,
            base,
            match ch[i] {
                TreeV::Text(t) => with_raw_text(b, t, base, None),
                TreeV::Element(e) => if is_list(e.tag) {
                    b
                } else {
                    element_runs(e, base, None, b)
                },
                TreeV::Other(_) => b,
            },
        )
    }
}

/// The nodes with a plain item added, if it has text.
pub open spec fn with_plain_item(
    nodes: Seq<NodeV>,
    text: Seq<char>,
    level: u8,
    href: Option<Seq<char>>,
) -> Seq<NodeV> {
    if text.len() == 0 {
        nodes
    } else {
        nodes.push(item(false, 1, false, text, level, None, href))
    }
}

/// The nodes of a description list: a term is a bold item, and its
/// description an item one level deeper, with the lists inside it.
pub open spec fn dl_from(
    ch: Seq<TreeV>,
    i: int,
    level: u8,
    base: Fmt,
    nodes: Seq<NodeV>,
) -> Seq<NodeV>
    decreases ch, ch.len() - i,
{
    if i < 0 || i >= ch.len() {
        nodes
    } else {
        dl_from(
            ch,
            i + 1,
            level,
            base,
            match ch[i] {
                TreeV::Element(e) => if e.tag == "dt"@ {
                    with_plain_item(
                        nodes,
                        inline_text(e.children, (Fmt { bold: true, ..base })),
                        level,
                        first_target(e),
                    )
                } else if e.tag == "dd"@ {
                    dd_lists(
                        e.children,
                        0,
                        next_level(level),
                        base,
                        with_plain_item(
                            nodes,
                            finished(dd_runs(e.children, 0, base, no_runs()).md),
                            next_level(level),
                            first_target(e),
                        ),
                    )
                } else {
                    nodes
                },
                _ => nodes,
            },
        )
    }
}

/// The nodes of the lists directly inside a description.
pub open spec fn dd_lists(
    ch: Seq<TreeV>,
    i: int,
    level: u8,
    base: Fmt,
    nodes: Seq<NodeV>,
) -> Seq<NodeV>
    decreases ch, ch.len() - i,
{
    if i < 0 || i >= ch.len() {
        nodes
    } else {
        dd_lists(
            ch,
            i + 1,
            level,
            base,
            match ch[i] {
                TreeV::Element(e) => if e.tag == "dl"@ {
                    dl_from(e.children, 0, level, base, nodes)
                } else if e.tag == "ol"@ {
                    list_from(e.children, 0, list_start(e, true, level), base, nodes)
                } else if e.tag == "ul"@ {
                    list_from(e.children, 0, list_start(e, false, level), base, nodes)
                } else {
                    nodes
                },
                _ => nodes,
            },
        )
    }
}

/// A list adds list items, those of the lists inside it with them, and nothing
/// else; what stands before it stays.
pub proof fn lists_add_only_items(
    ch: Seq<TreeV>,
    i: int,
    s: ListState,
    base: Fmt,
    nodes: Seq<NodeV>,
)
    ensures
        adds_items(nodes, list_from(ch, i, s, base, nodes)),
    decreases ch, ch.len() - i,
{
    if 0 <= i < ch.len() {
        match ch[i] {
            TreeV::Element(e) => if e.tag == "li"@ {
                let one = with_li(e, s, base, nodes);
                let two = nested_from(e.children, 0, s.level, base, one);
                nested_lists_add_only_items(e.children, 0, s.level, base, one);
                lists_add_only_items(ch, i + 1, after_li(e, s, base), base, two);
            } else {
                lists_add_only_items(ch, i + 1, s, base, nodes);
            },
            _ => lists_add_only_items(ch, i + 1, s, base, nodes),
        }
    }
}

proof fn nested_lists_add_only_items(
    ch: Seq<TreeV>,
    i: int,
    level: u8,
    base: Fmt,
    nodes: Seq<NodeV>,
)
    ensures
        adds_items(nodes, nested_from(ch, i, level, base, nodes)),
    decreases ch, ch.len() - i,
{
    if 0 <= i < ch.len() {
        match ch[i] {
            TreeV::Element(e) => {
                let deep = next_level(level);
                let next = if is_hidden_el(e) {
                    nodes
                } else if e.tag == "ul"@ {
                    lists_add_only_items(e.children, 0, list_start(e, false, deep), base, nodes);
                    list_from(e.children, 0, list_start(e, false, deep), base, nodes)
                } else if e.tag == "ol"@ {
                    lists_add_only_items(e.children, 0, list_start(e, true, deep), base, nodes);
                    list_from(e.children, 0, list_start(e, true, deep), base, nodes)
                } else if e.tag == "dl"@ {
                    description_lists_add_only_items(e.children, 0, level, base, nodes);
                    dl_from(e.children, 0, level, base, nodes)
                } else if is_wrapper(e.tag) {
                    nested_lists_add_only_items(e.children, 0, level, base, nodes);
                    nested_from(e.children, 0, level, base, nodes)
                } else {
                    nodes
                };
                nested_lists_add_only_items(ch, i + 1, level, base, next);
            },
            _ => nested_lists_add_only_items(ch, i + 1, level, base, nodes),
        }
    }
}

/// A description list adds list items, those of the lists inside it with them,
/// and nothing else; what stands before it stays.
pub proof fn description_lists_add_only_items(
    ch: Seq<TreeV>,
    i: int,
    level: u8,
    base: Fmt,
    nodes: Seq<NodeV>,
)
    ensures
        adds_items(nodes, dl_from(ch, i, level, base, nodes)),
    decreases ch, ch.len() - i,
{
    if 0 <= i < ch.len() {
        match ch[i] {
            TreeV::Element(e) => if e.tag == "dt"@ {
                let bold = Fmt { bold: true, ..base };
                let one = with_plain_item(
                    nodes,
                    inline_text(e.children, bold),
                    level,
                    first_target(e),
                );
                description_lists_add_only_items(ch, i + 1, level, base, one);
            } else if e.tag == "dd"@ {
                let deep = next_level(level);
                let text = finished(dd_runs(e.children, 0, base, no_runs()).md);
                let one = with_plain_item(nodes, text, deep, first_target(e));
                inner_lists_add_only_items(e.children, 0, deep, base, one);
                let two = dd_lists(e.children, 0, deep, base, one);
                description_lists_add_only_items(ch, i + 1, level, base, two);
            } else {
                description_lists_add_only_items(ch, i + 1, level, base, nodes);
            },
            _ => description_lists_add_only_items(ch, i + 1, level, base, nodes),
        }
    }
}

proof fn inner_lists_add_only_items(
    ch: Seq<TreeV>,
    i: int,
    level: u8,
    base: Fmt,
    nodes: Seq<NodeV>,
)
    ensures
        adds_items(nodes, dd_lists(ch, i, level, base, nodes)),
    decreases ch, ch.len() - i,
{
    if 0 <= i < ch.len() {
        match ch[i] {
            TreeV::Element(e) => {
                let next = if e.tag == "dl"@ {
                    description_lists_add_only_items(e.children, 0, level, base, nodes);
                    dl_from(e.children, 0, level, base, nodes)
                } else if e.tag == "ol"@ {
                    lists_add_only_items(e.children, 0, list_start(e, true, level), base, nodes);
                    list_from(e.children, 0, list_start(e, true, level), base, nodes)
                } else if e.tag == "ul"@ {
                    lists_add_only_items(e.children, 0, list_start(e, false, level), base, nodes);
                    list_from(e.children, 0, list_start(e, false, level), base, nodes)
                } else {
                    nodes
                };
                inner_lists_add_only_items(ch, i + 1, level, base, next);
            },
            _ => inner_lists_add_only_items(ch, i + 1, level, base, nodes),
        }
    }
}

fn deeper(level: u8) -> (r: u8)
    ensures
        r == next_level(level),
{
    if level == 255 {
        255
    } else {
        level + 1
    }
}

fn add_li(li: &Element, s: &ListState, base: Fmt, nodes: &mut Vec<Node>) -> (r: ListState)
    ensures
        nodes_view(final(nodes)@) == with_li(li@, *s, base, nodes_view(old(nodes)@)),
        r == after_li(li@, *s, base),
{
    let mut b = RunBuf::new();
    collect_li_inline(&li.children, base, &mut b);
    let mut text = finalize(&b.md);
    append_li_blocks(&li.children, &mut text);
    assert(text@ == li_text(li@, base));
    let some = text.len() > 0;
    if some {
        let marker = if s.marked {
            let mut m: Vec<char> = Vec::new();
            push_decimal(&mut m, s.number as u128);
            m.push('.');
            assert(m@ =~= decimal(s.number as int).push('.'));
            Some(string_of(&m))
        } else {
            None
        };
        push_node(
            nodes,
            Node::ListItem {
                ordered: s.ordered,
                number: s.number,
                first_in_list: s.first,
                text: string_of(&text),
                level: s.level,
                marker,
                href: first_href(li),
                layer: None,
            },
        );
    }
    ListState {
        ordered: s.ordered,
        number: if s.number == u64::MAX {
            s.number
        } else {
            s.number + 1
        },
        marked: s.marked,
        first: s.first && !some,
        level: s.level,
    }
}

fn add_plain_item(nodes: &mut Vec<Node>, text: &Vec<char>, level: u8, href: Option<String>)
    ensures
        nodes_view(final(nodes)@) == with_plain_item(
            nodes_view(old(nodes)@),
            text@,
            level,
            opt(href),
        ),
{
    if text.len() > 0 {
        push_node(
            nodes,
            Node::ListItem {
                ordered: false,
                number: 1,
                first_in_list: false,
                text: string_of(text),
                level,
                marker: None,
                href,
                layer: None,
            },
        );
    }
}

/// Adds the items of a list.
pub fn walk_list(e: &Element, ordered: bool, nodes: &mut Vec<Node>, level: u8, base: Fmt)
    ensures
        nodes_view(final(nodes)@) == list_from(
            e@.children,
            0,
            list_start(e@, ordered, level),
            base,
            nodes_view(old(nodes)@),
        ),
    decreases e,
{
    let mut s = begin_list(e, ordered, level);
    let ghost v = e@.children;
    let ghost want = list_from(v, 0, s, base, nodes_view(nodes@));
    let mut i: usize = 0;
    while i < e.children.len()
        invariant
            i <= e.children@.len(),
            v == trees_view(e.children@),
            want == list_from(v, i as int, s, base, nodes_view(nodes@)),
        decreases e.children@.len() - i,
    {
        assert(v[i as int] == tree_view(e.children@[i as int]));
        match &e.children[i] {
            Tree::Element(c) => {
                if has_tag(c, "li") {
                    let level: u8 = s.level;
                    s = add_li(c, &s, base, nodes);
                    walk_nested(&c.children, nodes, level, base);
                }
            },
            _ => {},
        }
        i += 1;
    }
}

fn walk_nested(ch: &Vec<Tree>, nodes: &mut Vec<Node>, level: u8, base: Fmt)
    ensures
        nodes_view(final(nodes)@) == nested_from(
            trees_view(ch@),
            0,
            level,
            base,
            nodes_view(old(nodes)@),
        ),
    decreases ch,
{
    let ghost v = trees_view(ch@);
    let ghost first = nodes_view(nodes@);
    let mut i: usize = 0;
    while i < ch.len()
        invariant
            i <= ch@.len(),
            v == trees_view(ch@),
            nested_from(v, 0, level, base, first) == nested_from(
                v,
                i as int,
                level,
                base,
                nodes_view(nodes@),
            ),
        decreases ch@.len() - i,
    {
        assert(v[i as int] == tree_view(ch@[i as int]));
        match &ch[i] {
            Tree::Element(e) => {
                if is_hidden(e) {
                } else if has_tag(e, "ul") {
                    walk_list(e, false, nodes, deeper(level), base);
                } else if has_tag(e, "ol") {
                    walk_list(e, true, nodes, deeper(level), base);
                } else if has_tag(e, "dl") {
                    walk_dl(&e.children, nodes, level, base);
                } else if wrapper(e.tag.as_str()) {
                    walk_nested(&e.children, nodes, level, base);
                }
            },
            _ => {},
        }
        i += 1;
    }
}

fn dd_text(ch: &Vec<Tree>, base: Fmt) -> (r: Vec<char>)
    ensures
        r@ == finished(dd_runs(trees_view(ch@), 0, base, no_runs()).md),
{
    let ghost v = trees_view(ch@);
    let mut b = RunBuf::new();
    let mut i: usize = 0;
    while i < ch.len()
        invariant
            i <= ch@.len(),
            v == trees_view(ch@),
            dd_runs(v, 0, base, no_runs()) == dd_runs(v, i as int, base, b@),
        decreases ch@.len() - i,
    {
        assert(v[i as int] == tree_view(ch@[i as int]));
        match &ch[i] {
            Tree::Text(t) => {
                b.push_raw(t.as_str(), base, &None);
            },
            Tree::Element(e) => {
                if !list(e.tag.as_str()) {
                    collect_element(e, base, &None, &mut b);
                }
            },
            Tree::Other(_) => {},
        }
        i += 1;
    }
    finalize(&b.md)
}

/// Adds the items of a description list.
pub fn walk_dl(ch: &Vec<Tree>, nodes: &mut Vec<Node>, level: u8, base: Fmt)
    ensures
        nodes_view(final(nodes)@) == dl_from(
            trees_view(ch@),
            0,
            level,
            base,
            nodes_view(old(nodes)@),
        ),
    decreases ch,
{
    let ghost v = trees_view(ch@);
    let ghost first = nodes_view(nodes@);
    let mut i: usize = 0;
    while i < ch.len()
        invariant
            i <= ch@.len(),
            v == trees_view(ch@),
            dl_from(v, 0, level, base, first) == dl_from(
                v,
                i as int,
                level,
                base,
                nodes_view(nodes@),
            ),
        decreases ch@.len() - i,
    {
        assert(v[i as int] == tree_view(ch@[i as int]));
        match &ch[i] {
            Tree::Element(e) => {
                if has_tag(e, "dt") {
                    let text = render_inline_fmt(&e.children, Fmt { bold: true, ..base });
                    add_plain_item(nodes, &text, level, first_href(e));
                } else if has_tag(e, "dd") {
                    walk_dd(e, nodes, deeper(level), base);
                }
            },
            _ => {},
        }
        i += 1;
    }
}

fn walk_dd(e: &Element, nodes: &mut Vec<Node>, level: u8, base: Fmt)
    ensures
        nodes_view(final(nodes)@) == dd_lists(
            e@.children,
            0,
            level,
            base,
            with_plain_item(
                nodes_view(old(nodes)@),
                finished(dd_runs(e@.children, 0, base, no_runs()).md),
                level,
                first_target(e@),
            ),
        ),
    decreases e,
{
    let text = dd_text(&e.children, base);
    add_plain_item(nodes, &text, level, first_href(e));
    let ghost v = e@.children;
    let ghost first = nodes_view(nodes@);
    let mut i: usize = 0;
    while i < e.children.len()
        invariant
            i <= e.children@.len(),
            v == trees_view(e.children@),
            dd_lists(v, 0, level, base, first) == dd_lists(
                v,
                i as int,
                level,
                base,
                nodes_view(nodes@),
            ),
        decreases e.children@.len() - i,
    {
        assert(v[i as int] == tree_view(e.children@[i as int]));
        match &e.children[i] {
            Tree::Element(c) => {
                if has_tag(c, "dl") {
                    walk_dl(&c.children, nodes, level, base);
                } else if has_tag(c, "ol") {
                    walk_list(c, true, nodes, level, base);
                } else if has_tag(c, "ul") {
                    walk_list(c, false, nodes, level, base);
                }
            },
            _ => {},
        }
        i += 1;
    }
}

} // verus!
