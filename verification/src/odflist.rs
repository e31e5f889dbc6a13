//! OpenDocument lists.
//!
//! An item's paragraphs are its text; the lists inside it follow one level
//! deeper. A list without text of its own gives way to the lists inside it,
//! and a list that opens with an item that only holds a list continues the
//! numbering of the list before it.

use crate::document::{adds_items, nodes_view, push_node, Node, NodeV};
use crate::jats::next_level;
use crate::odf::{
    clean_lines, collect_runs, levels_view, list_styles_view, one_line, para_runs, runs_text,
    runs_to_text, styles_view, Level, LevelV, ListStyle, ListStyleV, Style, StyleV,
};
use crate::text::{
    chars_of, copy, decimal, join, joined, push_all, push_decimal, same, str_eq, string_of, texts,
    texts_push,
};
use crate::tree::{attr, attr_of, has_tag, tree_view, trees_view, Element, ElementV, Tree, TreeV};
use vstd::prelude::*;

verus! {

/// The tags of lists.
pub open spec fn is_list(t: Seq<char>) -> bool {
    t == "list"@ || t == "ordered-list"@ || t == "unordered-list"@
}

/// Whether a tag is a list's.
pub fn is_list_tag(t: &str) -> (r: bool)
    ensures
        r == is_list(t@),
{
    str_eq(t, "list") || str_eq(t, "ordered-list") || str_eq(t, "unordered-list")
}

/// The tags of list items.
pub open spec fn is_item(t: Seq<char>) -> bool {
    t == "list-item"@ || t == "list-header"@
}

fn item_tag(t: &str) -> (r: bool)
    ensures
        r == is_item(t@),
{
    str_eq(t, "list-item") || str_eq(t, "list-header")
}

/// The texts of an item's paragraphs from child `i` on, added to `done`.
pub open spec fn item_parts(ch: Seq<TreeV>, i: int, st: Seq<StyleV>, done: Seq<Seq<char>>) -> Seq<
    Seq<char>,
>
    decreases ch.len() - i,
{
    if i >= ch.len() {
        done
    } else {
        item_parts(
            ch,
            i + 1,
            st,
            match ch[i] {
                TreeV::Element(e) => if e.tag == "p"@ || e.tag == "h"@ {
                    let t = one_line(runs_text(para_runs(e, st)));
                    if t.len() == 0 {
                        done
                    } else {
                        done.push(t)
                    }
                } else {
                    done
                },
                _ => done,
            },
        )
    }
}

/// The text of an item.
pub open spec fn item_text(e: ElementV, st: Seq<StyleV>) -> Seq<char> {
    joined(item_parts(e.children, 0, st, seq![]), " "@)
}

fn text_of_item(e: &Element, styles: &Vec<Style>) -> (r: Vec<char>)
    ensures
        r@ == item_text(e@, styles_view(styles@)),
{
    let ghost v = e@.children;
    let ghost st = styles_view(styles@);
    let mut out: Vec<Vec<char>> = Vec::new();
    let mut i: usize = 0;
    assert(texts(out@) =~= seq![]);
    while i < e.children.len()
        invariant
            i <= e.children@.len(),
            v == trees_view(e.children@),
            st == styles_view(styles@),
            item_parts(v, 0, st, seq![]) == item_parts(v, i as int, st, texts(out@)),
        decreases e.children@.len() - i,
    {
        broadcast use texts_push;

        assert(v[i as int] == tree_view(e.children@[i as int]));
        match &e.children[i] {
            Tree::Element(c) => {
                if has_tag(c, "p") || has_tag(c, "h") {
                    let t = clean_lines(&runs_to_text(&collect_runs(c, styles)));
                    if t.len() > 0 {
                        out.push(t);
                    }
                }
            },
            _ => {},
        }
        i += 1;
    }
    join(&out, " ")
}

/// Whether the children from `i` on, of a list (`inside`) or of an item, show
/// something: an item with text, or a list that does.
pub open spec fn renderable(ch: Seq<TreeV>, i: int, inside: bool, st: Seq<StyleV>) -> bool
    decreases ch, ch.len() - i,
{
    if i < 0 || i >= ch.len() {
        false
    } else {
        (match ch[i] {
            TreeV::Element(e) => if inside {
                is_item(e.tag) && (item_text(e, st).len() > 0 || renderable(
                    e.children,
                    0,
                    false,
                    st,
                ))
            } else {
                is_list(e.tag) && renderable(e.children, 0, true, st)
            },
            _ => false,
        }) || renderable(ch, i + 1, inside, st)
    }
}

fn has_renderable(ch: &Vec<Tree>, inside: bool, styles: &Vec<Style>) -> (r: bool)
    ensures
        r == renderable(trees_view(ch@), 0, inside, styles_view(styles@)),
    decreases ch,
{
    let ghost v = trees_view(ch@);
    let ghost st = styles_view(styles@);
    let mut i: usize = 0;
    while i < ch.len()
        invariant
            i <= ch@.len(),
            v == trees_view(ch@),
            st == styles_view(styles@),
            renderable(v, 0, inside, st) == renderable(v, i as int, inside, st),
        decreases ch@.len() - i,
    {
        assert(v[i as int] == tree_view(ch@[i as int]));
        match &ch[i] {
            Tree::Element(e) => {
                if inside {
                    if item_tag(e.tag.as_str()) && (text_of_item(e, styles).len() > 0
                        || has_renderable(&e.children, false, styles)) {
                        return true;
                    }
                } else if is_list_tag(e.tag.as_str()) && has_renderable(&e.children, true, styles) {
                    return true;
                }
            },
            _ => {},
        }
        i += 1;
    }
    false
}

/// Whether a list shows something.
pub fn list_has_renderable(e: &Element, styles: &Vec<Style>) -> (r: bool)
    ensures
        r == renderable(e@.children, 0, true, styles_view(styles@)),
{
    has_renderable(&e.children, true, styles)
}

/// Whether an item from child `i` on has text of its own.
pub open spec fn has_text(ch: Seq<TreeV>, i: int, st: Seq<StyleV>) -> bool
    decreases ch.len() - i,
{
    i < ch.len() && ((match ch[i] {
        TreeV::Element(e) => is_item(e.tag) && item_text(e, st).len() > 0,
        _ => false,
    }) || has_text(ch, i + 1, st))
}

fn list_has_direct_text(e: &Element, styles: &Vec<Style>) -> (r: bool)
    ensures
        r == has_text(e@.children, 0, styles_view(styles@)),
{
    let ghost v = e@.children;
    let ghost st = styles_view(styles@);
    let mut i: usize = 0;
    while i < e.children.len()
        invariant
            i <= e.children@.len(),
            v == trees_view(e.children@),
            st == styles_view(styles@),
            has_text(v, 0, st) == has_text(v, i as int, st),
        decreases e.children@.len() - i,
    {
        assert(v[i as int] == tree_view(e.children@[i as int]));
        match &e.children[i] {
            Tree::Element(c) => {
                if item_tag(c.tag.as_str()) && text_of_item(c, styles).len() > 0 {
                    return true;
                }
            },
            _ => {},
        }
        i += 1;
    }
    false
}

/// Whether the first item from child `i` on has no text but a list that shows
/// something.
pub open spec fn starts_nested(ch: Seq<TreeV>, i: int, st: Seq<StyleV>) -> bool
    decreases ch.len() - i,
{
    if i >= ch.len() {
        false
    } else {
        match ch[i] {
            TreeV::Element(e) => if is_item(e.tag) {
                item_text(e, st).len() == 0 && renderable(e.children, 0, false, st)
            } else {
                starts_nested(ch, i + 1, st)
            },
            _ => starts_nested(ch, i + 1, st),
        }
    }
}

fn list_starts_with_empty_nested(e: &Element, styles: &Vec<Style>) -> (r: bool)
    ensures
        r == starts_nested(e@.children, 0, styles_view(styles@)),
{
    let ghost v = e@.children;
    let ghost st = styles_view(styles@);
    let ghost want = starts_nested(v, 0, st);
    let mut i: usize = 0;
    while i < e.children.len()
        invariant
            i <= e.children@.len(),
            v == trees_view(e.children@),
            v == e@.children,
            st == styles_view(styles@),
            want == starts_nested(e@.children, 0, styles_view(styles@)),
            want == starts_nested(v, i as int, st),
        decreases e.children@.len() - i,
    {
        assert(v[i as int] == tree_view(e.children@[i as int]));
        match &e.children[i] {
            Tree::Element(c) => {
                if item_tag(c.tag.as_str()) {
                    return text_of_item(c, styles).len() == 0 && has_renderable(
                        &c.children,
                        false,
                        styles,
                    );
                }
            },
            _ => {},
        }
        i += 1;
    }
    false
}

/// The list style with a name among the first `n`: the last one counts.
pub open spec fn list_style_named(ls: Seq<ListStyleV>, n: int, name: Seq<char>) -> Option<ListStyleV>
    decreases n,
{
    if n <= 0 || n > ls.len() {
        None
    } else if ls[n - 1].name == name {
        Some(ls[n - 1])
    } else {
        list_style_named(ls, n - 1, name)
    }
}

/// The level among the first `n` levels: the last one counts.
pub open spec fn level_at(v: Seq<LevelV>, n: int, level: int) -> Option<LevelV>
    decreases n,
{
    if n <= 0 || n > v.len() {
        None
    } else if v[n - 1].level == level {
        Some(v[n - 1])
    } else {
        level_at(v, n - 1, level)
    }
}

/// The level that a list's own style gives it.
pub open spec fn own_level(e: ElementV, ls: Seq<ListStyleV>, level: int) -> Option<LevelV> {
    match attr_of(e, "style-name"@) {
        Some(name) => match list_style_named(ls, ls.len() as int, name) {
            Some(s) => level_at(s.levels, s.levels.len() as int, level),
            None => None,
        },
        None => None,
    }
}

/// View of an optional level.
pub open spec fn level_view(o: Option<&Level>) -> Option<LevelV> {
    match o {
        Some(l) => Some(l@),
        None => None,
    }
}

fn find_level<'a>(e: &Element, lists: &'a Vec<ListStyle>, level: i64) -> (r: Option<&'a Level>)
    ensures
        level_view(r) == own_level(e@, list_styles_view(lists@), level as int),
{
    let name = match attr(e, "style-name") {
        Some(n) => chars_of(n),
        None => {
            return None;
        },
    };
    let ghost ls = list_styles_view(lists@);
    let mut n: usize = lists.len();
    while n > 0
        invariant
            n <= lists@.len(),
            ls == list_styles_view(lists@),
            attr_of(e@, "style-name"@) == Some(name@),
            list_style_named(ls, lists@.len() as int, name@) == list_style_named(
                ls,
                n as int,
                name@,
            ),
        decreases n,
    {
        assert(ls[n - 1] == lists@[n - 1]@);
        if same(&lists[n - 1].name, &name) {
            let ghost v = levels_view(lists@[n - 1].levels@);
            let mut m: usize = lists[n - 1].levels.len();
            while m > 0
                invariant
                    0 < n <= lists@.len(),
                    m <= lists@[n - 1].levels@.len(),
                    v == levels_view(lists@[n - 1].levels@),
                    ls == list_styles_view(lists@),
                    attr_of(e@, "style-name"@) == Some(name@),
                    list_style_named(ls, ls.len() as int, name@) == Some(ls[n - 1]),
                    ls[n - 1].levels == v,
                    level_at(v, v.len() as int, level as int) == level_at(
                        v,
                        m as int,
                        level as int,
                    ),
                decreases m,
            {
                assert(v[m - 1] == lists@[n - 1].levels@[m - 1]@);
                if lists[n - 1].levels[m - 1].level == level {
                    return Some(&lists[n - 1].levels[m - 1]);
                }
                m -= 1;
            }
            return None;
        }
        n -= 1;
    }
    None
}

/// Whether a list is numbered at a level: by its style, else by its tag, else
/// as the list around it.
pub open spec fn enumerated(e: ElementV, ls: Seq<ListStyleV>, level: int, fallback: bool) -> bool {
    match own_level(e, ls, level) {
        Some(l) => l.numbered,
        None => if e.tag == "ordered-list"@ {
            true
        } else if e.tag == "unordered-list"@ {
            false
        } else {
            fallback
        },
    }
}

/// The state of a list's numbering.
#[verifier::ext_equal]
pub struct ContV {
    pub enumerated: bool,
    pub counter: int,
    pub has_last: bool,
    pub prefix: Seq<char>,
    pub suffix: Seq<char>,
}

/// The state of a list's numbering: whether it is numbered, the last number,
/// whether an item came, and what stands around a number.
pub struct ListCont {
    pub enumerated: bool,
    pub counter: i64,
    pub has_last: bool,
    pub prefix: Vec<char>,
    pub suffix: Vec<char>,
}

impl View for ListCont {
    type V = ContV;

    open spec fn view(&self) -> ContV {
        ContV {
            enumerated: self.enumerated,
            counter: self.counter as int,
            has_last: self.has_last,
            prefix: self.prefix@,
            suffix: self.suffix@,
        }
    }
}

/// View of an optional state.
pub open spec fn cont_view(o: Option<ListCont>) -> Option<ContV> {
    match o {
        Some(c) => Some(c@),
        None => None,
    }
}

/// The numbering that a list begins with.
pub open spec fn begun(e: ElementV, ls: Seq<ListStyleV>, level: int, fallback: bool) -> ContV {
    let own = own_level(e, ls, level);
    ContV {
        enumerated: enumerated(e, ls, level, fallback),
        counter: match own {
            Some(l) => down(l.start),
            None => 0,
        },
        has_last: false,
        prefix: match own {
            Some(l) => l.prefix,
            None => seq![],
        },
        suffix: match own {
            Some(l) => l.suffix,
            None => seq![],
        },
    }
}

/// Whether a list continues the one before it.
pub open spec fn continues(e: ElementV, st: Seq<StyleV>, cont: Option<ContV>) -> bool {
    cont is Some && cont->0.has_last && starts_nested(e.children, 0, st)
}

/// The nodes and the state of a list.
#[verifier::ext_equal]
pub struct ListedV {
    pub nodes: Seq<NodeV>,
    pub cont: Option<ContV>,
}

/// A number one higher; the last one that can be written stays.
pub open spec fn up(n: int) -> int {
    if n >= i64::MAX {
        n
    } else {
        n + 1
    }
}

/// A number one lower; the first one that can be written stays.
pub open spec fn down(n: int) -> int {
    if n <= i64::MIN {
        n
    } else {
        n - 1
    }
}

/// The node of an item: the next in the numbering.
pub open spec fn item_node(text: Seq<char>, c: ContV, first: bool, depth: u8) -> NodeV {
    let n = up(c.counter);
    NodeV::ListItem {
        ordered: c.enumerated,
        number: if c.enumerated && n >= 0 {
            n as u64
        } else {
            0
        },
        first_in_list: first,
        text,
        level: depth,
        marker: if c.enumerated {
            Some(
                c.prefix + decimal(
                    if n >= 0 {
                        n
                    } else {
                        0
                    },
                ) + c.suffix,
            )
        } else {
            None
        },
        href: None,
        layer: None,
    }
}

/// The nodes of the items from child `i` on of a list that shows its items.
pub open spec fn items_from(
    ch: Seq<TreeV>,
    i: int,
    st: Seq<StyleV>,
    ls: Seq<ListStyleV>,
    depth: u8,
    level: int,
    style_enum: bool,
    first: bool,
    c: ContV,
    nodes: Seq<NodeV>,
) -> ListedV
    decreases ch, ch.len() - i,
{
    if i < 0 || i >= ch.len() {
        ListedV { nodes, cont: Some(c) }
    } else {
        match ch[i] {
            TreeV::Element(e) => if is_item(e.tag) {
                let text = item_text(e, st);
                let some = text.len() > 0;
                items_from(
                    ch,
                    i + 1,
                    st,
                    ls,
                    depth,
                    level,
                    style_enum,
                    first && !some,
                    if some {
                        ContV { counter: up(c.counter), has_last: true, ..c }
                    } else {
                        c
                    },
                    nested_from(
                        e.children,
                        0,
                        st,
                        ls,
                        next_level(depth),
                        up(level),
                        style_enum,
                        if some {
                            nodes.push(item_node(text, c, first, depth))
                        } else {
                            nodes
                        },
                    ),
                )
            } else {
                items_from(ch, i + 1, st, ls, depth, level, style_enum, first, c, nodes)
            },
            _ => items_from(ch, i + 1, st, ls, depth, level, style_enum, first, c, nodes),
        }
    }
}

/// The nodes of the lists of an item from child `i` on.
pub open spec fn nested_from(
    ch: Seq<TreeV>,
    i: int,
    st: Seq<StyleV>,
    ls: Seq<ListStyleV>,
    depth: u8,
    level: int,
    fallback: bool,
    nodes: Seq<NodeV>,
) -> Seq<NodeV>
    decreases ch, ch.len() - i,
{
    if i < 0 || i >= ch.len() {
        nodes
    } else {
        nested_from(
            ch,
            i + 1,
            st,
            ls,
            depth,
            level,
            fallback,
            match ch[i] {
                TreeV::Element(e) => if is_list(e.tag) {
                    listed(e, st, ls, depth, level, fallback, None, nodes).nodes
                } else {
                    nodes
                },
                _ => nodes,
            },
        )
    }
}

/// The nodes of the lists in the items from child `i` on of a list without
/// text: they take its place.
pub open spec fn lifted_from(
    ch: Seq<TreeV>,
    i: int,
    st: Seq<StyleV>,
    ls: Seq<ListStyleV>,
    depth: u8,
    level: int,
    fallback: bool,
    nodes: Seq<NodeV>,
) -> Seq<NodeV>
    decreases ch, ch.len() - i,
{
    if i < 0 || i >= ch.len() {
        nodes
    } else {
        lifted_from(
            ch,
            i + 1,
            st,
            ls,
            depth,
            level,
            fallback,
            match ch[i] {
                TreeV::Element(e) => if is_item(e.tag) {
                    nested_from(e.children, 0, st, ls, depth, level, fallback, nodes)
                } else {
                    nodes
                },
                _ => nodes,
            },
        )
    }
}

/// The nodes with a list added, and the state in which a next list may
/// continue it. `depth` is the level of its items, `level` that of its style,
/// `fallback` whether it is numbered where nothing says.
pub open spec fn listed(
    e: ElementV,
    st: Seq<StyleV>,
    ls: Seq<ListStyleV>,
    depth: u8,
    level: int,
    fallback: bool,
    cont: Option<ContV>,
    nodes: Seq<NodeV>,
) -> ListedV
    decreases e, 0int,
{
    let style_enum = enumerated(e, ls, level, fallback);
    let go_on = continues(e, st, cont);
    if !renderable(e.children, 0, true, st) {
        ListedV { nodes, cont: None }
    } else if !go_on && !has_text(e.children, 0, st) {
        ListedV {
            nodes: lifted_from(e.children, 0, st, ls, depth, up(level), style_enum, nodes),
            cont: None,
        }
    } else {
        items_from(
            e.children,
            0,
            st,
            ls,
            depth,
            level,
            style_enum,
            !go_on,
            if go_on {
                cont->0
            } else {
                begun(e, ls, level, fallback)
            },
            nodes,
        )
    }
}

proof fn shown_items_add_only_items(
    ch: Seq<TreeV>,
    i: int,
    st: Seq<StyleV>,
    ls: Seq<ListStyleV>,
    depth: u8,
    level: int,
    style_enum: bool,
    first: bool,
    c: ContV,
    nodes: Seq<NodeV>,
)
    ensures
        adds_items(
            nodes,
            items_from(ch, i, st, ls, depth, level, style_enum, first, c, nodes).nodes,
        ),
    decreases ch, ch.len() - i,
{
    if 0 <= i < ch.len() {
        match ch[i] {
            TreeV::Element(e) => if is_item(e.tag) {
                let text = item_text(e, st);
                let some = text.len() > 0;
                let one = if some {
                    nodes.push(item_node(text, c, first, depth))
                } else {
                    nodes
                };
                let deep = next_level(depth);
                nested_lists_add_only_items(
                    e.children,
                    0,
                    st,
                    ls,
                    deep,
                    up(level),
                    style_enum,
                    one,
                );
                let two = nested_from(e.children, 0, st, ls, deep, up(level), style_enum, one);
                let next = if some {
                    ContV { counter: up(c.counter), has_last: true, ..c }
                } else {
                    c
                };
                shown_items_add_only_items(
                    ch,
                    i + 1,
                    st,
                    ls,
                    depth,
                    level,
                    style_enum,
                    first && !some,
                    next,
                    two,
                );
            } else {
                shown_items_add_only_items(
                    ch,
                    i + 1,
                    st,
                    ls,
                    depth,
                    level,
                    style_enum,
                    first,
                    c,
                    nodes,
                );
            },
            _ => shown_items_add_only_items(
                ch,
                i + 1,
                st,
                ls,
                depth,
                level,
                style_enum,
                first,
                c,
                nodes,
            ),
        }
    }
}

proof fn nested_lists_add_only_items(
    ch: Seq<TreeV>,
    i: int,
    st: Seq<StyleV>,
    ls: Seq<ListStyleV>,
    depth: u8,
    level: int,
    fallback: bool,
    nodes: Seq<NodeV>,
)
    ensures
        adds_items(nodes, nested_from(ch, i, st, ls, depth, level, fallback, nodes)),
    decreases ch, ch.len() - i,
{
    if 0 <= i < ch.len() {
        match ch[i] {
            TreeV::Element(e) => if is_list(e.tag) {
                a_list_adds_only_items(e, st, ls, depth, level, fallback, None, nodes);
                let one = listed(e, st, ls, depth, level, fallback, None, nodes).nodes;
                nested_lists_add_only_items(ch, i + 1, st, ls, depth, level, fallback, one);
            } else {
                nested_lists_add_only_items(ch, i + 1, st, ls, depth, level, fallback, nodes);
            },
            _ => nested_lists_add_only_items(ch, i + 1, st, ls, depth, level, fallback, nodes),
        }
    }
}

proof fn lifted_lists_add_only_items(
    ch: Seq<TreeV>,
    i: int,
    st: Seq<StyleV>,
    ls: Seq<ListStyleV>,
    depth: u8,
    level: int,
    fallback: bool,
    nodes: Seq<NodeV>,
)
    ensures
        adds_items(nodes, lifted_from(ch, i, st, ls, depth, level, fallback, nodes)),
    decreases ch, ch.len() - i,
{
    if 0 <= i < ch.len() {
        match ch[i] {
            TreeV::Element(e) => if is_item(e.tag) {
                nested_lists_add_only_items(
                    e.children,
                    0,
                    st,
                    ls,
                    depth,
                    level,
                    fallback,
                    nodes,
                );
                let one = nested_from(e.children, 0, st, ls, depth, level, fallback, nodes);
                lifted_lists_add_only_items(ch, i + 1, st, ls, depth, level, fallback, one);
            } else {
                lifted_lists_add_only_items(ch, i + 1, st, ls, depth, level, fallback, nodes);
            },
            _ => lifted_lists_add_only_items(ch, i + 1, st, ls, depth, level, fallback, nodes),
        }
    }
}

/// A list adds list items, those of the lists inside it with them, and nothing
/// else; what stands before it stays. One that shows nothing adds nothing.
pub proof fn a_list_adds_only_items(
    e: ElementV,
    st: Seq<StyleV>,
    ls: Seq<ListStyleV>,
    depth: u8,
    level: int,
    fallback: bool,
    cont: Option<ContV>,
    nodes: Seq<NodeV>,
)
    ensures
        adds_items(nodes, listed(e, st, ls, depth, level, fallback, cont, nodes).nodes),
        !renderable(e.children, 0, true, st) ==> listed(
            e,
            st,
            ls,
            depth,
            level,
            fallback,
            cont,
            nodes,
        ).nodes == nodes,
    decreases e, 0int,
{
    let style_enum = enumerated(e, ls, level, fallback);
    let go_on = continues(e, st, cont);
    lifted_lists_add_only_items(e.children, 0, st, ls, depth, up(level), style_enum, nodes);
    let c = if go_on {
        cont->0
    } else {
        begun(e, ls, level, fallback)
    };
    shown_items_add_only_items(
        e.children,
        0,
        st,
        ls,
        depth,
        level,
        style_enum,
        !go_on,
        c,
        nodes,
    );
}

fn level_is_enumerated(e: &Element, lists: &Vec<ListStyle>, level: i64, fallback: bool) -> (r: bool)
    ensures
        r == enumerated(e@, list_styles_view(lists@), level as int, fallback),
{
    match find_level(e, lists, level) {
        Some(l) => l.numbered,
        None => if has_tag(e, "ordered-list") {
            true
        } else if has_tag(e, "unordered-list") {
            false
        } else {
            fallback
        },
    }
}

fn begin_list(e: &Element, lists: &Vec<ListStyle>, level: i64, fallback: bool) -> (r: ListCont)
    ensures
        r@ == begun(e@, list_styles_view(lists@), level as int, fallback),
{
    let enumerated = level_is_enumerated(e, lists, level, fallback);
    match find_level(e, lists, level) {
        Some(l) => {
            let counter: i64 = if l.start > i64::MIN {
                l.start - 1
            } else {
                l.start
            };
            ListCont {
                enumerated,
                counter,
                has_last: false,
                prefix: copy(&l.prefix),
                suffix: copy(&l.suffix),
            }
        },
        None => {
            let prefix: Vec<char> = Vec::new();
            let suffix: Vec<char> = Vec::new();
            assert(prefix@ =~= seq![]);
            assert(suffix@ =~= seq![]);
            ListCont { enumerated, counter: 0, has_last: false, prefix, suffix }
        },
    }
}

fn count_up(n: i64) -> (r: i64)
    ensures
        r == up(n as int),
{
    if n == i64::MAX {
        n
    } else {
        n + 1
    }
}

fn one_deeper(level: u8) -> (r: u8)
    ensures
        r == next_level(level),
{
    if level == 255 {
        255
    } else {
        level + 1
    }
}

fn push_item(nodes: &mut Vec<Node>, text: &Vec<char>, c: &ListCont, first: bool, depth: u8)
    ensures
        nodes_view(final(nodes)@) == nodes_view(old(nodes)@).push(
            item_node(text@, c@, first, depth),
        ),
{
    let n = count_up(c.counter);
    let shown: u64 = if n >= 0 {
        n as u64
    } else {
        0
    };
    let marker = if c.enumerated {
        let mut m = copy(&c.prefix);
        push_decimal(&mut m, shown as u128);
        push_all(&mut m, &c.suffix);
        assert(m@ =~= c.prefix@ + decimal(shown as int) + c.suffix@);
        Some(string_of(&m))
    } else {
        None
    };
    push_node(
        nodes,
        Node::ListItem {
            ordered: c.enumerated,
            number: if c.enumerated {
                shown
            } else {
                0
            },
            first_in_list: first,
            text: string_of(text),
            level: depth,
            marker,
            href: None,
            layer: None,
        },
    );
}

fn add_nested(
    ch: &Vec<Tree>,
    styles: &Vec<Style>,
    lists: &Vec<ListStyle>,
    nodes: &mut Vec<Node>,
    depth: u8,
    level: i64,
    fallback: bool,
)
    ensures
        nodes_view(final(nodes)@) == nested_from(
            trees_view(ch@),
            0,
            styles_view(styles@),
            list_styles_view(lists@),
            depth,
            level as int,
            fallback,
            nodes_view(old(nodes)@),
        ),
    decreases ch,
{
    let ghost v = trees_view(ch@);
    let ghost st = styles_view(styles@);
    let ghost ls = list_styles_view(lists@);
    let ghost want = nested_from(v, 0, st, ls, depth, level as int, fallback, nodes_view(nodes@));
    let mut i: usize = 0;
    while i < ch.len()
        invariant
            i <= ch@.len(),
            v == trees_view(ch@),
            st == styles_view(styles@),
            ls == list_styles_view(lists@),
            want == nested_from(
                v,
                i as int,
                st,
                ls,
                depth,
                level as int,
                fallback,
                nodes_view(nodes@),
            ),
        decreases ch@.len() - i,
    {
        assert(v[i as int] == tree_view(ch@[i as int]));
        match &ch[i] {
            Tree::Element(e) => {
                if is_list_tag(e.tag.as_str()) {
                    let _state = add_odf_list(
                        e,
                        styles,
                        lists,
                        nodes,
                        depth,
                        level,
                        fallback,
                        None,
                    );
                }
            },
            _ => {},
        }
        i += 1;
    }
}

/// Adds a list, and returns the state in which a next list may continue it.
pub fn add_odf_list(
    e: &Element,
    styles: &Vec<Style>,
    lists: &Vec<ListStyle>,
    nodes: &mut Vec<Node>,
    depth: u8,
    level: i64,
    fallback: bool,
    cont: Option<ListCont>,
) -> (r: Option<ListCont>)
    ensures
        (ListedV { nodes: nodes_view(final(nodes)@), cont: cont_view(r) }) == listed(
            e@,
            styles_view(styles@),
            list_styles_view(lists@),
            depth,
            level as int,
            fallback,
            cont_view(cont),
            nodes_view(old(nodes)@),
        ),
    decreases e,
{
    if !list_has_renderable(e, styles) {
        return None;
    }
    let style_enum = level_is_enumerated(e, lists, level, fallback);
    let has_last = match &cont {
        Some(c) => c.has_last,
        None => false,
    };
    let go_on = has_last && list_starts_with_empty_nested(e, styles);
    let ghost v = e@.children;
    let ghost st = styles_view(styles@);
    let ghost ls = list_styles_view(lists@);
    let ghost want = listed(
        e@,
        st,
        ls,
        depth,
        level as int,
        fallback,
        cont_view(cont),
        nodes_view(nodes@),
    );
    if !go_on && !list_has_direct_text(e, styles) {
        let next = count_up(level);
        let mut i: usize = 0;
        while i < e.children.len()
            invariant
                i <= e.children@.len(),
                v == trees_view(e.children@),
                st == styles_view(styles@),
                ls == list_styles_view(lists@),
                want.cont is None,
                want.nodes == lifted_from(
                    v,
                    i as int,
                    st,
                    ls,
                    depth,
                    next as int,
                    style_enum,
                    nodes_view(nodes@),
                ),
            decreases e.children@.len() - i,
        {
            assert(v[i as int] == tree_view(e.children@[i as int]));
            match &e.children[i] {
                Tree::Element(c) => {
                    if item_tag(c.tag.as_str()) {
                        add_nested(&c.children, styles, lists, nodes, depth, next, style_enum);
                    }
                },
                _ => {},
            }
            i += 1;
        }
        return None;
    }
    let mut c = match cont {
        Some(c) => if go_on {
            c
        } else {
            begin_list(e, lists, level, fallback)
        },
        None => begin_list(e, lists, level, fallback),
    };
    let mut first = !go_on;
    let mut i: usize = 0;
    while i < e.children.len()
        invariant
            i <= e.children@.len(),
            v == trees_view(e.children@),
            st == styles_view(styles@),
            ls == list_styles_view(lists@),
            want == items_from(
                v,
                i as int,
                st,
                ls,
                depth,
                level as int,
                style_enum,
                first,
                c@,
                nodes_view(nodes@),
            ),
        decreases e.children@.len() - i,
    {
        assert(v[i as int] == tree_view(e.children@[i as int]));
        match &e.children[i] {
            Tree::Element(x) => {
                if item_tag(x.tag.as_str()) {
                    let text = text_of_item(x, styles);
                    if text.len() > 0 {
                        push_item(nodes, &text, &c, first, depth);
                        first = false;
                        c.counter = count_up(c.counter);
                        c.has_last = true;
                    }
                    add_nested(
                        &x.children,
                        styles,
                        lists,
                        nodes,
                        one_deeper(depth),
                        count_up(level),
                        style_enum,
                    );
                }
            },
            _ => {},
        }
        i += 1;
    }
    Some(c)
}

} // verus!
