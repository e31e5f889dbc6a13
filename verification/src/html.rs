//! HTML documents.
//!
//! Blocks (headings, paragraphs, lists, tables, code, figures, forms) become
//! nodes of their own; inline text between them is gathered into paragraphs.
//! Hidden elements show nothing, and what stands before the first heading, or
//! in a footer, is page furniture.

use crate::cell::{cell_markdown, cell_text};
use crate::document::{
    fields_view, heading, node_view, nodes_view, opt, paragraph, push_node, strs, table_view,
    CaptionParent, ContentLayer, FieldItem, FieldItemV, Node, NodeV, Table, TableV,
};
use crate::htmllist::{
    description_lists_add_only_items, dl_from, list_from, list_start, lists_add_only_items, walk_dl,
    walk_list,
};
use crate::htmltable::{
    is_section, laid_out, lay_out, rendered_view, rendered_view_push, section, Rendered, RenderedV,
};
use crate::inline::{
    bare, collect_element, collect_runs, contains_block, element_runs, finalize, finished,
    inline_text, inner_fmt, invisible, is_block, is_block_tag, is_heading, is_heading_tag,
    is_hidden, is_hidden_el, is_invisible, is_skipped, is_skipped_tag, no_fmt, no_runs,
    normalize_ws, plain, push_plain, render_inline_fmt, runs_from, structured_from, tag_fmt, tidied,
    trim_newlines, unbroken, with_raw_text, BufV, Fmt, RunBuf,
};
use crate::text::{
    ascii_white, chars_of, chars_or_empty, copy, escape_text, escaped, find_from, has_prefix,
    index_from, is, is_ascii_white, join, joined, lowered, or_empty, parse_uint, push_all, push_str,
    same, slice, split, splits, starts_with, str_eq, string_of, strip, texts, texts_push, to_lower,
    trim, uint, words, words_of,
};
use crate::tree::{
    all_text, build_tree, child_elements, child_elements_of, descendants, find_tagged, first_tagged,
    has_descendant, has_tag, has_under, items_view, opt_str, pieces, pieces_of, plain_attr,
    plain_attr_of, ref_view, refs_view, root_of, self_and_descendants, self_and_under, text_of,
    tree_view, trees_view, under, Element, ElementV, Item, ItemV, Kind, Tree, TreeV,
};
use crate::decode::{decode_html_bytes, html_text};
use crate::location::{ends_host, find_host_end, host_end, host_end_is_first};
use crate::parse::{html_items, parse_html_items};
use crate::shown::{shown, shown_children, shown_element};
use vstd::prelude::*;

verus! {

/// Where the host of a web address begins, if it is one.
pub open spec fn host_start(href: Seq<char>) -> Option<int> {
    if has_prefix(href, "https://"@) {
        Some("https://"@.len() as int)
    } else if has_prefix(href, "http://"@) {
        Some("http://"@.len() as int)
    } else {
        None
    }
}

/// A web address without a path gets a slash behind its host, before its query
/// or fragment; any other target stays as it is.
pub open spec fn normalized_url(href: Seq<char>) -> Seq<char> {
    match host_start(href) {
        Some(k) => {
            let e = k + host_end(href.skip(k), 0);
            if e > k && (e == href.len() || href[e] != '/') {
                href.take(e) + "/"@ + href.skip(e)
            } else {
                href
            }
        },
        None => href,
    }
}

/// A web address that has a path, or none of a host, stays as it is, and what
/// gets a path keeps it: nothing is added twice.
pub proof fn normal_urls_are_stable(href: Seq<char>)
    ensures
        normalized_url(normalized_url(href)) == normalized_url(href),
{
    reveal_strlit("https://");
    reveal_strlit("http://");
    reveal_strlit("/");
    match host_start(href) {
        Some(k) => {
            let s = href.skip(k);
            let e = host_end(s, 0);
            host_end_is_first(s, 0);
            let r = normalized_url(href);
            if r != href {
                assert(r =~= href.take(k) + (s.take(e) + "/"@ + s.skip(e)));
                assert(r.take(7) =~= href.take(7));
                if k == 8 {
                    assert(r.take(8) =~= href.take(8));
                } else {
                    assert(href.take(7)[4] == ':');
                    assert(r.take(7)[4] == ':');
                    assert("https://"@[4] == 's');
                    assert(r.len() >= 8 ==> r.take(8)[4] == ':');
                }
                assert(host_start(r) == Some(k));
                assert(r.skip(k) =~= s.take(e) + "/"@ + s.skip(e));
                host_end_is_first(r.skip(k), 0);
                assert(r.skip(k)[e] == '/');
                assert forall|i: int| 0 <= i < e implies !ends_host(#[trigger] r.skip(k)[i]) by {
                    assert(r.skip(k)[i] == s[i]);
                }
                assert(host_end(r.skip(k), 0) == e);
                assert(r[k + e] == '/');
            }
        },
        None => {},
    }
}

/// A web address without a path gets a slash behind its host.
pub fn normalize_url(href: &Vec<char>) -> (r: Vec<char>)
    ensures
        r@ == normalized_url(href@),
{
    let from: usize = if starts_with(href, "https://") {
        chars_of("https://").len()
    } else if starts_with(href, "http://") {
        chars_of("http://").len()
    } else {
        return copy(href);
    };
    let rest = slice(href, from, href.len());
    assert(rest@ =~= href@.skip(from as int));
    let e: usize = from + find_host_end(&rest);
    if e > from && (e == href.len() || href[e] != '/') {
        let mut r = slice(href, 0, e);
        let tail = slice(href, e, href.len());
        assert(r@ =~= href@.take(e as int));
        assert(tail@ =~= href@.skip(e as int));
        push_str(&mut r, "/");
        push_all(&mut r, &tail);
        r
    } else {
        copy(href)
    }
}

// ------------------------------------------------------------ images

/// An attribute without the white space around it; a blank one is none.
pub open spec fn solid_attr(e: ElementV, name: Seq<char>) -> Option<Seq<char>> {
    match plain_attr_of(e, name) {
        Some(v) => if strip(v).len() == 0 {
            None
        } else {
            Some(strip(v))
        },
        None => None,
    }
}

/// The first address in a set of sources.
pub open spec fn first_candidate(set: Option<Seq<char>>) -> Option<Seq<char>> {
    match set {
        Some(s) => {
            let w = words_of(splits(s, ',')[0]);
            if w.len() == 0 {
                None
            } else {
                Some(w[0])
            }
        },
        None => None,
    }
}

/// The first of two optional values.
pub open spec fn either_of<T>(a: Option<T>, b: Option<T>) -> Option<T> {
    match a {
        Some(x) => Some(x),
        None => b,
    }
}

/// The address of an image. A placeholder of embedded data gives way to the
/// attributes that load an image late.
pub open spec fn image_source(e: ElementV) -> Option<Seq<char>> {
    let src = solid_attr(e, "src"@);
    if src is Some && !has_prefix(src->0, "data:"@) {
        src
    } else {
        either_of(
            solid_attr(e, "data-src"@),
            either_of(
                solid_attr(e, "data-original"@),
                either_of(
                    solid_attr(e, "data-lazy-src"@),
                    either_of(
                        solid_attr(e, "data-lazy"@),
                        either_of(
                            first_candidate(solid_attr(e, "srcset"@)),
                            either_of(first_candidate(solid_attr(e, "data-srcset"@)), src),
                        ),
                    ),
                ),
            ),
        )
    }
}

/// View of an optional sequence of characters.
pub open spec fn chars_view(o: Option<Vec<char>>) -> Option<Seq<char>> {
    match o {
        Some(v) => Some(v@),
        None => None,
    }
}

fn trimmed_attr(e: &Element, name: &str) -> (r: Option<Vec<char>>)
    ensures
        chars_view(r) == solid_attr(e@, name@),
{
    match plain_attr(e, name) {
        Some(v) => {
            let t = trim(&chars_of(v));
            if t.len() == 0 {
                None
            } else {
                Some(t)
            }
        },
        None => None,
    }
}

fn candidate(set: Option<Vec<char>>) -> (r: Option<Vec<char>>)
    ensures
        chars_view(r) == first_candidate(chars_view(set)),
{
    match set {
        Some(s) => {
            let parts = split(&s, ',');
            assert(texts(parts@)[0] == parts@[0]@);
            if parts.len() == 0 {
                return None;
            }
            let w = words(&parts[0]);
            if w.len() == 0 {
                None
            } else {
                assert(texts(w@)[0] == w@[0]@);
                Some(copy(&w[0]))
            }
        },
        None => None,
    }
}

/// The address of an image.
pub fn img_src(e: &Element) -> (r: Option<Vec<char>>)
    ensures
        chars_view(r) == image_source(e@),
{
    let src = trimmed_attr(e, "src");
    match &src {
        Some(s) => {
            if !starts_with(s, "data:") {
                return src;
            }
        },
        None => {},
    }
    let a = trimmed_attr(e, "data-src");
    if a.is_some() {
        return a;
    }
    let b = trimmed_attr(e, "data-original");
    if b.is_some() {
        return b;
    }
    let c = trimmed_attr(e, "data-lazy-src");
    if c.is_some() {
        return c;
    }
    let d = trimmed_attr(e, "data-lazy");
    if d.is_some() {
        return d;
    }
    let f = candidate(trimmed_attr(e, "srcset"));
    if f.is_some() {
        return f;
    }
    let g = candidate(trimmed_attr(e, "data-srcset"));
    if g.is_some() {
        return g;
    }
    src
}

/// The sources of an image: its address, where images are fetched.
pub open spec fn sources(e: ElementV, fetch: bool) -> Seq<Seq<char>> {
    match image_source(e) {
        Some(s) => if fetch {
            seq![s]
        } else {
            seq![]
        },
        None => seq![],
    }
}

fn sources_of(e: &Element, fetch: bool) -> (r: Vec<String>)
    ensures
        strs(r@) == sources(e@, fetch),
{
    let mut out: Vec<String> = Vec::new();
    if fetch {
        match img_src(e) {
            Some(s) => {
                out.push(string_of(&s));
            },
            None => {},
        }
    }
    assert(strs(out@) =~= sources(e@, fetch));
    out
}

/// An attribute that is not empty.
pub open spec fn some_attr(e: ElementV, name: Seq<char>) -> Option<Seq<char>> {
    match plain_attr_of(e, name) {
        Some(v) => if v.len() == 0 {
            None
        } else {
            Some(v)
        },
        None => None,
    }
}

fn filled_attr(e: &Element, name: &str) -> (r: Option<Vec<char>>)
    ensures
        chars_view(r) == some_attr(e@, name@),
{
    match plain_attr(e, name) {
        Some(v) => {
            let t = chars_of(v);
            if t.len() == 0 {
                None
            } else {
                Some(t)
            }
        },
        None => None,
    }
}

fn opt_string(o: &Option<Vec<char>>) -> (r: Option<String>)
    ensures
        opt(r) == chars_view(*o),
{
    match o {
        Some(v) => Some(string_of(v)),
        None => None,
    }
}

/// The picture of an image.
pub open spec fn image(e: ElementV, fetch: bool) -> NodeV {
    NodeV::Picture {
        caption: some_attr(e, "alt"@),
        caption_href: None,
        caption_parent: CaptionParent::Body,
        sources: sources(e, fetch),
    }
}

fn add_image(e: &Element, fetch: bool, nodes: &mut Vec<Node>)
    ensures
        nodes_view(final(nodes)@) == nodes_view(old(nodes)@).push(image(e@, fetch)),
{
    let caption = opt_string(&filled_attr(e, "alt"));
    push_node(
        nodes,
        Node::Picture { caption, caption_href: None, caption_parent: CaptionParent::Body, sources: sources_of(e, fetch) },
    );
}

/// The image that an element wraps, if it holds one image and no text.
pub open spec fn lone_image(e: ElementV) -> Option<ElementV> {
    let v = tagged(under(e), 0, "img"@, seq![]);
    if v.len() == 1 && strip(all_text(e)).len() == 0 {
        Some(v[0])
    } else {
        None
    }
}

/// The elements from `i` on with a tag, added to `done`.
pub open spec fn tagged(v: Seq<ElementV>, i: int, tag: Seq<char>, done: Seq<ElementV>) -> Seq<
    ElementV,
>
    decreases v.len() - i,
{
    if i >= v.len() {
        done
    } else {
        tagged(
            v,
            i + 1,
            tag,
            if v[i].tag == tag {
                done.push(v[i])
            } else {
                done
            },
        )
    }
}

fn with_tag<'a>(v: &Vec<&'a Element>, tag: &str) -> (r: Vec<&'a Element>)
    ensures
        refs_view(r@) == tagged(refs_view(v@), 0, tag@, seq![]),
{
    broadcast use crate::tree::refs_view_push;

    let ghost w = refs_view(v@);
    let mut out: Vec<&'a Element> = Vec::new();
    let mut i: usize = 0;
    assert(refs_view(out@) =~= seq![]);
    while i < v.len()
        invariant
            i <= v@.len(),
            w == refs_view(v@),
            tagged(w, 0, tag@, seq![]) == tagged(w, i as int, tag@, refs_view(out@)),
        decreases v@.len() - i,
    {
        broadcast use crate::tree::refs_view_push;

        assert(w[i as int] == v@[i as int]@);
        if has_tag(v[i], tag) {
            out.push(v[i]);
        }
        i += 1;
    }
    out
}

fn image_wrapper<'a>(e: &'a Element) -> (r: Option<&'a Element>)
    ensures
        crate::tree::ref_view(r) == lone_image(e@),
{
    let v = with_tag(&descendants(e), "img");
    if v.len() == 1 && trim(&text_of(e)).len() == 0 {
        assert(refs_view(v@)[0] == v@[0]@);
        Some(v[0])
    } else {
        None
    }
}

// ------------------------------------------------------------ nodes

/// Page furniture.
pub open spec fn furnished(n: NodeV) -> NodeV {
    match n {
        NodeV::ListItem {
            ordered,
            number,
            first_in_list,
            text,
            level,
            marker,
            href,
            layer,
        } => NodeV::ListItem {
            ordered,
            number,
            first_in_list,
            text,
            level,
            marker,
            href,
            layer: Some(ContentLayer::Furniture),
        },
        NodeV::Furniture { .. } => n,
        _ => NodeV::Furniture { layer: ContentLayer::Furniture, inner: Box::new(n) },
    }
}

fn furnish(n: Node) -> (r: Node)
    ensures
        node_view(r) == furnished(node_view(n)),
{
    match n {
        Node::ListItem {
            ordered,
            number,
            first_in_list,
            text,
            level,
            marker,
            href,
            layer: _,
        } => Node::ListItem {
            ordered,
            number,
            first_in_list,
            text,
            level,
            marker,
            href,
            layer: Some(ContentLayer::Furniture),
        },
        Node::Furniture { layer, inner } => Node::Furniture { layer, inner },
        other => Node::Furniture { layer: ContentLayer::Furniture, inner: Box::new(other) },
    }
}

/// The nodes with those in `from..to` made page furniture.
pub open spec fn furnished_in(nodes: Seq<NodeV>, from: int, to: int) -> Seq<NodeV> {
    Seq::new(
        nodes.len(),
        |i: int|
            if from <= i < to {
                furnished(nodes[i])
            } else {
                nodes[i]
            },
    )
}

fn furnish_in(nodes: &mut Vec<Node>, from: usize, to: usize)
    requires
        from <= to <= old(nodes)@.len(),
    ensures
        nodes_view(final(nodes)@) == furnished_in(
            nodes_view(old(nodes)@),
            from as int,
            to as int,
        ),
{
    let ghost was = nodes_view(nodes@);
    let mut i: usize = from;
    assert(nodes_view(nodes@) =~= furnished_in(was, from as int, from as int));
    while i < to
        invariant
            from <= i <= to <= nodes@.len(),
            nodes@.len() == was.len(),
            nodes_view(nodes@) == furnished_in(was, from as int, i as int),
        decreases to - i,
    {
        let ghost before = nodes@;
        assert(nodes_view(before)[i as int] == node_view(before[i as int]));
        let mut n = Node::PageBreak;
        std::mem::swap(&mut n, &mut nodes[i]);
        nodes.set(i, furnish(n));
        i += 1;
        assert(nodes_view(nodes@) =~= furnished_in(was, from as int, i as int)) by {
            assert forall|k: int| 0 <= k < was.len() implies nodes_view(nodes@)[k] == furnished_in(
                was,
                from as int,
                i as int,
            )[k] by {
                assert(nodes_view(before)[k] == furnished_in(was, from as int, i - 1)[k]);
                if k != i - 1 {
                    assert(nodes@[k] == before[k]);
                }
            }
        }
    }
}

/// The place of the first heading from `i` on, or the end.
pub open spec fn heading_from(nodes: Seq<NodeV>, i: int) -> int
    decreases nodes.len() - i,
{
    if i >= nodes.len() {
        nodes.len() as int
    } else if nodes[i] is Heading {
        i
    } else {
        heading_from(nodes, i + 1)
    }
}

fn find_heading(nodes: &Vec<Node>, from: usize) -> (r: usize)
    requires
        from <= nodes@.len(),
    ensures
        r == heading_from(nodes_view(nodes@), from as int),
        from <= r <= nodes@.len(),
{
    let ghost v = nodes_view(nodes@);
    let mut i: usize = from;
    while i < nodes.len()
        invariant
            from <= i <= nodes@.len(),
            v == nodes_view(nodes@),
            heading_from(v, from as int) == heading_from(v, i as int),
        decreases nodes@.len() - i,
    {
        assert(v[i as int] == node_view(nodes@[i as int]));
        match &nodes[i] {
            Node::Heading { .. } => {
                return i;
            },
            _ => {},
        }
        i += 1;
    }
    i
}

/// The nodes with those from `start` up to the first heading made page
/// furniture; without a heading none is.
pub open spec fn leading_furniture(nodes: Seq<NodeV>, start: int) -> Seq<NodeV> {
    let h = heading_from(nodes, start);
    if h >= nodes.len() {
        nodes
    } else {
        furnished_in(nodes, start, h)
    }
}

proof fn headings_are_ahead(nodes: Seq<NodeV>, i: int)
    requires
        i <= nodes.len(),
    ensures
        i <= heading_from(nodes, i) <= nodes.len(),
    decreases nodes.len() - i,
{
    if i < nodes.len() {
        headings_are_ahead(nodes, i + 1);
    }
}

/// What stands before a page, and the page from its first heading on, stays as
/// it is.
pub proof fn the_page_itself_stays(nodes: Seq<NodeV>, start: int, k: int)
    requires
        0 <= start <= nodes.len(),
        0 <= k < nodes.len(),
        k < start || heading_from(nodes, start) <= k,
    ensures
        leading_furniture(nodes, start).len() == nodes.len(),
        leading_furniture(nodes, start)[k] == nodes[k],
{
    headings_are_ahead(nodes, start);
}

/// Whether a node is page furniture.
pub open spec fn is_furniture(n: NodeV) -> bool {
    match n {
        NodeV::Furniture { .. } => true,
        NodeV::ListItem { layer, .. } => layer == Some(ContentLayer::Furniture),
        _ => false,
    }
}

/// What stands on a page before its first heading is page furniture.
pub proof fn what_comes_first_is_furniture(nodes: Seq<NodeV>, start: int, k: int)
    requires
        0 <= start <= k < heading_from(nodes, start) < nodes.len(),
    ensures
        is_furniture(leading_furniture(nodes, start)[k]),
{
}

/// A page without a heading stays as it is.
pub proof fn pages_without_a_heading_stay(nodes: Seq<NodeV>, start: int)
    requires
        0 <= start <= nodes.len(),
        forall|k: int| start <= k < nodes.len() ==> !(#[trigger] nodes[k] is Heading),
    ensures
        leading_furniture(nodes, start) == nodes,
{
    no_heading_ahead(nodes, start);
}

proof fn no_heading_ahead(nodes: Seq<NodeV>, i: int)
    requires
        0 <= i,
        forall|k: int| i <= k < nodes.len() ==> !(#[trigger] nodes[k] is Heading),
    ensures
        heading_from(nodes, i) == nodes.len(),
    decreases nodes.len() - i,
{
    if i < nodes.len() {
        no_heading_ahead(nodes, i + 1);
    }
}

/// Makes the nodes from `start` up to the first heading page furniture.
pub fn mark_leading_furniture(nodes: &mut Vec<Node>, start: usize)
    requires
        start <= old(nodes)@.len(),
    ensures
        nodes_view(final(nodes)@) == leading_furniture(nodes_view(old(nodes)@), start as int),
{
    let h = find_heading(nodes, start);
    if h < nodes.len() {
        furnish_in(nodes, start, h);
    }
}

/// A picture with the target of the link around it on its caption, unless the
/// caption has one.
pub open spec fn linked(n: NodeV, href: Seq<char>) -> NodeV {
    match n {
        NodeV::Picture { caption: Some(c), caption_href: None, caption_parent, sources } => NodeV::Picture {
            caption: Some(c),
            caption_href: Some(href),
            caption_parent,
            sources,
        },
        _ => n,
    }
}

/// The nodes from `start` on with a link around them.
pub open spec fn linked_from(nodes: Seq<NodeV>, start: int, href: Seq<char>) -> Seq<NodeV> {
    Seq::new(
        nodes.len(),
        |i: int|
            if i >= start {
                linked(nodes[i], href)
            } else {
                nodes[i]
            },
    )
}

fn link_node(n: Node, href: &Vec<char>) -> (r: Node)
    ensures
        node_view(r) == linked(node_view(n), href@),
{
    match n {
        Node::Picture { caption: Some(c), caption_href: None, caption_parent, sources } => Node::Picture {
            caption: Some(c),
            caption_href: Some(string_of(href)),
            caption_parent,
            sources,
        },
        other => other,
    }
}

fn annotate_picture_captions(nodes: &mut Vec<Node>, start: usize, href: &Vec<char>)
    ensures
        nodes_view(final(nodes)@) == linked_from(nodes_view(old(nodes)@), start as int, href@),
{
    let ghost was = nodes_view(nodes@);
    let ghost want = linked_from(was, start as int, href@);
    let n: usize = nodes.len();
    let mut i: usize = if start < n {
        start
    } else {
        n
    };
    while i < n
        invariant
            start <= i <= n || i == n < start,
            nodes@.len() == n,
            was.len() == n,
            want == linked_from(was, start as int, href@),
            forall|k: int| 0 <= k < i ==> node_view(#[trigger] nodes@[k]) == want[k],
            forall|k: int| i <= k < n ==> node_view(#[trigger] nodes@[k]) == was[k],
        decreases n - i,
    {
        let mut x = Node::PageBreak;
        assert(node_view(nodes@[i as int]) == was[i as int]);
        std::mem::swap(&mut x, &mut nodes[i]);
        nodes.set(i, link_node(x, href));
        i += 1;
    }
    assert(nodes_view(nodes@) =~= want);
}

/// A picture with a caption of its own.
pub open spec fn captioned(n: NodeV, text: Seq<char>, href: Option<Seq<char>>) -> NodeV {
    match n {
        NodeV::Picture { caption: _, caption_href: _, caption_parent, sources } => NodeV::Picture {
            caption: Some(text),
            caption_href: href,
            caption_parent,
            sources,
        },
        _ => n,
    }
}

/// Whether a picture stands among the nodes from `i` on.
pub open spec fn has_picture(nodes: Seq<NodeV>, i: int) -> bool
    decreases nodes.len() - i,
{
    i < nodes.len() && (nodes[i] is Picture || has_picture(nodes, i + 1))
}

/// The nodes with a figure's caption on what the figure made, the nodes from
/// `start` on: on its pictures; without one, on the table that leads; else as
/// a node of its own.
pub open spec fn with_figcaption(
    nodes: Seq<NodeV>,
    start: int,
    cap: Option<Seq<char>>,
    href: Option<Seq<char>>,
) -> Seq<NodeV> {
    match cap {
        None => nodes,
        Some(text) => if has_picture(nodes, start) {
            Seq::new(
                nodes.len(),
                |i: int|
                    if i >= start {
                        captioned(nodes[i], text, href)
                    } else {
                        nodes[i]
                    },
            )
        } else if start < nodes.len() && nodes[start] is Table {
            nodes.update(
                start,
                NodeV::Table(
                    TableV {
                        caption: Some(text),
                        caption_parent: CaptionParent::ContainerAfter,
                        ..nodes[start]->Table_0
                    },
                ),
            )
        } else {
            nodes.push(NodeV::Caption { text, href })
        },
    }
}

fn caption_node(n: Node, text: &Vec<char>, href: &Option<Vec<char>>) -> (r: Node)
    ensures
        node_view(r) == captioned(node_view(n), text@, chars_view(*href)),
{
    match n {
        Node::Picture { caption: _, caption_href: _, caption_parent, sources } => Node::Picture {
            caption: Some(string_of(text)),
            caption_href: opt_string(href),
            caption_parent,
            sources,
        },
        other => other,
    }
}

fn any_picture(nodes: &Vec<Node>, from: usize) -> (r: bool)
    ensures
        r == has_picture(nodes_view(nodes@), from as int),
{
    let ghost v = nodes_view(nodes@);
    let mut i: usize = from;
    while i < nodes.len()
        invariant
            from <= i,
            v == nodes_view(nodes@),
            has_picture(v, from as int) == has_picture(v, i as int),
        decreases nodes@.len() - i,
    {
        assert(v[i as int] == node_view(nodes@[i as int]));
        match &nodes[i] {
            Node::Picture { .. } => {
                return true;
            },
            _ => {},
        }
        i += 1;
    }
    false
}

fn add_figcaption(
    nodes: &mut Vec<Node>,
    start: usize,
    cap: &Option<Vec<char>>,
    href: &Option<Vec<char>>,
)
    ensures
        nodes_view(final(nodes)@) == with_figcaption(
            nodes_view(old(nodes)@),
            start as int,
            chars_view(*cap),
            chars_view(*href),
        ),
{
    let ghost was = nodes_view(nodes@);
    let ghost want = with_figcaption(was, start as int, chars_view(*cap), chars_view(*href));
    match cap {
        None => {},
        Some(text) => {
            let n: usize = nodes.len();
            if any_picture(nodes, start) {
                let mut i: usize = start;
                assert(start < n);
                while i < n
                    invariant
                        start <= i <= n,
                        nodes@.len() == n,
                        was.len() == n,
                        want.len() == n,
                        forall|k: int|
                            start <= k < n ==> #[trigger] want[k] == captioned(
                                was[k],
                                text@,
                                chars_view(*href),
                            ),
                        forall|k: int| 0 <= k < start ==> #[trigger] want[k] == was[k],
                        forall|k: int| 0 <= k < i ==> node_view(#[trigger] nodes@[k]) == want[k],
                        forall|k: int| i <= k < n ==> node_view(#[trigger] nodes@[k]) == was[k],
                    decreases n - i,
                {
                    let mut x = Node::PageBreak;
                    assert(node_view(nodes@[i as int]) == was[i as int]);
                    assert(want[i as int] == captioned(was[i as int], text@, chars_view(*href)));
                    std::mem::swap(&mut x, &mut nodes[i]);
                    nodes.set(i, caption_node(x, text, href));
                    i += 1;
                }
                assert(nodes_view(nodes@) =~= want);
            } else {
                if start < n {
                    let ghost before = nodes@;
                    assert(was[start as int] == node_view(nodes@[start as int]));
                    let mut x = Node::PageBreak;
                    std::mem::swap(&mut x, &mut nodes[start]);
                    match x {
                        Node::Table(t) => {
                            let caption = Some(string_of(text));
                            let whole = Table {
                                caption,
                                caption_parent: CaptionParent::ContainerAfter,
                                ..t
                            };
                            assert(table_view(whole) == (TableV {
                                caption: Some(text@),
                                caption_parent: CaptionParent::ContainerAfter,
                                ..table_view(t)
                            }));
                            nodes.set(start, Node::Table(whole));
                            assert(nodes_view(nodes@) =~= want) by {
                                assert forall|k: int| 0 <= k < n && k != start implies nodes@[k]
                                    == before[k] by {}
                            }
                            return;
                        },
                        other => {
                            nodes.set(start, other);
                            assert(nodes@ =~= before);
                        },
                    }
                }
                push_node(
                    nodes,
                    Node::Caption { text: string_of(text), href: opt_string(href) },
                );
            }
        },
    }
}

// ------------------------------------------------------------ figures and code

/// The fragments from `i` on that are not blank, tidied, added to `done`.
pub open spec fn tidied_pieces(v: Seq<Seq<char>>, i: int, done: Seq<Seq<char>>) -> Seq<Seq<char>>
    decreases v.len() - i,
{
    if i >= v.len() {
        done
    } else {
        tidied_pieces(
            v,
            i + 1,
            if tidied(v[i]).len() == 0 {
                done
            } else {
                done.push(tidied(v[i]))
            },
        )
    }
}

/// The text of a figure's caption: its fragments with spaces between them.
pub open spec fn figcaption(e: ElementV) -> Option<Seq<char>> {
    match first_tagged(under(e), "figcaption"@) {
        Some(c) => {
            let t = joined(tidied_pieces(pieces(c), 0, seq![]), " "@);
            if t.len() == 0 {
                None
            } else {
                Some(t)
            }
        },
        None => None,
    }
}

fn figcaption_text(e: &Element) -> (r: Option<Vec<char>>)
    ensures
        chars_view(r) == figcaption(e@),
{
    match find_tagged(&descendants(e), "figcaption") {
        Some(c) => {
            let v = pieces_of(c);
            let ghost w = texts(v@);
            let mut out: Vec<Vec<char>> = Vec::new();
            let mut i: usize = 0;
            assert(texts(out@) =~= seq![]);
            while i < v.len()
                invariant
                    i <= v@.len(),
                    w == texts(v@),
                    tidied_pieces(w, 0, seq![]) == tidied_pieces(w, i as int, texts(out@)),
                decreases v@.len() - i,
            {
                broadcast use texts_push;

                assert(w[i as int] == v@[i as int]@);
                let t = normalize_ws(&v[i]);
                if t.len() > 0 {
                    out.push(t);
                }
                i += 1;
            }
            let t = join(&out, " ");
            if t.len() == 0 {
                None
            } else {
                Some(t)
            }
        },
        None => None,
    }
}

/// The first target among the anchors from `i` on.
pub open spec fn target_from(v: Seq<ElementV>, i: int) -> Option<Seq<char>>
    decreases v.len() - i,
{
    if i >= v.len() {
        None
    } else if v[i].tag == "a"@ && plain_attr_of(v[i], "href"@) is Some {
        plain_attr_of(v[i], "href"@)
    } else {
        target_from(v, i + 1)
    }
}

/// The target of the link in a figure's caption.
pub open spec fn figcaption_target(e: ElementV) -> Option<Seq<char>> {
    match first_tagged(under(e), "figcaption"@) {
        Some(c) => match target_from(under(c), 0) {
            Some(h) => if h.len() == 0 {
                None
            } else {
                Some(normalized_url(h))
            },
            None => None,
        },
        None => None,
    }
}

fn figcaption_href(e: &Element) -> (r: Option<Vec<char>>)
    ensures
        chars_view(r) == figcaption_target(e@),
{
    match find_tagged(&descendants(e), "figcaption") {
        Some(c) => {
            let v = descendants(c);
            let ghost w = refs_view(v@);
            let ghost want = figcaption_target(e@);
            let mut i: usize = 0;
            while i < v.len()
                invariant
                    i <= v@.len(),
                    w == refs_view(v@),
                    want == figcaption_target(e@),
                    want == (match target_from(w, i as int) {
                        Some(h) => if h.len() == 0 {
                            None
                        } else {
                            Some(normalized_url(h))
                        },
                        None => None,
                    }),
                decreases v@.len() - i,
            {
                assert(w[i as int] == v@[i as int]@);
                if has_tag(v[i], "a") {
                    match plain_attr(v[i], "href") {
                        Some(h) => {
                            let t = chars_of(h);
                            return if t.len() == 0 {
                                None
                            } else {
                                Some(normalize_url(&t))
                            };
                        },
                        None => {},
                    }
                }
                i += 1;
            }
            None
        },
        None => None,
    }
}

/// Tags of inline code.
pub open spec fn is_code_tag(t: Seq<char>) -> bool {
    t == "code"@ || t == "kbd"@ || t == "samp"@
}

/// The code that is the whole content from child `i` on, `code` being the
/// one met so far.
pub open spec fn lone_code_from(ch: Seq<TreeV>, i: int, code: Option<ElementV>) -> Option<ElementV>
    decreases ch.len() - i,
{
    if i >= ch.len() {
        code
    } else {
        match ch[i] {
            TreeV::Text(t) => if strip(t).len() > 0 {
                None
            } else {
                lone_code_from(ch, i + 1, code)
            },
            TreeV::Element(e) => if !is_code_tag(e.tag) || code is Some {
                None
            } else {
                lone_code_from(ch, i + 1, Some(e))
            },
            TreeV::Other(_) => lone_code_from(ch, i + 1, code),
        }
    }
}

/// The text of a paragraph that is one piece of inline code.
pub open spec fn code_only(e: ElementV) -> Option<Seq<char>> {
    match lone_code_from(e.children, 0, None) {
        Some(c) => Some(all_text(c)),
        None => None,
    }
}

fn lone_code(e: &Element) -> (r: Option<Vec<char>>)
    ensures
        chars_view(r) == code_only(e@),
{
    let ghost v = e@.children;
    let mut code: Option<&Element> = None;
    let mut i: usize = 0;
    while i < e.children.len()
        invariant
            i <= e.children@.len(),
            v == e@.children,
            v == trees_view(e.children@),
            lone_code_from(v, 0, None) == lone_code_from(
                v,
                i as int,
                crate::tree::ref_view(code),
            ),
        decreases e.children@.len() - i,
    {
        assert(v[i as int] == tree_view(e.children@[i as int]));
        match &e.children[i] {
            Tree::Text(t) => {
                if trim(&chars_of(t.as_str())).len() > 0 {
                    return None;
                }
            },
            Tree::Element(c) => {
                let t = c.tag.as_str();
                if !(str_eq(t, "code") || str_eq(t, "kbd") || str_eq(t, "samp")) || code.is_some() {
                    return None;
                }
                code = Some(c);
            },
            Tree::Other(_) => {},
        }
        i += 1;
    }
    match code {
        Some(c) => Some(text_of(c)),
        None => None,
    }
}

/// The language that the words from `i` on of a class name.
pub open spec fn language_from(w: Seq<Seq<char>>, i: int) -> Option<Seq<char>>
    decreases w.len() - i,
{
    if i >= w.len() {
        None
    } else if has_prefix(w[i], "language-"@) {
        Some(w[i].skip("language-"@.len() as int))
    } else if has_prefix(w[i], "lang-"@) {
        Some(w[i].skip("lang-"@.len() as int))
    } else {
        language_from(w, i + 1)
    }
}

/// The language that a class names.
pub open spec fn language(class: Option<Seq<char>>) -> Option<Seq<char>> {
    match class {
        Some(c) => language_from(words_of(c), 0),
        None => None,
    }
}

/// The language that a class names.
pub fn lang_from_class(class: Option<&str>) -> (r: Option<Vec<char>>)
    ensures
        chars_view(r) == language(opt_str(class)),
{
    match class {
        Some(c) => {
            let w = words(&chars_of(c));
            let ghost v = texts(w@);
            let mut i: usize = 0;
            while i < w.len()
                invariant
                    i <= w@.len(),
                    v == texts(w@),
                    v == words_of(c@),
                    opt_str(class) == Some(c@),
                    language_from(v, 0) == language_from(v, i as int),
                decreases w@.len() - i,
            {
                assert(v[i as int] == w@[i as int]@);
                if starts_with(&w[i], "language-") {
                    let r = slice(&w[i], chars_of("language-").len(), w[i].len());
                    assert(r@ =~= v[i as int].skip("language-"@.len() as int));
                    return Some(r);
                }
                if starts_with(&w[i], "lang-") {
                    let r = slice(&w[i], chars_of("lang-").len(), w[i].len());
                    assert(r@ =~= v[i as int].skip("lang-"@.len() as int));
                    return Some(r);
                }
                i += 1;
            }
            None
        },
        None => None,
    }
}

/// A code block: the language of its code element's class or of its own, and
/// its text without the newlines at its ends.
pub open spec fn code_block(e: ElementV) -> NodeV {
    let inner = match first_tagged(under(e), "code"@) {
        Some(c) => language(plain_attr_of(c, "class"@)),
        None => None,
    };
    NodeV::Code {
        language: either_of(inner, language(plain_attr_of(e, "class"@))),
        text: unbroken(all_text(e)),
    }
}

fn extract_pre(e: &Element) -> (r: Node)
    ensures
        node_view(r) == code_block(e@),
{
    let mut found = match find_tagged(&descendants(e), "code") {
        Some(c) => lang_from_class(plain_attr(c, "class")),
        None => None,
    };
    if found.is_none() {
        found = lang_from_class(plain_attr(e, "class"));
    }
    Node::Code { language: opt_string(&found), text: string_of(&trim_newlines(&text_of(e))) }
}

// ------------------------------------------------------------ forms

/// The part of a key-value field that an id names.
#[derive(Clone, Copy, Debug, PartialEq, Eq, Structural)]
pub enum KvpKind {
    Marker,
    Key,
    Value,
}

/// The field and part that an id names: `keyN`; `keyN_marker` or
/// `keyN_markerM`; `keyN_valueM`.
pub open spec fn kvp_id(id: Seq<char>) -> Option<(int, KvpKind)> {
    if !has_prefix(id, "key"@) {
        None
    } else {
        let rest = id.skip("key"@.len() as int);
        let k = index_from(rest, '_', 0);
        match uint(rest, u32::MAX as int) {
            Some(n) => Some((n, KvpKind::Key)),
            None => if k >= rest.len() {
                None
            } else {
                let suffix = rest.skip(k + 1);
                match uint(rest.take(k), u32::MAX as int) {
                    None => None,
                    Some(n) => if suffix == "marker"@ || (has_prefix(suffix, "marker"@) && uint(
                        suffix.skip("marker"@.len() as int),
                        u32::MAX as int,
                    ) is Some) {
                        Some((n, KvpKind::Marker))
                    } else if has_prefix(suffix, "value"@) && uint(
                        suffix.skip("value"@.len() as int),
                        u32::MAX as int,
                    ) is Some {
                        Some((n, KvpKind::Value))
                    } else {
                        None
                    },
                }
            },
        }
    }
}

/// View of a parsed id.
pub open spec fn kvp_view(o: Option<(u32, KvpKind)>) -> Option<(int, KvpKind)> {
    match o {
        Some(x) => Some((x.0 as int, x.1)),
        None => None,
    }
}

/// The field and part that an id names.
pub fn parse_kvp_id(id: &Vec<char>) -> (r: Option<(u32, KvpKind)>)
    ensures
        kvp_view(r) == kvp_id(id@),
{
    if !starts_with(id, "key") {
        return None;
    }
    let rest = slice(id, chars_of("key").len(), id.len());
    assert(rest@ =~= id@.skip("key"@.len() as int));
    match parse_uint(&rest, u32::MAX as u128) {
        Some(n) => {
            return Some((n as u32, KvpKind::Key));
        },
        None => {},
    }
    let k = find_from(&rest, '_', 0);
    if k >= rest.len() {
        return None;
    }
    let num = slice(&rest, 0, k);
    let suffix = slice(&rest, k + 1, rest.len());
    assert(num@ =~= rest@.take(k as int));
    assert(suffix@ =~= rest@.skip(k + 1));
    match parse_uint(&num, u32::MAX as u128) {
        None => None,
        Some(n) => {
            if is(&suffix, "marker") {
                return Some((n as u32, KvpKind::Marker));
            }
            if starts_with(&suffix, "marker") {
                let m = slice(&suffix, chars_of("marker").len(), suffix.len());
                assert(m@ =~= suffix@.skip("marker"@.len() as int));
                if parse_uint(&m, u32::MAX as u128).is_some() {
                    return Some((n as u32, KvpKind::Marker));
                }
            }
            if starts_with(&suffix, "value") {
                let m = slice(&suffix, chars_of("value").len(), suffix.len());
                assert(m@ =~= suffix@.skip("value"@.len() as int));
                if parse_uint(&m, u32::MAX as u128).is_some() {
                    return Some((n as u32, KvpKind::Value));
                }
            }
            None
        },
    }
}

/// A numbered field.
#[verifier::ext_equal]
pub struct NumberedV {
    pub number: int,
    pub field: FieldItemV,
}

/// A field with a part set, if it has none yet.
pub open spec fn with_field_part(f: FieldItemV, kind: KvpKind, text: Seq<char>) -> FieldItemV {
    match kind {
        KvpKind::Marker => FieldItemV { marker: either_of(f.marker, Some(text)), ..f },
        KvpKind::Key => FieldItemV { key: either_of(f.key, Some(text)), ..f },
        KvpKind::Value => FieldItemV { value: either_of(f.value, Some(text)), ..f },
    }
}

/// The fields, in the order of their numbers, with a part set in the one with
/// a number, which comes in where it is new. The search begins at `i`.
pub open spec fn placed_part(
    fields: Seq<NumberedV>,
    i: int,
    number: int,
    kind: KvpKind,
    text: Seq<char>,
) -> Seq<NumberedV>
    decreases fields.len() - i,
{
    let new = FieldItemV { marker: None, key: None, value: None };
    if i >= fields.len() {
        fields.push(NumberedV { number, field: with_field_part(new, kind, text) })
    } else if fields[i].number == number {
        fields.update(
            i,
            NumberedV { number, field: with_field_part(fields[i].field, kind, text) },
        )
    } else if fields[i].number > number {
        fields.insert(i, NumberedV { number, field: with_field_part(new, kind, text) })
    } else {
        placed_part(fields, i + 1, number, kind, text)
    }
}

/// The fields with those of the elements from `i` on.
pub open spec fn fields_of(v: Seq<ElementV>, i: int, done: Seq<NumberedV>) -> Seq<NumberedV>
    decreases v.len() - i,
{
    if i >= v.len() {
        done
    } else {
        fields_of(
            v,
            i + 1,
            match plain_attr_of(v[i], "id"@) {
                Some(id) => match kvp_id(id) {
                    Some(x) => if tidied(all_text(v[i])).len() == 0 {
                        done
                    } else {
                        placed_part(done, 0, x.0, x.1, tidied(all_text(v[i])))
                    },
                    None => done,
                },
                None => done,
            },
        )
    }
}

/// The fields without their numbers.
pub open spec fn unnumbered(v: Seq<NumberedV>) -> Seq<FieldItemV> {
    Seq::new(v.len(), |i: int| v[i].field)
}

/// The fields of a form region, in the order of their numbers; none where the
/// element is no such region.
pub open spec fn field_region(e: ElementV) -> Option<Seq<FieldItemV>> {
    let marked = match plain_attr_of(e, "class"@) {
        Some(c) => words_of(c).contains("form_region"@),
        None => false,
    };
    let fields = fields_of(under(e), 0, seq![]);
    if marked && fields.len() > 0 {
        Some(unnumbered(fields))
    } else {
        None
    }
}

struct Numbered {
    number: u32,
    field: FieldItem,
}

impl Numbered {
    spec fn model(self) -> NumberedV {
        NumberedV { number: self.number as int, field: self.field@ }
    }
}

spec fn numbered_view(v: Seq<Numbered>) -> Seq<NumberedV> {
    Seq::new(v.len(), |i: int| v[i].model())
}

fn set_field_part(f: FieldItem, kind: KvpKind, text: &Vec<char>) -> (r: FieldItem)
    ensures
        r@ == with_field_part(f@, kind, text@),
{
    let FieldItem { marker, key, value } = f;
    match kind {
        KvpKind::Marker => FieldItem {
            marker: match marker {
                Some(x) => Some(x),
                None => Some(string_of(text)),
            },
            key,
            value,
        },
        KvpKind::Key => FieldItem {
            marker,
            key: match key {
                Some(x) => Some(x),
                None => Some(string_of(text)),
            },
            value,
        },
        KvpKind::Value => FieldItem {
            marker,
            key,
            value: match value {
                Some(x) => Some(x),
                None => Some(string_of(text)),
            },
        },
    }
}

fn place_part(fields: &mut Vec<Numbered>, number: u32, kind: KvpKind, text: &Vec<char>)
    ensures
        numbered_view(final(fields)@) == placed_part(
            numbered_view(old(fields)@),
            0,
            number as int,
            kind,
            text@,
        ),
{
    let ghost was = numbered_view(fields@);
    let ghost want = placed_part(was, 0, number as int, kind, text@);
    let new = FieldItem { marker: None, key: None, value: None };
    let mut i: usize = 0;
    while i < fields.len() && fields[i].number < number
        invariant
            i <= fields@.len(),
            was == numbered_view(fields@),
            want == placed_part(was, i as int, number as int, kind, text@),
        decreases fields@.len() - i,
    {
        assert(was[i as int] == fields@[i as int].model());
        i += 1;
    }
    if i < fields.len() && fields[i].number == number {
        assert(was[i as int] == fields@[i as int].model());
        let mut x = Numbered { number, field: new };
        std::mem::swap(&mut x, &mut fields[i]);
        fields.set(i, Numbered { number, field: set_field_part(x.field, kind, text) });
        assert(numbered_view(fields@) =~= want);
    } else {
        assert(i < fields@.len() ==> was[i as int] == fields@[i as int].model());
        let x = Numbered { number, field: set_field_part(new, kind, text) };
        fields.insert(i, x);
        assert(i < was.len() ==> numbered_view(fields@) =~= was.insert(i as int, x.model()));
        assert(i == was.len() ==> numbered_view(fields@) =~= was.push(x.model()));
        assert(numbered_view(fields@) =~= want);
    }
}

fn has_word(s: &str, word: &str) -> (r: bool)
    ensures
        r == words_of(s@).contains(word@),
{
    let w = words(&chars_of(s));
    let ghost v = texts(w@);
    let mut i: usize = 0;
    while i < w.len()
        invariant
            i <= w@.len(),
            v == texts(w@),
            v == words_of(s@),
            forall|k: int| 0 <= k < i ==> #[trigger] v[k] != word@,
        decreases w@.len() - i,
    {
        assert(v[i as int] == w@[i as int]@);
        if is(&w[i], word) {
            return true;
        }
        i += 1;
    }
    false
}

/// The fields of a form region.
pub fn detect_field_region(e: &Element) -> (r: Option<Vec<FieldItem>>)
    ensures
        match field_region(e@) {
            Some(f) => r matches Some(v) && fields_view(v@) == f,
            None => r is None,
        },
{
    match plain_attr(e, "class") {
        Some(c) => {
            if !has_word(c, "form_region") {
                return None;
            }
        },
        None => {
            return None;
        },
    }
    let v = descendants(e);
    let ghost w = refs_view(v@);
    let mut fields: Vec<Numbered> = Vec::new();
    let mut i: usize = 0;
    assert(numbered_view(fields@) =~= seq![]);
    while i < v.len()
        invariant
            i <= v@.len(),
            w == refs_view(v@),
            fields_of(w, 0, seq![]) == fields_of(w, i as int, numbered_view(fields@)),
        decreases v@.len() - i,
    {
        assert(w[i as int] == v@[i as int]@);
        match plain_attr(v[i], "id") {
            Some(id) => match parse_kvp_id(&chars_of(id)) {
                Some(x) => {
                    let t = normalize_ws(&text_of(v[i]));
                    if t.len() > 0 {
                        place_part(&mut fields, x.0, x.1, &t);
                    }
                },
                None => {},
            },
            None => {},
        }
        i += 1;
    }
    if fields.len() == 0 {
        return None;
    }
    let ghost all = numbered_view(fields@);
    let mut out: Vec<FieldItem> = Vec::new();
    let n: usize = fields.len();
    let mut k: usize = 0;
    while k < n
        invariant
            k <= n,
            fields@.len() == n,
            all.len() == n,
            out@.len() == k,
            forall|m: int| 0 <= m < k ==> (#[trigger] out@[m])@ == all[m].field,
            forall|m: int| k <= m < n ==> (#[trigger] fields@[m]).model() == all[m],
        decreases n - k,
    {
        let mut x = Numbered {
            number: 0,
            field: FieldItem { marker: None, key: None, value: None },
        };
        assert(fields@[k as int].model() == all[k as int]);
        std::mem::swap(&mut x, &mut fields[k]);
        out.push(x.field);
        k += 1;
    }
    assert(fields_view(out@) =~= unnumbered(all));
    Some(out)
}

/// The texts of the labels from `i` on that are bound to an id, added to
/// `done`.
pub open spec fn bound_labels(v: Seq<ElementV>, i: int, id: Seq<char>, done: Seq<Seq<char>>) -> Seq<
    Seq<char>,
>
    decreases v.len() - i,
{
    if i >= v.len() {
        done
    } else {
        bound_labels(
            v,
            i + 1,
            id,
            if v[i].tag == "label"@ && plain_attr_of(v[i], "for"@) == Some(id) && tidied(
                all_text(v[i]),
            ).len() > 0 {
                done.push(tidied(all_text(v[i])))
            } else {
                done
            },
        )
    }
}

/// The text of the label that wraps a check box.
pub open spec fn wrapped_label(wrap: Option<ElementV>) -> Seq<char> {
    match wrap {
        Some(l) => tidied(all_text(l)),
        None => seq![],
    }
}

/// The text of a check box: that of the labels bound to it in the document,
/// else that of the label `wrap` that it stands in, else its own label.
pub open spec fn checkbox_label(e: ElementV, root: ElementV, wrap: Option<ElementV>) -> Seq<char> {
    let labels = match some_attr(e, "id"@) {
        Some(id) => bound_labels(under(root), 0, id, seq![]),
        None => seq![],
    };
    if labels.len() > 0 {
        joined(labels, " "@)
    } else if wrapped_label(wrap).len() > 0 {
        wrapped_label(wrap)
    } else {
        match plain_attr_of(e, "aria-label"@) {
            Some(a) => tidied(a),
            None => seq![],
        }
    }
}

fn attr_equals(e: &Element, name: &str, value: &Vec<char>) -> (r: bool)
    ensures
        r == (plain_attr_of(e@, name@) == Some(value@)),
{
    match plain_attr(e, name) {
        Some(v) => same(&chars_of(v), value),
        None => false,
    }
}

fn checkbox_label_text(e: &Element, root: &Element, wrap: Option<&Element>) -> (r: Vec<char>)
    ensures
        r@ == checkbox_label(e@, root@, ref_view(wrap)),
{
    let mut labels: Vec<Vec<char>> = Vec::new();
    assert(texts(labels@) =~= seq![]);
    match filled_attr(e, "id") {
        Some(id) => {
            let v = descendants(root);
            let ghost w = refs_view(v@);
            let mut i: usize = 0;
            while i < v.len()
                invariant
                    i <= v@.len(),
                    w == refs_view(v@),
                    bound_labels(w, 0, id@, seq![]) == bound_labels(
                        w,
                        i as int,
                        id@,
                        texts(labels@),
                    ),
                decreases v@.len() - i,
            {
                broadcast use texts_push;

                assert(w[i as int] == v@[i as int]@);
                if has_tag(v[i], "label") && attr_equals(v[i], "for", &id) {
                    let t = normalize_ws(&text_of(v[i]));
                    if t.len() > 0 {
                        labels.push(t);
                    }
                }
                i += 1;
            }
        },
        None => {},
    }
    assert(texts(labels@).len() == labels@.len());
    if labels.len() > 0 {
        return join(&labels, " ");
    }
    match wrap {
        Some(l) => {
            let t = normalize_ws(&text_of(l));
            if t.len() > 0 {
                return t;
            }
        },
        None => {},
    }
    match plain_attr(e, "aria-label") {
        Some(a) => normalize_ws(&chars_of(a)),
        None => Vec::new(),
    }
}

/// Whether an input is a check box or a radio button.
pub open spec fn is_choice(e: ElementV) -> bool {
    let t = lowered(or_empty(plain_attr_of(e, "type"@)));
    e.tag == "input"@ && (t == "checkbox"@ || t == "radio"@)
}

fn choice(e: &Element) -> (r: bool)
    ensures
        r == is_choice(e@),
{
    let t = to_lower(&chars_or_empty(plain_attr(e, "type")));
    has_tag(e, "input") && (is(&t, "checkbox") || is(&t, "radio"))
}

/// The first input from `i` on with an id.
pub open spec fn input_by_id(v: Seq<ElementV>, i: int, id: Seq<char>) -> Option<ElementV>
    decreases v.len() - i,
{
    if i >= v.len() {
        None
    } else if v[i].tag == "input"@ && plain_attr_of(v[i], "id"@) == Some(id) {
        Some(v[i])
    } else {
        input_by_id(v, i + 1, id)
    }
}

/// Whether a check box stands among the elements from `i` on.
pub open spec fn has_choice(v: Seq<ElementV>, i: int) -> bool
    decreases v.len() - i,
{
    i < v.len() && (is_choice(v[i]) || has_choice(v, i + 1))
}

/// Whether a label's text is a check box's: it is bound to one, or holds one.
pub open spec fn feeds_choice(e: ElementV, root: ElementV) -> bool {
    match some_attr(e, "for"@) {
        Some(id) => match input_by_id(under(root), 0, id) {
            Some(input) => is_choice(input),
            None => false,
        },
        None => has_choice(under(e), 0),
    }
}

fn label_feeds_checkbox(e: &Element, root: &Element) -> (r: bool)
    ensures
        r == feeds_choice(e@, root@),
{
    match filled_attr(e, "for") {
        Some(id) => {
            let v = descendants(root);
            let ghost w = refs_view(v@);
            let ghost want = feeds_choice(e@, root@);
            let mut i: usize = 0;
            while i < v.len()
                invariant
                    i <= v@.len(),
                    w == refs_view(v@),
                    want == feeds_choice(e@, root@),
                    want == (match input_by_id(w, i as int, id@) {
                        Some(input) => is_choice(input),
                        None => false,
                    }),
                decreases v@.len() - i,
            {
                assert(w[i as int] == v@[i as int]@);
                if has_tag(v[i], "input") && attr_equals(v[i], "id", &id) {
                    return choice(v[i]);
                }
                i += 1;
            }
            false
        },
        None => {
            let v = descendants(e);
            let ghost w = refs_view(v@);
            let ghost want = feeds_choice(e@, root@);
            let mut i: usize = 0;
            while i < v.len()
                invariant
                    i <= v@.len(),
                    w == refs_view(v@),
                    want == feeds_choice(e@, root@),
                    want == has_choice(w, i as int),
                decreases v@.len() - i,
            {
                assert(w[i as int] == v@[i as int]@);
                if choice(v[i]) {
                    return true;
                }
                i += 1;
            }
            false
        },
    }
}

/// The text that an input shows: its value, its hint, or its name.
pub open spec fn input_text(e: ElementV) -> Option<Seq<char>> {
    either_of(
        solid_attr(e, "value"@),
        either_of(solid_attr(e, "placeholder"@), solid_attr(e, "name"@)),
    )
}

/// The nodes with a check box added, if it has a text. `wrap` is the label that
/// it stands in.
pub open spec fn with_choice(
    e: ElementV,
    root: ElementV,
    wrap: Option<ElementV>,
    nodes: Seq<NodeV>,
) -> Seq<NodeV> {
    let text = checkbox_label(e, root, wrap);
    if text.len() == 0 {
        nodes
    } else {
        nodes.push(NodeV::CheckboxItem { checked: plain_attr_of(e, "checked"@) is Some, text })
    }
}

fn add_choice(e: &Element, root: &Element, wrap: Option<&Element>, nodes: &mut Vec<Node>)
    ensures
        nodes_view(final(nodes)@) == with_choice(
            e@,
            root@,
            ref_view(wrap),
            nodes_view(old(nodes)@),
        ),
{
    let text = checkbox_label_text(e, root, wrap);
    if text.len() > 0 {
        push_node(
            nodes,
            Node::CheckboxItem {
                checked: plain_attr(e, "checked").is_some(),
                text: string_of(&text),
            },
        );
    }
}

/// The nodes with the check boxes from `i` on added that stand in a label,
/// each with the text of the label around it.
pub open spec fn choices_from(
    ch: Seq<TreeV>,
    i: int,
    wrap: ElementV,
    root: ElementV,
    nodes: Seq<NodeV>,
) -> Seq<NodeV>
    decreases ch, ch.len() - i,
{
    if i < 0 || i >= ch.len() {
        nodes
    } else {
        choices_from(
            ch,
            i + 1,
            wrap,
            root,
            match ch[i] {
                TreeV::Element(e) => if is_skipped_tag(e.tag) || is_hidden_el(e) {
                    nodes
                } else if is_choice(e) {
                    with_choice(e, root, Some(wrap), nodes)
                } else {
                    choices_from(
                        e.children,
                        0,
                        if e.tag == "label"@ {
                            e
                        } else {
                            wrap
                        },
                        root,
                        nodes,
                    )
                },
                _ => nodes,
            },
        )
    }
}

fn add_choices(ch: &Vec<Tree>, wrap: &Element, root: &Element, nodes: &mut Vec<Node>)
    ensures
        nodes_view(final(nodes)@) == choices_from(
            trees_view(ch@),
            0,
            wrap@,
            root@,
            nodes_view(old(nodes)@),
        ),
    decreases ch,
{
    let ghost v = trees_view(ch@);
    let ghost first = nodes_view(nodes@);
    let mut i: usize = 0;
    while i < ch.len()
        invariant
            i <= ch@.len(),
            v == trees_view(ch@),
            choices_from(v, 0, wrap@, root@, first) == choices_from(
                v,
                i as int,
                wrap@,
                root@,
                nodes_view(nodes@),
            ),
        decreases ch@.len() - i,
    {
        assert(v[i as int] == tree_view(ch@[i as int]));
        match &ch[i] {
            Tree::Element(e) => {
                if is_skipped(e.tag.as_str()) || is_hidden(e) {
                } else if choice(e) {
                    add_choice(e, root, Some(wrap), nodes);
                } else if has_tag(e, "label") {
                    add_choices(&e.children, e, root, nodes);
                } else {
                    add_choices(&e.children, wrap, root, nodes);
                }
            },
            _ => {},
        }
        i += 1;
    }
}

/// The nodes with an input added: a check box with its label, or the text of
/// another input; a hidden one adds none.
pub open spec fn with_input(e: ElementV, root: ElementV, nodes: Seq<NodeV>) -> Seq<NodeV> {
    let t = lowered(or_empty(plain_attr_of(e, "type"@)));
    if t == "hidden"@ {
        nodes
    } else if t == "checkbox"@ || t == "radio"@ {
        with_choice(e, root, None, nodes)
    } else {
        match input_text(e) {
            Some(s) => nodes.push(NodeV::Paragraph { text: escaped(tidied(s)) }),
            None => nodes,
        }
    }
}

fn add_input(e: &Element, root: &Element, nodes: &mut Vec<Node>)
    ensures
        nodes_view(final(nodes)@) == with_input(e@, root@, nodes_view(old(nodes)@)),
{
    let t = to_lower(&chars_or_empty(plain_attr(e, "type")));
    if is(&t, "hidden") {
        return;
    }
    if is(&t, "checkbox") || is(&t, "radio") {
        add_choice(e, root, None, nodes);
        return;
    }
    let mut shown = trimmed_attr(e, "value");
    if shown.is_none() {
        shown = trimmed_attr(e, "placeholder");
    }
    if shown.is_none() {
        shown = trimmed_attr(e, "name");
    }
    match shown {
        Some(s) => {
            push_node(nodes, paragraph(&escape_text(&normalize_ws(&s))));
        },
        None => {},
    }
}

// ------------------------------------------------------------ cells

/// The text of a node as a source reader has it: a blank text is one newline
/// or space, any other keeps its white space.
pub open spec fn source_text(t: Seq<char>, i: int, out: Seq<char>) -> Seq<char>
    decreases t.len() - i,
{
    if i >= t.len() {
        out
    } else {
        source_text(
            t,
            i + 1,
            if is_invisible(t[i]) {
                out
            } else if t[i] == '\u{a0}' || t[i] == '\u{202f}' {
                out.push(' ')
            } else {
                out + plain(t[i])
            },
        )
    }
}

/// Whether a text is ASCII white space.
pub open spec fn is_blank(t: Seq<char>) -> bool {
    forall|i: int| 0 <= i < t.len() ==> ascii_white(#[trigger] t[i])
}

/// The text under the nodes from `i` on added to `out`: a space behind each
/// paragraph, item and cell, a newline for a line break.
pub open spec fn subtree_from(ch: Seq<TreeV>, i: int, out: Seq<char>) -> Seq<char>
    decreases ch, ch.len() - i,
{
    if i < 0 || i >= ch.len() {
        out
    } else {
        subtree_from(
            ch,
            i + 1,
            match ch[i] {
                TreeV::Text(t) => if is_blank(t) {
                    out.push(
                        if t.contains('\n') {
                            '\n'
                        } else {
                            ' '
                        },
                    )
                } else {
                    source_text(t, 0, out)
                },
                TreeV::Element(e) => if is_skipped_tag(e.tag) || is_hidden_el(e) {
                    out
                } else if e.tag == "br"@ {
                    out.push('\n')
                } else {
                    let inner = subtree_from(e.children, 0, out);
                    if e.tag == "p"@ || e.tag == "li"@ || e.tag == "th"@ || e.tag == "td"@ {
                        inner.push(' ')
                    } else {
                        inner
                    }
                },
                TreeV::Other(_) => out,
            },
        )
    }
}

fn blank_text(t: &Vec<char>) -> (r: bool)
    ensures
        r == is_blank(t@),
{
    let mut i: usize = 0;
    while i < t.len()
        invariant
            i <= t@.len(),
            forall|k: int| 0 <= k < i ==> ascii_white(#[trigger] t@[k]),
        decreases t@.len() - i,
    {
        if !is_ascii_white(t[i]) {
            assert(!ascii_white(t@[i as int]));
            return false;
        }
        i += 1;
    }
    true
}

fn has_char(t: &Vec<char>, c: char) -> (r: bool)
    ensures
        r == t@.contains(c),
{
    let mut i: usize = 0;
    while i < t.len()
        invariant
            i <= t@.len(),
            forall|k: int| 0 <= k < i ==> #[trigger] t@[k] != c,
        decreases t@.len() - i,
    {
        if t[i] == c {
            assert(t@[i as int] == c);
            return true;
        }
        i += 1;
    }
    false
}

fn push_source(out: &mut Vec<char>, t: &Vec<char>)
    ensures
        final(out)@ == source_text(t@, 0, old(out)@),
{
    let ghost first = out@;
    let mut i: usize = 0;
    while i < t.len()
        invariant
            i <= t@.len(),
            source_text(t@, 0, first) == source_text(t@, i as int, out@),
        decreases t@.len() - i,
    {
        let c = t[i];
        if invisible(c) {
        } else if c == '\u{a0}' || c == '\u{202f}' {
            out.push(' ');
        } else {
            push_plain(out, c);
        }
        i += 1;
    }
}

fn subtree_text(ch: &Vec<Tree>, out: &mut Vec<char>)
    ensures
        final(out)@ == subtree_from(trees_view(ch@), 0, old(out)@),
    decreases ch,
{
    let ghost v = trees_view(ch@);
    let ghost first = out@;
    let mut i: usize = 0;
    while i < ch.len()
        invariant
            i <= ch@.len(),
            v == trees_view(ch@),
            subtree_from(v, 0, first) == subtree_from(v, i as int, out@),
        decreases ch@.len() - i,
    {
        assert(v[i as int] == tree_view(ch@[i as int]));
        match &ch[i] {
            Tree::Text(s) => {
                let t = chars_of(s.as_str());
                if blank_text(&t) {
                    out.push(
                        if has_char(&t, '\n') {
                            '\n'
                        } else {
                            ' '
                        },
                    );
                } else {
                    push_source(out, &t);
                }
            },
            Tree::Element(e) => {
                if is_skipped(e.tag.as_str()) || is_hidden(e) {
                } else if has_tag(e, "br") {
                    out.push('\n');
                } else {
                    subtree_text(&e.children, out);
                    if has_tag(e, "p") || has_tag(e, "li") || has_tag(e, "th") || has_tag(e, "td") {
                        out.push(' ');
                    }
                }
            },
            Tree::Other(_) => {},
        }
        i += 1;
    }
}

/// The cells of a table in document order, each as plain text. `depth` is 0
/// for the children of the table, 1 for those of a section, 2 for those of a
/// row.
pub open spec fn flat_cells(ch: Seq<TreeV>, i: int, depth: int, done: Seq<RenderedV>) -> Seq<
    RenderedV,
>
    decreases ch, ch.len() - i,
{
    if i < 0 || i >= ch.len() {
        done
    } else {
        flat_cells(
            ch,
            i + 1,
            depth,
            match ch[i] {
                TreeV::Element(e) => if depth == 2 {
                    if e.tag == "td"@ || e.tag == "th"@ {
                        done.push(
                            RenderedV {
                                text: strip(subtree_from(e.children, 0, seq![])),
                                rich: false,
                                blocks: seq![],
                            },
                        )
                    } else {
                        done
                    }
                } else if e.tag == "tr"@ {
                    flat_cells(e.children, 0, 2, done)
                } else if depth == 0 && is_section(e.tag) {
                    flat_cells(e.children, 0, 1, done)
                } else {
                    done
                },
                _ => done,
            },
        )
    }
}

fn collect_flat_cells(ch: &Vec<Tree>, depth: u8, out: &mut Vec<Rendered>)
    ensures
        rendered_view(final(out)@) == flat_cells(
            trees_view(ch@),
            0,
            depth as int,
            rendered_view(old(out)@),
        ),
    decreases ch,
{
    let ghost v = trees_view(ch@);
    let ghost first = rendered_view(out@);
    let mut i: usize = 0;
    while i < ch.len()
        invariant
            i <= ch@.len(),
            v == trees_view(ch@),
            flat_cells(v, 0, depth as int, first) == flat_cells(
                v,
                i as int,
                depth as int,
                rendered_view(out@),
            ),
        decreases ch@.len() - i,
    {
        broadcast use rendered_view_push;

        assert(v[i as int] == tree_view(ch@[i as int]));
        match &ch[i] {
            Tree::Element(e) => {
                if depth == 2 {
                    if has_tag(e, "td") || has_tag(e, "th") {
                        let mut text: Vec<char> = Vec::new();
                        assert(text@ =~= seq![]);
                        subtree_text(&e.children, &mut text);
                        let blocks: Vec<Node> = Vec::new();
                        assert(nodes_view(blocks@) =~= seq![]);
                        let x = Rendered { text: trim(&text), rich: false, blocks };
                        out.push(x);
                    }
                } else if has_tag(e, "tr") {
                    collect_flat_cells(&e.children, 2, out);
                } else if depth == 0 && section(e.tag.as_str()) {
                    collect_flat_cells(&e.children, 1, out);
                }
            },
            _ => {},
        }
        i += 1;
    }
}

/// The cells of a row from `i` on that are not empty, added to `done`.
pub open spec fn full_cells(row: Seq<Seq<char>>, i: int, done: Seq<Seq<char>>) -> Seq<Seq<char>>
    decreases row.len() - i,
{
    if i >= row.len() {
        done
    } else {
        full_cells(
            row,
            i + 1,
            if row[i].len() == 0 {
                done
            } else {
                done.push(row[i])
            },
        )
    }
}

/// The cells of the rows from `i` on that are not empty, added to `done`.
pub open spec fn full_rows(rows: Seq<Seq<Seq<char>>>, i: int, done: Seq<Seq<char>>) -> Seq<Seq<char>>
    decreases rows.len() - i,
{
    if i >= rows.len() {
        done
    } else {
        full_rows(rows, i + 1, full_cells(rows[i], 0, done))
    }
}

/// The text of a table inside a cell: the cells of its grid with spaces
/// between them.
pub open spec fn flattened(e: ElementV) -> Seq<char> {
    match laid_out(e, flat_cells(e.children, 0, 0, seq![])) {
        Some(t) => joined(full_rows(t.rows, 0, seq![]), " "@),
        None => seq![],
    }
}

fn flatten_nested_table(e: &Element) -> (r: Vec<char>)
    ensures
        r@ == flattened(e@),
{
    let mut shown: Vec<Rendered> = Vec::new();
    assert(rendered_view(shown@) =~= seq![]);
    collect_flat_cells(&e.children, 0, &mut shown);
    let t = match lay_out(e, shown) {
        Some(t) => t,
        None => {
            let none: Vec<char> = Vec::new();
            assert(none@ =~= seq![]);
            return none;
        },
    };
    let ghost rows = table_view(t).rows;
    let mut out: Vec<Vec<char>> = Vec::new();
    let mut i: usize = 0;
    assert(texts(out@) =~= seq![]);
    while i < t.rows.len()
        invariant
            i <= t.rows@.len(),
            rows == crate::document::grid(t.rows@),
            full_rows(rows, 0, seq![]) == full_rows(rows, i as int, texts(out@)),
        decreases t.rows@.len() - i,
    {
        let ghost row = rows[i as int];
        assert(row == strs(t.rows@[i as int]@));
        let ghost before = texts(out@);
        let mut j: usize = 0;
        while j < t.rows[i].len()
            invariant
                i < t.rows@.len(),
                j <= t.rows@[i as int]@.len(),
                row == strs(t.rows@[i as int]@),
                full_cells(row, 0, before) == full_cells(row, j as int, texts(out@)),
            decreases t.rows@[i as int]@.len() - j,
        {
            broadcast use texts_push;

            let c = chars_of(t.rows[i][j].as_str());
            assert(row[j as int] == c@);
            if c.len() > 0 {
                out.push(c);
            }
            j += 1;
        }
        i += 1;
    }
    join(&out, " ")
}

/// The number of text runs under the nodes from `i` on, and whether one of
/// them is marked up.
pub open spec fn richness(ch: Seq<TreeV>, i: int, marked: bool, done: (int, bool)) -> (int, bool)
    decreases ch, ch.len() - i,
{
    if i < 0 || i >= ch.len() {
        done
    } else {
        richness(
            ch,
            i + 1,
            marked,
            match ch[i] {
                TreeV::Text(t) => if tidied(t).len() == 0 {
                    done
                } else {
                    (done.0 + 1, done.1 || marked)
                },
                TreeV::Element(e) => richness(e.children, 0, marked || is_mark(e.tag), done),
                TreeV::Other(_) => done,
            },
        )
    }
}

/// Tags that mark text up.
pub open spec fn is_mark(t: Seq<char>) -> bool {
    t == "a"@ || t == "b"@ || t == "strong"@ || t == "i"@ || t == "em"@ || t == "var"@ || t == "s"@
        || t == "del"@ || t == "strike"@ || t == "u"@ || t == "ins"@ || t == "sub"@ || t == "sup"@
        || is_code_tag(t)
}

fn marks(t: &str) -> (r: bool)
    ensures
        r == is_mark(t@),
{
    str_eq(t, "a") || str_eq(t, "b") || str_eq(t, "strong") || str_eq(t, "i") || str_eq(t, "em")
        || str_eq(t, "var") || str_eq(t, "s") || str_eq(t, "del") || str_eq(t, "strike") || str_eq(
        t,
        "u",
    ) || str_eq(t, "ins") || str_eq(t, "sub") || str_eq(t, "sup") || str_eq(t, "code") || str_eq(
        t,
        "kbd",
    ) || str_eq(t, "samp")
}

/// The number of runs, counted no further than two.
pub open spec fn few(n: int) -> int {
    if n > 2 {
        2
    } else {
        n
    }
}

proof fn richness_grows(ch: Seq<TreeV>, i: int, marked: bool, a: (int, bool), b: (int, bool))
    requires
        few(a.0) == few(b.0),
        a.1 == b.1,
        a.0 >= 0,
        b.0 >= 0,
    ensures
        few(richness(ch, i, marked, a).0) == few(richness(ch, i, marked, b).0),
        richness(ch, i, marked, a).1 == richness(ch, i, marked, b).1,
        richness(ch, i, marked, a).0 >= 0,
        richness(ch, i, marked, b).0 >= 0,
    decreases ch, ch.len() - i,
{
    if 0 <= i < ch.len() {
        match ch[i] {
            TreeV::Text(t) => {
                let x = if tidied(t).len() == 0 {
                    a
                } else {
                    (a.0 + 1, a.1 || marked)
                };
                let y = if tidied(t).len() == 0 {
                    b
                } else {
                    (b.0 + 1, b.1 || marked)
                };
                richness_grows(ch, i + 1, marked, x, y);
            },
            TreeV::Element(e) => {
                richness_grows(e.children, 0, marked || is_mark(e.tag), a, b);
                richness_grows(
                    ch,
                    i + 1,
                    marked,
                    richness(e.children, 0, marked || is_mark(e.tag), a),
                    richness(e.children, 0, marked || is_mark(e.tag), b),
                );
            },
            TreeV::Other(_) => {
                richness_grows(ch, i + 1, marked, a, b);
            },
        }
    }
}

fn cell_richness(ch: &Vec<Tree>, marked: bool, done: (u8, bool)) -> (r: (u8, bool))
    requires
        done.0 <= 2,
    ensures
        r.0 == few(richness(trees_view(ch@), 0, marked, (done.0 as int, done.1)).0),
        r.1 == richness(trees_view(ch@), 0, marked, (done.0 as int, done.1)).1,
        r.0 <= 2,
    decreases ch,
{
    let ghost v = trees_view(ch@);
    let ghost want = richness(v, 0, marked, (done.0 as int, done.1));
    let mut count: u8 = done.0;
    let mut markup: bool = done.1;
    let mut i: usize = 0;
    while i < ch.len()
        invariant
            i <= ch@.len(),
            v == trees_view(ch@),
            count <= 2,
            few(want.0) == few(richness(v, i as int, marked, (count as int, markup)).0),
            want.1 == richness(v, i as int, marked, (count as int, markup)).1,
        decreases ch@.len() - i,
    {
        assert(v[i as int] == tree_view(ch@[i as int]));
        match &ch[i] {
            Tree::Text(t) => {
                if normalize_ws(&chars_of(t.as_str())).len() > 0 {
                    let ghost more = (count + 1, markup || marked);
                    if count < 2 {
                        count = count + 1;
                    }
                    markup = markup || marked;
                    proof {
                        richness_grows(v, i + 1, marked, more, (count as int, markup));
                    }
                }
            },
            Tree::Element(e) => {
                let ghost inner = richness(
                    trees_view(e.children@),
                    0,
                    marked || is_mark(e@.tag),
                    (count as int, markup),
                );
                proof {
                    richness_grows(
                        trees_view(e.children@),
                        0,
                        marked || is_mark(e@.tag),
                        (count as int, markup),
                        (count as int, markup),
                    );
                }
                let x = cell_richness(
                    &e.children,
                    marked || marks(e.tag.as_str()),
                    (count, markup),
                );
                count = x.0;
                markup = x.1;
                proof {
                    richness_grows(v, i + 1, marked, inner, (count as int, markup));
                }
            },
            Tree::Other(_) => {},
        }
        i += 1;
    }
    (count, markup)
}

/// The number of paragraphs, boxes and items directly among the elements
/// from `i` on.
pub open spec fn direct_blocks(v: Seq<ElementV>, i: int, n: int) -> int
    decreases v.len() - i,
{
    if i >= v.len() {
        n
    } else {
        direct_blocks(
            v,
            i + 1,
            if v[i].tag == "p"@ || v[i].tag == "div"@ || v[i].tag == "li"@ {
                n + 1
            } else {
                n
            },
        )
    }
}

/// Whether a cell is more than a plain text: it has a line break, several
/// blocks, several runs, a run that is marked up, or only an image or input.
pub open spec fn is_rich(e: ElementV) -> bool {
    let x = richness(e.children, 0, false, (0, false));
    has_under(e, "br"@) || direct_blocks(child_elements_of(e), 0, 0) > 1 || (if x.0 == 0 {
        has_under(e, "img"@) || has_under(e, "input"@)
    } else if x.0 == 1 {
        x.1
    } else {
        true
    })
}

fn is_rich_cell(e: &Element) -> (r: bool)
    ensures
        r == is_rich(e@),
{
    if has_descendant(e, "br") {
        return true;
    }
    let v = child_elements(e);
    let ghost w = refs_view(v@);
    let mut n: usize = 0;
    let mut i: usize = 0;
    while i < v.len()
        invariant
            i <= v@.len(),
            n <= i,
            w == refs_view(v@),
            direct_blocks(w, 0, 0) == direct_blocks(w, i as int, n as int),
        decreases v@.len() - i,
    {
        assert(w[i as int] == v@[i as int]@);
        if has_tag(v[i], "p") || has_tag(v[i], "div") || has_tag(v[i], "li") {
            n += 1;
        }
        i += 1;
    }
    if n > 1 {
        return true;
    }
    proof {
        richness_grows(e@.children, 0, false, (0, false), (0, false));
    }
    let x = cell_richness(&e.children, false, (0, false));
    if x.0 == 0 {
        has_descendant(e, "img") || has_descendant(e, "input")
    } else if x.0 == 1 {
        x.1
    } else {
        true
    }
}

// ------------------------------------------------------------ blocks

/// The nodes, and the inline text not yet in one.
#[verifier::ext_equal]
pub struct BlockV {
    pub nodes: Seq<NodeV>,
    pub buf: BufV,
}

/// The nodes with a paragraph of runs added, unless it is empty. Behind a
/// heading it stands below it.
pub open spec fn with_inline(nodes: Seq<NodeV>, b: BufV, text: Seq<char>) -> Seq<NodeV> {
    if text.len() == 0 {
        nodes
    } else {
        nodes.push(
            NodeV::Inline {
                text,
                runs: b.rich,
                unwrapped: heading_from(nodes, 0) < nodes.len(),
            },
        )
    }
}

/// The nodes with the gathered inline text as a paragraph.
pub open spec fn flushed(w: BlockV) -> BlockV {
    BlockV {
        nodes: if w.buf.md.len() == 0 {
            w.nodes
        } else {
            with_inline(w.nodes, w.buf, finished(w.buf.md))
        },
        buf: no_runs(),
    }
}

/// The level of a heading tag.
pub open spec fn tag_level(t: Seq<char>) -> u8 {
    if t == "h1"@ {
        1
    } else if t == "h2"@ {
        2
    } else if t == "h3"@ {
        3
    } else if t == "h4"@ {
        4
    } else if t == "h5"@ {
        5
    } else {
        6
    }
}

fn level_of(t: &str) -> (r: u8)
    ensures
        r == tag_level(t@),
{
    if str_eq(t, "h1") {
        1
    } else if str_eq(t, "h2") {
        2
    } else if str_eq(t, "h3") {
        3
    } else if str_eq(t, "h4") {
        4
    } else if str_eq(t, "h5") {
        5
    } else {
        6
    }
}

/// The picture of an image inside an anchor: the anchor's target is on the
/// caption.
pub open spec fn anchored_image(a: ElementV, img: ElementV, fetch: bool) -> NodeV {
    NodeV::Picture {
        caption: some_attr(img, "alt"@),
        caption_href: match some_attr(a, "href"@) {
            Some(h) => if some_attr(img, "alt"@) is Some {
                Some(normalized_url(h))
            } else {
                None
            },
            None => None,
        },
        caption_parent: CaptionParent::Body,
        sources: sources(img, fetch),
    }
}

fn add_anchored_image(a: &Element, img: &Element, fetch: bool, nodes: &mut Vec<Node>)
    ensures
        nodes_view(final(nodes)@) == nodes_view(old(nodes)@).push(
            anchored_image(a@, img@, fetch),
        ),
{
    let caption = opt_string(&filled_attr(img, "alt"));
    let caption_href = match filled_attr(a, "href") {
        Some(h) => if caption.is_some() {
            Some(string_of(&normalize_url(&h)))
        } else {
            None
        },
        None => None,
    };
    push_node(nodes, Node::Picture { caption, caption_href, caption_parent: CaptionParent::Body, sources: sources_of(img, fetch) });
}

/// The nodes of a signature or a stamp: a picture and its name.
pub open spec fn with_mark(nodes: Seq<NodeV>, name: Seq<char>) -> Seq<NodeV> {
    nodes.push(
        NodeV::Picture { caption: None, caption_href: None, caption_parent: CaptionParent::Body, sources: seq![] },
    ).push(NodeV::Paragraph { text: name })
}

fn add_mark(nodes: &mut Vec<Node>, name: &str)
    ensures
        nodes_view(final(nodes)@) == with_mark(nodes_view(old(nodes)@), name@),
{
    let none: Vec<String> = Vec::new();
    assert(strs(none@) =~= seq![]);
    push_node(nodes, Node::Picture { caption: None, caption_href: None, caption_parent: CaptionParent::Body, sources: none });
    push_node(nodes, paragraph(&chars_of(name)));
}

/// Whether an inline element is walked as a container: it holds an image, or
/// a block whose structure would be lost.
pub open spec fn holds_blocks(e: ElementV) -> bool {
    has_under(e, "img"@) || structured_from(e.children, 0)
}

/// The walk through the children from `i` on of a container. `root` is the
/// whole document, `fetch` says whether images are fetched, and `fig` that
/// the container is a figure.
pub open spec fn blocks_from(
    ch: Seq<TreeV>,
    i: int,
    level: u8,
    base: Fmt,
    root: ElementV,
    fetch: bool,
    fig: bool,
    w: BlockV,
) -> BlockV
    decreases ch, ch.len() - i,
{
    if i < 0 || i >= ch.len() {
        w
    } else {
        blocks_from(
            ch,
            i + 1,
            level,
            base,
            root,
            fetch,
            fig,
            match ch[i] {
                TreeV::Text(t) => BlockV { buf: with_raw_text(w.buf, t, base, None), ..w },
                TreeV::Other(_) => w,
                TreeV::Element(e) => if (fig && e.tag == "figcaption"@) || is_skipped_tag(e.tag)
                    || is_hidden_el(e) {
                    w
                } else if e.tag == "img"@ {
                    BlockV { nodes: flushed(w).nodes.push(image(e, fetch)), buf: no_runs() }
                } else if !fig && e.tag == "signature"@ {
                    BlockV { nodes: with_mark(flushed(w).nodes, "Signature"@), buf: no_runs() }
                } else if !fig && e.tag == "stamp"@ {
                    BlockV { nodes: with_mark(flushed(w).nodes, "Stamp"@), buf: no_runs() }
                } else if is_block_tag(e.tag) {
                    BlockV {
                        nodes: handled(e, level, base, root, fetch, flushed(w).nodes),
                        buf: no_runs(),
                    }
                } else if !fig && e.tag == "a"@ && lone_image(e) is Some {
                    BlockV {
                        nodes: flushed(w).nodes.push(
                            anchored_image(e, lone_image(e)->0, fetch),
                        ),
                        buf: no_runs(),
                    }
                } else if holds_blocks(e) {
                    let inner = flushed(
                        blocks_from(
                            e.children,
                            0,
                            level,
                            if !fig && e.tag == "a"@ {
                                base
                            } else {
                                inner_fmt(e.tag, base)
                            },
                            root,
                            fetch,
                            false,
                            flushed(w),
                        ),
                    );
                    if !fig && e.tag == "a"@ && some_attr(e, "href"@) is Some {
                        BlockV {
                            nodes: linked_from(
                                inner.nodes,
                                flushed(w).nodes.len() as int,
                                normalized_url(some_attr(e, "href"@)->0),
                            ),
                            ..inner
                        }
                    } else {
                        inner
                    }
                } else {
                    BlockV { buf: element_runs(e, base, None, w.buf), ..w }
                },
            },
        )
    }
}

/// The nodes with a block added.
pub open spec fn handled(
    e: ElementV,
    level: u8,
    base: Fmt,
    root: ElementV,
    fetch: bool,
    nodes: Seq<NodeV>,
) -> Seq<NodeV>
    decreases e, 0int,
{
    let t = e.tag;
    if is_heading_tag(t) {
        let text = inline_text(e.children, base);
        if text.len() == 0 {
            nodes
        } else {
            nodes.push(NodeV::Heading { level: tag_level(t), text })
        }
    } else if t == "p"@ {
        match code_only(e) {
            Some(text) => nodes.push(NodeV::Code { language: None, text }),
            None => {
                let b = runs_from(e.children, 0, base, None, no_runs());
                with_inline(nodes, b, finished(b.md))
            },
        }
    } else if t == "ul"@ {
        list_from(e.children, 0, list_start(e, false, level), base, nodes)
    } else if t == "ol"@ {
        list_from(e.children, 0, list_start(e, true, level), base, nodes)
    } else if t == "dl"@ {
        dl_from(e.children, 0, level, base, nodes)
    } else if t == "pre"@ {
        let b = runs_from(e.children, 0, (Fmt { code: true, ..base }), None, no_runs());
        if b.md.len() > 1 {
            with_inline(nodes, b, joined(b.md, " "@))
        } else {
            nodes.push(code_block(e))
        }
    } else if t == "table"@ {
        if base.raw {
            if flattened(e).len() == 0 {
                nodes
            } else {
                nodes.push(NodeV::TextDump(flattened(e)))
            }
        } else {
            match laid_out(e, shown_cells(e.children, 0, 0, root, seq![])) {
                Some(x) => nodes.push(NodeV::Table(x)),
                None => nodes,
            }
        }
    } else if t == "figure"@ {
        with_figcaption(
            flushed(
                blocks_from(
                    e.children,
                    0,
                    level,
                    base,
                    root,
                    fetch,
                    true,
                    BlockV { nodes, buf: no_runs() },
                ),
            ).nodes,
            nodes.len() as int,
            figcaption(e),
            figcaption_target(e),
        )
    } else if t == "hr"@ {
        nodes
    } else if t == "input"@ {
        with_input(e, root, nodes)
    } else if t == "label"@ {
        if feeds_choice(e, root) {
            choices_from(e.children, 0, e, root, nodes)
        } else {
            let b = runs_from(e.children, 0, base, None, no_runs());
            with_inline(nodes, b, finished(b.md))
        }
    } else if t == "footer"@ {
        let inner = flushed(
            blocks_from(
                e.children,
                0,
                level,
                base,
                root,
                fetch,
                false,
                BlockV { nodes: seq![], buf: no_runs() },
            ),
        ).nodes;
        nodes + furnished_in(inner, 0, inner.len() as int)
    } else if !base.raw && field_region(e) is Some {
        nodes.push(NodeV::FieldRegion { items: field_region(e)->0 })
    } else {
        flushed(
            blocks_from(
                e.children,
                0,
                level,
                base,
                root,
                fetch,
                false,
                BlockV { nodes, buf: no_runs() },
            ),
        ).nodes
    }
}

/// What a cell shows. A rich one is walked twice: as plain text for its text,
/// and as a container for its blocks.
pub open spec fn shown_cell(e: ElementV, root: ElementV) -> RenderedV
    decreases e, 0int,
{
    let raw = Fmt { raw: true, ..bare() };
    if !is_rich(e) {
        RenderedV { text: inline_text(e.children, raw), rich: false, blocks: seq![] }
    } else {
        let a = flushed(
            blocks_from(
                e.children,
                0,
                0,
                raw,
                root,
                false,
                false,
                BlockV { nodes: seq![], buf: no_runs() },
            ),
        ).nodes;
        let b = flushed(
            blocks_from(
                e.children,
                0,
                0,
                bare(),
                root,
                false,
                false,
                BlockV { nodes: seq![], buf: no_runs() },
            ),
        ).nodes;
        RenderedV { text: strip(cell_text(a)), rich: true, blocks: rewrapped(b) }
    }
}

/// The cells of a table in document order. `depth` is 0 for the children of
/// the table, 1 for those of a section, 2 for those of a row.
pub open spec fn shown_cells(
    ch: Seq<TreeV>,
    i: int,
    depth: int,
    root: ElementV,
    done: Seq<RenderedV>,
) -> Seq<RenderedV>
    decreases ch, ch.len() - i,
{
    if i < 0 || i >= ch.len() {
        done
    } else {
        shown_cells(
            ch,
            i + 1,
            depth,
            root,
            match ch[i] {
                TreeV::Element(e) => if depth == 2 {
                    if e.tag == "td"@ || e.tag == "th"@ {
                        done.push(shown_cell(e, root))
                    } else {
                        done
                    }
                } else if e.tag == "tr"@ {
                    shown_cells(e.children, 0, 2, root, done)
                } else if depth == 0 && is_section(e.tag) {
                    shown_cells(e.children, 0, 1, root, done)
                } else {
                    done
                },
                _ => done,
            },
        )
    }
}

/// A paragraph inside a cell stands on its own.
pub open spec fn rewrap(n: NodeV) -> NodeV {
    match n {
        NodeV::Inline { text, runs, unwrapped: _ } => NodeV::Inline {
            text,
            runs,
            unwrapped: false,
        },
        _ => n,
    }
}

/// The blocks of a cell.
pub open spec fn rewrapped(nodes: Seq<NodeV>) -> Seq<NodeV> {
    Seq::new(nodes.len(), |i: int| rewrap(nodes[i]))
}

fn rewrap_node(n: Node) -> (r: Node)
    ensures
        node_view(r) == rewrap(node_view(n)),
{
    match n {
        Node::Inline { text, runs, unwrapped: _ } => Node::Inline { text, runs, unwrapped: false },
        other => other,
    }
}

fn wrap_cell_inline_groups(nodes: &mut Vec<Node>)
    ensures
        nodes_view(final(nodes)@) == rewrapped(nodes_view(old(nodes)@)),
{
    let ghost was = nodes_view(nodes@);
    let n: usize = nodes.len();
    let mut i: usize = 0;
    while i < n
        invariant
            i <= n,
            nodes@.len() == n,
            was.len() == n,
            forall|k: int| 0 <= k < i ==> node_view(#[trigger] nodes@[k]) == rewrap(was[k]),
            forall|k: int| i <= k < n ==> node_view(#[trigger] nodes@[k]) == was[k],
        decreases n - i,
    {
        let mut x = Node::PageBreak;
        assert(node_view(nodes@[i as int]) == was[i as int]);
        std::mem::swap(&mut x, &mut nodes[i]);
        nodes.set(i, rewrap_node(x));
        i += 1;
    }
    assert(nodes_view(nodes@) =~= rewrapped(was));
}

fn push_inline_paragraph(nodes: &mut Vec<Node>, b: RunBuf, text: &Vec<char>)
    ensures
        nodes_view(final(nodes)@) == with_inline(nodes_view(old(nodes)@), b@, text@),
{
    if text.len() > 0 {
        let unwrapped = find_heading(nodes, 0) < nodes.len();
        push_node(nodes, Node::Inline { text: string_of(text), runs: b.rich, unwrapped });
    }
}

fn flush_inline(b: RunBuf, nodes: &mut Vec<Node>) -> (r: RunBuf)
    ensures
        (BlockV { nodes: nodes_view(final(nodes)@), buf: r@ }) == flushed(
            BlockV { nodes: nodes_view(old(nodes)@), buf: b@ },
        ),
{
    assert(b@.md.len() == b.md@.len());
    if b.md.len() > 0 {
        let text = finalize(&b.md);
        push_inline_paragraph(nodes, b, &text);
    }
    RunBuf::new()
}

/// Walks through the children of a container, and makes a paragraph of the
/// inline text that is left.
#[verifier::spinoff_prover]
#[verifier::rlimit(40)]
fn walk_block(
    ch: &Vec<Tree>,
    nodes: &mut Vec<Node>,
    level: u8,
    base: Fmt,
    root: &Element,
    fetch: bool,
    fig: bool,
)
    ensures
        nodes_view(final(nodes)@) == flushed(
            blocks_from(
                trees_view(ch@),
                0,
                level,
                base,
                root@,
                fetch,
                fig,
                BlockV { nodes: nodes_view(old(nodes)@), buf: no_runs() },
            ),
        ).nodes,
    decreases ch,
{
    let ghost v = trees_view(ch@);
    let ghost want = blocks_from(
        v,
        0,
        level,
        base,
        root@,
        fetch,
        fig,
        BlockV { nodes: nodes_view(nodes@), buf: no_runs() },
    );
    let mut buf = RunBuf::new();
    let mut i: usize = 0;
    while i < ch.len()
        invariant
            i <= ch@.len(),
            v == trees_view(ch@),
            want == blocks_from(
                v,
                i as int,
                level,
                base,
                root@,
                fetch,
                fig,
                (BlockV { nodes: nodes_view(nodes@), buf: buf@ }),
            ),
        decreases ch@.len() - i,
    {
        assert(v[i as int] == tree_view(ch@[i as int]));
        let ghost w = BlockV { nodes: nodes_view(nodes@), buf: buf@ };
        match &ch[i] {
            Tree::Text(t) => {
                buf.push_raw(t.as_str(), base, &None);
            },
            Tree::Other(_) => {},
            Tree::Element(e) => {
                let tag = e.tag.as_str();
                if (fig && str_eq(tag, "figcaption")) || is_skipped(tag) || is_hidden(e) {
                } else if str_eq(tag, "img") {
                    buf = flush_inline(buf, nodes);
                    add_image(e, fetch, nodes);
                } else if !fig && str_eq(tag, "signature") {
                    buf = flush_inline(buf, nodes);
                    add_mark(nodes, "Signature");
                } else if !fig && str_eq(tag, "stamp") {
                    buf = flush_inline(buf, nodes);
                    add_mark(nodes, "Stamp");
                } else if is_block(tag) {
                    buf = flush_inline(buf, nodes);
                    handle_block(e, nodes, level, base, root, fetch);
                } else {
                    let anchor = !fig && str_eq(tag, "a");
                    let lone = if anchor {
                        image_wrapper(e)
                    } else {
                        None
                    };
                    match lone {
                        Some(img) => {
                            buf = flush_inline(buf, nodes);
                            add_anchored_image(e, img, fetch, nodes);
                        },
                        None => {
                            if has_descendant(e, "img") || contains_block(&e.children) {
                                buf = flush_inline(buf, nodes);
                                let start: usize = nodes.len();
                                assert(start == nodes_view(nodes@).len());
                                let fmt = if anchor {
                                    base
                                } else {
                                    tag_fmt(tag, base)
                                };
                                walk_block(&e.children, nodes, level, fmt, root, fetch, false);
                                if anchor {
                                    match filled_attr(e, "href") {
                                        Some(h) => {
                                            annotate_picture_captions(
                                                nodes,
                                                start,
                                                &normalize_url(&h),
                                            );
                                        },
                                        None => {},
                                    }
                                }
                            } else {
                                collect_element(e, base, &None, &mut buf);
                            }
                        },
                    }
                }
            },
        }
        i += 1;
    }
    let _rest = flush_inline(buf, nodes);
}

#[verifier::spinoff_prover]
#[verifier::rlimit(40)]
fn handle_block(
    e: &Element,
    nodes: &mut Vec<Node>,
    level: u8,
    base: Fmt,
    root: &Element,
    fetch: bool,
)
    ensures
        nodes_view(final(nodes)@) == handled(
            e@,
            level,
            base,
            root@,
            fetch,
            nodes_view(old(nodes)@),
        ),
    decreases e,
{
    let tag = e.tag.as_str();
    if is_heading(tag) {
        let text = render_inline_fmt(&e.children, base);
        if text.len() > 0 {
            push_node(nodes, heading(level_of(tag), &text));
        }
    } else if str_eq(tag, "p") {
        match lone_code(e) {
            Some(text) => {
                push_node(nodes, Node::Code { language: None, text: string_of(&text) });
            },
            None => {
                let mut b = RunBuf::new();
                collect_runs(&e.children, base, &None, &mut b);
                let text = finalize(&b.md);
                push_inline_paragraph(nodes, b, &text);
            },
        }
    } else if str_eq(tag, "ul") {
        walk_list(e, false, nodes, level, base);
    } else if str_eq(tag, "ol") {
        walk_list(e, true, nodes, level, base);
    } else if str_eq(tag, "dl") {
        walk_dl(&e.children, nodes, level, base);
    } else if str_eq(tag, "pre") {
        let mut b = RunBuf::new();
        collect_runs(&e.children, Fmt { code: true, ..base }, &None, &mut b);
        assert(b@.md.len() == b.md@.len());
        if b.md.len() > 1 {
            let text = join(&b.md, " ");
            push_inline_paragraph(nodes, b, &text);
        } else {
            push_node(nodes, extract_pre(e));
        }
    } else if str_eq(tag, "table") {
        if base.raw {
            let text = flatten_nested_table(e);
            if text.len() > 0 {
                push_node(nodes, Node::TextDump(string_of(&text)));
            }
        } else {
            let mut cells: Vec<Rendered> = Vec::new();
            assert(rendered_view(cells@) =~= seq![]);
            render_cells(&e.children, 0, root, &mut cells);
            match lay_out(e, cells) {
                Some(t) => {
                    push_node(nodes, Node::Table(t));
                },
                None => {},
            }
        }
    } else if str_eq(tag, "figure") {
        let start: usize = nodes.len();
        assert(start == nodes_view(nodes@).len());
        let cap = figcaption_text(e);
        let href = figcaption_href(e);
        walk_block(&e.children, nodes, level, base, root, fetch, true);
        add_figcaption(nodes, start, &cap, &href);
    } else if str_eq(tag, "hr") {
    } else if str_eq(tag, "input") {
        add_input(e, root, nodes);
    } else if str_eq(tag, "label") {
        if label_feeds_checkbox(e, root) {
            add_choices(&e.children, e, root, nodes);
        } else {
            let mut b = RunBuf::new();
            collect_runs(&e.children, base, &None, &mut b);
            let text = finalize(&b.md);
            push_inline_paragraph(nodes, b, &text);
        }
    } else if str_eq(tag, "footer") {
        let mut inner: Vec<Node> = Vec::new();
        assert(nodes_view(inner@) =~= seq![]);
        walk_block(&e.children, &mut inner, level, base, root, fetch, false);
        let n: usize = inner.len();
        furnish_in(&mut inner, 0, n);
        let ghost a = nodes@;
        let ghost b = inner@;
        nodes.append(&mut inner);
        assert(nodes_view(nodes@) =~= nodes_view(a) + nodes_view(b));
    } else {
        if !base.raw {
            match detect_field_region(e) {
                Some(items) => {
                    push_node(nodes, Node::FieldRegion { items });
                    return;
                },
                None => {},
            }
        }
        walk_block(&e.children, nodes, level, base, root, fetch, false);
    }
}

fn render_cell(e: &Element, root: &Element) -> (r: Rendered)
    ensures
        r@ == shown_cell(e@, root@),
    decreases e,
{
    let raw = Fmt { raw: true, ..no_fmt() };
    if !is_rich_cell(e) {
        let blocks: Vec<Node> = Vec::new();
        assert(nodes_view(blocks@) =~= seq![]);
        return Rendered { text: render_inline_fmt(&e.children, raw), rich: false, blocks };
    }
    let mut plain: Vec<Node> = Vec::new();
    assert(nodes_view(plain@) =~= seq![]);
    walk_block(&e.children, &mut plain, 0, raw, root, false, false);
    let mut blocks: Vec<Node> = Vec::new();
    assert(nodes_view(blocks@) =~= seq![]);
    walk_block(&e.children, &mut blocks, 0, no_fmt(), root, false, false);
    wrap_cell_inline_groups(&mut blocks);
    Rendered { text: trim(&cell_markdown(&plain)), rich: true, blocks }
}

fn render_cells(ch: &Vec<Tree>, depth: u8, root: &Element, out: &mut Vec<Rendered>)
    ensures
        rendered_view(final(out)@) == shown_cells(
            trees_view(ch@),
            0,
            depth as int,
            root@,
            rendered_view(old(out)@),
        ),
    decreases ch,
{
    let ghost v = trees_view(ch@);
    let ghost first = rendered_view(out@);
    let mut i: usize = 0;
    while i < ch.len()
        invariant
            i <= ch@.len(),
            v == trees_view(ch@),
            shown_cells(v, 0, depth as int, root@, first) == shown_cells(
                v,
                i as int,
                depth as int,
                root@,
                rendered_view(out@),
            ),
        decreases ch@.len() - i,
    {
        broadcast use rendered_view_push;

        assert(v[i as int] == tree_view(ch@[i as int]));
        match &ch[i] {
            Tree::Element(e) => {
                if depth == 2 {
                    if has_tag(e, "td") || has_tag(e, "th") {
                        let x = render_cell(e, root);
                        out.push(x);
                    }
                } else if has_tag(e, "tr") {
                    render_cells(&e.children, 2, root, out);
                } else if depth == 0 && section(e.tag.as_str()) {
                    render_cells(&e.children, 1, root, out);
                }
            },
            _ => {},
        }
        i += 1;
    }
}

// ------------------------------------------------------------ documents

/// The first element item from `i` on with a name, or the end.
pub open spec fn item_named(items: Seq<ItemV>, i: int, name: Seq<char>) -> int
    decreases items.len() - i,
{
    if i >= items.len() {
        items.len() as int
    } else if items[i].kind == Kind::Element && items[i].name == name {
        i
    } else {
        item_named(items, i + 1, name)
    }
}

fn find_item(items: &Vec<Item>, name: &str) -> (r: usize)
    ensures
        r == item_named(items_view(items@), 0, name@),
        r <= items@.len(),
{
    let ghost v = items_view(items@);
    let mut i: usize = 0;
    while i < items.len()
        invariant
            i <= items@.len(),
            v == items_view(items@),
            item_named(v, 0, name@) == item_named(v, i as int, name@),
        decreases items@.len() - i,
    {
        assert(v[i as int] == items@[i as int]@);
        if items[i].kind == Kind::Element && str_eq(items[i].name.as_str(), name) {
            return i;
        }
        i += 1;
    }
    i
}

/// The text under the item at `k`: that of the deeper items from `i` on,
/// added to `out`.
pub open spec fn text_under(items: Seq<ItemV>, k: int, i: int, out: Seq<char>) -> Seq<char>
    decreases items.len() - i,
{
    if i >= items.len() || items[i].depth <= items[k].depth {
        out
    } else {
        text_under(
            items,
            k,
            i + 1,
            if items[i].kind == Kind::Text {
                out + items[i].text
            } else {
                out
            },
        )
    }
}

fn text_below(items: &Vec<Item>, k: usize) -> (r: Vec<char>)
    requires
        k < items@.len(),
    ensures
        r@ == text_under(items_view(items@), k as int, k + 1, seq![]),
{
    let ghost v = items_view(items@);
    let mut out: Vec<char> = Vec::new();
    let n: usize = items.len();
    let mut i: usize = k + 1;
    assert(out@ =~= seq![]);
    while i < n && items[i].depth > items[k].depth
        invariant
            k < i <= n == items@.len(),
            v == items_view(items@),
            text_under(v, k as int, k + 1, seq![]) == text_under(v, k as int, i as int, out@),
        decreases items@.len() - i,
    {
        assert(v[i as int] == items@[i as int]@);
        assert(v[k as int] == items@[k as int]@);
        if items[i].kind == Kind::Text {
            push_str(&mut out, items[i].text.as_str());
        }
        i += 1;
    }
    assert(v[k as int] == items@[k as int]@);
    assert(i < items@.len() ==> v[i as int] == items@[i as int]@);
    out
}

/// Whether no item under the one at `k` is more than `limit` levels deep,
/// that one being the first; the search begins at `i`.
pub open spec fn shallow(items: Seq<ItemV>, k: int, i: int, limit: int) -> bool
    decreases items.len() - i,
{
    if i >= items.len() || items[i].depth <= items[k].depth {
        true
    } else {
        items[i].depth - items[k].depth < limit && shallow(items, k, i + 1, limit)
    }
}

/// Whether a document can be walked: its nesting is within the limit.
pub fn within_depth_limit(items: &Vec<Item>, k: usize, limit: usize) -> (r: bool)
    requires
        k < items@.len(),
    ensures
        r == (limit >= 1 && shallow(items_view(items@), k as int, k + 1, limit as int)),
{
    let ghost v = items_view(items@);
    if limit < 1 {
        return false;
    }
    let n: usize = items.len();
    let mut i: usize = k + 1;
    while i < n && items[i].depth > items[k].depth
        invariant
            k < i <= n == items@.len(),
            limit >= 1,
            v == items_view(items@),
            shallow(v, k as int, k + 1, limit as int) == shallow(
                v,
                k as int,
                i as int,
                limit as int,
            ),
        decreases items@.len() - i,
    {
        assert(v[i as int] == items@[i as int]@);
        assert(v[k as int] == items@[k as int]@);
        if items[i].depth - items[k].depth >= limit {
            return false;
        }
        i += 1;
    }
    assert(v[k as int] == items@[k as int]@);
    assert(i < items@.len() ==> v[i as int] == items@[i as int]@);
    true
}

/// The nodes with the heading that a document's title is added, as page
/// furniture.
pub open spec fn with_title(nodes: Seq<NodeV>, items: Seq<ItemV>) -> Seq<NodeV> {
    let k = item_named(items, 0, "title"@);
    if k >= items.len() {
        nodes
    } else {
        let t = tidied(text_under(items, k, k + 1, seq![]));
        if t.len() == 0 {
            nodes
        } else {
            nodes.push(
                NodeV::Furniture {
                    layer: ContentLayer::Furniture,
                    inner: Box::new(NodeV::Heading { level: 1, text: t }),
                },
            )
        }
    }
}

/// The place of a document's body: its `body`, else its root.
pub open spec fn body_at(items: Seq<ItemV>) -> int {
    let k = item_named(items, 0, "body"@);
    if k >= items.len() {
        0
    } else {
        k
    }
}

/// The body of a document.
pub open spec fn body_of(root: ElementV) -> ElementV {
    match first_tagged(self_and_under(root), "body"@) {
        Some(b) => b,
        None => root,
    }
}

/// The nodes with those of what a parsed document shows added. A document
/// nested beyond the limit is one paragraph of its text.
pub open spec fn with_page(nodes: Seq<NodeV>, items: Seq<ItemV>, limit: int, fetch: bool) -> Seq<
    NodeV,
> {
    let title = with_title(nodes, items);
    let k = body_at(items);
    if items.len() == 0 {
        nodes
    } else if limit >= 1 && shallow(items, k, k + 1, limit) {
        match root_of(items) {
            Some(root) => leading_furniture(
                flushed(
                    blocks_from(
                        shown(body_of(root)).children,
                        0,
                        0,
                        bare(),
                        root,
                        fetch,
                        false,
                        BlockV { nodes: title, buf: no_runs() },
                    ),
                ).nodes,
                title.len() as int,
            ),
            None => title,
        }
    } else {
        let t = tidied(text_under(items, k, k + 1, seq![]));
        if t.len() == 0 {
            title
        } else {
            title.push(NodeV::Paragraph { text: t })
        }
    }
}

/// The nodes of a parsed document.
pub open spec fn page(items: Seq<ItemV>, limit: int, fetch: bool) -> Seq<NodeV> {
    with_page(seq![], items, limit, fetch)
}

/// Whether a node is no picture that names a source, and wraps none.
pub open spec fn names_no_source(n: NodeV) -> bool
    decreases n,
{
    match n {
        NodeV::Picture { sources, .. } => sources.len() == 0,
        NodeV::Furniture { inner, .. } => names_no_source(*inner),
        _ => true,
    }
}

/// Whether no picture among the nodes names a source.
pub open spec fn name_no_source(nodes: Seq<NodeV>) -> bool {
    forall|i: int| 0 <= i < nodes.len() ==> names_no_source(#[trigger] nodes[i])
}

proof fn furniture_names_no_source(nodes: Seq<NodeV>, from: int, to: int)
    requires
        name_no_source(nodes),
    ensures
        name_no_source(furnished_in(nodes, from, to)),
{
    reveal_with_fuel(names_no_source, 2);
    let made = furnished_in(nodes, from, to);
    assert forall|i: int| 0 <= i < made.len() implies names_no_source(#[trigger] made[i]) by {
        assert(names_no_source(nodes[i]));
    }
}

proof fn captions_name_no_source(
    nodes: Seq<NodeV>,
    start: int,
    cap: Option<Seq<char>>,
    href: Option<Seq<char>>,
)
    requires
        name_no_source(nodes),
        start >= 0,
    ensures
        name_no_source(with_figcaption(nodes, start, cap, href)),
{
    let made = with_figcaption(nodes, start, cap, href);
    assert forall|i: int| 0 <= i < made.len() implies names_no_source(#[trigger] made[i]) by {
        if i < nodes.len() {
            assert(names_no_source(nodes[i]));
        }
    }
}

proof fn choices_name_no_source(
    ch: Seq<TreeV>,
    i: int,
    wrap: ElementV,
    root: ElementV,
    nodes: Seq<NodeV>,
)
    requires
        name_no_source(nodes),
    ensures
        name_no_source(choices_from(ch, i, wrap, root, nodes)),
    decreases ch, ch.len() - i,
{
    if 0 <= i < ch.len() {
        let next = match ch[i] {
            TreeV::Element(e) => if is_skipped_tag(e.tag) || is_hidden_el(e) {
                nodes
            } else if is_choice(e) {
                with_choice(e, root, Some(wrap), nodes)
            } else {
                let inner = if e.tag == "label"@ {
                    e
                } else {
                    wrap
                };
                choices_name_no_source(e.children, 0, inner, root, nodes);
                choices_from(e.children, 0, inner, root, nodes)
            },
            _ => nodes,
        };
        assert(name_no_source(next));
        choices_name_no_source(ch, i + 1, wrap, root, next);
    }
}

proof fn blocks_name_no_source(
    ch: Seq<TreeV>,
    i: int,
    level: u8,
    base: Fmt,
    root: ElementV,
    fig: bool,
    w: BlockV,
)
    requires
        name_no_source(w.nodes),
    ensures
        name_no_source(blocks_from(ch, i, level, base, root, false, fig, w).nodes),
    decreases ch, ch.len() - i,
{
    if 0 <= i < ch.len() {
        let next = match ch[i] {
            TreeV::Text(t) => BlockV { buf: with_raw_text(w.buf, t, base, None), ..w },
            TreeV::Other(_) => w,
            TreeV::Element(e) => {
                let f = flushed(w).nodes;
                if (fig && e.tag == "figcaption"@) || is_skipped_tag(e.tag) || is_hidden_el(e) {
                    w
                } else if e.tag == "img"@ {
                    BlockV { nodes: f.push(image(e, false)), buf: no_runs() }
                } else if !fig && e.tag == "signature"@ {
                    BlockV { nodes: with_mark(f, "Signature"@), buf: no_runs() }
                } else if !fig && e.tag == "stamp"@ {
                    BlockV { nodes: with_mark(f, "Stamp"@), buf: no_runs() }
                } else if is_block_tag(e.tag) {
                    a_block_names_no_source(e, level, base, root, f);
                    BlockV { nodes: handled(e, level, base, root, false, f), buf: no_runs() }
                } else if !fig && e.tag == "a"@ && lone_image(e) is Some {
                    BlockV {
                        nodes: f.push(anchored_image(e, lone_image(e)->0, false)),
                        buf: no_runs(),
                    }
                } else if holds_blocks(e) {
                    let fmt = if !fig && e.tag == "a"@ {
                        base
                    } else {
                        inner_fmt(e.tag, base)
                    };
                    blocks_name_no_source(e.children, 0, level, fmt, root, false, flushed(w));
                    let inner = flushed(
                        blocks_from(e.children, 0, level, fmt, root, false, false, flushed(w)),
                    );
                    if !fig && e.tag == "a"@ && some_attr(e, "href"@) is Some {
                        BlockV {
                            nodes: linked_from(
                                inner.nodes,
                                f.len() as int,
                                normalized_url(some_attr(e, "href"@)->0),
                            ),
                            ..inner
                        }
                    } else {
                        inner
                    }
                } else {
                    BlockV { buf: element_runs(e, base, None, w.buf), ..w }
                }
            },
        };
        assert(name_no_source(next.nodes));
        blocks_name_no_source(ch, i + 1, level, base, root, fig, next);
    }
}

proof fn a_block_names_no_source(
    e: ElementV,
    level: u8,
    base: Fmt,
    root: ElementV,
    nodes: Seq<NodeV>,
)
    requires
        name_no_source(nodes),
    ensures
        name_no_source(handled(e, level, base, root, false, nodes)),
    decreases e, 0int,
{
    let t = e.tag;
    let here = BlockV { nodes, buf: no_runs() };
    if is_heading_tag(t) || t == "p"@ {
    } else if t == "ul"@ {
        lists_add_only_items(e.children, 0, list_start(e, false, level), base, nodes);
    } else if t == "ol"@ {
        lists_add_only_items(e.children, 0, list_start(e, true, level), base, nodes);
    } else if t == "dl"@ {
        description_lists_add_only_items(e.children, 0, level, base, nodes);
    } else if t == "pre"@ || t == "table"@ {
    } else if t == "figure"@ {
        blocks_name_no_source(e.children, 0, level, base, root, true, here);
        captions_name_no_source(
            flushed(blocks_from(e.children, 0, level, base, root, false, true, here)).nodes,
            nodes.len() as int,
            figcaption(e),
            figcaption_target(e),
        );
    } else if t == "hr"@ || t == "input"@ {
    } else if t == "label"@ {
        choices_name_no_source(e.children, 0, e, root, nodes);
    } else if t == "footer"@ {
        let none = BlockV { nodes: seq![], buf: no_runs() };
        blocks_name_no_source(e.children, 0, level, base, root, false, none);
        let inner = flushed(
            blocks_from(e.children, 0, level, base, root, false, false, none),
        ).nodes;
        furniture_names_no_source(inner, 0, inner.len() as int);
    } else if !base.raw && field_region(e) is Some {
    } else {
        blocks_name_no_source(e.children, 0, level, base, root, false, here);
    }
}

/// Everything in a footer is page furniture, and what stands before it stays.
pub proof fn footers_are_furniture(
    e: ElementV,
    level: u8,
    base: Fmt,
    root: ElementV,
    fetch: bool,
    nodes: Seq<NodeV>,
    k: int,
)
    requires
        e.tag == "footer"@,
    ensures
        nodes.is_prefix_of(handled(e, level, base, root, fetch, nodes)),
        nodes.len() <= k < handled(e, level, base, root, fetch, nodes).len() ==> is_furniture(
            handled(e, level, base, root, fetch, nodes)[k],
        ),
{
    reveal_strlit("footer");
    reveal_strlit("figure");
    reveal_strlit("p");
    reveal_strlit("ul");
    reveal_strlit("ol");
    reveal_strlit("dl");
    reveal_strlit("pre");
    reveal_strlit("table");
    reveal_strlit("hr");
    reveal_strlit("input");
    reveal_strlit("label");
    reveal_strlit("h1");
    reveal_strlit("h2");
    reveal_strlit("h3");
    reveal_strlit("h4");
    reveal_strlit("h5");
    reveal_strlit("h6");
    assert("footer"@[1] != "figure"@[1]);
    assert("footer"@.len() == 6);
    assert(!is_heading_tag(e.tag));
    assert(e.tag != "p"@);
    assert(e.tag != "ul"@ && e.tag != "ol"@ && e.tag != "dl"@);
    assert(e.tag != "pre"@ && e.tag != "table"@);
    assert(e.tag != "figure"@ && e.tag != "hr"@ && e.tag != "input"@ && e.tag != "label"@);
    let inner = flushed(
        blocks_from(
            e.children,
            0,
            level,
            base,
            root,
            fetch,
            false,
            BlockV { nodes: seq![], buf: no_runs() },
        ),
    ).nodes;
    let made = furnished_in(inner, 0, inner.len() as int);
    assert(handled(e, level, base, root, fetch, nodes) == nodes + made);
    if nodes.len() <= k < nodes.len() + made.len() {
        assert((nodes + made)[k] == made[k - nodes.len()]);
        assert(made[k - nodes.len()] == furnished(inner[k - nodes.len()]));
    }
}

/// Without fetching, no image is asked for: no picture on a page names a
/// source.
pub proof fn pages_name_no_source_unasked(items: Seq<ItemV>, limit: int)
    ensures
        name_no_source(page(items, limit, false)),
{
    reveal_with_fuel(names_no_source, 2);
    if items.len() > 0 && limit >= 1 && shallow(items, body_at(items), body_at(items) + 1, limit) {
        match root_of(items) {
            Some(root) => {
                let title = BlockV { nodes: with_title(seq![], items), buf: no_runs() };
                let ch = shown(body_of(root)).children;
                blocks_name_no_source(ch, 0, 0, bare(), root, false, title);
                let made = flushed(
                    blocks_from(ch, 0, 0, bare(), root, false, false, title),
                ).nodes;
                furniture_names_no_source(
                    made,
                    title.nodes.len() as int,
                    heading_from(made, title.nodes.len() as int),
                );
            },
            None => {},
        }
    }
}

/// Adds the nodes of a parsed document.
pub fn append_items(items: &Vec<Item>, limit: usize, fetch: bool, nodes: &mut Vec<Node>)
    ensures
        nodes_view(final(nodes)@) == with_page(
            nodes_view(old(nodes)@),
            items_view(items@),
            limit as int,
            fetch,
        ),
{
    let ghost v = items_view(items@);
    let ghost first = nodes_view(nodes@);
    if items.len() == 0 {
        return;
    }
    let t = find_item(items, "title");
    if t < items.len() {
        let text = normalize_ws(&text_below(items, t));
        if text.len() > 0 {
            push_node(
                nodes,
                Node::Furniture {
                    layer: ContentLayer::Furniture,
                    inner: Box::new(heading(1, &text)),
                },
            );
        }
    }
    assert(nodes_view(nodes@) =~= with_title(first, v));
    let start: usize = nodes.len();
    assert(start == with_title(first, v).len());
    let mut k = find_item(items, "body");
    if k >= items.len() {
        k = 0;
    }
    if within_depth_limit(items, k, limit) {
        match build_tree(items) {
            Some(root) => {
                let body = match find_tagged(&self_and_descendants(&root), "body") {
                    Some(b) => b,
                    None => &root,
                };
                let ch = shown_children(&body.children);
                walk_block(&ch, nodes, 0, no_fmt(), &root, fetch, false);
                if start <= nodes.len() {
                    mark_leading_furniture(nodes, start);
                }
            },
            None => {},
        }
    } else {
        let text = normalize_ws(&text_below(items, k));
        if text.len() > 0 {
            push_node(nodes, paragraph(&text));
        }
    }
}

/// The nodes of a parsed document.
pub fn convert_items(items: &Vec<Item>, limit: usize, fetch: bool) -> (r: Vec<Node>)
    ensures
        nodes_view(r@) == page(items_view(items@), limit as int, fetch),
{
    let mut nodes: Vec<Node> = Vec::new();
    assert(nodes_view(nodes@) =~= seq![]);
    append_items(items, limit, fetch, &mut nodes);
    nodes
}

/// The nesting to which documents are walked unless another limit is set.
pub const MAX_DOM_DEPTH: usize = 2000;

/// The HTML backend.
pub struct HtmlBackend;

impl HtmlBackend {
    /// The nodes of an HTML file. Its images stay placeholders.
    pub fn convert(&self, bytes: &[u8], limit: usize) -> (r: Vec<Node>)
        ensures
            nodes_view(r@) == page(html_items(html_text(bytes@)), limit as int, false),
    {
        convert_html(decode_html_bytes(bytes).as_str(), limit, false)
    }
}

/// Adds the nodes of an HTML text. With `fetch` each picture names its image.
pub fn append_fragment(text: &str, limit: usize, fetch: bool, nodes: &mut Vec<Node>)
    ensures
        nodes_view(final(nodes)@) == with_page(
            nodes_view(old(nodes)@),
            html_items(text@),
            limit as int,
            fetch,
        ),
{
    let items = parse_html_items(text);
    append_items(&items, limit, fetch, nodes);
}

/// The nodes of an HTML text. With `fetch` each picture names its image.
pub fn convert_html(text: &str, limit: usize, fetch: bool) -> (r: Vec<Node>)
    ensures
        nodes_view(r@) == page(html_items(text@), limit as int, fetch),
{
    let items = parse_html_items(text);
    convert_items(&items, limit, fetch)
}

/// The table that a table element of a document shows.
pub open spec fn table_of(e: ElementV, root: ElementV) -> Option<TableV> {
    laid_out(shown(e), shown_cells(shown(e).children, 0, 0, root, seq![]))
}

/// The table of a table element of a document.
pub fn parse_table(e: &Element, root: &Element) -> (r: Option<Table>)
    ensures
        match table_of(e@, root@) {
            Some(t) => r matches Some(x) && table_view(x) == t,
            None => r is None,
        },
{
    let e = shown_element(e);
    let mut cells: Vec<Rendered> = Vec::new();
    assert(rendered_view(cells@) =~= seq![]);
    render_cells(&e.children, 0, root, &mut cells);
    lay_out(&e, cells)
}

} // verus!
