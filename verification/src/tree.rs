//! Markup as a tree of elements and texts, for XML and HTML alike.
//!
//! The outside parsers hand out a flat list of items in document order, each
//! with its depth; the tree is built from that list here.

use crate::text::{chars_of, push_str, str_eq, texts, texts_push};
use vstd::prelude::*;

verus! {

/// An attribute; `namespace` is empty for an unqualified one.
#[derive(Debug, PartialEq, Eq)]
pub struct Attr {
    pub namespace: String,
    pub name: String,
    pub value: String,
}

/// An element with its local name and its namespace, which may be empty.
#[derive(Debug, PartialEq, Eq)]
pub struct Element {
    pub namespace: String,
    pub tag: String,
    pub attrs: Vec<Attr>,
    pub children: Vec<Tree>,
}

/// An element, a text, or another item (a comment with its text, an
/// instruction).
#[derive(Debug, PartialEq, Eq)]
pub enum Tree {
    Element(Element),
    Text(String),
    Other(String),
}

/// View of an [`Attr`].
#[verifier::ext_equal]
pub struct AttrV {
    pub namespace: Seq<char>,
    pub name: Seq<char>,
    pub value: Seq<char>,
}

/// View of an [`Element`].
#[verifier::ext_equal]
pub struct ElementV {
    pub namespace: Seq<char>,
    pub tag: Seq<char>,
    pub attrs: Seq<AttrV>,
    pub children: Seq<TreeV>,
}

/// View of a [`Tree`].
#[verifier::ext_equal]
pub enum TreeV {
    Element(ElementV),
    Text(Seq<char>),
    Other(Seq<char>),
}

impl View for Attr {
    type V = AttrV;

    open spec fn view(&self) -> AttrV {
        AttrV { namespace: self.namespace@, name: self.name@, value: self.value@ }
    }
}

/// The views of a list of attributes.
pub open spec fn attrs_view(v: Seq<Attr>) -> Seq<AttrV> {
    Seq::new(v.len(), |i: int| v[i]@)
}

/// The view of an element.
pub open spec fn element_view(e: Element) -> ElementV
    decreases e,
{
    ElementV {
        namespace: e.namespace@,
        tag: e.tag@,
        attrs: attrs_view(e.attrs@),
        children: trees_view(e.children@),
    }
}

/// The view of a tree.
pub open spec fn tree_view(t: Tree) -> TreeV
    decreases t,
{
    match t {
        Tree::Element(e) => TreeV::Element(element_view(e)),
        Tree::Text(s) => TreeV::Text(s@),
        Tree::Other(s) => TreeV::Other(s@),
    }
}

/// The views of a list of trees.
pub open spec fn trees_view(s: Seq<Tree>) -> Seq<TreeV>
    decreases s,
{
    Seq::new(
        s.len(),
        |i: int|
            if 0 <= i < s.len() {
                tree_view(s[i])
            } else {
                TreeV::Other(seq![])
            },
    )
}

impl View for Element {
    type V = ElementV;

    open spec fn view(&self) -> ElementV {
        element_view(*self)
    }
}

/// The views of a list of elements.
pub open spec fn refs_view(v: Seq<&Element>) -> Seq<ElementV> {
    Seq::new(v.len(), |i: int| v[i]@)
}

/// Appending an element appends its view.
pub broadcast proof fn refs_view_push(v: Seq<&Element>, e: &Element)
    ensures
        #[trigger] refs_view(v.push(e)) == refs_view(v).push(e@),
{
    assert(refs_view(v.push(e)) =~= refs_view(v).push(e@));
}

/// The view of an optional element.
pub open spec fn ref_view(e: Option<&Element>) -> Option<ElementV> {
    match e {
        Some(e) => Some(e@),
        None => None,
    }
}

// ------------------------------------------------------------ lookups

/// The value of the first attribute from `i` on with a local name, in any
/// namespace.
pub open spec fn attr_from(a: Seq<AttrV>, name: Seq<char>, i: int) -> Option<Seq<char>>
    decreases a.len() - i,
{
    if i >= a.len() {
        None
    } else if a[i].name == name {
        Some(a[i].value)
    } else {
        attr_from(a, name, i + 1)
    }
}

/// The value of the first attribute with a local name, in any namespace.
pub open spec fn attr_of(e: ElementV, name: Seq<char>) -> Option<Seq<char>> {
    attr_from(e.attrs, name, 0)
}

/// The value of the first unqualified attribute from `i` on with a name.
pub open spec fn plain_attr_from(a: Seq<AttrV>, name: Seq<char>, i: int) -> Option<Seq<char>>
    decreases a.len() - i,
{
    if i >= a.len() {
        None
    } else if a[i].name == name && a[i].namespace.len() == 0 {
        Some(a[i].value)
    } else {
        plain_attr_from(a, name, i + 1)
    }
}

/// The value of the unqualified attribute with a name.
pub open spec fn plain_attr_of(e: ElementV, name: Seq<char>) -> Option<Seq<char>> {
    plain_attr_from(e.attrs, name, 0)
}

/// The value of the first attribute from `i` on with a name in a namespace.
pub open spec fn spaced_attr_from(a: Seq<AttrV>, space: Seq<char>, name: Seq<char>, i: int) -> Option<
    Seq<char>,
>
    decreases a.len() - i,
{
    if i >= a.len() {
        None
    } else if a[i].name == name && a[i].namespace == space {
        Some(a[i].value)
    } else {
        spaced_attr_from(a, space, name, i + 1)
    }
}

/// The value of the attribute with a name in a namespace.
pub open spec fn spaced_attr_of(e: ElementV, space: Seq<char>, name: Seq<char>) -> Option<Seq<char>> {
    spaced_attr_from(e.attrs, space, name, 0)
}

/// The text of an optional string slice.
pub open spec fn opt_str(o: Option<&str>) -> Option<Seq<char>> {
    match o {
        Some(s) => Some(s@),
        None => None,
    }
}

/// The value of the attribute with a name in a namespace.
pub fn spaced_attr<'a>(e: &'a Element, space: &str, name: &str) -> (r: Option<&'a str>)
    ensures
        opt_str(r) == spaced_attr_of(e@, space@, name@),
{
    let mut i: usize = 0;
    while i < e.attrs.len()
        invariant
            i <= e.attrs@.len(),
            spaced_attr_of(e@, space@, name@) == spaced_attr_from(
                e@.attrs,
                space@,
                name@,
                i as int,
            ),
        decreases e.attrs@.len() - i,
    {
        assert(e@.attrs[i as int] == e.attrs@[i as int]@);
        if str_eq(e.attrs[i].name.as_str(), name) && str_eq(
            e.attrs[i].namespace.as_str(),
            space,
        ) {
            return Some(e.attrs[i].value.as_str());
        }
        i += 1;
    }
    None
}

/// The value of the first attribute with a local name, in any namespace.
pub fn attr<'a>(e: &'a Element, name: &str) -> (r: Option<&'a str>)
    ensures
        opt_str(r) == attr_of(e@, name@),
{
    let mut i: usize = 0;
    while i < e.attrs.len()
        invariant
            i <= e.attrs@.len(),
            attr_of(e@, name@) == attr_from(e@.attrs, name@, i as int),
        decreases e.attrs@.len() - i,
    {
        assert(e@.attrs[i as int] == e.attrs@[i as int]@);
        if str_eq(e.attrs[i].name.as_str(), name) {
            return Some(e.attrs[i].value.as_str());
        }
        i += 1;
    }
    None
}

/// The value of the unqualified attribute with a name.
pub fn plain_attr<'a>(e: &'a Element, name: &str) -> (r: Option<&'a str>)
    ensures
        opt_str(r) == plain_attr_of(e@, name@),
{
    let mut i: usize = 0;
    while i < e.attrs.len()
        invariant
            i <= e.attrs@.len(),
            plain_attr_of(e@, name@) == plain_attr_from(e@.attrs, name@, i as int),
        decreases e.attrs@.len() - i,
    {
        assert(e@.attrs[i as int] == e.attrs@[i as int]@);
        if str_eq(e.attrs[i].name.as_str(), name) && e.attrs[i].namespace.as_str().is_empty() {
            return Some(e.attrs[i].value.as_str());
        }
        i += 1;
    }
    None
}

/// Whether an element has a tag.
pub fn has_tag(e: &Element, tag: &str) -> (r: bool)
    ensures
        r == (e@.tag == tag@),
{
    str_eq(e.tag.as_str(), tag)
}

/// The text at the head of an element: its first child, if that is a text.
pub open spec fn head(e: ElementV) -> Option<Seq<char>> {
    if e.children.len() > 0 {
        match e.children[0] {
            TreeV::Text(s) => Some(s),
            _ => None,
        }
    } else {
        None
    }
}

/// The text right behind the child `i`.
pub open spec fn tail(ch: Seq<TreeV>, i: int) -> Option<Seq<char>> {
    if 0 <= i && i + 1 < ch.len() {
        match ch[i + 1] {
            TreeV::Text(s) => Some(s),
            _ => None,
        }
    } else {
        None
    }
}

/// The text at the head of an element.
pub fn head_of<'a>(e: &'a Element) -> (r: Option<&'a str>)
    ensures
        opt_str(r) == head(e@),
{
    if e.children.len() > 0 {
        assert(e@.children[0] == tree_view(e.children@[0]));
        match &e.children[0] {
            Tree::Text(s) => Some(s.as_str()),
            _ => None,
        }
    } else {
        None
    }
}

/// The text right behind the child `i`.
pub fn tail_of<'a>(ch: &'a Vec<Tree>, i: usize) -> (r: Option<&'a str>)
    requires
        i < ch@.len(),
    ensures
        opt_str(r) == tail(trees_view(ch@), i as int),
{
    if ch.len() - i > 1 {
        assert(trees_view(ch@)[i + 1] == tree_view(ch@[i + 1]));
        match &ch[i + 1] {
            Tree::Text(s) => Some(s.as_str()),
            _ => None,
        }
    } else {
        None
    }
}

/// The first child element from `i` on with a tag.
pub open spec fn child_from(ch: Seq<TreeV>, tag: Seq<char>, i: int) -> Option<ElementV>
    decreases ch.len() - i,
{
    if i >= ch.len() {
        None
    } else {
        match ch[i] {
            TreeV::Element(e) => if e.tag == tag {
                Some(e)
            } else {
                child_from(ch, tag, i + 1)
            },
            _ => child_from(ch, tag, i + 1),
        }
    }
}

/// The first child element with a tag.
pub open spec fn child_of(e: ElementV, tag: Seq<char>) -> Option<ElementV> {
    child_from(e.children, tag, 0)
}

/// The first child element with a tag.
pub fn child<'a>(e: &'a Element, tag: &str) -> (r: Option<&'a Element>)
    ensures
        ref_view(r) == child_of(e@, tag@),
{
    let mut i: usize = 0;
    while i < e.children.len()
        invariant
            i <= e.children@.len(),
            child_of(e@, tag@) == child_from(e@.children, tag@, i as int),
        decreases e.children@.len() - i,
    {
        assert(e@.children[i as int] == tree_view(e.children@[i as int]));
        match &e.children[i] {
            Tree::Element(c) => {
                if has_tag(c, tag) {
                    return Some(c);
                }
            },
            _ => {},
        }
        i += 1;
    }
    None
}

/// The first child element from `i` on with one of two tags.
pub open spec fn either_from(ch: Seq<TreeV>, a: Seq<char>, b: Seq<char>, i: int) -> Option<ElementV>
    decreases ch.len() - i,
{
    if i >= ch.len() {
        None
    } else {
        match ch[i] {
            TreeV::Element(e) => if e.tag == a || e.tag == b {
                Some(e)
            } else {
                either_from(ch, a, b, i + 1)
            },
            _ => either_from(ch, a, b, i + 1),
        }
    }
}

/// The first child element with one of two tags.
pub open spec fn either_of(e: ElementV, a: Seq<char>, b: Seq<char>) -> Option<ElementV> {
    either_from(e.children, a, b, 0)
}

/// The first child element with one of two tags.
pub fn either<'a>(e: &'a Element, a: &str, b: &str) -> (r: Option<&'a Element>)
    ensures
        ref_view(r) == either_of(e@, a@, b@),
{
    let mut i: usize = 0;
    while i < e.children.len()
        invariant
            i <= e.children@.len(),
            either_of(e@, a@, b@) == either_from(e@.children, a@, b@, i as int),
        decreases e.children@.len() - i,
    {
        assert(e@.children[i as int] == tree_view(e.children@[i as int]));
        match &e.children[i] {
            Tree::Element(c) => {
                if has_tag(c, a) || has_tag(c, b) {
                    return Some(c);
                }
            },
            _ => {},
        }
        i += 1;
    }
    None
}

/// The child elements from `i` on with a tag, added to `done`.
pub open spec fn kids_from(
    ch: Seq<TreeV>,
    tag: Seq<char>,
    i: int,
    done: Seq<ElementV>,
) -> Seq<ElementV>
    decreases ch.len() - i,
{
    if i >= ch.len() {
        done
    } else {
        kids_from(
            ch,
            tag,
            i + 1,
            match ch[i] {
                TreeV::Element(e) => if e.tag == tag {
                    done.push(e)
                } else {
                    done
                },
                _ => done,
            },
        )
    }
}

/// The child elements with a tag.
pub open spec fn kids_of(e: ElementV, tag: Seq<char>) -> Seq<ElementV> {
    kids_from(e.children, tag, 0, seq![])
}

/// The child elements with a tag.
pub fn kids<'a>(e: &'a Element, tag: &str) -> (r: Vec<&'a Element>)
    ensures
        refs_view(r@) == kids_of(e@, tag@),
{
    let mut out: Vec<&'a Element> = Vec::new();
    let mut i: usize = 0;
    assert(refs_view(out@) =~= seq![]);
    while i < e.children.len()
        invariant
            i <= e.children@.len(),
            kids_of(e@, tag@) == kids_from(e@.children, tag@, i as int, refs_view(out@)),
        decreases e.children@.len() - i,
    {
        broadcast use refs_view_push;

        assert(e@.children[i as int] == tree_view(e.children@[i as int]));
        match &e.children[i] {
            Tree::Element(c) => {
                if has_tag(c, tag) {
                    out.push(c);
                }
            },
            _ => {},
        }
        i += 1;
    }
    out
}

/// The child elements from `i` on with one of two tags, added to `done`.
pub open spec fn either_kids_from(
    ch: Seq<TreeV>,
    a: Seq<char>,
    b: Seq<char>,
    i: int,
    done: Seq<ElementV>,
) -> Seq<ElementV>
    decreases ch.len() - i,
{
    if i >= ch.len() {
        done
    } else {
        either_kids_from(
            ch,
            a,
            b,
            i + 1,
            match ch[i] {
                TreeV::Element(e) => if e.tag == a || e.tag == b {
                    done.push(e)
                } else {
                    done
                },
                _ => done,
            },
        )
    }
}

/// The child elements with one of two tags.
pub open spec fn either_kids_of(e: ElementV, a: Seq<char>, b: Seq<char>) -> Seq<ElementV> {
    either_kids_from(e.children, a, b, 0, seq![])
}

/// The child elements with one of two tags.
pub fn either_kids<'a>(e: &'a Element, a: &str, b: &str) -> (r: Vec<&'a Element>)
    ensures
        refs_view(r@) == either_kids_of(e@, a@, b@),
{
    let mut out: Vec<&'a Element> = Vec::new();
    let mut i: usize = 0;
    assert(refs_view(out@) =~= seq![]);
    while i < e.children.len()
        invariant
            i <= e.children@.len(),
            either_kids_of(e@, a@, b@) == either_kids_from(
                e@.children,
                a@,
                b@,
                i as int,
                refs_view(out@),
            ),
        decreases e.children@.len() - i,
    {
        broadcast use refs_view_push;

        assert(e@.children[i as int] == tree_view(e.children@[i as int]));
        match &e.children[i] {
            Tree::Element(c) => {
                if has_tag(c, a) || has_tag(c, b) {
                    out.push(c);
                }
            },
            _ => {},
        }
        i += 1;
    }
    out
}

/// The child elements from `i` on, added to `done`.
pub open spec fn child_elements_from(ch: Seq<TreeV>, i: int, done: Seq<ElementV>) -> Seq<ElementV>
    decreases ch.len() - i,
{
    if i >= ch.len() {
        done
    } else {
        child_elements_from(
            ch,
            i + 1,
            match ch[i] {
                TreeV::Element(e) => done.push(e),
                _ => done,
            },
        )
    }
}

/// The child elements.
pub open spec fn child_elements_of(e: ElementV) -> Seq<ElementV> {
    child_elements_from(e.children, 0, seq![])
}

/// The child elements.
pub fn child_elements<'a>(e: &'a Element) -> (r: Vec<&'a Element>)
    ensures
        refs_view(r@) == child_elements_of(e@),
{
    let mut out: Vec<&'a Element> = Vec::new();
    let mut i: usize = 0;
    assert(refs_view(out@) =~= seq![]);
    while i < e.children.len()
        invariant
            i <= e.children@.len(),
            child_elements_of(e@) == child_elements_from(
                e@.children,
                i as int,
                refs_view(out@),
            ),
        decreases e.children@.len() - i,
    {
        broadcast use refs_view_push;

        assert(e@.children[i as int] == tree_view(e.children@[i as int]));
        match &e.children[i] {
            Tree::Element(c) => {
                out.push(c);
            },
            _ => {},
        }
        i += 1;
    }
    out
}

// ------------------------------------------------------------ descendants

/// The elements under the children from `i` on, in document order, added to
/// `done`.
pub open spec fn elements_from(ch: Seq<TreeV>, i: int, done: Seq<ElementV>) -> Seq<ElementV>
    decreases ch, ch.len() - i,
{
    if i < 0 || i >= ch.len() {
        done
    } else {
        elements_from(
            ch,
            i + 1,
            match ch[i] {
                TreeV::Element(e) => elements_from(e.children, 0, done.push(e)),
                _ => done,
            },
        )
    }
}

/// The elements under an element, in document order.
pub open spec fn under(e: ElementV) -> Seq<ElementV> {
    elements_from(e.children, 0, seq![])
}

/// An element and the elements under it, in document order.
pub open spec fn self_and_under(e: ElementV) -> Seq<ElementV> {
    elements_from(e.children, 0, seq![e])
}

fn collect<'a>(ch: &'a Vec<Tree>, out: &mut Vec<&'a Element>)
    ensures
        refs_view(final(out)@) == elements_from(trees_view(ch@), 0, refs_view(old(out)@)),
    decreases ch,
{
    broadcast use refs_view_push;

    let ghost v = trees_view(ch@);
    let ghost first = refs_view(out@);
    let mut i: usize = 0;
    while i < ch.len()
        invariant
            i <= ch@.len(),
            v == trees_view(ch@),
            elements_from(v, 0, first) == elements_from(v, i as int, refs_view(out@)),
        decreases ch@.len() - i,
    {
        broadcast use refs_view_push;

        assert(v[i as int] == tree_view(ch@[i as int]));
        match &ch[i] {
            Tree::Element(e) => {
                out.push(e);
                collect(&e.children, out);
            },
            _ => {},
        }
        i += 1;
    }
}

/// The elements under an element, in document order.
pub fn descendants<'a>(e: &'a Element) -> (r: Vec<&'a Element>)
    ensures
        refs_view(r@) == under(e@),
{
    let mut out: Vec<&'a Element> = Vec::new();
    assert(refs_view(out@) =~= seq![]);
    collect(&e.children, &mut out);
    out
}

/// An element and the elements under it, in document order.
pub fn self_and_descendants<'a>(e: &'a Element) -> (r: Vec<&'a Element>)
    ensures
        refs_view(r@) == self_and_under(e@),
{
    let mut out: Vec<&'a Element> = Vec::new();
    out.push(e);
    assert(refs_view(out@) =~= seq![e@]);
    collect(&e.children, &mut out);
    out
}

/// The first element from `i` on with a tag.
pub open spec fn tagged_from(v: Seq<ElementV>, tag: Seq<char>, i: int) -> Option<ElementV>
    decreases v.len() - i,
{
    if i >= v.len() {
        None
    } else if v[i].tag == tag {
        Some(v[i])
    } else {
        tagged_from(v, tag, i + 1)
    }
}

/// The first element of a list with a tag.
pub open spec fn first_tagged(v: Seq<ElementV>, tag: Seq<char>) -> Option<ElementV> {
    tagged_from(v, tag, 0)
}

/// The first element of a list with a tag.
pub fn find_tagged<'a>(v: &Vec<&'a Element>, tag: &str) -> (r: Option<&'a Element>)
    ensures
        ref_view(r) == first_tagged(refs_view(v@), tag@),
{
    let mut i: usize = 0;
    while i < v.len()
        invariant
            i <= v@.len(),
            first_tagged(refs_view(v@), tag@) == tagged_from(refs_view(v@), tag@, i as int),
        decreases v@.len() - i,
    {
        assert(refs_view(v@)[i as int] == v@[i as int]@);
        if has_tag(v[i], tag) {
            return Some(v[i]);
        }
        i += 1;
    }
    None
}

/// Whether an element with a tag stands under an element.
pub open spec fn has_under(e: ElementV, tag: Seq<char>) -> bool {
    first_tagged(under(e), tag) is Some
}

/// Whether an element with a tag stands under an element.
pub fn has_descendant(e: &Element, tag: &str) -> (r: bool)
    ensures
        r == has_under(e@, tag@),
{
    let all = descendants(e);
    find_tagged(&all, tag).is_some()
}

/// The texts under the children from `i` on, one behind the other, added to
/// `done`.
pub open spec fn text_from(ch: Seq<TreeV>, i: int, done: Seq<char>) -> Seq<char>
    decreases ch, ch.len() - i,
{
    if i < 0 || i >= ch.len() {
        done
    } else {
        text_from(
            ch,
            i + 1,
            match ch[i] {
                TreeV::Element(e) => text_from(e.children, 0, done),
                TreeV::Text(s) => done + s,
                TreeV::Other(_) => done,
            },
        )
    }
}

/// All text under an element.
pub open spec fn all_text(e: ElementV) -> Seq<char> {
    text_from(e.children, 0, seq![])
}

/// The text under some children appended to `out`.
pub fn push_text(ch: &Vec<Tree>, out: &mut Vec<char>)
    ensures
        final(out)@ == text_from(trees_view(ch@), 0, old(out)@),
    decreases ch,
{
    let ghost v = trees_view(ch@);
    let ghost first = out@;
    let mut i: usize = 0;
    while i < ch.len()
        invariant
            i <= ch@.len(),
            v == trees_view(ch@),
            text_from(v, 0, first) == text_from(v, i as int, out@),
        decreases ch@.len() - i,
    {
        assert(v[i as int] == tree_view(ch@[i as int]));
        match &ch[i] {
            Tree::Element(e) => {
                push_text(&e.children, out);
            },
            Tree::Text(s) => {
                push_str(out, s.as_str());
            },
            Tree::Other(_) => {},
        }
        i += 1;
    }
}

/// All text under an element.
pub fn text_of(e: &Element) -> (r: Vec<char>)
    ensures
        r@ == all_text(e@),
{
    let mut out: Vec<char> = Vec::new();
    assert(out@ =~= seq![]);
    push_text(&e.children, &mut out);
    out
}

/// The texts under the children from `i` on, in document order, added to
/// `done`.
pub open spec fn pieces_from(ch: Seq<TreeV>, i: int, done: Seq<Seq<char>>) -> Seq<Seq<char>>
    decreases ch, ch.len() - i,
{
    if i < 0 || i >= ch.len() {
        done
    } else {
        pieces_from(
            ch,
            i + 1,
            match ch[i] {
                TreeV::Element(e) => pieces_from(e.children, 0, done),
                TreeV::Text(s) => done.push(s),
                TreeV::Other(_) => done,
            },
        )
    }
}

/// The texts under an element, in document order.
pub open spec fn pieces(e: ElementV) -> Seq<Seq<char>> {
    pieces_from(e.children, 0, seq![])
}

fn collect_pieces(ch: &Vec<Tree>, out: &mut Vec<Vec<char>>)
    ensures
        texts(final(out)@) == pieces_from(trees_view(ch@), 0, texts(old(out)@)),
    decreases ch,
{
    let ghost v = trees_view(ch@);
    let ghost first = texts(out@);
    let mut i: usize = 0;
    while i < ch.len()
        invariant
            i <= ch@.len(),
            v == trees_view(ch@),
            pieces_from(v, 0, first) == pieces_from(v, i as int, texts(out@)),
        decreases ch@.len() - i,
    {
        broadcast use texts_push;

        assert(v[i as int] == tree_view(ch@[i as int]));
        match &ch[i] {
            Tree::Element(e) => {
                collect_pieces(&e.children, out);
            },
            Tree::Text(s) => {
                out.push(chars_of(s.as_str()));
            },
            Tree::Other(_) => {},
        }
        i += 1;
    }
}

/// The texts under an element, in document order.
pub fn pieces_of(e: &Element) -> (r: Vec<Vec<char>>)
    ensures
        texts(r@) == pieces(e@),
{
    let mut out: Vec<Vec<char>> = Vec::new();
    assert(texts(out@) =~= seq![]);
    collect_pieces(&e.children, &mut out);
    out
}

// ------------------------------------------------------------ building

/// The kinds of items that a parser hands out.
#[derive(Clone, Copy, Debug, PartialEq, Eq, Structural)]
pub enum Kind {
    Element,
    Text,
    Other,
}

/// One item of a parsed document.
pub struct Item {
    pub depth: usize,
    pub kind: Kind,
    pub namespace: String,
    pub name: String,
    pub text: String,
    pub attrs: Vec<Attr>,
}

/// View of an [`Item`].
#[verifier::ext_equal]
pub struct ItemV {
    pub depth: int,
    pub kind: Kind,
    pub namespace: Seq<char>,
    pub name: Seq<char>,
    pub text: Seq<char>,
    pub attrs: Seq<AttrV>,
}

impl View for Item {
    type V = ItemV;

    open spec fn view(&self) -> ItemV {
        ItemV {
            depth: self.depth as int,
            kind: self.kind,
            namespace: self.namespace@,
            name: self.name@,
            text: self.text@,
            attrs: attrs_view(self.attrs@),
        }
    }
}

/// The views of a list of items.
pub open spec fn items_view(v: Seq<Item>) -> Seq<ItemV> {
    Seq::new(v.len(), |i: int| v[i]@)
}

/// Where the siblings at `depth` that begin at `i` end: at the first item
/// that is less deep.
pub open spec fn forest_end(items: Seq<ItemV>, i: int, depth: int) -> int
    decreases items.len() - i,
{
    if i < 0 || i >= items.len() || items[i].depth < depth {
        i
    } else {
        forest_end(items, i + 1, depth)
    }
}

/// The siblings at `depth` from `i` up to `end`: each item takes the deeper
/// items behind it as its children.
pub open spec fn forest(items: Seq<ItemV>, i: int, end: int, depth: int) -> Seq<TreeV>
    decreases
            if i < end {
                end - i
            } else {
                0
            },
{
    if i < 0 || i >= end || i >= items.len() {
        seq![]
    } else {
        let j = forest_end(items, i + 1, depth + 1);
        if j <= i {
            seq![]
        } else {
            seq![
                match items[i].kind {
                    Kind::Element => TreeV::Element(
                        ElementV {
                            namespace: items[i].namespace,
                            tag: items[i].name,
                            attrs: items[i].attrs,
                            children: forest(
                                items,
                                i + 1,
                                if j < end {
                                    j
                                } else {
                                    end
                                },
                                depth + 1,
                            ),
                        },
                    ),
                    Kind::Text => TreeV::Text(items[i].text),
                    Kind::Other => TreeV::Other(items[i].text),
                },
            ] + forest(items, j, end, depth)
        }
    }
}

/// The tree of a parsed document: its first item with all items behind it,
/// if that is an element.
pub open spec fn root_of(items: Seq<ItemV>) -> Option<ElementV> {
    if items.len() > 0 && items[0].kind == Kind::Element {
        Some(
            ElementV {
                namespace: items[0].namespace,
                tag: items[0].name,
                attrs: items[0].attrs,
                children: forest(items, 1, items.len() as int, items[0].depth + 1),
            },
        )
    } else {
        None
    }
}

proof fn forest_end_bounds(items: Seq<ItemV>, i: int, depth: int)
    requires
        0 <= i <= items.len(),
    ensures
        i <= forest_end(items, i, depth) <= items.len(),
    decreases items.len() - i,
{
    if i < items.len() && items[i].depth >= depth {
        forest_end_bounds(items, i + 1, depth);
    }
}

pub(crate) fn copy_attrs(v: &Vec<Attr>) -> (r: Vec<Attr>)
    ensures
        attrs_view(r@) == attrs_view(v@),
{
    let mut out: Vec<Attr> = Vec::new();
    let mut i: usize = 0;
    while i < v.len()
        invariant
            i <= v@.len(),
            attrs_view(out@) == attrs_view(v@).take(i as int),
        decreases v@.len() - i,
    {
        let ghost before = out@;
        let a = Attr {
            namespace: v[i].namespace.clone(),
            name: v[i].name.clone(),
            value: v[i].value.clone(),
        };
        out.push(a);
        proof {
            assert(attrs_view(out@) =~= attrs_view(before).push(a@));
            assert(attrs_view(v@).take(i + 1) =~= attrs_view(v@).take(i as int).push(a@));
        }
        i += 1;
    }
    assert(attrs_view(v@).take(i as int) =~= attrs_view(v@));
    out
}

fn build(items: &Vec<Item>, from: usize, end: usize, depth: u128) -> (r: Vec<Tree>)
    requires
        from <= end <= items@.len(),
        depth + (end - from) <= u128::MAX,
    ensures
        trees_view(r@) == forest(items_view(items@), from as int, end as int, depth as int),
    decreases end - from,
{
    let ghost v = items_view(items@);
    let mut out: Vec<Tree> = Vec::new();
    let mut i: usize = from;
    assert(trees_view(out@) =~= seq![]);
    while i < end
        invariant
            from <= i <= end <= items@.len(),
            depth + (end - from) <= u128::MAX,
            v == items_view(items@),
            forest(v, from as int, end as int, depth as int) =~= trees_view(out@) + forest(
                v,
                i as int,
                end as int,
                depth as int,
            ),
        decreases end - i,
    {
        let mut j: usize = i + 1;
        let below: u128 = depth + 1;
        while j < items.len() && items[j].depth as u128 >= below
            invariant
                i < j <= items@.len(),
                v == items_view(items@),
                forest_end(v, i + 1, below as int) == forest_end(v, j as int, below as int),
            decreases items@.len() - j,
        {
            j += 1;
        }
        let stop: usize = if j < end {
            j
        } else {
            end
        };
        let ghost before = out@;
        let tree = match items[i].kind {
            Kind::Element => {
                let children = build(items, i + 1, stop, below);
                Tree::Element(
                    Element {
                        namespace: items[i].namespace.clone(),
                        tag: items[i].name.clone(),
                        attrs: copy_attrs(&items[i].attrs),
                        children,
                    },
                )
            },
            Kind::Text => Tree::Text(items[i].text.clone()),
            Kind::Other => Tree::Other(items[i].text.clone()),
        };
        proof {
            assert(v[i as int] == items@[i as int]@);
        }
        out.push(tree);
        proof {
            assert(trees_view(out@) =~= trees_view(before).push(tree_view(tree)));
            assert(forest(v, i as int, end as int, depth as int) =~= seq![tree_view(tree)] + forest(
                v,
                j as int,
                end as int,
                depth as int,
            ));
            if j > end {
                assert(forest(v, j as int, end as int, depth as int) =~= forest(
                    v,
                    end as int,
                    end as int,
                    depth as int,
                ));
            }
        }
        i = stop;
    }
    out
}

/// The tree of a parsed document.
pub fn build_tree(items: &Vec<Item>) -> (r: Option<Element>)
    ensures
        match root_of(items_view(items@)) {
            Some(e) => r matches Some(x) && x@ == e,
            None => r is None,
        },
{
    if items.len() == 0 || items[0].kind != Kind::Element {
        return None;
    }
    let children = build(items, 1, items.len(), items[0].depth as u128 + 1);
    Some(
        Element {
            namespace: items[0].namespace.clone(),
            tag: items[0].name.clone(),
            attrs: copy_attrs(&items[0].attrs),
            children,
        },
    )
}

} // verus!
