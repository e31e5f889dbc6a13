//! Parsing markup with the outside parsers.

use crate::document::opt;
use crate::text::{chars_of, or_empty, string_of};
use crate::tree::{
    attrs_view, build_tree, items_view, root_of, Attr, AttrV, Element, ElementV, Item, ItemV, Kind,
};
use vstd::prelude::*;

verus! {

/// What a parser says of an attribute: its namespace, its name and its value.
pub type RawAttr = (Option<String>, String, String);

/// What a parser says of a node: how deep it stands, whether it is a text; its
/// namespace, its name and its attributes; and its own text.
pub type RawNode = (
    usize,
    bool,
    Option<(Option<String>, String, Vec<RawAttr>)>,
    Option<String>,
);

/// View of a [`RawNode`].
#[verifier::ext_equal]
pub struct RawNodeV {
    pub depth: int,
    pub is_text: bool,
    pub tag: Option<RawTagV>,
    pub text: Option<Seq<char>>,
}

/// A node's namespace, its name and its attributes.
#[verifier::ext_equal]
pub struct RawTagV {
    pub namespace: Seq<char>,
    pub name: Seq<char>,
    pub attrs: Seq<AttrV>,
}

/// View of an attribute.
pub open spec fn raw_attr_view(a: RawAttr) -> AttrV {
    AttrV { namespace: or_empty(opt(a.0)), name: a.1@, value: a.2@ }
}

/// View of a node.
pub open spec fn raw_node_view(n: RawNode) -> RawNodeV {
    RawNodeV {
        depth: n.0 as int,
        is_text: n.1,
        tag: match n.2 {
            Some(t) => Some(
                RawTagV {
                    namespace: or_empty(opt(t.0)),
                    name: t.1@,
                    attrs: t.2@.map_values(|a: RawAttr| raw_attr_view(a)),
                },
            ),
            None => None,
        },
        text: opt(n.3),
    }
}

/// Views of nodes.
pub open spec fn raw_view(v: Seq<RawNode>) -> Seq<RawNodeV> {
    v.map_values(|n: RawNode| raw_node_view(n))
}

/// The view of a parse result.
pub open spec fn raw_result_view(r: Result<Vec<RawNode>, String>) -> Result<
    Seq<RawNodeV>,
    Seq<char>,
> {
    match r {
        Ok(v) => Ok(raw_view(v@)),
        Err(e) => Err(e@),
    }
}

/// The nodes that `roxmltree` finds in an XML text, with its root element
/// first, or its error message. `dtd` allows a document type declaration.
pub uninterp spec fn xml_nodes(text: Seq<char>, dtd: bool) -> Result<Seq<RawNodeV>, Seq<char>>;

/// The nodes that `scraper` finds in an HTML text, with the `html` element
/// first.
pub uninterp spec fn html_nodes(text: Seq<char>) -> Seq<RawNodeV>;

/// The nodes that `scraper` finds in an HTML fragment, with the `html` element
/// first.
pub uninterp spec fn fragment_nodes(text: Seq<char>) -> Seq<RawNodeV>;

/// Calls `roxmltree::Document::parse_with_options` and lists the root element
/// and its descendants in document order: of each the number of its ancestors,
/// and what `is_text`, `tag_name`, `attributes` and `text` say of it. What is
/// claimed is that the list, or the error message, depends on the two arguments
/// alone.
#[verifier::external_body]
fn parse_xml_nodes(text: &str, dtd: bool) -> (r: Result<Vec<RawNode>, String>)
    ensures
        raw_result_view(r) == xml_nodes(text@, dtd),
{
    let options = roxmltree::ParsingOptions { allow_dtd: dtd, ..Default::default() };
    let doc = roxmltree::Document::parse_with_options(text, options).map_err(|e| e.to_string())?;
    Ok(doc.root_element().descendants().map(|n| (
        n.ancestors().count(),
        n.is_text(),
        Some((
            n.tag_name().namespace().map(Into::into),
            n.tag_name().name().into(),
            n.attributes().map(|a| (
                a.namespace().map(Into::into), a.name().into(), a.value().into())).collect())),
        n.text().map(Into::into),
    )).collect())
}

/// Calls `scraper::Html::parse_document` and lists the `html` element and its
/// descendants in document order: of each the number of its ancestors, whether
/// it is a text, its name and its attributes where it is an element, and its
/// text where it is one. What is claimed is that the list depends on the text
/// alone.
#[verifier::external_body]
fn parse_html_nodes(text: &str) -> (r: Vec<RawNode>)
    ensures
        raw_view(r@) == html_nodes(text@),
{
    let doc = scraper::Html::parse_document(text);
    doc.root_element().descendants().map(|n| (
        n.ancestors().count(),
        n.value().is_text(),
        n.value().as_element().map(|e| (
            Some(e.name.ns.to_string()),
            e.name().into(),
            e.attrs.iter().map(|(k, v)| (
                Some(k.ns.to_string()), k.local.to_string(), v.to_string())).collect())),
        n.value().as_text().map(|t| t.to_string()),
    )).collect()
}

/// Calls `scraper::Html::parse_fragment` and lists the `html` element and its
/// descendants in document order: of each the number of its ancestors, whether
/// it is a text, its name and its attributes where it is an element, and its
/// text where it is one. What is claimed is that the list depends on the text
/// alone.
#[verifier::external_body]
fn parse_fragment_nodes(text: &str) -> (r: Vec<RawNode>)
    ensures
        raw_view(r@) == fragment_nodes(text@),
{
    let doc = scraper::Html::parse_fragment(text);
    doc.root_element().descendants().map(|n| (
        n.ancestors().count(),
        n.value().is_text(),
        n.value().as_element().map(|e| (
            Some(e.name.ns.to_string()),
            e.name().into(),
            e.attrs.iter().map(|(k, v)| (
                Some(k.ns.to_string()), k.local.to_string(), v.to_string())).collect())),
        n.value().as_text().map(|t| t.to_string()),
    )).collect()
}

/// What a node is: an element where it has a name.
pub open spec fn kind_of(name: Seq<char>, is_text: bool) -> Kind {
    if name.len() > 0 {
        Kind::Element
    } else if is_text {
        Kind::Text
    } else {
        Kind::Other
    }
}

/// The item that a node is.
pub open spec fn item_of(n: RawNodeV) -> ItemV {
    let tag = match n.tag {
        Some(t) => t,
        None => RawTagV { namespace: seq![], name: seq![], attrs: seq![] },
    };
    ItemV {
        depth: n.depth,
        kind: kind_of(tag.name, n.is_text),
        namespace: tag.namespace,
        name: tag.name,
        text: or_empty(n.text),
        attrs: tag.attrs,
    }
}

/// The items that nodes are.
pub open spec fn items_of(v: Seq<RawNodeV>) -> Seq<ItemV> {
    v.map_values(|n: RawNodeV| item_of(n))
}

/// The items of an XML text, with its root element first, or the parser's
/// error message.
pub open spec fn xml_items(text: Seq<char>, dtd: bool) -> Result<Seq<ItemV>, Seq<char>> {
    match xml_nodes(text, dtd) {
        Ok(v) => Ok(items_of(v)),
        Err(e) => Err(e),
    }
}

/// The items of an HTML text, with the `html` element first.
pub open spec fn html_items(text: Seq<char>) -> Seq<ItemV> {
    items_of(html_nodes(text))
}

/// The items of an HTML fragment, with the `html` element first.
pub open spec fn fragment_items(text: Seq<char>) -> Seq<ItemV> {
    items_of(fragment_nodes(text))
}

fn or_blank(s: &Option<String>) -> (r: String)
    ensures
        r@ == or_empty(opt(*s)),
{
    match s {
        Some(t) => t.clone(),
        None => string_of(&Vec::new()),
    }
}

fn make_attrs(v: &Vec<RawAttr>) -> (r: Vec<Attr>)
    ensures
        attrs_view(r@) == v@.map_values(|a: RawAttr| raw_attr_view(a)),
{
    let ghost want = v@.map_values(|a: RawAttr| raw_attr_view(a));
    let mut out: Vec<Attr> = Vec::new();
    let mut i: usize = 0;
    while i < v.len()
        invariant
            i <= v@.len(),
            want == v@.map_values(|a: RawAttr| raw_attr_view(a)),
            out@.len() == i,
            forall|k: int| 0 <= k < i ==> (#[trigger] out@[k])@ == want[k],
        decreases v@.len() - i,
    {
        let a = &v[i];
        out.push(Attr { namespace: or_blank(&a.0), name: a.1.clone(), value: a.2.clone() });
        i += 1;
    }
    assert(attrs_view(out@) =~= want);
    out
}

fn make_item(n: &RawNode) -> (r: Item)
    ensures
        r@ == item_of(raw_node_view(*n)),
{
    let text = or_blank(&n.3);
    match &n.2 {
        Some(t) => {
            let kind = if chars_of(t.1.as_str()).len() > 0 {
                Kind::Element
            } else if n.1 {
                Kind::Text
            } else {
                Kind::Other
            };
            Item {
                depth: n.0,
                kind,
                namespace: or_blank(&t.0),
                name: t.1.clone(),
                text,
                attrs: make_attrs(&t.2),
            }
        },
        None => {
            let kind = if n.1 {
                Kind::Text
            } else {
                Kind::Other
            };
            let attrs: Vec<Attr> = Vec::new();
            assert(attrs_view(attrs@) =~= seq![]);
            Item {
                depth: n.0,
                kind,
                namespace: string_of(&Vec::new()),
                name: string_of(&Vec::new()),
                text,
                attrs,
            }
        },
    }
}

fn make_items(v: &Vec<RawNode>) -> (r: Vec<Item>)
    ensures
        items_view(r@) == items_of(raw_view(v@)),
{
    let ghost want = items_of(raw_view(v@));
    let mut out: Vec<Item> = Vec::new();
    let mut i: usize = 0;
    while i < v.len()
        invariant
            i <= v@.len(),
            want == items_of(raw_view(v@)),
            out@.len() == i,
            forall|k: int| 0 <= k < i ==> (#[trigger] out@[k])@ == want[k],
        decreases v@.len() - i,
    {
        assert(want[i as int] == item_of(raw_node_view(v@[i as int])));
        out.push(make_item(&v[i]));
        i += 1;
    }
    assert(items_view(out@) =~= want);
    out
}

/// The items of an HTML text.
pub(crate) fn parse_html_items(text: &str) -> (r: Vec<Item>)
    ensures
        items_view(r@) == html_items(text@),
{
    make_items(&parse_html_nodes(text))
}

/// The items of an HTML fragment.
pub(crate) fn parse_fragment_items(text: &str) -> (r: Vec<Item>)
    ensures
        items_view(r@) == fragment_items(text@),
{
    make_items(&parse_fragment_nodes(text))
}

/// Why an XML text has no tree.
#[derive(Debug, PartialEq, Eq)]
pub enum XmlError {
    /// The parser's message.
    Syntax(String),
    /// The text holds no root element.
    NoRoot,
}

/// The tree of an XML text.
pub open spec fn xml_root(text: Seq<char>, dtd: bool) -> Option<ElementV> {
    match xml_items(text, dtd) {
        Ok(items) => root_of(items),
        Err(_) => None,
    }
}

/// The tree of an XML text, or why there is none.
pub fn parse_xml(text: &str, dtd: bool) -> (r: Result<Element, XmlError>)
    ensures
        match xml_items(text@, dtd) {
            Err(e) => r matches Err(XmlError::Syntax(x)) && x@ == e,
            Ok(items) => match root_of(items) {
                Some(e) => r matches Ok(x) && x@ == e,
                None => r matches Err(XmlError::NoRoot),
            },
        },
{
    match parse_xml_nodes(text, dtd) {
        Err(e) => Err(XmlError::Syntax(e)),
        Ok(nodes) => match build_tree(&make_items(&nodes)) {
            Some(e) => Ok(e),
            None => Err(XmlError::NoRoot),
        },
    }
}

} // verus!
