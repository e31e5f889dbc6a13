//! JATS article XML.
//!
//! The title, authors, affiliations and abstracts come from the article's
//! metadata; the body and back matter are walked in document order: sections
//! become headings, paragraphs text with inline runs (emphasis, links, inline
//! formulas), and tables, figures, lists, references, footnotes and display
//! formulas their own nodes.

use crate::document::{
    any_flag, blank, blank_cells, blank_flags, blank_has_shape, bullet, bullet_view, cells,
    fill_cells, fill_flags, filled, filled_keeps_shape, flags, has_flag, has_shape, heading,
    is_grid, nodes_view, opt, paragraph, picture_view, push_node, runs_view, runs_view_push,
    string_grid, strings, strs, table_view, CaptionParent, InlineRun, InlineRunV, Node, NodeV,
    Script, Table, TableStructure, TableStructureV, TableV,
};
use crate::html::{name_no_source, names_no_source, normalize_url, normalized_url};
use crate::parse::{parse_xml, xml_items, XmlError};
use crate::text::{
    chars_of, chars_or_empty, copy, ends_with, escape_text, escaped, find_from, has_prefix,
    has_suffix, index_from, is, is_at, join, joined, lowered, normalize, normalized, occurs_at,
    or_empty, parse_uint, push_all, push_str, replace_char, same, slice, split, split_from, splits,
    starts_with, str_eq, string_of, strip, texts, texts_push, to_lower, to_uppercase, trim, uint,
    unlined, uppercase,
};
use crate::tree::{
    attr, attr_of, child, child_elements, child_elements_of, child_of, either, either_kids,
    either_kids_of, either_of, find_tagged, first_tagged, has_descendant, has_tag, has_under, head,
    head_of, kids, kids_of, opt_str, pieces, pieces_of, ref_view, refs_view, refs_view_push,
    root_of, self_and_descendants, self_and_under, tail, tail_of, tree_view, trees_view, Element,
    ElementV, Tree, TreeV,
};
use vstd::prelude::*;

verus! {

/// Emphasis gathered from the enclosing tags.
#[derive(Clone, Copy, Debug, PartialEq, Eq, Structural)]
pub struct Fmt {
    pub bold: bool,
    pub italic: bool,
    pub underline: bool,
    pub strike: bool,
    pub script: Script,
}

/// No emphasis.
pub open spec fn no_fmt() -> Fmt {
    Fmt {
        bold: false,
        italic: false,
        underline: false,
        strike: false,
        script: Script::Baseline,
    }
}

/// The emphasis under a tag.
pub open spec fn tag_fmt(f: Fmt, tag: Seq<char>) -> Fmt {
    if tag == "bold"@ {
        Fmt { bold: true, ..f }
    } else if tag == "italic"@ {
        Fmt { italic: true, ..f }
    } else if tag == "underline"@ {
        Fmt { underline: true, ..f }
    } else if tag == "strike"@ {
        Fmt { strike: true, ..f }
    } else if tag == "sub"@ {
        Fmt { script: Script::Sub, ..f }
    } else if tag == "sup"@ {
        Fmt { script: Script::Super, ..f }
    } else {
        f
    }
}

impl Fmt {
    /// No emphasis.
    pub fn none() -> (r: Fmt)
        ensures
            r == no_fmt(),
    {
        Fmt { bold: false, italic: false, underline: false, strike: false, script: Script::Baseline }
    }

    /// The emphasis under a tag.
    pub fn with_tag(self, tag: &str) -> (r: Fmt)
        ensures
            r == tag_fmt(self, tag@),
    {
        if str_eq(tag, "bold") {
            Fmt { bold: true, ..self }
        } else if str_eq(tag, "italic") {
            Fmt { italic: true, ..self }
        } else if str_eq(tag, "underline") {
            Fmt { underline: true, ..self }
        } else if str_eq(tag, "strike") {
            Fmt { strike: true, ..self }
        } else if str_eq(tag, "sub") {
            Fmt { script: Script::Sub, ..self }
        } else if str_eq(tag, "sup") {
            Fmt { script: Script::Super, ..self }
        } else {
            self
        }
    }
}

/// One inline run of a paragraph: text, or the body of a formula.
pub struct Seg {
    pub formula: bool,
    pub text: Vec<char>,
    pub fmt: Fmt,
    pub link: Option<Vec<char>>,
}

/// View of a [`Seg`].
#[verifier::ext_equal]
pub struct SegV {
    pub formula: bool,
    pub text: Seq<char>,
    pub fmt: Fmt,
    pub link: Option<Seq<char>>,
}

/// The characters of an optional text.
pub open spec fn opt_chars(o: Option<Vec<char>>) -> Option<Seq<char>> {
    match o {
        Some(v) => Some(v@),
        None => None,
    }
}

impl View for Seg {
    type V = SegV;

    open spec fn view(&self) -> SegV {
        SegV {
            formula: self.formula,
            text: self.text@,
            fmt: self.fmt,
            link: opt_chars(self.link),
        }
    }
}

/// The views of a list of runs.
pub open spec fn segs_view(v: Seq<Seg>) -> Seq<SegV> {
    Seq::new(v.len(), |i: int| v[i]@)
}

/// A copy of an optional text.
pub fn copy_opt(o: &Option<Vec<char>>) -> (r: Option<Vec<char>>)
    ensures
        opt_chars(r) == opt_chars(*o),
{
    match o {
        Some(v) => Some(copy(v)),
        None => None,
    }
}

/// Equality of two optional texts.
pub fn same_opt(a: &Option<Vec<char>>, b: &Option<Vec<char>>) -> (r: bool)
    ensures
        r == (opt_chars(*a) == opt_chars(*b)),
{
    match (a, b) {
        (Some(a), Some(b)) => same(a, b),
        (None, None) => true,
        _ => false,
    }
}

// ------------------------------------------------------------ text

/// Tags whose text does not count.
pub open spec fn is_skipped(tag: Seq<char>) -> bool {
    tag == "term"@ || tag == "disp-formula"@ || tag == "inline-formula"@
}

/// The text under the children from `i` on added to `done`: the head of each
/// element, its children's text and the text right behind it, without the
/// text of skipped elements. Line feeds are spaces.
pub open spec fn raw_from(ch: Seq<TreeV>, i: int, done: Seq<char>) -> Seq<char>
    decreases ch, ch.len() - i,
{
    if i < 0 || i >= ch.len() {
        done
    } else {
        raw_from(
            ch,
            i + 1,
            match ch[i] {
                TreeV::Element(e) => (if is_skipped(e.tag) {
                    done
                } else {
                    raw_from(e.children, 0, done + unlined(or_empty(head(e))))
                }) + unlined(or_empty(tail(ch, i))),
                _ => done,
            },
        )
    }
}

/// The text of an element.
pub open spec fn raw(e: ElementV) -> Seq<char> {
    raw_from(e.children, 0, unlined(or_empty(head(e))))
}

/// The text of an element, normalized.
pub open spec fn norm(e: ElementV) -> Seq<char> {
    normalized(raw(e))
}

fn skips(tag: &str) -> (r: bool)
    ensures
        r == is_skipped(tag@),
{
    str_eq(tag, "term") || str_eq(tag, "disp-formula") || str_eq(tag, "inline-formula")
}

/// A text without line feeds, or nothing where there is no text.
fn unline(o: Option<&str>) -> (r: Vec<char>)
    ensures
        r@ == unlined(or_empty(opt_str(o))),
{
    replace_char(&chars_or_empty(o), '\n', ' ')
}

fn raw_text(ch: &Vec<Tree>, out: &mut Vec<char>)
    ensures
        final(out)@ == raw_from(trees_view(ch@), 0, old(out)@),
    decreases ch,
{
    let ghost v = trees_view(ch@);
    let ghost first = out@;
    let mut i: usize = 0;
    while i < ch.len()
        invariant
            i <= ch@.len(),
            v == trees_view(ch@),
            raw_from(v, 0, first) == raw_from(v, i as int, out@),
        decreases ch@.len() - i,
    {
        assert(v[i as int] == tree_view(ch@[i as int]));
        match &ch[i] {
            Tree::Element(e) => {
                if !skips(e.tag.as_str()) {
                    let start = unline(head_of(e));
                    push_all(out, &start);
                    raw_text(&e.children, out);
                }
                let rest = unline(tail_of(ch, i));
                push_all(out, &rest);
            },
            _ => {},
        }
        i += 1;
    }
}

/// The text of an element.
pub fn get_text(e: &Element) -> (r: Vec<char>)
    ensures
        r@ == raw(e@),
{
    let mut out = unline(head_of(e));
    raw_text(&e.children, &mut out);
    out
}

/// The text of an element, normalized.
pub fn norm_text(e: &Element) -> (r: Vec<char>)
    ensures
        r@ == norm(e@),
{
    normalize(&get_text(e))
}

/// The text at the head of an element, without line feeds and trimmed.
pub open spec fn field(e: Option<ElementV>) -> Seq<char> {
    match e {
        Some(e) => strip(unlined(or_empty(head(e)))),
        None => seq![],
    }
}

fn field_of(e: Option<&Element>) -> (r: Vec<char>)
    ensures
        r@ == field(ref_view(e)),
{
    match e {
        Some(e) => trim(&unline(head_of(e))),
        None => {
            let v: Vec<char> = Vec::new();
            assert(v@ =~= seq![]);
            v
        },
    }
}

// ------------------------------------------------------------ generic text

/// Typographic dashes and quotes in ASCII.
pub open spec fn plain_char(c: char) -> char {
    if c == '\u{2014}' || c == '\u{2013}' {
        '-'
    } else if c == '\u{2019}' || c == '\u{2018}' {
        '\''
    } else if c == '\u{201c}' || c == '\u{201d}' {
        '"'
    } else {
        c
    }
}

/// A text with its typographic dashes and quotes in ASCII.
pub open spec fn sanitized(s: Seq<char>) -> Seq<char> {
    Seq::new(s.len(), |i: int| plain_char(s[i]))
}

/// A text with its typographic dashes and quotes in ASCII.
pub fn sanitize_generic(s: &Vec<char>) -> (r: Vec<char>)
    ensures
        r@ == sanitized(s@),
{
    let mut out: Vec<char> = Vec::new();
    let mut i: usize = 0;
    while i < s.len()
        invariant
            i <= s@.len(),
            out@ == sanitized(s@).take(i as int),
        decreases s@.len() - i,
    {
        let c = s[i];
        if c == '\u{2014}' || c == '\u{2013}' {
            out.push('-');
        } else if c == '\u{2019}' || c == '\u{2018}' {
            out.push('\'');
        } else if c == '\u{201c}' || c == '\u{201d}' {
            out.push('"');
        } else {
            out.push(c);
        }
        assert(sanitized(s@).take(i + 1) =~= sanitized(s@).take(i as int).push(plain_char(c)));
        i += 1;
    }
    assert(sanitized(s@).take(i as int) =~= sanitized(s@));
    out
}

/// The text under the children from `i` on added to `done`, with a space on
/// each side of an element's text.
pub open spec fn spaced_from(ch: Seq<TreeV>, i: int, done: Seq<char>) -> Seq<char>
    decreases ch, ch.len() - i,
{
    if i < 0 || i >= ch.len() {
        done
    } else {
        spaced_from(
            ch,
            i + 1,
            match ch[i] {
                TreeV::Element(e) => spaced_from(e.children, 0, done.push(' ')).push(' '),
                TreeV::Text(s) => done + s,
                TreeV::Other(_) => done,
            },
        )
    }
}

fn generic_text(ch: &Vec<Tree>, out: &mut Vec<char>)
    ensures
        final(out)@ == spaced_from(trees_view(ch@), 0, old(out)@),
    decreases ch,
{
    let ghost v = trees_view(ch@);
    let ghost first = out@;
    let mut i: usize = 0;
    while i < ch.len()
        invariant
            i <= ch@.len(),
            v == trees_view(ch@),
            spaced_from(v, 0, first) == spaced_from(v, i as int, out@),
        decreases ch@.len() - i,
    {
        assert(v[i as int] == tree_view(ch@[i as int]));
        match &ch[i] {
            Tree::Element(e) => {
                out.push(' ');
                generic_text(&e.children, out);
                out.push(' ');
            },
            Tree::Text(s) => {
                push_str(out, s.as_str());
            },
            Tree::Other(_) => {},
        }
        i += 1;
    }
}

// ------------------------------------------------------------ metadata

/// The metadata elements whose title groups count.
pub open spec fn is_meta(tag: Seq<char>) -> bool {
    tag == "article-meta"@ || tag == "collection-meta"@ || tag == "book-meta"@ || tag
        == "book-part-meta"@
}

/// The parts of a title group.
pub open spec fn is_title_part(tag: Seq<char>) -> bool {
    tag == "article-title"@ || tag == "subtitle"@ || tag == "title"@ || tag == "label"@
}

/// The title parts of a group's children from `i` on, added to `done`: each
/// is the text before its first child element.
pub open spec fn title_parts(ch: Seq<ElementV>, i: int, done: Seq<Seq<char>>) -> Seq<Seq<char>>
    decreases ch.len() - i,
{
    if i >= ch.len() {
        done
    } else {
        title_parts(
            ch,
            i + 1,
            if is_title_part(ch[i].tag) {
                done.push(field(Some(ch[i])))
            } else {
                done
            },
        )
    }
}

/// The title of a group.
pub open spec fn group_title(e: ElementV) -> Seq<char> {
    strip(joined(title_parts(child_elements_of(e), 0, seq![]), " "@))
}

/// The titles of the groups under the children from `i` on, added to `done`;
/// `meta` tells whether their parent is a metadata element.
pub open spec fn titles_from(
    ch: Seq<TreeV>,
    i: int,
    meta: bool,
    done: Seq<Seq<char>>,
) -> Seq<Seq<char>>
    decreases ch, ch.len() - i,
{
    if i < 0 || i >= ch.len() {
        done
    } else {
        titles_from(
            ch,
            i + 1,
            meta,
            match ch[i] {
                TreeV::Element(e) => titles_from(
                    e.children,
                    0,
                    is_meta(e.tag),
                    if meta && e.tag == "title-group"@ {
                        done.push(group_title(e))
                    } else {
                        done
                    },
                ),
                _ => done,
            },
        )
    }
}

/// The article's title: its title groups, joined by dashes.
pub open spec fn article_title(root: ElementV) -> Seq<char> {
    joined(titles_from(root.children, 0, is_meta(root.tag), seq![]), " - "@)
}

fn in_meta(tag: &str) -> (r: bool)
    ensures
        r == is_meta(tag@),
{
    str_eq(tag, "article-meta") || str_eq(tag, "collection-meta") || str_eq(tag, "book-meta")
        || str_eq(tag, "book-part-meta")
}

fn title_of_group(e: &Element) -> (r: Vec<char>)
    ensures
        r@ == group_title(e@),
{
    let kids = child_elements(e);
    let ghost v = refs_view(kids@);
    let mut parts: Vec<Vec<char>> = Vec::new();
    let mut i: usize = 0;
    assert(texts(parts@) =~= seq![]);
    while i < kids.len()
        invariant
            i <= kids@.len(),
            v == refs_view(kids@),
            title_parts(v, 0, seq![]) == title_parts(v, i as int, texts(parts@)),
        decreases kids@.len() - i,
    {
        broadcast use texts_push;

        assert(v[i as int] == kids@[i as int]@);
        let tag = kids[i].tag.as_str();
        if str_eq(tag, "article-title") || str_eq(tag, "subtitle") || str_eq(tag, "title")
            || str_eq(tag, "label") {
            parts.push(field_of(Some(kids[i])));
        }
        i += 1;
    }
    trim(&join(&parts, " "))
}

fn collect_titles(ch: &Vec<Tree>, meta: bool, out: &mut Vec<Vec<char>>)
    ensures
        texts(final(out)@) == titles_from(trees_view(ch@), 0, meta, texts(old(out)@)),
    decreases ch,
{
    let ghost v = trees_view(ch@);
    let ghost first = texts(out@);
    let mut i: usize = 0;
    while i < ch.len()
        invariant
            i <= ch@.len(),
            v == trees_view(ch@),
            titles_from(v, 0, meta, first) == titles_from(v, i as int, meta, texts(out@)),
        decreases ch@.len() - i,
    {
        broadcast use texts_push;

        assert(v[i as int] == tree_view(ch@[i as int]));
        match &ch[i] {
            Tree::Element(e) => {
                if meta && has_tag(e, "title-group") {
                    out.push(title_of_group(e));
                }
                collect_titles(&e.children, in_meta(e.tag.as_str()), out);
            },
            _ => {},
        }
        i += 1;
    }
}

/// The article's title.
pub fn parse_title(root: &Element) -> (r: Vec<char>)
    ensures
        r@ == article_title(root@),
{
    let mut titles: Vec<Vec<char>> = Vec::new();
    assert(texts(titles@) =~= seq![]);
    collect_titles(&root.children, in_meta(root.tag.as_str()), &mut titles);
    join(&titles, " - ")
}

/// The texts from `i` on, trimmed, without the blank ones, added to `done`.
pub open spec fn solid_from(v: Seq<Seq<char>>, i: int, done: Seq<Seq<char>>) -> Seq<Seq<char>>
    decreases v.len() - i,
{
    if i >= v.len() {
        done
    } else {
        solid_from(
            v,
            i + 1,
            if strip(v[i]).len() > 0 {
                done.push(strip(v[i]))
            } else {
                done
            },
        )
    }
}

/// The texts trimmed, without the blank ones.
pub fn solid(v: &Vec<Vec<char>>) -> (r: Vec<Vec<char>>)
    ensures
        texts(r@) == solid_from(texts(v@), 0, seq![]),
{
    let mut out: Vec<Vec<char>> = Vec::new();
    let mut i: usize = 0;
    assert(texts(out@) =~= seq![]);
    while i < v.len()
        invariant
            i <= v@.len(),
            solid_from(texts(v@), 0, seq![]) == solid_from(texts(v@), i as int, texts(out@)),
        decreases v@.len() - i,
    {
        broadcast use texts_push;

        assert(texts(v@)[i as int] == v@[i as int]@);
        let t = trim(&v[i]);
        if t.len() > 0 {
            out.push(t);
        }
        i += 1;
    }
    out
}

/// The name of an affiliation: its texts joined by commas, without the label
/// at its beginning.
pub open spec fn aff_name(e: ElementV) -> Seq<char> {
    let name = unlined(joined(solid_from(pieces(e), 0, seq![]), ", "@));
    match child_of(e, "label"@) {
        Some(l) => match head(l) {
            Some(label) => if has_prefix(name, label + ", "@) {
                name.skip((label + ", "@).len() as int)
            } else {
                name
            },
            None => name,
        },
        None => name,
    }
}

fn name_of_aff(e: &Element) -> (r: Vec<char>)
    ensures
        r@ == aff_name(e@),
{
    let parts = solid(&pieces_of(e));
    let name = replace_char(&join(&parts, ", "), '\n', ' ');
    match child(e, "label") {
        Some(l) => match head_of(l) {
            Some(label) => {
                let mut prefix = chars_of(label);
                push_str(&mut prefix, ", ");
                if prefix.len() <= name.len() && same(&slice(&name, 0, prefix.len()), &prefix) {
                    assert(name@.subrange(0, prefix@.len() as int) =~= name@.take(
                        prefix@.len() as int,
                    ));
                    let r = slice(&name, prefix.len(), name.len());
                    assert(r@ =~= name@.skip(prefix@.len() as int));
                    return r;
                }
                assert(prefix@.len() <= name@.len() ==> name@.subrange(0, prefix@.len() as int)
                    =~= name@.take(prefix@.len() as int));
                name
            },
            None => name,
        },
        None => name,
    }
}

/// The affiliations among the elements from `i` on by their ids, added to
/// `done`.
pub open spec fn affs_from(
    v: Seq<ElementV>,
    i: int,
    done: Seq<(Seq<char>, Seq<char>)>,
) -> Seq<(Seq<char>, Seq<char>)>
    decreases v.len() - i,
{
    if i >= v.len() {
        done
    } else {
        affs_from(
            v,
            i + 1,
            if v[i].tag == "aff"@ {
                match attr_of(v[i], "id"@) {
                    Some(id) => done.push((id, aff_name(v[i]))),
                    None => done,
                }
            } else {
                done
            },
        )
    }
}

/// The name of the last affiliation with an id, among the first `n`.
pub open spec fn aff_by_id(
    affs: Seq<(Seq<char>, Seq<char>)>,
    id: Seq<char>,
    n: int,
) -> Option<Seq<char>>
    decreases n,
{
    if n <= 0 {
        None
    } else if affs[n - 1].0 == id {
        Some(affs[n - 1].1)
    } else {
        aff_by_id(affs, id, n - 1)
    }
}

/// The parts of a structured name.
pub open spec fn name_parts(name: ElementV) -> Seq<Seq<char>> {
    solid_from(
        seq![
            or_empty(head_opt(child_of(name, "prefix"@))),
            or_empty(head_opt(child_of(name, "given-names"@))),
            or_empty(head_opt(child_of(name, "surname"@))),
            or_empty(head_opt(child_of(name, "suffix"@))),
        ],
        0,
        seq![],
    )
}

/// The text at the head of an optional element.
pub open spec fn head_opt(e: Option<ElementV>) -> Option<Seq<char>> {
    match e {
        Some(e) => head(e),
        None => None,
    }
}

fn head_of_opt<'a>(e: Option<&'a Element>) -> (r: Option<&'a str>)
    ensures
        opt_str(r) == head_opt(ref_view(e)),
{
    match e {
        Some(e) => head_of(e),
        None => None,
    }
}

/// A contributor's name.
pub open spec fn contributor(e: ElementV) -> Seq<char> {
    match child_of(e, "name"@) {
        Some(name) => joined(name_parts(name), " "@),
        None => seq![],
    }
}

/// A contributor's name.
pub fn contrib_name(e: &Element) -> (r: Vec<char>)
    ensures
        r@ == contributor(e@),
{
    match child(e, "name") {
        Some(name) => {
            let mut parts: Vec<Vec<char>> = Vec::new();
            parts.push(chars_or_empty(head_of_opt(child(name, "prefix"))));
            parts.push(chars_or_empty(head_of_opt(child(name, "given-names"))));
            parts.push(chars_or_empty(head_of_opt(child(name, "surname"))));
            parts.push(chars_or_empty(head_of_opt(child(name, "suffix"))));
            assert(texts(parts@) =~= seq![
                or_empty(head_opt(child_of(name@, "prefix"@))),
                or_empty(head_opt(child_of(name@, "given-names"@))),
                or_empty(head_opt(child_of(name@, "surname"@))),
                or_empty(head_opt(child_of(name@, "suffix"@))),
            ]);
            join(&solid(&parts), " ")
        },
        None => {
            let v: Vec<char> = Vec::new();
            assert(v@ =~= seq![]);
            v
        },
    }
}

/// The affiliations that the cross references from `i` on name, added to
/// `done` unless they are there.
pub open spec fn refs_from(
    xrefs: Seq<ElementV>,
    affs: Seq<(Seq<char>, Seq<char>)>,
    i: int,
    done: Seq<Seq<char>>,
) -> Seq<Seq<char>>
    decreases xrefs.len() - i,
{
    if i >= xrefs.len() {
        done
    } else {
        refs_from(
            xrefs,
            affs,
            i + 1,
            if attr_of(xrefs[i], "ref-type"@) == Some("aff"@) {
                match attr_of(xrefs[i], "rid"@) {
                    Some(id) => match aff_by_id(affs, id, affs.len() as int) {
                        Some(name) => if done.contains(name) {
                            done
                        } else {
                            done.push(name)
                        },
                        None => done,
                    },
                    None => done,
                }
            } else {
                done
            },
        )
    }
}

/// Authors and affiliations.
#[verifier::ext_equal]
pub struct CreditsV {
    pub authors: Seq<Seq<char>>,
    pub affiliations: Seq<Seq<char>>,
}

/// The authors among the elements from `i` on, with their affiliations, added
/// to `done`.
pub open spec fn credits_from(
    v: Seq<ElementV>,
    affs: Seq<(Seq<char>, Seq<char>)>,
    i: int,
    done: CreditsV,
) -> CreditsV
    decreases v.len() - i,
{
    if i >= v.len() {
        done
    } else {
        credits_from(
            v,
            affs,
            i + 1,
            if v[i].tag == "contrib"@ && attr_of(v[i], "contrib-type"@) == Some("author"@)
                && contributor(v[i]).len() > 0 {
                CreditsV {
                    authors: done.authors.push(contributor(v[i])),
                    affiliations: refs_from(
                        kids_of(v[i], "xref"@),
                        affs,
                        0,
                        done.affiliations,
                    ),
                }
            } else {
                done
            },
        )
    }
}

/// The article's authors and their affiliations, each once.
pub open spec fn credits(root: ElementV) -> CreditsV {
    match first_tagged(self_and_under(root), "article-meta"@) {
        None => CreditsV { authors: seq![], affiliations: seq![] },
        Some(meta) => {
            let v = self_and_under(meta);
            credits_from(
                v,
                affs_from(v, 0, seq![]),
                0,
                CreditsV { authors: seq![], affiliations: seq![] },
            )
        },
    }
}

/// An affiliation's id and name.
pub struct Aff {
    pub id: Vec<char>,
    pub name: Vec<char>,
}

spec fn affs_view(v: Seq<Aff>) -> Seq<(Seq<char>, Seq<char>)> {
    Seq::new(v.len(), |i: int| (v[i].id@, v[i].name@))
}

fn attr_is(e: &Element, name: &str, value: &str) -> (r: bool)
    ensures
        r == (attr_of(e@, name@) == Some(value@)),
{
    match attr(e, name) {
        Some(v) => str_eq(v, value),
        None => false,
    }
}

fn collect_affs(v: &Vec<&Element>) -> (r: Vec<Aff>)
    ensures
        affs_view(r@) == affs_from(refs_view(v@), 0, seq![]),
{
    let ghost w = refs_view(v@);
    let mut out: Vec<Aff> = Vec::new();
    let mut i: usize = 0;
    assert(affs_view(out@) =~= seq![]);
    while i < v.len()
        invariant
            i <= v@.len(),
            w == refs_view(v@),
            affs_from(w, 0, seq![]) == affs_from(w, i as int, affs_view(out@)),
        decreases v@.len() - i,
    {
        assert(w[i as int] == v@[i as int]@);
        if has_tag(v[i], "aff") {
            match attr(v[i], "id") {
                Some(id) => {
                    let ghost before = out@;
                    let aff = Aff { id: chars_of(id), name: name_of_aff(v[i]) };
                    out.push(aff);
                    assert(affs_view(out@) =~= affs_view(before).push((aff.id@, aff.name@)));
                },
                None => {},
            }
        }
        i += 1;
    }
    out
}

fn find_aff<'a>(affs: &'a Vec<Aff>, id: &str) -> (r: Option<&'a Vec<char>>)
    ensures
        match aff_by_id(affs_view(affs@), id@, affs@.len() as int) {
            Some(name) => r matches Some(x) && x@ == name,
            None => r is None,
        },
{
    let key = chars_of(id);
    let mut n: usize = affs.len();
    while n > 0
        invariant
            n <= affs@.len(),
            key@ == id@,
            aff_by_id(affs_view(affs@), id@, affs@.len() as int) == aff_by_id(
                affs_view(affs@),
                id@,
                n as int,
            ),
        decreases n,
    {
        assert(affs_view(affs@)[n - 1] == (affs@[n - 1].id@, affs@[n - 1].name@));
        if same(&affs[n - 1].id, &key) {
            return Some(&affs[n - 1].name);
        }
        n -= 1;
    }
    None
}

/// Whether a text is in a list.
pub fn contains_text(v: &Vec<Vec<char>>, t: &Vec<char>) -> (r: bool)
    ensures
        r == texts(v@).contains(t@),
{
    let mut i: usize = 0;
    while i < v.len()
        invariant
            i <= v@.len(),
            forall|k: int| 0 <= k < i ==> texts(v@)[k] != t@,
        decreases v@.len() - i,
    {
        if same(&v[i], t) {
            assert(texts(v@)[i as int] == t@);
            return true;
        }
        i += 1;
    }
    false
}

/// The article's authors and their affiliations.
pub fn parse_authors(root: &Element) -> (r: (Vec<Vec<char>>, Vec<Vec<char>>))
    ensures
        texts(r.0@) == credits(root@).authors,
        texts(r.1@) == credits(root@).affiliations,
{
    let mut authors: Vec<Vec<char>> = Vec::new();
    let mut affiliations: Vec<Vec<char>> = Vec::new();
    assert(texts(authors@) =~= seq![]);
    assert(texts(affiliations@) =~= seq![]);
    let all = self_and_descendants(root);
    let meta = match find_tagged(&all, "article-meta") {
        Some(meta) => meta,
        None => {
            return (authors, affiliations);
        },
    };
    let v = self_and_descendants(meta);
    let affs = collect_affs(&v);
    let ghost w = refs_view(v@);
    let ghost a = affs_view(affs@);
    let ghost want = credits(root@);
    let mut i: usize = 0;
    while i < v.len()
        invariant
            i <= v@.len(),
            w == refs_view(v@),
            a == affs_view(affs@),
            want == credits_from(
                w,
                a,
                i as int,
                (CreditsV { authors: texts(authors@), affiliations: texts(affiliations@) }),
            ),
        decreases v@.len() - i,
    {
        assert(w[i as int] == v@[i as int]@);
        if has_tag(v[i], "contrib") && attr_is(v[i], "contrib-type", "author") {
            let name = contrib_name(v[i]);
            if name.len() > 0 {
                let xrefs = kids(v[i], "xref");
                let ghost x = refs_view(xrefs@);
                let ghost before = texts(affiliations@);
                let mut k: usize = 0;
                while k < xrefs.len()
                    invariant
                        k <= xrefs@.len(),
                        x == refs_view(xrefs@),
                        a == affs_view(affs@),
                        refs_from(x, a, 0, before) == refs_from(
                            x,
                            a,
                            k as int,
                            texts(affiliations@),
                        ),
                    decreases xrefs@.len() - k,
                {
                    broadcast use texts_push;

                    assert(x[k as int] == xrefs@[k as int]@);
                    if attr_is(xrefs[k], "ref-type", "aff") {
                        match attr(xrefs[k], "rid") {
                            Some(id) => match find_aff(&affs, id) {
                                Some(name) => {
                                    if !contains_text(&affiliations, name) {
                                        affiliations.push(copy(name));
                                    }
                                },
                                None => {},
                            },
                            None => {},
                        }
                    }
                    k += 1;
                }
                proof {
                    texts_push(authors@, name);
                }
                authors.push(name);
            }
        }
        i += 1;
    }
    (authors, affiliations)
}

/// The normalized texts of some elements from `i` on, without the empty
/// ones, added to `done`.
pub open spec fn norms_from(v: Seq<ElementV>, i: int, done: Seq<Seq<char>>) -> Seq<Seq<char>>
    decreases v.len() - i,
{
    if i >= v.len() {
        done
    } else {
        norms_from(
            v,
            i + 1,
            if norm(v[i]).len() > 0 {
                done.push(norm(v[i]))
            } else {
                done
            },
        )
    }
}

fn norms(v: &Vec<&Element>) -> (r: Vec<Vec<char>>)
    ensures
        texts(r@) == norms_from(refs_view(v@), 0, seq![]),
{
    let ghost w = refs_view(v@);
    let mut out: Vec<Vec<char>> = Vec::new();
    let mut i: usize = 0;
    assert(texts(out@) =~= seq![]);
    while i < v.len()
        invariant
            i <= v@.len(),
            w == refs_view(v@),
            norms_from(w, 0, seq![]) == norms_from(w, i as int, texts(out@)),
        decreases v@.len() - i,
    {
        broadcast use texts_push;

        assert(w[i as int] == v@[i as int]@);
        let t = norm_text(v[i]);
        if t.len() > 0 {
            out.push(t);
        }
        i += 1;
    }
    out
}

/// The title or label of an element, whichever child comes first.
pub open spec fn caption_of(e: ElementV) -> Seq<char> {
    match either_of(e, "title"@, "label"@) {
        Some(c) => norm(c),
        None => seq![],
    }
}

/// The title or label of an element.
pub fn title_or_label(e: &Element) -> (r: Vec<char>)
    ensures
        r@ == caption_of(e@),
{
    match either(e, "title", "label") {
        Some(c) => norm_text(c),
        None => {
            let v: Vec<char> = Vec::new();
            assert(v@ =~= seq![]);
            v
        },
    }
}

/// The nodes of texts as escaped paragraphs from `i` on, added to `done`.
pub open spec fn paragraphs_from(v: Seq<Seq<char>>, i: int, done: Seq<NodeV>) -> Seq<NodeV>
    decreases v.len() - i,
{
    if i >= v.len() {
        done
    } else {
        paragraphs_from(v, i + 1, done.push(NodeV::Paragraph { text: escaped(v[i]) }))
    }
}

fn push_paragraphs(v: &Vec<Vec<char>>, nodes: &mut Vec<Node>)
    ensures
        nodes_view(final(nodes)@) == paragraphs_from(texts(v@), 0, nodes_view(old(nodes)@)),
{
    let ghost first = nodes_view(nodes@);
    let mut i: usize = 0;
    while i < v.len()
        invariant
            i <= v@.len(),
            paragraphs_from(texts(v@), 0, first) == paragraphs_from(
                texts(v@),
                i as int,
                nodes_view(nodes@),
            ),
        decreases v@.len() - i,
    {
        assert(texts(v@)[i as int] == v@[i as int]@);
        push_node(nodes, paragraph(&escape_text(&v[i])));
        i += 1;
    }
}

/// The nodes of the sections of an abstract from `i` on, added to `done`: a
/// heading where the section has a title, and its paragraphs. Sections
/// without paragraphs drop.
pub open spec fn sections_from(secs: Seq<ElementV>, i: int, done: Seq<NodeV>) -> Seq<NodeV>
    decreases secs.len() - i,
{
    if i >= secs.len() {
        done
    } else {
        let paragraphs = norms_from(kids_of(secs[i], "p"@), 0, seq![]);
        let title = caption_of(secs[i]);
        sections_from(
            secs,
            i + 1,
            if paragraphs.len() == 0 {
                done
            } else {
                paragraphs_from(
                    paragraphs,
                    0,
                    if title.len() == 0 {
                        done
                    } else {
                        done.push(NodeV::Heading { level: 3, text: escaped(title) })
                    },
                )
            },
        )
    }
}

/// Whether a section from `i` on has paragraphs.
pub open spec fn sectioned(secs: Seq<ElementV>, i: int) -> bool
    decreases secs.len() - i,
{
    i < secs.len() && (norms_from(kids_of(secs[i], "p"@), 0, seq![]).len() > 0 || sectioned(
        secs,
        i + 1,
    ))
}

/// The nodes of an abstract, added to `done`: a heading, and either its
/// sections or its paragraphs as one text. One with neither drops.
pub open spec fn abstract_nodes(e: ElementV, done: Seq<NodeV>) -> Seq<NodeV> {
    let plain = normalized(joined(norms_from(kids_of(e, "p"@), 0, seq![]), " "@));
    let secs = kids_of(e, "sec"@);
    let label = caption_of(e);
    let with_heading = done.push(
        NodeV::Heading {
            level: 2,
            text: escaped(
                if label.len() == 0 {
                    "Abstract"@
                } else {
                    label
                },
            ),
        },
    );
    if sectioned(secs, 0) {
        sections_from(secs, 0, with_heading)
    } else if plain.len() == 0 {
        done
    } else {
        with_heading.push(NodeV::Paragraph { text: escaped(plain) })
    }
}

/// The nodes of the abstracts among the elements from `i` on, added to
/// `done`.
pub open spec fn abstracts_from(v: Seq<ElementV>, i: int, done: Seq<NodeV>) -> Seq<NodeV>
    decreases v.len() - i,
{
    if i >= v.len() {
        done
    } else {
        abstracts_from(
            v,
            i + 1,
            if v[i].tag == "abstract"@ {
                abstract_nodes(v[i], done)
            } else {
                done
            },
        )
    }
}

fn has_sections(secs: &Vec<&Element>) -> (r: bool)
    ensures
        r == sectioned(refs_view(secs@), 0),
{
    let ghost w = refs_view(secs@);
    let mut i: usize = 0;
    while i < secs.len()
        invariant
            i <= secs@.len(),
            w == refs_view(secs@),
            sectioned(w, 0) == sectioned(w, i as int),
        decreases secs@.len() - i,
    {
        assert(w[i as int] == secs@[i as int]@);
        let paragraphs = norms(&kids(secs[i], "p"));
        if paragraphs.len() > 0 {
            return true;
        }
        i += 1;
    }
    false
}

fn abstract_section(section: &Element, nodes: &mut Vec<Node>)
    ensures
        nodes_view(final(nodes)@) == ({
            let paragraphs = norms_from(kids_of(section@, "p"@), 0, seq![]);
            let title = caption_of(section@);
            let done = nodes_view(old(nodes)@);
            if paragraphs.len() == 0 {
                done
            } else {
                paragraphs_from(
                    paragraphs,
                    0,
                    if title.len() == 0 {
                        done
                    } else {
                        done.push(NodeV::Heading { level: 3, text: escaped(title) })
                    },
                )
            }
        }),
{
    let paragraphs = norms(&kids(section, "p"));
    if paragraphs.len() > 0 {
        let title = title_or_label(section);
        if title.len() > 0 {
            push_node(nodes, heading(3, &escape_text(&title)));
        }
        push_paragraphs(&paragraphs, nodes);
    }
}

fn parse_abstract(e: &Element, nodes: &mut Vec<Node>)
    ensures
        nodes_view(final(nodes)@) == abstract_nodes(e@, nodes_view(old(nodes)@)),
{
    let plain = normalize(&join(&norms(&kids(e, "p")), " "));
    let secs = kids(e, "sec");
    let ghost w = refs_view(secs@);
    let with_sections = has_sections(&secs);
    if !with_sections && plain.len() == 0 {
        return;
    }
    let mut label = title_or_label(e);
    if label.len() == 0 {
        label = chars_of("Abstract");
    }
    push_node(nodes, heading(2, &escape_text(&label)));
    if with_sections {
        let ghost first = nodes_view(nodes@);
        let mut i: usize = 0;
        while i < secs.len()
            invariant
                i <= secs@.len(),
                w == refs_view(secs@),
                sections_from(w, 0, first) == sections_from(w, i as int, nodes_view(nodes@)),
            decreases secs@.len() - i,
        {
            assert(w[i as int] == secs@[i as int]@);
            abstract_section(secs[i], nodes);
            i += 1;
        }
    } else {
        push_node(nodes, paragraph(&escape_text(&plain)));
    }
}

/// The nodes of the article's abstracts.
pub fn parse_abstracts(root: &Element, nodes: &mut Vec<Node>)
    ensures
        nodes_view(final(nodes)@) == abstracts_from(
            self_and_under(root@),
            0,
            nodes_view(old(nodes)@),
        ),
{
    let v = self_and_descendants(root);
    let ghost w = refs_view(v@);
    let ghost first = nodes_view(nodes@);
    let mut i: usize = 0;
    while i < v.len()
        invariant
            i <= v@.len(),
            w == refs_view(v@),
            abstracts_from(w, 0, first) == abstracts_from(w, i as int, nodes_view(nodes@)),
        decreases v@.len() - i,
    {
        assert(w[i as int] == v@[i as int]@);
        if has_tag(v[i], "abstract") {
            parse_abstract(v[i], nodes);
        }
        i += 1;
    }
}

// ------------------------------------------------------------ figure files

/// ASCII letters.
pub open spec fn is_letter(c: char) -> bool {
    ('a' <= c && c <= 'z') || ('A' <= c && c <= 'Z')
}

/// The characters of a scheme.
pub open spec fn is_scheme_char(c: char) -> bool {
    is_letter(c) || ('0' <= c && c <= '9') || c == '+' || c == '-' || c == '.'
}

/// Whether `s` is a scheme: a letter, then letters, digits and `+-.`.
pub open spec fn is_scheme(s: Seq<char>) -> bool {
    s.len() > 0 && is_letter(s[0]) && forall|i: int|
        0 <= i < s.len() ==> is_scheme_char(#[trigger] s[i])
}

/// Whether `s` is a scheme.
pub fn scheme(s: &Vec<char>) -> (r: bool)
    ensures
        r == is_scheme(s@),
{
    if s.len() == 0 {
        return false;
    }
    let c = s[0];
    if !(('a' <= c && c <= 'z') || ('A' <= c && c <= 'Z')) {
        return false;
    }
    let mut i: usize = 0;
    while i < s.len()
        invariant
            i <= s@.len(),
            forall|k: int| 0 <= k < i ==> is_scheme_char(#[trigger] s@[k]),
        decreases s@.len() - i,
    {
        let c = s[i];
        if !(('a' <= c && c <= 'z') || ('A' <= c && c <= 'Z') || ('0' <= c && c <= '9') || c == '+'
            || c == '-' || c == '.') {
            assert(!is_scheme_char(s@[i as int]));
            return false;
        }
        i += 1;
    }
    true
}

/// Whether a reference names a local file: no host, and either no scheme or
/// a one-letter one (a drive).
pub open spec fn is_local(value: Seq<char>) -> bool {
    let k = index_from(value, ':', 0);
    if k >= value.len() || !is_scheme(value.take(k)) {
        !has_prefix(value, "//"@)
    } else {
        !has_prefix(value.skip(k + 1), "//"@) && k == 1
    }
}

/// Whether a reference names a local file.
pub fn is_local_path(value: &Vec<char>) -> (r: bool)
    ensures
        r == is_local(value@),
{
    let k: usize = find_from(value, ':', 0);
    if k < value.len() {
        let front = slice(value, 0, k);
        assert(front@ =~= value@.take(k as int));
        if scheme(&front) {
            let rest = slice(value, k + 1, value.len());
            assert(rest@ =~= value@.skip(k + 1));
            return !starts_with(&rest, "//") && k == 1;
        }
    }
    !starts_with(value, "//")
}

/// Whether a path is rooted, or begins with a drive.
pub open spec fn is_absolute(value: Seq<char>) -> bool {
    ||| value.len() > 0 && value[0] == '/'
    ||| value.len() >= 2 && value[1] == ':' && is_letter(value[0]) && !has_prefix(
        value.skip(2),
        "//"@,
    )
}

/// Whether a path is rooted, or begins with a drive.
pub fn is_absolute_path(value: &Vec<char>) -> (r: bool)
    ensures
        r == is_absolute(value@),
{
    if value.len() > 0 && value[0] == '/' {
        return true;
    }
    if value.len() >= 2 && value[1] == ':' {
        let c = value[0];
        let rest = slice(value, 2, value.len());
        assert(rest@ =~= value@.skip(2));
        return (('a' <= c && c <= 'z') || ('A' <= c && c <= 'Z')) && !starts_with(&rest, "//");
    }
    false
}

/// The steps of a path from `i` on taken from the directory `done`; `None`
/// when a step climbs out of the first directory.
pub open spec fn climb(parts: Seq<Seq<char>>, i: int, done: Seq<Seq<char>>) -> Option<
    Seq<Seq<char>>,
>
    decreases parts.len() - i,
{
    if i >= parts.len() {
        Some(done)
    } else if parts[i].len() == 0 || parts[i] == "."@ {
        climb(parts, i + 1, done)
    } else if parts[i] == ".."@ {
        if done.len() == 0 {
            None
        } else {
            climb(parts, i + 1, done.drop_last())
        }
    } else {
        climb(parts, i + 1, done.push(parts[i]))
    }
}

/// Where a relative path leads below its directory; `None` when it is rooted
/// or climbs out.
pub open spec fn confined(rel: Seq<char>) -> Option<Seq<Seq<char>>> {
    if rel.len() > 0 && rel[0] == '/' {
        None
    } else {
        climb(splits(rel, '/'), 0, seq![])
    }
}

/// The view of an optional list of texts.
pub open spec fn opt_texts(o: Option<Vec<Vec<char>>>) -> Option<Seq<Seq<char>>> {
    match o {
        Some(v) => Some(texts(v@)),
        None => None,
    }
}

/// Where a relative path leads below its directory.
pub fn confine(rel: &Vec<char>) -> (r: Option<Vec<Vec<char>>>)
    ensures
        opt_texts(r) == confined(rel@),
{
    if rel.len() > 0 && rel[0] == '/' {
        return None;
    }
    let parts = split(rel, '/');
    let ghost v = texts(parts@);
    let mut out: Vec<Vec<char>> = Vec::new();
    let mut i: usize = 0;
    assert(texts(out@) =~= seq![]);
    while i < parts.len()
        invariant
            i <= parts@.len(),
            v == texts(parts@),
            confined(rel@) == climb(v, i as int, texts(out@)),
        decreases parts@.len() - i,
    {
        broadcast use texts_push;

        assert(v[i as int] == parts@[i as int]@);
        if parts[i].len() == 0 || is(&parts[i], ".") {
        } else if is(&parts[i], "..") {
            if out.len() == 0 {
                return None;
            }
            let ghost before = out@;
            let _ = out.pop();
            assert(texts(out@) =~= texts(before).drop_last());
        } else {
            out.push(copy(&parts[i]));
        }
        i += 1;
    }
    Some(out)
}

/// `base` with the steps from `i` on behind it.
pub open spec fn below(base: Seq<char>, steps: Seq<Seq<char>>, i: int) -> Seq<char>
    decreases steps.len() - i,
{
    if i >= steps.len() {
        base
    } else {
        below(
            (if base.len() == 0 || base.last() == '/' {
                base
            } else {
                base.push('/')
            }) + steps[i],
            steps,
            i + 1,
        )
    }
}

/// `base` with a relative path behind it, when the path stays below `base`.
pub fn confined_path(base: &Vec<char>, rel: &Vec<char>) -> (r: Option<Vec<char>>)
    ensures
        opt_chars(r) == match confined(rel@) {
            Some(steps) => Some(below(base@, steps, 0)),
            None => None,
        },
{
    let steps = match confine(rel) {
        Some(steps) => steps,
        None => {
            return None;
        },
    };
    let ghost v = texts(steps@);
    let mut out = copy(base);
    let mut i: usize = 0;
    while i < steps.len()
        invariant
            i <= steps@.len(),
            v == texts(steps@),
            below(base@, v, 0) == below(out@, v, i as int),
        decreases steps@.len() - i,
    {
        assert(v[i as int] == steps@[i as int]@);
        if out.len() > 0 && out[out.len() - 1] != '/' {
            out.push('/');
        }
        push_all(&mut out, &steps[i]);
        i += 1;
    }
    Some(out)
}

/// A step of a path is a name: no separator, and neither `.` nor `..`.
pub open spec fn is_name(s: Seq<char>) -> bool {
    s.len() > 0 && !s.contains('/') && s != "."@ && s != ".."@
}

proof fn climb_gives_names(parts: Seq<Seq<char>>, i: int, done: Seq<Seq<char>>)
    requires
        0 <= i,
        forall|k: int| 0 <= k < parts.len() ==> !(#[trigger] parts[k]).contains('/'),
        forall|k: int| 0 <= k < done.len() ==> is_name(#[trigger] done[k]),
    ensures
        climb(parts, i, done) matches Some(r) ==> forall|k: int|
            0 <= k < r.len() ==> is_name(#[trigger] r[k]),
    decreases parts.len() - i,
{
    if i >= parts.len() {
    } else if parts[i].len() == 0 || parts[i] == "."@ {
        climb_gives_names(parts, i + 1, done);
    } else if parts[i] == ".."@ {
        if done.len() > 0 {
            climb_gives_names(parts, i + 1, done.drop_last());
        }
    } else {
        climb_gives_names(parts, i + 1, done.push(parts[i]));
    }
}

proof fn split_parts_lack_the_separator(
    s: Seq<char>,
    c: char,
    from: int,
    done: Seq<Seq<char>>,
)
    requires
        0 <= from <= s.len(),
        forall|k: int| 0 <= k < done.len() ==> !(#[trigger] done[k]).contains(c),
    ensures
        forall|k: int|
            0 <= k < split_from(s, c, from, done).len() ==> !(#[trigger] split_from(
                s,
                c,
                from,
                done,
            )[k]).contains(c),
    decreases s.len() - from,
{
    let k = index_from(s, c, from);
    crate::text::index_from_is_first(s, c, from);
    if k >= s.len() {
        assert(!s.skip(from).contains(c)) by {
            if s.skip(from).contains(c) {
                let j = choose|j: int| 0 <= j < s.skip(from).len() && s.skip(from)[j] == c;
                assert(s[from + j] == c);
            }
        }
        assert(split_from(s, c, from, done) == done.push(s.skip(from)));
    } else {
        let part = s.subrange(from, k);
        assert(!part.contains(c)) by {
            if part.contains(c) {
                let j = choose|j: int| 0 <= j < part.len() && part[j] == c;
                assert(s[from + j] == c);
            }
        }
        split_parts_lack_the_separator(s, c, k + 1, done.push(part));
        assert(split_from(s, c, from, done) == split_from(s, c, k + 1, done.push(part)));
    }
}

/// A confined path never leaves its directory: all its steps go down.
pub proof fn confined_paths_only_go_down(rel: Seq<char>)
    ensures
        confined(rel) matches Some(steps) ==> forall|k: int|
            0 <= k < steps.len() ==> is_name(#[trigger] steps[k]),
{
    if !(rel.len() > 0 && rel[0] == '/') {
        let parts = splits(rel, '/');
        split_parts_lack_the_separator(rel, '/', 0, seq![]);
        assert forall|k: int| 0 <= k < parts.len() implies !(#[trigger] parts[k]).contains('/') by {
            assert(!split_from(rel, '/', 0, seq![])[k].contains('/'));
        }
        climb_gives_names(parts, 0, seq![]);
    }
}

/// The last step of a path from the end, without empty and `.` steps.
pub open spec fn last_step(parts: Seq<Seq<char>>, n: int) -> Option<Seq<char>>
    decreases n,
{
    if n <= 0 {
        None
    } else if parts[n - 1].len() == 0 || parts[n - 1] == "."@ {
        last_step(parts, n - 1)
    } else {
        Some(parts[n - 1])
    }
}

/// The index of the last `c` among the first `n` characters, or -1.
pub open spec fn last_index(s: Seq<char>, c: char, n: int) -> int
    decreases n,
{
    if n <= 0 {
        -1
    } else if s[n - 1] == c {
        n - 1
    } else {
        last_index(s, c, n - 1)
    }
}

/// The extension of a path's file name, in lower case: what stands behind
/// its last dot, if something stands before it.
pub open spec fn extension(path: Seq<char>) -> Option<Seq<char>> {
    let parts = splits(path, '/');
    match last_step(parts, parts.len() as int) {
        None => None,
        Some(name) => {
            let k = last_index(name, '.', name.len() as int);
            if name == ".."@ || k <= 0 {
                None
            } else {
                Some(lowered(name.skip(k + 1)))
            }
        },
    }
}

/// The extension of a path's file name, in lower case.
pub fn extension_of(path: &Vec<char>) -> (r: Option<Vec<char>>)
    ensures
        opt_chars(r) == extension(path@),
{
    let parts = split(path, '/');
    let ghost v = texts(parts@);
    let mut n: usize = parts.len();
    while n > 0 && (parts[n - 1].len() == 0 || is(&parts[n - 1], "."))
        invariant
            n <= parts@.len(),
            v == texts(parts@),
            last_step(v, v.len() as int) == last_step(v, n as int),
        decreases n,
    {
        assert(v[n - 1] == parts@[n - 1]@);
        n -= 1;
    }
    if n == 0 {
        return None;
    }
    assert(v[n - 1] == parts@[n - 1]@);
    let name = &parts[n - 1];
    if is(name, "..") {
        return None;
    }
    let mut k: usize = name.len();
    while k > 0 && name[k - 1] != '.'
        invariant
            k <= name@.len(),
            last_index(name@, '.', name@.len() as int) == last_index(name@, '.', k as int),
        decreases k,
    {
        k -= 1;
    }
    if k <= 1 {
        return None;
    }
    let ext = slice(name, k, name.len());
    assert(ext@ =~= name@.skip(k as int));
    Some(to_lower(&ext))
}

/// The names to try for an image reference: itself, and behind a name
/// without extension the raster suffixes.
pub open spec fn candidates(href: Seq<char>) -> Seq<Seq<char>> {
    if extension(href) is Some {
        seq![href]
    } else {
        seq![
            href,
            href + ".jpg"@,
            href + ".jpeg"@,
            href + ".png"@,
            href + ".tif"@,
            href + ".tiff"@,
            href + ".gif"@,
        ]
    }
}

/// The names from `k` on that stay below the directory, added to `done`; one
/// that climbs out ends the search, which the flag tells.
pub open spec fn tries_from(names: Seq<Seq<char>>, k: int, done: Seq<Seq<char>>) -> (
    Seq<Seq<char>>,
    bool,
)
    decreases names.len() - k,
{
    if k >= names.len() {
        (done, false)
    } else {
        match confined(names[k]) {
            None => (done, true),
            Some(steps) => tries_from(names, k + 1, done.push(joined(steps, "/"@))),
        }
    }
}

/// Whether an image reference is worth trying: a local, relative file that
/// is no vector graphic.
pub open spec fn is_tried(href: Seq<char>) -> bool {
    href.len() > 0 && is_local(href) && !is_absolute(href) && extension(href) != Some("svg"@)
}

/// The reference of a graphic.
pub open spec fn graphic_href(e: ElementV) -> Seq<char> {
    strip(or_empty(attr_of(e, "href"@)))
}

/// The files to try for the graphics from `i` on, added to `done`.
pub open spec fn probes_from(v: Seq<ElementV>, i: int, done: Seq<Seq<char>>) -> Seq<Seq<char>>
    decreases v.len() - i,
{
    if i >= v.len() {
        done
    } else if !is_tried(graphic_href(v[i])) {
        probes_from(v, i + 1, done)
    } else {
        let r = tries_from(candidates(graphic_href(v[i])), 0, done);
        if r.1 {
            r.0
        } else {
            probes_from(v, i + 1, r.0)
        }
    }
}

/// The graphics of a figure's children from `i` on, direct or as
/// alternatives, added to `done`.
pub open spec fn graphics_from(v: Seq<ElementV>, i: int, done: Seq<ElementV>) -> Seq<ElementV>
    decreases v.len() - i,
{
    if i >= v.len() {
        done
    } else {
        graphics_from(
            v,
            i + 1,
            if v[i].tag == "graphic"@ {
                done.push(v[i])
            } else if v[i].tag == "alternatives"@ {
                done + kids_of(v[i], "graphic"@)
            } else {
                done
            },
        )
    }
}

/// The files to try for a figure's image, in order.
pub open spec fn figure_probes(fig: ElementV) -> Seq<Seq<char>> {
    probes_from(graphics_from(child_elements_of(fig), 0, seq![]), 0, seq![])
}

fn push_candidate(names: &mut Vec<Vec<char>>, href: &Vec<char>, suffix: &str)
    ensures
        texts(final(names)@) == texts(old(names)@).push(href@ + suffix@),
{
    broadcast use texts_push;

    let mut name = copy(href);
    push_str(&mut name, suffix);
    names.push(name);
}

/// The files to try for a figure's image, in order: the first readable one
/// is the image.
pub fn load_figure_image(fig: &Element) -> (r: Vec<Vec<char>>)
    ensures
        texts(r@) == figure_probes(fig@),
{
    let kids0 = child_elements(fig);
    let ghost w = refs_view(kids0@);
    let mut graphics: Vec<&Element> = Vec::new();
    let mut i: usize = 0;
    assert(refs_view(graphics@) =~= seq![]);
    while i < kids0.len()
        invariant
            i <= kids0@.len(),
            w == refs_view(kids0@),
            graphics_from(w, 0, seq![]) == graphics_from(w, i as int, refs_view(graphics@)),
        decreases kids0@.len() - i,
    {
        broadcast use refs_view_push;

        assert(w[i as int] == kids0@[i as int]@);
        if has_tag(kids0[i], "graphic") {
            graphics.push(kids0[i]);
        } else if has_tag(kids0[i], "alternatives") {
            let mut more = kids(kids0[i], "graphic");
            proof {
                assert(refs_view(graphics@ + more@) =~= refs_view(graphics@) + refs_view(more@));
            }
            graphics.append(&mut more);
        }
        i += 1;
    }
    let ghost g = refs_view(graphics@);
    let mut out: Vec<Vec<char>> = Vec::new();
    assert(texts(out@) =~= seq![]);
    let mut k: usize = 0;
    while k < graphics.len()
        invariant
            k <= graphics@.len(),
            g == refs_view(graphics@),
            figure_probes(fig@) == probes_from(g, k as int, texts(out@)),
        decreases graphics@.len() - k,
    {
        assert(g[k as int] == graphics@[k as int]@);
        let href = trim(&chars_or_empty(attr(graphics[k], "href")));
        if href.len() > 0 && is_local_path(&href) && !is_absolute_path(&href) {
            let suffix = extension_of(&href);
            let vector = match &suffix {
                Some(x) => is(x, "svg"),
                None => false,
            };
            if !vector {
                let mut names: Vec<Vec<char>> = Vec::new();
                names.push(copy(&href));
                assert(texts(names@) =~= seq![href@]);
                if suffix.is_none() {
                    push_candidate(&mut names, &href, ".jpg");
                    push_candidate(&mut names, &href, ".jpeg");
                    push_candidate(&mut names, &href, ".png");
                    push_candidate(&mut names, &href, ".tif");
                    push_candidate(&mut names, &href, ".tiff");
                    push_candidate(&mut names, &href, ".gif");
                }
                assert(texts(names@) =~= candidates(href@));
                let ghost before = texts(out@);
                let ghost c = candidates(href@);
                let mut m: usize = 0;
                while m < names.len()
                    invariant
                        m <= names@.len(),
                        c == texts(names@),
                        k < g.len(),
                        c == candidates(graphic_href(g[k as int])),
                        is_tried(graphic_href(g[k as int])),
                        figure_probes(fig@) == probes_from(g, k as int, before),
                        tries_from(c, 0, before) == tries_from(c, m as int, texts(out@)),
                    decreases names@.len() - m,
                {
                    broadcast use texts_push;

                    assert(c[m as int] == names@[m as int]@);
                    match confine(&names[m]) {
                        None => {
                            return out;
                        },
                        Some(steps) => {
                            out.push(join(&steps, "/"));
                        },
                    }
                    m += 1;
                }
            }
        }
        k += 1;
    }
    out
}

// ------------------------------------------------------------ runs

/// The runs with a text appended; it joins the last run where emphasis and
/// link agree.
pub open spec fn appended(
    segs: Seq<SegV>,
    text: Seq<char>,
    fmt: Fmt,
    link: Option<Seq<char>>,
) -> Seq<SegV> {
    if text.len() == 0 {
        segs
    } else if segs.len() > 0 && !segs.last().formula && segs.last().fmt == fmt && segs.last().link
        == link {
        segs.update(segs.len() - 1, SegV { text: segs.last().text + text, ..segs.last() })
    } else {
        segs.push(SegV { formula: false, text, fmt, link })
    }
}

/// The runs with the runs of `more` from `i` on appended.
pub open spec fn extended(segs: Seq<SegV>, more: Seq<SegV>, i: int) -> Seq<SegV>
    decreases more.len() - i,
{
    if i >= more.len() {
        segs
    } else {
        extended(
            if more[i].formula {
                segs.push(more[i])
            } else {
                appended(segs, more[i].text, more[i].fmt, more[i].link)
            },
            more,
            i + 1,
        )
    }
}

proof fn segs_push(v: Seq<Seg>, x: Seg)
    ensures
        segs_view(v.push(x)) == segs_view(v).push(x@),
{
    assert(segs_view(v.push(x)) =~= segs_view(v).push(x@));
}

/// Appends a text to the runs.
pub fn append_run(segs: &mut Vec<Seg>, text: &Vec<char>, fmt: Fmt, link: &Option<Vec<char>>)
    ensures
        segs_view(final(segs)@) == appended(
            segs_view(old(segs)@),
            text@,
            fmt,
            opt_chars(*link),
        ),
{
    if text.len() == 0 {
        return;
    }
    let n: usize = segs.len();
    let ghost before = segs@;
    assert(n > 0 ==> segs_view(before).last() == before.last()@);
    if n > 0 && !segs[n - 1].formula && segs[n - 1].fmt == fmt && same_opt(&segs[n - 1].link, link) {
        match segs.pop() {
            Some(mut last) => {
                let ghost was = last@;
                push_all(&mut last.text, text);
                segs.push(last);
                assert(segs_view(segs@) =~= segs_view(before).update(
                    n - 1,
                    SegV { text: was.text + text@, ..was },
                ));
            },
            None => {},
        }
        return;
    }
    let seg = Seg { formula: false, text: copy(text), fmt, link: copy_opt(link) };
    proof {
        segs_push(segs@, seg);
    }
    segs.push(seg);
}

/// Appends runs to the runs.
pub fn extend_segments(segs: &mut Vec<Seg>, more: Vec<Seg>)
    ensures
        segs_view(final(segs)@) == extended(segs_view(old(segs)@), segs_view(more@), 0),
{
    let ghost v = segs_view(more@);
    let ghost first = segs_view(segs@);
    let mut i: usize = 0;
    while i < more.len()
        invariant
            i <= more@.len(),
            v == segs_view(more@),
            extended(first, v, 0) == extended(segs_view(segs@), v, i as int),
        decreases more@.len() - i,
    {
        assert(v[i as int] == more@[i as int]@);
        let x = &more[i];
        if x.formula {
            let seg = Seg {
                formula: true,
                text: copy(&x.text),
                fmt: x.fmt,
                link: copy_opt(&x.link),
            };
            proof {
                segs_push(segs@, seg);
            }
            segs.push(seg);
        } else {
            append_run(segs, &x.text, x.fmt, &x.link);
        }
        i += 1;
    }
}

/// The first place from `i` on where a mark stands, or the text's length.
pub open spec fn mark_from(t: Seq<char>, mark: Seq<char>, i: int) -> int
    decreases t.len() - i,
{
    if i >= t.len() {
        t.len() as int
    } else if occurs_at(t, mark, i) {
        i
    } else {
        mark_from(t, mark, i + 1)
    }
}

fn find_mark(t: &Vec<char>, mark: &Vec<char>, from: usize) -> (r: usize)
    requires
        from <= t@.len(),
        mark@.len() > 0,
    ensures
        r == mark_from(t@, mark@, from as int),
        from <= r <= t@.len(),
        r < t@.len() ==> r + mark@.len() <= t@.len(),
{
    let mut i: usize = from;
    while i < t.len()
        invariant
            from <= i <= t@.len(),
            mark_from(t@, mark@, from as int) == mark_from(t@, mark@, i as int),
        decreases t@.len() - i,
    {
        if is_at(t, mark, i) {
            return i;
        }
        i += 1;
    }
    i
}

/// What stands between the first two places of a mark in a text.
pub open spec fn marked_off(t: Seq<char>, mark: Seq<char>) -> Option<Seq<char>> {
    let a = mark_from(t, mark, 0);
    let b = mark_from(t, mark, a + mark.len());
    if a < t.len() && b < t.len() {
        Some(strip(t.subrange(a + mark.len(), b)))
    } else {
        None
    }
}

fn mark_off(t: &Vec<char>, mark: &str) -> (r: Option<Vec<char>>)
    requires
        mark@.len() > 0,
    ensures
        opt_chars(r) == marked_off(t@, mark@),
{
    let m = chars_of(mark);
    let a = find_mark(t, &m, 0);
    if a >= t.len() {
        return None;
    }
    let b = find_mark(t, &m, a + m.len());
    if b >= t.len() {
        return None;
    }
    Some(trim(&slice(t, a + m.len(), b)))
}

/// A formula's body: what stands between its dollar signs, or its text. The
/// signs stand around the text, or around a part of it.
pub open spec fn formula_body(e: ElementV) -> Option<Seq<char>> {
    match head(e) {
        None => None,
        Some(s) => {
            let t = strip(s);
            let n = t.len() as int;
            let inner = if n > 4 && has_prefix(t, "$$"@) && has_suffix(t, "$$"@) {
                strip(t.subrange(2, n - 2))
            } else if n > 2 && has_prefix(t, "$"@) && has_suffix(t, "$"@) {
                strip(t.subrange(1, n - 1))
            } else if marked_off(t, "$$"@) matches Some(x) && x.len() > 0 {
                marked_off(t, "$$"@)->0
            } else if marked_off(t, "$"@) matches Some(x) && x.len() > 0 {
                marked_off(t, "$"@)->0
            } else {
                t
            };
            if inner.len() == 0 {
                None
            } else {
                Some(inner)
            }
        },
    }
}

/// A formula's body.
pub fn extract_tex_math(e: &Element) -> (r: Option<Vec<char>>)
    ensures
        opt_chars(r) == formula_body(e@),
{
    match head_of(e) {
        None => None,
        Some(s) => {
            let t = trim(&chars_of(s));
            let n: usize = t.len();
            let inner = if n > 4 && starts_with(&t, "$$") && ends_with(&t, "$$") {
                trim(&slice(&t, 2, n - 2))
            } else if n > 2 && starts_with(&t, "$") && ends_with(&t, "$") {
                trim(&slice(&t, 1, n - 1))
            } else {
                proof {
                    reveal_strlit("$$");
                    reveal_strlit("$");
                }
                match mark_off(&t, "$$") {
                    Some(x) if x.len() > 0 => x,
                    _ => match mark_off(&t, "$") {
                        Some(x) if x.len() > 0 => x,
                        _ => t,
                    },
                }
            };
            if inner.len() == 0 {
                None
            } else {
                Some(inner)
            }
        },
    }
}

/// The target of a link element.
pub open spec fn link_target(e: ElementV) -> Option<Seq<char>> {
    let href = strip(or_empty(attr_of(e, "href"@)));
    if href.len() == 0 {
        None
    } else {
        Some(normalized_url(href))
    }
}

/// The target of a link element.
pub fn ext_link_href(e: &Element) -> (r: Option<Vec<char>>)
    ensures
        opt_chars(r) == link_target(e@),
{
    let href = trim(&chars_or_empty(attr(e, "href")));
    if href.len() == 0 {
        None
    } else {
        Some(normalize_url(&href))
    }
}

/// The runs of an inline formula's children from `i` on, appended to `segs`:
/// formula bodies, and the other text with its emphasis.
pub open spec fn formula_from(
    ch: Seq<TreeV>,
    i: int,
    fmt: Fmt,
    link: Option<Seq<char>>,
    segs: Seq<SegV>,
) -> Seq<SegV>
    decreases ch, ch.len() - i,
{
    if i < 0 || i >= ch.len() {
        segs
    } else {
        formula_from(
            ch,
            i + 1,
            fmt,
            link,
            match ch[i] {
                TreeV::Element(e) => appended(
                    if e.tag == "tex-math"@ {
                        match formula_body(e) {
                            Some(text) => segs.push(
                                SegV { formula: true, text, fmt: no_fmt(), link },
                            ),
                            None => segs,
                        }
                    } else {
                        extended(
                            segs,
                            formula_from(
                                e.children,
                                0,
                                tag_fmt(fmt, e.tag),
                                link,
                                appended(
                                    seq![],
                                    unlined(or_empty(head(e))),
                                    tag_fmt(fmt, e.tag),
                                    link,
                                ),
                            ),
                            0,
                        )
                    },
                    unlined(or_empty(tail(ch, i))),
                    fmt,
                    link,
                ),
                _ => segs,
            },
        )
    }
}

/// The runs of an inline formula.
pub open spec fn formula_segs(e: ElementV, fmt: Fmt, link: Option<Seq<char>>) -> Seq<SegV> {
    let f = tag_fmt(fmt, e.tag);
    formula_from(e.children, 0, f, link, appended(seq![], unlined(or_empty(head(e))), f, link))
}

/// The runs of an inline formula.
pub fn walk_inline_formula(e: &Element, fmt: Fmt, link: &Option<Vec<char>>) -> (r: Vec<Seg>)
    ensures
        segs_view(r@) == formula_segs(e@, fmt, opt_chars(*link)),
    decreases e,
{
    let f = fmt.with_tag(e.tag.as_str());
    let mut segs: Vec<Seg> = Vec::new();
    assert(segs_view(segs@) =~= seq![]);
    let start = unline(head_of(e));
    append_run(&mut segs, &start, f, link);
    let ghost v = trees_view(e.children@);
    let ghost first = segs_view(segs@);
    let ghost l = opt_chars(*link);
    let mut i: usize = 0;
    while i < e.children.len()
        invariant
            i <= e.children@.len(),
            v == trees_view(e.children@),
            l == opt_chars(*link),
            formula_from(v, 0, f, l, first) == formula_from(v, i as int, f, l, segs_view(segs@)),
        decreases e.children@.len() - i,
    {
        assert(v[i as int] == tree_view(e.children@[i as int]));
        match &e.children[i] {
            Tree::Element(c) => {
                if has_tag(c, "tex-math") {
                    match extract_tex_math(c) {
                        Some(text) => {
                            let seg = Seg {
                                formula: true,
                                text,
                                fmt: Fmt::none(),
                                link: copy_opt(link),
                            };
                            proof {
                                segs_push(segs@, seg);
                            }
                            segs.push(seg);
                        },
                        None => {},
                    }
                } else {
                    let more = walk_inline_formula(c, f, link);
                    extend_segments(&mut segs, more);
                }
                let rest = unline(tail_of(&e.children, i));
                append_run(&mut segs, &rest, f, link);
            },
            _ => {},
        }
        i += 1;
    }
    segs
}

/// A run in Markdown.
pub open spec fn seg_text(s: SegV) -> Seq<char> {
    if s.formula {
        seq!['$'] + s.text + seq!['$']
    } else {
        let a = escaped(s.text);
        let b = if s.fmt.bold {
            "**"@ + a + "**"@
        } else {
            a
        };
        let c = if s.fmt.italic {
            "*"@ + b + "*"@
        } else {
            b
        };
        let d = if s.fmt.strike {
            "~~"@ + c + "~~"@
        } else {
            c
        };
        match s.link {
            Some(url) => "["@ + d + "]("@ + url + ")"@,
            None => d,
        }
    }
}

/// A text between two marks.
pub fn wrapped(left: &str, s: &Vec<char>, right: &str) -> (r: Vec<char>)
    ensures
        r@ == left@ + s@ + right@,
{
    let mut out = chars_of(left);
    push_all(&mut out, s);
    push_str(&mut out, right);
    out
}

/// A run in Markdown.
pub fn seg_markdown(s: &Seg) -> (r: Vec<char>)
    ensures
        r@ == seg_text(s@),
{
    if s.formula {
        let mut out: Vec<char> = Vec::new();
        out.push('$');
        push_all(&mut out, &s.text);
        out.push('$');
        assert(out@ =~= seq!['$'] + s.text@ + seq!['$']);
        return out;
    }
    let mut out = escape_text(&s.text);
    if s.fmt.bold {
        out = wrapped("**", &out, "**");
    }
    if s.fmt.italic {
        out = wrapped("*", &out, "*");
    }
    if s.fmt.strike {
        out = wrapped("~~", &out, "~~");
    }
    match &s.link {
        Some(url) => {
            let mut end = chars_of("](");
            push_all(&mut end, url);
            push_str(&mut end, ")");
            let mut all = chars_of("[");
            push_all(&mut all, &out);
            push_all(&mut all, &end);
            assert(all@ =~= "["@ + out@ + "]("@ + url@ + ")"@);
            out = all;
        },
        None => {},
    }
    out
}

/// A run of the document model.
pub open spec fn seg_run(s: SegV) -> InlineRunV {
    if s.formula {
        InlineRunV {
            text: s.text,
            bold: false,
            italic: false,
            underline: false,
            strike: false,
            script: Script::Baseline,
            code: false,
            formula: true,
        }
    } else {
        InlineRunV {
            text: s.text,
            bold: s.fmt.bold,
            italic: s.fmt.italic,
            underline: s.fmt.underline,
            strike: s.fmt.strike,
            script: s.fmt.script,
            code: false,
            formula: false,
        }
    }
}

/// The runs from `i` on, trimmed, without the blank ones, added to `done`.
pub open spec fn trimmed_from(segs: Seq<SegV>, i: int, done: Seq<SegV>) -> Seq<SegV>
    decreases segs.len() - i,
{
    if i >= segs.len() {
        done
    } else {
        trimmed_from(
            segs,
            i + 1,
            if strip(segs[i].text).len() > 0 {
                done.push(SegV { text: strip(segs[i].text), ..segs[i] })
            } else {
                done
            },
        )
    }
}

/// The nodes with the paragraph of some runs added; blank runs drop.
pub open spec fn emitted(nodes: Seq<NodeV>, segs: Seq<SegV>) -> Seq<NodeV> {
    let s = trimmed_from(segs, 0, seq![]);
    if s.len() == 0 {
        nodes
    } else {
        nodes.push(
            NodeV::Inline {
                text: joined(Seq::new(s.len(), |i: int| seg_text(s[i])), " "@),
                runs: Seq::new(s.len(), |i: int| seg_run(s[i])),
                unwrapped: true,
            },
        )
    }
}

/// Adds the paragraph of some runs.
pub fn emit_inline(nodes: &mut Vec<Node>, segs: &Vec<Seg>)
    ensures
        nodes_view(final(nodes)@) == emitted(nodes_view(old(nodes)@), segs_view(segs@)),
{
    let ghost v = segs_view(segs@);
    let ghost mut s: Seq<SegV> = seq![];
    let mut md: Vec<Vec<char>> = Vec::new();
    let mut runs: Vec<InlineRun> = Vec::new();
    let mut i: usize = 0;
    assert(texts(md@) =~= Seq::new(0, |k: int| seg_text(s[k])));
    assert(runs_view(runs@) =~= Seq::new(0, |k: int| seg_run(s[k])));
    while i < segs.len()
        invariant
            i <= segs@.len(),
            v == segs_view(segs@),
            trimmed_from(v, 0, seq![]) == trimmed_from(v, i as int, s),
            texts(md@) == Seq::new(s.len(), |k: int| seg_text(s[k])),
            runs_view(runs@) == Seq::new(s.len(), |k: int| seg_run(s[k])),
        decreases segs@.len() - i,
    {
        assert(v[i as int] == segs@[i as int]@);
        let x = &segs[i];
        let text = trim(&x.text);
        if text.len() > 0 {
            let run = InlineRun {
                text: string_of(&text),
                bold: !x.formula && x.fmt.bold,
                italic: !x.formula && x.fmt.italic,
                underline: !x.formula && x.fmt.underline,
                strike: !x.formula && x.fmt.strike,
                script: if x.formula {
                    Script::Baseline
                } else {
                    x.fmt.script
                },
                code: false,
                formula: x.formula,
            };
            let seg = Seg { formula: x.formula, text, fmt: x.fmt, link: copy_opt(&x.link) };
            let line = seg_markdown(&seg);
            proof {
                let more = s.push(seg@);
                texts_push(md@, line);
                runs_view_push(runs@, run);
                assert(texts(md@.push(line)) =~= Seq::new(more.len(), |k: int| seg_text(more[k])));
                assert(runs_view(runs@.push(run)) =~= Seq::new(
                    more.len(),
                    |k: int| seg_run(more[k]),
                ));
                s = more;
            }
            md.push(line);
            runs.push(run);
        }
        i += 1;
    }
    if md.len() == 0 {
        assert(s.len() == texts(md@).len());
        return;
    }
    assert(s.len() == texts(md@).len());
    let node = Node::Inline { text: string_of(&join(&md, " ")), runs, unwrapped: true };
    push_node(nodes, node);
}

// ------------------------------------------------------------ citations

/// A text without the trailing characters among two.
pub open spec fn without_end(s: Seq<char>, a: char, b: char) -> Seq<char>
    decreases s.len(),
{
    if s.len() > 0 && (s.last() == a || s.last() == b) {
        without_end(s.drop_last(), a, b)
    } else {
        s
    }
}

/// Drops the trailing characters among two.
pub fn drop_end(s: &mut Vec<char>, a: char, b: char)
    ensures
        final(s)@ == without_end(old(s)@, a, b),
{
    let ghost first = s@;
    while s.len() > 0 && (s[s.len() - 1] == a || s[s.len() - 1] == b)
        invariant
            without_end(first, a, b) == without_end(s@, a, b),
        decreases s@.len(),
    {
        let ghost before = s@;
        let _ = s.pop();
        assert(s@ =~= before.drop_last());
    }
}

/// Drops any trailing run of dots and spaces.
pub fn rstrip_dot_space(s: &mut Vec<char>)
    ensures
        final(s)@ == without_end(old(s)@, '.', ' '),
{
    drop_end(s, '.', ' ');
}

/// The names among the elements from `i` on as `surname given-names`, added
/// to `done`.
pub open spec fn cited_names(v: Seq<ElementV>, i: int, done: Seq<Seq<char>>) -> Seq<Seq<char>>
    decreases v.len() - i,
{
    if i >= v.len() {
        done
    } else {
        let surname = head_opt(child_of(v[i], "surname"@));
        let given = head_opt(child_of(v[i], "given-names"@));
        cited_names(
            v,
            i + 1,
            if v[i].tag == "name"@ && surname is Some && given is Some {
                done.push(strip(unlined(surname->0)) + seq![' '] + strip(unlined(given->0)))
            } else {
                done
            },
        )
    }
}

/// The authors of a citation.
pub open spec fn cited_authors(e: ElementV) -> Seq<char> {
    let v = self_and_under(e);
    let names = cited_names(v, 0, seq![]);
    joined(
        match first_tagged(v, "etal"@) {
            Some(etal) => {
                let t = strip(or_empty(head(etal)));
                names.push(
                    if t.len() == 0 {
                        "et al."@
                    } else {
                        t
                    },
                )
            },
            None => names,
        },
        ", "@,
    )
}

/// The title of a citation: that of the first kind of title it has.
pub open spec fn cited_title(e: ElementV) -> Seq<char> {
    match child_of(e, "article-title"@) {
        Some(t) => raw(t),
        None => match child_of(e, "chapter-title"@) {
            Some(t) => raw(t),
            None => match child_of(e, "data-title"@) {
                Some(t) => raw(t),
                None => match child_of(e, "issue-title"@) {
                    Some(t) => raw(t),
                    None => match child_of(e, "part-title"@) {
                        Some(t) => raw(t),
                        None => match child_of(e, "trans-title"@) {
                            Some(t) => raw(t),
                            None => field(Some(e)),
                        },
                    },
                },
            },
        },
    }
}

/// The publication identifiers from `i` on, added to `done`.
pub open spec fn pub_ids(v: Seq<ElementV>, i: int, done: Seq<Seq<char>>) -> Seq<Seq<char>>
    decreases v.len() - i,
{
    if i >= v.len() {
        done
    } else {
        let kind = match attr_of(v[i], "assigning-authority"@) {
            Some(a) => Some(a),
            None => attr_of(v[i], "pub-id-type"@),
        };
        pub_ids(
            v,
            i + 1,
            match (kind, head(v[i])) {
                (Some(k), Some(t)) => done.push(
                    uppercase(strip(unlined(k))) + ": "@ + strip(unlined(t)),
                ),
                _ => done,
            },
        )
    }
}

/// The pages of a citation: an article number, or a range.
pub open spec fn cited_pages(e: ElementV) -> Seq<char> {
    match child_of(e, "elocation-id"@) {
        Some(x) => field(Some(x)),
        None => match child_of(e, "fpage"@) {
            Some(f) => match child_of(e, "lpage"@) {
                Some(l) => field(Some(f)).push('\u{2013}') + field(Some(l)),
                None => field(Some(f)),
            },
            None => seq![],
        },
    }
}

/// `s` with a part and a full stop behind it, unless the part is empty.
pub open spec fn with_part(s: Seq<char>, part: Seq<char>, text: Seq<char>) -> Seq<char> {
    if part.len() == 0 {
        s
    } else {
        s + text + ". "@
    }
}

/// A citation as one reference text.
pub open spec fn citation(e: ElementV) -> Seq<char> {
    let authors = cited_authors(e);
    let title = cited_title(e);
    let source = field(child_of(e, "source"@));
    let year = field(child_of(e, "year"@));
    let publisher = field(child_of(e, "publisher-name"@));
    let place = field(child_of(e, "publisher-loc"@));
    let volume = field(child_of(e, "volume"@));
    let ids = joined(pub_ids(kids_of(e, "pub-id"@), 0, seq![]), ", "@);
    let pages = cited_pages(e);
    let t1 = with_part(seq![], authors, without_end(authors, '.', '.'));
    let t2 = with_part(t1, title, strip(title));
    let t3 = with_part(t2, source, source);
    let t4 = with_part(
        t3,
        publisher,
        if place.len() == 0 {
            publisher
        } else {
            place + ": "@ + publisher
        },
    );
    let t5 = if volume.len() == 0 {
        t4
    } else {
        without_end(t4, '.', ' ') + " "@ + volume + ". "@
    };
    let t6 = if pages.len() == 0 {
        t5
    } else {
        without_end(t5, '.', ' ') + (if volume.len() == 0 {
            ""@
        } else {
            ":"@
        }) + pages + ". "@
    };
    let t7 = if year.len() == 0 {
        t6
    } else {
        without_end(t6, '.', ' ') + " ("@ + year + ")."@
    };
    if ids.len() == 0 {
        t7
    } else {
        without_end(t7, '.', '.') + ". "@ + ids
    }
}

fn authors_of(e: &Element) -> (r: Vec<char>)
    ensures
        r@ == cited_authors(e@),
{
    let v = self_and_descendants(e);
    let ghost w = refs_view(v@);
    let mut names: Vec<Vec<char>> = Vec::new();
    let mut i: usize = 0;
    assert(texts(names@) =~= seq![]);
    while i < v.len()
        invariant
            i <= v@.len(),
            w == refs_view(v@),
            cited_names(w, 0, seq![]) == cited_names(w, i as int, texts(names@)),
        decreases v@.len() - i,
    {
        broadcast use texts_push;

        assert(w[i as int] == v@[i as int]@);
        if has_tag(v[i], "name") {
            match (head_of_opt(child(v[i], "surname")), head_of_opt(child(v[i], "given-names"))) {
                (Some(s), Some(g)) => {
                    let mut name = trim(&replace_char(&chars_of(s), '\n', ' '));
                    let given = trim(&replace_char(&chars_of(g), '\n', ' '));
                    let ghost a = name@;
                    name.push(' ');
                    push_all(&mut name, &given);
                    assert(name@ =~= a + seq![' '] + given@);
                    names.push(name);
                },
                _ => {},
            }
        }
        i += 1;
    }
    match find_tagged(&v, "etal") {
        Some(etal) => {
            let t = trim(&chars_or_empty(head_of(etal)));
            let t = if t.len() == 0 {
                chars_of("et al.")
            } else {
                t
            };
            proof {
                texts_push(names@, t);
            }
            names.push(t);
        },
        None => {},
    }
    join(&names, ", ")
}

fn title_of(e: &Element) -> (r: Vec<char>)
    ensures
        r@ == cited_title(e@),
{
    match child(e, "article-title") {
        Some(t) => get_text(t),
        None => match child(e, "chapter-title") {
            Some(t) => get_text(t),
            None => match child(e, "data-title") {
                Some(t) => get_text(t),
                None => match child(e, "issue-title") {
                    Some(t) => get_text(t),
                    None => match child(e, "part-title") {
                        Some(t) => get_text(t),
                        None => match child(e, "trans-title") {
                            Some(t) => get_text(t),
                            None => field_of(Some(e)),
                        },
                    },
                },
            },
        },
    }
}

fn ids_of(e: &Element) -> (r: Vec<char>)
    ensures
        r@ == joined(pub_ids(kids_of(e@, "pub-id"@), 0, seq![]), ", "@),
{
    let v = kids(e, "pub-id");
    let ghost w = refs_view(v@);
    let mut out: Vec<Vec<char>> = Vec::new();
    let mut i: usize = 0;
    assert(texts(out@) =~= seq![]);
    while i < v.len()
        invariant
            i <= v@.len(),
            w == refs_view(v@),
            pub_ids(w, 0, seq![]) == pub_ids(w, i as int, texts(out@)),
        decreases v@.len() - i,
    {
        broadcast use texts_push;

        assert(w[i as int] == v@[i as int]@);
        let kind = match attr(v[i], "assigning-authority") {
            Some(a) => Some(a),
            None => attr(v[i], "pub-id-type"),
        };
        match (kind, head_of(v[i])) {
            (Some(k), Some(t)) => {
                let k = trim(&replace_char(&chars_of(k), '\n', ' '));
                let mut id = chars_of(to_uppercase(string_of(&k).as_str()).as_str());
                push_str(&mut id, ": ");
                let t = trim(&replace_char(&chars_of(t), '\n', ' '));
                push_all(&mut id, &t);
                out.push(id);
            },
            _ => {},
        }
        i += 1;
    }
    join(&out, ", ")
}

fn pages_of(e: &Element) -> (r: Vec<char>)
    ensures
        r@ == cited_pages(e@),
{
    match child(e, "elocation-id") {
        Some(x) => field_of(Some(x)),
        None => match child(e, "fpage") {
            Some(f) => {
                let mut p = field_of(Some(f));
                match child(e, "lpage") {
                    Some(l) => {
                        p.push('\u{2013}');
                        let last = field_of(Some(l));
                        push_all(&mut p, &last);
                    },
                    None => {},
                }
                p
            },
            None => {
                let v: Vec<char> = Vec::new();
                assert(v@ =~= seq![]);
                v
            },
        },
    }
}

fn add_part(text: &mut Vec<char>, part: &Vec<char>, shown: &Vec<char>)
    ensures
        final(text)@ == with_part(old(text)@, part@, shown@),
{
    if part.len() > 0 {
        push_all(text, shown);
        push_str(text, ". ");
    }
}

/// A citation as one reference text.
pub fn parse_element_citation(e: &Element) -> (r: Vec<char>)
    ensures
        r@ == citation(e@),
{
    let authors = authors_of(e);
    let title = title_of(e);
    let source = field_of(child(e, "source"));
    let year = field_of(child(e, "year"));
    let publisher = field_of(child(e, "publisher-name"));
    let place = field_of(child(e, "publisher-loc"));
    let volume = field_of(child(e, "volume"));
    let ids = ids_of(e);
    let pages = pages_of(e);
    let mut text: Vec<char> = Vec::new();
    assert(text@ =~= seq![]);
    let mut short = copy(&authors);
    drop_end(&mut short, '.', '.');
    add_part(&mut text, &authors, &short);
    add_part(&mut text, &title, &trim(&title));
    add_part(&mut text, &source, &source);
    let mut house: Vec<char> = copy(&place);
    if place.len() > 0 {
        push_str(&mut house, ": ");
        push_all(&mut house, &publisher);
    } else {
        house = copy(&publisher);
    }
    add_part(&mut text, &publisher, &house);
    if volume.len() > 0 {
        rstrip_dot_space(&mut text);
        push_str(&mut text, " ");
        push_all(&mut text, &volume);
        push_str(&mut text, ". ");
    }
    if pages.len() > 0 {
        rstrip_dot_space(&mut text);
        if volume.len() > 0 {
            push_str(&mut text, ":");
        } else {
            push_str(&mut text, "");
        }
        push_all(&mut text, &pages);
        push_str(&mut text, ". ");
    }
    if year.len() > 0 {
        rstrip_dot_space(&mut text);
        push_str(&mut text, " (");
        push_all(&mut text, &year);
        push_str(&mut text, ").");
    }
    if ids.len() > 0 {
        drop_end(&mut text, '.', '.');
        push_str(&mut text, ". ");
        push_all(&mut text, &ids);
    }
    text
}

// ------------------------------------------------------------ tables

/// A span attribute: a positive number, or one.
pub open spec fn span(e: ElementV, name: Seq<char>) -> int {
    match attr_of(e, name) {
        Some(v) => match uint(v, usize::MAX as int) {
            Some(n) => if n >= 1 {
                n
            } else {
                1
            },
            None => 1,
        },
        None => 1,
    }
}

/// A span attribute: a positive number, or one.
pub fn span_of(e: &Element, name: &str) -> (r: usize)
    ensures
        r == span(e@, name@),
        r >= 1,
{
    match attr(e, name) {
        Some(v) => match parse_uint(&chars_of(v), usize::MAX as u128) {
            Some(n) => if n >= 1 {
                n as usize
            } else {
                1
            },
            None => 1,
        },
        None => 1,
    }
}

/// A row of a table; `head` tells whether it stands in a table head.
pub struct Row<'a> {
    pub head: bool,
    pub tr: &'a Element,
}

/// View of a [`Row`].
#[verifier::ext_equal]
pub struct RowV {
    pub head: bool,
    pub tr: ElementV,
}

/// The views of a list of rows.
pub open spec fn rows_view(v: Seq<Row>) -> Seq<RowV> {
    Seq::new(v.len(), |i: int| RowV { head: v[i].head, tr: v[i].tr@ })
}

/// The rows under the children from `i` on, added to `done`.
pub open spec fn rows_from(ch: Seq<TreeV>, i: int, head: bool, done: Seq<RowV>) -> Seq<RowV>
    decreases ch, ch.len() - i,
{
    if i < 0 || i >= ch.len() {
        done
    } else {
        rows_from(
            ch,
            i + 1,
            head,
            match ch[i] {
                TreeV::Element(e) => rows_from(
                    e.children,
                    0,
                    head || e.tag == "thead"@,
                    if e.tag == "tr"@ {
                        done.push(RowV { head, tr: e })
                    } else {
                        done
                    },
                ),
                _ => done,
            },
        )
    }
}

fn collect_rows<'a>(ch: &'a Vec<Tree>, head: bool, out: &mut Vec<Row<'a>>)
    ensures
        rows_view(final(out)@) == rows_from(trees_view(ch@), 0, head, rows_view(old(out)@)),
    decreases ch,
{
    let ghost v = trees_view(ch@);
    let ghost first = rows_view(out@);
    let mut i: usize = 0;
    while i < ch.len()
        invariant
            i <= ch@.len(),
            v == trees_view(ch@),
            rows_from(v, 0, head, first) == rows_from(v, i as int, head, rows_view(out@)),
        decreases ch@.len() - i,
    {
        assert(v[i as int] == tree_view(ch@[i as int]));
        match &ch[i] {
            Tree::Element(e) => {
                if has_tag(e, "tr") {
                    let ghost before = out@;
                    out.push(Row { head, tr: e });
                    assert(rows_view(out@) =~= rows_view(before).push(RowV { head, tr: e@ }));
                }
                collect_rows(&e.children, head || has_tag(e, "thead"), out);
            },
            _ => {},
        }
        i += 1;
    }
}

/// The cells of a row.
pub open spec fn row_cells(tr: ElementV) -> Seq<ElementV> {
    either_kids_of(tr, "td"@, "th"@)
}

/// The column spans of some cells added up.
pub open spec fn row_width(v: Seq<ElementV>) -> int
    decreases v.len(),
{
    if v.len() == 0 {
        0
    } else {
        row_width(v.drop_last()) + span(v.last(), "colspan"@)
    }
}

/// The width of the widest row from `i` on, or `most`.
pub open spec fn width_from(rows: Seq<RowV>, i: int, most: int) -> int
    decreases rows.len() - i,
{
    if i >= rows.len() {
        most
    } else {
        let w = row_width(row_cells(rows[i].tr));
        width_from(
            rows,
            i + 1,
            if w > most {
                w
            } else {
                most
            },
        )
    }
}

/// Whether a row from `i` on holds another table.
pub open spec fn nests(rows: Seq<RowV>, i: int) -> bool
    decreases rows.len() - i,
{
    i < rows.len() && (has_under(rows[i].tr, "table"@) || nests(rows, i + 1))
}

/// The grid of a table while it is filled.
#[verifier::ext_equal]
pub struct PlanV {
    pub text: Seq<Seq<Seq<char>>>,
    pub taken: Seq<Seq<bool>>,
    pub head: Seq<Seq<bool>>,
    pub cols: Seq<Seq<bool>>,
    pub rows: Seq<Seq<bool>>,
}

/// The first column from `c` on that is not taken, or the width.
pub open spec fn free_col(taken: Seq<bool>, c: int, width: int) -> int
    decreases width - c,
{
    if c >= width || !taken[c] {
        c
    } else {
        free_col(taken, c + 1, width)
    }
}

/// The smaller of two numbers.
pub open spec fn least(a: int, b: int) -> int {
    if a < b {
        a
    } else {
        b
    }
}

/// The grid with a cell placed: its text fills its span, and the covered
/// columns and rows continue it.
pub open spec fn place(
    p: PlanV,
    r: int,
    c: int,
    rs: int,
    cs: int,
    text: Seq<char>,
    head: bool,
    height: int,
    width: int,
) -> PlanV {
    let r1 = least(r + rs, height);
    let c1 = least(c + cs, width);
    PlanV {
        text: filled(p.text, r, r1, c, c1, text),
        taken: filled(p.taken, r, r1, c, c1, true),
        cols: filled(p.cols, r, r1, c + 1, c1, true),
        rows: filled(p.rows, r + 1, r1, c, c1, true),
        head: filled(p.head, r, r + 1, c, c + 1, head),
    }
}

/// The grid with the cells of row `r` from `k` on placed, the next at column
/// `c` or behind.
pub open spec fn place_cells(
    v: Seq<ElementV>,
    k: int,
    r: int,
    c: int,
    in_head: bool,
    height: int,
    width: int,
    p: PlanV,
) -> PlanV
    decreases v.len() - k,
{
    if k >= v.len() {
        p
    } else {
        let at = free_col(p.taken[r], c, width);
        if at >= width {
            p
        } else {
            let cs = span(v[k], "colspan"@);
            place_cells(
                v,
                k + 1,
                r,
                least(at + cs, width),
                in_head,
                height,
                width,
                place(
                    p,
                    r,
                    at,
                    span(v[k], "rowspan"@),
                    cs,
                    norm(v[k]),
                    in_head || v[k].tag == "th"@,
                    height,
                    width,
                ),
            )
        }
    }
}

/// The grid with the rows from `r` on placed.
pub open spec fn place_rows(rows: Seq<RowV>, r: int, width: int, p: PlanV) -> PlanV
    decreases rows.len() - r,
{
    if r >= rows.len() {
        p
    } else {
        place_rows(
            rows,
            r + 1,
            width,
            place_cells(
                row_cells(rows[r].tr),
                0,
                r,
                0,
                rows[r].head,
                rows.len() as int,
                width,
                p,
            ),
        )
    }
}

/// A grid without cells.
pub open spec fn empty_plan(height: int, width: int) -> PlanV {
    PlanV {
        text: blank(height, width, Seq::<char>::empty()),
        taken: blank(height, width, false),
        head: blank(height, width, false),
        cols: blank(height, width, false),
        rows: blank(height, width, false),
    }
}

/// The table of a table element; `head` tells whether the element stands in
/// a table head. None where a row holds another table, where there are no
/// cells, and where the width cannot be counted.
pub open spec fn table_of(e: ElementV, head: bool) -> Option<TableV> {
    let rows = rows_from(e.children, 0, head || e.tag == "thead"@, seq![]);
    let width = width_from(rows, 0, 0);
    if nests(rows, 0) || rows.len() == 0 || width == 0 || width > usize::MAX {
        None
    } else {
        let p = place_rows(rows, 0, width, empty_plan(rows.len() as int, width));
        Some(
            TableV {
                rows: p.text,
                structure: if any_flag(p.head) || any_flag(p.cols) || any_flag(p.rows) {
                    Some(
                        TableStructureV {
                            header_row: seq![],
                            col_header: p.head,
                            row_header: seq![],
                            col_continuation: p.cols,
                            row_continuation: p.rows,
                        },
                    )
                } else {
                    None
                },
                cell_blocks: None,
                caption: None,
                caption_parent: CaptionParent::Body,
            },
        )
    }
}

/// Whether all parts of a grid have a shape.
pub open spec fn plan_fits(p: PlanV, height: int, width: int) -> bool {
    &&& has_shape(p.text, height, width)
    &&& has_shape(p.taken, height, width)
    &&& has_shape(p.head, height, width)
    &&& has_shape(p.cols, height, width)
    &&& has_shape(p.rows, height, width)
}

proof fn placed_cells_fit(
    v: Seq<ElementV>,
    k: int,
    r: int,
    c: int,
    in_head: bool,
    height: int,
    width: int,
    p: PlanV,
)
    requires
        plan_fits(p, height, width),
    ensures
        plan_fits(place_cells(v, k, r, c, in_head, height, width, p), height, width),
    decreases v.len() - k,
{
    broadcast use filled_keeps_shape;

    if k < v.len() {
        let at = free_col(p.taken[r], c, width);
        if at < width {
            let cs = span(v[k], "colspan"@);
            placed_cells_fit(
                v,
                k + 1,
                r,
                least(at + cs, width),
                in_head,
                height,
                width,
                place(
                    p,
                    r,
                    at,
                    span(v[k], "rowspan"@),
                    cs,
                    norm(v[k]),
                    in_head || v[k].tag == "th"@,
                    height,
                    width,
                ),
            );
        }
    }
}

proof fn placed_rows_fit(rows: Seq<RowV>, r: int, width: int, p: PlanV)
    requires
        plan_fits(p, rows.len() as int, width),
    ensures
        plan_fits(place_rows(rows, r, width, p), rows.len() as int, width),
    decreases rows.len() - r,
{
    if r < rows.len() {
        let v = row_cells(rows[r].tr);
        let n = rows.len() as int;
        placed_cells_fit(v, 0, r, 0, rows[r].head, n, width, p);
        placed_rows_fit(
            rows,
            r + 1,
            width,
            place_cells(v, 0, r, 0, rows[r].head, n, width, p),
        );
    }
}

proof fn spans_add_up(v: Seq<ElementV>)
    ensures
        0 <= row_width(v),
    decreases v.len(),
{
    if v.len() > 0 {
        spans_add_up(v.drop_last());
    }
}

proof fn widths_are_widths(rows: Seq<RowV>, i: int, most: int)
    requires
        0 <= most,
    ensures
        0 <= width_from(rows, i, most),
    decreases rows.len() - i,
{
    if i < rows.len() {
        let w = row_width(row_cells(rows[i].tr));
        spans_add_up(row_cells(rows[i].tr));
        widths_are_widths(
            rows,
            i + 1,
            if w > most {
                w
            } else {
                most
            },
        );
    }
}

/// Each row of an article's table is as wide as its widest row, and so are the
/// flags of its heads and spans.
pub proof fn article_tables_are_full(e: ElementV, head: bool)
    ensures
        table_of(e, head) matches Some(t) ==> {
            let rows = rows_from(e.children, 0, head || e.tag == "thead"@, seq![]);
            let width = width_from(rows, 0, 0);
            &&& has_shape(t.rows, rows.len() as int, width)
            &&& t.structure matches Some(s) ==> {
                &&& has_shape(s.col_header, rows.len() as int, width)
                &&& has_shape(s.col_continuation, rows.len() as int, width)
                &&& has_shape(s.row_continuation, rows.len() as int, width)
            }
        },
{
    broadcast use blank_has_shape;

    let rows = rows_from(e.children, 0, head || e.tag == "thead"@, seq![]);
    let width = width_from(rows, 0, 0);
    widths_are_widths(rows, 0, 0);
    placed_rows_fit(rows, 0, width, empty_plan(rows.len() as int, width));
}

proof fn row_width_bounds(v: Seq<ElementV>)
    ensures
        0 <= row_width(v) <= v.len() * usize::MAX,
    decreases v.len(),
{
    if v.len() > 0 {
        row_width_bounds(v.drop_last());
        let n = v.len() as int;
        assert(n * usize::MAX == (n - 1) * usize::MAX + usize::MAX) by (nonlinear_arith);
    }
}

fn width_of(v: &Vec<&Element>) -> (r: u128)
    ensures
        r == row_width(refs_view(v@)),
{
    let ghost w = refs_view(v@);
    let mut sum: u128 = 0;
    let mut i: usize = 0;
    assert(w.take(0) =~= seq![]);
    while i < v.len()
        invariant
            i <= v@.len(),
            w == refs_view(v@),
            sum == row_width(w.take(i as int)),
        decreases v@.len() - i,
    {
        proof {
            assert(w[i as int] == v@[i as int]@);
            assert(w.take(i + 1).drop_last() =~= w.take(i as int));
            row_width_bounds(w.take(i + 1));
            assert((i + 1) * usize::MAX <= 0xffff_ffff_ffff_ffff * 0xffff_ffff_ffff_ffff)
                by (nonlinear_arith)
                requires
                    i + 1 <= 0xffff_ffff_ffff_ffff,
                    usize::MAX <= 0xffff_ffff_ffff_ffff,
            ;
        }
        sum = sum + span_of(v[i], "colspan") as u128;
        i += 1;
    }
    assert(w.take(i as int) =~= w);
    sum
}

/// The grid of a table while it is filled.
pub struct Plan {
    pub text: Vec<Vec<Vec<char>>>,
    pub taken: Vec<Vec<bool>>,
    pub head: Vec<Vec<bool>>,
    pub cols: Vec<Vec<bool>>,
    pub rows: Vec<Vec<bool>>,
}

impl View for Plan {
    type V = PlanV;

    open spec fn view(&self) -> PlanV {
        PlanV {
            text: cells(self.text@),
            taken: flags(self.taken@),
            head: flags(self.head@),
            cols: flags(self.cols@),
            rows: flags(self.rows@),
        }
    }
}

fn place_row(tr: &Element, r: usize, in_head: bool, height: usize, width: usize, p: &mut Plan)
    requires
        r < height,
        is_grid(old(p)@.taken, height as int, width as int),
    ensures
        final(p)@ == place_cells(
            row_cells(tr@),
            0,
            r as int,
            0,
            in_head,
            height as int,
            width as int,
            old(p)@,
        ),
        is_grid(final(p)@.taken, height as int, width as int),
{
    let v = either_kids(tr, "td", "th");
    let ghost w = refs_view(v@);
    let ghost want = place_cells(
        row_cells(tr@),
        0,
        r as int,
        0,
        in_head,
        height as int,
        width as int,
        p@,
    );
    let mut c: usize = 0;
    let mut k: usize = 0;
    while k < v.len()
        invariant
            k <= v@.len(),
            w == refs_view(v@),
            r < height,
            c <= width,
            is_grid(p@.taken, height as int, width as int),
            w == row_cells(tr@),
            want == place_cells(
                w,
                k as int,
                r as int,
                c as int,
                in_head,
                height as int,
                width as int,
                p@,
            ),
            want == place_cells(
                row_cells(tr@),
                0,
                r as int,
                0,
                in_head,
                height as int,
                width as int,
                old(p)@,
            ),
        decreases v@.len() - k,
    {
        assert(w[k as int] == v@[k as int]@);
        let ghost c0 = c;
        assert(p@.taken[r as int] == p.taken@[r as int]@);
        assert(p@.taken[r as int].len() == width);
        while c < width && p.taken[r][c]
            invariant
                c0 <= c <= width,
                r < height,
                is_grid(p@.taken, height as int, width as int),
                p@.taken[r as int] == p.taken@[r as int]@,
                p@.taken[r as int].len() == width,
                p.taken@.len() == height,
                free_col(p@.taken[r as int], c0 as int, width as int) == free_col(
                    p@.taken[r as int],
                    c as int,
                    width as int,
                ),
            decreases width - c,
        {
            c += 1;
        }
        if c >= width {
            return;
        }
        let cs: usize = span_of(v[k], "colspan");
        let rs: usize = span_of(v[k], "rowspan");
        let text = norm_text(v[k]);
        let head = has_tag(v[k], "th") || in_head;
        let r1: usize = if height - r < rs {
            height
        } else {
            r + rs
        };
        let c1: usize = if width - c < cs {
            width
        } else {
            c + cs
        };
        fill_cells(&mut p.text, r, r1, c, c1, &text);
        fill_flags(&mut p.taken, r, r1, c, c1, true);
        fill_flags(&mut p.cols, r, r1, c + 1, c1, true);
        fill_flags(&mut p.rows, r + 1, r1, c, c1, true);
        fill_flags(&mut p.head, r, r + 1, c, c + 1, head);
        c = c1;
        k += 1;
    }
}

/// The table of a table element.
pub fn parse_jats_table(e: &Element, head: bool) -> (r: Option<Table>)
    ensures
        match table_of(e@, head) {
            Some(t) => r matches Some(x) && table_view(x) == t,
            None => r is None,
        },
{
    let mut rows: Vec<Row> = Vec::new();
    assert(rows_view(rows@) =~= seq![]);
    collect_rows(&e.children, head || has_tag(e, "thead"), &mut rows);
    let ghost v = rows_view(rows@);
    let height: usize = rows.len();
    let mut most: u128 = 0;
    let mut i: usize = 0;
    while i < height
        invariant
            i <= height == rows@.len(),
            v == rows_view(rows@),
            v == rows_from(e@.children, 0, head || e@.tag == "thead"@, seq![]),
            nests(v, 0) == nests(v, i as int),
            width_from(v, 0, 0) == width_from(v, i as int, most as int),
        decreases height - i,
    {
        assert(v[i as int].tr == rows@[i as int].tr@);
        if has_descendant(rows[i].tr, "table") {
            return None;
        }
        let w = width_of(&either_kids(rows[i].tr, "td", "th"));
        if w > most {
            most = w;
        }
        i += 1;
    }
    if height == 0 || most == 0 || most > usize::MAX as u128 {
        return None;
    }
    let width: usize = most as usize;
    let mut p = Plan {
        text: blank_cells(height, width),
        taken: blank_flags(height, width),
        head: blank_flags(height, width),
        cols: blank_flags(height, width),
        rows: blank_flags(height, width),
    };
    assert(p@ == empty_plan(height as int, width as int));
    let mut r: usize = 0;
    while r < height
        invariant
            r <= height == rows@.len(),
            v == rows_view(rows@),
            is_grid(p@.taken, height as int, width as int),
            place_rows(v, 0, width as int, empty_plan(height as int, width as int)) == place_rows(
                v,
                r as int,
                width as int,
                p@,
            ),
        decreases height - r,
    {
        assert(v[r as int].tr == rows@[r as int].tr@);
        place_row(rows[r].tr, r, rows[r].head, height, width, &mut p);
        r += 1;
    }
    let ghost plan = p@;
    let with_structure = has_flag(&p.head) || has_flag(&p.cols) || has_flag(&p.rows);
    let lines = string_grid(&p.text);
    let structure = if with_structure {
        let s = TableStructure {
            header_row: Vec::new(),
            col_header: p.head,
            row_header: Vec::new(),
            col_continuation: p.cols,
            row_continuation: p.rows,
        };
        assert(s.header_row@ =~= seq![]);
        assert(flags(s.row_header@) =~= seq![]);
        Some(s)
    } else {
        None
    };
    Some(
        Table {
            rows: lines,
            structure,
            cell_blocks: None,
            caption: None,
            caption_parent: CaptionParent::Body,
        },
    )
}

// ------------------------------------------------------------ blocks

/// The paragraphs of a caption from `i` on, each with a space behind it,
/// added to `done`; one with supplementary material drops.
pub open spec fn caption_from(v: Seq<ElementV>, i: int, done: Seq<char>) -> Seq<char>
    decreases v.len() - i,
{
    if i >= v.len() {
        done
    } else {
        caption_from(
            v,
            i + 1,
            if v[i].tag == "supplementary-material"@ || has_under(v[i], "supplementary-material"@) {
                done
            } else {
                (done + strip(raw(v[i]))).push(' ')
            },
        )
    }
}

/// The text of an element's caption.
pub open spec fn caption_text_of(e: ElementV) -> Seq<char> {
    match child_of(e, "caption"@) {
        Some(c) => strip(caption_from(child_elements_of(c), 0, seq![])),
        None => seq![],
    }
}

/// The text of an element's caption.
pub fn caption_text(e: &Element) -> (r: Vec<char>)
    ensures
        r@ == caption_text_of(e@),
{
    let mut out: Vec<char> = Vec::new();
    assert(out@ =~= seq![]);
    match child(e, "caption") {
        Some(c) => {
            let v = child_elements(c);
            let ghost w = refs_view(v@);
            let mut i: usize = 0;
            while i < v.len()
                invariant
                    i <= v@.len(),
                    w == refs_view(v@),
                    caption_from(w, 0, seq![]) == caption_from(w, i as int, out@),
                decreases v@.len() - i,
            {
                assert(w[i as int] == v@[i as int]@);
                if !(has_tag(v[i], "supplementary-material") || has_descendant(
                    v[i],
                    "supplementary-material",
                )) {
                    let t = trim(&get_text(v[i]));
                    push_all(&mut out, &t);
                    out.push(' ');
                }
                i += 1;
            }
            trim(&out)
        },
        None => out,
    }
}

/// A label and a caption in one text.
pub open spec fn labelled(label: Seq<char>, caption: Seq<char>) -> Seq<char> {
    if label.len() > 0 && caption.len() > 0 {
        label + seq![' '] + caption
    } else {
        label + caption
    }
}

fn label_caption(label: &Vec<char>, caption: &Vec<char>) -> (r: Vec<char>)
    ensures
        r@ == labelled(label@, caption@),
{
    let mut out = copy(label);
    if label.len() > 0 && caption.len() > 0 {
        out.push(' ');
    }
    push_all(&mut out, caption);
    assert(out@ =~= labelled(label@, caption@));
    out
}

/// A caption in Markdown; an empty one is none.
pub open spec fn shown_caption(s: Seq<char>) -> Option<Seq<char>> {
    if s.len() == 0 {
        None
    } else {
        Some(escaped(s))
    }
}

fn show_caption(s: &Vec<char>) -> (r: Option<String>)
    ensures
        opt(r) == shown_caption(s@),
{
    if s.len() == 0 {
        None
    } else {
        Some(string_of(&escape_text(s)))
    }
}

/// The picture of a figure: its label and caption, and the files to try for
/// its image where images are fetched.
pub open spec fn figure(e: ElementV, fetch: bool) -> NodeV {
    let label = match child_of(e, "label"@) {
        Some(l) => strip(raw(l)),
        None => seq![],
    };
    picture_view(
        shown_caption(labelled(label, caption_text_of(e))),
        if fetch {
            figure_probes(e)
        } else {
            seq![]
        },
    )
}

/// Adds the picture of a figure.
pub fn add_figure(nodes: &mut Vec<Node>, e: &Element, fetch: bool)
    ensures
        nodes_view(final(nodes)@) == nodes_view(old(nodes)@).push(figure(e@, fetch)),
{
    let label = match child(e, "label") {
        Some(l) => trim(&get_text(l)),
        None => {
            let v: Vec<char> = Vec::new();
            assert(v@ =~= seq![]);
            v
        },
    };
    let caption = show_caption(&label_caption(&label, &caption_text(e)));
    let sources = if fetch {
        strings(&load_figure_image(e))
    } else {
        let v: Vec<String> = Vec::new();
        assert(strs(v@) =~= seq![]);
        v
    };
    push_node(nodes, Node::Picture { caption, caption_href: None, caption_parent: CaptionParent::Body, sources });
}

/// The nodes with a table element's table added, under its label and
/// caption; nothing where it has no table.
pub open spec fn with_table(e: ElementV, head: bool, nodes: Seq<NodeV>) -> Seq<NodeV> {
    let inner = match child_of(e, "table"@) {
        Some(t) => Some((t, head || e.tag == "thead"@)),
        None => match child_of(e, "alternatives"@) {
            Some(a) => match child_of(a, "table"@) {
                Some(t) => Some((t, head)),
                None => None,
            },
            None => None,
        },
    };
    match inner {
        None => nodes,
        Some(x) => match table_of(x.0, x.1) {
            None => nodes,
            Some(t) => nodes.push(
                NodeV::Table(
                    TableV {
                        caption: shown_caption(
                            labelled(
                                strip(or_empty(head_opt(child_of(e, "label"@)))),
                                caption_text_of(e),
                            ),
                        ),
                        ..t
                    },
                ),
            ),
        },
    }
}

/// Adds the table of a table element.
pub fn add_table(nodes: &mut Vec<Node>, e: &Element, head: bool)
    ensures
        nodes_view(final(nodes)@) == with_table(e@, head, nodes_view(old(nodes)@)),
{
    let mut above = head;
    let inner = match child(e, "table") {
        Some(t) => {
            above = head || has_tag(e, "thead");
            Some(t)
        },
        None => match child(e, "alternatives") {
            Some(a) => child(a, "table"),
            None => None,
        },
    };
    match inner {
        None => {},
        Some(t) => match parse_jats_table(t, above) {
            None => {},
            Some(table) => {
                let label = trim(&chars_or_empty(head_of_opt(child(e, "label"))));
                let caption = show_caption(&label_caption(&label, &caption_text(e)));
                let whole = Table { caption, ..table };
                assert(table_view(whole) == (TableV { caption: opt(caption), ..table_view(table) }));
                push_node(nodes, Node::Table(whole));
            },
        },
    }
}

/// The heading level of a section at a depth: between one and six.
pub open spec fn level_of(depth: int) -> u8 {
    if depth + 1 < 1 {
        1
    } else if depth + 1 > 6 {
        6
    } else {
        (depth + 1) as u8
    }
}

/// The heading level of a section at a depth.
pub fn fw_level(depth: u8) -> (r: u8)
    ensures
        r == level_of(depth as int),
{
    if depth >= 5 {
        6
    } else {
        depth + 1
    }
}

/// One section deeper. Depths past six show alike, so they are not counted.
pub open spec fn deeper(depth: int) -> int {
    if depth >= 6 {
        6
    } else {
        depth + 1
    }
}

/// The nodes of texts as bullets from `i` on, added to `done`.
pub open spec fn bullets_from(v: Seq<Seq<char>>, i: int, done: Seq<NodeV>) -> Seq<NodeV>
    decreases v.len() - i,
{
    if i >= v.len() {
        done
    } else {
        bullets_from(v, i + 1, done.push(bullet_view(escaped(v[i]), 0)))
    }
}

/// The nodes with a group of footnotes added: a heading and a bullet for
/// each; nothing without footnotes.
pub open spec fn with_footnotes(e: ElementV, depth: int, nodes: Seq<NodeV>) -> Seq<NodeV> {
    let notes = norms_from(kids_of(e, "fn"@), 0, seq![]);
    let title = match child_of(e, "title"@) {
        Some(t) => norm(t),
        None => seq![],
    };
    if notes.len() == 0 {
        nodes
    } else {
        bullets_from(
            notes,
            0,
            nodes.push(
                NodeV::Heading {
                    level: level_of(depth + 1),
                    text: escaped(
                        if title.len() == 0 {
                            "Footnotes"@
                        } else {
                            title
                        },
                    ),
                },
            ),
        )
    }
}

/// Adds a group of footnotes.
pub fn add_footnote_group(nodes: &mut Vec<Node>, e: &Element, depth: u8)
    requires
        depth <= 6,
    ensures
        nodes_view(final(nodes)@) == with_footnotes(e@, depth as int, nodes_view(old(nodes)@)),
{
    let notes = norms(&kids(e, "fn"));
    if notes.len() == 0 {
        return;
    }
    let mut title = match child(e, "title") {
        Some(t) => norm_text(t),
        None => {
            let v: Vec<char> = Vec::new();
            assert(v@ =~= seq![]);
            v
        },
    };
    if title.len() == 0 {
        title = chars_of("Footnotes");
    }
    push_node(nodes, heading(fw_level(depth + 1), &escape_text(&title)));
    let ghost first = nodes_view(nodes@);
    let ghost v = texts(notes@);
    let mut i: usize = 0;
    while i < notes.len()
        invariant
            i <= notes@.len(),
            v == texts(notes@),
            bullets_from(v, 0, first) == bullets_from(v, i as int, nodes_view(nodes@)),
        decreases notes@.len() - i,
    {
        assert(v[i as int] == notes@[i as int]@);
        push_node(nodes, bullet(&escape_text(&notes[i]), 0));
        i += 1;
    }
}

/// What a child of a list item shows: nothing for a list.
pub open spec fn item_part(t: TreeV) -> Seq<char> {
    match t {
        TreeV::Element(e) => if e.tag == "list"@ {
            seq![]
        } else {
            strip(norm(e))
        },
        TreeV::Text(s) => strip(normalized(s)),
        TreeV::Other(s) => strip(normalized(unlined(s))),
    }
}

/// The parts of a list item from `i` on with spaces between them, added to
/// `done`.
pub open spec fn item_from(ch: Seq<TreeV>, i: int, done: Seq<char>) -> Seq<char>
    decreases ch.len() - i,
{
    if i >= ch.len() {
        done
    } else {
        let t = item_part(ch[i]);
        item_from(
            ch,
            i + 1,
            if t.len() == 0 {
                done
            } else if done.len() == 0 {
                t
            } else {
                done.push(' ') + t
            },
        )
    }
}

fn item_text(e: &Element) -> (r: Vec<char>)
    ensures
        r@ == item_from(e@.children, 0, seq![]),
{
    let ghost v = e@.children;
    let mut out: Vec<char> = Vec::new();
    let mut i: usize = 0;
    assert(out@ =~= seq![]);
    while i < e.children.len()
        invariant
            i <= e.children@.len(),
            v == trees_view(e.children@),
            item_from(v, 0, seq![]) == item_from(v, i as int, out@),
        decreases e.children@.len() - i,
    {
        assert(v[i as int] == tree_view(e.children@[i as int]));
        let t = match &e.children[i] {
            Tree::Element(c) => {
                if has_tag(c, "list") {
                    let v: Vec<char> = Vec::new();
                    assert(v@ =~= seq![]);
                    v
                } else {
                    trim(&norm_text(c))
                }
            },
            Tree::Text(s) => trim(&normalize(&chars_of(s.as_str()))),
            Tree::Other(s) => trim(&normalize(&replace_char(&chars_of(s.as_str()), '\n', ' '))),
        };
        if t.len() > 0 {
            if out.len() > 0 {
                out.push(' ');
            }
            let ghost before = out@;
            push_all(&mut out, &t);
            assert(before.len() == 0 ==> out@ =~= t@);
        }
        i += 1;
    }
    out
}

/// One level deeper, as far as a level can be counted.
pub open spec fn next_level(level: u8) -> u8 {
    if level == 255 {
        255
    } else {
        (level + 1) as u8
    }
}

/// The nodes of the list items under the children from `i` on of a list
/// (`inside`) or of a list item, added to `done`. An item's text leads, and
/// the items of the lists inside it follow one level deeper.
pub open spec fn items_from(
    ch: Seq<TreeV>,
    i: int,
    inside: bool,
    level: u8,
    done: Seq<NodeV>,
) -> Seq<NodeV>
    decreases ch, ch.len() - i,
{
    if i < 0 || i >= ch.len() {
        done
    } else {
        items_from(
            ch,
            i + 1,
            inside,
            level,
            match ch[i] {
                TreeV::Element(e) => if inside && e.tag == "list-item"@ {
                    items_from(
                        e.children,
                        0,
                        false,
                        next_level(level),
                        with_item_text(e, level, done),
                    )
                } else if !inside && e.tag == "list"@ {
                    items_from(e.children, 0, true, level, done)
                } else {
                    done
                },
                _ => done,
            },
        )
    }
}

/// The nodes with a list item's own text added, if it has some.
pub open spec fn with_item_text(e: ElementV, level: u8, done: Seq<NodeV>) -> Seq<NodeV> {
    let text = item_from(e.children, 0, seq![]);
    if text.len() == 0 {
        done
    } else {
        done.push(bullet_view(escaped(text), level))
    }
}

/// The nodes with a list item and the lists inside it added.
pub open spec fn with_item(e: ElementV, level: u8, done: Seq<NodeV>) -> Seq<NodeV> {
    items_from(e.children, 0, false, next_level(level), with_item_text(e, level, done))
}

fn add_item_text(nodes: &mut Vec<Node>, e: &Element, level: u8)
    ensures
        nodes_view(final(nodes)@) == with_item_text(e@, level, nodes_view(old(nodes)@)),
{
    let text = item_text(e);
    if text.len() > 0 {
        push_node(nodes, bullet(&escape_text(&text), level));
    }
}

fn add_items(nodes: &mut Vec<Node>, ch: &Vec<Tree>, inside: bool, level: u8)
    ensures
        nodes_view(final(nodes)@) == items_from(
            trees_view(ch@),
            0,
            inside,
            level,
            nodes_view(old(nodes)@),
        ),
    decreases ch,
{
    let ghost v = trees_view(ch@);
    let ghost first = nodes_view(nodes@);
    let mut i: usize = 0;
    while i < ch.len()
        invariant
            i <= ch@.len(),
            v == trees_view(ch@),
            items_from(v, 0, inside, level, first) == items_from(
                v,
                i as int,
                inside,
                level,
                nodes_view(nodes@),
            ),
        decreases ch@.len() - i,
    {
        assert(v[i as int] == tree_view(ch@[i as int]));
        match &ch[i] {
            Tree::Element(e) => {
                if inside && has_tag(e, "list-item") {
                    add_item_text(nodes, e, level);
                    let next: u8 = if level == 255 {
                        255
                    } else {
                        level + 1
                    };
                    add_items(nodes, &e.children, false, next);
                } else if !inside && has_tag(e, "list") {
                    add_items(nodes, &e.children, true, level);
                }
            },
            _ => {},
        }
        i += 1;
    }
}

/// Adds a list item and the lists inside it.
pub fn add_list_item(nodes: &mut Vec<Node>, e: &Element, level: u8)
    ensures
        nodes_view(final(nodes)@) == with_item(e@, level, nodes_view(old(nodes)@)),
{
    add_item_text(nodes, e, level);
    let next: u8 = if level == 255 {
        255
    } else {
        level + 1
    };
    add_items(nodes, &e.children, false, next);
}

/// The nodes with a citation added: a bullet in a list, else a paragraph.
pub open spec fn with_citation(nodes: Seq<NodeV>, list: bool, text: Seq<char>) -> Seq<NodeV> {
    if text.len() == 0 {
        nodes
    } else if list {
        nodes.push(bullet_view(escaped(text), 0))
    } else {
        nodes.push(NodeV::Paragraph { text: escaped(text) })
    }
}

/// Adds a citation.
pub fn add_citation(nodes: &mut Vec<Node>, list: bool, text: &Vec<char>)
    ensures
        nodes_view(final(nodes)@) == with_citation(nodes_view(old(nodes)@), list, text@),
{
    if text.len() > 0 {
        if list {
            push_node(nodes, bullet(&escape_text(text), 0));
        } else {
            push_node(nodes, paragraph(&escape_text(text)));
        }
    }
}

/// The nodes with a display formula added, if it has a body.
pub open spec fn with_equation(nodes: Seq<NodeV>, e: ElementV) -> Seq<NodeV> {
    match formula_body(e) {
        Some(t) => nodes.push(NodeV::Formula { latex: t, orig: t }),
        None => nodes,
    }
}

/// Adds a display formula.
pub fn add_equation(nodes: &mut Vec<Node>, e: &Element)
    ensures
        nodes_view(final(nodes)@) == with_equation(nodes_view(old(nodes)@), e@),
{
    match extract_tex_math(e) {
        Some(t) => {
            push_node(nodes, Node::Formula { latex: string_of(&t), orig: string_of(&t) });
        },
        None => {},
    }
}

/// The header of a section, or of acknowledgments that have none.
pub open spec fn header(e: ElementV) -> Option<Seq<char>> {
    let t = caption_of(e);
    if t.len() > 0 {
        Some(t)
    } else if e.tag == "ack"@ {
        Some("Acknowledgments"@)
    } else {
        None
    }
}

/// The header of a section.
pub fn header_text(e: &Element) -> (r: Option<Vec<char>>)
    ensures
        opt_chars(r) == header(e@),
{
    let t = title_or_label(e);
    if t.len() > 0 {
        Some(t)
    } else if has_tag(e, "ack") {
        Some(chars_of("Acknowledgments"))
    } else {
        None
    }
}

// ------------------------------------------------------------ the walk

/// Tags that end the text before them inside a paragraph.
pub open spec fn is_flush(tag: Seq<char>) -> bool {
    tag == "ack"@ || tag == "sec"@ || tag == "list"@ || tag == "boxed-text"@ || tag
        == "disp-formula"@ || tag == "fig"@
}

fn flushes(tag: &str) -> (r: bool)
    ensures
        r == is_flush(tag@),
{
    str_eq(tag, "ack") || str_eq(tag, "sec") || str_eq(tag, "list") || str_eq(tag, "boxed-text")
        || str_eq(tag, "disp-formula") || str_eq(tag, "fig")
}

/// What the walk knows of the elements around: whether they are a list, the
/// emphasis and link, the section depth, whether they are in a table head,
/// and whether images are fetched.
#[verifier::ext_equal]
pub struct AroundV {
    pub list: bool,
    pub fmt: Fmt,
    pub link: Option<Seq<char>>,
    pub depth: int,
    pub head: bool,
    pub fetch: bool,
}

/// What the walk knows of the elements around.
pub struct Around {
    pub list: bool,
    pub fmt: Fmt,
    pub link: Option<Vec<char>>,
    pub depth: u8,
    pub head: bool,
    pub fetch: bool,
}

impl View for Around {
    type V = AroundV;

    open spec fn view(&self) -> AroundV {
        AroundV {
            list: self.list,
            fmt: self.fmt,
            link: opt_chars(self.link),
            depth: self.depth as int,
            head: self.head,
            fetch: self.fetch,
        }
    }
}

/// The runs not yet in a paragraph, and the nodes.
#[verifier::ext_equal]
pub struct WalkV {
    pub segs: Seq<SegV>,
    pub nodes: Seq<NodeV>,
}

/// What is around the children of an element: its own emphasis and link
/// come in.
pub open spec fn inside(e: ElementV, a: AroundV) -> AroundV {
    AroundV {
        fmt: tag_fmt(a.fmt, e.tag),
        link: if e.tag == "ext-link"@ && link_target(e) is Some {
            link_target(e)
        } else {
            a.link
        },
        head: a.head || e.tag == "thead"@,
        ..a
    }
}

/// The run at the head of an element.
pub open spec fn head_segs(e: ElementV, a: AroundV) -> Seq<SegV> {
    if e.tag == "term"@ {
        seq![]
    } else {
        appended(seq![], unlined(or_empty(head(e))), a.fmt, a.link)
    }
}

/// The end of an element: a paragraph takes its runs.
pub open spec fn closed(tag: Seq<char>, w: WalkV) -> WalkV {
    if tag == "p"@ {
        WalkV { segs: seq![], nodes: emitted(w.nodes, w.segs) }
    } else {
        w
    }
}

/// Elements that are shown whole, without a walk through their children.
pub open spec fn is_whole(tag: Seq<char>) -> bool {
    tag == "list-item"@ || tag == "fig"@ || tag == "table-wrap"@ || tag
        == "supplementary-material"@ || tag == "fn-group"@ || tag == "element-citation"@ || tag
        == "mixed-citation"@ || tag == "tex-math"@ || tag == "inline-formula"@
}

/// What an element that is shown whole adds.
pub open spec fn whole(e: ElementV, a: AroundV, w: WalkV) -> WalkV {
    if e.tag == "list-item"@ {
        WalkV { nodes: with_item(e, 0, w.nodes), ..w }
    } else if e.tag == "fig"@ {
        WalkV { nodes: w.nodes.push(figure(e, a.fetch)), ..w }
    } else if e.tag == "table-wrap"@ {
        WalkV { nodes: with_table(e, a.head, w.nodes), ..w }
    } else if e.tag == "supplementary-material"@ {
        w
    } else if e.tag == "fn-group"@ {
        WalkV { nodes: with_footnotes(e, a.depth, w.nodes), ..w }
    } else if e.tag == "element-citation"@ {
        WalkV { nodes: with_citation(w.nodes, a.list, citation(e)), ..w }
    } else if e.tag == "mixed-citation"@ {
        WalkV { nodes: with_citation(w.nodes, a.list, norm(e)), ..w }
    } else if e.tag == "tex-math"@ {
        WalkV { nodes: with_equation(w.nodes, e), ..w }
    } else if e.tag == "inline-formula"@ {
        WalkV { segs: extended(w.segs, formula_segs(e, a.fmt, a.link), 0), ..w }
    } else {
        w
    }
}

/// Whether an element opens a section.
pub open spec fn opens(e: ElementV) -> bool {
    (e.tag == "sec"@ || e.tag == "ack"@) && header(e) is Some
}

/// Whether a child opens a list of references: nested ones do not.
pub open spec fn opens_refs(e: ElementV, parent: Seq<char>) -> bool {
    e.tag == "ref-list"@ && parent != "ref-list"@
}

/// The nodes with the heading that an element opens with, if any.
pub open spec fn opened(e: ElementV, parent: Seq<char>, depth: int, nodes: Seq<NodeV>) -> Seq<
    NodeV,
> {
    if opens(e) {
        nodes.push(
            NodeV::Heading { level: level_of(deeper(depth)), text: escaped(header(e)->0) },
        )
    } else if opens_refs(e, parent) {
        let t = caption_of(e);
        nodes.push(
            NodeV::Heading {
                level: 2,
                text: escaped(
                    if t.len() == 0 {
                        "References"@
                    } else {
                        t
                    },
                ),
            },
        )
    } else {
        nodes
    }
}

/// What is around a child that is walked.
pub open spec fn child_around(e: ElementV, parent: Seq<char>, a: AroundV) -> AroundV {
    inside(
        e,
        AroundV {
            list: a.list || e.tag == "list"@ || opens_refs(e, parent),
            depth: if opens(e) {
                deeper(a.depth)
            } else {
                a.depth
            },
            ..a
        },
    )
}

/// The walk through the children from `i` on of an element `tag`, whose own
/// parent is a paragraph where `in_p` is set. `a` is what is around them.
pub open spec fn linear_from(
    ch: Seq<TreeV>,
    i: int,
    tag: Seq<char>,
    in_p: bool,
    a: AroundV,
    w: WalkV,
) -> WalkV
    decreases ch, ch.len() - i,
{
    if i < 0 || i >= ch.len() {
        w
    } else {
        linear_from(
            ch,
            i + 1,
            tag,
            in_p,
            a,
            match ch[i] {
                TreeV::Element(e) => {
                    let w1 = if tag == "p"@ && is_flush(e.tag) {
                        WalkV { segs: seq![], nodes: emitted(w.nodes, w.segs) }
                    } else {
                        w
                    };
                    let w2 = if is_whole(e.tag) {
                        whole(e, a, w1)
                    } else {
                        let b = child_around(e, tag, a);
                        let r = closed(
                            e.tag,
                            linear_from(
                                e.children,
                                0,
                                e.tag,
                                tag == "p"@,
                                b,
                                WalkV {
                                    segs: head_segs(e, b),
                                    nodes: opened(e, tag, a.depth, w1.nodes),
                                },
                            ),
                        );
                        WalkV {
                            segs: if in_p && is_flush(tag) {
                                w1.segs
                            } else {
                                extended(w1.segs, r.segs, 0)
                            },
                            nodes: r.nodes,
                        }
                    };
                    WalkV {
                        segs: appended(w2.segs, unlined(or_empty(tail(ch, i))), a.fmt, a.link),
                        ..w2
                    }
                },
                _ => w,
            },
        )
    }
}

/// The walk through an element: the runs it leaves for the paragraph around
/// it, and the nodes with its own added.
pub open spec fn linear(e: ElementV, in_p: bool, b: AroundV, nodes: Seq<NodeV>) -> WalkV {
    closed(
        e.tag,
        linear_from(e.children, 0, e.tag, in_p, b, WalkV { segs: head_segs(e, b), nodes }),
    )
}

fn go_inside(e: &Element, a: &Around, list: bool, depth: u8) -> (r: Around)
    ensures
        r@ == inside(e@, (AroundV { list, depth: depth as int, ..a@ })),
{
    let own = if has_tag(e, "ext-link") {
        ext_link_href(e)
    } else {
        None
    };
    Around {
        list,
        fmt: a.fmt.with_tag(e.tag.as_str()),
        link: match own {
            Some(x) => Some(x),
            None => copy_opt(&a.link),
        },
        depth,
        head: a.head || has_tag(e, "thead"),
        fetch: a.fetch,
    }
}

fn add_whole(e: &Element, a: &Around, segs: &mut Vec<Seg>, nodes: &mut Vec<Node>) -> (r: bool)
    requires
        a.depth <= 6,
    ensures
        r == is_whole(e@.tag),
        (WalkV { segs: segs_view(final(segs)@), nodes: nodes_view(final(nodes)@) }) == if r {
            whole(
                e@,
                a@,
                WalkV { segs: segs_view(old(segs)@), nodes: nodes_view(old(nodes)@) },
            )
        } else {
            WalkV { segs: segs_view(old(segs)@), nodes: nodes_view(old(nodes)@) }
        },
{
    if has_tag(e, "list-item") {
        add_list_item(nodes, e, 0);
        true
    } else if has_tag(e, "fig") {
        add_figure(nodes, e, a.fetch);
        true
    } else if has_tag(e, "table-wrap") {
        add_table(nodes, e, a.head);
        true
    } else if has_tag(e, "supplementary-material") {
        true
    } else if has_tag(e, "fn-group") {
        add_footnote_group(nodes, e, a.depth);
        true
    } else if has_tag(e, "element-citation") {
        add_citation(nodes, a.list, &parse_element_citation(e));
        true
    } else if has_tag(e, "mixed-citation") {
        add_citation(nodes, a.list, &norm_text(e));
        true
    } else if has_tag(e, "tex-math") {
        add_equation(nodes, e);
        true
    } else if has_tag(e, "inline-formula") {
        let more = walk_inline_formula(e, a.fmt, &a.link);
        extend_segments(segs, more);
        true
    } else {
        false
    }
}

/// Walks through an element; `a` is what is around its children.
#[verifier::spinoff_prover]
#[verifier::rlimit(30)]
pub fn walk_linear(e: &Element, in_p: bool, a: &Around, nodes: &mut Vec<Node>) -> (r: Vec<Seg>)
    requires
        a.depth <= 6,
    ensures
        (WalkV { segs: segs_view(r@), nodes: nodes_view(final(nodes)@) }) == linear(
            e@,
            in_p,
            a@,
            nodes_view(old(nodes)@),
        ),
    decreases e,
{
    let tag = e.tag.as_str();
    let is_p = str_eq(tag, "p");
    let ghost want = linear_from(
        e@.children,
        0,
        e@.tag,
        in_p,
        a@,
        WalkV { segs: head_segs(e@, a@), nodes: nodes_view(nodes@) },
    );
    let mut segs: Vec<Seg> = Vec::new();
    assert(segs_view(segs@) =~= seq![]);
    if !str_eq(tag, "term") {
        let start = unline(head_of(e));
        append_run(&mut segs, &start, a.fmt, &a.link);
    }
    let ghost v = e@.children;
    let mut i: usize = 0;
    while i < e.children.len()
        invariant
            i <= e.children@.len(),
            v == trees_view(e.children@),
            a.depth <= 6,
            tag@ == e@.tag,
            is_p == (e@.tag == "p"@),
            want == linear_from(
                v,
                i as int,
                e@.tag,
                in_p,
                a@,
                (WalkV { segs: segs_view(segs@), nodes: nodes_view(nodes@) }),
            ),
        decreases e.children@.len() - i,
    {
        assert(v[i as int] == tree_view(e.children@[i as int]));
        match &e.children[i] {
            Tree::Element(c) => {
                if is_p && flushes(c.tag.as_str()) {
                    emit_inline(nodes, &segs);
                    segs = Vec::new();
                    assert(segs_view(segs@) =~= seq![]);
                }
                if !add_whole(c, a, &mut segs, nodes) {
                    let mut list = a.list || has_tag(c, "list");
                    let mut depth: u8 = a.depth;
                    if has_tag(c, "sec") || has_tag(c, "ack") {
                        match header_text(c) {
                            Some(text) => {
                                depth = if a.depth >= 6 {
                                    6
                                } else {
                                    a.depth + 1
                                };
                                push_node(nodes, heading(fw_level(depth), &escape_text(&text)));
                            },
                            None => {},
                        }
                    } else if has_tag(c, "ref-list") && !str_eq(tag, "ref-list") {
                        let mut text = title_or_label(c);
                        if text.len() == 0 {
                            text = chars_of("References");
                        }
                        push_node(nodes, heading(2, &escape_text(&text)));
                        list = true;
                    }
                    let b = go_inside(c, a, list, depth);
                    proof {
                        reveal_strlit("sec");
                        reveal_strlit("ack");
                        reveal_strlit("ref-list");
                        assert("sec"@.len() == 3 && "ack"@.len() == 3 && "ref-list"@.len() == 8);
                    }
                    assert(b@ == child_around(c@, e@.tag, a@));
                    let more = walk_linear(c, is_p, &b, nodes);
                    if !(in_p && flushes(tag)) {
                        extend_segments(&mut segs, more);
                    }
                }
                let rest = unline(tail_of(&e.children, i));
                append_run(&mut segs, &rest, a.fmt, &a.link);
            },
            _ => {},
        }
        i += 1;
    }
    if is_p {
        emit_inline(nodes, &segs);
        segs = Vec::new();
        assert(segs_view(segs@) =~= seq![]);
    }
    segs
}

// ------------------------------------------------------------ documents

/// The first element with a tag under the children from `i` on, in document
/// order, and whether it is in a table head.
pub open spec fn placed_from(ch: Seq<TreeV>, i: int, tag: Seq<char>, head: bool) -> Option<
    (ElementV, bool),
>
    decreases ch, ch.len() - i,
{
    if i < 0 || i >= ch.len() {
        None
    } else {
        match ch[i] {
            TreeV::Element(e) => if e.tag == tag {
                Some((e, head))
            } else {
                match placed_from(e.children, 0, tag, head || e.tag == "thead"@) {
                    Some(x) => Some(x),
                    None => placed_from(ch, i + 1, tag, head),
                }
            },
            _ => placed_from(ch, i + 1, tag, head),
        }
    }
}

/// The first element with a tag in a document.
pub open spec fn placed(root: ElementV, tag: Seq<char>) -> Option<(ElementV, bool)> {
    if root.tag == tag {
        Some((root, false))
    } else {
        placed_from(root.children, 0, tag, root.tag == "thead"@)
    }
}

/// View of a placed element.
pub open spec fn placed_view(o: Option<(&Element, bool)>) -> Option<(ElementV, bool)> {
    match o {
        Some(x) => Some((x.0@, x.1)),
        None => None,
    }
}

fn find_from_here<'a>(ch: &'a Vec<Tree>, tag: &str, head: bool) -> (r: Option<(&'a Element, bool)>)
    ensures
        placed_view(r) == placed_from(trees_view(ch@), 0, tag@, head),
    decreases ch,
{
    let ghost v = trees_view(ch@);
    let mut i: usize = 0;
    while i < ch.len()
        invariant
            i <= ch@.len(),
            v == trees_view(ch@),
            placed_from(v, 0, tag@, head) == placed_from(v, i as int, tag@, head),
        decreases ch@.len() - i,
    {
        assert(v[i as int] == tree_view(ch@[i as int]));
        match &ch[i] {
            Tree::Element(e) => {
                if has_tag(e, tag) {
                    return Some((e, head));
                }
                match find_from_here(&e.children, tag, head || has_tag(e, "thead")) {
                    Some(x) => {
                        return Some(x);
                    },
                    None => {},
                }
            },
            _ => {},
        }
        i += 1;
    }
    None
}

fn find_place<'a>(root: &'a Element, tag: &str) -> (r: Option<(&'a Element, bool)>)
    ensures
        placed_view(r) == placed(root@, tag@),
{
    if has_tag(root, tag) {
        Some((root, false))
    } else {
        find_from_here(&root.children, tag, has_tag(root, "thead"))
    }
}

/// The nodes with a part of the article (its body or back matter) added.
pub open spec fn with_matter(root: ElementV, tag: Seq<char>, fetch: bool, nodes: Seq<NodeV>) -> Seq<
    NodeV,
> {
    match placed(root, tag) {
        Some(x) => linear(
            x.0,
            false,
            inside(
                x.0,
                AroundV {
                    list: false,
                    fmt: no_fmt(),
                    link: None,
                    depth: 0,
                    head: x.1,
                    fetch,
                },
            ),
            nodes,
        ).nodes,
        None => nodes,
    }
}

fn add_matter(root: &Element, tag: &str, fetch: bool, nodes: &mut Vec<Node>)
    ensures
        nodes_view(final(nodes)@) == with_matter(root@, tag@, fetch, nodes_view(old(nodes)@)),
{
    match find_place(root, tag) {
        Some(x) => {
            let base = Around {
                list: false,
                fmt: Fmt {
                    bold: false,
                    italic: false,
                    underline: false,
                    strike: false,
                    script: Script::Baseline,
                },
                link: None,
                depth: 0,
                head: x.1,
                fetch,
            };
            let a = go_inside(x.0, &base, false, 0);
            let _rest = walk_linear(x.0, false, &a, nodes);
        },
        None => {},
    }
}

/// The nodes with a line of names added, if there are some.
pub open spec fn with_names(nodes: Seq<NodeV>, names: Seq<Seq<char>>, sep: Seq<char>) -> Seq<NodeV> {
    if names.len() == 0 {
        nodes
    } else {
        nodes.push(NodeV::Paragraph { text: escaped(joined(names, sep)) })
    }
}

fn add_names(nodes: &mut Vec<Node>, names: &Vec<Vec<char>>, sep: &str)
    ensures
        nodes_view(final(nodes)@) == with_names(nodes_view(old(nodes)@), texts(names@), sep@),
{
    if names.len() > 0 {
        push_node(nodes, paragraph(&escape_text(&join(names, sep))));
    }
}

/// The nodes of an article: its title, authors, affiliations and abstracts,
/// then its body and its back matter.
pub open spec fn article(root: ElementV, fetch: bool) -> Seq<NodeV> {
    let title = article_title(root);
    let a = if title.len() == 0 {
        seq![]
    } else {
        seq![NodeV::Heading { level: 1, text: escaped(title) }]
    };
    let b = with_names(a, credits(root).authors, ", "@);
    let c = with_names(b, credits(root).affiliations, "; "@);
    let d = abstracts_from(self_and_under(root), 0, c);
    with_matter(root, "back"@, fetch, with_matter(root, "body"@, fetch, d))
}

/// Whether `b` is `a` with nodes behind it, of which no picture names a source
/// unless images are fetched.
pub open spec fn adds_nodes(a: Seq<NodeV>, b: Seq<NodeV>, fetch: bool) -> bool {
    &&& a.len() <= b.len()
    &&& forall|i: int| 0 <= i < a.len() ==> #[trigger] b[i] == a[i]
    &&& forall|i: int| a.len() <= i < b.len() && !fetch ==> names_no_source(#[trigger] b[i])
}

proof fn paragraphs_add_nodes(v: Seq<Seq<char>>, i: int, nodes: Seq<NodeV>, fetch: bool)
    ensures
        adds_nodes(nodes, paragraphs_from(v, i, nodes), fetch),
    decreases v.len() - i,
{
    if i < v.len() {
        paragraphs_add_nodes(v, i + 1, nodes.push(NodeV::Paragraph { text: escaped(v[i]) }), fetch);
    }
}

proof fn bullets_add_nodes(v: Seq<Seq<char>>, i: int, nodes: Seq<NodeV>, fetch: bool)
    ensures
        adds_nodes(nodes, bullets_from(v, i, nodes), fetch),
    decreases v.len() - i,
{
    if i < v.len() {
        bullets_add_nodes(v, i + 1, nodes.push(bullet_view(escaped(v[i]), 0)), fetch);
    }
}

proof fn sections_add_nodes(secs: Seq<ElementV>, i: int, nodes: Seq<NodeV>, fetch: bool)
    ensures
        adds_nodes(nodes, sections_from(secs, i, nodes), fetch),
    decreases secs.len() - i,
{
    if i < secs.len() {
        let paragraphs = norms_from(kids_of(secs[i], "p"@), 0, seq![]);
        let title = caption_of(secs[i]);
        if paragraphs.len() == 0 {
            sections_add_nodes(secs, i + 1, nodes, fetch);
        } else {
            let one = if title.len() == 0 {
                nodes
            } else {
                nodes.push(NodeV::Heading { level: 3, text: escaped(title) })
            };
            paragraphs_add_nodes(paragraphs, 0, one, fetch);
            sections_add_nodes(secs, i + 1, paragraphs_from(paragraphs, 0, one), fetch);
        }
    }
}

proof fn items_add_nodes(
    ch: Seq<TreeV>,
    i: int,
    inside: bool,
    level: u8,
    nodes: Seq<NodeV>,
    fetch: bool,
)
    ensures
        adds_nodes(nodes, items_from(ch, i, inside, level, nodes), fetch),
    decreases ch, ch.len() - i,
{
    if 0 <= i < ch.len() {
        match ch[i] {
            TreeV::Element(e) => if inside && e.tag == "list-item"@ {
                let one = with_item_text(e, level, nodes);
                let next = next_level(level);
                items_add_nodes(e.children, 0, false, next, one, fetch);
                let two = items_from(e.children, 0, false, next, one);
                items_add_nodes(ch, i + 1, inside, level, two, fetch);
            } else if !inside && e.tag == "list"@ {
                items_add_nodes(e.children, 0, true, level, nodes, fetch);
                let one = items_from(e.children, 0, true, level, nodes);
                items_add_nodes(ch, i + 1, inside, level, one, fetch);
            } else {
                items_add_nodes(ch, i + 1, inside, level, nodes, fetch);
            },
            _ => items_add_nodes(ch, i + 1, inside, level, nodes, fetch),
        }
    }
}

proof fn whole_elements_add_nodes(e: ElementV, a: AroundV, w: WalkV)
    ensures
        adds_nodes(w.nodes, whole(e, a, w).nodes, a.fetch),
{
    if e.tag == "list-item"@ {
        let one = with_item_text(e, 0, w.nodes);
        items_add_nodes(e.children, 0, false, next_level(0), one, a.fetch);
    } else if e.tag == "fn-group"@ {
        let notes = norms_from(kids_of(e, "fn"@), 0, seq![]);
        if notes.len() > 0 {
            let title = match child_of(e, "title"@) {
                Some(t) => norm(t),
                None => seq![],
            };
            let text = escaped(
                if title.len() == 0 {
                    "Footnotes"@
                } else {
                    title
                },
            );
            let one = w.nodes.push(NodeV::Heading { level: level_of(a.depth + 1), text });
            bullets_add_nodes(notes, 0, one, a.fetch);
        }
    }
}

/// The walk through an article only adds nodes: what it has made stays, and
/// unless images are fetched no picture that it adds names a source.
pub proof fn the_walk_only_adds(
    ch: Seq<TreeV>,
    i: int,
    tag: Seq<char>,
    in_p: bool,
    a: AroundV,
    w: WalkV,
)
    ensures
        adds_nodes(w.nodes, linear_from(ch, i, tag, in_p, a, w).nodes, a.fetch),
    decreases ch, ch.len() - i,
{
    if 0 <= i < ch.len() {
        match ch[i] {
            TreeV::Element(e) => {
                let w1 = if tag == "p"@ && is_flush(e.tag) {
                    WalkV { segs: seq![], nodes: emitted(w.nodes, w.segs) }
                } else {
                    w
                };
                assert(adds_nodes(w.nodes, w1.nodes, a.fetch));
                let w2 = if is_whole(e.tag) {
                    whole_elements_add_nodes(e, a, w1);
                    whole(e, a, w1)
                } else {
                    let b = child_around(e, tag, a);
                    let first = WalkV {
                        segs: head_segs(e, b),
                        nodes: opened(e, tag, a.depth, w1.nodes),
                    };
                    the_walk_only_adds(e.children, 0, e.tag, tag == "p"@, b, first);
                    let r = closed(
                        e.tag,
                        linear_from(e.children, 0, e.tag, tag == "p"@, b, first),
                    );
                    WalkV {
                        segs: if in_p && is_flush(tag) {
                            w1.segs
                        } else {
                            extended(w1.segs, r.segs, 0)
                        },
                        nodes: r.nodes,
                    }
                };
                assert(adds_nodes(w1.nodes, w2.nodes, a.fetch));
                let w3 = WalkV {
                    segs: appended(w2.segs, unlined(or_empty(tail(ch, i))), a.fmt, a.link),
                    ..w2
                };
                the_walk_only_adds(ch, i + 1, tag, in_p, a, w3);
            },
            _ => the_walk_only_adds(ch, i + 1, tag, in_p, a, w),
        }
    }
}

/// The abstracts of an article come behind what is there.
pub proof fn abstracts_add_nodes(v: Seq<ElementV>, i: int, nodes: Seq<NodeV>, fetch: bool)
    ensures
        adds_nodes(nodes, abstracts_from(v, i, nodes), fetch),
    decreases v.len() - i,
{
    if i < v.len() {
        if v[i].tag == "abstract"@ {
            let label = caption_of(v[i]);
            let text = escaped(
                if label.len() == 0 {
                    "Abstract"@
                } else {
                    label
                },
            );
            let one = nodes.push(NodeV::Heading { level: 2, text });
            sections_add_nodes(kids_of(v[i], "sec"@), 0, one, fetch);
            assert(adds_nodes(nodes, abstract_nodes(v[i], nodes), fetch));
            abstracts_add_nodes(v, i + 1, abstract_nodes(v[i], nodes), fetch);
        } else {
            abstracts_add_nodes(v, i + 1, nodes, fetch);
        }
    }
}

/// The body and the back matter of an article come behind what is there.
pub proof fn matter_adds_nodes(root: ElementV, tag: Seq<char>, fetch: bool, nodes: Seq<NodeV>)
    ensures
        adds_nodes(nodes, with_matter(root, tag, fetch, nodes), fetch),
{
    match placed(root, tag) {
        Some(x) => {
            let base = AroundV {
                list: false,
                fmt: no_fmt(),
                link: None,
                depth: 0,
                head: x.1,
                fetch,
            };
            let b = inside(x.0, base);
            let first = WalkV { segs: head_segs(x.0, b), nodes };
            the_walk_only_adds(x.0.children, 0, x.0.tag, false, b, first);
        },
        None => {},
    }
}

/// Without fetching, or without a directory to look in, no picture of an
/// article names a source.
pub proof fn articles_name_no_source_unasked(root: ElementV)
    ensures
        name_no_source(article(root, false)),
{
    let title = article_title(root);
    let a = if title.len() == 0 {
        seq![]
    } else {
        seq![NodeV::Heading { level: 1, text: escaped(title) }]
    };
    let c = with_names(
        with_names(a, credits(root).authors, ", "@),
        credits(root).affiliations,
        "; "@,
    );
    assert(name_no_source(c));
    let d = abstracts_from(self_and_under(root), 0, c);
    abstracts_add_nodes(self_and_under(root), 0, c, false);
    assert(name_no_source(d));
    let body = with_matter(root, "body"@, false, d);
    matter_adds_nodes(root, "body"@, false, d);
    assert(name_no_source(body));
    matter_adds_nodes(root, "back"@, false, body);
}

/// The JATS backend. With `fetch_images` a figure lists the files that may
/// hold its image; without, it has none.
pub struct JatsBackend {
    pub fetch_images: bool,
}

impl JatsBackend {
    /// The nodes of an article's tree. `local` says that the article is a
    /// file with a directory in which its figures can be looked up.
    pub fn convert_tree(&self, root: &Element, local: bool) -> (r: Vec<Node>)
        ensures
            nodes_view(r@) == article(root@, self.fetch_images && local),
    {
        let fetch = self.fetch_images && local;
        let mut nodes: Vec<Node> = Vec::new();
        assert(nodes_view(nodes@) =~= seq![]);
        let title = parse_title(root);
        if title.len() > 0 {
            push_node(&mut nodes, heading(1, &escape_text(&title)));
        }
        assert(title@.len() > 0 ==> nodes_view(nodes@)
            =~= seq![NodeV::Heading { level: 1, text: escaped(title@) }]);
        let (authors, affiliations) = parse_authors(root);
        add_names(&mut nodes, &authors, ", ");
        add_names(&mut nodes, &affiliations, "; ");
        parse_abstracts(root, &mut nodes);
        add_matter(root, "body", fetch, &mut nodes);
        add_matter(root, "back", fetch, &mut nodes);
        nodes
    }

    /// The nodes of an article's XML text.
    pub fn convert(&self, xml: &str, local: bool) -> (r: Result<Vec<Node>, XmlError>)
        ensures
            match xml_items(xml@, true) {
                Err(e) => r matches Err(XmlError::Syntax(x)) && x@ == e,
                Ok(items) => match root_of(items) {
                    None => r matches Err(XmlError::NoRoot),
                    Some(root) => r matches Ok(nodes) && nodes_view(nodes@) == article(
                        root,
                        self.fetch_images && local,
                    ),
                },
            },
    {
        match parse_xml(xml, true) {
            Err(e) => Err(e),
            Ok(root) => Ok(self.convert_tree(&root, local)),
        }
    }
}

/// Whether an element has text of its own that is not white, from child `i`
/// on.
pub open spec fn has_text(ch: Seq<TreeV>, i: int) -> bool
    decreases ch.len() - i,
{
    if i >= ch.len() {
        false
    } else {
        (ch[i] is Text && strip(ch[i]->Text_0).len() > 0) || has_text(ch, i + 1)
    }
}

/// Whether an element is one text item: it has no elements inside, or text
/// between them.
pub open spec fn is_text_item(e: ElementV) -> bool {
    child_elements_of(e).len() == 0 || has_text(e.children, 0)
}

fn has_own_text(e: &Element) -> (r: bool)
    ensures
        r == has_text(e@.children, 0),
{
    let ghost v = e@.children;
    let mut i: usize = 0;
    while i < e.children.len()
        invariant
            i <= e.children@.len(),
            v == trees_view(e.children@),
            has_text(v, 0) == has_text(v, i as int),
        decreases e.children@.len() - i,
    {
        assert(v[i as int] == tree_view(e.children@[i as int]));
        match &e.children[i] {
            Tree::Text(s) => {
                if trim(&chars_of(s.as_str())).len() > 0 {
                    return true;
                }
            },
            _ => {},
        }
        i += 1;
    }
    false
}

/// The nodes of the elements under the children from `i` on of an XML
/// document of any kind, added to `done`.
pub open spec fn generic_from(ch: Seq<TreeV>, i: int, head: bool, done: Seq<NodeV>) -> Seq<NodeV>
    decreases ch, ch.len() - i,
{
    if i < 0 || i >= ch.len() {
        done
    } else {
        generic_from(
            ch,
            i + 1,
            head,
            match ch[i] {
                TreeV::Element(e) => if e.tag == "table-wrap"@ {
                    with_table(e, head, done)
                } else if e.tag == "table"@ {
                    match table_of(e, head) {
                        Some(t) => done.push(NodeV::Table(t)),
                        None => done,
                    }
                } else if is_text_item(e) {
                    let t = normalized(sanitized(spaced_from(e.children, 0, seq![])));
                    if strip(t).len() == 0 {
                        done
                    } else {
                        done.push(NodeV::Paragraph { text: escaped(t) })
                    }
                } else {
                    generic_from(e.children, 0, head || e.tag == "thead"@, done)
                },
                _ => done,
            },
        )
    }
}

fn walk_generic(ch: &Vec<Tree>, head: bool, nodes: &mut Vec<Node>)
    ensures
        nodes_view(final(nodes)@) == generic_from(trees_view(ch@), 0, head, nodes_view(old(nodes)@)),
    decreases ch,
{
    let ghost v = trees_view(ch@);
    let ghost first = nodes_view(nodes@);
    let mut i: usize = 0;
    while i < ch.len()
        invariant
            i <= ch@.len(),
            v == trees_view(ch@),
            generic_from(v, 0, head, first) == generic_from(v, i as int, head, nodes_view(nodes@)),
        decreases ch@.len() - i,
    {
        assert(v[i as int] == tree_view(ch@[i as int]));
        match &ch[i] {
            Tree::Element(e) => {
                if has_tag(e, "table-wrap") {
                    add_table(nodes, e, head);
                } else if has_tag(e, "table") {
                    match parse_jats_table(e, head) {
                        Some(t) => {
                            push_node(nodes, Node::Table(t));
                        },
                        None => {},
                    }
                } else if child_elements(e).len() == 0 || has_own_text(e) {
                    let mut text: Vec<char> = Vec::new();
                    assert(text@ =~= seq![]);
                    generic_text(&e.children, &mut text);
                    let t = normalize(&sanitize_generic(&text));
                    if trim(&t).len() > 0 {
                        push_node(nodes, paragraph(&escape_text(&t)));
                    }
                } else {
                    walk_generic(&e.children, head || has_tag(e, "thead"), nodes);
                }
            },
            _ => {},
        }
        i += 1;
    }
}

/// The nodes of an XML document of any kind: a text for every element with
/// text of its own, in document order, and its tables.
pub open spec fn generic(root: ElementV) -> Seq<NodeV> {
    generic_from(root.children, 0, root.tag == "thead"@, seq![])
}

/// The nodes of an XML text of any kind.
pub fn convert_generic(xml: &str) -> (r: Result<Vec<Node>, XmlError>)
    ensures
        match xml_items(xml@, true) {
            Err(e) => r matches Err(XmlError::Syntax(x)) && x@ == e,
            Ok(items) => match root_of(items) {
                None => r matches Err(XmlError::NoRoot),
                Some(root) => r matches Ok(nodes) && nodes_view(nodes@) == generic(root),
            },
        },
{
    match parse_xml(xml, true) {
        Err(e) => Err(e),
        Ok(root) => Ok(convert_generic_tree(&root)),
    }
}

/// The nodes of the tree of an XML document of any kind.
pub fn convert_generic_tree(root: &Element) -> (r: Vec<Node>)
    ensures
        nodes_view(r@) == generic(root@),
{
    let mut nodes: Vec<Node> = Vec::new();
    assert(nodes_view(nodes@) =~= seq![]);
    walk_generic(&root.children, has_tag(root, "thead"), &mut nodes);
    nodes
}

} // verus!
