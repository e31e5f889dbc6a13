//! Pages documents of the older kind, which are one XML text.
//!
//! Styles are named by identifier: the first element of a kind with an
//! identifier is the style that the identifier names.

use crate::celltable::{cell_table, grid_table, text_cells, text_cells_push, TextCell, TextCellV};
use crate::document::{table_view, Script, Table, TableV};
use crate::jats::{copy_opt, opt_chars};
use crate::pages::{
    blocks_view, blocks_view_push, clean, cleaned, comments_view, formatting, label_for_style,
    label_view, paragraphs_view, paragraphs_view_push, run_views, run_views_push, runs_text, script,
    script_of, style_kind, style_label, trim, trimmed, unique_from, unique_paragraphs, Block,
    BlockV, Comment, CommentV, Content, ContentV, Formatting, Label, ListLabel, ListLabelV,
    ListStyle, ListStyleV, Paragraph, ParagraphV, Run, RunV, LABEL_TYPE_NONE, LABEL_TYPE_NUMBER,
    LABEL_TYPE_STRING,
};
use crate::parse::{parse_xml, xml_items, XmlError};
use crate::text::{
    chars_of, chars_or_empty, is, join, joined, or_empty, parse_uint, same, str_eq, string_of,
    strip, texts, texts_push, uint, uint_is_positive,
};
use crate::tree::{
    all_text, child_elements, child_elements_of, opt_str, plain_attr, plain_attr_of, ref_view,
    refs_view, refs_view_push, root_of, self_and_descendants, self_and_under, spaced_attr,
    spaced_attr_of, text_of, tree_view, trees_view, Element, ElementV, Tree, TreeV,
};
use vstd::prelude::*;
use vstd::utf8::{decode_utf8, valid_utf8};

verus! {

// ------------------------------------------------------------ elements

/// Whether an element is one of the format with a name.
pub open spec fn is_sf(e: ElementV, name: Seq<char>) -> bool {
    e.namespace == "http://developer.apple.com/namespaces/sf"@ && e.tag == name
}

fn has_sf(e: &Element, name: &str) -> (r: bool)
    ensures
        r == is_sf(e@, name@),
{
    str_eq(e.namespace.as_str(), "http://developer.apple.com/namespaces/sf") && str_eq(
        e.tag.as_str(),
        name,
    )
}

/// An attribute of the format.
pub open spec fn sf(e: ElementV, name: Seq<char>) -> Option<Seq<char>> {
    spaced_attr_of(e, "http://developer.apple.com/namespaces/sf"@, name)
}

/// An attribute of the format's archive.
pub open spec fn sfa(e: ElementV, name: Seq<char>) -> Option<Seq<char>> {
    spaced_attr_of(e, "http://developer.apple.com/namespaces/sfa"@, name)
}

fn get_sf<'a>(e: &'a Element, name: &str) -> (r: Option<&'a str>)
    ensures
        opt_str(r) == sf(e@, name@),
{
    spaced_attr(e, "http://developer.apple.com/namespaces/sf", name)
}

fn get_sfa<'a>(e: &'a Element, name: &str) -> (r: Option<&'a str>)
    ensures
        opt_str(r) == sfa(e@, name@),
{
    spaced_attr(e, "http://developer.apple.com/namespaces/sfa", name)
}

/// An attribute that may or may not be qualified.
pub open spec fn either_attr(e: ElementV, name: Seq<char>) -> Option<Seq<char>> {
    match sf(e, name) {
        Some(v) => Some(v),
        None => plain_attr_of(e, name),
    }
}

fn get_either<'a>(e: &'a Element, name: &str) -> (r: Option<&'a str>)
    ensures
        opt_str(r) == either_attr(e@, name@),
{
    match get_sf(e, name) {
        Some(v) => Some(v),
        None => plain_attr(e, name),
    }
}

/// The number that an attribute of the format holds.
pub open spec fn int_attr(e: ElementV, name: Seq<char>) -> Option<int> {
    match sf(e, name) {
        Some(v) => uint(strip(v), usize::MAX as int),
        None => None,
    }
}

fn get_int(e: &Element, name: &str) -> (r: Option<usize>)
    ensures
        match int_attr(e@, name@) {
            Some(n) => r matches Some(x) && x == n,
            None => r is None,
        },
{
    match get_sf(e, name) {
        Some(v) => {
            let t = crate::text::trim(&chars_of(v));
            match parse_uint(&t, usize::MAX as u128) {
                Some(n) => {
                    proof {
                        uint_is_positive(t@, usize::MAX as int);
                    }
                    Some(n as usize)
                },
                None => None,
            }
        },
        None => None,
    }
}

/// The elements with a name from `i` on, added to `done`.
pub open spec fn named_from(v: Seq<ElementV>, i: int, name: Seq<char>, done: Seq<ElementV>) -> Seq<
    ElementV,
>
    decreases v.len() - i,
{
    if i >= v.len() {
        done
    } else {
        named_from(
            v,
            i + 1,
            name,
            if is_sf(v[i], name) {
                done.push(v[i])
            } else {
                done
            },
        )
    }
}

/// The elements with a name in an element, itself counted.
pub open spec fn named(e: ElementV, name: Seq<char>) -> Seq<ElementV> {
    named_from(self_and_under(e), 0, name, seq![])
}

fn find_named<'a>(e: &'a Element, name: &str) -> (r: Vec<&'a Element>)
    ensures
        refs_view(r@) == named(e@, name@),
{
    let v = self_and_descendants(e);
    let ghost w = refs_view(v@);
    let mut out: Vec<&'a Element> = Vec::new();
    let mut i: usize = 0;
    assert(refs_view(out@) =~= seq![]);
    while i < v.len()
        invariant
            i <= v@.len(),
            w == refs_view(v@),
            named_from(w, 0, name@, seq![]) == named_from(w, i as int, name@, refs_view(out@)),
        decreases v@.len() - i,
    {
        broadcast use refs_view_push;

        assert(w[i as int] == v@[i as int]@);
        if has_sf(v[i], name) {
            out.push(v[i]);
        }
        i += 1;
    }
    out
}

/// The first style from `i` on that an identifier names.
pub open spec fn style_named(v: Seq<ElementV>, i: int, key: Seq<char>) -> Option<ElementV>
    decreases v.len() - i,
{
    if i >= v.len() {
        None
    } else if sf(v[i], "ident"@) == Some(key) || sfa(v[i], "ID"@) == Some(key) {
        Some(v[i])
    } else {
        style_named(v, i + 1, key)
    }
}

fn find_style<'a>(v: &Vec<&'a Element>, key: &str) -> (r: Option<&'a Element>)
    ensures
        ref_view(r) == style_named(refs_view(v@), 0, key@),
{
    let ghost w = refs_view(v@);
    let mut i: usize = 0;
    while i < v.len()
        invariant
            i <= v@.len(),
            w == refs_view(v@),
            style_named(w, 0, key@) == style_named(w, i as int, key@),
        decreases v@.len() - i,
    {
        assert(w[i as int] == v@[i as int]@);
        let by_ident = match get_sf(v[i], "ident") {
            Some(s) => str_eq(s, key),
            None => false,
        };
        let by_id = match get_sfa(v[i], "ID") {
            Some(s) => str_eq(s, key),
            None => false,
        };
        if by_ident || by_id {
            return Some(v[i]);
        }
        i += 1;
    }
    None
}

// ------------------------------------------------------------ formatting

/// The whole part of a number that a text holds.
pub struct Whole {
    pub text: Vec<char>,
    pub value: u64,
}

/// View of a [`Whole`].
#[verifier::ext_equal]
pub struct WholeV {
    pub text: Seq<char>,
    pub value: u64,
}

impl View for Whole {
    type V = WholeV;

    open spec fn view(&self) -> WholeV {
        WholeV { text: self.text@, value: self.value }
    }
}

/// Views of whole parts.
pub open spec fn wholes_view(v: Seq<Whole>) -> Seq<WholeV> {
    Seq::new(v.len(), |i: int| v[i]@)
}

/// The whole part of a text from `i` on; zero where it is not listed.
pub open spec fn whole_of(v: Seq<WholeV>, i: int, t: Seq<char>) -> u64
    decreases v.len() - i,
{
    if i >= v.len() {
        0
    } else if v[i].text == t {
        v[i].value
    } else {
        whole_of(v, i + 1, t)
    }
}

fn find_whole(v: &Vec<Whole>, t: &Vec<char>) -> (r: u64)
    ensures
        r == whole_of(wholes_view(v@), 0, t@),
{
    let ghost w = wholes_view(v@);
    let mut i: usize = 0;
    while i < v.len()
        invariant
            i <= v@.len(),
            w == wholes_view(v@),
            whole_of(w, 0, t@) == whole_of(w, i as int, t@),
        decreases v@.len() - i,
    {
        assert(w[i as int] == v@[i as int]@);
        if same(&v[i].text, t) {
            return v[i].value;
        }
        i += 1;
    }
    0
}

/// The number of the first of the elements from `i` on that has one.
pub open spec fn first_number(v: Seq<ElementV>, i: int) -> Option<Seq<char>>
    decreases v.len() - i,
{
    if i >= v.len() {
        None
    } else {
        match sfa(v[i], "number"@) {
            Some(n) => Some(n),
            None => first_number(v, i + 1),
        }
    }
}

/// Whether the text from `i` on is made of zeros around at most one point.
/// `point` and `zero` say that one came before.
pub open spec fn zeros_from(t: Seq<char>, i: int, point: bool, zero: bool) -> bool
    decreases t.len() - i,
{
    if i >= t.len() {
        zero
    } else if t[i] == '0' {
        zeros_from(t, i + 1, point, true)
    } else {
        t[i] == '.' && !point && zeros_from(t, i + 1, true, zero)
    }
}

/// Whether a number is written as a zero, such as `0`, `0.0` or `-0`.
pub open spec fn is_zero(n: Seq<char>) -> bool {
    let t = strip(n);
    zeros_from(
        t,
        if t.len() > 0 && (t[0] == '-' || t[0] == '+') {
            1
        } else {
            0
        },
        false,
        false,
    )
}

fn zero(n: &Vec<char>) -> (r: bool)
    ensures
        r == is_zero(n@),
{
    let t = crate::text::trim(n);
    let mut i: usize = if t.len() > 0 && (t[0] == '-' || t[0] == '+') {
        1
    } else {
        0
    };
    let mut point = false;
    let mut found = false;
    while i < t.len()
        invariant
            i <= t@.len(),
            t@ == strip(n@),
            is_zero(n@) == zeros_from(t@, i as int, point, found),
        decreases t@.len() - i,
    {
        if t[i] == '0' {
            found = true;
        } else if t[i] == '.' && !point {
            point = true;
        } else {
            return false;
        }
        i += 1;
    }
    found
}

/// The number that a property is set to; none where it is zero.
pub open spec fn property(e: ElementV) -> Option<Seq<char>> {
    match first_number(child_elements_of(e), 0) {
        Some(n) => if is_zero(n) {
            None
        } else {
            Some(n)
        },
        None => None,
    }
}

fn get_property(e: &Element) -> (r: Option<Vec<char>>)
    ensures
        opt_chars(r) == property(e@),
{
    let v = child_elements(e);
    let ghost w = refs_view(v@);
    let mut i: usize = 0;
    while i < v.len()
        invariant
            i <= v@.len(),
            w == refs_view(v@),
            w == child_elements_of(e@),
            first_number(w, 0) == first_number(w, i as int),
        decreases v@.len() - i,
    {
        assert(w[i as int] == v@[i as int]@);
        match get_sfa(v[i], "number") {
            Some(n) => {
                let t = chars_of(n);
                if zero(&t) {
                    return None;
                }
                return Some(t);
            },
            None => {},
        }
        i += 1;
    }
    None
}

/// What the properties say.
#[verifier::ext_equal]
pub struct MarksV {
    pub bold: bool,
    pub italic: bool,
    pub underline: bool,
    pub strike: bool,
    pub script: Option<Script>,
}

/// What the elements from `i` on say, on top of `m`.
pub open spec fn marks_from(v: Seq<ElementV>, i: int, wholes: Seq<WholeV>, m: MarksV) -> MarksV
    decreases v.len() - i,
{
    if i >= v.len() {
        m
    } else {
        marks_from(
            v,
            i + 1,
            wholes,
            match property(v[i]) {
                None => m,
                Some(n) => if is_sf(v[i], "bold"@) {
                    MarksV { bold: true, ..m }
                } else if is_sf(v[i], "italic"@) {
                    MarksV { italic: true, ..m }
                } else if is_sf(v[i], "underline"@) {
                    MarksV { underline: true, ..m }
                } else if is_sf(v[i], "strikethru"@) {
                    MarksV { strike: true, ..m }
                } else if is_sf(v[i], "superscript"@) {
                    MarksV { script: script(whole_of(wholes, 0, n)), ..m }
                } else {
                    m
                },
            },
        )
    }
}

/// The formatting of a character style.
pub open spec fn style_format(e: ElementV, wholes: Seq<WholeV>) -> Option<Formatting> {
    let m = marks_from(
        self_and_under(e),
        0,
        wholes,
        MarksV { bold: false, italic: false, underline: false, strike: false, script: None },
    );
    formatting(m.bold, m.italic, m.underline, m.strike, m.script)
}

fn legacy_formatting(e: &Element, wholes: &Vec<Whole>) -> (r: Option<Formatting>)
    ensures
        r == style_format(e@, wholes_view(wholes@)),
{
    let v = self_and_descendants(e);
    let ghost w = refs_view(v@);
    let ghost n = wholes_view(wholes@);
    let mut bold = false;
    let mut italic = false;
    let mut underline = false;
    let mut strike = false;
    let mut script: Option<Script> = None;
    let mut i: usize = 0;
    while i < v.len()
        invariant
            i <= v@.len(),
            w == refs_view(v@),
            n == wholes_view(wholes@),
            marks_from(
                w,
                0,
                n,
                MarksV { bold: false, italic: false, underline: false, strike: false, script: None },
            ) == marks_from(
                w,
                i as int,
                n,
                MarksV { bold, italic, underline, strike, script },
            ),
        decreases v@.len() - i,
    {
        assert(w[i as int] == v@[i as int]@);
        match get_property(v[i]) {
            None => {},
            Some(t) => {
                if has_sf(v[i], "bold") {
                    bold = true;
                } else if has_sf(v[i], "italic") {
                    italic = true;
                } else if has_sf(v[i], "underline") {
                    underline = true;
                } else if has_sf(v[i], "strikethru") {
                    strike = true;
                } else if has_sf(v[i], "superscript") {
                    script = script_of(find_whole(wholes, &t));
                }
            },
        }
        i += 1;
    }
    Formatting::build(bold, italic, underline, strike, script)
}

/// The numbers of the raised and lowered texts among elements from `i` on,
/// added to `done`.
pub open spec fn numbers_from(v: Seq<ElementV>, i: int, done: Seq<Seq<char>>) -> Seq<Seq<char>>
    decreases v.len() - i,
{
    if i >= v.len() {
        done
    } else {
        numbers_from(
            v,
            i + 1,
            match property(v[i]) {
                Some(n) => if is_sf(v[i], "superscript"@) {
                    done.push(n)
                } else {
                    done
                },
                None => done,
            },
        )
    }
}

/// The numbers of a document whose whole parts its reading needs.
pub fn script_numbers(root: &Element) -> (r: Vec<Vec<char>>)
    ensures
        texts(r@) == numbers_from(self_and_under(root@), 0, seq![]),
{
    let v = self_and_descendants(root);
    let ghost w = refs_view(v@);
    let mut out: Vec<Vec<char>> = Vec::new();
    let mut i: usize = 0;
    assert(texts(out@) =~= seq![]);
    while i < v.len()
        invariant
            i <= v@.len(),
            w == refs_view(v@),
            numbers_from(w, 0, seq![]) == numbers_from(w, i as int, texts(out@)),
        decreases v@.len() - i,
    {
        broadcast use texts_push;

        assert(w[i as int] == v@[i as int]@);
        match get_property(v[i]) {
            Some(n) => {
                if has_sf(v[i], "superscript") {
                    out.push(n);
                }
            },
            None => {},
        }
        i += 1;
    }
    out
}

// ------------------------------------------------------------ runs

/// Whether an element holds a placeholder.
pub open spec fn is_placeholder(e: ElementV) -> bool {
    is_sf(e, "ghost-text"@) || is_sf(e, "ghost-text-ref"@)
}

/// The formatting inside an element.
pub open spec fn format_in(
    e: ElementV,
    styles: Seq<ElementV>,
    wholes: Seq<WholeV>,
    fmt: Option<Formatting>,
) -> Option<Formatting> {
    if is_sf(e, "span"@) {
        match sf(e, "style"@) {
            Some(key) => match style_named(styles, 0, key) {
                Some(s) => style_format(s, wholes),
                None => fmt,
            },
            None => fmt,
        }
    } else {
        fmt
    }
}

/// The link inside an element.
pub open spec fn link_in(e: ElementV, link: Option<Seq<char>>) -> Option<Seq<char>> {
    if is_sf(e, "link"@) {
        match either_attr(e, "href"@) {
            Some(h) => Some(h),
            None => link,
        }
    } else {
        link
    }
}

/// The runs under the nodes from `i` on, added to `done`.
pub open spec fn runs_from(
    ch: Seq<TreeV>,
    i: int,
    styles: Seq<ElementV>,
    wholes: Seq<WholeV>,
    fmt: Option<Formatting>,
    link: Option<Seq<char>>,
    done: Seq<RunV>,
) -> Seq<RunV>
    decreases ch, ch.len() - i,
{
    if i < 0 || i >= ch.len() {
        done
    } else {
        runs_from(
            ch,
            i + 1,
            styles,
            wholes,
            fmt,
            link,
            match ch[i] {
                TreeV::Text(s) => done.push(RunV { text: cleaned(s), fmt, link }),
                TreeV::Element(e) => if is_placeholder(e) {
                    done
                } else {
                    runs_from(
                        e.children,
                        0,
                        styles,
                        wholes,
                        format_in(e, styles, wholes, fmt),
                        link_in(e, link),
                        done,
                    )
                },
                TreeV::Other(_) => done,
            },
        )
    }
}

fn collect_runs(
    ch: &Vec<Tree>,
    styles: &Vec<&Element>,
    wholes: &Vec<Whole>,
    fmt: Option<Formatting>,
    link: &Option<Vec<char>>,
    out: &mut Vec<Run>,
)
    ensures
        run_views(final(out)@) == runs_from(
            trees_view(ch@),
            0,
            refs_view(styles@),
            wholes_view(wholes@),
            fmt,
            opt_chars(*link),
            run_views(old(out)@),
        ),
    decreases ch,
{
    let ghost v = trees_view(ch@);
    let ghost s = refs_view(styles@);
    let ghost n = wholes_view(wholes@);
    let ghost l = opt_chars(*link);
    let ghost first = run_views(out@);
    let mut i: usize = 0;
    while i < ch.len()
        invariant
            i <= ch@.len(),
            v == trees_view(ch@),
            s == refs_view(styles@),
            n == wholes_view(wholes@),
            l == opt_chars(*link),
            runs_from(v, 0, s, n, fmt, l, first) == runs_from(
                v,
                i as int,
                s,
                n,
                fmt,
                l,
                run_views(out@),
            ),
        decreases ch@.len() - i,
    {
        broadcast use run_views_push;

        assert(v[i as int] == tree_view(ch@[i as int]));
        match &ch[i] {
            Tree::Text(t) => {
                out.push(Run { text: clean(&chars_of(t.as_str())), fmt, link: copy_opt(link) });
            },
            Tree::Element(e) => {
                if !has_sf(e, "ghost-text") && !has_sf(e, "ghost-text-ref") {
                    let inner = if has_sf(e, "span") {
                        match get_sf(e, "style") {
                            Some(key) => match find_style(styles, key) {
                                Some(x) => legacy_formatting(x, wholes),
                                None => fmt,
                            },
                            None => fmt,
                        }
                    } else {
                        fmt
                    };
                    let nested = if has_sf(e, "link") {
                        match get_either(e, "href") {
                            Some(h) => Some(chars_of(h)),
                            None => copy_opt(link),
                        }
                    } else {
                        copy_opt(link)
                    };
                    collect_runs(&e.children, styles, wholes, inner, &nested, out);
                }
            },
            Tree::Other(_) => {},
        }
        i += 1;
    }
}

/// The runs of a paragraph.
pub open spec fn paragraph_runs(p: ElementV, styles: Seq<ElementV>, wholes: Seq<WholeV>) -> Seq<RunV> {
    trimmed(runs_from(p.children, 0, styles, wholes, None, None, seq![]))
}

/// The runs of a paragraph.
pub fn legacy_runs(p: &Element, styles: &Vec<&Element>, wholes: &Vec<Whole>) -> (r: Vec<Run>)
    ensures
        run_views(r@) == paragraph_runs(p@, refs_view(styles@), wholes_view(wholes@)),
{
    let mut out: Vec<Run> = Vec::new();
    assert(run_views(out@) =~= seq![]);
    collect_runs(&p.children, styles, wholes, None, &None, &mut out);
    trim(&out)
}

// ------------------------------------------------------------ lists

/// Whether a kind of label draws a marker.
pub open spec fn draws_marker(kind: Seq<char>) -> bool {
    kind == "bullet"@ || kind == "image"@ || kind == "string"@ || kind == "text"@
}

/// The first element of some.
pub open spec fn first_of(v: Seq<ElementV>) -> Option<ElementV> {
    if v.len() == 0 {
        None
    } else {
        Some(v[0])
    }
}

/// What a level of a list is marked with.
pub open spec fn level_label(e: ElementV) -> (u64, Seq<char>) {
    let t = first_of(named(e, "text-label"@));
    if sf(e, "type"@) == Some("none"@) {
        (LABEL_TYPE_NONE, seq![])
    } else if t is Some && sf(t->0, "type"@) is Some && !draws_marker(sf(t->0, "type"@)->0) {
        (LABEL_TYPE_NUMBER, seq![])
    } else {
        (
            LABEL_TYPE_STRING,
            match t {
                Some(x) => or_empty(sf(x, "format"@)),
                None => seq![],
            },
        )
    }
}

/// The levels from `i` on, added to a list style.
pub open spec fn levels_from(v: Seq<ElementV>, i: int, done: ListStyleV) -> ListStyleV
    decreases v.len() - i,
{
    if i >= v.len() {
        done
    } else {
        let l = level_label(v[i]);
        levels_from(
            v,
            i + 1,
            ListStyleV {
                label_types: done.label_types.push(l.0),
                strings: done.strings.push(l.1),
            },
        )
    }
}

/// The list style of an element.
pub open spec fn list_style(e: ElementV) -> ListStyleV {
    levels_from(
        named(e, "list-label-typeinfo"@),
        0,
        ListStyleV { label_types: seq![], strings: seq![] },
    )
}

fn read_level(e: &Element) -> (r: (u64, Vec<char>))
    ensures
        (r.0, r.1@) == level_label(e@),
{
    let none: Vec<char> = Vec::new();
    assert(none@ =~= seq![]);
    match get_sf(e, "type") {
        Some(t) => {
            if str_eq(t, "none") {
                return (LABEL_TYPE_NONE, none);
            }
        },
        None => {},
    }
    let found = find_named(e, "text-label");
    assert(refs_view(found@).len() == found@.len());
    if found.len() == 0 {
        return (LABEL_TYPE_STRING, none);
    }
    assert(refs_view(found@)[0] == found@[0]@);
    match get_sf(found[0], "type") {
        Some(t) => {
            if !str_eq(t, "bullet") && !str_eq(t, "image") && !str_eq(t, "string") && !str_eq(
                t,
                "text",
            ) {
                return (LABEL_TYPE_NUMBER, none);
            }
        },
        None => {},
    }
    (LABEL_TYPE_STRING, chars_or_empty(get_sf(found[0], "format")))
}

fn read_list_style(e: &Element) -> (r: ListStyle)
    ensures
        r@ == list_style(e@),
{
    let v = find_named(e, "list-label-typeinfo");
    let ghost w = refs_view(v@);
    let mut out = ListStyle { label_types: Vec::new(), strings: Vec::new() };
    let ghost first = ListStyleV { label_types: seq![], strings: seq![] };
    assert(out@ =~= first);
    let mut i: usize = 0;
    while i < v.len()
        invariant
            i <= v@.len(),
            w == refs_view(v@),
            levels_from(w, 0, first) == levels_from(w, i as int, out@),
        decreases v@.len() - i,
    {
        broadcast use texts_push;

        assert(w[i as int] == v@[i as int]@);
        let (kind, marker) = read_level(v[i]);
        out.label_types.push(kind);
        out.strings.push(marker);
        i += 1;
    }
    out
}

/// How a paragraph is marked as a list item.
pub open spec fn list_label(p: ElementV, styles: Seq<ElementV>) -> Option<ListLabelV> {
    match style_named(styles, 0, or_empty(sf(p, "list-style"@))) {
        None => None,
        Some(s) => {
            let level = match int_attr(p, "list-level"@) {
                Some(n) => n,
                None => 1,
            };
            style_label(
                list_style(s),
                if level > 0 {
                    (level - 1) as usize
                } else {
                    0
                },
            )
        },
    }
}

fn legacy_list_label(p: &Element, styles: &Vec<&Element>) -> (r: Option<ListLabel>)
    ensures
        label_view(r) == list_label(p@, refs_view(styles@)),
{
    let key = string_of(&chars_or_empty(get_sf(p, "list-style")));
    match find_style(styles, key.as_str()) {
        None => None,
        Some(s) => {
            let level: usize = match get_int(p, "list-level") {
                Some(n) => n,
                None => 1,
            };
            let depth: usize = if level > 0 {
                level - 1
            } else {
                0
            };
            read_list_style(s).label(depth)
        },
    }
}

// ------------------------------------------------------------ tables

/// The text of a table's cell.
pub open spec fn ct_text(e: ElementV) -> Seq<char> {
    let s = or_empty(sfa(e, "s"@));
    strip(
        cleaned(
            if s.len() > 0 {
                s
            } else {
                all_text(e)
            },
        ),
    )
}

/// The cells from `i` on at their places in rows of some columns, added to
/// `done`; those behind the last row are left out.
pub open spec fn cells_from(
    v: Seq<ElementV>,
    i: int,
    rows: int,
    cols: int,
    done: Seq<TextCellV>,
) -> Seq<TextCellV>
    decreases v.len() - i,
{
    if i >= v.len() || cols <= 0 || i / cols >= rows {
        done
    } else {
        cells_from(
            v,
            i + 1,
            rows,
            cols,
            done.push(TextCellV { text: ct_text(v[i]), row: i / cols, col: i % cols }),
        )
    }
}

/// The table of a model; none without a grid, its size or cells.
pub open spec fn table_of(model: ElementV) -> Option<TableV> {
    match first_of(named(model, "grid"@)) {
        None => None,
        Some(g) => match (int_attr(g, "numcols"@), int_attr(g, "numrows"@)) {
            (Some(cols), Some(rows)) => {
                let v = named(model, "ct"@);
                let header = match int_attr(model, "num-header-rows"@) {
                    Some(n) => n,
                    None => 0,
                };
                if cols == 0 || rows == 0 || v.len() == 0 {
                    None
                } else {
                    Some(cell_table(cells_from(v, 0, rows, cols, seq![]), rows, cols, header))
                }
            },
            _ => None,
        },
    }
}

fn text_of_ct(e: &Element) -> (r: Vec<char>)
    ensures
        r@ == ct_text(e@),
{
    let s = chars_or_empty(get_sfa(e, "s"));
    let t = if s.len() > 0 {
        s
    } else {
        text_of(e)
    };
    crate::text::trim(&clean(&t))
}

/// The table of a model.
pub fn legacy_table(model: &Element) -> (r: Option<Table>)
    ensures
        match table_of(model@) {
            Some(t) => r matches Some(x) && table_view(x) == t,
            None => r is None,
        },
{
    let grids = find_named(model, "grid");
    assert(refs_view(grids@).len() == grids@.len());
    if grids.len() == 0 {
        return None;
    }
    assert(refs_view(grids@)[0] == grids@[0]@);
    let (cols, rows) = match (get_int(grids[0], "numcols"), get_int(grids[0], "numrows")) {
        (Some(c), Some(r)) => (c, r),
        _ => {
            return None;
        },
    };
    let header: usize = match get_int(model, "num-header-rows") {
        Some(n) => n,
        None => 0,
    };
    let v = find_named(model, "ct");
    let ghost w = refs_view(v@);
    assert(w.len() == v@.len());
    if cols == 0 || rows == 0 || v.len() == 0 {
        return None;
    }
    let mut out: Vec<TextCell> = Vec::new();
    assert(text_cells(out@) =~= seq![]);
    let mut i: usize = 0;
    while i < v.len() && i / cols < rows
        invariant
            i <= v@.len(),
            cols > 0,
            w == refs_view(v@),
            cells_from(w, 0, rows as int, cols as int, seq![]) == cells_from(
                w,
                i as int,
                rows as int,
                cols as int,
                text_cells(out@),
            ),
        decreases v@.len() - i,
    {
        broadcast use text_cells_push;

        assert(w[i as int] == v@[i as int]@);
        out.push(TextCell { text: text_of_ct(v[i]), row: i / cols, col: i % cols });
        i += 1;
    }
    Some(grid_table(&out, rows, cols, header))
}

// ------------------------------------------------------------ the body

/// The first file from `i` on that a data element names.
pub open spec fn first_path(v: Seq<ElementV>, i: int) -> Option<Seq<char>>
    decreases v.len() - i,
{
    if i >= v.len() {
        None
    } else {
        let p = or_empty(either_attr(v[i], "path"@));
        if p.len() > 0 {
            Some(p)
        } else {
            first_path(v, i + 1)
        }
    }
}

fn find_path(e: &Element) -> (r: Option<Vec<char>>)
    ensures
        opt_chars(r) == first_path(named(e@, "data"@), 0),
{
    let v = find_named(e, "data");
    let ghost w = refs_view(v@);
    let mut i: usize = 0;
    while i < v.len()
        invariant
            i <= v@.len(),
            w == refs_view(v@),
            w == named(e@, "data"@),
            first_path(w, 0) == first_path(w, i as int),
        decreases v@.len() - i,
    {
        assert(w[i as int] == v@[i as int]@);
        let p = chars_or_empty(get_either(v[i], "path"));
        if p.len() > 0 {
            return Some(p);
        }
        i += 1;
    }
    None
}

/// Whether an element is page furniture.
pub open spec fn is_furniture(e: ElementV) -> bool {
    is_sf(e, "header"@) || is_sf(e, "footer"@) || is_sf(e, "footnotes"@) || is_sf(e, "annotations"@)
}

/// Whether an element is a block of the body.
pub open spec fn is_block(e: ElementV) -> bool {
    is_sf(e, "p"@) || is_sf(e, "tabular-model"@) || is_sf(e, "media"@) || is_sf(e, "image"@)
}

/// The blocks of the body under the nodes from `i` on, added to `done`.
pub open spec fn body_from(ch: Seq<TreeV>, i: int, done: Seq<ElementV>) -> Seq<ElementV>
    decreases ch, ch.len() - i,
{
    if i < 0 || i >= ch.len() {
        done
    } else {
        body_from(
            ch,
            i + 1,
            match ch[i] {
                TreeV::Element(e) => if is_furniture(e) {
                    done
                } else if is_block(e) {
                    done.push(e)
                } else {
                    body_from(e.children, 0, done)
                },
                _ => done,
            },
        )
    }
}

/// The blocks of the body.
pub open spec fn body_of(root: ElementV) -> Seq<ElementV> {
    if is_block(root) {
        seq![root]
    } else {
        body_from(root.children, 0, seq![])
    }
}

fn has_block(e: &Element) -> (r: bool)
    ensures
        r == is_block(e@),
{
    has_sf(e, "p") || has_sf(e, "tabular-model") || has_sf(e, "media") || has_sf(e, "image")
}

fn collect_body<'a>(ch: &'a Vec<Tree>, out: &mut Vec<&'a Element>)
    ensures
        refs_view(final(out)@) == body_from(trees_view(ch@), 0, refs_view(old(out)@)),
    decreases ch,
{
    let ghost v = trees_view(ch@);
    let ghost first = refs_view(out@);
    let mut i: usize = 0;
    while i < ch.len()
        invariant
            i <= ch@.len(),
            v == trees_view(ch@),
            body_from(v, 0, first) == body_from(v, i as int, refs_view(out@)),
        decreases ch@.len() - i,
    {
        broadcast use refs_view_push;

        assert(v[i as int] == tree_view(ch@[i as int]));
        match &ch[i] {
            Tree::Element(e) => {
                if has_sf(e, "header") || has_sf(e, "footer") || has_sf(e, "footnotes") || has_sf(
                    e,
                    "annotations",
                ) {
                } else if has_block(e) {
                    out.push(e);
                } else {
                    collect_body(&e.children, out);
                }
            },
            _ => {},
        }
        i += 1;
    }
}

fn iter_body_elements<'a>(root: &'a Element) -> (r: Vec<&'a Element>)
    ensures
        refs_view(r@) == body_of(root@),
{
    let mut out: Vec<&'a Element> = Vec::new();
    assert(refs_view(out@) =~= seq![]);
    if has_block(root) {
        out.push(root);
        assert(refs_view(out@) =~= seq![root@]);
        return out;
    }
    collect_body(&root.children, &mut out);
    out
}

/// The identifiers of the marks from `i` on, added to `done`.
pub open spec fn marks_in(v: Seq<ElementV>, i: int, done: Seq<Seq<char>>) -> Seq<Seq<char>>
    decreases v.len() - i,
{
    if i >= v.len() {
        done
    } else {
        let id = or_empty(sfa(v[i], "ID"@));
        marks_in(
            v,
            i + 1,
            if id.len() > 0 {
                done.push(id)
            } else {
                done
            },
        )
    }
}

fn read_marks(e: &Element) -> (r: Vec<Vec<char>>)
    ensures
        texts(r@) == marks_in(named(e@, "annotation-field"@), 0, seq![]),
{
    let v = find_named(e, "annotation-field");
    let ghost w = refs_view(v@);
    let mut out: Vec<Vec<char>> = Vec::new();
    let mut i: usize = 0;
    assert(texts(out@) =~= seq![]);
    while i < v.len()
        invariant
            i <= v@.len(),
            w == refs_view(v@),
            marks_in(w, 0, seq![]) == marks_in(w, i as int, texts(out@)),
        decreases v@.len() - i,
    {
        broadcast use texts_push;

        assert(w[i as int] == v@[i as int]@);
        let id = chars_or_empty(get_sfa(v[i], "ID"));
        if id.len() > 0 {
            out.push(id);
        }
        i += 1;
    }
    out
}

/// The styles of a document.
#[verifier::ext_equal]
pub struct StylesV {
    pub names: Seq<ElementV>,
    pub characters: Seq<ElementV>,
    pub lists: Seq<ElementV>,
    pub wholes: Seq<WholeV>,
}

/// The styles of a document.
pub open spec fn styles_of(root: ElementV, wholes: Seq<WholeV>) -> StylesV {
    StylesV {
        names: named(root, "paragraphstyle"@),
        characters: named(root, "characterstyle"@),
        lists: named(root, "liststyle"@),
        wholes,
    }
}

struct Styles<'a> {
    names: Vec<&'a Element>,
    characters: Vec<&'a Element>,
    lists: Vec<&'a Element>,
    wholes: &'a Vec<Whole>,
}

impl<'a> Styles<'a> {
    spec fn see(&self) -> StylesV {
        StylesV {
            names: refs_view(self.names@),
            characters: refs_view(self.characters@),
            lists: refs_view(self.lists@),
            wholes: wholes_view(self.wholes@),
        }
    }
}

/// What a paragraph is by its style.
pub open spec fn kind_of(p: ElementV, names: Seq<ElementV>) -> Label {
    style_kind(
        match sf(p, "style"@) {
            Some(key) => match style_named(names, 0, key) {
                Some(s) => sf(s, "name"@),
                None => None,
            },
            None => None,
        },
    )
}

fn read_kind(p: &Element, names: &Vec<&Element>) -> (r: Label)
    ensures
        r == kind_of(p@, refs_view(names@)),
{
    match get_sf(p, "style") {
        Some(key) => match find_style(names, key) {
            Some(s) => label_for_style(get_sf(s, "name")),
            None => label_for_style(None),
        },
        None => label_for_style(None),
    }
}

/// The block of an element, if it makes one.
pub open spec fn block_of(e: ElementV, s: StylesV) -> Option<BlockV> {
    if is_sf(e, "tabular-model"@) {
        match table_of(e) {
            Some(t) => Some(BlockV::Table(t)),
            None => None,
        }
    } else if is_sf(e, "media"@) || is_sf(e, "image"@) {
        match first_path(named(e, "data"@), 0) {
            Some(p) => Some(BlockV::Picture(seq![p])),
            None => None,
        }
    } else {
        let runs = paragraph_runs(e, s.characters, s.wholes);
        if runs.len() == 0 {
            None
        } else {
            Some(
                BlockV::Paragraph(
                    ParagraphV {
                        runs,
                        label: kind_of(e, s.names),
                        list: list_label(e, s.lists),
                        anchors: marks_in(named(e, "annotation-field"@), 0, seq![]),
                    },
                ),
            )
        }
    }
}

/// View of an optional block.
pub open spec fn opt_block(o: Option<Block>) -> Option<BlockV> {
    match o {
        Some(b) => Some(b@),
        None => None,
    }
}

fn read_block(e: &Element, s: &Styles) -> (r: Option<Block>)
    ensures
        opt_block(r) == block_of(e@, s.see()),
{
    if has_sf(e, "tabular-model") {
        return match legacy_table(e) {
            Some(t) => Some(Block::Table(t)),
            None => None,
        };
    }
    if has_sf(e, "media") || has_sf(e, "image") {
        return match find_path(e) {
            Some(p) => {
                let mut names: Vec<Vec<char>> = Vec::new();
                let ghost q = p@;
                names.push(p);
                assert(texts(names@) =~= seq![q]);
                Some(Block::Picture(names))
            },
            None => None,
        };
    }
    let runs = legacy_runs(e, &s.characters, s.wholes);
    assert(run_views(runs@).len() == runs@.len());
    if runs.len() == 0 {
        return None;
    }
    Some(
        Block::Paragraph(
            Paragraph {
                runs,
                label: read_kind(e, &s.names),
                list: legacy_list_label(e, &s.lists),
                anchors: read_marks(e),
            },
        ),
    )
}

/// The blocks of the elements from `i` on, added to `done`.
pub open spec fn blocks_from(v: Seq<ElementV>, i: int, s: StylesV, done: Seq<BlockV>) -> Seq<BlockV>
    decreases v.len() - i,
{
    if i >= v.len() {
        done
    } else {
        blocks_from(
            v,
            i + 1,
            s,
            match block_of(v[i], s) {
                Some(b) => done.push(b),
                None => done,
            },
        )
    }
}

/// The paragraphs among the elements from `i` on, added to `done`.
pub open spec fn furniture_in(v: Seq<ElementV>, i: int, s: StylesV, done: Seq<ParagraphV>) -> Seq<
    ParagraphV,
>
    decreases v.len() - i,
{
    if i >= v.len() {
        done
    } else {
        let runs = paragraph_runs(v[i], s.characters, s.wholes);
        furniture_in(
            v,
            i + 1,
            s,
            if runs.len() == 0 {
                done
            } else {
                done.push(
                    ParagraphV { runs, label: kind_of(v[i], s.names), list: None, anchors: seq![] },
                )
            },
        )
    }
}

/// The paragraphs of the furniture from `i` on, added to `done`.
pub open spec fn furniture_from(v: Seq<ElementV>, i: int, s: StylesV, done: Seq<ParagraphV>) -> Seq<
    ParagraphV,
>
    decreases v.len() - i,
{
    if i >= v.len() {
        done
    } else {
        furniture_from(v, i + 1, s, furniture_in(named(v[i], "p"@), 0, s, done))
    }
}

/// The page furniture of one kind, each text once.
pub open spec fn furniture(root: ElementV, tag: Seq<char>, s: StylesV) -> Seq<ParagraphV> {
    unique_from(furniture_from(named(root, tag), 0, s, seq![]), 0, seq![])
}

fn add_paragraphs(v: &Vec<&Element>, s: &Styles, out: &mut Vec<Paragraph>)
    ensures
        paragraphs_view(final(out)@) == furniture_in(
            refs_view(v@),
            0,
            s.see(),
            paragraphs_view(old(out)@),
        ),
{
    let ghost w = refs_view(v@);
    let ghost first = paragraphs_view(out@);
    let mut i: usize = 0;
    while i < v.len()
        invariant
            i <= v@.len(),
            w == refs_view(v@),
            furniture_in(w, 0, s.see(), first) == furniture_in(
                w,
                i as int,
                s.see(),
                paragraphs_view(out@),
            ),
        decreases v@.len() - i,
    {
        broadcast use paragraphs_view_push;

        assert(w[i as int] == v@[i as int]@);
        let runs = legacy_runs(v[i], &s.characters, s.wholes);
        assert(run_views(runs@).len() == runs@.len());
        if runs.len() > 0 {
            out.push(Paragraph::new(runs, read_kind(v[i], &s.names)));
        }
        i += 1;
    }
}

fn legacy_furniture(root: &Element, tag: &str, s: &Styles) -> (r: Vec<Paragraph>)
    ensures
        paragraphs_view(r@) == furniture(root@, tag@, s.see()),
{
    let v = find_named(root, tag);
    let ghost w = refs_view(v@);
    let mut out: Vec<Paragraph> = Vec::new();
    let mut i: usize = 0;
    assert(paragraphs_view(out@) =~= seq![]);
    while i < v.len()
        invariant
            i <= v@.len(),
            w == refs_view(v@),
            furniture_from(w, 0, s.see(), seq![]) == furniture_from(
                w,
                i as int,
                s.see(),
                paragraphs_view(out@),
            ),
        decreases v@.len() - i,
    {
        assert(w[i as int] == v@[i as int]@);
        add_paragraphs(&find_named(v[i], "p"), s, &mut out);
        i += 1;
    }
    unique_paragraphs(out)
}

// ------------------------------------------------------------ comments

/// The texts of the paragraphs from `i` on, added to `done`.
pub open spec fn plain_texts(v: Seq<ElementV>, i: int, done: Seq<Seq<char>>) -> Seq<Seq<char>>
    decreases v.len() - i,
{
    if i >= v.len() {
        done
    } else {
        plain_texts(v, i + 1, done.push(runs_text(paragraph_runs(v[i], seq![], seq![]))))
    }
}

/// The text of a comment.
pub open spec fn comment_text(e: ElementV) -> Seq<char> {
    strip(joined(plain_texts(named(e, "p"@), 0, seq![]), " "@))
}

/// The comments from `i` on that have text, added to `done`.
pub open spec fn comments_from(v: Seq<ElementV>, i: int, done: Seq<CommentV>) -> Seq<CommentV>
    decreases v.len() - i,
{
    if i >= v.len() {
        done
    } else {
        let t = comment_text(v[i]);
        comments_from(
            v,
            i + 1,
            if t.len() == 0 {
                done
            } else {
                done.push(CommentV { text: t, anchor: or_empty(sf(v[i], "target"@)) })
            },
        )
    }
}

fn text_of_comment(e: &Element) -> (r: Vec<char>)
    ensures
        r@ == comment_text(e@),
{
    let v = find_named(e, "p");
    let ghost w = refs_view(v@);
    let none: Vec<&Element> = Vec::new();
    let no_wholes: Vec<Whole> = Vec::new();
    assert(refs_view(none@) =~= seq![]);
    assert(wholes_view(no_wholes@) =~= seq![]);
    let mut out: Vec<Vec<char>> = Vec::new();
    let mut i: usize = 0;
    assert(texts(out@) =~= seq![]);
    while i < v.len()
        invariant
            i <= v@.len(),
            w == refs_view(v@),
            refs_view(none@) == Seq::<ElementV>::empty(),
            wholes_view(no_wholes@) == Seq::<WholeV>::empty(),
            plain_texts(w, 0, seq![]) == plain_texts(w, i as int, texts(out@)),
        decreases v@.len() - i,
    {
        broadcast use texts_push;

        assert(w[i as int] == v@[i as int]@);
        let p = Paragraph::new(legacy_runs(v[i], &none, &no_wholes), Label::Text);
        out.push(p.text());
        i += 1;
    }
    crate::text::trim(&join(&out, " "))
}

fn legacy_comments(root: &Element) -> (r: Vec<Comment>)
    ensures
        comments_view(r@) == comments_from(named(root@, "annotation"@), 0, seq![]),
{
    let v = find_named(root, "annotation");
    let ghost w = refs_view(v@);
    let mut out: Vec<Comment> = Vec::new();
    let mut i: usize = 0;
    assert(comments_view(out@) =~= seq![]);
    while i < v.len()
        invariant
            i <= v@.len(),
            w == refs_view(v@),
            comments_from(w, 0, seq![]) == comments_from(w, i as int, comments_view(out@)),
        decreases v@.len() - i,
    {
        assert(w[i as int] == v@[i as int]@);
        let text = text_of_comment(v[i]);
        if text.len() > 0 {
            let ghost before = out@;
            let c = Comment { text, anchor: chars_or_empty(get_sf(v[i], "target")) };
            out.push(c);
            assert(comments_view(out@) =~= comments_view(before).push(c@));
        }
        i += 1;
    }
    out
}

// ------------------------------------------------------------ documents

/// The content of a document.
pub open spec fn content(root: ElementV, wholes: Seq<WholeV>) -> ContentV {
    let s = styles_of(root, wholes);
    ContentV {
        blocks: blocks_from(body_of(root), 0, s, seq![]),
        headers: furniture(root, "header"@, s),
        footers: furniture(root, "footer"@, s),
        footnotes: furniture(root, "footnotes"@, s),
        comments: comments_from(named(root, "annotation"@), 0, seq![]),
    }
}

/// The content of a document. `wholes` gives the whole parts of the numbers
/// that [`script_numbers`] lists.
pub fn read_tree(root: &Element, wholes: &Vec<Whole>) -> (r: Content)
    ensures
        r@ == content(root@, wholes_view(wholes@)),
{
    let s = Styles {
        names: find_named(root, "paragraphstyle"),
        characters: find_named(root, "characterstyle"),
        lists: find_named(root, "liststyle"),
        wholes,
    };
    assert(s.see() == styles_of(root@, wholes_view(wholes@)));
    let v = iter_body_elements(root);
    let ghost w = refs_view(v@);
    let mut blocks: Vec<Block> = Vec::new();
    let mut i: usize = 0;
    assert(blocks_view(blocks@) =~= seq![]);
    while i < v.len()
        invariant
            i <= v@.len(),
            w == refs_view(v@),
            blocks_from(w, 0, s.see(), seq![]) == blocks_from(
                w,
                i as int,
                s.see(),
                blocks_view(blocks@),
            ),
        decreases v@.len() - i,
    {
        broadcast use blocks_view_push;

        assert(w[i as int] == v@[i as int]@);
        match read_block(v[i], &s) {
            Some(b) => {
                blocks.push(b);
            },
            None => {},
        }
        i += 1;
    }
    Content {
        blocks,
        headers: legacy_furniture(root, "header", &s),
        footers: legacy_furniture(root, "footer", &s),
        footnotes: legacy_furniture(root, "footnotes", &s),
        comments: legacy_comments(root),
    }
}

/// The size beyond which a compressed text is refused.
pub const MAX_XML_BYTES: u64 = 104857600;

/// The first bytes of what a gzip file holds, as many as a limit allows; none
/// where it is not one.
pub uninterp spec fn inflated(bytes: Seq<u8>, limit: u64) -> Option<Seq<u8>>;

/// Calls `flate2::read::GzDecoder` and reads at most `limit` bytes of what it
/// gives. What is claimed is that the result depends on the two arguments
/// alone, and that it is no longer than the limit.
#[verifier::external_body]
pub(crate) fn inflate(bytes: &[u8], limit: u64) -> (r: Option<Vec<u8>>)
    ensures
        match r {
            Some(v) => inflated(bytes@, limit) == Some(v@) && v@.len() <= limit,
            None => inflated(bytes@, limit) is None,
        },
{
    let mut out = Vec::new();
    let mut reader = std::io::Read::take(flate2::read::GzDecoder::new(bytes), limit);
    std::io::Read::read_to_end(&mut reader, &mut out).ok().map(|_| out)
}

/// Calls `String::from_utf8`. What is claimed is that it gives the text that
/// the bytes encode, and fails only where they are not UTF-8.
#[verifier::external_body]
pub(crate) fn to_text(bytes: Vec<u8>) -> (r: Option<String>)
    ensures
        match r {
            Some(s) => valid_utf8(bytes@) && s@ == decode_utf8(bytes@),
            None => !valid_utf8(bytes@),
        },
{
    String::from_utf8(bytes).ok()
}

/// Why a document was not read.
#[derive(Debug, PartialEq, Eq)]
pub enum LegacyError {
    /// The compressed file cannot be read.
    Gzip,
    /// The compressed file holds too much.
    TooLarge,
    /// The file is no text.
    NotText,
    /// The text has no tree.
    Xml(XmlError),
}

/// Whether a document's tree was read so from the bytes of its text.
pub open spec fn is_opened(bytes: Seq<u8>, r: Result<Element, LegacyError>) -> bool {
    if !valid_utf8(bytes) {
        r matches Err(LegacyError::NotText)
    } else {
        match xml_items(decode_utf8(bytes), false) {
            Err(e) => r matches Err(LegacyError::Xml(XmlError::Syntax(m))) && m@ == e,
            Ok(items) => match root_of(items) {
                None => r matches Err(LegacyError::Xml(XmlError::NoRoot)),
                Some(root) => r matches Ok(x) && x@ == root,
            },
        }
    }
}

fn open_text(bytes: Vec<u8>) -> (r: Result<Element, LegacyError>)
    ensures
        is_opened(bytes@, r),
{
    match to_text(bytes) {
        None => Err(LegacyError::NotText),
        Some(t) => match parse_xml(t.as_str(), false) {
            Err(e) => Err(LegacyError::Xml(e)),
            Ok(root) => Ok(root),
        },
    }
}

/// The tree of a document's file, which may be compressed.
pub fn open_document(bytes: Vec<u8>, gzip: bool) -> (r: Result<Element, LegacyError>)
    ensures
        if !gzip {
            is_opened(bytes@, r)
        } else {
            match inflated(bytes@, (MAX_XML_BYTES + 1) as u64) {
                None => r matches Err(LegacyError::Gzip),
                Some(v) => if v.len() > MAX_XML_BYTES {
                    r matches Err(LegacyError::TooLarge)
                } else {
                    is_opened(v, r)
                },
            }
        },
{
    if !gzip {
        return open_text(bytes);
    }
    match inflate(bytes.as_slice(), MAX_XML_BYTES + 1) {
        None => Err(LegacyError::Gzip),
        Some(v) => if v.len() as u64 > MAX_XML_BYTES {
            Err(LegacyError::TooLarge)
        } else {
            open_text(v)
        },
    }
}

} // verus!
