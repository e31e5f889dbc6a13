//! OpenDocument files: texts, sheets and presentations, packaged or flat, and
//! their OpenOffice 1.x predecessors.
//!
//! Paragraph styles name titles and headings; the emphasis of a run comes
//! from its style and that style's ancestors; lists nest by depth and go on
//! numbering where the next list continues them.

use crate::document::{runs_view, runs_view_push, InlineRun, InlineRunV, Script};
use crate::inline::{between, wrap};
use crate::jats::{copy_opt, opt_chars, same_opt};
use crate::location::{find_host_end, host_end};
use crate::text::{
    blank_texts_strip_to_nothing, chars_of, chars_or_empty, copy, escape_text, escaped, find_from,
    has_prefix, index_from, is, is_digit, join, joined, lines, lines_of, lowered, lstrip,
    lstrip_of_two, or_empty, parse_sint, parse_uint, push_all, push_str, rstrip, rstrip_of_two,
    same, sint, slice, starts_with, str_eq, string_of, strip, texts, texts_push, to_lower, trim,
    trim_end, trim_start, uint,
};
use crate::tree::{
    attr, attr_of, either, either_of, has_tag, opt_str, refs_view, self_and_descendants,
    self_and_under, tree_view, trees_view, Element, ElementV, Tree, TreeV,
};
use vstd::prelude::*;

verus! {

// ------------------------------------------------------------ styles

/// The emphasis of a run.
#[derive(Clone, Copy, Debug, PartialEq, Eq, Structural)]
pub struct Fmt {
    pub bold: bool,
    pub italic: bool,
    pub strike: bool,
    pub underline: bool,
    pub script: Script,
}

/// No emphasis.
pub open spec fn no_fmt() -> Fmt {
    Fmt {
        bold: false,
        italic: false,
        strike: false,
        underline: false,
        script: Script::Baseline,
    }
}

/// No emphasis.
pub fn plain_fmt() -> (r: Fmt)
    ensures
        r == no_fmt(),
{
    Fmt {
        bold: false,
        italic: false,
        strike: false,
        underline: false,
        script: Script::Baseline,
    }
}

/// A named style: its parent, the name it shows, and what it sets.
pub struct Style {
    pub name: Vec<char>,
    pub parent: Option<Vec<char>>,
    pub display: Option<Vec<char>>,
    pub bold: Option<bool>,
    pub italic: Option<bool>,
    pub strike: Option<bool>,
    pub underline: Option<bool>,
    pub script: Option<Script>,
}

/// View of a [`Style`].
#[verifier::ext_equal]
pub struct StyleV {
    pub name: Seq<char>,
    pub parent: Option<Seq<char>>,
    pub display: Option<Seq<char>>,
    pub bold: Option<bool>,
    pub italic: Option<bool>,
    pub strike: Option<bool>,
    pub underline: Option<bool>,
    pub script: Option<Script>,
}

impl View for Style {
    type V = StyleV;

    open spec fn view(&self) -> StyleV {
        StyleV {
            name: self.name@,
            parent: opt_chars(self.parent),
            display: opt_chars(self.display),
            bold: self.bold,
            italic: self.italic,
            strike: self.strike,
            underline: self.underline,
            script: self.script,
        }
    }
}

/// A level of a list style: whether it is numbered, where it starts, and what
/// stands around a number.
pub struct Level {
    pub level: i64,
    pub numbered: bool,
    pub start: i64,
    pub prefix: Vec<char>,
    pub suffix: Vec<char>,
}

/// View of a [`Level`].
#[verifier::ext_equal]
pub struct LevelV {
    pub level: int,
    pub numbered: bool,
    pub start: int,
    pub prefix: Seq<char>,
    pub suffix: Seq<char>,
}

impl View for Level {
    type V = LevelV;

    open spec fn view(&self) -> LevelV {
        LevelV {
            level: self.level as int,
            numbered: self.numbered,
            start: self.start as int,
            prefix: self.prefix@,
            suffix: self.suffix@,
        }
    }
}

/// Views of levels.
pub open spec fn levels_view(v: Seq<Level>) -> Seq<LevelV> {
    Seq::new(v.len(), |i: int| v[i]@)
}

/// A list style.
pub struct ListStyle {
    pub name: Vec<char>,
    pub levels: Vec<Level>,
}

/// View of a [`ListStyle`].
#[verifier::ext_equal]
pub struct ListStyleV {
    pub name: Seq<char>,
    pub levels: Seq<LevelV>,
}

impl View for ListStyle {
    type V = ListStyleV;

    open spec fn view(&self) -> ListStyleV {
        ListStyleV { name: self.name@, levels: levels_view(self.levels@) }
    }
}

/// Views of styles.
pub open spec fn styles_view(v: Seq<Style>) -> Seq<StyleV> {
    Seq::new(v.len(), |i: int| v[i]@)
}

/// Views of list styles.
pub open spec fn list_styles_view(v: Seq<ListStyle>) -> Seq<ListStyleV> {
    Seq::new(v.len(), |i: int| v[i]@)
}

/// Whether a font weight is bold.
pub open spec fn is_bold_weight(v: Seq<char>) -> bool {
    v == "bold"@ || match sint(v, i32::MIN as int, i32::MAX as int) {
        Some(n) => n >= 600,
        None => false,
    }
}

/// Whether a font weight is bold.
pub fn is_bold(v: &Vec<char>) -> (r: bool)
    ensures
        r == is_bold_weight(v@),
{
    is(v, "bold") || match parse_sint(v, i32::MIN as i128, i32::MAX as i128) {
        Some(n) => n >= 600,
        None => false,
    }
}

/// The vertical position that a value names.
pub open spec fn script_of(v: Seq<char>) -> Script {
    if has_prefix(v, "super"@) {
        Script::Super
    } else if has_prefix(v, "sub"@) {
        Script::Sub
    } else {
        Script::Baseline
    }
}

/// One of two attributes.
pub open spec fn either_attr(e: ElementV, a: Seq<char>, b: Seq<char>) -> Option<Seq<char>> {
    match attr_of(e, a) {
        Some(v) => Some(v),
        None => attr_of(e, b),
    }
}

/// The style that an element defines under a name.
pub open spec fn style_info(e: ElementV, name: Seq<char>) -> StyleV {
    let none = StyleV {
        name,
        parent: attr_of(e, "parent-style-name"@),
        display: attr_of(e, "display-name"@),
        bold: None,
        italic: None,
        strike: None,
        underline: None,
        script: None,
    };
    match either_of(e, "text-properties"@, "properties"@) {
        None => none,
        Some(p) => StyleV {
            bold: match attr_of(p, "font-weight"@) {
                Some(v) => Some(is_bold_weight(v)),
                None => None,
            },
            italic: match attr_of(p, "font-style"@) {
                Some(v) => Some(v == "italic"@ || v == "oblique"@),
                None => None,
            },
            strike: match either_attr(p, "text-line-through-style"@, "text-crossing-out"@) {
                Some(v) => Some(v != "none"@),
                None => None,
            },
            underline: match either_attr(p, "text-underline-style"@, "text-underline"@) {
                Some(v) => Some(v != "none"@),
                None => None,
            },
            script: match attr_of(p, "text-position"@) {
                Some(v) => Some(script_of(v)),
                None => None,
            },
            ..none
        },
    }
}

fn opt_vec(o: Option<&str>) -> (r: Option<Vec<char>>)
    ensures
        opt_chars(r) == opt_str(o),
{
    match o {
        Some(s) => Some(chars_of(s)),
        None => None,
    }
}

fn attr_either<'a>(e: &'a Element, a: &str, b: &str) -> (r: Option<&'a str>)
    ensures
        opt_str(r) == either_attr(e@, a@, b@),
{
    match attr(e, a) {
        Some(v) => Some(v),
        None => attr(e, b),
    }
}

fn read_style(e: &Element, name: &str) -> (r: Style)
    ensures
        r@ == style_info(e@, name@),
{
    let mut s = Style {
        name: chars_of(name),
        parent: opt_vec(attr(e, "parent-style-name")),
        display: opt_vec(attr(e, "display-name")),
        bold: None,
        italic: None,
        strike: None,
        underline: None,
        script: None,
    };
    match either(e, "text-properties", "properties") {
        None => {},
        Some(p) => {
            s.bold = match attr(p, "font-weight") {
                Some(v) => Some(is_bold(&chars_of(v))),
                None => None,
            };
            s.italic = match attr(p, "font-style") {
                Some(v) => Some(str_eq(v, "italic") || str_eq(v, "oblique")),
                None => None,
            };
            s.strike = match attr_either(p, "text-line-through-style", "text-crossing-out") {
                Some(v) => Some(!str_eq(v, "none")),
                None => None,
            };
            s.underline = match attr_either(p, "text-underline-style", "text-underline") {
                Some(v) => Some(!str_eq(v, "none")),
                None => None,
            };
            s.script = match attr(p, "text-position") {
                Some(v) => {
                    let t = chars_of(v);
                    Some(
                        if starts_with(&t, "super") {
                            Script::Super
                        } else if starts_with(&t, "sub") {
                            Script::Sub
                        } else {
                            Script::Baseline
                        },
                    )
                },
                None => None,
            };
        },
    }
    s
}

/// The number in an attribute, or another one.
pub open spec fn number_or(v: Option<Seq<char>>, other: int) -> int {
    match v {
        Some(s) => match sint(s, i64::MIN as int, i64::MAX as int) {
            Some(n) => n,
            None => other,
        },
        None => other,
    }
}

/// The number in an attribute, or another one.
pub fn read_number(v: Option<&str>, other: i64) -> (r: i64)
    ensures
        r == number_or(opt_str(v), other as int),
{
    match v {
        Some(s) => match parse_sint(&chars_of(s), i64::MIN as i128, i64::MAX as i128) {
            Some(n) => n as i64,
            None => other,
        },
        None => other,
    }
}

/// The level that an element of a list style defines.
pub open spec fn level_of(e: ElementV) -> LevelV {
    let start = number_or(attr_of(e, "start-value"@), 1);
    LevelV {
        level: number_or(attr_of(e, "level"@), 1),
        numbered: e.tag == "list-level-style-number"@,
        start: if start < 1 {
            1
        } else {
            start
        },
        prefix: or_empty(attr_of(e, "num-prefix"@)),
        suffix: or_empty(attr_of(e, "num-suffix"@)),
    }
}

/// The levels among the children from `i` on, added to `done`.
pub open spec fn levels_from(ch: Seq<TreeV>, i: int, done: Seq<LevelV>) -> Seq<LevelV>
    decreases ch.len() - i,
{
    if i >= ch.len() {
        done
    } else {
        levels_from(
            ch,
            i + 1,
            match ch[i] {
                TreeV::Element(e) => done.push(level_of(e)),
                _ => done,
            },
        )
    }
}

fn read_levels(ch: &Vec<Tree>) -> (r: Vec<Level>)
    ensures
        levels_view(r@) == levels_from(trees_view(ch@), 0, seq![]),
{
    let ghost v = trees_view(ch@);
    let mut out: Vec<Level> = Vec::new();
    let mut i: usize = 0;
    assert(levels_view(out@) =~= seq![]);
    while i < ch.len()
        invariant
            i <= ch@.len(),
            v == trees_view(ch@),
            levels_from(v, 0, seq![]) == levels_from(v, i as int, levels_view(out@)),
        decreases ch@.len() - i,
    {
        assert(v[i as int] == tree_view(ch@[i as int]));
        match &ch[i] {
            Tree::Element(e) => {
                let start = read_number(attr(e, "start-value"), 1);
                let x = Level {
                    level: read_number(attr(e, "level"), 1),
                    numbered: has_tag(e, "list-level-style-number"),
                    start: if start < 1 {
                        1
                    } else {
                        start
                    },
                    prefix: chars_or_empty(attr(e, "num-prefix")),
                    suffix: chars_or_empty(attr(e, "num-suffix")),
                };
                let ghost before = out@;
                out.push(x);
                assert(levels_view(out@) =~= levels_view(before).push(x@));
            },
            _ => {},
        }
        i += 1;
    }
    out
}

/// The styles that the elements from `i` on define, added to `done`.
pub open spec fn styles_from(v: Seq<ElementV>, i: int, done: Seq<StyleV>) -> Seq<StyleV>
    decreases v.len() - i,
{
    if i >= v.len() {
        done
    } else {
        styles_from(
            v,
            i + 1,
            match attr_of(v[i], "name"@) {
                Some(name) => if v[i].tag == "style"@ {
                    done.push(style_info(v[i], name))
                } else {
                    done
                },
                None => done,
            },
        )
    }
}

/// The list styles that the elements from `i` on define, added to `done`.
pub open spec fn list_styles_from(v: Seq<ElementV>, i: int, done: Seq<ListStyleV>) -> Seq<ListStyleV>
    decreases v.len() - i,
{
    if i >= v.len() {
        done
    } else {
        list_styles_from(
            v,
            i + 1,
            match attr_of(v[i], "name"@) {
                Some(name) => if v[i].tag == "list-style"@ {
                    done.push(
                        ListStyleV { name, levels: levels_from(v[i].children, 0, seq![]) },
                    )
                } else {
                    done
                },
                None => done,
            },
        )
    }
}

/// Adds the styles that a document defines.
pub fn parse_styles(root: &Element, styles: &mut Vec<Style>, lists: &mut Vec<ListStyle>)
    ensures
        styles_view(final(styles)@) == styles_from(
            self_and_under(root@),
            0,
            styles_view(old(styles)@),
        ),
        list_styles_view(final(lists)@) == list_styles_from(
            self_and_under(root@),
            0,
            list_styles_view(old(lists)@),
        ),
{
    let v = self_and_descendants(root);
    let ghost w = refs_view(v@);
    let ghost a = styles_view(styles@);
    let ghost b = list_styles_view(lists@);
    let mut i: usize = 0;
    while i < v.len()
        invariant
            i <= v@.len(),
            w == refs_view(v@),
            styles_from(w, 0, a) == styles_from(w, i as int, styles_view(styles@)),
            list_styles_from(w, 0, b) == list_styles_from(
                w,
                i as int,
                list_styles_view(lists@),
            ),
        decreases v@.len() - i,
    {
        assert(w[i as int] == v@[i as int]@);
        match attr(v[i], "name") {
            Some(name) => {
                if has_tag(v[i], "style") {
                    let x = read_style(v[i], name);
                    let ghost before = styles@;
                    styles.push(x);
                    assert(styles_view(styles@) =~= styles_view(before).push(x@));
                }
                if has_tag(v[i], "list-style") {
                    let x = ListStyle {
                        name: chars_of(name),
                        levels: read_levels(&v[i].children),
                    };
                    let ghost before = lists@;
                    lists.push(x);
                    assert(list_styles_view(lists@) =~= list_styles_view(before).push(x@));
                }
            },
            None => {},
        }
        i += 1;
    }
}

/// The style with a name among the first `n`: the last one counts.
pub open spec fn style_named(styles: Seq<StyleV>, n: int, name: Seq<char>) -> Option<StyleV>
    decreases n,
{
    if n <= 0 || n > styles.len() {
        None
    } else if styles[n - 1].name == name {
        Some(styles[n - 1])
    } else {
        style_named(styles, n - 1, name)
    }
}

fn find_style<'a>(styles: &'a Vec<Style>, name: &Vec<char>) -> (r: Option<&'a Style>)
    ensures
        match r {
            Some(s) => style_named(styles_view(styles@), styles@.len() as int, name@) == Some(s@),
            None => style_named(styles_view(styles@), styles@.len() as int, name@) is None,
        },
{
    let ghost v = styles_view(styles@);
    let mut n: usize = styles.len();
    while n > 0
        invariant
            n <= styles@.len(),
            v == styles_view(styles@),
            style_named(v, styles@.len() as int, name@) == style_named(v, n as int, name@),
        decreases n,
    {
        assert(v[n - 1] == styles@[n - 1]@);
        if same(&styles[n - 1].name, name) {
            return Some(&styles[n - 1]);
        }
        n -= 1;
    }
    None
}

/// What a style sets over what is around it.
pub open spec fn applied(s: StyleV, f: Fmt) -> Fmt {
    Fmt {
        bold: match s.bold {
            Some(x) => x,
            None => f.bold,
        },
        italic: match s.italic {
            Some(x) => x,
            None => f.italic,
        },
        strike: match s.strike {
            Some(x) => x,
            None => f.strike,
        },
        underline: match s.underline {
            Some(x) => x,
            None => f.underline,
        },
        script: match s.script {
            Some(x) => x,
            None => f.script,
        },
    }
}

/// The emphasis of a style over `base`: its ancestors' first, its own last.
/// `n` bounds the chain; a chain longer than the number of styles has come
/// back to one of them and sets nothing new.
pub open spec fn resolved(styles: Seq<StyleV>, name: Option<Seq<char>>, base: Fmt, n: nat) -> Fmt
    decreases n,
{
    if n == 0 {
        base
    } else {
        match name {
            Some(x) => match style_named(styles, styles.len() as int, x) {
                Some(s) => applied(s, resolved(styles, s.parent, base, (n - 1) as nat)),
                None => base,
            },
            None => base,
        }
    }
}

/// The emphasis of a style.
pub open spec fn style_fmt(styles: Seq<StyleV>, name: Option<Seq<char>>, base: Fmt) -> Fmt {
    resolved(styles, name, base, styles.len())
}

fn apply(s: &Style, f: Fmt) -> (r: Fmt)
    ensures
        r == applied(s@, f),
{
    Fmt {
        bold: match s.bold {
            Some(x) => x,
            None => f.bold,
        },
        italic: match s.italic {
            Some(x) => x,
            None => f.italic,
        },
        strike: match s.strike {
            Some(x) => x,
            None => f.strike,
        },
        underline: match s.underline {
            Some(x) => x,
            None => f.underline,
        },
        script: match s.script {
            Some(x) => x,
            None => f.script,
        },
    }
}

fn resolve(styles: &Vec<Style>, name: &Option<Vec<char>>, base: Fmt, n: usize) -> (r: Fmt)
    ensures
        r == resolved(styles_view(styles@), opt_chars(*name), base, n as nat),
    decreases n,
{
    if n == 0 {
        return base;
    }
    match name {
        Some(x) => match find_style(styles, x) {
            Some(s) => apply(s, resolve(styles, &s.parent, base, n - 1)),
            None => base,
        },
        None => base,
    }
}

/// The emphasis of a style.
pub fn resolve_fmt(styles: &Vec<Style>, name: Option<&str>, base: Fmt) -> (r: Fmt)
    ensures
        r == style_fmt(styles_view(styles@), opt_str(name), base),
{
    resolve(styles, &opt_vec(name), base, styles.len())
}

/// A style in whose chain every style comes once sets the same emphasis for
/// every bound that is at least as long as the chain: one more step changes
/// nothing once a step reaches no style.
pub proof fn longer_bounds_change_nothing(
    styles: Seq<StyleV>,
    name: Option<Seq<char>>,
    base: Fmt,
    n: nat,
    m: nat,
)
    requires
        n <= m,
        ends_within(styles, name, n),
    ensures
        resolved(styles, name, base, n) == resolved(styles, name, base, m),
    decreases n,
{
    if n > 0 && name is Some {
        match style_named(styles, styles.len() as int, name->0) {
            Some(s) => {
                longer_bounds_change_nothing(
                    styles,
                    s.parent,
                    base,
                    (n - 1) as nat,
                    (m - 1) as nat,
                );
            },
            None => {},
        }
    } else if m > 0 && name is Some {
        assert(style_named(styles, styles.len() as int, name->0) is None);
    }
}

/// Whether a chain of styles ends within `n` steps.
pub open spec fn ends_within(styles: Seq<StyleV>, name: Option<Seq<char>>, n: nat) -> bool
    decreases n,
{
    match name {
        None => true,
        Some(x) => match style_named(styles, styles.len() as int, x) {
            None => true,
            Some(s) => n > 0 && ends_within(styles, s.parent, (n - 1) as nat),
        },
    }
}

/// A style that says nothing of its own has the emphasis of its parent, in a
/// chain that ends.
pub proof fn a_silent_style_is_its_parent(
    styles: Seq<StyleV>,
    name: Seq<char>,
    s: StyleV,
    base: Fmt,
)
    requires
        style_named(styles, styles.len() as int, name) == Some(s),
        s.bold is None,
        s.italic is None,
        s.strike is None,
        s.underline is None,
        s.script is None,
        ends_within(styles, Some(name), styles.len()),
    ensures
        style_fmt(styles, Some(name), base) == style_fmt(styles, s.parent, base),
{
    let n = styles.len();
    longer_bounds_change_nothing(styles, s.parent, base, (n - 1) as nat, n);
}

/// What a style says itself wins over what its ancestors say.
pub proof fn a_style_wins_over_its_ancestors(
    styles: Seq<StyleV>,
    name: Seq<char>,
    s: StyleV,
    base: Fmt,
)
    requires
        style_named(styles, styles.len() as int, name) == Some(s),
    ensures
        s.bold matches Some(x) ==> style_fmt(styles, Some(name), base).bold == x,
        s.italic matches Some(x) ==> style_fmt(styles, Some(name), base).italic == x,
        s.strike matches Some(x) ==> style_fmt(styles, Some(name), base).strike == x,
        s.underline matches Some(x) ==> style_fmt(styles, Some(name), base).underline == x,
        s.script matches Some(x) ==> style_fmt(styles, Some(name), base).script == x,
{
}

/// Whether a paragraph's style is named so: by its own name, its parent's, or
/// the name it shows.
pub open spec fn is_named(styles: Seq<StyleV>, name: Option<Seq<char>>, want: Seq<char>) -> bool {
    match name {
        None => false,
        Some(n) => n == want || match style_named(styles, styles.len() as int, n) {
            Some(s) => s.parent == Some(want) || s.display == Some(want),
            None => false,
        },
    }
}

fn opt_is(o: &Option<Vec<char>>, want: &str) -> (r: bool)
    ensures
        r == (opt_chars(*o) == Some(want@)),
{
    match o {
        Some(v) => is(v, want),
        None => false,
    }
}

/// Whether a paragraph's style is named so.
pub fn style_is(styles: &Vec<Style>, name: Option<&str>, want: &str) -> (r: bool)
    ensures
        r == is_named(styles_view(styles@), opt_str(name), want@),
{
    match name {
        None => false,
        Some(n) => {
            if str_eq(n, want) {
                return true;
            }
            match find_style(styles, &chars_of(n)) {
                Some(s) => opt_is(&s.parent, want) || opt_is(&s.display, want),
                None => false,
            }
        },
    }
}

// ------------------------------------------------------------ links

/// Whether a character may begin a scheme.
pub open spec fn is_alpha(c: char) -> bool {
    ('a' <= c <= 'z') || ('A' <= c <= 'Z')
}

/// Whether a text is a scheme: a letter, then letters, digits and `+.-`.
pub open spec fn is_scheme(s: Seq<char>) -> bool {
    s.len() > 0 && is_alpha(s[0]) && forall|i: int|
        0 < i < s.len() ==> {
            let c = #[trigger] s[i];
            is_alpha(c) || is_digit(c) || c == '+' || c == '.' || c == '-'
        }
}

/// The target of a link. An address has its scheme and host in lower case and
/// a path; a relative target stays; an address without a host, or with one
/// that is not closed, is none.
pub open spec fn link_target(href: Option<Seq<char>>) -> Option<Seq<char>> {
    match href {
        None => None,
        Some(h) => {
            let s = strip(h);
            let k = index_from(s, ':', 0);
            if s.len() == 0 {
                None
            } else if k >= s.len() || !is_scheme(s.take(k)) {
                Some(s)
            } else {
                let scheme = lowered(s.take(k));
                let rest = s.skip(k + 1);
                if rest.len() == 0 {
                    None
                } else if !has_prefix(rest, "//"@) {
                    Some(scheme.push(':') + rest)
                } else {
                    let authority = rest.skip("//"@.len() as int);
                    let e = host_end(authority, 0);
                    let host = authority.take(e);
                    let tail = authority.skip(e);
                    if host.len() == 0 || (host[0] == '[' && !host.contains(']')) {
                        None
                    } else {
                        Some(
                            scheme + "://"@ + lowered(host) + (if tail.len() > 0 && tail[0] == '/' {
                                Seq::<char>::empty()
                            } else {
                                seq!['/']
                            }) + tail,
                        )
                    }
                }
            }
        },
    }
}

fn alpha(c: char) -> (r: bool)
    ensures
        r == is_alpha(c),
{
    ('a' <= c && c <= 'z') || ('A' <= c && c <= 'Z')
}

fn scheme_like(s: &Vec<char>) -> (r: bool)
    ensures
        r == is_scheme(s@),
{
    if s.len() == 0 || !alpha(s[0]) {
        return false;
    }
    let mut i: usize = 1;
    while i < s.len()
        invariant
            1 <= i <= s@.len(),
            is_alpha(s@[0]),
            forall|k: int|
                0 < k < i ==> {
                    let c = #[trigger] s@[k];
                    is_alpha(c) || is_digit(c) || c == '+' || c == '.' || c == '-'
                },
        decreases s@.len() - i,
    {
        let c = s[i];
        if !(alpha(c) || ('0' <= c && c <= '9') || c == '+' || c == '.' || c == '-') {
            assert(!is_digit(s@[i as int]));
            return false;
        }
        i += 1;
    }
    true
}

fn has_char(s: &Vec<char>, c: char) -> (r: bool)
    ensures
        r == s@.contains(c),
{
    let mut i: usize = 0;
    while i < s.len()
        invariant
            i <= s@.len(),
            forall|k: int| 0 <= k < i ==> #[trigger] s@[k] != c,
        decreases s@.len() - i,
    {
        if s[i] == c {
            assert(s@[i as int] == c);
            return true;
        }
        i += 1;
    }
    false
}

/// The target of a link.
pub fn hyperlink_from_href(href: Option<&str>) -> (r: Option<Vec<char>>)
    ensures
        opt_chars(r) == link_target(opt_str(href)),
{
    let s = match href {
        None => {
            return None;
        },
        Some(h) => trim(&chars_of(h)),
    };
    if s.len() == 0 {
        return None;
    }
    let k = find_from(&s, ':', 0);
    if k >= s.len() {
        return Some(s);
    }
    let name = slice(&s, 0, k);
    assert(name@ =~= s@.take(k as int));
    if !scheme_like(&name) {
        return Some(s);
    }
    let mut out = to_lower(&name);
    let rest = slice(&s, k + 1, s.len());
    assert(rest@ =~= s@.skip(k + 1));
    if rest.len() == 0 {
        return None;
    }
    if !starts_with(&rest, "//") {
        out.push(':');
        push_all(&mut out, &rest);
        return Some(out);
    }
    let authority = slice(&rest, chars_of("//").len(), rest.len());
    assert(authority@ =~= rest@.skip("//"@.len() as int));
    let e = find_host_end(&authority);
    let host = slice(&authority, 0, e);
    let tail = slice(&authority, e, authority.len());
    assert(host@ =~= authority@.take(e as int));
    assert(tail@ =~= authority@.skip(e as int));
    if host.len() == 0 || (host[0] == '[' && !has_char(&host, ']')) {
        return None;
    }
    push_str(&mut out, "://");
    push_all(&mut out, &to_lower(&host));
    if !(tail.len() > 0 && tail[0] == '/') {
        let ghost before = out@;
        out.push('/');
        assert(out@ =~= before + seq!['/']);
    } else {
        assert(out@ =~= out@ + Seq::<char>::empty());
    }
    push_all(&mut out, &tail);
    Some(out)
}

// ------------------------------------------------------------ runs

/// A run of text with its emphasis and the target of the link around it.
pub struct Run {
    pub text: Vec<char>,
    pub fmt: Fmt,
    pub href: Option<Vec<char>>,
}

/// View of a [`Run`].
#[verifier::ext_equal]
pub struct RunV {
    pub text: Seq<char>,
    pub fmt: Fmt,
    pub href: Option<Seq<char>>,
}

impl View for Run {
    type V = RunV;

    open spec fn view(&self) -> RunV {
        RunV { text: self.text@, fmt: self.fmt, href: opt_chars(self.href) }
    }
}

/// Views of runs.
pub open spec fn all_runs(v: Seq<Run>) -> Seq<RunV> {
    Seq::new(v.len(), |i: int| v[i]@)
}

/// Pushing a run pushes its view.
pub broadcast proof fn all_runs_push(v: Seq<Run>, x: Run)
    ensures
        #[trigger] all_runs(v.push(x)) == all_runs(v).push(x@),
{
    assert(all_runs(v.push(x)) =~= all_runs(v).push(x@));
}

/// A number of spaces.
pub open spec fn spaces(n: int) -> Seq<char> {
    Seq::new(n as nat, |i: int| ' ')
}

/// The number of spaces of a space element.
pub open spec fn space_count(e: ElementV) -> int {
    match attr_of(e, "c"@) {
        Some(v) => match uint(v, usize::MAX as int) {
            Some(n) => n,
            None => 1,
        },
        None => 1,
    }
}

/// Adds the spaces of a space element.
pub fn push_spaces(out: &mut Vec<char>, e: &Element)
    ensures
        final(out)@ == old(out)@ + spaces(space_count(e@)),
{
    let n: usize = match attr(e, "c") {
        Some(v) => match parse_uint(&chars_of(v), usize::MAX as u128) {
            Some(n) => n as usize,
            None => 1,
        },
        None => 1,
    };
    let ghost first = out@;
    let mut i: usize = 0;
    assert(out@ =~= first + spaces(0));
    while i < n
        invariant
            i <= n,
            out@ == first + spaces(i as int),
        decreases n - i,
    {
        out.push(' ');
        i += 1;
        assert(out@ =~= first + spaces(i as int));
    }
}

/// The runs under the nodes from `i` on, added to `done`.
pub open spec fn runs_from(
    ch: Seq<TreeV>,
    i: int,
    styles: Seq<StyleV>,
    base: Fmt,
    href: Option<Seq<char>>,
    done: Seq<RunV>,
) -> Seq<RunV>
    decreases ch, ch.len() - i,
{
    if i < 0 || i >= ch.len() {
        done
    } else {
        runs_from(
            ch,
            i + 1,
            styles,
            base,
            href,
            match ch[i] {
                TreeV::Text(t) => done.push(RunV { text: t, fmt: base, href }),
                TreeV::Other(_) => done,
                TreeV::Element(e) => if e.tag == "span"@ {
                    runs_from(
                        e.children,
                        0,
                        styles,
                        style_fmt(styles, attr_of(e, "style-name"@), base),
                        href,
                        done,
                    )
                } else if e.tag == "a"@ {
                    runs_from(
                        e.children,
                        0,
                        styles,
                        style_fmt(styles, attr_of(e, "style-name"@), base),
                        match link_target(attr_of(e, "href"@)) {
                            Some(l) => Some(l),
                            None => href,
                        },
                        done,
                    )
                } else if e.tag == "line-break"@ {
                    done.push(RunV { text: seq!['\n'], fmt: base, href })
                } else if e.tag == "tab"@ || e.tag == "tab-stop"@ {
                    done.push(RunV { text: seq!['\t'], fmt: base, href })
                } else if e.tag == "s"@ {
                    done.push(RunV { text: spaces(space_count(e)), fmt: base, href })
                } else if e.tag == "object"@ || e.tag == "binary-data"@ {
                    done
                } else {
                    runs_from(e.children, 0, styles, base, href, done)
                },
            },
        )
    }
}

fn one_char(c: char) -> (r: Vec<char>)
    ensures
        r@ == seq![c],
{
    let mut v: Vec<char> = Vec::new();
    v.push(c);
    assert(v@ =~= seq![c]);
    v
}

/// Adds the runs under nodes.
pub fn collect_runs_linked(
    ch: &Vec<Tree>,
    styles: &Vec<Style>,
    base: Fmt,
    href: &Option<Vec<char>>,
    out: &mut Vec<Run>,
)
    ensures
        all_runs(final(out)@) == runs_from(
            trees_view(ch@),
            0,
            styles_view(styles@),
            base,
            opt_chars(*href),
            all_runs(old(out)@),
        ),
    decreases ch,
{
    let ghost v = trees_view(ch@);
    let ghost st = styles_view(styles@);
    let ghost l = opt_chars(*href);
    let ghost first = all_runs(out@);
    let mut i: usize = 0;
    while i < ch.len()
        invariant
            i <= ch@.len(),
            v == trees_view(ch@),
            st == styles_view(styles@),
            l == opt_chars(*href),
            runs_from(v, 0, st, base, l, first) == runs_from(
                v,
                i as int,
                st,
                base,
                l,
                all_runs(out@),
            ),
        decreases ch@.len() - i,
    {
        broadcast use all_runs_push;

        assert(v[i as int] == tree_view(ch@[i as int]));
        match &ch[i] {
            Tree::Text(t) => {
                let x = Run { text: chars_of(t.as_str()), fmt: base, href: copy_opt(href) };
                out.push(x);
            },
            Tree::Other(_) => {},
            Tree::Element(e) => {
                if has_tag(e, "span") {
                    let fmt = resolve_fmt(styles, attr(e, "style-name"), base);
                    collect_runs_linked(&e.children, styles, fmt, href, out);
                } else if has_tag(e, "a") {
                    let fmt = resolve_fmt(styles, attr(e, "style-name"), base);
                    let link = match hyperlink_from_href(attr(e, "href")) {
                        Some(x) => Some(x),
                        None => copy_opt(href),
                    };
                    collect_runs_linked(&e.children, styles, fmt, &link, out);
                } else if has_tag(e, "line-break") {
                    let x = Run { text: one_char('\n'), fmt: base, href: copy_opt(href) };
                    out.push(x);
                } else if has_tag(e, "tab") || has_tag(e, "tab-stop") {
                    let x = Run { text: one_char('\t'), fmt: base, href: copy_opt(href) };
                    out.push(x);
                } else if has_tag(e, "s") {
                    let mut text: Vec<char> = Vec::new();
                    push_spaces(&mut text, e);
                    assert(text@ =~= spaces(space_count(e@)));
                    let x = Run { text, fmt: base, href: copy_opt(href) };
                    out.push(x);
                } else if has_tag(e, "object") || has_tag(e, "binary-data") {
                } else {
                    collect_runs_linked(&e.children, styles, base, href, out);
                }
            },
        }
        i += 1;
    }
}

/// The runs of a paragraph.
pub open spec fn para_runs(e: ElementV, styles: Seq<StyleV>) -> Seq<RunV> {
    runs_from(e.children, 0, styles, no_fmt(), None, seq![])
}

/// The runs of a paragraph.
pub fn collect_runs(e: &Element, styles: &Vec<Style>) -> (r: Vec<Run>)
    ensures
        all_runs(r@) == para_runs(e@, styles_view(styles@)),
{
    let mut out: Vec<Run> = Vec::new();
    assert(all_runs(out@) =~= seq![]);
    collect_runs_linked(&e.children, styles, plain_fmt(), &None, &mut out);
    out
}

/// The runs with one added: a run like the last one continues it; otherwise,
/// with `edges`, no white space stays at the edge of a link.
pub open spec fn with_run(done: Seq<RunV>, x: RunV, edges: bool) -> Seq<RunV> {
    let n = done.len();
    if n == 0 {
        done.push(x)
    } else {
        let last = done[n - 1];
        if last.fmt == x.fmt && last.href == x.href {
            done.take(n - 1).push(RunV { text: last.text + x.text, ..last })
        } else if edges && last.href != x.href {
            done.take(n - 1).push(RunV { text: rstrip(last.text), ..last }).push(
                RunV { text: lstrip(x.text), ..x },
            )
        } else {
            done.push(x)
        }
    }
}

/// The runs from `i` on merged into `done`.
pub open spec fn merged_from(v: Seq<RunV>, i: int, edges: bool, done: Seq<RunV>) -> Seq<RunV>
    decreases v.len() - i,
{
    if i >= v.len() {
        done
    } else {
        merged_from(v, i + 1, edges, with_run(done, v[i], edges))
    }
}

fn merge_runs(v: &Vec<Run>, edges: bool) -> (r: Vec<Run>)
    ensures
        all_runs(r@) == merged_from(all_runs(v@), 0, edges, seq![]),
{
    let ghost w = all_runs(v@);
    let mut out: Vec<Run> = Vec::new();
    let mut i: usize = 0;
    assert(all_runs(out@) =~= seq![]);
    while i < v.len()
        invariant
            i <= v@.len(),
            w == all_runs(v@),
            merged_from(w, 0, edges, seq![]) == merged_from(w, i as int, edges, all_runs(out@)),
        decreases v@.len() - i,
    {
        broadcast use all_runs_push;

        assert(w[i as int] == v@[i as int]@);
        let ghost before = all_runs(out@);
        let n: usize = out.len();
        let x = Run { text: copy(&v[i].text), fmt: v[i].fmt, href: copy_opt(&v[i].href) };
        match out.pop() {
            None => {
                assert(before =~= seq![]);
                out.push(x);
            },
            Some(last) => {
                assert(before[n - 1] == last@);
                assert(all_runs(out@) =~= before.take(n - 1));
                let linked = same_opt(&last.href, &x.href);
                if last.fmt == x.fmt && linked {
                    let mut text = last.text;
                    push_all(&mut text, &x.text);
                    let y = Run { text, fmt: last.fmt, href: last.href };
                    out.push(y);
                } else if edges && !linked {
                    let a = Run { text: trim_end(&last.text), fmt: last.fmt, href: last.href };
                    let b = Run { text: trim_start(&x.text), fmt: x.fmt, href: x.href };
                    out.push(a);
                    out.push(b);
                } else {
                    assert(before.take(n - 1).push(last@) =~= before);
                    out.push(last);
                    out.push(x);
                }
            },
        }
        assert(all_runs(out@) =~= with_run(before, w[i as int], edges));
        i += 1;
    }
    out
}

/// A run in Markdown; an empty one is empty.
pub open spec fn run_markdown(r: RunV) -> Seq<char> {
    if r.text.len() == 0 {
        seq![]
    } else {
        let a = escaped(r.text);
        let b = if r.fmt.bold {
            between("**"@, a, "**"@)
        } else {
            a
        };
        let c = if r.fmt.italic {
            between("*"@, b, "*"@)
        } else {
            b
        };
        let d = if r.fmt.strike {
            between("~~"@, c, "~~"@)
        } else {
            c
        };
        match r.href {
            Some(h) => between("["@, d, "]("@) + h + ")"@,
            None => d,
        }
    }
}

fn serialize_run(r: &Run) -> (s: Vec<char>)
    ensures
        s@ == run_markdown(r@),
{
    if r.text.len() == 0 {
        let none: Vec<char> = Vec::new();
        assert(none@ =~= seq![]);
        return none;
    }
    let mut s = escape_text(&r.text);
    if r.fmt.bold {
        s = wrap("**", &s, "**");
    }
    if r.fmt.italic {
        s = wrap("*", &s, "*");
    }
    if r.fmt.strike {
        s = wrap("~~", &s, "~~");
    }
    match &r.href {
        Some(h) => {
            let mut out = wrap("[", &s, "](");
            push_all(&mut out, h);
            push_str(&mut out, ")");
            out
        },
        None => s,
    }
}

/// The runs from `i` on in Markdown, without empty ones, added to `done`.
pub open spec fn marked_from(v: Seq<RunV>, i: int, done: Seq<Seq<char>>) -> Seq<Seq<char>>
    decreases v.len() - i,
{
    if i >= v.len() {
        done
    } else {
        marked_from(
            v,
            i + 1,
            if run_markdown(v[i]).len() == 0 {
                done
            } else {
                done.push(run_markdown(v[i]))
            },
        )
    }
}

/// The text of runs in Markdown.
pub open spec fn runs_text(v: Seq<RunV>) -> Seq<char> {
    strip(joined(marked_from(merged_from(v, 0, true, seq![]), 0, seq![]), " "@))
}

/// The text of runs in Markdown.
pub fn runs_to_text(v: &Vec<Run>) -> (r: Vec<char>)
    ensures
        r@ == runs_text(all_runs(v@)),
{
    let m = merge_runs(v, true);
    let ghost w = all_runs(m@);
    let mut out: Vec<Vec<char>> = Vec::new();
    let mut i: usize = 0;
    assert(texts(out@) =~= seq![]);
    while i < m.len()
        invariant
            i <= m@.len(),
            w == all_runs(m@),
            marked_from(w, 0, seq![]) == marked_from(w, i as int, texts(out@)),
        decreases m@.len() - i,
    {
        broadcast use texts_push;

        assert(w[i as int] == m@[i as int]@);
        let s = serialize_run(&m[i]);
        if s.len() > 0 {
            out.push(s);
        }
        i += 1;
    }
    trim(&join(&out, " "))
}

/// The structured run of a run.
pub open spec fn inline_run(r: RunV) -> InlineRunV {
    InlineRunV {
        text: r.text,
        bold: r.fmt.bold,
        italic: r.fmt.italic,
        underline: r.fmt.underline,
        strike: r.fmt.strike,
        script: r.fmt.script,
        code: false,
        formula: false,
    }
}

/// Whether the runs in `a..b` are white space.
pub open spec fn blank_runs(v: Seq<RunV>, a: int, b: int) -> bool {
    forall|k: int| a <= k < b ==> lstrip((#[trigger] v[k]).text).len() == 0
}

/// The run at `i` of a paragraph, without the white space at the paragraph's
/// two ends.
pub open spec fn end_trimmed(v: Seq<RunV>, i: int) -> RunV {
    let a = if blank_runs(v, 0, i) {
        lstrip(v[i].text)
    } else {
        v[i].text
    };
    RunV {
        text: if blank_runs(v, i + 1, v.len() as int) {
            rstrip(a)
        } else {
            a
        },
        ..v[i]
    }
}

/// The structured runs from `i` on, without empty ones, added to `done`.
pub open spec fn inline_from(v: Seq<RunV>, i: int, done: Seq<InlineRunV>) -> Seq<InlineRunV>
    decreases v.len() - i,
{
    if i >= v.len() {
        done
    } else {
        inline_from(
            v,
            i + 1,
            if end_trimmed(v, i).text.len() == 0 {
                done
            } else {
                done.push(inline_run(end_trimmed(v, i)))
            },
        )
    }
}

/// The structured runs of a paragraph.
pub open spec fn inline_runs(v: Seq<RunV>) -> Seq<InlineRunV> {
    inline_from(merged_from(v, 0, false, seq![]), 0, seq![])
}

/// The text of runs.
pub open spec fn whole_text(v: Seq<RunV>) -> Seq<char>
    decreases v.len(),
{
    if v.len() == 0 {
        seq![]
    } else {
        whole_text(v.drop_last()) + v.last().text
    }
}

/// The text of structured runs.
pub open spec fn inline_text(v: Seq<InlineRunV>) -> Seq<char>
    decreases v.len(),
{
    if v.len() == 0 {
        seq![]
    } else {
        inline_text(v.drop_last()) + v.last().text
    }
}

proof fn text_of_the_first(v: Seq<RunV>, i: int)
    requires
        0 <= i < v.len(),
    ensures
        whole_text(v.take(i + 1)) == whole_text(v.take(i)) + v[i].text,
{
    assert(v.take(i + 1).drop_last() =~= v.take(i));
}

proof fn merging_keeps_the_text(v: Seq<RunV>, i: int, done: Seq<RunV>)
    requires
        0 <= i <= v.len(),
        whole_text(done) == whole_text(v.take(i)),
    ensures
        whole_text(merged_from(v, i, false, done)) == whole_text(v),
    decreases v.len() - i,
{
    if i < v.len() {
        let next = with_run(done, v[i], false);
        text_of_the_first(v, i);
        if done.len() > 0 && next.len() == done.len() {
            assert(next.drop_last() =~= done.drop_last());
            assert(next.last().text == done.last().text + v[i].text);
            assert(whole_text(next) =~= whole_text(done) + v[i].text);
        } else {
            assert(next == done.push(v[i]));
            assert(next.drop_last() =~= done);
        }
        merging_keeps_the_text(v, i + 1, next);
    } else {
        assert(v.take(i) =~= v);
    }
}

proof fn blank_runs_have_blank_text(v: Seq<RunV>, i: int)
    requires
        0 <= i <= v.len(),
    ensures
        blank_runs(v, 0, i) <==> lstrip(whole_text(v.take(i))).len() == 0,
    decreases i,
{
    if i > 0 {
        blank_runs_have_blank_text(v, i - 1);
        text_of_the_first(v, i - 1);
        lstrip_of_two(whole_text(v.take(i - 1)), v[i - 1].text);
        assert(blank_runs(v, 0, i) == (blank_runs(v, 0, i - 1) && lstrip(v[i - 1].text).len() == 0));
    }
}

proof fn ends_are_trimmed_off(v: Seq<RunV>, i: int, done: Seq<InlineRunV>)
    requires
        0 <= i <= v.len(),
        inline_text(done) == if blank_runs(v, i, v.len() as int) {
            strip(whole_text(v.take(i)))
        } else {
            lstrip(whole_text(v.take(i)))
        },
    ensures
        inline_text(inline_from(v, i, done)) == strip(whole_text(v)),
    decreases v.len() - i,
{
    if i < v.len() {
        let n = v.len() as int;
        let t = whole_text(v.take(i));
        let x = v[i].text;
        let lead = if blank_runs(v, 0, i) {
            lstrip(x)
        } else {
            x
        };
        let piece = end_trimmed(v, i).text;
        text_of_the_first(v, i);
        blank_runs_have_blank_text(v, i);
        lstrip_of_two(t, x);
        rstrip_of_two(lstrip(t), x);
        blank_texts_strip_to_nothing(x);
        blank_texts_strip_to_nothing(t);
        assert(blank_runs(v, i, n) == (lstrip(x).len() == 0 && blank_runs(v, i + 1, n)));
        let want = if blank_runs(v, i + 1, n) {
            strip(t + x)
        } else {
            lstrip(t + x)
        };
        assert(inline_text(done) + piece =~= want);
        let next = if piece.len() == 0 {
            done
        } else {
            done.push(inline_run(end_trimmed(v, i)))
        };
        if piece.len() > 0 {
            assert(next.drop_last() =~= done);
        } else {
            assert(inline_text(done) + piece =~= inline_text(done));
        }
        ends_are_trimmed_off(v, i + 1, next);
    } else {
        assert(v.take(i) =~= v);
    }
}

/// The text of a paragraph's structured runs is the text of its runs without
/// the white space at its two ends.
pub proof fn structured_runs_show_the_trimmed_text(v: Seq<RunV>)
    ensures
        inline_text(inline_runs(v)) == strip(whole_text(v)),
{
    let m = merged_from(v, 0, false, seq![]);
    assert(v.take(0) =~= seq![]);
    assert(m.take(0) =~= seq![]);
    merging_keeps_the_text(v, 0, seq![]);
    ends_are_trimmed_off(m, 0, seq![]);
}

/// The structured runs of a paragraph.
pub fn runs_to_inline(v: &Vec<Run>) -> (r: Vec<InlineRun>)
    ensures
        runs_view(r@) == inline_runs(all_runs(v@)),
{
    let m = merge_runs(v, false);
    let ghost w = all_runs(m@);
    let mut out: Vec<InlineRun> = Vec::new();
    let mut i: usize = 0;
    let n: usize = m.len();
    assert(runs_view(out@) =~= seq![]);
    let mut end: usize = n;
    while end > 0 && trim_start(&m[end - 1].text).len() == 0
        invariant
            end <= n == m@.len(),
            w == all_runs(m@),
            blank_runs(w, end as int, n as int),
        decreases end,
    {
        assert(w[end - 1] == m@[end - 1]@);
        end -= 1;
    }
    proof {
        if end > 0 {
            assert(w[end - 1] == m@[end - 1]@);
        }
    }
    let mut lead = true;
    while i < n
        invariant
            i <= n == m@.len(),
            end <= n,
            w == all_runs(m@),
            blank_runs(w, end as int, n as int),
            end > 0 ==> lstrip(w[end - 1].text).len() > 0,
            lead == blank_runs(w, 0, i as int),
            inline_from(w, 0, seq![]) == inline_from(w, i as int, runs_view(out@)),
        decreases n - i,
    {
        broadcast use runs_view_push;

        assert(w[i as int] == m@[i as int]@);
        assert((i + 1 >= end) == blank_runs(w, i + 1, n as int));
        let begun = trim_start(&m[i].text);
        let mut text = if lead {
            copy(&begun)
        } else {
            copy(&m[i].text)
        };
        if i + 1 >= end {
            text = trim_end(&text);
        }
        assert(blank_runs(w, 0, i + 1) == (blank_runs(w, 0, i as int) && begun@.len() == 0));
        lead = lead && begun.len() == 0;
        if text.len() > 0 {
            let f = m[i].fmt;
            out.push(
                InlineRun {
                    text: string_of(&text),
                    bold: f.bold,
                    italic: f.italic,
                    underline: f.underline,
                    strike: f.strike,
                    script: f.script,
                    code: false,
                    formula: false,
                },
            );
        }
        i += 1;
    }
    out
}

/// The lines from `i` on without the white space around them and without
/// blank ones, added to `done`.
pub open spec fn solid_lines(v: Seq<Seq<char>>, i: int, done: Seq<Seq<char>>) -> Seq<Seq<char>>
    decreases v.len() - i,
{
    if i >= v.len() {
        done
    } else {
        solid_lines(
            v,
            i + 1,
            if strip(v[i]).len() == 0 {
                done
            } else {
                done.push(strip(v[i]))
            },
        )
    }
}

/// The lines of a text with spaces between them.
pub open spec fn one_line(s: Seq<char>) -> Seq<char> {
    joined(solid_lines(lines_of(s), 0, seq![]), " "@)
}

/// The lines of a text with spaces between them.
pub fn clean_lines(s: &Vec<char>) -> (r: Vec<char>)
    ensures
        r@ == one_line(s@),
{
    let v = lines(s);
    let ghost w = texts(v@);
    let mut out: Vec<Vec<char>> = Vec::new();
    let mut i: usize = 0;
    assert(texts(out@) =~= seq![]);
    while i < v.len()
        invariant
            i <= v@.len(),
            w == texts(v@),
            solid_lines(w, 0, seq![]) == solid_lines(w, i as int, texts(out@)),
        decreases v@.len() - i,
    {
        broadcast use texts_push;

        assert(w[i as int] == v@[i as int]@);
        let t = trim(&v[i]);
        if t.len() > 0 {
            out.push(t);
        }
        i += 1;
    }
    join(&out, " ")
}

} // verus!
