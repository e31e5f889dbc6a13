//! The inline content of HTML: text runs with their emphasis and links.

use crate::document::{runs_view, runs_view_push, InlineRun, InlineRunV, Script};
use crate::html::{normalize_url, normalized_url};
use crate::jats::{copy_opt, opt_chars};
use crate::text::{
    chars_of, copy, escape_text, escaped, find_from, index_from, is, is_white, join, joined,
    lowered, lstrip, push_all, push_str, replace_char, replaced, rstrip, slice, split, splits,
    str_eq, string_of, strip, texts, texts_push, to_lower, trim, trim_end, trim_start, white,
};
use crate::tree::{
    has_tag, plain_attr, plain_attr_of, tree_view, trees_view, Element, ElementV, Tree, TreeV,
};
use vstd::prelude::*;

verus! {

// ------------------------------------------------------------ text

/// Characters that take no room: they are dropped.
pub open spec fn is_invisible(c: char) -> bool {
    c == '\u{200b}' || c == '\u{200c}' || c == '\u{200d}' || c == '\u{ad}' || c == '\u{feff}' || c
        == '\u{2060}'
}

/// What a typographic character is written as.
pub open spec fn plain(c: char) -> Seq<char> {
    if '\u{2010}' <= c <= '\u{2015}' {
        seq!['-']
    } else if c == '\u{2018}' || c == '\u{2019}' {
        seq!['\'']
    } else if c == '\u{201c}' || c == '\u{201d}' {
        seq!['"']
    } else if c == '\u{2026}' {
        seq!['.', '.', '.']
    } else {
        seq![c]
    }
}

/// The text from `i` on added to `out`: typographic characters become plain
/// ones, and white space between words one space. `gap` says that white space
/// came behind `out`.
pub open spec fn tidied_from(s: Seq<char>, i: int, gap: bool, out: Seq<char>) -> Seq<char>
    decreases s.len() - i,
{
    if i >= s.len() {
        out
    } else if is_invisible(s[i]) {
        tidied_from(s, i + 1, gap, out)
    } else if white(s[i]) {
        tidied_from(s, i + 1, out.len() > 0, out)
    } else {
        tidied_from(
            s,
            i + 1,
            false,
            (if gap {
                out.push(' ')
            } else {
                out
            }) + plain(s[i]),
        )
    }
}

/// A text with plain characters and single spaces, and none at its ends.
pub open spec fn tidied(s: Seq<char>) -> Seq<char> {
    tidied_from(s, 0, false, seq![])
}

/// Whether a character takes no room.
pub fn invisible(c: char) -> (r: bool)
    ensures
        r == is_invisible(c),
{
    c == '\u{200b}' || c == '\u{200c}' || c == '\u{200d}' || c == '\u{ad}' || c == '\u{feff}' || c
        == '\u{2060}'
}

/// Adds a character as a plain one.
pub fn push_plain(out: &mut Vec<char>, c: char)
    ensures
        final(out)@ == old(out)@ + plain(c),
{
    let ghost before = out@;
    if '\u{2010}' <= c && c <= '\u{2015}' {
        out.push('-');
    } else if c == '\u{2018}' || c == '\u{2019}' {
        out.push('\'');
    } else if c == '\u{201c}' || c == '\u{201d}' {
        out.push('"');
    } else if c == '\u{2026}' {
        out.push('.');
        out.push('.');
        out.push('.');
    } else {
        out.push(c);
    }
    assert(out@ =~= before + plain(c));
}

/// A text with plain characters and single spaces, and none at its ends.
pub fn normalize_ws(s: &Vec<char>) -> (r: Vec<char>)
    ensures
        r@ == tidied(s@),
{
    let mut out: Vec<char> = Vec::new();
    let mut gap = false;
    let mut i: usize = 0;
    assert(out@ =~= seq![]);
    while i < s.len()
        invariant
            i <= s@.len(),
            tidied(s@) == tidied_from(s@, i as int, gap, out@),
        decreases s@.len() - i,
    {
        let c = s[i];
        if invisible(c) {
        } else if is_white(c) {
            gap = out.len() > 0;
        } else {
            if gap {
                out.push(' ');
                gap = false;
            }
            push_plain(&mut out, c);
        }
        i += 1;
    }
    out
}

/// Text without the newlines at its ends.
pub open spec fn unbroken(s: Seq<char>) -> Seq<char>
    decreases s.len(),
{
    if s.len() == 0 {
        s
    } else if s[0] == '\n' {
        unbroken(s.skip(1))
    } else if s[s.len() - 1] == '\n' {
        unbroken(s.take(s.len() - 1))
    } else {
        s
    }
}

/// Text without the newlines at its ends.
pub fn trim_newlines(s: &Vec<char>) -> (r: Vec<char>)
    ensures
        r@ == unbroken(s@),
{
    let mut a: usize = 0;
    let mut b: usize = s.len();
    assert(s@.subrange(0, b as int) =~= s@);
    while a < b && (s[a] == '\n' || s[b - 1] == '\n')
        invariant
            a <= b <= s@.len(),
            unbroken(s@) == unbroken(s@.subrange(a as int, b as int)),
        decreases b - a,
    {
        let ghost t = s@.subrange(a as int, b as int);
        if s[a] == '\n' {
            a += 1;
            assert(t.skip(1) =~= s@.subrange(a as int, b as int));
        } else {
            b -= 1;
            assert(t.take(t.len() - 1) =~= s@.subrange(a as int, b as int));
        }
    }
    slice(s, a, b)
}

// ------------------------------------------------------------ elements

/// The declaration in a style attribute that hides an element.
pub open spec fn hides(decl: Seq<char>) -> bool {
    let k = index_from(decl, ':', 0);
    if k >= decl.len() {
        false
    } else {
        let name = lowered(strip(decl.take(k)));
        let value = lowered(strip(decl.skip(k + 1)));
        (name == "display"@ && value == "none"@) || (name == "visibility"@ && value == "hidden"@)
    }
}

/// Whether one of the declarations from `i` on hides the element.
pub open spec fn hides_from(decls: Seq<Seq<char>>, i: int) -> bool
    decreases decls.len() - i,
{
    if i >= decls.len() {
        false
    } else {
        hides(decls[i]) || hides_from(decls, i + 1)
    }
}

/// Whether a value of `aria-hidden` says yes.
pub open spec fn says_yes(v: Seq<char>) -> bool {
    lowered(strip(v)) == "true"@ || strip(v) == "1"@ || lowered(strip(v)) == "yes"@
}

/// Whether an element is hidden: by its `hidden` or `aria-hidden` attribute
/// or by its own style.
pub open spec fn is_hidden_el(e: ElementV) -> bool {
    plain_attr_of(e, "hidden"@) is Some || (match plain_attr_of(e, "aria-hidden"@) {
        Some(v) => says_yes(v),
        None => false,
    }) || (match plain_attr_of(e, "style"@) {
        Some(v) => hides_from(splits(v, ';'), 0),
        None => false,
    })
}

fn hiding(decl: &Vec<char>) -> (r: bool)
    ensures
        r == hides(decl@),
{
    let k = find_from(decl, ':', 0);
    if k >= decl.len() {
        return false;
    }
    let left = slice(decl, 0, k);
    let right = slice(decl, k + 1, decl.len());
    assert(left@ =~= decl@.take(k as int));
    assert(right@ =~= decl@.skip(k + 1));
    let name = to_lower(&trim(&left));
    let value = to_lower(&trim(&right));
    (is(&name, "display") && is(&value, "none")) || (is(&name, "visibility") && is(&value, "hidden"))
}

/// Whether an element is hidden.
pub fn is_hidden(e: &Element) -> (r: bool)
    ensures
        r == is_hidden_el(e@),
{
    if plain_attr(e, "hidden").is_some() {
        return true;
    }
    match plain_attr(e, "aria-hidden") {
        Some(v) => {
            let t = trim(&chars_of(v));
            let low = to_lower(&t);
            if is(&low, "true") || is(&t, "1") || is(&low, "yes") {
                return true;
            }
        },
        None => {},
    }
    match plain_attr(e, "style") {
        Some(v) => {
            let decls = split(&chars_of(v), ';');
            let ghost w = texts(decls@);
            let mut i: usize = 0;
            while i < decls.len()
                invariant
                    i <= decls@.len(),
                    w == texts(decls@),
                    hides_from(w, 0) == hides_from(w, i as int),
                    plain_attr_of(e@, "style"@) is Some,
                    w == splits(plain_attr_of(e@, "style"@)->0, ';'),
                    plain_attr_of(e@, "hidden"@) is None,
                    !(match plain_attr_of(e@, "aria-hidden"@) {
                        Some(v) => says_yes(v),
                        None => false,
                    }),
                decreases decls@.len() - i,
            {
                assert(w[i as int] == decls@[i as int]@);
                if hiding(&decls[i]) {
                    return true;
                }
                i += 1;
            }
            false
        },
        None => false,
    }
}

/// Tags whose content is no document text.
pub open spec fn is_skipped_tag(t: Seq<char>) -> bool {
    t == "script"@ || t == "style"@ || t == "head"@ || t == "title"@ || t == "noscript"@ || t
        == "template"@ || t == "svg"@
}

/// Whether a tag's content is no document text.
pub fn is_skipped(t: &str) -> (r: bool)
    ensures
        r == is_skipped_tag(t@),
{
    str_eq(t, "script") || str_eq(t, "style") || str_eq(t, "head") || str_eq(t, "title") || str_eq(
        t,
        "noscript",
    ) || str_eq(t, "template") || str_eq(t, "svg")
}

/// Heading tags.
pub open spec fn is_heading_tag(t: Seq<char>) -> bool {
    t == "h1"@ || t == "h2"@ || t == "h3"@ || t == "h4"@ || t == "h5"@ || t == "h6"@
}

/// Whether a tag is a heading's.
pub fn is_heading(t: &str) -> (r: bool)
    ensures
        r == is_heading_tag(t@),
{
    str_eq(t, "h1") || str_eq(t, "h2") || str_eq(t, "h3") || str_eq(t, "h4") || str_eq(t, "h5")
        || str_eq(t, "h6")
}

/// Containers that only group blocks.
pub open spec fn is_box_tag(t: Seq<char>) -> bool {
    t == "blockquote"@ || t == "div"@ || t == "section"@ || t == "article"@ || t == "main"@ || t
        == "header"@ || t == "nav"@ || t == "aside"@ || t == "details"@ || t == "button"@ || t
        == "body"@ || t == "html"@
}

/// Block tags: they end the inline text before them.
pub open spec fn is_block_tag(t: Seq<char>) -> bool {
    is_heading_tag(t) || t == "p"@ || t == "ul"@ || t == "ol"@ || t == "pre"@ || t == "table"@ || t
        == "figure"@ || t == "footer"@ || t == "hr"@ || t == "dl"@ || t == "input"@ || t
        == "label"@ || is_box_tag(t)
}

/// Whether a tag is a block's.
pub fn is_block(t: &str) -> (r: bool)
    ensures
        r == is_block_tag(t@),
{
    is_heading(t) || str_eq(t, "p") || str_eq(t, "ul") || str_eq(t, "ol") || str_eq(t, "pre")
        || str_eq(t, "table") || str_eq(t, "figure") || str_eq(t, "footer") || str_eq(t, "hr")
        || str_eq(t, "dl") || str_eq(t, "input") || str_eq(t, "label") || str_eq(t, "blockquote")
        || str_eq(t, "div") || str_eq(t, "section") || str_eq(t, "article") || str_eq(t, "main")
        || str_eq(t, "header") || str_eq(t, "nav") || str_eq(t, "aside") || str_eq(t, "details")
        || str_eq(t, "button") || str_eq(t, "body") || str_eq(t, "html")
}

/// Blocks whose structure is lost in inline text.
pub open spec fn is_structured_tag(t: Seq<char>) -> bool {
    t == "table"@ || t == "ul"@ || t == "ol"@ || t == "dl"@ || t == "pre"@ || t == "figure"@ || t
        == "blockquote"@ || is_heading_tag(t)
}

/// Whether a block's structure is lost in inline text.
pub fn is_structured(t: &str) -> (r: bool)
    ensures
        r == is_structured_tag(t@),
{
    str_eq(t, "table") || str_eq(t, "ul") || str_eq(t, "ol") || str_eq(t, "dl") || str_eq(t, "pre")
        || str_eq(t, "figure") || str_eq(t, "blockquote") || is_heading(t)
}

/// Whether an element with structure stands under the children from `i` on.
pub open spec fn structured_from(ch: Seq<TreeV>, i: int) -> bool
    decreases ch, ch.len() - i,
{
    if i < 0 || i >= ch.len() {
        false
    } else {
        (match ch[i] {
            TreeV::Element(e) => is_structured_tag(e.tag) || structured_from(e.children, 0),
            _ => false,
        }) || structured_from(ch, i + 1)
    }
}

/// Whether an element with structure stands under these nodes.
pub fn contains_block(ch: &Vec<Tree>) -> (r: bool)
    ensures
        r == structured_from(trees_view(ch@), 0),
    decreases ch,
{
    let ghost v = trees_view(ch@);
    let mut i: usize = 0;
    while i < ch.len()
        invariant
            i <= ch@.len(),
            v == trees_view(ch@),
            structured_from(v, 0) == structured_from(v, i as int),
        decreases ch@.len() - i,
    {
        assert(v[i as int] == tree_view(ch@[i as int]));
        match &ch[i] {
            Tree::Element(e) => {
                if is_structured(e.tag.as_str()) || contains_block(&e.children) {
                    return true;
                }
            },
            _ => {},
        }
        i += 1;
    }
    false
}

// ------------------------------------------------------------ emphasis

/// The emphasis of a run. `raw` text is written without escapes.
#[derive(Clone, Copy, Debug, PartialEq, Eq, Structural)]
pub struct Fmt {
    pub bold: bool,
    pub italic: bool,
    pub strike: bool,
    pub code: bool,
    pub underline: bool,
    pub script: Script,
    pub raw: bool,
}

/// No emphasis.
pub open spec fn bare() -> Fmt {
    Fmt {
        bold: false,
        italic: false,
        strike: false,
        code: false,
        underline: false,
        script: Script::Baseline,
        raw: false,
    }
}

/// No emphasis.
pub fn no_fmt() -> (r: Fmt)
    ensures
        r == bare(),
{
    Fmt {
        bold: false,
        italic: false,
        strike: false,
        code: false,
        underline: false,
        script: Script::Baseline,
        raw: false,
    }
}

/// The emphasis inside an element.
pub open spec fn inner_fmt(t: Seq<char>, f: Fmt) -> Fmt {
    if t == "b"@ || t == "strong"@ {
        Fmt { bold: true, ..f }
    } else if t == "i"@ || t == "em"@ || t == "var"@ {
        Fmt { italic: true, ..f }
    } else if t == "s"@ || t == "del"@ || t == "strike"@ {
        Fmt { strike: true, ..f }
    } else if t == "code"@ || t == "kbd"@ || t == "samp"@ {
        Fmt { code: true, ..f }
    } else if t == "u"@ || t == "ins"@ {
        Fmt { underline: true, ..f }
    } else if t == "sub"@ {
        Fmt { script: Script::Sub, ..f }
    } else if t == "sup"@ {
        Fmt { script: Script::Super, ..f }
    } else {
        f
    }
}

/// The emphasis inside an element.
pub fn tag_fmt(t: &str, f: Fmt) -> (r: Fmt)
    ensures
        r == inner_fmt(t@, f),
{
    if str_eq(t, "b") || str_eq(t, "strong") {
        Fmt { bold: true, ..f }
    } else if str_eq(t, "i") || str_eq(t, "em") || str_eq(t, "var") {
        Fmt { italic: true, ..f }
    } else if str_eq(t, "s") || str_eq(t, "del") || str_eq(t, "strike") {
        Fmt { strike: true, ..f }
    } else if str_eq(t, "code") || str_eq(t, "kbd") || str_eq(t, "samp") {
        Fmt { code: true, ..f }
    } else if str_eq(t, "u") || str_eq(t, "ins") {
        Fmt { underline: true, ..f }
    } else if str_eq(t, "sub") {
        Fmt { script: Script::Sub, ..f }
    } else if str_eq(t, "sup") {
        Fmt { script: Script::Super, ..f }
    } else {
        f
    }
}

/// The structured run of a text.
pub open spec fn run_of(f: Fmt, text: Seq<char>) -> InlineRunV {
    InlineRunV {
        text,
        bold: f.bold,
        italic: f.italic,
        underline: f.underline,
        strike: f.strike,
        script: f.script,
        code: f.code,
        formula: false,
    }
}

/// The structured run of a text.
pub fn to_inline_run(f: Fmt, text: &Vec<char>) -> (r: InlineRun)
    ensures
        r@ == run_of(f, text@),
{
    InlineRun {
        text: string_of(text),
        bold: f.bold,
        italic: f.italic,
        underline: f.underline,
        strike: f.strike,
        script: f.script,
        code: f.code,
        formula: false,
    }
}

/// A text between two marks.
pub open spec fn between(a: Seq<char>, s: Seq<char>, b: Seq<char>) -> Seq<char> {
    a + s + b
}

/// A text between two marks.
pub fn wrap(a: &str, s: &Vec<char>, b: &str) -> (r: Vec<char>)
    ensures
        r@ == between(a@, s@, b@),
{
    let mut out = chars_of(a);
    push_all(&mut out, s);
    push_str(&mut out, b);
    out
}

/// A run in Markdown: code innermost, then bold, italic, struck, and the link
/// outermost.
pub open spec fn run_markdown(text: Seq<char>, f: Fmt, link: Option<Seq<char>>) -> Seq<char> {
    let a = if f.code {
        between("`"@, text, "`"@)
    } else if f.raw {
        text
    } else {
        escaped(text)
    };
    let b = if f.bold {
        between("**"@, a, "**"@)
    } else {
        a
    };
    let c = if f.italic {
        between("*"@, b, "*"@)
    } else {
        b
    };
    let d = if f.strike {
        between("~~"@, c, "~~"@)
    } else {
        c
    };
    match link {
        Some(href) => between("["@, d, "]("@) + href + ")"@,
        None => d,
    }
}

/// A run in Markdown.
pub fn serialize_run(text: &Vec<char>, f: Fmt, link: &Option<Vec<char>>) -> (r: Vec<char>)
    ensures
        r@ == run_markdown(text@, f, opt_chars(*link)),
{
    let mut res = if f.code {
        wrap("`", text, "`")
    } else if f.raw {
        copy(text)
    } else {
        escape_text(text)
    };
    if f.bold {
        res = wrap("**", &res, "**");
    }
    if f.italic {
        res = wrap("*", &res, "*");
    }
    if f.strike {
        res = wrap("~~", &res, "~~");
    }
    match link {
        Some(href) => {
            let mut out = wrap("[", &res, "](");
            push_all(&mut out, href);
            push_str(&mut out, ")");
            out
        },
        None => res,
    }
}

// ------------------------------------------------------------ the buffer

/// Runs gathered for a paragraph: their Markdown, and the runs themselves. A
/// line break stands as a mark of its own in the Markdown; `merge` says that
/// one was just seen, `link` that the last run is a link.
pub struct RunBuf {
    pub md: Vec<Vec<char>>,
    pub rich: Vec<InlineRun>,
    pub merge: bool,
    pub link: bool,
}

/// View of a [`RunBuf`].
#[verifier::ext_equal]
pub struct BufV {
    pub md: Seq<Seq<char>>,
    pub rich: Seq<InlineRunV>,
    pub merge: bool,
    pub link: bool,
}

impl View for RunBuf {
    type V = BufV;

    open spec fn view(&self) -> BufV {
        BufV {
            md: texts(self.md@),
            rich: runs_view(self.rich@),
            merge: self.merge,
            link: self.link,
        }
    }
}

/// The empty buffer.
pub open spec fn no_runs() -> BufV {
    BufV { md: seq![], rich: seq![], merge: false, link: false }
}

/// The mark of a line break.
pub open spec fn break_mark() -> Seq<char> {
    seq!['\u{e000}']
}

/// Whether two runs look alike.
pub open spec fn alike(a: InlineRunV, b: InlineRunV) -> bool {
    a.bold == b.bold && a.italic == b.italic && a.underline == b.underline && a.strike == b.strike
        && a.script == b.script && a.code == b.code
}

/// The Markdown pieces without a lone line break before the last.
pub open spec fn without_break(md: Seq<Seq<char>>) -> Seq<Seq<char>> {
    let n = md.len();
    if n >= 2 && md[n - 2] == break_mark() && (n < 3 || md[n - 3] != break_mark()) {
        md.take(n - 2).push(md[n - 1])
    } else {
        md
    }
}

/// The buffer with a run added whose Markdown stands in it already. Behind a
/// line break a run that looks like the last one continues it on a new line;
/// otherwise the break turns into a space.
pub open spec fn with_run(b: BufV, run: InlineRunV) -> BufV {
    let n = b.rich.len();
    if b.merge && !b.link && n > 0 && alike(b.rich[n - 1], run) {
        BufV {
            rich: b.rich.take(n - 1).push(
                InlineRunV { text: b.rich[n - 1].text.push('\n') + run.text, ..b.rich[n - 1] },
            ),
            merge: false,
            ..b
        }
    } else {
        BufV {
            md: if b.merge {
                without_break(b.md)
            } else {
                b.md
            },
            rich: b.rich.push(run),
            merge: false,
            link: false,
        }
    }
}

/// The buffer with a link's run added whose Markdown stands in it already: a
/// line break before it turns into a space.
pub open spec fn with_link(b: BufV, run: InlineRunV) -> BufV {
    BufV {
        md: if b.merge {
            without_break(b.md)
        } else {
            b.md
        },
        rich: b.rich.push(run),
        merge: false,
        link: true,
    }
}

/// The buffer with a text added.
pub open spec fn with_text(b: BufV, text: Seq<char>, f: Fmt, link: Option<Seq<char>>) -> BufV {
    let c = BufV { md: b.md.push(run_markdown(text, f, link)), ..b };
    if link is Some {
        with_link(c, run_of(f, text))
    } else {
        with_run(c, run_of(f, text))
    }
}

/// The buffer with a text of the document added, unless it is blank.
pub open spec fn with_raw_text(b: BufV, text: Seq<char>, f: Fmt, link: Option<Seq<char>>) -> BufV {
    if tidied(text).len() == 0 {
        b
    } else {
        with_text(b, tidied(text), f, link)
    }
}

/// Whether two runs look alike.
pub fn same_style(a: &InlineRun, b: &InlineRun) -> (r: bool)
    ensures
        r == alike(a@, b@),
{
    a.bold == b.bold && a.italic == b.italic && a.underline == b.underline && a.strike == b.strike
        && a.script == b.script && a.code == b.code
}

fn is_break(s: &Vec<char>) -> (r: bool)
    ensures
        r == (s@ == break_mark()),
{
    let r = s.len() == 1 && s[0] == '\u{e000}';
    assert(r ==> s@ =~= break_mark());
    r
}

impl RunBuf {
    /// The empty buffer.
    pub fn new() -> (r: RunBuf)
        ensures
            r@ == no_runs(),
    {
        let r = RunBuf { md: Vec::new(), rich: Vec::new(), merge: false, link: false };
        assert(r@ =~= no_runs());
        r
    }

    fn drop_single_break(&mut self)
        ensures
            final(self)@ == (BufV { md: without_break(old(self)@.md), ..old(self)@ }),
    {
        let n = self.md.len();
        let ghost before = self@;
        if n >= 2 && is_break(&self.md[n - 2]) && (n < 3 || !is_break(&self.md[n - 3])) {
            assert(before.md[n - 2] == self.md@[n - 2]@);
            assert(n >= 3 ==> before.md[n - 3] == self.md@[n - 3]@);
            let _gone = self.md.remove(n - 2);
            assert(texts(self.md@) =~= before.md.take(n - 2).push(before.md[n - 1]));
        } else {
            assert(n >= 2 ==> before.md[n - 2] == self.md@[n - 2]@);
            assert(n >= 3 ==> before.md[n - 3] == self.md@[n - 3]@);
        }
    }

    /// Adds a run whose Markdown stands in the buffer already.
    pub fn push_rich(&mut self, run: InlineRun)
        ensures
            final(self)@ == with_run(old(self)@, run@),
    {
        broadcast use runs_view_push;

        let n = self.rich.len();
        let ghost before = self@;
        if self.merge && !self.link && n > 0 {
            assert(before.rich[n - 1] == self.rich@[n - 1]@);
            if same_style(&self.rich[n - 1], &run) {
                match self.rich.pop() {
                    Some(last) => {
                        let mut text = chars_of(last.text.as_str());
                        text.push('\n');
                        push_str(&mut text, run.text.as_str());
                        assert(runs_view(self.rich@) =~= before.rich.take(n - 1));
                        self.rich.push(
                            InlineRun {
                                text: string_of(&text),
                                bold: last.bold,
                                italic: last.italic,
                                underline: last.underline,
                                strike: last.strike,
                                script: last.script,
                                code: last.code,
                                formula: last.formula,
                            },
                        );
                    },
                    None => {},
                }
                self.merge = false;
                assert(self@ =~= with_run(before, run@));
                return;
            }
        }
        if self.merge {
            self.drop_single_break();
        }
        self.merge = false;
        self.rich.push(run);
        self.link = false;
        assert(self@ =~= with_run(before, run@));
    }

    /// Adds a link's run whose Markdown stands in the buffer already.
    pub fn push_rich_link(&mut self, run: InlineRun)
        ensures
            final(self)@ == with_link(old(self)@, run@),
    {
        broadcast use runs_view_push;

        let ghost before = self@;
        if self.merge {
            self.drop_single_break();
        }
        self.merge = false;
        self.rich.push(run);
        self.link = true;
        assert(self@ =~= with_link(before, run@));
    }

    /// Adds a text.
    pub fn push_run(&mut self, text: &Vec<char>, f: Fmt, link: &Option<Vec<char>>)
        ensures
            final(self)@ == with_text(old(self)@, text@, f, opt_chars(*link)),
    {
        broadcast use texts_push;

        let ghost before = self@;
        self.md.push(serialize_run(text, f, link));
        assert(self@ =~= (BufV {
            md: before.md.push(run_markdown(text@, f, opt_chars(*link))),
            ..before
        }));
        if link.is_some() {
            self.push_rich_link(to_inline_run(f, text));
        } else {
            self.push_rich(to_inline_run(f, text));
        }
    }

    /// Adds a text of the document, unless it is blank.
    pub fn push_raw(&mut self, text: &str, f: Fmt, link: &Option<Vec<char>>)
        ensures
            final(self)@ == with_raw_text(old(self)@, text@, f, opt_chars(*link)),
    {
        let t = normalize_ws(&chars_of(text));
        if t.len() > 0 {
            self.push_run(&t, f, link);
        }
    }

    fn push_break(&mut self)
        ensures
            final(self)@ == with_break(old(self)@),
    {
        broadcast use texts_push;

        let ghost before = self@;
        let mut mark: Vec<char> = Vec::new();
        mark.push('\u{e000}');
        assert(mark@ =~= break_mark());
        self.md.push(mark);
        self.merge = true;
        assert(self@ =~= with_break(before));
    }
}

/// The buffer with a line break added.
pub open spec fn with_break(b: BufV) -> BufV {
    BufV { md: b.md.push(break_mark()), merge: true, ..b }
}

// ------------------------------------------------------------ collecting

/// The texts of runs.
pub open spec fn run_texts(v: Seq<InlineRunV>) -> Seq<Seq<char>> {
    Seq::new(v.len(), |i: int| v[i].text)
}

/// Whether the runs from `i` on look alike.
pub open spec fn uniform(v: Seq<InlineRunV>, i: int) -> bool
    decreases v.len() - i,
{
    if i < 0 || i + 1 >= v.len() {
        true
    } else {
        alike(v[i], v[i + 1]) && uniform(v, i + 1)
    }
}

/// The emphasis of an anchor that is one run: that of its runs, if they look
/// alike.
pub open spec fn anchor_fmt(v: Seq<InlineRunV>, f: Fmt) -> Fmt {
    if uniform(v, 0) {
        Fmt {
            bold: v[0].bold,
            italic: v[0].italic,
            strike: v[0].strike,
            code: v[0].code,
            underline: v[0].underline,
            script: v[0].script,
            ..f
        }
    } else {
        f
    }
}

/// The target of an anchor, or of the link around it.
pub open spec fn anchor_link(e: ElementV, link: Option<Seq<char>>) -> Option<Seq<char>> {
    match plain_attr_of(e, "href"@) {
        Some(h) => Some(normalized_url(h)),
        None => link,
    }
}

/// The buffer with the content of the nodes from `i` on added.
pub open spec fn runs_from(
    ch: Seq<TreeV>,
    i: int,
    f: Fmt,
    link: Option<Seq<char>>,
    b: BufV,
) -> BufV
    decreases ch, ch.len() - i,
{
    if i < 0 || i >= ch.len() {
        b
    } else {
        runs_from(
            ch,
            i + 1,
            f,
            link,
            match ch[i] {
                TreeV::Text(t) => with_raw_text(b, t, f, link),
                TreeV::Element(e) => element_runs(e, f, link, b),
                TreeV::Other(_) => b,
            },
        )
    }
}

/// The buffer with an inline element added. An anchor in several pieces is
/// one run; images and scripts show nothing.
pub open spec fn element_runs(e: ElementV, f: Fmt, link: Option<Seq<char>>, b: BufV) -> BufV
    decreases e, 0int,
{
    if is_hidden_el(e) {
        b
    } else if e.tag == "br"@ {
        with_break(b)
    } else if e.tag == "a"@ {
        let inner = runs_from(e.children, 0, f, None, no_runs());
        let to = anchor_link(e, link);
        if inner.rich.len() > 1 {
            with_text(b, joined(run_texts(inner.rich), " "@), anchor_fmt(inner.rich, f), to)
        } else {
            runs_from(e.children, 0, f, to, b)
        }
    } else if e.tag == "img"@ || e.tag == "script"@ || e.tag == "style"@ {
        b
    } else {
        runs_from(e.children, 0, inner_fmt(e.tag, f), link, b)
    }
}

fn are_uniform(v: &Vec<InlineRun>) -> (r: bool)
    ensures
        r == uniform(runs_view(v@), 0),
{
    let ghost w = runs_view(v@);
    let mut i: usize = 0;
    let n = v.len();
    if n == 0 {
        return true;
    }
    while i < n - 1
        invariant
            n == v@.len(),
            i < n,
            w == runs_view(v@),
            uniform(w, 0) == uniform(w, i as int),
        decreases n - i,
    {
        assert(w[i as int] == v@[i as int]@ && w[i + 1] == v@[i + 1]@);
        if !same_style(&v[i], &v[i + 1]) {
            return false;
        }
        i += 1;
    }
    true
}

fn texts_of_runs(v: &Vec<InlineRun>) -> (r: Vec<Vec<char>>)
    ensures
        texts(r@) == run_texts(runs_view(v@)),
{
    broadcast use texts_push;

    let mut out: Vec<Vec<char>> = Vec::new();
    let mut i: usize = 0;
    while i < v.len()
        invariant
            i <= v@.len(),
            out@.len() == i,
            forall|k: int| 0 <= k < i ==> (#[trigger] out@[k])@ == v@[k]@.text,
        decreases v@.len() - i,
    {
        out.push(chars_of(v[i].text.as_str()));
        i += 1;
    }
    assert(texts(out@) =~= run_texts(runs_view(v@)));
    out
}

/// Adds the content of nodes.
pub fn collect_runs(ch: &Vec<Tree>, f: Fmt, link: &Option<Vec<char>>, b: &mut RunBuf)
    ensures
        final(b)@ == runs_from(trees_view(ch@), 0, f, opt_chars(*link), old(b)@),
    decreases ch,
{
    let ghost v = trees_view(ch@);
    let ghost l = opt_chars(*link);
    let ghost first = b@;
    let mut i: usize = 0;
    while i < ch.len()
        invariant
            i <= ch@.len(),
            v == trees_view(ch@),
            l == opt_chars(*link),
            runs_from(v, 0, f, l, first) == runs_from(v, i as int, f, l, b@),
        decreases ch@.len() - i,
    {
        assert(v[i as int] == tree_view(ch@[i as int]));
        match &ch[i] {
            Tree::Text(t) => {
                b.push_raw(t.as_str(), f, link);
            },
            Tree::Element(e) => {
                collect_element(e, f, link, b);
            },
            Tree::Other(_) => {},
        }
        i += 1;
    }
}

/// Adds an inline element.
pub fn collect_element(e: &Element, f: Fmt, link: &Option<Vec<char>>, b: &mut RunBuf)
    ensures
        final(b)@ == element_runs(e@, f, opt_chars(*link), old(b)@),
    decreases e,
{
    if is_hidden(e) {
    } else if has_tag(e, "br") {
        b.push_break();
    } else if has_tag(e, "a") {
        let to = match plain_attr(e, "href") {
            Some(h) => Some(normalize_url(&chars_of(h))),
            None => copy_opt(link),
        };
        let mut inner = RunBuf::new();
        collect_runs(&e.children, f, &None, &mut inner);
        if inner.rich.len() > 1 {
            let text = join(&texts_of_runs(&inner.rich), " ");
            let fmt = if are_uniform(&inner.rich) {
                let r = &inner.rich[0];
                assert(inner@.rich[0] == inner.rich@[0]@);
                Fmt {
                    bold: r.bold,
                    italic: r.italic,
                    strike: r.strike,
                    code: r.code,
                    underline: r.underline,
                    script: r.script,
                    ..f
                }
            } else {
                f
            };
            b.push_run(&text, fmt, &to);
        } else {
            collect_runs(&e.children, f, &to, b);
        }
    } else if has_tag(e, "img") || has_tag(e, "script") || has_tag(e, "style") {
    } else {
        collect_runs(&e.children, tag_fmt(e.tag.as_str(), f), link, b);
    }
}

// ------------------------------------------------------------ rendering

/// A line of a text with line breaks: no white space stands beside a break.
pub open spec fn line_at(lines: Seq<Seq<char>>, i: int) -> Seq<char> {
    if i == 0 {
        rstrip(lines[i])
    } else if i == lines.len() - 1 {
        lstrip(lines[i])
    } else {
        strip(lines[i])
    }
}

/// The lines from `i` on added to `out`.
pub open spec fn lines_joined(lines: Seq<Seq<char>>, i: int, out: Seq<char>) -> Seq<char>
    decreases lines.len() - i,
{
    if i >= lines.len() {
        out
    } else {
        lines_joined(
            lines,
            i + 1,
            (if i > 0 {
                out.push('\n')
            } else {
                out
            }) + line_at(lines, i),
        )
    }
}

/// The text of the pieces: single spaces between them, and each mark of a
/// line break a newline.
pub open spec fn finished(md: Seq<Seq<char>>) -> Seq<char> {
    let all = joined(md, " "@);
    if index_from(all, '\u{e000}', 0) >= all.len() {
        all
    } else {
        unbroken(lines_joined(splits(replaced(all, '\u{e000}', '\n'), '\n'), 0, seq![]))
    }
}

/// The text of the pieces.
pub fn finalize(md: &Vec<Vec<char>>) -> (r: Vec<char>)
    ensures
        r@ == finished(texts(md@)),
{
    let all = join(md, " ");
    if find_from(&all, '\u{e000}', 0) >= all.len() {
        return all;
    }
    let lines = split(&replace_char(&all, '\u{e000}', '\n'), '\n');
    let ghost w = texts(lines@);
    let mut out: Vec<char> = Vec::new();
    let mut i: usize = 0;
    let n = lines.len();
    assert(out@ =~= seq![]);
    while i < n
        invariant
            i <= n,
            n == lines@.len(),
            w == texts(lines@),
            lines_joined(w, 0, seq![]) == lines_joined(w, i as int, out@),
        decreases n - i,
    {
        assert(w[i as int] == lines@[i as int]@);
        if i > 0 {
            out.push('\n');
        }
        let part = if i == 0 {
            trim_end(&lines[i])
        } else if i == n - 1 {
            trim_start(&lines[i])
        } else {
            trim(&lines[i])
        };
        push_all(&mut out, &part);
        i += 1;
    }
    trim_newlines(&out)
}

/// The content of nodes as one text.
pub open spec fn inline_text(ch: Seq<TreeV>, f: Fmt) -> Seq<char> {
    finished(runs_from(ch, 0, f, None, no_runs()).md)
}

/// The content of nodes as one text.
pub fn render_inline_fmt(ch: &Vec<Tree>, f: Fmt) -> (r: Vec<char>)
    ensures
        r@ == inline_text(trees_view(ch@), f),
{
    let mut b = RunBuf::new();
    collect_runs(ch, f, &None, &mut b);
    finalize(&b.md)
}

} // verus!
