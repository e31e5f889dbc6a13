//! Laws of the HTML reader.

use crate::document::{InlineRunV, NodeV, Script};
use crate::html::{handled, normalized_url};
use crate::htmllist::{first_target, li_text, list_from, list_start, nested_from, ListState};
use crate::inline::{
    element_runs, inline_text, is_hidden_el, no_runs, run_markdown, run_of, runs_from, tidied, Fmt,
};
use crate::text::{decimal, escaped, strip, uint};
use crate::tree::{plain_attr_of, ElementV, TreeV};
use vstd::prelude::*;

verus! {

/// The tag of a heading is `h` and a digit.
proof fn heading_tags(t: Seq<char>, d: char)
    requires
        t == seq!['h', d],
        '1' <= d <= '6',
    ensures
        t == "h1"@ || t == "h2"@ || t == "h3"@ || t == "h4"@ || t == "h5"@ || t == "h6"@,
        t == "h1"@ <==> d == '1',
        t == "h2"@ <==> d == '2',
        t == "h3"@ <==> d == '3',
        t == "h4"@ <==> d == '4',
        t == "h5"@ <==> d == '5',
        t == "h6"@ <==> d == '6',
{
    reveal_strlit("h1");
    reveal_strlit("h2");
    reveal_strlit("h3");
    reveal_strlit("h4");
    reveal_strlit("h5");
    reveal_strlit("h6");
    assert(t[1] == d);
    assert("h1"@[1] == '1' && "h2"@[1] == '2' && "h3"@[1] == '3');
    assert("h4"@[1] == '4' && "h5"@[1] == '5' && "h6"@[1] == '6');
    if d == '1' {
        assert(t =~= "h1"@);
    } else if d == '2' {
        assert(t =~= "h2"@);
    } else if d == '3' {
        assert(t =~= "h3"@);
    } else if d == '4' {
        assert(t =~= "h4"@);
    } else if d == '5' {
        assert(t =~= "h5"@);
    } else {
        assert(t =~= "h6"@);
    }
}

/// The heading of an element whose tag is `h` and the digit of a number from
/// one to six has that number as its level.
pub proof fn a_heading_has_the_level_of_its_tag(
    e: ElementV,
    n: int,
    level: u8,
    base: Fmt,
    root: ElementV,
    fetch: bool,
    nodes: Seq<NodeV>,
)
    requires
        1 <= n <= 6,
        e.tag == seq!['h', (0x30 + n) as char],
        inline_text(e.children, base).len() > 0,
    ensures
        handled(e, level, base, root, fetch, nodes) == nodes.push(
            NodeV::Heading { level: n as u8, text: inline_text(e.children, base) },
        ),
{
    heading_tags(e.tag, (0x30 + n) as char);
}

/// A deeper heading tag has a deeper level, and the headings of different
/// tags differ.
pub proof fn deeper_headings_have_deeper_levels(
    e: ElementV,
    f: ElementV,
    c: char,
    d: char,
    level: u8,
    base: Fmt,
    root: ElementV,
    fetch: bool,
    nodes: Seq<NodeV>,
)
    requires
        '1' <= c < d <= '6',
        e.tag == seq!['h', c],
        f.tag == seq!['h', d],
        inline_text(e.children, base).len() > 0,
        inline_text(f.children, base).len() > 0,
    ensures
        handled(e, level, base, root, fetch, nodes).last()->Heading_level < handled(
            f,
            level,
            base,
            root,
            fetch,
            nodes,
        ).last()->Heading_level,
{
    heading_tags(e.tag, c);
    heading_tags(f.tag, d);
}

// ------------------------------------------------------------ inline markup

/// No markup at all.
pub open spec fn unmarked() -> Fmt {
    Fmt {
        bold: false,
        italic: false,
        strike: false,
        code: false,
        underline: false,
        script: Script::Baseline,
        raw: false,
    }
}

/// A run of text without markup.
pub open spec fn plain_run(text: Seq<char>) -> InlineRunV {
    InlineRunV {
        text,
        bold: false,
        italic: false,
        underline: false,
        strike: false,
        script: Script::Baseline,
        code: false,
        formula: false,
    }
}

/// Whether an element shows and holds just a text, which reads `t`.
pub open spec fn holds_text(e: ElementV, t: Seq<char>) -> bool {
    &&& !is_hidden_el(e)
    &&& e.children.len() == 1
    &&& e.children[0] matches TreeV::Text(s) && tidied(s) == t
    &&& t.len() > 0
}

proof fn inline_tags_differ()
    ensures
        forall|t: Seq<char>| #[trigger] tag_group(t) >= 0,
        tag_group("b"@) == 1 && tag_group("strong"@) == 1,
        tag_group("i"@) == 2 && tag_group("em"@) == 2 && tag_group("var"@) == 2,
        tag_group("s"@) == 3 && tag_group("del"@) == 3 && tag_group("strike"@) == 3,
        tag_group("code"@) == 4 && tag_group("kbd"@) == 4 && tag_group("samp"@) == 4,
        tag_group("u"@) == 5 && tag_group("ins"@) == 5,
        tag_group("sub"@) == 6,
        tag_group("sup"@) == 7,
        tag_group("a"@) == 8,
{
    reveal_strlit("br");
    reveal_strlit("a");
    reveal_strlit("img");
    reveal_strlit("script");
    reveal_strlit("style");
    reveal_strlit("b");
    reveal_strlit("strong");
    reveal_strlit("i");
    reveal_strlit("em");
    reveal_strlit("var");
    reveal_strlit("s");
    reveal_strlit("del");
    reveal_strlit("strike");
    reveal_strlit("code");
    reveal_strlit("kbd");
    reveal_strlit("samp");
    reveal_strlit("u");
    reveal_strlit("ins");
    reveal_strlit("sub");
    reveal_strlit("sup");
    assert("br"@.len() == 2);
    assert("a"@.len() == 1);
    assert("img"@.len() == 3);
    assert("script"@.len() == 6);
    assert("style"@.len() == 5);
    assert("b"@.len() == 1);
    assert("strong"@.len() == 6);
    assert("i"@.len() == 1);
    assert("em"@.len() == 2);
    assert("var"@.len() == 3);
    assert("s"@.len() == 1);
    assert("del"@.len() == 3);
    assert("strike"@.len() == 6);
    assert("code"@.len() == 4);
    assert("kbd"@.len() == 3);
    assert("samp"@.len() == 4);
    assert("u"@.len() == 1);
    assert("ins"@.len() == 3);
    assert("sub"@.len() == 3);
    assert("sup"@.len() == 3);
    assert("br"@[0] == 'b');
    assert("a"@[0] == 'a');
    assert("img"@[0] == 'i');
    assert("img"@[1] == 'm');
    assert("script"@[1] == 'c');
    assert("b"@[0] == 'b');
    assert("strong"@[1] == 't');
    assert("strong"@[3] == 'o');
    assert("i"@[0] == 'i');
    assert("em"@[0] == 'e');
    assert("var"@[0] == 'v');
    assert("s"@[0] == 's');
    assert("del"@[0] == 'd');
    assert("strike"@[1] == 't');
    assert("strike"@[3] == 'i');
    assert("code"@[0] == 'c');
    assert("kbd"@[0] == 'k');
    assert("samp"@[0] == 's');
    assert("u"@[0] == 'u');
    assert("ins"@[0] == 'i');
    assert("ins"@[1] == 'n');
    assert("sub"@[0] == 's');
    assert("sub"@[2] == 'b');
    assert("sup"@[0] == 's');
    assert("sup"@[2] == 'p');
}

/// The groups of inline tags, by the first one that a tag is in.
spec fn tag_group(t: Seq<char>) -> int {
    if t == "br"@ {
        9
    } else if t == "a"@ {
        8
    } else if t == "img"@ || t == "script"@ || t == "style"@ {
        10
    } else if t == "b"@ || t == "strong"@ {
        1
    } else if t == "i"@ || t == "em"@ || t == "var"@ {
        2
    } else if t == "s"@ || t == "del"@ || t == "strike"@ {
        3
    } else if t == "code"@ || t == "kbd"@ || t == "samp"@ {
        4
    } else if t == "u"@ || t == "ins"@ {
        5
    } else if t == "sub"@ {
        6
    } else if t == "sup"@ {
        7
    } else {
        0
    }
}

proof fn only_text(e: ElementV, t: Seq<char>, f: Fmt, link: Option<Seq<char>>)
    requires
        holds_text(e, t),
    ensures
        runs_from(e.children, 0, f, link, no_runs()).md == seq![run_markdown(t, f, link)],
        runs_from(e.children, 0, f, link, no_runs()).rich == seq![
            InlineRunV {
                text: t,
                bold: f.bold,
                italic: f.italic,
                underline: f.underline,
                strike: f.strike,
                script: f.script,
                code: f.code,
                formula: false,
            },
        ],
{
    reveal_with_fuel(runs_from, 3);
    let b = runs_from(e.children, 0, f, link, no_runs());
    assert(b.md =~= seq![run_markdown(t, f, link)]);
    assert(b.rich =~= seq![run_of(f, t)]);
}

proof fn marks()
    ensures
        "`"@ == seq!['`'],
        "*"@ == seq!['*'],
        "**"@ == seq!['*', '*'],
        "~~"@ == seq!['~', '~'],
{
    reveal_strlit("`");
    reveal_strlit("*");
    reveal_strlit("**");
    reveal_strlit("~~");
    assert("`"@ =~= seq!['`']);
    assert("*"@ =~= seq!['*']);
    assert("**"@ =~= seq!['*', '*']);
    assert("~~"@ =~= seq!['~', '~']);
}

/// The text of a `b` or `strong` element is bold: it stands between double
/// asterisks.
pub proof fn bold_elements_are_bold(e: ElementV, t: Seq<char>)
    requires
        e.tag == "b"@ || e.tag == "strong"@,
        holds_text(e, t),
    ensures
        element_runs(e, unmarked(), None, no_runs()).md == seq![seq!['*', '*'] + escaped(t) + seq!['*', '*']],
        element_runs(e, unmarked(), None, no_runs()).rich == seq![InlineRunV { bold: true, ..plain_run(t) }],
{
    inline_tags_differ();
    marks();
    let f = Fmt { bold: true, ..unmarked() };
    assert(tag_group(e.tag) > 0);
    assert(element_runs(e, unmarked(), None, no_runs()) == runs_from(
        e.children,
        0,
        f,
        None,
        no_runs(),
    ));
    only_text(e, t, f, None);
}

/// The text of an `i`, `em` or `var` element is italic: it stands between
/// asterisks.
pub proof fn italic_elements_are_italic(e: ElementV, t: Seq<char>)
    requires
        e.tag == "i"@ || e.tag == "em"@ || e.tag == "var"@,
        holds_text(e, t),
    ensures
        element_runs(e, unmarked(), None, no_runs()).md == seq![seq!['*'] + escaped(t) + seq!['*']],
        element_runs(e, unmarked(), None, no_runs()).rich == seq![InlineRunV { italic: true, ..plain_run(t) }],
{
    inline_tags_differ();
    marks();
    let f = Fmt { italic: true, ..unmarked() };
    assert(tag_group(e.tag) > 0);
    assert(element_runs(e, unmarked(), None, no_runs()) == runs_from(
        e.children,
        0,
        f,
        None,
        no_runs(),
    ));
    only_text(e, t, f, None);
}

/// The text of an `s`, `del` or `strike` element is struck: it stands between
/// double tildes.
pub proof fn struck_elements_are_struck(e: ElementV, t: Seq<char>)
    requires
        e.tag == "s"@ || e.tag == "del"@ || e.tag == "strike"@,
        holds_text(e, t),
    ensures
        element_runs(e, unmarked(), None, no_runs()).md == seq![seq!['~', '~'] + escaped(t) + seq!['~', '~']],
        element_runs(e, unmarked(), None, no_runs()).rich == seq![InlineRunV { strike: true, ..plain_run(t) }],
{
    inline_tags_differ();
    marks();
    let f = Fmt { strike: true, ..unmarked() };
    assert(tag_group(e.tag) > 0);
    assert(element_runs(e, unmarked(), None, no_runs()) == runs_from(
        e.children,
        0,
        f,
        None,
        no_runs(),
    ));
    only_text(e, t, f, None);
}

/// The text of a `code`, `kbd` or `samp` element is code: it stands between
/// backticks as it is.
pub proof fn code_elements_are_code(e: ElementV, t: Seq<char>)
    requires
        e.tag == "code"@ || e.tag == "kbd"@ || e.tag == "samp"@,
        holds_text(e, t),
    ensures
        element_runs(e, unmarked(), None, no_runs()).md == seq![seq!['`'] + t + seq!['`']],
        element_runs(e, unmarked(), None, no_runs()).rich == seq![InlineRunV { code: true, ..plain_run(t) }],
{
    inline_tags_differ();
    marks();
    let f = Fmt { code: true, ..unmarked() };
    assert(tag_group(e.tag) > 0);
    assert(element_runs(e, unmarked(), None, no_runs()) == runs_from(
        e.children,
        0,
        f,
        None,
        no_runs(),
    ));
    only_text(e, t, f, None);
}

/// The text of a `u` or `ins` element is underlined, which Markdown does not
/// show.
pub proof fn underlined_elements_are_underlined(e: ElementV, t: Seq<char>)
    requires
        e.tag == "u"@ || e.tag == "ins"@,
        holds_text(e, t),
    ensures
        element_runs(e, unmarked(), None, no_runs()).md == seq![escaped(t)],
        element_runs(e, unmarked(), None, no_runs()).rich == seq![InlineRunV { underline: true, ..plain_run(t) }],
{
    inline_tags_differ();
    marks();
    let f = Fmt { underline: true, ..unmarked() };
    assert(tag_group(e.tag) > 0);
    assert(element_runs(e, unmarked(), None, no_runs()) == runs_from(
        e.children,
        0,
        f,
        None,
        no_runs(),
    ));
    only_text(e, t, f, None);
}

/// The text of a `sub` element stands below the line.
pub proof fn lowered_elements_are_lowered(e: ElementV, t: Seq<char>)
    requires
        e.tag == "sub"@,
        holds_text(e, t),
    ensures
        element_runs(e, unmarked(), None, no_runs()).md == seq![escaped(t)],
        element_runs(e, unmarked(), None, no_runs()).rich == seq![InlineRunV { script: Script::Sub, ..plain_run(t) }],
{
    inline_tags_differ();
    marks();
    let f = Fmt { script: Script::Sub, ..unmarked() };
    assert(tag_group(e.tag) > 0);
    assert(element_runs(e, unmarked(), None, no_runs()) == runs_from(
        e.children,
        0,
        f,
        None,
        no_runs(),
    ));
    only_text(e, t, f, None);
}

/// The text of a `sup` element stands above the line.
pub proof fn raised_elements_are_raised(e: ElementV, t: Seq<char>)
    requires
        e.tag == "sup"@,
        holds_text(e, t),
    ensures
        element_runs(e, unmarked(), None, no_runs()).md == seq![escaped(t)],
        element_runs(e, unmarked(), None, no_runs()).rich == seq![InlineRunV { script: Script::Super, ..plain_run(t) }],
{
    inline_tags_differ();
    marks();
    let f = Fmt { script: Script::Super, ..unmarked() };
    assert(tag_group(e.tag) > 0);
    assert(element_runs(e, unmarked(), None, no_runs()) == runs_from(
        e.children,
        0,
        f,
        None,
        no_runs(),
    ));
    only_text(e, t, f, None);
}

/// The text of an `a` element with a target is a link to it.
pub proof fn anchors_are_links(e: ElementV, t: Seq<char>, href: Seq<char>)
    requires
        e.tag == "a"@,
        holds_text(e, t),
        plain_attr_of(e, "href"@) == Some(href),
    ensures
        element_runs(e, unmarked(), None, no_runs()).md == seq![
            seq!['['] + escaped(t) + seq![']', '('] + normalized_url(href) + seq![')'],
        ],
        element_runs(e, unmarked(), None, no_runs()).rich == seq![plain_run(t)],
{
    reveal_strlit("[");
    reveal_strlit("](");
    reveal_strlit(")");
    assert("["@ =~= seq!['[']);
    assert("]("@ =~= seq![']', '(']);
    assert(")"@ =~= seq![')']);
    inline_tags_differ();
    let to = Some(normalized_url(href));
    only_text(e, t, unmarked(), None);
    only_text(e, t, unmarked(), to);
    assert(element_runs(e, unmarked(), None, no_runs()) == runs_from(
        e.children,
        0,
        unmarked(),
        to,
        no_runs(),
    ));
    assert(run_markdown(t, unmarked(), to) =~= seq!['['] + escaped(t) + seq![']', '(']
        + normalized_url(href) + seq![')']);
}

/// The markups of nested elements add up: italic text in bold text is both.
pub proof fn markups_add_up(e: ElementV, k: ElementV, t: Seq<char>)
    requires
        e.tag == "b"@ || e.tag == "strong"@,
        k.tag == "i"@ || k.tag == "em"@,
        !is_hidden_el(e),
        e.children == seq![TreeV::Element(k)],
        holds_text(k, t),
    ensures
        element_runs(e, unmarked(), None, no_runs()).md == seq![
            seq!['*', '*', '*'] + escaped(t) + seq!['*', '*', '*'],
        ],
        element_runs(e, unmarked(), None, no_runs()).rich == seq![
            InlineRunV { bold: true, italic: true, ..plain_run(t) },
        ],
{
    inline_tags_differ();
    marks();
    let f = Fmt { bold: true, ..unmarked() };
    let g = Fmt { italic: true, ..f };
    only_text(k, t, g, None);
    assert(e.children[0] == TreeV::Element(k));
    assert(element_runs(k, f, None, no_runs()) == runs_from(k.children, 0, g, None, no_runs()));
    assert(runs_from(e.children, 1, f, None, element_runs(k, f, None, no_runs())) == element_runs(
        k,
        f,
        None,
        no_runs(),
    ));
    assert(runs_from(e.children, 0, f, None, no_runs()) == element_runs(k, f, None, no_runs()));
    assert(element_runs(e, unmarked(), None, no_runs()) == runs_from(
        e.children,
        0,
        f,
        None,
        no_runs(),
    ));
    assert(run_markdown(t, g, None) =~= seq!['*', '*', '*'] + escaped(t) + seq!['*', '*', '*']);
}

// ------------------------------------------------------------ lists

/// Whether an element is an item of a list with a text and nothing nested.
pub open spec fn is_item(li: ElementV, base: Fmt) -> bool {
    &&& li.tag == "li"@
    &&& li_text(li, base).len() > 0
    &&& forall|k: int| 0 <= k < li.children.len() ==> (#[trigger] li.children[k]) is Text
}

/// Whether the children of a list are items.
pub open spec fn is_list_of(ch: Seq<TreeV>, items: Seq<ElementV>, base: Fmt) -> bool {
    &&& ch.len() == items.len()
    &&& forall|k: int|
        0 <= k < ch.len() ==> #[trigger] ch[k] == TreeV::Element(items[k]) && is_item(
            items[k],
            base,
        )
}

proof fn texts_nest_nothing(ch: Seq<TreeV>, i: int, level: u8, base: Fmt, nodes: Seq<NodeV>)
    requires
        0 <= i,
        forall|k: int| 0 <= k < ch.len() ==> (#[trigger] ch[k]) is Text,
    ensures
        nested_from(ch, i, level, base, nodes) == nodes,
    decreases ch.len() - i,
{
    if i < ch.len() {
        assert(ch[i] is Text);
        texts_nest_nothing(ch, i + 1, level, base, nodes);
    }
}

proof fn items_count_on(
    ch: Seq<TreeV>,
    items: Seq<ElementV>,
    i: int,
    s: ListState,
    base: Fmt,
    nodes: Seq<NodeV>,
)
    requires
        0 <= i <= ch.len(),
        is_list_of(ch, items, base),
        s.number + (ch.len() - i) <= u64::MAX,
    ensures
        ({
            let r = list_from(ch, i, s, base, nodes);
            &&& r.len() == nodes.len() + (ch.len() - i)
            &&& forall|k: int| 0 <= k < nodes.len() ==> #[trigger] r[k] == nodes[k]
            &&& forall|k: int|
                i <= k < ch.len() ==> #[trigger] r[nodes.len() + k - i] == (NodeV::ListItem {
                    ordered: s.ordered,
                    number: (s.number + (k - i)) as u64,
                    first_in_list: s.first && k == i,
                    text: li_text(items[k], base),
                    level: s.level,
                    marker: if s.marked {
                        Some(decimal(s.number + (k - i)).push('.'))
                    } else {
                        None
                    },
                    href: first_target(items[k]),
                    layer: None,
                })
        }),
    decreases ch.len() - i,
{
    if i < ch.len() {
        assert(ch[i] == TreeV::Element(items[i]));
        let li = items[i];
        let here = NodeV::ListItem {
            ordered: s.ordered,
            number: s.number,
            first_in_list: s.first,
            text: li_text(li, base),
            level: s.level,
            marker: if s.marked {
                Some(decimal(s.number as int).push('.'))
            } else {
                None
            },
            href: first_target(li),
            layer: None,
        };
        let next = ListState { number: (s.number + 1) as u64, first: false, ..s };
        texts_nest_nothing(li.children, 0, s.level, base, nodes.push(here));
        items_count_on(ch, items, i + 1, next, base, nodes.push(here));
        let r = list_from(ch, i, s, base, nodes);
        assert(r == list_from(ch, i + 1, next, base, nodes.push(here)));
        assert forall|k: int| 0 <= k < nodes.len() implies #[trigger] r[k] == nodes[k] by {
            assert(nodes.push(here)[k] == nodes[k]);
        }
        assert forall|k: int| i <= k < ch.len() implies #[trigger] r[nodes.len() + k - i] == (
        NodeV::ListItem {
            ordered: s.ordered,
            number: (s.number + (k - i)) as u64,
            first_in_list: s.first && k == i,
            text: li_text(items[k], base),
            level: s.level,
            marker: if s.marked {
                Some(decimal(s.number + (k - i)).push('.'))
            } else {
                None
            },
            href: first_target(items[k]),
            layer: None,
        }) by {
            if k == i {
                assert(nodes.push(here)[nodes.len() as int] == here);
                assert(r[nodes.len() as int] == here);
            } else {
                assert(r[nodes.push(here).len() + k - (i + 1)] == r[nodes.len() + k - i]);
            }
        }
    }
}

proof fn block_tags_differ()
    ensures
        block_group("p"@) == 7,
        block_group("ul"@) == 8,
        block_group("ol"@) == 9,
        block_group("dl"@) == 10,
        block_group("pre"@) == 11,
        block_group("table"@) == 12,
        block_group("figure"@) == 13,
        block_group("hr"@) == 14,
        block_group("input"@) == 15,
        block_group("label"@) == 16,
        block_group("footer"@) == 17,
{
    reveal_strlit("h1");
    reveal_strlit("h2");
    reveal_strlit("h3");
    reveal_strlit("h4");
    reveal_strlit("h5");
    reveal_strlit("h6");
    reveal_strlit("p");
    reveal_strlit("ul");
    reveal_strlit("ol");
    reveal_strlit("dl");
    reveal_strlit("pre");
    reveal_strlit("table");
    reveal_strlit("figure");
    reveal_strlit("hr");
    reveal_strlit("input");
    reveal_strlit("label");
    reveal_strlit("footer");
    assert("h1"@.len() == 2);
    assert("h2"@.len() == 2);
    assert("h3"@.len() == 2);
    assert("h4"@.len() == 2);
    assert("h5"@.len() == 2);
    assert("h6"@.len() == 2);
    assert("p"@.len() == 1);
    assert("ul"@.len() == 2);
    assert("ol"@.len() == 2);
    assert("dl"@.len() == 2);
    assert("pre"@.len() == 3);
    assert("table"@.len() == 5);
    assert("figure"@.len() == 6);
    assert("hr"@.len() == 2);
    assert("input"@.len() == 5);
    assert("label"@.len() == 5);
    assert("footer"@.len() == 6);
    assert("h1"@[0] == 'h');
    assert("h1"@[1] == '1');
    assert("h2"@[0] == 'h');
    assert("h2"@[1] == '2');
    assert("h3"@[0] == 'h');
    assert("h3"@[1] == '3');
    assert("h4"@[0] == 'h');
    assert("h4"@[1] == '4');
    assert("h5"@[0] == 'h');
    assert("h5"@[1] == '5');
    assert("h6"@[0] == 'h');
    assert("h6"@[1] == '6');
    assert("ul"@[0] == 'u');
    assert("ol"@[0] == 'o');
    assert("dl"@[0] == 'd');
    assert("table"@[0] == 't');
    assert("figure"@[1] == 'i');
    assert("hr"@[0] == 'h');
    assert("hr"@[1] == 'r');
    assert("input"@[0] == 'i');
    assert("label"@[0] == 'l');
    assert("footer"@[1] == 'o');
}

/// The block tags in the order in which a page tells them apart.
spec fn block_group(t: Seq<char>) -> int {
    if t == "h1"@ || t == "h2"@ || t == "h3"@ || t == "h4"@ || t == "h5"@ || t == "h6"@ {
        1
    } else if t == "p"@ {
        7
    } else if t == "ul"@ {
        8
    } else if t == "ol"@ {
        9
    } else if t == "dl"@ {
        10
    } else if t == "pre"@ {
        11
    } else if t == "table"@ {
        12
    } else if t == "figure"@ {
        13
    } else if t == "hr"@ {
        14
    } else if t == "input"@ {
        15
    } else if t == "label"@ {
        16
    } else if t == "footer"@ {
        17
    } else {
        0
    }
}

/// The items of an `ol` element are ordered and count on from its `start`, or
/// from one. A list that says its start marks each item with its number; the
/// first item of a list on its own is the first of it.
pub proof fn ordered_lists_count_on(
    e: ElementV,
    items: Seq<ElementV>,
    start: int,
    level: u8,
    base: Fmt,
    root: ElementV,
    fetch: bool,
    nodes: Seq<NodeV>,
)
    requires
        e.tag == "ol"@,
        is_list_of(e.children, items, base),
        match plain_attr_of(e, "start"@) {
            Some(v) => uint(strip(v), u64::MAX as int) == Some(start),
            None => start == 1,
        },
        0 <= start,
        start + items.len() <= u64::MAX,
    ensures
        ({
            let r = handled(e, level, base, root, fetch, nodes);
            &&& r.len() == nodes.len() + items.len()
            &&& forall|k: int| 0 <= k < nodes.len() ==> #[trigger] r[k] == nodes[k]
            &&& forall|k: int|
                0 <= k < items.len() ==> #[trigger] r[nodes.len() + k] == (NodeV::ListItem {
                    ordered: true,
                    number: (start + k) as u64,
                    first_in_list: level == 0 && k == 0,
                    text: li_text(items[k], base),
                    level,
                    marker: match plain_attr_of(e, "start"@) {
                        Some(_) => Some(decimal(start + k).push('.')),
                        None => None,
                    },
                    href: first_target(items[k]),
                    layer: None,
                })
        }),
{
    block_tags_differ();
    let s = ListState {
        ordered: true,
        number: start as u64,
        marked: plain_attr_of(e, "start"@) is Some,
        first: level == 0,
        level,
    };
    assert(list_start(e, true, level) == s);
    items_count_on(e.children, items, 0, s, base, nodes);
    let r = handled(e, level, base, root, fetch, nodes);
    assert forall|k: int| 0 <= k < items.len() implies #[trigger] r[nodes.len() + k] == (
    NodeV::ListItem {
        ordered: true,
        number: (start + k) as u64,
        first_in_list: level == 0 && k == 0,
        text: li_text(items[k], base),
        level,
        marker: match plain_attr_of(e, "start"@) {
            Some(_) => Some(decimal(start + k).push('.')),
            None => None,
        },
        href: first_target(items[k]),
        layer: None,
    }) by {
        assert(r[nodes.len() + k - 0] == r[nodes.len() + k]);
    }
}

/// The items of a `ul` element are not ordered and have no marker.
pub proof fn unordered_lists_have_no_markers(
    e: ElementV,
    items: Seq<ElementV>,
    level: u8,
    base: Fmt,
    root: ElementV,
    fetch: bool,
    nodes: Seq<NodeV>,
)
    requires
        e.tag == "ul"@,
        is_list_of(e.children, items, base),
        1 + items.len() <= u64::MAX,
    ensures
        ({
            let r = handled(e, level, base, root, fetch, nodes);
            &&& r.len() == nodes.len() + items.len()
            &&& forall|k: int|
                0 <= k < items.len() ==> #[trigger] r[nodes.len() + k] == (NodeV::ListItem {
                    ordered: false,
                    number: (1 + k) as u64,
                    first_in_list: level == 0 && k == 0,
                    text: li_text(items[k], base),
                    level,
                    marker: None,
                    href: first_target(items[k]),
                    layer: None,
                })
        }),
{
    block_tags_differ();
    let s = ListState { ordered: false, number: 1, marked: false, first: level == 0, level };
    assert(list_start(e, false, level) == s);
    items_count_on(e.children, items, 0, s, base, nodes);
    let r = handled(e, level, base, root, fetch, nodes);
    assert forall|k: int| 0 <= k < items.len() implies #[trigger] r[nodes.len() + k] == (
    NodeV::ListItem {
        ordered: false,
        number: (1 + k) as u64,
        first_in_list: level == 0 && k == 0,
        text: li_text(items[k], base),
        level,
        marker: None,
        href: first_target(items[k]),
        layer: None,
    }) by {
        assert(r[nodes.len() + k - 0] == r[nodes.len() + k]);
    }
}

/// The items of a list in an item lie one level deeper, and are ordered where
/// the inner list is an `ol`.
pub proof fn nested_lists_lie_deeper(
    ch: Seq<TreeV>,
    inner: ElementV,
    items: Seq<ElementV>,
    level: u8,
    base: Fmt,
    nodes: Seq<NodeV>,
)
    requires
        ch == seq![TreeV::Element(inner)],
        inner.tag == "ol"@ || inner.tag == "ul"@,
        !is_hidden_el(inner),
        is_list_of(inner.children, items, base),
        plain_attr_of(inner, "start"@) is None,
        level < 255,
        items.len() < 1000,
    ensures
        ({
            let r = nested_from(ch, 0, level, base, nodes);
            &&& r.len() == nodes.len() + items.len()
            &&& forall|k: int|
                0 <= k < items.len() ==> (#[trigger] r[nodes.len() + k])->ListItem_level == level + 1
                    && r[nodes.len() + k]->ListItem_ordered == (inner.tag == "ol"@)
                    && r[nodes.len() + k]->ListItem_number == k + 1
                    && r[nodes.len() + k]->ListItem_text == li_text(items[k], base)
                    && !r[nodes.len() + k]->ListItem_first_in_list
        }),
{
    block_tags_differ();
    let ordered = inner.tag == "ol"@;
    let s = ListState {
        ordered,
        number: 1,
        marked: false,
        first: false,
        level: (level + 1) as u8,
    };
    assert(list_start(inner, ordered, (level + 1) as u8) == s);
    items_count_on(inner.children, items, 0, s, base, nodes);
    assert(ch[0] == TreeV::Element(inner));
    reveal_with_fuel(nested_from, 2);
    let r = nested_from(ch, 0, level, base, nodes);
    assert(r == list_from(inner.children, 0, s, base, nodes));
    assert forall|k: int| 0 <= k < items.len() implies (#[trigger] r[nodes.len()
        + k])->ListItem_level == level + 1 && r[nodes.len() + k]->ListItem_ordered == (inner.tag
        == "ol"@) && r[nodes.len() + k]->ListItem_number == k + 1 && r[nodes.len()
        + k]->ListItem_text == li_text(items[k], base) && !r[nodes.len()
        + k]->ListItem_first_in_list by {
        assert(r[nodes.len() + k - 0] == r[nodes.len() + k]);
    }
}

} // verus!
