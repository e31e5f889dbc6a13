//! Laws of the text, lists, tables and charts of an OpenDocument file.

use crate::document::{has_shape, NodeV, Script};
use crate::htmltable::RenderedV;
use crate::jats::next_level;
use crate::odf::{
    inline_run, inline_runs, level_of, merged_from, no_fmt, para_runs, resolved, run_markdown,
    runs_from, runs_text, spaces, style_fmt, style_info, style_named, Fmt, ListStyleV, RunV, StyleV,
};
use crate::odfbody::{
    byte_at, content_of, handled, heading_level, images_of, kind_of, pieces_from, sextet,
    slide_name, with_heading, with_para, Kind, OdfV, PieceV,
};
use crate::odflist::{begun, enumerated, item_text, items_from, nested_from, own_level, up, ContV};
use crate::odftable::{head_rows, put, put_cells, put_times, GridV};
use crate::text::{decimal, decimals_read_back, escaped, has_prefix, is_digit, number, sint, uint};
use crate::tree::{attr_of, child_of, either_of, ElementV, TreeV};
use vstd::prelude::*;

verus! {

// ------------------------------------------------------------ styles

/// The properties of a style say what its text is: a `font-weight` of `bold`
/// or of at least 600 is bold, a `font-style` of `italic` or `oblique` is
/// italic, and a line through or under the text that is not `none` strikes or
/// underlines it. What a property does not say stays open.
pub proof fn properties_say_what_text_is(e: ElementV, name: Seq<char>, p: ElementV)
    requires
        either_of(e, "text-properties"@, "properties"@) == Some(p),
    ensures
        attr_of(p, "font-weight"@) == Some("bold"@) ==> style_info(e, name).bold == Some(true),
        forall|n: int|
            600 <= n <= 900 && attr_of(p, "font-weight"@) == Some(#[trigger] decimal(n))
                ==> style_info(e, name).bold == Some(true),
        forall|n: int|
            100 <= n < 600 && attr_of(p, "font-weight"@) == Some(#[trigger] decimal(n))
                ==> style_info(e, name).bold == Some(false),
        attr_of(p, "font-weight"@) is None ==> style_info(e, name).bold is None,
        attr_of(p, "font-style"@) == Some("italic"@) || attr_of(p, "font-style"@) == Some(
            "oblique"@,
        ) ==> style_info(e, name).italic == Some(true),
        attr_of(p, "font-style"@) == Some("normal"@) ==> style_info(e, name).italic == Some(false),
        attr_of(p, "font-style"@) is None ==> style_info(e, name).italic is None,
        attr_of(p, "text-line-through-style"@) == Some("solid"@) ==> style_info(e, name).strike
            == Some(true),
        attr_of(p, "text-line-through-style"@) == Some("none"@) ==> style_info(e, name).strike
            == Some(false),
        attr_of(p, "text-underline-style"@) == Some("solid"@) ==> style_info(e, name).underline
            == Some(true),
        attr_of(p, "text-underline-style"@) == Some("none"@) ==> style_info(e, name).underline
            == Some(false),
        style_info(e, name).name == name,
        style_info(e, name).parent == attr_of(e, "parent-style-name"@),
        style_info(e, name).display == attr_of(e, "display-name"@),
{
    reveal_strlit("bold");
    reveal_strlit("italic");
    reveal_strlit("oblique");
    reveal_strlit("normal");
    reveal_strlit("solid");
    reveal_strlit("none");
    assert("bold"@.len() == 4);
    assert("italic"@.len() == 6);
    assert("oblique"@.len() == 7);
    assert("normal"@.len() == 6);
    assert("solid"@.len() == 5);
    assert("none"@.len() == 4);
    assert("bold"@[0] == 'b');
    assert("italic"@[0] == 'i');
    assert("normal"@[0] == 'n');
    assert("none"@[0] == 'n');
    assert forall|n: int| 100 <= n <= 900 implies sint(
        #[trigger] decimal(n),
        i32::MIN as int,
        i32::MAX as int,
    ) == Some(n) && decimal(n) != "bold"@ by {
        decimals_read_back(n);
        let d = decimal(n);
        assert(is_digit(d[0]));
        assert("bold"@[0] == 'b');
    }
}

/// Text in the position `super` stands above the line and text in the
/// position `sub` below it.
pub proof fn positions_raise_and_lower(e: ElementV, name: Seq<char>, p: ElementV, rest: Seq<char>)
    requires
        either_of(e, "text-properties"@, "properties"@) == Some(p),
    ensures
        attr_of(p, "text-position"@) == Some("super"@ + rest) ==> style_info(e, name).script
            == Some(Script::Super),
        attr_of(p, "text-position"@) == Some("sub"@ + rest) ==> style_info(e, name).script == Some(
            Script::Sub,
        ),
{
    reveal_strlit("super");
    reveal_strlit("sub");
    assert("super"@.len() == 5);
    assert("sub"@.len() == 3);
    assert(("super"@ + rest).take(5) =~= "super"@);
    assert(("sub"@ + rest).take(3) =~= "sub"@);
    let s = "sub"@ + rest;
    assert(s[2] == 'b');
    assert("super"@[2] == 'p');
    if has_prefix(s, "super"@) {
        assert(s.take(5)[2] == s[2]);
    }
}

/// A style with no parent gives text what it says, and leaves what it does
/// not say as it is around it.
pub proof fn styles_apply_what_they_say(styles: Seq<StyleV>, s: StyleV, base: Fmt)
    requires
        style_named(styles, styles.len() as int, s.name) == Some(s),
        s.parent is None,
    ensures
        ({
            let f = style_fmt(styles, Some(s.name), base);
            &&& f.bold == match s.bold {
                Some(b) => b,
                None => base.bold,
            }
            &&& f.italic == match s.italic {
                Some(b) => b,
                None => base.italic,
            }
            &&& f.strike == match s.strike {
                Some(b) => b,
                None => base.strike,
            }
            &&& f.underline == match s.underline {
                Some(b) => b,
                None => base.underline,
            }
            &&& f.script == match s.script {
                Some(b) => b,
                None => base.script,
            }
        }),
{
    assert(styles.len() > 0);
    reveal_with_fuel(resolved, 3);
}

// ------------------------------------------------------------ runs

proof fn run_tags_differ()
    ensures
        run_group("span"@) == 1,
        run_group("a"@) == 2,
        run_group("line-break"@) == 3,
        run_group("tab"@) == 4,
        run_group("s"@) == 5,
{
    reveal_strlit("span");
    reveal_strlit("a");
    reveal_strlit("line-break");
    reveal_strlit("tab");
    reveal_strlit("tab-stop");
    reveal_strlit("s");
    reveal_strlit("object");
    reveal_strlit("binary-data");
    assert("span"@.len() == 4);
    assert("a"@.len() == 1);
    assert("line-break"@.len() == 10);
    assert("tab"@.len() == 3);
    assert("tab-stop"@.len() == 8);
    assert("s"@.len() == 1);
    assert("object"@.len() == 6);
    assert("binary-data"@.len() == 11);
    assert("a"@[0] == 'a');
    assert("s"@[0] == 's');
}

/// The tags of runs in the order in which they are told apart.
spec fn run_group(t: Seq<char>) -> int {
    if t == "span"@ {
        1
    } else if t == "a"@ {
        2
    } else if t == "line-break"@ {
        3
    } else if t == "tab"@ || t == "tab-stop"@ {
        4
    } else if t == "s"@ {
        5
    } else {
        0
    }
}

/// A text in a `span` has the markup of the style that the span names.
pub proof fn spans_take_their_style(p: ElementV, k: ElementV, t: Seq<char>, styles: Seq<StyleV>)
    requires
        p.children == seq![TreeV::Element(k)],
        k.tag == "span"@,
        k.children == seq![TreeV::Text(t)],
    ensures
        para_runs(p, styles) == seq![
            RunV {
                text: t,
                fmt: style_fmt(styles, attr_of(k, "style-name"@), no_fmt()),
                href: None,
            },
        ],
{
    run_tags_differ();
    let f = style_fmt(styles, attr_of(k, "style-name"@), no_fmt());
    let run = RunV { text: t, fmt: f, href: None };
    assert(p.children[0] == TreeV::Element(k));
    assert(k.children[0] == TreeV::Text(t));
    let none = Seq::<RunV>::empty();
    assert(runs_from(k.children, 1, styles, f, None, none.push(run)) == none.push(run));
    assert(runs_from(k.children, 0, styles, f, None, none) == none.push(run));
    assert(runs_from(p.children, 1, styles, no_fmt(), None, none.push(run)) == none.push(run));
    assert(runs_from(p.children, 0, styles, no_fmt(), None, none) == none.push(run));
    assert(none.push(run) =~= seq![run]);
}

/// A line break is a line break, a tab is a tab, and `s` is as many spaces as
/// its `c` says, or one.
pub proof fn breaks_tabs_and_spaces(p: ElementV, k: ElementV, n: int, styles: Seq<StyleV>)
    requires
        p.children == seq![TreeV::Element(k)],
        match attr_of(k, "c"@) {
            Some(v) => uint(v, usize::MAX as int) == Some(n),
            None => n == 1,
        },
        0 <= n,
    ensures
        k.tag == "line-break"@ ==> para_runs(p, styles) == seq![
            RunV { text: seq!['\n'], fmt: no_fmt(), href: None },
        ],
        k.tag == "tab"@ ==> para_runs(p, styles) == seq![
            RunV { text: seq!['\t'], fmt: no_fmt(), href: None },
        ],
        k.tag == "s"@ ==> para_runs(p, styles).len() == 1 && para_runs(p, styles)[0].text.len() == n
            && forall|i: int|
            0 <= i < n ==> #[trigger] para_runs(p, styles)[0].text[i] == ' ',
{
    run_tags_differ();
    assert(p.children[0] == TreeV::Element(k));
    let none = Seq::<RunV>::empty();
    let text = if k.tag == "line-break"@ {
        seq!['\n']
    } else if k.tag == "tab"@ {
        seq!['\t']
    } else {
        spaces(n)
    };
    let run = RunV { text, fmt: no_fmt(), href: None };
    assert(runs_from(p.children, 1, styles, no_fmt(), None, none.push(run)) == none.push(run));
    if k.tag == "line-break"@ || k.tag == "tab"@ || k.tag == "s"@ {
        assert(runs_from(p.children, 0, styles, no_fmt(), None, none) == none.push(run));
        assert(none.push(run) =~= seq![run]);
    }
}

proof fn marks()
    ensures
        "*"@ == seq!['*'],
        "**"@ == seq!['*', '*'],
        "~~"@ == seq!['~', '~'],
        "["@ == seq!['['],
        "]("@ == seq![']', '('],
        ")"@ == seq![')'],
{
    reveal_strlit("*");
    reveal_strlit("**");
    reveal_strlit("~~");
    reveal_strlit("[");
    reveal_strlit("](");
    reveal_strlit(")");
    assert("*"@ =~= seq!['*']);
    assert("**"@ =~= seq!['*', '*']);
    assert("~~"@ =~= seq!['~', '~']);
    assert("["@ =~= seq!['[']);
    assert("]("@ =~= seq![']', '(']);
    assert(")"@ =~= seq![')']);
}

/// Bold text stands between double asterisks, italic text between asterisks
/// and struck text between double tildes; a link stands in brackets before
/// its target. Underlined, raised and lowered text shows no mark.
pub proof fn markup_shows_as_marks(t: Seq<char>, href: Seq<char>)
    requires
        t.len() > 0,
    ensures
        run_markdown(RunV { text: t, fmt: Fmt { bold: true, ..no_fmt() }, href: None }) == seq![
            '*',
            '*',
        ] + escaped(t) + seq!['*', '*'],
        run_markdown(RunV { text: t, fmt: Fmt { italic: true, ..no_fmt() }, href: None }) == seq![
            '*',
        ] + escaped(t) + seq!['*'],
        run_markdown(RunV { text: t, fmt: Fmt { strike: true, ..no_fmt() }, href: None }) == seq![
            '~',
            '~',
        ] + escaped(t) + seq!['~', '~'],
        run_markdown(RunV { text: t, fmt: Fmt { underline: true, ..no_fmt() }, href: None })
            == escaped(t),
        run_markdown(RunV { text: t, fmt: no_fmt(), href: Some(href) }) == seq!['['] + escaped(t)
            + seq![']', '('] + href + seq![')'],
        run_markdown(RunV { text: t, fmt: no_fmt(), href: None }) == escaped(t),
{
    marks();
}

/// The run of a document has the markup of the text, one for one.
pub proof fn runs_keep_their_markup(r: RunV)
    ensures
        inline_run(r).text == r.text,
        inline_run(r).bold == r.fmt.bold,
        inline_run(r).italic == r.fmt.italic,
        inline_run(r).underline == r.fmt.underline,
        inline_run(r).strike == r.fmt.strike,
        inline_run(r).script == r.fmt.script,
        !inline_run(r).code,
        !inline_run(r).formula,
{
}

/// Neighbouring texts of the same markup are one run.
pub proof fn alike_texts_are_one_run(
    a: Seq<char>,
    b: Seq<char>,
    f: Fmt,
    href: Option<Seq<char>>,
    edges: bool,
)
    ensures
        merged_from(
            seq![RunV { text: a, fmt: f, href }, RunV { text: b, fmt: f, href }],
            0,
            edges,
            seq![],
        ) == seq![RunV { text: a + b, fmt: f, href }],
{
    let x = RunV { text: a, fmt: f, href };
    let y = RunV { text: b, fmt: f, href };
    let v = seq![x, y];
    assert(v[0] == x && v[1] == y);
    reveal_with_fuel(merged_from, 3);
    let none = Seq::<RunV>::empty();
    assert(none.push(x).take(0) =~= none);
    assert(merged_from(v, 0, edges, none) =~= seq![RunV { text: a + b, fmt: f, href }]);
}

// ------------------------------------------------------------ headings

/// A heading lies one level below its `outline-level`, which is one where
/// none is said: the first level is that of the title.
pub proof fn headings_lie_below_the_title(e: ElementV, n: int)
    requires
        1 <= n < 255,
    ensures
        attr_of(e, "outline-level"@) == Some(decimal(n)) ==> heading_level(e) == n + 1,
        attr_of(e, "outline-level"@) is None && attr_of(e, "level"@) == Some(decimal(n))
            ==> heading_level(e) == n + 1,
        attr_of(e, "outline-level"@) is None && attr_of(e, "level"@) is None ==> heading_level(e)
            == 2,
{
    decimals_read_back(n);
    assert(is_digit(decimal(n)[0]));
}

/// A heading is a heading with its text; a paragraph in the style `Title` is
/// a heading of the first level, one in the style `Subtitle` of the second,
/// and any other one is a paragraph of runs.
pub proof fn titles_are_headings(e: ElementV, x: OdfV, nodes: Seq<NodeV>, text: Seq<char>)
    requires
        runs_text(para_runs(e, x.styles)) == text,
        text.len() > 0,
    ensures
        with_heading(e, x, nodes) == nodes.push(NodeV::Heading { level: heading_level(e), text }),
        attr_of(e, "style-name"@) == Some("Title"@) ==> with_para(e, x, nodes) == nodes.push(
            NodeV::Heading { level: 1, text },
        ),
        attr_of(e, "style-name"@) == Some("Subtitle"@) && style_named(
            x.styles,
            x.styles.len() as int,
            "Subtitle"@,
        ) is None ==> with_para(e, x, nodes) == nodes.push(NodeV::Heading { level: 2, text }),
        attr_of(e, "style-name"@) is None ==> with_para(e, x, nodes) == nodes.push(
            NodeV::Inline {
                text,
                runs: inline_runs(para_runs(e, x.styles)),
                unwrapped: false,
            },
        ),
{
    reveal_strlit("Title");
    reveal_strlit("Subtitle");
    assert("Title"@.len() == 5);
    assert("Subtitle"@.len() == 8);
}

/// An `h` element is read as a heading and a `p` element as a paragraph,
/// behind their pictures.
pub proof fn elements_are_read_by_their_tag(e: ElementV, x: OdfV, framed: bool, nodes: Seq<NodeV>)
    ensures
        e.tag == "h"@ ==> handled(e, x, framed, nodes) == with_heading(
            e,
            x,
            images_of(e, x, framed, nodes),
        ),
        e.tag == "p"@ ==> handled(e, x, framed, nodes) == with_para(
            e,
            x,
            images_of(e, x, framed, nodes),
        ),
{
    reveal_strlit("h");
    reveal_strlit("p");
    assert("h"@.len() == 1);
    assert("p"@.len() == 1);
    assert("h"@[0] == 'h');
    assert("p"@[0] == 'p');
}

// ------------------------------------------------------------ lists

/// A level of a list style is numbered where it is a
/// `list-level-style-number`; it starts at its `start-value` or one, and its
/// `num-prefix` and `num-suffix` stand around the number.
pub proof fn list_levels_say_how_to_count(e: ElementV, n: int, l: int)
    requires
        1 <= n <= i64::MAX,
        1 <= l <= i64::MAX,
        attr_of(e, "start-value"@) == Some(decimal(n)),
        attr_of(e, "level"@) == Some(decimal(l)),
    ensures
        level_of(e).level == l,
        level_of(e).numbered == (e.tag == "list-level-style-number"@),
        level_of(e).start == n,
        attr_of(e, "num-prefix"@) matches Some(p) ==> level_of(e).prefix == p,
        attr_of(e, "num-suffix"@) matches Some(s) ==> level_of(e).suffix == s,
{
    decimals_read_back(n);
    decimals_read_back(l);
    assert(is_digit(decimal(n)[0]));
    assert(is_digit(decimal(l)[0]));
}

/// Whether an element is an item of a list with a text and nothing nested.
pub open spec fn is_plain_item(li: ElementV, st: Seq<StyleV>) -> bool {
    &&& li.tag == "list-item"@
    &&& item_text(li, st).len() > 0
    &&& forall|k: int|
        0 <= k < li.children.len() ==> match #[trigger] li.children[k] {
            TreeV::Element(e) => e.tag == "p"@,
            _ => true,
        }
}

proof fn paragraphs_nest_nothing(
    ch: Seq<TreeV>,
    i: int,
    st: Seq<StyleV>,
    ls: Seq<ListStyleV>,
    depth: u8,
    level: int,
    fallback: bool,
    nodes: Seq<NodeV>,
)
    requires
        0 <= i,
        forall|k: int|
            0 <= k < ch.len() ==> match #[trigger] ch[k] {
                TreeV::Element(e) => e.tag == "p"@,
                _ => true,
            },
    ensures
        nested_from(ch, i, st, ls, depth, level, fallback, nodes) == nodes,
    decreases ch.len() - i,
{
    if i < ch.len() {
        reveal_strlit("p");
        reveal_strlit("list");
        reveal_strlit("ordered-list");
        reveal_strlit("unordered-list");
        assert("p"@.len() == 1 && "list"@.len() == 4 && "ordered-list"@.len() == 12
            && "unordered-list"@.len() == 14);
        match ch[i] {
            TreeV::Element(e) => {
                assert(e.tag == "p"@);
            },
            _ => {},
        }
        paragraphs_nest_nothing(ch, i + 1, st, ls, depth, level, fallback, nodes);
    }
}

/// The items of a list count on by one: each has the next number behind the
/// prefix of its level and before its suffix, where the list is numbered, and
/// none where it is not.
pub proof fn list_items_count_on(
    ch: Seq<TreeV>,
    items: Seq<ElementV>,
    i: int,
    st: Seq<StyleV>,
    ls: Seq<ListStyleV>,
    depth: u8,
    level: int,
    style_enum: bool,
    first: bool,
    c: ContV,
    nodes: Seq<NodeV>,
)
    requires
        0 <= i <= ch.len(),
        ch.len() == items.len(),
        forall|k: int|
            0 <= k < ch.len() ==> #[trigger] ch[k] == TreeV::Element(items[k]) && is_plain_item(
                items[k],
                st,
            ),
        0 <= c.counter,
        c.counter + (ch.len() - i) < i64::MAX,
    ensures
        ({
            let r = items_from(ch, i, st, ls, depth, level, style_enum, first, c, nodes).nodes;
            &&& r.len() == nodes.len() + (ch.len() - i)
            &&& forall|k: int| 0 <= k < nodes.len() ==> #[trigger] r[k] == nodes[k]
            &&& forall|k: int|
                i <= k < ch.len() ==> #[trigger] r[nodes.len() + k - i] == (NodeV::ListItem {
                    ordered: c.enumerated,
                    number: if c.enumerated {
                        (c.counter + 1 + (k - i)) as u64
                    } else {
                        0
                    },
                    first_in_list: first && k == i,
                    text: item_text(items[k], st),
                    level: depth,
                    marker: if c.enumerated {
                        Some(c.prefix + decimal(c.counter + 1 + (k - i)) + c.suffix)
                    } else {
                        None
                    },
                    href: None,
                    layer: None,
                })
        }),
    decreases ch.len() - i,
{
    if i < ch.len() {
        assert(ch[i] == TreeV::Element(items[i]));
        let li = items[i];
        let here = NodeV::ListItem {
            ordered: c.enumerated,
            number: if c.enumerated {
                (c.counter + 1) as u64
            } else {
                0
            },
            first_in_list: first,
            text: item_text(li, st),
            level: depth,
            marker: if c.enumerated {
                Some(c.prefix + decimal(c.counter + 1) + c.suffix)
            } else {
                None
            },
            href: None,
            layer: None,
        };
        let d = ContV { counter: c.counter + 1, has_last: true, ..c };
        let more = nodes.push(here);
        paragraphs_nest_nothing(
            li.children,
            0,
            st,
            ls,
            next_level(depth),
            up(level),
            style_enum,
            more,
        );
        assert(items_from(ch, i, st, ls, depth, level, style_enum, first, c, nodes) == items_from(
            ch,
            i + 1,
            st,
            ls,
            depth,
            level,
            style_enum,
            false,
            d,
            more,
        ));
        list_items_count_on(ch, items, i + 1, st, ls, depth, level, style_enum, false, d, more);
        let r = items_from(ch, i, st, ls, depth, level, style_enum, first, c, nodes).nodes;
        assert forall|k: int| 0 <= k < nodes.len() implies #[trigger] r[k] == nodes[k] by {
            assert(more[k] == nodes[k]);
        }
        assert forall|k: int| i <= k < ch.len() implies #[trigger] r[nodes.len() + k - i] == (
        NodeV::ListItem {
            ordered: c.enumerated,
            number: if c.enumerated {
                (c.counter + 1 + (k - i)) as u64
            } else {
                0
            },
            first_in_list: first && k == i,
            text: item_text(items[k], st),
            level: depth,
            marker: if c.enumerated {
                Some(c.prefix + decimal(c.counter + 1 + (k - i)) + c.suffix)
            } else {
                None
            },
            href: None,
            layer: None,
        }) by {
            if k == i {
                assert(more[nodes.len() as int] == here);
                assert(r[nodes.len() as int] == here);
            } else {
                assert(r[more.len() + k - (i + 1)] == r[nodes.len() + k - i]);
            }
        }
    }
}

/// A list begins before the start of its level, so that its first item has
/// that number, and takes the prefix and the suffix from there. Without a
/// level of its own an `ordered-list` is numbered and an `unordered-list` is
/// not.
pub proof fn lists_begin_at_their_start(
    e: ElementV,
    ls: Seq<ListStyleV>,
    level: int,
    fallback: bool,
)
    ensures
        own_level(e, ls, level) matches Some(l) ==> {
            let c = begun(e, ls, level, fallback);
            &&& c.enumerated == l.numbered
            &&& l.start > i64::MIN ==> c.counter + 1 == l.start
            &&& c.prefix == l.prefix
            &&& c.suffix == l.suffix
        },
        own_level(e, ls, level) is None ==> {
            let c = begun(e, ls, level, fallback);
            &&& e.tag == "ordered-list"@ ==> c.enumerated
            &&& e.tag == "unordered-list"@ ==> !c.enumerated
            &&& e.tag == "list"@ ==> c.enumerated == fallback
            &&& c.counter == 0
            &&& c.prefix.len() == 0
            &&& c.suffix.len() == 0
        },
{
    reveal_strlit("ordered-list");
    reveal_strlit("unordered-list");
    reveal_strlit("list");
    assert("ordered-list"@.len() == 12);
    assert("unordered-list"@.len() == 14);
    assert("list"@.len() == 4);
}

// ------------------------------------------------------------ tables

/// How many rows or columns an attribute of a cell says.
pub open spec fn spans(e: ElementV, name: Seq<char>) -> int {
    match attr_of(e, name) {
        Some(v) => match uint(v, usize::MAX as int) {
            Some(n) => if n >= 1 {
                n
            } else {
                1
            },
            None => 1,
        },
        None => 1,
    }
}

/// Whether a grid has the shape of a table.
pub open spec fn is_table(g: GridV, height: int, width: int) -> bool {
    &&& has_shape(g.text, height, width)
    &&& has_shape(g.cols, height, width)
    &&& has_shape(g.rows, height, width)
    &&& has_shape(g.blocks, height, width)
}

/// A cell fills the rows of its `number-rows-spanned` and the columns of its
/// `number-columns-spanned` with its text, and nothing else; its places right
/// of the first column go on with the one to the left and those below the
/// first row with the one above. The next cell comes one column on.
pub proof fn cells_fill_their_spans(
    g: GridV,
    e: ElementV,
    x: RenderedV,
    r: int,
    height: int,
    width: int,
    i: int,
    j: int,
)
    requires
        is_table(g, height, width),
        0 <= r < height,
        0 <= g.c < width,
        0 <= i < height,
        0 <= j < width,
        x.blocks.len() == 0,
    ensures
        ({
            let p = put(g, e, x, r, height, width);
            let inside = r <= i < r + spans(e, "number-rows-spanned"@) && g.c <= j < g.c + spans(
                e,
                "number-columns-spanned"@,
            );
            &&& p.c == g.c + 1
            &&& p.text[i][j] == (if inside {
                x.text
            } else {
                g.text[i][j]
            })
            &&& p.cols[i][j] == (inside && j > g.c || g.cols[i][j])
            &&& p.rows[i][j] == (inside && i > r || g.rows[i][j])
        }),
{
}

/// A cell stands as often as its `number-columns-repeated` says, and the next
/// one behind it; a covered cell only takes up its columns.
pub proof fn repeated_cells_stand_side_by_side(
    v: Seq<ElementV>,
    j: int,
    r: int,
    shown: Seq<RenderedV>,
    height: int,
    width: int,
    g: GridV,
)
    requires
        0 <= j < v.len(),
        0 <= g.c,
        g.c + spans(v[j], "number-columns-repeated"@) <= width,
        0 <= g.k < shown.len(),
    ensures
        v[j].tag == "covered-table-cell"@ ==> put_cells(v, j, r, shown, height, width, g)
            == put_cells(
            v,
            j + 1,
            r,
            shown,
            height,
            width,
            GridV { c: g.c + spans(v[j], "number-columns-repeated"@), ..g },
        ),
        v[j].tag == "table-cell"@ && spans(v[j], "number-columns-repeated"@) == 1 && shown[g.k].blocks.len() == 0
            ==> put_cells(v, j, r, shown, height, width, g) == put_cells(
            v,
            j + 1,
            r,
            shown,
            height,
            width,
            GridV { k: g.k + 1, ..put(g, v[j], shown[g.k], r, height, width) },
        ),
        put_times(g, spans(v[j], "number-columns-repeated"@), v[j], shown[g.k], r, height, width).c
            == g.c + spans(v[j], "number-columns-repeated"@),
{
    reveal_strlit("table-cell");
    reveal_strlit("covered-table-cell");
    assert("table-cell"@.len() == 10);
    assert("covered-table-cell"@.len() == 18);
    let n = spans(v[j], "number-columns-repeated"@);
    times_move_on(g, n, v[j], shown[g.k], r, height, width);
    if n == 1 {
        reveal_with_fuel(put_times, 2);
    }
}

proof fn times_move_on(
    g: GridV,
    n: int,
    e: ElementV,
    x: RenderedV,
    r: int,
    height: int,
    width: int,
)
    requires
        0 <= n,
        0 <= g.c,
        g.c + n <= width,
    ensures
        put_times(g, n, e, x, r, height, width).c == g.c + n,
    decreases n,
{
    if n > 0 {
        times_move_on(put(g, e, x, r, height, width), n - 1, e, x, r, height, width);
    }
}

/// The first row of a table is its header, and no other one.
pub proof fn the_first_row_is_the_header(n: int, i: int)
    requires
        0 <= i < n,
    ensures
        head_rows(n).len() == n,
        head_rows(n)[i] == (i == 0),
{
}

// ------------------------------------------------------------ charts

/// The class of a chart says its kind.
pub proof fn classes_say_the_kind_of_chart()
    ensures
        kind_of(Some("chart:bar"@)) == Some("bar_chart"@),
        kind_of(Some("chart:line"@)) == Some("line_chart"@),
        kind_of(Some("chart:circle"@)) == Some("pie_chart"@),
        kind_of(Some("chart:pie"@)) == Some("pie_chart"@),
        kind_of(Some("chart:scatter"@)) == Some("scatter_plot"@),
        kind_of(None) is None,
        forall|c: Seq<char>| #[trigger]
            kind_of(Some(c)) is Some ==> c == "chart:bar"@ || c == "chart:line"@ || c
                == "chart:circle"@ || c == "chart:pie"@ || c == "chart:scatter"@,
{
    reveal_strlit("chart:bar");
    reveal_strlit("chart:line");
    reveal_strlit("chart:circle");
    reveal_strlit("chart:pie");
    reveal_strlit("chart:scatter");
    assert("chart:bar"@.len() == 9);
    assert("chart:line"@.len() == 10);
    assert("chart:circle"@.len() == 12);
    assert("chart:pie"@.len() == 9);
    assert("chart:scatter"@.len() == 13);
    assert("chart:bar"@[6] == 'b');
    assert("chart:pie"@[6] == 'p');
}

// ------------------------------------------------------------ documents

/// The content of a file is a text, a spreadsheet or a presentation by the
/// tag in its body.
pub proof fn bodies_say_what_a_file_is(root: ElementV, body: ElementV, e: ElementV)
    requires
        child_of(root, "body"@) == Some(body),
        body.children == seq![TreeV::Element(e)],
    ensures
        e.tag == "text"@ ==> content_of(root) == seq![PieceV { kind: Kind::Text, element: e }],
        e.tag == "spreadsheet"@ ==> content_of(root) == seq![
            PieceV { kind: Kind::Sheet, element: e },
        ],
        e.tag == "presentation"@ ==> content_of(root) == seq![
            PieceV { kind: Kind::Slides, element: e },
        ],
{
    reveal_strlit("text");
    reveal_strlit("spreadsheet");
    reveal_strlit("presentation");
    assert("text"@.len() == 4);
    assert("spreadsheet"@.len() == 11);
    assert("presentation"@.len() == 12);
    assert(body.children[0] == TreeV::Element(e));
    reveal_with_fuel(pieces_from, 2);
    let none = Seq::<PieceV>::empty();
    assert(none.push(PieceV { kind: Kind::Text, element: e }) =~= seq![
        PieceV { kind: Kind::Text, element: e },
    ]);
    assert(none.push(PieceV { kind: Kind::Sheet, element: e }) =~= seq![
        PieceV { kind: Kind::Sheet, element: e },
    ]);
    assert(none.push(PieceV { kind: Kind::Slides, element: e }) =~= seq![
        PieceV { kind: Kind::Slides, element: e },
    ]);
}

/// A slide without a name is named by its number, counted from one.
pub proof fn slides_without_a_name_are_numbered(e: ElementV, k: int)
    ensures
        attr_of(e, "name"@) is None ==> slide_name(e, k) == "slide-"@ + decimal(k + 1),
        attr_of(e, "name"@) matches Some(n) && n.len() > 0 ==> slide_name(e, k) == attr_of(
            e,
            "name"@,
        )->0,
{
}

// ------------------------------------------------------------ embedded data

/// The digits of base 64 are the letters, the figures and two marks.
pub proof fn digits_of_base_64(i: int)
    ensures
        0 <= i < 26 ==> sextet((0x41 + i) as char) == i,
        0 <= i < 26 ==> sextet((0x61 + i) as char) == 26 + i,
        0 <= i < 10 ==> sextet((0x30 + i) as char) == 52 + i,
        sextet('+') == 62,
        sextet('/') == 63,
{
}

/// Four digits of base 64 write three bytes: both are the same number.
pub proof fn four_digits_are_three_bytes(s: Seq<char>, g: int)
    requires
        0 <= g,
        4 * g + 4 <= s.len(),
        forall|i: int| 0 <= i < s.len() ==> 0 <= sextet(#[trigger] s[i]) < 64,
    ensures
        byte_at(s, 3 * g) * 65536 + byte_at(s, 3 * g + 1) * 256 + byte_at(s, 3 * g + 2) == sextet(
            s[4 * g],
        ) * 262144 + sextet(s[4 * g + 1]) * 4096 + sextet(s[4 * g + 2]) * 64 + sextet(
            s[4 * g + 3],
        ),
        0 <= byte_at(s, 3 * g) < 256,
        0 <= byte_at(s, 3 * g + 1) < 256,
        0 <= byte_at(s, 3 * g + 2) < 256,
{
    assert(0 <= sextet(s[4 * g]) < 64);
    assert(0 <= sextet(s[4 * g + 1]) < 64);
    assert(0 <= sextet(s[4 * g + 2]) < 64);
    assert(0 <= sextet(s[4 * g + 3]) < 64);
    assert((3 * g) / 3 == g && (3 * g + 1) / 3 == g && (3 * g + 2) / 3 == g);
    assert((3 * g) % 3 == 0 && (3 * g + 1) % 3 == 1 && (3 * g + 2) % 3 == 2);
}

} // verus!
