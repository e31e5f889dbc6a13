//! Laws of the parts of an article: its title and people, its sections,
//! lists, figures, tables and formulas.

use crate::document::{InlineRunV, NodeV, Script};
use crate::html::normalized_url;
use crate::jats::{
    abstract_nodes, abstracts_add_nodes, abstracts_from, aff_by_id, appended, article,
    article_title, bullets_from, candidates, caption_of, caption_text_of, child_around, citation,
    contributor, credits, extended, extension, figure, formula_body, free_col, head_segs, item_from,
    items_from, linear, linear_from, link_target, matter_adds_nodes, no_fmt, norm, norms_from,
    opened, place, place_cells, plan_fits, raw, refs_from, seg_run, seg_text, solid_from, tag_fmt,
    trimmed_from, with_citation, with_equation, with_footnotes, with_item_text, with_matter,
    with_names, AroundV, Fmt, PlanV, SegV, WalkV,
};
use crate::laws::jats::is_plain;
use crate::text::{escaped, has_prefix, joined, normalized, strip, uint, unlined, white};
use crate::tree::{attr_of, child_of, head, kids_of, self_and_under, ElementV, TreeV};
use vstd::prelude::*;

verus! {

// ------------------------------------------------------------ markup

/// A run of text without markup.
pub open spec fn bare_run(text: Seq<char>) -> InlineRunV {
    InlineRunV {
        text,
        bold: false,
        italic: false,
        underline: false,
        strike: false,
        script: Script::Baseline,
        code: false,
        formula: false,
    }
}

/// Whether a paragraph holds just one element, which holds just a text.
pub open spec fn holds_one(p: ElementV, k: ElementV, t: Seq<char>) -> bool {
    &&& p.tag == "p"@
    &&& p.children.len() == 1
    &&& p.children[0] == TreeV::Element(k)
    &&& k.children.len() == 1
    &&& k.children[0] == TreeV::Text(t)
    &&& is_plain(t)
}

/// Inside a paragraph of an article with no markup around it.
pub open spec fn in_body(fetch: bool) -> AroundV {
    AroundV { list: false, fmt: no_fmt(), link: None, depth: 0, head: false, fetch }
}

proof fn markup_tags_differ()
    ensures
        markup_group("bold"@) == 1,
        markup_group("italic"@) == 2,
        markup_group("underline"@) == 3,
        markup_group("strike"@) == 4,
        markup_group("sub"@) == 5,
        markup_group("sup"@) == 6,
        markup_group("ext-link"@) == 7,
        markup_group("p"@) == 8,
{
    reveal_strlit("list-item");
    reveal_strlit("fig");
    reveal_strlit("table-wrap");
    reveal_strlit("supplementary-material");
    reveal_strlit("fn-group");
    reveal_strlit("element-citation");
    reveal_strlit("mixed-citation");
    reveal_strlit("tex-math");
    reveal_strlit("inline-formula");
    reveal_strlit("ack");
    reveal_strlit("sec");
    reveal_strlit("list");
    reveal_strlit("boxed-text");
    reveal_strlit("disp-formula");
    reveal_strlit("bold");
    reveal_strlit("italic");
    reveal_strlit("underline");
    reveal_strlit("strike");
    reveal_strlit("sub");
    reveal_strlit("sup");
    reveal_strlit("ext-link");
    reveal_strlit("term");
    reveal_strlit("p");
    reveal_strlit("ref-list");
    reveal_strlit("thead");
    assert("list-item"@.len() == 9);
    assert("fig"@.len() == 3);
    assert("table-wrap"@.len() == 10);
    assert("supplementary-material"@.len() == 22);
    assert("fn-group"@.len() == 8);
    assert("element-citation"@.len() == 16);
    assert("mixed-citation"@.len() == 14);
    assert("tex-math"@.len() == 8);
    assert("inline-formula"@.len() == 14);
    assert("ack"@.len() == 3);
    assert("sec"@.len() == 3);
    assert("list"@.len() == 4);
    assert("boxed-text"@.len() == 10);
    assert("disp-formula"@.len() == 12);
    assert("bold"@.len() == 4);
    assert("italic"@.len() == 6);
    assert("underline"@.len() == 9);
    assert("strike"@.len() == 6);
    assert("sub"@.len() == 3);
    assert("sup"@.len() == 3);
    assert("ext-link"@.len() == 8);
    assert("term"@.len() == 4);
    assert("p"@.len() == 1);
    assert("ref-list"@.len() == 8);
    assert("thead"@.len() == 5);
    assert("list-item"@[0] == 'l');
    assert("fig"@[0] == 'f');
    assert("table-wrap"@[0] == 't');
    assert("fn-group"@[0] == 'f');
    assert("mixed-citation"@[0] == 'm');
    assert("tex-math"@[0] == 't');
    assert("inline-formula"@[0] == 'i');
    assert("ack"@[0] == 'a');
    assert("sec"@[0] == 's');
    assert("sec"@[1] == 'e');
    assert("list"@[0] == 'l');
    assert("boxed-text"@[0] == 'b');
    assert("bold"@[0] == 'b');
    assert("italic"@[0] == 'i');
    assert("underline"@[0] == 'u');
    assert("strike"@[0] == 's');
    assert("sub"@[0] == 's');
    assert("sub"@[1] == 'u');
    assert("sub"@[2] == 'b');
    assert("sup"@[0] == 's');
    assert("sup"@[1] == 'u');
    assert("sup"@[2] == 'p');
    assert("ext-link"@[0] == 'e');
    assert("term"@[0] == 't');
    assert("ref-list"@[0] == 'r');
}

/// The tags of markup, told apart from all that mean something else.
spec fn markup_group(t: Seq<char>) -> int {
    if t == "list-item"@ || t == "fig"@ || t == "table-wrap"@ || t == "supplementary-material"@ || t == "fn-group"@ || t == "element-citation"@ || t == "mixed-citation"@ || t == "tex-math"@ || t == "inline-formula"@ || t == "ack"@ || t == "sec"@ || t == "list"@ || t == "boxed-text"@ || t == "disp-formula"@ || t == "term"@ || t == "ref-list"@ || t == "thead"@ {
        0
    } else if t == "bold"@ {
        1
    } else if t == "italic"@ {
        2
    } else if t == "underline"@ {
        3
    } else if t == "strike"@ {
        4
    } else if t == "sub"@ {
        5
    } else if t == "sup"@ {
        6
    } else if t == "ext-link"@ {
        7
    } else if t == "p"@ {
        8
    } else {
        9
    }
}

proof fn one_segment(
    p: ElementV,
    k: ElementV,
    t: Seq<char>,
    f: Fmt,
    link: Option<Seq<char>>,
    fetch: bool,
    nodes: Seq<NodeV>,
)
    requires
        holds_one(p, k, t),
        1 <= markup_group(k.tag) <= 7,
        f == tag_fmt(no_fmt(), k.tag),
        link == (if k.tag == "ext-link"@ {
            link_target(k)
        } else {
            None
        }),
    ensures
        linear(p, false, in_body(fetch), nodes).nodes == nodes.push(
            NodeV::Inline {
                text: seg_text(SegV { formula: false, text: t, fmt: f, link }),
                runs: seq![
                    InlineRunV {
                        text: t,
                        bold: f.bold,
                        italic: f.italic,
                        underline: f.underline,
                        strike: f.strike,
                        script: f.script,
                        code: false,
                        formula: false,
                    },
                ],
                unwrapped: true,
            },
        ),
{
    markup_tags_differ();
    assert(unlined(t) =~= t);
    assert(strip(t) == t);
    let a = in_body(fetch);
    let b = child_around(k, "p"@, a);
    assert(b.fmt == f && b.link == link);
    let seg = SegV { formula: false, text: t, fmt: f, link };
    assert(head(k) == Some(t));
    assert(head(p) is None);
    let one = seq![seg];
    assert(appended(seq![], t, f, link) =~= one);
    let inner = WalkV { segs: one, nodes };
    assert(head_segs(k, b) == one);
    assert(linear_from(k.children, 1, k.tag, true, b, inner) == inner);
    assert(linear_from(k.children, 0, k.tag, true, b, inner) == inner);
    reveal_with_fuel(extended, 2);
    assert(one[0] == seg);
    assert(extended(seq![], one, 0) =~= one);
    let start = WalkV { segs: seq![], nodes };
    assert(head_segs(p, a) =~= seq![]);
    assert(linear_from(p.children, 1, "p"@, false, a, inner) == inner);
    assert(opened(k, "p"@, 0, nodes) == nodes);
    assert(linear_from(p.children, 0, "p"@, false, a, start) == inner);
    reveal_with_fuel(trimmed_from, 2);
    assert(trimmed_from(one, 0, seq![]) =~= one);
    let s = one;
    assert(Seq::new(s.len(), |i: int| seg_text(s[i])) =~= seq![
        seg_text(seg),
    ]);
    assert(Seq::new(s.len(), |i: int| seg_run(s[i])) =~= seq![
        seg_run(seg),
    ]);
    assert(joined(seq![seg_text(seg)], " "@) == seg_text(seg));
}

proof fn marks()
    ensures
        "*"@ == seq!['*'],
        "**"@ == seq!['*', '*'],
        "~~"@ == seq!['~', '~'],
        "["@ == seq!['['],
        "]("@ == seq![']', '('],
        ")"@ == seq![')'],
{
    reveal_strlit("*");
    reveal_strlit("**");
    reveal_strlit("~~");
    reveal_strlit("[");
    reveal_strlit("](");
    reveal_strlit(")");
    assert("*"@ =~= seq!['*']);
    assert("**"@ =~= seq!['*', '*']);
    assert("~~"@ =~= seq!['~', '~']);
    assert("["@ =~= seq!['[']);
    assert("]("@ =~= seq![']', '(']);
    assert(")"@ =~= seq![')']);
}

/// Text in a `bold` element of a paragraph is bold, between double asterisks.
pub proof fn bold_text_is_bold(
    p: ElementV,
    k: ElementV,
    t: Seq<char>,
    fetch: bool,
    nodes: Seq<NodeV>,
)
    requires
        holds_one(p, k, t),
        k.tag == "bold"@,
    ensures
        linear(p, false, in_body(fetch), nodes).nodes == nodes.push(
            NodeV::Inline {
                text: seq!['*', '*'] + escaped(t) + seq!['*', '*'],
                runs: seq![InlineRunV { bold: true, ..bare_run(t) }],
                unwrapped: true,
            },
        ),
{
    markup_tags_differ();
    marks();
    let f = Fmt { bold: true, ..no_fmt() };
    assert(markup_group(k.tag) > 0);
    one_segment(p, k, t, f, None, fetch, nodes);
}

/// Text in an `italic` element of a paragraph is italic, between asterisks.
pub proof fn italic_text_is_italic(
    p: ElementV,
    k: ElementV,
    t: Seq<char>,
    fetch: bool,
    nodes: Seq<NodeV>,
)
    requires
        holds_one(p, k, t),
        k.tag == "italic"@,
    ensures
        linear(p, false, in_body(fetch), nodes).nodes == nodes.push(
            NodeV::Inline {
                text: seq!['*'] + escaped(t) + seq!['*'],
                runs: seq![InlineRunV { italic: true, ..bare_run(t) }],
                unwrapped: true,
            },
        ),
{
    markup_tags_differ();
    marks();
    let f = Fmt { italic: true, ..no_fmt() };
    assert(markup_group(k.tag) > 0);
    one_segment(p, k, t, f, None, fetch, nodes);
}

/// Text in an `underline` element of a paragraph is underlined.
pub proof fn underlined_text_is_underlined(
    p: ElementV,
    k: ElementV,
    t: Seq<char>,
    fetch: bool,
    nodes: Seq<NodeV>,
)
    requires
        holds_one(p, k, t),
        k.tag == "underline"@,
    ensures
        linear(p, false, in_body(fetch), nodes).nodes == nodes.push(
            NodeV::Inline {
                text: escaped(t),
                runs: seq![InlineRunV { underline: true, ..bare_run(t) }],
                unwrapped: true,
            },
        ),
{
    markup_tags_differ();
    marks();
    let f = Fmt { underline: true, ..no_fmt() };
    assert(markup_group(k.tag) > 0);
    one_segment(p, k, t, f, None, fetch, nodes);
}

/// Text in a `strike` element of a paragraph is struck, between double
/// tildes.
pub proof fn struck_text_is_struck(
    p: ElementV,
    k: ElementV,
    t: Seq<char>,
    fetch: bool,
    nodes: Seq<NodeV>,
)
    requires
        holds_one(p, k, t),
        k.tag == "strike"@,
    ensures
        linear(p, false, in_body(fetch), nodes).nodes == nodes.push(
            NodeV::Inline {
                text: seq!['~', '~'] + escaped(t) + seq!['~', '~'],
                runs: seq![InlineRunV { strike: true, ..bare_run(t) }],
                unwrapped: true,
            },
        ),
{
    markup_tags_differ();
    marks();
    let f = Fmt { strike: true, ..no_fmt() };
    assert(markup_group(k.tag) > 0);
    one_segment(p, k, t, f, None, fetch, nodes);
}

/// Text in a `sub` element of a paragraph stands below the line.
pub proof fn lowered_text_is_lowered(
    p: ElementV,
    k: ElementV,
    t: Seq<char>,
    fetch: bool,
    nodes: Seq<NodeV>,
)
    requires
        holds_one(p, k, t),
        k.tag == "sub"@,
    ensures
        linear(p, false, in_body(fetch), nodes).nodes == nodes.push(
            NodeV::Inline {
                text: escaped(t),
                runs: seq![InlineRunV { script: Script::Sub, ..bare_run(t) }],
                unwrapped: true,
            },
        ),
{
    markup_tags_differ();
    marks();
    let f = Fmt { script: Script::Sub, ..no_fmt() };
    assert(markup_group(k.tag) > 0);
    one_segment(p, k, t, f, None, fetch, nodes);
}

/// Text in a `sup` element of a paragraph stands above the line.
pub proof fn raised_text_is_raised(
    p: ElementV,
    k: ElementV,
    t: Seq<char>,
    fetch: bool,
    nodes: Seq<NodeV>,
)
    requires
        holds_one(p, k, t),
        k.tag == "sup"@,
    ensures
        linear(p, false, in_body(fetch), nodes).nodes == nodes.push(
            NodeV::Inline {
                text: escaped(t),
                runs: seq![InlineRunV { script: Script::Super, ..bare_run(t) }],
                unwrapped: true,
            },
        ),
{
    markup_tags_differ();
    marks();
    let f = Fmt { script: Script::Super, ..no_fmt() };
    assert(markup_group(k.tag) > 0);
    one_segment(p, k, t, f, None, fetch, nodes);
}

/// Text in an `ext-link` element of a paragraph is a link to its `href`.
pub proof fn linked_text_is_a_link(
    p: ElementV,
    k: ElementV,
    t: Seq<char>,
    href: Seq<char>,
    fetch: bool,
    nodes: Seq<NodeV>,
)
    requires
        holds_one(p, k, t),
        k.tag == "ext-link"@,
        attr_of(k, "href"@) == Some(href),
        strip(href) == href,
        href.len() > 0,
    ensures
        linear(p, false, in_body(fetch), nodes).nodes == nodes.push(
            NodeV::Inline {
                text: seq!['['] + escaped(t) + seq![']', '('] + normalized_url(href)
                    + seq![')'],
                runs: seq![bare_run(t)],
                unwrapped: true,
            },
        ),
{
    markup_tags_differ();
    marks();
    assert(markup_group(k.tag) > 0);
    one_segment(p, k, t, no_fmt(), Some(normalized_url(href)), fetch, nodes);
}

// ------------------------------------------------------------ title and people

/// An article starts with its title as a heading of the first level; its
/// authors, parted by commas, come next, and then their affiliations, parted
/// by semicolons.
pub proof fn articles_start_with_title_and_people(root: ElementV, fetch: bool)
    requires
        article_title(root).len() > 0,
        credits(root).authors.len() > 0,
        credits(root).affiliations.len() > 0,
    ensures
        article(root, fetch).len() >= 3,
        article(root, fetch)[0] == (NodeV::Heading { level: 1, text: escaped(article_title(root)) }),
        article(root, fetch)[1] == (NodeV::Paragraph {
            text: escaped(joined(credits(root).authors, seq![',', ' '])),
        }),
        article(root, fetch)[2] == (NodeV::Paragraph {
            text: escaped(joined(credits(root).affiliations, seq![';', ' '])),
        }),
{
    reveal_strlit(", ");
    reveal_strlit("; ");
    assert(", "@ =~= seq![',', ' ']);
    assert("; "@ =~= seq![';', ' ']);
    let a = seq![NodeV::Heading { level: 1, text: escaped(article_title(root)) }];
    let c = with_names(
        with_names(a, credits(root).authors, ", "@),
        credits(root).affiliations,
        "; "@,
    );
    assert(c.len() == 3);
    let d = abstracts_from(self_and_under(root), 0, c);
    abstracts_add_nodes(self_and_under(root), 0, c, fetch);
    let body = with_matter(root, "body"@, fetch, d);
    matter_adds_nodes(root, "body"@, fetch, d);
    matter_adds_nodes(root, "back"@, fetch, body);
    let all = article(root, fetch);
    assert forall|i: int| 0 <= i < 3 implies #[trigger] all[i] == c[i] by {
        assert(d[i] == c[i]);
        assert(body[i] == d[i]);
    }
}

/// The body of an article comes before its back matter.
pub proof fn the_body_comes_first(root: ElementV, fetch: bool)
    ensures
        ({
            let front = abstracts_from(
                self_and_under(root),
                0,
                with_names(
                    with_names(
                        if article_title(root).len() == 0 {
                            seq![]
                        } else {
                            seq![NodeV::Heading { level: 1, text: escaped(article_title(root)) }]
                        },
                        credits(root).authors,
                        ", "@,
                    ),
                    credits(root).affiliations,
                    "; "@,
                ),
            );
            let body = with_matter(root, "body"@, fetch, front);
            let all = article(root, fetch);
            &&& body.len() <= all.len()
            &&& forall|i: int| 0 <= i < body.len() ==> #[trigger] all[i] == body[i]
        }),
{
    let front = abstracts_from(
        self_and_under(root),
        0,
        with_names(
            with_names(
                if article_title(root).len() == 0 {
                    seq![]
                } else {
                    seq![NodeV::Heading { level: 1, text: escaped(article_title(root)) }]
                },
                credits(root).authors,
                ", "@,
            ),
            credits(root).affiliations,
            "; "@,
        ),
    );
    matter_adds_nodes(root, "back"@, fetch, with_matter(root, "body"@, fetch, front));
}

/// A contributor reads given names first, with the surname behind them.
pub proof fn contributors_read_given_names_first(
    e: ElementV,
    name: ElementV,
    given: Seq<char>,
    surname: Seq<char>,
)
    requires
        child_of(e, "name"@) == Some(name),
        child_of(name, "prefix"@) is None,
        child_of(name, "suffix"@) is None,
        child_of(name, "given-names"@) matches Some(k) && head(k) == Some(given),
        child_of(name, "surname"@) matches Some(k) && head(k) == Some(surname),
        is_plain(given),
        is_plain(surname),
    ensures
        contributor(e) == given + seq![' '] + surname,
{
    reveal_strlit(" ");
    assert(" "@ =~= seq![' ']);
    let none = Seq::<char>::empty();
    assert(strip(given) == given);
    assert(strip(surname) == surname);
    let v = seq![none, given, surname, none];
    reveal_with_fuel(solid_from, 5);
    assert(v[0] == none && v[1] == given && v[2] == surname && v[3] == none);
    assert(strip(none) == none);
    assert(solid_from(v, 0, seq![]) =~= seq![given, surname]);
    reveal_with_fuel(joined, 3);
    assert(seq![given, surname].drop_last() =~= seq![given]);
    assert(joined(seq![given, surname], " "@) =~= given + " "@ + surname);
}

/// An author has the affiliation that a reference names by its identifier.
pub proof fn references_name_affiliations(
    x: ElementV,
    affs: Seq<(Seq<char>, Seq<char>)>,
    k: int,
    done: Seq<Seq<char>>,
)
    requires
        0 <= k < affs.len(),
        attr_of(x, "ref-type"@) == Some("aff"@),
        attr_of(x, "rid"@) == Some(affs[k].0),
        forall|i: int| k < i < affs.len() ==> (#[trigger] affs[i]).0 != affs[k].0,
        !done.contains(affs[k].1),
    ensures
        refs_from(seq![x], affs, 0, done) == done.push(affs[k].1),
{
    found_by_id(affs, k, affs.len() as int);
    reveal_with_fuel(refs_from, 2);
    assert(seq![x][0] == x);
}

proof fn found_by_id(affs: Seq<(Seq<char>, Seq<char>)>, k: int, n: int)
    requires
        0 <= k < n <= affs.len(),
        forall|i: int| k < i < n ==> (#[trigger] affs[i]).0 != affs[k].0,
    ensures
        aff_by_id(affs, affs[k].0, n) == Some(affs[k].1),
    decreases n,
{
    if k < n - 1 {
        assert(affs[n - 1].0 != affs[k].0);
        found_by_id(affs, k, n - 1);
    }
}

// ------------------------------------------------------------ sections

/// The heading of a section lies one level below that of the section around
/// it: the sections of the body have the second level, and none lies below
/// the sixth.
pub proof fn sections_lie_below_each_other(
    e: ElementV,
    parent: Seq<char>,
    depth: int,
    a: AroundV,
    title: Seq<char>,
    nodes: Seq<NodeV>,
)
    requires
        e.tag == "sec"@,
        caption_of(e) == title,
        title.len() > 0,
        0 <= depth <= 5,
        a.depth == depth,
    ensures
        opened(e, parent, depth, nodes) == nodes.push(
            NodeV::Heading {
                level: (if depth < 4 {
                    depth + 2
                } else {
                    6
                }) as u8,
                text: escaped(title),
            },
        ),
        child_around(e, parent, a).depth == depth + 1,
{
}

/// Acknowledgements without a title, and a list of references without one,
/// are headed all the same.
pub proof fn untitled_parts_are_headed(e: ElementV, parent: Seq<char>, nodes: Seq<NodeV>)
    requires
        caption_of(e).len() == 0,
    ensures
        e.tag == "ack"@ ==> opened(e, parent, 0, nodes) == nodes.push(
            NodeV::Heading { level: 2, text: escaped("Acknowledgments"@) },
        ),
        e.tag == "ref-list"@ && parent != "ref-list"@ ==> opened(e, parent, 0, nodes) == nodes.push(
            NodeV::Heading { level: 2, text: escaped("References"@) },
        ),
        e.tag == "sec"@ ==> opened(e, parent, 0, nodes) == nodes,
{
    reveal_strlit("ack");
    reveal_strlit("sec");
    reveal_strlit("ref-list");
    assert("ack"@.len() == 3);
    assert("sec"@.len() == 3);
    assert("ref-list"@.len() == 8);
    assert("ack"@[0] == 'a');
    assert("sec"@[0] == 's');
}

/// An abstract of paragraphs is a heading of the second level, `Abstract`
/// where it has no title of its own, and one paragraph.
pub proof fn abstracts_are_headed(e: ElementV, p: ElementV, nodes: Seq<NodeV>)
    requires
        kids_of(e, "p"@) == seq![p],
        norm(p).len() > 0,
        normalized(norm(p)).len() > 0,
        kids_of(e, "sec"@).len() == 0,
        caption_of(e).len() == 0,
    ensures
        abstract_nodes(e, nodes) == nodes.push(
            NodeV::Heading { level: 2, text: escaped("Abstract"@) },
        ).push(NodeV::Paragraph { text: escaped(normalized(norm(p))) }),
{
    reveal_with_fuel(norms_from, 2);
    let v = kids_of(e, "p"@);
    assert(v[0] == p);
    assert(norms_from(v, 0, seq![]) =~= seq![norm(p)]);
    assert(joined(seq![norm(p)], " "@) == norm(p));
}

/// Footnotes come as bullets under a heading one level below that of the
/// section around them.
pub proof fn footnotes_come_under_a_heading(e: ElementV, n: ElementV, depth: int, nodes: Seq<NodeV>)
    requires
        kids_of(e, "fn"@) == seq![n],
        norm(n).len() > 0,
        child_of(e, "title"@) is None,
        0 <= depth <= 4,
    ensures
        with_footnotes(e, depth, nodes) == nodes.push(
            NodeV::Heading { level: (depth + 2) as u8, text: escaped("Footnotes"@) },
        ).push(
            NodeV::ListItem {
                ordered: false,
                number: 0,
                first_in_list: false,
                text: escaped(norm(n)),
                level: 0,
                marker: None,
                href: None,
                layer: None,
            },
        ),
{
    reveal_with_fuel(norms_from, 2);
    let v = kids_of(e, "fn"@);
    assert(v[0] == n);
    assert(norms_from(v, 0, seq![]) =~= seq![norm(n)]);
    reveal_with_fuel(bullets_from, 2);
    assert(seq![norm(n)][0] == norm(n));
}

/// A citation in a list of references is an item of it, and a paragraph
/// elsewhere.
pub proof fn citations_are_items_or_paragraphs(nodes: Seq<NodeV>, text: Seq<char>)
    requires
        text.len() > 0,
    ensures
        with_citation(nodes, true, text) == nodes.push(
            NodeV::ListItem {
                ordered: false,
                number: 0,
                first_in_list: false,
                text: escaped(text),
                level: 0,
                marker: None,
                href: None,
                layer: None,
            },
        ),
        with_citation(nodes, false, text) == nodes.push(NodeV::Paragraph { text: escaped(text) }),
{
}

/// An item of a list is a bullet, and the items of a list in it lie one level
/// deeper.
pub proof fn nested_items_lie_deeper(
    ch: Seq<TreeV>,
    e: ElementV,
    level: u8,
    nodes: Seq<NodeV>,
)
    requires
        ch == seq![TreeV::Element(e)],
        e.tag == "list-item"@,
        level < 255,
    ensures
        items_from(ch, 0, true, level, nodes) == items_from(
            e.children,
            0,
            false,
            (level + 1) as u8,
            if item_from(e.children, 0, seq![]).len() == 0 {
                nodes
            } else {
                nodes.push(
                    NodeV::ListItem {
                        ordered: false,
                        number: 0,
                        first_in_list: false,
                        text: escaped(item_from(e.children, 0, seq![])),
                        level,
                        marker: None,
                        href: None,
                        layer: None,
                    },
                )
            },
        ),
{
    assert(ch[0] == TreeV::Element(e));
    let next = items_from(
        e.children,
        0,
        false,
        (level + 1) as u8,
        with_item_text(e, level, nodes),
    );
    assert(items_from(ch, 1, true, level, next) == next);
    assert(items_from(ch, 0, true, level, nodes) == items_from(ch, 1, true, level, next));
}

// ------------------------------------------------------------ figures

/// The caption of a figure is its label, a space and its caption.
pub proof fn figure_captions_start_with_their_label(e: ElementV, l: ElementV, fetch: bool)
    requires
        child_of(e, "label"@) == Some(l),
        strip(raw(l)).len() > 0,
        caption_text_of(e).len() > 0,
    ensures
        figure(e, fetch) is Picture,
        figure(e, fetch)->Picture_caption == Some(
            escaped(strip(raw(l)) + seq![' '] + caption_text_of(e)),
        ),
        figure(e, false)->Picture_sources.len() == 0,
{
}

/// A file without an extension is looked for as it is and then as each kind
/// of picture, and one with an extension only as it is.
pub proof fn pictures_are_looked_for_by_kind(href: Seq<char>)
    ensures
        extension(href) is Some ==> candidates(href) == seq![href],
        extension(href) is None ==> {
            &&& candidates(href).len() == 7
            &&& candidates(href)[0] == href
            &&& candidates(href)[1] == href + ".jpg"@
            &&& candidates(href)[2] == href + ".jpeg"@
            &&& candidates(href)[3] == href + ".png"@
            &&& candidates(href)[4] == href + ".tif"@
            &&& candidates(href)[5] == href + ".tiff"@
            &&& candidates(href)[6] == href + ".gif"@
        },
{
}

/// A formula between dollar signs is what lies between them.
pub proof fn formulas_lose_their_dollars(e: ElementV, x: Seq<char>, nodes: Seq<NodeV>)
    requires
        is_plain(x),
        x[0] != '$',
        head(e) == Some("$$"@ + x + "$$"@) || head(e) == Some("$"@ + x + "$"@) && x.last() != '$',
    ensures
        formula_body(e) == Some(x),
        with_equation(nodes, e) == nodes.push(NodeV::Formula { latex: x, orig: x }),
{
    reveal_strlit("$$");
    reveal_strlit("$");
    assert(!white('$'));
    assert(strip(x) == x);
    let s = head(e)->0;
    assert(s[0] == '$' && s.last() == '$');
    assert(strip(s) == s);
    let n = s.len() as int;
    if s == "$$"@ + x + "$$"@ {
        assert(s.take(2) =~= "$$"@);
        assert(s.skip(n - 2) =~= "$$"@);
        assert(s.subrange(2, n - 2) =~= x);
    } else {
        assert(s.take(1) =~= "$"@);
        assert(s.skip(n - 1) =~= "$"@);
        assert(s.subrange(1, n - 1) =~= x);
        assert(s[1] == x[0]);
        if has_prefix(s, "$$"@) {
            assert(s.take(2)[1] == s[1]);
        }
    }
}

// ------------------------------------------------------------ tables

/// How many rows or columns a cell of an article's table says to span.
pub open spec fn spans(e: ElementV, name: Seq<char>) -> int {
    match attr_of(e, name) {
        Some(v) => match uint(v, usize::MAX as int) {
            Some(n) => if n >= 1 {
                n
            } else {
                1
            },
            None => 1,
        },
        None => 1,
    }
}

/// The next cell of a row goes to the first free column, spans the rows of
/// its `rowspan` and the columns of its `colspan`, and the cells behind it go
/// on behind those. It is a header where it is a `th` cell or stands in the
/// head of the table.
pub proof fn cells_go_to_the_next_free_column(
    v: Seq<ElementV>,
    k: int,
    r: int,
    c: int,
    in_head: bool,
    height: int,
    width: int,
    p: PlanV,
)
    requires
        plan_fits(p, height, width),
        0 <= k < v.len(),
        0 <= r < height,
        0 <= c,
        c + spans(v[k], "colspan"@) <= width,
        !p.taken[r][c],
    ensures
        exists|q: PlanV| #[trigger]
            is_placed(p, q, v[k], r, c, in_head, height, width) && place_cells(
                v,
                k,
                r,
                c,
                in_head,
                height,
                width,
                p,
            ) == place_cells(
                v,
                k + 1,
                r,
                c + spans(v[k], "colspan"@),
                in_head,
                height,
                width,
                q,
            ),
{
    assert(free_col(p.taken[r], c, width) == c);
    let q = place(
        p,
        r,
        c,
        spans(v[k], "rowspan"@),
        spans(v[k], "colspan"@),
        norm(v[k]),
        in_head || v[k].tag == "th"@,
        height,
        width,
    );
    assert forall|i: int, j: int| 0 <= i < height && 0 <= j < width implies #[trigger] place_holds(
        p,
        q,
        v[k],
        r,
        c,
        in_head,
        i,
        j,
    ) by {}
    assert(is_placed(p, q, v[k], r, c, in_head, height, width));
}

/// What a place of a table holds behind a cell put at a row and a column.
pub open spec fn place_holds(
    p: PlanV,
    q: PlanV,
    e: ElementV,
    r: int,
    c: int,
    in_head: bool,
    i: int,
    j: int,
) -> bool {
    if r <= i < r + spans(e, "rowspan"@) && c <= j < c + spans(e, "colspan"@) {
        &&& q.text[i][j] == norm(e)
        &&& q.taken[i][j]
        &&& j > c ==> q.cols[i][j]
        &&& i > r ==> q.rows[i][j]
        &&& i == r && j == c ==> q.head[i][j] == (in_head || e.tag == "th"@)
    } else {
        &&& q.text[i][j] == p.text[i][j]
        &&& q.taken[i][j] == p.taken[i][j]
        &&& q.cols[i][j] == p.cols[i][j]
        &&& q.rows[i][j] == p.rows[i][j]
        &&& q.head[i][j] == p.head[i][j]
    }
}

/// Whether a table has a cell put at a row and a column.
pub open spec fn is_placed(
    p: PlanV,
    q: PlanV,
    e: ElementV,
    r: int,
    c: int,
    in_head: bool,
    height: int,
    width: int,
) -> bool {
    forall|i: int, j: int|
        0 <= i < height && 0 <= j < width ==> #[trigger] place_holds(p, q, e, r, c, in_head, i, j)
}

} // verus!
