//! Laws of the flow of a page: what is shown, and in what order.

use crate::document::NodeV;
use crate::html::{blocks_from, heading_from, with_inline, BlockV};
use crate::inline::{
    break_mark, element_runs, finished, hides, hides_from, inner_fmt, is_hidden_el, line_at,
    lines_joined, runs_from, unbroken, with_raw_text, BufV, Fmt,
};
use crate::laws::lines::parts_stand_between_separators;
use crate::text::{
    index_from, index_from_is_first, joined, lowered, lstrip, replaced, rstrip, splits, strip,
    white,
};
use crate::tree::{plain_attr_of, ElementV, TreeV};
use vstd::prelude::*;

verus! {

// ------------------------------------------------------------ what is hidden

proof fn a_declaration_is_found(v: Seq<Seq<char>>, i: int, k: int)
    requires
        0 <= i <= k < v.len(),
        hides(v[k]),
    ensures
        hides_from(v, i),
    decreases k - i,
{
    if i < k {
        a_declaration_is_found(v, i + 1, k);
    }
}

proof fn hiding_declarations()
    ensures
        hides("display:none"@),
        hides("visibility:hidden"@),
        !(hides("display:block"@)),
{
    reveal_strlit("display:none");
    reveal_strlit("visibility:hidden");
    reveal_strlit("display:block");
    reveal_strlit("display");
    reveal_strlit("visibility");
    reveal_strlit("none");
    reveal_strlit("hidden");
    let a = "display:none"@;
    index_from_is_first(a, ':', 0);
    assert(a[7] == ':');
    assert(index_from(a, ':', 0) == 7);
    assert(a.take(7) =~= "display"@);
    assert(a.skip(8) =~= "none"@);
    assert(strip("display"@) == "display"@);
    assert(strip("none"@) == "none"@);
    assert(lowered("display"@) =~= "display"@);
    assert(lowered("none"@) =~= "none"@);
    let b = "visibility:hidden"@;
    index_from_is_first(b, ':', 0);
    assert(b[10] == ':');
    assert(index_from(b, ':', 0) == 10);
    assert(b.take(10) =~= "visibility"@);
    assert(b.skip(11) =~= "hidden"@);
    assert(strip("visibility"@) == "visibility"@);
    assert(strip("hidden"@) == "hidden"@);
    assert(lowered("visibility"@) =~= "visibility"@);
    assert(lowered("hidden"@) =~= "hidden"@);
    let c = "display:block"@;
    index_from_is_first(c, ':', 0);
    assert(c[7] == ':');
    assert(index_from(c, ':', 0) == 7);
    reveal_strlit("block");
    assert(c.take(7) =~= "display"@);
    assert(c.skip(8) =~= "block"@);
    assert(strip("block"@) == "block"@);
    assert(lowered("block"@) =~= "block"@);
    assert("block"@.len() != "none"@.len());
    assert("display"@.len() != "visibility"@.len());
}

/// An element is hidden by its `hidden` attribute, by `aria-hidden`, or by a
/// style that displays nothing or hides it; one with none of these attributes
/// is shown. A hidden element shows nothing, in a line or between blocks.
pub proof fn hidden_elements_show_nothing(
    e: ElementV,
    k: int,
    f: Fmt,
    link: Option<Seq<char>>,
    b: BufV,
    level: u8,
    root: ElementV,
    fetch: bool,
    fig: bool,
    w: BlockV,
)
    ensures
        plain_attr_of(e, "hidden"@) is Some ==> is_hidden_el(e),
        plain_attr_of(e, "aria-hidden"@) == Some("true"@) ==> is_hidden_el(e),
        plain_attr_of(e, "aria-hidden"@) == Some("yes"@) ==> is_hidden_el(e),
        plain_attr_of(e, "style"@) matches Some(v) && 0 <= k < splits(v, ';').len() && (splits(
            v,
            ';',
        )[k] == "display:none"@ || splits(v, ';')[k] == "visibility:hidden"@) ==> is_hidden_el(e),
        plain_attr_of(e, "hidden"@) is None && plain_attr_of(e, "style"@) is None && (plain_attr_of(
            e,
            "aria-hidden"@,
        ) is None || plain_attr_of(e, "aria-hidden"@) == Some("false"@)) ==> !(is_hidden_el(e)),
        is_hidden_el(e) ==> element_runs(e, f, link, b) == b,
        is_hidden_el(e) ==> blocks_from(seq![TreeV::Element(e)], 0, level, f, root, fetch, fig, w)
            == w,
{
    hiding_declarations();
    reveal_strlit("true");
    reveal_strlit("yes");
    reveal_strlit("false");
    reveal_strlit("1");
    assert(lowered("true"@) =~= "true"@);
    assert(lowered("yes"@) =~= "yes"@);
    assert(lowered("false"@) =~= "false"@);
    assert(strip("true"@) == "true"@);
    assert(strip("yes"@) == "yes"@);
    assert(strip("false"@) == "false"@);
    assert("false"@.len() == 5 && "true"@.len() == 4 && "yes"@.len() == 3 && "1"@.len() == 1);
    if let Some(v) = plain_attr_of(e, "style"@) {
        let p = splits(v, ';');
        if 0 <= k < p.len() && (p[k] == "display:none"@ || p[k] == "visibility:hidden"@) {
            a_declaration_is_found(p, 0, k);
        }
    }
    let ch = seq![TreeV::Element(e)];
    assert(ch[0] == TreeV::Element(e));
    reveal_with_fuel(blocks_from, 2);
}

/// Scripts, styles, titles, templates and drawings are no content, and
/// neither are comments; white space between blocks is nothing.
pub proof fn scripts_are_no_content(
    e: ElementV,
    s: Seq<char>,
    f: Fmt,
    level: u8,
    root: ElementV,
    fetch: bool,
    fig: bool,
    w: BlockV,
)
    requires
        e.tag == "script"@ || e.tag == "style"@ || e.tag == "head"@ || e.tag == "title"@ || e.tag
            == "noscript"@ || e.tag == "template"@ || e.tag == "svg"@,
    ensures
        blocks_from(seq![TreeV::Element(e)], 0, level, f, root, fetch, fig, w) == w,
        blocks_from(seq![TreeV::Other(s)], 0, level, f, root, fetch, fig, w) == w,
{
    let ch = seq![TreeV::Element(e)];
    assert(ch[0] == TreeV::Element(e));
    let c2 = seq![TreeV::Other(s)];
    assert(c2[0] == TreeV::Other(s));
    reveal_with_fuel(blocks_from, 2);
}

// ------------------------------------------------------------ in order

proof fn runs_go_on(x: Seq<TreeV>, y: Seq<TreeV>, i: int, f: Fmt, link: Option<Seq<char>>, b: BufV)
    requires
        0 <= i <= y.len(),
    ensures
        runs_from(x + y, x.len() + i, f, link, b) == runs_from(y, i, f, link, b),
    decreases y.len() - i,
{
    if i < y.len() {
        assert((x + y)[x.len() + i] == y[i]);
        let more = match y[i] {
            TreeV::Text(t) => with_raw_text(b, t, f, link),
            TreeV::Element(e) => element_runs(e, f, link, b),
            TreeV::Other(_) => b,
        };
        runs_go_on(x, y, i + 1, f, link, more);
        assert(runs_from(x + y, x.len() + i, f, link, b) == runs_from(
            x + y,
            x.len() + i + 1,
            f,
            link,
            more,
        ));
    }
}

proof fn runs_go_through(
    x: Seq<TreeV>,
    y: Seq<TreeV>,
    i: int,
    f: Fmt,
    link: Option<Seq<char>>,
    b: BufV,
)
    requires
        0 <= i <= x.len(),
    ensures
        runs_from(x + y, i, f, link, b) == runs_from(y, 0, f, link, runs_from(x, i, f, link, b)),
    decreases x.len() - i,
{
    if i == x.len() {
        runs_go_on(x, y, 0, f, link, b);
    } else {
        assert((x + y)[i] == x[i]);
        let more = match x[i] {
            TreeV::Text(t) => with_raw_text(b, t, f, link),
            TreeV::Element(e) => element_runs(e, f, link, b),
            TreeV::Other(_) => b,
        };
        runs_go_through(x, y, i + 1, f, link, more);
        assert(runs_from(x + y, i, f, link, b) == runs_from(x + y, i + 1, f, link, more));
        assert(runs_from(x, i, f, link, b) == runs_from(x, i + 1, f, link, more));
    }
}

/// The texts and elements of a line are shown in their order, each as it is
/// shown alone.
pub proof fn lines_run_in_order(
    x: Seq<TreeV>,
    t: TreeV,
    y: Seq<TreeV>,
    f: Fmt,
    link: Option<Seq<char>>,
    b: BufV,
)
    ensures
        runs_from(x + y, 0, f, link, b) == runs_from(y, 0, f, link, runs_from(x, 0, f, link, b)),
        runs_from(seq![], 0, f, link, b) == b,
        runs_from(seq![t], 0, f, link, b) == (match t {
            TreeV::Text(s) => with_raw_text(b, s, f, link),
            TreeV::Element(e) => element_runs(e, f, link, b),
            TreeV::Other(_) => b,
        }),
{
    runs_go_through(x, y, 0, f, link, b);
    assert(seq![t][0] == t);
    reveal_with_fuel(runs_from, 2);
}

/// Whether `t` is an element that stands in a line of text, such as one that
/// only carries other elements.
pub open spec fn is_line_element(e: ElementV) -> bool {
    e.tag == "span"@ || e.tag == "font"@
}

/// A span only carries what it holds.
pub proof fn spans_carry_their_content(e: ElementV, f: Fmt, link: Option<Seq<char>>, b: BufV)
    requires
        is_line_element(e),
        !(is_hidden_el(e)),
    ensures
        element_runs(e, f, link, b) == runs_from(e.children, 0, f, link, b),
{
    reveal_strlit("span");
    reveal_strlit("font");
    reveal_strlit("br");
    reveal_strlit("a");
    reveal_strlit("img");
    reveal_strlit("script");
    reveal_strlit("style");
    reveal_strlit("b");
    reveal_strlit("strong");
    reveal_strlit("i");
    reveal_strlit("em");
    reveal_strlit("var");
    reveal_strlit("s");
    reveal_strlit("del");
    reveal_strlit("strike");
    reveal_strlit("code");
    reveal_strlit("kbd");
    reveal_strlit("samp");
    reveal_strlit("u");
    reveal_strlit("ins");
    reveal_strlit("sub");
    reveal_strlit("sup");
    let t = e.tag;
    assert(t.len() == 4);
    assert(t[1] == 'p' || t[1] == 'o');
    assert(t[3] == 'n' || t[3] == 't');
    assert("code"@[3] == 'e' && "samp"@[3] == 'p');
    assert(inner_fmt(t, f) == f);
}

proof fn nodes_go_on(
    x: Seq<TreeV>,
    y: Seq<TreeV>,
    i: int,
    level: u8,
    f: Fmt,
    root: ElementV,
    fetch: bool,
    fig: bool,
    w: BlockV,
)
    requires
        0 <= i <= y.len(),
    ensures
        blocks_from(x + y, x.len() + i, level, f, root, fetch, fig, w) == blocks_from(
            y,
            i,
            level,
            f,
            root,
            fetch,
            fig,
            w,
        ),
    decreases y.len() - i,
{
    if i < y.len() {
        assert((x + y)[x.len() + i] == y[i]);
        let one = blocks_from(y.subrange(i, i + 1), 0, level, f, root, fetch, fig, w);
        one_node(x + y, x.len() + i, level, f, root, fetch, fig, w);
        one_node(y, i, level, f, root, fetch, fig, w);
        assert((x + y).subrange(x.len() + i, x.len() + i + 1) =~= y.subrange(i, i + 1));
        nodes_go_on(x, y, i + 1, level, f, root, fetch, fig, one);
    }
}

proof fn one_node(
    ch: Seq<TreeV>,
    i: int,
    level: u8,
    f: Fmt,
    root: ElementV,
    fetch: bool,
    fig: bool,
    w: BlockV,
)
    requires
        0 <= i < ch.len(),
    ensures
        blocks_from(ch, i, level, f, root, fetch, fig, w) == blocks_from(
            ch,
            i + 1,
            level,
            f,
            root,
            fetch,
            fig,
            blocks_from(ch.subrange(i, i + 1), 0, level, f, root, fetch, fig, w),
        ),
{
    let one = ch.subrange(i, i + 1);
    assert(one[0] == ch[i]);
    assert(one.len() == 1);
    reveal_with_fuel(blocks_from, 2);
}

proof fn nodes_go_through(
    x: Seq<TreeV>,
    y: Seq<TreeV>,
    i: int,
    level: u8,
    f: Fmt,
    root: ElementV,
    fetch: bool,
    fig: bool,
    w: BlockV,
)
    requires
        0 <= i <= x.len(),
    ensures
        blocks_from(x + y, i, level, f, root, fetch, fig, w) == blocks_from(
            y,
            0,
            level,
            f,
            root,
            fetch,
            fig,
            blocks_from(x, i, level, f, root, fetch, fig, w),
        ),
    decreases x.len() - i,
{
    if i == x.len() {
        nodes_go_on(x, y, 0, level, f, root, fetch, fig, w);
    } else {
        let one = blocks_from(x.subrange(i, i + 1), 0, level, f, root, fetch, fig, w);
        one_node(x + y, i, level, f, root, fetch, fig, w);
        one_node(x, i, level, f, root, fetch, fig, w);
        assert((x + y).subrange(i, i + 1) =~= x.subrange(i, i + 1));
        nodes_go_through(x, y, i + 1, level, f, root, fetch, fig, one);
    }
}

/// The blocks of a page are shown in their order: those of the first children,
/// and behind them those of the rest.
pub proof fn blocks_come_in_order(
    x: Seq<TreeV>,
    y: Seq<TreeV>,
    level: u8,
    f: Fmt,
    root: ElementV,
    fetch: bool,
    fig: bool,
    w: BlockV,
)
    ensures
        blocks_from(x + y, 0, level, f, root, fetch, fig, w) == blocks_from(
            y,
            0,
            level,
            f,
            root,
            fetch,
            fig,
            blocks_from(x, 0, level, f, root, fetch, fig, w),
        ),
        blocks_from(seq![], 0, level, f, root, fetch, fig, w) == w,
{
    nodes_go_through(x, y, 0, level, f, root, fetch, fig, w);
}

// ------------------------------------------------------------ lines

/// Text is a paragraph of its own unless a heading came before it.
pub proof fn text_behind_a_heading_is_unwrapped(nodes: Seq<NodeV>, k: int, b: BufV, text: Seq<char>)
    requires
        text.len() > 0,
    ensures
        0 <= k < nodes.len() && nodes[k] is Heading ==> with_inline(nodes, b, text) == nodes.push(
            NodeV::Inline { text, runs: b.rich, unwrapped: true },
        ),
        (forall|i: int| 0 <= i < nodes.len() ==> !((#[trigger] nodes[i]) is Heading))
            ==> with_inline(nodes, b, text) == nodes.push(
            NodeV::Inline { text, runs: b.rich, unwrapped: false },
        ),
{
    if 0 <= k < nodes.len() && nodes[k] is Heading {
        a_heading_is_found(nodes, 0, k);
    }
    if forall|i: int| 0 <= i < nodes.len() ==> !((#[trigger] nodes[i]) is Heading) {
        no_heading_is_found(nodes, 0);
    }
}

proof fn a_heading_is_found(nodes: Seq<NodeV>, i: int, k: int)
    requires
        0 <= i <= k < nodes.len(),
        nodes[k] is Heading,
    ensures
        heading_from(nodes, i) < nodes.len(),
    decreases k - i,
{
    if !(nodes[i] is Heading) {
        a_heading_is_found(nodes, i + 1, k);
    }
}

proof fn no_heading_is_found(nodes: Seq<NodeV>, i: int)
    requires
        0 <= i <= nodes.len(),
        forall|j: int| 0 <= j < nodes.len() ==> !((#[trigger] nodes[j]) is Heading),
    ensures
        heading_from(nodes, i) == nodes.len(),
    decreases nodes.len() - i,
{
    if i < nodes.len() {
        assert(!(nodes[i] is Heading));
        no_heading_is_found(nodes, i + 1);
    }
}

/// Whether `s` holds no line feed and no mark of a break, and has no white
/// space at its ends.
pub open spec fn is_line(s: Seq<char>) -> bool {
    &&& s.len() > 0
    &&& !(white(s[0]))
    &&& !(white(s.last()))
    &&& forall|k: int| 0 <= k < s.len() ==> #[trigger] s[k] != '\n' && s[k] != '\u{e000}'
}

proof fn a_break_is_a_line_feed(x: Seq<char>, y: Seq<char>)
    requires
        is_line(x),
        is_line(y),
    ensures
        ({
            let z = x.push(' ').push('\u{e000}').push(' ') + y;
            let left = x.push(' ');
            let right = seq![' '] + y;
            splits(replaced(z, '\u{e000}', '\n'), '\n') == seq![left, right]
        }),
{
    let z = x.push(' ').push('\u{e000}').push(' ') + y;
    let left = x.push(' ');
    let right = seq![' '] + y;
    let r = replaced(z, '\u{e000}', '\n');
    let whole = left.push('\n') + right;
    assert(r.len() == whole.len());
    assert forall|i: int| 0 <= i < r.len() implies r[i] == whole[i] by {
        if i < x.len() {
            assert(z[i] == x[i]);
            assert(whole[i] == x[i]);
        } else if i > x.len() + 2 {
            assert(z[i] == y[i - x.len() - 3]);
            assert(whole[i] == y[i - x.len() - 3]);
        }
    }
    assert(r =~= whole);
    assert forall|k: int| 0 <= k < left.len() implies #[trigger] left[k] != '\n' by {
        if k < x.len() {
            assert(left[k] == x[k]);
        }
    }
    assert forall|k: int| 0 <= k < right.len() implies #[trigger] right[k] != '\n' by {
        if k > 0 {
            assert(right[k] == y[k - 1]);
        }
    }
    parts_stand_between_separators(left, '\n', right);
    parts_stand_between_separators(right, '\n', right);
    assert(seq![left] + seq![right] =~= seq![left, right]);
}

proof fn lines_are_joined(x: Seq<char>, y: Seq<char>)
    requires
        is_line(x),
        is_line(y),
    ensures
        lines_joined(seq![x.push(' '), seq![' '] + y], 0, seq![]) == x.push('\n') + y,
        unbroken(x.push('\n') + y) == x.push('\n') + y,
{
    let left = x.push(' ');
    let right = seq![' '] + y;
    let v = seq![left, right];
    assert(white(' '));
    assert(left.drop_last() =~= x);
    assert(rstrip(x) == x);
    assert(rstrip(left) == x);
    assert(right.skip(1) =~= y);
    assert(lstrip(y) == y);
    assert(lstrip(right) == y);
    assert(line_at(v, 0) == x);
    assert(line_at(v, 1) == y);
    let one = Seq::<char>::empty() + x;
    assert(one =~= x);
    assert(lines_joined(v, 2, x.push('\n') + y) == x.push('\n') + y);
    assert(lines_joined(v, 1, x) == x.push('\n') + y);
    assert(lines_joined(v, 0, seq![]) == lines_joined(v, 1, one));
    let t = x.push('\n') + y;
    assert(t[0] == x[0]);
    assert(t[t.len() - 1] == y.last());
    assert(white('\n'));
}

proof fn joined_lines(x: Seq<char>, m: Seq<char>, y: Seq<char>)
    ensures
        joined(seq![x], " "@) == x,
        joined(seq![x, y], " "@) == x.push(' ') + y,
        joined(seq![x, m, y], " "@) == (x.push(' ') + m).push(' ') + y,
{
    reveal_strlit(" ");
    assert(seq![x, m, y].drop_last() =~= seq![x, m]);
    assert(seq![x, m].drop_last() =~= seq![x]);
    assert(seq![x, y].drop_last() =~= seq![x]);
    assert(joined(seq![x], " "@) =~= x);
    assert(joined(seq![x, m], " "@) =~= x.push(' ') + m);
    assert(joined(seq![x, y], " "@) =~= x.push(' ') + y);
    assert(joined(seq![x, m, y], " "@) =~= (x.push(' ') + m).push(' ') + y);
}

proof fn lines_hold_no_break(x: Seq<char>, y: Seq<char>)
    requires
        is_line(x),
        is_line(y),
    ensures
        index_from(x, '\u{e000}', 0) == x.len(),
        index_from(x.push(' ') + y, '\u{e000}', 0) == (x.push(' ') + y).len(),
{
    let u = x.push(' ') + y;
    index_from_is_first(u, '\u{e000}', 0);
    index_from_is_first(x, '\u{e000}', 0);
    let k = index_from(u, '\u{e000}', 0);
    if k < u.len() {
        if k < x.len() {
            assert(u[k] == x[k]);
        } else if k > x.len() {
            assert(u[k] == y[k - x.len() - 1]);
        }
    }
    let j = index_from(x, '\u{e000}', 0);
    if j < x.len() {
        assert(x[j] != '\u{e000}');
    }
}

/// Two texts of a line have a space between them, and a line break parts
/// lines.
pub proof fn breaks_part_lines(x: Seq<char>, y: Seq<char>)
    requires
        is_line(x),
        is_line(y),
    ensures
        finished(seq![x, break_mark(), y]) == x.push('\n') + y,
        finished(seq![x, y]) == x.push(' ') + y,
        finished(seq![x]) == x,
{
    let m = break_mark();
    joined_lines(x, m, y);
    lines_hold_no_break(x, y);
    let z = x.push(' ').push('\u{e000}').push(' ') + y;
    assert((x.push(' ') + m).push(' ') + y =~= z);
    index_from_is_first(z, '\u{e000}', 0);
    assert(z[x.len() as int + 1] == '\u{e000}');
    a_break_is_a_line_feed(x, y);
    lines_are_joined(x, y);
}

/// A `br` marks a break.
pub proof fn br_marks_a_break(e: ElementV, f: Fmt, link: Option<Seq<char>>, b: BufV)
    requires
        e.tag == "br"@,
        !(is_hidden_el(e)),
    ensures
        element_runs(e, f, link, b).md == b.md.push(break_mark()),
        element_runs(e, f, link, b).rich == b.rich,
{
}

} // verus!
