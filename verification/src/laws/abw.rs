//! Laws of AbiWord documents and of what blocks are in a table's cell.

use crate::abw::{
    area_of, areas_from, counted, counter_at, grid_from, inline_run, item_level, labelled, lowest,
    number_of, property_from, rightmost, run_markdown, run_of, runs_from, runs_text, sections_from,
    style_level, table_of, with_para, AreaV, CounterV, ImageV, RunV, WalkV,
};
use crate::cell::{block_text, cell_from, cell_text, indent};
use crate::celltable::{cell_table, headers_from, lies_in, texts_from, TextCellV};
use crate::document::{blank, blank_has_shape, filled, NodeV, Script};
use crate::text::{
    contains_from, decimal, decimals_read_back, escaped, is_digit, lowered, or_empty, splits,
};
use crate::tree::{kids_of, plain_attr_of, ElementV};
use vstd::prelude::*;

verus! {

// ------------------------------------------------------------ runs

/// The properties of a text say its markup: it is bold, italic, struck,
/// underlined, raised or lowered just where they say so.
pub proof fn properties_say_the_markup(t: Seq<char>, href: Option<Seq<char>>, props: Seq<char>)
    ensures
        ({
            let r = run_of(t, href, props);
            &&& r.text == t
            &&& r.href == href
            &&& r.bold == contains_from(props, "font-weight:bold"@, 0)
            &&& r.italic == contains_from(props, "font-style:italic"@, 0)
            &&& r.strike == contains_from(props, "line-through"@, 0)
            &&& r.underline == contains_from(props, "text-decoration:underline"@, 0)
            &&& contains_from(props, "text-position:superscript"@, 0) ==> r.script == Script::Super
            &&& !contains_from(props, "text-position:superscript"@, 0) && contains_from(
                props,
                "text-position:subscript"@,
                0,
            ) ==> r.script == Script::Sub
        }),
{
}

/// Bold text stands between double asterisks, italic text between asterisks
/// and struck text between double tildes; a link stands in brackets before its
/// target. The runs keep their markup.
pub proof fn markup_shows_as_marks(r: RunV, href: Seq<char>)
    requires
        !r.bold,
        !r.italic,
        !r.strike,
        r.href is None,
    ensures
        run_markdown(r) == escaped(r.text),
        run_markdown(RunV { bold: true, ..r }) == seq!['*', '*'] + escaped(r.text) + seq!['*', '*'],
        run_markdown(RunV { italic: true, ..r }) == seq!['*'] + escaped(r.text) + seq!['*'],
        run_markdown(RunV { strike: true, ..r }) == seq!['~', '~'] + escaped(r.text) + seq![
            '~',
            '~',
        ],
        run_markdown(RunV { href: Some(href), ..r }) == seq!['['] + escaped(r.text) + seq![']', '(']
            + href + seq![')'],
        inline_run(r).text == r.text,
        inline_run(RunV { bold: true, ..r }).bold && !inline_run(r).bold,
        inline_run(RunV { italic: true, ..r }).italic && !inline_run(r).italic,
        inline_run(RunV { strike: true, ..r }).strike && !inline_run(r).strike,
        inline_run(r).underline == r.underline,
        inline_run(r).script == r.script,
{
    reveal_strlit("*");
    reveal_strlit("**");
    reveal_strlit("~~");
    reveal_strlit("[");
    reveal_strlit("](");
    reveal_strlit(")");
    assert("*"@ =~= seq!['*']);
    assert("**"@ =~= seq!['*', '*']);
    assert("~~"@ =~= seq!['~', '~']);
    assert("["@ =~= seq!['[']);
    assert("]("@ =~= seq![']', '(']);
    assert(")"@ =~= seq![')']);
}

// ------------------------------------------------------------ paragraphs

/// A paragraph in the style `Title` has the first level and one in `Subtitle`
/// the second; a heading of a number lies one level below it, and none below
/// the sixth.
pub proof fn styles_say_the_level(n: int)
    requires
        1 <= n <= 255,
    ensures
        style_level("Title"@) == Some(1u8),
        style_level("Subtitle"@) == Some(2u8),
        n <= 5 ==> style_level("Heading "@ + decimal(n)) == Some((n + 1) as u8),
        n > 5 ==> style_level("Heading "@ + decimal(n)) == Some(6u8),
        style_level("Normal"@) is None,
{
    reveal_strlit("title");
    reveal_strlit("subtitle");
    reveal_strlit("heading ");
    reveal_strlit("Title");
    reveal_strlit("Subtitle");
    reveal_strlit("Heading ");
    reveal_strlit("Normal");
    assert("title"@.len() == 5);
    assert("subtitle"@.len() == 8);
    assert("heading "@.len() == 8);
    assert("Title"@.len() == 5);
    assert("Subtitle"@.len() == 8);
    assert("Heading "@.len() == 8);
    assert("Normal"@.len() == 6);
    assert("title"@[0] == 't');
    assert("subtitle"@[0] == 's');
    assert("heading "@[0] == 'h');
    assert("Title"@[0] == 'T');
    assert("Subtitle"@[0] == 'S');
    assert("Heading "@[0] == 'H');
    assert(lowered("Title"@) =~= "title"@);
    assert(lowered("Subtitle"@) =~= "subtitle"@);
    decimals_read_back(n);
    let d = decimal(n);
    let s = "Heading "@ + d;
    let t = lowered(s);
    assert forall|i: int| 0 <= i < d.len() implies #[trigger] t[8 + i] == d[i] by {
        assert(is_digit(d[i]));
    }
    assert(t.take(8) =~= "heading "@);
    assert(t.skip(8) =~= d);
    assert(t[0] == 'h');
    assert("title"@[0] == 't' && "subtitle"@[0] == 's');
    assert(is_digit(d[0]));
    let u = lowered("Normal"@);
    assert(u.len() == 6);
    assert("heading "@.len() == 8);
}

/// A labelled paragraph of a list is an item: it is ordered where its style is
/// a numbered one, and has then the next number of its list. It is the first
/// where the paragraph before is not of the same list.
pub proof fn labelled_paragraphs_are_items(
    e: ElementV,
    images: Seq<ImageV>,
    w: WalkV,
    id: Seq<char>,
    style: Seq<char>,
)
    requires
        plain_attr_of(e, "listid"@) == Some(id),
        plain_attr_of(e, "style"@) == Some(style),
        labelled(e.children, 0),
        runs_text(runs_from(e.children, 0, false, None, seq![])).len() > 0,
    ensures
        ({
            let r = with_para(e, images, w);
            let n = r.nodes.last();
            let ordered = contains_from(style, "Number"@, 0);
            &&& r.nodes.len() > 0
            &&& n is ListItem
            &&& n->ListItem_ordered == ordered
            &&& n->ListItem_first_in_list == (w.last != Some(id))
            &&& n->ListItem_level == item_level(e)
            &&& n->ListItem_text == runs_text(runs_from(e.children, 0, false, None, seq![]))
            &&& ordered ==> n->ListItem_number == number_of(w.counters, id)
            &&& r.last == Some(id)
        }),
{
}

/// The numbers of a list count from one, each list on its own.
pub proof fn lists_count_on_their_own(v: Seq<CounterV>, id: Seq<char>, other: Seq<char>)
    requires
        number_of(v, id) < u64::MAX,
        id != other,
    ensures
        number_of(seq![], id) == 1,
        number_of(counted(v, id), id) == number_of(v, id) + 1,
        number_of(counted(v, id), other) == number_of(v, other),
{
    let w = counted(v, id);
    let k = counter_at(v, 0, id);
    found_counter(v, 0, id);
    found_counter(v, 0, other);
    found_counter(w, 0, id);
    found_counter(w, 0, other);
    let m = counter_at(v, 0, other);
    let a = counter_at(w, 0, id);
    let b = counter_at(w, 0, other);
    assert(w[k].id == id);
    assert forall|i: int| 0 <= i < v.len() implies (#[trigger] w[i]).id == v[i].id by {}
    if a < k {
        assert(w[a].id == v[a].id);
    }
    if a > k {
        assert(w[k].id != id);
    }
    assert(a == k);
    if m < v.len() {
        assert(w[m].id == other);
        if b < m {
            assert(w[b].id == v[b].id);
        }
        if b > m {
            assert(w[m].id != other);
        }
        assert(b == m);
    } else {
        if b < w.len() {
            if b < v.len() {
                assert(w[b].id == v[b].id);
                assert(v[b].id != other);
            }
        }
        assert(b == w.len());
    }
}

proof fn found_counter(v: Seq<CounterV>, i: int, id: Seq<char>)
    requires
        0 <= i <= v.len(),
    ensures
        i <= counter_at(v, i, id) <= v.len(),
        forall|k: int| i <= k < counter_at(v, i, id) ==> (#[trigger] v[k]).id != id,
        counter_at(v, i, id) < v.len() ==> v[counter_at(v, i, id)].id == id,
    decreases v.len() - i,
{
    if i < v.len() && v[i].id != id {
        found_counter(v, i + 1, id);
    }
}

/// The headers and footers of a document show nothing.
pub proof fn headers_and_footers_show_nothing(
    v: Seq<ElementV>,
    i: int,
    images: Seq<ImageV>,
    w: WalkV,
    rest: Seq<char>,
)
    requires
        0 <= i < v.len(),
        plain_attr_of(v[i], "type"@) == Some("header"@ + rest) || plain_attr_of(v[i], "type"@)
            == Some("footer"@ + rest),
    ensures
        sections_from(v, i, images, w) == sections_from(v, i + 1, images, w),
{
    reveal_strlit("header");
    reveal_strlit("footer");
    assert(("header"@ + rest).take(6) =~= "header"@);
    assert(("footer"@ + rest).take(6) =~= "footer"@);
}

// ------------------------------------------------------------ tables

/// The area of a cell has the edges that its properties attach it to.
pub proof fn areas_have_their_attachments(e: ElementV, a: AreaV)
    requires
        area_of(e) == Some(a),
    ensures
        ({
            let p = splits(or_empty(plain_attr_of(e, "props"@)), ';');
            &&& property_from(p, 0, "left-attach"@) == Some(a.l)
            &&& property_from(p, 0, "right-attach"@) == Some(a.r)
            &&& property_from(p, 0, "top-attach"@) == Some(a.t)
            &&& property_from(p, 0, "bot-attach"@) == Some(a.b)
        }),
{
}

/// Whether an area takes a place.
pub open spec fn takes(a: AreaV, i: int, j: int) -> bool {
    a.t <= i < a.b && a.l <= j < a.r
}

proof fn grids_show_the_last_area(
    v: Seq<AreaV>,
    n: int,
    g: Seq<Seq<Seq<char>>>,
    k: int,
    i: int,
    j: int,
)
    requires
        0 <= n <= v.len(),
        0 <= i < g.len(),
        0 <= j < g[i].len(),
        k < v.len(),
        n <= k ==> takes(v[k], i, j),
        forall|q: int| n <= q < v.len() && q > k ==> !(takes(#[trigger] v[q], i, j)),
    ensures
        grid_from(v, n, g).len() == g.len(),
        grid_from(v, n, g)[i].len() == g[i].len(),
        grid_from(v, n, g)[i][j] == (if n <= k < v.len() {
            v[k].text
        } else {
            g[i][j]
        }),
    decreases v.len() - n,
{
    if n < v.len() {
        let next = filled(g, v[n].t, v[n].b, v[n].l, v[n].r, v[n].text);
        if k < n {
            assert(!(takes(v[n], i, j)));
        }
        grids_show_the_last_area(v, n + 1, next, k, i, j);
    }
}

proof fn bounds_hold(v: Seq<AreaV>, i: int, n: int, k: int)
    requires
        0 <= i,
        0 <= k < v.len(),
    ensures
        i <= k ==> v[k].b <= lowest(v, i, n) && v[k].r <= rightmost(v, i, n),
        n <= lowest(v, i, n),
        n <= rightmost(v, i, n),
    decreases v.len() - i,
{
    if i < v.len() {
        bounds_hold(
            v,
            i + 1,
            if v[i].b > n {
                v[i].b
            } else {
                n
            },
            k,
        );
        bounds_hold(
            v,
            i + 1,
            if v[i].r > n {
                v[i].r
            } else {
                n
            },
            k,
        );
    }
}

/// A cell of a table shows its text in the rows from its top to its bottom and
/// the columns from its left to its right, where no cell behind it lies.
pub proof fn cells_show_in_their_area(e: ElementV, v: Seq<AreaV>, k: int, i: int, j: int)
    requires
        areas_from(kids_of(e, "cell"@), 0, seq![]) == Some(v),
        0 <= k < v.len(),
        0 <= i,
        0 <= j,
        takes(v[k], i, j),
        forall|q: int| k < q < v.len() ==> !(takes(#[trigger] v[q], i, j)),
    ensures
        table_of(e) matches Some(t) && t.rows[i][j] == v[k].text,
{
    broadcast use blank_has_shape;

    bounds_hold(v, 0, 0, k);
    let rows = lowest(v, 0, 0);
    let cols = rightmost(v, 0, 0);
    let g = blank(rows, cols, Seq::<char>::empty());
    grids_show_the_last_area(v, 0, g, k, i, j);
}

// ------------------------------------------------------------ cells of text

proof fn texts_lie_at_their_place(
    v: Seq<TextCellV>,
    n: int,
    rows: int,
    cols: int,
    g: Seq<Seq<Seq<char>>>,
    k: int,
    i: int,
    j: int,
)
    requires
        0 <= n <= v.len(),
        0 <= i < rows,
        0 <= j < cols,
        g.len() == rows,
        g[i].len() == cols,
        k < v.len(),
        n <= k ==> v[k].row == i && v[k].col == j,
        forall|q: int|
            n <= q < v.len() && q > k ==> !((#[trigger] v[q]).row == i && v[q].col == j),
    ensures
        texts_from(v, n, rows, cols, g)[i][j] == (if n <= k < v.len() {
            v[k].text
        } else {
            g[i][j]
        }),
    decreases v.len() - n,
{
    if n < v.len() {
        let next = if lies_in(v[n], rows, cols) {
            filled(g, v[n].row, v[n].row + 1, v[n].col, v[n].col + 1, v[n].text)
        } else {
            g
        };
        if k < n {
            assert(!(v[n].row == i && v[n].col == j));
        }
        texts_lie_at_their_place(v, n + 1, rows, cols, next, k, i, j);
    }
}

/// A cell of text lies in its row and column, unless a later one lies there.
pub proof fn cells_of_text_lie_at_their_place(
    v: Seq<TextCellV>,
    rows: int,
    cols: int,
    header_rows: int,
    k: int,
)
    requires
        0 <= k < v.len(),
        0 <= v[k].row < rows,
        0 <= v[k].col < cols,
        forall|q: int|
            k < q < v.len() ==> !((#[trigger] v[q]).row == v[k].row && v[q].col == v[k].col),
    ensures
        cell_table(v, rows, cols, header_rows).rows[v[k].row][v[k].col] == v[k].text,
{
    texts_lie_at_their_place(
        v,
        0,
        rows,
        cols,
        blank(rows, cols, Seq::<char>::empty()),
        k,
        v[k].row,
        v[k].col,
    );
}

proof fn heads_lie_at_the_top(
    v: Seq<TextCellV>,
    n: int,
    rows: int,
    cols: int,
    header_rows: int,
    g: Seq<Seq<bool>>,
    i: int,
    j: int,
)
    requires
        0 <= n <= v.len(),
        0 <= i < rows,
        0 <= j < cols,
        g.len() == rows,
        g[i].len() == cols,
    ensures
        i >= header_rows ==> headers_from(v, n, rows, cols, header_rows, g)[i][j] == g[i][j],
        i < header_rows && (g[i][j] || exists|k: int|
            n <= k < v.len() && (#[trigger] v[k]).row == i && v[k].col == j) ==> headers_from(
            v,
            n,
            rows,
            cols,
            header_rows,
            g,
        )[i][j],
    decreases v.len() - n,
{
    if n < v.len() {
        let next = if lies_in(v[n], rows, cols) && v[n].row < header_rows {
            filled(g, v[n].row, v[n].row + 1, v[n].col, v[n].col + 1, true)
        } else {
            g
        };
        heads_lie_at_the_top(v, n + 1, rows, cols, header_rows, next, i, j);
        if i < header_rows && exists|k: int|
            n <= k < v.len() && (#[trigger] v[k]).row == i && v[k].col == j {
            let k = choose|k: int|
                n <= k < v.len() && (#[trigger] v[k]).row == i && v[k].col == j;
            if k == n {
                assert(next[i][j]);
            }
        }
    }
}

/// The cells of the header rows are headers of their column, and no cell below
/// them is.
pub proof fn header_cells_lie_at_the_top(
    v: Seq<TextCellV>,
    rows: int,
    cols: int,
    header_rows: int,
    k: int,
)
    requires
        0 <= k < v.len(),
        0 <= v[k].row < rows,
        0 <= v[k].col < cols,
    ensures
        ({
            let h = headers_from(v, 0, rows, cols, header_rows, blank(rows, cols, false));
            h[v[k].row][v[k].col] == (v[k].row < header_rows)
        }),
        cell_table(v, rows, cols, header_rows).structure matches Some(s) ==> s.col_header
            == headers_from(v, 0, rows, cols, header_rows, blank(rows, cols, false)),
{
    assert(v[k].row == v[k].row && v[k].col == v[k].col);
    heads_lie_at_the_top(
        v,
        0,
        rows,
        cols,
        header_rows,
        blank(rows, cols, false),
        v[k].row,
        v[k].col,
    );
}

// ------------------------------------------------------------ blocks in cells

/// In a cell an item stands behind a dash or its number, a level deeper four
/// spaces more to the right; a check box says whether it is checked, a formula
/// stands between dollar signs and code between fences.
pub proof fn blocks_are_written_in_cells(
    text: Seq<char>,
    n: u64,
    first: bool,
    level: u8,
    marker: Option<Seq<char>>,
    href: Option<Seq<char>>,
)
    requires
        level < 255,
    ensures
        block_text(
            NodeV::ListItem {
                ordered: false,
                number: n,
                first_in_list: first,
                text,
                level: 0,
                marker,
                href,
                layer: None,
            },
        ) == "- "@ + text,
        block_text(
            NodeV::ListItem {
                ordered: true,
                number: n,
                first_in_list: first,
                text,
                level: 0,
                marker,
                href,
                layer: None,
            },
        ) == decimal(n as int) + ". "@ + text,
        indent(level + 1) == indent(level as int) + "    "@,
        indent(0).len() == 0,
        block_text(NodeV::CheckboxItem { checked: true, text }) == "- [x] "@ + text,
        block_text(NodeV::CheckboxItem { checked: false, text }) == "- [ ] "@ + text,
        block_text(NodeV::Formula { latex: text, orig: text }) == "$$"@ + text + "$$"@,
        block_text(NodeV::Code { language: None, text }) == "```\n"@ + text + "\n```"@,
        block_text(NodeV::Heading { level, text }) == text,
{
    reveal_with_fuel(block_text, 2);
    assert(indent(0) =~= seq![]);
    assert(indent(0) + "- "@ + text =~= "- "@ + text);
    assert(indent(0) + (decimal(n as int) + ". "@) + text =~= decimal(n as int) + ". "@ + text);
}

/// Two blocks of a cell are parted by an empty line, and an item from the one
/// before it by a line break.
pub proof fn blocks_of_cells_are_parted(a: NodeV, b: NodeV)
    requires
        block_text(a).len() > 0,
        block_text(b).len() > 0,
    ensures
        !(a is ListItem && b is ListItem) ==> cell_text(seq![a, b]) == block_text(a) + "\n\n"@
            + block_text(b),
        a is ListItem && b is ListItem && !b->ListItem_first_in_list ==> cell_text(seq![a, b])
            == block_text(a) + "\n"@ + block_text(b),
        cell_text(seq![a]) == block_text(a),
{
    let v = seq![a, b];
    assert(v[0] == a && v[1] == b);
    reveal_with_fuel(cell_from, 3);
    assert(Seq::<char>::empty() + block_text(a) =~= block_text(a));
    assert(seq![a][0] == a);
}

} // verus!
