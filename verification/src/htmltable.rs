//! The grid of an HTML table.

use crate::document::{
    blank, blank_cells, blank_flags, blank_has_shape, cells, cells_view, fill_cells, fill_flags,
    filled, filled_keeps_shape, flags, has_shape, is_grid, nodes_view, string_grid, table_view,
    CaptionParent, Node, NodeV, Table, TableStructure, TableStructureV, TableV,
};
use crate::jats::{free_col, least};
use crate::text::{chars_of, parse_uint, str_eq, strip, trim, uint};
use crate::tree::{
    either_kids, either_kids_of, has_tag, plain_attr, plain_attr_of, refs_view, refs_view_push,
    tree_view, trees_view, Element, ElementV, Tree, TreeV,
};
use vstd::prelude::*;

verus! {

/// What a cell shows: its text, whether it is more than a plain text, and its
/// blocks.
pub struct Rendered {
    pub text: Vec<char>,
    pub rich: bool,
    pub blocks: Vec<Node>,
}

/// View of a [`Rendered`].
#[verifier::ext_equal]
pub struct RenderedV {
    pub text: Seq<char>,
    pub rich: bool,
    pub blocks: Seq<NodeV>,
}

impl View for Rendered {
    type V = RenderedV;

    open spec fn view(&self) -> RenderedV {
        RenderedV { text: self.text@, rich: self.rich, blocks: nodes_view(self.blocks@) }
    }
}

/// Views of rendered cells.
pub open spec fn rendered_view(v: Seq<Rendered>) -> Seq<RenderedV> {
    Seq::new(v.len(), |i: int| v[i]@)
}

/// Pushing a cell pushes its view.
pub broadcast proof fn rendered_view_push(v: Seq<Rendered>, x: Rendered)
    ensures
        #[trigger] rendered_view(v.push(x)) == rendered_view(v).push(x@),
{
    assert(rendered_view(v.push(x)) =~= rendered_view(v).push(x@));
}

/// The `k`-th of the rendered cells.
pub open spec fn nth(v: Seq<RenderedV>, k: int) -> RenderedV {
    if 0 <= k < v.len() {
        v[k]
    } else {
        RenderedV { text: seq![], rich: false, blocks: seq![] }
    }
}

/// A span attribute: a whole number of at least one, else one.
pub open spec fn span(e: ElementV, name: Seq<char>) -> int {
    match plain_attr_of(e, name) {
        Some(v) => match uint(strip(v), usize::MAX as int) {
            Some(n) => if n >= 1 {
                n
            } else {
                1
            },
            None => 1,
        },
        None => 1,
    }
}

/// A span attribute.
pub fn span_attr(e: &Element, name: &str) -> (r: usize)
    ensures
        r == span(e@, name@),
        r >= 1,
{
    match plain_attr(e, name) {
        Some(v) => match parse_uint(&trim(&chars_of(v)), usize::MAX as u128) {
            Some(n) => if n >= 1 {
                n as usize
            } else {
                1
            },
            None => 1,
        },
        None => 1,
    }
}

/// The table's rows among the children from `i` on, those of its sections
/// with them unless `inner`; nested tables keep their own.
pub open spec fn table_rows(ch: Seq<TreeV>, i: int, inner: bool, done: Seq<ElementV>) -> Seq<
    ElementV,
>
    decreases ch, ch.len() - i,
{
    if i < 0 || i >= ch.len() {
        done
    } else {
        table_rows(
            ch,
            i + 1,
            inner,
            match ch[i] {
                TreeV::Element(e) => if e.tag == "tr"@ {
                    done.push(e)
                } else if !inner && is_section(e.tag) {
                    table_rows(e.children, 0, true, done)
                } else {
                    done
                },
                _ => done,
            },
        )
    }
}

/// The sections of a table.
pub open spec fn is_section(t: Seq<char>) -> bool {
    t == "thead"@ || t == "tbody"@ || t == "tfoot"@
}

/// Whether a tag is a table section's.
pub fn section(t: &str) -> (r: bool)
    ensures
        r == is_section(t@),
{
    str_eq(t, "thead") || str_eq(t, "tbody") || str_eq(t, "tfoot")
}

fn collect_rows<'a>(ch: &'a Vec<Tree>, inner: bool, out: &mut Vec<&'a Element>)
    ensures
        refs_view(final(out)@) == table_rows(trees_view(ch@), 0, inner, refs_view(old(out)@)),
    decreases ch,
{
    broadcast use refs_view_push;

    let ghost v = trees_view(ch@);
    let ghost first = refs_view(out@);
    let mut i: usize = 0;
    while i < ch.len()
        invariant
            i <= ch@.len(),
            v == trees_view(ch@),
            table_rows(v, 0, inner, first) == table_rows(v, i as int, inner, refs_view(out@)),
        decreases ch@.len() - i,
    {
        broadcast use refs_view_push;

        assert(v[i as int] == tree_view(ch@[i as int]));
        match &ch[i] {
            Tree::Element(e) => {
                if has_tag(e, "tr") {
                    out.push(e);
                } else if !inner && section(e.tag.as_str()) {
                    collect_rows(&e.children, true, out);
                }
            },
            _ => {},
        }
        i += 1;
    }
}

/// The cells of a row.
pub open spec fn row_of(tr: ElementV) -> Seq<ElementV> {
    either_kids_of(tr, "td"@, "th"@)
}

/// The columns that the cells of a row take.
pub open spec fn row_width(v: Seq<ElementV>) -> int
    decreases v.len(),
{
    if v.len() == 0 {
        0
    } else {
        row_width(v.drop_last()) + span(v.last(), "colspan"@)
    }
}

/// Whether the cells from `i` on are headers that span several rows.
pub open spec fn spanning(v: Seq<ElementV>, i: int) -> bool
    decreases v.len() - i,
{
    if i >= v.len() {
        true
    } else {
        v[i].tag == "th"@ && span(v[i], "rowspan"@) > 1 && spanning(v, i + 1)
    }
}

/// Whether a row only holds headers of the rows below it.
pub open spec fn is_label_row(v: Seq<ElementV>) -> bool {
    v.len() > 0 && spanning(v, 0)
}

/// Whether the cells from `i` on are all headers.
pub open spec fn all_heads(v: Seq<ElementV>, i: int) -> bool
    decreases v.len() - i,
{
    if i >= v.len() {
        true
    } else {
        v[i].tag == "th"@ && all_heads(v, i + 1)
    }
}

/// The width of the widest of the rows from `i` on, or `most`.
pub open spec fn widest(rows: Seq<ElementV>, i: int, most: int) -> int
    decreases rows.len() - i,
{
    if i >= rows.len() {
        most
    } else {
        let w = row_width(row_of(rows[i]));
        widest(
            rows,
            i + 1,
            if w > most {
                w
            } else {
                most
            },
        )
    }
}

/// The number of rows from `i` on that are not label rows, and `n`.
pub open spec fn data_rows(rows: Seq<ElementV>, i: int, n: int) -> int
    decreases rows.len() - i,
{
    if i >= rows.len() {
        n
    } else {
        data_rows(
            rows,
            i + 1,
            if is_label_row(row_of(rows[i])) {
                n
            } else {
                n + 1
            },
        )
    }
}

/// The grid while it is filled: `next` rows were begun, `down` label rows
/// came behind the last of them, and `k` cells are placed.
#[verifier::ext_equal]
pub struct GridV {
    pub text: Seq<Seq<Seq<char>>>,
    pub taken: Seq<Seq<bool>>,
    pub heads: Seq<Seq<bool>>,
    pub labels: Seq<Seq<bool>>,
    pub cols: Seq<Seq<bool>>,
    pub rows: Seq<Seq<bool>>,
    pub blocks: Seq<Seq<Seq<NodeV>>>,
    pub rich: bool,
    pub next: int,
    pub down: int,
    pub k: int,
}

/// What holds for a whole row: whether it is a label row, and whether all its
/// cells are headers.
pub struct RowKind {
    pub label: bool,
    pub heads: bool,
}

/// The grid with one cell placed at row `r` and column `c`.
pub open spec fn put(
    g: GridV,
    e: ElementV,
    x: RenderedV,
    r: int,
    c: int,
    kind: RowKind,
    height: int,
    width: int,
) -> GridV {
    let rs = span(e, "rowspan"@) - if kind.label {
        1int
    } else {
        0int
    };
    let r1 = least(r + rs, height);
    let c1 = least(c + span(e, "colspan"@), width);
    let whole = filled(
        g.text,
        r,
        r1,
        c,
        c1,
        if x.rich {
            seq![]
        } else {
            x.text
        },
    );
    GridV {
        text: filled(whole, r, least(r + 1, r1), c, least(c + 1, c1), x.text),
        taken: filled(g.taken, r, r1, c, c1, true),
        heads: filled(g.heads, r, r1, c, c1, kind.heads && !kind.label),
        labels: filled(
            g.labels,
            r,
            r1,
            c,
            c1,
            kind.label || (!kind.heads && e.tag == "th"@),
        ),
        cols: filled(filled(g.cols, r, r1, c, c1, true), r, r1, c, least(c + 1, c1), false),
        rows: filled(filled(g.rows, r, r1, c, c1, true), r, least(r + 1, r1), c, c1, false),
        blocks: if x.blocks.len() == 0 {
            g.blocks
        } else {
            filled(g.blocks, r, least(r + 1, r1), c, least(c + 1, c1), x.blocks)
        },
        rich: g.rich || x.blocks.len() > 0,
        ..g
    }
}

/// The grid with the cells of a row from `j` on placed, the next at column
/// `c` or behind.
pub open spec fn put_cells(
    v: Seq<ElementV>,
    j: int,
    c: int,
    kind: RowKind,
    shown: Seq<RenderedV>,
    height: int,
    width: int,
    g: GridV,
) -> GridV
    decreases v.len() - j,
{
    if j >= v.len() {
        g
    } else {
        let r = g.next + g.down - 1;
        let at = if r < height {
            free_col(g.taken[r], c, width)
        } else {
            c
        };
        put_cells(
            v,
            j + 1,
            least(at + span(v[j], "colspan"@), width),
            kind,
            shown,
            height,
            width,
            GridV {
                k: least(g.k + 1, shown.len() as int),
                ..put(g, v[j], nth(shown, g.k), r, at, kind, height, width)
            },
        )
    }
}

/// The grid with the rows from `i` on placed. `labels` says that label rows
/// are told apart.
pub open spec fn put_rows(
    rows: Seq<ElementV>,
    i: int,
    labels: bool,
    shown: Seq<RenderedV>,
    height: int,
    width: int,
    g: GridV,
) -> GridV
    decreases rows.len() - i,
{
    if i >= rows.len() {
        g
    } else {
        let v = row_of(rows[i]);
        let label = labels && is_label_row(v);
        put_rows(
            rows,
            i + 1,
            labels,
            shown,
            height,
            width,
            put_cells(
                v,
                0,
                0,
                RowKind { label, heads: all_heads(v, 0) },
                shown,
                height,
                width,
                if label {
                    GridV { down: g.down + 1, ..g }
                } else {
                    GridV { next: g.next + 1, down: 0, ..g }
                },
            ),
        )
    }
}

/// A grid without cells.
pub open spec fn empty_grid(height: int, width: int) -> GridV {
    GridV {
        text: blank(height, width, Seq::<char>::empty()),
        taken: blank(height, width, false),
        heads: blank(height, width, false),
        labels: blank(height, width, false),
        cols: blank(height, width, false),
        rows: blank(height, width, false),
        blocks: blank(height, width, Seq::<NodeV>::empty()),
        rich: false,
        next: 0,
        down: 0,
        k: 0,
    }
}

/// The height of a table's grid: its rows without label rows, or all rows
/// where each is one.
pub open spec fn height_of(rows: Seq<ElementV>) -> int {
    let n = data_rows(rows, 0, 0);
    if n == 0 {
        rows.len() as int
    } else {
        n
    }
}

/// The table whose cells show `shown`, in document order. None without cells,
/// or where the columns cannot be counted.
pub open spec fn laid_out(table: ElementV, shown: Seq<RenderedV>) -> Option<TableV> {
    let rows = table_rows(table.children, 0, false, seq![]);
    let height = height_of(rows);
    let width = widest(rows, 0, 0);
    if height == 0 || width == 0 || width > usize::MAX {
        None
    } else {
        let g = put_rows(
            rows,
            0,
            data_rows(rows, 0, 0) > 0,
            shown,
            height,
            width,
            empty_grid(height, width),
        );
        Some(
            TableV {
                rows: g.text,
                structure: Some(
                    TableStructureV {
                        header_row: seq![],
                        col_header: g.heads,
                        row_header: g.labels,
                        col_continuation: g.cols,
                        row_continuation: g.rows,
                    },
                ),
                cell_blocks: if g.rich {
                    Some(g.blocks)
                } else {
                    None
                },
                caption: None,
                caption_parent: CaptionParent::Body,
            },
        )
    }
}

/// Whether all parts of a grid have a shape.
pub open spec fn grid_fits(g: GridV, height: int, width: int) -> bool {
    &&& has_shape(g.text, height, width)
    &&& has_shape(g.taken, height, width)
    &&& has_shape(g.heads, height, width)
    &&& has_shape(g.labels, height, width)
    &&& has_shape(g.cols, height, width)
    &&& has_shape(g.rows, height, width)
    &&& has_shape(g.blocks, height, width)
}

proof fn put_keeps_the_shape(
    g: GridV,
    e: ElementV,
    x: RenderedV,
    r: int,
    c: int,
    kind: RowKind,
    height: int,
    width: int,
)
    requires
        grid_fits(g, height, width),
    ensures
        grid_fits(put(g, e, x, r, c, kind, height, width), height, width),
{
    broadcast use filled_keeps_shape;

}

proof fn put_cells_keep_the_shape(
    v: Seq<ElementV>,
    j: int,
    c: int,
    kind: RowKind,
    shown: Seq<RenderedV>,
    height: int,
    width: int,
    g: GridV,
)
    requires
        grid_fits(g, height, width),
    ensures
        grid_fits(put_cells(v, j, c, kind, shown, height, width, g), height, width),
    decreases v.len() - j,
{
    if j < v.len() {
        let r = g.next + g.down - 1;
        let at = if r < height {
            free_col(g.taken[r], c, width)
        } else {
            c
        };
        let placed = put(g, v[j], nth(shown, g.k), r, at, kind, height, width);
        put_keeps_the_shape(g, v[j], nth(shown, g.k), r, at, kind, height, width);
        put_cells_keep_the_shape(
            v,
            j + 1,
            least(at + span(v[j], "colspan"@), width),
            kind,
            shown,
            height,
            width,
            GridV { k: least(g.k + 1, shown.len() as int), ..placed },
        );
    }
}

proof fn put_rows_keep_the_shape(
    rows: Seq<ElementV>,
    i: int,
    labels: bool,
    shown: Seq<RenderedV>,
    height: int,
    width: int,
    g: GridV,
)
    requires
        grid_fits(g, height, width),
    ensures
        grid_fits(put_rows(rows, i, labels, shown, height, width, g), height, width),
    decreases rows.len() - i,
{
    if i < rows.len() {
        let v = row_of(rows[i]);
        let label = labels && is_label_row(v);
        let kind = RowKind { label, heads: all_heads(v, 0) };
        let next = if label {
            GridV { down: g.down + 1, ..g }
        } else {
            GridV { next: g.next + 1, down: 0, ..g }
        };
        put_cells_keep_the_shape(v, 0, 0, kind, shown, height, width, next);
        put_rows_keep_the_shape(
            rows,
            i + 1,
            labels,
            shown,
            height,
            width,
            put_cells(v, 0, 0, kind, shown, height, width, next),
        );
    }
}

proof fn sizes_are_sizes(rows: Seq<ElementV>, i: int, most: int)
    requires
        0 <= most,
    ensures
        0 <= widest(rows, i, most),
        0 <= data_rows(rows, i, most),
    decreases rows.len() - i,
{
    if i < rows.len() {
        let w = row_width(row_of(rows[i]));
        sizes_are_sizes(rows, i + 1, most);
        sizes_are_sizes(rows, i + 1, most + 1);
        if w > most {
            sizes_are_sizes(rows, i + 1, w);
        }
    }
}

/// Each row of a page's table is as wide as its widest row, and so are the
/// flags and the blocks of its cells.
pub proof fn page_tables_are_full(table: ElementV, shown: Seq<RenderedV>)
    ensures
        laid_out(table, shown) matches Some(t) ==> {
            let rows = table_rows(table.children, 0, false, seq![]);
            let height = height_of(rows);
            let width = widest(rows, 0, 0);
            &&& has_shape(t.rows, height, width)
            &&& t.structure matches Some(s) ==> {
                &&& has_shape(s.col_header, height, width)
                &&& has_shape(s.row_header, height, width)
                &&& has_shape(s.col_continuation, height, width)
                &&& has_shape(s.row_continuation, height, width)
            }
            &&& t.cell_blocks matches Some(b) ==> has_shape(b, height, width)
        },
{
    broadcast use blank_has_shape;

    let rows = table_rows(table.children, 0, false, seq![]);
    let height = height_of(rows);
    let width = widest(rows, 0, 0);
    sizes_are_sizes(rows, 0, 0);
    put_rows_keep_the_shape(
        rows,
        0,
        data_rows(rows, 0, 0) > 0,
        shown,
        height,
        width,
        empty_grid(height, width),
    );
}

// ------------------------------------------------------------ laying out

proof fn row_width_bounds(v: Seq<ElementV>)
    ensures
        0 <= row_width(v) <= v.len() * usize::MAX,
    decreases v.len(),
{
    if v.len() > 0 {
        row_width_bounds(v.drop_last());
        let n = v.len() as int;
        assert(n * usize::MAX == (n - 1) * usize::MAX + usize::MAX) by (nonlinear_arith);
    }
}

fn width_of(v: &Vec<&Element>) -> (r: u128)
    ensures
        r == row_width(refs_view(v@)),
{
    let ghost w = refs_view(v@);
    let mut sum: u128 = 0;
    let mut i: usize = 0;
    assert(w.take(0) =~= seq![]);
    while i < v.len()
        invariant
            i <= v@.len(),
            w == refs_view(v@),
            sum == row_width(w.take(i as int)),
        decreases v@.len() - i,
    {
        proof {
            assert(w[i as int] == v@[i as int]@);
            assert(w.take(i + 1).drop_last() =~= w.take(i as int));
            row_width_bounds(w.take(i + 1));
            assert((i + 1) * usize::MAX <= 0xffff_ffff_ffff_ffff * 0xffff_ffff_ffff_ffff)
                by (nonlinear_arith)
                requires
                    i + 1 <= 0xffff_ffff_ffff_ffff,
                    usize::MAX <= 0xffff_ffff_ffff_ffff,
            ;
        }
        sum = sum + span_attr(v[i], "colspan") as u128;
        i += 1;
    }
    assert(w.take(i as int) =~= w);
    sum
}

fn label_row(v: &Vec<&Element>) -> (r: bool)
    ensures
        r == is_label_row(refs_view(v@)),
{
    let ghost w = refs_view(v@);
    if v.len() == 0 {
        return false;
    }
    let mut i: usize = 0;
    while i < v.len()
        invariant
            i <= v@.len(),
            w == refs_view(v@),
            w.len() > 0,
            spanning(w, 0) == spanning(w, i as int),
        decreases v@.len() - i,
    {
        assert(w[i as int] == v@[i as int]@);
        if !(has_tag(v[i], "th") && span_attr(v[i], "rowspan") > 1) {
            return false;
        }
        i += 1;
    }
    true
}

fn heads_only(v: &Vec<&Element>) -> (r: bool)
    ensures
        r == all_heads(refs_view(v@), 0),
{
    let ghost w = refs_view(v@);
    let mut i: usize = 0;
    while i < v.len()
        invariant
            i <= v@.len(),
            w == refs_view(v@),
            all_heads(w, 0) == all_heads(w, i as int),
        decreases v@.len() - i,
    {
        assert(w[i as int] == v@[i as int]@);
        if !has_tag(v[i], "th") {
            return false;
        }
        i += 1;
    }
    true
}

/// Views of a grid of blocks.
pub open spec fn block_cells(b: Seq<Vec<Vec<Node>>>) -> Seq<Seq<Seq<NodeV>>> {
    Seq::new(b.len(), |i: int| cells_view(b[i]@))
}

/// A grid of cells without blocks.
pub fn blank_blocks(rows: usize, cols: usize) -> (r: Vec<Vec<Vec<Node>>>)
    ensures
        block_cells(r@) == blank(rows as int, cols as int, Seq::<NodeV>::empty()),
{
    let mut out: Vec<Vec<Vec<Node>>> = Vec::new();
    let ghost empty = Seq::new(cols as nat, |j: int| Seq::<NodeV>::empty());
    while out.len() < rows
        invariant
            out@.len() <= rows,
            empty == Seq::new(cols as nat, |j: int| Seq::<NodeV>::empty()),
            forall|i: int| 0 <= i < out@.len() ==> cells_view((#[trigger] out@[i])@) == empty,
        decreases rows - out@.len(),
    {
        let mut row: Vec<Vec<Node>> = Vec::new();
        while row.len() < cols
            invariant
                row@.len() <= cols,
                forall|j: int| 0 <= j < row@.len() ==> nodes_view((#[trigger] row@[j])@).len() == 0,
            decreases cols - row@.len(),
        {
            let cell: Vec<Node> = Vec::new();
            row.push(cell);
        }
        assert(cells_view(row@) =~= empty) by {
            assert forall|j: int| 0 <= j < cols implies cells_view(row@)[j] =~= seq![] by {
                assert(nodes_view(row@[j]@).len() == 0);
            }
        }
        out.push(row);
    }
    assert(block_cells(out@) =~= blank(rows as int, cols as int, Seq::<NodeV>::empty()));
    out
}

/// Sets the blocks of a cell, if it lies in the grid.
pub fn set_blocks(b: &mut Vec<Vec<Vec<Node>>>, r: usize, c: usize, height: usize, width: usize, v: Vec<Node>)
    requires
        is_grid(block_cells(old(b)@), height as int, width as int),
    ensures
        block_cells(final(b)@) == (if r < height && c < width {
            filled(
                block_cells(old(b)@),
                r as int,
                r + 1,
                c as int,
                c + 1,
                nodes_view(v@),
            )
        } else {
            block_cells(old(b)@)
        }),
        is_grid(block_cells(final(b)@), height as int, width as int),
{
    if r < height && c < width {
        let ghost was = block_cells(b@);
        assert(was[r as int].len() == width);
        let mut row: Vec<Vec<Node>> = Vec::new();
        std::mem::swap(&mut row, &mut b[r]);
        assert(cells_view(row@) == was[r as int]);
        assert(row@.len() == width);
        row.set(c, v);
        let ghost new_row = cells_view(row@);
        b.set(r, row);
        let ghost want = filled(was, r as int, r + 1, c as int, c + 1, nodes_view(v@));
        assert(new_row =~= want[r as int]);
        assert(block_cells(b@) =~= want) by {
            assert forall|i: int| 0 <= i < height implies block_cells(b@)[i] =~= want[i] by {
                if i != r {
                    assert(b@[i] == old(b)@[i]);
                    assert(want[i] =~= was[i]);
                }
            }
        }
        assert forall|i: int| 0 <= i < height implies (#[trigger] block_cells(b@)[i]).len() == width
            by {
            assert(was[i].len() == width);
        }
    }
}

/// The grid while it is filled.
struct Grid {
    text: Vec<Vec<Vec<char>>>,
    taken: Vec<Vec<bool>>,
    heads: Vec<Vec<bool>>,
    labels: Vec<Vec<bool>>,
    cols: Vec<Vec<bool>>,
    rows: Vec<Vec<bool>>,
    blocks: Vec<Vec<Vec<Node>>>,
    rich: bool,
    next: usize,
    down: usize,
    k: usize,
}

impl Grid {
    spec fn model(self) -> GridV {
        GridV {
            text: cells(self.text@),
            taken: flags(self.taken@),
            heads: flags(self.heads@),
            labels: flags(self.labels@),
            cols: flags(self.cols@),
            rows: flags(self.rows@),
            blocks: block_cells(self.blocks@),
            rich: self.rich,
            next: self.next as int,
            down: self.down as int,
            k: self.k as int,
        }
    }

    spec fn fits(self, height: int, width: int) -> bool {
        is_grid(flags(self.taken@), height, width) && is_grid(
            block_cells(self.blocks@),
            height,
            width,
        )
    }

    fn put_cell(
        &mut self,
        e: &Element,
        x: Rendered,
        r: usize,
        c: usize,
        kind: &RowKind,
        height: usize,
        width: usize,
    )
        requires
            old(self).fits(height as int, width as int),
            c <= width,
            kind.label ==> span(e@, "rowspan"@) > 1,
        ensures
            final(self).model() == put(
                old(self).model(),
                e@,
                x@,
                r as int,
                c as int,
                *kind,
                height as int,
                width as int,
            ),
            final(self).fits(height as int, width as int),
            final(self).next == old(self).next,
            final(self).down == old(self).down,
            final(self).k == old(self).k,
    {
        let ghost was = self.model();
        let mut rs: usize = span_attr(e, "rowspan");
        if kind.label {
            rs = rs - 1;
        }
        let cs: usize = span_attr(e, "colspan");
        let r1: usize = if r >= height {
            height
        } else if height - r < rs {
            height
        } else {
            r + rs
        };
        let c1: usize = if width - c < cs {
            width
        } else {
            c + cs
        };
        let ghost want = put(was, e@, x@, r as int, c as int, *kind, height as int, width as int);
        let none: Vec<char> = Vec::new();
        assert(none@ =~= seq![]);
        let inside = r < height && c < width;
        if inside {
            assert(r1 == least(r + rs, height as int));
            assert(c1 == least(c + cs, width as int));
            assert(rs >= 1 && cs >= 1);
            if x.rich {
                fill_cells(&mut self.text, r, r1, c, c1, &none);
            } else {
                fill_cells(&mut self.text, r, r1, c, c1, &x.text);
            }
            fill_cells(&mut self.text, r, r + 1, c, c + 1, &x.text);
            fill_flags(&mut self.taken, r, r1, c, c1, true);
            fill_flags(&mut self.heads, r, r1, c, c1, kind.heads && !kind.label);
            fill_flags(
                &mut self.labels,
                r,
                r1,
                c,
                c1,
                kind.label || (!kind.heads && has_tag(e, "th")),
            );
            fill_flags(&mut self.cols, r, r1, c, c1, true);
            fill_flags(&mut self.cols, r, r1, c, c + 1, false);
            fill_flags(&mut self.rows, r, r1, c, c1, true);
            fill_flags(&mut self.rows, r, r + 1, c, c1, false);
        } else {
            proof {
                outside(was.text, r as int, c as int, height as int, width as int);
                outside(was.taken, r as int, c as int, height as int, width as int);
                outside(was.heads, r as int, c as int, height as int, width as int);
                outside(was.labels, r as int, c as int, height as int, width as int);
                outside(was.cols, r as int, c as int, height as int, width as int);
                outside(was.rows, r as int, c as int, height as int, width as int);
                outside(was.blocks, r as int, c as int, height as int, width as int);
            }
        }
        let more = x.blocks.len() > 0;
        assert(more == (x@.blocks.len() > 0));
        if more {
            set_blocks(&mut self.blocks, r, c, height, width, x.blocks);
            self.rich = true;
        }
        assert(self.model().text =~= want.text);
        assert(self.model().cols =~= want.cols);
        assert(self.model().rows =~= want.rows);
        assert(self.model().blocks =~= want.blocks);
        assert(self.model() =~= want);
    }
}

/// A rectangle that begins outside a grid changes nothing.
proof fn outside<T>(g: Seq<Seq<T>>, r: int, c: int, height: int, width: int)
    requires
        r >= height || c >= width,
    ensures
        forall|r1: int, c1: int, v: T|
            #![trigger filled(g, r, r1, c, c1, v)]
            r1 <= height && c1 <= width ==> filled(g, r, r1, c, c1, v) == g,
{
    assert forall|r1: int, c1: int, v: T|
        #![trigger filled(g, r, r1, c, c1, v)]
        r1 <= height && c1 <= width implies filled(g, r, r1, c, c1, v) == g by {
        let h = filled(g, r, r1, c, c1, v);
        assert forall|i: int| 0 <= i < g.len() implies h[i] =~= g[i] by {}
        assert(h =~= g);
    }
}

fn put_row(
    v: &Vec<&Element>,
    kind: &RowKind,
    shown: &mut Vec<Rendered>,
    height: usize,
    width: usize,
    g: &mut Grid,
)
    requires
        old(g).fits(height as int, width as int),
        old(g).next + old(g).down >= 1,
        old(g).k <= old(shown)@.len(),
        old(g).next + old(g).down <= usize::MAX,
        kind.label ==> spanning(refs_view(v@), 0),
    ensures
        final(g).fits(height as int, width as int),
        final(g).next == old(g).next,
        final(g).down == old(g).down,
        final(g).k <= final(shown)@.len(),
        forall|all: Seq<RenderedV>|
            #![trigger tail_of(all, old(shown)@, old(g).k as int)]
            tail_of(all, old(shown)@, old(g).k as int) ==> {
                &&& final(g).model() == put_cells(
                    refs_view(v@),
                    0,
                    0,
                    *kind,
                    all,
                    height as int,
                    width as int,
                    old(g).model(),
                )
                &&& tail_of(all, final(shown)@, final(g).k as int)
            },
{
    let ghost w = refs_view(v@);
    let ghost g0 = g.model();
    let ghost shown0 = shown@;
    let ghost k0 = g.k as int;
    let r: usize = g.next + g.down - 1;
    let mut c: usize = 0;
    let mut j: usize = 0;
    while j < v.len()
        invariant
            j <= v@.len(),
            w == refs_view(v@),
            c <= width,
            r == g.next + g.down - 1,
            g.fits(height as int, width as int),
            kind.label ==> spanning(w, j as int),
            g.k <= shown@.len(),
            g.next == old(g).next,
            g.down == old(g).down,
            forall|all: Seq<RenderedV>|
                #![trigger tail_of(all, shown0, k0)]
                tail_of(all, shown0, k0) ==> {
                    &&& put_cells(w, 0, 0, *kind, all, height as int, width as int, g0)
                        == put_cells(
                        w,
                        j as int,
                        c as int,
                        *kind,
                        all,
                        height as int,
                        width as int,
                        g.model(),
                    )
                    &&& tail_of(all, shown@, g.k as int)
                },
        decreases v@.len() - j,
    {
        assert(w[j as int] == v@[j as int]@);
        if r < height {
            let ghost c0 = c;
            assert(g.model().taken[r as int] == g.taken@[r as int]@);
            assert(g.model().taken[r as int].len() == width);
            while c < width && g.taken[r][c]
                invariant
                    c0 <= c <= width,
                    r < height,
                    g.taken@.len() == height,
                    g.taken@[r as int]@.len() == width,
                    free_col(g.taken@[r as int]@, c0 as int, width as int) == free_col(
                        g.taken@[r as int]@,
                        c as int,
                        width as int,
                    ),
                decreases width - c,
            {
                c += 1;
            }
        }
        let mut x = Rendered { text: Vec::new(), rich: false, blocks: Vec::new() };
        assert(x@ =~= (RenderedV { text: seq![], rich: false, blocks: seq![] }));
        let ghost before = shown@;
        let k: usize = g.k;
        if k < shown.len() {
            std::mem::swap(&mut x, &mut shown[k]);
        }
        let rest: usize = if k < shown.len() {
            k + 1
        } else {
            shown.len()
        };
        proof {
            assert forall|all: Seq<RenderedV>| #[trigger] tail_of(all, before, k as int) implies
                nth(all, k as int) == x@ && tail_of(all, shown@, rest as int) by {
                if k < all.len() {
                    assert(before[k as int]@ == all[k as int]);
                }
                assert forall|m: int| rest <= m < all.len() implies (#[trigger] shown@[m])@ == all[m] by {
                    assert(before[m]@ == all[m]);
                }
            }
        }
        let cs: usize = span_attr(v[j], "colspan");
        g.put_cell(v[j], x, r, c, kind, height, width);
        g.k = rest;
        c = if width - c < cs {
            width
        } else {
            c + cs
        };
        j += 1;
    }
}

/// The rendered cells that are still to be placed are those from `k` on.
pub open spec fn tail_of(all: Seq<RenderedV>, shown: Seq<Rendered>, k: int) -> bool {
    all.len() == shown.len() && forall|m: int|
        k <= m < all.len() ==> (#[trigger] shown[m])@ == all[m]
}

/// The table whose cells show `shown`, in document order.
pub fn lay_out(table: &Element, shown: Vec<Rendered>) -> (r: Option<Table>)
    ensures
        match laid_out(table@, rendered_view(shown@)) {
            Some(t) => r matches Some(x) && table_view(x) == t,
            None => r is None,
        },
{
    let mut shown = shown;
    let ghost all = rendered_view(shown@);
    let mut rows: Vec<&Element> = Vec::new();
    assert(refs_view(rows@) =~= seq![]);
    collect_rows(&table.children, false, &mut rows);
    let ghost v = refs_view(rows@);
    let n: usize = rows.len();
    let mut most: u128 = 0;
    let mut count: usize = 0;
    let mut i: usize = 0;
    while i < n
        invariant
            i <= n == rows@.len(),
            v == refs_view(rows@),
            count <= i,
            widest(v, 0, 0) == widest(v, i as int, most as int),
            data_rows(v, 0, 0) == data_rows(v, i as int, count as int),
        decreases n - i,
    {
        assert(v[i as int] == rows@[i as int]@);
        let row = either_kids(rows[i], "td", "th");
        let w = width_of(&row);
        if w > most {
            most = w;
        }
        if !label_row(&row) {
            count += 1;
        }
        i += 1;
    }
    let labels = count > 0;
    let height: usize = if labels {
        count
    } else {
        n
    };
    if height == 0 || most == 0 || most > usize::MAX as u128 {
        return None;
    }
    let width: usize = most as usize;
    let mut g = Grid {
        text: blank_cells(height, width),
        taken: blank_flags(height, width),
        heads: blank_flags(height, width),
        labels: blank_flags(height, width),
        cols: blank_flags(height, width),
        rows: blank_flags(height, width),
        blocks: blank_blocks(height, width),
        rich: false,
        next: 0,
        down: 0,
        k: 0,
    };
    assert(g.model() =~= empty_grid(height as int, width as int));
    assert(tail_of(all, shown@, 0));
    assert(is_grid(block_cells(g.blocks@), height as int, width as int));
    let ghost want = put_rows(
        v,
        0,
        labels,
        all,
        height as int,
        width as int,
        empty_grid(height as int, width as int),
    );
    let mut j: usize = 0;
    while j < n
        invariant
            j <= n == rows@.len(),
            v == refs_view(rows@),
            g.fits(height as int, width as int),
            g.next + g.down <= j,
            g.k <= shown@.len(),
            tail_of(all, shown@, g.k as int),
            want == put_rows(v, j as int, labels, all, height as int, width as int, g.model()),
        decreases n - j,
    {
        assert(v[j as int] == rows@[j as int]@);
        let row = either_kids(rows[j], "td", "th");
        let label = labels && label_row(&row);
        if label {
            g.down = g.down + 1;
        } else {
            g.next = g.next + 1;
            g.down = 0;
        }
        let kind = RowKind { label, heads: heads_only(&row) };
        let ghost before = shown@;
        let ghost k0 = g.k as int;
        assert(tail_of(all, before, k0));
        put_row(&row, &kind, &mut shown, height, width, &mut g);
        assert(tail_of(all, before, k0));
        j += 1;
    }
    let cell_blocks = if g.rich {
        Some(g.blocks)
    } else {
        None
    };
    let t = Table {
        rows: string_grid(&g.text),
        structure: Some(
            TableStructure {
                header_row: Vec::new(),
                col_header: g.heads,
                row_header: g.labels,
                col_continuation: g.cols,
                row_continuation: g.rows,
            },
        ),
        cell_blocks,
        caption: None,
        caption_parent: CaptionParent::Body,
    };
    proof {
        let m = g.model();
        let x = table_view(t);
        assert(x.structure == Some(
            TableStructureV {
                header_row: seq![],
                col_header: m.heads,
                row_header: m.labels,
                col_continuation: m.cols,
                row_continuation: m.rows,
            },
        ));
        if m.rich {
            assert(x.cell_blocks->0 =~= m.blocks);
        }
    }
    Some(t)
}

} // verus!
