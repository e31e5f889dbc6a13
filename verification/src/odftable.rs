//! The grid of an OpenDocument table.

use crate::document::{
    blank, blank_cells, blank_flags, cells, cells_view, fill_cells, fill_flags, filled, flags,
    has_shape, is_grid, nodes_view, string_grid, table_view, CaptionParent, Node, NodeV, Table,
    TableStructure, TableStructureV, TableV,
};
use crate::duplicate::copy_nodes;
use crate::htmltable::{
    blank_blocks, block_cells, nth, rendered_view, set_blocks, tail_of, Rendered, RenderedV,
};
use crate::jats::least;
use crate::text::{chars_of, copy, parse_uint, strip, texts, trim, uint};
use crate::tree::{
    attr, attr_of, either_kids, either_kids_of, has_tag, refs_view, refs_view_push, tree_view,
    trees_view, Element, ElementV, Tree, TreeV,
};
use vstd::prelude::*;

verus! {

/// A repeat or span attribute: a whole number of at least one, else one.
pub open spec fn times(e: ElementV, name: Seq<char>) -> int {
    match attr_of(e, name) {
        Some(v) => match uint(v, usize::MAX as int) {
            Some(n) => if n >= 1 {
                n
            } else {
                1
            },
            None => 1,
        },
        None => 1,
    }
}

/// A repeat or span attribute.
pub fn repeat(e: &Element, name: &str) -> (r: usize)
    ensures
        r == times(e@, name@),
        r >= 1,
{
    match attr(e, name) {
        Some(v) => match parse_uint(&chars_of(v), usize::MAX as u128) {
            Some(n) => if n >= 1 {
                n as usize
            } else {
                1
            },
            None => 1,
        },
        None => 1,
    }
}

/// The rows under the children from `i` on, without those of tables inside,
/// added to `done`.
pub open spec fn rows_from(ch: Seq<TreeV>, i: int, done: Seq<ElementV>) -> Seq<ElementV>
    decreases ch, ch.len() - i,
{
    if i < 0 || i >= ch.len() {
        done
    } else {
        rows_from(
            ch,
            i + 1,
            match ch[i] {
                TreeV::Element(e) => if e.tag == "table"@ {
                    done
                } else {
                    rows_from(
                        e.children,
                        0,
                        if e.tag == "table-row"@ {
                            done.push(e)
                        } else {
                            done
                        },
                    )
                },
                _ => done,
            },
        )
    }
}

fn collect_rows<'a>(ch: &'a Vec<Tree>, out: &mut Vec<&'a Element>)
    ensures
        refs_view(final(out)@) == rows_from(trees_view(ch@), 0, refs_view(old(out)@)),
    decreases ch,
{
    let ghost v = trees_view(ch@);
    let ghost first = refs_view(out@);
    let mut i: usize = 0;
    while i < ch.len()
        invariant
            i <= ch@.len(),
            v == trees_view(ch@),
            rows_from(v, 0, first) == rows_from(v, i as int, refs_view(out@)),
        decreases ch@.len() - i,
    {
        broadcast use refs_view_push;

        assert(v[i as int] == tree_view(ch@[i as int]));
        match &ch[i] {
            Tree::Element(e) => {
                if !has_tag(e, "table") {
                    if has_tag(e, "table-row") {
                        out.push(e);
                    }
                    collect_rows(&e.children, out);
                }
            },
            _ => {},
        }
        i += 1;
    }
}

/// The cells of a row, those covered by a span with them.
pub open spec fn row_of(tr: ElementV) -> Seq<ElementV> {
    either_kids_of(tr, "table-cell"@, "covered-table-cell"@)
}

/// The columns that the cells of a row take.
pub open spec fn row_width(v: Seq<ElementV>) -> int
    decreases v.len(),
{
    if v.len() == 0 {
        0
    } else {
        row_width(v.drop_last()) + times(v.last(), "number-columns-repeated"@)
    }
}

/// The width of the widest of the rows from `i` on, or `most`.
pub open spec fn widest(rows: Seq<ElementV>, i: int, most: int) -> int
    decreases rows.len() - i,
{
    if i >= rows.len() {
        most
    } else {
        let w = row_width(row_of(rows[i]));
        widest(
            rows,
            i + 1,
            if w > most {
                w
            } else {
                most
            },
        )
    }
}

/// The grid while it is filled; `k` cells are placed, and the next one goes
/// to column `c`.
#[verifier::ext_equal]
pub struct GridV {
    pub text: Seq<Seq<Seq<char>>>,
    pub cols: Seq<Seq<bool>>,
    pub rows: Seq<Seq<bool>>,
    pub blocks: Seq<Seq<Seq<NodeV>>>,
    pub rich: bool,
    pub c: int,
    pub k: int,
}

/// The grid with a cell placed at row `r`: its span continues it, and a plain
/// text fills the span.
pub open spec fn put(g: GridV, e: ElementV, x: RenderedV, r: int, height: int, width: int) -> GridV {
    let c = g.c;
    let r1 = least(r + times(e, "number-rows-spanned"@), height);
    let c1 = least(c + times(e, "number-columns-spanned"@), width);
    GridV {
        text: if x.blocks.len() == 0 {
            filled(g.text, r, r1, c, c1, x.text)
        } else {
            filled(g.text, r, r + 1, c, c + 1, x.text)
        },
        cols: filled(g.cols, r, r1, c + 1, c1, true),
        rows: filled(g.rows, r + 1, r1, c, c1, true),
        blocks: filled(g.blocks, r, r + 1, c, c + 1, x.blocks),
        c: c + 1,
        ..g
    }
}

/// The grid with a cell placed `n` times, as far as there are columns.
pub open spec fn put_times(
    g: GridV,
    n: int,
    e: ElementV,
    x: RenderedV,
    r: int,
    height: int,
    width: int,
) -> GridV
    decreases n,
{
    if n <= 0 || g.c >= width {
        g
    } else {
        put_times(put(g, e, x, r, height, width), n - 1, e, x, r, height, width)
    }
}

/// The grid with the cells of row `r` from `j` on placed.
pub open spec fn put_cells(
    v: Seq<ElementV>,
    j: int,
    r: int,
    shown: Seq<RenderedV>,
    height: int,
    width: int,
    g: GridV,
) -> GridV
    decreases v.len() - j,
{
    if j >= v.len() {
        g
    } else {
        let n = times(v[j], "number-columns-repeated"@);
        put_cells(
            v,
            j + 1,
            r,
            shown,
            height,
            width,
            if v[j].tag == "covered-table-cell"@ {
                GridV { c: least(g.c + n, width), ..g }
            } else {
                let x = nth(shown, g.k);
                GridV {
                    rich: g.rich || x.blocks.len() > 0,
                    k: least(g.k + 1, shown.len() as int),
                    ..put_times(g, n, v[j], x, r, height, width)
                }
            },
        )
    }
}

/// The grid with the rows from `r` on placed.
pub open spec fn put_rows(
    rows: Seq<ElementV>,
    r: int,
    shown: Seq<RenderedV>,
    width: int,
    g: GridV,
) -> GridV
    decreases rows.len() - r,
{
    if r >= rows.len() {
        g
    } else {
        put_rows(
            rows,
            r + 1,
            shown,
            width,
            put_cells(
                row_of(rows[r]),
                0,
                r,
                shown,
                rows.len() as int,
                width,
                GridV { c: 0, ..g },
            ),
        )
    }
}

/// A grid without cells.
pub open spec fn empty_grid(height: int, width: int) -> GridV {
    GridV {
        text: blank(height, width, Seq::<char>::empty()),
        cols: blank(height, width, false),
        rows: blank(height, width, false),
        blocks: blank(height, width, Seq::<NodeV>::empty()),
        rich: false,
        c: 0,
        k: 0,
    }
}

// ------------------------------------------------------------ trimming

/// Whether a cell is not blank.
pub open spec fn is_full(t: Seq<char>) -> bool {
    strip(t).len() > 0
}

/// Whether a row has a cell that is not blank, from `j` on.
pub open spec fn row_full(row: Seq<Seq<char>>, j: int) -> bool
    decreases row.len() - j,
{
    j < row.len() && (is_full(row[j]) || row_full(row, j + 1))
}

/// The first row from `i` on that is not blank, or the end.
pub open spec fn first_row(g: Seq<Seq<Seq<char>>>, i: int) -> int
    decreases g.len() - i,
{
    if i >= g.len() || row_full(g[i], 0) {
        i
    } else {
        first_row(g, i + 1)
    }
}

/// The number of rows up to the last of the first `n` that is not blank.
pub open spec fn last_row(g: Seq<Seq<Seq<char>>>, n: int) -> int
    decreases n,
{
    if n <= 0 || row_full(g[n - 1], 0) {
        n
    } else {
        last_row(g, n - 1)
    }
}

/// Whether column `c` has a cell that is not blank in a row from `i` on, up
/// to `end`.
pub open spec fn col_full(g: Seq<Seq<Seq<char>>>, i: int, end: int, c: int) -> bool
    decreases end - i,
{
    i < end && (is_full(g[i][c]) || col_full(g, i + 1, end, c))
}

/// The first column from `c` on that is not blank, or the width.
pub open spec fn first_col(g: Seq<Seq<Seq<char>>>, r0: int, r1: int, c: int, width: int) -> int
    decreases width - c,
{
    if c >= width || col_full(g, r0, r1, c) {
        c
    } else {
        first_col(g, r0, r1, c + 1, width)
    }
}

/// The number of columns up to the last of the first `n` that is not blank.
pub open spec fn last_col(g: Seq<Seq<Seq<char>>>, r0: int, r1: int, n: int) -> int
    decreases n,
{
    if n <= 0 || col_full(g, r0, r1, n - 1) {
        n
    } else {
        last_col(g, r0, r1, n - 1)
    }
}

/// The smallest rectangle (rows `r0..r1`, columns `c0..c1`) that holds every
/// cell that is not blank.
pub struct Bounds {
    pub r0: usize,
    pub r1: usize,
    pub c0: usize,
    pub c1: usize,
}

/// A rectangle of a grid.
pub open spec fn cut<T>(g: Seq<Seq<T>>, r0: int, r1: int, c0: int, c1: int) -> Seq<Seq<T>> {
    Seq::new((r1 - r0) as nat, |i: int| g[r0 + i].subrange(c0, c1))
}

/// The first row is the head of the table.
pub open spec fn head_rows(n: int) -> Seq<bool> {
    Seq::new(n as nat, |i: int| i == 0)
}

/// The table of a filled grid, cut to its bounds.
pub open spec fn trimmed(g: GridV, b: Bounds) -> TableV {
    TableV {
        rows: cut(g.text, b.r0 as int, b.r1 as int, b.c0 as int, b.c1 as int),
        structure: Some(
            TableStructureV {
                header_row: head_rows(b.r1 - b.r0),
                col_header: seq![],
                row_header: seq![],
                col_continuation: cut(
                    g.cols,
                    b.r0 as int,
                    b.r1 as int,
                    b.c0 as int,
                    b.c1 as int,
                ),
                row_continuation: cut(
                    g.rows,
                    b.r0 as int,
                    b.r1 as int,
                    b.c0 as int,
                    b.c1 as int,
                ),
            },
        ),
        cell_blocks: if g.rich {
            Some(cut(g.blocks, b.r0 as int, b.r1 as int, b.c0 as int, b.c1 as int))
        } else {
            None
        },
        caption: None,
        caption_parent: CaptionParent::Body,
    }
}

/// The bounds of a grid; none where every cell is blank.
pub open spec fn bounds_of(g: Seq<Seq<Seq<char>>>, width: int) -> Option<Bounds> {
    let r0 = first_row(g, 0);
    let r1 = last_row(g, g.len() as int);
    let c0 = first_col(g, r0, r1, 0, width);
    let c1 = last_col(g, r0, r1, width);
    if r0 >= g.len() || c0 >= width {
        None
    } else {
        Some(Bounds { r0: r0 as usize, r1: r1 as usize, c0: c0 as usize, c1: c1 as usize })
    }
}

/// What is shown of a grid: its bounds, or one blank cell.
pub open spec fn shown_bounds(g: Seq<Seq<Seq<char>>>, width: int) -> Bounds {
    match bounds_of(g, width) {
        Some(b) => b,
        None => Bounds { r0: 0, r1: 1, c0: 0, c1: 1 },
    }
}

proof fn full_cells_show_in_rows(row: Seq<Seq<char>>, j: int, k: int)
    requires
        j <= k < row.len(),
        is_full(row[k]),
    ensures
        row_full(row, j),
    decreases k - j,
{
    if j < k {
        full_cells_show_in_rows(row, j + 1, k);
    }
}

proof fn full_cells_show_in_cols(g: Seq<Seq<Seq<char>>>, i: int, end: int, c: int, k: int)
    requires
        i <= k < end,
        is_full(g[k][c]),
    ensures
        col_full(g, i, end, c),
    decreases k - i,
{
    if i < k {
        full_cells_show_in_cols(g, i + 1, end, c, k);
    }
}

proof fn full_rows_are_inside(g: Seq<Seq<Seq<char>>>, i: int, n: int, k: int)
    requires
        0 <= i <= k < n <= g.len(),
        row_full(g[k], 0),
    ensures
        i <= first_row(g, i) <= k < last_row(g, n) <= n,
    decreases k - i + n,
{
    if i < k && !row_full(g[i], 0) {
        full_rows_are_inside(g, i + 1, n, k);
    }
    if k < n - 1 && !row_full(g[n - 1], 0) {
        full_rows_are_inside(g, i, n - 1, k);
    }
}

proof fn full_cols_are_inside(g: Seq<Seq<Seq<char>>>, r0: int, r1: int, c: int, n: int, k: int)
    requires
        0 <= c <= k < n,
        col_full(g, r0, r1, k),
    ensures
        c <= first_col(g, r0, r1, c, n) <= k < last_col(g, r0, r1, n) <= n,
    decreases k - c + n,
{
    if c < k && !col_full(g, r0, r1, c) {
        full_cols_are_inside(g, r0, r1, c + 1, n, k);
    }
    if k < n - 1 && !col_full(g, r0, r1, n - 1) {
        full_cols_are_inside(g, r0, r1, c, n - 1, k);
    }
}

/// Every cell that is not blank lies within the bounds of its grid.
pub proof fn bounds_lose_no_text(g: Seq<Seq<Seq<char>>>, width: int, i: int, j: int)
    requires
        has_shape(g, g.len() as int, width),
        0 <= i < g.len() <= usize::MAX,
        0 <= j < width <= usize::MAX,
        is_full(g[i][j]),
    ensures
        bounds_of(g, width) matches Some(b) && b.r0 <= i < b.r1 && b.c0 <= j < b.c1,
{
    full_cells_show_in_rows(g[i], 0, j);
    full_rows_are_inside(g, 0, g.len() as int, i);
    let r0 = first_row(g, 0);
    let r1 = last_row(g, g.len() as int);
    full_cells_show_in_cols(g, r0, r1, j, i);
    full_cols_are_inside(g, r0, r1, 0, width, j);
}

/// The table whose cells show `shown`, in document order. None without cells,
/// or where the columns cannot be counted.
pub open spec fn laid_out(table: ElementV, shown: Seq<RenderedV>) -> Option<TableV> {
    let rows = rows_from(table.children, 0, seq![]);
    let width = widest(rows, 0, 0);
    if rows.len() == 0 || width == 0 || width > usize::MAX {
        None
    } else {
        let g = put_rows(rows, 0, shown, width, empty_grid(rows.len() as int, width));
        Some(trimmed(g, shown_bounds(g.text, width)))
    }
}

// ------------------------------------------------------------ laying out

proof fn row_width_bounds(v: Seq<ElementV>)
    ensures
        0 <= row_width(v) <= v.len() * usize::MAX,
    decreases v.len(),
{
    if v.len() > 0 {
        row_width_bounds(v.drop_last());
        let n = v.len() as int;
        assert(n * usize::MAX == (n - 1) * usize::MAX + usize::MAX) by (nonlinear_arith);
    }
}

fn width_of(v: &Vec<&Element>) -> (r: u128)
    ensures
        r == row_width(refs_view(v@)),
{
    let ghost w = refs_view(v@);
    let mut sum: u128 = 0;
    let mut i: usize = 0;
    assert(w.take(0) =~= seq![]);
    while i < v.len()
        invariant
            i <= v@.len(),
            w == refs_view(v@),
            sum == row_width(w.take(i as int)),
        decreases v@.len() - i,
    {
        proof {
            assert(w[i as int] == v@[i as int]@);
            assert(w.take(i + 1).drop_last() =~= w.take(i as int));
            row_width_bounds(w.take(i + 1));
            assert((i + 1) * usize::MAX <= 0xffff_ffff_ffff_ffff * 0xffff_ffff_ffff_ffff)
                by (nonlinear_arith)
                requires
                    i + 1 <= 0xffff_ffff_ffff_ffff,
                    usize::MAX <= 0xffff_ffff_ffff_ffff,
            ;
        }
        sum = sum + repeat(v[i], "number-columns-repeated") as u128;
        i += 1;
    }
    assert(w.take(i as int) =~= w);
    sum
}

struct Grid {
    text: Vec<Vec<Vec<char>>>,
    cols: Vec<Vec<bool>>,
    rows: Vec<Vec<bool>>,
    blocks: Vec<Vec<Vec<Node>>>,
    rich: bool,
    c: usize,
    k: usize,
}

impl Grid {
    spec fn model(self) -> GridV {
        GridV {
            text: cells(self.text@),
            cols: flags(self.cols@),
            rows: flags(self.rows@),
            blocks: block_cells(self.blocks@),
            rich: self.rich,
            c: self.c as int,
            k: self.k as int,
        }
    }

    spec fn fits(self, height: int, width: int) -> bool {
        is_grid(block_cells(self.blocks@), height, width) && is_grid(
            cells(self.text@),
            height,
            width,
        ) && is_grid(flags(self.cols@), height, width) && is_grid(flags(self.rows@), height, width)
    }

    fn put_cell(&mut self, e: &Element, x: &Rendered, r: usize, height: usize, width: usize)
        requires
            old(self).fits(height as int, width as int),
            r < height,
            old(self).c < width,
        ensures
            final(self).model() == put(
                old(self).model(),
                e@,
                x@,
                r as int,
                height as int,
                width as int,
            ),
            final(self).fits(height as int, width as int),
            final(self).c == old(self).c + 1,
            final(self).k == old(self).k,
            final(self).rich == old(self).rich,
    {
        let ghost was = self.model();
        let c: usize = self.c;
        let rs: usize = repeat(e, "number-rows-spanned");
        let cs: usize = repeat(e, "number-columns-spanned");
        let r1: usize = if height - r < rs {
            height
        } else {
            r + rs
        };
        let c1: usize = if width - c < cs {
            width
        } else {
            c + cs
        };
        assert(x@.blocks.len() == x.blocks@.len());
        if x.blocks.len() == 0 {
            fill_cells(&mut self.text, r, r1, c, c1, &x.text);
        } else {
            fill_cells(&mut self.text, r, r + 1, c, c + 1, &x.text);
        }
        fill_flags(&mut self.cols, r, r1, c + 1, c1, true);
        fill_flags(&mut self.rows, r + 1, r1, c, c1, true);
        set_blocks(&mut self.blocks, r, c, height, width, copy_nodes(&x.blocks));
        self.c = c + 1;
        assert(self.model() =~= put(was, e@, x@, r as int, height as int, width as int));
        proof {
            assert forall|i: int| 0 <= i < height implies (#[trigger] cells(self.text@)[i]).len()
                == width by {
                assert(was.text[i].len() == width);
            }
            assert forall|i: int| 0 <= i < height implies (#[trigger] flags(self.cols@)[i]).len()
                == width by {
                assert(was.cols[i].len() == width);
            }
            assert forall|i: int| 0 <= i < height implies (#[trigger] flags(self.rows@)[i]).len()
                == width by {
                assert(was.rows[i].len() == width);
            }
        }
    }
}

fn put_row(
    v: &Vec<&Element>,
    r: usize,
    shown: &mut Vec<Rendered>,
    height: usize,
    width: usize,
    g: &mut Grid,
)
    requires
        old(g).fits(height as int, width as int),
        old(g).k <= old(shown)@.len(),
        old(g).c == 0,
        r < height,
    ensures
        final(g).fits(height as int, width as int),
        final(g).k <= final(shown)@.len(),
        forall|all: Seq<RenderedV>|
            #![trigger tail_of(all, old(shown)@, old(g).k as int)]
            tail_of(all, old(shown)@, old(g).k as int) ==> {
                &&& final(g).model() == put_cells(
                    refs_view(v@),
                    0,
                    r as int,
                    all,
                    height as int,
                    width as int,
                    old(g).model(),
                )
                &&& tail_of(all, final(shown)@, final(g).k as int)
            },
{
    let ghost w = refs_view(v@);
    let ghost g0 = g.model();
    let ghost shown0 = shown@;
    let ghost k0 = g.k as int;
    let mut j: usize = 0;
    while j < v.len()
        invariant
            j <= v@.len(),
            w == refs_view(v@),
            r < height,
            g.c <= width,
            g.fits(height as int, width as int),
            g.k <= shown@.len(),
            forall|all: Seq<RenderedV>|
                #![trigger tail_of(all, shown0, k0)]
                tail_of(all, shown0, k0) ==> {
                    &&& put_cells(w, 0, r as int, all, height as int, width as int, g0)
                        == put_cells(
                        w,
                        j as int,
                        r as int,
                        all,
                        height as int,
                        width as int,
                        g.model(),
                    )
                    &&& tail_of(all, shown@, g.k as int)
                },
        decreases v@.len() - j,
    {
        assert(w[j as int] == v@[j as int]@);
        let n: usize = repeat(v[j], "number-columns-repeated");
        if has_tag(v[j], "covered-table-cell") {
            let c: usize = g.c;
            g.c = if width - c < n {
                width
            } else {
                c + n
            };
        } else {
            let mut x = Rendered { text: Vec::new(), rich: false, blocks: Vec::new() };
            assert(x@ =~= (RenderedV { text: seq![], rich: false, blocks: seq![] }));
            let ghost before = shown@;
            let k: usize = g.k;
            if k < shown.len() {
                std::mem::swap(&mut x, &mut shown[k]);
            }
            let rest: usize = if k < shown.len() {
                k + 1
            } else {
                shown.len()
            };
            proof {
                assert forall|all: Seq<RenderedV>| #[trigger] tail_of(all, before, k as int) implies
                    nth(all, k as int) == x@ && tail_of(all, shown@, rest as int) by {
                    if k < all.len() {
                        assert(before[k as int]@ == all[k as int]);
                    }
                    assert forall|m: int| rest <= m < all.len() implies (#[trigger] shown@[m])@
                        == all[m] by {
                        assert(before[m]@ == all[m]);
                    }
                }
            }
            let ghost g1 = g.model();
            let ghost e = v@[j as int]@;
            let mut m: usize = n;
            while m > 0 && g.c < width
                invariant
                    j < v@.len(),
                    e == v@[j as int]@,
                    r < height,
                    g.c <= width,
                    g.fits(height as int, width as int),
                    g.k == k,
                    put_times(
                        g1,
                        n as int,
                        e,
                        x@,
                        r as int,
                        height as int,
                        width as int,
                    ) == put_times(
                        g.model(),
                        m as int,
                        e,
                        x@,
                        r as int,
                        height as int,
                        width as int,
                    ),
                decreases m,
            {
                g.put_cell(v[j], &x, r, height, width);
                m -= 1;
            }
            assert(x@.blocks.len() == x.blocks@.len());
            let ghost g2 = g.model();
            assert(g2 == put_times(
                g1,
                n as int,
                e,
                x@,
                r as int,
                height as int,
                width as int,
            ));
            assert(g2.rich == g1.rich) by {
                put_times_keeps(g1, n as int, e, x@, r as int, height as int, width as int);
            }
            if x.blocks.len() > 0 {
                g.rich = true;
            }
            g.k = rest;
        }
        j += 1;
    }
}

/// Placing cells changes neither the count nor whether a cell was rich.
proof fn put_times_keeps(
    g: GridV,
    n: int,
    e: ElementV,
    x: RenderedV,
    r: int,
    height: int,
    width: int,
)
    ensures
        put_times(g, n, e, x, r, height, width).rich == g.rich,
        put_times(g, n, e, x, r, height, width).k == g.k,
    decreases n,
{
    if n > 0 && g.c < width {
        put_times_keeps(put(g, e, x, r, height, width), n - 1, e, x, r, height, width);
    }
}

fn full(t: &Vec<char>) -> (r: bool)
    ensures
        r == is_full(t@),
{
    trim(t).len() > 0
}

fn is_row_full(row: &Vec<Vec<char>>) -> (r: bool)
    ensures
        r == row_full(texts(row@), 0),
{
    let ghost w = texts(row@);
    let mut j: usize = 0;
    while j < row.len()
        invariant
            j <= row@.len(),
            w == texts(row@),
            row_full(w, 0) == row_full(w, j as int),
        decreases row@.len() - j,
    {
        assert(w[j as int] == row@[j as int]@);
        if full(&row[j]) {
            return true;
        }
        j += 1;
    }
    false
}

fn is_col_full(g: &Vec<Vec<Vec<char>>>, r0: usize, r1: usize, c: usize, width: usize) -> (r: bool)
    requires
        is_grid(cells(g@), g@.len() as int, width as int),
        r1 <= g@.len(),
        c < width,
    ensures
        r == col_full(cells(g@), r0 as int, r1 as int, c as int),
{
    let ghost w = cells(g@);
    let mut i: usize = r0;
    while i < r1
        invariant
            r0 <= i,
            r1 <= g@.len(),
            c < width,
            w == cells(g@),
            is_grid(w, g@.len() as int, width as int),
            col_full(w, r0 as int, r1 as int, c as int) == col_full(
                w,
                i as int,
                r1 as int,
                c as int,
            ),
        decreases r1 - i,
    {
        assert(w[i as int] == texts(g@[i as int]@));
        assert(w[i as int].len() == width);
        assert(w[i as int][c as int] == g@[i as int]@[c as int]@);
        if full(&g[i][c]) {
            return true;
        }
        i += 1;
    }
    false
}

/// The smallest rectangle of a grid that holds every cell that is not blank;
/// none where every cell is blank.
pub fn data_bounds(g: &Vec<Vec<Vec<char>>>, width: usize) -> (r: Option<Bounds>)
    requires
        is_grid(cells(g@), g@.len() as int, width as int),
    ensures
        r == bounds_of(cells(g@), width as int),
        r matches Some(b) ==> b.r0 < b.r1 <= g@.len() && b.c0 < b.c1 <= width,
{
    let ghost w = cells(g@);
    let n: usize = g.len();
    let mut r0: usize = 0;
    while r0 < n && !is_row_full(&g[r0])
        invariant
            r0 <= n == g@.len(),
            w == cells(g@),
            first_row(w, 0) == first_row(w, r0 as int),
        decreases n - r0,
    {
        assert(w[r0 as int] == texts(g@[r0 as int]@));
        r0 += 1;
    }
    if r0 >= n {
        return None;
    }
    assert(w[r0 as int] == texts(g@[r0 as int]@));
    let mut r1: usize = n;
    while r1 > 0 && !is_row_full(&g[r1 - 1])
        invariant
            r0 < r1 <= n == g@.len(),
            w == cells(g@),
            row_full(w[r0 as int], 0),
            last_row(w, n as int) == last_row(w, r1 as int),
        decreases r1,
    {
        assert(w[r1 - 1] == texts(g@[r1 - 1]@));
        r1 -= 1;
    }
    assert(w[r1 - 1] == texts(g@[r1 - 1]@));
    let mut c0: usize = 0;
    while c0 < width && !is_col_full(g, r0, r1, c0, width)
        invariant
            c0 <= width,
            r1 <= n == g@.len(),
            w == cells(g@),
            is_grid(w, n as int, width as int),
            first_col(w, r0 as int, r1 as int, 0, width as int) == first_col(
                w,
                r0 as int,
                r1 as int,
                c0 as int,
                width as int,
            ),
        decreases width - c0,
    {
        c0 += 1;
    }
    if c0 >= width {
        return None;
    }
    let mut c1: usize = width;
    while c1 > 0 && !is_col_full(g, r0, r1, c1 - 1, width)
        invariant
            c0 < c1 <= width,
            r1 <= n == g@.len(),
            w == cells(g@),
            is_grid(w, n as int, width as int),
            col_full(w, r0 as int, r1 as int, c0 as int),
            last_col(w, r0 as int, r1 as int, width as int) == last_col(
                w,
                r0 as int,
                r1 as int,
                c1 as int,
            ),
        decreases c1,
    {
        c1 -= 1;
    }
    Some(Bounds { r0, r1, c0, c1 })
}

fn cut_cells(g: &Vec<Vec<Vec<char>>>, b: &Bounds, width: usize) -> (r: Vec<Vec<Vec<char>>>)
    requires
        is_grid(cells(g@), g@.len() as int, width as int),
        b.r0 < b.r1 <= g@.len(),
        b.c0 < b.c1 <= width,
    ensures
        cells(r@) == cut(
            cells(g@),
            b.r0 as int,
            b.r1 as int,
            b.c0 as int,
            b.c1 as int,
        ),
{
    let ghost w = cells(g@);
    let ghost want = cut(w, b.r0 as int, b.r1 as int, b.c0 as int, b.c1 as int);
    let mut out: Vec<Vec<Vec<char>>> = Vec::new();
    let mut i: usize = b.r0;
    while i < b.r1
        invariant
            b.r0 <= i <= b.r1 <= g@.len(),
            b.c0 < b.c1 <= width,
            w == cells(g@),
            is_grid(w, g@.len() as int, width as int),
            want == cut(w, b.r0 as int, b.r1 as int, b.c0 as int, b.c1 as int),
            out@.len() == i - b.r0,
            forall|k: int| 0 <= k < out@.len() ==> texts((#[trigger] out@[k])@) == want[k],
        decreases b.r1 - i,
    {
        assert(w[i as int] == texts(g@[i as int]@));
        assert(w[i as int].len() == width);
        let mut row: Vec<Vec<char>> = Vec::new();
        let mut j: usize = b.c0;
        while j < b.c1
            invariant
                b.c0 <= j <= b.c1 <= width,
                i < g@.len(),
                w[i as int] == texts(g@[i as int]@),
                w[i as int].len() == width,
                row@.len() == j - b.c0,
                forall|k: int|
                    0 <= k < row@.len() ==> (#[trigger] row@[k])@ == w[i as int][b.c0 + k],
            decreases b.c1 - j,
        {
            assert(w[i as int][j as int] == g@[i as int]@[j as int]@);
            row.push(copy(&g[i][j]));
            j += 1;
        }
        assert(texts(row@) =~= want[i - b.r0]);
        out.push(row);
        i += 1;
    }
    assert(cells(out@) =~= want);
    out
}

fn cut_flags(g: &Vec<Vec<bool>>, b: &Bounds, width: usize) -> (r: Vec<Vec<bool>>)
    requires
        is_grid(flags(g@), g@.len() as int, width as int),
        b.r0 < b.r1 <= g@.len(),
        b.c0 < b.c1 <= width,
    ensures
        flags(r@) == cut(
            flags(g@),
            b.r0 as int,
            b.r1 as int,
            b.c0 as int,
            b.c1 as int,
        ),
{
    let ghost w = flags(g@);
    let ghost want = cut(w, b.r0 as int, b.r1 as int, b.c0 as int, b.c1 as int);
    let mut out: Vec<Vec<bool>> = Vec::new();
    let mut i: usize = b.r0;
    while i < b.r1
        invariant
            b.r0 <= i <= b.r1 <= g@.len(),
            b.c0 < b.c1 <= width,
            w == flags(g@),
            is_grid(w, g@.len() as int, width as int),
            want == cut(w, b.r0 as int, b.r1 as int, b.c0 as int, b.c1 as int),
            out@.len() == i - b.r0,
            forall|k: int| 0 <= k < out@.len() ==> (#[trigger] out@[k])@ == want[k],
        decreases b.r1 - i,
    {
        assert(w[i as int] == g@[i as int]@);
        assert(w[i as int].len() == width);
        let mut row: Vec<bool> = Vec::new();
        let mut j: usize = b.c0;
        while j < b.c1
            invariant
                b.c0 <= j <= b.c1 <= width,
                i < g@.len(),
                w[i as int] == g@[i as int]@,
                w[i as int].len() == width,
                row@.len() == j - b.c0,
                forall|k: int| 0 <= k < row@.len() ==> #[trigger] row@[k] == w[i as int][b.c0 + k],
            decreases b.c1 - j,
        {
            row.push(g[i][j]);
            j += 1;
        }
        assert(row@ =~= want[i - b.r0]);
        out.push(row);
        i += 1;
    }
    assert(flags(out@) =~= want);
    out
}

fn cut_blocks(g: &Vec<Vec<Vec<Node>>>, b: &Bounds, width: usize) -> (r: Vec<Vec<Vec<Node>>>)
    requires
        is_grid(block_cells(g@), g@.len() as int, width as int),
        b.r0 < b.r1 <= g@.len(),
        b.c0 < b.c1 <= width,
    ensures
        block_cells(r@) == cut(
            block_cells(g@),
            b.r0 as int,
            b.r1 as int,
            b.c0 as int,
            b.c1 as int,
        ),
{
    let ghost w = block_cells(g@);
    let ghost want = cut(w, b.r0 as int, b.r1 as int, b.c0 as int, b.c1 as int);
    let mut out: Vec<Vec<Vec<Node>>> = Vec::new();
    let mut i: usize = b.r0;
    while i < b.r1
        invariant
            b.r0 <= i <= b.r1 <= g@.len(),
            b.c0 < b.c1 <= width,
            w == block_cells(g@),
            is_grid(w, g@.len() as int, width as int),
            want == cut(w, b.r0 as int, b.r1 as int, b.c0 as int, b.c1 as int),
            out@.len() == i - b.r0,
            forall|k: int| 0 <= k < out@.len() ==> cells_view((#[trigger] out@[k])@) == want[k],
        decreases b.r1 - i,
    {
        assert(w[i as int] == cells_view(g@[i as int]@));
        assert(w[i as int].len() == width);
        let mut row: Vec<Vec<Node>> = Vec::new();
        let mut j: usize = b.c0;
        while j < b.c1
            invariant
                b.c0 <= j <= b.c1 <= width,
                i < g@.len(),
                w[i as int] == cells_view(g@[i as int]@),
                w[i as int].len() == width,
                row@.len() == j - b.c0,
                forall|k: int|
                    0 <= k < row@.len() ==> nodes_view((#[trigger] row@[k])@) == w[i as int][b.c0
                        + k],
            decreases b.c1 - j,
        {
            assert(w[i as int][j as int] == nodes_view(g@[i as int]@[j as int]@));
            row.push(copy_nodes(&g[i][j]));
            j += 1;
        }
        assert(cells_view(row@) =~= want[i - b.r0]);
        out.push(row);
        i += 1;
    }
    assert(block_cells(out@) =~= want);
    out
}

fn header_flags(n: usize) -> (r: Vec<bool>)
    ensures
        r@ == head_rows(n as int),
{
    let mut out: Vec<bool> = Vec::new();
    while out.len() < n
        invariant
            out@.len() <= n,
            forall|k: int| 0 <= k < out@.len() ==> #[trigger] out@[k] == (k == 0),
        decreases n - out@.len(),
    {
        let first = out.len() == 0;
        out.push(first);
    }
    assert(out@ =~= head_rows(n as int));
    out
}

/// The table whose cells show `shown`, in document order.
pub fn lay_out(table: &Element, shown: Vec<Rendered>) -> (r: Option<Table>)
    ensures
        match laid_out(table@, rendered_view(shown@)) {
            Some(t) => r matches Some(x) && table_view(x) == t,
            None => r is None,
        },
{
    let mut shown = shown;
    let ghost all = rendered_view(shown@);
    let mut rows: Vec<&Element> = Vec::new();
    assert(refs_view(rows@) =~= seq![]);
    collect_rows(&table.children, &mut rows);
    let ghost v = refs_view(rows@);
    let n: usize = rows.len();
    let mut most: u128 = 0;
    let mut i: usize = 0;
    while i < n
        invariant
            i <= n == rows@.len(),
            v == refs_view(rows@),
            widest(v, 0, 0) == widest(v, i as int, most as int),
        decreases n - i,
    {
        assert(v[i as int] == rows@[i as int]@);
        let w = width_of(&either_kids(rows[i], "table-cell", "covered-table-cell"));
        if w > most {
            most = w;
        }
        i += 1;
    }
    if n == 0 || most == 0 || most > usize::MAX as u128 {
        return None;
    }
    let width: usize = most as usize;
    let mut g = Grid {
        text: blank_cells(n, width),
        cols: blank_flags(n, width),
        rows: blank_flags(n, width),
        blocks: blank_blocks(n, width),
        rich: false,
        c: 0,
        k: 0,
    };
    assert(g.model() =~= empty_grid(n as int, width as int));
    assert(tail_of(all, shown@, 0));
    assert(is_grid(block_cells(g.blocks@), n as int, width as int));
    let ghost want = put_rows(v, 0, all, width as int, empty_grid(n as int, width as int));
    let mut r: usize = 0;
    while r < n
        invariant
            r <= n == rows@.len(),
            v == refs_view(rows@),
            g.fits(n as int, width as int),
            g.k <= shown@.len(),
            tail_of(all, shown@, g.k as int),
            want == put_rows(v, r as int, all, width as int, g.model()),
        decreases n - r,
    {
        assert(v[r as int] == rows@[r as int]@);
        let row = either_kids(rows[r], "table-cell", "covered-table-cell");
        g.c = 0;
        let ghost before = shown@;
        let ghost k0 = g.k as int;
        assert(tail_of(all, before, k0));
        put_row(&row, r, &mut shown, n, width, &mut g);
        assert(tail_of(all, before, k0));
        r += 1;
    }
    let b = match data_bounds(&g.text, width) {
        Some(b) => b,
        None => Bounds { r0: 0, r1: 1, c0: 0, c1: 1 },
    };
    let cell_blocks = if g.rich {
        Some(cut_blocks(&g.blocks, &b, width))
    } else {
        None
    };
    let t = Table {
        rows: string_grid(&cut_cells(&g.text, &b, width)),
        structure: Some(
            TableStructure {
                header_row: header_flags(b.r1 - b.r0),
                col_header: Vec::new(),
                row_header: Vec::new(),
                col_continuation: cut_flags(&g.cols, &b, width),
                row_continuation: cut_flags(&g.rows, &b, width),
            },
        ),
        cell_blocks,
        caption: None,
        caption_parent: CaptionParent::Body,
    };
    proof {
        let m = g.model();
        let x = table_view(t);
        let y = trimmed(m, b);
        assert(x.structure->0.col_header =~= seq![]);
        assert(x.structure->0.row_header =~= seq![]);
        assert(x.structure == y.structure);
        if m.rich {
            assert(x.cell_blocks->0 =~= y.cell_blocks->0);
        }
        assert(x == y);
    }
    Some(t)
}

} // verus!
