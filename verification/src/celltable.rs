//! Tables made of texts at places.

use crate::document::{
    any_flag, blank, blank_cells, blank_flags, blank_has_shape, cells, fill_cells, fill_flags,
    filled, filled_keeps_shape, flags, has_flag, has_shape, string_grid, table_view, CaptionParent,
    Table, TableStructure, TableStructureV, TableV,
};
use vstd::prelude::*;

verus! {

/// A text at a place.
pub struct TextCell {
    pub text: Vec<char>,
    pub row: usize,
    pub col: usize,
}

/// View of a [`TextCell`].
#[verifier::ext_equal]
pub struct TextCellV {
    pub text: Seq<char>,
    pub row: int,
    pub col: int,
}

impl View for TextCell {
    type V = TextCellV;

    open spec fn view(&self) -> TextCellV {
        TextCellV { text: self.text@, row: self.row as int, col: self.col as int }
    }
}

/// Views of cells.
pub open spec fn text_cells(v: Seq<TextCell>) -> Seq<TextCellV> {
    Seq::new(v.len(), |i: int| v[i]@)
}

/// Pushing a cell pushes its view.
pub broadcast proof fn text_cells_push(v: Seq<TextCell>, x: TextCell)
    ensures
        #[trigger] text_cells(v.push(x)) == text_cells(v).push(x@),
{
    assert(text_cells(v.push(x)) =~= text_cells(v).push(x@));
}

/// Whether a cell lies in a table.
pub open spec fn lies_in(c: TextCellV, rows: int, cols: int) -> bool {
    c.row < rows && c.col < cols
}

/// The texts with those of the cells from `i` on at their places.
pub open spec fn texts_from(
    v: Seq<TextCellV>,
    i: int,
    rows: int,
    cols: int,
    g: Seq<Seq<Seq<char>>>,
) -> Seq<Seq<Seq<char>>>
    decreases v.len() - i,
{
    if i >= v.len() {
        g
    } else {
        texts_from(
            v,
            i + 1,
            rows,
            cols,
            if lies_in(v[i], rows, cols) {
                filled(g, v[i].row, v[i].row + 1, v[i].col, v[i].col + 1, v[i].text)
            } else {
                g
            },
        )
    }
}

/// The flags with those of the cells from `i` on that stand in a header row.
pub open spec fn headers_from(
    v: Seq<TextCellV>,
    i: int,
    rows: int,
    cols: int,
    header_rows: int,
    g: Seq<Seq<bool>>,
) -> Seq<Seq<bool>>
    decreases v.len() - i,
{
    if i >= v.len() {
        g
    } else {
        headers_from(
            v,
            i + 1,
            rows,
            cols,
            header_rows,
            if lies_in(v[i], rows, cols) && v[i].row < header_rows {
                filled(g, v[i].row, v[i].row + 1, v[i].col, v[i].col + 1, true)
            } else {
                g
            },
        )
    }
}

/// The table of cells. A cell outside is left out, and of two at one place
/// the later one counts.
pub open spec fn cell_table(v: Seq<TextCellV>, rows: int, cols: int, header_rows: int) -> TableV {
    let h = headers_from(v, 0, rows, cols, header_rows, blank(rows, cols, false));
    TableV {
        rows: texts_from(v, 0, rows, cols, blank(rows, cols, Seq::<char>::empty())),
        structure: if any_flag(h) {
            Some(
                TableStructureV {
                    header_row: seq![],
                    col_header: h,
                    row_header: seq![],
                    col_continuation: seq![],
                    row_continuation: seq![],
                },
            )
        } else {
            None
        },
        cell_blocks: None,
        caption: None,
        caption_parent: CaptionParent::Body,
    }
}

proof fn texts_keep_the_shape(
    v: Seq<TextCellV>,
    i: int,
    rows: int,
    cols: int,
    g: Seq<Seq<Seq<char>>>,
)
    requires
        has_shape(g, rows, cols),
    ensures
        has_shape(texts_from(v, i, rows, cols, g), rows, cols),
    decreases v.len() - i,
{
    broadcast use filled_keeps_shape;

    if i < v.len() {
        texts_keep_the_shape(
            v,
            i + 1,
            rows,
            cols,
            if lies_in(v[i], rows, cols) {
                filled(g, v[i].row, v[i].row + 1, v[i].col, v[i].col + 1, v[i].text)
            } else {
                g
            },
        );
    }
}

/// A table of cells has all its rows and columns, whatever the cells are.
pub proof fn tables_of_cells_are_full(v: Seq<TextCellV>, rows: int, cols: int, header_rows: int)
    requires
        rows >= 0,
        cols >= 0,
    ensures
        has_shape(cell_table(v, rows, cols, header_rows).rows, rows, cols),
{
    broadcast use blank_has_shape;

    texts_keep_the_shape(v, 0, rows, cols, blank(rows, cols, Seq::<char>::empty()));
}

/// The table of cells.
pub fn grid_table(v: &Vec<TextCell>, rows: usize, cols: usize, header_rows: usize) -> (r: Table)
    ensures
        table_view(r) == cell_table(
            text_cells(v@),
            rows as int,
            cols as int,
            header_rows as int,
        ),
{
    let ghost w = text_cells(v@);
    let mut g = blank_cells(rows, cols);
    let mut h = blank_flags(rows, cols);
    let ghost g0 = cells(g@);
    let ghost h0 = flags(h@);
    let mut i: usize = 0;
    while i < v.len()
        invariant
            i <= v@.len(),
            w == text_cells(v@),
            texts_from(w, 0, rows as int, cols as int, g0) == texts_from(
                w,
                i as int,
                rows as int,
                cols as int,
                cells(g@),
            ),
            headers_from(w, 0, rows as int, cols as int, header_rows as int, h0) == headers_from(
                w,
                i as int,
                rows as int,
                cols as int,
                header_rows as int,
                flags(h@),
            ),
        decreases v@.len() - i,
    {
        assert(w[i as int] == v@[i as int]@);
        let c = &v[i];
        if c.row < rows && c.col < cols {
            fill_cells(&mut g, c.row, c.row + 1, c.col, c.col + 1, &c.text);
            if c.row < header_rows {
                fill_flags(&mut h, c.row, c.row + 1, c.col, c.col + 1, true);
            }
        }
        i += 1;
    }
    let structure = if has_flag(&h) {
        Some(
            TableStructure {
                header_row: Vec::new(),
                col_header: h,
                row_header: Vec::new(),
                col_continuation: Vec::new(),
                row_continuation: Vec::new(),
            },
        )
    } else {
        None
    };
    let t = Table {
        rows: string_grid(&g),
        structure,
        cell_blocks: None,
        caption: None,
        caption_parent: CaptionParent::Body,
    };
    assert(table_view(t) =~= cell_table(
        text_cells(v@),
        rows as int,
        cols as int,
        header_rows as int,
    ));
    t
}

} // verus!
