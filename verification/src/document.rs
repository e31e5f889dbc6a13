//! The document model: the flat list of nodes a backend produces, and its
//! mathematical view, in which every text is a sequence of characters.

use crate::text::{copy, string_of, texts};
use vstd::prelude::*;

verus! {

/// Vertical position of a run of text.
#[derive(Clone, Copy, Debug, PartialEq, Eq, Structural)]
pub enum Script {
    Baseline,
    Sub,
    Super,
}

/// The layer a node belongs to when it is not body content.
#[derive(Clone, Copy, Debug, PartialEq, Eq, Structural)]
pub enum ContentLayer {
    Furniture,
    Notes,
}

/// Where a caption hangs in the document tree.
#[derive(Clone, Copy, Debug, PartialEq, Eq, Structural)]
pub enum CaptionParent {
    /// On the body of the document.
    Body,
    /// On the element that it captions.
    Item,
    /// Beside the element, before it.
    Container,
    /// Beside the element, behind it.
    ContainerAfter,
}

/// A box on a page, in the 0..=511 grid of location tokens.
#[derive(Clone, Copy, Debug, PartialEq, Eq, Structural)]
pub struct Location {
    pub left: u16,
    pub top: u16,
    pub right: u16,
    pub bottom: u16,
}

/// One formatted run of a paragraph.
#[derive(Debug, PartialEq, Eq)]
pub struct InlineRun {
    pub text: String,
    pub bold: bool,
    pub italic: bool,
    pub underline: bool,
    pub strike: bool,
    pub script: Script,
    pub code: bool,
    pub formula: bool,
}

/// Span and header overlay of a table; an empty grid stands for "no flags".
#[derive(Debug, PartialEq, Eq)]
pub struct TableStructure {
    pub header_row: Vec<bool>,
    pub col_header: Vec<Vec<bool>>,
    pub row_header: Vec<Vec<bool>>,
    pub col_continuation: Vec<Vec<bool>>,
    pub row_continuation: Vec<Vec<bool>>,
}

/// A table: its text grid, the span overlay, the blocks of its rich cells
/// and its caption.
#[derive(Debug, PartialEq, Eq)]
pub struct Table {
    pub rows: Vec<Vec<String>>,
    pub structure: Option<TableStructure>,
    pub cell_blocks: Option<Vec<Vec<Vec<Node>>>>,
    pub caption: Option<String>,
    pub caption_parent: CaptionParent,
}

/// One field of a key-value region.
#[derive(Debug, PartialEq, Eq)]
pub struct FieldItem {
    pub marker: Option<String>,
    pub key: Option<String>,
    pub value: Option<String>,
}

/// One node of a document.
#[derive(Debug, PartialEq, Eq)]
#[allow(inconsistent_fields)]
pub enum Node {
    Heading { level: u8, text: String },
    Paragraph { text: String },
    /// A paragraph of formatted runs, with its Markdown rendering.
    Inline { text: String, runs: Vec<InlineRun>, unwrapped: bool },
    ListItem {
        ordered: bool,
        number: u64,
        first_in_list: bool,
        text: String,
        level: u8,
        marker: Option<String>,
        href: Option<String>,
        layer: Option<ContentLayer>,
    },
    Table(Table),
    /// `sources` name the image, in the order in which to try them.
    Picture {
        caption: Option<String>,
        caption_href: Option<String>,
        caption_parent: CaptionParent,
        sources: Vec<String>,
    },
    Formula { latex: String, orig: String },
    Code { language: Option<String>, text: String },
    Caption { text: String, href: Option<String> },
    CheckboxItem { checked: bool, text: String },
    FieldRegion { items: Vec<FieldItem> },
    Furniture { layer: ContentLayer, inner: Box<Node> },
    Located { location: Location, inner: Box<Node> },
    TextDump(String),
    Chart { kind: String, table: Table },
    /// A node that comments are on, named by their places among the comments.
    Commented { comments: Vec<usize>, inner: Box<Node> },
    /// A comment, outside the body.
    Comment { text: String },
    PageBreak,
}

/// View of an [`InlineRun`].
#[verifier::ext_equal]
pub struct InlineRunV {
    pub text: Seq<char>,
    pub bold: bool,
    pub italic: bool,
    pub underline: bool,
    pub strike: bool,
    pub script: Script,
    pub code: bool,
    pub formula: bool,
}

/// View of a [`TableStructure`].
#[verifier::ext_equal]
pub struct TableStructureV {
    pub header_row: Seq<bool>,
    pub col_header: Seq<Seq<bool>>,
    pub row_header: Seq<Seq<bool>>,
    pub col_continuation: Seq<Seq<bool>>,
    pub row_continuation: Seq<Seq<bool>>,
}

/// View of a [`Table`].
#[verifier::ext_equal]
pub struct TableV {
    pub rows: Seq<Seq<Seq<char>>>,
    pub structure: Option<TableStructureV>,
    pub cell_blocks: Option<Seq<Seq<Seq<NodeV>>>>,
    pub caption: Option<Seq<char>>,
    pub caption_parent: CaptionParent,
}

/// View of a [`FieldItem`].
#[verifier::ext_equal]
pub struct FieldItemV {
    pub marker: Option<Seq<char>>,
    pub key: Option<Seq<char>>,
    pub value: Option<Seq<char>>,
}

/// View of a [`Node`].
#[verifier::ext_equal]
#[allow(inconsistent_fields)]
pub enum NodeV {
    Heading { level: u8, text: Seq<char> },
    Paragraph { text: Seq<char> },
    Inline { text: Seq<char>, runs: Seq<InlineRunV>, unwrapped: bool },
    ListItem {
        ordered: bool,
        number: u64,
        first_in_list: bool,
        text: Seq<char>,
        level: u8,
        marker: Option<Seq<char>>,
        href: Option<Seq<char>>,
        layer: Option<ContentLayer>,
    },
    Table(TableV),
    Picture {
        caption: Option<Seq<char>>,
        caption_href: Option<Seq<char>>,
        caption_parent: CaptionParent,
        sources: Seq<Seq<char>>,
    },
    Formula { latex: Seq<char>, orig: Seq<char> },
    Code { language: Option<Seq<char>>, text: Seq<char> },
    Caption { text: Seq<char>, href: Option<Seq<char>> },
    CheckboxItem { checked: bool, text: Seq<char> },
    FieldRegion { items: Seq<FieldItemV> },
    Furniture { layer: ContentLayer, inner: Box<NodeV> },
    Located { location: Location, inner: Box<NodeV> },
    TextDump(Seq<char>),
    Chart { kind: Seq<char>, table: TableV },
    Commented { comments: Seq<usize>, inner: Box<NodeV> },
    Comment { text: Seq<char> },
    PageBreak,
}

/// The characters of an optional text.
pub open spec fn opt(o: Option<String>) -> Option<Seq<char>> {
    match o {
        Some(s) => Some(s@),
        None => None,
    }
}

/// The texts of a sequence of strings.
pub open spec fn strs(v: Seq<String>) -> Seq<Seq<char>> {
    Seq::new(v.len(), |i: int| v[i]@)
}

/// The texts of a grid of strings.
pub open spec fn grid(v: Seq<Vec<String>>) -> Seq<Seq<Seq<char>>> {
    Seq::new(v.len(), |i: int| strs(v[i]@))
}

/// A grid of flags.
pub open spec fn flags(v: Seq<Vec<bool>>) -> Seq<Seq<bool>> {
    Seq::new(v.len(), |i: int| v[i]@)
}

impl View for InlineRun {
    type V = InlineRunV;

    open spec fn view(&self) -> InlineRunV {
        InlineRunV {
            text: self.text@,
            bold: self.bold,
            italic: self.italic,
            underline: self.underline,
            strike: self.strike,
            script: self.script,
            code: self.code,
            formula: self.formula,
        }
    }
}

impl View for TableStructure {
    type V = TableStructureV;

    open spec fn view(&self) -> TableStructureV {
        TableStructureV {
            header_row: self.header_row@,
            col_header: flags(self.col_header@),
            row_header: flags(self.row_header@),
            col_continuation: flags(self.col_continuation@),
            row_continuation: flags(self.row_continuation@),
        }
    }
}

impl View for FieldItem {
    type V = FieldItemV;

    open spec fn view(&self) -> FieldItemV {
        FieldItemV { marker: opt(self.marker), key: opt(self.key), value: opt(self.value) }
    }
}

/// The views of a sequence of runs.
pub open spec fn runs_view(v: Seq<InlineRun>) -> Seq<InlineRunV> {
    Seq::new(v.len(), |i: int| v[i]@)
}

/// The views of a sequence of fields.
pub open spec fn fields_view(v: Seq<FieldItem>) -> Seq<FieldItemV> {
    Seq::new(v.len(), |i: int| v[i]@)
}

/// The view of one node.
pub open spec fn node_view(n: Node) -> NodeV
    decreases n,
{
    match n {
        Node::Heading { level, text } => NodeV::Heading { level, text: text@ },
        Node::Paragraph { text } => NodeV::Paragraph { text: text@ },
        Node::Inline { text, runs, unwrapped } => NodeV::Inline {
            text: text@,
            runs: runs_view(runs@),
            unwrapped,
        },
        Node::ListItem { ordered, number, first_in_list, text, level, marker, href, layer } => NodeV::ListItem {
            ordered,
            number,
            first_in_list,
            text: text@,
            level,
            marker: opt(marker),
            href: opt(href),
            layer,
        },
        Node::Table(t) => NodeV::Table(table_view(t)),
        Node::Picture { caption, caption_href, caption_parent, sources } => NodeV::Picture {
            caption: opt(caption),
            caption_href: opt(caption_href),
            caption_parent,
            sources: strs(sources@),
        },
        Node::Formula { latex, orig } => NodeV::Formula { latex: latex@, orig: orig@ },
        Node::Code { language, text } => NodeV::Code { language: opt(language), text: text@ },
        Node::Caption { text, href } => NodeV::Caption { text: text@, href: opt(href) },
        Node::CheckboxItem { checked, text } => NodeV::CheckboxItem { checked, text: text@ },
        Node::FieldRegion { items } => NodeV::FieldRegion { items: fields_view(items@) },
        Node::Furniture { layer, inner } => NodeV::Furniture {
            layer,
            inner: Box::new(node_view(*inner)),
        },
        Node::Located { location, inner } => NodeV::Located {
            location,
            inner: Box::new(node_view(*inner)),
        },
        Node::TextDump(text) => NodeV::TextDump(text@),
        Node::Chart { kind, table } => NodeV::Chart { kind: kind@, table: table_view(table) },
        Node::Commented { comments, inner } => NodeV::Commented {
            comments: comments@,
            inner: Box::new(node_view(*inner)),
        },
        Node::Comment { text } => NodeV::Comment { text: text@ },
        Node::PageBreak => NodeV::PageBreak,
    }
}

/// The view of a table.
pub open spec fn table_view(t: Table) -> TableV
    decreases t,
{
    TableV {
        rows: grid(t.rows@),
        structure: match t.structure {
            Some(s) => Some(s@),
            None => None,
        },
        cell_blocks: match t.cell_blocks {
            Some(b) => Some(
                Seq::new(
                    b@.len(),
                    |i: int|
                        if 0 <= i < b@.len() {
                            cells_view(b@[i]@)
                        } else {
                            seq![]
                        },
                ),
            ),
            None => None,
        },
        caption: opt(t.caption),
        caption_parent: t.caption_parent,
    }
}

/// The views of the block lists of one table row.
pub open spec fn cells_view(s: Seq<Vec<Node>>) -> Seq<Seq<NodeV>>
    decreases s,
{
    Seq::new(
        s.len(),
        |i: int|
            if 0 <= i < s.len() {
                nodes_view(s[i]@)
            } else {
                seq![]
            },
    )
}

/// The views of a sequence of nodes.
pub open spec fn nodes_view(s: Seq<Node>) -> Seq<NodeV>
    decreases s,
{
    Seq::new(
        s.len(),
        |i: int|
            if 0 <= i < s.len() {
                node_view(s[i])
            } else {
                arbitrary()
            },
    )
}

/// Appending a node appends its view.
pub broadcast proof fn nodes_view_push(s: Seq<Node>, n: Node)
    ensures
        #[trigger] nodes_view(s.push(n)) == nodes_view(s).push(node_view(n)),
{
    assert(nodes_view(s.push(n)) =~= nodes_view(s).push(node_view(n)));
}

/// Appending a string appends its text.
pub broadcast proof fn strs_push(s: Seq<String>, x: String)
    ensures
        #[trigger] strs(s.push(x)) == strs(s).push(x@),
{
    assert(strs(s.push(x)) =~= strs(s).push(x@));
}

/// Appending a row appends its texts.
pub broadcast proof fn grid_push(s: Seq<Vec<String>>, x: Vec<String>)
    ensures
        #[trigger] grid(s.push(x)) == grid(s).push(strs(x@)),
{
    assert(grid(s.push(x)) =~= grid(s).push(strs(x@)));
}

/// Appending a run appends its view.
pub broadcast proof fn runs_view_push(s: Seq<InlineRun>, x: InlineRun)
    ensures
        #[trigger] runs_view(s.push(x)) == runs_view(s).push(x@),
{
    assert(runs_view(s.push(x)) =~= runs_view(s).push(x@));
}

/// Appending to a list of nodes, strings, rows or runs appends to its view.
pub broadcast group group_push {
    nodes_view_push,
    strs_push,
    grid_push,
    runs_view_push,
}

/// A table of texts without spans, caption or rich cells.
pub open spec fn plain_table_view(rows: Seq<Seq<Seq<char>>>) -> TableV {
    TableV {
        rows,
        structure: None,
        cell_blocks: None,
        caption: None,
        caption_parent: CaptionParent::Body,
    }
}

/// A table of texts without spans, caption or rich cells.
pub fn plain_table(rows: Vec<Vec<String>>) -> (r: Table)
    ensures
        table_view(r) == plain_table_view(grid(rows@)),
{
    Table {
        rows,
        structure: None,
        cell_blocks: None,
        caption: None,
        caption_parent: CaptionParent::Body,
    }
}

/// Appends a node.
pub fn push_node(nodes: &mut Vec<Node>, n: Node)
    ensures
        nodes_view(final(nodes)@) == nodes_view(old(nodes)@).push(node_view(n)),
{
    proof {
        nodes_view_push(nodes@, n);
    }
    nodes.push(n);
}

/// A heading.
pub fn heading(level: u8, text: &Vec<char>) -> (r: Node)
    ensures
        node_view(r) == (NodeV::Heading { level, text: text@ }),
{
    Node::Heading { level, text: string_of(text) }
}

/// A paragraph.
pub fn paragraph(text: &Vec<char>) -> (r: Node)
    ensures
        node_view(r) == (NodeV::Paragraph { text: text@ }),
{
    Node::Paragraph { text: string_of(text) }
}

/// A bulleted list item.
pub open spec fn bullet_view(text: Seq<char>, level: u8) -> NodeV {
    NodeV::ListItem {
        ordered: false,
        number: 0,
        first_in_list: false,
        text,
        level,
        marker: None,
        href: None,
        layer: None,
    }
}

/// A bulleted list item.
pub fn bullet(text: &Vec<char>, level: u8) -> (r: Node)
    ensures
        node_view(r) == bullet_view(text@, level),
{
    Node::ListItem {
        ordered: false,
        number: 0,
        first_in_list: false,
        text: string_of(text),
        level,
        marker: None,
        href: None,
        layer: None,
    }
}

/// A picture.
pub open spec fn picture_view(caption: Option<Seq<char>>, sources: Seq<Seq<char>>) -> NodeV {
    NodeV::Picture { caption, caption_href: None, caption_parent: CaptionParent::Body, sources }
}

/// Whether `b` is `a` with nothing but list items behind it.
pub open spec fn adds_items(a: Seq<NodeV>, b: Seq<NodeV>) -> bool {
    &&& a.len() <= b.len()
    &&& forall|i: int| 0 <= i < a.len() ==> #[trigger] b[i] == a[i]
    &&& forall|i: int| a.len() <= i < b.len() ==> #[trigger] b[i] is ListItem
}

/// Whether a sequence of grid rows has a size.
pub open spec fn is_grid<T>(g: Seq<Seq<T>>, rows: int, cols: int) -> bool {
    g.len() == rows && forall|i: int| 0 <= i < rows ==> (#[trigger] g[i]).len() == cols
}

/// A grid of one value.
pub open spec fn blank<T>(rows: int, cols: int, v: T) -> Seq<Seq<T>> {
    Seq::new(rows as nat, |i: int| Seq::new(cols as nat, |j: int| v))
}

/// A grid with a rectangle (rows `r0..r1`, columns `c0..c1`) set to a value.
pub open spec fn filled<T>(g: Seq<Seq<T>>, r0: int, r1: int, c0: int, c1: int, v: T) -> Seq<Seq<T>> {
    Seq::new(
        g.len(),
        |i: int|
            Seq::new(
                g[i].len(),
                |j: int|
                    if r0 <= i < r1 && c0 <= j < c1 {
                        v
                    } else {
                        g[i][j]
                    },
            ),
    )
}

/// Whether a grid has so many rows and columns.
pub open spec fn has_shape<T>(g: Seq<Seq<T>>, rows: int, cols: int) -> bool {
    g.len() == rows && forall|i: int| 0 <= i < g.len() ==> (#[trigger] g[i]).len() == cols
}

/// A blank grid has its shape.
pub broadcast proof fn blank_has_shape<T>(rows: int, cols: int, v: T)
    requires
        rows >= 0,
        cols >= 0,
    ensures
        has_shape(#[trigger] blank(rows, cols, v), rows, cols),
{
}

/// Filling a rectangle keeps the shape of a grid.
pub broadcast proof fn filled_keeps_shape<T>(
    g: Seq<Seq<T>>,
    r0: int,
    r1: int,
    c0: int,
    c1: int,
    v: T,
    rows: int,
    cols: int,
)
    requires
        has_shape(g, rows, cols),
    ensures
        #[trigger] has_shape(filled(g, r0, r1, c0, c1, v), rows, cols),
{
}

/// The texts of a grid of character sequences.
pub open spec fn cells(g: Seq<Vec<Vec<char>>>) -> Seq<Seq<Seq<char>>> {
    Seq::new(g.len(), |i: int| texts(g[i]@))
}

/// A grid of flags that are not set.
pub fn blank_flags(rows: usize, cols: usize) -> (r: Vec<Vec<bool>>)
    ensures
        flags(r@) == blank(rows as int, cols as int, false),
        is_grid(flags(r@), rows as int, cols as int),
{
    let mut out: Vec<Vec<bool>> = Vec::new();
    while out.len() < rows
        invariant
            out@.len() <= rows,
            forall|i: int|
                0 <= i < out@.len() ==> (#[trigger] out@[i])@ == Seq::new(
                    cols as nat,
                    |j: int| false,
                ),
        decreases rows - out@.len(),
    {
        let mut row: Vec<bool> = Vec::new();
        while row.len() < cols
            invariant
                row@.len() <= cols,
                forall|j: int| 0 <= j < row@.len() ==> !#[trigger] row@[j],
            decreases cols - row@.len(),
        {
            row.push(false);
        }
        assert(row@ =~= Seq::new(cols as nat, |j: int| false));
        out.push(row);
    }
    assert(flags(out@) =~= blank(rows as int, cols as int, false));
    out
}

/// A grid of empty texts.
pub fn blank_cells(rows: usize, cols: usize) -> (r: Vec<Vec<Vec<char>>>)
    ensures
        cells(r@) == blank(rows as int, cols as int, Seq::<char>::empty()),
        is_grid(cells(r@), rows as int, cols as int),
{
    let mut out: Vec<Vec<Vec<char>>> = Vec::new();
    let ghost empty = Seq::new(cols as nat, |j: int| Seq::<char>::empty());
    while out.len() < rows
        invariant
            out@.len() <= rows,
            empty == Seq::new(cols as nat, |j: int| Seq::<char>::empty()),
            forall|i: int| 0 <= i < out@.len() ==> texts((#[trigger] out@[i])@) == empty,
        decreases rows - out@.len(),
    {
        let mut row: Vec<Vec<char>> = Vec::new();
        while row.len() < cols
            invariant
                row@.len() <= cols,
                forall|j: int| 0 <= j < row@.len() ==> (#[trigger] row@[j])@.len() == 0,
            decreases cols - row@.len(),
        {
            row.push(Vec::new());
        }
        assert(texts(row@) =~= empty) by {
            assert forall|j: int| 0 <= j < cols implies (#[trigger] row@[j])@ =~= seq![] by {}
        }
        out.push(row);
    }
    assert(cells(out@) =~= blank(rows as int, cols as int, Seq::<char>::empty()));
    out
}

/// Sets the flags of a rectangle.
pub fn fill_flags(g: &mut Vec<Vec<bool>>, r0: usize, r1: usize, c0: usize, c1: usize, v: bool)
    ensures
        flags(final(g)@) == filled(
            flags(old(g)@),
            r0 as int,
            r1 as int,
            c0 as int,
            c1 as int,
            v,
        ),
{
    let ghost want = filled(flags(g@), r0 as int, r1 as int, c0 as int, c1 as int, v);
    let ghost was = flags(g@);
    let n: usize = g.len();
    let end: usize = if r1 < n {
        r1
    } else {
        n
    };
    let mut i: usize = if r0 < end {
        r0
    } else {
        end
    };
    assert forall|k: int| 0 <= k < n && !(r0 <= k < r1) implies was[k] == #[trigger] want[k] by {
        assert(was[k] =~= want[k]);
    }
    while i < end
        invariant
            i <= end <= n == g@.len(),
            end <= r1,
            i == end || r0 <= i,
            was.len() == n,
            want == filled(was, r0 as int, r1 as int, c0 as int, c1 as int, v),
            forall|k: int| 0 <= k < i ==> (#[trigger] g@[k])@ == want[k],
            forall|k: int| i <= k < n ==> (#[trigger] g@[k])@ == was[k],
        decreases end - i,
    {
        let ghost before = g@;
        let mut row: Vec<bool> = Vec::new();
        std::mem::swap(&mut row, &mut g[i]);
        let m: usize = row.len();
        let mut j: usize = 0;
        assert(row@ == was[i as int]);
        while j < m
            invariant
                j <= m == row@.len(),
                0 <= i < was.len(),
                m == was[i as int].len(),
                want == filled(was, r0 as int, r1 as int, c0 as int, c1 as int, v),
                r0 <= i < r1,
                forall|k: int| 0 <= k < j ==> #[trigger] row@[k] == want[i as int][k],
                forall|k: int| j <= k < m ==> #[trigger] row@[k] == was[i as int][k],
            decreases m - j,
        {
            if c0 <= j && j < c1 {
                row.set(j, v);
            }
            j += 1;
        }
        assert(row@ =~= want[i as int]);
        g.set(i, row);
        i += 1;
    }
    assert(flags(g@) =~= want);
}

/// Sets the texts of a rectangle.
pub fn fill_cells(
    g: &mut Vec<Vec<Vec<char>>>,
    r0: usize,
    r1: usize,
    c0: usize,
    c1: usize,
    v: &Vec<char>,
)
    ensures
        cells(final(g)@) == filled(
            cells(old(g)@),
            r0 as int,
            r1 as int,
            c0 as int,
            c1 as int,
            v@,
        ),
{
    let ghost was = cells(g@);
    let ghost want = filled(was, r0 as int, r1 as int, c0 as int, c1 as int, v@);
    let n: usize = g.len();
    let end: usize = if r1 < n {
        r1
    } else {
        n
    };
    let mut i: usize = if r0 < end {
        r0
    } else {
        end
    };
    assert forall|k: int| 0 <= k < n && !(r0 <= k < r1) implies was[k] == #[trigger] want[k] by {
        assert(was[k] =~= want[k]);
    }
    while i < end
        invariant
            i <= end <= n == g@.len(),
            end <= r1,
            i == end || r0 <= i,
            was.len() == n,
            want == filled(was, r0 as int, r1 as int, c0 as int, c1 as int, v@),
            forall|k: int| 0 <= k < i ==> texts((#[trigger] g@[k])@) == want[k],
            forall|k: int| i <= k < n ==> texts((#[trigger] g@[k])@) == was[k],
        decreases end - i,
    {
        let mut row: Vec<Vec<char>> = Vec::new();
        std::mem::swap(&mut row, &mut g[i]);
        let m: usize = row.len();
        let mut j: usize = 0;
        assert(texts(row@) == was[i as int]);
        assert(forall|k: int|
            0 <= k < m ==> (#[trigger] row@[k])@ == texts(row@)[k]);
        while j < m
            invariant
                j <= m == row@.len(),
                0 <= i < was.len(),
                m == was[i as int].len(),
                want == filled(was, r0 as int, r1 as int, c0 as int, c1 as int, v@),
                r0 <= i < r1,
                forall|k: int| 0 <= k < j ==> (#[trigger] row@[k])@ == want[i as int][k],
                forall|k: int| j <= k < m ==> (#[trigger] row@[k])@ == was[i as int][k],
            decreases m - j,
        {
            if c0 <= j && j < c1 {
                row.set(j, copy(v));
            }
            j += 1;
        }
        assert(texts(row@) =~= want[i as int]);
        g.set(i, row);
        i += 1;
    }
    assert(cells(g@) =~= want);
}

/// The strings of a list of character sequences.
pub fn strings(v: &Vec<Vec<char>>) -> (r: Vec<String>)
    ensures
        strs(r@) == texts(v@),
{
    let mut out: Vec<String> = Vec::new();
    let mut i: usize = 0;
    assert(strs(out@) =~= texts(v@).take(0));
    while i < v.len()
        invariant
            i <= v@.len(),
            strs(out@) == texts(v@).take(i as int),
        decreases v@.len() - i,
    {
        let s = string_of(&v[i]);
        proof {
            strs_push(out@, s);
            assert(texts(v@).take(i + 1) =~= texts(v@).take(i as int).push(v@[i as int]@));
        }
        out.push(s);
        i += 1;
    }
    assert(texts(v@).take(i as int) =~= texts(v@));
    out
}

/// The strings of a grid of character sequences.
pub fn string_grid(g: &Vec<Vec<Vec<char>>>) -> (r: Vec<Vec<String>>)
    ensures
        grid(r@) == cells(g@),
{
    let mut out: Vec<Vec<String>> = Vec::new();
    let mut i: usize = 0;
    assert(grid(out@) =~= cells(g@).take(0));
    while i < g.len()
        invariant
            i <= g@.len(),
            grid(out@) == cells(g@).take(i as int),
        decreases g@.len() - i,
    {
        let row = strings(&g[i]);
        proof {
            grid_push(out@, row);
            assert(cells(g@).take(i + 1) =~= cells(g@).take(i as int).push(texts(g@[i as int]@)));
        }
        out.push(row);
        i += 1;
    }
    assert(cells(g@).take(i as int) =~= cells(g@));
    out
}

/// Whether some flag of a grid is set.
pub open spec fn any_flag(g: Seq<Seq<bool>>) -> bool {
    exists|i: int, j: int| 0 <= i < g.len() && 0 <= j < g[i].len() && #[trigger] g[i][j]
}

/// Whether some flag of a grid is set.
pub fn has_flag(g: &Vec<Vec<bool>>) -> (r: bool)
    ensures
        r == any_flag(flags(g@)),
{
    let ghost v = flags(g@);
    let mut i: usize = 0;
    while i < g.len()
        invariant
            i <= g@.len(),
            v == flags(g@),
            forall|a: int, b: int| 0 <= a < i && 0 <= b < v[a].len() ==> !#[trigger] v[a][b],
        decreases g@.len() - i,
    {
        let mut j: usize = 0;
        assert(v[i as int] == g@[i as int]@);
        while j < g[i].len()
            invariant
                i < g@.len(),
                v == flags(g@),
                v[i as int] == g@[i as int]@,
                j <= g@[i as int]@.len(),
                forall|b: int| 0 <= b < j ==> !#[trigger] v[i as int][b],
            decreases g@[i as int]@.len() - j,
        {
            if g[i][j] {
                assert(v[i as int][j as int]);
                return true;
            }
            j += 1;
        }
        i += 1;
    }
    false
}

} // verus!
