//! A sparse spreadsheet and its data regions.
//!
//! A sheet becomes one table per connected block of content cells: the
//! flood fill joins immediate neighbours (up, down, left, right) and each
//! block is emitted as its bounding rectangle, in row-major order of the
//! blocks' first cells.

use std::collections::HashMap;
use vstd::prelude::*;

verus! {

/// A number as the file stores it. `Double` holds the bits of an IEEE
/// double, `Packed` a four-byte packed float.
#[derive(Clone, Copy, Debug, PartialEq, Eq, Structural)]
pub enum Num {
    Int(i64),
    Double(u64),
    Packed(u32),
}

/// One cell. `Numeral` is a decimal number as written; `Series` is the value
/// `first + times * step`.
#[derive(Debug, PartialEq, Eq)]
pub enum Cell {
    Text(String),
    Numeral(String),
    Number(Num),
    Series { first: Num, step: Num, times: u64 },
}

/// View of a [`Cell`].
#[verifier::ext_equal]
pub enum CellV {
    Text(Seq<char>),
    Numeral(Seq<char>),
    Number(Num),
    Series { first: Num, step: Num, times: u64 },
}

impl View for Cell {
    type V = CellV;

    open spec fn view(&self) -> CellV {
        match *self {
            Cell::Text(s) => CellV::Text(s@),
            Cell::Numeral(s) => CellV::Numeral(s@),
            Cell::Number(n) => CellV::Number(n),
            Cell::Series { first, step, times } => CellV::Series { first, step, times },
        }
    }
}

impl Cell {
    /// A copy of the cell.
    pub fn copy(&self) -> (r: Cell)
        ensures
            r@ == self@,
    {
        match self {
            Cell::Text(s) => Cell::Text(s.clone()),
            Cell::Numeral(s) => Cell::Numeral(s.clone()),
            Cell::Number(n) => Cell::Number(*n),
            Cell::Series { first, step, times } => Cell::Series {
                first: *first,
                step: *step,
                times: *times,
            },
        }
    }
}

/// A content cell and where it stands.
pub struct Entry {
    pub row: u64,
    pub col: u64,
    pub cell: Cell,
}

impl Entry {
    /// The cell's coordinates, row first.
    pub open spec fn pos(self) -> (int, int) {
        (self.row as int, self.col as int)
    }
}

/// The content cells of a sheet, each coordinate at most once.
pub struct Grid {
    entries: Vec<Entry>,
    index: HashMap<u128, usize>,
}

/// One number per coordinate.
spec fn key(row: int, col: int) -> int {
    row * 0x1_0000_0000_0000_0000 + col
}

fn key_of(row: u64, col: u64) -> (r: u128)
    ensures
        r == key(row as int, col as int),
{
    (row as u128) * 0x1_0000_0000_0000_0000 + (col as u128)
}

impl View for Grid {
    type V = Map<(int, int), CellV>;

    closed spec fn view(&self) -> Map<(int, int), CellV> {
        Map::new(
            |p: (int, int)| self.has(p),
            |p: (int, int)| self.entries@[self.index@[key(p.0, p.1) as u128] as int].cell@,
        )
    }
}

impl Grid {
    spec fn has(self, p: (int, int)) -> bool {
        &&& 0 <= p.0 <= u64::MAX
        &&& 0 <= p.1 <= u64::MAX
        &&& self.index@.contains_key(key(p.0, p.1) as u128)
    }

    /// The index and the list of cells agree.
    pub closed spec fn wf(self) -> bool {
        &&& forall|i: int|
            0 <= i < self.entries@.len() ==> self.has(#[trigger] self.entries@[i].pos())
                && self.index@[key(
                self.entries@[i].row as int,
                self.entries@[i].col as int,
            ) as u128] == i
        &&& forall|k: u128| #[trigger]
            self.index@.contains_key(k) ==> {
                &&& self.index@[k] < self.entries@.len()
                &&& key(
                    self.entries@[self.index@[k] as int].row as int,
                    self.entries@[self.index@[k] as int].col as int,
                ) == k
            }
    }

    spec fn at(self, i: int) -> (int, int) {
        self.entries@[i].pos()
    }

    proof fn positions(self)
        requires
            self.wf(),
        ensures
            forall|i: int| 0 <= i < self.entries@.len() ==> self@.contains_key(#[trigger] self.at(i)),
            forall|i: int|
                0 <= i < self.entries@.len() ==> self@[#[trigger] self.at(i)]
                    == self.entries@[i].cell@,
            forall|i: int, j: int|
                0 <= i < self.entries@.len() && 0 <= j < self.entries@.len() && #[trigger] self.at(
                    i,
                ) == #[trigger] self.at(j) ==> i == j,
            forall|p: (int, int)| #[trigger]
                self@.contains_key(p) ==> exists|i: int|
                    0 <= i < self.entries@.len() && #[trigger] self.at(i) == p,
    {
        assert forall|p: (int, int)| #[trigger] self@.contains_key(p) implies exists|i: int|
            0 <= i < self.entries@.len() && #[trigger] self.at(i) == p by {
            let k = key(p.0, p.1) as u128;
            let i = self.index@[k] as int;
            assert(self.at(i) == p);
        }
    }

    /// A sheet without content.
    pub fn new() -> (r: Grid)
        ensures
            r.wf(),
            r@ == Map::<(int, int), CellV>::empty(),
    {
        let r = Grid { entries: Vec::new(), index: HashMap::new() };
        assert(r@ =~= Map::<(int, int), CellV>::empty());
        r
    }

    /// Put `cell` at the coordinates, in place of what stood there.
    pub fn insert(&mut self, row: u64, col: u64, cell: Cell)
        requires
            old(self).wf(),
        ensures
            final(self).wf(),
            final(self)@ == old(self)@.insert((row as int, col as int), cell@),
    {
        broadcast use vstd::std_specs::hash::group_hash_axioms;

        let k = key_of(row, col);
        let found: Option<usize> = match self.index.get(&k) {
            Some(i) => Some(*i),
            None => None,
        };
        match found {
            Some(i) => {
                self.entries.set(i, Entry { row, col, cell });
            },
            None => {
                let n = self.entries.len();
                self.entries.push(Entry { row, col, cell });
                self.index.insert(k, n);
            },
        }
        assert(self@ =~= old(self)@.insert((row as int, col as int), cell@));
    }

    /// The number of content cells.
    pub fn len(&self) -> (r: usize)
        requires
            self.wf(),
        ensures
            r == 0 <==> self@ == Map::<(int, int), CellV>::empty(),
    {
        proof {
            self.positions();
            if self.entries@.len() == 0 {
                assert(self@ =~= Map::<(int, int), CellV>::empty());
            } else {
                assert(self@.contains_key(self.at(0)));
            }
        }
        self.entries.len()
    }

    /// The index of the cell at the coordinates.
    fn find(&self, row: u64, col: u64) -> (r: Option<usize>)
        requires
            self.wf(),
        ensures
            r is Some <==> self@.contains_key((row as int, col as int)),
            r is Some ==> r->0 < self.entries@.len() && self.at(r->0 as int) == (
                row as int,
                col as int,
            ),
    {
        broadcast use vstd::std_specs::hash::group_hash_axioms;

        let k = key_of(row, col);
        match self.index.get(&k) {
            Some(i) => Some(*i),
            None => None,
        }
    }
}

/// Immediate neighbours: one step up, down, left or right.
pub open spec fn adjacent(p: (int, int), q: (int, int)) -> bool {
    ||| p.0 == q.0 && (p.1 == q.1 + 1 || q.1 == p.1 + 1)
    ||| p.1 == q.1 && (p.0 == q.0 + 1 || q.0 == p.0 + 1)
}

/// A walk over content cells, neighbour by neighbour.
pub open spec fn path(cells: Set<(int, int)>, s: Seq<(int, int)>) -> bool {
    &&& s.len() > 0
    &&& forall|i: int| 0 <= i < s.len() ==> cells.contains(#[trigger] s[i])
    &&& forall|i: int| 0 <= i < s.len() - 1 ==> adjacent(#[trigger] s[i], s[i + 1])
}

/// Whether a walk over content cells leads from `p` to `q`.
#[verifier::opaque]
pub open spec fn connected(cells: Set<(int, int)>, p: (int, int), q: (int, int)) -> bool {
    exists|s: Seq<(int, int)>| #[trigger] path(cells, s) && s[0] == p && s.last() == q
}

/// Row-major order.
pub open spec fn before(p: (int, int), q: (int, int)) -> bool {
    p.0 < q.0 || (p.0 == q.0 && p.1 < q.1)
}

/// A rectangle of cells, bounds included.
#[derive(Clone, Copy)]
pub struct Bounds {
    pub top: u64,
    pub bottom: u64,
    pub left: u64,
    pub right: u64,
}

impl Bounds {
    /// Whether the rectangle covers `p`.
    pub open spec fn covers(self, p: (int, int)) -> bool {
        self.top <= p.0 <= self.bottom && self.left <= p.1 <= self.right
    }
}

/// `b` is the smallest rectangle around the block of `p`.
pub open spec fn is_bounds(cells: Set<(int, int)>, p: (int, int), b: Bounds) -> bool {
    &&& forall|q: (int, int)| #[trigger] connected(cells, p, q) ==> b.covers(q)
    &&& exists|q: (int, int)| #[trigger] connected(cells, p, q) && q.0 == b.top
    &&& exists|q: (int, int)| #[trigger] connected(cells, p, q) && q.0 == b.bottom
    &&& exists|q: (int, int)| #[trigger] connected(cells, p, q) && q.1 == b.left
    &&& exists|q: (int, int)| #[trigger] connected(cells, p, q) && q.1 == b.right
}

/// What the sheet shows at a coordinate: its cell, or an empty text.
pub open spec fn shown(cells: Map<(int, int), CellV>, row: int, col: int) -> CellV {
    if cells.contains_key((row, col)) {
        cells[(row, col)]
    } else {
        CellV::Text(seq![])
    }
}

/// The views of one row of cells.
pub open spec fn row_view(row: Seq<Cell>) -> Seq<CellV> {
    Seq::new(row.len(), |i: int| row[i]@)
}

/// The view of a table of cells.
pub open spec fn rows_view(rows: Seq<Vec<Cell>>) -> Seq<Seq<CellV>> {
    Seq::new(rows.len(), |i: int| row_view(rows[i]@))
}

/// The views of a list of tables.
pub open spec fn tables_view(tables: Seq<Vec<Vec<Cell>>>) -> Seq<Seq<Seq<CellV>>> {
    Seq::new(tables.len(), |i: int| rows_view(tables[i]@))
}

/// Appending a cell appends its view.
pub broadcast proof fn row_view_push(s: Seq<Cell>, x: Cell)
    ensures
        #[trigger] row_view(s.push(x)) == row_view(s).push(x@),
{
    assert(row_view(s.push(x)) =~= row_view(s).push(x@));
}

/// Appending a row appends its view.
pub broadcast proof fn rows_view_push(s: Seq<Vec<Cell>>, x: Vec<Cell>)
    ensures
        #[trigger] rows_view(s.push(x)) == rows_view(s).push(row_view(x@)),
{
    assert(rows_view(s.push(x)) =~= rows_view(s).push(row_view(x@)));
}

/// The part of the sheet inside a rectangle.
pub open spec fn cut(cells: Map<(int, int), CellV>, b: Bounds) -> Seq<Seq<CellV>> {
    Seq::new(
        (b.bottom - b.top + 1) as nat,
        |i: int|
            Seq::new(
                (b.right - b.left + 1) as nat,
                |j: int| shown(cells, b.top + i, b.left + j),
            ),
    )
}

/// `p` is the first cell of its block.
pub open spec fn leads(cells: Set<(int, int)>, p: (int, int)) -> bool {
    cells.contains(p) && forall|q: (int, int)| #[trigger] connected(cells, p, q) ==> !before(q, p)
}

/// Whether `p` lies in the block of one of the `leaders`.
#[verifier::opaque]
pub open spec fn led(cells: Set<(int, int)>, leaders: Seq<(int, int)>, p: (int, int)) -> bool {
    exists|k: int| 0 <= k < leaders.len() && connected(cells, #[trigger] leaders[k], p)
}

/// `leaders` are the first cells of the blocks, in row-major order, and no
/// block is left out.
pub open spec fn all_leaders(cells: Set<(int, int)>, leaders: Seq<(int, int)>) -> bool {
    &&& forall|k: int| 0 <= k < leaders.len() ==> leads(cells, #[trigger] leaders[k])
    &&& forall|j: int, k: int|
        0 <= j < k < leaders.len() ==> before(#[trigger] leaders[j], #[trigger] leaders[k])
    &&& forall|p: (int, int)| #[trigger] cells.contains(p) ==> led(cells, leaders, p)
}

/// `table` is the bounding rectangle of the block of `p`.
pub open spec fn is_block_table(
    cells: Map<(int, int), CellV>,
    p: (int, int),
    table: Seq<Seq<CellV>>,
) -> bool {
    exists|b: Bounds| #[trigger] is_bounds(cells.dom(), p, b) && table == cut(cells, b)
}

/// `tables` are the sheet's data regions: one table per block, in row-major
/// order of the blocks' first cells.
pub open spec fn is_regions(cells: Map<(int, int), CellV>, tables: Seq<Seq<Seq<CellV>>>) -> bool {
    exists|leaders: Seq<(int, int)>|
        {
            &&& #[trigger] all_leaders(cells.dom(), leaders)
            &&& leaders.len() == tables.len()
            &&& forall|k: int|
                0 <= k < leaders.len() ==> is_block_table(
                    cells,
                    #[trigger] leaders[k],
                    tables[k],
                )
        }
}

proof fn connected_self(cells: Set<(int, int)>, p: (int, int))
    requires
        cells.contains(p),
    ensures
        connected(cells, p, p),
{
    reveal(connected);
    assert(path(cells, seq![p]));
    assert(seq![p].last() == p);
}

proof fn connected_step(cells: Set<(int, int)>, p: (int, int), q: (int, int), r: (int, int))
    requires
        connected(cells, p, q),
        cells.contains(r),
        adjacent(q, r),
    ensures
        connected(cells, p, r),
{
    reveal(connected);
    let s = choose|s: Seq<(int, int)>| #[trigger] path(cells, s) && s[0] == p && s.last() == q;
    let t = s.push(r);
    assert forall|i: int| 0 <= i < t.len() - 1 implies adjacent(#[trigger] t[i], t[i + 1]) by {
        if i < s.len() - 1 {
            assert(adjacent(s[i], s[i + 1]));
        }
    }
    assert(path(cells, t));
    assert(t.last() == r);
}

/// Walks can be walked back.
pub proof fn connected_symmetric(cells: Set<(int, int)>, p: (int, int), q: (int, int))
    requires
        connected(cells, p, q),
    ensures
        connected(cells, q, p),
{
    reveal(connected);
    let s = choose|s: Seq<(int, int)>| #[trigger] path(cells, s) && s[0] == p && s.last() == q;
    let t = s.reverse();
    assert forall|i: int| 0 <= i < t.len() - 1 implies adjacent(#[trigger] t[i], t[i + 1]) by {
        let j = s.len() - 2 - i;
        assert(adjacent(s[j], s[j + 1]));
    }
    assert(path(cells, t));
    assert(t[0] == q && t.last() == p);
}

/// Walks can be walked one after another.
pub proof fn connected_transitive(
    cells: Set<(int, int)>,
    p: (int, int),
    q: (int, int),
    r: (int, int),
)
    requires
        connected(cells, p, q),
        connected(cells, q, r),
    ensures
        connected(cells, p, r),
{
    reveal(connected);
    let s = choose|s: Seq<(int, int)>| #[trigger] path(cells, s) && s[0] == p && s.last() == q;
    let t = choose|s: Seq<(int, int)>| #[trigger] path(cells, s) && s[0] == q && s.last() == r;
    let u = s + t.skip(1);
    assert forall|i: int| 0 <= i < u.len() implies cells.contains(#[trigger] u[i]) by {
        if i < s.len() {
            assert(cells.contains(s[i]));
        } else {
            assert(cells.contains(t[i - s.len() + 1]));
        }
    }
    assert forall|i: int| 0 <= i < u.len() - 1 implies adjacent(#[trigger] u[i], u[i + 1]) by {
        if i < s.len() - 1 {
            assert(adjacent(s[i], s[i + 1]));
        } else {
            assert(u[i] == t[i - s.len() + 1]);
            assert(adjacent(t[i - s.len() + 1], t[i - s.len() + 2]));
        }
    }
    assert(path(cells, u));
    assert(u[0] == p);
    assert(u.last() == r);
}

proof fn leader_of(cells: Set<(int, int)>, leaders: Seq<(int, int)>, p: (int, int)) -> (k: int)
    requires
        led(cells, leaders, p),
    ensures
        0 <= k < leaders.len(),
        connected(cells, leaders[k], p),
{
    reveal(led);
    choose|k: int| 0 <= k < leaders.len() && connected(cells, #[trigger] leaders[k], p)
}

/// Whether a cell stands in one of the tables.
pub open spec fn stands(tables: Seq<Seq<Seq<CellV>>>, k: int, i: int, j: int, v: CellV) -> bool {
    0 <= k < tables.len() && 0 <= i < tables[k].len() && 0 <= j < tables[k][i].len()
        && tables[k][i][j] == v
}

/// Every cell of a sheet stands in one of its data regions.
pub proof fn every_cell_is_shown(
    cells: Map<(int, int), CellV>,
    tables: Seq<Seq<Seq<CellV>>>,
    p: (int, int),
)
    requires
        is_regions(cells, tables),
        cells.contains_key(p),
    ensures
        exists|k: int, i: int, j: int| #[trigger] stands(tables, k, i, j, cells[p]),
{
    let leaders = choose|leaders: Seq<(int, int)>|
        {
            &&& #[trigger] all_leaders(cells.dom(), leaders)
            &&& leaders.len() == tables.len()
            &&& forall|k: int|
                0 <= k < leaders.len() ==> is_block_table(cells, #[trigger] leaders[k], tables[k])
        };
    assert(cells.dom().contains(p));
    let k = leader_of(cells.dom(), leaders, p);
    assert(is_block_table(cells, leaders[k], tables[k]));
    let b = choose|b: Bounds|
        #[trigger] is_bounds(cells.dom(), leaders[k], b) && tables[k] == cut(cells, b);
    assert(b.covers(p));
    let i = p.0 - b.top;
    let j = p.1 - b.left;
    assert(shown(cells, b.top + i, b.left + j) == cells[p]);
    assert(stands(tables, k, i, j, cells[p]));
}

/// Whether a sequence is in row-major order and without repetition.
spec fn ascending(s: Seq<(int, int)>) -> bool {
    forall|j: int, k: int| 0 <= j < k < s.len() ==> before(#[trigger] s[j], #[trigger] s[k])
}

proof fn ascending_sequences_agree(a: Seq<(int, int)>, b: Seq<(int, int)>)
    requires
        ascending(a),
        ascending(b),
        forall|p: (int, int)| a.contains(p) <==> b.contains(p),
    ensures
        a == b,
    decreases a.len(),
{
    if a.len() == 0 {
        if b.len() > 0 {
            assert(b.contains(b[0]));
        }
        assert(a =~= b);
    } else {
        assert(a.contains(a[0]));
        let j = choose|j: int| 0 <= j < b.len() && b[j] == a[0];
        assert(b.contains(b[0]));
        let i = choose|i: int| 0 <= i < a.len() && a[i] == b[0];
        assert(a[0] == b[0]) by {
            if j > 0 && i > 0 {
                assert(before(b[0], b[j]));
                assert(before(a[0], a[i]));
            }
        }
        let x = a.drop_first();
        let y = b.drop_first();
        assert forall|p: (int, int)| x.contains(p) <==> y.contains(p) by {
            if x.contains(p) {
                let k = choose|k: int| 0 <= k < x.len() && x[k] == p;
                assert(a[k + 1] == p && before(a[0], a[k + 1]));
                assert(a.contains(p));
                let m = choose|m: int| 0 <= m < b.len() && b[m] == p;
                assert(y[m - 1] == p);
            }
            if y.contains(p) {
                let k = choose|k: int| 0 <= k < y.len() && y[k] == p;
                assert(b[k + 1] == p && before(b[0], b[k + 1]));
                assert(b.contains(p));
                let m = choose|m: int| 0 <= m < a.len() && a[m] == p;
                assert(x[m - 1] == p);
            }
        }
        ascending_sequences_agree(x, y);
        assert(a =~= seq![a[0]] + x);
        assert(b =~= seq![b[0]] + y);
    }
}

proof fn leaders_are_leaders(
    cells: Set<(int, int)>,
    a: Seq<(int, int)>,
    b: Seq<(int, int)>,
    p: (int, int),
)
    requires
        all_leaders(cells, a),
        all_leaders(cells, b),
        a.contains(p),
    ensures
        b.contains(p),
{
    let i = choose|i: int| 0 <= i < a.len() && a[i] == p;
    assert(leads(cells, a[i]));
    let k = leader_of(cells, b, p);
    assert(leads(cells, b[k]));
    connected_symmetric(cells, b[k], p);
}

/// A sheet has one list of data regions.
pub proof fn regions_are_unique(
    cells: Map<(int, int), CellV>,
    a: Seq<Seq<Seq<CellV>>>,
    b: Seq<Seq<Seq<CellV>>>,
)
    requires
        is_regions(cells, a),
        is_regions(cells, b),
    ensures
        a == b,
{
    let x = choose|leaders: Seq<(int, int)>|
        {
            &&& #[trigger] all_leaders(cells.dom(), leaders)
            &&& leaders.len() == a.len()
            &&& forall|k: int|
                0 <= k < leaders.len() ==> is_block_table(cells, #[trigger] leaders[k], a[k])
        };
    let y = choose|leaders: Seq<(int, int)>|
        {
            &&& #[trigger] all_leaders(cells.dom(), leaders)
            &&& leaders.len() == b.len()
            &&& forall|k: int|
                0 <= k < leaders.len() ==> is_block_table(cells, #[trigger] leaders[k], b[k])
        };
    assert forall|p: (int, int)| x.contains(p) <==> y.contains(p) by {
        if x.contains(p) {
            leaders_are_leaders(cells.dom(), x, y, p);
        }
        if y.contains(p) {
            leaders_are_leaders(cells.dom(), y, x, p);
        }
    }
    ascending_sequences_agree(x, y);
    assert forall|k: int| 0 <= k < a.len() implies a[k] == b[k] by {
        assert(is_block_table(cells, x[k], a[k]));
        assert(is_block_table(cells, y[k], b[k]));
        let c = choose|c: Bounds|
            #[trigger] is_bounds(cells.dom(), x[k], c) && a[k] == cut(cells, c);
        let d = choose|d: Bounds|
            #[trigger] is_bounds(cells.dom(), x[k], d) && b[k] == cut(cells, d);
        assert(c == d);
    }
    assert(a =~= b);
}

proof fn connected_ends(cells: Set<(int, int)>, p: (int, int), q: (int, int))
    requires
        connected(cells, p, q),
    ensures
        cells.contains(q),
{
    reveal(connected);
    let s = choose|s: Seq<(int, int)>| #[trigger] path(cells, s) && s[0] == p && s.last() == q;
    assert(cells.contains(s[s.len() - 1]));
}

/// A set of cells that holds `p` and the content neighbours of its members
/// holds the whole block of `p`.
proof fn closed_holds_block(
    cells: Set<(int, int)>,
    region: Set<(int, int)>,
    p: (int, int),
    q: (int, int),
)
    requires
        region.contains(p),
        forall|a: (int, int), b: (int, int)|
            #![trigger region.contains(a), cells.contains(b)]
            region.contains(a) && cells.contains(b) && adjacent(a, b) ==> region.contains(b),
        connected(cells, p, q),
    ensures
        region.contains(q),
{
    reveal(connected);
    let s = choose|s: Seq<(int, int)>| #[trigger] path(cells, s) && s[0] == p && s.last() == q;
    closed_holds_path(cells, region, s, s.len() - 1);
}

proof fn closed_holds_path(
    cells: Set<(int, int)>,
    region: Set<(int, int)>,
    s: Seq<(int, int)>,
    i: int,
)
    requires
        path(cells, s),
        region.contains(s[0]),
        forall|a: (int, int), b: (int, int)|
            #![trigger region.contains(a), cells.contains(b)]
            region.contains(a) && cells.contains(b) && adjacent(a, b) ==> region.contains(b),
        0 <= i < s.len(),
    ensures
        region.contains(s[i]),
    decreases i,
{
    if i > 0 {
        closed_holds_path(cells, region, s, i - 1);
        assert(adjacent(s[i - 1], s[i - 1 + 1]));
        assert(cells.contains(s[i]));
    }
}

/// Distinct numbers below `n` are at most `n` many.
proof fn pigeonhole(s: Seq<usize>, n: int)
    requires
        0 <= n,
        s.no_duplicates(),
        forall|i: int| 0 <= i < s.len() ==> #[trigger] s[i] < n,
    ensures
        s.len() <= n,
{
    let t = s.map_values(|x: usize| x as int);
    assert(t.no_duplicates());
    t.unique_seq_to_set();
    vstd::set_lib::lemma_int_range(0, n);
    assert(t.to_set().subset_of(vstd::set_lib::set_int_range(0, n)));
    vstd::set_lib::lemma_len_subset(t.to_set(), vstd::set_lib::set_int_range(0, n));
}

/// Whether the queue holds the index `i`.
spec fn queued(order: Seq<usize>, i: int) -> bool {
    exists|k: int| 0 <= k < order.len() && #[trigger] order[k] == i
}

/// The queue of a flood fill: `order` are the indices of the cells found so
/// far, all in the block of `start` and all marked in `seen`.
spec fn filling(g: Grid, start: int, was: Seq<bool>, seen: Seq<bool>, order: Seq<usize>) -> bool {
    &&& 0 <= start < g.entries@.len()
    &&& was.len() == g.entries@.len()
    &&& seen.len() == was.len()
    &&& order.len() > 0
    &&& order[0] == start
    &&& order.no_duplicates()
    &&& forall|k: int|
        0 <= k < order.len() ==> #[trigger] order[k] < was.len() && !was[order[k] as int]
            && connected(g@.dom(), g.at(start), g.at(order[k] as int))
    &&& forall|i: int|
        0 <= i < seen.len() ==> #[trigger] seen[i] == (was[i] || queued(order, i))
}

impl Grid {
    /// Adds the cell at the coordinates to the queue unless it is there.
    fn reach(
        &self,
        row: u64,
        col: u64,
        Ghost(start): Ghost<int>,
        Ghost(from): Ghost<(int, int)>,
        Ghost(was): Ghost<Seq<bool>>,
        seen: &mut Vec<bool>,
        order: &mut Vec<usize>,
    )
        requires
            self.wf(),
            filling(*self, start, was, old(seen)@, old(order)@),
            connected(self@.dom(), self.at(start), from),
            adjacent(from, (row as int, col as int)),
            forall|i: int|
                0 <= i < was.len() && #[trigger] was[i] ==> !connected(
                    self@.dom(),
                    self.at(start),
                    self.at(i),
                ),
        ensures
            filling(*self, start, was, final(seen)@, final(order)@),
            old(order)@.is_prefix_of(final(order)@),
            self@.contains_key((row as int, col as int)) ==> exists|k: int|
                0 <= k < final(order)@.len() && self.at(#[trigger] final(order)@[k] as int) == (
                    row as int,
                    col as int,
                ),
    {
        proof {
            self.positions();
        }
        match self.find(row, col) {
            Some(j) => {
                proof {
                    connected_step(self@.dom(), self.at(start), from, self.at(j as int));
                }
                if !seen[j] {
                    let ghost before = order@;
                    seen.set(j, true);
                    order.push(j);
                    assert(!queued(before, j as int));
                    assert(order@[before.len() as int] == j);
                    assert forall|i: int| 0 <= i < seen@.len() implies #[trigger] seen@[i] == (was[i]
                        || queued(order@, i)) by {
                        if queued(before, i) {
                            let k = choose|k: int| 0 <= k < before.len() && #[trigger] before[k] == i;
                            assert(order@[k] == i);
                        }
                        if queued(order@, i) && i != j {
                            let k = choose|k: int| 0 <= k < order@.len() && #[trigger] order@[k] == i;
                            assert(before[k] == i);
                        }
                    }
                } else {
                    assert(queued(order@, j as int));
                    let ghost k = choose|k: int| 0 <= k < order@.len() && #[trigger] order@[k] == j;
                    assert(self.at(order@[k] as int) == (row as int, col as int));
                }
            },
            None => {},
        }
    }

    /// Marks the block of the cell `start` and measures it.
    fn flood(&self, start: usize, seen: &mut Vec<bool>) -> (b: Bounds)
        requires
            self.wf(),
            start < self.entries@.len(),
            old(seen)@.len() == self.entries@.len(),
            !old(seen)@[start as int],
            forall|i: int|
                0 <= i < self.entries@.len() && #[trigger] old(seen)@[i] ==> !connected(
                    self@.dom(),
                    self.at(start as int),
                    self.at(i),
                ),
        ensures
            is_bounds(self@.dom(), self.at(start as int), b),
            final(seen)@.len() == old(seen)@.len(),
            forall|i: int|
                0 <= i < self.entries@.len() ==> #[trigger] final(seen)@[i] == (old(seen)@[i]
                    || connected(self@.dom(), self.at(start as int), self.at(i))),
    {
        let ghost was = seen@;
        let ghost dom = self@.dom();
        let ghost p = self.at(start as int);
        let first = &self.entries[start];
        let mut b = Bounds { top: first.row, bottom: first.row, left: first.col, right: first.col };
        let mut order: Vec<usize> = Vec::new();
        order.push(start);
        seen.set(start, true);
        let mut head: usize = 0;
        proof {
            self.positions();
            connected_self(dom, p);
            assert(order@[0] == start);
            assert forall|i: int| 0 <= i < seen@.len() implies #[trigger] seen@[i] == (was[i]
                || queued(order@, i)) by {
                if i == start {
                    assert(order@[0] == i);
                }
            }
            pigeonhole(order@, self.entries@.len() as int);
        }
        while head < order.len()
            invariant
                self.wf(),
                start < self.entries@.len(),
                p == self.at(start as int),
                dom == self@.dom(),
                filling(*self, start as int, was, seen@, order@),
                forall|i: int|
                    0 <= i < was.len() && #[trigger] was[i] ==> !connected(dom, p, self.at(i)),
                head <= order@.len() <= self.entries@.len(),
                forall|k: int|
                    0 <= k < head ==> b.covers(self.at(#[trigger] order@[k] as int)),
                forall|k: int, q: (int, int)|
                    #![trigger order@[k], dom.contains(q)]
                    0 <= k < head && dom.contains(q) && adjacent(
                        self.at(order@[k] as int),
                        q,
                    ) ==> exists|j: int| 0 <= j < order@.len() && self.at(#[trigger] order@[j] as int) == q,
                connected(dom, p, p),
                b.covers(p),
                exists|q: (int, int)| #[trigger] connected(dom, p, q) && q.0 == b.top,
                exists|q: (int, int)| #[trigger] connected(dom, p, q) && q.0 == b.bottom,
                exists|q: (int, int)| #[trigger] connected(dom, p, q) && q.1 == b.left,
                exists|q: (int, int)| #[trigger] connected(dom, p, q) && q.1 == b.right,
            decreases self.entries@.len() - head,
        {
            let i = order[head];
            let row: u64 = self.entries[i].row;
            let col: u64 = self.entries[i].col;
            let ghost at = self.at(i as int);
            let ghost order0 = order@;
            assert(connected(dom, p, at));
            if row < b.top {
                b.top = row;
            }
            if row > b.bottom {
                b.bottom = row;
            }
            if col < b.left {
                b.left = col;
            }
            if col > b.right {
                b.right = col;
            }
            if col < u64::MAX {
                self.reach(row, col + 1, Ghost(start as int), Ghost(at), Ghost(was), seen, &mut order);
            }
            let ghost order1 = order@;
            if col > 0 {
                self.reach(row, col - 1, Ghost(start as int), Ghost(at), Ghost(was), seen, &mut order);
            }
            let ghost order2 = order@;
            if row < u64::MAX {
                self.reach(row + 1, col, Ghost(start as int), Ghost(at), Ghost(was), seen, &mut order);
            }
            let ghost order3 = order@;
            if row > 0 {
                self.reach(row - 1, col, Ghost(start as int), Ghost(at), Ghost(was), seen, &mut order);
            }
            proof {
                self.positions();
                pigeonhole(order@, self.entries@.len() as int);
                assert(order0.is_prefix_of(order@));
                assert(order1.is_prefix_of(order@));
                assert(order2.is_prefix_of(order@));
                assert(order3.is_prefix_of(order@));
                assert forall|k: int, q: (int, int)|
                    #![trigger order@[k], dom.contains(q)]
                    0 <= k < head + 1 && dom.contains(q) && adjacent(
                        self.at(order@[k] as int),
                        q,
                    ) implies exists|j: int|
                    0 <= j < order@.len() && self.at(#[trigger] order@[j] as int) == q by {
                    assert(order0[k] == order@[k]);
                    assert(self@.contains_key(q));
                    let i0 = choose|i0: int| 0 <= i0 < self.entries@.len() && #[trigger] self.at(i0) == q;
                    if k < head {
                        let j = choose|j: int|
                            0 <= j < order0.len() && self.at(#[trigger] order0[j] as int) == q;
                        assert(order@[j] == order0[j]);
                    } else {
                        assert(self.at(order@[k] as int) == at);
                        if q == (at.0, at.1 + 1) {
                            let j = choose|j: int|
                                0 <= j < order1.len() && self.at(#[trigger] order1[j] as int) == q;
                            assert(order@[j] == order1[j]);
                        } else if q == (at.0, at.1 - 1) {
                            let j = choose|j: int|
                                0 <= j < order2.len() && self.at(#[trigger] order2[j] as int) == q;
                            assert(order@[j] == order2[j]);
                        } else if q == (at.0 + 1, at.1) {
                            let j = choose|j: int|
                                0 <= j < order3.len() && self.at(#[trigger] order3[j] as int) == q;
                            assert(order@[j] == order3[j]);
                        } else {
                            assert(q == (at.0 - 1, at.1));
                        }
                    }
                }
                assert forall|k: int| 0 <= k < head + 1 implies b.covers(
                    self.at(#[trigger] order@[k] as int),
                ) by {
                    assert(order0[k] == order@[k]);
                }
            }
            head += 1;
        }
        proof {
            let region = Set::new(
                |q: (int, int)|
                    exists|k: int| 0 <= k < order@.len() && self.at(#[trigger] order@[k] as int) == q,
            );
            assert(region.contains(p)) by {
                assert(self.at(order@[0] as int) == p);
            }
            assert forall|a: (int, int), c: (int, int)|
                #![trigger region.contains(a), dom.contains(c)]
                region.contains(a) && dom.contains(c) && adjacent(a, c) implies region.contains(c) by {
                let k = choose|k: int| 0 <= k < order@.len() && self.at(#[trigger] order@[k] as int) == a;
                assert(adjacent(self.at(order@[k] as int), c));
            }
            assert forall|q: (int, int)| #[trigger] connected(dom, p, q) implies b.covers(q)
                && region.contains(q) by {
                closed_holds_block(dom, region, p, q);
                let k = choose|k: int| 0 <= k < order@.len() && self.at(#[trigger] order@[k] as int) == q;
            }
            assert forall|i: int| 0 <= i < self.entries@.len() implies #[trigger] seen@[i] == (was[i]
                || connected(dom, p, self.at(i))) by {
                if connected(dom, p, self.at(i)) {
                    assert(region.contains(self.at(i)));
                    let k = choose|k: int|
                        0 <= k < order@.len() && self.at(#[trigger] order@[k] as int) == self.at(i);
                    self.positions();
                    assert(order@[k] == i);
                }
                if queued(order@, i) {
                    let k = choose|k: int| 0 <= k < order@.len() && #[trigger] order@[k] == i;
                    assert(connected(dom, p, self.at(order@[k] as int)));
                }
            }
        }
        b
    }
}

/// One more leader leads the cells of its block.
proof fn led_push(cells: Set<(int, int)>, leaders: Seq<(int, int)>, p: (int, int), q: (int, int))
    ensures
        led(cells, leaders.push(p), q) == (led(cells, leaders, q) || connected(cells, p, q)),
{
    reveal(led);
    let more = leaders.push(p);
    if led(cells, leaders, q) {
        let k = choose|k: int| 0 <= k < leaders.len() && connected(cells, #[trigger] leaders[k], q);
        assert(more[k] == leaders[k]);
    }
    if connected(cells, p, q) {
        assert(more[leaders.len() as int] == p);
    }
    if led(cells, more, q) {
        let k = choose|k: int| 0 <= k < more.len() && connected(cells, #[trigger] more[k], q);
        if k < leaders.len() {
            assert(leaders[k] == more[k]);
        }
    }
}

/// The scan of a sheet up to the row-major position `next`: `leaders` are the
/// first cells of the blocks met so far, `seen` marks their cells and
/// `tables` are their tables.
spec fn scanned(
    g: Grid,
    leaders: Seq<(int, int)>,
    seen: Seq<bool>,
    tables: Seq<Vec<Vec<Cell>>>,
    next: (int, int),
) -> bool {
    &&& seen.len() == g.entries@.len()
    &&& leaders.len() == tables.len()
    &&& forall|k: int|
        0 <= k < leaders.len() ==> leads(g@.dom(), #[trigger] leaders[k]) && before(
            leaders[k],
            next,
        ) && is_block_table(g@, leaders[k], rows_view(tables[k]@))
    &&& forall|j: int, k: int|
        0 <= j < k < leaders.len() ==> before(#[trigger] leaders[j], #[trigger] leaders[k])
    &&& forall|i: int|
        0 <= i < seen.len() ==> #[trigger] seen[i] == led(g@.dom(), leaders, g.at(i))
    &&& forall|i: int| 0 <= i < seen.len() && before(#[trigger] g.at(i), next) ==> seen[i]
}

impl Grid {
    /// One row of the sheet between two columns.
    fn cut_row(&self, row: u64, left: u64, right: u64) -> (r: Vec<Cell>)
        requires
            self.wf(),
            left <= right,
        ensures
            row_view(r@) == Seq::new(
                (right - left + 1) as nat,
                |j: int| shown(self@, row as int, left + j),
            ),
    {
        let ghost want = Seq::new(
            (right - left + 1) as nat,
            |j: int| shown(self@, row as int, left + j),
        );
        let mut out: Vec<Cell> = Vec::new();
        let mut col: u64 = left;
        loop
            invariant_except_break
                self.wf(),
                left <= col <= right,
                want == Seq::new((right - left + 1) as nat, |j: int| shown(self@, row as int, left + j)),
                row_view(out@) == want.take(col - left),
            ensures
                row_view(out@) == want,
            decreases right - col,
        {
            proof {
                self.positions();
            }
            let ghost before = out@;
            match self.find(row, col) {
                Some(i) => {
                    let cell = self.entries[i].cell.copy();
                    assert(cell@ == self@[self.at(i as int)]);
                    out.push(cell);
                },
                None => {
                    out.push(Cell::Text(String::new()));
                },
            }
            proof {
                assert(out@ == before.push(out@.last()));
                row_view_push(before, out@.last());
                assert(out@.last()@ == want[col - left]);
                assert(want.take(col - left).push(want[col - left]) =~= want.take(col - left + 1));
            }
            if col == right {
                assert(want.take(col - left + 1) =~= want);
                break ;
            }
            col += 1;
        }
        out
    }

    /// The part of the sheet inside a rectangle.
    fn cut(&self, b: Bounds) -> (r: Vec<Vec<Cell>>)
        requires
            self.wf(),
            b.top <= b.bottom,
            b.left <= b.right,
        ensures
            rows_view(r@) == cut(self@, b),
    {
        let ghost want = cut(self@, b);
        let mut out: Vec<Vec<Cell>> = Vec::new();
        let mut row: u64 = b.top;
        loop
            invariant_except_break
                self.wf(),
                b.left <= b.right,
                b.top <= row <= b.bottom,
                want == cut(self@, b),
                rows_view(out@) == want.take(row - b.top),
            ensures
                rows_view(out@) == want,
            decreases b.bottom - row,
        {
            let ghost before = out@;
            let cells = self.cut_row(row, b.left, b.right);
            out.push(cells);
            proof {
                assert(out@ == before.push(out@.last()));
                rows_view_push(before, out@.last());
                assert(row_view(out@.last()@) == want[row - b.top]);
                assert(want.take(row - b.top).push(want[row - b.top]) =~= want.take(row - b.top + 1));
            }
            if row == b.bottom {
                assert(want.take(row - b.top + 1) =~= want);
                break ;
            }
            row += 1;
        }
        out
    }

    /// Visits one coordinate of the scan.
    #[verifier::rlimit(60)]
    fn visit(
        &self,
        row: u64,
        col: u64,
        Ghost(leaders): Ghost<Seq<(int, int)>>,
        seen: &mut Vec<bool>,
        tables: &mut Vec<Vec<Vec<Cell>>>,
    ) -> (r: Ghost<Seq<(int, int)>>)
        requires
            self.wf(),
            scanned(*self, leaders, old(seen)@, old(tables)@, (row as int, col as int)),
        ensures
            scanned(*self, r@, final(seen)@, final(tables)@, (row as int, col + 1)),
    {
        let ghost dom = self@.dom();
        proof {
            self.positions();
        }
        match self.find(row, col) {
            Some(i) => {
                let ghost p = self.at(i as int);
                if !seen[i] {
                    let ghost was = seen@;
                    let ghost tables0 = tables@;
                    proof {
                        connected_self(dom, p);
                        assert forall|j: int| 0 <= j < self.entries@.len() && #[trigger] was[j] implies !connected(
                            dom,
                            p,
                            self.at(j),
                        ) by {
                            reveal(led);
                            if connected(dom, p, self.at(j)) {
                                let k = leader_of(dom, leaders, self.at(j));
                                connected_symmetric(dom, p, self.at(j));
                                connected_transitive(dom, leaders[k], self.at(j), p);
                            }
                        }
                    }
                    let b = self.flood(i, seen);
                    assert(connected(dom, p, p) ==> b.covers(p));
                    let table = self.cut(b);
                    tables.push(table);
                    proof {
                        assert(is_bounds(dom, p, b));
                        assert(is_block_table(self@, p, rows_view(table@)));
                        let more = leaders.push(p);
                        assert(leads(dom, p)) by {
                            assert forall|q: (int, int)| #[trigger] connected(dom, p, q) implies !before(q, p) by {
                                if before(q, p) {
                                    connected_ends(dom, p, q);
                                    assert(self@.contains_key(q));
                                    let j = choose|j: int|
                                        0 <= j < self.entries@.len() && #[trigger] self.at(j) == q;
                                    assert(was[j]);
                                }
                            }
                        }
                        assert forall|k: int| 0 <= k < more.len() implies leads(dom, #[trigger] more[k]) && before(
                            more[k],
                            (row as int, col + 1),
                        ) && is_block_table(self@, more[k], rows_view(tables@[k]@)) by {
                            if k < leaders.len() {
                                assert(tables@[k] == tables0[k]);
                                assert(leads(dom, leaders[k]));
                            }
                        }
                        assert forall|j: int| 0 <= j < seen@.len() implies #[trigger] seen@[j] == led(
                            dom,
                            more,
                            self.at(j),
                        ) by {
                            led_push(dom, leaders, p, self.at(j));
                        }
                        assert forall|j: int| 0 <= j < seen@.len() && before(
                            #[trigger] self.at(j),
                            (row as int, col + 1),
                        ) implies seen@[j] by {
                            if !before(self.at(j), (row as int, col as int)) {
                                assert(self.at(j) == p);
                            } else {
                                assert(was[j]);
                            }
                        }
                    }
                    return Ghost(leaders.push(p));
                }
                proof {
                    assert forall|j: int| 0 <= j < seen@.len() && before(
                        #[trigger] self.at(j),
                        (row as int, col + 1),
                    ) implies seen@[j] by {
                        if !before(self.at(j), (row as int, col as int)) {
                            assert(self.at(j) == p);
                        }
                    }
                }
            },
            None => {
                proof {
                    assert forall|j: int| 0 <= j < seen@.len() && before(
                        #[trigger] self.at(j),
                        (row as int, col + 1),
                    ) implies seen@[j] by {
                        if !before(self.at(j), (row as int, col as int)) {
                            assert(self@.contains_key(self.at(j)));
                        }
                    }
                }
            },
        }
        assert forall|k: int| 0 <= k < leaders.len() implies before(
            #[trigger] leaders[k],
            (row as int, col + 1),
        ) by {
            assert(leads(dom, leaders[k]));
        }
        Ghost(leaders)
    }

    /// The smallest rectangle around all content cells.
    fn extent(&self) -> (b: Bounds)
        requires
            self.wf(),
            self.entries@.len() > 0,
        ensures
            b.top <= b.bottom,
            b.left <= b.right,
            forall|i: int| 0 <= i < self.entries@.len() ==> b.covers(#[trigger] self.at(i)),
    {
        let first = &self.entries[0];
        let mut b = Bounds { top: first.row, bottom: first.row, left: first.col, right: first.col };
        let mut i: usize = 1;
        while i < self.entries.len()
            invariant
                1 <= i <= self.entries@.len(),
                b.top <= b.bottom,
                b.left <= b.right,
                forall|j: int| 0 <= j < i ==> b.covers(#[trigger] self.at(j)),
            decreases self.entries@.len() - i,
        {
            let row: u64 = self.entries[i].row;
            let col: u64 = self.entries[i].col;
            if row < b.top {
                b.top = row;
            }
            if row > b.bottom {
                b.bottom = row;
            }
            if col < b.left {
                b.left = col;
            }
            if col > b.right {
                b.right = col;
            }
            i += 1;
        }
        b
    }

    /// The sheet's data regions.
    pub fn regions(&self) -> (tables: Vec<Vec<Vec<Cell>>>)
        requires
            self.wf(),
        ensures
            is_regions(self@, tables_view(tables@)),
    {
        let mut tables: Vec<Vec<Vec<Cell>>> = Vec::new();
        let ghost mut leaders: Seq<(int, int)> = seq![];
        let n = self.entries.len();
        if n == 0 {
            proof {
                self.positions();
                assert forall|p: (int, int)| !(#[trigger] self@.dom().contains(p)) by {
                    if self@.contains_key(p) {
                        let i = choose|i: int| 0 <= i < self.entries@.len() && #[trigger] self.at(i) == p;
                    }
                }
                assert(all_leaders(self@.dom(), leaders));
            }
            return tables;
        }
        let b = self.extent();
        let mut seen: Vec<bool> = Vec::new();
        while seen.len() < n
            invariant
                seen.len() <= n,
                forall|i: int| 0 <= i < seen.len() ==> !#[trigger] seen@[i],
            decreases n - seen.len(),
        {
            seen.push(false);
        }
        assert forall|p: (int, int)| !(#[trigger] led(self@.dom(), leaders, p)) by {
            reveal(led);
        }
        let mut row: u64 = b.top;
        let mut done = false;
        while !done
            invariant
                self.wf(),
                n == self.entries@.len(),
                b.top <= row <= b.bottom,
                b.left <= b.right,
                forall|i: int| 0 <= i < n ==> b.covers(#[trigger] self.at(i)),
                scanned(
                    *self,
                    leaders,
                    seen@,
                    tables@,
                    if done {
                        (row + 1, b.left as int)
                    } else {
                        (row as int, b.left as int)
                    },
                ),
                done ==> row == b.bottom,
            decreases b.bottom - row + (if done { 0int } else { 1int }),
        {
            let mut col: u64 = b.left;
            loop
                invariant_except_break
                    self.wf(),
                    b.left <= col <= b.right,
                    scanned(*self, leaders, seen@, tables@, (row as int, col as int)),
                ensures
                    scanned(*self, leaders, seen@, tables@, (row as int, b.right + 1)),
                decreases b.right - col,
            {
                let next = self.visit(row, col, Ghost(leaders), &mut seen, &mut tables);
                proof {
                    leaders = next@;
                }
                if col == b.right {
                    break ;
                }
                col += 1;
            }
            proof {
                assert forall|i: int| 0 <= i < seen@.len() && before(
                    #[trigger] self.at(i),
                    (row + 1, b.left as int),
                ) implies seen@[i] by {
                    assert(b.covers(self.at(i)));
                }
                assert forall|k: int| 0 <= k < leaders.len() implies before(
                    #[trigger] leaders[k],
                    (row + 1, b.left as int),
                ) by {
                    assert(leads(self@.dom(), leaders[k]));
                }
            }
            if row == b.bottom {
                done = true;
            } else {
                row += 1;
            }
        }
        proof {
            self.positions();
            assert forall|p: (int, int)| #[trigger] self@.dom().contains(p) implies led(
                self@.dom(),
                leaders,
                p,
            ) by {
                assert(self@.contains_key(p));
                let i = choose|i: int| 0 <= i < self.entries@.len() && #[trigger] self.at(i) == p;
                assert(b.covers(self.at(i)));
                assert(seen@[i]);
            }
            assert(all_leaders(self@.dom(), leaders));
            assert forall|k: int| 0 <= k < leaders.len() implies is_block_table(
                self@,
                #[trigger] leaders[k],
                tables_view(tables@)[k],
            ) by {
                assert(leads(self@.dom(), leaders[k]));
            }
        }
        tables
    }
}

} // verus!
