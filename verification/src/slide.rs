//! Parts of slides: where shapes lie, in which order they are read, the texts
//! of paragraphs, and tables.

use crate::document::{
    blank, blank_cells, blank_flags, blank_has_shape, cells, fill_cells, fill_flags, filled,
    filled_keeps_shape, flags, has_shape, string_grid, table_view, CaptionParent, Location, Table,
    TableStructure, TableStructureV, TableV,
};
use crate::text::{
    chars_of, chars_or_empty, decimal, join, joined, or_empty, parse_sint, parse_uint, push_decimal,
    push_str, sint, str_eq, string_of, strip, texts, texts_push, trim, uint, uint_is_positive,
};
use crate::tree::{
    attr, attr_of, child, child_elements, child_elements_of, child_of, find_tagged, first_tagged,
    has_tag, head, head_of, kids, kids_of, opt_str, ref_view, refs_view, self_and_descendants,
    self_and_under, tree_view, trees_view, Element, ElementV, Tree, TreeV,
};
use vstd::multiset::Multiset;
use vstd::prelude::*;
use vstd::seq_lib::{group_to_multiset_ensures, lemma_multiset_commutative};

verus! {

/// The first element with a name in an element, itself counted.
pub open spec fn within(e: ElementV, tag: Seq<char>) -> Option<ElementV> {
    first_tagged(self_and_under(e), tag)
}

pub(crate) fn find_within<'a>(e: &'a Element, tag: &str) -> (r: Option<&'a Element>)
    ensures
        ref_view(r) == within(e@, tag@),
{
    find_tagged(&self_and_descendants(e), tag)
}

// ------------------------------------------------------------ geometry

/// Where a shape lies on its slide.
#[derive(Clone, Copy, Debug, PartialEq, Eq, Structural)]
pub struct Geom {
    pub x: i64,
    pub y: i64,
    pub cx: i64,
    pub cy: i64,
}

/// The number that an attribute of an element holds.
pub open spec fn long_attr(e: ElementV, name: Seq<char>) -> Option<int> {
    match attr_of(e, name) {
        Some(v) => sint(v, i64::MIN as int, i64::MAX as int),
        None => None,
    }
}

pub(crate) fn get_long(e: &Element, name: &str) -> (r: Option<i64>)
    ensures
        match long_attr(e@, name@) {
            Some(n) => r matches Some(x) && x == n,
            None => r is None,
        },
{
    match attr(e, name) {
        Some(v) => match parse_sint(&chars_of(v), i64::MIN as i128, i64::MAX as i128) {
            Some(n) => Some(n as i64),
            None => None,
        },
        None => None,
    }
}

/// Where a shape itself says that it lies.
pub open spec fn own_geom(e: ElementV) -> Option<Geom> {
    match within(e, "xfrm"@) {
        None => None,
        Some(x) => match (child_of(x, "off"@), child_of(x, "ext"@)) {
            (Some(off), Some(ext)) => match (
                long_attr(off, "x"@),
                long_attr(off, "y"@),
                long_attr(ext, "cx"@),
                long_attr(ext, "cy"@),
            ) {
                (Some(a), Some(b), Some(c), Some(d)) => Some(
                    Geom { x: a as i64, y: b as i64, cx: c as i64, cy: d as i64 },
                ),
                _ => None,
            },
            _ => None,
        },
    }
}

/// Where a shape itself says that it lies.
pub fn xfrm_geom(e: &Element) -> (r: Option<Geom>)
    ensures
        r == own_geom(e@),
{
    match find_within(e, "xfrm") {
        None => None,
        Some(x) => match (child(x, "off"), child(x, "ext")) {
            (Some(off), Some(ext)) => match (
                get_long(off, "x"),
                get_long(off, "y"),
                get_long(ext, "cx"),
                get_long(ext, "cy"),
            ) {
                (Some(a), Some(b), Some(c), Some(d)) => Some(Geom { x: a, y: b, cx: c, cy: d }),
                _ => None,
            },
            _ => None,
        },
    }
}

/// A placeholder of a layout by its index or its type.
pub struct Place {
    pub key: Vec<char>,
    pub geom: Geom,
}

/// View of a [`Place`].
#[verifier::ext_equal]
pub struct PlaceV {
    pub key: Seq<char>,
    pub geom: Geom,
}

impl View for Place {
    type V = PlaceV;

    open spec fn view(&self) -> PlaceV {
        PlaceV { key: self.key@, geom: self.geom }
    }
}

/// Views of placeholders.
pub open spec fn places_view(v: Seq<Place>) -> Seq<PlaceV> {
    Seq::new(v.len(), |i: int| v[i]@)
}

/// The placeholder that was first to have a key.
pub open spec fn place_of(v: Seq<PlaceV>, i: int, key: Seq<char>) -> Option<Geom>
    decreases v.len() - i,
{
    if i >= v.len() {
        None
    } else if v[i].key == key {
        Some(v[i].geom)
    } else {
        place_of(v, i + 1, key)
    }
}

fn find_place(v: &Vec<Place>, key: &str) -> (r: Option<Geom>)
    ensures
        r == place_of(places_view(v@), 0, key@),
{
    let ghost w = places_view(v@);
    let k = chars_of(key);
    let mut i: usize = 0;
    while i < v.len()
        invariant
            i <= v@.len(),
            w == places_view(v@),
            k@ == key@,
            place_of(w, 0, key@) == place_of(w, i as int, key@),
        decreases v@.len() - i,
    {
        assert(w[i as int] == v@[i as int]@);
        if crate::text::same(&v[i].key, &k) {
            return Some(v[i].geom);
        }
        i += 1;
    }
    None
}

/// The placeholders that a slide's shapes take their place from.
pub struct PhMap {
    pub by_idx: Vec<Place>,
    pub by_type: Vec<Place>,
}

/// View of a [`PhMap`].
#[verifier::ext_equal]
pub struct PhMapV {
    pub by_idx: Seq<PlaceV>,
    pub by_type: Seq<PlaceV>,
}

impl View for PhMap {
    type V = PhMapV;

    open spec fn view(&self) -> PhMapV {
        PhMapV { by_idx: places_view(self.by_idx@), by_type: places_view(self.by_type@) }
    }
}

/// Placeholders with one added under a key, if there is one.
pub open spec fn with_place(v: Seq<PlaceV>, key: Option<Seq<char>>, geom: Geom) -> Seq<PlaceV> {
    match key {
        Some(k) => v.push(PlaceV { key: k, geom }),
        None => v,
    }
}

/// The placeholders with those of the shapes from `i` on.
pub open spec fn places_from(v: Seq<ElementV>, i: int, m: PhMapV) -> PhMapV
    decreases v.len() - i,
{
    if i >= v.len() {
        m
    } else {
        places_from(
            v,
            i + 1,
            match (within(v[i], "ph"@), own_geom(v[i])) {
                (Some(ph), Some(g)) => PhMapV {
                    by_idx: with_place(m.by_idx, attr_of(ph, "idx"@), g),
                    by_type: with_place(m.by_type, attr_of(ph, "type"@), g),
                },
                _ => m,
            },
        )
    }
}

/// The placeholders with those of a layout. Those that came before count
/// first.
pub open spec fn with_layout(root: ElementV, m: PhMapV) -> PhMapV {
    match within(root, "spTree"@) {
        Some(t) => places_from(kids_of(t, "sp"@), 0, m),
        None => m,
    }
}

proof fn known_places_stay(v: Seq<PlaceV>, i: int, key: Option<Seq<char>>, geom: Geom, k: Seq<char>)
    requires
        0 <= i,
        place_of(v, i, k) is Some,
    ensures
        place_of(with_place(v, key, geom), i, k) == place_of(v, i, k),
    decreases v.len() - i,
{
    if i < v.len() {
        assert(with_place(v, key, geom)[i] == v[i]);
        if v[i].key != k {
            known_places_stay(v, i + 1, key, geom, k);
        }
    }
}

proof fn shapes_keep_known_places(v: Seq<ElementV>, i: int, m: PhMapV, k: Seq<char>)
    ensures
        place_of(m.by_idx, 0, k) is Some ==> place_of(places_from(v, i, m).by_idx, 0, k)
            == place_of(m.by_idx, 0, k),
        place_of(m.by_type, 0, k) is Some ==> place_of(places_from(v, i, m).by_type, 0, k)
            == place_of(m.by_type, 0, k),
    decreases v.len() - i,
{
    if i < v.len() {
        match (within(v[i], "ph"@), own_geom(v[i])) {
            (Some(ph), Some(g)) => {
                let next = PhMapV {
                    by_idx: with_place(m.by_idx, attr_of(ph, "idx"@), g),
                    by_type: with_place(m.by_type, attr_of(ph, "type"@), g),
                };
                if place_of(m.by_idx, 0, k) is Some {
                    known_places_stay(m.by_idx, 0, attr_of(ph, "idx"@), g, k);
                }
                if place_of(m.by_type, 0, k) is Some {
                    known_places_stay(m.by_type, 0, attr_of(ph, "type"@), g, k);
                }
                shapes_keep_known_places(v, i + 1, next, k);
            },
            _ => shapes_keep_known_places(v, i + 1, m, k),
        }
    }
}

/// A place that a layout gives stays, whatever its master says.
pub proof fn layouts_win_over_masters(root: ElementV, m: PhMapV, k: Seq<char>)
    ensures
        place_of(m.by_idx, 0, k) is Some ==> place_of(with_layout(root, m).by_idx, 0, k)
            == place_of(m.by_idx, 0, k),
        place_of(m.by_type, 0, k) is Some ==> place_of(with_layout(root, m).by_type, 0, k)
            == place_of(m.by_type, 0, k),
{
    match within(root, "spTree"@) {
        Some(t) => shapes_keep_known_places(kids_of(t, "sp"@), 0, m, k),
        None => {},
    }
}

fn add_place(v: &mut Vec<Place>, key: Option<&str>, geom: Geom)
    ensures
        places_view(final(v)@) == with_place(places_view(old(v)@), opt_str(key), geom),
{
    match key {
        Some(k) => {
            let ghost before = v@;
            let p = Place { key: chars_of(k), geom };
            v.push(p);
            assert(places_view(v@) =~= places_view(before).push(p@));
        },
        None => {},
    }
}

/// Adds the placeholders of a layout.
pub fn collect_placeholders(root: &Element, m: &mut PhMap)
    ensures
        final(m)@ == with_layout(root@, old(m)@),
{
    let tree = match find_within(root, "spTree") {
        Some(t) => t,
        None => {
            return;
        },
    };
    let v = kids(tree, "sp");
    let ghost w = refs_view(v@);
    let ghost first = m@;
    let mut i: usize = 0;
    while i < v.len()
        invariant
            i <= v@.len(),
            w == refs_view(v@),
            places_from(w, 0, first) == places_from(w, i as int, m@),
        decreases v@.len() - i,
    {
        assert(w[i as int] == v@[i as int]@);
        match (find_within(v[i], "ph"), xfrm_geom(v[i])) {
            (Some(ph), Some(g)) => {
                add_place(&mut m.by_idx, attr(ph, "idx"), g);
                add_place(&mut m.by_type, attr(ph, "type"), g);
            },
            _ => {},
        }
        i += 1;
    }
}

/// Where a shape lies by the placeholder that it fills.
pub open spec fn inherited(e: ElementV, m: PhMapV) -> Option<Geom> {
    match within(e, "ph"@) {
        None => None,
        Some(ph) => {
            let a = match attr_of(ph, "idx"@) {
                Some(k) => place_of(m.by_idx, 0, k),
                None => None,
            };
            if a is Some {
                a
            } else {
                match attr_of(ph, "type"@) {
                    Some(k) => place_of(m.by_type, 0, k),
                    None => None,
                }
            }
        },
    }
}

/// Where a shape lies.
pub open spec fn geom_of(e: ElementV, m: PhMapV) -> Option<Geom> {
    match own_geom(e) {
        Some(g) => Some(g),
        None => inherited(e, m),
    }
}

/// Where a shape lies.
pub fn shape_geom(e: &Element, m: &PhMap) -> (r: Option<Geom>)
    ensures
        r == geom_of(e@, m@),
{
    match xfrm_geom(e) {
        Some(g) => {
            return Some(g);
        },
        None => {},
    }
    match find_within(e, "ph") {
        None => None,
        Some(ph) => {
            match attr(ph, "idx") {
                Some(k) => match find_place(&m.by_idx, k) {
                    Some(g) => {
                        return Some(g);
                    },
                    None => {},
                },
                None => {},
            }
            match attr(ph, "type") {
                Some(k) => find_place(&m.by_type, k),
                None => None,
            }
        },
    }
}

/// A length of a slide on the grid of locations, rounded to the nearest step,
/// up at a half.
pub open spec fn grid_step(v: int, dim: int) -> u16 {
    if dim == 0 {
        0
    } else {
        let a = if dim < 0 {
            -v
        } else {
            v
        };
        let d = if dim < 0 {
            -dim
        } else {
            dim
        };
        let n = (1024 * a + d) / (2 * d);
        if n < 0 {
            0
        } else if n > 511 {
            511
        } else {
            n as u16
        }
    }
}

fn to_step(v: i128, dim: i64) -> (r: u16)
    requires
        -0x8_0000_0000_0000_0000 <= v <= 0x8_0000_0000_0000_0000,
    ensures
        r == grid_step(v as int, dim as int),
{
    if dim == 0 {
        return 0;
    }
    let a: i128 = if dim < 0 {
        -v
    } else {
        v
    };
    let d: i128 = if dim < 0 {
        -(dim as i128)
    } else {
        dim as i128
    };
    let top: i128 = 1024 * a + d;
    if top < 0 {
        proof {
            assert((1024 * a as int + d as int) / (2 * d as int) < 0) by (nonlinear_arith)
                requires
                    1024 * a as int + (d as int) < 0,
                    d > 0,
            ;
        }
        return 0;
    }
    let n: i128 = top / (2 * d);
    proof {
        assert(n >= 0) by (nonlinear_arith)
            requires
                n == top as int / (2 * d as int),
                top >= 0,
                d > 0,
        ;
    }
    if n > 511 {
        511
    } else {
        n as u16
    }
}

/// The location of a shape on a slide of a size, from the bottom up; the
/// whole slide where it is not known where the shape lies.
pub open spec fn location_of(g: Option<Geom>, w: i64, h: i64) -> Location {
    let b = match g {
        Some(x) => x,
        None => Geom { x: 0, y: 0, cx: w, cy: h },
    };
    Location {
        left: grid_step(b.x as int, w as int),
        top: grid_step(h - (b.y + b.cy), h as int),
        right: grid_step(b.x + b.cx, w as int),
        bottom: grid_step(h - b.y, h as int),
    }
}

/// Every shape lies on the grid of locations.
pub proof fn shapes_lie_on_the_grid(g: Option<Geom>, w: i64, h: i64)
    ensures
        location_of(g, w, h).left <= 511,
        location_of(g, w, h).top <= 511,
        location_of(g, w, h).right <= 511,
        location_of(g, w, h).bottom <= 511,
{
}

/// The location of a shape.
pub fn shape_location(g: Option<Geom>, w: i64, h: i64) -> (r: Location)
    ensures
        r == location_of(g, w, h),
{
    let b = match g {
        Some(x) => x,
        None => Geom { x: 0, y: 0, cx: w, cy: h },
    };
    Location {
        left: to_step(b.x as i128, w),
        top: to_step(h as i128 - (b.y as i128 + b.cy as i128), h),
        right: to_step(b.x as i128 + b.cx as i128, w),
        bottom: to_step(h as i128 - b.y as i128, h),
    }
}

// ------------------------------------------------------------ reading order

/// A shape by its place among its siblings, and where it lies.
#[derive(Clone, Copy, Debug, PartialEq, Eq, Structural)]
pub struct Info {
    pub at: usize,
    pub top: i64,
    pub left: i64,
}

/// Whether a node is a shape.
pub open spec fn is_shape(t: TreeV) -> bool {
    match t {
        TreeV::Element(e) => e.tag == "sp"@ || e.tag == "grpSp"@ || e.tag == "pic"@ || e.tag
            == "graphicFrame"@,
        _ => false,
    }
}

/// What is known of a shape; one that lies nowhere counts as far away.
pub open spec fn info_of(t: TreeV, at: int, m: PhMapV) -> Info {
    match t {
        TreeV::Element(e) => match geom_of(e, m) {
            Some(g) => Info { at: at as usize, top: g.y, left: g.x },
            None => Info { at: at as usize, top: i64::MAX, left: i64::MAX },
        },
        _ => Info { at: at as usize, top: i64::MAX, left: i64::MAX },
    }
}

/// The shapes among the nodes from `i` on, added to `done`.
pub open spec fn infos_from(ch: Seq<TreeV>, i: int, m: PhMapV, done: Seq<Info>) -> Seq<Info>
    decreases ch.len() - i,
{
    if i >= ch.len() {
        done
    } else {
        infos_from(
            ch,
            i + 1,
            m,
            if is_shape(ch[i]) {
                done.push(info_of(ch[i], i, m))
            } else {
                done
            },
        )
    }
}

/// Whether a shape comes after another by its left edge.
pub open spec fn after_left(a: Info, b: Info) -> bool {
    a.left > b.left || (a.left == b.left && a.at > b.at)
}

/// Whether a shape comes after another by its top edge.
pub open spec fn after_top(a: Info, b: Info) -> bool {
    a.top > b.top || (a.top == b.top && a.at > b.at)
}

/// Whether a shape comes after another by its left edge, or by its top edge.
pub open spec fn after(a: Info, b: Info, by_left: bool) -> bool {
    if by_left {
        after_left(a, b)
    } else {
        after_top(a, b)
    }
}

/// The place from `i` on of the first shape that comes after another.
pub open spec fn slot(v: Seq<Info>, i: int, x: Info, by_left: bool) -> int
    decreases v.len() - i,
{
    if i >= v.len() || after(v[i], x, by_left) {
        i
    } else {
        slot(v, i + 1, x, by_left)
    }
}

/// Shapes in order with one added in its place.
pub open spec fn placed(v: Seq<Info>, x: Info, by_left: bool) -> Seq<Info> {
    v.insert(slot(v, 0, x, by_left), x)
}

/// The shapes from `i` on, added to `done` in order.
pub open spec fn ordered(v: Seq<Info>, i: int, by_left: bool, done: Seq<Info>) -> Seq<Info>
    decreases v.len() - i,
{
    if i >= v.len() {
        done
    } else {
        ordered(v, i + 1, by_left, placed(done, v[i], by_left))
    }
}

/// The shapes from `i` on in rows, added to `out`: a shape that lies more than
/// a tolerance below the one before begins a row, and a row is read from the
/// left. `row` holds the shapes of the row so far.
pub open spec fn rows_from(v: Seq<Info>, i: int, row: Seq<Info>, out: Seq<Info>) -> Seq<Info>
    decreases v.len() - i,
{
    if i >= v.len() {
        out + ordered(row, 0, true, seq![])
    } else if i > 0 && v[i].top - v[i - 1].top > 45720 {
        rows_from(v, i + 1, seq![v[i]], out + ordered(row, 0, true, seq![]))
    } else {
        rows_from(v, i + 1, row.push(v[i]), out)
    }
}

/// The shapes among nodes in the order in which they are read.
pub open spec fn visual_order(ch: Seq<TreeV>, m: PhMapV) -> Seq<Info> {
    rows_from(ordered(infos_from(ch, 0, m, seq![]), 0, false, seq![]), 0, seq![], seq![])
}

fn comes_after(a: Info, b: Info, by_left: bool) -> (r: bool)
    ensures
        r == after(a, b, by_left),
{
    if by_left {
        a.left > b.left || (a.left == b.left && a.at > b.at)
    } else {
        a.top > b.top || (a.top == b.top && a.at > b.at)
    }
}

fn add_placed(v: &mut Vec<Info>, x: Info, by_left: bool)
    ensures
        final(v)@ == placed(old(v)@, x, by_left),
{
    let ghost w = v@;
    let mut k: usize = 0;
    while k < v.len() && !comes_after(v[k], x, by_left)
        invariant
            k <= v@.len(),
            v@ == w,
            slot(w, 0, x, by_left) == slot(w, k as int, x, by_left),
        decreases v@.len() - k,
    {
        k += 1;
    }
    v.insert(k, x);
}

fn put_in_order(v: &Vec<Info>, by_left: bool) -> (r: Vec<Info>)
    ensures
        r@ == ordered(v@, 0, by_left, seq![]),
{
    let mut out: Vec<Info> = Vec::new();
    assert(out@ =~= seq![]);
    let mut i: usize = 0;
    while i < v.len()
        invariant
            i <= v@.len(),
            ordered(v@, 0, by_left, seq![]) == ordered(v@, i as int, by_left, out@),
        decreases v@.len() - i,
    {
        add_placed(&mut out, v[i], by_left);
        i += 1;
    }
    out
}

fn read_infos(ch: &Vec<Tree>, m: &PhMap) -> (r: Vec<Info>)
    ensures
        r@ == infos_from(trees_view(ch@), 0, m@, seq![]),
{
    let ghost v = trees_view(ch@);
    let mut out: Vec<Info> = Vec::new();
    assert(out@ =~= seq![]);
    let mut i: usize = 0;
    while i < ch.len()
        invariant
            i <= ch@.len(),
            v == trees_view(ch@),
            infos_from(v, 0, m@, seq![]) == infos_from(v, i as int, m@, out@),
        decreases ch@.len() - i,
    {
        assert(v[i as int] == tree_view(ch@[i as int]));
        match &ch[i] {
            Tree::Element(e) => {
                if has_tag(e, "sp") || has_tag(e, "grpSp") || has_tag(e, "pic") || has_tag(
                    e,
                    "graphicFrame",
                ) {
                    out.push(
                        match shape_geom(e, m) {
                            Some(g) => Info { at: i, top: g.y, left: g.x },
                            None => Info { at: i, top: i64::MAX, left: i64::MAX },
                        },
                    );
                }
            },
            _ => {},
        }
        i += 1;
    }
    out
}

/// The shapes among nodes in the order in which they are read.
pub fn shapes_by_position(ch: &Vec<Tree>, m: &PhMap) -> (r: Vec<Info>)
    ensures
        r@ == visual_order(trees_view(ch@), m@),
{
    let v = put_in_order(&read_infos(ch, m), false);
    let mut out: Vec<Info> = Vec::new();
    let mut row: Vec<Info> = Vec::new();
    assert(out@ =~= seq![]);
    assert(row@ =~= seq![]);
    let mut i: usize = 0;
    while i < v.len()
        invariant
            i <= v@.len(),
            rows_from(v@, 0, seq![], seq![]) == rows_from(v@, i as int, row@, out@),
        decreases v@.len() - i,
    {
        if i > 0 && v[i].top as i128 - v[i - 1].top as i128 > 45720 {
            let mut done = put_in_order(&row, true);
            out.append(&mut done);
            row = Vec::new();
            row.push(v[i]);
            assert(row@ =~= seq![v@[i as int]]);
        } else {
            row.push(v[i]);
        }
        i += 1;
    }
    let mut done = put_in_order(&row, true);
    out.append(&mut done);
    out
}

proof fn slot_bounds(v: Seq<Info>, i: int, x: Info, by_left: bool)
    requires
        0 <= i <= v.len(),
    ensures
        i <= slot(v, i, x, by_left) <= v.len(),
    decreases v.len() - i,
{
    if i < v.len() {
        slot_bounds(v, i + 1, x, by_left);
    }
}

proof fn ordered_keeps(v: Seq<Info>, i: int, by_left: bool, done: Seq<Info>)
    requires
        0 <= i <= v.len(),
    ensures
        ordered(v, i, by_left, done).to_multiset() == done.to_multiset().add(
            v.skip(i).to_multiset(),
        ),
    decreases v.len() - i,
{
    broadcast use group_to_multiset_ensures;

    if i < v.len() {
        let x = v[i];
        slot_bounds(done, 0, x, by_left);
        let next = placed(done, x, by_left);
        let k = slot(done, 0, x, by_left);
        assert(next.to_multiset() =~= done.to_multiset().insert(x)) by {
            vstd::seq_lib::to_multiset_insert(done, k, x);
        }
        ordered_keeps(v, i + 1, by_left, next);
        assert(v.skip(i) =~= seq![x] + v.skip(i + 1));
        lemma_multiset_commutative(seq![x], v.skip(i + 1));
        assert(seq![x].to_multiset() =~= Multiset::singleton(x)) by {
            assert(Seq::<Info>::empty().push(x) =~= seq![x]);
        }
        assert(ordered(v, i, by_left, done).to_multiset() =~= done.to_multiset().add(
            v.skip(i).to_multiset(),
        ));
    } else {
        assert(v.skip(i) =~= seq![]);
        assert(done.to_multiset().add(v.skip(i).to_multiset()) =~= done.to_multiset());
    }
}

proof fn rows_keep(v: Seq<Info>, i: int, row: Seq<Info>, out: Seq<Info>)
    requires
        0 <= i <= v.len(),
    ensures
        rows_from(v, i, row, out).to_multiset() == out.to_multiset().add(row.to_multiset()).add(
            v.skip(i).to_multiset(),
        ),
    decreases v.len() - i,
{
    broadcast use group_to_multiset_ensures;

    let done = ordered(row, 0, true, seq![]);
    ordered_keeps(row, 0, true, seq![]);
    assert(row.skip(0) =~= row);
    assert(done.to_multiset() =~= row.to_multiset());
    lemma_multiset_commutative(out, done);
    if i >= v.len() {
        assert(v.skip(i) =~= seq![]);
        assert(rows_from(v, i, row, out).to_multiset() =~= out.to_multiset().add(
            row.to_multiset(),
        ).add(v.skip(i).to_multiset()));
    } else {
        let x = v[i];
        assert(v.skip(i) =~= seq![x] + v.skip(i + 1));
        lemma_multiset_commutative(seq![x], v.skip(i + 1));
        assert(seq![x].to_multiset() =~= Multiset::singleton(x)) by {
            assert(Seq::<Info>::empty().push(x) =~= seq![x]);
        }
        if i > 0 && v[i].top - v[i - 1].top > 45720 {
            rows_keep(v, i + 1, seq![x], out + done);
            assert(rows_from(v, i, row, out) == rows_from(v, i + 1, seq![x], out + done));
        } else {
            rows_keep(v, i + 1, row.push(x), out);
            assert(rows_from(v, i, row, out) == rows_from(v, i + 1, row.push(x), out));
        }
        assert(rows_from(v, i, row, out).to_multiset() =~= out.to_multiset().add(
            row.to_multiset(),
        ).add(v.skip(i).to_multiset()));
    }
}

/// The reading order holds each shape once, and nothing else.
pub proof fn each_shape_is_read_once(ch: Seq<TreeV>, m: PhMapV)
    ensures
        visual_order(ch, m).to_multiset() == infos_from(ch, 0, m, seq![]).to_multiset(),
{
    broadcast use group_to_multiset_ensures;

    let infos = infos_from(ch, 0, m, seq![]);
    let v = ordered(infos, 0, false, seq![]);
    ordered_keeps(infos, 0, false, seq![]);
    assert(infos.skip(0) =~= infos);
    rows_keep(v, 0, seq![], seq![]);
    assert(v.skip(0) =~= v);
    assert(visual_order(ch, m).to_multiset() =~= infos.to_multiset());
}

/// Whether no shape comes after a later one.
pub open spec fn in_order(v: Seq<Info>, by_left: bool) -> bool {
    forall|i: int, j: int|
        0 <= i < j < v.len() ==> !(#[trigger] after(v[i], v[j], by_left))
}

proof fn slot_parts(v: Seq<Info>, i: int, x: Info, by_left: bool)
    requires
        0 <= i <= v.len(),
    ensures
        i <= slot(v, i, x, by_left) <= v.len(),
        forall|k: int|
            i <= k < slot(v, i, x, by_left) ==> !(#[trigger] after(v[k], x, by_left)),
        slot(v, i, x, by_left) < v.len() ==> after(v[slot(v, i, x, by_left)], x, by_left),
    decreases v.len() - i,
{
    if i < v.len() && !after(v[i], x, by_left) {
        slot_parts(v, i + 1, x, by_left);
    }
}

proof fn placing_keeps_order(v: Seq<Info>, x: Info, by_left: bool)
    requires
        in_order(v, by_left),
    ensures
        in_order(placed(v, x, by_left), by_left),
{
    let s = slot(v, 0, x, by_left);
    let w = placed(v, x, by_left);
    slot_parts(v, 0, x, by_left);
    assert forall|i: int, j: int| 0 <= i < j < w.len() implies !(#[trigger] after(w[i], w[j], by_left)) by {
        let a = if i < s {
            i
        } else {
            i - 1
        };
        let b = if j < s {
            j
        } else {
            j - 1
        };
        if i != s && j != s {
            assert(w[i] == v[a] && w[j] == v[b]);
            assert(!after(v[a], v[b], by_left));
        } else if j == s {
            assert(w[i] == v[i] && w[j] == x);
            assert(!after(v[i], x, by_left));
        } else {
            assert(w[i] == x && w[j] == v[b]);
            if b > s {
                assert(!after(v[s], v[b], by_left));
            }
        }
    }
}

proof fn ordered_is_in_order(v: Seq<Info>, i: int, by_left: bool, done: Seq<Info>)
    requires
        0 <= i <= v.len(),
        in_order(done, by_left),
    ensures
        in_order(ordered(v, i, by_left, done), by_left),
    decreases v.len() - i,
{
    if i < v.len() {
        placing_keeps_order(done, v[i], by_left);
        ordered_is_in_order(v, i + 1, by_left, placed(done, v[i], by_left));
    }
}

/// Whether the top edges of all shapes lie in a range.
pub open spec fn tops_within(v: Seq<Info>, lo: int, hi: int) -> bool {
    forall|k: int| 0 <= k < v.len() ==> lo <= (#[trigger] v[k]).top <= hi
}

proof fn ordered_within(v: Seq<Info>, i: int, by_left: bool, done: Seq<Info>, lo: int, hi: int)
    requires
        0 <= i <= v.len(),
        tops_within(done, lo, hi),
        tops_within(v, lo, hi),
    ensures
        tops_within(ordered(v, i, by_left, done), lo, hi),
    decreases v.len() - i,
{
    if i < v.len() {
        let s = slot(done, 0, v[i], by_left);
        let next = placed(done, v[i], by_left);
        slot_bounds(done, 0, v[i], by_left);
        assert forall|k: int| 0 <= k < next.len() implies lo <= (#[trigger] next[k]).top <= hi by {
            if k < s {
                assert(next[k] == done[k]);
            } else if k > s {
                assert(next[k] == done[k - 1]);
            }
        }
        ordered_within(v, i + 1, by_left, next, lo, hi);
    }
}

/// Whether each shape lies no lower than those after it, or no further right.
pub open spec fn reads_on(v: Seq<Info>) -> bool {
    forall|i: int, j: int|
        0 <= i < j < v.len() ==> (#[trigger] v[i]).top <= (#[trigger] v[j]).top || v[i].left
            <= v[j].left
}

proof fn a_row_is_read_behind(out: Seq<Info>, row: Seq<Info>, lo: int, hi: int)
    requires
        reads_on(out),
        tops_within(out, i64::MIN as int, lo),
        tops_within(row, lo, hi),
        lo <= hi,
    ensures
        reads_on(out + ordered(row, 0, true, seq![])),
        tops_within(out + ordered(row, 0, true, seq![]), i64::MIN as int, hi),
{
    let done = ordered(row, 0, true, seq![]);
    let all = out + done;
    ordered_is_in_order(row, 0, true, seq![]);
    ordered_within(row, 0, true, seq![], lo, hi);
    assert forall|i: int, j: int| 0 <= i < j < all.len() implies (#[trigger] all[i]).top <= (
    #[trigger] all[j]).top || all[i].left <= all[j].left by {
        let n = out.len() as int;
        if i >= n {
            assert(!after(done[i - n], done[j - n], true));
        } else if j >= n {
            assert(all[i] == out[i] && all[j] == done[j - n]);
        } else {
            assert(all[i] == out[i] && all[j] == out[j]);
        }
    }
    assert forall|k: int| 0 <= k < all.len() implies i64::MIN <= (#[trigger] all[k]).top <= hi by {
        if k < out.len() {
            assert(all[k] == out[k]);
        } else {
            assert(all[k] == done[k - out.len()]);
        }
    }
}

proof fn rows_read_on(v: Seq<Info>, i: int, row: Seq<Info>, out: Seq<Info>)
    requires
        0 <= i <= v.len(),
        in_order(v, false),
        reads_on(out),
        i == 0 ==> row.len() == 0 && out.len() == 0,
        i > 0 ==> row.len() > 0 && tops_within(out, i64::MIN as int, row[0].top as int)
            && tops_within(row, row[0].top as int, v[i - 1].top as int),
    ensures
        reads_on(rows_from(v, i, row, out)),
    decreases v.len() - i,
{
    if i > 0 {
        assert(row[0].top <= row[0].top <= v[i - 1].top);
        a_row_is_read_behind(out, row, row[0].top as int, v[i - 1].top as int);
    } else {
        assert(out + ordered(row, 0, true, seq![]) =~= seq![]);
    }
    if i < v.len() {
        if i > 0 {
            assert(!after(v[i - 1], v[i], false));
        }
        if i > 0 && v[i].top - v[i - 1].top > 45720 {
            rows_read_on(v, i + 1, seq![v[i]], out + ordered(row, 0, true, seq![]));
        } else {
            let next = row.push(v[i]);
            assert(next[0] == if i > 0 {
                row[0]
            } else {
                v[i]
            });
            rows_read_on(v, i + 1, next, out);
        }
    }
}

/// Shapes are read from the top down, and from the left in a row: one that is
/// read before another lies no lower, or no further right.
pub proof fn the_order_reads_on(ch: Seq<TreeV>, m: PhMapV)
    ensures
        reads_on(visual_order(ch, m)),
{
    let infos = infos_from(ch, 0, m, seq![]);
    ordered_is_in_order(infos, 0, false, seq![]);
    rows_read_on(ordered(infos, 0, false, seq![]), 0, seq![], seq![]);
}

/// Whether a shape lies nowhere.
pub open spec fn lies_nowhere(x: Info) -> bool {
    x.top == i64::MAX
}

/// Whether no shape that lies somewhere lies so far down that one that lies
/// nowhere could stand in its row.
pub open spec fn told_apart(v: Seq<Info>) -> bool {
    forall|k: int|
        0 <= k < v.len() ==> (#[trigger] v[k]).top < i64::MAX - 45720 || (v[k].top == i64::MAX
            && v[k].left == i64::MAX)
}

proof fn ordered_told_apart(v: Seq<Info>, i: int, by_left: bool, done: Seq<Info>)
    requires
        0 <= i <= v.len(),
        told_apart(done),
        told_apart(v),
    ensures
        told_apart(ordered(v, i, by_left, done)),
    decreases v.len() - i,
{
    if i < v.len() {
        let s = slot(done, 0, v[i], by_left);
        let next = placed(done, v[i], by_left);
        slot_bounds(done, 0, v[i], by_left);
        assert forall|k: int| 0 <= k < next.len() implies (#[trigger] next[k]).top < i64::MAX
            - 45720 || (next[k].top == i64::MAX && next[k].left == i64::MAX) by {
            if k < s {
                assert(next[k] == done[k]);
            } else if k > s {
                assert(next[k] == done[k - 1]);
            }
        }
        ordered_told_apart(v, i + 1, by_left, next);
    }
}

/// Whether the shapes that lie nowhere come last, in the order of their
/// siblings.
pub open spec fn nowhere_last(v: Seq<Info>) -> bool {
    forall|i: int, j: int|
        0 <= i < j < v.len() && lies_nowhere(#[trigger] v[i]) ==> lies_nowhere(#[trigger] v[j])
            && v[i].at <= v[j].at
}

proof fn rows_end_nowhere(v: Seq<Info>, i: int, row: Seq<Info>, out: Seq<Info>)
    requires
        0 <= i <= v.len(),
        in_order(v, false),
        told_apart(v),
        told_apart(row),
        tops_within(out, i64::MIN as int, i64::MAX - 1),
        i == 0 ==> row.len() == 0,
        i > 0 ==> if lies_nowhere(v[i - 1]) {
            tops_within(row, i64::MAX as int, i64::MAX as int)
        } else {
            tops_within(row, i64::MIN as int, i64::MAX - 1)
        },
    ensures
        nowhere_last(rows_from(v, i, row, out)),
    decreases v.len() - i,
{
    let done = ordered(row, 0, true, seq![]);
    let all = out + done;
    ordered_is_in_order(row, 0, true, seq![]);
    ordered_told_apart(row, 0, true, seq![]);
    let bare = i > 0 && lies_nowhere(v[i - 1]);
    if bare {
        ordered_within(row, 0, true, seq![], i64::MAX as int, i64::MAX as int);
    } else {
        ordered_within(row, 0, true, seq![], i64::MIN as int, i64::MAX - 1);
    }
    if i >= v.len() {
        assert forall|a: int, b: int|
            0 <= a < b < all.len() && lies_nowhere(#[trigger] all[a]) implies lies_nowhere(
            #[trigger] all[b],
        ) && all[a].at <= all[b].at by {
            let n = out.len() as int;
            if a < n {
                assert(all[a] == out[a]);
            } else {
                assert(all[a] == done[a - n] && all[b] == done[b - n]);
                assert(!after(done[a - n], done[b - n], true));
            }
        }
    } else {
        if i > 0 {
            assert(!after(v[i - 1], v[i], false));
        }
        if i > 0 && v[i].top - v[i - 1].top > 45720 {
            assert forall|k: int| 0 <= k < all.len() implies i64::MIN <= (#[trigger] all[k]).top
                <= i64::MAX - 1 by {
                if k < out.len() {
                    assert(all[k] == out[k]);
                } else {
                    assert(all[k] == done[k - out.len()]);
                }
            }
            rows_end_nowhere(v, i + 1, seq![v[i]], all);
        } else {
            rows_end_nowhere(v, i + 1, row.push(v[i]), out);
        }
    }
}

/// Shapes that lie nowhere are read last, in the order of their siblings,
/// where no other shape lies as far down as one can.
pub proof fn shapes_that_lie_nowhere_come_last(ch: Seq<TreeV>, m: PhMapV)
    requires
        told_apart(infos_from(ch, 0, m, seq![])),
    ensures
        nowhere_last(visual_order(ch, m)),
{
    let infos = infos_from(ch, 0, m, seq![]);
    ordered_is_in_order(infos, 0, false, seq![]);
    ordered_told_apart(infos, 0, false, seq![]);
    rows_end_nowhere(ordered(infos, 0, false, seq![]), 0, seq![], seq![]);
}

// ------------------------------------------------------------ texts

/// The text of a paragraph's children from `i` on, added to `out`. `gap`
/// stands for a line break.
pub open spec fn text_from(v: Seq<ElementV>, i: int, gap: char, out: Seq<char>) -> Seq<char>
    decreases v.len() - i,
{
    if i >= v.len() {
        out
    } else {
        text_from(
            v,
            i + 1,
            gap,
            if v[i].tag == "r"@ || v[i].tag == "fld"@ {
                match child_of(v[i], "t"@) {
                    Some(t) => out + or_empty(head(t)),
                    None => out,
                }
            } else if v[i].tag == "br"@ {
                out.push(gap)
            } else {
                out
            },
        )
    }
}

/// The text of a paragraph.
pub open spec fn text_of_para(p: ElementV, gap: char) -> Seq<char> {
    text_from(child_elements_of(p), 0, gap, seq![])
}

/// The text of a paragraph.
pub fn paragraph_text(p: &Element, gap: char) -> (r: Vec<char>)
    ensures
        r@ == text_of_para(p@, gap),
{
    let v = child_elements(p);
    let ghost w = refs_view(v@);
    let mut out: Vec<char> = Vec::new();
    assert(out@ =~= seq![]);
    let mut i: usize = 0;
    while i < v.len()
        invariant
            i <= v@.len(),
            w == refs_view(v@),
            text_from(w, 0, gap, seq![]) == text_from(w, i as int, gap, out@),
        decreases v@.len() - i,
    {
        assert(w[i as int] == v@[i as int]@);
        if has_tag(v[i], "r") || has_tag(v[i], "fld") {
            match child(v[i], "t") {
                Some(t) => {
                    crate::text::push_all(&mut out, &chars_or_empty(head_of(t)));
                },
                None => {},
            }
        } else if has_tag(v[i], "br") {
            out.push(gap);
        }
        i += 1;
    }
    out
}

/// The texts of the paragraphs from `i` on, added to `done`.
pub open spec fn para_texts(v: Seq<ElementV>, i: int, gap: char, done: Seq<Seq<char>>) -> Seq<
    Seq<char>,
>
    decreases v.len() - i,
{
    if i >= v.len() {
        done
    } else {
        para_texts(v, i + 1, gap, done.push(text_of_para(v[i], gap)))
    }
}

/// The text of a body: its paragraphs on lines of their own, without the
/// white space around them.
pub open spec fn body_text(tx: ElementV, gap: char) -> Seq<char> {
    strip(joined(para_texts(kids_of(tx, "p"@), 0, gap, seq![]), "\n"@))
}

/// The text of a body.
pub fn text_of_body(tx: &Element, gap: char) -> (r: Vec<char>)
    ensures
        r@ == body_text(tx@, gap),
{
    let v = kids(tx, "p");
    let ghost w = refs_view(v@);
    let mut out: Vec<Vec<char>> = Vec::new();
    assert(texts(out@) =~= seq![]);
    let mut i: usize = 0;
    while i < v.len()
        invariant
            i <= v@.len(),
            w == refs_view(v@),
            para_texts(w, 0, gap, seq![]) == para_texts(w, i as int, gap, texts(out@)),
        decreases v@.len() - i,
    {
        broadcast use texts_push;

        assert(w[i as int] == v@[i as int]@);
        out.push(paragraph_text(v[i], gap));
        i += 1;
    }
    trim(&join(&out, "\n"))
}

// ------------------------------------------------------------ lists

/// What a shape is by its placeholder.
#[derive(Clone, Copy, Debug, PartialEq, Eq, Structural)]
pub enum Placeholder {
    Title,
    Subtitle,
    Body,
    TextBox,
}

/// What a shape is by its placeholder.
pub open spec fn kind_of(sp: ElementV) -> Placeholder {
    match within(sp, "ph"@) {
        None => Placeholder::TextBox,
        Some(ph) => {
            let t = attr_of(ph, "type"@);
            if t == Some("title"@) || t == Some("ctrTitle"@) {
                Placeholder::Title
            } else if t == Some("subTitle"@) {
                Placeholder::Subtitle
            } else {
                Placeholder::Body
            }
        },
    }
}

/// What a shape is by its placeholder.
pub fn placeholder_kind(sp: &Element) -> (r: Placeholder)
    ensures
        r == kind_of(sp@),
{
    match find_within(sp, "ph") {
        None => Placeholder::TextBox,
        Some(ph) => match attr(ph, "type") {
            Some(t) => if str_eq(t, "title") || str_eq(t, "ctrTitle") {
                Placeholder::Title
            } else if str_eq(t, "subTitle") {
                Placeholder::Subtitle
            } else {
                Placeholder::Body
            },
            None => Placeholder::Body,
        },
    }
}

/// The marker that properties declare: none declared, none at all, a number
/// or a bullet.
pub open spec fn declared(pr: ElementV) -> Option<Option<bool>> {
    if child_of(pr, "buNone"@) is Some {
        Some(None)
    } else if child_of(pr, "buAutoNum"@) is Some {
        Some(Some(true))
    } else if child_of(pr, "buChar"@) is Some || child_of(pr, "buBlip"@) is Some {
        Some(Some(false))
    } else {
        None
    }
}

fn declared_marker(pr: &Element) -> (r: Option<Option<bool>>)
    ensures
        r == declared(pr@),
{
    if child(pr, "buNone").is_some() {
        Some(None)
    } else if child(pr, "buAutoNum").is_some() {
        Some(Some(true))
    } else if child(pr, "buChar").is_some() || child(pr, "buBlip").is_some() {
        Some(Some(false))
    } else {
        None
    }
}

/// The level of a paragraph.
pub open spec fn level(p: ElementV) -> int {
    match child_of(p, "pPr"@) {
        Some(pr) => match attr_of(pr, "lvl"@) {
            Some(v) => match uint(v, usize::MAX as int) {
                Some(n) => n,
                None => 0,
            },
            None => 0,
        },
        None => 0,
    }
}

fn paragraph_level(p: &Element) -> (r: usize)
    ensures
        r == level(p@),
{
    match child(p, "pPr") {
        Some(pr) => match attr(pr, "lvl") {
            Some(v) => {
                let t = chars_of(v);
                match parse_uint(&t, usize::MAX as u128) {
                    Some(n) => {
                        proof {
                            uint_is_positive(t@, usize::MAX as int);
                        }
                        n as usize
                    },
                    None => 0,
                }
            },
            None => 0,
        },
        None => 0,
    }
}

/// The name of the properties of a level.
pub open spec fn level_tag(n: int) -> Seq<char> {
    "lvl"@ + decimal(n + 1) + "pPr"@
}

/// The marker that a shape's list style declares for a level.
pub open spec fn style_marker(tx: Option<ElementV>, n: int) -> Option<Option<bool>> {
    match tx {
        Some(b) => match child_of(b, "lstStyle"@) {
            Some(st) => match child_of(st, level_tag(n)) {
                Some(pr) => declared(pr),
                None => None,
            },
            None => None,
        },
        None => None,
    }
}

/// Whether a paragraph is an item of a list: none, or whether it has a
/// number. Its own properties come before the shape's list style, and this
/// before what its placeholder and its level say.
pub open spec fn item_kind(p: ElementV, tx: Option<ElementV>, placeholder: Placeholder) -> Option<bool> {
    let own = match child_of(p, "pPr"@) {
        Some(pr) => declared(pr),
        None => None,
    };
    if own is Some {
        own->0
    } else {
        match style_marker(tx, level(p)) {
            Some(k) => k,
            None => if placeholder == Placeholder::Body || level(p) > 0 {
                Some(false)
            } else {
                None
            },
        }
    }
}

/// Whether a paragraph is an item of a list: none, or whether it has a
/// number.
pub fn list_kind(p: &Element, tx: Option<&Element>, placeholder: Placeholder) -> (r: Option<bool>)
    ensures
        r == item_kind(p@, ref_view(tx), placeholder),
{
    let n = paragraph_level(p);
    match child(p, "pPr") {
        Some(pr) => match declared_marker(pr) {
            Some(k) => {
                return k;
            },
            None => {},
        },
        None => {},
    }
    match tx {
        Some(b) => match child(b, "lstStyle") {
            Some(st) => {
                let mut tag = chars_of("lvl");
                let mut d: Vec<char> = Vec::new();
                push_decimal(&mut d, n as u128 + 1);
                assert(d@ =~= decimal(n + 1));
                crate::text::push_all(&mut tag, &d);
                push_str(&mut tag, "pPr");
                match child(st, string_of(&tag).as_str()) {
                    Some(pr) => match declared_marker(pr) {
                        Some(k) => {
                            return k;
                        },
                        None => {},
                    },
                    None => {},
                }
            },
            None => {},
        },
        None => {},
    }
    if placeholder == Placeholder::Body || n > 0 {
        Some(false)
    } else {
        None
    }
}

// ------------------------------------------------------------ tables

/// The grids of a table: its texts, and which cells go on with the one to the
/// left or above.
#[verifier::ext_equal]
pub struct GridsV {
    pub text: Seq<Seq<Seq<char>>>,
    pub across: Seq<Seq<bool>>,
    pub down: Seq<Seq<bool>>,
}

/// How many rows or columns a cell takes.
pub open spec fn span(tc: ElementV, name: Seq<char>) -> int {
    match attr_of(tc, name) {
        Some(v) => match uint(v, usize::MAX as int) {
            Some(n) => n,
            None => 1,
        },
        None => 1,
    }
}

/// The text of a cell.
pub open spec fn cell_text(tc: ElementV) -> Seq<char> {
    match within(tc, "txBody"@) {
        Some(tx) => body_text(tx, ' '),
        None => seq![],
    }
}

/// The grids with the cells of a row from a column on.
pub open spec fn cells_from(v: Seq<ElementV>, r: int, c: int, g: GridsV) -> GridsV
    decreases v.len() - c,
{
    if c < 0 || c >= v.len() {
        g
    } else {
        let h = attr_of(v[c], "hMerge"@) is Some;
        let d = attr_of(v[c], "vMerge"@) is Some;
        cells_from(
            v,
            r,
            c + 1,
            GridsV {
                across: filled(g.across, r, r + 1, c, c + 1, h),
                down: filled(g.down, r, r + 1, c, c + 1, d),
                text: if h || d {
                    g.text
                } else {
                    filled(
                        g.text,
                        r,
                        r + span(v[c], "rowSpan"@),
                        c,
                        c + span(v[c], "gridSpan"@),
                        cell_text(v[c]),
                    )
                },
            },
        )
    }
}

/// The grids with the rows from `r` on.
pub open spec fn table_rows(v: Seq<ElementV>, r: int, g: GridsV) -> GridsV
    decreases v.len() - r,
{
    if r < 0 || r >= v.len() {
        g
    } else {
        table_rows(v, r + 1, cells_from(kids_of(v[r], "tc"@), r, 0, g))
    }
}

/// The most cells of a row from `i` on, or `n`.
pub open spec fn widest(v: Seq<ElementV>, i: int, n: int) -> int
    decreases v.len() - i,
{
    if i >= v.len() {
        n
    } else {
        widest(
            v,
            i + 1,
            if kids_of(v[i], "tc"@).len() > n {
                kids_of(v[i], "tc"@).len() as int
            } else {
                n
            },
        )
    }
}

/// Whether the first row of a table is a header.
pub open spec fn has_header(tbl: ElementV) -> bool {
    match within(tbl, "tblPr"@) {
        Some(p) => attr_of(p, "firstRow"@) == Some("1"@) || attr_of(p, "firstRow"@)
            == Some("true"@),
        None => false,
    }
}

/// The table of an element; none without cells.
pub open spec fn table_of(tbl: ElementV) -> Option<TableV> {
    let v = kids_of(tbl, "tr"@);
    let rows = v.len() as int;
    let cols = widest(v, 0, 0);
    if cols == 0 {
        None
    } else {
        let g = table_rows(
            v,
            0,
            GridsV {
                text: blank(rows, cols, Seq::<char>::empty()),
                across: blank(rows, cols, false),
                down: blank(rows, cols, false),
            },
        );
        Some(
            TableV {
                rows: g.text,
                structure: Some(
                    TableStructureV {
                        header_row: Seq::new(rows as nat, |i: int| has_header(tbl) && i == 0),
                        col_header: seq![],
                        row_header: seq![],
                        col_continuation: g.across,
                        row_continuation: g.down,
                    },
                ),
                cell_blocks: None,
                caption: None,
                caption_parent: CaptionParent::Body,
            },
        )
    }
}

proof fn cells_keep_the_shape(v: Seq<ElementV>, r: int, c: int, g: GridsV, rows: int, cols: int)
    requires
        0 <= c,
        has_shape(g.text, rows, cols),
        has_shape(g.across, rows, cols),
        has_shape(g.down, rows, cols),
    ensures
        has_shape(cells_from(v, r, c, g).text, rows, cols),
        has_shape(cells_from(v, r, c, g).across, rows, cols),
        has_shape(cells_from(v, r, c, g).down, rows, cols),
    decreases v.len() - c,
{
    broadcast use filled_keeps_shape;

    if c < v.len() {
        let h = attr_of(v[c], "hMerge"@) is Some;
        let d = attr_of(v[c], "vMerge"@) is Some;
        let next = GridsV {
            across: filled(g.across, r, r + 1, c, c + 1, h),
            down: filled(g.down, r, r + 1, c, c + 1, d),
            text: if h || d {
                g.text
            } else {
                filled(
                    g.text,
                    r,
                    r + span(v[c], "rowSpan"@),
                    c,
                    c + span(v[c], "gridSpan"@),
                    cell_text(v[c]),
                )
            },
        };
        cells_keep_the_shape(v, r, c + 1, next, rows, cols);
    }
}

proof fn rows_keep_the_shape(v: Seq<ElementV>, r: int, g: GridsV, rows: int, cols: int)
    requires
        0 <= r,
        has_shape(g.text, rows, cols),
        has_shape(g.across, rows, cols),
        has_shape(g.down, rows, cols),
    ensures
        has_shape(table_rows(v, r, g).text, rows, cols),
        has_shape(table_rows(v, r, g).across, rows, cols),
        has_shape(table_rows(v, r, g).down, rows, cols),
    decreases v.len() - r,
{
    if r < v.len() {
        cells_keep_the_shape(kids_of(v[r], "tc"@), r, 0, g, rows, cols);
        rows_keep_the_shape(v, r + 1, cells_from(kids_of(v[r], "tc"@), r, 0, g), rows, cols);
    }
}

proof fn widest_is_a_width(v: Seq<ElementV>, i: int, n: int)
    requires
        0 <= n,
    ensures
        0 <= widest(v, i, n),
    decreases v.len() - i,
{
    if i < v.len() {
        let m = kids_of(v[i], "tc"@).len() as int;
        widest_is_a_width(
            v,
            i + 1,
            if m > n {
                m
            } else {
                n
            },
        );
    }
}

/// Each row of a slide's table is as wide as its widest row, and so are the
/// flags of its spans.
pub proof fn slide_tables_are_full(tbl: ElementV)
    ensures
        table_of(tbl) matches Some(t) ==> {
            let rows = kids_of(tbl, "tr"@).len() as int;
            let cols = widest(kids_of(tbl, "tr"@), 0, 0);
            &&& has_shape(t.rows, rows, cols)
            &&& has_shape(t.structure->0.col_continuation, rows, cols)
            &&& has_shape(t.structure->0.row_continuation, rows, cols)
        },
{
    broadcast use blank_has_shape;

    let v = kids_of(tbl, "tr"@);
    let rows = v.len() as int;
    let cols = widest(v, 0, 0);
    widest_is_a_width(v, 0, 0);
    rows_keep_the_shape(
        v,
        0,
        GridsV {
            text: blank(rows, cols, Seq::<char>::empty()),
            across: blank(rows, cols, false),
            down: blank(rows, cols, false),
        },
        rows,
        cols,
    );
}

struct Grids {
    text: Vec<Vec<Vec<char>>>,
    across: Vec<Vec<bool>>,
    down: Vec<Vec<bool>>,
}

impl Grids {
    spec fn see(&self) -> GridsV {
        GridsV { text: cells(self.text@), across: flags(self.across@), down: flags(self.down@) }
    }
}

fn read_span(tc: &Element, name: &str) -> (r: usize)
    ensures
        r == span(tc@, name@),
{
    match attr(tc, name) {
        Some(v) => {
            let t = chars_of(v);
            match parse_uint(&t, usize::MAX as u128) {
                Some(n) => {
                    proof {
                        uint_is_positive(t@, usize::MAX as int);
                    }
                    n as usize
                },
                None => 1,
            }
        },
        None => 1,
    }
}

fn text_of_cell(tc: &Element) -> (r: Vec<char>)
    ensures
        r@ == cell_text(tc@),
{
    match find_within(tc, "txBody") {
        Some(tx) => text_of_body(tx, ' '),
        None => {
            let none: Vec<char> = Vec::new();
            assert(none@ =~= seq![]);
            none
        },
    }
}

/// The end of a span, as far as a grid can reach.
fn end_of(at: usize, n: usize) -> (r: usize)
    ensures
        r == at + n || (at + n > usize::MAX && r == usize::MAX),
{
    if n > usize::MAX - at {
        usize::MAX
    } else {
        at + n
    }
}

proof fn filled_beyond(g: Seq<Seq<Seq<char>>>, r0: int, r1: int, r2: int, c0: int, c1: int, c2: int, v: Seq<char>)
    requires
        r1 == r2 || (r1 >= g.len() && r2 >= g.len()),
        c1 == c2 || (forall|i: int|
            0 <= i < g.len() ==> c1 >= (#[trigger] g[i]).len() && c2 >= g[i].len()),
    ensures
        filled(g, r0, r1, c0, c1, v) == filled(g, r0, r2, c0, c2, v),
{
    let a = filled(g, r0, r1, c0, c1, v);
    let b = filled(g, r0, r2, c0, c2, v);
    assert forall|i: int| 0 <= i < g.len() implies a[i] == #[trigger] b[i] by {
        assert(g[i].len() >= 0);
        assert(a[i] =~= b[i]);
    }
    assert(a =~= b);
}

fn add_cells(row: &Element, r: usize, g: &mut Grids)
    requires
        r < usize::MAX,
    ensures
        final(g).see() == cells_from(kids_of(row@, "tc"@), r as int, 0, old(g).see()),
{
    let v = kids(row, "tc");
    let ghost w = refs_view(v@);
    let ghost first = g.see();
    let mut c: usize = 0;
    while c < v.len()
        invariant
            c <= v@.len(),
            r < usize::MAX,
            w == refs_view(v@),
            cells_from(w, r as int, 0, first) == cells_from(w, r as int, c as int, g.see()),
        decreases v@.len() - c,
    {
        assert(w[c as int] == v@[c as int]@);
        let tc = v[c];
        let h = attr(tc, "hMerge").is_some();
        let d = attr(tc, "vMerge").is_some();
        fill_flags(&mut g.across, r, r + 1, c, c + 1, h);
        fill_flags(&mut g.down, r, r + 1, c, c + 1, d);
        if !h && !d {
            let rs = read_span(tc, "rowSpan");
            let cs = read_span(tc, "gridSpan");
            let r1 = end_of(r, rs);
            let c1 = end_of(c, cs);
            let text = text_of_cell(tc);
            let ghost t = cells(g.text@);
            let rows: usize = g.text.len();
            assert forall|i: int| 0 <= i < t.len() implies (#[trigger] t[i]).len() <= usize::MAX by {
                assert(t[i].len() == g.text@[i]@.len());
                vec_len_fits(&g.text@[i]);
            }
            fill_cells(&mut g.text, r, r1, c, c1, &text);
            proof {
                filled_beyond(
                    t,
                    r as int,
                    r1 as int,
                    r + rs,
                    c as int,
                    c1 as int,
                    c + cs,
                    text@,
                );
            }
        }
        c += 1;
    }
}

proof fn vec_len_fits(v: &Vec<Vec<char>>)
    ensures
        v@.len() <= usize::MAX,
{
    assert(v.len() == v@.len());
}

/// The table of an element.
pub fn parse_table(tbl: &Element) -> (r: Option<Table>)
    ensures
        match table_of(tbl@) {
            Some(t) => r matches Some(x) && table_view(x) == t,
            None => r is None,
        },
{
    let v = kids(tbl, "tr");
    let ghost w = refs_view(v@);
    let rows: usize = v.len();
    let mut cols: usize = 0;
    let mut i: usize = 0;
    while i < v.len()
        invariant
            i <= v@.len(),
            w == refs_view(v@),
            widest(w, 0, 0) == widest(w, i as int, cols as int),
        decreases v@.len() - i,
    {
        assert(w[i as int] == v@[i as int]@);
        let k = kids(v[i], "tc");
        assert(refs_view(k@).len() == k@.len());
        if k.len() > cols {
            cols = k.len();
        }
        i += 1;
    }
    if cols == 0 {
        return None;
    }
    let mut g = Grids {
        text: blank_cells(rows, cols),
        across: blank_flags(rows, cols),
        down: blank_flags(rows, cols),
    };
    let ghost first = g.see();
    let mut r: usize = 0;
    while r < v.len()
        invariant
            r <= v@.len(),
            rows == v@.len(),
            w == refs_view(v@),
            table_rows(w, 0, first) == table_rows(w, r as int, g.see()),
        decreases v@.len() - r,
    {
        assert(w[r as int] == v@[r as int]@);
        add_cells(v[r], r, &mut g);
        r += 1;
    }
    let header = match find_within(tbl, "tblPr") {
        Some(p) => match attr(p, "firstRow") {
            Some(s) => str_eq(s, "1") || str_eq(s, "true"),
            None => false,
        },
        None => false,
    };
    let mut header_row: Vec<bool> = Vec::new();
    while header_row.len() < rows
        invariant
            header_row@.len() <= rows,
            header == has_header(tbl@),
            forall|k: int|
                0 <= k < header_row@.len() ==> #[trigger] header_row@[k] == (has_header(tbl@) && k
                    == 0),
        decreases rows - header_row@.len(),
    {
        header_row.push(header && header_row.len() == 0);
    }
    assert(header_row@ =~= Seq::new(rows as nat, |k: int| has_header(tbl@) && k == 0));
    let t = Table {
        rows: string_grid(&g.text),
        structure: Some(
            TableStructure {
                header_row,
                col_header: Vec::new(),
                row_header: Vec::new(),
                col_continuation: g.across,
                row_continuation: g.down,
            },
        ),
        cell_blocks: None,
        caption: None,
        caption_parent: CaptionParent::Body,
    };
    assert(table_view(t) =~= table_of(tbl@)->0);
    Some(t)
}

} // verus!
