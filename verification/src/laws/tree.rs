//! Laws of the trees of elements: how attributes, children and texts are
//! found, and how a list of items becomes a tree.

use crate::tree::{
    all_text, attr_from, attr_of, child_elements_from, child_elements_of, child_from, child_of,
    either_from, either_kids_from, either_kids_of, either_of, elements_from, first_tagged, forest,
    forest_end, head, kids_from, kids_of, pieces, pieces_from, plain_attr_from, plain_attr_of,
    root_of, self_and_under, spaced_attr_from, spaced_attr_of, tagged_from, tail, text_from, under,
    AttrV, ElementV, ItemV, Kind, TreeV,
};
use vstd::prelude::*;

verus! {

/// `e` with other children.
pub open spec fn holding(e: ElementV, ch: Seq<TreeV>) -> ElementV {
    ElementV { children: ch, ..e }
}

/// Whether `t` is an element with one of two tags.
pub open spec fn tagged(t: TreeV, a: Seq<char>, b: Seq<char>) -> bool {
    match t {
        TreeV::Element(e) => e.tag == a || e.tag == b,
        _ => false,
    }
}

/// Whether `a` is an attribute that attr looks for.
pub open spec fn attr_fits(a: AttrV, name: Seq<char>) -> bool {
    a.name == name && true
}

proof fn attr_skips(a: Seq<AttrV>, name: Seq<char>, i: int, n: int)
    requires
        0 <= i <= n <= a.len(),
        forall|k: int| i <= k < n ==> !(attr_fits(#[trigger] a[k], name)),
    ensures
        attr_from(a, name, i) == attr_from(a, name, n),
    decreases n - i,
{
    if i < n {
        assert(!(attr_fits(a[i], name)));
        attr_skips(a, name, i + 1, n);
    }
}

/// An attribute is found by its name, in whatever namespace; of several the
/// first.
pub proof fn attrs_are_found(e: ElementV, name: Seq<char>, n: int)
    requires
        0 <= n <= e.attrs.len(),
        forall|k: int| 0 <= k < n ==> !(attr_fits(#[trigger] e.attrs[k], name)),
    ensures
        n < e.attrs.len() && attr_fits(e.attrs[n], name) ==> attr_of(e, name) == Some(
            e.attrs[n].value,
        ),
        n == e.attrs.len() ==> attr_of(e, name) is None,
{
    attr_skips(e.attrs, name, 0, n);
}

/// Whether `a` is an attribute that plain_attr looks for.
pub open spec fn plain_attr_fits(a: AttrV, name: Seq<char>) -> bool {
    a.name == name && a.namespace.len() == 0
}

proof fn plain_attr_skips(a: Seq<AttrV>, name: Seq<char>, i: int, n: int)
    requires
        0 <= i <= n <= a.len(),
        forall|k: int| i <= k < n ==> !(plain_attr_fits(#[trigger] a[k], name)),
    ensures
        plain_attr_from(a, name, i) == plain_attr_from(a, name, n),
    decreases n - i,
{
    if i < n {
        assert(!(plain_attr_fits(a[i], name)));
        plain_attr_skips(a, name, i + 1, n);
    }
}

/// An attribute without a namespace is found by its name; of several the
/// first.
pub proof fn plain_attrs_are_found(e: ElementV, name: Seq<char>, n: int)
    requires
        0 <= n <= e.attrs.len(),
        forall|k: int| 0 <= k < n ==> !(plain_attr_fits(#[trigger] e.attrs[k], name)),
    ensures
        n < e.attrs.len() && plain_attr_fits(e.attrs[n], name) ==> plain_attr_of(e, name) == Some(
            e.attrs[n].value,
        ),
        n == e.attrs.len() ==> plain_attr_of(e, name) is None,
{
    plain_attr_skips(e.attrs, name, 0, n);
}

/// Whether `a` is an attribute that spaced_attr looks for.
pub open spec fn spaced_attr_fits(a: AttrV, space: Seq<char>, name: Seq<char>) -> bool {
    a.name == name && a.namespace == space
}

proof fn spaced_attr_skips(a: Seq<AttrV>, space: Seq<char>, name: Seq<char>, i: int, n: int)
    requires
        0 <= i <= n <= a.len(),
        forall|k: int| i <= k < n ==> !(spaced_attr_fits(#[trigger] a[k], space, name)),
    ensures
        spaced_attr_from(a, space, name, i) == spaced_attr_from(a, space, name, n),
    decreases n - i,
{
    if i < n {
        assert(!(spaced_attr_fits(a[i], space, name)));
        spaced_attr_skips(a, space, name, i + 1, n);
    }
}

/// An attribute of a namespace is found by that and its name; of several the
/// first.
pub proof fn spaced_attrs_are_found(e: ElementV, space: Seq<char>, name: Seq<char>, n: int)
    requires
        0 <= n <= e.attrs.len(),
        forall|k: int| 0 <= k < n ==> !(spaced_attr_fits(#[trigger] e.attrs[k], space, name)),
    ensures
        n < e.attrs.len() && spaced_attr_fits(e.attrs[n], space, name) ==> spaced_attr_of(e, space, name) == Some(
            e.attrs[n].value,
        ),
        n == e.attrs.len() ==> spaced_attr_of(e, space, name) is None,
{
    spaced_attr_skips(e.attrs, space, name, 0, n);
}

proof fn child_skips(ch: Seq<TreeV>, tag: Seq<char>, i: int, n: int)
    requires
        0 <= i <= n <= ch.len(),
        forall|k: int| i <= k < n ==> !(tagged(#[trigger] ch[k], tag, tag)),
    ensures
        child_from(ch, tag, i) == child_from(ch, tag, n),
    decreases n - i,
{
    if i < n {
        assert(!(tagged(ch[i], tag, tag)));
        child_skips(ch, tag, i + 1, n);
    }
}

/// The first child with a tag is the one that is found.
pub proof fn the_first_child_is_found(e: ElementV, tag: Seq<char>, n: int)
    requires
        0 <= n <= e.children.len(),
        forall|k: int| 0 <= k < n ==> !(tagged(#[trigger] e.children[k], tag, tag)),
    ensures
        n < e.children.len() && tagged(e.children[n], tag, tag) ==> child_of(e, tag) == Some(
            e.children[n]->Element_0,
        ),
        n == e.children.len() ==> child_of(e, tag) is None,
{
    child_skips(e.children, tag, 0, n);
}

proof fn either_skips(ch: Seq<TreeV>, a: Seq<char>, b: Seq<char>, i: int, n: int)
    requires
        0 <= i <= n <= ch.len(),
        forall|k: int| i <= k < n ==> !(tagged(#[trigger] ch[k], a, b)),
    ensures
        either_from(ch, a, b, i) == either_from(ch, a, b, n),
    decreases n - i,
{
    if i < n {
        assert(!(tagged(ch[i], a, b)));
        either_skips(ch, a, b, i + 1, n);
    }
}

/// The first child with one of two tags is the one that is found.
pub proof fn the_first_either_is_found(e: ElementV, a: Seq<char>, b: Seq<char>, n: int)
    requires
        0 <= n <= e.children.len(),
        forall|k: int| 0 <= k < n ==> !(tagged(#[trigger] e.children[k], a, b)),
    ensures
        n < e.children.len() && tagged(e.children[n], a, b) ==> either_of(e, a, b) == Some(
            e.children[n]->Element_0,
        ),
        n == e.children.len() ==> either_of(e, a, b) is None,
{
    either_skips(e.children, a, b, 0, n);
}

proof fn first_tagged_skips(v: Seq<ElementV>, tag: Seq<char>, i: int, n: int)
    requires
        0 <= i <= n <= v.len(),
        forall|k: int| i <= k < n ==> (#[trigger] v[k]).tag != tag,
    ensures
        tagged_from(v, tag, i) == tagged_from(v, tag, n),
    decreases n - i,
{
    if i < n {
        assert(v[i].tag != tag);
        first_tagged_skips(v, tag, i + 1, n);
    }
}

/// The first element with a tag is the one that is found.
pub proof fn the_first_tagged_is_found(v: Seq<ElementV>, tag: Seq<char>, n: int)
    requires
        0 <= n <= v.len(),
        forall|k: int| 0 <= k < n ==> (#[trigger] v[k]).tag != tag,
    ensures
        n < v.len() && v[n].tag == tag ==> first_tagged(v, tag) == Some(v[n]),
        n == v.len() ==> first_tagged(v, tag) is None,
{
    first_tagged_skips(v, tag, 0, n);
}

/// The text before the first child element is the element's own; the text
/// right behind a child is that child's tail.
pub proof fn texts_stand_before_and_behind(
    e: ElementV,
    s: Seq<char>,
    t: TreeV,
    u: Seq<char>,
    rest: Seq<TreeV>,
)
    requires
        e.children == seq![TreeV::Text(s), t, TreeV::Text(u)] + rest,
    ensures
        head(e) == Some(s),
        tail(e.children, 1) == Some(u),
        head(holding(e, e.children.skip(1))) == (match t {
            TreeV::Text(x) => Some(x),
            _ => None,
        }),
        tail(seq![t], 0) is None,
{
}

proof fn kids_add_up(tag: Seq<char>, a_ch: Seq<TreeV>, i: int, done: Seq<ElementV>)
    requires
        0 <= i,
    ensures
        kids_from(a_ch, tag, i, done) == done + kids_from(a_ch, tag, i, seq![]),
    decreases a_ch.len() - i,
{
    if i >= a_ch.len() {
        assert(done + seq![] =~= done);
    } else {
        match a_ch[i] {
            TreeV::Element(e) => {
                if e.tag == tag {
                    kids_add_up(tag, a_ch, i + 1, done.push(e));
                    kids_add_up(tag, a_ch, i + 1, Seq::<ElementV>::empty().push(e));
                    assert(done.push(e) =~= done + Seq::<ElementV>::empty().push(e));
                } else {
                    kids_add_up(tag, a_ch, i + 1, done);
                }
            },
            _ => {
                kids_add_up(tag, a_ch, i + 1, done);
            },
        }
    }
}

proof fn kids_go_through(tag: Seq<char>, x: Seq<TreeV>, y: Seq<TreeV>, i: int, done: Seq<ElementV>)
    requires
        0 <= i <= x.len(),
    ensures
        kids_from(x + y, tag, i, done) == kids_from(y, tag, 0, kids_from(x, tag, i, done)),
    decreases x.len() - i,
{
    if i == x.len() {
        kids_go_on(tag, x, y, 0, done);
    } else {
        assert((x + y)[i] == x[i]);
        let more: Seq<ElementV> = match x[i] {
            TreeV::Element(e) => if e.tag == tag {
                done.push(e)
            } else {
                done
            },
            _ => done,
        };
        kids_go_through(tag, x, y, i + 1, more);
    }
}

proof fn kids_go_on(tag: Seq<char>, x: Seq<TreeV>, y: Seq<TreeV>, i: int, done: Seq<ElementV>)
    requires
        0 <= i <= y.len(),
    ensures
        kids_from(x + y, tag, x.len() + i, done) == kids_from(y, tag, i, done),
    decreases y.len() - i,
{
    if i < y.len() {
        assert((x + y)[x.len() + i] == y[i]);
        let more: Seq<ElementV> = match y[i] {
            TreeV::Element(e) => if e.tag == tag {
                done.push(e)
            } else {
                done
            },
            _ => done,
        };
        kids_go_on(tag, x, y, i + 1, more);
    }
}

/// The children with a tag come in the order of the children, each once.
pub proof fn kids_come_in_order(tag: Seq<char>, e: ElementV, x: Seq<TreeV>, t: TreeV, y: Seq<TreeV>)
    ensures
        kids_of(holding(e, x + y), tag) == kids_of(holding(e, x), tag) + kids_of(holding(e, y), tag),
        kids_of(holding(e, seq![t]), tag) == (if tagged(t, tag, tag) {
            seq![t->Element_0]
        } else {
            seq![]
        }),
{
    kids_go_through(tag, x, y, 0, seq![]);
    kids_add_up(tag, y, 0, kids_from(x, tag, 0, seq![]));
    reveal_with_fuel(kids_from, 3);
}

proof fn either_kids_add_up(
    a: Seq<char>,
    b: Seq<char>,
    a_ch: Seq<TreeV>,
    i: int,
    done: Seq<ElementV>,
)
    requires
        0 <= i,
    ensures
        either_kids_from(a_ch, a, b, i, done) == done + either_kids_from(a_ch, a, b, i, seq![]),
    decreases a_ch.len() - i,
{
    if i >= a_ch.len() {
        assert(done + seq![] =~= done);
    } else {
        match a_ch[i] {
            TreeV::Element(e) => {
                if e.tag == a || e.tag == b {
                    either_kids_add_up(a, b, a_ch, i + 1, done.push(e));
                    either_kids_add_up(a, b, a_ch, i + 1, Seq::<ElementV>::empty().push(e));
                    assert(done.push(e) =~= done + Seq::<ElementV>::empty().push(e));
                } else {
                    either_kids_add_up(a, b, a_ch, i + 1, done);
                }
            },
            _ => {
                either_kids_add_up(a, b, a_ch, i + 1, done);
            },
        }
    }
}

proof fn either_kids_go_through(
    a: Seq<char>,
    b: Seq<char>,
    x: Seq<TreeV>,
    y: Seq<TreeV>,
    i: int,
    done: Seq<ElementV>,
)
    requires
        0 <= i <= x.len(),
    ensures
        either_kids_from(x + y, a, b, i, done) == either_kids_from(y, a, b, 0, either_kids_from(x, a, b, i, done)),
    decreases x.len() - i,
{
    if i == x.len() {
        either_kids_go_on(a, b, x, y, 0, done);
    } else {
        assert((x + y)[i] == x[i]);
        let more: Seq<ElementV> = match x[i] {
            TreeV::Element(e) => if e.tag == a || e.tag == b {
                done.push(e)
            } else {
                done
            },
            _ => done,
        };
        either_kids_go_through(a, b, x, y, i + 1, more);
    }
}

proof fn either_kids_go_on(
    a: Seq<char>,
    b: Seq<char>,
    x: Seq<TreeV>,
    y: Seq<TreeV>,
    i: int,
    done: Seq<ElementV>,
)
    requires
        0 <= i <= y.len(),
    ensures
        either_kids_from(x + y, a, b, x.len() + i, done) == either_kids_from(y, a, b, i, done),
    decreases y.len() - i,
{
    if i < y.len() {
        assert((x + y)[x.len() + i] == y[i]);
        let more: Seq<ElementV> = match y[i] {
            TreeV::Element(e) => if e.tag == a || e.tag == b {
                done.push(e)
            } else {
                done
            },
            _ => done,
        };
        either_kids_go_on(a, b, x, y, i + 1, more);
    }
}

/// The children with one of two tags come in the order of the children, each
/// once.
pub proof fn either_kids_come_in_order(
    a: Seq<char>,
    b: Seq<char>,
    e: ElementV,
    x: Seq<TreeV>,
    t: TreeV,
    y: Seq<TreeV>,
)
    ensures
        either_kids_of(holding(e, x + y), a, b) == either_kids_of(holding(e, x), a, b) + either_kids_of(holding(e, y), a, b),
        either_kids_of(holding(e, seq![t]), a, b) == (if tagged(t, a, b) {
            seq![t->Element_0]
        } else {
            seq![]
        }),
{
    either_kids_go_through(a, b, x, y, 0, seq![]);
    either_kids_add_up(a, b, y, 0, either_kids_from(x, a, b, 0, seq![]));
    reveal_with_fuel(either_kids_from, 3);
}

proof fn child_elements_add_up(a_ch: Seq<TreeV>, i: int, done: Seq<ElementV>)
    requires
        0 <= i,
    ensures
        child_elements_from(a_ch, i, done) == done + child_elements_from(a_ch, i, seq![]),
    decreases a_ch.len() - i,
{
    if i >= a_ch.len() {
        assert(done + seq![] =~= done);
    } else {
        match a_ch[i] {
            TreeV::Element(e) => {
                if true {
                    child_elements_add_up(a_ch, i + 1, done.push(e));
                    child_elements_add_up(a_ch, i + 1, Seq::<ElementV>::empty().push(e));
                    assert(done.push(e) =~= done + Seq::<ElementV>::empty().push(e));
                } else {
                    child_elements_add_up(a_ch, i + 1, done);
                }
            },
            _ => {
                child_elements_add_up(a_ch, i + 1, done);
            },
        }
    }
}

proof fn child_elements_go_through(x: Seq<TreeV>, y: Seq<TreeV>, i: int, done: Seq<ElementV>)
    requires
        0 <= i <= x.len(),
    ensures
        child_elements_from(x + y, i, done) == child_elements_from(y, 0, child_elements_from(x, i, done)),
    decreases x.len() - i,
{
    if i == x.len() {
        child_elements_go_on(x, y, 0, done);
    } else {
        assert((x + y)[i] == x[i]);
        let more: Seq<ElementV> = match x[i] {
            TreeV::Element(e) => done.push(e),
            _ => done,
        };
        child_elements_go_through(x, y, i + 1, more);
    }
}

proof fn child_elements_go_on(x: Seq<TreeV>, y: Seq<TreeV>, i: int, done: Seq<ElementV>)
    requires
        0 <= i <= y.len(),
    ensures
        child_elements_from(x + y, x.len() + i, done) == child_elements_from(y, i, done),
    decreases y.len() - i,
{
    if i < y.len() {
        assert((x + y)[x.len() + i] == y[i]);
        let more: Seq<ElementV> = match y[i] {
            TreeV::Element(e) => done.push(e),
            _ => done,
        };
        child_elements_go_on(x, y, i + 1, more);
    }
}

/// The child elements come in the order of the children, each once.
pub proof fn child_elements_come_in_order(e: ElementV, x: Seq<TreeV>, t: TreeV, y: Seq<TreeV>)
    ensures
        child_elements_of(holding(e, x + y)) == child_elements_of(holding(e, x)) + child_elements_of(holding(e, y)),
        child_elements_of(holding(e, seq![t])) == (if t is Element {
            seq![t->Element_0]
        } else {
            seq![]
        }),
{
    child_elements_go_through(x, y, 0, seq![]);
    child_elements_add_up(y, 0, child_elements_from(x, 0, seq![]));
    reveal_with_fuel(child_elements_from, 3);
}

proof fn elements_add_up(a_ch: Seq<TreeV>, i: int, done: Seq<ElementV>)
    requires
        0 <= i,
    ensures
        elements_from(a_ch, i, done) == done + elements_from(a_ch, i, seq![]),
    decreases a_ch, a_ch.len() - i,
{
    if i >= a_ch.len() {
        assert(done + seq![] =~= done);
    } else {
        match a_ch[i] {
            TreeV::Element(e) => {
                let x = done.push(e);
                elements_add_up(e.children, 0, x);
                elements_add_up(e.children, 0, seq![e]);
                elements_add_up(a_ch, i + 1, elements_from(e.children, 0, x));
                elements_add_up(a_ch, i + 1, elements_from(e.children, 0, seq![e]));
                assert(done.push(e) =~= done + seq![e]);
                assert(Seq::<ElementV>::empty().push(e) =~= seq![e]);
            },
            TreeV::Text(s) => {
                let x = done;
                let y: Seq<ElementV> = seq![];
                elements_add_up(a_ch, i + 1, x);
                elements_add_up(a_ch, i + 1, y);
                assert(x =~= done + y);
            },
            TreeV::Other(_) => {
                elements_add_up(a_ch, i + 1, done);
            },
        }
    }
}

proof fn elements_go_through(x: Seq<TreeV>, y: Seq<TreeV>, i: int, done: Seq<ElementV>)
    requires
        0 <= i <= x.len(),
    ensures
        elements_from(x + y, i, done) == elements_from(y, 0, elements_from(x, i, done)),
    decreases x.len() - i,
{
    if i == x.len() {
        elements_go_on(x, y, 0, done);
    } else {
        assert((x + y)[i] == x[i]);
        let more: Seq<ElementV> = match x[i] {
            TreeV::Element(e) => elements_from(e.children, 0, done.push(e)),
            _ => done,
        };
        elements_go_through(x, y, i + 1, more);
    }
}

proof fn elements_go_on(x: Seq<TreeV>, y: Seq<TreeV>, i: int, done: Seq<ElementV>)
    requires
        0 <= i <= y.len(),
    ensures
        elements_from(x + y, x.len() + i, done) == elements_from(y, i, done),
    decreases y.len() - i,
{
    if i < y.len() {
        assert((x + y)[x.len() + i] == y[i]);
        let more: Seq<ElementV> = match y[i] {
            TreeV::Element(e) => elements_from(e.children, 0, done.push(e)),
            _ => done,
        };
        elements_go_on(x, y, i + 1, more);
    }
}

/// The elements below an element come in the order in which they begin: each
/// before those below it, and those behind it last.
pub proof fn elements_come_in_order(e: ElementV, x: Seq<TreeV>, t: TreeV, y: Seq<TreeV>)
    ensures
        under(holding(e, x + y)) == under(holding(e, x)) + under(holding(e, y)),
        under(holding(e, seq![t])) == (if t is Element {
            seq![t->Element_0] + under(t->Element_0)
        } else {
            seq![]
        }),
{
    elements_go_through(x, y, 0, seq![]);
    elements_add_up(y, 0, elements_from(x, 0, seq![]));
    match t {
        TreeV::Element(x) => {
            elements_add_up(x.children, 0, seq![x]);
            assert(Seq::<ElementV>::empty().push(x) =~= seq![x]);
        },
        _ => {},
    }
    reveal_with_fuel(elements_from, 3);
}

proof fn text_add_up(a_ch: Seq<TreeV>, i: int, done: Seq<char>)
    requires
        0 <= i,
    ensures
        text_from(a_ch, i, done) == done + text_from(a_ch, i, seq![]),
    decreases a_ch, a_ch.len() - i,
{
    if i >= a_ch.len() {
        assert(done + seq![] =~= done);
    } else {
        match a_ch[i] {
            TreeV::Element(e) => {
                let x = done;
                text_add_up(e.children, 0, x);
                text_add_up(e.children, 0, seq![]);
                text_add_up(a_ch, i + 1, text_from(e.children, 0, x));
                text_add_up(a_ch, i + 1, text_from(e.children, 0, seq![]));
                
                
            },
            TreeV::Text(s) => {
                let x = done + s;
                let y: Seq<char> = Seq::<char>::empty() + s;
                text_add_up(a_ch, i + 1, x);
                text_add_up(a_ch, i + 1, y);
                assert(x =~= done + y);
            },
            TreeV::Other(_) => {
                text_add_up(a_ch, i + 1, done);
            },
        }
    }
}

proof fn text_go_through(x: Seq<TreeV>, y: Seq<TreeV>, i: int, done: Seq<char>)
    requires
        0 <= i <= x.len(),
    ensures
        text_from(x + y, i, done) == text_from(y, 0, text_from(x, i, done)),
    decreases x.len() - i,
{
    if i == x.len() {
        text_go_on(x, y, 0, done);
    } else {
        assert((x + y)[i] == x[i]);
        let more: Seq<char> = match x[i] {
            TreeV::Element(e) => text_from(e.children, 0, done),
            TreeV::Text(s) => done + s,
            TreeV::Other(_) => done,
        };
        text_go_through(x, y, i + 1, more);
    }
}

proof fn text_go_on(x: Seq<TreeV>, y: Seq<TreeV>, i: int, done: Seq<char>)
    requires
        0 <= i <= y.len(),
    ensures
        text_from(x + y, x.len() + i, done) == text_from(y, i, done),
    decreases y.len() - i,
{
    if i < y.len() {
        assert((x + y)[x.len() + i] == y[i]);
        let more: Seq<char> = match y[i] {
            TreeV::Element(e) => text_from(e.children, 0, done),
            TreeV::Text(s) => done + s,
            TreeV::Other(_) => done,
        };
        text_go_on(x, y, i + 1, more);
    }
}

/// The text of an element is the texts below it, one behind the other.
pub proof fn text_come_in_order(e: ElementV, x: Seq<TreeV>, t: TreeV, y: Seq<TreeV>)
    ensures
        all_text(holding(e, x + y)) == all_text(holding(e, x)) + all_text(holding(e, y)),
        all_text(holding(e, seq![t])) == (match t {
            TreeV::Text(s) => s,
            TreeV::Element(x) => all_text(x),
            TreeV::Other(_) => seq![],
        }),
{
    text_go_through(x, y, 0, seq![]);
    text_add_up(y, 0, text_from(x, 0, seq![]));
    reveal_with_fuel(text_from, 3);
}

proof fn pieces_add_up(a_ch: Seq<TreeV>, i: int, done: Seq<Seq<char>>)
    requires
        0 <= i,
    ensures
        pieces_from(a_ch, i, done) == done + pieces_from(a_ch, i, seq![]),
    decreases a_ch, a_ch.len() - i,
{
    if i >= a_ch.len() {
        assert(done + seq![] =~= done);
    } else {
        match a_ch[i] {
            TreeV::Element(e) => {
                let x = done;
                pieces_add_up(e.children, 0, x);
                pieces_add_up(e.children, 0, seq![]);
                pieces_add_up(a_ch, i + 1, pieces_from(e.children, 0, x));
                pieces_add_up(a_ch, i + 1, pieces_from(e.children, 0, seq![]));
                
                
            },
            TreeV::Text(s) => {
                let x = done.push(s);
                let y: Seq<Seq<char>> = Seq::<Seq<char>>::empty().push(s);
                pieces_add_up(a_ch, i + 1, x);
                pieces_add_up(a_ch, i + 1, y);
                assert(x =~= done + y);
            },
            TreeV::Other(_) => {
                pieces_add_up(a_ch, i + 1, done);
            },
        }
    }
}

proof fn pieces_go_through(x: Seq<TreeV>, y: Seq<TreeV>, i: int, done: Seq<Seq<char>>)
    requires
        0 <= i <= x.len(),
    ensures
        pieces_from(x + y, i, done) == pieces_from(y, 0, pieces_from(x, i, done)),
    decreases x.len() - i,
{
    if i == x.len() {
        pieces_go_on(x, y, 0, done);
    } else {
        assert((x + y)[i] == x[i]);
        let more: Seq<Seq<char>> = match x[i] {
            TreeV::Element(e) => pieces_from(e.children, 0, done),
            TreeV::Text(s) => done.push(s),
            TreeV::Other(_) => done,
        };
        pieces_go_through(x, y, i + 1, more);
    }
}

proof fn pieces_go_on(x: Seq<TreeV>, y: Seq<TreeV>, i: int, done: Seq<Seq<char>>)
    requires
        0 <= i <= y.len(),
    ensures
        pieces_from(x + y, x.len() + i, done) == pieces_from(y, i, done),
    decreases y.len() - i,
{
    if i < y.len() {
        assert((x + y)[x.len() + i] == y[i]);
        let more: Seq<Seq<char>> = match y[i] {
            TreeV::Element(e) => pieces_from(e.children, 0, done),
            TreeV::Text(s) => done.push(s),
            TreeV::Other(_) => done,
        };
        pieces_go_on(x, y, i + 1, more);
    }
}

/// The pieces of text of an element are the texts below it, in their order.
pub proof fn pieces_come_in_order(e: ElementV, x: Seq<TreeV>, t: TreeV, y: Seq<TreeV>)
    ensures
        pieces(holding(e, x + y)) == pieces(holding(e, x)) + pieces(holding(e, y)),
        pieces(holding(e, seq![t])) == (match t {
            TreeV::Text(s) => seq![s],
            TreeV::Element(x) => pieces(x),
            TreeV::Other(_) => seq![],
        }),
{
    pieces_go_through(x, y, 0, seq![]);
    pieces_add_up(y, 0, pieces_from(x, 0, seq![]));
    reveal_with_fuel(pieces_from, 3);
}

/// An element comes before all that lies below it.
pub proof fn an_element_comes_before_those_below(e: ElementV)
    ensures
        self_and_under(e) == seq![e] + under(e),
{
    elements_add_up(e.children, 0, seq![e]);
}

/// The item that a tree without its children is.
pub open spec fn item_of(t: TreeV, depth: int) -> ItemV {
    match t {
        TreeV::Element(e) => ItemV {
            depth,
            kind: Kind::Element,
            namespace: e.namespace,
            name: e.tag,
            text: seq![],
            attrs: e.attrs,
        },
        TreeV::Text(s) => ItemV {
            depth,
            kind: Kind::Text,
            namespace: seq![],
            name: seq![],
            text: s,
            attrs: seq![],
        },
        TreeV::Other(s) => ItemV {
            depth,
            kind: Kind::Other,
            namespace: seq![],
            name: seq![],
            text: s,
            attrs: seq![],
        },
    }
}

/// The trees of `ch` from `i` on, written down one behind the other: each
/// before its children, which lie one deeper.
pub open spec fn written(ch: Seq<TreeV>, i: int, depth: int) -> Seq<ItemV>
    decreases ch, ch.len() - i,
{
    if i < 0 || i >= ch.len() {
        seq![]
    } else {
        match ch[i] {
            TreeV::Element(e) => seq![item_of(ch[i], depth)] + written(e.children, 0, depth + 1)
                + written(ch, i + 1, depth),
            _ => seq![item_of(ch[i], depth)] + written(ch, i + 1, depth),
        }
    }
}

proof fn written_items_are_deep(ch: Seq<TreeV>, i: int, depth: int, k: int)
    requires
        0 <= k < written(ch, i, depth).len(),
    ensures
        written(ch, i, depth)[k].depth >= depth,
    decreases ch, ch.len() - i,
{
    match ch[i] {
        TreeV::Element(e) => {
            let inner = written(e.children, 0, depth + 1);
            if k == 0 {
            } else if k < 1 + inner.len() {
                written_items_are_deep(e.children, 0, depth + 1, k - 1);
                assert(written(ch, i, depth)[k] == inner[k - 1]);
            } else {
                written_items_are_deep(ch, i + 1, depth, k - 1 - inner.len());
                assert(written(ch, i, depth)[k] == written(ch, i + 1, depth)[k - 1 - inner.len()]);
            }
        },
        _ => {
            if k > 0 {
                written_items_are_deep(ch, i + 1, depth, k - 1);
                assert(written(ch, i, depth)[k] == written(ch, i + 1, depth)[k - 1]);
            }
        },
    }
}

proof fn deep_items_go_on(items: Seq<ItemV>, i: int, n: int, depth: int)
    requires
        0 <= i <= n <= items.len(),
        forall|k: int| i <= k < n ==> (#[trigger] items[k]).depth >= depth,
        n == items.len() || items[n].depth < depth,
    ensures
        forest_end(items, i, depth) == n,
    decreases n - i,
{
    if i < n {
        assert(items[i].depth >= depth);
        deep_items_go_on(items, i + 1, n, depth);
    }
}

/// Whether the items from `at` on are `s`.
pub open spec fn stand_at(items: Seq<ItemV>, at: int, s: Seq<ItemV>) -> bool {
    0 <= at && at + s.len() <= items.len() && items.subrange(at, at + s.len()) == s
}

proof fn written_trees_read_back(
    items: Seq<ItemV>,
    at: int,
    ch: Seq<TreeV>,
    i: int,
    depth: int,
)
    requires
        0 <= i <= ch.len(),
        stand_at(items, at, written(ch, i, depth)),
        at + written(ch, i, depth).len() == items.len() || items[at + written(ch, i, depth).len()].depth
            < depth,
    ensures
        forest(items, at, at + written(ch, i, depth).len(), depth) == ch.skip(i),
    decreases ch, ch.len() - i,
{
    let all = written(ch, i, depth);
    let end = at + all.len();
    if i == ch.len() {
        assert(ch.skip(i) =~= seq![]);
    } else {
        let inner: Seq<ItemV> = match ch[i] {
            TreeV::Element(e) => written(e.children, 0, depth + 1),
            _ => seq![],
        };
        let rest = written(ch, i + 1, depth);
        let j = at + 1 + inner.len();
        assert(all =~= seq![item_of(ch[i], depth)] + inner + rest);
        assert forall|k: int| 0 <= k < all.len() implies #[trigger] items[at + k] == all[k] by {
            assert(items.subrange(at, end)[k] == items[at + k]);
        }
        assert(items[at + 0] == all[0]);
        assert(items.subrange(at + 1, j) =~= inner) by {
            assert forall|k: int| 0 <= k < inner.len() implies items.subrange(at + 1, j)[k]
                == inner[k] by {
                assert(items[at + (k + 1)] == all[k + 1]);
            }
        }
        assert(items.subrange(j, end) =~= rest) by {
            assert forall|k: int| 0 <= k < rest.len() implies items.subrange(j, end)[k]
                == rest[k] by {
                assert(items[at + (k + 1 + inner.len())] == all[k + 1 + inner.len()]);
            }
        }
        assert(j == items.len() || items[j].depth < depth + 1) by {
            if rest.len() > 0 {
                assert(items[at + (1 + inner.len())] == all[1 + inner.len() as int]);
                assert(rest[0] == item_of(ch[i + 1], depth));
            }
        }
        assert forall|k: int| at + 1 <= k < j implies (#[trigger] items[k]).depth >= depth + 1 by {
            assert(items[at + (k - at)] == all[k - at]);
            assert(all[k - at] == inner[k - at - 1]);
            match ch[i] {
                TreeV::Element(e) => {
                    written_items_are_deep(e.children, 0, depth + 1, k - at - 1);
                },
                _ => {},
            }
        }
        deep_items_go_on(items, at + 1, j, depth + 1);
        written_trees_read_back(items, j, ch, i + 1, depth);
        match ch[i] {
            TreeV::Element(e) => {
                written_trees_read_back(items, at + 1, e.children, 0, depth + 1);
                assert(e.children.skip(0) =~= e.children);
            },
            _ => {},
        }
        assert(ch.skip(i) =~= seq![ch[i]] + ch.skip(i + 1));
    }
}

/// An element that is written down as a list of items, with everything below
/// it, is read back from the list.
pub proof fn written_elements_read_back(e: ElementV, depth: int)
    ensures
        root_of(written(seq![TreeV::Element(e)], 0, depth)) == Some(e),
{
    let t = TreeV::Element(e);
    let inner = written(e.children, 0, depth + 1);
    let items = written(seq![t], 0, depth);
    assert(written(seq![t], 1, depth) =~= seq![]);
    assert(seq![t][0] == t);
    assert(items =~= seq![item_of(t, depth)] + inner);
    assert(items.subrange(1, items.len() as int) =~= inner);
    written_trees_read_back(items, 1, e.children, 0, depth + 1);
    assert(e.children.skip(0) =~= e.children);
}

} // verus!
