//! What a page shows: its tree without the elements that it hides and without
//! those whose content is no text of the document.

use crate::inline::{is_hidden, is_hidden_el, is_skipped, is_skipped_tag};
use crate::tree::{
    copy_attrs, elements_from, tree_view, trees_view, under, Element, ElementV, Tree, TreeV,
};
use vstd::prelude::*;

verus! {

/// Whether an element shows anything.
pub open spec fn is_shown(e: ElementV) -> bool {
    !is_skipped_tag(e.tag) && !(is_hidden_el(e))
}

/// The children from `i` on that show anything, each with what it shows, added
/// to `done`.
pub open spec fn shown_from(ch: Seq<TreeV>, i: int, done: Seq<TreeV>) -> Seq<TreeV>
    decreases ch, ch.len() - i,
{
    if i < 0 || i >= ch.len() {
        done
    } else {
        shown_from(
            ch,
            i + 1,
            match ch[i] {
                TreeV::Element(e) => if is_shown(e) {
                    done.push(
                        TreeV::Element(
                            ElementV { children: shown_from(e.children, 0, seq![]), ..e },
                        ),
                    )
                } else {
                    done
                },
                t => done.push(t),
            },
        )
    }
}

/// What an element shows.
pub open spec fn shown(e: ElementV) -> ElementV {
    ElementV { children: shown_from(e.children, 0, seq![]), ..e }
}

/// Whether all elements show anything.
pub open spec fn all_shown(v: Seq<ElementV>) -> bool {
    forall|i: int| 0 <= i < v.len() ==> is_shown(#[trigger] v[i])
}

/// Whether the trees from `i` on hold only elements that show anything.
pub open spec fn clean(ch: Seq<TreeV>, i: int) -> bool
    decreases ch, ch.len() - i,
{
    if i < 0 || i >= ch.len() {
        true
    } else {
        (match ch[i] {
            TreeV::Element(e) => is_shown(e) && clean(e.children, 0),
            _ => true,
        }) && clean(ch, i + 1)
    }
}

proof fn clean_push(ch: Seq<TreeV>, t: TreeV, i: int)
    requires
        clean(ch, i),
        match t {
            TreeV::Element(e) => is_shown(e) && clean(e.children, 0),
            _ => true,
        },
    ensures
        clean(ch.push(t), i),
    decreases ch.len() - i,
{
    let w = ch.push(t);
    if 0 <= i < ch.len() {
        assert(w[i] == ch[i]);
        clean_push(ch, t, i + 1);
    } else if i == ch.len() {
        assert(w[i] == t);
        assert(clean(w, i + 1));
    }
}

proof fn shown_is_clean(ch: Seq<TreeV>, i: int, done: Seq<TreeV>)
    requires
        clean(done, 0),
    ensures
        clean(shown_from(ch, i, done), 0),
    decreases ch, ch.len() - i,
{
    if 0 <= i < ch.len() {
        match ch[i] {
            TreeV::Element(e) => {
                if is_shown(e) {
                    assert(clean(seq![], 0));
                    shown_is_clean(e.children, 0, seq![]);
                    let s = ElementV { children: shown_from(e.children, 0, seq![]), ..e };
                    clean_push(done, TreeV::Element(s), 0);
                    shown_is_clean(ch, i + 1, done.push(TreeV::Element(s)));
                } else {
                    shown_is_clean(ch, i + 1, done);
                }
            },
            t => {
                clean_push(done, t, 0);
                shown_is_clean(ch, i + 1, done.push(t));
            },
        }
    }
}

proof fn clean_holds_shown(ch: Seq<TreeV>, i: int, done: Seq<ElementV>)
    requires
        clean(ch, i),
        all_shown(done),
    ensures
        all_shown(elements_from(ch, i, done)),
    decreases ch, ch.len() - i,
{
    if 0 <= i < ch.len() {
        match ch[i] {
            TreeV::Element(e) => {
                clean_holds_shown(e.children, 0, done.push(e));
                clean_holds_shown(ch, i + 1, elements_from(e.children, 0, done.push(e)));
            },
            _ => clean_holds_shown(ch, i + 1, done),
        }
    }
}

/// At no depth does what an element shows hold a hidden element, or one whose
/// content is no text.
pub proof fn nothing_hidden_is_shown(e: ElementV)
    ensures
        all_shown(under(shown(e))),
{
    assert(clean(seq![], 0));
    shown_is_clean(e.children, 0, seq![]);
    clean_holds_shown(shown(e).children, 0, seq![]);
}

/// What shows everything is shown as it is.
pub proof fn what_is_shown_stays(e: ElementV)
    ensures
        shown(shown(e)) == shown(e),
{
    assert(clean(seq![], 0));
    shown_is_clean(e.children, 0, seq![]);
    clean_stays(shown(e).children, 0);
    assert(shown(e).children.take(0) =~= seq![]);
}

proof fn clean_stays(ch: Seq<TreeV>, i: int)
    requires
        clean(ch, i),
        0 <= i <= ch.len(),
    ensures
        shown_from(ch, i, ch.take(i)) == ch,
    decreases ch, ch.len() - i,
{
    if i < ch.len() {
        match ch[i] {
            TreeV::Element(e) => {
                clean_stays(e.children, 0);
                assert(e.children.take(0) =~= seq![]);
            },
            _ => {},
        }
        assert(ch.take(i).push(ch[i]) =~= ch.take(i + 1));
        clean_stays(ch, i + 1);
    } else {
        assert(ch.take(i) =~= ch);
    }
}

proof fn trees_view_push(v: Seq<Tree>, t: Tree)
    ensures
        trees_view(v.push(t)) == trees_view(v).push(tree_view(t)),
{
    assert(trees_view(v.push(t)) =~= trees_view(v).push(tree_view(t)));
}

/// The children that show anything, each with what it shows.
pub fn shown_children(ch: &Vec<Tree>) -> (r: Vec<Tree>)
    ensures
        trees_view(r@) == shown_from(trees_view(ch@), 0, seq![]),
    decreases ch,
{
    let ghost v = trees_view(ch@);
    let mut out: Vec<Tree> = Vec::new();
    assert(trees_view(out@) =~= seq![]);
    let mut i: usize = 0;
    while i < ch.len()
        invariant
            i <= ch@.len(),
            v == trees_view(ch@),
            shown_from(v, 0, seq![]) == shown_from(v, i as int, trees_view(out@)),
        decreases ch@.len() - i,
    {
        assert(v[i as int] == tree_view(ch@[i as int]));
        let t = match &ch[i] {
            Tree::Element(e) => if is_skipped(e.tag.as_str()) || is_hidden(e) {
                None
            } else {
                Some(Tree::Element(shown_element(e)))
            },
            Tree::Text(s) => Some(Tree::Text(s.clone())),
            Tree::Other(s) => Some(Tree::Other(s.clone())),
        };
        match t {
            Some(t) => {
                proof {
                    trees_view_push(out@, t);
                }
                out.push(t);
            },
            None => {},
        }
        i += 1;
    }
    out
}

/// What an element shows.
pub fn shown_element(e: &Element) -> (r: Element)
    ensures
        r@ == shown(e@),
    decreases e,
{
    Element {
        namespace: e.namespace.clone(),
        tag: e.tag.clone(),
        attrs: copy_attrs(&e.attrs),
        children: shown_children(&e.children),
    }
}

} // verus!
