//! Laws of the front of an article: its titles and affiliations, and of
//! elements that are no article.

use crate::document::NodeV;
use crate::jats::{
    aff_name, affs_from, field, generic_from, group_title, is_meta, is_text_item, sanitized,
    shown_caption, solid_from, spaced_from, table_of, title_parts, titles_from,
};
use crate::text::{escaped, has_prefix, joined, normalized, strip, unlined};
use crate::tree::{attr_of, child_elements_of, child_of, head, pieces, ElementV, TreeV};
use vstd::prelude::*;

verus! {

proof fn tags_of_titles()
    ensures
        "article-title"@.len() == 13,
        "subtitle"@.len() == 8,
        "title"@.len() == 5,
        "label"@.len() == 5,
        "trans-title-group"@.len() == 17,
        "alt-title"@.len() == 9,
        "fn-group"@.len() == 8,
        "fn-group"@ != "subtitle"@,
{
    reveal_strlit("article-title");
    reveal_strlit("subtitle");
    reveal_strlit("title");
    reveal_strlit("label");
    reveal_strlit("trans-title-group");
    reveal_strlit("alt-title");
    reveal_strlit("fn-group");
    assert("fn-group"@[0] == 'f' && "subtitle"@[0] == 's');
}

/// The title of an article is its title and its subtitle, with a space
/// between them.
pub proof fn subtitles_follow_titles(
    e: ElementV,
    a: ElementV,
    b: ElementV,
    x: Seq<char>,
    y: Seq<char>,
)
    requires
        child_elements_of(e) == seq![a, b],
        a.tag == "article-title"@,
        head(a) == Some(x),
        head(b) == Some(y),
    ensures
        b.tag == "subtitle"@ ==> group_title(e) == strip(
            strip(unlined(x)).push(' ') + strip(unlined(y)),
        ),
        b.tag == "alt-title"@ || b.tag == "trans-title-group"@ ==> group_title(e) == strip(
            strip(unlined(x)),
        ),
{
    tags_of_titles();
    reveal_strlit(" ");
    let v = seq![a, b];
    let p = strip(unlined(x));
    let q = strip(unlined(y));
    reveal_with_fuel(title_parts, 3);
    assert(field(Some(a)) == p);
    assert(field(Some(b)) == q);
    if b.tag == "subtitle"@ {
        assert(title_parts(v, 0, seq![]) =~= seq![p, q]);
        assert(seq![p, q].drop_last() =~= seq![p]);
        reveal_with_fuel(joined, 3);
        assert(joined(seq![p, q], " "@) =~= p.push(' ') + q);
    }
    if b.tag == "alt-title"@ || b.tag == "trans-title-group"@ {
        assert(title_parts(v, 0, seq![]) =~= seq![p]);
        assert(joined(seq![p], " "@) =~= p);
    }
}

/// A title group counts where it stands right in the metadata of an article,
/// a book or a part of one.
pub proof fn titles_stand_in_the_metadata(e: ElementV, done: Seq<Seq<char>>)
    requires
        e.tag == "title-group"@,
        e.children.len() == 0,
    ensures
        titles_from(seq![TreeV::Element(e)], 0, true, done) == done + seq![group_title(e)],
        titles_from(seq![TreeV::Element(e)], 0, false, done) == done,
        is_meta("article-meta"@),
        is_meta("book-meta"@),
        is_meta("book-part-meta"@),
        is_meta("collection-meta"@),
        !(is_meta("journal-meta"@)),
{
    let ch = seq![TreeV::Element(e)];
    assert(ch[0] == TreeV::Element(e));
    reveal_with_fuel(titles_from, 3);
    assert(done.push(group_title(e)) =~= done + seq![group_title(e)]);
    reveal_strlit("journal-meta");
    reveal_strlit("article-meta");
    reveal_strlit("book-meta");
    reveal_strlit("book-part-meta");
    reveal_strlit("collection-meta");
    assert("journal-meta"@.len() == 12 && "article-meta"@.len() == 12 && "book-meta"@.len() == 9
        && "book-part-meta"@.len() == 14 && "collection-meta"@.len() == 15);
    assert("journal-meta"@[0] == 'j' && "article-meta"@[0] == 'a');
}

/// An affiliation is its texts with commas between them, without the label
/// that comes first; it is found by its `id`.
pub proof fn affiliations_lose_their_label(
    e: ElementV,
    l: ElementV,
    label: Seq<char>,
    s: Seq<char>,
    v: Seq<ElementV>,
    done: Seq<(Seq<char>, Seq<char>)>,
    id: Seq<char>,
)
    ensures
        child_of(e, "label"@) is None ==> aff_name(e) == unlined(
            joined(solid_from(pieces(e), 0, seq![]), ", "@),
        ),
        child_of(e, "label"@) == Some(l) && head(l) == Some(label) && unlined(
            joined(solid_from(pieces(e), 0, seq![]), ", "@),
        ) == label + ", "@ + s ==> aff_name(e) == s,
        v.len() > 0 && v[0] == e && e.tag == "aff"@ && attr_of(e, "id"@) == Some(id) ==> affs_from(
            v,
            0,
            done,
        ) == affs_from(v, 1, done + seq![(id, aff_name(e))]),
{
    let name = unlined(joined(solid_from(pieces(e), 0, seq![]), ", "@));
    let front = label + ", "@;
    if name == front + s {
        assert(name.take(front.len() as int) =~= front);
        assert(name.skip(front.len() as int) =~= s);
        assert(has_prefix(name, front));
    }
    assert(done.push((id, aff_name(e))) =~= done + seq![(id, aff_name(e))]);
}

/// Solid pieces of text are kept without the white space around them, in
/// their order; blank ones are left out.
pub proof fn solid_pieces_are_kept(v: Seq<Seq<char>>, i: int, done: Seq<Seq<char>>)
    requires
        0 <= i < v.len(),
    ensures
        strip(v[i]).len() > 0 ==> solid_from(v, i, done) == solid_from(
            v,
            i + 1,
            done + seq![strip(v[i])],
        ),
        strip(v[i]).len() == 0 ==> solid_from(v, i, done) == solid_from(v, i + 1, done),
{
    assert(done.push(strip(v[i])) =~= done + seq![strip(v[i])]);
}

/// A caption is shown escaped, and an empty one not at all.
pub proof fn captions_are_escaped(s: Seq<char>)
    ensures
        s.len() > 0 ==> shown_caption(s) == Some(escaped(s)),
        shown_caption(seq![]) is None,
{
}

// ------------------------------------------------------------ other elements

/// Dashes become hyphens and curly quotes straight ones, each for one; every
/// other character stays.
pub proof fn quotes_become_straight(s: Seq<char>, i: int)
    requires
        0 <= i < s.len(),
    ensures
        sanitized(s).len() == s.len(),
        s[i] == '\u{2013}' || s[i] == '\u{2014}' ==> sanitized(s)[i] == '-',
        s[i] == '\u{2018}' || s[i] == '\u{2019}' ==> sanitized(s)[i] == '\'',
        s[i] == '\u{201c}' || s[i] == '\u{201d}' ==> sanitized(s)[i] == '"',
        s[i] <= '\u{7f}' ==> sanitized(s)[i] == s[i],
{
}

/// An element with text and nothing below it is a paragraph, and a table a
/// table, wherever they stand; elements round them only carry them.
pub proof fn texts_of_other_elements_are_paragraphs(
    e: ElementV,
    head: bool,
    done: Seq<NodeV>,
    s: Seq<char>,
)
    requires
        e.tag == "name"@ || e.tag == "section"@ || e.tag == "table"@,
    ensures
        e.tag == "name"@ && e.children == seq![TreeV::Text(s)] && strip(
            normalized(sanitized(s)),
        ).len() > 0 && is_text_item(e) ==> generic_from(seq![TreeV::Element(e)], 0, head, done)
            == done + seq![NodeV::Paragraph { text: escaped(normalized(sanitized(s))) }],
        e.tag == "table"@ ==> (table_of(e, head) matches Some(t) ==> generic_from(
            seq![TreeV::Element(e)],
            0,
            head,
            done,
        ) == done + seq![NodeV::Table(t)]),
        e.tag == "section"@ && !(is_text_item(e)) ==> generic_from(
            seq![TreeV::Element(e)],
            0,
            head,
            done,
        ) == generic_from(e.children, 0, head, done),
        generic_from(seq![TreeV::Text(s)], 0, head, done) == done,
{
    reveal_strlit("name");
    reveal_strlit("section");
    reveal_strlit("table");
    reveal_strlit("table-wrap");
    reveal_strlit("thead");
    assert("name"@.len() == 4 && "section"@.len() == 7 && "table"@.len() == 5 && "table-wrap"@.len()
        == 10 && "thead"@.len() == 5);
    assert("table"@[1] == 'a' && "thead"@[1] == 'h');
    let ch = seq![TreeV::Element(e)];
    assert(ch[0] == TreeV::Element(e));
    let c2 = seq![TreeV::Text(s)];
    assert(c2[0] == TreeV::Text(s));
    reveal_with_fuel(generic_from, 2);
    reveal_with_fuel(spaced_from, 2);
    if e.children == seq![TreeV::Text(s)] {
        assert(e.children[0] == TreeV::Text(s));
        assert(Seq::<char>::empty() + s =~= s);
        let p = NodeV::Paragraph { text: escaped(normalized(sanitized(s))) };
        assert(done.push(p) =~= done + seq![p]);
    }
    if let Some(t) = table_of(e, head) {
        assert(done.push(NodeV::Table(t)) =~= done + seq![NodeV::Table(t)]);
    }
}

} // verus!
