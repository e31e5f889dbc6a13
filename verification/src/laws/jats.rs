//! Laws of the article reader.

use crate::jats::{
    citation, cited_authors, cited_names, cited_pages, cited_title, field, pub_ids, raw, with_part,
    without_end,
};
use crate::text::{joined, strip, unlined, uppercase, white};
use crate::tree::{attr_of, child_of, first_tagged, head, kids_of, self_and_under, ElementV};
use vstd::prelude::*;

verus! {

// ------------------------------------------------------------ citations

/// Whether a text stands in a citation as it is: it has no white space at its
/// ends, no line break and no dot at its end.
pub open spec fn is_plain(t: Seq<char>) -> bool {
    &&& t.len() > 0
    &&& !white(t[0])
    &&& !white(t.last())
    &&& t.last() != '.'
    &&& forall|i: int| 0 <= i < t.len() ==> #[trigger] t[i] != '\n'
}

/// Whether the first child with a tag says a text.
pub open spec fn says(e: ElementV, tag: Seq<char>, t: Seq<char>) -> bool {
    child_of(e, tag) matches Some(k) && head(k) == Some(t) && is_plain(t)
}

proof fn plain_texts_stay(t: Seq<char>)
    requires
        is_plain(t),
    ensures
        strip(t) == t,
        unlined(t) == t,
        strip(unlined(t)) == t,
{
    assert(unlined(t) =~= t);
}

proof fn said_fields(e: ElementV, tag: Seq<char>, t: Seq<char>)
    requires
        says(e, tag, t),
    ensures
        field(child_of(e, tag)) == t,
{
    plain_texts_stay(t);
}

/// A text that a full stop and a space close loses just these.
proof fn stops_come_off(x: Seq<char>)
    requires
        x.len() > 0,
        x.last() != '.',
        x.last() != ' ',
    ensures
        without_end(x + ". "@, '.', ' ') == x,
        without_end(x + "."@, '.', '.') == x,
        without_end(x, '.', '.') == x,
        without_end(x, '.', ' ') == x,
{
    reveal_strlit(". ");
    reveal_strlit(".");
    reveal_with_fuel(without_end, 3);
    let two = x + ". "@;
    let one = x + "."@;
    assert(two.last() == ' ');
    assert(two.drop_last() =~= one);
    assert(one.last() == '.');
    assert(one.drop_last() =~= x);
}

/// The text of a reference with authors, a title, a source, a volume, pages
/// and a year, as in `Doe J. A title. Nature 12:3–9 (2020).`
pub proof fn a_reference_reads_in_order(
    e: ElementV,
    authors: Seq<char>,
    title: Seq<char>,
    source: Seq<char>,
    volume: Seq<char>,
    first: Seq<char>,
    last: Seq<char>,
    year: Seq<char>,
)
    requires
        cited_authors(e) == authors,
        is_plain(authors),
        child_of(e, "article-title"@) matches Some(k) && raw(k) == title,
        is_plain(title),
        says(e, "source"@, source),
        says(e, "volume"@, volume),
        says(e, "fpage"@, first),
        says(e, "lpage"@, last),
        says(e, "year"@, year),
        child_of(e, "elocation-id"@) is None,
        child_of(e, "publisher-name"@) is None,
        kids_of(e, "pub-id"@).len() == 0,
    ensures
        citation(e) == authors + ". "@ + title + ". "@ + source + " "@ + volume + ":"@ + first
            + seq!['\u{2013}'] + last + " ("@ + year + ")."@,
{
    said_fields(e, "source"@, source);
    said_fields(e, "volume"@, volume);
    said_fields(e, "fpage"@, first);
    said_fields(e, "lpage"@, last);
    said_fields(e, "year"@, year);
    plain_texts_stay(title);
    stops_come_off(authors);
    assert(white(' '));
    let pages = first + seq!['\u{2013}'] + last;
    assert(first.push('\u{2013}') + last =~= pages);
    assert(cited_pages(e) == pages);
    let ids = joined(pub_ids(kids_of(e, "pub-id"@), 0, seq![]), ", "@);
    assert(ids.len() == 0);
    let t1 = authors + ". "@;
    assert(Seq::<char>::empty() + authors + ". "@ =~= t1);
    let t3 = t1 + title + ". "@ + source;
    stops_come_off(t3);
    let t5 = t3 + " "@ + volume;
    stops_come_off(t5);
    let t6 = t5 + ":"@ + pages;
    stops_come_off(t6);
    assert(citation(e) =~= t6 + " ("@ + year + ")."@);
    assert(citation(e) =~= authors + ". "@ + title + ". "@ + source + " "@ + volume + ":"@ + first
        + seq!['\u{2013}'] + last + " ("@ + year + ")."@);
}

/// A text that closes with a full stop and a space, or is empty, without them.
proof fn ends_come_off(x: Seq<char>, s: Seq<char>)
    requires
        x.len() > 0 ==> x.last() != '.' && x.last() != ' ',
        s == x + ". "@ || x.len() == 0 && s == x,
    ensures
        without_end(s, '.', ' ') == x,
{
    reveal_strlit(". ");
    if x.len() > 0 {
        stops_come_off(x);
    } else if s.len() > 0 {
        reveal_with_fuel(without_end, 3);
        assert(s.last() == ' ');
        assert(s.drop_last().last() == '.');
        assert(s.drop_last().drop_last() =~= x);
    }
}

/// The text of a citation up to its publisher.
spec fn up_to_publisher(e: ElementV) -> Seq<char> {
    let authors = cited_authors(e);
    let title = cited_title(e);
    let source = field(child_of(e, "source"@));
    let publisher = field(child_of(e, "publisher-name"@));
    let place = field(child_of(e, "publisher-loc"@));
    with_part(
        with_part(
            with_part(
                with_part(seq![], authors, without_end(authors, '.', '.')),
                title,
                strip(title),
            ),
            source,
            source,
        ),
        publisher,
        if place.len() == 0 {
            publisher
        } else {
            place + ": "@ + publisher
        },
    )
}

/// The text of a citation up to its pages.
spec fn up_to_pages(e: ElementV) -> Seq<char> {
    let volume = field(child_of(e, "volume"@));
    let pages = cited_pages(e);
    let t4 = up_to_publisher(e);
    let t5 = if volume.len() == 0 {
        t4
    } else {
        without_end(t4, '.', ' ') + " "@ + volume + ". "@
    };
    if pages.len() == 0 {
        t5
    } else {
        without_end(t5, '.', ' ') + (if volume.len() == 0 {
            ""@
        } else {
            ":"@
        }) + pages + ". "@
    }
}

/// The identifiers of a citation.
pub open spec fn ids_of(e: ElementV) -> Seq<char> {
    joined(pub_ids(kids_of(e, "pub-id"@), 0, seq![]), ", "@)
}

/// Whether a text ends with another one.
pub open spec fn ends_with(s: Seq<char>, t: Seq<char>) -> bool {
    s.len() >= t.len() && s.skip(s.len() - t.len()) == t
}

/// Where a citation has a year, the year stands in brackets before a full
/// stop, and only the identifiers come behind it.
pub proof fn the_year_stands_in_brackets(e: ElementV, year: Seq<char>)
    requires
        says(e, "year"@, year),
    ensures
        ids_of(e).len() == 0 ==> ends_with(citation(e), " ("@ + year + ")."@),
        ids_of(e).len() > 0 ==> ends_with(citation(e), " ("@ + year + "). "@ + ids_of(e)),
{
    reveal_strlit(".");
    reveal_strlit(". ");
    reveal_strlit(").");
    reveal_strlit("). ");
    reveal_strlit(")");
    said_fields(e, "year"@, year);
    let ids = ids_of(e);
    let before = without_end(up_to_pages(e), '.', ' ');
    let t7 = before + " ("@ + year + ")."@;
    let x = before + " ("@ + year + ")"@;
    stops_come_off(x);
    assert(x + "."@ =~= t7);
    if ids.len() == 0 {
        assert(citation(e) == t7);
        assert(t7 =~= before + (" ("@ + year + ")."@));
        assert(t7.skip(before.len() as int) =~= " ("@ + year + ")."@);
    } else {
        assert(citation(e) == x + ". "@ + ids);
        assert(x + ". "@ + ids =~= before + (" ("@ + year + "). "@ + ids));
        assert(citation(e).skip(before.len() as int) =~= " ("@ + year + "). "@ + ids);
    }
}

/// What a citation says behind its pages.
pub open spec fn is_tail(e: ElementV, tail: Seq<char>) -> bool {
    let year = field(child_of(e, "year"@));
    let ids = ids_of(e);
    &&& year.len() > 0 && ids.len() == 0 ==> tail == " ("@ + year + ")."@
    &&& year.len() > 0 && ids.len() > 0 ==> tail == " ("@ + year + "). "@ + ids
    &&& year.len() == 0 && ids.len() == 0 ==> tail == ". "@
    &&& year.len() == 0 && ids.len() > 0 ==> tail == ". . "@ + ids
}

/// Behind the source come the publisher after its place, the volume after a
/// space, and the pages after a colon; the year and the identifiers close the
/// citation.
pub proof fn the_volume_comes_behind_the_source(
    e: ElementV,
    source: Seq<char>,
    volume: Seq<char>,
    pages: Seq<char>,
)
    requires
        says(e, "source"@, source),
        child_of(e, "publisher-name"@) is None,
        says(e, "volume"@, volume),
        cited_pages(e) == pages,
        pages.len() == 0 || is_plain(pages),
    ensures
        exists|tail: Seq<char>|
            #[trigger] is_tail(e, tail) && ends_with(
                citation(e),
                source + " "@ + volume + (if pages.len() == 0 {
                    seq![]
                } else {
                    seq![':'] + pages
                }) + tail,
            ),
{
    reveal_strlit("");
    reveal_strlit(":");
    said_fields(e, "source"@, source);
    said_fields(e, "volume"@, volume);
    assert(white(' '));
    let front = with_part(
        with_part(seq![], cited_authors(e), without_end(cited_authors(e), '.', '.')),
        cited_title(e),
        strip(cited_title(e)),
    );
    let t4 = front + source;
    ends_come_off(t4, up_to_publisher(e));
    let t5 = t4 + " "@ + volume;
    ends_come_off(t5, t5 + ". "@);
    let mid = if pages.len() == 0 {
        seq![]
    } else {
        seq![':'] + pages
    };
    let x = t5 + mid;
    assert(up_to_pages(e) =~= x + ". "@);
    a_citation_closes(e, x);
    let tail = choose|tail: Seq<char>| #[trigger] is_tail(e, tail) && citation(e) == x + tail;
    let part = source + " "@ + volume + mid + tail;
    assert(x + tail =~= front + part);
    assert(citation(e).skip(front.len() as int) =~= part);
    assert(ends_with(citation(e), part));
}

/// The publisher of a citation comes behind its place and a colon.
pub proof fn the_publisher_comes_behind_its_place(
    e: ElementV,
    publisher: Seq<char>,
    place: Seq<char>,
)
    requires
        says(e, "publisher-name"@, publisher),
        says(e, "publisher-loc"@, place),
        child_of(e, "volume"@) is None,
        cited_pages(e).len() == 0,
    ensures
        exists|tail: Seq<char>|
            #[trigger] is_tail(e, tail) && ends_with(
                citation(e),
                place + ": "@ + publisher + tail,
            ),
{
    said_fields(e, "publisher-name"@, publisher);
    said_fields(e, "publisher-loc"@, place);
    assert(white(' '));
    let source = field(child_of(e, "source"@));
    let front = with_part(
        with_part(
            with_part(seq![], cited_authors(e), without_end(cited_authors(e), '.', '.')),
            cited_title(e),
            strip(cited_title(e)),
        ),
        source,
        source,
    );
    let x = front + (place + ": "@ + publisher);
    assert(up_to_pages(e) =~= x + ". "@);
    a_citation_closes(e, x);
    let tail = choose|tail: Seq<char>| #[trigger] is_tail(e, tail) && citation(e) == x + tail;
    let part = place + ": "@ + publisher + tail;
    assert(x + tail =~= front + part);
    assert(citation(e).skip(front.len() as int) =~= part);
    assert(ends_with(citation(e), part));
}

proof fn a_citation_closes(e: ElementV, x: Seq<char>)
    requires
        up_to_pages(e) == x + ". "@,
        x.len() > 0,
        x.last() != '.',
        x.last() != ' ',
    ensures
        exists|tail: Seq<char>| #[trigger] is_tail(e, tail) && citation(e) == x + tail,
{
    reveal_strlit(".");
    reveal_strlit(". ");
    reveal_strlit(". . ");
    reveal_strlit(").");
    reveal_strlit("). ");
    reveal_strlit(")");
    ends_come_off(x, x + ". "@);
    let year = field(child_of(e, "year"@));
    let ids = ids_of(e);
    if year.len() > 0 {
        let t7 = x + " ("@ + year + ")."@;
        let y = x + " ("@ + year + ")"@;
        stops_come_off(y);
        assert(y + "."@ =~= t7);
        if ids.len() == 0 {
            let tail = " ("@ + year + ")."@;
            assert(citation(e) =~= x + tail);
            assert(is_tail(e, tail));
        } else {
            let tail = " ("@ + year + "). "@ + ids;
            assert(citation(e) == y + ". "@ + ids);
            assert(citation(e) =~= x + tail);
            assert(is_tail(e, tail));
        }
    } else {
        let t7 = x + ". "@;
        assert(t7.last() == ' ');
        assert(without_end(t7, '.', '.') == t7);
        if ids.len() == 0 {
            assert(is_tail(e, ". "@));
            assert(citation(e) == x + ". "@);
        } else {
            let tail = ". . "@ + ids;
            assert(citation(e) == t7 + ". "@ + ids);
            assert(citation(e) =~= x + tail);
            assert(is_tail(e, tail));
        }
    }
}

/// The pages of a citation are its article number, or else its first and last
/// page with a dash between them, or its first page alone.
pub proof fn pages_are_a_number_or_a_range(e: ElementV, first: Seq<char>, last: Seq<char>)
    ensures
        says(e, "elocation-id"@, first) ==> cited_pages(e) == first,
        child_of(e, "elocation-id"@) is None && says(e, "fpage"@, first) && says(
            e,
            "lpage"@,
            last,
        ) ==> cited_pages(e) == first + seq!['\u{2013}'] + last,
        child_of(e, "elocation-id"@) is None && says(e, "fpage"@, first) && child_of(e, "lpage"@)
            is None ==> cited_pages(e) == first,
{
    if says(e, "elocation-id"@, first) {
        said_fields(e, "elocation-id"@, first);
    }
    if says(e, "fpage"@, first) {
        said_fields(e, "fpage"@, first);
        if says(e, "lpage"@, last) {
            said_fields(e, "lpage"@, last);
            assert(first.push('\u{2013}') + last =~= first + seq!['\u{2013}'] + last);
        }
    }
}

/// The title of a citation is its article title where it has one, and a
/// chapter, data, issue, part or translated title only without those before
/// it.
pub proof fn article_titles_come_first(e: ElementV, k: ElementV)
    ensures
        child_of(e, "article-title"@) == Some(k) ==> cited_title(e) == raw(k),
        child_of(e, "article-title"@) is None && child_of(e, "chapter-title"@) == Some(k)
            ==> cited_title(e) == raw(k),
        child_of(e, "article-title"@) is None && child_of(e, "chapter-title"@) is None && child_of(
            e,
            "data-title"@,
        ) == Some(k) ==> cited_title(e) == raw(k),
{
}

proof fn names_stay(v: Seq<ElementV>, i: int, done: Seq<Seq<char>>, n: Seq<char>)
    requires
        0 <= i,
        done.contains(n),
    ensures
        cited_names(v, i, done).contains(n),
    decreases v.len() - i,
{
    if i < v.len() {
        let k = done.index_of(n);
        assert forall|x: Seq<char>| #[trigger] done.push(x).contains(n) by {
            assert(done.push(x)[k] == n);
        }
        reveal_with_fuel(cited_names, 2);
        let next = cited_names(v.take(i + 1), i, done);
        assert(v.take(i + 1)[i] == v[i]);
        assert(cited_names(v, i, done) == cited_names(v, i + 1, next));
        assert(next.contains(n));
        names_stay(v, i + 1, next, n);
    }
}

proof fn names_come_in(
    v: Seq<ElementV>,
    i: int,
    done: Seq<Seq<char>>,
    k: int,
    s: Seq<char>,
    g: Seq<char>,
)
    requires
        0 <= i <= k < v.len(),
        v[k].tag == "name"@,
        says(v[k], "surname"@, s),
        says(v[k], "given-names"@, g),
    ensures
        cited_names(v, i, done).contains(s + seq![' '] + g),
    decreases v.len() - i,
{
    reveal_with_fuel(cited_names, 2);
    let next = cited_names(v.take(i + 1), i, done);
    assert(v.take(i + 1)[i] == v[i]);
    assert(cited_names(v, i, done) == cited_names(v, i + 1, next));
    if i == k {
        plain_texts_stay(s);
        plain_texts_stay(g);
        let n = s + seq![' '] + g;
        assert(next == done.push(n));
        assert(next[done.len() as int] == n);
        names_stay(v, i + 1, next, n);
    } else {
        names_come_in(v, i + 1, next, k, s, g);
    }
}

proof fn no_names(v: Seq<ElementV>, i: int, done: Seq<Seq<char>>)
    requires
        0 <= i,
        forall|k: int| i <= k < v.len() ==> (#[trigger] v[k]).tag != "name"@,
    ensures
        cited_names(v, i, done) == done,
    decreases v.len() - i,
{
    if i < v.len() {
        no_names(v, i + 1, done);
    }
}

/// A person of a citation reads surname first, with a space before the given
/// names; the only person is all that the authors say.
pub proof fn names_read_surname_first(e: ElementV, k: int, s: Seq<char>, g: Seq<char>)
    requires
        0 <= k < self_and_under(e).len(),
        self_and_under(e)[k].tag == "name"@,
        says(self_and_under(e)[k], "surname"@, s),
        says(self_and_under(e)[k], "given-names"@, g),
    ensures
        cited_names(self_and_under(e), 0, seq![]).contains(s + seq![' '] + g),
        (forall|q: int|
            0 <= q < self_and_under(e).len() && q != k ==> (#[trigger] self_and_under(e)[q]).tag
                != "name"@) && first_tagged(self_and_under(e), "etal"@) is None ==> cited_authors(e)
            == s + seq![' '] + g,
{
    let v = self_and_under(e);
    names_come_in(v, 0, seq![], k, s, g);
    if forall|q: int| 0 <= q < v.len() && q != k ==> (#[trigger] v[q]).tag != "name"@ {
        one_name(v, 0, k, s, g);
    }
}

proof fn one_name(v: Seq<ElementV>, i: int, k: int, s: Seq<char>, g: Seq<char>)
    requires
        0 <= i <= k < v.len(),
        v[k].tag == "name"@,
        says(v[k], "surname"@, s),
        says(v[k], "given-names"@, g),
        forall|q: int| 0 <= q < v.len() && q != k ==> (#[trigger] v[q]).tag != "name"@,
    ensures
        cited_names(v, i, seq![]) == seq![s + seq![' '] + g],
    decreases v.len() - i,
{
    if i < k {
        one_name(v, i + 1, k, s, g);
    } else {
        plain_texts_stay(s);
        plain_texts_stay(g);
        let n = s + seq![' '] + g;
        assert(Seq::<Seq<char>>::empty().push(n) =~= seq![n]);
        no_names(v, i + 1, seq![n]);
    }
}

/// The only identifier of a citation reads as its kind in capitals, a colon
/// and its text.
pub proof fn identifiers_name_their_kind(e: ElementV, kind: Seq<char>, id: Seq<char>)
    requires
        kids_of(e, "pub-id"@).len() == 1,
        attr_of(kids_of(e, "pub-id"@)[0], "assigning-authority"@) is None,
        attr_of(kids_of(e, "pub-id"@)[0], "pub-id-type"@) == Some(kind),
        head(kids_of(e, "pub-id"@)[0]) == Some(id),
        is_plain(kind),
        is_plain(id),
    ensures
        ids_of(e) == uppercase(kind) + seq![':', ' '] + id,
{
    reveal_strlit(": ");
    plain_texts_stay(kind);
    plain_texts_stay(id);
    reveal_with_fuel(pub_ids, 2);
    assert(": "@ =~= seq![':', ' ']);
}

} // verus!
