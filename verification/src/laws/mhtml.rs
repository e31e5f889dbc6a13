//! Laws of web archives.

use crate::location::{cid_key, has_cid, location_joined};
use crate::mhtml::{
    child_with_id, claims_of, entity, found, holder, html_root, last_html, media, ClaimV, Found,
    MhtmlError, MimePartV,
};
use crate::text::{has_prefix, lowered, strip};
use vstd::prelude::*;

verus! {

proof fn media_types_differ()
    ensures
        "text/html"@ != "multipart/alternative"@,
        "text/html"@ != "multipart/related"@,
        "multipart/alternative"@ != "multipart/related"@,
{
    reveal_strlit("text/html");
    reveal_strlit("multipart/alternative");
    reveal_strlit("multipart/related");
    assert("text/html"@.len() == 9);
    assert("multipart/alternative"@.len() == 21);
    assert("multipart/related"@.len() == 17);
}

/// The type of a part is its type and subtype with a slash between them, in
/// lower case.
pub proof fn types_are_in_lower_case(p: MimePartV)
    requires
        p.kind is Some,
        p.kind->0.subtype is Some,
    ensures
        media(p) == Some(lowered(p.kind->0.ctype + seq!['/'] + p.kind->0.subtype->0)),
{
    reveal_strlit("/");
    assert("/"@ =~= seq!['/']);
}

/// Of several forms of one page the last one in HTML is shown.
pub proof fn the_last_page_of_several_is_shown(v: Seq<MimePartV>, at: int, n: int, k: int)
    requires
        0 <= at < v.len(),
        media(v[at]) == Some("multipart/alternative"@),
        v[at].children matches Some(c) && 0 < n <= c.len() && c[n - 1] == k,
        at < k < v.len(),
        media(v[k]) == Some("text/html"@),
        forall|i: int|
            n <= i < v[at].children->0.len() ==> {
                let q = #[trigger] v[at].children->0[i] as int;
                q < v.len() && at < q && media(v[q]) == Some("text/plain"@)
            },
    ensures
        html_root(v, at) == Some(k),
        html_root(v, k) == Some(k),
{
    media_types_differ();
    page_forms(v, at, n, k, v[at].children->0.len() as int);
}

proof fn page_forms(v: Seq<MimePartV>, at: int, n: int, k: int, m: int)
    requires
        0 <= at < v.len(),
        v[at].children matches Some(c) && 0 < n <= m <= c.len() && c[n - 1] == k,
        at < k < v.len(),
        media(v[k]) == Some("text/html"@),
        forall|i: int|
            n <= i < v[at].children->0.len() ==> {
                let q = #[trigger] v[at].children->0[i] as int;
                q < v.len() && at < q && media(v[q]) == Some("text/plain"@)
            },
    ensures
        last_html(v, at, m) == Some(k),
    decreases m,
{
    reveal_strlit("text/html");
    reveal_strlit("text/plain");
    reveal_strlit("multipart/alternative");
    assert("text/html"@.len() == 9);
    assert("text/plain"@.len() == 10);
    assert("multipart/alternative"@.len() == 21);
    assert(html_root(v, k) == Some(k));
    if n < m {
        let q = v[at].children->0[m - 1] as int;
        assert(media(v[q]) == Some("text/plain"@));
        assert(html_root(v, q) is None);
        page_forms(v, at, n, k, m - 1);
    }
}

/// The page of related parts is the one that is named as the start, and
/// without a name the first one.
pub proof fn the_start_is_the_page(v: Seq<MimePartV>, scope: int, k: int)
    requires
        0 <= scope < v.len(),
        v[scope].kind is Some,
        v[scope].children matches Some(c) && c.len() > 0,
        scope < k < v.len(),
    ensures
        v[scope].kind->0.start is None && v[scope].children->0[0] == k ==> entity(v, scope) == Ok::<
            int,
            MhtmlError,
        >(k),
        v[scope].kind->0.start is Some && v[scope].children->0.len() == 1 && v[scope].children->0[0]
            == k && (v[k].id matches Some(id) && cid_key(id) == cid_key(v[scope].kind->0.start->0)) ==> entity(
            v,
            scope,
        ) == Ok::<int, MhtmlError>(k),
{
    reveal_with_fuel(child_with_id, 2);
}

/// A picture of an archive is found by its location and by its content
/// identifier, and one that was found first stays.
pub proof fn pictures_are_found_by_their_keys(
    p: MimePartV,
    at: int,
    base: Seq<char>,
    done: Seq<ClaimV>,
)
    requires
        p.kind is Some,
        p.children is None,
        lowered(p.kind->0.ctype) == "image"@,
        done.len() == 0,
    ensures
        p.id matches Some(id) && p.location is None ==> holder(
            claims_of(p, at, base, done),
            0,
            cid_key(p.id->0),
        ) == Some(at),
        p.location matches Some(l) ==> holder(
            claims_of(p, at, base, done),
            0,
            location_joined(base, strip(p.location->0)),
        ) == Some(at),
{
    reveal_with_fuel(holder, 4);
}

/// What is no picture claims nothing.
pub proof fn only_pictures_are_found(p: MimePartV, at: int, base: Seq<char>, done: Seq<ClaimV>)
    requires
        p.kind is None || p.children is Some || lowered(p.kind->0.ctype) != "image"@,
    ensures
        claims_of(p, at, base, done) == done,
{
}

/// A reference to a content identifier leads to the part with it; other
/// references lead where they lie from the page. One that holds its data is
/// read from itself, where pictures are fetched.
pub proof fn references_lead_to_their_part(
    images: Seq<ClaimV>,
    base: Seq<char>,
    fetch: bool,
    src: Seq<char>,
    k: int,
)
    requires
        0 <= k <= usize::MAX,
    ensures
        has_cid(strip(src)) && holder(images, 0, cid_key(strip(src))) == Some(k) ==> found(
            images,
            base,
            fetch,
            src,
        ) == Found::Part(k as usize),
        has_cid(strip(src)) && holder(images, 0, cid_key(strip(src))) is None ==> found(
            images,
            base,
            fetch,
            src,
        ) == Found::Missing,
        !has_cid(strip(src)) && holder(images, 0, location_joined(base, strip(src))) == Some(k)
            ==> found(images, base, fetch, src) == Found::Part(k as usize),
        !has_cid(strip(src)) && holder(images, 0, location_joined(base, strip(src))) is None
            && has_prefix(strip(src), "data:"@) ==> found(images, base, fetch, src) == (if fetch {
            Found::Inline
        } else {
            Found::Missing
        }),
{
}

} // verus!
