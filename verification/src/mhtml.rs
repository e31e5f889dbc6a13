//! Web archives: a page and its images in one MIME message.
//!
//! The page is the root of the first `multipart/related` part. Images are the
//! image parts beside it, named by their location, by that location resolved
//! against the page's, and by their content id. The first part to claim a
//! name keeps it.

use crate::document::{nodes_view, Node};
use crate::html::{convert_html, page};
use crate::location::{
    base_of, cid_key, has_cid, is_cid, joined_location, key_of_cid, location_joined, resolve_base,
};
use crate::parse::html_items;
use crate::text::{
    chars_of, has_prefix, is, lowered, push_str, same, starts_with, string_of, strip, to_lower,
    trim,
};
use mail_parser::MimeHeaders;
use vstd::prelude::*;

verus! {

// ------------------------------------------------------------ messages

/// The type of a part's content.
pub struct MediaType {
    pub ctype: String,
    pub subtype: Option<String>,
    /// The content id of the root among the parts.
    pub start: Option<String>,
}

/// View of a [`MediaType`].
#[verifier::ext_equal]
pub struct MediaTypeV {
    pub ctype: Seq<char>,
    pub subtype: Option<Seq<char>>,
    pub start: Option<Seq<char>>,
}

/// View of an optional text.
pub open spec fn opt(o: Option<String>) -> Option<Seq<char>> {
    match o {
        Some(s) => Some(s@),
        None => None,
    }
}

impl View for MediaType {
    type V = MediaTypeV;

    open spec fn view(&self) -> MediaTypeV {
        MediaTypeV { ctype: self.ctype@, subtype: opt(self.subtype), start: opt(self.start) }
    }
}

/// A part of a message.
pub struct MimePart {
    pub kind: Option<MediaType>,
    pub location: Option<String>,
    pub id: Option<String>,
    /// The places of the parts that a multipart part holds.
    pub children: Option<Vec<u32>>,
    pub text: Option<String>,
    pub data: Vec<u8>,
}

/// View of a [`MimePart`].
#[verifier::ext_equal]
pub struct MimePartV {
    pub kind: Option<MediaTypeV>,
    pub location: Option<Seq<char>>,
    pub id: Option<Seq<char>>,
    pub children: Option<Seq<u32>>,
    pub text: Option<Seq<char>>,
    pub data: Seq<u8>,
}

impl View for MimePart {
    type V = MimePartV;

    open spec fn view(&self) -> MimePartV {
        MimePartV {
            kind: match self.kind {
                Some(k) => Some(k@),
                None => None,
            },
            location: opt(self.location),
            id: opt(self.id),
            children: match self.children {
                Some(c) => Some(c@),
                None => None,
            },
            text: opt(self.text),
            data: self.data@,
        }
    }
}

/// Views of parts.
pub open spec fn parts_view(v: Seq<MimePart>) -> Seq<MimePartV> {
    Seq::new(v.len(), |i: int| v[i]@)
}

/// View of a message.
pub open spec fn message_view(o: Option<Vec<MimePart>>) -> Option<Seq<MimePartV>> {
    match o {
        Some(v) => Some(parts_view(v@)),
        None => None,
    }
}

/// The parts of the message that bytes are; none where they are no message.
pub uninterp spec fn message_parts(bytes: Seq<u8>) -> Option<Seq<MimePartV>>;

/// Calls `mail_parser::MessageParser::parse` with its default settings, and
/// hands out each part's headers, children, text and bytes as the parser
/// gives them. What is claimed is that the result depends on the bytes alone.
#[verifier::external_body]
pub(crate) fn parse_message(bytes: &[u8]) -> (r: Option<Vec<MimePart>>)
    ensures
        message_view(r) == message_parts(bytes@),
{
    let message = mail_parser::MessageParser::default().parse(bytes)?;
    Some(message.parts.iter().map(|p| MimePart {
        kind: p.content_type().map(|c| MediaType {
            ctype: c.ctype().into(),
            subtype: c.subtype().map(Into::into),
            start: c.attribute("start").map(Into::into),
        }),
        location: p.content_location().map(Into::into),
        id: p.content_id().map(Into::into),
        children: p.sub_parts().map(Into::into),
        text: p.text_contents().map(Into::into),
        data: p.contents().into(),
    }).collect())
}

/// The type of a part's content in lower case.
pub open spec fn media(p: MimePartV) -> Option<Seq<char>> {
    match p.kind {
        None => None,
        Some(k) => Some(
            lowered(
                match k.subtype {
                    Some(s) => k.ctype + "/"@ + s,
                    None => k.ctype,
                },
            ),
        ),
    }
}

fn has_media(p: &MimePart, name: &str) -> (r: bool)
    ensures
        r == (media(p@) == Some(name@)),
{
    match &p.kind {
        None => false,
        Some(k) => {
            let mut t = chars_of(k.ctype.as_str());
            match &k.subtype {
                Some(s) => {
                    push_str(&mut t, "/");
                    push_str(&mut t, s.as_str());
                },
                None => {},
            }
            is(&to_lower(&t), name)
        },
    }
}

/// The places of the parts that a part holds.
pub open spec fn kids(p: MimePartV) -> Seq<u32> {
    match p.children {
        Some(c) => c,
        None => seq![],
    }
}

fn count_kids(p: &MimePart) -> (r: usize)
    ensures
        r == kids(p@).len(),
{
    match &p.children {
        Some(c) => c.len(),
        None => 0,
    }
}

fn kid(p: &MimePart, i: usize) -> (r: usize)
    requires
        i < kids(p@).len(),
    ensures
        r == kids(p@)[i as int],
{
    match &p.children {
        Some(c) => c[i] as usize,
        None => 0,
    }
}

/// Whether a place is that of a part below another. The parts of a message
/// stand before those that they hold.
pub open spec fn below(v: Seq<MimePartV>, at: int, k: int) -> bool {
    at < k < v.len()
}

/// The places of a part and those under it in order, added to `out`.
pub open spec fn walked(v: Seq<MimePartV>, at: int, out: Seq<int>) -> Seq<int>
    decreases v.len() - at, kids(v[at]).len() + 1,
{
    if at < 0 || at >= v.len() {
        out
    } else {
        walked_kids(v, at, 0, out.push(at))
    }
}

/// The places under a part's children from `i` on, added to `out`.
pub open spec fn walked_kids(v: Seq<MimePartV>, at: int, i: int, out: Seq<int>) -> Seq<int>
    decreases v.len() - at, kids(v[at]).len() - i,
{
    if at < 0 || at >= v.len() || i < 0 || i >= kids(v[at]).len() {
        out
    } else {
        let k = kids(v[at])[i] as int;
        walked_kids(
            v,
            at,
            i + 1,
            if below(v, at, k) {
                walked(v, k, out)
            } else {
                out
            },
        )
    }
}

/// Views of places.
pub open spec fn ints(v: Seq<usize>) -> Seq<int> {
    Seq::new(v.len(), |i: int| v[i] as int)
}

/// Adds the places of a part and those under it.
pub fn walk(parts: &Vec<MimePart>, root: usize, out: &mut Vec<usize>)
    requires
        root < parts@.len(),
    ensures
        ints(final(out)@) == walked(parts_view(parts@), root as int, ints(old(out)@)),
    decreases parts@.len() - root,
{
    let ghost v = parts_view(parts@);
    let ghost first = ints(out@);
    out.push(root);
    assert(ints(out@) =~= first.push(root as int));
    assert(v[root as int] == parts@[root as int]@);
    let n = count_kids(&parts[root]);
    let mut i: usize = 0;
    while i < n
        invariant
            i <= n == kids(v[root as int]).len(),
            root < parts@.len(),
            v == parts_view(parts@),
            v[root as int] == parts@[root as int]@,
            walked(v, root as int, first) == walked_kids(v, root as int, i as int, ints(out@)),
        decreases n - i,
    {
        let k = kid(&parts[root], i);
        if root < k && k < parts.len() {
            walk(parts, k, out);
        }
        i += 1;
    }
}

// ------------------------------------------------------------ the page

/// Why an archive was not opened.
#[derive(Debug, PartialEq, Eq)]
pub enum MhtmlError {
    /// The message has no type.
    NoContentType,
    /// The message has no related parts.
    NoRelated,
    /// There are no related parts in it.
    EmptyRelated,
    /// The root that is named is not there.
    NoStart,
    /// The root is no page.
    NoHtml,
    /// The page is empty.
    EmptyPage,
}

impl MhtmlError {
    /// The error in words.
    pub open spec fn words(&self) -> Seq<char> {
        match self {
            MhtmlError::NoContentType => "mhtml: MHTML input has no MIME Content-Type header."@,
            MhtmlError::NoRelated => "mhtml: MHTML input has no multipart/related root."@,
            MhtmlError::EmptyRelated => "mhtml: The MHTML multipart/related root is empty."@,
            MhtmlError::NoStart => "mhtml: The MHTML start part was not found."@,
            MhtmlError::NoHtml => "mhtml: The MHTML root entity has no HTML representation."@,
            MhtmlError::EmptyPage => "mhtml: The MHTML HTML root part is empty."@,
        }
    }

    /// The error in words.
    pub fn message(&self) -> (r: String)
        ensures
            r@ == self.words(),
    {
        let s = match self {
            MhtmlError::NoContentType => "mhtml: MHTML input has no MIME Content-Type header.",
            MhtmlError::NoRelated => "mhtml: MHTML input has no multipart/related root.",
            MhtmlError::EmptyRelated => "mhtml: The MHTML multipart/related root is empty.",
            MhtmlError::NoStart => "mhtml: The MHTML start part was not found.",
            MhtmlError::NoHtml => "mhtml: The MHTML root entity has no HTML representation.",
            MhtmlError::EmptyPage => "mhtml: The MHTML HTML root part is empty.",
        };
        string_of(&chars_of(s))
    }
}

/// The page that a part is, or that the last of its alternatives that has one
/// has.
pub open spec fn html_root(v: Seq<MimePartV>, at: int) -> Option<int>
    decreases v.len() - at, kids(v[at]).len() + 1,
{
    if at < 0 || at >= v.len() {
        None
    } else if media(v[at]) == Some("text/html"@) {
        Some(at)
    } else if media(v[at]) == Some("multipart/alternative"@) {
        last_html(v, at, kids(v[at]).len() as int)
    } else {
        None
    }
}

/// The page of the last among the first `n` alternatives that has one.
pub open spec fn last_html(v: Seq<MimePartV>, at: int, n: int) -> Option<int>
    decreases v.len() - at, n,
{
    if at < 0 || at >= v.len() || n <= 0 || n > kids(v[at]).len() {
        None
    } else {
        let k = kids(v[at])[n - 1] as int;
        if below(v, at, k) && html_root(v, k) is Some {
            html_root(v, k)
        } else {
            last_html(v, at, n - 1)
        }
    }
}

/// View of an optional place.
pub open spec fn opt_int(o: Option<usize>) -> Option<int> {
    match o {
        Some(n) => Some(n as int),
        None => None,
    }
}

fn find_html_root(parts: &Vec<MimePart>, entity: usize) -> (r: Option<usize>)
    requires
        entity < parts@.len(),
    ensures
        opt_int(r) == html_root(parts_view(parts@), entity as int),
        r matches Some(k) ==> k < parts@.len(),
    decreases parts@.len() - entity,
{
    let ghost v = parts_view(parts@);
    assert(v[entity as int] == parts@[entity as int]@);
    if has_media(&parts[entity], "text/html") {
        return Some(entity);
    }
    if !has_media(&parts[entity], "multipart/alternative") {
        return None;
    }
    let mut n = count_kids(&parts[entity]);
    while n > 0
        invariant
            n <= kids(v[entity as int]).len(),
            entity < parts@.len(),
            v == parts_view(parts@),
            v[entity as int] == parts@[entity as int]@,
            html_root(parts_view(parts@), entity as int) == last_html(v, entity as int, n as int),
        decreases n,
    {
        let k = kid(&parts[entity], n - 1);
        if entity < k && k < parts.len() {
            match find_html_root(parts, k) {
                Some(r) => {
                    return Some(r);
                },
                None => {},
            }
        }
        n -= 1;
    }
    None
}

/// The first place from `i` on of a part with related parts.
pub open spec fn first_related(v: Seq<MimePartV>, ids: Seq<int>, i: int) -> Option<int>
    decreases ids.len() - i,
{
    if i >= ids.len() {
        None
    } else if media(v[ids[i]]) == Some("multipart/related"@) {
        Some(ids[i])
    } else {
        first_related(v, ids, i + 1)
    }
}

/// The first child from `i` on of a part that has a content id.
pub open spec fn child_with_id(v: Seq<MimePartV>, at: int, i: int, key: Seq<char>) -> Option<int>
    decreases kids(v[at]).len() - i,
{
    if i >= kids(v[at]).len() {
        None
    } else {
        let k = kids(v[at])[i] as int;
        if below(v, at, k) && v[k].id is Some && cid_key(v[k].id->0) == key {
            Some(k)
        } else {
            child_with_id(v, at, i + 1, key)
        }
    }
}

/// The entity at the root of related parts.
pub open spec fn entity(v: Seq<MimePartV>, scope: int) -> Result<int, MhtmlError> {
    let ids = kids(v[scope]);
    if ids.len() == 0 {
        Err(MhtmlError::EmptyRelated)
    } else {
        match v[scope].kind->0.start {
            Some(s) => match child_with_id(v, scope, 0, cid_key(s)) {
                Some(k) => Ok(k),
                None => Err(MhtmlError::NoStart),
            },
            None => if below(v, scope, ids[0] as int) {
                Ok(ids[0] as int)
            } else {
                Err(MhtmlError::NoHtml)
            },
        }
    }
}

/// The places of the related parts and of the page among them.
pub open spec fn root(v: Seq<MimePartV>) -> Result<(int, int), MhtmlError> {
    if v.len() == 0 || v[0].kind is None {
        Err(MhtmlError::NoContentType)
    } else {
        match first_related(v, walked(v, 0, seq![]), 0) {
            None => if media(v[0]) == Some("text/html"@) {
                Ok((0, 0))
            } else {
                Err(MhtmlError::NoRelated)
            },
            Some(scope) => match entity(v, scope) {
                Err(e) => Err(e),
                Ok(k) => match html_root(v, k) {
                    Some(r) => Ok((scope, r)),
                    None => Err(MhtmlError::NoHtml),
                },
            },
        }
    }
}

/// View of the places of related parts and page.
pub open spec fn root_view(r: Result<(usize, usize), MhtmlError>) -> Result<
    (int, int),
    MhtmlError,
> {
    match r {
        Ok(p) => Ok((p.0 as int, p.1 as int)),
        Err(e) => Err(e),
    }
}

proof fn walked_places_are_parts(v: Seq<MimePartV>, at: int, out: Seq<int>)
    requires
        forall|k: int| 0 <= k < out.len() ==> 0 <= #[trigger] out[k] < v.len(),
    ensures
        forall|k: int|
            0 <= k < walked(v, at, out).len() ==> 0 <= #[trigger] walked(v, at, out)[k] < v.len(),
    decreases v.len() - at, kids(v[at]).len() + 1,
{
    if 0 <= at < v.len() {
        let next = out.push(at);
        walked_kids_are_parts(v, at, 0, next);
        assert(walked(v, at, out) == walked_kids(v, at, 0, next));
    }
}

proof fn walked_kids_are_parts(v: Seq<MimePartV>, at: int, i: int, out: Seq<int>)
    requires
        forall|k: int| 0 <= k < out.len() ==> 0 <= #[trigger] out[k] < v.len(),
    ensures
        forall|k: int|
            0 <= k < walked_kids(v, at, i, out).len() ==> 0 <= #[trigger] walked_kids(
                v,
                at,
                i,
                out,
            )[k] < v.len(),
    decreases v.len() - at, kids(v[at]).len() - i,
{
    if !(at < 0 || at >= v.len() || i < 0 || i >= kids(v[at]).len()) {
        let k = kids(v[at])[i] as int;
        let next = if below(v, at, k) {
            walked(v, k, out)
        } else {
            out
        };
        if below(v, at, k) {
            walked_places_are_parts(v, k, out);
        }
        walked_kids_are_parts(v, at, i + 1, next);
        assert(walked_kids(v, at, i, out) == walked_kids(v, at, i + 1, next));
    }
}

fn find_related(parts: &Vec<MimePart>, ids: &Vec<usize>) -> (r: Option<usize>)
    requires
        forall|k: int| 0 <= k < ids@.len() ==> #[trigger] ids@[k] < parts@.len(),
    ensures
        opt_int(r) == first_related(parts_view(parts@), ints(ids@), 0),
        match r {
            Some(k) => k < parts@.len() && parts@[k as int].kind is Some,
            None => true,
        },
{
    let ghost v = parts_view(parts@);
    let ghost w = ints(ids@);
    let mut i: usize = 0;
    while i < ids.len()
        invariant
            i <= ids@.len(),
            v == parts_view(parts@),
            w == ints(ids@),
            forall|k: int| 0 <= k < ids@.len() ==> #[trigger] ids@[k] < parts@.len(),
            first_related(v, w, 0) == first_related(v, w, i as int),
        decreases ids@.len() - i,
    {
        let k = ids[i];
        assert(w[i as int] == k);
        assert(v[k as int] == parts@[k as int]@);
        if has_media(&parts[k], "multipart/related") {
            return Some(k);
        }
        i += 1;
    }
    None
}

fn find_child(parts: &Vec<MimePart>, at: usize, key: &Vec<char>) -> (r: Option<usize>)
    requires
        at < parts@.len(),
    ensures
        opt_int(r) == child_with_id(parts_view(parts@), at as int, 0, key@),
        r matches Some(k) ==> k < parts@.len(),
{
    let ghost v = parts_view(parts@);
    assert(v[at as int] == parts@[at as int]@);
    let n = count_kids(&parts[at]);
    let mut i: usize = 0;
    while i < n
        invariant
            i <= n == kids(v[at as int]).len(),
            at < parts@.len(),
            v == parts_view(parts@),
            v[at as int] == parts@[at as int]@,
            child_with_id(v, at as int, 0, key@) == child_with_id(v, at as int, i as int, key@),
        decreases n - i,
    {
        let k = kid(&parts[at], i);
        if at < k && k < parts.len() {
            assert(v[k as int] == parts@[k as int]@);
            match &parts[k].id {
                Some(id) => {
                    if same(&key_of_cid(&chars_of(id.as_str())), key) {
                        return Some(k);
                    }
                },
                None => {},
            }
        }
        i += 1;
    }
    None
}

/// The places of the related parts and of the page among them.
pub fn find_root(parts: &Vec<MimePart>) -> (r: Result<(usize, usize), MhtmlError>)
    ensures
        root_view(r) == root(parts_view(parts@)),
        r matches Ok(p) ==> p.0 < parts@.len() && p.1 < parts@.len(),
{
    let ghost v = parts_view(parts@);
    if parts.len() == 0 {
        return Err(MhtmlError::NoContentType);
    }
    assert(v[0] == parts@[0]@);
    if parts[0].kind.is_none() {
        return Err(MhtmlError::NoContentType);
    }
    let mut all: Vec<usize> = Vec::new();
    assert(ints(all@) =~= seq![]);
    walk(parts, 0, &mut all);
    assert forall|k: int| 0 <= k < all@.len() implies #[trigger] all@[k] < parts@.len() by {
        walked_places_are_parts(v, 0, seq![]);
        assert(ints(all@)[k] == all@[k]);
    }
    let scope = match find_related(parts, &all) {
        None => {
            if has_media(&parts[0], "text/html") {
                return Ok((0, 0));
            }
            return Err(MhtmlError::NoRelated);
        },
        Some(k) => k,
    };
    assert(v[scope as int] == parts@[scope as int]@);
    if count_kids(&parts[scope]) == 0 {
        return Err(MhtmlError::EmptyRelated);
    }
    let start = match &parts[scope].kind {
        Some(k) => &k.start,
        None => &None,
    };
    let at = match start {
        Some(s) => match find_child(parts, scope, &key_of_cid(&chars_of(s.as_str()))) {
            Some(k) => k,
            None => {
                return Err(MhtmlError::NoStart);
            },
        },
        None => {
            let k = kid(&parts[scope], 0);
            if !(scope < k && k < parts.len()) {
                return Err(MhtmlError::NoHtml);
            }
            k
        },
    };
    match find_html_root(parts, at) {
        Some(k) => Ok((scope, k)),
        None => Err(MhtmlError::NoHtml),
    }
}

// ------------------------------------------------------------ images

/// A name that an image part has claimed.
pub struct Claim {
    pub key: Vec<char>,
    pub part: usize,
}

/// View of a [`Claim`].
#[verifier::ext_equal]
pub struct ClaimV {
    pub key: Seq<char>,
    pub part: int,
}

impl View for Claim {
    type V = ClaimV;

    open spec fn view(&self) -> ClaimV {
        ClaimV { key: self.key@, part: self.part as int }
    }
}

/// Views of claims.
pub open spec fn claims_view(v: Seq<Claim>) -> Seq<ClaimV> {
    Seq::new(v.len(), |i: int| v[i]@)
}

/// The part that was first to claim a name.
pub open spec fn holder(v: Seq<ClaimV>, i: int, key: Seq<char>) -> Option<int>
    decreases v.len() - i,
{
    if i >= v.len() {
        None
    } else if v[i].key == key {
        Some(v[i].part)
    } else {
        holder(v, i + 1, key)
    }
}

/// A name that a part has claimed stays with it, whatever is claimed later.
pub proof fn the_first_claim_holds(v: Seq<ClaimV>, later: Seq<ClaimV>, i: int, key: Seq<char>)
    requires
        0 <= i,
        holder(v, i, key) is Some,
    ensures
        holder(v + later, i, key) == holder(v, i, key),
    decreases v.len() - i,
{
    assert((v + later)[i] == v[i]);
    if v[i].key != key {
        the_first_claim_holds(v, later, i + 1, key);
    }
}

/// Whether a part is an image. One without data is an image too: it shows
/// nothing, and no later part takes its names.
pub open spec fn is_image(p: MimePartV) -> bool {
    p.kind is Some && p.children is None && lowered(p.kind->0.ctype) == "image"@
}

/// The claims of a part added to those before.
pub open spec fn claims_of(p: MimePartV, at: int, base: Seq<char>, done: Seq<ClaimV>) -> Seq<ClaimV> {
    if !is_image(p) {
        done
    } else {
        let a = match p.location {
            Some(l) => done.push(ClaimV { key: strip(l), part: at }).push(
                ClaimV { key: location_joined(base, strip(l)), part: at },
            ),
            None => done,
        };
        match p.id {
            Some(id) => a.push(ClaimV { key: cid_key(id), part: at }),
            None => a,
        }
    }
}

/// The claims of the parts at the places from `i` on, added to `done`.
pub open spec fn claims_from(
    v: Seq<MimePartV>,
    ids: Seq<int>,
    i: int,
    base: Seq<char>,
    done: Seq<ClaimV>,
) -> Seq<ClaimV>
    decreases ids.len() - i,
{
    if i >= ids.len() {
        done
    } else {
        claims_from(v, ids, i + 1, base, claims_of(v[ids[i]], ids[i], base, done))
    }
}

proof fn claims_name_their_parts(
    v: Seq<MimePartV>,
    ids: Seq<int>,
    i: int,
    base: Seq<char>,
    done: Seq<ClaimV>,
)
    requires
        0 <= i,
        forall|k: int|
            0 <= k < done.len() ==> ids.contains((#[trigger] done[k]).part) && is_image(
                v[done[k].part],
            ),
    ensures
        forall|k: int|
            0 <= k < claims_from(v, ids, i, base, done).len() ==> ids.contains(
                (#[trigger] claims_from(v, ids, i, base, done)[k]).part,
            ) && is_image(v[claims_from(v, ids, i, base, done)[k].part]),
    decreases ids.len() - i,
{
    if i < ids.len() {
        assert(ids.contains(ids[i]));
        let next = claims_of(v[ids[i]], ids[i], base, done);
        assert forall|k: int| 0 <= k < next.len() implies ids.contains((#[trigger] next[k]).part)
            && is_image(v[next[k].part]) by {
            if k < done.len() {
                assert(next[k] == done[k]);
            }
        }
        claims_name_their_parts(v, ids, i + 1, base, next);
        assert(claims_from(v, ids, i, base, done) == claims_from(v, ids, i + 1, base, next));
    }
}

proof fn holders_have_claims(v: Seq<ClaimV>, i: int, key: Seq<char>)
    requires
        0 <= i,
    ensures
        holder(v, i, key) matches Some(p) ==> exists|k: int|
            0 <= k < v.len() && (#[trigger] v[k]).part == p && v[k].key == key,
    decreases v.len() - i,
{
    if i < v.len() && v[i].key != key {
        holders_have_claims(v, i + 1, key);
    }
}

/// An image of a page comes from a part under the scope that the page stands
/// in, and that part is an image.
pub proof fn images_come_from_the_scope(
    v: Seq<MimePartV>,
    scope: int,
    base: Seq<char>,
    fetch: bool,
    src: Seq<char>,
)
    requires
        0 <= scope < v.len() <= usize::MAX,
    ensures
        found(
            claims_from(v, walked(v, scope, seq![]), 0, base, seq![]),
            base,
            fetch,
            src,
        ) matches Found::Part(k) ==> walked(v, scope, seq![]).contains(k as int) && is_image(
            v[k as int],
        ),
{
    let ids = walked(v, scope, seq![]);
    let claims = claims_from(v, ids, 0, base, seq![]);
    walked_places_are_parts(v, scope, seq![]);
    claims_name_their_parts(v, ids, 0, base, seq![]);
    let s = strip(src);
    holders_have_claims(claims, 0, cid_key(s));
    holders_have_claims(claims, 0, location_joined(base, s));
}

fn claim(out: &mut Vec<Claim>, key: Vec<char>, part: usize)
    ensures
        claims_view(final(out)@) == claims_view(old(out)@).push(
            ClaimV { key: key@, part: part as int },
        ),
{
    let ghost before = out@;
    let c = Claim { key, part };
    out.push(c);
    assert(claims_view(out@) =~= claims_view(before).push(c@));
}

fn add_claims(p: &MimePart, at: usize, base: &Vec<char>, out: &mut Vec<Claim>)
    ensures
        claims_view(final(out)@) == claims_of(p@, at as int, base@, claims_view(old(out)@)),
{
    let image = match &p.kind {
        Some(k) => is(&to_lower(&chars_of(k.ctype.as_str())), "image"),
        None => false,
    };
    if !image || p.children.is_some() {
        return;
    }
    match &p.location {
        Some(l) => {
            let key = trim(&chars_of(l.as_str()));
            let resolved = joined_location(base, &key);
            claim(out, key, at);
            claim(out, resolved, at);
        },
        None => {},
    }
    match &p.id {
        Some(id) => {
            claim(out, key_of_cid(&chars_of(id.as_str())), at);
        },
        None => {},
    }
}

/// The names that the image parts under a part claim.
pub fn collect_images(parts: &Vec<MimePart>, scope: usize, base: &Vec<char>) -> (r: Vec<Claim>)
    requires
        scope < parts@.len(),
    ensures
        claims_view(r@) == claims_from(
            parts_view(parts@),
            walked(parts_view(parts@), scope as int, seq![]),
            0,
            base@,
            seq![],
        ),
{
    let ghost v = parts_view(parts@);
    let mut ids: Vec<usize> = Vec::new();
    assert(ints(ids@) =~= seq![]);
    walk(parts, scope, &mut ids);
    let ghost w = ints(ids@);
    proof {
        walked_places_are_parts(v, scope as int, seq![]);
    }
    let mut out: Vec<Claim> = Vec::new();
    let mut i: usize = 0;
    assert(claims_view(out@) =~= seq![]);
    while i < ids.len()
        invariant
            i <= ids@.len(),
            v == parts_view(parts@),
            w == ints(ids@),
            forall|k: int| 0 <= k < w.len() ==> 0 <= #[trigger] w[k] < v.len(),
            claims_from(v, w, 0, base@, seq![]) == claims_from(
                v,
                w,
                i as int,
                base@,
                claims_view(out@),
            ),
        decreases ids@.len() - i,
    {
        assert(w[i as int] == ids@[i as int]);
        assert(v[w[i as int]] == parts@[ids@[i as int] as int]@);
        add_claims(&parts[ids[i]], ids[i], base, &mut out);
        i += 1;
    }
    out
}

/// The media type of an image part.
pub fn mimetype(p: &MimePart) -> (r: String)
    ensures
        r@ == match p@.kind {
            Some(k) => k.ctype + "/"@ + (match k.subtype {
                Some(s) => s,
                None => seq![],
            }),
            None => seq![],
        },
{
    let mut t: Vec<char> = Vec::new();
    assert(t@ =~= seq![]);
    match &p.kind {
        Some(k) => {
            t = chars_of(k.ctype.as_str());
            push_str(&mut t, "/");
            match &k.subtype {
                Some(s) => {
                    push_str(&mut t, s.as_str());
                },
                None => {
                    assert(t@ + Seq::<char>::empty() =~= t@);
                },
            }
        },
        None => {},
    }
    string_of(&t)
}

// ------------------------------------------------------------ archives

/// Where the image of a reference is.
#[derive(Debug, PartialEq, Eq)]
pub enum Found {
    /// In a part of the archive.
    Part(usize),
    /// In the reference itself.
    Inline,
    /// Nowhere.
    Missing,
}

/// An archive: its parts, its page, the page's base and the names of its
/// images.
pub struct Archive {
    pub parts: Vec<MimePart>,
    pub html: String,
    pub base: Vec<char>,
    pub images: Vec<Claim>,
    pub fetch_images: bool,
}

/// Where the image of a reference is.
pub open spec fn found(images: Seq<ClaimV>, base: Seq<char>, fetch: bool, src: Seq<char>) -> Found {
    let s = strip(src);
    if has_cid(s) {
        match holder(images, 0, cid_key(s)) {
            Some(k) => Found::Part(k as usize),
            None => Found::Missing,
        }
    } else {
        match holder(images, 0, location_joined(base, s)) {
            Some(k) => Found::Part(k as usize),
            None => if fetch && has_prefix(s, "data:"@) {
                Found::Inline
            } else {
                Found::Missing
            },
        }
    }
}

/// Where images are not asked for, none is found: an archive that was opened
/// so claims none, and data addresses are not read.
pub proof fn nothing_is_found_unasked(base: Seq<char>, src: Seq<char>)
    ensures
        found(seq![], base, false, src) == Found::Missing,
{
}

fn find_holder(v: &Vec<Claim>, key: &Vec<char>) -> (r: Option<usize>)
    ensures
        opt_int(r) == holder(claims_view(v@), 0, key@),
{
    let ghost w = claims_view(v@);
    let mut i: usize = 0;
    while i < v.len()
        invariant
            i <= v@.len(),
            w == claims_view(v@),
            holder(w, 0, key@) == holder(w, i as int, key@),
        decreases v@.len() - i,
    {
        assert(w[i as int] == v@[i as int]@);
        if same(&v[i].key, key) {
            return Some(v[i].part);
        }
        i += 1;
    }
    None
}

impl Archive {
    /// Where the image of a reference of the page is.
    pub fn resolve(&self, src: &str) -> (r: Found)
        ensures
            r == found(claims_view(self.images@), self.base@, self.fetch_images, src@),
    {
        let s = trim(&chars_of(src));
        if is_cid(&s) {
            return match find_holder(&self.images, &key_of_cid(&s)) {
                Some(k) => Found::Part(k),
                None => Found::Missing,
            };
        }
        match find_holder(&self.images, &joined_location(&self.base, &s)) {
            Some(k) => Found::Part(k),
            None => if self.fetch_images && starts_with(&s, "data:") {
                Found::Inline
            } else {
                Found::Missing
            },
        }
    }
}

/// The text of a part, if it is not blank.
pub open spec fn page_text(p: MimePartV) -> Option<Seq<char>> {
    match p.text {
        Some(t) => if strip(t).len() == 0 {
            None
        } else {
            Some(t)
        },
        None => None,
    }
}

/// The base of a page.
pub open spec fn page_base(p: MimePartV) -> Seq<char> {
    base_of(
        match p.location {
            Some(l) => Some(strip(l)),
            None => None,
        },
    )
}

/// Whether an archive was opened so.
pub open spec fn is_opened(
    parts: Option<Seq<MimePartV>>,
    fetch: bool,
    r: Result<Archive, MhtmlError>,
) -> bool {
    match parts {
        None => r matches Err(MhtmlError::NoContentType),
        Some(v) => match root(v) {
            Err(e) => r matches Err(x) && x == e,
            Ok((scope, at)) => match page_text(v[at]) {
                None => r matches Err(MhtmlError::EmptyPage),
                Some(t) => {
                    &&& r matches Ok(a)
                    &&& parts_view(a.parts@) == v
                    &&& a.html@ == t
                    &&& a.base@ == page_base(v[at])
                    &&& a.fetch_images == fetch
                    &&& claims_view(a.images@) == (if fetch {
                        claims_from(v, walked(v, scope, seq![]), 0, page_base(v[at]), seq![])
                    } else {
                        seq![]
                    })
                },
            },
        },
    }
}

/// Opens the archive that a message's parts are.
pub fn open_parts(parts: Vec<MimePart>, fetch_images: bool) -> (r: Result<Archive, MhtmlError>)
    ensures
        is_opened(Some(parts_view(parts@)), fetch_images, r),
{
    let ghost v = parts_view(parts@);
    let (scope, at) = match find_root(&parts) {
        Err(e) => {
            return Err(e);
        },
        Ok(p) => p,
    };
    assert(v[at as int] == parts@[at as int]@);
    let html = match &parts[at].text {
        None => {
            return Err(MhtmlError::EmptyPage);
        },
        Some(t) => chars_of(t.as_str()),
    };
    if trim(&html).len() == 0 {
        return Err(MhtmlError::EmptyPage);
    }
    let base = match &parts[at].location {
        Some(l) => {
            let t = string_of(&trim(&chars_of(l.as_str())));
            chars_of(resolve_base(Some(t.as_str())).as_str())
        },
        None => chars_of(resolve_base(None).as_str()),
    };
    let images = if fetch_images {
        collect_images(&parts, scope, &base)
    } else {
        Vec::new()
    };
    assert(!fetch_images ==> claims_view(images@) =~= seq![]);
    Ok(Archive { parts, html: string_of(&html), base, images, fetch_images })
}

/// A page's nodes and the archive that its pictures name images of.
pub struct Page {
    pub nodes: Vec<Node>,
    pub archive: Archive,
}

/// The backend of web archives.
pub struct MhtmlBackend {
    /// Whether pictures name their images.
    pub fetch_images: bool,
    /// Whether the page is to be rendered in a browser before it is read.
    pub use_web_browser: bool,
}

impl Default for MhtmlBackend {
    fn default() -> (r: Self)
        ensures
            !r.fetch_images && !r.use_web_browser,
    {
        MhtmlBackend { fetch_images: false, use_web_browser: false }
    }
}

impl MhtmlBackend {
    /// The archive that a file is.
    pub fn open(&self, bytes: &[u8]) -> (r: Result<Archive, MhtmlError>)
        ensures
            is_opened(message_parts(bytes@), self.fetch_images, r),
    {
        match parse_message(bytes) {
            None => Err(MhtmlError::NoContentType),
            Some(parts) => open_parts(parts, self.fetch_images),
        }
    }

    /// The nodes of an archive's page as it is stored. What a browser makes
    /// of the page is converted by [`convert_html`].
    pub fn convert(&self, bytes: &[u8], limit: usize) -> (r: Result<Page, MhtmlError>)
        ensures
            match r {
                Ok(p) => {
                    &&& is_opened(message_parts(bytes@), self.fetch_images, Ok(p.archive))
                    &&& nodes_view(p.nodes@) == page(
                        html_items(p.archive.html@),
                        limit as int,
                        self.fetch_images,
                    )
                },
                Err(e) => is_opened(message_parts(bytes@), self.fetch_images, Err(e)),
            },
    {
        match self.open(bytes) {
            Err(e) => Err(e),
            Ok(archive) => {
                let nodes = convert_html(archive.html.as_str(), limit, self.fetch_images);
                Ok(Page { nodes, archive })
            },
        }
    }
}

} // verus!
