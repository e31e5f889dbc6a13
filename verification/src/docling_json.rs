//! Documents in their JSON form.
//!
//! The body lists references to items in the lists of texts, groups, tables
//! and pictures. Each item is turned into the nodes that stand for it.

use crate::abw::data_address;
use crate::document::{
    any_flag, flags, grid, has_flag, heading, nodes_view, opt, paragraph, push_node, strs,
    table_view, CaptionParent, Node, NodeV, Table, TableStructure, TableStructureV, TableV,
};
use crate::inline::{between, wrap};
use crate::jats::next_level;
use crate::json::{
    element, elements, get, get_element, get_elements, get_flag, get_number, get_range, get_text,
    is_true, json_items, json_view, member, number_at, parse_json, place, range, text_at, JsonItem,
    JsonItemV,
};
use crate::location::last_slash;
use crate::odfbody::{decode_base64, from_base64};
use crate::text::{
    all_digits, chars_of, chars_or_empty, contains, contains_from, copy, decimal,
    decimals_read_back, escape_text, escaped, find_from, has_prefix, index_from, is, is_digit,
    is_letter_or_digit, join, joined, letter_or_digit, lowered, or_empty, parse_uint, push_all,
    push_str, same, slice, starts_with, str_eq, string_of, strip, texts, texts_push, to_lower, trim,
    uint, uint_is_positive,
};
use vstd::prelude::*;

verus! {

// ------------------------------------------------------------ references

/// The text of a reference.
pub open spec fn ref_text(v: Seq<JsonItemV>, r: Option<int>) -> Seq<char> {
    or_empty(text_at(v, member(v, r, "$ref"@)))
}

/// The path of a reference behind its mark.
pub open spec fn ref_path(v: Seq<JsonItemV>, r: Option<int>) -> Option<Seq<char>> {
    match text_at(v, member(v, r, "$ref"@)) {
        Some(t) => if has_prefix(t, "#/"@) {
            Some(t.skip("#/"@.len() as int))
        } else {
            None
        },
        None => None,
    }
}

/// The list that a reference names.
pub open spec fn ref_list(path: Seq<char>) -> Seq<char> {
    path.take(last_slash(path, path.len() as int))
}

/// The item that a reference names.
pub open spec fn resolved(v: Seq<JsonItemV>, r: Option<int>) -> Option<int> {
    match ref_path(v, r) {
        None => None,
        Some(p) => {
            let k = last_slash(p, p.len() as int);
            if k < 0 {
                None
            } else {
                match uint(p.skip(k + 1), usize::MAX as int) {
                    Some(i) => element(v, member(v, Some(0), p.take(k)), i),
                    None => None,
                }
            }
        },
    }
}

fn text_of_ref(v: &Vec<JsonItem>, r: Option<usize>) -> (t: Vec<char>)
    ensures
        t@ == ref_text(json_view(v@), place(r)),
{
    chars_or_empty(get_text(v, get(v, r, "$ref")))
}

fn find_last_slash(s: &Vec<char>) -> (r: Option<usize>)
    ensures
        match r {
            Some(k) => k < s@.len() && k == last_slash(s@, s@.len() as int),
            None => last_slash(s@, s@.len() as int) == -1,
        },
{
    let mut n: usize = s.len();
    while n > 0 && s[n - 1] != '/'
        invariant
            n <= s@.len(),
            last_slash(s@, s@.len() as int) == last_slash(s@, n as int),
        decreases n,
    {
        n -= 1;
    }
    if n == 0 {
        None
    } else {
        Some(n - 1)
    }
}

/// The item that a reference names.
pub fn resolve(v: &Vec<JsonItem>, r: Option<usize>) -> (x: Option<usize>)
    ensures
        place(x) == resolved(json_view(v@), place(r)),
        x matches Some(k) ==> k < v@.len(),
{
    let t = match get_text(v, get(v, r, "$ref")) {
        Some(t) => chars_of(t),
        None => {
            return None;
        },
    };
    if !starts_with(&t, "#/") {
        return None;
    }
    let skip: usize = chars_of("#/").len();
    let p = slice(&t, skip, t.len());
    assert(p@ =~= t@.skip("#/"@.len() as int));
    match find_last_slash(&p) {
        None => None,
        Some(k) => {
            let list = slice(&p, 0, k);
            let idx = slice(&p, k + 1, p.len());
            assert(list@ =~= p@.take(k as int));
            assert(idx@ =~= p@.skip(k + 1));
            match parse_uint(&idx, usize::MAX as u128) {
                Some(i) => {
                    proof {
                        uint_is_positive(idx@, usize::MAX as int);
                    }
                    get_element(v, get(v, Some(0), string_of(&list).as_str()), i as usize)
                },
                None => None,
            }
        },
    }
}

// ------------------------------------------------------------ texts

/// The text of an item as it stands.
pub open spec fn raw_text(v: Seq<JsonItemV>, item: int) -> Seq<char> {
    or_empty(text_at(v, member(v, Some(item), "text"@)))
}

/// The text of an item in Markdown.
pub open spec fn formatted(v: Seq<JsonItemV>, item: int) -> Seq<char> {
    let fmt = member(v, Some(item), "formatting"@);
    let a = escaped(raw_text(v, item));
    let b = if is_true(v, member(v, fmt, "bold"@)) {
        between("**"@, a, "**"@)
    } else {
        a
    };
    let c = if is_true(v, member(v, fmt, "italic"@)) {
        between("*"@, b, "*"@)
    } else {
        b
    };
    let d = if is_true(v, member(v, fmt, "strikethrough"@)) {
        between("~~"@, c, "~~"@)
    } else {
        c
    };
    match text_at(v, member(v, Some(item), "hyperlink"@)) {
        Some(url) => between("["@, d, "]("@) + url + ")"@,
        None => d,
    }
}

fn raw_of(v: &Vec<JsonItem>, item: usize) -> (r: Vec<char>)
    ensures
        r@ == raw_text(json_view(v@), item as int),
{
    chars_or_empty(get_text(v, get(v, Some(item), "text")))
}

/// The text of an item in Markdown.
pub fn formatted_text(v: &Vec<JsonItem>, item: usize) -> (r: Vec<char>)
    ensures
        r@ == formatted(json_view(v@), item as int),
{
    let fmt = get(v, Some(item), "formatting");
    let mut s = escape_text(&raw_of(v, item));
    if get_flag(v, get(v, fmt, "bold")) {
        s = wrap("**", &s, "**");
    }
    if get_flag(v, get(v, fmt, "italic")) {
        s = wrap("*", &s, "*");
    }
    if get_flag(v, get(v, fmt, "strikethrough")) {
        s = wrap("~~", &s, "~~");
    }
    match get_text(v, get(v, Some(item), "hyperlink")) {
        Some(url) => {
            let mut t = wrap("[", &s, "](");
            push_str(&mut t, url);
            push_str(&mut t, ")");
            t
        },
        None => s,
    }
}

/// Whether an item is page furniture, such as a running header.
pub open spec fn is_furniture(v: Seq<JsonItemV>, item: int) -> bool {
    text_at(v, member(v, Some(item), "content_layer"@)) == Some("furniture"@)
}

fn in_furniture(v: &Vec<JsonItem>, item: usize) -> (r: bool)
    ensures
        r == is_furniture(json_view(v@), item as int),
{
    match get_text(v, get(v, Some(item), "content_layer")) {
        Some(s) => str_eq(s, "furniture"),
        None => false,
    }
}

/// Whether a reference names an item that is page furniture.
pub open spec fn names_furniture(v: Seq<JsonItemV>, r: int) -> bool {
    match resolved(v, Some(r)) {
        Some(k) => is_furniture(v, k),
        None => false,
    }
}

/// The texts of the references in `i..end`, added to `done`. With `body`
/// page furniture is left out.
pub open spec fn ref_texts(
    v: Seq<JsonItemV>,
    i: int,
    end: int,
    body: bool,
    done: Seq<Seq<char>>,
) -> Seq<Seq<char>>
    decreases end - i,
{
    if i >= end {
        done
    } else if body && names_furniture(v, i) {
        ref_texts(v, i + 1, end, body, done)
    } else {
        ref_texts(
            v,
            i + 1,
            end,
            body,
            done.push(
                match resolved(v, Some(i)) {
                    Some(k) => formatted(v, k),
                    None => seq![],
                },
            ),
        )
    }
}

fn join_refs(v: &Vec<JsonItem>, from: usize, end: usize, body: bool) -> (r: Vec<char>)
    requires
        from <= end,
    ensures
        r@ == joined(ref_texts(json_view(v@), from as int, end as int, body, seq![]), " "@),
{
    let ghost w = json_view(v@);
    let mut out: Vec<Vec<char>> = Vec::new();
    let mut i: usize = from;
    assert(texts(out@) =~= seq![]);
    while i < end
        invariant
            i <= end,
            w == json_view(v@),
            ref_texts(w, from as int, end as int, body, seq![]) == ref_texts(
                w,
                i as int,
                end as int,
                body,
                texts(out@),
            ),
        decreases end - i,
    {
        broadcast use texts_push;

        let item = resolve(v, Some(i));
        let left_out = body && match item {
            Some(k) => in_furniture(v, k),
            None => false,
        };
        if !left_out {
            let t = match item {
                Some(k) => formatted_text(v, k),
                None => Vec::new(),
            };
            assert(t@ =~= (match resolved(w, Some(i as int)) {
                Some(k) => formatted(w, k),
                None => seq![],
            }));
            out.push(t);
        }
        i += 1;
    }
    join(&out, " ")
}

/// The caption of an item.
pub open spec fn caption(v: Seq<JsonItemV>, item: int) -> Option<Seq<char>> {
    match elements(v, member(v, Some(item), "captions"@)) {
        None => None,
        Some((a, b)) => {
            let t = joined(ref_texts(v, a, b, false, seq![]), " "@);
            if strip(t).len() == 0 {
                None
            } else {
                Some(t)
            }
        },
    }
}

fn caption_of(v: &Vec<JsonItem>, item: usize) -> (r: Option<String>)
    ensures
        opt(r) == caption(json_view(v@), item as int),
{
    match get_elements(v, get(v, Some(item), "captions")) {
        None => None,
        Some((a, b)) => {
            let t = join_refs(v, a, b, false);
            if trim(&t).len() == 0 {
                None
            } else {
                Some(string_of(&t))
            }
        },
    }
}

// ------------------------------------------------------------ captions

/// The place in `i..end` of the first reference with a text.
pub open spec fn ref_place(v: Seq<JsonItemV>, i: int, end: int, t: Seq<char>) -> Option<int>
    decreases end - i,
{
    if i >= end {
        None
    } else if text_at(v, member(v, Some(i), "$ref"@)) == Some(t) {
        Some(i)
    } else {
        ref_place(v, i + 1, end, t)
    }
}

fn find_ref(v: &Vec<JsonItem>, from: usize, end: usize, t: &Vec<char>) -> (r: Option<usize>)
    requires
        from <= end,
    ensures
        place(r) == ref_place(json_view(v@), from as int, end as int, t@),
{
    let ghost w = json_view(v@);
    let mut i: usize = from;
    while i < end
        invariant
            i <= end,
            w == json_view(v@),
            ref_place(json_view(v@), from as int, end as int, t@) == ref_place(
                w,
                i as int,
                end as int,
                t@,
            ),
        decreases end - i,
    {
        match get_text(v, get(v, Some(i), "$ref")) {
            Some(s) => {
                if same(&chars_of(s), t) {
                    return Some(i);
                }
            },
            None => {},
        }
        i += 1;
    }
    None
}

/// Whether an item has a caption with a reference.
pub open spec fn claims_caption(v: Seq<JsonItemV>, item: int, me: Seq<char>) -> bool {
    let p = range(v, member(v, Some(item), "captions"@));
    ref_place(v, p.0, p.1, me) is Some
}

/// Whether an item in `i..end` has a caption with a reference. With `code`
/// only the items with code are asked.
pub open spec fn claimed_in(v: Seq<JsonItemV>, i: int, end: int, code: bool, me: Seq<char>) -> bool
    decreases end - i,
{
    i < end && (((!code || label(v, i) == Some("code"@)) && claims_caption(v, i, me)) || claimed_in(
        v,
        i + 1,
        end,
        code,
        me,
    ))
}

fn any_claims(v: &Vec<JsonItem>, list: &str, code: bool, me: &Vec<char>) -> (r: bool)
    ensures
        r == claims(json_view(v@), list@, code, me@),
{
    let ghost w = json_view(v@);
    let (from, end) = get_range(v, get(v, Some(0), list));
    let mut i: usize = from;
    while i < end
        invariant
            i <= end,
            w == json_view(v@),
            claims(json_view(v@), list@, code, me@) == claimed_in(
                w,
                i as int,
                end as int,
                code,
                me@,
            ),
        decreases end - i,
    {
        if !code || has_label(v, i, "code") {
            let (a, b) = get_range(v, get(v, Some(i), "captions"));
            if find_ref(v, a, b, me).is_some() {
                return true;
            }
        }
        i += 1;
    }
    false
}

/// Whether an item of a list has a caption with a reference. With `code` only
/// the items with code are asked.
pub open spec fn claims(v: Seq<JsonItemV>, list: Seq<char>, code: bool, me: Seq<char>) -> bool {
    let p = range(v, member(v, Some(0), list));
    claimed_in(v, p.0, p.1, code, me)
}

/// Whether a table, a picture or a piece of code has an item as its caption.
pub open spec fn is_claimed(v: Seq<JsonItemV>, item: int) -> bool {
    match text_at(v, member(v, Some(item), "self_ref"@)) {
        Some(me) => claims(v, "tables"@, false, me) || claims(v, "pictures"@, false, me) || claims(
            v,
            "texts"@,
            true,
            me,
        ),
        None => false,
    }
}

fn caption_is_claimed(v: &Vec<JsonItem>, item: usize) -> (r: bool)
    ensures
        r == is_claimed(json_view(v@), item as int),
{
    match get_text(v, get(v, Some(item), "self_ref")) {
        Some(s) => {
            let me = chars_of(s);
            any_claims(v, "tables", false, &me) || any_claims(v, "pictures", false, &me)
                || any_claims(v, "texts", true, &me)
        },
        None => false,
    }
}

/// The reference to what holds an item's first caption.
pub open spec fn caption_holder(v: Seq<JsonItemV>, cap: Option<int>) -> Seq<char> {
    match resolved(v, cap) {
        Some(c) => match text_at(v, member(v, member(v, Some(c), "parent"@), "$ref"@)) {
            Some(t) => t,
            None => "#/body"@,
        },
        None => "#/body"@,
    }
}

/// The place of a reference among the children of what holds an item.
pub open spec fn sibling_place(v: Seq<JsonItemV>, parent: Option<int>, t: Seq<char>) -> Option<int> {
    match resolved(v, parent) {
        Some(p) => {
            let r = range(v, member(v, Some(p), "children"@));
            ref_place(v, r.0, r.1, t)
        },
        None => None,
    }
}

/// Where an item's first caption hangs.
pub open spec fn caption_parent(v: Seq<JsonItemV>, item: int) -> CaptionParent {
    let cap = element(v, member(v, Some(item), "captions"@), 0);
    match text_at(v, member(v, cap, "$ref"@)) {
        None => CaptionParent::Body,
        Some(cap_ref) => {
            let holder = caption_holder(v, cap);
            let me = or_empty(text_at(v, member(v, Some(item), "self_ref"@)));
            let parent = member(v, Some(item), "parent"@);
            if holder == me {
                CaptionParent::Item
            } else if holder == ref_text(v, parent) && holder != "#/body"@ {
                match (sibling_place(v, parent, cap_ref), sibling_place(v, parent, me)) {
                    (Some(c), Some(i)) => if c > i {
                        CaptionParent::ContainerAfter
                    } else {
                        CaptionParent::Container
                    },
                    _ => CaptionParent::Container,
                }
            } else {
                CaptionParent::Body
            }
        },
    }
}

fn find_sibling(v: &Vec<JsonItem>, parent: Option<usize>, t: &Vec<char>) -> (r: Option<usize>)
    ensures
        place(r) == sibling_place(json_view(v@), place(parent), t@),
{
    match resolve(v, parent) {
        Some(p) => {
            let (a, b) = get_range(v, get(v, Some(p), "children"));
            find_ref(v, a, b, t)
        },
        None => None,
    }
}

fn holder_of_caption(v: &Vec<JsonItem>, cap: Option<usize>) -> (r: Vec<char>)
    ensures
        r@ == caption_holder(json_view(v@), place(cap)),
{
    match resolve(v, cap) {
        Some(c) => match get_text(v, get(v, get(v, Some(c), "parent"), "$ref")) {
            Some(t) => chars_of(t),
            None => chars_of("#/body"),
        },
        None => chars_of("#/body"),
    }
}

/// Where an item's first caption hangs.
pub fn caption_parent_of(v: &Vec<JsonItem>, item: usize) -> (r: CaptionParent)
    ensures
        r == caption_parent(json_view(v@), item as int),
{
    let cap = get_element(v, get(v, Some(item), "captions"), 0);
    match get_text(v, get(v, cap, "$ref")) {
        None => CaptionParent::Body,
        Some(t) => {
            let cap_ref = chars_of(t);
            let holder = holder_of_caption(v, cap);
            let me = chars_or_empty(get_text(v, get(v, Some(item), "self_ref")));
            let parent = get(v, Some(item), "parent");
            if same(&holder, &me) {
                CaptionParent::Item
            } else if same(&holder, &text_of_ref(v, parent)) && !(is(&holder, "#/body")) {
                match (find_sibling(v, parent, &cap_ref), find_sibling(v, parent, &me)) {
                    (Some(c), Some(i)) => if c > i {
                        CaptionParent::ContainerAfter
                    } else {
                        CaptionParent::Container
                    },
                    _ => CaptionParent::Container,
                }
            } else {
                CaptionParent::Body
            }
        },
    }
}

// ------------------------------------------------------------ pictures

/// The type and the payload of a data address in base 64.
pub open spec fn data_parts(uri: Seq<char>) -> Option<(Seq<char>, Seq<char>)> {
    let rest = uri.skip("data:"@.len() as int);
    let k = index_from(rest, ',', 0);
    let meta = rest.take(k);
    let m = index_from(meta, ';', 0);
    let payload = strip(rest.skip(k + 1));
    if !has_prefix(uri, "data:"@) || k >= rest.len() || m >= meta.len() {
        None
    } else if lowered(meta.skip(m + 1)) == "base64"@ && from_base64(payload) is Some {
        Some((meta.take(m), payload))
    } else {
        None
    }
}

/// View of the parts of a data address.
pub open spec fn data_view(o: Option<(Vec<char>, Vec<char>)>) -> Option<(Seq<char>, Seq<char>)> {
    match o {
        Some(p) => Some((p.0@, p.1@)),
        None => None,
    }
}

/// The type and the payload of a data address in base 64.
pub fn parse_data_uri(uri: &Vec<char>) -> (r: Option<(Vec<char>, Vec<char>)>)
    ensures
        data_view(r) == data_parts(uri@),
{
    if !starts_with(uri, "data:") {
        return None;
    }
    let skip: usize = chars_of("data:").len();
    let rest = slice(uri, skip, uri.len());
    assert(rest@ =~= uri@.skip("data:"@.len() as int));
    let k = find_from(&rest, ',', 0);
    if k == rest.len() {
        return None;
    }
    let meta = slice(&rest, 0, k);
    assert(meta@ =~= rest@.take(k as int));
    let m = find_from(&meta, ';', 0);
    if m == meta.len() {
        return None;
    }
    let mime = slice(&meta, 0, m);
    let encoding = slice(&meta, m + 1, meta.len());
    let tail = slice(&rest, k + 1, rest.len());
    assert(mime@ =~= meta@.take(m as int));
    assert(encoding@ =~= meta@.skip(m + 1));
    assert(tail@ =~= rest@.skip(k + 1));
    if !(is(&to_lower(&encoding), "base64")) {
        return None;
    }
    let payload = trim(&tail);
    match decode_base64(&payload) {
        Some(_) => Some((mime, payload)),
        None => None,
    }
}

/// The path of a file that an address names; none for data and for an
/// address of another kind.
pub open spec fn file_of(uri: Seq<char>) -> Option<Seq<char>> {
    if has_prefix(uri, "file://"@) {
        Some(uri.skip("file://"@.len() as int))
    } else if has_prefix(uri, "data:"@) || contains_from(uri, "://"@, 0) {
        None
    } else if has_prefix(uri, "file:"@) {
        Some(uri.skip("file:"@.len() as int))
    } else {
        Some(uri)
    }
}

/// The sources of a picture: its data, or the file that it names. A file is
/// looked for only where the picture stands in the list of pictures.
pub open spec fn picture_sources(v: Seq<JsonItemV>, item: int, listed: bool) -> Seq<Seq<char>> {
    let image = member(v, Some(item), "image"@);
    match text_at(v, member(v, image, "uri"@)) {
        None => seq![],
        Some(uri) => match data_parts(uri) {
            Some((mime, payload)) => {
                let own = or_empty(text_at(v, member(v, image, "mimetype"@)));
                seq![
                    data_address(
                        if own.len() == 0 {
                            mime
                        } else {
                            own
                        },
                        payload,
                    ),
                ]
            },
            None => match file_of(uri) {
                Some(p) => if listed {
                    seq![p]
                } else {
                    seq![]
                },
                None => seq![],
            },
        },
    }
}

fn path_of_uri(uri: &Vec<char>) -> (r: Option<Vec<char>>)
    ensures
        match file_of(uri@) {
            Some(p) => r matches Some(x) && x@ == p,
            None => r is None,
        },
{
    if starts_with(uri, "file://") {
        let skip: usize = chars_of("file://").len();
        let p = slice(uri, skip, uri.len());
        assert(p@ =~= uri@.skip("file://"@.len() as int));
        Some(p)
    } else if starts_with(uri, "data:") || contains(uri, "://") {
        None
    } else if starts_with(uri, "file:") {
        let skip: usize = chars_of("file:").len();
        let p = slice(uri, skip, uri.len());
        assert(p@ =~= uri@.skip("file:"@.len() as int));
        Some(p)
    } else {
        Some(copy(uri))
    }
}

fn sources_of(v: &Vec<JsonItem>, item: usize, listed: bool) -> (r: Vec<String>)
    ensures
        strs(r@) == picture_sources(json_view(v@), item as int, listed),
{
    let mut out: Vec<String> = Vec::new();
    assert(strs(out@) =~= seq![]);
    let image = get(v, Some(item), "image");
    let uri = match get_text(v, get(v, image, "uri")) {
        None => {
            return out;
        },
        Some(s) => chars_of(s),
    };
    match parse_data_uri(&uri) {
        Some((mime, payload)) => {
            let own = chars_or_empty(get_text(v, get(v, image, "mimetype")));
            let mut t = chars_of("data:");
            if own.len() == 0 {
                push_all(&mut t, &mime);
            } else {
                push_all(&mut t, &own);
            }
            push_str(&mut t, ";base64,");
            push_all(&mut t, &payload);
            let ghost a = t@;
            out.push(string_of(&t));
            assert(strs(out@) =~= seq![a]);
        },
        None => match path_of_uri(&uri) {
            Some(p) => {
                if listed {
                    out.push(string_of(&p));
                    assert(strs(out@) =~= seq![p@]);
                }
            },
            None => {},
        },
    }
    out
}

/// An image in a file, with the media type that its picture declares.
pub struct FileImage {
    pub path: String,
    pub mimetype: Option<String>,
}

/// View of a [`FileImage`].
#[verifier::ext_equal]
pub struct FileImageV {
    pub path: Seq<char>,
    pub mimetype: Option<Seq<char>>,
}

impl View for FileImage {
    type V = FileImageV;

    open spec fn view(&self) -> FileImageV {
        FileImageV { path: self.path@, mimetype: opt(self.mimetype) }
    }
}

/// Views of images in files.
pub open spec fn files_view(v: Seq<FileImage>) -> Seq<FileImageV> {
    v.map_values(|f: FileImage| f@)
}

proof fn files_push(v: Seq<FileImage>, f: FileImage)
    ensures
        files_view(v.push(f)) == files_view(v).push(f@),
{
    assert(files_view(v.push(f)) =~= files_view(v).push(f@));
}

/// The image that a picture keeps in a file. An empty media type is none.
pub open spec fn file_image(v: Seq<JsonItemV>, item: int) -> Option<FileImageV> {
    let image = member(v, Some(item), "image"@);
    match text_at(v, member(v, image, "uri"@)) {
        None => None,
        Some(uri) => match file_of(uri) {
            None => None,
            Some(path) => {
                let own = or_empty(text_at(v, member(v, image, "mimetype"@)));
                Some(
                    FileImageV {
                        path,
                        mimetype: if own.len() == 0 {
                            None
                        } else {
                            Some(own)
                        },
                    },
                )
            },
        },
    }
}

/// The images in files of the pictures `i..end`, behind those found before.
pub open spec fn file_images(
    v: Seq<JsonItemV>,
    i: int,
    end: int,
    found: Seq<FileImageV>,
) -> Seq<FileImageV>
    decreases end - i,
{
    if i >= end {
        found
    } else {
        match file_image(v, i) {
            Some(f) => file_images(v, i + 1, end, found.push(f)),
            None => file_images(v, i + 1, end, found),
        }
    }
}

fn file_image_of(v: &Vec<JsonItem>, item: usize) -> (r: Option<FileImage>)
    ensures
        match file_image(json_view(v@), item as int) {
            Some(f) => r matches Some(x) && x@ == f,
            None => r is None,
        },
{
    let image = get(v, Some(item), "image");
    let uri = match get_text(v, get(v, image, "uri")) {
        None => {
            return None;
        },
        Some(s) => chars_of(s),
    };
    match path_of_uri(&uri) {
        None => None,
        Some(p) => {
            let own = chars_or_empty(get_text(v, get(v, image, "mimetype")));
            let mimetype = if own.len() == 0 {
                None
            } else {
                Some(string_of(&own))
            };
            Some(FileImage { path: string_of(&p), mimetype })
        },
    }
}

/// The images that a document's pictures keep in files.
pub fn referenced_images(v: &Vec<JsonItem>) -> (r: Vec<FileImage>)
    ensures
        files_view(r@) == document_files(json_view(v@)),
{
    let ghost w = json_view(v@);
    let mut out: Vec<FileImage> = Vec::new();
    assert(files_view(out@) =~= seq![]);
    let (from, end) = get_range(v, get(v, Some(0), "pictures"));
    let mut i: usize = from;
    while i < end
        invariant
            from <= i <= end <= v@.len(),
            w == json_view(v@),
            file_images(w, from as int, end as int, seq![]) == file_images(
                w,
                i as int,
                end as int,
                files_view(out@),
            ),
        decreases end - i,
    {
        match file_image_of(v, i) {
            Some(f) => {
                proof {
                    files_push(out@, f);
                }
                out.push(f);
            },
            None => {},
        }
        i += 1;
    }
    out
}

/// The media type of an image file by its extension in lower case.
pub open spec fn mime_of(ext: Seq<char>) -> Seq<char> {
    if ext == "jpg"@ || ext == "jpeg"@ {
        "image/jpeg"@
    } else if ext == "gif"@ {
        "image/gif"@
    } else if ext == "bmp"@ {
        "image/bmp"@
    } else if ext == "webp"@ {
        "image/webp"@
    } else if ext == "tif"@ || ext == "tiff"@ {
        "image/tiff"@
    } else {
        "image/png"@
    }
}

/// The media type of an image file by its extension.
pub fn mime_of_extension(ext: &str) -> (r: String)
    ensures
        r@ == mime_of(lowered(ext@)),
{
    let e = to_lower(&chars_of(ext));
    let m = if is(&e, "jpg") || is(&e, "jpeg") {
        "image/jpeg"
    } else if is(&e, "gif") {
        "image/gif"
    } else if is(&e, "bmp") {
        "image/bmp"
    } else if is(&e, "webp") {
        "image/webp"
    } else if is(&e, "tif") || is(&e, "tiff") {
        "image/tiff"
    } else {
        "image/png"
    };
    string_of(&chars_of(m))
}

// ------------------------------------------------------------ tables

/// What the rows of a table hold: the texts, and the flags of the cells.
#[verifier::ext_equal]
pub struct RowsV {
    pub rows: Seq<Seq<Seq<char>>>,
    pub col_header: Seq<Seq<bool>>,
    pub row_header: Seq<Seq<bool>>,
    pub col_continuation: Seq<Seq<bool>>,
    pub row_continuation: Seq<Seq<bool>>,
}

/// Whether a cell's offset lies before an index.
pub open spec fn is_past(v: Seq<JsonItemV>, cell: int, key: Seq<char>, idx: int) -> bool {
    match number_at(v, member(v, Some(cell), key)) {
        Some(n) => n < idx,
        None => false,
    }
}

/// The rows of a grid at the places `i..end`, added to `done`. `r` is the
/// number of the row at `i`.
pub open spec fn rows_from(v: Seq<JsonItemV>, i: int, end: int, r: int, done: RowsV) -> RowsV
    decreases end - i,
{
    if i >= end {
        done
    } else {
        rows_from(
            v,
            i + 1,
            end,
            r + 1,
            match elements(v, Some(i)) {
                None => done,
                Some((a, b)) => {
                    let n = (b - a) as nat;
                    RowsV {
                        rows: done.rows.push(Seq::new(n, |k: int| raw_text(v, a + k))),
                        col_header: done.col_header.push(
                            Seq::new(
                                n,
                                |k: int| is_true(v, member(v, Some(a + k), "column_header"@)),
                            ),
                        ),
                        row_header: done.row_header.push(
                            Seq::new(n, |k: int| is_true(v, member(v, Some(a + k), "row_header"@))),
                        ),
                        col_continuation: done.col_continuation.push(
                            Seq::new(n, |k: int| is_past(v, a + k, "start_col_offset_idx"@, k)),
                        ),
                        row_continuation: done.row_continuation.push(
                            Seq::new(n, |k: int| is_past(v, a + k, "start_row_offset_idx"@, r)),
                        ),
                    }
                },
            },
        )
    }
}

/// No rows.
pub open spec fn no_rows() -> RowsV {
    RowsV {
        rows: seq![],
        col_header: seq![],
        row_header: seq![],
        col_continuation: seq![],
        row_continuation: seq![],
    }
}

/// The rows of a table item.
pub open spec fn rows_of(v: Seq<JsonItemV>, item: int) -> RowsV {
    let p = range(v, member(v, member(v, Some(item), "data"@), "grid"@));
    rows_from(v, p.0, p.1, 0, no_rows())
}

/// The table of rows; the flags are left out where none is set.
pub open spec fn table_of(v: Seq<JsonItemV>, item: int) -> TableV {
    let t = rows_of(v, item);
    TableV {
        rows: t.rows,
        structure: if any_flag(t.col_header) || any_flag(t.row_header) || any_flag(
            t.col_continuation,
        ) || any_flag(t.row_continuation) {
            Some(
                TableStructureV {
                    header_row: seq![],
                    col_header: t.col_header,
                    row_header: t.row_header,
                    col_continuation: t.col_continuation,
                    row_continuation: t.row_continuation,
                },
            )
        } else {
            None
        },
        cell_blocks: None,
        caption: caption(v, item),
        caption_parent: caption_parent(v, item),
    }
}

struct Rows {
    rows: Vec<Vec<String>>,
    col_header: Vec<Vec<bool>>,
    row_header: Vec<Vec<bool>>,
    col_continuation: Vec<Vec<bool>>,
    row_continuation: Vec<Vec<bool>>,
}

impl Rows {
    spec fn see(&self) -> RowsV {
        RowsV {
            rows: grid(self.rows@),
            col_header: flags(self.col_header@),
            row_header: flags(self.row_header@),
            col_continuation: flags(self.col_continuation@),
            row_continuation: flags(self.row_continuation@),
        }
    }
}

fn past(v: &Vec<JsonItem>, cell: usize, key: &str, idx: usize) -> (r: bool)
    ensures
        r == is_past(json_view(v@), cell as int, key@, idx as int),
{
    match get_number(v, get(v, Some(cell), key)) {
        Some(n) => (n as u128) < (idx as u128),
        None => false,
    }
}

fn row_texts(v: &Vec<JsonItem>, a: usize, b: usize) -> (r: Vec<String>)
    requires
        a <= b,
    ensures
        strs(r@) == Seq::new((b - a) as nat, |k: int| raw_text(json_view(v@), a + k)),
{
    let ghost w = json_view(v@);
    let mut out: Vec<String> = Vec::new();
    let mut i: usize = a;
    while i < b
        invariant
            a <= i <= b,
            w == json_view(v@),
            out@.len() == i - a,
            forall|k: int| 0 <= k < i - a ==> (#[trigger] out@[k])@ == raw_text(w, a + k),
        decreases b - i,
    {
        out.push(string_of(&raw_of(v, i)));
        i += 1;
    }
    assert(strs(out@) =~= Seq::new((b - a) as nat, |k: int| raw_text(json_view(v@), a + k)));
    out
}

fn row_flags(v: &Vec<JsonItem>, a: usize, b: usize, key: &str) -> (r: Vec<bool>)
    requires
        a <= b,
    ensures
        r@ == Seq::new(
            (b - a) as nat,
            |k: int| is_true(json_view(v@), member(json_view(v@), Some(a + k), key@)),
        ),
{
    let ghost w = json_view(v@);
    let mut out: Vec<bool> = Vec::new();
    let mut i: usize = a;
    while i < b
        invariant
            a <= i <= b,
            w == json_view(v@),
            out@.len() == i - a,
            forall|k: int|
                0 <= k < i - a ==> #[trigger] out@[k] == is_true(w, member(w, Some(a + k), key@)),
        decreases b - i,
    {
        out.push(get_flag(v, get(v, Some(i), key)));
        i += 1;
    }
    out
}

fn row_starts(v: &Vec<JsonItem>, a: usize, b: usize) -> (r: Vec<bool>)
    requires
        a <= b,
    ensures
        r@ == Seq::new(
            (b - a) as nat,
            |k: int| is_past(json_view(v@), a + k, "start_col_offset_idx"@, k),
        ),
{
    let ghost w = json_view(v@);
    let mut out: Vec<bool> = Vec::new();
    let mut i: usize = a;
    while i < b
        invariant
            a <= i <= b,
            w == json_view(v@),
            out@.len() == i - a,
            forall|k: int|
                0 <= k < i - a ==> #[trigger] out@[k] == is_past(
                    w,
                    a + k,
                    "start_col_offset_idx"@,
                    k,
                ),
        decreases b - i,
    {
        out.push(past(v, i, "start_col_offset_idx", i - a));
        i += 1;
    }
    out
}

fn col_starts(v: &Vec<JsonItem>, a: usize, b: usize, row: usize) -> (r: Vec<bool>)
    requires
        a <= b,
    ensures
        r@ == Seq::new(
            (b - a) as nat,
            |k: int| is_past(json_view(v@), a + k, "start_row_offset_idx"@, row as int),
        ),
{
    let ghost w = json_view(v@);
    let mut out: Vec<bool> = Vec::new();
    let mut i: usize = a;
    while i < b
        invariant
            a <= i <= b,
            w == json_view(v@),
            out@.len() == i - a,
            forall|k: int|
                0 <= k < i - a ==> #[trigger] out@[k] == is_past(
                    w,
                    a + k,
                    "start_row_offset_idx"@,
                    row as int,
                ),
        decreases b - i,
    {
        out.push(past(v, i, "start_row_offset_idx", row));
        i += 1;
    }
    out
}

proof fn flags_push(v: Seq<Vec<bool>>, x: Vec<bool>)
    ensures
        flags(v.push(x)) == flags(v).push(x@),
{
    assert(flags(v.push(x)) =~= flags(v).push(x@));
}

fn read_rows(v: &Vec<JsonItem>, item: usize) -> (r: Rows)
    ensures
        r.see() == rows_of(json_view(v@), item as int),
{
    let ghost w = json_view(v@);
    let (from, end) = get_range(v, get(v, get(v, Some(item), "data"), "grid"));
    let mut out = Rows {
        rows: Vec::new(),
        col_header: Vec::new(),
        row_header: Vec::new(),
        col_continuation: Vec::new(),
        row_continuation: Vec::new(),
    };
    assert(out.see() =~= no_rows());
    let mut i: usize = from;
    while i < end
        invariant
            from <= i <= end,
            w == json_view(v@),
            rows_from(w, from as int, end as int, 0, no_rows()) == rows_from(
                w,
                i as int,
                end as int,
                i - from,
                out.see(),
            ),
        decreases end - i,
    {
        let ghost before = out;
        match get_elements(v, Some(i)) {
            None => {},
            Some((a, b)) => {
                let t = row_texts(v, a, b);
                let ch = row_flags(v, a, b, "column_header");
                let rh = row_flags(v, a, b, "row_header");
                let cc = row_starts(v, a, b);
                let rc = col_starts(v, a, b, i - from);
                out.rows.push(t);
                out.col_header.push(ch);
                out.row_header.push(rh);
                out.col_continuation.push(cc);
                out.row_continuation.push(rc);
                proof {
                    assert(grid(out.rows@) =~= grid(before.rows@).push(strs(t@)));
                    flags_push(before.col_header@, ch);
                    flags_push(before.row_header@, rh);
                    flags_push(before.col_continuation@, cc);
                    flags_push(before.row_continuation@, rc);
                }
            },
        }
        i += 1;
    }
    out
}

/// The nodes with a table item added, if it has rows.
pub open spec fn with_table(v: Seq<JsonItemV>, item: int, nodes: Seq<NodeV>) -> Seq<NodeV> {
    if rows_of(v, item).rows.len() == 0 {
        nodes
    } else {
        nodes.push(NodeV::Table(table_of(v, item)))
    }
}

/// Adds a table item.
pub fn table_item(v: &Vec<JsonItem>, item: usize, nodes: &mut Vec<Node>)
    ensures
        nodes_view(final(nodes)@) == with_table(
            json_view(v@),
            item as int,
            nodes_view(old(nodes)@),
        ),
{
    let t = read_rows(v, item);
    assert(t.see().rows.len() == t.rows@.len());
    if t.rows.len() == 0 {
        return;
    }
    let set = has_flag(&t.col_header) || has_flag(&t.row_header) || has_flag(&t.col_continuation)
        || has_flag(&t.row_continuation);
    let structure = if set {
        Some(
            TableStructure {
                header_row: Vec::new(),
                col_header: t.col_header,
                row_header: t.row_header,
                col_continuation: t.col_continuation,
                row_continuation: t.row_continuation,
            },
        )
    } else {
        None
    };
    let table = Table {
        rows: t.rows,
        structure,
        cell_blocks: None,
        caption: caption_of(v, item),
        caption_parent: caption_parent_of(v, item),
    };
    assert(table_view(table) =~= table_of(json_view(v@), item as int));
    push_node(nodes, Node::Table(table));
}

// ------------------------------------------------------------ text items

/// The label of an item.
pub open spec fn label(v: Seq<JsonItemV>, item: int) -> Option<Seq<char>> {
    text_at(v, member(v, Some(item), "label"@))
}

/// The level of a section's heading, one below its own; 255 at most.
pub open spec fn section_level(v: Seq<JsonItemV>, item: int) -> u8 {
    let n = match number_at(v, member(v, Some(item), "level"@)) {
        Some(n) => n as int % 256,
        None => 1,
    };
    if n == 255 {
        255
    } else {
        (n + 1) as u8
    }
}

fn level_of_section(v: &Vec<JsonItem>, item: usize) -> (r: u8)
    ensures
        r == section_level(json_view(v@), item as int),
{
    let n: u64 = match get_number(v, get(v, Some(item), "level")) {
        Some(n) => n % 256,
        None => 1,
    };
    if n == 255 {
        255
    } else {
        (n + 1) as u8
    }
}

/// The language of a code item.
pub open spec fn language(v: Seq<JsonItemV>, item: int) -> Option<Seq<char>> {
    match text_at(v, member(v, Some(item), "code_language"@)) {
        Some(s) => if s.len() == 0 || s == "unknown"@ {
            None
        } else {
            Some(s)
        },
        None => None,
    }
}

/// The list item that an item is outside a list.
pub open spec fn loose_item(v: Seq<JsonItemV>, item: int, level: u8) -> NodeV {
    NodeV::ListItem {
        ordered: is_true(v, member(v, Some(item), "enumerated"@)),
        number: 1,
        first_in_list: true,
        text: formatted(v, item),
        level,
        marker: None,
        href: None,
        layer: None,
    }
}

/// The nodes with a code item added, and its caption behind it.
pub open spec fn with_code(v: Seq<JsonItemV>, item: int, nodes: Seq<NodeV>) -> Seq<NodeV> {
    let a = nodes.push(NodeV::Code { language: language(v, item), text: raw_text(v, item) });
    match caption(v, item) {
        Some(c) => a.push(NodeV::Paragraph { text: c }),
        None => a,
    }
}

/// The nodes with a text item added. An empty one makes no node, but for a
/// formula that was not decoded.
pub open spec fn with_text(v: Seq<JsonItemV>, item: int, level: u8, nodes: Seq<NodeV>) -> Seq<NodeV> {
    let l = match label(v, item) {
        Some(l) => l,
        None => "text"@,
    };
    let text = formatted(v, item);
    if raw_text(v, item).len() == 0 {
        if l == "formula"@ {
            nodes.push(NodeV::Paragraph { text: "<!-- formula-not-decoded -->"@ })
        } else {
            nodes
        }
    } else if l == "title"@ {
        nodes.push(NodeV::Heading { level: 1, text })
    } else if l == "section_header"@ {
        nodes.push(NodeV::Heading { level: section_level(v, item), text })
    } else if l == "code"@ {
        with_code(v, item, nodes)
    } else if l == "list_item"@ {
        nodes.push(loose_item(v, item, level))
    } else if l == "checkbox_selected"@ {
        nodes.push(NodeV::CheckboxItem { checked: true, text })
    } else if l == "checkbox_unselected"@ {
        nodes.push(NodeV::CheckboxItem { checked: false, text })
    } else if l == "formula"@ {
        nodes.push(
            NodeV::Formula {
                latex: raw_text(v, item),
                orig: or_empty(text_at(v, member(v, Some(item), "orig"@))),
            },
        )
    } else if l == "caption"@ {
        if is_claimed(v, item) {
            nodes
        } else {
            nodes.push(NodeV::Caption { text, href: None })
        }
    } else {
        nodes.push(NodeV::Paragraph { text })
    }
}

fn code_item(v: &Vec<JsonItem>, item: usize, nodes: &mut Vec<Node>)
    ensures
        nodes_view(final(nodes)@) == with_code(json_view(v@), item as int, nodes_view(old(nodes)@)),
{
    let language = match get_text(v, get(v, Some(item), "code_language")) {
        Some(s) => {
            let c = chars_of(s);
            if c.len() == 0 || is(&c, "unknown") {
                None
            } else {
                Some(string_of(&c))
            }
        },
        None => None,
    };
    push_node(nodes, Node::Code { language, text: string_of(&raw_of(v, item)) });
    match caption_of(v, item) {
        Some(c) => {
            push_node(nodes, Node::Paragraph { text: c });
        },
        None => {},
    }
}

/// Adds a text item.
pub fn text_item(v: &Vec<JsonItem>, item: usize, level: u8, nodes: &mut Vec<Node>)
    ensures
        nodes_view(final(nodes)@) == with_text(
            json_view(v@),
            item as int,
            level,
            nodes_view(old(nodes)@),
        ),
{
    let l = match get_text(v, get(v, Some(item), "label")) {
        Some(s) => chars_of(s),
        None => chars_of("text"),
    };
    let raw = raw_of(v, item);
    if raw.len() == 0 {
        if is(&l, "formula") {
            push_node(nodes, paragraph(&chars_of("<!-- formula-not-decoded -->")));
        }
        return;
    }
    let text = formatted_text(v, item);
    if is(&l, "title") {
        push_node(nodes, heading(1, &text));
    } else if is(&l, "section_header") {
        push_node(nodes, heading(level_of_section(v, item), &text));
    } else if is(&l, "code") {
        code_item(v, item, nodes);
    } else if is(&l, "list_item") {
        push_node(
            nodes,
            Node::ListItem {
                ordered: get_flag(v, get(v, Some(item), "enumerated")),
                number: 1,
                first_in_list: true,
                text: string_of(&text),
                level,
                marker: None,
                href: None,
                layer: None,
            },
        );
    } else if is(&l, "checkbox_selected") {
        push_node(nodes, Node::CheckboxItem { checked: true, text: string_of(&text) });
    } else if is(&l, "checkbox_unselected") {
        push_node(nodes, Node::CheckboxItem { checked: false, text: string_of(&text) });
    } else if is(&l, "formula") {
        let orig = chars_or_empty(get_text(v, get(v, Some(item), "orig")));
        push_node(nodes, Node::Formula { latex: string_of(&raw), orig: string_of(&orig) });
    } else if is(&l, "caption") {
        if !caption_is_claimed(v, item) {
            push_node(nodes, Node::Caption { text: string_of(&text), href: None });
        }
    } else {
        push_node(nodes, paragraph(&text));
    }
}

// ------------------------------------------------------------ lists

/// How a list item is marked.
#[verifier::ext_equal]
pub enum MarkerV {
    /// As it says: with a number, or as a bullet.
    Verbatim(Option<u64>),
    /// As a bullet, with a text before the item's own.
    Bullet(Option<Seq<char>>),
    /// By its place in the list.
    FromGroup,
}

/// Whether a text holds a letter or a digit.
pub open spec fn has_word(s: Seq<char>) -> bool {
    exists|i: int| 0 <= i < s.len() && #[trigger] letter_or_digit(s[i])
}

/// How a list item with a marker is marked: a bullet and a number with a dot
/// stay, anything else makes a bullet, and is kept where it has a letter or
/// a digit.
pub open spec fn marker(raw: Seq<char>) -> MarkerV {
    let digits = raw.drop_last();
    if raw.len() == 0 {
        MarkerV::FromGroup
    } else if raw == "-"@ || raw == "*"@ || raw == "+"@ {
        MarkerV::Verbatim(None)
    } else if raw.last() == '.' && digits.len() > 0 && all_digits(digits) {
        MarkerV::Verbatim(
            match uint(digits, u64::MAX as int) {
                Some(n) => Some(n as u64),
                None => None,
            },
        )
    } else {
        MarkerV::Bullet(
            if has_word(raw) {
                Some(raw)
            } else {
                None
            },
        )
    }
}

/// A number with a dot marks its item with that number.
pub proof fn numbers_keep_their_marker(n: u64)
    ensures
        marker(decimal(n as int).push('.')) == MarkerV::Verbatim(Some(n)),
{
    let raw = decimal(n as int).push('.');
    decimals_read_back(n as int);
    assert(raw.drop_last() =~= decimal(n as int));
    assert(is_digit(raw[0]));
    reveal_strlit("-");
    reveal_strlit("*");
    reveal_strlit("+");
    assert(raw[0] != "-"@[0] && raw[0] != "*"@[0] && raw[0] != "+"@[0]);
}

/// How a list item is marked.
pub enum Marker {
    Verbatim(Option<u64>),
    Bullet(Option<Vec<char>>),
    FromGroup,
}

impl View for Marker {
    type V = MarkerV;

    open spec fn view(&self) -> MarkerV {
        match self {
            Marker::Verbatim(n) => MarkerV::Verbatim(*n),
            Marker::Bullet(t) => MarkerV::Bullet(
                match t {
                    Some(s) => Some(s@),
                    None => None,
                },
            ),
            Marker::FromGroup => MarkerV::FromGroup,
        }
    }
}

fn are_digits(s: &Vec<char>) -> (r: bool)
    ensures
        r == all_digits(s@),
{
    if s.len() == 0 {
        return false;
    }
    let mut i: usize = 0;
    while i < s.len()
        invariant
            i <= s@.len(),
            forall|k: int| 0 <= k < i ==> is_digit(#[trigger] s@[k]),
        decreases s@.len() - i,
    {
        if !('0' <= s[i] && s[i] <= '9') {
            assert(!is_digit(s@[i as int]));
            return false;
        }
        i += 1;
    }
    true
}

fn holds_word(s: &Vec<char>) -> (r: bool)
    ensures
        r == has_word(s@),
{
    let mut i: usize = 0;
    while i < s.len()
        invariant
            i <= s@.len(),
            forall|k: int| 0 <= k < i ==> !(#[trigger] letter_or_digit(s@[k])),
        decreases s@.len() - i,
    {
        if is_letter_or_digit(s[i]) {
            return true;
        }
        i += 1;
    }
    false
}

/// How a list item with a marker is marked.
pub fn marker_of(raw: &Vec<char>) -> (r: Marker)
    ensures
        r@ == marker(raw@),
{
    if raw.len() == 0 {
        return Marker::FromGroup;
    }
    if is(raw, "-") || is(raw, "*") || is(raw, "+") {
        return Marker::Verbatim(None);
    }
    if raw[raw.len() - 1] == '.' {
        let digits = slice(raw, 0, raw.len() - 1);
        assert(digits@ =~= raw@.drop_last());
        if digits.len() > 0 && are_digits(&digits) {
            return Marker::Verbatim(
                match parse_uint(&digits, u64::MAX as u128) {
                    Some(n) => {
                        proof {
                            uint_is_positive(digits@, u64::MAX as int);
                        }
                        Some(n as u64)
                    },
                    None => None,
                },
            );
        }
    }
    if holds_word(raw) {
        Marker::Bullet(Some(copy(raw)))
    } else {
        Marker::Bullet(None)
    }
}

/// The text of a list item behind the marker that is kept.
pub open spec fn kept_text(kept: Option<Seq<char>>, body: Seq<char>) -> Seq<char> {
    match kept {
        Some(m) => if body.len() == 0 {
            m
        } else {
            m + " "@ + body
        },
        None => body,
    }
}

/// The node of a list's item. `position` counts from one, and `numbered` says
/// that items without a marker have numbers.
pub open spec fn list_item(
    v: Seq<JsonItemV>,
    item: int,
    position: u64,
    numbered: bool,
    first: bool,
    level: u8,
) -> NodeV {
    let body = formatted(v, item);
    let m = marker(or_empty(text_at(v, member(v, Some(item), "marker"@))));
    NodeV::ListItem {
        ordered: match m {
            MarkerV::Verbatim(n) => n is Some,
            MarkerV::Bullet(_) => false,
            MarkerV::FromGroup => numbered,
        },
        number: match m {
            MarkerV::Verbatim(Some(n)) => n,
            _ => position,
        },
        first_in_list: first,
        text: match m {
            MarkerV::Bullet(kept) => kept_text(kept, body),
            _ => body,
        },
        level,
        marker: None,
        href: None,
        layer: None,
    }
}

fn add_list_item(
    v: &Vec<JsonItem>,
    item: usize,
    position: u64,
    numbered: bool,
    first: bool,
    level: u8,
    nodes: &mut Vec<Node>,
)
    ensures
        nodes_view(final(nodes)@) == nodes_view(old(nodes)@).push(
            list_item(json_view(v@), item as int, position, numbered, first, level),
        ),
{
    let body = formatted_text(v, item);
    let raw = chars_or_empty(get_text(v, get(v, Some(item), "marker")));
    let ordered: bool;
    let number: u64;
    let text: Vec<char>;
    match marker_of(&raw) {
        Marker::Verbatim(Some(n)) => {
            ordered = true;
            number = n;
            text = body;
        },
        Marker::Verbatim(None) => {
            ordered = false;
            number = position;
            text = body;
        },
        Marker::Bullet(kept) => {
            ordered = false;
            number = position;
            text = match kept {
                Some(m) => if body.len() == 0 {
                    m
                } else {
                    let mut t = m;
                    push_str(&mut t, " ");
                    push_all(&mut t, &body);
                    t
                },
                None => body,
            };
        },
        Marker::FromGroup => {
            ordered = numbered;
            number = position;
            text = body;
        },
    }
    push_node(
        nodes,
        Node::ListItem {
            ordered,
            number,
            first_in_list: first,
            text: string_of(&text),
            level,
            marker: None,
            href: None,
            layer: None,
        },
    );
}

/// Whether the first reference of a list names an item with a number.
pub open spec fn is_numbered(v: Seq<JsonItemV>, from: int, end: int) -> bool {
    from < end && match resolved(v, Some(from)) {
        Some(k) => label(v, k) == Some("list_item"@) && is_true(
            v,
            member(v, Some(k), "enumerated"@),
        ),
        None => false,
    }
}

fn has_label(v: &Vec<JsonItem>, item: usize, name: &str) -> (r: bool)
    ensures
        r == (label(json_view(v@), item as int) == Some(name@)),
{
    match get_text(v, get(v, Some(item), "label")) {
        Some(s) => str_eq(s, name),
        None => false,
    }
}

fn starts_numbered(v: &Vec<JsonItem>, from: usize, end: usize) -> (r: bool)
    ensures
        r == is_numbered(json_view(v@), from as int, end as int),
{
    if from >= end {
        return false;
    }
    match resolve(v, Some(from)) {
        Some(k) => has_label(v, k, "list_item") && get_flag(v, get(v, Some(k), "enumerated")),
        None => false,
    }
}

// ------------------------------------------------------------ the walk

/// The nodes with the item of a reference added, and what hangs on it.
/// `depth` bounds how far references lead from one item to the next, so that
/// items that hold each other come to an end.
pub open spec fn walked(
    v: Seq<JsonItemV>,
    r: int,
    level: u8,
    depth: int,
    nodes: Seq<NodeV>,
) -> Seq<NodeV>
    decreases depth, 0int,
{
    if depth <= 0 {
        nodes
    } else {
        match resolved(v, Some(r)) {
            None => nodes,
            Some(item) => {
                let kind = ref_text(v, Some(r));
                if is_furniture(v, item) {
                    nodes
                } else if has_prefix(kind, "#/texts/"@) {
                    let p = range(v, member(v, Some(item), "children"@));
                    walked_all(v, p.0, p.1, level, depth - 1, with_text(v, item, level, nodes))
                } else if has_prefix(kind, "#/groups/"@) {
                    with_group(v, item, level, depth - 1, nodes)
                } else if has_prefix(kind, "#/tables/"@) {
                    with_table(v, item, nodes)
                } else if has_prefix(kind, "#/pictures/"@) {
                    nodes.push(
                        NodeV::Picture {
                            caption: caption(v, item),
                            caption_href: None,
                            caption_parent: caption_parent(v, item),
                            sources: picture_sources(
                                v,
                                item,
                                ref_list(ref_path(v, Some(r))->0) == "pictures"@,
                            ),
                        },
                    )
                } else {
                    nodes
                }
            },
        }
    }
}

/// The nodes with the items of the references in `i..end` added.
pub open spec fn walked_all(
    v: Seq<JsonItemV>,
    i: int,
    end: int,
    level: u8,
    depth: int,
    nodes: Seq<NodeV>,
) -> Seq<NodeV>
    decreases
            depth,
            if i < end {
                end - i + 1
            } else {
                0
            },
{
    if i >= end {
        nodes
    } else {
        walked_all(v, i + 1, end, level, depth, walked(v, i, level, depth, nodes))
    }
}

/// The nodes with a group added: a list, a line of texts, or what it holds.
pub open spec fn with_group(
    v: Seq<JsonItemV>,
    item: int,
    level: u8,
    depth: int,
    nodes: Seq<NodeV>,
) -> Seq<NodeV>
    decreases depth, 3 * v.len() + 10,
{
    let l = match label(v, item) {
        Some(l) => l,
        None => "unspecified"@,
    };
    let p = range(v, member(v, Some(item), "children"@));
    if l == "list"@ || l == "ordered_list"@ {
        with_list(v, p.0, p.0, p.1, level, depth, true, nodes)
    } else if l == "inline"@ {
        let t = joined(ref_texts(v, p.0, p.1, true, seq![]), " "@);
        if t.len() == 0 {
            nodes
        } else {
            nodes.push(NodeV::Paragraph { text: t })
        }
    } else {
        walked_all(v, p.0, p.1, level, depth, nodes)
    }
}

/// The nodes with the items of the list at `from..end` from `i` on. `first`
/// says that none came before.
pub open spec fn with_list(
    v: Seq<JsonItemV>,
    from: int,
    i: int,
    end: int,
    level: u8,
    depth: int,
    first: bool,
    nodes: Seq<NodeV>,
) -> Seq<NodeV>
    decreases
            depth,
            v.len() + 2 + if i < end {
                end - i
            } else {
                0
            },
{
    if i < 0 || i >= end || end > v.len() {
        nodes
    } else if has_prefix(ref_text(v, Some(i)), "#/groups/"@) {
        with_list(
            v,
            from,
            i + 1,
            end,
            level,
            depth,
            first,
            walked(v, i, next_level(level), depth, nodes),
        )
    } else {
        match resolved(v, Some(i)) {
            Some(item) => if label(v, item) == Some("list_item"@) && !is_furniture(v, item) {
                let p = range(v, member(v, Some(item), "children"@));
                with_list(
                    v,
                    from,
                    i + 1,
                    end,
                    level,
                    depth,
                    false,
                    walked_all(
                        v,
                        p.0,
                        p.1,
                        next_level(level),
                        depth,
                        nodes.push(
                            list_item(
                                v,
                                item,
                                (i - from + 1) as u64,
                                is_numbered(v, from, end),
                                first,
                                level,
                            ),
                        ),
                    ),
                )
            } else {
                with_list(v, from, i + 1, end, level, depth, first, nodes)
            },
            None => with_list(v, from, i + 1, end, level, depth, first, nodes),
        }
    }
}

fn below(level: u8) -> (r: u8)
    ensures
        r == next_level(level),
{
    if level == 255 {
        255
    } else {
        level + 1
    }
}

fn is_listed(v: &Vec<JsonItem>, r: usize) -> (x: bool)
    requires
        resolved(json_view(v@), Some(r as int)) is Some,
    ensures
        x == (ref_list(ref_path(json_view(v@), Some(r as int))->0) == "pictures"@),
{
    let t = text_of_ref(v, Some(r));
    let skip: usize = chars_of("#/").len();
    let p = slice(&t, skip, t.len());
    assert(p@ =~= t@.skip("#/"@.len() as int));
    match find_last_slash(&p) {
        Some(k) => {
            let list = slice(&p, 0, k);
            assert(list@ =~= p@.take(k as int));
            is(&list, "pictures")
        },
        None => false,
    }
}

/// Adds the item of a reference, and what hangs on it.
pub fn walk(v: &Vec<JsonItem>, r: usize, level: u8, depth: usize, nodes: &mut Vec<Node>)
    ensures
        nodes_view(final(nodes)@) == walked(
            json_view(v@),
            r as int,
            level,
            depth as int,
            nodes_view(old(nodes)@),
        ),
    decreases depth, 0int,
{
    if depth == 0 {
        return;
    }
    let item = match resolve(v, Some(r)) {
        Some(k) => k,
        None => {
            return;
        },
    };
    if in_furniture(v, item) {
        return;
    }
    let kind = text_of_ref(v, Some(r));
    if starts_with(&kind, "#/texts/") {
        text_item(v, item, level, nodes);
        let (a, b) = get_range(v, get(v, Some(item), "children"));
        walk_all(v, a, b, level, depth - 1, nodes);
    } else if starts_with(&kind, "#/groups/") {
        group_item(v, item, level, depth - 1, nodes);
    } else if starts_with(&kind, "#/tables/") {
        table_item(v, item, nodes);
    } else if starts_with(&kind, "#/pictures/") {
        let listed = is_listed(v, r);
        push_node(
            nodes,
            Node::Picture {
                caption: caption_of(v, item),
                caption_href: None,
                caption_parent: caption_parent_of(v, item),
                sources: sources_of(v, item, listed),
            },
        );
    }
}

fn walk_all(v: &Vec<JsonItem>, from: usize, end: usize, level: u8, depth: usize, nodes: &mut Vec<Node>)
    requires
        from <= end <= v@.len(),
    ensures
        nodes_view(final(nodes)@) == walked_all(
            json_view(v@),
            from as int,
            end as int,
            level,
            depth as int,
            nodes_view(old(nodes)@),
        ),
    decreases depth, 1int,
{
    let ghost w = json_view(v@);
    let ghost first = nodes_view(nodes@);
    let mut i: usize = from;
    while i < end
        invariant
            i <= end,
            w == json_view(v@),
            walked_all(w, from as int, end as int, level, depth as int, first) == walked_all(
                w,
                i as int,
                end as int,
                level,
                depth as int,
                nodes_view(nodes@),
            ),
        decreases end - i,
    {
        walk(v, i, level, depth, nodes);
        i += 1;
    }
}

fn group_item(v: &Vec<JsonItem>, item: usize, level: u8, depth: usize, nodes: &mut Vec<Node>)
    ensures
        nodes_view(final(nodes)@) == with_group(
            json_view(v@),
            item as int,
            level,
            depth as int,
            nodes_view(old(nodes)@),
        ),
    decreases depth, 3int,
{
    let l = match get_text(v, get(v, Some(item), "label")) {
        Some(s) => chars_of(s),
        None => chars_of("unspecified"),
    };
    let (a, b) = get_range(v, get(v, Some(item), "children"));
    if is(&l, "list") || is(&l, "ordered_list") {
        list_group(v, a, b, level, depth, nodes);
    } else if is(&l, "inline") {
        let t = join_refs(v, a, b, true);
        if t.len() > 0 {
            push_node(nodes, paragraph(&t));
        }
    } else {
        walk_all(v, a, b, level, depth, nodes);
    }
}

/// Adds the items of a list.
pub fn list_group(
    v: &Vec<JsonItem>,
    from: usize,
    end: usize,
    level: u8,
    depth: usize,
    nodes: &mut Vec<Node>,
)
    requires
        from <= end <= v@.len(),
    ensures
        nodes_view(final(nodes)@) == with_list(
            json_view(v@),
            from as int,
            from as int,
            end as int,
            level,
            depth as int,
            true,
            nodes_view(old(nodes)@),
        ),
    decreases depth, 2int,
{
    let ghost w = json_view(v@);
    let ghost want = with_list(
        w,
        from as int,
        from as int,
        end as int,
        level,
        depth as int,
        true,
        nodes_view(nodes@),
    );
    let numbered = starts_numbered(v, from, end);
    let mut first = true;
    let mut i: usize = from;
    while i < end
        invariant
            from <= i <= end <= v@.len(),
            w == json_view(v@),
            numbered == is_numbered(w, from as int, end as int),
            want == with_list(
                w,
                from as int,
                i as int,
                end as int,
                level,
                depth as int,
                first,
                nodes_view(nodes@),
            ),
        decreases end - i,
    {
        let kind = text_of_ref(v, Some(i));
        if starts_with(&kind, "#/groups/") {
            walk(v, i, below(level), depth, nodes);
        } else {
            match resolve(v, Some(i)) {
                Some(item) => {
                    if has_label(v, item, "list_item") && !in_furniture(v, item) {
                        let position = (i - from) as u64 + 1;
                        add_list_item(v, item, position, numbered, first, level, nodes);
                        first = false;
                        let (a, b) = get_range(v, get(v, Some(item), "children"));
                        walk_all(v, a, b, below(level), depth, nodes);
                    }
                },
                None => {},
            }
        }
        i += 1;
    }
}

/// The nodes of a document's items.
pub open spec fn document(v: Seq<JsonItemV>) -> Seq<NodeV> {
    let p = range(v, member(v, member(v, Some(0), "body"@), "children"@));
    walked_all(v, p.0, p.1, 0, v.len() as int, seq![])
}

/// The images that the pictures of a document's items keep in files.
pub open spec fn document_files(v: Seq<JsonItemV>) -> Seq<FileImageV> {
    let p = range(v, member(v, Some(0), "pictures"@));
    file_images(v, p.0, p.1, seq![])
}

/// A document's name, if it gives one, its nodes, and the images that its
/// pictures keep in files.
pub struct JsonDocument {
    pub name: Option<String>,
    pub nodes: Vec<Node>,
    pub files: Vec<FileImage>,
}

/// The document of a JSON text's items.
pub fn convert_items(v: &Vec<JsonItem>) -> (r: JsonDocument)
    ensures
        opt(r.name) == text_at(json_view(v@), member(json_view(v@), Some(0), "name"@)),
        nodes_view(r.nodes@) == document(json_view(v@)),
        files_view(r.files@) == document_files(json_view(v@)),
{
    let name = match get_text(v, get(v, Some(0), "name")) {
        Some(s) => Some(string_of(&chars_of(s))),
        None => None,
    };
    let mut nodes: Vec<Node> = Vec::new();
    assert(nodes_view(nodes@) =~= seq![]);
    let (a, b) = get_range(v, get(v, get(v, Some(0), "body"), "children"));
    walk_all(v, a, b, 0, v.len(), &mut nodes);
    JsonDocument { name, nodes, files: referenced_images(v) }
}

/// The backend of documents in their JSON form.
pub struct DoclingJsonBackend;

impl DoclingJsonBackend {
    /// The document of a JSON text, or the message of the parser.
    pub fn convert(&self, text: &str) -> (r: Result<JsonDocument, String>)
        ensures
            match json_items(text@) {
                Err(e) => r matches Err(m) && m@ == e,
                Ok(v) => r matches Ok(d) && opt(d.name) == text_at(v, member(v, Some(0), "name"@))
                    && nodes_view(d.nodes@) == document(v) && files_view(d.files@)
                    == document_files(v),
            },
    {
        match parse_json(text) {
            Err(e) => Err(e),
            Ok(v) => Ok(convert_items(&v)),
        }
    }
}

} // verus!
