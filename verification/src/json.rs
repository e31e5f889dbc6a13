//! JSON values as a list of items, each with the places of those it holds.

use crate::text::{or_empty, str_eq, string_of};
use crate::tree::opt_str;
use vstd::prelude::*;

verus! {

/// A value of a JSON text. The values that an array or an object holds are
/// those at the places `first..end`.
pub struct JsonItem {
    /// The name in the object that holds the value.
    pub key: String,
    pub text: Option<String>,
    pub flag: Option<bool>,
    /// The number, where it is a whole one that is not negative.
    pub number: Option<u64>,
    pub array: bool,
    pub first: usize,
    pub end: usize,
}

/// View of a [`JsonItem`].
#[verifier::ext_equal]
pub struct JsonItemV {
    pub key: Seq<char>,
    pub text: Option<Seq<char>>,
    pub flag: Option<bool>,
    pub number: Option<u64>,
    pub array: bool,
    pub first: int,
    pub end: int,
}

/// View of an optional text.
pub open spec fn opt(o: Option<String>) -> Option<Seq<char>> {
    match o {
        Some(s) => Some(s@),
        None => None,
    }
}

impl View for JsonItem {
    type V = JsonItemV;

    open spec fn view(&self) -> JsonItemV {
        JsonItemV {
            key: self.key@,
            text: opt(self.text),
            flag: self.flag,
            number: self.number,
            array: self.array,
            first: self.first as int,
            end: self.end as int,
        }
    }
}

/// Views of items.
pub open spec fn json_view(v: Seq<JsonItem>) -> Seq<JsonItemV> {
    Seq::new(v.len(), |i: int| v[i]@)
}

/// What the parser says of a value: its name in the object that holds it, what
/// it is as a text, a truth value and a whole number, whether it is an array,
/// and the place behind the values that it holds.
pub type RawValue = (Option<String>, Option<String>, Option<bool>, Option<u64>, bool, usize);

/// View of a [`RawValue`]. A value outside an object has an empty name.
#[verifier::ext_equal]
pub struct RawValueV {
    pub key: Seq<char>,
    pub text: Option<Seq<char>>,
    pub flag: Option<bool>,
    pub number: Option<u64>,
    pub array: bool,
    pub end: int,
}

/// View of a value.
pub open spec fn raw_value_view(v: RawValue) -> RawValueV {
    RawValueV {
        key: or_empty(opt(v.0)),
        text: opt(v.1),
        flag: v.2,
        number: v.3,
        array: v.4,
        end: v.5 as int,
    }
}

/// View of what the parser returns.
pub open spec fn parsed_view(r: Result<Vec<RawValue>, String>) -> Result<Seq<RawValueV>, Seq<char>> {
    match r {
        Ok(v) => Ok(v@.map_values(|x: RawValue| raw_value_view(x))),
        Err(e) => Err(e@),
    }
}

/// The values of a JSON text, level by level, or the message of the parser.
pub uninterp spec fn json_values(text: Seq<char>) -> Result<Seq<RawValueV>, Seq<char>>;

/// Calls `serde_json::from_str` and lists the value and the values that it
/// holds, level by level, each with its name and with what `as_str`,
/// `as_bool`, `as_u64` and `is_array` say of it. What is claimed is that the
/// list, or the error message, depends on the text alone.
#[verifier::external_body]
fn parse_values(text: &str) -> (r: Result<Vec<RawValue>, String>)
    ensures
        parsed_view(r) == json_values(text@),
{
    let root: serde_json::Value = serde_json::from_str(text).map_err(|e| e.to_string())?;
    let mut queue = vec![(None, &root)];
    let mut out = vec![];
    while let Some(&(key, v)) = queue.get(out.len()) {
        queue.extend(v.as_array().into_iter().flatten().map(|x| (None, x)));
        queue.extend(v.as_object().into_iter().flatten().map(|(k, x)| (Some(k), x)));
        out.push((
            key.cloned(),
            v.as_str().map(Into::into),
            v.as_bool(), v.as_u64(), v.is_array(), queue.len()));
    }
    Ok(out)
}

/// The item of the value at a place. The values that it holds follow those
/// that the value before it holds; those of the first follow itself.
pub open spec fn item_at(v: Seq<RawValueV>, i: int) -> JsonItemV {
    JsonItemV {
        key: v[i].key,
        text: v[i].text,
        flag: v[i].flag,
        number: v[i].number,
        array: v[i].array,
        first: if i == 0 {
            1
        } else {
            v[i - 1].end
        },
        end: v[i].end,
    }
}

/// The items of a JSON text, or the message of the parser.
pub open spec fn json_items(text: Seq<char>) -> Result<Seq<JsonItemV>, Seq<char>> {
    match json_values(text) {
        Ok(v) => Ok(Seq::new(v.len(), |i: int| item_at(v, i))),
        Err(e) => Err(e),
    }
}

fn make_item(v: &RawValue, first: usize) -> (r: JsonItem)
    ensures
        r@ == (JsonItemV {
            key: or_empty(opt(v.0)),
            text: opt(v.1),
            flag: v.2,
            number: v.3,
            array: v.4,
            first: first as int,
            end: v.5 as int,
        }),
{
    let key = match &v.0 {
        Some(k) => k.clone(),
        None => string_of(&Vec::new()),
    };
    let text = match &v.1 {
        Some(t) => Some(t.clone()),
        None => None,
    };
    JsonItem { key, text, flag: v.2, number: v.3, array: v.4, first, end: v.5 }
}

/// The items of a JSON text, or the message of the parser.
pub(crate) fn parse_json(text: &str) -> (r: Result<Vec<JsonItem>, String>)
    ensures
        match r {
            Ok(v) => json_items(text@) == Ok::<_, Seq<char>>(json_view(v@)),
            Err(e) => json_items(text@) == Err::<Seq<JsonItemV>, _>(e@),
        },
{
    let v = match parse_values(text) {
        Ok(v) => v,
        Err(e) => {
            return Err(e);
        },
    };
    let ghost raw = v@.map_values(|x: RawValue| raw_value_view(x));
    let mut out: Vec<JsonItem> = Vec::new();
    let mut first: usize = 1;
    let mut i: usize = 0;
    while i < v.len()
        invariant
            i <= v@.len(),
            raw == v@.map_values(|x: RawValue| raw_value_view(x)),
            first == (if i == 0 {
                1
            } else {
                raw[i - 1].end
            }),
            out@.len() == i,
            forall|k: int| 0 <= k < i ==> (#[trigger] out@[k])@ == item_at(raw, k),
        decreases v@.len() - i,
    {
        out.push(make_item(&v[i], first));
        first = v[i].5;
        i += 1;
    }
    assert(json_view(out@) =~= Seq::new(raw.len(), |k: int| item_at(raw, k)));
    Ok(out)
}

// ------------------------------------------------------------ reading

/// The place in `i..end` of the value with a name.
pub open spec fn member_from(v: Seq<JsonItemV>, i: int, end: int, key: Seq<char>) -> Option<int>
    decreases end - i,
{
    if i < 0 || i >= end || i >= v.len() {
        None
    } else if v[i].key == key {
        Some(i)
    } else {
        member_from(v, i + 1, end, key)
    }
}

/// The place of the value with a name in an object.
pub open spec fn member(v: Seq<JsonItemV>, at: Option<int>, key: Seq<char>) -> Option<int> {
    match at {
        Some(k) => if 0 <= k < v.len() && !v[k].array {
            member_from(v, v[k].first, v[k].end, key)
        } else {
            None
        },
        None => None,
    }
}

/// The places of the values of an array: the first, and the one behind the
/// last.
pub open spec fn elements(v: Seq<JsonItemV>, at: Option<int>) -> Option<(int, int)> {
    match at {
        Some(k) => if 0 <= k < v.len() && v[k].array {
            Some(
                if 0 <= v[k].first <= v[k].end <= v.len() {
                    (v[k].first, v[k].end)
                } else {
                    (0, 0)
                },
            )
        } else {
            None
        },
        None => None,
    }
}

/// The places of the values of an array; none where it is no array.
pub open spec fn range(v: Seq<JsonItemV>, at: Option<int>) -> (int, int) {
    match elements(v, at) {
        Some(p) => p,
        None => (0, 0),
    }
}

/// The place of an array's value.
pub open spec fn element(v: Seq<JsonItemV>, at: Option<int>, i: int) -> Option<int> {
    match elements(v, at) {
        Some((a, b)) => if 0 <= i < b - a {
            Some(a + i)
        } else {
            None
        },
        None => None,
    }
}

/// The text that a value is.
pub open spec fn text_at(v: Seq<JsonItemV>, at: Option<int>) -> Option<Seq<char>> {
    match at {
        Some(k) => if 0 <= k < v.len() {
            v[k].text
        } else {
            None
        },
        None => None,
    }
}

/// Whether a value is the flag `true`.
pub open spec fn is_true(v: Seq<JsonItemV>, at: Option<int>) -> bool {
    match at {
        Some(k) => 0 <= k < v.len() && v[k].flag == Some(true),
        None => false,
    }
}

/// The number that a value is.
pub open spec fn number_at(v: Seq<JsonItemV>, at: Option<int>) -> Option<u64> {
    match at {
        Some(k) => if 0 <= k < v.len() {
            v[k].number
        } else {
            None
        },
        None => None,
    }
}

/// View of a place.
pub open spec fn place(o: Option<usize>) -> Option<int> {
    match o {
        Some(k) => Some(k as int),
        None => None,
    }
}

/// The place of the value with a name in an object.
pub fn get(v: &Vec<JsonItem>, at: Option<usize>, key: &str) -> (r: Option<usize>)
    ensures
        place(r) == member(json_view(v@), place(at), key@),
        r matches Some(k) ==> k < v@.len(),
{
    let ghost w = json_view(v@);
    let k = match at {
        Some(k) => k,
        None => {
            return None;
        },
    };
    if k >= v.len() {
        return None;
    }
    assert(w[k as int] == v@[k as int]@);
    if v[k].array {
        return None;
    }
    let end = v[k].end;
    let mut i = v[k].first;
    while i < end && i < v.len()
        invariant
            w == json_view(v@),
            place(at) == Some(k as int),
            k < v@.len(),
            w[k as int] == v@[k as int]@,
            !w[k as int].array,
            end == w[k as int].end,
            member(w, place(at), key@) == member_from(w, i as int, end as int, key@),
        decreases v@.len() - i,
    {
        assert(w[i as int] == v@[i as int]@);
        if str_eq(v[i].key.as_str(), key) {
            return Some(i);
        }
        i += 1;
    }
    None
}

/// The places of the values of an array.
pub fn get_elements(v: &Vec<JsonItem>, at: Option<usize>) -> (r: Option<(usize, usize)>)
    ensures
        match elements(json_view(v@), place(at)) {
            Some(p) => r matches Some(q) && q.0 == p.0 && q.1 == p.1,
            None => r is None,
        },
        r matches Some(q) ==> q.0 <= q.1 <= v@.len(),
{
    match at {
        Some(k) => {
            if k >= v.len() {
                return None;
            }
            assert(json_view(v@)[k as int] == v@[k as int]@);
            if !v[k].array {
                return None;
            }
            if v[k].first <= v[k].end && v[k].end <= v.len() {
                Some((v[k].first, v[k].end))
            } else {
                Some((0, 0))
            }
        },
        None => None,
    }
}

/// The places of the values of an array; none where it is no array.
pub fn get_range(v: &Vec<JsonItem>, at: Option<usize>) -> (r: (usize, usize))
    ensures
        (r.0 as int, r.1 as int) == range(json_view(v@), place(at)),
        r.0 <= r.1 <= v@.len(),
{
    match get_elements(v, at) {
        Some(p) => p,
        None => (0, 0),
    }
}

/// The place of an array's value.
pub fn get_element(v: &Vec<JsonItem>, at: Option<usize>, i: usize) -> (r: Option<usize>)
    ensures
        place(r) == element(json_view(v@), place(at), i as int),
        r matches Some(k) ==> k < v@.len(),
{
    match get_elements(v, at) {
        Some((a, b)) => if i < b - a {
            Some(a + i)
        } else {
            None
        },
        None => None,
    }
}

/// The text that a value is.
pub fn get_text<'a>(v: &'a Vec<JsonItem>, at: Option<usize>) -> (r: Option<&'a str>)
    ensures
        opt_str(r) == text_at(json_view(v@), place(at)),
{
    match at {
        Some(k) => {
            if k >= v.len() {
                return None;
            }
            assert(json_view(v@)[k as int] == v@[k as int]@);
            match &v[k].text {
                Some(s) => Some(s.as_str()),
                None => None,
            }
        },
        None => None,
    }
}

/// Whether a value is the flag `true`.
pub fn get_flag(v: &Vec<JsonItem>, at: Option<usize>) -> (r: bool)
    ensures
        r == is_true(json_view(v@), place(at)),
{
    match at {
        Some(k) => {
            if k >= v.len() {
                return false;
            }
            assert(json_view(v@)[k as int] == v@[k as int]@);
            match v[k].flag {
                Some(b) => b,
                None => false,
            }
        },
        None => false,
    }
}

/// The number that a value is.
pub fn get_number(v: &Vec<JsonItem>, at: Option<usize>) -> (r: Option<u64>)
    ensures
        r == number_at(json_view(v@), place(at)),
{
    match at {
        Some(k) => {
            if k >= v.len() {
                return None;
            }
            assert(json_view(v@)[k as int] == v@[k as int]@);
            v[k].number
        },
        None => None,
    }
}

} // verus!
