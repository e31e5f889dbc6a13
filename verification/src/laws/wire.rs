//! Laws of finding things by number or by key: the fields of messages and the
//! members of objects.

use crate::json::{element, member, member_from, JsonItemV};
use crate::wire::{bytes_in, referenced, references_from, varint_in, FieldV, ValueV};
use vstd::prelude::*;

verus! {

/// The first field with a number and of the right kind is the one that is
/// found.
pub proof fn the_first_field_is_found(v: Seq<FieldV>, i: int, number: u64, b: Seq<u8>, n: u64)
    requires
        0 <= i < v.len(),
    ensures
        v[i] == (FieldV { number, value: ValueV::Bytes(b) }) ==> bytes_in(v, i, number) == Some(b)
            && varint_in(v, i, number) == varint_in(v, i + 1, number),
        v[i] == (FieldV { number, value: ValueV::Varint(n) }) ==> varint_in(v, i, number) == Some(n)
            && bytes_in(v, i, number) == bytes_in(v, i + 1, number),
        v[i].number != number ==> bytes_in(v, i, number) == bytes_in(v, i + 1, number) && varint_in(
            v,
            i,
            number,
        ) == varint_in(v, i + 1, number),
        bytes_in(v, v.len() as int, number) is None,
        varint_in(v, v.len() as int, number) is None,
{
}

/// The references of a field come in their order.
pub proof fn references_come_in_order(
    v: Seq<FieldV>,
    i: int,
    number: u64,
    b: Seq<u8>,
    id: u64,
    done: Seq<u64>,
)
    requires
        0 <= i < v.len(),
    ensures
        v[i] == (FieldV { number, value: ValueV::Bytes(b) }) && referenced(b) == Some(id)
            ==> references_from(v, i, number, done) == references_from(
            v,
            i + 1,
            number,
            done + seq![id],
        ),
        v[i].number != number ==> references_from(v, i, number, done) == references_from(
            v,
            i + 1,
            number,
            done,
        ),
        references_from(v, v.len() as int, number, done) == done,
{
    assert(done.push(id) =~= done + seq![id]);
}

proof fn members_are_passed(v: Seq<JsonItemV>, i: int, k: int, end: int, key: Seq<char>)
    requires
        0 <= i <= k < end <= v.len(),
        v[k].key == key,
        forall|j: int| i <= j < k ==> (#[trigger] v[j]).key != key,
    ensures
        member_from(v, i, end, key) == Some(k),
    decreases k - i,
{
    if i < k {
        assert(v[i].key != key);
        members_are_passed(v, i + 1, k, end, key);
    }
}

/// The first member of an object with a key is the one that is found, and the
/// elements of an array are counted from zero; a list has no members and an
/// object no elements.
pub proof fn members_are_found_by_key(v: Seq<JsonItemV>, at: int, k: int, key: Seq<char>, n: int)
    requires
        0 <= at < v.len(),
        0 <= v[at].first <= k < v[at].end <= v.len(),
        v[k].key == key,
        forall|j: int| v[at].first <= j < k ==> (#[trigger] v[j]).key != key,
    ensures
        !v[at].array ==> member(v, Some(at), key) == Some(k),
        v[at].array ==> member(v, Some(at), key) is None,
        v[at].array && 0 <= n < v[at].end - v[at].first ==> element(v, Some(at), n) == Some(
            v[at].first + n,
        ),
        v[at].array && n >= v[at].end - v[at].first ==> element(v, Some(at), n) is None,
        !v[at].array ==> element(v, Some(at), n) is None,
        member(v, None, key) is None,
{
    members_are_passed(v, v[at].first, k, v[at].end, key);
}

} // verus!
