//! Messages as lists of numbered fields.

use crate::bytes::part;
use vstd::prelude::*;

verus! {

/// What the seven bits of the digit at a place count for.
pub open spec fn scale(k: int) -> int {
    if k <= 0 {
        1
    } else if k == 1 {
        0x80
    } else if k == 2 {
        0x4000
    } else if k == 3 {
        0x200000
    } else if k == 4 {
        0x10000000
    } else if k == 5 {
        0x800000000
    } else if k == 6 {
        0x40000000000
    } else if k == 7 {
        0x2000000000000
    } else if k == 8 {
        0x100000000000000
    } else if k == 9 {
        0x8000000000000000
    } else {
        0x400000000000000000
    }
}

/// The number whose digits go on at `i` with the place `k`, and where it
/// ends; none where it does not end within ten digits, or does not fit.
pub open spec fn varint_from(b: Seq<u8>, i: int, k: int, acc: int) -> Option<(u64, int)>
    decreases b.len() - i,
{
    if i < 0 || i >= b.len() || k >= 10 {
        None
    } else {
        let n = acc + (b[i] as int % 128) * scale(k);
        if b[i] >= 128 {
            varint_from(b, i + 1, k + 1, n)
        } else if n > u64::MAX {
            None
        } else {
            Some((n as u64, i + 1))
        }
    }
}

/// The number that begins at a place, and where it ends.
pub open spec fn varint(b: Seq<u8>, at: int) -> Option<(u64, int)> {
    varint_from(b, at, 0, 0)
}

fn read_varint(b: &[u8], at: usize) -> (r: Option<(u64, usize)>)
    ensures
        match r {
            Some(p) => varint(b@, at as int) == Some((p.0, p.1 as int)) && at < p.1 <= b@.len(),
            None => varint(b@, at as int) is None,
        },
{
    let len: usize = b.len();
    let mut i: usize = at;
    let mut k: usize = 0;
    let mut p: u128 = 1;
    let mut acc: u128 = 0;
    while i < len && k < 10
        invariant
            at <= i,
            i == at || i <= len,
            len == b@.len(),
            k <= 10,
            p == scale(k as int),
            acc < p,
            varint(b@, at as int) == varint_from(b@, i as int, k as int, acc as int),
        decreases len - i,
    {
        let d: u128 = (b[i] % 128) as u128;
        assert(d * p <= 127 * p) by (nonlinear_arith)
            requires
                d <= 127,
        ;
        assert(d * p == (b@[i as int] as int % 128) * scale(k as int));
        acc = acc + d * p;
        if b[i] < 128 {
            if acc > u64::MAX as u128 {
                return None;
            }
            return Some((acc as u64, i + 1));
        }
        p = p * 128;
        k += 1;
        i += 1;
    }
    None
}

/// The value of a field.
#[verifier::ext_equal]
pub enum ValueV {
    Varint(u64),
    Bytes(Seq<u8>),
    Fixed,
}

/// A field of a message.
#[verifier::ext_equal]
pub struct FieldV {
    pub number: u64,
    pub value: ValueV,
}

/// The field that begins at a place, and where it ends.
pub open spec fn field_at(b: Seq<u8>, at: int) -> Option<(FieldV, int)> {
    match varint(b, at) {
        None => None,
        Some((key, i)) => {
            let number = key / 8;
            let wire = key % 8;
            if wire == 0 {
                match varint(b, i) {
                    Some((n, j)) => Some((FieldV { number, value: ValueV::Varint(n) }, j)),
                    None => None,
                }
            } else if wire == 1 && i + 8 <= b.len() {
                Some((FieldV { number, value: ValueV::Fixed }, i + 8))
            } else if wire == 2 {
                match varint(b, i) {
                    Some((n, j)) => if j + n <= b.len() {
                        Some((FieldV { number, value: ValueV::Bytes(b.subrange(j, j + n)) }, j + n))
                    } else {
                        None
                    },
                    None => None,
                }
            } else if wire == 5 && i + 4 <= b.len() {
                Some((FieldV { number, value: ValueV::Fixed }, i + 4))
            } else {
                None
            }
        },
    }
}

/// The fields from a place on, added to `done`. The first one that cannot be
/// read ends the message.
pub open spec fn fields_from(b: Seq<u8>, at: int, done: Seq<FieldV>) -> Seq<FieldV>
    decreases b.len() - at,
{
    if at < 0 || at >= b.len() {
        done
    } else {
        match field_at(b, at) {
            Some((f, next)) => if at < next <= b.len() {
                fields_from(b, next, done.push(f))
            } else {
                done
            },
            None => done,
        }
    }
}

/// The fields of a message.
pub open spec fn fields_of(b: Seq<u8>) -> Seq<FieldV> {
    fields_from(b, 0, seq![])
}

/// The value of a field.
pub enum Value<'a> {
    Varint(u64),
    Bytes(&'a [u8]),
    Fixed,
}

/// A field of a message.
pub struct Field<'a> {
    pub number: u64,
    pub value: Value<'a>,
}

impl<'a> View for Field<'a> {
    type V = FieldV;

    open spec fn view(&self) -> FieldV {
        FieldV {
            number: self.number,
            value: match self.value {
                Value::Varint(n) => ValueV::Varint(n),
                Value::Bytes(b) => ValueV::Bytes(b@),
                Value::Fixed => ValueV::Fixed,
            },
        }
    }
}

/// Views of fields.
pub open spec fn fields_view(v: Seq<Field>) -> Seq<FieldV> {
    Seq::new(v.len(), |i: int| v[i]@)
}

fn read_field<'a>(b: &'a [u8], at: usize) -> (r: Option<(Field<'a>, usize)>)
    requires
        at < b@.len(),
    ensures
        match r {
            Some(p) => field_at(b@, at as int) == Some((p.0@, p.1 as int)) && at < p.1 <= b@.len(),
            None => field_at(b@, at as int) is None,
        },
{
    let len: usize = b.len();
    let (key, i) = match read_varint(b, at) {
        None => {
            return None;
        },
        Some(p) => p,
    };
    let number = key / 8;
    let wire = key % 8;
    if wire == 0 {
        return match read_varint(b, i) {
            Some((n, j)) => Some((Field { number, value: Value::Varint(n) }, j)),
            None => None,
        };
    }
    if wire == 1 && len - i >= 8 {
        return Some((Field { number, value: Value::Fixed }, i + 8));
    }
    if wire == 2 {
        return match read_varint(b, i) {
            Some((n, j)) => {
                if n > (len - j) as u64 {
                    return None;
                }
                let end: usize = j + n as usize;
                Some((Field { number, value: Value::Bytes(part(b, j, end)) }, end))
            },
            None => None,
        };
    }
    if wire == 5 && len - i >= 4 {
        return Some((Field { number, value: Value::Fixed }, i + 4));
    }
    None
}

/// The fields of a message.
pub fn fields<'a>(b: &'a [u8]) -> (r: Vec<Field<'a>>)
    ensures
        fields_view(r@) == fields_of(b@),
{
    let len: usize = b.len();
    let mut out: Vec<Field<'a>> = Vec::new();
    assert(fields_view(out@) =~= seq![]);
    let mut at: usize = 0;
    while at < len
        invariant
            at <= len == b@.len(),
            fields_of(b@) == fields_from(b@, at as int, fields_view(out@)),
        decreases len - at,
    {
        match read_field(b, at) {
            None => {
                return out;
            },
            Some((f, next)) => {
                let ghost before = out@;
                out.push(f);
                assert(fields_view(out@) =~= fields_view(before).push(f@));
                at = next;
            },
        }
    }
    out
}

/// The first bytes among the fields from `i` on that have a number.
pub open spec fn bytes_in(v: Seq<FieldV>, i: int, number: u64) -> Option<Seq<u8>>
    decreases v.len() - i,
{
    if i >= v.len() {
        None
    } else {
        match v[i].value {
            ValueV::Bytes(b) => if v[i].number == number {
                Some(b)
            } else {
                bytes_in(v, i + 1, number)
            },
            _ => bytes_in(v, i + 1, number),
        }
    }
}

/// The bytes of a message's first field with a number.
pub open spec fn bytes_of(b: Seq<u8>, number: u64) -> Option<Seq<u8>> {
    bytes_in(fields_of(b), 0, number)
}

/// View of optional bytes.
pub open spec fn opt_slice(o: Option<&[u8]>) -> Option<Seq<u8>> {
    match o {
        Some(b) => Some(b@),
        None => None,
    }
}

/// The bytes of a message's first field with a number.
pub fn first_bytes<'a>(b: &'a [u8], number: u64) -> (r: Option<&'a [u8]>)
    ensures
        opt_slice(r) == bytes_of(b@, number),
{
    let v = fields(b);
    let ghost w = fields_view(v@);
    let mut i: usize = 0;
    while i < v.len()
        invariant
            i <= v@.len(),
            w == fields_view(v@),
            bytes_of(b@, number) == bytes_in(w, i as int, number),
        decreases v@.len() - i,
    {
        assert(w[i as int] == v@[i as int]@);
        match v[i].value {
            Value::Bytes(x) => {
                if v[i].number == number {
                    return Some(x);
                }
            },
            _ => {},
        }
        i += 1;
    }
    None
}

/// The first number among the fields from `i` on that have a number.
pub open spec fn varint_in(v: Seq<FieldV>, i: int, number: u64) -> Option<u64>
    decreases v.len() - i,
{
    if i >= v.len() {
        None
    } else {
        match v[i].value {
            ValueV::Varint(n) => if v[i].number == number {
                Some(n)
            } else {
                varint_in(v, i + 1, number)
            },
            _ => varint_in(v, i + 1, number),
        }
    }
}

/// The number in a message's first field with a number.
pub open spec fn number_of(b: Seq<u8>, number: u64) -> Option<u64> {
    varint_in(fields_of(b), 0, number)
}

/// The number in a message's first field with a number.
pub fn first_varint(b: &[u8], number: u64) -> (r: Option<u64>)
    ensures
        r == number_of(b@, number),
{
    let v = fields(b);
    let ghost w = fields_view(v@);
    let mut i: usize = 0;
    while i < v.len()
        invariant
            i <= v@.len(),
            w == fields_view(v@),
            number_of(b@, number) == varint_in(w, i as int, number),
        decreases v@.len() - i,
    {
        assert(w[i as int] == v@[i as int]@);
        match v[i].value {
            Value::Varint(n) => {
                if v[i].number == number {
                    return Some(n);
                }
            },
            _ => {},
        }
        i += 1;
    }
    None
}

/// The object that a reference names.
pub open spec fn referenced(b: Seq<u8>) -> Option<u64> {
    number_of(b, 1)
}

/// The object that a message's reference field names.
pub open spec fn reference_of(b: Seq<u8>, number: u64) -> Option<u64> {
    match bytes_of(b, number) {
        Some(r) => referenced(r),
        None => None,
    }
}

/// The object that a message's reference field names.
pub fn reference_field(b: &[u8], number: u64) -> (r: Option<u64>)
    ensures
        r == reference_of(b@, number),
{
    match first_bytes(b, number) {
        Some(x) => first_varint(x, 1),
        None => None,
    }
}

/// The objects that the fields from `i` on with a number name, added to
/// `done`.
pub open spec fn references_from(v: Seq<FieldV>, i: int, number: u64, done: Seq<u64>) -> Seq<u64>
    decreases v.len() - i,
{
    if i >= v.len() {
        done
    } else {
        references_from(
            v,
            i + 1,
            number,
            match v[i].value {
                ValueV::Bytes(b) => if v[i].number == number && referenced(b) is Some {
                    done.push(referenced(b)->0)
                } else {
                    done
                },
                _ => done,
            },
        )
    }
}

/// The objects that a message's repeated reference field names.
pub open spec fn references_of(b: Seq<u8>, number: u64) -> Seq<u64> {
    references_from(fields_of(b), 0, number, seq![])
}

/// The objects that a message's repeated reference field names.
pub fn reference_list(b: &[u8], number: u64) -> (r: Vec<u64>)
    ensures
        r@ == references_of(b@, number),
{
    let v = fields(b);
    let ghost w = fields_view(v@);
    let mut out: Vec<u64> = Vec::new();
    let mut i: usize = 0;
    assert(out@ =~= seq![]);
    while i < v.len()
        invariant
            i <= v@.len(),
            w == fields_view(v@),
            references_of(b@, number) == references_from(w, i as int, number, out@),
        decreases v@.len() - i,
    {
        assert(w[i as int] == v@[i as int]@);
        match v[i].value {
            Value::Bytes(x) => {
                if v[i].number == number {
                    match first_varint(x, 1) {
                        Some(id) => {
                            out.push(id);
                        },
                        None => {},
                    }
                }
            },
            _ => {},
        }
        i += 1;
    }
    out
}

} // verus!
