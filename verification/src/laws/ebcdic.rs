//! Laws of mainframe records: how numbers lie in bytes and fields in records.

use crate::ebcdic::{
    are_digits, big_endian, binary, byte_range, field_bytes, field_text, field_value, header_from,
    nibble_chars, packed_nibbles, record_values, scaled, significant, without_zeros, zoned_nibbles,
    Codec, EbcdicErrorV, FieldDef, FieldType,
};
use crate::text::{decimal, strip};
use vstd::prelude::*;

verus! {

// ------------------------------------------------------------ binary numbers

/// The first bytes of a binary number count by as many powers of 256 as bytes
/// stand behind them.
pub proof fn first_bytes_count_most(a: Seq<u8>, b: Seq<u8>)
    ensures
        big_endian(a + b) == big_endian(a) * byte_range(b.len() as int) + big_endian(b),
        byte_range(b.len() as int + 1) == 256 * byte_range(b.len() as int),
        byte_range(0) == 1,
    decreases b.len(),
{
    if b.len() == 0 {
        assert(a + b =~= a);
    } else {
        first_bytes_count_most(a, b.drop_last());
        assert((a + b).drop_last() =~= a + b.drop_last());
        assert((a + b).last() == b.last());
        let x = big_endian(a);
        let r = byte_range(b.len() - 1);
        assert((x * r) * 256 == x * (r * 256)) by (nonlinear_arith);
    }
}

proof fn bytes_stay_in_range(d: Seq<u8>)
    ensures
        0 <= big_endian(d) < byte_range(d.len() as int),
    decreases d.len(),
{
    if d.len() > 0 {
        bytes_stay_in_range(d.drop_last());
    }
}

/// A signed number is the two's complement of its bytes: it lies between minus
/// a half and a half of their range, and is off by the whole range where the
/// first bit is set. An unsigned one is what the bytes say.
pub proof fn signed_numbers_are_twos_complements(d: Seq<u8>)
    requires
        d.len() > 0,
    ensures
        -byte_range(d.len() as int) <= 2 * binary(d, true) < byte_range(d.len() as int),
        binary(d, true) == big_endian(d) || binary(d, true) == big_endian(d) - byte_range(
            d.len() as int,
        ),
        binary(d, true) < 0 <==> d[0] >= 0x80,
        binary(d, false) == big_endian(d),
{
    let head = seq![d[0]];
    let rest = d.drop_first();
    assert(d =~= head + rest);
    first_bytes_count_most(head, rest);
    bytes_stay_in_range(rest);
    bytes_stay_in_range(d);
    reveal_with_fuel(big_endian, 2);
    assert(head.drop_last() =~= seq![]);
    assert(big_endian(head) == d[0]);
    let r = byte_range(rest.len() as int);
    if d[0] >= 0x80 {
        assert(d[0] * r >= 128 * r) by (nonlinear_arith)
            requires
                d[0] >= 0x80,
                r >= 0,
        ;
    } else {
        assert(d[0] * r <= 127 * r) by (nonlinear_arith)
            requires
                d[0] < 0x80,
                r >= 0,
        ;
    }
}

proof fn decimals_start_with_no_zero(n: int)
    requires
        0 <= n,
    ensures
        decimal(n).len() > 0,
        n > 0 ==> decimal(n)[0] != '0',
        n == 0 ==> decimal(n) == seq!['0'],
    decreases n,
{
    if n >= 10 {
        decimals_start_with_no_zero(n / 10);
    }
}

/// A binary field without decimals shows its number, with a minus sign before
/// a negative one.
pub proof fn binary_fields_show_their_number(d: Seq<u8>, f: FieldDef, c: Codec, n: int)
    requires
        1 <= d.len() <= 16,
        f.scale == 0,
        f.kind == FieldType::Integer || f.kind == FieldType::UnsignedInteger,
        n == binary(d, f.kind == FieldType::Integer),
    ensures
        n > 0 ==> field_value(d, f, c) == Some(decimal(n)),
        n < 0 ==> field_value(d, f, c) == Some(seq!['-'] + decimal(-n)),
        n == 0 ==> field_value(d, f, c) == Some(seq!['0']),
{
    let m = if n < 0 {
        -n
    } else {
        n
    };
    decimals_start_with_no_zero(m);
    let s = decimal(m);
    if m > 0 {
        assert(without_zeros(s) == s);
        assert(significant(s) == s);
        assert(seq!['0'][0] == '0');
        assert(s != seq!['0']);
    } else {
        reveal_with_fuel(without_zeros, 2);
        assert(seq!['0'].drop_first() =~= seq![]);
        assert(significant(s) == seq!['0']);
    }
    assert(seq![] + significant(s) =~= significant(s));
}

// ------------------------------------------------------------ decimal numbers

/// A packed number has two digits in each byte, the first in the upper half;
/// the lower half of the last byte is its sign, which is negative for the
/// halves eleven and thirteen.
pub proof fn packed_numbers_have_two_digits_a_byte(d: Seq<u8>, f: FieldDef, c: Codec, t: Seq<char>)
    requires
        d.len() > 0,
        f.kind == FieldType::PackedDecimal,
        t.len() == 2 * d.len() - 1,
        forall|i: int|
            0 <= i < d.len() ==> '0' <= #[trigger] t[2 * i] <= '9' && t[2 * i] as int - 0x30
                == d[i] as int / 16,
        forall|i: int|
            0 <= i < d.len() - 1 ==> '0' <= #[trigger] t[2 * i + 1] <= '9' && t[2 * i + 1] as int
                - 0x30 == d[i] as int % 16,
    ensures
        field_value(d, f, c) == Some(
            scaled(
                t,
                d.last() as int % 16 == 11 || d.last() as int % 16 == 13,
                f.scale as int,
            ),
        ),
{
    let n = packed_nibbles(d);
    assert forall|i: int| 0 <= i < n.len() implies #[trigger] n[i] == t[i] as int - 0x30 && n[i] <= 9 by {
        if i % 2 == 0 {
            assert(t[2 * (i / 2)] == t[i]);
        } else {
            assert(t[2 * (i / 2) + 1] == t[i]);
        }
    }
    assert(are_digits(n));
    assert(nibble_chars(n) =~= t);
}

/// A zoned number has a digit in the lower half of each byte; the upper half
/// of the last byte is its sign.
pub proof fn zoned_numbers_have_a_digit_a_byte(d: Seq<u8>, f: FieldDef, c: Codec, t: Seq<char>)
    requires
        d.len() > 0,
        f.kind == FieldType::ZonedDecimal,
        t.len() == d.len(),
        forall|i: int|
            0 <= i < d.len() ==> '0' <= #[trigger] t[i] <= '9' && t[i] as int - 0x30 == d[i] as int
                % 16,
    ensures
        field_value(d, f, c) == Some(
            scaled(
                t,
                d.last() as int / 16 == 11 || d.last() as int / 16 == 13,
                f.scale as int,
            ),
        ),
{
    let n = zoned_nibbles(d);
    assert forall|i: int| 0 <= i < n.len() implies #[trigger] n[i] == t[i] as int - 0x30 && n[i] <= 9 by {
        assert('0' <= t[i] <= '9');
    }
    assert(are_digits(n));
    assert(nibble_chars(n) =~= t);
}

/// A number with decimals has its point before as many digits as the scale
/// says, and a minus sign in front where it is negative.
pub proof fn the_point_stands_before_the_decimals(a: Seq<char>, b: Seq<char>)
    requires
        a.len() > 0,
        b.len() > 0,
        a[0] != '0',
    ensures
        scaled(a + b, false, b.len() as int) == a + seq!['.'] + b,
        scaled(a + b, true, b.len() as int) == seq!['-'] + a + seq!['.'] + b,
        scaled(a, false, 0) == a,
        scaled(a, true, 0) == seq!['-'] + a,
{
    let s = a + b;
    assert(s[0] == a[0]);
    assert(without_zeros(s) == s);
    assert(without_zeros(a) == a);
    assert(s.take(s.len() - b.len()) =~= a);
    assert(s.skip(s.len() - b.len()) =~= b);
    assert(seq!['0'][0] == '0');
    assert(s != seq!['0'] && a != seq!['0']);
    assert(seq![] + a + seq!['.'] + b =~= a + seq!['.'] + b);
    assert(seq![] + a =~= a);
}

/// A number smaller than one has a zero before its point and as many zeros
/// behind it as it takes.
pub proof fn small_numbers_are_filled_with_zeros(b: Seq<char>, scale: int)
    requires
        b.len() > 0,
        b[0] != '0',
        b.len() <= scale < b.len() + 6,
    ensures
        scaled(b, false, scale).len() == 2 + scale,
        scaled(b, false, scale)[0] == '0',
        scaled(b, false, scale)[1] == '.',
        forall|i: int|
            2 <= i < 2 + scale - b.len() ==> #[trigger] scaled(b, false, scale)[i] == '0',
        forall|i: int|
            0 <= i < b.len() ==> #[trigger] scaled(b, false, scale)[2 + scale - b.len() + i] == b[i],
{
    assert(without_zeros(b) == b);
    assert(significant(b) == b);
}

// ------------------------------------------------------------ records

/// How many bytes the first `k` fields of a record take.
pub open spec fn bytes_before(fields: Seq<FieldDef>, k: int) -> int
    decreases k,
{
    if k <= 0 {
        0
    } else {
        bytes_before(fields, k - 1) + fields[k - 1].size
    }
}

proof fn values_by_place(
    fields: Seq<FieldDef>,
    body: Seq<u8>,
    c: Codec,
    k: int,
    done: Seq<Seq<char>>,
)
    requires
        0 <= k <= fields.len(),
        done.len() == k,
        bytes_before(fields, fields.len() as int) <= body.len(),
        forall|i: int|
            0 <= i < fields.len() ==> (#[trigger] fields[i]).kind != FieldType::Skip
                && shown_field(fields, body, c, i) is Some,
        forall|i: int|
            0 <= i < k ==> Some(#[trigger] done[i]) == shown_field(fields, body, c, i),
    ensures
        ({
            let r = record_values(fields, body, c, k, bytes_before(fields, k), done);
            &&& r matches Ok(values)
            &&& values.len() == fields.len()
            &&& forall|i: int|
                0 <= i < values.len() ==> Some(#[trigger] values[i]) == shown_field(
                    fields,
                    body,
                    c,
                    i,
                )
        }),
    decreases fields.len() - k,
{
    if k < fields.len() {
        sizes_grow(fields, 0, k);
        sizes_grow(fields, k + 1, fields.len() as int);
        let off = bytes_before(fields, k);
        assert(bytes_before(fields, k + 1) == off + fields[k].size);
        assert(field_bytes(body, off, fields[k].size as int) =~= body.subrange(
            off,
            off + fields[k].size,
        ));
        assert(fields[k].kind != FieldType::Skip);
        assert(shown_field(fields, body, c, k) is Some);
        let next = done.push(shown_field(fields, body, c, k)->0);
        values_by_place(fields, body, c, k + 1, next);
    }
}

proof fn sizes_grow(fields: Seq<FieldDef>, i: int, j: int)
    requires
        0 <= i <= j,
    ensures
        0 <= bytes_before(fields, i) <= bytes_before(fields, j),
    decreases j,
{
    if i < j {
        sizes_grow(fields, i, j - 1);
    } else if i > 0 {
        sizes_grow(fields, i - 1, i - 1);
    }
}

/// What a field of a record shows: its bytes lie behind those of the fields
/// before it.
pub open spec fn shown_field(fields: Seq<FieldDef>, body: Seq<u8>, c: Codec, i: int) -> Option<
    Seq<char>,
> {
    field_value(
        body.subrange(bytes_before(fields, i), bytes_before(fields, i + 1)),
        fields[i],
        c,
    )
}

/// The fields of a record lie behind each other in the order of its layout,
/// and each shows its own bytes.
pub proof fn fields_lie_behind_each_other(fields: Seq<FieldDef>, body: Seq<u8>, c: Codec)
    requires
        bytes_before(fields, fields.len() as int) <= body.len(),
        forall|i: int|
            0 <= i < fields.len() ==> (#[trigger] fields[i]).kind != FieldType::Skip
                && shown_field(fields, body, c, i) is Some,
    ensures
        ({
            let r = record_values(fields, body, c, 0, 0, seq![]);
            &&& r matches Ok(values)
            &&& values.len() == fields.len()
            &&& forall|i: int|
                0 <= i < values.len() ==> Some(#[trigger] values[i]) == shown_field(
                    fields,
                    body,
                    c,
                    i,
                )
        }),
{
    values_by_place(fields, body, c, 0, seq![]);
}

/// A field to be skipped takes up its bytes and shows nothing, neither in the
/// header nor in a record.
pub proof fn skipped_fields_only_take_bytes(a: FieldDef, b: FieldDef, body: Seq<u8>, c: Codec)
    requires
        a.kind == FieldType::Skip,
        b.kind == FieldType::String,
        a.size + b.size <= body.len(),
    ensures
        record_values(seq![a, b], body, c, 0, 0, seq![]) == Ok::<
            Seq<Seq<char>>,
            EbcdicErrorV,
        >(seq![strip(field_text(body.subrange(a.size as int, a.size + b.size), c))]),
        header_from(seq![a, b], 0, seq![]) == seq![b.name@],
{
    let v = seq![a, b];
    assert(v[0] == a && v[1] == b);
    reveal_with_fuel(record_values, 3);
    reveal_with_fuel(header_from, 3);
    assert(field_bytes(body, a.size as int, b.size as int) =~= body.subrange(
        a.size as int,
        a.size + b.size,
    ));
    let none = Seq::<Seq<char>>::empty();
    assert(none.push(b.name@) =~= seq![b.name@]);
    let t = strip(field_text(body.subrange(a.size as int, a.size + b.size), c));
    assert(none.push(t) =~= seq![t]);
}

} // verus!
