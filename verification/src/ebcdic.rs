//! EBCDIC mainframe data.
//!
//! The byte stream is a sequence of fixed-width records whose fields only
//! mean anything together with a copybook layout. Each record schema becomes
//! one table, with the field names as the header row; `Skip` fields are
//! consumed but never emitted.
//!
//! Character data decodes through the cp037 family; COBOL numerics unpack
//! from their nibbles: packed decimals are COMP-3, zoned decimals a signed
//! display numeric, integers big-endian COMP. A declared scale renders like a
//! decimal number scaled by a power of ten, in scientific notation once the
//! adjusted exponent falls below -6.

use crate::bytes::part;
use crate::codepage::{cp037, cp1140, cp500, decode_cp037, decode_cp1140, decode_cp500};
use crate::document::{
    grid, grid_push, node_view, nodes_view, nodes_view_push, opt, plain_table, plain_table_view,
    strs, strs_push, Node, NodeV,
};
use crate::text::{
    chars_of, decimal, has_prefix, lstrip, parse_sint, push_all, push_decimal, push_signed_decimal,
    signed_decimal, sint, slice, str_eq, string_of, strip, trim, trim_start,
};
use vstd::prelude::*;

verus! {

/// How the bytes of a field are read.
#[derive(Clone, Copy, Debug, PartialEq, Eq, Structural)]
pub enum FieldType {
    String,
    Integer,
    UnsignedInteger,
    PackedDecimal,
    ZonedDecimal,
    Skip,
}

/// One field of a record.
pub struct FieldDef {
    pub name: String,
    pub size: usize,
    pub kind: FieldType,
    pub scale: u32,
}

/// One record schema.
pub struct RecordLayout {
    pub fields: Vec<FieldDef>,
    pub name: String,
    pub selector: Option<String>,
}

/// A copybook: the record schemas and how to find the records.
pub struct Layout {
    pub records: Vec<RecordLayout>,
    pub description: String,
    pub header_size: usize,
    pub footer_size: usize,
    pub record_length_field: Option<FieldDef>,
    pub record_type_field: Option<FieldDef>,
    pub encoding: String,
}

/// The encoding of a layout that names none.
pub fn default_encoding() -> (r: String)
    ensures
        r@ == "cp037"@,
{
    "cp037".to_owned()
}

/// The name of a record that has none.
pub fn default_record_name() -> (r: String)
    ensures
        r@ == "record"@,
{
    "record".to_owned()
}

/// What is wrong with a layout.
#[derive(Clone, Copy, Debug, PartialEq, Eq, Structural)]
pub enum LayoutError {
    NoRecords,
    NoFields,
    EmptyField,
    NoTypeField,
    NoSelector,
    RepeatedSelector,
}

impl LayoutError {
    /// The complaint.
    pub open spec fn text(self) -> Seq<char> {
        match self {
            LayoutError::NoRecords => "a layout needs at least one record schema"@,
            LayoutError::NoFields => "every record schema needs at least one field"@,
            LayoutError::EmptyField => "field sizes must be positive"@,
            LayoutError::NoTypeField =>
                "record_type_field is required for a layout with several records"@,
            LayoutError::NoSelector =>
                "every record needs a selector when record_type_field is set"@,
            LayoutError::RepeatedSelector => "record selectors must be unique"@,
        }
    }

    /// The complaint.
    pub fn message(&self) -> (r: String)
        ensures
            r@ == self.text(),
    {
        match self {
            LayoutError::NoRecords => "a layout needs at least one record schema".to_owned(),
            LayoutError::NoFields => "every record schema needs at least one field".to_owned(),
            LayoutError::EmptyField => "field sizes must be positive".to_owned(),
            LayoutError::NoTypeField => "record_type_field is required for a layout with several records".to_owned(),
            LayoutError::NoSelector => "every record needs a selector when record_type_field is set".to_owned(),
            LayoutError::RepeatedSelector => "record selectors must be unique".to_owned(),
        }
    }
}

/// Whether some field of a record has no bytes.
pub open spec fn has_empty_field(fields: Seq<FieldDef>) -> bool {
    exists|i: int| 0 <= i < fields.len() && (#[trigger] fields[i]).size == 0
}

/// Whether an optional field is there and has no bytes.
pub open spec fn is_empty_field(f: Option<FieldDef>) -> bool {
    f matches Some(f) && f.size == 0
}

/// What is wrong with a layout; the first complaint counts.
pub open spec fn layout_error(l: Layout) -> Option<LayoutError> {
    let r = l.records@;
    if r.len() == 0 {
        Some(LayoutError::NoRecords)
    } else if exists|i: int| 0 <= i < r.len() && (#[trigger] r[i]).fields@.len() == 0 {
        Some(LayoutError::NoFields)
    } else if (exists|i: int| 0 <= i < r.len() && has_empty_field((#[trigger] r[i]).fields@))
        || is_empty_field(l.record_length_field) || is_empty_field(l.record_type_field) {
        Some(LayoutError::EmptyField)
    } else if r.len() > 1 && l.record_type_field is None {
        Some(LayoutError::NoTypeField)
    } else if l.record_type_field is Some && exists|i: int|
        0 <= i < r.len() && (#[trigger] r[i]).selector is None {
        Some(LayoutError::NoSelector)
    } else if l.record_type_field is Some && exists|i: int, j: int|
        0 <= i < j < r.len() && opt((#[trigger] r[i]).selector) == opt((#[trigger] r[j]).selector) {
        Some(LayoutError::RepeatedSelector)
    } else {
        None
    }
}

fn find_empty_field(fields: &Vec<FieldDef>) -> (r: bool)
    ensures
        r == has_empty_field(fields@),
{
    let mut i: usize = 0;
    while i < fields.len()
        invariant
            i <= fields@.len(),
            forall|j: int| 0 <= j < i ==> (#[trigger] fields@[j]).size != 0,
        decreases fields@.len() - i,
    {
        if fields[i].size == 0 {
            return true;
        }
        i += 1;
    }
    false
}

/// Equality of two optional texts.
pub fn same_opt(a: &Option<String>, b: &Option<String>) -> (r: bool)
    ensures
        r == (opt(*a) == opt(*b)),
{
    match (a, b) {
        (Some(a), Some(b)) => str_eq(a.as_str(), b.as_str()),
        (None, None) => true,
        _ => false,
    }
}

impl Layout {
    /// Whether the layout can be used.
    pub fn validate(&self) -> (r: Result<(), LayoutError>)
        ensures
            match layout_error(*self) {
                Some(e) => r == Err::<(), LayoutError>(e),
                None => r is Ok,
            },
    {
        let n = self.records.len();
        if n == 0 {
            return Err(LayoutError::NoRecords);
        }
        let mut i: usize = 0;
        while i < n
            invariant
                i <= n == self.records@.len(),
                n > 0,
                forall|j: int| 0 <= j < i ==> (#[trigger] self.records@[j]).fields@.len() != 0,
            decreases n - i,
        {
            if self.records[i].fields.len() == 0 {
                return Err(LayoutError::NoFields);
            }
            i += 1;
        }
        let mut k: usize = 0;
        while k < n
            invariant
                k <= n == self.records@.len(),
                n > 0,
                forall|j: int| 0 <= j < n ==> (#[trigger] self.records@[j]).fields@.len() != 0,
                forall|j: int|
                    0 <= j < k ==> !has_empty_field((#[trigger] self.records@[j]).fields@),
            decreases n - k,
        {
            if find_empty_field(&self.records[k].fields) {
                return Err(LayoutError::EmptyField);
            }
            k += 1;
        }
        match &self.record_length_field {
            Some(f) => if f.size == 0 {
                return Err(LayoutError::EmptyField);
            },
            None => {},
        }
        match &self.record_type_field {
            Some(f) => if f.size == 0 {
                return Err(LayoutError::EmptyField);
            },
            None => {
                if n > 1 {
                    return Err(LayoutError::NoTypeField);
                }
                return Ok(());
            },
        }
        let mut a: usize = 0;
        while a < n
            invariant
                a <= n == self.records@.len(),
                n > 0,
                self.record_type_field is Some,
                forall|j: int| 0 <= j < n ==> (#[trigger] self.records@[j]).fields@.len() != 0,
                forall|j: int|
                    0 <= j < n ==> !has_empty_field((#[trigger] self.records@[j]).fields@),
                !is_empty_field(self.record_length_field),
                !is_empty_field(self.record_type_field),
                forall|j: int| 0 <= j < a ==> (#[trigger] self.records@[j]).selector is Some,
            decreases n - a,
        {
            if self.records[a].selector.is_none() {
                return Err(LayoutError::NoSelector);
            }
            a += 1;
        }
        let mut b: usize = 0;
        while b < n
            invariant
                b <= n == self.records@.len(),
                n > 0,
                self.record_type_field is Some,
                forall|j: int| 0 <= j < n ==> (#[trigger] self.records@[j]).fields@.len() != 0,
                forall|j: int|
                    0 <= j < n ==> !has_empty_field((#[trigger] self.records@[j]).fields@),
                !is_empty_field(self.record_length_field),
                !is_empty_field(self.record_type_field),
                forall|j: int| 0 <= j < n ==> (#[trigger] self.records@[j]).selector is Some,
                forall|x: int, y: int|
                    0 <= x < y < n && y < b ==> opt((#[trigger] self.records@[x]).selector) != opt(
                        (#[trigger] self.records@[y]).selector,
                    ),
            decreases n - b,
        {
            let mut c: usize = 0;
            while c < b
                invariant
                    c <= b < n == self.records@.len(),
                    n > 0,
                    self.record_type_field is Some,
                    forall|j: int| 0 <= j < n ==> (#[trigger] self.records@[j]).fields@.len() != 0,
                    forall|j: int|
                        0 <= j < n ==> !has_empty_field((#[trigger] self.records@[j]).fields@),
                    !is_empty_field(self.record_length_field),
                    !is_empty_field(self.record_type_field),
                    forall|j: int| 0 <= j < n ==> (#[trigger] self.records@[j]).selector is Some,
                    forall|x: int|
                        0 <= x < c ==> opt((#[trigger] self.records@[x]).selector) != opt(
                            self.records@[b as int].selector,
                        ),
                decreases b - c,
            {
                if same_opt(&self.records[c].selector, &self.records[b].selector) {
                    return Err(LayoutError::RepeatedSelector);
                }
                c += 1;
            }
            b += 1;
        }
        Ok(())
    }

    /// The bytes of the record prefix: the length and the type field.
    pub open spec fn prefix(self) -> int {
        (match self.record_length_field {
            Some(f) => f.size as int,
            None => 0,
        }) + (match self.record_type_field {
            Some(f) => f.size as int,
            None => 0,
        })
    }

    /// The bytes of the record prefix.
    pub fn prefix_size(&self) -> (r: u128)
        ensures
            r == self.prefix(),
    {
        let a: u128 = match &self.record_length_field {
            Some(f) => f.size as u128,
            None => 0,
        };
        let b: u128 = match &self.record_type_field {
            Some(f) => f.size as u128,
            None => 0,
        };
        a + b
    }
}

/// The code pages that a layout may name.
#[derive(Clone, Copy, Debug, PartialEq, Eq, Structural)]
pub enum Codec {
    Cp037,
    Cp500,
    Cp1140,
}

/// The code page of a name.
pub open spec fn codec(name: Seq<char>) -> Option<Codec> {
    if name == "cp037"@ {
        Some(Codec::Cp037)
    } else if name == "cp500"@ {
        Some(Codec::Cp500)
    } else if name == "cp1140"@ {
        Some(Codec::Cp1140)
    } else {
        None
    }
}

impl Layout {
    /// The code page of the layout, if its name is known.
    pub fn decode_table(&self) -> (r: Option<Codec>)
        ensures
            r == codec(self.encoding@),
    {
        let name = self.encoding.as_str();
        if str_eq(name, "cp037") {
            Some(Codec::Cp037)
        } else if str_eq(name, "cp500") {
            Some(Codec::Cp500)
        } else if str_eq(name, "cp1140") {
            Some(Codec::Cp1140)
        } else {
            None
        }
    }
}

/// The character of a byte.
pub open spec fn ebcdic_char(c: Codec, b: u8) -> char {
    match c {
        Codec::Cp037 => cp037(b),
        Codec::Cp500 => cp500(b),
        Codec::Cp1140 => cp1140(b),
    }
}

/// The character of a byte.
pub fn decode_char(c: Codec, b: u8) -> (r: char)
    ensures
        r == ebcdic_char(c, b),
{
    match c {
        Codec::Cp037 => decode_cp037(b),
        Codec::Cp500 => decode_cp500(b),
        Codec::Cp1140 => decode_cp1140(b),
    }
}

// ------------------------------------------------------------ numbers

/// The digits without their leading zeros.
pub open spec fn without_zeros(s: Seq<char>) -> Seq<char>
    decreases s.len(),
{
    if s.len() > 0 && s[0] == '0' {
        without_zeros(s.drop_first())
    } else {
        s
    }
}

/// The significant digits: no leading zeros, and one digit at least.
pub open spec fn significant(s: Seq<char>) -> Seq<char> {
    if without_zeros(s).len() == 0 {
        seq!['0']
    } else {
        without_zeros(s)
    }
}

/// Zeros before the digits do not change what they show.
pub proof fn leading_zeros_do_not_count(raw: Seq<char>, negative: bool, scale: int)
    ensures
        scaled(seq!['0'] + raw, negative, scale) == scaled(raw, negative, scale),
{
    assert((seq!['0'] + raw).drop_first() =~= raw);
    assert((seq!['0'] + raw)[0] == '0');
}

/// Nothing but zeros shows no sign.
pub proof fn zero_has_no_sign(raw: Seq<char>, scale: int)
    requires
        without_zeros(raw).len() == 0,
    ensures
        scaled(raw, true, scale) == scaled(raw, false, scale),
{
}

/// `n` zeros.
pub open spec fn zeros(n: int) -> Seq<char> {
    Seq::new(n as nat, |i: int| '0')
}

/// Digits with a sign at a decimal scale. Zero has no sign. Plain notation
/// while the adjusted exponent is at least -6, scientific notation beyond;
/// trailing zeros are kept.
pub open spec fn scaled(raw: Seq<char>, negative: bool, scale: int) -> Seq<char> {
    let digits = significant(raw);
    let n = digits.len() as int;
    let sign = if negative && digits != seq!['0'] {
        seq!['-']
    } else {
        seq![]
    };
    let adjusted = n - 1 - scale;
    if scale == 0 {
        sign + digits
    } else if adjusted >= -6 {
        if n > scale {
            sign + digits.take(n - scale) + seq!['.'] + digits.skip(n - scale)
        } else {
            sign + seq!['0', '.'] + zeros(scale - n) + digits
        }
    } else if n == 1 {
        sign + digits + seq!['E'] + signed_decimal(adjusted)
    } else {
        sign + digits.take(1) + seq!['.'] + digits.skip(1) + seq!['E'] + signed_decimal(adjusted)
    }
}

/// Digits with a sign at a decimal scale.
pub fn scale_digits(raw: &Vec<char>, negative: bool, scale: u32) -> (r: Vec<char>)
    requires
        raw@.len() <= i64::MAX,
    ensures
        r@ == scaled(raw@, negative, scale as int),
{
    let mut i: usize = 0;
    assert(raw@.skip(0) =~= raw@);
    while i < raw.len() && raw[i] == '0'
        invariant
            i <= raw@.len(),
            without_zeros(raw@) == without_zeros(raw@.skip(i as int)),
        decreases raw@.len() - i,
    {
        assert(raw@.skip(i as int).drop_first() =~= raw@.skip(i + 1));
        i += 1;
    }
    assert(raw@.skip(i as int) =~= raw@.subrange(i as int, raw@.len() as int));
    let mut digits = slice(raw, i, raw.len());
    if digits.len() == 0 {
        digits.push('0');
        assert(digits@ =~= seq!['0']);
    }
    assert(digits@ == significant(raw@));
    let n: usize = digits.len();
    let mut out: Vec<char> = Vec::new();
    if negative && !(n == 1 && digits[0] == '0') {
        assert(digits@ != seq!['0']);
        out.push('-');
    } else if negative {
        assert(digits@ =~= seq!['0']);
    }
    let ghost sign = out@;
    if scale == 0 {
        push_all(&mut out, &digits);
        return out;
    }
    let adjusted: i64 = n as i64 - 1 - scale as i64;
    if adjusted >= -6 {
        if n > scale as usize {
            let whole: usize = n - scale as usize;
            let head = slice(&digits, 0, whole);
            let tail = slice(&digits, whole, n);
            push_all(&mut out, &head);
            out.push('.');
            push_all(&mut out, &tail);
            assert(digits@.take(n - scale) =~= head@);
            assert(digits@.skip(n - scale) =~= tail@);
            assert(out@ =~= sign + head@ + seq!['.'] + tail@);
        } else {
            out.push('0');
            out.push('.');
            let pad: usize = scale as usize - n;
            let ghost stem = out@;
            let mut k: usize = 0;
            while k < pad
                invariant
                    k <= pad,
                    out@ == stem + zeros(k as int),
                decreases pad - k,
            {
                out.push('0');
                assert(zeros(k + 1) =~= zeros(k as int).push('0'));
                k += 1;
            }
            push_all(&mut out, &digits);
            assert(out@ =~= sign + seq!['0', '.'] + zeros(scale - n) + digits@);
        }
    } else {
        let head = slice(&digits, 0, 1);
        push_all(&mut out, &head);
        assert(digits@.take(1) =~= head@);
        if n > 1 {
            let tail = slice(&digits, 1, n);
            out.push('.');
            push_all(&mut out, &tail);
            assert(digits@.skip(1) =~= tail@);
        } else {
            assert(head@ =~= digits@);
        }
        out.push('E');
        push_signed_decimal(&mut out, adjusted);
        if n > 1 {
            assert(out@ =~= sign + digits@.take(1) + seq!['.'] + digits@.skip(1) + seq!['E']
                + signed_decimal(adjusted as int));
        } else {
            assert(out@ =~= sign + digits@ + seq!['E'] + signed_decimal(adjusted as int));
        }
    }
    out
}

/// A digit string with a sign at a decimal scale.
pub fn scale_decimal(raw_digits: &str, negative: bool, scale: u32) -> (r: String)
    requires
        raw_digits@.len() <= i64::MAX,
    ensures
        r@ == scaled(raw_digits@, negative, scale as int),
{
    string_of(&scale_digits(&chars_of(raw_digits), negative, scale))
}

/// The unsigned big-endian number of some bytes.
pub open spec fn big_endian(d: Seq<u8>) -> int
    decreases d.len(),
{
    if d.len() == 0 {
        0
    } else {
        big_endian(d.drop_last()) * 256 + d.last()
    }
}

/// One more than the largest number of `n` bytes.
pub open spec fn byte_range(n: int) -> int
    decreases n,
{
    if n <= 0 {
        1
    } else {
        byte_range(n - 1) * 256
    }
}

/// A binary integer of 1 to 16 bytes, in two's complement where the type is
/// signed.
pub open spec fn binary(d: Seq<u8>, signed: bool) -> int {
    let v = big_endian(d);
    if signed && d[0] >= 0x80 {
        v - byte_range(d.len() as int)
    } else {
        v
    }
}

/// The digit of a nibble; digits above nine are none.
pub open spec fn nibble_char(n: int) -> char {
    (('0' as int) + n) as char
}

/// The digit nibbles of a packed decimal: two per byte, but for the last
/// nibble, which holds the sign.
pub open spec fn packed_nibbles(d: Seq<u8>) -> Seq<int> {
    Seq::new(
        (if d.len() == 0 { 0 } else { 2 * d.len() - 1 }) as nat,
        |i: int|
            if i % 2 == 0 {
                d[i / 2] as int / 16
            } else {
                d[i / 2] as int % 16
            },
    )
}

/// The digit nibbles of a zoned decimal.
pub open spec fn zoned_nibbles(d: Seq<u8>) -> Seq<int> {
    Seq::new(d.len(), |i: int| d[i] as int % 16)
}

/// Whether all nibbles are digits.
pub open spec fn are_digits(n: Seq<int>) -> bool {
    forall|i: int| 0 <= i < n.len() ==> #[trigger] n[i] <= 9
}

/// The characters of digit nibbles.
pub open spec fn nibble_chars(n: Seq<int>) -> Seq<char> {
    Seq::new(n.len(), |i: int| nibble_char(n[i]))
}

/// The sign nibbles of negative numbers.
pub open spec fn is_minus(n: int) -> bool {
    n == 0x0b || n == 0x0d
}

/// Control characters, which padding and delimiters decode to.
pub open spec fn is_control(c: char) -> bool {
    c <= '\u{1f}' || ('\u{7f}' <= c && c <= '\u{9f}')
}

/// The characters of a field, without control characters.
pub open spec fn field_text(d: Seq<u8>, c: Codec) -> Seq<char>
    decreases d.len(),
{
    if d.len() == 0 {
        seq![]
    } else {
        let ch = ebcdic_char(c, d.last());
        let rest = field_text(d.drop_last(), c);
        if is_control(ch) {
            rest
        } else {
            rest.push(ch)
        }
    }
}

/// What a field shows; `None` when its bytes are no value of its type.
pub open spec fn field_value(d: Seq<u8>, f: FieldDef, c: Codec) -> Option<Seq<char>> {
    match f.kind {
        FieldType::String => Some(strip(field_text(d, c))),
        FieldType::Integer | FieldType::UnsignedInteger => if 1 <= d.len() <= 16 {
            let v = binary(d, f.kind == FieldType::Integer);
            Some(
                scaled(
                    decimal(
                        if v < 0 {
                            -v
                        } else {
                            v
                        },
                    ),
                    v < 0,
                    f.scale as int,
                ),
            )
        } else {
            None
        },
        FieldType::PackedDecimal => if are_digits(packed_nibbles(d)) {
            Some(
                scaled(
                    nibble_chars(packed_nibbles(d)),
                    d.len() > 0 && is_minus(d.last() as int % 16),
                    f.scale as int,
                ),
            )
        } else {
            None
        },
        FieldType::ZonedDecimal => if are_digits(zoned_nibbles(d)) {
            Some(
                scaled(
                    nibble_chars(zoned_nibbles(d)),
                    d.len() > 0 && is_minus(d.last() as int / 16),
                    f.scale as int,
                ),
            )
        } else {
            None
        },
        FieldType::Skip => Some(seq![]),
    }
}

/// The number that a field holds: a binary integer, or the display form of
/// another type read as one; none where 128 bits with a sign do not hold it.
pub open spec fn field_number(d: Seq<u8>, f: FieldDef, c: Codec) -> Option<int> {
    if f.kind == FieldType::Integer || f.kind == FieldType::UnsignedInteger {
        if 1 <= d.len() <= 16 && binary(d, f.kind == FieldType::Integer) <= i128::MAX {
            Some(binary(d, f.kind == FieldType::Integer))
        } else {
            None
        }
    } else {
        match field_value(d, f, c) {
            Some(s) => sint(s, i128::MIN as int, i128::MAX as int),
            None => None,
        }
    }
}

proof fn byte_range_grows(n: int)
    requires
        0 <= n <= 16,
    ensures
        1 <= byte_range(n) <= 0x1_0000_0000_0000_0000_0000_0000_0000_0000int,
        n == 16 ==> byte_range(n) == 0x1_0000_0000_0000_0000_0000_0000_0000_0000int,
        n <= 15 ==> byte_range(n) <= 0x100_0000_0000_0000_0000_0000_0000_0000int,
    decreases n,
{
    reveal_with_fuel(byte_range, 17);
}

proof fn big_endian_fits(d: Seq<u8>)
    ensures
        0 <= big_endian(d) < byte_range(d.len() as int),
        d.len() > 0 ==> d[0] * byte_range(d.len() - 1) <= big_endian(d) < (d[0] + 1) * byte_range(
            d.len() - 1,
        ),
    decreases d.len(),
{
    if d.len() > 0 {
        big_endian_fits(d.drop_last());
        let r = byte_range(d.len() - 1);
        assert(byte_range(d.len() as int) == r * 256);
        if d.len() == 1 {
            assert(big_endian(d.drop_last()) == 0);
            assert(byte_range(0) == 1);
            assert(d.last() == d[0]);
            assert(d[0] * r == d[0]) by (nonlinear_arith)
                requires
                    r == 1,
            ;
            assert((d[0] + 1) * r == d[0] + 1) by (nonlinear_arith)
                requires
                    r == 1,
            ;
        } else {
            let q = byte_range(d.len() - 2);
            let h = d[0] as int;
            let b = big_endian(d.drop_last());
            assert(d.drop_last()[0] == d[0]);
            assert(r == q * 256);
            assert(h * r == (h * q) * 256) by (nonlinear_arith)
                requires
                    r == q * 256,
            ;
            assert((h + 1) * r == ((h + 1) * q) * 256) by (nonlinear_arith)
                requires
                    r == q * 256,
            ;
        }
    }
}

/// The sign and the size of a binary integer of 1 to 16 bytes.
fn decode_binary(d: &[u8], signed: bool) -> (r: (bool, u128))
    requires
        1 <= d@.len() <= 16,
    ensures
        r.0 == (binary(d@, signed) < 0),
        r.0 ==> binary(d@, signed) == -r.1 && r.1 <= 0x8000_0000_0000_0000_0000_0000_0000_0000,
        !r.0 ==> binary(d@, signed) == r.1,
{
    let mut v: u128 = 0;
    let mut top: u128 = 0;
    let mut i: usize = 0;
    proof {
        assert(d@.take(0) =~= Seq::<u8>::empty());
    }
    while i < d.len()
        invariant
            i <= d@.len() <= 16,
            v == big_endian(d@.take(i as int)),
            top == byte_range(i as int) - 1,
        decreases d@.len() - i,
    {
        proof {
            assert(d@.take(i + 1).drop_last() =~= d@.take(i as int));
            big_endian_fits(d@.take(i + 1));
            byte_range_grows(i as int);
            byte_range_grows(i + 1);
        }
        v = v * 256 + d[i] as u128;
        top = top * 256 + 255;
        i += 1;
    }
    proof {
        assert(d@.take(i as int) =~= d@);
        big_endian_fits(d@);
        byte_range_grows(i as int);
        if i < 16 {
            byte_range_grows(i as int);
        }
    }
    if signed && d[0] >= 0x80 {
        let below: u128 = top - v;
        proof {
            if i == 16 {
                if signed && d@[0] >= 0x80 {
                    let q = byte_range(15);
                    reveal_with_fuel(byte_range, 17);
                    assert(d@[0] * q >= 0x80 * q) by (nonlinear_arith)
                        requires
                            d@[0] >= 0x80,
                            q >= 0,
                    ;
                }
            }
        }
        (true, below + 1)
    } else {
        (false, v)
    }
}

// ------------------------------------------------------------ fields

/// Why data cannot be read with a layout.
#[derive(Debug, PartialEq, Eq)]
pub enum EbcdicError {
    /// The layout is not valid.
    Layout(LayoutError),
    /// The layout names an unknown code page.
    Codec(String),
    /// The data ends inside the named item: `left` of `size` bytes are there.
    Truncated { name: String, left: usize, size: u128 },
    /// The bytes are no value of the named field.
    Undecodable { name: String, data: Vec<u8> },
    /// No record schema has this selector.
    NoSchema { record_type: Option<String> },
    /// The record length does not cover the record prefix.
    ShortRecord { length: i128, prefix: u128 },
}

/// View of an [`EbcdicError`].
#[verifier::ext_equal]
pub enum EbcdicErrorV {
    Layout(LayoutError),
    Codec(Seq<char>),
    Truncated { name: Seq<char>, left: int, size: int },
    Undecodable { name: Seq<char>, data: Seq<u8> },
    NoSchema { record_type: Option<Seq<char>> },
    ShortRecord { length: int, prefix: int },
}

impl View for EbcdicError {
    type V = EbcdicErrorV;

    open spec fn view(&self) -> EbcdicErrorV {
        match *self {
            EbcdicError::Layout(e) => EbcdicErrorV::Layout(e),
            EbcdicError::Codec(name) => EbcdicErrorV::Codec(name@),
            EbcdicError::Truncated { name, left, size } => EbcdicErrorV::Truncated {
                name: name@,
                left: left as int,
                size: size as int,
            },
            EbcdicError::Undecodable { name, data } => EbcdicErrorV::Undecodable {
                name: name@,
                data: data@,
            },
            EbcdicError::NoSchema { record_type } => EbcdicErrorV::NoSchema {
                record_type: opt(record_type),
            },
            EbcdicError::ShortRecord { length, prefix } => EbcdicErrorV::ShortRecord {
                length: length as int,
                prefix: prefix as int,
            },
        }
    }
}

/// The error of a field whose bytes are no value of its type.
pub fn decode_err(f: &FieldDef, data: &[u8]) -> (r: EbcdicError)
    ensures
        r@ == (EbcdicErrorV::Undecodable { name: f.name@, data: data@ }),
{
    let mut copy: Vec<u8> = Vec::new();
    let mut i: usize = 0;
    while i < data.len()
        invariant
            i <= data@.len(),
            copy@ == data@.take(i as int),
        decreases data@.len() - i,
    {
        copy.push(data[i]);
        assert(data@.take(i + 1) =~= data@.take(i as int).push(data@[i as int]));
        i += 1;
    }
    assert(data@.take(i as int) =~= data@);
    EbcdicError::Undecodable { name: f.name.clone(), data: copy }
}

fn decode_text(d: &[u8], c: Codec) -> (r: Vec<char>)
    ensures
        r@ == field_text(d@, c),
{
    let mut out: Vec<char> = Vec::new();
    let mut i: usize = 0;
    assert(d@.take(0) =~= Seq::<u8>::empty());
    while i < d.len()
        invariant
            i <= d@.len(),
            out@ == field_text(d@.take(i as int), c),
        decreases d@.len() - i,
    {
        let ch = decode_char(c, d[i]);
        if !(ch <= '\u{1f}' || ('\u{7f}' <= ch && ch <= '\u{9f}')) {
            out.push(ch);
        }
        assert(d@.take(i + 1).drop_last() =~= d@.take(i as int));
        i += 1;
    }
    assert(d@.take(i as int) =~= d@);
    out
}

fn digit_char(n: u8) -> (r: char)
    requires
        n <= 9,
    ensures
        r == nibble_char(n as int),
{
    (48 + n) as char
}

fn packed_digits(d: &[u8]) -> (r: Option<Vec<char>>)
    ensures
        r is Some <==> are_digits(packed_nibbles(d@)),
        r matches Some(x) ==> x@ == nibble_chars(packed_nibbles(d@)),
{
    let ghost want = packed_nibbles(d@);
    let mut out: Vec<char> = Vec::new();
    let n: usize = d.len();
    let mut i: usize = 0;
    while i < n
        invariant
            i <= n == d@.len(),
            want == packed_nibbles(d@),
            out@.len() == if i == n && n > 0 {
                2 * n - 1
            } else {
                2 * i
            },
            forall|k: int| 0 <= k < out@.len() ==> #[trigger] want[k] <= 9,
            forall|k: int| 0 <= k < out@.len() ==> out@[k] == nibble_char(#[trigger] want[k]),
        decreases n - i,
    {
        let high: u8 = d[i] / 16;
        let low: u8 = d[i] % 16;
        assert(want[2 * i] == high);
        if high > 9 {
            return None;
        }
        out.push(digit_char(high));
        if i + 1 < n {
            assert(want[2 * i + 1] == low);
            if low > 9 {
                return None;
            }
            out.push(digit_char(low));
        }
        i += 1;
    }
    assert(out@ =~= nibble_chars(want));
    Some(out)
}

fn zoned_digits(d: &[u8]) -> (r: Option<Vec<char>>)
    ensures
        r is Some <==> are_digits(zoned_nibbles(d@)),
        r matches Some(x) ==> x@ == nibble_chars(zoned_nibbles(d@)),
{
    let ghost want = zoned_nibbles(d@);
    let mut out: Vec<char> = Vec::new();
    let mut i: usize = 0;
    while i < d.len()
        invariant
            i <= d@.len(),
            want == zoned_nibbles(d@),
            out@.len() == i,
            forall|k: int| 0 <= k < i ==> #[trigger] want[k] <= 9,
            forall|k: int| 0 <= k < i ==> out@[k] == nibble_char(#[trigger] want[k]),
        decreases d@.len() - i,
    {
        let low: u8 = d[i] % 16;
        assert(want[i as int] == low);
        if low > 9 {
            return None;
        }
        out.push(digit_char(low));
        i += 1;
    }
    assert(out@ =~= nibble_chars(want));
    Some(out)
}

/// What a field shows, or the error of its bytes.
pub open spec fn value_or(d: Seq<u8>, f: FieldDef, c: Codec) -> Result<Seq<char>, EbcdicErrorV> {
    match field_value(d, f, c) {
        Some(s) => Ok(s),
        None => Err(EbcdicErrorV::Undecodable { name: f.name@, data: d }),
    }
}

/// What a field shows.
pub fn decode_value(d: &[u8], f: &FieldDef, c: Codec) -> (r: Result<String, EbcdicError>)
    requires
        d@.len() < 0x4000_0000_0000_0000,
    ensures
        match value_or(d@, *f, c) {
            Ok(s) => r matches Ok(x) && x@ == s,
            Err(e) => r matches Err(x) && x@ == e,
        },
{
    match f.kind {
        FieldType::String => Ok(string_of(&trim(&decode_text(d, c)))),
        FieldType::Integer | FieldType::UnsignedInteger => {
            if d.len() == 0 || d.len() > 16 {
                return Err(decode_err(f, d));
            }
            let (negative, size): (bool, u128) = decode_binary(d, f.kind == FieldType::Integer);
            let mut digits: Vec<char> = Vec::new();
            push_decimal(&mut digits, size);
            proof {
                decimal_is_short(size as int, 39);
                assert(digits@ =~= decimal(size as int));
            }
            Ok(string_of(&scale_digits(&digits, negative, f.scale)))
        },
        FieldType::PackedDecimal => {
            let digits = match packed_digits(d) {
                Some(digits) => digits,
                None => {
                    return Err(decode_err(f, d));
                },
            };
            let negative = d.len() > 0 && {
                let sign: u8 = d[d.len() - 1] % 16;
                sign == 0x0b || sign == 0x0d
            };
            Ok(string_of(&scale_digits(&digits, negative, f.scale)))
        },
        FieldType::ZonedDecimal => {
            let digits = match zoned_digits(d) {
                Some(digits) => digits,
                None => {
                    return Err(decode_err(f, d));
                },
            };
            let negative = d.len() > 0 && {
                let sign: u8 = d[d.len() - 1] / 16;
                sign == 0x0b || sign == 0x0d
            };
            Ok(string_of(&scale_digits(&digits, negative, f.scale)))
        },
        FieldType::Skip => {
            let s = String::new();
            assert(s@ =~= seq![]);
            Ok(s)
        },
    }
}

/// Ten to the power of `n`.
spec fn ten_to(n: int) -> int
    decreases n,
{
    if n <= 0 {
        1
    } else {
        10 * ten_to(n - 1)
    }
}

proof fn decimal_fits(v: int, n: int)
    requires
        1 <= n,
        0 <= v < ten_to(n),
    ensures
        decimal(v).len() <= n,
    decreases n,
{
    if v >= 10 {
        assert(ten_to(1) == 10) by {
            reveal_with_fuel(ten_to, 2);
        }
        decimal_fits(v / 10, n - 1);
    }
}

/// A 128-bit number has at most 39 digits.
proof fn decimal_is_short(v: int, n: int)
    requires
        0 <= v <= u128::MAX,
        n == 39,
    ensures
        decimal(v).len() <= n,
{
    assert(v < ten_to(39)) by {
        reveal_with_fuel(ten_to, 40);
    }
    decimal_fits(v, 39);
}

/// The number that a field holds, or the error of its bytes.
pub open spec fn number_or(d: Seq<u8>, f: FieldDef, c: Codec) -> Result<int, EbcdicErrorV> {
    match field_number(d, f, c) {
        Some(n) => Ok(n),
        None => Err(EbcdicErrorV::Undecodable { name: f.name@, data: d }),
    }
}

/// The number that a field holds.
pub fn decode_int_like(d: &[u8], f: &FieldDef, c: Codec) -> (r: Result<i128, EbcdicError>)
    requires
        d@.len() < 0x4000_0000_0000_0000,
    ensures
        match number_or(d@, *f, c) {
            Ok(n) => r matches Ok(x) && x == n,
            Err(e) => r matches Err(x) && x@ == e,
        },
{
    match f.kind {
        FieldType::Integer | FieldType::UnsignedInteger => {
            if d.len() == 0 || d.len() > 16 {
                return Err(decode_err(f, d));
            }
            let (negative, size): (bool, u128) = decode_binary(d, f.kind == FieldType::Integer);
            if negative {
                Ok(-((size - 1) as i128) - 1)
            } else if size <= 0x7fff_ffff_ffff_ffff_ffff_ffff_ffff_ffff {
                Ok(size as i128)
            } else {
                Err(decode_err(f, d))
            }
        },
        _ => match decode_value(d, f, c) {
            Ok(s) => match parse_sint(&chars_of(s.as_str()), i128::MIN, i128::MAX) {
                Some(n) => Ok(n),
                None => Err(decode_err(f, d)),
            },
            Err(e) => Err(e),
        },
    }
}

// ------------------------------------------------------------ records

/// `size` bytes at `offset`, which may not reach past `end`.
pub open spec fn chunk(
    data: Seq<u8>,
    offset: int,
    size: int,
    end: int,
    name: Seq<char>,
) -> Result<Seq<u8>, EbcdicErrorV> {
    if offset + size > end {
        Err(
            EbcdicErrorV::Truncated {
                name,
                left: if end > offset {
                    end - offset
                } else {
                    0
                },
                size,
            },
        )
    } else {
        Ok(data.subrange(offset, offset + size))
    }
}

/// `size` bytes at `offset`, which may not reach past `end`.
pub fn take<'a>(data: &'a [u8], offset: usize, size: u128, end: usize, name: &str) -> (r: Result<
    &'a [u8],
    EbcdicError,
>)
    requires
        end <= data@.len(),
    ensures
        match chunk(data@, offset as int, size as int, end as int, name@) {
            Ok(s) => r matches Ok(x) && x@ == s,
            Err(e) => r matches Err(x) && x@ == e,
        },
{
    let left: usize = if end > offset {
        end - offset
    } else {
        0
    };
    if offset > end || size > left as u128 {
        return Err(EbcdicError::Truncated { name: name.to_owned(), left, size });
    }
    Ok(part(data, offset, offset + size as usize))
}

/// The bytes of a field inside a record body; a body that ends early leaves
/// fewer bytes, or none.
pub open spec fn field_bytes(body: Seq<u8>, off: int, size: int) -> Seq<u8> {
    let n = body.len() as int;
    if off > n {
        seq![]
    } else {
        body.subrange(
            off,
            if off + size < n {
                off + size
            } else {
                n
            },
        )
    }
}

/// The values of the fields from `k` on, added to `done`; skipped fields
/// take their bytes and show nothing.
pub open spec fn record_values(
    fields: Seq<FieldDef>,
    body: Seq<u8>,
    c: Codec,
    k: int,
    off: int,
    done: Seq<Seq<char>>,
) -> Result<Seq<Seq<char>>, EbcdicErrorV>
    decreases fields.len() - k,
{
    if k >= fields.len() {
        Ok(done)
    } else if fields[k].kind == FieldType::Skip {
        record_values(fields, body, c, k + 1, off + fields[k].size, done)
    } else {
        match value_or(field_bytes(body, off, fields[k].size as int), fields[k], c) {
            Ok(v) => record_values(fields, body, c, k + 1, off + fields[k].size, done.push(v)),
            Err(e) => Err(e),
        }
    }
}

fn read_values(fields: &Vec<FieldDef>, body: &[u8], c: Codec) -> (r: Result<
    Vec<String>,
    EbcdicError,
>)
    requires
        body@.len() < 0x4000_0000_0000_0000,
    ensures
        match record_values(fields@, body@, c, 0, 0, seq![]) {
            Ok(v) => r matches Ok(x) && strs(x@) == v,
            Err(e) => r matches Err(x) && x@ == e,
        },
{
    let mut out: Vec<String> = Vec::new();
    let n: usize = body.len();
    let mut k: usize = 0;
    let mut off: u128 = 0;
    assert(strs(out@) =~= seq![]);
    while k < fields.len()
        invariant
            k <= fields@.len(),
            n == body@.len(),
            n < 0x4000_0000_0000_0000,
            off <= k * 0xffff_ffff_ffff_ffff,
            record_values(fields@, body@, c, 0, 0, seq![]) == record_values(
                fields@,
                body@,
                c,
                k as int,
                off as int,
                strs(out@),
            ),
        decreases fields@.len() - k,
    {
        let f = &fields[k];
        assert(k * 0xffff_ffff_ffff_ffff <= 0xffff_ffff_ffff_ffff * 0xffff_ffff_ffff_ffff)
            by (nonlinear_arith)
            requires
                k <= 0xffff_ffff_ffff_ffff,
        ;
        if f.kind != FieldType::Skip {
            let from: usize = if off > n as u128 {
                n
            } else {
                off as usize
            };
            let to: usize = if off + f.size as u128 > n as u128 {
                n
            } else {
                (off + f.size as u128) as usize
            };
            let bytes = part(body, from, to);
            assert(bytes@ =~= field_bytes(body@, off as int, f.size as int));
            match decode_value(bytes, f, c) {
                Ok(v) => {
                    proof {
                        strs_push(out@, v);
                    }
                    out.push(v);
                },
                Err(e) => {
                    return Err(e);
                },
            }
        }
        off = off + f.size as u128;
        assert((k + 1) * 0xffff_ffff_ffff_ffff == k * 0xffff_ffff_ffff_ffff
            + 0xffff_ffff_ffff_ffff) by (nonlinear_arith);
        k += 1;
    }
    Ok(out)
}

/// The sizes of the fields added up.
pub open spec fn total_size(fields: Seq<FieldDef>) -> int
    decreases fields.len(),
{
    if fields.len() == 0 {
        0
    } else {
        total_size(fields.drop_last()) + fields.last().size
    }
}

proof fn total_size_bounds(fields: Seq<FieldDef>)
    ensures
        0 <= total_size(fields) <= fields.len() * 0xffff_ffff_ffff_ffff,
        fields.len() > 0 && !has_empty_field(fields) ==> total_size(fields) >= 1,
    decreases fields.len(),
{
    if fields.len() > 0 {
        total_size_bounds(fields.drop_last());
        let n = fields.len() as int;
        assert(n * 0xffff_ffff_ffff_ffff == (n - 1) * 0xffff_ffff_ffff_ffff + 0xffff_ffff_ffff_ffff)
            by (nonlinear_arith);
        if !has_empty_field(fields) {
            assert(fields[n - 1].size != 0);
        }
    }
}

fn add_sizes(fields: &Vec<FieldDef>) -> (r: u128)
    ensures
        r == total_size(fields@),
{
    let mut sum: u128 = 0;
    let mut i: usize = 0;
    assert(fields@.take(0) =~= Seq::<FieldDef>::empty());
    while i < fields.len()
        invariant
            i <= fields@.len(),
            sum == total_size(fields@.take(i as int)),
        decreases fields@.len() - i,
    {
        proof {
            assert(fields@.take(i + 1).drop_last() =~= fields@.take(i as int));
            total_size_bounds(fields@.take(i + 1));
            assert((i + 1) * 0xffff_ffff_ffff_ffff <= 0xffff_ffff_ffff_ffff * 0xffff_ffff_ffff_ffff)
                by (nonlinear_arith)
                requires
                    i + 1 <= 0xffff_ffff_ffff_ffff,
            ;
        }
        sum = sum + fields[i].size as u128;
        i += 1;
    }
    assert(fields@.take(i as int) =~= fields@);
    sum
}

/// The first schema from `k` on that the record type selects; without a type
/// field that is the first.
pub open spec fn schema_from(l: Layout, record_type: Option<Seq<char>>, k: int) -> Option<int>
    decreases l.records@.len() - k,
{
    if k >= l.records@.len() {
        None
    } else if l.record_type_field is None || opt(l.records@[k].selector) == record_type {
        Some(k)
    } else {
        schema_from(l, record_type, k + 1)
    }
}

fn find_schema(l: &Layout, record_type: &Option<String>) -> (r: Option<usize>)
    ensures
        match schema_from(*l, opt(*record_type), 0) {
            Some(k) => r matches Some(x) && x == k && 0 <= k < l.records@.len(),
            None => r is None,
        },
{
    let mut k: usize = 0;
    while k < l.records.len()
        invariant
            k <= l.records@.len(),
            schema_from(*l, opt(*record_type), 0) == schema_from(
                *l,
                opt(*record_type),
                k as int,
            ),
        decreases l.records@.len() - k,
    {
        if l.record_type_field.is_none() || same_opt(&l.records[k].selector, record_type) {
            return Some(k);
        }
        k += 1;
    }
    None
}

/// A record: its schema, its values and where the next record begins.
#[verifier::ext_equal]
pub struct RecordV {
    pub schema: int,
    pub values: Seq<Seq<char>>,
    pub next: int,
}

/// A record: its schema, its values and where the next record begins.
pub struct Record {
    pub schema: usize,
    pub values: Vec<String>,
    pub next: usize,
}

impl View for Record {
    type V = RecordV;

    open spec fn view(&self) -> RecordV {
        RecordV {
            schema: self.schema as int,
            values: strs(self.values@),
            next: self.next as int,
        }
    }
}

/// The record length that the length field at `offset` gives, if there is one.
pub open spec fn length_at(
    l: Layout,
    c: Codec,
    data: Seq<u8>,
    offset: int,
    end: int,
) -> Result<Option<int>, EbcdicErrorV> {
    match l.record_length_field {
        None => Ok(None),
        Some(f) => match chunk(data, offset, f.size as int, end, f.name@) {
            Err(e) => Err(e),
            Ok(d) => match number_or(d, f, c) {
                Ok(n) => Ok(Some(n)),
                Err(e) => Err(e),
            },
        },
    }
}

/// The record type that the type field at `offset` gives, if there is one.
pub open spec fn type_at(
    l: Layout,
    c: Codec,
    data: Seq<u8>,
    offset: int,
    end: int,
) -> Result<Option<Seq<char>>, EbcdicErrorV> {
    match l.record_type_field {
        None => Ok(None),
        Some(f) => match chunk(data, offset, f.size as int, end, f.name@) {
            Err(e) => Err(e),
            Ok(d) => match value_or(d, f, c) {
                Ok(s) => Ok(Some(s)),
                Err(e) => Err(e),
            },
        },
    }
}

/// The size of an optional field.
pub open spec fn opt_size(f: Option<FieldDef>) -> int {
    match f {
        Some(f) => f.size as int,
        None => 0,
    }
}

/// The size of a record body: the record length without its prefix, or the
/// fields' sizes where no length is given.
pub open spec fn body_size(l: Layout, schema: int, length: Option<int>) -> Result<
    int,
    EbcdicErrorV,
> {
    match length {
        None => Ok(total_size(l.records@[schema].fields@)),
        Some(n) => if n - l.prefix() < 0 || n - l.prefix() > usize::MAX {
            Err(EbcdicErrorV::ShortRecord { length: n, prefix: l.prefix() })
        } else {
            Ok(n - l.prefix())
        },
    }
}

/// The record whose body begins at `at`.
pub open spec fn body_at(
    l: Layout,
    c: Codec,
    data: Seq<u8>,
    at: int,
    end: int,
    schema: int,
    length: Option<int>,
) -> Result<RecordV, EbcdicErrorV> {
    match body_size(l, schema, length) {
        Err(e) => Err(e),
        Ok(size) => match chunk(data, at, size, end, l.records@[schema].name@) {
            Err(e) => Err(e),
            Ok(body) => match record_values(l.records@[schema].fields@, body, c, 0, 0, seq![]) {
                Err(e) => Err(e),
                Ok(values) => Ok(RecordV { schema, values, next: at + size }),
            },
        },
    }
}

/// The record at `offset`.
pub open spec fn record_at(
    l: Layout,
    c: Codec,
    data: Seq<u8>,
    offset: int,
    end: int,
) -> Result<RecordV, EbcdicErrorV> {
    match length_at(l, c, data, offset, end) {
        Err(e) => Err(e),
        Ok(length) => {
            let at = offset + opt_size(l.record_length_field);
            match type_at(l, c, data, at, end) {
                Err(e) => Err(e),
                Ok(record_type) => match schema_from(l, record_type, 0) {
                    None => Err(EbcdicErrorV::NoSchema { record_type }),
                    Some(schema) => body_at(
                        l,
                        c,
                        data,
                        at + opt_size(l.record_type_field),
                        end,
                        schema,
                        length,
                    ),
                },
            }
        },
    }
}

proof fn schema_in_range(l: Layout, record_type: Option<Seq<char>>, k: int)
    requires
        0 <= k,
    ensures
        schema_from(l, record_type, k) matches Some(i) ==> k <= i < l.records@.len(),
    decreases l.records@.len() - k,
{
    if k < l.records@.len() {
        schema_in_range(l, record_type, k + 1);
    }
}

/// A record of a valid layout takes at least one byte.
proof fn record_advances(l: Layout, c: Codec, data: Seq<u8>, offset: int, end: int)
    requires
        layout_error(l) is None,
    ensures
        record_at(l, c, data, offset, end) matches Ok(r) ==> offset < r.next <= end && 0
            <= r.schema < l.records@.len(),
{
    match record_at(l, c, data, offset, end) {
        Ok(r) => {
            let at = offset + opt_size(l.record_length_field);
            let record_type = type_at(l, c, data, at, end)->Ok_0;
            schema_in_range(l, record_type, 0);
            total_size_bounds(l.records@[r.schema].fields@);
        },
        Err(_) => {},
    }
}

#[verifier::spinoff_prover]
fn read_record(l: &Layout, c: Codec, data: &[u8], offset: usize, end: usize) -> (r: Result<
    Record,
    EbcdicError,
>)
    requires
        offset < end <= data@.len(),
        data@.len() < 0x4000_0000_0000_0000,
    ensures
        match record_at(*l, c, data@, offset as int, end as int) {
            Ok(v) => r matches Ok(x) && x@ == v,
            Err(e) => r matches Err(x) && x@ == e,
        },
{
    let mut at: usize = offset;
    let mut length: Option<i128> = None;
    match &l.record_length_field {
        Some(f) => {
            match take(data, at, f.size as u128, end, f.name.as_str()) {
                Ok(d) => match decode_int_like(d, f, c) {
                    Ok(n) => {
                        length = Some(n);
                    },
                    Err(e) => {
                        return Err(e);
                    },
                },
                Err(e) => {
                    return Err(e);
                },
            }
            at = at + f.size;
        },
        None => {},
    }
    let mut record_type: Option<String> = None;
    match &l.record_type_field {
        Some(f) => {
            match take(data, at, f.size as u128, end, f.name.as_str()) {
                Ok(d) => match decode_value(d, f, c) {
                    Ok(s) => {
                        record_type = Some(s);
                    },
                    Err(e) => {
                        return Err(e);
                    },
                },
                Err(e) => {
                    return Err(e);
                },
            }
            at = at + f.size;
        },
        None => {},
    }
    let schema: usize = match find_schema(l, &record_type) {
        Some(k) => k,
        None => {
            return Err(EbcdicError::NoSchema { record_type });
        },
    };
    let record = &l.records[schema];
    let size: u128 = match length {
        None => add_sizes(&record.fields),
        Some(n) => {
            let prefix = l.prefix_size();
            if n < 0 || (n as u128) < prefix || n as u128 - prefix > usize::MAX as u128 {
                return Err(EbcdicError::ShortRecord { length: n, prefix });
            }
            n as u128 - prefix
        },
    };
    let body = match take(data, at, size, end, record.name.as_str()) {
        Ok(body) => body,
        Err(e) => {
            return Err(e);
        },
    };
    match read_values(&record.fields, body, c) {
        Ok(values) => Ok(Record { schema, values, next: at + size as usize }),
        Err(e) => Err(e),
    }
}

/// The rows of all schemas, a bucket per schema.
pub type Buckets = Seq<Seq<Seq<Seq<char>>>>;

/// The rows with the records from `offset` on added to the buckets.
pub open spec fn records_from(
    l: Layout,
    c: Codec,
    data: Seq<u8>,
    offset: int,
    end: int,
    rows: Buckets,
) -> Result<Buckets, EbcdicErrorV>
    decreases end - offset,
{
    if offset >= end {
        Ok(rows)
    } else {
        match record_at(l, c, data, offset, end) {
            Err(e) => Err(e),
            Ok(r) => if r.next <= offset {
                Ok(rows)
            } else {
                records_from(
                    l,
                    c,
                    data,
                    r.next,
                    end,
                    rows.update(r.schema, rows[r.schema].push(r.values)),
                )
            },
        }
    }
}

/// The views of the buckets.
pub open spec fn buckets(v: Seq<Vec<Vec<String>>>) -> Buckets {
    Seq::new(v.len(), |i: int| grid(v[i]@))
}

/// One empty bucket per schema.
pub open spec fn no_rows(l: Layout) -> Buckets {
    Seq::new(l.records@.len(), |i: int| seq![])
}

fn read_records(l: &Layout, c: Codec, data: &[u8], end: usize) -> (r: Result<
    Vec<Vec<Vec<String>>>,
    EbcdicError,
>)
    requires
        layout_error(*l) is None,
        end <= data@.len(),
        data@.len() < 0x4000_0000_0000_0000,
    ensures
        match records_from(*l, c, data@, l.header_size as int, end as int, no_rows(*l)) {
            Ok(v) => r matches Ok(x) && buckets(x@) == v && x@.len() == l.records@.len(),
            Err(e) => r matches Err(x) && x@ == e,
        },
{
    let mut rows: Vec<Vec<Vec<String>>> = Vec::new();
    let n: usize = l.records.len();
    while rows.len() < n
        invariant
            rows@.len() <= n,
            forall|i: int| 0 <= i < rows@.len() ==> (#[trigger] rows@[i])@.len() == 0,
        decreases n - rows@.len(),
    {
        rows.push(Vec::new());
    }
    assert(buckets(rows@) =~= no_rows(*l)) by {
        assert forall|i: int| 0 <= i < n implies grid((#[trigger] rows@[i])@) =~= seq![] by {}
    }
    let mut offset: usize = l.header_size;
    while offset < end
        invariant
            layout_error(*l) is None,
            end <= data@.len(),
            data@.len() < 0x4000_0000_0000_0000,
            rows@.len() == l.records@.len(),
            records_from(*l, c, data@, l.header_size as int, end as int, no_rows(*l))
                == records_from(*l, c, data@, offset as int, end as int, buckets(rows@)),
        decreases
                if offset < end {
                    end - offset
                } else {
                    0
                },
    {
        proof {
            record_advances(*l, c, data@, offset as int, end as int);
        }
        match read_record(l, c, data, offset, end) {
            Err(e) => {
                return Err(e);
            },
            Ok(record) => {
                let k: usize = record.schema;
                let ghost before = rows@;
                let ghost values = record.values;
                rows[k].push(record.values);
                proof {
                    grid_push(before[k as int]@, values);
                    assert(rows@[k as int]@ == before[k as int]@.push(values));
                    assert(buckets(rows@) =~= buckets(before).update(
                        k as int,
                        buckets(before)[k as int].push(strs(values@)),
                    ));
                }
                offset = record.next;
            },
        }
    }
    Ok(rows)
}

// ------------------------------------------------------------ documents

/// The names of the shown fields from `k` on, added to `done`.
pub open spec fn header_from(fields: Seq<FieldDef>, k: int, done: Seq<Seq<char>>) -> Seq<Seq<char>>
    decreases fields.len() - k,
{
    if k >= fields.len() {
        done
    } else if fields[k].kind == FieldType::Skip {
        header_from(fields, k + 1, done)
    } else {
        header_from(fields, k + 1, done.push(fields[k].name@))
    }
}

proof fn values_follow_the_header(
    fields: Seq<FieldDef>,
    body: Seq<u8>,
    c: Codec,
    k: int,
    off: int,
    done: Seq<Seq<char>>,
    head: Seq<Seq<char>>,
)
    requires
        done.len() == head.len(),
    ensures
        record_values(fields, body, c, k, off, done) matches Ok(v) ==> v.len() == header_from(
            fields,
            k,
            head,
        ).len(),
    decreases fields.len() - k,
{
    if k < fields.len() {
        let next = off + fields[k].size;
        if fields[k].kind == FieldType::Skip {
            values_follow_the_header(fields, body, c, k + 1, next, done, head);
        } else {
            match value_or(field_bytes(body, off, fields[k].size as int), fields[k], c) {
                Ok(v) => {
                    values_follow_the_header(
                        fields,
                        body,
                        c,
                        k + 1,
                        next,
                        done.push(v),
                        head.push(fields[k].name@),
                    );
                },
                Err(_) => {},
            }
        }
    }
}

/// A record shows one value for each name of the header: what is skipped shows
/// in neither.
pub proof fn each_record_fits_the_header(fields: Seq<FieldDef>, body: Seq<u8>, c: Codec)
    ensures
        record_values(fields, body, c, 0, 0, seq![]) matches Ok(v) ==> v.len() == header_from(
            fields,
            0,
            seq![],
        ).len(),
{
    values_follow_the_header(fields, body, c, 0, 0, seq![], seq![]);
}

/// In a layout that can be used, a record type belongs to one schema.
pub proof fn a_record_type_has_one_schema(l: Layout, i: int, j: int)
    requires
        layout_error(l) is None,
        l.record_type_field is Some,
        0 <= i < l.records@.len(),
        0 <= j < l.records@.len(),
        opt(l.records@[i].selector) == opt(l.records@[j].selector),
    ensures
        i == j,
{
}

fn header_of(fields: &Vec<FieldDef>) -> (r: Vec<String>)
    ensures
        strs(r@) == header_from(fields@, 0, seq![]),
{
    let mut out: Vec<String> = Vec::new();
    let mut k: usize = 0;
    assert(strs(out@) =~= seq![]);
    while k < fields.len()
        invariant
            k <= fields@.len(),
            header_from(fields@, 0, seq![]) == header_from(fields@, k as int, strs(out@)),
        decreases fields@.len() - k,
    {
        if fields[k].kind != FieldType::Skip {
            proof {
                strs_push(out@, fields@[k as int].name);
            }
            out.push(fields[k].name.clone());
        }
        k += 1;
    }
    out
}

/// The nodes of one schema: nothing without rows; a heading with the record
/// name where there are several schemas, and the table under its header row.
pub open spec fn schema_nodes(l: Layout, k: int, rows: Seq<Seq<Seq<char>>>) -> Seq<NodeV> {
    if rows.len() == 0 {
        seq![]
    } else {
        (if l.records@.len() > 1 {
            seq![NodeV::Heading { level: 2, text: l.records@[k].name@ }]
        } else {
            seq![]
        }).push(
            NodeV::Table(
                plain_table_view(
                    seq![header_from(l.records@[k].fields@, 0, seq![])] + rows,
                ),
            ),
        )
    }
}

/// The nodes of the schemas from `k` on, added to `done`.
pub open spec fn nodes_from(l: Layout, rows: Buckets, k: int, done: Seq<NodeV>) -> Seq<NodeV>
    decreases l.records@.len() - k,
{
    if k >= l.records@.len() {
        done
    } else {
        nodes_from(l, rows, k + 1, done + schema_nodes(l, k, rows[k]))
    }
}

/// What a file shows under a layout: the description, then the tables.
pub open spec fn document(l: Layout, data: Seq<u8>) -> Result<Seq<NodeV>, EbcdicErrorV> {
    let end = if data.len() > l.footer_size {
        data.len() - l.footer_size
    } else {
        0
    };
    match (layout_error(l), codec(l.encoding@)) {
        (Some(e), _) => Err(EbcdicErrorV::Layout(e)),
        (None, None) => Err(EbcdicErrorV::Codec(l.encoding@)),
        (None, Some(c)) => match records_from(
            l,
            c,
            data,
            l.header_size as int,
            end,
            no_rows(l),
        ) {
            Err(e) => Err(e),
            Ok(rows) => Ok(
                nodes_from(
                    l,
                    rows,
                    0,
                    if l.description@.len() == 0 {
                        seq![]
                    } else {
                        seq![NodeV::Paragraph { text: l.description@ }]
                    },
                ),
            ),
        },
    }
}

/// Where the copybook layout of a source comes from.
#[derive(Debug, PartialEq, Eq)]
pub enum LayoutSource {
    /// The layout itself, as JSON text.
    Inline(String),
    /// A file that holds it.
    Path(String),
    /// The `<stem>.layout.json` file next to the source.
    Sidecar,
}

/// The EBCDIC backend with its layout option: inline JSON, or a path.
pub struct EbcdicBackend {
    pub layout: Option<String>,
}

impl EbcdicBackend {
    /// Where the layout comes from: an option that begins with a brace is
    /// the layout itself, any other option a path, and without an option the
    /// file next to the source is meant.
    pub fn layout_source(&self) -> (r: LayoutSource)
        ensures
            match self.layout {
                None => r == LayoutSource::Sidecar,
                Some(s) => if has_prefix(lstrip(s@), seq!['{']) {
                    r matches LayoutSource::Inline(t) && t@ == s@
                } else {
                    r matches LayoutSource::Path(t) && t@ == s@
                },
            },
    {
        match &self.layout {
            None => LayoutSource::Sidecar,
            Some(s) => {
                let t = trim_start(&chars_of(s.as_str()));
                proof {
                    let p = lstrip(s@);
                    if p.len() >= 1 {
                        assert(p.take(1) =~= seq![p[0]]);
                        assert(seq!['{'][0] == '{');
                    }
                }
                if t.len() > 0 && t[0] == '{' {
                    LayoutSource::Inline(s.clone())
                } else {
                    LayoutSource::Path(s.clone())
                }
            },
        }
    }

    /// Reads data under a layout.
    pub fn convert(&self, layout: &Layout, data: &[u8]) -> (r: Result<Vec<Node>, EbcdicError>)
        requires
            data@.len() < 0x4000_0000_0000_0000,
        ensures
            match document(*layout, data@) {
                Ok(nodes) => r matches Ok(x) && nodes_view(x@) == nodes,
                Err(e) => r matches Err(x) && x@ == e,
            },
    {
        match layout.validate() {
            Ok(()) => {},
            Err(e) => {
                return Err(EbcdicError::Layout(e));
            },
        }
        let c = match layout.decode_table() {
            Some(c) => c,
            None => {
                return Err(EbcdicError::Codec(layout.encoding.clone()));
            },
        };
        let end: usize = if data.len() > layout.footer_size {
            data.len() - layout.footer_size
        } else {
            0
        };
        let mut rows = match read_records(layout, c, data, end) {
            Ok(rows) => rows,
            Err(e) => {
                return Err(e);
            },
        };
        let ghost all = buckets(rows@);
        let mut nodes: Vec<Node> = Vec::new();
        assert(nodes_view(nodes@) =~= seq![]);
        if !layout.description.as_str().is_empty() {
            let node = Node::Paragraph { text: layout.description.clone() };
            proof {
                nodes_view_push(nodes@, node);
                assert(nodes_view(nodes@).push(node_view(node)) =~= seq![node_view(node)]);
            }
            nodes.push(node);
        }
        let ghost first = nodes_view(nodes@);
        let n: usize = layout.records.len();
        let mut k: usize = 0;
        while k < n
            invariant
                k <= n == layout.records@.len(),
                rows@.len() == n,
                all.len() == n,
                forall|i: int| k <= i < n ==> grid((#[trigger] rows@[i])@) == all[i],
                nodes_from(*layout, all, 0, first) == nodes_from(
                    *layout,
                    all,
                    k as int,
                    nodes_view(nodes@),
                ),
            decreases n - k,
        {
            let ghost before = nodes_view(nodes@);
            let record = &layout.records[k];
            let mut bucket: Vec<Vec<String>> = Vec::new();
            let ghost stored = rows@[k as int];
            std::mem::swap(&mut bucket, &mut rows[k]);
            assert(grid(stored@) == all[k as int]);
            if bucket.len() > 0 {
                if n > 1 {
                    let node = Node::Heading { level: 2, text: record.name.clone() };
                    proof {
                        nodes_view_push(nodes@, node);
                    }
                    nodes.push(node);
                }
                let mut lines: Vec<Vec<String>> = Vec::new();
                let header = header_of(&record.fields);
                lines.push(header);
                let ghost body = bucket@;
                let ghost head = lines@;
                lines.append(&mut bucket);
                proof {
                    assert(grid(lines@) =~= seq![strs(header@)] + grid(body)) by {
                        assert(lines@ == head + body);
                    }
                }
                let node = Node::Table(plain_table(lines));
                proof {
                    nodes_view_push(nodes@, node);
                }
                nodes.push(node);
                assert(nodes_view(nodes@) =~= before + schema_nodes(
                    *layout,
                    k as int,
                    all[k as int],
                ));
            } else {
                assert(all[k as int].len() == 0);
                assert(before + schema_nodes(*layout, k as int, all[k as int]) =~= before);
            }
            k += 1;
        }
        Ok(nodes)
    }
}

} // verus!
