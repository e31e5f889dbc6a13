//! Laws of the values of Quattro Pro cells.

use crate::quattro::{
    cached_cell, dos_value, double_cell, has_string, integer_cell, label, label_char, pascal_label,
    string_cell, string_end, string_table, string_text, windows_value, zone_header, zone_len,
};
use crate::sheet::{CellV, Num};
use vstd::prelude::*;

verus! {

/// The number of eight bytes, the lowest one first.
pub open spec fn eight(a: Seq<u8>) -> int {
    a[0] + 256 * a[1] + 0x1_0000 * a[2] + 0x100_0000 * a[3] + 0x1_0000_0000 * a[4] + 0x100_0000_0000
        * a[5] + 0x1_0000_0000_0000 * a[6] + 0x100_0000_0000_0000 * a[7]
}

/// An integer cell has two bytes, the lower one first, and is negative from
/// 32768 on.
pub proof fn integers_have_two_bytes(a: u8, b: u8, rest: Seq<u8>)
    ensures
        b < 128 ==> integer_cell(seq![a, b] + rest) == Some(
            CellV::Number(Num::Int((a + 256 * b) as i64)),
        ),
        b >= 128 ==> integer_cell(seq![a, b] + rest) == Some(
            CellV::Number(Num::Int((a + 256 * b - 65536) as i64)),
        ),
        integer_cell(seq![a]) is None,
{
}

/// A number cell has the eight bytes of a double, the lowest one first.
pub proof fn doubles_have_eight_bytes(a: Seq<u8>, rest: Seq<u8>)
    requires
        a.len() == 8,
    ensures
        double_cell(a + rest) == Some(CellV::Number(Num::Double(eight(a) as u64))),
        double_cell(a.drop_last()) is None,
{
    let d = a + rest;
    assert(forall|i: int| 0 <= i < 8 ==> d[i] == a[i]);
}

/// A formula shows the number it was last computed to, `ERR` where that is
/// infinite, and nothing where it is none.
pub proof fn formulas_show_their_last_value(a: Seq<u8>, rest: Seq<u8>)
    requires
        a.len() == 8,
    ensures
        ({
            let n = eight(a);
            let exponent = n / 0x10_0000_0000_0000 % 2048;
            let fraction = n % 0x10_0000_0000_0000;
            &&& exponent < 2047 ==> cached_cell(a + rest) == Some(
                CellV::Number(Num::Double(n as u64)),
            )
            &&& exponent == 2047 && fraction == 0 ==> cached_cell(a + rest) == Some(
                CellV::Text("ERR"@),
            )
            &&& exponent == 2047 && fraction > 0 ==> cached_cell(a + rest) is None
        }),
{
    let d = a + rest;
    assert(forall|i: int| 0 <= i < 8 ==> d[i] == a[i]);
    let n = eight(a);
    let low = n % 0x8000_0000_0000_0000;
    assert(n / 0x10_0000_0000_0000 % 2048 == low / 0x10_0000_0000_0000);
    assert(n % 0x10_0000_0000_0000 == low % 0x10_0000_0000_0000);
}

/// The code of a record says what its cell is: 13 an integer, 14 a number, 15
/// a label behind one byte of alignment, 16 a formula.
pub proof fn codes_say_the_kind_of_cell(d: Seq<u8>, c: u8)
    ensures
        dos_value(13, d) == integer_cell(d),
        dos_value(14, d) == double_cell(d),
        dos_value(15, seq![c] + d) == Some(CellV::Text(pascal_label(d, true))),
        dos_value(16, d) == cached_cell(d),
        dos_value(51, d) == Some(CellV::Text(pascal_label(d, true))),
        windows_value(13, d) == integer_cell(d),
        windows_value(14, d) == double_cell(d),
        windows_value(15, seq![c] + d) == Some(CellV::Text(label(d, false))),
        windows_value(16, d) == cached_cell(d),
        windows_value(51, seq![c] + d) == Some(CellV::Text(label(d, false))),
        dos_value(12, d) is None,
        windows_value(12, d) is None,
{
    assert((seq![c] + d).skip(1) =~= d);
}

/// In a label tabs and carriage returns are spaces, and other control
/// characters are left out.
pub proof fn labels_hold_no_control_characters(b: u8, dos: bool)
    ensures
        label_char(9, dos) == Some(' '),
        label_char(13, dos) == Some(' '),
        b < 32 && b != 9 && b != 13 ==> label_char(b, dos) is None,
        32 <= b < 128 ==> label_char(b, dos) == Some(b as char),
{
}

/// Texts are numbered from one.
pub proof fn texts_are_numbered_from_one(v: Seq<Seq<char>>, s: Seq<char>, n: int)
    ensures
        string_cell(seq![s] + v, 1) == Some(CellV::Text(s)),
        string_cell(v, 0) is None,
        n > v.len() ==> string_cell(v, n) is None,
        1 <= n <= v.len() ==> string_cell(seq![s] + v, n + 1) == string_cell(v, n),
{
}

/// A text has its length in two bytes before it and a byte of flags; the next
/// one stands right behind it, unless a flag says that more follows, whose
/// length stands there.
pub proof fn texts_stand_behind_each_other(
    a: u8,
    b: u8,
    flags: u8,
    s: Seq<u8>,
    rest: Seq<u8>,
    n: int,
    done: Seq<Seq<char>>,
)
    requires
        s.len() == a + 256 * b,
        n > 0,
    ensures
        ({
            let d = seq![a, b, flags] + s + rest;
            let end = 3 + s.len() as int;
            &&& flags / 2 % 2 == 0 ==> has_string(d, 0) && string_text(d, 0) == label(s, false)
                && string_end(d, 0) == end && string_table(d, 0, n, done) == string_table(
                d,
                end,
                n - 1,
                done + seq![label(s, false)],
            )
            &&& flags / 2 % 2 == 1 && rest.len() >= 2 && rest[0] + 256 * rest[1] >= 6
                ==> string_end(d, 0) == end + rest[0] + 256 * rest[1]
        }),
        string_table(s, 0, 0, done) == done,
{
    let d = seq![a, b, flags] + s + rest;
    let end = 3 + s.len() as int;
    assert(d[0] == a && d[1] == b && d[2] == flags);
    assert(d.subrange(3, end) =~= s);
    if rest.len() >= 2 {
        assert(d[end] == rest[0] && d[end + 1] == rest[1]);
    }
    let t = label(s, false);
    assert(done.push(t) =~= done + seq![t]);
}

/// A zone whose number has the highest bit set has a length of four bytes,
/// any other one a length of two.
pub proof fn zones_have_their_length_in_front(d: Seq<u8>, p: int)
    requires
        0 <= p,
        p + 6 <= d.len(),
    ensures
        d[p + 1] < 128 ==> zone_header(d, p) == 4 && zone_len(d, p) == d[p + 2] + 256 * d[p + 3],
        d[p + 1] >= 128 ==> zone_header(d, p) == 6 && zone_len(d, p) == d[p + 2] + 256 * d[p + 3]
            + 0x1_0000 * d[p + 4] + 0x100_0000 * d[p + 5],
{
}

} // verus!
