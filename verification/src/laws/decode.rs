//! Laws of bytes that become text: byte order marks, code pages and the order
//! in which encodings are tried.

use crate::codepage::{cp037, cp1140, cp1252, cp437, cp500};
use crate::decode::{
    by_declaration, by_mark, decoded_as, html_text, label_of, undeclared_text, western,
};
use crate::text::{lower_char, lowered, occurs_at, replaced, strip, swapped, swapped_from};
use vstd::prelude::*;
use vstd::utf8::{decode_utf8, valid_utf8};

verus! {

/// A byte order mark names the encoding, and the text begins behind it.
pub proof fn marks_name_the_encoding(b: Seq<u8>)
    ensures
        by_mark(seq![0xefu8, 0xbbu8, 0xbfu8] + b) == decoded_as("utf-8"@, b),
        by_mark(seq![0xffu8, 0xfeu8] + b) == decoded_as("utf-16le"@, b),
        by_mark(seq![0xfeu8, 0xffu8] + b) == decoded_as("utf-16be"@, b),
        b.len() > 0 && b[0] < 0x80 ==> by_mark(b) is None,
{
    assert((seq![0xefu8, 0xbbu8, 0xbfu8] + b).skip(3) =~= b);
    assert((seq![0xffu8, 0xfeu8] + b).skip(2) =~= b);
    assert((seq![0xfeu8, 0xffu8] + b).skip(2) =~= b);
}

/// A byte order mark goes before what a page declares, what it declares before
/// UTF-8, and UTF-8 before the western code page.
pub proof fn marks_go_before_declarations(b: Seq<u8>)
    ensures
        by_mark(b) is Some ==> html_text(b) == by_mark(b)->0,
        by_mark(b) is None && by_declaration(b) is Some ==> html_text(b) == by_declaration(b)->0,
        by_mark(b) is None && by_declaration(b) is None && decoded_as("utf-8"@, b) is Some
            ==> html_text(b) == decoded_as("utf-8"@, b)->0,
        by_mark(b) is None && by_declaration(b) is None && decoded_as("utf-8"@, b) is None
            && decoded_as("windows-1252"@, b) is Some ==> html_text(b) == decoded_as(
            "windows-1252"@,
            b,
        )->0,
        valid_utf8(b) ==> undeclared_text(b) == decode_utf8(b),
        !valid_utf8(b) ==> undeclared_text(b).len() == b.len(),
{
}

/// The name of an encoding is taken without the white space around it, in
/// lower case.
pub proof fn encodings_are_named_in_lower_case(s: Seq<char>)
    ensures
        strip(s).len() > 0 ==> label_of(s) == Some(lowered(strip(s))),
        strip(s).len() == 0 ==> label_of(s) is None,
{
}

/// A byte of the western code page is the character of the same number below
/// 128 and from 160 on; between stand the euro sign and typography.
pub proof fn western_bytes_are_latin(b: u8, s: Seq<u8>, i: int)
    requires
        0 <= i < s.len(),
    ensures
        b < 0x80 || b >= 0xa0 ==> cp1252(b) as int == b,
        cp1252(0x80) == '\u{20ac}',
        cp1252(0x85) == '\u{2026}',
        cp1252(0x91) == '\u{2018}',
        cp1252(0x92) == '\u{2019}',
        cp1252(0x93) == '\u{201c}',
        cp1252(0x94) == '\u{201d}',
        cp1252(0x96) == '\u{2013}',
        cp1252(0x97) == '\u{2014}',
        cp1252(0x99) == '\u{2122}',
        western(s).len() == s.len(),
        s[i] < 0x80 ==> western(s)[i] as int == s[i],
        s[i] >= 0xa0 ==> western(s)[i] as int == s[i],
{
    reveal_strlit(
        "€\u{81}‚ƒ„…†‡ˆ‰Š‹Œ\u{8d}Ž\u{8f}\u{90}‘’“”•–—˜™š›œ\u{9d}žŸ",
    );
}

/// A byte below 128 of the DOS code page is the character of the same number.
pub proof fn low_bytes_are_ascii(b: u8)
    ensures
        b < 0x80 ==> cp437(b) as int == b,
{
}

/// The EBCDIC digits and letters: ten digits from 0xf0 on, and the letters in
/// three runs, small ones from 0x81, 0x91 and 0xa2 on and capitals from 0xc1,
/// 0xd1 and 0xe2 on. The other two code pages have the same digits and
/// letters, and the newest one the euro sign.
pub proof fn ebcdic_digits_and_letters(k: u8)
    ensures
        k < 10 ==> cp037((0xf0 + k) as u8) as int == 0x30 + k,
        k < 9 ==> cp037((0xc1 + k) as u8) as int == 0x41 + k,
        k < 9 ==> cp037((0xd1 + k) as u8) as int == 0x4a + k,
        k < 8 ==> cp037((0xe2 + k) as u8) as int == 0x53 + k,
        k < 9 ==> cp037((0x81 + k) as u8) as int == 0x61 + k,
        k < 9 ==> cp037((0x91 + k) as u8) as int == 0x6a + k,
        k < 8 ==> cp037((0xa2 + k) as u8) as int == 0x73 + k,
        cp037(0x40) == ' ',
        cp037(0x4b) == '.',
        cp037(0x6b) == ',',
        cp037(0x60) == '-',
        cp037(0x61) == '/',
        k >= 0x81 && k != 0x9f && k != 0xb0 && k != 0xba && k != 0xbb ==> cp500(k) == cp037(k),
        k != 0x9f ==> cp1140(k) == cp037(k),
        cp1140(0x9f) == '\u{20ac}',
        cp500(0x4a) == '[',
        cp500(0x5a) == ']',
        cp500(0x4f) == '!',
        cp500(0xbb) == '|',
{
    reveal_strlit(
        "\u{0}\u{1}\u{2}\u{3}\u{9c}\u{9}\u{86}\u{7f}\u{97}\u{8d}\u{8e}\u{b}\u{c}\u{d}\u{e}\u{f}\u{10}\u{11}\u{12}\u{13}\u{9d}\u{85}\u{8}\u{87}\u{18}\u{19}\u{92}\u{8f}\u{1c}\u{1d}\u{1e}\u{1f}\
    \u{80}\u{81}\u{82}\u{83}\u{84}\u{a}\u{17}\u{1b}\u{88}\u{89}\u{8a}\u{8b}\u{8c}\u{5}\u{6}\u{7}\u{90}\u{91}\u{16}\u{93}\u{94}\u{95}\u{96}\u{4}\u{98}\u{99}\u{9a}\u{9b}\u{14}\u{15}\u{9e}\u{1a}\
    \u{20}\u{a0}âäàáãåçñ¢.<(+|&éêëèíîïìß!$*);¬\
    -/ÂÄÀÁÃÅÇÑ¦,%_>?øÉÊËÈÍÎÏÌ`:#@'=\"\
    Øabcdefghi«»ðýþ±°jklmnopqrªºæ¸Æ¤\
    µ~stuvwxyz¡¿ÐÝÞ®^£¥·©§¶¼½¾[]¯¨´×\
    {ABCDEFGHI\u{ad}ôöòóõ}JKLMNOPQR¹ûüùúÿ\
    \\÷STUVWXYZ²ÔÖÒÓÕ0123456789³ÛÜÙÚ\u{9f}",
    );
}

// ------------------------------------------------------------ characters

/// The capital letters from A to Z become the small ones from a to z; every
/// other character stays.
pub proof fn capitals_become_small(k: int, c: char)
    ensures
        0 <= k < 26 ==> lower_char((0x41 + k) as char) as int == 0x61 + k,
        (c as int) < 0x41 || (c as int) > 0x5a ==> lower_char(c) == c,
{
}

/// One character replaces another wherever that stands, and the rest stays.
pub proof fn characters_are_replaced(x: Seq<char>, y: Seq<char>, a: char, b: char, c: char)
    ensures
        replaced(x + y, a, b) == replaced(x, a, b) + replaced(y, a, b),
        replaced(seq![a], a, b) == seq![b],
        c != a ==> replaced(seq![c], a, b) == seq![c],
{
    assert(replaced(x + y, a, b) =~= replaced(x, a, b) + replaced(y, a, b));
    assert(replaced(seq![a], a, b) =~= seq![b]);
    if c != a {
        assert(replaced(seq![c], a, b) =~= seq![c]);
    }
}

proof fn swaps_move(s: Seq<char>, t: Seq<char>, i: int, from: Seq<char>, to: Seq<char>, a: Seq<char>, out: Seq<char>)
    requires
        0 <= i <= t.len(),
    ensures
        swapped_from(s + t, s.len() + i, from, to, a + out) == a + swapped_from(t, i, from, to, out),
    decreases t.len() - i,
{
    if i < t.len() {
        if i + from.len() <= t.len() {
            assert((s + t).subrange(s.len() + i, s.len() + i + from.len()) =~= t.subrange(
                i,
                i + from.len(),
            ));
        }
        assert((s + t)[s.len() + i] == t[i]);
        if from.len() > 0 && occurs_at(t, from, i) {
            assert((a + out) + to =~= a + (out + to));
            swaps_move(s, t, i + from.len(), from, to, a, out + to);
        } else {
            assert((a + out).push(t[i]) =~= a + out.push(t[i]));
            swaps_move(s, t, i + 1, from, to, a, out.push(t[i]));
        }
    }
}

/// Where a text begins with what is to be replaced, the replacement comes out
/// and the rest goes on; elsewhere its first character comes out.
pub proof fn texts_are_replaced(from: Seq<char>, to: Seq<char>, c: char, s: Seq<char>)
    requires
        from.len() > 0,
    ensures
        swapped(from + s, from, to) == to + swapped(s, from, to),
        !(from.is_prefix_of(seq![c] + s)) ==> swapped(seq![c] + s, from, to) == seq![c] + swapped(
            s,
            from,
            to,
        ),
        swapped(seq![], from, to) == Seq::<char>::empty(),
{
    assert((from + s).subrange(0, from.len() as int) =~= from);
    assert(Seq::<char>::empty() + to =~= to + seq![]);
    swaps_move(from, s, 0, from, to, to, seq![]);
    let t = seq![c] + s;
    if !(from.is_prefix_of(t)) {
        assert(!(occurs_at(t, from, 0)));
        assert(Seq::<char>::empty().push(c) =~= seq![c] + seq![]);
        swaps_move(seq![c], s, 0, from, to, seq![c], seq![]);
    }
}

} // verus!
