//! Single-byte code pages.

use vstd::prelude::*;

verus! {

/// Code page 437, the bytes from 0x80 on.
pub const CP437: &'static str = "ÇüéâäàåçêëèïîìÄÅÉæÆôöòûùÿÖÜ¢£¥₧ƒ\
    áíóúñÑªº¿⌐¬½¼¡«»░▒▓│┤╡╢╖╕╣║╗╝╜╛┐\
    └┴┬├─┼╞╟╚╔╩╦╠═╬╧╨╤╥╙╘╒╓╫╪┘┌█▄▌▐▀\
    αßΓπΣσµτΦΘΩδ∞φε∩≡±≥≤⌠⌡÷≈°∙·√ⁿ²■\u{a0}";

/// Windows-1252, the bytes from 0x80 to 0x9f. The five bytes that the code
/// page leaves open stand for the control characters of the same number.
pub const CP1252: &'static str = "€\u{81}‚ƒ„…†‡ˆ‰Š‹Œ\u{8d}Ž\u{8f}\u{90}‘’“”•–—˜™š›œ\u{9d}žŸ";

/// Code page 037.
pub const CP037: &'static str = "\u{0}\u{1}\u{2}\u{3}\u{9c}\u{9}\u{86}\u{7f}\u{97}\u{8d}\u{8e}\u{b}\u{c}\u{d}\u{e}\u{f}\u{10}\u{11}\u{12}\u{13}\u{9d}\u{85}\u{8}\u{87}\u{18}\u{19}\u{92}\u{8f}\u{1c}\u{1d}\u{1e}\u{1f}\
    \u{80}\u{81}\u{82}\u{83}\u{84}\u{a}\u{17}\u{1b}\u{88}\u{89}\u{8a}\u{8b}\u{8c}\u{5}\u{6}\u{7}\u{90}\u{91}\u{16}\u{93}\u{94}\u{95}\u{96}\u{4}\u{98}\u{99}\u{9a}\u{9b}\u{14}\u{15}\u{9e}\u{1a}\
    \u{20}\u{a0}âäàáãåçñ¢.<(+|&éêëèíîïìß!$*);¬\
    -/ÂÄÀÁÃÅÇÑ¦,%_>?øÉÊËÈÍÎÏÌ`:#@'=\"\
    Øabcdefghi«»ðýþ±°jklmnopqrªºæ¸Æ¤\
    µ~stuvwxyz¡¿ÐÝÞ®^£¥·©§¶¼½¾[]¯¨´×\
    {ABCDEFGHI\u{ad}ôöòóõ}JKLMNOPQR¹ûüùúÿ\
    \\÷STUVWXYZ²ÔÖÒÓÕ0123456789³ÛÜÙÚ\u{9f}";

/// The character of a table at a place; the replacement character behind its
/// end.
pub open spec fn entry(table: Seq<char>, i: int) -> char {
    if 0 <= i < table.len() {
        table[i]
    } else {
        '\u{fffd}'
    }
}

fn entry_of(table: &str, i: usize) -> (r: char)
    ensures
        r == entry(table@, i as int),
{
    if i < table.unicode_len() {
        table.get_char(i)
    } else {
        '\u{fffd}'
    }
}

/// The character of a code page 437 byte.
pub open spec fn cp437(b: u8) -> char {
    if b < 0x80 {
        b as char
    } else {
        entry(CP437@, b - 0x80)
    }
}

/// The character of a code page 437 byte.
pub fn decode_cp437(b: u8) -> (r: char)
    ensures
        r == cp437(b),
{
    if b < 0x80 {
        b as char
    } else {
        entry_of(CP437, (b - 0x80) as usize)
    }
}

/// The character of a Windows-1252 byte.
pub open spec fn cp1252(b: u8) -> char {
    if 0x80 <= b < 0xa0 {
        entry(CP1252@, b - 0x80)
    } else {
        b as char
    }
}

/// The character of a Windows-1252 byte.
pub fn decode_cp1252(b: u8) -> (r: char)
    ensures
        r == cp1252(b),
{
    if 0x80 <= b && b < 0xa0 {
        entry_of(CP1252, (b - 0x80) as usize)
    } else {
        b as char
    }
}

/// The character of a code page 037 byte.
pub open spec fn cp037(b: u8) -> char {
    entry(CP037@, b as int)
}

/// The character of a code page 037 byte.
pub fn decode_cp037(b: u8) -> (r: char)
    ensures
        r == cp037(b),
{
    entry_of(CP037, b as usize)
}

/// The character of a code page 500 byte: that of code page 037 but for seven
/// signs, which stand elsewhere.
pub open spec fn cp500(b: u8) -> char {
    if b == 0x4a {
        '['
    } else if b == 0x4f {
        '!'
    } else if b == 0x5a {
        ']'
    } else if b == 0x5f {
        '^'
    } else if b == 0xb0 {
        '\u{a2}'
    } else if b == 0xba {
        '\u{ac}'
    } else if b == 0xbb {
        '|'
    } else {
        cp037(b)
    }
}

/// The character of a code page 500 byte.
pub fn decode_cp500(b: u8) -> (r: char)
    ensures
        r == cp500(b),
{
    match b {
        0x4a => '[',
        0x4f => '!',
        0x5a => ']',
        0x5f => '^',
        0xb0 => '\u{a2}',
        0xba => '\u{ac}',
        0xbb => '|',
        _ => decode_cp037(b),
    }
}

/// The character of a code page 1140 byte: that of code page 037 with the euro
/// in place of the currency sign.
pub open spec fn cp1140(b: u8) -> char {
    if b == 0x9f {
        '\u{20ac}'
    } else {
        cp037(b)
    }
}

/// The character of a code page 1140 byte.
pub fn decode_cp1140(b: u8) -> (r: char)
    ensures
        r == cp1140(b),
{
    if b == 0x9f {
        '\u{20ac}'
    } else {
        decode_cp037(b)
    }
}

} // verus!
