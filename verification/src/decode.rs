//! The encoding of an HTML document.
//!
//! A byte-order mark wins; else the encoding that the document declares; else
//! UTF-8; else windows-1252. Each is taken only where it decodes without an
//! error.

use crate::codepage::cp1252;
use crate::text::{chars_of, lowered, string_of, strip, to_lower, trim};
use vstd::prelude::*;
use vstd::utf8::{decode_utf8, valid_utf8};

verus! {

/// The text of bytes in the encoding that a label names: none where the label
/// names no encoding, or the bytes are not valid in it.
pub uninterp spec fn decoded_as(label: Seq<char>, bytes: Seq<u8>) -> Option<Seq<char>>;

/// Calls `encoding_rs::Encoding::for_label`, and on the encoding it finds
/// `decode_without_bom_handling_and_without_replacement`. What is claimed is
/// that the result depends on the label and the bytes alone; that `utf-8` is
/// UTF-8, without replacing what is not valid; and that `windows-1252` gives
/// every byte its character.
#[verifier::external_body]
pub(crate) fn decode_label(label: &str, bytes: &[u8]) -> (r: Option<String>)
    ensures
        crate::document::opt(r) == decoded_as(label@, bytes@),
        label@ == "utf-8"@ ==> crate::document::opt(r) == utf8_text(bytes@),
        label@ == "windows-1252"@ ==> crate::document::opt(r) == Some(western(bytes@)),
{
    let encoding = encoding_rs::Encoding::for_label(label.as_bytes())?;
    encoding.decode_without_bom_handling_and_without_replacement(bytes).map(|t| t.into_owned())
}

/// The text that bytes encode, where they are valid UTF-8.
pub open spec fn utf8_text(bytes: Seq<u8>) -> Option<Seq<char>> {
    if valid_utf8(bytes) {
        Some(decode_utf8(bytes))
    } else {
        None
    }
}

/// The characters of Windows-1252 bytes.
pub open spec fn western(bytes: Seq<u8>) -> Seq<char> {
    Seq::new(bytes.len(), |i: int| cp1252(bytes[i]))
}

/// The first group of the first match of a pattern in bytes.
pub uninterp spec fn captured(pattern: Seq<char>, bytes: Seq<u8>) -> Option<Seq<u8>>;

/// View of optional bytes.
pub open spec fn opt_bytes(o: Option<Vec<u8>>) -> Option<Seq<u8>> {
    match o {
        Some(v) => Some(v@),
        None => None,
    }
}

/// Calls `regex::bytes::Regex::new` and `captures`, and copies the first
/// group. What is claimed is that the result depends on the pattern and the
/// bytes alone. None where the pattern is not valid, matches nowhere, or its
/// first group takes no part in the match.
#[verifier::external_body]
fn capture(pattern: &str, bytes: &[u8]) -> (r: Option<Vec<u8>>)
    ensures
        opt_bytes(r) == captured(pattern@, bytes@),
{
    let found = regex::bytes::Regex::new(pattern).ok()?;
    found.captures(bytes)?.get(1).map(|m| m.as_bytes().to_vec())
}

/// Bytes as UTF-8, with a replacement character for each part that is not
/// valid.
pub uninterp spec fn lossy(bytes: Seq<u8>) -> Seq<char>;

/// Calls `String::from_utf8_lossy`. What is claimed is that the text depends
/// on the bytes alone, and that valid UTF-8 is the text that it encodes.
#[verifier::external_body]
pub(crate) fn to_lossy(bytes: &[u8]) -> (r: String)
    ensures
        r@ == lossy(bytes@),
        valid_utf8(bytes@) ==> r@ == decode_utf8(bytes@),
{
    String::from_utf8_lossy(bytes).into_owned()
}

/// The pattern of an XML declaration's encoding.
pub open spec fn xml_pattern() -> Seq<char> {
    "(?i)^\\s*<\\?.*encoding=['\"](.*?)['\"].*\\?>"@
}

/// The pattern of a character set in a `meta` element.
pub open spec fn meta_pattern() -> Seq<char> {
    "(?i)<\\s*meta[^>]+charset\\s*=\\s*[\"']?([^>]*?)[ /;'\">]"@
}

/// How much of a document is searched for an XML declaration.
pub open spec fn xml_window(n: int) -> int {
    if n < 1024 {
        n
    } else {
        1024
    }
}

/// How much of a document is searched for a `meta` element: its first 2048
/// bytes, or its first twentieth where that is more.
pub open spec fn meta_window(n: int) -> int {
    let most = if n / 20 > 2048 {
        n / 20
    } else {
        2048
    };
    if n < most {
        n
    } else {
        most
    }
}

/// The encoding that a document declares.
pub open spec fn declared(bytes: Seq<u8>) -> Option<Seq<char>> {
    let n = bytes.len() as int;
    let found = match captured(xml_pattern(), bytes.take(xml_window(n))) {
        Some(x) => Some(x),
        None => captured(meta_pattern(), bytes.take(meta_window(n))),
    };
    match found {
        Some(x) => label_of(lossy(x)),
        None => None,
    }
}

/// A declared label without the white space around it, in lower case; a blank
/// one is none.
pub open spec fn label_of(text: Seq<char>) -> Option<Seq<char>> {
    if strip(text).len() == 0 {
        None
    } else {
        Some(lowered(strip(text)))
    }
}

/// A declared label without the white space around it, in lower case.
pub fn tidy_label(text: &str) -> (r: Option<String>)
    ensures
        crate::document::opt(r) == label_of(text@),
{
    let t = trim(&chars_of(text));
    if t.len() == 0 {
        None
    } else {
        Some(string_of(&to_lower(&t)))
    }
}

/// The encoding that a document declares.
pub fn declared_encoding(bytes: &[u8]) -> (r: Option<String>)
    ensures
        crate::document::opt(r) == declared(bytes@),
{
    let n = bytes.len();
    let xml_end: usize = if n < 1024 {
        n
    } else {
        1024
    };
    let most: usize = if n / 20 > 2048 {
        n / 20
    } else {
        2048
    };
    let meta_end: usize = if n < most {
        n
    } else {
        most
    };
    let a = crate::bytes::part(bytes, 0, xml_end);
    let b = crate::bytes::part(bytes, 0, meta_end);
    assert(a@ =~= bytes@.take(xml_window(n as int)));
    assert(b@ =~= bytes@.take(meta_window(n as int)));
    let first = capture("(?i)^\\s*<\\?.*encoding=['\"](.*?)['\"].*\\?>", a);
    let found = match first {
        Some(x) => Some(x),
        None => capture("(?i)<\\s*meta[^>]+charset\\s*=\\s*[\"']?([^>]*?)[ /;'\">]", b),
    };
    match found {
        Some(x) => tidy_label(to_lossy(x.as_slice()).as_str()),
        None => None,
    }
}

/// The byte-order mark of a document: the encoding it names and its length.
pub open spec fn mark_of(b: Seq<u8>) -> Option<(Seq<char>, int)> {
    if b.len() >= 3 && b[0] == 0xef && b[1] == 0xbb && b[2] == 0xbf {
        Some(("utf-8"@, 3))
    } else if b.len() >= 2 && b[0] == 0xff && b[1] == 0xfe {
        Some(("utf-16le"@, 2))
    } else if b.len() >= 2 && b[0] == 0xfe && b[1] == 0xff {
        Some(("utf-16be"@, 2))
    } else {
        None
    }
}

/// The text of a document by its byte-order mark.
pub open spec fn by_mark(bytes: Seq<u8>) -> Option<Seq<char>> {
    match mark_of(bytes) {
        Some(m) => decoded_as(m.0, bytes.skip(m.1)),
        None => None,
    }
}

/// The text of a document by its declaration.
pub open spec fn by_declaration(bytes: Seq<u8>) -> Option<Seq<char>> {
    match declared(bytes) {
        Some(label) => decoded_as(label, bytes),
        None => None,
    }
}

/// The text of bytes that say nothing of their encoding: UTF-8 where they are
/// valid, else Windows-1252.
pub open spec fn undeclared_text(bytes: Seq<u8>) -> Seq<char> {
    match utf8_text(bytes) {
        Some(t) => t,
        None => western(bytes),
    }
}

/// The text of an HTML document.
pub open spec fn html_text(bytes: Seq<u8>) -> Seq<char> {
    match by_mark(bytes) {
        Some(t) => t,
        None => match by_declaration(bytes) {
            Some(t) => t,
            None => match decoded_as("utf-8"@, bytes) {
                Some(t) => t,
                None => match decoded_as("windows-1252"@, bytes) {
                    Some(t) => t,
                    None => seq![],
                },
            },
        },
    }
}

fn text_by_mark(bytes: &[u8]) -> (r: Option<String>)
    ensures
        crate::document::opt(r) == by_mark(bytes@),
{
    let n = bytes.len();
    if n >= 3 && bytes[0] == 0xef && bytes[1] == 0xbb && bytes[2] == 0xbf {
        let rest = crate::bytes::part(bytes, 3, n);
        assert(rest@ =~= bytes@.skip(3));
        return decode_label("utf-8", rest);
    }
    if n >= 2 && bytes[0] == 0xff && bytes[1] == 0xfe {
        let rest = crate::bytes::part(bytes, 2, n);
        assert(rest@ =~= bytes@.skip(2));
        return decode_label("utf-16le", rest);
    }
    if n >= 2 && bytes[0] == 0xfe && bytes[1] == 0xff {
        let rest = crate::bytes::part(bytes, 2, n);
        assert(rest@ =~= bytes@.skip(2));
        return decode_label("utf-16be", rest);
    }
    None
}

/// The text of an HTML document.
pub fn decode_html_bytes(bytes: &[u8]) -> (r: String)
    ensures
        r@ == html_text(bytes@),
        by_mark(bytes@) is None && by_declaration(bytes@) is None ==> r@ == undeclared_text(bytes@),
{
    match text_by_mark(bytes) {
        Some(t) => {
            return t;
        },
        None => {},
    }
    match declared_encoding(bytes) {
        Some(label) => match decode_label(label.as_str(), bytes) {
            Some(t) => {
                return t;
            },
            None => {},
        },
        None => {},
    }
    match decode_label("utf-8", bytes) {
        Some(t) => {
            return t;
        },
        None => {},
    }
    match decode_label("windows-1252", bytes) {
        Some(t) => t,
        None => string_of(&Vec::new()),
    }
}

} // verus!
