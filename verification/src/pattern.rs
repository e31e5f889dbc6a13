//! Matching text against patterns.

use crate::document::opt;
use vstd::prelude::*;

verus! {

/// The first group of the first match of a pattern in a text.
pub uninterp spec fn captured_text(pattern: Seq<char>, text: Seq<char>) -> Option<Seq<char>>;

/// Calls `regex::Regex::new` and `captures`, and copies the first group. What
/// is claimed is that the result depends on the pattern and the text alone.
/// None where the pattern is not valid, matches nowhere, or its first group
/// takes no part in the match.
#[verifier::external_body]
pub(crate) fn capture_text(pattern: &str, text: &str) -> (r: Option<String>)
    ensures
        opt(r) == captured_text(pattern@, text@),
{
    let found = regex::Regex::new(pattern).ok()?;
    found.captures(text)?.get(1).map(|m| m.as_str().to_string())
}

/// The first two groups of every match of a pattern in a text.
pub uninterp spec fn captured_pairs(pattern: Seq<char>, text: Seq<char>) -> Seq<
    (Seq<char>, Seq<char>),
>;

/// View of pairs of texts.
pub open spec fn pairs_view(v: Seq<(String, String)>) -> Seq<(Seq<char>, Seq<char>)> {
    Seq::new(v.len(), |i: int| (v[i].0@, v[i].1@))
}

/// Calls `regex::Regex::new` and `captures_iter`, and copies the first two
/// groups of each match, an absent one as an empty text. What is claimed is
/// that the result depends on the pattern and the text alone. Nothing where
/// the pattern is not valid.
#[verifier::external_body]
pub(crate) fn capture_pairs(pattern: &str, text: &str) -> (r: Vec<(String, String)>)
    ensures
        pairs_view(r@) == captured_pairs(pattern@, text@),
{
    let group = |c: &regex::Captures, k: usize| c.get(k).map(|m| m.as_str()).unwrap_or("").to_string();
    match regex::Regex::new(pattern) {
        Ok(re) => re.captures_iter(text).map(|c| (group(&c, 1), group(&c, 2))).collect(),
        Err(_) => Vec::new(),
    }
}

/// A text with every match of a pattern replaced.
pub uninterp spec fn substituted(pattern: Seq<char>, text: Seq<char>, with: Seq<char>) -> Seq<char>;

/// Calls `regex::Regex::new` and `replace_all`, whose replacement may refer
/// to groups. What is claimed is that the result depends on the three
/// arguments alone, and that it is the text itself where the pattern matches
/// nowhere. The text itself, too, where the pattern is not valid.
#[verifier::external_body]
pub(crate) fn substitute(pattern: &str, text: &str, with: &str) -> (r: String)
    ensures
        r@ == substituted(pattern@, text@, with@),
        captured_pairs(pattern@, text@).len() == 0 ==> r@ == text@,
{
    match regex::Regex::new(pattern) {
        Ok(re) => re.replace_all(text, with).into_owned(),
        Err(_) => text.to_string(),
    }
}

} // verus!
