//! Laws of body text: how it is escaped, tidied, joined and trimmed.

use crate::html::normalized_url;
use crate::inline::{is_invisible, plain, tidied, tidied_from};
use crate::location::{host_end, host_end_is_first};
use crate::text::{escaped, escaped_char, has_prefix, joined, lstrip, number, strip, white};
use vstd::prelude::*;

verus! {

/// Escaping goes character by character.
pub proof fn escaping_goes_through(a: Seq<char>, b: Seq<char>)
    ensures
        escaped(a + b) == escaped(a) + escaped(b),
    decreases b.len(),
{
    if b.len() == 0 {
        assert(a + b =~= a);
        assert(escaped(a) + escaped(b) =~= escaped(a));
    } else {
        escaping_goes_through(a, b.drop_last());
        assert((a + b).drop_last() =~= a + b.drop_last());
        assert((a + b).last() == b.last());
        assert(escaped(a) + (escaped(b.drop_last()) + escaped_char(b.last())) =~= escaped(a)
            + escaped(b.drop_last()) + escaped_char(b.last()));
    }
}

/// An ampersand and the angle brackets are entities in Markdown, an
/// underscore has a backslash, and every other character stands for itself.
pub proof fn what_a_character_is_in_markdown(c: char)
    ensures
        escaped(seq!['&']) == "&amp;"@,
        escaped(seq!['<']) == "&lt;"@,
        escaped(seq!['>']) == "&gt;"@,
        escaped(seq!['_']) == seq!['\\', '_'],
        c != '&' && c != '<' && c != '>' && c != '_' ==> escaped(seq![c]) == seq![c],
{
    reveal_strlit("&amp;");
    reveal_strlit("&lt;");
    reveal_strlit("&gt;");
    reveal_with_fuel(escaped, 2);
    assert(seq!['&'].last() == '&' && seq!['<'].last() == '<' && seq!['>'].last() == '>');
    assert(seq!['_'].last() == '_' && seq![c].last() == c);
    assert(seq!['&'].drop_last() =~= seq![]);
    assert(seq!['<'].drop_last() =~= seq![]);
    assert(seq!['>'].drop_last() =~= seq![]);
    assert(seq!['_'].drop_last() =~= seq![]);
    assert(seq![c].drop_last() =~= seq![]);
    assert(escaped(seq!['&']) =~= "&amp;"@);
    assert(escaped(seq!['<']) =~= "&lt;"@);
    assert(escaped(seq!['>']) =~= "&gt;"@);
    assert(escaped(seq!['_']) =~= seq!['\\', '_']);
    assert(c != '&' && c != '<' && c != '>' && c != '_' ==> escaped(seq![c]) =~= seq![c]);
}

/// Whether a character of a page stays as it is.
pub open spec fn is_ordinary(c: char) -> bool {
    !white(c) && !is_invisible(c) && !('\u{2010}' <= c <= '\u{2015}') && c != '\u{2018}' && c
        != '\u{2019}' && c != '\u{201c}' && c != '\u{201d}' && c != '\u{2026}'
}

/// Whether all characters of a text stay as they are.
pub open spec fn is_ordinary_text(s: Seq<char>) -> bool {
    s.len() > 0 && forall|i: int| 0 <= i < s.len() ==> is_ordinary(#[trigger] s[i])
}

proof fn ordinary_texts_stay(s: Seq<char>, i: int, n: int, gap: bool, out: Seq<char>)
    requires
        0 <= i < n <= s.len(),
        forall|k: int| i <= k < n ==> is_ordinary(#[trigger] s[k]),
    ensures
        tidied_from(s, i, gap, out) == tidied_from(
            s,
            n,
            false,
            (if gap {
                out.push(' ')
            } else {
                out
            }) + s.subrange(i, n),
        ),
    decreases n - i,
{
    let now = if gap {
        out.push(' ')
    } else {
        out
    };
    assert(is_ordinary(s[i]));
    assert(now + plain(s[i]) =~= now.push(s[i]));
    if i + 1 < n {
        ordinary_texts_stay(s, i + 1, n, false, now.push(s[i]));
        assert(now.push(s[i]) + s.subrange(i + 1, n) =~= now + s.subrange(i, n));
    } else {
        assert(now + s.subrange(i, n) =~= now.push(s[i]));
    }
}

/// Tidying keeps ordinary words, and white space of any kind and length
/// between two of them is one space.
pub proof fn tidying_keeps_words(a: Seq<char>, gap: Seq<char>, b: Seq<char>)
    requires
        is_ordinary_text(a),
        is_ordinary_text(b),
        gap.len() > 0,
        forall|i: int| 0 <= i < gap.len() ==> white(#[trigger] gap[i]) && !is_invisible(gap[i]),
    ensures
        tidied(a) == a,
        tidied(a + gap + b) == a + seq![' '] + b,
        tidied(gap + a + gap) == a,
{
    ordinary_texts_stay(a, 0, a.len() as int, false, seq![]);
    assert(Seq::<char>::empty() + a.subrange(0, a.len() as int) =~= a);
    let s = a + gap + b;
    let m = a.len() as int;
    let n = (a.len() + gap.len()) as int;
    assert forall|k: int| 0 <= k < m implies is_ordinary(#[trigger] s[k]) by {
        assert(s[k] == a[k]);
    }
    ordinary_texts_stay(s, 0, m, false, seq![]);
    assert(Seq::<char>::empty() + s.subrange(0, m) =~= a);
    assert forall|k: int| m <= k < n implies white(#[trigger] s[k]) && !is_invisible(s[k]) by {
        assert(s[k] == gap[k - m]);
    }
    gaps_close(s, m, n, false, a);
    assert forall|k: int| n <= k < s.len() implies is_ordinary(#[trigger] s[k]) by {
        assert(s[k] == b[k - n]);
    }
    ordinary_texts_stay(s, n, s.len() as int, true, a);
    assert(a.push(' ') + s.subrange(n, s.len() as int) =~= a + seq![' '] + b);
    let t = gap + a + gap;
    let g = gap.len() as int;
    assert forall|k: int| 0 <= k < g implies white(#[trigger] t[k]) && !is_invisible(t[k]) by {
        assert(t[k] == gap[k]);
    }
    gaps_close(t, 0, g, false, seq![]);
    assert forall|k: int| g <= k < g + m implies is_ordinary(#[trigger] t[k]) by {
        assert(t[k] == a[k - g]);
    }
    ordinary_texts_stay(t, g, g + m, false, seq![]);
    assert(Seq::<char>::empty() + t.subrange(g, g + m) =~= a);
    assert forall|k: int| g + m <= k < t.len() implies white(#[trigger] t[k]) && !is_invisible(
        t[k],
    ) by {
        assert(t[k] == gap[k - g - m]);
    }
    gaps_close(t, g + m, t.len() as int, false, a);
}

proof fn gaps_close(s: Seq<char>, i: int, n: int, gap: bool, out: Seq<char>)
    requires
        0 <= i < n <= s.len(),
        forall|k: int| i <= k < n ==> white(#[trigger] s[k]) && !is_invisible(s[k]),
    ensures
        tidied_from(s, i, gap, out) == tidied_from(s, n, out.len() > 0, out),
    decreases n - i,
{
    assert(white(s[i]));
    if i + 1 < n {
        gaps_close(s, i + 1, n, out.len() > 0, out);
    }
}

/// Dashes of any width are hyphens, curly quotes are straight, an ellipsis is
/// three dots, and what has no width is gone.
pub proof fn typography_is_plain(c: char)
    ensures
        '\u{2010}' <= c <= '\u{2015}' ==> tidied(seq![c]) == seq!['-'],
        c == '\u{2018}' || c == '\u{2019}' ==> tidied(seq![c]) == seq!['\''],
        c == '\u{201c}' || c == '\u{201d}' ==> tidied(seq![c]) == seq!['"'],
        c == '\u{2026}' ==> tidied(seq![c]) == seq!['.', '.', '.'],
        c == '\u{200b}' || c == '\u{ad}' || c == '\u{feff}' ==> tidied(seq![c]).len() == 0,
{
    reveal_with_fuel(tidied_from, 2);
    assert(seq![c][0] == c);
    assert('\u{2010}' <= c <= '\u{2015}' ==> tidied(seq![c]) =~= seq!['-']);
    assert(c == '\u{2018}' || c == '\u{2019}' ==> tidied(seq![c]) =~= seq!['\'']);
    assert(c == '\u{201c}' || c == '\u{201d}' ==> tidied(seq![c]) =~= seq!['"']);
    assert(c == '\u{2026}' ==> tidied(seq![c]) =~= seq!['.', '.', '.']);
}

/// The first part of a joined text comes first, with the separator before the
/// rest.
pub proof fn joining_goes_in_order(first: Seq<char>, rest: Seq<Seq<char>>, sep: Seq<char>)
    requires
        rest.len() > 0,
    ensures
        joined(seq![first] + rest, sep) == first + sep + joined(rest, sep),
        joined(seq![first], sep) == first,
    decreases rest.len(),
{
    let all = seq![first] + rest;
    assert(all.drop_last() =~= seq![first] + rest.drop_last());
    assert(all.last() == rest.last());
    assert(seq![first][0] == first);
    if rest.len() == 1 {
        assert(all.drop_last() =~= seq![first]);
        assert(joined(all.drop_last(), sep) == first);
        assert(rest.last() == rest[0]);
    } else {
        joining_goes_in_order(first, rest.drop_last(), sep);
        assert(first + sep + joined(rest.drop_last(), sep) + sep + rest.last() =~= first + sep + (
        joined(rest.drop_last(), sep) + sep + rest.last()));
    }
}

/// White space at both ends of a text goes, and what lies between them stays.
pub proof fn trimming_takes_the_ends(a: Seq<char>, s: Seq<char>, b: Seq<char>)
    requires
        s.len() > 0,
        !white(s[0]),
        !white(s.last()),
        forall|i: int| 0 <= i < a.len() ==> white(#[trigger] a[i]),
        forall|i: int| 0 <= i < b.len() ==> white(#[trigger] b[i]),
    ensures
        strip(a + s + b) == s,
    decreases a.len() + b.len(),
{
    let t = a + s + b;
    if a.len() > 0 {
        assert(white(a[0]));
        assert(t.drop_first() =~= a.drop_first() + s + b);
        assert forall|i: int| 0 <= i < a.drop_first().len() implies white(
            #[trigger] a.drop_first()[i],
        ) by {
            assert(a.drop_first()[i] == a[i + 1]);
        }
        trimming_takes_the_ends(a.drop_first(), s, b);
    } else if b.len() > 0 {
        assert(t =~= s + b);
        assert(white(b.last()));
        assert(t.last() == b.last());
        assert(t.drop_last() =~= a + s + b.drop_last());
        assert forall|i: int| 0 <= i < b.drop_last().len() implies white(
            #[trigger] b.drop_last()[i],
        ) by {
            assert(b.drop_last()[i] == b[i]);
        }
        trimming_takes_the_ends(a, s, b.drop_last());
        assert(t[0] == s[0]);
        assert(t.drop_last()[0] == s[0]);
        assert(lstrip(t) == t);
        assert(lstrip(t.drop_last()) == t.drop_last());
    } else {
        assert(t =~= s);
    }
}

/// A host without a path gets one, and an address that is none of the web
/// stays.
pub proof fn hosts_get_a_path(host: Seq<char>, href: Seq<char>)
    requires
        host.len() > 0,
        forall|i: int| 0 <= i < host.len() ==> host[i] != '/' && host[i] != '?' && #[trigger] host[i]
            != '#',
    ensures
        normalized_url("https://"@ + host) == "https://"@ + host + "/"@,
        normalized_url("http://"@ + host) == "http://"@ + host + "/"@,
        !has_prefix(href, "https://"@) && !has_prefix(href, "http://"@) ==> normalized_url(href)
            == href,
{
    reveal_strlit("https://");
    reveal_strlit("http://");
    reveal_strlit("/");
    host_end_is_first(host, 0);
    assert(host_end(host, 0) == host.len());
    let a = "https://"@ + host;
    assert(a.take(8) =~= "https://"@);
    assert(a.skip(8) =~= host);
    assert(a.take(a.len() as int) =~= a);
    assert(a + "/"@ + a.skip(a.len() as int) =~= a + "/"@);
    let b = "http://"@ + host;
    assert(b.take(7) =~= "http://"@);
    assert(b.skip(7) =~= host);
    assert(!has_prefix(b, "https://"@)) by {
        if has_prefix(b, "https://"@) {
            assert(b.take(8)[4] == b[4]);
            assert("https://"@[4] == 's');
            assert(b[4] == ':');
        }
    }
    assert(b.take(b.len() as int) =~= b);
    assert(b + "/"@ + b.skip(b.len() as int) =~= b + "/"@);
}

/// The digits of a number count by tens.
pub proof fn digits_count_by_tens(s: Seq<char>, c: char)
    requires
        '0' <= c <= '9',
    ensures
        number(s.push(c)) == 10 * number(s) + (c as int - 0x30),
        number(Seq::<char>::empty()) == 0,
{
    assert(s.push(c).drop_last() =~= s);
}

} // verus!
