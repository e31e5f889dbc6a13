//! Text as a sequence of characters: trimming, splitting, joining, searching
//! and number parsing, each with an exact contract over `Seq<char>`.

use vstd::prelude::*;

verus! {

/// `String::push` appends one character at the end of the string.
pub assume_specification[ std::string::String::push ](s: &mut std::string::String, c: char)
    ensures
        final(s)@ == old(s)@.push(c),
;

/// Unicode white space (the `White_Space` property).
pub open spec fn white(c: char) -> bool {
    ||| '\u{9}' <= c <= '\u{d}'
    ||| c == ' '
    ||| c == '\u{85}'
    ||| c == '\u{a0}'
    ||| c == '\u{1680}'
    ||| '\u{2000}' <= c <= '\u{200a}'
    ||| c == '\u{2028}'
    ||| c == '\u{2029}'
    ||| c == '\u{202f}'
    ||| c == '\u{205f}'
    ||| c == '\u{3000}'
}

/// Whether `c` is Unicode white space.
pub fn is_white(c: char) -> (r: bool)
    ensures
        r == white(c),
{
    ('\u{9}' <= c && c <= '\u{d}') || c == ' ' || c == '\u{85}' || c == '\u{a0}' || c == '\u{1680}'
        || ('\u{2000}' <= c && c <= '\u{200a}') || c == '\u{2028}' || c == '\u{2029}' || c
        == '\u{202f}' || c == '\u{205f}' || c == '\u{3000}'
}

/// `s` without its leading white space.
pub open spec fn lstrip(s: Seq<char>) -> Seq<char>
    decreases s.len(),
{
    if s.len() > 0 && white(s[0]) {
        lstrip(s.drop_first())
    } else {
        s
    }
}

/// `s` without its trailing white space.
pub open spec fn rstrip(s: Seq<char>) -> Seq<char>
    decreases s.len(),
{
    if s.len() > 0 && white(s.last()) {
        rstrip(s.drop_last())
    } else {
        s
    }
}

/// `s` without the white space at its ends.
pub open spec fn strip(s: Seq<char>) -> Seq<char> {
    rstrip(lstrip(s))
}

/// White space at the end does not matter to what is left without it.
pub proof fn strip_ignores_the_end(s: Seq<char>)
    requires
        s.len() > 0,
        white(s.last()),
    ensures
        strip(s.drop_last()) == strip(s),
    decreases s.len(),
{
    if white(s[0]) {
        if s.len() == 1 {
            assert(s.drop_first() =~= s.drop_last());
        } else {
            strip_ignores_the_end(s.drop_first());
            assert(s.drop_first().drop_last() =~= s.drop_last().drop_first());
        }
    }
}

/// What is left of a text without its trailing white space is its beginning,
/// and does not end with white space.
pub proof fn rstrip_is_a_beginning(s: Seq<char>)
    ensures
        rstrip(s).len() <= s.len(),
        rstrip(s) == s.take(rstrip(s).len() as int),
        rstrip(s).len() > 0 ==> !white(rstrip(s).last()),
    decreases s.len(),
{
    if s.len() > 0 && white(s.last()) {
        rstrip_is_a_beginning(s.drop_last());
    }
    assert(rstrip(s) =~= s.take(rstrip(s).len() as int));
}

proof fn lstrip_begins_black(s: Seq<char>)
    ensures
        lstrip(s).len() > 0 ==> !white(lstrip(s)[0]),
    decreases s.len(),
{
    if s.len() > 0 && white(s[0]) {
        lstrip_begins_black(s.drop_first());
    }
}

/// Trimming a trimmed text changes nothing.
pub proof fn trimming_twice_is_trimming_once(s: Seq<char>)
    ensures
        strip(strip(s)) == strip(s),
{
    lstrip_begins_black(s);
    rstrip_is_a_beginning(lstrip(s));
    if strip(s).len() > 0 {
        assert(strip(s)[0] == lstrip(s)[0]);
    }
}

/// The leading white space of two texts in a row is that of the first, and, where
/// that is nothing else, of the second.
pub proof fn lstrip_of_two(a: Seq<char>, b: Seq<char>)
    ensures
        lstrip(a).len() == 0 ==> lstrip(a + b) == lstrip(b),
        lstrip(a).len() > 0 ==> lstrip(a + b) == lstrip(a) + b,
    decreases a.len(),
{
    if a.len() == 0 {
        assert(a + b =~= b);
    } else if white(a[0]) {
        lstrip_of_two(a.drop_first(), b);
        assert((a + b).drop_first() =~= a.drop_first() + b);
    }
}

/// The trailing white space of two texts in a row is that of the second, and,
/// where that is nothing else, of the first.
pub proof fn rstrip_of_two(a: Seq<char>, b: Seq<char>)
    ensures
        rstrip(b).len() == 0 ==> rstrip(a + b) == rstrip(a),
        rstrip(b).len() > 0 ==> rstrip(a + b) == a + rstrip(b),
    decreases b.len(),
{
    if b.len() == 0 {
        assert(a + b =~= a);
    } else if white(b.last()) {
        rstrip_of_two(a, b.drop_last());
        assert((a + b).drop_last() =~= a + b.drop_last());
    }
}

/// Nothing is left of a text without its white space, on either side or both,
/// exactly where it is all white space.
pub proof fn blank_texts_strip_to_nothing(s: Seq<char>)
    ensures
        lstrip(s).len() == 0 <==> strip(s).len() == 0,
        rstrip(s).len() == 0 <==> strip(s).len() == 0,
        strip(s).len() == 0 <==> forall|k: int| 0 <= k < s.len() ==> white(#[trigger] s[k]),
    decreases s.len(),
{
    if s.len() > 0 && white(s[0]) {
        let t = s.drop_first();
        blank_texts_strip_to_nothing(t);
        let one = seq![s[0]];
        rstrip_of_two(one, t);
        assert(one + t =~= s);
        assert(one.drop_last() =~= seq![]);
        assert(rstrip(one) == rstrip(one.drop_last()));
        if strip(t).len() == 0 {
            assert forall|k: int| 0 <= k < s.len() implies white(#[trigger] s[k]) by {
                if k > 0 {
                    assert(s[k] == t[k - 1]);
                }
            }
        } else {
            let k = choose|k: int| 0 <= k < t.len() && !white(#[trigger] t[k]);
            assert(s[k + 1] == t[k]);
        }
    } else if s.len() > 0 {
        assert(!white(s[0]));
        assert(lstrip(s) == s);
        black_texts_stay(s);
    }
}

proof fn black_texts_stay(s: Seq<char>)
    requires
        s.len() > 0,
        !white(s[0]),
    ensures
        rstrip(s).len() > 0,
    decreases s.len(),
{
    if white(s.last()) {
        black_texts_stay(s.drop_last());
    }
}

/// The characters of a string slice.
pub fn chars_of(s: &str) -> (r: Vec<char>)
    ensures
        r@ == s@,
{
    let mut out: Vec<char> = Vec::new();
    for c in it: s.chars()
        invariant
            out@ == it.seq().take(it.index()),
            it.seq() == s@,
    {
        out.push(c);
    }
    out
}

/// The string of a character sequence.
pub fn string_of(s: &Vec<char>) -> (r: String)
    ensures
        r@ == s@,
{
    let mut out = String::new();
    let mut i: usize = 0;
    while i < s.len()
        invariant
            i <= s.len(),
            out@ == s@.take(i as int),
        decreases s.len() - i,
    {
        out.push(s[i]);
        i += 1;
    }
    proof {
        assert(s@.take(s@.len() as int) =~= s@);
    }
    out
}

/// The part of `s` from `from` up to `to`.
pub fn slice(s: &Vec<char>, from: usize, to: usize) -> (r: Vec<char>)
    requires
        from <= to <= s.len(),
    ensures
        r@ == s@.subrange(from as int, to as int),
{
    let mut out: Vec<char> = Vec::new();
    let mut i: usize = from;
    while i < to
        invariant
            from <= i <= to <= s.len(),
            out@ == s@.subrange(from as int, i as int),
        decreases to - i,
    {
        out.push(s[i]);
        i += 1;
    }
    out
}

/// Leading white space removed.
pub fn trim_start(s: &Vec<char>) -> (r: Vec<char>)
    ensures
        r@ == lstrip(s@),
{
    let mut i: usize = 0;
    proof {
        assert(s@.skip(0) =~= s@);
    }
    while i < s.len() && is_white(s[i])
        invariant
            i <= s.len(),
            lstrip(s@) == lstrip(s@.skip(i as int)),
        decreases s.len() - i,
    {
        proof {
            assert(s@.skip(i as int).drop_first() =~= s@.skip(i + 1));
        }
        i += 1;
    }
    proof {
        assert(s@.skip(i as int) =~= s@.subrange(i as int, s@.len() as int));
    }
    slice(s, i, s.len())
}

/// Trailing white space removed.
pub fn trim_end(s: &Vec<char>) -> (r: Vec<char>)
    ensures
        r@ == rstrip(s@),
{
    let mut n: usize = s.len();
    proof {
        assert(s@.take(n as int) =~= s@);
    }
    while n > 0 && is_white(s[n - 1])
        invariant
            n <= s.len(),
            rstrip(s@) == rstrip(s@.take(n as int)),
        decreases n,
    {
        proof {
            assert(s@.take(n as int).drop_last() =~= s@.take(n - 1));
        }
        n -= 1;
    }
    proof {
        assert(s@.take(n as int) =~= s@.subrange(0, n as int));
    }
    slice(s, 0, n)
}

/// White space removed at both ends.
pub fn trim(s: &Vec<char>) -> (r: Vec<char>)
    ensures
        r@ == strip(s@),
{
    trim_end(&trim_start(s))
}

/// Equality of two character sequences.
pub fn same(a: &Vec<char>, b: &Vec<char>) -> (r: bool)
    ensures
        r == (a@ == b@),
{
    if a.len() != b.len() {
        return false;
    }
    let mut i: usize = 0;
    while i < a.len()
        invariant
            i <= a.len(),
            a.len() == b.len(),
            a@.take(i as int) == b@.take(i as int),
        decreases a.len() - i,
    {
        if a[i] != b[i] {
            return false;
        }
        proof {
            assert(a@.take(i + 1) =~= a@.take(i as int).push(a@[i as int]));
            assert(b@.take(i + 1) =~= b@.take(i as int).push(b@[i as int]));
        }
        i += 1;
    }
    proof {
        assert(a@.take(a@.len() as int) =~= a@);
        assert(b@.take(b@.len() as int) =~= b@);
    }
    true
}

/// Equality of two string slices.
pub fn str_eq(a: &str, b: &str) -> (r: bool)
    ensures
        r == (a@ == b@),
{
    same(&chars_of(a), &chars_of(b))
}

/// A copy of a character sequence.
pub fn copy(s: &Vec<char>) -> (r: Vec<char>)
    ensures
        r@ == s@,
{
    let r = slice(s, 0, s.len());
    proof {
        assert(s@.subrange(0, s@.len() as int) =~= s@);
    }
    r
}

/// `s` appended to `out`.
pub fn push_all(out: &mut Vec<char>, s: &Vec<char>)
    ensures
        final(out)@ == old(out)@ + s@,
{
    let mut i: usize = 0;
    while i < s.len()
        invariant
            i <= s.len(),
            out@ == old(out)@ + s@.take(i as int),
        decreases s.len() - i,
    {
        out.push(s[i]);
        proof {
            assert(s@.take(i + 1) =~= s@.take(i as int).push(s@[i as int]));
        }
        i += 1;
    }
    proof {
        assert(s@.take(s@.len() as int) =~= s@);
    }
}

/// A string slice appended to `out`.
pub fn push_str(out: &mut Vec<char>, s: &str)
    ensures
        final(out)@ == old(out)@ + s@,
{
    let chars = chars_of(s);
    push_all(out, &chars);
}

/// Whether `s` begins with `p`.
pub open spec fn has_prefix(s: Seq<char>, p: Seq<char>) -> bool {
    s.len() >= p.len() && s.take(p.len() as int) == p
}

/// Whether `s` ends with `p`.
pub open spec fn has_suffix(s: Seq<char>, p: Seq<char>) -> bool {
    s.len() >= p.len() && s.skip(s.len() - p.len()) == p
}

/// Whether `p` stands in `s` at index `at`.
pub open spec fn occurs_at(s: Seq<char>, p: Seq<char>, at: int) -> bool {
    0 <= at && at + p.len() <= s.len() && s.subrange(at, at + p.len()) == p
}

/// Whether `p` stands in `s` at index `at`.
pub fn is_at(s: &Vec<char>, p: &Vec<char>, at: usize) -> (r: bool)
    ensures
        r == occurs_at(s@, p@, at as int),
{
    if at > s.len() || s.len() - at < p.len() {
        return false;
    }
    let part = slice(s, at, at + p.len());
    same(&part, p)
}

/// Whether `s` begins with `p`.
pub fn starts_with(s: &Vec<char>, p: &str) -> (r: bool)
    ensures
        r == has_prefix(s@, p@),
{
    let p = chars_of(p);
    proof {
        if s@.len() >= p@.len() {
            assert(s@.take(p@.len() as int) =~= s@.subrange(0, p@.len() as int));
        }
    }
    is_at(s, &p, 0)
}

/// Whether `s` ends with `p`.
pub fn ends_with(s: &Vec<char>, p: &str) -> (r: bool)
    ensures
        r == has_suffix(s@, p@),
{
    let p = chars_of(p);
    if s.len() < p.len() {
        return false;
    }
    proof {
        assert(s@.skip(s@.len() - p@.len()) =~= s@.subrange(s@.len() - p@.len(), s@.len() as int));
    }
    is_at(s, &p, s.len() - p.len())
}

/// The index of the first `c` in `s` at or after `from`; `s.len()` when
/// there is none.
pub open spec fn index_from(s: Seq<char>, c: char, from: int) -> int
    decreases s.len() - from,
{
    if from < 0 || from >= s.len() {
        s.len() as int
    } else if s[from] == c {
        from
    } else {
        index_from(s, c, from + 1)
    }
}

/// What `index_from` finds is the first occurrence.
pub proof fn index_from_is_first(s: Seq<char>, c: char, from: int)
    requires
        0 <= from <= s.len(),
    ensures
        from <= index_from(s, c, from) <= s.len(),
        index_from(s, c, from) < s.len() ==> s[index_from(s, c, from)] == c,
        forall|k: int| from <= k < index_from(s, c, from) ==> s[k] != c,
    decreases s.len() - from,
{
    if from < s.len() && s[from] != c {
        index_from_is_first(s, c, from + 1);
    }
}

/// The index of the first `c` in `s` at or after `from`; `s.len()` when
/// there is none.
pub fn find_from(s: &Vec<char>, c: char, from: usize) -> (r: usize)
    requires
        from <= s.len(),
    ensures
        r == index_from(s@, c, from as int),
        from <= r <= s.len(),
{
    let mut i: usize = from;
    while i < s.len() && s[i] != c
        invariant
            from <= i <= s.len(),
            index_from(s@, c, from as int) == index_from(s@, c, i as int),
        decreases s.len() - i,
    {
        i += 1;
    }
    i
}

/// Whether `p` occurs in `s` at or after `from`.
pub open spec fn contains_from(s: Seq<char>, p: Seq<char>, from: int) -> bool {
    exists|k: int| from <= k && #[trigger] occurs_at(s, p, k)
}

/// Whether `p` occurs in `s`.
pub fn contains(s: &Vec<char>, p: &str) -> (r: bool)
    ensures
        r == contains_from(s@, p@, 0),
{
    let pattern = chars_of(p);
    let mut i: usize = 0;
    while i < s.len()
        invariant
            i <= s.len(),
            pattern@ == p@,
            forall|k: int| 0 <= k < i ==> !#[trigger] occurs_at(s@, p@, k),
        decreases s.len() - i,
    {
        if is_at(s, &pattern, i) {
            assert(occurs_at(s@, p@, i as int));
            return true;
        }
        i += 1;
    }
    is_at(s, &pattern, i)
}

/// `s` with every `a` turned into `b`.
pub open spec fn replaced(s: Seq<char>, a: char, b: char) -> Seq<char> {
    Seq::new(
        s.len(),
        |i: int|
            if s[i] == a {
                b
            } else {
                s[i]
            },
    )
}

/// `s` with every `a` turned into `b`.
pub fn replace_char(s: &Vec<char>, a: char, b: char) -> (r: Vec<char>)
    ensures
        r@ == replaced(s@, a, b),
{
    let mut out: Vec<char> = Vec::new();
    let mut i: usize = 0;
    while i < s.len()
        invariant
            i <= s.len(),
            out@ == replaced(s@, a, b).take(i as int),
        decreases s.len() - i,
    {
        if s[i] == a {
            out.push(b);
        } else {
            out.push(s[i]);
        }
        proof {
            assert(replaced(s@, a, b).take(i + 1) =~= replaced(s@, a, b).take(i as int).push(
                replaced(s@, a, b)[i as int],
            ));
        }
        i += 1;
    }
    proof {
        assert(replaced(s@, a, b).take(s@.len() as int) =~= replaced(s@, a, b));
    }
    out
}

/// The lower-case form of an ASCII letter; any other character unchanged.
pub open spec fn lower_char(c: char) -> char {
    if 'A' <= c <= 'Z' {
        ((c as int) + 32) as char
    } else {
        c
    }
}

/// `s` with its ASCII letters in lower case.
pub open spec fn lowered(s: Seq<char>) -> Seq<char> {
    Seq::new(s.len(), |i: int| lower_char(s[i]))
}

/// The lower-case form of an ASCII letter.
pub fn to_lower_char(c: char) -> (r: char)
    ensures
        r == lower_char(c),
{
    if 'A' <= c && c <= 'Z' {
        ((c as u8) + 32) as char
    } else {
        c
    }
}

/// ASCII letters in lower case.
pub fn to_lower(s: &Vec<char>) -> (r: Vec<char>)
    ensures
        r@ == lowered(s@),
{
    let mut out: Vec<char> = Vec::new();
    let mut i: usize = 0;
    while i < s.len()
        invariant
            i <= s.len(),
            out@ == lowered(s@).take(i as int),
        decreases s.len() - i,
    {
        out.push(to_lower_char(s[i]));
        proof {
            assert(lowered(s@).take(i + 1) =~= lowered(s@).take(i as int).push(
                lowered(s@)[i as int],
            ));
        }
        i += 1;
    }
    proof {
        assert(lowered(s@).take(s@.len() as int) =~= lowered(s@));
    }
    out
}

/// The texts of a list of character sequences.
pub open spec fn texts(v: Seq<Vec<char>>) -> Seq<Seq<char>> {
    Seq::new(v.len(), |i: int| v[i]@)
}

/// Appending a text appends to the list of texts.
pub broadcast proof fn texts_push(v: Seq<Vec<char>>, x: Vec<char>)
    ensures
        #[trigger] texts(v.push(x)) == texts(v).push(x@),
{
    assert(texts(v.push(x)) =~= texts(v).push(x@));
}

/// The parts in order, with `sep` between any two neighbours.
pub open spec fn joined(parts: Seq<Seq<char>>, sep: Seq<char>) -> Seq<char>
    decreases parts.len(),
{
    if parts.len() == 0 {
        seq![]
    } else if parts.len() == 1 {
        parts[0]
    } else {
        joined(parts.drop_last(), sep) + sep + parts.last()
    }
}

/// The parts in order, with `sep` between any two neighbours.
pub fn join(parts: &Vec<Vec<char>>, sep: &str) -> (r: Vec<char>)
    ensures
        r@ == joined(texts(parts@), sep@),
{
    let sep = chars_of(sep);
    let mut out: Vec<char> = Vec::new();
    let mut i: usize = 0;
    while i < parts.len()
        invariant
            i <= parts.len(),
            out@ == joined(texts(parts@).take(i as int), sep@),
        decreases parts.len() - i,
    {
        if i > 0 {
            push_all(&mut out, &sep);
        }
        push_all(&mut out, &parts[i]);
        proof {
            assert(texts(parts@).take(i + 1).drop_last() =~= texts(parts@).take(i as int));
        }
        i += 1;
    }
    proof {
        assert(texts(parts@).take(parts@.len() as int) =~= texts(parts@));
    }
    out
}

/// The value of an ASCII digit.
pub open spec fn is_digit(c: char) -> bool {
    '0' <= c <= '9'
}

/// Whether `s` is a non-empty run of ASCII digits.
pub open spec fn all_digits(s: Seq<char>) -> bool {
    s.len() > 0 && forall|i: int| 0 <= i < s.len() ==> is_digit(#[trigger] s[i])
}

/// The number that a run of digits writes.
pub open spec fn number(s: Seq<char>) -> int
    decreases s.len(),
{
    if s.len() == 0 {
        0
    } else {
        number(s.drop_last()) * 10 + (s.last() as int - '0' as int)
    }
}

/// The number written by an optional `+` and digits, when it is at most `max`.
pub open spec fn uint(s: Seq<char>, max: int) -> Option<int> {
    let d = if s.len() > 0 && s[0] == '+' {
        s.drop_first()
    } else {
        s
    };
    if all_digits(d) && number(d) <= max {
        Some(number(d))
    } else {
        None
    }
}

/// The number written by an optional sign and digits, when it lies between
/// `min` and `max`.
pub open spec fn sint(s: Seq<char>, min: int, max: int) -> Option<int> {
    if s.len() > 0 && s[0] == '-' {
        let d = s.drop_first();
        if all_digits(d) && -number(d) >= min {
            Some(-number(d))
        } else {
            None
        }
    } else {
        uint(s, max)
    }
}

/// A run of digits writes no less than its beginning does.
proof fn number_grows(s: Seq<char>, n: int)
    requires
        0 <= n <= s.len(),
        forall|i: int| 0 <= i < s.len() ==> is_digit(#[trigger] s[i]),
    ensures
        0 <= number(s.take(n)) <= number(s),
    decreases s.len(),
{
    if n == s.len() {
        assert(s.take(n) =~= s);
        if n > 0 {
            number_grows(s.drop_last(), n - 1);
            assert(s.drop_last().take(n - 1) =~= s.drop_last());
        }
    } else {
        number_grows(s.drop_last(), n);
        assert(s.drop_last().take(n) =~= s.take(n));
    }
}

/// A number without a sign is not negative.
pub proof fn uint_is_positive(s: Seq<char>, max: int)
    ensures
        uint(s, max) is Some ==> 0 <= uint(s, max)->0 <= max,
{
    let d = if s.len() > 0 && s[0] == '+' {
        s.drop_first()
    } else {
        s
    };
    if all_digits(d) {
        number_grows(d, d.len() as int);
        assert(d.take(d.len() as int) =~= d);
    }
}

/// The number written by the digits of `s` from `from` on, when it is at
/// most `max`.
fn parse_digits(s: &Vec<char>, from: usize, max: u128) -> (r: Option<u128>)
    requires
        from <= s.len(),
    ensures
        r is Some <==> all_digits(s@.skip(from as int)) && number(s@.skip(from as int)) <= max,
        r is Some ==> r->0 == number(s@.skip(from as int)),
{
    let ghost d = s@.skip(from as int);
    if from == s.len() {
        return None;
    }
    let mut v: u128 = 0;
    let mut i: usize = from;
    proof {
        assert(d.take(0) =~= Seq::<char>::empty());
    }
    while i < s.len()
        invariant
            from <= i <= s.len(),
            d == s@.skip(from as int),
            forall|k: int| 0 <= k < i - from ==> is_digit(#[trigger] d[k]),
            v == number(d.take(i - from)),
            v <= max,
        decreases s.len() - i,
    {
        let c = s[i];
        proof {
            assert(d[i - from] == c);
            assert(d.take(i - from + 1).drop_last() =~= d.take(i - from));
            assert(d.take(i - from + 1).last() == c);
            assert(number(d.take(i - from + 1)) == number(d.take(i - from)) * 10 + (c as int - '0' as int));
            if all_digits(d) {
                number_grows(d, i - from + 1);
            }
        }
        if !('0' <= c && c <= '9') {
            return None;
        }
        let k: u128 = (c as u32 - '0' as u32) as u128;
        if k > max || v > (max - k) / 10 {
            return None;
        }
        v = v * 10 + k;
        i += 1;
    }
    proof {
        assert(d.take(i - from) =~= d);
    }
    Some(v)
}

/// The number written by an optional `+` and digits, when it is at most `max`.
pub fn parse_uint(s: &Vec<char>, max: u128) -> (r: Option<u128>)
    ensures
        r is Some <==> uint(s@, max as int) is Some,
        r is Some ==> uint(s@, max as int) == Some(r->0 as int),
{
    proof {
        assert(s@.skip(0) =~= s@);
        if s@.len() > 0 {
            assert(s@.skip(1) =~= s@.drop_first());
        }
    }
    if s.len() > 0 && s[0] == '+' {
        parse_digits(s, 1, max)
    } else {
        parse_digits(s, 0, max)
    }
}

/// The number written by an optional sign and digits, when it lies between
/// `min` and `max`.
pub fn parse_sint(s: &Vec<char>, min: i128, max: i128) -> (r: Option<i128>)
    requires
        min <= 0 <= max,
    ensures
        r is Some <==> sint(s@, min as int, max as int) is Some,
        r is Some ==> sint(s@, min as int, max as int) == Some(r->0 as int),
        r is Some ==> min <= r->0 <= max,
{
    proof {
        let d = if s@.len() > 0 && (s@[0] == '-' || s@[0] == '+') {
            s@.drop_first()
        } else {
            s@
        };
        if all_digits(d) {
            number_grows(d, d.len() as int);
        }
    }
    if s.len() > 0 && s[0] == '-' {
        proof {
            assert(s@.skip(1) =~= s@.drop_first());
        }
        if min == 0 {
            match parse_digits(s, 1, 0) {
                Some(_) => Some(0),
                None => None,
            }
        } else {
            let bound: u128 = (-(min + 1)) as u128 + 1;
            match parse_digits(s, 1, bound) {
                Some(v) => if v == 0 {
                    Some(0)
                } else {
                    Some(-((v - 1) as i128) - 1)
                },
                None => None,
            }
        }
    } else {
        match parse_uint(s, max as u128) {
            Some(v) => Some(v as i128),
            None => None,
        }
    }
}

/// The decimal digits of a natural number.
pub open spec fn decimal(n: int) -> Seq<char>
    decreases n,
{
    if n < 10 {
        seq![(('0' as int) + n) as char]
    } else {
        decimal(n / 10).push((('0' as int) + n % 10) as char)
    }
}

/// A number reads back from its decimal form.
pub proof fn decimals_read_back(n: int)
    requires
        0 <= n,
    ensures
        all_digits(decimal(n)),
        number(decimal(n)) == n,
    decreases n,
{
    if n >= 10 {
        decimals_read_back(n / 10);
        assert(decimal(n).drop_last() =~= decimal(n / 10));
        assert(decimal(n).last() as int - '0' as int == n % 10);
    } else {
        assert(decimal(n).drop_last() =~= Seq::<char>::empty());
        assert(number(decimal(n).drop_last()) == 0);
        assert(decimal(n).last() as int - '0' as int == n);
    }
}

/// The decimal form of an integer.
pub open spec fn signed_decimal(n: int) -> Seq<char> {
    if n < 0 {
        seq!['-'] + decimal(-n)
    } else {
        decimal(n)
    }
}

/// The decimal digits of `n` appended to `out`.
pub fn push_decimal(out: &mut Vec<char>, n: u128)
    ensures
        final(out)@ == old(out)@ + decimal(n as int),
    decreases n,
{
    if n >= 10 {
        push_decimal(out, n / 10);
    }
    let d: u8 = (n % 10) as u8;
    out.push((48 + d) as char);
}

/// The decimal form of `n` appended to `out`.
pub fn push_signed_decimal(out: &mut Vec<char>, n: i64)
    ensures
        final(out)@ == old(out)@ + signed_decimal(n as int),
{
    if n < 0 {
        out.push('-');
        push_decimal(out, (-(n as i128)) as u128);
    } else {
        push_decimal(out, n as u128);
    }
}

/// Whether `s` is the text `t`.
pub fn is(s: &Vec<char>, t: &str) -> (r: bool)
    ensures
        r == (s@ == t@),
{
    same(s, &chars_of(t))
}

/// A line without the carriage return before its line feed.
pub open spec fn chomped(s: Seq<char>) -> Seq<char> {
    if s.len() > 0 && s.last() == '\r' {
        s.drop_last()
    } else {
        s
    }
}

/// The lines of `s` from `from` on, added to `done`. A line feed ends a line,
/// with or without a carriage return before it; the end of the text ends the
/// last line, if there is one.
pub open spec fn lines_from(s: Seq<char>, from: int, done: Seq<Seq<char>>) -> Seq<Seq<char>>
    decreases s.len() - from,
{
    if from < 0 || from >= s.len() {
        done
    } else {
        let k = index_from(s, '\n', from);
        if k < from || k >= s.len() {
            done.push(s.skip(from))
        } else {
            lines_from(s, k + 1, done.push(chomped(s.subrange(from, k))))
        }
    }
}

/// The lines of a text.
pub open spec fn lines_of(s: Seq<char>) -> Seq<Seq<char>> {
    lines_from(s, 0, seq![])
}

/// The lines of a text.
pub fn lines(s: &Vec<char>) -> (r: Vec<Vec<char>>)
    ensures
        texts(r@) == lines_of(s@),
{
    broadcast use texts_push;

    let mut out: Vec<Vec<char>> = Vec::new();
    let mut from: usize = 0;
    assert(texts(out@) =~= seq![]);
    while from < s.len()
        invariant
            from <= s@.len(),
            lines_from(s@, 0, seq![]) == lines_from(s@, from as int, texts(out@)),
        decreases s@.len() - from,
    {
        broadcast use texts_push;

        let k: usize = find_from(s, '\n', from);
        if k == s.len() {
            assert(s@.subrange(from as int, k as int) =~= s@.skip(from as int));
            out.push(slice(s, from, k));
            return out;
        }
        let end: usize = if k > from && s[k - 1] == '\r' {
            k - 1
        } else {
            k
        };
        let line = slice(s, from, end);
        assert(line@ =~= chomped(s@.subrange(from as int, k as int)));
        out.push(line);
        from = k + 1;
    }
    out
}

/// A text, or the empty text where there is none.
pub open spec fn or_empty(o: Option<Seq<char>>) -> Seq<char> {
    match o {
        Some(s) => s,
        None => seq![],
    }
}

/// The characters of a text, or none where there is no text.
pub fn chars_or_empty(o: Option<&str>) -> (r: Vec<char>)
    ensures
        r@ == or_empty(match o {
            Some(s) => Some(s@),
            None => None,
        }),
{
    match o {
        Some(s) => chars_of(s),
        None => {
            let v: Vec<char> = Vec::new();
            assert(v@ =~= seq![]);
            v
        },
    }
}

/// `s` with its line feeds turned into spaces.
pub open spec fn unlined(s: Seq<char>) -> Seq<char> {
    replaced(s, '\n', ' ')
}

/// What a character of body text is in Markdown: `&`, `<` and `>` are
/// entities, an underscore is escaped.
pub open spec fn escaped_char(c: char) -> Seq<char> {
    if c == '_' {
        seq!['\\', '_']
    } else if c == '&' {
        seq!['&', 'a', 'm', 'p', ';']
    } else if c == '<' {
        seq!['&', 'l', 't', ';']
    } else if c == '>' {
        seq!['&', 'g', 't', ';']
    } else {
        seq![c]
    }
}

/// Body text in Markdown.
pub open spec fn escaped(s: Seq<char>) -> Seq<char>
    decreases s.len(),
{
    if s.len() == 0 {
        seq![]
    } else {
        escaped(s.drop_last()) + escaped_char(s.last())
    }
}

/// Body text in Markdown.
pub fn escape_text(s: &Vec<char>) -> (r: Vec<char>)
    ensures
        r@ == escaped(s@),
{
    let mut out: Vec<char> = Vec::new();
    let mut i: usize = 0;
    assert(s@.take(0) =~= seq![]);
    assert(out@ =~= seq![]);
    while i < s.len()
        invariant
            i <= s@.len(),
            out@ == escaped(s@.take(i as int)),
        decreases s@.len() - i,
    {
        let c = s[i];
        let ghost before = out@;
        if c == '_' {
            out.push('\\');
            out.push('_');
        } else if c == '&' {
            out.push('&');
            out.push('a');
            out.push('m');
            out.push('p');
            out.push(';');
        } else if c == '<' {
            out.push('&');
            out.push('l');
            out.push('t');
            out.push(';');
        } else if c == '>' {
            out.push('&');
            out.push('g');
            out.push('t');
            out.push(';');
        } else {
            out.push(c);
        }
        proof {
            assert(out@ =~= before + escaped_char(c));
            assert(s@.take(i + 1).drop_last() =~= s@.take(i as int));
        }
        i += 1;
    }
    assert(s@.take(i as int) =~= s@);
    out
}

/// ASCII white space.
pub open spec fn ascii_white(c: char) -> bool {
    c == ' ' || c == '\t' || c == '\n' || c == '\u{c}' || c == '\r'
}

/// Whether `c` is ASCII white space.
pub fn is_ascii_white(c: char) -> (r: bool)
    ensures
        r == ascii_white(c),
{
    c == ' ' || c == '\t' || c == '\n' || c == '\u{c}' || c == '\r'
}

/// `s` from `i` on added to `out`, with every run of ASCII white space turned
/// into one space. `gap` tells that such a run ends at `i`; one before the
/// first or behind the last character drops.
pub open spec fn collapsed(s: Seq<char>, i: int, gap: bool, out: Seq<char>) -> Seq<char>
    decreases s.len() - i,
{
    if i < 0 || i >= s.len() {
        out
    } else if ascii_white(s[i]) {
        collapsed(s, i + 1, true, out)
    } else if gap && out.len() > 0 {
        collapsed(s, i + 1, false, out.push(' ').push(s[i]))
    } else {
        collapsed(s, i + 1, false, out.push(s[i]))
    }
}

/// `s` trimmed, with its runs of ASCII white space collapsed. A no-break
/// space inside is content and stays.
pub open spec fn normalized(s: Seq<char>) -> Seq<char> {
    collapsed(strip(s), 0, false, seq![])
}

/// `s` trimmed, with its runs of ASCII white space collapsed.
pub fn normalize(s: &Vec<char>) -> (r: Vec<char>)
    ensures
        r@ == normalized(s@),
{
    let t = trim(s);
    let mut out: Vec<char> = Vec::new();
    let mut gap = false;
    let mut i: usize = 0;
    assert(out@ =~= seq![]);
    while i < t.len()
        invariant
            i <= t@.len(),
            collapsed(t@, 0, false, seq![]) == collapsed(t@, i as int, gap, out@),
        decreases t@.len() - i,
    {
        let c = t[i];
        if is_ascii_white(c) {
            gap = true;
        } else {
            if gap && out.len() > 0 {
                out.push(' ');
            }
            gap = false;
            out.push(c);
        }
        i += 1;
    }
    out
}

/// The parts of `s` from `from` on between the occurrences of `c`, added to
/// `done`.
pub open spec fn split_from(
    s: Seq<char>,
    c: char,
    from: int,
    done: Seq<Seq<char>>,
) -> Seq<Seq<char>>
    decreases s.len() - from,
{
    let k = index_from(s, c, from);
    if from < 0 || k < from || k >= s.len() {
        done.push(s.skip(from))
    } else {
        split_from(s, c, k + 1, done.push(s.subrange(from, k)))
    }
}

/// The parts of `s` between the occurrences of `c`.
pub open spec fn splits(s: Seq<char>, c: char) -> Seq<Seq<char>> {
    split_from(s, c, 0, seq![])
}

/// The parts of `s` between the occurrences of `c`.
pub fn split(s: &Vec<char>, c: char) -> (r: Vec<Vec<char>>)
    ensures
        texts(r@) == splits(s@, c),
        r@.len() > 0,
{
    let mut out: Vec<Vec<char>> = Vec::new();
    let mut from: usize = 0;
    assert(texts(out@) =~= seq![]);
    loop
        invariant
            from <= s@.len(),
            split_from(s@, c, 0, seq![]) == split_from(s@, c, from as int, texts(out@)),
        decreases s@.len() - from,
    {
        broadcast use texts_push;

        let k: usize = find_from(s, c, from);
        let part = slice(s, from, k);
        if k == s.len() {
            assert(part@ =~= s@.skip(from as int));
            out.push(part);
            return out;
        }
        out.push(part);
        from = k + 1;
    }
}

/// The upper-case form of an ASCII letter; any other character unchanged.
pub open spec fn upper_char(c: char) -> char {
    if 'a' <= c <= 'z' {
        ((c as int) - 32) as char
    } else {
        c
    }
}

/// Whether all characters are ASCII.
pub open spec fn all_ascii(s: Seq<char>) -> bool {
    forall|i: int| 0 <= i < s.len() ==> #[trigger] s[i] <= '\u{7f}'
}

/// The upper-case form of a text under the rules of Unicode.
pub uninterp spec fn uppercase(s: Seq<char>) -> Seq<char>;

/// The lower-case form of a text under the rules of Unicode.
pub uninterp spec fn lowercase(s: Seq<char>) -> Seq<char>;

/// Calls `str::to_uppercase`. What is claimed is that the result depends on
/// the text alone, and that on ASCII text the letters turn one by one.
#[verifier::external_body]
pub(crate) fn to_uppercase(s: &str) -> (r: String)
    ensures
        r@ == uppercase(s@),
        all_ascii(s@) ==> r@ == Seq::new(s@.len(), |i: int| upper_char(s@[i])),
{
    s.to_uppercase()
}

/// Calls `str::to_lowercase`. What is claimed is that the result depends on
/// the text alone, and that on ASCII text the letters turn one by one.
#[verifier::external_body]
pub(crate) fn to_lowercase(s: &str) -> (r: String)
    ensures
        r@ == lowercase(s@),
        all_ascii(s@) ==> r@ == lowered(s@),
{
    s.to_lowercase()
}

/// Whether a character is a letter or a digit under the rules of Unicode.
pub uninterp spec fn alphanumeric(c: char) -> bool;

/// Calls `char::is_alphanumeric`. What is claimed is that the result depends
/// on the character alone.
#[verifier::external_body]
fn is_alphanumeric(c: char) -> (r: bool)
    ensures
        r == alphanumeric(c),
{
    c.is_alphanumeric()
}

/// Whether a character is a letter or a digit.
pub open spec fn letter_or_digit(c: char) -> bool {
    if c <= '\u{7f}' {
        'a' <= c <= 'z' || 'A' <= c <= 'Z' || '0' <= c <= '9'
    } else {
        alphanumeric(c)
    }
}

pub(crate) fn is_letter_or_digit(c: char) -> (r: bool)
    ensures
        r == letter_or_digit(c),
{
    if c <= '\u{7f}' {
        ('a' <= c && c <= 'z') || ('A' <= c && c <= 'Z') || ('0' <= c && c <= '9')
    } else {
        is_alphanumeric(c)
    }
}

/// The words from `i` on added to `done`; `word` is the one being read. White
/// space parts words.
pub open spec fn words_from(s: Seq<char>, i: int, word: Seq<char>, done: Seq<Seq<char>>) -> Seq<
    Seq<char>,
>
    decreases s.len() - i,
{
    if i >= s.len() {
        if word.len() == 0 {
            done
        } else {
            done.push(word)
        }
    } else if white(s[i]) {
        words_from(
            s,
            i + 1,
            seq![],
            if word.len() == 0 {
                done
            } else {
                done.push(word)
            },
        )
    } else {
        words_from(s, i + 1, word.push(s[i]), done)
    }
}

/// The words of a text.
pub open spec fn words_of(s: Seq<char>) -> Seq<Seq<char>> {
    words_from(s, 0, seq![], seq![])
}

/// The words of a text.
pub fn words(s: &Vec<char>) -> (r: Vec<Vec<char>>)
    ensures
        texts(r@) == words_of(s@),
{
    broadcast use texts_push;

    let mut out: Vec<Vec<char>> = Vec::new();
    let mut word: Vec<char> = Vec::new();
    let mut i: usize = 0;
    assert(texts(out@) =~= seq![]);
    assert(word@ =~= seq![]);
    while i < s.len()
        invariant
            i <= s@.len(),
            words_of(s@) == words_from(s@, i as int, word@, texts(out@)),
        decreases s@.len() - i,
    {
        broadcast use texts_push;

        if is_white(s[i]) {
            if word.len() > 0 {
                out.push(word);
                word = Vec::new();
            }
            assert(word@ =~= seq![]);
        } else {
            word.push(s[i]);
        }
        i += 1;
    }
    if word.len() > 0 {
        out.push(word);
    }
    out
}

/// The text from `i` on added to `out`, with each occurrence of `from`, read
/// from the left, written as `to`.
pub open spec fn swapped_from(s: Seq<char>, i: int, from: Seq<char>, to: Seq<char>, out: Seq<char>) -> Seq<
    char,
>
    decreases s.len() - i,
{
    if i < 0 || i >= s.len() {
        out
    } else if from.len() > 0 && occurs_at(s, from, i) {
        swapped_from(s, i + from.len(), from, to, out + to)
    } else {
        swapped_from(s, i + 1, from, to, out.push(s[i]))
    }
}

/// A text with each occurrence of `from` written as `to`.
pub open spec fn swapped(s: Seq<char>, from: Seq<char>, to: Seq<char>) -> Seq<char> {
    swapped_from(s, 0, from, to, seq![])
}

/// A text with each occurrence of `from` written as `to`.
pub fn swap_text(s: &Vec<char>, from: &str, to: &str) -> (r: Vec<char>)
    ensures
        r@ == swapped(s@, from@, to@),
{
    let pat = chars_of(from);
    let mut out: Vec<char> = Vec::new();
    let mut i: usize = 0;
    assert(out@ =~= seq![]);
    while i < s.len()
        invariant
            i <= s@.len(),
            pat@ == from@,
            swapped(s@, from@, to@) == swapped_from(s@, i as int, from@, to@, out@),
        decreases s@.len() - i,
    {
        if pat.len() > 0 && is_at(s, &pat, i) {
            push_str(&mut out, to);
            i += pat.len();
        } else {
            out.push(s[i]);
            i += 1;
        }
    }
    out
}

} // verus!
