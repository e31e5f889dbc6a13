//! Laws of cutting text up: into parts, lines and words.

use crate::text::{
    chomped, index_from, index_from_is_first, lines_from, lines_of, split_from, splits, white,
    words_from, words_of,
};
use vstd::prelude::*;

verus! {

proof fn the_index_is_there(s: Seq<char>, c: char, from: int, n: int)
    requires
        0 <= from <= n <= s.len(),
        forall|k: int| from <= k < n ==> #[trigger] s[k] != c,
        n == s.len() || s[n] == c,
    ensures
        index_from(s, c, from) == n,
    decreases n - from,
{
    if from < n {
        assert(s[from] != c);
        the_index_is_there(s, c, from + 1, n);
    }
}

proof fn the_index_moves(s: Seq<char>, t: Seq<char>, c: char, from: int)
    requires
        0 <= from <= t.len(),
    ensures
        index_from(s + t, c, s.len() + from) == s.len() + index_from(t, c, from),
    decreases t.len() - from,
{
    if from < t.len() {
        assert((s + t)[s.len() + from] == t[from]);
        if t[from] != c {
            the_index_moves(s, t, c, from + 1);
        }
    }
}

proof fn parts_move(
    s: Seq<char>,
    t: Seq<char>,
    c: char,
    from: int,
    before: Seq<Seq<char>>,
    done: Seq<Seq<char>>,
)
    requires
        0 <= from <= t.len(),
    ensures
        split_from(s + t, c, s.len() + from, before + done) == before + split_from(t, c, from, done),
    decreases t.len() - from,
{
    the_index_moves(s, t, c, from);
    index_from_is_first(t, c, from);
    let k = index_from(t, c, from);
    if k < t.len() {
        assert((s + t).subrange(s.len() + from, s.len() + k) =~= t.subrange(from, k));
        assert((before + done).push(t.subrange(from, k)) =~= before + done.push(t.subrange(from, k)));
        parts_move(s, t, c, k + 1, before, done.push(t.subrange(from, k)));
    } else {
        assert((s + t).skip(s.len() + from) =~= t.skip(from));
        assert((before + done).push(t.skip(from)) =~= before + done.push(t.skip(from)));
    }
}

/// What stands before the first separator is the first part, and the rest is
/// split in turn; a text without a separator is one part.
pub proof fn parts_stand_between_separators(a: Seq<char>, c: char, b: Seq<char>)
    requires
        forall|k: int| 0 <= k < a.len() ==> #[trigger] a[k] != c,
    ensures
        splits(a, c) == seq![a],
        splits(a.push(c) + b, c) == seq![a] + splits(b, c),
{
    the_index_is_there(a, c, 0, a.len() as int);
    assert(a.skip(0) =~= a);
    assert(splits(a, c) =~= seq![a]);
    let s = a.push(c) + b;
    assert(s[a.len() as int] == c);
    assert forall|k: int| 0 <= k < a.len() implies #[trigger] s[k] != c by {
        assert(s[k] == a[k]);
    }
    the_index_is_there(s, c, 0, a.len() as int);
    assert(s.subrange(0, a.len() as int) =~= a);
    assert(Seq::<Seq<char>>::empty().push(a) =~= seq![a] + seq![]);
    parts_move(a.push(c), b, c, 0, seq![a], seq![]);
}

proof fn lines_move(
    s: Seq<char>,
    t: Seq<char>,
    from: int,
    before: Seq<Seq<char>>,
    done: Seq<Seq<char>>,
)
    requires
        0 <= from <= t.len(),
    ensures
        lines_from(s + t, s.len() + from, before + done) == before + lines_from(t, from, done),
    decreases t.len() - from,
{
    if from < t.len() {
        the_index_moves(s, t, '\n', from);
        index_from_is_first(t, '\n', from);
        let k = index_from(t, '\n', from);
        if k < t.len() {
            let line = chomped(t.subrange(from, k));
            assert((s + t).subrange(s.len() + from, s.len() + k) =~= t.subrange(from, k));
            assert((before + done).push(line) =~= before + done.push(line));
            lines_move(s, t, k + 1, before, done.push(line));
        } else {
            assert((s + t).skip(s.len() + from) =~= t.skip(from));
            assert((before + done).push(t.skip(from)) =~= before + done.push(t.skip(from)));
        }
    }
}

/// What stands before the first line feed is the first line, without a
/// carriage return at its end, and the rest is cut in turn. The end of the
/// text ends the last line, if anything stands there.
pub proof fn lines_end_at_line_feeds(a: Seq<char>, b: Seq<char>)
    requires
        forall|k: int| 0 <= k < a.len() ==> #[trigger] a[k] != '\n',
    ensures
        lines_of(seq![]) == Seq::<Seq<char>>::empty(),
        a.len() > 0 ==> lines_of(a) == seq![a],
        a.len() == 0 || a.last() != '\r' ==> lines_of(a.push('\n') + b) == seq![a] + lines_of(b),
        lines_of(a.push('\r').push('\n') + b) == seq![a] + lines_of(b),
{
    the_index_is_there(a, '\n', 0, a.len() as int);
    assert(a.skip(0) =~= a);
    let r = a.push('\r');
    assert forall|k: int| 0 <= k < r.len() implies #[trigger] r[k] != '\n' by {
        if k < a.len() {
            assert(r[k] == a[k]);
        }
    }
    assert(r.drop_last() =~= a);
    a_line_ends(a, b);
    a_line_ends(r, b);
}

proof fn a_line_ends(a: Seq<char>, b: Seq<char>)
    requires
        forall|k: int| 0 <= k < a.len() ==> #[trigger] a[k] != '\n',
    ensures
        lines_of(a.push('\n') + b) == seq![chomped(a)] + lines_of(b),
{
    let s = a.push('\n') + b;
    assert(s[a.len() as int] == '\n');
    assert forall|k: int| 0 <= k < a.len() implies #[trigger] s[k] != '\n' by {
        assert(s[k] == a[k]);
    }
    the_index_is_there(s, '\n', 0, a.len() as int);
    assert(s.subrange(0, a.len() as int) =~= a);
    assert(Seq::<Seq<char>>::empty().push(chomped(a)) =~= seq![chomped(a)] + seq![]);
    lines_move(a.push('\n'), b, 0, seq![chomped(a)], seq![]);
}

proof fn words_move(
    s: Seq<char>,
    t: Seq<char>,
    i: int,
    word: Seq<char>,
    before: Seq<Seq<char>>,
    done: Seq<Seq<char>>,
)
    requires
        0 <= i <= t.len(),
    ensures
        words_from(s + t, s.len() + i, word, before + done) == before + words_from(t, i, word, done),
    decreases t.len() - i,
{
    if i < t.len() {
        assert((s + t)[s.len() + i] == t[i]);
        if white(t[i]) {
            if word.len() == 0 {
                words_move(s, t, i + 1, seq![], before, done);
            } else {
                assert((before + done).push(word) =~= before + done.push(word));
                words_move(s, t, i + 1, seq![], before, done.push(word));
            }
        } else {
            words_move(s, t, i + 1, word.push(t[i]), before, done);
        }
    } else if word.len() > 0 {
        assert((before + done).push(word) =~= before + done.push(word));
    }
}

proof fn a_word_goes_on(s: Seq<char>, i: int, n: int)
    requires
        0 <= i <= n <= s.len(),
        forall|k: int| 0 <= k < n ==> !(white(#[trigger] s[k])),
    ensures
        words_from(s, i, s.take(i), seq![]) == words_from(s, n, s.take(n), seq![]),
    decreases n - i,
{
    if i < n {
        assert(!(white(s[i])));
        assert(s.take(i).push(s[i]) =~= s.take(i + 1));
        a_word_goes_on(s, i + 1, n);
    }
}

/// What stands before the first white space is the first word, and the words
/// of the rest follow; white space at the start is nothing; a text without
/// white space is one word.
pub proof fn words_stand_between_spaces(a: Seq<char>, c: char, b: Seq<char>)
    requires
        a.len() > 0,
        forall|k: int| 0 <= k < a.len() ==> !(white(#[trigger] a[k])),
        white(c),
    ensures
        words_of(seq![]) == Seq::<Seq<char>>::empty(),
        words_of(a) == seq![a],
        words_of(a.push(c) + b) == seq![a] + words_of(b),
        words_of(seq![c] + b) == words_of(b),
{
    a_word_goes_on(a, 0, a.len() as int);
    assert(a.take(0) =~= seq![]);
    assert(a.take(a.len() as int) =~= a);
    assert(words_of(a) =~= seq![a]);
    let s = a.push(c) + b;
    assert forall|k: int| 0 <= k < a.len() implies !(white(#[trigger] s[k])) by {
        assert(s[k] == a[k]);
    }
    a_word_goes_on(s, 0, a.len() as int);
    assert(s.take(0) =~= seq![]);
    assert(s.take(a.len() as int) =~= a);
    assert(s[a.len() as int] == c);
    assert(Seq::<Seq<char>>::empty().push(a) =~= seq![a] + seq![]);
    words_move(a.push(c), b, 0, seq![], seq![a], seq![]);
    assert((seq![c] + b)[0] == c);
    words_move(seq![c], b, 0, seq![], seq![], seq![]);
    assert(Seq::<Seq<char>>::empty() + Seq::<Seq<char>>::empty() =~= seq![]);
    assert(Seq::<Seq<char>>::empty() + words_of(b) =~= words_of(b));
}

} // verus!
