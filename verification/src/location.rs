//! Locations in a web archive: content ids, paths and addresses, and how a
//! reference is resolved against a base.

use crate::decode::{lossy, to_lossy};
use crate::text::{
    chars_of, copy, find_from, has_prefix, index_from, index_from_is_first, is, join, joined,
    lower_char, lowercase, lowered, push_all, push_str, replace_char, replaced, slice, split,
    split_from, splits, starts_with, string_of, strip, texts, texts_push, to_lower, to_lowercase,
    trim,
};
use vstd::prelude::*;
use vstd::utf8::encode_utf8;

verus! {

/// An optional text.
pub open spec fn opt_text(o: Option<Vec<char>>) -> Option<Seq<char>> {
    match o {
        Some(v) => Some(v@),
        None => None,
    }
}

// ------------------------------------------------------------ content ids

/// Whether a character is an angle bracket.
pub open spec fn angle(c: char) -> bool {
    c == '<' || c == '>'
}

/// A text without the angle brackets before it.
pub open spec fn bare_front(s: Seq<char>) -> Seq<char>
    decreases s.len(),
{
    if s.len() > 0 && angle(s[0]) {
        bare_front(s.skip(1))
    } else {
        s
    }
}

/// A text without the angle brackets behind it.
pub open spec fn bare_back(s: Seq<char>) -> Seq<char>
    decreases s.len(),
{
    if s.len() > 0 && angle(s.last()) {
        bare_back(s.drop_last())
    } else {
        s
    }
}

fn strip_angles(s: &Vec<char>) -> (r: Vec<char>)
    ensures
        r@ == bare_back(bare_front(s@)),
{
    let n: usize = s.len();
    let mut i: usize = 0;
    assert(s@.skip(0) =~= s@);
    while i < n && (s[i] == '<' || s[i] == '>')
        invariant
            i <= n == s@.len(),
            bare_front(s@) == bare_front(s@.skip(i as int)),
        decreases n - i,
    {
        assert(s@.skip(i as int).skip(1) =~= s@.skip(i + 1));
        i += 1;
    }
    let mut k: usize = n;
    assert(s@.skip(i as int) =~= s@.subrange(i as int, k as int));
    while k > i && (s[k - 1] == '<' || s[k - 1] == '>')
        invariant
            i <= k <= n == s@.len(),
            bare_back(bare_front(s@)) == bare_back(s@.subrange(i as int, k as int)),
        decreases k,
    {
        assert(s@.subrange(i as int, k as int).drop_last() =~= s@.subrange(i as int, k - 1));
        k -= 1;
    }
    slice(s, i, k)
}

/// Whether a text begins with the scheme of content ids, in any case.
pub open spec fn has_cid(s: Seq<char>) -> bool {
    s.len() >= 4 && lowered(s.take(4)) == "cid:"@
}

/// Whether a text begins with the scheme of content ids, in any case.
pub fn is_cid(s: &Vec<char>) -> (r: bool)
    ensures
        r == has_cid(s@),
{
    if s.len() < 4 {
        return false;
    }
    let head = slice(s, 0, 4);
    assert(head@ =~= s@.take(4));
    is(&to_lower(&head), "cid:")
}

/// The key of a content id, whatever its spelling: with or without scheme
/// and angle brackets, in any case.
pub open spec fn cid_key(s: Seq<char>) -> Seq<char> {
    let t = strip(s);
    "cid:"@ + lowercase(
        bare_back(
            bare_front(
                if has_cid(t) {
                    t.skip(4)
                } else {
                    t
                },
            ),
        ),
    )
}

pub(crate) fn key_of_cid(s: &Vec<char>) -> (r: Vec<char>)
    ensures
        r@ == cid_key(s@),
{
    let mut t = trim(s);
    if is_cid(&t) {
        let rest = slice(&t, 4, t.len());
        assert(rest@ =~= t@.skip(4));
        t = rest;
    }
    let id = string_of(&strip_angles(&t));
    let mut out = chars_of("cid:");
    push_all(&mut out, &chars_of(to_lowercase(id.as_str()).as_str()));
    out
}

/// The key of a content id.
pub fn normalize_cid(value: &str) -> (r: String)
    ensures
        r@ == cid_key(value@),
{
    string_of(&key_of_cid(&chars_of(value)))
}

proof fn plain_is_bare(id: Seq<char>)
    requires
        id.len() > 0,
        !angle(id[0]),
        !angle(id.last()),
    ensures
        bare_back(bare_front(id)) == id,
{
}

proof fn plain_is_stripped(id: Seq<char>)
    requires
        id.len() > 0,
        !crate::text::white(id[0]),
        !crate::text::white(id.last()),
    ensures
        strip(id) == id,
{
}

/// A content id in angle brackets, one with its scheme and the bare id have
/// the same key.
pub proof fn cid_spellings_agree(id: Seq<char>)
    requires
        id.len() > 0,
        !angle(id[0]) && !angle(id.last()),
        !crate::text::white(id[0]) && !crate::text::white(id.last()),
        !has_cid(id),
    ensures
        cid_key(id) == "cid:"@ + lowercase(id),
        cid_key("<"@ + id + ">"@) == cid_key(id),
        cid_key("cid:"@ + id) == cid_key(id),
{
    reveal_strlit("cid:");
    reveal_strlit("<");
    reveal_strlit(">");
    plain_is_bare(id);
    plain_is_stripped(id);
    let a = "<"@ + id + ">"@;
    plain_is_stripped(a);
    assert(!has_cid(a)) by {
        if has_cid(a) {
            assert(lowered(a.take(4))[0] == lower_char(a[0]));
            assert("cid:"@[0] == 'c');
        }
    }
    assert(bare_front(a) == id + ">"@) by {
        assert(a.skip(1) =~= id + ">"@);
        assert(bare_front(id + ">"@) == id + ">"@);
    }
    assert(bare_back(id + ">"@) == id) by {
        assert((id + ">"@).drop_last() =~= id);
        assert(bare_back(id) == id);
    }
    let b = "cid:"@ + id;
    plain_is_stripped(b);
    assert(b.take(4) =~= "cid:"@);
    assert(lowered("cid:"@) =~= "cid:"@);
    assert(b.skip(4) =~= id);
}

// ------------------------------------------------------------ schemes

/// Whether a character may stand in a scheme behind the first.
pub open spec fn scheme_char(c: char) -> bool {
    'a' <= c <= 'z' || 'A' <= c <= 'Z' || '0' <= c <= '9' || c == '+' || c == '-' || c == '.'
}

/// Whether a character is an ASCII letter.
pub open spec fn letter(c: char) -> bool {
    'a' <= c <= 'z' || 'A' <= c <= 'Z'
}

/// Whether a text is a scheme.
pub open spec fn is_scheme(s: Seq<char>) -> bool {
    s.len() > 0 && letter(s[0]) && (forall|k: int| 1 <= k < s.len() ==> scheme_char(#[trigger] s[k]))
}

/// The scheme of an address.
pub open spec fn scheme(s: Seq<char>) -> Option<Seq<char>> {
    let k = index_from(s, ':', 0);
    if k < s.len() && is_scheme(s.take(k)) {
        Some(s.take(k))
    } else {
        None
    }
}

/// The scheme of an address.
pub fn scheme_of(s: &Vec<char>) -> (r: Option<Vec<char>>)
    ensures
        opt_text(r) == scheme(s@),
        match r {
            Some(v) => v@.len() < s@.len() && v@ == s@.take(v@.len() as int),
            None => true,
        },
{
    let k = find_from(s, ':', 0);
    if k == s.len() || k == 0 {
        return None;
    }
    let t = slice(s, 0, k);
    assert(t@ =~= s@.take(k as int));
    if !(('a' <= t[0] && t[0] <= 'z') || ('A' <= t[0] && t[0] <= 'Z')) {
        return None;
    }
    let mut i: usize = 1;
    while i < k
        invariant
            1 <= i <= k == t@.len(),
            t@ == s@.take(k as int),
            k < s@.len(),
            k == index_from(s@, ':', 0),
            forall|j: int| 1 <= j < i ==> scheme_char(#[trigger] t@[j]),
        decreases k - i,
    {
        let c = t[i];
        if !(('a' <= c && c <= 'z') || ('A' <= c && c <= 'Z') || ('0' <= c && c <= '9') || c == '+'
            || c == '-' || c == '.') {
            assert(!scheme_char(t@[i as int]));
            return None;
        }
        i += 1;
    }
    Some(t)
}

/// Whether an address is one of another machine.
pub open spec fn is_remote(s: Seq<char>) -> bool {
    match scheme(s) {
        Some(k) => {
            let l = lowered(k);
            l == "http"@ || l == "https"@ || l == "ftp"@ || l == "s3"@ || l == "gs"@
        },
        None => false,
    }
}

/// Whether an address is one of another machine.
pub fn is_remote_url(s: &Vec<char>) -> (r: bool)
    ensures
        r == is_remote(s@),
{
    match scheme_of(s) {
        Some(k) => {
            let l = to_lower(&k);
            is(&l, "http") || is(&l, "https") || is(&l, "ftp") || is(&l, "s3") || is(&l, "gs")
        },
        None => false,
    }
}

// ------------------------------------------------------------ paths

/// The index of the first query or fragment mark of `s` at or after `i`.
pub open spec fn mark_from(s: Seq<char>, i: int) -> int
    decreases s.len() - i,
{
    if i < 0 || i >= s.len() {
        s.len() as int
    } else if s[i] == '?' || s[i] == '#' {
        i
    } else {
        mark_from(s, i + 1)
    }
}

fn find_mark(s: &Vec<char>) -> (r: usize)
    ensures
        r == mark_from(s@, 0),
        r <= s@.len(),
{
    let mut i: usize = 0;
    while i < s.len() && s[i] != '?' && s[i] != '#'
        invariant
            i <= s@.len(),
            mark_from(s@, 0) == mark_from(s@, i as int),
        decreases s@.len() - i,
    {
        i += 1;
    }
    i
}

/// Whether a character ends a host.
pub open spec fn ends_host(c: char) -> bool {
    c == '/' || c == '?' || c == '#'
}

/// The index of the first mark of `s` at or after `i` that ends a host.
pub open spec fn host_end(s: Seq<char>, i: int) -> int
    decreases s.len() - i,
{
    if i < 0 || i >= s.len() {
        s.len() as int
    } else if ends_host(s[i]) {
        i
    } else {
        host_end(s, i + 1)
    }
}

/// A host ends at the first mark that ends one, or with the text.
pub proof fn host_end_is_first(s: Seq<char>, i: int)
    requires
        0 <= i <= s.len(),
    ensures
        i <= host_end(s, i) <= s.len(),
        forall|k: int| i <= k < host_end(s, i) ==> !ends_host(#[trigger] s[k]),
        host_end(s, i) < s.len() ==> ends_host(s[host_end(s, i)]),
    decreases s.len() - i,
{
    if i < s.len() && !ends_host(s[i]) {
        host_end_is_first(s, i + 1);
    }
}

pub(crate) fn find_host_end(s: &Vec<char>) -> (r: usize)
    ensures
        r == host_end(s@, 0),
        r <= s@.len(),
{
    let mut i: usize = 0;
    while i < s.len() && s[i] != '/' && s[i] != '?' && s[i] != '#'
        invariant
            i <= s@.len(),
            host_end(s@, 0) == host_end(s@, i as int),
        decreases s@.len() - i,
    {
        i += 1;
    }
    i
}

/// A text up to its query or fragment.
pub open spec fn unmarked(s: Seq<char>) -> Seq<char> {
    s.take(mark_from(s, 0))
}

fn without_marks(s: &Vec<char>) -> (r: Vec<char>)
    ensures
        r@ == unmarked(s@),
{
    let k = find_mark(s);
    let r = slice(s, 0, k);
    assert(r@ =~= s@.take(k as int));
    r
}

/// The index of the last slash among the first `n` characters, or -1.
pub open spec fn last_slash(s: Seq<char>, n: int) -> int
    decreases n,
{
    if n <= 0 || n > s.len() {
        -1
    } else if s[n - 1] == '/' {
        n - 1
    } else {
        last_slash(s, n - 1)
    }
}

/// The directory of a path.
pub open spec fn dirname(s: Seq<char>) -> Seq<char> {
    let k = last_slash(s, s.len() as int);
    if k == 0 {
        "/"@
    } else if k > 0 {
        s.take(k)
    } else {
        ""@
    }
}

fn posix_dirname(s: &Vec<char>) -> (r: Vec<char>)
    ensures
        r@ == dirname(s@),
{
    let mut n: usize = s.len();
    while n > 0 && s[n - 1] != '/'
        invariant
            n <= s@.len(),
            last_slash(s@, s@.len() as int) == last_slash(s@, n as int),
        decreases n,
    {
        n -= 1;
    }
    if n == 0 {
        chars_of("")
    } else if n == 1 {
        chars_of("/")
    } else {
        let r = slice(s, 0, n - 1);
        assert(r@ =~= s@.take(n - 1));
        r
    }
}

/// A path in a directory.
pub open spec fn path_in(dir: Seq<char>, rel: Seq<char>) -> Seq<char> {
    if (rel.len() > 0 && rel[0] == '/') || dir.len() == 0 {
        rel
    } else if dir.last() == '/' {
        dir + rel
    } else {
        dir + "/"@ + rel
    }
}

fn posix_join(dir: &Vec<char>, rel: &Vec<char>) -> (r: Vec<char>)
    ensures
        r@ == path_in(dir@, rel@),
{
    if (rel.len() > 0 && rel[0] == '/') || dir.len() == 0 {
        return copy(rel);
    }
    let mut out = copy(dir);
    if dir[dir.len() - 1] != '/' {
        push_str(&mut out, "/");
    }
    push_all(&mut out, rel);
    out
}

/// The parts of a path from `i` on, added to `done`: a dot is passed over,
/// two dots take the part before away. A path from the root cannot climb
/// above it.
pub open spec fn steps(parts: Seq<Seq<char>>, i: int, rooted: bool, done: Seq<Seq<char>>) -> Seq<
    Seq<char>,
>
    decreases parts.len() - i,
{
    if i >= parts.len() {
        done
    } else {
        let p = parts[i];
        steps(
            parts,
            i + 1,
            rooted,
            if p.len() == 0 || p == "."@ {
                done
            } else if p == ".."@ {
                if done.len() > 0 && done.last() != ".."@ {
                    done.drop_last()
                } else if !rooted {
                    done.push(p)
                } else {
                    done
                }
            } else {
                done.push(p)
            },
        )
    }
}

/// Whether a path begins at the root.
pub open spec fn rooted(s: Seq<char>) -> bool {
    s.len() > 0 && s[0] == '/'
}

/// The path made of parts.
pub open spec fn path_of(parts: Seq<Seq<char>>, rooted: bool) -> Seq<char> {
    let j = joined(parts, "/"@);
    if rooted {
        "/"@ + j
    } else if j.len() == 0 {
        "."@
    } else {
        j
    }
}

/// The parts of a path's plain form.
pub open spec fn plain_parts(s: Seq<char>) -> Seq<Seq<char>> {
    steps(splits(s, '/'), 0, rooted(s), seq![])
}

/// A path without dots, double slashes, and climbs that can be done away
/// with.
pub open spec fn normal_path(s: Seq<char>) -> Seq<char> {
    path_of(plain_parts(s), rooted(s))
}

fn normalize_path(s: &Vec<char>) -> (r: Vec<char>)
    ensures
        r@ == normal_path(s@),
{
    let rooted = s.len() > 0 && s[0] == '/';
    let parts = split(s, '/');
    let ghost w = texts(parts@);
    let mut out: Vec<Vec<char>> = Vec::new();
    let mut i: usize = 0;
    assert(texts(out@) =~= seq![]);
    while i < parts.len()
        invariant
            i <= parts@.len(),
            w == texts(parts@),
            steps(w, 0, rooted, seq![]) == steps(w, i as int, rooted, texts(out@)),
        decreases parts@.len() - i,
    {
        broadcast use texts_push;

        assert(w[i as int] == parts@[i as int]@);
        let p = &parts[i];
        if p.len() == 0 || is(p, ".") {
        } else if is(p, "..") {
            if out.len() > 0 && !(is(&out[out.len() - 1], "..")) {
                let ghost before = out@;
                out.pop();
                assert(texts(out@) =~= texts(before).drop_last());
            } else if !rooted {
                out.push(copy(p));
            }
        } else {
            out.push(copy(p));
        }
        i += 1;
    }
    let j = join(&out, "/");
    if rooted {
        let mut r = chars_of("/");
        push_all(&mut r, &j);
        r
    } else if j.len() == 0 {
        chars_of(".")
    } else {
        j
    }
}

/// A path without dots, double slashes, and climbs that can be done away
/// with.
pub fn posix_normpath(path: &str) -> (r: String)
    ensures
        r@ == normal_path(path@),
{
    string_of(&normalize_path(&chars_of(path)))
}

/// Whether parts are those of a plain path: none is empty, a dot, or holds a
/// slash, and climbs stand only before all else, in a path not from the root.
pub open spec fn are_plain(parts: Seq<Seq<char>>, rooted: bool) -> bool {
    forall|i: int|
        0 <= i < parts.len() ==> {
            let p = #[trigger] parts[i];
            p.len() > 0 && p != "."@ && !p.contains('/') && (p == ".."@ ==> !rooted && (i == 0
                || parts[i - 1] == ".."@))
        }
}

proof fn steps_are_plain(parts: Seq<Seq<char>>, i: int, rooted: bool, done: Seq<Seq<char>>)
    requires
        0 <= i,
        are_plain(done, rooted),
        forall|k: int| 0 <= k < parts.len() ==> !(#[trigger] parts[k]).contains('/'),
    ensures
        are_plain(steps(parts, i, rooted, done), rooted),
    decreases parts.len() - i,
{
    if i < parts.len() {
        let p = parts[i];
        let next = if p.len() == 0 || p == "."@ {
            done
        } else if p == ".."@ {
            if done.len() > 0 && done.last() != ".."@ {
                done.drop_last()
            } else if !rooted {
                done.push(p)
            } else {
                done
            }
        } else {
            done.push(p)
        };
        assert(are_plain(next, rooted)) by {
            assert forall|j: int| 0 <= j < next.len() implies {
                let q = #[trigger] next[j];
                q.len() > 0 && q != "."@ && !q.contains('/') && (q == ".."@ ==> !rooted && (j == 0
                    || next[j - 1] == ".."@))
            } by {
                if j < done.len() {
                    assert(next[j] == done[j]);
                    if j > 0 {
                        assert(next[j - 1] == done[j - 1]);
                    }
                } else {
                    assert(next[j] == p);
                    if j > 0 {
                        assert(next[j - 1] == done.last());
                    }
                }
            }
        }
        steps_are_plain(parts, i + 1, rooted, next);
    }
}

proof fn splits_hold_no_mark(s: Seq<char>, c: char, from: int, done: Seq<Seq<char>>)
    requires
        0 <= from <= s.len(),
        forall|k: int| 0 <= k < done.len() ==> !(#[trigger] done[k]).contains(c),
    ensures
        forall|k: int|
            0 <= k < split_from(s, c, from, done).len() ==> !(#[trigger] split_from(
                s,
                c,
                from,
                done,
            )[k]).contains(c),
    decreases s.len() - from,
{
    let k = index_from(s, c, from);
    index_from_is_first(s, c, from);
    if k >= s.len() {
        let t = s.skip(from);
        assert(!t.contains(c)) by {
            if t.contains(c) {
                let j = choose|j: int| 0 <= j < t.len() && t[j] == c;
                assert(s[from + j] == c);
            }
        }
    } else {
        let t = s.subrange(from, k);
        assert(!t.contains(c)) by {
            if t.contains(c) {
                let j = choose|j: int| 0 <= j < t.len() && t[j] == c;
                assert(s[from + j] == c);
            }
        }
        let next = done.push(t);
        splits_hold_no_mark(s, c, k + 1, next);
        assert(split_from(s, c, from, done) == split_from(s, c, k + 1, next));
    }
}

/// The parts of a path's plain form are plain.
pub proof fn plain_parts_are_plain(s: Seq<char>)
    ensures
        are_plain(plain_parts(s), rooted(s)),
{
    splits_hold_no_mark(s, '/', 0, seq![]);
    steps_are_plain(splits(s, '/'), 0, rooted(s), seq![]);
}

proof fn plain_parts_stay(v: Seq<Seq<char>>, front: Seq<Seq<char>>, i: int, rooted: bool)
    requires
        are_plain(v, rooted),
        0 <= i <= v.len(),
        forall|k: int| 0 <= k < front.len() ==> (#[trigger] front[k]).len() == 0,
    ensures
        steps(front + v, front.len() + i, rooted, v.take(i)) == v,
    decreases v.len() - i,
{
    let w = front + v;
    if i < v.len() {
        assert(w[front.len() + i] == v[i]);
        assert(v.take(i).push(v[i]) =~= v.take(i + 1));
        if v[i] == ".."@ && i > 0 {
            assert(v.take(i).last() == v[i - 1]);
        }
        plain_parts_stay(v, front, i + 1, rooted);
    } else {
        assert(v.take(i) =~= v);
    }
}

proof fn empty_parts_pass(front: Seq<Seq<char>>, v: Seq<Seq<char>>, i: int, rooted: bool)
    requires
        0 <= i <= front.len(),
        forall|k: int| 0 <= k < front.len() ==> (#[trigger] front[k]).len() == 0,
    ensures
        steps(front + v, i, rooted, seq![]) == steps(front + v, front.len() as int, rooted, seq![]),
    decreases front.len() - i,
{
    if i < front.len() {
        assert((front + v)[i] == front[i]);
        empty_parts_pass(front, v, i + 1, rooted);
    }
}

proof fn joined_from_the_front(v: Seq<Seq<char>>, sep: Seq<char>)
    requires
        v.len() >= 2,
    ensures
        joined(v, sep) == v[0] + sep + joined(v.drop_first(), sep),
    decreases v.len(),
{
    let rest = v.drop_first();
    if v.len() == 2 {
        assert(joined(v.drop_last(), sep) == v[0]);
        assert(joined(rest, sep) == v[1]);
    } else {
        joined_from_the_front(v.drop_last(), sep);
        assert(v.drop_last().drop_first() =~= rest.drop_last());
        assert(rest.last() == v.last());
        assert(joined(v, sep) =~= v[0] + sep + joined(rest, sep));
    }
}

proof fn joined_splits_back(s: Seq<char>, from: int, v: Seq<Seq<char>>, done: Seq<Seq<char>>)
    requires
        0 <= from <= s.len(),
        v.len() > 0,
        s.skip(from) == joined(v, "/"@),
        forall|k: int| 0 <= k < v.len() ==> !(#[trigger] v[k]).contains('/'),
    ensures
        split_from(s, '/', from, done) == done + v,
    decreases v.len(),
{
    reveal_strlit("/");
    index_from_is_first(s, '/', from);
    let k = index_from(s, '/', from);
    let n = v[0].len() as int;
    let t = s.skip(from);
    if v.len() == 1 {
        assert(joined(v, "/"@) == v[0]);
        if k < s.len() {
            assert(t[k - from] == '/');
            assert(v[0].contains('/'));
        }
        assert(done.push(s.skip(from)) =~= done + v);
    } else {
        let rest = v.drop_first();
        joined_from_the_front(v, "/"@);
        assert(t.len() > n);
        assert(t[n] == '/');
        assert(s.skip(from)[n] == s[from + n]);
        assert(s[from + n] == '/');
        if k < from + n {
            assert(s.skip(from)[k - from] == s[k]);
            assert(t[k - from] == '/');
            assert(v[0][k - from] == '/');
            assert(v[0].contains('/'));
        }
        assert(k == from + n);
        assert(s.subrange(from, k) =~= v[0]) by {
            assert(t.take(n) =~= v[0]);
            assert(t.take(n) =~= s.subrange(from, k));
        }
        assert(s.skip(k + 1) =~= joined(rest, "/"@)) by {
            assert(t.skip(n + 1) =~= joined(rest, "/"@));
            assert(t.skip(n + 1) =~= s.skip(k + 1));
        }
        assert forall|j: int| 0 <= j < rest.len() implies !(#[trigger] rest[j]).contains('/') by {
            assert(rest[j] == v[j + 1]);
        }
        joined_splits_back(s, k + 1, rest, done.push(v[0]));
        assert(done.push(v[0]) + rest =~= done + v);
    }
}

/// The plain form of a path is its own plain form.
pub proof fn normal_path_is_stable(s: Seq<char>)
    ensures
        normal_path(normal_path(s)) == normal_path(s),
{
    reveal_strlit("/");
    reveal_strlit(".");
    let v = plain_parts(s);
    let r = rooted(s);
    let p = normal_path(s);
    let j = joined(v, "/"@);
    plain_parts_are_plain(s);
    if v.len() == 0 {
        assert(j =~= seq![]);
        index_from_is_first(p, '/', 0);
        if r {
            assert(p =~= "/"@);
            assert(index_from(p, '/', 0) == 0);
            index_from_is_first(p, '/', 1);
            let w = splits(p, '/');
            assert(p.subrange(0, 0) =~= seq![]);
            assert(p.skip(1) =~= seq![]);
            reveal_with_fuel(split_from, 3);
            let e: Seq<char> = seq![];
            assert(w =~= seq![e, e]);
            reveal_with_fuel(steps, 4);
        } else {
            assert(p.skip(0) =~= "."@);
            assert(!("."@.contains('/')));
            if index_from(p, '/', 0) < p.len() {
                assert("."@.contains('/'));
            }
            assert(splits(p, '/') =~= seq!["."@]);
            reveal_with_fuel(steps, 3);
        }
    } else {
        assert(v[0].len() > 0);
        if r {
            assert(p == "/"@ + j);
            assert(p[0] == '/');
            assert(index_from(p, '/', 0) == 0);
            assert(p.subrange(0, 0) =~= seq![]);
            assert(p.skip(1) =~= j);
            let front: Seq<Seq<char>> = seq![p.subrange(0, 0)];
            let none: Seq<Seq<char>> = seq![];
            assert(none.push(p.subrange(0, 0)) =~= front);
            joined_splits_back(p, 1, v, front);
            assert(splits(p, '/') == front + v);
            empty_parts_pass(front, v, 0, r);
            assert(v.take(0) =~= seq![]);
            plain_parts_stay(v, front, 0, r);
        } else {
            let front: Seq<Seq<char>> = seq![];
            joined_begins(v);
            assert(p == j);
            assert(p.skip(0) =~= p);
            joined_splits_back(p, 0, v, front);
            assert(splits(p, '/') == front + v);
            assert(v.take(0) =~= seq![]);
            plain_parts_stay(v, front, 0, r);
        }
    }
}

proof fn joined_begins(v: Seq<Seq<char>>)
    requires
        v.len() > 0,
        v[0].len() > 0,
    ensures
        joined(v, "/"@).len() > 0,
        joined(v, "/"@)[0] == v[0][0],
{
    if v.len() >= 2 {
        joined_from_the_front(v, "/"@);
    }
}

/// A location under an archive's own origin stays there: no part of its path
/// climbs.
pub proof fn archived_locations_never_climb(base: Seq<char>, location: Seq<char>)
    requires
        rooted(base),
    ensures
        forall|i: int|
            0 <= i < plain_parts(path_in(dirname(base), location)).len() ==> #[trigger] plain_parts(
                path_in(dirname(base), location),
            )[i] != ".."@,
{
    reveal_strlit("/");
    let d = dirname(base);
    let n = base.len() as int;
    last_slash_is_last(base, n);
    let k = last_slash(base, n);
    assert(rooted(d)) by {
        if k > 0 {
            assert(base.take(k)[0] == base[0]);
        }
    }
    assert(rooted(path_in(d, location)));
    plain_parts_are_plain(path_in(d, location));
}

proof fn last_slash_is_last(s: Seq<char>, n: int)
    requires
        0 < n <= s.len(),
        s[0] == '/',
    ensures
        0 <= last_slash(s, n) < n,
        s[last_slash(s, n)] == '/',
    decreases n,
{
    if s[n - 1] != '/' {
        last_slash_is_last(s, n - 1);
    }
}

// ------------------------------------------------------------ escapes

/// The value of a hexadecimal digit.
pub open spec fn hex_digit(b: u8) -> Option<int> {
    if 48 <= b <= 57 {
        Some(b - 48)
    } else if 65 <= b <= 70 {
        Some(b - 55)
    } else if 97 <= b <= 102 {
        Some(b - 87)
    } else {
        None
    }
}

/// The byte of an escape's two characters; a plus may stand before a single
/// digit.
pub open spec fn hex_byte(a: u8, b: u8) -> Option<int> {
    match (hex_digit(a), hex_digit(b)) {
        (Some(x), Some(y)) => Some(16 * x + y),
        (None, Some(y)) => if a == 43 {
            Some(y)
        } else {
            None
        },
        _ => None,
    }
}

fn digit(b: u8) -> (r: Option<u8>)
    ensures
        match hex_digit(b) {
            Some(n) => r matches Some(x) && x == n && x < 16,
            None => r is None,
        },
{
    if 48 <= b && b <= 57 {
        Some(b - 48)
    } else if 65 <= b && b <= 70 {
        Some(b - 55)
    } else if 97 <= b && b <= 102 {
        Some(b - 87)
    } else {
        None
    }
}

fn escaped_byte(a: u8, b: u8) -> (r: Option<u8>)
    ensures
        match hex_byte(a, b) {
            Some(n) => r matches Some(x) && x == n,
            None => r is None,
        },
{
    match (digit(a), digit(b)) {
        (Some(x), Some(y)) => Some(16 * x + y),
        (None, Some(y)) => if a == 43 {
            Some(y)
        } else {
            None
        },
        _ => None,
    }
}

/// The bytes from `i` on with their escapes resolved, added to `out`.
pub open spec fn unescaped(b: Seq<u8>, i: int, out: Seq<u8>) -> Seq<u8>
    decreases b.len() - i,
{
    if i < 0 || i >= b.len() {
        out
    } else if b[i] == 37 && i + 2 < b.len() && hex_byte(b[i + 1], b[i + 2]) is Some {
        unescaped(b, i + 3, out.push((hex_byte(b[i + 1], b[i + 2])->0) as u8))
    } else {
        unescaped(b, i + 1, out.push(b[i]))
    }
}

/// A text with its escapes resolved.
pub open spec fn percent_decoded(s: Seq<char>) -> Seq<char> {
    lossy(unescaped(encode_utf8(s), 0, seq![]))
}

fn percent_decode(s: &Vec<char>) -> (r: Vec<char>)
    ensures
        r@ == percent_decoded(s@),
{
    let text = string_of(s);
    let b = text.as_str().as_bytes();
    let ghost v = b@;
    let n: usize = b.len();
    let mut out: Vec<u8> = Vec::new();
    let mut i: usize = 0;
    assert(out@ =~= seq![]);
    while i < n
        invariant
            i <= n == b@.len(),
            v == b@,
            unescaped(v, 0, seq![]) == unescaped(v, i as int, out@),
        decreases n - i,
    {
        if b[i] == 37 && n - i > 2 {
            match escaped_byte(b[i + 1], b[i + 2]) {
                Some(x) => {
                    out.push(x);
                    i += 3;
                    continue;
                },
                None => {},
            }
        }
        out.push(b[i]);
        i += 1;
    }
    chars_of(to_lossy(out.as_slice()).as_str())
}

// ------------------------------------------------------------ local paths

/// A path without the slash before a drive.
pub open spec fn undriven(s: Seq<char>) -> Seq<char> {
    if s.len() >= 4 && s[0] == '/' && letter(s[1]) && s[2] == ':' && (s[3] == '/' || s[3] == '\\') {
        s.skip(1)
    } else {
        s
    }
}

/// The path of a file address behind its scheme.
pub open spec fn file_path(rest: Seq<char>) -> Seq<char> {
    let r = if has_prefix(rest, "//"@) {
        rest.skip(2)
    } else {
        rest
    };
    let k = if has_prefix(rest, "//"@) {
        host_end(r, 0)
    } else {
        0
    };
    let host = r.take(k);
    let path = percent_decoded(unmarked(r.skip(k)));
    undriven(
        if host.len() > 0 && lowered(host) != "localhost"@ {
            "//"@ + host + path
        } else {
            path
        },
    )
}

fn path_of_file(rest: &Vec<char>) -> (r: Vec<char>)
    ensures
        r@ == file_path(rest@),
{
    let host: Vec<char>;
    let tail: Vec<char>;
    if starts_with(rest, "//") {
        proof {
            reveal_strlit("//");
        }
        let r = slice(rest, 2, rest.len());
        assert(r@ =~= rest@.skip(2));
        let k = find_host_end(&r);
        host = slice(&r, 0, k);
        tail = slice(&r, k, r.len());
        assert(host@ =~= r@.take(k as int));
        assert(tail@ =~= r@.skip(k as int));
    } else {
        host = Vec::new();
        tail = copy(rest);
        assert(host@ =~= rest@.take(0));
        assert(tail@ =~= rest@.skip(0));
    }
    let mut path = percent_decode(&without_marks(&tail));
    if host.len() > 0 && !(is(&to_lower(&host), "localhost")) {
        let mut p = chars_of("//");
        push_all(&mut p, &host);
        push_all(&mut p, &path);
        path = p;
    }
    if path.len() >= 4 && path[0] == '/' && (('a' <= path[1] && path[1] <= 'z') || ('A' <= path[1]
        && path[1] <= 'Z')) && path[2] == ':' && (path[3] == '/' || path[3] == '\\') {
        let r = slice(&path, 1, path.len());
        assert(r@ =~= path@.skip(1));
        r
    } else {
        path
    }
}

/// The path that a local location names: a file address, a drive, or a text
/// without scheme or host.
pub open spec fn local(s: Seq<char>) -> Option<Seq<char>> {
    let v = strip(s);
    match scheme(v) {
        Some(k) => if lowered(k) == "file"@ {
            Some(file_path(v.skip(5)))
        } else if k.len() == 1 && !has_prefix(v.skip(2), "//"@) {
            Some(v)
        } else {
            None
        },
        None => if has_prefix(v, "//"@) {
            None
        } else {
            Some(v)
        },
    }
}

/// The path that a local location names.
pub fn local_path(s: &Vec<char>) -> (r: Option<Vec<char>>)
    ensures
        opt_text(r) == local(s@),
{
    let v = trim(s);
    match scheme_of(&v) {
        Some(k) => {
            if is(&to_lower(&k), "file") {
                proof {
                    reveal_strlit("file");
                    assert(lowered(k@).len() == k@.len());
                    assert("file"@.len() == 4);
                }
                let rest = slice(&v, 5, v.len());
                assert(rest@ =~= v@.skip(5));
                return Some(path_of_file(&rest));
            }
            if k.len() == 1 {
                let rest = slice(&v, 2, v.len());
                assert(rest@ =~= v@.skip(2));
                if !starts_with(&rest, "//") {
                    return Some(v);
                }
            }
            None
        },
        None => if starts_with(&v, "//") {
            None
        } else {
            Some(v)
        },
    }
}

// ------------------------------------------------------------ joining

/// What stands behind an address's scheme.
pub open spec fn behind_scheme(base: Seq<char>) -> Seq<char> {
    base.skip(scheme(base)->0.len() as int + 1)
}

/// The length of an address's host with the slashes before it, if it has one.
pub open spec fn authority(s: Seq<char>) -> int {
    if has_prefix(s, "//"@) {
        2 + host_end(s.skip(2), 0)
    } else {
        0
    }
}

/// An address without its fragment.
pub open spec fn unfragmented(s: Seq<char>) -> Seq<char> {
    s.take(index_from(s, '#', 0))
}

/// Whether a step is a dot segment.
pub open spec fn is_dots(s: Seq<char>) -> bool {
    s == "."@ || s == ".."@
}

/// The steps from `i` on without the empty ones between the first and the
/// last, added to `done`.
pub open spec fn dense_from(v: Seq<Seq<char>>, i: int, done: Seq<Seq<char>>) -> Seq<Seq<char>>
    decreases v.len() - i,
{
    if i >= v.len() {
        done
    } else if 0 < i < v.len() - 1 && v[i].len() == 0 {
        dense_from(v, i + 1, done)
    } else {
        dense_from(v, i + 1, done.push(v[i]))
    }
}

/// The steps from `i` on taken behind those of `done`: a single dot stays, a
/// double one goes back, and at the top it stays there.
pub open spec fn resolved_from(v: Seq<Seq<char>>, i: int, done: Seq<Seq<char>>) -> Seq<Seq<char>>
    decreases v.len() - i,
{
    if i >= v.len() {
        done
    } else if v[i] == ".."@ {
        resolved_from(
            v,
            i + 1,
            if done.len() == 0 {
                done
            } else {
                done.drop_last()
            },
        )
    } else if v[i] == "."@ {
        resolved_from(v, i + 1, done)
    } else {
        resolved_from(v, i + 1, done.push(v[i]))
    }
}

/// Steps without dot segments. Where the last one is such a segment, a
/// directory is meant, and an empty step follows.
pub open spec fn resolved(v: Seq<Seq<char>>) -> Seq<Seq<char>> {
    let done = resolved_from(v, 0, seq![]);
    if v.len() > 0 && is_dots(v.last()) {
        done.push(seq![])
    } else {
        done
    }
}

/// The steps of a reference's path, behind those of the directory of the
/// base's path where it is relative. `hosted` says that the base has a host.
pub open spec fn merged(path: Seq<char>, hosted: bool, rel: Seq<char>) -> Seq<Seq<char>> {
    if rooted(rel) {
        splits(rel, '/')
    } else if path.len() == 0 && !hosted {
        dense_from(splits(rel, '/'), 0, seq![])
    } else if path.len() == 0 {
        dense_from(seq![Seq::<char>::empty()] + splits(rel, '/'), 0, seq![])
    } else {
        dense_from(splits(path, '/').drop_last() + splits(rel, '/'), 0, seq![])
    }
}

/// The path made of steps: a slash stands before it where it has a root, and
/// where it would be empty.
pub open spec fn stepped(v: Seq<Seq<char>>, hosted: bool) -> Seq<char> {
    let p = joined(resolved(v), "/"@);
    let root = hosted || (v.len() > 1 && v[0].len() == 0);
    if p.len() == 0 || (root && p[0] != '/') {
        "/"@ + p
    } else {
        p
    }
}

/// A reference resolved against an address. One with a scheme of its own
/// stands alone; a fragment alone stays in the base's document.
pub open spec fn url_joined(base: Seq<char>, reference: Seq<char>) -> Seq<char> {
    if reference.len() == 0 {
        base
    } else if scheme(reference) is Some {
        reference
    } else {
        match scheme(base) {
            None => reference,
            Some(k) => {
                let rest = behind_scheme(base);
                let n = authority(rest);
                let origin = k + ":"@ + rest.take(n);
                let path = unmarked(rest.skip(n));
                if has_prefix(reference, "//"@) {
                    k + ":"@ + reference
                } else if reference[0] == '#' {
                    origin + unfragmented(rest.skip(n)) + reference
                } else if reference[0] == '?' {
                    origin + path + reference
                } else {
                    let m = mark_from(reference, 0);
                    origin + stepped(merged(path, n > 0, reference.take(m)), n > 0)
                        + reference.skip(m)
                }
            },
        }
    }
}

proof fn steps_taken_are_no_dots(v: Seq<Seq<char>>, i: int, done: Seq<Seq<char>>)
    requires
        forall|k: int| 0 <= k < done.len() ==> !is_dots(#[trigger] done[k]),
        0 <= i,
    ensures
        forall|k: int|
            0 <= k < resolved_from(v, i, done).len() ==> !is_dots(
                #[trigger] resolved_from(v, i, done)[k],
            ),
    decreases v.len() - i,
{
    if i < v.len() {
        let next = if v[i] == ".."@ {
            if done.len() == 0 {
                done
            } else {
                done.drop_last()
            }
        } else if v[i] == "."@ {
            done
        } else {
            done.push(v[i])
        };
        assert forall|k: int| 0 <= k < next.len() implies !is_dots(#[trigger] next[k]) by {
            if k < done.len() {
                assert(!is_dots(done[k]));
            }
        }
        steps_taken_are_no_dots(v, i + 1, next);
        assert(resolved_from(v, i, done) == resolved_from(v, i + 1, next));
    }
}

/// No dot segment is left in a resolved path.
pub proof fn resolved_paths_hold_no_dots(v: Seq<Seq<char>>, k: int)
    requires
        0 <= k < resolved(v).len(),
    ensures
        !is_dots(resolved(v)[k]),
{
    reveal_strlit(".");
    reveal_strlit("..");
    assert("."@.len() == 1 && ".."@.len() == 2);
    steps_taken_are_no_dots(v, 0, seq![]);
}

/// A path whose last step is a dot segment is that of a directory: the
/// resolved one ends in an empty step.
pub proof fn dots_at_the_end_mean_a_directory(v: Seq<Seq<char>>)
    requires
        v.len() > 0,
        is_dots(v.last()),
    ensures
        resolved(v).len() > 0,
        resolved(v).last().len() == 0,
{
}

/// An address with a scheme of its own is what it is resolved to, whatever the
/// base.
pub proof fn whole_references_stay(base: Seq<char>, reference: Seq<char>)
    requires
        scheme(reference) is Some,
    ensures
        url_joined(base, reference) == reference,
{
}

fn add_steps(out: &mut Vec<Vec<char>>, v: &Vec<Vec<char>>, n: usize)
    requires
        n <= v@.len(),
    ensures
        texts(final(out)@) == texts(old(out)@) + texts(v@).take(n as int),
{
    let ghost first = texts(out@);
    let mut i: usize = 0;
    assert(first + texts(v@).take(0) =~= first);
    while i < n
        invariant
            i <= n <= v@.len(),
            texts(out@) == first + texts(v@).take(i as int),
        decreases n - i,
    {
        broadcast use texts_push;

        out.push(copy(&v[i]));
        assert(texts(out@) =~= first + texts(v@).take(i + 1));
        i += 1;
    }
}

fn drop_empty_steps(v: &Vec<Vec<char>>) -> (r: Vec<Vec<char>>)
    ensures
        texts(r@) == dense_from(texts(v@), 0, seq![]),
{
    let ghost w = texts(v@);
    let mut out: Vec<Vec<char>> = Vec::new();
    let mut i: usize = 0;
    assert(texts(out@) =~= seq![]);
    while i < v.len()
        invariant
            i <= v@.len(),
            w == texts(v@),
            dense_from(w, 0, seq![]) == dense_from(w, i as int, texts(out@)),
        decreases v@.len() - i,
    {
        broadcast use texts_push;

        assert(w[i as int] == v@[i as int]@);
        if !(0 < i && i < v.len() - 1 && v[i].len() == 0) {
            out.push(copy(&v[i]));
        }
        i += 1;
    }
    out
}

fn resolve_steps(v: &Vec<Vec<char>>) -> (r: Vec<Vec<char>>)
    ensures
        texts(r@) == resolved(texts(v@)),
{
    let ghost w = texts(v@);
    let mut out: Vec<Vec<char>> = Vec::new();
    let mut i: usize = 0;
    assert(texts(out@) =~= seq![]);
    while i < v.len()
        invariant
            i <= v@.len(),
            w == texts(v@),
            resolved_from(w, 0, seq![]) == resolved_from(w, i as int, texts(out@)),
        decreases v@.len() - i,
    {
        broadcast use texts_push;

        assert(w[i as int] == v@[i as int]@);
        let ghost before = out@;
        if is(&v[i], "..") {
            let _ = out.pop();
            assert(texts(out@) =~= if texts(before).len() == 0 {
                texts(before)
            } else {
                texts(before).drop_last()
            });
        } else if !(is(&v[i], ".")) {
            out.push(copy(&v[i]));
        }
        i += 1;
    }
    let n: usize = v.len();
    if n > 0 {
        assert(w.last() == v@[n - 1]@);
        if is(&v[n - 1], ".") || is(&v[n - 1], "..") {
            let none: Vec<char> = Vec::new();
            assert(none@ =~= seq![]);
            proof {
                texts_push(out@, none);
            }
            out.push(none);
        }
    }
    out
}

fn merge_steps(path: &Vec<char>, hosted: bool, rel: &Vec<char>) -> (r: Vec<Vec<char>>)
    ensures
        texts(r@) == merged(path@, hosted, rel@),
{
    let own = split(rel, '/');
    if rel.len() > 0 && rel[0] == '/' {
        return own;
    }
    if path.len() == 0 && !hosted {
        return drop_empty_steps(&own);
    }
    let mut all: Vec<Vec<char>> = Vec::new();
    assert(texts(all@) =~= seq![]);
    if path.len() == 0 {
        let none: Vec<char> = Vec::new();
        assert(none@ =~= seq![]);
        proof {
            texts_push(all@, none);
        }
        all.push(none);
        assert(texts(all@) =~= seq![Seq::<char>::empty()]);
    } else {
        let dir = split(path, '/');
        let n: usize = dir.len() - 1;
        add_steps(&mut all, &dir, n);
        assert(texts(all@) =~= splits(path@, '/').drop_last());
    }
    let ghost dir = texts(all@);
    let n: usize = own.len();
    add_steps(&mut all, &own, n);
    assert(texts(all@) =~= dir + splits(rel@, '/'));
    drop_empty_steps(&all)
}

fn path_of_steps(v: &Vec<Vec<char>>, hosted: bool) -> (r: Vec<char>)
    ensures
        r@ == stepped(texts(v@), hosted),
{
    let p = join(&resolve_steps(v), "/");
    let root = hosted || (v.len() > 1 && v[0].len() == 0);
    assert(v@.len() > 0 ==> texts(v@)[0] == v@[0]@);
    if p.len() == 0 || (root && p[0] != '/') {
        let mut q = chars_of("/");
        push_all(&mut q, &p);
        q
    } else {
        p
    }
}

/// A reference resolved against an address.
pub fn urljoin(base: &Vec<char>, reference: &Vec<char>) -> (r: Vec<char>)
    ensures
        r@ == url_joined(base@, reference@),
{
    if reference.len() == 0 {
        return copy(base);
    }
    if scheme_of(reference).is_some() {
        return copy(reference);
    }
    let k = match scheme_of(base) {
        None => {
            return copy(reference);
        },
        Some(k) => k,
    };
    let end: usize = base.len();
    let rest = slice(base, k.len() + 1, end);
    assert(rest@ =~= behind_scheme(base@));
    let mut n: usize = 0;
    if starts_with(&rest, "//") {
        proof {
            reveal_strlit("//");
        }
        let r = slice(&rest, 2, rest.len());
        assert(r@ =~= rest@.skip(2));
        n = 2 + find_host_end(&r);
    }
    let head = slice(&rest, 0, n);
    let tail = slice(&rest, n, rest.len());
    assert(head@ =~= rest@.take(n as int));
    assert(tail@ =~= rest@.skip(n as int));
    let mut out = copy(&k);
    push_str(&mut out, ":");
    if starts_with(reference, "//") {
        push_all(&mut out, reference);
        return out;
    }
    push_all(&mut out, &head);
    if reference[0] == '#' {
        let whole = slice(&tail, 0, find_from(&tail, '#', 0));
        assert(whole@ =~= unfragmented(tail@));
        push_all(&mut out, &whole);
        push_all(&mut out, reference);
        return out;
    }
    let path = without_marks(&tail);
    if reference[0] == '?' {
        push_all(&mut out, &path);
        push_all(&mut out, reference);
        return out;
    }
    let m = find_mark(reference);
    let ref_path = slice(reference, 0, m);
    let tail = slice(reference, m, reference.len());
    assert(ref_path@ =~= reference@.take(m as int));
    assert(tail@ =~= reference@.skip(m as int));
    let steps = merge_steps(&path, n > 0, &ref_path);
    push_all(&mut out, &path_of_steps(&steps, n > 0));
    push_all(&mut out, &tail);
    out
}

/// A text without the slashes before it.
pub open spec fn unslashed(s: Seq<char>) -> Seq<char>
    decreases s.len(),
{
    if s.len() > 0 && s[0] == '/' {
        unslashed(s.skip(1))
    } else {
        s
    }
}

fn trim_slashes(s: &Vec<char>) -> (r: Vec<char>)
    ensures
        r@ == unslashed(s@),
{
    let mut i: usize = 0;
    assert(s@.skip(0) =~= s@);
    while i < s.len() && s[i] == '/'
        invariant
            i <= s@.len(),
            unslashed(s@) == unslashed(s@.skip(i as int)),
        decreases s@.len() - i,
    {
        assert(s@.skip(i as int).skip(1) =~= s@.skip(i + 1));
        i += 1;
    }
    let r = slice(s, i, s.len());
    assert(r@ =~= s@.skip(i as int));
    r
}

/// A path with forward slashes.
pub open spec fn forward(s: Seq<char>) -> Seq<char> {
    replaced(s, '\\', '/')
}

/// A location resolved against a base.
pub open spec fn location_joined(base: Seq<char>, location: Seq<char>) -> Seq<char> {
    let l = strip(location);
    if (local(l) is None && scheme(l) is Some) || has_prefix(l, "//"@) {
        l
    } else if has_prefix(base, "thismessage:"@) {
        let b = forward(unmarked(base.skip("thismessage:"@.len() as int)));
        "thismessage:/"@ + unslashed(normal_path(path_in(dirname(b), forward(l))))
    } else {
        match (local(base), local(l)) {
            (Some(b), Some(p)) => normal_path(path_in(dirname(forward(b)), forward(p))),
            _ => url_joined(base, l),
        }
    }
}

/// A location with a scheme of its own needs no base, unless it names a file.
pub proof fn whole_addresses_need_no_base(base: Seq<char>, other: Seq<char>, location: Seq<char>)
    requires
        local(strip(location)) is None,
        scheme(strip(location)) is Some,
    ensures
        location_joined(base, location) == strip(location),
        location_joined(base, location) == location_joined(other, location),
{
}

pub(crate) fn joined_location(base: &Vec<char>, location: &Vec<char>) -> (r: Vec<char>)
    ensures
        r@ == location_joined(base@, location@),
{
    let l = trim(location);
    let own = local_path(&l);
    let has_scheme = match scheme_of(&l) {
        Some(_) => true,
        None => false,
    };
    let is_local = match &own {
        Some(_) => true,
        None => false,
    };
    if (!is_local && has_scheme) || starts_with(&l, "//") {
        return l;
    }
    if starts_with(base, "thismessage:") {
        let skip: usize = chars_of("thismessage:").len();
        let rest = slice(base, skip, base.len());
        assert(rest@ =~= base@.skip("thismessage:"@.len() as int));
        let b = replace_char(&without_marks(&rest), '\\', '/');
        let joined = normalize_path(
            &posix_join(&posix_dirname(&b), &replace_char(&l, '\\', '/')),
        );
        let mut out = chars_of("thismessage:/");
        push_all(&mut out, &trim_slashes(&joined));
        return out;
    }
    match (local_path(base), own) {
        (Some(b), Some(p)) => normalize_path(
            &posix_join(
                &posix_dirname(&replace_char(&b, '\\', '/')),
                &replace_char(&p, '\\', '/'),
            ),
        ),
        _ => urljoin(base, &l),
    }
}

/// A location resolved against a base.
pub fn join_location(base: &str, location: &str) -> (r: String)
    ensures
        r@ == location_joined(base@, location@),
{
    string_of(&joined_location(&chars_of(base), &chars_of(location)))
}

/// The base of an archive whose page is at a location. A page with none, and
/// a local one, is placed under an origin of its own.
pub open spec fn base_of(location: Option<Seq<char>>) -> Seq<char> {
    match location {
        None => "thismessage:/"@,
        Some(l) => if l.len() == 0 {
            "thismessage:/"@
        } else if has_prefix(l, "//"@) {
            "https:"@ + l
        } else if is_remote(l) {
            l
        } else {
            match local(l) {
                Some(p) => location_joined("thismessage:/"@, p),
                None => if scheme(l) is Some {
                    l
                } else {
                    location_joined("thismessage:/"@, l)
                },
            }
        },
    }
}

/// The base of an archive whose page is at a location.
pub fn resolve_base(root_location: Option<&str>) -> (r: String)
    ensures
        r@ == base_of(
            match root_location {
                Some(s) => Some(s@),
                None => None,
            },
        ),
{
    let l = match root_location {
        None => {
            return string_of(&chars_of("thismessage:/"));
        },
        Some(s) => chars_of(s),
    };
    let origin = chars_of("thismessage:/");
    if l.len() == 0 {
        return string_of(&origin);
    }
    if starts_with(&l, "//") {
        let mut out = chars_of("https:");
        push_all(&mut out, &l);
        return string_of(&out);
    }
    if is_remote_url(&l) {
        return string_of(&l);
    }
    match local_path(&l) {
        Some(p) => string_of(&joined_location(&origin, &p)),
        None => {
            match scheme_of(&l) {
                Some(_) => string_of(&l),
                None => string_of(&joined_location(&origin, &l)),
            }
        },
    }
}

} // verus!
