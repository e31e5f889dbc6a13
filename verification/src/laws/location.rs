//! Laws of paths and addresses: how a reference is resolved against the place
//! of the document that holds it.

use crate::laws::lines::parts_stand_between_separators;
use crate::location::{
    authority, base_of, behind_scheme, dense_from, dirname, hex_byte, hex_digit, host_end,
    is_remote, is_scheme, last_slash, letter, mark_from, merged, path_in, resolved, resolved_from,
    scheme, scheme_char, stepped, steps, undriven, unescaped, unslashed, url_joined,
};
use crate::text::{has_prefix, index_from, index_from_is_first, joined, lowered, splits};
use vstd::prelude::*;

verus! {

// ------------------------------------------------------------ paths

proof fn the_last_slash_is_there(s: Seq<char>, n: int, k: int)
    requires
        0 <= k < n <= s.len(),
        s[k] == '/',
        forall|i: int| k < i < n ==> #[trigger] s[i] != '/',
    ensures
        last_slash(s, n) == k,
    decreases n,
{
    if n - 1 > k {
        assert(s[n - 1] != '/');
        the_last_slash_is_there(s, n - 1, k);
    }
}

proof fn there_is_no_slash(s: Seq<char>, n: int)
    requires
        0 <= n <= s.len(),
        forall|i: int| 0 <= i < n ==> #[trigger] s[i] != '/',
    ensures
        last_slash(s, n) == -1,
    decreases n,
{
    if n > 0 {
        assert(s[n - 1] != '/');
        there_is_no_slash(s, n - 1);
    }
}

/// A file lies in what stands before the last slash of its path; the root is
/// the slash itself, and a bare name lies nowhere.
pub proof fn files_lie_in_their_directory(dir: Seq<char>, name: Seq<char>)
    requires
        forall|i: int| 0 <= i < name.len() ==> #[trigger] name[i] != '/',
    ensures
        dir.len() > 0 ==> dirname(dir.push('/') + name) == dir,
        dirname(seq!['/'] + name) == seq!['/'],
        dirname(name) == Seq::<char>::empty(),
{
    reveal_strlit("/");
    reveal_strlit("");
    let s = dir.push('/') + name;
    assert forall|i: int| dir.len() < i < s.len() implies #[trigger] s[i] != '/' by {
        assert(s[i] == name[i - dir.len() - 1]);
    }
    assert(s[dir.len() as int] == '/');
    the_last_slash_is_there(s, s.len() as int, dir.len() as int);
    assert(s.take(dir.len() as int) =~= dir);
    let r = seq!['/'] + name;
    assert forall|i: int| 0 < i < r.len() implies #[trigger] r[i] != '/' by {
        assert(r[i] == name[i - 1]);
    }
    the_last_slash_is_there(r, r.len() as int, 0);
    assert("/"@ =~= seq!['/']);
    there_is_no_slash(name, name.len() as int);
    assert(""@ =~= seq![]);
}

/// A path in a directory stands behind it and a slash; one from the root
/// stands for itself.
pub proof fn paths_stand_in_a_directory(dir: Seq<char>, rel: Seq<char>)
    ensures
        path_in(dir, seq!['/'] + rel) == seq!['/'] + rel,
        path_in(seq![], rel) == rel,
        dir.len() > 0 && dir.last() != '/' && rel.len() > 0 && rel[0] != '/' ==> path_in(dir, rel)
            == dir.push('/') + rel,
{
    reveal_strlit("/");
    assert(dir + "/"@ =~= dir.push('/'));
}

proof fn steps_go_on(
    parts: Seq<Seq<char>>,
    p: Seq<char>,
    i: int,
    rooted: bool,
    done: Seq<Seq<char>>,
)
    requires
        0 <= i <= parts.len(),
    ensures
        steps(parts.push(p), i, rooted, done) == steps(
            parts.push(p),
            parts.len() as int,
            rooted,
            steps(parts, i, rooted, done),
        ),
    decreases parts.len() - i,
{
    if i < parts.len() {
        assert(parts.push(p)[i] == parts[i]);
        let q = parts[i];
        steps_go_on(
            parts,
            p,
            i + 1,
            rooted,
            if q.len() == 0 || q == "."@ {
                done
            } else if q == ".."@ {
                if done.len() > 0 && done.last() != ".."@ {
                    done.drop_last()
                } else if !rooted {
                    done.push(q)
                } else {
                    done
                }
            } else {
                done.push(q)
            },
        );
    }
}

/// A step of a path goes on to its name; a dot stays, and two dots go back,
/// from the root nowhere.
pub proof fn two_dots_go_back(parts: Seq<Seq<char>>, p: Seq<char>, root: bool)
    ensures
        ({
            let before = steps(parts, 0, root, seq![]);
            let after = steps(parts.push(p), 0, root, seq![]);
            &&& p.len() == 0 || p == "."@ ==> after == before
            &&& p == ".."@ && before.len() > 0 && before.last() != ".."@ ==> after
                == before.drop_last()
            &&& p == ".."@ && before.len() == 0 && root ==> after == before
            &&& p == ".."@ && before.len() == 0 && !root ==> after == seq![p]
            &&& p.len() > 0 && p != "."@ && p != ".."@ ==> after == before + seq![p]
        }),
{
    reveal_strlit(".");
    reveal_strlit("..");
    assert("."@.len() == 1 && ".."@.len() == 2);
    steps_go_on(parts, p, 0, root, seq![]);
    assert(parts.push(p)[parts.len() as int] == p);
    let before = steps(parts, 0, root, seq![]);
    assert(before.push(p) =~= before + seq![p]);
    reveal_with_fuel(steps, 2);
}

proof fn resolving_goes_on(v: Seq<Seq<char>>, p: Seq<char>, i: int, done: Seq<Seq<char>>)
    requires
        0 <= i <= v.len(),
    ensures
        resolved_from(v.push(p), i, done) == resolved_from(
            v.push(p),
            v.len() as int,
            resolved_from(v, i, done),
        ),
    decreases v.len() - i,
{
    if i < v.len() {
        assert(v.push(p)[i] == v[i]);
        resolving_goes_on(
            v,
            p,
            i + 1,
            if v[i] == ".."@ {
                if done.len() == 0 {
                    done
                } else {
                    done.drop_last()
                }
            } else if v[i] == "."@ {
                done
            } else {
                done.push(v[i])
            },
        );
    }
}

/// In an address two dots take the step before them back, and a dot is none.
pub proof fn dots_of_addresses_are_resolved(v: Seq<Seq<char>>, p: Seq<char>)
    ensures
        ({
            let before = resolved_from(v, 0, seq![]);
            let after = resolved_from(v.push(p), 0, seq![]);
            &&& p == ".."@ && before.len() > 0 ==> after == before.drop_last()
            &&& p == ".."@ && before.len() == 0 ==> after == before
            &&& p == "."@ ==> after == before
            &&& p != ".."@ && p != "."@ ==> after == before + seq![p]
        }),
{
    reveal_strlit(".");
    reveal_strlit("..");
    assert("."@.len() == 1 && ".."@.len() == 2);
    resolving_goes_on(v, p, 0, seq![]);
    assert(v.push(p)[v.len() as int] == p);
    let before = resolved_from(v, 0, seq![]);
    assert(before.push(p) =~= before + seq![p]);
    reveal_with_fuel(resolved_from, 2);
}

// ------------------------------------------------------------ escapes

/// The digit of a number below sixteen.
pub open spec fn hex_of(n: int) -> u8 {
    if n < 10 {
        (48 + n) as u8
    } else {
        (55 + n) as u8
    }
}

proof fn unescaping_adds_up(b: Seq<u8>, i: int, out: Seq<u8>)
    requires
        0 <= i,
    ensures
        unescaped(b, i, out) == out + unescaped(b, i, seq![]),
    decreases b.len() - i,
{
    if i < b.len() {
        if b[i] == 37 && i + 2 < b.len() && hex_byte(b[i + 1], b[i + 2]) is Some {
            let x = (hex_byte(b[i + 1], b[i + 2])->0) as u8;
            unescaping_adds_up(b, i + 3, out.push(x));
            unescaping_adds_up(b, i + 3, Seq::<u8>::empty().push(x));
            assert(out.push(x) =~= out + Seq::<u8>::empty().push(x));
        } else {
            unescaping_adds_up(b, i + 1, out.push(b[i]));
            unescaping_adds_up(b, i + 1, Seq::<u8>::empty().push(b[i]));
            assert(out.push(b[i]) =~= out + Seq::<u8>::empty().push(b[i]));
        }
    } else {
        assert(out + seq![] =~= out);
    }
}

proof fn unescaping_moves(a: Seq<u8>, b: Seq<u8>, i: int, out: Seq<u8>)
    requires
        0 <= i <= b.len(),
    ensures
        unescaped(a + b, a.len() + i, out) == unescaped(b, i, out),
    decreases b.len() - i,
{
    let s = a + b;
    if i < b.len() {
        assert(s[a.len() + i] == b[i]);
        if i + 2 < b.len() {
            assert(s[a.len() + i + 1] == b[i + 1]);
            assert(s[a.len() + i + 2] == b[i + 2]);
        }
        if b[i] == 37 && i + 2 < b.len() && hex_byte(b[i + 1], b[i + 2]) is Some {
            unescaping_moves(a, b, i + 3, out.push((hex_byte(b[i + 1], b[i + 2])->0) as u8));
        } else {
            unescaping_moves(a, b, i + 1, out.push(b[i]));
        }
    }
}

/// A percent sign with two hexadecimal digits stands for the byte of that
/// number, and every other byte for itself.
pub proof fn escapes_stand_for_bytes(n: u8, c: u8, rest: Seq<u8>)
    ensures
        unescaped(seq![37u8, hex_of(n as int / 16), hex_of(n as int % 16)] + rest, 0, seq![])
            == seq![n] + unescaped(rest, 0, seq![]),
        c != 37 ==> unescaped(seq![c] + rest, 0, seq![]) == seq![c] + unescaped(rest, 0, seq![]),
{
    let x = hex_of(n as int / 16);
    let y = hex_of(n as int % 16);
    assert(hex_digit(x) == Some(n as int / 16));
    assert(hex_digit(y) == Some(n as int % 16));
    assert(hex_byte(x, y) == Some(n as int));
    let a = seq![37u8, x, y];
    let s = a + rest;
    assert(s[0] == 37 && s[1] == x && s[2] == y);
    assert(Seq::<u8>::empty().push(n) =~= seq![n]);
    unescaping_moves(a, rest, 0, seq![n]);
    unescaping_adds_up(rest, 0, seq![n]);
    let t = seq![c] + rest;
    assert(t[0] == c);
    assert(Seq::<u8>::empty().push(c) =~= seq![c]);
    unescaping_moves(seq![c], rest, 0, seq![c]);
    unescaping_adds_up(rest, 0, seq![c]);
}

/// A path that begins with a slash and a drive is that of the drive; leading
/// slashes can be taken off.
pub proof fn drives_lose_their_slash(d: char, s: Seq<char>)
    requires
        'A' <= d <= 'Z' || 'a' <= d <= 'z',
    ensures
        undriven(seq!['/', d, ':', '/'] + s) == seq![d, ':', '/'] + s,
        s.len() == 0 || s[0] != '/' ==> undriven(s) == s,
        unslashed(seq!['/'] + s) == unslashed(s),
        s.len() == 0 || s[0] != '/' ==> unslashed(s) == s,
{
    let t = seq!['/', d, ':', '/'] + s;
    assert(t.skip(1) =~= seq![d, ':', '/'] + s);
    assert((seq!['/'] + s).skip(1) =~= s);
}

// ------------------------------------------------------------ addresses

/// Whether `k` is the scheme of an address.
pub open spec fn schemes(k: Seq<char>) -> bool {
    k.len() > 0 && forall|i: int| 0 <= i < k.len() ==> 'a' <= #[trigger] k[i] <= 'z'
}

/// Whether `s` holds nothing that ends a host or a path.
pub open spec fn plain(s: Seq<char>) -> bool {
    forall|i: int|
        0 <= i < s.len() ==> #[trigger] s[i] != '/' && s[i] != '?' && s[i] != '#' && s[i] != ':'
}

proof fn a_scheme_is_found(k: Seq<char>, rest: Seq<char>)
    requires
        schemes(k),
    ensures
        scheme(k.push(':') + rest) == Some(k),
        behind_scheme(k.push(':') + rest) == rest,
{
    let s = k.push(':') + rest;
    index_from_is_first(s, ':', 0);
    let n = index_from(s, ':', 0);
    assert(s[k.len() as int] == ':');
    if n < k.len() {
        assert(s[n] == k[n]);
        assert(k[n] >= 'a');
    }
    assert(n == k.len());
    assert(s.take(n) =~= k);
    assert(k[0] >= 'a' && k[0] <= 'z');
    assert forall|i: int| 1 <= i < k.len() implies scheme_char(#[trigger] k[i]) by {
        assert('a' <= k[i] <= 'z');
    }
    assert(is_scheme(k));
    assert(s.skip(k.len() as int + 1) =~= rest);
}

proof fn a_host_ends(host: Seq<char>, rest: Seq<char>, i: int)
    requires
        plain(host),
        rest.len() == 0 || rest[0] == '/' || rest[0] == '?' || rest[0] == '#',
        0 <= i <= host.len(),
    ensures
        host_end(host + rest, i) == host.len(),
    decreases host.len() - i,
{
    let s = host + rest;
    if i < host.len() {
        assert(s[i] == host[i]);
        a_host_ends(host, rest, i + 1);
    } else if rest.len() > 0 {
        assert(s[i] == rest[0]);
    }
}

proof fn there_is_no_mark(s: Seq<char>, i: int)
    requires
        0 <= i <= s.len(),
        forall|k: int| 0 <= k < s.len() ==> #[trigger] s[k] != '?' && s[k] != '#',
    ensures
        mark_from(s, i) == s.len(),
    decreases s.len() - i,
{
    if i < s.len() {
        assert(s[i] != '?' && s[i] != '#');
        there_is_no_mark(s, i + 1);
    }
}

/// A reference with a scheme stands for itself, and an empty one for the
/// document.
pub proof fn whole_references_stand_for_themselves(base: Seq<char>, k: Seq<char>, rest: Seq<char>)
    requires
        schemes(k),
    ensures
        url_joined(base, k.push(':') + rest) == k.push(':') + rest,
        url_joined(base, seq![]) == base,
{
    a_scheme_is_found(k, rest);
}

proof fn slashed_references_have_no_scheme(r: Seq<char>)
    requires
        r.len() > 0,
        r[0] == '/' || r[0] == '#' || r[0] == '?',
    ensures
        scheme(r) is None,
{
    index_from_is_first(r, ':', 0);
    let n = index_from(r, ':', 0);
    if n < r.len() {
        assert(n != 0);
        assert(r.take(n)[0] == r[0]);
        assert(!(letter(r[0])));
    }
}

/// A reference with a host of its own has the scheme of the document; a
/// fragment is added to the address of the document without its own.
pub proof fn hosts_and_fragments_are_resolved(
    k: Seq<char>,
    host: Seq<char>,
    path: Seq<char>,
    r: Seq<char>,
)
    requires
        schemes(k),
        plain(host),
        path.len() > 0,
        path[0] == '/',
        forall|i: int| 0 <= i < path.len() ==> #[trigger] path[i] != '?' && path[i] != '#',
    ensures
        ({
            let base = k.push(':').push('/').push('/') + host + path;
            &&& url_joined(base, seq!['/', '/'] + r) == k.push(':').push('/').push('/') + r
            &&& url_joined(base, seq!['#'] + r) == base.push('#') + r
            &&& url_joined(base, seq!['?'] + r) == base.push('?') + r
        }),
{
    reveal_strlit("//");
    reveal_strlit(":");
    let rest = seq!['/', '/'] + host + path;
    let base = k.push(':').push('/').push('/') + host + path;
    assert(base =~= k.push(':') + rest);
    a_scheme_is_found(k, rest);
    an_authority_ends(host, path);
    let n = 2 + host.len() as int;
    assert(rest.take(n) =~= seq!['/', '/'] + host);
    assert(rest.skip(n) =~= path);
    there_is_no_mark(path, 0);
    assert(path.take(path.len() as int) =~= path);
    index_from_is_first(path, '#', 0);
    assert(index_from(path, '#', 0) == path.len()) by {
        let j = index_from(path, '#', 0);
        if j < path.len() {
            assert(path[j] != '#');
        }
    }
    let a = seq!['/', '/'] + r;
    slashed_references_have_no_scheme(a);
    assert(a.take(2) =~= "//"@);
    assert(has_prefix(a, "//"@));
    assert(k + ":"@ + a =~= k.push(':').push('/').push('/') + r);
    let origin = k + ":"@ + rest.take(n);
    assert(origin + path =~= base);
    let b = seq!['#'] + r;
    slashed_references_have_no_scheme(b);
    assert(b[0] == '#');
    assert(!has_prefix(b, "//"@)) by {
        if has_prefix(b, "//"@) {
            assert(b.take(2)[0] == "//"@[0]);
        }
    }
    assert(base + b =~= base.push('#') + r);
    let c = seq!['?'] + r;
    slashed_references_have_no_scheme(c);
    assert(c[0] == '?');
    assert(!has_prefix(c, "//"@)) by {
        if has_prefix(c, "//"@) {
            assert(c.take(2)[0] == "//"@[0]);
        }
    }
    assert(base + c =~= base.push('?') + r);
}

proof fn an_authority_ends(host: Seq<char>, path: Seq<char>)
    requires
        plain(host),
        path.len() > 0,
        path[0] == '/',
    ensures
        authority(seq!['/', '/'] + host + path) == 2 + host.len(),
{
    reveal_strlit("//");
    let rest = seq!['/', '/'] + host + path;
    assert(rest.take(2) =~= "//"@);
    assert(has_prefix(rest, "//"@));
    assert(rest.skip(2) =~= host + path);
    a_host_ends(host, path, 0);
}

/// Whether `s` is the name of a step, and no dots.
pub open spec fn names_a_step(s: Seq<char>) -> bool {
    s.len() > 0 && plain(s) && s != "."@ && s != ".."@
}

proof fn steps_of_a_path(d: Seq<char>, f: Seq<char>)
    requires
        plain(d),
        plain(f),
    ensures
        splits(d, '/') == seq![d],
        splits(seq!['/'] + d, '/') == seq![Seq::<char>::empty(), d],
        splits(seq!['/'] + d.push('/') + f, '/') == seq![Seq::<char>::empty(), d, f],
{
    let none = Seq::<char>::empty();
    assert forall|k: int| 0 <= k < d.len() implies #[trigger] d[k] != '/' by {}
    assert forall|k: int| 0 <= k < f.len() implies #[trigger] f[k] != '/' by {}
    parts_stand_between_separators(d, '/', f);
    parts_stand_between_separators(f, '/', f);
    parts_stand_between_separators(none, '/', d);
    parts_stand_between_separators(none, '/', d.push('/') + f);
    assert(none.push('/') + d =~= seq!['/'] + d);
    assert(none.push('/') + (d.push('/') + f) =~= seq!['/'] + d.push('/') + f);
    assert(seq![none] + seq![d] =~= seq![none, d]);
    assert(seq![none] + (seq![d] + seq![f]) =~= seq![none, d, f]);
}

proof fn dense_paths_stay(v: Seq<Seq<char>>, i: int)
    requires
        0 <= i <= v.len(),
        forall|k: int| 0 < k < v.len() - 1 ==> (#[trigger] v[k]).len() > 0,
    ensures
        dense_from(v, i, v.take(i)) == v,
    decreases v.len() - i,
{
    if i < v.len() {
        assert(v.take(i).push(v[i]) =~= v.take(i + 1));
        dense_paths_stay(v, i + 1);
    } else {
        assert(v.take(i) =~= v);
    }
}

proof fn plain_paths_stay(v: Seq<Seq<char>>, i: int)
    requires
        0 <= i <= v.len(),
        forall|k: int| 0 <= k < v.len() ==> #[trigger] v[k] != "."@ && v[k] != ".."@,
    ensures
        resolved_from(v, i, v.take(i)) == v,
    decreases v.len() - i,
{
    if i < v.len() {
        assert(v[i] != "."@ && v[i] != ".."@);
        assert(v.take(i).push(v[i]) =~= v.take(i + 1));
        plain_paths_stay(v, i + 1);
    } else {
        assert(v.take(i) =~= v);
    }
}

proof fn plain_references(r: Seq<char>)
    requires
        names_a_step(r),
    ensures
        scheme(r) is None,
        !has_prefix(r, "//"@),
        mark_from(r, 0) == r.len(),
{
    reveal_strlit("//");
    index_from_is_first(r, ':', 0);
    let n = index_from(r, ':', 0);
    if n < r.len() {
        assert(r[n] != ':');
    }
    if has_prefix(r, "//"@) {
        assert(r.take(2)[0] == "//"@[0]);
        assert(r[0] != '/');
    }
    assert forall|k: int| 0 <= k < r.len() implies #[trigger] r[k] != '?' && r[k] != '#' by {}
    there_is_no_mark(r, 0);
}

proof fn a_name_takes_the_place_of_a_file(d: Seq<char>, f: Seq<char>, r: Seq<char>)
    requires
        names_a_step(d),
        plain(f),
        names_a_step(r),
    ensures
        stepped(merged(seq!['/'] + d.push('/') + f, true, r), true) == seq!['/'] + d.push('/') + r,
{
    let none = Seq::<char>::empty();
    reveal_strlit("/");
    reveal_strlit(".");
    reveal_strlit("..");
    steps_of_a_path(d, f);
    steps_of_a_path(r, f);
    let path = seq!['/'] + d.push('/') + f;
    let v = seq![none, d, r];
    assert(path.len() > 0);
    assert(r[0] != '/');
    assert(seq![none, d, f].drop_last() + seq![r] =~= v);
    dense_paths_stay(v, 0);
    assert(v.take(0) =~= seq![]);
    assert(merged(path, true, r) == v);
    assert forall|k: int| 0 <= k < v.len() implies #[trigger] v[k] != "."@ && v[k] != ".."@ by {
        assert("."@.len() == 1 && ".."@.len() == 2);
    }
    plain_paths_stay(v, 0);
    assert(v.last() == r);
    assert(resolved(v) == v);
    assert(v.drop_last() =~= seq![none, d]);
    assert(seq![none, d].drop_last() =~= seq![none]);
    reveal_with_fuel(joined, 4);
    assert(joined(v, "/"@) =~= seq!['/'] + d.push('/') + r);
}

/// A bare name takes the place of the file of the document's address.
pub proof fn names_take_the_place_of_the_file(
    k: Seq<char>,
    host: Seq<char>,
    d: Seq<char>,
    f: Seq<char>,
    r: Seq<char>,
)
    requires
        schemes(k),
        plain(host),
        names_a_step(d),
        plain(f),
        names_a_step(r),
    ensures
        ({
            let dir = k.push(':').push('/').push('/') + host + (seq!['/'] + d.push('/'));
            url_joined(dir + f, r) == dir + r
        }),
{
    reveal_strlit(":");
    let path = seq!['/'] + d.push('/') + f;
    let rest = seq!['/', '/'] + host + path;
    let dir = k.push(':').push('/').push('/') + host + (seq!['/'] + d.push('/'));
    assert(dir + f =~= k.push(':') + rest);
    a_scheme_is_found(k, rest);
    an_authority_ends(host, path);
    let n = 2 + host.len() as int;
    assert(rest.take(n) =~= seq!['/', '/'] + host);
    assert(rest.skip(n) =~= path);
    assert forall|i: int| 0 <= i < path.len() implies #[trigger] path[i] != '?' && path[i]
        != '#' by {
        if 0 < i <= d.len() {
            assert(path[i] == d[i - 1]);
        } else if i > d.len() + 1 {
            assert(path[i] == f[i - d.len() - 2]);
        }
    }
    there_is_no_mark(path, 0);
    assert(path.take(path.len() as int) =~= path);
    plain_references(r);
    assert(r[0] != '#' && r[0] != '?');
    assert(r.take(r.len() as int) =~= r);
    assert(r.skip(r.len() as int) =~= seq![]);
    a_name_takes_the_place_of_a_file(d, f, r);
    let origin = k + ":"@ + rest.take(n);
    assert(origin + (seq!['/'] + d.push('/') + r) + seq![] =~= dir + r);
}

/// An address of the web or of a store of files is remote; a bare path is
/// not.
pub proof fn web_addresses_are_remote(rest: Seq<char>)
    ensures
        is_remote("http"@.push(':') + rest),
        is_remote("https"@.push(':') + rest),
        is_remote("ftp"@.push(':') + rest),
        !(is_remote(seq!['/'] + rest)),
        base_of(None) == "thismessage:/"@,
{
    reveal_strlit("http");
    reveal_strlit("https");
    reveal_strlit("ftp");
    a_scheme_is_found("http"@, rest);
    a_scheme_is_found("https"@, rest);
    a_scheme_is_found("ftp"@, rest);
    assert(lowered("http"@) =~= "http"@);
    assert(lowered("https"@) =~= "https"@);
    assert(lowered("ftp"@) =~= "ftp"@);
    slashed_references_have_no_scheme(seq!['/'] + rest);
}

} // verus!
