//! File paths as text, with `/` between their components.

use crate::text::{
    chars_of, cut_at, index_of, joined, law_joined_in_parts, law_pieces_in_parts, lemma_cut_at,
    lemma_index_bound, lemma_index_cuts, lemma_index_of, pieces, same, split,
};
use vstd::prelude::*;

verus! {

/// A path that begins at the root.
pub open spec fn is_absolute(p: Seq<char>) -> bool {
    p.len() > 0 && p[0] == '/'
}

/// `b` taken from directory `a`: an absolute `b` stands for itself.
pub open spec fn under(a: Seq<char>, b: Seq<char>) -> Seq<char> {
    if is_absolute(b) {
        b
    } else if a.len() == 0 || a.last() == '/' {
        a + b
    } else {
        a.push('/') + b
    }
}

/// `b` taken from directory `a`.
pub fn join(a: &str, b: &str) -> (r: String)
    ensures
        r@ == under(a@, b@),
{
    let x = chars_of(a);
    let y = chars_of(b);
    if y.len() > 0 && y[0] == '/' {
        return b.to_owned();
    }
    let mut r: String = a.to_owned();
    if x.len() > 0 && x[x.len() - 1] != '/' {
        r.push('/');
    }
    r.append(b);
    r
}

/// A piece of a path that names something: neither empty nor `.`.
pub open spec fn names(piece: Seq<char>) -> bool {
    piece.len() > 0 && piece != seq!['.']
}

/// The last piece of a list that names something.
pub open spec fn last_name(list: Seq<Seq<char>>) -> Option<Seq<char>>
    decreases list.len(),
{
    if list.len() == 0 {
        None
    } else if names(list.last()) {
        Some(list.last())
    } else {
        last_name(list.drop_last())
    }
}

/// The final component of a path, unless that is the root, `.` or `..`.
pub open spec fn base(p: Seq<char>) -> Option<Seq<char>> {
    match last_name(pieces(p, '/')) {
        Some(name) => if name == seq!['.', '.'] {
            None
        } else {
            Some(name)
        },
        None => None,
    }
}

/// The final component of a path, unless that is the root, `.` or `..`.
pub fn file_name(p: &str) -> (r: Option<String>)
    ensures
        r.deep_view() == base(p@),
{
    let parts = split(p, '/');
    let mut n: usize = parts.len();
    let ghost list = parts.deep_view();
    assert(list.take(n as int) == list);
    proof {
        reveal_strlit(".");
        reveal_strlit("..");
        assert("."@ == seq!['.']);
        assert(".."@ == seq!['.', '.']);
    }
    while n > 0
        invariant
            list == parts.deep_view(),
            list == pieces(p@, '/'),
            n <= parts.len(),
            last_name(list) == last_name(list.take(n as int)),
            "."@ == seq!['.'],
            ".."@ == seq!['.', '.'],
        decreases n,
    {
        let piece = parts[n - 1];
        assert(list[n - 1] == piece@);
        assert(list.take(n as int).last() == piece@);
        if !piece.is_empty() && !same(piece, ".") {
            if same(piece, "..") {
                return None;
            }
            return Some(piece.to_owned());
        }
        assert(list.take(n as int).drop_last() == list.take(n - 1));
        n -= 1;
    }
    None
}

/// A path without what names nothing at its end: slashes, and `.` after a
/// slash.
pub open spec fn without_tail(p: Seq<char>) -> Seq<char>
    decreases p.len(),
{
    if p.len() <= 1 {
        p
    } else if p.last() == '/' || (p.last() == '.' && p[p.len() - 2] == '/') {
        without_tail(p.drop_last())
    } else {
        p
    }
}

/// How far a path reaches up to and with its last slash.
pub open spec fn last_slash_end(p: Seq<char>) -> nat
    decreases p.len(),
{
    if p.len() == 0 {
        0
    } else if p.last() == '/' {
        p.len()
    } else {
        last_slash_end(p.drop_last())
    }
}

/// The directory that a path stands in; none for the root and for the empty
/// path.
pub open spec fn above(p: Seq<char>) -> Option<Seq<char>> {
    let t = without_tail(p);
    if t.len() == 0 || t == seq!['/'] {
        None
    } else {
        Some(without_tail(t.take(last_slash_end(t) as int)))
    }
}

/// Cutting the tail of a path off leaves the beginning of it.
pub proof fn lemma_without_tail(p: Seq<char>)
    ensures
        without_tail(p).len() <= p.len(),
        without_tail(p) == p.take(without_tail(p).len() as int),
        without_tail(p).len() > 1 ==> without_tail(p).last() != '/',
        p.len() > 0 ==> without_tail(p).len() > 0,
    decreases p.len(),
{
    if p.len() > 1 && (p.last() == '/' || (p.last() == '.' && p[p.len() - 2] == '/')) {
        lemma_without_tail(p.drop_last());
        let n = without_tail(p).len() as int;
        assert(p.drop_last().take(n) == p.take(n));
    } else {
        assert(p.take(p.len() as int) == p);
    }
}

proof fn lemma_last_slash_end(p: Seq<char>)
    ensures
        last_slash_end(p) <= p.len(),
        last_slash_end(p) == p.len() <==> p.len() == 0 || p.last() == '/',
    decreases p.len(),
{
    if p.len() > 0 {
        lemma_last_slash_end(p.drop_last());
    }
}

/// The directory that a path stands in has a shorter path, which the path
/// begins with.
pub proof fn lemma_above_shorter(p: Seq<char>)
    ensures
        above(p) is Some ==> above(p)->Some_0.len() < p.len(),
        above(p) is Some ==> above(p)->Some_0 == p.take(above(p)->Some_0.len() as int),
{
    let t = without_tail(p);
    lemma_without_tail(p);
    lemma_last_slash_end(t);
    if t.len() > 0 && t != seq!['/'] {
        let d = t.take(last_slash_end(t) as int);
        lemma_without_tail(d);
        assert(t.len() == 1 ==> t =~= seq![t[0]]);
        let n = without_tail(d).len() as int;
        assert(d.take(n) == p.take(n));
    }
}

/// How far a path reaches without its tail.
fn tail_start(v: &Vec<char>, len: usize) -> (n: usize)
    requires
        len <= v.len(),
    ensures
        n <= len,
        v@.take(n as int) == without_tail(v@.take(len as int)),
{
    let mut n: usize = len;
    while n > 1 && (v[n - 1] == '/' || (v[n - 1] == '.' && v[n - 2] == '/'))
        invariant
            n <= len <= v.len(),
            without_tail(v@.take(len as int)) == without_tail(v@.take(n as int)),
        decreases n,
    {
        assert(v@.take(n as int).drop_last() == v@.take(n - 1));
        n -= 1;
    }
    n
}

/// The directory that a path stands in; none for the root and for the empty
/// path.
pub fn parent<'a>(p: &'a str) -> (r: Option<&'a str>)
    ensures
        r.deep_view() == above(p@),
{
    let v = chars_of(p);
    assert(v@.take(v@.len() as int) == v@);
    let n: usize = tail_start(&v, v.len());
    let ghost t = without_tail(p@);
    if n == 0 || (n == 1 && v[0] == '/') {
        assert(n == 1 ==> t =~= seq!['/']);
        return None;
    }
    assert(t != seq!['/']) by {
        if t == seq!['/'] {
            assert(t.len() == 1);
            assert(t[0] == '/');
        }
    }
    let mut k: usize = n;
    assert(t.take(k as int) == t);
    while k > 0 && v[k - 1] != '/'
        invariant
            v@ == p@,
            k <= n <= v.len(),
            t == v@.take(n as int),
            last_slash_end(t) == last_slash_end(t.take(k as int)),
        decreases k,
    {
        assert(t.take(k as int).drop_last() == t.take(k - 1));
        k -= 1;
    }
    assert(t.take(k as int) == v@.take(k as int));
    let m: usize = tail_start(&v, k);
    assert(p@.subrange(0, m as int) == p@.take(m as int));
    Some(p.substring_char(0, m))
}

// ---------------------------------------------------------------------------
// One path from another
// ---------------------------------------------------------------------------

/// A path opens with a component `.`.
pub open spec fn opens_here(p: Seq<char>) -> bool {
    p.len() > 0 && p[0] == '.' && (p.len() == 1 || p[1] == '/')
}

/// A path without what names nothing at its front: slashes, and components
/// `.`.
pub open spec fn without_front(p: Seq<char>) -> Seq<char>
    decreases p.len(),
{
    if is_absolute(p) || opens_here(p) {
        without_front(p.skip(1))
    } else {
        p
    }
}

/// What is left of `p` behind the components of `base`, both without a front;
/// none where `p` has other components there.
pub open spec fn past(p: Seq<char>, base: Seq<char>) -> Option<Seq<char>>
    decreases p.len(),
{
    let n = index_of(p, '/') as int;
    let m = index_of(base, '/') as int;
    if base.len() == 0 {
        Some(p)
    } else if p.len() == 0 || n == 0 || p.take(n) != base.take(m) {
        None
    } else {
        proof {
            lemma_index_bound(p, '/');
            lemma_without_front(p.skip(n));
        }
        past(without_front(p.skip(n)), without_front(base.skip(m)))
    }
}

/// The path `p` as seen from the directory `base`; none where `p` does not
/// begin with the components of `base`.
pub open spec fn relative(p: Seq<char>, base: Seq<char>) -> Option<Seq<char>> {
    if base.len() == 0 {
        Some(without_tail(p))
    } else if is_absolute(p) != is_absolute(base) || opens_here(p) != opens_here(base) {
        None
    } else {
        match past(without_front(p), without_front(base)) {
            Some(rest) => Some(without_tail(rest)),
            None => None,
        }
    }
}

/// Cutting the front of a path off makes it no longer.
pub proof fn lemma_without_front(p: Seq<char>)
    ensures
        without_front(p).len() <= p.len(),
    decreases p.len(),
{
    if is_absolute(p) || opens_here(p) {
        lemma_without_front(p.skip(1));
    }
}

/// A path opens with a component `.`.
fn starts_here(p: &str) -> (r: bool)
    ensures
        r == opens_here(p@),
{
    let v = chars_of(p);
    v.len() > 0 && v[0] == '.' && (v.len() == 1 || v[1] == '/')
}

/// A path that begins at the root.
fn starts_at_root(p: &str) -> (r: bool)
    ensures
        r == is_absolute(p@),
{
    let v = chars_of(p);
    v.len() > 0 && v[0] == '/'
}

/// A path without what names nothing at its front.
fn trim_front<'a>(p: &'a str) -> (r: &'a str)
    ensures
        r@ == without_front(p@),
{
    let v = chars_of(p);
    let mut i: usize = 0;
    assert(p@.skip(0) == p@);
    while i < v.len() && (v[i] == '/' || (v[i] == '.' && (i + 1 == v.len() || v[i + 1] == '/')))
        invariant
            v@ == p@,
            i <= v.len(),
            without_front(p@) == without_front(p@.skip(i as int)),
        decreases v.len() - i,
    {
        assert(p@.skip(i as int).skip(1) == p@.skip(i + 1));
        i += 1;
    }
    assert(p@.skip(i as int) == p@.subrange(i as int, p@.len() as int));
    p.substring_char(i, v.len())
}

/// A path without what names nothing at its end.
fn trim_tail<'a>(p: &'a str) -> (r: &'a str)
    ensures
        r@ == without_tail(p@),
{
    let v = chars_of(p);
    assert(v@.take(v@.len() as int) == v@);
    let n: usize = tail_start(&v, v.len());
    assert(p@.subrange(0, n as int) == p@.take(n as int));
    p.substring_char(0, n)
}

/// The first component of a path without a front, and what follows it.
fn cut_first<'a>(p: &'a str) -> (r: (&'a str, &'a str))
    ensures
        r.0@ == p@.take(index_of(p@, '/') as int),
        r.1@ == p@.skip(index_of(p@, '/') as int),
{
    let v = chars_of(p);
    let mut i: usize = 0;
    while i < v.len() && v[i] != '/'
        invariant
            v@ == p@,
            i <= v.len(),
            forall|j: int| 0 <= j < i ==> p@[j] != '/',
        decreases v.len() - i,
    {
        i += 1;
    }
    proof {
        lemma_index_of(p@, '/', i as int);
        assert(p@.subrange(0, i as int) == p@.take(i as int));
        assert(p@.subrange(i as int, p@.len() as int) == p@.skip(i as int));
    }
    (p.substring_char(0, i), p.substring_char(i, v.len()))
}

/// What is left of `p` behind the components of `base`.
fn strip_body<'a>(p: &'a str, base: &str) -> (r: Option<&'a str>)
    ensures
        r.deep_view() == past(p@, base@),
    decreases p@.len(),
{
    if base.is_empty() {
        return Some(p);
    }
    if p.is_empty() {
        return None;
    }
    let (first, rest) = cut_first(p);
    let (base_first, base_rest) = cut_first(base);
    proof {
        lemma_index_bound(p@, '/');
    }
    if first.is_empty() || !same(first, base_first) {
        return None;
    }
    proof {
        lemma_without_front(rest@);
    }
    strip_body(trim_front(rest), trim_front(base_rest))
}

/// The path `p` as seen from the directory `base`; none where `p` does not
/// begin with the components of `base`.
pub fn strip_prefix<'a>(p: &'a str, base: &str) -> (r: Option<&'a str>)
    ensures
        r.deep_view() == relative(p@, base@),
{
    if base.is_empty() {
        return Some(trim_tail(p));
    }
    if starts_at_root(p) != starts_at_root(base) || starts_here(p) != starts_here(base) {
        return None;
    }
    match strip_body(trim_front(p), trim_front(base)) {
        Some(rest) => Some(trim_tail(rest)),
        None => None,
    }
}

// ---------------------------------------------------------------------------
// Laws
// ---------------------------------------------------------------------------

/// One name of a path, which goes neither nowhere nor up.
pub open spec fn plain_name(name: Seq<char>) -> bool {
    name.len() > 0 && !name.contains('/') && name != seq!['.'] && name != seq!['.', '.']
}

/// What is taken from a directory lies behind it, with one slash between the
/// two; an absolute path stays what it is.
pub proof fn law_under(a: Seq<char>, b: Seq<char>)
    ensures
        b.len() > 0 && b[0] == '/' ==> under(a, b) == b,
        !(b.len() > 0 && b[0] == '/') && a.len() > 0 && a.last() != '/' ==> under(a, b) == a + seq![
            '/',
        ] + b,
        !(b.len() > 0 && b[0] == '/') && (a.len() == 0 || a.last() == '/') ==> under(a, b) == a + b,
{
    assert(a.push('/') + b == a + seq!['/'] + b);
}

/// The final component of a path is the name behind its last slash; slashes
/// at the end do not count.
pub proof fn law_base_is_the_last_name(dir: Seq<char>, name: Seq<char>)
    requires
        plain_name(name),
    ensures
        base(name) == Some(name),
        base(dir + seq!['/'] + name) == Some(name),
        base(dir + seq!['/'] + name + seq!['/']) == Some(name),
{
    lemma_index_cuts(name, '/');
    let p = dir + seq!['/'] + name;
    assert(pieces(name, '/') == seq![name]);
    assert(seq![name].last() == name);
    law_pieces_in_parts(dir, name, '/');
    assert(pieces(p, '/').last() == name);
    let none = Seq::<char>::empty();
    law_pieces_in_parts(p, none, '/');
    assert(p + seq!['/'] + none == p + seq!['/']);
    assert(pieces(none, '/') == seq![none]);
    let list = pieces(p + seq!['/'], '/');
    assert(list.last() == none);
    assert(list.drop_last() == pieces(p, '/'));
}

/// A path stands in the directory before its last slash.
pub proof fn law_above_is_the_directory(dir: Seq<char>, name: Seq<char>)
    requires
        plain_name(name),
        dir.len() > 0 ==> dir.last() != '/',
        dir.len() > 1 ==> !(dir.last() == '.' && dir[dir.len() - 2] == '/'),
    ensures
        above(dir + seq!['/'] + name) == Some(
            if dir.len() == 0 {
                seq!['/']
            } else {
                dir
            },
        ),
{
    let p = dir + seq!['/'] + name;
    let n = dir.len() as int;
    let m = p.len() as int;
    assert(p.last() == name.last());
    assert(name.contains(name.last()));
    assert(p.last() != '/');
    if p.last() == '.' && p[m - 2] == '/' {
        if name.len() > 1 {
            assert(p[m - 2] == name[name.len() - 2]);
            assert(name.contains(name[name.len() - 2]));
        } else {
            assert(name == seq!['.']);
        }
    }
    assert(without_tail(p) == p);
    assert(p != seq!['/']) by {
        assert(p.len() >= 2);
    }
    lemma_last_slash(dir, name);
    let d = p.take(n + 1);
    assert(d == dir.push('/'));
    if n == 0 {
        assert(d == seq!['/']);
        assert(without_tail(d) == d);
    } else {
        assert(d.drop_last() == dir);
        assert(without_tail(d) == without_tail(dir));
        assert(without_tail(dir) == dir);
    }
}

/// The last slash of a path is the one before its last name.
proof fn lemma_last_slash(dir: Seq<char>, name: Seq<char>)
    requires
        !name.contains('/'),
    ensures
        last_slash_end(dir + seq!['/'] + name) == dir.len() + 1,
    decreases name.len(),
{
    let p = dir + seq!['/'] + name;
    if name.len() > 0 {
        assert(name.contains(name.last()));
        assert(p.last() == name.last());
        let rest = name.drop_last();
        assert(p.drop_last() == dir + seq!['/'] + rest);
        assert(!rest.contains('/')) by {
            if rest.contains('/') {
                let i = choose|i: int| 0 <= i < rest.len() && rest[i] == '/';
                assert(name[i] == '/');
                assert(name.contains(name[i]));
            }
        }
        lemma_last_slash(dir, rest);
    }
}

/// Names that are plain, each of them.
pub open spec fn plain_names(list: Seq<Seq<char>>) -> bool {
    forall|i: int| 0 <= i < list.len() ==> plain_name(#[trigger] list[i])
}

/// A path of plain names has no front and no tail to cut off, and its first
/// component is the first name.
proof fn lemma_joined_path(list: Seq<Seq<char>>)
    requires
        plain_names(list),
        list.len() > 0,
    ensures
        ({
            let p = joined(list, seq!['/']);
            &&& p.len() > 0
            &&& !is_absolute(p)
            &&& !opens_here(p)
            &&& without_tail(p) == p
            &&& index_of(p, '/') == list[0].len()
            &&& p.take(list[0].len() as int) == list[0]
            &&& list.len() == 1 ==> p.skip(list[0].len() as int) == Seq::<char>::empty()
            &&& list.len() > 1 ==> p.skip(list[0].len() as int) == seq!['/'] + joined(
                list.skip(1),
                seq!['/'],
            )
        }),
    decreases list.len(),
{
    let sep = seq!['/'];
    let p = joined(list, sep);
    let first = list[0];
    let n = first.len() as int;
    assert(plain_name(first));
    lemma_index_cuts(first, '/');
    assert(first.contains(first[0]));
    if list.len() == 1 {
        assert(p == first);
        assert(p.take(n) == first);
        assert(p.skip(n) == Seq::<char>::empty());
        if opens_here(p) {
            if p.len() == 1 {
                assert(first == seq!['.']);
            } else {
                assert(first.contains(first[1]));
            }
        }
        lemma_no_tail(Seq::<char>::empty(), first);
    } else {
        let rest = list.skip(1);
        assert forall|i: int| 0 <= i < rest.len() implies plain_name(#[trigger] rest[i]) by {
            assert(rest[i] == list[i + 1]);
        }
        lemma_joined_path(rest);
        assert(list == seq![first] + rest);
        law_joined_in_parts(seq![first], rest, sep);
        let tail = joined(rest, sep);
        assert(p == first + sep + tail);
        assert(cut_at(p, '/', first, tail));
        lemma_cut_at(p, '/', first, tail);
        assert(p.skip(n) == sep + tail);
        if opens_here(p) {
            if n == 1 {
                assert(first == seq!['.']);
            } else {
                assert(p[1] == first[1]);
                assert(first.contains(first[1]));
            }
        }
        let last = list.last();
        let front = list.drop_last();
        assert(plain_name(last));
        assert(p == joined(front, sep) + sep + last);
        lemma_no_tail(joined(front, sep) + sep, last);
    }
}

/// A path that ends in a plain name, by itself or behind a slash, has no tail.
proof fn lemma_no_tail(front: Seq<char>, name: Seq<char>)
    requires
        plain_name(name),
        front.len() > 0 ==> front.last() == '/',
    ensures
        without_tail(front + name) == front + name,
{
    let p = front + name;
    let m = p.len() as int;
    assert(p.last() == name.last());
    assert(name.contains(name.last()));
    if m > 1 && p.last() == '.' && p[m - 2] == '/' {
        if name.len() > 1 {
            assert(p[m - 2] == name[name.len() - 2]);
            assert(name.contains(name[name.len() - 2]));
        } else {
            assert(name == seq!['.']);
        }
    }
}

/// A slash before a path is its front.
proof fn lemma_slash_is_front(p: Seq<char>)
    requires
        !is_absolute(p),
        !opens_here(p),
    ensures
        without_front(seq!['/'] + p) == p,
{
    assert((seq!['/'] + p).skip(1) == p);
    assert(without_front(p) == p);
    assert(is_absolute(seq!['/'] + p));
}

proof fn lemma_past(a: Seq<Seq<char>>, b: Seq<Seq<char>>)
    requires
        plain_names(a),
        plain_names(b),
        a.len() > 0,
        b.len() > 0,
    ensures
        past(joined(a + b, seq!['/']), joined(a, seq!['/'])) == Some(joined(b, seq!['/'])),
    decreases a.len(),
{
    let sep = seq!['/'];
    let all = a + b;
    let p = joined(all, sep);
    let q = joined(a, sep);
    assert(plain_names(all));
    lemma_joined_path(all);
    lemma_joined_path(a);
    assert(all[0] == a[0]);
    let n = a[0].len() as int;
    let rest = a.skip(1);
    assert(all.skip(1) == rest + b);
    let p_rest = joined(rest + b, sep);
    assert(plain_names(rest + b)) by {
        assert forall|i: int| 0 <= i < (rest + b).len() implies plain_name(
            #[trigger] (rest + b)[i],
        ) by {
            assert((rest + b)[i] == all[i + 1]);
        }
    }
    lemma_joined_path(rest + b);
    lemma_slash_is_front(p_rest);
    assert(without_front(p.skip(n)) == p_rest);
    if a.len() == 1 {
        assert(rest + b == b);
        assert(without_front(q.skip(n)) == Seq::<char>::empty());
        assert(past(p_rest, Seq::<char>::empty()) == Some(p_rest));
    } else {
        let q_rest = joined(rest, sep);
        assert forall|i: int| 0 <= i < rest.len() implies plain_name(#[trigger] rest[i]) by {
            assert(rest[i] == a[i + 1]);
        }
        lemma_joined_path(rest);
        lemma_slash_is_front(q_rest);
        lemma_past(rest, b);
    }
}

/// A path that lies in a directory is, as seen from there, the rest of its
/// names.
pub proof fn law_relative_is_the_rest(a: Seq<Seq<char>>, b: Seq<Seq<char>>)
    requires
        plain_names(a),
        plain_names(b),
        a.len() > 0,
        b.len() > 0,
    ensures
        relative(
            seq!['/'] + joined(a + b, seq!['/']),
            seq!['/'] + joined(a, seq!['/']),
        ) == Some(joined(b, seq!['/'])),
{
    let sep = seq!['/'];
    let p = sep + joined(a + b, sep);
    let q = sep + joined(a, sep);
    assert(plain_names(a + b));
    lemma_joined_path(a + b);
    lemma_joined_path(a);
    lemma_joined_path(b);
    lemma_slash_is_front(joined(a + b, sep));
    lemma_slash_is_front(joined(a, sep));
    lemma_past(a, b);
}

} // verus!
