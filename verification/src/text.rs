//! Plain text, as a sequence of characters: trimming, splitting, searching,
//! replacing, ordering, and the decimal form of numbers.

use vstd::prelude::*;

verus! {

/// `String::push` appends one character to the end of the string.
pub assume_specification[ String::push ](s: &mut String, c: char)
    ensures
        final(s)@ == old(s)@.push(c),
;

// ---------------------------------------------------------------------------
// Characters
// ---------------------------------------------------------------------------

/// Whether a character has the Unicode property `White_Space`.
pub open spec fn is_space(c: char) -> bool {
    ||| '\u{9}' <= c <= '\u{d}'
    ||| c == '\u{20}'
    ||| c == '\u{85}'
    ||| c == '\u{a0}'
    ||| c == '\u{1680}'
    ||| '\u{2000}' <= c <= '\u{200a}'
    ||| c == '\u{2028}'
    ||| c == '\u{2029}'
    ||| c == '\u{202f}'
    ||| c == '\u{205f}'
    ||| c == '\u{3000}'
}

/// True for the characters with the Unicode property `White_Space`.
pub fn is_whitespace(c: char) -> (r: bool)
    ensures
        r == is_space(c),
{
    ('\u{9}' <= c && c <= '\u{d}') || c == '\u{20}' || c == '\u{85}' || c == '\u{a0}' || c
        == '\u{1680}' || ('\u{2000}' <= c && c <= '\u{200a}') || c == '\u{2028}' || c == '\u{2029}'
        || c == '\u{202f}' || c == '\u{205f}' || c == '\u{3000}'
}

/// The characters of a text, one by one.
pub fn chars_of(s: &str) -> (v: Vec<char>)
    ensures
        v@ == s@,
{
    let mut v: Vec<char> = Vec::new();
    for c in it: s.chars()
        invariant
            it.seq() == s@,
            v@ == s@.take(it.index()),
    {
        v.push(c);
    }
    assert(s@.take(s@.len() as int) == s@);
    v
}


/// Two texts hold the same characters.
pub fn same(a: &str, b: &str) -> (r: bool)
    ensures
        r == (a@ == b@),
{
    let x = chars_of(a);
    let y = chars_of(b);
    if x.len() != y.len() {
        return false;
    }
    let mut i: usize = 0;
    while i < x.len()
        invariant
            x@ == a@,
            y@ == b@,
            x.len() == y.len(),
            i <= x.len(),
            forall|j: int| 0 <= j < i ==> x@[j] == y@[j],
        decreases x.len() - i,
    {
        if x[i] != y[i] {
            assert(a@[i as int] != b@[i as int]);
            return false;
        }
        i += 1;
    }
    assert(a@ =~= b@);
    true
}

// ---------------------------------------------------------------------------
// Prefixes, suffixes, occurrences
// ---------------------------------------------------------------------------

/// True if `part` stands in `whole` at index `at`.
pub open spec fn stands_at(whole: Seq<char>, part: Seq<char>, at: int) -> bool {
    &&& 0 <= at
    &&& at + part.len() <= whole.len()
    &&& whole.subrange(at, at + part.len()) == part
}

/// True if `part` occurs somewhere in `whole`.
pub open spec fn occurs(whole: Seq<char>, part: Seq<char>) -> bool {
    exists|at: int| stands_at(whole, part, at)
}

/// True if `part` stands in `whole` at index `at`.
fn found_at(whole: &Vec<char>, part: &Vec<char>, at: usize) -> (r: bool)
    requires
        at <= whole.len(),
    ensures
        r == stands_at(whole@, part@, at as int),
{
    if whole.len() - at < part.len() {
        return false;
    }
    let mut i: usize = 0;
    while i < part.len()
        invariant
            i <= part.len(),
            at <= whole.len(),
            part.len() <= whole.len() - at,
            forall|j: int| 0 <= j < i ==> whole@[at + j] == part@[j],
        decreases part.len() - i,
    {
        if whole[at + i] != part[i] {
            assert(whole@.subrange(at as int, at + part@.len())[i as int] != part@[i as int]);
            return false;
        }
        i += 1;
    }
    assert(whole@.subrange(at as int, at + part@.len()) =~= part@);
    true
}

/// True if the text begins with `prefix`.
pub fn starts_with(s: &str, prefix: &str) -> (r: bool)
    ensures
        r == prefix@.is_prefix_of(s@),
{
    let whole = chars_of(s);
    let part = chars_of(prefix);
    found_at(&whole, &part, 0)
}

/// True if the text ends with `suffix`.
pub fn ends_with(s: &str, suffix: &str) -> (r: bool)
    ensures
        r == suffix@.is_suffix_of(s@),
{
    let whole = chars_of(s);
    let part = chars_of(suffix);
    if whole.len() < part.len() {
        return false;
    }
    found_at(&whole, &part, whole.len() - part.len())
}

/// True if `part` occurs somewhere in the text.
pub fn contains(s: &str, part: &str) -> (r: bool)
    ensures
        r == occurs(s@, part@),
{
    let whole = chars_of(s);
    let part_chars = chars_of(part);
    let mut at: usize = 0;
    while at < whole.len()
        invariant
            whole@ == s@,
            part_chars@ == part@,
            at <= whole.len(),
            forall|j: int| 0 <= j < at ==> !stands_at(s@, part@, j),
        decreases whole.len() - at,
    {
        if found_at(&whole, &part_chars, at) {
            return true;
        }
        at += 1;
    }
    found_at(&whole, &part_chars, at)
}

// ---------------------------------------------------------------------------
// Trimming
// ---------------------------------------------------------------------------

/// The text without the whitespace at its start.
pub open spec fn trimmed_start(s: Seq<char>) -> Seq<char>
    decreases s.len(),
{
    if s.len() > 0 && is_space(s[0]) {
        trimmed_start(s.skip(1))
    } else {
        s
    }
}

/// The text without the whitespace at its end.
pub open spec fn trimmed_end(s: Seq<char>) -> Seq<char>
    decreases s.len(),
{
    if s.len() > 0 && is_space(s.last()) {
        trimmed_end(s.drop_last())
    } else {
        s
    }
}

/// The text without the whitespace at either end.
pub open spec fn trimmed(s: Seq<char>) -> Seq<char> {
    trimmed_end(trimmed_start(s))
}

/// The text without the copies of `c` at its end.
pub open spec fn without_trailing(s: Seq<char>, c: char) -> Seq<char>
    decreases s.len(),
{
    if s.len() > 0 && s.last() == c {
        without_trailing(s.drop_last(), c)
    } else {
        s
    }
}

/// The text without the whitespace at its start.
pub fn trim_start<'a>(s: &'a str) -> (r: &'a str)
    ensures
        r@ == trimmed_start(s@),
{
    let v = chars_of(s);
    let mut i: usize = 0;
    assert(s@.skip(0) == s@);
    while i < v.len() && is_whitespace(v[i])
        invariant
            v@ == s@,
            i <= v.len(),
            trimmed_start(s@) == trimmed_start(s@.skip(i as int)),
        decreases v.len() - i,
    {
        assert(s@.skip(i as int).skip(1) == s@.skip(i + 1));
        i += 1;
    }
    assert(s@.skip(i as int) == s@.subrange(i as int, s@.len() as int));
    s.substring_char(i, v.len())
}

/// The text without the whitespace at its end.
pub fn trim_end<'a>(s: &'a str) -> (r: &'a str)
    ensures
        r@ == trimmed_end(s@),
{
    let v = chars_of(s);
    let mut n: usize = v.len();
    assert(s@.take(n as int) == s@);
    while n > 0 && is_whitespace(v[n - 1])
        invariant
            v@ == s@,
            n <= v.len(),
            trimmed_end(s@) == trimmed_end(s@.take(n as int)),
        decreases n,
    {
        assert(s@.take(n as int).drop_last() == s@.take(n - 1));
        n -= 1;
    }
    assert(s@.take(n as int) == s@.subrange(0, n as int));
    s.substring_char(0, n)
}

/// The text without the whitespace at either end.
pub fn trim<'a>(s: &'a str) -> (r: &'a str)
    ensures
        r@ == trimmed(s@),
{
    trim_end(trim_start(s))
}

/// The text without the copies of `c` at its end.
pub fn trim_end_matches<'a>(s: &'a str, c: char) -> (r: &'a str)
    ensures
        r@ == without_trailing(s@, c),
{
    let v = chars_of(s);
    let mut n: usize = v.len();
    assert(s@.take(n as int) == s@);
    while n > 0 && v[n - 1] == c
        invariant
            v@ == s@,
            n <= v.len(),
            without_trailing(s@, c) == without_trailing(s@.take(n as int), c),
        decreases n,
    {
        assert(s@.take(n as int).drop_last() == s@.take(n - 1));
        n -= 1;
    }
    assert(s@.take(n as int) == s@.subrange(0, n as int));
    s.substring_char(0, n)
}

// ---------------------------------------------------------------------------
// Splitting
// ---------------------------------------------------------------------------

/// The index of the first `c` in the text, or its length where there is none.
pub open spec fn index_of(s: Seq<char>, c: char) -> nat
    decreases s.len(),
{
    if s.len() == 0 || s[0] == c {
        0
    } else {
        1 + index_of(s.skip(1), c)
    }
}

/// `index_of` is the one index that has no `c` before it, and a `c` or the
/// end of the text at it.
pub proof fn lemma_index_of(s: Seq<char>, c: char, i: int)
    requires
        0 <= i <= s.len(),
        forall|j: int| 0 <= j < i ==> s[j] != c,
        i == s.len() || s[i] == c,
    ensures
        index_of(s, c) == i,
    decreases s.len(),
{
    if i > 0 {
        let t = s.skip(1);
        assert forall|j: int| 0 <= j < i - 1 implies t[j] != c by {
            assert(s[j + 1] != c);
        }
        lemma_index_of(t, c, i - 1);
    }
}

/// An index found is no greater than the length of the text.
pub proof fn lemma_index_bound(s: Seq<char>, c: char)
    ensures
        index_of(s, c) <= s.len(),
    decreases s.len(),
{
    if s.len() > 0 {
        lemma_index_bound(s.skip(1), c);
    }
}

/// The text cut at every `sep`; at least one piece.
pub open spec fn pieces(s: Seq<char>, sep: char) -> Seq<Seq<char>>
    decreases s.len(),
{
    let i = index_of(s, sep) as int;
    if i >= s.len() {
        seq![s]
    } else {
        seq![s.take(i)] + pieces(s.skip(i + 1), sep)
    }
}

/// The text cut at every `sep`, into at most `n` pieces (at least one): the
/// last piece keeps the separators that are left.
pub open spec fn first_pieces(s: Seq<char>, sep: char, n: nat) -> Seq<Seq<char>>
    decreases s.len(),
{
    let i = index_of(s, sep) as int;
    if i >= s.len() || n <= 1 {
        seq![s]
    } else {
        seq![s.take(i)] + first_pieces(s.skip(i + 1), sep, (n - 1) as nat)
    }
}

/// The index of the first `c` in `v` at or after `from`, or its length.
fn seek(v: &Vec<char>, c: char, from: usize) -> (i: usize)
    requires
        from <= v.len(),
    ensures
        from <= i <= v.len(),
        i - from == index_of(v@.skip(from as int), c),
        i < v.len() ==> v@[i as int] == c,
        forall|j: int| from <= j < i ==> v@[j] != c,
{
    let mut i: usize = from;
    while i < v.len() && v[i] != c
        invariant
            from <= i <= v.len(),
            forall|j: int| from <= j < i ==> v@[j] != c,
        decreases v.len() - i,
    {
        i += 1;
    }
    proof {
        lemma_index_of(v@.skip(from as int), c, i - from);
    }
    i
}

/// Cut the text at every `sep`.
pub fn split<'a>(s: &'a str, sep: char) -> (r: Vec<&'a str>)
    ensures
        r.deep_view() == pieces(s@, sep),
{
    let v = chars_of(s);
    let mut r: Vec<&'a str> = Vec::new();
    let mut start: usize = 0;
    assert(s@.skip(0) == s@);
    assert(r.deep_view() + pieces(s@, sep) == pieces(s@, sep));
    loop
        invariant
            v@ == s@,
            start <= v.len(),
            pieces(s@, sep) == r.deep_view() + pieces(s@.skip(start as int), sep),
        decreases v.len() - start,
    {
        let i: usize = seek(&v, sep, start);
        let ghost rest = s@.skip(start as int);
        let ghost before = r.deep_view();
        let piece = s.substring_char(start, i);
        assert(s@.subrange(start as int, i as int) == rest.take(i - start));
        r.push(piece);
        assert(r.deep_view() == before.push(piece@));
        if i == v.len() {
            assert(rest.take(i - start) == rest);
            return r;
        }
        assert(rest.skip(i - start + 1) == s@.skip(i + 1));
        assert(pieces(s@, sep) == r.deep_view() + pieces(s@.skip(i + 1), sep));
        start = i + 1;
    }
}

/// A text has at least one piece.
pub proof fn lemma_pieces_some(s: Seq<char>, sep: char)
    ensures
        pieces(s, sep).len() > 0,
{
}

/// Cut the text at the first `sep`: what stands before it, and behind it.
pub fn split_once<'a>(s: &'a str, sep: char) -> (r: Option<(&'a str, &'a str)>)
    ensures
        r.deep_view() == if index_of(s@, sep) < s@.len() {
            Some((s@.take(index_of(s@, sep) as int), s@.skip(index_of(s@, sep) as int + 1)))
        } else {
            None
        },
{
    let v = chars_of(s);
    assert(s@.skip(0) == s@);
    let i: usize = seek(&v, sep, 0);
    if i == v.len() {
        return None;
    }
    assert(s@.subrange(0, i as int) == s@.take(i as int));
    assert(s@.subrange(i + 1, s@.len() as int) == s@.skip(i + 1));
    Some((s.substring_char(0, i), s.substring_char(i + 1, v.len())))
}

/// Cut the text at every `sep`, into at most `n` pieces.
pub fn splitn<'a>(s: &'a str, n: usize, sep: char) -> (r: Vec<&'a str>)
    requires
        n >= 1,
    ensures
        r.deep_view() == first_pieces(s@, sep, n as nat),
{
    let v = chars_of(s);
    let mut r: Vec<&'a str> = Vec::new();
    let mut start: usize = 0;
    let mut left: usize = n;
    assert(s@.skip(0) == s@);
    assert(r.deep_view() + first_pieces(s@, sep, n as nat) == first_pieces(s@, sep, n as nat));
    loop
        invariant
            v@ == s@,
            start <= v.len(),
            left >= 1,
            first_pieces(s@, sep, n as nat) == r.deep_view() + first_pieces(
                s@.skip(start as int),
                sep,
                left as nat,
            ),
        decreases v.len() - start,
    {
        let i: usize = seek(&v, sep, start);
        let ghost rest = s@.skip(start as int);
        let ghost before = r.deep_view();
        if i == v.len() || left == 1 {
            let piece = s.substring_char(start, v.len());
            r.push(piece);
            assert(piece@ == rest);
            assert(r.deep_view() == before.push(piece@));
            return r;
        }
        let piece = s.substring_char(start, i);
        assert(s@.subrange(start as int, i as int) == rest.take(i - start));
        r.push(piece);
        assert(r.deep_view() == before.push(piece@));
        assert(rest.skip(i - start + 1) == s@.skip(i + 1));
        assert(first_pieces(s@, sep, n as nat) == r.deep_view() + first_pieces(
            s@.skip(i + 1),
            sep,
            (left - 1) as nat,
        ));
        start = i + 1;
        left -= 1;
    }
}

/// The text without a carriage return at its end.
pub open spec fn without_return(s: Seq<char>) -> Seq<char> {
    if s.len() > 0 && s.last() == '\r' {
        s.drop_last()
    } else {
        s
    }
}

/// The lines of a text. A line ends at a line feed, which may have a carriage
/// return before it; the last line may go without.
pub open spec fn lines_of(s: Seq<char>) -> Seq<Seq<char>>
    decreases s.len(),
{
    let i = index_of(s, '\n') as int;
    if s.len() == 0 {
        seq![]
    } else if i >= s.len() {
        seq![s]
    } else {
        seq![without_return(s.take(i))] + lines_of(s.skip(i + 1))
    }
}

/// The lines of a text.
pub fn lines<'a>(s: &'a str) -> (r: Vec<&'a str>)
    ensures
        r.deep_view() == lines_of(s@),
{
    let v = chars_of(s);
    let mut r: Vec<&'a str> = Vec::new();
    let mut start: usize = 0;
    assert(s@.skip(0) == s@);
    assert(r.deep_view() + lines_of(s@) == lines_of(s@));
    while start < v.len()
        invariant
            v@ == s@,
            start <= v.len(),
            lines_of(s@) == r.deep_view() + lines_of(s@.skip(start as int)),
        decreases v.len() - start,
    {
        let i: usize = seek(&v, '\n', start);
        let ghost rest = s@.skip(start as int);
        let ghost before = r.deep_view();
        if i == v.len() {
            let line = s.substring_char(start, i);
            r.push(line);
            assert(line@ == rest);
            assert(r.deep_view() == before.push(line@));
            return r;
        }
        let end: usize = if i > start && v[i - 1] == '\r' {
            i - 1
        } else {
            i
        };
        let line = s.substring_char(start, end);
        assert(line@ == without_return(rest.take(i - start)));
        r.push(line);
        assert(r.deep_view() == before.push(line@));
        assert(rest.skip(i - start + 1) == s@.skip(i + 1));
        assert(lines_of(s@) == r.deep_view() + lines_of(s@.skip(i + 1)));
        start = i + 1;
    }
    assert(lines_of(s@.skip(start as int)) == Seq::<Seq<char>>::empty());
    assert(r.deep_view() + Seq::<Seq<char>>::empty() == r.deep_view());
    r
}

// ---------------------------------------------------------------------------
// Building
// ---------------------------------------------------------------------------

/// The text with every `from` in it, read from the left, put as `to`.
pub open spec fn replaced(s: Seq<char>, from: Seq<char>, to: Seq<char>) -> Seq<char>
    decreases s.len(),
{
    if from.len() == 0 || s.len() < from.len() {
        s
    } else if from.is_prefix_of(s) {
        to + replaced(s.skip(from.len() as int), from, to)
    } else {
        seq![s[0]] + replaced(s.skip(1), from, to)
    }
}

/// Put every `from` in the text as `to`.
pub fn replace(s: &str, from: &str, to: &str) -> (r: String)
    requires
        from@.len() > 0,
    ensures
        r@ == replaced(s@, from@, to@),
{
    let whole = chars_of(s);
    let part = chars_of(from);
    let mut r: String = String::new();
    let mut i: usize = 0;
    assert(s@.skip(0) == s@);
    assert(r@ + replaced(s@, from@, to@) == replaced(s@, from@, to@));
    while i < whole.len()
        invariant
            whole@ == s@,
            part@ == from@,
            from@.len() > 0,
            i <= whole.len(),
            replaced(s@, from@, to@) == r@ + replaced(s@.skip(i as int), from@, to@),
        decreases whole.len() - i,
    {
        let ghost rest = s@.skip(i as int);
        let ghost before = r@;
        if found_at(&whole, &part, i) {
            assert(rest.take(from@.len() as int) == from@);
            assert(from@.is_prefix_of(rest));
            assert(rest.skip(from@.len() as int) == s@.skip(i + from@.len()));
            r.append(to);
            i += part.len();
            assert(replaced(s@, from@, to@) == r@ + replaced(s@.skip(i as int), from@, to@));
        } else {
            proof {
                if from@.is_prefix_of(rest) {
                    assert(s@.subrange(i as int, i + from@.len()) == rest.take(
                        from@.len() as int,
                    ));
                }
                if rest.len() < from@.len() {
                    assert(rest == seq![rest[0]] + s@.skip(i + 1));
                }
            }
            assert(rest.skip(1) == s@.skip(i + 1));
            r.push(whole[i]);
            assert(before.push(rest[0]) == before + seq![rest[0]]);
            i += 1;
            assert(replaced(s@, from@, to@) == r@ + replaced(s@.skip(i as int), from@, to@));
        }
    }
    assert(replaced(s@.skip(i as int), from@, to@) == Seq::<char>::empty());
    r
}

/// The texts of a list, one after the other, with `sep` between them.
pub open spec fn joined(list: Seq<Seq<char>>, sep: Seq<char>) -> Seq<char>
    decreases list.len(),
{
    if list.len() == 0 {
        seq![]
    } else if list.len() == 1 {
        list[0]
    } else {
        joined(list.drop_last(), sep) + sep + list.last()
    }
}

/// Join the texts of a list with `sep` between them.
pub fn join(list: &Vec<String>, sep: &str) -> (r: String)
    ensures
        r@ == joined(list.deep_view(), sep@),
{
    let mut r: String = String::new();
    let mut i: usize = 0;
    let ghost all = list.deep_view();
    while i < list.len()
        invariant
            all == list.deep_view(),
            i <= list.len(),
            r@ == joined(all.take(i as int), sep@),
        decreases list.len() - i,
    {
        assert(all.take(i + 1).drop_last() == all.take(i as int));
        assert(all.take(i + 1).last() == list@[i as int]@);
        if i > 0 {
            r.append(sep);
        }
        r.append(list[i].as_str());
        i += 1;
        assert(r@ == joined(all.take(i as int), sep@));
    }
    assert(all.take(i as int) == all);
    r
}

/// Copy a list of texts.
pub fn copy(list: &Vec<String>) -> (r: Vec<String>)
    ensures
        r@ == list@,
{
    let mut r: Vec<String> = Vec::new();
    let mut i: usize = 0;
    while i < list.len()
        invariant
            i <= list.len(),
            r@ == list@.take(i as int),
        decreases list.len() - i,
    {
        r.push(list[i].clone());
        i += 1;
    }
    assert(list@.take(i as int) == list@);
    r
}

/// Copy a text that may be absent.
pub fn copy_option(o: &Option<String>) -> (r: Option<String>)
    ensures
        r == *o,
{
    match o {
        Some(s) => Some(s.clone()),
        None => None,
    }
}

// ---------------------------------------------------------------------------
// Case
// ---------------------------------------------------------------------------

/// An ASCII capital letter as its small letter; any other character as it is.
pub open spec fn lower(c: char) -> char {
    if 'A' <= c <= 'Z' {
        (c as u32 + 32) as char
    } else {
        c
    }
}

/// Two texts are the same but for the case of ASCII letters.
pub open spec fn same_but_case(a: Seq<char>, b: Seq<char>) -> bool {
    &&& a.len() == b.len()
    &&& forall|i: int| #![trigger a[i]] 0 <= i < a.len() ==> lower(a[i]) == lower(b[i])
}

/// An ASCII capital letter as its small letter.
fn to_lower(c: char) -> (r: char)
    ensures
        r == lower(c),
{
    if 'A' <= c && c <= 'Z' {
        ((c as u8) + 32u8) as char
    } else {
        c
    }
}

/// Two texts are the same but for the case of ASCII letters.
pub fn eq_ignore_ascii_case(a: &str, b: &str) -> (r: bool)
    ensures
        r == same_but_case(a@, b@),
{
    let x = chars_of(a);
    let y = chars_of(b);
    if x.len() != y.len() {
        return false;
    }
    let mut i: usize = 0;
    while i < x.len()
        invariant
            x@ == a@,
            y@ == b@,
            x.len() == y.len(),
            i <= x.len(),
            forall|j: int| #![trigger a@[j]] 0 <= j < i ==> lower(a@[j]) == lower(b@[j]),
        decreases x.len() - i,
    {
        if to_lower(x[i]) != to_lower(y[i]) {
            assert(lower(a@[i as int]) != lower(b@[i as int]));
            return false;
        }
        i += 1;
    }
    true
}

// ---------------------------------------------------------------------------
// Order
// ---------------------------------------------------------------------------

/// `a` stands before `b` in the order of their characters: at the first place
/// where they differ `a` has the lesser character, or ends.
pub open spec fn before(a: Seq<char>, b: Seq<char>) -> bool
    decreases a.len(),
{
    if b.len() == 0 {
        false
    } else if a.len() == 0 {
        true
    } else if a[0] != b[0] {
        a[0] < b[0]
    } else {
        before(a.skip(1), b.skip(1))
    }
}

/// No text stands before itself.
pub proof fn lemma_before_irreflexive(a: Seq<char>)
    ensures
        !before(a, a),
    decreases a.len(),
{
    if a.len() > 0 {
        lemma_before_irreflexive(a.skip(1));
    }
}

/// What stands before a text stands before all that the text stands before.
pub proof fn lemma_before_transitive(a: Seq<char>, b: Seq<char>, c: Seq<char>)
    requires
        before(a, b),
        before(b, c),
    ensures
        before(a, c),
    decreases a.len(),
{
    if a.len() > 0 && a[0] == b[0] && b[0] == c[0] {
        lemma_before_transitive(a.skip(1), b.skip(1), c.skip(1));
    }
}

/// Of two different texts one stands before the other.
pub proof fn lemma_before_total(a: Seq<char>, b: Seq<char>)
    ensures
        a == b || before(a, b) || before(b, a),
    decreases a.len(),
{
    if a.len() > 0 && b.len() > 0 {
        if a[0] == b[0] {
            lemma_before_total(a.skip(1), b.skip(1));
            if a.skip(1) == b.skip(1) {
                assert(a == seq![a[0]] + a.skip(1));
                assert(b == seq![b[0]] + b.skip(1));
            }
        }
    } else {
        assert(a.len() == 0 && b.len() == 0 ==> a == b);
    }
}

/// True if `a` stands before `b` in the order of their characters.
pub fn is_before(a: &str, b: &str) -> (r: bool)
    ensures
        r == before(a@, b@),
{
    let x = chars_of(a);
    let y = chars_of(b);
    let mut i: usize = 0;
    assert(a@.skip(0) == a@);
    assert(b@.skip(0) == b@);
    while i < x.len() && i < y.len() && x[i] == y[i]
        invariant
            x@ == a@,
            y@ == b@,
            i <= x.len(),
            i <= y.len(),
            before(a@, b@) == before(a@.skip(i as int), b@.skip(i as int)),
        decreases x.len() - i,
    {
        assert(a@.skip(i as int).skip(1) == a@.skip(i + 1));
        assert(b@.skip(i as int).skip(1) == b@.skip(i + 1));
        i += 1;
    }
    if i == y.len() {
        false
    } else if i == x.len() {
        true
    } else {
        x[i] < y[i]
    }
}

// ---------------------------------------------------------------------------
// Laws
// ---------------------------------------------------------------------------

/// A text is cut at its first `sep`: `a` stands before it, `b` behind it.
pub open spec fn cut_at(s: Seq<char>, sep: char, a: Seq<char>, b: Seq<char>) -> bool {
    s == a + seq![sep] + b && !a.contains(sep)
}

/// There is one way to cut a text at its first `sep`, and `index_of` gives it.
pub proof fn lemma_cut_at(s: Seq<char>, sep: char, a: Seq<char>, b: Seq<char>)
    requires
        cut_at(s, sep, a, b),
    ensures
        index_of(s, sep) == a.len(),
        index_of(s, sep) < s.len(),
        s.take(a.len() as int) == a,
        s.skip(a.len() as int + 1) == b,
{
    let n = a.len() as int;
    assert(s[n] == sep);
    assert forall|j: int| 0 <= j < n implies s[j] != sep by {
        assert(s[j] == a[j]);
        assert(a.contains(a[j]));
    }
    lemma_index_of(s, sep, n);
    assert(s.take(n) == a);
    assert(s.skip(n + 1) == b);
}

/// Where there is a `sep`, the text is cut at it.
pub proof fn lemma_index_cuts(s: Seq<char>, sep: char)
    ensures
        index_of(s, sep) <= s.len(),
        forall|j: int| 0 <= j < index_of(s, sep) ==> s[j] != sep,
        index_of(s, sep) < s.len() ==> s[index_of(s, sep) as int] == sep,
        index_of(s, sep) < s.len() ==> cut_at(
            s,
            sep,
            s.take(index_of(s, sep) as int),
            s.skip(index_of(s, sep) as int + 1),
        ),
        index_of(s, sep) == s.len() <==> !s.contains(sep),
    decreases s.len(),
{
    let n = index_of(s, sep) as int;
    if s.len() > 0 && s[0] != sep {
        lemma_index_cuts(s.skip(1), sep);
        let m = index_of(s.skip(1), sep) as int;
        assert forall|j: int| 0 <= j < n implies s[j] != sep by {
            if j > 0 {
                assert(s.skip(1)[j - 1] == s[j]);
            }
        }
        if m < s.skip(1).len() {
            assert(s.skip(1)[m] == s[m + 1]);
        }
    }
    if n < s.len() {
        assert(s == s.take(n) + seq![sep] + s.skip(n + 1));
        assert(s.contains(s[n]));
    } else if s.contains(sep) {
        let j = choose|j: int| 0 <= j < s.len() && s[j] == sep;
        assert(s[j] != sep);
    }
}

/// What a text is trimmed of is whitespace, all of it that is at either end
/// and nothing else; so is a text of whitespace alone.
pub proof fn law_trimmed(s: Seq<char>)
    ensures
        exists|i: int, j: int|
            0 <= i <= j <= s.len() && trimmed(s) == #[trigger] s.subrange(i, j) && (forall|k: int|
                0 <= k < i || j <= k < s.len() ==> is_space(#[trigger] s[k])),
        trimmed(s).len() > 0 ==> !is_space(trimmed(s)[0]) && !is_space(trimmed(s).last()),
        trimmed(s).len() == 0 ==> forall|k: int| 0 <= k < s.len() ==> is_space(#[trigger] s[k]),
{
    let t = trimmed_start(s);
    lemma_trimmed_start(s);
    lemma_trimmed_end(t);
    let i = s.len() - t.len();
    let j = i + trimmed(s).len();
    assert(trimmed(s) == s.subrange(i, j));
    assert forall|k: int| 0 <= k < i || j <= k < s.len() implies is_space(#[trigger] s[k]) by {
        if k >= j {
            assert(t[k - i] == s[k]);
        }
    }
    if trimmed(s).len() > 0 {
        assert(trimmed(s)[0] == t[0]);
    }
}

/// The whitespace at the start goes, and no more.
pub proof fn lemma_trimmed_start(s: Seq<char>)
    ensures
        trimmed_start(s).len() <= s.len(),
        trimmed_start(s) == s.skip(s.len() - trimmed_start(s).len()),
        forall|k: int| 0 <= k < s.len() - trimmed_start(s).len() ==> is_space(#[trigger] s[k]),
        trimmed_start(s).len() > 0 ==> !is_space(trimmed_start(s)[0]),
    decreases s.len(),
{
    if s.len() > 0 && is_space(s[0]) {
        lemma_trimmed_start(s.skip(1));
        let n = s.len() - trimmed_start(s).len();
        assert(s.skip(1).skip(n - 1) == s.skip(n));
        assert forall|k: int| 0 <= k < n implies is_space(#[trigger] s[k]) by {
            if k > 0 {
                assert(s.skip(1)[k - 1] == s[k]);
            }
        }
    }
}

/// The whitespace at the end goes, and no more.
pub proof fn lemma_trimmed_end(s: Seq<char>)
    ensures
        trimmed_end(s).len() <= s.len(),
        trimmed_end(s) == s.take(trimmed_end(s).len() as int),
        forall|k: int| trimmed_end(s).len() <= k < s.len() ==> is_space(#[trigger] s[k]),
        trimmed_end(s).len() > 0 ==> !is_space(trimmed_end(s).last()),
    decreases s.len(),
{
    if s.len() > 0 && is_space(s.last()) {
        lemma_trimmed_end(s.drop_last());
        let n = trimmed_end(s).len() as int;
        assert(s.drop_last().take(n) == s.take(n));
        assert forall|k: int| n <= k < s.len() implies is_space(#[trigger] s[k]) by {
            if k < s.len() - 1 {
                assert(s.drop_last()[k] == s[k]);
            }
        }
    }
}

/// Blanks, tabs and line ends are whitespace; what is printed in ASCII is not.
pub proof fn law_space_in_ascii(c: char)
    requires
        c <= '\u{7f}',
    ensures
        is_space(c) <==> c == ' ' || c == '\t' || c == '\n' || c == '\r' || c == '\u{b}' || c
            == '\u{c}',
{
}

/// Joining a list in two parts is joining the parts.
pub proof fn law_joined_in_parts(a: Seq<Seq<char>>, b: Seq<Seq<char>>, sep: Seq<char>)
    ensures
        a.len() > 0 && b.len() > 0 ==> joined(a + b, sep) == joined(a, sep) + sep + joined(b, sep),
        joined(Seq::<Seq<char>>::empty(), sep) == Seq::<char>::empty(),
        a.len() == 1 ==> joined(a, sep) == a[0],
    decreases b.len(),
{
    if a.len() > 0 && b.len() > 0 {
        let s = a + b;
        assert(s.last() == b.last());
        assert(s.drop_last() == a + b.drop_last());
        if b.len() > 1 {
            law_joined_in_parts(a, b.drop_last(), sep);
            assert(joined(a, sep) + sep + joined(b.drop_last(), sep) + sep + b.last() == joined(
                a,
                sep,
            ) + sep + (joined(b.drop_last(), sep) + sep + b.last()));
        } else {
            assert(a + b.drop_last() == a);
        }
    }
}

/// The pieces of a text, joined again, are the text, and none of them holds
/// the separator.
pub proof fn law_pieces_make_the_text(s: Seq<char>, sep: char)
    ensures
        pieces(s, sep).len() > 0,
        joined(pieces(s, sep), seq![sep]) == s,
        forall|i: int| 0 <= i < pieces(s, sep).len() ==> !(#[trigger] pieces(s, sep)[i]).contains(sep),
    decreases s.len(),
{
    lemma_index_cuts(s, sep);
    let n = index_of(s, sep) as int;
    let list = pieces(s, sep);
    if n < s.len() {
        let rest = s.skip(n + 1);
        law_pieces_make_the_text(rest, sep);
        law_joined_in_parts(seq![s.take(n)], pieces(rest, sep), seq![sep]);
        assert(joined(seq![s.take(n)], seq![sep]) == s.take(n));
        assert forall|i: int| 0 <= i < list.len() implies !(#[trigger] list[i]).contains(sep) by {
            if i > 0 {
                assert(list[i] == pieces(rest, sep)[i - 1]);
            }
        }
    } else {
        assert(joined(seq![s], seq![sep]) == s);
    }
}

/// A text is cut into its first pieces one after the other: the piece before
/// the separator, and then the pieces of what is behind it.
pub proof fn law_first_pieces(s: Seq<char>, sep: char, a: Seq<char>, b: Seq<char>, n: nat)
    ensures
        n > 1 && cut_at(s, sep, a, b) ==> first_pieces(s, sep, n) == seq![a] + first_pieces(
            b,
            sep,
            (n - 1) as nat,
        ),
        n <= 1 || !s.contains(sep) ==> first_pieces(s, sep, n) == seq![s],
{
    lemma_index_cuts(s, sep);
    if n > 1 && cut_at(s, sep, a, b) {
        lemma_cut_at(s, sep, a, b);
    }
}

/// A line ends at each line feed, without the carriage return that may stand
/// before it; what is behind the last line feed is a line if there is any.
pub proof fn law_lines(s: Seq<char>, a: Seq<char>, b: Seq<char>)
    ensures
        cut_at(s, '\n', a, b) ==> lines_of(s) == seq![
            if a.len() > 0 && a.last() == '\r' {
                a.drop_last()
            } else {
                a
            },
        ] + lines_of(b),
        !s.contains('\n') ==> lines_of(s) == if s.len() == 0 {
            Seq::<Seq<char>>::empty()
        } else {
            seq![s]
        },
{
    lemma_index_cuts(s, '\n');
    if cut_at(s, '\n', a, b) {
        lemma_cut_at(s, '\n', a, b);
    }
}

/// Up to the first place where a text occurs nothing is replaced; there it is,
/// and then what follows is dealt with alike.
pub proof fn law_first_is_replaced(a: Seq<char>, from: Seq<char>, b: Seq<char>, to: Seq<char>)
    requires
        from.len() > 0,
        forall|at: int| 0 <= at < a.len() ==> !#[trigger] stands_at(a + from + b, from, at),
    ensures
        replaced(a + from + b, from, to) == a + to + replaced(b, from, to),
    decreases a.len(),
{
    let s = a + from + b;
    if a.len() == 0 {
        assert(s.take(from.len() as int) == from);
        assert(from.is_prefix_of(s));
        assert(s.skip(from.len() as int) == b);
        assert(a + to == to);
    } else {
        let t = a.skip(1);
        assert(!stands_at(s, from, 0));
        assert(!from.is_prefix_of(s)) by {
            if from.is_prefix_of(s) {
                assert(s.subrange(0, from.len() as int) == from);
            }
        }
        assert(s.skip(1) == t + from + b);
        assert forall|at: int| 0 <= at < t.len() implies !#[trigger] stands_at(
            t + from + b,
            from,
            at,
        ) by {
            if stands_at(t + from + b, from, at) {
                assert(s.subrange(at + 1, at + 1 + from.len()) == s.skip(1).subrange(
                    at,
                    at + from.len(),
                ));
                assert(stands_at(s, from, at + 1));
            }
        }
        law_first_is_replaced(t, from, b, to);
        assert(seq![s[0]] + (t + to + replaced(b, from, to)) == a + to + replaced(b, from, to));
    }
}

/// Where a text does not occur, nothing is replaced.
pub proof fn law_nothing_is_replaced(s: Seq<char>, from: Seq<char>, to: Seq<char>)
    requires
        !occurs(s, from),
    ensures
        replaced(s, from, to) == s,
    decreases s.len(),
{
    if from.len() > 0 && s.len() >= from.len() {
        assert(!from.is_prefix_of(s)) by {
            if from.is_prefix_of(s) {
                assert(stands_at(s, from, 0));
            }
        }
        assert(!occurs(s.skip(1), from)) by {
            if occurs(s.skip(1), from) {
                let at = choose|at: int| stands_at(s.skip(1), from, at);
                assert(s.subrange(at + 1, at + 1 + from.len()) == s.skip(1).subrange(
                    at,
                    at + from.len(),
                ));
                assert(stands_at(s, from, at + 1));
            }
        }
        law_nothing_is_replaced(s.skip(1), from, to);
        assert(seq![s[0]] + s.skip(1) == s);
    }
}

/// The first difference of two texts decides their order: a lesser character
/// comes first, and so does the text that ends.
pub proof fn law_first_difference_decides(
    front: Seq<char>,
    a: Seq<char>,
    b: Seq<char>,
)
    ensures
        before(front + a, front + b) == before(a, b),
        a.len() > 0 && b.len() > 0 && a[0] < b[0] ==> before(a, b),
        a.len() == 0 && b.len() > 0 ==> before(a, b),
        before(a, b) ==> !before(b, a) && a != b,
    decreases front.len(),
{
    lemma_before_irreflexive(a);
    if before(a, b) && before(b, a) {
        lemma_before_transitive(a, b, a);
    }
    if front.len() > 0 {
        let rest = front.skip(1);
        law_first_difference_decides(rest, a, b);
        assert((front + a).skip(1) == rest + a);
        assert((front + b).skip(1) == rest + b);
    } else {
        assert(front + a == a);
        assert(front + b == b);
    }
}

/// The case of ASCII letters is all that may differ.
pub proof fn law_same_but_case(a: Seq<char>, b: Seq<char>, i: int)
    requires
        same_but_case(a, b),
        0 <= i < a.len(),
    ensures
        a.len() == b.len(),
        a[i] == b[i] || a[i] as u32 + 32 == b[i] as u32 || b[i] as u32 + 32 == a[i] as u32,
        a[i] != b[i] ==> ('A' <= a[i] <= 'Z' && 'a' <= b[i] <= 'z') || ('a' <= a[i] <= 'z' && 'A'
            <= b[i] <= 'Z'),
{
    assert(lower(a[i]) == lower(b[i]));
}

/// Each text of a list occurs in the list joined.
pub proof fn law_joined_holds_each(list: Seq<Seq<char>>, sep: Seq<char>, i: int)
    requires
        0 <= i < list.len(),
    ensures
        occurs(joined(list, sep), list[i]),
    decreases list.len(),
{
    let s = joined(list, sep);
    if list.len() == 1 {
        assert(s.subrange(0, s.len() as int) == s);
        assert(stands_at(s, list[i], 0));
    } else if i == list.len() - 1 {
        let n = s.len() - list[i].len();
        assert(s.subrange(n, s.len() as int) == list[i]);
        assert(stands_at(s, list[i], n));
    } else {
        let t = joined(list.drop_last(), sep);
        law_joined_holds_each(list.drop_last(), sep, i);
        let at = choose|at: int| stands_at(t, list.drop_last()[i], at);
        assert(s.subrange(at, at + list[i].len()) == t.subrange(at, at + list[i].len()));
        assert(stands_at(s, list[i], at));
    }
}

/// The pieces of two texts with the separator between them are the pieces of
/// the one, then those of the other.
pub proof fn law_pieces_in_parts(a: Seq<char>, b: Seq<char>, sep: char)
    ensures
        pieces(a + seq![sep] + b, sep) == pieces(a, sep) + pieces(b, sep),
    decreases a.len(),
{
    let s = a + seq![sep] + b;
    lemma_index_cuts(a, sep);
    let n = index_of(a, sep) as int;
    if n < a.len() {
        let rest = a.skip(n + 1);
        assert(cut_at(s, sep, a.take(n), rest + seq![sep] + b)) by {
            assert(s == a.take(n) + seq![sep] + (rest + seq![sep] + b));
        }
        lemma_cut_at(s, sep, a.take(n), rest + seq![sep] + b);
        law_pieces_in_parts(rest, b, sep);
        assert(seq![a.take(n)] + (pieces(rest, sep) + pieces(b, sep)) == pieces(a, sep) + pieces(
            b,
            sep,
        ));
    } else {
        lemma_cut_at(s, sep, a, b);
    }
}

/// What comes of a list, part by part.
pub proof fn lemma_filter_map_parts<A, B>(a: Seq<A>, b: Seq<A>, f: spec_fn(A) -> Option<B>)
    ensures
        (a + b).filter_map(f) == a.filter_map(f) + b.filter_map(f),
    decreases b.len(),
{
    if b.len() == 0 {
        assert(a + b == a);
        assert(a.filter_map(f) + b.filter_map(f) == a.filter_map(f));
    } else {
        let s = a + b;
        assert(s.last() == b.last());
        assert(s.drop_last() == a + b.drop_last());
        lemma_filter_map_parts(a, b.drop_last(), f);
        assert(s.filter_map(f) == a.filter_map(f) + b.filter_map(f));
    }
}

/// What comes of a list of one.
pub proof fn lemma_filter_map_one<A, B>(x: A, f: spec_fn(A) -> Option<B>)
    ensures
        seq![x].filter_map(f) == match f(x) {
            Some(y) => seq![y],
            None => Seq::<B>::empty(),
        },
{
    let none = Seq::<A>::empty();
    assert(seq![x].drop_last() == none);
    assert(none.filter_map(f) == Seq::<B>::empty());
    assert(seq![x].last() == x);
    if let Some(y) = f(x) {
        assert(Seq::<B>::empty() + seq![y] == seq![y]);
    }
}

/// What occurs in the middle of a text occurs in it; and so does the middle.
pub proof fn lemma_occurs_inside(a: Seq<char>, s: Seq<char>, b: Seq<char>, part: Seq<char>)
    ensures
        occurs(a + s + b, s),
        occurs(s, part) ==> occurs(a + s + b, part),
{
    let all = a + s + b;
    let n = a.len() as int;
    assert(all.subrange(n, n + s.len()) == s);
    assert(stands_at(all, s, n));
    if occurs(s, part) {
        let at = choose|at: int| stands_at(s, part, at);
        assert(all.subrange(n + at, n + at + part.len()) == s.subrange(at, at + part.len()));
        assert(stands_at(all, part, n + at));
    }
}

} // verus!
