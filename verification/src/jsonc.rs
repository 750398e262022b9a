//! JSON with comments, as `devcontainer.json` is written in the wild, brought
//! down to plain JSON: comments and trailing commas go, string literals stay.

use crate::text::{
    chars_of, index_of, is_space, is_whitespace, lemma_index_bound, lemma_index_of, trimmed_start,
};
use vstd::prelude::*;

verus! {

// ---------------------------------------------------------------------------
// What the text holds
// ---------------------------------------------------------------------------

/// How far the rest of a string literal reaches, from behind its opening
/// quote up to and with its closing quote (or the end of the text).
pub open spec fn body_len(s: Seq<char>) -> nat
    decreases s.len(),
{
    if s.len() == 0 {
        0
    } else if s[0] == '"' {
        1
    } else if s[0] == '\\' && s.len() >= 2 {
        2 + body_len(s.skip(2))
    } else {
        1 + body_len(s.skip(1))
    }
}

/// How long the string literal is that the text opens with, quotes and all.
pub open spec fn literal_len(s: Seq<char>) -> int {
    1 + body_len(s.skip(1)) as int
}

/// How far it is behind the next `*/`, or to the end of the text.
pub open spec fn block_rest_len(s: Seq<char>) -> nat
    decreases s.len(),
{
    if s.len() < 2 {
        s.len()
    } else if s[0] == '*' && s[1] == '/' {
        2
    } else {
        1 + block_rest_len(s.skip(1))
    }
}

/// The text opens with a string literal.
pub open spec fn at_literal(s: Seq<char>) -> bool {
    s.len() > 0 && s[0] == '"'
}

/// The text opens with a line comment.
pub open spec fn at_line_comment(s: Seq<char>) -> bool {
    s.len() >= 2 && s[0] == '/' && s[1] == '/'
}

/// The text opens with a block comment.
pub open spec fn at_block_comment(s: Seq<char>) -> bool {
    s.len() >= 2 && s[0] == '/' && s[1] == '*'
}

/// The text opens with a comma that has nothing but whitespace between it and
/// a closing bracket.
pub open spec fn at_trailing_comma(s: Seq<char>) -> bool {
    let next = trimmed_start(s.skip(1));
    s.len() > 0 && s[0] == ',' && next.len() > 0 && (next[0] == ']' || next[0] == '}')
}

/// How much of the text its first token takes: a string literal, a comment (a
/// line comment without its line feed), or one character.
pub open spec fn token_len(s: Seq<char>) -> int {
    if at_literal(s) {
        literal_len(s)
    } else if at_line_comment(s) {
        index_of(s, '\n') as int
    } else if at_block_comment(s) {
        2 + block_rest_len(s.skip(2)) as int
    } else {
        1
    }
}

/// The first token of a text takes at least one character, and no more than
/// there are.
pub proof fn lemma_token_len(s: Seq<char>)
    requires
        s.len() > 0,
    ensures
        1 <= token_len(s) <= s.len(),
        at_literal(s) ==> 1 <= literal_len(s) <= s.len(),
{
    if at_literal(s) {
        lemma_body_len(s.skip(1));
    } else if at_line_comment(s) {
        lemma_index_bound(s, '\n');
    } else if at_block_comment(s) {
        lemma_block_rest_len(s.skip(2));
    }
}

proof fn lemma_body_len(s: Seq<char>)
    ensures
        body_len(s) <= s.len(),
    decreases s.len(),
{
    if s.len() > 0 {
        if s[0] == '\\' && s.len() >= 2 {
            lemma_body_len(s.skip(2));
        } else if s[0] != '"' {
            lemma_body_len(s.skip(1));
        }
    }
}

proof fn lemma_block_rest_len(s: Seq<char>)
    ensures
        block_rest_len(s) <= s.len(),
    decreases s.len(),
{
    if s.len() >= 2 {
        lemma_block_rest_len(s.skip(1));
    }
}

/// The text without its comments.
pub open spec fn uncommented(s: Seq<char>) -> Seq<char>
    decreases s.len(),
{
    proof {
        if s.len() > 0 {
            lemma_token_len(s);
        }
    }
    if s.len() == 0 {
        s
    } else if at_line_comment(s) || at_block_comment(s) {
        uncommented(s.skip(token_len(s)))
    } else {
        s.take(token_len(s)) + uncommented(s.skip(token_len(s)))
    }
}

/// The text without its trailing commas.
pub open spec fn uncommaed(s: Seq<char>) -> Seq<char>
    decreases s.len(),
{
    proof {
        if s.len() > 0 {
            lemma_token_len(s);
        }
    }
    if s.len() == 0 {
        s
    } else if at_literal(s) {
        s.take(literal_len(s)) + uncommaed(s.skip(literal_len(s)))
    } else if at_trailing_comma(s) {
        uncommaed(s.skip(1))
    } else {
        seq![s[0]] + uncommaed(s.skip(1))
    }
}

// ---------------------------------------------------------------------------
// Stripping
// ---------------------------------------------------------------------------

/// The index behind the string literal that opens at `from`.
fn literal_end(v: &Vec<char>, from: usize) -> (end: usize)
    requires
        from < v.len(),
        v@[from as int] == '"',
    ensures
        from < end <= v.len(),
        end - from == literal_len(v@.skip(from as int)),
{
    let mut i: usize = from + 1;
    assert(v@.skip(from as int).skip(1) == v@.skip(i as int));
    while i < v.len()
        invariant
            from < i <= v.len(),
            literal_len(v@.skip(from as int)) == i - from + body_len(v@.skip(i as int)),
        decreases v.len() - i,
    {
        let ghost rest = v@.skip(i as int);
        let c: char = v[i];
        if c == '"' {
            return i + 1;
        }
        if c == '\\' && v.len() - i >= 2 {
            assert(rest.skip(2) == v@.skip(i + 2));
            i += 2;
        } else {
            assert(rest.skip(1) == v@.skip(i + 1));
            i += 1;
        }
    }
    i
}

/// The index behind the block comment that opens at `from`.
fn block_end(v: &Vec<char>, from: usize) -> (end: usize)
    requires
        from + 2 <= v.len(),
    ensures
        from < end <= v.len(),
        end - from == 2 + block_rest_len(v@.skip(from as int).skip(2)),
{
    let mut i: usize = from + 2;
    let ghost body = v@.skip(from as int).skip(2);
    assert(body == v@.skip(i as int));
    while v.len() - i >= 2
        invariant
            from + 2 <= i <= v.len(),
            body == v@.skip(from as int).skip(2),
            block_rest_len(body) == i - from - 2 + block_rest_len(v@.skip(i as int)),
        decreases v.len() - i,
    {
        if v[i] == '*' && v[i + 1] == '/' {
            return i + 2;
        }
        assert(v@.skip(i as int).skip(1) == v@.skip(i + 1));
        i += 1;
    }
    v.len()
}

/// The index of the line feed that ends the line comment at `from`, or the
/// end of the text.
fn line_end(v: &Vec<char>, from: usize) -> (end: usize)
    requires
        from < v.len(),
        v@[from as int] != '\n',
    ensures
        from < end <= v.len(),
        end - from == index_of(v@.skip(from as int), '\n'),
{
    let mut i: usize = from + 1;
    while i < v.len() && v[i] != '\n'
        invariant
            from < i <= v.len(),
            forall|j: int| from <= j < i ==> v@[j] != '\n',
        decreases v.len() - i,
    {
        i += 1;
    }
    proof {
        lemma_index_of(v@.skip(from as int), '\n', i - from);
    }
    i
}

/// Append the characters of `v` from index `from` up to `to`.
fn push_range(out: &mut Vec<char>, v: &Vec<char>, from: usize, to: usize)
    requires
        from <= to <= v.len(),
    ensures
        final(out)@ == old(out)@ + v@.subrange(from as int, to as int),
{
    let mut i: usize = from;
    let ghost start = out@;
    while i < to
        invariant
            from <= i <= to <= v.len(),
            out@ == start + v@.subrange(from as int, i as int),
        decreases to - i,
    {
        out.push(v[i]);
        i += 1;
        assert(out@ == start + v@.subrange(from as int, i as int));
    }
}

/// Take the comments out of a text.
fn strip_comments(v: &Vec<char>) -> (out: Vec<char>)
    ensures
        out@ == uncommented(v@),
{
    let mut out: Vec<char> = Vec::new();
    let mut i: usize = 0;
    assert(v@.skip(0) == v@);
    assert(out@ + uncommented(v@) == uncommented(v@));
    while i < v.len()
        invariant
            i <= v.len(),
            uncommented(v@) == out@ + uncommented(v@.skip(i as int)),
        decreases v.len() - i,
    {
        let ghost rest = v@.skip(i as int);
        let ghost done = out@;
        let c: char = v[i];
        let comment: bool = c == '/' && v.len() - i >= 2 && (v[i + 1] == '/' || v[i + 1] == '*');
        let end: usize = if c == '"' {
            literal_end(v, i)
        } else if comment && v[i + 1] == '/' {
            line_end(v, i)
        } else if comment {
            block_end(v, i)
        } else {
            i + 1
        };
        assert(end - i == token_len(rest));
        assert(rest.skip(end - i) == v@.skip(end as int));
        if !comment {
            push_range(&mut out, v, i, end);
            assert(v@.subrange(i as int, end as int) == rest.take(end - i));
        }
        i = end;
        assert(uncommented(v@) == out@ + uncommented(v@.skip(i as int)));
    }
    assert(uncommented(v@.skip(i as int)) == Seq::<char>::empty());
    out
}

/// Whether the comma at `at` has a closing bracket as the next thing but
/// whitespace.
fn closes_after(v: &Vec<char>, at: usize) -> (r: bool)
    requires
        at < v.len(),
        v@[at as int] == ',',
    ensures
        r == at_trailing_comma(v@.skip(at as int)),
{
    let mut j: usize = at + 1;
    let ghost next = v@.skip(at as int).skip(1);
    assert(next == v@.skip(j as int));
    while j < v.len() && is_whitespace(v[j])
        invariant
            at < j <= v.len(),
            trimmed_start(next) == trimmed_start(v@.skip(j as int)),
        decreases v.len() - j,
    {
        assert(v@.skip(j as int).skip(1) == v@.skip(j + 1));
        j += 1;
    }
    j < v.len() && (v[j] == ']' || v[j] == '}')
}

/// Take the trailing commas out of a text.
fn drop_trailing_commas(v: &Vec<char>) -> (out: Vec<char>)
    ensures
        out@ == uncommaed(v@),
{
    let mut out: Vec<char> = Vec::new();
    let mut i: usize = 0;
    assert(v@.skip(0) == v@);
    assert(out@ + uncommaed(v@) == uncommaed(v@));
    while i < v.len()
        invariant
            i <= v.len(),
            uncommaed(v@) == out@ + uncommaed(v@.skip(i as int)),
        decreases v.len() - i,
    {
        let ghost rest = v@.skip(i as int);
        let ghost done = out@;
        let c: char = v[i];
        if c == '"' {
            let end: usize = literal_end(v, i);
            push_range(&mut out, v, i, end);
            assert(v@.subrange(i as int, end as int) == rest.take(end - i));
            assert(rest.skip(end - i) == v@.skip(end as int));
            i = end;
        } else {
            assert(rest.skip(1) == v@.skip(i + 1));
            let drop: bool = c == ',' && closes_after(v, i);
            if !drop {
                out.push(c);
                assert(done.push(c) == done + seq![c]);
            }
            i += 1;
        }
        assert(uncommaed(v@) == out@ + uncommaed(v@.skip(i as int)));
    }
    assert(uncommaed(v@.skip(i as int)) == Seq::<char>::empty());
    out
}

/// A text of the given characters.
fn text_of(v: &Vec<char>) -> (s: String)
    ensures
        s@ == v@,
{
    let mut s: String = String::new();
    let mut i: usize = 0;
    while i < v.len()
        invariant
            i <= v.len(),
            s@ == v@.take(i as int),
        decreases v.len() - i,
    {
        s.push(v[i]);
        i += 1;
        assert(s@ == v@.take(i as int));
    }
    assert(v@.take(i as int) == v@);
    s
}

/// Remove the commas that directly precede a `]` or `}`, whitespace aside.
/// String literals are left as they are.
pub fn strip_trailing_commas(input: &str) -> (out: String)
    ensures
        out@ == uncommaed(input@),
{
    text_of(&drop_trailing_commas(&chars_of(input)))
}

/// Strip `//` and `/* */` comments, then trailing commas, from JSONC. String
/// literals are left as they are.
pub fn strip_jsonc(input: &str) -> (out: String)
    ensures
        out@ == uncommaed(uncommented(input@)),
{
    text_of(&drop_trailing_commas(&strip_comments(&chars_of(input))))
}

// ---------------------------------------------------------------------------
// Laws
// ---------------------------------------------------------------------------

/// There is a comment in the text, outside its string literals.
pub open spec fn has_comment(s: Seq<char>) -> bool
    decreases s.len(),
{
    proof {
        if s.len() > 0 {
            lemma_token_len(s);
        }
    }
    s.len() > 0 && (at_line_comment(s) || at_block_comment(s) || has_comment(s.skip(token_len(s))))
}

/// The string literals of a text, outside its comments, in order.
pub open spec fn literals(s: Seq<char>) -> Seq<Seq<char>>
    decreases s.len(),
{
    proof {
        if s.len() > 0 {
            lemma_token_len(s);
        }
    }
    if s.len() == 0 {
        seq![]
    } else if at_literal(s) {
        seq![s.take(token_len(s))] + literals(s.skip(token_len(s)))
    } else {
        literals(s.skip(token_len(s)))
    }
}

/// There is a trailing comma in the text, outside its string literals.
pub open spec fn has_trailing_comma(s: Seq<char>) -> bool
    decreases s.len(),
{
    proof {
        if s.len() > 0 {
            lemma_token_len(s);
        }
    }
    if s.len() == 0 {
        false
    } else if at_literal(s) {
        has_trailing_comma(s.skip(literal_len(s)))
    } else {
        at_trailing_comma(s) || has_trailing_comma(s.skip(1))
    }
}

/// There is a comma with nothing but whitespace between it and the next
/// comma, outside the string literals of the text.
pub open spec fn has_doubled_comma(s: Seq<char>) -> bool
    decreases s.len(),
{
    proof {
        if s.len() > 0 {
            lemma_token_len(s);
        }
    }
    if s.len() == 0 {
        false
    } else if at_literal(s) {
        has_doubled_comma(s.skip(literal_len(s)))
    } else {
        let next = trimmed_start(s.skip(1));
        (s[0] == ',' && next.len() > 0 && next[0] == ',') || has_doubled_comma(s.skip(1))
    }
}

/// A string literal that is closed reaches as far whatever follows it.
proof fn lemma_closed_body(s: Seq<char>, r: Seq<char>)
    requires
        body_len(s) < s.len(),
    ensures
        body_len(s.take(body_len(s) as int) + r) == body_len(s),
    decreases s.len(),
{
    let m = body_len(s) as int;
    let t = s.take(m) + r;
    if s[0] == '"' {
    } else if s[0] == '\\' && s.len() >= 2 {
        lemma_body_len(s.skip(2));
        lemma_closed_body(s.skip(2), r);
        assert(t.skip(2) == s.skip(2).take(m - 2) + r);
    } else {
        lemma_body_len(s.skip(1));
        lemma_closed_body(s.skip(1), r);
        assert(t.skip(1) == s.skip(1).take(m - 1) + r);
    }
}

/// The first token of a text is read the same when something else follows it,
/// so long as the two do not run into each other.
proof fn lemma_token_stands(s: Seq<char>, r: Seq<char>)
    requires
        s.len() > 0,
        !at_line_comment(s),
        !at_block_comment(s),
        token_len(s) == s.len() ==> r.len() == 0,
        s[0] == '/' ==> r.len() == 0 || (r[0] != '/' && r[0] != '*'),
    ensures
        ({
            let n = token_len(s);
            let t = s.take(n) + r;
            &&& !at_line_comment(t)
            &&& !at_block_comment(t)
            &&& at_literal(t) == at_literal(s)
            &&& token_len(t) == n
            &&& t.take(n) == s.take(n)
            &&& t.skip(n) == r
        }),
{
    lemma_token_len(s);
    let n = token_len(s);
    let t = s.take(n) + r;
    assert(t.take(n) == s.take(n));
    assert(t.skip(n) == r);
    assert(t[0] == s[0]);
    if at_literal(s) {
        if n == s.len() {
            assert(t == s);
        } else {
            let u = s.skip(1);
            lemma_closed_body(u, r);
            assert(t.skip(1) == u.take(n - 1) + r);
        }
    }
}

/// Past a lone slash the text goes on with what followed it.
proof fn lemma_after_slash(s: Seq<char>)
    requires
        s.len() > 0,
        s[0] == '/',
        !at_line_comment(s),
        !at_block_comment(s),
    ensures
        ({
            let r = uncommented(s.skip(1));
            r.len() == 0 || (r[0] != '/' && r[0] != '*')
        }),
        ({
            let r = uncommaed(s.skip(1));
            r.len() == 0 || (r[0] != '/' && r[0] != '*')
        }),
{
    let q = s.skip(1);
    if q.len() > 0 {
        lemma_token_len(q);
        assert(q[0] == s[1]);
        assert(uncommented(q)[0] == q[0]);
        if at_trailing_comma(q) {
            let p = q.skip(1);
            assert(p.len() > 0);
            lemma_token_len(p);
            assert(is_space(p[0]) || p[0] == ']' || p[0] == '}');
            assert(uncommaed(p)[0] == p[0]);
        } else {
            assert(uncommaed(q)[0] == q[0]);
        }
    }
}

/// No comment is left once the comments have been taken out, and the string
/// literals are the same.
pub proof fn law_comments_go(s: Seq<char>)
    ensures
        !has_comment(uncommented(s)),
        literals(uncommented(s)) == literals(s),
    decreases s.len(),
{
    if s.len() > 0 {
        lemma_token_len(s);
        let rest = s.skip(token_len(s));
        law_comments_go(rest);
        if !at_line_comment(s) && !at_block_comment(s) {
            if s[0] == '/' {
                lemma_after_slash(s);
            }
            lemma_token_stands(s, uncommented(rest));
        }
    }
}

/// A text without comments is left as it is when comments are taken out.
pub proof fn law_no_comment_no_change(s: Seq<char>)
    requires
        !has_comment(s),
    ensures
        uncommented(s) == s,
    decreases s.len(),
{
    if s.len() > 0 {
        lemma_token_len(s);
        let n = token_len(s);
        law_no_comment_no_change(s.skip(n));
        assert(s.take(n) + s.skip(n) == s);
    }
}

/// Taking trailing commas out of a text without comments leaves one without
/// comments, with the same string literals.
pub proof fn law_commas_go(s: Seq<char>)
    requires
        !has_comment(s),
    ensures
        !has_comment(uncommaed(s)),
        literals(uncommaed(s)) == literals(s),
    decreases s.len(),
{
    if s.len() > 0 {
        lemma_token_len(s);
        let rest = s.skip(token_len(s));
        law_commas_go(rest);
        if !at_trailing_comma(s) {
            if s[0] == '/' {
                lemma_after_slash(s);
            }
            lemma_token_stands(s, uncommaed(rest));
            if !at_literal(s) {
                assert(s.take(1) == seq![s[0]]);
            }
        }
    }
}

/// The first thing but whitespace in a text stays first when trailing commas
/// go, unless it is a comma itself.
proof fn lemma_first_visible(s: Seq<char>)
    ensures
        ({
            let x = trimmed_start(s);
            let y = trimmed_start(uncommaed(s));
            &&& x.len() == 0 ==> y.len() == 0
            &&& x.len() > 0 && x[0] != ',' ==> y.len() > 0 && y[0] == x[0]
        }),
    decreases s.len(),
{
    if s.len() > 0 {
        lemma_token_len(s);
        let u = uncommaed(s);
        if is_space(s[0]) {
            lemma_first_visible(s.skip(1));
            assert(u.skip(1) == uncommaed(s.skip(1)));
        } else if s[0] != ',' {
            assert(u[0] == s[0]);
        }
    }
}

/// Where no comma directly follows another, no trailing comma is left once
/// the trailing commas have been taken out.
pub proof fn law_no_trailing_comma_left(s: Seq<char>)
    requires
        !has_doubled_comma(s),
    ensures
        !has_trailing_comma(uncommaed(s)),
    decreases s.len(),
{
    if s.len() > 0 {
        lemma_token_len(s);
        if at_literal(s) {
            let rest = s.skip(literal_len(s));
            law_no_trailing_comma_left(rest);
            lemma_token_stands(s, uncommaed(rest));
        } else {
            let rest = s.skip(1);
            law_no_trailing_comma_left(rest);
            if !at_trailing_comma(s) {
                let t = uncommaed(s);
                assert(t.skip(1) == uncommaed(rest));
                lemma_first_visible(rest);
            }
        }
    }
}

/// A text without trailing commas is left as it is when they are taken out.
pub proof fn law_no_trailing_comma_no_change(s: Seq<char>)
    requires
        !has_trailing_comma(s),
    ensures
        uncommaed(s) == s,
    decreases s.len(),
{
    if s.len() > 0 {
        lemma_token_len(s);
        if at_literal(s) {
            let n = literal_len(s);
            law_no_trailing_comma_no_change(s.skip(n));
            assert(s.take(n) + s.skip(n) == s);
        } else {
            law_no_trailing_comma_no_change(s.skip(1));
            assert(seq![s[0]] + s.skip(1) == s);
        }
    }
}

/// What `strip_jsonc` gives back holds no comment and the same string
/// literals; plain JSON comes back as it is; and comments alone are stripped
/// once and for all.
pub proof fn law_strip_jsonc(s: Seq<char>)
    ensures
        !has_comment(uncommaed(uncommented(s))),
        literals(uncommaed(uncommented(s))) == literals(s),
        !has_comment(s) && !has_trailing_comma(s) ==> uncommaed(uncommented(s)) == s,
        uncommented(uncommented(s)) == uncommented(s),
{
    law_comments_go(s);
    law_commas_go(uncommented(s));
    law_no_comment_no_change(uncommented(s));
    if !has_comment(s) && !has_trailing_comma(s) {
        law_no_comment_no_change(s);
        law_no_trailing_comma_no_change(s);
    }
}

/// The rest of a string literal, from behind its opening quote, is closed.
pub open spec fn body_closed(s: Seq<char>) -> bool
    decreases s.len(),
{
    if s.len() == 0 {
        false
    } else if s[0] == '"' {
        true
    } else if s[0] == '\\' && s.len() >= 2 {
        body_closed(s.skip(2))
    } else {
        body_closed(s.skip(1))
    }
}

/// There is a `*/` in the text.
pub open spec fn block_closed(s: Seq<char>) -> bool {
    exists|i: int| 0 <= i < s.len() - 1 && #[trigger] s[i] == '*' && s[i + 1] == '/'
}

/// The text ends outside every string literal and comment, and not in a lone
/// slash, which would open a comment with what follows it.
pub open spec fn ends_outside(s: Seq<char>) -> bool
    decreases s.len(),
{
    proof {
        if s.len() > 0 {
            lemma_token_len(s);
        }
    }
    if s.len() == 0 {
        true
    } else {
        &&& at_literal(s) ==> body_closed(s.skip(1))
        &&& at_line_comment(s) ==> index_of(s, '\n') < s.len()
        &&& at_block_comment(s) ==> block_closed(s.skip(2))
        &&& s != seq!['/']
        &&& ends_outside(s.skip(token_len(s)))
    }
}

proof fn lemma_body_stands(s: Seq<char>, r: Seq<char>)
    requires
        body_closed(s),
    ensures
        body_len(s + r) == body_len(s),
    decreases s.len(),
{
    if s[0] == '"' {
    } else if s[0] == '\\' && s.len() >= 2 {
        lemma_body_stands(s.skip(2), r);
        assert((s + r).skip(2) == s.skip(2) + r);
    } else {
        lemma_body_stands(s.skip(1), r);
        assert((s + r).skip(1) == s.skip(1) + r);
    }
}

proof fn lemma_block_stands(s: Seq<char>, r: Seq<char>)
    requires
        block_closed(s),
    ensures
        block_rest_len(s + r) == block_rest_len(s),
    decreases s.len(),
{
    let i = choose|i: int| 0 <= i < s.len() - 1 && #[trigger] s[i] == '*' && s[i + 1] == '/';
    if !(s[0] == '*' && s[1] == '/') {
        let t = s.skip(1);
        assert(t[i - 1] == '*' && t[i - 1 + 1] == '/');
        lemma_block_stands(t, r);
        assert((s + r).skip(1) == t + r);
    }
}

/// What follows a text that ends outside is read as if it stood alone.
proof fn lemma_reads_apart(a: Seq<char>, r: Seq<char>)
    requires
        ends_outside(a),
    ensures
        uncommented(a + r) == uncommented(a) + uncommented(r),
    decreases a.len(),
{
    let s = a + r;
    if a.len() == 0 {
        assert(s == r);
    } else {
        lemma_token_len(a);
        let n = token_len(a);
        assert(s[0] == a[0]);
        if a.len() >= 2 {
            assert(s[1] == a[1]);
        } else if a[0] == '/' {
            assert(a == seq!['/']);
        }
        if at_literal(a) {
            lemma_body_stands(a.skip(1), r);
            assert(s.skip(1) == a.skip(1) + r);
        } else if at_line_comment(a) {
            let m = index_of(a, '\n') as int;
            lemma_first_at(a, '\n');
            assert forall|j: int| 0 <= j < m implies s[j] != '\n' by {
                assert(s[j] == a[j]);
            }
            assert(s[m] == a[m]);
            lemma_index_of(s, '\n', m);
        } else if at_block_comment(a) {
            lemma_block_stands(a.skip(2), r);
            assert(s.skip(2) == a.skip(2) + r);
        }
        assert(at_line_comment(s) == at_line_comment(a));
        assert(at_block_comment(s) == at_block_comment(a));
        assert(token_len(s) == n);
        assert(s.skip(n) == a.skip(n) + r);
        assert(s.take(n) == a.take(n));
        lemma_reads_apart(a.skip(n), r);
        if !at_line_comment(a) && !at_block_comment(a) {
            assert(a.take(n) + (uncommented(a.skip(n)) + uncommented(r)) == (a.take(n)
                + uncommented(a.skip(n))) + uncommented(r));
        }
    }
}

/// Before the first place of a character there is none.
proof fn lemma_first_at(s: Seq<char>, c: char)
    ensures
        index_of(s, c) <= s.len(),
        forall|j: int| 0 <= j < index_of(s, c) ==> s[j] != c,
        index_of(s, c) < s.len() ==> s[index_of(s, c) as int] == c,
    decreases s.len(),
{
    if s.len() > 0 && s[0] != c {
        lemma_first_at(s.skip(1), c);
        let m = index_of(s.skip(1), c) as int;
        assert forall|j: int| 0 <= j < index_of(s, c) implies s[j] != c by {
            if j > 0 {
                assert(s.skip(1)[j - 1] == s[j]);
            }
        }
        if m < s.skip(1).len() {
            assert(s.skip(1)[m] == s[m + 1]);
        }
    }
}

proof fn lemma_block_ends(x: Seq<char>, b: Seq<char>)
    requires
        !block_closed(x),
    ensures
        block_rest_len(x + seq!['*', '/'] + b) == x.len() + 2,
    decreases x.len(),
{
    let s = x + seq!['*', '/'] + b;
    if x.len() > 0 {
        let t = x.skip(1);
        if block_closed(t) {
            let i = choose|i: int|
                0 <= i < t.len() - 1 && #[trigger] t[i] == '*' && t[i + 1] == '/';
            assert(x[i + 1] == '*' && x[i + 1 + 1] == '/');
        }
        lemma_block_ends(t, b);
        assert(s.skip(1) == t + seq!['*', '/'] + b);
        if s[0] == '*' && s[1] == '/' {
            assert(x[0] == '*');
            if x.len() >= 2 {
                assert(x[1] == s[1]);
            }
        }
    }
}

/// A comment makes no difference: put in outside the string literals and
/// comments of a text, a block comment changes nothing, and a line comment
/// nothing but for the line feed that ends it.
pub proof fn law_comment_makes_no_difference(
    a: Seq<char>,
    x: Seq<char>,
    y: Seq<char>,
    b: Seq<char>,
)
    requires
        ends_outside(a),
        !block_closed(x),
        !y.contains('\n'),
    ensures
        uncommaed(uncommented(a + seq!['/', '*'] + x + seq!['*', '/'] + b)) == uncommaed(
            uncommented(a + b),
        ),
        uncommaed(uncommented(a + seq!['/', '/'] + y + seq!['\n'] + b)) == uncommaed(
            uncommented(a + seq!['\n'] + b),
        ),
{
    let block = seq!['/', '*'] + x + seq!['*', '/'] + b;
    lemma_reads_apart(a, block);
    lemma_reads_apart(a, b);
    assert(block.skip(2) == x + seq!['*', '/'] + b);
    lemma_block_ends(x, b);
    assert(at_block_comment(block));
    assert(block.skip(token_len(block)) == b);
    assert(uncommented(block) == uncommented(b));
    assert(a + seq!['/', '*'] + x + seq!['*', '/'] + b == a + block);

    let line = seq!['/', '/'] + y + seq!['\n'] + b;
    let fed = seq!['\n'] + b;
    lemma_reads_apart(a, line);
    lemma_reads_apart(a, fed);
    let m = 2 + y.len() as int;
    assert(line[m] == '\n');
    assert forall|j: int| 0 <= j < m implies line[j] != '\n' by {
        if j >= 2 {
            assert(line[j] == y[j - 2]);
            assert(y.contains(y[j - 2]));
        }
    }
    lemma_index_of(line, '\n', m);
    assert(at_line_comment(line));
    assert(line.skip(m) == fed);
    assert(uncommented(line) == uncommented(fed));
    assert(a + seq!['/', '/'] + y + seq!['\n'] + b == a + line);
    assert(a + seq!['\n'] + b == a + fed);
}

/// What can stand between the quotes of a string literal: no bare quote, and a
/// backslash only with the character that it escapes.
pub open spec fn is_literal_body(x: Seq<char>) -> bool
    decreases x.len(),
{
    if x.len() == 0 {
        true
    } else if x[0] == '\\' {
        x.len() >= 2 && is_literal_body(x.skip(2))
    } else {
        x[0] != '"' && is_literal_body(x.skip(1))
    }
}

proof fn lemma_literal_body(x: Seq<char>, b: Seq<char>)
    requires
        is_literal_body(x),
    ensures
        body_len(x + seq!['"'] + b) == x.len() + 1,
    decreases x.len(),
{
    let s = x + seq!['"'] + b;
    if x.len() > 0 {
        if x[0] == '\\' {
            lemma_literal_body(x.skip(2), b);
            assert(s.skip(2) == x.skip(2) + seq!['"'] + b);
        } else {
            lemma_literal_body(x.skip(1), b);
            assert(s.skip(1) == x.skip(1) + seq!['"'] + b);
        }
    }
}

/// A string literal stays as it is, whatever it holds: neither what looks like
/// a comment in it nor what looks like a trailing comma is touched.
pub proof fn law_literal_is_kept(a: Seq<char>, x: Seq<char>, b: Seq<char>)
    requires
        ends_outside(a),
        is_literal_body(x),
    ensures
        uncommented(a + (seq!['"'] + x + seq!['"'] + b)) == uncommented(a) + (seq!['"'] + x + seq![
            '"',
        ] + uncommented(b)),
        uncommaed(seq!['"'] + x + seq!['"'] + b) == seq!['"'] + x + seq!['"'] + uncommaed(b),
{
    let s = seq!['"'] + x + seq!['"'] + b;
    let n = x.len() as int + 2;
    assert(s.skip(1) == x + seq!['"'] + b);
    lemma_literal_body(x, b);
    assert(literal_len(s) == n);
    assert(s.skip(n) == b);
    assert(s.take(n) == seq!['"'] + x + seq!['"']);
    lemma_reads_apart(a, s);
}

/// Outside of strings, every character that begins no comment is kept.
pub proof fn law_plain_text_is_kept(a: Seq<char>, c: char, b: Seq<char>)
    requires
        ends_outside(a),
        c != '"',
        c == '/' ==> b.len() == 0 || (b[0] != '/' && b[0] != '*'),
    ensures
        uncommented(a + (seq![c] + b)) == uncommented(a) + (seq![c] + uncommented(b)),
{
    let s = seq![c] + b;
    lemma_reads_apart(a, s);
    assert(s.skip(1) == b);
    assert(s.take(1) == seq![c]);
    if b.len() > 0 {
        assert(s[1] == b[0]);
    }
    assert(token_len(s) == 1);
}

/// A comma goes if nothing but whitespace stands between it and a closing
/// bracket; any other comma stays, and so does every other character.
pub proof fn law_trailing_comma_goes(blanks: Seq<char>, c: char, b: Seq<char>, d: char)
    requires
        forall|i: int| 0 <= i < blanks.len() ==> is_space(#[trigger] blanks[i]),
        !is_space(c),
        d != '"' && d != ',',
    ensures
        c == ']' || c == '}' ==> uncommaed(seq![','] + (blanks + seq![c] + b)) == uncommaed(
            blanks + seq![c] + b,
        ),
        c != ']' && c != '}' ==> uncommaed(seq![','] + (blanks + seq![c] + b)) == seq![',']
            + uncommaed(blanks + seq![c] + b),
        uncommaed(seq![d] + b) == seq![d] + uncommaed(b),
{
    let rest = blanks + seq![c] + b;
    let s = seq![','] + rest;
    assert(s.skip(1) == rest);
    lemma_blanks_go(blanks, c, b);
    let t = seq![d] + b;
    assert(t.skip(1) == b);
    assert(t.take(1) == seq![d]);
    assert(s.take(1) == seq![',']);
}

proof fn lemma_blanks_go(blanks: Seq<char>, c: char, b: Seq<char>)
    requires
        forall|i: int| 0 <= i < blanks.len() ==> is_space(#[trigger] blanks[i]),
        !is_space(c),
    ensures
        trimmed_start(blanks + seq![c] + b) == seq![c] + b,
    decreases blanks.len(),
{
    let s = blanks + seq![c] + b;
    if blanks.len() > 0 {
        let rest = blanks.skip(1);
        assert forall|i: int| 0 <= i < rest.len() implies is_space(#[trigger] rest[i]) by {
            assert(rest[i] == blanks[i + 1]);
        }
        lemma_blanks_go(rest, c, b);
        assert(s[0] == blanks[0]);
        assert(s.skip(1) == rest + seq![c] + b);
    } else {
        assert(s == seq![c] + b);
    }
}

} // verus!
