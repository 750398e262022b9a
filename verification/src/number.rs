//! Numbers in decimal.

use crate::text::chars_of;
use vstd::prelude::*;

verus! {

/// The character of a digit.
pub open spec fn digit_char(d: nat) -> char {
    (48 + d) as char
}

/// A number in decimal, without leading zeros.
pub open spec fn decimal(n: nat) -> Seq<char>
    decreases n,
{
    if n < 10 {
        seq![digit_char(n)]
    } else {
        decimal(n / 10).push(digit_char(n % 10))
    }
}

/// True for the ten ASCII digits.
pub open spec fn is_digit(c: char) -> bool {
    '0' <= c <= '9'
}

/// A text of one or more digits and nothing else.
pub open spec fn is_number(s: Seq<char>) -> bool {
    &&& s.len() > 0
    &&& forall|i: int| 0 <= i < s.len() ==> is_digit(#[trigger] s[i])
}

/// What a text of digits says in decimal.
pub open spec fn value(s: Seq<char>) -> nat
    decreases s.len(),
{
    if s.len() == 0 {
        0
    } else {
        value(s.drop_last()) * 10 + (s.last() as nat - 48) as nat
    }
}

/// What a text says as a whole number with an optional sign.
pub open spec fn signed(s: Seq<char>) -> Option<int> {
    if s.len() > 0 && s[0] == '-' && is_number(s.skip(1)) {
        Some(-(value(s.skip(1)) as int))
    } else if s.len() > 0 && s[0] == '+' && is_number(s.skip(1)) {
        Some(value(s.skip(1)) as int)
    } else if is_number(s) {
        Some(value(s) as int)
    } else {
        None
    }
}

/// What a text says as a whole number with an optional plus sign.
pub open spec fn unsigned(s: Seq<char>) -> Option<nat> {
    if s.len() > 0 && s[0] == '+' && is_number(s.skip(1)) {
        Some(value(s.skip(1)))
    } else if is_number(s) {
        Some(value(s))
    } else {
        None
    }
}

/// A number in decimal.
pub fn to_decimal(n: u64) -> (r: String)
    ensures
        r@ == decimal(n as nat),
    decreases n,
{
    let mut r: String = if n < 10 {
        String::new()
    } else {
        to_decimal(n / 10)
    };
    let d: u8 = (n % 10) as u8;
    r.push((48u8 + d) as char);
    r
}

/// Longer texts of digits say no less.
proof fn lemma_value_grows(s: Seq<char>, i: int, j: int)
    requires
        0 <= i <= j <= s.len(),
    ensures
        value(s.take(i)) <= value(s.take(j)),
    decreases j - i,
{
    if i < j {
        lemma_value_grows(s, i, j - 1);
        assert(s.take(j).drop_last() == s.take(j - 1));
    }
}

/// Read the digits of `v` from index `from` on: `None` where there are none,
/// where there is something else, or where the number is above `u64::MAX`.
fn digits(v: &Vec<char>, from: usize) -> (r: Option<u64>)
    requires
        from <= v.len(),
    ensures
        match r {
            Some(n) => is_number(v@.skip(from as int)) && n == value(v@.skip(from as int)),
            None => is_number(v@.skip(from as int)) ==> value(v@.skip(from as int)) > u64::MAX,
        },
{
    let ghost s = v@.skip(from as int);
    if from == v.len() {
        return None;
    }
    let mut n: u64 = 0;
    let mut i: usize = from;
    while i < v.len()
        invariant
            s == v@.skip(from as int),
            from <= i <= v.len(),
            forall|j: int| 0 <= j < i - from ==> is_digit(#[trigger] s[j]),
            n == value(s.take(i - from)),
        decreases v.len() - i,
    {
        let c: char = v[i];
        if c < '0' || '9' < c {
            assert(!is_digit(s[i - from]));
            return None;
        }
        let d: u64 = (c as u32 - 48) as u64;
        assert(s.take(i - from + 1).drop_last() == s.take(i - from));
        assert(s.take(i - from + 1).last() == c);
        assert(value(s.take(i - from + 1)) == n * 10 + d);
        assert(s.take(s.len() as int) == s);
        if n > 1844674407370955161 {
            proof {
                lemma_value_grows(s, i - from + 1, s.len() as int);
            }
            return None;
        }
        let ten: u64 = n * 10;
        if d > u64::MAX - ten {
            proof {
                lemma_value_grows(s, i - from + 1, s.len() as int);
            }
            return None;
        }
        n = ten + d;
        i += 1;
    }
    assert(s.take(i - from) == s);
    Some(n)
}

/// Read a text as an `i64`: an optional sign, then digits.
pub fn parse_i64(s: &str) -> (r: Option<i64>)
    ensures
        match signed(s@) {
            Some(n) => if i64::MIN <= n <= i64::MAX {
                r == Some(n as i64)
            } else {
                r is None
            },
            None => r is None,
        },
{
    let v = chars_of(s);
    if v.len() == 0 {
        return None;
    }
    if v[0] == '-' {
        assert(!is_digit(s@[0]));
        match digits(&v, 1) {
            Some(n) => if n <= 9223372036854775807 {
                Some(-(n as i64))
            } else if n == 9223372036854775808 {
                Some(i64::MIN)
            } else {
                None
            },
            None => None,
        }
    } else {
        let from: usize = if v[0] == '+' {
            1
        } else {
            0
        };
        assert(s@.skip(0) == s@);
        assert(from == 1 ==> !is_digit(s@[0]));
        match digits(&v, from) {
            Some(n) => if n <= 9223372036854775807 {
                Some(n as i64)
            } else {
                None
            },
            None => None,
        }
    }
}

/// Read a text as a `usize`: an optional plus sign, then digits.
pub fn parse_usize(s: &str) -> (r: Option<usize>)
    ensures
        match unsigned(s@) {
            Some(n) => if n <= usize::MAX {
                r == Some(n as usize)
            } else {
                r is None
            },
            None => r is None,
        },
{
    let v = chars_of(s);
    if v.len() == 0 {
        return None;
    }
    let from: usize = if v[0] == '+' {
        1
    } else {
        0
    };
    assert(s@.skip(0) == s@);
    assert(from == 1 ==> !is_digit(s@[0]));
    match digits(&v, from) {
        Some(n) => if n <= usize::MAX as u64 {
            Some(n as usize)
        } else {
            None
        },
        None => None,
    }
}

// ---------------------------------------------------------------------------
// Laws
// ---------------------------------------------------------------------------

/// A number in decimal is made of digits, and reads back as the number.
pub proof fn law_decimal_reads_back(n: nat)
    ensures
        is_number(decimal(n)),
        value(decimal(n)) == n,
        unsigned(decimal(n)) == Some(n),
        signed(decimal(n)) == Some(n as int),
    decreases n,
{
    lemma_digit_char(n % 10);
    if n >= 10 {
        law_decimal_reads_back(n / 10);
        let front = decimal(n / 10);
        assert(decimal(n).drop_last() == front);
        assert forall|i: int| 0 <= i < decimal(n).len() implies is_digit(
            #[trigger] decimal(n)[i],
        ) by {
            if i < front.len() {
                assert(decimal(n)[i] == front[i]);
            }
        }
    } else {
        assert(n % 10 == n);
        assert(decimal(n).drop_last() == Seq::<char>::empty());
        assert(value(Seq::<char>::empty()) == 0);
    }
    assert(is_digit(decimal(n)[0]));
}

proof fn lemma_digit_char(d: nat)
    requires
        d < 10,
    ensures
        is_digit(digit_char(d)),
        digit_char(d) as nat == 48 + d,
{
}

/// The digits of a number count by tens, from the right.
pub proof fn law_digits_count_by_tens(front: Seq<char>, d: nat)
    requires
        d < 10,
    ensures
        value(front.push((48 + d) as char)) == value(front) * 10 + d,
{
    lemma_digit_char(d);
    assert(front.push((48 + d) as char).drop_last() == front);
}

} // verus!
