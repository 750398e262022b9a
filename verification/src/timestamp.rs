//! Timestamps as docker prints them, in seconds since the Unix epoch.

use crate::number::{is_digit, is_number, parse_i64, value};
use crate::text::{
    chars_of, cut_at, index_of, is_space, law_pieces_in_parts, lemma_cut_at, lemma_index_cuts,
    lemma_pieces_some, pieces, split, split_once, trim, trimmed,
};
use vstd::prelude::*;

verus! {

// ---------------------------------------------------------------------------
// The calendar
// ---------------------------------------------------------------------------

/// Leap years of the Gregorian calendar.
pub open spec fn is_leap(year: int) -> bool {
    year % 4 == 0 && (year % 100 != 0 || year % 400 == 0)
}

/// How many leap years there are from year 1 up to a year, that year left out;
/// less than zero going backwards.
pub open spec fn leaps_before(year: int) -> int {
    (year - 1) / 4 - (year - 1) / 100 + (year - 1) / 400
}

/// The days from 1970-01-01 to the first day of a year.
pub open spec fn year_start(year: int) -> int {
    365 * (year - 1970) + leaps_before(year) - leaps_before(1970)
}

/// How many days a month has.
pub open spec fn month_length(year: int, month: int) -> int {
    if month == 2 {
        if is_leap(year) {
            29
        } else {
            28
        }
    } else if month == 4 || month == 6 || month == 9 || month == 11 {
        30
    } else {
        31
    }
}

/// The days from the first day of a year to the first day of a month of it.
pub open spec fn month_start(year: int, month: int) -> int
    decreases month,
{
    if month <= 1 {
        0
    } else {
        month_start(year, month - 1) + month_length(year, month - 1)
    }
}

/// The days from 1970-01-01 to a date. Days past the end of the month count
/// on into the next one.
pub open spec fn day_number(year: int, month: int, day: int) -> int {
    year_start(year) + month_start(year, month) + day - 1
}

/// The seconds from the Unix epoch to a time of day on a date.
pub open spec fn instant(
    year: int,
    month: int,
    day: int,
    hour: int,
    minute: int,
    second: int,
) -> int {
    day_number(year, month, day) * 86400 + hour * 3600 + minute * 60 + second
}

/// Where the months start, written out.
#[verifier::rlimit(40)]
proof fn lemma_month_start(year: int, month: int)
    requires
        1 <= month <= 12,
    ensures
        month > 2 ==> month_start(year, month) == (153 * (month - 3) + 2) / 5 + if is_leap(year) {
            60int
        } else {
            59int
        },
        month <= 2 ==> month_start(year, month) == (month - 1) * 31,
{
    reveal_with_fuel(month_start, 13);
}

/// Counting leap years up to the next year adds one after a leap year.
proof fn lemma_leaps_next(year: int)
    ensures
        leaps_before(year + 1) == leaps_before(year) + if is_leap(year) {
            1int
        } else {
            0int
        },
{
}

/// The epoch is day 0, and each day is followed by the next: within a month,
/// from the last day of a month to the first of the next, and from the last
/// day of a year to the first of the next.
pub proof fn law_days_follow(year: int, month: int, day: int)
    requires
        1 <= month <= 12,
    ensures
        day_number(1970, 1, 1) == 0,
        day_number(year, month, day + 1) == day_number(year, month, day) + 1,
        month < 12 ==> day_number(year, month + 1, 1) == day_number(
            year,
            month,
            month_length(year, month),
        ) + 1,
        day_number(year + 1, 1, 1) == day_number(year, 12, 31) + 1,
{
    lemma_leaps_next(year);
    lemma_month_start(year, 12);
    reveal_with_fuel(month_start, 2);
}

/// A date of an earlier year, or an earlier month of the same year, has an
/// earlier number.
pub proof fn law_dates_are_ordered(
    year: int,
    month: int,
    day: int,
    later_year: int,
    later_month: int,
    later_day: int,
)
    requires
        1 <= month <= 12,
        1 <= day <= month_length(year, month),
        1 <= later_month <= 12,
        1 <= later_day <= month_length(later_year, later_month),
        year < later_year || (year == later_year && (month < later_month || (month == later_month
            && day < later_day))),
    ensures
        day_number(year, month, day) < day_number(later_year, later_month, later_day),
{
    lemma_month_start(year, month);
    lemma_month_start(later_year, later_month);
    if year < later_year {
        assert(month_start(year, month) + day <= 366);
        lemma_years_grow(year + 1, later_year);
        lemma_leaps_next(year);
        assert(month_start(year, month) + day <= if is_leap(year) {
            366int
        } else {
            365int
        });
    }
}

proof fn lemma_years_grow(year: int, later: int)
    requires
        year <= later,
    ensures
        year_start(year) <= year_start(later),
    decreases later - year,
{
    if year < later {
        lemma_leaps_next(later - 1);
        lemma_years_grow(year, later - 1);
    }
}

/// Leap years, counted by whole spans of 400 years and what is left.
proof fn lemma_leaps_by_era(y: int)
    ensures
        y == 400 * (y / 400) + y % 400,
        0 <= y % 400 < 400,
        leaps_before(y + 1) == 97 * (y / 400) + (y % 400) / 4 - (y % 400) / 100,
{
    let era = y / 400;
    let yoe = y % 400;
    assert((400 * era + yoe) / 4 == 100 * era + yoe / 4);
    assert((400 * era + yoe) / 100 == 4 * era + yoe / 100);
}

/// Division towards minus infinity, by way of whole numbers.
proof fn lemma_floor(y: int)
    requires
        y < 0,
    ensures
        -((399 - y) / 400) == y / 400,
{
}

/// A year that starts in March, with January and February as its last months,
/// has its leap day at its end.
#[verifier::rlimit(40)]
proof fn lemma_from_march(year: int, month: int, day: int, y: int, mp: int)
    requires
        1 <= month <= 12,
        month <= 2 ==> y == year - 1 && mp == month + 9,
        month > 2 ==> y == year && mp == month - 3,
    ensures
        day_number(year, month, day) == 365 * y + leaps_before(y + 1) + (153 * mp + 2) / 5 + day - 1
            - 719468,
{
    lemma_month_start(year, month);
    lemma_leaps_next(year);
    assert(leaps_before(1970) == 477);
}

/// Days from the epoch, counted from March on so that a leap day comes last.
#[verifier::rlimit(40)]
fn days_from_civil(year: i64, month: i64, day: i64) -> (r: i128)
    requires
        1 <= month <= 12,
        1 <= day <= 31,
    ensures
        r == day_number(year as int, month as int, day as int),
        -4_000_000_000_000_000_000_000 < r < 4_000_000_000_000_000_000_000,
{
    let wide: i128 = year as i128;
    let y: i128 = if month <= 2 {
        wide - 1
    } else {
        wide
    };
    let era: i128 = if y >= 0 {
        y / 400
    } else {
        proof {
            lemma_floor(y as int);
        }
        -((399 - y) / 400)
    };
    proof {
        lemma_leaps_by_era(y as int);
    }
    assert(era == y as int / 400);
    let yoe: i128 = y - era * 400;
    let mp: i128 = if month > 2 {
        (month - 3) as i128
    } else {
        (month + 9) as i128
    };
    let doy: i128 = (153 * mp + 2) / 5 + day as i128 - 1;
    let doe: i128 = yoe * 365 + yoe / 4 - yoe / 100 + doy;
    proof {
        lemma_from_march(year as int, month as int, day as int, y as int, mp as int);
    }
    era * 146097 + doe - 719468
}

// ---------------------------------------------------------------------------
// The text
// ---------------------------------------------------------------------------

/// A piece as a number, if it is made of digits and fits in 64 bits.
pub open spec fn number_at(list: Seq<Seq<char>>, i: int) -> Option<int> {
    if is_number(list[i]) && value(list[i]) <= i64::MAX {
        Some(value(list[i]) as int)
    } else {
        None
    }
}

/// A text without the `Z` at its end, if it has one.
pub open spec fn without_z(s: Seq<char>) -> Seq<char> {
    if s.len() > 0 && s.last() == 'Z' {
        s.drop_last()
    } else {
        s
    }
}

/// A clock time on its own, or with a fraction of one or more digits behind a
/// dot.
pub open spec fn is_clock(parts: Seq<Seq<char>>) -> bool {
    parts.len() == 1 || (parts.len() == 2 && is_number(parts[1]))
}

/// What the pieces of a date and of a clock time say in seconds since the Unix
/// epoch: three each, with a month from 1 to 12, a day from 1 to 31, an hour
/// up to 23, a minute up to 59 and a second up to 60.
pub open spec fn pieces_instant(date: Seq<Seq<char>>, clock: Seq<Seq<char>>) -> Option<int> {
    if date.len() != 3 || clock.len() != 3 {
        None
    } else {
        match (
            (number_at(date, 0), number_at(date, 1), number_at(date, 2)),
            (number_at(clock, 0), number_at(clock, 1), number_at(clock, 2)),
        ) {
            (
                (Some(year), Some(month), Some(day)),
                (Some(hour), Some(minute), Some(second)),
            ) => if 1 <= month <= 12 && 1 <= day <= 31 && hour <= 23 && minute <= 59 && second <= 60
                && instant(year, month, day, hour, minute, second) <= i64::MAX {
                Some(instant(year, month, day, hour, minute, second))
            } else {
                None
            },
            _ => None,
        }
    }
}

/// What a UTC timestamp `YYYY-MM-DDTHH:MM:SS[.fff...][Z]` says in seconds
/// since the Unix epoch. Any other shape says nothing, and neither does one
/// whose seconds do not fit in 64 bits.
pub open spec fn timestamp(s: Seq<char>) -> Option<int> {
    let t = trimmed(s);
    let at = index_of(t, 'T') as int;
    let parts = pieces(without_z(t.skip(at + 1)), '.');
    if at < t.len() && is_clock(parts) {
        pieces_instant(pieces(t.take(at), '-'), pieces(parts[0], ':'))
    } else {
        None
    }
}

/// True for one or more digits and nothing else.
fn all_digits(s: &str) -> (r: bool)
    ensures
        r == is_number(s@),
{
    let v = chars_of(s);
    let mut i: usize = 0;
    while i < v.len()
        invariant
            v@ == s@,
            i <= v.len(),
            forall|j: int| 0 <= j < i ==> is_digit(#[trigger] s@[j]),
        decreases v.len() - i,
    {
        if v[i] < '0' || '9' < v[i] {
            assert(!is_digit(s@[i as int]));
            return false;
        }
        i += 1;
    }
    v.len() > 0
}

/// A text as a number, if it is made of digits and fits.
fn parse_digits(s: &str) -> (r: Option<i64>)
    ensures
        match r {
            Some(n) => is_number(s@) && value(s@) == n,
            None => is_number(s@) ==> value(s@) > i64::MAX,
        },
{
    if all_digits(s) {
        assert(is_digit(s@[0]));
        parse_i64(s)
    } else {
        None
    }
}

/// A piece as a number, if it is made of digits and fits.
fn parse_at(list: &Vec<&str>, i: usize) -> (r: Option<i64>)
    requires
        i < list.len(),
    ensures
        match r {
            Some(n) => number_at(list.deep_view(), i as int) == Some(n as int),
            None => number_at(list.deep_view(), i as int) is None,
        },
{
    assert(list.deep_view()[i as int] == list@[i as int]@);
    parse_digits(list[i])
}

/// A text without the `Z` at its end, if it has one.
fn drop_z<'a>(s: &'a str) -> (r: &'a str)
    ensures
        r@ == without_z(s@),
{
    let v = chars_of(s);
    if v.len() > 0 && v[v.len() - 1] == 'Z' {
        assert(s@.drop_last() == s@.subrange(0, v.len() - 1));
        s.substring_char(0, v.len() - 1)
    } else {
        s
    }
}

/// What the pieces of a date and of a clock time say.
#[verifier::rlimit(40)]
fn seconds_of(date: &Vec<&str>, clock: &Vec<&str>) -> (r: Option<i64>)
    ensures
        match r {
            Some(n) => pieces_instant(date.deep_view(), clock.deep_view()) == Some(n as int),
            None => pieces_instant(date.deep_view(), clock.deep_view()) is None,
        },
{
    if date.len() != 3 || clock.len() != 3 {
        return None;
    }
    match (
        (parse_at(date, 0), parse_at(date, 1), parse_at(date, 2)),
        (parse_at(clock, 0), parse_at(clock, 1), parse_at(clock, 2)),
    ) {
        ((Some(year), Some(month), Some(day)), (Some(hour), Some(min), Some(sec))) => {
            if month < 1 || month > 12 || day < 1 || day > 31 || hour > 23 || min > 59 || sec > 60 {
                return None;
            }
            let days = days_from_civil(year, month, day);
            proof {
                lemma_not_too_early(year as int, month as int, day as int);
            }
            let secs: i128 = days * 86400 + hour as i128 * 3600 + min as i128 * 60 + sec as i128;
            if secs > i64::MAX as i128 {
                return None;
            }
            Some(secs as i64)
        },
        _ => None,
    }
}

/// No date from year 0 on lies further back than 64 bits of seconds reach.
proof fn lemma_not_too_early(year: int, month: int, day: int)
    requires
        year >= 0,
        1 <= month <= 12,
        day >= 1,
    ensures
        day_number(year, month, day) >= -719528,
{
    lemma_years_grow(0, year);
    lemma_month_start(year, month);
    assert(year_start(0) == -719528);
}

/// Parse a docker `.Created` timestamp to Unix epoch seconds. Docker always
/// emits UTC with a `Z` suffix, so numeric offsets are not handled. `None` on
/// any shape that is not recognized, and where the seconds do not fit.
pub fn parse_rfc3339_secs(s: &str) -> (r: Option<i64>)
    ensures
        match r {
            Some(n) => timestamp(s@) == Some(n as int),
            None => timestamp(s@) is None,
        },
{
    let s = trim(s);
    let (date, rest) = match split_once(s, 'T') {
        Some(halves) => halves,
        None => return None,
    };
    let bare = drop_z(rest);
    let parts = split(bare, '.');
    proof {
        lemma_pieces_some(bare@, '.');
        assert(parts.deep_view()[0] == parts@[0]@);
    }
    if parts.len() > 2 {
        return None;
    }
    if parts.len() == 2 {
        assert(parts.deep_view()[1] == parts@[1]@);
        if !all_digits(parts[1]) {
            return None;
        }
    }
    seconds_of(&split(date, '-'), &split(parts[0], ':'))
}

// ---------------------------------------------------------------------------
// Laws
// ---------------------------------------------------------------------------

/// The calendar is the Gregorian one: every fourth year is a leap year, but of
/// the centuries only every fourth; and the months have the days they have.
pub proof fn law_gregorian_calendar(year: int, month: int, day: int)
    requires
        1 <= month <= 12,
    ensures
        year % 4 != 0 ==> !is_leap(year),
        year % 4 == 0 && year % 100 != 0 ==> is_leap(year),
        year % 100 == 0 && year % 400 != 0 ==> !is_leap(year),
        year % 400 == 0 ==> is_leap(year),
        month == 2 ==> month_length(year, month) == if is_leap(year) {
            29int
        } else {
            28int
        },
        month == 4 || month == 6 || month == 9 || month == 11 ==> month_length(year, month) == 30,
        month == 1 || month == 3 || month == 5 || month == 7 || month == 8 || month == 10 || month
            == 12 ==> month_length(year, month) == 31,
        day_number(year + 1, 1, 1) - day_number(year, 1, 1) == if is_leap(year) {
            366int
        } else {
            365int
        },
{
    lemma_leaps_next(year);
    reveal_with_fuel(month_start, 2);
}

/// Four hundred years have the same number of days, whenever they begin.
pub proof fn law_calendar_repeats(year: int, month: int, day: int)
    requires
        1 <= month <= 12,
    ensures
        day_number(year + 400, month, day) == day_number(year, month, day) + 146097,
{
    lemma_leaps_repeat(year);
    lemma_month_repeats(year, month);
}

/// In four hundred years there are 97 leap years, and they lie alike.
proof fn lemma_leaps_repeat(year: int)
    ensures
        is_leap(year + 400) == is_leap(year),
        leaps_before(year + 400) == leaps_before(year) + 97,
{
    let n = year - 1;
    assert((n + 400) / 4 == n / 4 + 100);
    assert((n + 400) / 100 == n / 100 + 4);
    assert((n + 400) / 400 == n / 400 + 1);
    assert(year + 400 - 1 == n + 400);
    assert((year + 400) % 4 == year % 4);
    assert((year + 400) % 100 == year % 100);
    assert((year + 400) % 400 == year % 400);
}

proof fn lemma_month_repeats(year: int, month: int)
    requires
        is_leap(year + 400) == is_leap(year),
    ensures
        month_start(year + 400, month) == month_start(year, month),
    decreases month,
{
    if month > 1 {
        lemma_month_repeats(year, month - 1);
    }
}

/// An hour has 3600 seconds, a minute has 60, and a day has 24 hours.
pub proof fn law_time_of_day(
    year: int,
    month: int,
    day: int,
    hour: int,
    minute: int,
    second: int,
)
    ensures
        instant(year, month, day, hour, minute, second) == instant(year, month, day, 0, 0, 0) + hour
            * 3600 + minute * 60 + second,
        instant(year, month, day + 1, 0, 0, 0) == instant(year, month, day, 0, 0, 0) + 86400,
        instant(1970, 1, 1, 0, 0, 0) == 0,
{
}

/// A text of digits is one piece.
proof fn lemma_number_is_one_piece(s: Seq<char>, sep: char)
    requires
        is_number(s),
        !is_digit(sep),
    ensures
        pieces(s, sep) == seq![s],
        !s.contains(sep),
{
    lemma_index_cuts(s, sep);
    if s.contains(sep) {
        let i = s.index_of(sep);
        assert(is_digit(s[i]));
    }
}

/// Three numbers with a separator between them are three pieces.
proof fn lemma_three_pieces(a: Seq<char>, b: Seq<char>, c: Seq<char>, sep: char)
    requires
        is_number(a),
        is_number(b),
        is_number(c),
        !is_digit(sep),
    ensures
        pieces(a + seq![sep] + b + seq![sep] + c, sep) == seq![a, b, c],
{
    lemma_number_is_one_piece(a, sep);
    lemma_number_is_one_piece(b, sep);
    lemma_number_is_one_piece(c, sep);
    law_pieces_in_parts(a, b, sep);
    law_pieces_in_parts(a + seq![sep] + b, c, sep);
    assert(pieces(a + seq![sep] + b + seq![sep] + c, sep) == seq![a, b, c]);
}

/// A text without whitespace at its ends is trimmed.
proof fn lemma_is_trimmed(s: Seq<char>)
    requires
        s.len() > 0,
        !is_space(s[0]),
        !is_space(s.last()),
    ensures
        trimmed(s) == s,
{
}

/// The instant that a date and a time of day in range make, if it fits.
pub open spec fn instant_in_range(
    year: nat,
    month: nat,
    day: nat,
    hour: nat,
    minute: nat,
    second: nat,
) -> Option<int> {
    let t = instant(
        year as int,
        month as int,
        day as int,
        hour as int,
        minute as int,
        second as int,
    );
    if year <= i64::MAX && 1 <= month <= 12 && 1 <= day <= 31 && hour <= 23 && minute <= 59 && second
        <= 60 && t <= i64::MAX {
        Some(t)
    } else {
        None
    }
}

/// A timestamp says the date and the time of day that its numbers say, in
/// UTC; with a fraction or without, and with a `Z` or without. With a numeric
/// offset it says nothing.
#[verifier::rlimit(60)]
pub proof fn law_timestamp_says_its_numbers(
    y: Seq<char>,
    m: Seq<char>,
    d: Seq<char>,
    h: Seq<char>,
    mi: Seq<char>,
    s: Seq<char>,
    fraction: Seq<char>,
    offset: Seq<char>,
)
    requires
        is_number(y),
        is_number(m),
        is_number(d),
        is_number(h),
        is_number(mi),
        is_number(s),
        is_number(fraction),
        offset.len() > 0,
        offset[0] == '+' || offset[0] == '-',
        !is_space(offset.last()),
        !offset.contains('.'),
    ensures
        ({
            let date = y + seq!['-'] + m + seq!['-'] + d;
            let clock = h + seq![':'] + mi + seq![':'] + s;
            let said = instant_in_range(value(y), value(m), value(d), value(h), value(mi), value(s));
            &&& timestamp(date + seq!['T'] + clock) == said
            &&& timestamp(date + seq!['T'] + (clock + seq!['Z'])) == said
            &&& timestamp(date + seq!['T'] + (clock + seq!['.'] + fraction)) == said
            &&& timestamp(date + seq!['T'] + (clock + seq!['.'] + fraction + seq!['Z'])) == said
            &&& timestamp(date + seq!['T'] + (clock + seq!['.'] + (fraction + offset))) is None
        }),
{
    let date = y + seq!['-'] + m + seq!['-'] + d;
    let clock = h + seq![':'] + mi + seq![':'] + s;
    lemma_three_pieces(y, m, d, '-');
    lemma_three_pieces(h, mi, s, ':');
    assert(!date.contains('T')) by {
        lemma_no_letter(y, m, d, '-', 'T');
    }
    assert(!clock.contains('.')) by {
        lemma_no_letter(h, mi, s, ':', '.');
    }
    lemma_index_cuts(clock, '.');
    lemma_number_is_one_piece(fraction, '.');
    law_pieces_in_parts(clock, fraction, '.');
    assert(is_digit(s.last()));
    assert(is_digit(fraction.last()));
    assert(is_digit(y[0]));
    let plain = clock;
    let exact = clock + seq!['.'] + fraction;
    assert(pieces(plain, '.') == seq![clock]);
    assert(pieces(exact, '.') == seq![clock, fraction]);
    lemma_says(date, plain, plain, fraction);
    lemma_says(date, clock + seq!['Z'], plain, fraction);
    lemma_says(date, exact, exact, fraction);
    lemma_says(date, exact + seq!['Z'], exact, fraction);
    // With an offset, what is behind the dot is no number.
    let rest = clock + seq!['.'] + (fraction + offset);
    let bare = without_z(rest);
    assert(rest.last() == offset.last());
    lemma_rest(date, rest);
    let part = without_z(fraction + offset);
    assert(bare == clock + seq!['.'] + part);
    assert(part[fraction.len() as int] == offset[0] || part == fraction) by {
        if part.len() > fraction.len() {
            assert(part[fraction.len() as int] == offset[0]);
        } else {
            assert(offset.len() == 1);
            assert(offset.last() == offset[0]);
        }
    }
    assert(part.len() > fraction.len()) by {
        if offset.len() == 1 {
            assert((fraction + offset).last() == offset[0]);
        }
    }
    assert(!is_digit(part[fraction.len() as int]));
    assert(!is_number(part));
    assert(!part.contains('.')) by {
        if part.contains('.') {
            let i = part.index_of('.');
            assert(part[i] == (fraction + offset)[i]);
            if i < fraction.len() {
                assert(is_digit(fraction[i]));
            } else {
                assert(offset[i - fraction.len()] == '.');
                assert(offset.contains(offset[i - fraction.len()]));
            }
        }
    }
    lemma_index_cuts(part, '.');
    law_pieces_in_parts(clock, part, '.');
    assert(pieces(bare, '.') == seq![clock, part]);
}

/// Neither a number nor a separator is another character.
proof fn lemma_no_letter(a: Seq<char>, b: Seq<char>, c: Seq<char>, sep: char, other: char)
    requires
        is_number(a),
        is_number(b),
        is_number(c),
        !is_digit(other),
        other != sep,
    ensures
        !(a + seq![sep] + b + seq![sep] + c).contains(other),
{
    let all = a + seq![sep] + b + seq![sep] + c;
    if all.contains(other) {
        let i = all.index_of(other);
        let n = a.len() as int;
        let m = n + 1 + b.len() as int;
        if i < n {
            assert(is_digit(a[i]));
        } else if i == n {
            assert(all[i] == sep);
        } else if i < m {
            assert(all[i] == b[i - n - 1]);
            assert(is_digit(b[i - n - 1]));
        } else if i == m {
            assert(all[i] == sep);
        } else {
            assert(all[i] == c[i - m - 1]);
            assert(is_digit(c[i - m - 1]));
        }
    }
}

/// What stands behind the `T`.
proof fn lemma_rest(date: Seq<char>, rest: Seq<char>)
    requires
        date.len() > 0,
        !is_space(date[0]),
        !date.contains('T'),
        rest.len() > 0,
        !is_space(rest.last()),
    ensures
        ({
            let all = date + seq!['T'] + rest;
            &&& trimmed(all) == all
            &&& index_of(all, 'T') == date.len()
            &&& all.take(date.len() as int) == date
            &&& all.skip(date.len() as int + 1) == rest
            &&& date.len() < all.len()
        }),
{
    let all = date + seq!['T'] + rest;
    assert(all.last() == rest.last());
    assert(all[0] == date[0]);
    lemma_is_trimmed(all);
    assert(cut_at(all, 'T', date, rest));
    lemma_cut_at(all, 'T', date, rest);
}

/// A timestamp says what its pieces say.
proof fn lemma_says(date: Seq<char>, rest: Seq<char>, bare: Seq<char>, fraction: Seq<char>)
    requires
        date.len() > 0,
        !is_space(date[0]),
        !date.contains('T'),
        is_number(fraction),
        bare.len() > 0,
        is_digit(bare.last()),
        rest == bare || rest == bare + seq!['Z'],
        pieces(bare, '.').len() == 1 || (pieces(bare, '.').len() == 2 && pieces(bare, '.')[1]
            == fraction),
    ensures
        timestamp(date + seq!['T'] + rest) == pieces_instant(
            pieces(date, '-'),
            pieces(pieces(bare, '.')[0], ':'),
        ),
{
    assert(rest.last() == 'Z' || is_digit(rest.last()));
    lemma_rest(date, rest);
    if rest == bare + seq!['Z'] {
        assert(rest.drop_last() == bare);
    }
    assert(without_z(rest) == bare);
}

} // verus!
