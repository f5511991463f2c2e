//! The Gregorian calendar: day numbers, and dates written `YYYY-MM-DD`.
use crate::text::{decimal, digit};
use vstd::prelude::*;

verus! {

pub open spec fn leap_year(y: int) -> bool {
    y % 4 == 0 && (y % 100 != 0 || y % 400 == 0)
}

/// The days of a year that lie before a month (January is 1).
pub open spec fn days_before_month(y: int, m: int) -> int {
    let feb: int = if leap_year(y) { 29 } else { 28 };
    if m <= 1 { 0 } else if m == 2 { 31 } else if m == 3 { 31 + feb } else if m == 4 { 62 + feb }
    else if m == 5 { 92 + feb } else if m == 6 { 123 + feb } else if m == 7 { 153 + feb }
    else if m == 8 { 184 + feb } else if m == 9 { 215 + feb } else if m == 10 { 245 + feb }
    else if m == 11 { 276 + feb } else if m == 12 { 306 + feb } else { 337 + feb }
}

/// Whether there is such a date in the proleptic Gregorian calendar.
pub open spec fn valid_date(y: int, m: int, d: int) -> bool {
    1 <= m <= 12 && 1 <= d <= days_before_month(y, m + 1) - days_before_month(y, m)
}

/// The number of days from 1 January 1970 to a date.
pub open spec fn day_number(y: int, m: int, d: int) -> int {
    let before = y - 1;
    // 477 leap days lie before 1970.
    365 * (y - 1970) + (before / 4 - before / 100 + before / 400 - 477) + days_before_month(y, m)
        + (d - 1)
}

/// A number in decimal with zeros in front up to `width` digits.
pub open spec fn padded(n: nat, width: nat) -> Seq<char> {
    let s = decimal(n);
    if s.len() < width {
        Seq::new((width - s.len()) as nat, |i: int| '0') + s
    } else {
        s
    }
}

/// A year: four digits at least, with a sign outside 0 to 9999.
pub open spec fn year_text(y: int) -> Seq<char> {
    if y < 0 {
        seq!['-'] + padded((-y) as nat, 4)
    } else if y > 9999 {
        seq!['+'] + padded(y as nat, 4)
    } else {
        padded(y as nat, 4)
    }
}

/// A date as text: year, month and day, joined by hyphens.
pub open spec fn date_text(y: int, m: int, d: int) -> Seq<char> {
    year_text(y) + seq!['-'] + padded(m as nat, 2) + seq!['-'] + padded(d as nat, 2)
}

/// `text` is the date of the day with that number.
pub open spec fn names_day(text: Seq<char>, day: int) -> bool {
    exists|y: int, m: int, d: int|
        #![trigger date_text(y, m, d)]
        valid_date(y, m, d) && day_number(y, m, d) == day && text == date_text(y, m, d)
}

/// The first and the last day of the years -262143 to 262142.
pub const FIRST_DAY: i64 = -96_465_292;

pub const LAST_DAY: i64 = 95_026_236;

/// Year, month and day of a date, as `chrono` writes them.
pub const DATE_FORMAT: &'static str = "%Y-%m-%d";

/// The number that a sequence of decimal digits stands for.
spec fn value(s: Seq<char>) -> int
    decreases s.len(),
{
    if s.len() == 0 {
        0
    } else {
        value(s.drop_last()) * 10 + (s.last() as u32 - 48)
    }
}

proof fn lemma_digit(n: nat)
    ensures
        digit(n) as u32 == n % 10 + 48,
        digit(n) != '-',
        digit(n) != '+',
{
}

proof fn lemma_value_decimal(n: nat)
    ensures
        value(decimal(n)) == n,
        decimal(n).len() >= 1,
        forall|i: int| 0 <= i < decimal(n).len() ==> #[trigger] decimal(n)[i] != '-' && decimal(
            n,
        )[i] != '+',
    decreases n,
{
    lemma_digit(n);
    if n < 10 {
        assert(decimal(n).drop_last() =~= Seq::<char>::empty());
        assert(value(decimal(n).drop_last()) == 0);
    } else {
        lemma_value_decimal(n / 10);
        assert(decimal(n).drop_last() =~= decimal(n / 10));
    }
}

proof fn lemma_value_zeros(k: nat, s: Seq<char>)
    ensures
        value(Seq::new(k, |i: int| '0') + s) == value(s),
    decreases s.len() + k,
{
    let z = Seq::new(k, |i: int| '0');
    if s.len() > 0 {
        assert((z + s).drop_last() =~= z + s.drop_last());
        lemma_value_zeros(k, s.drop_last());
    } else if k > 0 {
        let y = Seq::new((k - 1) as nat, |i: int| '0');
        assert((z + s).drop_last() =~= y + s);
        lemma_value_zeros((k - 1) as nat, s);
    } else {
        assert(z + s =~= s);
    }
}

proof fn lemma_padded(n: nat, width: nat)
    ensures
        value(padded(n, width)) == n,
        padded(n, width).len() >= 1,
        padded(n, width)[0] != '-',
        padded(n, width)[0] != '+',
{
    lemma_value_decimal(n);
    let s = decimal(n);
    if s.len() < width {
        lemma_value_zeros((width - s.len()) as nat, s);
    }
}

proof fn lemma_padded_two(n: nat)
    requires
        n < 100,
    ensures
        padded(n, 2).len() == 2,
{
    if n >= 10 {
        assert(n / 10 < 10);
        assert(decimal(n / 10).len() == 1);
        assert(decimal(n).len() == 2);
    } else {
        assert(decimal(n).len() == 1);
    }
}

proof fn lemma_year_text(a: int, b: int)
    requires
        year_text(a) == year_text(b),
    ensures
        a == b,
{
    let s = year_text(a);
    lemma_padded(if a < 0 { (-a) as nat } else { a as nat }, 4);
    lemma_padded(if b < 0 { (-b) as nat } else { b as nat }, 4);
    if a < 0 {
        assert(s[0] == '-');
        assert(b < 0);
        assert(s.drop_first() =~= padded((-a) as nat, 4));
        assert(s.drop_first() =~= padded((-b) as nat, 4));
    } else if a > 9999 {
        assert(s[0] == '+');
        assert(b > 9999);
        assert(s.drop_first() =~= padded(a as nat, 4));
        assert(s.drop_first() =~= padded(b as nat, 4));
    } else {
        if b < 0 {
            assert(year_text(b)[0] == '-');
        } else if b > 9999 {
            assert(year_text(b)[0] == '+');
        }
    }
}

/// Month and day stand in the last five characters of a date text, and the
/// year before them.
proof fn lemma_date_parts(y: int, m: int, d: int)
    requires
        valid_date(y, m, d),
    ensures
        ({
            let text = date_text(y, m, d);
            let n = text.len() as int;
            &&& n >= 6
            &&& value(text.subrange(n - 2, n)) == d
            &&& value(text.subrange(n - 5, n - 3)) == m
            &&& text.subrange(0, n - 6) == year_text(y)
        }),
{
    let text = date_text(y, m, d);
    let n = text.len() as int;
    lemma_padded_two(m as nat);
    lemma_padded_two(d as nat);
    lemma_padded(m as nat, 2);
    lemma_padded(d as nat, 2);
    assert(text.subrange(n - 2, n) =~= padded(d as nat, 2));
    assert(text.subrange(n - 5, n - 3) =~= padded(m as nat, 2));
    assert(text.subrange(0, n - 6) =~= year_text(y));
}

/// A date text stands for one day only.
pub proof fn date_text_names_one_day(text: Seq<char>, a: int, b: int)
    requires
        names_day(text, a),
        names_day(text, b),
    ensures
        a == b,
{
    let (y1, m1, d1) = choose|y: int, m: int, d: int|
        #![trigger date_text(y, m, d)]
        valid_date(y, m, d) && day_number(y, m, d) == a && text == date_text(y, m, d);
    let (y2, m2, d2) = choose|y: int, m: int, d: int|
        #![trigger date_text(y, m, d)]
        valid_date(y, m, d) && day_number(y, m, d) == b && text == date_text(y, m, d);
    lemma_date_parts(y1, m1, d1);
    lemma_date_parts(y2, m2, d2);
    lemma_year_text(y1, y2);
}

/// A year is 365 or 366 days long.
proof fn lemma_year_length(y: int)
    ensures
        day_number(y + 1, 1, 1) - day_number(y, 1, 1) == if leap_year(y) {
            366int
        } else {
            365int
        },
{
    assert(y / 4 - (y - 1) / 4 == if y % 4 == 0 { 1int } else { 0int });
    assert(y / 100 - (y - 1) / 100 == if y % 100 == 0 { 1int } else { 0int });
    assert(y / 400 - (y - 1) / 400 == if y % 400 == 0 { 1int } else { 0int });
}

proof fn lemma_years_ordered(a: int, b: int)
    requires
        a <= b,
    ensures
        day_number(a, 1, 1) <= day_number(b, 1, 1),
    decreases b - a,
{
    if a < b {
        lemma_years_ordered(a, b - 1);
        lemma_year_length(b - 1);
    }
}

proof fn lemma_date_in_year(y: int, m: int, d: int)
    requires
        valid_date(y, m, d),
    ensures
        day_number(y, 1, 1) <= day_number(y, m, d) < day_number(y + 1, 1, 1),
{
    lemma_year_length(y);
}

/// A day has one date text only.
pub proof fn day_has_one_date_text(day: int, s: Seq<char>, t: Seq<char>)
    requires
        names_day(s, day),
        names_day(t, day),
    ensures
        s == t,
{
    let (y1, m1, d1) = choose|y: int, m: int, d: int|
        #![trigger date_text(y, m, d)]
        valid_date(y, m, d) && day_number(y, m, d) == day && s == date_text(y, m, d);
    let (y2, m2, d2) = choose|y: int, m: int, d: int|
        #![trigger date_text(y, m, d)]
        valid_date(y, m, d) && day_number(y, m, d) == day && t == date_text(y, m, d);
    lemma_date_in_year(y1, m1, d1);
    lemma_date_in_year(y2, m2, d2);
    if y1 < y2 {
        lemma_years_ordered(y1 + 1, y2);
    } else if y2 < y1 {
        lemma_years_ordered(y2 + 1, y1);
    }
    assert(y1 == y2);
    assert(m1 == m2 && d1 == d2);
}

/// The date of the UTC day that an instant lies in.
///
/// Trusted: `chrono::DateTime::from_timestamp` takes the day `secs / 86400`
/// (rounded down) of the proleptic Gregorian calendar and fails outside the
/// years -262143 to 262142; `format("%Y-%m-%d")` writes year, month and day
/// with at least four, two and two digits, the year with a sign outside 0 to
/// 9999.
#[verifier::external_body]
pub(crate) fn utc_date(secs: i64, format: &str) -> (res: Option<String>)
    requires
        format@ == DATE_FORMAT@,
    ensures
        res is Some <==> FIRST_DAY <= secs as int / 86_400 <= LAST_DAY,
        res matches Some(text) ==> names_day(text@, secs as int / 86_400),
{
    match chrono::DateTime::from_timestamp(secs, 0) {
        Some(dt) => Some(dt.format(format).to_string()),
        None => None,
    }
}

/// A time that the clock can tell.
pub open spec fn clock_time(now: i64) -> bool {
    0 <= now < (LAST_DAY + 1) * 86_400
}

/// The current time.
///
/// Trusted: `chrono::Utc::now().timestamp()` counts whole seconds from the
/// epoch up to the last instant that `chrono` can hold. What it returns rests
/// on the system clock, and it does not return where that clock stands before
/// the epoch.
#[verifier::external_body]
pub(crate) fn utc_now() -> (now: i64)
    ensures
        clock_time(now),
{
    chrono::Utc::now().timestamp()
}

/// The lengths of the months.
pub proof fn months_have_their_lengths(y: int, d: int)
    ensures
        valid_date(y, 1, d) <==> 1 <= d <= 31,
        valid_date(y, 2, d) <==> 1 <= d <= if y % 4 == 0 && (y % 100 != 0 || y % 400 == 0) {
            29int
        } else {
            28
        },
        valid_date(y, 3, d) <==> 1 <= d <= 31,
        valid_date(y, 4, d) <==> 1 <= d <= 30,
        valid_date(y, 5, d) <==> 1 <= d <= 31,
        valid_date(y, 6, d) <==> 1 <= d <= 30,
        valid_date(y, 7, d) <==> 1 <= d <= 31,
        valid_date(y, 8, d) <==> 1 <= d <= 31,
        valid_date(y, 9, d) <==> 1 <= d <= 30,
        valid_date(y, 10, d) <==> 1 <= d <= 31,
        valid_date(y, 11, d) <==> 1 <= d <= 30,
        valid_date(y, 12, d) <==> 1 <= d <= 31,
{
}

/// Days are numbered without a gap: within a month, from month to month, from
/// year to year, and 1 January 1970 is day 0.
pub proof fn days_follow_each_other(y: int, m: int, d: int)
    requires
        valid_date(y, m, d),
    ensures
        day_number(1970, 1, 1) == 0,
        valid_date(y, m, d + 1) ==> day_number(y, m, d + 1) == day_number(y, m, d) + 1,
        !valid_date(y, m, d + 1) && m < 12 ==> day_number(y, m + 1, 1) == day_number(y, m, d) + 1,
        !valid_date(y, m, d + 1) && m == 12 ==> day_number(y + 1, 1, 1) == day_number(y, m, d) + 1,
{
    lemma_year_length(y);
}

} // verus!
