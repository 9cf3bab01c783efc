//! Days of the local calendar.

use vstd::prelude::*;
use crate::text;

verus! {

/// Whether a year of the Gregorian calendar has a day more.
pub open spec fn leap_year(y: int) -> bool {
    y % 4 == 0 && (y % 100 != 0 || y % 400 == 0)
}

/// The days of a month.
pub open spec fn month_days(y: int, m: int) -> int {
    if m == 2 {
        if leap_year(y) {
            29
        } else {
            28
        }
    } else if m == 4 || m == 6 || m == 9 || m == 11 {
        30
    } else {
        31
    }
}

/// The days of a year before the first of its month `m`.
pub open spec fn days_before_month(y: int, m: int) -> int
    decreases m,
{
    if m <= 1 {
        0
    } else {
        days_before_month(y, m - 1) + month_days(y, m - 1)
    }
}

/// The number of a day, that of 1 January 1970 being 0.
pub open spec fn day_number(y: int, m: int, d: int) -> int {
    365 * (y - 1) + (y - 1) / 4 - (y - 1) / 100 + (y - 1) / 400 + days_before_month(y, m) + d - 1
        - 719162
}

/// A number below 10000 in four digits.
pub open spec fn four_digits(n: int) -> Seq<char> {
    seq![
        text::digit(n / 1000),
        text::digit(n / 100 % 10),
        text::digit(n / 10 % 10),
        text::digit(n % 10),
    ]
}

/// A number below 100 in two digits.
pub open spec fn two_digits(n: int) -> Seq<char> {
    seq![text::digit(n / 10), text::digit(n % 10)]
}

/// `y`, `m` and `d` name a day of the calendar.
pub open spec fn is_date(y: int, m: int, d: int) -> bool {
    1 <= m <= 12 && 1 <= d <= month_days(y, m)
}

/// `s` names the day with the number `n`, as `YYYY-MM-DD`. Of days before the
/// year 0 or behind the year 9999 nothing is said.
pub open spec fn names_day(s: Seq<char>, n: int) -> bool {
    exists|y: int, m: int, d: int|
        #![trigger day_number(y, m, d)]
        is_date(y, m, d) && day_number(y, m, d) == n && (0 <= y <= 9999 ==> s == four_digits(y)
            + seq!['-'] + two_digits(m) + seq!['-'] + two_digits(d))
}

/// `s` names the day on which the instant `t`, in seconds since the start of
/// 1970, falls somewhere on earth: a time zone shifts it by less than a day.
pub open spec fn names_local_day(s: Seq<char>, t: int) -> bool {
    exists|offset: int|
        -86400 < offset < 86400 && #[trigger] names_day(s, (t + offset) / 86400)
}

/// The instant, in seconds since the start of 1970, that
/// `chrono::DateTime::parse_from_rfc3339` reads from a text, where the text is
/// a date and time of RFC 3339.
pub uninterp spec fn instant_of_text(s: Seq<char>) -> Option<i64>;

/// `chrono::DateTime::parse_from_rfc3339`, `with_timezone` to `chrono::Local`
/// and `format` with `%Y-%m-%d`: none where the text is no date and time of
/// RFC 3339, else a day on which that instant falls in some time zone. Which
/// one depends on the time zone of the machine, so nothing more is claimed.
#[verifier::external_body]
fn local_day(iso: &str) -> (r: Option<String>)
    ensures
        match r {
            Some(day) => instant_of_text(iso@) is Some && names_local_day(
                day@,
                instant_of_text(iso@)->0 as int,
            ),
            None => instant_of_text(iso@) is None,
        },
{
    match chrono::DateTime::parse_from_rfc3339(iso) {
        Ok(dt) => Some(dt.with_timezone(&chrono::Local).format("%Y-%m-%d").to_string()),
        Err(_) => None,
    }
}

/// `chrono::Local::now` and `format` with `%Y-%m-%d`: some day, which depends on
/// the clock.
#[verifier::external_body]
pub(crate) fn today() -> (r: String)
    ensures
        exists|n: int| #[trigger] names_day(r@, n),
{
    chrono::Local::now().format("%Y-%m-%d").to_string()
}

/// `day` is a local day of the text `iso`: one on which its instant falls, or
/// its first ten characters where it is no date and time.
pub open spec fn is_local_day(iso: Seq<char>, day: Seq<char>) -> bool {
    match instant_of_text(iso) {
        Some(t) => names_local_day(day, t as int),
        None => day == text::first_chars(iso, 10),
    }
}

/// The day of a date and time, `found` being the local day that its instant
/// falls on.
pub fn day_or_head(iso: &str, found: Option<String>) -> (r: String)
    ensures
        r@ == match found {
            Some(day) => day@,
            None => text::first_chars(iso@, 10),
        },
{
    match found {
        Some(day) => day,
        None => text::take_chars(iso, 10),
    }
}

/// The local day, `YYYY-MM-DD`, of a date and time of Canvas, which are in UTC;
/// the first ten characters of a text that is none.
pub fn local_date(iso: &str) -> (r: String)
    ensures
        is_local_day(iso@, r@),
{
    day_or_head(iso, local_day(iso))
}

/// The days are counted one by one: a day has the number behind that of the day before
/// it, within a month, from month to month and from year to year, and the first of
/// January 1970 has the number zero.
pub proof fn lemma_days_follow(y: int, m: int, d: int)
    ensures
        day_number(1970, 1, 1) == 0,
        day_number(y, m, d + 1) == day_number(y, m, d) + 1,
        1 <= m < 12 ==> day_number(y, m + 1, 1) == day_number(y, m, month_days(y, m)) + 1,
        y >= 1 ==> day_number(y + 1, 1, 1) == day_number(y, 12, 31) + 1,
{
    reveal_with_fuel(days_before_month, 13);
    assert(day_number(1970, 1, 1) == 0);
    if y >= 1 {
        let p = y - 1;
        assert(days_before_month(y, 12) == 334 + if leap_year(y) {
            1int
        } else {
            0
        });
        assert(y / 4 == p / 4 + if y % 4 == 0 {
            1int
        } else {
            0
        });
        assert(y / 100 == p / 100 + if y % 100 == 0 {
            1int
        } else {
            0
        });
        assert(y / 400 == p / 400 + if y % 400 == 0 {
            1int
        } else {
            0
        });
    }
}

/// Every fourth year has a 29th of February, but of the full centuries only every
/// fourth; the other months have thirty or thirty-one days.
pub proof fn lemma_months(y: int)
    ensures
        y % 4 != 0 ==> month_days(y, 2) == 28,
        y % 4 == 0 && y % 100 != 0 ==> month_days(y, 2) == 29,
        y % 100 == 0 && y % 400 != 0 ==> month_days(y, 2) == 28,
        y % 400 == 0 ==> month_days(y, 2) == 29,
        month_days(y, 1) == 31 && month_days(y, 3) == 31 && month_days(y, 5) == 31 && month_days(
            y,
            7,
        ) == 31 && month_days(y, 8) == 31 && month_days(y, 10) == 31 && month_days(y, 12) == 31,
        month_days(y, 4) == 30 && month_days(y, 6) == 30 && month_days(y, 9) == 30 && month_days(
            y,
            11,
        ) == 30,
{
}

/// The digits of a year and of a month or a day give its number back.
pub proof fn lemma_digits(n: int)
    ensures
        0 <= n <= 9999 ==> text::decimal_value(four_digits(n)) == n,
        0 <= n <= 99 ==> text::decimal_value(two_digits(n)) == n,
{
    reveal_with_fuel(text::decimal_value, 5);
    if 0 <= n <= 9999 {
        let s = four_digits(n);
        let s3 = s.drop_last();
        let s2 = s3.drop_last();
        let s1 = s2.drop_last();
        assert(s1.drop_last().len() == 0);
        assert(s[3] == text::digit(n % 10) && s3[2] == text::digit(n / 10 % 10) && s2[1]
            == text::digit(n / 100 % 10) && s1[0] == text::digit(n / 1000));
        assert(text::decimal_value(s1) == n / 1000);
        assert(text::decimal_value(s2) == n / 100);
        assert(text::decimal_value(s3) == n / 10);
    }
    if 0 <= n <= 99 {
        let s = two_digits(n);
        let s1 = s.drop_last();
        assert(s1.drop_last().len() == 0);
        assert(s[1] == text::digit(n % 10) && s1[0] == text::digit(n / 10));
        assert(text::decimal_value(s1) == n / 10);
    }
}

} // verus!
