//! `KerberosTime`, RFC 4120 section 5.2.3: `YYYYMMDDHHMMSSZ` as seconds since
//! the Unix epoch.
use vstd::prelude::*;

verus! {

/// A year the Gregorian calendar gives a 29 February.
pub open spec fn is_leap(year: int) -> bool {
    year % 4 == 0 && (year % 100 != 0 || year % 400 == 0)
}

/// Days from the start of the year zero to the start of `year`.
pub open spec fn days_before_year(year: nat) -> int
    decreases year,
{
    if year == 0 {
        0
    } else {
        days_before_year((year - 1) as nat) + if is_leap(year - 1) {
            366int
        } else {
            365int
        }
    }
}

/// Days in a month of `year`.
pub open spec fn days_in_month(year: int, month: int) -> int {
    if month == 2 {
        if is_leap(year) {
            29
        } else {
            28
        }
    } else if month == 4 || month == 6 || month == 9 || month == 11 {
        30
    } else {
        31
    }
}

/// Days from the start of `year` to the start of `month`.
pub open spec fn days_before_month(year: int, month: nat) -> int
    decreases month,
{
    if month <= 1 {
        0
    } else {
        days_before_month(year, (month - 1) as nat) + days_in_month(year, month - 1)
    }
}

/// Seconds from the Unix epoch to a date and time of day, without leap
/// seconds.
pub open spec fn unix_seconds(
    year: nat,
    month: nat,
    day: int,
    hour: int,
    minute: int,
    second: int,
) -> int {
    let days = days_before_year(year) + days_before_month(year as int, month) + day - 1
        - days_before_year(1970);
    86_400 * days + 3_600 * hour + 60 * minute + second
}

/// An ASCII digit.
pub open spec fn is_digit(byte: u8) -> bool {
    48 <= byte <= 57
}

/// The number the two digits at `at` write.
pub open spec fn two_digits(text: Seq<u8>, at: int) -> int {
    10 * (text[at] - 48) + (text[at + 1] - 48)
}

/// Fourteen digits and a `Z`.
pub open spec fn is_time_shaped(text: Seq<u8>) -> bool {
    &&& text.len() == 15
    &&& text[14] == 0x5a
    &&& forall|i: int| 0 <= i < 14 ==> is_digit(#[trigger] text[i])
}

/// The seconds since the Unix epoch that `text` writes, where it is a
/// `KerberosTime` and names a day of the calendar and a time of that day.
pub open spec fn seconds_written(text: Seq<u8>) -> Option<int> {
    let year = 100 * two_digits(text, 0) + two_digits(text, 2);
    let month = two_digits(text, 4);
    let day = two_digits(text, 6);
    let hour = two_digits(text, 8);
    let minute = two_digits(text, 10);
    let second = two_digits(text, 12);
    if is_time_shaped(text) && 1 <= month <= 12 && 1 <= day <= days_in_month(year, month) && hour
        <= 23 && minute <= 59 && second <= 59 {
        Some(unix_seconds(year as nat, month as nat, day, hour, minute, second))
    } else {
        None
    }
}

pub proof fn lemma_days_before_year(year: nat)
    ensures
        days_before_year(year) == 365 * year + (year + 3) / 4 - (year + 99) / 100 + (year + 399)
            / 400,
    decreases year,
{
    if year > 0 {
        lemma_days_before_year((year - 1) as nat);
    }
}

proof fn lemma_days_before_month(year: int, month: nat)
    requires
        1 <= month <= 12,
    ensures
        0 <= days_before_month(year, month) <= 31 * (month - 1),
    decreases month,
{
    if month > 1 {
        lemma_days_before_month(year, (month - 1) as nat);
    }
}

/// A time that is written in four digits of a year is one that sixty-four
/// bits hold.
pub proof fn lemma_seconds_fit(text: Seq<u8>)
    ensures
        seconds_written(text) matches Some(seconds) ==> i64::MIN <= seconds <= i64::MAX,
{
    if is_time_shaped(text) {
        assert forall|i: int| 0 <= i < 14 implies 48 <= #[trigger] text[i] <= 57 by {
            assert(is_digit(text[i]));
        }
        let year = 100 * two_digits(text, 0) + two_digits(text, 2);
        let month = two_digits(text, 4);
        lemma_days_before_year(year as nat);
        lemma_days_before_year(1970);
        if 1 <= month <= 12 {
            lemma_days_before_month(year, month as nat);
        }
    }
}

fn leap(year: i64) -> (yes: bool)
    requires
        0 <= year,
    ensures
        yes == is_leap(year as int),
{
    year % 4 == 0 && (year % 100 != 0 || year % 400 == 0)
}

fn month_length(year: i64, month: i64) -> (days: i64)
    requires
        0 <= year,
    ensures
        days == days_in_month(year as int, month as int),
{
    if month == 2 {
        if leap(year) {
            29
        } else {
            28
        }
    } else if month == 4 || month == 6 || month == 9 || month == 11 {
        30
    } else {
        31
    }
}

fn month_start(year: i64, month: i64) -> (days: i64)
    requires
        0 <= year,
        1 <= month <= 12,
    ensures
        days == days_before_month(year as int, month as nat),
        0 <= days <= 31 * (month - 1),
{
    let mut days: i64 = 0;
    let mut next: i64 = 1;
    while next < month
        invariant
            0 <= year,
            1 <= next <= month,
            month <= 12,
            days == days_before_month(year as int, next as nat),
            0 <= days <= 31 * (next - 1),
        decreases month - next,
    {
        days = days + month_length(year, next);
        next += 1;
    }
    days
}

fn pair(text: &[u8], at: usize) -> (number: i64)
    requires
        is_time_shaped(text@),
        at <= 12,
    ensures
        number == two_digits(text@, at as int),
        0 <= number <= 99,
{
    assert(is_digit(text@[at as int]) && is_digit(text@[at + 1]));
    10 * (text[at] - 48) as i64 + (text[at + 1] - 48) as i64
}

/// The seconds since the Unix epoch that `text` writes, where it is a
/// `KerberosTime`.
pub fn seconds(text: &[u8]) -> (seconds: Option<i64>)
    ensures
        match seconds {
            Some(seconds) => seconds_written(text@) == Some(seconds as int),
            None => seconds_written(text@) is None,
        },
{
    if text.len() != 15 || text[14] != 0x5a {
        return None;
    }
    let mut index: usize = 0;
    while index < 14
        invariant
            index <= 14,
            text@.len() == 15,
            forall|i: int| 0 <= i < index ==> is_digit(#[trigger] text@[i]),
        decreases 14 - index,
    {
        if text[index] < 48 || text[index] > 57 {
            assert(!is_digit(text@[index as int]));
            return None;
        }
        index += 1;
    }
    let year: i64 = 100 * pair(text, 0) + pair(text, 2);
    let month: i64 = pair(text, 4);
    let day: i64 = pair(text, 6);
    let hour: i64 = pair(text, 8);
    let minute: i64 = pair(text, 10);
    let second: i64 = pair(text, 12);
    if month < 1 || month > 12 || day < 1 || day > month_length(year, month) || hour > 23 || minute
        > 59 || second > 59 {
        return None;
    }
    proof {
        lemma_days_before_year(year as nat);
        lemma_days_before_year(1970);
    }
    let years: i64 = 365 * year + (year + 3) / 4 - (year + 99) / 100 + (year + 399) / 400;
    let days: i64 = years + month_start(year, month) + day - 1 - 719_528;
    Some(86_400 * days + 3_600 * hour + 60 * minute + second)
}

} // verus!
