//! Laws of names, numbers in words, and times.
use crate::calendar;
use crate::text;
use vstd::prelude::*;

verus! {

/// Components are joined one after the other, with a `/` before each but the
/// first.
pub proof fn law_components_are_joined_by_slashes(parts: Seq<Seq<char>>, part: Seq<char>)
    ensures
        text::joined(Seq::empty()) == Seq::<char>::empty(),
        text::joined(seq![part]) == part,
        parts.len() > 0 ==> text::joined(parts.push(part)) == text::joined(parts) + seq!['/']
            + part,
{
    assert(parts.push(part).drop_last() =~= parts);
    if parts.len() > 0 {
        assert(text::joined(parts.push(part)) =~= text::joined(parts) + seq!['/'] + part);
    }
}

/// A name is cut at its slashes and nowhere else: the pieces hold none, and
/// with a `/` before each but the first they are the name.
pub proof fn law_a_name_is_cut_at_its_slashes(name: Seq<char>)
    ensures
        text::split_at_slashes(name).len() > 0,
        text::joined(text::split_at_slashes(name)) == name,
        forall|i: int, j: int|
            0 <= i < text::split_at_slashes(name).len() && 0 <= j < text::split_at_slashes(
                name,
            )[i].len() ==> #[trigger] text::split_at_slashes(name)[i][j] != '/',
{
    text::law_split_is_undone_by_join(name);
    assert forall|i: int, j: int|
        0 <= i < text::split_at_slashes(name).len() && 0 <= j < text::split_at_slashes(
            name,
        )[i].len() implies #[trigger] text::split_at_slashes(name)[i][j] != '/' by {
        assert(!text::split_at_slashes(name)[i].contains('/'));
    }
}

/// A principal is its components joined, an `@` and its realm.
pub proof fn law_a_principal_is_a_name_at_a_realm(parts: Seq<Seq<char>>, realm: Seq<char>)
    ensures
        text::at_realm(parts, realm) == text::joined(parts) + seq!['@'] + realm,
{
    assert(text::at_realm(parts, realm) =~= text::joined(parts) + seq!['@'] + realm);
}

/// A number is written in decimal digits, the last being what is left of it
/// over ten, and a negative one with a `-` before it.
pub proof fn law_numbers_are_written_in_decimal(n: nat)
    ensures
        n < 10 ==> text::decimal(n) == seq![(48 + n) as char],
        n >= 10 ==> text::decimal(n) == text::decimal(n / 10) + seq![(48 + n % 10) as char],
        text::signed(n as int) == text::decimal(n),
        n > 0 ==> text::signed(-(n as int)) == seq!['-'] + text::decimal(n),
{
    if n >= 10 {
        assert(text::decimal(n) =~= text::decimal(n / 10) + seq![(48 + n % 10) as char]);
    }
}

/// White space at either end of a text makes no difference to what is left of
/// it, and a text with none at either end is left as it is.
pub proof fn law_white_space_is_trimmed_off_both_ends(words: Seq<char>, white: char)
    ensures
        text::is_white_space(white) ==> text::trimmed(seq![white] + words) == text::trimmed(words),
        text::is_white_space(white) ==> text::trimmed(words.push(white)) == text::trimmed(words),
        words.len() == 0 || !text::is_white_space(words[0]) && !text::is_white_space(
            words[words.len() - 1],
        ) ==> text::trimmed(words) == words,
    decreases words.len(),
{
    assert((seq![white] + words).drop_first() =~= words);
    assert(words.push(white).drop_last() =~= words);
    if words.len() > 0 && text::is_white_space(words[0]) {
        law_white_space_is_trimmed_off_both_ends(words.drop_first(), white);
        assert(words.push(white).drop_first() =~= words.drop_first().push(white));
    } else if words.len() == 0 {
        assert(words.push(white).drop_first() =~= words);
    }
}

/// A `KerberosTime` is fourteen digits and a `Z` that name a day of the
/// Gregorian calendar and a second of that day.
pub proof fn law_a_time_names_a_second_of_a_day(digits: Seq<u8>)
    ensures
        calendar::seconds_written(digits) is Some <==> {
            let year = 1000 * (digits[0] - 48) + 100 * (digits[1] - 48) + 10 * (digits[2] - 48)
                + (digits[3] - 48);
            let month = 10 * (digits[4] - 48) + (digits[5] - 48);
            let day = 10 * (digits[6] - 48) + (digits[7] - 48);
            let leap = year % 4 == 0 && (year % 100 != 0 || year % 400 == 0);
            let lengths = seq![
                31,
                if leap {
                    29int
                } else {
                    28
                },
                31,
                30,
                31,
                30,
                31,
                31,
                30,
                31,
                30,
                31,
            ];
            &&& digits.len() == 15
            &&& forall|i: int| 0 <= i < 14 ==> 48 <= #[trigger] digits[i] <= 57
            &&& digits[14] == 90
            &&& 1 <= month <= 12
            &&& 1 <= day <= lengths[month - 1]
            &&& 10 * (digits[8] - 48) + (digits[9] - 48) < 24
            &&& 10 * (digits[10] - 48) + (digits[11] - 48) < 60
            &&& 10 * (digits[12] - 48) + (digits[13] - 48) < 60
        },
{
    if digits.len() == 15 {
        let month = calendar::two_digits(digits, 4);
        let shaped = forall|i: int| 0 <= i < 14 ==> 48 <= #[trigger] digits[i] <= 57;
        if shaped {
            assert forall|i: int| 0 <= i < 14 implies calendar::is_digit(#[trigger] digits[i]) by {}
        }
        if calendar::is_time_shaped(digits) {
            assert forall|i: int| 0 <= i < 14 implies 48 <= #[trigger] digits[i] <= 57 by {
                assert(calendar::is_digit(digits[i]));
            }
        }
        if 1 <= month <= 12 {
            assert(month == 1 || month == 2 || month == 3 || month == 4 || month == 5 || month == 6
                || month == 7 || month == 8 || month == 9 || month == 10 || month == 11 || month
                == 12);
        }
    }
}

/// The seconds a `KerberosTime` writes are those of its days since the first
/// of January 1970, with a leap day in every fourth year but for three of
/// four centuries, and those of its time of day.
pub proof fn law_a_time_is_counted_from_the_epoch(digits: Seq<u8>)
    ensures
        calendar::seconds_written(digits) matches Some(seconds) ==> {
            let year = 1000 * (digits[0] - 48) + 100 * (digits[1] - 48) + 10 * (digits[2] - 48)
                + (digits[3] - 48);
            let month = 10 * (digits[4] - 48) + (digits[5] - 48);
            let day = 10 * (digits[6] - 48) + (digits[7] - 48);
            let leap = year % 4 == 0 && (year % 100 != 0 || year % 400 == 0);
            let before = seq![0int, 31, 59, 90, 120, 151, 181, 212, 243, 273, 304, 334];
            let days = 365 * year + (year + 3) / 4 - (year + 99) / 100 + (year + 399) / 400
                + before[month - 1] + (if leap && month > 2 {
                1int
            } else {
                0
            }) + day - 1 - 719_528;
            seconds == 86_400 * days + 3_600 * (10 * (digits[8] - 48) + (digits[9] - 48)) + 60 * (10
                * (digits[10] - 48) + (digits[11] - 48)) + 10 * (digits[12] - 48) + (digits[13]
                - 48)
        },
{
    if calendar::seconds_written(digits) is Some {
        assert forall|i: int| 0 <= i < 14 implies 48 <= #[trigger] digits[i] <= 57 by {
            assert(calendar::is_digit(digits[i]));
        }
        let year = 100 * calendar::two_digits(digits, 0) + calendar::two_digits(digits, 2);
        let month = calendar::two_digits(digits, 4);
        calendar::lemma_days_before_year(year as nat);
        calendar::lemma_days_before_year(1970);
        lemma_days_before_each_month(year);
        assert(month == 1 || month == 2 || month == 3 || month == 4 || month == 5 || month == 6
            || month == 7 || month == 8 || month == 9 || month == 10 || month == 11 || month == 12);
    }
}

proof fn lemma_days_before_each_month(year: int)
    ensures
        calendar::days_before_month(year, 1) == 0,
        calendar::days_before_month(year, 2) == 31,
        ({
            let leap = if calendar::is_leap(year) {
                1int
            } else {
                0
            };
            &&& calendar::days_before_month(year, 3) == 59 + leap
            &&& calendar::days_before_month(year, 4) == 90 + leap
            &&& calendar::days_before_month(year, 5) == 120 + leap
            &&& calendar::days_before_month(year, 6) == 151 + leap
            &&& calendar::days_before_month(year, 7) == 181 + leap
            &&& calendar::days_before_month(year, 8) == 212 + leap
            &&& calendar::days_before_month(year, 9) == 243 + leap
            &&& calendar::days_before_month(year, 10) == 273 + leap
            &&& calendar::days_before_month(year, 11) == 304 + leap
            &&& calendar::days_before_month(year, 12) == 334 + leap
        }),
{
    reveal_with_fuel(calendar::days_before_month, 13);
}

} // verus!
