//! Gregorian calendar validation shared by the citation extractor and the
//! enforcement classifier: month lengths, the leap-year rule, and the fixed
//! table of Norwegian month names.

use vstd::prelude::*;

use crate::text::{chars_eq_str, chars_of, digit_char, spec_digit_char, string_of};

verus! {

/// A year is a leap year when it is divisible by 4 and not by 100, unless it
/// is also divisible by 400.
pub open spec fn spec_is_leap_year(year: u32) -> bool {
    (year % 4 == 0 && year % 100 != 0) || year % 400 == 0
}

/// Number of days in a month of the given year; months outside 1..=12 get 0
/// so that no day validates against them.
pub open spec fn spec_days_in_month(year: u32, month: u32) -> u32 {
    if month == 1 || month == 3 || month == 5 || month == 7 || month == 8 || month == 10 || month
        == 12 {
        31
    } else if month == 4 || month == 6 || month == 9 || month == 11 {
        30
    } else if month == 2 {
        if spec_is_leap_year(year) {
            29
        } else {
            28
        }
    } else {
        0
    }
}

/// A (year, month, day) triple names a real Gregorian calendar date.
pub open spec fn spec_valid_date(year: u32, month: u32, day: u32) -> bool {
    1 <= month <= 12 && 1 <= day && day <= spec_days_in_month(year, month)
}

/// Leap-year aware calendar check: true exactly when (year, month, day) is a
/// real date.
pub fn is_valid_date(year: u32, month: u32, day: u32) -> (r: bool)
    ensures
        r == spec_valid_date(year, month, day),
{
    if month < 1 || month > 12 {
        return false;
    }
    let days_in_month: u32 = if month == 2 {
        if (year % 4 == 0 && year % 100 != 0) || year % 400 == 0 {
            29
        } else {
            28
        }
    } else if month == 4 || month == 6 || month == 9 || month == 11 {
        30
    } else {
        31
    };
    day >= 1 && day <= days_in_month
}

/// The fixed twelve-entry table of lower-case Norwegian month names.
pub open spec fn spec_month_number(name: Seq<char>) -> Option<u32> {
    if name == "januar"@ {
        Some(1u32)
    } else if name == "februar"@ {
        Some(2u32)
    } else if name == "mars"@ {
        Some(3u32)
    } else if name == "april"@ {
        Some(4u32)
    } else if name == "mai"@ {
        Some(5u32)
    } else if name == "juni"@ {
        Some(6u32)
    } else if name == "juli"@ {
        Some(7u32)
    } else if name == "august"@ {
        Some(8u32)
    } else if name == "september"@ {
        Some(9u32)
    } else if name == "oktober"@ {
        Some(10u32)
    } else if name == "november"@ {
        Some(11u32)
    } else if name == "desember"@ {
        Some(12u32)
    } else {
        None
    }
}

/// Month number for a lower-case Norwegian month name; `None` for any name
/// outside the table.
pub fn month_number(name: &[char]) -> (r: Option<u32>)
    ensures
        r == spec_month_number(name@),
        r is Some ==> 1 <= r->0 <= 12,
{
    if chars_eq_str(name, "januar") {
        Some(1)
    } else if chars_eq_str(name, "februar") {
        Some(2)
    } else if chars_eq_str(name, "mars") {
        Some(3)
    } else if chars_eq_str(name, "april") {
        Some(4)
    } else if chars_eq_str(name, "mai") {
        Some(5)
    } else if chars_eq_str(name, "juni") {
        Some(6)
    } else if chars_eq_str(name, "juli") {
        Some(7)
    } else if chars_eq_str(name, "august") {
        Some(8)
    } else if chars_eq_str(name, "september") {
        Some(9)
    } else if chars_eq_str(name, "oktober") {
        Some(10)
    } else if chars_eq_str(name, "november") {
        Some(11)
    } else if chars_eq_str(name, "desember") {
        Some(12)
    } else {
        None
    }
}

/// A number below 100 written as exactly two digits, zero padded.
pub open spec fn spec_two_digits(n: u32) -> Seq<char> {
    seq![spec_digit_char(n / 10), spec_digit_char(n % 10)]
}

pub fn two_digits(n: u32) -> (r: Vec<char>)
    requires
        n < 100,
    ensures
        r@ == spec_two_digits(n),
{
    let mut v: Vec<char> = Vec::new();
    v.push(digit_char(n / 10));
    v.push(digit_char(n % 10));
    proof {
        assert(v@ =~= spec_two_digits(n));
    }
    v
}

/// Month name to its zero-padded two-digit number, via the fixed table;
/// unmapped names give `None`.
pub fn map_norwegian_month(month: &str) -> (r: Option<String>)
    ensures
        match r {
            Some(d) => spec_month_number(month@) is Some && d@ == spec_two_digits(
                spec_month_number(month@)->0,
            ),
            None => spec_month_number(month@) is None,
        },
{
    let cs = chars_of(month);
    match month_number(cs.as_slice()) {
        Some(m) => {
            let d = two_digits(m);
            Some(string_of(d.as_slice()))
        },
        None => None,
    }
}

} // verus!
