//! Calendar dates as plain values.
//!
//! Dates are held as year/month/day numbers with the usual Gregorian
//! validity rules, and are parsed from the `YYYY-MM-DD` text form that the
//! command line supplies.

use vstd::prelude::*;

verus! {

/// A calendar date. Valid values satisfy [`Date::valid`].
#[derive(Debug, Clone, Copy, PartialEq, Eq, Structural)]
pub struct Date {
    pub year: u16,
    pub month: u8,
    pub day: u8,
}

/// Whether `year` is a Gregorian leap year.
pub open spec fn is_leap_year(year: int) -> bool {
    year % 4 == 0 && (year % 100 != 0 || year % 400 == 0)
}

/// The number of days in `month` of `year`, for months 1 through 12.
pub open spec fn days_in_month(year: int, month: int) -> int {
    if month == 2 {
        if is_leap_year(year) {
            29
        } else {
            28
        }
    } else if month == 4 || month == 6 || month == 9 || month == 11 {
        30
    } else {
        31
    }
}

impl Date {
    /// A well-formed date: four-digit year, real month and day.
    pub open spec fn valid(self) -> bool {
        self.year <= 9999 && 1 <= self.month <= 12 && 1 <= self.day
            && self.day <= days_in_month(self.year as int, self.month as int)
    }

    /// Ordering by year, then month, then day.
    pub open spec fn le_spec(self, other: Date) -> bool {
        if self.year != other.year {
            self.year < other.year
        } else if self.month != other.month {
            self.month < other.month
        } else {
            self.day <= other.day
        }
    }

    /// Compares two dates chronologically.
    pub fn le(&self, other: &Date) -> (r: bool)
        ensures
            r == self.le_spec(*other),
    {
        if self.year != other.year {
            self.year < other.year
        } else if self.month != other.month {
            self.month < other.month
        } else {
            self.day <= other.day
        }
    }

    /// Builds a date, returning `None` when the numbers name no real day.
    pub fn new(year: u16, month: u8, day: u8) -> (r: Option<Date>)
        ensures
            r matches Some(d) ==> d == (Date { year, month, day }) && d.valid(),
            r is None ==> !(Date { year, month, day }).valid(),
    {
        let d = Date { year, month, day };
        if year <= 9999 && 1 <= month && month <= 12 && 1 <= day && day <= days_in_month_exec(
            year,
            month,
        ) {
            Some(d)
        } else {
            None
        }
    }
}

/// The number of days in `month` of `year`.
fn days_in_month_exec(year: u16, month: u8) -> (r: u8)
    requires
        1 <= month <= 12,
    ensures
        r == days_in_month(year as int, month as int),
{
    if month == 2 {
        if year % 4 == 0 && (year % 100 != 0 || year % 400 == 0) {
            29
        } else {
            28
        }
    } else if month == 4 || month == 6 || month == 9 || month == 11 {
        30
    } else {
        31
    }
}

/// Whether `c` is a decimal digit.
pub open spec fn is_digit(c: char) -> bool {
    48 <= c as u32 <= 57
}

/// The numeric value of digit `c`.
pub open spec fn digit_val(c: char) -> int {
    c as u32 - 48
}

/// Whether `s` has the shape `YYYY-MM-DD` (digits and dashes only).
pub open spec fn date_syntax_ok(s: Seq<char>) -> bool {
    s.len() == 10 && s[4] == '-' && s[7] == '-' && is_digit(s[0]) && is_digit(s[1]) && is_digit(
        s[2],
    ) && is_digit(s[3]) && is_digit(s[5]) && is_digit(s[6]) && is_digit(s[8]) && is_digit(s[9])
}

/// The date named by a string of shape `YYYY-MM-DD`.
pub open spec fn date_of_text(s: Seq<char>) -> Date {
    Date {
        year: (digit_val(s[0]) * 1000 + digit_val(s[1]) * 100 + digit_val(s[2]) * 10 + digit_val(
            s[3],
        )) as u16,
        month: (digit_val(s[5]) * 10 + digit_val(s[6])) as u8,
        day: (digit_val(s[8]) * 10 + digit_val(s[9])) as u8,
    }
}

/// What parsing a date string yields: the named date when the text has the
/// `YYYY-MM-DD` shape and names a real calendar day, nothing otherwise.
pub open spec fn date_parse_spec(s: Seq<char>) -> Option<Date> {
    if date_syntax_ok(s) && date_of_text(s).valid() {
        Some(date_of_text(s))
    } else {
        None
    }
}

/// Reads the digit at position `i` of `value`, or `None` when it is not a
/// digit.
fn digit_at(value: &str, i: usize) -> (r: Option<u16>)
    requires
        i < value@.len(),
    ensures
        r matches Some(v) ==> is_digit(value@[i as int]) && v == digit_val(value@[i as int]),
        r is None ==> !is_digit(value@[i as int]),
{
    let c = value.get_char(i);
    let v = c as u32;
    if 48 <= v && v <= 57 {
        Some((v - 48) as u16)
    } else {
        None
    }
}

/// Parses a date from the `YYYY-MM-DD` text form.
///
/// Returns the named date exactly when the text has that shape and names a
/// real calendar day.
pub fn date_parser(value: &str) -> (r: Option<Date>)
    ensures
        r == date_parse_spec(value@),
{
    if value.unicode_len() != 10 {
        return None;
    }
    if value.get_char(4) != '-' || value.get_char(7) != '-' {
        return None;
    }
    let d0 = digit_at(value, 0);
    let d1 = digit_at(value, 1);
    let d2 = digit_at(value, 2);
    let d3 = digit_at(value, 3);
    let d5 = digit_at(value, 5);
    let d6 = digit_at(value, 6);
    let d8 = digit_at(value, 8);
    let d9 = digit_at(value, 9);
    match (d0, d1, d2, d3, d5, d6, d8, d9) {
        (
            Some(y0),
            Some(y1),
            Some(y2),
            Some(y3),
            Some(m0),
            Some(m1),
            Some(dd0),
            Some(dd1),
        ) => {
            let year: u16 = y0 * 1000 + y1 * 100 + y2 * 10 + y3;
            let month: u8 = (m0 * 10 + m1) as u8;
            let day: u8 = (dd0 * 10 + dd1) as u8;
            let date = Date { year, month, day };
            if 1 <= month && month <= 12 && 1 <= day && day <= days_in_month_exec(year, month) {
                Some(date)
            } else {
                None
            }
        },
        _ => None,
    }
}

/// Parses an optional date: empty text means no date, anything else must be
/// a valid `YYYY-MM-DD` date.
pub fn optional_date_parser(value: &str) -> (r: Option<Option<Date>>)
    ensures
        value@.len() == 0 ==> r == Some(Option::<Date>::None),
        value@.len() != 0 ==> r == match date_parse_spec(value@) {
            Some(d) => Some(Some(d)),
            None => None,
        },
{
    if value.unicode_len() == 0 {
        return Some(None);
    }
    match date_parser(value) {
        Some(d) => Some(Some(d)),
        None => None,
    }
}

/// Parses a creation date, where the text `NOW` stands for the supplied
/// current date.
pub fn created_at_parser(value: &str, now: Date) -> (r: Option<Date>)
    ensures
        value@ == "NOW"@ ==> r == Some(now),
        value@ != "NOW"@ ==> r == date_parse_spec(value@),
{
    proof {
        reveal_strlit("NOW");
    }
    if value.unicode_len() == 3 && value.get_char(0) == 'N' && value.get_char(1) == 'O'
        && value.get_char(2) == 'W' {
        proof {
            assert(value@ =~= "NOW"@);
        }
        Some(now)
    } else {
        date_parser(value)
    }
}

} // verus!
