use vstd::prelude::*;
use vstd::string::{StrSliceExecFns, StringSliceAdditionalSpecFns};

verus! {

/// A calendar date (proleptic Gregorian), held as year, month and day.
///
/// Release dates reach the library as `YYYY-MM-DD` text; nothing here
/// depends on a clock.
#[derive(Debug, Clone, Copy, PartialEq, Eq, Hash, Structural)]
pub struct Date {
    pub year: u32,
    pub month: u8,
    pub day: u8,
}

pub open spec fn spec_is_leap(y: int) -> bool {
    y % 4 == 0 && (y % 100 != 0 || y % 400 == 0)
}

pub open spec fn spec_days_in_month(y: int, m: int) -> int {
    if m == 2 {
        if spec_is_leap(y) {
            29
        } else {
            28
        }
    } else if m == 4 || m == 6 || m == 9 || m == 11 {
        30
    } else {
        31
    }
}

impl Date {
    /// A valid calendar date with a four-digit year.
    pub open spec fn wf(self) -> bool {
        &&& self.year <= 9999
        &&& 1 <= self.month <= 12
        &&& 1 <= self.day <= spec_days_in_month(self.year as int, self.month as int)
    }

    /// The date all-zero inputs fall back to.
    pub fn epoch() -> (r: Date)
        ensures
            r == (Date { year: 1970, month: 1, day: 1 }),
            r.wf(),
    {
        Date { year: 1970, month: 1, day: 1 }
    }
}

impl Default for Date {
    /// The fallback date, the first day of 1970.
    fn default() -> (r: Date)
        ensures
            r == (Date { year: 1970, month: 1, day: 1 }),
            r.wf(),
    {
        Date { year: 1970, month: 1, day: 1 }
    }
}

pub open spec fn is_digit(b: u8) -> bool {
    48 <= b <= 57
}

pub open spec fn digit_val(b: u8) -> int {
    b - 48
}

/// The text has the shape `YYYY-MM-DD`: ten bytes, hyphens at positions
/// 4 and 7, decimal digits everywhere else.
pub open spec fn date_bytes_shaped(s: Seq<u8>) -> bool {
    &&& s.len() == 10
    &&& is_digit(s[0]) && is_digit(s[1]) && is_digit(s[2]) && is_digit(s[3])
    &&& s[4] == 45
    &&& is_digit(s[5]) && is_digit(s[6])
    &&& s[7] == 45
    &&& is_digit(s[8]) && is_digit(s[9])
}

pub open spec fn spec_date_year(s: Seq<u8>) -> int {
    digit_val(s[0]) * 1000 + digit_val(s[1]) * 100 + digit_val(s[2]) * 10 + digit_val(s[3])
}

pub open spec fn spec_date_month(s: Seq<u8>) -> int {
    digit_val(s[5]) * 10 + digit_val(s[6])
}

pub open spec fn spec_date_day(s: Seq<u8>) -> int {
    digit_val(s[8]) * 10 + digit_val(s[9])
}

/// What parsing `YYYY-MM-DD` text yields: the date when the text is shaped
/// correctly and names a real calendar day, nothing otherwise.
pub open spec fn spec_parse_date(s: Seq<u8>) -> Option<Date> {
    if date_bytes_shaped(s) && 1 <= spec_date_month(s) <= 12 && 1 <= spec_date_day(s)
        <= spec_days_in_month(spec_date_year(s), spec_date_month(s)) {
        Some(
            Date {
                year: spec_date_year(s) as u32,
                month: spec_date_month(s) as u8,
                day: spec_date_day(s) as u8,
            },
        )
    } else {
        None
    }
}

/// Reads a `YYYY-MM-DD` date, rejecting malformed text and impossible days.
pub fn parse_date(s: &str) -> (r: Option<Date>)
    ensures
        r == spec_parse_date(s.spec_bytes()),
        r is Some ==> r.unwrap().wf(),
{
    let bytes: Vec<u8> = s.as_bytes_vec();
    if bytes.len() != 10 {
        return None;
    }
    if !(bytes[4] == 45 && bytes[7] == 45) {
        return None;
    }
    let mut i: usize = 0;
    while i < 10
        invariant
            bytes@ == s.spec_bytes(),
            bytes@.len() == 10,
            0 <= i <= 10,
            forall|k: int| 0 <= k < i && k != 4 && k != 7 ==> is_digit(bytes@[k]),
        decreases 10 - i,
    {
        if i != 4 && i != 7 {
            let b = bytes[i];
            if !(b >= 48 && b <= 57) {
                return None;
            }
        }
        i = i + 1;
    }
    let year: u32 = (bytes[0] - 48) as u32 * 1000 + (bytes[1] - 48) as u32 * 100 + (bytes[2] - 48)
        as u32 * 10 + (bytes[3] - 48) as u32;
    let month: u8 = (bytes[5] - 48) * 10 + (bytes[6] - 48);
    let day: u8 = (bytes[8] - 48) * 10 + (bytes[9] - 48);
    if month < 1 || month > 12 {
        return None;
    }
    let dim: u8 = days_in_month(year, month);
    if day < 1 || day > dim {
        return None;
    }
    Some(Date { year, month, day })
}

/// How many days the given month has in the given year.
pub fn days_in_month(year: u32, month: u8) -> (r: u8)
    ensures
        r == spec_days_in_month(year as int, month as int),
{
    if month == 2 {
        if year % 4 == 0 && (year % 100 != 0 || year % 400 == 0) {
            29
        } else {
            28
        }
    } else if month == 4 || month == 6 || month == 9 || month == 11 {
        30
    } else {
        31
    }
}

/// An instant in time, held as milliseconds since the Unix epoch.
///
/// Price snapshots are keyed and ordered by this value; the clock itself is
/// read outside the library.
#[derive(Debug, Clone, Copy, PartialEq, Eq, Hash, Structural)]
pub struct Timestamp {
    pub millis: i64,
}

} // verus!
