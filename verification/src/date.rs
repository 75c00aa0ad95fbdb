//! Calendar dates as plain values.
//!
//! A [`CivilDate`] is a year, a month and a day. Dates are ordered by
//! [`CivilDate::key`], which is the lexicographic order of the three fields.
//! Reading a date out of a timestamp, stepping back by whole years and
//! stepping on by whole months are done by `jiff`; the calls stand behind the
//! three trusted functions at the end of this file, whose contracts are
//! believed, not proved.

use jiff::civil::Date;
use jiff::fmt::temporal::DateTimeParser;
use jiff::tz::TimeZone;
use jiff::Span;
use vstd::prelude::*;

verus! {

/// `jiff::Error`, carried through without looking inside.
#[verifier::external_type_specification]
#[verifier::external_body]
pub struct ExJiffError(jiff::Error);

/// A date in the proleptic Gregorian calendar.
#[derive(Clone, Copy, Debug, PartialEq, Eq, Structural, PartialOrd, Ord, Hash)]
pub struct CivilDate {
    pub year: i16,
    pub month: i8,
    pub day: i8,
}

/// Whether `year` has a 29th of February.
pub open spec fn is_leap_year(year: int) -> bool {
    year % 4 == 0 && (year % 100 != 0 || year % 400 == 0)
}

/// The number of days of `month` in `year`; 0 where `month` is no month.
pub open spec fn days_in_month(year: int, month: int) -> int {
    if month == 2 {
        if is_leap_year(year) {
            29
        } else {
            28
        }
    } else if month == 4 || month == 6 || month == 9 || month == 11 {
        30
    } else if 1 <= month <= 12 {
        31
    } else {
        0
    }
}

impl CivilDate {
    /// An integer that orders dates as the triple (year, month, day) does:
    /// each field outweighs all that follow it.
    pub open spec fn key(self) -> int {
        self.year * 65536 + self.month * 256 + self.day
    }

    /// The date exists in the calendar, with a year from -9999 to 9999.
    pub open spec fn valid(self) -> bool {
        &&& -9999 <= self.year <= 9999
        &&& 1 <= self.month <= 12
        &&& 1 <= self.day <= days_in_month(self.year as int, self.month as int)
    }

    /// The date `years` years earlier: the same month, and the same day
    /// unless the month is shorter in that year, in which case its last day.
    /// `None` where `self` is no valid date or the year leaves the calendar.
    pub open spec fn minus_years(self, years: int) -> Option<CivilDate> {
        let year = self.year - years;
        let last = days_in_month(year, self.month as int);
        if self.valid() && -9999 <= year <= 9999 {
            Some(
                CivilDate {
                    year: year as i16,
                    month: self.month,
                    day: if self.day <= last {
                        self.day
                    } else {
                        last as i8
                    },
                },
            )
        } else {
            None
        }
    }

    /// The date `months` months later: the day is kept unless the month
    /// reached is shorter, in which case its last day is taken. `None` where
    /// `self` is no valid date or the year leaves the calendar.
    pub open spec fn plus_months(self, months: int) -> Option<CivilDate> {
        let total = self.month - 1 + months;
        let year = self.year + total / 12;
        let month = total % 12 + 1;
        let last = days_in_month(year, month);
        if self.valid() && -9999 <= year <= 9999 {
            Some(
                CivilDate {
                    year: year as i16,
                    month: month as i8,
                    day: if self.day <= last {
                        self.day
                    } else {
                        last as i8
                    },
                },
            )
        } else {
            None
        }
    }

    /// Builds a date, if the three numbers name one.
    pub fn new(year: i16, month: i8, day: i8) -> (date: Option<CivilDate>)
        ensures
            date == if (CivilDate { year, month, day }).valid() {
                Some(CivilDate { year, month, day })
            } else {
                None
            },
    {
        let d = CivilDate { year, month, day };
        if d.is_valid() {
            Some(d)
        } else {
            None
        }
    }

    /// Whether the date exists in the calendar.
    pub fn is_valid(&self) -> (ok: bool)
        ensures
            ok == self.valid(),
    {
        if self.year < -9999 || self.year > 9999 || self.month < 1 || self.month > 12
            || self.day < 1 {
            return false;
        }
        // 10000 is a multiple of 400, so the shifted year is leap exactly when
        // the year is.
        let shifted: u32 = (self.year as i32 + 10000) as u32;
        let leap = shifted % 4 == 0 && (shifted % 100 != 0 || shifted % 400 == 0);
        assert(leap == is_leap_year(self.year as int));
        let last: i8 = if self.month == 2 {
            if leap {
                29
            } else {
                28
            }
        } else if self.month == 4 || self.month == 6 || self.month == 9 || self.month == 11 {
            30
        } else {
            31
        };
        self.day <= last
    }

    /// `self` is not later than `other`.
    pub fn le(&self, other: &CivilDate) -> (r: bool)
        ensures
            r == (self.key() <= other.key()),
    {
        self.year < other.year || (self.year == other.year && (self.month < other.month || (
        self.month == other.month && self.day <= other.day)))
    }

    /// `self` is earlier than `other`.
    pub fn lt(&self, other: &CivilDate) -> (r: bool)
        ensures
            r == (self.key() < other.key()),
    {
        self.year < other.year || (self.year == other.year && (self.month < other.month || (
        self.month == other.month && self.day < other.day)))
    }
}

/// The calendar date, in UTC, of the instant that a timestamp text denotes;
/// `None` where the text denotes no instant.
pub uninterp spec fn timestamp_utc_date(text: Seq<char>) -> Option<CivilDate>;

/// Calls `jiff::fmt::temporal::DateTimeParser::parse_timestamp` on the text
/// and reads the date of the instant in UTC (`Timestamp::to_zoned` with
/// `TimeZone::UTC`, then `Zoned::date`). Trusted: the outcome is a function
/// of the text alone, named [`timestamp_utc_date`], and a date that `jiff`
/// hands out is a valid date.
#[verifier::external_body]
pub(crate) fn parse_timestamp_date(text: &str) -> (r: Result<CivilDate, jiff::Error>)
    ensures
        r matches Ok(d) ==> timestamp_utc_date(text@) == Some(d) && d.valid(),
        r is Err ==> timestamp_utc_date(text@) is None,
{
    match DateTimeParser::new().parse_timestamp(text.as_bytes()) {
        Ok(ts) => {
            let d = ts.to_zoned(TimeZone::UTC).date();
            Ok(CivilDate { year: d.year(), month: d.month(), day: d.day() })
        },
        Err(e) => Err(e),
    }
}

/// Calls `jiff::civil::Date::checked_sub` with a span of `years` years, on
/// the `jiff` date built by `Date::new`. Trusted: `Date::new` accepts exactly
/// the valid dates, and the subtraction keeps the month, clamps the day to
/// the month's length in the new year, and fails exactly when the new year
/// is outside -9999..=9999.
#[verifier::external_body]
pub(crate) fn date_minus_years(date: CivilDate, years: i16) -> (r: Option<CivilDate>)
    ensures
        r == date.minus_years(years as int),
{
    let d = Date::new(date.year, date.month, date.day).ok()?;
    let span = Span::new().try_years(years).ok()?;
    let e = d.checked_sub(span).ok()?;
    Some(CivilDate { year: e.year(), month: e.month(), day: e.day() })
}

/// Calls `jiff::civil::Date::checked_add` with a span of `months` months, on
/// the `jiff` date built by `Date::new`. Trusted: the months are added to the
/// month, every twelve of them carrying one year; the day is clamped to the
/// length of the month reached; and the call fails exactly when the year
/// reached is outside -9999..=9999.
#[verifier::external_body]
pub(crate) fn date_plus_months(date: CivilDate, months: i16) -> (r: Option<CivilDate>)
    ensures
        r == date.plus_months(months as int),
{
    let d = Date::new(date.year, date.month, date.day).ok()?;
    let span = Span::new().try_months(months).ok()?;
    let e = d.checked_add(span).ok()?;
    Some(CivilDate { year: e.year(), month: e.month(), day: e.day() })
}

} // verus!
