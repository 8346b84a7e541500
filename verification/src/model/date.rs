use chrono::Datelike;
use vstd::prelude::*;

use crate::grammar::{date_lt, date_valid, date_value, DateRep};
use crate::text::{i32_string, int_digits, pad2_digits, split_char, parse_i32, parse_u32,
    seq_views, u32_string_pad2};
use crate::Error;

verus! {

/// A calendar date, ordered lexicographically by year, month and day.
/// The components are taken as given; no calendar validity is imposed,
/// exactly as a directive's `date=` value is read.
#[derive(Debug, Clone, Copy)]
pub struct Date {
    pub year: i32,
    pub month: u32,
    pub day: u32,
}

impl View for Date {
    type V = DateRep;

    closed spec fn view(&self) -> DateRep {
        DateRep { year: self.year as int, month: self.month as int, day: self.day as int }
    }
}

/// The `YYYY-MM-DD` rendering, with month and day padded to two digits.
pub open spec fn date_display(d: DateRep) -> Seq<char> {
    int_digits(d.year) + "-"@ + pad2_digits(d.month) + "-"@ + pad2_digits(d.day)
}

impl Date {
    pub fn new(year: i32, month: u32, day: u32) -> (d: Date)
        ensures
            d@ == (DateRep { year: year as int, month: month as int, day: day as int }),
    {
        Date { year, month, day }
    }

    /// Relies on `chrono::Local::now` and `chrono::Datelike`: the current
    /// local calendar date, whose month is in 1..=12 and day in 1..=31.
    /// Nothing further can be promised of the clock. Assumes a sane system
    /// clock: chrono itself panics if the clock reads before the Unix epoch
    /// or outside its representable range.
    #[verifier::external_body]
    pub fn now() -> (d: Date)
        ensures
            1 <= d@.month <= 12,
            1 <= d@.day <= 31,
    {
        let now = chrono::Local::now();
        Date { year: now.year(), month: now.month(), day: now.day() }
    }

    pub fn mock(year: i32, month: u32, day: u32) -> (d: Date)
        ensures
            d@ == (DateRep { year: year as int, month: month as int, day: day as int }),
    {
        Date { year, month, day }
    }

    /// Reads a `YYYY-MM-DD` value: exactly three `-`-separated decimal
    /// fields, each within its component's machine range.
    pub fn try_from(value: &str) -> (r: Result<Date, Error>)
        ensures
            r is Ok <==> date_valid(value@),
            r matches Ok(d) ==> d@ == date_value(value@),
    {
        let fields = split_char(value, '-');
        if fields.len() != 3 {
            return Err(Error::new("a date is three `-`-separated fields"));
        }
        let year = match parse_i32(fields[0].as_str()) {
            Ok(y) => y,
            Err(e) => {
                return Err(e);
            },
        };
        let month = match parse_u32(fields[1].as_str()) {
            Ok(m) => m,
            Err(e) => {
                return Err(e);
            },
        };
        let day = match parse_u32(fields[2].as_str()) {
            Ok(d) => d,
            Err(e) => {
                return Err(e);
            },
        };
        Ok(Date { year, month, day })
    }

    /// The `YYYY-MM-DD` rendering of this date.
    pub fn display(&self) -> (r: String)
        ensures
            r@ == date_display(self@),
    {
        let mut r = i32_string(self.year);
        r.append("-");
        let m = u32_string_pad2(self.month);
        r.append(m.as_str());
        r.append("-");
        let d = u32_string_pad2(self.day);
        r.append(d.as_str());
        r
    }
}

impl PartialEq for Date {
    fn eq(&self, other: &Date) -> (r: bool) {
        self.year == other.year && self.month == other.month && self.day == other.day
    }
}

impl vstd::std_specs::cmp::PartialEqSpecImpl for Date {
    open spec fn obeys_eq_spec() -> bool {
        true
    }

    open spec fn eq_spec(&self, other: &Date) -> bool {
        self@ == other@
    }
}

impl PartialOrd for Date {
    fn partial_cmp(&self, other: &Date) -> (r: Option<core::cmp::Ordering>) {
        if self.year < other.year {
            Some(core::cmp::Ordering::Less)
        } else if self.year > other.year {
            Some(core::cmp::Ordering::Greater)
        } else if self.month < other.month {
            Some(core::cmp::Ordering::Less)
        } else if self.month > other.month {
            Some(core::cmp::Ordering::Greater)
        } else if self.day < other.day {
            Some(core::cmp::Ordering::Less)
        } else if self.day > other.day {
            Some(core::cmp::Ordering::Greater)
        } else {
            Some(core::cmp::Ordering::Equal)
        }
    }
}

impl vstd::std_specs::cmp::PartialOrdSpecImpl for Date {
    open spec fn obeys_partial_cmp_spec() -> bool {
        true
    }

    open spec fn partial_cmp_spec(&self, other: &Date) -> Option<core::cmp::Ordering> {
        if date_lt(self@, other@) {
            Some(core::cmp::Ordering::Less)
        } else if self@ == other@ {
            Some(core::cmp::Ordering::Equal)
        } else {
            Some(core::cmp::Ordering::Greater)
        }
    }
}

} // verus!
