use vstd::prelude::*;
use vstd::math::min;
use chrono::Datelike;

verus! {

/// Largest start year the engine accepts; keeps every reachable end date
/// far inside chrono's supported range.
pub const MAX_YEAR: i32 = 9999;

/// A Gregorian calendar date, held as plain year, month and day numbers.
#[derive(Clone, Copy, Debug, PartialEq, Eq, Structural)]
pub struct Date {
    pub year: i32,
    pub month: u32,
    pub day: u32,
}

pub open spec fn spec_is_leap_year(y: int) -> bool {
    y % 4 == 0 && (y % 100 != 0 || y % 400 == 0)
}

pub open spec fn spec_days_in_month(y: int, m: int) -> int {
    if m == 2 {
        if spec_is_leap_year(y) {
            29
        } else {
            28
        }
    } else if m == 4 || m == 6 || m == 9 || m == 11 {
        30
    } else {
        31
    }
}

impl Date {
    /// A real calendar date within the supported year range.
    pub open spec fn wf(self) -> bool {
        &&& 1 <= self.year <= MAX_YEAR
        &&& 1 <= self.month <= 12
        &&& 1 <= self.day <= spec_days_in_month(self.year as int, self.month as int)
    }
}

/// The date `n` whole months after `d`: the month index advances by `n`
/// and the day is clamped to the length of the target month.
pub open spec fn spec_add_months(d: Date, n: int) -> Date {
    let total = d.year * 12 + d.month - 1 + n;
    let y = total / 12;
    let m = total % 12 + 1;
    Date {
        year: y as i32,
        month: m as u32,
        day: min(d.day as int, spec_days_in_month(y, m)) as u32,
    }
}

/// Number of days in month `m` of year `y`.
pub fn days_in_month(y: i32, m: u32) -> (n: u32)
    requires
        0 <= y,
        1 <= m <= 12,
    ensures
        n == spec_days_in_month(y as int, m as int),
{
    if m == 2 {
        let leap: bool = y % 4 == 0 && (y % 100 != 0 || y % 400 == 0);
        if leap {
            29
        } else {
            28
        }
    } else if m == 4 || m == 6 || m == 9 || m == 11 {
        30
    } else {
        31
    }
}

/// Whether `d` is a real calendar date in the supported range.
pub fn is_valid_date(d: &Date) -> (b: bool)
    ensures
        b == d.wf(),
{
    1 <= d.year && d.year <= MAX_YEAR && 1 <= d.month && d.month <= 12 && 1 <= d.day
        && d.day <= days_in_month(d.year, d.month)
}

/// Relies on `chrono::NaiveDate::checked_add_months`: advancing a valid
/// date by `n` whole months moves the month index forward by `n` and
/// clamps the day to the last day of the target month (Gregorian leap
/// rule); it returns `Some` whenever the result is far inside chrono's
/// supported year range, which the bounds below guarantee.
#[verifier::external_body]
fn add_months_raw(year: i32, month: u32, day: u32, n: u32) -> (r: Option<(i32, u32, u32)>)
    requires
        (Date { year, month, day }).wf(),
        n <= 240000,
    ensures
        (r == Some(
            {
                let e = spec_add_months(Date { year, month, day }, n as int);
                (e.year, e.month, e.day)
            },
        )),
{
    let d = chrono::NaiveDate::from_ymd_opt(year, month, day)?;
    let moved = d.checked_add_months(chrono::Months::new(n))?;
    Some((moved.year(), moved.month(), moved.day()))
}

/// The date `n` whole months after `d`.
pub fn add_months(d: Date, n: u32) -> (r: Date)
    requires
        d.wf(),
        n <= 240000,
    ensures
        r == spec_add_months(d, n as int),
{
    match add_months_raw(d.year, d.month, d.day, n) {
        Some((y, m, dd)) => Date { year: y, month: m, day: dd },
        None => {
            proof {
                assert(false);
            }
            d
        },
    }
}

} // verus!
