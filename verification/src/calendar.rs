//! Calendar facts taken from `chrono`. Days are numbered from January 1 of year 1
//! (day 1) in the proleptic Gregorian calendar, as `chrono` numbers them.
use vstd::prelude::*;
use chrono::Datelike;

verus! {

/// The first and the last day number that `chrono` has a date for
/// (January 1, 262144 BCE and December 31, 262142 CE).
pub const FIRST_DAY: i32 = -95_746_129;
pub const LAST_DAY: i32 = 95_745_399;

/// The weekday (0 = Monday) of day number `day`, or `None` outside the dates
/// `chrono` can hold. Day 1, January 1 of year 1, is a Monday.
pub open spec fn chrono_weekday(day: i32) -> Option<u32> {
    if FIRST_DAY <= day <= LAST_DAY {
        Some(((day - 1) % 7) as u32)
    } else {
        None
    }
}

/// `chrono::NaiveDate::from_num_days_from_ce_opt(day)` followed by
/// `weekday().num_days_from_monday()`. Claimed: `None` exactly outside
/// chrono's date range (years -262143 to 262142), and otherwise the day's
/// place in the seven-day week counted from day 1, a Monday.
#[verifier::external_body]
pub fn weekday_from_monday(day: i32) -> (r: Option<u32>)
    ensures
        r == chrono_weekday(day),
        r matches Some(w) ==> w < 7,
{
    chrono::NaiveDate::from_num_days_from_ce_opt(day).map(|d| d.weekday().num_days_from_monday())
}

} // verus!
