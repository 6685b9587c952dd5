use vstd::prelude::*;

verus! {

/// A calendar date in the proleptic Gregorian calendar. The time of day does
/// not enter the schedule: a run counts whole days from midnight to midnight.
#[derive(Clone, Copy, PartialEq, Eq, Structural)]
pub struct CalendarDate {
    pub year: i32,
    pub month: u8,
    pub day: u8,
}

pub open spec fn is_leap_year(year: int) -> bool {
    year % 4 == 0 && (year % 100 != 0 || year % 400 == 0)
}

pub open spec fn days_in_month(year: int, month: int) -> int {
    if month == 2 {
        if is_leap_year(year) {
            29
        } else {
            28
        }
    } else if month == 4 || month == 6 || month == 9 || month == 11 {
        30
    } else {
        31
    }
}

/// A date that exists, in the years that the calendar library accepts.
pub open spec fn is_valid_date(year: int, month: int, day: int) -> bool {
    &&& -9999 <= year <= 9999
    &&& 1 <= month <= 12
    &&& 1 <= day <= days_in_month(year, month)
}

/// The Julian day number of a valid date.
pub uninterp spec fn julian_day_of(year: int, month: int, day: int) -> int;

/// Relies on `time::Month::try_from`, `time::Date::from_calendar_date` and
/// `time::Date::to_julian_day`: a date is built exactly when it is valid, and
/// its Julian day number depends on the date alone.
#[verifier::external_body]
fn julian_day(year: i32, month: u8, day: u8) -> (r: Option<i32>)
    ensures
        r is Some <==> is_valid_date(year as int, month as int, day as int),
        r is Some ==> r.unwrap() as int == julian_day_of(year as int, month as int, day as int),
{
    match time::Month::try_from(month) {
        Ok(m) => match time::Date::from_calendar_date(year, m, day) {
            Ok(d) => Some(d.to_julian_day()),
            Err(_) => None,
        },
        Err(_) => None,
    }
}

/// Whole days that passed between two day numbers; a clock that went back
/// counts as no time passed.
pub open spec fn clamped_elapsed(delta: int) -> int {
    if delta < 0 {
        0
    } else {
        delta
    }
}

impl CalendarDate {
    pub fn new(year: i32, month: u8, day: u8) -> (r: Self)
        ensures
            r.year == year,
            r.month == month,
            r.day == day,
    {
        CalendarDate { year, month, day }
    }

    pub open spec fn is_valid(self) -> bool {
        is_valid_date(self.year as int, self.month as int, self.day as int)
    }

    pub open spec fn day_number(self) -> int {
        julian_day_of(self.year as int, self.month as int, self.day as int)
    }

    /// The Julian day number of the date, or `None` where no such date exists.
    pub fn julian_day(&self) -> (r: Option<i32>)
        ensures
            r is Some <==> self.is_valid(),
            r is Some ==> r.unwrap() as int == self.day_number(),
    {
        julian_day(self.year, self.month, self.day)
    }
}

/// Days elapsed from day number `last_run` to day number `today`, never
/// negative.
pub fn elapsed_between_day_numbers(last_run: i32, today: i32) -> (r: u64)
    ensures
        r as int == clamped_elapsed(today - last_run),
{
    let delta: i64 = today as i64 - last_run as i64;
    if delta < 0 {
        0
    } else {
        delta as u64
    }
}

/// Days elapsed from `last_run` to `today`, or `None` where either is not a
/// valid date.
pub fn elapsed_days(last_run: &CalendarDate, today: &CalendarDate) -> (r: Option<u64>)
    ensures
        r is Some <==> last_run.is_valid() && today.is_valid(),
        r is Some ==> r.unwrap() as int == clamped_elapsed(today.day_number() - last_run.day_number()),
{
    let last = match last_run.julian_day() {
        Some(d) => d,
        None => return None,
    };
    let now = match today.julian_day() {
        Some(d) => d,
        None => return None,
    };
    Some(elapsed_between_day_numbers(last, now))
}

/// A day number that lies before the last run yields no elapsed days.
pub proof fn lemma_negative_delta_clamps(last_run: int, today: int)
    requires
        today < last_run,
    ensures
        clamped_elapsed(today - last_run) == 0,
{
}

} // verus!
