use vstd::prelude::*;

verus! {

/// Largest magnitude, in seconds since the Unix epoch, of an instant the
/// library accepts.  Generous enough for every instant the calendar backend
/// can produce, and small enough that summing one pair per action can never
/// overflow a 64-bit total.
pub const MAX_ABS_SECS: i64 = 8_800_000_000_000;

/// Largest magnitude of a local calendar day number the library accepts.
pub const MAX_ABS_DAYS: i64 = 100_000_000;

/// A timezone-aware instant, reduced to the plain values the timesheet logic
/// reads: the instant itself for duration arithmetic, and its local calendar
/// coordinates for period filtering.
#[derive(Clone, Copy, Debug, PartialEq, Eq, Structural)]
pub struct Stamp {
    /// Seconds since the Unix epoch of the instant.
    pub secs: i64,
    /// The local calendar date, counted in days from the calendar's day 1
    /// (0001-01-01, a Monday).
    pub days: i64,
    /// Day of the month (1 to 31) of the local date.
    pub day_of_month: i64,
    /// Day of the year (1 to 366) of the local date.
    pub day_of_year: i64,
}

impl Stamp {
    /// Bounds under which every duration computation in the library stays
    /// within 64-bit arithmetic.
    pub open spec fn wf(self) -> bool {
        &&& -MAX_ABS_SECS <= self.secs <= MAX_ABS_SECS
        &&& -MAX_ABS_DAYS <= self.days <= MAX_ABS_DAYS
        &&& 1 <= self.day_of_month <= 31
        &&& 1 <= self.day_of_year <= 366
    }

    pub fn new(secs: i64, days: i64, day_of_month: i64, day_of_year: i64) -> (r: Stamp)
        ensures
            r == (Stamp { secs, days, day_of_month, day_of_year }),
    {
        Stamp { secs, days, day_of_month, day_of_year }
    }
}

/// How many days the given local date lies after the Monday of its week.
/// Day 1 of the calendar is a Monday, so this is a plain residue.
pub open spec fn spec_days_from_monday(days: int) -> int {
    (days - 1) % 7
}

/// Computes the day-of-week offset used for the weekly reporting window.
pub fn days_from_monday(days: i64) -> (r: i64)
    requires
        -MAX_ABS_DAYS <= days <= MAX_ABS_DAYS,
    ensures
        r == spec_days_from_monday(days as int),
        0 <= r < 7,
{
    let m: i64 = (days - 1) % 7;
    if m < 0 {
        m + 7
    } else {
        m
    }
}

} // verus!
