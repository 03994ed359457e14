//! A personal time-tracking library: an ordered log of clock-in/clock-out
//! actions, pure aggregation of worked durations over calendar windows, a
//! service that enforces the in/out alternation, and a textual storage codec
//! with a proved round trip.

use vstd::prelude::*;

pub mod stamp;
pub mod timesheet;
pub mod hms;
pub mod clock;
pub mod codec;

verus! {

/// Aggregation window of a total-time query, as the command line names them.
#[derive(Clone, Copy, Debug)]
pub enum Granularity {
    Today,
    Week,
    Month,
    Year,
}

pub open spec fn this_of_granularity(when: Granularity) -> crate::timesheet::This {
    match when {
        Granularity::Today => crate::timesheet::This::Day,
        Granularity::Week => crate::timesheet::This::Week,
        Granularity::Month => crate::timesheet::This::Month,
        Granularity::Year => crate::timesheet::This::Year,
    }
}

impl From<&Granularity> for crate::timesheet::This {
    fn from(when: &Granularity) -> (r: Self) {
        match when {
            Granularity::Today => crate::timesheet::This::Day,
            Granularity::Week => crate::timesheet::This::Week,
            Granularity::Month => crate::timesheet::This::Month,
            Granularity::Year => crate::timesheet::This::Year,
        }
    }
}

impl vstd::std_specs::convert::FromSpecImpl<&Granularity> for crate::timesheet::This {
    open spec fn obeys_from_spec() -> bool {
        true
    }

    open spec fn from_spec(when: &Granularity) -> crate::timesheet::This {
        this_of_granularity(*when)
    }
}

} // verus!
