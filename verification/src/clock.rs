use vstd::prelude::*;
use crate::stamp::Stamp;
use crate::timesheet::{
    Action, This, Timesheet, MAX_LEN, actions_wf, total_time_spec, running_time_spec,
    day_total_spec,
};
use crate::stamp::days_from_monday;
use crate::stamp::spec_days_from_monday;
use crate::hms::{format_hms, hms_chars};
use crate::codec::{encode_timesheet, enc_sheet};

verus! {

/// Debug mode of the service: whether it asks its caller to log the storage
/// locations it touches.
pub enum Debug {
    On,
    Off,
}

impl Debug {
    pub open spec fn is_on_spec(self) -> bool {
        match self {
            Debug::On => true,
            Debug::Off => false,
        }
    }

    pub fn is_on(&self) -> (r: bool)
        ensures
            r == self.is_on_spec(),
    {
        match self {
            Debug::On => true,
            Debug::Off => false,
        }
    }
}

/// The errors the service reports.  The state violations are user-facing and
/// non-retryable; a parse failure aborts the whole operation so that no data
/// is silently lost.
#[derive(Clone, Copy, Debug, PartialEq, Eq, Structural)]
pub enum TimeclockError {
    /// Clock-in requested while the last action is already a clock-in.
    AlreadyClockedIn,
    /// Clock-out requested while not clocked in (a clock-out, or an empty
    /// log, is last).
    AlreadyClockedOut,
    /// The persisted timesheet exists but is not valid serialized data.
    ParseFailure,
}

impl TimeclockError {
    /// Whether the error is a violation of the in/out alternation.
    pub fn is_state_violation(&self) -> (r: bool)
        ensures
            r == (*self == TimeclockError::AlreadyClockedIn || *self
                == TimeclockError::AlreadyClockedOut),
    {
        match self {
            TimeclockError::AlreadyClockedIn => true,
            TimeclockError::AlreadyClockedOut => true,
            TimeclockError::ParseFailure => false,
        }
    }

    /// The user-facing message of the error.
    pub fn message(&self) -> (r: &'static str)
        ensures
            *self == TimeclockError::AlreadyClockedIn ==> r@ == "You are already clocked in"@,
            *self == TimeclockError::AlreadyClockedOut ==> r@ == "You are already clocked out"@,
            *self == TimeclockError::ParseFailure ==> r@ == "The timesheet could not be parsed"@,
    {
        match self {
            TimeclockError::AlreadyClockedIn => "You are already clocked in",
            TimeclockError::AlreadyClockedOut => "You are already clocked out",
            TimeclockError::ParseFailure => "The timesheet could not be parsed",
        }
    }
}

/// A clock-in is allowed whenever the last action is not already a clock-in:
/// on an empty log, or after a clock-out.
pub open spec fn clock_in_allowed(s: Seq<Action>) -> bool {
    !(s.len() > 0 && s.last() is In)
}

/// A clock-out is allowed only while clocked in; an empty log counts as
/// clocked out.
pub open spec fn clock_out_allowed(s: Seq<Action>) -> bool {
    s.len() > 0 && s.last() is In
}

/// Relies on `chrono::Local::now` and `chrono::Datelike`: the present local
/// instant reduced to plain values.  chrono documents its instants bounded by
/// `DateTime::MIN_UTC`/`MAX_UTC` (year magnitudes below 262144), so the
/// seconds, day number, day of month and day of year all lie within the
/// library's bounds.
#[verifier::external_body]
fn now_stamp() -> (r: Stamp)
    ensures
        r.wf(),
{
    let now = chrono::Local::now();
    let date = now.date_naive();
    Stamp {
        secs: now.timestamp(),
        days: chrono::Datelike::num_days_from_ce(&date) as i64,
        day_of_month: chrono::Datelike::day(&date) as i64,
        day_of_year: chrono::Datelike::ordinal(&date) as i64,
    }
}

/// The timeclock service: enforces the clock-state alternation and prepares
/// everything the storage and display layers around it need.  The storage
/// location is explicit configuration; reading and writing it is the caller's
/// part.
pub struct Timeclock {
    pub timesheet_path: String,
    pub debug: Debug,
}

impl Timeclock {
    /// Creates a new service instance for the given storage location.
    pub fn new(timesheet_path: String, debug: Debug) -> (r: Self)
        ensures
            r.timesheet_path@ == timesheet_path@,
            r.debug == debug,
    {
        Timeclock { timesheet_path, debug }
    }

    /// The configured storage location, untouched.
    pub fn file(&self) -> (r: &String)
        ensures
            r@ == self.timesheet_path@,
    {
        &self.timesheet_path
    }

    /// Clocks the user in at the given instant: rejected if the last action
    /// is already a clock-in, and the log is then left untouched; otherwise
    /// appends the clock-in.
    pub fn clock_in_at(&self, timesheet: &mut Timesheet, now: Stamp) -> (r: Result<
        (),
        TimeclockError,
    >)
        ensures
            clock_in_allowed(old(timesheet)@) ==> r is Ok && final(timesheet)@ == old(
                timesheet,
            )@.push(Action::In(now)),
            !clock_in_allowed(old(timesheet)@) ==> r == Err::<(), _>(
                TimeclockError::AlreadyClockedIn,
            ) && final(timesheet)@ == old(timesheet)@,
    {
        match timesheet.last_action() {
            Some(Action::In(_)) => Err(TimeclockError::AlreadyClockedIn),
            _ => {
                timesheet.clock_in(now);
                Ok(())
            },
        }
    }

    /// Clocks the user out at the given instant: rejected while not clocked
    /// in (after a clock-out, or on an empty log), and the log is then left
    /// untouched; otherwise appends the clock-out.
    pub fn clock_out_at(&self, timesheet: &mut Timesheet, now: Stamp) -> (r: Result<
        (),
        TimeclockError,
    >)
        ensures
            clock_out_allowed(old(timesheet)@) ==> r is Ok && final(timesheet)@ == old(
                timesheet,
            )@.push(Action::Out(now)),
            !clock_out_allowed(old(timesheet)@) ==> r == Err::<(), _>(
                TimeclockError::AlreadyClockedOut,
            ) && final(timesheet)@ == old(timesheet)@,
    {
        match timesheet.last_action() {
            Some(Action::In(_)) => {
                timesheet.clock_out(now);
                Ok(())
            },
            _ => Err(TimeclockError::AlreadyClockedOut),
        }
    }

    /// Clocks the user in at the present instant.
    pub fn clock_in(&self, timesheet: &mut Timesheet) -> (r: Result<(), TimeclockError>)
        ensures
            clock_in_allowed(old(timesheet)@) ==> r is Ok && final(timesheet)@.len() == old(
                timesheet,
            )@.len() + 1 && final(timesheet)@.drop_last() == old(timesheet)@ && (final(timesheet)@.last() matches Action::In(t) && t.wf()),
            !clock_in_allowed(old(timesheet)@) ==> r == Err::<(), _>(
                TimeclockError::AlreadyClockedIn,
            ) && final(timesheet)@ == old(timesheet)@,
    {
        let now = now_stamp();
        let r = self.clock_in_at(timesheet, now);
        proof {
            if clock_in_allowed(old(timesheet)@) {
                assert(old(timesheet)@.push(Action::In(now)).drop_last() =~= old(timesheet)@);
            }
        }
        r
    }

    /// Clocks the user out at the present instant.
    pub fn clock_out(&self, timesheet: &mut Timesheet) -> (r: Result<(), TimeclockError>)
        ensures
            clock_out_allowed(old(timesheet)@) ==> r is Ok && final(timesheet)@.len() == old(
                timesheet,
            )@.len() + 1 && final(timesheet)@.drop_last() == old(timesheet)@ && (final(timesheet)@.last() matches Action::Out(t) && t.wf()),
            !clock_out_allowed(old(timesheet)@) ==> r == Err::<(), _>(
                TimeclockError::AlreadyClockedOut,
            ) && final(timesheet)@ == old(timesheet)@,
    {
        let now = now_stamp();
        let r = self.clock_out_at(timesheet, now);
        proof {
            if clock_out_allowed(old(timesheet)@) {
                assert(old(timesheet)@.push(Action::Out(now)).drop_last() =~= old(timesheet)@);
            }
        }
        r
    }

    /// Total time clocked inside the window, evaluated against the given
    /// instant, rendered `HH:MM:SS`.
    pub fn time_clocked_at(&self, timesheet: &Timesheet, worked: &This, now: &Stamp) -> (r: String)
        requires
            timesheet.wf(),
            now.wf(),
        ensures
            r@ == hms_chars(total_time_spec(timesheet@, *worked, *now)),
    {
        format_hms(timesheet.total_time(worked, now))
    }

    /// Total time clocked inside the window, evaluated against the present
    /// instant.
    pub fn time_clocked(&self, timesheet: &Timesheet, worked: &This) -> (r: String)
        requires
            timesheet.wf(),
        ensures
            exists|now: Stamp|
                now.wf() && r@ == hms_chars(total_time_spec(timesheet@, *worked, now)),
    {
        let now = now_stamp();
        let r = self.time_clocked_at(timesheet, worked, &now);
        proof {
            assert(now.wf() && r@ == hms_chars(total_time_spec(timesheet@, *worked, now)));
        }
        r
    }

    /// Time worked today, counting a still-open session up to the given
    /// instant, rendered `HH:MM:SS`; zero when the day is empty.
    pub fn running_time_at(&self, timesheet: &Timesheet, now: &Stamp) -> (r: String)
        requires
            timesheet.wf(),
            now.wf(),
        ensures
            r@ == hms_chars(running_time_spec(timesheet@, *now)),
    {
        match timesheet.running_time(now) {
            Some(t) => format_hms(t),
            None => format_hms(0),
        }
    }

    /// Time worked today, counting a still-open session up to the present
    /// instant.
    pub fn running_time(&self, timesheet: &Timesheet) -> (r: String)
        requires
            timesheet.wf(),
        ensures
            exists|now: Stamp| now.wf() && r@ == hms_chars(running_time_spec(timesheet@, now)),
    {
        let now = now_stamp();
        let r = self.running_time_at(timesheet, &now);
        proof {
            assert(now.wf() && r@ == hms_chars(running_time_spec(timesheet@, now)));
        }
        r
    }

    /// The full serialized log, unmodified, for diagnostic inspection.
    pub fn raw_timesheet(&self, timesheet: &Timesheet) -> (r: String)
        requires
            timesheet.wf(),
        ensures
            r@ == crate::hms::ascii_chars(enc_sheet(timesheet@)),
    {
        let bytes = encode_timesheet(timesheet);
        crate::hms::ascii_string(bytes)
    }

    /// The worked total of each day of the current week, Monday through
    /// Sunday, each rendered `HH:MM:SS`, evaluated against the given instant.
    pub fn timesheet_at(&self, timesheet: &Timesheet, now: &Stamp) -> (r: Vec<String>)
        requires
            timesheet.wf(),
            now.wf(),
        ensures
            r@.len() == 7,
            forall|d: int|
                0 <= d < 7 ==> (#[trigger] r@[d])@ == hms_chars(
                    day_total_spec(timesheet@, now.days - spec_days_from_monday(now.days as int) + d),
                ),
    {
        let monday: i64 = now.days - days_from_monday(now.days);
        let mut out: Vec<String> = Vec::new();
        let mut d: usize = 0;
        while d < 7
            invariant
                timesheet.wf(),
                now.wf(),
                monday == now.days - spec_days_from_monday(now.days as int),
                0 <= d <= 7,
                out@.len() == d,
                forall|j: int|
                    0 <= j < d ==> (#[trigger] out@[j])@ == hms_chars(
                        day_total_spec(timesheet@, monday + j),
                    ),
            decreases 7 - d,
        {
            let total = timesheet.day_total(monday + d as i64);
            out.push(format_hms(total));
            d = d + 1;
        }
        out
    }

    /// The weekly breakdown, evaluated against the present instant.
    pub fn timesheet(&self, timesheet: &Timesheet) -> (r: Vec<String>)
        requires
            timesheet.wf(),
        ensures
            r@.len() == 7,
            exists|now: Stamp|
                now.wf() && forall|d: int|
                    0 <= d < 7 ==> (#[trigger] r@[d])@ == hms_chars(
                        day_total_spec(
                            timesheet@,
                            now.days - spec_days_from_monday(now.days as int) + d,
                        ),
                    ),
    {
        let now = now_stamp();
        let r = self.timesheet_at(timesheet, &now);
        proof {
            assert(now.wf() && forall|d: int|
                0 <= d < 7 ==> (#[trigger] r@[d])@ == hms_chars(
                    day_total_spec(timesheet@, now.days - spec_days_from_monday(now.days as int) + d),
                ));
        }
        r
    }

    /// Watching for a weekly hour target is not implemented; the call does
    /// nothing.
    pub fn watch(&self, _hours: &usize) {
    }

    /// Wiping the timesheet is intentionally inert: the call performs no
    /// mutation and reports success.
    pub fn wipe(&self) -> (r: Result<(), TimeclockError>)
        ensures
            r is Ok,
    {
        Ok(())
    }
}

/// After a successful clock-in the log ends in a clock-in, so an immediately
/// following clock-in is rejected; after a successful clock-out the log ends
/// in a clock-out, so an immediately following clock-out is rejected.
pub proof fn lemma_consecutive_clocks_rejected(s: Seq<Action>, t: Stamp)
    ensures
        !clock_in_allowed(s.push(Action::In(t))),
        !clock_out_allowed(s.push(Action::Out(t))),
{
}

} // verus!
