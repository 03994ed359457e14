use chrono::{Datelike, Local, TimeDelta, Timelike};
use timeclock::clock::{Timeclock, TimeclockError};
use timeclock::stamp::Stamp;
use timeclock::timesheet::{Action, This, Timesheet};

fn stamp_at(dt: chrono::DateTime<Local>) -> Stamp {
    let date = dt.date_naive();
    Stamp::new(
        dt.timestamp(),
        date.num_days_from_ce() as i64,
        date.day() as i64,
        date.ordinal() as i64,
    )
}

fn service() -> Timeclock {
    Timeclock::new(String::from("timesheet.log"), timeclock::clock::Debug::Off)
}

#[test]
fn clock_in() {
    let timeclock = service();
    let mut timesheet = Timesheet::default();
    timeclock.clock_in(&mut timesheet).unwrap();

    match timesheet.last_action().unwrap() {
        Action::In(time) => {
            let delta = time.secs - Local::now().timestamp();
            assert!(-1 <= delta && delta <= 1);
        }
        _ => panic!("Expected last action to be a clock in"),
    }
}

#[test]
fn clock_in_twice_fails() {
    let timeclock = service();
    let mut timesheet = Timesheet::default();
    timeclock.clock_in(&mut timesheet).unwrap();
    let result = timeclock.clock_in(&mut timesheet);

    assert!(result.is_err());
}

#[test]
fn clock_out() {
    let timeclock = service();
    let mut timesheet = Timesheet::default();
    timeclock.clock_in(&mut timesheet).unwrap();
    timeclock.clock_out(&mut timesheet).unwrap();

    match timesheet.last_action().unwrap() {
        Action::Out(time) => {
            let delta = time.secs - Local::now().timestamp();
            assert!(-1 <= delta && delta <= 1);
        }
        _ => panic!("Expected last action to be a clock out"),
    }
}

#[test]
fn clock_out_twice_fails() {
    let timeclock = service();
    let mut timesheet = Timesheet::default();
    let _ = timeclock.clock_out(&mut timesheet);
    let result = timeclock.clock_out(&mut timesheet);

    assert!(result.is_err());
}

#[test]
fn time_worked_today() {
    let timeclock = service();
    let mut timesheet = Timesheet::default();

    // Setup
    let now = Local::now().with_hour(12).unwrap();
    let clock_in = now
        .checked_sub_signed(TimeDelta::try_hours(8).unwrap())
        .unwrap();

    timesheet.clock_in(stamp_at(clock_in));
    timesheet.clock_out(stamp_at(now));

    // No assertions, just make sure it doesn't panic.
    timeclock.time_clocked(&timesheet, &This::Day);
}

#[test]
fn nine_to_five_is_eight_hours() {
    let timeclock = service();
    let mut timesheet = Timesheet::default();
    let nine = Stamp::new(32400, 1, 1, 1);
    let five = Stamp::new(61200, 1, 1, 1);

    timeclock.clock_in_at(&mut timesheet, nine).unwrap();
    timeclock.clock_out_at(&mut timesheet, five).unwrap();

    assert_eq!(timeclock.time_clocked_at(&timesheet, &This::Day, &five), "08:00:00");
}

#[test]
fn open_session_excluded_but_running() {
    let timeclock = service();
    let mut timesheet = Timesheet::default();
    let nine = Stamp::new(32400, 1, 1, 1);
    let now = Stamp::new(32400 + 3723, 1, 1, 1);

    timeclock.clock_in_at(&mut timesheet, nine).unwrap();

    assert_eq!(timeclock.time_clocked_at(&timesheet, &This::Day, &now), "00:00:00");
    assert_eq!(timeclock.running_time_at(&timesheet, &now), "01:02:03");
}

#[test]
fn clock_out_on_empty_timesheet_is_state_violation() {
    let timeclock = service();
    let mut timesheet = Timesheet::default();

    let result = timeclock.clock_out_at(&mut timesheet, Stamp::new(1, 1, 1, 1));

    let err = result.unwrap_err();
    assert!(err.is_state_violation());
    assert_eq!(err, TimeclockError::AlreadyClockedOut);
    assert!(timesheet.last_action().is_none());
}

#[test]
fn second_clock_in_rejected_without_mutation() {
    let timeclock = service();
    let mut timesheet = Timesheet::default();
    let t = Stamp::new(100, 1, 1, 1);

    timeclock.clock_in_at(&mut timesheet, t).unwrap();
    let result = timeclock.clock_in_at(&mut timesheet, Stamp::new(200, 1, 1, 1));

    assert_eq!(result.unwrap_err(), TimeclockError::AlreadyClockedIn);
    assert_eq!(timesheet.last_action().unwrap(), Action::In(t));
    assert_eq!(timeclock.clock_in_at(&mut timesheet, t).unwrap_err().message(), "You are already clocked in");
}

#[test]
fn weekly_breakdown_places_work_on_its_day() {
    let timeclock = service();
    let mut timesheet = Timesheet::default();
    // Day 8 of the calendar is a Monday.
    timesheet.clock_in(Stamp::new(0, 8, 8, 8));
    timesheet.clock_out(Stamp::new(28800, 8, 8, 8));

    let now = Stamp::new(30000, 9, 9, 9);
    let week = timeclock.timesheet_at(&timesheet, &now);

    assert_eq!(week.len(), 7);
    assert_eq!(week[0], "08:00:00");
    assert_eq!(week[1], "00:00:00");
    assert_eq!(week[6], "00:00:00");
}

#[test]
fn wipe_is_inert() {
    let timeclock = service();
    assert!(timeclock.wipe().is_ok());
}

#[test]
fn debug_mode_reports_state() {
    assert!(timeclock::clock::Debug::On.is_on());
    assert!(!timeclock::clock::Debug::Off.is_on());
}

#[test]
fn file_returns_configured_path() {
    let timeclock = service();
    assert_eq!(timeclock.file(), "timesheet.log");
}

#[test]
fn granularity_maps_to_window() {
    let this: This = (&timeclock::Granularity::Today).into();
    assert!(matches!(this, This::Day));
    let this: This = (&timeclock::Granularity::Year).into();
    assert!(matches!(this, This::Year));
}

#[test]
fn watch_is_inert() {
    let timeclock = service();
    timeclock.watch(&40);
}
