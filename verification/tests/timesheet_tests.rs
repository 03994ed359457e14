use chrono::{Datelike, Local, TimeDelta, TimeZone};
use timeclock::stamp::Stamp;
use timeclock::timesheet::{Action, This, Timesheet};

fn stamp_of(dt: chrono::DateTime<Local>) -> Stamp {
    let date = dt.date_naive();
    Stamp::new(
        dt.timestamp(),
        date.num_days_from_ce() as i64,
        date.day() as i64,
        date.ordinal() as i64,
    )
}

/// A fixed mid-week, mid-day instant, so that eight hours earlier lies in
/// the same day, week, month and year whatever the wall clock says.
fn fixed_now() -> chrono::DateTime<Local> {
    Local.with_ymd_and_hms(2024, 7, 17, 18, 0, 0).unwrap()
}

#[test]
fn total_time_today() {
    let mut timesheet = Timesheet::default();
    let now = fixed_now();
    let clock_in = now
        .checked_sub_signed(TimeDelta::try_hours(8).unwrap())
        .unwrap();
    let clock_out = now;

    timesheet.clock_in(stamp_of(clock_in));
    timesheet.clock_out(stamp_of(clock_out));

    let total_time = timesheet.total_time(&This::Day, &stamp_of(now));
    assert_eq!(total_time / 3600, 8);
}

#[test]
fn total_time_this_week() {
    let mut timesheet = Timesheet::default();
    let now = fixed_now();
    let clock_in = now
        .checked_sub_signed(TimeDelta::try_hours(8).unwrap())
        .unwrap();
    let clock_out = now;

    timesheet.clock_in(stamp_of(clock_in));
    timesheet.clock_out(stamp_of(clock_out));

    let total_time = timesheet.total_time(&This::Week, &stamp_of(now));
    assert_eq!(total_time / 3600, 8);
}

#[test]
fn total_time_this_month() {
    let mut timesheet = Timesheet::default();
    let now = fixed_now();
    let clock_in = now
        .checked_sub_signed(TimeDelta::try_hours(8).unwrap())
        .unwrap();
    let clock_out = now;

    timesheet.clock_in(stamp_of(clock_in));
    timesheet.clock_out(stamp_of(clock_out));

    let total_time = timesheet.total_time(&This::Month, &stamp_of(now));
    assert_eq!(total_time / 3600, 8);
}

#[test]
fn total_time_this_year() {
    let mut timesheet = Timesheet::default();
    let now = fixed_now();
    let clock_in = now
        .checked_sub_signed(TimeDelta::try_hours(8).unwrap())
        .unwrap();
    let clock_out = now;

    timesheet.clock_in(stamp_of(clock_in));
    timesheet.clock_out(stamp_of(clock_out));

    let total_time = timesheet.total_time(&This::Year, &stamp_of(now));
    assert_eq!(total_time / 3600, 8);
}

#[test]
fn last_action() {
    let mut timesheet = Timesheet::default();
    let now = fixed_now();
    let clock_in = now
        .checked_sub_signed(TimeDelta::try_hours(8).unwrap())
        .unwrap();
    let clock_out = now;

    timesheet.clock_in(stamp_of(clock_in));
    timesheet.clock_out(stamp_of(clock_out));

    assert_eq!(
        timesheet.last_action().unwrap(),
        Action::Out(stamp_of(clock_out))
    );
}

#[test]
fn running_time() {
    let mut timesheet = Timesheet::default();
    let now = fixed_now();
    let clock_in = now
        .checked_sub_signed(TimeDelta::try_hours(8).unwrap())
        .unwrap();

    timesheet.clock_in(stamp_of(clock_in));

    let running_time = timesheet.running_time(&stamp_of(now)).unwrap();
    assert_eq!(running_time, 8 * 3600);
}

#[test]
fn total_time_excludes_open_session() {
    let mut timesheet = Timesheet::default();
    timesheet.clock_in(Stamp::new(32400, 1, 1, 1));

    let now = Stamp::new(61200, 1, 1, 1);
    assert_eq!(timesheet.total_time(&This::Day, &now), 0);
}

#[test]
fn unmatched_out_contributes_nothing() {
    let mut timesheet = Timesheet::default();
    timesheet.clock_out(Stamp::new(32400, 1, 1, 1));
    timesheet.clock_in(Stamp::new(40000, 1, 1, 1));
    timesheet.clock_out(Stamp::new(41000, 1, 1, 1));

    let now = Stamp::new(61200, 1, 1, 1);
    assert_eq!(timesheet.total_time(&This::Day, &now), 1000);
}

#[test]
fn running_time_empty_day_is_zero() {
    let mut timesheet = Timesheet::default();
    timesheet.clock_in(Stamp::new(100, 3, 3, 3));
    timesheet.clock_out(Stamp::new(200, 3, 3, 3));

    let now = Stamp::new(100_000, 4, 4, 4);
    assert_eq!(timesheet.running_time(&now).unwrap(), 0);
}

#[test]
fn window_filters_by_start() {
    // Day 15 is a Monday (day 1 of the calendar is one); day 14 the Sunday
    // before.  An eight-hour pair on Sunday counts for the month and year
    // windows but not for the week that starts on day 15.
    let sunday = Stamp::new(86400 * 14, 14, 14, 14);
    let sunday_out = Stamp::new(86400 * 14 + 28800, 14, 14, 14);
    let now = Stamp::new(86400 * 15 + 1000, 15, 15, 15);

    let mut timesheet = Timesheet::default();
    timesheet.clock_in(sunday);
    timesheet.clock_out(sunday_out);

    assert_eq!(timesheet.total_time(&This::Week, &now), 0);
    assert_eq!(timesheet.total_time(&This::Month, &now), 28800);
    assert_eq!(timesheet.total_time(&This::Year, &now), 28800);
    assert_eq!(timesheet.total_time(&This::Day, &now), 0);
}
