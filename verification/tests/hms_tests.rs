use timeclock::hms::format_hms;

#[test]
fn formats_zero() {
    assert_eq!(format_hms(0), "00:00:00");
}

#[test]
fn formats_components_with_padding() {
    assert_eq!(format_hms(3661), "01:01:01");
    assert_eq!(format_hms(8 * 3600), "08:00:00");
    assert_eq!(format_hms(59), "00:00:59");
}

#[test]
fn hours_may_exceed_a_day() {
    assert_eq!(format_hms(25 * 3600 + 90), "25:01:30");
    assert_eq!(format_hms(1000 * 3600), "1000:00:00");
}

#[test]
fn negative_durations_carry_component_signs() {
    assert_eq!(format_hms(-3661), "-1:-1:-1");
    assert_eq!(format_hms(-30), "00:00:-30");
}
