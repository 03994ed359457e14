use timeclock::clock::{Timeclock, TimeclockError};
use timeclock::codec::{decode_timesheet, encode_timesheet, load_timesheet};
use timeclock::stamp::Stamp;
use timeclock::timesheet::Timesheet;

#[test]
fn round_trip_preserves_actions() {
    let mut timesheet = Timesheet::default();
    timesheet.clock_in(Stamp::new(-5, 700_000, 12, 300));
    timesheet.clock_out(Stamp::new(123_456_789, 700_001, 13, 301));
    timesheet.clock_in(Stamp::new(0, 1, 1, 1));

    let bytes = encode_timesheet(&timesheet);
    let decoded = decode_timesheet(&bytes).unwrap();

    assert_eq!(
        Vec::from(decoded.clocks.clone()),
        Vec::from(timesheet.clocks.clone())
    );
}

#[test]
fn round_trip_of_empty_timesheet() {
    let timesheet = Timesheet::default();
    let bytes = encode_timesheet(&timesheet);
    assert!(bytes.is_empty());
    let decoded = decode_timesheet(&bytes).unwrap();
    assert!(decoded.clocks.is_empty());
}

#[test]
fn encoding_is_readable_text() {
    let timeclock = Timeclock::new(String::from("timesheet.log"), timeclock::clock::Debug::Off);
    let mut timesheet = Timesheet::default();
    timesheet.clock_in(Stamp::new(32400, 1, 1, 1));

    let raw = timeclock.raw_timesheet(&timesheet);
    assert_eq!(raw, "in  +0000000032400 +000000001 01 001\n");
}

#[test]
fn malformed_input_is_a_parse_failure() {
    let garbage: Vec<u8> = b"not a timesheet".to_vec();
    assert_eq!(decode_timesheet(&garbage).unwrap_err(), TimeclockError::ParseFailure);

    let mut truncated = Vec::new();
    let mut timesheet = Timesheet::default();
    timesheet.clock_out(Stamp::new(7, 7, 7, 7));
    truncated.extend_from_slice(&encode_timesheet(&timesheet));
    truncated.pop();
    assert_eq!(decode_timesheet(&truncated).unwrap_err(), TimeclockError::ParseFailure);
}

#[test]
fn missing_storage_is_an_empty_timesheet() {
    let loaded = load_timesheet(None).unwrap();
    assert!(loaded.clocks.is_empty());
}

#[test]
fn stored_bytes_load_back() {
    let mut timesheet = Timesheet::default();
    timesheet.clock_in(Stamp::new(1_700_000_000, 738_000, 20, 325));

    let bytes = encode_timesheet(&timesheet);
    let loaded = load_timesheet(Some(bytes)).unwrap();

    assert_eq!(
        Vec::from(loaded.clocks.clone()),
        Vec::from(timesheet.clocks.clone())
    );
}

#[test]
fn out_of_bounds_values_are_rejected() {
    let mut timesheet = Timesheet::default();
    timesheet.clock_in(Stamp::new(0, 1, 1, 1));
    let mut bytes = encode_timesheet(&timesheet);

    // Overwrite the seconds field with a magnitude beyond the library's
    // bounds: the record stays well formed but the value is refused.
    for i in 5..18 {
        bytes[i] = b'9';
    }
    assert_eq!(decode_timesheet(&bytes).unwrap_err(), TimeclockError::ParseFailure);
}
