use rex::hms::hms_string;
use rex::time::{Duration, Instant};

#[test]
fn empty_span_is_zero() {
    assert_eq!(hms_string(Duration::from_secs(0)), "ZERO");
    assert_eq!(hms_string(Duration::new(0, 0)), "ZERO");
}

#[test]
fn short_spans_are_milliseconds() {
    assert_eq!(hms_string(Duration::from_millis(123)), "123ms");
    assert_eq!(hms_string(Duration::from_millis(7)), "7ms");
    assert_eq!(hms_string(Duration::from_millis(999)), "999ms");
    assert_eq!(hms_string(Duration::new(0, 999_999_999)), "999ms");
}

#[test]
fn less_than_a_millisecond_is_no_millisecond() {
    assert_eq!(hms_string(Duration::new(0, 1)), "0ms");
    assert_eq!(hms_string(Duration::new(0, 999_999)), "0ms");
    assert_eq!(hms_string(Duration::new(0, 1_000_000)), "1ms");
}

#[test]
fn seconds_minutes_and_hours() {
    assert_eq!(hms_string(Duration::from_secs(3)), "03s");
    assert_eq!(hms_string(Duration::from_secs(59)), "59s");
    assert_eq!(hms_string(Duration::from_secs(60)), "01m00s");
    assert_eq!(hms_string(Duration::from_secs(5 * 60 + 30)), "05m30s");
    assert_eq!(
        hms_string(Duration::from_secs(2 * 3600 + 15 * 60 + 30)),
        "2H15m30s"
    );
}

#[test]
fn zero_minutes_and_seconds_of_an_hour_are_written() {
    assert_eq!(hms_string(Duration::from_secs(3599)), "59m59s");
    assert_eq!(hms_string(Duration::from_secs(3600)), "1H00m00s");
    assert_eq!(hms_string(Duration::from_secs(3605)), "1H00m05s");
    assert_eq!(hms_string(Duration::from_secs(3660)), "1H01m00s");
    assert_eq!(hms_string(Duration::from_secs(12 * 3600 + 1)), "12H00m01s");
    assert_eq!(hms_string(Duration::from_secs(65)), "01m05s");
}

#[test]
fn hours_have_no_upper_bound() {
    assert_eq!(hms_string(Duration::from_secs(100 * 3600)), "100H00m00s");
    assert_eq!(
        hms_string(Duration::from_secs(u64::MAX)),
        "5124095576030431H00m15s"
    );
}

#[test]
fn fractions_of_seconds_are_dropped() {
    assert_eq!(hms_string(Duration::new(1, 999_999_999)), "01s");
    assert_eq!(hms_string(Duration::from_millis(61_500)), "01m01s");
}

#[test]
fn spans_are_counted_in_nanoseconds() {
    let span = Duration::from_millis(12_345);
    assert_eq!(span.as_secs(), 12);
    assert_eq!(span.subsec_millis(), 345);
    assert_eq!(span.as_nanos(), 12_345_000_000);
    assert!(!span.is_zero());
    assert!(Duration::from_millis(0).is_zero());
    assert_eq!(span, Duration::new(12, 345_000_000));
    assert_eq!(
        Duration::new(u64::MAX, 999_999_999).as_nanos(),
        u64::MAX as u128 * 1_000_000_000 + 999_999_999
    );
    assert_eq!(Duration::from_millis(u64::MAX).as_secs(), u64::MAX / 1000);
}

#[test]
fn instants_move_by_spans() {
    let start = Instant { nanos: 40 };
    assert_eq!(
        start.plus(Duration::from_millis(2)),
        Instant { nanos: 2_000_040 }
    );
    assert_eq!(start.plus(Duration::from_secs(0)), start);
}
