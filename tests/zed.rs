use chrono::{Datelike, NaiveDateTime, Timelike};
use vscode_workspaces_editor::zed::parse_zed_timestamp;

#[test]
fn test_parse_zed_timestamp() {
    let timestamp_str = "2025-06-27 16:20:06";

    let result = NaiveDateTime::parse_from_str(timestamp_str, "%Y-%m-%d %H:%M:%S");

    assert!(result.is_ok(), "Failed to parse timestamp: {:?}", result);

    let dt = result.unwrap();
    assert_eq!(dt.year(), 2025);
    assert_eq!(dt.month(), 6);
    assert_eq!(dt.day(), 27);
    assert_eq!(dt.hour(), 16);
    assert_eq!(dt.minute(), 20);
    assert_eq!(dt.second(), 6);

    let timestamp_millis = dt.and_utc().timestamp_millis();
    assert!(timestamp_millis > 0, "Timestamp should be positive");
    assert_eq!(parse_zed_timestamp(timestamp_str), Some(timestamp_millis));
}

#[test]
fn test_parse_various_timestamps() {
    let test_cases = vec![
        ("2025-01-01 00:00:00", 2025, 1, 1, 0, 0, 0),
        ("2025-12-31 23:59:59", 2025, 12, 31, 23, 59, 59),
        ("2024-02-29 12:30:45", 2024, 2, 29, 12, 30, 45),
        ("2023-06-15 08:30:00", 2023, 6, 15, 8, 30, 0),
    ];

    for (timestamp_str, year, month, day, hour, minute, second) in test_cases {
        let result = NaiveDateTime::parse_from_str(timestamp_str, "%Y-%m-%d %H:%M:%S");
        assert!(result.is_ok(), "Failed to parse timestamp '{}': {:?}", timestamp_str, result);

        let dt = result.unwrap();
        assert_eq!(dt.year(), year, "Year mismatch for '{}'", timestamp_str);
        assert_eq!(dt.month(), month, "Month mismatch for '{}'", timestamp_str);
        assert_eq!(dt.day(), day, "Day mismatch for '{}'", timestamp_str);
        assert_eq!(dt.hour(), hour, "Hour mismatch for '{}'", timestamp_str);
        assert_eq!(dt.minute(), minute, "Minute mismatch for '{}'", timestamp_str);
        assert_eq!(dt.second(), second, "Second mismatch for '{}'", timestamp_str);
        assert_eq!(parse_zed_timestamp(timestamp_str), Some(dt.and_utc().timestamp_millis()));
    }
}

#[test]
fn test_parse_invalid_timestamps() {
    let invalid_cases = vec![
        "",
        "2025-06-27",
        "16:20:06",
        "2025/06/27 16:20:06",
        "2025-06-27T16:20:06",
        "not-a-timestamp",
        "2025-13-01 00:00:00",
        "2025-02-30 00:00:00",
        "2025-06-27 25:00:00",
        "2025-06-27 16:60:00",
        "2025-06-27 16:20:61",
    ];

    for timestamp_str in invalid_cases {
        let result = NaiveDateTime::parse_from_str(timestamp_str, "%Y-%m-%d %H:%M:%S");
        assert!(
            result.is_err(),
            "Expected failure for invalid timestamp '{}', but got: {:?}",
            timestamp_str,
            result
        );
        assert_eq!(parse_zed_timestamp(timestamp_str), None);
    }
}

#[test]
fn test_timestamp_to_milliseconds() {
    let timestamp_str = "2025-06-27 16:20:06";
    let dt = NaiveDateTime::parse_from_str(timestamp_str, "%Y-%m-%d %H:%M:%S").unwrap();
    let millis = dt.and_utc().timestamp_millis();

    assert!(millis > 1_750_000_000_000, "Timestamp too small: {}", millis);
    assert!(millis < 2_000_000_000_000, "Timestamp too large: {}", millis);
}

#[test]
fn test_edge_cases() {
    let epoch = "1970-01-01 00:00:00";
    let result = NaiveDateTime::parse_from_str(epoch, "%Y-%m-%d %H:%M:%S");
    assert!(result.is_ok());
    let millis = result.unwrap().and_utc().timestamp_millis();
    assert_eq!(millis, 0);
    assert_eq!(parse_zed_timestamp(epoch), Some(0));

    let future = "2099-12-31 23:59:59";
    let result = NaiveDateTime::parse_from_str(future, "%Y-%m-%d %H:%M:%S");
    assert!(result.is_ok());
    let millis = result.unwrap().and_utc().timestamp_millis();
    assert!(millis > 4_000_000_000_000);
}
