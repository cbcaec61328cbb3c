use flightlog::errors::{Field, FlightError};
use flightlog::numeric::parse_scaled;
use flightlog::record::parse;
use flightlog::timestamp::parse_timestamp;

fn line(ts: &str, cur: &str, zero: &str, delta: &str, speed: &str, alarm: &str) -> String {
    format!(
        "{{\"timestamp\": \"{}\", \"message\": {{\"Altitude\": {{\"current\": \"{}\", \"zero\": \"{}\", \"delta\": \"{}\"}}, \"Flight\": {{\"speed\": \"{}\", \"speedAlarm\": \"{}\"}}}}}}",
        ts, cur, zero, delta, speed, alarm
    )
}

#[test]
fn parse_scaled_whole_and_fraction() {
    assert_eq!(parse_scaled("5"), Some(5_000_000_000));
    assert_eq!(parse_scaled("0.5"), Some(500_000_000));
    assert_eq!(parse_scaled("-3.25"), Some(-3_250_000_000));
    assert_eq!(parse_scaled("10.123456789"), Some(10_123_456_789));
    assert_eq!(parse_scaled("0.000000001"), Some(1));
}

#[test]
fn parse_scaled_rejects_malformed() {
    assert_eq!(parse_scaled(""), None);
    assert_eq!(parse_scaled("-"), None);
    assert_eq!(parse_scaled("."), None);
    assert_eq!(parse_scaled("1."), None);
    assert_eq!(parse_scaled(".5"), None);
    assert_eq!(parse_scaled("1e3"), None);
    assert_eq!(parse_scaled("12a"), None);
    assert_eq!(parse_scaled("1.0000000001"), None);
    assert_eq!(parse_scaled("NaN"), None);
}

#[test]
fn parse_timestamp_reads_fields() {
    let t = parse_timestamp("2024-03-01 12:34:56.250000").unwrap();
    assert_eq!(t.year, 2024);
    assert_eq!(t.month, 3);
    assert_eq!(t.day, 1);
    assert_eq!(t.hour, 12);
    assert_eq!(t.minute, 34);
    assert_eq!(t.second, 56);
    assert_eq!(t.nanos, 250_000_000);
}

#[test]
fn parse_timestamp_handles_leap_years() {
    assert!(parse_timestamp("2024-02-29 00:00:00.1").is_some());
    assert!(parse_timestamp("2023-02-29 00:00:00.1").is_none());
    assert!(parse_timestamp("2000-02-29 00:00:00.1").is_some());
    assert!(parse_timestamp("1900-02-29 00:00:00.1").is_none());
}

#[test]
fn parse_timestamp_rejects_out_of_range() {
    assert!(parse_timestamp("2024-13-01 00:00:00.000001").is_none());
    assert!(parse_timestamp("2024-00-01 00:00:00.000001").is_none());
    assert!(parse_timestamp("2024-04-31 00:00:00.000001").is_none());
    assert!(parse_timestamp("2024-01-01 24:00:00.000001").is_none());
    assert!(parse_timestamp("2024-01-01 00:60:00.000001").is_none());
    assert!(parse_timestamp("2024-01-01 00:00:60.000001").is_none());
    assert!(parse_timestamp("2024-01-01T00:00:00.000001").is_none());
    assert!(parse_timestamp("2024-01-01 00:00:00").is_none());
}

#[test]
fn parse_valid_line_is_deterministic() {
    let l = line("2024-03-01 12:00:00.500000", "10.5", "0", "-1.25", "3.5", "0");
    let a = parse(&l).unwrap();
    let b = parse(&l).unwrap();
    assert_eq!(a, b);
    assert_eq!(a.current_altitude, 10_500_000_000);
    assert_eq!(a.zero_altitude, 0);
    assert_eq!(a.relative_altitude, -1_250_000_000);
    assert_eq!(a.speed, 3_500_000_000);
    assert_eq!(a.speed_alarm, 0);
    assert_eq!(a.timestamp.year, 2024);
    assert_eq!(a.timestamp.nanos, 500_000_000);
}

#[test]
fn parse_malformed_document() {
    assert_eq!(parse("not json"), Err(FlightError::MalformedDocument));
    assert_eq!(parse(""), Err(FlightError::MalformedDocument));
}

#[test]
fn parse_missing_timestamp() {
    let l = "{\"message\": {\"Altitude\": {\"current\": \"1\", \"zero\": \"0\", \"delta\": \"1\"}, \"Flight\": {\"speed\": \"1\", \"speedAlarm\": \"0\"}}}";
    assert_eq!(parse(l), Err(FlightError::MissingField(Field::Timestamp)));
}

#[test]
fn parse_invalid_timestamp() {
    let l = line("yesterday", "1", "0", "1", "1", "0");
    assert_eq!(parse(&l), Err(FlightError::InvalidTimestamp));
}

#[test]
fn parse_missing_speed_alarm() {
    let l = format!(
        "{{\"timestamp\": \"{}\", \"message\": {{\"Altitude\": {{\"current\": \"1\", \"zero\": \"0\", \"delta\": \"1\"}}, \"Flight\": {{\"speed\": \"1\"}}}}}}",
        "2024-03-01 12:00:00.500000"
    );
    assert_eq!(parse(&l), Err(FlightError::MissingField(Field::SpeedAlarm)));
    assert_eq!(Field::SpeedAlarm.name(), "speedAlarm");
}

#[test]
fn parse_invalid_number() {
    let l = line("2024-03-01 12:00:00.500000", "fast", "0", "1", "1", "0");
    assert_eq!(parse(&l), Err(FlightError::InvalidNumber(Field::Current)));
    let l = line("2024-03-01 12:00:00.500000", "1", "0", "1", "1", "maybe");
    assert_eq!(parse(&l), Err(FlightError::InvalidNumber(Field::SpeedAlarm)));
}

#[test]
fn parse_numeric_json_literal_is_missing_field() {
    // the wire format stores numbers as strings; a bare JSON number is
    // not a string field
    let l = "{\"timestamp\": \"2024-03-01 12:00:00.500000\", \"message\": {\"Altitude\": {\"current\": 1.5, \"zero\": \"0\", \"delta\": \"1\"}, \"Flight\": {\"speed\": \"1\", \"speedAlarm\": \"0\"}}}";
    assert_eq!(parse(l), Err(FlightError::MissingField(Field::Current)));
}
