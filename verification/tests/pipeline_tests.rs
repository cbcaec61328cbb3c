use flightlog::bounds::bounds;
use flightlog::errors::FlightError;
use flightlog::pipeline::process;
use flightlog::record::parse;
use flightlog::series::build;
use flightlog::smooth::moving_average;

const UNIT: i64 = 1_000_000_000;

fn line(ts: &str, cur: &str, zero: &str, delta: &str, speed: &str, alarm: &str) -> String {
    format!(
        "{{\"timestamp\": \"{}\", \"message\": {{\"Altitude\": {{\"current\": \"{}\", \"zero\": \"{}\", \"delta\": \"{}\"}}, \"Flight\": {{\"speed\": \"{}\", \"speedAlarm\": \"{}\"}}}}}}",
        ts, cur, zero, delta, speed, alarm
    )
}

#[test]
fn moving_average_length_and_means() {
    let series: Vec<i64> = vec![1 * UNIT, 2 * UNIT, 3 * UNIT, 4 * UNIT];
    let out = moving_average(&series, 2).unwrap();
    assert_eq!(out.len(), 3);
    assert_eq!(out, vec![1_500_000_000, 2_500_000_000, 3_500_000_000]);
    let out3 = moving_average(&series, 3).unwrap();
    assert_eq!(out3, vec![2 * UNIT, 3 * UNIT]);
    let out4 = moving_average(&series, 4).unwrap();
    assert_eq!(out4, vec![2_500_000_000]);
}

#[test]
fn moving_average_window_one_is_identity() {
    let series: Vec<i64> = vec![7, -3, 0, 12 * UNIT, -5 * UNIT];
    let out = moving_average(&series, 1).unwrap();
    assert_eq!(out, series);
}

#[test]
fn moving_average_window_too_large() {
    let series: Vec<i64> = vec![1, 2, 3];
    assert_eq!(moving_average(&series, 4), Err(FlightError::WindowTooLarge));
    let empty: Vec<i64> = vec![];
    assert_eq!(moving_average(&empty, 1), Err(FlightError::WindowTooLarge));
}

#[test]
fn moving_average_negative_values() {
    let series: Vec<i64> = vec![-1 * UNIT, -2 * UNIT];
    let out = moving_average(&series, 2).unwrap();
    assert_eq!(out, vec![-1_500_000_000]);
}

#[test]
fn bounds_empty_singleton_and_mixed() {
    let empty: Vec<i64> = vec![];
    assert_eq!(bounds(&empty), None);
    let one: Vec<i64> = vec![5 * UNIT];
    assert_eq!(bounds(&one), Some((5 * UNIT, 5 * UNIT)));
    let mixed: Vec<i64> = vec![3 * UNIT, -1 * UNIT, 2 * UNIT];
    assert_eq!(bounds(&mixed), Some((-1 * UNIT, 3 * UNIT)));
}

#[test]
fn builder_rejects_empty_input() {
    let samples = vec![];
    assert!(matches!(build(&samples), Err(FlightError::EmptyInput)));
}

#[test]
fn builder_keeps_input_order() {
    let l1 = line("2024-03-01 12:00:02.000000", "2", "0", "2", "1", "0");
    let l2 = line("2024-03-01 12:00:01.000000", "1", "0", "1", "2", "1");
    let samples = vec![parse(&l1).unwrap(), parse(&l2).unwrap()];
    let ss = build(&samples).unwrap();
    // non-monotonic timestamps are preserved as-is
    assert_eq!(ss.timestamps[0].second, 2);
    assert_eq!(ss.timestamps[1].second, 1);
    assert_eq!(ss.current_altitudes, vec![2 * UNIT, 1 * UNIT]);
    assert_eq!(ss.speeds, vec![1 * UNIT, 2 * UNIT]);
    assert_eq!(ss.speed_alarms, vec![0, 1 * UNIT]);
}

fn six_line_log() -> Vec<String> {
    let alts = ["10", "11", "12", "13", "14", "15"];
    let speeds = ["1", "2", "3", "4", "5", "6"];
    let mut lines = Vec::new();
    for i in 0..6 {
        let ts = format!("2024-03-01 12:00:0{}.000000", i);
        lines.push(line(&ts, alts[i], "0", alts[i], speeds[i], "0"));
    }
    lines
}

#[test]
fn end_to_end_six_lines_window_five() {
    let lines = six_line_log();
    let cd = process(&lines, 5).unwrap();
    assert_eq!(cd.smoothed_current, vec![12 * UNIT, 13 * UNIT]);
    assert_eq!(cd.smoothed_zero, vec![0, 0]);
    assert_eq!(cd.smoothed_speed, vec![3 * UNIT, 4 * UNIT]);
    // right alignment: the two points sit on the 5th and 6th timestamps
    assert_eq!(cd.aligned_times.len(), 2);
    assert_eq!(cd.aligned_times[0].second, 4);
    assert_eq!(cd.aligned_times[1].second, 5);
    assert_eq!(cd.axis_start.second, 0);
    assert_eq!(cd.axis_end.second, 5);
    assert_eq!(cd.current_min, 10 * UNIT);
    assert_eq!(cd.current_max, 15 * UNIT);
    assert_eq!(cd.speed_min, 1 * UNIT);
    assert_eq!(cd.speed_max, 6 * UNIT);
    assert!(cd.alarm_times.is_empty());
}

#[test]
fn end_to_end_first_bad_line_fails_run() {
    let mut lines = six_line_log();
    lines[3] = line("2024-03-01 12:00:03.000000", "13", "0", "13", "oops", "0");
    assert!(matches!(
        process(&lines, 5),
        Err(FlightError::InvalidNumber(flightlog::errors::Field::Speed))
    ));
}

#[test]
fn end_to_end_missing_speed_alarm_fails_run() {
    let mut lines = six_line_log();
    lines[2] = format!(
        "{{\"timestamp\": \"2024-03-01 12:00:02.000000\", \"message\": {{\"Altitude\": {{\"current\": \"12\", \"zero\": \"0\", \"delta\": \"12\"}}, \"Flight\": {{\"speed\": \"3\"}}}}}}"
    );
    assert_eq!(
        process(&lines, 5),
        Err(FlightError::MissingField(flightlog::errors::Field::SpeedAlarm))
    );
}

#[test]
fn single_line_default_window_fails() {
    let lines = vec![line("2024-03-01 12:00:00.000000", "10", "0", "10", "1", "0")];
    assert_eq!(process(&lines, 5), Err(FlightError::WindowTooLarge));
}

#[test]
fn empty_log_fails_with_empty_input() {
    let lines: Vec<String> = vec![];
    assert_eq!(process(&lines, 5), Err(FlightError::EmptyInput));
}

#[test]
fn alarm_markers_filter_inactive_samples() {
    let lines = vec![
        line("2024-03-01 12:00:01.000000", "1", "0", "1", "1", "0"),
        line("2024-03-01 12:00:02.000000", "2", "0", "2", "2", "1"),
        line("2024-03-01 12:00:03.000000", "3", "0", "3", "3", "1"),
    ];
    let cd = process(&lines, 1).unwrap();
    assert_eq!(cd.alarm_times.len(), 2);
    assert_eq!(cd.alarm_times[0].second, 2);
    assert_eq!(cd.alarm_times[1].second, 3);
}

#[test]
fn alarm_markers_use_whole_unit_one() {
    // the device flag is numeric: only values that truncate to 1 count
    let lines = vec![
        line("2024-03-01 12:00:01.000000", "1", "0", "1", "1", "1.5"),
        line("2024-03-01 12:00:02.000000", "2", "0", "2", "2", "2"),
        line("2024-03-01 12:00:03.000000", "3", "0", "3", "3", "0.5"),
    ];
    let cd = process(&lines, 1).unwrap();
    assert_eq!(cd.alarm_times.len(), 1);
    assert_eq!(cd.alarm_times[0].second, 1);
}
