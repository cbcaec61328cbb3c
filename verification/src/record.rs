use vstd::prelude::*;
use crate::errors::{Field, FlightError};
use crate::json::{json_ok, root_str_field, nested_str_field, doc_is_json, doc_root_str,
    doc_nested_str};
use crate::numeric::{valid_decimal, decimal_nanos, parse_scaled};
use crate::timestamp::{Timestamp, valid_timestamp, timestamp_of, parse_timestamp};

verus! {

/// One fully validated telemetry record. Numeric fields hold exact
/// counts of nanounits; `speed_alarm` keeps the value the device
/// reported.
#[derive(Clone, Copy, Debug, PartialEq, Eq, Structural)]
pub struct FlightSample {
    pub timestamp: Timestamp,
    pub current_altitude: i64,
    pub zero_altitude: i64,
    pub relative_altitude: i64,
    pub speed: i64,
    pub speed_alarm: i64,
}

/// What parsing one numeric field of a record yields.
pub open spec fn field_spec(o: Option<Seq<char>>, field: Field) -> Result<i64, FlightError> {
    match o {
        None => Err(FlightError::MissingField(field)),
        Some(txt) => if valid_decimal(txt) {
            Ok(decimal_nanos(txt) as i64)
        } else {
            Err(FlightError::InvalidNumber(field))
        },
    }
}

/// What parsing one whole log line yields: the unique sample the line
/// denotes, or the failure of the first check that rejects it. The
/// checks run in a fixed order: document shape, timestamp presence and
/// format, then the numeric fields current, zero, delta, speed and
/// speedAlarm.
pub open spec fn parse_spec(line: Seq<char>) -> Result<FlightSample, FlightError> {
    if !json_ok(line) {
        Err(FlightError::MalformedDocument)
    } else {
        match root_str_field(line, "timestamp"@) {
            None => Err(FlightError::MissingField(Field::Timestamp)),
            Some(ts) => if !valid_timestamp(ts) {
                Err(FlightError::InvalidTimestamp)
            } else {
                let cur = field_spec(
                    nested_str_field(line, "message"@, "Altitude"@, "current"@),
                    Field::Current,
                );
                let zero = field_spec(
                    nested_str_field(line, "message"@, "Altitude"@, "zero"@),
                    Field::Zero,
                );
                let delta = field_spec(
                    nested_str_field(line, "message"@, "Altitude"@, "delta"@),
                    Field::Delta,
                );
                let speed = field_spec(
                    nested_str_field(line, "message"@, "Flight"@, "speed"@),
                    Field::Speed,
                );
                let alarm = field_spec(
                    nested_str_field(line, "message"@, "Flight"@, "speedAlarm"@),
                    Field::SpeedAlarm,
                );
                match (cur, zero, delta, speed, alarm) {
                    (Ok(c), Ok(z), Ok(d), Ok(sp), Ok(al)) => Ok(
                        FlightSample {
                            timestamp: timestamp_of(ts),
                            current_altitude: c,
                            zero_altitude: z,
                            relative_altitude: d,
                            speed: sp,
                            speed_alarm: al,
                        },
                    ),
                    (Err(e), _, _, _, _) => Err(e),
                    (_, Err(e), _, _, _) => Err(e),
                    (_, _, Err(e), _, _) => Err(e),
                    (_, _, _, Err(e), _) => Err(e),
                    (_, _, _, _, Err(e)) => Err(e),
                }
            },
        }
    }
}

/// Reads and converts one numeric field of the record.
fn numeric_field(line: &str, section: &str, key: &str, field: Field) -> (r: Result<
    i64,
    FlightError,
>)
    ensures
        r == field_spec(nested_str_field(line@, "message"@, section@, key@), field),
{
    let txt = match doc_nested_str(line, "message", section, key) {
        Some(t) => t,
        None => {
            return Err(FlightError::MissingField(field));
        },
    };
    match parse_scaled(txt.as_str()) {
        Some(v) => Ok(v),
        None => Err(FlightError::InvalidNumber(field)),
    }
}

/// Decodes one raw log line into a validated sample or a typed
/// failure. The result equals `parse_spec` of the line text, so
/// identical lines always yield identical samples.
pub fn parse(line: &str) -> (r: Result<FlightSample, FlightError>)
    ensures
        r == parse_spec(line@),
{
    if !doc_is_json(line) {
        return Err(FlightError::MalformedDocument);
    }
    let ts_text = match doc_root_str(line, "timestamp") {
        Some(t) => t,
        None => {
            return Err(FlightError::MissingField(Field::Timestamp));
        },
    };
    let ts = match parse_timestamp(ts_text.as_str()) {
        Some(t) => t,
        None => {
            return Err(FlightError::InvalidTimestamp);
        },
    };
    let current_altitude = match numeric_field(line, "Altitude", "current", Field::Current) {
        Ok(v) => v,
        Err(e) => {
            return Err(e);
        },
    };
    let zero_altitude = match numeric_field(line, "Altitude", "zero", Field::Zero) {
        Ok(v) => v,
        Err(e) => {
            return Err(e);
        },
    };
    let relative_altitude = match numeric_field(line, "Altitude", "delta", Field::Delta) {
        Ok(v) => v,
        Err(e) => {
            return Err(e);
        },
    };
    let speed = match numeric_field(line, "Flight", "speed", Field::Speed) {
        Ok(v) => v,
        Err(e) => {
            return Err(e);
        },
    };
    let speed_alarm = match numeric_field(line, "Flight", "speedAlarm", Field::SpeedAlarm) {
        Ok(v) => v,
        Err(e) => {
            return Err(e);
        },
    };
    Ok(
        FlightSample {
            timestamp: ts,
            current_altitude,
            zero_altitude,
            relative_altitude,
            speed,
            speed_alarm,
        },
    )
}

} // verus!
