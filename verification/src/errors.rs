use vstd::prelude::*;

verus! {

/// Identifies a record field in a parse failure.
#[derive(Clone, Copy, Debug, PartialEq, Eq, Structural)]
pub enum Field {
    Timestamp,
    Current,
    Zero,
    Delta,
    Speed,
    SpeedAlarm,
}

impl Field {
    /// The field's name as it appears in the log schema.
    pub open spec fn name_spec(self) -> Seq<char> {
        match self {
            Field::Timestamp => "timestamp"@,
            Field::Current => "current"@,
            Field::Zero => "zero"@,
            Field::Delta => "delta"@,
            Field::Speed => "speed"@,
            Field::SpeedAlarm => "speedAlarm"@,
        }
    }

    /// The field's schema name, for error reports.
    pub fn name(&self) -> (r: String)
        ensures
            r@ == self.name_spec(),
    {
        match self {
            Field::Timestamp => "timestamp".to_owned(),
            Field::Current => "current".to_owned(),
            Field::Zero => "zero".to_owned(),
            Field::Delta => "delta".to_owned(),
            Field::Speed => "speed".to_owned(),
            Field::SpeedAlarm => "speedAlarm".to_owned(),
        }
    }
}

/// Every failure the core pipeline can report.
#[derive(Clone, Copy, Debug, PartialEq, Eq, Structural)]
pub enum FlightError {
    /// The log line is not a well-formed structured document.
    MalformedDocument,
    /// A required record field is absent (or not a string field).
    MissingField(Field),
    /// The timestamp field does not follow the fixed UTC format.
    InvalidTimestamp,
    /// A numeric field's text is not a decimal the core accepts.
    InvalidNumber(Field),
    /// The series builder was given no samples.
    EmptyInput,
    /// The smoothing window exceeds the series length.
    WindowTooLarge,
}

} // verus!
