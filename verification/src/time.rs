use crate::state::EngineError;
use vstd::prelude::*;

verus! {

/// The instant named by an RFC 3339 timestamp, in milliseconds since the
/// Unix epoch, when the text is one; a function of the text alone.
pub uninterp spec fn rfc3339_ms(s: Seq<char>) -> Option<i64>;

/// Relies on `chrono::DateTime::parse_from_rfc3339` and
/// `chrono::DateTime::timestamp_millis`: the instant an RFC 3339
/// timestamp names, in milliseconds since the Unix epoch.
#[verifier::external_body]
fn parse_rfc3339_ms(s: &String) -> (r: Option<i64>)
    ensures
        r == rfc3339_ms(s@),
{
    match chrono::DateTime::parse_from_rfc3339(s.as_str()) {
        Ok(dt) => Some(dt.timestamp_millis()),
        Err(_) => None,
    }
}

/// A time argument: already in milliseconds, or an RFC 3339 text.
pub enum TimeInput {
    Millis(i64),
    Rfc3339(String),
}

pub enum TimeInputV {
    Millis(i64),
    Rfc3339(Seq<char>),
}

impl View for TimeInput {
    type V = TimeInputV;

    open spec fn view(&self) -> TimeInputV {
        match self {
            TimeInput::Millis(v) => TimeInputV::Millis(*v),
            TimeInput::Rfc3339(s) => TimeInputV::Rfc3339(s@),
        }
    }
}

/// Read a time argument as milliseconds since the epoch: an integer
/// passes through, a text must be a well-formed RFC 3339 timestamp.
pub fn time_input_ms(t: &TimeInput) -> (r: Result<i64, EngineError>)
    ensures
        (match t@ {
            TimeInputV::Millis(v) => r == Ok::<i64, EngineError>(v),
            TimeInputV::Rfc3339(s) => match rfc3339_ms(s) {
                Some(v) => r == Ok::<i64, EngineError>(v),
                None => r == Err::<i64, EngineError>(EngineError::Validation),
            },
        }),
{
    match t {
        TimeInput::Millis(v) => Ok(*v),
        TimeInput::Rfc3339(s) => {
            match parse_rfc3339_ms(s) {
                Some(v) => Ok(v),
                None => Err(EngineError::Validation),
            }
        },
    }
}

} // verus!
