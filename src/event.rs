//! Log lines shown in the events pane.

use vstd::prelude::*;
use crate::text::string_lit;

verus! {

/// Severity of a log line.
#[allow(non_camel_case_types)]
#[derive(Debug, Clone, Copy, PartialEq, Eq, Structural)]
pub enum LevelCode {
    INFO,
    DEBUG,
    TRACE,
    WARNING,
    ERROR,
    CRITICAL,
}

/// The label of a level; trace lines are labelled as debug lines.
pub open spec fn level_label(l: LevelCode) -> Seq<char> {
    match l {
        LevelCode::INFO => "INFO"@,
        LevelCode::DEBUG => "DEBUG"@,
        LevelCode::TRACE => "DEBUG"@,
        LevelCode::WARNING => "WARNING"@,
        LevelCode::ERROR => "ERROR"@,
        LevelCode::CRITICAL => "CRITICAL"@,
    }
}

impl LevelCode {
    /// The label shown for this level.
    pub fn label(&self) -> (r: String)
        ensures
            r@ == level_label(*self),
    {
        match self {
            LevelCode::INFO => string_lit("INFO"),
            LevelCode::DEBUG => string_lit("DEBUG"),
            LevelCode::TRACE => string_lit("DEBUG"),
            LevelCode::WARNING => string_lit("WARNING"),
            LevelCode::ERROR => string_lit("ERROR"),
            LevelCode::CRITICAL => string_lit("CRITICAL"),
        }
    }
}

/// Relies on `std::time::SystemTime::now`, chrono's `From<SystemTime>` for
/// `DateTime<Utc>` and `DateTime::timestamp_millis`: the current time, in
/// milliseconds since the Unix epoch, negative for a clock set before 1970.
/// Nothing is known of its value.
#[verifier::external_body]
fn now_millis() -> (r: i64) {
    chrono::DateTime::<chrono::Utc>::from(std::time::SystemTime::now()).timestamp_millis()
}

/// A log line with the time it was made.
pub struct AppEvent {
    /// Milliseconds since the Unix epoch, UTC.
    pub timestamp_millis: i64,
    pub level: LevelCode,
    pub text: String,
}

impl AppEvent {
    /// A log line stamped with the current time.
    pub fn new(text: &str, level: LevelCode) -> (r: AppEvent)
        ensures
            r.text@ == text@,
            r.level == level,
    {
        let timestamp_millis = now_millis();
        AppEvent { timestamp_millis, level, text: string_lit(text) }
    }
}

} // verus!
