//! The stored form of a session: timestamps as RFC 3339 text and the pause
//! and resume lists as JSON arrays of such text.

use vstd::prelude::*;
use chrono::{DateTime, Utc};
use crate::calendar::{valid_timestamp, is_valid_timestamp, all_valid_timestamps};
use crate::models::Session;
use crate::timer_manager::TimerError;

verus! {

/// RFC 3339 text of a timestamp (UTC).
pub uninterp spec fn rfc3339_text(t: i64) -> Seq<char>;

/// The timestamp that RFC 3339 text denotes, if it parses.
pub uninterp spec fn rfc3339_value(text: Seq<char>) -> Option<i64>;

/// JSON array text of a list of timestamps, if serialisation succeeds.
pub uninterp spec fn times_json_text(ts: Seq<i64>) -> Option<Seq<char>>;

/// The timestamps of a JSON array of RFC 3339 text, if it parses.
pub uninterp spec fn times_json_value(text: Seq<char>) -> Option<Seq<i64>>;

/// Relies on `chrono::DateTime::from_timestamp` (total on the valid range) and
/// `DateTime::to_rfc3339`.
#[verifier::external_body]
fn format_rfc3339(t: i64) -> (r: String)
    requires
        valid_timestamp(t),
    ensures
        r@ == rfc3339_text(t),
{
    DateTime::from_timestamp(t, 0).unwrap().to_rfc3339()
}

/// Relies on `chrono::DateTime::parse_from_rfc3339` and `DateTime::timestamp`.
#[verifier::external_body]
fn parse_rfc3339(text: &str) -> (r: Option<i64>)
    ensures
        r == rfc3339_value(text@),
{
    match DateTime::parse_from_rfc3339(text) {
        Ok(d) => Some(d.timestamp()),
        Err(_) => None,
    }
}

/// Relies on `serde_json::to_string` of a `Vec<DateTime<Utc>>`.
#[verifier::external_body]
fn times_to_json(ts: &Vec<i64>) -> (r: Option<String>)
    requires
        forall|i: int| 0 <= i < ts@.len() ==> valid_timestamp(#[trigger] ts@[i]),
    ensures
        match r {
            Some(s) => times_json_text(ts@) == Some(s@),
            None => times_json_text(ts@) is None,
        },
{
    let v: Vec<DateTime<Utc>> = ts.iter().map(|t| DateTime::from_timestamp(*t, 0).unwrap()).collect();
    serde_json::to_string(&v).ok()
}

/// Relies on `serde_json::from_str` into a `Vec<DateTime<Utc>>`, then
/// `DateTime::timestamp` of each.
#[verifier::external_body]
fn times_from_json(text: &str) -> (r: Option<Vec<i64>>)
    ensures
        match r {
            Some(v) => times_json_value(text@) == Some(v@),
            None => times_json_value(text@) is None,
        },
{
    match serde_json::from_str::<Vec<DateTime<Utc>>>(text) {
        Ok(v) => Some(v.iter().map(|d| d.timestamp()).collect()),
        Err(_) => None,
    }
}

/// A session as one row of the sessions table.
#[derive(Debug, Clone, PartialEq, Eq)]
pub struct SessionRow {
    pub id: String,
    pub start: String,
    pub pauses: String,
    pub resumes: String,
    pub end: Option<String>,
    pub total_seconds: i64,
}

/// The stored list of pauses or resumes: unreadable text, or text holding a
/// timestamp out of range, reads as an empty list.
pub open spec fn stored_times(text: Seq<char>) -> Seq<i64> {
    match times_json_value(text) {
        Some(v) => if forall|i: int| 0 <= i < v.len() ==> valid_timestamp(#[trigger] v[i]) {
            v
        } else {
            Seq::empty()
        },
        None => Seq::empty(),
    }
}

/// A stored timestamp that parses and is in range.
pub open spec fn stored_time_ok(text: Seq<char>) -> bool {
    rfc3339_value(text) matches Some(t) && valid_timestamp(t)
}

fn read_times(text: &String) -> (r: Vec<i64>)
    ensures
        r@ == stored_times(text@),
{
    match times_from_json(text.as_str()) {
        Some(v) => if all_valid_timestamps(&v) {
            v
        } else {
            Vec::new()
        },
        None => Vec::new(),
    }
}

fn read_time(text: &String) -> (r: Option<i64>)
    ensures
        stored_time_ok(text@) <==> r is Some,
        r matches Some(t) ==> rfc3339_value(text@) == Some(t),
{
    match parse_rfc3339(text.as_str()) {
        Some(t) => if is_valid_timestamp(t) {
            Some(t)
        } else {
            None
        },
        None => None,
    }
}

/// The row that stores `s`; `StorageFailure` when a list cannot be serialised.
pub fn encode_row(s: &Session) -> (r: Result<SessionRow, TimerError>)
    requires
        s@.timestamps_valid(),
    ensures
        match (times_json_text(s.pauses@), times_json_text(s.resumes@)) {
            (Some(p), Some(q)) => r matches Ok(row) && row.id@ == s.id@ && row.start@
                == rfc3339_text(s.start) && row.pauses@ == p && row.resumes@ == q
                && row.total_seconds == s.total_seconds && match s.end {
                Some(e) => row.end matches Some(t) && t@ == rfc3339_text(e),
                None => row.end is None,
            },
            _ => r == Err::<SessionRow, TimerError>(TimerError::StorageFailure),
        },
{
    assert(s.pauses@ == s@.pauses && s.resumes@ == s@.resumes);
    let pauses = match times_to_json(&s.pauses) {
        Some(text) => text,
        None => {
            return Err(TimerError::StorageFailure);
        },
    };
    let resumes = match times_to_json(&s.resumes) {
        Some(text) => text,
        None => {
            return Err(TimerError::StorageFailure);
        },
    };
    let end = match s.end {
        Some(e) => Some(format_rfc3339(e)),
        None => None,
    };
    Ok(
        SessionRow {
            id: s.id.clone(),
            start: format_rfc3339(s.start),
            pauses,
            resumes,
            end,
            total_seconds: s.total_seconds,
        },
    )
}

/// The session that a row stores. A start or end that does not parse, or lies
/// out of range, is a `DataIntegrityViolation`; an unreadable pause or resume
/// list reads as empty.
pub fn decode_row(row: SessionRow) -> (r: Result<Session, TimerError>)
    ensures
        (stored_time_ok(row.start@) && (row.end matches Some(e) ==> stored_time_ok(e@))) <==> r is Ok,
        r is Err ==> r == Err::<Session, TimerError>(TimerError::DataIntegrityViolation),
        r matches Ok(s) ==> {
            &&& s.id@ == row.id@
            &&& rfc3339_value(row.start@) == Some(s.start)
            &&& s.pauses@ == stored_times(row.pauses@)
            &&& s.resumes@ == stored_times(row.resumes@)
            &&& s.total_seconds == row.total_seconds
            &&& match row.end {
                Some(e) => s.end matches Some(t) && rfc3339_value(e@) == Some(t),
                None => s.end is None,
            }
            &&& s@.timestamps_valid()
        },
{
    let start = match read_time(&row.start) {
        Some(t) => t,
        None => {
            return Err(TimerError::DataIntegrityViolation);
        },
    };
    let end = match &row.end {
        Some(text) => match read_time(text) {
            Some(t) => Some(t),
            None => {
                return Err(TimerError::DataIntegrityViolation);
            },
        },
        None => None,
    };
    let pauses = read_times(&row.pauses);
    let resumes = read_times(&row.resumes);
    Ok(Session { id: row.id, start, pauses, resumes, end, total_seconds: row.total_seconds })
}

} // verus!
