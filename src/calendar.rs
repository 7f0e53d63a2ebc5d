//! Time and calendar facts supplied by `chrono` and `uuid`.

use vstd::prelude::*;
use chrono::Datelike;

verus! {

/// Earliest timestamp (seconds since the Unix epoch, UTC) that the library handles.
pub const MIN_TIMESTAMP: i64 = -8334601228800;

/// Latest timestamp (seconds since the Unix epoch, UTC) that the library handles.
pub const MAX_TIMESTAMP: i64 = 8210266876799;

/// A timestamp that `chrono::DateTime<Utc>` can represent.
pub open spec fn valid_timestamp(t: i64) -> bool {
    MIN_TIMESTAMP <= t <= MAX_TIMESTAMP
}

/// Whether `t` is in the representable range.
pub fn is_valid_timestamp(t: i64) -> (r: bool)
    ensures
        r == valid_timestamp(t),
{
    MIN_TIMESTAMP <= t && t <= MAX_TIMESTAMP
}

/// Whether every timestamp of `v` is in the representable range.
pub fn all_valid_timestamps(v: &Vec<i64>) -> (r: bool)
    ensures
        r == forall|i: int| 0 <= i < v@.len() ==> valid_timestamp(#[trigger] v@[i]),
{
    let mut i: usize = 0;
    while i < v.len()
        invariant
            0 <= i <= v@.len(),
            forall|j: int| 0 <= j < i ==> valid_timestamp(#[trigger] v@[j]),
        decreases v@.len() - i,
    {
        if !is_valid_timestamp(v[i]) {
            return false;
        }
        i = i + 1;
    }
    true
}

/// Relies on `chrono::Utc::now` and `DateTime::timestamp`: the current time in
/// whole seconds. `Utc::now` panics on a clock before 1970 and otherwise
/// yields a value within chrono's representable range.
#[verifier::external_body]
pub(crate) fn now_timestamp() -> (r: i64)
    ensures
        valid_timestamp(r),
        r >= 0,
{
    chrono::Utc::now().timestamp()
}

/// Relies on `uuid::Uuid::new_v4` and its `Display` impl, which writes the
/// hyphenated form of 36 characters.
#[verifier::external_body]
pub(crate) fn fresh_session_id() -> (r: String)
    ensures
        r@.len() == 36,
{
    uuid::Uuid::new_v4().to_string()
}

/// Calendar date (year, month, day) in UTC of a timestamp.
pub uninterp spec fn utc_date(t: i64) -> (i32, u32, u32);

/// ISO 8601 week (week-based year, week number) in UTC of a timestamp.
pub uninterp spec fn utc_iso_week(t: i64) -> (i32, u32);

/// The text `YYYY-MM-DD` of the UTC date of a timestamp.
pub uninterp spec fn utc_date_text(t: i64) -> Seq<char>;

/// The timestamp of the first instant (UTC) of a month, if that date exists.
pub uninterp spec fn utc_month_start(year: i32, month: u32) -> Option<i64>;

/// The label `"<year> Week <week>"` of an ISO week.
pub uninterp spec fn week_label_text(year: i32, week: u32) -> Seq<char>;

/// Relies on `chrono::DateTime::from_timestamp` (which accepts every timestamp in
/// range) and `Datelike::{year, month, day}` of its UTC date.
#[verifier::external_body]
pub(crate) fn date_of(t: i64) -> (r: (i32, u32, u32))
    requires
        valid_timestamp(t),
    ensures
        r == utc_date(t),
{
    let d = chrono::DateTime::from_timestamp(t, 0).unwrap().date_naive();
    (d.year(), d.month(), d.day())
}

/// Relies on `chrono::DateTime::from_timestamp` and `Datelike::iso_week`, with
/// `IsoWeek::{year, week}`.
#[verifier::external_body]
pub(crate) fn iso_week_of(t: i64) -> (r: (i32, u32))
    requires
        valid_timestamp(t),
    ensures
        r == utc_iso_week(t),
{
    let w = chrono::DateTime::from_timestamp(t, 0).unwrap().iso_week();
    (w.year(), w.week())
}

/// Relies on `chrono::DateTime::from_timestamp` and `format("%Y-%m-%d")`.
#[verifier::external_body]
pub(crate) fn date_text_of(t: i64) -> (r: String)
    requires
        valid_timestamp(t),
    ensures
        r@ == utc_date_text(t),
{
    chrono::DateTime::from_timestamp(t, 0).unwrap().format("%Y-%m-%d").to_string()
}

/// Relies on `chrono::NaiveDate::from_ymd_opt(year, month, 1)`, which is `None`
/// for a month outside 1..=12 or a year out of range, then on midnight of that
/// date as a UTC timestamp.
#[verifier::external_body]
pub(crate) fn month_start(year: i32, month: u32) -> (r: Option<i64>)
    ensures
        r == utc_month_start(year, month),
        month < 1 || month > 12 ==> r is None,
{
    match chrono::NaiveDate::from_ymd_opt(year, month, 1) {
        Some(d) => Some(d.and_hms_opt(0, 0, 0).unwrap().and_utc().timestamp()),
        None => None,
    }
}

/// The text `HH:MM:SS` (each part zero-padded to two digits) of a duration's
/// parts.
pub uninterp spec fn clock_text(hours: i64, minutes: i64, seconds: i64) -> Seq<char>;

/// Relies on `std::format!("{:02}:{:02}:{:02}", ..)`.
#[verifier::external_body]
pub(crate) fn clock_label(hours: i64, minutes: i64, seconds: i64) -> (r: String)
    ensures
        r@ == clock_text(hours, minutes, seconds),
{
    format!("{:02}:{:02}:{:02}", hours, minutes, seconds)
}

/// Relies on `std::format!` for the label of an ISO week.
#[verifier::external_body]
pub(crate) fn week_label(year: i32, week: u32) -> (r: String)
    ensures
        r@ == week_label_text(year, week),
{
    format!("{} Week {}", year, week)
}

} // verus!
