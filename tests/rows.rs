use time_tracker::calendar::{all_valid_timestamps, is_valid_timestamp, MAX_TIMESTAMP, MIN_TIMESTAMP};
use time_tracker::models::Session;
use time_tracker::rows::{decode_row, encode_row, SessionRow};
use time_tracker::timer_manager::TimerError;

const T0: i64 = 1704067200; // 2024-01-01T00:00:00Z

fn sample() -> Session {
    Session {
        id: "id-1".to_string(),
        start: T0,
        pauses: vec![T0 + 600],
        resumes: vec![T0 + 900],
        end: Some(T0 + 1800),
        total_seconds: 1500,
    }
}

#[test]
fn encode_writes_rfc3339_and_json() {
    let row = encode_row(&sample()).unwrap();
    assert_eq!(row.id, "id-1");
    assert_eq!(row.start, "2024-01-01T00:00:00+00:00");
    assert_eq!(row.pauses, "[\"2024-01-01T00:10:00Z\"]");
    assert_eq!(row.resumes, "[\"2024-01-01T00:15:00Z\"]");
    assert_eq!(row.end, Some("2024-01-01T00:30:00+00:00".to_string()));
    assert_eq!(row.total_seconds, 1500);
}

#[test]
fn stored_row_round_trips() {
    let s = sample();
    let back = decode_row(encode_row(&s).unwrap()).unwrap();
    assert_eq!(back, s);
    let mut open = sample();
    open.end = None;
    open.pauses = vec![];
    open.resumes = vec![];
    assert_eq!(decode_row(encode_row(&open).unwrap()).unwrap(), open);
}

fn row(start: &str, pauses: &str, end: Option<&str>) -> SessionRow {
    SessionRow {
        id: "r".to_string(),
        start: start.to_string(),
        pauses: pauses.to_string(),
        resumes: "[]".to_string(),
        end: end.map(|e| e.to_string()),
        total_seconds: 7,
    }
}

#[test]
fn malformed_start_or_end_is_integrity_violation() {
    assert_eq!(decode_row(row("yesterday", "[]", None)).err(), Some(TimerError::DataIntegrityViolation));
    assert_eq!(
        decode_row(row("2024-01-01T00:00:00Z", "[]", Some("soon"))).err(),
        Some(TimerError::DataIntegrityViolation)
    );
}

#[test]
fn malformed_pause_list_reads_as_empty() {
    let s = decode_row(row("2024-01-01T01:00:00+01:00", "not json", None)).unwrap();
    assert_eq!(s.start, T0);
    assert!(s.pauses.is_empty());
    assert_eq!(s.end, None);
    assert_eq!(s.total_seconds, 7);
}

#[test]
fn timestamp_range_checks() {
    assert!(is_valid_timestamp(T0));
    assert!(is_valid_timestamp(MIN_TIMESTAMP));
    assert!(is_valid_timestamp(MAX_TIMESTAMP));
    assert!(!is_valid_timestamp(MAX_TIMESTAMP + 1));
    assert!(!is_valid_timestamp(i64::MIN));
    assert!(all_valid_timestamps(&vec![T0, T0 + 1]));
    assert!(!all_valid_timestamps(&vec![T0, i64::MAX]));
    let mut s = sample();
    assert!(s.has_valid_timestamps());
    s.resumes.push(i64::MAX);
    assert!(!s.has_valid_timestamps());
}

