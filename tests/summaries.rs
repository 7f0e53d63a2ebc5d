use time_tracker::models::Session;
use time_tracker::report::format_duration;
use time_tracker::session_store::SessionStore;
use time_tracker::summary::{month_bounds, summarize_month, can_summarize};
use time_tracker::timer_manager::TimerError;

const JAN_8_2024: i64 = 1704672000;
const JAN_9_2024: i64 = 1704758400;
const JAN_1_2024: i64 = 1704067200;
const FEB_1_2024: i64 = 1706745600;
const DEC_31_2023: i64 = 1703980800;

fn done(id: &str, start: i64, total: i64) -> Session {
    Session {
        id: id.to_string(),
        start,
        pauses: vec![],
        resumes: vec![],
        end: Some(start + total),
        total_seconds: total,
    }
}

#[test]
fn two_long_sessions_in_one_week_give_overtime() {
    let ss = vec![done("a", JAN_8_2024, 75600), done("b", JAN_9_2024, 75600)];
    let m = summarize_month(&ss, 2024, 1).unwrap();
    assert_eq!(m.weekly_breakdown.len(), 1);
    let w = &m.weekly_breakdown[0];
    assert_eq!(w.total_seconds, 151200);
    assert_eq!(w.regular_seconds, 144000);
    assert_eq!(w.overtime_seconds, 7200);
    assert_eq!(w.session_count, 2);
    assert_eq!((w.iso_year, w.week), (2024, 2));
    assert_eq!(w.week_start, "2024 Week 2");
    assert_eq!(w.week_end, "2024 Week 2");
    assert_eq!(m.total_seconds, 151200);
    assert_eq!(m.overtime_seconds, 7200);
    assert_eq!(m.regular_seconds, 144000);
    assert_eq!(m.longest_session_seconds, 75600);
    assert_eq!(m.session_count, 2);
}

#[test]
fn empty_month_is_all_zero() {
    let m = summarize_month(&vec![], 2024, 3).unwrap();
    assert_eq!(m.total_seconds, 0);
    assert_eq!(m.session_count, 0);
    assert_eq!(m.longest_session_seconds, 0);
    assert_eq!(m.regular_seconds, 0);
    assert_eq!(m.overtime_seconds, 0);
    assert!(m.daily_breakdown.is_empty());
    assert!(m.weekly_breakdown.is_empty());
    assert_eq!((m.year, m.month), (2024, 3));
}

#[test]
fn sessions_outside_month_are_ignored() {
    let ss = vec![
        done("old", DEC_31_2023, 100),
        done("in", JAN_1_2024, 200),
        done("next", FEB_1_2024, 400),
    ];
    let m = summarize_month(&ss, 2024, 1).unwrap();
    assert_eq!(m.total_seconds, 200);
    assert_eq!(m.session_count, 1);
    assert_eq!(m.daily_breakdown.len(), 1);
    assert_eq!(m.daily_breakdown[0].date, "2024-01-01");
}

#[test]
fn daily_breakdown_sorted_and_grouped() {
    let ss = vec![
        done("c", JAN_9_2024 + 3600, 30),
        done("a", JAN_8_2024 + 60, 10),
        done("b", JAN_8_2024 + 7200, 20),
    ];
    let m = summarize_month(&ss, 2024, 1).unwrap();
    assert_eq!(m.daily_breakdown.len(), 2);
    assert_eq!(m.daily_breakdown[0].date, "2024-01-08");
    assert_eq!(m.daily_breakdown[0].total_seconds, 30);
    assert_eq!(m.daily_breakdown[0].session_count, 2);
    assert_eq!(m.daily_breakdown[1].date, "2024-01-09");
    assert_eq!(m.daily_breakdown[1].total_seconds, 30);
    assert_eq!(m.daily_breakdown[1].session_count, 1);
    assert_eq!(m.longest_session_seconds, 30);
}

#[test]
fn weeks_sorted_across_iso_years() {
    // 2024-01-01 is in ISO week 1 of 2024; 2024-01-08 in week 2.
    let ss = vec![done("b", JAN_8_2024, 10), done("a", JAN_1_2024, 20)];
    let m = summarize_month(&ss, 2024, 1).unwrap();
    let weeks: Vec<(i32, u32)> = m.weekly_breakdown.iter().map(|w| (w.iso_year, w.week)).collect();
    assert_eq!(weeks, vec![(2024, 1), (2024, 2)]);
    assert_eq!(m.weekly_breakdown[0].week_start, "2024 Week 1");
}

#[test]
fn invalid_month_is_rejected() {
    assert_eq!(summarize_month(&vec![], 2024, 13).err(), Some(TimerError::InvalidPeriod));
    assert_eq!(summarize_month(&vec![], 2024, 0).err(), Some(TimerError::InvalidPeriod));
    assert_eq!(month_bounds(2024, 0), Err(TimerError::InvalidPeriod));
}

#[test]
fn month_bounds_of_january_and_december() {
    assert_eq!(month_bounds(2024, 1), Ok((JAN_1_2024, FEB_1_2024)));
    assert_eq!(month_bounds(2023, 12), Ok((1701388800, JAN_1_2024)));
}

#[test]
fn input_check_rejects_negative_and_overflowing_totals() {
    assert!(can_summarize(&vec![done("a", JAN_1_2024, 5)]));
    assert!(!can_summarize(&vec![done("a", JAN_1_2024, -5)]));
    assert!(!can_summarize(&vec![
        done("a", JAN_1_2024, i64::MAX),
        done("b", JAN_1_2024, 1)
    ]));
}

#[test]
fn store_save_then_get_round_trip() {
    let mut st = SessionStore::new("db.sqlite".to_string());
    let s = Session {
        id: "x".to_string(),
        start: JAN_1_2024,
        pauses: vec![JAN_1_2024 + 10],
        resumes: vec![JAN_1_2024 + 20],
        end: Some(JAN_1_2024 + 100),
        total_seconds: 90,
    };
    st.save_session(&s);
    assert_eq!(st.get_session(&"x".to_string()), Some(s));
    assert_eq!(st.get_session(&"y".to_string()), None);
    assert_eq!(st.db_path(), "db.sqlite");
}

#[test]
fn store_save_twice_keeps_one_record() {
    let mut st = SessionStore::new("db".to_string());
    let s = done("x", JAN_1_2024, 10);
    st.save_session(&s);
    st.save_session(&s);
    assert_eq!(st.get_all_sessions(), vec![s]);
}

#[test]
fn store_upsert_replaces_and_orders_newest_first() {
    let mut st = SessionStore::new("db".to_string());
    st.save_session(&done("a", JAN_1_2024, 10));
    st.save_session(&done("b", JAN_9_2024, 20));
    st.save_session(&done("c", JAN_8_2024, 30));
    st.save_session(&done("a", JAN_1_2024, 99));
    let ids: Vec<String> = st.get_all_sessions().into_iter().map(|s| s.id).collect();
    assert_eq!(ids, vec!["b", "c", "a"]);
    assert_eq!(st.get_session(&"a".to_string()).unwrap().total_seconds, 99);
}

#[test]
fn store_active_session_is_newest_open_one() {
    let mut st = SessionStore::new("db".to_string());
    assert_eq!(st.get_active_session(), None);
    st.save_session(&done("a", JAN_1_2024, 10));
    let mut open = done("o", JAN_8_2024, 0);
    open.end = None;
    st.save_session(&open);
    assert_eq!(st.get_active_session(), Some(open));
}

#[test]
fn store_monthly_summary_and_errors() {
    let mut st = SessionStore::new("db".to_string());
    st.save_session(&done("a", JAN_8_2024, 75600));
    st.save_session(&done("b", JAN_9_2024, 75600));
    let m = st.get_monthly_summary(2024, 1).unwrap();
    assert_eq!(m.overtime_seconds, 7200);
    assert_eq!(st.get_monthly_summary(2024, 13).err(), Some(TimerError::InvalidPeriod));
    st.save_session(&done("neg", JAN_9_2024, -1));
    assert_eq!(st.get_monthly_summary(2024, 1).err(), Some(TimerError::DataIntegrityViolation));
}

#[test]
fn durations_format_as_clock_text() {
    assert_eq!(format_duration(0), "00:00:00");
    assert_eq!(format_duration(3661), "01:01:01");
    assert_eq!(format_duration(90061), "25:01:01");
    assert_eq!(format_duration(59), "00:00:59");
}

#[test]
fn store_period_query_oldest_first() {
    let mut st = SessionStore::new("db".to_string());
    st.save_session(&done("b", JAN_9_2024, 20));
    st.save_session(&done("old", DEC_31_2023, 5));
    st.save_session(&done("a", JAN_8_2024, 10));
    st.save_session(&done("next", FEB_1_2024, 40));
    let ids: Vec<String> = st
        .get_sessions_for_period(JAN_1_2024, FEB_1_2024)
        .into_iter()
        .map(|s| s.id)
        .collect();
    assert_eq!(ids, vec!["a", "b"]);
}

#[test]
fn store_recovery_refuses_two_open_sessions() {
    let mut st = SessionStore::new("db".to_string());
    assert_eq!(st.recover_open_session(), Ok(None));
    let mut a = done("a", JAN_1_2024, 0);
    a.end = None;
    st.save_session(&a);
    st.save_session(&done("c", JAN_9_2024, 5));
    assert_eq!(st.recover_open_session(), Ok(Some(a)));
    let mut b = done("b", JAN_8_2024, 0);
    b.end = None;
    st.save_session(&b);
    assert_eq!(st.recover_open_session(), Err(TimerError::DataIntegrityViolation));
}
