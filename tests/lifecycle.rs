use time_tracker::models::{Session, TimerState};
use time_tracker::timer_manager::{TimerError, TimerManager, TimerStatus};

const T0: i64 = 1704672000;

fn session(id: &str, start: i64, pauses: Vec<i64>, resumes: Vec<i64>, end: Option<i64>) -> Session {
    Session {
        id: id.to_string(),
        start,
        pauses,
        resumes,
        end,
        total_seconds: 0,
    }
}

fn idle() -> TimerManager {
    TimerManager::new(None).unwrap()
}

#[test]
fn pause_resume_end_scenario_totals_1500() {
    let mut m = idle();
    let s = m.start_session_at("a".to_string(), T0).unwrap();
    m.commit(s);
    let s = m.pause_session_at(T0 + 600).unwrap();
    m.commit(s);
    let s = m.resume_session_at(T0 + 900).unwrap();
    m.commit(s);
    let s = m.end_session_at(T0 + 1800).unwrap();
    assert_eq!(s.total_seconds, 1500);
    assert_eq!(s.end, Some(T0 + 1800));
    m.commit(s);
    assert_eq!(m.status(), TimerStatus::Idle);
}

#[test]
fn calculator_subtracts_pause_intervals() {
    let s = session("a", T0, vec![T0 + 600], vec![T0 + 900], Some(T0 + 1800));
    assert_eq!(s.calculate_total_seconds_at(T0 + 99999), 1500);
    assert_eq!(s.calculate_total_seconds(), 1500);
}

#[test]
fn outstanding_pause_counts_until_now() {
    let s = session("a", T0, vec![T0 + 100], vec![], None);
    assert_eq!(s.calculate_total_seconds_at(T0 + 1000), 100);
    assert_eq!(s.calculate_total_seconds_at(T0 + 5000), 100);
}

#[test]
fn running_session_grows_with_now() {
    let s = session("a", T0, vec![T0 + 10], vec![T0 + 20], None);
    let a = s.calculate_total_seconds_at(T0 + 100);
    let b = s.calculate_total_seconds_at(T0 + 200);
    assert_eq!(a, 90);
    assert_eq!(b, 190);
    assert!(a <= b);
}

#[test]
fn ended_session_constant_in_now() {
    let s = session("a", T0, vec![], vec![], Some(T0 + 50));
    assert_eq!(s.calculate_total_seconds_at(T0 + 60), 50);
    assert_eq!(s.calculate_total_seconds_at(T0 + 6000), 50);
}

#[test]
fn out_of_order_timestamps_clamp_to_zero() {
    let s = session("a", T0, vec![T0 + 10], vec![T0 + 5000], Some(T0 + 100));
    assert_eq!(s.calculate_total_seconds_at(T0), 0);
    let t = session("b", T0, vec![], vec![], Some(T0 - 100));
    assert_eq!(t.calculate_total_seconds_at(T0), 0);
}

#[test]
fn new_session_is_open_with_fresh_id() {
    let s = Session::new();
    assert_eq!(s.id.len(), 36);
    assert!(s.is_active());
    assert!(!s.is_paused());
    assert!(s.pauses.is_empty() && s.resumes.is_empty());
    assert_eq!(s.total_seconds, 0);
    let t = Session::new();
    assert_ne!(s.id, t.id);
}

#[test]
fn start_refused_while_active() {
    let mut m = idle();
    let s = m.start_session_at("a".to_string(), T0).unwrap();
    m.commit(s);
    assert_eq!(m.start_session_at("b".to_string(), T0 + 1).unwrap_err(), TimerError::AlreadyActive);
    let s = m.pause_session_at(T0 + 2).unwrap();
    m.commit(s);
    assert_eq!(m.start_session_at("b".to_string(), T0 + 3).unwrap_err(), TimerError::AlreadyActive);
}

#[test]
fn transitions_refused_while_idle() {
    let m = idle();
    assert_eq!(m.pause_session_at(T0).unwrap_err(), TimerError::NoActiveSession);
    assert_eq!(m.resume_session_at(T0).unwrap_err(), TimerError::NoActiveSession);
    assert_eq!(m.end_session_at(T0).unwrap_err(), TimerError::NoActiveSession);
    assert_eq!(m.get_current_elapsed_seconds_at(T0), 0);
    assert!(m.get_current_session().is_none());
}

#[test]
fn resume_refused_while_running() {
    let mut m = idle();
    let s = m.start_session_at("a".to_string(), T0).unwrap();
    m.commit(s);
    assert_eq!(m.resume_session_at(T0 + 1).unwrap_err(), TimerError::NotPaused);
}

#[test]
fn pause_twice_fails_and_keeps_pauses() {
    let mut m = idle();
    let s = m.start_session_at("a".to_string(), T0).unwrap();
    m.commit(s);
    let s = m.pause_session_at(T0 + 10).unwrap();
    m.commit(s);
    assert_eq!(m.pause_session_at(T0 + 20).unwrap_err(), TimerError::AlreadyPaused);
    assert_eq!(m.get_current_session().unwrap().pauses.len(), 1);
    assert_eq!(m.status(), TimerStatus::Paused);
}

#[test]
fn decision_does_not_change_slot_until_commit() {
    let m = idle();
    let s = m.start_session_at("a".to_string(), T0).unwrap();
    assert_eq!(s.start, T0);
    assert_eq!(m.status(), TimerStatus::Idle);
}

#[test]
fn recovered_open_session_reports_state() {
    let paused = session("p", T0, vec![T0 + 100], vec![], None);
    let m = TimerManager::new(Some(paused)).unwrap();
    let st = m.timer_state_at(T0 + 500);
    assert!(st.is_running);
    assert!(st.is_paused);
    assert_eq!(st.current_session_id, Some("p".to_string()));
    assert_eq!(st.elapsed_seconds, 100);

    let running = session("r", T0, vec![T0 + 100], vec![T0 + 200], None);
    let m = TimerManager::new(Some(running)).unwrap();
    let st = m.timer_state_at(T0 + 500);
    assert!(st.is_running);
    assert!(!st.is_paused);
    assert_eq!(st.elapsed_seconds, 400);
    assert_eq!(m.status(), TimerStatus::Running);
}

#[test]
fn recovery_refuses_ended_or_malformed_session() {
    let ended = session("e", T0, vec![], vec![], Some(T0 + 5));
    assert_eq!(TimerManager::new(Some(ended)).err(), Some(TimerError::DataIntegrityViolation));
    let two_pauses = session("x", T0, vec![T0 + 1, T0 + 2], vec![], None);
    assert_eq!(
        TimerManager::new(Some(two_pauses)).err(),
        Some(TimerError::DataIntegrityViolation)
    );
}

#[test]
fn idle_timer_state_is_default() {
    let m = idle();
    let st = m.timer_state_at(T0);
    assert_eq!(st, TimerState::default());
    assert!(!st.is_running && !st.is_paused);
    assert_eq!(st.elapsed_seconds, 0);
}

#[test]
fn live_elapsed_uses_now() {
    let mut m = idle();
    let s = m.start_session_at("a".to_string(), T0).unwrap();
    m.commit(s);
    assert_eq!(m.get_current_elapsed_seconds_at(T0 + 42), 42);
    assert!(m.get_current_elapsed_seconds() > 0);
    assert!(m.timer_state().is_running);
}

#[test]
fn clock_reading_transitions() {
    let mut m = idle();
    let s = m.start_session().unwrap();
    assert_eq!(s.id.len(), 36);
    assert!(s.start > T0);
    m.commit(s);
    assert_eq!(m.start_session().unwrap_err(), TimerError::AlreadyActive);
    assert_eq!(m.resume_session().unwrap_err(), TimerError::NotPaused);
    let s = m.pause_session().unwrap();
    assert_eq!(s.pauses.len(), 1);
    m.commit(s);
    let s = m.resume_session().unwrap();
    assert_eq!(s.resumes.len(), 1);
    m.commit(s);
    let s = m.end_session().unwrap();
    assert!(s.end.is_some());
    assert!(s.total_seconds >= 0);
    m.commit(s);
    assert_eq!(m.end_session().unwrap_err(), TimerError::NoActiveSession);
}
