//! The session lifecycle: a state machine over the single current session.
//!
//! Each transition is split in two. A decision method (`start_session`,
//! `pause_session`, `resume_session`, `end_session`, which read the clock, or
//! their `_at` forms, which take the time) checks the state and returns the
//! session as it must be stored, leaving the manager unchanged.
//! Once the store has accepted that session, `commit` makes it current (or
//! clears the slot when it has ended). A failed write therefore leaves the
//! manager as it was.

use vstd::prelude::*;
use crate::calendar::{valid_timestamp, now_timestamp, fresh_session_id};
use crate::models::{Session, SessionView, TimerState};

verus! {

/// Failures of the lifecycle and of the summaries.
#[derive(Debug, Clone, Copy, PartialEq, Eq, Structural)]
pub enum TimerError {
    AlreadyActive,
    NoActiveSession,
    AlreadyPaused,
    NotPaused,
    InvalidPeriod,
    StorageFailure,
    DataIntegrityViolation,
}

/// The three states of the lifecycle.
#[derive(Debug, Clone, Copy, PartialEq, Eq, Structural)]
pub enum TimerStatus {
    Idle,
    Running,
    Paused,
}

/// A lifecycle request.
#[derive(Debug, Clone, Copy, PartialEq, Eq, Structural)]
pub enum Command {
    Start,
    Pause,
    Resume,
    End,
}

/// A session that may be the current one: open, with valid timestamps and at
/// most one outstanding pause.
pub open spec fn current_ok(s: SessionView) -> bool {
    s.is_active() && s.timestamps_valid() && s.pause_counts_ok()
}

pub open spec fn slot_ok(cur: Option<SessionView>) -> bool {
    cur matches Some(s) ==> current_ok(s)
}

pub open spec fn status_of(cur: Option<SessionView>) -> TimerStatus {
    match cur {
        None => TimerStatus::Idle,
        Some(s) => if s.is_paused() {
            TimerStatus::Paused
        } else {
            TimerStatus::Running
        },
    }
}

pub open spec fn start_outcome(cur: Option<SessionView>, id: Seq<char>, now: i64) -> Result<
    SessionView,
    TimerError,
> {
    match cur {
        Some(_) => Err(TimerError::AlreadyActive),
        None => Ok(
            SessionView {
                id,
                start: now,
                pauses: Seq::empty(),
                resumes: Seq::empty(),
                end: None,
                total_seconds: 0,
            },
        ),
    }
}

pub open spec fn pause_outcome(cur: Option<SessionView>, now: i64) -> Result<
    SessionView,
    TimerError,
> {
    match cur {
        None => Err(TimerError::NoActiveSession),
        Some(s) => if s.is_paused() {
            Err(TimerError::AlreadyPaused)
        } else {
            Ok(SessionView { pauses: s.pauses.push(now), ..s })
        },
    }
}

pub open spec fn resume_outcome(cur: Option<SessionView>, now: i64) -> Result<
    SessionView,
    TimerError,
> {
    match cur {
        None => Err(TimerError::NoActiveSession),
        Some(s) => if !s.is_paused() {
            Err(TimerError::NotPaused)
        } else {
            Ok(SessionView { resumes: s.resumes.push(now), ..s })
        },
    }
}

/// The session with its end set to `now`, before its total is cached.
pub open spec fn ended_at(s: SessionView, now: i64) -> SessionView {
    SessionView { end: Some(now), ..s }
}

pub open spec fn end_outcome(cur: Option<SessionView>, now: i64) -> Result<
    SessionView,
    TimerError,
> {
    match cur {
        None => Err(TimerError::NoActiveSession),
        Some(s) => Ok(
            SessionView {
                total_seconds: ended_at(s, now).elapsed_seconds_i64(now),
                ..ended_at(s, now)
            },
        ),
    }
}

/// The outcome of a command on the slot `cur`.
pub open spec fn command_outcome(
    cur: Option<SessionView>,
    cmd: Command,
    id: Seq<char>,
    now: i64,
) -> Result<SessionView, TimerError> {
    match cmd {
        Command::Start => start_outcome(cur, id, now),
        Command::Pause => pause_outcome(cur, now),
        Command::Resume => resume_outcome(cur, now),
        Command::End => end_outcome(cur, now),
    }
}

/// The slot once a stored session has been committed.
pub open spec fn committed(s: SessionView) -> Option<SessionView> {
    if s.is_active() {
        Some(s)
    } else {
        None
    }
}

/// The slot after a command: unchanged when the command is refused.
pub open spec fn step(cur: Option<SessionView>, cmd: Command, id: Seq<char>, now: i64) -> Option<
    SessionView,
> {
    match command_outcome(cur, cmd, id, now) {
        Ok(s) => committed(s),
        Err(_) => cur,
    }
}

/// The slot after a sequence of commands, each with its id and time.
pub open spec fn run(cur: Option<SessionView>, cmds: Seq<(Command, Seq<char>, i64)>) -> Option<
    SessionView,
>
    decreases cmds.len(),
{
    if cmds.len() == 0 {
        cur
    } else {
        let last = cmds.last();
        step(run(cur, cmds.drop_last()), last.0, last.1, last.2)
    }
}

/// Each accepted command keeps the slot well formed.
pub proof fn lemma_step_keeps_slot_ok(
    cur: Option<SessionView>,
    cmd: Command,
    id: Seq<char>,
    now: i64,
)
    requires
        slot_ok(cur),
        valid_timestamp(now),
    ensures
        slot_ok(step(cur, cmd, id, now)),
{
}

/// After any sequence of commands, `start` is refused while a session is
/// running or paused, and `pause`, `resume` and `end` are refused while idle.
pub proof fn lemma_transitions_guarded(
    cur: Option<SessionView>,
    cmds: Seq<(Command, Seq<char>, i64)>,
    id: Seq<char>,
    now: i64,
)
    requires
        slot_ok(cur),
        forall|i: int| 0 <= i < cmds.len() ==> valid_timestamp(#[trigger] cmds[i].2),
    ensures
        slot_ok(run(cur, cmds)),
        status_of(run(cur, cmds)) != TimerStatus::Idle ==> start_outcome(run(cur, cmds), id, now)
            == Err::<SessionView, TimerError>(TimerError::AlreadyActive),
        status_of(run(cur, cmds)) == TimerStatus::Idle ==> {
            &&& pause_outcome(run(cur, cmds), now) == Err::<SessionView, TimerError>(
                TimerError::NoActiveSession,
            )
            &&& resume_outcome(run(cur, cmds), now) == Err::<SessionView, TimerError>(
                TimerError::NoActiveSession,
            )
            &&& end_outcome(run(cur, cmds), now) == Err::<SessionView, TimerError>(
                TimerError::NoActiveSession,
            )
        },
    decreases cmds.len(),
{
    if cmds.len() > 0 {
        let prefix = cmds.drop_last();
        assert forall|i: int| 0 <= i < prefix.len() implies valid_timestamp(#[trigger] prefix[i].2) by {
            assert(prefix[i] == cmds[i]);
        }
        lemma_transitions_guarded(cur, prefix, id, now);
        let last = cmds.last();
        assert(valid_timestamp(cmds[cmds.len() - 1].2));
        lemma_step_keeps_slot_ok(run(cur, prefix), last.0, last.1, last.2);
    }
}

pub open spec fn result_view(r: Result<Session, TimerError>) -> Result<SessionView, TimerError> {
    match r {
        Ok(s) => Ok(s@),
        Err(e) => Err(e),
    }
}

/// Owner of the single current-session slot.
pub struct TimerManager {
    current: Option<Session>,
}

impl TimerManager {
    /// The current session, as a model.
    pub closed spec fn slot(&self) -> Option<SessionView> {
        match self.current {
            Some(s) => Some(s@),
            None => None,
        }
    }

    pub open spec fn wf(&self) -> bool {
        slot_ok(self.slot())
    }

    /// A manager that takes over `recovered`, the stored session without an
    /// end (if any). A recovered session that has ended, holds a timestamp out
    /// of range, or has more than one outstanding pause is refused.
    pub fn new(recovered: Option<Session>) -> (r: Result<TimerManager, TimerError>)
        ensures
            match recovered {
                None => r matches Ok(m) && m.slot() is None,
                Some(s) => if current_ok(s@) {
                    r matches Ok(m) && m.slot() == Some(s@)
                } else {
                    r == Err::<TimerManager, TimerError>(TimerError::DataIntegrityViolation)
                },
            },
            r matches Ok(m) ==> m.wf(),
    {
        match recovered {
            None => Ok(TimerManager { current: None }),
            Some(s) => {
                if s.is_active() && s.has_valid_timestamps()
                    && s.resumes.len() <= s.pauses.len()
                    && s.pauses.len() - s.resumes.len() <= 1 {
                    Ok(TimerManager { current: Some(s) })
                } else {
                    Err(TimerError::DataIntegrityViolation)
                }
            },
        }
    }

    pub fn status(&self) -> (r: TimerStatus)
        ensures
            r == status_of(self.slot()),
    {
        match &self.current {
            None => TimerStatus::Idle,
            Some(s) => if s.is_paused() {
                TimerStatus::Paused
            } else {
                TimerStatus::Running
            },
        }
    }

    /// Decides a start at `now` with the given id: refused with
    /// `AlreadyActive` unless idle.
    pub fn start_session_at(&self, id: String, now: i64) -> (r: Result<Session, TimerError>)
        ensures
            result_view(r) == start_outcome(self.slot(), id@, now),
    {
        if self.current.is_some() {
            Err(TimerError::AlreadyActive)
        } else {
            Ok(Session::with_start(id, now))
        }
    }

    /// Decides a pause at `now`: refused with `NoActiveSession` when idle and
    /// `AlreadyPaused` when paused.
    pub fn pause_session_at(&self, now: i64) -> (r: Result<Session, TimerError>)
        ensures
            result_view(r) == pause_outcome(self.slot(), now),
    {
        match &self.current {
            None => Err(TimerError::NoActiveSession),
            Some(cur) => {
                if cur.is_paused() {
                    Err(TimerError::AlreadyPaused)
                } else {
                    let mut s = cur.duplicate();
                    s.pauses.push(now);
                    Ok(s)
                }
            },
        }
    }

    /// Decides a resume at `now`: refused with `NoActiveSession` when idle and
    /// `NotPaused` when running.
    pub fn resume_session_at(&self, now: i64) -> (r: Result<Session, TimerError>)
        ensures
            result_view(r) == resume_outcome(self.slot(), now),
    {
        match &self.current {
            None => Err(TimerError::NoActiveSession),
            Some(cur) => {
                if !cur.is_paused() {
                    Err(TimerError::NotPaused)
                } else {
                    let mut s = cur.duplicate();
                    s.resumes.push(now);
                    Ok(s)
                }
            },
        }
    }

    /// Decides the end of the session at `now`, with its total computed:
    /// refused with `NoActiveSession` when idle.
    pub fn end_session_at(&self, now: i64) -> (r: Result<Session, TimerError>)
        requires
            self.wf(),
            valid_timestamp(now),
        ensures
            result_view(r) == end_outcome(self.slot(), now),
    {
        match &self.current {
            None => Err(TimerError::NoActiveSession),
            Some(cur) => {
                let mut s = cur.duplicate();
                s.end = Some(now);
                let total = s.calculate_total_seconds_at(now);
                s.total_seconds = total;
                Ok(s)
            },
        }
    }

    /// Decides a start now, with a fresh id: refused with `AlreadyActive`
    /// unless idle.
    pub fn start_session(&self) -> (r: Result<Session, TimerError>)
        ensures
            self.slot() is Some <==> r is Err,
            r is Err ==> r == Err::<Session, TimerError>(TimerError::AlreadyActive),
            r matches Ok(s) ==> s@.id.len() == 36 && start_outcome(self.slot(), s@.id, s.start)
                == Ok::<SessionView, TimerError>(s@) && valid_timestamp(s.start),
    {
        if self.current.is_some() {
            return Err(TimerError::AlreadyActive);
        }
        let id = fresh_session_id();
        let now = now_timestamp();
        self.start_session_at(id, now)
    }

    /// Decides a pause now.
    pub fn pause_session(&self) -> (r: Result<Session, TimerError>)
        ensures
            exists|t: i64| valid_timestamp(t) && result_view(r) == pause_outcome(self.slot(), t),
    {
        let now = now_timestamp();
        let r = self.pause_session_at(now);
        assert(valid_timestamp(now) && result_view(r) == pause_outcome(self.slot(), now));
        r
    }

    /// Decides a resume now.
    pub fn resume_session(&self) -> (r: Result<Session, TimerError>)
        ensures
            exists|t: i64| valid_timestamp(t) && result_view(r) == resume_outcome(self.slot(), t),
    {
        let now = now_timestamp();
        let r = self.resume_session_at(now);
        assert(valid_timestamp(now) && result_view(r) == resume_outcome(self.slot(), now));
        r
    }

    /// Decides the end of the session now.
    pub fn end_session(&self) -> (r: Result<Session, TimerError>)
        requires
            self.wf(),
        ensures
            exists|t: i64| valid_timestamp(t) && result_view(r) == end_outcome(self.slot(), t),
    {
        let now = now_timestamp();
        let r = self.end_session_at(now);
        assert(valid_timestamp(now) && result_view(r) == end_outcome(self.slot(), now));
        r
    }

    /// Makes a stored session current, or clears the slot when it has ended.
    pub fn commit(&mut self, stored: Session)
        requires
            stored@.timestamps_valid(),
            stored@.pause_counts_ok(),
        ensures
            final(self).slot() == committed(stored@),
            final(self).wf(),
    {
        if stored.is_active() {
            self.current = Some(stored);
        } else {
            self.current = None;
        }
    }

    /// A copy of the current session.
    pub fn get_current_session(&self) -> (r: Option<Session>)
        ensures
            match r {
                Some(s) => self.slot() == Some(s@),
                None => self.slot() is None,
            },
    {
        match &self.current {
            Some(s) => Some(s.duplicate()),
            None => None,
        }
    }

    /// Live active seconds of the current session at `now`; 0 when idle.
    pub fn get_current_elapsed_seconds_at(&self, now: i64) -> (r: i64)
        requires
            self.wf(),
            valid_timestamp(now),
        ensures
            r == match self.slot() {
                Some(s) => s.elapsed_seconds_i64(now),
                None => 0,
            },
    {
        match &self.current {
            Some(s) => s.calculate_total_seconds_at(now),
            None => 0,
        }
    }

    /// Live active seconds of the current session; 0 when idle.
    pub fn get_current_elapsed_seconds(&self) -> (r: i64)
        requires
            self.wf(),
        ensures
            r >= 0,
            self.slot() is None ==> r == 0,
            self.slot() matches Some(s) ==> exists|t: i64|
                valid_timestamp(t) && r == s.elapsed_seconds_i64(t),
    {
        let now = now_timestamp();
        let r = self.get_current_elapsed_seconds_at(now);
        assert(self.slot() matches Some(s) ==> valid_timestamp(now) && r == s.elapsed_seconds_i64(
            now,
        ));
        r
    }

    /// The timer state shown to the user at `now`.
    pub fn timer_state_at(&self, now: i64) -> (r: TimerState)
        requires
            self.wf(),
            valid_timestamp(now),
        ensures
            r.is_running == (self.slot() is Some),
            r.is_paused == (status_of(self.slot()) == TimerStatus::Paused),
            match self.slot() {
                Some(s) => r.current_session_id matches Some(id) && id@ == s.id
                    && r.elapsed_seconds == s.elapsed_seconds_i64(now),
                None => r.current_session_id is None && r.elapsed_seconds == 0,
            },
    {
        match &self.current {
            Some(s) => TimerState {
                is_running: true,
                is_paused: s.is_paused(),
                current_session_id: Some(s.id.clone()),
                elapsed_seconds: s.calculate_total_seconds_at(now),
            },
            None => TimerState::default(),
        }
    }

    /// The timer state shown to the user now.
    pub fn timer_state(&self) -> (r: TimerState)
        requires
            self.wf(),
        ensures
            r.is_running == (self.slot() is Some),
            r.is_paused == (status_of(self.slot()) == TimerStatus::Paused),
            match self.slot() {
                Some(s) => r.current_session_id matches Some(id) && id@ == s.id && exists|t: i64|
                    valid_timestamp(t) && r.elapsed_seconds == s.elapsed_seconds_i64(t),
                None => r.current_session_id is None && r.elapsed_seconds == 0,
            },
    {
        let now = now_timestamp();
        let r = self.timer_state_at(now);
        assert(self.slot() matches Some(s) ==> valid_timestamp(now) && r.elapsed_seconds
            == s.elapsed_seconds_i64(now));
        r
    }
}

} // verus!
