//! The session entity, its duration calculation, and the summary records.

use vstd::prelude::*;
use crate::calendar::{
    valid_timestamp, now_timestamp, fresh_session_id, is_valid_timestamp, all_valid_timestamps,
};

verus! {

/// One tracked work interval with its pause/resume history.
#[derive(Debug, Clone, PartialEq, Eq)]
pub struct Session {
    pub id: String,
    pub start: i64,
    pub pauses: Vec<i64>,
    pub resumes: Vec<i64>,
    pub end: Option<i64>,
    pub total_seconds: i64,
}

/// Mathematical model of a [`Session`].
pub ghost struct SessionView {
    pub id: Seq<char>,
    pub start: i64,
    pub pauses: Seq<i64>,
    pub resumes: Seq<i64>,
    pub end: Option<i64>,
    pub total_seconds: i64,
}

impl View for Session {
    type V = SessionView;

    open spec fn view(&self) -> SessionView {
        SessionView {
            id: self.id@,
            start: self.start,
            pauses: self.pauses@,
            resumes: self.resumes@,
            end: self.end,
            total_seconds: self.total_seconds,
        }
    }
}

impl SessionView {
    /// Every timestamp of the session lies in the representable range.
    pub open spec fn timestamps_valid(self) -> bool {
        &&& valid_timestamp(self.start)
        &&& forall|i: int| 0 <= i < self.pauses.len() ==> valid_timestamp(#[trigger] self.pauses[i])
        &&& forall|i: int| 0 <= i < self.resumes.len() ==> valid_timestamp(#[trigger] self.resumes[i])
        &&& (self.end matches Some(e) ==> valid_timestamp(e))
    }

    /// At most one pause is outstanding.
    pub open spec fn pause_counts_ok(self) -> bool {
        self.resumes.len() <= self.pauses.len() <= self.resumes.len() + 1
    }

    pub open spec fn is_active(self) -> bool {
        self.end is None
    }

    pub open spec fn is_paused(self) -> bool {
        self.is_active() && self.pauses.len() > self.resumes.len()
    }

    /// The session's end if it has one, else the given current time.
    pub open spec fn effective_end(self, now: i64) -> int {
        match self.end {
            Some(e) => e as int,
            None => now as int,
        }
    }

    /// Where pause `i` stops: its resume, or the effective end when none.
    pub open spec fn pause_stop(self, i: int, now: i64) -> int {
        if i < self.resumes.len() {
            self.resumes[i] as int
        } else {
            self.effective_end(now)
        }
    }

    /// Seconds spent in the first `n` pauses.
    pub open spec fn paused_seconds(self, n: nat, now: i64) -> int
        decreases n,
    {
        if n == 0 {
            0
        } else {
            self.paused_seconds((n - 1) as nat, now) + (self.pause_stop(n - 1, now)
                - self.pauses[n - 1] as int)
        }
    }

    /// Active seconds of the session, with `now` as the end of an open session,
    /// clamped at zero.
    pub open spec fn elapsed_seconds(self, now: i64) -> int {
        let v = self.effective_end(now) - self.start as int - self.paused_seconds(
            self.pauses.len(),
            now,
        );
        if v < 0 {
            0
        } else {
            v
        }
    }

    /// [`SessionView::elapsed_seconds`] as an `i64`, saturating at `i64::MAX`.
    pub open spec fn elapsed_seconds_i64(self, now: i64) -> i64 {
        let v = self.elapsed_seconds(now);
        if v > i64::MAX {
            i64::MAX
        } else {
            v as i64
        }
    }
}

/// Once a session has ended, the time used for an open session plays no part
/// in the paused seconds.
proof fn lemma_paused_seconds_ignore_now(s: SessionView, n: nat, t1: i64, t2: i64)
    requires
        s.end is Some || n <= s.resumes.len(),
        n <= s.pauses.len(),
    ensures
        s.paused_seconds(n, t1) == s.paused_seconds(n, t2),
    decreases n,
{
    if n > 0 {
        lemma_paused_seconds_ignore_now(s, (n - 1) as nat, t1, t2);
    }
}

/// The elapsed seconds of an ended session are the same whatever the current
/// time is.
pub proof fn lemma_elapsed_constant_after_end(s: SessionView, t1: i64, t2: i64)
    requires
        s.end is Some,
    ensures
        s.elapsed_seconds(t1) == s.elapsed_seconds(t2),
        s.elapsed_seconds_i64(t1) == s.elapsed_seconds_i64(t2),
{
    lemma_paused_seconds_ignore_now(s, s.pauses.len(), t1, t2);
}

/// For an open session that is not paused, the elapsed seconds never decrease
/// as the current time moves forward.
pub proof fn lemma_elapsed_monotonic(s: SessionView, t1: i64, t2: i64)
    requires
        s.is_active(),
        !s.is_paused(),
        t1 <= t2,
    ensures
        s.elapsed_seconds(t1) <= s.elapsed_seconds(t2),
        s.elapsed_seconds_i64(t1) <= s.elapsed_seconds_i64(t2),
{
    lemma_paused_seconds_ignore_now(s, s.pauses.len(), t1, t2);
}

impl Session {
    /// A new open session that starts at `start`, with no pauses.
    pub fn with_start(id: String, start: i64) -> (r: Session)
        ensures
            r@ == (SessionView {
                id: id@,
                start,
                pauses: Seq::empty(),
                resumes: Seq::empty(),
                end: None,
                total_seconds: 0,
            }),
    {
        Session {
            id,
            start,
            pauses: Vec::new(),
            resumes: Vec::new(),
            end: None,
            total_seconds: 0,
        }
    }

    /// A new open session with a fresh identifier, starting now.
    pub fn new() -> (r: Session)
        ensures
            r@.id.len() == 36,
            valid_timestamp(r.start),
            r@.pauses.len() == 0,
            r@.resumes.len() == 0,
            r.end is None,
            r.total_seconds == 0,
    {
        let id = fresh_session_id();
        let now = now_timestamp();
        Session::with_start(id, now)
    }

    /// A copy of the session.
    pub fn duplicate(&self) -> (r: Session)
        ensures
            r@ == self@,
    {
        Session {
            id: self.id.clone(),
            start: self.start,
            pauses: self.pauses.clone(),
            resumes: self.resumes.clone(),
            end: self.end,
            total_seconds: self.total_seconds,
        }
    }

    pub fn is_active(&self) -> (r: bool)
        ensures
            r == self@.is_active(),
    {
        self.end.is_none()
    }

    pub fn is_paused(&self) -> (r: bool)
        ensures
            r == self@.is_paused(),
    {
        self.is_active() && self.pauses.len() > self.resumes.len()
    }

    /// Whether every timestamp of the session lies in the representable range.
    pub fn has_valid_timestamps(&self) -> (r: bool)
        ensures
            r == self@.timestamps_valid(),
    {
        if !is_valid_timestamp(self.start) {
            return false;
        }
        if let Some(e) = self.end {
            if !is_valid_timestamp(e) {
                return false;
            }
        }
        let p = all_valid_timestamps(&self.pauses);
        let q = all_valid_timestamps(&self.resumes);
        assert(self@.pauses == self.pauses@ && self@.resumes == self.resumes@);
        p && q
    }

    /// Active seconds of the session, counting an open session (and an
    /// outstanding pause) up to `now`. Never negative.
    pub fn calculate_total_seconds_at(&self, now: i64) -> (r: i64)
        requires
            self@.timestamps_valid(),
            valid_timestamp(now),
        ensures
            r == self@.elapsed_seconds_i64(now),
            r >= 0,
    {
        let end_time: i64 = match self.end {
            Some(e) => e,
            None => now,
        };
        let mut total: i128 = end_time as i128 - self.start as i128;
        let n = self.pauses.len();
        let mut i: usize = 0;
        while i < n
            invariant
                self@.timestamps_valid(),
                valid_timestamp(now),
                n == self.pauses.len(),
                0 <= i <= n,
                end_time as int == self@.effective_end(now),
                valid_timestamp(end_time),
                total as int == end_time as int - self.start as int - self@.paused_seconds(
                    i as nat,
                    now,
                ),
                -(i as int + 1) * 0x2000_0000_0000 <= total as int <= (i as int + 1)
                    * 0x2000_0000_0000,
            decreases n - i,
        {
            let pause_start = self.pauses[i];
            let pause_stop: i64 = if i < self.resumes.len() {
                self.resumes[i]
            } else {
                end_time
            };
            assert(valid_timestamp(self@.pauses[i as int]));
            total = total - (pause_stop as i128 - pause_start as i128);
            i = i + 1;
        }
        if total < 0 {
            0
        } else if total > i64::MAX as i128 {
            i64::MAX
        } else {
            total as i64
        }
    }

    /// Active seconds of the session up to the current time.
    pub fn calculate_total_seconds(&self) -> (r: i64)
        requires
            self@.timestamps_valid(),
        ensures
            r >= 0,
            exists|t: i64| valid_timestamp(t) && r == self@.elapsed_seconds_i64(t),
            self.end matches Some(e) ==> r == self@.elapsed_seconds_i64(e),
    {
        let now = now_timestamp();
        let r = self.calculate_total_seconds_at(now);
        assert(valid_timestamp(now) && r == self@.elapsed_seconds_i64(now));
        proof {
            if let Some(e) = self.end {
                lemma_elapsed_constant_after_end(self@, now, e);
            }
        }
        r
    }
}

} // verus!

verus! {

/// What the interface shows of the timer.
#[derive(Debug, Clone, PartialEq, Eq)]
pub struct TimerState {
    pub is_running: bool,
    pub is_paused: bool,
    pub current_session_id: Option<String>,
    pub elapsed_seconds: i64,
}

impl Default for TimerState {
    fn default() -> (r: TimerState)
        ensures
            !r.is_running,
            !r.is_paused,
            r.current_session_id is None,
            r.elapsed_seconds == 0,
    {
        TimerState {
            is_running: false,
            is_paused: false,
            current_session_id: None,
            elapsed_seconds: 0,
        }
    }
}

} // verus!

verus! {

/// Seconds of regular time in a week: 40 hours.
pub const WEEKLY_REGULAR_SECONDS: i64 = 144000;

/// Totals of one calendar day (UTC).
#[derive(Debug, Clone, PartialEq, Eq)]
pub struct DailySummary {
    pub date: String,
    pub total_seconds: i64,
    pub session_count: usize,
}

/// Totals of one ISO week, with time beyond 40 hours counted as overtime.
#[derive(Debug, Clone, PartialEq, Eq)]
pub struct WeeklySummary {
    pub week_start: String,
    pub week_end: String,
    pub iso_year: i32,
    pub week: u32,
    pub regular_seconds: i64,
    pub overtime_seconds: i64,
    pub total_seconds: i64,
    pub session_count: usize,
}

/// Totals of one calendar month (UTC), with its daily and weekly breakdowns.
#[derive(Debug, Clone, PartialEq, Eq)]
pub struct MonthlySummary {
    pub year: i32,
    pub month: u32,
    pub total_seconds: i64,
    pub regular_seconds: i64,
    pub overtime_seconds: i64,
    pub session_count: usize,
    pub longest_session_seconds: i64,
    pub daily_breakdown: Vec<DailySummary>,
    pub weekly_breakdown: Vec<WeeklySummary>,
}

} // verus!
