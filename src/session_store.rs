//! The table of stored sessions, keyed by id and kept newest first.
//!
//! This is the record-keeping of the storage collaborator: saving is an
//! upsert by id, and the queries read the table. Writing the table to disk is
//! left to the caller.

use vstd::prelude::*;
use crate::models::{Session, SessionView, MonthlySummary};
use crate::summary::{
    summarize_month, can_summarize, summary_input_ok, month_bounds, period_bounds, summary_ok,
};
use crate::timer_manager::TimerError;

verus! {

/// No two rows share an id.
pub open spec fn unique_ids(rows: Seq<SessionView>) -> bool {
    forall|i: int, j: int| 0 <= i < rows.len() && 0 <= j < rows.len() && rows[i].id == rows[j].id
        ==> i == j
}

/// Rows ordered by start, newest first.
pub open spec fn newest_first(rows: Seq<SessionView>) -> bool {
    forall|i: int, j: int| 0 <= i < j < rows.len() ==> rows[i].start >= rows[j].start
}

/// `after` is `before` with `v` saved: `v` is stored, any other row with its id
/// is gone, and rows with other ids are untouched.
pub open spec fn saved(before: Seq<SessionView>, after: Seq<SessionView>, v: SessionView) -> bool {
    &&& after.contains(v)
    &&& forall|w: SessionView| w.id != v.id ==> (after.contains(w) <==> before.contains(w))
    &&& forall|w: SessionView| #[trigger] after.contains(w) && w.id == v.id ==> w == v
}

/// What a lookup of `id` in `rows` may return.
pub open spec fn found(rows: Seq<SessionView>, id: Seq<char>, r: Option<SessionView>) -> bool {
    match r {
        Some(v) => rows.contains(v) && v.id == id,
        None => forall|i: int| 0 <= i < rows.len() ==> rows[i].id != id,
    }
}

/// The rows that start in `[lo, hi)`, oldest first (rows are newest first).
pub open spec fn window_oldest_first(rows: Seq<SessionView>, lo: i64, hi: i64) -> Seq<SessionView>
    decreases rows.len(),
{
    if rows.len() == 0 {
        Seq::empty()
    } else {
        let rest = window_oldest_first(rows.subrange(1, rows.len() as int), lo, hi);
        if lo <= rows[0].start && rows[0].start < hi {
            rest.push(rows[0])
        } else {
            rest
        }
    }
}

/// Number of rows without an end.
pub open spec fn open_count(rows: Seq<SessionView>) -> nat
    decreases rows.len(),
{
    if rows.len() == 0 {
        0
    } else {
        open_count(rows.drop_last()) + if rows.last().end is None {
            1nat
        } else {
            0nat
        }
    }
}

/// A saved session is read back unchanged.
pub proof fn lemma_save_then_get(
    before: Seq<SessionView>,
    after: Seq<SessionView>,
    v: SessionView,
    got: Option<SessionView>,
)
    requires
        saved(before, after, v),
        found(after, v.id, got),
    ensures
        got == Some(v),
{
    let i = choose|i: int| 0 <= i < after.len() && after[i] == v;
    if let Some(w) = got {
        assert(after.contains(w));
    } else {
        assert(after[i].id == v.id);
    }
}

/// Saving the same session twice leaves exactly one row with its id, and the
/// same rows as saving it once.
pub proof fn lemma_save_idempotent(
    r0: Seq<SessionView>,
    r1: Seq<SessionView>,
    r2: Seq<SessionView>,
    v: SessionView,
)
    requires
        saved(r0, r1, v),
        saved(r1, r2, v),
        unique_ids(r2),
    ensures
        exists|i: int| 0 <= i < r2.len() && r2[i] == v,
        forall|i: int, j: int|
            0 <= i < r2.len() && 0 <= j < r2.len() && r2[i].id == v.id && r2[j].id == v.id ==> i
                == j,
        forall|w: SessionView| r2.contains(w) <==> r1.contains(w),
{
    assert forall|w: SessionView| r2.contains(w) <==> r1.contains(w) by {
        if w.id == v.id {
            if r2.contains(w) {
                assert(w == v);
            }
            if r1.contains(w) {
                assert(w == v);
            }
        }
    }
}

proof fn lemma_open_counted(rows: Seq<SessionView>, i: int)
    requires
        0 <= i < rows.len(),
        rows[i].end is None,
    ensures
        open_count(rows) > 0,
    decreases rows.len(),
{
    if i < rows.len() - 1 {
        lemma_open_counted(rows.drop_last(), i);
    }
}

proof fn lemma_open_exists(rows: Seq<SessionView>)
    requires
        open_count(rows) > 0,
    ensures
        exists|i: int| 0 <= i < rows.len() && (#[trigger] rows[i]).end is None,
    decreases rows.len(),
{
    if rows.last().end is Some {
        lemma_open_exists(rows.drop_last());
        let i = choose|i: int|
            0 <= i < rows.drop_last().len() && (#[trigger] rows.drop_last()[i]).end is None;
        assert(rows[i] == rows.drop_last()[i]);
    } else {
        assert(rows[rows.len() - 1].end is None);
    }
}

/// The stored sessions.
pub struct SessionStore {
    db_path: String,
    records: Vec<Session>,
}

impl SessionStore {
    /// The stored sessions, newest first.
    pub closed spec fn sessions(&self) -> Seq<Session> {
        self.records@
    }

    /// Models of the stored sessions, newest first.
    pub open spec fn rows(&self) -> Seq<SessionView> {
        self.sessions().map_values(|s: Session| s@)
    }

    pub closed spec fn path(&self) -> Seq<char> {
        self.db_path@
    }

    pub open spec fn wf(&self) -> bool {
        unique_ids(self.rows()) && newest_first(self.rows())
    }

    /// An empty table for the database at `db_path`.
    pub fn new(db_path: String) -> (r: SessionStore)
        ensures
            r.wf(),
            r.rows().len() == 0,
            r.path() == db_path@,
    {
        SessionStore { db_path, records: Vec::new() }
    }

    /// Where the table is kept on disk.
    pub fn db_path(&self) -> (r: &String)
        ensures
            r@ == self.path(),
    {
        &self.db_path
    }

    /// Removes the row with the id of `session`, if there is one.
    fn remove_same_id(&mut self, session: &Session)
        requires
            old(self).wf(),
        ensures
            final(self).wf(),
            final(self).path() == old(self).path(),
            forall|w: SessionView|
                w.id != session@.id ==> (final(self).rows().contains(w) <==> old(
                    self,
                ).rows().contains(w)),
            forall|k: int|
                0 <= k < final(self).rows().len() ==> final(self).rows()[k].id != session@.id,
    {
        let ghost r0 = self.rows();
        let n = self.records.len();
        let mut i: usize = 0;
        while i < n && self.records[i].id != session.id
            invariant
                n == self.records@.len(),
                0 <= i <= n,
                self.rows() == r0,
                forall|j: int| 0 <= j < i ==> (#[trigger] self.records@[j])@.id != session@.id,
            decreases n - i,
        {
            i = i + 1;
        }
        assert(self.rows() =~= self.records@.map_values(|s: Session| s@));
        if i < n {
            self.records.remove(i);
            assert(self.rows() =~= r0.remove(i as int));
        }
        let ghost r1 = self.rows();
        proof {
            assert forall|w: SessionView| w.id != session@.id implies (r1.contains(w)
                <==> r0.contains(w)) by {
                if r0.contains(w) {
                    let k = choose|k: int| 0 <= k < r0.len() && r0[k] == w;
                    if i < n {
                        assert(k != i);
                        if k < i {
                            assert(r1[k] == w);
                        } else {
                            assert(r1[k - 1] == w);
                        }
                    } else {
                        assert(r1[k] == w);
                    }
                }
                if r1.contains(w) {
                    let k = choose|k: int| 0 <= k < r1.len() && r1[k] == w;
                    if i < n && k >= i {
                        assert(r0[k + 1] == w);
                    } else {
                        assert(r0[k] == w);
                    }
                }
            }
            assert forall|k: int| 0 <= k < r1.len() implies r1[k].id != session@.id by {
                if i < n {
                    if k < i {
                        assert(r1[k] == r0[k]);
                        assert(r0[k] == self.records@[k]@);
                    } else {
                        assert(r1[k] == r0[k + 1]);
                        assert(r0[k + 1].id != r0[i as int].id);
                    }
                } else {
                    assert(r1[k] == r0[k]);
                }
            }
            assert(unique_ids(r1)) by {
                assert forall|a: int, b: int|
                    0 <= a < r1.len() && 0 <= b < r1.len() && r1[a].id == r1[b].id implies a
                    == b by {
                    let a0 = if i < n && a >= i {
                        a + 1
                    } else {
                        a
                    };
                    let b0 = if i < n && b >= i {
                        b + 1
                    } else {
                        b
                    };
                    assert(r1[a] == r0[a0]);
                    assert(r1[b] == r0[b0]);
                }
            }
            assert(newest_first(r1)) by {
                assert forall|a: int, b: int| 0 <= a < b < r1.len() implies r1[a].start
                    >= r1[b].start by {
                    let a0 = if i < n && a >= i {
                        a + 1
                    } else {
                        a
                    };
                    let b0 = if i < n && b >= i {
                        b + 1
                    } else {
                        b
                    };
                    assert(r1[a] == r0[a0]);
                    assert(r1[b] == r0[b0]);
                }
            }
        }
    }

    /// Inserts a session whose id is not stored yet, keeping newest first.
    fn insert_new(&mut self, session: Session)
        requires
            old(self).wf(),
            forall|k: int|
                0 <= k < old(self).rows().len() ==> old(self).rows()[k].id != session@.id,
        ensures
            final(self).wf(),
            final(self).path() == old(self).path(),
            saved(old(self).rows(), final(self).rows(), session@),
    {
        let ghost r1 = self.rows();
        let m = self.records.len();
        let mut p: usize = 0;
        while p < m && self.records[p].start >= session.start
            invariant
                m == self.records@.len(),
                0 <= p <= m,
                self.rows() == r1,
                forall|j: int| 0 <= j < p ==> (#[trigger] self.records@[j]).start >= session.start,
            decreases m - p,
        {
            p = p + 1;
        }
        let ghost v = session@;
        self.records.insert(p, session);
        proof {
            let r2 = self.rows();
            assert(r2 =~= r1.insert(p as int, v));
            assert(r2[p as int] == v);
            assert forall|j: int| 0 <= j < p implies r1[j].start >= v.start by {
                assert(r1[j] == self.records@[j]@);
            }
            assert(newest_first(r2)) by {
                assert forall|a: int, b: int| 0 <= a < b < r2.len() implies r2[a].start
                    >= r2[b].start by {
                    if b < p {
                    } else if b == p {
                    } else if a < p {
                        assert(r1[p as int].start < v.start);
                    } else if a == p {
                        assert(r1[p as int].start < v.start);
                        if b - 1 > p {
                            assert(r1[p as int].start >= r1[b - 1].start);
                        }
                    }
                }
            }
            assert forall|w: SessionView| w.id != v.id implies (r2.contains(w) <==> r1.contains(
                w,
            )) by {
                if r1.contains(w) {
                    let k = choose|k: int| 0 <= k < r1.len() && r1[k] == w;
                    if k < p {
                        assert(r2[k] == w);
                    } else {
                        assert(r2[k + 1] == w);
                    }
                }
                if r2.contains(w) {
                    let k = choose|k: int| 0 <= k < r2.len() && r2[k] == w;
                    if k < p {
                        assert(r1[k] == w);
                    } else if k > p {
                        assert(r1[k - 1] == w);
                    }
                }
            }
            assert forall|w: SessionView| #[trigger] r2.contains(w) && w.id == v.id implies w
                == v by {
                let k = choose|k: int| 0 <= k < r2.len() && r2[k] == w;
                if k < p {
                    assert(r1[k].id != v.id);
                } else if k > p {
                    assert(r1[k - 1].id != v.id);
                }
            }
            assert(unique_ids(r2)) by {
                assert forall|a: int, b: int|
                    0 <= a < r2.len() && 0 <= b < r2.len() && r2[a].id == r2[b].id implies a
                    == b by {
                    if a != p && b != p {
                        let a1 = if a < p {
                            a
                        } else {
                            a - 1
                        };
                        let b1 = if b < p {
                            b
                        } else {
                            b - 1
                        };
                        assert(r2[a] == r1[a1]);
                        assert(r2[b] == r1[b1]);
                    } else if a == p && b != p {
                        let b1 = if b < p {
                            b
                        } else {
                            b - 1
                        };
                        assert(r2[b] == r1[b1]);
                    } else if b == p && a != p {
                        let a1 = if a < p {
                            a
                        } else {
                            a - 1
                        };
                        assert(r2[a] == r1[a1]);
                    }
                }
            }
        }
    }

    /// Upserts `session` by id.
    pub fn save_session(&mut self, session: &Session)
        requires
            old(self).wf(),
        ensures
            final(self).wf(),
            saved(old(self).rows(), final(self).rows(), session@),
            final(self).path() == old(self).path(),
    {
        let ghost r0 = self.rows();
        self.remove_same_id(session);
        let ghost r1 = self.rows();
        self.insert_new(session.duplicate());
        proof {
            let r2 = self.rows();
            assert forall|w: SessionView| w.id != session@.id implies (r2.contains(w)
                <==> r0.contains(w)) by {
                assert(r2.contains(w) <==> r1.contains(w));
            }
        }
    }

    /// The stored session with the given id, if any.
    pub fn get_session(&self, id: &String) -> (r: Option<Session>)
        ensures
            found(
                self.rows(),
                id@,
                match r {
                    Some(s) => Some(s@),
                    None => None,
                },
            ),
    {
        let n = self.records.len();
        let mut i: usize = 0;
        while i < n
            invariant
                n == self.records@.len(),
                0 <= i <= n,
                forall|j: int| 0 <= j < i ==> (#[trigger] self.records@[j])@.id != id@,
            decreases n - i,
        {
            if self.records[i].id == *id {
                let s = self.records[i].duplicate();
                assert(self.rows()[i as int] == s@);
                return Some(s);
            }
            i = i + 1;
        }
        proof {
            assert forall|j: int| 0 <= j < self.rows().len() implies self.rows()[j].id != id@ by {
                assert(self.rows()[j] == self.records@[j]@);
            }
        }
        None
    }

    /// The newest stored session without an end, if any.
    pub fn get_active_session(&self) -> (r: Option<Session>)
        ensures
            match r {
                Some(s) => exists|i: int|
                    0 <= i < self.rows().len() && self.rows()[i] == s@ && s.end is None && forall|
                        j: int,
                    | 0 <= j < i ==> (#[trigger] self.rows()[j]).end is Some,
                None => forall|j: int|
                    0 <= j < self.rows().len() ==> (#[trigger] self.rows()[j]).end is Some,
            },
    {
        let n = self.records.len();
        let mut i: usize = 0;
        while i < n
            invariant
                n == self.records@.len(),
                0 <= i <= n,
                forall|j: int| 0 <= j < i ==> (#[trigger] self.rows()[j]).end is Some,
            decreases n - i,
        {
            assert(self.rows()[i as int] == self.records@[i as int]@);
            if self.records[i].end.is_none() {
                let s = self.records[i].duplicate();
                return Some(s);
            }
            i = i + 1;
        }
        None
    }

    /// The session to resume after a restart: the one stored session without
    /// an end, if any. More than one is a `DataIntegrityViolation`.
    pub fn recover_open_session(&self) -> (r: Result<Option<Session>, TimerError>)
        ensures
            open_count(self.rows()) > 1 <==> r == Err::<Option<Session>, TimerError>(
                TimerError::DataIntegrityViolation,
            ),
            open_count(self.rows()) == 0 ==> r matches Ok(None),
            open_count(self.rows()) == 1 ==> (r matches Ok(Some(s)) && self.rows().contains(s@)
                && s.end is None),
    {
        let n = self.records.len();
        let mut count: usize = 0;
        let mut i: usize = 0;
        assert(self.rows().take(0) =~= Seq::<SessionView>::empty());
        while i < n
            invariant
                n == self.records@.len(),
                0 <= i <= n,
                count == open_count(self.rows().take(i as int)),
                count <= i,
            decreases n - i,
        {
            assert(self.rows().take(i as int + 1).drop_last() =~= self.rows().take(i as int));
            assert(self.rows().take(i as int + 1).last() == self.records@[i as int]@);
            if self.records[i].end.is_none() {
                count = count + 1;
            }
            i = i + 1;
        }
        assert(self.rows().take(n as int) =~= self.rows());
        if count > 1 {
            return Err(TimerError::DataIntegrityViolation);
        }
        let r = self.get_active_session();
        proof {
            if count == 0 && r is Some {
                lemma_open_counted(self.rows(), choose|i: int|
                    0 <= i < self.rows().len() && self.rows()[i] == r->0@);
            }
            if count == 1 && r is None {
                lemma_open_exists(self.rows());
            }
        }
        Ok(r)
    }

    /// Copies of all stored sessions, newest first.
    pub fn get_all_sessions(&self) -> (r: Vec<Session>)
        ensures
            r@.map_values(|s: Session| s@) == self.rows(),
    {
        let mut out: Vec<Session> = Vec::new();
        let n = self.records.len();
        let mut i: usize = 0;
        while i < n
            invariant
                n == self.records@.len(),
                0 <= i <= n,
                out@.len() == i,
                forall|j: int| 0 <= j < i ==> (#[trigger] out@[j])@ == self.records@[j]@,
            decreases n - i,
        {
            out.push(self.records[i].duplicate());
            i = i + 1;
        }
        assert(out@.map_values(|s: Session| s@) =~= self.rows());
        out
    }

    /// Copies of the stored sessions that start in `[lo, hi)`, oldest first.
    pub fn get_sessions_for_period(&self, lo: i64, hi: i64) -> (r: Vec<Session>)
        ensures
            r@.map_values(|s: Session| s@) == window_oldest_first(self.rows(), lo, hi),
    {
        let mut out: Vec<Session> = Vec::new();
        let n = self.records.len();
        let mut j: usize = n;
        assert(self.rows().subrange(n as int, n as int) =~= Seq::<SessionView>::empty());
        while j > 0
            invariant
                n == self.records@.len(),
                0 <= j <= n,
                out@.map_values(|s: Session| s@) == window_oldest_first(
                    self.rows().subrange(j as int, n as int),
                    lo,
                    hi,
                ),
            decreases j,
        {
            let ghost before = out@;
            let ghost tail = self.rows().subrange(j as int - 1, n as int);
            assert(tail.subrange(1, tail.len() as int) =~= self.rows().subrange(j as int, n as int));
            assert(tail[0] == self.records@[j - 1]@);
            let s = &self.records[j - 1];
            if lo <= s.start && s.start < hi {
                out.push(s.duplicate());
                assert(out@.map_values(|s: Session| s@) =~= before.map_values(|s: Session| s@).push(
                    tail[0],
                ));
            }
            j = j - 1;
        }
        assert(self.rows().subrange(0, n as int) =~= self.rows());
        out
    }

    /// Summary of the stored sessions of a month: `InvalidPeriod` when the month
    /// does not exist, `DataIntegrityViolation` when a stored session has a start
    /// out of range or a negative total, or the totals overflow.
    pub fn get_monthly_summary(&self, year: i32, month: u32) -> (r: Result<
        MonthlySummary,
        TimerError,
    >)
        ensures
            match period_bounds(year, month) {
                None => r == Err::<MonthlySummary, TimerError>(TimerError::InvalidPeriod),
                Some((lo, hi)) => if summary_input_ok(self.sessions()) {
                    r matches Ok(m) && summary_ok(m, self.sessions(), year, month, lo, hi)
                } else {
                    r == Err::<MonthlySummary, TimerError>(TimerError::DataIntegrityViolation)
                },
            },
    {
        match month_bounds(year, month) {
            Err(e) => Err(e),
            Ok(_) => {
                if can_summarize(&self.records) {
                    summarize_month(&self.records, year, month)
                } else {
                    Err(TimerError::DataIntegrityViolation)
                }
            },
        }
    }
}

} // verus!
