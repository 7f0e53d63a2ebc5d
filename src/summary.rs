//! Monthly aggregation of sessions into daily and ISO-week buckets.

use vstd::prelude::*;
use crate::calendar::{
    valid_timestamp, is_valid_timestamp, utc_date, utc_iso_week, utc_date_text, utc_month_start, week_label_text,
    date_of, iso_week_of, date_text_of, month_start, week_label,
};
use crate::models::{
    Session, DailySummary, WeeklySummary, MonthlySummary, WEEKLY_REGULAR_SECONDS,
};
use crate::timer_manager::TimerError;

verus! {

/// How sessions are bucketed.
#[derive(Debug, Clone, Copy, PartialEq, Eq, Structural)]
pub enum Grouping {
    Day,
    Week,
}

/// The bucket of a session that starts at `t`: its UTC date, or its ISO week
/// (with a zero third component).
pub open spec fn group_key(g: Grouping, t: i64) -> (i32, u32, u32) {
    match g {
        Grouping::Day => utc_date(t),
        Grouping::Week => (utc_iso_week(t).0, utc_iso_week(t).1, 0u32),
    }
}

/// Lexicographic order of bucket keys.
pub open spec fn key_lt(a: (i32, u32, u32), b: (i32, u32, u32)) -> bool {
    a.0 < b.0 || (a.0 == b.0 && (a.1 < b.1 || (a.1 == b.1 && a.2 < b.2)))
}

pub open spec fn in_period(s: Session, lo: i64, hi: i64) -> bool {
    lo <= s.start && s.start < hi
}

/// Sum of `total_seconds` over all sessions.
pub open spec fn all_seconds(ss: Seq<Session>) -> int
    decreases ss.len(),
{
    if ss.len() == 0 {
        0
    } else {
        all_seconds(ss.drop_last()) + ss.last().total_seconds
    }
}

/// Sum of `total_seconds` over the sessions that start in `[lo, hi)`.
pub open spec fn period_total(ss: Seq<Session>, lo: i64, hi: i64) -> int
    decreases ss.len(),
{
    if ss.len() == 0 {
        0
    } else {
        period_total(ss.drop_last(), lo, hi) + if in_period(ss.last(), lo, hi) {
            ss.last().total_seconds as int
        } else {
            0
        }
    }
}

/// Number of sessions that start in `[lo, hi)`.
pub open spec fn period_count(ss: Seq<Session>, lo: i64, hi: i64) -> nat
    decreases ss.len(),
{
    if ss.len() == 0 {
        0
    } else {
        period_count(ss.drop_last(), lo, hi) + if in_period(ss.last(), lo, hi) {
            1nat
        } else {
            0nat
        }
    }
}

/// Largest `total_seconds` of a session that starts in `[lo, hi)`, or 0.
pub open spec fn period_longest(ss: Seq<Session>, lo: i64, hi: i64) -> int
    decreases ss.len(),
{
    if ss.len() == 0 {
        0
    } else {
        let rest = period_longest(ss.drop_last(), lo, hi);
        if in_period(ss.last(), lo, hi) && ss.last().total_seconds > rest {
            ss.last().total_seconds as int
        } else {
            rest
        }
    }
}

/// Sum of `total_seconds` over the sessions of `[lo, hi)` in bucket `k`.
pub open spec fn group_total(ss: Seq<Session>, lo: i64, hi: i64, g: Grouping, k: (
    i32,
    u32,
    u32,
)) -> int
    decreases ss.len(),
{
    if ss.len() == 0 {
        0
    } else {
        group_total(ss.drop_last(), lo, hi, g, k) + if in_period(ss.last(), lo, hi) && group_key(
            g,
            ss.last().start,
        ) == k {
            ss.last().total_seconds as int
        } else {
            0
        }
    }
}

/// Number of sessions of `[lo, hi)` in bucket `k`.
pub open spec fn group_count(ss: Seq<Session>, lo: i64, hi: i64, g: Grouping, k: (
    i32,
    u32,
    u32,
)) -> nat
    decreases ss.len(),
{
    if ss.len() == 0 {
        0
    } else {
        group_count(ss.drop_last(), lo, hi, g, k) + if in_period(ss.last(), lo, hi) && group_key(
            g,
            ss.last().start,
        ) == k {
            1nat
        } else {
            0nat
        }
    }
}

/// Start of the first session of `[lo, hi)` in bucket `k` (meaningful when
/// the bucket is not empty).
pub open spec fn group_first_start(ss: Seq<Session>, lo: i64, hi: i64, g: Grouping, k: (
    i32,
    u32,
    u32,
)) -> i64
    decreases ss.len(),
{
    if ss.len() == 0 {
        0
    } else if group_count(ss.drop_last(), lo, hi, g, k) > 0 {
        group_first_start(ss.drop_last(), lo, hi, g, k)
    } else {
        ss.last().start
    }
}

/// What the aggregation needs of its input: valid starts, cached totals that
/// are not negative, and a grand total that fits in an `i64`.
pub open spec fn summary_input_ok(ss: Seq<Session>) -> bool {
    &&& forall|i: int| 0 <= i < ss.len() ==> valid_timestamp(#[trigger] ss[i].start)
    &&& forall|i: int| 0 <= i < ss.len() ==> #[trigger] ss[i].total_seconds >= 0
    &&& all_seconds(ss) <= i64::MAX
}

/// Keys in strictly increasing order.
pub open spec fn keys_increasing(keys: Seq<(i32, u32, u32)>) -> bool {
    forall|x: int, y: int| 0 <= x < y < keys.len() ==> key_lt(keys[x], keys[y])
}

/// Every session of `[lo, hi)` has its bucket among `keys`.
pub open spec fn keys_cover(
    keys: Seq<(i32, u32, u32)>,
    ss: Seq<Session>,
    lo: i64,
    hi: i64,
    g: Grouping,
) -> bool {
    forall|i: int|
        0 <= i < ss.len() && in_period(#[trigger] ss[i], lo, hi) ==> keys.contains(
            group_key(g, ss[i].start),
        )
}

/// The daily breakdown of `[lo, hi)`: one entry per day that has sessions, in
/// date order, each with the day's total and count, labelled with its date.
pub open spec fn daily_ok_for(
    d: Seq<DailySummary>,
    keys: Seq<(i32, u32, u32)>,
    ss: Seq<Session>,
    lo: i64,
    hi: i64,
) -> bool {
    &&& keys.len() == d.len()
    &&& keys_increasing(keys)
    &&& keys_cover(keys, ss, lo, hi, Grouping::Day)
    &&& forall|x: int|
        0 <= x < d.len() ==> {
            &&& group_count(ss, lo, hi, Grouping::Day, keys[x]) > 0
            &&& (#[trigger] d[x]).total_seconds == group_total(ss, lo, hi, Grouping::Day, keys[x])
            &&& d[x].session_count == group_count(ss, lo, hi, Grouping::Day, keys[x])
            &&& d[x].date@ == utc_date_text(group_first_start(ss, lo, hi, Grouping::Day, keys[x]))
        }
}

pub open spec fn daily_ok(d: Seq<DailySummary>, ss: Seq<Session>, lo: i64, hi: i64) -> bool {
    exists|keys: Seq<(i32, u32, u32)>| daily_ok_for(d, keys, ss, lo, hi)
}

pub open spec fn week_key(w: WeeklySummary) -> (i32, u32, u32) {
    (w.iso_year, w.week, 0u32)
}

/// Regular time of a week: at most 40 hours.
pub open spec fn regular_part(total: int) -> int {
    if total < WEEKLY_REGULAR_SECONDS {
        total
    } else {
        WEEKLY_REGULAR_SECONDS as int
    }
}

/// Overtime of a week: the time beyond 40 hours.
pub open spec fn overtime_part(total: int) -> int {
    if total > WEEKLY_REGULAR_SECONDS {
        total - WEEKLY_REGULAR_SECONDS
    } else {
        0
    }
}

/// The weekly breakdown of `[lo, hi)`: one entry per ISO week that has
/// sessions, in week order, with its total split into regular and overtime.
pub open spec fn weekly_ok(w: Seq<WeeklySummary>, ss: Seq<Session>, lo: i64, hi: i64) -> bool {
    let keys = w.map_values(|e: WeeklySummary| week_key(e));
    &&& keys_increasing(keys)
    &&& keys_cover(keys, ss, lo, hi, Grouping::Week)
    &&& forall|x: int|
        0 <= x < w.len() ==> {
            &&& group_count(ss, lo, hi, Grouping::Week, week_key(w[x])) > 0
            &&& (#[trigger] w[x]).total_seconds == group_total(
                ss,
                lo,
                hi,
                Grouping::Week,
                week_key(w[x]),
            )
            &&& w[x].session_count == group_count(ss, lo, hi, Grouping::Week, week_key(w[x]))
            &&& w[x].regular_seconds == regular_part(w[x].total_seconds as int)
            &&& w[x].overtime_seconds == overtime_part(w[x].total_seconds as int)
            &&& w[x].week_start@ == week_label_text(w[x].iso_year, w[x].week)
            &&& w[x].week_end@ == week_label_text(w[x].iso_year, w[x].week)
        }
}

/// Sum of the weekly overtime.
pub open spec fn overtime_sum(w: Seq<WeeklySummary>) -> int
    decreases w.len(),
{
    if w.len() == 0 {
        0
    } else {
        overtime_sum(w.drop_last()) + w.last().overtime_seconds
    }
}

/// The first instants of a month and of the next one, when both exist.
pub open spec fn period_bounds(year: i32, month: u32) -> Option<(i64, i64)> {
    let next_year: int = if month == 12 {
        year + 1
    } else {
        year as int
    };
    let next_month: int = if month == 12 {
        1
    } else {
        month + 1
    };
    if month < 1 || month > 12 || next_year > i32::MAX {
        None
    } else {
        match (
            utc_month_start(year, month),
            utc_month_start(next_year as i32, next_month as u32),
        ) {
            (Some(lo), Some(hi)) => Some((lo, hi)),
            _ => None,
        }
    }
}

/// `m` summarises the sessions `ss` that start in `[lo, hi)`.
pub open spec fn summary_ok(
    m: MonthlySummary,
    ss: Seq<Session>,
    year: i32,
    month: u32,
    lo: i64,
    hi: i64,
) -> bool {
    &&& m.year == year
    &&& m.month == month
    &&& m.total_seconds == period_total(ss, lo, hi)
    &&& m.session_count == period_count(ss, lo, hi)
    &&& m.longest_session_seconds == period_longest(ss, lo, hi)
    &&& daily_ok(m.daily_breakdown@, ss, lo, hi)
    &&& weekly_ok(m.weekly_breakdown@, ss, lo, hi)
    &&& m.overtime_seconds == overtime_sum(m.weekly_breakdown@)
    &&& m.regular_seconds == m.total_seconds - m.overtime_seconds
}

/// Sessions accumulated so far under one key.
#[derive(Clone, Copy)]
struct Bucket {
    key: (i32, u32, u32),
    total: i64,
    count: usize,
    first_start: i64,
}

spec fn bucket_sum(b: Seq<Bucket>) -> int
    decreases b.len(),
{
    if b.len() == 0 {
        0
    } else {
        bucket_sum(b.drop_last()) + b.last().total
    }
}

/// The buckets describe the sessions `p` of `[lo, hi)` exactly.
spec fn buckets_ok(b: Seq<Bucket>, p: Seq<Session>, lo: i64, hi: i64, g: Grouping) -> bool {
    &&& forall|x: int, y: int| 0 <= x < y < b.len() ==> key_lt(b[x].key, b[y].key)
    &&& forall|x: int|
        0 <= x < b.len() ==> {
            &&& (#[trigger] b[x]).count > 0
            &&& b[x].total == group_total(p, lo, hi, g, b[x].key)
            &&& b[x].count == group_count(p, lo, hi, g, b[x].key)
            &&& b[x].first_start == group_first_start(p, lo, hi, g, b[x].key)
            &&& valid_timestamp(b[x].first_start)
        }
    &&& forall|k: (i32, u32, u32)|
        #[trigger] group_count(p, lo, hi, g, k) > 0 ==> exists|x: int|
            0 <= x < b.len() && (#[trigger] b[x]).key == k
    &&& bucket_sum(b) == period_total(p, lo, hi)
}

proof fn lemma_group_bounds(ss: Seq<Session>, lo: i64, hi: i64, g: Grouping, k: (i32, u32, u32))
    requires
        forall|i: int| 0 <= i < ss.len() ==> #[trigger] ss[i].total_seconds >= 0,
    ensures
        0 <= group_total(ss, lo, hi, g, k) <= period_total(ss, lo, hi),
        period_total(ss, lo, hi) <= all_seconds(ss),
        group_count(ss, lo, hi, g, k) <= period_count(ss, lo, hi),
        period_count(ss, lo, hi) <= ss.len(),
        group_count(ss, lo, hi, g, k) == 0 ==> group_total(ss, lo, hi, g, k) == 0,
        0 <= period_longest(ss, lo, hi) <= period_total(ss, lo, hi),
    decreases ss.len(),
{
    if ss.len() > 0 {
        let q = ss.drop_last();
        assert forall|i: int| 0 <= i < q.len() implies #[trigger] q[i].total_seconds >= 0 by {
            assert(q[i] == ss[i]);
        }
        assert(ss.last() == ss[ss.len() - 1]);
        lemma_group_bounds(q, lo, hi, g, k);
    }
}

proof fn lemma_all_seconds_prefix(ss: Seq<Session>, i: int)
    requires
        0 <= i <= ss.len(),
        forall|j: int| 0 <= j < ss.len() ==> #[trigger] ss[j].total_seconds >= 0,
    ensures
        all_seconds(ss.take(i)) <= all_seconds(ss),
    decreases ss.len(),
{
    if i == ss.len() {
        assert(ss.take(i) =~= ss);
    } else {
        let q = ss.drop_last();
        assert forall|j: int| 0 <= j < q.len() implies #[trigger] q[j].total_seconds >= 0 by {
            assert(q[j] == ss[j]);
        }
        assert(ss.last() == ss[ss.len() - 1]);
        lemma_all_seconds_prefix(q, i);
        assert(q.take(i) =~= ss.take(i));
    }
}

proof fn lemma_member_counted(ss: Seq<Session>, lo: i64, hi: i64, g: Grouping, j: int)
    requires
        0 <= j < ss.len(),
        in_period(ss[j], lo, hi),
    ensures
        group_count(ss, lo, hi, g, group_key(g, ss[j].start)) > 0,
    decreases ss.len(),
{
    if j < ss.len() - 1 {
        let q = ss.drop_last();
        assert(q[j] == ss[j]);
        lemma_member_counted(q, lo, hi, g, j);
    }
}

proof fn lemma_bucket_sum_update(b: Seq<Bucket>, x: int, nb: Bucket)
    requires
        0 <= x < b.len(),
    ensures
        bucket_sum(b.update(x, nb)) == bucket_sum(b) - b[x].total + nb.total,
    decreases b.len(),
{
    let u = b.update(x, nb);
    if x == b.len() - 1 {
        assert(u.drop_last() =~= b.drop_last());
    } else {
        assert(u.drop_last() =~= b.drop_last().update(x, nb));
        lemma_bucket_sum_update(b.drop_last(), x, nb);
    }
}

proof fn lemma_bucket_sum_insert(b: Seq<Bucket>, x: int, nb: Bucket)
    requires
        0 <= x <= b.len(),
    ensures
        bucket_sum(b.insert(x, nb)) == bucket_sum(b) + nb.total,
    decreases b.len(),
{
    let u = b.insert(x, nb);
    if x == b.len() {
        assert(u.drop_last() =~= b);
    } else {
        assert(u.drop_last() =~= b.drop_last().insert(x, nb));
        lemma_bucket_sum_insert(b.drop_last(), x, nb);
    }
}

proof fn lemma_bucket_sum_prefix(b: Seq<Bucket>, i: int)
    requires
        0 <= i <= b.len(),
        forall|j: int| 0 <= j < b.len() ==> (#[trigger] b[j]).total >= 0,
    ensures
        bucket_sum(b.take(i)) <= bucket_sum(b),
    decreases b.len(),
{
    if i == b.len() {
        assert(b.take(i) =~= b);
    } else {
        let q = b.drop_last();
        assert forall|j: int| 0 <= j < q.len() implies (#[trigger] q[j]).total >= 0 by {
            assert(q[j] == b[j]);
        }
        lemma_bucket_sum_prefix(q, i);
        assert(q.take(i) =~= b.take(i));
    }
}

fn key_less(a: (i32, u32, u32), b: (i32, u32, u32)) -> (r: bool)
    ensures
        r == key_lt(a, b),
{
    a.0 < b.0 || (a.0 == b.0 && (a.1 < b.1 || (a.1 == b.1 && a.2 < b.2)))
}

fn key_of(g: Grouping, t: i64) -> (r: (i32, u32, u32))
    requires
        valid_timestamp(t),
    ensures
        r == group_key(g, t),
{
    match g {
        Grouping::Day => date_of(t),
        Grouping::Week => {
            let w = iso_week_of(t);
            (w.0, w.1, 0u32)
        },
    }
}

/// Groups the sessions of `[lo, hi)` into buckets sorted by key.
#[verifier::rlimit(50)]
fn collect_buckets(ss: &Vec<Session>, lo: i64, hi: i64, g: Grouping) -> (b: Vec<Bucket>)
    requires
        summary_input_ok(ss@),
    ensures
        buckets_ok(b@, ss@, lo, hi, g),
{
    let mut b: Vec<Bucket> = Vec::new();
    let n = ss.len();
    let mut i: usize = 0;
    assert(ss@.take(0) =~= Seq::<Session>::empty());
    while i < n
        invariant
            n == ss@.len(),
            0 <= i <= n,
            summary_input_ok(ss@),
            buckets_ok(b@, ss@.take(i as int), lo, hi, g),
        decreases n - i,
    {
        let ghost p = ss@.take(i as int);
        let ghost grown = ss@.take(i as int + 1);
        assert(grown.drop_last() =~= p);
        assert(grown.last() == ss@[i as int]);
        assert forall|j: int| 0 <= j < grown.len() implies #[trigger] grown[j].total_seconds >= 0 by {
            assert(grown[j] == ss@[j]);
        }
        let s = &ss[i];
        if lo <= s.start && s.start < hi {
            let key = key_of(g, s.start);
            proof {
                lemma_group_bounds(grown, lo, hi, g, key);
                lemma_all_seconds_prefix(ss@, i as int + 1);
            }
            let mut x: usize = 0;
            while x < b.len() && key_less(b[x].key, key)
                invariant
                    0 <= x <= b@.len(),
                    forall|y: int| 0 <= y < x ==> key_lt(#[trigger] b@[y].key, key),
                decreases b@.len() - x,
            {
                x = x + 1;
            }
            if x < b.len() && b[x].key.0 == key.0 && b[x].key.1 == key.1 && b[x].key.2 == key.2 {
                let old_b = b[x];
                let ghost b0 = b@;
                let nb = Bucket {
                    key,
                    total: old_b.total + s.total_seconds,
                    count: old_b.count + 1,
                    first_start: old_b.first_start,
                };
                b[x] = nb;
                proof {
                    lemma_bucket_sum_update(b0, x as int, nb);
                    assert forall|y: int| 0 <= y < b@.len() && y != x implies (#[trigger] b0[y]).key
                        != key by {
                        if y < x {
                            assert(key_lt(b0[y].key, b0[x as int].key));
                        } else {
                            assert(key_lt(b0[x as int].key, b0[y].key));
                        }
                    }
                    assert forall|k: (i32, u32, u32)| #[trigger]
                        group_count(grown, lo, hi, g, k) > 0 implies exists|z: int|
                        0 <= z < b@.len() && (#[trigger] b@[z]).key == k by {
                        if k != key {
                            assert(group_count(p, lo, hi, g, k) > 0);
                            let z = choose|z: int| 0 <= z < b0.len() && (#[trigger] b0[z]).key == k;
                            assert(b@[z].key == k);
                        } else {
                            assert(b@[x as int].key == k);
                        }
                    }
                }
            } else {
                let nb = Bucket { key, total: s.total_seconds, count: 1, first_start: s.start };
                let ghost b0 = b@;
                proof {
                    if x < b0.len() {
                        assert(key_lt(key, b0[x as int].key));
                    }
                    if group_count(p, lo, hi, g, key) > 0 {
                        let z = choose|z: int| 0 <= z < b0.len() && (#[trigger] b0[z]).key == key;
                        if z >= x {
                            if z > x {
                                assert(key_lt(b0[x as int].key, b0[z].key));
                            }
                        } else {
                            assert(key_lt(b0[z].key, key));
                        }
                    }
                    lemma_group_bounds(p, lo, hi, g, key);
                }
                b.insert(x, nb);
                proof {
                    lemma_bucket_sum_insert(b0, x as int, nb);
                    assert forall|y: int| 0 <= y < b0.len() implies (#[trigger] b0[y]).key
                        != key by {
                        if y < x {
                        } else {
                            if y > x {
                                assert(key_lt(b0[x as int].key, b0[y].key));
                            }
                        }
                    }
                    assert forall|y: int| 0 <= y < b@.len() implies {
                        &&& (#[trigger] b@[y]).count > 0
                        &&& b@[y].total == group_total(grown, lo, hi, g, b@[y].key)
                        &&& b@[y].count == group_count(grown, lo, hi, g, b@[y].key)
                        &&& b@[y].first_start == group_first_start(grown, lo, hi, g, b@[y].key)
                        &&& valid_timestamp(b@[y].first_start)
                    } by {
                        if y < x {
                            assert(b@[y] == b0[y]);
                        } else if y > x {
                            assert(b@[y] == b0[y - 1]);
                        }
                    }
                    assert forall|y: int, z: int| 0 <= y < z < b@.len() implies key_lt(
                        b@[y].key,
                        b@[z].key,
                    ) by {
                        if z < x {
                        } else if z == x {
                        } else if y < x {
                            assert(key_lt(key, b0[z - 1].key)) by {
                                if z - 1 > x {
                                    assert(key_lt(b0[x as int].key, b0[z - 1].key));
                                }
                            }
                        } else if y == x {
                            if z - 1 > x {
                                assert(key_lt(b0[x as int].key, b0[z - 1].key));
                            }
                        } else {
                        }
                    }
                    assert forall|k: (i32, u32, u32)| #[trigger]
                        group_count(grown, lo, hi, g, k) > 0 implies exists|z: int|
                        0 <= z < b@.len() && (#[trigger] b@[z]).key == k by {
                        if k != key {
                            assert(group_count(p, lo, hi, g, k) > 0);
                            let z = choose|z: int| 0 <= z < b0.len() && (#[trigger] b0[z]).key == k;
                            if z < x {
                                assert(b@[z].key == k);
                            } else {
                                assert(b@[z + 1].key == k);
                            }
                        } else {
                            assert(b@[x as int].key == k);
                        }
                    }
                }
            }
        } else {
            proof {
                assert forall|k: (i32, u32, u32)| #[trigger]
                    group_count(grown, lo, hi, g, k) > 0 implies exists|z: int|
                    0 <= z < b@.len() && (#[trigger] b@[z]).key == k by {
                    assert(group_count(p, lo, hi, g, k) > 0);
                }
                assert forall|y: int| 0 <= y < b@.len() implies {
                    &&& (#[trigger] b@[y]).count > 0
                    &&& b@[y].total == group_total(grown, lo, hi, g, b@[y].key)
                    &&& b@[y].count == group_count(grown, lo, hi, g, b@[y].key)
                    &&& b@[y].first_start == group_first_start(grown, lo, hi, g, b@[y].key)
                    &&& valid_timestamp(b@[y].first_start)
                } by {
                }
            }
        }
        i = i + 1;
    }
    assert(ss@.take(n as int) =~= ss@);
    b
}

proof fn lemma_week_key_shape(ss: Seq<Session>, lo: i64, hi: i64, k: (i32, u32, u32))
    requires
        group_count(ss, lo, hi, Grouping::Week, k) > 0,
    ensures
        k.2 == 0,
    decreases ss.len(),
{
    if ss.len() > 0 && group_count(ss.drop_last(), lo, hi, Grouping::Week, k) > 0 {
        lemma_week_key_shape(ss.drop_last(), lo, hi, k);
    }
}

/// Every session of the period has its key among the buckets'.
proof fn lemma_buckets_cover(b: Seq<Bucket>, ss: Seq<Session>, lo: i64, hi: i64, g: Grouping)
    requires
        buckets_ok(b, ss, lo, hi, g),
    ensures
        keys_cover(b.map_values(|e: Bucket| e.key), ss, lo, hi, g),
{
    let keys = b.map_values(|e: Bucket| e.key);
    assert forall|i: int| 0 <= i < ss.len() && in_period(#[trigger] ss[i], lo, hi) implies keys.contains(
        group_key(g, ss[i].start),
    ) by {
        lemma_member_counted(ss, lo, hi, g, i);
        let k = group_key(g, ss[i].start);
        assert(group_count(ss, lo, hi, g, k) > 0);
        let z = choose|z: int| 0 <= z < b.len() && (#[trigger] b[z]).key == k;
        assert(keys[z] == k);
    }
}

fn daily_breakdown(b: &Vec<Bucket>, ss: &Vec<Session>, lo: i64, hi: i64) -> (d: Vec<DailySummary>)
    requires
        buckets_ok(b@, ss@, lo, hi, Grouping::Day),
    ensures
        daily_ok_for(d@, b@.map_values(|e: Bucket| e.key), ss@, lo, hi),
{
    let mut d: Vec<DailySummary> = Vec::new();
    let mut x: usize = 0;
    while x < b.len()
        invariant
            0 <= x <= b@.len(),
            buckets_ok(b@, ss@, lo, hi, Grouping::Day),
            d@.len() == x,
            forall|y: int|
                0 <= y < x ==> {
                    &&& (#[trigger] d@[y]).total_seconds == b@[y].total
                    &&& d@[y].session_count == b@[y].count
                    &&& d@[y].date@ == utc_date_text(b@[y].first_start)
                },
        decreases b@.len() - x,
    {
        let e = b[x];
        assert(b@[x as int].count > 0);
        let date = date_text_of(e.first_start);
        d.push(DailySummary { date, total_seconds: e.total, session_count: e.count });
        x = x + 1;
    }
    proof {
        lemma_buckets_cover(b@, ss@, lo, hi, Grouping::Day);
        let keys = b@.map_values(|e: Bucket| e.key);
        assert forall|x: int| 0 <= x < d@.len() implies {
            &&& group_count(ss@, lo, hi, Grouping::Day, keys[x]) > 0
            &&& (#[trigger] d@[x]).total_seconds == group_total(
                ss@,
                lo,
                hi,
                Grouping::Day,
                keys[x],
            )
            &&& d@[x].session_count == group_count(ss@, lo, hi, Grouping::Day, keys[x])
            &&& d@[x].date@ == utc_date_text(
                group_first_start(ss@, lo, hi, Grouping::Day, keys[x]),
            )
        } by {
            assert(b@[x].count > 0);
        }
    }
    d
}

fn weekly_breakdown(b: &Vec<Bucket>, ss: &Vec<Session>, lo: i64, hi: i64) -> (w: Vec<WeeklySummary>)
    requires
        buckets_ok(b@, ss@, lo, hi, Grouping::Week),
        summary_input_ok(ss@),
    ensures
        weekly_ok(w@, ss@, lo, hi),
        0 <= overtime_sum(w@) <= period_total(ss@, lo, hi),
{
    let mut w: Vec<WeeklySummary> = Vec::new();
    let mut x: usize = 0;
    let mut overtime: i64 = 0;
    proof {
        assert forall|y: int| 0 <= y < b@.len() implies (#[trigger] b@[y]).total >= 0 by {
            lemma_group_bounds(ss@, lo, hi, Grouping::Week, b@[y].key);
        }
        lemma_group_bounds(ss@, lo, hi, Grouping::Week, (0i32, 0u32, 0u32));
        assert(b@.take(0) =~= Seq::<Bucket>::empty());
    }
    while x < b.len()
        invariant
            0 <= x <= b@.len(),
            buckets_ok(b@, ss@, lo, hi, Grouping::Week),
            summary_input_ok(ss@),
            forall|y: int| 0 <= y < b@.len() ==> (#[trigger] b@[y]).total >= 0,
            period_total(ss@, lo, hi) <= i64::MAX,
            w@.len() == x,
            overtime as int == overtime_sum(w@),
            0 <= overtime <= bucket_sum(b@.take(x as int)),
            forall|y: int|
                0 <= y < x ==> {
                    &&& (#[trigger] w@[y]).total_seconds == b@[y].total
                    &&& w@[y].session_count == b@[y].count
                    &&& w@[y].iso_year == b@[y].key.0
                    &&& w@[y].week == b@[y].key.1
                    &&& w@[y].regular_seconds == regular_part(b@[y].total as int)
                    &&& w@[y].overtime_seconds == overtime_part(b@[y].total as int)
                    &&& w@[y].week_start@ == week_label_text(b@[y].key.0, b@[y].key.1)
                    &&& w@[y].week_end@ == week_label_text(b@[y].key.0, b@[y].key.1)
                },
        decreases b@.len() - x,
    {
        let e = b[x];
        let regular: i64 = if e.total < WEEKLY_REGULAR_SECONDS {
            e.total
        } else {
            WEEKLY_REGULAR_SECONDS
        };
        let extra: i64 = if e.total > WEEKLY_REGULAR_SECONDS {
            e.total - WEEKLY_REGULAR_SECONDS
        } else {
            0
        };
        proof {
            assert(b@.take(x as int + 1).drop_last() =~= b@.take(x as int));
            assert(b@.take(x as int + 1).last() == e);
            lemma_bucket_sum_prefix(b@, x as int + 1);
        }
        let ghost w0 = w@;
        overtime = overtime + extra;
        let label_start = week_label(e.key.0, e.key.1);
        let label_end = week_label(e.key.0, e.key.1);
        w.push(
            WeeklySummary {
                week_start: label_start,
                week_end: label_end,
                iso_year: e.key.0,
                week: e.key.1,
                regular_seconds: regular,
                overtime_seconds: extra,
                total_seconds: e.total,
                session_count: e.count,
            },
        );
        assert(w@.drop_last() =~= w0);
        x = x + 1;
    }
    proof {
        assert(b@.take(b@.len() as int) =~= b@);
        let keys = w@.map_values(|e: WeeklySummary| week_key(e));
        let bkeys = b@.map_values(|e: Bucket| e.key);
        assert forall|y: int| 0 <= y < b@.len() implies keys[y] == bkeys[y] by {
            lemma_week_key_shape(ss@, lo, hi, b@[y].key);
        }
        assert(keys =~= bkeys);
        lemma_buckets_cover(b@, ss@, lo, hi, Grouping::Week);
        assert forall|x: int| 0 <= x < w@.len() implies {
            &&& group_count(ss@, lo, hi, Grouping::Week, week_key(w@[x])) > 0
            &&& (#[trigger] w@[x]).total_seconds == group_total(
                ss@,
                lo,
                hi,
                Grouping::Week,
                week_key(w@[x]),
            )
            &&& w@[x].session_count == group_count(ss@, lo, hi, Grouping::Week, week_key(w@[x]))
        } by {
            assert(keys[x] == bkeys[x]);
            assert(b@[x].count > 0);
        }
    }
    w
}

/// Total, count and longest total of the sessions that start in `[lo, hi)`.
fn period_figures(ss: &Vec<Session>, lo: i64, hi: i64) -> (r: (i64, usize, i64))
    requires
        summary_input_ok(ss@),
    ensures
        r.0 == period_total(ss@, lo, hi),
        r.1 == period_count(ss@, lo, hi),
        r.2 == period_longest(ss@, lo, hi),
{
    let mut total: i64 = 0;
    let mut count: usize = 0;
    let mut longest: i64 = 0;
    let n = ss.len();
    let mut i: usize = 0;
    assert(ss@.take(0) =~= Seq::<Session>::empty());
    while i < n
        invariant
            n == ss@.len(),
            0 <= i <= n,
            summary_input_ok(ss@),
            total == period_total(ss@.take(i as int), lo, hi),
            count == period_count(ss@.take(i as int), lo, hi),
            longest == period_longest(ss@.take(i as int), lo, hi),
        decreases n - i,
    {
        let ghost grown = ss@.take(i as int + 1);
        assert(grown.drop_last() =~= ss@.take(i as int));
        assert(grown.last() == ss@[i as int]);
        assert forall|j: int| 0 <= j < grown.len() implies #[trigger] grown[j].total_seconds >= 0 by {
            assert(grown[j] == ss@[j]);
        }
        proof {
            lemma_group_bounds(grown, lo, hi, Grouping::Day, (0i32, 0u32, 0u32));
            lemma_all_seconds_prefix(ss@, i as int + 1);
        }
        let s = &ss[i];
        if lo <= s.start && s.start < hi {
            total = total + s.total_seconds;
            count = count + 1;
            if s.total_seconds > longest {
                longest = s.total_seconds;
            }
        }
        i = i + 1;
    }
    assert(ss@.take(n as int) =~= ss@);
    (total, count, longest)
}

/// The first instants (UTC) of a month and of the next one; `InvalidPeriod`
/// when the month does not exist.
pub fn month_bounds(year: i32, month: u32) -> (r: Result<(i64, i64), TimerError>)
    ensures
        match period_bounds(year, month) {
            None => r == Err::<(i64, i64), TimerError>(TimerError::InvalidPeriod),
            Some(b) => r == Ok::<(i64, i64), TimerError>(b),
        },
        (month < 1 || month > 12) ==> r is Err,
{
    if month < 1 || month > 12 {
        return Err(TimerError::InvalidPeriod);
    }
    let (next_year, next_month): (i32, u32) = if month == 12 {
        if year == i32::MAX {
            return Err(TimerError::InvalidPeriod);
        }
        (year + 1, 1)
    } else {
        (year, month + 1)
    };
    let lo = match month_start(year, month) {
        Some(t) => t,
        None => {
            return Err(TimerError::InvalidPeriod);
        },
    };
    let hi = match month_start(next_year, next_month) {
        Some(t) => t,
        None => {
            return Err(TimerError::InvalidPeriod);
        },
    };
    Ok((lo, hi))
}

/// Whether the sessions can be summarised: valid starts, totals that are not
/// negative, and a grand total that fits in an `i64`.
pub fn can_summarize(ss: &Vec<Session>) -> (r: bool)
    ensures
        r == summary_input_ok(ss@),
{
    let n = ss.len();
    let mut i: usize = 0;
    while i < n
        invariant
            n == ss@.len(),
            0 <= i <= n,
            forall|j: int| 0 <= j < i ==> valid_timestamp(#[trigger] ss@[j].start),
            forall|j: int| 0 <= j < i ==> #[trigger] ss@[j].total_seconds >= 0,
        decreases n - i,
    {
        if !is_valid_timestamp(ss[i].start) || ss[i].total_seconds < 0 {
            assert(!valid_timestamp(ss@[i as int].start) || ss@[i as int].total_seconds < 0);
            return false;
        }
        i = i + 1;
    }
    let mut acc: i64 = 0;
    let mut i: usize = 0;
    assert(ss@.take(0) =~= Seq::<Session>::empty());
    while i < n
        invariant
            n == ss@.len(),
            0 <= i <= n,
            forall|j: int| 0 <= j < n ==> #[trigger] ss@[j].total_seconds >= 0,
            acc == all_seconds(ss@.take(i as int)),
        decreases n - i,
    {
        assert(ss@.take(i as int + 1).drop_last() =~= ss@.take(i as int));
        assert(ss@.take(i as int + 1).last() == ss@[i as int]);
        if acc > i64::MAX - ss[i].total_seconds {
            proof {
                lemma_all_seconds_prefix(ss@, i as int + 1);
            }
            return false;
        }
        acc = acc + ss[i].total_seconds;
        i = i + 1;
    }
    assert(ss@.take(n as int) =~= ss@);
    true
}

/// Summary of the sessions that start in the given month (UTC): totals, the
/// longest session, daily and ISO-week breakdowns, and overtime beyond 40 hours
/// a week. Fails with `InvalidPeriod` when the month does not exist.
pub fn summarize_month(sessions: &Vec<Session>, year: i32, month: u32) -> (r: Result<
    MonthlySummary,
    TimerError,
>)
    requires
        summary_input_ok(sessions@),
    ensures
        match period_bounds(year, month) {
            None => r == Err::<MonthlySummary, TimerError>(TimerError::InvalidPeriod),
            Some((lo, hi)) => r matches Ok(m) && summary_ok(m, sessions@, year, month, lo, hi),
        },
        (month < 1 || month > 12) ==> r is Err,
{
    let (lo, hi) = match month_bounds(year, month) {
        Ok(b) => b,
        Err(e) => {
            return Err(e);
        },
    };
    let (total, count, longest) = period_figures(sessions, lo, hi);
    let days = collect_buckets(sessions, lo, hi, Grouping::Day);
    let weeks = collect_buckets(sessions, lo, hi, Grouping::Week);
    let daily = daily_breakdown(&days, sessions, lo, hi);
    let weekly = weekly_breakdown(&weeks, sessions, lo, hi);
    let overtime = weekly_overtime_total(&weekly);
    let m = MonthlySummary {
        year,
        month,
        total_seconds: total,
        regular_seconds: total - overtime,
        overtime_seconds: overtime,
        session_count: count,
        longest_session_seconds: longest,
        daily_breakdown: daily,
        weekly_breakdown: weekly,
    };
    proof {
        let keys = days@.map_values(|e: Bucket| e.key);
        assert(daily_ok_for(m.daily_breakdown@, keys, sessions@, lo, hi));
    }
    Ok(m)
}

/// A month without sessions has zero totals and empty breakdowns.
pub proof fn lemma_empty_month_summary(
    m: MonthlySummary,
    ss: Seq<Session>,
    year: i32,
    month: u32,
    lo: i64,
    hi: i64,
)
    requires
        summary_ok(m, ss, year, month, lo, hi),
        period_count(ss, lo, hi) == 0,
    ensures
        m.total_seconds == 0,
        m.session_count == 0,
        m.longest_session_seconds == 0,
        m.regular_seconds == 0,
        m.overtime_seconds == 0,
        m.daily_breakdown@.len() == 0,
        m.weekly_breakdown@.len() == 0,
{
    lemma_no_sessions(ss, lo, hi);
    if m.daily_breakdown@.len() > 0 {
        let keys = choose|keys: Seq<(i32, u32, u32)>|
            daily_ok_for(m.daily_breakdown@, keys, ss, lo, hi);
        let d0 = m.daily_breakdown@[0];
        assert(d0.session_count == group_count(ss, lo, hi, Grouping::Day, keys[0]));
    }
    if m.weekly_breakdown@.len() > 0 {
        assert(m.weekly_breakdown@[0].session_count > 0);
    }
}

proof fn lemma_no_sessions(ss: Seq<Session>, lo: i64, hi: i64)
    requires
        period_count(ss, lo, hi) == 0,
    ensures
        period_total(ss, lo, hi) == 0,
        period_longest(ss, lo, hi) == 0,
        forall|g: Grouping, k: (i32, u32, u32)| #[trigger] group_count(ss, lo, hi, g, k) == 0,
    decreases ss.len(),
{
    if ss.len() > 0 {
        lemma_no_sessions(ss.drop_last(), lo, hi);
        assert forall|g: Grouping, k: (i32, u32, u32)| #[trigger]
            group_count(ss, lo, hi, g, k) == 0 by {
            assert(group_count(ss.drop_last(), lo, hi, g, k) == 0);
        }
    }
}

/// Sum of the overtime of the weeks.
fn weekly_overtime_total(w: &Vec<WeeklySummary>) -> (r: i64)
    requires
        0 <= overtime_sum(w@) <= i64::MAX,
        forall|y: int| 0 <= y < w@.len() ==> (#[trigger] w@[y]).overtime_seconds >= 0,
    ensures
        r == overtime_sum(w@),
{
    let mut acc: i64 = 0;
    let mut x: usize = 0;
    assert(w@.take(0) =~= Seq::<WeeklySummary>::empty());
    while x < w.len()
        invariant
            0 <= x <= w@.len(),
            0 <= overtime_sum(w@) <= i64::MAX,
            forall|y: int| 0 <= y < w@.len() ==> (#[trigger] w@[y]).overtime_seconds >= 0,
            acc == overtime_sum(w@.take(x as int)),
        decreases w@.len() - x,
    {
        assert(w@.take(x as int + 1).drop_last() =~= w@.take(x as int));
        proof {
            lemma_overtime_prefix(w@, x as int + 1);
        }
        acc = acc + w[x].overtime_seconds;
        x = x + 1;
    }
    assert(w@.take(x as int) =~= w@);
    acc
}

proof fn lemma_overtime_prefix(w: Seq<WeeklySummary>, i: int)
    requires
        0 <= i <= w.len(),
        forall|y: int| 0 <= y < w.len() ==> (#[trigger] w[y]).overtime_seconds >= 0,
    ensures
        0 <= overtime_sum(w.take(i)) <= overtime_sum(w),
    decreases w.len(),
{
    if w.len() > 0 {
        let q = w.drop_last();
        assert forall|y: int| 0 <= y < q.len() implies (#[trigger] q[y]).overtime_seconds >= 0 by {
            assert(q[y] == w[y]);
        }
        assert(w.last() == w[w.len() - 1]);
        if i == w.len() {
            lemma_overtime_prefix(q, q.len() as int);
            assert(q.take(q.len() as int) =~= q);
        } else {
            lemma_overtime_prefix(q, i);
            assert(q.take(i) =~= w.take(i));
        }
    }
    if i == w.len() {
        assert(w.take(i) =~= w);
    }
}

} // verus!
