//! The queries over the log: all-time total per user, total per user and day,
//! and running total per user and day.

use vstd::prelude::*;
use crate::model::LogEntry;
use crate::stats::StatManager;
use crate::time::MICROS_PER_DAY;

verus! {

/// The most rows a query takes: their durations then add up within `u64`.
pub const MAX_ROWS: usize = 100_000_000;

/// Every row is valid.
pub open spec fn rows_wf(rows: Seq<LogEntry>) -> bool {
    forall|i: int| 0 <= i < rows.len() ==> (#[trigger] rows[i]).wf()
}

/// Which rows a sum counts.
#[derive(Clone, Copy, Debug, PartialEq, Eq, Structural)]
pub enum Selector {
    /// The rows of one user.
    User(u64),
    /// The rows of one user on one day.
    UserDay(u64, i32),
    /// The rows of one user on one day or before it.
    UserThrough(u64, i32),
}

impl Selector {
    pub open spec fn picks(self, e: LogEntry) -> bool {
        match self {
            Selector::User(u) => e.user_id == u,
            Selector::UserDay(u, d) => e.user_id == u && e.day == d,
            Selector::UserThrough(u, d) => e.user_id == u && e.day <= d,
        }
    }

    /// What a row adds to the sum: its duration where it is counted, else 0.
    pub open spec fn part(self, e: LogEntry) -> int {
        if self.picks(e) {
            e.duration()
        } else {
            0
        }
    }

    fn picks_exec(&self, e: &LogEntry) -> (r: bool)
        ensures
            r == self.picks(*e),
    {
        match self {
            Selector::User(u) => e.user_id == *u,
            Selector::UserDay(u, d) => e.user_id == *u && e.day == *d,
            Selector::UserThrough(u, d) => e.user_id == *u && e.day <= *d,
        }
    }
}

/// The sum of the durations of the rows that `sel` counts.
pub open spec fn sum_over(rows: Seq<LogEntry>, sel: Selector) -> int
    decreases rows.len(),
{
    if rows.len() == 0 {
        0
    } else {
        sum_over(rows.drop_last(), sel) + sel.part(rows.last())
    }
}

/// All-time online time of `user_id`.
pub open spec fn user_total(rows: Seq<LogEntry>, user_id: u64) -> int {
    sum_over(rows, Selector::User(user_id))
}

/// Online time of `user_id` on `day`.
pub open spec fn day_total(rows: Seq<LogEntry>, user_id: u64, day: i32) -> int {
    sum_over(rows, Selector::UserDay(user_id, day))
}

/// Online time of `user_id` on `day` and every day before.
pub open spec fn total_through(rows: Seq<LogEntry>, user_id: u64, day: i32) -> int {
    sum_over(rows, Selector::UserThrough(user_id, day))
}

pub proof fn lemma_sum_push(rows: Seq<LogEntry>, e: LogEntry, sel: Selector)
    ensures
        sum_over(rows.push(e), sel) == sum_over(rows, sel) + sel.part(e),
{
    assert(rows.push(e).drop_last() =~= rows);
}

pub proof fn lemma_sum_bounds(rows: Seq<LogEntry>, sel: Selector)
    requires
        rows_wf(rows),
    ensures
        0 <= sum_over(rows, sel) <= rows.len() * MICROS_PER_DAY,
    decreases rows.len(),
{
    if rows.len() > 0 {
        assert(rows.last().wf());
        lemma_sum_bounds(rows.drop_last(), sel);
    }
}

/// Sums the durations of the rows that `sel` counts.
pub fn sum_selected(rows: &Vec<LogEntry>, sel: Selector) -> (r: u64)
    requires
        rows_wf(rows@),
        rows@.len() <= MAX_ROWS,
    ensures
        r == sum_over(rows@, sel),
{
    let mut total: u64 = 0;
    let mut i: usize = 0;
    while i < rows.len()
        invariant
            i <= rows@.len() <= MAX_ROWS,
            rows_wf(rows@),
            total == sum_over(rows@.take(i as int), sel),
        decreases rows@.len() - i,
    {
        let e = rows[i];
        assert(rows@.take(i + 1) =~= rows@.take(i as int).push(e));
        proof {
            lemma_sum_push(rows@.take(i as int), e, sel);
            assert(rows_wf(rows@.take(i + 1)));
            lemma_sum_bounds(rows@.take(i + 1), sel);
            assert((i + 1) * MICROS_PER_DAY <= MAX_ROWS * MICROS_PER_DAY) by (nonlinear_arith)
                requires
                    i + 1 <= MAX_ROWS,
            ;
        }
        if sel.picks_exec(&e) {
            total = total + (e.online_time_end - e.online_time_start);
        }
        i = i + 1;
    }
    assert(rows@.take(i as int) =~= rows@);
    total
}

/// The days of `s` strictly increase.
pub open spec fn days_increasing(s: Seq<(i32, u64)>) -> bool {
    forall|i: int, j: int| 0 <= i < j < s.len() ==> (#[trigger] s[i]).0 < (#[trigger] s[j]).0
}

/// The values of `s` strictly increase.
pub open spec fn strictly_increasing(s: Seq<i32>) -> bool {
    forall|i: int, j: int| 0 <= i < j < s.len() ==> (#[trigger] s[i]) < (#[trigger] s[j])
}

/// No value occurs twice in `s`.
pub open spec fn distinct(s: Seq<u64>) -> bool {
    forall|i: int, j: int| 0 <= i < j < s.len() ==> (#[trigger] s[i]) != (#[trigger] s[j])
}

/// Puts `day` into the increasing sequence `days` where it belongs.
fn insert_sorted(days: &mut Vec<i32>, day: i32)
    requires
        strictly_increasing(old(days)@),
        !old(days)@.contains(day),
    ensures
        strictly_increasing(final(days)@),
        forall|d: i32| #[trigger] final(days)@.contains(d) <==> (old(days)@.contains(d) || d == day),
{
    let mut p: usize = 0;
    while p < days.len() && days[p] < day
        invariant
            p <= days@.len(),
            days@ == old(days)@,
            forall|k: int| 0 <= k < p ==> days@[k] < day,
        decreases days@.len() - p,
    {
        p = p + 1;
    }
    let ghost before = days@;
    days.insert(p, day);
    assert forall|k: int| p <= k < before.len() implies before[k] > day by {
        assert(before[k] != day);
        if before[k] < day {
            assert(before[p as int] <= before[k]);
        }
    }
    assert forall|d: i32| #[trigger] days@.contains(d) <==> (before.contains(d) || d == day) by {
        if days@.contains(d) {
            let k = choose|k: int| 0 <= k < days@.len() && days@[k] == d;
            if k < p {
                assert(before[k] == d);
            } else if k > p {
                assert(before[k - 1] == d);
            }
        }
        if before.contains(d) {
            let k = choose|k: int| 0 <= k < before.len() && before[k] == d;
            if k < p {
                assert(days@[k] == d);
            } else {
                assert(days@[k + 1] == d);
            }
        }
        if d == day {
            assert(days@[p as int] == d);
        }
    }
}

/// The users with positive online time, each once, in the order in which
/// their first row of positive duration comes.
pub fn active_users(rows: &Vec<LogEntry>) -> (r: Vec<u64>)
    requires
        rows_wf(rows@),
    ensures
        distinct(r@),
        forall|k: int| 0 <= k < r@.len() ==> user_total(rows@, #[trigger] r@[k]) > 0,
        forall|u: u64| user_total(rows@, u) > 0 ==> #[trigger] r@.contains(u),
{
    let mut users: Vec<u64> = Vec::new();
    let mut i: usize = 0;
    while i < rows.len()
        invariant
            i <= rows@.len(),
            rows_wf(rows@),
            distinct(users@),
            forall|k: int|
                0 <= k < users@.len() ==> user_total(rows@.take(i as int), #[trigger] users@[k]) > 0,
            forall|u: u64| user_total(rows@.take(i as int), u) > 0 ==> #[trigger] users@.contains(u),
        decreases rows@.len() - i,
    {
        let e = rows[i];
        let ghost pre = rows@.take(i as int);
        assert(rows@.take(i + 1) =~= pre.push(e));
        assert(rows_wf(pre));
        assert(e.wf());
        let mut known = false;
        let mut k: usize = 0;
        while k < users.len()
            invariant
                k <= users@.len(),
                known ==> users@.contains(e.user_id),
                !known ==> forall|j: int| 0 <= j < k ==> users@[j] != e.user_id,
            decreases users@.len() - k,
        {
            if users[k] == e.user_id {
                known = true;
            }
            k = k + 1;
        }
        let ghost before = users@;
        if !known && e.online_time_start < e.online_time_end {
            users.push(e.user_id);
        }
        proof {
            assert forall|j: int| 0 <= j < users@.len() implies user_total(
                rows@.take(i + 1),
                #[trigger] users@[j],
            ) > 0 by {
                lemma_sum_push(pre, e, Selector::User(users@[j]));
                lemma_sum_bounds(pre, Selector::User(users@[j]));
                if j < before.len() {
                    assert(users@[j] == before[j]);
                }
            }
            assert forall|u: u64| user_total(rows@.take(i + 1), u) > 0 implies #[trigger] users@.contains(u) by {
                lemma_sum_push(pre, e, Selector::User(u));
                if user_total(pre, u) > 0 {
                    assert(before.contains(u));
                    let j = choose|j: int| 0 <= j < before.len() && before[j] == u;
                    assert(users@[j] == u);
                } else {
                    assert(u == e.user_id);
                    if known {
                        assert(before.contains(u));
                        let j = choose|j: int| 0 <= j < before.len() && before[j] == u;
                        assert(users@[j] == u);
                    } else {
                        assert(users@[before.len() as int] == u);
                    }
                }
            }
        }
        i = i + 1;
    }
    assert(rows@.take(i as int) =~= rows@);
    users
}

/// The days on which `user_id` has positive online time, in increasing order.
pub fn active_days(rows: &Vec<LogEntry>, user_id: u64) -> (r: Vec<i32>)
    requires
        rows_wf(rows@),
    ensures
        strictly_increasing(r@),
        forall|k: int| 0 <= k < r@.len() ==> day_total(rows@, user_id, #[trigger] r@[k]) > 0,
        forall|d: i32| day_total(rows@, user_id, d) > 0 ==> #[trigger] r@.contains(d),
{
    let mut days: Vec<i32> = Vec::new();
    let mut i: usize = 0;
    while i < rows.len()
        invariant
            i <= rows@.len(),
            rows_wf(rows@),
            strictly_increasing(days@),
            forall|k: int|
                0 <= k < days@.len() ==> day_total(rows@.take(i as int), user_id, #[trigger] days@[k])
                    > 0,
            forall|d: i32|
                day_total(rows@.take(i as int), user_id, d) > 0 ==> #[trigger] days@.contains(d),
        decreases rows@.len() - i,
    {
        let e = rows[i];
        let ghost pre = rows@.take(i as int);
        assert(rows@.take(i + 1) =~= pre.push(e));
        assert(rows_wf(pre));
        assert(e.wf());
        let ghost before = days@;
        if e.user_id == user_id && e.online_time_start < e.online_time_end {
            let mut known = false;
            let mut k: usize = 0;
            while k < days.len()
                invariant
                    k <= days@.len(),
                    known ==> days@.contains(e.day),
                    !known ==> forall|j: int| 0 <= j < k ==> days@[j] != e.day,
                decreases days@.len() - k,
            {
                if days[k] == e.day {
                    known = true;
                }
                k = k + 1;
            }
            if !known {
                insert_sorted(&mut days, e.day);
            }
        }
        proof {
            assert forall|j: int| 0 <= j < days@.len() implies day_total(
                rows@.take(i + 1),
                user_id,
                #[trigger] days@[j],
            ) > 0 by {
                let d = days@[j];
                lemma_sum_push(pre, e, Selector::UserDay(user_id, d));
                lemma_sum_bounds(pre, Selector::UserDay(user_id, d));
                assert(days@.contains(d));
                if before.contains(d) {
                    let m = choose|m: int| 0 <= m < before.len() && before[m] == d;
                    assert(day_total(pre, user_id, before[m]) > 0);
                }
            }
            assert forall|d: i32| day_total(rows@.take(i + 1), user_id, d) > 0 implies #[trigger] days@.contains(d) by {
                lemma_sum_push(pre, e, Selector::UserDay(user_id, d));
                if day_total(pre, user_id, d) > 0 {
                    assert(before.contains(d));
                }
            }
        }
        i = i + 1;
    }
    assert(rows@.take(i as int) =~= rows@);
    days
}

/// `r` names each user with positive online time once, with that time, and
/// no other user.
pub open spec fn totals_exact(r: Seq<(u64, u64)>, rows: Seq<LogEntry>) -> bool {
    &&& forall|i: int, j: int| 0 <= i < j < r.len() ==> (#[trigger] r[i]).0 != (#[trigger] r[j]).0
    &&& forall|k: int|
        0 <= k < r.len() ==> (#[trigger] r[k]).1 == user_total(rows, r[k].0) && r[k].1 > 0
    &&& forall|u: u64|
        user_total(rows, u) > 0 ==> exists|k: int| 0 <= k < r.len() && (#[trigger] r[k]).0 == u
}

/// `s` gives, day by day in increasing order, each day on which `user_id`
/// has positive online time: with that day's time where `running` is
/// false, with the time of that day and all before it where it is true.
pub open spec fn series_exact(
    s: Seq<(i32, u64)>,
    rows: Seq<LogEntry>,
    user_id: u64,
    running: bool,
) -> bool {
    &&& days_increasing(s)
    &&& forall|k: int|
        0 <= k < s.len() ==> day_total(rows, user_id, (#[trigger] s[k]).0) > 0 && s[k].1 == (
        if running {
            total_through(rows, user_id, s[k].0)
        } else {
            day_total(rows, user_id, s[k].0)
        })
    &&& forall|d: i32|
        day_total(rows, user_id, d) > 0 ==> exists|k: int| 0 <= k < s.len() && (#[trigger] s[k]).0 == d
}

/// `r` names each user with positive online time once, with that user's
/// series, and no other user.
pub open spec fn report_exact(r: Seq<(u64, Vec<(i32, u64)>)>, rows: Seq<LogEntry>, running: bool) -> bool {
    &&& forall|i: int, j: int| 0 <= i < j < r.len() ==> (#[trigger] r[i]).0 != (#[trigger] r[j]).0
    &&& forall|k: int|
        0 <= k < r.len() ==> user_total(rows, (#[trigger] r[k]).0) > 0 && series_exact(
            r[k].1@,
            rows,
            r[k].0,
            running,
        )
    &&& forall|u: u64|
        user_total(rows, u) > 0 ==> exists|k: int| 0 <= k < r.len() && (#[trigger] r[k]).0 == u
}


/// The series of `user_id`: per day, or running where `running` holds.
fn user_series(rows: &Vec<LogEntry>, user_id: u64, running: bool) -> (r: Vec<(i32, u64)>)
    requires
        rows_wf(rows@),
        rows@.len() <= MAX_ROWS,
    ensures
        series_exact(r@, rows@, user_id, running),
{
    let days = active_days(rows, user_id);
    let mut out: Vec<(i32, u64)> = Vec::new();
    let mut k: usize = 0;
    while k < days.len()
        invariant
            k <= days@.len(),
            rows_wf(rows@),
            rows@.len() <= MAX_ROWS,
            out@.len() == k,
            forall|j: int|
                0 <= j < k ==> (#[trigger] out@[j]).0 == days@[j] && out@[j].1 == (if running {
                    total_through(rows@, user_id, days@[j])
                } else {
                    day_total(rows@, user_id, days@[j])
                }),
        decreases days@.len() - k,
    {
        let d = days[k];
        let sel = if running {
            Selector::UserThrough(user_id, d)
        } else {
            Selector::UserDay(user_id, d)
        };
        let t = sum_selected(rows, sel);
        out.push((d, t));
        k = k + 1;
    }
    assert forall|d: i32| day_total(rows@, user_id, d) > 0 implies exists|j: int| 0 <= j < out@.len() && (#[trigger] out@[j]).0 == d by {
        assert(days@.contains(d));
        let j = choose|j: int| 0 <= j < days@.len() && days@[j] == d;
        assert(out@[j].0 == d);
    }
    assert forall|k: int| 0 <= k < out@.len() implies day_total(rows@, user_id, (#[trigger] out@[k]).0) > 0 by {
        assert(day_total(rows@, user_id, days@[k]) > 0);
    }
    assert forall|i: int, j: int| 0 <= i < j < out@.len() implies (#[trigger] out@[i]).0 < (#[trigger] out@[j]).0 by {
        assert(days@[i] < days@[j]);
    }
    out
}

/// The series of every user with positive online time.
fn report(rows: &Vec<LogEntry>, running: bool) -> (r: Vec<(u64, Vec<(i32, u64)>)>)
    requires
        rows_wf(rows@),
        rows@.len() <= MAX_ROWS,
    ensures
        report_exact(r@, rows@, running),
{
    let users = active_users(rows);
    let mut out: Vec<(u64, Vec<(i32, u64)>)> = Vec::new();
    let mut k: usize = 0;
    while k < users.len()
        invariant
            k <= users@.len(),
            rows_wf(rows@),
            rows@.len() <= MAX_ROWS,
            out@.len() == k,
            forall|j: int|
                0 <= j < k ==> (#[trigger] out@[j]).0 == users@[j] && series_exact(
                    out@[j].1@,
                    rows@,
                    users@[j],
                    running,
                ),
        decreases users@.len() - k,
    {
        let u = users[k];
        let s = user_series(rows, u, running);
        out.push((u, s));
        k = k + 1;
    }
    assert forall|u: u64| user_total(rows@, u) > 0 implies exists|j: int| 0 <= j < out@.len() && (#[trigger] out@[j]).0 == u by {
        assert(users@.contains(u));
        let j = choose|j: int| 0 <= j < users@.len() && users@[j] == u;
        assert(out@[j].0 == u);
    }
    assert forall|k: int| 0 <= k < out@.len() implies user_total(rows@, (#[trigger] out@[k]).0) > 0 by {
        assert(user_total(rows@, users@[k]) > 0);
    }
    assert forall|i: int, j: int| 0 <= i < j < out@.len() implies (#[trigger] out@[i]).0 != (#[trigger] out@[j]).0 by {
        assert(users@[i] != users@[j]);
    }
    out
}




/// Sum of the values of the first `n` items of `s`.
pub open spec fn prefix_sum(s: Seq<(i32, u64)>, n: int) -> int
    decreases n,
{
    if n <= 0 {
        0
    } else {
        prefix_sum(s, n - 1) + s[n - 1].1
    }
}

proof fn lemma_prefix_sum_monotone(s: Seq<(i32, u64)>, m: int, n: int)
    requires
        0 <= m <= n,
    ensures
        prefix_sum(s, m) <= prefix_sum(s, n),
    decreases n - m,
{
    if m < n {
        lemma_prefix_sum_monotone(s, m, n - 1);
    }
}

/// Turns a per-day series into a running one: each day keeps its place and
/// gets the sum of its own value and all values before it.
pub fn running_totals(series: &Vec<(i32, u64)>) -> (r: Vec<(i32, u64)>)
    requires
        prefix_sum(series@, series@.len() as int) <= u64::MAX,
    ensures
        r@.len() == series@.len(),
        forall|k: int|
            0 <= k < r@.len() ==> (#[trigger] r@[k]).0 == series@[k].0 && r@[k].1 == prefix_sum(
                series@,
                k + 1,
            ),
{
    let mut out: Vec<(i32, u64)> = Vec::new();
    let mut acc: u64 = 0;
    let mut k: usize = 0;
    while k < series.len()
        invariant
            k <= series@.len(),
            prefix_sum(series@, series@.len() as int) <= u64::MAX,
            acc == prefix_sum(series@, k as int),
            out@.len() == k,
            forall|j: int|
                0 <= j < k ==> (#[trigger] out@[j]).0 == series@[j].0 && out@[j].1 == prefix_sum(
                    series@,
                    j + 1,
                ),
        decreases series@.len() - k,
    {
        proof {
            lemma_prefix_sum_monotone(series@, k + 1, series@.len() as int);
        }
        let (d, t) = series[k];
        acc = acc + t;
        out.push((d, acc));
        k = k + 1;
    }
    out
}

/// Sum of the day totals of `user_id` on the first `n` days of `days`.
pub open spec fn day_sum(rows: Seq<LogEntry>, user_id: u64, days: Seq<i32>, n: int) -> int
    decreases n,
{
    if n <= 0 {
        0
    } else {
        day_sum(rows, user_id, days, n - 1) + day_total(rows, user_id, days[n - 1])
    }
}

/// How often `day` occurs among the first `n` days of `days`.
pub open spec fn count_in(days: Seq<i32>, n: int, day: i32) -> int
    decreases n,
{
    if n <= 0 {
        0
    } else {
        count_in(days, n - 1, day) + if days[n - 1] == day {
            1int
        } else {
            0int
        }
    }
}

proof fn lemma_day_sum_push(rows: Seq<LogEntry>, e: LogEntry, user_id: u64, days: Seq<i32>, n: int)
    requires
        0 <= n <= days.len(),
    ensures
        day_sum(rows.push(e), user_id, days, n) == day_sum(rows, user_id, days, n) + count_in(
            days,
            n,
            e.day,
        ) * Selector::User(user_id).part(e),
    decreases n,
{
    if n > 0 {
        lemma_day_sum_push(rows, e, user_id, days, n - 1);
        lemma_sum_push(rows, e, Selector::UserDay(user_id, days[n - 1]));
        assert(count_in(days, n, e.day) * Selector::User(user_id).part(e) == count_in(days, n - 1, e.day)
            * Selector::User(user_id).part(e) + (if days[n - 1] == e.day {
            Selector::User(user_id).part(e)
        } else {
            0
        })) by (nonlinear_arith)
            requires
                count_in(days, n, e.day) == count_in(days, n - 1, e.day) + if days[n - 1] == e.day {
                    1int
                } else {
                    0int
                },
        ;
    }
}

proof fn lemma_count_in(days: Seq<i32>, n: int, day: i32)
    requires
        0 <= n <= days.len(),
        strictly_increasing(days),
    ensures
        count_in(days, n, day) == if exists|j: int| 0 <= j < n && #[trigger] days[j] == day {
            1int
        } else {
            0int
        },
    decreases n,
{
    if n > 0 {
        lemma_count_in(days, n - 1, day);
        if days[n - 1] == day {
            if exists|j: int| 0 <= j < n - 1 && #[trigger] days[j] == day {
                let j = choose|j: int| 0 <= j < n - 1 && #[trigger] days[j] == day;
                assert(days[j] < days[n - 1]);
            }
        } else {
            if exists|j: int| 0 <= j < n && #[trigger] days[j] == day {
                let j = choose|j: int| 0 <= j < n && #[trigger] days[j] == day;
                assert(j < n - 1);
            }
        }
    }
}

proof fn lemma_through_is_day_sum(rows: Seq<LogEntry>, user_id: u64, days: Seq<i32>, k: int)
    requires
        rows_wf(rows),
        strictly_increasing(days),
        0 <= k < days.len(),
        forall|d: i32| day_total(rows, user_id, d) > 0 ==> #[trigger] days.contains(d),
    ensures
        total_through(rows, user_id, days[k]) == day_sum(rows, user_id, days, k + 1),
    decreases rows.len(),
{
    if rows.len() == 0 {
        lemma_day_sum_zero(rows, user_id, days, k + 1);
    } else {
        let init = rows.drop_last();
        let e = rows.last();
        assert(rows =~= init.push(e));
        assert(e.wf());
        assert forall|d: i32| day_total(init, user_id, d) > 0 implies #[trigger] days.contains(d) by {
            lemma_sum_push(init, e, Selector::UserDay(user_id, d));
        }
        lemma_through_is_day_sum(init, user_id, days, k);
        lemma_sum_push(init, e, Selector::UserThrough(user_id, days[k]));
        lemma_day_sum_push(init, e, user_id, days, k + 1);
        lemma_count_in(days, k + 1, e.day);
        if e.user_id == user_id && e.duration() > 0 {
            lemma_sum_bounds(init, Selector::UserDay(user_id, e.day));
            lemma_sum_push(init, e, Selector::UserDay(user_id, e.day));
            assert(days.contains(e.day));
            let m = choose|m: int| 0 <= m < days.len() && days[m] == e.day;
            if m <= k {
                if m < k {
                    assert(days[m] < days[k]);
                }
            } else {
                assert(days[k] < days[m]);
                assert forall|j: int| 0 <= j < k + 1 implies #[trigger] days[j] != e.day by {
                    assert(days[j] < days[m]);
                }
            }
        }
    }
}

proof fn lemma_day_sum_zero(rows: Seq<LogEntry>, user_id: u64, days: Seq<i32>, n: int)
    requires
        rows.len() == 0,
    ensures
        day_sum(rows, user_id, days, n) == 0,
    decreases n,
{
    if n > 0 {
        lemma_day_sum_zero(rows, user_id, days, n - 1);
    }
}

proof fn lemma_prefix_is_day_sum(rows: Seq<LogEntry>, user_id: u64, s: Seq<(i32, u64)>, n: int)
    requires
        0 <= n <= s.len(),
        forall|k: int| 0 <= k < s.len() ==> (#[trigger] s[k]).1 == day_total(rows, user_id, s[k].0),
    ensures
        prefix_sum(s, n) == day_sum(rows, user_id, s.map_values(|p: (i32, u64)| p.0), n),
    decreases n,
{
    if n > 0 {
        lemma_prefix_is_day_sum(rows, user_id, s, n - 1);
        assert(s[n - 1].1 == day_total(rows, user_id, s[n - 1].0));
    }
}

/// `day` is a day of `s`.
pub open spec fn has_day(s: Seq<(i32, u64)>, day: i32) -> bool {
    exists|i: int| 0 <= i < s.len() && (#[trigger] s[i]).0 == day
}

/// Two day-ordered series with the same days hold them at the same places.
proof fn lemma_same_days(a: Seq<(i32, u64)>, b: Seq<(i32, u64)>)
    requires
        days_increasing(a),
        days_increasing(b),
        forall|d: i32| #[trigger] has_day(a, d) <==> has_day(b, d),
    ensures
        a.len() == b.len(),
        forall|i: int| 0 <= i < a.len() ==> (#[trigger] a[i]).0 == b[i].0,
{
    let n = if a.len() < b.len() { a.len() } else { b.len() };
    assert forall|i: int| 0 <= i < n implies (#[trigger] a[i]).0 == b[i].0 by {
        lemma_same_days_at(a, b, i);
    }
    if a.len() > b.len() {
        let d = a[n as int].0;
        assert(has_day(a, d));
        let j = choose|j: int| 0 <= j < b.len() && (#[trigger] b[j]).0 == d;
        assert(a[j].0 == b[j].0);
        assert(a[j].0 < a[n as int].0);
    } else if b.len() > a.len() {
        let d = b[n as int].0;
        assert(has_day(b, d));
        assert(has_day(a, d));
        let i = choose|i: int| 0 <= i < a.len() && (#[trigger] a[i]).0 == d;
        assert(a[i].0 == b[i].0);
        assert(b[i].0 < b[n as int].0);
    }
}

proof fn lemma_same_days_at(a: Seq<(i32, u64)>, b: Seq<(i32, u64)>, i: int)
    requires
        days_increasing(a),
        days_increasing(b),
        forall|d: i32| #[trigger] has_day(a, d) <==> has_day(b, d),
        0 <= i < a.len(),
        i < b.len(),
    ensures
        a[i].0 == b[i].0,
    decreases i,
{
    if i > 0 {
        lemma_same_days_at(a, b, i - 1);
    }
    assert forall|k: int| 0 <= k < i implies (#[trigger] a[k]).0 == b[k].0 by {
        if k < i - 1 {
            lemma_same_days_at(a, b, k);
        }
    }
    if a[i].0 < b[i].0 {
        let d = a[i].0;
        assert(has_day(a, d));
        let j = choose|j: int| 0 <= j < b.len() && (#[trigger] b[j]).0 == d;
        if j < i {
            assert(a[j].0 == b[j].0);
            assert(a[j].0 < a[i].0);
        } else if j > i {
            assert(b[i].0 < b[j].0);
        }
    } else if b[i].0 < a[i].0 {
        let d = b[i].0;
        assert(has_day(b, d));
        assert(has_day(a, d));
        let j = choose|j: int| 0 <= j < a.len() && (#[trigger] a[j]).0 == d;
        if j < i {
            assert(a[j].0 == b[j].0);
            assert(b[j].0 < b[i].0);
        } else if j > i {
            assert(a[i].0 < a[j].0);
        }
    }
}

/// A user's running series is the running sum of the same user's per-day
/// series: the same days, each with the sum of the per-day values up to and
/// including it.
pub proof fn lemma_running_from_per_day(
    rows: Seq<LogEntry>,
    user_id: u64,
    per_day: Seq<(i32, u64)>,
    running: Seq<(i32, u64)>,
)
    requires
        rows_wf(rows),
        series_exact(per_day, rows, user_id, false),
        series_exact(running, rows, user_id, true),
    ensures
        running.len() == per_day.len(),
        forall|k: int|
            0 <= k < running.len() ==> (#[trigger] running[k]).0 == per_day[k].0 && running[k].1
                == prefix_sum(per_day, k + 1),
{
    assert forall|d: i32| #[trigger] has_day(per_day, d) <==> has_day(running, d) by {
        if exists|i: int| 0 <= i < per_day.len() && (#[trigger] per_day[i]).0 == d {
            let i = choose|i: int| 0 <= i < per_day.len() && (#[trigger] per_day[i]).0 == d;
            assert(day_total(rows, user_id, per_day[i].0) > 0);
        }
        if exists|j: int| 0 <= j < running.len() && (#[trigger] running[j]).0 == d {
            let j = choose|j: int| 0 <= j < running.len() && (#[trigger] running[j]).0 == d;
            assert(day_total(rows, user_id, running[j].0) > 0);
        }
    }
    lemma_same_days(per_day, running);
    let days = per_day.map_values(|p: (i32, u64)| p.0);
    assert forall|i: int, j: int| 0 <= i < j < days.len() implies (#[trigger] days[i]) < (#[trigger] days[j]) by {
        assert(per_day[i].0 < per_day[j].0);
    }
    assert forall|d: i32| day_total(rows, user_id, d) > 0 implies #[trigger] days.contains(d) by {
        let k = choose|k: int| 0 <= k < per_day.len() && (#[trigger] per_day[k]).0 == d;
        assert(days[k] == d);
    }
    assert forall|k: int|
        0 <= k < running.len() implies (#[trigger] running[k]).0 == per_day[k].0 && running[k].1
            == prefix_sum(per_day, k + 1) by {
        lemma_through_is_day_sum(rows, user_id, days, k);
        lemma_prefix_is_day_sum(rows, user_id, per_day, k + 1);
        assert(days[k] == per_day[k].0);
    }
}

/// `user_id` has a series in `r`.
pub open spec fn has_user(r: Seq<(u64, Vec<(i32, u64)>)>, user_id: u64) -> bool {
    exists|j: int| 0 <= j < r.len() && (#[trigger] r[j]).0 == user_id
}

/// `running` is `per_day` summed up: the same days, each with the sum of the
/// per-day values up to and including it.
pub open spec fn sums_up(running: Seq<(i32, u64)>, per_day: Seq<(i32, u64)>) -> bool {
    &&& running.len() == per_day.len()
    &&& forall|k: int|
        0 <= k < running.len() ==> (#[trigger] running[k]).0 == per_day[k].0 && running[k].1
            == prefix_sum(per_day, k + 1)
}

/// The running report is the per-day report summed up: the same users, and
/// for each user the running series sums up the per-day series.
pub proof fn lemma_reports_agree(
    rows: Seq<LogEntry>,
    per_day: Seq<(u64, Vec<(i32, u64)>)>,
    running: Seq<(u64, Vec<(i32, u64)>)>,
)
    requires
        rows_wf(rows),
        report_exact(per_day, rows, false),
        report_exact(running, rows, true),
    ensures
        forall|i: int| 0 <= i < per_day.len() ==> has_user(running, (#[trigger] per_day[i]).0),
        forall|j: int| 0 <= j < running.len() ==> has_user(per_day, (#[trigger] running[j]).0),
        forall|i: int, j: int|
            0 <= i < per_day.len() && 0 <= j < running.len() && (#[trigger] per_day[i]).0 == (
            #[trigger] running[j]).0 ==> sums_up(running[j].1@, per_day[i].1@),
{
    assert forall|i: int| 0 <= i < per_day.len() implies has_user(running, (#[trigger] per_day[i]).0) by {
        assert(user_total(rows, per_day[i].0) > 0);
    }
    assert forall|j: int| 0 <= j < running.len() implies has_user(per_day, (#[trigger] running[j]).0) by {
        assert(user_total(rows, running[j].0) > 0);
    }
    assert forall|i: int, j: int|
        0 <= i < per_day.len() && 0 <= j < running.len() && (#[trigger] per_day[i]).0 == (
        #[trigger] running[j]).0 implies sums_up(running[j].1@, per_day[i].1@) by {
        lemma_running_from_per_day(rows, per_day[i].0, per_day[i].1@, running[j].1@);
    }
}

impl StatManager {
    /// The all-time online time of each user that has any.
    pub fn absolute_sum_time_iter(rows: &Vec<LogEntry>) -> (r: Vec<(u64, u64)>)
        requires
            rows_wf(rows@),
            rows@.len() <= MAX_ROWS,
        ensures
            totals_exact(r@, rows@),
    {
        let users = active_users(rows);
        let mut out: Vec<(u64, u64)> = Vec::new();
        let mut k: usize = 0;
        while k < users.len()
            invariant
                k <= users@.len(),
                rows_wf(rows@),
                rows@.len() <= MAX_ROWS,
                out@.len() == k,
                forall|j: int| 0 <= j < k ==> (#[trigger] out@[j]).0 == users@[j] && out@[j].1 == user_total(rows@, users@[j]),
            decreases users@.len() - k,
        {
            let u = users[k];
            let t = sum_selected(rows, Selector::User(u));
            out.push((u, t));
            k = k + 1;
        }
        assert forall|u: u64| user_total(rows@, u) > 0 implies exists|j: int| 0 <= j < out@.len() && (#[trigger] out@[j]).0 == u by {
            assert(users@.contains(u));
            let j = choose|j: int| 0 <= j < users@.len() && users@[j] == u;
            assert(out@[j].0 == u);
        }
        assert forall|k: int| 0 <= k < out@.len() implies (#[trigger] out@[k]).1 == user_total(rows@, out@[k].0) && out@[k].1 > 0 by {
            assert(user_total(rows@, users@[k]) > 0);
        }
        assert forall|i: int, j: int| 0 <= i < j < out@.len() implies (#[trigger] out@[i]).0 != (#[trigger] out@[j]).0 by {
            assert(users@[i] != users@[j]);
        }
        out
    }

    /// The online time of each user, per day, for the days that have any.
    pub fn time_per_day_iter(rows: &Vec<LogEntry>) -> (r: Vec<(u64, Vec<(i32, u64)>)>)
        requires
            rows_wf(rows@),
            rows@.len() <= MAX_ROWS,
        ensures
            report_exact(r@, rows@, false),
    {
        report(rows, false)
    }

    /// The running online time of each user: for each day that has any, the
    /// time of that day and all days before it.
    pub fn absolute_sum_time_per_day_iter(rows: &Vec<LogEntry>) -> (r: Vec<(u64, Vec<(i32, u64)>)>)
        requires
            rows_wf(rows@),
            rows@.len() <= MAX_ROWS,
        ensures
            report_exact(r@, rows@, true),
    {
        report(rows, true)
    }

    /// The first and the last day that the rows cover; `None` where there is
    /// no row.
    pub fn date_range(rows: &Vec<LogEntry>) -> (r: Option<(i32, i32)>)
        ensures
            r is None <==> rows@.len() == 0,
            r matches Some((first, last)) ==> {
                &&& exists|i: int| 0 <= i < rows@.len() && (#[trigger] rows@[i]).day == first
                &&& exists|i: int| 0 <= i < rows@.len() && (#[trigger] rows@[i]).day == last
                &&& forall|i: int| 0 <= i < rows@.len() ==> first <= (#[trigger] rows@[i]).day <= last
            },
    {
        if rows.len() == 0 {
            return None;
        }
        let mut first = rows[0].day;
        let mut last = rows[0].day;
        let mut i: usize = 1;
        while i < rows.len()
            invariant
                1 <= i <= rows@.len(),
                exists|j: int| 0 <= j < rows@.len() && (#[trigger] rows@[j]).day == first,
                exists|j: int| 0 <= j < rows@.len() && (#[trigger] rows@[j]).day == last,
                forall|j: int| 0 <= j < i ==> first <= (#[trigger] rows@[j]).day <= last,
            decreases rows@.len() - i,
        {
            let d = rows[i].day;
            if d < first {
                first = d;
            }
            if d > last {
                last = d;
            }
            i = i + 1;
        }
        Some((first, last))
    }
}

} // verus!
