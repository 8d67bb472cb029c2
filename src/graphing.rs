//! Preparing per-user day series for charts.

use vstd::prelude::*;

pub mod draw;

verus! {

/// Channel base of the colour code: 256 values per channel.
pub const CHANNEL: u64 = 256;

/// User ids per colour step: `10^18 / (256^3 + 1)`, the id range of `10^18`
/// spread over the `256^3` colours.
pub const COLOR_STEP: u64 = 59_604_641_222;

/// The colour of a user's line: the id scaled down to a 24-bit number, cut
/// into red, green and blue.
pub open spec fn color_of(uid: u64) -> (u8, u8, u8) {
    let n = uid as int / COLOR_STEP as int;
    (((n / 65536) % 256) as u8, ((n % 65536) / 256) as u8, (n % 256) as u8)
}

/// The colour of the line of the user `uid`.
pub fn uid_to_color(uid: u64) -> (r: (u8, u8, u8))
    ensures
        r == color_of(uid),
{
    let n = uid / COLOR_STEP;
    let r = n / (CHANNEL * CHANNEL);
    let g = (n - r * (CHANNEL * CHANNEL)) / CHANNEL;
    let b = n - r * (CHANNEL * CHANNEL) - g * CHANNEL;
    assert(n - r * 65536 == n % 65536 && (n % 65536) / 256 == g && b == n % 256) by (nonlinear_arith)
        requires
            r == n / 65536,
            g == (n - r * 65536) / 256,
            b == n - r * 65536 - g * 256,
    ;
    ((r % CHANNEL) as u8, g as u8, b as u8)
}

/// The largest value in any of the groups; `None` where there is none.
pub fn largest_value<K, D>(stats: &Vec<(K, Vec<(D, u64)>)>) -> (r: Option<u64>)
    ensures
        r is None <==> forall|k: int| 0 <= k < stats@.len() ==> (#[trigger] stats@[k]).1@.len() == 0,
        r matches Some(m) ==> {
            &&& forall|k: int, j: int|
                0 <= k < stats@.len() && 0 <= j < stats@[k].1@.len() ==> (#[trigger] stats@[k].1@[j]).1 <= m
            &&& exists|k: int, j: int|
                0 <= k < stats@.len() && 0 <= j < stats@[k].1@.len() && (#[trigger] stats@[k].1@[j]).1 == m
        },
{
    let mut best: Option<u64> = None;
    let mut k: usize = 0;
    while k < stats.len()
        invariant
            k <= stats@.len(),
            best is None <==> forall|a: int| 0 <= a < k ==> (#[trigger] stats@[a]).1@.len() == 0,
            best matches Some(m) ==> {
                &&& forall|a: int, j: int|
                    0 <= a < k && 0 <= j < stats@[a].1@.len() ==> (#[trigger] stats@[a].1@[j]).1 <= m
                &&& exists|a: int, j: int|
                    0 <= a < k && 0 <= j < stats@[a].1@.len() && (#[trigger] stats@[a].1@[j]).1 == m
            },
        decreases stats@.len() - k,
    {
        let series = &stats[k].1;
        let mut j: usize = 0;
        let ghost best_before = best;
        while j < series.len()
            invariant
                k < stats@.len(),
                series@ == stats@[k as int].1@,
                j <= series@.len(),
                best is None <==> (best_before is None && j == 0),
                best_before is None <==> forall|a: int| 0 <= a < k ==> (#[trigger] stats@[a]).1@.len() == 0,
                best matches Some(m) ==> {
                    &&& forall|a: int, i: int|
                        0 <= a < k && 0 <= i < stats@[a].1@.len() ==> (#[trigger] stats@[a].1@[i]).1 <= m
                    &&& forall|i: int| 0 <= i < j ==> (#[trigger] series@[i]).1 <= m
                    &&& (exists|a: int, i: int|
                        0 <= a < k && 0 <= i < stats@[a].1@.len() && (#[trigger] stats@[a].1@[i]).1 == m)
                        || (exists|i: int| 0 <= i < j && (#[trigger] series@[i]).1 == m)
                },
                best_before matches Some(m0) ==> (best matches Some(m) && m >= m0 && forall|a: int, i: int|
                    0 <= a < k && 0 <= i < stats@[a].1@.len() ==> (#[trigger] stats@[a].1@[i]).1 <= m0),
            decreases series@.len() - j,
        {
            let v = series[j].1;
            match best {
                None => {
                    best = Some(v);
                },
                Some(m) => {
                    if v > m {
                        best = Some(v);
                    }
                },
            }
            j = j + 1;
        }
        proof {
            if let Some(m) = best {
                assert forall|a: int, i: int|
                    0 <= a < k + 1 && 0 <= i < stats@[a].1@.len() implies (#[trigger] stats@[a].1@[i]).1 <= m by {
                    if a == k {
                        assert(stats@[a].1@[i] == series@[i]);
                    }
                }
                if exists|i: int| 0 <= i < j && (#[trigger] series@[i]).1 == m {
                    let i = choose|i: int| 0 <= i < j && (#[trigger] series@[i]).1 == m;
                    assert(stats@[k as int].1@[i] == series@[i]);
                }
            }
            if best is None {
                assert(series@.len() == 0);
            }
        }
        k = k + 1;
    }
    best
}

/// The largest value over all users' series; `None` where there is none.
pub fn max_time(stats: &Vec<(u64, Vec<(i32, u64)>)>) -> (r: Option<u64>)
    ensures
        r is None <==> forall|k: int| 0 <= k < stats@.len() ==> (#[trigger] stats@[k]).1@.len() == 0,
        r matches Some(m) ==> {
            &&& forall|k: int, j: int|
                0 <= k < stats@.len() && 0 <= j < stats@[k].1@.len() ==> (#[trigger] stats@[k].1@[j]).1 <= m
            &&& exists|k: int, j: int|
                0 <= k < stats@.len() && 0 <= j < stats@[k].1@.len() && (#[trigger] stats@[k].1@[j]).1 == m
        },
{
    largest_value(stats)
}

/// The value of the last item of `s` whose day is `day` or earlier; 0 where
/// there is none.
pub open spec fn held_value(s: Seq<(i32, u64)>, day: int) -> u64
    decreases s.len(),
{
    if s.len() == 0 {
        0
    } else if s.last().0 <= day {
        s.last().1
    } else {
        held_value(s.drop_last(), day)
    }
}

/// The value of the last item of `s` on `day`; 0 where there is none.
pub open spec fn value_on(s: Seq<(i32, u64)>, day: int) -> u64
    decreases s.len(),
{
    if s.len() == 0 {
        0
    } else if s.last().0 == day {
        s.last().1
    } else {
        value_on(s.drop_last(), day)
    }
}

/// One item per day from `first` to `last`, with the value that `s` holds
/// on that day (`hold`) or has on exactly that day (else).
pub open spec fn filled(s: Seq<(i32, u64)>, first: i32, last: i32, hold: bool) -> Seq<(i32, u64)> {
    Seq::new(
        if last >= first {
            (last - first + 1) as nat
        } else {
            0
        },
        |i: int|
            (
                (first + i) as i32,
                if hold {
                    held_value(s, first + i)
                } else {
                    value_on(s, first + i)
                },
            ),
    )
}

fn value_at(s: &Vec<(i32, u64)>, day: i32, hold: bool) -> (r: u64)
    ensures
        r == (if hold {
            held_value(s@, day as int)
        } else {
            value_on(s@, day as int)
        }),
{
    let mut i: usize = s.len();
    assert(s@.take(i as int) =~= s@);
    while i > 0
        invariant
            i <= s@.len(),
            forall|j: int| i <= j < s@.len() ==> !(if hold {
                (#[trigger] s@[j]).0 <= day
            } else {
                s@[j].0 == day
            }),
            (if hold {
                held_value(s@, day as int) == held_value(s@.take(i as int), day as int)
            } else {
                value_on(s@, day as int) == value_on(s@.take(i as int), day as int)
            }),
        decreases i,
    {
        let (d, v) = s[i - 1];
        assert(s@.take(i as int).drop_last() =~= s@.take(i - 1));
        if (hold && d <= day) || (!hold && d == day) {
            return v;
        }
        i = i - 1;
    }
    0
}

fn fill(s: &Vec<(i32, u64)>, first: i32, last: i32, hold: bool) -> (r: Vec<(i32, u64)>)
    ensures
        r@ == filled(s@, first, last, hold),
{
    let mut out: Vec<(i32, u64)> = Vec::new();
    if first > last {
        assert(out@ =~= filled(s@, first, last, hold));
        return out;
    }
    let mut d: i64 = first as i64;
    while d <= last as i64
        invariant
            first <= last,
            first <= d <= last + 1,
            out@ =~= filled(s@, first, last, hold).take(d - first),
        decreases last + 1 - d,
    {
        let v = value_at(s, d as i32, hold);
        out.push((d as i32, v));
        assert(out@ =~= filled(s@, first, last, hold).take(d - first + 1));
        d = d + 1;
    }
    out
}

fn fill_all(range: (i32, i32), stats: &Vec<(u64, Vec<(i32, u64)>)>, hold: bool) -> (r: Vec<(u64, Vec<(i32, u64)>)>)
    ensures
        r@.len() == stats@.len(),
        forall|k: int|
            0 <= k < r@.len() ==> (#[trigger] r@[k]).0 == stats@[k].0 && r@[k].1@ == filled(
                stats@[k].1@,
                range.0,
                range.1,
                hold,
            ),
{
    let mut out: Vec<(u64, Vec<(i32, u64)>)> = Vec::new();
    let mut k: usize = 0;
    while k < stats.len()
        invariant
            k <= stats@.len(),
            out@.len() == k,
            forall|j: int|
                0 <= j < k ==> (#[trigger] out@[j]).0 == stats@[j].0 && out@[j].1@ == filled(
                    stats@[j].1@,
                    range.0,
                    range.1,
                    hold,
                ),
        decreases stats@.len() - k,
    {
        let s = fill(&stats[k].1, range.0, range.1, hold);
        out.push((stats[k].0, s));
        k = k + 1;
    }
    out
}

/// Each user's series over every day from `range.0` to `range.1`: a day
/// without a value of its own keeps the value of the latest day before it,
/// or 0. Suits running totals.
pub fn fill_with_hold(range: (i32, i32), stats: &Vec<(u64, Vec<(i32, u64)>)>) -> (r: Vec<(u64, Vec<(i32, u64)>)>)
    ensures
        r@.len() == stats@.len(),
        forall|k: int|
            0 <= k < r@.len() ==> (#[trigger] r@[k]).0 == stats@[k].0 && r@[k].1@ == filled(
                stats@[k].1@,
                range.0,
                range.1,
                true,
            ),
{
    fill_all(range, stats, true)
}

/// Each user's series over every day from `range.0` to `range.1`: a day
/// without a value of its own gets 0. Suits per-day totals.
pub fn fill_with_zero(range: (i32, i32), stats: &Vec<(u64, Vec<(i32, u64)>)>) -> (r: Vec<(u64, Vec<(i32, u64)>)>)
    ensures
        r@.len() == stats@.len(),
        forall|k: int|
            0 <= k < r@.len() ==> (#[trigger] r@[k]).0 == stats@[k].0 && r@[k].1@ == filled(
                stats@[k].1@,
                range.0,
                range.1,
                false,
            ),
{
    fill_all(range, stats, false)
}

} // verus!
