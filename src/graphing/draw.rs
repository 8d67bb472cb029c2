//! Preparing per-day snapshots for the total-time chart.

use vstd::prelude::*;
use crate::graphing::{color_of, largest_value};
use crate::aggregate::distinct;
use crate::snapshot::{find_user, parse_user_id, parsed_u64, position_of_user, snapshots_view, snapshots_wf};

verus! {

/// The colour of the line of the user whose id is written `uid`; `None`
/// where `uid` is no id.
pub fn uid_to_color(uid: &str) -> (r: Option<(u8, u8, u8)>)
    ensures
        r == (match parsed_u64(uid@) {
            Some(u) => Some(color_of(u)),
            None => None,
        }),
{
    match parse_user_id(uid) {
        Some(u) => Some(crate::graphing::uid_to_color(u)),
        None => None,
    }
}

/// The series of `user_id` across the snapshots: each day whose snapshot
/// has a record of the user, with its value, in the snapshots' order.
pub open spec fn series_of(s: Seq<(i32, Seq<(u64, u64)>)>, user_id: u64) -> Seq<(i32, u64)>
    decreases s.len(),
{
    if s.len() == 0 {
        Seq::empty()
    } else {
        series_of(s.drop_last(), user_id) + match find_user(s.last().1, user_id) {
            Some(j) => seq![(s.last().0, s.last().1[j].1)],
            None => Seq::empty(),
        }
    }
}

/// `user_id` has a record in some snapshot.
pub open spec fn appears(s: Seq<(i32, Seq<(u64, u64)>)>, user_id: u64) -> bool {
    exists|k: int, j: int| 0 <= k < s.len() && 0 <= j < s[k].1.len() && (#[trigger] s[k].1[j]).0 == user_id
}

/// The largest value in any snapshot; `None` where there is none.
pub fn max_time(stats: &Vec<(i32, Vec<(u64, u64)>)>) -> (r: Option<u64>)
    ensures
        r is None <==> forall|k: int| 0 <= k < stats@.len() ==> (#[trigger] stats@[k]).1@.len() == 0,
        r matches Some(m) ==> {
            &&& forall|k: int, j: int|
                0 <= k < stats@.len() && 0 <= j < stats@[k].1@.len() ==> (#[trigger] stats@[k].1@[j]).1 <= m
            &&& exists|k: int, j: int|
                0 <= k < stats@.len() && 0 <= j < stats@[k].1@.len() && (#[trigger] stats@[k].1@[j]).1 == m
        },
{
    largest_value(stats)
}

/// Every user that has a record in some snapshot, each once, in the order
/// of first appearance.
fn users_of(stats: &Vec<(i32, Vec<(u64, u64)>)>) -> (r: Vec<u64>)
    ensures
        distinct(r@),
        forall|k: int| 0 <= k < r@.len() ==> appears(snapshots_view(stats@), #[trigger] r@[k]),
        forall|u: u64| appears(snapshots_view(stats@), u) ==> #[trigger] r@.contains(u),
{
    let ghost sv = snapshots_view(stats@);
    let mut users: Vec<u64> = Vec::new();
    let mut a: usize = 0;
    while a < stats.len()
        invariant
            a <= stats@.len(),
            sv == snapshots_view(stats@),
            distinct(users@),
            forall|k: int| 0 <= k < users@.len() ==> appears(sv, #[trigger] users@[k]),
            forall|b: int, j: int|
                0 <= b < a && 0 <= j < sv[b].1.len() ==> users@.contains(#[trigger] sv[b].1[j].0),
        decreases stats@.len() - a,
    {
        let recs = &stats[a].1;
        assert(sv[a as int].1 == recs@);
        let mut j: usize = 0;
        while j < recs.len()
            invariant
                a < stats@.len(),
                j <= recs@.len(),
                sv == snapshots_view(stats@),
                sv[a as int].1 == recs@,
                distinct(users@),
                forall|k: int| 0 <= k < users@.len() ==> appears(sv, #[trigger] users@[k]),
                forall|b: int, i: int|
                    0 <= b < a && 0 <= i < sv[b].1.len() ==> users@.contains(#[trigger] sv[b].1[i].0),
                forall|i: int| 0 <= i < j ==> users@.contains(#[trigger] recs@[i].0),
            decreases recs@.len() - j,
        {
            let u = recs[j].0;
            let mut known = false;
            let mut k: usize = 0;
            while k < users.len()
                invariant
                    k <= users@.len(),
                    known ==> users@.contains(u),
                    !known ==> forall|i: int| 0 <= i < k ==> users@[i] != u,
                decreases users@.len() - k,
            {
                if users[k] == u {
                    known = true;
                }
                k = k + 1;
            }
            let ghost before = users@;
            if !known {
                users.push(u);
                proof {
                    assert(sv[a as int].1[j as int].0 == u);
                    assert forall|k: int| 0 <= k < users@.len() implies appears(sv, #[trigger] users@[k]) by {
                        if k < before.len() {
                            assert(users@[k] == before[k]);
                        } else {
                            assert(sv[a as int].1[j as int].0 == users@[k]);
                        }
                    }
                }
            }
            proof {
                assert forall|x: u64| before.contains(x) implies users@.contains(x) by {
                    let i = choose|i: int| 0 <= i < before.len() && before[i] == x;
                    assert(users@[i] == x);
                }
                assert(users@.contains(u)) by {
                    if !known {
                        assert(users@[before.len() as int] == u);
                    }
                }
            }
            j = j + 1;
        }
        a = a + 1;
    }
    users
}

/// The series of `user_id` across the snapshots.
fn series_exec(stats: &Vec<(i32, Vec<(u64, u64)>)>, user_id: u64) -> (r: Vec<(i32, u64)>)
    requires
        snapshots_wf(snapshots_view(stats@)),
    ensures
        r@ == series_of(snapshots_view(stats@), user_id),
{
    let ghost sv = snapshots_view(stats@);
    let mut out: Vec<(i32, u64)> = Vec::new();
    let mut a: usize = 0;
    while a < stats.len()
        invariant
            a <= stats@.len(),
            sv == snapshots_view(stats@),
            snapshots_wf(sv),
            out@ == series_of(sv.take(a as int), user_id),
        decreases stats@.len() - a,
    {
        assert(sv.take(a + 1).drop_last() =~= sv.take(a as int));
        assert(sv[a as int] == (stats@[a as int].0, stats@[a as int].1@));
        assert(crate::snapshot::users_unique(sv[a as int].1));
        match position_of_user(&stats[a].1, user_id) {
            Some(j) => {
                out.push((stats[a].0, stats[a].1[j].1));
            },
            None => {},
        }
        a = a + 1;
    }
    assert(sv.take(a as int) =~= sv);
    out
}

/// The snapshots turned into one series per user: each user that has a
/// record, once, in the order of first appearance, with the days and values
/// of its records in the snapshots' order.
pub fn split_stats(stats: &Vec<(i32, Vec<(u64, u64)>)>) -> (r: Vec<(u64, Vec<(i32, u64)>)>)
    requires
        snapshots_wf(snapshots_view(stats@)),
    ensures
        forall|i: int, j: int| 0 <= i < j < r@.len() ==> (#[trigger] r@[i]).0 != (#[trigger] r@[j]).0,
        forall|k: int|
            0 <= k < r@.len() ==> appears(snapshots_view(stats@), (#[trigger] r@[k]).0) && r@[k].1@
                == series_of(snapshots_view(stats@), r@[k].0),
        forall|u: u64|
            appears(snapshots_view(stats@), u) ==> exists|k: int| 0 <= k < r@.len() && (#[trigger] r@[k]).0 == u,
{
    let users = users_of(stats);
    let mut out: Vec<(u64, Vec<(i32, u64)>)> = Vec::new();
    let mut k: usize = 0;
    while k < users.len()
        invariant
            k <= users@.len(),
            snapshots_wf(snapshots_view(stats@)),
            out@.len() == k,
            forall|j: int|
                0 <= j < k ==> (#[trigger] out@[j]).0 == users@[j] && out@[j].1@ == series_of(
                    snapshots_view(stats@),
                    users@[j],
                ),
        decreases users@.len() - k,
    {
        let u = users[k];
        let s = series_exec(stats, u);
        out.push((u, s));
        k = k + 1;
    }
    assert forall|u: u64| appears(snapshots_view(stats@), u) implies exists|j: int| 0 <= j < out@.len() && (#[trigger] out@[j]).0 == u by {
        assert(users@.contains(u));
        let j = choose|j: int| 0 <= j < users@.len() && users@[j] == u;
        assert(out@[j].0 == u);
    }
    assert forall|i: int, j: int| 0 <= i < j < out@.len() implies (#[trigger] out@[i]).0 != (#[trigger] out@[j]).0 by {
        assert(users@[i] != users@[j]);
    }
    assert forall|k: int| 0 <= k < out@.len() implies appears(snapshots_view(stats@), (#[trigger] out@[k]).0) by {
        assert(appears(snapshots_view(stats@), users@[k]));
    }
    out
}

} // verus!
