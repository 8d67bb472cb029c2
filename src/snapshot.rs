//! The snapshot form of the stored online time: one JSON file per day that
//! maps user ids to the seconds they had been online up to that day, and its
//! conversion into per-day log rows.

use vstd::prelude::*;
use crate::model::NewLogEntryOwned;
use crate::time::{LAST_SECOND_OF_DAY, MICROS_PER_SECOND};

verus! {

/// `c` is an ASCII decimal digit.
pub open spec fn is_digit(c: char) -> bool {
    '0' <= c <= '9'
}

/// The number that the digits `s` spell in decimal.
pub open spec fn digits_value(s: Seq<char>) -> int
    decreases s.len(),
{
    if s.len() == 0 {
        0
    } else {
        digits_value(s.drop_last()) * 10 + (s.last() as int - '0' as int)
    }
}

/// `s` without one leading `+`.
pub open spec fn unsigned_text(s: Seq<char>) -> Seq<char> {
    if s.len() > 0 && s[0] == '+' {
        s.skip(1)
    } else {
        s
    }
}

/// The `u64` that `s` spells: an optional `+` and one or more decimal
/// digits, of a value that fits; `None` for anything else.
pub open spec fn parsed_u64(s: Seq<char>) -> Option<u64> {
    let b = unsigned_text(s);
    if b.len() > 0 && (forall|i: int| 0 <= i < b.len() ==> is_digit(#[trigger] b[i]))
        && digits_value(b) <= u64::MAX {
        Some(digits_value(b) as u64)
    } else {
        None
    }
}

proof fn lemma_digits_value_grows(s: Seq<char>, j: int)
    requires
        0 <= j <= s.len(),
        forall|i: int| 0 <= i < s.len() ==> is_digit(#[trigger] s[i]),
    ensures
        0 <= digits_value(s.take(j)) <= digits_value(s),
    decreases s.len(),
{
    if s.len() > 0 {
        let init = s.drop_last();
        assert forall|i: int| 0 <= i < init.len() implies is_digit(#[trigger] init[i]) by {
            assert(init[i] == s[i]);
        }
        if j == s.len() {
            assert(s.take(j) =~= s);
            lemma_digits_value_grows(init, init.len() as int);
            assert(init.take(init.len() as int) =~= init);
        } else {
            lemma_digits_value_grows(init, j);
            assert(init.take(j) =~= s.take(j));
            lemma_digits_value_grows(init, init.len() as int);
            assert(init.take(init.len() as int) =~= init);
        }
    } else {
        assert(s.take(j) =~= s);
    }
}

/// Reads a user id written in decimal.
pub fn parse_user_id(s: &str) -> (r: Option<u64>)
    ensures
        r == parsed_u64(s@),
{
    let n = s.unicode_len();
    let first: usize = if n > 0 && s.get_char(0) == '+' {
        1
    } else {
        0
    };
    let ghost b = unsigned_text(s@);
    assert(b =~= s@.skip(first as int));
    if first >= n {
        return None;
    }
    let mut value: u64 = 0;
    let mut i: usize = first;
    while i < n
        invariant
            first <= i <= n,
            n == s@.len(),
            b =~= s@.skip(first as int),
            b == unsigned_text(s@),
            forall|k: int| 0 <= k < i - first ==> is_digit(#[trigger] b[k]),
            value == digits_value(b.take(i - first)),
        decreases n - i,
    {
        let c = s.get_char(i);
        if !('0' <= c && c <= '9') {
            assert(b[i - first] == c);
            assert(!is_digit(b[i - first]));
            return None;
        }
        let d = (c as u32 - '0' as u32) as u64;
        let ghost next = b.take(i - first + 1);
        assert(next.drop_last() =~= b.take(i - first));
        assert(next.last() == c);
        if value > (u64::MAX - d) / 10 {
            proof {
                assert forall|k: int| 0 <= k < i - first + 1 implies is_digit(#[trigger] b[k]) by {
                    if k == i - first {
                        assert(b[k] == c);
                    }
                }
                assert(digits_value(next) > u64::MAX) by (nonlinear_arith)
                    requires
                        digits_value(next) == value * 10 + d,
                        value > (u64::MAX - d) / 10,
                        0 <= d <= 9,
                ;
                if forall|k: int| 0 <= k < b.len() ==> is_digit(#[trigger] b[k]) {
                    lemma_digits_value_grows(b, i - first + 1);
                }
            }
            return None;
        }
        assert(value * 10 + d <= u64::MAX) by (nonlinear_arith)
            requires
                value <= (u64::MAX - d) / 10,
                0 <= d <= 9,
        ;
        value = value * 10 + d;
        i = i + 1;
        assert forall|k: int| 0 <= k < i - first implies is_digit(#[trigger] b[k]) by {
            if k == i - 1 - first {
                assert(b[k] == c);
            }
        }
    }
    assert(b.take(n - first) =~= b);
    Some(value)
}

/// What `serde_json` reads from `text` as a JSON object whose values are
/// unsigned integers: its members by key, or `None` where `text` is not such
/// an object.
pub uninterp spec fn json_u64_object(text: Seq<char>) -> Option<Seq<(Seq<char>, u64)>>;

/// The members of a JSON object as keys and values.
pub open spec fn members_view(v: Seq<(String, u64)>) -> Seq<(Seq<char>, u64)> {
    v.map_values(|p: (String, u64)| (p.0@, p.1))
}

/// Relies on `serde_json::from_str` reading a
/// `BTreeMap<String, u64>`: it fails on text that is not a JSON object of
/// unsigned integers, and the map's members follow from the text alone.
#[verifier::external_body]
fn parse_json_u64_object(text: &str) -> (r: Option<Vec<(String, u64)>>)
    ensures
        r is None <==> json_u64_object(text@) is None,
        r matches Some(v) ==> json_u64_object(text@) == Some(members_view(v@)),
{
    match serde_json::from_str::<std::collections::BTreeMap<String, u64>>(text) {
        Ok(m) => Some(m.into_iter().collect()),
        Err(_) => None,
    }
}

/// The index of the record of `user_id`, where there is one.
pub open spec fn find_user(recs: Seq<(u64, u64)>, user_id: u64) -> Option<int> {
    if exists|i: int| 0 <= i < recs.len() && (#[trigger] recs[i]).0 == user_id {
        Some(choose|i: int| 0 <= i < recs.len() && (#[trigger] recs[i]).0 == user_id)
    } else {
        None
    }
}

/// No user has two records.
pub open spec fn users_unique(recs: Seq<(u64, u64)>) -> bool {
    forall|i: int, j: int| 0 <= i < j < recs.len() ==> (#[trigger] recs[i]).0 != (#[trigger] recs[j]).0
}

/// `recs` with the record of `user_id` set to `value`: in place where there
/// is one, else added at the end.
pub open spec fn upsert(recs: Seq<(u64, u64)>, user_id: u64, value: u64) -> Seq<(u64, u64)> {
    match find_user(recs, user_id) {
        Some(i) => recs.update(i, (user_id, value)),
        None => recs.push((user_id, value)),
    }
}

/// The records of a snapshot's members: those whose key is a user id, a
/// later one of the same user taking the place of an earlier one.
pub open spec fn records_of(members: Seq<(Seq<char>, u64)>) -> Seq<(u64, u64)>
    decreases members.len(),
{
    if members.len() == 0 {
        Seq::empty()
    } else {
        let prev = records_of(members.drop_last());
        match parsed_u64(members.last().0) {
            Some(u) => upsert(prev, u, members.last().1),
            None => prev,
        }
    }
}

/// The index of the record of `user_id`, where there is one.
pub fn position_of_user(recs: &Vec<(u64, u64)>, user_id: u64) -> (r: Option<usize>)
    requires
        users_unique(recs@),
    ensures
        match r {
            Some(i) => find_user(recs@, user_id) == Some(i as int) && i < recs@.len(),
            None => find_user(recs@, user_id) is None,
        },
{
    let mut i: usize = 0;
    while i < recs.len()
        invariant
            i <= recs@.len(),
            users_unique(recs@),
            forall|k: int| 0 <= k < i ==> (#[trigger] recs@[k]).0 != user_id,
        decreases recs@.len() - i,
    {
        if recs[i].0 == user_id {
            assert(recs@[i as int].0 == user_id);
            let ghost j = choose|j: int| 0 <= j < recs@.len() && (#[trigger] recs@[j]).0 == user_id;
            assert(j == i) by {
                if j < i {
                    assert(recs@[j].0 != user_id);
                } else if j > i {
                    assert(recs@[i as int].0 != recs@[j].0);
                }
            }
            return Some(i);
        }
        i = i + 1;
    }
    None
}

/// Sets the record of `user_id` to `value`.
fn upsert_exec(recs: &mut Vec<(u64, u64)>, user_id: u64, value: u64)
    requires
        users_unique(old(recs)@),
    ensures
        final(recs)@ == upsert(old(recs)@, user_id, value),
        users_unique(final(recs)@),
{
    match position_of_user(recs, user_id) {
        Some(i) => {
            recs.set(i, (user_id, value));
        },
        None => {
            recs.push((user_id, value));
        },
    }
}

/// Reads one day's snapshot: the seconds online of each user. Members whose
/// key is no user id are left out; text that is no JSON object of unsigned
/// integers gives `None`, to be taken as "no earlier state".
pub fn get_stat_impl(text: &str) -> (r: Option<Vec<(u64, u64)>>)
    ensures
        match json_u64_object(text@) {
            None => r is None,
            Some(members) => r matches Some(recs) && recs@ == records_of(members) && users_unique(
                recs@,
            ),
        },
{
    match parse_json_u64_object(text) {
        None => None,
        Some(members) => {
            let mut recs: Vec<(u64, u64)> = Vec::new();
            let mut i: usize = 0;
            while i < members.len()
                invariant
                    i <= members@.len(),
                    users_unique(recs@),
                    recs@ == records_of(members_view(members@).take(i as int)),
                decreases members@.len() - i,
            {
                let ghost pre = members_view(members@).take(i as int);
                let ghost cur = members_view(members@).take(i + 1);
                assert(cur.drop_last() =~= pre);
                assert(cur.last() == (members@[i as int].0@, members@[i as int].1));
                match parse_user_id(members[i].0.as_str()) {
                    Some(u) => upsert_exec(&mut recs, u, members[i].1),
                    None => {},
                }
                i = i + 1;
            }
            assert(members_view(members@).take(i as int) =~= members_view(members@));
            Some(recs)
        },
    }
}

/// What chrono reads from `s` as a date written `%Y-%m-%d`: its day counted
/// from 1970-01-01, or `None` where `s` writes no date.
pub uninterp spec fn iso_date_day(s: Seq<char>) -> Option<i32>;

/// Relies on chrono's `NaiveDate::from_str` and `NaiveDate::to_epoch_days`:
/// the day of the date that `s` writes, which depends on `s` alone.
#[verifier::external_body]
fn parse_iso_date(s: &str) -> (r: Option<i32>)
    ensures
        r == iso_date_day(s@),
{
    match <chrono::NaiveDate as std::str::FromStr>::from_str(s) {
        Ok(d) => Some(d.to_epoch_days()),
        Err(_) => None,
    }
}

/// `lit` stands in `s` at position `at`.
pub fn text_at(s: &str, at: usize, lit: &str) -> (r: bool)
    ensures
        r == (at + lit@.len() <= s@.len() && s@.subrange(at as int, at + lit@.len()) == lit@),
{
    let n = s.unicode_len();
    let m = lit.unicode_len();
    if at > n || m > n - at {
        return false;
    }
    let mut k: usize = 0;
    while k < m
        invariant
            k <= m,
            m == lit@.len(),
            n == s@.len(),
            at + m <= n,
            forall|j: int| 0 <= j < k ==> s@[at + j] == lit@[j],
        decreases m - k,
    {
        if s.get_char(at + k) != lit.get_char(k) {
            assert(s@.subrange(at as int, at + m)[k as int] != lit@[k as int]);
            return false;
        }
        k = k + 1;
    }
    assert(s@.subrange(at as int, at + m) =~= lit@);
    true
}

/// The day of a snapshot file named `stats_<date>.json`, `<date>` being the
/// ten characters after `stats_`; `None` for any other name.
pub open spec fn snapshot_file_day(name: Seq<char>) -> Option<i32> {
    if name.len() >= 16 && name.subrange(0, 6) == "stats_"@ && name.subrange(
        name.len() - 5,
        name.len() as int,
    ) == ".json"@ {
        iso_date_day(name.subrange(6, 16))
    } else {
        None
    }
}

/// The day of the snapshot file named `name`, where it is one.
pub fn snapshot_day(name: &str) -> (r: Option<i32>)
    ensures
        r == snapshot_file_day(name@),
{
    let n = name.unicode_len();
    proof {
        reveal_strlit("stats_");
        reveal_strlit(".json");
    }
    if n < 16 || !text_at(name, 0, "stats_") || !text_at(name, n - 5, ".json") {
        return None;
    }
    parse_iso_date(name.substring_char(6, 16))
}

/// The days of snapshot files among `stems` (file names without their
/// extension, `stats_<date>`).
pub open spec fn stem_day(stem: Seq<char>) -> Option<i32> {
    if stem.len() >= 6 && stem.subrange(0, 6) == "stats_"@ {
        iso_date_day(stem.subrange(6, stem.len() as int))
    } else {
        None
    }
}

/// The first and the last day that snapshot files cover, given the stems
/// of the files' names: `today` and 1970-01-01 bound the range where no
/// file lies beyond them, as where there is no snapshot at all.
pub fn available_datapoint_range(stems: &Vec<String>, today: i32) -> (r: (i32, i32))
    ensures
        r.0 <= today,
        r.1 >= 0,
        forall|k: int| 0 <= k < stems@.len() ==> (stem_day(#[trigger] stems@[k]@) matches Some(d)
            ==> r.0 <= d <= r.1),
        r.0 == today || exists|k: int| 0 <= k < stems@.len() && stem_day(#[trigger] stems@[k]@) == Some(r.0),
        r.1 == 0 || exists|k: int| 0 <= k < stems@.len() && stem_day(#[trigger] stems@[k]@) == Some(r.1),
{
    let mut first = today;
    let mut last: i32 = 0;
    let mut k: usize = 0;
    while k < stems.len()
        invariant
            k <= stems@.len(),
            first <= today,
            last >= 0,
            forall|j: int| 0 <= j < k ==> (stem_day(#[trigger] stems@[j]@) matches Some(d) ==> first <= d <= last),
            first == today || exists|j: int| 0 <= j < stems@.len() && stem_day(#[trigger] stems@[j]@) == Some(first),
            last == 0 || exists|j: int| 0 <= j < stems@.len() && stem_day(#[trigger] stems@[j]@) == Some(last),
        decreases stems@.len() - k,
    {
        let stem = stems[k].as_str();
        let n = stem.unicode_len();
        proof {
            reveal_strlit("stats_");
        }
        if n >= 6 && text_at(stem, 0, "stats_") {
            let parsed = parse_iso_date(stem.substring_char(6, n));
            assert(parsed == stem_day(stems@[k as int]@));
            match parsed {
                Some(d) => {
                    if d < first {
                        first = d;
                    }
                    if d > last {
                        last = d;
                    }
                },
                None => {},
            }
        } else {
            assert(stem_day(stems@[k as int]@) is None);
        }
        k = k + 1;
    }
    (first, last)
}

/// The index of the snapshot of `day`, where there is one.
pub open spec fn find_day(s: Seq<(i32, Seq<(u64, u64)>)>, day: int) -> Option<int> {
    if exists|i: int| 0 <= i < s.len() && (#[trigger] s[i]).0 == day {
        Some(choose|i: int| 0 <= i < s.len() && (#[trigger] s[i]).0 == day)
    } else {
        None
    }
}

/// No day has two snapshots, and no snapshot two records of a user.
pub open spec fn snapshots_wf(s: Seq<(i32, Seq<(u64, u64)>)>) -> bool {
    &&& forall|i: int, j: int| 0 <= i < j < s.len() ==> (#[trigger] s[i]).0 != (#[trigger] s[j]).0
    &&& forall|i: int| 0 <= i < s.len() ==> users_unique((#[trigger] s[i]).1)
}

/// Snapshots as days and records.
pub open spec fn snapshots_view(v: Seq<(i32, Vec<(u64, u64)>)>) -> Seq<(i32, Seq<(u64, u64)>)> {
    v.map_values(|p: (i32, Vec<(u64, u64)>)| (p.0, p.1@))
}

/// Files as names and contents.
pub open spec fn files_view(v: Seq<(String, String)>) -> Seq<(Seq<char>, Seq<char>)> {
    v.map_values(|p: (String, String)| (p.0@, p.1@))
}

/// The snapshots that `files` (names and contents) hold, one per day in the
/// order of the files: a file that is no snapshot, or whose content is no
/// JSON object of unsigned integers, is passed over, as is a second file of
/// a day.
pub open spec fn collect_snapshots(files: Seq<(Seq<char>, Seq<char>)>) -> Seq<(i32, Seq<(u64, u64)>)>
    decreases files.len(),
{
    if files.len() == 0 {
        Seq::empty()
    } else {
        let prev = collect_snapshots(files.drop_last());
        match (snapshot_file_day(files.last().0), json_u64_object(files.last().1)) {
            (Some(d), Some(members)) => if find_day(prev, d as int) is None {
                prev.push((d, records_of(members)))
            } else {
                prev
            },
            _ => prev,
        }
    }
}

/// The seconds of `user_id` in the snapshot of the day before `day`, where
/// there is one.
pub open spec fn earlier_value(s: Seq<(i32, Seq<(u64, u64)>)>, day: i32, user_id: u64) -> Option<u64> {
    match find_day(s, day - 1) {
        Some(k) => match find_user(s[k].1, user_id) {
            Some(j) => Some(s[k].1[j].1),
            None => None,
        },
        None => None,
    }
}

/// One day's seconds from the running total `total` and the day before's
/// `earlier`: their difference, 0 where the total went down.
pub open spec fn day_value(total: u64, earlier: Option<u64>) -> u64 {
    match earlier {
        Some(p) => if total >= p {
            (total - p) as u64
        } else {
            0
        },
        None => total,
    }
}

/// The snapshots with each running total turned into that day's seconds.
pub open spec fn decumulated(s: Seq<(i32, Seq<(u64, u64)>)>) -> Seq<(i32, Seq<(u64, u64)>)> {
    s.map_values(
        |e: (i32, Seq<(u64, u64)>)|
            (e.0, e.1.map_values(|r: (u64, u64)| (r.0, day_value(r.1, earlier_value(s, e.0, r.0))))),
    )
}

fn position_of_day(s: &Vec<(i32, Vec<(u64, u64)>)>, day: i32) -> (r: Option<usize>)
    requires
        snapshots_wf(snapshots_view(s@)),
    ensures
        match r {
            Some(i) => find_day(snapshots_view(s@), day as int) == Some(i as int) && i < s@.len(),
            None => find_day(snapshots_view(s@), day as int) is None,
        },
{
    let ghost v = snapshots_view(s@);
    let mut i: usize = 0;
    while i < s.len()
        invariant
            i <= s@.len(),
            v == snapshots_view(s@),
            snapshots_wf(v),
            forall|k: int| 0 <= k < i ==> (#[trigger] v[k]).0 != day,
        decreases s@.len() - i,
    {
        if s[i].0 == day {
            assert(v[i as int].0 == day);
            let ghost j = choose|j: int| 0 <= j < v.len() && (#[trigger] v[j]).0 == day;
            assert(j == i) by {
                if j < i {
                    assert(v[j].0 != day);
                } else if j > i {
                    assert(v[i as int].0 != v[j].0);
                }
            }
            return Some(i);
        }
        i = i + 1;
    }
    None
}

/// The seconds of `user_id` in the snapshot of the day before `day`.
fn earlier_value_exec(s: &Vec<(i32, Vec<(u64, u64)>)>, day: i32, user_id: u64) -> (r: Option<u64>)
    requires
        snapshots_wf(snapshots_view(s@)),
    ensures
        r == earlier_value(snapshots_view(s@), day, user_id),
{
    if day == i32::MIN {
        let ghost v = snapshots_view(s@);
        assert(find_day(v, day - 1) is None) by {
            if exists|i: int| 0 <= i < v.len() && (#[trigger] v[i]).0 == day - 1 {
                let i = choose|i: int| 0 <= i < v.len() && (#[trigger] v[i]).0 == day - 1;
            }
        }
        return None;
    }
    match position_of_day(s, day - 1) {
        None => None,
        Some(k) => {
            assert(snapshots_view(s@)[k as int].1 == s@[k as int].1@);
            match position_of_user(&s[k].1, user_id) {
                Some(j) => Some(s[k].1[j].1),
                None => None,
            }
        },
    }
}

/// Reads the snapshot files, given as names and contents, into one snapshot
/// per day, each with the seconds that each user was online on that day
/// alone: a day's running totals less those of the day before.
pub fn read_stats(files: &Vec<(String, String)>) -> (r: Vec<(i32, Vec<(u64, u64)>)>)
    ensures
        snapshots_view(r@) == decumulated(collect_snapshots(files_view(files@))),
{
    let mut coll: Vec<(i32, Vec<(u64, u64)>)> = Vec::new();
    let mut i: usize = 0;
    while i < files.len()
        invariant
            i <= files@.len(),
            snapshots_wf(snapshots_view(coll@)),
            snapshots_view(coll@) == collect_snapshots(files_view(files@).take(i as int)),
        decreases files@.len() - i,
    {
        let ghost pre = files_view(files@).take(i as int);
        let ghost cur = files_view(files@).take(i + 1);
        assert(cur.drop_last() =~= pre);
        assert(cur.last() == (files@[i as int].0@, files@[i as int].1@));
        match snapshot_day(files[i].0.as_str()) {
            Some(d) => match get_stat_impl(files[i].1.as_str()) {
                Some(recs) => {
                    if position_of_day(&coll, d).is_none() {
                        let ghost before = snapshots_view(coll@);
                        coll.push((d, recs));
                        assert(snapshots_view(coll@) =~= before.push((d, recs@)));
                        proof {
                            let v = snapshots_view(coll@);
                            assert forall|a: int, b: int| 0 <= a < b < v.len() implies (
                            #[trigger] v[a]).0 != (#[trigger] v[b]).0 by {
                                if b == v.len() - 1 && v[a].0 == d {
                                    assert(before[a].0 == d);
                                }
                            }
                        }
                    }
                },
                None => {},
            },
            None => {},
        }
        i = i + 1;
    }
    assert(files_view(files@).take(i as int) =~= files_view(files@));
    let ghost c = snapshots_view(coll@);
    let mut out: Vec<(i32, Vec<(u64, u64)>)> = Vec::new();
    let mut k: usize = 0;
    while k < coll.len()
        invariant
            k <= coll@.len(),
            c == snapshots_view(coll@),
            snapshots_wf(c),
            snapshots_view(out@) == decumulated(c).take(k as int),
        decreases coll@.len() - k,
    {
        let day = coll[k].0;
        let mut recs: Vec<(u64, u64)> = Vec::new();
        let mut j: usize = 0;
        let ghost target = decumulated(c)[k as int];
        assert(c[k as int] == (day, coll@[k as int].1@));
        while j < coll[k].1.len()
            invariant
                k < coll@.len(),
                j <= coll@[k as int].1@.len(),
                c == snapshots_view(coll@),
                snapshots_wf(c),
                day == coll@[k as int].0,
                target == decumulated(c)[k as int],
                c[k as int] == (day, coll@[k as int].1@),
                recs@ == target.1.take(j as int),
            decreases coll@[k as int].1@.len() - j,
        {
            let (u, total) = coll[k].1[j];
            let earlier = earlier_value_exec(&coll, day, u);
            let v = match earlier {
                Some(p) => if total >= p {
                    total - p
                } else {
                    0
                },
                None => total,
            };
            recs.push((u, v));
            assert(recs@ =~= target.1.take(j + 1));
            j = j + 1;
        }
        assert(recs@ =~= target.1);
        let ghost before = snapshots_view(out@);
        assert(target == (day, recs@));
        out.push((day, recs));
        assert(snapshots_view(out@) =~= before.push((day, recs@)));
        assert(decumulated(c).take(k + 1) =~= decumulated(c).take(k as int).push(target));
        k = k + 1;
    }
    assert(decumulated(c).take(k as int) =~= decumulated(c));
    out
}

/// Where one day's seconds end as a time of day: that many seconds after
/// midnight, at most `23:59:59`.
pub open spec fn end_of_seconds(secs: u64) -> u64 {
    if secs >= 86_399 {
        LAST_SECOND_OF_DAY
    } else {
        (secs * MICROS_PER_SECOND) as u64
    }
}

/// The log rows of one day's records: one per user with positive seconds,
/// from midnight on.
pub open spec fn day_rows(day: i32, recs: Seq<(u64, u64)>) -> Seq<NewLogEntryOwned>
    decreases recs.len(),
{
    if recs.len() == 0 {
        Seq::empty()
    } else {
        day_rows(day, recs.drop_last()) + (if recs.last().1 > 0 {
            seq![
                NewLogEntryOwned {
                    user_id: recs.last().0,
                    day,
                    online_time_start: 0,
                    online_time_end: end_of_seconds(recs.last().1),
                },
            ]
        } else {
            Seq::empty()
        })
    }
}

/// The log rows of all snapshots, day after day.
pub open spec fn import_spec(s: Seq<(i32, Seq<(u64, u64)>)>) -> Seq<NewLogEntryOwned>
    decreases s.len(),
{
    if s.len() == 0 {
        Seq::empty()
    } else {
        import_spec(s.drop_last()) + day_rows(s.last().0, s.last().1)
    }
}

/// Turns per-day snapshots into log rows: each user's seconds of a day
/// become one row from midnight, cut at `23:59:59`.
pub fn import_rows(snapshots: &Vec<(i32, Vec<(u64, u64)>)>) -> (r: Vec<NewLogEntryOwned>)
    ensures
        r@ == import_spec(snapshots_view(snapshots@)),
{
    let ghost sv = snapshots_view(snapshots@);
    let mut rows: Vec<NewLogEntryOwned> = Vec::new();
    let mut k: usize = 0;
    while k < snapshots.len()
        invariant
            k <= snapshots@.len(),
            sv == snapshots_view(snapshots@),
            rows@ == import_spec(sv.take(k as int)),
        decreases snapshots@.len() - k,
    {
        let day = snapshots[k].0;
        let ghost recs_v = snapshots@[k as int].1@;
        let ghost base = rows@;
        let mut j: usize = 0;
        while j < snapshots[k].1.len()
            invariant
                k < snapshots@.len(),
                j <= recs_v.len(),
                recs_v == snapshots@[k as int].1@,
                day == snapshots@[k as int].0,
                rows@ == base + day_rows(day, recs_v.take(j as int)),
            decreases recs_v.len() - j,
        {
            let (u, secs) = snapshots[k].1[j];
            assert(recs_v.take(j + 1).drop_last() =~= recs_v.take(j as int));
            if secs > 0 {
                let end = if secs >= 86_399 {
                    LAST_SECOND_OF_DAY
                } else {
                    secs * MICROS_PER_SECOND
                };
                rows.push(NewLogEntryOwned { user_id: u, day, online_time_start: 0, online_time_end: end });
            }
            assert(rows@ =~= base + day_rows(day, recs_v.take(j + 1)));
            j = j + 1;
        }
        assert(recs_v.take(j as int) =~= recs_v);
        assert(sv.take(k + 1).drop_last() =~= sv.take(k as int));
        assert(sv[k as int] == (day, recs_v));
        k = k + 1;
    }
    assert(sv.take(k as int) =~= sv);
    rows
}

} // verus!
