//! Cutting a span of time into one piece per calendar day.

use vstd::prelude::*;
use crate::time::{lemma_abs_order, Timestamp, LAST_SECOND_OF_DAY, MICROS_PER_DAY, MICROS_PER_SECOND, MIDNIGHT};

verus! {

/// The part of a span that falls on one day: its day and the times of day
/// (microseconds since midnight) at which it starts and ends.
#[derive(Clone, Copy, Debug, PartialEq, Eq, Structural)]
pub struct DaySpan {
    pub day: i32,
    pub start: u64,
    pub end: u64,
}

impl DaySpan {
    /// Starts no later than it ends, and ends within its day.
    pub open spec fn wf(self) -> bool {
        self.start <= self.end < MICROS_PER_DAY
    }

    /// Length of the piece in microseconds.
    pub open spec fn duration(self) -> int {
        self.end - self.start
    }
}

/// Where a piece that is cut at midnight ends: `23:59:59`, or where it
/// starts if that is later still.
pub open spec fn cut_end(from: u64) -> u64 {
    if from <= LAST_SECOND_OF_DAY {
        LAST_SECOND_OF_DAY
    } else {
        from
    }
}

/// The pieces of the span from time of day `from` on day `day` to time of day
/// `to` on day `last`: one piece per day, every piece but the last cut at
/// `23:59:59`, every piece but the first starting at `00:00:00`.
pub open spec fn day_spans(day: i32, from: u64, last: i32, to: u64) -> Seq<DaySpan>
    decreases last - day,
{
    if day >= last {
        seq![DaySpan { day, start: from, end: to }]
    } else {
        seq![DaySpan { day, start: from, end: cut_end(from) }] + day_spans(
            (day + 1) as i32,
            MIDNIGHT,
            last,
            to,
        )
    }
}

/// The pieces of the span from `start` to `end`.
pub open spec fn split_spec(start: Timestamp, end: Timestamp) -> Seq<DaySpan> {
    day_spans(start.day, start.micros, end.day, end.micros)
}

/// Sum of the pieces' lengths.
pub open spec fn total_duration(s: Seq<DaySpan>) -> int
    decreases s.len(),
{
    if s.len() == 0 {
        0
    } else {
        s[0].duration() + total_duration(s.skip(1))
    }
}

/// `s` covers the span from `start` to `end` day by day: it begins at `start`
/// and ends at `end`, each piece is a valid piece of its own day, and each
/// piece but the last runs into the final second of its day while the next
/// one begins at midnight of the following day. Days strictly increase, so no
/// two pieces overlap.
pub open spec fn covers_day_by_day(s: Seq<DaySpan>, start: Timestamp, end: Timestamp) -> bool {
    &&& s.len() == end.day - start.day + 1
    &&& s[0].day == start.day
    &&& s[0].start == start.micros
    &&& s[s.len() - 1].day == end.day
    &&& s[s.len() - 1].end == end.micros
    &&& forall|i: int| 0 <= i < s.len() ==> (#[trigger] s[i]).wf()
    &&& forall|i: int|
        0 <= i < s.len() - 1 ==> {
            &&& s[i + 1].day == s[i].day + 1
            &&& s[i + 1].start == MIDNIGHT
            &&& (#[trigger] s[i]).end >= LAST_SECOND_OF_DAY
        }
}

proof fn lemma_day_spans_cover(day: i32, from: u64, last: i32, to: u64)
    requires
        day <= last,
        from < MICROS_PER_DAY,
        to < MICROS_PER_DAY,
        day == last ==> from <= to,
    ensures
        covers_day_by_day(
            day_spans(day, from, last, to),
            Timestamp { day, micros: from },
            Timestamp { day: last, micros: to },
        ),
    decreases last - day,
{
    if day < last {
        let next = (day + 1) as i32;
        lemma_day_spans_cover(next, MIDNIGHT, last, to);
        let rest = day_spans(next, MIDNIGHT, last, to);
        let s = day_spans(day, from, last, to);
        assert(s =~= seq![DaySpan { day, start: from, end: cut_end(from) }] + rest);
        assert forall|i: int| 0 <= i < s.len() implies (#[trigger] s[i]).wf() by {
            if i > 0 {
                assert(s[i] == rest[i - 1]);
            }
        }
        assert forall|i: int| 0 <= i < s.len() - 1 implies {
            &&& s[i + 1].day == s[i].day + 1
            &&& s[i + 1].start == MIDNIGHT
            &&& (#[trigger] s[i]).end >= LAST_SECOND_OF_DAY
        } by {
            assert(s[i + 1] == rest[i]);
            if i > 0 {
                assert(s[i] == rest[i - 1]);
            }
        }
    }
}

proof fn lemma_day_spans_total(day: i32, from: u64, last: i32, to: u64)
    requires
        day <= last,
        from <= LAST_SECOND_OF_DAY,
        day == last ==> from <= to,
    ensures
        total_duration(day_spans(day, from, last, to)) + (last - day) * MICROS_PER_SECOND
            == (last - day) * MICROS_PER_DAY + to - from,
    decreases last - day,
{
    let s = day_spans(day, from, last, to);
    if day < last {
        let next = (day + 1) as i32;
        lemma_day_spans_total(next, MIDNIGHT, last, to);
        let rest = day_spans(next, MIDNIGHT, last, to);
        assert(s.skip(1) =~= rest);
        assert(s[0].duration() == LAST_SECOND_OF_DAY - from);
        assert(total_duration(s) == s[0].duration() + total_duration(rest));
    } else {
        assert(s.skip(1) =~= Seq::<DaySpan>::empty());
        assert(total_duration(s) == s[0].duration() + total_duration(s.skip(1)));
    }
}

/// Splitting covers the whole span, day by day, with contiguous pieces that
/// do not overlap.
pub proof fn lemma_split_covers(start: Timestamp, end: Timestamp)
    requires
        start.wf(),
        end.wf(),
        start.abs() <= end.abs(),
    ensures
        covers_day_by_day(split_spec(start, end), start, end),
{
    lemma_abs_order(start, end);
    lemma_day_spans_cover(start.day, start.micros, end.day, end.micros);
}

/// A span within one day is a single piece whose length is the span's.
pub proof fn lemma_split_same_day_total(start: Timestamp, end: Timestamp)
    requires
        start.wf(),
        end.wf(),
        start.abs() <= end.abs(),
        start.day == end.day,
    ensures
        split_spec(start, end).len() == 1,
        total_duration(split_spec(start, end)) == end.abs() - start.abs(),
{
    lemma_abs_order(start, end);
    let s = split_spec(start, end);
    assert(s.skip(1) =~= Seq::<DaySpan>::empty());
    assert(total_duration(s) == s[0].duration() + total_duration(s.skip(1)));
}

/// Over several days, the pieces add up to the span less one second for each
/// midnight crossed: each cut piece ends at `23:59:59`, the next starts at
/// `00:00:00`. This holds where the span does not start within the last
/// second of a day.
pub proof fn lemma_split_total(start: Timestamp, end: Timestamp)
    requires
        start.wf(),
        end.wf(),
        start.abs() <= end.abs(),
        start.micros <= LAST_SECOND_OF_DAY,
    ensures
        total_duration(split_spec(start, end)) + (split_spec(start, end).len() - 1)
            * MICROS_PER_SECOND == end.abs() - start.abs(),
{
    lemma_abs_order(start, end);
    lemma_day_spans_cover(start.day, start.micros, end.day, end.micros);
    lemma_day_spans_total(start.day, start.micros, end.day, end.micros);
}

/// Cuts the span from `start` to `end` into one piece per calendar day.
pub fn split_by_days(start: Timestamp, end: Timestamp) -> (r: Vec<DaySpan>)
    requires
        start.wf(),
        end.wf(),
        start.abs() <= end.abs(),
    ensures
        r@ == split_spec(start, end),
{
    proof {
        lemma_abs_order(start, end);
    }
    let mut spans: Vec<DaySpan> = Vec::new();
    let mut day = start.day;
    let mut from = start.micros;
    while day < end.day
        invariant
            start.day <= day <= end.day,
            spans@ + day_spans(day, from, end.day, end.micros) == split_spec(start, end),
        decreases end.day - day,
    {
        let cut = if from <= LAST_SECOND_OF_DAY {
            LAST_SECOND_OF_DAY
        } else {
            from
        };
        let piece = DaySpan { day, start: from, end: cut };
        let ghost before = spans@;
        spans.push(piece);
        proof {
            let next = (day + 1) as i32;
            assert(day_spans(day, from, end.day, end.micros) == seq![piece] + day_spans(
                next,
                MIDNIGHT,
                end.day,
                end.micros,
            ));
            assert(spans@ + day_spans(next, MIDNIGHT, end.day, end.micros) =~= before + (seq![
                piece,
            ] + day_spans(next, MIDNIGHT, end.day, end.micros)));
        }
        day = day + 1;
        from = MIDNIGHT;
    }
    let ghost before = spans@;
    spans.push(DaySpan { day, start: from, end: end.micros });
    assert(spans@ =~= before + day_spans(day, from, end.day, end.micros));
    spans
}

} // verus!
