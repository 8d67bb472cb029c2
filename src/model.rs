//! Rows of the online-time log.

use vstd::prelude::*;
use crate::split::DaySpan;
use crate::time::MICROS_PER_DAY;

verus! {

/// A stored row of the log: its id, the user, the day, and the times of day
/// (microseconds since midnight) at which the user's presence on that day
/// started and ended.
#[derive(Clone, Copy, Debug, PartialEq, Eq, Structural)]
pub struct LogEntry {
    pub id: i32,
    pub user_id: u64,
    pub day: i32,
    pub online_time_start: u64,
    pub online_time_end: u64,
}

/// A row of the log that is yet to be stored, and so has no id yet.
#[derive(Clone, Copy, Debug, PartialEq, Eq, Structural)]
pub struct NewLogEntryOwned {
    pub user_id: u64,
    pub day: i32,
    pub online_time_start: u64,
    pub online_time_end: u64,
}

impl LogEntry {
    /// Starts no later than it ends, and ends within its day.
    pub open spec fn wf(self) -> bool {
        self.online_time_start <= self.online_time_end < MICROS_PER_DAY
    }

    /// Length of the row's interval in microseconds.
    pub open spec fn duration(self) -> int {
        self.online_time_end - self.online_time_start
    }
}

impl NewLogEntryOwned {
    /// Starts no later than it ends, and ends within its day.
    pub open spec fn wf(self) -> bool {
        self.online_time_start <= self.online_time_end < MICROS_PER_DAY
    }

    /// Length of the row's interval in microseconds.
    pub open spec fn duration(self) -> int {
        self.online_time_end - self.online_time_start
    }

    /// The row as stored under `id`.
    pub fn with_id(self, id: i32) -> (r: LogEntry)
        ensures
            r == self.stored_as(id),
    {
        LogEntry {
            id,
            user_id: self.user_id,
            day: self.day,
            online_time_start: self.online_time_start,
            online_time_end: self.online_time_end,
        }
    }

    pub open spec fn stored_as(self, id: i32) -> LogEntry {
        LogEntry {
            id,
            user_id: self.user_id,
            day: self.day,
            online_time_start: self.online_time_start,
            online_time_end: self.online_time_end,
        }
    }
}

/// The row of `user_id` for one day's piece of a span.
pub open spec fn entry_of(user_id: u64, span: DaySpan) -> NewLogEntryOwned {
    NewLogEntryOwned {
        user_id,
        day: span.day,
        online_time_start: span.start,
        online_time_end: span.end,
    }
}

/// The rows of `user_id` for the pieces of a span, in the same order.
pub open spec fn entries_of(user_id: u64, spans: Seq<DaySpan>) -> Seq<NewLogEntryOwned> {
    spans.map_values(|s: DaySpan| entry_of(user_id, s))
}

/// Makes the rows of `user_id` for the pieces of a span.
pub fn make_entries(user_id: u64, spans: &Vec<DaySpan>) -> (r: Vec<NewLogEntryOwned>)
    ensures
        r@ == entries_of(user_id, spans@),
{
    let mut rows: Vec<NewLogEntryOwned> = Vec::new();
    let mut i: usize = 0;
    while i < spans.len()
        invariant
            i <= spans@.len(),
            rows@ == entries_of(user_id, spans@.take(i as int)),
        decreases spans@.len() - i,
    {
        let s = spans[i];
        rows.push(
            NewLogEntryOwned {
                user_id,
                day: s.day,
                online_time_start: s.start,
                online_time_end: s.end,
            },
        );
        assert(spans@.take(i + 1) =~= spans@.take(i as int).push(s));
        assert(rows@ =~= entries_of(user_id, spans@.take(i + 1)));
        i = i + 1;
    }
    assert(spans@.take(i as int) =~= spans@);
    rows
}

} // verus!
