//! Timestamps as a day number and a time of day in microseconds.

use vstd::prelude::*;

verus! {

/// Microseconds in one second.
pub const MICROS_PER_SECOND: u64 = 1_000_000;

/// Microseconds in one calendar day.
pub const MICROS_PER_DAY: u64 = 86_400_000_000;

/// Time of day of `23:59:59`, the end written for a span cut at midnight.
pub const LAST_SECOND_OF_DAY: u64 = 86_399_000_000;

/// Time of day of `00:00:00`.
pub const MIDNIGHT: u64 = 0;

/// A point in time: the day, counted from 1970-01-01 (day 0), and the
/// microseconds elapsed since that day's midnight.
#[derive(Clone, Copy, Debug, PartialEq, Eq, Structural)]
pub struct Timestamp {
    pub day: i32,
    pub micros: u64,
}

impl Timestamp {
    /// The time of day lies within the day.
    pub open spec fn wf(self) -> bool {
        self.micros < MICROS_PER_DAY
    }

    /// Microseconds since 1970-01-01 00:00:00.
    pub open spec fn abs(self) -> int {
        self.day as int * MICROS_PER_DAY as int + self.micros as int
    }

    /// The timestamp of `micros` microseconds after 1970-01-01 00:00:00
    /// (before it, where negative).
    pub fn from_unix_micros(micros: i64) -> (r: Timestamp)
        ensures
            r.wf(),
            r.abs() == micros as int,
    {
        if micros >= 0 {
            let u = micros as u64;
            let day = u / MICROS_PER_DAY;
            let rem = u % MICROS_PER_DAY;
            assert(u as int == day as int * 86_400_000_000int + rem as int) by (nonlinear_arith)
                requires
                    day == u / 86_400_000_000u64,
                    rem == u % 86_400_000_000u64,
            ;
            assert(day <= 106_751_992) by (nonlinear_arith)
                requires
                    day == u / 86_400_000_000u64,
                    u <= i64::MAX,
            ;
            Timestamp { day: day as i32, micros: rem }
        } else {
            let neg = (-(micros + 1)) as u64;
            let q = neg / MICROS_PER_DAY;
            let r = neg % MICROS_PER_DAY;
            assert(neg as int == q as int * 86_400_000_000int + r as int) by (nonlinear_arith)
                requires
                    q == neg / 86_400_000_000u64,
                    r == neg % 86_400_000_000u64,
            ;
            assert(q <= 106_751_992) by (nonlinear_arith)
                requires
                    q == neg / 86_400_000_000u64,
                    neg <= i64::MAX,
            ;
            let day = -(q as i32) - 1;
            let rem = MICROS_PER_DAY - 1 - r;
            assert(micros as int == day as int * 86_400_000_000int + rem as int) by (nonlinear_arith)
                requires
                    neg as int == q as int * 86_400_000_000int + r as int,
                    neg as int == -(micros + 1),
                    day == -(q as int) - 1,
                    rem == 86_400_000_000int - 1 - r,
            ;
            Timestamp { day, micros: rem }
        }
    }

    /// The later of `self` and `other`.
    pub fn max(self, other: Timestamp) -> (r: Timestamp)
        requires
            self.wf(),
            other.wf(),
        ensures
            r == (if self.abs() >= other.abs() { self } else { other }),
    {
        if self.day > other.day || (self.day == other.day && self.micros >= other.micros) {
            proof { lemma_abs_order(self, other); }
            self
        } else {
            proof { lemma_abs_order(self, other); }
            other
        }
    }
}

/// Comparing two valid timestamps by day, then by time of day, is comparing
/// their absolute values.
pub proof fn lemma_abs_order(a: Timestamp, b: Timestamp)
    requires
        a.wf(),
        b.wf(),
    ensures
        a.abs() <= b.abs() <==> (a.day < b.day || (a.day == b.day && a.micros <= b.micros)),
        a.abs() == b.abs() <==> a == b,
{
    if a.day < b.day {
        assert(a.day as int * 86_400_000_000 + 86_400_000_000 <= b.day as int * 86_400_000_000)
            by (nonlinear_arith)
            requires a.day < b.day;
    } else if a.day > b.day {
        assert(b.day as int * 86_400_000_000 + 86_400_000_000 <= a.day as int * 86_400_000_000)
            by (nonlinear_arith)
            requires a.day > b.day;
    }
}

} // verus!

verus! {

/// Relies on chrono's `Utc::now` and `DateTime::timestamp_micros`: the
/// microseconds since 1970-01-01 00:00:00 UTC of the present moment. Nothing
/// is promised of the value.
#[verifier::external_body]
fn unix_micros_now() -> i64 {
    chrono::Utc::now().timestamp_micros()
}

/// The present moment.
pub fn now() -> (r: Timestamp)
    ensures
        r.wf(),
{
    Timestamp::from_unix_micros(unix_micros_now())
}

} // verus!
