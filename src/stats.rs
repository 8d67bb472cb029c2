//! The presence tracker: who is online since when, and which log rows a
//! session yields when it closes or is flushed.

use vstd::prelude::*;
use crate::model::{entries_of, make_entries, NewLogEntryOwned};
use crate::split::{split_by_days, split_spec};
use crate::time::{now, Timestamp};

verus! {

/// An open session: the user and the moment it started.
#[derive(Clone, Copy, Debug, PartialEq, Eq, Structural)]
pub struct Session {
    pub user_id: u64,
    pub start: Timestamp,
}

/// `user_id` has an open session in `s`.
pub open spec fn has_session(s: Seq<Session>, user_id: u64) -> bool {
    exists|i: int| 0 <= i < s.len() && s[i].user_id == user_id
}

/// No user has two sessions, and every start is a valid timestamp.
pub open spec fn sessions_wf(s: Seq<Session>) -> bool {
    &&& forall|i: int| 0 <= i < s.len() ==> (#[trigger] s[i]).start.wf()
    &&& forall|i: int, j: int|
        0 <= i < j < s.len() ==> (#[trigger] s[i]).user_id != (#[trigger] s[j]).user_id
}

/// The sessions after `user_id` comes online at `at`: a new session at the
/// end where there was none, else no change.
pub open spec fn online_spec(s: Seq<Session>, user_id: u64, at: Timestamp) -> Seq<Session> {
    if has_session(s, user_id) {
        s
    } else {
        s.push(Session { user_id, start: at })
    }
}

/// `at`, or `start` where `at` lies before it: a session never closes
/// before it opened.
pub open spec fn not_before(start: Timestamp, at: Timestamp) -> Timestamp {
    if at.abs() >= start.abs() {
        at
    } else {
        start
    }
}

/// The rows of a session that closes at `at`.
pub open spec fn closing_rows(s: Session, at: Timestamp) -> Seq<NewLogEntryOwned> {
    entries_of(s.user_id, split_spec(s.start, not_before(s.start, at)))
}

/// The rows that a flush at `at` writes for one session: none where the
/// session did not start before `at`.
pub open spec fn session_flush_rows(s: Session, at: Timestamp) -> Seq<NewLogEntryOwned> {
    if s.start.abs() < at.abs() {
        entries_of(s.user_id, split_spec(s.start, at))
    } else {
        Seq::empty()
    }
}

/// The rows that a flush at `at` writes, session by session in order.
pub open spec fn flush_rows(s: Seq<Session>, at: Timestamp) -> Seq<NewLogEntryOwned>
    decreases s.len(),
{
    if s.len() == 0 {
        Seq::empty()
    } else {
        flush_rows(s.drop_last(), at) + session_flush_rows(s.last(), at)
    }
}

/// A session after a flush at `at`: it restarts at `at`, unless it started
/// later than that.
pub open spec fn restarted(s: Session, at: Timestamp) -> Session {
    Session { user_id: s.user_id, start: not_before(s.start, at) }
}

/// The sessions after a flush at `at`.
pub open spec fn flushed(s: Seq<Session>, at: Timestamp) -> Seq<Session> {
    s.map_values(|x: Session| restarted(x, at))
}

/// The online-time tracker: the store's address, and the open sessions.
pub struct StatManager {
    db_url: String,
    sessions: Vec<Session>,
}

impl View for StatManager {
    type V = Seq<Session>;

    closed spec fn view(&self) -> Seq<Session> {
        self.sessions@
    }
}

impl StatManager {
    #[verifier::type_invariant]
    spec fn inv(self) -> bool {
        sessions_wf(self.sessions@)
    }

    pub closed spec fn url(&self) -> Seq<char> {
        self.db_url@
    }

    /// A tracker with no open session.
    pub fn new(db_url: &str) -> (r: StatManager)
        ensures
            r@ == Seq::<Session>::empty(),
            r.url() == db_url@,
    {
        StatManager { db_url: db_url.to_owned(), sessions: Vec::new() }
    }

    /// The address of the store that the rows go to.
    pub fn db_url(&self) -> (r: &str)
        ensures
            r@ == self.url(),
    {
        self.db_url.as_str()
    }

    /// The open sessions, in the order in which they were opened.
    pub fn sessions(&self) -> (r: &Vec<Session>)
        ensures
            r@ == self@,
    {
        &self.sessions
    }

    fn position(&self, user_id: u64) -> (r: Option<usize>)
        ensures
            match r {
                Some(i) => i < self@.len() && self@[i as int].user_id == user_id,
                None => !has_session(self@, user_id),
            },
    {
        let mut i: usize = 0;
        while i < self.sessions.len()
            invariant
                i <= self@.len(),
                self@ == self.sessions@,
                forall|j: int| 0 <= j < i ==> self@[j].user_id != user_id,
            decreases self@.len() - i,
        {
            if self.sessions[i].user_id == user_id {
                return Some(i);
            }
            i = i + 1;
        }
        None
    }

    /// Opens a session of `user_id` at `at`, unless one is open already: a
    /// repeated "online" leaves the first start in place. Returns whether a
    /// session was opened.
    pub fn mark_online(&mut self, user_id: u64, at: Timestamp) -> (r: bool)
        requires
            at.wf(),
        ensures
            r == !has_session(old(self)@, user_id),
            final(self)@ == online_spec(old(self)@, user_id, at),
            sessions_wf(final(self)@),
            final(self).url() == old(self).url(),
    {
        proof {
            use_type_invariant(&*self);
        }
        match self.position(user_id) {
            Some(_) => false,
            None => {
                let mut sessions: Vec<Session> = Vec::new();
                std::mem::swap(&mut sessions, &mut self.sessions);
                sessions.push(Session { user_id, start: at });
                self.sessions = sessions;
                true
            },
        }
    }

    /// Opens a session of `user_id` now, unless one is open already.
    pub fn user_now_online(&mut self, user_id: u64) -> (r: bool)
        ensures
            r == !has_session(old(self)@, user_id),
            !r ==> final(self)@ == old(self)@,
            r ==> exists|at: Timestamp| at.wf() && final(self)@ == old(self)@.push(Session { user_id, start: at }),
            sessions_wf(final(self)@),
            final(self).url() == old(self).url(),
    {
        let at = now();
        self.mark_online(user_id, at)
    }

    /// Closes the session of `user_id` at `at` and returns its rows, one per
    /// day; an `at` before the session's start closes it where it started.
    /// Returns `None`, and changes nothing, where no session is open.
    pub fn mark_offline(&mut self, user_id: u64, at: Timestamp) -> (r: Option<Vec<NewLogEntryOwned>>)
        requires
            at.wf(),
        ensures
            r is None <==> !has_session(old(self)@, user_id),
            r is None ==> final(self)@ == old(self)@,
            r matches Some(rows) ==> exists|i: int|
                0 <= i < old(self)@.len()
                && old(self)@[i].user_id == user_id
                && final(self)@ == old(self)@.remove(i)
                && rows@ == closing_rows(old(self)@[i], at),
            sessions_wf(final(self)@),
            final(self).url() == old(self).url(),
    {
        proof {
            use_type_invariant(&*self);
        }
        match self.position(user_id) {
            None => None,
            Some(i) => {
                let ghost old_s = self@;
                let mut sessions: Vec<Session> = Vec::new();
                std::mem::swap(&mut sessions, &mut self.sessions);
                let s = sessions.remove(i);
                let end = s.start.max(at);
                let spans = split_by_days(s.start, end);
                let rows = make_entries(user_id, &spans);
                assert forall|a: int, b: int|
                    0 <= a < b < sessions@.len() implies (#[trigger] sessions@[a]).user_id != (
                    #[trigger] sessions@[b]).user_id by {
                    let a2 = if a < i { a } else { a + 1 };
                    let b2 = if b < i { b } else { b + 1 };
                    assert(sessions@[a] == old_s[a2]);
                    assert(sessions@[b] == old_s[b2]);
                }
                assert forall|a: int| 0 <= a < sessions@.len() implies (#[trigger] sessions@[a]).start.wf() by {
                    let a2 = if a < i { a } else { a + 1 };
                    assert(sessions@[a] == old_s[a2]);
                }
                self.sessions = sessions;
                Some(rows)
            },
        }
    }

    /// Closes the session of `user_id` now and returns its rows; `None`, and
    /// no change, where no session is open.
    pub fn user_now_offline(&mut self, user_id: u64) -> (r: Option<Vec<NewLogEntryOwned>>)
        ensures
            r is None <==> !has_session(old(self)@, user_id),
            r is None ==> final(self)@ == old(self)@,
            r matches Some(rows) ==> exists|i: int, at: Timestamp|
                0 <= i < old(self)@.len()
                && old(self)@[i].user_id == user_id
                && final(self)@ == old(self)@.remove(i)
                && at.wf()
                && rows@ == closing_rows(old(self)@[i], at),
            sessions_wf(final(self)@),
            final(self).url() == old(self).url(),
    {
        let at = now();
        self.mark_offline(user_id, at)
    }

    /// The rows that a flush at `at` writes: for each session that started
    /// before `at`, its pieces from its start to `at`. Nothing changes; once
    /// the rows are stored, `commit_flush` restarts the sessions.
    pub fn flush_stats(&self, at: Timestamp) -> (r: Vec<NewLogEntryOwned>)
        requires
            at.wf(),
        ensures
            r@ == flush_rows(self@, at),
    {
        proof {
            use_type_invariant(self);
        }
        let mut rows: Vec<NewLogEntryOwned> = Vec::new();
        let mut i: usize = 0;
        while i < self.sessions.len()
            invariant
                i <= self@.len(),
                self@ == self.sessions@,
                sessions_wf(self@),
                at.wf(),
                rows@ == flush_rows(self@.take(i as int), at),
            decreases self@.len() - i,
        {
            let s = self.sessions[i];
            assert(self@.take(i + 1).drop_last() =~= self@.take(i as int));
            assert(s.start.wf());
            if s.start.day < at.day || (s.start.day == at.day && s.start.micros < at.micros) {
                proof { crate::time::lemma_abs_order(s.start, at); }
                let spans = split_by_days(s.start, at);
                let mut more = make_entries(s.user_id, &spans);
                rows.append(&mut more);
            } else {
                proof { crate::time::lemma_abs_order(at, s.start); }
            }
            i = i + 1;
        }
        assert(self@.take(i as int) =~= self@);
        rows
    }

    /// Restarts every session at `at`, after the rows of a flush at `at`
    /// have been stored. A session that started after `at` keeps its start.
    pub fn commit_flush(&mut self, at: Timestamp)
        requires
            at.wf(),
        ensures
            final(self)@ == flushed(old(self)@, at),
            sessions_wf(final(self)@),
            final(self).url() == old(self).url(),
    {
        proof {
            use_type_invariant(&*self);
        }
        let ghost start_s = self@;
        let mut sessions: Vec<Session> = Vec::new();
        std::mem::swap(&mut sessions, &mut self.sessions);
        let mut i: usize = 0;
        while i < sessions.len()
            invariant
                i <= sessions@.len(),
                sessions@.len() == start_s.len(),
                at.wf(),
                sessions_wf(start_s),
                forall|j: int| 0 <= j < i ==> sessions@[j] == restarted(start_s[j], at),
                forall|j: int| i <= j < sessions@.len() ==> sessions@[j] == start_s[j],
            decreases sessions@.len() - i,
        {
            let s = sessions[i];
            assert(s == start_s[i as int]);
            let later = s.start.max(at);
            sessions.set(i, Session { user_id: s.user_id, start: later });
            i = i + 1;
        }
        assert(sessions@ =~= flushed(start_s, at));
        assert(sessions_wf(sessions@)) by {
            assert forall|a: int| 0 <= a < sessions@.len() implies (#[trigger] sessions@[a]).start.wf() by {
                assert(start_s[a].start.wf());
            }
            assert forall|a: int, b: int|
                0 <= a < b < sessions@.len() implies (#[trigger] sessions@[a]).user_id != (
                #[trigger] sessions@[b]).user_id by {
                assert(start_s[a].user_id != start_s[b].user_id);
            }
        }
        self.sessions = sessions;
    }
}

/// A repeated "online" changes nothing: after the first, the user's session
/// is open, and a second one, at any time, leaves it and its start as they
/// were.
pub proof fn lemma_online_twice(s: Seq<Session>, user_id: u64, first: Timestamp, second: Timestamp)
    ensures
        has_session(online_spec(s, user_id, first), user_id),
        online_spec(online_spec(s, user_id, first), user_id, second) == online_spec(
            s,
            user_id,
            first,
        ),
{
    let once = online_spec(s, user_id, first);
    if !has_session(s, user_id) {
        assert(once[s.len() as int].user_id == user_id);
    }
}

/// A second flush at the same moment writes no rows: every session then
/// starts no earlier than that moment.
pub proof fn lemma_flush_twice(s: Seq<Session>, at: Timestamp)
    ensures
        flush_rows(flushed(s, at), at) == Seq::<NewLogEntryOwned>::empty(),
    decreases s.len(),
{
    let f = flushed(s, at);
    if s.len() > 0 {
        assert(f.drop_last() =~= flushed(s.drop_last(), at));
        lemma_flush_twice(s.drop_last(), at);
        assert(session_flush_rows(f.last(), at) =~= Seq::<NewLogEntryOwned>::empty());
        assert(flush_rows(f, at) =~= Seq::<NewLogEntryOwned>::empty());
    }
}

} // verus!
