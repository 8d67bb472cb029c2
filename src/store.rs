//! An append-only log of rows kept in memory, with the laws that tie what is
//! appended to what the queries report.

use vstd::prelude::*;
use crate::aggregate::{lemma_sum_push, user_total, Selector};
use crate::model::{LogEntry, NewLogEntryOwned};

verus! {

/// Why an append was refused.
#[derive(Clone, Copy, Debug, PartialEq, Eq, Structural)]
pub enum StoreError {
    /// The batch would leave no id in `i32` for the row after it.
    IdsExhausted,
}

/// The rows of `batch` as stored with ids counting up from `first_id`.
pub open spec fn stored(batch: Seq<NewLogEntryOwned>, first_id: int) -> Seq<LogEntry> {
    Seq::new(batch.len(), |i: int| batch[i].stored_as((first_id + i) as i32))
}

/// The summed durations of the rows of `user_id` in `batch`.
pub open spec fn batch_total(batch: Seq<NewLogEntryOwned>, user_id: u64) -> int
    decreases batch.len(),
{
    if batch.len() == 0 {
        0
    } else {
        batch_total(batch.drop_last(), user_id) + (if batch.last().user_id == user_id {
            batch.last().duration()
        } else {
            0
        })
    }
}

/// An append-only log: rows are added in batches and never changed.
pub struct LogStore {
    rows: Vec<LogEntry>,
    next_id: i32,
}

impl View for LogStore {
    type V = Seq<LogEntry>;

    closed spec fn view(&self) -> Seq<LogEntry> {
        self.rows@
    }
}

impl LogStore {
    /// The id that the next stored row gets.
    pub closed spec fn next_id(&self) -> int {
        self.next_id as int
    }

    /// An empty log whose first row gets id 1.
    pub fn new() -> (r: LogStore)
        ensures
            r@ == Seq::<LogEntry>::empty(),
            r.next_id() == 1,
    {
        LogStore { rows: Vec::new(), next_id: 1 }
    }

    /// The stored rows, in the order in which they were appended.
    pub fn rows(&self) -> (r: &Vec<LogEntry>)
        ensures
            r@ == self@,
    {
        &self.rows
    }

    /// Stores the whole batch, or, where its ids and the next one would not
    /// fit in `i32`, nothing at all.
    pub fn append(&mut self, batch: &Vec<NewLogEntryOwned>) -> (r: Result<(), StoreError>)
        requires
            old(self).next_id() >= 1,
        ensures
            r is Ok <==> old(self).next_id() + batch@.len() <= i32::MAX,
            r is Ok ==> final(self)@ == old(self)@ + stored(batch@, old(self).next_id())
                && final(self).next_id() == old(self).next_id() + batch@.len(),
            r is Err ==> final(self)@ == old(self)@ && final(self).next_id() == old(self).next_id(),
            final(self).next_id() >= 1,
    {
        let room = (i32::MAX - self.next_id) as usize;
        if batch.len() > room {
            return Err(StoreError::IdsExhausted);
        }
        let ghost before = self.rows@;
        let ghost first = self.next_id as int;
        let mut i: usize = 0;
        while i < batch.len()
            invariant
                i <= batch@.len(),
                first + batch@.len() <= i32::MAX,
                self.next_id == first + i,
                self.rows@ == before + stored(batch@.take(i as int), first),
            decreases batch@.len() - i,
        {
            let e = batch[i];
            let ghost pre = self.rows@;
            self.rows.push(e.with_id(self.next_id));
            assert(stored(batch@.take(i + 1), first) =~= stored(batch@.take(i as int), first).push(
                e.stored_as((first + i) as i32),
            ));
            assert(self.rows@ =~= before + stored(batch@.take(i + 1), first));
            self.next_id = self.next_id + 1;
            i = i + 1;
        }
        assert(batch@.take(i as int) =~= batch@);
        Ok(())
    }
}

/// Appending a batch to any log adds the batch's durations to each user's
/// all-time total.
pub proof fn lemma_append_total(rows: Seq<LogEntry>, batch: Seq<NewLogEntryOwned>, first_id: int, user_id: u64)
    ensures
        user_total(rows + stored(batch, first_id), user_id) == user_total(rows, user_id)
            + batch_total(batch, user_id),
    decreases batch.len(),
{
    if batch.len() == 0 {
        assert(rows + stored(batch, first_id) =~= rows);
    } else {
        let init = batch.drop_last();
        lemma_append_total(rows, init, first_id, user_id);
        let e = batch.last().stored_as((first_id + batch.len() - 1) as i32);
        assert(rows + stored(batch, first_id) =~= (rows + stored(init, first_id)).push(e));
        lemma_sum_push(rows + stored(init, first_id), e, Selector::User(user_id));
    }
}

proof fn lemma_batch_total_remove(b: Seq<NewLogEntryOwned>, k: int, user_id: u64)
    requires
        0 <= k < b.len(),
    ensures
        batch_total(b, user_id) == batch_total(b.remove(k), user_id) + (if b[k].user_id == user_id {
            b[k].duration()
        } else {
            0
        }),
    decreases b.len(),
{
    if k == b.len() - 1 {
        assert(b.remove(k) =~= b.drop_last());
    } else {
        lemma_batch_total_remove(b.drop_last(), k, user_id);
        assert(b.remove(k).drop_last() =~= b.drop_last().remove(k));
        assert(b.remove(k).last() == b.last());
    }
}

proof fn lemma_batch_total_permutation(a: Seq<NewLogEntryOwned>, b: Seq<NewLogEntryOwned>, user_id: u64)
    requires
        a.to_multiset() == b.to_multiset(),
    ensures
        batch_total(a, user_id) == batch_total(b, user_id),
    decreases a.len(),
{
    broadcast use vstd::seq_lib::group_to_multiset_ensures;

    if a.len() == 0 {
        assert(b.to_multiset().len() == 0);
        assert(b =~= Seq::<NewLogEntryOwned>::empty());
    } else {
        let x = a.last();
        let init = a.drop_last();
        assert(a =~= init.push(x));
        assert(a.to_multiset().count(x) > 0);
        assert(b.contains(x));
        let k = choose|k: int| 0 <= k < b.len() && b[k] == x;
        assert(init.to_multiset() =~= b.remove(k).to_multiset());
        lemma_batch_total_permutation(init, b.remove(k), user_id);
        lemma_batch_total_remove(b, k, user_id);
    }
}

/// Writing a batch of rows to an empty log and then asking for a user's
/// all-time total gives the sum of that user's row durations in the batch,
/// whatever order the batch came in and whatever ids the rows got.
pub proof fn lemma_round_trip(
    a: Seq<NewLogEntryOwned>,
    b: Seq<NewLogEntryOwned>,
    first_a: int,
    first_b: int,
    user_id: u64,
)
    requires
        a.to_multiset() == b.to_multiset(),
    ensures
        user_total(stored(a, first_a), user_id) == batch_total(a, user_id),
        user_total(stored(b, first_b), user_id) == batch_total(a, user_id),
{
    let empty = Seq::<LogEntry>::empty();
    lemma_append_total(empty, a, first_a, user_id);
    lemma_append_total(empty, b, first_b, user_id);
    assert(empty + stored(a, first_a) =~= stored(a, first_a));
    assert(empty + stored(b, first_b) =~= stored(b, first_b));
    lemma_batch_total_permutation(a, b, user_id);
}

} // verus!
