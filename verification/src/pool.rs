//! Bounded-concurrency admission: a fixed number of worker slots, one issue
//! per slot, admitted in listing order. A new issue begins only after some
//! in-flight issue completes — a semaphore, not a queue of priorities.

use vstd::prelude::*;

verus! {

/// The admission state of the worker pool: how many slots it has and how
/// many issues are in flight.
pub struct WorkerPool {
    /// The number of worker slots, at least one.
    pub limit: usize,
    /// How many issues are in flight right now.
    pub in_flight: usize,
}

impl WorkerPool {
    /// The pool's invariant: the bound is positive and never exceeded.
    pub open spec fn wf(&self) -> bool {
        1 <= self.limit && self.in_flight <= self.limit
    }

    /// A fresh pool with `limit` slots and nothing in flight.
    pub fn new(limit: usize) -> (r: WorkerPool)
        requires
            limit >= 1,
        ensures
            r.wf(),
            r.limit == limit,
            r.in_flight == 0,
    {
        WorkerPool { limit, in_flight: 0 }
    }

    /// Whether a slot is free.
    pub fn has_free_slot(&self) -> (r: bool)
        ensures
            r == (self.in_flight < self.limit),
    {
        self.in_flight < self.limit
    }

    /// Admits the next issue to a free slot.
    pub fn begin_issue(&mut self)
        requires
            old(self).wf(),
            old(self).in_flight < old(self).limit,
        ensures
            final(self).wf(),
            final(self).limit == old(self).limit,
            final(self).in_flight == old(self).in_flight + 1,
    {
        self.in_flight = self.in_flight + 1;
    }

    /// Records that some in-flight issue finished, freeing its slot.
    pub fn finish_issue(&mut self)
        requires
            old(self).wf(),
            old(self).in_flight > 0,
        ensures
            final(self).wf(),
            final(self).limit == old(self).limit,
            final(self).in_flight == old(self).in_flight - 1,
    {
        self.in_flight = self.in_flight - 1;
    }
}

/// One admission-or-completion of the pool's history.
#[derive(Debug, Clone, Copy, PartialEq, Eq, Structural)]
pub enum PoolOp {
    /// An issue entered a worker slot.
    Admit,
    /// An in-flight issue finished.
    Complete,
}

/// How many issues are in flight after a history of operations.
pub open spec fn pool_after(ops: Seq<PoolOp>) -> int
    decreases ops.len(),
{
    if ops.len() == 0 {
        0
    } else {
        pool_after(ops.drop_last()) + (match ops.last() {
            PoolOp::Admit => 1int,
            PoolOp::Complete => -1int,
        })
    }
}

/// A history obeys the admission rule: an issue is admitted only into a free
/// slot, and only in-flight issues complete.
pub open spec fn pool_legal(ops: Seq<PoolOp>, limit: int) -> bool
    decreases ops.len(),
{
    if ops.len() == 0 {
        true
    } else {
        &&& pool_legal(ops.drop_last(), limit)
        &&& (match ops.last() {
            PoolOp::Admit => pool_after(ops.drop_last()) < limit,
            PoolOp::Complete => pool_after(ops.drop_last()) > 0,
        })
    }
}

/// The concurrency bound: under the admission rule, at no point in any
/// history are more than `limit` issues in flight — so with `concurrency`
/// workers, never more than `concurrency` issues are fetching pages at
/// once, however the interleaving goes.
pub proof fn lemma_pool_bounded(ops: Seq<PoolOp>, limit: int)
    requires
        limit >= 0,
        pool_legal(ops, limit),
    ensures
        0 <= pool_after(ops) <= limit,
    decreases ops.len(),
{
    if ops.len() > 0 {
        lemma_pool_bounded(ops.drop_last(), limit);
    }
}

/// The bound holds not only at the end but after every prefix of the
/// history.
pub proof fn lemma_pool_bounded_throughout(ops: Seq<PoolOp>, limit: int, k: int)
    requires
        limit >= 0,
        pool_legal(ops, limit),
        0 <= k <= ops.len(),
    ensures
        0 <= pool_after(ops.take(k)) <= limit,
    decreases ops.len(),
{
    if k == ops.len() {
        assert(ops.take(k) =~= ops);
        lemma_pool_bounded(ops, limit);
    } else {
        assert(ops.take(k) =~= ops.drop_last().take(k));
        lemma_pool_bounded_throughout(ops.drop_last(), limit, k);
    }
}

} // verus!
