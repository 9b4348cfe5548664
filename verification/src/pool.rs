//! Bounded-concurrency pool scheduler.
//!
//! The update pipeline runs many independent units of work but keeps only a
//! bounded number in flight: whenever the pool has spare capacity and units
//! remain, the next one starts; whenever it is full or nothing remains, one
//! completion is awaited.  The scheduler here makes those decisions; the
//! caller owns the futures and performs the actual work.

use vstd::prelude::*;

verus! {

/// The bookkeeping of one bounded fan-out: how many units exist, how many
/// were started, how many of the started ones have completed, and the
/// concurrency limit.
pub struct BoundedPool {
    /// The concurrency limit; at least one.
    pub limit: usize,
    /// The total number of units to run.
    pub total: usize,
    /// How many units have been started so far.
    pub started: usize,
    /// How many units have completed so far.
    pub completed: usize,
}

impl BoundedPool {
    /// The number of units currently in flight.
    pub open spec fn spec_in_flight(self) -> int {
        self.started - self.completed
    }

    /// The pool invariant: completions never outrun starts, starts never
    /// outrun the total, and — the bounded-concurrency guarantee — the
    /// number of units in flight never exceeds the limit.
    pub open spec fn wf(self) -> bool {
        &&& self.limit >= 1
        &&& self.completed <= self.started <= self.total
        &&& self.spec_in_flight() <= self.limit
    }

    /// A fresh pool over `total` units with concurrency capped at `limit`.
    pub fn new(total: usize, limit: usize) -> (p: BoundedPool)
        requires
            limit >= 1,
        ensures
            p.wf(),
            p.total == total,
            p.limit == limit,
            p.started == 0,
            p.completed == 0,
    {
        BoundedPool { limit, total, started: 0, completed: 0 }
    }

    /// The number of units currently in flight.
    pub fn in_flight(&self) -> (n: usize)
        requires
            self.wf(),
        ensures
            n == self.spec_in_flight(),
    {
        self.started - self.completed
    }

    /// Whether the next unit may start now: the pool has spare capacity and
    /// unstarted units remain.
    pub fn can_start(&self) -> (r: bool)
        requires
            self.wf(),
        ensures
            r == (self.spec_in_flight() < self.limit && self.started < self.total),
    {
        self.started - self.completed < self.limit && self.started < self.total
    }

    /// Starts the next unit and returns its index.
    pub fn start(&mut self) -> (idx: usize)
        requires
            old(self).wf(),
            old(self).spec_in_flight() < old(self).limit,
            old(self).started < old(self).total,
        ensures
            final(self).wf(),
            idx == old(self).started,
            final(self).started == old(self).started + 1,
            final(self).completed == old(self).completed,
            final(self).total == old(self).total,
            final(self).limit == old(self).limit,
            final(self).spec_in_flight() == old(self).spec_in_flight() + 1,
    {
        let idx = self.started;
        self.started = self.started + 1;
        idx
    }

    /// Records one completion from the in-flight set.
    pub fn on_complete(&mut self)
        requires
            old(self).wf(),
            old(self).spec_in_flight() > 0,
        ensures
            final(self).wf(),
            final(self).started == old(self).started,
            final(self).completed == old(self).completed + 1,
            final(self).total == old(self).total,
            final(self).limit == old(self).limit,
            final(self).spec_in_flight() == old(self).spec_in_flight() - 1,
    {
        self.completed = self.completed + 1;
    }

    /// Whether the fan-out has drained: every unit was started and every
    /// started unit has completed.
    pub fn is_done(&self) -> (r: bool)
        requires
            self.wf(),
        ensures
            r == (self.started == self.total && self.spec_in_flight() == 0),
            r ==> self.completed == self.total,
    {
        self.started == self.total && self.completed == self.started
    }
}

/// Bounded concurrency: in a well-formed pool — and every pool reachable
/// through `new`, `start` and `on_complete` is well formed — the number of
/// units in flight never exceeds the limit.
pub proof fn lemma_pool_bounded(p: BoundedPool)
    requires
        p.wf(),
    ensures
        p.spec_in_flight() <= p.limit,
{
}

} // verus!
