use vstd::prelude::*;

verus! {

/// The bookkeeping of a fixed-size worker pool: how many jobs are executing
/// right now, and how many workers there are. A worker takes a job with
/// [`PoolCounter::begin`] and gives it back with [`PoolCounter::finish`];
/// whoever waits for the pool to drain waits until [`PoolCounter::is_idle`].
pub struct PoolCounter {
    active: usize,
    capacity: usize,
}

/// The mathematical view of a [`PoolCounter`].
pub struct PoolView {
    pub active: nat,
    pub capacity: nat,
}

impl View for PoolCounter {
    type V = PoolView;

    closed spec fn view(&self) -> PoolView {
        PoolView { active: self.active as nat, capacity: self.capacity as nat }
    }
}

/// One event of a worker: it took a job, or it finished one.
pub enum PoolOp {
    Begin,
    Finish,
}

/// The counter after `ops`, each applied when it is allowed (a job begins
/// only on a free worker, and finishes only while some job is active).
pub open spec fn apply(c: PoolView, ops: Seq<PoolOp>) -> PoolView
    decreases ops.len(),
{
    if ops.len() == 0 {
        c
    } else {
        let p = apply(c, ops.drop_last());
        match ops.last() {
            PoolOp::Begin => PoolView { active: p.active + 1, capacity: p.capacity },
            PoolOp::Finish => PoolView { active: (p.active - 1) as nat, capacity: p.capacity },
        }
    }
}

/// Whether every op of `ops` is allowed where it stands, starting from `c`.
pub open spec fn allowed(c: PoolView, ops: Seq<PoolOp>) -> bool
    decreases ops.len(),
{
    if ops.len() == 0 {
        true
    } else {
        let p = apply(c, ops.drop_last());
        &&& allowed(c, ops.drop_last())
        &&& match ops.last() {
            PoolOp::Begin => p.active < p.capacity,
            PoolOp::Finish => p.active > 0,
        }
    }
}

/// The number of ops of `ops` that are `Begin`s.
pub open spec fn begins(ops: Seq<PoolOp>) -> nat
    decreases ops.len(),
{
    if ops.len() == 0 {
        0
    } else {
        begins(ops.drop_last()) + if ops.last() is Begin { 1nat } else { 0nat }
    }
}

/// The counter of a pool of `capacity` workers with no job running.
pub open spec fn fresh(capacity: nat) -> PoolView {
    PoolView { active: 0, capacity }
}

impl PoolCounter {
    /// The counter of a new pool of `capacity` workers: no job is active.
    pub fn new(capacity: usize) -> (r: PoolCounter)
        ensures
            r@ == fresh(capacity as nat),
    {
        PoolCounter { active: 0, capacity }
    }

    /// The number of jobs executing now.
    pub fn active(&self) -> (r: usize)
        ensures
            r == self@.active,
    {
        self.active
    }

    /// The number of workers.
    pub fn capacity(&self) -> (r: usize)
        ensures
            r == self@.capacity,
    {
        self.capacity
    }

    /// Whether no job is executing: the condition that ends a wait for the
    /// pool to drain.
    pub fn is_idle(&self) -> (r: bool)
        ensures
            r == (self@.active == 0),
    {
        self.active == 0
    }

    /// A worker takes a job. Refused (`false`, nothing changes) when every
    /// worker is already busy.
    pub fn begin(&mut self) -> (r: bool)
        ensures
            r == (old(self)@.active < old(self)@.capacity),
            r ==> final(self)@ == (PoolView { active: old(self)@.active + 1, capacity: old(self)@.capacity }),
            !r ==> final(self)@ == old(self)@,
    {
        if self.active < self.capacity {
            self.active = self.active + 1;
            true
        } else {
            false
        }
    }

    /// A worker is done with its job. Returns whether this brought the count
    /// to zero, which is when the waiters must be woken.
    pub fn finish(&mut self) -> (r: bool)
        requires
            old(self)@.active > 0,
        ensures
            final(self)@ == (PoolView { active: (old(self)@.active - 1) as nat, capacity: old(self)@.capacity }),
            r == (final(self)@.active == 0),
    {
        self.active = self.active - 1;
        self.active == 0
    }
}

proof fn lemma_apply_counts(c: PoolView, ops: Seq<PoolOp>)
    requires
        allowed(c, ops),
    ensures
        apply(c, ops).active + (ops.len() - begins(ops)) == c.active + begins(ops),
        apply(c, ops).active <= if c.active <= c.capacity { c.capacity } else { c.active },
        apply(c, ops).capacity == c.capacity,
        begins(ops) <= ops.len(),
    decreases ops.len(),
{
    if ops.len() > 0 {
        lemma_apply_counts(c, ops.drop_last());
    }
}

/// No job is lost and no wake-up is missed: over any allowed sequence of
/// worker events on a fresh pool, the count of executing jobs is the number
/// of jobs begun less the number finished and never exceeds the number of
/// workers; so once every job begun has finished the pool is idle, and the
/// finish that came last is one that reports the count reaching zero.
pub proof fn lemma_drain_sees_zero(capacity: nat, ops: Seq<PoolOp>)
    requires
        allowed(fresh(capacity), ops),
    ensures
        apply(fresh(capacity), ops).active + (ops.len() - begins(ops)) == begins(ops),
        apply(fresh(capacity), ops).active <= capacity,
        2 * begins(ops) == ops.len() ==> apply(fresh(capacity), ops).active == 0,
        2 * begins(ops) == ops.len() && ops.len() > 0 ==> ops.last() is Finish,
{
    lemma_apply_counts(fresh(capacity), ops);
    if 2 * begins(ops) == ops.len() && ops.len() > 0 {
        lemma_apply_counts(fresh(capacity), ops.drop_last());
    }
}

} // verus!
