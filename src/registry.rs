use vstd::prelude::*;

use crate::report::{outcome_of, outcome_spec, Outcome};

verus! {

/// The table of running jobs: for each job id, whether its cancellation has
/// been triggered, and the handle through which the job can be reached (its
/// cancellation signal and the external processes it started).
///
/// An entry is added just before a job starts and removed just after it
/// ends; the table is therefore what can be cancelled right now.
pub struct JobRegistry<H> {
    ids: Vec<usize>,
    cancelled: Vec<bool>,
    handles: Vec<H>,
}

/// The registry after a sweep: every entry cancelled, handles unchanged.
pub open spec fn swept<H>(m: Map<usize, (bool, H)>) -> Map<usize, (bool, H)> {
    Map::new(|id: usize| m.contains_key(id), |id: usize| (true, m[id].1))
}

/// The entries whose cancellation has not yet been triggered.
pub open spec fn not_yet_cancelled<H>(m: Map<usize, (bool, H)>) -> Set<usize> {
    Set::new(|id: usize| m.contains_key(id) && !m[id].0)
}

/// The result of a sweep whose termination requests gave `results`, in
/// order: the first error, or success when none failed.
pub open spec fn first_failure<E>(results: Seq<Result<(), E>>) -> Result<(), E>
    decreases results.len(),
{
    if results.len() == 0 {
        Ok(())
    } else if first_failure(results.drop_last()) is Err {
        first_failure(results.drop_last())
    } else {
        results.last()
    }
}

/// Folds the results of the termination requests of a sweep into the
/// sweep's result: the first error, or `Ok` when every request succeeded.
/// One failed request does not hide the others' having been made; it only
/// decides what is reported.
pub fn first_error<E>(results: Vec<Result<(), E>>) -> (r: Result<(), E>)
    ensures
        r == first_failure(results@),
{
    let ghost all = results@;
    let mut rest = results;
    let mut out: Result<(), E> = Ok(());
    proof {
        if let Ok(u) = first_failure(all) {
            assert(u == ());
        }
        assert(all.subrange(0, all.len() as int) =~= all);
    }
    while rest.len() > 0
        invariant
            rest@.len() <= all.len(),
            rest@ == all.subrange(0, rest@.len() as int),
            first_failure(all) == if first_failure(rest@) is Err { first_failure(rest@) } else { out },
        decreases rest@.len(),
    {
        let ghost before = rest@;
        let x = rest.pop().unwrap();
        proof {
            assert(rest@ == before.drop_last());
            assert(rest@ =~= all.subrange(0, rest@.len() as int));
        }
        if x.is_err() {
            out = x;
        }
    }
    out
}

/// A sweep raises every cancellation signal: each job in the table after
/// it has its cancellation triggered, and a job whose signal is raised ends
/// `Cancelled` unless it had already produced its value; it is never left
/// running as if nothing had happened, nor reported as an ordinary failure.
pub proof fn lemma_sweep_reaches_every_job<H>(
    m: Map<usize, (bool, H)>,
    id: usize,
    result: Result<Seq<char>, Seq<char>>,
)
    requires
        m.contains_key(id),
    ensures
        swept(m).contains_key(id),
        swept(m)[id].0,
        outcome_spec(result, swept(m)[id].0) is Cancelled
            || outcome_spec(result, swept(m)[id].0) is Completed,
{
}

/// Cancelling is idempotent: a second sweep changes nothing and finds no
/// job whose cancellation it still has to trigger.
pub proof fn lemma_sweep_idempotent<H>(m: Map<usize, (bool, H)>)
    ensures
        swept(swept(m)) == swept(m),
        not_yet_cancelled(swept(m)) == Set::<usize>::empty(),
{
    assert(swept(swept(m)) =~= swept(m));
    assert(not_yet_cancelled(swept(m)) =~= Set::<usize>::empty());
}

impl<H> JobRegistry<H> {
    /// Each id stands in the table at most once.
    pub closed spec fn wf(&self) -> bool {
        &&& self.cancelled@.len() == self.ids@.len()
        &&& self.handles@.len() == self.ids@.len()
        &&& forall|i: int, j: int|
            0 <= i < j < self.ids@.len() ==> self.ids@[i] != self.ids@[j]
    }

    closed spec fn index_of(&self, id: usize) -> int {
        choose|i: int| 0 <= i < self.ids@.len() && self.ids@[i] == id
    }

    /// The table: job id to (cancellation triggered, handle).
    pub closed spec fn view(&self) -> Map<usize, (bool, H)> {
        Map::new(
            |id: usize| self.ids@.contains(id),
            |id: usize| (self.cancelled@[self.index_of(id)], self.handles@[self.index_of(id)]),
        )
    }

    proof fn lemma_index(&self, i: int)
        requires
            self.wf(),
            0 <= i < self.ids@.len(),
        ensures
            self.index_of(self.ids@[i]) == i,
            self@.contains_key(self.ids@[i]),
            self@[self.ids@[i]] == (self.cancelled@[i], self.handles@[i]),
    {
        assert(self.ids@.contains(self.ids@[i]));
        let k = self.index_of(self.ids@[i]);
        assert(0 <= k < self.ids@.len() && self.ids@[k] == self.ids@[i]);
        if k < i {
            assert(self.ids@[k] != self.ids@[i]);
        } else if i < k {
            assert(self.ids@[i] != self.ids@[k]);
        }
    }

    /// An empty table.
    pub fn new() -> (r: JobRegistry<H>)
        ensures
            r.wf(),
            r@ == Map::<usize, (bool, H)>::empty(),
    {
        let r = JobRegistry { ids: Vec::new(), cancelled: Vec::new(), handles: Vec::new() };
        assert(r@ =~= Map::<usize, (bool, H)>::empty());
        r
    }

    fn find(&self, id: usize) -> (r: Option<usize>)
        requires
            self.wf(),
        ensures
            match r {
                Some(i) => i < self.ids@.len() && self.ids@[i as int] == id,
                None => !self@.contains_key(id),
            },
    {
        let mut i: usize = 0;
        while i < self.ids.len()
            invariant
                i <= self.ids@.len(),
                forall|k: int| 0 <= k < i ==> self.ids@[k] != id,
            decreases self.ids@.len() - i,
        {
            if self.ids[i] == id {
                return Some(i);
            }
            i = i + 1;
        }
        None
    }

    /// Adds job `id` with its handle, its cancellation not yet triggered.
    /// Returns `false`, and leaves the table as it was, when `id` is already
    /// in it.
    pub fn add(&mut self, id: usize, handle: H) -> (r: bool)
        requires
            old(self).wf(),
        ensures
            final(self).wf(),
            r == !old(self)@.contains_key(id),
            r ==> final(self)@ == old(self)@.insert(id, (false, handle)),
            !r ==> final(self)@ == old(self)@,
    {
        if self.find(id).is_some() {
            return false;
        }
        let ghost before = *self;
        self.ids.push(id);
        self.cancelled.push(false);
        self.handles.push(handle);
        proof {
            assert(self.wf()) by {
                assert forall|i: int, j: int| 0 <= i < j < self.ids@.len() implies self.ids@[i] != self.ids@[j] by {
                    if j == before.ids@.len() {
                        assert(before.ids@[i] == self.ids@[i]);
                        assert(before.ids@.contains(before.ids@[i]));
                    } else {
                        assert(before.ids@[i] == self.ids@[i]);
                        assert(before.ids@[j] == self.ids@[j]);
                    }
                }
            }
            let n = before.ids@.len() as int;
            self.lemma_index(n);
            assert forall|k: usize| #[trigger] before@.contains_key(k) implies
                self@.contains_key(k) && self@[k] == before@[k] by {
                let i = before.index_of(k);
                before.lemma_index(i);
                self.lemma_index(i);
            }
            assert forall|k: usize| #[trigger] self@.contains_key(k) implies
                k == id || before@.contains_key(k) by {
                let i = self.index_of(k);
                if i < n {
                    assert(before.ids@[i] == k);
                    assert(before.ids@.contains(k));
                }
            }
            assert(self@ =~= before@.insert(id, (false, handle)));
        }
        true
    }

    /// Removes job `id` from the table and hands back its handle; `None`,
    /// with the table unchanged, when `id` is not in it.
    pub fn remove(&mut self, id: usize) -> (r: Option<H>)
        requires
            old(self).wf(),
        ensures
            final(self).wf(),
            final(self)@ == old(self)@.remove(id),
            match r {
                Some(h) => old(self)@.contains_key(id) && h == old(self)@[id].1,
                None => !old(self)@.contains_key(id),
            },
    {
        let i = match self.find(id) {
            Some(i) => i,
            None => {
                proof { assert(self@.remove(id) =~= self@); }
                return None;
            },
        };
        let ghost before = *self;
        proof { before.lemma_index(i as int); }
        self.ids.remove(i);
        self.cancelled.remove(i);
        let h = self.handles.remove(i);
        proof {
            let n = before.ids@.len() as int;
            assert(self.wf()) by {
                assert forall|a: int, b: int| 0 <= a < b < self.ids@.len() implies self.ids@[a] != self.ids@[b] by {
                    let a2 = if a < i { a } else { a + 1 };
                    let b2 = if b < i { b } else { b + 1 };
                    assert(self.ids@[a] == before.ids@[a2]);
                    assert(self.ids@[b] == before.ids@[b2]);
                }
            }
            assert forall|k: usize| #[trigger] before@.contains_key(k) && k != id implies
                self@.contains_key(k) && self@[k] == before@[k] by {
                let j = before.index_of(k);
                before.lemma_index(j);
                let j2 = if j < i { j } else { j - 1 };
                assert(j != i);
                assert(self.ids@[j2] == k);
                self.lemma_index(j2);
            }
            assert forall|k: usize| #[trigger] self@.contains_key(k) implies
                k != id && before@.contains_key(k) by {
                let j = self.index_of(k);
                let j2 = if j < i { j } else { j + 1 };
                assert(before.ids@[j2] == k);
                assert(before.ids@.contains(k));
                if k == id {
                    assert(j2 != i);
                }
            }
            assert(self@ =~= before@.remove(id));
        }
        Some(h)
    }

    /// Ends job `id`: decides its terminal state from what the executor
    /// returned and whether its cancellation had been triggered, and takes
    /// its entry out of the table.
    pub fn conclude(&mut self, id: usize, result: Result<String, String>) -> (r: Outcome)
        requires
            old(self).wf(),
        ensures
            final(self).wf(),
            final(self)@ == old(self)@.remove(id),
            r@ == outcome_spec(
                match result {
                    Ok(v) => Ok(v@),
                    Err(e) => Err(e@),
                },
                old(self)@.contains_key(id) && old(self)@[id].0,
            ),
    {
        let cancelled = self.is_cancelled(id);
        let _ = self.remove(id);
        outcome_of(result, cancelled)
    }

    /// The cancellation sweep: triggers the cancellation of every entry, and
    /// returns the ids whose cancellation it triggered, that is those not
    /// cancelled before (each once, in the order in which they were added).
    /// A second sweep therefore finds nothing more to do.
    pub fn cancel_all(&mut self) -> (r: Vec<usize>)
        requires
            old(self).wf(),
        ensures
            final(self).wf(),
            final(self)@ == swept(old(self)@),
            r@.to_set() == not_yet_cancelled(old(self)@),
            r@.no_duplicates(),
    {
        let ghost before = *self;
        let ghost mut from: Seq<int> = Seq::empty();
        let mut out: Vec<usize> = Vec::new();
        let mut i: usize = 0;
        while i < self.cancelled.len()
            invariant
                before.wf(),
                self.ids@ == before.ids@,
                self.handles@ == before.handles@,
                self.cancelled@.len() == before.cancelled@.len(),
                i <= self.cancelled@.len(),
                forall|k: int| 0 <= k < i ==> self.cancelled@[k],
                forall|k: int| i <= k < self.cancelled@.len() ==> self.cancelled@[k] == before.cancelled@[k],
                from.len() == out@.len(),
                forall|m: int| 0 <= m < out@.len() ==> {
                    &&& 0 <= #[trigger] from[m] < i
                    &&& before.ids@[from[m]] == out@[m]
                    &&& !before.cancelled@[from[m]]
                },
                forall|m1: int, m2: int| 0 <= m1 < m2 < out@.len() ==> from[m1] < from[m2],
                forall|k: int| 0 <= k < i && !before.cancelled@[k] ==> out@.contains(#[trigger] before.ids@[k]),
            decreases self.cancelled@.len() - i,
        {
            if !self.cancelled[i] {
                let id = self.ids[i];
                let ghost out0 = out@;
                self.cancelled.set(i, true);
                out.push(id);
                proof {
                    from = from.push(i as int);
                    assert forall|k: int| 0 <= k < i + 1 && !before.cancelled@[k] implies out@.contains(#[trigger] before.ids@[k]) by {
                        if k == i {
                            assert(out@[out@.len() - 1] == before.ids@[k]);
                        } else {
                            assert(out0.contains(before.ids@[k]));
                            let m = choose|m: int| 0 <= m < out0.len() && out0[m] == before.ids@[k];
                            assert(out@[m] == out0[m]);
                        }
                    }
                }
            }
            i = i + 1;
        }
        proof {
            assert forall|k: usize| #[trigger] before@.contains_key(k) implies
                self@.contains_key(k) && self@[k] == (true, before@[k].1) by {
                let j = before.index_of(k);
                before.lemma_index(j);
                self.lemma_index(j);
            }
            assert forall|k: usize| #[trigger] self@.contains_key(k) implies before@.contains_key(k) by {
                assert(self.ids@ == before.ids@);
            }
            assert(self@ =~= swept(before@));
            assert forall|x: usize| #[trigger] out@.contains(x) == not_yet_cancelled(before@).contains(x) by {
                if out@.contains(x) {
                    let m = choose|m: int| 0 <= m < out@.len() && out@[m] == x;
                    before.lemma_index(from[m]);
                }
                if not_yet_cancelled(before@).contains(x) {
                    let k = before.index_of(x);
                    before.lemma_index(k);
                }
            }
            assert(out@.to_set() =~= not_yet_cancelled(before@));
            assert forall|m1: int, m2: int| 0 <= m1 < out@.len() && 0 <= m2 < out@.len() && m1 != m2
                implies out@[m1] != out@[m2] by {
                if m1 < m2 {
                    assert(from[m1] < from[m2]);
                } else {
                    assert(from[m2] < from[m1]);
                }
            }
        }
        out
    }

    /// The number of running jobs.
    pub fn len(&self) -> (r: usize)
        requires
            self.wf(),
        ensures
            r == self@.len(),
    {
        proof {
            assert(self@.dom() =~= self.ids@.to_set());
            self.ids@.unique_seq_to_set();
        }
        self.ids.len()
    }

    /// Whether job `id` is in the table.
    pub fn contains(&self, id: usize) -> (r: bool)
        requires
            self.wf(),
        ensures
            r == self@.contains_key(id),
    {
        match self.find(id) {
            Some(i) => {
                proof { self.lemma_index(i as int); }
                true
            },
            None => false,
        }
    }

    /// Whether the cancellation of job `id` has been triggered; `false` for
    /// a job not in the table.
    pub fn is_cancelled(&self, id: usize) -> (r: bool)
        requires
            self.wf(),
        ensures
            r == (self@.contains_key(id) && self@[id].0),
    {
        match self.find(id) {
            Some(i) => {
                proof { self.lemma_index(i as int); }
                self.cancelled[i]
            },
            None => false,
        }
    }

    /// The handle of job `id`, if it is in the table.
    pub fn handle(&self, id: usize) -> (r: Option<&H>)
        requires
            self.wf(),
        ensures
            match r {
                Some(h) => self@.contains_key(id) && *h == self@[id].1,
                None => !self@.contains_key(id),
            },
    {
        match self.find(id) {
            Some(i) => {
                proof { self.lemma_index(i as int); }
                Some(&self.handles[i])
            },
            None => None,
        }
    }
}

} // verus!
