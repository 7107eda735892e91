use vstd::prelude::*;
use crate::commands::GlCommand;

verus! {

/// A model of the single-owner command executor's queue: units of work enter
/// at the back and run strictly in submission order. The real executor runs
/// on the context-owning thread; this model is what its ordering guarantee
/// amounts to, and what callers of the cache rely on when a destroyed
/// identifier is later reused.
pub struct CommandQueue {
    batches: Vec<Vec<GlCommand>>,
    executed: usize,
}

impl CommandQueue {
    /// Every unit of work ever submitted, in submission order.
    pub closed spec fn submitted(self) -> Seq<Vec<GlCommand>> {
        self.batches@
    }

    /// How many units of work have run so far.
    pub closed spec fn executed_count(self) -> int {
        self.executed as int
    }

    /// Well-formedness: only submitted work can have run.
    pub open spec fn wf(self) -> bool {
        0 <= self.executed_count() <= self.submitted().len()
    }

    /// The submission indices of the units of work that have run, in the
    /// order they ran.
    pub open spec fn execution_order(self) -> Seq<int> {
        Seq::new(self.executed_count() as nat, |k: int| k)
    }

    /// An empty queue: nothing submitted, nothing run.
    pub fn new() -> (r: CommandQueue)
        ensures
            r.wf(),
            r.submitted().len() == 0,
            r.executed_count() == 0,
    {
        CommandQueue { batches: Vec::new(), executed: 0 }
    }

    /// Submit one unit of work; it takes its place at the back of the queue.
    pub fn submit(&mut self, batch: Vec<GlCommand>) -> (idx: usize)
        requires
            old(self).wf(),
        ensures
            final(self).wf(),
            idx == old(self).submitted().len(),
            final(self).submitted() == old(self).submitted().push(batch),
            final(self).executed_count() == old(self).executed_count(),
    {
        let idx = self.batches.len();
        self.batches.push(batch);
        idx
    }

    /// Run the oldest unit of work that has not run yet, returning its
    /// submission index; `None` when everything submitted has already run.
    pub fn run_next(&mut self) -> (r: Option<usize>)
        requires
            old(self).wf(),
        ensures
            final(self).wf(),
            final(self).submitted() == old(self).submitted(),
            old(self).executed_count() < old(self).submitted().len() ==> {
                &&& r is Some
                &&& r.unwrap() == old(self).executed_count()
                &&& final(self).executed_count() == old(self).executed_count() + 1
                &&& final(self).execution_order() == old(self).execution_order().push(
                    old(self).executed_count(),
                )
            },
            old(self).executed_count() == old(self).submitted().len() ==> {
                &&& r is None
                &&& *final(self) == *old(self)
            },
    {
        if self.executed < self.batches.len() {
            let idx = self.executed;
            self.executed = self.executed + 1;
            proof {
                assert(self.execution_order() =~= old(self).execution_order().push(
                    old(self).executed_count(),
                ));
            }
            Some(idx)
        } else {
            None
        }
    }
}

/// Units of work run in submission order: in the execution history, work
/// submitted earlier ran earlier. In particular, once a unit of work touching
/// a destroyed identifier has been submitted, any later-submitted unit —
/// say, one for a new object that reuses the identifier's numeric value —
/// runs only after it has completed.
pub proof fn lemma_fifo_execution(q: CommandQueue, a: int, b: int)
    requires
        q.wf(),
        0 <= a < b < q.execution_order().len(),
    ensures
        q.execution_order()[a] < q.execution_order()[b],
{
}

} // verus!
