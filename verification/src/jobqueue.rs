//! The hand-off between the scheduler and the external executor:
//! accepts dispatch requests, enforces at most one in-flight execution
//! per entry, and clears slots as completion events come back.

use vstd::prelude::*;

verus! {

/// Why a dispatch was not handed to the executor. Not an error: a
/// policy decision, and the scheduler continues.
#[derive(Debug, Clone, Copy, PartialEq, Eq, Structural)]
pub enum DispatchRejection {
    AlreadyRunning,
}

/// The outcome of submitting one dispatch request.
#[derive(Debug, Clone, Copy, PartialEq, Eq, Structural)]
pub enum SubmitOutcome {
    Accepted,
    Rejected(DispatchRejection),
}

/// One in-flight slot per entry of the document: a submitted entry
/// occupies its slot until a completion event for it is drained.
pub struct JobQueue {
    running: Vec<bool>,
}

impl JobQueue {
    /// Which entries are in flight, by entry index.
    pub closed spec fn slots(&self) -> Seq<bool> {
        self.running@
    }

    /// A queue for a document of `n` entries, nothing in flight.
    pub fn new(n: usize) -> (q: JobQueue)
        ensures
            q.slots().len() == n,
            forall|i: int| 0 <= i < n ==> !(#[trigger] q.slots()[i]),
    {
        let mut running: Vec<bool> = Vec::new();
        let mut i: usize = 0;
        while i < n
            invariant
                i <= n,
                running@.len() == i,
                forall|t: int| 0 <= t < i ==> !(#[trigger] running@[t]),
            decreases n - i,
        {
            running.push(false);
            i = i + 1;
        }
        JobQueue { running }
    }

    /// Whether the entry has an instance in flight.
    pub fn is_running(&self, entry: usize) -> (b: bool)
        requires
            entry < self.slots().len(),
        ensures
            b == self.slots()[entry as int],
    {
        self.running[entry]
    }

    /// Submits a dispatch request: accepted and marked in flight unless
    /// an instance of the same entry is still running, in which case the
    /// request is dropped, and nothing changes.
    pub fn submit(&mut self, entry: usize) -> (r: SubmitOutcome)
        requires
            entry < old(self).slots().len(),
        ensures
            old(self).slots()[entry as int] ==> r == SubmitOutcome::Rejected(
                DispatchRejection::AlreadyRunning,
            ) && final(self).slots() == old(self).slots(),
            !old(self).slots()[entry as int] ==> r == SubmitOutcome::Accepted
                && final(self).slots() == old(self).slots().update(entry as int, true),
    {
        if self.running[entry] {
            SubmitOutcome::Rejected(DispatchRejection::AlreadyRunning)
        } else {
            self.running.set(entry, true);
            SubmitOutcome::Accepted
        }
    }

    /// Reaps the completion events already available: each listed entry
    /// index frees its slot. Never waits for a running job, so the
    /// reconciliation loop cannot stall here.
    pub fn drain(&mut self, completed: &Vec<usize>)
        ensures
            final(self).slots().len() == old(self).slots().len(),
            forall|i: int|
                0 <= i < old(self).slots().len() ==> (#[trigger] final(self).slots()[i]) == (old(
                    self,
                ).slots()[i] && !completed@.contains(i as usize)),
    {
        let n = completed.len();
        let mut k: usize = 0;
        while k < n
            invariant
                k <= n,
                n == completed@.len(),
                self.running@.len() == old(self).running@.len(),
                forall|i: int|
                    0 <= i < old(self).running@.len() ==> (#[trigger] self.running@[i]) == (old(
                        self,
                    ).running@[i] && !(exists|t: int|
                        0 <= t < k && completed@[t] == i as usize)),
            decreases n - k,
        {
            let c = completed[k];
            if c < self.running.len() {
                self.running.set(c, false);
            }
            k = k + 1;
        }
    }
}

} // verus!
