//! Compensations: what is done to undo work after a failure.

use vstd::prelude::*;

verus! {

/// The outcome of a compensation.
#[derive(Debug)]
pub enum CompensationResult {
    /// It undid the work.
    Success,
    /// It failed, with a message.
    Failed(String),
    /// There was nothing to do.
    Skipped,
}

impl CompensationResult {
    /// Whether a chain of compensations goes on after this outcome: it stops at the first
    /// failure.
    pub fn continues_chain(&self) -> (b: bool)
        ensures
            b == !(*self is Failed),
    {
        match self {
            CompensationResult::Success | CompensationResult::Skipped => true,
            CompensationResult::Failed(_) => false,
        }
    }
}

impl Clone for CompensationResult {
    fn clone(&self) -> (r: Self)
        ensures
            r == *self,
    {
        match self {
            CompensationResult::Success => CompensationResult::Success,
            CompensationResult::Failed(m) => CompensationResult::Failed(m.clone()),
            CompensationResult::Skipped => CompensationResult::Skipped,
        }
    }
}

/// Whether a chain goes on after these outcomes: none of them is a failure.
pub open spec fn chain_goes_on(done: Seq<CompensationResult>) -> bool {
    forall|i: int| 0 <= i < done.len() ==> !(#[trigger] done[i] is Failed)
}

/// Which compensation of a chain of `total` runs next, given the outcomes so far in order:
/// the one after the last outcome, while none failed and some are left. `None` means the
/// chain is over, run to its end or stopped at its first failure.
pub fn next_compensation(done: &Vec<CompensationResult>, total: usize) -> (r: Option<usize>)
    ensures
        r is Some <==> (done@.len() < total && chain_goes_on(done@)),
        r matches Some(i) ==> i == done@.len(),
{
    if done.len() >= total {
        return None;
    }
    let mut i: usize = 0;
    while i < done.len()
        invariant
            i <= done@.len(),
            forall|j: int| 0 <= j < i ==> !(#[trigger] done@[j] is Failed),
        decreases done@.len() - i,
    {
        if !done[i].continues_chain() {
            return None;
        }
        i = i + 1;
    }
    Some(done.len())
}

/// The compensation that does nothing.
pub struct NoOpCompensation;

impl NoOpCompensation {
    /// Its outcome: there is nothing to undo.
    pub fn outcome(&self) -> (r: CompensationResult)
        ensures
            r is Skipped,
    {
        CompensationResult::Skipped
    }

    /// Its name, `noop`.
    pub fn name(&self) -> (n: &'static str)
        ensures
            n@ == "noop"@,
    {
        "noop"
    }
}

} // verus!
