//! The progress of one batch: how many of its files are done.

use vstd::prelude::*;

verus! {

/// The pair `(processed, total)` that observers of a batch read.
///
/// `total` is fixed when the batch starts, `processed` only grows, and
/// `processed` never exceeds `total`. The value itself is plain data: whoever
/// shares it between the executor and its observers guards every access.
#[derive(Debug)]
pub struct ProgressState {
    processed: usize,
    total: usize,
}

impl ProgressState {
    #[verifier::type_invariant]
    spec fn within_total(&self) -> bool {
        self.processed <= self.total
    }

    /// The number of files that are done.
    pub closed spec fn processed(&self) -> nat {
        self.processed as nat
    }

    /// The number of files of the batch.
    pub closed spec fn total(&self) -> nat {
        self.total as nat
    }

    /// Whether a publication of `(processed, total)` is accepted in this
    /// state: the total is the one the batch started with, and the count
    /// neither falls back nor passes the total.
    pub open spec fn accepts(&self, processed: usize, total: usize) -> bool {
        total == self.total() && self.processed() <= processed <= total
    }

    /// The progress of a batch of `total` files of which none is done.
    pub fn new(total: usize) -> (state: Self)
        ensures
            state.processed() == 0,
            state.total() == total,
    {
        ProgressState { processed: 0, total }
    }

    /// Records that `processed` of `total` files are done. A publication
    /// that would change the total, lower the count or push it past the
    /// total is refused and leaves the state as it is.
    pub fn publish(&mut self, processed: usize, total: usize) -> (accepted: bool)
        ensures
            accepted == old(self).accepts(processed, total),
            final(self).total() == old(self).total(),
            final(self).processed() == if accepted {
                processed as nat
            } else {
                old(self).processed()
            },
            old(self).processed() <= final(self).processed() <= final(self).total(),
    {
        proof {
            use_type_invariant(&*self);
        }
        if total == self.total && self.processed <= processed && processed <= total {
            self.processed = processed;
            true
        } else {
            false
        }
    }

    /// What an observer sees: the number of files done and the number of
    /// files of the batch. The first never exceeds the second.
    pub fn snapshot(&self) -> (seen: (usize, usize))
        ensures
            seen.0 == self.processed(),
            seen.1 == self.total(),
            seen.0 <= seen.1,
    {
        proof {
            use_type_invariant(self);
        }
        (self.processed, self.total)
    }

    /// Whether every file of the batch is done.
    pub fn is_complete(&self) -> (complete: bool)
        ensures
            complete == (self.processed() == self.total()),
    {
        self.processed == self.total
    }
}

} // verus!
