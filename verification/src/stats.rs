//! Shared run counters: pairs read, processed and filtered.

use vstd::prelude::*;

verus! {

/// Counters of one run.  They are mutated by the reading and processing
/// stages and read once after every stage has finished.
pub struct Statistics {
    pub read: usize,
    pub processed: usize,
    pub filtered: usize,
}

impl Statistics {
    /// The counter invariant: every pair read so far was either processed
    /// or filtered.
    pub open spec fn consistent(self) -> bool {
        self.processed + self.filtered == self.read
    }

    /// Fresh counters, all zero.
    pub fn new() -> (r: Self)
        ensures
            r.read == 0,
            r.processed == 0,
            r.filtered == 0,
            r.consistent(),
    {
        Statistics { read: 0, processed: 0, filtered: 0 }
    }

    /// Count `n` more pairs as read.
    pub fn add_read(&mut self, n: usize)
        requires
            old(self).read + n <= usize::MAX,
        ensures
            final(self).read == old(self).read + n,
            final(self).processed == old(self).processed,
            final(self).filtered == old(self).filtered,
    {
        self.read = self.read + n;
    }

    /// Count the outcome of one batch of `pairs` pairs, of which
    /// `processed` were transformed and the rest filtered out.
    pub fn record_batch(&mut self, pairs: usize, processed: usize)
        requires
            processed <= pairs,
            old(self).processed + processed <= usize::MAX,
            old(self).filtered + (pairs - processed) <= usize::MAX,
        ensures
            final(self).read == old(self).read,
            final(self).processed == old(self).processed + processed,
            final(self).filtered == old(self).filtered + (pairs - processed),
    {
        self.processed = self.processed + processed;
        self.filtered = self.filtered + (pairs - processed);
    }
}

} // verus!
