//! The host-data side table for `externref` objects, seen from the
//! collector's side.
//!
//! The embedder owns the real table of opaque host values, keyed by id.
//! The collector's only obligation towards it is to report exactly which
//! companion entries to drop when an `externref` is deallocated, so this
//! representation records those reports in order.

use vstd::prelude::*;

verus! {

/// The external table of host data carried by `externref`s, reduced to
/// what the collector does with it: `dealloc(id)` reports that the entry
/// for `id` is dead and must be dropped.
pub struct ExternRefHostDataTable {
    /// Every id whose entry was dropped, in drop order.
    pub dealloc_log: Vec<u32>,
}

impl ExternRefHostDataTable {
    /// A table with no drops recorded yet.
    pub fn new() -> (r: ExternRefHostDataTable)
        ensures
            r.dealloc_log@ == Seq::<u32>::empty(),
    {
        let r = ExternRefHostDataTable { dealloc_log: Vec::new() };
        proof {
            assert(r.dealloc_log@ =~= Seq::<u32>::empty());
        }
        r
    }

    /// Drop the companion entry for `id`.
    pub fn dealloc(&mut self, id: u32)
        ensures
            final(self).dealloc_log@ == old(self).dealloc_log@.push(id),
    {
        self.dealloc_log.push(id);
    }

    /// How often the entry for `id` has been dropped.
    pub fn times_dropped(&self, id: u32) -> (n: usize)
        ensures
            n == crate::heap::count_in(self.dealloc_log@, id),
    {
        let mut n: usize = 0;
        let mut j: usize = 0;
        let len = self.dealloc_log.len();
        while j < len
            invariant
                j <= len,
                len == self.dealloc_log@.len(),
                n == crate::heap::count_in(self.dealloc_log@.take(j as int), id),
                n <= j,
            decreases len - j,
        {
            if self.dealloc_log[j] == id {
                n = n + 1;
            }
            proof {
                assert(self.dealloc_log@.take(j + 1).drop_last() =~= self.dealloc_log@.take(
                    j as int,
                ));
            }
            j += 1;
        }
        proof {
            assert(self.dealloc_log@.take(len as int) =~= self.dealloc_log@);
        }
        n
    }
}

} // verus!
