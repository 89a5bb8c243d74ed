//! The activations table: the over-approximated set of references held by
//! mutator stack frames.
//!
//! The fast path is a bump-allocated chunk of 32-bit slots that JIT code
//! fills directly; references that do not fit spill into a hash-set-like
//! side set. A scratch set for precise stack roots lives here too so that
//! its allocation is reused across collections.

use crate::gc_ref::VMGcRef;
use crate::root_set::RootSet;
use vstd::prelude::*;

verus! {

/// Slots in the first non-empty bump chunk: 4 KiB of 4-byte slots.
pub const BUMP_INITIAL_CAPACITY: usize = 1024;

/// The most slots a bump chunk ever grows to: 128 MiB of 4-byte slots.
pub const BUMP_MAX_CAPACITY: usize = 33554432;

/// Byte offset of the bump finger within the activations table, compiled
/// into JIT-emitted stores.
pub const TABLE_NEXT_OFFSET: u32 = 0;

/// Byte offset of the bump limit within the activations table, compiled
/// into JIT-emitted loads.
pub const TABLE_END_OFFSET: u32 = 8;

/// The bump region the mutator fills on its fast path.
///
/// `next` and `end` are slot indices into `chunk`; the mutator's compiled
/// code advances `next` one slot per exposed reference and compares it
/// against `end`.
pub struct VMGcRefTableAlloc {
    /// Index of the next slot to fill.
    pub next: usize,
    /// One past the last fillable slot; always the chunk's length.
    pub end: usize,
    /// The bump chunk itself. Slots at or past `next` are zero.
    pub chunk: Vec<u32>,
}

/// The capacity the bump chunk reaches after one growth step: doubled,
/// clamped into `[BUMP_INITIAL_CAPACITY, BUMP_MAX_CAPACITY]`.
pub open spec fn grown_capacity(cap: int) -> int {
    let doubled = if 2 * cap <= BUMP_MAX_CAPACITY {
        2 * cap
    } else {
        BUMP_MAX_CAPACITY as int
    };
    if doubled >= BUMP_INITIAL_CAPACITY {
        doubled
    } else {
        BUMP_INITIAL_CAPACITY as int
    }
}

impl VMGcRefTableAlloc {
    /// Everything at or past `next` is zero and the fingers sit within
    /// the chunk. Zero is the reserved empty-slot value: insertions only
    /// ever write nonzero encodings.
    pub open spec fn wf(&self) -> bool {
        &&& self.next <= self.end
        &&& self.end == self.chunk@.len()
        &&& self.chunk@.len() <= BUMP_MAX_CAPACITY
        &&& forall|j: int| self.next <= j < self.chunk@.len() ==> self.chunk@[j] == 0
    }

    /// The capacity of this bump chunk, in slots.
    pub fn capacity(&self) -> (r: usize)
        ensures
            r == self.chunk@.len(),
    {
        self.chunk.len()
    }

    /// How many slots are filled in.
    pub fn len(&self) -> (r: usize)
        requires
            self.wf(),
        ensures
            r == self.next,
    {
        let slots_unused = self.end - self.next;
        self.chunk.len() - slots_unused
    }

    /// Zero the filled prefix and move the bump fingers back to their
    /// default positions over the current chunk.
    pub fn reset(&mut self)
        requires
            old(self).next <= old(self).chunk@.len(),
            old(self).chunk@.len() <= BUMP_MAX_CAPACITY,
            forall|j: int|
                old(self).next <= j < old(self).chunk@.len() ==> old(self).chunk@[j] == 0,
        ensures
            final(self).wf(),
            final(self).next == 0,
            final(self).end == final(self).chunk@.len(),
            final(self).chunk@.len() == old(self).chunk@.len(),
            forall|j: int| 0 <= j < final(self).chunk@.len() ==> final(self).chunk@[j] == 0,
    {
        let mut j: usize = 0;
        while j < self.next
            invariant
                j <= self.next,
                self.next <= self.chunk@.len(),
                self.next == old(self).next,
                self.end == old(self).end,
                self.chunk@.len() == old(self).chunk@.len(),
                forall|k: int| 0 <= k < j ==> self.chunk@[k] == 0,
                forall|k: int|
                    self.next <= k < self.chunk@.len() ==> self.chunk@[k] == old(self).chunk@[k],
            decreases self.next - j,
        {
            self.chunk.set(j, 0);
            j += 1;
        }
        self.next = 0;
        self.end = self.chunk.len();
        proof {
            assert forall|k: int| 0 <= k < self.chunk@.len() implies self.chunk@[k] == 0 by {
                if k >= old(self).next {
                    assert(old(self).chunk@[k] == 0);
                }
            }
        }
    }

    /// Replace the chunk with a zeroed one of the next capacity step.
    ///
    /// The fingers are not touched; callers follow up with `reset`. Unlike
    /// a host whose allocator can refuse a larger chunk, this always
    /// succeeds; running out of host memory aborts instead.
    pub fn grow_bump_chunk(&mut self)
        requires
            old(self).chunk@.len() <= BUMP_MAX_CAPACITY,
        ensures
            final(self).next == old(self).next,
            final(self).end == old(self).end,
            final(self).chunk@.len() == grown_capacity(old(self).chunk@.len() as int),
            old(self).chunk@.len() <= final(self).chunk@.len() <= BUMP_MAX_CAPACITY,
            forall|j: int| 0 <= j < final(self).chunk@.len() ==> final(self).chunk@[j] == 0,
    {
        let cap = self.chunk.len();
        let doubled: usize = if cap <= BUMP_MAX_CAPACITY / 2 {
            cap * 2
        } else {
            BUMP_MAX_CAPACITY
        };
        let new_cap: usize = if doubled >= BUMP_INITIAL_CAPACITY {
            doubled
        } else {
            BUMP_INITIAL_CAPACITY
        };
        let mut chunk: Vec<u32> = Vec::new();
        let mut j: usize = 0;
        while j < new_cap
            invariant
                j <= new_cap,
                chunk@.len() == j,
                forall|k: int| 0 <= k < j ==> chunk@[k] == 0,
            decreases new_cap - j,
        {
            chunk.push(0);
            j += 1;
        }
        self.chunk = chunk;
    }
}

impl Default for VMGcRefTableAlloc {
    /// Start with an empty chunk: there is no fast-path space, so the first
    /// exposure takes the slow path, and the first collection allocates a
    /// real chunk.
    fn default() -> (r: Self)
        ensures
            r.wf(),
            r.next == 0,
            r.end == 0,
            r.chunk@.len() == 0,
    {
        VMGcRefTableAlloc { next: 0, end: 0, chunk: Vec::new() }
    }
}

/// The over-approximated set of references that mutator activations hold.
///
/// The union of the bump chunk's filled slots and the spill set
/// over-approximates the references on the mutator stack. Each entry owns
/// one reference count, transferred in when the reference was exposed and
/// given back by the next collection's sweep.
pub struct VMGcRefActivationsTable {
    /// The bump region the mutator fills directly.
    pub alloc: VMGcRefTableAlloc,
    /// Spill set for references that did not fit in the bump chunk.
    pub over_approximated_stack_roots: RootSet,
    /// Scratch set of precise roots; populated only during the trace phase
    /// of a collection and empty otherwise.
    pub precise_stack_roots: RootSet,
}

impl VMGcRefActivationsTable {
    /// All three parts are well formed.
    pub open spec fn wf(&self) -> bool {
        &&& self.alloc.wf()
        &&& self.over_approximated_stack_roots.wf()
        &&& self.precise_stack_roots.wf()
    }

    /// Create an empty table.
    pub fn new() -> (r: VMGcRefActivationsTable)
        ensures
            r.wf(),
            r.alloc.next == 0,
            r.alloc.end == 0,
            r.alloc.chunk@.len() == 0,
            r.over_approximated_stack_roots.seq() == Seq::<u32>::empty(),
            r.precise_stack_roots.seq() == Seq::<u32>::empty(),
    {
        VMGcRefActivationsTable {
            alloc: VMGcRefTableAlloc::default(),
            over_approximated_stack_roots: RootSet::new(),
            precise_stack_roots: RootSet::new(),
        }
    }

    /// Zero and reset the bump region, and clear both root sets.
    pub fn reset(&mut self)
        requires
            old(self).wf(),
        ensures
            final(self).wf(),
            final(self).alloc.next == 0,
            final(self).alloc.end == final(self).alloc.chunk@.len(),
            final(self).alloc.chunk@.len() == old(self).alloc.chunk@.len(),
            forall|j: int|
                0 <= j < final(self).alloc.chunk@.len() ==> final(self).alloc.chunk@[j] == 0,
            final(self).over_approximated_stack_roots.seq() == Seq::<u32>::empty(),
            final(self).precise_stack_roots.seq() == Seq::<u32>::empty(),
    {
        self.alloc.reset();
        self.over_approximated_stack_roots.clear();
        self.precise_stack_roots.clear();
    }

    /// The unused fast-path capacity, in bytes.
    pub fn bump_capacity_remaining(&self) -> (r: usize)
        requires
            self.wf(),
        ensures
            r == 4 * (self.alloc.end - self.alloc.next),
            r / 4 == self.alloc.chunk@.len() - self.alloc.next,
    {
        let slots = self.alloc.end - self.alloc.next;
        slots * 4
    }

    /// Try to record `gc_ref` in the bump chunk.
    ///
    /// Fails, handing the reference back and mutating nothing, exactly when
    /// the chunk is full (`next == end`). Never touches a reference count.
    pub fn try_insert(&mut self, gc_ref: VMGcRef) -> (r: Result<(), VMGcRef>)
        requires
            old(self).wf(),
            gc_ref.wf(),
        ensures
            final(self).wf(),
            r is Err <==> old(self).alloc.next == old(self).alloc.end,
            r matches Err(g) ==> g == gc_ref && *final(self) == *old(self),
            r is Ok ==> {
                &&& final(self).alloc.next == old(self).alloc.next + 1
                &&& final(self).alloc.end == old(self).alloc.end
                &&& final(self).alloc.chunk@ == old(self).alloc.chunk@.update(
                    old(self).alloc.next as int,
                    gc_ref.raw_spec(),
                )
                &&& final(self).over_approximated_stack_roots == old(
                    self,
                ).over_approximated_stack_roots
                &&& final(self).precise_stack_roots == old(self).precise_stack_roots
            },
    {
        if self.alloc.next == self.alloc.end {
            return Err(gc_ref);
        }
        let slot = self.alloc.next;
        self.alloc.chunk.set(slot, gc_ref.as_raw_u32());
        self.alloc.next = slot + 1;
        Ok(())
    }

    /// Record `gc_ref` in the spill set.
    pub fn insert_slow_without_gc(&mut self, gc_ref: VMGcRef)
        requires
            old(self).wf(),
            gc_ref.wf(),
        ensures
            final(self).wf(),
            final(self).alloc == old(self).alloc,
            final(self).precise_stack_roots == old(self).precise_stack_roots,
            final(self).over_approximated_stack_roots.seq() == if old(
                self,
            ).over_approximated_stack_roots.contains_spec(gc_ref.raw_spec()) {
                old(self).over_approximated_stack_roots.seq()
            } else {
                old(self).over_approximated_stack_roots.seq().push(gc_ref.raw_spec())
            },
            final(self).over_approximated_stack_roots.contains_spec(gc_ref.raw_spec()),
    {
        self.over_approximated_stack_roots.insert(gc_ref.as_raw_u32());
    }

    /// Record `gc_ref`, spilling to the side set when the bump chunk is
    /// full. Infallible and never triggers a collection.
    pub fn insert_without_gc(&mut self, gc_ref: VMGcRef)
        requires
            old(self).wf(),
            gc_ref.wf(),
        ensures
            final(self).wf(),
            final(self).precise_stack_roots == old(self).precise_stack_roots,
            old(self).alloc.next < old(self).alloc.end ==> {
                &&& final(self).alloc.next == old(self).alloc.next + 1
                &&& final(self).alloc.end == old(self).alloc.end
                &&& final(self).alloc.chunk@ == old(self).alloc.chunk@.update(
                    old(self).alloc.next as int,
                    gc_ref.raw_spec(),
                )
                &&& final(self).over_approximated_stack_roots == old(
                    self,
                ).over_approximated_stack_roots
            },
            old(self).alloc.next == old(self).alloc.end ==> {
                &&& final(self).alloc == old(self).alloc
                &&& final(self).over_approximated_stack_roots.seq() == if old(
                    self,
                ).over_approximated_stack_roots.contains_spec(gc_ref.raw_spec()) {
                    old(self).over_approximated_stack_roots.seq()
                } else {
                    old(self).over_approximated_stack_roots.seq().push(gc_ref.raw_spec())
                }
            },
    {
        match self.try_insert(gc_ref) {
            Ok(()) => (),
            Err(gc_ref) => self.insert_slow_without_gc(gc_ref),
        }
    }

    /// Every entry of the table, spill set first, then the filled bump
    /// slots, as raw encodings.
    pub fn elements(&self) -> (r: Vec<u32>)
        requires
            self.wf(),
        ensures
            r@ == self.over_approximated_stack_roots.seq() + self.alloc.chunk@.take(
                self.alloc.next as int,
            ),
    {
        let mut r: Vec<u32> = Vec::new();
        let mut j: usize = 0;
        let n = self.over_approximated_stack_roots.len();
        while j < n
            invariant
                j <= n,
                n == self.over_approximated_stack_roots.seq().len(),
                self.wf(),
                r@ == self.over_approximated_stack_roots.seq().take(j as int),
            decreases n - j,
        {
            r.push(self.over_approximated_stack_roots.get(j));
            proof {
                assert(r@ =~= self.over_approximated_stack_roots.seq().take(j + 1));
            }
            j += 1;
        }
        proof {
            assert(r@ =~= self.over_approximated_stack_roots.seq());
        }
        let mut k: usize = 0;
        let filled = self.alloc.len();
        while k < filled
            invariant
                k <= filled,
                filled == self.alloc.next,
                self.wf(),
                r@ == self.over_approximated_stack_roots.seq() + self.alloc.chunk@.take(k as int),
            decreases filled - k,
        {
            r.push(self.alloc.chunk[k]);
            proof {
                assert(r@ =~= self.over_approximated_stack_roots.seq() + self.alloc.chunk@.take(
                    k + 1,
                ));
            }
            k += 1;
        }
        r
    }
}

impl Default for VMGcRefActivationsTable {
    /// An empty table.
    fn default() -> (r: Self)
        ensures
            r.wf(),
            r.alloc.next == 0,
            r.alloc.end == 0,
            r.alloc.chunk@.len() == 0,
            r.over_approximated_stack_roots.seq() == Seq::<u32>::empty(),
            r.precise_stack_roots.seq() == Seq::<u32>::empty(),
    {
        VMGcRefActivationsTable::new()
    }
}

} // verus!
