//! The deferred reference-counting heap.
//!
//! The heap composes the free list, the object store, the per-type trace
//! information cache and the activations table. External collaborators are
//! handed in as plain values: the embedder's type registry answers layout
//! queries whose results arrive as [`crate::layout::GcLayout`] values, the
//! stack walker's precise roots arrive as a vector of [`GcRoot`]s, and the
//! host-data side table is passed in by exclusive reference to every
//! operation that can deallocate an `externref`.

use crate::free_list::FreeList;
use crate::free_list::FreeListError;
use crate::free_list::FIRST_ALLOCATABLE_OFFSET;
use crate::gc_ref::drc_ref;
use crate::gc_ref::VMArrayRef;
use crate::gc_ref::VMExternRef;
use crate::gc_ref::VMGcRef;
use crate::gc_ref::VMStructRef;
use crate::header::VMDrcHeader;
use crate::header::VMGcHeader;
use crate::header::VMGcKind;
use crate::header::GC_REF_ARRAY_ELEMS_OFFSET;
use crate::header::HEADER_ALIGN;
use crate::header::HEADER_SIZE;
use crate::host_data::ExternRefHostDataTable;
use crate::layout::GcArrayLayout;
use crate::layout::GcFieldLayout;
use crate::layout::GcLayout;
use crate::layout::GcStructLayout;
use crate::layout::TraceInfo;
use crate::table::VMGcRefActivationsTable;
use std::collections::HashMap;
use vstd::prelude::*;

verus! {

broadcast use vstd::std_specs::hash::group_hash_axioms;

/// Size in bytes of an `externref` object: the common header followed by
/// the host-data identifier, padded to the header alignment.
pub const EXTERNREF_SIZE: u32 = 32;

/// The backing linear memory handed in by the embedder, reduced to what the
/// collector reads of it: its byte length and whether it is shared. The
/// heap requires exclusive (non-shared) memory.
#[derive(Clone, Copy, PartialEq, Eq, Structural, Debug)]
pub struct GcMemory {
    /// The byte length of the region.
    pub current_length: usize,
    /// Whether the region is shared with other agents; must be false.
    pub shared: bool,
}

impl GcMemory {
    /// An exclusive memory region of `current_length` bytes.
    pub fn new(current_length: usize) -> (r: GcMemory)
        ensures
            r.current_length == current_length,
            !r.shared,
    {
        GcMemory { current_length, shared: false }
    }

    /// The byte length of the region.
    pub fn current_length(&self) -> (r: usize)
        ensures
            r == self.current_length,
    {
        self.current_length
    }

    /// Whether the region is shared.
    pub fn is_shared_memory(&self) -> (r: bool)
        ensures
            r == self.shared,
    {
        self.shared
    }
}

/// One object in the heap: its header and metadata, and its payload bytes.
///
/// The payload vector spans the whole allocation, so byte offsets taken
/// from type layouts address into it directly; the header region at its
/// front is represented by the structured fields instead and stays zero.
pub struct HeapObject {
    /// The common header: kind, type index, reference count, size.
    pub header: VMDrcHeader,
    /// The element count of an array object; zero for other kinds.
    pub length: u32,
    /// The host-data table entry of an `externref`; zero for other kinds.
    pub host_data: u32,
    /// The object's bytes; always exactly `header.object_size` long.
    pub data: Vec<u8>,
}

/// One precise root reported by the embedder's stack walker.
#[derive(PartialEq, Eq, Structural, Debug)]
pub struct GcRoot {
    /// The reference the walker found.
    pub gc_ref: VMGcRef,
    /// Whether it lives in a mutator stack frame. Only such roots take part
    /// in deferred counting; host-side roots are counted naively elsewhere.
    pub on_wasm_stack: bool,
}

/// How many times `x` occurs in `s`.
pub open spec fn count_in(s: Seq<u32>, x: u32) -> nat
    decreases s.len(),
{
    if s.len() == 0 {
        0
    } else {
        count_in(s.drop_last(), x) + if s.last() == x {
            1nat
        } else {
            0nat
        }
    }
}

/// Whether byte address `a` is free in `free_list`; false while detached.
pub open spec fn free_addr_opt(free_list: Option<FreeList>, a: int) -> bool {
    match free_list {
        Some(fl) => fl.free_addr(a),
        None => false,
    }
}

/// Everything that holds of the live object `o` at index `i`, apart from
/// the positivity of its reference count: a consistent header, payload of
/// exactly the allocated size, a valid nonzero even index, an extent inside
/// the region that no free byte overlaps, and trace information on file for
/// its type.
pub open spec fn obj_wf_at(
    o: HeapObject,
    i: u32,
    free_list: Option<FreeList>,
    trace_infos: Map<u32, TraceInfo>,
) -> bool {
    &&& o.header.header.wf()
    &&& HEADER_SIZE <= o.header.object_size
    &&& o.data@.len() == o.header.object_size
    &&& i != 0
    &&& i % 2 == 0
    &&& FIRST_ALLOCATABLE_OFFSET <= i
    &&& (free_list matches Some(fl) ==> i + o.header.object_size <= fl.capacity_spec())
    &&& free_list is Some
    &&& (forall|a: int|
        i <= a < i + o.header.object_size ==> !#[trigger] free_addr_opt(free_list, a))
    &&& (o.header.header.ty matches Some(t) ==> trace_infos.contains_key(t))
}

/// Every live entry of `m` is well formed.
pub open spec fn objects_wf_with(
    m: Map<u32, HeapObject>,
    free_list: Option<FreeList>,
    trace_infos: Map<u32, TraceInfo>,
) -> bool {
    forall|i: u32| #[trigger] m.contains_key(i) ==> obj_wf_at(m[i], i, free_list, trace_infos)
}

/// No two live entries of `m` overlap.
pub open spec fn extents_disjoint_map(m: Map<u32, HeapObject>) -> bool {
    forall|i: u32, j: u32|
        #[trigger] m.contains_key(i) && #[trigger] m.contains_key(j) && i != j ==> (i
            + m[i].header.object_size <= j || j + m[j].header.object_size <= i)
}

/// Every live entry of `m` has a positive reference count.
pub open spec fn rc_positive_map(m: Map<u32, HeapObject>) -> bool {
    forall|i: u32| #[trigger] m.contains_key(i) ==> 1 <= m[i].header.ref_count
}

/// The deferred reference-counting collector: what the embedder
/// instantiates to create heaps.
///
/// This collector has no cycle collector, so it cannot reclaim cycles of
/// managed objects; it is non-moving and has no nursery.
#[derive(Default)]
pub struct DrcCollector {
}

/// The deferred reference-counting heap.
pub struct DrcHeap {
    /// How to trace each type allocated in this heap, by type index.
    pub trace_infos: HashMap<u32, TraceInfo>,
    /// How many no-GC scopes are currently open.
    pub no_gc_count: u64,
    /// The over-approximated mutator root set.
    pub activations_table: VMGcRefActivationsTable,
    /// The backing byte region, while attached.
    pub memory: Option<GcMemory>,
    /// Flat copy of the backing region's length, kept in sync with
    /// `memory` so the JIT-facing descriptor needs no indirection.
    pub vmmemory: Option<usize>,
    /// Which parts of the region are unallocated, while attached.
    pub free_list: Option<FreeList>,
    /// The live objects, keyed by heap index.
    pub objects: HashMap<u32, HeapObject>,
}

impl DrcCollector {
    /// Construct a new, detached heap managed by this collector.
    pub fn new_gc_heap(&self) -> (r: DrcHeap)
        ensures
            r.wf(),
            r.memory is None,
            r.free_list is None,
            r.no_gc_count == 0,
            r.objects@ == Map::<u32, HeapObject>::empty(),
            r.trace_infos@ == Map::<u32, TraceInfo>::empty(),
    {
        DrcHeap::new()
    }
}

impl DrcHeap {
    /// Whether an object lives at index `i`.
    pub open spec fn live(&self, i: u32) -> bool {
        self.objects@.contains_key(i)
    }

    /// The reference count of the object at `i`.
    pub open spec fn rc(&self, i: u32) -> u64 {
        self.objects@[i].header.ref_count
    }

    /// The allocated size of the object at `i`.
    pub open spec fn size_of(&self, i: u32) -> u32 {
        self.objects@[i].header.object_size
    }

    /// The capacity of the free list, or zero while detached.
    pub open spec fn fl_capacity(&self) -> int {
        match self.free_list {
            Some(fl) => fl.capacity_spec() as int,
            None => 0,
        }
    }

    /// Whether byte address `a` is free, or false while detached.
    pub open spec fn fl_free_addr(&self, a: int) -> bool {
        match self.free_list {
            Some(fl) => fl.free_addr(a),
            None => false,
        }
    }

    /// Whether the free list could satisfy a request.
    pub open spec fn fl_some_fits(&self, size: int, align: int) -> bool {
        match self.free_list {
            Some(fl) => fl.some_block_fits(size, align),
            None => false,
        }
    }

    /// Everything that holds of one live object entry, apart from the
    /// positivity of its reference count.
    pub open spec fn object_entry_wf(&self, i: u32) -> bool {
        obj_wf_at(self.objects@[i], i, self.free_list, self.trace_infos@)
    }

    /// Every live object entry is well formed.
    pub open spec fn objects_wf(&self) -> bool {
        objects_wf_with(self.objects@, self.free_list, self.trace_infos@)
    }

    /// No two live objects overlap.
    pub open spec fn extents_disjoint(&self) -> bool {
        extents_disjoint_map(self.objects@)
    }

    /// Coherence of the attachment state: an attached memory is exclusive,
    /// fits 32-bit indexing, has a free list and a cached length; without a
    /// free list there are no objects.
    pub open spec fn state_wf(&self) -> bool {
        &&& (self.memory matches Some(m) ==> !m.shared && m.current_length <= u32::MAX
            && self.free_list is Some && self.vmmemory == Some(m.current_length))
        &&& (self.memory is None ==> self.vmmemory is None)
        &&& (self.free_list matches Some(fl) ==> fl.wf())
        &&& (self.free_list is None ==> self.objects@.dom() == Set::<u32>::empty())
    }

    /// Every live object has a positive reference count. This is the
    /// collector's central promise: an object some party may still observe
    /// is never at count zero.
    pub open spec fn rc_positive(&self) -> bool {
        rc_positive_map(self.objects@)
    }

    /// The heap invariant, apart from reference-count positivity, which is
    /// momentarily suspended while a deallocation cascade runs.
    pub open spec fn wf_core(&self) -> bool {
        &&& self.activations_table.wf()
        &&& self.state_wf()
        &&& self.objects_wf()
        &&& self.extents_disjoint()
    }

    /// The full heap invariant.
    pub open spec fn wf(&self) -> bool {
        self.wf_core() && self.rc_positive()
    }

    /// Construct a new, detached heap.
    pub fn new() -> (r: DrcHeap)
        ensures
            r.wf(),
            r.trace_infos@ == Map::<u32, TraceInfo>::empty(),
            r.no_gc_count == 0,
            r.activations_table.alloc.next == 0,
            r.activations_table.alloc.chunk@.len() == 0,
            r.activations_table.over_approximated_stack_roots.seq() == Seq::<u32>::empty(),
            r.activations_table.precise_stack_roots.seq() == Seq::<u32>::empty(),
            r.memory is None,
            r.vmmemory is None,
            r.free_list is None,
            r.objects@ == Map::<u32, HeapObject>::empty(),
    {
        let r = DrcHeap {
            trace_infos: HashMap::new(),
            no_gc_count: 0,
            activations_table: VMGcRefActivationsTable::new(),
            memory: None,
            vmmemory: None,
            free_list: None,
            objects: HashMap::new(),
        };
        proof {
            assert(r.objects@.dom() =~= Set::<u32>::empty());
        }
        r
    }

    /// Whether a backing memory is currently attached.
    pub fn is_attached(&self) -> (r: bool)
        ensures
            r == (self.memory is Some),
    {
        self.memory.is_some()
    }

    /// Install the backing byte region: initialize the free list over its
    /// full length and cache its descriptor.
    pub fn attach(&mut self, memory: GcMemory)
        requires
            old(self).wf(),
            old(self).memory is None,
            old(self).free_list is None,
            !memory.shared,
            memory.current_length <= u32::MAX,
        ensures
            final(self).wf(),
            final(self).memory == Some(memory),
            final(self).vmmemory == Some(memory.current_length),
            final(self).fl_capacity() == memory.current_length,
            forall|a: int|
                final(self).fl_free_addr(a) <==> FIRST_ALLOCATABLE_OFFSET <= a
                    < memory.current_length,
            forall|size: int, align: int|
                0 < size && 0 < align && crate::free_list::align_up(
                    FIRST_ALLOCATABLE_OFFSET as int,
                    align,
                ) + size <= memory.current_length ==> #[trigger] final(self).fl_some_fits(
                    size,
                    align,
                ),
            final(self).objects@ == old(self).objects@,
            final(self).trace_infos@ == old(self).trace_infos@,
            final(self).no_gc_count == old(self).no_gc_count,
            final(self).activations_table == old(self).activations_table,
    {
        let len = memory.current_length();
        self.free_list = Some(FreeList::new(len as u32));
        self.vmmemory = Some(len);
        self.memory = Some(memory);
        proof {
            let flv = self.free_list.unwrap();
            assert forall|size: int, align: int|
                0 < size && 0 < align && crate::free_list::align_up(
                    FIRST_ALLOCATABLE_OFFSET as int,
                    align,
                ) + size <= memory.current_length implies #[trigger] self.fl_some_fits(
                size,
                align,
            ) by {
                assert(flv.some_block_fits(size, align));
            }
            assert(self.objects@.dom() =~= Set::<u32>::empty());
            assert forall|i: u32| self.objects@.contains_key(i) implies self.object_entry_wf(
                i,
            ) by {}
        }
    }

    /// Return the backing memory, dropping every object with it. The bump
    /// chunk is zeroed and both root sets are cleared; the trace-info cache
    /// is retained, since the same embedding will reuse the same types.
    pub fn detach(&mut self) -> (r: GcMemory)
        requires
            old(self).wf(),
            old(self).memory is Some,
        ensures
            final(self).wf(),
            r == old(self).memory.unwrap(),
            final(self).memory is None,
            final(self).vmmemory is None,
            final(self).free_list is None,
            final(self).no_gc_count == 0,
            final(self).objects@ == Map::<u32, HeapObject>::empty(),
            final(self).trace_infos@ == old(self).trace_infos@,
            final(self).activations_table.alloc.next == 0,
            final(self).activations_table.alloc.chunk@.len() == old(self).activations_table.alloc.chunk@.len(),
            forall|j: int|
                0 <= j < final(self).activations_table.alloc.chunk@.len() ==> final(self).activations_table.alloc.chunk@[j] == 0,
            final(self).activations_table.over_approximated_stack_roots.seq() == Seq::<
                u32,
            >::empty(),
            final(self).activations_table.precise_stack_roots.seq() == Seq::<u32>::empty(),
    {
        self.no_gc_count = 0;
        self.activations_table.reset();
        self.free_list = None;
        self.vmmemory = None;
        self.objects.clear();
        let memory = self.memory.take().unwrap();
        proof {
            assert(self.objects@.dom() =~= Set::<u32>::empty());
        }
        memory
    }

    /// Take the backing memory out ahead of a grow; the free list and the
    /// objects stay, and `replace_memory` puts the grown region back.
    pub fn take_memory(&mut self) -> (r: GcMemory)
        requires
            old(self).wf(),
            old(self).memory is Some,
        ensures
            final(self).wf(),
            r == old(self).memory.unwrap(),
            final(self).memory is None,
            final(self).vmmemory is None,
            *final(self) == (DrcHeap { memory: None, vmmemory: None, ..*old(self) }),
    {
        self.vmmemory = None;
        let r = self.memory.take().unwrap();
        proof {
            assert forall|i: u32| self.objects@.contains_key(i) implies self.object_entry_wf(
                i,
            ) by {
                assert(old(self).object_entry_wf(i));
            }
        }
        r
    }

    /// Install the grown backing region and extend the free list by the
    /// grown amount.
    pub fn replace_memory(&mut self, memory: GcMemory, delta_bytes_grown: u64)
        requires
            old(self).wf(),
            old(self).memory is None,
            old(self).free_list is Some,
            !memory.shared,
            memory.current_length <= u32::MAX,
            old(self).fl_capacity() + delta_bytes_grown == memory.current_length,
        ensures
            final(self).wf(),
            final(self).memory == Some(memory),
            final(self).vmmemory == Some(memory.current_length),
            final(self).fl_capacity() == old(self).fl_capacity() + delta_bytes_grown,
            final(self).objects@ == old(self).objects@,
            final(self).trace_infos@ == old(self).trace_infos@,
            final(self).no_gc_count == old(self).no_gc_count,
            final(self).activations_table == old(self).activations_table,
            forall|a: int|
                final(self).fl_free_addr(a) <==> (old(self).fl_free_addr(a) || (
                crate::free_list::max_int(
                    old(self).fl_capacity(),
                    FIRST_ALLOCATABLE_OFFSET as int,
                ) <= a < old(self).fl_capacity() + delta_bytes_grown)),
    {
        self.vmmemory = Some(memory.current_length());
        self.memory = Some(memory);
        let fl = self.free_list.as_mut().unwrap();
        let delta = delta_bytes_grown as u32;
        fl.add_capacity(delta);
        proof {
            assert forall|i: u32| #[trigger] self.objects@.contains_key(i) implies obj_wf_at(
                self.objects@[i],
                i,
                self.free_list,
                self.trace_infos@,
            ) by {
                assert(old(self).object_entry_wf(i));
                let o = self.objects@[i];
                assert(self.fl_capacity() == old(self).fl_capacity() + delta);
                assert(i + o.header.object_size <= old(self).fl_capacity());
                assert forall|a: int|
                    i <= a < i + o.header.object_size implies !free_addr_opt(
                    self.free_list,
                    a,
                ) by {
                    assert(!free_addr_opt(old(self).free_list, a));
                    assert(a < old(self).fl_capacity());
                }
            }
        }
    }

    /// The cached descriptor of the backing region: its current length.
    pub fn vmmemory(&self) -> (r: usize)
        requires
            self.wf(),
            self.memory is Some,
        ensures
            r == self.memory.unwrap().current_length,
    {
        self.vmmemory.unwrap()
    }

    /// Open a no-GC scope; collections are forbidden until it is closed.
    pub fn enter_no_gc_scope(&mut self)
        requires
            old(self).no_gc_count < u64::MAX,
        ensures
            *final(self) == (DrcHeap { no_gc_count: (old(self).no_gc_count + 1) as u64, ..*old(self) }),
    {
        self.no_gc_count = self.no_gc_count + 1;
    }

    /// Close the innermost no-GC scope.
    pub fn exit_no_gc_scope(&mut self)
        requires
            old(self).no_gc_count > 0,
        ensures
            *final(self) == (DrcHeap { no_gc_count: (old(self).no_gc_count - 1) as u64, ..*old(self) }),
    {
        self.no_gc_count = self.no_gc_count - 1;
    }

    /// Whether a mutator call that will expose up to `num_gc_refs`
    /// references needs a collection first to make fast-path space.
    pub fn need_gc_before_entering_wasm(&self, num_gc_refs: usize) -> (r: bool)
        requires
            self.wf(),
            num_gc_refs >= 1,
        ensures
            r == (num_gc_refs > self.activations_table.alloc.end
                - self.activations_table.alloc.next),
    {
        let remaining_slots = self.activations_table.alloc.end - self.activations_table.alloc.next;
        num_gc_refs > remaining_slots
    }

    /// Record that `gc_ref` is about to cross into mutator-visible storage:
    /// insert it into the activations table, spilling when the bump chunk
    /// is full. The caller transfers one reference count into the table;
    /// the next collection's sweep gives it back.
    pub fn expose_gc_ref_to_wasm(&mut self, gc_ref: VMGcRef)
        requires
            old(self).wf(),
            gc_ref.wf(),
        ensures
            final(self).wf(),
            *final(self) == (DrcHeap {
                activations_table: final(self).activations_table,
                ..*old(self)
            }),
            old(self).activations_table.alloc.next < old(self).activations_table.alloc.end ==> {
                &&& final(self).activations_table.alloc.next == old(self).activations_table.alloc.next + 1
                &&& final(self).activations_table.alloc.chunk@ == old(self).activations_table.alloc.chunk@.update(
                    old(self).activations_table.alloc.next as int,
                    gc_ref.raw_spec(),
                )
                &&& final(self).activations_table.over_approximated_stack_roots == old(self).activations_table.over_approximated_stack_roots
            },
            old(self).activations_table.alloc.next == old(self).activations_table.alloc.end ==> {
                &&& final(self).activations_table.alloc == old(self).activations_table.alloc
                &&& final(self).activations_table.over_approximated_stack_roots.seq() == if old(self).activations_table.over_approximated_stack_roots.contains_spec(
                    gc_ref.raw_spec(),
                ) {
                    old(self).activations_table.over_approximated_stack_roots.seq()
                } else {
                    old(self).activations_table.over_approximated_stack_roots.seq().push(
                        gc_ref.raw_spec(),
                    )
                }
            },
            final(self).activations_table.precise_stack_roots == old(self).activations_table.precise_stack_roots,
    {
        self.activations_table.insert_without_gc(gc_ref);
        proof {
            assert forall|i: u32| self.objects@.contains_key(i) implies self.object_entry_wf(
                i,
            ) by {
                assert(old(self).object_entry_wf(i));
                let o = self.objects@[i];
                assert(o == old(self).objects@[i]);
                match o.header.header.ty {
                    Some(t) => {
                        assert(old(self).trace_infos@.contains_key(t));
                        assert(self.trace_infos@.contains_key(t));
                    },
                    None => (),
                }
            }
        }
    }
}

/// The trace information derived from a struct layout: the offsets of its
/// reference-typed fields, in field order.
pub open spec fn struct_ref_offsets(fields: Seq<GcFieldLayout>) -> Seq<u32>
    decreases fields.len(),
{
    if fields.len() == 0 {
        Seq::<u32>::empty()
    } else {
        let rest = struct_ref_offsets(fields.drop_last());
        if fields.last().is_gc_ref {
            rest.push(fields.last().offset)
        } else {
            rest
        }
    }
}

impl DrcHeap {
    /// Whether the cached trace information for `ty` matches `layout`.
    pub open spec fn trace_info_matches(&self, ty: u32, layout: GcLayout) -> bool {
        &&& self.trace_infos@.contains_key(ty)
        &&& match layout {
            GcLayout::Array(a) => self.trace_infos@[ty] matches TraceInfo::Array { gc_ref_elems }
                && gc_ref_elems == a.elems_are_gc_refs,
            GcLayout::Struct(s) => self.trace_infos@[ty] matches TraceInfo::Struct {
                gc_ref_offsets,
            } && gc_ref_offsets@ == struct_ref_offsets(s.fields@),
        }
    }

    /// Make sure trace information for `ty` is on file, deriving it from
    /// the registry-supplied `layout` when absent. Idempotent: a second
    /// call with the same type changes nothing.
    pub fn ensure_trace_info(&mut self, ty: u32, layout: &GcLayout)
        requires
            old(self).wf(),
        ensures
            final(self).wf(),
            *final(self) == (DrcHeap { trace_infos: final(self).trace_infos, ..*old(self) }),
            final(self).trace_infos@.contains_key(ty),
            old(self).trace_infos@.contains_key(ty) ==> final(self).trace_infos@ == old(self).trace_infos@,
            !old(self).trace_infos@.contains_key(ty) ==> {
                &&& final(self).trace_infos@.dom() == old(self).trace_infos@.dom().insert(ty)
                &&& (forall|t: u32|
                    t != ty && old(self).trace_infos@.contains_key(t)
                        ==> final(self).trace_infos@[t] == old(self).trace_infos@[t])
                &&& final(self).trace_info_matches(ty, *layout)
            },
    {
        if self.trace_infos.contains_key(&ty) {
            return ;
        }
        self.insert_new_trace_info(ty, layout);
    }

    /// Derive and install the trace information for a type not yet on file.
    fn insert_new_trace_info(&mut self, ty: u32, layout: &GcLayout)
        requires
            old(self).wf(),
            !old(self).trace_infos@.contains_key(ty),
        ensures
            final(self).wf(),
            *final(self) == (DrcHeap { trace_infos: final(self).trace_infos, ..*old(self) }),
            final(self).trace_infos@.dom() == old(self).trace_infos@.dom().insert(ty),
            forall|t: u32|
                t != ty && old(self).trace_infos@.contains_key(t)
                    ==> final(self).trace_infos@[t] == old(self).trace_infos@[t],
            final(self).trace_info_matches(ty, *layout),
    {
        let info = match layout {
            GcLayout::Array(a) => TraceInfo::Array { gc_ref_elems: a.elems_are_gc_refs },
            GcLayout::Struct(s) => {
                let mut gc_ref_offsets: Vec<u32> = Vec::new();
                let n = s.fields.len();
                let mut j: usize = 0;
                while j < n
                    invariant
                        j <= n,
                        n == s.fields@.len(),
                        gc_ref_offsets@ == struct_ref_offsets(s.fields@.take(j as int)),
                    decreases n - j,
                {
                    let f = &s.fields[j];
                    if f.is_gc_ref {
                        gc_ref_offsets.push(f.offset);
                    }
                    proof {
                        assert(s.fields@.take(j + 1).drop_last() =~= s.fields@.take(j as int));
                        assert(s.fields@.take(j + 1).last() == s.fields@[j as int]);
                    }
                    j += 1;
                }
                proof {
                    assert(s.fields@.take(n as int) =~= s.fields@);
                }
                TraceInfo::Struct { gc_ref_offsets }
            },
        };
        self.trace_infos.insert(ty, info);
        proof {
            assert(self.trace_infos@.dom() =~= old(self).trace_infos@.dom().insert(ty));
            assert forall|i: u32| self.objects@.contains_key(i) implies self.object_entry_wf(
                i,
            ) by {
                assert(old(self).object_entry_wf(i));
                let o = self.objects@[i];
                assert(o == old(self).objects@[i]);
                match o.header.header.ty {
                    Some(t) => {
                        assert(old(self).trace_infos@.contains_key(t));
                        assert(self.trace_infos@.contains_key(t));
                    },
                    None => (),
                }
            }
        }
    }
}


/// `m` with the reference count of entry `i` set to `rc`.
pub open spec fn with_rc(m: Map<u32, HeapObject>, i: u32, rc: u64) -> Map<u32, HeapObject> {
    m.insert(
        i,
        HeapObject { header: VMDrcHeader { ref_count: rc, ..m[i].header }, ..m[i] },
    )
}

/// The 32-bit little-endian value at byte offset `o` of `data`.
pub open spec fn u32_at(data: Seq<u8>, o: int) -> u32 {
    (data[o] as u32) | ((data[o + 1] as u32) << 8) | ((data[o + 2] as u32) << 16) | ((data[o
        + 3] as u32) << 24)
}

/// The raw encodings of the outgoing references a struct payload holds:
/// for each reference-field offset that lies within the payload, the
/// 32-bit value stored there, kept when it is nonzero.
pub open spec fn struct_edge_raws(data: Seq<u8>, offsets: Seq<u32>) -> Seq<u32>
    decreases offsets.len(),
{
    if offsets.len() == 0 {
        Seq::<u32>::empty()
    } else {
        let rest = struct_edge_raws(data, offsets.drop_last());
        let off = offsets.last();
        if off + 4 <= data.len() {
            let raw = u32_at(data, off as int);
            if raw != 0 {
                rest.push(raw)
            } else {
                rest
            }
        } else {
            rest
        }
    }
}

/// The raw encodings among the first `upto` elements of a reference
/// array's payload: the nonzero 32-bit values at the element offsets that
/// lie within the payload.
pub open spec fn array_edge_raws(data: Seq<u8>, upto: int) -> Seq<u32>
    decreases upto,
{
    if upto <= 0 {
        Seq::<u32>::empty()
    } else {
        let rest = array_edge_raws(data, upto - 1);
        let off = GC_REF_ARRAY_ELEMS_OFFSET + 4 * (upto - 1);
        if off + 4 <= data.len() {
            let raw = u32_at(data, off);
            if raw != 0 {
                rest.push(raw)
            } else {
                rest
            }
        } else {
            rest
        }
    }
}

/// The raw encodings of every outgoing managed reference of object `o`,
/// per its cached trace information: none for an `externref` or an
/// untraced type, the nonzero reference-field values of a struct, the
/// nonzero elements of a reference array.
pub open spec fn object_edge_raws(o: HeapObject, tr: Map<u32, TraceInfo>) -> Seq<u32> {
    match o.header.header.ty {
        None => Seq::<u32>::empty(),
        Some(t) => if tr.contains_key(t) {
            match tr[t] {
                TraceInfo::Array { gc_ref_elems } => if gc_ref_elems {
                    array_edge_raws(o.data@, o.length as int)
                } else {
                    Seq::<u32>::empty()
                },
                TraceInfo::Struct { gc_ref_offsets } => struct_edge_raws(
                    o.data@,
                    gc_ref_offsets@,
                ),
            }
        } else {
            Seq::<u32>::empty()
        },
    }
}

/// The raw encodings of a stack of references, in stack order.
pub open spec fn raws_of(s: Seq<VMGcRef>) -> Seq<u32> {
    s.map_values(|g: VMGcRef| g.raw_spec())
}

/// The exact effect of the deallocation cascade on the object map and the
/// host-data drop log, processed worklist-style from the top of `stack`
/// (its last element): inline integers and references to no live object
/// are skipped; an object with further counts loses one; an object at its
/// last count is removed, its host-data entry is dropped if it is an
/// `externref`, and its outgoing references join the worklist.
pub open spec fn run_cascade(
    m: Map<u32, HeapObject>,
    tr: Map<u32, TraceInfo>,
    log: Seq<u32>,
    stack: Seq<u32>,
) -> (Map<u32, HeapObject>, Seq<u32>)
    decreases m.dom().len(), stack.len(),
        when m.dom().finite()
{
    if stack.len() == 0 {
        (m, log)
    } else {
        let raw = stack.last();
        let rest = stack.drop_last();
        if raw % 2 == 1 || !m.contains_key(raw) {
            run_cascade(m, tr, log, rest)
        } else if m[raw].header.ref_count >= 2 {
            run_cascade(with_rc(m, raw, (m[raw].header.ref_count - 1) as u64), tr, log, rest)
        } else {
            let log2 = if m[raw].header.header.kind == VMGcKind::ExternRef {
                log.push(m[raw].host_data)
            } else {
                log
            };
            run_cascade(m.remove(raw), tr, log2, rest + object_edge_raws(m[raw], tr))
        }
    }
}

/// The exact effect of releasing one table entry after another, first to
/// last, each through a full deallocation cascade.
pub open spec fn run_release_seq(
    m: Map<u32, HeapObject>,
    tr: Map<u32, TraceInfo>,
    log: Seq<u32>,
    entries: Seq<u32>,
) -> (Map<u32, HeapObject>, Seq<u32>)
    decreases entries.len(),
{
    if entries.len() == 0 {
        (m, log)
    } else {
        let prev = run_release_seq(m, tr, log, entries.drop_last());
        run_cascade(prev.0, tr, prev.1, seq![entries.last()])
    }
}

/// Once an array element offset falls past the payload, so does every
/// later one, and no further edges are gathered.
proof fn lemma_array_edge_raws_stop(data: Seq<u8>, stop: int, upto: int)
    requires
        0 <= stop <= upto,
        GC_REF_ARRAY_ELEMS_OFFSET + 4 * stop + 4 > data.len(),
    ensures
        array_edge_raws(data, upto) == array_edge_raws(data, stop),
    decreases upto - stop,
{
    if upto > stop {
        lemma_array_edge_raws_stop(data, stop, upto - 1);
    }
}

/// An object differing from a well-formed one only in its reference count
/// is still well formed.
proof fn lemma_obj_wf_rc_irrelevant(
    o1: HeapObject,
    o2: HeapObject,
    i: u32,
    fl: Option<FreeList>,
    tr: Map<u32, TraceInfo>,
)
    requires
        obj_wf_at(o1, i, fl, tr),
        o2.header.header == o1.header.header,
        o2.header.object_size == o1.header.object_size,
        o2.data@.len() == o1.data@.len(),
    ensures
        obj_wf_at(o2, i, fl, tr),
{
}

impl DrcHeap {
    /// Look up the object at `i`.
    fn get_obj(&self, i: u32) -> (r: Option<&HeapObject>)
        ensures
            r is Some <==> self.live(i),
            r matches Some(o) ==> *o == self.objects@[i],
    {
        self.objects.get(&i)
    }

    /// Remove and return the object at `i`.
    fn take_obj(&mut self, i: u32) -> (o: HeapObject)
        requires
            old(self).live(i),
        ensures
            o == old(self).objects@[i],
            final(self).objects@ == old(self).objects@.remove(i),
            *final(self) == (DrcHeap { objects: final(self).objects, ..*old(self) }),
    {
        self.objects.remove(&i).unwrap()
    }

    /// Install `o` at index `i`.
    fn put_obj(&mut self, i: u32, o: HeapObject)
        ensures
            final(self).objects@ == old(self).objects@.insert(i, o),
            *final(self) == (DrcHeap { objects: final(self).objects, ..*old(self) }),
    {
        self.objects.insert(i, o);
    }

    /// Overwrite the reference count of the object at `i`.
    fn set_rc(&mut self, i: u32, rc: u64)
        requires
            old(self).wf_core(),
            old(self).live(i),
        ensures
            final(self).objects@ == with_rc(old(self).objects@, i, rc),
            *final(self) == (DrcHeap { objects: final(self).objects, ..*old(self) }),
            final(self).wf_core(),
    {
        let mut o = self.take_obj(i);
        o.header.ref_count = rc;
        let ghost o2 = o;
        self.put_obj(i, o);
        proof {
            assert(self.objects@ =~= with_rc(old(self).objects@, i, rc));
            let m = old(self).objects@;
            let m2 = self.objects@;
            assert forall|j: u32| #[trigger] m2.contains_key(j) implies obj_wf_at(
                m2[j],
                j,
                self.free_list,
                self.trace_infos@,
            ) by {
                assert(m.contains_key(j));
                assert(obj_wf_at(m[j], j, self.free_list, self.trace_infos@));
                if j == i {
                    lemma_obj_wf_rc_irrelevant(
                        m[i],
                        m2[i],
                        i,
                        self.free_list,
                        self.trace_infos@,
                    );
                }
            }
            assert forall|i2: u32, j2: u32|
                #[trigger] m2.contains_key(i2) && #[trigger] m2.contains_key(j2) && i2
                    != j2 implies (i2 + m2[i2].header.object_size <= j2 || j2
                + m2[j2].header.object_size <= i2) by {
                assert(m.contains_key(i2) && m.contains_key(j2));
            }
        }
    }

    /// The number of live objects.
    pub fn num_objects(&self) -> (r: usize)
        ensures
            r == self.objects@.len(),
    {
        self.objects.len()
    }

    /// Return the allocation of the object at `gc_ref` to the free list
    /// without touching the references its fields may hold.
    fn dealloc(&mut self, gc_ref: &VMGcRef)
        requires
            old(self).wf_core(),
            !gc_ref.is_i31_spec(),
            gc_ref.wf(),
            old(self).live(gc_ref.index_spec()),
        ensures
            final(self).wf_core(),
            final(self).objects@ == old(self).objects@.remove(gc_ref.index_spec()),
            *final(self) == (DrcHeap {
                objects: final(self).objects,
                free_list: final(self).free_list,
                ..*old(self)
            }),
            final(self).fl_capacity() == old(self).fl_capacity(),
            old(self).rc_positive() ==> final(self).rc_positive(),
            forall|a: int|
                final(self).fl_free_addr(a) <==> (old(self).fl_free_addr(a) || (
                gc_ref.index_spec() <= a < gc_ref.index_spec() + old(self).size_of(
                    gc_ref.index_spec(),
                ))),
    {
        let i = drc_ref(gc_ref);
        proof {
            assert(old(self).object_entry_wf(i));
        }
        let o = self.take_obj(i);
        let size = o.header.object_size;
        let ghost gi = i as int;
        let ghost gsize = size as int;
        proof {
            let flv = self.free_list.unwrap();
            assert forall|a: int| gi <= a < gi + gsize implies !flv.free_addr(a) by {
                assert(!free_addr_opt(self.free_list, a));
            }
        }
        let fl = self.free_list.as_mut().unwrap();
        fl.dealloc(i, size);
        proof {
            let m2 = self.objects@;
            assert forall|j: u32| #[trigger] m2.contains_key(j) implies obj_wf_at(
                m2[j],
                j,
                self.free_list,
                self.trace_infos@,
            ) by {
                assert(old(self).objects@.contains_key(j));
                assert(obj_wf_at(
                    old(self).objects@[j],
                    j,
                    old(self).free_list,
                    old(self).trace_infos@,
                ));
                let o2 = m2[j];
                assert forall|a: int|
                    j <= a < j + o2.header.object_size implies !free_addr_opt(
                    self.free_list,
                    a,
                ) by {
                    assert(!free_addr_opt(old(self).free_list, a));
                    // The freed extent belonged to a different object, so
                    // disjointness keeps `a` outside it.
                    assert(j + m2[j].header.object_size <= i || i + gsize <= j);
                }
            }
            assert forall|i2: u32, j2: u32|
                #[trigger] m2.contains_key(i2) && #[trigger] m2.contains_key(j2) && i2
                    != j2 implies (i2 + m2[i2].header.object_size <= j2 || j2
                + m2[j2].header.object_size <= i2) by {
                assert(old(self).objects@.contains_key(i2));
                assert(old(self).objects@.contains_key(j2));
            }
        }
    }

    /// Allocate and initialize one object: carve its block, stamp the
    /// header with a reference count of one, and record kind-specific
    /// metadata.
    fn alloc_obj(
        &mut self,
        header: VMGcHeader,
        size: u32,
        align: u32,
        length: u32,
        host_data: u32,
    ) -> (r: Result<Result<VMGcRef, u64>, FreeListError>)
        requires
            old(self).wf(),
            old(self).free_list is Some,
            header.wf(),
            HEADER_SIZE <= size,
            HEADER_ALIGN <= align,
            align % 2 == 0,
            (header.ty matches Some(t) ==> old(self).trace_infos@.contains_key(t)),
        ensures
            final(self).wf(),
            *final(self) == (DrcHeap {
                objects: final(self).objects,
                free_list: final(self).free_list,
                ..*old(self)
            }),
            final(self).fl_capacity() == old(self).fl_capacity(),
            r is Err <==> align > crate::free_list::MAX_ALLOC_ALIGN,
            r is Err ==> *final(self) == *old(self),
            r matches Ok(Err(n)) ==> n == size && *final(self) == *old(self) && !old(self).fl_some_fits(size as int, align as int),
            r matches Ok(Ok(g)) ==> {
                &&& g.wf()
                &&& !g.is_i31_spec()
                &&& !old(self).live(g.index_spec())
                &&& old(self).fl_some_fits(size as int, align as int)
                &&& final(self).objects@ == old(self).objects@.insert(
                    g.index_spec(),
                    final(self).objects@[g.index_spec()],
                )
                &&& final(self).objects@[g.index_spec()].header.header == header
                &&& final(self).objects@[g.index_spec()].header.ref_count == 1
                &&& final(self).objects@[g.index_spec()].header.object_size == size
                &&& final(self).objects@[g.index_spec()].length == length
                &&& final(self).objects@[g.index_spec()].host_data == host_data
                &&& forall|a: int|
                    final(self).fl_free_addr(a) <==> (old(self).fl_free_addr(a) && !(
                    g.index_spec() <= a < g.index_spec() + size))
            },
    {
        let fl = self.free_list.as_mut().unwrap();
        let index = match fl.allocate(size, align) {
            Err(e) => {
                return Err(e);
            },
            Ok(None) => {
                return Ok(Err(size as u64));
            },
            Ok(Some(index)) => index,
        };
        let ghost gi = index as int;
        proof {
            // The carved index cannot be a live object: its first byte was
            // free, and no byte of a live extent is.
            if old(self).live(index) {
                assert(old(self).object_entry_wf(index));
                assert(!free_addr_opt(old(self).free_list, gi));
                assert(free_addr_opt(old(self).free_list, gi));
            }
        }
        let mut data: Vec<u8> = Vec::new();
        let mut k: u32 = 0;
        while k < size
            invariant
                k <= size,
                data@.len() == k,
                forall|b: int| 0 <= b < k ==> data@[b] == 0,
            decreases size - k,
        {
            data.push(0);
            k += 1;
        }
        let obj = HeapObject {
            header: VMDrcHeader { header, ref_count: 1, object_size: size },
            length,
            host_data,
            data,
        };
        self.put_obj(index, obj);
        let g = VMGcRef::from_heap_index(index).unwrap();
        proof {
            let m = old(self).objects@;
            let m2 = self.objects@;
            assert forall|j: u32| #[trigger] m2.contains_key(j) implies obj_wf_at(
                m2[j],
                j,
                self.free_list,
                self.trace_infos@,
            ) by {
                if j == index {
                    assert forall|a: int|
                        j <= a < j + m2[j].header.object_size implies !free_addr_opt(
                        self.free_list,
                        a,
                    ) by {}
                } else {
                    assert(m.contains_key(j));
                    assert(obj_wf_at(m[j], j, old(self).free_list, old(self).trace_infos@));
                    assert forall|a: int|
                        j <= a < j + m2[j].header.object_size implies !free_addr_opt(
                        self.free_list,
                        a,
                    ) by {
                        assert(!free_addr_opt(old(self).free_list, a));
                    }
                }
            }
            assert forall|i2: u32, j2: u32|
                #[trigger] m2.contains_key(i2) && #[trigger] m2.contains_key(j2) && i2
                    != j2 implies (i2 + m2[i2].header.object_size <= j2 || j2
                + m2[j2].header.object_size <= i2) by {
                let no: u32 = if i2 == index {
                    j2
                } else {
                    i2
                };
                if i2 == index || j2 == index {
                    // The fresh extent was carved from free bytes, and no
                    // byte of the old object's extent is free.
                    assert(m.contains_key(no));
                    assert(obj_wf_at(m[no], no, old(self).free_list, old(self).trace_infos@));
                    if !(index + size <= no || no + m2[no].header.object_size <= index) {
                        let a: int = if no <= index {
                            gi
                        } else {
                            no as int
                        };
                        assert(free_addr_opt(old(self).free_list, a));
                        assert(!free_addr_opt(old(self).free_list, a));
                    }
                } else {
                    assert(m.contains_key(i2));
                    assert(m.contains_key(j2));
                }
            }
        }
        Ok(Ok(g))
    }
}


/// Derive the trace information of a struct layout: keep the offsets of
/// the reference fields, in order, and discard the rest.
fn derive_struct_trace(layout: &GcStructLayout) -> (t: TraceInfo)
    ensures
        (t matches TraceInfo::Struct { gc_ref_offsets } && gc_ref_offsets@ == struct_ref_offsets(
            layout.fields@,
        )),
{
    let mut gc_ref_offsets: Vec<u32> = Vec::new();
    let n = layout.fields.len();
    let mut j: usize = 0;
    while j < n
        invariant
            j <= n,
            n == layout.fields@.len(),
            gc_ref_offsets@ == struct_ref_offsets(layout.fields@.take(j as int)),
        decreases n - j,
    {
        let f = &layout.fields[j];
        if f.is_gc_ref {
            gc_ref_offsets.push(f.offset);
        }
        proof {
            assert(layout.fields@.take(j + 1).drop_last() =~= layout.fields@.take(j as int));
            assert(layout.fields@.take(j + 1).last() == layout.fields@[j as int]);
        }
        j += 1;
    }
    proof {
        assert(layout.fields@.take(n as int) =~= layout.fields@);
    }
    TraceInfo::Struct { gc_ref_offsets }
}

impl DrcHeap {
    /// Install trace information for a type not yet on file.
    fn install_trace_info(&mut self, ty: u32, info: TraceInfo)
        requires
            old(self).wf(),
            !old(self).trace_infos@.contains_key(ty),
        ensures
            final(self).wf(),
            *final(self) == (DrcHeap { trace_infos: final(self).trace_infos, ..*old(self) }),
            final(self).trace_infos@ == old(self).trace_infos@.insert(ty, info),
    {
        self.trace_infos.insert(ty, info);
        proof {
            assert forall|i: u32| self.objects@.contains_key(i) implies obj_wf_at(
                self.objects@[i],
                i,
                self.free_list,
                self.trace_infos@,
            ) by {
                assert(old(self).object_entry_wf(i));
            }
        }
    }

    /// Make sure trace information for struct type `ty` is on file.
    pub fn ensure_struct_trace_info(&mut self, ty: u32, layout: &GcStructLayout)
        requires
            old(self).wf(),
        ensures
            final(self).wf(),
            *final(self) == (DrcHeap { trace_infos: final(self).trace_infos, ..*old(self) }),
            final(self).trace_infos@.contains_key(ty),
            old(self).trace_infos@.contains_key(ty) ==> final(self).trace_infos@ == old(self).trace_infos@,
            !old(self).trace_infos@.contains_key(ty) ==> {
                &&& final(self).trace_infos@.dom() == old(self).trace_infos@.dom().insert(ty)
                &&& (forall|t: u32|
                    t != ty && old(self).trace_infos@.contains_key(t)
                        ==> final(self).trace_infos@[t] == old(self).trace_infos@[t])
                &&& (final(self).trace_infos@[ty] matches TraceInfo::Struct { gc_ref_offsets }
                    && gc_ref_offsets@ == struct_ref_offsets(layout.fields@))
            },
    {
        if self.trace_infos.contains_key(&ty) {
            return ;
        }
        let info = derive_struct_trace(layout);
        self.install_trace_info(ty, info);
        proof {
            assert(self.trace_infos@.dom() =~= old(self).trace_infos@.dom().insert(ty));
        }
    }

    /// Make sure trace information for array type `ty` is on file.
    pub fn ensure_array_trace_info(&mut self, ty: u32, layout: &GcArrayLayout)
        requires
            old(self).wf(),
        ensures
            final(self).wf(),
            *final(self) == (DrcHeap { trace_infos: final(self).trace_infos, ..*old(self) }),
            final(self).trace_infos@.contains_key(ty),
            old(self).trace_infos@.contains_key(ty) ==> final(self).trace_infos@ == old(self).trace_infos@,
            !old(self).trace_infos@.contains_key(ty) ==> {
                &&& final(self).trace_infos@.dom() == old(self).trace_infos@.dom().insert(ty)
                &&& (forall|t: u32|
                    t != ty && old(self).trace_infos@.contains_key(t)
                        ==> final(self).trace_infos@[t] == old(self).trace_infos@[t])
                &&& (final(self).trace_infos@[ty] matches TraceInfo::Array { gc_ref_elems }
                    && gc_ref_elems == layout.elems_are_gc_refs)
            },
    {
        if self.trace_infos.contains_key(&ty) {
            return ;
        }
        let info = TraceInfo::Array { gc_ref_elems: layout.elems_are_gc_refs };
        self.install_trace_info(ty, info);
        proof {
            assert(self.trace_infos@.dom() =~= old(self).trace_infos@.dom().insert(ty));
        }
    }

    /// Allocate a raw object with the given header. The object is born
    /// with a reference count of one, owned by the caller; it is not put
    /// into the activations table.
    ///
    /// `Ok(Err(bytes_needed))` reports that no free block fits, so the
    /// caller can grow the backing region or collect and retry.
    pub fn alloc_raw(&mut self, header: VMGcHeader, size: u32, align: u32) -> (r: Result<
        Result<VMGcRef, u64>,
        FreeListError,
    >)
        requires
            old(self).wf(),
            old(self).free_list is Some,
            header.wf(),
            HEADER_SIZE <= size,
            HEADER_ALIGN <= align,
            align % 2 == 0,
            (header.ty matches Some(t) ==> old(self).trace_infos@.contains_key(t)),
        ensures
            final(self).wf(),
            *final(self) == (DrcHeap {
                objects: final(self).objects,
                free_list: final(self).free_list,
                ..*old(self)
            }),
            final(self).fl_capacity() == old(self).fl_capacity(),
            r is Err <==> align > crate::free_list::MAX_ALLOC_ALIGN,
            r is Err ==> *final(self) == *old(self),
            r matches Ok(Err(n)) ==> n == size && *final(self) == *old(self) && !old(self).fl_some_fits(size as int, align as int),
            r matches Ok(Ok(g)) ==> {
                &&& g.wf()
                &&& !g.is_i31_spec()
                &&& !old(self).live(g.index_spec())
                &&& old(self).fl_some_fits(size as int, align as int)
                &&& final(self).objects@ == old(self).objects@.insert(
                    g.index_spec(),
                    final(self).objects@[g.index_spec()],
                )
                &&& final(self).objects@[g.index_spec()].header.header == header
                &&& final(self).objects@[g.index_spec()].header.ref_count == 1
                &&& final(self).objects@[g.index_spec()].header.object_size == size
                &&& forall|a: int|
                    final(self).fl_free_addr(a) <==> (old(self).fl_free_addr(a) && !(
                    g.index_spec() <= a < g.index_spec() + size))
            },
    {
        self.alloc_obj(header, size, align, 0, 0)
    }

    /// Allocate a struct object of registered type `ty`, deriving trace
    /// information from its layout when the type is new to this heap. The
    /// caller initializes the fields.
    pub fn alloc_uninit_struct(&mut self, ty: u32, layout: &GcStructLayout) -> (r: Result<
        Result<VMStructRef, u64>,
        FreeListError,
    >)
        requires
            old(self).wf(),
            old(self).free_list is Some,
            HEADER_SIZE <= layout.size,
            HEADER_ALIGN <= layout.align,
            layout.align % 2 == 0,
        ensures
            final(self).wf(),
            *final(self) == (DrcHeap {
                objects: final(self).objects,
                free_list: final(self).free_list,
                trace_infos: final(self).trace_infos,
                ..*old(self)
            }),
            final(self).fl_capacity() == old(self).fl_capacity(),
            final(self).trace_infos@.contains_key(ty),
            r is Err <==> layout.align > crate::free_list::MAX_ALLOC_ALIGN,
            r is Err ==> final(self).objects@ == old(self).objects@,
            r matches Ok(Err(n)) ==> n == layout.size && final(self).objects@ == old(self).objects@
                && !old(self).fl_some_fits(layout.size as int, layout.align as int),
            r matches Ok(Ok(sr)) ==> {
                &&& sr.gc_ref_spec().wf()
                &&& !sr.gc_ref_spec().is_i31_spec()
                &&& !old(self).live(sr.gc_ref_spec().index_spec())
                &&& final(self).objects@ == old(self).objects@.insert(
                    sr.gc_ref_spec().index_spec(),
                    final(self).objects@[sr.gc_ref_spec().index_spec()],
                )
                &&& final(self).objects@[sr.gc_ref_spec().index_spec()].header.header.kind
                    == VMGcKind::StructRef
                &&& final(self).objects@[sr.gc_ref_spec().index_spec()].header.header.ty == Some(
                    ty,
                )
                &&& final(self).objects@[sr.gc_ref_spec().index_spec()].header.ref_count == 1
                &&& final(self).objects@[sr.gc_ref_spec().index_spec()].header.object_size
                    == layout.size
            },
    {
        self.ensure_struct_trace_info(ty, layout);
        let header = VMGcHeader::from_kind_and_index(VMGcKind::StructRef, ty);
        let r = match self.alloc_obj(header, layout.size, layout.align, 0, 0) {
            Err(e) => Err(e),
            Ok(Err(n)) => Ok(Err(n)),
            Ok(Ok(g)) => Ok(Ok(VMStructRef::from_gc_ref_unchecked(g))),
        };
        r
    }

    /// Allocate an array object of registered type `ty` with `length`
    /// elements. The caller initializes the elements.
    pub fn alloc_uninit_array(&mut self, ty: u32, length: u32, layout: &GcArrayLayout) -> (r:
        Result<Result<VMArrayRef, u64>, FreeListError>)
        requires
            old(self).wf(),
            old(self).free_list is Some,
            HEADER_SIZE <= layout.base_size,
            HEADER_ALIGN <= layout.align,
            layout.align % 2 == 0,
            layout.base_size + layout.elem_size * length <= u32::MAX,
        ensures
            final(self).wf(),
            *final(self) == (DrcHeap {
                objects: final(self).objects,
                free_list: final(self).free_list,
                trace_infos: final(self).trace_infos,
                ..*old(self)
            }),
            final(self).fl_capacity() == old(self).fl_capacity(),
            final(self).trace_infos@.contains_key(ty),
            r is Err <==> layout.align > crate::free_list::MAX_ALLOC_ALIGN,
            r is Err ==> final(self).objects@ == old(self).objects@,
            r matches Ok(Err(n)) ==> n == layout.base_size + layout.elem_size * length && final(self).objects@ == old(self).objects@ && !old(self).fl_some_fits(
                (layout.base_size + layout.elem_size * length) as int,
                layout.align as int,
            ),
            r matches Ok(Ok(ar)) ==> {
                &&& ar.gc_ref_spec().wf()
                &&& !ar.gc_ref_spec().is_i31_spec()
                &&& !old(self).live(ar.gc_ref_spec().index_spec())
                &&& final(self).objects@ == old(self).objects@.insert(
                    ar.gc_ref_spec().index_spec(),
                    final(self).objects@[ar.gc_ref_spec().index_spec()],
                )
                &&& final(self).objects@[ar.gc_ref_spec().index_spec()].header.header.kind
                    == VMGcKind::ArrayRef
                &&& final(self).objects@[ar.gc_ref_spec().index_spec()].header.header.ty == Some(
                    ty,
                )
                &&& final(self).objects@[ar.gc_ref_spec().index_spec()].header.ref_count == 1
                &&& final(self).objects@[ar.gc_ref_spec().index_spec()].header.object_size
                    == layout.base_size + layout.elem_size * length
                &&& final(self).objects@[ar.gc_ref_spec().index_spec()].length == length
            },
    {
        self.ensure_array_trace_info(ty, layout);
        let header = VMGcHeader::from_kind_and_index(VMGcKind::ArrayRef, ty);
        let size64: u64 = layout.base_size as u64 + (layout.elem_size as u64) * (length as u64);
        let size: u32 = size64 as u32;
        let r = match self.alloc_obj(header, size, layout.align, length, 0) {
            Err(e) => Err(e),
            Ok(Err(n)) => Ok(Err(n)),
            Ok(Ok(g)) => Ok(Ok(VMArrayRef::from_gc_ref_unchecked(g))),
        };
        r
    }

    /// Allocate an `externref` object carrying `host_data` as the id of
    /// its companion entry in the host-data table.
    pub fn alloc_externref(&mut self, host_data: u32) -> (r: Result<
        Result<VMExternRef, u64>,
        FreeListError,
    >)
        requires
            old(self).wf(),
            old(self).free_list is Some,
        ensures
            final(self).wf(),
            *final(self) == (DrcHeap {
                objects: final(self).objects,
                free_list: final(self).free_list,
                ..*old(self)
            }),
            final(self).fl_capacity() == old(self).fl_capacity(),
            r is Err <==> false,
            r matches Ok(Err(n)) ==> n == EXTERNREF_SIZE && *final(self) == *old(self) && !old(self).fl_some_fits(EXTERNREF_SIZE as int, HEADER_ALIGN as int),
            r matches Ok(Ok(er)) ==> {
                &&& er.gc_ref_spec().wf()
                &&& !er.gc_ref_spec().is_i31_spec()
                &&& !old(self).live(er.gc_ref_spec().index_spec())
                &&& final(self).objects@ == old(self).objects@.insert(
                    er.gc_ref_spec().index_spec(),
                    final(self).objects@[er.gc_ref_spec().index_spec()],
                )
                &&& final(self).objects@[er.gc_ref_spec().index_spec()].header.header.kind
                    == VMGcKind::ExternRef
                &&& final(self).objects@[er.gc_ref_spec().index_spec()].header.ref_count == 1
                &&& final(self).objects@[er.gc_ref_spec().index_spec()].header.object_size
                    == EXTERNREF_SIZE
                &&& final(self).objects@[er.gc_ref_spec().index_spec()].host_data == host_data
            },
    {
        let header = VMGcHeader::externref();
        match self.alloc_obj(header, EXTERNREF_SIZE, HEADER_ALIGN, 0, host_data) {
            Err(e) => Err(e),
            Ok(Err(n)) => Ok(Err(n)),
            Ok(Ok(g)) => Ok(Ok(VMExternRef::from_gc_ref_unchecked(g))),
        }
    }

    /// Return an allocation whose initialization the caller abandoned,
    /// without walking any references.
    pub fn dealloc_uninit_struct(&mut self, structref: VMStructRef)
        requires
            old(self).wf(),
            structref.gc_ref_spec().wf(),
            !structref.gc_ref_spec().is_i31_spec(),
            old(self).live(structref.gc_ref_spec().index_spec()),
        ensures
            final(self).wf(),
            final(self).objects@ == old(self).objects@.remove(structref.gc_ref_spec().index_spec()),
            *final(self) == (DrcHeap {
                objects: final(self).objects,
                free_list: final(self).free_list,
                ..*old(self)
            }),
            final(self).fl_capacity() == old(self).fl_capacity(),
            forall|a: int|
                final(self).fl_free_addr(a) <==> (old(self).fl_free_addr(a) || (
                structref.gc_ref_spec().index_spec() <= a < structref.gc_ref_spec().index_spec() + old(
                    self,
                ).size_of(structref.gc_ref_spec().index_spec()))),
    {
        let gc_ref = structref.into_gc_ref();
        self.dealloc(&gc_ref);
    }

    /// Return an abandoned array allocation, without walking any
    /// references.
    pub fn dealloc_uninit_array(&mut self, arrayref: VMArrayRef)
        requires
            old(self).wf(),
            arrayref.gc_ref_spec().wf(),
            !arrayref.gc_ref_spec().is_i31_spec(),
            old(self).live(arrayref.gc_ref_spec().index_spec()),
        ensures
            final(self).wf(),
            final(self).objects@ == old(self).objects@.remove(arrayref.gc_ref_spec().index_spec()),
            *final(self) == (DrcHeap {
                objects: final(self).objects,
                free_list: final(self).free_list,
                ..*old(self)
            }),
            final(self).fl_capacity() == old(self).fl_capacity(),
            forall|a: int|
                final(self).fl_free_addr(a) <==> (old(self).fl_free_addr(a) || (
                arrayref.gc_ref_spec().index_spec() <= a < arrayref.gc_ref_spec().index_spec() + old(
                    self,
                ).size_of(arrayref.gc_ref_spec().index_spec()))),
    {
        let gc_ref = arrayref.into_gc_ref();
        self.dealloc(&gc_ref);
    }

    /// The collector-agnostic header of the object at `gc_ref`.
    pub fn header(&self, gc_ref: &VMGcRef) -> (r: VMGcHeader)
        requires
            self.wf(),
            gc_ref.wf(),
            !gc_ref.is_i31_spec(),
            self.live(gc_ref.index_spec()),
        ensures
            r == self.objects@[gc_ref.index_spec()].header.header,
    {
        let i = drc_ref(gc_ref);
        self.get_obj(i).unwrap().header.header
    }

    /// The exact allocated size in bytes of the object at `gc_ref`.
    pub fn object_size(&self, gc_ref: &VMGcRef) -> (r: usize)
        requires
            self.wf(),
            gc_ref.wf(),
            !gc_ref.is_i31_spec(),
            self.live(gc_ref.index_spec()),
        ensures
            r == self.size_of(gc_ref.index_spec()),
    {
        let i = drc_ref(gc_ref);
        self.get_obj(i).unwrap().header.object_size()
    }

    /// The current reference count of the object at `gc_ref`.
    pub fn ref_count(&self, gc_ref: &VMGcRef) -> (r: u64)
        requires
            self.wf(),
            gc_ref.wf(),
            !gc_ref.is_i31_spec(),
            self.live(gc_ref.index_spec()),
        ensures
            r == self.rc(gc_ref.index_spec()),
    {
        let i = drc_ref(gc_ref);
        self.get_obj(i).unwrap().header.ref_count
    }

    /// The element count of the array object at `arrayref`.
    pub fn array_len(&self, arrayref: &VMArrayRef) -> (r: u32)
        requires
            self.wf(),
            arrayref.gc_ref_spec().wf(),
            !arrayref.gc_ref_spec().is_i31_spec(),
            self.live(arrayref.gc_ref_spec().index_spec()),
            self.objects@[arrayref.gc_ref_spec().index_spec()].header.header.kind
                == VMGcKind::ArrayRef,
        ensures
            r == self.objects@[arrayref.gc_ref_spec().index_spec()].length,
    {
        let i = drc_ref(arrayref.as_gc_ref());
        self.get_obj(i).unwrap().length
    }

    /// The host-data id carried by the `externref` object at `externref`.
    pub fn externref_host_data(&self, externref: &VMExternRef) -> (r: u32)
        requires
            self.wf(),
            externref.gc_ref_spec().wf(),
            !externref.gc_ref_spec().is_i31_spec(),
            self.live(externref.gc_ref_spec().index_spec()),
        ensures
            r == self.objects@[externref.gc_ref_spec().index_spec()].host_data,
    {
        let i = crate::gc_ref::externref_to_drc(externref);
        self.get_obj(i).unwrap().host_data
    }

    /// Read the raw 32-bit value at byte `offset` of the object at
    /// `gc_ref`, as the mutator's loads do.
    pub fn read_u32(&self, gc_ref: &VMGcRef, offset: u32) -> (r: u32)
        requires
            self.wf_core(),
            gc_ref.wf(),
            !gc_ref.is_i31_spec(),
            self.live(gc_ref.index_spec()),
            offset + 4 <= self.size_of(gc_ref.index_spec()),
        ensures
            r == u32_at(self.objects@[gc_ref.index_spec()].data@, offset as int),
    {
        let i = drc_ref(gc_ref);
        let o = self.get_obj(i).unwrap();
        proof {
            assert(self.object_entry_wf(i));
        }
        let p = offset as usize;
        (o.data[p] as u32) | ((o.data[p + 1] as u32) << 8) | ((o.data[p + 2] as u32) << 16) | ((
        o.data[p + 3] as u32) << 24)
    }

    /// Store the raw 32-bit `value` at byte `offset` of the object at
    /// `gc_ref`, as the mutator's stores do. This is a raw store: no
    /// reference count changes. Storing a reference's encoding transfers
    /// one owned count into the slot; use the write barrier for counted
    /// slot updates.
    pub fn write_u32(&mut self, gc_ref: &VMGcRef, offset: u32, value: u32)
        requires
            old(self).wf(),
            gc_ref.wf(),
            !gc_ref.is_i31_spec(),
            old(self).live(gc_ref.index_spec()),
            HEADER_SIZE <= offset,
            offset + 4 <= old(self).size_of(gc_ref.index_spec()),
        ensures
            final(self).wf(),
            *final(self) == (DrcHeap { objects: final(self).objects, ..*old(self) }),
            final(self).objects@ == old(self).objects@.insert(
                gc_ref.index_spec(),
                final(self).objects@[gc_ref.index_spec()],
            ),
            final(self).objects@[gc_ref.index_spec()].header == old(self).objects@[
                gc_ref.index_spec()].header,
            final(self).objects@[gc_ref.index_spec()].length == old(self).objects@[
                gc_ref.index_spec()].length,
            final(self).objects@[gc_ref.index_spec()].host_data == old(self).objects@[
                gc_ref.index_spec()].host_data,
            final(self).objects@[gc_ref.index_spec()].data@.len() == old(self).objects@[
                gc_ref.index_spec()].data@.len(),
            u32_at(final(self).objects@[gc_ref.index_spec()].data@, offset as int) == value,
            forall|b: int|
                0 <= b < final(self).objects@[gc_ref.index_spec()].data@.len() && !(offset <= b
                    < offset + 4) ==> final(self).objects@[gc_ref.index_spec()].data@[b] == old(self).objects@[gc_ref.index_spec()].data@[b],
    {
        let i = drc_ref(gc_ref);
        proof {
            assert(old(self).object_entry_wf(i));
        }
        let mut o = self.take_obj(i);
        let p = offset as usize;
        o.data.set(p, (value & 0xff) as u8);
        o.data.set(p + 1, ((value >> 8) & 0xff) as u8);
        o.data.set(p + 2, ((value >> 16) & 0xff) as u8);
        o.data.set(p + 3, ((value >> 24) & 0xff) as u8);
        proof {
            assert((((value & 0xff) as u8) as u32) | (((((value >> 8) & 0xff) as u8) as u32) << 8)
                | (((((value >> 16) & 0xff) as u8) as u32) << 16) | (((((value >> 24)
                & 0xff) as u8) as u32) << 24) == value) by (bit_vector);
        }
        let ghost o2 = o;
        self.put_obj(i, o);
        proof {
            assert(self.objects@ =~= old(self).objects@.insert(i, o2));
            let m = old(self).objects@;
            let m2 = self.objects@;
            assert forall|j: u32| #[trigger] m2.contains_key(j) implies obj_wf_at(
                m2[j],
                j,
                self.free_list,
                self.trace_infos@,
            ) by {
                assert(m.contains_key(j));
                assert(obj_wf_at(m[j], j, self.free_list, self.trace_infos@));
                if j == i {
                    lemma_obj_wf_rc_irrelevant(m[i], m2[i], i, self.free_list, self.trace_infos@);
                }
            }
            assert forall|i2: u32, j2: u32|
                #[trigger] m2.contains_key(i2) && #[trigger] m2.contains_key(j2) && i2
                    != j2 implies (i2 + m2[i2].header.object_size <= j2 || j2
                + m2[j2].header.object_size <= i2) by {
                assert(m.contains_key(i2) && m.contains_key(j2));
            }
        }
    }
}


/// Changing one entry's count to a positive value keeps every count
/// positive.
proof fn lemma_rc_positive_with_rc(m: Map<u32, HeapObject>, i: u32, rc: u64)
    requires
        rc_positive_map(m),
        rc >= 1,
        m.contains_key(i),
    ensures
        rc_positive_map(with_rc(m, i, rc)),
{
    let m2 = with_rc(m, i, rc);
    assert forall|j: u32| #[trigger] m2.contains_key(j) implies 1 <= m2[j].header.ref_count by {
        if j != i {
            assert(m.contains_key(j));
        }
    }
}

impl DrcHeap {
    /// Increment the reference count of the object `gc_ref` points at.
    /// Inline integers carry no count and pass through untouched.
    pub fn inc_ref(&mut self, gc_ref: &VMGcRef)
        requires
            old(self).wf(),
            gc_ref.wf(),
            !gc_ref.is_i31_spec() ==> old(self).live(gc_ref.index_spec()) && old(self).rc(
                gc_ref.index_spec(),
            ) < u64::MAX,
        ensures
            final(self).wf(),
            *final(self) == (DrcHeap { objects: final(self).objects, ..*old(self) }),
            gc_ref.is_i31_spec() ==> *final(self) == *old(self),
            !gc_ref.is_i31_spec() ==> final(self).objects@ == with_rc(
                old(self).objects@,
                gc_ref.index_spec(),
                (old(self).rc(gc_ref.index_spec()) + 1) as u64,
            ),
    {
        if gc_ref.is_i31() {
            return ;
        }
        let i = drc_ref(gc_ref);
        let rc = self.get_obj(i).unwrap().header.ref_count;
        self.set_rc(i, rc + 1);
        proof {
            lemma_rc_positive_with_rc(old(self).objects@, i, (rc + 1) as u64);
        }
    }

    /// Increment the count and hand back a copy of the reference.
    pub fn clone_gc_ref(&mut self, gc_ref: &VMGcRef) -> (r: VMGcRef)
        requires
            old(self).wf(),
            gc_ref.wf(),
            !gc_ref.is_i31_spec() ==> old(self).live(gc_ref.index_spec()) && old(self).rc(
                gc_ref.index_spec(),
            ) < u64::MAX,
        ensures
            final(self).wf(),
            r == *gc_ref,
            *final(self) == (DrcHeap { objects: final(self).objects, ..*old(self) }),
            gc_ref.is_i31_spec() ==> *final(self) == *old(self),
            !gc_ref.is_i31_spec() ==> final(self).objects@ == with_rc(
                old(self).objects@,
                gc_ref.index_spec(),
                (old(self).rc(gc_ref.index_spec()) + 1) as u64,
            ),
    {
        self.inc_ref(gc_ref);
        gc_ref.unchecked_copy()
    }

    /// Decrement the reference count of the object `gc_ref` points at and
    /// report whether it reached zero, in which case the caller must
    /// deallocate the object before anything else observes it.
    fn dec_ref(&mut self, gc_ref: &VMGcRef) -> (zero: bool)
        requires
            old(self).wf_core(),
            gc_ref.wf(),
            !gc_ref.is_i31_spec() ==> old(self).live(gc_ref.index_spec()) && old(self).rc(
                gc_ref.index_spec(),
            ) >= 1,
        ensures
            final(self).wf_core(),
            *final(self) == (DrcHeap { objects: final(self).objects, ..*old(self) }),
            gc_ref.is_i31_spec() ==> *final(self) == *old(self) && !zero,
            !gc_ref.is_i31_spec() ==> final(self).objects@ == with_rc(
                old(self).objects@,
                gc_ref.index_spec(),
                (old(self).rc(gc_ref.index_spec()) - 1) as u64,
            ) && zero == (old(self).rc(gc_ref.index_spec()) == 1),
    {
        if gc_ref.is_i31() {
            return false;
        }
        let i = drc_ref(gc_ref);
        let rc = self.get_obj(i).unwrap().header.ref_count;
        self.set_rc(i, rc - 1);
        rc == 1
    }

    /// Push every outgoing managed reference of the object at `gc_ref`
    /// onto `stack`, according to its type's trace information.
    /// `externref`s have no outgoing references, so the stack is left
    /// untouched for them.
    fn trace_gc_ref(&self, gc_ref: &VMGcRef, stack: &mut Vec<VMGcRef>)
        requires
            self.wf_core(),
            gc_ref.wf(),
            !gc_ref.is_i31_spec(),
            self.live(gc_ref.index_spec()),
        ensures
            old(stack)@.len() <= final(stack)@.len(),
            forall|k: int| 0 <= k < old(stack)@.len() ==> final(stack)@[k] == old(stack)@[k],
            forall|k: int|
                old(stack)@.len() <= k < final(stack)@.len() ==> (#[trigger] final(stack)@[k]).wf(),
            raws_of(final(stack)@) == raws_of(old(stack)@) + object_edge_raws(
                self.objects@[gc_ref.index_spec()],
                self.trace_infos@,
            ),
    {
        let i = drc_ref(gc_ref);
        proof {
            assert(self.object_entry_wf(i));
            assert(self.objects@[i].header.header.wf());
        }
        let ghost o = self.objects@[i];
        let ty = match self.get_obj(i).unwrap().header.header.ty() {
            None => {
                proof {
                    assert(raws_of(stack@) =~= raws_of(old(stack)@) + object_edge_raws(
                        o,
                        self.trace_infos@,
                    ));
                }
                return ;
            },
            Some(ty) => ty,
        };
        let size = self.get_obj(i).unwrap().header.object_size;
        let length = self.get_obj(i).unwrap().length;
        let info = match self.trace_infos.get(&ty) {
            None => {
                proof {
                    assert(raws_of(stack@) =~= raws_of(old(stack)@) + object_edge_raws(
                        o,
                        self.trace_infos@,
                    ));
                }
                return ;
            },
            Some(info) => info,
        };
        proof {
            assert(*info == self.trace_infos@[ty]);
        }
        match info {
            TraceInfo::Struct { gc_ref_offsets } => {
                proof {
                    assert(object_edge_raws(o, self.trace_infos@) == struct_edge_raws(
                        o.data@,
                        gc_ref_offsets@,
                    ));
                }
                let n = gc_ref_offsets.len();
                let mut j: usize = 0;
                while j < n
                    invariant
                        j <= n,
                        n == gc_ref_offsets@.len(),
                        self.wf_core(),
                        gc_ref.wf(),
                        !gc_ref.is_i31_spec(),
                        self.live(gc_ref.index_spec()),
                        i == gc_ref.index_spec(),
                        o == self.objects@[i],
                        size == self.size_of(i),
                        o.data@.len() == size,
                        old(stack)@.len() <= stack@.len(),
                        forall|k: int| 0 <= k < old(stack)@.len() ==> stack@[k] == old(stack)@[k],
                        forall|k: int|
                            old(stack)@.len() <= k < stack@.len() ==> (#[trigger] stack@[k]).wf(),
                        raws_of(stack@) == raws_of(old(stack)@) + struct_edge_raws(
                            o.data@,
                            gc_ref_offsets@.take(j as int),
                        ),
                    decreases n - j,
                {
                    let off = gc_ref_offsets[j];
                    let ghost pre_stack = stack@;
                    let ghost e_prev = struct_edge_raws(o.data@, gc_ref_offsets@.take(j as int));
                    proof {
                        assert(gc_ref_offsets@.take(j + 1).drop_last() =~= gc_ref_offsets@.take(
                            j as int,
                        ));
                        assert(gc_ref_offsets@.take(j + 1).last() == off);
                    }
                    if off <= u32::MAX - 4 && off + 4 <= size {
                        let raw = self.read_u32(gc_ref, off);
                        match VMGcRef::from_raw_u32(raw) {
                            Some(g) => {
                                stack.push(g);
                                proof {
                                    assert(stack@.drop_last() =~= pre_stack);
                                    assert(raws_of(stack@) =~= raws_of(pre_stack).push(raw));
                                    assert(struct_edge_raws(
                                        o.data@,
                                        gc_ref_offsets@.take(j + 1),
                                    ) == e_prev.push(raw));
                                    assert(raws_of(old(stack)@) + e_prev.push(raw) =~= (raws_of(
                                        old(stack)@,
                                    ) + e_prev).push(raw));
                                }
                            },
                            None => {
                                proof {
                                    assert(struct_edge_raws(
                                        o.data@,
                                        gc_ref_offsets@.take(j + 1),
                                    ) == e_prev);
                                }
                            },
                        }
                    } else {
                        proof {
                            assert(off + 4 > o.data@.len());
                            assert(struct_edge_raws(o.data@, gc_ref_offsets@.take(j + 1))
                                == e_prev);
                        }
                    }
                    j += 1;
                }
                proof {
                    assert(gc_ref_offsets@.take(n as int) =~= gc_ref_offsets@);
                }
            },
            TraceInfo::Array { gc_ref_elems } => {
                if !*gc_ref_elems {
                    proof {
                        assert(raws_of(stack@) =~= raws_of(old(stack)@) + object_edge_raws(
                            o,
                            self.trace_infos@,
                        ));
                    }
                    return ;
                }
                proof {
                    assert(object_edge_raws(o, self.trace_infos@) == array_edge_raws(
                        o.data@,
                        o.length as int,
                    ));
                }
                let mut idx: u32 = 0;
                while idx < length
                    invariant
                        idx <= length,
                        self.wf_core(),
                        gc_ref.wf(),
                        !gc_ref.is_i31_spec(),
                        self.live(gc_ref.index_spec()),
                        i == gc_ref.index_spec(),
                        o == self.objects@[i],
                        length == o.length,
                        object_edge_raws(o, self.trace_infos@) == array_edge_raws(
                            o.data@,
                            length as int,
                        ),
                        size == self.size_of(i),
                        o.data@.len() == size,
                        old(stack)@.len() <= stack@.len(),
                        forall|k: int| 0 <= k < old(stack)@.len() ==> stack@[k] == old(stack)@[k],
                        forall|k: int|
                            old(stack)@.len() <= k < stack@.len() ==> (#[trigger] stack@[k]).wf(),
                        raws_of(stack@) == raws_of(old(stack)@) + array_edge_raws(
                            o.data@,
                            idx as int,
                        ),
                    decreases length - idx,
                {
                    let off64: u64 = GC_REF_ARRAY_ELEMS_OFFSET as u64 + 4 * (idx as u64);
                    if off64 + 4 > size as u64 {
                        // Every later element offset also falls past the
                        // payload, so nothing more is gathered.
                        proof {
                            assert(GC_REF_ARRAY_ELEMS_OFFSET + 4 * (idx as int) + 4
                                > o.data@.len());
                            lemma_array_edge_raws_stop(o.data@, idx as int, length as int);
                            assert(array_edge_raws(o.data@, length as int) == array_edge_raws(
                                o.data@,
                                idx as int,
                            ));
                            assert(raws_of(stack@) == raws_of(old(stack)@) + object_edge_raws(
                                o,
                                self.trace_infos@,
                            ));
                        }
                        return ;
                    }
                    let off = off64 as u32;
                    let raw = self.read_u32(gc_ref, off);
                    let ghost pre_stack = stack@;
                    let ghost e_prev = array_edge_raws(o.data@, idx as int);
                    match VMGcRef::from_raw_u32(raw) {
                        Some(g) => {
                            stack.push(g);
                            proof {
                                assert(stack@.drop_last() =~= pre_stack);
                                assert(raws_of(stack@) =~= raws_of(pre_stack).push(raw));
                                assert(array_edge_raws(o.data@, idx + 1) == e_prev.push(raw));
                                assert(raws_of(old(stack)@) + e_prev.push(raw) =~= (raws_of(
                                    old(stack)@,
                                ) + e_prev).push(raw));
                            }
                        },
                        None => {
                            proof {
                                assert(array_edge_raws(o.data@, idx + 1) == e_prev);
                            }
                        },
                    }
                    idx += 1;
                }
            },
        }
    }

    /// Decrement the count of the object `gc_ref` points at; if it reaches
    /// zero, deallocate the object, drop the host-data entry of an
    /// `externref`, and decrement whatever the object referenced, using an
    /// explicit worklist rather than recursion so that arbitrarily deep
    /// chains cannot exhaust the call stack. The complete effect on the
    /// object map and the drop log, transitive releases included, is the
    /// [`run_cascade`] of the reference.
    ///
    /// References to no live object are skipped, hardening the release
    /// build against the double-decrements that the reference-counting
    /// discipline already forbids.
    pub fn dec_ref_and_maybe_dealloc(
        &mut self,
        host_data_table: &mut ExternRefHostDataTable,
        gc_ref: &VMGcRef,
    )
        requires
            old(self).wf(),
            gc_ref.wf(),
        ensures
            final(self).wf(),
            *final(self) == (DrcHeap {
                objects: final(self).objects,
                free_list: final(self).free_list,
                ..*old(self)
            }),
            final(self).fl_capacity() == old(self).fl_capacity(),
            final(self).free_list is Some <==> old(self).free_list is Some,
            forall|j: u32|
                #[trigger] final(self).objects@.contains_key(j) ==> old(self).objects@.contains_key(j),
            ({
                let r = run_cascade(
                    old(self).objects@,
                    old(self).trace_infos@,
                    old(host_data_table).dealloc_log@,
                    seq![gc_ref.raw_spec()],
                );
                final(self).objects@ == r.0 && final(host_data_table).dealloc_log@ == r.1
            }),
            gc_ref.is_i31_spec() ==> *final(self) == *old(self) && *final(host_data_table) == *old(host_data_table),
            (!gc_ref.is_i31_spec() && !old(self).live(gc_ref.index_spec())) ==> *final(self)
                == *old(self) && *final(host_data_table) == *old(host_data_table),
            (!gc_ref.is_i31_spec() && old(self).live(gc_ref.index_spec()) && old(self).rc(
                gc_ref.index_spec(),
            ) >= 2) ==> final(self).objects@ == with_rc(
                old(self).objects@,
                gc_ref.index_spec(),
                (old(self).rc(gc_ref.index_spec()) - 1) as u64,
            ) && *final(host_data_table) == *old(host_data_table) && final(self).free_list == old(self).free_list,
            (!gc_ref.is_i31_spec() && old(self).live(gc_ref.index_spec()) && old(self).rc(
                gc_ref.index_spec(),
            ) == 1) ==> !final(self).objects@.contains_key(gc_ref.index_spec()),
            (!gc_ref.is_i31_spec() && old(self).live(gc_ref.index_spec()) && old(self).rc(
                gc_ref.index_spec(),
            ) == 1 && old(self).objects@[gc_ref.index_spec()].header.header.kind
                == VMGcKind::ExternRef) ==> final(self).objects@ == old(self).objects@.remove(
                gc_ref.index_spec(),
            ) && final(host_data_table).dealloc_log@ == old(host_data_table).dealloc_log@.push(
                old(self).objects@[gc_ref.index_spec()].host_data,
            ) && (forall|a: int|
                final(self).fl_free_addr(a) <==> (old(self).fl_free_addr(a) || (
                gc_ref.index_spec() <= a < gc_ref.index_spec() + old(self).size_of(
                    gc_ref.index_spec(),
                )))),
    {
        let ghost m0 = old(self).objects@;
        let ghost tr0 = old(self).trace_infos@;
        let ghost log0 = old(host_data_table).dealloc_log@;
        let ghost raw0 = gc_ref.raw_spec();
        proof {
            assert(seq![raw0].drop_last() =~= Seq::<u32>::empty());
            assert(run_cascade(m0, tr0, log0, Seq::<u32>::empty()) == (m0, log0));
        }
        if gc_ref.is_i31() {
            proof {
                assert(run_cascade(m0, tr0, log0, seq![raw0]) == (m0, log0));
            }
            return ;
        }
        let i = drc_ref(gc_ref);
        let first = match self.get_obj(i) {
            None => {
                proof {
                    assert(run_cascade(m0, tr0, log0, seq![raw0]) == (m0, log0));
                }
                return ;
            },
            Some(o) => (o.header.ref_count, o.header.header.kind, o.host_data),
        };
        let (rc, kind, hd) = first;
        if rc >= 2 {
            self.set_rc(i, rc - 1);
            proof {
                lemma_rc_positive_with_rc(old(self).objects@, i, (rc - 1) as u64);
                assert(run_cascade(with_rc(m0, raw0, (rc - 1) as u64), tr0, log0, Seq::<
                    u32,
                >::empty()) == (with_rc(m0, raw0, (rc - 1) as u64), log0));
                assert(run_cascade(m0, tr0, log0, seq![raw0]) == (
                    with_rc(m0, raw0, (rc - 1) as u64),
                    log0,
                ));
            }
            return ;
        }
        // The count reached zero: deallocate, drop host data if needed,
        // and enqueue the object's outgoing references.
        let mut stack: Vec<VMGcRef> = Vec::new();
        self.trace_gc_ref(gc_ref, &mut stack);
        if kind == VMGcKind::ExternRef {
            host_data_table.dealloc(hd);
        }
        self.dealloc(gc_ref);
        let ghost snap = *self;
        let ghost snap_host = *host_data_table;
        let ghost was_extern = kind == VMGcKind::ExternRef;
        proof {
            assert(raws_of(Seq::<VMGcRef>::empty()) =~= Seq::<u32>::empty());
            assert(raws_of(stack@) =~= object_edge_raws(m0[raw0], tr0));
            assert(Seq::<u32>::empty() + object_edge_raws(m0[raw0], tr0) =~= object_edge_raws(
                m0[raw0],
                tr0,
            ));
            assert(run_cascade(m0, tr0, log0, seq![raw0]) == run_cascade(
                m0.remove(raw0),
                tr0,
                host_data_table.dealloc_log@,
                object_edge_raws(m0[raw0], tr0),
            ));
            if was_extern {
                assert(object_edge_raws(m0[raw0], tr0) =~= Seq::<u32>::empty()) by {
                    assert(old(self).object_entry_wf(i));
                    assert(m0[raw0].header.header.wf());
                }
                assert(stack@.len() == 0);
                assert(stack@ =~= Seq::<VMGcRef>::empty());
            }
        }
        while stack.len() > 0
            invariant
                self.wf(),
                *self == (DrcHeap {
                    objects: self.objects,
                    free_list: self.free_list,
                    ..snap
                }),
                self.trace_infos@ == tr0,
                self.fl_capacity() == snap.fl_capacity(),
                self.free_list is Some <==> snap.free_list is Some,
                forall|j: u32|
                    #[trigger] self.objects@.contains_key(j) ==> snap.objects@.contains_key(j),
                !self.objects@.contains_key(i),
                forall|k: int| 0 <= k < stack@.len() ==> (#[trigger] stack@[k]).wf(),
                was_extern ==> stack@.len() == 0 && *self == snap && *host_data_table == snap_host,
                run_cascade(self.objects@, tr0, host_data_table.dealloc_log@, raws_of(stack@))
                    == run_cascade(m0, tr0, log0, seq![raw0]),
            decreases self.objects@.len(), stack@.len(),
        {
            let ghost full_stack = stack@;
            let r = stack.pop().unwrap();
            let ghost raw = r.raw_spec();
            let ghost pre_m = self.objects@;
            let ghost pre_log = host_data_table.dealloc_log@;
            proof {
                assert(raws_of(full_stack).len() == full_stack.len());
                assert(raws_of(full_stack).last() == raw);
                assert(raws_of(full_stack).drop_last() =~= raws_of(stack@));
            }
            if !r.is_i31() {
                let idx = drc_ref(&r);
                let cur = match self.get_obj(idx) {
                    None => None,
                    Some(o) => Some((o.header.ref_count, o.header.header.kind, o.host_data)),
                };
                match cur {
                    None => {
                        proof {
                            assert(run_cascade(pre_m, tr0, pre_log, raws_of(full_stack))
                                == run_cascade(pre_m, tr0, pre_log, raws_of(stack@)));
                        }
                    },
                    Some((rc2, kind2, hd2)) => {
                        if rc2 >= 2 {
                            let ghost before = self.objects@;
                            self.set_rc(idx, rc2 - 1);
                            proof {
                                lemma_rc_positive_with_rc(before, idx, (rc2 - 1) as u64);
                                assert(self.objects@.dom() =~= before.dom());
                                assert(run_cascade(pre_m, tr0, pre_log, raws_of(full_stack))
                                    == run_cascade(self.objects@, tr0, pre_log, raws_of(stack@)));
                            }
                        } else {
                            let ghost popped_stack = stack@;
                            self.trace_gc_ref(&r, &mut stack);
                            if kind2 == VMGcKind::ExternRef {
                                host_data_table.dealloc(hd2);
                            }
                            let ghost before = self.objects@;
                            self.dealloc(&r);
                            proof {
                                assert(self.objects@.dom() =~= before.dom().remove(idx));
                                assert(raws_of(stack@) =~= raws_of(popped_stack)
                                    + object_edge_raws(pre_m[raw], tr0));
                                assert(run_cascade(pre_m, tr0, pre_log, raws_of(full_stack))
                                    == run_cascade(
                                    self.objects@,
                                    tr0,
                                    host_data_table.dealloc_log@,
                                    raws_of(stack@),
                                ));
                            }
                        }
                    },
                }
            } else {
                proof {
                    assert(raw % 2 == 1);
                    assert(run_cascade(pre_m, tr0, pre_log, raws_of(full_stack)) == run_cascade(
                        pre_m,
                        tr0,
                        pre_log,
                        raws_of(stack@),
                    ));
                }
            }
        }
        proof {
            assert(raws_of(stack@) =~= Seq::<u32>::empty());
            assert(run_cascade(self.objects@, tr0, host_data_table.dealloc_log@, raws_of(stack@))
                == (self.objects@, host_data_table.dealloc_log@));
        }
    }
}



/// Object `o` with its reference count replaced by `rc`.
pub open spec fn obj_with_rc(o: HeapObject, rc: u64) -> HeapObject {
    HeapObject { header: VMDrcHeader { ref_count: rc, ..o.header }, ..o }
}

impl DrcHeap {
    /// The write barrier: overwrite a mutator-visible slot holding an
    /// optional reference with `source`.
    ///
    /// The order is material: the source is retained first, then the old
    /// destination is released (possibly deallocating), then the slot is
    /// overwritten, so that writing a slot's own contents back to it never
    /// frees a still-referenced object.
    pub fn write_gc_ref(
        &mut self,
        host_data_table: &mut ExternRefHostDataTable,
        destination: &mut Option<VMGcRef>,
        source: Option<&VMGcRef>,
    )
        requires
            old(self).wf(),
            ((*old(destination)) matches Some(d) ==> d.wf()),
            (source matches Some(s) ==> s.wf() && (!s.is_i31_spec() ==> old(self).live(
                s.index_spec(),
            ) && old(self).rc(s.index_spec()) < u64::MAX)),
        ensures
            final(self).wf(),
            *final(self) == (DrcHeap {
                objects: final(self).objects,
                free_list: final(self).free_list,
                ..*old(self)
            }),
            final(self).fl_capacity() == old(self).fl_capacity(),
            (source matches Some(s) ==> *final(destination) == Some(*s)),
            (source is None ==> *final(destination) is None),
            forall|j: u32|
                #[trigger] final(self).objects@.contains_key(j) ==> old(self).objects@.contains_key(j) || (source matches Some(s) && !s.is_i31_spec() && j
                    == s.index_spec()),
            ({
                let mid = write_barrier_mid(*old(self), source);
                let di = opt_ref_index(*old(destination));
                &&& (dest_is_quiet(*old(destination)) ==> final(self).objects@ == mid && *final(host_data_table) == *old(host_data_table))
                &&& (!dest_is_quiet(*old(destination)) && mid.contains_key(di)
                    && mid[di].header.ref_count >= 2 ==> final(self).objects@ == with_rc(
                    mid,
                    di,
                    (mid[di].header.ref_count - 1) as u64,
                ) && *final(host_data_table) == *old(host_data_table) && final(self).free_list
                    == old(self).free_list)
                &&& (!dest_is_quiet(*old(destination)) && !mid.contains_key(di) ==> final(self).objects@ == mid && *final(host_data_table) == *old(host_data_table))
                &&& (!dest_is_quiet(*old(destination)) && mid.contains_key(di)
                    && mid[di].header.ref_count == 1 ==> !final(self).objects@.contains_key(di))
            }),
    {
        // Retain the incoming reference first.
        match source {
            Some(src) => self.inc_ref(src),
            None => (),
        }
        // Release the outgoing reference, deallocating if it was the last.
        match &*destination {
            Some(dest) => {
                let d = dest.unchecked_copy();
                self.dec_ref_and_maybe_dealloc(host_data_table, &d);
            },
            None => (),
        }
        // Only now overwrite the slot.
        *destination = match source {
            Some(s) => Some(s.unchecked_copy()),
            None => None,
        };
    }
}

/// The object map after the write barrier's retain step: the source's
/// count is up by one if it is a heap reference, and nothing else moved.
pub open spec fn write_barrier_mid(h: DrcHeap, source: Option<&VMGcRef>) -> Map<u32, HeapObject> {
    match source {
        Some(s) => if s.is_i31_spec() {
            h.objects@
        } else {
            with_rc(h.objects@, s.index_spec(), (h.rc(s.index_spec()) + 1) as u64)
        },
        None => h.objects@,
    }
}

/// Whether overwriting this destination value releases nothing: an empty
/// slot or an inline integer.
pub open spec fn dest_is_quiet(dest: Option<VMGcRef>) -> bool {
    match dest {
        Some(d) => d.is_i31_spec(),
        None => true,
    }
}

/// The heap index of the reference in `dest`.
pub open spec fn opt_ref_index(dest: Option<VMGcRef>) -> u32
    recommends
        dest is Some,
{
    dest->Some_0.index_spec()
}


/// One if the spill set of `h` holds `i`, else zero.
pub open spec fn over_one(h: DrcHeap, i: u32) -> nat {
    if h.activations_table.over_approximated_stack_roots.contains_spec(i) {
        1nat
    } else {
        0nat
    }
}

/// How often `i` occurs among the filled bump-chunk slots of `h`.
pub open spec fn chunk_count(h: DrcHeap, i: u32) -> nat {
    count_in(
        h.activations_table.alloc.chunk@.take(h.activations_table.alloc.next as int),
        i,
    )
}

/// Whether every live object of `h` holds strictly more counts than the
/// activations table is about to give back: under this hypothesis a sweep
/// deallocates nothing.
pub open spec fn no_death_sweep(h: DrcHeap) -> bool {
    forall|i: u32|
        #[trigger] h.objects@.contains_key(i) ==> h.rc(i) > chunk_count(h, i) + over_one(h, i)
}

/// Whether `raw` is the encoding of a live, non-inline reference that the
/// stack walker reported inside a mutator frame.
pub open spec fn is_traced_root(roots: Seq<GcRoot>, h: DrcHeap, raw: u32) -> bool {
    exists|k: int|
        0 <= k < roots.len() && (#[trigger] roots[k]).on_wasm_stack
            && !roots[k].gc_ref.is_i31_spec() && roots[k].gc_ref.raw_spec() == raw
            && h.objects@.contains_key(raw)
}

/// One if `i` is a traced root, else zero.
pub open spec fn traced_inc(roots: Seq<GcRoot>, h: DrcHeap, i: u32) -> nat {
    if is_traced_root(roots, h, i) {
        1nat
    } else {
        0nat
    }
}

/// How a trace step relates the heap before (`h0`) and after (`h1`):
/// everything is unchanged except that the scratch precise set now holds
/// exactly the traced roots, each of which gained one reference count.
pub open spec fn trace_rel(h0: DrcHeap, h1: DrcHeap, roots: Seq<GcRoot>) -> bool {
    &&& h1 == (DrcHeap { objects: h1.objects, activations_table: h1.activations_table, ..h0 })
    &&& h1.activations_table.alloc == h0.activations_table.alloc
    &&& h1.activations_table.over_approximated_stack_roots
        == h0.activations_table.over_approximated_stack_roots
    &&& h1.objects@.dom() == h0.objects@.dom()
    &&& (forall|i: u32|
        #[trigger] h0.objects@.contains_key(i) ==> h1.objects@[i] == obj_with_rc(
            h0.objects@[i],
            (h0.rc(i) + traced_inc(roots, h0, i)) as u64,
        ))
    &&& (forall|raw: u32|
        #[trigger] h1.activations_table.precise_stack_roots.contains_spec(raw)
            ==> is_traced_root(roots, h0, raw))
    &&& (forall|raw: u32|
        #[trigger] is_traced_root(roots, h0, raw)
            ==> h1.activations_table.precise_stack_roots.contains_spec(raw))
}

/// How a sweep relates the heap and host-data table before and after.
///
/// Unconditionally: the bump chunk is zeroed and reset (growing when it
/// was at capacity), the old scratch precise set becomes the new
/// over-approximation, the scratch set ends empty, and no object appears
/// out of nowhere. When no count was due to reach zero, the effect on the
/// counts is exact: each object lost one count per bump-chunk entry and
/// one more if it sat in the old spill set, and nothing was deallocated.
pub open spec fn sweep_rel(
    h0: DrcHeap,
    h1: DrcHeap,
    hd0: ExternRefHostDataTable,
    hd1: ExternRefHostDataTable,
) -> bool {
    &&& h1 == (DrcHeap {
        objects: h1.objects,
        free_list: h1.free_list,
        activations_table: h1.activations_table,
        ..h0
    })
    &&& h1.fl_capacity() == h0.fl_capacity()
    &&& (h1.free_list is Some <==> h0.free_list is Some)
    &&& (forall|j: u32|
        #[trigger] h1.objects@.contains_key(j) ==> h0.objects@.contains_key(j))
    &&& h1.activations_table.precise_stack_roots.seq().len() == 0
    &&& h1.activations_table.over_approximated_stack_roots
        == h0.activations_table.precise_stack_roots
    &&& h1.activations_table.alloc.next == 0
    &&& h1.activations_table.alloc.end == h1.activations_table.alloc.chunk@.len()
    &&& (forall|j: int|
        0 <= j < h1.activations_table.alloc.chunk@.len()
            ==> h1.activations_table.alloc.chunk@[j] == 0)
    &&& h1.activations_table.alloc.chunk@.len() == (
    if h0.activations_table.alloc.next == h0.activations_table.alloc.chunk@.len() {
        crate::table::grown_capacity(h0.activations_table.alloc.chunk@.len() as int)
    } else {
        h0.activations_table.alloc.chunk@.len() as int
    })
    &&& ({
        let stage1 = run_release_seq(
            h0.objects@,
            h0.trace_infos@,
            hd0.dealloc_log@,
            h0.activations_table.alloc.chunk@.take(h0.activations_table.alloc.next as int),
        );
        let stage2 = run_release_seq(
            stage1.0,
            h0.trace_infos@,
            stage1.1,
            h0.activations_table.over_approximated_stack_roots.seq().reverse(),
        );
        h1.objects@ == stage2.0 && hd1.dealloc_log@ == stage2.1
    })
    &&& (no_death_sweep(h0) ==> {
        &&& h1.objects@.dom() == h0.objects@.dom()
        &&& hd1 == hd0
        &&& h1.free_list == h0.free_list
        &&& (forall|i: u32|
            #[trigger] h0.objects@.contains_key(i) ==> h1.objects@[i] == obj_with_rc(
                h0.objects@[i],
                (h0.rc(i) - chunk_count(h0, i) - over_one(h0, i)) as u64,
            ))
    })
}

/// Extending the scanned prefix by one root adds exactly that root's
/// contribution.
proof fn lemma_is_traced_step(roots: Seq<GcRoot>, h: DrcHeap, k: int)
    requires
        0 <= k < roots.len(),
    ensures
        forall|raw: u32|
            #[trigger] is_traced_root(roots.take(k + 1), h, raw) <==> (is_traced_root(
                roots.take(k),
                h,
                raw,
            ) || (roots[k].on_wasm_stack && !roots[k].gc_ref.is_i31_spec()
                && roots[k].gc_ref.raw_spec() == raw && h.objects@.contains_key(raw))),
{
    assert forall|raw: u32| #[trigger] is_traced_root(roots.take(k + 1), h, raw) implies (
    is_traced_root(roots.take(k), h, raw) || (roots[k].on_wasm_stack
        && !roots[k].gc_ref.is_i31_spec() && roots[k].gc_ref.raw_spec() == raw
        && h.objects@.contains_key(raw))) by {
        let kk = choose|kk: int|
            0 <= kk < roots.take(k + 1).len() && (#[trigger] roots.take(k + 1)[kk]).on_wasm_stack
                && !roots.take(k + 1)[kk].gc_ref.is_i31_spec() && roots.take(k + 1)[
                kk].gc_ref.raw_spec() == raw && h.objects@.contains_key(raw);
        if kk < k {
            assert(roots.take(k)[kk] == roots[kk]);
            assert(is_traced_root(roots.take(k), h, raw));
        }
    }
    assert forall|raw: u32|
        (is_traced_root(roots.take(k), h, raw) || (roots[k].on_wasm_stack
            && !roots[k].gc_ref.is_i31_spec() && roots[k].gc_ref.raw_spec() == raw
            && h.objects@.contains_key(raw))) implies #[trigger] is_traced_root(
        roots.take(k + 1),
        h,
        raw,
    ) by {
        if is_traced_root(roots.take(k), h, raw) {
            let kk = choose|kk: int|
                0 <= kk < roots.take(k).len() && (#[trigger] roots.take(k)[kk]).on_wasm_stack
                    && !roots.take(k)[kk].gc_ref.is_i31_spec() && roots.take(k)[
                    kk].gc_ref.raw_spec() == raw && h.objects@.contains_key(raw);
            assert(roots.take(k + 1)[kk] == roots[kk]);
        } else {
            assert(roots.take(k + 1)[k] == roots[k]);
        }
    }
}

/// One more scanned slot adds exactly that slot's occurrence to the count.
proof fn lemma_count_in_take_step(s: Seq<u32>, j: int, x: u32)
    requires
        0 <= j < s.len(),
    ensures
        count_in(s.take(j + 1), x) == count_in(s.take(j), x) + (if s[j] == x {
            1nat
        } else {
            0nat
        }),
{
    assert(s.take(j + 1).drop_last() =~= s.take(j));
    assert(s.take(j + 1).last() == s[j]);
}

/// Counts over prefixes grow with the prefix; a slot holding `x` past the
/// shorter prefix makes the growth strict.
proof fn lemma_count_in_take_le(s: Seq<u32>, j: int, m: int, x: u32)
    requires
        0 <= j <= m <= s.len(),
    ensures
        count_in(s.take(j), x) <= count_in(s.take(m), x),
        j < m && s[j] == x ==> count_in(s.take(j), x) + 1 <= count_in(s.take(m), x),
    decreases m - j,
{
    if j < m {
        lemma_count_in_take_step(s, j, x);
        lemma_count_in_take_le(s, j + 1, m, x);
    }
}

impl DrcHeap {
    /// The trace phase: adopt every live reference the stack walker found
    /// in a mutator frame into the scratch precise set, incrementing its
    /// count once.
    fn trace(&mut self, roots: &Vec<GcRoot>)
        requires
            old(self).wf(),
            old(self).activations_table.precise_stack_roots.seq().len() == 0,
            forall|k: int| 0 <= k < roots@.len() ==> (#[trigger] roots@[k]).gc_ref.wf(),
            forall|k: int|
                0 <= k < roots@.len() && (#[trigger] roots@[k]).on_wasm_stack
                    && !roots@[k].gc_ref.is_i31_spec() && old(self).objects@.contains_key(
                    roots@[k].gc_ref.index_spec(),
                ) ==> old(self).rc(roots@[k].gc_ref.index_spec()) < u64::MAX,
        ensures
            final(self).wf(),
            trace_rel(*old(self), *final(self), roots@),
    {
        let n = roots.len();
        let mut k: usize = 0;
        while k < n
            invariant
                n == roots@.len(),
                k <= n,
                self.wf(),
                *self == (DrcHeap {
                    objects: self.objects,
                    activations_table: self.activations_table,
                    ..*old(self)
                }),
                self.activations_table.alloc == old(self).activations_table.alloc,
                self.activations_table.over_approximated_stack_roots == old(self).activations_table.over_approximated_stack_roots,
                self.objects@.dom() == old(self).objects@.dom(),
                forall|i: u32|
                    #[trigger] old(self).objects@.contains_key(i) ==> self.objects@[i]
                        == obj_with_rc(
                        old(self).objects@[i],
                        (old(self).rc(i) + traced_inc(roots@.take(k as int), *old(self), i)) as u64,
                    ),
                forall|raw: u32|
                    #[trigger] self.activations_table.precise_stack_roots.contains_spec(raw)
                        ==> is_traced_root(roots@.take(k as int), *old(self), raw),
                forall|raw: u32|
                    #[trigger] is_traced_root(roots@.take(k as int), *old(self), raw)
                        ==> self.activations_table.precise_stack_roots.contains_spec(raw),
                forall|kk: int| 0 <= kk < roots@.len() ==> (#[trigger] roots@[kk]).gc_ref.wf(),
                forall|kk: int|
                    0 <= kk < roots@.len() && (#[trigger] roots@[kk]).on_wasm_stack
                        && !roots@[kk].gc_ref.is_i31_spec() && old(self).objects@.contains_key(
                        roots@[kk].gc_ref.index_spec(),
                    ) ==> old(self).rc(roots@[kk].gc_ref.index_spec()) < u64::MAX,
            decreases n - k,
        {
            let root = &roots[k];
            let ghost pre = *self;
            proof {
                lemma_is_traced_step(roots@, *old(self), k as int);
            }
            if root.on_wasm_stack {
                let gc_ref = &root.gc_ref;
                if !gc_ref.is_i31() {
                    let i = drc_ref(gc_ref);
                    if self.objects.contains_key(&i) {
                        let is_new = self.activations_table.precise_stack_roots.insert(
                            gc_ref.as_raw_u32(),
                        );
                        if is_new {
                            proof {
                                assert(!is_traced_root(roots@.take(k as int), *old(self), i));
                                assert(old(self).objects@.contains_key(i));
                                assert(self.objects@[i] == obj_with_rc(
                                    old(self).objects@[i],
                                    (old(self).rc(i) + 0) as u64,
                                ));
                            }
                            self.inc_ref(gc_ref);
                        }
                    }
                }
            }
            proof {
                let rk = roots@[k as int];
                let processed = rk.on_wasm_stack && !rk.gc_ref.is_i31_spec() && old(
                    self,
                ).objects@.contains_key(rk.gc_ref.raw_spec());
                assert forall|raw: u32|
                    #[trigger] self.activations_table.precise_stack_roots.contains_spec(
                        raw,
                    ) implies is_traced_root(roots@.take(k + 1), *old(self), raw) by {
                    if pre.activations_table.precise_stack_roots.contains_spec(raw) {
                        assert(is_traced_root(roots@.take(k as int), *old(self), raw));
                    } else {
                        // Newly inserted this iteration, so it is exactly
                        // the root scanned now.
                        let s1 = self.activations_table.precise_stack_roots.seq();
                        let s0 = pre.activations_table.precise_stack_roots.seq();
                        let kk = choose|kk: int| 0 <= kk < s1.len() && s1[kk] == raw;
                        assert(kk == s1.len() - 1);
                        assert(raw == rk.gc_ref.raw_spec());
                        assert(processed);
                    }
                }
                assert forall|raw: u32|
                    #[trigger] is_traced_root(roots@.take(k + 1), *old(self), raw) implies
                    self.activations_table.precise_stack_roots.contains_spec(raw) by {
                    if is_traced_root(roots@.take(k as int), *old(self), raw) {
                        assert(pre.activations_table.precise_stack_roots.contains_spec(raw));
                        let s0 = pre.activations_table.precise_stack_roots.seq();
                        let s1 = self.activations_table.precise_stack_roots.seq();
                        let kk = choose|kk: int| 0 <= kk < s0.len() && s0[kk] == raw;
                        assert(s1[kk] == raw);
                    } else {
                        assert(processed && raw == rk.gc_ref.raw_spec());
                        assert(self.activations_table.precise_stack_roots.contains_spec(raw));
                    }
                }
                assert forall|i: u32| #[trigger] old(self).objects@.contains_key(
                    i,
                ) implies self.objects@[i] == obj_with_rc(
                    old(self).objects@[i],
                    (old(self).rc(i) + traced_inc(roots@.take(k + 1), *old(self), i)) as u64,
                ) by {
                    if processed && i == rk.gc_ref.raw_spec() {
                        assert(is_traced_root(roots@.take(k + 1), *old(self), i));
                    } else {
                        assert(is_traced_root(roots@.take(k + 1), *old(self), i)
                            == is_traced_root(roots@.take(k as int), *old(self), i));
                        assert(self.objects@[i] == pre.objects@[i]);
                    }
                }
            }
            k += 1;
        }
        proof {
            assert(roots@.take(n as int) =~= roots@);
        }
    }

    /// Sweep the bump chunk: give back one count per filled slot, zero
    /// every slot, grow the chunk when it had been at capacity, and reset
    /// the bump fingers.
    fn sweep_bump_chunk(&mut self, host_data_table: &mut ExternRefHostDataTable)
        requires
            old(self).wf(),
        ensures
            final(self).wf(),
            *final(self) == (DrcHeap {
                objects: final(self).objects,
                free_list: final(self).free_list,
                activations_table: final(self).activations_table,
                ..*old(self)
            }),
            final(self).fl_capacity() == old(self).fl_capacity(),
            final(self).free_list is Some <==> old(self).free_list is Some,
            forall|j: u32|
                #[trigger] final(self).objects@.contains_key(j) ==> old(self).objects@.contains_key(j),
            final(self).activations_table.over_approximated_stack_roots == old(self).activations_table.over_approximated_stack_roots,
            final(self).activations_table.precise_stack_roots == old(self).activations_table.precise_stack_roots,
            final(self).activations_table.alloc.next == 0,
            final(self).activations_table.alloc.end == final(self).activations_table.alloc.chunk@.len(),
            forall|j: int|
                0 <= j < final(self).activations_table.alloc.chunk@.len() ==> final(self).activations_table.alloc.chunk@[j] == 0,
            final(self).activations_table.alloc.chunk@.len() == (
            if old(self).activations_table.alloc.next == old(self).activations_table.alloc.chunk@.len() {
                crate::table::grown_capacity(
                    old(self).activations_table.alloc.chunk@.len() as int,
                )
            } else {
                old(self).activations_table.alloc.chunk@.len() as int
            }),
            (forall|i: u32|
                #[trigger] old(self).objects@.contains_key(i) ==> old(self).rc(i) > chunk_count(
                    *old(self),
                    i,
                )) ==> {
                &&& final(self).objects@.dom() == old(self).objects@.dom()
                &&& *final(host_data_table) == *old(host_data_table)
                &&& final(self).free_list == old(self).free_list
                &&& (forall|i: u32|
                    #[trigger] old(self).objects@.contains_key(i) ==> final(self).objects@[i]
                        == obj_with_rc(
                        old(self).objects@[i],
                        (old(self).rc(i) - chunk_count(*old(self), i)) as u64,
                    ))
            },
            ({
                let st = run_release_seq(
                    old(self).objects@,
                    old(self).trace_infos@,
                    old(host_data_table).dealloc_log@,
                    old(self).activations_table.alloc.chunk@.take(
                        old(self).activations_table.alloc.next as int,
                    ),
                );
                final(self).objects@ == st.0 && final(host_data_table).dealloc_log@ == st.1
            }),
    {
        let ghost tr0 = old(self).trace_infos@;
        let ghost log0 = old(host_data_table).dealloc_log@;
        let filled = self.activations_table.alloc.len();
        let was_full = filled == self.activations_table.alloc.capacity();
        let ghost nd: bool = forall|i: u32|
            #[trigger] old(self).objects@.contains_key(i) ==> old(self).rc(i) > chunk_count(
                *old(self),
                i,
            );
        let ghost chunk0 = old(self).activations_table.alloc.chunk@;
        proof {
            assert(chunk0.take(0) =~= Seq::<u32>::empty());
        }
        let mut j: usize = 0;
        while j < filled
            invariant
                filled == old(self).activations_table.alloc.next,
                filled <= chunk0.len(),
                j <= filled,
                self.wf(),
                *self == (DrcHeap {
                    objects: self.objects,
                    free_list: self.free_list,
                    activations_table: self.activations_table,
                    ..*old(self)
                }),
                self.trace_infos@ == tr0,
                self.activations_table.over_approximated_stack_roots == old(self).activations_table.over_approximated_stack_roots,
                self.activations_table.precise_stack_roots == old(self).activations_table.precise_stack_roots,
                self.activations_table.alloc.next == old(self).activations_table.alloc.next,
                self.activations_table.alloc.end == old(self).activations_table.alloc.end,
                self.activations_table.alloc.chunk@.len() == chunk0.len(),
                chunk0 == old(self).activations_table.alloc.chunk@,
                forall|m: int| 0 <= m < j ==> self.activations_table.alloc.chunk@[m] == 0,
                forall|m: int|
                    j <= m < chunk0.len() ==> self.activations_table.alloc.chunk@[m] == chunk0[m],
                self.fl_capacity() == old(self).fl_capacity(),
                self.free_list is Some <==> old(self).free_list is Some,
                forall|jj: u32|
                    #[trigger] self.objects@.contains_key(jj) ==> old(self).objects@.contains_key(
                        jj,
                    ),
                nd == (forall|i: u32|
                    #[trigger] old(self).objects@.contains_key(i) ==> old(self).rc(i)
                        > chunk_count(*old(self), i)),
                nd ==> {
                    &&& self.objects@.dom() == old(self).objects@.dom()
                    &&& *host_data_table == *old(host_data_table)
                    &&& self.free_list == old(self).free_list
                    &&& (forall|i: u32|
                        #[trigger] old(self).objects@.contains_key(i) ==> self.objects@[i]
                            == obj_with_rc(
                            old(self).objects@[i],
                            (old(self).rc(i) - count_in(chunk0.take(j as int), i)) as u64,
                        ))
                },
                ({
                    let st = run_release_seq(
                        old(self).objects@,
                        tr0,
                        log0,
                        chunk0.take(j as int),
                    );
                    self.objects@ == st.0 && host_data_table.dealloc_log@ == st.1
                }),
            decreases filled - j,
        {
            let raw = self.activations_table.alloc.chunk[j];
            self.activations_table.alloc.chunk.set(j, 0);
            let ghost pre = *self;
            let ghost pre_host = *host_data_table;
            match VMGcRef::from_raw_u32(raw) {
                None => (),
                Some(g) => {
                    self.dec_ref_and_maybe_dealloc(host_data_table, &g);
                    proof {
                        assert(pre.trace_infos@ == tr0);
                        assert(seq![g.raw_spec()] =~= seq![raw]);
                        assert(self.objects@ == run_cascade(
                            pre.objects@,
                            tr0,
                            pre_host.dealloc_log@,
                            seq![raw],
                        ).0);
                        assert(host_data_table.dealloc_log@ == run_cascade(
                            pre.objects@,
                            tr0,
                            pre_host.dealloc_log@,
                            seq![raw],
                        ).1);
                    }
                },
            }
            proof {
                assert(chunk0.take(j + 1).drop_last() =~= chunk0.take(j as int));
                assert(chunk0.take(j + 1).last() == raw);
                assert(run_release_seq(old(self).objects@, tr0, log0, chunk0.take(j as int)) == (
                    pre.objects@,
                    pre_host.dealloc_log@,
                ));
                assert(seq![chunk0.take(j + 1).last()] =~= seq![raw]);
                assert(run_release_seq(old(self).objects@, tr0, log0, chunk0.take(j + 1))
                    == run_cascade(pre.objects@, tr0, pre_host.dealloc_log@, seq![raw]));
                if raw == 0 {
                    assert(seq![raw].drop_last() =~= Seq::<u32>::empty());
                    if pre.objects@.contains_key(0u32) {
                        assert(obj_wf_at(
                            pre.objects@[0u32],
                            0u32,
                            pre.free_list,
                            pre.trace_infos@,
                        ));
                    }
                    assert(run_cascade(pre.objects@, tr0, pre_host.dealloc_log@, Seq::<
                        u32,
                    >::empty()) == (pre.objects@, pre_host.dealloc_log@));
                    assert(run_cascade(pre.objects@, tr0, pre_host.dealloc_log@, seq![raw]) == (
                        pre.objects@,
                        pre_host.dealloc_log@,
                    ));
                }
                assert(({
                    let st = run_release_seq(old(self).objects@, tr0, log0, chunk0.take(j + 1));
                    self.objects@ == st.0 && host_data_table.dealloc_log@ == st.1
                }));
                lemma_count_in_take_step(chunk0, j as int, raw);
                if nd {
                    if raw != 0 && raw % 2 == 0 && pre.objects@.contains_key(raw) {
                        // A live slot entry: its count was strictly above
                        // the occurrences still to be processed.
                        assert(count_in(chunk0.take(j as int), raw) + 1 <= count_in(
                            chunk0.take(filled as int),
                            raw,
                        )) by {
                            lemma_count_in_take_le(chunk0, j as int, filled as int, raw);
                        }
                        assert(old(self).objects@.contains_key(raw));
                        assert(pre.objects@[raw].header.ref_count >= 2);
                        assert(self.objects@ == with_rc(
                            pre.objects@,
                            raw,
                            (pre.objects@[raw].header.ref_count - 1) as u64,
                        ));
                        assert(self.objects@.dom() =~= old(self).objects@.dom());
                    }
                    assert(self.objects@.dom() == old(self).objects@.dom());
                    assert(*host_data_table == *old(host_data_table));
                    assert(self.free_list == old(self).free_list);
                    assert forall|i: u32| #[trigger] old(self).objects@.contains_key(
                        i,
                    ) implies self.objects@[i] == obj_with_rc(
                        old(self).objects@[i],
                        (old(self).rc(i) - count_in(chunk0.take(j + 1), i)) as u64,
                    ) by {
                        lemma_count_in_take_step(chunk0, j as int, i);
                        assert(count_in(chunk0.take(j + 1), i) <= count_in(
                            chunk0.take(filled as int),
                            i,
                        )) by {
                            lemma_count_in_take_le(chunk0, j + 1, filled as int, i);
                        }
                        if i == raw {
                        } else {
                            assert(self.objects@[i] == pre.objects@[i]);
                        }
                    }
                }
                assert forall|m: int|
                    j + 1 <= m < chunk0.len() implies self.activations_table.alloc.chunk@[m]
                    == chunk0[m] by {}
            }
            j += 1;
        }
        if was_full {
            self.activations_table.alloc.grow_bump_chunk();
        }
        self.activations_table.alloc.reset();
        proof {
            assert(chunk0.take(filled as int) =~= chunk0.take(
                old(self).activations_table.alloc.next as int,
            ));
            assert forall|i: u32| self.objects@.contains_key(i) implies obj_wf_at(
                self.objects@[i],
                i,
                self.free_list,
                self.trace_infos@,
            ) by {
                assert(self.object_entry_wf(i));
            }
        }
    }

    /// The sweep phase: sweep the bump chunk, promote the precise set to
    /// be the new over-approximation, and give back one count for each
    /// entry of the old over-approximation. The complete effect on the
    /// objects and the drop log is the [`run_release_seq`] of the filled
    /// bump slots followed by the old spill set.
    fn sweep(&mut self, host_data_table: &mut ExternRefHostDataTable)
        requires
            old(self).wf(),
        ensures
            final(self).wf(),
            sweep_rel(*old(self), *final(self), *old(host_data_table), *final(host_data_table)),
    {
        self.sweep_bump_chunk(host_data_table);
        core::mem::swap(
            &mut self.activations_table.precise_stack_roots,
            &mut self.activations_table.over_approximated_stack_roots,
        );
        let ghost mid = *self;
        let ghost mid_host = *host_data_table;
        let ghost tr0 = old(self).trace_infos@;
        let ghost drained0 = mid.activations_table.precise_stack_roots.seq();
        let ghost ndall: bool = no_death_sweep(*old(self));
        proof {
            assert(drained0 == old(self).activations_table.over_approximated_stack_roots.seq());
            assert(drained0.take(drained0.len() as int) =~= drained0);
            assert(drained0.reverse().take(0) =~= Seq::<u32>::empty());
            assert(mid.trace_infos@ == tr0);
            if ndall {
                assert forall|i: u32| #[trigger] old(self).objects@.contains_key(i) implies old(self).rc(i) > chunk_count(*old(self), i) by {}
            }
        }
        while self.activations_table.precise_stack_roots.len() > 0
            invariant
                self.wf(),
                *self == (DrcHeap {
                    objects: self.objects,
                    free_list: self.free_list,
                    activations_table: self.activations_table,
                    ..mid
                }),
                self.activations_table.alloc == mid.activations_table.alloc,
                self.activations_table.over_approximated_stack_roots == mid.activations_table.over_approximated_stack_roots,
                self.activations_table.precise_stack_roots.seq().len() <= drained0.len(),
                self.activations_table.precise_stack_roots.seq() == drained0.take(
                    self.activations_table.precise_stack_roots.seq().len() as int,
                ),
                self.fl_capacity() == mid.fl_capacity(),
                self.free_list is Some <==> mid.free_list is Some,
                self.trace_infos@ == tr0,
                forall|jj: u32|
                    #[trigger] self.objects@.contains_key(jj) ==> mid.objects@.contains_key(jj),
                ({
                    let st = run_release_seq(
                        mid.objects@,
                        tr0,
                        mid_host.dealloc_log@,
                        drained0.reverse().take(
                            drained0.len()
                                - self.activations_table.precise_stack_roots.seq().len(),
                        ),
                    );
                    self.objects@ == st.0 && host_data_table.dealloc_log@ == st.1
                }),
                ndall == no_death_sweep(*old(self)),
                drained0 == old(self).activations_table.over_approximated_stack_roots.seq(),
                forall|k: int, k2: int|
                    0 <= k < drained0.len() && 0 <= k2 < drained0.len() && k != k2
                        ==> #[trigger] drained0[k] != #[trigger] drained0[k2],
                ndall ==> {
                    &&& self.objects@.dom() == old(self).objects@.dom()
                    &&& mid.objects@.dom() == old(self).objects@.dom()
                    &&& *host_data_table == *old(host_data_table)
                    &&& self.free_list == old(self).free_list
                    &&& (forall|i: u32|
                        #[trigger] old(self).objects@.contains_key(i) ==> self.objects@[i]
                            == obj_with_rc(
                            old(self).objects@[i],
                            (old(self).rc(i) - chunk_count(*old(self), i) - (
                            if drained0.contains(i)
                                && !self.activations_table.precise_stack_roots.contains_spec(i) {
                                1nat
                            } else {
                                0nat
                            })) as u64,
                        ))
                },
            decreases self.activations_table.precise_stack_roots.seq().len(),
        {
            let ghost m = self.activations_table.precise_stack_roots.seq().len() as int;
            let raw = self.activations_table.precise_stack_roots.pop().unwrap();
            let g = VMGcRef::from_raw_u32(raw).unwrap();
            let ghost pre = *self;
            let ghost pre_host = *host_data_table;
            self.dec_ref_and_maybe_dealloc(host_data_table, &g);
            proof {
                assert(self.activations_table.precise_stack_roots.seq() =~= drained0.take(m - 1));
                assert(raw == drained0[m - 1]);
                let k = drained0.len() - m;
                assert(drained0.reverse().take(k + 1).drop_last() =~= drained0.reverse().take(k));
                assert(drained0.reverse().take(k + 1).last() == drained0.reverse()[k]);
                assert(drained0.reverse()[k] == drained0[m - 1]);
                assert(pre.trace_infos@ == tr0);
                assert(run_release_seq(
                    mid.objects@,
                    tr0,
                    mid_host.dealloc_log@,
                    drained0.reverse().take(k),
                ) == (pre.objects@, pre_host.dealloc_log@));
                assert(seq![drained0.reverse().take(k + 1).last()] =~= seq![raw]);
                assert(seq![g.raw_spec()] =~= seq![raw]);
                assert(run_release_seq(
                    mid.objects@,
                    tr0,
                    mid_host.dealloc_log@,
                    drained0.reverse().take(k + 1),
                ) == run_cascade(pre.objects@, tr0, pre_host.dealloc_log@, seq![raw]));
                assert(self.objects@ == run_cascade(
                    pre.objects@,
                    tr0,
                    pre_host.dealloc_log@,
                    seq![raw],
                ).0);
                assert(host_data_table.dealloc_log@ == run_cascade(
                    pre.objects@,
                    tr0,
                    pre_host.dealloc_log@,
                    seq![raw],
                ).1);
                if ndall {
                    assert forall|i: u32| #[trigger] old(self).objects@.contains_key(
                        i,
                    ) implies self.objects@[i] == obj_with_rc(
                        old(self).objects@[i],
                        (old(self).rc(i) - chunk_count(*old(self), i) - (if drained0.contains(i)
                            && !self.activations_table.precise_stack_roots.contains_spec(i) {
                            1nat
                        } else {
                            0nat
                        })) as u64,
                    ) by {
                        if i == raw {
                            // This entry had not been drained yet: it sits
                            // at the popped position and nowhere earlier.
                            assert(drained0.take(m)[m - 1] == raw);
                            assert(drained0.take(m).contains(raw));
                            assert(!drained0.take(m - 1).contains(raw)) by {
                                if drained0.take(m - 1).contains(raw) {
                                    let kk = choose|kk: int|
                                        0 <= kk < m - 1 && #[trigger] drained0.take(m - 1)[kk]
                                            == raw;
                                    assert(drained0[kk] == drained0[m - 1]);
                                }
                            }
                            assert(drained0.contains(raw)) by {
                                assert(drained0[m - 1] == raw);
                            }
                            assert(over_one(*old(self), raw) == 1) by {
                                assert(old(self).activations_table.over_approximated_stack_roots.seq().contains(
                                    raw,
                                ));
                            }
                            if pre.objects@.contains_key(raw) {
                                assert(pre.objects@[raw].header.ref_count >= 2);
                            }
                        } else {
                            assert(drained0.take(m - 1).contains(i) == drained0.take(m).contains(
                                i,
                            )) by {
                                if drained0.take(m).contains(i) {
                                    let kk = choose|kk: int|
                                        0 <= kk < m && #[trigger] drained0.take(m)[kk] == i;
                                    assert(kk != m - 1);
                                    assert(drained0.take(m - 1)[kk] == i);
                                }
                                if drained0.take(m - 1).contains(i) {
                                    let kk = choose|kk: int|
                                        0 <= kk < m - 1 && #[trigger] drained0.take(m - 1)[kk]
                                            == i;
                                    assert(drained0.take(m)[kk] == i);
                                }
                            }
                        }
                    }
                }
            }
        }
        proof {
            assert(drained0.reverse().take(drained0.len() as int) =~= drained0.reverse());
            assert(({
                let stage1 = run_release_seq(
                    old(self).objects@,
                    tr0,
                    old(host_data_table).dealloc_log@,
                    old(self).activations_table.alloc.chunk@.take(
                        old(self).activations_table.alloc.next as int,
                    ),
                );
                stage1.0 == mid.objects@ && stage1.1 == mid_host.dealloc_log@
            }));
            if ndall {
                assert forall|i: u32| #[trigger] old(self).objects@.contains_key(
                    i,
                ) implies final(self).objects@[i] == obj_with_rc(
                    old(self).objects@[i],
                    (old(self).rc(i) - chunk_count(*old(self), i) - over_one(*old(self), i)) as u64,
                ) by {
                    assert(self.activations_table.precise_stack_roots.seq().len() == 0);
                    assert(over_one(*old(self), i) == (if drained0.contains(i) {
                        1nat
                    } else {
                        0nat
                    }));
                    assert(!self.activations_table.precise_stack_roots.contains_spec(i));
                }
            }
        }
    }
}

/// How far a collection has progressed.
#[derive(Clone, Copy, PartialEq, Eq, Structural, Debug)]
pub enum GcProgress {
    /// More increments remain.
    Continue,
    /// The collection is finished.
    Complete,
}

/// The collection state machine's phase.
#[derive(Clone, Copy, PartialEq, Eq, Structural, Debug)]
pub enum DrcCollectionPhase {
    /// Roots are being traced.
    Trace,
    /// The activations table is being swept.
    Sweep,
    /// The collection is done.
    Done,
}

/// An in-progress collection, stepped by `collect_increment`.
#[derive(Clone, Copy, PartialEq, Eq, Structural, Debug)]
pub struct DrcCollection {
    /// The next phase to run.
    pub phase: DrcCollectionPhase,
}

impl DrcHeap {
    /// Begin a collection. Collections are forbidden inside a no-GC
    /// scope, so that input is excluded.
    pub fn gc(&mut self) -> (r: DrcCollection)
        requires
            old(self).no_gc_count == 0,
        ensures
            *final(self) == *old(self),
            r.phase is Trace,
    {
        DrcCollection { phase: DrcCollectionPhase::Trace }
    }
}

impl DrcCollection {
    /// Run one increment of the collection: first the trace phase over the
    /// stack walker's precise roots, then the sweep phase, after which the
    /// collection is complete. Callers must not mutate the heap between
    /// increments.
    pub fn collect_increment(
        &mut self,
        heap: &mut DrcHeap,
        roots: &Vec<GcRoot>,
        host_data_table: &mut ExternRefHostDataTable,
    ) -> (r: GcProgress)
        requires
            old(heap).wf(),
            old(self).phase is Trace ==> {
                &&& old(heap).activations_table.precise_stack_roots.seq().len() == 0
                &&& (forall|k: int| 0 <= k < roots@.len() ==> (#[trigger] roots@[k]).gc_ref.wf())
                &&& (forall|k: int|
                    0 <= k < roots@.len() && (#[trigger] roots@[k]).on_wasm_stack
                        && !roots@[k].gc_ref.is_i31_spec() && old(heap).objects@.contains_key(
                        roots@[k].gc_ref.index_spec(),
                    ) ==> old(heap).rc(roots@[k].gc_ref.index_spec()) < u64::MAX)
            },
        ensures
            final(heap).wf(),
            old(self).phase is Trace ==> {
                &&& trace_rel(*old(heap), *final(heap), roots@)
                &&& final(self).phase is Sweep
                &&& r is Continue
                &&& *final(host_data_table) == *old(host_data_table)
            },
            old(self).phase is Sweep ==> {
                &&& sweep_rel(
                    *old(heap),
                    *final(heap),
                    *old(host_data_table),
                    *final(host_data_table),
                )
                &&& final(self).phase is Done
                &&& r is Complete
            },
            old(self).phase is Done ==> *final(heap) == *old(heap) && *final(host_data_table)
                == *old(host_data_table) && final(self).phase is Done && r is Complete,
    {
        match self.phase {
            DrcCollectionPhase::Trace => {
                heap.trace(roots);
                self.phase = DrcCollectionPhase::Sweep;
                GcProgress::Continue
            },
            DrcCollectionPhase::Sweep => {
                heap.sweep(host_data_table);
                self.phase = DrcCollectionPhase::Done;
                GcProgress::Complete
            },
            DrcCollectionPhase::Done => GcProgress::Complete,
        }
    }
}

} // verus!
