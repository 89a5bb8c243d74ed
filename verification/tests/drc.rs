//! End-to-end behavior of the deferred reference-counting heap.

use drc_heap::free_list::FreeList;
use drc_heap::free_list::FreeListError;
use drc_heap::gc_ref::drc_ref;
use drc_heap::gc_ref::externref_to_drc;
use drc_heap::gc_ref::VMGcRef;
use drc_heap::header::VMDrcHeader;
use drc_heap::header::VMGcHeader;
use drc_heap::header::VMGcKind;
use drc_heap::heap::DrcCollector;
use drc_heap::heap::DrcHeap;
use drc_heap::heap::GcMemory;
use drc_heap::heap::GcProgress;
use drc_heap::heap::GcRoot;
use drc_heap::host_data::ExternRefHostDataTable;
use drc_heap::layout::GcFieldLayout;
use drc_heap::layout::GcLayout;
use drc_heap::layout::GcStructLayout;
use drc_heap::layout::GcArrayLayout;
use drc_heap::table::VMGcRefActivationsTable;

fn run_gc(h: &mut DrcHeap, roots: Vec<GcRoot>, host: &mut ExternRefHostDataTable) {
    let mut c = h.gc();
    loop {
        match c.collect_increment(h, &roots, host) {
            GcProgress::Continue => (),
            GcProgress::Complete => break,
        }
    }
}

fn one_ref_struct_layout() -> GcStructLayout {
    GcStructLayout {
        size: 32,
        align: 8,
        fields: vec![GcFieldLayout { offset: 24, is_gc_ref: true }],
    }
}

fn attached_heap(len: usize) -> DrcHeap {
    let mut h = DrcHeap::new();
    h.attach(GcMemory::new(len));
    h
}

#[test]
fn externref_allocate_and_drop() {
    // Room for exactly one externref, so a successful re-allocation
    // proves the block went back to the free list.
    let mut h = attached_heap(40);
    let mut host = ExternRefHostDataTable::new();
    let er = h.alloc_externref(7).unwrap().unwrap();
    assert_eq!(h.ref_count(er.as_gc_ref()), 1);
    assert_eq!(h.externref_host_data(&er), 7);
    let r = er.into_gc_ref();
    h.dec_ref_and_maybe_dealloc(&mut host, &r);
    assert_eq!(host.times_dropped(7), 1);
    assert_eq!(h.num_objects(), 0);
    // The allocation went back to the free list: the next allocation of
    // the same size reuses the same index.
    let again = h.alloc_externref(8).unwrap().unwrap();
    assert_eq!(externref_to_drc(&again), r.as_raw_u32());
}

#[test]
fn self_assignment_keeps_object() {
    let mut h = attached_heap(4096);
    let mut host = ExternRefHostDataTable::new();
    let er = h.alloc_externref(1).unwrap().unwrap();
    let mut slot = Some(er.into_gc_ref());
    let copy = slot.as_ref().unwrap().unchecked_copy();
    h.write_gc_ref(&mut host, &mut slot, Some(&copy));
    assert_eq!(h.ref_count(slot.as_ref().unwrap()), 1);
    assert_eq!(h.num_objects(), 1);
    assert_eq!(host.times_dropped(1), 0);
}

#[test]
fn cycle_is_not_collected() {
    let mut h = attached_heap(4096);
    let mut host = ExternRefHostDataTable::new();
    let layout = one_ref_struct_layout();
    let a = h.alloc_uninit_struct(1, &layout).unwrap().unwrap().into_gc_ref();
    let b = h.alloc_uninit_struct(1, &layout).unwrap().unwrap().into_gc_ref();
    // Each object's initial count is transferred into the other's field.
    h.write_u32(&a, 24, b.as_raw_u32());
    h.write_u32(&b, 24, a.as_raw_u32());
    run_gc(&mut h, vec![], &mut host);
    // Both survive: the cycle holds itself alive. A documented limitation
    // of a reference-counting collector without cycle collection.
    assert_eq!(h.num_objects(), 2);
    assert_eq!(h.ref_count(&a), 1);
    assert_eq!(h.ref_count(&b), 1);
}

#[test]
fn bump_overflow_spills_to_over_approx() {
    // A fresh heap has a zero-capacity bump chunk, so the first exposure
    // must take the spill path.
    let mut h = attached_heap(4096);
    let mut host = ExternRefHostDataTable::new();
    let er = h.alloc_externref(9).unwrap().unwrap();
    let raw = er.as_gc_ref().as_raw_u32();
    let r = er.into_gc_ref();
    assert_eq!(h.activations_table.bump_capacity_remaining(), 0);
    h.expose_gc_ref_to_wasm(r);
    assert!(h.activations_table.elements().contains(&raw));
    // A collection whose precise roots include the reference keeps it
    // alive.
    let root = GcRoot { gc_ref: VMGcRef::from_raw_u32(raw).unwrap(), on_wasm_stack: true };
    run_gc(&mut h, vec![root], &mut host);
    assert_eq!(h.num_objects(), 1);
    // Afterwards only the table holds it, so a collection without it
    // among the roots reclaims it.
    run_gc(&mut h, vec![], &mut host);
    assert_eq!(h.num_objects(), 0);
    assert_eq!(host.times_dropped(9), 1);
}

#[test]
fn deep_chain_cascade_frees_all() {
    let n: usize = 10_000;
    let mut h = attached_heap(8 + 32 * n);
    let mut host = ExternRefHostDataTable::new();
    let layout = one_ref_struct_layout();
    let mut refs: Vec<VMGcRef> = Vec::with_capacity(n);
    for _ in 0..n {
        refs.push(h.alloc_uninit_struct(2, &layout).unwrap().unwrap().into_gc_ref());
    }
    // Link the chain, transferring each object's initial count into its
    // predecessor's field.
    for i in 0..n - 1 {
        let next_raw = refs[i + 1].as_raw_u32();
        h.write_u32(&refs[i], 24, next_raw);
    }
    assert_eq!(h.num_objects(), n);
    // Dropping the head must free the whole chain without recursion.
    h.dec_ref_and_maybe_dealloc(&mut host, &refs[0]);
    assert_eq!(h.num_objects(), 0);
}

#[test]
fn gc_grows_bump_chunk_when_full() {
    let mut h = attached_heap(4096);
    let mut host = ExternRefHostDataTable::new();
    // The fresh chunk has capacity zero, which counts as full, so the
    // first collection grows it to the initial capacity.
    assert_eq!(h.activations_table.alloc.capacity(), 0);
    run_gc(&mut h, vec![], &mut host);
    assert_eq!(h.activations_table.alloc.capacity(), 1024);
    assert_eq!(h.activations_table.alloc.next, 0);
    assert_eq!(h.activations_table.alloc.end, 1024);
    assert!(h.activations_table.alloc.chunk.iter().all(|slot| *slot == 0));
    // Fill the chunk to capacity and collect again: it doubles.
    let er = h.alloc_externref(3).unwrap().unwrap();
    let r = er.into_gc_ref();
    for _ in 0..1024 {
        let c = h.clone_gc_ref(&r);
        h.expose_gc_ref_to_wasm(c);
    }
    assert_eq!(h.activations_table.bump_capacity_remaining(), 0);
    run_gc(&mut h, vec![], &mut host);
    assert_eq!(h.activations_table.alloc.capacity(), 2048);
    assert_eq!(h.activations_table.alloc.next, 0);
    assert_eq!(h.activations_table.alloc.end, 2048);
    assert!(h.activations_table.alloc.chunk.iter().all(|slot| *slot == 0));
    // The host still owns its one count.
    assert_eq!(h.ref_count(&r), 1);
}

#[test]
fn alloc_exact_capacity_succeeds_then_fails() {
    // 8 reserved bytes plus room for exactly one 32-byte externref.
    let mut h = attached_heap(40);
    let first = h.alloc_externref(1).unwrap();
    assert!(first.is_ok());
    // One more byte than remains: reported as the bytes needed, no panic.
    let second = h.alloc_externref(2).unwrap();
    assert_eq!(second.unwrap_err(), 32);
}

#[test]
fn free_list_exact_fit_boundary() {
    let mut fl = FreeList::new(108);
    // [8, 108) leaves exactly 100 free bytes.
    assert_eq!(fl.allocate(100, 8).unwrap(), Some(8));
    let mut fl2 = FreeList::new(108);
    assert_eq!(fl2.allocate(101, 8).unwrap(), None);
}

#[test]
fn unsupported_alignment_is_rejected() {
    let mut fl = FreeList::new(4096);
    assert_eq!(fl.allocate(32, 8192), Err(FreeListError::UnsupportedAlignment));
    assert_eq!(fl.allocate(32, 8).unwrap(), Some(8));
}

#[test]
fn try_insert_full_returns_err_without_mutation() {
    let mut t = VMGcRefActivationsTable::new();
    let r = VMGcRef::from_heap_index(8).unwrap();
    // next == end in a fresh table, so insertion fails and hands the
    // reference back.
    let back = t.try_insert(r).unwrap_err();
    assert_eq!(back.as_raw_u32(), 8);
    assert_eq!(t.bump_capacity_remaining(), 0);
    assert_eq!(t.alloc.len(), 0);
    // With chunk space, insertion succeeds.
    t.alloc.grow_bump_chunk();
    t.alloc.reset();
    assert!(t.try_insert(back).is_ok());
    assert_eq!(t.alloc.len(), 1);
}

#[test]
fn gc_with_zero_roots_collects_table_entries() {
    let mut h = attached_heap(4096);
    let mut host = ExternRefHostDataTable::new();
    let a = h.alloc_externref(1).unwrap().unwrap().into_gc_ref();
    let b = h.alloc_externref(2).unwrap().unwrap().into_gc_ref();
    h.expose_gc_ref_to_wasm(a);
    h.expose_gc_ref_to_wasm(b);
    run_gc(&mut h, vec![], &mut host);
    assert_eq!(h.num_objects(), 0);
    assert_eq!(host.times_dropped(1), 1);
    assert_eq!(host.times_dropped(2), 1);
}

#[test]
fn inc_then_dec_identity_on_live_ref() {
    let mut h = attached_heap(4096);
    let mut host = ExternRefHostDataTable::new();
    let r = h.alloc_externref(4).unwrap().unwrap().into_gc_ref();
    let extra = h.clone_gc_ref(&r);
    assert_eq!(h.ref_count(&r), 2);
    h.inc_ref(&r);
    h.dec_ref_and_maybe_dealloc(&mut host, &r);
    assert_eq!(h.ref_count(&r), 2);
    assert_eq!(h.num_objects(), 1);
    drop(extra);
}

#[test]
fn attach_detach_restores_fresh_state() {
    let mut h = DrcHeap::new();
    h.attach(GcMemory::new(1000));
    assert!(h.is_attached());
    let m = h.detach();
    assert_eq!(m.current_length(), 1000);
    assert!(!h.is_attached());
    assert_eq!(h.num_objects(), 0);
    assert_eq!(h.no_gc_count, 0);
    assert_eq!(h.activations_table.alloc.capacity(), 0);
    assert_eq!(h.activations_table.alloc.next, 0);
    assert_eq!(h.activations_table.over_approximated_stack_roots.len(), 0);
    assert_eq!(h.activations_table.precise_stack_roots.len(), 0);
}

#[test]
fn expose_then_gc_preserves_ref_count() {
    let mut h = attached_heap(4096);
    let mut host = ExternRefHostDataTable::new();
    let r = h.alloc_externref(5).unwrap().unwrap().into_gc_ref();
    let raw = r.as_raw_u32();
    let table_copy = h.clone_gc_ref(&r);
    h.expose_gc_ref_to_wasm(table_copy);
    assert_eq!(h.ref_count(&r), 2);
    let root = GcRoot { gc_ref: VMGcRef::from_raw_u32(raw).unwrap(), on_wasm_stack: true };
    run_gc(&mut h, vec![root], &mut host);
    // Net unchanged: the trace's increment balanced the sweep's decrement.
    assert_eq!(h.ref_count(&r), 2);
    assert_eq!(h.num_objects(), 1);
}

#[test]
fn sweep_zeroes_chunk_and_empties_precise() {
    let mut h = attached_heap(4096);
    let mut host = ExternRefHostDataTable::new();
    // Grow a chunk first, then fill a few slots.
    run_gc(&mut h, vec![], &mut host);
    let r = h.alloc_externref(6).unwrap().unwrap().into_gc_ref();
    for _ in 0..5 {
        let c = h.clone_gc_ref(&r);
        h.expose_gc_ref_to_wasm(c);
    }
    assert_eq!(h.activations_table.alloc.len(), 5);
    let raw = r.as_raw_u32();
    let root = GcRoot { gc_ref: VMGcRef::from_raw_u32(raw).unwrap(), on_wasm_stack: true };
    run_gc(&mut h, vec![root], &mut host);
    assert!(h.activations_table.alloc.chunk.iter().all(|slot| *slot == 0));
    assert_eq!(h.activations_table.precise_stack_roots.len(), 0);
    assert_eq!(h.activations_table.alloc.next, 0);
}

#[test]
fn bump_capacity_remaining_matches_unfilled_slots() {
    let mut h = attached_heap(4096);
    let mut host = ExternRefHostDataTable::new();
    run_gc(&mut h, vec![], &mut host);
    let r = h.alloc_externref(6).unwrap().unwrap().into_gc_ref();
    for _ in 0..3 {
        let c = h.clone_gc_ref(&r);
        h.expose_gc_ref_to_wasm(c);
    }
    let remaining = h.activations_table.bump_capacity_remaining();
    let capacity = h.activations_table.alloc.capacity();
    let filled = h.activations_table.alloc.len();
    assert_eq!(remaining / 4, capacity - filled);
    assert_eq!(remaining, 4 * (1024 - 3));
}

#[test]
fn live_objects_have_positive_count() {
    let mut h = attached_heap(4096);
    let a = h.alloc_externref(1).unwrap().unwrap().into_gc_ref();
    let layout = one_ref_struct_layout();
    let b = h.alloc_uninit_struct(1, &layout).unwrap().unwrap().into_gc_ref();
    assert!(h.ref_count(&a) >= 1);
    assert!(h.ref_count(&b) >= 1);
}

#[test]
fn write_read_u32_roundtrip() {
    let mut h = attached_heap(4096);
    let layout = one_ref_struct_layout();
    let a = h.alloc_uninit_struct(1, &layout).unwrap().unwrap().into_gc_ref();
    assert_eq!(h.read_u32(&a, 24), 0);
    h.write_u32(&a, 24, 0xdead_beef);
    assert_eq!(h.read_u32(&a, 24), 0xdead_beef);
}

#[test]
fn array_elements_are_traced() {
    let mut h = attached_heap(4096);
    let mut host = ExternRefHostDataTable::new();
    let layout = GcArrayLayout { base_size: 28, align: 8, elem_size: 4, elems_are_gc_refs: true };
    let ar = h.alloc_uninit_array(5, 2, &layout).unwrap().unwrap();
    assert_eq!(h.array_len(&ar), 2);
    let a = ar.into_gc_ref();
    assert_eq!(h.object_size(&a), 36);
    let b = h.alloc_externref(11).unwrap().unwrap().into_gc_ref();
    let c = h.alloc_externref(12).unwrap().unwrap().into_gc_ref();
    let b_raw = b.as_raw_u32();
    let c_raw = c.as_raw_u32();
    h.write_u32(&a, 28, b_raw);
    h.write_u32(&a, 32, c_raw);
    // Dropping the array cascades into its elements.
    h.dec_ref_and_maybe_dealloc(&mut host, &a);
    assert_eq!(h.num_objects(), 0);
    assert_eq!(host.times_dropped(11), 1);
    assert_eq!(host.times_dropped(12), 1);
}

#[test]
fn struct_alloc_sets_header() {
    let mut h = attached_heap(4096);
    let layout = one_ref_struct_layout();
    let sr = h.alloc_uninit_struct(42, &layout).unwrap().unwrap();
    let g = sr.as_gc_ref().unchecked_copy();
    let header = h.header(&g);
    assert_eq!(header.ty(), Some(42));
    assert_eq!(h.object_size(&g), 32);
    assert_eq!(h.ref_count(&g), 1);
    // Abandoning initialization returns the block without tracing.
    h.dealloc_uninit_struct(sr);
    assert_eq!(h.num_objects(), 0);
}

#[test]
fn free_list_reuses_freed_block() {
    let mut fl = FreeList::new(200);
    let first = fl.allocate(64, 8).unwrap().unwrap();
    fl.dealloc(first, 64);
    let again = fl.allocate(64, 8).unwrap().unwrap();
    // The same block satisfies the repeated request (first fit over the
    // remaining and returned ranges).
    assert_eq!(fl.capacity(), 200);
    assert!(again == first || again == 72);
}

#[test]
fn heap_ref_encoding_roundtrip() {
    assert!(VMGcRef::from_raw_u32(0).is_none());
    let i31 = VMGcRef::from_raw_u32(7).unwrap();
    assert!(i31.is_i31());
    assert!(i31.as_heap_index().is_none());
    assert!(VMGcRef::from_heap_index(0).is_none());
    assert!(VMGcRef::from_heap_index(7).is_none());
    let r = VMGcRef::from_heap_index(8).unwrap();
    assert!(!r.is_i31());
    assert_eq!(r.as_heap_index(), Some(8));
    assert_eq!(drc_ref(&r), 8);
}

#[test]
fn need_gc_before_entering_wasm_thresholds() {
    let mut h = attached_heap(4096);
    let mut host = ExternRefHostDataTable::new();
    assert!(h.need_gc_before_entering_wasm(1));
    run_gc(&mut h, vec![], &mut host);
    assert!(!h.need_gc_before_entering_wasm(1));
    assert!(!h.need_gc_before_entering_wasm(1024));
    assert!(h.need_gc_before_entering_wasm(1025));
}

#[test]
fn replace_memory_extends_capacity() {
    let mut h = attached_heap(40);
    let first = h.alloc_externref(1).unwrap();
    assert!(first.is_ok());
    assert!(h.alloc_externref(2).unwrap().is_err());
    let m = h.take_memory();
    assert_eq!(m.current_length(), 40);
    h.replace_memory(GcMemory::new(72), 32);
    let second = h.alloc_externref(2).unwrap();
    assert!(second.is_ok());
    assert_eq!(h.num_objects(), 2);
}

#[test]
fn drc_header_reports_object_size() {
    let header = VMDrcHeader { header: VMGcHeader::externref(), ref_count: 1, object_size: 40 };
    assert_eq!(header.object_size(), 40);
}

#[test]
fn no_gc_scope_nesting() {
    let mut h = attached_heap(4096);
    h.enter_no_gc_scope();
    h.enter_no_gc_scope();
    assert_eq!(h.no_gc_count, 2);
    h.exit_no_gc_scope();
    h.exit_no_gc_scope();
    assert_eq!(h.no_gc_count, 0);
}

#[test]
fn collector_creates_detached_heap() {
    let collector = DrcCollector::default();
    let h = collector.new_gc_heap();
    assert!(!h.is_attached());
    assert_eq!(h.num_objects(), 0);
}

#[test]
fn raw_alloc_with_ensured_trace_info() {
    let mut h = attached_heap(4096);
    let layout = GcLayout::Struct(one_ref_struct_layout());
    h.ensure_trace_info(9, &layout);
    let header = VMGcHeader::from_kind_and_index(VMGcKind::StructRef, 9);
    let g = h.alloc_raw(header, 32, 8).unwrap().unwrap();
    assert_eq!(h.header(&g).kind(), VMGcKind::StructRef);
    assert_eq!(h.header(&g).ty(), Some(9));
    assert_eq!(h.object_size(&g), 32);
    assert_eq!(h.ref_count(&g), 1);
}

#[test]
fn i31_refs_are_ignored_by_the_collector() {
    let mut h = attached_heap(4096);
    let mut host = ExternRefHostDataTable::new();
    let i31 = VMGcRef::from_raw_u32(7).unwrap();
    assert!(i31.is_i31());
    // Count operations pass inline integers through untouched.
    h.inc_ref(&i31);
    let copy = h.clone_gc_ref(&i31);
    assert_eq!(copy.as_raw_u32(), 7);
    h.dec_ref_and_maybe_dealloc(&mut host, &i31);
    // The write barrier moves them without touching any object.
    let mut slot: Option<VMGcRef> = Some(copy);
    h.write_gc_ref(&mut host, &mut slot, None);
    assert!(slot.is_none());
    // An exposed inline integer survives table bookkeeping and sweeping.
    h.expose_gc_ref_to_wasm(i31);
    run_gc(&mut h, vec![], &mut host);
    assert_eq!(h.num_objects(), 0);
    assert_eq!(host.dealloc_log.len(), 0);
}

#[test]
fn array_without_ref_elements_has_no_edges() {
    let mut h = attached_heap(4096);
    let mut host = ExternRefHostDataTable::new();
    let layout = GcArrayLayout { base_size: 28, align: 8, elem_size: 4, elems_are_gc_refs: false };
    let ar = h.alloc_uninit_array(6, 2, &layout).unwrap().unwrap();
    let a = ar.into_gc_ref();
    let b = h.alloc_externref(13).unwrap().unwrap().into_gc_ref();
    // Store something that happens to look like b's encoding; with
    // non-reference elements the collector must not follow it.
    let b_raw = b.as_raw_u32();
    h.write_u32(&a, 28, b_raw);
    h.dec_ref_and_maybe_dealloc(&mut host, &a);
    assert_eq!(h.num_objects(), 1);
    assert_eq!(h.ref_count(&b), 1);
    assert_eq!(host.times_dropped(13), 0);
}
