//! Laws of the collector, stated over the same spec functions and views
//! the operations' contracts use, and proved from them.

use crate::gc_ref::VMGcRef;
use crate::heap::chunk_count;
use crate::heap::is_traced_root;
use crate::heap::no_death_sweep;
use crate::heap::object_edge_raws;
use crate::heap::run_cascade;
use crate::heap::run_release_seq;
use crate::heap::obj_with_rc;
use crate::heap::over_one;
use crate::heap::sweep_rel;
use crate::heap::trace_rel;
use crate::heap::with_rc;
use crate::heap::DrcHeap;
use crate::heap::GcRoot;
use crate::heap::HeapObject;
use crate::host_data::ExternRefHostDataTable;
use vstd::prelude::*;

verus! {

/// A one-element sequence counts one occurrence of its element and none
/// of anything else.
proof fn lemma_count_in_singleton(s: Seq<u32>, y: u32)
    requires
        s.len() == 1,
    ensures
        crate::heap::count_in(s, y) == (if s[0] == y {
            1nat
        } else {
            0nat
        }),
{
    assert(s.drop_last() =~= Seq::<u32>::empty());
    assert(crate::heap::count_in(Seq::<u32>::empty(), y) == 0);
}

/// Every reachable object has a positive reference count at any quiescent
/// point: reachable objects are live, and the heap invariant keeps every
/// live object's count at one or more.
pub proof fn lemma_reachable_count_positive(h: DrcHeap, i: u32)
    requires
        h.wf(),
        h.objects@.contains_key(i),
    ensures
        h.rc(i) >= 1,
{
}

/// After a sweep, every slot of the bump chunk is zero.
pub proof fn lemma_sweep_zeroes_bump_chunk(
    h0: DrcHeap,
    h1: DrcHeap,
    hd0: ExternRefHostDataTable,
    hd1: ExternRefHostDataTable,
)
    requires
        sweep_rel(h0, h1, hd0, hd1),
    ensures
        forall|j: int|
            0 <= j < h1.activations_table.alloc.chunk@.len()
                ==> h1.activations_table.alloc.chunk@[j] == 0,
        h1.activations_table.alloc.next == 0,
{
}

/// After a sweep, the scratch precise set is empty.
pub proof fn lemma_sweep_empties_precise_set(
    h0: DrcHeap,
    h1: DrcHeap,
    hd0: ExternRefHostDataTable,
    hd1: ExternRefHostDataTable,
)
    requires
        sweep_rel(h0, h1, hd0, hd1),
    ensures
        h1.activations_table.precise_stack_roots.seq().len() == 0,
{
}

/// Incrementing and then decrementing the count of a live object whose
/// prior count is at least two restores the object map exactly: this is
/// the effect `inc_ref` followed by `dec_ref_and_maybe_dealloc` has, as
/// their contracts state it over `with_rc`.
pub proof fn lemma_inc_then_dec_is_identity(m: Map<u32, HeapObject>, i: u32)
    requires
        m.contains_key(i),
        2 <= m[i].header.ref_count < u64::MAX,
    ensures
        with_rc(
            with_rc(m, i, (m[i].header.ref_count + 1) as u64),
            i,
            ((m[i].header.ref_count + 1) - 1) as u64,
        ) == m,
{
    let m1 = with_rc(m, i, (m[i].header.ref_count + 1) as u64);
    let m2 = with_rc(m1, i, ((m[i].header.ref_count + 1) - 1) as u64);
    assert(m2[i] == m[i]);
    assert(m2 =~= m);
}

/// Attaching a backing memory to a fresh heap and detaching it again
/// restores a state indistinguishable from the fresh heap: every
/// observable component, the retained trace-information cache included,
/// is back to its initial value.
///
/// `h0` is a heap as `new` returns it, `h1` the same heap after `attach`,
/// and `h2` the heap after `detach`; the hypotheses are the corresponding
/// clauses of those two contracts.
pub proof fn lemma_attach_detach_restores_fresh_state(h0: DrcHeap, h1: DrcHeap, h2: DrcHeap)
    requires
        // h0 is fresh
        h0.no_gc_count == 0,
        h0.activations_table.alloc.next == 0,
        h0.activations_table.alloc.chunk@.len() == 0,
        h0.activations_table.over_approximated_stack_roots.seq() == Seq::<u32>::empty(),
        h0.activations_table.precise_stack_roots.seq() == Seq::<u32>::empty(),
        h0.memory is None,
        h0.vmmemory is None,
        h0.free_list is None,
        h0.objects@ == Map::<u32, HeapObject>::empty(),
        // h1 is h0 after attach
        h1.objects@ == h0.objects@,
        h1.trace_infos@ == h0.trace_infos@,
        h1.no_gc_count == h0.no_gc_count,
        h1.activations_table == h0.activations_table,
        // h2 is h1 after detach
        h2.memory is None,
        h2.vmmemory is None,
        h2.free_list is None,
        h2.no_gc_count == 0,
        h2.objects@ == Map::<u32, HeapObject>::empty(),
        h2.trace_infos@ == h1.trace_infos@,
        h2.activations_table.alloc.next == 0,
        h2.activations_table.alloc.chunk@.len() == h1.activations_table.alloc.chunk@.len(),
        forall|j: int|
            0 <= j < h2.activations_table.alloc.chunk@.len()
                ==> h2.activations_table.alloc.chunk@[j] == 0,
        h2.activations_table.over_approximated_stack_roots.seq() == Seq::<u32>::empty(),
        h2.activations_table.precise_stack_roots.seq() == Seq::<u32>::empty(),
    ensures
        h2.memory == h0.memory,
        h2.vmmemory == h0.vmmemory,
        h2.free_list == h0.free_list,
        h2.no_gc_count == h0.no_gc_count,
        h2.objects@ == h0.objects@,
        h2.trace_infos@ == h0.trace_infos@,
        h2.activations_table.alloc.next == h0.activations_table.alloc.next,
        h2.activations_table.alloc.chunk@ == h0.activations_table.alloc.chunk@,
        h2.activations_table.over_approximated_stack_roots.seq()
            == h0.activations_table.over_approximated_stack_roots.seq(),
        h2.activations_table.precise_stack_roots.seq()
            == h0.activations_table.precise_stack_roots.seq(),
{
    assert(h2.activations_table.alloc.chunk@ =~= h0.activations_table.alloc.chunk@);
}

/// Exposing a live reference to the mutator and then collecting with that
/// reference among the precise roots leaves it alive with its reference
/// count unchanged net: the table entry's count is given back by the
/// sweep, and the trace's re-adoption increment balances it.
///
/// The heap starts with an empty activations table; `h1` is the heap
/// after `expose_to_mutator(r)` (either the bump fast path or the spill
/// path, per that contract), `h2` the heap after the trace phase over
/// `roots`, and `h3` the heap after the sweep phase.
pub proof fn lemma_expose_then_collect_preserves_count(
    h0: DrcHeap,
    h1: DrcHeap,
    h2: DrcHeap,
    h3: DrcHeap,
    hd2: ExternRefHostDataTable,
    hd3: ExternRefHostDataTable,
    r: VMGcRef,
    roots: Seq<GcRoot>,
)
    requires
        h0.wf(),
        h1.wf(),
        h2.wf(),
        r.wf(),
        !r.is_i31_spec(),
        h0.objects@.contains_key(r.index_spec()),
        h0.rc(r.index_spec()) < u64::MAX,
        // the activations table starts empty
        h0.activations_table.alloc.next == 0,
        h0.activations_table.over_approximated_stack_roots.seq().len() == 0,
        h0.activations_table.precise_stack_roots.seq().len() == 0,
        // h1 is h0 after exposing r
        h1 == (DrcHeap { activations_table: h1.activations_table, ..h0 }),
        h1.activations_table.precise_stack_roots == h0.activations_table.precise_stack_roots,
        (h0.activations_table.alloc.next < h0.activations_table.alloc.end ==> {
            &&& h1.activations_table.alloc.next == h0.activations_table.alloc.next + 1
            &&& h1.activations_table.alloc.chunk@ == h0.activations_table.alloc.chunk@.update(
                h0.activations_table.alloc.next as int,
                r.raw_spec(),
            )
            &&& h1.activations_table.over_approximated_stack_roots
                == h0.activations_table.over_approximated_stack_roots
        }),
        (h0.activations_table.alloc.next == h0.activations_table.alloc.end ==> {
            &&& h1.activations_table.alloc == h0.activations_table.alloc
            &&& h1.activations_table.over_approximated_stack_roots.seq()
                == h0.activations_table.over_approximated_stack_roots.seq().push(r.raw_spec())
        }),
        // the stack walker reports r inside a mutator frame
        is_traced_root(roots, h1, r.raw_spec()),
        trace_rel(h1, h2, roots),
        sweep_rel(h2, h3, hd2, hd3),
    ensures
        h3.objects@.contains_key(r.index_spec()),
        h3.rc(r.index_spec()) == h0.rc(r.index_spec()),
{
    let raw = r.raw_spec();
    let c = h0.rc(raw);
    // The table after exposing holds r exactly once, split between the
    // two insertion paths.
    if h0.activations_table.alloc.next < h0.activations_table.alloc.end {
        let chunk1 = h1.activations_table.alloc.chunk@;
        assert(chunk1.take(1)[0] == raw);
        lemma_count_in_singleton(chunk1.take(1), raw);
        assert(crate::heap::count_in(chunk1.take(1), raw) == 1);
        assert forall|i: u32| i != raw implies crate::heap::count_in(chunk1.take(1), i)
            == 0 by {
            lemma_count_in_singleton(chunk1.take(1), i);
        }
        assert(over_one(h2, raw) == 0);
    } else {
        assert(h1.activations_table.alloc.next == 0);
        assert(h2.activations_table.alloc.chunk@.take(0) =~= Seq::<u32>::empty());
        assert(h1.activations_table.over_approximated_stack_roots.seq()[0] == raw);
        assert(h1.activations_table.over_approximated_stack_roots.contains_spec(raw));
    }
    // No count is due to reach zero in the sweep.
    assert(no_death_sweep(h2)) by {
        assert forall|i: u32| #[trigger] h2.objects@.contains_key(i) implies h2.rc(i)
            > chunk_count(h2, i) + over_one(h2, i) by {
            assert(h1.objects@.dom() == h2.objects@.dom());
            assert(h1.objects@.contains_key(i));
            assert(h0.objects@.contains_key(i));
            assert(h2.objects@[i] == obj_with_rc(
                h1.objects@[i],
                (h1.rc(i) + crate::heap::traced_inc(roots, h1, i)) as u64,
            ));
            assert(h2.activations_table.alloc == h1.activations_table.alloc);
            assert(h2.activations_table.over_approximated_stack_roots
                == h1.activations_table.over_approximated_stack_roots);
            if i == raw {
                assert(crate::heap::traced_inc(roots, h1, raw) == 1);
                assert(chunk_count(h2, raw) + over_one(h2, raw) == 1);
            } else {
                // Only r is in the table.
                if h0.activations_table.alloc.next < h0.activations_table.alloc.end {
                    assert(chunk_count(h2, i) == 0);
                    assert(over_one(h2, i) == 0);
                } else {
                    assert(chunk_count(h2, i) == 0) by {
                        assert(h2.activations_table.alloc.chunk@.take(0) =~= Seq::<u32>::empty());
                    }
                    assert(over_one(h2, i) == 0) by {
                        if h2.activations_table.over_approximated_stack_roots.contains_spec(i) {
                            let s = h1.activations_table.over_approximated_stack_roots.seq();
                            let kk = choose|kk: int| 0 <= kk < s.len() && s[kk] == i;
                            assert(s.len() == 1);
                            assert(s[0] == raw);
                        }
                    }
                }
                assert(h2.rc(i) >= 1);
            }
        }
    }
    assert(h3.objects@.contains_key(raw));
    assert(h2.rc(raw) == c + 1);
    assert(h3.objects@[raw] == obj_with_rc(
        h2.objects@[raw],
        (h2.rc(raw) - chunk_count(h2, raw) - over_one(h2, raw)) as u64,
    ));
    assert(chunk_count(h2, raw) + over_one(h2, raw) == 1);
}

/// Releasing a duplicate-free list of table entries, each a live
/// `externref` at its last count, collects exactly those objects: every
/// listed object is deallocated, its host-data entry is dropped once, in
/// release order, and every other object is left untouched.
///
/// This is the deallocating case of the sweep: `sweep_rel` states that the
/// sweep's effect is `run_release_seq` over the bump chunk's filled slots
/// followed by the old spill set, so a collection whose table holds only
/// last-count `externref`s reclaims them all.
pub proof fn lemma_release_collects_table_only_externrefs(
    m: Map<u32, HeapObject>,
    tr: Map<u32, crate::layout::TraceInfo>,
    log: Seq<u32>,
    entries: Seq<u32>,
)
    requires
        m.dom().finite(),
        forall|k: int, k2: int|
            0 <= k < entries.len() && 0 <= k2 < entries.len() && k != k2 ==> #[trigger] entries[k]
                != #[trigger] entries[k2],
        forall|k: int|
            0 <= k < entries.len() ==> {
                let e = #[trigger] entries[k];
                &&& e % 2 == 0
                &&& m.contains_key(e)
                &&& m[e].header.ref_count == 1
                &&& m[e].header.header.kind == crate::header::VMGcKind::ExternRef
                &&& m[e].header.header.ty is None
            },
    ensures
        ({
            let r = run_release_seq(m, tr, log, entries);
            &&& r.0.dom().finite()
            &&& (forall|k: int|
                0 <= k < entries.len() ==> !r.0.contains_key(#[trigger] entries[k]))
            &&& (forall|j: u32|
                #[trigger] m.contains_key(j) && !entries.contains(j) ==> r.0.contains_key(j)
                    && r.0[j] == m[j])
            &&& r.1 == log + entries.map_values(|e: u32| m[e].host_data)
        }),
    decreases entries.len(),
{
    let f = |e: u32| m[e].host_data;
    if entries.len() == 0 {
        assert(run_release_seq(m, tr, log, entries) == (m, log));
        assert(log + entries.map_values(f) =~= log);
    } else {
        let front = entries.drop_last();
        let e = entries.last();
        lemma_release_collects_table_only_externrefs(m, tr, log, front);
        let prev = run_release_seq(m, tr, log, front);
        assert(!front.contains(e)) by {
            if front.contains(e) {
                let kk = choose|kk: int| 0 <= kk < front.len() && front[kk] == e;
                assert(entries[kk] == entries[entries.len() - 1]);
            }
        }
        assert(m.contains_key(e));
        assert(prev.0.contains_key(e) && prev.0[e] == m[e]);
        // One cascade step removes `e` and logs its host data; an
        // `externref` contributes no further worklist entries.
        assert(seq![e].drop_last() =~= Seq::<u32>::empty());
        assert(object_edge_raws(prev.0[e], tr) =~= Seq::<u32>::empty());
        assert(Seq::<u32>::empty() + object_edge_raws(prev.0[e], tr) =~= Seq::<u32>::empty());
        assert(run_cascade(
            prev.0.remove(e),
            tr,
            prev.1.push(m[e].host_data),
            Seq::<u32>::empty(),
        ) == (prev.0.remove(e), prev.1.push(m[e].host_data)));
        assert(run_cascade(prev.0, tr, prev.1, seq![e]) == (
            prev.0.remove(e),
            prev.1.push(m[e].host_data),
        ));
        let r = run_release_seq(m, tr, log, entries);
        assert(r == (prev.0.remove(e), prev.1.push(m[e].host_data)));
        assert forall|k: int| 0 <= k < entries.len() implies !r.0.contains_key(
            #[trigger] entries[k],
        ) by {
            if k < entries.len() - 1 {
                assert(!prev.0.contains_key(front[k]));
            }
        }
        assert forall|j: u32|
            #[trigger] m.contains_key(j) && !entries.contains(j) implies r.0.contains_key(j)
            && r.0[j] == m[j] by {
            assert(!front.contains(j)) by {
                if front.contains(j) {
                    let kk = choose|kk: int| 0 <= kk < front.len() && front[kk] == j;
                    assert(entries[kk] == j);
                }
            }
            assert(j != e) by {
                assert(entries[entries.len() - 1] == e);
            }
        }
        assert(entries.map_values(f) =~= front.map_values(f).push(m[e].host_data));
        assert(log + entries.map_values(f) =~= (log + front.map_values(f)).push(m[e].host_data));
    }
}

/// A deallocation cascade started at the head of a chain of objects, each
/// at its last count and referencing exactly the next, frees the entire
/// chain and touches nothing else. This is the worklist cascade's deep
/// chain: `dec_ref_and_maybe_dealloc` ensures its effect is `run_cascade`,
/// so dropping the head of such a chain deallocates all of it, however
/// long, without recursion.
pub proof fn lemma_cascade_frees_chain(
    m: Map<u32, HeapObject>,
    tr: Map<u32, crate::layout::TraceInfo>,
    log: Seq<u32>,
    chain: Seq<u32>,
)
    requires
        m.dom().finite(),
        chain.len() >= 1,
        forall|k: int, k2: int|
            0 <= k < chain.len() && 0 <= k2 < chain.len() && k != k2 ==> #[trigger] chain[k]
                != #[trigger] chain[k2],
        forall|k: int|
            0 <= k < chain.len() ==> {
                let e = #[trigger] chain[k];
                &&& e % 2 == 0
                &&& m.contains_key(e)
                &&& m[e].header.ref_count == 1
                &&& m[e].header.header.kind != crate::header::VMGcKind::ExternRef
            },
        forall|k: int|
            0 <= k < chain.len() - 1 ==> object_edge_raws(m[#[trigger] chain[k]], tr) == seq![
                chain[k + 1],
            ],
        object_edge_raws(m[chain.last()], tr) == Seq::<u32>::empty(),
    ensures
        ({
            let r = run_cascade(m, tr, log, seq![chain.first()]);
            &&& r.0.dom().finite()
            &&& (forall|j: u32| #[trigger] r.0.contains_key(j) ==> m.contains_key(j))
            &&& (forall|k: int| 0 <= k < chain.len() ==> !r.0.contains_key(#[trigger] chain[k]))
            &&& (forall|j: u32|
                #[trigger] m.contains_key(j) && !chain.contains(j) ==> r.0.contains_key(j)
                    && r.0[j] == m[j])
            &&& r.1 == log
        }),
    decreases chain.len(),
{
    let e = chain.first();
    assert(e == chain[0]);
    assert(seq![e].drop_last() =~= Seq::<u32>::empty());
    let m1 = m.remove(e);
    if chain.len() == 1 {
        assert(object_edge_raws(m[e], tr) == Seq::<u32>::empty());
        assert(Seq::<u32>::empty() + object_edge_raws(m[e], tr) =~= Seq::<u32>::empty());
        assert(run_cascade(m1, tr, log, Seq::<u32>::empty()) == (m1, log));
        assert(run_cascade(m, tr, log, seq![e]) == (m1, log));
        assert forall|j: u32|
            #[trigger] m.contains_key(j) && !chain.contains(j) implies m1.contains_key(j)
            && m1[j] == m[j] by {
            assert(j != e) by {
                assert(chain[0] == e);
            }
        }
    } else {
        let rest = chain.drop_first();
        assert(rest.len() == chain.len() - 1);
        assert(forall|k: int| 0 <= k < rest.len() ==> #[trigger] rest[k] == chain[k + 1]);
        assert(object_edge_raws(m[e], tr) == seq![chain[1]]);
        assert(Seq::<u32>::empty() + object_edge_raws(m[e], tr) =~= seq![chain[1]]);
        assert(run_cascade(m, tr, log, seq![e]) == run_cascade(m1, tr, log, seq![chain[1]]));
        // The tail is a chain of the same shape in the shrunken map.
        assert forall|k: int| 0 <= k < rest.len() implies {
            let e2 = #[trigger] rest[k];
            &&& e2 % 2 == 0
            &&& m1.contains_key(e2)
            &&& m1[e2].header.ref_count == 1
            &&& m1[e2].header.header.kind != crate::header::VMGcKind::ExternRef
        } by {
            assert(rest[k] == chain[k + 1]);
            assert(chain[k + 1] != e) by {
                assert(chain[0] == e);
            }
        }
        assert forall|k: int| 0 <= k < rest.len() - 1 implies object_edge_raws(
            m1[#[trigger] rest[k]],
            tr,
        ) == seq![rest[k + 1]] by {
            assert(rest[k] == chain[k + 1]);
            assert(rest[k + 1] == chain[k + 2]);
            assert(chain[k + 1] != e);
            assert(m1[chain[k + 1]] == m[chain[k + 1]]);
        }
        assert(rest.last() == chain.last());
        assert(rest.last() != e) by {
            assert(chain[0] == e && chain[chain.len() - 1] == rest.last());
        }
        assert(object_edge_raws(m1[rest.last()], tr) == Seq::<u32>::empty());
        lemma_cascade_frees_chain(m1, tr, log, rest);
        let r = run_cascade(m1, tr, log, seq![rest.first()]);
        assert(rest.first() == chain[1]);
        assert(run_cascade(m, tr, log, seq![e]) == r);
        assert forall|k: int| 0 <= k < chain.len() implies !r.0.contains_key(
            #[trigger] chain[k],
        ) by {
            if k == 0 {
                assert(!m1.contains_key(e));
                if r.0.contains_key(e) {
                    assert(m1.contains_key(e));
                }
            } else {
                assert(rest[k - 1] == chain[k]);
            }
        }
        assert forall|j: u32|
            #[trigger] m.contains_key(j) && !chain.contains(j) implies r.0.contains_key(j)
            && r.0[j] == m[j] by {
            assert(j != e) by {
                assert(chain[0] == e);
            }
            assert(!rest.contains(j)) by {
                if rest.contains(j) {
                    let kk = choose|kk: int| 0 <= kk < rest.len() && rest[kk] == j;
                    assert(chain[kk + 1] == j);
                }
            }
            assert(m1.contains_key(j) && m1[j] == m[j]);
        }
    }
}

} // verus!
