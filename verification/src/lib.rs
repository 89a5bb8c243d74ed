//! A deferred reference-counting (DRC) garbage-collected heap.
//!
//! The collector manages objects referenced by JIT-compiled guest code (the
//! "mutator"). Reference counts are mutated only by the host; the mutator
//! instead records the references it holds on its stack in an
//! over-approximating activations table. At a collection, the precise root
//! set reported by the stack walker is reconciled against that
//! over-approximation: entries that are no longer live lose their count and
//! are deallocated.
//!
//! This collector has no cycle collector, so cycles between managed objects
//! are never reclaimed. It is non-moving and non-generational.

pub mod free_list;
pub mod gc_ref;
pub mod header;
pub mod heap;
pub mod host_data;
pub mod laws;
pub mod layout;
pub mod root_set;
pub mod table;
