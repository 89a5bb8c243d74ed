//! Type layouts as the embedder's registry reports them, and the trace
//! information the collector derives from them.
//!
//! The registry is an external collaborator: the embedder queries it and
//! hands the answers to the heap as the plain values below.

use vstd::prelude::*;

verus! {

/// One field of a struct layout.
#[derive(Clone, Copy, PartialEq, Eq, Structural, Debug)]
pub struct GcFieldLayout {
    /// Byte offset of the field within the object.
    pub offset: u32,
    /// Whether the field holds a managed reference.
    pub is_gc_ref: bool,
}

/// The layout of a struct type.
pub struct GcStructLayout {
    /// Total object size in bytes, header included.
    pub size: u32,
    /// Object alignment in bytes.
    pub align: u32,
    /// The fields, in declaration order.
    pub fields: Vec<GcFieldLayout>,
}

/// The layout of an array type.
#[derive(Clone, Copy, PartialEq, Eq, Structural, Debug)]
pub struct GcArrayLayout {
    /// Size in bytes of an array of length zero, header included.
    pub base_size: u32,
    /// Object alignment in bytes.
    pub align: u32,
    /// Size in bytes of one element.
    pub elem_size: u32,
    /// Whether the elements hold managed references.
    pub elems_are_gc_refs: bool,
}

/// A type's layout: either an array or a struct.
pub enum GcLayout {
    /// An array type.
    Array(GcArrayLayout),
    /// A struct type.
    Struct(GcStructLayout),
}

/// How to enumerate the outgoing managed references of an object of a given
/// type. Derived once per type and cached; `externref`s have no outgoing
/// references and are not keyed here.
pub enum TraceInfo {
    /// An array: either every element is a reference, or none is.
    Array {
        /// Whether the elements need tracing.
        gc_ref_elems: bool,
    },
    /// A struct: the byte offsets of its reference fields.
    Struct {
        /// Offsets of the managed-reference fields; other fields are
        /// discarded, the collector never touches them.
        gc_ref_offsets: Vec<u32>,
    },
}

} // verus!
