//! Compact handles to GC-managed values.

use vstd::prelude::*;

verus! {

/// A compact, copyable handle to a GC-managed value.
///
/// There are two disjoint encodings, distinguished by the low bit:
///
/// * an inline 31-bit small integer (low bit set), which carries no heap
///   state and is ignored by the collector, and
/// * a heap index (low bit clear), identifying an object inside the heap's
///   byte region.
///
/// The encoding zero is reserved: it marks an empty slot in the activations
/// table's bump chunk and is never a valid reference.
///
/// Copying a `VMGcRef` never touches reference counts; count changes are
/// explicit heap operations. `unchecked_copy` makes that duplication
/// explicit at each use site.
#[derive(PartialEq, Eq, Structural, Debug)]
pub struct VMGcRef {
    raw: u32,
}

impl VMGcRef {
    /// The raw 32-bit encoding of this reference.
    pub closed spec fn raw_spec(&self) -> u32 {
        self.raw
    }

    /// Every constructed reference has a nonzero encoding.
    pub open spec fn wf(&self) -> bool {
        self.raw_spec() != 0
    }

    /// Whether this is an inline small integer rather than a heap index.
    pub open spec fn is_i31_spec(&self) -> bool {
        self.raw_spec() % 2 == 1
    }

    /// The heap index of a non-inline reference.
    pub open spec fn index_spec(&self) -> u32 {
        self.raw_spec()
    }

    /// Decode a raw 32-bit value read from a slot. Zero is the reserved
    /// empty-slot value and decodes to `None`.
    pub fn from_raw_u32(raw: u32) -> (r: Option<VMGcRef>)
        ensures
            raw == 0 <==> r is None,
            r matches Some(g) ==> g.raw_spec() == raw && g.wf(),
    {
        if raw == 0 {
            None
        } else {
            Some(VMGcRef { raw })
        }
    }

    /// Turn a heap index into a reference. Fails on zero (reserved) and on
    /// indices that collide with the inline-integer tag bit; the heap's
    /// allocator only hands out aligned, nonzero indices, for which this
    /// always succeeds.
    pub fn from_heap_index(index: u32) -> (r: Option<VMGcRef>)
        ensures
            r is Some <==> index != 0 && index % 2 == 0,
            r matches Some(g) ==> g.raw_spec() == index && g.wf() && !g.is_i31_spec(),
    {
        if index != 0 && index % 2 == 0 {
            Some(VMGcRef { raw: index })
        } else {
            None
        }
    }

    /// The raw 32-bit encoding, as written into bump-chunk slots.
    pub fn as_raw_u32(&self) -> (raw: u32)
        ensures
            raw == self.raw_spec(),
    {
        self.raw
    }

    /// Whether this is an inline small integer.
    pub fn is_i31(&self) -> (r: bool)
        ensures
            r == self.is_i31_spec(),
    {
        self.raw % 2 == 1
    }

    /// The heap index of this reference, or `None` for an inline integer.
    pub fn as_heap_index(&self) -> (r: Option<u32>)
        ensures
            r is Some <==> !self.is_i31_spec(),
            r matches Some(i) ==> i == self.index_spec(),
    {
        if self.raw % 2 == 0 {
            Some(self.raw)
        } else {
            None
        }
    }

    /// Duplicate this handle without touching any reference count.
    pub fn unchecked_copy(&self) -> (r: VMGcRef)
        ensures
            r == *self,
    {
        VMGcRef { raw: self.raw }
    }
}

/// Resolve a GC reference to the heap index of its object header.
///
/// Inline integers have no header, so they are excluded.
pub fn drc_ref(gc_ref: &VMGcRef) -> (i: u32)
    requires
        gc_ref.wf(),
        !gc_ref.is_i31_spec(),
    ensures
        i == gc_ref.index_spec(),
        i != 0,
        i % 2 == 0,
{
    gc_ref.as_raw_u32()
}

/// A reference known to point at an `externref` object.
#[derive(PartialEq, Eq, Structural, Debug)]
pub struct VMExternRef {
    gc_ref: VMGcRef,
}

/// A reference known to point at a struct object.
#[derive(PartialEq, Eq, Structural, Debug)]
pub struct VMStructRef {
    gc_ref: VMGcRef,
}

/// A reference known to point at an array object.
#[derive(PartialEq, Eq, Structural, Debug)]
pub struct VMArrayRef {
    gc_ref: VMGcRef,
}

impl VMExternRef {
    /// The underlying untyped reference.
    pub closed spec fn gc_ref_spec(&self) -> VMGcRef {
        self.gc_ref
    }

    /// Claim, without checking, that `gc_ref` points at an `externref`.
    pub fn from_gc_ref_unchecked(gc_ref: VMGcRef) -> (r: VMExternRef)
        ensures
            r.gc_ref_spec() == gc_ref,
    {
        VMExternRef { gc_ref }
    }

    /// Borrow the underlying untyped reference.
    pub fn as_gc_ref(&self) -> (r: &VMGcRef)
        ensures
            *r == self.gc_ref_spec(),
    {
        &self.gc_ref
    }

    /// Give up the typed view and recover the untyped reference.
    pub fn into_gc_ref(self) -> (r: VMGcRef)
        ensures
            r == self.gc_ref_spec(),
    {
        self.gc_ref
    }
}

impl VMStructRef {
    /// The underlying untyped reference.
    pub closed spec fn gc_ref_spec(&self) -> VMGcRef {
        self.gc_ref
    }

    /// Claim, without checking, that `gc_ref` points at a struct object.
    pub fn from_gc_ref_unchecked(gc_ref: VMGcRef) -> (r: VMStructRef)
        ensures
            r.gc_ref_spec() == gc_ref,
    {
        VMStructRef { gc_ref }
    }

    /// Borrow the underlying untyped reference.
    pub fn as_gc_ref(&self) -> (r: &VMGcRef)
        ensures
            *r == self.gc_ref_spec(),
    {
        &self.gc_ref
    }

    /// Give up the typed view and recover the untyped reference.
    pub fn into_gc_ref(self) -> (r: VMGcRef)
        ensures
            r == self.gc_ref_spec(),
    {
        self.gc_ref
    }
}

impl VMArrayRef {
    /// The underlying untyped reference.
    pub closed spec fn gc_ref_spec(&self) -> VMGcRef {
        self.gc_ref
    }

    /// Claim, without checking, that `gc_ref` points at an array object.
    pub fn from_gc_ref_unchecked(gc_ref: VMGcRef) -> (r: VMArrayRef)
        ensures
            r.gc_ref_spec() == gc_ref,
    {
        VMArrayRef { gc_ref }
    }

    /// Borrow the underlying untyped reference.
    pub fn as_gc_ref(&self) -> (r: &VMGcRef)
        ensures
            *r == self.gc_ref_spec(),
    {
        &self.gc_ref
    }

    /// Give up the typed view and recover the untyped reference.
    pub fn into_gc_ref(self) -> (r: VMGcRef)
        ensures
            r == self.gc_ref_spec(),
    {
        self.gc_ref
    }
}

/// Resolve an `externref` to the heap index of its object header.
pub fn externref_to_drc(externref: &VMExternRef) -> (i: u32)
    requires
        externref.gc_ref_spec().wf(),
        !externref.gc_ref_spec().is_i31_spec(),
    ensures
        i == externref.gc_ref_spec().index_spec(),
        i != 0,
        i % 2 == 0,
{
    let gc_ref = externref.as_gc_ref();
    drc_ref(gc_ref)
}

} // verus!
