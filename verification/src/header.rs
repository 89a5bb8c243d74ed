//! Object headers and the binary-layout constants shared with the code
//! generator.
//!
//! JIT-emitted code hard-codes the offsets below, so they are part of the
//! collector's ABI and are asserted against the code generator's values by
//! the test suite.

use vstd::prelude::*;

verus! {

/// Size in bytes of the common object header (`VMDrcHeader`).
pub const HEADER_SIZE: u32 = 24;

/// Alignment in bytes of the common object header.
pub const HEADER_ALIGN: u32 = 8;

/// Byte offset of the `ref_count` field within the common header.
pub const HEADER_REF_COUNT_OFFSET: u32 = 8;

/// Byte offset of the `length` field of an array object; it sits immediately
/// after the common header.
pub const ARRAY_LENGTH_OFFSET: u32 = 24;

/// Byte offset of the first element of an array whose elements are GC
/// references; elements follow the 4-byte length field.
pub const GC_REF_ARRAY_ELEMS_OFFSET: u32 = ARRAY_LENGTH_OFFSET + 4;

/// The kind of a GC object managed by this collector.
#[derive(Clone, Copy, PartialEq, Eq, Structural, Debug)]
pub enum VMGcKind {
    /// An opaque host value, identified by an entry in the host-data table.
    ExternRef,
    /// A struct with a fixed set of fields.
    StructRef,
    /// An array with a dynamic length.
    ArrayRef,
}

impl VMGcKind {
    /// The packed 32-bit encoding of this kind, as the code generator stores
    /// it in the high bits of the header's first word.
    pub fn as_u32(&self) -> (r: u32)
        ensures
            r == self.as_u32_spec(),
    {
        match self {
            VMGcKind::ExternRef => 0b010000u32 << 26,
            VMGcKind::StructRef => 0b101100u32 << 26,
            VMGcKind::ArrayRef => 0b101010u32 << 26,
        }
    }

    /// The packed encoding of this kind.
    pub open spec fn as_u32_spec(&self) -> u32 {
        match self {
            VMGcKind::ExternRef => 0b010000u32 << 26,
            VMGcKind::StructRef => 0b101100u32 << 26,
            VMGcKind::ArrayRef => 0b101010u32 << 26,
        }
    }
}

/// The collector-agnostic part of an object header: the object's kind and,
/// except for `externref`s, its index into the embedder's type registry.
#[derive(Clone, Copy, PartialEq, Eq, Structural, Debug)]
pub struct VMGcHeader {
    /// What kind of object this is.
    pub kind: VMGcKind,
    /// The object's type index in the embedder's registry; `None` exactly
    /// for `externref`s, which have no registered type.
    pub ty: Option<u32>,
}

impl VMGcHeader {
    /// A kind and type index are consistent when only `externref`s lack a
    /// type index.
    pub open spec fn wf(&self) -> bool {
        self.ty is None <==> self.kind == VMGcKind::ExternRef
    }

    /// The header of an `externref` object.
    pub fn externref() -> (r: VMGcHeader)
        ensures
            r.kind == VMGcKind::ExternRef,
            r.ty is None,
            r.wf(),
    {
        VMGcHeader { kind: VMGcKind::ExternRef, ty: None }
    }

    /// The header of a struct or array object of registered type `ty`.
    pub fn from_kind_and_index(kind: VMGcKind, ty: u32) -> (r: VMGcHeader)
        requires
            kind != VMGcKind::ExternRef,
        ensures
            r.kind == kind,
            r.ty == Some(ty),
            r.wf(),
    {
        VMGcHeader { kind, ty: Some(ty) }
    }

    /// This object's kind.
    pub fn kind(&self) -> (r: VMGcKind)
        ensures
            r == self.kind,
    {
        self.kind
    }

    /// This object's type index, if it has one.
    pub fn ty(&self) -> (r: Option<u32>)
        ensures
            r == self.ty,
    {
        self.ty
    }
}

/// The common header of every object in this collector: the shared header
/// plus the reference count and the object's exact allocated size.
#[derive(Clone, Copy, PartialEq, Eq, Structural, Debug)]
pub struct VMDrcHeader {
    /// Kind and type index.
    pub header: VMGcHeader,
    /// How many owners the object currently has. Positive for every object
    /// that any party may still observe; an object whose count reaches zero
    /// is deallocated before any other managed operation sees it.
    pub ref_count: u64,
    /// Size in bytes of the full allocation, recorded so that deallocation
    /// can return the exact block to the free list without consulting the
    /// type registry again.
    pub object_size: u32,
}

impl VMDrcHeader {
    /// The size of this header's object.
    pub fn object_size(&self) -> (r: usize)
        ensures
            r == self.object_size as usize,
    {
        self.object_size as usize
    }
}

} // verus!
