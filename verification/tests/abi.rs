//! The binary-layout constants that JIT-emitted code hard-codes, held
//! against the code generator's compiled-in values.

use drc_heap::header::ARRAY_LENGTH_OFFSET;
use drc_heap::header::HEADER_ALIGN;
use drc_heap::header::HEADER_REF_COUNT_OFFSET;
use drc_heap::header::HEADER_SIZE;
use drc_heap::header::VMGcKind;
use drc_heap::table::TABLE_END_OFFSET;
use drc_heap::table::TABLE_NEXT_OFFSET;
use wasmtime_environ::HostPtr;
use wasmtime_environ::VMOffsets;
use wasmtime_environ::VMOffsetsFields;

fn code_generator_offsets() -> VMOffsets<HostPtr> {
    VMOffsets::from(VMOffsetsFields {
        ptr: HostPtr,
        num_imported_functions: 0,
        num_imported_tables: 0,
        num_imported_memories: 0,
        num_imported_globals: 0,
        num_imported_tags: 0,
        num_defined_tables: 0,
        num_defined_memories: 0,
        num_owned_memories: 0,
        num_defined_globals: 0,
        num_defined_tags: 0,
        num_escaped_funcs: 0,
    })
}

#[test]
fn vm_drc_header_size_align() {
    assert_eq!(wasmtime_environ::drc::HEADER_SIZE, HEADER_SIZE);
    assert_eq!(wasmtime_environ::drc::HEADER_ALIGN, HEADER_ALIGN);
}

#[test]
fn vm_drc_array_header_length_offset() {
    assert_eq!(wasmtime_environ::drc::ARRAY_LENGTH_OFFSET, ARRAY_LENGTH_OFFSET);
}

#[test]
fn ref_count_is_at_correct_offset() {
    let offsets = code_generator_offsets();
    assert_eq!(offsets.vm_drc_header_ref_count(), HEADER_REF_COUNT_OFFSET);
}

#[test]
fn table_next_is_at_correct_offset() {
    // The bump finger is the first field of the activations table; the
    // code generator loads it at offset zero from the table's address.
    assert_eq!(TABLE_NEXT_OFFSET, 0);
}

#[test]
fn table_end_is_at_correct_offset() {
    // The bump limit follows the pointer-sized finger.
    assert_eq!(TABLE_END_OFFSET, 8);
}

#[test]
fn gc_kind_encodings_match_code_generator() {
    assert_eq!(
        VMGcKind::ExternRef.as_u32(),
        wasmtime_environ::VMGcKind::ExternRef as u32
    );
    assert_eq!(
        VMGcKind::StructRef.as_u32(),
        wasmtime_environ::VMGcKind::StructRef as u32
    );
    assert_eq!(
        VMGcKind::ArrayRef.as_u32(),
        wasmtime_environ::VMGcKind::ArrayRef as u32
    );
}
