//! Building, reshaping and encoding triangle meshes generated from depth images.
//!
//! Every floating-point quantity is carried as its IEEE-754 bit pattern (`u32`):
//! the library decides which pixels become vertices, how they are connected,
//! how vertex buffers are re-indexed, and how the result is laid out as a
//! binary little-endian PLY file.

mod encoding;
mod grid;
mod mesh;
mod ply;
mod remap;
mod smooth;

pub use encoding::{
    decimal, decimal_value, le_bytes, lemma_decimal_roundtrip, lemma_le_bytes_roundtrip,
    push_decimal, push_le_u32, push_text,
};
pub use grid::{
    all_below, gather, is_present, occurs_at, lemma_present_before_count, pixel_index_map, present_before,
    DepthGrid,
};
pub use ply::{
    column_bytes, columns_cover, extra_columns, extra_keys, face_records, first_named, header_prefix,
    header_suffix, key_lines, lemma_key_lines_order, lemma_ply_face_record, lemma_ply_size, lemma_ply_vertex_record,
    normal_bytes_len, record_start, texcoord_bytes_len, normal_lines, ply_bytes, ply_header, property_line,
    push_header, texcoord_lines, texcoords_mismatch, triple_bytes, vertex_record,
    vertex_record_size, vertex_records,
};
pub use remap::{
    last_source, lemma_last_source, referenced, remap_index_buffer, remap_vertex_buffer,
    remapped_record, vertex_remap_of,
};
pub use smooth::{
    lemma_occurrences_count, lemma_occurrences_monotone, lemma_occurrences_push, naming,
    neighbor_counts, occurrences,
};
pub use mesh::{
    attribute_view, copies_old_vertex, lemma_sample_appends, lemma_sample_ignores, pairs, regroup, sample_model, sample_position, sampled, triples, Image, Mesh,
    MeshError, MeshModel, NormalSource,
};
