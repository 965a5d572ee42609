use crate::mesh::MeshModel;
use crate::encoding::{decimal, le_bytes, push_decimal, push_le_u32, push_text};
use vstd::prelude::*;
use vstd::string::StringSliceAdditionalSpecFns;
use vstd::utf8::encode_utf8;

verus! {

/// One `property float <name>` header line.
pub open spec fn property_line(name: Seq<u8>) -> Seq<u8> {
    "property float ".spec_bytes() + name + "\n".spec_bytes()
}

/// The header lines of the extra per-vertex properties, one per key.
pub open spec fn key_lines(keys: Seq<Seq<char>>) -> Seq<u8>
    decreases keys.len(),
{
    if keys.len() == 0 {
        Seq::empty()
    } else {
        key_lines(keys.drop_last()) + property_line(encode_utf8(keys.last()))
    }
}

/// The header lines before the optional properties.
pub open spec fn header_prefix(vertex_count: nat) -> Seq<u8> {
    "ply\n".spec_bytes() + "format binary_little_endian 1.0\n".spec_bytes()
        + "comment Created by depthmesh\n".spec_bytes() + "element vertex ".spec_bytes()
        + decimal(vertex_count) + "\n".spec_bytes() + "property float x\n".spec_bytes()
        + "property float y\n".spec_bytes() + "property float z\n".spec_bytes()
}

/// The normal property lines, when there are normals.
pub open spec fn normal_lines(has_normals: bool) -> Seq<u8> {
    if has_normals {
        "property float nx\n".spec_bytes() + "property float ny\n".spec_bytes()
            + "property float nz\n".spec_bytes()
    } else {
        Seq::empty()
    }
}

/// The texture coordinate property lines, when there are texture coordinates.
pub open spec fn texcoord_lines(has_texcoords: bool) -> Seq<u8> {
    if has_texcoords {
        "property float s\n".spec_bytes() + "property float t\n".spec_bytes()
    } else {
        Seq::empty()
    }
}

/// The header lines after the vertex properties.
pub open spec fn header_suffix(face_count: nat) -> Seq<u8> {
    "element face ".spec_bytes() + decimal(face_count) + "\n".spec_bytes()
        + "property list uchar int vertex_indices\n".spec_bytes() + "end_header\n".spec_bytes()
}

/// The ASCII header of a binary little-endian PLY file with `vertex_count` vertices and
/// `face_count` triangles: coordinates, then normals and texture coordinates when present,
/// then one float property per key.
#[verifier::opaque]
pub open spec fn ply_header(
    vertex_count: nat,
    face_count: nat,
    has_normals: bool,
    has_texcoords: bool,
    keys: Seq<Seq<char>>,
) -> Seq<u8> {
    header_prefix(vertex_count) + normal_lines(has_normals) + texcoord_lines(has_texcoords)
        + key_lines(keys) + header_suffix(face_count)
}

/// The words of vertex `i` in each extra column, little-endian, column after column.
pub open spec fn column_bytes(columns: Seq<Seq<u32>>, i: int) -> Seq<u8>
    decreases columns.len(),
{
    if columns.len() == 0 {
        Seq::empty()
    } else {
        column_bytes(columns.drop_last(), i) + le_bytes(columns.last()[i])
    }
}

/// Three consecutive words starting at `start`, little-endian.
pub open spec fn triple_bytes(words: Seq<u32>, start: int) -> Seq<u8> {
    le_bytes(words[start]) + le_bytes(words[start + 1]) + le_bytes(words[start + 2])
}

/// The record of vertex `i`: its coordinates, its normal when there are normals, its
/// texture coordinates (`flipped_t[i]` in place of the second) when there are any, and its
/// value in each extra column.
#[verifier::opaque]
pub open spec fn vertex_record(
    vertices: Seq<u32>,
    normals: Option<Seq<u32>>,
    texcoords: Seq<u32>,
    flipped_t: Seq<u32>,
    columns: Seq<Seq<u32>>,
    i: int,
) -> Seq<u8> {
    triple_bytes(vertices, 3 * i) + (match normals {
        Some(n) => triple_bytes(n, 3 * i),
        None => Seq::empty(),
    }) + (if texcoords.len() > 0 {
        le_bytes(texcoords[2 * i]) + le_bytes(flipped_t[i])
    } else {
        Seq::empty()
    }) + column_bytes(columns, i)
}

/// The records of the first `end` vertices.
pub open spec fn vertex_records(
    vertices: Seq<u32>,
    normals: Option<Seq<u32>>,
    texcoords: Seq<u32>,
    flipped_t: Seq<u32>,
    columns: Seq<Seq<u32>>,
    end: int,
) -> Seq<u8>
    decreases end,
{
    if end <= 0 {
        Seq::empty()
    } else {
        vertex_records(vertices, normals, texcoords, flipped_t, columns, end - 1) + vertex_record(
            vertices,
            normals,
            texcoords,
            flipped_t,
            columns,
            end - 1,
        )
    }
}

/// The records of the first `end` triangles: the count 3, then the three indices as
/// little-endian 32-bit integers.
pub open spec fn face_records(indices: Seq<u32>, end: int) -> Seq<u8>
    decreases end,
{
    if end <= 0 {
        Seq::empty()
    } else {
        face_records(indices, end - 1) + seq![3u8] + triple_bytes(indices, 3 * (end - 1))
    }
}

/// Appends the header lines of the extra properties.
fn push_key_lines(out: &mut Vec<u8>, keys: &Vec<String>)
    ensures
        final(out)@ == old(out)@ + key_lines(keys@.map_values(|k: String| k@)),
{
    let ghost names = keys@.map_values(|k: String| k@);
    let mut i: usize = 0;
    while i < keys.len()
        invariant
            i <= keys@.len(),
            names == keys@.map_values(|k: String| k@),
            out@ == old(out)@ + key_lines(names.take(i as int)),
        decreases keys@.len() - i,
    {
        push_text(out, "property float ");
        push_text(out, keys[i].as_str());
        push_text(out, "\n");
        proof {
            assert(names.take(i + 1).drop_last() =~= names.take(i as int));
            assert(names.take(i + 1).last() == keys@[i as int]@);
            assert(out@ =~= old(out)@ + key_lines(names.take(i + 1)));
        }
        i = i + 1;
    }
    assert(names.take(keys@.len() as int) =~= names);
}

fn push_header_prefix(out: &mut Vec<u8>, vertex_count: usize)
    ensures
        final(out)@ == old(out)@ + header_prefix(vertex_count as nat),
{
    push_text(out, "ply\n");
    push_text(out, "format binary_little_endian 1.0\n");
    push_text(out, "comment Created by depthmesh\n");
    push_text(out, "element vertex ");
    push_decimal(out, vertex_count);
    push_text(out, "\n");
    push_text(out, "property float x\n");
    push_text(out, "property float y\n");
    push_text(out, "property float z\n");
    assert(out@ =~= old(out)@ + header_prefix(vertex_count as nat));
}

fn push_optional_lines(out: &mut Vec<u8>, has_normals: bool, has_texcoords: bool)
    ensures
        final(out)@ == old(out)@ + normal_lines(has_normals) + texcoord_lines(has_texcoords),
{
    if has_normals {
        push_text(out, "property float nx\n");
        push_text(out, "property float ny\n");
        push_text(out, "property float nz\n");
    }
    let ghost mid = out@;
    assert(mid =~= old(out)@ + normal_lines(has_normals));
    if has_texcoords {
        push_text(out, "property float s\n");
        push_text(out, "property float t\n");
    }
    assert(out@ =~= mid + texcoord_lines(has_texcoords));
}

fn push_header_suffix(out: &mut Vec<u8>, face_count: usize)
    ensures
        final(out)@ == old(out)@ + header_suffix(face_count as nat),
{
    push_text(out, "element face ");
    push_decimal(out, face_count);
    push_text(out, "\n");
    push_text(out, "property list uchar int vertex_indices\n");
    push_text(out, "end_header\n");
    assert(out@ =~= old(out)@ + header_suffix(face_count as nat));
}

/// Appends the PLY header.
pub fn push_header(
    out: &mut Vec<u8>,
    vertex_count: usize,
    face_count: usize,
    has_normals: bool,
    has_texcoords: bool,
    keys: &Vec<String>,
)
    ensures
        final(out)@ == old(out)@ + ply_header(
            vertex_count as nat,
            face_count as nat,
            has_normals,
            has_texcoords,
            keys@.map_values(|k: String| k@),
        ),
{
    let ghost start = out@;
    push_header_prefix(out, vertex_count);
    push_optional_lines(out, has_normals, has_texcoords);
    push_key_lines(out, keys);
    push_header_suffix(out, face_count);
    reveal(ply_header);
    assert(out@ =~= start + ply_header(
        vertex_count as nat,
        face_count as nat,
        has_normals,
        has_texcoords,
        keys@.map_values(|k: String| k@),
    ));
}

/// Appends three consecutive words starting at `start`.
pub fn push_triple(out: &mut Vec<u8>, words: &Vec<u32>, start: usize)
    requires
        start + 3 <= words@.len(),
    ensures
        final(out)@ == old(out)@ + triple_bytes(words@, start as int),
{
    let len = words.len();
    assert(start + 3 <= len);
    push_le_u32(out, words[start]);
    push_le_u32(out, words[start + 1]);
    push_le_u32(out, words[start + 2]);
    assert(out@ =~= old(out)@ + triple_bytes(words@, start as int));
}

/// Appends the face records of the first `face_count` triangles.
pub fn push_faces(out: &mut Vec<u8>, indices: &Vec<u32>, face_count: usize)
    requires
        3 * face_count <= indices@.len(),
    ensures
        final(out)@ == old(out)@ + face_records(indices@, face_count as int),
{
    let n = indices.len();
    let mut f: usize = 0;
    while f < face_count
        invariant
            n == indices@.len(),
            f <= face_count,
            3 * face_count <= indices@.len(),
            out@ == old(out)@ + face_records(indices@, f as int),
        decreases face_count - f,
    {
        out.push(3u8);
        push_triple(out, indices, 3 * f);
        assert(out@ =~= old(out)@ + face_records(indices@, f + 1));
        f = f + 1;
    }
}

/// The names of the attributes among the first `end` that have one value per vertex,
/// in order.
pub open spec fn extra_keys(attributes: Seq<(Seq<char>, Seq<u32>)>, vertex_count: int, end: int) -> Seq<Seq<char>>
    decreases end,
{
    if end <= 0 {
        Seq::empty()
    } else {
        extra_keys(attributes, vertex_count, end - 1) + (if attributes[end - 1].1.len() == vertex_count {
            seq![attributes[end - 1].0]
        } else {
            Seq::empty()
        })
    }
}

/// Position of the first attribute among the first `end` that has this name, or -1.
pub open spec fn first_named(attributes: Seq<(Seq<char>, Seq<u32>)>, name: Seq<char>, end: int) -> int
    decreases end,
{
    if end <= 0 {
        -1
    } else {
        let before = first_named(attributes, name, end - 1);
        if before >= 0 {
            before
        } else if attributes[end - 1].0 == name {
            end - 1
        } else {
            -1
        }
    }
}

/// The values written for each key: those of the first attribute with that name.
pub open spec fn extra_columns(attributes: Seq<(Seq<char>, Seq<u32>)>, keys: Seq<Seq<char>>) -> Seq<Seq<u32>> {
    keys.map_values(
        |k: Seq<char>| attributes[first_named(attributes, k, attributes.len() as int)].1,
    )
}

/// Each attribute written to the file has a value for every vertex: for every attribute
/// with one value per vertex, the first attribute of the same name has at least as many.
pub open spec fn columns_cover(attributes: Seq<(Seq<char>, Seq<u32>)>, vertex_count: int) -> bool {
    forall|j: int|
        0 <= j < attributes.len() && (#[trigger] attributes[j]).1.len() == vertex_count
            ==> attributes[first_named(attributes, attributes[j].0, attributes.len() as int)].1.len()
            >= vertex_count
}

pub proof fn lemma_first_named(attributes: Seq<(Seq<char>, Seq<u32>)>, name: Seq<char>, end: int)
    requires
        0 <= end <= attributes.len(),
    ensures
        first_named(attributes, name, end) < end,
        first_named(attributes, name, end) >= 0 ==> attributes[first_named(attributes, name, end)].0 == name,
        first_named(attributes, name, end) >= 0 ==> forall|j: int|
            0 <= j < first_named(attributes, name, end) ==> attributes[j].0 != name,
        first_named(attributes, name, end) < 0 ==> forall|j: int| 0 <= j < end ==> attributes[j].0 != name,
        forall|j: int| 0 <= j < end && attributes[j].0 == name ==> first_named(attributes, name, end) >= 0,
    decreases end,
{
    if end > 0 {
        lemma_first_named(attributes, name, end - 1);
    }
}

/// The PLY file of a mesh: the header, one record per vertex, one record per complete
/// triangle of the index buffer. `flipped_t[i]` is the word written as the second texture
/// coordinate of vertex `i`.
#[verifier::opaque]
pub open spec fn ply_bytes(m: MeshModel, flipped_t: Seq<u32>) -> Seq<u8> {
    let vertex_count = m.vertex_count();
    let face_count = m.indices.len() / 3;
    let keys = extra_keys(m.attributes, vertex_count, m.attributes.len() as int);
    ply_header(
        vertex_count as nat,
        face_count as nat,
        m.normals is Some,
        m.texcoords.len() > 0,
        keys,
    ) + vertex_records(
        m.vertices,
        m.normals,
        m.texcoords,
        flipped_t,
        extra_columns(m.attributes, keys),
        vertex_count,
    ) + face_records(m.indices, face_count as int)
}

/// A mesh can be written unless it has texture coordinates but not two per vertex.
pub open spec fn texcoords_mismatch(m: MeshModel) -> bool {
    m.texcoords.len() > 0 && m.texcoords.len() / 2 != m.vertex_count()
}

/// Every key comes from an attribute with one value per vertex, and the first attribute
/// of that name exists.
pub proof fn lemma_extra_key_source(
    attributes: Seq<(Seq<char>, Seq<u32>)>,
    vertex_count: int,
    end: int,
    c: int,
)
    requires
        0 <= end <= attributes.len(),
        0 <= c < extra_keys(attributes, vertex_count, end).len(),
    ensures
        exists|j: int|
            0 <= j < end && (#[trigger] attributes[j]).1.len() == vertex_count && attributes[j].0
                == extra_keys(attributes, vertex_count, end)[c],
    decreases end,
{
    let prev = extra_keys(attributes, vertex_count, end - 1);
    if c < prev.len() {
        lemma_extra_key_source(attributes, vertex_count, end - 1, c);
        let j = choose|j: int|
            0 <= j < end - 1 && (#[trigger] attributes[j]).1.len() == vertex_count && attributes[j].0
                == prev[c];
        assert(extra_keys(attributes, vertex_count, end)[c] == prev[c]);
    } else {
        assert(attributes[end - 1].1.len() == vertex_count);
    }
}

/// Bytes in one vertex record: three coordinates, three normal words when there are
/// normals, two texture words when there are texture coordinates, one word per column.
pub open spec fn vertex_record_size(has_normals: bool, has_texcoords: bool, column_count: int) -> int {
    12 + (if has_normals {
        12int
    } else {
        0int
    }) + (if has_texcoords {
        8int
    } else {
        0int
    }) + 4 * column_count
}

proof fn lemma_column_bytes_len(columns: Seq<Seq<u32>>, i: int)
    ensures
        column_bytes(columns, i).len() == 4 * columns.len(),
    decreases columns.len(),
{
    if columns.len() > 0 {
        lemma_column_bytes_len(columns.drop_last(), i);
    }
}

proof fn lemma_vertex_records_len(
    vertices: Seq<u32>,
    normals: Option<Seq<u32>>,
    texcoords: Seq<u32>,
    flipped_t: Seq<u32>,
    columns: Seq<Seq<u32>>,
    end: int,
)
    requires
        0 <= end,
    ensures
        vertex_records(vertices, normals, texcoords, flipped_t, columns, end).len() == end
            * vertex_record_size(normals is Some, texcoords.len() > 0, columns.len() as int),
    decreases end,
{
    if end > 0 {
        lemma_vertex_records_len(vertices, normals, texcoords, flipped_t, columns, end - 1);
        lemma_column_bytes_len(columns, end - 1);
        let size = vertex_record_size(normals is Some, texcoords.len() > 0, columns.len() as int);
        assert(vertex_record(vertices, normals, texcoords, flipped_t, columns, end - 1).len() == size) by {
            reveal(vertex_record);
        }
        assert((end - 1) * size + size == end * size) by (nonlinear_arith);
        assert(vertex_records(vertices, normals, texcoords, flipped_t, columns, end).len()
            == vertex_records(vertices, normals, texcoords, flipped_t, columns, end - 1).len() + size);
    } else {
        let size = vertex_record_size(normals is Some, texcoords.len() > 0, columns.len() as int);
        assert(0 * size == 0) by (nonlinear_arith);
    }
}

proof fn lemma_face_records_len(indices: Seq<u32>, end: int)
    requires
        0 <= end,
    ensures
        face_records(indices, end).len() == 13 * end,
    decreases end,
{
    if end > 0 {
        lemma_face_records_len(indices, end - 1);
    }
}

/// A PLY file is its header followed by fixed-size records: one per vertex, whose size
/// depends only on which properties the mesh has, and thirteen bytes per triangle.
pub proof fn lemma_ply_size(m: MeshModel, flipped_t: Seq<u32>)
    ensures
        ({
            let vertex_count = m.vertex_count();
            let face_count = m.indices.len() / 3;
            let keys = extra_keys(m.attributes, vertex_count, m.attributes.len() as int);
            ply_bytes(m, flipped_t).len() == ply_header(
                vertex_count as nat,
                face_count as nat,
                m.normals is Some,
                m.texcoords.len() > 0,
                keys,
            ).len() + vertex_count * vertex_record_size(
                m.normals is Some,
                m.texcoords.len() > 0,
                keys.len() as int,
            ) + 13 * face_count
        }),
{
    reveal(ply_bytes);
    let vertex_count = m.vertex_count();
    let face_count = m.indices.len() / 3;
    let keys = extra_keys(m.attributes, vertex_count, m.attributes.len() as int);
    lemma_vertex_records_len(
        m.vertices,
        m.normals,
        m.texcoords,
        flipped_t,
        extra_columns(m.attributes, keys),
        vertex_count,
    );
    lemma_face_records_len(m.indices, face_count as int);
}

proof fn lemma_key_lines_concat(a: Seq<Seq<char>>, b: Seq<Seq<char>>)
    ensures
        key_lines(a + b) == key_lines(a) + key_lines(b),
    decreases b.len(),
{
    if b.len() == 0 {
        assert(a + b =~= a);
        assert(key_lines(a) + key_lines(b) =~= key_lines(a));
    } else {
        lemma_key_lines_concat(a, b.drop_last());
        assert((a + b).drop_last() =~= a + b.drop_last());
        assert((a + b).last() == b.last());
        assert(key_lines(a + b) =~= key_lines(a) + key_lines(b));
    }
}

/// The extra property lines of the header name the keys in their order: the line of key
/// `c` stands after the lines of the keys before it and before those after it.
pub proof fn lemma_key_lines_order(keys: Seq<Seq<char>>, c: int)
    requires
        0 <= c < keys.len(),
    ensures
        key_lines(keys) == key_lines(keys.take(c)) + ("property float ".spec_bytes() + encode_utf8(keys[c])
            + "\n".spec_bytes()) + key_lines(keys.skip(c + 1)),
{
    let one = seq![keys[c]];
    assert(keys =~= keys.take(c) + one + keys.skip(c + 1));
    lemma_key_lines_concat(keys.take(c) + one, keys.skip(c + 1));
    lemma_key_lines_concat(keys.take(c), one);
    assert(one.drop_last() =~= Seq::<Seq<char>>::empty());
    assert(one.last() == keys[c]);
    assert(key_lines(Seq::<Seq<char>>::empty()) == Seq::<u8>::empty());
    assert(key_lines(one) == key_lines(one.drop_last()) + property_line(encode_utf8(one.last())));
    assert(key_lines(one) =~= property_line(encode_utf8(keys[c])));
}

/// The word of column `c` for vertex `i` stands at byte `4 * c` of the column bytes.
proof fn lemma_column_bytes_at(columns: Seq<Seq<u32>>, i: int, c: int)
    requires
        0 <= c < columns.len(),
    ensures
        column_bytes(columns, i).len() == 4 * columns.len(),
        column_bytes(columns, i).subrange(4 * c, 4 * c + 4) == le_bytes(columns[c][i]),
    decreases columns.len(),
{
    lemma_column_bytes_len(columns, i);
    lemma_column_bytes_len(columns.drop_last(), i);
    if c < columns.len() - 1 {
        lemma_column_bytes_at(columns.drop_last(), i, c);
        assert(column_bytes(columns, i).subrange(4 * c, 4 * c + 4) =~= column_bytes(
            columns.drop_last(),
            i,
        ).subrange(4 * c, 4 * c + 4));
    } else {
        assert(column_bytes(columns, i).subrange(4 * c, 4 * c + 4) =~= le_bytes(columns.last()[i]));
    }
}

proof fn lemma_vertex_records_at(
    vertices: Seq<u32>,
    normals: Option<Seq<u32>>,
    texcoords: Seq<u32>,
    flipped_t: Seq<u32>,
    columns: Seq<Seq<u32>>,
    end: int,
    i: int,
)
    requires
        0 <= i < end,
    ensures
        ({
            let size = vertex_record_size(normals is Some, texcoords.len() > 0, columns.len() as int);
            &&& 0 <= i * size
            &&& i * size + size <= vertex_records(vertices, normals, texcoords, flipped_t, columns, end).len()
            &&& vertex_records(vertices, normals, texcoords, flipped_t, columns, end).subrange(
                i * size,
                i * size + size,
            ) == vertex_record(vertices, normals, texcoords, flipped_t, columns, i)
        }),
    decreases end,
{
    let size = vertex_record_size(normals is Some, texcoords.len() > 0, columns.len() as int);
    lemma_vertex_records_len(vertices, normals, texcoords, flipped_t, columns, end - 1);
    lemma_vertex_records_len(vertices, normals, texcoords, flipped_t, columns, end);
    assert((end - 1) * size + size == end * size) by (nonlinear_arith);
    assert(0 <= i * size) by (nonlinear_arith)
        requires
            0 <= i,
            0 <= size,
    ;
    let prev = vertex_records(vertices, normals, texcoords, flipped_t, columns, end - 1);
    let all = vertex_records(vertices, normals, texcoords, flipped_t, columns, end);
    assert(all == prev + vertex_record(vertices, normals, texcoords, flipped_t, columns, end - 1));
    if i == end - 1 {
        assert(all.subrange(i * size, i * size + size) =~= vertex_record(
            vertices,
            normals,
            texcoords,
            flipped_t,
            columns,
            i,
        ));
    } else {
        lemma_vertex_records_at(vertices, normals, texcoords, flipped_t, columns, end - 1, i);
        assert(i * size + size <= (end - 1) * size) by (nonlinear_arith)
            requires
                i + 1 <= end - 1,
                0 <= size,
        ;
        assert(all.subrange(i * size, i * size + size) =~= prev.subrange(i * size, i * size + size));
    }
    assert(i * size + size <= end * size) by (nonlinear_arith)
        requires
            i + 1 <= end,
            0 <= size,
    ;
}

/// Where vertex `i`'s record starts in the PLY file of `m`.
pub open spec fn record_start(m: MeshModel, i: int) -> int {
    let keys = extra_keys(m.attributes, m.vertex_count(), m.attributes.len() as int);
    ply_header(
        m.vertex_count() as nat,
        (m.indices.len() / 3) as nat,
        m.normals is Some,
        m.texcoords.len() > 0,
        keys,
    ).len() + i * vertex_record_size(m.normals is Some, m.texcoords.len() > 0, keys.len() as int)
}

proof fn lemma_record_in_file(m: MeshModel, flipped_t: Seq<u32>, i: int)
    requires
        0 <= i < m.vertex_count(),
    ensures
        ({
            let keys = extra_keys(m.attributes, m.vertex_count(), m.attributes.len() as int);
            let size = vertex_record_size(m.normals is Some, m.texcoords.len() > 0, keys.len() as int);
            let start = record_start(m, i);
            &&& 0 <= start
            &&& start + size <= ply_bytes(m, flipped_t).len()
            &&& ply_bytes(m, flipped_t).subrange(start, start + size) == vertex_record(
                m.vertices,
                m.normals,
                m.texcoords,
                flipped_t,
                extra_columns(m.attributes, keys),
                i,
            )
        }),
{
    let nv = m.vertex_count();
    let nf = m.indices.len() / 3;
    let keys = extra_keys(m.attributes, nv, m.attributes.len() as int);
    let cols = extra_columns(m.attributes, keys);
    let header = ply_header(nv as nat, nf as nat, m.normals is Some, m.texcoords.len() > 0, keys);
    let records = vertex_records(m.vertices, m.normals, m.texcoords, flipped_t, cols, nv);
    let faces = face_records(m.indices, nf as int);
    let size = vertex_record_size(m.normals is Some, m.texcoords.len() > 0, keys.len() as int);
    lemma_vertex_records_at(m.vertices, m.normals, m.texcoords, flipped_t, cols, nv, i);
    let bytes = ply_bytes(m, flipped_t);
    reveal(ply_bytes);
    assert(bytes == header + records + faces);
    let start = record_start(m, i);
    assert(start == header.len() + i * size);
    assert(bytes.subrange(start, start + size) =~= records.subrange(i * size, i * size + size));
}

/// Bytes of the normal words in a vertex record.
pub open spec fn normal_bytes_len(normals: Option<Seq<u32>>) -> int {
    if normals is Some {
        12
    } else {
        0
    }
}

/// Bytes of the texture words in a vertex record.
pub open spec fn texcoord_bytes_len(texcoords: Seq<u32>) -> int {
    if texcoords.len() > 0 {
        8
    } else {
        0
    }
}

proof fn lemma_record_fields(
    vertices: Seq<u32>,
    normals: Option<Seq<u32>>,
    texcoords: Seq<u32>,
    flipped_t: Seq<u32>,
    columns: Seq<Seq<u32>>,
    i: int,
)
    ensures
        ({
            let rec = vertex_record(vertices, normals, texcoords, flipped_t, columns, i);
            let normal_len = normal_bytes_len(normals);
            let tex_len = texcoord_bytes_len(texcoords);
            &&& rec.len() == vertex_record_size(normals is Some, texcoords.len() > 0, columns.len() as int)
            &&& rec.subrange(0, 12) == le_bytes(vertices[3 * i]) + le_bytes(vertices[3 * i + 1])
                + le_bytes(vertices[3 * i + 2])
            &&& (normals matches Some(n) ==> rec.subrange(12, 24) == le_bytes(n[3 * i]) + le_bytes(
                n[3 * i + 1],
            ) + le_bytes(n[3 * i + 2]))
            &&& (texcoords.len() > 0 ==> rec.subrange(12 + normal_len, 20 + normal_len) == le_bytes(
                texcoords[2 * i],
            ) + le_bytes(flipped_t[i]))
            &&& forall|c: int|
                0 <= c < columns.len() ==> rec.subrange(
                    12 + normal_len + tex_len + 4 * c,
                    16 + normal_len + tex_len + 4 * c,
                ) == le_bytes(#[trigger] columns[c][i])
        }),
{
    let rec = vertex_record(vertices, normals, texcoords, flipped_t, columns, i);
    let normal_len = normal_bytes_len(normals);
    let tex_len = texcoord_bytes_len(texcoords);
    let normal_part: Seq<u8> = match normals {
        Some(n) => triple_bytes(n, 3 * i),
        None => Seq::empty(),
    };
    let tex_part: Seq<u8> = if texcoords.len() > 0 {
        le_bytes(texcoords[2 * i]) + le_bytes(flipped_t[i])
    } else {
        Seq::empty()
    };
    let cb = column_bytes(columns, i);
    lemma_column_bytes_len(columns, i);
    reveal(vertex_record);
    assert(rec == triple_bytes(vertices, 3 * i) + normal_part + tex_part + cb);
    assert(rec.subrange(0, 12) =~= triple_bytes(vertices, 3 * i));
    if normals is Some {
        assert(rec.subrange(12, 24) =~= normal_part);
    }
    if texcoords.len() > 0 {
        assert(rec.subrange(12 + normal_len, 20 + normal_len) =~= tex_part);
    }
    assert forall|c: int| 0 <= c < columns.len() implies rec.subrange(
        12 + normal_len + tex_len + 4 * c,
        16 + normal_len + tex_len + 4 * c,
    ) == le_bytes(#[trigger] columns[c][i]) by {
        lemma_column_bytes_at(columns, i, c);
        let off = 12 + normal_len + tex_len;
        assert(rec.subrange(off + 4 * c, off + 4 * c + 4) =~= cb.subrange(4 * c, 4 * c + 4));
    }
}

proof fn lemma_subrange_within(s: Seq<u8>, start: int, size: int, a: int, b: int)
    requires
        0 <= start,
        0 <= a <= b <= size,
        start + size <= s.len(),
    ensures
        s.subrange(start + a, start + b) == s.subrange(start, start + size).subrange(a, b),
{
    assert(s.subrange(start + a, start + b) =~= s.subrange(start, start + size).subrange(a, b));
}

/// The record of vertex `i` in the PLY file of `m`, read field by field: its three
/// coordinates `vertices[3i..3i+3]`; then, when there are normals, the three words
/// `normals[3i..3i+3]`; then, when there are texture coordinates, `texcoords[2i]` and
/// `flipped_t[i]`; then, for each extra property line `c` of the header, the value for
/// vertex `i` of the first attribute named by that line, in the header's order.
pub proof fn lemma_ply_vertex_record(m: MeshModel, flipped_t: Seq<u32>, i: int)
    requires
        0 <= i < m.vertex_count(),
    ensures
        ({
            let bytes = ply_bytes(m, flipped_t);
            let start = record_start(m, i);
            let normal_len = normal_bytes_len(m.normals);
            let tex_len = texcoord_bytes_len(m.texcoords);
            let keys = extra_keys(m.attributes, m.vertex_count(), m.attributes.len() as int);
            &&& bytes.subrange(start, start + 12) == le_bytes(m.vertices[3 * i]) + le_bytes(
                m.vertices[3 * i + 1],
            ) + le_bytes(m.vertices[3 * i + 2])
            &&& (m.normals matches Some(n) ==> bytes.subrange(start + 12, start + 24) == le_bytes(n[3 * i])
                + le_bytes(n[3 * i + 1]) + le_bytes(n[3 * i + 2]))
            &&& (m.texcoords.len() > 0 ==> bytes.subrange(start + 12 + normal_len, start + 20 + normal_len)
                == le_bytes(m.texcoords[2 * i]) + le_bytes(flipped_t[i]))
            &&& forall|c: int|
                0 <= c < keys.len() ==> bytes.subrange(
                    start + 12 + normal_len + tex_len + 4 * c,
                    start + 16 + normal_len + tex_len + 4 * c,
                ) == le_bytes(
                    m.attributes[first_named(m.attributes, #[trigger] keys[c], m.attributes.len() as int)].1[i],
                )
        }),
{
    let keys = extra_keys(m.attributes, m.vertex_count(), m.attributes.len() as int);
    let cols = extra_columns(m.attributes, keys);
    let bytes = ply_bytes(m, flipped_t);
    let start = record_start(m, i);
    let normal_len = normal_bytes_len(m.normals);
    let tex_len = texcoord_bytes_len(m.texcoords);
    lemma_record_in_file(m, flipped_t, i);
    lemma_record_fields(m.vertices, m.normals, m.texcoords, flipped_t, cols, i);
    let size = vertex_record_size(m.normals is Some, m.texcoords.len() > 0, keys.len() as int);
    lemma_column_bytes_len(cols, i);
    assert(size == 12 + normal_len + tex_len + 4 * keys.len());
    lemma_subrange_within(bytes, start, size, 0, 12);
    if m.normals is Some {
        lemma_subrange_within(bytes, start, size, 12, 24);
    }
    if m.texcoords.len() > 0 {
        lemma_subrange_within(bytes, start, size, 12 + normal_len, 20 + normal_len);
    }
    assert forall|c: int| 0 <= c < keys.len() implies bytes.subrange(
        start + 12 + normal_len + tex_len + 4 * c,
        start + 16 + normal_len + tex_len + 4 * c,
    ) == le_bytes(m.attributes[first_named(m.attributes, #[trigger] keys[c], m.attributes.len() as int)].1[i]) by {
        let off = 12 + normal_len + tex_len;
        lemma_subrange_within(bytes, start, size, off + 4 * c, off + 4 * c + 4);
        assert(cols[c] == m.attributes[first_named(m.attributes, keys[c], m.attributes.len() as int)].1);
    }
}

proof fn lemma_face_records_at(indices: Seq<u32>, end: int, f: int)
    requires
        0 <= f < end,
    ensures
        13 * f + 13 <= face_records(indices, end).len(),
        face_records(indices, end).subrange(13 * f, 13 * f + 13) == seq![3u8] + le_bytes(indices[3 * f])
            + le_bytes(indices[3 * f + 1]) + le_bytes(indices[3 * f + 2]),
    decreases end,
{
    lemma_face_records_len(indices, end);
    lemma_face_records_len(indices, end - 1);
    let prev = face_records(indices, end - 1);
    let all = face_records(indices, end);
    if f == end - 1 {
        assert(all.subrange(13 * f, 13 * f + 13) =~= seq![3u8] + le_bytes(indices[3 * f]) + le_bytes(
            indices[3 * f + 1],
        ) + le_bytes(indices[3 * f + 2]));
    } else {
        lemma_face_records_at(indices, end - 1, f);
        assert(all.subrange(13 * f, 13 * f + 13) =~= prev.subrange(13 * f, 13 * f + 13));
    }
}

/// The triangles of the PLY file of `m`, after the header and the vertex records: triangle
/// `f` is the byte 3 followed by the little-endian words `indices[3f]`, `indices[3f+1]`,
/// `indices[3f+2]`, for every complete triangle of the index buffer.
pub proof fn lemma_ply_face_record(m: MeshModel, flipped_t: Seq<u32>, f: int)
    requires
        0 <= f < m.indices.len() / 3,
    ensures
        ({
            let start = record_start(m, m.vertex_count()) + 13 * f;
            ply_bytes(m, flipped_t).subrange(start, start + 13) == seq![3u8] + le_bytes(m.indices[3 * f])
                + le_bytes(m.indices[3 * f + 1]) + le_bytes(m.indices[3 * f + 2])
        }),
{
    reveal(ply_bytes);
    let nv = m.vertex_count();
    let nf = m.indices.len() / 3;
    let keys = extra_keys(m.attributes, nv, m.attributes.len() as int);
    let cols = extra_columns(m.attributes, keys);
    let header = ply_header(nv as nat, nf as nat, m.normals is Some, m.texcoords.len() > 0, keys);
    let records = vertex_records(m.vertices, m.normals, m.texcoords, flipped_t, cols, nv);
    let faces = face_records(m.indices, nf as int);
    lemma_vertex_records_len(m.vertices, m.normals, m.texcoords, flipped_t, cols, nv);
    lemma_face_records_at(m.indices, nf as int, f);
    let bytes = ply_bytes(m, flipped_t);
    assert(bytes == header + records + faces);
    let start = record_start(m, nv) + 13 * f;
    assert(start == header.len() + records.len() + 13 * f);
    assert(bytes.subrange(start, start + 13) =~= faces.subrange(13 * f, 13 * f + 13));
}

} // verus!
