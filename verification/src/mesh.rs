use crate::encoding::push_le_u32;
use crate::ply::{
    column_bytes, columns_cover, extra_columns, extra_keys, first_named, lemma_extra_key_source,
    lemma_first_named,
    ply_bytes, push_faces, push_header, push_triple, texcoords_mismatch, vertex_record,
    vertex_records,
};
use crate::grid::{all_below, collect_vertices, present_before, triangulate, DepthGrid};
use crate::remap::{
    generate_vertex_remap, last_source, lemma_last_source, referenced, remap_index_buffer,
    remap_vertex_buffer, remapped_record, vertex_remap_of,
};
use vstd::prelude::*;

verus! {

/// Why a mesh could not be processed.
#[derive(Debug, Clone, Copy, PartialEq, Eq, Structural)]
pub enum MeshError {
    /// The mesh has texture coordinates, but not two per vertex.
    TexcoordsMismatch,
}

/// What a mesh holds, as mathematical sequences of 32-bit words.
pub struct MeshModel {
    pub vertices: Seq<u32>,
    pub indices: Seq<u32>,
    pub texcoords: Seq<u32>,
    pub attributes: Seq<(Seq<char>, Seq<u32>)>,
    pub normals: Option<Seq<u32>>,
}

impl MeshModel {
    pub open spec fn vertex_count(self) -> int {
        (self.vertices.len() / 3) as int
    }

    /// Vertices come in threes, every index names a vertex, every vertex has two
    /// texture words, and normals (when present) cover every vertex.
    pub open spec fn wf(self) -> bool {
        &&& self.vertices.len() % 3 == 0
        &&& all_below(self.indices, self.vertex_count())
        &&& self.texcoords.len() == 2 * self.vertex_count()
        &&& self.normals matches Some(n) ==> n.len() >= self.vertices.len()
    }
}

/// A triangle mesh. Coordinates, texture coordinates, normals and attribute values are
/// the bit patterns of `f32` values; `indices` lists triangles as vertex numbers.
pub struct Mesh {
    vertices: Vec<u32>,
    indices: Vec<u32>,
    texcoords: Vec<u32>,
    attributes: Vec<(String, Vec<u32>)>,
    normals: Option<Vec<u32>>,
}

pub open spec fn attribute_view(a: (String, Vec<u32>)) -> (Seq<char>, Seq<u32>) {
    (a.0@, a.1@)
}

impl View for Mesh {
    type V = MeshModel;

    closed spec fn view(&self) -> MeshModel {
        MeshModel {
            vertices: self.vertices@,
            indices: self.indices@,
            texcoords: self.texcoords@,
            attributes: self.attributes@.map_values(|a: (String, Vec<u32>)| attribute_view(a)),
            normals: match self.normals {
                Some(n) => Some(n@),
                None => None,
            },
        }
    }
}

impl Mesh {
    /// Builds the mesh of a depth grid: the present pixels become the vertices, in pixel
    /// order, with their points and texture coordinates, and each cell contributes the
    /// triangles whose pixels are all present and whose face test passed.
    pub fn new(grid: &DepthGrid) -> (res: Result<Mesh, MeshError>)
        requires
            grid.wf(),
        ensures
            res matches Ok(mesh) && mesh@.wf() && mesh@.vertex_count() == present_before(
                grid.present@,
                grid.pixel_count(),
            ) && mesh@.indices.len() % 3 == 0 && mesh@ == (MeshModel {
                vertices: grid.spec_vertices(),
                indices: grid.spec_indices(),
                texcoords: grid.spec_texcoords(),
                attributes: Seq::empty(),
                normals: None,
            }),
    {
        let (vertices, texcoords, pixel2index) = collect_vertices(grid);
        let indices = triangulate(grid, &pixel2index);
        proof {
            grid.lemma_indices_valid();
        }
        let mesh = Mesh { vertices, indices, texcoords, attributes: Vec::new(), normals: None };
        assert(mesh@.attributes =~= Seq::empty());
        Ok(mesh)
    }
}

/// The words of `v` in consecutive groups of three (one group per vertex).
pub open spec fn triples(v: Seq<u32>) -> Seq<Seq<u32>> {
    Seq::new((v.len() / 3) as nat, |i: int| v.subrange(3 * i, 3 * i + 3))
}

/// The words of `v` in consecutive pairs (one pair per vertex).
pub open spec fn pairs(v: Seq<u32>) -> Seq<Seq<u32>> {
    Seq::new((v.len() / 2) as nat, |i: int| v.subrange(2 * i, 2 * i + 2))
}

/// Vertex `k` of `new` is a copy, coordinates and texture coordinates, of the last vertex
/// of `old` that the remap table sends to `k`, and there is such a vertex.
pub open spec fn copies_old_vertex(new: MeshModel, old: MeshModel, remap: Seq<u32>, k: int) -> bool {
    let src = last_source(remap, old.vertex_count(), k);
    &&& 0 <= src < old.vertex_count()
    &&& triples(new.vertices)[k] == triples(old.vertices)[src]
    &&& pairs(new.texcoords)[k] == pairs(old.texcoords)[src]
}

/// What a first-use numbering of equal vertices gives the re-indexed mesh: its vertices
/// are pairwise distinct, two corners share a new index exactly when their old vertices
/// are equal, and new indices appear in order of first use.
proof fn lemma_merged_numbering(
    old_triples: Seq<Seq<u32>>,
    simplified: Seq<u32>,
    remap: Seq<u32>,
    count: int,
    new_triples: Seq<Seq<u32>>,
    new_indices: Seq<u32>,
)
    requires
        remap.len() == old_triples.len(),
        0 <= count <= old_triples.len() < u32::MAX,
        all_below(simplified, old_triples.len() as int),
        forall|i: int|
            0 <= i < old_triples.len() ==> (#[trigger] remap[i] != u32::MAX <==> referenced(simplified, i)),
        forall|i: int| 0 <= i < old_triples.len() && #[trigger] remap[i] != u32::MAX ==> remap[i] < count,
        forall|i: int, j: int|
            0 <= i < old_triples.len() && 0 <= j < old_triples.len() && referenced(simplified, i)
                && referenced(simplified, j) ==> (#[trigger] remap[i] == #[trigger] remap[j]
                <==> old_triples[i] == old_triples[j]),
        forall|k: int| 0 <= k < count ==> #[trigger] last_source(remap, old_triples.len() as int, k) >= 0,
        forall|k: int|
            0 <= k < simplified.len() && #[trigger] remap[simplified[k] as int] > 0 ==> exists|p: int|
                0 <= p < k && remap[simplified[p] as int] == remap[simplified[k] as int] - 1,
        new_triples.len() == count,
        forall|k: int|
            0 <= k < count ==> #[trigger] new_triples[k] == old_triples[last_source(
                remap,
                old_triples.len() as int,
                k,
            )],
        new_indices == simplified.map_values(|i: u32| remap[i as int]),
    ensures
        forall|j: int, k: int| 0 <= j < k < count ==> #[trigger] new_triples[j] != #[trigger] new_triples[k],
        forall|a: int, b: int|
            0 <= a < simplified.len() && 0 <= b < simplified.len() ==> (#[trigger] new_indices[a]
                == #[trigger] new_indices[b] <==> old_triples[simplified[a] as int]
                == old_triples[simplified[b] as int]),
        forall|k: int|
            0 <= k < simplified.len() && #[trigger] new_indices[k] > 0 ==> exists|p: int|
                0 <= p < k && new_indices[p] == new_indices[k] - 1,
{
    let nv = old_triples.len() as int;
    assert forall|j: int, k: int| 0 <= j < k < count implies #[trigger] new_triples[j]
        != #[trigger] new_triples[k] by {
        lemma_last_source(remap, nv, j);
        lemma_last_source(remap, nv, k);
        let sj = last_source(remap, nv, j);
        let sk = last_source(remap, nv, k);
        assert(remap[sj] != u32::MAX);
        assert(remap[sk] != u32::MAX);
        assert(referenced(simplified, sj));
        assert(referenced(simplified, sk));
        assert(remap[sj] != remap[sk]);
        assert(old_triples[sj] != old_triples[sk]);
    }
    assert forall|a: int, b: int| 0 <= a < simplified.len() && 0 <= b < simplified.len() implies (
    #[trigger] new_indices[a] == #[trigger] new_indices[b] <==> old_triples[simplified[a] as int]
        == old_triples[simplified[b] as int]) by {
        assert(referenced(simplified, simplified[a] as int));
        assert(referenced(simplified, simplified[b] as int));
    }
    assert forall|k: int| 0 <= k < simplified.len() && #[trigger] new_indices[k] > 0 implies exists|p: int|
        0 <= p < k && new_indices[p] == new_indices[k] - 1 by {
        assert(remap[simplified[k] as int] > 0);
        let p = choose|p: int|
            0 <= p < k && remap[simplified[p] as int] == remap[simplified[k] as int] - 1;
        assert(new_indices[p] == new_indices[k] - 1);
    }
}

/// A buffer of `stride`-word records re-laid out by a remap table: record `k` of the
/// result is the record of the last vertex that the table sends to `k`.
pub open spec fn regroup(data: Seq<u32>, stride: int, remap: Seq<u32>, count: int) -> Seq<u32> {
    Seq::new(
        (stride * count) as nat,
        |j: int| data[stride * last_source(remap, remap.len() as int, j / stride) + j % stride],
    )
}

proof fn lemma_flat_triples_regroup(
    data: Seq<u32>,
    remap: Seq<u32>,
    count: int,
    records: Seq<[u32; 3]>,
    laid_out: Seq<[u32; 3]>,
    flat: Seq<u32>,
)
    requires
        records.len() == remap.len(),
        3 * records.len() <= data.len(),
        forall|i: int| 0 <= i < records.len() ==> (#[trigger] records[i])@ == data.subrange(3 * i, 3 * i + 3),
        laid_out.len() == count,
        forall|k: int|
            0 <= k < count ==> last_source(remap, remap.len() as int, k) >= 0 && #[trigger] laid_out[k]
                == records[last_source(remap, remap.len() as int, k)],
        flat.len() == 3 * count,
        forall|j: int| 0 <= j < flat.len() ==> #[trigger] flat[j] == laid_out[j / 3]@[j % 3],
    ensures
        flat == regroup(data, 3, remap, count),
{
    assert forall|j: int| 0 <= j < flat.len() implies #[trigger] flat[j] == regroup(data, 3, remap, count)[j] by {
        let q = j / 3;
        let r = j % 3;
        lemma_last_source(remap, remap.len() as int, q);
        let src = last_source(remap, remap.len() as int, q);
        assert(0 <= q < count);
        assert(laid_out[q] == records[src]);
        assert(records[src]@ == data.subrange(3 * src, 3 * src + 3));
        assert(flat[j] == data[3 * src + r]);
    }
    assert(flat =~= regroup(data, 3, remap, count));
}

proof fn lemma_flat_pairs_regroup(
    data: Seq<u32>,
    remap: Seq<u32>,
    count: int,
    records: Seq<[u32; 2]>,
    laid_out: Seq<[u32; 2]>,
    flat: Seq<u32>,
)
    requires
        records.len() == remap.len(),
        2 * records.len() <= data.len(),
        forall|i: int| 0 <= i < records.len() ==> (#[trigger] records[i])@ == data.subrange(2 * i, 2 * i + 2),
        laid_out.len() == count,
        forall|k: int|
            0 <= k < count ==> last_source(remap, remap.len() as int, k) >= 0 && #[trigger] laid_out[k]
                == records[last_source(remap, remap.len() as int, k)],
        flat.len() == 2 * count,
        forall|j: int| 0 <= j < flat.len() ==> #[trigger] flat[j] == laid_out[j / 2]@[j % 2],
    ensures
        flat == regroup(data, 2, remap, count),
{
    assert forall|j: int| 0 <= j < flat.len() implies #[trigger] flat[j] == regroup(data, 2, remap, count)[j] by {
        let q = j / 2;
        let r = j % 2;
        lemma_last_source(remap, remap.len() as int, q);
        let src = last_source(remap, remap.len() as int, q);
        assert(0 <= q < count);
        assert(laid_out[q] == records[src]);
        assert(records[src]@ == data.subrange(2 * src, 2 * src + 2));
        assert(flat[j] == data[2 * src + r]);
    }
    assert(flat =~= regroup(data, 2, remap, count));
}

fn to_triples(v: &Vec<u32>) -> (res: Vec<[u32; 3]>)
    ensures
        res@.len() == v@.len() / 3,
        forall|i: int| 0 <= i < res@.len() ==> (#[trigger] res@[i])@ == v@.subrange(3 * i, 3 * i + 3),
{
    let len = v.len();
    let n = len / 3;
    let mut res: Vec<[u32; 3]> = Vec::new();
    let mut i: usize = 0;
    while i < n
        invariant
            len == v@.len(),
            n == len / 3,
            i <= n,
            res@.len() == i,
            forall|k: int| 0 <= k < i ==> (#[trigger] res@[k])@ == v@.subrange(3 * k, 3 * k + 3),
        decreases n - i,
    {
        let t: [u32; 3] = [v[3 * i], v[3 * i + 1], v[3 * i + 2]];
        assert(t@ =~= v@.subrange(3 * i, 3 * i + 3));
        res.push(t);
        i = i + 1;
    }
    res
}

fn to_pairs(v: &Vec<u32>) -> (res: Vec<[u32; 2]>)
    ensures
        res@.len() == v@.len() / 2,
        forall|i: int| 0 <= i < res@.len() ==> (#[trigger] res@[i])@ == v@.subrange(2 * i, 2 * i + 2),
{
    let len = v.len();
    let n = len / 2;
    let mut res: Vec<[u32; 2]> = Vec::new();
    let mut i: usize = 0;
    while i < n
        invariant
            len == v@.len(),
            n == len / 2,
            i <= n,
            res@.len() == i,
            forall|k: int| 0 <= k < i ==> (#[trigger] res@[k])@ == v@.subrange(2 * k, 2 * k + 2),
        decreases n - i,
    {
        let t: [u32; 2] = [v[2 * i], v[2 * i + 1]];
        assert(t@ =~= v@.subrange(2 * i, 2 * i + 2));
        res.push(t);
        i = i + 1;
    }
    res
}

fn flatten_triples(a: &Vec<[u32; 3]>) -> (res: Vec<u32>)
    ensures
        res@.len() == 3 * a@.len(),
        forall|j: int| 0 <= j < res@.len() ==> #[trigger] res@[j] == a@[j / 3]@[j % 3],
{
    let mut res: Vec<u32> = Vec::new();
    let mut i: usize = 0;
    while i < a.len()
        invariant
            i <= a@.len(),
            res@.len() == 3 * i,
            forall|j: int| 0 <= j < res@.len() ==> #[trigger] res@[j] == a@[j / 3]@[j % 3],
        decreases a@.len() - i,
    {
        let t = a[i];
        res.push(t[0]);
        res.push(t[1]);
        res.push(t[2]);
        i = i + 1;
    }
    res
}

fn flatten_pairs(a: &Vec<[u32; 2]>) -> (res: Vec<u32>)
    ensures
        res@.len() == 2 * a@.len(),
        forall|j: int| 0 <= j < res@.len() ==> #[trigger] res@[j] == a@[j / 2]@[j % 2],
{
    let mut res: Vec<u32> = Vec::new();
    let mut i: usize = 0;
    while i < a.len()
        invariant
            i <= a@.len(),
            res@.len() == 2 * i,
            forall|j: int| 0 <= j < res@.len() ==> #[trigger] res@[j] == a@[j / 2]@[j % 2],
        decreases a@.len() - i,
    {
        let t = a[i];
        res.push(t[0]);
        res.push(t[1]);
        i = i + 1;
    }
    res
}

impl Mesh {
    /// Re-indexes the mesh after simplification. `simplified` is the simplified index
    /// buffer, naming vertices of the current buffer. Vertices with identical coordinates
    /// that it names are merged, unnamed ones dropped; coordinates and texture coordinates
    /// are re-laid out with the same table and the index buffer is translated through it.
    /// Attributes and normals stay as they were. Every vertex left is a copy of an old one
    /// and is named by the new index buffer, and every corner keeps its position.
    #[verifier::spinoff_prover]
    #[verifier::rlimit(100)]
    pub fn optimize(&mut self, simplified: Vec<u32>)
        requires
            old(self)@.wf(),
            old(self)@.vertex_count() < u32::MAX,
            all_below(simplified@, old(self)@.vertex_count()),
        ensures
            final(self)@.wf(),
            ({
                let table = vertex_remap_of(triples(old(self)@.vertices), simplified@);
                &&& final(self)@.vertices == regroup(old(self)@.vertices, 3, table.1, table.0 as int)
                &&& final(self)@.texcoords == regroup(old(self)@.texcoords, 2, table.1, table.0 as int)
                &&& final(self)@.indices == simplified@.map_values(|i: u32| table.1[i as int])
            }),
            final(self)@.attributes == old(self)@.attributes,
            final(self)@.normals == old(self)@.normals,
            final(self)@.indices.len() == simplified@.len(),
            simplified@.len() % 3 == 0 ==> final(self)@.indices.len() % 3 == 0,
            final(self)@.vertex_count() <= old(self)@.vertex_count(),
            forall|k: int| 0 <= k < final(self)@.vertex_count() ==> #[trigger] referenced(final(self)@.indices, k),
            forall|k: int|
                0 <= k < final(self)@.vertex_count() ==> #[trigger] copies_old_vertex(
                    final(self)@,
                    old(self)@,
                    vertex_remap_of(triples(old(self)@.vertices), simplified@).1,
                    k,
                ),
            forall|i: int|
                0 <= i < simplified@.len() ==> #[trigger] triples(final(self)@.vertices)[final(self)@.indices[i] as int]
                    == triples(old(self)@.vertices)[simplified@[i] as int],
            forall|j: int, k: int|
                0 <= j < k < final(self)@.vertex_count() ==> #[trigger] triples(final(self)@.vertices)[j]
                    != #[trigger] triples(final(self)@.vertices)[k],
            forall|a: int, b: int|
                0 <= a < simplified@.len() && 0 <= b < simplified@.len() ==> (#[trigger] final(self)@.indices[a]
                    == #[trigger] final(self)@.indices[b] <==> triples(old(self)@.vertices)[simplified@[a] as int]
                    == triples(old(self)@.vertices)[simplified@[b] as int]),
            forall|k: int|
                0 <= k < simplified@.len() && #[trigger] final(self)@.indices[k] > 0 ==> exists|p: int|
                    0 <= p < k && final(self)@.indices[p] == final(self)@.indices[k] - 1,
    {
        let ghost old_model = self@;
        let ghost nv = old_model.vertex_count();
        let vs = to_triples(&self.vertices);
        assert(vs@.map_values(|v: [u32; 3]| v@) =~= triples(self.vertices@));
        let (vertex_count, remap_table) = generate_vertex_remap(&vs, &simplified);
        let new_vs = remap_vertex_buffer(&vs, vertex_count, &remap_table, [0, 0, 0]);
        let uvs = to_pairs(&self.texcoords);
        let new_uvs = remap_vertex_buffer(&uvs, vertex_count, &remap_table, [0, 0]);
        let new_indices = remap_index_buffer(&simplified, &remap_table);
        let vertices = flatten_triples(&new_vs);
        let texcoords = flatten_pairs(&new_uvs);
        proof {
            assert forall|k: int| 0 <= k < vertex_count implies last_source(remap_table@, nv, k) >= 0
                && #[trigger] new_vs@[k] == vs@[last_source(remap_table@, nv, k)]
                && new_uvs@[k] == uvs@[last_source(remap_table@, nv, k)] by {
                lemma_last_source(remap_table@, nv, k);
            }
            lemma_flat_triples_regroup(old_model.vertices, remap_table@, vertex_count as int, vs@, new_vs@, vertices@);
            lemma_flat_pairs_regroup(old_model.texcoords, remap_table@, vertex_count as int, uvs@, new_uvs@, texcoords@);
            assert(new_indices@ =~= simplified@.map_values(|i: u32| remap_table@[i as int]));
            assert forall|i: int| 0 <= i < new_indices@.len() implies #[trigger] new_indices@[i] < vertex_count by {
                assert(referenced(simplified@, simplified@[i] as int));
            }
        }
        let mut attributes: Vec<(String, Vec<u32>)> = Vec::new();
        std::mem::swap(&mut attributes, &mut self.attributes);
        let mut normals: Option<Vec<u32>> = None;
        std::mem::swap(&mut normals, &mut self.normals);
        *self = Mesh { vertices, indices: new_indices, texcoords, attributes, normals };
        proof {
            assert forall|i: int| 0 <= i < simplified@.len() implies #[trigger] triples(self@.vertices)[self@.indices[i] as int]
                == triples(old_model.vertices)[simplified@[i] as int] by {
                let s = simplified@[i] as int;
                let k = self@.indices[i] as int;
                lemma_last_source(remap_table@, nv, k);
                let src = last_source(remap_table@, nv, k);
                assert(referenced(simplified@, s));
                assert(remap_table@[src] != u32::MAX);
                assert(referenced(simplified@, src));
                assert(vs@[src]@ == vs@[s]@);
                assert(triples(self@.vertices)[k] =~= new_vs@[k]@);
            }
            assert(vertex_remap_of(triples(old_model.vertices), simplified@).1 == remap_table@);
            assert forall|k: int| 0 <= k < vertex_count implies #[trigger] triples(self@.vertices)[k]
                == triples(old_model.vertices)[last_source(remap_table@, nv, k)] by {
                lemma_last_source(remap_table@, nv, k);
                assert(triples(self@.vertices)[k] =~= new_vs@[k]@);
            }
            lemma_merged_numbering(
                triples(old_model.vertices),
                simplified@,
                remap_table@,
                vertex_count as int,
                triples(self@.vertices),
                self@.indices,
            );
            assert forall|k: int| 0 <= k < self@.vertex_count() implies #[trigger] referenced(self@.indices, k) by {
                lemma_last_source(remap_table@, nv, k);
                let src = last_source(remap_table@, nv, k);
                assert(remap_table@[src] != u32::MAX);
                assert(referenced(simplified@, src));
                let p = choose|p: int| 0 <= p < simplified@.len() && simplified@[p] == src;
                assert(self@.indices[p] == k);
            }
            assert forall|k: int| 0 <= k < self@.vertex_count() implies #[trigger] copies_old_vertex(
                self@,
                old_model,
                remap_table@,
                k,
            ) by {
                lemma_last_source(remap_table@, nv, k);
                let src = last_source(remap_table@, nv, k);
                assert(triples(self@.vertices)[k] =~= new_vs@[k]@);
                assert(pairs(self@.texcoords)[k] =~= new_uvs@[k]@);
                assert(vs@[src]@ == triples(old_model.vertices)[src]);
                assert(uvs@[src]@ =~= pairs(old_model.texcoords)[src]);
            }
        }
    }
}

impl Mesh {
    /// The names of the attributes with one value per vertex, in order, and for each the
    /// position of the first attribute of that name.
    fn extra_columns(&self, vertex_count: usize) -> (res: (Vec<String>, Vec<usize>))
        ensures
            res.0@.map_values(|k: String| k@) == extra_keys(
                self@.attributes,
                vertex_count as int,
                self@.attributes.len() as int,
            ),
            res.1@.len() == res.0@.len(),
            forall|c: int|
                0 <= c < res.1@.len() ==> #[trigger] res.1@[c] < self@.attributes.len() && res.1@[c]
                    == first_named(self@.attributes, res.0@[c]@, self@.attributes.len() as int),
    {
        let ghost attrs = self@.attributes;
        let n = self.attributes.len();
        let mut keys: Vec<String> = Vec::new();
        let mut sources: Vec<usize> = Vec::new();
        let mut j: usize = 0;
        while j < n
            invariant
                n == self.attributes@.len(),
                attrs == self@.attributes,
                j <= n,
                keys@.map_values(|k: String| k@) == extra_keys(attrs, vertex_count as int, j as int),
                sources@.len() == keys@.len(),
                forall|c: int|
                    0 <= c < sources@.len() ==> #[trigger] sources@[c] < n && attrs[sources@[c] as int].0
                        == keys@[c]@,
            decreases n - j,
        {
            assert(attrs[j as int] == attribute_view(self.attributes@[j as int]));
            if self.attributes[j].1.len() == vertex_count {
                let ghost before = keys@.map_values(|k: String| k@);
                keys.push(self.attributes[j].0.clone());
                sources.push(j);
                assert(keys@.map_values(|k: String| k@) =~= before.push(attrs[j as int].0));
            } else {
                assert(extra_keys(attrs, vertex_count as int, j + 1) =~= extra_keys(
                    attrs,
                    vertex_count as int,
                    j as int,
                ));
            }
            j = j + 1;
        }
        let mut positions: Vec<usize> = Vec::new();
        let mut c: usize = 0;
        while c < keys.len()
            invariant
                n == self.attributes@.len(),
                attrs == self@.attributes,
                sources@.len() == keys@.len(),
                forall|c: int|
                    0 <= c < sources@.len() ==> #[trigger] sources@[c] < n && attrs[sources@[c] as int].0
                        == keys@[c]@,
                c <= keys@.len(),
                positions@.len() == c,
                forall|k: int|
                    0 <= k < c ==> #[trigger] positions@[k] < n && positions@[k] == first_named(
                        attrs,
                        keys@[k]@,
                        n as int,
                    ),
            decreases keys@.len() - c,
        {
            let target = sources[c];
            let mut p: usize = 0;
            let mut found = false;
            while !found && p < target
                invariant
                    n == self.attributes@.len(),
                    attrs == self@.attributes,
                    target < n,
                    attrs[target as int].0 == keys@[c as int]@,
                    c < keys@.len(),
                    p <= target,
                    found ==> p < target && attrs[p as int].0 == keys@[c as int]@,
                    forall|q: int| 0 <= q < p ==> attrs[q].0 != keys@[c as int]@,
                decreases target - p + (if found { 0int } else { 1int }),
            {
                assert(attrs[p as int] == attribute_view(self.attributes@[p as int]));
                if self.attributes[p].0 == keys[c] {
                    found = true;
                } else {
                    p = p + 1;
                }
            }
            proof {
                lemma_first_named(attrs, keys@[c as int]@, n as int);
                let f = first_named(attrs, keys@[c as int]@, n as int);
                assert(f >= 0);
                if f < p {
                    assert(attrs[f].0 != keys@[c as int]@);
                }
                if p < f {
                    assert(attrs[p as int].0 == keys@[c as int]@);
                }
            }
            positions.push(p);
            c = c + 1;
        }
        (keys, positions)
    }

    /// Appends the words of vertex `i` in each extra column.
    fn push_columns(&self, out: &mut Vec<u8>, positions: &Vec<usize>, i: usize)
        requires
            forall|c: int|
                0 <= c < positions@.len() ==> #[trigger] positions@[c] < self@.attributes.len()
                    && i < self@.attributes[positions@[c] as int].1.len(),
        ensures
            final(out)@ == old(out)@ + column_bytes(
                positions@.map_values(|p: usize| self@.attributes[p as int].1),
                i as int,
            ),
    {
        let ghost cols = positions@.map_values(|p: usize| self@.attributes[p as int].1);
        let mut c: usize = 0;
        while c < positions.len()
            invariant
                forall|c: int|
                    0 <= c < positions@.len() ==> #[trigger] positions@[c] < self@.attributes.len()
                        && i < self@.attributes[positions@[c] as int].1.len(),
                cols == positions@.map_values(|p: usize| self@.attributes[p as int].1),
                c <= positions@.len(),
                out@ == old(out)@ + column_bytes(cols.take(c as int), i as int),
            decreases positions@.len() - c,
        {
            let p = positions[c];
            assert(self@.attributes[p as int] == attribute_view(self.attributes@[p as int]));
            push_le_u32(out, self.attributes[p].1[i]);
            proof {
                assert(cols.take(c + 1).drop_last() =~= cols.take(c as int));
                assert(out@ =~= old(out)@ + column_bytes(cols.take(c + 1), i as int));
            }
            c = c + 1;
        }
        assert(cols.take(positions@.len() as int) =~= cols);
    }

    /// Appends the record of vertex `i`.
    fn push_vertex(&self, out: &mut Vec<u8>, flipped_t: &Vec<u32>, positions: &Vec<usize>, i: usize)
        requires
            self@.normals matches Some(n) ==> n.len() >= self@.vertices.len(),
            i < self@.vertex_count(),
            self@.texcoords.len() > 0 ==> 2 * i + 1 < self@.texcoords.len() && i < flipped_t@.len(),
            forall|c: int|
                0 <= c < positions@.len() ==> #[trigger] positions@[c] < self@.attributes.len()
                    && i < self@.attributes[positions@[c] as int].1.len(),
        ensures
            final(out)@ == old(out)@ + vertex_record(
                self@.vertices,
                self@.normals,
                self@.texcoords,
                flipped_t@,
                positions@.map_values(|p: usize| self@.attributes[p as int].1),
                i as int,
            ),
    {
        let ghost start = out@;
        let ghost m = self@;
        let vlen = self.vertices.len();
        assert(3 * i + 3 <= vlen);
        push_triple(out, &self.vertices, 3 * i);
        let ghost s1 = out@;
        match &self.normals {
            Some(n) => {
                assert(m.normals == Some(n@));
                push_triple(out, n, 3 * i);
            },
            None => {},
        }
        let ghost normal_part: Seq<u8> = match m.normals {
            Some(n) => crate::ply::triple_bytes(n, 3 * i),
            None => Seq::empty(),
        };
        assert(out@ =~= s1 + normal_part);
        let ghost s2 = out@;
        if self.texcoords.len() > 0 {
            push_le_u32(out, self.texcoords[2 * i]);
            push_le_u32(out, flipped_t[i]);
        }
        let ghost tex_part: Seq<u8> = if m.texcoords.len() > 0 {
            crate::encoding::le_bytes(m.texcoords[2 * i]) + crate::encoding::le_bytes(flipped_t@[i as int])
        } else {
            Seq::empty()
        };
        assert(out@ =~= s2 + tex_part);
        let ghost s3 = out@;
        self.push_columns(out, positions, i);
        let ghost cols = positions@.map_values(|p: usize| self@.attributes[p as int].1);
        assert(out@ == s3 + column_bytes(cols, i as int));
        reveal(vertex_record);
        assert(vertex_record(m.vertices, m.normals, m.texcoords, flipped_t@, cols, i as int)
            == crate::ply::triple_bytes(m.vertices, 3 * i) + normal_part + tex_part + column_bytes(cols, i as int));
        assert(out@ =~= start + vertex_record(m.vertices, m.normals, m.texcoords, flipped_t@, cols, i as int));
    }

    /// Encodes the mesh as a binary little-endian PLY file, appended to `out`.
    ///
    /// `flipped_t[i]` is the word to store as the second texture coordinate of vertex `i`
    /// (the bit pattern of one minus its stored value). When the mesh has texture
    /// coordinates but not two per vertex, nothing is written and the error says so.
    #[verifier::rlimit(30)]
    pub fn write(&self, flipped_t: &Vec<u32>, out: &mut Vec<u8>) -> (res: Result<(), MeshError>)
        requires
            !texcoords_mismatch(self@) ==> {
                &&& self@.normals matches Some(n) ==> n.len() >= self@.vertices.len()
                &&& flipped_t@.len() == self@.texcoords.len() / 2
                &&& columns_cover(self@.attributes, self@.vertex_count())
            },
        ensures
            res is Err <==> texcoords_mismatch(self@),
            res is Err ==> res == Err::<(), MeshError>(MeshError::TexcoordsMismatch) && final(out)@
                == old(out)@,
            res is Ok ==> final(out)@ == old(out)@ + ply_bytes(self@, flipped_t@),
    {
        let num_vertices = self.vertices.len() / 3;
        let num_faces = self.indices.len() / 3;
        let has_texcoords = self.texcoords.len() > 0;
        if has_texcoords && self.texcoords.len() / 2 != num_vertices {
            return Err(MeshError::TexcoordsMismatch);
        }
        let ghost m = self@;
        let (extra_keys_exec, positions) = self.extra_columns(num_vertices);
        let ghost keys = extra_keys(m.attributes, num_vertices as int, m.attributes.len() as int);
        let ghost cols = positions@.map_values(|p: usize| self@.attributes[p as int].1);
        proof {
            assert forall|c: int| 0 <= c < positions@.len() implies #[trigger] positions@[c]
                < m.attributes.len() && num_vertices <= m.attributes[positions@[c] as int].1.len() by {
                assert(keys[c] == extra_keys_exec@[c]@);
                lemma_extra_key_source(m.attributes, num_vertices as int, m.attributes.len() as int, c);
            }
            assert(cols =~= extra_columns(m.attributes, keys));
        }
        let ghost start = out@;
        push_header(
            out,
            num_vertices,
            num_faces,
            self.normals.is_some(),
            has_texcoords,
            &extra_keys_exec,
        );
        let ghost after_header = out@;
        let mut i: usize = 0;
        while i < num_vertices
            invariant
                m == self@,
                m.normals matches Some(n) ==> n.len() >= m.vertices.len(),
                num_vertices == m.vertex_count(),
                flipped_t@.len() == m.texcoords.len() / 2,
                m.texcoords.len() > 0 ==> m.texcoords.len() / 2 == m.vertex_count(),
                cols == positions@.map_values(|p: usize| self@.attributes[p as int].1),
                forall|c: int|
                    0 <= c < positions@.len() ==> #[trigger] positions@[c] < m.attributes.len()
                        && num_vertices <= m.attributes[positions@[c] as int].1.len(),
                i <= num_vertices,
                out@ == after_header + vertex_records(
                    m.vertices,
                    m.normals,
                    m.texcoords,
                    flipped_t@,
                    cols,
                    i as int,
                ),
            decreases num_vertices - i,
        {
            self.push_vertex(out, flipped_t, &positions, i);
            assert(out@ =~= after_header + vertex_records(
                m.vertices,
                m.normals,
                m.texcoords,
                flipped_t@,
                cols,
                i + 1,
            ));
            i = i + 1;
        }
        push_faces(out, &self.indices, num_faces);
        proof {
            assert(extra_keys_exec@.map_values(|k: String| k@) == keys);
            reveal(ply_bytes);
            assert(out@ =~= start + ply_bytes(m, flipped_t@));
        }
        Ok(())
    }
}

/// An RGB image with one 32-bit float word per channel, row-major, three words per pixel.
pub struct Image {
    pub width: u32,
    pub height: u32,
    pub data: Vec<u32>,
}

impl Image {
    /// The data holds every pixel, and pixel positions fit 32-bit arithmetic.
    pub open spec fn wf(&self) -> bool {
        &&& self.width * self.height <= u32::MAX
        &&& self.data@.len() == 3 * (self.width * self.height)
    }
}

/// The word read for pixel coordinates `(x, y)`: coordinates beyond the last column or row
/// are moved onto it.
pub open spec fn sample_position(width: u32, height: u32, x: u32, y: u32, channel: int) -> int {
    let cx: int = if x < width - 1 { x as int } else { width - 1 };
    let cy: int = if y < height - 1 { y as int } else { height - 1 };
    3 * (cy * width + cx) + channel
}

/// One channel of the image read at each pair of pixel coordinates.
pub open spec fn sampled(width: u32, height: u32, data: Seq<u32>, coords: Seq<(u32, u32)>, channel: int) -> Seq<u32> {
    Seq::new(
        coords.len(),
        |i: int| data[sample_position(width, height, coords[i].0, coords[i].1, channel)],
    )
}

/// The mesh after sampling one image channel as a new attribute `name`: unchanged when
/// the channel does not exist, the image is empty or the texture coordinates do not match
/// the vertices.
pub open spec fn sample_model(
    m: MeshModel,
    name: Seq<char>,
    width: u32,
    height: u32,
    data: Seq<u32>,
    coords: Seq<(u32, u32)>,
    channel: int,
) -> MeshModel {
    if channel > 2 || width == 0 || height == 0 || m.texcoords.len() / 2 != m.vertex_count() {
        m
    } else {
        MeshModel {
            vertices: m.vertices,
            indices: m.indices,
            texcoords: m.texcoords,
            attributes: m.attributes.push((name, sampled(width, height, data, coords, channel))),
            normals: m.normals,
        }
    }
}

/// Sampling an existing channel of a non-empty image into a mesh whose texture
/// coordinates match its vertices appends exactly one attribute, named `name`, whose value
/// for vertex `i` is the channel word of pixel `(min(x_i, width - 1), min(y_i, height - 1))`,
/// whatever the image's shape; nothing else changes.
pub proof fn lemma_sample_appends(
    m: MeshModel,
    name: Seq<char>,
    width: u32,
    height: u32,
    data: Seq<u32>,
    coords: Seq<(u32, u32)>,
    channel: int,
)
    requires
        0 <= channel <= 2,
        width > 0,
        height > 0,
        m.texcoords.len() / 2 == m.vertex_count(),
    ensures
        ({
            let r = sample_model(m, name, width, height, data, coords, channel);
            &&& r.vertices == m.vertices
            &&& r.indices == m.indices
            &&& r.texcoords == m.texcoords
            &&& r.normals == m.normals
            &&& r.attributes.len() == m.attributes.len() + 1
            &&& r.attributes.take(m.attributes.len() as int) == m.attributes
            &&& r.attributes.last().0 == name
            &&& r.attributes.last().1.len() == coords.len()
            &&& forall|i: int|
                0 <= i < coords.len() ==> {
                    let x: int = if coords[i].0 < width - 1 { coords[i].0 as int } else { width - 1 };
                    let y: int = if coords[i].1 < height - 1 { coords[i].1 as int } else { height - 1 };
                    #[trigger] r.attributes.last().1[i] == data[3 * (y * width + x) + channel]
                }
        }),
{
    let r = sample_model(m, name, width, height, data, coords, channel);
    assert(r.attributes.take(m.attributes.len() as int) =~= m.attributes);
}

/// Sampling a channel that does not exist, or an empty image, leaves the mesh as it was.
pub proof fn lemma_sample_ignores(
    m: MeshModel,
    name: Seq<char>,
    width: u32,
    height: u32,
    data: Seq<u32>,
    coords: Seq<(u32, u32)>,
    channel: int,
)
    requires
        channel > 2 || width == 0 || height == 0,
    ensures
        sample_model(m, name, width, height, data, coords, channel) == m,
{
}

proof fn lemma_pixel_bound(w: int, h: int, x: int, y: int)
    by (nonlinear_arith)
    requires
        0 <= x < w,
        0 <= y < h,
    ensures
        0 <= y * w,
        y * w + x < w * h,
{
}

/// Where normals come from: an image sampled at each vertex's pixel coordinates, or
/// normals computed per vertex (three words per vertex).
pub enum NormalSource {
    Image(Image, Vec<(u32, u32)>),
    Computed(Vec<u32>),
}

impl Mesh {
    /// Reads one channel of `img` for every vertex and adds it as the attribute `name`.
    /// `coords[i]` are the pixel coordinates of vertex `i`, as rounded from its texture
    /// coordinates; each is moved onto the last column or row when it lies beyond.
    /// Nothing happens when the channel is not 0, 1 or 2 or the image is empty.
    pub fn sample(&mut self, name: &str, img: &Image, channel: usize, coords: &Vec<(u32, u32)>)
        requires
            old(self)@.wf(),
            img.wf(),
            coords@.len() == old(self)@.vertex_count(),
        ensures
            final(self)@.wf(),
            final(self)@ == sample_model(
                old(self)@,
                name@,
                img.width,
                img.height,
                img.data@,
                coords@,
                channel as int,
            ),
    {
        let vertex_count = self.vertices.len() / 3;
        let width = img.width;
        let height = img.height;
        if channel > 2 || width == 0 || height == 0 || self.texcoords.len() / 2 != vertex_count {
            return;
        }
        let ghost expected = sampled(width, height, img.data@, coords@, channel as int);
        let mut sampled_channel: Vec<u32> = Vec::new();
        let dlen = img.data.len();
        let mut i: usize = 0;
        while i < vertex_count
            invariant
                img.wf(),
                dlen == img.data@.len(),
                width == img.width,
                height == img.height,
                width > 0,
                height > 0,
                channel <= 2,
                coords@.len() == vertex_count,
                expected == sampled(width, height, img.data@, coords@, channel as int),
                i <= vertex_count,
                sampled_channel@ =~= expected.take(i as int),
            decreases vertex_count - i,
        {
            let (ux, uy) = coords[i];
            let x = if ux < width - 1 { ux } else { width - 1 };
            let y = if uy < height - 1 { uy } else { height - 1 };
            proof {
                lemma_pixel_bound(width as int, height as int, x as int, y as int);
            }
            let pixel_idx = ((y * width + x) as usize) * 3;
            let val = img.data[pixel_idx + channel];
            sampled_channel.push(val);
            i = i + 1;
        }
        let ghost old_attrs = self@.attributes;
        self.attributes.push((name.to_owned(), sampled_channel));
        proof {
            assert(sampled_channel@ =~= expected);
            assert(self@.attributes =~= old_attrs.push((name@, expected)));
        }
    }

    /// Gives the mesh normals: from an image, whose three channels become the attributes
    /// `nx`, `ny` and `nz`; or computed ones, which become the mesh's normals.
    pub fn compute_normal(&mut self, source: NormalSource)
        requires
            old(self)@.wf(),
            match source {
                NormalSource::Image(img, coords) => img.wf() && coords@.len() == old(self)@.vertex_count(),
                NormalSource::Computed(normals) => normals@.len() == old(self)@.vertices.len(),
            },
        ensures
            final(self)@.wf(),
            match source {
                NormalSource::Image(img, coords) => final(self)@ == sample_model(
                    sample_model(
                        sample_model(old(self)@, "nx"@, img.width, img.height, img.data@, coords@, 0),
                        "ny"@,
                        img.width,
                        img.height,
                        img.data@,
                        coords@,
                        1,
                    ),
                    "nz"@,
                    img.width,
                    img.height,
                    img.data@,
                    coords@,
                    2,
                ),
                NormalSource::Computed(normals) => final(self)@ == (MeshModel {
                    normals: Some(normals@),
                    ..old(self)@
                }),
            },
    {
        match source {
            NormalSource::Image(img, coords) => {
                self.sample("nx", &img, 0, &coords);
                self.sample("ny", &img, 1, &coords);
                self.sample("nz", &img, 2, &coords);
            },
            NormalSource::Computed(normals) => {
                self.normals = Some(normals);
            },
        }
    }

    /// Replaces the vertex coordinates, keeping their number.
    pub fn set_vertices(&mut self, vertices: Vec<u32>)
        requires
            old(self)@.wf(),
            vertices@.len() == old(self)@.vertices.len(),
        ensures
            final(self)@.wf(),
            final(self)@ == (MeshModel { vertices: vertices@, ..old(self)@ }),
    {
        self.vertices = vertices;
    }

    /// The vertex coordinates, three words per vertex.
    pub fn vertices(&self) -> (res: &Vec<u32>)
        ensures
            res@ == self@.vertices,
    {
        &self.vertices
    }

    /// The index buffer, three vertex numbers per triangle.
    pub fn indices(&self) -> (res: &Vec<u32>)
        ensures
            res@ == self@.indices,
    {
        &self.indices
    }

    /// The texture coordinates, two words per vertex.
    pub fn texcoords(&self) -> (res: &Vec<u32>)
        ensures
            res@ == self@.texcoords,
    {
        &self.texcoords
    }

    /// The normals, three words per vertex, when the mesh has them.
    pub fn normals(&self) -> (res: Option<&Vec<u32>>)
        ensures
            match res {
                Some(n) => self@.normals == Some(n@),
                None => self@.normals is None,
            },
    {
        match &self.normals {
            Some(n) => Some(n),
            None => None,
        }
    }

    /// The sampled attributes, each a name and one word per vertex.
    pub fn attributes(&self) -> (res: &Vec<(String, Vec<u32>)>)
        ensures
            res@.map_values(|a: (String, Vec<u32>)| attribute_view(a)) == self@.attributes,
    {
        &self.attributes
    }
}

impl Default for Mesh {
    /// The empty mesh: no vertices, triangles, texture coordinates, attributes or normals.
    fn default() -> (mesh: Self)
        ensures
            mesh@.wf(),
            mesh@ == (MeshModel {
                vertices: Seq::empty(),
                indices: Seq::empty(),
                texcoords: Seq::empty(),
                attributes: Seq::empty(),
                normals: None,
            }),
    {
        let mesh = Mesh {
            vertices: Vec::new(),
            indices: Vec::new(),
            texcoords: Vec::new(),
            attributes: Vec::new(),
            normals: None,
        };
        assert(mesh@.attributes =~= Seq::empty());
        mesh
    }
}

} // verus!
