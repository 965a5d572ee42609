use vstd::prelude::*;

verus! {

/// What `meshopt::generate_vertex_remap` returns for a vertex buffer (each vertex taken by
/// its words) and an index buffer: the number of unique vertices and the remap table.
pub uninterp spec fn vertex_remap_of(vertices: Seq<Seq<u32>>, indices: Seq<u32>) -> (usize, Seq<u32>);

/// Vertex `i` is named by some entry of the index buffer.
pub open spec fn referenced(indices: Seq<u32>, i: int) -> bool {
    exists|k: int| 0 <= k < indices.len() && indices[k] == i
}

/// The last position before `end` whose remap entry is `k`, or -1 when there is none.
pub open spec fn last_source(remap: Seq<u32>, end: int, k: int) -> int
    decreases end,
{
    if end <= 0 {
        -1
    } else if remap[end - 1] == k {
        end - 1
    } else {
        last_source(remap, end - 1, k)
    }
}

/// The last source of slot `k` is a position before `end` whose entry is `k`, no later
/// position has entry `k`, and there is one whenever some entry is `k`.
pub proof fn lemma_last_source(remap: Seq<u32>, end: int, k: int)
    requires
        0 <= end <= remap.len(),
    ensures
        last_source(remap, end, k) < end,
        last_source(remap, end, k) >= 0 ==> remap[last_source(remap, end, k)] == k,
        (exists|i: int| 0 <= i < end && remap[i] == k) ==> last_source(remap, end, k) >= 0,
        forall|i: int| last_source(remap, end, k) < i < end ==> remap[i] != k,
    decreases end,
{
    if end > 0 {
        lemma_last_source(remap, end - 1, k);
        if remap[end - 1] != k {
            assert forall|i: int| 0 <= i < end && remap[i] == k implies 0 <= i < end - 1 && remap[i] == k by {
            }
        }
    }
}

/// Calls `meshopt::generate_vertex_remap` with an index buffer.
///
/// Claimed of it, as its documentation and its C source (`generateVertexRemap`) show:
/// the table has one entry per vertex; the vertices the index buffer names get numbers
/// below the returned count and every number below it is used (no gaps); two named
/// vertices get the same number exactly when their words are equal; every vertex the
/// index buffer does not name is marked `u32::MAX`; numbers are handed out in order of
/// first use along the index buffer, so a number above zero is only met after the number
/// below it. Together these fix the table; `vertex_remap_of` names it.
#[verifier::external_body]
pub(crate) fn generate_vertex_remap(vertices: &Vec<[u32; 3]>, indices: &Vec<u32>) -> (res: (usize, Vec<u32>))
    requires
        vertices@.len() < u32::MAX,
        forall|k: int| 0 <= k < indices@.len() ==> indices@[k] < vertices@.len(),
    ensures
        (res.0, res.1@) == vertex_remap_of(vertices@.map_values(|v: [u32; 3]| v@), indices@),
        res.1@.len() == vertices@.len(),
        res.0 <= vertices@.len(),
        forall|i: int|
            0 <= i < vertices@.len() ==> (#[trigger] res.1@[i] != u32::MAX <==> referenced(indices@, i)),
        forall|i: int| 0 <= i < vertices@.len() && #[trigger] res.1@[i] != u32::MAX ==> res.1@[i] < res.0,
        forall|i: int, j: int|
            0 <= i < vertices@.len() && 0 <= j < vertices@.len() && referenced(indices@, i)
                && referenced(indices@, j) ==> (#[trigger] res.1@[i] == #[trigger] res.1@[j]
                <==> vertices@[i]@ == vertices@[j]@),
        forall|k: int| 0 <= k < res.0 ==> #[trigger] last_source(res.1@, vertices@.len() as int, k) >= 0,
        forall|k: int|
            0 <= k < indices@.len() && #[trigger] res.1@[indices@[k] as int] > 0 ==> exists|p: int|
                0 <= p < k && res.1@[indices@[p] as int] == res.1@[indices@[k] as int] - 1,
{
    meshopt::generate_vertex_remap(vertices.as_slice(), Some(indices.as_slice()))
}

/// The record a remap table puts in slot `k`: that of the last vertex sent there, or
/// `blank` when none is.
pub open spec fn remapped_record<T>(records: Seq<T>, remap: Seq<u32>, k: int, blank: T) -> T {
    let src = last_source(remap, records.len() as int, k);
    if src >= 0 {
        records[src]
    } else {
        blank
    }
}

/// Lays out a vertex buffer by a remap table, as `meshopt::remap_vertex_buffer` does:
/// `vertex_count` slots, each vertex whose entry is not `u32::MAX` copied to the slot its
/// entry names, later vertices overwriting earlier ones; slots no vertex reaches hold
/// `blank`.
pub fn remap_vertex_buffer<T: Copy>(records: &Vec<T>, vertex_count: usize, remap: &Vec<u32>, blank: T) -> (res: Vec<T>)
    requires
        vertex_count <= u32::MAX,
        records@.len() <= remap@.len(),
        forall|i: int| 0 <= i < records@.len() ==> #[trigger] remap@[i] == u32::MAX || remap@[i] < vertex_count,
    ensures
        res@.len() == vertex_count,
        forall|k: int| 0 <= k < vertex_count ==> #[trigger] res@[k] == remapped_record(records@, remap@, k, blank),
{
    let mut res: Vec<T> = Vec::new();
    let mut k: usize = 0;
    while k < vertex_count
        invariant
            k <= vertex_count,
            res@.len() == k,
            forall|j: int| 0 <= j < k ==> #[trigger] res@[j] == blank,
        decreases vertex_count - k,
    {
        res.push(blank);
        k = k + 1;
    }
    let n = records.len();
    let mut i: usize = 0;
    while i < n
        invariant
            n == records@.len(),
            n <= remap@.len(),
            vertex_count <= u32::MAX,
            forall|i: int| 0 <= i < records@.len() ==> #[trigger] remap@[i] == u32::MAX || remap@[i] < vertex_count,
            i <= n,
            res@.len() == vertex_count,
            forall|j: int|
                0 <= j < vertex_count ==> #[trigger] res@[j] == (if last_source(remap@, i as int, j) >= 0 {
                    records@[last_source(remap@, i as int, j)]
                } else {
                    blank
                }),
        decreases n - i,
    {
        let target = remap[i];
        let ghost before = res@;
        if target != u32::MAX {
            let record: T = records[i];
            res.set(target as usize, record);
        }
        proof {
            assert forall|j: int| 0 <= j < vertex_count implies #[trigger] res@[j] == (if last_source(
                remap@,
                i + 1,
                j,
            ) >= 0 {
                records@[last_source(remap@, i + 1, j)]
            } else {
                blank
            }) by {
                lemma_last_source(remap@, i as int, j);
                if remap@[i as int] == j {
                    assert(last_source(remap@, i + 1, j) == i);
                } else {
                    assert(last_source(remap@, i + 1, j) == last_source(remap@, i as int, j));
                }
            }
        }
        i = i + 1;
    }
    res
}

/// Translates an index buffer through a remap table, as `meshopt::remap_index_buffer`
/// does: entry `i` of the result is the table entry of index `i`.
pub fn remap_index_buffer(indices: &Vec<u32>, remap: &Vec<u32>) -> (res: Vec<u32>)
    requires
        forall|i: int| 0 <= i < indices@.len() ==> indices@[i] < remap@.len(),
    ensures
        res@ == indices@.map_values(|v: u32| remap@[v as int]),
{
    let mut res: Vec<u32> = Vec::new();
    let mut i: usize = 0;
    while i < indices.len()
        invariant
            forall|i: int| 0 <= i < indices@.len() ==> indices@[i] < remap@.len(),
            i <= indices@.len(),
            res@ =~= indices@.take(i as int).map_values(|v: u32| remap@[v as int]),
        decreases indices@.len() - i,
    {
        res.push(remap[indices[i] as usize]);
        i = i + 1;
    }
    assert(indices@.take(indices@.len() as int) =~= indices@);
    res
}

} // verus!
