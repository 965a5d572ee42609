use crate::grid::all_below;
use vstd::prelude::*;

verus! {

/// How many of the first `end` entries of the index buffer name vertex `v`.
pub open spec fn occurrences(indices: Seq<u32>, v: int, end: int) -> nat
    decreases end,
{
    if end <= 0 {
        0
    } else {
        occurrences(indices, v, end - 1) + (if indices[end - 1] == v {
            1nat
        } else {
            0nat
        })
    }
}

pub proof fn lemma_occurrences_monotone(indices: Seq<u32>, v: int, end: int, last: int)
    requires
        0 <= end <= last,
    ensures
        occurrences(indices, v, end) <= occurrences(indices, v, last),
    decreases last,
{
    if end < last {
        lemma_occurrences_monotone(indices, v, end, last - 1);
    }
}

/// Whether an index buffer entry names vertex `v`.
pub open spec fn naming(v: int) -> spec_fn(u32) -> bool {
    |x: u32| x == v
}

proof fn lemma_occurrences_prefix(indices: Seq<u32>, v: int, end: int)
    requires
        0 <= end <= indices.len(),
    ensures
        occurrences(indices, v, end) == indices.take(end).filter(naming(v)).len(),
    decreases end,
{
    reveal(Seq::filter);
    if end > 0 {
        lemma_occurrences_prefix(indices, v, end - 1);
        assert(indices.take(end).drop_last() =~= indices.take(end - 1));
        assert(indices.take(end).last() == indices[end - 1]);
    } else {
        assert(indices.take(0).len() == 0);
    }
}

/// The number of uses of a vertex is exactly the number of entries of the index buffer
/// equal to it, however many there are.
pub proof fn lemma_occurrences_count(indices: Seq<u32>, v: int)
    ensures
        occurrences(indices, v, indices.len() as int) == indices.filter(naming(v)).len(),
{
    lemma_occurrences_prefix(indices, v, indices.len() as int);
    assert(indices.take(indices.len() as int) =~= indices);
}

/// One more entry naming `v` raises its number of uses by one; an entry naming another
/// vertex leaves it unchanged.
pub proof fn lemma_occurrences_push(indices: Seq<u32>, x: u32, v: int)
    ensures
        occurrences(indices.push(x), v, indices.len() + 1int) == occurrences(indices, v, indices.len() as int)
            + (if x == v {
            1int
        } else {
            0int
        }),
{
    lemma_occurrences_count(indices, v);
    lemma_occurrences_count(indices.push(x), v);
    reveal(Seq::filter);
    assert(indices.push(x).drop_last() =~= indices);
}

/// The weights of Laplacian smoothing: for each vertex, how many neighbour positions the
/// triangles add to its average. Each corner of a triangle adds the two other corners, so
/// a vertex gets two for every time the index buffer names it.
pub fn neighbor_counts(indices: &Vec<u32>, vertex_count: usize) -> (counts: Vec<u32>)
    requires
        indices@.len() % 3 == 0,
        all_below(indices@, vertex_count as int),
        forall|v: int| 0 <= v < vertex_count ==> 2 * #[trigger] occurrences(indices@, v, indices@.len() as int) <= i32::MAX,
    ensures
        counts@.len() == vertex_count,
        forall|v: int| 0 <= v < vertex_count ==> #[trigger] counts@[v] == 2 * occurrences(indices@, v, indices@.len() as int),
        forall|v: int|
            0 <= v < vertex_count ==> #[trigger] counts@[v] == 2 * indices@.filter(naming(v)).len(),
{
    let mut counts: Vec<u32> = Vec::new();
    let mut v: usize = 0;
    while v < vertex_count
        invariant
            v <= vertex_count,
            counts@.len() == v,
            forall|u: int| 0 <= u < v ==> #[trigger] counts@[u] == 0,
        decreases vertex_count - v,
    {
        counts.push(0);
        v = v + 1;
    }
    let n = indices.len();
    let mut face: usize = 0;
    while face < n / 3
        invariant
            n == indices@.len(),
            n % 3 == 0,
            forall|v: int| 0 <= v < vertex_count ==> 2 * #[trigger] occurrences(indices@, v, n as int) <= i32::MAX,
            all_below(indices@, vertex_count as int),
            face <= n / 3,
            counts@.len() == vertex_count,
            forall|u: int| 0 <= u < vertex_count ==> #[trigger] counts@[u] == 2 * occurrences(indices@, u, 3 * face),
        decreases n / 3 - face,
    {
        let mut i: usize = 0;
        while i < 3
            invariant
                n == indices@.len(),
                n % 3 == 0,
                forall|v: int| 0 <= v < vertex_count ==> 2 * #[trigger] occurrences(indices@, v, n as int) <= i32::MAX,
                all_below(indices@, vertex_count as int),
                face < n / 3,
                i <= 3,
                counts@.len() == vertex_count,
                forall|u: int| 0 <= u < vertex_count ==> #[trigger] counts@[u] == 2 * occurrences(indices@, u, 3 * face + i),
            decreases 3 - i,
        {
            let v_idx = indices[3 * face + i] as usize;
            proof {
                lemma_occurrences_monotone(indices@, v_idx as int, 3 * face + i + 1, n as int);
                assert(2 * occurrences(indices@, v_idx as int, n as int) <= i32::MAX);
            }
            let c = counts[v_idx];
            counts.set(v_idx, c + 2);
            i = i + 1;
        }
        face = face + 1;
    }
    assert(3 * face == n);
    assert forall|v: int| 0 <= v < vertex_count implies #[trigger] counts@[v] == 2 * indices@.filter(naming(v)).len() by {
        lemma_occurrences_count(indices@, v);
        assert(counts@[v] == 2 * occurrences(indices@, v, n as int));
    }
    counts
}

} // verus!
