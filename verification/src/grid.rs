use std::collections::HashMap;
use vstd::prelude::*;

verus! {

broadcast use vstd::std_specs::hash::group_hash_axioms;

/// A depth image after projection, with every per-pixel decision already taken.
///
/// Pixels are stored row-major; pixel `p` sits at column `p % width`, row `p / width`.
/// `points` holds three coordinate words per pixel and `texcoords` two texture words,
/// each word the bit pattern of an `f32`. `present` says whether a pixel becomes a vertex.
/// The grid has `(width - 1) * (height - 1)` cells, row-major; cell `(x, y)` spans pixels
/// `(x, y)`, `(x + 1, y)`, `(x, y + 1)` and `(x + 1, y + 1)`. `upper_faces` says whether the
/// triangle over its first three pixels passes the face test, `lower_faces` the triangle
/// over `(x + 1, y)`, `(x + 1, y + 1)`, `(x, y + 1)`.
pub struct DepthGrid {
    pub width: u32,
    pub height: u32,
    pub points: Vec<u32>,
    pub texcoords: Vec<u32>,
    pub present: Vec<bool>,
    pub upper_faces: Vec<bool>,
    pub lower_faces: Vec<bool>,
}

/// Number of pixels among `present[0..end]` that become vertices.
pub open spec fn present_before(present: Seq<bool>, end: int) -> nat
    decreases end,
{
    if end <= 0 {
        0
    } else {
        present_before(present, end - 1) + (if present[end - 1] {
            1nat
        } else {
            0nat
        })
    }
}

/// The `stride`-word records of the present pixels among the first `end`, in order.
pub open spec fn gather(data: Seq<u32>, present: Seq<bool>, stride: int, end: int) -> Seq<u32>
    decreases end,
{
    if end <= 0 {
        Seq::empty()
    } else {
        gather(data, present, stride, end - 1) + (if present[end - 1] {
            data.subrange(stride * (end - 1), stride * end)
        } else {
            Seq::empty()
        })
    }
}

/// Maps each present pixel among the first `end` to its vertex number.
pub open spec fn pixel_index_map(present: Seq<bool>, end: int) -> Map<usize, u32> {
    Map::new(
        |p: usize| p < end && present[p as int],
        |p: usize| present_before(present, p as int) as u32,
    )
}

impl DepthGrid {
    pub open spec fn pixel_count(&self) -> int {
        self.width * self.height
    }

    pub open spec fn cell_count(&self) -> int {
        (self.width - 1) * (self.height - 1)
    }

    /// The grid is large enough to triangulate and every per-pixel and per-cell vector has
    /// its length; its pixel records fit the 32-bit arithmetic that indexes them.
    pub open spec fn wf(&self) -> bool {
        &&& self.height >= 1
        &&& self.height >= 2 ==> self.width >= 1
        &&& 3 * self.pixel_count() <= u32::MAX
        &&& self.points@.len() == 3 * self.pixel_count()
        &&& self.texcoords@.len() == 2 * self.pixel_count()
        &&& self.present@.len() == self.pixel_count()
        &&& self.upper_faces@.len() == self.cell_count()
        &&& self.lower_faces@.len() == self.cell_count()
    }

    /// Vertex number of pixel `p`: how many present pixels come before it.
    pub open spec fn vertex_of(&self, p: int) -> u32 {
        present_before(self.present@, p) as u32
    }

    /// Coordinates of the vertices: the points of the present pixels, in pixel order.
    pub open spec fn spec_vertices(&self) -> Seq<u32> {
        gather(self.points@, self.present@, 3, self.pixel_count())
    }

    /// Texture coordinates of the vertices, in the same order.
    pub open spec fn spec_texcoords(&self) -> Seq<u32> {
        gather(self.texcoords@, self.present@, 2, self.pixel_count())
    }

    /// The triangles contributed by cell `(x, y)`.
    pub open spec fn cell_triangles(&self, y: int, x: int) -> Seq<u32> {
        let w = self.width as int;
        let a = y * w + x;
        let b = a + 1;
        let c = a + w;
        let d = c + 1;
        let cell = y * (w - 1) + x;
        let pr = self.present@;
        (if pr[a] && pr[b] && pr[c] && self.upper_faces@[cell] {
            seq![self.vertex_of(a), self.vertex_of(b), self.vertex_of(c)]
        } else {
            Seq::empty()
        }) + (if pr[b] && pr[d] && pr[c] && self.lower_faces@[cell] {
            seq![self.vertex_of(b), self.vertex_of(d), self.vertex_of(c)]
        } else {
            Seq::empty()
        })
    }

    /// The triangles of the first `x` cells of row `y`.
    pub open spec fn row_triangles(&self, y: int, x: int) -> Seq<u32>
        decreases x,
    {
        if x <= 0 {
            Seq::empty()
        } else {
            self.row_triangles(y, x - 1) + self.cell_triangles(y, x - 1)
        }
    }

    /// The triangles of the first `y` rows of cells.
    pub open spec fn rows_triangles(&self, y: int) -> Seq<u32>
        decreases y,
    {
        if y <= 0 {
            Seq::empty()
        } else {
            self.rows_triangles(y - 1) + self.row_triangles(y - 1, self.width - 1)
        }
    }

    /// The index buffer of the whole grid: every cell in row-major order.
    pub open spec fn spec_indices(&self) -> Seq<u32> {
        self.rows_triangles(self.height - 1)
    }
}

proof fn lemma_cell_bounds(w: int, h: int, y: int, x: int)
    by (nonlinear_arith)
    requires
        1 <= w,
        2 <= h,
        0 <= y < h - 1,
        0 <= x < w - 1,
    ensures
        0 <= y * w,
        y * w + w + x + 1 < w * h,
        0 <= y * (w - 1),
        y * (w - 1) + x < (w - 1) * (h - 1),
        (w - 1) * (h - 1) <= w * h,
{
}

proof fn lemma_row_step(w: int, h: int, y: int)
    by (nonlinear_arith)
    requires
        1 <= w,
        0 <= y < h - 1,
    ensures
        (y + 1) * (w - 1) == y * (w - 1) + (w - 1),
        (y + 1) * w == y * w + w,
        (y + 1) * w <= w * h,
{
}

/// Walks the pixels in order and gives each present one the next vertex number,
/// collecting its point and texture coordinates.
pub(crate) fn collect_vertices(grid: &DepthGrid) -> (res: (Vec<u32>, Vec<u32>, HashMap<usize, u32>))
    requires
        grid.wf(),
    ensures
        res.0@ == grid.spec_vertices(),
        res.0@.len() == 3 * present_before(grid.present@, grid.pixel_count()),
        res.1@ == grid.spec_texcoords(),
        res.1@.len() == 2 * present_before(grid.present@, grid.pixel_count()),
        res.2@ == pixel_index_map(grid.present@, grid.pixel_count()),
{
    let n: usize = (grid.width as usize) * (grid.height as usize);
    let mut vertices: Vec<u32> = Vec::new();
    let mut texcoords: Vec<u32> = Vec::new();
    let mut pixel2index: HashMap<usize, u32> = HashMap::new();
    let mut p: usize = 0;
    assert(pixel2index@ =~= pixel_index_map(grid.present@, 0));
    while p < n
        invariant
            grid.wf(),
            n == grid.pixel_count(),
            p <= n,
            present_before(grid.present@, p as int) <= p,
            vertices@ == gather(grid.points@, grid.present@, 3, p as int),
            vertices@.len() == 3 * present_before(grid.present@, p as int),
            texcoords@ == gather(grid.texcoords@, grid.present@, 2, p as int),
            texcoords@.len() == 2 * present_before(grid.present@, p as int),
            pixel2index@ == pixel_index_map(grid.present@, p as int),
        decreases n - p,
    {
        if grid.present[p] {
            let current_idx = (vertices.len() / 3) as u32;
            let ghost old_v = vertices@;
            let ghost old_t = texcoords@;
            vertices.push(grid.points[3 * p]);
            vertices.push(grid.points[3 * p + 1]);
            vertices.push(grid.points[3 * p + 2]);
            pixel2index.insert(p, current_idx);
            texcoords.push(grid.texcoords[2 * p]);
            texcoords.push(grid.texcoords[2 * p + 1]);
            assert(vertices@ =~= old_v + grid.points@.subrange(3 * p, 3 * (p + 1)));
            assert(texcoords@ =~= old_t + grid.texcoords@.subrange(2 * p, 2 * (p + 1)));
        } else {
            assert(gather(grid.points@, grid.present@, 3, p + 1) =~= vertices@);
            assert(gather(grid.texcoords@, grid.present@, 2, p + 1) =~= texcoords@);
        }
        p = p + 1;
        assert(pixel2index@ =~= pixel_index_map(grid.present@, p as int));
    }
    (vertices, texcoords, pixel2index)
}

/// The triangles of one cell, looked up through the pixel-to-vertex map.
fn cell_triangles(
    grid: &DepthGrid,
    pixel2index: &HashMap<usize, u32>,
    y: u32,
    x: u32,
    base: u32,
    cell: usize,
) -> (tris: Vec<u32>)
    requires
        grid.wf(),
        grid.width >= 1,
        pixel2index@ == pixel_index_map(grid.present@, grid.pixel_count()),
        y < grid.height - 1,
        x < grid.width - 1,
        base == y * grid.width,
        cell == y * (grid.width - 1) + x,
    ensures
        tris@ == grid.cell_triangles(y as int, x as int),
{
    let w = grid.width;
    proof {
        lemma_cell_bounds(w as int, grid.height as int, y as int, x as int);
    }
    let a: usize = (base + x) as usize;
    let b: usize = (base + (x + 1)) as usize;
    let c: usize = (base + w + x) as usize;
    let d: usize = (base + w + (x + 1)) as usize;
    let idx_0 = pixel2index.get(&a);
    let idx_1 = pixel2index.get(&b);
    let idx_2 = pixel2index.get(&c);
    let idx_3 = pixel2index.get(&d);
    let mut tris: Vec<u32> = Vec::new();
    if let Some(i0) = idx_0 {
        if let Some(i1) = idx_1 {
            if let Some(i2) = idx_2 {
                if grid.upper_faces[cell] {
                    tris.push(*i0);
                    tris.push(*i1);
                    tris.push(*i2);
                }
            }
        }
    }
    if let Some(i1) = idx_1 {
        if let Some(i2) = idx_2 {
            if let Some(i3) = idx_3 {
                if grid.lower_faces[cell] {
                    tris.push(*i1);
                    tris.push(*i3);
                    tris.push(*i2);
                }
            }
        }
    }
    proof {
        let pr = grid.present@;
        let yi = y as int;
        let xi = x as int;
        let wi = w as int;
        assert(a == yi * wi + xi);
        assert(c == yi * wi + xi + wi);
        assert(pixel2index@.contains_key(a) == pr[a as int]);
        assert(pixel2index@.contains_key(b) == pr[b as int]);
        assert(pixel2index@.contains_key(c) == pr[c as int]);
        assert(pixel2index@.contains_key(d) == pr[d as int]);
        assert(tris@ =~= grid.cell_triangles(yi, xi));
    }
    tris
}

/// Connects the vertices cell by cell: each cell contributes its upper triangle when its
/// three pixels are vertices and the face test passed, then its lower triangle likewise.
pub(crate) fn triangulate(grid: &DepthGrid, pixel2index: &HashMap<usize, u32>) -> (indices: Vec<u32>)
    requires
        grid.wf(),
        pixel2index@ == pixel_index_map(grid.present@, grid.pixel_count()),
    ensures
        indices@ == grid.spec_indices(),
{
    let w = grid.width;
    let h = grid.height;
    let mut indices: Vec<u32> = Vec::new();
    let mut y: u32 = 0;
    let mut base: u32 = 0;
    let mut cell: usize = 0;
    while y < h - 1
        invariant
            grid.wf(),
            w == grid.width,
            h == grid.height,
            pixel2index@ == pixel_index_map(grid.present@, grid.pixel_count()),
            y <= h - 1,
            base == y * w,
            cell == y * (w - 1),
            indices@ == grid.rows_triangles(y as int),
        decreases h - 1 - y,
    {
        let mut x: u32 = 0;
        while x < w - 1
            invariant
                grid.wf(),
                w == grid.width,
                h == grid.height,
                w >= 1,
                pixel2index@ == pixel_index_map(grid.present@, grid.pixel_count()),
                y < h - 1,
                x <= w - 1,
                base == y * w,
                cell == y * (w - 1) + x,
                indices@ == grid.rows_triangles(y as int) + grid.row_triangles(y as int, x as int),
            decreases w - 1 - x,
        {
            proof {
                lemma_cell_bounds(w as int, h as int, y as int, x as int);
            }
            let mut tris = cell_triangles(grid, pixel2index, y, x, base, cell);
            indices.append(&mut tris);
            assert(indices@ =~= grid.rows_triangles(y as int) + grid.row_triangles(y as int, x + 1));
            x = x + 1;
            cell = cell + 1;
        }
        proof {
            lemma_row_step(w as int, h as int, y as int);
        }
        assert(indices@ =~= grid.rows_triangles(y + 1));
        y = y + 1;
        base = base + w;
    }
    indices
}

/// Every vertex number is the count of present pixels before it: it never exceeds the
/// pixel's position, and a present pixel's number is below that of any later position.
pub proof fn lemma_present_before_bounds(present: Seq<bool>, p: int, q: int)
    requires
        0 <= p <= q <= present.len(),
    ensures
        present_before(present, p) <= p,
        present_before(present, p) <= present_before(present, q),
        p < q && present[p] ==> present_before(present, p) < present_before(present, q),
    decreases q,
{
    if p < q {
        lemma_present_before_bounds(present, p, q - 1);
    } else if p > 0 {
        lemma_present_before_bounds(present, p - 1, p - 1);
    }
}

/// Each entry of `s` is below `bound`.
pub open spec fn all_below(s: Seq<u32>, bound: int) -> bool {
    forall|i: int| 0 <= i < s.len() ==> s[i] < bound
}

proof fn lemma_all_below_concat(s: Seq<u32>, t: Seq<u32>, bound: int)
    requires
        all_below(s, bound),
        all_below(t, bound),
    ensures
        all_below(s + t, bound),
{
    assert forall|i: int| 0 <= i < (s + t).len() implies (s + t)[i] < bound by {
        if i >= s.len() {
            assert((s + t)[i] == t[i - s.len()]);
        }
    }
}

impl DepthGrid {
    /// The triangles of every cell refer to vertices that exist, and come in threes.
    pub proof fn lemma_cell_triangles_valid(&self, y: int, x: int)
        requires
            self.wf(),
            self.height >= 2,
            0 <= y < self.height - 1,
            0 <= x < self.width - 1,
        ensures
            all_below(self.cell_triangles(y, x), present_before(self.present@, self.pixel_count()) as int),
            self.cell_triangles(y, x).len() % 3 == 0,
    {
        let w = self.width as int;
        let n = self.pixel_count();
        lemma_cell_bounds(w, self.height as int, y, x);
        let a = y * w + x;
        let total = present_before(self.present@, n);
        lemma_present_before_bounds(self.present@, a, n);
        lemma_present_before_bounds(self.present@, a + 1, n);
        lemma_present_before_bounds(self.present@, a + w, n);
        lemma_present_before_bounds(self.present@, a + w + 1, n);
        let pr = self.present@;
        let cell = y * (w - 1) + x;
        let up: Seq<u32> = if pr[a] && pr[a + 1] && pr[a + w] && self.upper_faces@[cell] {
            seq![self.vertex_of(a), self.vertex_of(a + 1), self.vertex_of(a + w)]
        } else {
            Seq::empty()
        };
        let lo: Seq<u32> = if pr[a + 1] && pr[a + w + 1] && pr[a + w] && self.lower_faces@[cell] {
            seq![self.vertex_of(a + 1), self.vertex_of(a + w + 1), self.vertex_of(a + w)]
        } else {
            Seq::empty()
        };
        assert(self.cell_triangles(y, x) == up + lo);
        assert(all_below(up, total as int));
        assert(all_below(lo, total as int));
        lemma_all_below_concat(up, lo, total as int);
    }

    pub proof fn lemma_row_triangles_valid(&self, y: int, x: int)
        requires
            self.wf(),
            self.height >= 2,
            0 <= y < self.height - 1,
            0 <= x <= self.width - 1,
        ensures
            all_below(self.row_triangles(y, x), present_before(self.present@, self.pixel_count()) as int),
            self.row_triangles(y, x).len() % 3 == 0,
        decreases x,
    {
        if x > 0 {
            self.lemma_row_triangles_valid(y, x - 1);
            self.lemma_cell_triangles_valid(y, x - 1);
            lemma_all_below_concat(
                self.row_triangles(y, x - 1),
                self.cell_triangles(y, x - 1),
                present_before(self.present@, self.pixel_count()) as int,
            );
        }
    }

    pub proof fn lemma_rows_triangles_valid(&self, y: int)
        requires
            self.wf(),
            0 <= y <= self.height - 1,
        ensures
            all_below(self.rows_triangles(y), present_before(self.present@, self.pixel_count()) as int),
            self.rows_triangles(y).len() % 3 == 0,
        decreases y,
    {
        if y > 0 {
            self.lemma_rows_triangles_valid(y - 1);
            self.lemma_row_triangles_valid(y - 1, self.width - 1);
            lemma_all_below_concat(
                self.rows_triangles(y - 1),
                self.row_triangles(y - 1, self.width - 1),
                present_before(self.present@, self.pixel_count()) as int,
            );
        }
    }

    /// The index buffer of a grid is a list of triangles over existing vertices.
    pub proof fn lemma_indices_valid(&self)
        requires
            self.wf(),
        ensures
            all_below(self.spec_indices(), present_before(self.present@, self.pixel_count()) as int),
            self.spec_indices().len() % 3 == 0,
    {
        self.lemma_rows_triangles_valid(self.height - 1);
    }
}

/// Whether a pixel becomes a vertex.
pub open spec fn is_present() -> spec_fn(bool) -> bool {
    |b: bool| b
}

/// The vertex number of a pixel is the number of present pixels before it.
pub proof fn lemma_present_before_count(present: Seq<bool>, p: int)
    requires
        0 <= p <= present.len(),
    ensures
        present_before(present, p) == present.take(p).filter(is_present()).len(),
    decreases p,
{
    reveal(Seq::filter);
    if p > 0 {
        lemma_present_before_count(present, p - 1);
        assert(present.take(p).drop_last() =~= present.take(p - 1));
        assert(present.take(p).last() == present[p - 1]);
    } else {
        assert(present.take(0).len() == 0);
    }
}

proof fn lemma_gather_at(data: Seq<u32>, present: Seq<bool>, stride: int, end: int, p: int)
    requires
        stride == 2 || stride == 3,
        0 <= p < end <= present.len(),
        present[p],
        stride * end <= data.len(),
    ensures
        gather(data, present, stride, end).len() == stride * present_before(present, end),
        stride * present_before(present, p) + stride <= gather(data, present, stride, end).len(),
        gather(data, present, stride, end).subrange(
            stride * (present_before(present, p) as int),
            stride * (present_before(present, p) as int) + stride,
        ) == data.subrange(stride * p, stride * p + stride),
    decreases end,
{
    lemma_gather_len(data, present, stride, end);
    lemma_gather_len(data, present, stride, end - 1);
    lemma_present_before_bounds(present, p, end - 1);
    lemma_present_before_bounds(present, p, end);
    let prev = gather(data, present, stride, end - 1);
    let all = gather(data, present, stride, end);
    let at = stride * (present_before(present, p) as int);
    if p == end - 1 {
        assert(all.subrange(at, at + stride) =~= data.subrange(stride * p, stride * p + stride));
    } else {
        lemma_gather_at(data, present, stride, end - 1, p);
        assert(all.subrange(at, at + stride) =~= prev.subrange(at, at + stride));
    }
}

proof fn lemma_gather_len(data: Seq<u32>, present: Seq<bool>, stride: int, end: int)
    requires
        stride == 2 || stride == 3,
        0 <= end <= present.len(),
        stride * end <= data.len(),
    ensures
        gather(data, present, stride, end).len() == stride * present_before(present, end),
    decreases end,
{
    if end > 0 {
        lemma_gather_len(data, present, stride, end - 1);
    }
}

impl DepthGrid {
    /// Each present pixel `p` becomes vertex `present_before(p)` (the number of present
    /// pixels before it), carrying its own three coordinate words and two texture words;
    /// there is one vertex per present pixel.
    pub proof fn lemma_vertex_of_pixel(&self, p: int)
        requires
            self.wf(),
            0 <= p < self.pixel_count(),
            self.present@[p],
        ensures
            self.spec_vertices().len() == 3 * present_before(self.present@, self.pixel_count()),
            self.spec_texcoords().len() == 2 * present_before(self.present@, self.pixel_count()),
            self.spec_vertices().subrange(
                3 * present_before(self.present@, p) as int,
                3 * present_before(self.present@, p) as int + 3,
            ) == self.points@.subrange(3 * p, 3 * p + 3),
            self.spec_texcoords().subrange(
                2 * present_before(self.present@, p) as int,
                2 * present_before(self.present@, p) as int + 2,
            ) == self.texcoords@.subrange(2 * p, 2 * p + 2),
    {
        lemma_gather_at(self.points@, self.present@, 3, self.pixel_count(), p);
        lemma_gather_at(self.texcoords@, self.present@, 2, self.pixel_count(), p);
    }
}

/// `t` stands in `s` at position `off`.
pub open spec fn occurs_at(s: Seq<u32>, t: Seq<u32>, off: int) -> bool {
    &&& 0 <= off
    &&& off + t.len() <= s.len()
    &&& s.subrange(off, off + t.len()) == t
}

proof fn lemma_occurs_in_prefix(s: Seq<u32>, tail: Seq<u32>, t: Seq<u32>, off: int)
    requires
        occurs_at(s, t, off),
    ensures
        occurs_at(s + tail, t, off),
{
    assert((s + tail).subrange(off, off + t.len()) =~= s.subrange(off, off + t.len()));
}

proof fn lemma_occurs_after(s: Seq<u32>, head: Seq<u32>, t: Seq<u32>, off: int)
    requires
        occurs_at(s, t, off),
    ensures
        occurs_at(head + s, t, head.len() + off),
{
    assert((head + s).subrange(head.len() + off, head.len() + off + t.len()) =~= s.subrange(
        off,
        off + t.len(),
    ));
}

impl DepthGrid {
    proof fn lemma_cell_in_row(&self, y: int, end: int, x: int)
        requires
            self.wf(),
            self.height >= 2,
            0 <= y < self.height - 1,
            0 <= x < end <= self.width - 1,
        ensures
            exists|off: int| off % 3 == 0 && occurs_at(self.row_triangles(y, end), self.cell_triangles(y, x), off),
        decreases end,
    {
        let prev = self.row_triangles(y, end - 1);
        let ct = self.cell_triangles(y, end - 1);
        assert(self.row_triangles(y, end) == prev + ct);
        if x == end - 1 {
            self.lemma_row_triangles_valid(y, end - 1);
            assert(occurs_at(ct, ct, 0)) by {
                assert(ct.subrange(0, ct.len() as int) =~= ct);
            }
            lemma_occurs_after(ct, prev, ct, 0);
            assert(occurs_at(prev + ct, ct, prev.len() as int));
        } else {
            self.lemma_cell_in_row(y, end - 1, x);
            let off = choose|off: int| off % 3 == 0 && occurs_at(prev, self.cell_triangles(y, x), off);
            lemma_occurs_in_prefix(prev, ct, self.cell_triangles(y, x), off);
        }
    }

    proof fn lemma_cell_in_rows(&self, end: int, y: int, x: int)
        requires
            self.wf(),
            self.height >= 2,
            0 <= y < end <= self.height - 1,
            0 <= x < self.width - 1,
        ensures
            exists|off: int| off % 3 == 0 && occurs_at(self.rows_triangles(end), self.cell_triangles(y, x), off),
        decreases end,
    {
        let prev = self.rows_triangles(end - 1);
        let row = self.row_triangles(end - 1, self.width - 1);
        assert(self.rows_triangles(end) == prev + row);
        if y == end - 1 {
            self.lemma_rows_triangles_valid(end - 1);
            self.lemma_cell_in_row(y, self.width - 1, x);
            let off = choose|off: int| off % 3 == 0 && occurs_at(row, self.cell_triangles(y, x), off);
            lemma_occurs_after(row, prev, self.cell_triangles(y, x), off);
        } else {
            self.lemma_cell_in_rows(end - 1, y, x);
            let off = choose|off: int| off % 3 == 0 && occurs_at(prev, self.cell_triangles(y, x), off);
            lemma_occurs_in_prefix(prev, row, self.cell_triangles(y, x), off);
        }
    }

    /// Every cell whose pixels are present and whose face tests pass contributes its
    /// triangles, in this winding: the upper one as the vertices of pixels `(x, y)`,
    /// `(x + 1, y)`, `(x, y + 1)`, the lower one as those of `(x + 1, y)`, `(x + 1, y + 1)`,
    /// `(x, y + 1)`; each stands at a triangle boundary of the index buffer.
    pub proof fn lemma_cell_triangles_emitted(&self, y: int, x: int)
        requires
            self.wf(),
            self.height >= 2,
            0 <= y < self.height - 1,
            0 <= x < self.width - 1,
        ensures
            ({
                let w = self.width as int;
                let a = y * w + x;
                let b = a + 1;
                let c = a + w;
                let d = c + 1;
                let cell = y * (w - 1) + x;
                let pr = self.present@;
                &&& (pr[a] && pr[b] && pr[c] && self.upper_faces@[cell]) ==> exists|off: int|
                    off % 3 == 0 && occurs_at(
                        self.spec_indices(),
                        seq![self.vertex_of(a), self.vertex_of(b), self.vertex_of(c)],
                        off,
                    )
                &&& (pr[b] && pr[d] && pr[c] && self.lower_faces@[cell]) ==> exists|off: int|
                    off % 3 == 0 && occurs_at(
                        self.spec_indices(),
                        seq![self.vertex_of(b), self.vertex_of(d), self.vertex_of(c)],
                        off,
                    )
            }),
    {
        let w = self.width as int;
        let a = y * w + x;
        let b = a + 1;
        let c = a + w;
        let d = c + 1;
        let cell = y * (w - 1) + x;
        let pr = self.present@;
        let ct = self.cell_triangles(y, x);
        let up: Seq<u32> = if pr[a] && pr[b] && pr[c] && self.upper_faces@[cell] {
            seq![self.vertex_of(a), self.vertex_of(b), self.vertex_of(c)]
        } else {
            Seq::empty()
        };
        let lo: Seq<u32> = if pr[b] && pr[d] && pr[c] && self.lower_faces@[cell] {
            seq![self.vertex_of(b), self.vertex_of(d), self.vertex_of(c)]
        } else {
            Seq::empty()
        };
        assert(ct == up + lo);
        self.lemma_cell_in_rows(self.height - 1, y, x);
        let off = choose|off: int| off % 3 == 0 && occurs_at(self.spec_indices(), ct, off);
        let s = self.spec_indices();
        if pr[a] && pr[b] && pr[c] && self.upper_faces@[cell] {
            assert(s.subrange(off, off + 3) =~= up) by {
                assert(s.subrange(off, off + ct.len()) == ct);
                assert(forall|k: int| 0 <= k < 3 ==> #[trigger] s.subrange(off, off + ct.len())[k] == s[off + k]);
            }
            assert(occurs_at(s, up, off));
        }
        if pr[b] && pr[d] && pr[c] && self.lower_faces@[cell] {
            let loff = off + up.len();
            assert(s.subrange(loff, loff + 3) =~= lo) by {
                assert(s.subrange(off, off + ct.len()) == ct);
                assert(forall|k: int| 0 <= k < ct.len() ==> #[trigger] s.subrange(off, off + ct.len())[k] == s[off + k]);
                assert(forall|k: int| 0 <= k < 3 ==> #[trigger] lo[k] == ct[up.len() + k]);
            }
            assert(occurs_at(s, lo, loff));
            assert(loff % 3 == 0);
        }
    }
}

} // verus!
