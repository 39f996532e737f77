use vstd::prelude::*;

verus! {

/// The corners of triangle `t` of an index buffer.
pub open spec fn corner_triple(indices: Seq<u32>, t: int) -> (usize, usize, usize) {
    (indices[3 * t] as usize, indices[3 * t + 1] as usize, indices[3 * t + 2] as usize)
}

/// The buffer describes whole triangles over `vertex_count` vertices.
pub open spec fn valid_indices(indices: Seq<u32>, vertex_count: int) -> bool {
    &&& indices.len() % 3 == 0
    &&& forall|k: int| 0 <= k < indices.len() ==> #[trigger] indices[k] < vertex_count
}

/// Groups a triangle index buffer into corner triples. `None` when the buffer
/// does not hold whole triangles or names a vertex past `vertex_count`.
pub fn triangle_indices(indices: &Vec<u32>, vertex_count: usize) -> (r: Option<Vec<(usize, usize, usize)>>)
    ensures
        r is Some <==> valid_indices(indices@, vertex_count as int),
        r is Some ==> r->0@.len() * 3 == indices@.len(),
        r is Some ==> forall|t: int| 0 <= t < r->0@.len() ==> #[trigger] r->0@[t] == corner_triple(indices@, t),
{
    let n = indices.len();
    if n % 3 != 0 {
        return None;
    }
    let mut k: usize = 0;
    while k < n
        invariant
            n == indices@.len(),
            k <= n,
            forall|m: int| 0 <= m < k ==> #[trigger] indices@[m] < vertex_count,
        decreases n - k,
    {
        if indices[k] as usize >= vertex_count {
            return None;
        }
        k = k + 1;
    }
    let mut out: Vec<(usize, usize, usize)> = Vec::new();
    let mut t: usize = 0;
    while t < n / 3
        invariant
            n == indices@.len(),
            n % 3 == 0,
            t <= n / 3,
            out@.len() == t,
            forall|m: int| 0 <= m < t ==> #[trigger] out@[m] == corner_triple(indices@, m),
        decreases n / 3 - t,
    {
        out.push((indices[3 * t] as usize, indices[3 * t + 1] as usize, indices[3 * t + 2] as usize));
        t = t + 1;
    }
    Some(out)
}

} // verus!
