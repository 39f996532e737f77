use vstd::prelude::*;
use crate::random::random_below;

verus! {

broadcast use vstd::seq_lib::group_to_multiset_ensures;

/// Number of lattice points along each axis of the noise tables.
pub const POINT_COUNT: usize = 256;

/// `0, 1, ..., n - 1`.
pub open spec fn identity(n: int) -> Seq<usize> {
    Seq::new(n as nat, |k: int| k as usize)
}

/// A permutation of `0..POINT_COUNT`.
pub open spec fn is_perm_table(s: Seq<usize>) -> bool {
    &&& s.len() == POINT_COUNT
    &&& s.to_multiset() == identity(POINT_COUNT as int).to_multiset()
    &&& forall|k: int| 0 <= k < s.len() ==> #[trigger] s[k] < POINT_COUNT
}

/// Lattice coordinate `i + d` folded into the table: `((i & 255) + d) mod 256`.
pub open spec fn fold_index(i: i64, d: int) -> int {
    (((i & 255i64) as int) + d) % 256
}

/// Permutation tables of a lattice noise; the gradient data that the tables
/// index stays with the caller.
pub struct Noise {
    pub perm_x: Vec<usize>,
    pub perm_y: Vec<usize>,
    pub perm_z: Vec<usize>,
}

impl Noise {
    pub open spec fn wf(self) -> bool {
        is_perm_table(self.perm_x@) && is_perm_table(self.perm_y@) && is_perm_table(self.perm_z@)
    }

    /// Three independently shuffled tables.
    pub fn new() -> (r: Noise)
        ensures
            r.wf(),
    {
        Noise {
            perm_x: Self::generate_perm(),
            perm_y: Self::generate_perm(),
            perm_z: Self::generate_perm(),
        }
    }

    /// A random permutation of `0..POINT_COUNT`.
    fn generate_perm() -> (r: Vec<usize>)
        ensures
            is_perm_table(r@),
    {
        let mut perm: Vec<usize> = Vec::new();
        let mut i: usize = 0;
        while i < POINT_COUNT
            invariant
                i <= POINT_COUNT,
                perm@ == identity(i as int),
            decreases POINT_COUNT - i,
        {
            perm.push(i);
            i = i + 1;
            assert(perm@ =~= identity(i as int));
        }
        Self::permute(&mut perm);
        perm
    }

    /// Shuffles `perm` in place by swapping each position, from the last
    /// down to the second, with a random earlier one.
    fn permute(perm: &mut Vec<usize>)
        requires
            forall|k: int| 0 <= k < old(perm)@.len() ==> #[trigger] old(perm)@[k] < POINT_COUNT,
        ensures
            final(perm)@.len() == old(perm)@.len(),
            final(perm)@.to_multiset() == old(perm)@.to_multiset(),
            forall|k: int| 0 <= k < final(perm)@.len() ==> #[trigger] final(perm)@[k] < POINT_COUNT,
    {
        let n = perm.len();
        let mut i: usize = n;
        while i > 1
            invariant
                perm@.len() == n,
                i <= n,
                perm@.to_multiset() == old(perm)@.to_multiset(),
                forall|k: int| 0 <= k < n ==> #[trigger] perm@[k] < POINT_COUNT,
            decreases i,
        {
            i = i - 1;
            let target = random_below(i);
            let a = perm[i];
            let b = perm[target];
            let ghost s = perm@;
            perm.set(i, b);
            perm.set(target, a);
            proof {
                assert(perm@ == s.update(i as int, b).update(target as int, a));
                assert(perm@.to_multiset() =~= s.to_multiset());
            }
        }
    }

    /// The table entry for lattice point `(i, j, k)` shifted by `(di, dj, dk)`:
    /// `perm_x[x] ^ perm_y[y] ^ perm_z[z]` with each coordinate folded into the table.
    pub fn lattice_hash(&self, i: i64, j: i64, k: i64, di: usize, dj: usize, dk: usize) -> (r: usize)
        requires
            self.wf(),
            di < 2 && dj < 2 && dk < 2,
        ensures
            r == self.perm_x@[fold_index(i, di as int)] ^ self.perm_y@[fold_index(j, dj as int)]
                ^ self.perm_z@[fold_index(k, dk as int)],
            r < POINT_COUNT,
    {
        let x = Self::fold(i, di);
        let y = Self::fold(j, dj);
        let z = Self::fold(k, dk);
        let a = self.perm_x[x];
        let b = self.perm_y[y];
        let c = self.perm_z[z];
        assert(a ^ b ^ c < 256) by (bit_vector)
            requires a < 256usize, b < 256usize, c < 256usize;
        a ^ b ^ c
    }

    fn fold(i: i64, d: usize) -> (r: usize)
        requires
            d < 2,
        ensures
            r == fold_index(i, d as int),
            r < POINT_COUNT,
    {
        let low = i & 255;
        assert(0 <= low < 256) by (bit_vector)
            requires low == i & 255i64;
        ((low as usize) + d) % 256
    }

    /// The table entries of the eight corners of the lattice cell at `(i, j, k)`,
    /// corner `(di, dj, dk)` at position `4 * di + 2 * dj + dk`.
    pub fn corners(&self, i: i64, j: i64, k: i64) -> (r: Vec<usize>)
        requires
            self.wf(),
        ensures
            r@.len() == 8,
            forall|c: int| 0 <= c < 8 ==> #[trigger] r@[c] == self.perm_x@[fold_index(i, c / 4)]
                ^ self.perm_y@[fold_index(j, (c / 2) % 2)] ^ self.perm_z@[fold_index(k, c % 2)],
    {
        let mut out: Vec<usize> = Vec::new();
        let mut c: usize = 0;
        while c < 8
            invariant
                self.wf(),
                c <= 8,
                out@.len() == c,
                forall|m: int| 0 <= m < c ==> #[trigger] out@[m] == self.perm_x@[fold_index(i, m / 4)]
                    ^ self.perm_y@[fold_index(j, (m / 2) % 2)] ^ self.perm_z@[fold_index(k, m % 2)],
            decreases 8 - c,
        {
            out.push(self.lattice_hash(i, j, k, c / 4, (c / 2) % 2, c % 2));
            c = c + 1;
        }
        out
    }
}

} // verus!
