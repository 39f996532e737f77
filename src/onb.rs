use vstd::prelude::*;
use crate::vec3::{Vec3, cross_spec, dot_spec, fits_i64, triple_fits};

verus! {

/// Bound on the components of the vectors a frame is built from.
pub const FRAME_LIMIT: i64 = 1048576;

/// An orthogonal frame on the lattice. The axes are exact integer vectors
/// that are not normalised: the unit axes are `u / |u|`, `v / |v|`, `w / |w|`.
#[derive(Clone, Copy, Debug, PartialEq, Eq, Structural)]
pub struct Onb {
    pub u: Vec3,
    pub v: Vec3,
    pub w: Vec3,
}

/// The helper axis for a frame around `n`: the y axis when `n` is within
/// about 25.8 degrees of the x axis (`|n.x| > 0.9 |n|`), the x axis otherwise.
pub open spec fn helper_axis(n: (int, int, int)) -> (int, int, int) {
    if 100 * (n.0 * n.0) > 81 * dot_spec(n, n) {
        (0, 1, 0)
    } else {
        (1, 0, 0)
    }
}

/// `a x b` is orthogonal to both `a` and `b`.
pub proof fn lemma_cross_orthogonal(a: (int, int, int), b: (int, int, int))
    ensures
        dot_spec(cross_spec(a, b), a) == 0,
        dot_spec(cross_spec(a, b), b) == 0,
{
    assert(dot_spec(cross_spec(a, b), a) == 0) by (nonlinear_arith);
    assert(dot_spec(cross_spec(a, b), b) == 0) by (nonlinear_arith);
}

/// Components of `a x b` are bounded by `2 * ba * bb`.
pub proof fn lemma_cross_bound(a: (int, int, int), b: (int, int, int), ba: int, bb: int)
    requires
        ba >= 0,
        bb >= 0,
        -ba <= a.0 <= ba && -ba <= a.1 <= ba && -ba <= a.2 <= ba,
        -bb <= b.0 <= bb && -bb <= b.1 <= bb && -bb <= b.2 <= bb,
    ensures
        -(2 * (ba * bb)) <= cross_spec(a, b).0 <= 2 * (ba * bb),
        -(2 * (ba * bb)) <= cross_spec(a, b).1 <= 2 * (ba * bb),
        -(2 * (ba * bb)) <= cross_spec(a, b).2 <= 2 * (ba * bb),
{
    lemma_product_bound(a.0, b.1, ba, bb);
    lemma_product_bound(a.0, b.2, ba, bb);
    lemma_product_bound(a.1, b.0, ba, bb);
    lemma_product_bound(a.1, b.2, ba, bb);
    lemma_product_bound(a.2, b.0, ba, bb);
    lemma_product_bound(a.2, b.1, ba, bb);
}

proof fn lemma_product_bound(x: int, y: int, bx: int, by: int)
    requires
        -bx <= x <= bx,
        -by <= y <= by,
    ensures
        -(bx * by) <= x * y <= bx * by,
{
    assert(-(bx * by) <= x * y <= bx * by) by (nonlinear_arith)
        requires -bx <= x <= bx, -by <= y <= by;
}

impl Onb {
    pub open spec fn local_spec(self, a: Vec3) -> (int, int, int) {
        (
            self.u.x * a.x + self.v.x * a.y + self.w.x * a.z,
            self.u.y * a.x + self.v.y * a.y + self.w.y * a.z,
            self.u.z * a.x + self.v.z * a.y + self.w.z * a.z,
        )
    }

    /// The three axes are pairwise orthogonal.
    pub open spec fn orthogonal(self) -> bool {
        &&& dot_spec(self.u.view(), self.v.view()) == 0
        &&& dot_spec(self.v.view(), self.w.view()) == 0
        &&& dot_spec(self.u.view(), self.w.view()) == 0
    }

    /// A frame whose `w` axis is `n`: `u = a x n` for the helper axis `a`, and `v = n x u`.
    pub fn normal(n: Vec3) -> (r: Onb)
        requires
            n.bounded(FRAME_LIMIT as int),
        ensures
            r.w == n,
            r.u.view() == cross_spec(helper_axis(n.view()), n.view()),
            r.v.view() == cross_spec(n.view(), r.u.view()),
            r.orthogonal(),
    {
        let nx = n.x as i128;
        proof {
            lemma_product_bound(n.x as int, n.x as int, FRAME_LIMIT as int, FRAME_LIMIT as int);
            lemma_product_bound(n.y as int, n.y as int, FRAME_LIMIT as int, FRAME_LIMIT as int);
            lemma_product_bound(n.z as int, n.z as int, FRAME_LIMIT as int, FRAME_LIMIT as int);
            assert(FRAME_LIMIT * FRAME_LIMIT == 0x100_0000_0000);
        }
        let a = if 100 * (nx * nx) > 81 * (n.dot(&n)) {
            Vec3::new(0, 1, 0)
        } else {
            Vec3::new(1, 0, 0)
        };
        assert(a.view() == helper_axis(n.view()));
        proof {
            lemma_cross_bound(a.view(), n.view(), 1, FRAME_LIMIT as int);
        }
        let u = a.cross(&n);
        proof {
            lemma_cross_bound(n.view(), u.view(), FRAME_LIMIT as int, 2 * FRAME_LIMIT);
        }
        let v = n.cross(&u);
        proof {
            lemma_cross_orthogonal(a.view(), n.view());
            lemma_cross_orthogonal(n.view(), u.view());
            assert(dot_spec(u.view(), v.view()) == dot_spec(v.view(), u.view())) by (nonlinear_arith);
            assert(dot_spec(u.view(), n.view()) == dot_spec(n.view(), u.view())) by (nonlinear_arith);
        }
        Onb { u, v, w: n }
    }

    /// A frame whose `w` axis is `n` and whose `v` axis leans towards `up`:
    /// `u = up x n`, `v = n x u`.
    pub fn normal_with_up(n: Vec3, up: Vec3) -> (r: Onb)
        requires
            n.bounded(FRAME_LIMIT as int),
            up.bounded(FRAME_LIMIT as int),
        ensures
            r.w == n,
            r.u.view() == cross_spec(up.view(), n.view()),
            r.v.view() == cross_spec(n.view(), r.u.view()),
            r.orthogonal(),
    {
        proof {
            lemma_cross_bound(up.view(), n.view(), FRAME_LIMIT as int, FRAME_LIMIT as int);
        }
        let u = up.cross(&n);
        proof {
            assert(2 * FRAME_LIMIT * FRAME_LIMIT == 0x200_0000_0000);
            lemma_cross_bound(n.view(), u.view(), FRAME_LIMIT as int, 0x200_0000_0000);
            assert(2 * FRAME_LIMIT * 0x200_0000_0000 == 0x4000_0000_0000_0000);
        }
        let v = n.cross(&u);
        proof {
            lemma_cross_orthogonal(up.view(), n.view());
            lemma_cross_orthogonal(n.view(), u.view());
            assert(dot_spec(u.view(), v.view()) == dot_spec(v.view(), u.view())) by (nonlinear_arith);
            assert(dot_spec(u.view(), n.view()) == dot_spec(n.view(), u.view())) by (nonlinear_arith);
        }
        Onb { u, v, w: n }
    }

    /// A frame whose `w` axis is `n` and whose `u` axis is the tangent `t`: `v = n x t`.
    pub fn normal_with_tangent(n: Vec3, t: Vec3) -> (r: Onb)
        requires
            n.bounded(FRAME_LIMIT as int),
            t.bounded(FRAME_LIMIT as int),
        ensures
            r.w == n,
            r.u == t,
            r.v.view() == cross_spec(n.view(), t.view()),
            dot_spec(r.v.view(), r.w.view()) == 0,
            dot_spec(r.u.view(), r.v.view()) == 0,
    {
        proof {
            lemma_cross_bound(n.view(), t.view(), FRAME_LIMIT as int, FRAME_LIMIT as int);
        }
        let v = n.cross(&t);
        proof {
            lemma_cross_orthogonal(n.view(), t.view());
            assert(dot_spec(t.view(), v.view()) == dot_spec(v.view(), t.view())) by (nonlinear_arith);
        }
        Onb { u: t, v, w: n }
    }

    /// Maps frame coordinates to world coordinates: `u * a.x + v * a.y + w * a.z`.
    pub fn local(&self, a: Vec3) -> (r: Vec3)
        requires
            self.u.bounded(0x4000_0000_0000_0000),
            self.v.bounded(0x4000_0000_0000_0000),
            self.w.bounded(0x4000_0000_0000_0000),
            a.bounded(0x4000_0000_0000_0000),
            triple_fits(self.local_spec(a)),
        ensures
            r.view() == self.local_spec(a),
    {
        let x = Self::combine(self.u.x, self.v.x, self.w.x, a);
        let y = Self::combine(self.u.y, self.v.y, self.w.y, a);
        let z = Self::combine(self.u.z, self.v.z, self.w.z, a);
        Vec3 { x: x as i64, y: y as i64, z: z as i64 }
    }

    fn combine(p: i64, q: i64, s: i64, a: Vec3) -> (r: i128)
        requires
            -0x4000_0000_0000_0000 <= p <= 0x4000_0000_0000_0000,
            -0x4000_0000_0000_0000 <= q <= 0x4000_0000_0000_0000,
            -0x4000_0000_0000_0000 <= s <= 0x4000_0000_0000_0000,
            a.bounded(0x4000_0000_0000_0000),
        ensures
            r == p * a.x + q * a.y + s * a.z,
    {
        proof {
            crate::vec3::lemma_small_product(p as int, a.x as int);
            crate::vec3::lemma_small_product(q as int, a.y as int);
            crate::vec3::lemma_small_product(s as int, a.z as int);
        }
        p as i128 * a.x as i128 + q as i128 * a.y as i128 + s as i128 * a.z as i128
    }
}

} // verus!
