use vstd::prelude::*;
use crate::interval::Interval;
use crate::vec3::{Vec3, fits_i64};
use crate::ray::{Ray, T_SCALE, floor_div, floor_div_exec, lemma_le_floor};

verus! {

/// Axis-aligned bounding box: one interval per axis.
#[derive(Clone, Copy, Debug, PartialEq, Eq, Structural)]
pub struct AABB {
    pub x: Interval,
    pub y: Interval,
    pub z: Interval,
}

impl AABB {
    /// The interval of axis `axis` (0 = x, 1 = y, 2 = z).
    pub open spec fn axis_spec(self, axis: int) -> Interval {
        if axis == 0 {
            self.x
        } else if axis == 1 {
            self.y
        } else {
            self.z
        }
    }

    /// The point lies inside the box (closed on every side).
    pub open spec fn has_point(self, p: (int, int, int)) -> bool {
        self.x.has(p.0) && self.y.has(p.1) && self.z.has(p.2)
    }

    pub open spec fn empty_spec() -> AABB {
        AABB { x: Interval::empty_spec(), y: Interval::empty_spec(), z: Interval::empty_spec() }
    }

    pub open spec fn union_spec(self, o: AABB) -> AABB {
        AABB { x: self.x.union_spec(o.x), y: self.y.union_spec(o.y), z: self.z.union_spec(o.z) }
    }

    /// Every point of `self` is a point of `o`.
    pub open spec fn within(self, o: AABB) -> bool {
        forall|p: (int, int, int)| self.has_point(p) ==> #[trigger] o.has_point(p)
    }

    /// The axis of the largest extent; ties go to z over y, and to the later axis over x.
    pub open spec fn longest_axis_spec(self) -> int {
        let lx = self.x.max - self.x.min;
        let ly = self.y.max - self.y.min;
        let lz = self.z.max - self.z.min;
        if lx > ly {
            if lx > lz { 0 } else { 2 }
        } else if ly > lz {
            1
        } else {
            2
        }
    }

    pub fn new(x: Interval, y: Interval, z: Interval) -> (r: AABB)
        ensures
            r.x == x && r.y == y && r.z == z,
    {
        AABB { x, y, z }
    }

    /// The box that contains nothing; `union` with it changes nothing.
    pub fn empty_box() -> (r: AABB)
        ensures
            r == AABB::empty_spec(),
            forall|p: (int, int, int)| !r.has_point(p),
    {
        AABB::new(Interval::empty_interval(), Interval::empty_interval(), Interval::empty_interval())
    }

    /// The box spanned by two corner points, in any order.
    pub fn from_vec3(v0: &Vec3, v1: &Vec3) -> (r: AABB)
        ensures
            r.has_point(v0.view()),
            r.has_point(v1.view()),
            r.x == Interval::min_max_spec(v0.x, v1.x),
            r.y == Interval::min_max_spec(v0.y, v1.y),
            r.z == Interval::min_max_spec(v0.z, v1.z),
    {
        AABB::new(
            Interval::min_max(v0.x, v1.x),
            Interval::min_max(v0.y, v1.y),
            Interval::min_max(v0.z, v1.z),
        )
    }

    pub fn axis(&self, axis: usize) -> (r: Interval)
        requires
            axis < 3,
        ensures
            r == self.axis_spec(axis as int),
    {
        if axis == 0 {
            self.x
        } else if axis == 1 {
            self.y
        } else {
            self.z
        }
    }

    /// The smallest box containing both boxes.
    pub fn union(&self, o: &AABB) -> (r: AABB)
        ensures
            r == self.union_spec(*o),
            self.within(r),
            o.within(r),
    {
        AABB::new(self.x.union(&o.x), self.y.union(&o.y), self.z.union(&o.z))
    }

    pub fn contains(&self, p: &Vec3) -> (r: bool)
        ensures
            r == self.has_point(p.view()),
    {
        self.x.contains(p.x) && self.y.contains(p.y) && self.z.contains(p.z)
    }

    pub fn longest_axis(&self) -> (r: usize)
        ensures
            r == self.longest_axis_spec(),
            r < 3,
    {
        let lx = self.x.length();
        let ly = self.y.length();
        let lz = self.z.length();
        if lx > ly {
            if lx > lz {
                0
            } else {
                2
            }
        } else if ly > lz {
            1
        } else {
            2
        }
    }

    /// Grows each side by `delta`, saturating at the lattice bounds.
    pub fn pad(&self, delta: u32) -> (r: AABB)
        ensures
            self.within(r),
    {
        AABB::new(self.x.widen(delta), self.y.widen(delta), self.z.widen(delta))
    }
}

/// The point of `ray` at parameter `t` lies within `iv` along `axis`.
pub open spec fn slab_ok(ray: Ray, iv: Interval, axis: int, t: int) -> bool {
    iv.min * T_SCALE <= ray.at_scaled(t, axis) <= iv.max * T_SCALE
}

impl AABB {
    /// The point of `ray` at parameter `t` lies inside the box.
    pub open spec fn hit_at(self, ray: Ray, t: int) -> bool {
        slab_ok(ray, self.x, 0, t) && slab_ok(ray, self.y, 1, t) && slab_ok(ray, self.z, 2, t)
    }

    /// Some parameter of `window` puts the ray inside the box.
    pub open spec fn hit_spec(self, ray: Ray, window: Interval) -> bool {
        exists|t: int| window.has(t) && #[trigger] self.hit_at(ray, t)
    }

    /// Exact slab test: whether the ray meets the box at some parameter of `window`.
    pub fn hit(&self, ray: &Ray, window: &Interval) -> (r: bool)
        ensures
            r == self.hit_spec(*ray, *window),
    {
        let (okx, lox, hix) = slab_range(ray, &self.x, 0);
        let (oky, loy, hiy) = slab_range(ray, &self.y, 1);
        let (okz, loz, hiz) = slab_range(ray, &self.z, 2);
        let mut lo = window.min as i128;
        let mut hi = window.max as i128;
        if lox > lo { lo = lox; }
        if loy > lo { lo = loy; }
        if loz > lo { lo = loz; }
        if hix < hi { hi = hix; }
        if hiy < hi { hi = hiy; }
        if hiz < hi { hi = hiz; }
        let r = okx && oky && okz && lo <= hi;
        proof {
            if r {
                assert(window.has(lo as int));
                assert(self.hit_at(*ray, lo as int));
            }
            if self.hit_spec(*ray, *window) {
                let t = choose|t: int| window.has(t) && #[trigger] self.hit_at(*ray, t);
                assert(fits_i64(t));
                assert(slab_ok(*ray, self.x, 0, t));
                assert(slab_ok(*ray, self.y, 1, t));
                assert(slab_ok(*ray, self.z, 2, t));
            }
        }
        r
    }
}

/// The parameters at which the ray lies within `iv` along `axis`: all `t` of
/// the lattice with `ok && lo <= t <= hi`.
fn slab_range(ray: &Ray, iv: &Interval, axis: usize) -> (res: (bool, i128, i128))
    requires
        axis < 3,
    ensures
        forall|t: int|
            fits_i64(t) ==> (#[trigger] slab_ok(*ray, *iv, axis as int, t) <==> (res.0 && res.1 <= t
                <= res.2)),
{
    let o = ray.origin.axis(axis) as i128;
    let d = ray.direction.axis(axis) as i128;
    let a = (iv.min as i128 - o) * T_SCALE;
    let b = (iv.max as i128 - o) * T_SCALE;
    proof {
        assert forall|t: int| #[trigger] slab_ok(*ray, *iv, axis as int, t) <==> (a <= t * d <= b) by {
            assert(iv.min * T_SCALE <= o * T_SCALE + t * d <==> a <= t * d) by (nonlinear_arith)
                requires a == (iv.min - o) * T_SCALE;
            assert(o * T_SCALE + t * d <= iv.max * T_SCALE <==> t * d <= b) by (nonlinear_arith)
                requires b == (iv.max - o) * T_SCALE;
        }
    }
    if d > 0 {
        let lo = -floor_div_exec(-a, d);
        let hi = floor_div_exec(b, d);
        proof {
            assert forall|t: int| fits_i64(t) implies (#[trigger] slab_ok(*ray, *iv, axis as int, t)
                <==> (lo <= t <= hi)) by {
                lemma_le_floor(-t, -a as int, d as int);
                lemma_le_floor(t, b as int, d as int);
                assert((-t) * d == -(t * d)) by (nonlinear_arith);
            }
        }
        (true, lo, hi)
    } else if d < 0 {
        let e = -d;
        let lo = -floor_div_exec(b, e);
        let hi = floor_div_exec(-a, e);
        proof {
            assert forall|t: int| fits_i64(t) implies (#[trigger] slab_ok(*ray, *iv, axis as int, t)
                <==> (lo <= t <= hi)) by {
                lemma_le_floor(t, -a as int, e as int);
                lemma_le_floor(-t, b as int, e as int);
                assert(t * e == -(t * d)) by (nonlinear_arith) requires e == -d;
                assert((-t) * e == t * d) by (nonlinear_arith) requires e == -d;
            }
        }
        (true, lo, hi)
    } else {
        proof {
            assert forall|t: int| fits_i64(t) implies (#[trigger] slab_ok(*ray, *iv, axis as int, t)
                <==> ((a <= 0 && 0 <= b) && i64::MIN <= t <= i64::MAX)) by {
                assert(t * d == 0) by (nonlinear_arith) requires d == 0;
            }
        }
        (a <= 0 && 0 <= b, i64::MIN as i128, i64::MAX as i128)
    }
}

/// Union of bounding volumes is a join: the union contains every point of
/// either operand, and merging with the empty volume leaves a volume unchanged.
pub proof fn lemma_union_is_join(a: AABB, b: AABB, p: (int, int, int))
    ensures
        a.has_point(p) || b.has_point(p) ==> a.union_spec(b).has_point(p),
        a.union_spec(AABB::empty_spec()) == a,
        AABB::empty_spec().union_spec(a) == a,
{
}

/// Union is commutative and associative.
pub proof fn lemma_union_commutative_associative(a: AABB, b: AABB, c: AABB)
    ensures
        a.union_spec(b) == b.union_spec(a),
        a.union_spec(b).union_spec(c) == a.union_spec(b.union_spec(c)),
{
}

/// The union is the least upper bound: any box containing both operands as
/// intervals contains the union.
pub proof fn lemma_union_least(a: AABB, b: AABB, c: AABB, p: (int, int, int))
    requires
        c.x.min <= a.x.min && a.x.max <= c.x.max,
        c.y.min <= a.y.min && a.y.max <= c.y.max,
        c.z.min <= a.z.min && a.z.max <= c.z.max,
        c.x.min <= b.x.min && b.x.max <= c.x.max,
        c.y.min <= b.y.min && b.y.max <= c.y.max,
        c.z.min <= b.z.min && b.z.max <= c.z.max,
    ensures
        a.union_spec(b).has_point(p) ==> c.has_point(p),
{
}

} // verus!
