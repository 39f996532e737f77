use vstd::prelude::*;

verus! {

/// A point or direction on the fixed-point lattice.
#[derive(Clone, Copy, Debug, PartialEq, Eq, Structural)]
pub struct Vec3 {
    pub x: i64,
    pub y: i64,
    pub z: i64,
}

/// True when an integer fits in an `i64`.
pub open spec fn fits_i64(v: int) -> bool {
    i64::MIN <= v <= i64::MAX
}

/// Cross product of two integer triples.
pub open spec fn cross_spec(a: (int, int, int), b: (int, int, int)) -> (int, int, int) {
    (a.1 * b.2 - a.2 * b.1, a.2 * b.0 - a.0 * b.2, a.0 * b.1 - a.1 * b.0)
}

/// Dot product of two integer triples.
pub open spec fn dot_spec(a: (int, int, int), b: (int, int, int)) -> int {
    a.0 * b.0 + a.1 * b.1 + a.2 * b.2
}

/// Every component of the triple fits in an `i64`.
pub open spec fn triple_fits(t: (int, int, int)) -> bool {
    fits_i64(t.0) && fits_i64(t.1) && fits_i64(t.2)
}

impl Vec3 {
    /// The vector as a triple of mathematical integers.
    pub open spec fn view(self) -> (int, int, int) {
        (self.x as int, self.y as int, self.z as int)
    }

    /// Every component lies in `[-b, b]`.
    pub open spec fn bounded(self, b: int) -> bool {
        -b <= self.x <= b && -b <= self.y <= b && -b <= self.z <= b
    }

    pub fn new(x: i64, y: i64, z: i64) -> (r: Vec3)
        ensures
            r.x == x && r.y == y && r.z == z,
    {
        Vec3 { x, y, z }
    }

    /// Component along axis `axis` (0 = x, 1 = y, 2 = z).
    pub open spec fn axis_spec(self, axis: int) -> i64 {
        if axis == 0 {
            self.x
        } else if axis == 1 {
            self.y
        } else {
            self.z
        }
    }

    pub fn axis(&self, axis: usize) -> (r: i64)
        requires
            axis < 3,
        ensures
            r == self.axis_spec(axis as int),
    {
        if axis == 0 {
            self.x
        } else if axis == 1 {
            self.y
        } else {
            self.z
        }
    }

    pub fn sub(&self, o: &Vec3) -> (r: Vec3)
        requires
            fits_i64(self.x - o.x),
            fits_i64(self.y - o.y),
            fits_i64(self.z - o.z),
        ensures
            r.x == self.x - o.x,
            r.y == self.y - o.y,
            r.z == self.z - o.z,
    {
        Vec3 { x: self.x - o.x, y: self.y - o.y, z: self.z - o.z }
    }

    /// Exact cross product; the result must fit the lattice.
    pub fn cross(&self, o: &Vec3) -> (r: Vec3)
        requires
            triple_fits(cross_spec(self.view(), o.view())),
        ensures
            r.view() == cross_spec(self.view(), o.view()),
    {
        let (ax, ay, az) = (self.x as i128, self.y as i128, self.z as i128);
        let (bx, by, bz) = (o.x as i128, o.y as i128, o.z as i128);
        let x = Self::cross_term(ay, bz, az, by);
        let y = Self::cross_term(az, bx, ax, bz);
        let z = Self::cross_term(ax, by, ay, bx);
        Vec3 { x: x as i64, y: y as i64, z: z as i64 }
    }

    /// `p * q - r * s` evaluated without overflow.
    fn cross_term(p: i128, q: i128, r: i128, s: i128) -> (t: i128)
        requires
            fits_i64(p as int),
            fits_i64(q as int),
            fits_i64(r as int),
            fits_i64(s as int),
        ensures
            t == p * q - r * s,
    {
        proof {
            lemma_i64_product(p as int, q as int);
            lemma_i64_product(r as int, s as int);
        }
        p * q - r * s
    }

    /// Exact dot product of two vectors with components within `2^62`.
    pub fn dot(&self, o: &Vec3) -> (r: i128)
        requires
            self.bounded(0x4000_0000_0000_0000),
            o.bounded(0x4000_0000_0000_0000),
        ensures
            r == dot_spec(self.view(), o.view()),
    {
        let (ax, ay, az) = (self.x as i128, self.y as i128, self.z as i128);
        let (bx, by, bz) = (o.x as i128, o.y as i128, o.z as i128);
        proof {
            lemma_small_product(ax as int, bx as int);
            lemma_small_product(ay as int, by as int);
            lemma_small_product(az as int, bz as int);
        }
        ax * bx + ay * by + az * bz
    }

    /// Squared length, `self . self`.
    pub fn length_squared(&self) -> (r: i128)
        requires
            self.bounded(0x4000_0000_0000_0000),
        ensures
            r == dot_spec(self.view(), self.view()),
    {
        self.dot(self)
    }
}

/// The product of two `i64` values lies in `[-(2^126 - 2^63), 2^126]`.
pub proof fn lemma_i64_product(a: int, b: int)
    requires
        fits_i64(a),
        fits_i64(b),
    ensures
        -0x3fff_ffff_ffff_ffff_8000_0000_0000_0000 <= a * b <= 0x4000_0000_0000_0000_0000_0000_0000_0000,
{
    assert(-0x3fff_ffff_ffff_ffff_8000_0000_0000_0000 <= a * b <= 0x4000_0000_0000_0000_0000_0000_0000_0000) by (nonlinear_arith)
        requires
            -0x8000_0000_0000_0000 <= a <= 0x7fff_ffff_ffff_ffff,
            -0x8000_0000_0000_0000 <= b <= 0x7fff_ffff_ffff_ffff,
    ;
}

/// The product of two values within `2^62` lies within `2^124`.
pub proof fn lemma_small_product(a: int, b: int)
    requires
        -0x4000_0000_0000_0000 <= a <= 0x4000_0000_0000_0000,
        -0x4000_0000_0000_0000 <= b <= 0x4000_0000_0000_0000,
    ensures
        -0x1000_0000_0000_0000_0000_0000_0000_0000 <= a * b <= 0x1000_0000_0000_0000_0000_0000_0000_0000,
{
    assert(-0x1000_0000_0000_0000_0000_0000_0000_0000 <= a * b <= 0x1000_0000_0000_0000_0000_0000_0000_0000) by (nonlinear_arith)
        requires
            -0x4000_0000_0000_0000 <= a <= 0x4000_0000_0000_0000,
            -0x4000_0000_0000_0000 <= b <= 0x4000_0000_0000_0000,
    ;
}

} // verus!
