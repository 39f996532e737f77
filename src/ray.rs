use vstd::prelude::*;
use crate::vec3::Vec3;

verus! {

/// Fixed-point scale of the ray parameter: a parameter value `t` stands for `t / T_SCALE`.
pub const T_SCALE: i128 = 65536;

/// A ray `origin + (t / T_SCALE) * direction` over the lattice.
#[derive(Clone, Copy, Debug, PartialEq, Eq, Structural)]
pub struct Ray {
    pub origin: Vec3,
    pub direction: Vec3,
}

impl Ray {
    /// Coordinate `axis` of the point at parameter `t`, multiplied by `T_SCALE`.
    pub open spec fn at_scaled(self, t: int, axis: int) -> int {
        self.origin.axis_spec(axis) * T_SCALE + t * self.direction.axis_spec(axis)
    }

    pub fn new(origin: Vec3, direction: Vec3) -> (r: Ray)
        ensures
            r.origin == origin && r.direction == direction,
    {
        Ray { origin, direction }
    }
}

/// `floor(a / b)` for a positive divisor.
pub open spec fn floor_div(a: int, b: int) -> int {
    a / b
}

/// Exact floor division of `a` by a positive `b`.
pub fn floor_div_exec(a: i128, b: i128) -> (q: i128)
    requires
        b > 0,
        a > i128::MIN,
    ensures
        q == floor_div(a as int, b as int),
        q * b <= a < q * b + b,
        a >= 0 ==> 0 <= q <= a,
        a < 0 ==> a <= q < 0,
{
    proof {
        vstd::arithmetic::div_mod::lemma_fundamental_div_mod(a as int, b as int);
        vstd::arithmetic::div_mod::lemma_mod_bound(a as int, b as int);
    }
    let q = if a >= 0 {
        proof {
            vstd::arithmetic::div_mod::lemma_div_pos_is_pos(a as int, b as int);
            vstd::arithmetic::div_mod::lemma_div_is_ordered_by_denominator(a as int, 1, b as int);
        }
        a / b
    } else {
        let m = -a;
        proof {
            vstd::arithmetic::div_mod::lemma_fundamental_div_mod(m as int, b as int);
            vstd::arithmetic::div_mod::lemma_mod_bound(m as int, b as int);
            vstd::arithmetic::div_mod::lemma_div_pos_is_pos(m as int, b as int);
            vstd::arithmetic::div_mod::lemma_div_is_ordered_by_denominator(m as int, 1, b as int);
        }
        let q0 = m / b;
        let r0 = m % b;
        proof {
            assert(m == b * q0 + r0);
            assert(a == b * (a as int / b as int) + (a as int % b as int));
            // a = -(b*q0 + r0); the floor is -q0 when r0 == 0 and -q0 - 1 otherwise.
            if r0 == 0 {
                assert(a == b * (-q0) + 0) by (nonlinear_arith) requires m == b * q0 + r0, r0 == 0, a == -m;
                vstd::arithmetic::div_mod::lemma_fundamental_div_mod_converse(a as int, b as int, -q0 as int, 0);
            } else {
                assert(a == b * (-q0 - 1) + (b - r0)) by (nonlinear_arith) requires m == b * q0 + r0, a == -m;
                vstd::arithmetic::div_mod::lemma_fundamental_div_mod_converse(a as int, b as int, -q0 - 1, b - r0);
            }
        }
        if r0 == 0 {
            -q0
        } else {
            -q0 - 1
        }
    };
    proof {
        assert(q * b == b * q) by (nonlinear_arith);
        assert(a >= 0 ==> 0 <= q <= a) by (nonlinear_arith)
            requires q * b <= a < q * b + b, b >= 1;
        assert(a < 0 ==> a <= q < 0) by (nonlinear_arith)
            requires q * b <= a < q * b + b, b >= 1;
    }
    q
}

/// For a positive `b`: `t * b <= a` exactly when `t <= floor(a / b)`.
pub proof fn lemma_le_floor(t: int, a: int, b: int)
    requires
        b > 0,
    ensures
        (t * b <= a) <==> (t <= floor_div(a, b)),
{
    let q = a / b;
    vstd::arithmetic::div_mod::lemma_fundamental_div_mod(a, b);
    vstd::arithmetic::div_mod::lemma_mod_bound(a, b);
    if t <= q {
        assert(t * b <= q * b) by (nonlinear_arith) requires t <= q, b > 0;
        assert(q * b == b * q) by (nonlinear_arith);
    } else {
        assert(t * b >= (q + 1) * b) by (nonlinear_arith) requires t >= q + 1, b > 0;
        assert((q + 1) * b == b * q + b) by (nonlinear_arith);
    }
}

} // verus!
