use vstd::prelude::*;
use crate::onb::{FRAME_LIMIT, Onb};
use crate::vec3::{Vec3, cross_spec};

verus! {

/// Where the camera stands, what it looks at, and which way is up.
#[derive(Clone, Copy, Debug, PartialEq, Eq, Structural)]
pub struct PerspectiveParam {
    pub look_from: Vec3,
    pub look_at: Vec3,
    pub view_up: Vec3,
}

/// Size of the image and the per-pixel sample budget.
#[derive(Clone, Copy, Debug, PartialEq, Eq, Structural)]
pub struct ImageParam {
    pub image_width: u32,
    pub image_height: u32,
    pub sample_per_pixel: u32,
}

impl PerspectiveParam {
    /// The viewing direction reversed: `look_from - look_at`.
    pub open spec fn back_spec(self) -> (int, int, int) {
        (
            self.look_from.x - self.look_at.x,
            self.look_from.y - self.look_at.y,
            self.look_from.z - self.look_at.z,
        )
    }

    /// The camera frame: `w` points from the target back to the eye, `u` to
    /// the right (`view_up x w`), `v` up within the image plane (`w x u`).
    pub fn frame(&self) -> (r: Onb)
        requires
            -FRAME_LIMIT <= self.back_spec().0 <= FRAME_LIMIT,
            -FRAME_LIMIT <= self.back_spec().1 <= FRAME_LIMIT,
            -FRAME_LIMIT <= self.back_spec().2 <= FRAME_LIMIT,
            self.view_up.bounded(FRAME_LIMIT as int),
        ensures
            r.w.view() == self.back_spec(),
            r.u.view() == cross_spec(self.view_up.view(), self.back_spec()),
            r.v.view() == cross_spec(self.back_spec(), r.u.view()),
            r.orthogonal(),
    {
        let back = self.look_from.sub(&self.look_at);
        Onb::normal_with_up(back, self.view_up)
    }
}

/// `floor(sqrt(n))`: the largest `r` with `r * r <= n`.
pub open spec fn is_isqrt(n: int, r: int) -> bool {
    0 <= r && r * r <= n < (r + 1) * (r + 1)
}

impl ImageParam {
    /// Number of pixels, `image_width * image_height`.
    pub fn image_size(&self) -> (r: u64)
        ensures
            r == self.image_width * self.image_height,
    {
        proof {
            vstd::arithmetic::mul::lemma_mul_upper_bound(
                self.image_width as int, u32::MAX as int, self.image_height as int, u32::MAX as int);
        }
        self.image_width as u64 * self.image_height as u64
    }

    /// Side of the stratification grid: `floor(sqrt(sample_per_pixel))`.
    pub fn sqrt_spp(&self) -> (r: u32)
        ensures
            is_isqrt(self.sample_per_pixel as int, r as int),
    {
        let n = self.sample_per_pixel as u64;
        let mut lo: u64 = 0;
        let mut hi: u64 = 65536;
        proof {
            assert(65536 * 65536 == 0x1_0000_0000u64);
        }
        while hi - lo > 1
            invariant
                lo < hi <= 65536,
                lo * lo <= n,
                n < hi * hi,
                n == self.sample_per_pixel,
            decreases hi - lo,
        {
            let mid = lo + (hi - lo) / 2;
            proof {
                vstd::arithmetic::mul::lemma_mul_upper_bound(mid as int, 65536, mid as int, 65536);
            }
            if mid * mid <= n {
                lo = mid;
            } else {
                hi = mid;
            }
        }
        assert(hi == lo + 1);
        lo as u32
    }
}

/// Position of pixel `(i, j)` in a column-major buffer of `height` rows.
pub fn pixel_index(i: u32, j: u32, height: u32) -> (r: usize)
    requires
        j < height,
        (i + 1) * height <= usize::MAX,
    ensures
        r == i * height + j,
{
    proof {
        vstd::arithmetic::mul::lemma_mul_is_distributive_add_other_way(height as int, i as int, 1);
    }
    i as usize * height as usize + j as usize
}

} // verus!
