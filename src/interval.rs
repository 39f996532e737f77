use vstd::prelude::*;

verus! {

/// A closed range `[min, max]` of lattice values; empty when `min > max`.
#[derive(Clone, Copy, Debug, PartialEq, Eq, Structural)]
pub struct Interval {
    pub min: i64,
    pub max: i64,
}

impl Interval {
    /// `x` lies in the closed range.
    pub open spec fn has(self, x: int) -> bool {
        self.min <= x <= self.max
    }

    pub open spec fn is_empty(self) -> bool {
        self.min > self.max
    }

    /// The canonical empty interval: it contains nothing and is neutral for `union`.
    pub open spec fn empty_spec() -> Interval {
        Interval { min: i64::MAX, max: i64::MIN }
    }

    /// The canonical interval that spans the whole lattice.
    pub open spec fn universe_spec() -> Interval {
        Interval { min: i64::MIN, max: i64::MAX }
    }

    pub open spec fn union_spec(self, o: Interval) -> Interval {
        Interval {
            min: if self.min <= o.min { self.min } else { o.min },
            max: if self.max >= o.max { self.max } else { o.max },
        }
    }

    pub open spec fn intersect_spec(self, o: Interval) -> Interval {
        Interval {
            min: if self.min >= o.min { self.min } else { o.min },
            max: if self.max <= o.max { self.max } else { o.max },
        }
    }

    pub open spec fn min_max_spec(a: i64, b: i64) -> Interval {
        if a <= b {
            Interval { min: a, max: b }
        } else {
            Interval { min: b, max: a }
        }
    }

    pub fn new(min: i64, max: i64) -> (r: Interval)
        ensures
            r.min == min && r.max == max,
    {
        Interval { min, max }
    }

    pub fn empty_interval() -> (r: Interval)
        ensures
            r == Interval::empty_spec(),
            forall|x: int| !r.has(x),
    {
        Interval { min: i64::MAX, max: i64::MIN }
    }

    pub fn universe() -> (r: Interval)
        ensures
            r == Interval::universe_spec(),
            forall|x: int| i64::MIN <= x <= i64::MAX ==> r.has(x),
    {
        Interval { min: i64::MIN, max: i64::MAX }
    }

    /// The interval spanned by two values, in either order.
    pub fn min_max(a: i64, b: i64) -> (r: Interval)
        ensures
            r == Interval::min_max_spec(a, b),
            r.has(a as int) && r.has(b as int),
    {
        if a <= b {
            Interval { min: a, max: b }
        } else {
            Interval { min: b, max: a }
        }
    }

    /// `max - min`, negative for an empty interval.
    pub fn length(&self) -> (r: i128)
        ensures
            r == self.max - self.min,
    {
        self.max as i128 - self.min as i128
    }

    /// Closed membership test.
    pub fn contains(&self, x: i64) -> (r: bool)
        ensures
            r == self.has(x as int),
    {
        self.min <= x && x <= self.max
    }

    /// Open membership test.
    pub fn surrounds(&self, x: i64) -> (r: bool)
        ensures
            r == (self.min < x && x < self.max),
    {
        self.min < x && x < self.max
    }

    /// Clamps `x` into the interval (lower bound wins when empty).
    pub fn clamp(&self, x: i64) -> (r: i64)
        ensures
            r == (if x < self.min { self.min } else if x > self.max { self.max } else { x }),
            !self.is_empty() ==> self.has(r as int),
    {
        if x < self.min {
            self.min
        } else if x > self.max {
            self.max
        } else {
            x
        }
    }

    /// Lowers the upper bound to `max` if that is smaller.
    pub fn limit_max(&mut self, max: i64)
        ensures
            final(self).min == old(self).min,
            final(self).max == (if max < old(self).max { max } else { old(self).max }),
    {
        if max < self.max {
            self.max = max;
        }
    }

    /// Raises the lower bound to `min` if that is larger.
    pub fn limit_min(&mut self, min: i64)
        ensures
            final(self).max == old(self).max,
            final(self).min == (if min > old(self).min { min } else { old(self).min }),
    {
        if min > self.min {
            self.min = min;
        }
    }

    pub fn empty(&self) -> (r: bool)
        ensures
            r == self.is_empty(),
            r <==> (forall|x: int| !self.has(x)),
    {
        proof {
            if !self.is_empty() {
                assert(self.has(self.min as int));
            }
        }
        self.min > self.max
    }

    pub fn intersect(&self, o: &Interval) -> (r: Interval)
        ensures
            r == self.intersect_spec(*o),
            forall|x: int| r.has(x) <==> (self.has(x) && o.has(x)),
    {
        Interval {
            min: if self.min >= o.min { self.min } else { o.min },
            max: if self.max <= o.max { self.max } else { o.max },
        }
    }

    /// The smallest interval containing both.
    pub fn union(&self, o: &Interval) -> (r: Interval)
        ensures
            r == self.union_spec(*o),
            forall|x: int| self.has(x) || o.has(x) ==> r.has(x),
    {
        Interval {
            min: if self.min <= o.min { self.min } else { o.min },
            max: if self.max >= o.max { self.max } else { o.max },
        }
    }

    /// The smallest interval containing this one and `x`.
    pub fn enclose(&self, x: i64) -> (r: Interval)
        ensures
            r == self.union_spec(Interval { min: x, max: x }),
            r.has(x as int),
            forall|y: int| self.has(y) ==> r.has(y),
    {
        Interval {
            min: if self.min <= x { self.min } else { x },
            max: if self.max >= x { self.max } else { x },
        }
    }
}

impl Interval {
    /// Moves each bound outward by `delta`, saturating at the lattice bounds.
    pub fn widen(&self, delta: u32) -> (r: Interval)
        ensures
            r.min == (if self.min - delta < i64::MIN { i64::MIN as int } else { self.min - delta }),
            r.max == (if self.max + delta > i64::MAX { i64::MAX as int } else { self.max + delta }),
            forall|x: int| self.has(x) ==> r.has(x),
    {
        let lo = self.min as i128 - delta as i128;
        let hi = self.max as i128 + delta as i128;
        Interval {
            min: if lo < i64::MIN as i128 { i64::MIN } else { lo as i64 },
            max: if hi > i64::MAX as i128 { i64::MAX } else { hi as i64 },
        }
    }
}

} // verus!
