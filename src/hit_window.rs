use vstd::prelude::*;
use crate::bvh::{closest, hit_within};
use crate::interval::Interval;

verus! {

/// The hit parameters reported for each item, as a function.
pub open spec fn hit_fn(hits: Seq<Option<i64>>) -> spec_fn(usize) -> Option<int> {
    |i: usize|
        if i < hits.len() {
            match hits[i as int] {
                Some(t) => Some(t as int),
                None => None,
            }
        } else {
            None
        }
}

/// An item hit at a ray parameter.
#[derive(Clone, Copy, Debug, PartialEq, Eq, Structural)]
pub struct Hit {
    pub item: usize,
    pub t: i64,
}

/// The closest hit found so far along a ray, and the window in which a
/// later hit must fall to replace it. Accepting a hit shrinks the window's
/// upper bound to that hit.
#[derive(Clone, Copy, Debug, PartialEq, Eq, Structural)]
pub struct HitWindow {
    pub window: Interval,
    pub best: Option<Hit>,
}

impl HitWindow {
    pub fn new(window: Interval) -> (r: HitWindow)
        ensures
            r.window == window,
            r.best is None,
    {
        HitWindow { window, best: None }
    }

    /// Offers item `i` hit at `t`. It is taken when `t` lies in the window and
    /// is strictly closer than the current best; the window then ends at `t`.
    pub fn set_hit(&mut self, i: usize, t: i64) -> (accepted: bool)
        ensures
            accepted == (old(self).window.has(t as int) && (old(self).best is None || t
                < (old(self).best->0).t)),
            accepted ==> final(self).best == Some(Hit { item: i, t }) && final(self).window == (Interval {
                min: old(self).window.min,
                max: t,
            }),
            !accepted ==> *final(self) == *old(self),
    {
        let closer = match self.best {
            None => true,
            Some(b) => t < b.t,
        };
        if self.window.contains(t) && closer {
            self.best = Some(Hit { item: i, t });
            self.window.limit_max(t);
            true
        } else {
            false
        }
    }
}

/// Scans `items` in order, offering each reported hit to a narrowing window.
/// The result is the closest hit of the scan: the first item with the
/// smallest hit parameter inside `window`.
pub fn closest_hit(items: &Vec<usize>, hits: &Vec<Option<i64>>, window: Interval) -> (r: Option<usize>)
    ensures
        r == closest(items@, hit_fn(hits@), window),
{
    let ghost h = hit_fn(hits@);
    let mut record = HitWindow::new(window);
    let mut k: usize = 0;
    while k < items.len()
        invariant
            k <= items@.len(),
            h == hit_fn(hits@),
            record.window.min == window.min,
            (match record.best {
                None => closest(items@.take(k as int), h, window) is None && record.window == window,
                Some(b) => closest(items@.take(k as int), h, window) == Some(b.item)
                    && h(b.item) == Some(b.t as int) && hit_within(h, window, b.item) && record.window.max == b.t,
            }),
        decreases items@.len() - k,
    {
        let i = items[k];
        assert(items@.take(k as int + 1).drop_last() =~= items@.take(k as int));
        assert(items@.take(k as int + 1).last() == i);
        if i < hits.len() {
            if let Some(t) = hits[i] {
                record.set_hit(i, t);
            }
        }
        k = k + 1;
    }
    assert(items@.take(k as int) =~= items@);
    match record.best {
        None => None,
        Some(b) => Some(b.item),
    }
}

} // verus!
