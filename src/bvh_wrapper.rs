use vstd::prelude::*;
use crate::aabb::AABB;
use crate::bvh::{HittableTree, box_hit_pred, indices_in_range, union_all};
use crate::interval::Interval;
use crate::ray::Ray;

verus! {

/// Anything that can report a bounding volume on the lattice.
pub trait AabbProvider {
    fn aabb(&self) -> AABB;
}

impl AabbProvider for AABB {
    fn aabb(&self) -> AABB {
        *self
    }
}

/// An item together with the volume it reported when it was added.
pub struct BoundedNode<T: AabbProvider> {
    pub inner: T,
    pub aabb: AABB,
    pub node_index: usize,
}

impl<T: AabbProvider> BoundedNode<T> {
    fn new(inner: T, node_index: usize) -> (r: BoundedNode<T>)
        ensures
            r.inner == inner,
            r.node_index == node_index,
    {
        let aabb = inner.aabb();
        BoundedNode { inner, aabb, node_index }
    }
}

/// The volumes of a list of nodes, in order.
pub open spec fn node_boxes<T: AabbProvider>(v: Seq<BoundedNode<T>>) -> Seq<AABB> {
    v.map_values(|n: BoundedNode<T>| n.aabb)
}

/// Collects items, keeping the union of their volumes, before building a hierarchy.
pub struct BoundedTreeBuilder<T: AabbProvider> {
    pub vec: Vec<BoundedNode<T>>,
    pub aabb: AABB,
}

pub open spec fn index_seq(n: int) -> Seq<usize> {
    Seq::new(n as nat, |k: int| k as usize)
}

impl<T: AabbProvider> BoundedTreeBuilder<T> {
    /// The cached volume is the union of the items' volumes, and each node knows its position.
    pub open spec fn wf(self) -> bool {
        &&& self.aabb == union_all(index_seq(self.vec@.len() as int), node_boxes(self.vec@))
        &&& forall|k: int| 0 <= k < self.vec@.len() ==> #[trigger] self.vec@[k].node_index == k
    }

    pub fn new() -> (r: BoundedTreeBuilder<T>)
        ensures
            r.wf(),
            r.vec@.len() == 0,
            r.aabb == AABB::empty_spec(),
    {
        BoundedTreeBuilder { vec: Vec::new(), aabb: AABB::empty_box() }
    }

    /// Appends an item; the cached volume grows by the item's volume.
    pub fn add(&mut self, t: T)
        requires
            old(self).wf(),
            old(self).vec@.len() < usize::MAX,
        ensures
            final(self).wf(),
            final(self).vec@.len() == old(self).vec@.len() + 1,
            final(self).vec@.drop_last() == old(self).vec@,
            final(self).vec@.last().inner == t,
            final(self).aabb == old(self).aabb.union_spec(final(self).vec@.last().aabb),
    {
        let n = self.vec.len();
        let node = BoundedNode::new(t, n);
        self.aabb = self.aabb.union(&node.aabb);
        self.vec.push(node);
        proof {
            let s = index_seq(n as int + 1);
            assert(s.drop_last() =~= index_seq(n as int));
            assert(self.vec@.drop_last() =~= old(self).vec@);
            let nb = node_boxes(self.vec@);
            let ob = node_boxes(old(self).vec@);
            assert(union_all(index_seq(n as int), nb) == union_all(index_seq(n as int), ob)) by {
                lemma_union_all_prefix(index_seq(n as int), nb, ob);
            }
        }
    }

    /// Builds the hierarchy over every item added so far.
    pub fn build(self) -> (r: BoundedTree<T>)
        requires
            self.wf(),
        ensures
            r.wf(),
            r.vec@ == self.vec@,
            r.aabb == self.aabb,
    {
        let n = self.vec.len();
        let mut boxes: Vec<AABB> = Vec::new();
        let mut items: Vec<usize> = Vec::new();
        let mut k: usize = 0;
        while k < n
            invariant
                n == self.vec@.len(),
                k <= n,
                boxes@ == node_boxes(self.vec@).take(k as int),
                items@ == index_seq(k as int),
            decreases n - k,
        {
            boxes.push(self.vec[k].aabb);
            items.push(k);
            k = k + 1;
            assert(boxes@ =~= node_boxes(self.vec@).take(k as int));
            assert(items@ =~= index_seq(k as int));
        }
        assert(boxes@ =~= node_boxes(self.vec@));
        let tree = HittableTree::new(items, &boxes);
        BoundedTree { vec: self.vec, boxes, tree, aabb: self.aabb }
    }
}

impl<T: AabbProvider> Default for BoundedTreeBuilder<T> {
    fn default() -> (r: BoundedTreeBuilder<T>)
        ensures
            r.wf(),
            r.vec@.len() == 0,
            r.aabb == AABB::empty_spec(),
    {
        BoundedTreeBuilder::new()
    }
}

/// Union folds agree on two volume lists that agree on the listed items.
proof fn lemma_union_all_prefix(items: Seq<usize>, a: Seq<AABB>, b: Seq<AABB>)
    requires
        forall|k: int| 0 <= k < items.len() ==> #[trigger] a[items[k] as int] == b[items[k] as int],
    ensures
        union_all(items, a) == union_all(items, b),
    decreases items.len(),
{
    if items.len() > 0 {
        let d = items.drop_last();
        assert forall|k: int| 0 <= k < d.len() implies #[trigger] a[d[k] as int] == b[d[k] as int] by {
            assert(d[k] == items[k]);
        }
        lemma_union_all_prefix(d, a, b);
        assert(a[items.last() as int] == b[items.last() as int]);
    }
}

/// A hierarchy over owned items; traversal yields the positions of the items
/// whose volume a ray meets.
pub struct BoundedTree<T: AabbProvider> {
    pub vec: Vec<BoundedNode<T>>,
    pub boxes: Vec<AABB>,
    pub tree: HittableTree,
    pub aabb: AABB,
}

impl<T: AabbProvider> BoundedTree<T> {
    pub open spec fn wf(self) -> bool {
        &&& self.boxes@ == node_boxes(self.vec@)
        &&& self.tree.wf(self.boxes@)
        &&& self.tree.items().to_multiset() == index_seq(self.vec@.len() as int).to_multiset()
    }

    /// Positions of the items whose volume the ray meets within `window`.
    pub fn traverse(&self, ray: &Ray, window: &Interval) -> (r: Vec<usize>)
        requires
            self.wf(),
        ensures
            r@ == self.tree.items().filter(box_hit_pred(self.boxes@, *ray, *window)),
    {
        self.tree.traverse(&self.boxes, ray, window)
    }

    pub fn len(&self) -> (r: usize)
        ensures
            r == self.vec@.len(),
    {
        self.vec.len()
    }

    pub fn get(&self, i: usize) -> (r: &T)
        requires
            i < self.vec@.len(),
        ensures
            *r == self.vec@[i as int].inner,
    {
        &self.vec[i].inner
    }

    pub fn aabb(&self) -> (r: AABB)
        ensures
            r == self.aabb,
    {
        self.aabb
    }
}

} // verus!
