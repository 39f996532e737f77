use vstd::prelude::*;
use crate::aabb::{AABB, slab_ok};
use crate::interval::Interval;
use crate::ray::Ray;
use vstd::arithmetic::power2::{pow2, lemma_pow2_unfold};

verus! {

broadcast use vstd::seq_lib::group_to_multiset_ensures;

/// Placeholder child of a node that has fewer than two items below it.
/// It is never hit and its bounding volume is empty.
#[derive(Clone, Copy, Debug, PartialEq, Eq, Structural)]
pub struct EmptyHittable;

impl EmptyHittable {
    pub fn bounding_box(&self) -> (r: AABB)
        ensures
            r == AABB::empty_spec(),
    {
        AABB::empty_box()
    }

    pub fn hit(&self) -> (r: bool)
        ensures
            !r,
    {
        false
    }
}

/// One side of a hierarchy node.
#[derive(Debug)]
pub enum BvhChild {
    Empty(EmptyHittable),
    /// The index of an item in the caller's item list.
    Item(usize),
    Node(Box<HittableTree>),
}

/// A node of the bounding volume hierarchy: two children and the cached
/// union of their bounding volumes.
#[derive(Debug)]
pub struct HittableTree {
    pub left: BvhChild,
    pub right: BvhChild,
    pub aabb: AABB,
}

/// The item indices below a child, left to right.
pub open spec fn child_items(c: BvhChild) -> Seq<usize>
    decreases c,
{
    match c {
        BvhChild::Empty(_) => Seq::empty(),
        BvhChild::Item(i) => seq![i],
        BvhChild::Node(t) => child_items(t.left) + child_items(t.right),
    }
}

/// Number of node levels below and including a child (items and placeholders count none).
pub open spec fn child_height(c: BvhChild) -> nat
    decreases c,
{
    match c {
        BvhChild::Node(t) => {
            let l = child_height(t.left);
            let r = child_height(t.right);
            1 + if l >= r { l } else { r }
        },
        _ => 0,
    }
}

/// The bounding volume of a child, given the items' volumes.
pub open spec fn child_box(c: BvhChild, boxes: Seq<AABB>) -> AABB {
    match c {
        BvhChild::Empty(_) => AABB::empty_spec(),
        BvhChild::Item(i) => boxes[i as int],
        BvhChild::Node(t) => t.aabb,
    }
}

/// Every index is in range and every node caches the union of its children's volumes.
pub open spec fn child_wf(c: BvhChild, boxes: Seq<AABB>) -> bool
    decreases c,
{
    match c {
        BvhChild::Empty(_) => true,
        BvhChild::Item(i) => i < boxes.len(),
        BvhChild::Node(t) => {
            &&& child_wf(t.left, boxes)
            &&& child_wf(t.right, boxes)
            &&& t.aabb == child_box(t.left, boxes).union_spec(child_box(t.right, boxes))
        },
    }
}

/// The union of the volumes of the listed items, folded left to right from the empty volume.
pub open spec fn union_all(items: Seq<usize>, boxes: Seq<AABB>) -> AABB
    decreases items.len(),
{
    if items.len() == 0 {
        AABB::empty_spec()
    } else {
        union_all(items.drop_last(), boxes).union_spec(boxes[items.last() as int])
    }
}

/// The sort key of an item: the lower bound of its volume along `axis`.
pub open spec fn key_of(boxes: Seq<AABB>, axis: int, i: usize) -> int {
    boxes[i as int].axis_spec(axis).min as int
}

pub open spec fn sorted_by_key(items: Seq<usize>, boxes: Seq<AABB>, axis: int) -> bool {
    forall|a: int, b: int|
        0 <= a < b < items.len() ==> key_of(boxes, axis, #[trigger] items[a]) <= key_of(
            boxes,
            axis,
            #[trigger] items[b],
        )
}

pub open spec fn indices_in_range(items: Seq<usize>, n: int) -> bool {
    forall|k: int| 0 <= k < items.len() ==> #[trigger] items[k] < n
}

/// Both children are subtrees; the left one holds the upper half (rounded up)
/// of the items and the right one the lower half, ordered by the lower bound
/// of the item volumes along the longest axis of their union.
pub open spec fn split_at_median(r: HittableTree, items: Seq<usize>, boxes: Seq<AABB>) -> bool {
    let axis = union_all(items, boxes).longest_axis_spec();
    &&& r.left is Node
    &&& r.right is Node
    &&& child_items(r.left).len() == items.len() - items.len() / 2
    &&& child_items(r.right).len() == items.len() / 2
    &&& forall|a: int, b: int|
        0 <= a < child_items(r.left).len() && 0 <= b < child_items(r.right).len() ==> key_of(
            boxes,
            axis,
            #[trigger] child_items(r.right)[b],
        ) <= key_of(boxes, axis, #[trigger] child_items(r.left)[a])
}

impl HittableTree {
    /// Levels of nodes from this one down to the deepest.
    pub open spec fn height(self) -> nat {
        let l = child_height(self.left);
        let r = child_height(self.right);
        1 + if l >= r { l } else { r }
    }

    pub open spec fn items(self) -> Seq<usize> {
        child_items(self.left) + child_items(self.right)
    }

    pub open spec fn wf(self, boxes: Seq<AABB>) -> bool {
        &&& child_wf(self.left, boxes)
        &&& child_wf(self.right, boxes)
        &&& self.aabb == child_box(self.left, boxes).union_spec(child_box(self.right, boxes))
    }

    /// Builds the hierarchy over the items `items`, whose volumes are `boxes[i]`.
    ///
    /// Two items or fewer become the children directly (the last item on the
    /// left, an empty placeholder where one is missing). More items are sorted
    /// by the lower bound of their volume along the longest axis of their union
    /// and split at the median: the upper half goes left, the lower half right.
    pub fn new(items: Vec<usize>, boxes: &Vec<AABB>) -> (r: HittableTree)
        requires
            indices_in_range(items@, boxes@.len() as int),
        ensures
            r.wf(boxes@),
            r.items().to_multiset() == items@.to_multiset(),
            items@.len() <= 2 ==> r.left == (if items@.len() >= 1 {
                BvhChild::Item(items@.last())
            } else {
                BvhChild::Empty(EmptyHittable)
            }) && r.right == (if items@.len() == 2 {
                BvhChild::Item(items@[0])
            } else {
                BvhChild::Empty(EmptyHittable)
            }),
            items@.len() > 2 ==> split_at_median(r, items@, boxes@),
            forall|k: nat| 1 <= k && items@.len() <= #[trigger] pow2(k) ==> r.height() <= k,
        decreases items@.len(),
    {
        let mut items = items;
        let n = items.len();
        if n <= 2 {
            let ghost s = items@;
            let left = match items.pop() {
                Some(i) => BvhChild::Item(i),
                None => BvhChild::Empty(EmptyHittable),
            };
            let right = match items.pop() {
                Some(i) => BvhChild::Item(i),
                None => BvhChild::Empty(EmptyHittable),
            };
            let lb = child_bounding_box(&left, boxes);
            let rb = child_bounding_box(&right, boxes);
            let r = HittableTree { left, right, aabb: lb.union(&rb) };
            proof {
                if n == 2 {
                    assert(r.items() =~= seq![s[1]] + seq![s[0]]);
                    assert(s =~= seq![s[0]] + seq![s[1]]);
                    vstd::seq_lib::lemma_seq_union_to_multiset_commutative(seq![s[1]], seq![s[0]]);
                } else if n == 1 {
                    assert(r.items() =~= seq![s[0]]);
                    assert(s =~= seq![s[0]]);
                } else {
                    assert(r.items() =~= s);
                }
            }
            return r;
        }
        let total = union_of(&items, boxes);
        let axis = total.longest_axis();
        let ghost before = items@;
        sort_by_axis(&mut items, boxes, axis);
        let mid = n / 2;
        let ghost sorted = items@;
        let upper = items.split_off(mid);
        proof {
            assert(sorted =~= items@ + upper@);
            vstd::seq_lib::lemma_multiset_commutative(items@, upper@);
        }
        let ghost lower = items@;
        let ghost up = upper@;
        let left_tree = HittableTree::new(upper, boxes);
        let right_tree = HittableTree::new(items, boxes);
        let aabb = left_tree.aabb.union(&right_tree.aabb);
        let r = HittableTree {
            left: BvhChild::Node(Box::new(left_tree)),
            right: BvhChild::Node(Box::new(right_tree)),
            aabb,
        };
        proof {
            assert forall|k: nat| 1 <= k && n <= #[trigger] pow2(k) implies r.height() <= k by {
                if k == 1 {
                    lemma_pow2_unfold(1);
                    vstd::arithmetic::power2::lemma2_to64();
                } else {
                    lemma_pow2_unfold(k);
                    let k1 = (k - 1) as nat;
                    assert(upper@.len() <= pow2(k1));
                    assert(items@.len() <= pow2(k1));
                }
            }
            vstd::seq_lib::lemma_multiset_commutative(left_tree.items(), right_tree.items());
            let ax = axis as int;
            assert(ax == union_all(before, boxes@).longest_axis_spec());
            assert forall|a: int, b: int|
                0 <= a < left_tree.items().len() && 0 <= b < right_tree.items().len() implies key_of(
                boxes@,
                ax,
                #[trigger] right_tree.items()[b],
            ) <= key_of(boxes@, ax, #[trigger] left_tree.items()[a]) by {
                let x = left_tree.items()[a];
                let y = right_tree.items()[b];
                assert(left_tree.items().contains(x));
                assert(right_tree.items().contains(y));
                vstd::seq_lib::to_multiset_contains(left_tree.items(), x);
                vstd::seq_lib::to_multiset_contains(up, x);
                vstd::seq_lib::to_multiset_contains(right_tree.items(), y);
                vstd::seq_lib::to_multiset_contains(lower, y);
                assert(up.contains(x));
                assert(lower.contains(y));
                let j = choose|j: int| 0 <= j < up.len() && up[j] == x;
                let i = choose|i: int| 0 <= i < lower.len() && lower[i] == y;
                assert(sorted[mid + j] == x);
                assert(sorted[i] == y);
            }
        }
        r
    }

    pub fn bounding_box(&self) -> (r: AABB)
        ensures
            r == self.aabb,
    {
        self.aabb
    }

    /// The items whose volume the ray meets within `window`, in tree order.
    /// A subtree is skipped only when the ray misses its cached volume;
    /// otherwise both children are visited.
    pub fn traverse(&self, boxes: &Vec<AABB>, ray: &Ray, window: &Interval) -> (r: Vec<usize>)
        requires
            self.wf(boxes@),
        ensures
            r@ == self.items().filter(box_hit_pred(boxes@, *ray, *window)),
    {
        let mut out: Vec<usize> = Vec::new();
        if self.aabb.hit(ray, window) {
            traverse_child(&self.left, boxes, ray, window, &mut out);
            traverse_child(&self.right, boxes, ray, window, &mut out);
            proof {
                Seq::filter_distributes_over_add(
                    child_items(self.left),
                    child_items(self.right),
                    box_hit_pred(boxes@, *ray, *window),
                );
            }
        } else {
            proof {
                lemma_missed_node_has_no_candidates(
                    BvhChild::Node(Box::new(*self)), boxes@, *ray, *window);
            }
        }
        out
    }
}

/// Whether the ray meets item `i`'s volume within `window`.
pub open spec fn box_hit_pred(boxes: Seq<AABB>, ray: Ray, window: Interval) -> spec_fn(usize) -> bool {
    |i: usize| boxes[i as int].hit_spec(ray, window)
}

fn traverse_child(c: &BvhChild, boxes: &Vec<AABB>, ray: &Ray, window: &Interval, out: &mut Vec<usize>)
    requires
        child_wf(*c, boxes@),
    ensures
        final(out)@ == old(out)@ + child_items(*c).filter(box_hit_pred(boxes@, *ray, *window)),
    decreases *c,
{
    let ghost pred = box_hit_pred(boxes@, *ray, *window);
    match c {
        BvhChild::Empty(_) => {
            proof {
                reveal(Seq::filter);
                assert(child_items(*c).filter(pred) =~= Seq::<usize>::empty());
            }
            assert(out@ =~= old(out)@ + child_items(*c).filter(pred));
        },
        BvhChild::Item(i) => {
            proof {
                reveal(Seq::filter);
                assert(seq![*i].drop_last() =~= Seq::<usize>::empty());
                assert(Seq::<usize>::empty().filter(pred) =~= Seq::<usize>::empty());
                assert(child_items(*c) == seq![*i]);
            }
            if boxes[*i].hit(ray, window) {
                out.push(*i);
                assert(out@ =~= old(out)@ + child_items(*c).filter(pred));
            } else {
                assert(out@ =~= old(out)@ + child_items(*c).filter(pred));
            }
        },
        BvhChild::Node(t) => {
            if t.aabb.hit(ray, window) {
                traverse_child(&t.left, boxes, ray, window, out);
                traverse_child(&t.right, boxes, ray, window, out);
                proof {
                    Seq::filter_distributes_over_add(
                        child_items(t.left),
                        child_items(t.right),
                        pred,
                    );
                }
                assert(out@ =~= old(out)@ + child_items(*c).filter(pred));
            } else {
                proof {
                    lemma_missed_node_has_no_candidates(*c, boxes@, *ray, *window);
                }
                assert(out@ =~= old(out)@ + child_items(*c).filter(pred));
            }
        },
    }
}

/// A ray inside either volume is inside their union.
pub proof fn lemma_hit_at_union(a: AABB, b: AABB, ray: Ray, t: int)
    requires
        a.hit_at(ray, t) || b.hit_at(ray, t),
    ensures
        a.union_spec(b).hit_at(ray, t),
{
    let u = a.union_spec(b);
    assert(u.x.min <= a.x.min && u.x.min <= b.x.min && u.x.max >= a.x.max && u.x.max >= b.x.max);
    assert(u.y.min <= a.y.min && u.y.min <= b.y.min && u.y.max >= a.y.max && u.y.max >= b.y.max);
    assert(u.z.min <= a.z.min && u.z.min <= b.z.min && u.z.max >= a.z.max && u.z.max >= b.z.max);
    assert(slab_ok(ray, u.x, 0, t)) by (nonlinear_arith)
        requires
            u.x.min <= a.x.min && u.x.min <= b.x.min && u.x.max >= a.x.max && u.x.max >= b.x.max,
            slab_ok(ray, a.x, 0, t) || slab_ok(ray, b.x, 0, t);
    assert(slab_ok(ray, u.y, 1, t)) by (nonlinear_arith)
        requires
            u.y.min <= a.y.min && u.y.min <= b.y.min && u.y.max >= a.y.max && u.y.max >= b.y.max,
            slab_ok(ray, a.y, 1, t) || slab_ok(ray, b.y, 1, t);
    assert(slab_ok(ray, u.z, 2, t)) by (nonlinear_arith)
        requires
            u.z.min <= a.z.min && u.z.min <= b.z.min && u.z.max >= a.z.max && u.z.max >= b.z.max,
            slab_ok(ray, a.z, 2, t) || slab_ok(ray, b.z, 2, t);
}

/// A ray that meets an item's volume at `t` meets the volume of every child above it at `t`.
pub proof fn lemma_item_hit_in_child(c: BvhChild, boxes: Seq<AABB>, k: int, ray: Ray, t: int)
    requires
        child_wf(c, boxes),
        0 <= k < child_items(c).len(),
        boxes[child_items(c)[k] as int].hit_at(ray, t),
    ensures
        child_box(c, boxes).hit_at(ray, t),
    decreases c,
{
    if let BvhChild::Node(n) = c {
        let nl = child_items(n.left).len();
        if k < nl {
            lemma_item_hit_in_child(n.left, boxes, k, ray, t);
        } else {
            lemma_item_hit_in_child(n.right, boxes, k - nl, ray, t);
        }
        lemma_hit_at_union(child_box(n.left, boxes), child_box(n.right, boxes), ray, t);
    }
}

/// Every item index below a well-formed child is in range.
pub proof fn lemma_items_in_range(c: BvhChild, boxes: Seq<AABB>)
    requires
        child_wf(c, boxes),
    ensures
        indices_in_range(child_items(c), boxes.len() as int),
    decreases c,
{
    if let BvhChild::Node(n) = c {
        lemma_items_in_range(n.left, boxes);
        lemma_items_in_range(n.right, boxes);
        assert forall|k: int| 0 <= k < child_items(c).len() implies #[trigger] child_items(c)[k] < boxes.len() by {
            if k >= child_items(n.left).len() {
                assert(child_items(c)[k] == child_items(n.right)[k - child_items(n.left).len()]);
            }
        }
    }
}

/// When the ray misses a child's volume, no item below it is a candidate.
proof fn lemma_missed_node_has_no_candidates(c: BvhChild, boxes: Seq<AABB>, ray: Ray, window: Interval)
    requires
        child_wf(c, boxes),
        !child_box(c, boxes).hit_spec(ray, window),
    ensures
        child_items(c).filter(box_hit_pred(boxes, ray, window)) =~= Seq::<usize>::empty(),
{
    let pred = box_hit_pred(boxes, ray, window);
    assert forall|k: int| 0 <= k < child_items(c).len() implies !pred(#[trigger] child_items(c)[k]) by {
        if pred(child_items(c)[k]) {
            let t = choose|t: int| window.has(t) && #[trigger] boxes[child_items(c)[k] as int].hit_at(ray, t);
            lemma_item_hit_in_child(c, boxes, k, ray, t);
        }
    }
    child_items(c).lemma_all_neg_filter_empty(pred);
}

fn child_bounding_box(c: &BvhChild, boxes: &Vec<AABB>) -> (r: AABB)
    requires
        child_wf(*c, boxes@),
    ensures
        r == child_box(*c, boxes@),
{
    match c {
        BvhChild::Empty(e) => e.bounding_box(),
        BvhChild::Item(i) => boxes[*i],
        BvhChild::Node(t) => t.aabb,
    }
}

/// The union of the volumes of the listed items.
pub fn union_of(items: &Vec<usize>, boxes: &Vec<AABB>) -> (r: AABB)
    requires
        indices_in_range(items@, boxes@.len() as int),
    ensures
        r == union_all(items@, boxes@),
{
    let mut acc = AABB::empty_box();
    let mut k: usize = 0;
    while k < items.len()
        invariant
            k <= items@.len(),
            indices_in_range(items@, boxes@.len() as int),
            acc == union_all(items@.take(k as int), boxes@),
        decreases items@.len() - k,
    {
        assert(items@.take(k as int + 1).drop_last() =~= items@.take(k as int));
        acc = acc.union(&boxes[items[k]]);
        k = k + 1;
    }
    assert(items@.take(k as int) =~= items@);
    acc
}

/// Stable insertion sort of item indices by the lower bound of their volume along `axis`.
pub fn sort_by_axis(items: &mut Vec<usize>, boxes: &Vec<AABB>, axis: usize)
    requires
        axis < 3,
        indices_in_range(old(items)@, boxes@.len() as int),
    ensures
        final(items)@.to_multiset() == old(items)@.to_multiset(),
        final(items)@.len() == old(items)@.len(),
        indices_in_range(final(items)@, boxes@.len() as int),
        sorted_by_key(final(items)@, boxes@, axis as int),
{
    let n = items.len();
    let mut i: usize = 1;
    while i < n
        invariant
            n == items@.len(),
            1 <= i || n == 0,
            items@.to_multiset() == old(items)@.to_multiset(),
            indices_in_range(items@, boxes@.len() as int),
            axis < 3,
            n > 0 ==> i <= n,
            sorted_by_key(items@.take(if i <= n { i as int } else { n as int }), boxes@, axis as int),
        decreases n - i,
    {
        proof {
            assert forall|a: int, b: int| 0 <= a < b <= i && a != i && b != i implies key_of(boxes@, axis as int, #[trigger] items@[a])
                <= key_of(boxes@, axis as int, #[trigger] items@[b]) by {
                assert(items@.take(i as int)[a] == items@[a]);
                assert(items@.take(i as int)[b] == items@[b]);
            }
        }
        let mut j: usize = i;
        while j > 0 && boxes[items[j - 1]].axis(axis).min > boxes[items[j]].axis(axis).min
            invariant
                n == items@.len(),
                0 <= j <= i < n,
                axis < 3,
                items@.to_multiset() == old(items)@.to_multiset(),
                indices_in_range(items@, boxes@.len() as int),
                forall|a: int, b: int|
                    0 <= a < b <= i && a != j && b != j ==> key_of(boxes@, axis as int, #[trigger] items@[a])
                        <= key_of(boxes@, axis as int, #[trigger] items@[b]),
                forall|b: int|
                    j < b <= i ==> key_of(boxes@, axis as int, items@[j as int]) <= key_of(
                        boxes@,
                        axis as int,
                        #[trigger] items@[b],
                    ),
            decreases j,
        {
            let x = items[j - 1];
            let y = items[j];
            let ghost s = items@;
            items.set(j - 1, y);
            items.set(j, x);
            proof {
                assert(items@ == s.update(j - 1, y).update(j as int, x));
                assert(items@.to_multiset() =~= s.to_multiset());
            }
            j = j - 1;
        }
        proof {
            assert forall|a: int, b: int| 0 <= a < b < i + 1 implies key_of(boxes@, axis as int, #[trigger] items@.take(i + 1)[a])
                <= key_of(boxes@, axis as int, #[trigger] items@.take(i + 1)[b]) by {
                if a == j {
                } else if b == j {
                    assert(key_of(boxes@, axis as int, items@[a]) <= key_of(boxes@, axis as int, items@[j - 1]));
                } else {
                }
            }
        }
        i = i + 1;
    }
    assert(items@.take(n as int) =~= items@);
}

/// The parameter at which item `i` is hit, when it is hit within `window`.
pub open spec fn hit_within(hit: spec_fn(usize) -> Option<int>, window: Interval, i: usize) -> bool {
    hit(i) is Some && window.has(hit(i)->0)
}

/// The closest hit of a linear scan over `s`: the first item whose hit
/// parameter within `window` is smallest, or `None` when no item is hit there.
pub open spec fn closest(s: Seq<usize>, hit: spec_fn(usize) -> Option<int>, window: Interval) -> Option<usize>
    decreases s.len(),
{
    if s.len() == 0 {
        None
    } else {
        let prev = closest(s.drop_last(), hit, window);
        let i = s.last();
        if hit_within(hit, window, i) && (prev is None || hit(i)->0 < hit(prev->0)->0) {
            Some(i)
        } else {
            prev
        }
    }
}

/// Dropping items that have no hit within the window does not change the closest hit.
pub proof fn lemma_closest_of_filter(
    s: Seq<usize>,
    pred: spec_fn(usize) -> bool,
    hit: spec_fn(usize) -> Option<int>,
    window: Interval,
)
    requires
        forall|k: int| 0 <= k < s.len() && !pred(#[trigger] s[k]) ==> !hit_within(hit, window, s[k]),
    ensures
        closest(s.filter(pred), hit, window) == closest(s, hit, window),
    decreases s.len(),
{
    reveal(Seq::filter);
    if s.len() > 0 {
        let d = s.drop_last();
        assert forall|k: int| 0 <= k < d.len() && !pred(#[trigger] d[k]) implies !hit_within(hit, window, d[k]) by {
            assert(d[k] == s[k]);
        }
        lemma_closest_of_filter(d, pred, hit, window);
        if pred(s.last()) {
            assert(s.filter(pred).drop_last() =~= d.filter(pred));
        } else {
            assert(!hit_within(hit, window, s[s.len() - 1]));
        }
    }
}

/// Completeness of the hierarchy: the closest hit among the items that
/// `traverse` returns is the closest hit of a linear scan over every item,
/// the same item at the same parameter, provided each item is only ever hit
/// at a parameter where the ray lies inside the item's volume.
pub proof fn lemma_bvh_complete(
    tree: HittableTree,
    boxes: Seq<AABB>,
    ray: Ray,
    window: Interval,
    hit: spec_fn(usize) -> Option<int>,
)
    requires
        tree.wf(boxes),
        forall|i: usize| i < boxes.len() && #[trigger] hit_within(hit, window, i) ==> boxes[i as int].hit_at(ray, hit(i)->0),
    ensures
        closest(tree.items().filter(box_hit_pred(boxes, ray, window)), hit, window)
            == closest(tree.items(), hit, window),
{
    let s = tree.items();
    let pred = box_hit_pred(boxes, ray, window);
    lemma_items_in_range(tree.left, boxes);
    lemma_items_in_range(tree.right, boxes);
    assert forall|k: int| 0 <= k < s.len() && !pred(#[trigger] s[k]) implies !hit_within(hit, window, s[k]) by {
        let nl = child_items(tree.left).len();
        if k < nl {
            assert(s[k] == child_items(tree.left)[k]);
        } else {
            assert(s[k] == child_items(tree.right)[k - nl]);
        }
        if hit_within(hit, window, s[k]) {
            assert(boxes[s[k] as int].hit_at(ray, hit(s[k])->0));
        }
    }
    lemma_closest_of_filter(s, pred, hit, window);
}

} // verus!
