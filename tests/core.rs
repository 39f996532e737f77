use raytracer::aabb::AABB;
use raytracer::bvh::{BvhChild, HittableTree};
use raytracer::bvh_wrapper::BoundedTreeBuilder;
use raytracer::camera::{pixel_index, ImageParam, PerspectiveParam};
use raytracer::hit_window::{closest_hit, Hit, HitWindow};
use raytracer::integrator::{next_bounce, Bounce, Strategy, Surface};
use raytracer::interval::Interval;
use raytracer::mesh::triangle_indices;
use raytracer::noise::{Noise, POINT_COUNT};
use raytracer::onb::Onb;
use raytracer::random::choose_light;
use raytracer::ray::{floor_div_exec, Ray, T_SCALE};
use raytracer::sampling::{accumulated_counts, merge_into, partition_samples, split_samples, stratum_of, task_buffer};
use raytracer::vec3::Vec3;

fn cube(x: i64, y: i64, z: i64, s: i64) -> AABB {
    AABB::from_vec3(&Vec3::new(x, y, z), &Vec3::new(x + s, y + s, z + s))
}

fn items_of(c: &BvhChild, out: &mut Vec<usize>) {
    match c {
        BvhChild::Empty(_) => {}
        BvhChild::Item(i) => out.push(*i),
        BvhChild::Node(t) => {
            items_of(&t.left, out);
            items_of(&t.right, out);
        }
    }
}

fn tree_items(t: &HittableTree) -> Vec<usize> {
    let mut out = Vec::new();
    items_of(&t.left, &mut out);
    items_of(&t.right, &mut out);
    out
}

fn child_box(c: &BvhChild, boxes: &[AABB]) -> AABB {
    match c {
        BvhChild::Empty(e) => e.bounding_box(),
        BvhChild::Item(i) => boxes[*i],
        BvhChild::Node(t) => t.aabb,
    }
}

fn child_height(c: &BvhChild) -> usize {
    match c {
        BvhChild::Node(t) => height(t),
        _ => 0,
    }
}

fn height(t: &HittableTree) -> usize {
    1 + child_height(&t.left).max(child_height(&t.right))
}

fn check_cached_boxes(t: &HittableTree, boxes: &[AABB]) {
    let l = child_box(&t.left, boxes);
    let r = child_box(&t.right, boxes);
    assert_eq!(t.aabb, l.union(&r));
    for c in [&t.left, &t.right] {
        if let BvhChild::Node(n) = c {
            check_cached_boxes(n, boxes);
        }
    }
}

#[test]
fn test_vec3d() {
    let v1 = Vec3::new(1, 2, 3);
    let v2 = Vec3::new(4, 5, 6);
    assert_eq!(v1.dot(&v2), 32);
    assert_eq!(v1.length_squared(), 14);
}

#[test]
fn cross_product_exact() {
    let x = Vec3::new(1, 0, 0);
    let y = Vec3::new(0, 1, 0);
    assert_eq!(x.cross(&y), Vec3::new(0, 0, 1));
    assert_eq!(Vec3::new(2, 3, 4).cross(&Vec3::new(5, 6, 7)), Vec3::new(-3, 6, -3));
}

#[test]
fn interval_basics() {
    let a = Interval::new(1, 5);
    let b = Interval::new(3, 9);
    assert_eq!(a.union(&b), Interval::new(1, 9));
    assert_eq!(a.intersect(&b), Interval::new(3, 5));
    assert!(a.contains(5));
    assert!(!a.surrounds(5));
    assert!(a.surrounds(4));
    assert_eq!(a.clamp(7), 5);
    assert_eq!(a.clamp(-2), 1);
    assert_eq!(a.length(), 4);
    assert_eq!(Interval::min_max(8, 2), Interval::new(2, 8));
    assert_eq!(a.enclose(12), Interval::new(1, 12));
    assert!(Interval::new(4, 3).empty());
    assert!(Interval::empty_interval().empty());
    assert!(!Interval::universe().empty());
    assert!(Interval::universe().contains(i64::MIN));
    assert_eq!(Interval::new(i64::MAX - 1, 0).widen(5).max, 5);
    assert_eq!(Interval::new(i64::MIN + 1, 0).widen(5).min, i64::MIN);
    let mut w = Interval::new(0, 100);
    w.limit_max(40);
    w.limit_max(60);
    w.limit_min(10);
    assert_eq!(w, Interval::new(10, 40));
}

#[test]
fn union_contains_both_and_empty_is_neutral() {
    let a = cube(0, 0, 0, 2);
    let b = cube(5, -3, 1, 1);
    let u = a.union(&b);
    for p in [Vec3::new(0, 0, 0), Vec3::new(2, 2, 2), Vec3::new(5, -3, 1), Vec3::new(6, -2, 2), Vec3::new(1, 1, 1)] {
        assert!(a.contains(&p) || b.contains(&p));
        assert!(u.contains(&p));
    }
    assert_eq!(a.union(&AABB::empty_box()), a);
    assert_eq!(AABB::empty_box().union(&a), a);
    assert_eq!(a.union(&b), b.union(&a));
    assert!(!AABB::empty_box().contains(&Vec3::new(0, 0, 0)));
}

#[test]
fn longest_axis_ties() {
    assert_eq!(AABB::new(Interval::new(0, 10), Interval::new(0, 3), Interval::new(0, 3)).longest_axis(), 0);
    assert_eq!(AABB::new(Interval::new(0, 3), Interval::new(0, 10), Interval::new(0, 3)).longest_axis(), 1);
    assert_eq!(AABB::new(Interval::new(0, 3), Interval::new(0, 10), Interval::new(0, 10)).longest_axis(), 2);
    assert_eq!(AABB::new(Interval::new(0, 10), Interval::new(0, 3), Interval::new(0, 10)).longest_axis(), 2);
    assert_eq!(cube(0, 0, 0, 4).longest_axis(), 2);
}

#[test]
fn floor_division() {
    assert_eq!(floor_div_exec(7, 2), 3);
    assert_eq!(floor_div_exec(-7, 2), -4);
    assert_eq!(floor_div_exec(-6, 2), -3);
    assert_eq!(floor_div_exec(0, 5), 0);
}

#[test]
fn ray_box_slab_test() {
    let b = cube(10, -1, -1, 2);
    let along_x = Ray::new(Vec3::new(0, 0, 0), Vec3::new(1, 0, 0));
    let all = Interval::new(0, i64::MAX);
    assert!(b.hit(&along_x, &all));
    // The box starts at x = 10, i.e. parameter 10 * T_SCALE.
    let start = (10 * T_SCALE) as i64;
    assert!(!b.hit(&along_x, &Interval::new(0, start - 1)));
    assert!(b.hit(&along_x, &Interval::new(0, start)));
    assert!(!b.hit(&along_x, &Interval::new((12 * T_SCALE) as i64 + 1, i64::MAX)));
    let backwards = Ray::new(Vec3::new(0, 0, 0), Vec3::new(-1, 0, 0));
    assert!(!b.hit(&backwards, &all));
    let parallel_outside = Ray::new(Vec3::new(0, 5, 0), Vec3::new(1, 0, 0));
    assert!(!b.hit(&parallel_outside, &all));
    let diagonal = Ray::new(Vec3::new(0, 0, 0), Vec3::new(3, 1, 0));
    assert!(!b.hit(&diagonal, &all));
    let diagonal_in = Ray::new(Vec3::new(0, -4, 0), Vec3::new(11, 4, 0));
    assert!(b.hit(&diagonal_in, &all));
    assert!(!AABB::empty_box().hit(&along_x, &Interval::universe()));
}

#[test]
fn bvh_keeps_every_item_once() {
    let boxes: Vec<AABB> = (0..37).map(|k| cube((k * 7) % 23, (k * 5) % 11, k % 3, 1 + k % 4)).collect();
    let tree = HittableTree::new((0..boxes.len()).collect(), &boxes);
    let mut items = tree_items(&tree);
    items.sort();
    assert_eq!(items, (0..boxes.len()).collect::<Vec<_>>());
    check_cached_boxes(&tree, &boxes);
    let all = boxes.iter().fold(AABB::empty_box(), |acc, b| acc.union(b));
    assert_eq!(tree.bounding_box(), all);
}

#[test]
fn bvh_small_lists() {
    let boxes = vec![cube(0, 0, 0, 1), cube(4, 0, 0, 1)];
    let empty = HittableTree::new(vec![], &boxes);
    assert!(matches!(empty.left, BvhChild::Empty(_)));
    assert!(matches!(empty.right, BvhChild::Empty(_)));
    assert_eq!(empty.aabb, AABB::empty_box());
    assert!(!empty.aabb.hit(&Ray::new(Vec3::new(0, 0, 0), Vec3::new(1, 1, 1)), &Interval::universe()));
    let one = HittableTree::new(vec![1], &boxes);
    assert!(matches!(one.left, BvhChild::Item(1)));
    assert!(matches!(one.right, BvhChild::Empty(_)));
    let two = HittableTree::new(vec![0, 1], &boxes);
    assert!(matches!(two.left, BvhChild::Item(1)));
    assert!(matches!(two.right, BvhChild::Item(0)));
    assert_eq!(two.aabb, boxes[0].union(&boxes[1]));
}

#[test]
fn bvh_splits_at_median_along_longest_axis() {
    // Spread along x, given out of order: the upper half in x goes left.
    let boxes: Vec<AABB> = [3, 0, 5, 1, 4, 2].iter().map(|&x| cube(x * 10, 0, 0, 1)).collect();
    let tree = HittableTree::new((0..6).collect(), &boxes);
    let (l, r) = match (&tree.left, &tree.right) {
        (BvhChild::Node(l), BvhChild::Node(r)) => (l, r),
        _ => panic!("expected two subtrees"),
    };
    let mut left: Vec<i64> = tree_items(l).iter().map(|&i| boxes[i].x.min).collect();
    let mut right: Vec<i64> = tree_items(r).iter().map(|&i| boxes[i].x.min).collect();
    left.sort();
    right.sort();
    assert_eq!(left, vec![30, 40, 50]);
    assert_eq!(right, vec![0, 10, 20]);
}

#[test]
fn bvh_traversal_matches_linear_scan() {
    let boxes: Vec<AABB> = (0..50).map(|k| cube((k * 13) % 40 - 20, (k * 7) % 30 - 15, (k * 3) % 20 - 10, 2 + k % 3)).collect();
    let tree = HittableTree::new((0..boxes.len()).collect(), &boxes);
    let window = Interval::new(0, 200 * T_SCALE as i64);
    let mut seed: u64 = 12345;
    for _ in 0..300 {
        let mut next = || {
            seed = seed.wrapping_mul(6364136223846793005).wrapping_add(1442695040888963407);
            ((seed >> 33) % 61) as i64 - 30
        };
        let ray = Ray::new(Vec3::new(next(), next(), next()), Vec3::new(next(), next(), next()));
        let mut got = tree.traverse(&boxes, &ray, &window);
        let mut expected: Vec<usize> = (0..boxes.len()).filter(|&i| boxes[i].hit(&ray, &window)).collect();
        got.sort();
        expected.sort();
        assert_eq!(got, expected);
    }
}

#[test]
fn bounded_tree_builder_collects_union() {
    let empty: BoundedTreeBuilder<AABB> = BoundedTreeBuilder::default();
    assert!(empty.vec.is_empty());
    assert_eq!(empty.aabb, AABB::empty_box());
    assert_eq!(empty.build().len(), 0);
    let mut builder = BoundedTreeBuilder::new();
    builder.add(cube(0, 0, 0, 1));
    builder.add(cube(-5, 2, 3, 2));
    builder.add(cube(9, 9, 9, 1));
    assert_eq!(builder.aabb, AABB::from_vec3(&Vec3::new(-5, 0, 0), &Vec3::new(10, 10, 10)));
    assert_eq!(builder.vec[2].node_index, 2);
    let tree = builder.build();
    assert_eq!(tree.len(), 3);
    assert_eq!(*tree.get(1), cube(-5, 2, 3, 2));
    let ray = Ray::new(Vec3::new(-20, 3, 4), Vec3::new(1, 0, 0));
    let hits = tree.traverse(&ray, &Interval::new(0, i64::MAX));
    assert_eq!(hits, vec![1]);
    assert_eq!(tree.aabb(), AABB::from_vec3(&Vec3::new(-5, 0, 0), &Vec3::new(10, 10, 10)));
}

#[test]
fn frames_are_orthogonal() {
    let n = Vec3::new(3, -4, 12);
    let f = Onb::normal(n);
    assert_eq!(f.w, n);
    assert_eq!(f.u, Vec3::new(1, 0, 0).cross(&n));
    assert_eq!(f.u.dot(&f.v), 0);
    assert_eq!(f.v.dot(&f.w), 0);
    assert_eq!(f.u.dot(&f.w), 0);
    // Nearly along x: the helper axis switches to y.
    let nx = Vec3::new(10, 1, 1);
    let g = Onb::normal(nx);
    assert_eq!(g.u, Vec3::new(0, 1, 0).cross(&nx));
    let h = Onb::normal_with_up(Vec3::new(0, 0, 5), Vec3::new(0, 1, 0));
    assert_eq!(h.u, Vec3::new(5, 0, 0));
    assert_eq!(h.v, Vec3::new(0, 25, 0));
    let t = Onb::normal_with_tangent(Vec3::new(0, 0, 1), Vec3::new(1, 0, 0));
    assert_eq!(t.v, Vec3::new(0, 1, 0));
    assert_eq!(t.local(Vec3::new(2, 3, 4)), Vec3::new(2, 3, 4));
    assert_eq!(h.local(Vec3::new(1, 1, 1)), Vec3::new(5, 25, 5));
}

#[test]
fn camera_frame_from_perspective() {
    let p = PerspectiveParam {
        look_from: Vec3::new(12, 12, -6),
        look_at: Vec3::new(0, 0, 0),
        view_up: Vec3::new(0, 1, 0),
    };
    let f = p.frame();
    assert_eq!(f.w, Vec3::new(12, 12, -6));
    assert_eq!(f.u, Vec3::new(-6, 0, -12));
    assert_eq!(f.u.dot(&f.v), 0);
    assert_eq!(f.v.dot(&f.w), 0);
}

#[test]
fn stratification_grid_side() {
    let side = |spp: u32| ImageParam { image_width: 400, image_height: 225, sample_per_pixel: spp }.sqrt_spp();
    assert_eq!(side(100), 10);
    assert_eq!(side(99), 9);
    assert_eq!(side(0), 0);
    assert_eq!(side(1), 1);
    assert_eq!(side(u32::MAX), 65535);
    let img = ImageParam { image_width: 400, image_height: 225, sample_per_pixel: 100 };
    assert_eq!(img.image_size(), 90000);
    assert_eq!(pixel_index(3, 4, 225), 679);
}

#[test]
fn split_samples_in_chunks() {
    assert_eq!(split_samples(250, 100), vec![100, 100, 50]);
    assert_eq!(split_samples(200, 100), vec![100, 100]);
    assert_eq!(split_samples(0, 100), Vec::<u32>::new());
    assert_eq!(split_samples(7, 1).len(), 7);
}

#[test]
fn partition_among_workers() {
    assert_eq!(partition_samples(100, 8), vec![13, 13, 13, 13, 12, 12, 12, 12]);
    assert_eq!(partition_samples(100, 1), vec![100]);
    assert_eq!(partition_samples(3, 8), vec![1, 1, 1, 0, 0, 0, 0, 0]);
}

#[test]
fn sample_counts_do_not_depend_on_worker_count() {
    for workers in [1, 2, 8] {
        let counts = accumulated_counts(400 * 225 / 100, 100, workers);
        assert_eq!(counts.len(), 900);
        assert!(counts.iter().all(|&c| c == 100));
    }
    let mut out = task_buffer(4, 2);
    merge_into(&mut out, &task_buffer(4, 3));
    assert_eq!(out, vec![5, 5, 5, 5]);
}

#[test]
fn noise_tables_are_shuffled_permutations() {
    let noise = Noise::new();
    for table in [&noise.perm_x, &noise.perm_y, &noise.perm_z] {
        assert_eq!(table.len(), POINT_COUNT);
        let mut sorted = table.clone();
        sorted.sort();
        assert_eq!(sorted, (0..POINT_COUNT).collect::<Vec<_>>());
        // Each position swaps with a strictly earlier one, so no entry stays in place.
        assert!(table.iter().enumerate().all(|(k, &v)| k != v));
    }
    let h = noise.lattice_hash(-1, 256, 3, 1, 0, 1);
    assert_eq!(h, noise.perm_x[0] ^ noise.perm_y[0] ^ noise.perm_z[4]);
    let c = noise.corners(255, 0, -2);
    assert_eq!(c.len(), 8);
    assert_eq!(c[7], noise.perm_x[0] ^ noise.perm_y[1] ^ noise.perm_z[255]);
    assert_eq!(c[0], noise.perm_x[255] ^ noise.perm_y[0] ^ noise.perm_z[254]);
}

#[test]
fn path_steps() {
    assert_eq!(next_bounce(0, Surface::ScatterPdf, false, true), Bounce::Cutoff);
    assert_eq!(next_bounce(5, Surface::Miss, false, true), Bounce::Background);
    assert_eq!(next_bounce(5, Surface::Absorb, false, true), Bounce::Emit);
    assert_eq!(next_bounce(5, Surface::ScatterRay, true, false), Bounce::FollowRay { depth_left: 4 });
    assert_eq!(
        next_bounce(1, Surface::ScatterPdf, true, false),
        Bounce::SampleDirection { strategy: Strategy::Material, mixed: false, depth_left: 0 }
    );
    assert_eq!(
        next_bounce(3, Surface::ScatterPdf, false, false),
        Bounce::SampleDirection { strategy: Strategy::Light, mixed: true, depth_left: 2 }
    );
    assert_eq!(
        next_bounce(3, Surface::ScatterPdf, false, true),
        Bounce::SampleDirection { strategy: Strategy::Material, mixed: true, depth_left: 2 }
    );
}

#[test]
fn mesh_index_grouping() {
    assert_eq!(triangle_indices(&vec![0, 1, 2, 2, 1, 3], 4), Some(vec![(0, 1, 2), (2, 1, 3)]));
    assert_eq!(triangle_indices(&vec![0, 1, 2, 2, 1, 4], 4), None);
    assert_eq!(triangle_indices(&vec![0, 1], 4), None);
    assert_eq!(triangle_indices(&vec![], 0), Some(vec![]));
}

#[test]
fn hit_window_keeps_the_closest() {
    let mut w = HitWindow::new(Interval::new(10, 1000));
    assert!(!w.set_hit(0, 5));
    assert!(w.set_hit(1, 500));
    assert_eq!(w.window, Interval::new(10, 500));
    assert!(!w.set_hit(2, 700));
    assert!(w.set_hit(3, 200));
    assert!(!w.set_hit(4, 200));
    assert_eq!(w.best, Some(Hit { item: 3, t: 200 }));
    assert_eq!(w.window, Interval::new(10, 200));
}

#[test]
fn closest_hit_scan() {
    let hits = vec![Some(40), None, Some(15), Some(15), Some(3), Some(90)];
    let window = Interval::new(10, 100);
    assert_eq!(closest_hit(&vec![0, 1, 2, 3, 4, 5], &hits, window), Some(2));
    assert_eq!(closest_hit(&vec![3, 2], &hits, window), Some(3));
    assert_eq!(closest_hit(&vec![1, 4], &hits, window), None);
    assert_eq!(closest_hit(&vec![5, 0], &hits, window), Some(0));
    assert_eq!(closest_hit(&vec![], &hits, window), None);
}

#[test]
fn bvh_closest_hit_matches_brute_force() {
    let boxes: Vec<AABB> = (0..40).map(|k| cube((k * 17) % 50 - 25, (k * 11) % 30 - 15, (k * 5) % 20 - 10, 3 + k % 4)).collect();
    let tree = HittableTree::new((0..boxes.len()).collect(), &boxes);
    let window = Interval::new(0, 100 * T_SCALE as i64);
    let all: Vec<usize> = (0..boxes.len()).collect();
    let order = tree_items(&tree);
    let mut seed: u64 = 987654321;
    let mut found = 0;
    for _ in 0..2000 {
        let mut next = || {
            seed = seed.wrapping_mul(6364136223846793005).wrapping_add(1442695040888963407);
            ((seed >> 33) % 81) as i64 - 40
        };
        let ray = Ray::new(Vec3::new(next(), next(), next()), Vec3::new(next(), next(), next()));
        // Each item reports the first sampled parameter at which the ray is inside its volume.
        let hits: Vec<Option<i64>> = boxes
            .iter()
            .map(|b| {
                (0..400i64)
                    .map(|k| k * T_SCALE as i64 / 4)
                    .find(|&t| b.hit(&ray, &Interval::new(t, t)))
            })
            .collect();
        let candidates = tree.traverse(&boxes, &ray, &window);
        let by_tree = closest_hit(&candidates, &hits, window);
        // Same item as a linear scan in tree order, same parameter as a scan in any order.
        assert_eq!(by_tree, closest_hit(&order, &hits, window));
        let by_scan = closest_hit(&all, &hits, window);
        if by_scan.is_some() {
            found += 1;
        }
        assert_eq!(by_tree.map(|i| hits[i]), by_scan.map(|i| hits[i]));
    }
    assert!(found > 0);
}

#[test]
fn strata_cover_the_grid_once() {
    let n = 7;
    let mut seen = vec![vec![0; n as usize]; n as usize];
    for s in 0..n * n {
        let (a, b) = stratum_of(s, n);
        seen[a as usize][b as usize] += 1;
    }
    assert!(seen.iter().all(|row| row.iter().all(|&c| c == 1)));
    assert_eq!(stratum_of(3 * 7 + 5, 7), (3, 5));
    assert_eq!(stratum_of(49 + 8, 7), (1, 1));
}

#[test]
fn light_choice_in_range_and_varied() {
    let mut seen = [false; 3];
    for _ in 0..300 {
        let k = choose_light(3);
        assert!(k < 3);
        seen[k] = true;
    }
    assert!(seen.iter().all(|&s| s));
    assert_eq!(choose_light(1), 0);
}

#[test]
fn bvh_depth_is_logarithmic() {
    let boxes: Vec<AABB> = (0..100).map(|k| cube(k, (k * 3) % 7, 0, 1)).collect();
    let build = |n: usize| HittableTree::new((0..n).collect(), &boxes);
    assert_eq!(height(&build(0)), 1);
    assert_eq!(height(&build(2)), 1);
    assert_eq!(height(&build(3)), 2);
    assert_eq!(height(&build(4)), 2);
    assert_eq!(height(&build(5)), 3);
    assert_eq!(height(&build(64)), 6);
    assert_eq!(height(&build(65)), 7);
    assert_eq!(height(&build(100)), 7);
}
