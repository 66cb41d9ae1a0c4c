use simple_raytracer::bvh::{sort_by_axis, RayQuery, BVH};
use simple_raytracer::keys::{KeyBox, KeyInterval};

const SIGN: u64 = 0x8000_0000_0000_0000;

fn key(f: f64) -> u64 {
    let bits = f.to_bits();
    if bits & SIGN == 0 {
        bits | SIGN
    } else {
        !bits
    }
}

fn unkey(k: u64) -> f64 {
    if k & SIGN != 0 {
        f64::from_bits(k & !SIGN)
    } else {
        f64::from_bits(!k)
    }
}

fn key_interval(min: f64, max: f64) -> KeyInterval {
    KeyInterval { min: key(min), max: key(max) }
}

fn box_from_points(p1: [f64; 3], p2: [f64; 3]) -> KeyBox {
    KeyBox {
        x: key_interval(p1[0].min(p2[0]), p1[0].max(p2[0])),
        y: key_interval(p1[1].min(p2[1]), p1[1].max(p2[1])),
        z: key_interval(p1[2].min(p2[2]), p1[2].max(p2[2])),
    }
}

#[derive(Clone, Debug, PartialEq)]
struct TestRecord {
    p: [f64; 3],
    t: f64,
    against_normal_unit: [f64; 3],
    front_face: bool,
}

#[derive(Clone)]
struct TestHittable {
    v: [f64; 3],
    bbox: KeyBox,
}

struct TestRay {
    origin: [f64; 3],
    direction: [f64; 3],
    hittables: Vec<TestHittable>,
}

impl RayQuery<TestRecord> for TestRay {
    fn box_hit_spec(&self, bbox: KeyBox, range: KeyInterval) -> bool {
        self.hit_box(&bbox, range)
    }

    fn hit_spec(&self, index: usize, range: KeyInterval) -> Option<(u64, TestRecord)> {
        self.hit_primitive(index, range)
    }

    fn hit_box(&self, bbox: &KeyBox, range: KeyInterval) -> bool {
        let mut lo = unkey(range.min);
        let mut hi = unkey(range.max);
        for axis in 0..3 {
            let interval = bbox.axis(axis);
            let inv_b = 1.0 / self.direction[axis];
            let a = self.origin[axis];
            let t0 = (unkey(interval.min) - a) * inv_b;
            let t1 = (unkey(interval.max) - a) * inv_b;
            let (t0, t1) = if inv_b < 0.0 { (t1, t0) } else { (t0, t1) };
            if t0 > lo {
                lo = t0;
            }
            if t1 < hi {
                hi = t1;
            }
            if hi <= lo {
                return false;
            }
        }
        true
    }

    fn hit_primitive(&self, index: usize, _range: KeyInterval) -> Option<(u64, TestRecord)> {
        let h = &self.hittables[index];
        if self.direction == h.v {
            let record = TestRecord {
                p: h.v,
                t: 1.0,
                against_normal_unit: [-h.v[0], -h.v[1], -h.v[2]],
                front_face: false,
            };
            Some((key(record.t), record))
        } else {
            None
        }
    }
}

fn run(hittables: Vec<TestHittable>) -> Option<TestRecord> {
    let boxes: Vec<KeyBox> = hittables.iter().map(|h| h.bbox).collect();
    let bvh = BVH::from_hittables_list(&boxes);
    let ray = TestRay { origin: [0.0, 0.0, 0.0], direction: [0.5, 0.5, 0.5], hittables };
    bvh.hit(&ray, key_interval(0.0, 10.0)).map(|(_, record)| record)
}

fn hit_one() -> TestHittable {
    TestHittable { v: [0.5, 0.5, 0.5], bbox: box_from_points([0.0, 0.0, 0.0], [1.0, 1.0, 1.0]) }
}

fn missed_one() -> TestHittable {
    TestHittable {
        v: [0.5, 0.5, 0.5],
        bbox: box_from_points([-1.0, -1.0, -1.0], [-2.0, -2.0, -2.0]),
    }
}

#[test]
fn test_bvh_hits_correct_test_hittable() {
    let expected = TestRecord {
        p: [0.5, 0.5, 0.5],
        t: 1.0,
        against_normal_unit: [-0.5, -0.5, -0.5],
        front_face: false,
    };
    for position in [0usize, 4, 2] {
        let mut list = vec![missed_one(); 4];
        list.insert(position, hit_one());
        let hit_result = run(list);
        assert!(hit_result.is_some());
        let hit_result = hit_result.unwrap();
        assert_eq!(hit_result.t, expected.t);
        assert_eq!(hit_result.p, expected.p);
        assert_eq!(hit_result.against_normal_unit, expected.against_normal_unit);
        assert_eq!(hit_result.front_face, expected.front_face);
    }
}

#[test]
fn test_bvh_hits_misses_test_hittable() {
    for n in 0..4 {
        let hit_result = run(vec![missed_one(); n]);
        assert!(hit_result.is_none());
    }
}

/// Points on the x axis: primitive `i` sits at `xs[i]`, and a ray along +x
/// from the origin meets the ones marked in `live` at parameter `x`.
struct AxisRay {
    xs: Vec<u64>,
    live: Vec<bool>,
}

impl RayQuery<usize> for AxisRay {
    fn box_hit_spec(&self, bbox: KeyBox, range: KeyInterval) -> bool {
        self.hit_box(&bbox, range)
    }

    fn hit_spec(&self, index: usize, range: KeyInterval) -> Option<(u64, usize)> {
        self.hit_primitive(index, range)
    }

    fn hit_box(&self, bbox: &KeyBox, range: KeyInterval) -> bool {
        bbox.x.min < range.max && range.min < bbox.x.max
    }

    fn hit_primitive(&self, index: usize, range: KeyInterval) -> Option<(u64, usize)> {
        let x = self.xs[index];
        if self.live[index] && range.surrounds(x) {
            Some((x, index))
        } else {
            None
        }
    }
}

fn point_boxes(xs: &[f64]) -> Vec<KeyBox> {
    xs.iter().map(|&x| box_from_points([x, -1.0, -1.0], [x, 1.0, 1.0])).collect()
}

fn leaves(t: &BVH, out: &mut Vec<usize>) {
    match t {
        BVH::Empty => {}
        BVH::Leaf { index, .. } => out.push(*index),
        BVH::Node { left, right, .. } => {
            leaves(left, out);
            leaves(right, out);
        }
    }
}

fn check_boxes(t: &BVH, boxes: &[KeyBox]) {
    match t {
        BVH::Empty => assert_eq!(t.bbox(), KeyBox::empty()),
        BVH::Leaf { index, bbox } => assert_eq!(*bbox, boxes[*index]),
        BVH::Node { left, right, bbox } => {
            assert_eq!(*bbox, KeyBox::from_aabb(&left.bbox(), &right.bbox()));
            let (mut l, mut r) = (Vec::new(), Vec::new());
            leaves(left, &mut l);
            leaves(right, &mut r);
            assert_eq!(l.len(), (l.len() + r.len()) / 2);
            if l.len() + r.len() > 2 {
                let split_on = |axis: usize| {
                    l.iter().all(|&a| {
                        r.iter().all(|&b| boxes[a].axis(axis).min <= boxes[b].axis(axis).min)
                    })
                };
                assert!(split_on(0) || split_on(1) || split_on(2));
            }
            check_boxes(left, boxes);
            check_boxes(right, boxes);
        }
    }
}

#[test]
fn build_holds_each_primitive_once() {
    for n in [0usize, 1, 2, 3, 4, 7, 16, 33] {
        let boxes: Vec<KeyBox> = (0..n)
            .map(|i| {
                let c = [((i * 7) % 11) as f64 - 5.0, ((i * 5) % 13) as f64, -((i % 4) as f64)];
                box_from_points([c[0] - 0.5, c[1] - 1.0, c[2]], [c[0] + 0.5, c[1] + 2.0, c[2] + 0.25])
            })
            .collect();
        let bvh = BVH::from_hittables_list(&boxes);
        let mut got = Vec::new();
        leaves(&bvh, &mut got);
        got.sort();
        assert_eq!(got, (0..n).collect::<Vec<_>>());
        check_boxes(&bvh, &boxes);
    }
}

#[test]
fn sort_orders_by_axis_start() {
    let boxes = point_boxes(&[3.0, -1.0, 2.0, -1.0, 0.5]);
    let mut items = vec![0usize, 1, 2, 3, 4];
    sort_by_axis(&boxes, &mut items, 0);
    assert_eq!(items, vec![1, 3, 4, 2, 0]);
    let mut partial = vec![4usize, 0];
    sort_by_axis(&boxes, &mut partial, 0);
    assert_eq!(partial, vec![4, 0]);
    let mut by_y = vec![2usize, 0, 1];
    sort_by_axis(&boxes, &mut by_y, 1);
    assert_eq!(by_y, vec![2, 0, 1]);
}

#[test]
fn build_shapes_of_small_lists() {
    assert!(matches!(BVH::from_hittables_list(&Vec::new()), BVH::Empty));
    let one = point_boxes(&[2.0]);
    assert!(matches!(BVH::from_hittables_list(&one), BVH::Leaf { index: 0, .. }));
    let two = point_boxes(&[2.0, -3.0]);
    match BVH::from_hittables_list(&two) {
        BVH::Node { left, right, bbox } => {
            assert!(matches!(*left, BVH::Leaf { index: 0, .. }));
            assert!(matches!(*right, BVH::Leaf { index: 1, .. }));
            assert_eq!(bbox.x, key_interval(-3.0, 2.0));
            assert_eq!(bbox.y, key_interval(-1.0, 1.0));
        }
        _ => panic!("two primitives make an inner node"),
    }
}

#[test]
fn traversal_reports_nearest_hit() {
    let xs = [9.0, 4.0, 7.5, 2.5, 6.0, 3.0, 8.0];
    let boxes = point_boxes(&xs);
    let keys: Vec<u64> = xs.iter().map(|&x| key(x)).collect();
    for _ in 0..20 {
        let bvh = BVH::from_hittables_list(&boxes);
        let all = AxisRay { xs: keys.clone(), live: vec![true; xs.len()] };
        assert_eq!(bvh.hit(&all, key_interval(0.001, 100.0)), Some((key(2.5), 3)));
        assert_eq!(bvh.hit(&all, key_interval(3.5, 100.0)), Some((key(4.0), 1)));
        assert_eq!(bvh.hit(&all, key_interval(3.5, 4.0)), None);
        let some = AxisRay {
            xs: keys.clone(),
            live: vec![true, false, true, false, false, false, true],
        };
        assert_eq!(bvh.hit(&some, key_interval(0.001, 100.0)), Some((key(7.5), 2)));
    }
}

#[test]
fn traversal_ties_go_to_first_primitive() {
    let boxes = point_boxes(&[5.0, 5.0]);
    let bvh = BVH::from_hittables_list(&boxes);
    let ray = AxisRay { xs: vec![key(5.0), key(5.0)], live: vec![true, true] };
    assert_eq!(bvh.hit(&ray, key_interval(0.0, 10.0)), Some((key(5.0), 0)));
}

#[test]
fn single_hittable_found_in_every_position() {
    for n in 1..9usize {
        for p in 0..n {
            let xs: Vec<f64> = (0..n).map(|i| 1.0 + i as f64).collect();
            let boxes = point_boxes(&xs);
            let mut live = vec![false; n];
            live[p] = true;
            let ray = AxisRay { xs: xs.iter().map(|&x| key(x)).collect(), live };
            let bvh = BVH::from_hittables_list(&boxes);
            assert_eq!(bvh.hit(&ray, key_interval(0.001, 100.0)), Some((key(xs[p]), p)));
        }
    }
}

#[test]
fn no_hit_when_every_hittable_misses() {
    for n in 0..4usize {
        let xs: Vec<f64> = (0..n).map(|i| -1.0 - i as f64).collect();
        let boxes = point_boxes(&xs);
        let ray = AxisRay { xs: xs.iter().map(|&x| key(x)).collect(), live: vec![true; n] };
        let bvh = BVH::from_hittables_list(&boxes);
        assert_eq!(bvh.hit(&ray, key_interval(0.001, 100.0)), None);
    }
}

#[test]
fn test_aabb_default() {
    let bbox = KeyBox::empty();
    assert_eq!(unkey(bbox.x.min), 0_f64);
    assert_eq!(unkey(bbox.y.min), 0_f64);
    assert_eq!(unkey(bbox.z.min), 0_f64);

    assert_eq!(unkey(bbox.x.max), 0_f64);
    assert_eq!(unkey(bbox.y.max), 0_f64);
    assert_eq!(unkey(bbox.z.max), 0_f64);
}
