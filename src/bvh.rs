use rand::Rng;
use vstd::prelude::*;

use crate::keys::{KeyBox, KeyInterval};

verus! {

broadcast use vstd::seq_lib::group_to_multiset_ensures, vstd::multiset::group_multiset_axioms;

/// Relies on rand's `thread_rng().gen_range(0..3)`: a value drawn from `0..3`.
#[verifier::external_body]
fn random_axis() -> (r: usize)
    ensures
        r < 3,
{
    rand::thread_rng().gen_range(0..3)
}

/// The sort key of primitive `i` on `axis`: the low end of its box there.
pub open spec fn axis_key(boxes: Seq<KeyBox>, axis: int, i: usize) -> u64 {
    boxes[i as int].axis_spec(axis).min
}

/// `items` names primitives of `boxes` only.
pub open spec fn indices_in(items: Seq<usize>, n: nat) -> bool {
    forall|k: int| 0 <= k < items.len() ==> (#[trigger] items[k]) < n
}

/// `items` is ordered by the low ends of the boxes on `axis`.
pub open spec fn sorted_on(boxes: Seq<KeyBox>, axis: int, items: Seq<usize>) -> bool {
    forall|a: int, b: int|
        0 <= a < b < items.len() ==> axis_key(boxes, axis, #[trigger] items[a]) <= axis_key(
            boxes,
            axis,
            #[trigger] items[b],
        )
}

/// Orders `items` by the low ends of their boxes on `axis` (an insertion
/// sort).
pub fn sort_by_axis(boxes: &Vec<KeyBox>, items: &mut Vec<usize>, axis: usize)
    requires
        axis < 3,
        indices_in(old(items)@, boxes@.len()),
    ensures
        final(items)@.to_multiset() == old(items)@.to_multiset(),
        final(items)@.len() == old(items)@.len(),
        indices_in(final(items)@, boxes@.len()),
        sorted_on(boxes@, axis as int, final(items)@),
{
    let n = items.len();
    if n < 2 {
        return ;
    }
    let mut i: usize = 1;
    while i < n
        invariant
            axis < 3,
            1 <= i <= n,
            items@.len() == n,
            items@.to_multiset() == old(items)@.to_multiset(),
            indices_in(items@, boxes@.len()),
            sorted_on(boxes@, axis as int, items@.subrange(0, i as int)),
        decreases n - i,
    {
        let mut j: usize = i;
        assert forall|a: int, b: int| 0 <= a < b < i implies axis_key(
            boxes@,
            axis as int,
            #[trigger] items@[a],
        ) <= axis_key(boxes@, axis as int, #[trigger] items@[b]) by {
            assert(items@.subrange(0, i as int)[a] == items@[a]);
            assert(items@.subrange(0, i as int)[b] == items@[b]);
        }
        while j > 0 && boxes[items[j - 1]].axis(axis).min > boxes[items[j]].axis(axis).min
            invariant
                axis < 3,
                0 <= j <= i < n,
                items@.len() == n,
                items@.to_multiset() == old(items)@.to_multiset(),
                indices_in(items@, boxes@.len()),
                forall|a: int, b: int|
                    0 <= a < b <= i && a != j && b != j ==> axis_key(
                        boxes@,
                        axis as int,
                        #[trigger] items@[a],
                    ) <= axis_key(boxes@, axis as int, #[trigger] items@[b]),
                forall|b: int|
                    j < b <= i ==> axis_key(boxes@, axis as int, items@[j as int]) < axis_key(
                        boxes@,
                        axis as int,
                        #[trigger] items@[b],
                    ),
            decreases j,
        {
            let lower = items[j - 1];
            let upper = items[j];
            proof {
                vstd::seq_lib::to_multiset_update(items@, (j - 1) as int, upper);
                vstd::seq_lib::to_multiset_update(
                    items@.update((j - 1) as int, upper),
                    j as int,
                    lower,
                );
            }
            items.set(j - 1, upper);
            items.set(j, lower);
            j = j - 1;
        }
        i = i + 1;
        assert(sorted_on(boxes@, axis as int, items@.subrange(0, i as int))) by {
            assert forall|a: int, b: int| 0 <= a < b < i implies axis_key(
                boxes@,
                axis as int,
                #[trigger] items@.subrange(0, i as int)[a],
            ) <= axis_key(boxes@, axis as int, #[trigger] items@.subrange(0, i as int)[b]) by {
                if a != j && b != j {
                } else if a == j {
                } else {
                    if a < j - 1 {
                        assert(axis_key(boxes@, axis as int, items@[a]) <= axis_key(
                            boxes@,
                            axis as int,
                            items@[j - 1],
                        ));
                    }
                }
            }
        }
    }
    assert(items@.subrange(0, n as int) =~= items@);
}

/// One ray, seen through the tests that a traversal asks of it: does it cross
/// a box within a range of its parameter, and where does it first meet a
/// given primitive within such a range. `H` is what a primitive reports of a
/// hit (its hit record); the `u64` beside it is the order key of the ray
/// parameter at the hit.
///
/// The scene's geometry implements this; the traversal relies on the
/// answers being the ones its spec functions name. Code outside the verifier
/// implements each spec function by calling the matching method, so that the
/// contracts below speak of the answers the geometry actually gives.
pub trait RayQuery<H> {
    spec fn box_hit_spec(&self, bbox: KeyBox, range: KeyInterval) -> bool;

    spec fn hit_spec(&self, index: usize, range: KeyInterval) -> Option<(u64, H)>;

    /// Whether the ray crosses `bbox` for some parameter in `range`.
    fn hit_box(&self, bbox: &KeyBox, range: KeyInterval) -> (r: bool)
        ensures
            r == self.box_hit_spec(*bbox, range),
    ;

    /// The first hit of the ray on primitive `index` within `range`.
    fn hit_primitive(&self, index: usize, range: KeyInterval) -> (r: Option<(u64, H)>)
        ensures
            r == self.hit_spec(index, range),
    ;
}

/// The ray parameter narrowed to end at `t`.
pub open spec fn up_to(range: KeyInterval, t: u64) -> KeyInterval {
    KeyInterval { min: range.min, max: t }
}

/// The hit of `h` if it lies before `t`.
pub open spec fn before<H>(h: Option<(u64, H)>, t: u64) -> Option<(u64, H)> {
    match h {
        Some(x) => if x.0 < t {
            h
        } else {
            None
        },
        None => None,
    }
}

/// Of two candidate hits, the one with the smaller parameter; on a tie, the
/// first.
pub open spec fn nearer<H>(a: Option<(u64, H)>, b: Option<(u64, H)>) -> Option<(u64, H)> {
    match (a, b) {
        (Some(x), Some(y)) => if y.0 < x.0 {
            b
        } else {
            a
        },
        (None, _) => b,
        (_, None) => a,
    }
}

/// What a sound geometry gives a traversal, for the primitives whose boxes
/// are `boxes`:
/// a hit lies strictly inside the range asked for; asking again with the far
/// end pulled in gives the same hit if it lies before the new end, and none
/// otherwise; and a ray that misses a box within a range meets nothing inside
/// that box within that range.
pub open spec fn sound_query<H, Q: RayQuery<H>>(q: Q, boxes: Seq<KeyBox>) -> bool {
    &&& forall|i: usize, r: KeyInterval| #[trigger]
        q.hit_spec(i, r) is Some ==> r.min < (q.hit_spec(i, r)->0).0 < r.max
    &&& forall|i: usize, r: KeyInterval, t: u64|
        t <= r.max ==> #[trigger] q.hit_spec(i, up_to(r, t)) == before(q.hit_spec(i, r), t)
    &&& forall|b: KeyBox, i: usize, r: KeyInterval|
        #![trigger q.box_hit_spec(b, r), q.hit_spec(i, r)]
        i < boxes.len() && b.covers(boxes[i as int]) && !q.box_hit_spec(b, r) ==> q.hit_spec(
            i,
            r,
        ) is None
}

/// Every primitive of `lo` starts on `axis` no later than every primitive of
/// `hi`.
pub open spec fn ordered_across(boxes: Seq<KeyBox>, axis: int, lo: Seq<usize>, hi: Seq<usize>) -> bool {
    forall|a: usize, b: usize|
        lo.contains(a) && hi.contains(b) ==> #[trigger] axis_key(boxes, axis, a) <= #[trigger] axis_key(
            boxes,
            axis,
            b,
        )
}

/// A bounding volume hierarchy over a list of primitives, each known here
/// by its index in that list and by the order keys of its bounding box.
///
/// A leaf holds one primitive and its box; an inner node holds two non-empty
/// subtrees and the smallest box around both. A tree over no primitive is
/// `Empty`, with a zero-size box.
#[derive(Debug)]
pub enum BVH {
    Empty,
    Leaf { index: usize, bbox: KeyBox },
    Node { left: Box<BVH>, right: Box<BVH>, bbox: KeyBox },
}

impl BVH {
    pub open spec fn bbox_spec(self) -> KeyBox {
        match self {
            BVH::Empty => KeyBox::zero(),
            BVH::Leaf { bbox, .. } => bbox,
            BVH::Node { bbox, .. } => bbox,
        }
    }

    /// The primitives of the leaves, left to right.
    pub open spec fn leaves(self) -> Seq<usize>
        decreases self,
    {
        match self {
            BVH::Empty => Seq::empty(),
            BVH::Leaf { index, .. } => seq![index],
            BVH::Node { left, right, .. } => left.leaves() + right.leaves(),
        }
    }

    /// Each leaf carries the box of its primitive in `boxes`, and each inner
    /// node carries the smallest box around its two (non-empty) subtrees.
    pub open spec fn wf(self, boxes: Seq<KeyBox>) -> bool
        decreases self,
    {
        match self {
            BVH::Empty => true,
            BVH::Leaf { index, bbox } => index < boxes.len() && bbox == boxes[index as int],
            BVH::Node { left, right, bbox } => {
                &&& left.wf(boxes)
                &&& right.wf(boxes)
                &&& !(*left is Empty)
                &&& !(*right is Empty)
                &&& bbox == KeyBox::hull(left.bbox_spec(), right.bbox_spec())
            },
        }
    }

    /// Each inner node puts half of its primitives (rounded down) on the
    /// left.
    pub open spec fn balanced(self) -> bool
        decreases self,
    {
        match self {
            BVH::Node { left, right, .. } => {
                &&& left.balanced()
                &&& right.balanced()
                &&& left.leaves().len() == (left.leaves().len() + right.leaves().len()) / 2
            },
            _ => true,
        }
    }

    /// Each inner node over more than two primitives splits them along an
    /// axis: no primitive on the left has its box start beyond the start of
    /// a box on the right.
    pub open spec fn split_ordered(self, boxes: Seq<KeyBox>) -> bool
        decreases self,
    {
        match self {
            BVH::Node { left, right, .. } => {
                &&& left.split_ordered(boxes)
                &&& right.split_ordered(boxes)
                &&& left.leaves().len() + right.leaves().len() > 2 ==> exists|axis: int|
                    0 <= axis < 3 && #[trigger] ordered_across(
                        boxes,
                        axis,
                        left.leaves(),
                        right.leaves(),
                    )
            },
            _ => true,
        }
    }

    /// Every primitive `0..n` sits in exactly one leaf, and no other index
    /// does.
    pub open spec fn holds_each_once(self, n: nat) -> bool {
        forall|i: usize| #[trigger]
            self.leaves().to_multiset().count(i) == if i < n {
                1nat
            } else {
                0nat
            }
    }

    /// What a traversal of the tree reports: nothing if the ray misses the
    /// root box; the primitive's hit at a leaf; at an inner node, the left
    /// subtree is searched first, and the right one only before the left hit.
    pub open spec fn traverse<H, Q: RayQuery<H>>(self, q: Q, range: KeyInterval) -> Option<
        (u64, H),
    >
        decreases self,
    {
        if !q.box_hit_spec(self.bbox_spec(), range) {
            None
        } else {
            match self {
                BVH::Empty => None,
                BVH::Leaf { index, .. } => q.hit_spec(index, range),
                BVH::Node { left, right, .. } => match left.traverse(q, range) {
                    Some(lh) => match right.traverse(q, up_to(range, lh.0)) {
                        Some(rh) => Some(rh),
                        None => Some(lh),
                    },
                    None => right.traverse(q, range),
                },
            }
        }
    }

    /// The nearest hit over all leaves, the leftmost one on a tie, with no
    /// box pruned and no range narrowed.
    pub open spec fn nearest<H, Q: RayQuery<H>>(self, q: Q, range: KeyInterval) -> Option<
        (u64, H),
    >
        decreases self,
    {
        match self {
            BVH::Empty => None,
            BVH::Leaf { index, .. } => q.hit_spec(index, range),
            BVH::Node { left, right, .. } => nearer(
                left.nearest(q, range),
                right.nearest(q, range),
            ),
        }
    }

    /// The first hit of the ray within `range` over the primitives of the
    /// tree.
    pub fn hit<H, Q: RayQuery<H>>(&self, q: &Q, range: KeyInterval) -> (r: Option<(u64, H)>)
        ensures
            r == self.traverse(*q, range),
        decreases self,
    {
        let bbox = self.bbox();
        if !q.hit_box(&bbox, range) {
            return None;
        }
        match self {
            BVH::Empty => None,
            BVH::Leaf { index, .. } => q.hit_primitive(*index, range),
            BVH::Node { left, right, .. } => {
                match left.hit(q, range) {
                    Some(lh) => {
                        let narrowed = KeyInterval { min: range.min, max: lh.0 };
                        match right.hit(q, narrowed) {
                            Some(rh) => Some(rh),
                            None => Some(lh),
                        }
                    },
                    None => right.hit(q, range),
                }
            },
        }
    }

    /// The box around the whole tree.
    pub fn bbox(&self) -> (r: KeyBox)
        ensures
            r == self.bbox_spec(),
    {
        match self {
            BVH::Empty => KeyBox::empty(),
            BVH::Leaf { bbox, .. } => *bbox,
            BVH::Node { bbox, .. } => *bbox,
        }
    }

    /// Builds the tree over the primitives whose boxes are `boxes`; the
    /// primitive at position `i` of the list is leaf index `i`.
    pub fn from_hittables_list(boxes: &Vec<KeyBox>) -> (r: BVH)
        ensures
            r.wf(boxes@),
            r.holds_each_once(boxes@.len()),
            r.leaves().len() == boxes@.len(),
            r.balanced(),
            r.split_ordered(boxes@),
    {
        let n = boxes.len();
        let mut items: Vec<usize> = Vec::new();
        let mut i: usize = 0;
        while i < n
            invariant
                i <= n,
                n == boxes@.len(),
                items@.len() == i,
                indices_in(items@, n as nat),
                forall|k: usize| #[trigger]
                    items@.to_multiset().count(k) == if k < i {
                        1nat
                    } else {
                        0nat
                    },
            decreases n - i,
        {
            items.push(i);
            i = i + 1;
        }
        Self::new(boxes, items)
    }

    /// Builds the tree over the primitives named by `items`. Over more than
    /// two, it orders them along an axis drawn at random and splits the list
    /// at its midpoint.
    fn new(boxes: &Vec<KeyBox>, items: Vec<usize>) -> (r: BVH)
        requires
            indices_in(items@, boxes@.len()),
        ensures
            r.wf(boxes@),
            r.leaves().to_multiset() == items@.to_multiset(),
            r.leaves().len() == items@.len(),
            items@.len() > 0 ==> !(r is Empty),
            r.balanced(),
            r.split_ordered(boxes@),
        decreases items@.len(),
    {
        let n = items.len();
        if n == 0 {
            assert(items@ =~= Seq::<usize>::empty());
            BVH::Empty
        } else if n == 1 {
            let index = items[0];
            let r = BVH::Leaf { index, bbox: boxes[index] };
            assert(r.leaves() =~= items@);
            r
        } else if n == 2 {
            let a = items[0];
            let b = items[1];
            let left = BVH::Leaf { index: a, bbox: boxes[a] };
            let right = BVH::Leaf { index: b, bbox: boxes[b] };
            let bbox = KeyBox::from_aabb(&boxes[a], &boxes[b]);
            assert(left.leaves() == seq![a] && right.leaves() == seq![b]);
            assert(left.wf(boxes@) && right.wf(boxes@));
            assert(left.balanced() && right.balanced());
            assert(left.split_ordered(boxes@) && right.split_ordered(boxes@));
            let r = BVH::Node { left: Box::new(left), right: Box::new(right), bbox };
            assert(r.leaves() =~= items@);
            assert(r.wf(boxes@));
            r
        } else {
            let axis = random_axis();
            let mut items = items;
            let ghost given = items@;
            sort_by_axis(boxes, &mut items, axis);
            let ghost sorted = items@;
            let mid = n / 2;
            let upper = items.split_off(mid);
            let ghost lower_half = items@;
            let ghost upper_half = upper@;
            proof {
                assert(sorted =~= lower_half + upper_half);
                vstd::seq_lib::lemma_multiset_commutative(lower_half, upper_half);
            }
            let left = Self::new(boxes, items);
            let right = Self::new(boxes, upper);
            let bbox = KeyBox::from_aabb(&left.bbox(), &right.bbox());
            proof {
                vstd::seq_lib::lemma_multiset_commutative(left.leaves(), right.leaves());
                assert forall|a: usize, b: usize|
                    left.leaves().contains(a) && right.leaves().contains(b) implies #[trigger] axis_key(
                    boxes@,
                    axis as int,
                    a,
                ) <= #[trigger] axis_key(boxes@, axis as int, b) by {
                    assert(left.leaves().to_multiset().count(a) > 0);
                    assert(right.leaves().to_multiset().count(b) > 0);
                    let i = choose|i: int| 0 <= i < lower_half.len() && lower_half[i] == a;
                    let j = choose|j: int| 0 <= j < upper_half.len() && upper_half[j] == b;
                    assert(sorted[i] == a && sorted[mid + j] == b);
                }
            }
            let r = BVH::Node { left: Box::new(left), right: Box::new(right), bbox };
            assert(r.leaves() == left.leaves() + right.leaves());
            assert(r.leaves().to_multiset() == given.to_multiset());
            assert(ordered_across(boxes@, axis as int, left.leaves(), right.leaves()));
            r
        }
    }
}

/// Every box of the tree holds the boxes of all primitives below it.
pub proof fn lemma_bbox_covers_leaves(tree: BVH, boxes: Seq<KeyBox>)
    requires
        tree.wf(boxes),
    ensures
        forall|k: int|
            0 <= k < tree.leaves().len() ==> tree.bbox_spec().covers(
                boxes[#[trigger] tree.leaves()[k] as int],
            ),
    decreases tree,
{
    match tree {
        BVH::Empty => {},
        BVH::Leaf { .. } => {},
        BVH::Node { left, right, .. } => {
            lemma_bbox_covers_leaves(*left, boxes);
            lemma_bbox_covers_leaves(*right, boxes);
            let ll = left.leaves();
            let rl = right.leaves();
            assert forall|k: int| 0 <= k < tree.leaves().len() implies tree.bbox_spec().covers(
                boxes[#[trigger] tree.leaves()[k] as int],
            ) by {
                if k < ll.len() {
                    assert(tree.leaves()[k] == ll[k]);
                } else {
                    assert(tree.leaves()[k] == rl[k - ll.len()]);
                }
            }
        },
    }
}

/// A ray that misses a box around the tree within a range meets none of its
/// primitives within that range.
proof fn lemma_missed_box<H, Q: RayQuery<H>>(
    tree: BVH,
    q: Q,
    boxes: Seq<KeyBox>,
    b: KeyBox,
    range: KeyInterval,
)
    requires
        tree.wf(boxes),
        sound_query(q, boxes),
        b.covers(tree.bbox_spec()),
        !q.box_hit_spec(b, range),
    ensures
        tree.nearest(q, range) is None,
    decreases tree,
{
    match tree {
        BVH::Empty => {},
        BVH::Leaf { index, .. } => {
            assert(q.hit_spec(index, range) is None);
        },
        BVH::Node { left, right, .. } => {
            lemma_missed_box(*left, q, boxes, b, range);
            lemma_missed_box(*right, q, boxes, b, range);
        },
    }
}

/// The nearest hit lies strictly inside the range asked for.
proof fn lemma_nearest_in_range<H, Q: RayQuery<H>>(
    tree: BVH,
    q: Q,
    boxes: Seq<KeyBox>,
    range: KeyInterval,
)
    requires
        sound_query(q, boxes),
    ensures
        tree.nearest(q, range) is Some ==> range.min < (tree.nearest(q, range)->0).0 < range.max,
    decreases tree,
{
    match tree {
        BVH::Empty => {},
        BVH::Leaf { index, .. } => {
            assert(q.hit_spec(index, range) is Some ==> range.min < (q.hit_spec(index, range)->0).0
                < range.max);
        },
        BVH::Node { left, right, .. } => {
            lemma_nearest_in_range(*left, q, boxes, range);
            lemma_nearest_in_range(*right, q, boxes, range);
        },
    }
}

/// Pulling in the far end of the range keeps the nearest hit if it lies
/// before the new end, and loses it otherwise.
proof fn lemma_nearest_up_to<H, Q: RayQuery<H>>(
    tree: BVH,
    q: Q,
    boxes: Seq<KeyBox>,
    range: KeyInterval,
    t: u64,
)
    requires
        sound_query(q, boxes),
        t <= range.max,
    ensures
        tree.nearest(q, up_to(range, t)) == before(tree.nearest(q, range), t),
    decreases tree,
{
    match tree {
        BVH::Empty => {},
        BVH::Leaf { index, .. } => {
            assert(q.hit_spec(index, up_to(range, t)) == before(q.hit_spec(index, range), t));
        },
        BVH::Node { left, right, .. } => {
            lemma_nearest_up_to(*left, q, boxes, range, t);
            lemma_nearest_up_to(*right, q, boxes, range, t);
        },
    }
}

/// Pruning by boxes and narrowing the range to the left hit never change the
/// answer: the traversal reports the nearest hit over all primitives of the
/// tree, the leftmost one on a tie.
pub proof fn lemma_traverse_is_nearest<H, Q: RayQuery<H>>(
    tree: BVH,
    q: Q,
    boxes: Seq<KeyBox>,
    range: KeyInterval,
)
    requires
        tree.wf(boxes),
        sound_query(q, boxes),
    ensures
        tree.traverse(q, range) == tree.nearest(q, range),
    decreases tree,
{
    if !q.box_hit_spec(tree.bbox_spec(), range) {
        lemma_missed_box(tree, q, boxes, tree.bbox_spec(), range);
    } else {
        match tree {
            BVH::Empty => {},
            BVH::Leaf { .. } => {},
            BVH::Node { left, right, .. } => {
                lemma_traverse_is_nearest(*left, q, boxes, range);
                lemma_traverse_is_nearest(*right, q, boxes, range);
                match left.nearest(q, range) {
                    Some(lh) => {
                        lemma_nearest_in_range(*left, q, boxes, range);
                        lemma_traverse_is_nearest(*right, q, boxes, up_to(range, lh.0));
                        lemma_nearest_up_to(*right, q, boxes, range, lh.0);
                    },
                    None => {},
                }
            },
        }
    }
}

/// The nearest hit of a tree is the hit of one of its leaves, and no leaf is
/// hit before it; there is none only when no leaf is hit.
proof fn lemma_nearest_is_minimum<H, Q: RayQuery<H>>(tree: BVH, q: Q, range: KeyInterval)
    ensures
        match tree.nearest(q, range) {
            Some(x) => {
                &&& exists|k: int|
                    0 <= k < tree.leaves().len() && q.hit_spec(tree.leaves()[k], range) == Some(x)
                &&& forall|k: int|
                    0 <= k < tree.leaves().len() && (#[trigger] q.hit_spec(tree.leaves()[k], range))
                        is Some ==> x.0 <= (q.hit_spec(tree.leaves()[k], range)->0).0
            },
            None => forall|k: int|
                0 <= k < tree.leaves().len() ==> (#[trigger] q.hit_spec(tree.leaves()[k], range))
                    is None,
        },
    decreases tree,
{
    match tree {
        BVH::Empty => {},
        BVH::Leaf { index, .. } => {
            assert(tree.leaves()[0] == index);
        },
        BVH::Node { left, right, .. } => {
            lemma_nearest_is_minimum(*left, q, range);
            lemma_nearest_is_minimum(*right, q, range);
            let ll = left.leaves();
            let rl = right.leaves();
            let lv = tree.leaves();
            assert(lv == ll + rl);
            assert forall|k: int| 0 <= k < lv.len() implies (k < ll.len() ==> lv[k] == ll[k]) && (k
                >= ll.len() ==> lv[k] == rl[k - ll.len()]) by {}
            match tree.nearest(q, range) {
                Some(x) => {
                    if left.nearest(q, range) == Some(x) {
                        let k = choose|k: int|
                            0 <= k < ll.len() && q.hit_spec(ll[k], range) == Some(x);
                        assert(lv[k] == ll[k]);
                    } else {
                        let k = choose|k: int|
                            0 <= k < rl.len() && q.hit_spec(rl[k], range) == Some(x);
                        assert(lv[ll.len() + k] == rl[k]);
                    }
                    assert forall|k: int|
                        0 <= k < lv.len() && (#[trigger] q.hit_spec(lv[k], range)) is Some implies x.0
                        <= (q.hit_spec(lv[k], range)->0).0 by {
                        if k < ll.len() {
                            assert(q.hit_spec(ll[k], range) is Some);
                        } else {
                            assert(q.hit_spec(rl[k - ll.len()], range) is Some);
                        }
                    }
                },
                None => {
                    assert forall|k: int| 0 <= k < lv.len() implies (#[trigger] q.hit_spec(
                        lv[k],
                        range,
                    )) is None by {
                        if k < ll.len() {
                            assert(q.hit_spec(ll[k], range) is None);
                        } else {
                            assert(q.hit_spec(rl[k - ll.len()], range) is None);
                        }
                    }
                },
            }
        },
    }
}

/// The traversal finds the nearest hit over the whole primitive list: what
/// it reports is the hit of one of the primitives, and no primitive is hit
/// before it; it reports nothing only when no primitive is hit.
pub proof fn lemma_traverse_finds_global_nearest<H, Q: RayQuery<H>>(
    tree: BVH,
    q: Q,
    boxes: Seq<KeyBox>,
    range: KeyInterval,
)
    requires
        tree.wf(boxes),
        tree.holds_each_once(boxes.len()),
        sound_query(q, boxes),
    ensures
        match tree.traverse(q, range) {
            Some(x) => {
                &&& exists|i: usize| i < boxes.len() && q.hit_spec(i, range) == Some(x)
                &&& forall|i: usize|
                    i < boxes.len() && (#[trigger] q.hit_spec(i, range)) is Some ==> x.0 <= (
                    q.hit_spec(i, range)->0).0
            },
            None => forall|i: usize| i < boxes.len() ==> (#[trigger] q.hit_spec(i, range)) is None,
        },
{
    lemma_traverse_is_nearest(tree, q, boxes, range);
    lemma_nearest_is_minimum(tree, q, range);
    let lv = tree.leaves();
    assert forall|i: usize| i < boxes.len() implies #[trigger] lv.contains(i) by {
        assert(lv.to_multiset().count(i) == 1);
    }
    match tree.traverse(q, range) {
        Some(x) => {
            let k = choose|k: int| 0 <= k < lv.len() && q.hit_spec(lv[k], range) == Some(x);
            assert(lv.to_multiset().count(lv[k]) > 0);
            assert(lv[k] < boxes.len());
            assert forall|i: usize|
                i < boxes.len() && (#[trigger] q.hit_spec(i, range)) is Some implies x.0 <= (
                q.hit_spec(i, range)->0).0 by {
                assert(lv.contains(i));
                let j = choose|j: int| 0 <= j < lv.len() && lv[j] == i;
                assert(q.hit_spec(lv[j], range) is Some);
            }
        },
        None => {
            assert forall|i: usize| i < boxes.len() implies (#[trigger] q.hit_spec(
                i,
                range,
            )) is None by {
                assert(lv.contains(i));
                let j = choose|j: int| 0 <= j < lv.len() && lv[j] == i;
                assert(q.hit_spec(lv[j], range) is None);
            }
        },
    }
}

proof fn lemma_nearest_of_single<H, Q: RayQuery<H>>(
    tree: BVH,
    q: Q,
    p: usize,
    range: KeyInterval,
)
    requires
        forall|i: usize| i != p ==> (#[trigger] q.hit_spec(i, range)) is None,
    ensures
        tree.nearest(q, range) == if tree.leaves().contains(p) {
            q.hit_spec(p, range)
        } else {
            None
        },
    decreases tree,
{
    match tree {
        BVH::Empty => {},
        BVH::Leaf { index, .. } => {
            assert(tree.leaves()[0] == index);
            if index != p {
                assert(!tree.leaves().contains(p));
            }
        },
        BVH::Node { left, right, .. } => {
            lemma_nearest_of_single(*left, q, p, range);
            lemma_nearest_of_single(*right, q, p, range);
            let ll = left.leaves();
            let rl = right.leaves();
            if ll.contains(p) {
                let k = choose|k: int| 0 <= k < ll.len() && ll[k] == p;
                assert(tree.leaves()[k] == p);
            }
            if rl.contains(p) {
                let k = choose|k: int| 0 <= k < rl.len() && rl[k] == p;
                assert(tree.leaves()[ll.len() + k] == p);
            }
            if tree.leaves().contains(p) {
                let k = choose|k: int| 0 <= k < tree.leaves().len() && tree.leaves()[k] == p;
                if k < ll.len() {
                    assert(ll[k] == p);
                } else {
                    assert(rl[k - ll.len()] == p);
                }
            }
        },
    }
}

/// However the primitive list is ordered, a tree that holds each primitive
/// once reports the hit of the one primitive that the ray meets.
pub proof fn lemma_single_hit_any_order<H, Q: RayQuery<H>>(
    tree: BVH,
    q: Q,
    boxes: Seq<KeyBox>,
    p: usize,
    range: KeyInterval,
)
    requires
        tree.wf(boxes),
        tree.holds_each_once(boxes.len()),
        sound_query(q, boxes),
        p < boxes.len(),
        forall|i: usize| i != p ==> (#[trigger] q.hit_spec(i, range)) is None,
    ensures
        tree.traverse(q, range) == q.hit_spec(p, range),
{
    lemma_traverse_is_nearest(tree, q, boxes, range);
    lemma_nearest_of_single(tree, q, p, range);
    assert(tree.leaves().to_multiset().count(p) == 1);
}

proof fn lemma_nearest_of_none<H, Q: RayQuery<H>>(
    tree: BVH,
    q: Q,
    boxes: Seq<KeyBox>,
    range: KeyInterval,
)
    requires
        tree.wf(boxes),
        forall|i: usize| i < boxes.len() ==> (#[trigger] q.hit_spec(i, range)) is None,
    ensures
        tree.nearest(q, range) is None,
    decreases tree,
{
    match tree {
        BVH::Empty => {},
        BVH::Leaf { .. } => {},
        BVH::Node { left, right, .. } => {
            lemma_nearest_of_none(*left, q, boxes, range);
            lemma_nearest_of_none(*right, q, boxes, range);
        },
    }
}

/// A ray that meets none of the primitives gets no hit from the tree, however
/// many primitives it holds.
pub proof fn lemma_no_hit_when_all_miss<H, Q: RayQuery<H>>(
    tree: BVH,
    q: Q,
    boxes: Seq<KeyBox>,
    range: KeyInterval,
)
    requires
        tree.wf(boxes),
        sound_query(q, boxes),
        forall|i: usize| i < boxes.len() ==> (#[trigger] q.hit_spec(i, range)) is None,
    ensures
        tree.traverse(q, range) is None,
{
    lemma_traverse_is_nearest(tree, q, boxes, range);
    lemma_nearest_of_none(tree, q, boxes, range);
}

} // verus!
