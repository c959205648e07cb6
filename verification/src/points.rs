//! The spatial index and its builder.
//!
//! The index holds one bounding box and one point list per postal-code slot.
//! The point lists lie in CSR layout: one flat array of points, and one
//! `(offset, count)` pair per slot. The builder joins the two record streams
//! by identifier, drops pairs with no match, accumulates per-slot point lists
//! and bounding boxes, and lays the lists out flat.

use std::collections::HashMap;

use vstd::prelude::*;

use crate::bounding_box::{
    lemma_union_box_sentinel_iff, spec_sentinel, spec_union_box, BoundingBox, Point,
};
use crate::parse_num::Postcodes;
use crate::parse_vbo::Verblijfsobjecten;
use crate::postcode::{SmallestPostcode, POSTCODE_SPACE};

verus! {

broadcast use vstd::std_specs::hash::group_hash_axioms;

/// The identifier-to-postal-code map after inserting the first `n` pairs;
/// on a duplicate identifier the later pair wins.
pub open spec fn spec_join_map_upto(
    ids: Seq<u64>,
    pcs: Seq<SmallestPostcode>,
    n: int,
) -> Map<u64, SmallestPostcode>
    decreases n,
{
    if n <= 0 {
        Map::empty()
    } else {
        spec_join_map_upto(ids, pcs, n - 1).insert(ids[n - 1], pcs[n - 1])
    }
}

/// The identifier-to-postal-code map of a whole record set.
pub open spec fn spec_join_map(pcs: Postcodes) -> Map<u64, SmallestPostcode> {
    spec_join_map_upto(pcs.identificatie@, pcs.postcodes@, pcs.identificatie@.len() as int)
}

/// The points of slot `j` after joining the first `n` location records:
/// the points whose identifier maps to postal-code index `j`, in record
/// order. Records with no match fall away.
pub open spec fn spec_slot_points(
    m: Map<u64, SmallestPostcode>,
    ids: Seq<u64>,
    pts: Seq<Point>,
    n: int,
    j: int,
) -> Seq<Point>
    decreases n,
{
    if n <= 0 {
        Seq::empty()
    } else {
        let prefix = spec_slot_points(m, ids, pts, n - 1, j);
        if m.contains_key(ids[n - 1]) && m[ids[n - 1]].spec_index() == j {
            prefix.push(pts[n - 1])
        } else {
            prefix
        }
    }
}

/// All slots after joining the first `n` location records.
pub open spec fn spec_slots(
    m: Map<u64, SmallestPostcode>,
    ids: Seq<u64>,
    pts: Seq<Point>,
    n: int,
    count: int,
) -> Seq<Seq<Point>> {
    Seq::new(count as nat, |j: int| spec_slot_points(m, ids, pts, n, j))
}

/// The view of each per-slot list.
pub open spec fn bucket_views(bs: Seq<Vec<Point>>) -> Seq<Seq<Point>> {
    Seq::new(bs.len(), |j: int| bs[j]@)
}

/// The total length of the first `k` point lists.
pub open spec fn total_len(bs: Seq<Seq<Point>>, k: int) -> int
    decreases k,
{
    if k <= 0 {
        0
    } else {
        total_len(bs, k - 1) + bs[k - 1].len()
    }
}

/// The total over a prefix never exceeds the total over more lists.
proof fn lemma_total_len_mono(bs: Seq<Seq<Point>>, k1: int, k2: int)
    requires
        k1 <= k2,
    ensures
        total_len(bs, k1) <= total_len(bs, k2),
    decreases k2,
{
    if k1 < k2 && k2 > 0 {
        lemma_total_len_mono(bs, k1, k2 - 1);
    }
}

/// Joining one more record grows the slot totals by at most one point.
proof fn lemma_total_len_step(
    m: Map<u64, SmallestPostcode>,
    ids: Seq<u64>,
    pts: Seq<Point>,
    n: int,
    count: int,
    k: int,
)
    requires
        n >= 1,
        k <= count,
    ensures
        total_len(spec_slots(m, ids, pts, n, count), k) <= total_len(
            spec_slots(m, ids, pts, n - 1, count),
            k,
        ) + if m.contains_key(ids[n - 1]) && m[ids[n - 1]].spec_index() < k {
            1int
        } else {
            0int
        },
    decreases k,
{
    if k > 0 {
        lemma_total_len_step(m, ids, pts, n, count, k - 1);
    }
}

/// No slot holds a point before any record is joined.
proof fn lemma_total_len_zero(m: Map<u64, SmallestPostcode>, ids: Seq<u64>, pts: Seq<Point>, count: int, k: int)
    requires
        k <= count,
    ensures
        total_len(spec_slots(m, ids, pts, 0, count), k) == 0,
    decreases k,
{
    if k > 0 {
        lemma_total_len_zero(m, ids, pts, count, k - 1);
    }
}

/// Every joined record lands in at most one slot, so the slots together hold
/// at most as many points as there are records.
pub proof fn lemma_total_len_le(
    m: Map<u64, SmallestPostcode>,
    ids: Seq<u64>,
    pts: Seq<Point>,
    n: int,
    count: int,
)
    requires
        n >= 0,
    ensures
        total_len(spec_slots(m, ids, pts, n, count), count) <= n,
    decreases n,
{
    if n == 0 {
        lemma_total_len_zero(m, ids, pts, count, count);
    } else {
        lemma_total_len_le(m, ids, pts, n - 1, count);
        lemma_total_len_step(m, ids, pts, n, count, count);
    }
}

/// Accumulate a whole point list into one bounding box, starting from the
/// sentinel.
pub fn union_box(points: &Vec<Point>) -> (r: BoundingBox)
    ensures
        r == spec_union_box(points@),
{
    let mut acc = BoundingBox::infinite();
    proof {
        assert(points@.take(0) =~= Seq::<Point>::empty());
    }
    let n = points.len();
    for i in 0..n
        invariant
            n == points@.len(),
            acc == spec_union_box(points@.take(i as int)),
    {
        acc.extend_with(points[i]);
        proof {
            assert(points@.take(i + 1).drop_last() =~= points@.take(i as int));
            assert(points@.take(i + 1).last() == points@[i as int]);
        }
    }
    proof {
        assert(points@.take(n as int) =~= points@);
    }
    acc
}

/// Join the two record streams by identifier and gather the points of each
/// postal-code slot, in record order. Pairs whose identifier has no postal
/// code fall away silently.
pub fn points_per_postcode(postcodes: &Postcodes, objects: &Verblijfsobjecten) -> (r: Vec<
    Vec<Point>,
>)
    requires
        postcodes.wf(),
        objects.wf(),
    ensures
        r@.len() == POSTCODE_SPACE,
        forall|j: int|
            0 <= j < POSTCODE_SPACE ==> (#[trigger] r@[j])@ == spec_slot_points(
                spec_join_map(*postcodes),
                objects.postcode_id@,
                objects.points@,
                objects.postcode_id@.len() as int,
                j,
            ),
{
    let mut map: HashMap<u64, SmallestPostcode> = HashMap::new();
    let pc_count = postcodes.identificatie.len();
    for i in 0..pc_count
        invariant
            postcodes.wf(),
            pc_count == postcodes.identificatie@.len(),
            map@ == spec_join_map_upto(postcodes.identificatie@, postcodes.postcodes@, i as int),
    {
        map.insert(postcodes.identificatie[i], postcodes.postcodes[i]);
    }
    let mut buckets: Vec<Vec<Point>> = Vec::new();
    while buckets.len() < POSTCODE_SPACE
        invariant
            buckets@.len() <= POSTCODE_SPACE,
            forall|j: int|
                0 <= j < buckets@.len() ==> (#[trigger] buckets@[j])@ == Seq::<Point>::empty(),
        decreases POSTCODE_SPACE - buckets@.len(),
    {
        buckets.push(Vec::new());
    }
    let obj_count = objects.postcode_id.len();
    for i in 0..obj_count
        invariant
            objects.wf(),
            obj_count == objects.postcode_id@.len(),
            buckets@.len() == POSTCODE_SPACE,
            map@ == spec_join_map(*postcodes),
            forall|j: int|
                0 <= j < POSTCODE_SPACE ==> (#[trigger] buckets@[j])@ == spec_slot_points(
                    map@,
                    objects.postcode_id@,
                    objects.points@,
                    i as int,
                    j,
                ),
    {
        let id = objects.postcode_id[i];
        match map.get(&id) {
            Some(pc) => {
                let idx = pc.as_index();
                buckets[idx].push(objects.points[i]);
            },
            None => {},
        }
    }
    buckets
}

/// The spatial index: one bounding box and one CSR point list per slot.
pub struct SpatialIndex {
    pub(crate) boxes: Vec<BoundingBox>,
    pub(crate) points: Vec<Point>,
    pub(crate) slices: Vec<(u32, u32)>,
}

impl SpatialIndex {
    /// The bounding box of each slot.
    pub closed spec fn spec_boxes(self) -> Seq<BoundingBox> {
        self.boxes@
    }

    /// The flat array of all stored points.
    pub closed spec fn spec_points(self) -> Seq<Point> {
        self.points@
    }

    /// The `(offset, count)` pair of each slot.
    pub closed spec fn spec_slices(self) -> Seq<(u32, u32)> {
        self.slices@
    }

    /// The number of postal-code slots.
    pub open spec fn spec_slot_count(self) -> int {
        self.spec_slices().len() as int
    }

    /// The points stored for slot `j`.
    pub open spec fn spec_points_of(self, j: int) -> Seq<Point> {
        self.spec_points().subrange(
            self.spec_slices()[j].0 as int,
            self.spec_slices()[j].0 + self.spec_slices()[j].1,
        )
    }

    /// The index invariant: boxes and slices run in step, every slice lies
    /// inside the point array, and each slot's box is exactly the
    /// accumulated box of the slot's points — the sentinel when the slot is
    /// empty.
    pub open spec fn wf(self) -> bool {
        &&& self.spec_boxes().len() == self.spec_slot_count()
        &&& forall|j: int|
            0 <= j < self.spec_slot_count() ==> (#[trigger] self.spec_slices()[j]).0
                + self.spec_slices()[j].1 <= self.spec_points().len()
        &&& forall|j: int|
            0 <= j < self.spec_slot_count() ==> #[trigger] self.spec_boxes()[j] == spec_union_box(
                self.spec_points_of(j),
            )
    }

    /// The spec accessors are the views of the three arrays.
    pub(crate) proof fn reveal_parts(self)
        ensures
            self.spec_boxes() == self.boxes@,
            self.spec_points() == self.points@,
            self.spec_slices() == self.slices@,
    {
    }

    /// The number of postal-code slots.
    pub fn slot_count(&self) -> (r: usize)
        ensures
            r == self.spec_slot_count(),
    {
        self.slices.len()
    }

    /// The points stored for one postal-code slot, in insertion order.
    pub fn points_of(&self, j: usize) -> (r: Vec<Point>)
        requires
            self.wf(),
            j < self.spec_slot_count(),
        ensures
            r@ == self.spec_points_of(j as int),
    {
        let (start, count) = self.slices[j];
        let start = start as usize;
        let count = count as usize;
        let points_len = self.points.len();
        let mut r: Vec<Point> = Vec::new();
        for t in 0..count
            invariant
                start + count <= points_len,
                points_len == self.spec_points().len(),
                r@ == self.spec_points().subrange(start as int, start + t),
        {
            r.push(self.points[start + t]);
            proof {
                assert(self.spec_points().subrange(start as int, start + t + 1) =~= self
                    .spec_points().subrange(start as int, start + t).push(
                    self.spec_points()[start + t],
                ));
            }
        }
        r
    }

    /// Build the index from the two record streams: join by identifier,
    /// accumulate each slot's points and bounding box, and lay the point
    /// lists out flat. Offsets are the cumulative counts in slot order.
    pub fn build(postcodes: &Postcodes, objects: &Verblijfsobjecten) -> (r: SpatialIndex)
        requires
            postcodes.wf(),
            objects.wf(),
            objects.points@.len() <= 0xffff_ffff,
        ensures
            r.wf(),
            r.spec_slot_count() == POSTCODE_SPACE,
            forall|j: int|
                0 <= j < POSTCODE_SPACE ==> #[trigger] r.spec_points_of(j) == spec_slot_points(
                    spec_join_map(*postcodes),
                    objects.postcode_id@,
                    objects.points@,
                    objects.postcode_id@.len() as int,
                    j,
                ),
    {
        let buckets = points_per_postcode(postcodes, objects);
        proof {
            let m = spec_join_map(*postcodes);
            let ids = objects.postcode_id@;
            let pts = objects.points@;
            let n = ids.len() as int;
            assert(bucket_views(buckets@) =~~= spec_slots(m, ids, pts, n, POSTCODE_SPACE as int));
            lemma_total_len_le(m, ids, pts, n, POSTCODE_SPACE as int);
        }
        Self::from_buckets(buckets)
    }

    /// Lay per-slot point lists out as the flat CSR arrays, and accumulate
    /// each slot's bounding box.
    fn from_buckets(buckets: Vec<Vec<Point>>) -> (r: SpatialIndex)
        requires
            total_len(bucket_views(buckets@), buckets@.len() as int) <= 0xffff_ffff,
        ensures
            r.wf(),
            r.spec_slot_count() == buckets@.len(),
            forall|j: int|
                0 <= j < buckets@.len() ==> #[trigger] r.spec_points_of(j)
                    == bucket_views(buckets@)[j],
    {
        let n = buckets.len();
        let mut points: Vec<Point> = Vec::new();
        let mut slices: Vec<(u32, u32)> = Vec::new();
        let mut boxes: Vec<BoundingBox> = Vec::new();
        for j in 0..n
            invariant
                n == buckets@.len(),
                total_len(bucket_views(buckets@), n as int) <= 0xffff_ffff,
                slices@.len() == j,
                boxes@.len() == j,
                points@.len() == total_len(bucket_views(buckets@), j as int),
                forall|t: int|
                    0 <= t < j ==> (#[trigger] slices@[t]).0 + slices@[t].1 <= points@.len(),
                forall|t: int|
                    0 <= t < j ==> points@.subrange(
                        (#[trigger] slices@[t]).0 as int,
                        slices@[t].0 + slices@[t].1,
                    ) == bucket_views(buckets@)[t],
                forall|t: int|
                    0 <= t < j ==> #[trigger] boxes@[t] == spec_union_box(bucket_views(buckets@)[t]),
        {
            let bucket = &buckets[j];
            let start = points.len();
            let count = bucket.len();
            proof {
                lemma_total_len_mono(bucket_views(buckets@), j + 1, n as int);
            }
            let ghost old_points = points@;
            let mut t: usize = 0;
            while t < count
                invariant
                    t <= count,
                    count == bucket@.len(),
                    points@ == old_points + bucket@.take(t as int),
                decreases count - t,
            {
                points.push(bucket[t]);
                proof {
                    assert(bucket@.take(t + 1) =~= bucket@.take(t as int).push(bucket@[t as int]));
                }
                t = t + 1;
            }
            proof {
                assert(bucket@.take(count as int) =~= bucket@);
                assert(points@ =~= old_points + bucket@);
            }
            slices.push((start as u32, count as u32));
            boxes.push(union_box(bucket));
            proof {
                assert(forall|t: int|
                    0 <= t < j ==> points@.subrange(
                        (#[trigger] slices@[t]).0 as int,
                        slices@[t].0 + slices@[t].1,
                    ) =~= old_points.subrange(
                        slices@[t].0 as int,
                        slices@[t].0 + slices@[t].1,
                    ));
                assert(points@.subrange(start as int, start + count) =~= bucket@);
            }
        }
        let r = SpatialIndex { boxes, points, slices };
        proof {
            assert(forall|j: int|
                0 <= j < n ==> #[trigger] r.spec_points_of(j) == bucket_views(buckets@)[j]);
        }
        r
    }

    /// The bounding box of one slot: the sentinel exactly when the slot
    /// holds no point.
    pub fn box_of(&self, j: usize) -> (r: BoundingBox)
        requires
            self.wf(),
            j < self.spec_slot_count(),
        ensures
            r == spec_union_box(self.spec_points_of(j as int)),
            (r == spec_sentinel()) <==> self.spec_points_of(j as int).len() == 0,
    {
        proof {
            lemma_union_box_sentinel_iff(self.spec_points_of(j as int));
        }
        self.boxes[j]
    }
}

} // verus!
