//! The two-phase proximity query.
//!
//! Phase one scans the bounding boxes of all slots and keeps the slots whose
//! box meets the coarse box of some query point; the sentinel is always
//! skipped. Phase two checks each kept slot's stored points against every
//! query point with the exact squared-distance test. Because the scan walks
//! the slots in ascending order, the confirmed slots come out sorted and
//! without duplicates.

use std::ops::Range;

use rayon::iter::{IntoParallelRefIterator, ParallelIterator};

use vstd::prelude::*;

use crate::bounding_box::{
    lemma_common_point_intersects, lemma_union_box_contains, lemma_union_box_sentinel_iff,
    lemma_within_radius_in_box, spec_around_point, spec_intersects, spec_sentinel,
    spec_within_radius, BoundingBox, Point,
};
use crate::points::SpatialIndex;
use crate::postcode::{SmallestPostcode, POSTCODE_SPACE};

use crate::{in_steps, lemma_chunks_cover, spec_chunks, spec_range_views, spec_step_width};

verus! {

/// Query batches larger than this run the coarse scan in parallel.
pub const PARALLEL_THRESHOLD: usize = 64;

/// The coarse box of every query point.
pub open spec fn spec_query_boxes(queries: Seq<Point>, radius_meters: u32) -> Seq<BoundingBox> {
    Seq::new(queries.len(), |q: int| spec_around_point(queries[q], radius_meters))
}

/// The slot passes the coarse filter: its box is not the sentinel and meets
/// at least one query box.
pub open spec fn spec_coarse_match(idx: SpatialIndex, qb: Seq<BoundingBox>, j: int) -> bool {
    idx.spec_boxes()[j] != spec_sentinel() && exists|q: int|
        0 <= q < qb.len() && spec_intersects(idx.spec_boxes()[j], #[trigger] qb[q])
}

/// The slots of `lo..hi` that pass the coarse filter, in ascending order.
pub open spec fn spec_candidates(
    idx: SpatialIndex,
    qb: Seq<BoundingBox>,
    lo: int,
    hi: int,
) -> Seq<usize>
    decreases hi - lo,
{
    if lo >= hi {
        Seq::empty()
    } else if spec_coarse_match(idx, qb, hi - 1) {
        spec_candidates(idx, qb, lo, hi - 1).push((hi - 1) as usize)
    } else {
        spec_candidates(idx, qb, lo, hi - 1)
    }
}

/// The slot stores a point within `radius_meters` of some query point.
pub open spec fn spec_slot_hit(
    idx: SpatialIndex,
    queries: Seq<Point>,
    radius_meters: u32,
    j: int,
) -> bool {
    exists|k: int, q: int|
        0 <= k < idx.spec_points_of(j).len() && 0 <= q < queries.len()
            && #[trigger] spec_within_radius(idx.spec_points_of(j)[k], queries[q], radius_meters)
}

/// The candidates that refinement confirms, in candidate order.
pub open spec fn spec_refine(
    idx: SpatialIndex,
    queries: Seq<Point>,
    radius_meters: u32,
    cands: Seq<usize>,
) -> Seq<usize>
    decreases cands.len(),
{
    if cands.len() == 0 {
        Seq::empty()
    } else if spec_slot_hit(idx, queries, radius_meters, cands.last() as int) {
        spec_refine(idx, queries, radius_meters, cands.drop_last()).push(cands.last())
    } else {
        spec_refine(idx, queries, radius_meters, cands.drop_last())
    }
}

/// Candidate lists over adjacent ranges concatenate to the list over the
/// whole range.
pub proof fn lemma_candidates_concat(
    idx: SpatialIndex,
    qb: Seq<BoundingBox>,
    lo: int,
    mid: int,
    hi: int,
)
    requires
        lo <= mid <= hi,
    ensures
        spec_candidates(idx, qb, lo, hi) == spec_candidates(idx, qb, lo, mid) + spec_candidates(
            idx,
            qb,
            mid,
            hi,
        ),
    decreases hi - mid,
{
    if mid == hi {
        assert(spec_candidates(idx, qb, mid, hi) =~= Seq::<usize>::empty());
        assert(spec_candidates(idx, qb, lo, hi) =~= spec_candidates(idx, qb, lo, mid) + Seq::<
            usize,
        >::empty());
    } else {
        lemma_candidates_concat(idx, qb, lo, mid, hi - 1);
        if spec_coarse_match(idx, qb, hi - 1) {
            assert(spec_candidates(idx, qb, lo, hi) =~= spec_candidates(idx, qb, lo, mid)
                + spec_candidates(idx, qb, mid, hi));
        } else {
            assert(spec_candidates(idx, qb, lo, hi) =~= spec_candidates(idx, qb, lo, mid)
                + spec_candidates(idx, qb, mid, hi));
        }
    }
}

/// Every candidate lies in its range and passes the coarse filter, the list
/// ascends strictly, and every slot in range that passes the filter is in
/// the list.
pub proof fn lemma_candidates_members(idx: SpatialIndex, qb: Seq<BoundingBox>, lo: int, hi: int)
    requires
        0 <= lo,
        hi <= usize::MAX,
    ensures
        forall|t: int|
            0 <= t < spec_candidates(idx, qb, lo, hi).len() ==> lo <= #[trigger] spec_candidates(
                idx,
                qb,
                lo,
                hi,
            )[t] < hi && spec_coarse_match(idx, qb, spec_candidates(idx, qb, lo, hi)[t] as int),
        forall|a: int, b: int|
            0 <= a < b < spec_candidates(idx, qb, lo, hi).len() ==> #[trigger] spec_candidates(
                idx,
                qb,
                lo,
                hi,
            )[a] < #[trigger] spec_candidates(idx, qb, lo, hi)[b],
        forall|j: int|
            lo <= j < hi && spec_coarse_match(idx, qb, j) ==> spec_candidates(
                idx,
                qb,
                lo,
                hi,
            ).contains(j as usize),
    decreases hi - lo,
{
    if lo < hi {
        lemma_candidates_members(idx, qb, lo, hi - 1);
        let prev = spec_candidates(idx, qb, lo, hi - 1);
        let cur = spec_candidates(idx, qb, lo, hi);
        assert forall|t: int|
            0 <= t < cur.len() implies (lo <= #[trigger] cur[t] < hi && spec_coarse_match(
            idx,
            qb,
            cur[t] as int,
        )) by {
            if spec_coarse_match(idx, qb, hi - 1) {
                assert(cur == prev.push((hi - 1) as usize));
                if t < prev.len() {
                    assert(cur[t] == prev[t]);
                } else {
                    assert(cur[t] == (hi - 1) as usize);
                }
            } else {
                assert(cur == prev);
            }
        }
        assert forall|a: int, b: int| 0 <= a < b < cur.len() implies #[trigger] cur[a]
            < #[trigger] cur[b] by {
            if spec_coarse_match(idx, qb, hi - 1) {
                assert(cur == prev.push((hi - 1) as usize));
                if b < prev.len() {
                    assert(cur[a] == prev[a] && cur[b] == prev[b]);
                } else {
                    assert(cur[a] == prev[a]);
                    assert(cur[b] == (hi - 1) as usize);
                }
            } else {
                assert(cur == prev);
            }
        }
        assert forall|j: int|
            lo <= j < hi && spec_coarse_match(idx, qb, j) implies cur.contains(j as usize) by {
            if j < hi - 1 {
                let t = choose|t: int| 0 <= t < prev.len() && prev[t] == j as usize;
                if spec_coarse_match(idx, qb, hi - 1) {
                    assert(cur[t] == j as usize);
                } else {
                    assert(cur[t] == j as usize);
                }
            } else {
                assert(spec_coarse_match(idx, qb, hi - 1));
                assert(cur.last() == (hi - 1) as usize);
                assert(cur[cur.len() - 1] == j as usize);
            }
        }
    }
}

/// Every confirmed slot is a candidate with a stored point in range, the
/// confirmed list ascends strictly, and every candidate with such a point
/// is confirmed.
pub proof fn lemma_refine_members(
    idx: SpatialIndex,
    queries: Seq<Point>,
    radius_meters: u32,
    cands: Seq<usize>,
)
    requires
        forall|a: int, b: int| 0 <= a < b < cands.len() ==> #[trigger] cands[a] < #[trigger] cands[b],
    ensures
        forall|t: int|
            0 <= t < spec_refine(idx, queries, radius_meters, cands).len() ==> cands.contains(
                #[trigger] spec_refine(idx, queries, radius_meters, cands)[t],
            ) && spec_slot_hit(
                idx,
                queries,
                radius_meters,
                spec_refine(idx, queries, radius_meters, cands)[t] as int,
            ),
        forall|a: int, b: int|
            0 <= a < b < spec_refine(idx, queries, radius_meters, cands).len()
                ==> #[trigger] spec_refine(idx, queries, radius_meters, cands)[a]
                < #[trigger] spec_refine(idx, queries, radius_meters, cands)[b],
        forall|t: int|
            0 <= t < cands.len() && spec_slot_hit(idx, queries, radius_meters, #[trigger] cands[t] as int)
                ==> spec_refine(idx, queries, radius_meters, cands).contains(cands[t]),
    decreases cands.len(),
{
    if cands.len() > 0 {
        lemma_refine_members(idx, queries, radius_meters, cands.drop_last());
        let prev = spec_refine(idx, queries, radius_meters, cands.drop_last());
        let cur = spec_refine(idx, queries, radius_meters, cands);
        assert(forall|t: int|
            0 <= t < cands.drop_last().len() ==> #[trigger] cands.drop_last()[t] == cands[t]);
        assert forall|t: int|
            0 <= t < cur.len() implies cands.contains(#[trigger] cur[t]) && spec_slot_hit(
            idx,
            queries,
            radius_meters,
            cur[t] as int,
        ) by {
            if t < prev.len() {
                assert(cur[t] == prev[t]);
                let s = choose|s: int|
                    0 <= s < cands.drop_last().len() && cands.drop_last()[s] == prev[t];
                assert(cands[s] == prev[t]);
            } else {
                assert(cur[t] == cands.last());
                assert(cands[cands.len() - 1] == cands.last());
            }
        }
        assert forall|t: int|
            0 <= t < cands.len() && spec_slot_hit(
                idx,
                queries,
                radius_meters,
                #[trigger] cands[t] as int,
            ) implies cur.contains(cands[t]) by {
            if t < cands.len() - 1 {
                assert(cands.drop_last()[t] == cands[t]);
                assert(prev.contains(cands[t]));
                let s = choose|s: int| 0 <= s < prev.len() && prev[s] == cands[t];
                if spec_slot_hit(idx, queries, radius_meters, cands.last() as int) {
                    assert(cur[s] == cands[t]);
                } else {
                    assert(cur[s] == cands[t]);
                }
            } else {
                assert(cur.last() == cands.last());
                assert(cur[cur.len() - 1] == cands[t]);
            }
        }
        assert forall|a: int, b: int| 0 <= a < b < cur.len() implies cur[a] < cur[b] by {
            if b < prev.len() {
                assert(cur[a] == prev[a] && cur[b] == prev[b]);
            } else if b == prev.len() && cur.len() > prev.len() {
                assert(cur[b] == cands.last());
                assert(cur[a] == prev[a]);
                assert(cands.contains(prev[a]));
                let s = choose|s: int| 0 <= s < cands.len() && cands[s] == prev[a];
                if s < cands.len() - 1 {
                    assert(cands[s] < cands[cands.len() - 1]);
                } else {
                    assert(cands.drop_last().contains(prev[a]));
                    let u = choose|u: int|
                        0 <= u < cands.drop_last().len() && cands.drop_last()[u] == prev[a];
                    assert(cands[u] == prev[a]);
                    assert(cands[u] < cands[cands.len() - 1]);
                }
            }
        }
    }
}

/// A slot with a stored point within the radius of a query point always
/// passes the coarse filter: its box contains that point, and so does the
/// query point's coarse box.
pub proof fn lemma_hit_is_coarse_match(
    idx: SpatialIndex,
    queries: Seq<Point>,
    radius_meters: u32,
    j: int,
)
    requires
        idx.wf(),
        0 <= j < idx.spec_slot_count(),
        spec_slot_hit(idx, queries, radius_meters, j),
    ensures
        spec_coarse_match(idx, spec_query_boxes(queries, radius_meters), j),
{
    let qb = spec_query_boxes(queries, radius_meters);
    let ps = idx.spec_points_of(j);
    let (k, q) = choose|k: int, q: int|
        0 <= k < ps.len() && 0 <= q < queries.len() && #[trigger] spec_within_radius(
            ps[k],
            queries[q],
            radius_meters,
        );
    lemma_union_box_contains(ps, k);
    lemma_union_box_sentinel_iff(ps);
    lemma_within_radius_in_box(ps[k], queries[q], radius_meters);
    lemma_common_point_intersects(idx.spec_boxes()[j], qb[q], ps[k]);
}

/// Relies on rayon's `current_num_threads` for the worker count; the
/// chunking only follows whatever it reports.
#[verifier::external_body]
fn worker_count() -> usize {
    rayon::current_num_threads()
}

/// The point lies within `radius_meters` of some query point.
fn any_query_within(p: Point, queries: &[Point], radius_meters: u32) -> (r: bool)
    ensures
        r == exists|q: int|
            0 <= q < queries@.len() && spec_within_radius(p, #[trigger] queries@[q], radius_meters),
{
    let qn = queries.len();
    let mut q: usize = 0;
    let mut found = false;
    while q < qn && !found
        invariant
            qn == queries@.len(),
            q <= qn,
            found ==> exists|t: int|
                0 <= t < q && spec_within_radius(p, #[trigger] queries@[t], radius_meters),
            !found ==> forall|t: int|
                0 <= t < q ==> !spec_within_radius(p, #[trigger] queries@[t], radius_meters),
        decreases qn - q,
    {
        if p.within_distance_of(&queries[q], radius_meters) {
            found = true;
        }
        q = q + 1;
    }
    found
}

impl SpatialIndex {
    /// One coarse-filter pass over the slots of `lo..hi`: the slots whose
    /// box is not the sentinel and meets some query box, ascending.
    pub fn scan_range(&self, lo: usize, hi: usize, qboxes: &Vec<BoundingBox>) -> (r: Vec<usize>)
        requires
            self.wf(),
            lo <= hi <= self.spec_slot_count(),
        ensures
            r@ == spec_candidates(*self, qboxes@, lo as int, hi as int),
    {
        proof {
            self.reveal_parts();
        }
        let mut r: Vec<usize> = Vec::new();
        let mut j = lo;
        while j < hi
            invariant
                self.wf(),
                lo <= j <= hi <= self.spec_slot_count(),
                self.spec_boxes() == self.boxes@,
                r@ == spec_candidates(*self, qboxes@, lo as int, j as int),
            decreases hi - j,
        {
            let b = self.boxes[j];
            if !b.is_infinite() {
                let qn = qboxes.len();
                let mut q: usize = 0;
                let mut found = false;
                while q < qn && !found
                    invariant
                        qn == qboxes@.len(),
                        q <= qn,
                        b == self.spec_boxes()[j as int],
                        found ==> exists|t: int|
                            0 <= t < qn && spec_intersects(b, #[trigger] qboxes@[t]),
                        !found ==> forall|t: int|
                            0 <= t < q ==> !spec_intersects(b, #[trigger] qboxes@[t]),
                    decreases qn - q,
                {
                    if b.intersects_with(&qboxes[q]) {
                        found = true;
                    }
                    q = q + 1;
                }
                if found {
                    r.push(j);
                    proof {
                        assert(spec_coarse_match(*self, qboxes@, j as int));
                    }
                } else {
                    proof {
                        assert(!spec_coarse_match(*self, qboxes@, j as int));
                    }
                }
            } else {
                proof {
                    assert(!spec_coarse_match(*self, qboxes@, j as int));
                }
            }
            j = j + 1;
        }
        r
    }

    /// Exact refinement of one slot: some stored point of the slot lies
    /// within the radius of some query point.
    pub fn slot_hit(&self, j: usize, queries: &[Point], radius_meters: u32) -> (r: bool)
        requires
            self.wf(),
            j < self.spec_slot_count(),
        ensures
            r == spec_slot_hit(*self, queries@, radius_meters, j as int),
    {
        proof {
            self.reveal_parts();
        }
        let (start, count) = self.slices[j];
        let start = start as usize;
        let count = count as usize;
        let ghost ps = self.spec_points_of(j as int);
        let points_len = self.points.len();
        let mut k: usize = 0;
        let mut found = false;
        while k < count && !found
            invariant
                self.wf(),
                j < self.spec_slot_count(),
                self.spec_points() == self.points@,
                points_len == self.spec_points().len(),
                start + count <= points_len,
                start == self.spec_slices()[j as int].0,
                count == self.spec_slices()[j as int].1,
                ps == self.spec_points_of(j as int),
                k <= count,
                count == ps.len(),
                found ==> spec_slot_hit(*self, queries@, radius_meters, j as int),
                !found ==> forall|t: int, q: int|
                    0 <= t < k && 0 <= q < queries@.len() ==> !#[trigger] spec_within_radius(
                        ps[t],
                        queries@[q],
                        radius_meters,
                    ),
            decreases count - k,
        {
            let p = self.points[start + k];
            proof {
                assert(ps[k as int] == self.spec_points()[start + k]);
            }
            if any_query_within(p, queries, radius_meters) {
                found = true;
            }
            k = k + 1;
        }
        found
    }

    /// Refine a candidate list: keep the candidates whose slot stores a
    /// point within the radius of some query point, in order.
    fn refine(&self, cands: &Vec<usize>, queries: &[Point], radius_meters: u32) -> (r: Vec<usize>)
        requires
            self.wf(),
            forall|t: int| 0 <= t < cands@.len() ==> #[trigger] cands@[t] < self.spec_slot_count(),
        ensures
            r@ == spec_refine(*self, queries@, radius_meters, cands@),
    {
        let n = cands.len();
        let mut r: Vec<usize> = Vec::new();
        proof {
            assert(cands@.take(0) =~= Seq::<usize>::empty());
        }
        for i in 0..n
            invariant
                self.wf(),
                n == cands@.len(),
                forall|t: int|
                    0 <= t < cands@.len() ==> #[trigger] cands@[t] < self.spec_slot_count(),
                r@ == spec_refine(*self, queries@, radius_meters, cands@.take(i as int)),
        {
            if self.slot_hit(cands[i], queries, radius_meters) {
                r.push(cands[i]);
            }
            proof {
                assert(cands@.take(i + 1).drop_last() =~= cands@.take(i as int));
                assert(cands@.take(i + 1).last() == cands@[i as int]);
            }
        }
        proof {
            assert(cands@.take(n as int) =~= cands@);
        }
        r
    }

    /// Relies on rayon's indexed parallel map over a slice: `map` applies
    /// the closure to each element, `collect` keeps input order, so entry
    /// `i` is the closure's result on `ranges[i]`. The closure only calls
    /// the verified `scan_range`.
    #[verifier::external_body]
    fn scan_ranges_parallel(&self, ranges: &Vec<Range<usize>>, qboxes: &Vec<BoundingBox>) -> (r:
        Vec<Vec<usize>>)
        requires
            self.wf(),
            forall|i: int|
                0 <= i < ranges@.len() ==> (#[trigger] ranges@[i]).start <= ranges@[i].end
                    <= self.spec_slot_count(),
        ensures
            r@.len() == ranges@.len(),
            forall|i: int|
                0 <= i < ranges@.len() ==> (#[trigger] r@[i])@ == spec_candidates(
                    *self,
                    qboxes@,
                    ranges@[i].start as int,
                    ranges@[i].end as int,
                ),
    {
        ranges.par_iter().map(|range| self.scan_range(range.start, range.end, qboxes)).collect()
    }

    /// The coarse scan over all slots: sequential for small batches, and
    /// split over the worker pool for large ones. Both paths return exactly
    /// the candidate list of the whole slot range.
    fn coarse_candidates(&self, qboxes: &Vec<BoundingBox>, batch: usize) -> (r: Vec<usize>)
        requires
            self.wf(),
        ensures
            r@ == spec_candidates(*self, qboxes@, 0, self.spec_slot_count()),
    {
        let slot_count = self.slot_count();
        if batch <= PARALLEL_THRESHOLD || slot_count == 0 {
            return self.scan_range(0, slot_count, qboxes);
        }
        let workers = worker_count();
        let chunk_count = if workers == 0 {
            1
        } else {
            workers
        };
        let ranges = in_steps(0..slot_count, chunk_count);
        let ghost step = spec_step_width(slot_count as int, chunk_count as int);
        let ghost chunks = spec_chunks(slot_count as int, step, 0);
        proof {
            lemma_chunks_cover(slot_count as int, step, 0);
            assert(spec_range_views(ranges@) == chunks);
            assert forall|i: int|
                0 <= i < ranges@.len() implies (#[trigger] ranges@[i]).start <= ranges@[i].end
                <= self.spec_slot_count() by {
                assert(spec_range_views(ranges@)[i] == (
                    ranges@[i].start as int,
                    ranges@[i].end as int,
                ));
                assert(chunks[i].0 < chunks[i].1 <= slot_count as int);
            }
        }
        let partials = self.scan_ranges_parallel(&ranges, qboxes);
        let mut r: Vec<usize> = Vec::new();
        let rn = partials.len();
        proof {
            assert(ranges@.len() == chunks.len());
        }
        let mut i: usize = 0;
        while i < rn
            invariant
                self.wf(),
                rn == partials@.len(),
                rn == ranges@.len(),
                rn == chunks.len(),
                rn >= 1,
                spec_range_views(ranges@) == chunks,
                chunks == spec_chunks(slot_count as int, step, 0),
                step >= 1,
                slot_count == self.spec_slot_count(),
                slot_count >= 1,
                forall|t: int|
                    0 <= t < rn ==> (#[trigger] partials@[t])@ == spec_candidates(
                        *self,
                        qboxes@,
                        ranges@[t].start as int,
                        ranges@[t].end as int,
                    ),
                i <= rn,
                r@ == spec_candidates(
                    *self,
                    qboxes@,
                    0,
                    if i == 0 {
                        0int
                    } else {
                        chunks[i - 1].1
                    },
                ),
            decreases rn - i,
        {
            let ghost lo_bound = if i == 0 {
                0int
            } else {
                chunks[i - 1].1
            };
            proof {
                lemma_chunks_cover(slot_count as int, step, 0);
                assert(spec_range_views(ranges@)[i as int] == (
                    ranges@[i as int].start as int,
                    ranges@[i as int].end as int,
                ));
                assert(ranges@[i as int].start == chunks[i as int].0);
                assert(ranges@[i as int].end == chunks[i as int].1);
                assert(chunks[i as int].0 == lo_bound);
                lemma_candidates_concat(
                    *self,
                    qboxes@,
                    0,
                    chunks[i as int].0,
                    chunks[i as int].1,
                );
            }
            let partial = &partials[i];
            let pn = partial.len();
            let ghost r_before = r@;
            let mut t: usize = 0;
            while t < pn
                invariant
                    t <= pn,
                    pn == partial@.len(),
                    r@ == r_before + partial@.take(t as int),
                decreases pn - t,
            {
                r.push(partial[t]);
                proof {
                    assert(partial@.take(t + 1) =~= partial@.take(t as int).push(
                        partial@[t as int],
                    ));
                }
                t = t + 1;
            }
            proof {
                assert(partial@.take(pn as int) =~= partial@);
                assert(r@ =~= r_before + partial@);
            }
            i = i + 1;
        }
        proof {
            lemma_chunks_cover(slot_count as int, step, 0);
            assert(chunks.last() == chunks[rn - 1]);
            assert(chunks[rn - 1].1 == slot_count as int);
        }
        r
    }

    /// Every postal code with a stored point within `radius_meters` of some
    /// query point, as a strictly ascending, duplicate-free list. A slot
    /// with no points never appears; a query point that meets no box
    /// contributes nothing.
    pub fn query(&self, points: &[Point], radius_meters: u32) -> (r: Vec<SmallestPostcode>)
        requires
            self.wf(),
            self.spec_slot_count() <= POSTCODE_SPACE,
        ensures
            forall|t: int|
                0 <= t < r@.len() ==> #[trigger] r@[t].spec_index() < self.spec_slot_count()
                    && spec_slot_hit(*self, points@, radius_meters, r@[t].spec_index() as int),
            forall|j: int|
                0 <= j < self.spec_slot_count() && spec_slot_hit(*self, points@, radius_meters, j)
                    ==> exists|t: int|
                    0 <= t < r@.len() && (#[trigger] r@[t]).spec_index() == j,
            forall|a: int, b: int|
                0 <= a < b < r@.len() ==> #[trigger] r@[a].spec_index()
                    < #[trigger] r@[b].spec_index(),
    {
        let qn = points.len();
        let mut qboxes: Vec<BoundingBox> = Vec::new();
        for q in 0..qn
            invariant
                qn == points@.len(),
                qboxes@.len() == q,
                forall|t: int|
                    0 <= t < q ==> #[trigger] qboxes@[t] == spec_around_point(
                        points@[t],
                        radius_meters,
                    ),
        {
            qboxes.push(BoundingBox::around_point(points[q], radius_meters));
        }
        proof {
            assert(qboxes@ =~= spec_query_boxes(points@, radius_meters));
        }
        let candidates = self.coarse_candidates(&qboxes, qn);
        proof {
            lemma_candidates_members(*self, qboxes@, 0, self.spec_slot_count());
        }
        let confirmed = self.refine(&candidates, points, radius_meters);
        proof {
            lemma_refine_members(*self, points@, radius_meters, candidates@);
        }
        let cn = confirmed.len();
        let mut r: Vec<SmallestPostcode> = Vec::new();
        let ghost conf = spec_refine(*self, points@, radius_meters, candidates@);
        for t in 0..cn
            invariant
                self.wf(),
                self.spec_slot_count() <= POSTCODE_SPACE,
                cn == confirmed@.len(),
                confirmed@ == conf,
                conf == spec_refine(*self, points@, radius_meters, candidates@),
                candidates@ == spec_candidates(*self, qboxes@, 0, self.spec_slot_count()),
                qboxes@ == spec_query_boxes(points@, radius_meters),
                forall|s: int|
                    0 <= s < conf.len() ==> candidates@.contains(#[trigger] conf[s])
                        && spec_slot_hit(*self, points@, radius_meters, conf[s] as int),
                forall|a: int, b: int|
                    0 <= a < b < conf.len() ==> #[trigger] conf[a] < #[trigger] conf[b],
                r@.len() == t,
                forall|s: int| 0 <= s < t ==> #[trigger] r@[s].spec_index() == conf[s],
        {
            proof {
                lemma_candidates_members(*self, qboxes@, 0, self.spec_slot_count());
                assert(candidates@.contains(conf[t as int]));
                let u = choose|u: int|
                    0 <= u < candidates@.len() && candidates@[u] == conf[t as int];
                assert(0 <= candidates@[u] < self.spec_slot_count());
            }
            r.push(SmallestPostcode::from_index(confirmed[t]));
        }
        proof {
            assert forall|j: int|
                0 <= j < self.spec_slot_count() && spec_slot_hit(
                    *self,
                    points@,
                    radius_meters,
                    j,
                ) implies exists|t: int|
                0 <= t < r@.len() && (#[trigger] r@[t]).spec_index() == j by {
                lemma_hit_is_coarse_match(*self, points@, radius_meters, j);
                lemma_candidates_members(*self, qboxes@, 0, self.spec_slot_count());
                assert(candidates@.contains(j as usize));
                let u = choose|u: int|
                    0 <= u < candidates@.len() && candidates@[u] == j as usize;
                assert(spec_slot_hit(*self, points@, radius_meters, candidates@[u] as int));
                assert(conf.contains(j as usize));
                let s = choose|s: int| 0 <= s < conf.len() && conf[s] == j as usize;
                assert(r@[s].spec_index() == j);
            }
        }
        r
    }
}


/// Some element of the list has this dense index.
pub open spec fn spec_has_index(s: Seq<SmallestPostcode>, j: int) -> bool {
    exists|a: int| 0 <= a < s.len() && (#[trigger] s[a]).spec_index() == j
}

/// A strictly ascending postal-code list is determined by which indices
/// appear in it. So any two lists that meet `query`'s contract on the same
/// index and query batch are the same list, whether the sequential or the
/// parallel scan produced them.
pub proof fn lemma_query_result_unique(s: Seq<SmallestPostcode>, t: Seq<SmallestPostcode>)
    requires
        forall|a: int, b: int|
            0 <= a < b < s.len() ==> #[trigger] s[a].spec_index() < #[trigger] s[b].spec_index(),
        forall|a: int, b: int|
            0 <= a < b < t.len() ==> #[trigger] t[a].spec_index() < #[trigger] t[b].spec_index(),
        forall|j: int| #[trigger] spec_has_index(s, j) == spec_has_index(t, j),
    ensures
        s == t,
    decreases s.len(),
{
    if s.len() == 0 {
        if t.len() > 0 {
            let j = t[0].spec_index() as int;
            assert(spec_has_index(t, j));
            assert(spec_has_index(s, j));
        }
        assert(s =~= t);
    } else {
        let j0 = s[0].spec_index() as int;
        assert(spec_has_index(s, j0));
        assert(spec_has_index(t, j0));
        let b0 = choose|b: int| 0 <= b < t.len() && (#[trigger] t[b]).spec_index() == j0;
        if b0 > 0 {
            let ja = t[0].spec_index() as int;
            assert(spec_has_index(t, ja));
            assert(spec_has_index(s, ja));
            let a0 = choose|a: int| 0 <= a < s.len() && (#[trigger] s[a]).spec_index() == ja;
            assert(t[0].spec_index() < t[b0].spec_index());
            if a0 > 0 {
                assert(s[0].spec_index() < s[a0].spec_index());
            }
            assert(false);
        }
        SmallestPostcode::lemma_index_injective(s[0], t[0]);
        let s_tail = s.subrange(1, s.len() as int);
        let t_tail = t.subrange(1, t.len() as int);
        assert forall|j: int| #[trigger] spec_has_index(s_tail, j) == spec_has_index(
            t_tail,
            j,
        ) by {
            if spec_has_index(s_tail, j) {
                let a = choose|a: int|
                    0 <= a < s_tail.len() && (#[trigger] s_tail[a]).spec_index() == j;
                assert(s_tail[a] == s[a + 1]);
                assert(spec_has_index(s, j));
                assert(spec_has_index(t, j));
                let b = choose|b: int| 0 <= b < t.len() && (#[trigger] t[b]).spec_index() == j;
                assert(s[0].spec_index() < s[a + 1].spec_index());
                if b == 0 {
                    assert(false);
                }
                assert(t_tail[b - 1] == t[b]);
                assert(spec_has_index(t_tail, j));
            }
            if spec_has_index(t_tail, j) {
                let b = choose|b: int|
                    0 <= b < t_tail.len() && (#[trigger] t_tail[b]).spec_index() == j;
                assert(t_tail[b] == t[b + 1]);
                assert(spec_has_index(t, j));
                assert(spec_has_index(s, j));
                let a = choose|a: int| 0 <= a < s.len() && (#[trigger] s[a]).spec_index() == j;
                assert(t[0].spec_index() < t[b + 1].spec_index());
                if a == 0 {
                    assert(false);
                }
                assert(s_tail[a - 1] == s[a]);
                assert(spec_has_index(s_tail, j));
            }
        }
        assert forall|a: int, b: int|
            0 <= a < b < s_tail.len() implies #[trigger] s_tail[a].spec_index()
            < #[trigger] s_tail[b].spec_index() by {
            assert(s_tail[a] == s[a + 1] && s_tail[b] == s[b + 1]);
        }
        assert forall|a: int, b: int|
            0 <= a < b < t_tail.len() implies #[trigger] t_tail[a].spec_index()
            < #[trigger] t_tail[b].spec_index() by {
            assert(t_tail[a] == t[a + 1] && t_tail[b] == t[b + 1]);
        }
        lemma_query_result_unique(s_tail, t_tail);
        assert forall|i: int| 0 <= i < s.len() implies s[i] == t[i] by {
            if i > 0 {
                assert(s_tail[i - 1] == s[i]);
                assert(t_tail[i - 1] == t[i]);
            }
        }
        assert(s =~= t);
    }
}

} // verus!
