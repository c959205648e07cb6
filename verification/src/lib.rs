//! Spatial index mapping Dutch postal codes to geographic extents and point
//! sets, with a proximity query engine.
//!
//! The library covers the compact postal-code encoding, axis-aligned
//! bounding-box geometry over fixed-point coordinates, the columnar/CSR
//! storage format and its byte-level serialization, the index build
//! (join + accumulate) pipeline, and the two-phase proximity query.

use std::ops::Range;

use vstd::prelude::*;

pub mod bounding_box;
pub mod parse_num;
pub mod parse_vbo;
pub mod points;
pub mod postcode;
pub mod query;
pub mod storage;
pub mod xml;

verus! {

/// The chunk width `in_steps` uses: the range length divided by the step
/// count, rounded up.
pub open spec fn spec_step_width(delta: int, steps: int) -> int {
    delta / steps + if delta % steps == 0 {
        0int
    } else {
        1int
    }
}

/// The chunks that cover `lo..end` in strides of `step`: each chunk starts
/// where the previous one ended, and the last one is cut at `end`.
pub open spec fn spec_chunks(end: int, step: int, lo: int) -> Seq<(int, int)>
    decreases end - lo,
        when step >= 1
{
    if lo >= end {
        Seq::empty()
    } else {
        let hi = if lo + step < end {
            lo + step
        } else {
            end
        };
        seq![(lo, hi)] + spec_chunks(end, step, hi)
    }
}

/// The bounds of each produced range, as plain pairs.
pub open spec fn spec_range_views(s: Seq<Range<usize>>) -> Seq<(int, int)> {
    Seq::new(s.len(), |i: int| (s[i].start as int, s[i].end as int))
}

/// Split a range into `steps` chunks of equal width (the last may be
/// shorter). The chunks start at zero and stop at the range's end.
pub fn in_steps(full_range: Range<usize>, steps: usize) -> (r: Vec<Range<usize>>)
    requires
        steps >= 1,
        full_range.start < full_range.end,
    ensures
        spec_step_width(full_range.end - full_range.start, steps as int) >= 1,
        spec_range_views(r@) == spec_chunks(
            full_range.end as int,
            spec_step_width(full_range.end - full_range.start, steps as int),
            0,
        ),
{
    let delta = full_range.end - full_range.start;
    let quotient = delta / steps;
    proof {
        if delta % steps != 0 {
            assert(steps >= 2);
            vstd::arithmetic::div_mod::lemma_div_is_ordered_by_denominator(
                delta as int,
                2,
                steps as int,
            );
            assert(quotient <= delta / 2);
        }
    }
    proof {
        if delta % steps == 0 {
            assert(steps <= delta) by (nonlinear_arith)
                requires
                    delta % steps == 0,
                    delta >= 1,
                    steps >= 1,
            ;
            vstd::arithmetic::div_mod::lemma_div_is_ordered_by_denominator(
                delta as int,
                steps as int,
                delta as int,
            );
            assert(delta / delta == 1) by (nonlinear_arith)
                requires
                    delta >= 1,
            ;
        }
    }
    let step = if delta % steps == 0 {
        quotient
    } else {
        quotient + 1
    };
    proof {
        assert(step == spec_step_width(delta as int, steps as int));
    }
    let end = full_range.end;
    let mut r: Vec<Range<usize>> = Vec::new();
    let mut lo: usize = 0;
    while lo < end
        invariant
            step == spec_step_width(delta as int, steps as int),
            1 <= step,
            lo <= end,
            spec_range_views(r@) + spec_chunks(end as int, step as int, lo as int) == spec_chunks(
                end as int,
                step as int,
                0,
            ),
        decreases end - lo,
    {
        let hi = if end - lo > step {
            lo + step
        } else {
            end
        };
        r.push(lo..hi);
        proof {
            assert(spec_range_views(r@) =~= spec_range_views(r@.drop_last()).push(
                (lo as int, hi as int),
            ));
            assert(spec_range_views(r@.drop_last()) + spec_chunks(end as int, step as int, lo as int)
                == spec_chunks(end as int, step as int, 0));
            assert(spec_chunks(end as int, step as int, lo as int) == seq![(lo as int, hi as int)]
                + spec_chunks(end as int, step as int, hi as int));
            assert(spec_range_views(r@) + spec_chunks(end as int, step as int, hi as int)
                =~= spec_range_views(r@.drop_last()) + spec_chunks(end as int, step as int, lo as int));
        }
        lo = hi;
    }
    proof {
        assert(spec_chunks(end as int, step as int, lo as int) =~= Seq::<(int, int)>::empty());
        assert(spec_range_views(r@) =~= spec_range_views(r@) + Seq::<(int, int)>::empty());
    }
    r
}

/// The chunks cover the whole range seamlessly: the first starts at `lo`,
/// each later one starts where the one before ended, every chunk is
/// non-empty and stays inside `end`, and the last one reaches `end`.
pub proof fn lemma_chunks_cover(end: int, step: int, lo: int)
    requires
        step >= 1,
        lo < end,
    ensures
        spec_chunks(end, step, lo).len() >= 1,
        spec_chunks(end, step, lo)[0].0 == lo,
        spec_chunks(end, step, lo).last().1 == end,
        forall|i: int|
            0 <= i < spec_chunks(end, step, lo).len() ==> (#[trigger] spec_chunks(end, step, lo)[i]).0
                < spec_chunks(end, step, lo)[i].1 <= end,
        forall|i: int|
            0 <= i && i + 1 < spec_chunks(end, step, lo).len() ==> (#[trigger] spec_chunks(
                end,
                step,
                lo,
            )[i]).1 == spec_chunks(end, step, lo)[i + 1].0,
    decreases end - lo,
{
    let s = spec_chunks(end, step, lo);
    let hi = if lo + step < end {
        lo + step
    } else {
        end
    };
    if hi < end {
        lemma_chunks_cover(end, step, hi);
        let t = spec_chunks(end, step, hi);
        assert(s == seq![(lo, hi)] + t);
        assert(seq![(lo, hi)].len() == 1);
        assert(s.len() == 1 + t.len());
        assert forall|i: int| 0 <= i < s.len() implies ((#[trigger] s[i]).0 < s[i].1 <= end) by {
            if i > 0 {
                assert(s[i] == (seq![(lo, hi)] + t)[i]);
                assert((seq![(lo, hi)] + t)[i] == t[i - 1]);
            }
        }
        assert forall|i: int| 0 <= i && i + 1 < s.len() implies (#[trigger] s[i]).1 == s[i + 1].0 by {
            assert(s[i + 1] == (seq![(lo, hi)] + t)[i + 1]);
            assert((seq![(lo, hi)] + t)[i + 1] == t[i]);
            if i > 0 {
                assert(s[i] == (seq![(lo, hi)] + t)[i]);
                assert((seq![(lo, hi)] + t)[i] == t[i - 1]);
            }
        }
        assert(s.last() == t.last());
    } else {
        assert(spec_chunks(end, step, end) =~= Seq::<(int, int)>::empty());
        assert(s =~= seq![(lo, end)] + Seq::<(int, int)>::empty());
        assert(s =~= seq![(lo, end)]);
    }
}

} // verus!
