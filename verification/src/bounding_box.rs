//! Planar points and axis-aligned bounding boxes over fixed-point coordinates.
//!
//! Coordinates are integers in millionths of a degree, so that geometry and
//! distance tests are exact. A radius given in meters is converted with a
//! fixed factor, uniform over all latitudes: one meter counts as nine
//! millionths of a degree. The conversion over-approximates a meter almost
//! everywhere, which is what the coarse query filter needs.

use vstd::prelude::*;

verus! {

/// Millionths of a degree that stand for one meter in radius conversions.
pub const UNITS_PER_METER: u32 = 9;

/// A planar point; the fields are fixed-point coordinates.
#[derive(PartialEq, Eq, Structural, Clone, Copy, Debug)]
pub struct Point {
    pub x: i32,
    pub y: i32,
}

/// An axis-aligned bounding box, inclusive on all four edges.
#[derive(PartialEq, Eq, Structural, Clone, Copy, Debug)]
pub struct BoundingBox {
    pub x_min: i32,
    pub y_min: i32,
    pub x_max: i32,
    pub y_max: i32,
}

/// The "no data yet" sentinel: below any point on the max side and above any
/// point on the min side, so it is the identity of `extend_with`.
pub open spec fn spec_sentinel() -> BoundingBox {
    BoundingBox { x_min: i32::MAX, y_min: i32::MAX, x_max: i32::MIN, y_max: i32::MIN }
}

/// The box contains the point (edges inclusive).
pub open spec fn spec_contains(b: BoundingBox, p: Point) -> bool {
    b.x_min <= p.x <= b.x_max && b.y_min <= p.y <= b.y_max
}

/// The tightest box around a single point.
pub open spec fn spec_from_point(p: Point) -> BoundingBox {
    BoundingBox { x_min: p.x, y_min: p.y, x_max: p.x, y_max: p.y }
}

/// The box extended to cover one more point.
pub open spec fn spec_extend(b: BoundingBox, p: Point) -> BoundingBox {
    BoundingBox {
        x_min: if p.x < b.x_min { p.x } else { b.x_min },
        y_min: if p.y < b.y_min { p.y } else { b.y_min },
        x_max: if p.x > b.x_max { p.x } else { b.x_max },
        y_max: if p.y > b.y_max { p.y } else { b.y_max },
    }
}

/// The boxes share at least one point-sized cell; touching edges count.
pub open spec fn spec_intersects(a: BoundingBox, b: BoundingBox) -> bool {
    a.x_min <= b.x_max && b.x_min <= a.x_max && a.y_min <= b.y_max && b.y_min <= a.y_max
}

/// Both coordinate intervals are non-empty.
pub open spec fn spec_nonempty(b: BoundingBox) -> bool {
    b.x_min <= b.x_max && b.y_min <= b.y_max
}

/// A value clamped into the `i32` range.
pub open spec fn clamp_i32(v: int) -> int {
    if v < i32::MIN {
        i32::MIN as int
    } else if v > i32::MAX {
        i32::MAX as int
    } else {
        v
    }
}

/// A radius in meters, as fixed-point coordinate units.
pub open spec fn spec_radius_units(radius_meters: u32) -> int {
    radius_meters * UNITS_PER_METER
}

/// The square approximating a disc: `radius` meters out from `p` on each
/// side, clamped at the coordinate range.
pub open spec fn spec_around_point(p: Point, radius_meters: u32) -> BoundingBox {
    BoundingBox {
        x_min: clamp_i32(p.x - spec_radius_units(radius_meters)) as i32,
        y_min: clamp_i32(p.y - spec_radius_units(radius_meters)) as i32,
        x_max: clamp_i32(p.x + spec_radius_units(radius_meters)) as i32,
        y_max: clamp_i32(p.y + spec_radius_units(radius_meters)) as i32,
    }
}

/// The squared planar distance between two points, in coordinate units.
pub open spec fn spec_dist2(p: Point, q: Point) -> int {
    (p.x - q.x) * (p.x - q.x) + (p.y - q.y) * (p.y - q.y)
}

/// The point lies within `radius` meters of `q` (exact, squared comparison).
pub open spec fn spec_within_radius(p: Point, q: Point, radius_meters: u32) -> bool {
    spec_dist2(p, q) <= spec_radius_units(radius_meters) * spec_radius_units(radius_meters)
}

impl Point {
    pub fn new(x: i32, y: i32) -> (r: Self)
        ensures
            r == (Point { x, y }),
    {
        Self { x, y }
    }

    /// The squared distance to another point, exact in coordinate units.
    pub fn distance_squared_to(&self, other: &Point) -> (r: u128)
        ensures
            r == spec_dist2(*self, *other),
    {
        let dx = (self.x as i64) - (other.x as i64);
        let dy = (self.y as i64) - (other.y as i64);
        proof {
            let a = dx as int;
            let b = dy as int;
            assert(a * a <= 0x1_0000_0000_0000_0000 && a * a >= 0) by (nonlinear_arith)
                requires
                    -0x1_0000_0000 <= a <= 0x1_0000_0000,
            ;
            assert(b * b <= 0x1_0000_0000_0000_0000 && b * b >= 0) by (nonlinear_arith)
                requires
                    -0x1_0000_0000 <= b <= 0x1_0000_0000,
            ;
        }
        let dx2 = (dx as i128) * (dx as i128);
        let dy2 = (dy as i128) * (dy as i128);
        (dx2 + dy2) as u128
    }

    /// The point lies within `radius_meters` of `other`.
    pub fn within_distance_of(&self, other: &Point, radius_meters: u32) -> (r: bool)
        ensures
            r == spec_within_radius(*self, *other, radius_meters),
    {
        let units = (radius_meters as u128) * (UNITS_PER_METER as u128);
        proof {
            assert(units == (radius_meters as u128) * 9);
            assert(units <= 0x9_0000_0000);
            assert(units * units <= 0x51_0000_0000_0000_0000_0000 && units * units >= 0)
                by (nonlinear_arith)
                requires
                    0 <= units <= 0x9_0000_0000,
            ;
            assert(spec_radius_units(radius_meters) == units);
        }
        self.distance_squared_to(other) <= units * units
    }
}

impl BoundingBox {
    /// The sentinel for "no observations yet".
    pub fn infinite() -> (r: Self)
        ensures
            r == spec_sentinel(),
    {
        Self { x_min: i32::MAX, y_min: i32::MAX, x_max: i32::MIN, y_max: i32::MIN }
    }

    /// The tightest box around a single point.
    pub fn from_point(p: Point) -> (r: Self)
        ensures
            r == spec_from_point(p),
    {
        Self { x_min: p.x, y_min: p.y, x_max: p.x, y_max: p.y }
    }

    /// A square of half-width `radius_meters` around `p`, via the fixed
    /// degrees-per-meter factor. Over-approximates the disc of the same
    /// radius, so it serves as the coarse filter box.
    pub fn around_point(p: Point, radius_meters: u32) -> (r: Self)
        ensures
            r == spec_around_point(p, radius_meters),
    {
        let units = (radius_meters as i64) * (UNITS_PER_METER as i64);
        proof {
            assert(units == (radius_meters as i64) * 9);
            assert(0 <= units <= 0x9_0000_0000);
            assert(spec_radius_units(radius_meters) == units);
        }
        Self {
            x_min: clamp_to_i32((p.x as i64) - units),
            y_min: clamp_to_i32((p.y as i64) - units),
            x_max: clamp_to_i32((p.x as i64) + units),
            y_max: clamp_to_i32((p.y as i64) + units),
        }
    }

    /// Grow the box to cover `p`; monotone, and the sentinel is its identity.
    pub fn extend_with(&mut self, p: Point)
        ensures
            *final(self) == spec_extend(*old(self), p),
            spec_contains(*final(self), p),
            forall|q: Point| spec_contains(*old(self), q) ==> spec_contains(*final(self), q),
    {
        if p.x < self.x_min {
            self.x_min = p.x;
        }
        if p.y < self.y_min {
            self.y_min = p.y;
        }
        if p.x > self.x_max {
            self.x_max = p.x;
        }
        if p.y > self.y_max {
            self.y_max = p.y;
        }
    }

    /// Separating-axis test on the four half-planes; touching edges intersect.
    pub fn intersects_with(&self, other: &BoundingBox) -> (r: bool)
        ensures
            r == spec_intersects(*self, *other),
    {
        self.x_min <= other.x_max && other.x_min <= self.x_max && self.y_min <= other.y_max
            && other.y_min <= self.y_max
    }

    /// The box is the "no data" sentinel.
    pub fn is_infinite(&self) -> (r: bool)
        ensures
            r == (*self == spec_sentinel()),
    {
        self.x_min == i32::MAX && self.y_min == i32::MAX && self.x_max == i32::MIN
            && self.y_max == i32::MIN
    }
}

/// Clamp a 64-bit value into the `i32` range.
fn clamp_to_i32(v: i64) -> (r: i32)
    ensures
        r == clamp_i32(v as int),
{
    if v < i32::MIN as i64 {
        i32::MIN
    } else if v > i32::MAX as i64 {
        i32::MAX
    } else {
        v as i32
    }
}

/// The sentinel is the identity of `extend_with`: extending it with any point
/// gives exactly the box of that point.
pub proof fn lemma_sentinel_extend_identity(p: Point)
    ensures
        spec_extend(spec_sentinel(), p) == spec_from_point(p),
{
}

/// Box intersection is symmetric.
pub proof fn lemma_intersects_symmetric(a: BoundingBox, b: BoundingBox)
    ensures
        spec_intersects(a, b) == spec_intersects(b, a),
{
}

/// Extension is monotone: the grown box covers the new point and everything
/// the old box covered.
pub proof fn lemma_extend_monotonic(b: BoundingBox, p: Point)
    ensures
        spec_contains(spec_extend(b, p), p),
        forall|q: Point| spec_contains(b, q) ==> spec_contains(spec_extend(b, p), q),
{
}

/// An extended box is never the sentinel: it has non-empty extent.
pub proof fn lemma_extend_nonempty(b: BoundingBox, p: Point)
    ensures
        spec_nonempty(spec_extend(b, p)),
        spec_extend(b, p) != spec_sentinel(),
{
}

/// Two boxes that each contain a common point intersect.
pub proof fn lemma_common_point_intersects(a: BoundingBox, b: BoundingBox, p: Point)
    requires
        spec_contains(a, p),
        spec_contains(b, p),
    ensures
        spec_intersects(a, b),
{
}

/// The box accumulated over a point sequence: repeated extension starting
/// from the sentinel.
pub open spec fn spec_union_box(ps: Seq<Point>) -> BoundingBox
    decreases ps.len(),
{
    if ps.len() == 0 {
        spec_sentinel()
    } else {
        spec_extend(spec_union_box(ps.drop_last()), ps.last())
    }
}

/// The accumulated box contains every point that went into it.
pub proof fn lemma_union_box_contains(ps: Seq<Point>, i: int)
    requires
        0 <= i < ps.len(),
    ensures
        spec_contains(spec_union_box(ps), ps[i]),
    decreases ps.len(),
{
    if i == ps.len() - 1 {
        lemma_extend_monotonic(spec_union_box(ps.drop_last()), ps.last());
    } else {
        lemma_union_box_contains(ps.drop_last(), i);
        lemma_extend_monotonic(spec_union_box(ps.drop_last()), ps.last());
    }
}

/// The accumulated box is the sentinel exactly when no point went into it.
pub proof fn lemma_union_box_sentinel_iff(ps: Seq<Point>)
    ensures
        (spec_union_box(ps) == spec_sentinel()) <==> ps.len() == 0,
{
    if ps.len() > 0 {
        lemma_extend_nonempty(spec_union_box(ps.drop_last()), ps.last());
    }
}

/// A point within `radius_meters` of `q` lies inside the coarse box around
/// `q`: the box filter never loses a true match.
pub proof fn lemma_within_radius_in_box(p: Point, q: Point, radius_meters: u32)
    requires
        spec_within_radius(p, q, radius_meters),
    ensures
        spec_contains(spec_around_point(q, radius_meters), p),
{
    let ru = spec_radius_units(radius_meters);
    let dx = p.x - q.x;
    let dy = p.y - q.y;
    assert(dx <= ru && -ru <= dx && dy <= ru && -ru <= dy) by (nonlinear_arith)
        requires
            dx * dx + dy * dy <= ru * ru,
            ru >= 0,
    ;
}

} // verus!
