//! The on-disk form of the index: three flat arrays of fixed-size records,
//! with no header and no padding.
//!
//! A point is two 32-bit coordinates, a bounding box is four, a slice entry
//! is offset and count; every field is little-endian, signed fields in two's
//! complement. Writer and loader share these definitions, and the loader
//! validates what it reads: shape first, then the index invariant.

use vstd::prelude::*;

use crate::bounding_box::{spec_union_box, BoundingBox, Point};
use crate::points::{union_box, SpatialIndex};

verus! {

/// The four little-endian bytes of a 32-bit value.
pub open spec fn spec_le32(v: u32) -> Seq<u8> {
    seq![
        (v & 0xff) as u8,
        ((v >> 8) & 0xff) as u8,
        ((v >> 16) & 0xff) as u8,
        ((v >> 24) & 0xff) as u8,
    ]
}

/// The 32-bit value of four little-endian bytes.
pub open spec fn spec_u32_of(b0: u8, b1: u8, b2: u8, b3: u8) -> u32 {
    (b0 + b1 * 0x100 + b2 * 0x1_0000 + b3 * 0x100_0000) as u32
}

/// The two's-complement bit pattern of a signed coordinate.
pub open spec fn spec_i32_bits(v: i32) -> u32 {
    if v >= 0 {
        v as u32
    } else {
        (v + 0x1_0000_0000) as u32
    }
}

/// The signed coordinate of a two's-complement bit pattern.
pub open spec fn spec_i32_of_bits(u: u32) -> i32 {
    if u < 0x8000_0000 {
        u as i32
    } else {
        (u - 0x1_0000_0000) as i32
    }
}

/// The eight bytes of one point.
pub open spec fn spec_point_bytes(p: Point) -> Seq<u8> {
    spec_le32(spec_i32_bits(p.x)) + spec_le32(spec_i32_bits(p.y))
}

/// The sixteen bytes of one bounding box.
pub open spec fn spec_box_bytes(b: BoundingBox) -> Seq<u8> {
    spec_le32(spec_i32_bits(b.x_min)) + spec_le32(spec_i32_bits(b.y_min)) + spec_le32(
        spec_i32_bits(b.x_max),
    ) + spec_le32(spec_i32_bits(b.y_max))
}

/// The eight bytes of one slice entry.
pub open spec fn spec_slice_bytes(s: (u32, u32)) -> Seq<u8> {
    spec_le32(s.0) + spec_le32(s.1)
}

/// The byte image of a point array.
pub open spec fn spec_points_bytes(ps: Seq<Point>) -> Seq<u8>
    decreases ps.len(),
{
    if ps.len() == 0 {
        Seq::empty()
    } else {
        spec_points_bytes(ps.drop_last()) + spec_point_bytes(ps.last())
    }
}

/// The byte image of a bounding-box array.
pub open spec fn spec_boxes_bytes(bs: Seq<BoundingBox>) -> Seq<u8>
    decreases bs.len(),
{
    if bs.len() == 0 {
        Seq::empty()
    } else {
        spec_boxes_bytes(bs.drop_last()) + spec_box_bytes(bs.last())
    }
}

/// The byte image of a slice array.
pub open spec fn spec_slices_bytes(ss: Seq<(u32, u32)>) -> Seq<u8>
    decreases ss.len(),
{
    if ss.len() == 0 {
        Seq::empty()
    } else {
        spec_slices_bytes(ss.drop_last()) + spec_slice_bytes(ss.last())
    }
}

/// Why three byte arrays were rejected as an index image.
#[derive(PartialEq, Eq, Structural, Clone, Copy, Debug)]
pub enum StorageError {
    /// An array length is not a multiple of its record size, or the box and
    /// slice arrays disagree on the slot count.
    InvalidLength,
    /// A slice points outside the point array, or a stored box is not the
    /// accumulated box of its slot's points.
    Inconsistent,
}

/// The bit pattern maps back to the coordinate it came from.
pub proof fn lemma_i32_bits_roundtrip(v: i32)
    ensures
        spec_i32_of_bits(spec_i32_bits(v)) == v,
{
}

/// The four little-endian bytes map back to the value they came from.
pub proof fn lemma_le32_roundtrip(v: u32)
    ensures
        spec_u32_of(
            spec_le32(v)[0],
            spec_le32(v)[1],
            spec_le32(v)[2],
            spec_le32(v)[3],
        ) == v,
{
    assert((v & 0xff) < 0x100 && ((v >> 8) & 0xff) < 0x100 && ((v >> 16) & 0xff) < 0x100 && ((v
        >> 24) & 0xff) < 0x100) by (bit_vector);
    assert((v & 0xff) + ((v >> 8) & 0xff) * 0x100 + ((v >> 16) & 0xff) * 0x1_0000 + ((v >> 24)
        & 0xff) * 0x100_0000 == v) by (bit_vector);
}

/// Append the four little-endian bytes of a 32-bit value.
fn push_u32_le(out: &mut Vec<u8>, v: u32)
    ensures
        final(out)@ == old(out)@ + spec_le32(v),
{
    assert((v & 0xff) < 0x100 && ((v >> 8) & 0xff) < 0x100 && ((v >> 16) & 0xff) < 0x100 && ((v
        >> 24) & 0xff) < 0x100) by (bit_vector);
    out.push((v & 0xff) as u8);
    out.push(((v >> 8) & 0xff) as u8);
    out.push(((v >> 16) & 0xff) as u8);
    out.push(((v >> 24) & 0xff) as u8);
    proof {
        assert(final(out)@ =~= old(out)@ + spec_le32(v));
    }
}

/// Read the 32-bit value at `pos`.
fn read_u32_le(bytes: &[u8], pos: usize) -> (r: u32)
    requires
        pos + 4 <= bytes@.len(),
    ensures
        r == spec_u32_of(
            bytes@[pos as int],
            bytes@[pos + 1],
            bytes@[pos + 2],
            bytes@[pos + 3],
        ),
{
    let b0 = bytes[pos] as u32;
    let b1 = bytes[pos + 1] as u32;
    let b2 = bytes[pos + 2] as u32;
    let b3 = bytes[pos + 3] as u32;
    b0 + b1 * 0x100 + b2 * 0x1_0000 + b3 * 0x100_0000
}

/// The two's-complement bit pattern of a coordinate.
fn i32_bits(v: i32) -> (r: u32)
    ensures
        r == spec_i32_bits(v),
{
    if v >= 0 {
        v as u32
    } else {
        ((v as i64) + 0x1_0000_0000) as u32
    }
}

/// The coordinate of a two's-complement bit pattern.
fn i32_of_bits(u: u32) -> (r: i32)
    ensures
        r == spec_i32_of_bits(u),
{
    if u < 0x8000_0000 {
        u as i32
    } else {
        ((u as i64) - 0x1_0000_0000) as i32
    }
}

/// Read the point at byte offset `pos`.
fn read_point(bytes: &[u8], pos: usize) -> (r: Point)
    requires
        pos + 8 <= bytes@.len(),
        bytes@.len() <= usize::MAX,
    ensures
        spec_point_bytes(r) == bytes@.subrange(pos as int, pos + 8),
{
    let x = i32_of_bits(read_u32_le(bytes, pos));
    let y = i32_of_bits(read_u32_le(bytes, pos + 4));
    let r = Point { x, y };
    proof {
        lemma_le32_roundtrip(spec_i32_bits(r.x));
        lemma_le32_roundtrip(spec_i32_bits(r.y));
        lemma_le32_of_named(bytes@, pos as int, spec_i32_bits(r.x));
        lemma_le32_of_named(bytes@, pos + 4, spec_i32_bits(r.y));
        assert(spec_point_bytes(r) =~= bytes@.subrange(pos as int, pos + 8));
    }
    r
}

/// If a word equals the value of the four bytes at `pos`, its little-endian
/// bytes are exactly those bytes.
proof fn lemma_le32_of_named(bytes: Seq<u8>, pos: int, u: u32)
    requires
        0 <= pos,
        pos + 4 <= bytes.len(),
        u == spec_u32_of(bytes[pos], bytes[pos + 1], bytes[pos + 2], bytes[pos + 3]),
    ensures
        spec_le32(u) =~= bytes.subrange(pos, pos + 4),
{
    let b0 = bytes[pos];
    let b1 = bytes[pos + 1];
    let b2 = bytes[pos + 2];
    let b3 = bytes[pos + 3];
    assert(u == spec_u32_of(b0, b1, b2, b3));
    assert((u & 0xff) == b0 as u32 && ((u >> 8) & 0xff) == b1 as u32 && ((u >> 16) & 0xff) == b2
        as u32 && ((u >> 24) & 0xff) == b3 as u32) by (bit_vector)
        requires
            u == (b0 as u32) + (b1 as u32) * 0x100 + (b2 as u32) * 0x1_0000 + (b3 as u32)
                * 0x100_0000,
    ;
}

/// Serialize a point array: eight bytes per point, in order.
pub fn points_to_bytes(ps: &Vec<Point>) -> (r: Vec<u8>)
    ensures
        r@ == spec_points_bytes(ps@),
        r@.len() == 8 * ps@.len(),
{
    let mut out: Vec<u8> = Vec::new();
    let n = ps.len();
    proof {
        assert(ps@.take(0) =~= Seq::<Point>::empty());
    }
    for i in 0..n
        invariant
            n == ps@.len(),
            out@ == spec_points_bytes(ps@.take(i as int)),
            out@.len() == 8 * i,
    {
        let p = ps[i];
        push_u32_le(&mut out, i32_bits(p.x));
        push_u32_le(&mut out, i32_bits(p.y));
        proof {
            assert(ps@.take(i + 1).drop_last() =~= ps@.take(i as int));
            assert(out@ =~= spec_points_bytes(ps@.take(i as int)) + spec_point_bytes(
                ps@[i as int],
            ));
        }
    }
    proof {
        assert(ps@.take(n as int) =~= ps@);
    }
    out
}

/// Parse a point array; rejected when the length is not a multiple of the
/// record size.
pub fn points_from_bytes(bytes: &[u8]) -> (r: Result<Vec<Point>, StorageError>)
    ensures
        r is Ok <==> bytes@.len() % 8 == 0,
        r matches Ok(ps) ==> spec_points_bytes(ps@) == bytes@ && ps@.len() == bytes@.len() / 8,
{
    let len = bytes.len();
    if len % 8 != 0 {
        return Err(StorageError::InvalidLength);
    }
    let n = len / 8;
    let mut ps: Vec<Point> = Vec::new();
    proof {
        assert(bytes@.take(0) =~= Seq::<u8>::empty());
    }
    for i in 0..n
        invariant
            n == bytes@.len() / 8,
            bytes@.len() % 8 == 0,
            len == bytes@.len(),
            8 * n <= len,
            ps@.len() == i,
            spec_points_bytes(ps@) == bytes@.take(8 * i),
    {
        let ghost pre = ps@;
        let p = read_point(bytes, 8 * i);
        ps.push(p);
        proof {
            assert(ps@.drop_last() =~= pre);
            assert(ps@.last() == p);
            assert(spec_points_bytes(ps@) == spec_points_bytes(pre) + spec_point_bytes(p));
            assert(bytes@.take(8 * i + 8) =~= bytes@.take(8 * i) + bytes@.subrange(
                8 * i,
                8 * i + 8,
            ));
            assert(spec_points_bytes(ps@) == bytes@.take(8 * (i + 1)));
        }
    }
    proof {
        assert(bytes@.take(8 * (n as int)) =~= bytes@);
    }
    Ok(ps)
}


/// Equal little-endian words hold equal values.
pub proof fn lemma_le32_injective(u: u32, w: u32)
    requires
        spec_le32(u) == spec_le32(w),
    ensures
        u == w,
{
    lemma_le32_roundtrip(u);
    lemma_le32_roundtrip(w);
}

/// A point is determined by its eight bytes.
pub proof fn lemma_point_bytes_injective(p: Point, q: Point)
    requires
        spec_point_bytes(p) == spec_point_bytes(q),
    ensures
        p == q,
{
    assert(spec_le32(spec_i32_bits(p.x)) =~= spec_point_bytes(p).subrange(0, 4));
    assert(spec_le32(spec_i32_bits(q.x)) =~= spec_point_bytes(q).subrange(0, 4));
    assert(spec_le32(spec_i32_bits(p.y)) =~= spec_point_bytes(p).subrange(4, 8));
    assert(spec_le32(spec_i32_bits(q.y)) =~= spec_point_bytes(q).subrange(4, 8));
    lemma_le32_injective(spec_i32_bits(p.x), spec_i32_bits(q.x));
    lemma_le32_injective(spec_i32_bits(p.y), spec_i32_bits(q.y));
    lemma_i32_bits_roundtrip(p.x);
    lemma_i32_bits_roundtrip(q.x);
    lemma_i32_bits_roundtrip(p.y);
    lemma_i32_bits_roundtrip(q.y);
}

/// A bounding box is determined by its sixteen bytes.
pub proof fn lemma_box_bytes_injective(p: BoundingBox, q: BoundingBox)
    requires
        spec_box_bytes(p) == spec_box_bytes(q),
    ensures
        p == q,
{
    assert(spec_le32(spec_i32_bits(p.x_min)) =~= spec_box_bytes(p).subrange(0, 4));
    assert(spec_le32(spec_i32_bits(q.x_min)) =~= spec_box_bytes(q).subrange(0, 4));
    assert(spec_le32(spec_i32_bits(p.y_min)) =~= spec_box_bytes(p).subrange(4, 8));
    assert(spec_le32(spec_i32_bits(q.y_min)) =~= spec_box_bytes(q).subrange(4, 8));
    assert(spec_le32(spec_i32_bits(p.x_max)) =~= spec_box_bytes(p).subrange(8, 12));
    assert(spec_le32(spec_i32_bits(q.x_max)) =~= spec_box_bytes(q).subrange(8, 12));
    assert(spec_le32(spec_i32_bits(p.y_max)) =~= spec_box_bytes(p).subrange(12, 16));
    assert(spec_le32(spec_i32_bits(q.y_max)) =~= spec_box_bytes(q).subrange(12, 16));
    lemma_le32_injective(spec_i32_bits(p.x_min), spec_i32_bits(q.x_min));
    lemma_le32_injective(spec_i32_bits(p.y_min), spec_i32_bits(q.y_min));
    lemma_le32_injective(spec_i32_bits(p.x_max), spec_i32_bits(q.x_max));
    lemma_le32_injective(spec_i32_bits(p.y_max), spec_i32_bits(q.y_max));
    lemma_i32_bits_roundtrip(p.x_min);
    lemma_i32_bits_roundtrip(q.x_min);
    lemma_i32_bits_roundtrip(p.y_min);
    lemma_i32_bits_roundtrip(q.y_min);
    lemma_i32_bits_roundtrip(p.x_max);
    lemma_i32_bits_roundtrip(q.x_max);
    lemma_i32_bits_roundtrip(p.y_max);
    lemma_i32_bits_roundtrip(q.y_max);
}

/// A slice entry is determined by its eight bytes.
pub proof fn lemma_slice_bytes_injective(p: (u32, u32), q: (u32, u32))
    requires
        spec_slice_bytes(p) == spec_slice_bytes(q),
    ensures
        p == q,
{
    assert(spec_le32(p.0) =~= spec_slice_bytes(p).subrange(0, 4));
    assert(spec_le32(q.0) =~= spec_slice_bytes(q).subrange(0, 4));
    assert(spec_le32(p.1) =~= spec_slice_bytes(p).subrange(4, 8));
    assert(spec_le32(q.1) =~= spec_slice_bytes(q).subrange(4, 8));
    lemma_le32_injective(p.0, q.0);
    lemma_le32_injective(p.1, q.1);
}

/// A point array's byte image is eight bytes per point.
pub proof fn lemma_points_bytes_len(ps: Seq<Point>)
    ensures
        spec_points_bytes(ps).len() == 8 * ps.len(),
    decreases ps.len(),
{
    if ps.len() > 0 {
        lemma_points_bytes_len(ps.drop_last());
    }
}

/// A box array's byte image is sixteen bytes per box.
pub proof fn lemma_boxes_bytes_len(bs: Seq<BoundingBox>)
    ensures
        spec_boxes_bytes(bs).len() == 16 * bs.len(),
    decreases bs.len(),
{
    if bs.len() > 0 {
        lemma_boxes_bytes_len(bs.drop_last());
    }
}

/// A slice array's byte image is eight bytes per entry.
pub proof fn lemma_slices_bytes_len(ss: Seq<(u32, u32)>)
    ensures
        spec_slices_bytes(ss).len() == 8 * ss.len(),
    decreases ss.len(),
{
    if ss.len() > 0 {
        lemma_slices_bytes_len(ss.drop_last());
    }
}

/// A point array is determined by its byte image.
pub proof fn lemma_points_bytes_injective(a: Seq<Point>, b: Seq<Point>)
    requires
        spec_points_bytes(a) == spec_points_bytes(b),
    ensures
        a == b,
    decreases a.len(),
{
    lemma_points_bytes_len(a);
    lemma_points_bytes_len(b);
    if a.len() == 0 {
        assert(a =~= b);
    } else {
        let abytes = spec_points_bytes(a);
        lemma_points_bytes_len(a.drop_last());
        lemma_points_bytes_len(b.drop_last());
        assert(spec_point_bytes(a.last()) =~= abytes.subrange(
            abytes.len() - 8,
            abytes.len() as int,
        ));
        assert(spec_point_bytes(b.last()) =~= abytes.subrange(
            abytes.len() - 8,
            abytes.len() as int,
        ));
        lemma_point_bytes_injective(a.last(), b.last());
        assert(spec_points_bytes(a.drop_last()) =~= abytes.subrange(0, abytes.len() - 8));
        assert(spec_points_bytes(b.drop_last()) =~= abytes.subrange(0, abytes.len() - 8));
        lemma_points_bytes_injective(a.drop_last(), b.drop_last());
        assert forall|i: int| 0 <= i < a.len() implies a[i] == b[i] by {
            if i < a.len() - 1 {
                assert(a.drop_last()[i] == a[i]);
                assert(b.drop_last()[i] == b[i]);
            }
        }
        assert(a =~= b);
    }
}

/// A box array is determined by its byte image.
pub proof fn lemma_boxes_bytes_injective(a: Seq<BoundingBox>, b: Seq<BoundingBox>)
    requires
        spec_boxes_bytes(a) == spec_boxes_bytes(b),
    ensures
        a == b,
    decreases a.len(),
{
    lemma_boxes_bytes_len(a);
    lemma_boxes_bytes_len(b);
    if a.len() == 0 {
        assert(a =~= b);
    } else {
        let abytes = spec_boxes_bytes(a);
        lemma_boxes_bytes_len(a.drop_last());
        lemma_boxes_bytes_len(b.drop_last());
        assert(spec_box_bytes(a.last()) =~= abytes.subrange(abytes.len() - 16, abytes.len() as int));
        assert(spec_box_bytes(b.last()) =~= abytes.subrange(abytes.len() - 16, abytes.len() as int));
        lemma_box_bytes_injective(a.last(), b.last());
        assert(spec_boxes_bytes(a.drop_last()) =~= abytes.subrange(0, abytes.len() - 16));
        assert(spec_boxes_bytes(b.drop_last()) =~= abytes.subrange(0, abytes.len() - 16));
        lemma_boxes_bytes_injective(a.drop_last(), b.drop_last());
        assert forall|i: int| 0 <= i < a.len() implies a[i] == b[i] by {
            if i < a.len() - 1 {
                assert(a.drop_last()[i] == a[i]);
                assert(b.drop_last()[i] == b[i]);
            }
        }
        assert(a =~= b);
    }
}

/// A slice array is determined by its byte image.
pub proof fn lemma_slices_bytes_injective(a: Seq<(u32, u32)>, b: Seq<(u32, u32)>)
    requires
        spec_slices_bytes(a) == spec_slices_bytes(b),
    ensures
        a == b,
    decreases a.len(),
{
    lemma_slices_bytes_len(a);
    lemma_slices_bytes_len(b);
    if a.len() == 0 {
        assert(a =~= b);
    } else {
        let abytes = spec_slices_bytes(a);
        lemma_slices_bytes_len(a.drop_last());
        lemma_slices_bytes_len(b.drop_last());
        assert(spec_slice_bytes(a.last()) =~= abytes.subrange(
            abytes.len() - 8,
            abytes.len() as int,
        ));
        assert(spec_slice_bytes(b.last()) =~= abytes.subrange(
            abytes.len() - 8,
            abytes.len() as int,
        ));
        lemma_slice_bytes_injective(a.last(), b.last());
        assert(spec_slices_bytes(a.drop_last()) =~= abytes.subrange(0, abytes.len() - 8));
        assert(spec_slices_bytes(b.drop_last()) =~= abytes.subrange(0, abytes.len() - 8));
        lemma_slices_bytes_injective(a.drop_last(), b.drop_last());
        assert forall|i: int| 0 <= i < a.len() implies a[i] == b[i] by {
            if i < a.len() - 1 {
                assert(a.drop_last()[i] == a[i]);
                assert(b.drop_last()[i] == b[i]);
            }
        }
        assert(a =~= b);
    }
}


/// Read the bounding box at byte offset `pos`.
fn read_box(bytes: &[u8], pos: usize) -> (r: BoundingBox)
    requires
        pos + 16 <= bytes@.len(),
        bytes@.len() <= usize::MAX,
    ensures
        spec_box_bytes(r) == bytes@.subrange(pos as int, pos + 16),
{
    let x_min = i32_of_bits(read_u32_le(bytes, pos));
    let y_min = i32_of_bits(read_u32_le(bytes, pos + 4));
    let x_max = i32_of_bits(read_u32_le(bytes, pos + 8));
    let y_max = i32_of_bits(read_u32_le(bytes, pos + 12));
    let r = BoundingBox { x_min, y_min, x_max, y_max };
    proof {
        lemma_le32_of_named(bytes@, pos as int, spec_i32_bits(r.x_min));
        lemma_le32_of_named(bytes@, pos + 4, spec_i32_bits(r.y_min));
        lemma_le32_of_named(bytes@, pos + 8, spec_i32_bits(r.x_max));
        lemma_le32_of_named(bytes@, pos + 12, spec_i32_bits(r.y_max));
        assert(spec_box_bytes(r) =~= bytes@.subrange(pos as int, pos + 16));
    }
    r
}

/// Read the slice entry at byte offset `pos`.
fn read_slice(bytes: &[u8], pos: usize) -> (r: (u32, u32))
    requires
        pos + 8 <= bytes@.len(),
        bytes@.len() <= usize::MAX,
    ensures
        spec_slice_bytes(r) == bytes@.subrange(pos as int, pos + 8),
{
    let offset = read_u32_le(bytes, pos);
    let count = read_u32_le(bytes, pos + 4);
    proof {
        lemma_le32_of_named(bytes@, pos as int, offset);
        lemma_le32_of_named(bytes@, pos + 4, count);
        assert(spec_slice_bytes((offset, count)) =~= bytes@.subrange(pos as int, pos + 8));
    }
    (offset, count)
}

/// Serialize a bounding-box array: sixteen bytes per box, in order.
pub fn boxes_to_bytes(bs: &Vec<BoundingBox>) -> (r: Vec<u8>)
    ensures
        r@ == spec_boxes_bytes(bs@),
        r@.len() == 16 * bs@.len(),
{
    let mut out: Vec<u8> = Vec::new();
    let n = bs.len();
    proof {
        assert(bs@.take(0) =~= Seq::<BoundingBox>::empty());
    }
    for i in 0..n
        invariant
            n == bs@.len(),
            out@ == spec_boxes_bytes(bs@.take(i as int)),
            out@.len() == 16 * i,
    {
        let b = bs[i];
        push_u32_le(&mut out, i32_bits(b.x_min));
        push_u32_le(&mut out, i32_bits(b.y_min));
        push_u32_le(&mut out, i32_bits(b.x_max));
        push_u32_le(&mut out, i32_bits(b.y_max));
        proof {
            assert(bs@.take(i + 1).drop_last() =~= bs@.take(i as int));
            assert(out@ =~= spec_boxes_bytes(bs@.take(i as int)) + spec_box_bytes(bs@[i as int]));
        }
    }
    proof {
        assert(bs@.take(n as int) =~= bs@);
    }
    out
}

/// Serialize a slice array: eight bytes per entry, in order.
pub fn slices_to_bytes(ss: &Vec<(u32, u32)>) -> (r: Vec<u8>)
    ensures
        r@ == spec_slices_bytes(ss@),
        r@.len() == 8 * ss@.len(),
{
    let mut out: Vec<u8> = Vec::new();
    let n = ss.len();
    proof {
        assert(ss@.take(0) =~= Seq::<(u32, u32)>::empty());
    }
    for i in 0..n
        invariant
            n == ss@.len(),
            out@ == spec_slices_bytes(ss@.take(i as int)),
            out@.len() == 8 * i,
    {
        let (offset, count) = ss[i];
        push_u32_le(&mut out, offset);
        push_u32_le(&mut out, count);
        proof {
            assert(ss@.take(i + 1).drop_last() =~= ss@.take(i as int));
            assert(out@ =~= spec_slices_bytes(ss@.take(i as int)) + spec_slice_bytes(
                ss@[i as int],
            ));
        }
    }
    proof {
        assert(ss@.take(n as int) =~= ss@);
    }
    out
}

/// Parse a bounding-box array; rejected when the length is not a multiple of
/// the record size.
pub fn boxes_from_bytes(bytes: &[u8]) -> (r: Result<Vec<BoundingBox>, StorageError>)
    ensures
        r is Ok <==> bytes@.len() % 16 == 0,
        r matches Ok(bs) ==> spec_boxes_bytes(bs@) == bytes@ && bs@.len() == bytes@.len() / 16,
{
    let len = bytes.len();
    if len % 16 != 0 {
        return Err(StorageError::InvalidLength);
    }
    let n = len / 16;
    let mut bs: Vec<BoundingBox> = Vec::new();
    proof {
        assert(bytes@.take(0) =~= Seq::<u8>::empty());
    }
    for i in 0..n
        invariant
            n == bytes@.len() / 16,
            bytes@.len() % 16 == 0,
            len == bytes@.len(),
            16 * n <= len,
            bs@.len() == i,
            spec_boxes_bytes(bs@) == bytes@.take(16 * i),
    {
        let ghost pre = bs@;
        let b = read_box(bytes, 16 * i);
        bs.push(b);
        proof {
            assert(bs@.drop_last() =~= pre);
            assert(bs@.last() == b);
            assert(spec_boxes_bytes(bs@) == spec_boxes_bytes(pre) + spec_box_bytes(b));
            assert(bytes@.take(16 * i + 16) =~= bytes@.take(16 * i) + bytes@.subrange(
                16 * i,
                16 * i + 16,
            ));
            assert(spec_boxes_bytes(bs@) == bytes@.take(16 * (i + 1)));
        }
    }
    proof {
        assert(bytes@.take(16 * (n as int)) =~= bytes@);
    }
    Ok(bs)
}

/// Parse a slice array; rejected when the length is not a multiple of the
/// record size.
pub fn slices_from_bytes(bytes: &[u8]) -> (r: Result<Vec<(u32, u32)>, StorageError>)
    ensures
        r is Ok <==> bytes@.len() % 8 == 0,
        r matches Ok(ss) ==> spec_slices_bytes(ss@) == bytes@ && ss@.len() == bytes@.len() / 8,
{
    let len = bytes.len();
    if len % 8 != 0 {
        return Err(StorageError::InvalidLength);
    }
    let n = len / 8;
    let mut ss: Vec<(u32, u32)> = Vec::new();
    proof {
        assert(bytes@.take(0) =~= Seq::<u8>::empty());
    }
    for i in 0..n
        invariant
            n == bytes@.len() / 8,
            bytes@.len() % 8 == 0,
            len == bytes@.len(),
            8 * n <= len,
            ss@.len() == i,
            spec_slices_bytes(ss@) == bytes@.take(8 * i),
    {
        let ghost pre = ss@;
        let entry = read_slice(bytes, 8 * i);
        ss.push(entry);
        proof {
            assert(ss@.drop_last() =~= pre);
            assert(ss@.last() == entry);
            assert(spec_slices_bytes(ss@) == spec_slices_bytes(pre) + spec_slice_bytes(entry));
            assert(bytes@.take(8 * i + 8) =~= bytes@.take(8 * i) + bytes@.subrange(
                8 * i,
                8 * i + 8,
            ));
            assert(spec_slices_bytes(ss@) == bytes@.take(8 * (i + 1)));
        }
    }
    proof {
        assert(bytes@.take(8 * (n as int)) =~= bytes@);
    }
    Ok(ss)
}


/// The points of one slice, copied out of the flat array.
fn collect_range(points: &Vec<Point>, start: usize, count: usize) -> (r: Vec<Point>)
    requires
        start + count <= points@.len(),
    ensures
        r@ == points@.subrange(start as int, start + count),
{
    let mut r: Vec<Point> = Vec::new();
    let points_len = points.len();
    for t in 0..count
        invariant
            start + count <= points_len,
            points_len == points@.len(),
            r@ == points@.subrange(start as int, start + t),
    {
        r.push(points[start + t]);
        proof {
            assert(points@.subrange(start as int, start + t + 1) =~= points@.subrange(
                start as int,
                start + t,
            ).push(points@[start + t]));
        }
    }
    r
}

impl SpatialIndex {
    /// The byte images of the three arrays: boxes, points, slices.
    pub fn to_bytes(&self) -> (r: (Vec<u8>, Vec<u8>, Vec<u8>))
        ensures
            r.0@ == spec_boxes_bytes(self.spec_boxes()),
            r.1@ == spec_points_bytes(self.spec_points()),
            r.2@ == spec_slices_bytes(self.spec_slices()),
    {
        proof {
            self.reveal_parts();
        }
        (boxes_to_bytes(&self.boxes), points_to_bytes(&self.points), slices_to_bytes(&self.slices))
    }

    /// Rebuild an index from its three byte images, validating the shape and
    /// the index invariant. Loading always succeeds on the byte images of a
    /// well-formed index, and what it returns encodes back to the very same
    /// bytes.
    pub fn from_bytes(
        boxes_bytes: &[u8],
        points_bytes: &[u8],
        slices_bytes: &[u8],
    ) -> (r: Result<SpatialIndex, StorageError>)
        ensures
            r matches Ok(idx) ==> idx.wf() && spec_boxes_bytes(idx.spec_boxes()) == boxes_bytes@
                && spec_points_bytes(idx.spec_points()) == points_bytes@ && spec_slices_bytes(
                idx.spec_slices(),
            ) == slices_bytes@,
            forall|other: SpatialIndex|
                (#[trigger] other.wf() && spec_boxes_bytes(other.spec_boxes()) == boxes_bytes@
                    && spec_points_bytes(other.spec_points()) == points_bytes@
                    && spec_slices_bytes(other.spec_slices()) == slices_bytes@) ==> r is Ok,
    {
        let boxes = match boxes_from_bytes(boxes_bytes) {
            Ok(v) => v,
            Err(e) => {
                proof {
                    assert forall|other: SpatialIndex| !(#[trigger] other.wf() && spec_boxes_bytes(
                        other.spec_boxes(),
                    ) == boxes_bytes@ && spec_points_bytes(other.spec_points()) == points_bytes@
                        && spec_slices_bytes(other.spec_slices()) == slices_bytes@) by {
                        lemma_boxes_bytes_len(other.spec_boxes());
                    }
                }
                return Err(e);
            },
        };
        let points = match points_from_bytes(points_bytes) {
            Ok(v) => v,
            Err(e) => {
                proof {
                    assert forall|other: SpatialIndex| !(#[trigger] other.wf() && spec_boxes_bytes(
                        other.spec_boxes(),
                    ) == boxes_bytes@ && spec_points_bytes(other.spec_points()) == points_bytes@
                        && spec_slices_bytes(other.spec_slices()) == slices_bytes@) by {
                        lemma_points_bytes_len(other.spec_points());
                    }
                }
                return Err(e);
            },
        };
        let slices = match slices_from_bytes(slices_bytes) {
            Ok(v) => v,
            Err(e) => {
                proof {
                    assert forall|other: SpatialIndex| !(#[trigger] other.wf() && spec_boxes_bytes(
                        other.spec_boxes(),
                    ) == boxes_bytes@ && spec_points_bytes(other.spec_points()) == points_bytes@
                        && spec_slices_bytes(other.spec_slices()) == slices_bytes@) by {
                        lemma_slices_bytes_len(other.spec_slices());
                    }
                }
                return Err(e);
            },
        };
        proof {
            assert forall|other: SpatialIndex|
                #[trigger] other.wf() && spec_boxes_bytes(other.spec_boxes()) == boxes_bytes@
                    && spec_points_bytes(other.spec_points()) == points_bytes@
                    && spec_slices_bytes(other.spec_slices()) == slices_bytes@ implies (
            other.spec_boxes() == boxes@ && other.spec_points() == points@ && other.spec_slices()
                == slices@) by {
                lemma_boxes_bytes_injective(other.spec_boxes(), boxes@);
                lemma_points_bytes_injective(other.spec_points(), points@);
                lemma_slices_bytes_injective(other.spec_slices(), slices@);
            }
        }
        if boxes.len() != slices.len() {
            return Err(StorageError::InvalidLength);
        }
        let slot_count = slices.len();
        let points_len = points.len();
        let mut j: usize = 0;
        while j < slot_count
            invariant
                slot_count == slices@.len(),
                slot_count == boxes@.len(),
                points_len == points@.len(),
                spec_boxes_bytes(boxes@) == boxes_bytes@,
                spec_points_bytes(points@) == points_bytes@,
                spec_slices_bytes(slices@) == slices_bytes@,
                forall|t: int|
                    0 <= t < j ==> (#[trigger] slices@[t]).0 + slices@[t].1 <= points@.len(),
                forall|t: int|
                    0 <= t < j ==> #[trigger] boxes@[t] == spec_union_box(
                        points@.subrange(slices@[t].0 as int, slices@[t].0 + slices@[t].1),
                    ),
            decreases slot_count - j,
        {
            let (offset, count) = slices[j];
            let offset = offset as usize;
            let count = count as usize;
            if offset > points_len || count > points_len - offset {
                proof {
                    assert forall|other: SpatialIndex|
                        (#[trigger] other.wf() && spec_boxes_bytes(other.spec_boxes())
                            == boxes_bytes@ && spec_points_bytes(other.spec_points())
                            == points_bytes@ && spec_slices_bytes(other.spec_slices())
                            == slices_bytes@) implies false by {
                        lemma_boxes_bytes_injective(other.spec_boxes(), boxes@);
                        lemma_points_bytes_injective(other.spec_points(), points@);
                        lemma_slices_bytes_injective(other.spec_slices(), slices@);
                        assert((other.spec_slices()[j as int]).0 + other.spec_slices()[j as int].1
                            <= other.spec_points().len());
                    }
                }
                return Err(StorageError::Inconsistent);
            }
            let expected = union_box(&collect_range(&points, offset, count));
            if !(boxes[j] == expected) {
                proof {
                    assert forall|other: SpatialIndex|
                        (#[trigger] other.wf() && spec_boxes_bytes(other.spec_boxes())
                            == boxes_bytes@ && spec_points_bytes(other.spec_points())
                            == points_bytes@ && spec_slices_bytes(other.spec_slices())
                            == slices_bytes@) implies false by {
                        lemma_boxes_bytes_injective(other.spec_boxes(), boxes@);
                        lemma_points_bytes_injective(other.spec_points(), points@);
                        lemma_slices_bytes_injective(other.spec_slices(), slices@);
                        assert(other.spec_boxes()[j as int] == spec_union_box(
                            other.spec_points_of(j as int),
                        ));
                        assert(other.spec_points_of(j as int) == points@.subrange(
                            offset as int,
                            offset + count,
                        ));
                    }
                }
                return Err(StorageError::Inconsistent);
            }
            j = j + 1;
        }
        let idx = SpatialIndex { boxes, points, slices };
        proof {
            idx.reveal_parts();
            assert forall|t: int| 0 <= t < idx.spec_slot_count() implies #[trigger] idx.spec_boxes()[t]
                == spec_union_box(idx.spec_points_of(t)) by {
                assert(idx.spec_points_of(t) == idx.spec_points().subrange(
                    idx.spec_slices()[t].0 as int,
                    idx.spec_slices()[t].0 + idx.spec_slices()[t].1,
                ));
            }
            assert(idx.wf());
        }
        Ok(idx)
    }
}

} // verus!
