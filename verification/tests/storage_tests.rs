use bagextract::bounding_box::{BoundingBox, Point};
use bagextract::points::SpatialIndex;
use bagextract::storage::{
    boxes_from_bytes, boxes_to_bytes, points_from_bytes, points_to_bytes, slices_from_bytes,
    slices_to_bytes, StorageError,
};

#[test]
fn point_record_layout() {
    let bytes = points_to_bytes(&vec![Point::new(1, -1)]);

    assert_eq!(
        vec![1u8, 0, 0, 0, 0xff, 0xff, 0xff, 0xff],
        bytes
    );
}

#[test]
fn box_record_layout() {
    let b = BoundingBox {
        x_min: 2,
        y_min: 0x0102_0304,
        x_max: -2,
        y_max: 0,
    };
    let bytes = boxes_to_bytes(&vec![b]);

    assert_eq!(
        vec![
            2u8, 0, 0, 0, 4, 3, 2, 1, 0xfe, 0xff, 0xff, 0xff, 0, 0, 0, 0
        ],
        bytes
    );
}

#[test]
fn slice_record_layout() {
    let bytes = slices_to_bytes(&vec![(0x0102_0304u32, 7u32)]);

    assert_eq!(vec![4u8, 3, 2, 1, 7, 0, 0, 0], bytes);
}

#[test]
fn point_array_roundtrip() {
    let points = vec![
        Point::new(0, 0),
        Point::new(i32::MAX, i32::MIN),
        Point::new(-123_456, 987_654),
    ];
    let bytes = points_to_bytes(&points);
    assert_eq!(points, points_from_bytes(&bytes).unwrap());
}

#[test]
fn box_array_roundtrip() {
    let boxes = vec![
        BoundingBox::infinite(),
        BoundingBox {
            x_min: -1,
            y_min: -2,
            x_max: 3,
            y_max: 4,
        },
    ];
    let bytes = boxes_to_bytes(&boxes);
    assert_eq!(boxes, boxes_from_bytes(&bytes).unwrap());
}

#[test]
fn slice_array_roundtrip() {
    let slices = vec![(0u32, 2u32), (2, 0), (2, 1)];
    let bytes = slices_to_bytes(&slices);
    assert_eq!(slices, slices_from_bytes(&bytes).unwrap());
}

#[test]
fn ragged_lengths_rejected() {
    assert_eq!(
        Err(StorageError::InvalidLength),
        points_from_bytes(&[0u8; 7]).map(|_| ())
    );
    assert_eq!(
        Err(StorageError::InvalidLength),
        boxes_from_bytes(&[0u8; 17]).map(|_| ())
    );
    assert_eq!(
        Err(StorageError::InvalidLength),
        slices_from_bytes(&[0u8; 9]).map(|_| ())
    );
}

#[test]
fn index_survives_storage() {
    // Three slots: an empty one, one with two points, one with one point.
    let p1 = Point::new(5_000_000, 52_000_000);
    let p2 = Point::new(5_001_000, 52_000_000);
    let p3 = Point::new(6_000_000, 53_000_000);
    let mut two = BoundingBox::infinite();
    two.extend_with(p1);
    two.extend_with(p2);

    let boxes_bytes = boxes_to_bytes(&vec![
        BoundingBox::infinite(),
        two,
        BoundingBox::from_point(p3),
    ]);
    let points_bytes = points_to_bytes(&vec![p1, p2, p3]);
    let slices_bytes = slices_to_bytes(&vec![(0u32, 0u32), (0, 2), (2, 1)]);

    let loaded = SpatialIndex::from_bytes(&boxes_bytes, &points_bytes, &slices_bytes).unwrap();

    assert_eq!(3, loaded.slot_count());
    assert_eq!(vec![p1, p2], loaded.points_of(1));
    assert_eq!(vec![p3], loaded.points_of(2));
    assert!(loaded.box_of(0).is_infinite());

    // Storing the loaded index gives back the very same bytes.
    let (b2, p2bytes, s2) = loaded.to_bytes();
    assert_eq!(boxes_bytes, b2);
    assert_eq!(points_bytes, p2bytes);
    assert_eq!(slices_bytes, s2);

    // The loaded index answers queries: slot 1 holds the nearby points.
    let hits = loaded.query(&[p1], 200);
    assert_eq!(1, hits.len());
    assert_eq!(1, hits[0].as_index());
}

#[test]
fn mismatched_slot_counts_rejected() {
    // One box, two slice entries.
    let boxes_bytes = boxes_to_bytes(&vec![BoundingBox::infinite()]);
    let slices_bytes = slices_to_bytes(&vec![(0u32, 0u32), (0, 0)]);

    assert_eq!(
        Err(StorageError::InvalidLength),
        SpatialIndex::from_bytes(&boxes_bytes, &[], &slices_bytes).map(|_| ())
    );
}

#[test]
fn out_of_range_slice_rejected() {
    let boxes_bytes = boxes_to_bytes(&vec![BoundingBox::infinite()]);
    let slices_bytes = slices_to_bytes(&vec![(0u32, 1u32)]);

    assert_eq!(
        Err(StorageError::Inconsistent),
        SpatialIndex::from_bytes(&boxes_bytes, &[], &slices_bytes).map(|_| ())
    );
}

#[test]
fn stale_box_rejected() {
    // The slot stores one point but claims the sentinel box.
    let boxes_bytes = boxes_to_bytes(&vec![BoundingBox::infinite()]);
    let points_bytes = points_to_bytes(&vec![Point::new(1, 2)]);
    let slices_bytes = slices_to_bytes(&vec![(0u32, 1u32)]);

    assert_eq!(
        Err(StorageError::Inconsistent),
        SpatialIndex::from_bytes(&boxes_bytes, &points_bytes, &slices_bytes).map(|_| ())
    );
}
