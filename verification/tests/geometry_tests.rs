use bagextract::bounding_box::{BoundingBox, Point, UNITS_PER_METER};

#[test]
fn sentinel_extend_is_from_point() {
    let p = Point::new(5_000_000, 52_000_000);
    let mut bb = BoundingBox::infinite();
    bb.extend_with(p);

    assert_eq!(BoundingBox::from_point(p), bb);
}

#[test]
fn sentinel_detected() {
    assert!(BoundingBox::infinite().is_infinite());
    assert!(!BoundingBox::from_point(Point::new(0, 0)).is_infinite());
}

#[test]
fn extend_is_monotone() {
    let mut bb = BoundingBox::from_point(Point::new(10, 10));
    bb.extend_with(Point::new(-5, 20));

    assert_eq!(
        BoundingBox {
            x_min: -5,
            y_min: 10,
            x_max: 10,
            y_max: 20
        },
        bb
    );

    // The grown box still covers the old corner points.
    let old_corner = BoundingBox::from_point(Point::new(10, 10));
    assert!(bb.intersects_with(&old_corner));
}

#[test]
fn intersection_is_symmetric() {
    let a = BoundingBox {
        x_min: 0,
        y_min: 0,
        x_max: 10,
        y_max: 10,
    };
    let b = BoundingBox {
        x_min: 5,
        y_min: 5,
        x_max: 20,
        y_max: 20,
    };
    let c = BoundingBox {
        x_min: 11,
        y_min: 0,
        x_max: 12,
        y_max: 10,
    };

    assert_eq!(a.intersects_with(&b), b.intersects_with(&a));
    assert_eq!(a.intersects_with(&c), c.intersects_with(&a));
    assert!(a.intersects_with(&b));
    assert!(!a.intersects_with(&c));
}

#[test]
fn touching_edges_intersect() {
    let a = BoundingBox {
        x_min: 0,
        y_min: 0,
        x_max: 10,
        y_max: 10,
    };
    let b = BoundingBox {
        x_min: 10,
        y_min: 10,
        x_max: 20,
        y_max: 20,
    };

    assert!(a.intersects_with(&b));
    assert!(b.intersects_with(&a));
}

#[test]
fn around_point_uses_fixed_factor() {
    let p = Point::new(1000, -1000);
    let bb = BoundingBox::around_point(p, 10);
    let half_width = (10 * UNITS_PER_METER) as i32;

    assert_eq!(
        BoundingBox {
            x_min: 1000 - half_width,
            y_min: -1000 - half_width,
            x_max: 1000 + half_width,
            y_max: -1000 + half_width
        },
        bb
    );
}

#[test]
fn around_point_clamps_at_coordinate_range() {
    let p = Point::new(i32::MAX, i32::MIN);
    let bb = BoundingBox::around_point(p, 1);

    assert_eq!(i32::MAX, bb.x_max);
    assert_eq!(i32::MIN, bb.y_min);
    assert_eq!(i32::MAX - 9, bb.x_min);
    assert_eq!(i32::MIN + 9, bb.y_max);
}

#[test]
fn distance_squared_exact() {
    let p = Point::new(0, 0);
    let q = Point::new(3, 4);

    assert_eq!(25u128, p.distance_squared_to(&q));
}

#[test]
fn within_distance_at_threshold() {
    let p = Point::new(0, 0);
    // Ten meters are ninety coordinate units.
    assert!(p.within_distance_of(&Point::new(90, 0), 10));
    assert!(!p.within_distance_of(&Point::new(91, 0), 10));
    assert!(p.within_distance_of(&Point::new(-90, 0), 10));
    assert!(p.within_distance_of(&Point::new(0, 0), 0));
    assert!(!p.within_distance_of(&Point::new(1, 0), 0));
}
