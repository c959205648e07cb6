use bagextract::bounding_box::{BoundingBox, Point};
use bagextract::parse_num::Postcodes;
use bagextract::parse_vbo::Verblijfsobjecten;
use bagextract::points::SpatialIndex;
use bagextract::postcode::SmallestPostcode;

fn degrees(d: f64) -> i32 {
    (d * 1_000_000.0).round() as i32
}

fn point_deg(x: f64, y: f64) -> Point {
    Point::new(degrees(x), degrees(y))
}

fn sample_records() -> (Postcodes, Verblijfsobjecten) {
    let mut postcodes = Postcodes::default();
    postcodes.push(1, SmallestPostcode::parse("1234AB").unwrap());
    postcodes.push(2, SmallestPostcode::parse("5678CD").unwrap());

    let mut objects = Verblijfsobjecten::default();
    objects.push(1, point_deg(5.0, 52.0));
    objects.push(1, point_deg(5.001, 52.0));
    objects.push(2, point_deg(6.0, 53.0));

    (postcodes, objects)
}

fn formatted(result: &[SmallestPostcode]) -> Vec<String> {
    result.iter().map(|pc| pc.format()).collect()
}

#[test]
fn scenario_two_codes_three_queries() {
    let (postcodes, objects) = sample_records();
    let index = SpatialIndex::build(&postcodes, &objects);

    let near_first = index.query(&[point_deg(5.0, 52.0)], 200);
    assert_eq!(vec!["1234AB".to_string()], formatted(&near_first));

    let near_second = index.query(&[point_deg(6.0, 53.0)], 1);
    assert_eq!(vec!["5678CD".to_string()], formatted(&near_second));

    let nowhere = index.query(&[point_deg(0.0, 0.0)], 1);
    assert!(nowhere.is_empty());
}

#[test]
fn csr_layout_after_build() {
    let (postcodes, objects) = sample_records();
    let index = SpatialIndex::build(&postcodes, &objects);

    let first = SmallestPostcode::parse("1234AB").unwrap().as_index();
    let second = SmallestPostcode::parse("5678CD").unwrap().as_index();

    assert_eq!(
        vec![point_deg(5.0, 52.0), point_deg(5.001, 52.0)],
        index.points_of(first)
    );
    assert_eq!(vec![point_deg(6.0, 53.0)], index.points_of(second));
    assert!(index.points_of(0).is_empty());
}

#[test]
fn boxes_match_union_of_points() {
    let (postcodes, objects) = sample_records();
    let index = SpatialIndex::build(&postcodes, &objects);

    let first = SmallestPostcode::parse("1234AB").unwrap().as_index();
    let expected = BoundingBox {
        x_min: degrees(5.0),
        y_min: degrees(52.0),
        x_max: degrees(5.001),
        y_max: degrees(52.0),
    };
    assert_eq!(expected, index.box_of(first));

    // A slot with no observations keeps the sentinel.
    assert!(index.box_of(0).is_infinite());
    assert_eq!(BoundingBox::infinite(), index.box_of(0));
}

#[test]
fn join_misses_are_dropped() {
    let mut postcodes = Postcodes::default();
    postcodes.push(7, SmallestPostcode::parse("1000AA").unwrap());

    let mut objects = Verblijfsobjecten::default();
    objects.push(7, Point::new(10, 10));
    objects.push(8, Point::new(20, 20));

    let index = SpatialIndex::build(&postcodes, &objects);
    let slot = SmallestPostcode::parse("1000AA").unwrap().as_index();

    assert_eq!(vec![Point::new(10, 10)], index.points_of(slot));
}

#[test]
fn later_duplicate_identifier_wins() {
    let mut postcodes = Postcodes::default();
    postcodes.push(7, SmallestPostcode::parse("1000AA").unwrap());
    postcodes.push(7, SmallestPostcode::parse("2000BB").unwrap());

    let mut objects = Verblijfsobjecten::default();
    objects.push(7, Point::new(10, 10));

    let index = SpatialIndex::build(&postcodes, &objects);

    let early = SmallestPostcode::parse("1000AA").unwrap().as_index();
    let late = SmallestPostcode::parse("2000BB").unwrap().as_index();
    assert!(index.points_of(early).is_empty());
    assert_eq!(vec![Point::new(10, 10)], index.points_of(late));
}

#[test]
fn query_matches_brute_force() {
    let (postcodes, objects) = sample_records();
    let index = SpatialIndex::build(&postcodes, &objects);

    let queries = [
        point_deg(5.0005, 52.0),
        point_deg(5.9999, 53.0001),
        point_deg(4.0, 50.0),
    ];
    let radius: u32 = 120;

    let result = formatted(&index.query(&queries, radius));

    // Brute force over the raw records, joined by hand.
    let codes = ["1234AB", "1234AB", "5678CD"];
    let mut expected: Vec<String> = Vec::new();
    for (code, point) in codes.iter().zip(objects.points.iter()) {
        for q in queries.iter() {
            let dx = (point.x as i64 - q.x as i64) as i128;
            let dy = (point.y as i64 - q.y as i64) as i128;
            let limit = (radius as i128) * 9;
            if dx * dx + dy * dy <= limit * limit && !expected.contains(&code.to_string()) {
                expected.push(code.to_string());
            }
        }
    }
    expected.sort();

    assert_eq!(expected, result);
}

#[test]
fn large_batch_agrees_with_small_batch() {
    let (postcodes, objects) = sample_records();
    let index = SpatialIndex::build(&postcodes, &objects);

    // A batch small enough for the sequential scan...
    let small = vec![point_deg(5.0, 52.0), point_deg(6.0, 53.0)];
    // ...and a large batch of the same two points, driving the parallel scan.
    let mut large = Vec::new();
    for i in 0..80 {
        large.push(small[i % 2]);
    }

    let sequential = index.query(&small, 200);
    let parallel = index.query(&large, 200);

    assert_eq!(sequential, parallel);
    assert_eq!(vec!["1234AB".to_string(), "5678CD".to_string()], formatted(&parallel));
}
