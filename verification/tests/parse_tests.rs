use bagextract::parse_num;
use bagextract::parse_vbo::{self, Geopunt};
use bagextract::postcode::SmallestPostcode;

#[test]
fn parse_polygon() {
    let input = r#"
                233392.425  581908.265   0.0
                233385.577  581905.776   0.0
                233390.499  581895.538   0.0
                233389.485  581895.102   0.0
                233391.734  581889.74    0.0
                233392.519  581888.052   0.0
                233400.163  581891.489   0.0
                233400.211  581891.511   0.0
                233399.906  581892.19    0.0
                233399.85   581892.168   0.0
                233396.991  581898.366   0.0
                233392.425  581908.265   0.0
    "#;

    let object = parse_vbo::poslist_from_str(input).unwrap();

    // The truncated mean of the twelve coordinate pairs, in thousandths.
    let xs: [i64; 12] = [
        233392425, 233385577, 233390499, 233389485, 233391734, 233392519, 233400163, 233400211,
        233399906, 233399850, 233396991, 233392425,
    ];
    let ys: [i64; 12] = [
        581908265, 581905776, 581895538, 581895102, 581889740, 581888052, 581891489, 581891511,
        581892190, 581892168, 581898366, 581908265,
    ];
    let x: i64 = xs.iter().sum::<i64>() / 12;
    let y: i64 = ys.iter().sum::<i64>() / 12;
    assert_eq!(Geopunt { x, y }, object);
}

#[test]
fn geopunt() {
    let input = r#"5.0 3.0 0.0"#;

    let object = parse_vbo::geopunt_from_str(input).unwrap();

    assert_eq!(Geopunt { x: 5000, y: 3000 }, object);
}

#[test]
fn fixed_point_numbers() {
    assert_eq!(Some(252908632), parse_vbo::parse_fixed("252908.632"));
    assert_eq!(Some(5000), parse_vbo::parse_fixed("5.0"));
    assert_eq!(Some(5120), parse_vbo::parse_fixed("5.12"));
    // Fraction places beyond the third are cut off.
    assert_eq!(Some(5123), parse_vbo::parse_fixed("5.123999"));
    assert_eq!(Some(-1500), parse_vbo::parse_fixed("-1.5"));
    assert_eq!(Some(7000), parse_vbo::parse_fixed("7"));
    assert_eq!(None, parse_vbo::parse_fixed(""));
    assert_eq!(None, parse_vbo::parse_fixed("-"));
    assert_eq!(None, parse_vbo::parse_fixed("."));
    assert_eq!(None, parse_vbo::parse_fixed("5."));
    assert_eq!(None, parse_vbo::parse_fixed(".5"));
    assert_eq!(None, parse_vbo::parse_fixed("5.0.1"));
    assert_eq!(None, parse_vbo::parse_fixed("5a"));
}

#[test]
fn identifier_numbers() {
    assert_eq!(Some(0), parse_num::parse_u64("0"));
    assert_eq!(Some(363000000012345), parse_num::parse_u64("0363000000012345"));
    assert_eq!(Some(u64::MAX), parse_num::parse_u64("18446744073709551615"));
    assert_eq!(None, parse_num::parse_u64("18446744073709551616"));
    assert_eq!(None, parse_num::parse_u64(""));
    assert_eq!(None, parse_num::parse_u64("12x"));
    assert_eq!(None, parse_num::parse_u64("-5"));
}

#[test]
fn parse_nummeraanduiding_documents() {
    let input = r#"<?xml version="1.0"?>
<root>
  <Objecten:Nummeraanduiding>
    <Objecten:identificatie>363200000012345</Objecten:identificatie>
    <Objecten:postcode>1234AB</Objecten:postcode>
  </Objecten:Nummeraanduiding>
  <Objecten:Nummeraanduiding>
    <Objecten:identificatie>42</Objecten:identificatie>
  </Objecten:Nummeraanduiding>
</root>"#;

    let result = parse_num::parse_manual_str(input).unwrap();

    // The record without a postal code is dropped.
    assert_eq!(vec![363200000012345u64], result.identificatie);
    assert_eq!(1, result.postcodes.len());
    assert_eq!(
        SmallestPostcode::parse("1234AB").unwrap().as_u32(),
        result.postcodes[0].as_u32()
    );
}

#[test]
fn nummeraanduiding_without_identifier_rejected() {
    let input = r#"<root>
  <Objecten:Nummeraanduiding>
    <Objecten:postcode>1234AB</Objecten:postcode>
  </Objecten:Nummeraanduiding>
</root>"#;

    assert!(parse_num::parse_manual_str(input).is_none());
}

#[test]
fn nummeraanduiding_bad_postcode_dropped() {
    let input = r#"<root>
  <Objecten:Nummeraanduiding>
    <Objecten:identificatie>7</Objecten:identificatie>
    <Objecten:postcode>12345</Objecten:postcode>
  </Objecten:Nummeraanduiding>
</root>"#;

    let result = parse_num::parse_manual_str(input).unwrap();
    assert!(result.identificatie.is_empty());
    assert!(result.postcodes.is_empty());
}

#[test]
fn parse_verblijfsobject_documents() {
    let input = r#"<?xml version="1.0"?>
<root>
  <Objecten:Verblijfsobject>
    <Objecten:heeftAlsHoofdadres>
      <Objecten:identificatie>363200000012345</Objecten:identificatie>
    </Objecten:heeftAlsHoofdadres>
    <gml:pos>252908.632 593657.117 0.0</gml:pos>
  </Objecten:Verblijfsobject>
  <Objecten:Verblijfsobject>
    <Objecten:heeftAlsHoofdadres>
      <Objecten:identificatie>99</Objecten:identificatie>
    </Objecten:heeftAlsHoofdadres>
    <gml:posList>
      1.0 2.0 0.0
      3.0 4.0 0.0
    </gml:posList>
  </Objecten:Verblijfsobject>
</root>"#;

    let result = parse_vbo::parse_manual_str(input).unwrap();

    assert_eq!(vec![363200000012345u64, 99], result.postcode_id);
    assert_eq!(2, result.points.len());
    assert_eq!((252908632, 593657117), (result.points[0].x, result.points[0].y));
    // The polygon record carries the centroid of its two corners.
    assert_eq!((2000, 3000), (result.points[1].x, result.points[1].y));
}

#[test]
fn verblijfsobject_without_point_rejected() {
    let input = r#"<root>
  <Objecten:Verblijfsobject>
    <Objecten:heeftAlsHoofdadres>
      <Objecten:identificatie>7</Objecten:identificatie>
    </Objecten:heeftAlsHoofdadres>
  </Objecten:Verblijfsobject>
</root>"#;

    assert!(parse_vbo::parse_manual_str(input).is_none());
}

#[test]
fn empty_document_yields_no_records() {
    let result = parse_num::parse_manual_str("").unwrap();
    assert!(result.identificatie.is_empty());

    let result = parse_vbo::parse_manual_str("<a></a>").unwrap();
    assert!(result.postcode_id.is_empty());
}
