use bagextract::postcode::{CompactPostcode, FormatError, SmallestPostcode};

fn to_and_fro(input: &str) -> String {
    let code = SmallestPostcode::parse(input).unwrap();

    let index = code.as_u32();
    let and_back = SmallestPostcode::from_u32(index);

    and_back.format()
}

#[test]
fn goenga() {
    let input = "8628ET";

    assert_eq!(input, &to_and_fro(input))
}

#[test]
fn highest() {
    let input = "9999ZZ";

    assert_eq!(input, &to_and_fro(input))
}

#[test]
fn lowest() {
    let input = "0000AA";

    assert_eq!(input, &to_and_fro(input));
    assert_eq!(0, SmallestPostcode::parse(input).unwrap().as_u32());
}

#[test]
fn leading_zeros_kept() {
    let input = "0012AB";

    assert_eq!(input, &to_and_fro(input));
}

#[test]
fn packing_formula() {
    // 1234AB: (1234 << 10) | (0 << 5) | 1
    let code = SmallestPostcode::new(1234, b'A', b'B');
    assert_eq!((1234u32 << 10) | 1, code.as_u32());
    assert_eq!("1234AB", &code.format());
}

#[test]
fn components_roundtrip() {
    let code = SmallestPostcode::new(8628, b'E', b'T');
    assert_eq!((8628, b'E', b'T'), code.components());
    assert_eq!(code.as_u32() as usize, code.as_index());
    assert_eq!(
        code.as_u32(),
        SmallestPostcode::from_index(code.as_index()).as_u32()
    );
}

#[test]
fn compact_roundtrip() {
    let compact = CompactPostcode::new(8628, b'E', b'T');
    let index = compact.as_u32();
    let back = CompactPostcode::from_u32(index);
    assert_eq!(compact, back);
    assert_eq!(index, SmallestPostcode::new(8628, b'E', b'T').as_u32());
}

#[test]
fn parse_rejects_wrong_length() {
    assert_eq!(Err(FormatError::InvalidLength), SmallestPostcode::parse(""));
    assert_eq!(
        Err(FormatError::InvalidLength),
        SmallestPostcode::parse("1234A")
    );
    assert_eq!(
        Err(FormatError::InvalidLength),
        SmallestPostcode::parse("1234ABC")
    );
}

#[test]
fn parse_rejects_bad_characters() {
    assert_eq!(
        Err(FormatError::InvalidDigits),
        SmallestPostcode::parse("12a4AB")
    );
    assert_eq!(
        Err(FormatError::InvalidDigits),
        SmallestPostcode::parse("1234ab")
    );
    assert_eq!(
        Err(FormatError::InvalidDigits),
        SmallestPostcode::parse("1234A1")
    );
    assert_eq!(
        Err(FormatError::InvalidDigits),
        SmallestPostcode::parse("123!AB")
    );
}

#[test]
fn from_u32_keeps_low_24_bits() {
    let code = SmallestPostcode::from_u32(0xff00_0001);
    assert_eq!(0x1, code.as_u32() & 0x3ff);
    assert_eq!(0x0000_0001, code.as_u32());
}

#[test]
fn compact_parse_and_format() {
    let compact = CompactPostcode::parse("0309JC").unwrap();
    assert_eq!("0309JC", &compact.format());
    assert_eq!(
        Err(FormatError::InvalidLength),
        CompactPostcode::parse("309JC")
    );
    assert_eq!(
        Err(FormatError::InvalidDigits),
        CompactPostcode::parse("O309JC")
    );
}

#[test]
fn numeric_ordering() {
    let a = SmallestPostcode::parse("1000AA").unwrap();
    let b = SmallestPostcode::parse("1000AB").unwrap();
    let c = SmallestPostcode::parse("9999ZZ").unwrap();

    assert!(a < b);
    assert!(b < c);
    assert!(a.partial_cmp(&a) == Some(std::cmp::Ordering::Equal));
}
