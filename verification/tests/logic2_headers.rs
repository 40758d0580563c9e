use logic_decoder::source::logic2::{parse_common_header, parse_digital_header};

#[test]
fn test_incomplete_tag() {
    assert!(parse_common_header(b"<SAL").is_err());
}

#[test]
fn can_parse_header() {
    assert_eq!(
        Some((1u32, 2u32)),
        parse_common_header(b"<SALEAE>\x01\x00\x00\x00\x02\x00\x00\x00").ok()
    );
}

#[test]
fn can_parse_digital_header() {
    let raw = &[
        1, 0, 0, 0,
        0, 0, 0, 0, 0, 0, 55, 64,
        0, 0, 0, 0, 0, 128, 70, 64,
        67, 0, 0, 0, 0, 0, 0, 0,
    ];
    let header = parse_digital_header(raw).ok();
    assert_eq!(
        Some((1u32, 23f64, 45f64, 67u64)),
        header.map(|(s, b, e, n)| (s, f64::from_bits(b), f64::from_bits(e), n))
    );
}
