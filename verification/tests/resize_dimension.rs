use seam_carver::ResizeDimension;

#[test]
fn test_rd_with_height() {
    let rd = ResizeDimension::from_str("20x22").unwrap();
    assert_eq!(rd, ResizeDimension::WidthHeight(20, 22));
}

#[test]
fn test_rd_with() {
    let rd = ResizeDimension::from_str("20x").unwrap();
    assert_eq!(rd, ResizeDimension::Width(20));
}

#[test]
fn test_rd_height() {
    let rd = ResizeDimension::from_str("x100").unwrap();
    assert_eq!(rd, ResizeDimension::Height(100));
}

#[test]
fn test_rd_invalid() {
    let r = ResizeDimension::from_str("Foo").unwrap_err();
    assert_eq!(r.message(), "invalid dimensions");
}

#[test]
fn test_rd_empty() {
    assert!(ResizeDimension::from_str("").is_err());
}

#[test]
fn test_rd_lone_separator() {
    assert!(ResizeDimension::from_str("x").is_err());
}

#[test]
fn test_rd_two_separators() {
    assert!(ResizeDimension::from_str("12x34x5").is_err());
}

#[test]
fn test_rd_trailing_junk() {
    assert!(ResizeDimension::from_str("20x22abc").is_err());
}

#[test]
fn test_rd_leading_junk() {
    assert!(ResizeDimension::from_str("abc20x").is_err());
}

#[test]
fn test_rd_inner_space() {
    assert!(ResizeDimension::from_str("20 x22").is_err());
}

#[test]
fn test_rd_width_overflow() {
    let r = ResizeDimension::from_str("4294967296x").unwrap_err();
    assert_eq!(r.message(), "invalid dimensions");
}

#[test]
fn test_rd_height_overflow() {
    assert!(ResizeDimension::from_str("1x99999999999999999999").is_err());
}

#[test]
fn test_rd_width_at_limit() {
    let rd = ResizeDimension::from_str("4294967295x").unwrap();
    assert_eq!(rd, ResizeDimension::Width(u32::MAX));
}

#[test]
fn test_rd_zero_values() {
    let rd = ResizeDimension::from_str("0x5").unwrap();
    assert_eq!(rd, ResizeDimension::WidthHeight(0, 5));
}

#[test]
fn test_rd_leading_zeros() {
    let rd = ResizeDimension::from_str("x007").unwrap();
    assert_eq!(rd, ResizeDimension::Height(7));
}
