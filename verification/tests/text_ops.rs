use agent_harness::text::{collapse_whitespace, hex08_of, parse_u32, split_whitespace, trim, u64_to_decimal};

#[test]
fn white_space_handling() {
    assert_eq!(collapse_whitespace("\t a  b\n c "), "a b c");
    assert_eq!(collapse_whitespace("   "), "");
    assert_eq!(split_whitespace(" /mode  plan "), vec!["/mode".to_string(), "plan".to_string()]);
    assert_eq!(trim("\u{3000} x \n"), "x");
}

#[test]
fn numbers_as_text() {
    assert_eq!(hex08_of(255), "000000ff");
    assert_eq!(hex08_of(0x1_0000_0000), "100000000");
    assert_eq!(u64_to_decimal(1200), "1200");
    assert_eq!(parse_u32("+30"), Some(30));
    assert_eq!(parse_u32("4294967296"), None);
    assert_eq!(parse_u32(""), None);
}
