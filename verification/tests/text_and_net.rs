use ban2bgp::net::{withdraw_covers_v4, withdraw_covers_v6, IpAddress, NetPrefix};
use ban2bgp::text::{chars_of, decimal, parse_i64, parse_u32, split, trim};

fn s(v: &[char]) -> String {
    v.iter().collect()
}

#[test]
fn parse_u32_accepts_digits_and_plus() {
    assert_eq!(parse_u32("123"), Some(123));
    assert_eq!(parse_u32("+7"), Some(7));
    assert_eq!(parse_u32("0"), Some(0));
    assert_eq!(parse_u32("4294967295"), Some(u32::MAX));
}

#[test]
fn parse_u32_refuses_what_std_refuses() {
    assert_eq!(parse_u32(""), None);
    assert_eq!(parse_u32("+"), None);
    assert_eq!(parse_u32("-1"), None);
    assert_eq!(parse_u32("12a"), None);
    assert_eq!(parse_u32(" 1"), None);
    assert_eq!(parse_u32("4294967296"), None);
    for t in ["", "+", "-1", "12a", " 1", "4294967296", "99999999999999999999"] {
        assert_eq!(parse_u32(t), t.parse::<u32>().ok());
    }
}

#[test]
fn parse_i64_matches_std() {
    assert_eq!(parse_i64("-9223372036854775808"), Some(i64::MIN));
    assert_eq!(parse_i64("9223372036854775807"), Some(i64::MAX));
    assert_eq!(parse_i64("9223372036854775808"), None);
    assert_eq!(parse_i64("-5"), Some(-5));
    assert_eq!(parse_i64("+5"), Some(5));
    assert_eq!(parse_i64("--1"), None);
    assert_eq!(parse_i64("-"), None);
    for t in ["3600", "-0", "+0", "x", "-9223372036854775809", "18446744073709551616"] {
        assert_eq!(parse_i64(t), t.parse::<i64>().ok());
    }
}

#[test]
fn trim_drops_surrounding_whitespace() {
    assert_eq!(s(&trim(&chars_of("  src 10.0.0.0/8 \t"))), "src 10.0.0.0/8");
    assert_eq!(s(&trim(&chars_of("\u{a0}x\u{3000}"))), "x");
    assert_eq!(s(&trim(&chars_of("   "))), "");
    assert_eq!(s(&trim(&chars_of(" a b "))), " a b ".trim());
}

#[test]
fn split_keeps_empty_pieces() {
    let pieces = split(&chars_of("a,,b c"), &vec![',', ' ', '\t']);
    let got: Vec<String> = pieces.iter().map(|p| s(p)).collect();
    assert_eq!(got, vec!["a", "", "b", "c"]);
    let std: Vec<&str> = "a,,b c".split(&[',', ' ', '\t'][..]).collect();
    assert_eq!(got, std);
    let one = split(&chars_of(""), &vec![',']);
    assert_eq!(one.len(), 1);
}

#[test]
fn decimal_renders_numbers() {
    assert_eq!(s(&decimal(0)), "0");
    assert_eq!(s(&decimal(7)), "7");
    assert_eq!(s(&decimal(1234567890)), "1234567890");
    assert_eq!(s(&decimal(u64::MAX)), u64::MAX.to_string());
}

#[test]
fn parse_nets_of_each_family() {
    assert_eq!(NetPrefix::parse("10.0.0.0/8"), Some(NetPrefix::V4(0x0a00_0000, 8)));
    assert_eq!(NetPrefix::parse("10.0.0.1"), Some(NetPrefix::V4(0x0a00_0001, 32)));
    assert_eq!(
        NetPrefix::parse("2001:db8::/32"),
        Some(NetPrefix::V6(0x2001_0db8_0000_0000_0000_0000_0000_0000, 32))
    );
    assert_eq!(NetPrefix::parse("::1"), Some(NetPrefix::V6(1, 128)));
    // a length that is no u8 falls back to the full length
    assert_eq!(NetPrefix::parse("10.0.0.0/x"), Some(NetPrefix::V4(0x0a00_0000, 32)));
    // any string with a hex digit reads as a MAC prefix
    assert_eq!(NetPrefix::parse("bad"), Some(NetPrefix::Mac(0xbad, 48)));
    assert_eq!(NetPrefix::parse("zzz"), None);
}

#[test]
fn prefixes_as_text() {
    assert_eq!(NetPrefix::V4(0x0a00_0000, 8).to_string(), "10.0.0.0/8");
    assert_eq!(NetPrefix::V6(0x2001_0db8 << 96, 32).to_string(), "2001:db8::/32");
    assert_eq!(NetPrefix::V6(1, 128).to_string(), "::1/128");
}

#[test]
fn net_containment() {
    let n8 = NetPrefix::V4(0x0a00_0000, 8);
    assert!(n8.contains(&NetPrefix::V4(0x0a01_0000, 16)));
    assert!(n8.contains(&NetPrefix::V4(0x0aff_ffff, 32)));
    assert!(!n8.contains(&NetPrefix::V4(0x0b00_0000, 16)));
    assert!(!n8.contains(&NetPrefix::V4(0x0000_0000, 4)));
    assert!(NetPrefix::V4(0, 0).contains(&NetPrefix::V4(0xc0a8_0101, 32)));
    assert!(!n8.contains(&NetPrefix::V6(0x0a00_0000, 8)));
    let v6 = NetPrefix::V6(0x2001_0db8 << 96, 32);
    assert!(v6.contains(&NetPrefix::V6((0x2001_0db8 << 96) | 1, 128)));
    assert!(!v6.contains(&NetPrefix::V6(0x2001_0db9 << 96, 48)));
    assert!(NetPrefix::Mac(0x1213_1415_0000, 32).contains(&NetPrefix::Mac(0x1213_1415_1600, 40)));
}

#[test]
fn withdraw_coverage_follows_the_crate() {
    // a /8 withdrawal covers host routes inside it
    assert!(withdraw_covers_v4((0x0a00_0000, 8), (0x0a01_0203, 32)));
    // but not a shorter prefix at the same address, which sorts before it
    assert!(!withdraw_covers_v4((0x0a00_0000, 24), (0x0a00_0000, 8)));
    assert!(!withdraw_covers_v4((0x0a00_0000, 8), (0x0b00_0000, 32)));
    assert!(withdraw_covers_v4((0x0a00_0001, 32), (0x0a00_0001, 32)));
    // IPv6: the last address of the block is not covered
    assert!(withdraw_covers_v6((0, 112), (5, 128)));
    assert!(!withdraw_covers_v6((0, 112), (0xffff, 128)));
}

#[test]
fn ip_addresses_compare_by_value() {
    assert_eq!(IpAddress::V4(1), IpAddress::V4(1));
    assert_ne!(IpAddress::V4(1), IpAddress::V6(1));
}
