use owntier::bytes::{compare_bytes, parse_u16, push_decimal, Order};

#[test]
fn parse_u16_like_str_parse() {
    assert_eq!(parse_u16(b"8728"), Some(8728));
    assert_eq!(parse_u16(b"+80"), Some(80));
    assert_eq!(parse_u16(b"0080"), Some(80));
    assert_eq!(parse_u16(b"65535"), Some(65535));
    assert_eq!(parse_u16(b"65536"), None);
    assert_eq!(parse_u16(b""), None);
    assert_eq!(parse_u16(b"+"), None);
    assert_eq!(parse_u16(b"-1"), None);
    assert_eq!(parse_u16(b"12a"), None);
    assert_eq!(parse_u16(b" 1"), None);
    for s in ["8728", "+80", "0080", "65535", "65536", "", "+", "-1", "12a", "99999x"] {
        assert_eq!(parse_u16(s.as_bytes()), s.parse::<u16>().ok(), "{s:?}");
    }
}

#[test]
fn decimal_like_to_string() {
    for n in [0u32, 7, 10, 51820, 65535, 4_294_967_295] {
        let mut out = Vec::new();
        push_decimal(&mut out, n);
        assert_eq!(out, n.to_string().into_bytes());
    }
}

#[test]
fn byte_order_like_str_order() {
    assert_eq!(compare_bytes(b"abc", b"abd"), Order::Less);
    assert_eq!(compare_bytes(b"ab", b"abc"), Order::Less);
    assert_eq!(compare_bytes(b"b", b"abc"), Order::Greater);
    assert_eq!(compare_bytes(b"", b""), Order::Equal);
    assert_eq!(compare_bytes(b"x", b"x"), Order::Equal);
}
