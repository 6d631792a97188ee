use revm_bridge::codec::{format_address, format_hex, format_u256, parse_address, parse_u256, parse_value, zero_word, BridgeError};

fn vec_of(s: &str) -> Vec<u8> {
    s.as_bytes().to_vec()
}

#[test]
fn parse_address_accepts_prefixed_mixed_case() {
    let a = parse_address(b"0x742d35Cc6634C0532925a3b8D4C9db96c4b4d8b6").unwrap();
    assert_eq!(a.len(), 20);
    assert_eq!(a[0], 0x74);
    assert_eq!(a[1], 0x2d);
    assert_eq!(a[19], 0xb6);
}

#[test]
fn parse_address_accepts_bare_digits() {
    let a = parse_address(b"1234567890123456789012345678901234567890").unwrap();
    assert_eq!(a.len(), 20);
    assert_eq!(a[0], 0x12);
    assert_eq!(a[19], 0x90);
}

#[test]
fn parse_address_rejects_bad_inputs() {
    assert!(matches!(parse_address(b""), Err(BridgeError::MalformedInput)));
    assert!(matches!(parse_address(b"0x1234"), Err(BridgeError::MalformedInput)));
    // 39 digits
    assert!(matches!(
        parse_address(b"0x742d35Cc6634C0532925a3b8D4C9db96c4b4d8b"),
        Err(BridgeError::MalformedInput)
    ));
    // 41 digits
    assert!(matches!(
        parse_address(b"0x742d35Cc6634C0532925a3b8D4C9db96c4b4d8b6a"),
        Err(BridgeError::MalformedInput)
    ));
    // non-hex character
    assert!(matches!(
        parse_address(b"0x742d35Cc6634C0532925a3b8D4C9db96c4b4d8g6"),
        Err(BridgeError::MalformedInput)
    ));
}

#[test]
fn address_round_trip_is_canonical_lowercase() {
    let text = b"0x742d35Cc6634C0532925a3b8D4C9db96c4b4d8b6";
    let bytes = parse_address(text).unwrap();
    let formatted = format_address(&bytes);
    assert_eq!(formatted, vec_of("0x742d35cc6634c0532925a3b8d4c9db96c4b4d8b6"));
    // parsing the canonical form again gives the same bytes
    assert_eq!(parse_address(&formatted).unwrap(), bytes);
}

#[test]
fn format_hex_empty() {
    assert_eq!(format_hex(&[]), vec_of("0x"));
    assert_eq!(format_hex(&[0u8, 255u8]), vec_of("0x00ff"));
}

#[test]
fn parse_u256_decimal_exact_value() {
    let w = parse_u256(b"1000000000000000000", 10).unwrap();
    assert_eq!(w.len(), 32);
    // 10^18 = 0x0de0b6b3a7640000
    let mut expected = vec![0u8; 32];
    expected[24..32].copy_from_slice(&[0x0d, 0xe0, 0xb6, 0xb3, 0xa7, 0x64, 0x00, 0x00]);
    assert_eq!(w, expected);
}

#[test]
fn parse_u256_hex_exact_value() {
    let w = parse_u256(b"ff", 16).unwrap();
    let mut expected = vec![0u8; 32];
    expected[31] = 0xff;
    assert_eq!(w, expected);
}

#[test]
fn parse_u256_rejects_bad_inputs() {
    assert!(matches!(parse_u256(b"", 10), Err(BridgeError::MalformedInput)));
    assert!(matches!(parse_u256(b"12a4", 10), Err(BridgeError::MalformedInput)));
    assert!(matches!(parse_u256(b"zz", 16), Err(BridgeError::MalformedInput)));
}

#[test]
fn parse_u256_boundary_of_256_bits() {
    // 2^256 - 1 is accepted
    let max = b"115792089237316195423570985008687907853269984665640564039457584007913129639935";
    let w = parse_u256(max, 10).unwrap();
    assert_eq!(w, vec![0xffu8; 32]);
    // 2^256 overflows
    let over = b"115792089237316195423570985008687907853269984665640564039457584007913129639936";
    assert!(matches!(parse_u256(over, 10), Err(BridgeError::MalformedInput)));
}

#[test]
fn parse_value_switches_radix_on_prefix() {
    let dec = parse_value(b"255").unwrap();
    let hex = parse_value(b"0xff").unwrap();
    assert_eq!(dec, hex);
    assert!(matches!(parse_value(b"0x"), Err(BridgeError::MalformedInput)));
}

#[test]
fn format_u256_zero_and_round_trip() {
    assert_eq!(format_u256(&zero_word()), vec_of("0"));
    let w = parse_u256(b"90210", 10).unwrap();
    assert_eq!(format_u256(&w), vec_of("90210"));
}

#[test]
fn decimal_round_trip_strips_leading_zeros() {
    let w = parse_u256(b"000123", 10).unwrap();
    assert_eq!(format_u256(&w), vec_of("123"));
    let z = parse_u256(b"0000", 10).unwrap();
    assert_eq!(format_u256(&z), vec_of("0"));
}

#[test]
fn decimal_round_trip_large_value() {
    let text = b"115792089237316195423570985008687907853269984665640564039457584007913129639935";
    let w = parse_u256(text, 10).unwrap();
    assert_eq!(format_u256(&w), text.to_vec());
}
