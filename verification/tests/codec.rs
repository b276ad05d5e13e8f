use xrandr_utils::hex::{hex_encode, hex_pair_to_byte, hex_to_bytes, HexError};

#[test]
fn decode_plain_pairs() {
    assert_eq!(hex_to_bytes(b"00ff12"), Ok(vec![0x00, 0xff, 0x12]));
}

#[test]
fn decode_tolerates_embedded_whitespace() {
    assert_eq!(hex_to_bytes(b" 0 0f\tf1 2\n"), Ok(vec![0x00, 0xff, 0x12]));
}

#[test]
fn decode_accepts_mixed_case() {
    assert_eq!(hex_to_bytes(b"aBcD"), Ok(vec![0xab, 0xcd]));
}

#[test]
fn decode_empty_is_empty() {
    assert_eq!(hex_to_bytes(b""), Ok(vec![]));
    assert_eq!(hex_to_bytes(b" \t\n"), Ok(vec![]));
}

#[test]
fn decode_rejects_odd_length() {
    assert_eq!(hex_to_bytes(b"abc"), Err(HexError::OddLength));
    assert_eq!(hex_to_bytes(b"a b c"), Err(HexError::OddLength));
}

#[test]
fn decode_rejects_first_invalid_pair() {
    assert_eq!(hex_to_bytes(b"0g"), Err(HexError::InvalidPair(b'0', b'g')));
    assert_eq!(
        hex_to_bytes(b"00zz0q"),
        Err(HexError::InvalidPair(b'z', b'z'))
    );
}

#[test]
fn decode_never_truncates_on_failure() {
    // a valid prefix does not leak out when a later pair is bad
    assert!(matches!(
        hex_to_bytes(b"00ffg0"),
        Err(HexError::InvalidPair(_, _))
    ));
}

#[test]
fn encode_is_lowercase_two_digits_per_byte() {
    assert_eq!(hex_encode(&[0x00, 0xff, 0x12]), b"00ff12".to_vec());
    assert_eq!(hex_encode(&[]), Vec::<u8>::new());
}

#[test]
fn round_trip_inverts_encoding() {
    let cases: Vec<Vec<u8>> = vec![
        vec![],
        vec![0x00],
        vec![0xff],
        vec![0x00, 0x11, 0x22, 0x33, 0xab, 0xcd, 0xef],
        (0u8..=255).collect(),
    ];
    for bytes in cases {
        let encoded = hex_encode(&bytes);
        assert_eq!(hex_to_bytes(&encoded), Ok(bytes));
    }
}

#[test]
fn pair_to_byte_combines_nibbles() {
    assert_eq!(hex_pair_to_byte(b'a', b'B'), Some(0xab));
    assert_eq!(hex_pair_to_byte(b'0', b'0'), Some(0x00));
    assert_eq!(hex_pair_to_byte(b'f', b'g'), None);
    assert_eq!(hex_pair_to_byte(b' ', b'0'), None);
}
