use maya_classfile::mutf8::{decode, encode, MUTFError};

#[test]
fn basic() {
    const STR: &str = "hello world";
    let encoded = encode(STR);
    let decoded = decode(&encoded);
    assert!(decoded.is_ok());
    assert_eq!(STR, decoded.unwrap());
}

#[test]
fn two_byte() {
    const STR: &str = "Œ";
    let encoded = encode(STR);
    let decoded = decode(&encoded);
    assert!(decoded.is_ok());
    assert_eq!(STR, decoded.unwrap());
}

#[test]
fn three_byte() {
    const STR: &str = "•";
    let encoded = encode(STR);
    let decoded = decode(&encoded);
    assert!(decoded.is_ok());
    assert_eq!(STR, decoded.unwrap());
}

#[test]
fn six_byte() {
    const STR: &str = "〰";
    let encoded = encode(STR);
    let decoded = decode(&encoded);
    assert!(decoded.is_ok());
    assert_eq!(STR, decoded.unwrap());
}

#[test]
fn complex_string() {
    const STR: &str = "Hello World! Œ and 〰 and • plus more ascii!";
    let encoded = encode(STR);
    let decoded = decode(&encoded);
    assert!(decoded.is_ok());
    assert_eq!(STR, decoded.unwrap());
}

#[test]
fn decode_null_byte_in_input() {
    let input = b"\x00";
    let result = decode(input);
    assert!(matches!(result, Err(MUTFError::NullByteInInput)));
}

#[test]
fn decode_invalid_encoding() {
    let input = b"\x80";
    let result = decode(input);
    assert!(matches!(result, Err(MUTFError::InvalidEncoding)));
}

#[test]
fn decode_codepoint_bad_input_length() {
    let input = b"\xC2";
    let result = decode(input);
    assert!(matches!(result, Err(MUTFError::CodepointBadInputLength(2))));
}

#[test]
fn nul_encodes_as_two_bytes() {
    assert_eq!(encode("\u{0000}"), vec![0xC0, 0x80]);
    assert_eq!(decode(&[0xC0, 0x80]).unwrap(), "\u{0000}");
}

#[test]
fn encode_exact_bytes() {
    assert_eq!(encode("A"), vec![0x41]);
    assert_eq!(encode("Œ"), vec![0xC5, 0x92]);
    assert_eq!(encode("•"), vec![0xE2, 0x80, 0xA2]);
    assert_eq!(encode(""), Vec::<u8>::new());
}

#[test]
fn supplementary_character_takes_six_bytes() {
    // U+1F600: plane nibble 1, then bits 10..15, 6..9 and 0..5.
    let bytes = encode("\u{1F600}");
    assert_eq!(bytes, vec![0xED, 0xA1, 0xBD, 0xED, 0xB8, 0x80]);
    assert_eq!(decode(&bytes).unwrap(), "\u{1F600}");
}

#[test]
fn highest_plane_round_trips() {
    let s = "a\u{10FFFF}b\u{10000}";
    assert_eq!(decode(&encode(s)).unwrap(), s);
}

#[test]
fn truncated_three_byte_form() {
    assert_eq!(decode(&[0xE2, 0x80]), Err(MUTFError::CodepointBadInputLength(3)));
}

#[test]
fn structural_error_wins_over_invalid_output() {
    // The lone surrogate half is invalid output, but the raw nul comes first.
    assert_eq!(decode(&[0xED, 0xA0, 0x80, 0x00]), Err(MUTFError::NullByteInInput));
}

#[test]
fn lone_surrogate_is_invalid_output() {
    assert_eq!(decode(&[0xED, 0xA0, 0x80]), Err(MUTFError::InvalidUtf8Output));
}

#[test]
fn overlong_two_byte_form_is_invalid_output() {
    assert_eq!(decode(&[0xC1, 0x81]), Err(MUTFError::InvalidUtf8Output));
}

#[test]
fn decode_of_encode_is_identity() {
    for s in ["", "x", "\u{0}\u{0}", "héllo", "日本語", "\u{1F4A9}\u{1F600}z"] {
        assert_eq!(decode(&encode(s)).unwrap(), s);
    }
}

#[test]
fn raw_nul_inside_a_surrogate_pair_is_refused() {
    assert_eq!(
        decode(&[0xED, 0xA0, 0x00, 0xED, 0xB0, 0x00]),
        Err(MUTFError::NullByteInInput)
    );
}

#[test]
fn raw_nul_as_continuation_is_refused() {
    assert_eq!(decode(&[0xC2, 0x00]), Err(MUTFError::NullByteInInput));
    assert_eq!(decode(&[0xE2, 0x80, 0x00]), Err(MUTFError::NullByteInInput));
}
