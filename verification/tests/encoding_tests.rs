use data_encoding::{DecodeError, DecodeKind, BASE64_MIME};
use mail_gateway::encoding::{absorb_base64_outcome, decode, EncodingType};
use mail_gateway::text::{decimal_string, text_of, text_or_empty};

#[test]
fn seven_bit_content_is_returned_as_it_is() {
    let wire = b"plain =3D text\r\n";
    let content = decode(EncodingType::SevenBit, wire);
    assert_eq!(content.bytes, wire);
    assert!(!content.decode_failure);
    assert!(!content.undecoded);
}

#[test]
fn other_encodings_pass_through() {
    let wire = b"caf=C3=A9";
    let content = decode(EncodingType::Other, wire);
    assert_eq!(content.bytes, wire);
    assert!(!content.decode_failure);
    assert!(content.undecoded);
}

#[test]
fn base64_content_is_decoded() {
    let content = decode(EncodingType::Base64, b"SGVsbG8s\r\nIHdvcmxkIQ==\r\n");
    assert_eq!(content.bytes, b"Hello, world!");
    assert!(!content.decode_failure);
    assert!(!content.undecoded);
}

#[test]
fn malformed_base64_gives_empty_content_and_a_failure() {
    let content = decode(EncodingType::Base64, b"SGVsbG8*");
    assert!(content.bytes.is_empty());
    assert!(content.decode_failure);
    assert!(!content.undecoded);
}

#[test]
fn empty_wire_decodes_to_empty_content() {
    for encoding in [EncodingType::SevenBit, EncodingType::Base64, EncodingType::Other] {
        let content = decode(encoding, b"");
        assert!(content.bytes.is_empty());
        assert!(!content.decode_failure);
        assert_eq!(content.undecoded, encoding == EncodingType::Other);
    }
}

#[test]
fn base64_round_trip_gives_the_payload_and_the_wire_back() {
    let payload: Vec<u8> = (0u8..=255).cycle().take(1000).collect();
    let wire = BASE64_MIME.encode(&payload);
    let content = decode(EncodingType::Base64, wire.as_bytes());
    assert_eq!(content.bytes, payload);
    assert!(!content.decode_failure);
    assert_eq!(BASE64_MIME.encode(&content.bytes), wire);
}

#[test]
fn base64_wire_without_line_break_is_not_what_encoding_writes() {
    let content = decode(EncodingType::Base64, b"QUJD");
    assert_eq!(content.bytes, b"ABC");
    assert_eq!(BASE64_MIME.encode(&content.bytes), "QUJD\r\n");
}

#[test]
fn seven_bit_round_trip_gives_the_wire_back() {
    let wire = b"line one\r\nline two\r\n".to_vec();
    assert_eq!(decode(EncodingType::SevenBit, &wire).bytes, wire);
}

#[test]
fn absorb_keeps_a_payload() {
    let content = absorb_base64_outcome(Ok(vec![1, 2, 3]));
    assert_eq!(content.bytes, vec![1, 2, 3]);
    assert!(!content.decode_failure);
}

#[test]
fn absorb_records_a_failure() {
    let error = DecodeError { position: 4, kind: DecodeKind::Symbol };
    let content = absorb_base64_outcome(Err(error));
    assert!(content.bytes.is_empty());
    assert!(content.decode_failure);
}

#[test]
fn text_of_reads_utf8() {
    assert_eq!(text_of("grüße".as_bytes().to_vec()), Some("grüße".to_string()));
    assert_eq!(text_of(vec![]), Some(String::new()));
    assert_eq!(text_of(vec![0x66, 0xff]), None);
}

#[test]
fn text_or_empty_gives_empty_text_for_invalid_bytes() {
    assert_eq!(text_or_empty(b"abc".to_vec()), "abc");
    assert_eq!(text_or_empty(vec![0xc3]), "");
}

#[test]
fn numbers_are_written_in_decimal() {
    assert_eq!(decimal_string(0), "0");
    assert_eq!(decimal_string(7), "7");
    assert_eq!(decimal_string(10), "10");
    assert_eq!(decimal_string(1234567890), "1234567890");
    assert_eq!(decimal_string(4294967295), "4294967295");
    for n in [1u32, 9, 19, 100, 101, 999, 1000, 65535, 65536, 4000000000] {
        assert_eq!(decimal_string(n), n.to_string());
    }
}
