use pdf_debugger::stream_decode::{
    ascii85_decode, ascii_hex_decode, decode_filter_chain, decode_filter_chain_with_limit, encode_filter_chain,
    run_length_decode, DecodeIssueKind, DecodeStepStatus,
};

#[test]
fn decodes_ascii_hex() {
    let decoded = ascii_hex_decode(b"48656c6c6f>", None).unwrap();
    assert_eq!(decoded, b"Hello");
}

#[test]
fn decodes_ascii85() {
    let decoded = ascii85_decode(b"<~87cURD]i,\"Ebo7~>", None).unwrap();
    assert_eq!(decoded, b"Hello World");
}

#[test]
fn decodes_run_length() {
    let decoded = run_length_decode(&[2, b'a', b'b', b'c', 254, b'Z', 128], None).unwrap();
    assert_eq!(decoded, b"abcZZZ");
}

#[test]
fn ascii_hex_rejects_bad_digit() {
    assert!(ascii_hex_decode(b"4G>", None).is_err());
}

#[test]
fn output_limit_is_enforced() {
    let result = run_length_decode(&[254, b'Z', 128], Some(2));
    assert!(result.is_err());
}

#[test]
fn encode_then_decode_round_trips() {
    let data = b"BT /F1 12 Tf (Hi) Tj ET".to_vec();
    let filters = vec!["FlateDecode".to_string()];
    let encoded = encode_filter_chain(&data, &filters).unwrap();
    assert_ne!(encoded, data);
    let decoded = decode_filter_chain(encoded, &filters);
    assert!(!decoded.has_issues());
    assert_eq!(decoded.decoded, data);
}

#[test]
fn unsupported_filter_is_reported() {
    let result = decode_filter_chain(b"abc".to_vec(), &["JBIG2Decode".to_string()]);
    assert!(result.has_issues());
    assert_eq!(result.issues[0].kind, DecodeIssueKind::Unsupported);
    assert_eq!(result.steps[0].status, DecodeStepStatus::Unsupported);
}

#[test]
fn raw_bytes_over_limit_are_refused() {
    let result = decode_filter_chain_with_limit(b"abcdef".to_vec(), &[], Some(3));
    assert!(result.has_issues());
    assert_eq!(result.decoded_length, 0);
}
