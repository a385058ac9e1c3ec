use pdf_debugger::page_object_text::{
    decode_hex_string_bytes, decode_literal_string_bytes, latin1_char, PageObjectKind,
    PageObjectProperty, PageObjectWarning,
};

#[test]
fn literal_string_escapes_decode_to_their_bytes() {
    assert_eq!(decode_literal_string_bytes(b"(a\\n\\101\\\r\nb)"), b"a\nAb".to_vec());
    assert_eq!(decode_literal_string_bytes(b"(\\t\\r\\b\\f)"), vec![0x09, 0x0d, 0x08, 0x0c]);
    assert_eq!(decode_literal_string_bytes(b"(\\(x\\))"), b"(x)".to_vec());
    assert_eq!(decode_literal_string_bytes(b"(line\\\nnext)"), b"linenext".to_vec());
}

#[test]
fn literal_string_octal_escapes_take_at_most_three_digits_and_cap_at_255() {
    assert_eq!(decode_literal_string_bytes(b"(\\0053)"), vec![5, b'3']);
    assert_eq!(decode_literal_string_bytes(b"(\\777)"), vec![255]);
    assert_eq!(decode_literal_string_bytes(b"(\\7x)"), vec![7, b'x']);
}

#[test]
fn literal_string_lone_backslash_ends_and_undelimited_bytes_are_read_whole() {
    assert_eq!(decode_literal_string_bytes(b"(ab\\)"), b"ab".to_vec());
    assert_eq!(decode_literal_string_bytes(b"x\\ty"), b"x\ty".to_vec());
    assert_eq!(decode_literal_string_bytes(b"()"), Vec::<u8>::new());
}

#[test]
fn hex_string_pairs_decode_skipping_whitespace_and_bad_pairs() {
    assert_eq!(decode_hex_string_bytes(b"<48 69>"), b"Hi".to_vec());
    assert_eq!(decode_hex_string_bytes(b"<414>"), vec![0x41, 0x40]);
    assert_eq!(decode_hex_string_bytes(b"<4G41>"), vec![0x41]);
    assert_eq!(decode_hex_string_bytes(b"<>"), Vec::<u8>::new());
    assert_eq!(decode_hex_string_bytes(b"6a6B"), vec![0x6a, 0x6b]);
}

#[test]
fn latin1_bytes_map_to_characters_with_c1_controls_replaced() {
    assert_eq!(latin1_char(0x41), 'A');
    assert_eq!(latin1_char(0x7f), '\u{7f}');
    assert_eq!(latin1_char(0x85), '\u{fffd}');
    assert_eq!(latin1_char(0x9f), '\u{fffd}');
    assert_eq!(latin1_char(0xa0), '\u{a0}');
    assert_eq!(latin1_char(0xe9), 'é');
}

#[test]
fn page_object_records_hold_their_fields() {
    let kind = PageObjectKind::Form;
    let copy = kind;
    assert!(copy == PageObjectKind::Form);
    assert!(copy != PageObjectKind::XObject);
    let property = PageObjectProperty { name: "Font".to_string(), value: "/F1".to_string() };
    assert_eq!(property.clone().value, "/F1");
    let warning = PageObjectWarning {
        rule_id: "page-object".to_string(),
        object_id: Some("text-1".to_string()),
        source: None,
        message: "missing font".to_string(),
    };
    assert_eq!(warning.clone().object_id.as_deref(), Some("text-1"));
}
