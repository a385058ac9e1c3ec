use pdf_debugger::pdf_model::{ObjectRef, PdfValue};
use pdf_debugger::pdf_parser::{parse_pdf_value, parse_pdf_value_with_consumed};

#[test]
fn parses_references_inside_values() {
    let value = parse_pdf_value(b"<< /Root 1 0 R /Kids [2 0 R] >>").unwrap();
    let dict = value.as_dictionary().unwrap();
    assert_eq!(dict.get("Root").unwrap().as_reference(), Some(ObjectRef::new(1, 0)));
}

#[test]
fn decodes_utf16be_literal_pdf_strings() {
    let value = parse_pdf_value(b"(\xfe\xff\x00M\x00i\x00c\x00r\x00o\x00s\x00o\x00f\x00t\x00 \x00W\x00o\x00r\x00d\x00 \x002\x000\x001\x006)").unwrap();
    assert_eq!(value.summary(), "(Microsoft Word 2016)");
}

#[test]
fn summarizes_utf16be_hex_pdf_strings() {
    let value = parse_pdf_value(
        b"<FEFF004D006900630072006F0073006F0066007400200057006F0072006400200032003000310036>",
    )
    .unwrap();
    assert_eq!(value.summary(), "(Microsoft Word 2016)");
}

#[test]
fn parses_numbers_names_and_keywords() {
    let (value, consumed) = parse_pdf_value_with_consumed(b"  [1 -2.50 /A#20B true false null 3 0 R] trailing").unwrap();
    assert_eq!(consumed, 40);
    let items = value.as_array().unwrap();
    assert_eq!(items.len(), 7);
    assert_eq!(items[0].summary(), "1");
    assert_eq!(items[1].summary(), "-2.5");
    assert_eq!(items[2].as_name(), Some("A B"));
    assert_eq!(items[3].summary(), "true");
    assert_eq!(items[4].summary(), "false");
    assert_eq!(items[5].summary(), "null");
    assert_eq!(items[6].as_reference(), Some(ObjectRef::new(3, 0)));
}

#[test]
fn later_dictionary_key_replaces_earlier() {
    let value = parse_pdf_value(b"<< /K 1 /K 2 >>").unwrap();
    let dict = value.as_dictionary().unwrap();
    assert_eq!(dict.len(), 1);
    assert_eq!(dict.get("K").unwrap().as_usize(), Some(2));
}

#[test]
fn literal_string_escapes() {
    let value = parse_pdf_value(b"(a\\(b\\)c\\n(d))").unwrap();
    match value {
        PdfValue::String(text) => assert_eq!(text, "a(b)c\n(d)"),
        other => panic!("expected a string, got {other:?}"),
    }
}

#[test]
fn unterminated_dictionary_fails() {
    assert!(parse_pdf_value(b"<< /A 1").is_none());
    assert!(parse_pdf_value(b"").is_none());
    assert!(parse_pdf_value(b"(abc\\").is_none());
}

#[test]
fn dictionary_summary_lists_first_keys() {
    let value = parse_pdf_value(b"<< /G 1 /F 1 /E 1 /D 1 /C 1 /B 1 /A 1 >>").unwrap();
    assert_eq!(value.summary(), "<<A, B, C, D, E, F, ...>>");
}

#[test]
fn number_summary_drops_redundant_digits() {
    assert_eq!(parse_pdf_value(b"+007.500").unwrap().summary(), "7.5");
    assert_eq!(parse_pdf_value(b"-0.0").unwrap().summary(), "0");
    assert_eq!(parse_pdf_value(b".25").unwrap().summary(), "0.25");
}

use pdf_debugger::pdf_model::{ParsedPdf, PdfObject};
use pdf_debugger::pdf_parser::{gui_parse_options, parse_bytes, parse_bytes_checked, parse_bytes_with_options, default_parse_options};

fn info_value<'a>(parsed: &'a ParsedPdf, key: &str) -> Option<&'a str> {
    parsed.metadata.info_summary.iter().find(|(k, _)| k == key).map(|(_, v)| v.as_str())
}

#[test]
fn parses_minimal_pdf_metadata() {
    let bytes = minimal_pdf();
    let parsed = parse_bytes(&bytes, "minimal.pdf");

    assert_eq!(parsed.metadata.pdf_version.as_deref(), Some("1.4"));
    assert_eq!(parsed.metadata.page_count, Some(1));
    assert_eq!(parsed.metadata.object_count, 5);
    assert_eq!(parsed.metadata.stream_count, 1);
    assert_eq!(parsed.metadata.root, Some(ObjectRef::new(1, 0)));
}

#[test]
fn gui_parse_skips_invalid_xref_offsets_without_full_scan() {
    let bytes = b"%PDF-1.7
1 0 obj
<< /Type /Catalog /Pages 2 0 R >>
endobj
2 0 obj
<< /Type /Pages /Count 0 /Kids [] >>
endobj
xref
0 3
0000000000 65535 f
0000000009 00000 n
0000000060 00000 n
trailer
<< /Size 3 /Root 1 0 R >>
startxref
111
%%EOF
";

    let default = parse_bytes(bytes, "xref-fallback.pdf");
    assert!(default.object(ObjectRef::new(2, 0)).is_some());

    let gui = parse_bytes_with_options(bytes, "xref-skip.pdf", gui_parse_options());
    assert!(gui.object(ObjectRef::new(1, 0)).is_some());
    assert!(gui.object(ObjectRef::new(2, 0)).is_none());
    assert!(gui.warnings.iter().any(|warning| warning.message.contains("Skipped 1 in-use xref object")));
}

#[test]
fn decodes_info_dictionary_strings_in_metadata_summary() {
    let bytes = info_string_pdf();
    let parsed = parse_bytes(&bytes, "info-string.pdf");

    assert_eq!(info_value(&parsed, "Creator"), Some("(Microsoft Word 2016)"));
    assert_eq!(info_value(&parsed, "Producer"), Some("(Microsoft Word 2016)"));
}

#[test]
fn parses_xref_stream_trailer_and_object_stream_members() {
    let bytes = xref_stream_with_object_stream_pdf();
    let parsed = parse_bytes(&bytes, "xref-object-stream.pdf");

    assert_eq!(parsed.metadata.pdf_version.as_deref(), Some("1.7"));
    assert_eq!(parsed.metadata.root, Some(ObjectRef::new(1, 0)));
    assert_eq!(parsed.metadata.info, Some(ObjectRef::new(3, 0)));
    assert_eq!(parsed.metadata.page_count, Some(1));
    assert!(parsed.metadata.has_xref_stream);
    assert!(parsed.metadata.has_object_stream);
    assert!(parsed.trailer.is_some());
    assert!(parsed.object(ObjectRef::new(2, 0)).is_some());
    assert!(parsed.object(ObjectRef::new(7, 0)).is_some());
    assert!(parsed.object(ObjectRef::new(13, 0)).is_some());

    let root = parsed.root_catalog().expect("root catalog");
    assert_eq!(
        root.dictionary().and_then(|dict| dict.get("Pages")).and_then(PdfValue::as_reference),
        Some(ObjectRef::new(2, 0))
    );
    let acroform = parsed
        .object(ObjectRef::new(7, 0))
        .and_then(PdfObject::dictionary)
        .expect("AcroForm dictionary from object stream");
    assert_eq!(
        acroform
            .get("Fields")
            .and_then(PdfValue::as_array)
            .and_then(|fields| fields.first())
            .and_then(PdfValue::as_reference),
        Some(ObjectRef::new(13, 0))
    );
}

#[test]
fn stream_data_follows_declared_length() {
    let bytes = minimal_pdf();
    let parsed = parse_bytes(&bytes, "minimal.pdf");
    let stream = parsed.stream(ObjectRef::new(4, 0)).expect("content stream");
    assert_eq!(stream.declared_length, Some(23));
    assert_eq!(stream.actual_length, 23);
    assert_eq!(stream.raw_bytes, b"BT /F1 12 Tf (Hi) Tj ET".to_vec());
    assert!(parsed.xref_entries.iter().filter(|e| e.in_use).all(|e| e.valid_offset == Some(true)));
}

#[test]
fn garbage_without_objects_warns() {
    let parsed = parse_bytes(b"hello world", "junk.pdf");
    assert_eq!(parsed.metadata.object_count, 0);
    assert!(parsed.warnings.iter().any(|w| w.message == "PDF header was not found in the first 1024 bytes"));
    assert!(parsed.warnings.iter().any(|w| w.message == "No indirect objects were discovered"));
    assert!(parsed.warnings.iter().any(|w| w.message == "No trailer dictionary was discovered"));
    assert_eq!(parsed.metadata.parse_warning_count, parsed.warnings.len());
}

#[test]
fn truncated_xref_table_is_refused_by_checked_parse() {
    let bytes = b"%PDF-1.4\nxref\n0 3\n0000000000 65535 f \n";
    assert!(parse_bytes_checked(bytes, "truncated.pdf", default_parse_options()).is_none());
}

#[test]
fn scan_finds_objects_without_xref() {
    let bytes = b"%PDF-1.4\n1 0 obj\n<< /Type /Catalog >>\nendobj\n2 0 obj\n(text)\nendobj\n";
    let parsed = parse_bytes(bytes, "noxref.pdf");
    assert_eq!(parsed.metadata.object_count, 2);
    assert!(parsed.warnings.iter().any(|w| w.message == "No classic xref table was discovered"));
}

fn minimal_pdf() -> Vec<u8> {
    let mut bytes = Vec::new();
    bytes.extend_from_slice(b"%PDF-1.4\n");
    let offsets = [
        push_object(&mut bytes, b"1 0 obj\n<< /Type /Catalog /Pages 2 0 R >>\nendobj\n"),
        push_object(&mut bytes, b"2 0 obj\n<< /Type /Pages /Kids [3 0 R] /Count 1 /MediaBox [0 0 200 200] >>\nendobj\n"),
        push_object(&mut bytes, b"3 0 obj\n<< /Type /Page /Parent 2 0 R /Resources << /Font << /F1 5 0 R >> >> /Contents 4 0 R >>\nendobj\n"),
        push_object(&mut bytes, b"4 0 obj\n<< /Length 23 >>\nstream\nBT /F1 12 Tf (Hi) Tj ET\nendstream\nendobj\n"),
        push_object(&mut bytes, b"5 0 obj\n<< /Type /Font /Subtype /Type1 /BaseFont /Helvetica >>\nendobj\n"),
    ];
    let xref_offset = bytes.len();
    bytes.extend_from_slice(b"xref\n0 6\n0000000000 65535 f \n");
    for offset in offsets {
        bytes.extend_from_slice(format!("{offset:010} 00000 n \n").as_bytes());
    }
    bytes.extend_from_slice(format!("trailer\n<< /Size 6 /Root 1 0 R >>\nstartxref\n{xref_offset}\n%%EOF\n").as_bytes());
    bytes
}

fn info_string_pdf() -> Vec<u8> {
    let mut bytes = Vec::new();
    bytes.extend_from_slice(b"%PDF-1.4\n");
    let offsets = [
        push_object(&mut bytes, b"1 0 obj\n<< /Type /Catalog /Pages 2 0 R >>\nendobj\n"),
        push_object(&mut bytes, b"2 0 obj\n<< /Type /Pages /Kids [3 0 R] /Count 1 /MediaBox [0 0 200 200] >>\nendobj\n"),
        push_object(&mut bytes, b"3 0 obj\n<< /Type /Page /Parent 2 0 R >>\nendobj\n"),
        push_object(
            &mut bytes,
            b"4 0 obj\n<< /Creator (\xfe\xff\x00M\x00i\x00c\x00r\x00o\x00s\x00o\x00f\x00t\x00 \x00W\x00o\x00r\x00d\x00 \x002\x000\x001\x006) /Producer <FEFF004D006900630072006F0073006F0066007400200057006F0072006400200032003000310036> >>\nendobj\n",
        ),
    ];
    let xref = bytes.len();
    bytes.extend_from_slice(b"xref\n0 5\n0000000000 65535 f \n");
    for offset in offsets {
        bytes.extend_from_slice(format!("{offset:010} 00000 n \n").as_bytes());
    }
    bytes.extend_from_slice(format!("trailer\n<< /Size 5 /Root 1 0 R /Info 4 0 R >>\nstartxref\n{xref}\n%%EOF\n").as_bytes());
    bytes
}

fn xref_stream_with_object_stream_pdf() -> Vec<u8> {
    let mut bytes = Vec::new();
    bytes.extend_from_slice(b"%PDF-1.7\n");
    let object_1 = push_object(&mut bytes, b"1 0 obj\n<< /Type /Catalog /Pages 2 0 R /AcroForm 7 0 R >>\nendobj\n");
    let object_3 = push_object(&mut bytes, b"3 0 obj\n<< /Producer (fixture) >>\nendobj\n");
    let body_2 = b"<< /Type /Pages /Kids [4 0 R] /Count 1 /MediaBox [0 0 200 200] >>";
    let body_4 = b"<< /Type /Page /Parent 2 0 R >>";
    let body_7 = b"<< /Fields [13 0 R] /DA (/F1 0 Tf 0 g) >>";
    let body_13 = b"<< /FT /Tx /T (Name) >>";
    let offset_4 = body_2.len() + 1;
    let offset_7 = offset_4 + body_4.len() + 1;
    let offset_13 = offset_7 + body_7.len() + 1;
    let table = format!("2 0 4 {offset_4} 7 {offset_7} 13 {offset_13} ");
    let first = table.len();
    let mut compressed = table.into_bytes();
    compressed.extend_from_slice(body_2);
    compressed.push(b' ');
    compressed.extend_from_slice(body_4);
    compressed.push(b' ');
    compressed.extend_from_slice(body_7);
    compressed.push(b' ');
    compressed.extend_from_slice(body_13);
    let object_19 = push_object(
        &mut bytes,
        format!("19 0 obj\n<< /Type /ObjStm /N 4 /First {first} /Length {} >>\nstream\n", compressed.len()).as_bytes(),
    );
    bytes.extend_from_slice(&compressed);
    bytes.extend_from_slice(b"\nendstream\nendobj\n");

    let xref_offset = bytes.len();
    let mut xref_data = Vec::new();
    push_xref_stream_entry(&mut xref_data, 0, 0, 65535);
    push_xref_stream_entry(&mut xref_data, 1, object_1, 0);
    push_xref_stream_entry(&mut xref_data, 2, 19, 0);
    push_xref_stream_entry(&mut xref_data, 1, object_3, 0);
    push_xref_stream_entry(&mut xref_data, 2, 19, 1);
    for _ in 5..7 {
        push_xref_stream_entry(&mut xref_data, 0, 0, 0);
    }
    push_xref_stream_entry(&mut xref_data, 2, 19, 2);
    for _ in 8..13 {
        push_xref_stream_entry(&mut xref_data, 0, 0, 0);
    }
    push_xref_stream_entry(&mut xref_data, 2, 19, 3);
    for _ in 14..19 {
        push_xref_stream_entry(&mut xref_data, 0, 0, 0);
    }
    push_xref_stream_entry(&mut xref_data, 1, object_19, 0);
    push_xref_stream_entry(&mut xref_data, 1, xref_offset, 0);
    bytes.extend_from_slice(
        format!(
            "20 0 obj\n<< /Type /XRef /Size 21 /Root 1 0 R /Info 3 0 R /W [1 4 2] /Length {} >>\nstream\n",
            xref_data.len()
        )
        .as_bytes(),
    );
    bytes.extend_from_slice(&xref_data);
    bytes.extend_from_slice(format!("\nendstream\nendobj\nstartxref\n{xref_offset}\n%%EOF\n").as_bytes());
    bytes
}

fn push_xref_stream_entry(bytes: &mut Vec<u8>, entry_type: u8, field_2: usize, field_3: usize) {
    bytes.push(entry_type);
    bytes.extend_from_slice(&(field_2 as u32).to_be_bytes());
    bytes.extend_from_slice(&(field_3 as u16).to_be_bytes());
}

fn push_object(bytes: &mut Vec<u8>, object: &[u8]) -> usize {
    let offset = bytes.len();
    bytes.extend_from_slice(object);
    offset
}
