use pdf_debugger::pdf_edit::{
    apply_object_edit, apply_stream_edit, parse_edit_value, serialize_pdf, PdfEditPathSegment, PdfObjectEdit,
    PdfStreamEdit,
};
use pdf_debugger::pdf_model::{ObjectRef, PdfNumber, PdfObject, PdfValue};
use pdf_debugger::pdf_parser::parse_bytes;
use pdf_debugger::stream_decode::{decode_stream, encode_filter_chain};

fn number(text: &str) -> PdfValue {
    PdfValue::Number(PdfNumber { text: text.to_string() })
}

const TWO_OBJECTS: &[u8] = b"%PDF-1.7
1 0 obj
<< /Type /Catalog /Pages 2 0 R >>
endobj
2 0 obj
<< /Type /Pages /Count 0 /Kids [] >>
endobj
xref
0 3
0000000000 65535 f 
0000000009 00000 n 
0000000060 00000 n 
trailer
<< /Size 3 /Root 1 0 R >>
startxref
111
%%EOF
";

#[test]
fn applies_dictionary_value_edit_and_serializes_pdf() {
    let mut pdf = parse_bytes(TWO_OBJECTS, "edit.pdf");
    apply_object_edit(
        &mut pdf,
        &PdfObjectEdit {
            reference: ObjectRef::new(2, 0),
            path: vec![PdfEditPathSegment::DictionaryKey("Count".to_string())],
            value: number("1"),
        },
    )
    .expect("apply edit");
    let output = serialize_pdf(&pdf).expect("serialize");
    let parsed = parse_bytes(&output, "modified.pdf");
    let count = parsed
        .object(ObjectRef::new(2, 0))
        .and_then(PdfObject::dictionary)
        .and_then(|dictionary| dictionary.get("Count"))
        .and_then(PdfValue::as_usize);
    assert_eq!(count, Some(1));
}

#[test]
fn rejects_object_edit_to_non_scalar_value() {
    assert!(parse_edit_value("[0 0 10 10]").is_err());
    assert!(parse_edit_value("<< /K /V >>").is_err());
    assert!(parse_edit_value("true").is_err());
    assert!(parse_edit_value("null").is_err());
    assert!(parse_edit_value("3 0 R").is_err());
    assert!(parse_edit_value("65").is_ok());
    assert!(parse_edit_value("/FlateDecode").is_ok());
    assert!(parse_edit_value("(Text)").is_ok());
}

#[test]
fn rejects_object_edit_when_existing_value_is_not_editable() {
    let bytes = b"%PDF-1.7
1 0 obj
<< /Type /Catalog /BBox [0 0 10 10] /Enabled true >>
endobj
xref
0 2
0000000000 65535 f
0000000009 00000 n
trailer
<< /Size 2 /Root 1 0 R >>
startxref
76
%%EOF
";
    let mut pdf = parse_bytes(bytes, "edit-reject.pdf");
    let array_result = apply_object_edit(
        &mut pdf,
        &PdfObjectEdit {
            reference: ObjectRef::new(1, 0),
            path: vec![PdfEditPathSegment::DictionaryKey("BBox".to_string())],
            value: number("4"),
        },
    );
    assert!(array_result.is_err());

    let boolean_result = apply_object_edit(
        &mut pdf,
        &PdfObjectEdit {
            reference: ObjectRef::new(1, 0),
            path: vec![PdfEditPathSegment::DictionaryKey("Enabled".to_string())],
            value: PdfValue::Name("False".to_string()),
        },
    );
    assert!(boolean_result.is_err());
}

#[test]
fn applies_flate_content_stream_edit_and_updates_length() {
    let raw = encode_filter_chain(b"BT (Old) Tj ET", &["FlateDecode".to_string()]).expect("encode fixture stream");
    let mut bytes = b"%PDF-1.7\n".to_vec();
    let object_offset = bytes.len();
    bytes.extend_from_slice(format!("1 0 obj\n<< /Length {} /Filter /FlateDecode >>\nstream\n", raw.len()).as_bytes());
    bytes.extend_from_slice(&raw);
    bytes.extend_from_slice(b"\nendstream\nendobj\n");
    let xref = bytes.len();
    bytes.extend_from_slice(
        format!(
            "xref\n0 2\n0000000000 65535 f \n{object_offset:010} 00000 n \ntrailer\n<< /Size 2 >>\nstartxref\n{xref}\n%%EOF\n"
        )
        .as_bytes(),
    );
    let mut pdf = parse_bytes(&bytes, "stream-edit.pdf");
    apply_stream_edit(
        &mut pdf,
        &PdfStreamEdit { reference: ObjectRef::new(1, 0), decoded_text: "BT (New) Tj ET".to_string() },
    )
    .expect("apply stream edit");
    let output = serialize_pdf(&pdf).expect("serialize");
    let parsed = parse_bytes(&output, "modified-stream.pdf");
    let stream = parsed.stream(ObjectRef::new(1, 0)).expect("edited stream");
    let decoded = decode_stream(stream);

    assert!(!decoded.has_issues());
    assert_eq!(decoded.decoded, b"BT (New) Tj ET");
    assert_eq!(stream.declared_length, Some(stream.raw_bytes.len()));
}

#[test]
fn preserves_explicit_stream_dictionary_length_edit() {
    let bytes = b"%PDF-1.7
1 0 obj
<< /Length 5 >>
stream
abcde
endstream
endobj
xref
0 2
0000000000 65535 f
0000000009 00000 n
trailer
<< /Size 2 >>
startxref
60
%%EOF
";
    let mut pdf = parse_bytes(bytes, "stream-length-edit.pdf");
    apply_object_edit(
        &mut pdf,
        &PdfObjectEdit {
            reference: ObjectRef::new(1, 0),
            path: vec![PdfEditPathSegment::DictionaryKey("Length".to_string())],
            value: number("80"),
        },
    )
    .expect("apply stream dictionary length edit");

    let output = serialize_pdf(&pdf).expect("serialize");
    let parsed = parse_bytes(&output, "modified-stream-length.pdf");
    let stream = parsed.stream(ObjectRef::new(1, 0)).expect("stream");

    assert_eq!(stream.declared_length, Some(80));
    assert_eq!(stream.actual_length, 5);
}

#[test]
fn edit_errors_name_the_problem() {
    let mut pdf = parse_bytes(TWO_OBJECTS, "errors.pdf");
    let missing = apply_object_edit(
        &mut pdf,
        &PdfObjectEdit { reference: ObjectRef::new(9, 0), path: vec![], value: number("1") },
    )
    .unwrap_err();
    assert_eq!(missing.message(), "object 9 0 R was not found");

    let no_key = apply_object_edit(
        &mut pdf,
        &PdfObjectEdit {
            reference: ObjectRef::new(2, 0),
            path: vec![PdfEditPathSegment::DictionaryKey("Nope".to_string())],
            value: number("1"),
        },
    )
    .unwrap_err();
    assert_eq!(no_key.message(), "failed to parse PDF at byte offset 0: Dictionary key /Nope was not found.");

    let out_of_range = apply_object_edit(
        &mut pdf,
        &PdfObjectEdit {
            reference: ObjectRef::new(2, 0),
            path: vec![PdfEditPathSegment::DictionaryKey("Kids".to_string()), PdfEditPathSegment::ArrayIndex(3)],
            value: number("1"),
        },
    )
    .unwrap_err();
    assert_eq!(out_of_range.message(), "failed to parse PDF at byte offset 0: Array index [3] is out of range.");

    let not_stream = apply_stream_edit(&mut pdf, &PdfStreamEdit { reference: ObjectRef::new(1, 0), decoded_text: String::new() })
        .unwrap_err();
    assert_eq!(not_stream.message(), "object 1 0 R is not a stream");
}

#[test]
fn serializes_escaped_names_and_strings_and_a_fresh_xref() {
    let mut pdf = parse_bytes(TWO_OBJECTS, "escape.pdf");
    apply_object_edit(
        &mut pdf,
        &PdfObjectEdit {
            reference: ObjectRef::new(2, 0),
            path: vec![PdfEditPathSegment::DictionaryKey("Type".to_string())],
            value: PdfValue::Name("A B".to_string()),
        },
    )
    .unwrap();
    apply_object_edit(
        &mut pdf,
        &PdfObjectEdit {
            reference: ObjectRef::new(2, 0),
            path: vec![PdfEditPathSegment::DictionaryKey("Count".to_string())],
            value: PdfValue::String("a(b)\\".to_string()),
        },
    )
    .unwrap();
    let output = serialize_pdf(&pdf).unwrap();
    let text = String::from_utf8_lossy(&output);
    assert!(text.contains("2 0 obj\n<< /Count (a\\(b\\)\\\\) /Kids [] /Type /A#20B >>\nendobj\n"), "{text}");
    assert!(text.contains("xref\n0 3\n0000000000 65535 f \n0000000015 00000 n \n"), "{text}");
    assert!(text.contains("trailer\n<< /Root 1 0 R /Size 3 >>\nstartxref\n"), "{text}");
    assert!(text.ends_with("%%EOF\n"));
    let reparsed = parse_bytes(&output, "again.pdf");
    let name = reparsed.object(ObjectRef::new(2, 0)).unwrap().value.get("Type").unwrap().as_name().map(str::to_string);
    assert_eq!(name, Some("A B".to_string()));
}
