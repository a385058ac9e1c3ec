use pdf_debugger::pdf_model::{ByteRange, ObjectRef, PdfDictionary, PdfNumber, PdfStream, PdfValue};
use pdf_debugger::stream_viewer::{hex_dump, inspect_content_stream, inspect_stream};

#[test]
fn renders_hex_dump() {
    let dump = hex_dump(b"BT /F1 12 Tf");

    assert!(dump.contains("00000000"));
    assert!(dump.contains("42 54 20 2f"));
    assert!(dump.contains("BT /F1 12 Tf"));
}

#[test]
fn hex_dump_second_row_offset() {
    let dump = hex_dump(&[0u8; 17]);
    assert!(dump.contains("00000010  00"));
    assert_eq!(dump.lines().count(), 2);
}

fn number(text: &str) -> PdfValue {
    PdfValue::Number(PdfNumber { text: text.to_string() })
}

#[test]
fn inspects_stream_without_embedding_bytes() {
    let mut dictionary = PdfDictionary::new();
    dictionary.insert("Length".to_string(), number("5"));
    let stream = PdfStream {
        dictionary,
        declared_length: Some(5),
        actual_length: 5,
        filters: Vec::new(),
        raw_range: ByteRange { start: 10, end: 15 },
        raw_bytes: b"Hello".to_vec(),
    };

    let view = inspect_stream(ObjectRef::new(4, 0), &stream);

    assert_eq!(view.reference, ObjectRef::new(4, 0));
    assert_eq!(view.declared_length, Some(5));
    assert_eq!(view.actual_length, 5);
    assert_eq!(view.decoded_length, Some(5));
    assert!(view.decode_steps.is_empty());
    assert!(view.decode_issues.is_empty());
}

#[test]
fn inspects_decoded_content_stream() {
    let stream = PdfStream {
        dictionary: PdfDictionary::new(),
        declared_length: Some(23),
        actual_length: 23,
        filters: Vec::new(),
        raw_range: ByteRange { start: 0, end: 23 },
        raw_bytes: b"BT /F1 12 Tf (Hi) Tj ET".to_vec(),
    };

    let view = inspect_content_stream(ObjectRef::new(4, 0), &stream).unwrap();

    assert_eq!(view.reference, ObjectRef::new(4, 0));
    assert_eq!(view.decoded_length, 23);
    assert_eq!(
        view.analysis.operators.iter().map(|operator| operator.name.as_str()).collect::<Vec<_>>(),
        vec!["BT", "Tf", "Tj", "ET"]
    );
    assert!(view.analysis.warnings.is_empty());
}

#[test]
fn skips_image_xobject_for_content_analysis() {
    let mut dictionary = PdfDictionary::new();
    dictionary.insert("Type".to_string(), PdfValue::Name("XObject".to_string()));
    dictionary.insert("Subtype".to_string(), PdfValue::Name("Image".to_string()));
    dictionary.insert("Length".to_string(), number("4"));
    let stream = PdfStream {
        dictionary,
        declared_length: Some(4),
        actual_length: 4,
        filters: Vec::new(),
        raw_range: ByteRange { start: 10, end: 14 },
        raw_bytes: vec![0, 255, 128, 64],
    };

    let error = inspect_content_stream(ObjectRef::new(19, 0), &stream)
        .expect_err("image XObject should not be parsed as content operators");

    assert!(error.issues.is_empty());
    assert!(error.message.contains("image XObject stream"));
}

#[test]
fn form_xobject_is_refused_with_its_subtype() {
    let mut dictionary = PdfDictionary::new();
    dictionary.insert("Type".to_string(), PdfValue::Name("XObject".to_string()));
    dictionary.insert("Subtype".to_string(), PdfValue::Name("Form".to_string()));
    let stream = PdfStream {
        dictionary,
        declared_length: None,
        actual_length: 0,
        filters: Vec::new(),
        raw_range: ByteRange { start: 0, end: 0 },
        raw_bytes: Vec::new(),
    };
    let error = inspect_content_stream(ObjectRef::new(7, 0), &stream).unwrap_err();
    assert_eq!(error.message, "Object 7 0 R is an XObject stream (Form) rather than a page content stream.");
}

#[test]
fn decode_failure_is_reported_with_filter() {
    let stream = PdfStream {
        dictionary: PdfDictionary::new(),
        declared_length: None,
        actual_length: 3,
        filters: vec!["ASCIIHexDecode".to_string()],
        raw_range: ByteRange { start: 0, end: 3 },
        raw_bytes: b"4G>".to_vec(),
    };
    let error = inspect_content_stream(ObjectRef::new(3, 0), &stream).unwrap_err();
    assert_eq!(error.issues.len(), 1);
    assert!(error.message.starts_with("/ASCIIHexDecode: "));
}
