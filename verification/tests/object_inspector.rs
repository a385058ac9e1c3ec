use pdf_debugger::object_inspector::{inspect_object, inspect_object_shallow};
use pdf_debugger::pdf_model::ObjectRef;
use pdf_debugger::pdf_parser::parse_bytes;

fn push(bytes: &mut Vec<u8>, value: &[u8]) -> usize {
    let offset = bytes.len();
    bytes.extend_from_slice(value);
    offset
}

fn minimal_pdf() -> String {
    let content = b"BT /F1 12 Tf (Hi) Tj ET";
    let mut bytes = Vec::new();
    bytes.extend_from_slice(b"%PDF-1.4\n");
    let object_1 = push(&mut bytes, b"1 0 obj\n<< /Type /Catalog /Pages 2 0 R >>\nendobj\n");
    let object_2 = push(
        &mut bytes,
        b"2 0 obj\n<< /Type /Pages /Kids [3 0 R] /Count 1 /MediaBox [0 0 200 200] >>\nendobj\n",
    );
    let object_3 = push(
        &mut bytes,
        b"3 0 obj\n<< /Type /Page /Parent 2 0 R /Resources << /Font << /F1 5 0 R >> >> /Contents 4 0 R >>\nendobj\n",
    );
    let mut stream = Vec::new();
    stream.extend_from_slice(format!("4 0 obj\n<< /Length {} >>\nstream\n", content.len()).as_bytes());
    stream.extend_from_slice(content);
    stream.extend_from_slice(b"\nendstream\nendobj\n");
    let object_4 = push(&mut bytes, &stream);
    let object_5 = push(&mut bytes, b"5 0 obj\n<< /Type /Font /Subtype /Type1 /BaseFont /Helvetica >>\nendobj\n");
    let xref = bytes.len();
    bytes.extend_from_slice(b"xref\n0 6\n0000000000 65535 f \n");
    for offset in [object_1, object_2, object_3, object_4, object_5] {
        bytes.extend_from_slice(format!("{offset:010} 00000 n \n").as_bytes());
    }
    bytes.extend_from_slice(format!("trailer\n<< /Size 6 /Root 1 0 R >>\nstartxref\n{xref}\n%%EOF\n").as_bytes());
    String::from_utf8(bytes).unwrap()
}

#[test]
fn inspects_dictionary_object() {
    let pdf = parse_bytes(minimal_pdf().as_bytes(), "inspect.pdf");
    let object = pdf.object(ObjectRef::new(1, 0)).unwrap();
    let inspection = inspect_object(object);

    assert_eq!(inspection.object_type, "dictionary");
    assert_eq!(inspection.reference, ObjectRef::new(1, 0));
    assert!(inspection.dictionary_keys.contains(&"Pages".to_string()));
    assert!(inspection.dictionary_keys.contains(&"Type".to_string()));
    assert_eq!(inspection.references, vec![ObjectRef::new(2, 0)]);
    assert!(inspection.stream.is_none());
}

#[test]
fn inspects_stream_object_with_decoded_length() {
    let pdf = parse_bytes(minimal_pdf().as_bytes(), "inspect.pdf");
    let object = pdf.object(ObjectRef::new(4, 0)).unwrap();
    let inspection = inspect_object(object);
    let stream = inspection.stream.unwrap();

    assert_eq!(inspection.object_type, "stream");
    assert!(inspection.references.is_empty());
    assert_eq!(stream.declared_length, Some(23));
    assert_eq!(stream.actual_length, 23);
    assert_eq!(stream.decoded_length, Some(23));
    assert!(stream.filters.is_empty());
    assert!(stream.decode_issues.is_empty());
}

#[test]
fn keys_come_in_order_and_references_sorted_once() {
    let pdf = parse_bytes(minimal_pdf().as_bytes(), "inspect.pdf");
    let page = inspect_object(pdf.object(ObjectRef::new(3, 0)).unwrap());
    assert_eq!(page.dictionary_keys, vec!["Contents", "Parent", "Resources", "Type"]);
    assert_eq!(page.references, vec![ObjectRef::new(2, 0), ObjectRef::new(4, 0), ObjectRef::new(5, 0)]);
    assert_eq!(page.value_summary, "<<Contents, Parent, Resources, Type>>");
    assert!(page.raw_length > 0);
}

#[test]
fn shallow_inspection_does_not_decode() {
    let pdf = parse_bytes(minimal_pdf().as_bytes(), "inspect.pdf");
    let inspection = inspect_object_shallow(pdf.object(ObjectRef::new(4, 0)).unwrap());
    let stream = inspection.stream.unwrap();
    assert_eq!(stream.decoded_length, None);
    assert!(stream.decode_issues.is_empty());
    assert_eq!(stream.actual_length, 23);
}
