use pdf_debugger::lazy_xref::{
    parse_decoded_xref_stream_entries, parse_decoded_xref_stream_entries_checked, read_xref_field, xref_indexes,
    xref_widths, LazyCompressedObjectEntry,
};
use pdf_debugger::pdf_model::{ObjectRef, PdfDictionary, PdfNumber, PdfValue};

fn number(n: u64) -> PdfValue {
    PdfValue::Number(PdfNumber { text: n.to_string() })
}

fn array(values: &[u64]) -> PdfValue {
    PdfValue::Array(values.iter().map(|v| number(*v)).collect())
}

fn dictionary(entries: Vec<(&str, PdfValue)>) -> PdfDictionary {
    let mut d = PdfDictionary::new();
    for (k, v) in entries {
        d.insert(k.to_string(), v);
    }
    d
}

#[test]
fn reads_big_endian_fields_and_zero_past_the_end() {
    let bytes = [0x01, 0x02, 0x03, 0xff];
    assert_eq!(read_xref_field(&bytes, 0, 2), 0x0102);
    assert_eq!(read_xref_field(&bytes, 1, 3), 0x0203ff);
    assert_eq!(read_xref_field(&bytes, 2, 0), 0);
    assert_eq!(read_xref_field(&bytes, 3, 2), 0);
    assert_eq!(read_xref_field(&bytes, usize::MAX, 2), 0);
}

#[test]
fn widths_and_indexes() {
    let d = dictionary(vec![("W", array(&[1, 2, 1])), ("Size", number(5))]);
    assert_eq!(xref_widths(&d).unwrap(), [1, 2, 1]);
    assert_eq!(xref_indexes(&d).unwrap(), vec![(0, 5)]);

    let d = dictionary(vec![("W", array(&[1, 2])), ("Index", array(&[3, 2, 10, 1, 7]))]);
    assert_eq!(xref_widths(&d).unwrap_err().message(), "lazy PDF open failed: xref stream /W must contain exactly three widths");
    assert_eq!(xref_indexes(&d).unwrap(), vec![(3, 2), (10, 1)]);

    let d = dictionary(vec![]);
    assert_eq!(xref_widths(&d).unwrap_err().message(), "lazy PDF open failed: xref stream is missing /W");
    assert_eq!(
        xref_indexes(&d).unwrap_err().message(),
        "lazy PDF open failed: xref stream is missing /Index and numeric /Size"
    );
}

#[test]
fn decodes_free_used_and_compressed_entries() {
    let d = dictionary(vec![("W", array(&[1, 2, 1])), ("Index", array(&[4, 3]))]);
    let data = [0, 0, 0, 0xff, 1, 0x01, 0x00, 0, 2, 0, 9, 3];
    let entries = parse_decoded_xref_stream_entries(&d, &data, ObjectRef::new(9, 0)).unwrap();
    assert_eq!(entries.len(), 3);
    assert_eq!(entries[0].reference, ObjectRef::new(4, 255));
    assert!(!entries[0].in_use);
    assert_eq!(entries[1].reference, ObjectRef::new(5, 0));
    assert_eq!(entries[1].offset, 256);
    assert!(entries[1].in_use);
    assert_eq!(entries[2].reference, ObjectRef::new(6, 0));
    assert_eq!(
        entries[2].compressed,
        Some(LazyCompressedObjectEntry { object_stream: ObjectRef::new(9, 0), index: 3 })
    );
}

#[test]
fn stops_where_the_data_runs_out_and_refuses_zero_widths() {
    let d = dictionary(vec![("W", array(&[0, 1, 0])), ("Size", number(10))]);
    let entries = parse_decoded_xref_stream_entries(&d, &[7, 8, 9], ObjectRef::new(1, 0)).unwrap();
    assert_eq!(entries.iter().map(|e| e.offset).collect::<Vec<_>>(), vec![7, 8, 9]);
    assert!(entries.iter().all(|e| e.in_use));

    let d = dictionary(vec![("W", array(&[0, 0, 0])), ("Size", number(1))]);
    let error = parse_decoded_xref_stream_entries(&d, &[], ObjectRef::new(12, 0)).unwrap_err();
    assert_eq!(error.message(), "lazy PDF open failed: xref stream 12 0 R has zero-width /W entries");
}

#[test]
fn overflowing_object_numbers_are_refused_by_the_checked_decode() {
    let d = dictionary(vec![("W", array(&[0, 1, 0])), ("Index", array(&[4294967295, 2]))]);
    assert!(parse_decoded_xref_stream_entries_checked(&d, &[1, 2], ObjectRef::new(1, 0)).is_none());
    let one = parse_decoded_xref_stream_entries_checked(&d, &[1], ObjectRef::new(1, 0)).unwrap().unwrap();
    assert_eq!(one[0].reference, ObjectRef::new(4294967295, 0));
}
