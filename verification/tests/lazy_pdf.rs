use pdf_debugger::error::PdfDebuggerError;
use pdf_debugger::lazy_open::{
    inspect_lazy_object, lazy_pdf_to_object_tree, open_lazy_pdf, read_lazy_stream_decoded_bytes,
    read_lazy_stream_for_content, read_lazy_stream_raw_bytes, view_lazy_stream,
};
use pdf_debugger::lazy_pages::{build_lazy_page_index, build_lazy_page_list, build_lazy_page_metadata};
use pdf_debugger::object_tree::ObjectTreeNodeKind;
use pdf_debugger::page_index::{PageBoxNumbers, PageObjectLinkKind};
use pdf_debugger::pdf_model::ObjectRef;

fn box_size(b: &PageBoxNumbers) -> (f64, f64) {
    let n = |t: &String| t.parse::<f64>().expect("number");
    (
        (n(&b.upper_right_x) - n(&b.lower_left_x)).abs(),
        (n(&b.upper_right_y) - n(&b.lower_left_y)).abs(),
    )
}

fn push(bytes: &mut Vec<u8>, object: &[u8]) -> usize {
    let offset = bytes.len();
    bytes.extend_from_slice(object);
    offset
}

fn push_xref_stream_entry(bytes: &mut Vec<u8>, entry_type: u8, field_2: usize, field_3: usize) {
    bytes.push(entry_type);
    bytes.extend_from_slice(&(field_2 as u32).to_be_bytes());
    bytes.extend_from_slice(&(field_3 as u16).to_be_bytes());
}

fn minimal_pdf() -> Vec<u8> {
    let mut bytes = b"%PDF-1.4\n".to_vec();
    let offsets = [
        push(&mut bytes, b"1 0 obj\n<< /Type /Catalog /Pages 2 0 R >>\nendobj\n"),
        push(
            &mut bytes,
            b"2 0 obj\n<< /Type /Pages /Kids [3 0 R] /Count 1 /MediaBox [0 0 200 200] >>\nendobj\n",
        ),
        push(&mut bytes, b"3 0 obj\n<< /Type /Page /Parent 2 0 R /Contents 4 0 R >>\nendobj\n"),
        push(
            &mut bytes,
            b"4 0 obj\n<< /Length 23 >>\nstream\nBT /F1 12 Tf (Hi) Tj ET\nendstream\nendobj\n",
        ),
        push(
            &mut bytes,
            b"5 0 obj\n<< /Type /Font /Subtype /Type1 /BaseFont /Helvetica >>\nendobj\n",
        ),
    ];
    let xref = bytes.len();
    bytes.extend_from_slice(b"xref\n0 6\n0000000000 65535 f \n");
    for offset in offsets {
        bytes.extend_from_slice(format!("{offset:010} 00000 n \n").as_bytes());
    }
    bytes.extend_from_slice(
        format!("trailer\n<< /Size 6 /Root 1 0 R >>\nstartxref\n{xref}\n%%EOF\n").as_bytes(),
    );
    bytes
}

fn page_pdf() -> Vec<u8> {
    let mut bytes = b"%PDF-1.4\n".to_vec();
    let offsets = [
        push(&mut bytes, b"1 0 obj\n<< /Type /Catalog /Pages 2 0 R >>\nendobj\n"),
        push(
            &mut bytes,
            b"2 0 obj\n<< /Type /Pages /Kids [3 0 R] /Count 1 /MediaBox [0 0 200 300] /CropBox [10 20 190 280] /Rotate 90 /Resources << /Font << /F1 5 0 R >> /XObject << /Im1 6 0 R >> >> >>\nendobj\n",
        ),
        push(
            &mut bytes,
            b"3 0 obj\n<< /Type /Page /Parent 2 0 R /BleedBox [5 5 195 290] /Contents 4 0 R /Annots [7 0 R] >>\nendobj\n",
        ),
        push(
            &mut bytes,
            b"4 0 obj\n<< /Length 23 >>\nstream\nBT /F1 12 Tf (Hi) Tj ET\nendstream\nendobj\n",
        ),
        push(
            &mut bytes,
            b"5 0 obj\n<< /Type /Font /Subtype /Type1 /BaseFont /Helvetica >>\nendobj\n",
        ),
        push(
            &mut bytes,
            b"6 0 obj\n<< /Type /XObject /Subtype /Image /Width 1 /Height 1 /ColorSpace /DeviceRGB /BitsPerComponent 8 /Length 3 >>\nstream\nabc\nendstream\nendobj\n",
        ),
        push(
            &mut bytes,
            b"7 0 obj\n<< /Type /Annot /Subtype /Text /Rect [0 0 10 10] >>\nendobj\n",
        ),
    ];
    let xref = bytes.len();
    bytes.extend_from_slice(b"xref\n0 8\n0000000000 65535 f \n");
    for offset in offsets {
        bytes.extend_from_slice(format!("{offset:010} 00000 n \n").as_bytes());
    }
    bytes.extend_from_slice(
        format!("trailer\n<< /Size 8 /Root 1 0 R >>\nstartxref\n{xref}\n%%EOF\n").as_bytes(),
    );
    bytes
}

fn xref_stream_pdf() -> Vec<u8> {
    let mut bytes = b"%PDF-1.5\n".to_vec();
    let object_1 = push(&mut bytes, b"1 0 obj\n<< /Type /Catalog /Pages 2 0 R >>\nendobj\n");
    let object_2 = push(
        &mut bytes,
        b"2 0 obj\n<< /Type /Pages /Kids [3 0 R] /Count 1 /MediaBox [0 0 200 200] >>\nendobj\n",
    );
    let object_3 = push(&mut bytes, b"3 0 obj\n<< /Type /Page /Parent 2 0 R /Contents 4 0 R >>\nendobj\n");
    let object_4 = push(
        &mut bytes,
        b"4 0 obj\n<< /Length 23 >>\nstream\nBT /F1 12 Tf (Hi) Tj ET\nendstream\nendobj\n",
    );
    let xref_offset = bytes.len();
    let mut xref_data = Vec::new();
    push_xref_stream_entry(&mut xref_data, 0, 0, 65535);
    for offset in [object_1, object_2, object_3, object_4, xref_offset] {
        push_xref_stream_entry(&mut xref_data, 1, offset, 0);
    }
    bytes.extend_from_slice(
        format!(
            "5 0 obj\n<< /Type /XRef /Size 6 /Root 1 0 R /W [1 4 2] /Length {} >>\nstream\n",
            xref_data.len()
        )
        .as_bytes(),
    );
    bytes.extend_from_slice(&xref_data);
    bytes.extend_from_slice(format!("\nendstream\nendobj\nstartxref\n{xref_offset}\n%%EOF\n").as_bytes());
    bytes
}

fn object_stream_pdf() -> Vec<u8> {
    let mut bytes = b"%PDF-1.5\n".to_vec();
    let object_1 = push(&mut bytes, b"1 0 obj\n<< /Type /Catalog /Pages 2 0 R >>\nendobj\n");
    let object_2 = push(
        &mut bytes,
        b"2 0 obj\n<< /Type /Pages /Kids [3 0 R] /Count 1 /MediaBox [0 0 200 200] >>\nendobj\n",
    );
    let object_3 = push(
        &mut bytes,
        b"3 0 obj\n<< /Type /Page /Parent 2 0 R /Resources << /Font << /F1 5 0 R >> >> /Contents 4 0 R >>\nendobj\n",
    );
    let object_4 = push(
        &mut bytes,
        b"4 0 obj\n<< /Length 23 >>\nstream\nBT /F1 12 Tf (Hi) Tj ET\nendstream\nendobj\n",
    );
    let compressed = b"5 0 << /Type /Font /Subtype /Type1 /BaseFont /Helvetica >>";
    let object_6 = push(
        &mut bytes,
        format!("6 0 obj\n<< /Type /ObjStm /N 1 /First 4 /Length {} >>\nstream\n", compressed.len()).as_bytes(),
    );
    bytes.extend_from_slice(compressed);
    bytes.extend_from_slice(b"\nendstream\nendobj\n");
    let xref_offset = bytes.len();
    let mut xref_data = Vec::new();
    push_xref_stream_entry(&mut xref_data, 0, 0, 65535);
    for offset in [object_1, object_2, object_3, object_4] {
        push_xref_stream_entry(&mut xref_data, 1, offset, 0);
    }
    push_xref_stream_entry(&mut xref_data, 2, 6, 0);
    push_xref_stream_entry(&mut xref_data, 1, object_6, 0);
    push_xref_stream_entry(&mut xref_data, 1, xref_offset, 0);
    bytes.extend_from_slice(
        format!(
            "7 0 obj\n<< /Type /XRef /Size 8 /Root 1 0 R /W [1 4 2] /Length {} >>\nstream\n",
            xref_data.len()
        )
        .as_bytes(),
    );
    bytes.extend_from_slice(&xref_data);
    bytes.extend_from_slice(format!("\nendstream\nendobj\nstartxref\n{xref_offset}\n%%EOF\n").as_bytes());
    bytes
}

fn incremental_prev_pdf() -> Vec<u8> {
    let mut bytes = b"%PDF-1.4\n".to_vec();
    let object_1 = push(&mut bytes, b"1 0 obj\n<< /Type /Catalog /Pages 2 0 R >>\nendobj\n");
    let object_2 = push(
        &mut bytes,
        b"2 0 obj\n<< /Type /Pages /Kids [3 0 R] /Count 1 /MediaBox [0 0 200 200] >>\nendobj\n",
    );
    let object_3 = push(
        &mut bytes,
        b"3 0 obj\n<< /Type /Page /Parent 2 0 R /Resources << /Font << /F1 5 0 R /F2 6 0 R >> >> /Contents 4 0 R >>\nendobj\n",
    );
    let object_4 = push(
        &mut bytes,
        b"4 0 obj\n<< /Length 23 >>\nstream\nBT /F1 12 Tf (Hi) Tj ET\nendstream\nendobj\n",
    );
    let object_5_original = push(
        &mut bytes,
        b"5 0 obj\n<< /Type /Font /Subtype /Type1 /BaseFont /Helvetica >>\nendobj\n",
    );
    let first_xref = bytes.len();
    bytes.extend_from_slice(b"xref\n0 6\n0000000000 65535 f \n");
    for offset in [object_1, object_2, object_3, object_4, object_5_original] {
        bytes.extend_from_slice(format!("{offset:010} 00000 n \n").as_bytes());
    }
    bytes.extend_from_slice(
        format!("trailer\n<< /Size 6 /Root 1 0 R >>\nstartxref\n{first_xref}\n%%EOF\n").as_bytes(),
    );
    let object_5_updated = push(
        &mut bytes,
        b"5 0 obj\n<< /Type /Font /Subtype /Type1 /BaseFont /Courier /Updated true >>\nendobj\n",
    );
    let object_6 = push(
        &mut bytes,
        b"6 0 obj\n<< /Type /Font /Subtype /Type1 /BaseFont /Times-Roman /Added true >>\nendobj\n",
    );
    let second_xref = bytes.len();
    bytes.extend_from_slice(b"xref\n5 2\n");
    for offset in [object_5_updated, object_6] {
        bytes.extend_from_slice(format!("{offset:010} 00000 n \n").as_bytes());
    }
    bytes.extend_from_slice(
        format!("trailer\n<< /Size 7 /Root 1 0 R /Prev {first_xref} >>\nstartxref\n{second_xref}\n%%EOF\n")
            .as_bytes(),
    );
    bytes
}

fn hybrid_xref_pdf() -> Vec<u8> {
    let mut bytes = b"%PDF-1.5\n".to_vec();
    let object_1 = push(&mut bytes, b"1 0 obj\n<< /Type /Catalog /Pages 2 0 R >>\nendobj\n");
    let object_2 = push(
        &mut bytes,
        b"2 0 obj\n<< /Type /Pages /Kids [3 0 R] /Count 1 /MediaBox [0 0 200 200] >>\nendobj\n",
    );
    let object_3 = push(
        &mut bytes,
        b"3 0 obj\n<< /Type /Page /Parent 2 0 R /Resources << /Font << /F1 5 0 R >> >> /Contents 4 0 R >>\nendobj\n",
    );
    let object_4 = push(
        &mut bytes,
        b"4 0 obj\n<< /Length 23 >>\nstream\nBT /F1 12 Tf (Hi) Tj ET\nendstream\nendobj\n",
    );
    let compressed = b"5 0 << /Type /Font /Subtype /Type1 /BaseFont /Helvetica >>";
    let object_6 = push(
        &mut bytes,
        format!("6 0 obj\n<< /Type /ObjStm /N 1 /First 4 /Length {} >>\nstream\n", compressed.len()).as_bytes(),
    );
    bytes.extend_from_slice(compressed);
    bytes.extend_from_slice(b"\nendstream\nendobj\n");
    let xref_stream_offset = bytes.len();
    let mut xref_data = Vec::new();
    push_xref_stream_entry(&mut xref_data, 2, 6, 0);
    bytes.extend_from_slice(
        format!(
            "7 0 obj\n<< /Type /XRef /Size 8 /Index [5 1] /W [1 4 2] /Length {} >>\nstream\n",
            xref_data.len()
        )
        .as_bytes(),
    );
    bytes.extend_from_slice(&xref_data);
    bytes.extend_from_slice(b"\nendstream\nendobj\n");
    let classic_xref = bytes.len();
    bytes.extend_from_slice(b"xref\n0 8\n0000000000 65535 f \n");
    for offset in [object_1, object_2, object_3, object_4] {
        bytes.extend_from_slice(format!("{offset:010} 00000 n \n").as_bytes());
    }
    bytes.extend_from_slice(b"0000000000 00000 f \n");
    for offset in [object_6, xref_stream_offset] {
        bytes.extend_from_slice(format!("{offset:010} 00000 n \n").as_bytes());
    }
    bytes.extend_from_slice(
        format!(
            "trailer\n<< /Size 8 /Root 1 0 R /XRefStm {xref_stream_offset} >>\nstartxref\n{classic_xref}\n%%EOF\n"
        )
        .as_bytes(),
    );
    bytes
}

#[test]
fn lazy_open_reads_metadata_without_full_scan() {
    let file = minimal_pdf();
    let document = open_lazy_pdf(&file, "lazy.pdf").expect("lazy open");

    assert_eq!(document.metadata.pdf_version.as_deref(), Some("1.4"));
    assert_eq!(document.metadata.root, Some(ObjectRef::new(1, 0)));
    assert_eq!(document.metadata.page_count, Some(1));
    assert_eq!(document.metadata.object_count, 5);
    assert_eq!(document.metadata.xref_entry_count, 6);

    let inspection = inspect_lazy_object(&file, ObjectRef::new(1, 0)).expect("inspect object");
    assert_eq!(inspection.object_type, "dictionary");
    assert_eq!(inspection.references, vec![ObjectRef::new(2, 0)]);
}

#[test]
fn lazy_stream_view_reads_selected_stream_bytes() {
    let file = page_pdf();
    let view = view_lazy_stream(&file, ObjectRef::new(4, 0)).expect("view lazy stream");

    assert_eq!(view.reference, ObjectRef::new(4, 0));
    assert_eq!(view.declared_length, Some(23));
    assert_eq!(view.actual_length, 23);
    assert_eq!(view.decoded_length, Some(23));
    assert!(view.decode_issues.is_empty());
    assert!(view.raw_text.contains("BT /F1 12 Tf"));
    assert!(view.hex_text.contains("42 54 20 2f"));
    assert_eq!(view.decoded_text.as_deref(), Some("BT /F1 12 Tf (Hi) Tj ET"));
    assert!(view.can_export_raw);
    assert!(view.can_export_decoded);

    let raw = read_lazy_stream_raw_bytes(&file, ObjectRef::new(4, 0)).expect("raw bytes");
    assert_eq!(raw, b"BT /F1 12 Tf (Hi) Tj ET");
    let decoded = read_lazy_stream_decoded_bytes(&file, ObjectRef::new(4, 0)).expect("decoded bytes");
    assert_eq!(decoded, b"BT /F1 12 Tf (Hi) Tj ET");
}

#[test]
fn lazy_open_supports_xref_stream_offsets() {
    let file = xref_stream_pdf();
    let document = open_lazy_pdf(&file, "xref-stream.pdf").expect("lazy open xref stream PDF");
    assert_eq!(document.metadata.root, Some(ObjectRef::new(1, 0)));
    assert!(document.metadata.has_xref_stream);
    assert_eq!(document.metadata.page_count, Some(1));

    let inspection = inspect_lazy_object(&file, ObjectRef::new(3, 0)).expect("inspect page");
    assert_eq!(inspection.reference, ObjectRef::new(3, 0));
    assert_eq!(inspection.object_type, "dictionary");
}

#[test]
fn lazy_object_inspector_expands_object_stream_member() {
    let file = object_stream_pdf();
    let document = open_lazy_pdf(&file, "object-stream.pdf").expect("lazy open object stream PDF");
    assert!(document.metadata.has_object_stream);

    let inspection = inspect_lazy_object(&file, ObjectRef::new(5, 0)).expect("inspect compressed object");
    assert_eq!(inspection.reference, ObjectRef::new(5, 0));
    assert_eq!(inspection.object_type, "dictionary");
    assert!(inspection.dictionary_keys.contains(&"BaseFont".to_string()));
}

#[test]
fn lazy_xref_merges_incremental_prev_chain_with_latest_entries_winning() {
    let file = incremental_prev_pdf();
    let document = open_lazy_pdf(&file, "incremental-prev.pdf").expect("lazy open incremental PDF");
    assert_eq!(document.metadata.root, Some(ObjectRef::new(1, 0)));
    assert_eq!(document.metadata.object_count, 6);
    assert_eq!(document.metadata.xref_entry_count, 7);

    let original_page = inspect_lazy_object(&file, ObjectRef::new(3, 0)).expect("inspect page");
    assert_eq!(original_page.object_type, "dictionary");

    let updated_font = inspect_lazy_object(&file, ObjectRef::new(5, 0)).expect("inspect updated font");
    assert!(updated_font.dictionary_keys.contains(&"Updated".to_string()));

    let new_font = inspect_lazy_object(&file, ObjectRef::new(6, 0)).expect("inspect new font");
    assert!(new_font.dictionary_keys.contains(&"Added".to_string()));
}

#[test]
fn lazy_xref_reads_hybrid_xref_stream_entries() {
    let file = hybrid_xref_pdf();
    let document = open_lazy_pdf(&file, "hybrid-xref.pdf").expect("lazy open hybrid PDF");
    assert!(document.metadata.has_xref_stream);
    assert!(document.metadata.has_object_stream);
    assert_eq!(document.metadata.root, Some(ObjectRef::new(1, 0)));

    let page = inspect_lazy_object(&file, ObjectRef::new(3, 0)).expect("inspect classic page");
    assert_eq!(page.object_type, "dictionary");

    let compressed_font = inspect_lazy_object(&file, ObjectRef::new(5, 0)).expect("inspect hybrid font");
    assert_eq!(compressed_font.object_type, "dictionary");
    assert!(compressed_font.dictionary_keys.contains(&"BaseFont".to_string()));
}

#[test]
fn lazy_open_records_metadata_details() {
    let file = incremental_prev_pdf();
    let document = open_lazy_pdf(&file, "incremental-prev.pdf").expect("lazy open");
    assert_eq!(document.metadata.file_name, "incremental-prev.pdf");
    assert_eq!(document.metadata.file_size, file.len());
    assert_eq!(document.metadata.incremental_update_count, 1);
    assert!(!document.metadata.encrypted);
    assert!(!document.metadata.linearized);
    assert_eq!(document.metadata.trailer_keys, vec!["Prev".to_string(), "Root".to_string(), "Size".to_string()]);
    assert_eq!(document.metadata.parse_warning_count, document.warnings.len());
    let references: Vec<u32> = document.xref.entries.iter().map(|entry| entry.reference.object).collect();
    assert_eq!(references, vec![0, 1, 2, 3, 4, 5, 6]);
}

#[test]
fn lazy_open_without_startxref_has_no_entries_and_warns_on_missing_header() {
    let file = b"not a pdf at all".to_vec();
    let document = open_lazy_pdf(&file, "plain.txt").expect("lazy open still succeeds");
    assert_eq!(document.metadata.pdf_version, None);
    assert_eq!(document.metadata.xref_entry_count, 0);
    assert_eq!(document.xref.startxref, None);
    assert_eq!(document.warnings.len(), 1);
    assert_eq!(document.warnings[0].rule_id, "lazy.header_missing");
}

#[test]
fn lazy_open_fails_when_startxref_points_outside_the_file() {
    let file = b"%PDF-1.4\nstartxref\n999999\n%%EOF\n".to_vec();
    match open_lazy_pdf(&file, "bad.pdf") {
        Err(PdfDebuggerError::LazyOpen { message }) => {
            assert_eq!(message, "startxref offset 999999 is outside the file");
        }
        other => panic!("unexpected result: {other:?}"),
    }
}

#[test]
fn lazy_reads_report_missing_objects_and_non_streams() {
    let file = minimal_pdf();
    match inspect_lazy_object(&file, ObjectRef::new(42, 0)) {
        Err(PdfDebuggerError::ObjectNotFound { reference }) => assert_eq!(reference, ObjectRef::new(42, 0)),
        other => panic!("unexpected result: {other:?}"),
    }
    match view_lazy_stream(&file, ObjectRef::new(1, 0)) {
        Err(PdfDebuggerError::StreamNotFound { reference }) => assert_eq!(reference, ObjectRef::new(1, 0)),
        other => panic!("unexpected result: {other:?}"),
    }
}

#[test]
fn lazy_content_stream_carries_its_data() {
    let file = page_pdf();
    let stream = read_lazy_stream_for_content(&file, ObjectRef::new(4, 0)).expect("content stream");
    assert_eq!(stream.raw_bytes, b"BT /F1 12 Tf (Hi) Tj ET");
    assert_eq!(stream.actual_length, 23);
    assert_eq!(stream.raw_range.end - stream.raw_range.start, 23);
}

#[test]
fn lazy_page_index_reads_pages_and_inherited_metadata() {
    let file = page_pdf();
    let mut document = open_lazy_pdf(&file, "lazy-pages.pdf").expect("lazy open");
    let index = build_lazy_page_index(&mut document, &file);

    assert_eq!(index.pages.len(), 1);
    let page = &index.pages[0];
    assert_eq!(page.reference, ObjectRef::new(3, 0));
    let (width, height) = box_size(page.media_box.as_ref().unwrap());
    assert_eq!(width, 200.0);
    assert_eq!(height, 300.0);
    assert_eq!(page.crop_box.as_ref().unwrap().lower_left_x.parse::<f64>().unwrap(), 10.0);
    assert_eq!(page.rotation, Some(90));
    assert_eq!(page.resources.fonts, 1);
    assert_eq!(page.resources.xobjects, 1);
    assert_eq!(page.resources.images, 1);
    assert_eq!(page.resources.contents, 1);
    assert_eq!(page.resources.annotations, 1);
    assert!(page
        .links
        .iter()
        .any(|link| link.kind == PageObjectLinkKind::Image && link.reference == ObjectRef::new(6, 0)));
}

#[test]
fn lazy_page_list_keeps_boxes_without_resources() {
    let file = page_pdf();
    let mut document = open_lazy_pdf(&file, "lazy-pages.pdf").expect("lazy open");
    let index = build_lazy_page_list(&mut document, &file);
    assert_eq!(index.pages.len(), 1);
    let page = &index.pages[0];
    assert_eq!(page.page_number, 1);
    assert_eq!(page.bleed_box.as_ref().unwrap().upper_right_y, "290");
    assert_eq!(page.resources.fonts, 0);
    assert_eq!(page.links.len(), 2);
    assert_eq!(page.links[1].kind, PageObjectLinkKind::Parent);
    assert_eq!(document.metadata.parse_warning_count, document.warnings.len());
}

#[test]
fn lazy_page_metadata_finds_one_page_or_reports_why_not() {
    let file = page_pdf();
    let mut document = open_lazy_pdf(&file, "lazy-pages.pdf").expect("lazy open");
    let page = build_lazy_page_metadata(&mut document, &file, 1).expect("page 1");
    assert_eq!(page.reference, ObjectRef::new(3, 0));
    match build_lazy_page_metadata(&mut document, &file, 0) {
        Err(PdfDebuggerError::LazyOpen { message }) => assert_eq!(message, "Page numbers start at 1."),
        other => panic!("unexpected result: {other:?}"),
    }
    match build_lazy_page_metadata(&mut document, &file, 2) {
        Err(PdfDebuggerError::LazyOpen { message }) => {
            assert_eq!(message, "Page 2 was not found in the lazy page tree")
        }
        other => panic!("unexpected result: {other:?}"),
    }
}

#[test]
fn lazy_page_index_without_root_warns() {
    let file = b"not a pdf at all".to_vec();
    let mut document = open_lazy_pdf(&file, "plain.txt").expect("lazy open");
    let index = build_lazy_page_index(&mut document, &file);
    assert!(index.pages.is_empty());
    assert_eq!(document.warnings.last().unwrap().rule_id, "lazy.page_tree.root_missing");
    assert_eq!(document.metadata.parse_warning_count, 2);
}

#[test]
fn lazy_object_tree_lists_trailer_catalog_and_xref() {
    let file = minimal_pdf();
    let document = open_lazy_pdf(&file, "lazy.pdf").expect("lazy open");
    let tree = lazy_pdf_to_object_tree(&document);
    assert_eq!(tree.kind, ObjectTreeNodeKind::Root);
    assert_eq!(tree.summary.as_deref(), Some("lazy open, 6 xref entrie(s), 5 in-use object(s)"));
    assert_eq!(tree.children.len(), 3);
    assert_eq!(tree.children[0].label, "Trailer");
    assert_eq!(tree.children[0].children.len(), 2);
    assert_eq!(tree.children[1].object, Some(ObjectRef::new(1, 0)));
    let xref = &tree.children[2];
    assert_eq!(xref.children.len(), 5);
    assert_eq!(xref.children[0].label, "1 0 R");
    assert!(xref.summary.as_deref().unwrap().starts_with("startxref "));
}
