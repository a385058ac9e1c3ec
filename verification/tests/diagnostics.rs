use pdf_debugger::diagnostics::{run_diagnostics, run_diagnostics_checked};
use pdf_debugger::pdf_model::{Finding, ObjectRef, Severity};
use pdf_debugger::pdf_parser::parse_bytes;

fn push(bytes: &mut Vec<u8>, value: &[u8]) -> usize {
    let offset = bytes.len();
    bytes.extend_from_slice(value);
    offset
}

/// A document from numbered object bodies, with a classic xref table.
fn document(objects: &[&[u8]], trailer_extra: &str) -> Vec<u8> {
    let mut bytes = Vec::new();
    bytes.extend_from_slice(b"%PDF-1.4\n");
    let mut offsets = Vec::new();
    for (i, body) in objects.iter().enumerate() {
        let mut object = format!("{} 0 obj\n", i + 1).into_bytes();
        object.extend_from_slice(body);
        object.extend_from_slice(b"\nendobj\n");
        offsets.push(push(&mut bytes, &object));
    }
    let xref = bytes.len();
    bytes.extend_from_slice(format!("xref\n0 {}\n0000000000 65535 f \n", objects.len() + 1).as_bytes());
    for offset in offsets {
        bytes.extend_from_slice(format!("{offset:010} 00000 n \n").as_bytes());
    }
    bytes.extend_from_slice(
        format!("trailer\n<< /Size {} {trailer_extra} >>\nstartxref\n{xref}\n%%EOF\n", objects.len() + 1).as_bytes(),
    );
    bytes
}

fn stream_body(dictionary: &str, content: &[u8]) -> Vec<u8> {
    let mut body = format!("<< {dictionary} /Length {} >>\nstream\n", content.len()).into_bytes();
    body.extend_from_slice(content);
    body.extend_from_slice(b"\nendstream");
    body
}

fn missing_reference_pdf() -> String {
    let mut bytes = Vec::new();
    bytes.extend_from_slice(b"%PDF-1.4\n");
    let object_1 = push(&mut bytes, b"1 0 obj\n<< /Type /Catalog /Pages 2 0 R >>\nendobj\n");
    let object_2 = push(&mut bytes, b"2 0 obj\n<< /Type /Pages /Kids [99 0 R] /Count 1 >>\nendobj\n");
    let xref = bytes.len();
    bytes.extend_from_slice(b"xref\n0 3\n0000000000 65535 f \n");
    bytes.extend_from_slice(format!("{object_1:010} 00000 n \n").as_bytes());
    bytes.extend_from_slice(format!("{object_2:010} 00000 n \n").as_bytes());
    bytes.extend_from_slice(format!("trailer\n<< /Size 3 /Root 1 0 R >>\nstartxref\n{xref}\n%%EOF\n").as_bytes());
    String::from_utf8(bytes).unwrap()
}

fn page_content_pdf(content: &[u8]) -> String {
    let mut bytes = Vec::new();
    bytes.extend_from_slice(b"%PDF-1.4\n");
    let object_1 = push(&mut bytes, b"1 0 obj\n<< /Type /Catalog /Pages 2 0 R >>\nendobj\n");
    let object_2 = push(
        &mut bytes,
        b"2 0 obj\n<< /Type /Pages /Kids [3 0 R] /Count 1 /MediaBox [0 0 200 200] >>\nendobj\n",
    );
    let object_3 = push(
        &mut bytes,
        b"3 0 obj\n<< /Type /Page /Parent 2 0 R /Resources << /Font << /F1 5 0 R >> >> /Contents 4 0 R >>\nendobj\n",
    );
    let mut stream_object = Vec::new();
    stream_object.extend_from_slice(format!("4 0 obj\n<< /Length {} >>\nstream\n", content.len()).as_bytes());
    stream_object.extend_from_slice(content);
    stream_object.extend_from_slice(b"\nendstream\nendobj\n");
    let object_4 = push(&mut bytes, &stream_object);
    let object_5 = push(&mut bytes, b"5 0 obj\n<< /Type /Font /Subtype /Type1 /BaseFont /Helvetica >>\nendobj\n");
    let xref = bytes.len();
    bytes.extend_from_slice(b"xref\n0 6\n0000000000 65535 f \n");
    for offset in [object_1, object_2, object_3, object_4, object_5] {
        bytes.extend_from_slice(format!("{offset:010} 00000 n \n").as_bytes());
    }
    bytes.extend_from_slice(format!("trailer\n<< /Size 6 /Root 1 0 R >>\nstartxref\n{xref}\n%%EOF\n").as_bytes());
    String::from_utf8(bytes).unwrap()
}

fn with_rule<'a>(findings: &'a [Finding], rule: &str) -> Vec<&'a Finding> {
    findings.iter().filter(|f| f.rule_id == rule).collect()
}

#[test]
fn detects_missing_reference() {
    let pdf = parse_bytes(missing_reference_pdf().as_bytes(), "missing.pdf");
    let findings = run_diagnostics(&pdf);

    assert!(findings.iter().any(|finding| {
        finding.rule_id == "object.missing_reference" && finding.object == Some(ObjectRef::new(99, 0))
    }));
}

#[test]
fn detects_unknown_content_operator() {
    let pdf = parse_bytes(page_content_pdf(b"BT /F1 12 Tf (Hi) Tj ZZ ET").as_bytes(), "unknown-operator.pdf");
    let findings = run_diagnostics(&pdf);

    assert!(findings.iter().any(|finding| {
        finding.rule_id == "content.unknown_operator"
            && finding.object == Some(ObjectRef::new(3, 0))
            && finding.page == Some(1)
    }));
}

#[test]
fn missing_reference_finding_is_exact() {
    let pdf = parse_bytes(missing_reference_pdf().as_bytes(), "missing.pdf");
    let findings = run_diagnostics(&pdf);
    let missing = with_rule(&findings, "object.missing_reference");
    assert_eq!(missing.len(), 1);
    assert_eq!(missing[0].severity, Severity::Error);
    assert_eq!(missing[0].message, "Referenced object 99 0 R was not found among parsed indirect objects");
    let nodes = with_rule(&findings, "page_tree.missing_node");
    assert_eq!(nodes.len(), 1);
    assert_eq!(nodes[0].message, "Page tree node 99 0 R is missing");
}

#[test]
fn clean_page_has_no_content_findings() {
    let pdf = parse_bytes(page_content_pdf(b"BT /F1 12 Tf (Hi) Tj ET").as_bytes(), "clean.pdf");
    let findings = run_diagnostics(&pdf);
    assert!(findings.iter().all(|f| f.page.is_none()), "{findings:?}");
}

#[test]
fn reports_missing_font_resource() {
    let pdf = parse_bytes(page_content_pdf(b"BT /F2 12 Tf (Hi) Tj ET").as_bytes(), "font.pdf");
    let findings = run_diagnostics(&pdf);
    let fonts = with_rule(&findings, "page.missing_font_resource");
    assert_eq!(fonts.len(), 1);
    assert_eq!(fonts[0].message, "Page 1 references font /F2, but /F2 is not defined in page resources");
    assert_eq!(fonts[0].page, Some(1));
}

#[test]
fn reports_missing_xobject_resource() {
    let pdf = parse_bytes(page_content_pdf(b"q /Im1 Do Q").as_bytes(), "xobject.pdf");
    let findings = run_diagnostics(&pdf);
    let xobjects = with_rule(&findings, "page.missing_xobject_resource");
    assert_eq!(xobjects.len(), 1);
    assert_eq!(xobjects[0].message, "Page 1 invokes XObject /Im1, but /Im1 is not defined in page resources");
}

#[test]
fn content_warnings_name_the_page() {
    let pdf = parse_bytes(page_content_pdf(b"BT /F1 12 Tf (Hi) Tj").as_bytes(), "unclosed.pdf");
    let findings = run_diagnostics(&pdf);
    let unclosed: Vec<&Finding> = findings.iter().filter(|f| f.page == Some(1)).collect();
    assert_eq!(unclosed.len(), 1);
    assert!(unclosed[0].message.starts_with("Page 1 content stream: "));
    assert_eq!(unclosed[0].severity, Severity::Warning);
}

#[test]
fn stalling_content_is_refused_by_the_checked_run() {
    let pdf = parse_bytes(page_content_pdf(b"BT ) ET").as_bytes(), "stall.pdf");
    assert!(run_diagnostics_checked(&pdf).is_none());
    let pdf = parse_bytes(page_content_pdf(b"BT ET").as_bytes(), "fine.pdf");
    assert!(run_diagnostics_checked(&pdf).is_some());
}

#[test]
fn reports_missing_catalog() {
    let bytes = document(&[b"<< /Type /Pages /Kids [] /Count 0 >>"], "");
    let pdf = parse_bytes(&bytes, "no-root.pdf");
    let findings = run_diagnostics(&pdf);
    let missing = with_rule(&findings, "page_tree.missing_catalog");
    assert_eq!(missing.len(), 1);
    assert_eq!(missing[0].message, "Trailer does not contain a /Root catalog reference");
    assert_eq!(missing[0].object, None);
}

#[test]
fn reports_catalog_problems() {
    let bytes = document(&[b"42"], "/Root 1 0 R");
    let findings = run_diagnostics(&parse_bytes(&bytes, "a.pdf"));
    assert_eq!(with_rule(&findings, "page_tree.invalid_catalog_reference").len(), 1);

    let bytes = document(&[b"<< /Type /Catalog >>"], "/Root 1 0 R");
    let findings = run_diagnostics(&parse_bytes(&bytes, "b.pdf"));
    let missing = with_rule(&findings, "page_tree.missing_pages");
    assert_eq!(missing.len(), 1);
    assert_eq!(missing[0].message, "Catalog 1 0 R does not contain /Pages");

    let bytes = document(&[b"<< /Type /Catalog /Pages 7 >>"], "/Root 1 0 R");
    let findings = run_diagnostics(&parse_bytes(&bytes, "c.pdf"));
    let invalid = with_rule(&findings, "page_tree.invalid_pages_reference");
    assert_eq!(invalid.len(), 1);
    assert_eq!(invalid[0].message, "Catalog 1 0 R has /Pages that is not an object reference");
}

#[test]
fn reports_page_tree_cycle_once() {
    let bytes = document(
        &[
            b"<< /Type /Catalog /Pages 2 0 R >>",
            b"<< /Type /Pages /Kids [3 0 R] /Count 1 >>",
            b"<< /Type /Pages /Kids [2 0 R] /Count 1 >>",
        ],
        "/Root 1 0 R",
    );
    let findings = run_diagnostics(&parse_bytes(&bytes, "cycle.pdf"));
    let cycles = with_rule(&findings, "page_tree.cyclic_reference");
    assert_eq!(cycles.len(), 1);
    assert_eq!(cycles[0].message, "Page tree cycle detected at 2 0 R");
    assert_eq!(cycles[0].object, Some(ObjectRef::new(2, 0)));
}

#[test]
fn numbers_pages_and_reports_missing_mediabox() {
    let bytes = document(
        &[
            b"<< /Type /Catalog /Pages 2 0 R >>",
            b"<< /Type /Pages /Kids [3 0 R 4 0 R 5] /Count 2 >>",
            b"<< /Type /Page /Parent 2 0 R /MediaBox [0 0 10 10] >>",
            b"<< /Type /Page /Parent 2 0 R >>",
        ],
        "/Root 1 0 R",
    );
    let findings = run_diagnostics(&parse_bytes(&bytes, "pages.pdf"));
    let mediabox = with_rule(&findings, "page.missing_mediabox");
    assert_eq!(mediabox.len(), 1);
    assert_eq!(mediabox[0].message, "Page 2 (4 0 R) has no /MediaBox and does not inherit one");
    assert_eq!(mediabox[0].page, Some(2));
    let kids = with_rule(&findings, "page_tree.invalid_kid_reference");
    assert_eq!(kids.len(), 1);
    assert_eq!(kids[0].message, "/Pages node 2 0 R contains a /Kids entry that is not a reference");
}

#[test]
fn reports_pages_without_kids_and_bad_node_type() {
    let bytes = document(
        &[b"<< /Type /Catalog /Pages 2 0 R >>", b"<< /Type /Pages /Count 0 >>"],
        "/Root 1 0 R",
    );
    let findings = run_diagnostics(&parse_bytes(&bytes, "nokids.pdf"));
    assert_eq!(with_rule(&findings, "page_tree.pages_without_kids").len(), 1);

    let bytes = document(
        &[b"<< /Type /Catalog /Pages 2 0 R >>", b"<< /Type /Font >>"],
        "/Root 1 0 R",
    );
    let findings = run_diagnostics(&parse_bytes(&bytes, "badtype.pdf"));
    let bad = with_rule(&findings, "page_tree.invalid_node_type");
    assert_eq!(bad.len(), 1);
    assert_eq!(bad[0].message, "Page tree node 2 0 R has unexpected /Type Some(\"Font\")");

    let bytes = document(&[b"<< /Type /Catalog /Pages 2 0 R >>", b"[1 2]"], "/Root 1 0 R");
    let findings = run_diagnostics(&parse_bytes(&bytes, "notdict.pdf"));
    assert_eq!(with_rule(&findings, "page_tree.node_not_dictionary").len(), 1);
}

#[test]
fn reports_stream_length_mismatch_and_image_keys() {
    let mut image = b"<< /Type /XObject /Subtype /Image /Width 1 /Length 9 >>\nstream\n".to_vec();
    image.extend_from_slice(b"abc\nendstream");
    let bytes = document(&[b"<< /Type /Catalog /Pages 2 0 R >>", b"<< /Type /Pages /Kids [] /Count 0 >>", &image], "/Root 1 0 R");
    let findings = run_diagnostics(&parse_bytes(&bytes, "image.pdf"));
    let length = with_rule(&findings, "stream.length_mismatch");
    assert_eq!(length.len(), 1);
    assert_eq!(length[0].message, "Stream 3 0 R declares /Length 9, but 3 byte(s) were found before endstream");
    let keys: Vec<&str> = with_rule(&findings, "image.missing_required_key").iter().map(|f| f.message.as_str()).collect();
    assert_eq!(
        keys,
        vec![
            "Image stream 3 0 R is missing /Height",
            "Image stream 3 0 R is missing /ColorSpace",
            "Image stream 3 0 R is missing /BitsPerComponent",
        ]
    );
}

#[test]
fn reports_decode_failures_and_unsupported_filters() {
    let bad = stream_body("/Filter /FlateDecode", b"not zlib");
    let odd = stream_body("/Filter /JBIG2Decode", b"xx");
    let bytes = document(&[b"<< /Type /Catalog /Pages 2 0 R >>", b"<< /Type /Pages /Kids [] /Count 0 >>", &bad, &odd], "/Root 1 0 R");
    let findings = run_diagnostics(&parse_bytes(&bytes, "filters.pdf"));
    let failed = with_rule(&findings, "stream.decode_failed");
    assert_eq!(failed.len(), 1);
    assert_eq!(failed[0].severity, Severity::Error);
    assert!(failed[0].message.starts_with("Stream 3 0 R filter /FlateDecode could not be decoded: "));
    let unsupported = with_rule(&findings, "stream.unsupported_filter");
    assert_eq!(unsupported.len(), 1);
    assert_eq!(unsupported[0].severity, Severity::Warning);
    assert_eq!(unsupported[0].object, Some(ObjectRef::new(4, 0)));
}
