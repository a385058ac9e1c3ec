use pdf_debugger::error::PdfDebuggerError;
use pdf_debugger::lazy_deep_diagnostics::{
    run_lazy_deep_diagnostics, run_lazy_object_deep_diagnostics, run_lazy_page_deep_diagnostics,
    run_lazy_stream_deep_diagnostics, LazyDeepDiagnosticRequest,
};
use pdf_debugger::lazy_diagnostics::{build_lazy_report, build_lazy_report_with_enrichments};
use pdf_debugger::lazy_open::open_lazy_pdf;
use pdf_debugger::pdf_model::{ObjectRef, Severity};
use pdf_debugger::report::LazyReportEnrichment;

fn push(bytes: &mut Vec<u8>, object: &[u8]) -> usize {
    let offset = bytes.len();
    bytes.extend_from_slice(object);
    offset
}

fn stream_object(object: u32, content: &[u8]) -> Vec<u8> {
    let mut bytes = Vec::new();
    bytes.extend_from_slice(format!("{object} 0 obj\n<< /Length {} >>\nstream\n", content.len()).as_bytes());
    bytes.extend_from_slice(content);
    bytes.extend_from_slice(b"\nendstream\nendobj\n");
    bytes
}

fn minimal_pdf(content: &[u8]) -> Vec<u8> {
    let mut bytes = b"%PDF-1.4\n".to_vec();
    let offsets = [
        push(&mut bytes, b"1 0 obj\n<< /Type /Catalog /Pages 2 0 R >>\nendobj\n"),
        push(
            &mut bytes,
            b"2 0 obj\n<< /Type /Pages /Kids [3 0 R] /Count 1 /MediaBox [0 0 200 200] >>\nendobj\n",
        ),
        push(
            &mut bytes,
            b"3 0 obj\n<< /Type /Page /Parent 2 0 R /Resources << /Font << /F1 5 0 R >> >> /Contents 4 0 R >>\nendobj\n",
        ),
        push(&mut bytes, &stream_object(4, content)),
        push(&mut bytes, b"5 0 obj\n<< /Type /Font /Subtype /Type1 /BaseFont /Helvetica >>\nendobj\n"),
    ];
    let xref = bytes.len();
    bytes.extend_from_slice(b"xref\n0 6\n0000000000 65535 f \n");
    for offset in offsets {
        bytes.extend_from_slice(format!("{offset:010} 00000 n \n").as_bytes());
    }
    bytes.extend_from_slice(format!("trailer\n<< /Size 6 /Root 1 0 R >>\nstartxref\n{xref}\n%%EOF\n").as_bytes());
    bytes
}

fn all_text(e: &LazyReportEnrichment) -> String {
    let mut text = format!("{} {} {}", e.scope, e.target, e.summary);
    for f in &e.findings {
        text.push_str(&f.message);
        text.push_str(&f.suggested_next_step);
    }
    for w in e.warnings.iter().chain(e.limitations.iter()) {
        text.push_str(w);
    }
    for d in &e.details {
        text.push_str(&d.name);
        text.push_str(&d.value);
    }
    text
}

#[test]
fn stream_deep_diagnostics_reports_content_operator_warnings_without_bytes() {
    let file = minimal_pdf(b"BT /F1 12 Tf ZZ ET");
    let mut document = open_lazy_pdf(&file, "lazy-deep.pdf").expect("lazy open");
    let enrichment = run_lazy_deep_diagnostics(
        &mut document,
        &file,
        LazyDeepDiagnosticRequest::Stream { reference: ObjectRef::new(4, 0) },
    )
    .expect("stream enrichment");

    assert_eq!(enrichment.scope, "stream");
    assert!(enrichment.findings.iter().any(|finding| {
        finding.rule_id == "lazy.deep.content.unknown_operator" && finding.object == Some(ObjectRef::new(4, 0))
    }));
    assert!(!all_text(&enrichment).contains("BT /F1 12 Tf"));
}

#[test]
fn page_deep_diagnostics_marks_page_object_extraction_partial() {
    let file = minimal_pdf(b"BT /F1 12 Tf (Hi) Tj ET");
    let mut document = open_lazy_pdf(&file, "lazy-page.pdf").expect("lazy open");
    let enrichment =
        run_lazy_deep_diagnostics(&mut document, &file, LazyDeepDiagnosticRequest::Page { page_number: 1 })
            .expect("page enrichment");

    assert_eq!(enrichment.scope, "page");
    assert!(enrichment.partial);
    assert!(enrichment
        .limitations
        .iter()
        .any(|limitation| limitation.contains("page object extraction")));
}

#[test]
fn stream_deep_diagnostics_exact_details() {
    let file = minimal_pdf(b"BT /F1 12 Tf ZZ ET");
    let document = open_lazy_pdf(&file, "lazy-deep.pdf").expect("lazy open");
    let e = run_lazy_stream_deep_diagnostics(&document, &file, ObjectRef::new(4, 0), Some(1)).expect("stream");
    assert_eq!(e.target, "Stream 4 0 R");
    assert_eq!(e.page_number, Some(1));
    assert!(!e.partial);
    let detail = |name: &str| e.details.iter().find(|d| d.name == name).map(|d| d.value.clone());
    assert_eq!(detail("Declared length").as_deref(), Some("18"));
    assert_eq!(detail("Actual length").as_deref(), Some("18"));
    assert_eq!(detail("Filters").as_deref(), Some("None"));
    assert_eq!(detail("Decoded length").as_deref(), Some("18"));
    assert_eq!(detail("Content operators").as_deref(), Some("4"));
    assert_eq!(detail("Operator sample").as_deref(), Some("BT Tf ZZ ET"));
    let unknown = e
        .findings
        .iter()
        .find(|f| f.rule_id == "lazy.deep.content.unknown_operator")
        .expect("unknown operator");
    assert_eq!(unknown.severity, Severity::Warning);
    assert_eq!(unknown.page, Some(1));
    let start: usize = detail("Raw range").unwrap().split("..").next().unwrap().parse().unwrap();
    assert_eq!(unknown.byte_offset, Some(start + 13));
    assert_eq!(e.diagnostics.warnings, e.findings.len());
}

#[test]
fn stream_deep_diagnostics_fail_for_a_non_stream() {
    let file = minimal_pdf(b"BT ET");
    let document = open_lazy_pdf(&file, "lazy-deep.pdf").expect("lazy open");
    let r = run_lazy_stream_deep_diagnostics(&document, &file, ObjectRef::new(5, 0), None);
    assert!(matches!(r, Err(PdfDebuggerError::StreamNotFound { .. })));
}

#[test]
fn object_deep_diagnostics_check_references_and_nest_the_stream() {
    let file = minimal_pdf(b"BT ET");
    let document = open_lazy_pdf(&file, "lazy-deep.pdf").expect("lazy open");
    let page = run_lazy_object_deep_diagnostics(&document, &file, ObjectRef::new(3, 0)).expect("object");
    assert_eq!(page.scope, "object");
    assert_eq!(page.summary, "Object 3 0 R lazy deep diagnostics inspected one indirect object and 3 reference(s).");
    assert!(page.findings.is_empty());
    assert!(!page.partial);

    let stream = run_lazy_object_deep_diagnostics(&document, &file, ObjectRef::new(4, 0)).expect("stream object");
    assert!(stream.details.iter().any(|d| d.name == "Stream actual length" && d.value == "5"));
    assert!(stream.details.iter().any(|d| d.name == "Stream Content operators" && d.value == "2"));
}

#[test]
fn object_deep_diagnostics_report_missing_references() {
    let mut bytes = b"%PDF-1.4\n".to_vec();
    let offsets = [push(&mut bytes, b"1 0 obj\n<< /Type /Catalog /Pages 9 0 R >>\nendobj\n")];
    let xref = bytes.len();
    bytes.extend_from_slice(b"xref\n0 2\n0000000000 65535 f \n");
    bytes.extend_from_slice(format!("{:010} 00000 n \n", offsets[0]).as_bytes());
    bytes.extend_from_slice(format!("trailer\n<< /Size 2 /Root 1 0 R >>\nstartxref\n{xref}\n%%EOF\n").as_bytes());
    let document = open_lazy_pdf(&bytes, "missing.pdf").expect("lazy open");
    let e = run_lazy_object_deep_diagnostics(&document, &bytes, ObjectRef::new(1, 0)).expect("object");
    assert_eq!(e.findings.len(), 1);
    assert_eq!(e.findings[0].rule_id, "object.missing_reference");
    assert_eq!(
        e.findings[0].message,
        "Object 1 0 R references 9 0 R, which is missing from the lazy xref table"
    );
    assert_eq!(e.diagnostics.errors, 1);
}

#[test]
fn page_deep_diagnostics_details_and_missing_page() {
    let file = minimal_pdf(b"BT /F1 12 Tf (Hi) Tj ET");
    let mut document = open_lazy_pdf(&file, "lazy-page.pdf").expect("lazy open");
    let e = run_lazy_page_deep_diagnostics(&mut document, &file, 1).expect("page");
    assert_eq!(e.target, "Page 1");
    assert_eq!(e.reference, Some(ObjectRef::new(3, 0)));
    assert!(e.details.iter().any(|d| d.name == "MediaBox" && d.value == "0 0 200 200"));
    assert!(e.details.iter().any(|d| d.name == "Rotation" && d.value == "0"));
    assert!(e.details.iter().any(|d| d.name == "Content stream 4 0 R"));
    assert_eq!(e.summary, "Page 1 lazy deep diagnostics inspected 4 link(s) and 1 content stream(s).");

    match run_lazy_page_deep_diagnostics(&mut document, &file, 7) {
        Err(PdfDebuggerError::LazyOpen { message }) => {
            assert_eq!(message, "page 7 was not found in the lazy page index")
        }
        _ => panic!("expected a missing page"),
    }
}

#[test]
fn lazy_report_counts_enrichment_findings_too() {
    let file = minimal_pdf(b"BT /F1 12 Tf ZZ ET");
    let mut document = open_lazy_pdf(&file, "lazy-deep.pdf").expect("lazy open");
    let plain = build_lazy_report(&mut document, &file);
    assert_eq!(plain.report_kind, "lazy_fast_diagnostics");
    assert_eq!(plain.open_mode, "lazy");
    assert_eq!(plain.deferred_deep_diagnostics.len(), 6);
    assert!(plain.enrichments.is_empty());
    let warnings = plain.diagnostics.warnings;

    let enrichment =
        run_lazy_stream_deep_diagnostics(&document, &file, ObjectRef::new(4, 0), None).expect("stream");
    let extra = enrichment.findings.len();
    assert!(extra > 0);
    let report = build_lazy_report_with_enrichments(&mut document, &file, vec![enrichment]);
    assert_eq!(report.enrichments.len(), 1);
    assert_eq!(report.diagnostics.warnings, warnings + extra);
}
