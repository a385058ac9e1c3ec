use pdf_debugger::lazy_diagnostics::{build_lazy_diagnostics_report, run_lazy_fast_diagnostics};
use pdf_debugger::lazy_open::open_lazy_pdf;
use pdf_debugger::pdf_model::{Finding, ObjectRef, Severity};

fn push(bytes: &mut Vec<u8>, object: &[u8]) -> usize {
    let offset = bytes.len();
    bytes.extend_from_slice(object);
    offset
}

fn with_xref(mut bytes: Vec<u8>, offsets: &[usize]) -> Vec<u8> {
    let xref = bytes.len();
    bytes.extend_from_slice(format!("xref\n0 {}\n0000000000 65535 f \n", offsets.len() + 1).as_bytes());
    for offset in offsets {
        bytes.extend_from_slice(format!("{offset:010} 00000 n \n").as_bytes());
    }
    bytes.extend_from_slice(
        format!(
            "trailer\n<< /Size {} /Root 1 0 R >>\nstartxref\n{xref}\n%%EOF\n",
            offsets.len() + 1
        )
        .as_bytes(),
    );
    bytes
}

fn diagnostic_pdf() -> Vec<u8> {
    let mut bytes = b"%PDF-1.4\n".to_vec();
    let offsets = [
        push(&mut bytes, b"1 0 obj\n<< /Type /Catalog /Pages 2 0 R >>\nendobj\n"),
        push(
            &mut bytes,
            b"2 0 obj\n<< /Type /Pages /Kids [3 0 R] /Count 1 /MediaBox [0 0 200 200] >>\nendobj\n",
        ),
        push(&mut bytes, b"3 0 obj\n<< /Type /Page /Parent 2 0 R /Contents 4 0 R >>\nendobj\n"),
        push(
            &mut bytes,
            b"4 0 obj\n<< /Length 23 /Filter /MysteryDecode >>\nstream\nBT /F1 12 Tf (Hi) Tj ET\nendstream\nendobj\n",
        ),
    ];
    with_xref(bytes, &offsets)
}

fn count(findings: &[Finding], rule: &str) -> usize {
    findings.iter().filter(|f| f.rule_id == rule).count()
}

#[test]
fn lazy_fast_diagnostics_reports_stream_metadata_without_decoding() {
    let file = diagnostic_pdf();
    let mut document = open_lazy_pdf(&file, "lazy-diagnostics.pdf").expect("lazy open");
    let findings = run_lazy_fast_diagnostics(&mut document, &file);

    assert!(findings
        .iter()
        .any(|finding| finding.rule_id == "stream.unsupported_filter"
            && finding.object == Some(ObjectRef::new(4, 0))));
    assert!(findings
        .iter()
        .any(|finding| finding.rule_id == "lazy.deep_diagnostics_deferred"));
    assert!(findings
        .iter()
        .all(|finding| !finding.message.contains("BT /F1")));
}

#[test]
fn lazy_fast_diagnostics_exact_messages_and_counts() {
    let file = diagnostic_pdf();
    let mut document = open_lazy_pdf(&file, "lazy-diagnostics.pdf").expect("lazy open");
    let report = build_lazy_diagnostics_report(&mut document, &file);
    let filter = report
        .findings
        .iter()
        .find(|f| f.rule_id == "stream.unsupported_filter")
        .expect("filter finding");
    assert_eq!(
        filter.message,
        "Stream 4 0 R uses unsupported or deferred filter /MysteryDecode; lazy fast diagnostics did not decode the stream bytes"
    );
    assert_eq!(filter.page, Some(1));
    assert_eq!(filter.severity, Severity::Warning);
    let last = report.findings.last().expect("findings");
    assert_eq!(last.rule_id, "lazy.deep_diagnostics_deferred");
    assert_eq!(last.object, Some(ObjectRef::new(1, 0)));
    let errors = report.findings.iter().filter(|f| f.severity == Severity::Error).count();
    let warnings = report.findings.iter().filter(|f| f.severity == Severity::Warning).count();
    let info = report.findings.iter().filter(|f| f.severity == Severity::Info).count();
    assert_eq!(report.diagnostics.errors, errors);
    assert_eq!(report.diagnostics.warnings, warnings);
    assert_eq!(report.diagnostics.info, info);
    assert_eq!(errors, 0);
}

#[test]
fn lazy_fast_diagnostics_report_missing_objects_and_media_box() {
    let mut bytes = b"%PDF-1.4\n".to_vec();
    let offsets = [
        push(&mut bytes, b"1 0 obj\n<< /Type /Catalog /Pages 2 0 R >>\nendobj\n"),
        push(&mut bytes, b"2 0 obj\n<< /Type /Pages /Kids [3 0 R] /Count 1 >>\nendobj\n"),
        push(
            &mut bytes,
            b"3 0 obj\n<< /Type /Page /Parent 2 0 R /Contents 9 0 R /Resources << /Font << /F1 9 0 R >> >> >>\nendobj\n",
        ),
    ];
    let file = with_xref(bytes, &offsets);
    let mut document = open_lazy_pdf(&file, "missing.pdf").expect("lazy open");
    let findings = run_lazy_fast_diagnostics(&mut document, &file);

    let media = findings
        .iter()
        .find(|f| f.rule_id == "page.missing_mediabox")
        .expect("media box finding");
    assert_eq!(media.message, "Page 1 (3 0 R) has no /MediaBox and does not inherit one");
    assert_eq!(media.object, Some(ObjectRef::new(3, 0)));

    // 9 0 R is linked twice but checked against the index once.
    let missing: Vec<&Finding> = findings
        .iter()
        .filter(|f| f.rule_id == "lazy.page_link_missing_from_xref")
        .collect();
    assert_eq!(missing.len(), 1);
    assert_eq!(missing[0].severity, Severity::Error);
    assert!(missing[0].message.ends_with("9 0 R is not present in the lazy xref table"));
    assert_eq!(count(&findings, "lazy.stream.metadata_unavailable"), 1);
    let unavailable = findings
        .iter()
        .find(|f| f.rule_id == "lazy.stream.metadata_unavailable")
        .expect("metadata finding");
    assert!(unavailable.message.starts_with("Could not read stream metadata for 9 0 R: "));
    assert_eq!(unavailable.byte_offset, None);

    for (i, a) in findings.iter().enumerate() {
        for b in &findings[i + 1..] {
            assert!(
                !(a.rule_id == b.rule_id
                    && a.object == b.object
                    && a.page == b.page
                    && a.byte_offset == b.byte_offset
                    && a.message == b.message)
            );
        }
    }
}

#[test]
fn lazy_fast_diagnostics_stop_reading_streams_at_the_limit() {
    let mut contents = String::from("[");
    for n in 100..400 {
        contents.push_str(&format!(" {n} 0 R"));
    }
    contents.push_str(" ]");
    let mut bytes = b"%PDF-1.4\n".to_vec();
    let page = format!(
        "3 0 obj\n<< /Type /Page /Parent 2 0 R /MediaBox [0 0 10 10] /Contents {contents} >>\nendobj\n"
    );
    let offsets = [
        push(&mut bytes, b"1 0 obj\n<< /Type /Catalog /Pages 2 0 R >>\nendobj\n"),
        push(&mut bytes, b"2 0 obj\n<< /Type /Pages /Kids [3 0 R] /Count 1 >>\nendobj\n"),
        push(&mut bytes, page.as_bytes()),
    ];
    let file = with_xref(bytes, &offsets);
    let mut document = open_lazy_pdf(&file, "many.pdf").expect("lazy open");
    let findings = run_lazy_fast_diagnostics(&mut document, &file);

    assert_eq!(count(&findings, "lazy.page_link_missing_from_xref"), 300);
    assert_eq!(count(&findings, "lazy.stream.metadata_unavailable"), 256);
    let limit: Vec<&Finding> = findings
        .iter()
        .filter(|f| f.rule_id == "lazy.fast_stream_metadata_limit")
        .collect();
    assert_eq!(limit.len(), 1);
    assert_eq!(limit[0].page, Some(1));
    assert_eq!(
        limit[0].message,
        "Lazy fast diagnostics checked the first 256 unique stream dictionaries and deferred additional stream metadata checks"
    );
}

#[test]
fn lazy_fast_diagnostics_report_open_warnings_and_missing_root() {
    let mut bytes = b"%PDF-1.4\n".to_vec();
    let offsets = [push(&mut bytes, b"1 0 obj\n<< /Type /Catalog >>\nendobj\n")];
    let xref = bytes.len();
    bytes.extend_from_slice(b"xref\n0 2\n0000000000 65535 f \n");
    bytes.extend_from_slice(format!("{:010} 00000 n \n", offsets[0]).as_bytes());
    bytes.extend_from_slice(format!("trailer\n<< /Size 2 >>\nstartxref\n{xref}\n%%EOF\n").as_bytes());
    let mut document = open_lazy_pdf(&bytes, "noroot.pdf").expect("lazy open");
    let findings = run_lazy_fast_diagnostics(&mut document, &bytes);

    assert_eq!(count(&findings, "lazy.root_missing"), 1);
    // The page index could not run, which the document now carries as a
    // warning, and the diagnostics report it.
    assert!(document.warnings.iter().any(|w| w.rule_id == "lazy.page_tree.root_missing"));
    assert_eq!(count(&findings, "lazy.page_tree.root_missing"), 1);
    let deferred = findings.last().expect("findings");
    assert_eq!(deferred.rule_id, "lazy.deep_diagnostics_deferred");
    assert_eq!(deferred.object, None);
    assert_eq!(deferred.byte_offset, document.xref.startxref);
}
