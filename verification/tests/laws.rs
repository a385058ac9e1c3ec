use pdf_debugger::pdf_parser::object_starts_from_captures;
use pdf_debugger::lazy_diagnostics::build_lazy_report;
use pdf_debugger::lazy_open::open_lazy_pdf;
use pdf_debugger::report::{
    build_report, render_lazy_markdown_report, render_markdown_report, LazyEnrichmentDetail,
    LazyReportEnrichment,
};
use pdf_debugger::pdf_model::{DiagnosticSummary, Finding, Severity};
use pdf_debugger::pdf_parser::parse_bytes;
use pdf_debugger::content_ops::{analyze_content_stream, group_operators, tokenize_content_stream};
use pdf_debugger::pdf_string::{decode_pdf_hex_string, decode_pdf_string};
use pdf_debugger::stream_decode::{decode_filter_chain, decode_filter_chain_with_limit, DecodeStepStatus};
use pdf_debugger::stream_viewer::hex_dump;

#[test]
fn balanced_known_operators_draw_no_warning() {
    let a = analyze_content_stream(b"q BT /F1 12 Tf (Hi) Tj ET Q");
    assert!(a.warnings.is_empty());
    let b = analyze_content_stream(b"q ZZ BT ET YY");
    let unknown = b.warnings.iter().filter(|w| w.rule_id == "content.unknown_operator").count();
    assert_eq!(unknown, 2);
    assert!(b.warnings.iter().any(|w| w.rule_id == "content.unbalanced_graphics_state"));
}

#[test]
fn plain_tokens_group_one_operator_per_keyword() {
    let tokens = tokenize_content_stream(b"1 0 0 1 5 5 cm % note\n true /F1 12 Tf null ET");
    let ops = group_operators(&tokens);
    let names: Vec<&str> = ops.iter().map(|o| o.name.as_str()).collect();
    assert_eq!(names, vec!["cm", "Tf", "ET"]);
    assert_eq!(ops[0].operands.len(), 6);
    assert_eq!(ops[1].operands.len(), 3);
    assert_eq!(ops[1].operands[0].lexeme, "true");
    assert_eq!(ops[2].operands.len(), 1);
    assert_eq!(ops[2].operands[0].lexeme, "null");
}

#[test]
fn filter_chain_stops_at_the_first_unsupported_filter() {
    let r = decode_filter_chain(
        b"48656c6c6f>".to_vec(),
        &["ASCIIHexDecode".to_string(), "Mystery".to_string(), "ASCIIHexDecode".to_string()],
    );
    assert_eq!(r.issues.len(), 1);
    assert_eq!(r.steps.len(), 2);
    assert_eq!(r.steps[0].status, DecodeStepStatus::Decoded);
    assert_eq!(r.steps[1].status, DecodeStepStatus::Unsupported);
    assert_eq!(r.issues[0].filter, "Mystery");
    assert_eq!(r.decoded, b"Hello".to_vec());
    assert_eq!(r.decoded_length, 5);
}

#[test]
fn decoding_never_reports_more_than_the_limit() {
    let over = decode_filter_chain_with_limit(b"48656c6c6f>".to_vec(), &["ASCIIHexDecode".to_string()], Some(3));
    assert!(over.decoded_length <= 3);
    assert_eq!(over.issues.len(), 1);
    let raw = decode_filter_chain_with_limit(b"0123456789".to_vec(), &[], Some(4));
    assert_eq!(raw.decoded_length, 0);
    let fits = decode_filter_chain_with_limit(b"4869>".to_vec(), &["AHx".to_string()], Some(5));
    assert!(fits.issues.is_empty());
    assert_eq!(fits.decoded_length, fits.decoded.len());
    assert_eq!(fits.decoded, b"Hi".to_vec());
}

#[test]
fn hex_dump_has_one_line_per_sixteen_bytes() {
    assert_eq!(hex_dump(b""), "");
    let bytes: Vec<u8> = (0u8..33).collect();
    let dump = hex_dump(&bytes);
    assert!(dump.ends_with('\n'));
    assert_eq!(dump.matches('\n').count(), 3);
    let dump16 = hex_dump(&bytes[..16]);
    assert_eq!(dump16.matches('\n').count(), 1);
}

#[test]
fn hex_string_spelling_decodes_as_its_bytes() {
    let bytes = b"Hi \xfe\x01";
    let spelled = decode_pdf_hex_string("48 69\n20Fe 01");
    let direct = decode_pdf_string(bytes);
    assert_eq!(spelled.text, direct.text);
    assert_eq!(spelled.encoding, direct.encoding);
    assert_eq!(spelled.warnings, direct.warnings);
}

#[test]
fn lazy_markdown_shows_counts_banner_and_deferred_items() {
    let mut bytes = b"%PDF-1.4\n".to_vec();
    let catalog = bytes.len();
    bytes.extend_from_slice(b"1 0 obj\n<< /Type /Catalog /Pages 9 0 R >>\nendobj\n");
    let xref = bytes.len();
    bytes.extend_from_slice(b"xref\n0 2\n0000000000 65535 f \n");
    bytes.extend_from_slice(format!("{catalog:010} 00000 n \n").as_bytes());
    bytes.extend_from_slice(format!("trailer\n<< /Size 2 /Root 1 0 R >>\nstartxref\n{xref}\n%%EOF\n").as_bytes());
    let mut document = open_lazy_pdf(&bytes, "lazy.pdf").expect("lazy open");
    let report = build_lazy_report(&mut document, &bytes);
    let md = render_lazy_markdown_report(&report);
    let d = &report.diagnostics;
    assert!(md.contains(&format!("- Errors: {}\n- Warnings: {}\n- Info: {}\n\n", d.errors, d.warnings, d.info)));
    assert!(md.contains("> Lazy report. Fast diagnostics only. Deep diagnostics deferred.\n\n"));
    assert!(!md.contains("### Deep Diagnostics Enrichment\n\n"));
    for item in &report.deferred_deep_diagnostics {
        assert!(md.contains(&format!("- {item}\n")));
    }
    if d.warnings > 0 {
        assert!(md.contains("### Warnings\n\n"));
    }
    assert!(md.contains("### Suggested Next Steps\n\n"));
}

#[test]
fn captures_give_object_starts() {
    let bytes = b"12 0 obj\nxx 99999999999 0 obj 3 1 obj";
    let caps = vec![
        (0usize, 8usize, Some((0usize, 2usize)), Some((3usize, 4usize))),
        (12, 29, Some((12, 23)), Some((24, 25))),
        (30, 37, Some((30, 31)), Some((32, 33))),
        (0, 1, None, None),
    ];
    let starts = object_starts_from_captures(bytes, &caps);
    assert_eq!(starts.len(), 2);
    assert_eq!(starts[0].raw_start, 0);
    assert_eq!(starts[0].header_end, 8);
    assert_eq!(starts[0].reference, pdf_debugger::pdf_model::ObjectRef::new(12, 0));
    assert_eq!(starts[1].raw_start, 30);
    assert_eq!(starts[1].reference, pdf_debugger::pdf_model::ObjectRef::new(3, 1));
}

#[test]
fn tokens_are_increasing_with_whitespace_between() {
    let bytes = b"  q 1 0 0 1 5 5 cm\n%c\n/F1 12 Tf (a b) Tj <41> Tj Q  ";
    let tokens = tokenize_content_stream(bytes);
    let mut last = 0usize;
    for t in &tokens {
        assert!(t.byte_range.start < t.byte_range.end);
        assert!(last <= t.byte_range.start);
        assert!(bytes[last..t.byte_range.start].iter().all(|b| b.is_ascii_whitespace()));
        assert_eq!(t.raw_bytes, bytes[t.byte_range.start..t.byte_range.end].to_vec());
        last = t.byte_range.end;
    }
    assert!(bytes[last..].iter().all(|b| b.is_ascii_whitespace()));
}

fn small_lazy_pdf() -> Vec<u8> {
    let mut bytes = b"%PDF-1.4\n".to_vec();
    let catalog = bytes.len();
    bytes.extend_from_slice(b"1 0 obj\n<< /Type /Catalog /Pages 9 0 R >>\nendobj\n");
    let xref = bytes.len();
    bytes.extend_from_slice(b"xref\n0 2\n0000000000 65535 f \n");
    bytes.extend_from_slice(format!("{catalog:010} 00000 n \n").as_bytes());
    bytes.extend_from_slice(format!("trailer\n<< /Size 2 /Root 1 0 R >>\nstartxref\n{xref}\n%%EOF\n").as_bytes());
    bytes
}

#[test]
fn lazy_markdown_swaps_banner_for_enrichment_heading() {
    let bytes = small_lazy_pdf();
    let mut document = open_lazy_pdf(&bytes, "lazy.pdf").expect("lazy open");
    let mut report = build_lazy_report(&mut document, &bytes);
    let before = render_lazy_markdown_report(&report);
    assert!(before.contains("> Lazy report. Fast diagnostics only. Deep diagnostics deferred.\n\n"));
    assert!(!before.contains("### Deep Diagnostics Enrichment\n\n"));
    report.enrichments.push(LazyReportEnrichment {
        scope: "stream".to_string(),
        target: "1 0 R".to_string(),
        page_number: None,
        reference: None,
        partial: false,
        summary: "decoded".to_string(),
        diagnostics: DiagnosticSummary { errors: 0, warnings: 0, info: 0 },
        findings: Vec::new(),
        warnings: Vec::new(),
        limitations: Vec::new(),
        details: vec![LazyEnrichmentDetail { name: "Filters".to_string(), value: "ASCIIHexDecode -> FlateDecode".to_string() }],
    });
    let after = render_lazy_markdown_report(&report);
    assert!(after.contains("### Deep Diagnostics Enrichment\n\n"));
    assert!(!after.contains("> Lazy report. Fast diagnostics only. Deep diagnostics deferred.\n\n"));
}

fn finding(severity: Severity, message: &str) -> Finding {
    Finding {
        rule_id: "rule".to_string(),
        severity,
        message: message.to_string(),
        object: None,
        page: None,
        byte_offset: None,
        suggested_next_step: format!("look at {message}"),
    }
}

#[test]
fn markdown_has_a_severity_heading_exactly_when_a_finding_has_that_severity() {
    let pdf = parse_bytes(&small_lazy_pdf(), "plain.pdf");
    let report = build_report(&pdf, vec![finding(Severity::Warning, "odd ## xref")]);
    let md = render_markdown_report(&report);
    assert!(md.contains("### Warnings\n\n"));
    assert!(!md.contains("### Errors\n\n"));
    assert!(!md.contains("### Info\n\n"));
    assert!(md.ends_with("### Suggested Next Steps\n\n- look at odd ## xref\n"));
    let empty = render_markdown_report(&build_report(&pdf, Vec::new()));
    assert!(!empty.contains("### Warnings\n\n"));
    assert!(empty.ends_with("- No diagnostics were emitted. Keep this report with the fixture for regression tracking.\n"));
}
