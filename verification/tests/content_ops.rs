use pdf_debugger::content_ops::{analyze_content_stream, content_stream_tokenizable, font_names_used, xobject_names_used};

#[test]
fn extracts_operators_and_resources() {
    let analysis = analyze_content_stream(b"BT /F1 12 Tf (Hi) Tj ET /Im1 Do");

    assert_eq!(
        analysis.operators.iter().map(|operator| operator.name.as_str()).collect::<Vec<_>>(),
        vec!["BT", "Tf", "Tj", "ET", "Do"]
    );
    assert_eq!(font_names_used(&analysis), vec!["F1".to_string()]);
    assert_eq!(xobject_names_used(&analysis), vec!["Im1".to_string()]);
    assert!(analysis.warnings.is_empty());
}

#[test]
fn warns_for_unknown_operator() {
    let analysis = analyze_content_stream(b"BT /F1 12 Tf ZZ ET");

    assert!(analysis.warnings.iter().any(|warning| warning.rule_id == "content.unknown_operator"));
}

#[test]
fn warns_for_unclosed_text_object() {
    let analysis = analyze_content_stream(b"BT /F1 12 Tf (Hi) Tj");

    assert!(analysis.warnings.iter().any(|warning| warning.rule_id == "content.unclosed_text_object"));
}

#[test]
fn stray_closing_delimiter_is_not_tokenizable() {
    assert!(!content_stream_tokenizable(b"BT ) ET"));
    assert!(content_stream_tokenizable(b"BT /F1 12 Tf (a) Tj ET"));
}

#[test]
fn font_names_are_sorted_and_unique() {
    let analysis = analyze_content_stream(b"BT /F2 9 Tf /F1 12 Tf /F2 10 Tf ET");
    assert_eq!(font_names_used(&analysis), vec!["F1".to_string(), "F2".to_string()]);
}
