use pdf_debugger::object_tree::{build_object_tree, ObjectTreeNode, ObjectTreeNodeKind};
use pdf_debugger::pdf_model::ObjectRef;
use pdf_debugger::pdf_parser::parse_bytes;

fn push(bytes: &mut Vec<u8>, value: &[u8]) -> usize {
    let offset = bytes.len();
    bytes.extend_from_slice(value);
    offset
}

fn minimal_pdf() -> String {
    let content = b"BT /F1 12 Tf (Hi) Tj ET";
    let mut bytes = Vec::new();
    bytes.extend_from_slice(b"%PDF-1.4\n");
    let object_1 = push(&mut bytes, b"1 0 obj\n<< /Type /Catalog /Pages 2 0 R >>\nendobj\n");
    let object_2 = push(
        &mut bytes,
        b"2 0 obj\n<< /Type /Pages /Kids [3 0 R] /Count 1 /MediaBox [0 0 200 200] >>\nendobj\n",
    );
    let object_3 = push(
        &mut bytes,
        b"3 0 obj\n<< /Type /Page /Parent 2 0 R /Resources << /Font << /F1 5 0 R >> >> /Contents 4 0 R >>\nendobj\n",
    );
    let mut stream = Vec::new();
    stream.extend_from_slice(format!("4 0 obj\n<< /Length {} >>\nstream\n", content.len()).as_bytes());
    stream.extend_from_slice(content);
    stream.extend_from_slice(b"\nendstream\nendobj\n");
    let object_4 = push(&mut bytes, &stream);
    let object_5 = push(&mut bytes, b"5 0 obj\n<< /Type /Font /Subtype /Type1 /BaseFont /Helvetica >>\nendobj\n");
    let xref = bytes.len();
    bytes.extend_from_slice(b"xref\n0 6\n0000000000 65535 f \n");
    for offset in [object_1, object_2, object_3, object_4, object_5] {
        bytes.extend_from_slice(format!("{offset:010} 00000 n \n").as_bytes());
    }
    bytes.extend_from_slice(format!("trailer\n<< /Size 6 /Root 1 0 R >>\nstartxref\n{xref}\n%%EOF\n").as_bytes());
    String::from_utf8(bytes).unwrap()
}

fn flatten_labels(node: &ObjectTreeNode) -> Vec<String> {
    let mut labels = vec![node.label.clone()];
    for child in &node.children {
        labels.extend(flatten_labels(child));
    }
    labels
}

fn find<'a>(node: &'a ObjectTreeNode, label: &str) -> Option<&'a ObjectTreeNode> {
    if node.label == label {
        return Some(node);
    }
    node.children.iter().find_map(|child| find(child, label))
}

#[test]
fn builds_basic_tree_with_required_nodes() {
    let pdf = parse_bytes(minimal_pdf().as_bytes(), "tree.pdf");
    let tree = build_object_tree(&pdf);
    let labels = flatten_labels(&tree);

    assert!(labels.iter().any(|label| label == "Trailer"));
    assert!(labels.iter().any(|label| label == "Catalog"));
    assert!(labels.iter().any(|label| label == "Pages"));
    assert!(labels.iter().any(|label| label == "Page"));
    assert!(labels.iter().any(|label| label == "Resources"));
    assert!(labels.iter().any(|label| label == "Fonts"));
    assert!(labels.iter().any(|label| label == "Cross-reference"));
}

#[test]
fn tree_summaries_and_kinds() {
    let pdf = parse_bytes(minimal_pdf().as_bytes(), "tree.pdf");
    let tree = build_object_tree(&pdf);
    assert_eq!(tree.kind, ObjectTreeNodeKind::Root);
    assert_eq!(tree.summary.as_deref(), Some("5 object(s), 1 stream(s)"));
    let labels: Vec<&str> = tree.children.iter().map(|c| c.label.as_str()).collect();
    assert_eq!(labels, vec!["Trailer", "Catalog", "Cross-reference"]);

    let catalog = find(&tree, "Catalog").unwrap();
    assert_eq!(catalog.summary.as_deref(), Some("/Type /Catalog"));
    let pages = find(&tree, "Pages").unwrap();
    assert_eq!(pages.summary.as_deref(), Some("Count 1"));
    let page = find(&tree, "Page").unwrap();
    assert_eq!(page.object, Some(ObjectRef::new(3, 0)));
    assert_eq!(page.summary.as_deref(), Some("/Type /Page"));
    let font = find(&tree, "/F1").unwrap();
    assert_eq!(font.kind, ObjectTreeNodeKind::Font);
    assert_eq!(font.summary.as_deref(), Some("/Type /Font, /Subtype /Type1"));
    let contents = find(&tree, "Contents").unwrap();
    assert_eq!(contents.summary.as_deref(), Some("stream 23 byte(s)"));

    let xref = find(&tree, "Cross-reference").unwrap();
    let expected = format!("{} entrie(s), 0 invalid in-use offset(s)", pdf.metadata.xref_entry_count);
    assert_eq!(xref.summary.as_deref(), Some(expected.as_str()));
    assert_eq!(xref.children.len(), 5);
    assert_eq!(xref.children[0].label, "1 0 R");
    assert!(xref.children[0].summary.as_deref().unwrap().ends_with(", valid offset: true"));
}

#[test]
fn reports_orphans_and_page_tree_cycles() {
    let mut bytes = Vec::new();
    bytes.extend_from_slice(b"%PDF-1.4\n");
    let o1 = push(&mut bytes, b"1 0 obj\n<< /Type /Catalog /Pages 2 0 R >>\nendobj\n");
    let o2 = push(&mut bytes, b"2 0 obj\n<< /Type /Pages /Kids [2 0 R 7] /Count 1 >>\nendobj\n");
    let o3 = push(&mut bytes, b"3 0 obj\n(lonely)\nendobj\n");
    let xref = bytes.len();
    bytes.extend_from_slice(b"xref\n0 4\n0000000000 65535 f \n");
    for offset in [o1, o2, o3] {
        bytes.extend_from_slice(format!("{offset:010} 00000 n \n").as_bytes());
    }
    bytes.extend_from_slice(format!("trailer\n<< /Size 4 /Root 1 0 R >>\nstartxref\n{xref}\n%%EOF\n").as_bytes());
    let tree = build_object_tree(&parse_bytes(&bytes, "cycle.pdf"));

    let pages = find(&tree, "Pages").unwrap();
    assert_eq!(pages.children.len(), 2);
    assert_eq!(pages.children[0].kind, ObjectTreeNodeKind::Cycle);
    assert_eq!(pages.children[0].summary.as_deref(), Some("cyclic page tree reference"));
    assert_eq!(pages.children[1].label, "Kid");
    assert_eq!(pages.children[1].summary.as_deref(), Some("7"));

    let orphans = find(&tree, "Orphaned objects").unwrap();
    assert_eq!(orphans.summary.as_deref(), Some("1 object(s)"));
    assert_eq!(orphans.children[0].label, "3 0 R");
    assert_eq!(orphans.children[0].summary.as_deref(), Some("(lonely)"));
}

#[test]
fn missing_catalog_and_trailer() {
    let bytes = b"%PDF-1.4\n1 0 obj\n42\nendobj\n";
    let tree = build_object_tree(&parse_bytes(bytes, "bare.pdf"));
    let labels: Vec<&str> = tree.children.iter().map(|c| c.label.as_str()).collect();
    assert_eq!(labels[1], "Catalog missing");
    assert_eq!(tree.children[1].kind, ObjectTreeNodeKind::Missing);
}
