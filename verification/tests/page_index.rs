use pdf_debugger::page_index::{build_page_index, build_page_index_checked, PageBoxNumbers, PageObjectLinkKind};
use pdf_debugger::pdf_model::ObjectRef;
use pdf_debugger::pdf_parser::parse_bytes;

fn push(bytes: &mut Vec<u8>, value: &[u8]) -> usize {
    let offset = bytes.len();
    bytes.extend_from_slice(value);
    offset
}

fn number(text: &str) -> f64 {
    text.parse().unwrap()
}

fn width(b: &PageBoxNumbers) -> f64 {
    (number(&b.upper_right_x) - number(&b.lower_left_x)).abs()
}

fn height(b: &PageBoxNumbers) -> f64 {
    (number(&b.upper_right_y) - number(&b.lower_left_y)).abs()
}

fn document(objects: &[&[u8]]) -> Vec<u8> {
    let mut bytes = Vec::new();
    bytes.extend_from_slice(b"%PDF-1.4\n");
    let mut offsets = Vec::new();
    for (i, body) in objects.iter().enumerate() {
        let mut object = format!("{} 0 obj\n", i + 1).into_bytes();
        object.extend_from_slice(body);
        object.extend_from_slice(b"\nendobj\n");
        offsets.push(push(&mut bytes, &object));
    }
    let xref = bytes.len();
    bytes.extend_from_slice(format!("xref\n0 {}\n0000000000 65535 f \n", objects.len() + 1).as_bytes());
    for offset in offsets {
        bytes.extend_from_slice(format!("{offset:010} 00000 n \n").as_bytes());
    }
    bytes.extend_from_slice(
        format!("trailer\n<< /Size {} /Root 1 0 R >>\nstartxref\n{xref}\n%%EOF\n", objects.len() + 1).as_bytes(),
    );
    bytes
}

fn page_pdf() -> String {
    let mut bytes = Vec::new();
    bytes.extend_from_slice(b"%PDF-1.4\n");
    let offsets = [
        push(&mut bytes, b"1 0 obj\n<< /Type /Catalog /Pages 2 0 R >>\nendobj\n"),
        push(
            &mut bytes,
            b"2 0 obj\n<< /Type /Pages /Kids [3 0 R] /Count 1 /MediaBox [0 0 200 300] /CropBox [10 20 190 280] /Rotate 90 /Resources << /Font << /F1 5 0 R >> /XObject << /Im1 6 0 R >> >> >>\nendobj\n",
        ),
        push(
            &mut bytes,
            b"3 0 obj\n<< /Type /Page /Parent 2 0 R /BleedBox [5 5 195 290] /Contents 4 0 R /Annots [7 0 R] >>\nendobj\n",
        ),
        push(&mut bytes, b"4 0 obj\n<< /Length 23 >>\nstream\nBT /F1 12 Tf (Hi) Tj ET\nendstream\nendobj\n"),
        push(&mut bytes, b"5 0 obj\n<< /Type /Font /Subtype /Type1 /BaseFont /Helvetica >>\nendobj\n"),
        push(
            &mut bytes,
            b"6 0 obj\n<< /Type /XObject /Subtype /Image /Width 1 /Height 1 /ColorSpace /DeviceRGB /BitsPerComponent 8 /Length 3 >>\nstream\nabc\nendstream\nendobj\n",
        ),
        push(&mut bytes, b"7 0 obj\n<< /Type /Annot /Subtype /Text /Rect [0 0 10 10] >>\nendobj\n"),
    ];
    let xref = bytes.len();
    bytes.extend_from_slice(b"xref\n0 8\n0000000000 65535 f \n");
    for offset in offsets {
        bytes.extend_from_slice(format!("{offset:010} 00000 n \n").as_bytes());
    }
    bytes.extend_from_slice(format!("trailer\n<< /Size 8 /Root 1 0 R >>\nstartxref\n{xref}\n%%EOF\n").as_bytes());
    String::from_utf8(bytes).unwrap()
}

#[test]
fn builds_page_index_with_inherited_boxes_and_resources() {
    let pdf = parse_bytes(page_pdf().as_bytes(), "pages.pdf");
    let index = build_page_index(&pdf);

    assert_eq!(index.pages.len(), 1);
    let page = &index.pages[0];
    assert_eq!(page.page_number, 1);
    assert_eq!(page.reference, ObjectRef::new(3, 0));
    assert_eq!(width(page.media_box.as_ref().unwrap()), 200.0);
    assert_eq!(height(page.media_box.as_ref().unwrap()), 300.0);
    assert_eq!(number(&page.crop_box.as_ref().unwrap().lower_left_x), 10.0);
    assert_eq!(number(&page.bleed_box.as_ref().unwrap().upper_right_y), 290.0);
    assert_eq!(page.rotation, Some(90));
    assert_eq!(page.resources.fonts, 1);
    assert_eq!(page.resources.xobjects, 1);
    assert_eq!(page.resources.images, 1);
    assert_eq!(page.resources.contents, 1);
    assert_eq!(page.resources.annotations, 1);
    assert!(page
        .links
        .iter()
        .any(|link| link.kind == PageObjectLinkKind::Image && link.reference == ObjectRef::new(6, 0)));
}

#[test]
fn page_links_come_in_order_without_repeats() {
    let pdf = parse_bytes(page_pdf().as_bytes(), "pages.pdf");
    let index = build_page_index(&pdf);
    let labels: Vec<&str> = index.pages[0].links.iter().map(|l| l.label.as_str()).collect();
    assert_eq!(labels, vec!["Page", "Parent", "Contents", "Annotation", "/F1 Font", "/Im1 Image"]);

    let bytes = document(&[
        b"<< /Type /Catalog /Pages 2 0 R >>",
        b"<< /Kids [3 0 R 3 0 R 4 0 R] >>",
        b"<< /Type /Page /Contents [5 0 R 5 0 R [5 0 R]] /Rotate 45.5 >>",
        b"<< /Type /Page /MediaBox 6 0 R /Rotate -90.0 >>",
        b"<< /Length 0 >>\nstream\n\nendstream",
        b"[0 0 612 792]",
    ]);
    let index = build_page_index(&parse_bytes(&bytes, "repeats.pdf"));
    assert_eq!(index.pages.len(), 2);
    let first = &index.pages[0];
    assert_eq!(first.resources.contents, 3);
    let contents: Vec<ObjectRef> = first.links.iter().filter(|l| l.kind == PageObjectLinkKind::Contents).map(|l| l.reference).collect();
    assert_eq!(contents, vec![ObjectRef::new(5, 0)]);
    assert_eq!(first.rotation, None);
    assert!(first.media_box.is_none());
    let second = &index.pages[1];
    assert_eq!(second.page_number, 2);
    assert_eq!(second.rotation, Some(-90));
    assert_eq!(width(second.media_box.as_ref().unwrap()), 612.0);
}

#[test]
fn box_reference_cycles_are_refused_by_the_checked_build() {
    let bytes = document(&[
        b"<< /Type /Catalog /Pages 2 0 R >>",
        b"<< /Type /Pages /Kids [3 0 R] /MediaBox 4 0 R >>",
        b"<< /Type /Page >>",
        b"4 0 R",
    ]);
    let pdf = parse_bytes(&bytes, "cycle.pdf");
    assert!(build_page_index_checked(&pdf).is_none());
    let pdf = parse_bytes(page_pdf().as_bytes(), "pages.pdf");
    assert_eq!(build_page_index_checked(&pdf).unwrap().pages.len(), 1);
}
