use pdf_debugger::pdf_string::{decode_pdf_hex_string, decode_pdf_string, PdfStringEncoding};

#[test]
fn decodes_utf16be_bom_pdf_string() {
    let decoded = decode_pdf_hex_string(
        "FEFF004D006900630072006F0073006F0066007400200057006F0072006400200032003000310036",
    );
    assert_eq!(decoded.text, "Microsoft Word 2016");
    assert_eq!(decoded.encoding, PdfStringEncoding::Utf16Be);
}

#[test]
fn decodes_pdf_doc_encoding() {
    let decoded = decode_pdf_string(&[0x48, 0x8d, 0x69]);
    assert_eq!(decoded.text, "H\u{201c}i");
    assert_eq!(decoded.encoding, PdfStringEncoding::PdfDocEncoding);
}

#[test]
fn odd_hex_string_is_padded_with_warning() {
    let decoded = decode_pdf_hex_string("414");
    assert_eq!(decoded.text, "A@");
    assert!(decoded.warnings.iter().any(|w| w.contains("Odd-length")));
}
