//! Decoding of PDF text strings: UTF-16 with a byte order mark, UTF-8, or
//! PDFDocEncoding; and of hex strings into such text.
use vstd::prelude::*;
use vstd::utf8::*;
use crate::stream_decode::{hex_nibble, hex_nibble_value, remove_ws};
use crate::text::{ascii_whitespace, char_from_u32, decimal, is_ws, owned, push_char, push_decimal, push_str, string_views, utf8_str};

verus! {

#[derive(Clone, Copy, Debug, PartialEq, Eq, Structural)]
pub enum PdfStringEncoding {
    Utf16Be,
    Utf16Le,
    PdfDocEncoding,
    Utf8,
}

/// Decoded text, the encoding it was read in, and what went wrong.
#[derive(Debug)]
pub struct DecodedPdfString {
    pub text: String,
    pub encoding: PdfStringEncoding,
    pub warnings: Vec<String>,
}

/// PDFDocEncoding: Latin-1 except for bytes 0x18..0x1f and 0x80..0xa0.
pub open spec fn pdf_doc_char(b: u8) -> char {
    if 0x18u8 <= b <= 0x1fu8 {
        seq!['\u{02d8}', '\u{02c7}', '\u{02c6}', '\u{02d9}', '\u{02dd}', '\u{02db}', '\u{02da}', '\u{02dc}'][b - 0x18]
    } else if 0x80u8 <= b <= 0xa0u8 {
        seq!['\u{2022}', '\u{2020}', '\u{2021}', '\u{2026}', '\u{2014}', '\u{2013}', '\u{0192}', '\u{2044}',
            '\u{2039}', '\u{203a}', '\u{2212}', '\u{2030}', '\u{201e}', '\u{201c}', '\u{201d}', '\u{2018}',
            '\u{2019}', '\u{201a}', '\u{2122}', '\u{fb01}', '\u{fb02}', '\u{0141}', '\u{0152}', '\u{0160}',
            '\u{0178}', '\u{017d}', '\u{0131}', '\u{0142}', '\u{0153}', '\u{0161}', '\u{017e}', '\u{fffd}',
            '\u{20ac}'][b - 0x80]
    } else {
        b as char
    }
}

pub fn pdf_doc_encoding_char(byte: u8) -> (c: char)
    ensures
        c == pdf_doc_char(byte),
{
    match byte {
        0x18 => '\u{02d8}',
        0x19 => '\u{02c7}',
        0x1a => '\u{02c6}',
        0x1b => '\u{02d9}',
        0x1c => '\u{02dd}',
        0x1d => '\u{02db}',
        0x1e => '\u{02da}',
        0x1f => '\u{02dc}',
        0x80 => '\u{2022}',
        0x81 => '\u{2020}',
        0x82 => '\u{2021}',
        0x83 => '\u{2026}',
        0x84 => '\u{2014}',
        0x85 => '\u{2013}',
        0x86 => '\u{0192}',
        0x87 => '\u{2044}',
        0x88 => '\u{2039}',
        0x89 => '\u{203a}',
        0x8a => '\u{2212}',
        0x8b => '\u{2030}',
        0x8c => '\u{201e}',
        0x8d => '\u{201c}',
        0x8e => '\u{201d}',
        0x8f => '\u{2018}',
        0x90 => '\u{2019}',
        0x91 => '\u{201a}',
        0x92 => '\u{2122}',
        0x93 => '\u{fb01}',
        0x94 => '\u{fb02}',
        0x95 => '\u{0141}',
        0x96 => '\u{0152}',
        0x97 => '\u{0160}',
        0x98 => '\u{0178}',
        0x99 => '\u{017d}',
        0x9a => '\u{0131}',
        0x9b => '\u{0142}',
        0x9c => '\u{0153}',
        0x9d => '\u{0161}',
        0x9e => '\u{017e}',
        0x9f => '\u{fffd}',
        0xa0 => '\u{20ac}',
        _ => byte as char,
    }
}

/// A control character (Unicode category Cc) other than line feed,
/// carriage return and tab.
pub open spec fn is_noise(c: char) -> bool {
    ((c as u32) <= 0x1f || (0x7f <= (c as u32) && (c as u32) <= 0x9f)) && c != '\n' && c != '\r' && c != '\t'
}

pub open spec fn has_control_noise(t: Seq<char>) -> bool {
    exists|i: int| 0 <= i < t.len() && is_noise(#[trigger] t[i])
}

pub fn contains_control_noise(text: &str) -> (r: bool)
    ensures
        r == has_control_noise(text@),
{
    broadcast use vstd::string::group_string_axioms;
    for c in it: text.chars()
        invariant
            it.seq() == text@,
            forall|j: int| 0 <= j < it.index() ==> !is_noise(#[trigger] text@[j]),
    {
        let v = c as u32;
        if (v <= 0x1f || (0x7f <= v && v <= 0x9f)) && c != '\n' && c != '\r' && c != '\t' {
            assert(is_noise(text@[it.index() as int]));
            return true;
        }
    }
    false
}


/// The 16-bit units of bytes taken in pairs (a last odd byte is dropped).
pub open spec fn utf16_units(b: Seq<u8>, big_endian: bool) -> Seq<u16> {
    Seq::new(b.len() / 2, |i: int|
        if big_endian { (b[2 * i] as int * 256 + b[2 * i + 1] as int) as u16 } else { (b[2 * i + 1] as int * 256 + b[2 * i] as int) as u16 })
}

/// UTF-16 decoding as `char::decode_utf16` does it, each unpaired
/// surrogate becoming U+FFFD: the characters and the number of unpaired
/// surrogates.
pub open spec fn utf16_decode(u: Seq<u16>) -> (Seq<char>, nat)
    decreases u.len(),
{
    if u.len() == 0 {
        (seq![], 0)
    } else if u[0] < 0xD800 || u[0] > 0xDFFF {
        let (rest, n) = utf16_decode(u.drop_first());
        (seq![u[0] as char] + rest, n)
    } else if u[0] <= 0xDBFF && u.len() >= 2 && 0xDC00 <= u[1] <= 0xDFFF {
        let (rest, n) = utf16_decode(u.skip(2));
        (seq![(0x10000 + (u[0] - 0xD800) * 1024 + (u[1] - 0xDC00)) as char] + rest, n)
    } else {
        let (rest, n) = utf16_decode(u.drop_first());
        (seq!['\u{fffd}'] + rest, n + 1)
    }
}

pub open spec fn odd_utf16_warning() -> Seq<char> {
    "UTF-16 PDF string has an odd byte length; the last byte was ignored."@
}

pub open spec fn surrogate_warning() -> Seq<char> {
    "UTF-16 PDF string contained an invalid surrogate pair."@
}

/// What decoding UTF-16 bytes gives: text, and the warnings (an odd
/// length first, then one per unpaired surrogate).
pub open spec fn spec_decode_utf16(b: Seq<u8>, big_endian: bool) -> (Seq<char>, Seq<Seq<char>>) {
    let (text, errors) = utf16_decode(utf16_units(b, big_endian));
    let first = if b.len() % 2 == 1 { seq![odd_utf16_warning()] } else { seq![] };
    (text, first + Seq::new(errors, |i: int| surrogate_warning()))
}

fn decode_utf16_units(bytes: &[u8], start: usize, big_endian: bool, encoding: PdfStringEncoding) -> (r: DecodedPdfString)
    requires
        start <= bytes@.len(),
    ensures
        r.encoding == encoding,
        (r.text@, string_views(r.warnings@)) == spec_decode_utf16(bytes@.skip(start as int), big_endian),
{
    let ghost b = bytes@.skip(start as int);
    let mut warnings: Vec<String> = Vec::new();
    if (bytes.len() - start) % 2 == 1 {
        warnings.push(owned("UTF-16 PDF string has an odd byte length; the last byte was ignored."));
    }
    let mut units: Vec<u16> = Vec::new();
    let n = bytes.len();
    let count = (n - start) / 2;
    let mut k: usize = 0;
    while k < count
        invariant
            k <= count,
            count == b.len() / 2,
            b == bytes@.skip(start as int),
            start + 2 * count <= n,
            n == bytes@.len(),
            units@ == utf16_units(b, big_endian).take(k as int),
        decreases count - k,
    {
        let b0 = bytes[start + 2 * k];
        let b1 = bytes[start + 2 * k + 1];
        let u: u16 = if big_endian { (b0 as u16) * 256 + b1 as u16 } else { (b1 as u16) * 256 + b0 as u16 };
        units.push(u);
        assert(utf16_units(b, big_endian).take(k + 1) =~= utf16_units(b, big_endian).take(k as int).push(u));
        k = k + 1;
    }
    assert(utf16_units(b, big_endian).take(count as int) =~= utf16_units(b, big_endian));
    let ghost uv = units@;
    let ghost w0 = string_views(warnings@);
    let mut text = String::new();
    let mut errors: usize = 0;
    let mut i: usize = 0;
    assert(uv.skip(0) =~= uv);
    while i < units.len()
        invariant
            i <= units@.len(),
            uv == units@,
            errors <= i,
            string_views(warnings@) == w0 + Seq::new(errors as nat, |j: int| surrogate_warning()),
            ({
                let (all, n) = utf16_decode(uv);
                let (rest, m) = utf16_decode(uv.skip(i as int));
                all == text@ + rest && n == errors + m
            }),
        decreases units@.len() - i,
    {
        let ghost rest = uv.skip(i as int);
        assert(rest[0] == uv[i as int]);
        assert(rest.drop_first() =~= uv.skip(i + 1));
        let u = units[i];
        let ghost before = string_views(warnings@);
        if u < 0xD800 || u > 0xDFFF {
            let c = char_from_u32(u as u32);
            match c {
                Some(c) => push_char(&mut text, c),
                None => {},
            }
            proof { vstd::utf8::char_u32_cast(c->0, u as u32); }
            i = i + 1;
        } else if u <= 0xDBFF && i + 1 < units.len() && 0xDC00 <= units[i + 1] && units[i + 1] <= 0xDFFF {
            let u2 = units[i + 1];
            assert(rest[1] == u2);
            assert(rest.skip(2) =~= uv.skip(i + 2));
            let v: u32 = 0x10000 + ((u - 0xD800) as u32) * 1024 + ((u2 - 0xDC00) as u32);
            let c = char_from_u32(v);
            match c {
                Some(c) => push_char(&mut text, c),
                None => {},
            }
            proof { vstd::utf8::char_u32_cast(c->0, v); }
            i = i + 2;
        } else {
            push_char(&mut text, '\u{fffd}');
            warnings.push(owned("UTF-16 PDF string contained an invalid surrogate pair."));
            assert(string_views(warnings@) =~= before.push(surrogate_warning()));
            assert(Seq::new((errors + 1) as nat, |j: int| surrogate_warning()) =~= Seq::new(errors as nat, |j: int| surrogate_warning()).push(surrogate_warning()));
            assert(string_views(warnings@) =~= w0 + Seq::new((errors + 1) as nat, |j: int| surrogate_warning()));
            errors = errors + 1;
            i = i + 1;
        }
    }
    proof {
        assert(uv.skip(i as int) =~= Seq::<u16>::empty());
        assert(text@ + seq![] =~= text@);
    }
    DecodedPdfString { text, encoding, warnings }
}


/// The text, encoding and warnings of decoding a PDF string's bytes: a
/// UTF-16 byte order mark selects UTF-16; valid UTF-8 without control
/// noise stays UTF-8; anything else is read as PDFDocEncoding.
pub open spec fn spec_decode_pdf_string(b: Seq<u8>) -> (Seq<char>, PdfStringEncoding, Seq<Seq<char>>) {
    if b.len() >= 2 && b[0] == 0xfeu8 && b[1] == 0xffu8 {
        let (t, w) = spec_decode_utf16(b.skip(2), true);
        (t, PdfStringEncoding::Utf16Be, w)
    } else if b.len() >= 2 && b[0] == 0xffu8 && b[1] == 0xfeu8 {
        let (t, w) = spec_decode_utf16(b.skip(2), false);
        (t, PdfStringEncoding::Utf16Le, w)
    } else if valid_utf8(b) && !has_control_noise(decode_utf8(b)) {
        (decode_utf8(b), PdfStringEncoding::Utf8, seq![])
    } else {
        (b.map_values(|c: u8| pdf_doc_char(c)), PdfStringEncoding::PdfDocEncoding, seq![])
    }
}

/// PDFDocEncoding is Latin-1 outside its two special ranges: every byte
/// other than 0x18..=0x1F and 0x80..=0xA0 (so every byte 0xA1..=0xFF)
/// stands for the Unicode character of the same value.
pub proof fn lemma_pdf_doc_latin1(b: u8)
    requires
        !(0x18u8 <= b <= 0x1fu8),
        !(0x80u8 <= b <= 0xa0u8),
    ensures
        pdf_doc_char(b) == b as char,
        pdf_doc_char(b) as u32 == b as u32,
{
}

/// A string without a byte order mark that is not UTF-8 is read as
/// PDFDocEncoding, one character per byte, and each byte outside the two
/// special ranges gives its Latin-1 character: `Caf\xe9` reads as `Café`.
pub proof fn lemma_non_utf8_reads_latin1(bytes: Seq<u8>)
    requires
        !(bytes.len() >= 2 && bytes[0] == 0xfeu8 && bytes[1] == 0xffu8),
        !(bytes.len() >= 2 && bytes[0] == 0xffu8 && bytes[1] == 0xfeu8),
        !valid_utf8(bytes),
    ensures
        spec_decode_pdf_string(bytes).1 == PdfStringEncoding::PdfDocEncoding,
        spec_decode_pdf_string(bytes).0.len() == bytes.len(),
        forall|k: int| 0 <= k < bytes.len() && !(0x18u8 <= bytes[k] <= 0x1fu8) && !(0x80u8 <= bytes[k] <= 0xa0u8)
            ==> spec_decode_pdf_string(bytes).0[k] as u32 == #[trigger] bytes[k] as u32,
{
    let t = spec_decode_pdf_string(bytes).0;
    assert(t == bytes.map_values(|c: u8| pdf_doc_char(c)));
    assert forall|k: int| 0 <= k < bytes.len() && !(0x18u8 <= bytes[k] <= 0x1fu8) && !(0x80u8 <= bytes[k] <= 0xa0u8)
        implies t[k] as u32 == #[trigger] bytes[k] as u32 by {
        lemma_pdf_doc_latin1(bytes[k]);
    }
}

pub open spec fn decoded_view(d: DecodedPdfString) -> (Seq<char>, PdfStringEncoding, Seq<Seq<char>>) {
    (d.text@, d.encoding, string_views(d.warnings@))
}

/// Decodes the bytes of a PDF text string.
pub fn decode_pdf_string(bytes: &[u8]) -> (r: DecodedPdfString)
    ensures
        decoded_view(r) == spec_decode_pdf_string(bytes@),
{
    if bytes.len() >= 2 && bytes[0] == 0xfe && bytes[1] == 0xff {
        return decode_utf16_units(bytes, 2, true, PdfStringEncoding::Utf16Be);
    }
    if bytes.len() >= 2 && bytes[0] == 0xff && bytes[1] == 0xfe {
        return decode_utf16_units(bytes, 2, false, PdfStringEncoding::Utf16Le);
    }
    if let Some(text) = utf8_str(bytes) {
        if !contains_control_noise(text) {
            let r = DecodedPdfString { text: owned(text), encoding: PdfStringEncoding::Utf8, warnings: Vec::new() };
            assert(string_views(r.warnings@) =~= Seq::<Seq<char>>::empty());
            return r;
        }
    }
    let mut text = String::new();
    let mut i: usize = 0;
    while i < bytes.len()
        invariant
            i <= bytes@.len(),
            text@ == bytes@.take(i as int).map_values(|c: u8| pdf_doc_char(c)),
        decreases bytes@.len() - i,
    {
        push_char(&mut text, pdf_doc_encoding_char(bytes[i]));
        assert(bytes@.take(i + 1).map_values(|c: u8| pdf_doc_char(c))
            =~= bytes@.take(i as int).map_values(|c: u8| pdf_doc_char(c)).push(pdf_doc_char(bytes@[i as int])));
        i = i + 1;
    }
    assert(bytes@.take(bytes@.len() as int) =~= bytes@);
    let r = DecodedPdfString { text, encoding: PdfStringEncoding::PdfDocEncoding, warnings: Vec::new() };
    assert(string_views(r.warnings@) =~= Seq::<Seq<char>>::empty());
    r
}

/// "Invalid hex pair at byte offset {index} was skipped."
pub open spec fn invalid_pair_warning(index: nat) -> Seq<char> {
    "Invalid hex pair at byte offset "@ + decimal(index) + " was skipped."@
}

/// Bytes of hex digit pairs; `i` is the offset of the first pair among the
/// digits. Pairs that are not two hex digits are skipped with a warning.
pub open spec fn hex_pairs(n: Seq<u8>, i: nat) -> (Seq<u8>, Seq<Seq<char>>)
    decreases n.len(),
{
    if n.len() < 2 {
        (seq![], seq![])
    } else {
        let (bytes, warnings) = hex_pairs(n.skip(2), i + 2);
        match (hex_nibble(n[0]), hex_nibble(n[1])) {
            (Some(h), Some(l)) => (seq![(h * 16 + l) as u8] + bytes, warnings),
            _ => (bytes, seq![invalid_pair_warning(i)] + warnings),
        }
    }
}

/// The digits of a hex string: its UTF-8 bytes without whitespace, padded
/// with `0` to an even count.
pub open spec fn hex_digits(hex: Seq<char>) -> Seq<u8> {
    let n = remove_ws(encode_utf8(hex));
    if n.len() % 2 == 1 { n.push(0x30u8) } else { n }
}

pub open spec fn odd_hex_warning() -> Seq<char> {
    "Odd-length PDF hex string was padded with a trailing 0 nibble."@
}

/// What decoding a hex string gives: the text of its bytes, with the
/// padding and pair warnings before those of the text decoding.
pub open spec fn spec_decode_pdf_hex_string(hex: Seq<char>) -> (Seq<char>, PdfStringEncoding, Seq<Seq<char>>) {
    let n = remove_ws(encode_utf8(hex));
    let (bytes, pair_warnings) = hex_pairs(hex_digits(hex), 0);
    let pad = if n.len() % 2 == 1 { seq![odd_hex_warning()] } else { seq![] };
    let (t, e, w) = spec_decode_pdf_string(bytes);
    (t, e, pad + pair_warnings + w)
}

/// Decodes a hex string's digits into text.
pub fn decode_pdf_hex_string(hex: &str) -> (r: DecodedPdfString)
    ensures
        decoded_view(r) == spec_decode_pdf_hex_string(hex@),
{
    let raw = hex.as_bytes();
    let mut nibbles: Vec<u8> = Vec::new();
    let mut i: usize = 0;
    while i < raw.len()
        invariant
            i <= raw@.len(),
            nibbles@ == remove_ws(raw@.take(i as int)),
        decreases raw@.len() - i,
    {
        assert(raw@.take(i + 1).drop_last() =~= raw@.take(i as int));
        if !ascii_whitespace(raw[i]) {
            nibbles.push(raw[i]);
        }
        i = i + 1;
    }
    assert(raw@.take(raw@.len() as int) =~= raw@);
    let mut warnings: Vec<String> = Vec::new();
    if nibbles.len() % 2 == 1 {
        nibbles.push(0x30);
        warnings.push(owned("Odd-length PDF hex string was padded with a trailing 0 nibble."));
    }
    let ghost pad = string_views(warnings@);
    let ghost digits = nibbles@;
    assert(digits == hex_digits(hex@));
    let mut bytes: Vec<u8> = Vec::new();
    let mut index: usize = 0;
    let ghost mut tail_bytes: Seq<u8> = seq![];
    assert(digits.skip(0) =~= digits);
    while index + 1 < nibbles.len()
        invariant
            index <= nibbles@.len(),
            index % 2 == 0,
            digits == nibbles@,
            nibbles@.len() % 2 == 0,
            ({
                let (all_b, all_w) = hex_pairs(digits, 0);
                let (rest_b, rest_w) = hex_pairs(digits.skip(index as int), index as nat);
                all_b == bytes@ + rest_b && pad + all_w == string_views(warnings@) + rest_w
            }),
        decreases nibbles@.len() - index,
    {
        let ghost rest = digits.skip(index as int);
        assert(rest[0] == digits[index as int] && rest[1] == digits[index + 1]);
        assert(rest.skip(2) =~= digits.skip(index + 2));
        let ghost wb = string_views(warnings@);
        match (hex_nibble_value(nibbles[index]), hex_nibble_value(nibbles[index + 1])) {
            (Some(high), Some(low)) => {
                let ghost bb = bytes@;
                bytes.push(high * 16 + low);
                proof {
                    let (rb, rw) = hex_pairs(digits.skip(index + 2), (index + 2) as nat);
                    assert(bb + (seq![(high * 16 + low) as u8] + rb) =~= bytes@ + rb);
                }
            },
            _ => {
                let mut m = owned("Invalid hex pair at byte offset ");
                push_decimal(&mut m, index);
                push_str(&mut m, " was skipped.");
                warnings.push(m);
                proof {
                    let (rb, rw) = hex_pairs(digits.skip(index + 2), (index + 2) as nat);
                    assert(string_views(warnings@) =~= wb.push(invalid_pair_warning(index as nat)));
                    assert(wb + (seq![invalid_pair_warning(index as nat)] + rw) =~= string_views(warnings@) + rw);
                }
            },
        }
        index = index + 2;
    }
    proof {
        let rest = digits.skip(index as int);
        assert(rest.len() < 2);
        assert(bytes@ + seq![] =~= bytes@);
        assert(string_views(warnings@) + seq![] =~= string_views(warnings@));
    }
    let mut decoded = decode_pdf_string(bytes.as_slice());
    let ghost dw = string_views(decoded.warnings@);
    let mut all_warnings = warnings;
    let mut k: usize = 0;
    while k < decoded.warnings.len()
        invariant
            k <= decoded.warnings@.len(),
            dw == string_views(decoded.warnings@),
            string_views(all_warnings@) == pad + hex_pairs(digits, 0).1 + dw.take(k as int),
        decreases decoded.warnings@.len() - k,
    {
        let ghost before = string_views(all_warnings@);
        all_warnings.push(owned(decoded.warnings[k].as_str()));
        assert(string_views(all_warnings@) =~= before.push(dw[k as int]));
        assert(dw.take(k + 1) =~= dw.take(k as int).push(dw[k as int]));
        assert(pad + hex_pairs(digits, 0).1 + dw.take(k + 1) =~= (pad + hex_pairs(digits, 0).1 + dw.take(k as int)).push(dw[k as int]));
        k = k + 1;
    }
    assert(dw.take(dw.len() as int) =~= dw);
    decoded.warnings = all_warnings;
    decoded
}

// ---------------------------------------------------------------------------
// Hex strings and the bytes they spell
// ---------------------------------------------------------------------------

/// `n` spells `b` in hex: two digits per byte, high nibble first, digits
/// in either case.
pub open spec fn spells_hex(n: Seq<u8>, b: Seq<u8>) -> bool {
    &&& n.len() == 2 * b.len()
    &&& forall|k: int| 0 <= k < b.len() ==> hex_nibble(#[trigger] n[2 * k]) == Some((b[k] / 16) as u8)
        && hex_nibble(n[2 * k + 1]) == Some((b[k] % 16) as u8)
}

proof fn lemma_hex_pairs_spelled(n: Seq<u8>, b: Seq<u8>, i: nat)
    requires
        spells_hex(n, b),
    ensures
        hex_pairs(n, i) == (b, Seq::<Seq<char>>::empty()),
    decreases b.len(),
{
    if b.len() == 0 {
        assert(b =~= Seq::<u8>::empty());
    } else {
        let n2 = n.skip(2);
        let b2 = b.drop_first();
        assert forall|k: int| 0 <= k < b2.len() implies hex_nibble(#[trigger] n2[2 * k]) == Some((b2[k] / 16) as u8)
            && hex_nibble(n2[2 * k + 1]) == Some((b2[k] % 16) as u8) by {
            assert(n2[2 * k] == n[2 * (k + 1)]);
            assert(n2[2 * k + 1] == n[2 * (k + 1) + 1]);
            assert(b2[k] == b[k + 1]);
        }
        lemma_hex_pairs_spelled(n2, b2, i + 2);
        assert(hex_nibble(n[2 * 0int]) == Some((b[0] / 16) as u8));
        assert(n[1] == n[2 * 0int + 1]);
        let h = (b[0] / 16) as u8;
        let l = (b[0] % 16) as u8;
        assert((h * 16 + l) as u8 == b[0]);
        assert(seq![b[0]] + b2 =~= b);
    }
}

/// A hex string whose digits, whitespace aside, spell the bytes `b` (in
/// either case) decodes as the literal string of those bytes, with no
/// warning of its own.
pub proof fn lemma_hex_string_spells_bytes(hex: Seq<char>, b: Seq<u8>)
    requires
        spells_hex(remove_ws(encode_utf8(hex)), b),
    ensures
        spec_decode_pdf_hex_string(hex) == spec_decode_pdf_string(b),
{
    let n = remove_ws(encode_utf8(hex));
    assert(n.len() % 2 == 0);
    assert(hex_digits(hex) == n);
    lemma_hex_pairs_spelled(n, b, 0);
    let (t, e, w) = spec_decode_pdf_string(b);
    assert(Seq::<Seq<char>>::empty() + Seq::<Seq<char>>::empty() + w =~= w);
}

} // verus!
