//! What page-object inspection reports, and the bytes a text-showing
//! operator's string operands stand for: literal strings with their
//! escapes, hex strings, and single-byte characters.
use vstd::prelude::*;
use crate::pdf_model::ObjectRef;
use crate::pdf_string::hex_pairs;
use crate::stream_decode::{hex_nibble_value, remove_ws};
use crate::text::ascii_whitespace;

verus! {

/// The kind of an object on a page.
#[derive(Clone, Copy, Debug, PartialEq, Eq, Structural)]
pub enum PageObjectKind {
    Text,
    Path,
    Image,
    Form,
    XObject,
    Annotation,
}

/// A named property of a page object.
#[derive(Clone, Debug)]
pub struct PageObjectProperty {
    pub name: String,
    pub value: String,
}

/// A problem met while inspecting a page's objects.
#[derive(Clone, Debug)]
pub struct PageObjectWarning {
    pub rule_id: String,
    pub object_id: Option<String>,
    pub source: Option<ObjectRef>,
    pub message: String,
}

// ---------------------------------------------------------------------------
// Delimited strings
// ---------------------------------------------------------------------------

/// The bytes inside an opening and a closing delimiter, or all of `raw`
/// when it is not so delimited.
pub open spec fn delimited_inner(raw: Seq<u8>, open: u8, close: u8) -> Seq<u8> {
    if raw.len() >= 2 && raw[0] == open && raw[raw.len() - 1] == close { raw.subrange(1, raw.len() - 1) } else { raw }
}

fn inner_range(raw: &[u8], open: u8, close: u8) -> (r: (usize, usize))
    ensures
        r.0 <= r.1 <= raw@.len(),
        raw@.subrange(r.0 as int, r.1 as int) == delimited_inner(raw@, open, close),
{
    if raw.len() >= 2 && raw[0] == open && raw[raw.len() - 1] == close {
        (1, raw.len() - 1)
    } else {
        assert(raw@.subrange(0, raw@.len() as int) =~= raw@);
        (0, raw.len())
    }
}

pub open spec fn is_octal(b: u8) -> bool {
    0x30u8 <= b <= 0x37u8
}

/// The end of an octal escape of at most three digits starting at `start`.
pub open spec fn octal_end(b: Seq<u8>, start: int, e: int) -> int
    decreases b.len() - e,
{
    if 0 <= e < b.len() && e - start < 3 && is_octal(b[e]) { octal_end(b, start, e + 1) } else { e }
}

/// The value of octal digits.
pub open spec fn octal_value(d: Seq<u8>) -> nat
    decreases d.len(),
{
    if d.len() == 0 { 0 } else { octal_value(d.drop_last()) * 8 + (d.last() - 0x30u8) as nat }
}

/// The bytes of a literal string's inside from `i` on: `\n`, `\r`, `\t`,
/// `\b`, `\f` and up to three octal digits (capped at 255) stand for their
/// byte, a backslash before a line end continues the line, a backslash
/// before any other byte stands for that byte, and a lone backslash at the
/// end ends the string.
pub open spec fn literal_bytes(b: Seq<u8>, i: int) -> Seq<u8>
    decreases b.len() - i, 1int,
{
    if i < 0 || i >= b.len() {
        seq![]
    } else if b[i] != 0x5cu8 {
        seq![b[i]] + literal_bytes(b, i + 1)
    } else if i + 1 >= b.len() {
        seq![]
    } else {
        let c = b[i + 1];
        if c == 0x6eu8 {
            seq![0x0au8] + literal_bytes(b, i + 2)
        } else if c == 0x72u8 {
            seq![0x0du8] + literal_bytes(b, i + 2)
        } else if c == 0x74u8 {
            seq![0x09u8] + literal_bytes(b, i + 2)
        } else if c == 0x62u8 {
            seq![0x08u8] + literal_bytes(b, i + 2)
        } else if c == 0x66u8 {
            seq![0x0cu8] + literal_bytes(b, i + 2)
        } else if c == 0x0du8 {
            if i + 2 < b.len() && b[i + 2] == 0x0au8 { literal_bytes(b, i + 3) } else { literal_bytes(b, i + 2) }
        } else if c == 0x0au8 {
            literal_bytes(b, i + 2)
        } else if is_octal(c) {
            let e = octal_end(b, i + 1, i + 2);
            proof {
                lemma_octal_end(b, i + 1, i + 2);
            }
            let v = octal_value(b.subrange(i + 1, e));
            seq![if v > 255 { 255u8 } else { v as u8 }] + literal_bytes(b, e)
        } else {
            seq![c] + literal_bytes(b, i + 2)
        }
    }
}

/// An octal escape ends within three digits of its start, after its
/// first digit, and holds only octal digits.
pub proof fn lemma_octal_end(b: Seq<u8>, start: int, e: int)
    requires
        0 <= start < e <= b.len(),
        e - start <= 3,
    ensures
        e <= octal_end(b, start, e) <= b.len(),
        octal_end(b, start, e) - start <= 3,
        forall|k: int| e <= k < octal_end(b, start, e) ==> is_octal(#[trigger] b[k]),
    decreases b.len() - e,
{
    if e < b.len() && e - start < 3 && is_octal(b[e]) {
        lemma_octal_end(b, start, e + 1);
    }
}

proof fn lemma_octal_value_bound(d: Seq<u8>)
    requires
        d.len() <= 3,
        forall|k: int| 0 <= k < d.len() ==> is_octal(#[trigger] d[k]),
    ensures
        octal_value(d) < 512,
        d.len() <= 2 ==> octal_value(d) < 64,
        d.len() <= 1 ==> octal_value(d) < 8,
    decreases d.len(),
{
    if d.len() > 0 {
        let p = d.drop_last();
        assert forall|k: int| 0 <= k < p.len() implies is_octal(#[trigger] p[k]) by {
            assert(p[k] == d[k]);
        }
        lemma_octal_value_bound(p);
        assert(is_octal(d[d.len() - 1]));
    }
}

/// The bytes a literal string token stands for.
pub fn decode_literal_string_bytes(raw: &[u8]) -> (r: Vec<u8>)
    ensures
        r@ == literal_bytes(delimited_inner(raw@, 0x28u8, 0x29u8), 0),
{
    let (lo, hi) = inner_range(raw, 0x28, 0x29);
    let inner = vstd::slice::slice_subrange(raw, lo, hi);
    let ghost b = inner@;
    let mut output: Vec<u8> = Vec::new();
    let mut index: usize = 0;
    while index < inner.len()
        invariant
            b == inner@,
            b == delimited_inner(raw@, 0x28u8, 0x29u8),
            index <= inner@.len() + 1,
            output@ + literal_bytes(b, index as int) == literal_bytes(b, 0),
        decreases inner@.len() + 1 - index,
    {
        let byte = inner[index];
        if byte != 0x5c {
            let ghost before = output@;
            output.push(byte);
            assert(before + literal_bytes(b, index as int) =~= output@ + literal_bytes(b, index + 1));
            index = index + 1;
        } else {
            if index + 1 >= inner.len() {
                assert(literal_bytes(b, index as int) =~= Seq::<u8>::empty());
                assert(output@ + literal_bytes(b, inner@.len() as int) =~= output@ + literal_bytes(b, index as int));
                index = inner.len();
            } else {
                let c = inner[index + 1];
                let ghost before = output@;
                if c == 0x6e || c == 0x72 || c == 0x74 || c == 0x62 || c == 0x66 {
                    let v: u8 = if c == 0x6e { 0x0a } else if c == 0x72 { 0x0d } else if c == 0x74 { 0x09 } else if c == 0x62 { 0x08 } else { 0x0c };
                    output.push(v);
                    assert(before + literal_bytes(b, index as int) =~= output@ + literal_bytes(b, index + 2));
                    index = index + 2;
                } else if c == 0x0d {
                    if index + 2 < inner.len() && inner[index + 2] == 0x0a {
                        index = index + 3;
                    } else {
                        index = index + 2;
                    }
                } else if c == 0x0a {
                    index = index + 2;
                } else if 0x30 <= c && c <= 0x37 {
                    let start = index + 1;
                    let mut end = index + 2;
                    proof {
                        lemma_octal_end(b, start as int, end as int);
                    }
                    while end < inner.len() && end - start < 3 && 0x30 <= inner[end] && inner[end] <= 0x37
                        invariant
                            b == inner@,
                            start < end <= inner@.len(),
                            end - start <= 3,
                            octal_end(b, start as int, end as int) == octal_end(b, start as int, (start + 1) as int),
                        decreases inner@.len() - end,
                    {
                        end = end + 1;
                    }
                    let ghost e = octal_end(b, start as int, (start + 1) as int);
                    assert(end == e);
                    proof {
                        lemma_octal_end(b, start as int, (start + 1) as int);
                        assert forall|k: int| 0 <= k < b.subrange(start as int, e).len() implies is_octal(#[trigger] b.subrange(start as int, e)[k]) by {
                            assert(b.subrange(start as int, e)[k] == b[start + k]);
                        }
                        lemma_octal_value_bound(b.subrange(start as int, e));
                    }
                    let mut value: u16 = 0;
                    let mut k = start;
                    while k < end
                        invariant
                            b == inner@,
                            start <= k <= end,
                            end == e,
                            end - start <= 3,
                            e <= b.len(),
                            forall|j: int| start <= j < e ==> is_octal(#[trigger] b[j]),
                            value == octal_value(b.subrange(start as int, k as int)),
                            value < 512,
                            k - start <= 2 ==> value < 64,
                        decreases end - k,
                    {
                        assert(b.subrange(start as int, k + 1).drop_last() =~= b.subrange(start as int, k as int));
                        assert(b.subrange(start as int, k + 1).last() == b[k as int]);
                        proof {
                            assert forall|j: int| 0 <= j < b.subrange(start as int, k + 1).len() implies is_octal(#[trigger] b.subrange(start as int, k + 1)[j]) by {
                                assert(b.subrange(start as int, k + 1)[j] == b[start + j]);
                            }
                            lemma_octal_value_bound(b.subrange(start as int, k + 1));
                        }
                        value = value * 8 + (inner[k] - 0x30) as u16;
                        k = k + 1;
                    }
                    let byte_value: u8 = if value > 255 { 255 } else { value as u8 };
                    output.push(byte_value);
                    assert(before + literal_bytes(b, index as int) =~= output@ + literal_bytes(b, end as int));
                    index = end;
                } else {
                    output.push(c);
                    assert(before + literal_bytes(b, index as int) =~= output@ + literal_bytes(b, index + 2));
                    index = index + 2;
                }
            }
        }
    }
    assert(literal_bytes(b, index as int) =~= Seq::<u8>::empty());
    assert(output@ + Seq::<u8>::empty() =~= output@);
    output
}

/// The bytes a hex string token stands for: its digits without
/// whitespace, padded with `0` to an even count, read in pairs; pairs that
/// are not two hex digits are skipped.
pub open spec fn hex_string_bytes(raw: Seq<u8>) -> Seq<u8> {
    let n = remove_ws(delimited_inner(raw, 0x3cu8, 0x3eu8));
    let digits = if n.len() % 2 == 1 { n.push(0x30u8) } else { n };
    hex_pairs(digits, 0).0
}

/// The bytes a hex string token stands for.
pub fn decode_hex_string_bytes(raw: &[u8]) -> (r: Vec<u8>)
    ensures
        r@ == hex_string_bytes(raw@),
{
    let (lo, hi) = inner_range(raw, 0x3c, 0x3e);
    let inner = vstd::slice::slice_subrange(raw, lo, hi);
    let mut nibbles: Vec<u8> = Vec::new();
    let mut i: usize = 0;
    while i < inner.len()
        invariant
            i <= inner@.len(),
            nibbles@ == remove_ws(inner@.take(i as int)),
        decreases inner@.len() - i,
    {
        assert(inner@.take(i + 1).drop_last() =~= inner@.take(i as int));
        if !ascii_whitespace(inner[i]) {
            nibbles.push(inner[i]);
        }
        i = i + 1;
    }
    assert(inner@.take(inner@.len() as int) =~= inner@);
    if nibbles.len() % 2 == 1 {
        nibbles.push(0x30);
    }
    let ghost digits = nibbles@;
    let mut bytes: Vec<u8> = Vec::new();
    let mut index: usize = 0;
    assert(digits.skip(0) =~= digits);
    while index + 1 < nibbles.len()
        invariant
            index <= nibbles@.len(),
            index % 2 == 0,
            digits == nibbles@,
            nibbles@.len() % 2 == 0,
            hex_pairs(digits, 0).0 == bytes@ + hex_pairs(digits.skip(index as int), index as nat).0,
        decreases nibbles@.len() - index,
    {
        let ghost rest = digits.skip(index as int);
        assert(rest[0] == digits[index as int] && rest[1] == digits[index + 1]);
        assert(rest.skip(2) =~= digits.skip(index + 2));
        match (hex_nibble_value(nibbles[index]), hex_nibble_value(nibbles[index + 1])) {
            (Some(high), Some(low)) => {
                let ghost bb = bytes@;
                bytes.push(high * 16 + low);
                proof {
                    let rb = hex_pairs(digits.skip(index + 2), (index + 2) as nat).0;
                    assert(bb + (seq![(high * 16 + low) as u8] + rb) =~= bytes@ + rb);
                }
            },
            _ => {},
        }
        index = index + 2;
    }
    assert(hex_pairs(digits.skip(index as int), index as nat).0 =~= Seq::<u8>::empty());
    assert(bytes@ + Seq::<u8>::empty() =~= bytes@);
    bytes
}

// ---------------------------------------------------------------------------
// Single-byte characters
// ---------------------------------------------------------------------------

/// A byte as a Latin-1 character, with the C1 controls replaced.
pub open spec fn latin1(b: u8) -> char {
    if 0x80u8 <= b <= 0x9fu8 { '\u{fffd}' } else { b as char }
}

/// A byte as a Latin-1 character, with the C1 controls replaced.
pub fn latin1_char(byte: u8) -> (c: char)
    ensures
        c == latin1(byte),
{
    if 0x80 <= byte && byte <= 0x9f { '\u{fffd}' } else { byte as char }
}

} // verus!
