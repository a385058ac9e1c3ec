//! Content stream tokenizing, grouping of operands into operators, and the
//! warnings that an operator sequence raises.
use vstd::prelude::*;
use vstd::utf8::*;
use crate::pdf_model::{ByteRange, insert_sorted_unique, names_sorted};
use crate::stream_decode::{hex_nibble, hex_nibble_value};
use crate::text::{decimal, string_views, 
    all_ascii, ascii_graphic, ascii_whitespace, delimiter, is_delim, is_graphic, is_ws, latin1,
    lemma_ascii_valid_utf8, lossy_string, copy_range, owned, push_decimal, push_str, str_eq, utf8_lossy,
};

verus! {

#[derive(Clone, Copy, Debug, PartialEq, Eq, Structural)]
pub enum ContentTokenKind {
    Number,
    Name,
    String,
    HexString,
    Keyword,
    Comment,
    ArrayStart,
    ArrayEnd,
    DictionaryStart,
    DictionaryEnd,
    Other,
}

/// One lexical token of a content stream.
#[derive(Debug)]
pub struct ContentToken {
    pub kind: ContentTokenKind,
    pub lexeme: String,
    pub byte_range: ByteRange,
    pub raw_bytes: Vec<u8>,
}

// ---------------------------------------------------------------------------
// Scanning positions
// ---------------------------------------------------------------------------

/// The first position at or after `pos` that is not whitespace.
pub open spec fn skip_ws_from(b: Seq<u8>, pos: int) -> int
    decreases b.len() - pos,
{
    if 0 <= pos < b.len() && is_ws(b[pos]) { skip_ws_from(b, pos + 1) } else { pos }
}

/// The first position at or after `pos` holding a delimiter, or the end.
pub open spec fn scan_to_delim(b: Seq<u8>, pos: int) -> int
    decreases b.len() - pos,
{
    if 0 <= pos < b.len() && !is_delim(b[pos]) { scan_to_delim(b, pos + 1) } else { pos }
}

/// The first position at or after `pos` holding a line feed or carriage return, or the end.
pub open spec fn scan_to_eol(b: Seq<u8>, pos: int) -> int
    decreases b.len() - pos,
{
    if 0 <= pos < b.len() && b[pos] != 0x0au8 && b[pos] != 0x0du8 { scan_to_eol(b, pos + 1) } else { pos }
}

/// The end of a literal string whose body starts at `pos` at nesting
/// `depth`: just past the closing parenthesis, or the end of the data.
/// A backslash escapes the next byte.
pub open spec fn literal_end(b: Seq<u8>, pos: int, depth: nat) -> int
    decreases b.len() - pos,
{
    if pos < 0 || pos >= b.len() {
        pos
    } else if b[pos] == 0x5cu8 {
        if pos + 1 < b.len() { literal_end(b, pos + 2, depth) } else { pos + 1 }
    } else if b[pos] == 0x28u8 {
        literal_end(b, pos + 1, depth + 1)
    } else if b[pos] == 0x29u8 {
        if depth <= 1 { pos + 1 } else { literal_end(b, pos + 1, (depth - 1) as nat) }
    } else {
        literal_end(b, pos + 1, depth)
    }
}

/// The end of a hex string whose body starts at `pos`: just past the `>`,
/// or the end of the data.
pub open spec fn hex_end(b: Seq<u8>, pos: int) -> int
    decreases b.len() - pos,
{
    if pos < 0 || pos >= b.len() {
        pos
    } else if b[pos] == 0x3eu8 {
        pos + 1
    } else {
        hex_end(b, pos + 1)
    }
}

// ---------------------------------------------------------------------------
// Numbers as Rust's `f64::from_str` accepts them
// ---------------------------------------------------------------------------

/// ASCII letters folded to lower case.
pub open spec fn lower(c: u8) -> u8 {
    if 0x41u8 <= c <= 0x5au8 { (c + 32) as u8 } else { c }
}

pub open spec fn all_digits(s: Seq<u8>) -> bool {
    forall|i: int| 0 <= i < s.len() ==> 0x30u8 <= #[trigger] s[i] <= 0x39u8
}

/// The first index of byte `c` in `s`, or its length.
pub open spec fn index_of(s: Seq<u8>, c: u8) -> int
    decreases s.len(),
{
    if s.len() == 0 {
        0
    } else if s[0] == c {
        0
    } else {
        1 + index_of(s.drop_first(), c)
    }
}

/// `Digit+ | Digit+ '.' Digit* | Digit* '.' Digit+`
pub open spec fn is_mantissa(m: Seq<u8>) -> bool {
    let d = index_of(m, 0x2eu8);
    let int_part = m.take(d);
    let frac = if d < m.len() { m.skip(d + 1) } else { seq![] };
    all_digits(int_part) && all_digits(frac) && int_part.len() + frac.len() > 0
}

/// `Sign? Digit+`
pub open spec fn is_exponent_digits(x: Seq<u8>) -> bool {
    let body = if x.len() > 0 && (x[0] == 0x2bu8 || x[0] == 0x2du8) { x.drop_first() } else { x };
    body.len() > 0 && all_digits(body)
}

/// Lower-cased text matching `Mantissa Exp?` where `Exp ::= 'e' Sign? Digit+`.
pub open spec fn is_decimal_number(x: Seq<u8>) -> bool {
    let e = index_of(x, 0x65u8);
    is_mantissa(x.take(e)) && (e == x.len() || is_exponent_digits(x.skip(e + 1)))
}

/// Whether `str::parse::<f64>` accepts the bytes, by the grammar its
/// documentation gives: an optional sign, then `inf`, `infinity`, `nan` or
/// a decimal number with an optional exponent, letters in any case.
pub open spec fn is_float_text(s: Seq<u8>) -> bool {
    let t = s.map_values(|c: u8| lower(c));
    let body = if t.len() > 0 && (t[0] == 0x2bu8 || t[0] == 0x2du8) { t.drop_first() } else { t };
    body == seq![0x69u8, 0x6eu8, 0x66u8]
        || body == seq![0x69u8, 0x6eu8, 0x66u8, 0x69u8, 0x6eu8, 0x69u8, 0x74u8, 0x79u8]
        || body == seq![0x6eu8, 0x61u8, 0x6eu8]
        || is_decimal_number(body)
}


proof fn lemma_index_of(s: Seq<u8>, c: u8, k: int)
    requires
        0 <= k <= s.len(),
        forall|j: int| 0 <= j < k ==> s[j] != c,
        k == s.len() || s[k] == c,
    ensures
        index_of(s, c) == k,
    decreases k,
{
    if k > 0 {
        let t = s.drop_first();
        assert forall|j: int| 0 <= j < k - 1 implies t[j] != c by {
            assert(t[j] == s[j + 1]);
        }
        if k < s.len() {
            assert(t[k - 1] == s[k]);
        }
        lemma_index_of(t, c, k - 1);
    }
}

/// `lo + index_of(s[lo..hi], c)`
fn find_byte(s: &Vec<u8>, lo: usize, hi: usize, c: u8) -> (r: usize)
    requires
        lo <= hi <= s@.len(),
    ensures
        r == lo + index_of(s@.subrange(lo as int, hi as int), c),
        lo <= r <= hi,
{
    let mut i = lo;
    while i < hi
        invariant
            lo <= i <= hi <= s@.len(),
            forall|j: int| lo <= j < i ==> s@[j] != c,
        ensures
            lo <= i <= hi,
            forall|j: int| lo <= j < i ==> s@[j] != c,
            i == hi || s@[i as int] == c,
        decreases hi - i,
    {
        if s[i] == c {
            break;
        }
        i = i + 1;
    }
    proof {
        let sub = s@.subrange(lo as int, hi as int);
        assert forall|j: int| 0 <= j < i - lo implies sub[j] != c by {
            assert(sub[j] == s@[lo + j]);
        }
        if i < hi {
            assert(sub[i - lo] == s@[i as int]);
        }
        lemma_index_of(sub, c, i - lo);
    }
    i
}

fn digits_only(s: &Vec<u8>, lo: usize, hi: usize) -> (r: bool)
    requires
        lo <= hi <= s@.len(),
    ensures
        r == all_digits(s@.subrange(lo as int, hi as int)),
{
    let mut i = lo;
    while i < hi
        invariant
            lo <= i <= hi <= s@.len(),
            forall|j: int| lo <= j < i ==> 0x30u8 <= #[trigger] s@[j] <= 0x39u8,
        decreases hi - i,
    {
        if !(0x30 <= s[i] && s[i] <= 0x39) {
            assert(s@.subrange(lo as int, hi as int)[i - lo] == s@[i as int]);
            return false;
        }
        i = i + 1;
    }
    assert forall|j: int| 0 <= j < hi - lo implies 0x30u8 <= #[trigger] s@.subrange(lo as int, hi as int)[j] <= 0x39u8 by {
        assert(s@.subrange(lo as int, hi as int)[j] == s@[lo + j]);
    }
    true
}

fn mantissa_ok(s: &Vec<u8>, lo: usize, hi: usize) -> (r: bool)
    requires
        lo <= hi <= s@.len(),
    ensures
        r == is_mantissa(s@.subrange(lo as int, hi as int)),
{
    let ghost m = s@.subrange(lo as int, hi as int);
    let d = find_byte(s, lo, hi, 0x2e);
    assert(m.take(d - lo) =~= s@.subrange(lo as int, d as int));
    let int_ok = digits_only(s, lo, d);
    let frac_lo = if d < hi { d + 1 } else { hi };
    assert(d - lo < m.len() ==> m.skip(d - lo + 1) =~= s@.subrange(frac_lo as int, hi as int));
    assert(d - lo >= m.len() ==> s@.subrange(frac_lo as int, hi as int) =~= Seq::<u8>::empty());
    let frac_ok = digits_only(s, frac_lo, hi);
    int_ok && frac_ok && (d - lo) + (hi - frac_lo) > 0
}

fn exponent_ok(s: &Vec<u8>, lo: usize, hi: usize) -> (r: bool)
    requires
        lo <= hi <= s@.len(),
    ensures
        r == is_exponent_digits(s@.subrange(lo as int, hi as int)),
{
    let ghost x = s@.subrange(lo as int, hi as int);
    let start = if lo < hi && (s[lo] == 0x2b || s[lo] == 0x2d) { lo + 1 } else { lo };
    assert(start == lo + 1 ==> x.drop_first() =~= s@.subrange(start as int, hi as int));
    assert(start == lo ==> x =~= s@.subrange(start as int, hi as int));
    start < hi && digits_only(s, start, hi)
}

fn decimal_ok(s: &Vec<u8>, lo: usize, hi: usize) -> (r: bool)
    requires
        lo <= hi <= s@.len(),
    ensures
        r == is_decimal_number(s@.subrange(lo as int, hi as int)),
{
    let ghost x = s@.subrange(lo as int, hi as int);
    let e = find_byte(s, lo, hi, 0x65);
    assert(x.take(e - lo) =~= s@.subrange(lo as int, e as int));
    let m = mantissa_ok(s, lo, e);
    if e == hi {
        m
    } else {
        assert(x.skip(e - lo + 1) =~= s@.subrange(e + 1, hi as int));
        m && exponent_ok(s, e + 1, hi)
    }
}

fn matches_bytes(s: &Vec<u8>, lo: usize, pattern: &[u8]) -> (r: bool)
    requires
        lo <= s@.len(),
    ensures
        r == (s@.subrange(lo as int, s@.len() as int) == pattern@),
{
    if s.len() - lo != pattern.len() {
        return false;
    }
    let mut i: usize = 0;
    while i < pattern.len()
        invariant
            s@.len() - lo == pattern@.len(),
            lo + pattern@.len() == s@.len(),
            s@.len() == s.len(),
            i <= pattern@.len(),
            forall|j: int| 0 <= j < i ==> s@[lo + j] == pattern@[j],
        decreases pattern@.len() - i,
    {
        if s[lo + i] != pattern[i] {
            assert(s@.subrange(lo as int, s@.len() as int)[i as int] != pattern@[i as int]);
            return false;
        }
        i = i + 1;
    }
    assert(s@.subrange(lo as int, s@.len() as int) =~= pattern@);
    true
}

/// Whether the bytes read as a number, as `str::parse::<f64>` accepts them.
pub fn is_number(bytes: &[u8]) -> (r: bool)
    ensures
        r == is_float_text(bytes@),
{
    let mut t: Vec<u8> = Vec::new();
    let mut i: usize = 0;
    while i < bytes.len()
        invariant
            i <= bytes.len(),
            t@ == bytes@.take(i as int).map_values(|c: u8| lower(c)),
        decreases bytes.len() - i,
    {
        let c = bytes[i];
        t.push(if 0x41 <= c && c <= 0x5a { c + 32 } else { c });
        assert(bytes@.take(i + 1).map_values(|c: u8| lower(c)) =~= bytes@.take(i as int).map_values(|c: u8| lower(c)).push(lower(c)));
        i = i + 1;
    }
    assert(bytes@.take(bytes.len() as int) =~= bytes@);
    let ghost tv = bytes@.map_values(|c: u8| lower(c));
    assert(t@ == tv);
    let start: usize = if t.len() > 0 && (t[0] == 0x2b || t[0] == 0x2d) { 1 } else { 0 };
    let ghost body = if tv.len() > 0 && (tv[0] == 0x2bu8 || tv[0] == 0x2du8) { tv.drop_first() } else { tv };
    assert(body =~= t@.subrange(start as int, t@.len() as int));
    let inf: [u8; 3] = [0x69, 0x6e, 0x66];
    let infinity: [u8; 8] = [0x69, 0x6e, 0x66, 0x69, 0x6e, 0x69, 0x74, 0x79];
    let nan: [u8; 3] = [0x6e, 0x61, 0x6e];
    assert(inf@ =~= seq![0x69u8, 0x6eu8, 0x66u8]);
    assert(infinity@ =~= seq![0x69u8, 0x6eu8, 0x66u8, 0x69u8, 0x6eu8, 0x69u8, 0x74u8, 0x79u8]);
    assert(nan@ =~= seq![0x6eu8, 0x61u8, 0x6eu8]);
    matches_bytes(&t, start, &inf) || matches_bytes(&t, start, &infinity) || matches_bytes(&t, start, &nan)
        || decimal_ok(&t, start, t.len())
}


/// The byte that a `#` escape of two characters stands for, read as
/// `u8::from_str_radix(.., 16)` reads them (which takes a leading `+`).
pub open spec fn name_escape(c1: u8, c2: u8) -> Option<u8> {
    if c1 == 0x2bu8 {
        hex_nibble(c2)
    } else {
        match (hex_nibble(c1), hex_nibble(c2)) {
            (Some(h), Some(l)) => Some((h * 16 + l) as u8),
            _ => None,
        }
    }
}

/// Name bytes with `#xx` escapes replaced by the bytes they stand for.
pub open spec fn decode_name_bytes(b: Seq<u8>) -> Seq<u8>
    decreases b.len(),
{
    if b.len() == 0 {
        seq![]
    } else if b[0] == 0x23u8 && 2 < b.len() && name_escape(b[1], b[2]) is Some {
        seq![name_escape(b[1], b[2])->0] + decode_name_bytes(b.skip(3))
    } else {
        seq![b[0]] + decode_name_bytes(b.drop_first())
    }
}

fn name_escape_value(c1: u8, c2: u8) -> (r: Option<u8>)
    ensures
        r == name_escape(c1, c2),
{
    if c1 == 0x2b {
        hex_nibble_value(c2)
    } else {
        match (hex_nibble_value(c1), hex_nibble_value(c2)) {
            (Some(h), Some(l)) => Some(h * 16 + l),
            _ => None,
        }
    }
}

/// Replaces `#xx` escapes in name bytes.
pub fn decode_name_bytes_exec(b: &[u8], lo: usize, hi: usize) -> (r: Vec<u8>)
    requires
        lo <= hi <= b@.len(),
    ensures
        r@ == decode_name_bytes(b@.subrange(lo as int, hi as int)),
{
    let mut out: Vec<u8> = Vec::new();
    let mut i = lo;
    assert(b@.subrange(lo as int, hi as int) =~= b@.subrange(i as int, hi as int));
    while i < hi
        invariant
            lo <= i <= hi <= b@.len(),
            decode_name_bytes(b@.subrange(lo as int, hi as int)) == out@ + decode_name_bytes(b@.subrange(i as int, hi as int)),
        decreases hi - i,
    {
        let ghost rest = b@.subrange(i as int, hi as int);
        if b[i] == 0x23 && hi - i > 2 {
            match name_escape_value(b[i + 1], b[i + 2]) {
                Some(v) => {
                    assert(rest[1] == b@[i + 1] && rest[2] == b@[i + 2]);
                    assert(rest.skip(3) =~= b@.subrange(i + 3, hi as int));
                    assert(out@ + (seq![v] + rest.skip(3)) =~= out@.push(v) + rest.skip(3));
                    assert(out@ + (seq![v] + decode_name_bytes(rest.skip(3))) =~= out@.push(v) + decode_name_bytes(rest.skip(3)));
                    out.push(v);
                    i = i + 3;
                    continue;
                },
                None => {
                    assert(rest[1] == b@[i + 1] && rest[2] == b@[i + 2]);
                },
            }
        }
        assert(rest.drop_first() =~= b@.subrange(i + 1, hi as int));
        assert(out@ + (seq![b@[i as int]] + decode_name_bytes(rest.drop_first())) =~= out@.push(b@[i as int]) + decode_name_bytes(rest.drop_first()));
        out.push(b[i]);
        i = i + 1;
    }
    assert(b@.subrange(i as int, hi as int) =~= Seq::<u8>::empty());
    assert(out@ + seq![] =~= out@);
    out
}

/// Decodes name bytes (without the leading `/`) to text.
pub fn decode_name(b: &[u8]) -> (r: String)
    ensures
        r@ == utf8_lossy(decode_name_bytes(b@)),
{
    let v = decode_name_bytes_exec(b, 0, b.len());
    assert(b@.subrange(0, b@.len() as int) =~= b@);
    lossy_string(v.as_slice())
}

/// Printable ASCII that is not a delimiter, for every byte.
pub open spec fn all_keyword_bytes(b: Seq<u8>) -> bool {
    forall|i: int| 0 <= i < b.len() ==> is_graphic(#[trigger] b[i]) && !is_delim(b[i])
}

/// A bare token: a number, a keyword of printable ASCII, or something else.
pub open spec fn atom_kind(b: Seq<u8>) -> ContentTokenKind {
    if is_float_text(b) {
        ContentTokenKind::Number
    } else if all_keyword_bytes(b) {
        ContentTokenKind::Keyword
    } else {
        ContentTokenKind::Other
    }
}

pub fn classify_atom(bytes: &[u8]) -> (k: ContentTokenKind)
    ensures
        k == atom_kind(bytes@),
{
    if is_number(bytes) {
        return ContentTokenKind::Number;
    }
    let mut i: usize = 0;
    while i < bytes.len()
        invariant
            i <= bytes.len(),
            !is_float_text(bytes@),
            forall|j: int| 0 <= j < i ==> is_graphic(#[trigger] bytes@[j]) && !is_delim(bytes@[j]),
        decreases bytes.len() - i,
    {
        if !(ascii_graphic(bytes[i]) && !delimiter(bytes[i])) {
            assert(!(is_graphic(bytes@[i as int]) && !is_delim(bytes@[i as int])));
            assert(!all_keyword_bytes(bytes@));
            return ContentTokenKind::Other;
        }
        i = i + 1;
    }
    ContentTokenKind::Keyword
}

/// The kind and end of the token starting at `p` (a non-whitespace byte),
/// or `None` where a delimiter stands alone and no token can start.
pub open spec fn next_token(b: Seq<u8>, p: int) -> Option<(ContentTokenKind, int)> {
    let c = b[p];
    if c == 0x25u8 {
        Some((ContentTokenKind::Comment, scan_to_eol(b, p + 1)))
    } else if c == 0x2fu8 {
        Some((ContentTokenKind::Name, scan_to_delim(b, p + 1)))
    } else if c == 0x28u8 {
        Some((ContentTokenKind::String, literal_end(b, p + 1, 1)))
    } else if c == 0x3cu8 && p + 1 < b.len() && b[p + 1] == 0x3cu8 {
        Some((ContentTokenKind::DictionaryStart, p + 2))
    } else if c == 0x3eu8 && p + 1 < b.len() && b[p + 1] == 0x3eu8 {
        Some((ContentTokenKind::DictionaryEnd, p + 2))
    } else if c == 0x3cu8 {
        Some((ContentTokenKind::HexString, hex_end(b, p + 1)))
    } else if c == 0x5bu8 {
        Some((ContentTokenKind::ArrayStart, p + 1))
    } else if c == 0x5du8 {
        Some((ContentTokenKind::ArrayEnd, p + 1))
    } else {
        let e = scan_to_delim(b, p);
        if e <= p { None } else { Some((atom_kind(b.subrange(p, e)), e)) }
    }
}

/// The tokens from `pos` on, as kind, start and end; `None` when the
/// scan meets a delimiter that starts no token, where it would not move on.
pub open spec fn tokens_from(b: Seq<u8>, pos: int) -> Option<Seq<(ContentTokenKind, int, int)>>
    decreases b.len() - pos,
{
    let p = skip_ws_from(b, pos);
    if pos < 0 || p >= b.len() || p < pos {
        Some(seq![])
    } else {
        match next_token(b, p) {
            None => None,
            Some((k, e)) => if e <= p || e > b.len() {
                None
            } else {
                match tokens_from(b, e) {
                    Some(rest) => Some(seq![(k, p, e)] + rest),
                    None => None,
                }
            },
        }
    }
}

/// A content stream that the tokenizer gets through: no delimiter among
/// `)`, `>`, `{`, `}` stands where a token should start.
pub open spec fn tokenizable(b: Seq<u8>) -> bool {
    tokens_from(b, 0) is Some
}

/// The text of a token with the given kind and raw bytes.
pub open spec fn token_lexeme(kind: ContentTokenKind, raw: Seq<u8>) -> Seq<char> {
    if kind == ContentTokenKind::Name {
        utf8_lossy(decode_name_bytes(raw.drop_first()))
    } else {
        utf8_lossy(raw)
    }
}

/// A token matches its spec triple over the stream bytes `b`.
pub open spec fn token_matches(t: ContentToken, b: Seq<u8>, spec: (ContentTokenKind, int, int)) -> bool {
    &&& t.kind == spec.0
    &&& t.byte_range.start == spec.1
    &&& t.byte_range.end == spec.2
    &&& t.raw_bytes@ == b.subrange(spec.1, spec.2)
    &&& t.lexeme@ == token_lexeme(spec.0, t.raw_bytes@)
}


pub fn skip_whitespace(bytes: &[u8], pos: usize) -> (r: usize)
    requires
        pos <= bytes@.len(),
    ensures
        r == skip_ws_from(bytes@, pos as int),
        pos <= r <= bytes@.len(),
{
    let mut p = pos;
    while p < bytes.len() && ascii_whitespace(bytes[p])
        invariant
            pos <= p <= bytes@.len(),
            skip_ws_from(bytes@, pos as int) == skip_ws_from(bytes@, p as int),
        decreases bytes@.len() - p,
    {
        p = p + 1;
    }
    p
}

pub(crate) fn scan_delimiter(bytes: &[u8], pos: usize) -> (r: usize)
    requires
        pos <= bytes@.len(),
    ensures
        r == scan_to_delim(bytes@, pos as int),
        pos <= r <= bytes@.len(),
{
    let mut p = pos;
    while p < bytes.len() && !delimiter(bytes[p])
        invariant
            pos <= p <= bytes@.len(),
            scan_to_delim(bytes@, pos as int) == scan_to_delim(bytes@, p as int),
        decreases bytes@.len() - p,
    {
        p = p + 1;
    }
    p
}

pub(crate) fn scan_line_end(bytes: &[u8], pos: usize) -> (r: usize)
    requires
        pos <= bytes@.len(),
    ensures
        r == scan_to_eol(bytes@, pos as int),
        pos <= r <= bytes@.len(),
{
    let mut p = pos;
    while p < bytes.len() && bytes[p] != 0x0a && bytes[p] != 0x0d
        invariant
            pos <= p <= bytes@.len(),
            scan_to_eol(bytes@, pos as int) == scan_to_eol(bytes@, p as int),
        decreases bytes@.len() - p,
    {
        p = p + 1;
    }
    p
}

fn scan_hex_string(bytes: &[u8], pos: usize) -> (r: usize)
    requires
        pos <= bytes@.len(),
    ensures
        r == hex_end(bytes@, pos as int),
        pos <= r <= bytes@.len(),
{
    let mut p = pos;
    while p < bytes.len() && bytes[p] != 0x3e
        invariant
            pos <= p <= bytes@.len(),
            hex_end(bytes@, pos as int) == hex_end(bytes@, p as int),
        decreases bytes@.len() - p,
    {
        p = p + 1;
    }
    if p < bytes.len() {
        p = p + 1;
    }
    p
}

/// The end of the literal string that opens at `pos`: just past its
/// balancing `)`, or the end of the data.
pub fn parse_literal_string(bytes: &[u8], pos: usize) -> (r: usize)
    requires
        pos < bytes@.len(),
    ensures
        r == literal_end(bytes@, pos + 1, 1),
        pos < r <= bytes@.len(),
{
    let n = bytes.len();
    assert(pos < n);
    let mut p = pos + 1;
    let mut depth: usize = 1;
    while p < bytes.len()
        invariant
            pos < p <= bytes@.len(),
            1 <= depth <= p,
            literal_end(bytes@, pos + 1, 1) == literal_end(bytes@, p as int, depth as nat),
        decreases bytes@.len() - p,
    {
        let c = bytes[p];
        if c == 0x5c {
            if p + 1 < bytes.len() {
                p = p + 2;
            } else {
                return p + 1;
            }
        } else if c == 0x28 {
            depth = depth + 1;
            p = p + 1;
        } else if c == 0x29 {
            if depth <= 1 {
                return p + 1;
            }
            depth = depth - 1;
            p = p + 1;
        } else {
            p = p + 1;
        }
    }
    p
}

/// A token over `bytes[start..end]`, its text read as lossy UTF-8.
fn token(kind: ContentTokenKind, bytes: &[u8], start: usize, end: usize) -> (t: ContentToken)
    requires
        start <= end <= bytes@.len(),
        kind != ContentTokenKind::Name,
    ensures
        token_matches(t, bytes@, (kind, start as int, end as int)),
{
    let raw = copy_range(bytes, start, end);
    let lexeme = lossy_string(raw.as_slice());
    ContentToken { kind, lexeme, byte_range: ByteRange { start, end }, raw_bytes: raw }
}

fn name_token(bytes: &[u8], start: usize, end: usize) -> (t: ContentToken)
    requires
        start < end <= bytes@.len(),
    ensures
        token_matches(t, bytes@, (ContentTokenKind::Name, start as int, end as int)),
{
    let raw = copy_range(bytes, start, end);
    let decoded = decode_name_bytes_exec(bytes, start + 1, end);
    assert(raw@.drop_first() =~= bytes@.subrange(start + 1, end as int));
    let lexeme = lossy_string(decoded.as_slice());
    ContentToken { kind: ContentTokenKind::Name, lexeme, byte_range: ByteRange { start, end }, raw_bytes: raw }
}

/// Tokenizes a content stream, or `None` where the scan would stall.
pub fn tokenize_checked(bytes: &[u8]) -> (r: Option<Vec<ContentToken>>)
    ensures
        r is Some <==> tokenizable(bytes@),
        r matches Some(tokens) ==> ({
            let spec = tokens_from(bytes@, 0)->0;
            &&& tokens@.len() == spec.len()
            &&& forall|i: int| 0 <= i < spec.len() ==> token_matches(#[trigger] tokens@[i], bytes@, spec[i])
        }),
{
    let mut tokens: Vec<ContentToken> = Vec::new();
    let ghost mut done: Seq<(ContentTokenKind, int, int)> = seq![];
    let mut pos: usize = 0;
    assert(match tokens_from(bytes@, 0) { Some(r) => Some(done + r), None => None::<Seq<(ContentTokenKind, int, int)>> } == tokens_from(bytes@, 0)) by {
        if let Some(r) = tokens_from(bytes@, 0) {
            assert(done + r =~= r);
        }
    }
    while pos < bytes.len()
        invariant
            pos <= bytes@.len(),
            tokens@.len() == done.len(),
            forall|i: int| 0 <= i < done.len() ==> token_matches(#[trigger] tokens@[i], bytes@, done[i]),
            tokens_from(bytes@, 0) == match tokens_from(bytes@, pos as int) {
                Some(r) => Some(done + r),
                None => None::<Seq<(ContentTokenKind, int, int)>>,
            },
        ensures
            pos >= bytes@.len(),
            tokens@.len() == done.len(),
            forall|i: int| 0 <= i < done.len() ==> token_matches(#[trigger] tokens@[i], bytes@, done[i]),
            tokens_from(bytes@, 0) == match tokens_from(bytes@, pos as int) {
                Some(r) => Some(done + r),
                None => None::<Seq<(ContentTokenKind, int, int)>>,
            },
        decreases bytes@.len() - pos,
    {
        let start = skip_whitespace(bytes, pos);
        if start >= bytes.len() {
            pos = start;
            break;
        }
        let c = bytes[start];
        let kind: ContentTokenKind;
        let end: usize;
        if c == 0x25 {
            kind = ContentTokenKind::Comment;
            end = scan_line_end(bytes, start + 1);
        } else if c == 0x2f {
            kind = ContentTokenKind::Name;
            end = scan_delimiter(bytes, start + 1);
        } else if c == 0x28 {
            kind = ContentTokenKind::String;
            end = parse_literal_string(bytes, start);
        } else if c == 0x3c && start + 1 < bytes.len() && bytes[start + 1] == 0x3c {
            kind = ContentTokenKind::DictionaryStart;
            end = start + 2;
        } else if c == 0x3e && start + 1 < bytes.len() && bytes[start + 1] == 0x3e {
            kind = ContentTokenKind::DictionaryEnd;
            end = start + 2;
        } else if c == 0x3c {
            kind = ContentTokenKind::HexString;
            end = scan_hex_string(bytes, start + 1);
        } else if c == 0x5b {
            kind = ContentTokenKind::ArrayStart;
            end = start + 1;
        } else if c == 0x5d {
            kind = ContentTokenKind::ArrayEnd;
            end = start + 1;
        } else {
            end = scan_delimiter(bytes, start);
            if end <= start {
                return None;
            }
            let atom = copy_range(bytes, start, end);
            kind = classify_atom(atom.as_slice());
        }
        assert(next_token(bytes@, start as int) == Some((kind, end as int)));
        let t = if kind == ContentTokenKind::Name { name_token(bytes, start, end) } else { token(kind, bytes, start, end) };
        tokens.push(t);
        proof {
            let triple = (kind, start as int, end as int);
            if let Some(r) = tokens_from(bytes@, end as int) {
                assert(done + (seq![triple] + r) =~= done.push(triple) + r);
            }
            done = done.push(triple);
        }
        pos = end;
    }
    proof {
        if pos >= bytes.len() {
            assert(done + seq![] =~= done);
        }
    }
    Some(tokens)
}

/// Whether the tokenizer gets through the bytes.
pub fn content_stream_tokenizable(bytes: &[u8]) -> (r: bool)
    ensures
        r == tokenizable(bytes@),
{
    tokenize_checked(bytes).is_some()
}

/// Splits a content stream into tokens.
pub fn tokenize_content_stream(bytes: &[u8]) -> (tokens: Vec<ContentToken>)
    requires
        tokenizable(bytes@),
    ensures
        ({
            let spec = tokens_from(bytes@, 0)->0;
            &&& tokens@.len() == spec.len()
            &&& forall|i: int| 0 <= i < spec.len() ==> token_matches(#[trigger] tokens@[i], bytes@, spec[i])
        }),
{
    match tokenize_checked(bytes) {
        Some(tokens) => tokens,
        None => Vec::new(),
    }
}


/// The operators of the PDF content stream language.
pub open spec fn known_operator(n: Seq<char>) -> bool {
        n == "BT"@
        || n == "ET"@
        || n == "Tc"@
        || n == "Tw"@
        || n == "Tz"@
        || n == "TL"@
        || n == "Tf"@
        || n == "Tr"@
        || n == "Ts"@
        || n == "Td"@
        || n == "TD"@
        || n == "Tm"@
        || n == "T*"@
        || n == "Tj"@
        || n == "TJ"@
        || n == "'"@
        || n == "\""@
        || n == "q"@
        || n == "Q"@
        || n == "cm"@
        || n == "w"@
        || n == "J"@
        || n == "j"@
        || n == "M"@
        || n == "d"@
        || n == "ri"@
        || n == "i"@
        || n == "gs"@
        || n == "m"@
        || n == "l"@
        || n == "c"@
        || n == "v"@
        || n == "y"@
        || n == "h"@
        || n == "re"@
        || n == "S"@
        || n == "s"@
        || n == "f"@
        || n == "F"@
        || n == "f*"@
        || n == "B"@
        || n == "B*"@
        || n == "b"@
        || n == "b*"@
        || n == "n"@
        || n == "W"@
        || n == "W*"@
        || n == "CS"@
        || n == "cs"@
        || n == "SC"@
        || n == "SCN"@
        || n == "sc"@
        || n == "scn"@
        || n == "G"@
        || n == "g"@
        || n == "RG"@
        || n == "rg"@
        || n == "K"@
        || n == "k"@
        || n == "sh"@
        || n == "Do"@
        || n == "BI"@
        || n == "ID"@
        || n == "EI"@
        || n == "MP"@
        || n == "DP"@
        || n == "BMC"@
        || n == "BDC"@
        || n == "EMC"@
        || n == "BX"@
        || n == "EX"@
        || n == "d0"@
        || n == "d1"@
}

pub fn is_known_operator(operator: &str) -> (r: bool)
    ensures
        r == known_operator(operator@),
{
    str_eq(operator, "BT")
        || str_eq(operator, "ET")
        || str_eq(operator, "Tc")
        || str_eq(operator, "Tw")
        || str_eq(operator, "Tz")
        || str_eq(operator, "TL")
        || str_eq(operator, "Tf")
        || str_eq(operator, "Tr")
        || str_eq(operator, "Ts")
        || str_eq(operator, "Td")
        || str_eq(operator, "TD")
        || str_eq(operator, "Tm")
        || str_eq(operator, "T*")
        || str_eq(operator, "Tj")
        || str_eq(operator, "TJ")
        || str_eq(operator, "'")
        || str_eq(operator, "\"")
        || str_eq(operator, "q")
        || str_eq(operator, "Q")
        || str_eq(operator, "cm")
        || str_eq(operator, "w")
        || str_eq(operator, "J")
        || str_eq(operator, "j")
        || str_eq(operator, "M")
        || str_eq(operator, "d")
        || str_eq(operator, "ri")
        || str_eq(operator, "i")
        || str_eq(operator, "gs")
        || str_eq(operator, "m")
        || str_eq(operator, "l")
        || str_eq(operator, "c")
        || str_eq(operator, "v")
        || str_eq(operator, "y")
        || str_eq(operator, "h")
        || str_eq(operator, "re")
        || str_eq(operator, "S")
        || str_eq(operator, "s")
        || str_eq(operator, "f")
        || str_eq(operator, "F")
        || str_eq(operator, "f*")
        || str_eq(operator, "B")
        || str_eq(operator, "B*")
        || str_eq(operator, "b")
        || str_eq(operator, "b*")
        || str_eq(operator, "n")
        || str_eq(operator, "W")
        || str_eq(operator, "W*")
        || str_eq(operator, "CS")
        || str_eq(operator, "cs")
        || str_eq(operator, "SC")
        || str_eq(operator, "SCN")
        || str_eq(operator, "sc")
        || str_eq(operator, "scn")
        || str_eq(operator, "G")
        || str_eq(operator, "g")
        || str_eq(operator, "RG")
        || str_eq(operator, "rg")
        || str_eq(operator, "K")
        || str_eq(operator, "k")
        || str_eq(operator, "sh")
        || str_eq(operator, "Do")
        || str_eq(operator, "BI")
        || str_eq(operator, "ID")
        || str_eq(operator, "EI")
        || str_eq(operator, "MP")
        || str_eq(operator, "DP")
        || str_eq(operator, "BMC")
        || str_eq(operator, "BDC")
        || str_eq(operator, "EMC")
        || str_eq(operator, "BX")
        || str_eq(operator, "EX")
        || str_eq(operator, "d0")
        || str_eq(operator, "d1")
}

/// Keywords that are operands, not operators.
pub open spec fn keyword_operand(n: Seq<char>) -> bool {
    n == "true"@ || n == "false"@ || n == "null"@
}

pub fn is_keyword_operand(keyword: &str) -> (r: bool)
    ensures
        r == keyword_operand(keyword@),
{
    str_eq(keyword, "true") || str_eq(keyword, "false") || str_eq(keyword, "null")
}

/// A one-line description of what an operator does.
pub open spec fn operator_explanation_text(n: Seq<char>) -> Seq<char> {
    if n == "BT"@ {
        "Begin a text object"@
    } else if n == "ET"@ {
        "End a text object"@
    } else if n == "Tf"@ {
        "Set text font and size"@
    } else if n == "Td"@ || n == "TD"@ || n == "Tm"@ || n == "T*"@ {
        "Move or set text position"@
    } else if n == "Tj"@ || n == "TJ"@ || n == "'"@ || n == "\""@ {
        "Show text"@
    } else if n == "q"@ {
        "Save graphics state"@
    } else if n == "Q"@ {
        "Restore graphics state"@
    } else if n == "cm"@ {
        "Concatenate the current transformation matrix"@
    } else if n == "Do"@ {
        "Paint an external object"@
    } else if n == "m"@ || n == "l"@ || n == "c"@ || n == "v"@ || n == "y"@ || n == "h"@ || n == "re"@ {
        "Construct a path"@
    } else if n == "S"@ || n == "s"@ || n == "f"@ || n == "F"@ || n == "f*"@ || n == "B"@ || n == "B*"@
        || n == "b"@ || n == "b*"@ || n == "n"@ {
        "Paint or end the current path"@
    } else if n == "CS"@ || n == "cs"@ || n == "SC"@ || n == "SCN"@ || n == "sc"@ || n == "scn"@
        || n == "G"@ || n == "g"@ || n == "RG"@ || n == "rg"@ || n == "K"@ || n == "k"@ {
        "Set color or color space"@
    } else if known_operator(n) {
        "Known PDF content stream operator"@
    } else {
        "Unknown PDF content stream operator"@
    }
}

/// Every operator of the PDF content stream language is known: the text,
/// graphics state, path construction (including `re`), path painting and
/// clipping, colour, shading, XObject, inline image, marked content,
/// compatibility and Type 3 glyph operators.
pub proof fn lemma_pdf_operators_known()
    ensures
        known_operator("BT"@) && known_operator("ET"@) && known_operator("Tc"@) && known_operator("Tw"@) && known_operator("Tz"@) && known_operator("TL"@) && known_operator("Tf"@) && known_operator("Tr"@) && known_operator("Ts"@),
        known_operator("Td"@) && known_operator("TD"@) && known_operator("Tm"@) && known_operator("T*"@) && known_operator("Tj"@) && known_operator("TJ"@) && known_operator("'"@) && known_operator("\""@),
        known_operator("q"@) && known_operator("Q"@) && known_operator("cm"@) && known_operator("w"@) && known_operator("J"@) && known_operator("j"@) && known_operator("M"@) && known_operator("d"@) && known_operator("ri"@) && known_operator("i"@) && known_operator("gs"@),
        known_operator("m"@) && known_operator("l"@) && known_operator("c"@) && known_operator("v"@) && known_operator("y"@) && known_operator("h"@) && known_operator("re"@),
        known_operator("S"@) && known_operator("s"@) && known_operator("f"@) && known_operator("F"@) && known_operator("f*"@) && known_operator("B"@) && known_operator("B*"@) && known_operator("b"@) && known_operator("b*"@) && known_operator("n"@) && known_operator("W"@) && known_operator("W*"@),
        known_operator("CS"@) && known_operator("cs"@) && known_operator("SC"@) && known_operator("SCN"@) && known_operator("sc"@) && known_operator("scn"@) && known_operator("G"@) && known_operator("g"@) && known_operator("RG"@) && known_operator("rg"@) && known_operator("K"@) && known_operator("k"@),
        known_operator("sh"@) && known_operator("Do"@) && known_operator("BI"@) && known_operator("ID"@) && known_operator("EI"@) && known_operator("MP"@) && known_operator("DP"@) && known_operator("BMC"@) && known_operator("BDC"@) && known_operator("EMC"@) && known_operator("BX"@) && known_operator("EX"@) && known_operator("d0"@) && known_operator("d1"@),
{
}

/// The operator table and the explanations agree: an operator is known
/// exactly when its explanation is not the one for unknown operators, so
/// every operator that has a description of its own (text, state, path
/// construction and painting, colour, XObjects) is known.
pub proof fn lemma_explained_operators_known(n: Seq<char>)
    ensures
        known_operator(n) <==> operator_explanation_text(n) != "Unknown PDF content stream operator"@,
{
    reveal_strlit("Begin a text object");
    reveal_strlit("End a text object");
    reveal_strlit("Set text font and size");
    reveal_strlit("Move or set text position");
    reveal_strlit("Show text");
    reveal_strlit("Save graphics state");
    reveal_strlit("Restore graphics state");
    reveal_strlit("Concatenate the current transformation matrix");
    reveal_strlit("Paint an external object");
    reveal_strlit("Construct a path");
    reveal_strlit("Paint or end the current path");
    reveal_strlit("Set color or color space");
    reveal_strlit("Known PDF content stream operator");
    reveal_strlit("Unknown PDF content stream operator");
    assert("Begin a text object"@.len() != "Unknown PDF content stream operator"@.len() || "Begin a text object"@[0] != "Unknown PDF content stream operator"@[0]);
    assert("End a text object"@.len() != "Unknown PDF content stream operator"@.len() || "End a text object"@[0] != "Unknown PDF content stream operator"@[0]);
    assert("Set text font and size"@.len() != "Unknown PDF content stream operator"@.len() || "Set text font and size"@[0] != "Unknown PDF content stream operator"@[0]);
    assert("Move or set text position"@.len() != "Unknown PDF content stream operator"@.len() || "Move or set text position"@[0] != "Unknown PDF content stream operator"@[0]);
    assert("Show text"@.len() != "Unknown PDF content stream operator"@.len() || "Show text"@[0] != "Unknown PDF content stream operator"@[0]);
    assert("Save graphics state"@.len() != "Unknown PDF content stream operator"@.len() || "Save graphics state"@[0] != "Unknown PDF content stream operator"@[0]);
    assert("Restore graphics state"@.len() != "Unknown PDF content stream operator"@.len() || "Restore graphics state"@[0] != "Unknown PDF content stream operator"@[0]);
    assert("Concatenate the current transformation matrix"@.len() != "Unknown PDF content stream operator"@.len() || "Concatenate the current transformation matrix"@[0] != "Unknown PDF content stream operator"@[0]);
    assert("Paint an external object"@.len() != "Unknown PDF content stream operator"@.len() || "Paint an external object"@[0] != "Unknown PDF content stream operator"@[0]);
    assert("Construct a path"@.len() != "Unknown PDF content stream operator"@.len() || "Construct a path"@[0] != "Unknown PDF content stream operator"@[0]);
    assert("Paint or end the current path"@.len() != "Unknown PDF content stream operator"@.len() || "Paint or end the current path"@[0] != "Unknown PDF content stream operator"@[0]);
    assert("Set color or color space"@.len() != "Unknown PDF content stream operator"@.len() || "Set color or color space"@[0] != "Unknown PDF content stream operator"@[0]);
    assert("Known PDF content stream operator"@.len() != "Unknown PDF content stream operator"@.len() || "Known PDF content stream operator"@[0] != "Unknown PDF content stream operator"@[0]);
}

pub fn operator_explanation(operator: &str) -> (r: String)
    ensures
        r@ == operator_explanation_text(operator@),
{
    let o = operator;
    if str_eq(o, "BT") {
        owned("Begin a text object")
    } else if str_eq(o, "ET") {
        owned("End a text object")
    } else if str_eq(o, "Tf") {
        owned("Set text font and size")
    } else if str_eq(o, "Td") || str_eq(o, "TD") || str_eq(o, "Tm") || str_eq(o, "T*") {
        owned("Move or set text position")
    } else if str_eq(o, "Tj") || str_eq(o, "TJ") || str_eq(o, "'") || str_eq(o, "\"") {
        owned("Show text")
    } else if str_eq(o, "q") {
        owned("Save graphics state")
    } else if str_eq(o, "Q") {
        owned("Restore graphics state")
    } else if str_eq(o, "cm") {
        owned("Concatenate the current transformation matrix")
    } else if str_eq(o, "Do") {
        owned("Paint an external object")
    } else if str_eq(o, "m") || str_eq(o, "l") || str_eq(o, "c") || str_eq(o, "v") || str_eq(o, "y")
        || str_eq(o, "h") || str_eq(o, "re") {
        owned("Construct a path")
    } else if str_eq(o, "S") || str_eq(o, "s") || str_eq(o, "f") || str_eq(o, "F") || str_eq(o, "f*")
        || str_eq(o, "B") || str_eq(o, "B*") || str_eq(o, "b") || str_eq(o, "b*") || str_eq(o, "n") {
        owned("Paint or end the current path")
    } else if str_eq(o, "CS") || str_eq(o, "cs") || str_eq(o, "SC") || str_eq(o, "SCN") || str_eq(o, "sc")
        || str_eq(o, "scn") || str_eq(o, "G") || str_eq(o, "g") || str_eq(o, "RG") || str_eq(o, "rg")
        || str_eq(o, "K") || str_eq(o, "k") {
        owned("Set color or color space")
    } else if is_known_operator(o) {
        owned("Known PDF content stream operator")
    } else {
        owned("Unknown PDF content stream operator")
    }
}


/// An operator with the operand tokens that precede it.
#[derive(Debug)]
pub struct ContentOperator {
    pub name: String,
    pub operands: Vec<ContentToken>,
    pub byte_range: ByteRange,
    pub known: bool,
    pub explanation: String,
}

/// A token as kind, text, byte range and raw bytes.
pub type TokView = (ContentTokenKind, Seq<char>, ByteRange, Seq<u8>);

/// An operator as name, operands, byte range, whether known, explanation.
pub type OpView = (Seq<char>, Seq<TokView>, ByteRange, bool, Seq<char>);

pub open spec fn tview(t: ContentToken) -> TokView {
    (t.kind, t.lexeme@, t.byte_range, t.raw_bytes@)
}

pub open spec fn tviews(ts: Seq<ContentToken>) -> Seq<TokView> {
    ts.map_values(|t: ContentToken| tview(t))
}

pub open spec fn opview(o: ContentOperator) -> OpView {
    (o.name@, tviews(o.operands@), o.byte_range, o.known, o.explanation@)
}

pub open spec fn opviews(os: Seq<ContentOperator>) -> Seq<OpView> {
    os.map_values(|o: ContentOperator| opview(o))
}

/// The operator that a keyword token forms with its operands.
pub open spec fn op_of(t: TokView, operands: Seq<TokView>) -> OpView {
    (t.1, operands, t.2, known_operator(t.1), operator_explanation_text(t.1))
}

/// Operators so far, pending operands, array depth, dictionary depth, and
/// whether inline image data is being skipped.
pub type GroupState = (Seq<OpView>, Seq<TokView>, nat, nat, bool);

/// One token's effect on grouping. Comments are dropped; brackets count
/// nesting and become operands; inside inline image data only `EI`
/// counts; a keyword outside brackets that is not `true`/`false`/`null`
/// takes the pending operands.
pub open spec fn group_step(st: GroupState, t: TokView) -> GroupState {
    let (ops, operands, ad, dd, skip) = st;
    if t.0 == ContentTokenKind::Comment {
        st
    } else if t.0 == ContentTokenKind::ArrayStart {
        (ops, operands.push(t), ad + 1, dd, skip)
    } else if t.0 == ContentTokenKind::ArrayEnd {
        (ops, operands.push(t), if ad > 0 { (ad - 1) as nat } else { 0 }, dd, skip)
    } else if t.0 == ContentTokenKind::DictionaryStart {
        (ops, operands.push(t), ad, dd + 1, skip)
    } else if t.0 == ContentTokenKind::DictionaryEnd {
        (ops, operands.push(t), ad, if dd > 0 { (dd - 1) as nat } else { 0 }, skip)
    } else if skip {
        if t.0 == ContentTokenKind::Keyword && t.1 == "EI"@ {
            (ops.push(op_of(t, seq![])), operands, ad, dd, false)
        } else {
            st
        }
    } else if t.0 == ContentTokenKind::Keyword && ad == 0 && dd == 0 && !keyword_operand(t.1) {
        (ops.push(op_of(t, operands)), seq![], ad, dd, t.1 == "ID"@)
    } else {
        (ops, operands.push(t), ad, dd, skip)
    }
}

pub open spec fn group_fold(ts: Seq<TokView>) -> GroupState
    decreases ts.len(),
{
    if ts.len() == 0 {
        (seq![], seq![], 0, 0, false)
    } else {
        group_step(group_fold(ts.drop_last()), ts.last())
    }
}

/// The operators that a token sequence groups into.
pub open spec fn grouped_operators(ts: Seq<TokView>) -> Seq<OpView> {
    group_fold(ts).0
}

/// A copy of a token.
pub fn copy_token(t: &ContentToken) -> (r: ContentToken)
    ensures
        tview(r) == tview(*t),
{
    ContentToken {
        kind: t.kind,
        lexeme: owned(t.lexeme.as_str()),
        byte_range: t.byte_range,
        raw_bytes: t.raw_bytes.clone(),
    }
}

fn content_operator(token: &ContentToken, operands: Vec<ContentToken>) -> (o: ContentOperator)
    ensures
        opview(o) == op_of(tview(*token), tviews(operands@)),
{
    let known = is_known_operator(token.lexeme.as_str());
    ContentOperator {
        name: owned(token.lexeme.as_str()),
        operands,
        byte_range: token.byte_range,
        known,
        explanation: operator_explanation(token.lexeme.as_str()),
    }
}

/// Groups tokens into operators with their operands.
pub fn group_operators(tokens: &[ContentToken]) -> (ops: Vec<ContentOperator>)
    ensures
        opviews(ops@) == grouped_operators(tviews(tokens@)),
{
    let mut operators: Vec<ContentOperator> = Vec::new();
    let mut operands: Vec<ContentToken> = Vec::new();
    let mut array_depth: usize = 0;
    let mut dictionary_depth: usize = 0;
    let mut skip_until_inline_image_end = false;
    let ghost tv = tviews(tokens@);
    let mut i: usize = 0;
    assert(tv.take(0) =~= Seq::<TokView>::empty());
    assert(opviews(operators@) =~= Seq::<OpView>::empty());
    assert(tviews(operands@) =~= Seq::<TokView>::empty());
    while i < tokens.len()
        invariant
            i <= tokens@.len(),
            tv == tviews(tokens@),
            array_depth <= i,
            dictionary_depth <= i,
            group_fold(tv.take(i as int)) == (opviews(operators@), tviews(operands@), array_depth as nat,
                dictionary_depth as nat, skip_until_inline_image_end),
        decreases tokens@.len() - i,
    {
        let token = &tokens[i];
        assert(tv.take(i + 1).drop_last() =~= tv.take(i as int));
        assert(tv.take(i + 1).last() == tview(*token));
        let ghost ov = opviews(operators@);
        let ghost pv = tviews(operands@);
        if token.kind == ContentTokenKind::Comment {
        } else if token.kind == ContentTokenKind::ArrayStart {
            array_depth = array_depth + 1;
            operands.push(copy_token(token));
            assert(tviews(operands@) =~= pv.push(tview(*token)));
        } else if token.kind == ContentTokenKind::ArrayEnd {
            array_depth = array_depth.saturating_sub(1);
            operands.push(copy_token(token));
            assert(tviews(operands@) =~= pv.push(tview(*token)));
        } else if token.kind == ContentTokenKind::DictionaryStart {
            dictionary_depth = dictionary_depth + 1;
            operands.push(copy_token(token));
            assert(tviews(operands@) =~= pv.push(tview(*token)));
        } else if token.kind == ContentTokenKind::DictionaryEnd {
            dictionary_depth = dictionary_depth.saturating_sub(1);
            operands.push(copy_token(token));
            assert(tviews(operands@) =~= pv.push(tview(*token)));
        } else if skip_until_inline_image_end {
            if token.kind == ContentTokenKind::Keyword && str_eq(token.lexeme.as_str(), "EI") {
                let op = content_operator(token, Vec::new());
                assert(tviews(Seq::<ContentToken>::empty()) =~= Seq::<TokView>::empty());
                operators.push(op);
                assert(opviews(operators@) =~= ov.push(op_of(tview(*token), seq![])));
                skip_until_inline_image_end = false;
            }
        } else if token.kind == ContentTokenKind::Keyword && array_depth == 0 && dictionary_depth == 0
            && !is_keyword_operand(token.lexeme.as_str()) {
            let taken = operands;
            operands = Vec::new();
            let op = content_operator(token, taken);
            let is_id = str_eq(op.name.as_str(), "ID");
            operators.push(op);
            assert(opviews(operators@) =~= ov.push(op_of(tview(*token), pv)));
            assert(tviews(operands@) =~= Seq::<TokView>::empty());
            if is_id {
                skip_until_inline_image_end = true;
            }
        } else {
            operands.push(copy_token(token));
            assert(tviews(operands@) =~= pv.push(tview(*token)));
        }
        i = i + 1;
    }
    assert(tv.take(tokens@.len() as int) =~= tv);
    operators
}


/// A problem found in an operator sequence.
#[derive(Debug)]
pub struct ContentWarning {
    pub rule_id: String,
    pub operator: Option<String>,
    pub byte_range: Option<ByteRange>,
    pub message: String,
    pub suggested_next_step: String,
}

/// A warning as rule, operator, byte range, message and next step.
pub type WarnView = (Seq<char>, Option<Seq<char>>, Option<ByteRange>, Seq<char>, Seq<char>);

pub open spec fn wview(w: ContentWarning) -> WarnView {
    (w.rule_id@, match w.operator { Some(o) => Some(o@), None => None }, w.byte_range, w.message@, w.suggested_next_step@)
}

pub open spec fn wviews(ws: Seq<ContentWarning>) -> Seq<WarnView> {
    ws.map_values(|w: ContentWarning| wview(w))
}

pub open spec fn unknown_operator_warning(op: OpView) -> WarnView {
    ("content.unknown_operator"@, Some(op.0), Some(op.2),
        "Unknown or unsupported content stream operator `"@ + op.0 + "` at content byte range "@
            + decimal(op.2.start as nat) + ".."@ + decimal(op.2.end as nat),
        "Check whether the content stream contains a typo, unsupported extension, or corrupted operator bytes"@)
}

pub open spec fn nested_text_warning(op: OpView) -> WarnView {
    ("content.nested_text_object"@, Some(op.0), Some(op.2),
        "Nested BT operator found before the previous text object ended"@,
        "Verify that every BT text object is closed with ET before starting another"@)
}

pub open spec fn unmatched_text_end_warning(op: OpView) -> WarnView {
    ("content.unmatched_text_end"@, Some(op.0), Some(op.2),
        "ET operator found without a matching BT"@,
        "Check content generation around text object boundaries"@)
}

pub open spec fn unmatched_restore_warning(op: OpView) -> WarnView {
    ("content.unmatched_graphics_restore"@, Some(op.0), Some(op.2),
        "Q operator restores a graphics state that was not saved with q"@,
        "Check q/Q balancing in the page content stream"@)
}

pub open spec fn unclosed_text_warning(range: Option<ByteRange>) -> WarnView {
    ("content.unclosed_text_object"@, None, range,
        "Content stream ended while a BT text object was still open"@,
        "Add a matching ET or inspect whether the content stream was truncated"@)
}

pub open spec fn unbalanced_state_warning(depth: nat, range: Option<ByteRange>) -> WarnView {
    ("content.unbalanced_graphics_state"@, None, range,
        "Content stream ended with "@ + decimal(depth) + " unmatched q graphics state save operator(s)"@,
        "Add matching Q operators or inspect whether the content stream was truncated"@)
}

/// Warnings so far, whether a text object is open, graphics state depth.
pub type WarnState = (Seq<WarnView>, bool, nat);

/// One operator's effect: unknown operators are reported; `BT`/`ET` and
/// `q`/`Q` are checked for balance.
pub open spec fn warn_step(st: WarnState, op: OpView) -> WarnState {
    let (ws, in_text, depth) = st;
    let w1 = if !op.3 { ws.push(unknown_operator_warning(op)) } else { ws };
    if op.0 == "BT"@ {
        (if in_text { w1.push(nested_text_warning(op)) } else { w1 }, true, depth)
    } else if op.0 == "ET"@ {
        (if !in_text { w1.push(unmatched_text_end_warning(op)) } else { w1 }, false, depth)
    } else if op.0 == "q"@ {
        (w1, in_text, depth + 1)
    } else if op.0 == "Q"@ {
        if depth == 0 { (w1.push(unmatched_restore_warning(op)), in_text, 0) } else { (w1, in_text, (depth - 1) as nat) }
    } else {
        (w1, in_text, depth)
    }
}

pub open spec fn warn_fold(ops: Seq<OpView>) -> WarnState
    decreases ops.len(),
{
    if ops.len() == 0 { (seq![], false, 0) } else { warn_step(warn_fold(ops.drop_last()), ops.last()) }
}

/// The warnings for an operator sequence, with the end-of-stream checks.
pub open spec fn operator_warnings(ops: Seq<OpView>) -> Seq<WarnView> {
    let (ws, in_text, depth) = warn_fold(ops);
    let last = if ops.len() > 0 { Some(ops.last().2) } else { None };
    let w2 = if in_text { ws.push(unclosed_text_warning(last)) } else { ws };
    if depth > 0 { w2.push(unbalanced_state_warning(depth, last)) } else { w2 }
}

fn warning(rule: &str, operator: Option<&String>, byte_range: Option<ByteRange>, message: String, next: &str) -> (w: ContentWarning)
    ensures
        wview(w) == (rule@, match operator { Some(o) => Some(o@), None => None }, byte_range, message@, next@),
{
    ContentWarning {
        rule_id: owned(rule),
        operator: match operator { Some(o) => Some(owned(o.as_str())), None => None },
        byte_range,
        message,
        suggested_next_step: owned(next),
    }
}

/// Checks an operator sequence for unknown operators and unbalanced
/// text objects and graphics states.
pub fn analyze_operator_warnings(operators: &[ContentOperator]) -> (ws: Vec<ContentWarning>)
    ensures
        wviews(ws@) == operator_warnings(opviews(operators@)),
{
    let mut warnings: Vec<ContentWarning> = Vec::new();
    let mut in_text_object = false;
    let mut graphics_state_depth: usize = 0;
    let ghost ov = opviews(operators@);
    let mut i: usize = 0;
    assert(ov.take(0) =~= Seq::<OpView>::empty());
    assert(wviews(warnings@) =~= Seq::<WarnView>::empty());
    while i < operators.len()
        invariant
            i <= operators@.len(),
            ov == opviews(operators@),
            graphics_state_depth <= i,
            warn_fold(ov.take(i as int)) == (wviews(warnings@), in_text_object, graphics_state_depth as nat),
        decreases operators@.len() - i,
    {
        let operator = &operators[i];
        assert(ov.take(i + 1).drop_last() =~= ov.take(i as int));
        assert(ov.take(i + 1).last() == opview(*operator));
        let ghost op = opview(*operator);
        if !operator.known {
            let ghost before = wviews(warnings@);
            let mut message = owned("Unknown or unsupported content stream operator `");
            push_str(&mut message, operator.name.as_str());
            push_str(&mut message, "` at content byte range ");
            push_decimal(&mut message, operator.byte_range.start);
            push_str(&mut message, "..");
            push_decimal(&mut message, operator.byte_range.end);
            warnings.push(warning("content.unknown_operator", Some(&operator.name), Some(operator.byte_range), message,
                "Check whether the content stream contains a typo, unsupported extension, or corrupted operator bytes"));
            assert(wviews(warnings@) =~= before.push(unknown_operator_warning(op)));
        }
        let ghost w1 = wviews(warnings@);
        if str_eq(operator.name.as_str(), "BT") {
            if in_text_object {
                warnings.push(warning("content.nested_text_object", Some(&operator.name), Some(operator.byte_range),
                    owned("Nested BT operator found before the previous text object ended"),
                    "Verify that every BT text object is closed with ET before starting another"));
                assert(wviews(warnings@) =~= w1.push(nested_text_warning(op)));
            }
            in_text_object = true;
        } else if str_eq(operator.name.as_str(), "ET") {
            if !in_text_object {
                warnings.push(warning("content.unmatched_text_end", Some(&operator.name), Some(operator.byte_range),
                    owned("ET operator found without a matching BT"),
                    "Check content generation around text object boundaries"));
                assert(wviews(warnings@) =~= w1.push(unmatched_text_end_warning(op)));
            }
            in_text_object = false;
        } else if str_eq(operator.name.as_str(), "q") {
            graphics_state_depth = graphics_state_depth + 1;
        } else if str_eq(operator.name.as_str(), "Q") {
            if graphics_state_depth == 0 {
                warnings.push(warning("content.unmatched_graphics_restore", Some(&operator.name), Some(operator.byte_range),
                    owned("Q operator restores a graphics state that was not saved with q"),
                    "Check q/Q balancing in the page content stream"));
                assert(wviews(warnings@) =~= w1.push(unmatched_restore_warning(op)));
            } else {
                graphics_state_depth = graphics_state_depth - 1;
            }
        }
        i = i + 1;
    }
    assert(ov.take(operators@.len() as int) =~= ov);
    let last: Option<ByteRange> = if operators.len() > 0 { Some(operators[operators.len() - 1].byte_range) } else { None };
    let ghost w0 = wviews(warnings@);
    if in_text_object {
        warnings.push(warning("content.unclosed_text_object", None, last,
            owned("Content stream ended while a BT text object was still open"),
            "Add a matching ET or inspect whether the content stream was truncated"));
        assert(wviews(warnings@) =~= w0.push(unclosed_text_warning(last)));
    }
    let ghost w2 = wviews(warnings@);
    if graphics_state_depth > 0 {
        let mut message = owned("Content stream ended with ");
        push_decimal(&mut message, graphics_state_depth);
        push_str(&mut message, " unmatched q graphics state save operator(s)");
        warnings.push(warning("content.unbalanced_graphics_state", None, last, message,
            "Add matching Q operators or inspect whether the content stream was truncated"));
        assert(wviews(warnings@) =~= w2.push(unbalanced_state_warning(graphics_state_depth as nat, last)));
    }
    warnings
}

/// The tokens, operators and warnings of a content stream.
#[derive(Debug)]
pub struct ContentAnalysis {
    pub tokens: Vec<ContentToken>,
    pub operators: Vec<ContentOperator>,
    pub warnings: Vec<ContentWarning>,
}

/// `a` is the analysis of `bytes`: its tokens as the scan finds them, the
/// operators grouped from them, and the warnings on those operators.
pub open spec fn analysis_matches(a: ContentAnalysis, bytes: Seq<u8>) -> bool {
    let spec = tokens_from(bytes, 0)->0;
    &&& a.tokens@.len() == spec.len()
    &&& forall|i: int| 0 <= i < spec.len() ==> token_matches(#[trigger] a.tokens@[i], bytes, spec[i])
    &&& opviews(a.operators@) == grouped_operators(tviews(a.tokens@))
    &&& wviews(a.warnings@) == operator_warnings(opviews(a.operators@))
}

/// A scanned token (kind, start, end) as the token view it becomes.
pub open spec fn scanned_token_view(b: Seq<u8>, t: (ContentTokenKind, int, int)) -> TokView {
    (t.0, token_lexeme(t.0, b.subrange(t.1, t.2)), ByteRange { start: t.1 as usize, end: t.2 as usize }, b.subrange(t.1, t.2))
}

/// The operators of a tokenizable content stream.
pub open spec fn content_operators(b: Seq<u8>) -> Seq<OpView> {
    grouped_operators(tokens_from(b, 0)->0.map_values(|t: (ContentTokenKind, int, int)| scanned_token_view(b, t)))
}

/// The operators of an analysis are those of the stream it was made from.
pub proof fn lemma_analysis_operators(a: ContentAnalysis, b: Seq<u8>)
    requires
        analysis_matches(a, b),
    ensures
        opviews(a.operators@) == content_operators(b),
{
    let spec = tokens_from(b, 0)->0;
    let views = spec.map_values(|t: (ContentTokenKind, int, int)| scanned_token_view(b, t));
    assert forall|i: int| 0 <= i < spec.len() implies tviews(a.tokens@)[i] == views[i] by {
        assert(token_matches(a.tokens@[i], b, spec[i]));
    }
    assert(tviews(a.tokens@) =~= views);
}

/// Tokenizes a content stream, groups its operators and checks them.
pub fn analyze_content_stream(bytes: &[u8]) -> (a: ContentAnalysis)
    requires
        tokenizable(bytes@),
    ensures
        analysis_matches(a, bytes@),
{
    let tokens = tokenize_content_stream(bytes);
    let operators = group_operators(tokens.as_slice());
    let warnings = analyze_operator_warnings(operators.as_slice());
    ContentAnalysis { tokens, operators, warnings }
}


/// The text of the first name among the operands.
pub open spec fn first_name(operands: Seq<TokView>) -> Option<Seq<char>>
    decreases operands.len(),
{
    if operands.len() == 0 {
        None
    } else if operands[0].0 == ContentTokenKind::Name {
        Some(operands[0].1)
    } else {
        first_name(operands.drop_first())
    }
}

/// The text of the last name among the operands.
pub open spec fn last_name(operands: Seq<TokView>) -> Option<Seq<char>>
    decreases operands.len(),
{
    if operands.len() == 0 {
        None
    } else if operands.last().0 == ContentTokenKind::Name {
        Some(operands.last().1)
    } else {
        last_name(operands.drop_last())
    }
}

/// The names that operators called `op` use: the first (or last) name operand of each.
pub open spec fn names_used(ops: Seq<OpView>, op: Seq<char>, use_last: bool) -> Seq<Seq<char>>
    decreases ops.len(),
{
    if ops.len() == 0 {
        seq![]
    } else {
        let rest = names_used(ops.drop_last(), op, use_last);
        let o = ops.last();
        let n = if use_last { last_name(o.1) } else { first_name(o.1) };
        if o.0 == op && n is Some { rest.push(n->0) } else { rest }
    }
}

fn first_name_operand(operands: &Vec<ContentToken>) -> (r: Option<&String>)
    ensures
        match r {
            Some(s) => first_name(tviews(operands@)) == Some(s@),
            None => first_name(tviews(operands@)) is None,
        },
{
    let ghost tv = tviews(operands@);
    let mut i: usize = 0;
    assert(tv.skip(0) =~= tv);
    while i < operands.len()
        invariant
            i <= operands@.len(),
            tv == tviews(operands@),
            first_name(tv) == first_name(tv.skip(i as int)),
        decreases operands@.len() - i,
    {
        assert(tv.skip(i as int)[0] == tview(operands@[i as int]));
        assert(tv.skip(i as int).drop_first() =~= tv.skip(i + 1));
        if operands[i].kind == ContentTokenKind::Name {
            return Some(&operands[i].lexeme);
        }
        i = i + 1;
    }
    None
}

fn last_name_operand(operands: &Vec<ContentToken>) -> (r: Option<&String>)
    ensures
        match r {
            Some(s) => last_name(tviews(operands@)) == Some(s@),
            None => last_name(tviews(operands@)) is None,
        },
{
    let ghost tv = tviews(operands@);
    let mut i: usize = operands.len();
    assert(tv.take(i as int) =~= tv);
    while i > 0
        invariant
            i <= operands@.len(),
            tv == tviews(operands@),
            last_name(tv) == last_name(tv.take(i as int)),
        decreases i,
    {
        assert(tv.take(i as int).last() == tview(operands@[i - 1]));
        assert(tv.take(i as int).drop_last() =~= tv.take(i - 1));
        if operands[i - 1].kind == ContentTokenKind::Name {
            return Some(&operands[i - 1].lexeme);
        }
        i = i - 1;
    }
    None
}

fn collect_names(analysis: &ContentAnalysis, op: &str, use_last: bool) -> (r: Vec<String>)
    ensures
        names_sorted(string_views(r@)),
        forall|x: Seq<char>| #[trigger] string_views(r@).contains(x) <==> names_used(opviews(analysis.operators@), op@, use_last).contains(x),
{
    let ghost ov = opviews(analysis.operators@);
    let mut out: Vec<String> = Vec::new();
    let mut i: usize = 0;
    assert(ov.take(0) =~= Seq::<OpView>::empty());
    while i < analysis.operators.len()
        invariant
            i <= analysis.operators@.len(),
            ov == opviews(analysis.operators@),
            names_sorted(string_views(out@)),
            forall|x: Seq<char>| #[trigger] string_views(out@).contains(x) <==> names_used(ov.take(i as int), op@, use_last).contains(x),
        decreases analysis.operators@.len() - i,
    {
        let o = &analysis.operators[i];
        assert(ov.take(i + 1).drop_last() =~= ov.take(i as int));
        assert(ov.take(i + 1).last() == opview(*o));
        let ghost prev = names_used(ov.take(i as int), op@, use_last);
        if str_eq(o.name.as_str(), op) {
            let n = if use_last { last_name_operand(&o.operands) } else { first_name_operand(&o.operands) };
            match n {
                Some(name) => {
                    let ghost nv = name@;
                    insert_sorted_unique(&mut out, owned(name.as_str()));
                    assert forall|x: Seq<char>| #[trigger] string_views(out@).contains(x) <==> prev.push(nv).contains(x) by {
                        if prev.push(nv).contains(x) {
                            let k = choose|k: int| 0 <= k < prev.push(nv).len() && prev.push(nv)[k] == x;
                            if k < prev.len() {
                                assert(prev.contains(x));
                            }
                        }
                        if prev.contains(x) {
                            let k = choose|k: int| 0 <= k < prev.len() && prev[k] == x;
                            assert(prev.push(nv)[k] == x);
                        }
                        if x == nv {
                            assert(prev.push(nv)[prev.len() as int] == x);
                        }
                    }
                },
                None => {},
            }
        }
        i = i + 1;
    }
    assert(ov.take(analysis.operators@.len() as int) =~= ov);
    out
}

/// The font resource names that `Tf` operators select, sorted, each once.
pub fn font_names_used(analysis: &ContentAnalysis) -> (r: Vec<String>)
    ensures
        names_sorted(string_views(r@)),
        forall|x: Seq<char>| #[trigger] string_views(r@).contains(x) <==> names_used(opviews(analysis.operators@), "Tf"@, false).contains(x),
{
    collect_names(analysis, "Tf", false)
}

/// The XObject resource names that `Do` operators paint, sorted, each once.
pub fn xobject_names_used(analysis: &ContentAnalysis) -> (r: Vec<String>)
    ensures
        names_sorted(string_views(r@)),
        forall|x: Seq<char>| #[trigger] string_views(r@).contains(x) <==> names_used(opviews(analysis.operators@), "Do"@, true).contains(x),
{
    collect_names(analysis, "Do", true)
}

// ---------------------------------------------------------------------------
// When an operator sequence draws no warning
// ---------------------------------------------------------------------------

/// Every operator is a known one.
pub open spec fn all_known(ops: Seq<OpView>) -> bool {
    forall|i: int| 0 <= i < ops.len() ==> #[trigger] ops[i].3
}

/// Whether the `BT`/`ET` operators so far alternate from `BT`, and whether
/// a text object is open.
pub open spec fn text_nesting(ops: Seq<OpView>) -> (bool, bool)
    decreases ops.len(),
{
    if ops.len() == 0 {
        (true, false)
    } else {
        let (ok, open) = text_nesting(ops.drop_last());
        let n = ops.last().0;
        if n == "BT"@ { (ok && !open, true) } else if n == "ET"@ { (ok && open, false) } else { (ok, open) }
    }
}

/// Whether no `Q` so far restored more than the `q` before it saved, and
/// how many saves are open.
pub open spec fn save_nesting(ops: Seq<OpView>) -> (bool, nat)
    decreases ops.len(),
{
    if ops.len() == 0 {
        (true, 0)
    } else {
        let (ok, depth) = save_nesting(ops.drop_last());
        let n = ops.last().0;
        if n == "BT"@ || n == "ET"@ {
            (ok, depth)
        } else if n == "q"@ {
            (ok, depth + 1)
        } else if n == "Q"@ {
            if depth == 0 { (false, 0) } else { (ok, (depth - 1) as nat) }
        } else {
            (ok, depth)
        }
    }
}

/// The `BT`/`ET` operators form `(BT ET)*`.
pub open spec fn text_balanced(ops: Seq<OpView>) -> bool {
    text_nesting(ops).0 && !text_nesting(ops).1
}

/// The `q`/`Q` operators form a balanced bracket word.
pub open spec fn saves_balanced(ops: Seq<OpView>) -> bool {
    save_nesting(ops).0 && save_nesting(ops).1 == 0
}

pub open spec fn unknown_count(ops: Seq<OpView>) -> nat
    decreases ops.len(),
{
    if ops.len() == 0 { 0 } else { unknown_count(ops.drop_last()) + if !ops.last().3 { 1nat } else { 0nat } }
}

pub open spec fn rule_count(ws: Seq<WarnView>, rule: Seq<char>) -> nat
    decreases ws.len(),
{
    if ws.len() == 0 { 0 } else { rule_count(ws.drop_last(), rule) + if ws.last().0 == rule { 1nat } else { 0nat } }
}

proof fn lemma_rule_count_push(ws: Seq<WarnView>, w: WarnView, rule: Seq<char>)
    ensures
        rule_count(ws.push(w), rule) == rule_count(ws, rule) + if w.0 == rule { 1nat } else { 0nat },
{
    assert(ws.push(w).drop_last() =~= ws);
}

proof fn lemma_other_rules()
    ensures
        "content.nested_text_object"@ != "content.unknown_operator"@,
        "content.unmatched_text_end"@ != "content.unknown_operator"@,
        "content.unmatched_graphics_restore"@ != "content.unknown_operator"@,
        "content.unclosed_text_object"@ != "content.unknown_operator"@,
        "content.unbalanced_graphics_state"@ != "content.unknown_operator"@,
{
    reveal_strlit("content.unknown_operator");
    reveal_strlit("content.nested_text_object");
    reveal_strlit("content.unmatched_text_end");
    reveal_strlit("content.unmatched_graphics_restore");
    reveal_strlit("content.unclosed_text_object");
    reveal_strlit("content.unbalanced_graphics_state");
    assert("content.unknown_operator"@.len() == 24);
    assert("content.nested_text_object"@.len() == 26);
    assert("content.unmatched_text_end"@.len() == 26);
    assert("content.unmatched_graphics_restore"@.len() == 34);
    assert("content.unclosed_text_object"@.len() == 28);
    assert("content.unbalanced_graphics_state"@.len() == 33);
}

proof fn lemma_warn_fold(ops: Seq<OpView>)
    ensures
        ({
            let (ws, in_text, depth) = warn_fold(ops);
            &&& in_text == text_nesting(ops).1
            &&& depth == save_nesting(ops).1
            &&& (ws.len() == 0 <==> all_known(ops) && text_nesting(ops).0 && save_nesting(ops).0)
            &&& rule_count(ws, "content.unknown_operator"@) == unknown_count(ops)
        }),
    decreases ops.len(),
{
    if ops.len() > 0 {
        let prev = ops.drop_last();
        lemma_warn_fold(prev);
        lemma_other_rules();
        let op = ops.last();
        let (ws, in_text, depth) = warn_fold(prev);
        let u = "content.unknown_operator"@;
        let w1 = if !op.3 { ws.push(unknown_operator_warning(op)) } else { ws };
        if !op.3 {
            lemma_rule_count_push(ws, unknown_operator_warning(op), u);
        }
        lemma_rule_count_push(w1, nested_text_warning(op), u);
        lemma_rule_count_push(w1, unmatched_text_end_warning(op), u);
        lemma_rule_count_push(w1, unmatched_restore_warning(op), u);
        assert(all_known(ops) <==> all_known(prev) && op.3) by {
            if all_known(prev) && op.3 {
                assert forall|i: int| 0 <= i < ops.len() implies #[trigger] ops[i].3 by {
                    if i < prev.len() {
                        assert(ops[i] == prev[i]);
                    }
                }
            }
            if all_known(ops) {
                assert(ops[ops.len() - 1].3);
                assert forall|i: int| 0 <= i < prev.len() implies #[trigger] prev[i].3 by {
                    assert(ops[i] == prev[i]);
                }
            }
        }
    }
}

/// An operator sequence draws no warning exactly when every operator is
/// known, `BT`/`ET` alternate as `(BT ET)*`, and `q`/`Q` balance; and the
/// unknown-operator warnings are one per unknown operator.
pub proof fn lemma_operator_warnings(ops: Seq<OpView>)
    ensures
        operator_warnings(ops).len() == 0 <==> all_known(ops) && text_balanced(ops) && saves_balanced(ops),
        rule_count(operator_warnings(ops), "content.unknown_operator"@) == unknown_count(ops),
{
    lemma_warn_fold(ops);
    lemma_other_rules();
    let (ws, in_text, depth) = warn_fold(ops);
    let last = if ops.len() > 0 { Some(ops.last().2) } else { None };
    let u = "content.unknown_operator"@;
    let w2 = if in_text { ws.push(unclosed_text_warning(last)) } else { ws };
    lemma_rule_count_push(ws, unclosed_text_warning(last), u);
    lemma_rule_count_push(w2, unbalanced_state_warning(depth, last), u);
}

// ---------------------------------------------------------------------------
// Grouping without arrays, dictionaries or inline images
// ---------------------------------------------------------------------------

/// A token that ends an operator: a keyword other than `true`, `false`,
/// `null`.
pub open spec fn is_op_token(t: TokView) -> bool {
    t.0 == ContentTokenKind::Keyword && !keyword_operand(t.1)
}

/// No array or dictionary delimiter and no inline image.
pub open spec fn plain_tokens(ts: Seq<TokView>) -> bool {
    forall|i: int| 0 <= i < ts.len() ==> {
        &&& #[trigger] ts[i].0 != ContentTokenKind::ArrayStart
        &&& ts[i].0 != ContentTokenKind::ArrayEnd
        &&& ts[i].0 != ContentTokenKind::DictionaryStart
        &&& ts[i].0 != ContentTokenKind::DictionaryEnd
        &&& !(ts[i].0 == ContentTokenKind::Keyword && ts[i].1 == "ID"@)
    }
}

pub open spec fn op_count(ts: Seq<TokView>) -> nat
    decreases ts.len(),
{
    if ts.len() == 0 { 0 } else { op_count(ts.drop_last()) + if is_op_token(ts.last()) { 1nat } else { 0nat } }
}

/// The index of the last operator token, or -1.
pub open spec fn last_op(ts: Seq<TokView>) -> int
    decreases ts.len(),
{
    if ts.len() == 0 { -1 } else if is_op_token(ts.last()) { ts.len() - 1 } else { last_op(ts.drop_last()) }
}

/// The tokens that are not comments, in order.
pub open spec fn non_comments(ts: Seq<TokView>) -> Seq<TokView>
    decreases ts.len(),
{
    if ts.len() == 0 {
        seq![]
    } else {
        non_comments(ts.drop_last()) + if ts.last().0 == ContentTokenKind::Comment { seq![] } else { seq![ts.last()] }
    }
}

/// Operator `k` of a plain token sequence: the operator token at `k` with
/// the non-comment tokens since the previous operator token.
pub open spec fn plain_operator(ts: Seq<TokView>, k: int) -> OpView {
    op_of(ts[k], non_comments(ts.subrange(last_op(ts.take(k)) + 1, k)))
}

proof fn lemma_last_op_bounds(ts: Seq<TokView>)
    ensures
        -1 <= last_op(ts) < ts.len(),
    decreases ts.len(),
{
    if ts.len() > 0 {
        lemma_last_op_bounds(ts.drop_last());
    }
}

proof fn lemma_group_plain_fold(ts: Seq<TokView>)
    requires
        plain_tokens(ts),
    ensures
        ({
            let (ops, pending, ad, dd, skip) = group_fold(ts);
            &&& ad == 0 && dd == 0 && !skip
            &&& ops.len() == op_count(ts)
            &&& pending == non_comments(ts.subrange(last_op(ts) + 1, ts.len() as int))
            &&& forall|k: int| 0 <= k < ts.len() && is_op_token(ts[k]) ==>
                #[trigger] ops[op_count(ts.take(k)) as int] == plain_operator(ts, k)
        }),
    decreases ts.len(),
{
    lemma_last_op_bounds(ts);
    if ts.len() == 0 {
        assert(ts.subrange(0, 0) =~= Seq::<TokView>::empty());
    } else {
        let prev = ts.drop_last();
        let t = ts.last();
        assert(plain_tokens(prev)) by {
            assert forall|i: int| 0 <= i < prev.len() implies #[trigger] prev[i].0 != ContentTokenKind::ArrayStart by {
                assert(prev[i] == ts[i]);
            }
            assert forall|i: int| 0 <= i < prev.len() implies {
                &&& #[trigger] prev[i].0 != ContentTokenKind::ArrayStart
                &&& prev[i].0 != ContentTokenKind::ArrayEnd
                &&& prev[i].0 != ContentTokenKind::DictionaryStart
                &&& prev[i].0 != ContentTokenKind::DictionaryEnd
                &&& !(prev[i].0 == ContentTokenKind::Keyword && prev[i].1 == "ID"@)
            } by {
                assert(prev[i] == ts[i]);
            }
        }
        lemma_group_plain_fold(prev);
        lemma_last_op_bounds(prev);
        let (ops, pending, ad, dd, skip) = group_fold(prev);
        let n = ts.len() as int;
        assert(t == ts[n - 1]);
        let lo = last_op(prev);
        assert(ts.take(n - 1) =~= prev);
        // Operators before the last token are unchanged.
        let out = group_fold(ts);
        assert forall|k: int| 0 <= k < n - 1 && is_op_token(ts[k]) implies
            #[trigger] out.0[op_count(ts.take(k)) as int] == plain_operator(ts, k) by {
            assert(ts[k] == prev[k]);
            assert(ts.take(k) =~= prev.take(k));
            lemma_last_op_bounds(prev.take(k));
            assert(ts.subrange(last_op(ts.take(k)) + 1, k) =~= prev.subrange(last_op(prev.take(k)) + 1, k));
            assert(plain_operator(ts, k) == plain_operator(prev, k));
            lemma_op_count_prefix(prev, k);
            assert(out.0[op_count(ts.take(k)) as int] == ops[op_count(prev.take(k)) as int]);
        }
        if t.0 == ContentTokenKind::Comment {
            assert(ts.subrange(lo + 1, n) =~= ts.subrange(lo + 1, n - 1).push(t));
            assert(ts.subrange(lo + 1, n - 1) =~= prev.subrange(lo + 1, n - 1));
            assert(ts.subrange(lo + 1, n).drop_last() =~= prev.subrange(lo + 1, n - 1));
        } else if is_op_token(t) {
            assert(ts.subrange(n, n) =~= Seq::<TokView>::empty());
            assert(ts.subrange(lo + 1, n - 1) =~= prev.subrange(lo + 1, n - 1));
            assert(last_op(ts.take(n - 1)) == lo);
            assert(out.0[op_count(ts.take(n - 1)) as int] == plain_operator(ts, n - 1));
        } else {
            assert(ts.subrange(lo + 1, n).drop_last() =~= prev.subrange(lo + 1, n - 1));
            assert(ts.subrange(lo + 1, n).last() == t);
        }
    }
}

proof fn lemma_op_count_prefix(ts: Seq<TokView>, k: int)
    requires
        0 <= k < ts.len(),
        is_op_token(ts[k]),
    ensures
        op_count(ts.take(k)) < op_count(ts),
    decreases ts.len(),
{
    if k == ts.len() - 1 {
        assert(ts.drop_last() =~= ts.take(k));
    } else {
        assert(ts.drop_last().take(k) =~= ts.take(k));
        lemma_op_count_prefix(ts.drop_last(), k);
    }
}

/// Without arrays, dictionaries or inline images, there is one operator
/// per operator token (a keyword other than `true`, `false`, `null`), in
/// order; operator `j` is named and placed as the `j`-th such token, and
/// its operands are the non-comment tokens since the previous one.
pub proof fn lemma_group_operators_plain(ts: Seq<TokView>)
    requires
        plain_tokens(ts),
    ensures
        grouped_operators(ts).len() == op_count(ts),
        forall|k: int| 0 <= k < ts.len() && is_op_token(ts[k]) ==>
            #[trigger] grouped_operators(ts)[op_count(ts.take(k)) as int] == plain_operator(ts, k),
{
    lemma_group_plain_fold(ts);
}

// ---------------------------------------------------------------------------
// The layout of the tokens
// ---------------------------------------------------------------------------

/// Every byte in `[lo, hi)` is ASCII whitespace.
pub open spec fn ws_between(b: Seq<u8>, lo: int, hi: int) -> bool {
    forall|q: int| lo <= q < hi ==> #[trigger] is_ws(b[q])
}

/// Tokens scanned from `pos` lie inside the stream in increasing, disjoint,
/// non-empty ranges, with only whitespace before, between and after them.
pub open spec fn tokens_laid_out(b: Seq<u8>, pos: int, ts: Seq<(ContentTokenKind, int, int)>) -> bool {
    &&& forall|i: int| 0 <= i < ts.len() ==> pos <= (#[trigger] ts[i]).1 < ts[i].2 <= b.len()
    &&& forall|i: int, j: int| 0 <= i < j < ts.len() ==> (#[trigger] ts[i]).2 <= (#[trigger] ts[j]).1
    &&& ws_between(b, pos, if ts.len() == 0 { b.len() as int } else { ts[0].1 })
    &&& forall|i: int| 0 <= i < ts.len() - 1 ==> ws_between(b, (#[trigger] ts[i]).2, ts[i + 1].1)
    &&& ts.len() > 0 ==> ws_between(b, ts.last().2, b.len() as int)
}

proof fn lemma_skip_ws_from(b: Seq<u8>, pos: int)
    requires
        0 <= pos <= b.len(),
    ensures
        pos <= skip_ws_from(b, pos) <= b.len(),
        ws_between(b, pos, skip_ws_from(b, pos)),
        skip_ws_from(b, pos) < b.len() ==> !is_ws(b[skip_ws_from(b, pos)]),
    decreases b.len() - pos,
{
    if pos < b.len() && is_ws(b[pos]) {
        lemma_skip_ws_from(b, pos + 1);
    }
}

proof fn lemma_tokens_laid_out(b: Seq<u8>, pos: int)
    requires
        0 <= pos <= b.len(),
        tokens_from(b, pos) is Some,
    ensures
        tokens_laid_out(b, pos, tokens_from(b, pos)->0),
    decreases b.len() - pos,
{
    lemma_skip_ws_from(b, pos);
    let p = skip_ws_from(b, pos);
    if p < b.len() {
        let (k, e) = next_token(b, p)->0;
        let rest = tokens_from(b, e)->0;
        lemma_tokens_laid_out(b, e);
        let ts = tokens_from(b, pos)->0;
        assert(ts == seq![(k, p, e)] + rest);
        assert forall|i: int| 0 <= i < ts.len() implies pos <= (#[trigger] ts[i]).1 < ts[i].2 <= b.len() by {
            if i > 0 {
                assert(ts[i] == rest[i - 1]);
            }
        }
        assert forall|i: int, j: int| 0 <= i < j < ts.len() implies (#[trigger] ts[i]).2 <= (#[trigger] ts[j]).1 by {
            assert(ts[j] == rest[j - 1]);
            if i > 0 {
                assert(ts[i] == rest[i - 1]);
            }
        }
        assert forall|i: int| 0 <= i < ts.len() - 1 implies ws_between(b, (#[trigger] ts[i]).2, ts[i + 1].1) by {
            assert(ts[i + 1] == rest[i]);
            if i > 0 {
                assert(ts[i] == rest[i - 1]);
            }
        }
        if rest.len() > 0 {
            assert(ts.last() == rest.last());
        }
    }
}

/// The tokens of a content stream the tokenizer gets through, which
/// `tokenize_content_stream` returns with their raw bytes and lexemes, lie
/// in increasing, disjoint, non-empty ranges inside the stream, and every
/// byte outside them is ASCII whitespace.
pub proof fn lemma_token_layout(b: Seq<u8>)
    requires
        tokenizable(b),
    ensures
        tokens_laid_out(b, 0, tokens_from(b, 0)->0),
{
    lemma_tokens_laid_out(b, 0);
}

} // verus!
