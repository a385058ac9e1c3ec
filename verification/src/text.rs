//! Byte and text helpers shared by the parsers: ASCII classes, building
//! `String`s from bytes and characters, and decimal/hex formatting.
use vstd::prelude::*;
use vstd::utf8::*;

verus! {

/// ASCII whitespace as Rust's `u8::is_ascii_whitespace` defines it:
/// space, tab, line feed, form feed and carriage return.
pub open spec fn is_ws(b: u8) -> bool {
    b == 0x20u8 || b == 0x09u8 || b == 0x0au8 || b == 0x0cu8 || b == 0x0du8
}

/// ASCII decimal digit.
pub open spec fn is_digit(b: u8) -> bool {
    0x30u8 <= b <= 0x39u8
}

/// Printable ASCII other than space (`u8::is_ascii_graphic`).
pub open spec fn is_graphic(b: u8) -> bool {
    0x21u8 <= b <= 0x7eu8
}

/// PDF delimiter or whitespace: the bytes that end a name or a bare token.
pub open spec fn is_delim(b: u8) -> bool {
    is_ws(b) || b == 0x28u8 || b == 0x29u8 || b == 0x3cu8 || b == 0x3eu8 || b == 0x5bu8
        || b == 0x5du8 || b == 0x7bu8 || b == 0x7du8 || b == 0x2fu8 || b == 0x25u8
}

pub fn ascii_whitespace(b: u8) -> (r: bool)
    ensures
        r == is_ws(b),
{
    b == 0x20 || b == 0x09 || b == 0x0a || b == 0x0c || b == 0x0d
}

pub fn ascii_digit(b: u8) -> (r: bool)
    ensures
        r == is_digit(b),
{
    0x30 <= b && b <= 0x39
}

pub fn ascii_graphic(b: u8) -> (r: bool)
    ensures
        r == is_graphic(b),
{
    0x21 <= b && b <= 0x7e
}

pub fn delimiter(b: u8) -> (r: bool)
    ensures
        r == is_delim(b),
{
    ascii_whitespace(b) || b == 0x28 || b == 0x29 || b == 0x3c || b == 0x3e || b == 0x5b
        || b == 0x5d || b == 0x7b || b == 0x7d || b == 0x2f || b == 0x25
}

/// The characters of a byte sequence read as Latin-1 (one char per byte).
pub open spec fn latin1(bytes: Seq<u8>) -> Seq<char> {
    bytes.map_values(|b: u8| b as char)
}

/// Every byte is below 0x80.
pub open spec fn all_ascii(bytes: Seq<u8>) -> bool {
    forall|i: int| 0 <= i < bytes.len() ==> #[trigger] bytes[i] < 0x80u8
}

/// The text of each string.
pub open spec fn string_views(v: Seq<String>) -> Seq<Seq<char>> {
    v.map_values(|s: String| s@)
}

/// The characters that `String::from_utf8_lossy` yields for the given bytes.
pub uninterp spec fn utf8_lossy(bytes: Seq<u8>) -> Seq<char>;

/// Calls `std::string::String::push`. The contract claims what its
/// documentation states: the character is appended at the end.
#[verifier::external_body]
pub(crate) fn push_char(s: &mut String, c: char)
    ensures
        final(s)@ == old(s)@.push(c),
{
    s.push(c);
}

/// Calls `std::string::String::from_utf8_lossy` and takes ownership of the
/// result. The contract claims that the characters are `utf8_lossy` of the
/// input and, as the documentation states, that valid UTF-8 comes back
/// decoded unchanged.
#[verifier::external_body]
pub(crate) fn lossy_string(bytes: &[u8]) -> (s: String)
    ensures
        s@ == utf8_lossy(bytes@),
        valid_utf8(bytes@) ==> s@ == decode_utf8(bytes@),
{
    String::from_utf8_lossy(bytes).into_owned()
}

/// Calls `std::str::from_utf8`. The contract claims that it succeeds exactly
/// on valid UTF-8 and that the resulting text is the decoded characters.
#[verifier::external_body]
pub(crate) fn utf8_str(bytes: &[u8]) -> (r: Option<&str>)
    ensures
        r is Some <==> valid_utf8(bytes@),
        r matches Some(s) ==> s@ == decode_utf8(bytes@),
{
    std::str::from_utf8(bytes).ok()
}

/// Calls `char::from_u32`. The contract claims what its documentation
/// states: a char comes back exactly for Unicode scalar values, with that
/// code point.
#[verifier::external_body]
pub(crate) fn char_from_u32(v: u32) -> (r: Option<char>)
    ensures
        r is Some <==> is_scalar(v),
        r matches Some(c) ==> c as u32 == v,
{
    char::from_u32(v)
}

/// Latin-1 bytes decode to the same characters under lossy UTF-8 when they are ASCII.
pub proof fn lemma_ascii_valid_utf8(bytes: Seq<u8>)
    requires
        all_ascii(bytes),
    ensures
        valid_utf8(bytes),
        decode_utf8(bytes) == latin1(bytes),
    decreases bytes.len(),
{
    if bytes.len() > 0 {
        let rest = bytes.drop_first();
        let b = bytes[0];
        assert(b < 0x80u8 ==> (b & 0x7fu8) == b) by (bit_vector);
        assert(decode_first_scalar(bytes) == b as u32);
        assert(pop_first_scalar(bytes) =~= rest);
        lemma_ascii_valid_utf8(rest);
        assert(latin1(bytes) =~= seq![bytes[0] as char] + latin1(rest));
    }
}

/// Builds a `String` from ASCII bytes, one char per byte.
pub fn ascii_string(bytes: &[u8]) -> (s: String)
    requires
        all_ascii(bytes@),
    ensures
        s@ == latin1(bytes@),
{
    let mut s = String::new();
    let mut i: usize = 0;
    while i < bytes.len()
        invariant
            i <= bytes.len(),
            s@ == latin1(bytes@.take(i as int)),
        decreases bytes.len() - i,
    {
        push_char(&mut s, bytes[i] as char);
        assert(latin1(bytes@.take(i + 1)) =~= latin1(bytes@.take(i as int)).push(bytes@[i as int] as char));
        i = i + 1;
    }
    assert(bytes@.take(bytes.len() as int) =~= bytes@);
    s
}

/// Appends one string's characters to another.
pub fn push_str(s: &mut String, other: &str)
    ensures
        final(s)@ == old(s)@ + other@,
{
    s.append(other);
}

/// The decimal digit character for a value below ten.
pub open spec fn digit_char(d: int) -> char {
    ((d + 48) as u8) as char
}

/// Decimal representation of a natural number, without leading zeros.
pub open spec fn decimal(n: nat) -> Seq<char>
    decreases n,
{
    if n < 10 {
        seq![digit_char(n as int)]
    } else {
        decimal(n / 10).push(digit_char((n % 10) as int))
    }
}

/// Writes `n` in decimal.
pub fn decimal_string(n: usize) -> (s: String)
    ensures
        s@ == decimal(n as nat),
    decreases n,
{
    if n < 10 {
        let mut s = String::new();
        push_char(&mut s, ((n as u8) + 48) as char);
        s
    } else {
        let mut s = decimal_string(n / 10);
        push_char(&mut s, (((n % 10) as u8) + 48) as char);
        s
    }
}

/// Lower-case hexadecimal digit for a value below sixteen.
pub open spec fn hex_digit(d: int) -> char {
    if d < 10 { ((d + 48) as u8) as char } else { ((d + 87) as u8) as char }
}

pub fn hex_digit_char(d: u8) -> (c: char)
    requires
        d < 16,
    ensures
        c == hex_digit(d as int),
{
    if d < 10 { (d + 48) as char } else { (d + 87) as char }
}

} // verus!

verus! {

/// Upper-case hexadecimal digit for a value below sixteen.
pub open spec fn hex_digit_upper(d: int) -> char {
    if d < 10 { ((d + 48) as u8) as char } else { ((d + 55) as u8) as char }
}

/// Two upper-case hex digits of a byte (`{:02X}`).
pub open spec fn hex2_upper(b: u8) -> Seq<char> {
    seq![hex_digit_upper((b / 16) as int), hex_digit_upper((b % 16) as int)]
}

/// Appends the two upper-case hex digits of `b`.
pub fn push_hex2_upper(s: &mut String, b: u8)
    ensures
        final(s)@ == old(s)@ + hex2_upper(b),
{
    let hi = b / 16;
    let lo = b % 16;
    let c1 = if hi < 10 { (hi + 48) as char } else { (hi + 55) as char };
    let c2 = if lo < 10 { (lo + 48) as char } else { (lo + 55) as char };
    push_char(s, c1);
    push_char(s, c2);
    assert(final(s)@ =~= old(s)@ + hex2_upper(b));
}

/// An owned copy of a string slice.
pub fn owned(s: &str) -> (r: String)
    ensures
        r@ == s@,
{
    s.to_owned()
}

/// Appends the decimal digits of `n`.
pub fn push_decimal(s: &mut String, n: usize)
    ensures
        final(s)@ == old(s)@ + decimal(n as nat),
{
    let d = decimal_string(n);
    push_str(s, d.as_str());
}

} // verus!

verus! {

broadcast use vstd::utf8::encode_utf8_decode_utf8;

/// Whether two strings hold the same characters, compared through their
/// UTF-8 bytes.
pub fn str_eq(a: &str, b: &str) -> (r: bool)
    ensures
        r == (a@ == b@),
{
    let x = a.as_bytes();
    let y = b.as_bytes();
    if x.len() != y.len() {
        return false;
    }
    let mut i: usize = 0;
    while i < x.len()
        invariant
            x.len() == y.len(),
            i <= x.len(),
            x@ == encode_utf8(a@),
            y@ == encode_utf8(b@),
            forall|k: int| 0 <= k < i ==> x@[k] == y@[k],
        decreases x.len() - i,
    {
        if x[i] != y[i] {
            return false;
        }
        i = i + 1;
    }
    assert(x@ =~= y@);
    assert(decode_utf8(encode_utf8(a@)) == a@);
    assert(decode_utf8(encode_utf8(b@)) == b@);
    true
}

} // verus!

verus! {

/// A copy of `b[lo..hi]`.
pub fn copy_range(b: &[u8], lo: usize, hi: usize) -> (r: Vec<u8>)
    requires
        lo <= hi <= b@.len(),
    ensures
        r@ == b@.subrange(lo as int, hi as int),
{
    let mut r: Vec<u8> = Vec::new();
    let mut i = lo;
    while i < hi
        invariant
            lo <= i <= hi <= b@.len(),
            r@ == b@.subrange(lo as int, i as int),
        decreases hi - i,
    {
        r.push(b[i]);
        assert(b@.subrange(lo as int, i + 1) =~= b@.subrange(lo as int, i as int).push(b@[i as int]));
        i = i + 1;
    }
    r
}

} // verus!
