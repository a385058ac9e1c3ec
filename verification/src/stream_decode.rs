//! Stream filter decoding: ASCIIHex, ASCII85, RunLength and Flate, chained
//! as a stream's /Filter entry lists them, with an optional output limit.
use vstd::prelude::*;
use std::io::{Read, Write};
use flate2::read::ZlibDecoder;
use flate2::write::ZlibEncoder;
use flate2::Compression;
use crate::pdf_model::{PdfDictionary, PdfStream, PdfValue, ValueView, dict_get};
use crate::value_views::value_views;
use crate::text::{string_views, str_eq, push_char, 
    decimal, hex2_upper, is_ws, ascii_whitespace, owned, push_decimal, push_hex2_upper, push_str,
};

verus! {

broadcast use crate::value_views::group_views;

/// The value of an ASCII hexadecimal digit.
pub open spec fn hex_nibble(b: u8) -> Option<u8> {
    if 0x30u8 <= b <= 0x39u8 {
        Some((b - 0x30u8) as u8)
    } else if 0x61u8 <= b <= 0x66u8 {
        Some((b - 0x61u8 + 10) as u8)
    } else if 0x41u8 <= b <= 0x46u8 {
        Some((b - 0x41u8 + 10) as u8)
    } else {
        None
    }
}

pub fn hex_nibble_value(b: u8) -> (r: Option<u8>)
    ensures
        r == hex_nibble(b),
{
    if 0x30 <= b && b <= 0x39 {
        Some(b - 0x30)
    } else if 0x61 <= b && b <= 0x66 {
        Some(b - 0x61 + 10)
    } else if 0x41 <= b && b <= 0x46 {
        Some(b - 0x41 + 10)
    } else {
        None
    }
}

/// Whether a length is over an optional limit.
pub open spec fn over_limit(len: int, limit: Option<usize>) -> bool {
    limit matches Some(l) && len > l
}

/// "decoded stream exceeds output limit of {limit} bytes"
pub open spec fn limit_message(limit: usize) -> Seq<char> {
    "decoded stream exceeds output limit of "@ + decimal(limit as nat) + " bytes"@
}

/// Fails with the limit message when `length` is over `limit`.
pub fn ensure_output_limit(length: usize, limit: usize) -> (r: Result<(), String>)
    ensures
        r is Ok <==> length <= limit,
        r matches Err(m) ==> m@ == limit_message(limit),
{
    if length > limit {
        let mut m = owned("decoded stream exceeds output limit of ");
        push_decimal(&mut m, limit);
        push_str(&mut m, " bytes");
        Err(m)
    } else {
        Ok(())
    }
}

/// The nibbles of ASCIIHex data up to the first `>`, skipping whitespace;
/// `Err(b)` names the first byte that is neither.
pub open spec fn ascii_hex_nibbles(s: Seq<u8>) -> Result<Seq<u8>, u8>
    decreases s.len(),
{
    if s.len() == 0 || s[0] == 0x3eu8 {
        Ok(seq![])
    } else if is_ws(s[0]) {
        ascii_hex_nibbles(s.drop_first())
    } else {
        match hex_nibble(s[0]) {
            Some(n) => match ascii_hex_nibbles(s.drop_first()) {
                Ok(rest) => Ok(seq![n] + rest),
                Err(b) => Err(b),
            },
            None => Err(s[0]),
        }
    }
}

/// Pairs nibbles into bytes, a missing last nibble counting as zero.
pub open spec fn pair_nibbles(n: Seq<u8>) -> Seq<u8> {
    Seq::new(
        ((n.len() + 1) / 2) as nat,
        |i: int| (n[2 * i] * 16 + if 2 * i + 1 < n.len() { n[2 * i + 1] } else { 0u8 }) as u8,
    )
}

/// "invalid ASCIIHex byte 0x{byte:02X}"
pub open spec fn ascii_hex_error(b: u8) -> Seq<char> {
    "invalid ASCIIHex byte 0x"@ + hex2_upper(b)
}

/// What `ascii_hex_decode` returns.
pub open spec fn spec_ascii_hex_decode(input: Seq<u8>, limit: Option<usize>) -> Result<Seq<u8>, Seq<char>> {
    match ascii_hex_nibbles(input) {
        Err(b) => Err(ascii_hex_error(b)),
        Ok(n) => {
            let out = pair_nibbles(n);
            if over_limit(out.len() as int, limit) {
                Err(limit_message(limit->0))
            } else {
                Ok(out)
            }
        },
    }
}

proof fn lemma_hex_nibbles_ignore_space(s: Seq<u8>, k: int, w: u8)
    requires
        0 <= k <= s.len(),
        w == 0x20u8 || w == 0x09u8 || w == 0x0au8 || w == 0x0cu8 || w == 0x0du8,
        forall|j: int| 0 <= j < k ==> s[j] != 0x3eu8,
    ensures
        ascii_hex_nibbles(s.take(k) + seq![w] + s.skip(k)) == ascii_hex_nibbles(s),
    decreases k,
{
    let t = s.take(k) + seq![w] + s.skip(k);
    if k == 0 {
        assert(t[0] == w);
        assert(t.drop_first() =~= s);
    } else {
        let s1 = s.drop_first();
        assert forall|j: int| 0 <= j < k - 1 implies s1[j] != 0x3eu8 by {
            assert(s1[j] == s[j + 1]);
        }
        lemma_hex_nibbles_ignore_space(s1, k - 1, w);
        assert(t[0] == s[0]);
        assert(t.drop_first() =~= s1.take(k - 1) + seq![w] + s1.skip(k - 1));
    }
}

/// ASCIIHex decoding ignores whitespace: putting a space, tab, line feed,
/// form feed or carriage return anywhere before the closing `>` does not
/// change what the data decodes to, or which error it gives.
pub proof fn lemma_ascii_hex_whitespace_ignored(s: Seq<u8>, k: int, w: u8, limit: Option<usize>)
    requires
        0 <= k <= s.len(),
        w == 0x20u8 || w == 0x09u8 || w == 0x0au8 || w == 0x0cu8 || w == 0x0du8,
        forall|j: int| 0 <= j < k ==> s[j] != 0x3eu8,
    ensures
        spec_ascii_hex_decode(s.take(k) + seq![w] + s.skip(k), limit) == spec_ascii_hex_decode(s, limit),
{
    lemma_hex_nibbles_ignore_space(s, k, w);
}

proof fn lemma_hex_nibbles_stop(a: Seq<u8>, x: Seq<u8>, y: Seq<u8>)
    ensures
        ascii_hex_nibbles(a + seq![0x3eu8] + x) == ascii_hex_nibbles(a + seq![0x3eu8] + y),
    decreases a.len(),
{
    let s = a + seq![0x3eu8] + x;
    let t = a + seq![0x3eu8] + y;
    if a.len() == 0 {
        assert(s[0] == 0x3eu8 && t[0] == 0x3eu8);
    } else {
        lemma_hex_nibbles_stop(a.drop_first(), x, y);
        assert(s[0] == a[0] && t[0] == a[0]);
        assert(s.drop_first() =~= a.drop_first() + seq![0x3eu8] + x);
        assert(t.drop_first() =~= a.drop_first() + seq![0x3eu8] + y);
    }
}

/// ASCIIHex data ends at its first `>`: what follows it never changes the
/// result.
pub proof fn lemma_ascii_hex_stops_at_end_marker(a: Seq<u8>, x: Seq<u8>, y: Seq<u8>, limit: Option<usize>)
    ensures
        spec_ascii_hex_decode(a + seq![0x3eu8] + x, limit) == spec_ascii_hex_decode(a + seq![0x3eu8] + y, limit),
{
    lemma_hex_nibbles_stop(a, x, y);
}

/// Decodes ASCIIHex data (PDF `/ASCIIHexDecode`).
pub fn ascii_hex_decode(input: &[u8], max_output_length: Option<usize>) -> (r: Result<Vec<u8>, String>)
    ensures
        match r {
            Ok(v) => spec_ascii_hex_decode(input@, max_output_length) == Ok::<Seq<u8>, Seq<char>>(v@),
            Err(m) => spec_ascii_hex_decode(input@, max_output_length) == Err::<Seq<u8>, Seq<char>>(m@),
        },
{
    let mut nibbles: Vec<u8> = Vec::new();
    let mut i: usize = 0;
    proof {
        assert(input@.skip(0) =~= input@);
        if let Ok(r) = ascii_hex_nibbles(input@) {
            assert(nibbles@ + r =~= r);
        }
    }
    while i < input.len()
        invariant
            i <= input.len(),
            forall|k: int| 0 <= k < nibbles.len() ==> nibbles@[k] < 16,
            ascii_hex_nibbles(input@) == match ascii_hex_nibbles(input@.skip(i as int)) {
                Ok(rest) => Ok(nibbles@ + rest),
                Err(b) => Err::<Seq<u8>, u8>(b),
            },
        ensures
            forall|k: int| 0 <= k < nibbles.len() ==> nibbles@[k] < 16,
            ascii_hex_nibbles(input@) == Ok::<Seq<u8>, u8>(nibbles@),
        decreases input.len() - i,
    {
        let byte = input[i];
        assert(input@.skip(i as int).drop_first() =~= input@.skip(i + 1));
        if i + 1 == input.len() {
            assert(input@.skip(i + 1) =~= Seq::<u8>::empty());
        }
        if byte == 0x3e {
            assert(ascii_hex_nibbles(input@) == Ok::<Seq<u8>, u8>(nibbles@)) by {
                assert(nibbles@ + seq![] =~= nibbles@);
            }
            break;
        }
        if ascii_whitespace(byte) {
            proof {
                if i + 1 == input.len() {
                    assert(nibbles@ + seq![] =~= nibbles@);
                }
            }
            i = i + 1;
            continue;
        }
        match hex_nibble_value(byte) {
            Some(n) => {
                proof {
                    let rest = ascii_hex_nibbles(input@.skip(i + 1));
                    if let Ok(r) = rest {
                        assert(nibbles@ + (seq![n] + r) =~= nibbles@.push(n) + r);
                    }
                    if i + 1 == input.len() {
                        assert(nibbles@.push(n) + seq![] =~= nibbles@.push(n));
                    }
                }
                nibbles.push(n);
            },
            None => {
                let mut m = owned("invalid ASCIIHex byte 0x");
                push_hex2_upper(&mut m, byte);
                return Err(m);
            },
        }
        i = i + 1;
    }
    let mut output: Vec<u8> = Vec::new();
    let mut j: usize = 0;
    let count = nibbles.len() / 2 + nibbles.len() % 2;
    while j < count
        invariant
            count == (nibbles@.len() + 1) / 2,
            j <= count,
            2 * count <= nibbles.len() + 1,
            forall|k: int| 0 <= k < nibbles.len() ==> nibbles@[k] < 16,
            output@ =~= pair_nibbles(nibbles@).take(j as int),
        decreases count - j,
    {
        let hi = nibbles[2 * j];
        let lo = if 2 * j + 1 < nibbles.len() { nibbles[2 * j + 1] } else { 0 };
        output.push(hi * 16 + lo);
        j = j + 1;
    }
    assert(pair_nibbles(nibbles@).take(count as int) =~= pair_nibbles(nibbles@));
    if let Some(limit) = max_output_length {
        match ensure_output_limit(output.len(), limit) {
            Ok(()) => {},
            Err(m) => return Err(m),
        }
    }
    Ok(output)
}


/// The bytes of `s` with ASCII whitespace removed.
pub open spec fn remove_ws(s: Seq<u8>) -> Seq<u8>
    decreases s.len(),
{
    if s.len() == 0 {
        seq![]
    } else if is_ws(s.last()) {
        remove_ws(s.drop_last())
    } else {
        remove_ws(s.drop_last()).push(s.last())
    }
}

/// Drops a leading `<~`.
pub open spec fn strip_a85_prefix(s: Seq<u8>) -> Seq<u8> {
    if s.len() >= 2 && s[0] == 0x3cu8 && s[1] == 0x7eu8 { s.skip(2) } else { s }
}

/// Base-85 value of a digit group, most significant digit first.
pub open spec fn a85_value(g: Seq<u8>) -> nat
    decreases g.len(),
{
    if g.len() == 0 { 0 } else { a85_value(g.drop_last()) * 85 + g.last() as nat }
}

/// The four big-endian bytes of `v` taken modulo 2^32.
#[verifier::opaque]
pub open spec fn be_bytes(v: nat) -> Seq<u8> {
    let w = v % 4294967296;
    seq![(w / 16777216) as u8, ((w / 65536) % 256) as u8, ((w / 256) % 256) as u8, (w % 256) as u8]
}

/// The first `n` bytes that a five-digit ASCII85 group decodes to.
pub open spec fn a85_group_output(g: Seq<u8>, n: int) -> Seq<u8> {
    be_bytes(a85_value(g)).take(n)
}

/// How ASCII85 decoding can fail.
pub enum Ascii85Error {
    ZInsideGroup,
    InvalidByte(u8),
    OverLimit(usize),
    SingleDigitFinalGroup,
}

pub open spec fn ascii85_error_message(e: Ascii85Error) -> Seq<char> {
    match e {
        Ascii85Error::ZInsideGroup => "'z' short form appeared inside an ASCII85 group"@,
        Ascii85Error::InvalidByte(b) => "invalid ASCII85 byte 0x"@ + hex2_upper(b),
        Ascii85Error::OverLimit(l) => limit_message(l),
        Ascii85Error::SingleDigitFinalGroup => "ASCII85 final group has only one digit"@,
    }
}

/// A group padded with `u` digits to five.
pub open spec fn a85_pad(g: Seq<u8>) -> Seq<u8> {
    g + Seq::new((5 - g.len()) as nat, |i: int| 84u8)
}

/// The end of ASCII85 data: a partial final group of two to four digits
/// gives one byte fewer than its digit count.
pub open spec fn a85_finish(out: Seq<u8>, group: Seq<u8>, limit: Option<usize>) -> Result<Seq<u8>, Ascii85Error> {
    if group.len() == 0 {
        Ok(out)
    } else if group.len() == 1 {
        Err(Ascii85Error::SingleDigitFinalGroup)
    } else {
        let o = out + a85_group_output(a85_pad(group), group.len() - 1);
        if over_limit(o.len() as int, limit) { Err(Ascii85Error::OverLimit(limit->0)) } else { Ok(o) }
    }
}

/// ASCII85 decoding of `data` (whitespace already removed), given the
/// output so far and the digits of the open group.
pub open spec fn a85_run(data: Seq<u8>, out: Seq<u8>, group: Seq<u8>, limit: Option<usize>) -> Result<Seq<u8>, Ascii85Error>
    decreases data.len(),
{
    if data.len() == 0 || data[0] == 0x7eu8 {
        a85_finish(out, group, limit)
    } else if data[0] == 0x7au8 {
        if group.len() > 0 {
            Err(Ascii85Error::ZInsideGroup)
        } else {
            let o = out + seq![0u8, 0u8, 0u8, 0u8];
            if over_limit(o.len() as int, limit) {
                Err(Ascii85Error::OverLimit(limit->0))
            } else {
                a85_run(data.drop_first(), o, group, limit)
            }
        }
    } else if !(0x21u8 <= data[0] <= 0x75u8) {
        Err(Ascii85Error::InvalidByte(data[0]))
    } else {
        let g = group.push((data[0] - 0x21u8) as u8);
        if g.len() == 5 {
            let o = out + a85_group_output(g, 4);
            if over_limit(o.len() as int, limit) {
                Err(Ascii85Error::OverLimit(limit->0))
            } else {
                a85_run(data.drop_first(), o, seq![], limit)
            }
        } else {
            a85_run(data.drop_first(), out, g, limit)
        }
    }
}

/// What `ascii85_decode` returns.
pub open spec fn spec_ascii85_decode(input: Seq<u8>, limit: Option<usize>) -> Result<Seq<u8>, Seq<char>> {
    match a85_run(strip_a85_prefix(remove_ws(input)), seq![], seq![], limit) {
        Ok(o) => Ok(o),
        Err(e) => Err(ascii85_error_message(e)),
    }
}

pub open spec fn pow85(k: nat) -> nat
    decreases k,
{
    if k == 0 { 1 } else { pow85((k - 1) as nat) * 85 }
}

proof fn lemma_a85_value_bound(g: Seq<u8>)
    requires
        forall|i: int| 0 <= i < g.len() ==> g[i] <= 84,
    ensures
        a85_value(g) < pow85(g.len()),
    decreases g.len(),
{
    if g.len() > 0 {
        lemma_a85_value_bound(g.drop_last());
    }
}

/// Appends the first `output_bytes` bytes of a full five-digit group.
pub fn append_ascii85_group(output: &mut Vec<u8>, group: &[u8], output_bytes: usize)
    requires
        group.len() == 5,
        output_bytes <= 4,
        forall|i: int| 0 <= i < group.len() ==> group@[i] <= 84,
    ensures
        final(output)@ == old(output)@ + a85_group_output(group@, output_bytes as int),
{
    let mut value: u64 = 0;
    let mut k: usize = 0;
    while k < 5
        invariant
            k <= 5,
            group.len() == 5,
            forall|i: int| 0 <= i < group.len() ==> group@[i] <= 84,
            value == a85_value(group@.take(k as int)),
        decreases 5 - k,
    {
        proof {
            lemma_a85_value_bound(group@.take(k as int));
            reveal_with_fuel(pow85, 5);
            assert(group@.take(k + 1).drop_last() =~= group@.take(k as int));
        }
        value = value * 85 + group[k] as u64;
        k = k + 1;
    }
    assert(group@.take(5) =~= group@);
    let w = value % 4294967296;
    reveal(be_bytes);
    let bytes: [u8; 4] = [(w / 16777216) as u8, ((w / 65536) % 256) as u8, ((w / 256) % 256) as u8, (w % 256) as u8];
    let ghost before = output@;
    let mut j: usize = 0;
    while j < output_bytes
        invariant
            j <= output_bytes <= 4,
            bytes@ == be_bytes(a85_value(group@)),
            be_bytes(a85_value(group@)).len() == 4,
            output@ == before + be_bytes(a85_value(group@)).take(j as int),
        decreases output_bytes - j,
    {
        output.push(bytes[j]);
        assert(be_bytes(a85_value(group@)).take(j + 1) =~= be_bytes(a85_value(group@)).take(j as int).push(bytes@[j as int]));
        j = j + 1;
    }
}


/// The message text of an ASCII85 failure.
pub fn ascii85_error_text(e: Ascii85Error) -> (m: String)
    ensures
        m@ == ascii85_error_message(e),
{
    match e {
        Ascii85Error::ZInsideGroup => owned("'z' short form appeared inside an ASCII85 group"),
        Ascii85Error::InvalidByte(b) => {
            let mut m = owned("invalid ASCII85 byte 0x");
            push_hex2_upper(&mut m, b);
            m
        },
        Ascii85Error::OverLimit(l) => {
            let mut m = owned("decoded stream exceeds output limit of ");
            push_decimal(&mut m, l);
            push_str(&mut m, " bytes");
            m
        },
        Ascii85Error::SingleDigitFinalGroup => owned("ASCII85 final group has only one digit"),
    }
}

/// Decodes ASCII85 data (PDF `/ASCII85Decode`).
#[verifier::rlimit(60)]
pub fn ascii85_decode(input: &[u8], max_output_length: Option<usize>) -> (r: Result<Vec<u8>, String>)
    ensures
        match r {
            Ok(v) => spec_ascii85_decode(input@, max_output_length) == Ok::<Seq<u8>, Seq<char>>(v@),
            Err(m) => spec_ascii85_decode(input@, max_output_length) == Err::<Seq<u8>, Seq<char>>(m@),
        },
{
    let mut data: Vec<u8> = Vec::new();
    let mut i: usize = 0;
    while i < input.len()
        invariant
            i <= input.len(),
            data@ == remove_ws(input@.take(i as int)),
        decreases input.len() - i,
    {
        assert(input@.take(i + 1).drop_last() =~= input@.take(i as int));
        if !ascii_whitespace(input[i]) {
            data.push(input[i]);
        }
        i = i + 1;
    }
    assert(input@.take(input.len() as int) =~= input@);
    let start: usize = if data.len() >= 2 && data[0] == 0x3c && data[1] == 0x7e { 2 } else { 0 };
    let ghost stripped = data@.skip(start as int);
    assert(stripped =~= strip_a85_prefix(remove_ws(input@)));
    let mut output: Vec<u8> = Vec::new();
    let mut group: Vec<u8> = Vec::new();
    let mut index: usize = start;
    assert(data@.skip(index as int) =~= stripped);
    while index < data.len()
        invariant
            start <= index <= data.len(),
            stripped == strip_a85_prefix(remove_ws(input@)),
            group.len() < 5,
            forall|k: int| 0 <= k < group.len() ==> group@[k] <= 84,
            a85_run(stripped, seq![], seq![], max_output_length)
                == a85_run(data@.skip(index as int), output@, group@, max_output_length),
        ensures
            group.len() < 5,
            forall|k: int| 0 <= k < group.len() ==> group@[k] <= 84,
            a85_run(stripped, seq![], seq![], max_output_length)
                == a85_finish(output@, group@, max_output_length),
        decreases data.len() - index,
    {
        let byte = data[index];
        let ghost rest = data@.skip(index as int);
        assert(rest[0] == byte);
        assert(rest.drop_first() =~= data@.skip(index + 1));
        assert(rest.len() > 0);
        if byte == 0x7e {
            break;
        }
        if byte == 0x7a {
            if group.len() > 0 {
                return Err(ascii85_error_text(Ascii85Error::ZInsideGroup));
            }
            let ghost before = output@;
            output.push(0);
            output.push(0);
            output.push(0);
            output.push(0);
            assert(output@ =~= before + seq![0u8, 0u8, 0u8, 0u8]);
            if let Some(limit) = max_output_length {
                if output.len() > limit {
                    return Err(ascii85_error_text(Ascii85Error::OverLimit(limit)));
                }
            }
            index = index + 1;
            if index == data.len() {
                assert(data@.skip(index as int) =~= Seq::<u8>::empty());
            }
            continue;
        }
        if !(0x21 <= byte && byte <= 0x75) {
            return Err(ascii85_error_text(Ascii85Error::InvalidByte(byte)));
        }
        group.push(byte - 0x21);
        if group.len() == 5 {
            append_ascii85_group(&mut output, group.as_slice(), 4);
            if let Some(limit) = max_output_length {
                if output.len() > limit {
                    return Err(ascii85_error_text(Ascii85Error::OverLimit(limit)));
                }
            }
            group.clear();
        }
        index = index + 1;
        if index == data.len() {
            assert(data@.skip(index as int) =~= Seq::<u8>::empty());
        }
    }
    if group.len() > 0 {
        if group.len() == 1 {
            return Err(ascii85_error_text(Ascii85Error::SingleDigitFinalGroup));
        }
        let output_bytes = group.len() - 1;
        let ghost g = group@;
        while group.len() < 5
            invariant
                g.len() <= group.len() <= 5,
                group@ == a85_pad(g).take(group.len() as int),
                forall|k: int| 0 <= k < group.len() ==> group@[k] <= 84,
            decreases 5 - group.len(),
        {
            assert(a85_pad(g).take(group.len() + 1) =~= a85_pad(g).take(group.len() as int).push(84u8));
            group.push(84);
        }
        assert(a85_pad(g).take(5) =~= a85_pad(g));
        append_ascii85_group(&mut output, group.as_slice(), output_bytes);
        if let Some(limit) = max_output_length {
            if output.len() > limit {
                return Err(ascii85_error_text(Ascii85Error::OverLimit(limit)));
            }
        }
    }
    Ok(output)
}


/// How run-length decoding can fail.
pub enum RunLengthError {
    LiteralOverrun,
    MissingRepeatByte,
    OverLimit(usize),
}

pub open spec fn run_length_error_message(e: RunLengthError) -> Seq<char> {
    match e {
        RunLengthError::LiteralOverrun => "RunLengthDecode literal run exceeds stream length"@,
        RunLengthError::MissingRepeatByte => "RunLengthDecode repeat run is missing its byte"@,
        RunLengthError::OverLimit(l) => limit_message(l),
    }
}

/// PDF run-length decoding from position `pos`, given the output so far:
/// a length byte below 128 copies that many plus one literal bytes, one
/// above 128 repeats the next byte 257 minus it times, 128 ends the data.
pub open spec fn rl_run(input: Seq<u8>, pos: int, out: Seq<u8>, limit: Option<usize>) -> Result<Seq<u8>, RunLengthError>
    decreases input.len() - pos,
{
    if pos < 0 || pos >= input.len() {
        Ok(out)
    } else {
        let length = input[pos];
        let p = pos + 1;
        if length == 128 {
            Ok(out)
        } else if length < 128 {
            let run = length + 1;
            if p + run > input.len() {
                Err(RunLengthError::LiteralOverrun)
            } else {
                let o = out + input.subrange(p, p + run);
                if over_limit(o.len() as int, limit) {
                    Err(RunLengthError::OverLimit(limit->0))
                } else {
                    rl_run(input, p + run, o, limit)
                }
            }
        } else {
            if p >= input.len() {
                Err(RunLengthError::MissingRepeatByte)
            } else {
                let o = out + Seq::new((257 - length) as nat, |i: int| input[p]);
                if over_limit(o.len() as int, limit) {
                    Err(RunLengthError::OverLimit(limit->0))
                } else {
                    rl_run(input, p + 1, o, limit)
                }
            }
        }
    }
}

/// What `run_length_decode` returns.
pub open spec fn spec_run_length_decode(input: Seq<u8>, limit: Option<usize>) -> Result<Seq<u8>, Seq<char>> {
    match rl_run(input, 0, seq![], limit) {
        Ok(o) => Ok(o),
        Err(e) => Err(run_length_error_message(e)),
    }
}

fn run_length_error_text(e: RunLengthError) -> (m: String)
    ensures
        m@ == run_length_error_message(e),
{
    match e {
        RunLengthError::LiteralOverrun => owned("RunLengthDecode literal run exceeds stream length"),
        RunLengthError::MissingRepeatByte => owned("RunLengthDecode repeat run is missing its byte"),
        RunLengthError::OverLimit(l) => {
            let mut m = owned("decoded stream exceeds output limit of ");
            push_decimal(&mut m, l);
            push_str(&mut m, " bytes");
            m
        },
    }
}

/// Decodes PDF run-length data (`/RunLengthDecode`).
pub fn run_length_decode(input: &[u8], max_output_length: Option<usize>) -> (r: Result<Vec<u8>, String>)
    ensures
        match r {
            Ok(v) => spec_run_length_decode(input@, max_output_length) == Ok::<Seq<u8>, Seq<char>>(v@),
            Err(m) => spec_run_length_decode(input@, max_output_length) == Err::<Seq<u8>, Seq<char>>(m@),
        },
{
    let mut output: Vec<u8> = Vec::new();
    let mut index: usize = 0;
    while index < input.len()
        invariant
            index <= input.len(),
            rl_run(input@, 0, seq![], max_output_length) == rl_run(input@, index as int, output@, max_output_length),
        decreases input.len() - index,
    {
        let length = input[index];
        index = index + 1;
        if length == 128 {
            return Ok(output);
        } else if length < 128 {
            let run = length as usize + 1;
            if run > input.len() - index {
                return Err(run_length_error_text(RunLengthError::LiteralOverrun));
            }
            let ghost before = output@;
            let mut k: usize = index;
            while k < index + run
                invariant
                    index <= k <= index + run <= input.len(),
                    output@ == before + input@.subrange(index as int, k as int),
                decreases index + run - k,
            {
                output.push(input[k]);
                assert(input@.subrange(index as int, k + 1) =~= input@.subrange(index as int, k as int).push(input@[k as int]));
                k = k + 1;
            }
            if let Some(limit) = max_output_length {
                if output.len() > limit {
                    return Err(run_length_error_text(RunLengthError::OverLimit(limit)));
                }
            }
            index = index + run;
        } else {
            if index >= input.len() {
                return Err(run_length_error_text(RunLengthError::MissingRepeatByte));
            }
            let repeat: usize = 257 - length as usize;
            let byte = input[index];
            let ghost before = output@;
            let mut k: usize = 0;
            while k < repeat
                invariant
                    k <= repeat,
                    output@ == before + Seq::new(k as nat, |i: int| byte),
                decreases repeat - k,
            {
                output.push(byte);
                assert(Seq::new((k + 1) as nat, |i: int| byte) =~= Seq::new(k as nat, |i: int| byte).push(byte));
                k = k + 1;
            }
            assert(Seq::new(repeat as nat, |i: int| byte) =~= Seq::new((257 - length) as nat, |i: int| input@[index as int]));
            if let Some(limit) = max_output_length {
                if output.len() > limit {
                    return Err(run_length_error_text(RunLengthError::OverLimit(limit)));
                }
            }
            index = index + 1;
        }
    }
    Ok(output)
}


/// The result of inflating zlib data with `flate2`'s `ZlibDecoder`, reading
/// at most `max_read` bytes when a bound is given: the bytes read, or the
/// text of the I/O error.
pub uninterp spec fn zlib_inflate(input: Seq<u8>, max_read: Option<u64>) -> Result<Seq<u8>, Seq<char>>;

/// The result of compressing with `flate2`'s `ZlibEncoder` at the default
/// level: the compressed bytes, or the failing stage (`true` for the write,
/// `false` for `finish`) and the text of the I/O error.
pub uninterp spec fn zlib_deflate(input: Seq<u8>) -> Result<Seq<u8>, (bool, Seq<char>)>;

/// Calls `flate2::read::ZlibDecoder::new`, bounds it with `Read::take` when
/// `max_read` is given, and reads it to the end with `Read::read_to_end`.
/// The contract claims only that the outcome is `zlib_inflate` of the
/// arguments and that no more than `max_read` bytes come back.
#[verifier::external_body]
fn zlib_read(input: &[u8], max_read: Option<u64>) -> (r: Result<Vec<u8>, String>)
    ensures
        match r {
            Ok(v) => zlib_inflate(input@, max_read) == Ok::<Seq<u8>, Seq<char>>(v@),
            Err(m) => zlib_inflate(input@, max_read) == Err::<Seq<u8>, Seq<char>>(m@),
        },
        r matches Ok(v) && max_read matches Some(m) ==> v@.len() <= m,
{
    let decoder = ZlibDecoder::new(input);
    let mut output = Vec::new();
    let outcome = match max_read {
        Some(m) => decoder.take(m).read_to_end(&mut output),
        None => { let mut d = decoder; d.read_to_end(&mut output) },
    };
    match outcome {
        Ok(_) => Ok(output),
        Err(error) => Err(error.to_string()),
    }
}

/// Why zlib compression failed: while writing the input, or at `finish`.
pub enum FlateEncodeFailure {
    Write(String),
    Finish(String),
}

/// Calls `flate2::write::ZlibEncoder::new` over a `Vec` with
/// `Compression::default()`, then `Write::write_all` and
/// `ZlibEncoder::finish`. The contract claims that the outcome is
/// `zlib_deflate` of the input and that zlib is lossless: inflating the
/// compressed bytes without a bound gives the input back.
#[verifier::external_body]
fn zlib_write(input: &[u8]) -> (r: Result<Vec<u8>, FlateEncodeFailure>)
    ensures
        match r {
            Ok(v) => zlib_deflate(input@) == Ok::<Seq<u8>, (bool, Seq<char>)>(v@)
                && zlib_inflate(v@, None) == Ok::<Seq<u8>, Seq<char>>(input@),
            Err(FlateEncodeFailure::Write(m)) => zlib_deflate(input@) == Err::<Seq<u8>, (bool, Seq<char>)>((true, m@)),
            Err(FlateEncodeFailure::Finish(m)) => zlib_deflate(input@) == Err::<Seq<u8>, (bool, Seq<char>)>((false, m@)),
        },
{
    let mut encoder = ZlibEncoder::new(Vec::new(), Compression::default());
    if let Err(error) = encoder.write_all(input) {
        return Err(FlateEncodeFailure::Write(error.to_string()));
    }
    match encoder.finish() {
        Ok(v) => Ok(v),
        Err(error) => Err(FlateEncodeFailure::Finish(error.to_string())),
    }
}

/// What `flate_decode` returns: inflate, reading one byte past the limit
/// so that an overlong result is noticed.
pub open spec fn spec_flate_decode(input: Seq<u8>, limit: Option<usize>) -> Result<Seq<u8>, Seq<char>> {
    match limit {
        None => zlib_inflate(input, None),
        Some(l) => {
            let max_read: u64 = if l == usize::MAX { l as u64 } else { (l + 1) as u64 };
            match zlib_inflate(input, Some(max_read)) {
                Ok(o) => if o.len() > l { Err(limit_message(l)) } else { Ok(o) },
                Err(m) => Err(m),
            }
        },
    }
}

/// Inflates zlib data (`/FlateDecode`), failing past the output limit.
pub fn flate_decode(input: &[u8], max_output_length: Option<usize>) -> (r: Result<Vec<u8>, String>)
    ensures
        match r {
            Ok(v) => spec_flate_decode(input@, max_output_length) == Ok::<Seq<u8>, Seq<char>>(v@),
            Err(m) => spec_flate_decode(input@, max_output_length) == Err::<Seq<u8>, Seq<char>>(m@),
        },
{
    match max_output_length {
        Some(limit) => {
            let max_read = limit.saturating_add(1) as u64;
            let output = zlib_read(input, Some(max_read))?;
            ensure_output_limit(output.len(), limit)?;
            Ok(output)
        },
        None => zlib_read(input, None),
    }
}

/// What `flate_encode` returns.
pub open spec fn spec_flate_encode(input: Seq<u8>) -> Result<Seq<u8>, Seq<char>> {
    match zlib_deflate(input) {
        Ok(v) => Ok(v),
        Err((true, m)) => Err("FlateEncode write failed: "@ + m),
        Err((false, m)) => Err("FlateEncode finish failed: "@ + m),
    }
}

/// Compresses bytes with zlib (`/FlateDecode` encoding).
pub fn flate_encode(input: &[u8]) -> (r: Result<Vec<u8>, String>)
    ensures
        match r {
            Ok(v) => spec_flate_encode(input@) == Ok::<Seq<u8>, Seq<char>>(v@)
                && zlib_inflate(v@, None) == Ok::<Seq<u8>, Seq<char>>(input@),
            Err(m) => spec_flate_encode(input@) == Err::<Seq<u8>, Seq<char>>(m@),
        },
{
    match zlib_write(input) {
        Ok(v) => Ok(v),
        Err(FlateEncodeFailure::Write(e)) => {
            let mut m = owned("FlateEncode write failed: ");
            push_str(&mut m, e.as_str());
            Err(m)
        },
        Err(FlateEncodeFailure::Finish(e)) => {
            let mut m = owned("FlateEncode finish failed: ");
            push_str(&mut m, e.as_str());
            Err(m)
        },
    }
}

/// The canonical name of a filter: the abbreviations `Fl`, `AHx`, `A85`,
/// `RL` and `DCT` are expanded, other names kept.
pub open spec fn normalized_filter(f: Seq<char>) -> Seq<char> {
    if f == "Fl"@ {
        "FlateDecode"@
    } else if f == "AHx"@ {
        "ASCIIHexDecode"@
    } else if f == "A85"@ {
        "ASCII85Decode"@
    } else if f == "RL"@ {
        "RunLengthDecode"@
    } else if f == "DCT"@ {
        "DCTDecode"@
    } else {
        f
    }
}

pub fn normalize_filter_name(filter: &str) -> (r: String)
    ensures
        r@ == normalized_filter(filter@),
{
    if str_eq(filter, "Fl") {
        owned("FlateDecode")
    } else if str_eq(filter, "AHx") {
        owned("ASCIIHexDecode")
    } else if str_eq(filter, "A85") {
        owned("ASCII85Decode")
    } else if str_eq(filter, "RL") {
        owned("RunLengthDecode")
    } else if str_eq(filter, "DCT") {
        owned("DCTDecode")
    } else {
        owned(filter)
    }
}


#[derive(Clone, Copy, Debug, PartialEq, Eq, Structural)]
pub enum DecodeIssueKind {
    Failed,
    Unsupported,
}

#[derive(Clone, Debug)]
pub struct DecodeIssue {
    pub filter: String,
    pub kind: DecodeIssueKind,
    pub message: String,
}

#[derive(Clone, Copy, Debug, PartialEq, Eq, Structural)]
pub enum DecodeStepStatus {
    Decoded,
    Passthrough,
    Failed,
    Unsupported,
}

#[derive(Clone, Debug)]
pub struct DecodeStep {
    pub filter: String,
    pub status: DecodeStepStatus,
    pub message: String,
}

/// The outcome of running a filter chain over raw stream bytes.
#[derive(Clone, Debug)]
pub struct StreamDecodeResult {
    pub filters: Vec<String>,
    pub decoded: Vec<u8>,
    pub decoded_length: usize,
    pub steps: Vec<DecodeStep>,
    pub issues: Vec<DecodeIssue>,
}

impl StreamDecodeResult {
    pub fn has_issues(&self) -> (r: bool)
        ensures
            r == (self.issues@.len() > 0),
    {
        self.issues.len() > 0
    }
}

/// A decode step as text: filter name, status, message.
pub type StepView = (Seq<char>, DecodeStepStatus, Seq<char>);

/// A decode issue as text: filter name, kind, message.
pub type IssueView = (Seq<char>, DecodeIssueKind, Seq<char>);

pub open spec fn step_view(s: DecodeStep) -> StepView {
    (s.filter@, s.status, s.message@)
}

pub open spec fn issue_view(i: DecodeIssue) -> IssueView {
    (i.filter@, i.kind, i.message@)
}

/// The success message of a decoding filter.
pub open spec fn decoded_message(n: Seq<char>) -> Seq<char> {
    if n == "FlateDecode"@ {
        "decoded with zlib/deflate"@
    } else if n == "ASCIIHexDecode"@ {
        "decoded ASCII hexadecimal data"@
    } else if n == "ASCII85Decode"@ {
        "decoded ASCII85 data"@
    } else {
        "decoded PDF run-length data"@
    }
}

/// One decoding filter applied by name (already normalized).
pub open spec fn apply_decoder(n: Seq<char>, input: Seq<u8>, limit: Option<usize>) -> Result<Seq<u8>, Seq<char>> {
    if n == "FlateDecode"@ {
        spec_flate_decode(input, limit)
    } else if n == "ASCIIHexDecode"@ {
        spec_ascii_hex_decode(input, limit)
    } else if n == "ASCII85Decode"@ {
        spec_ascii85_decode(input, limit)
    } else {
        spec_run_length_decode(input, limit)
    }
}

pub open spec fn is_decoding_filter(n: Seq<char>) -> bool {
    n == "FlateDecode"@ || n == "ASCIIHexDecode"@ || n == "ASCII85Decode"@ || n == "RunLengthDecode"@
}

/// "DCT/JPEG stream exceeds decoded output limit of {limit} bytes"
pub open spec fn dct_limit_message(limit: usize) -> Seq<char> {
    "DCT/JPEG stream exceeds decoded output limit of "@ + decimal(limit as nat) + " bytes"@
}

/// "unsupported stream filter /{filter}"
pub open spec fn unsupported_message(f: Seq<char>) -> Seq<char> {
    "unsupported stream filter /"@ + f
}

/// Running filters `i..` over `data`, with the steps and issues so far:
/// the final bytes, steps and issues. The chain stops at the first filter
/// that fails or is not supported.
pub open spec fn chain_from(
    data: Seq<u8>,
    filters: Seq<Seq<char>>,
    i: int,
    limit: Option<usize>,
    steps: Seq<StepView>,
    issues: Seq<IssueView>,
) -> (Seq<u8>, Seq<StepView>, Seq<IssueView>)
    decreases filters.len() - i,
{
    if i < 0 || i >= filters.len() {
        (data, steps, issues)
    } else {
        let f = filters[i];
        let n = normalized_filter(f);
        if is_decoding_filter(n) {
            match apply_decoder(n, data, limit) {
                Ok(next) => chain_from(next, filters, i + 1, limit, steps.push((f, DecodeStepStatus::Decoded, decoded_message(n))), issues),
                Err(m) => (data, steps.push((f, DecodeStepStatus::Failed, m)), issues.push((f, DecodeIssueKind::Failed, m))),
            }
        } else if n == "DCTDecode"@ {
            if over_limit(data.len() as int, limit) {
                let m = dct_limit_message(limit->0);
                (data, steps.push((f, DecodeStepStatus::Failed, m)), issues.push((f, DecodeIssueKind::Failed, m)))
            } else {
                chain_from(data, filters, i + 1, limit, steps.push((f, DecodeStepStatus::Passthrough, "DCT/JPEG image data preserved for preview or export"@)), issues)
            }
        } else {
            let m = unsupported_message(f);
            (data, steps.push((f, DecodeStepStatus::Unsupported, m)), issues.push((f, DecodeIssueKind::Unsupported, m)))
        }
    }
}

/// "raw stream bytes exceed decoded output limit of {limit} bytes"
pub open spec fn raw_limit_message(limit: usize) -> Seq<char> {
    "raw stream bytes exceed decoded output limit of "@ + decimal(limit as nat) + " bytes"@
}

/// The bytes, steps and issues of decoding `raw` through `filters`. Raw
/// bytes already over the limit are refused before any filter runs.
pub open spec fn spec_decode_chain(raw: Seq<u8>, filters: Seq<Seq<char>>, limit: Option<usize>) -> (Seq<u8>, Seq<StepView>, Seq<IssueView>) {
    if over_limit(raw.len() as int, limit) {
        let m = raw_limit_message(limit->0);
        (raw, seq![("raw"@, DecodeStepStatus::Failed, m)], seq![("raw"@, DecodeIssueKind::Failed, m)])
    } else {
        chain_from(raw, filters, 0, limit, seq![], seq![])
    }
}

/// What `decode_filter_chain_with_limit` returns.
pub open spec fn decode_result_matches(r: StreamDecodeResult, raw: Seq<u8>, filters: Seq<String>, limit: Option<usize>) -> bool {
    let (d, steps, issues) = spec_decode_chain(raw, string_views(filters), limit);
    &&& string_views(r.filters@) == string_views(filters)
    &&& r.decoded@ == d
    &&& r.steps@.map_values(|s: DecodeStep| step_view(s)) == steps
    &&& r.issues@.map_values(|i: DecodeIssue| issue_view(i)) == issues
    &&& r.decoded_length == if over_limit(raw.len() as int, limit) { 0 } else { d.len() }
}

pub(crate) fn copy_strings(v: &[String]) -> (r: Vec<String>)
    ensures
        string_views(r@) == string_views(v@),
{
    let mut r: Vec<String> = Vec::new();
    let mut i: usize = 0;
    while i < v.len()
        invariant
            i <= v.len(),
            string_views(r@) == string_views(v@.take(i as int)),
        decreases v.len() - i,
    {
        let ghost before = r@;
        r.push(owned(v[i].as_str()));
        assert(string_views(r@) =~= string_views(before).push(v@[i as int]@));
        assert(string_views(v@.take(i + 1)) =~= string_views(v@.take(i as int)).push(v@[i as int]@));
        i = i + 1;
    }
    assert(v@.take(v.len() as int) =~= v@);
    r
}

fn run_decoder(n: &str, input: &[u8], limit: Option<usize>) -> (r: Result<Vec<u8>, String>)
    requires
        is_decoding_filter(n@),
    ensures
        match r {
            Ok(v) => apply_decoder(n@, input@, limit) == Ok::<Seq<u8>, Seq<char>>(v@),
            Err(m) => apply_decoder(n@, input@, limit) == Err::<Seq<u8>, Seq<char>>(m@),
        },
{
    if str_eq(n, "FlateDecode") {
        flate_decode(input, limit)
    } else if str_eq(n, "ASCIIHexDecode") {
        ascii_hex_decode(input, limit)
    } else if str_eq(n, "ASCII85Decode") {
        ascii85_decode(input, limit)
    } else {
        run_length_decode(input, limit)
    }
}

fn decoded_message_text(n: &str) -> (m: String)
    ensures
        m@ == decoded_message(n@),
{
    if str_eq(n, "FlateDecode") {
        owned("decoded with zlib/deflate")
    } else if str_eq(n, "ASCIIHexDecode") {
        owned("decoded ASCII hexadecimal data")
    } else if str_eq(n, "ASCII85Decode") {
        owned("decoded ASCII85 data")
    } else {
        owned("decoded PDF run-length data")
    }
}

fn limit_text(prefix: &str, limit: usize) -> (m: String)
    ensures
        m@ == prefix@ + decimal(limit as nat) + " bytes"@,
{
    let mut m = owned(prefix);
    push_decimal(&mut m, limit);
    push_str(&mut m, " bytes");
    m
}

/// Decodes raw stream bytes through a filter chain with an optional limit
/// on the decoded size.
pub fn decode_filter_chain_with_limit(raw_bytes: Vec<u8>, filters: &[String], max_decoded_length: Option<usize>) -> (r: StreamDecodeResult)
    ensures
        decode_result_matches(r, raw_bytes@, filters@, max_decoded_length),
{
    let mut decoded = raw_bytes;
    let mut steps: Vec<DecodeStep> = Vec::new();
    let mut issues: Vec<DecodeIssue> = Vec::new();
    let ghost fviews = string_views(filters@);

    if let Some(limit) = max_decoded_length {
        if decoded.len() > limit {
            let m = limit_text("raw stream bytes exceed decoded output limit of ", limit);
            issues.push(DecodeIssue { filter: owned("raw"), kind: DecodeIssueKind::Failed, message: owned(m.as_str()) });
            steps.push(DecodeStep { filter: owned("raw"), status: DecodeStepStatus::Failed, message: m });
            let r = StreamDecodeResult { filters: copy_strings(filters), decoded, decoded_length: 0, steps, issues };
            assert(r.steps@.map_values(|s: DecodeStep| step_view(s)) =~= spec_decode_chain(raw_bytes@, fviews, max_decoded_length).1);
            assert(r.issues@.map_values(|i: DecodeIssue| issue_view(i)) =~= spec_decode_chain(raw_bytes@, fviews, max_decoded_length).2);
            return r;
        }
    }

    let mut i: usize = 0;
    assert(steps@.map_values(|s: DecodeStep| step_view(s)) =~= Seq::<StepView>::empty());
    assert(issues@.map_values(|x: DecodeIssue| issue_view(x)) =~= Seq::<IssueView>::empty());
    while i < filters.len()
        invariant_except_break
            chain_from(raw_bytes@, fviews, 0, max_decoded_length, seq![], seq![])
                == chain_from(decoded@, fviews, i as int, max_decoded_length,
                    steps@.map_values(|s: DecodeStep| step_view(s)),
                    issues@.map_values(|x: DecodeIssue| issue_view(x))),
        invariant
            i <= filters.len(),
            fviews == string_views(filters@),
            !over_limit(raw_bytes@.len() as int, max_decoded_length),
        ensures
            chain_from(raw_bytes@, fviews, 0, max_decoded_length, seq![], seq![])
                == (decoded@, steps@.map_values(|s: DecodeStep| step_view(s)), issues@.map_values(|x: DecodeIssue| issue_view(x))),
        decreases filters.len() - i,
    {
        let filter = &filters[i];
        assert(fviews[i as int] == filter@);
        let n = normalize_filter_name(filter.as_str());
        let ghost sv = steps@.map_values(|s: DecodeStep| step_view(s));
        let ghost iv = issues@.map_values(|x: DecodeIssue| issue_view(x));
        if str_eq(n.as_str(), "FlateDecode") || str_eq(n.as_str(), "ASCIIHexDecode")
            || str_eq(n.as_str(), "ASCII85Decode") || str_eq(n.as_str(), "RunLengthDecode") {
            match run_decoder(n.as_str(), decoded.as_slice(), max_decoded_length) {
                Ok(next) => {
                    decoded = next;
                    let step = DecodeStep { filter: owned(filter.as_str()), status: DecodeStepStatus::Decoded, message: decoded_message_text(n.as_str()) };
                    steps.push(step);
                    assert(steps@.map_values(|s: DecodeStep| step_view(s)) =~= sv.push((filter@, DecodeStepStatus::Decoded, decoded_message(n@))));
                },
                Err(message) => {
                    issues.push(DecodeIssue { filter: owned(filter.as_str()), kind: DecodeIssueKind::Failed, message: owned(message.as_str()) });
                    steps.push(DecodeStep { filter: owned(filter.as_str()), status: DecodeStepStatus::Failed, message });
                    assert(steps@.map_values(|s: DecodeStep| step_view(s)) =~= sv.push((filter@, DecodeStepStatus::Failed, message@)));
                    assert(issues@.map_values(|x: DecodeIssue| issue_view(x)) =~= iv.push((filter@, DecodeIssueKind::Failed, message@)));
                    break;
                },
            }
        } else if str_eq(n.as_str(), "DCTDecode") {
            if let Some(limit) = max_decoded_length {
                if decoded.len() > limit {
                    let message = limit_text("DCT/JPEG stream exceeds decoded output limit of ", limit);
                    issues.push(DecodeIssue { filter: owned(filter.as_str()), kind: DecodeIssueKind::Failed, message: owned(message.as_str()) });
                    steps.push(DecodeStep { filter: owned(filter.as_str()), status: DecodeStepStatus::Failed, message });
                    assert(steps@.map_values(|s: DecodeStep| step_view(s)) =~= sv.push((filter@, DecodeStepStatus::Failed, message@)));
                    assert(issues@.map_values(|x: DecodeIssue| issue_view(x)) =~= iv.push((filter@, DecodeIssueKind::Failed, message@)));
                    break;
                }
            }
            steps.push(DecodeStep { filter: owned(filter.as_str()), status: DecodeStepStatus::Passthrough, message: owned("DCT/JPEG image data preserved for preview or export") });
            assert(steps@.map_values(|s: DecodeStep| step_view(s)) =~= sv.push((filter@, DecodeStepStatus::Passthrough, "DCT/JPEG image data preserved for preview or export"@)));
        } else {
            let mut message = owned("unsupported stream filter /");
            push_str(&mut message, filter.as_str());
            issues.push(DecodeIssue { filter: owned(filter.as_str()), kind: DecodeIssueKind::Unsupported, message: owned(message.as_str()) });
            steps.push(DecodeStep { filter: owned(filter.as_str()), status: DecodeStepStatus::Unsupported, message });
            assert(steps@.map_values(|s: DecodeStep| step_view(s)) =~= sv.push((filter@, DecodeStepStatus::Unsupported, message@)));
            assert(issues@.map_values(|x: DecodeIssue| issue_view(x)) =~= iv.push((filter@, DecodeIssueKind::Unsupported, message@)));
            break;
        }
        i = i + 1;
    }

    let decoded_length = decoded.len();
    StreamDecodeResult { filters: copy_strings(filters), decoded, decoded_length, steps, issues }
}

/// Decodes raw stream bytes through a filter chain without a size limit.
pub fn decode_filter_chain(raw_bytes: Vec<u8>, filters: &[String]) -> (r: StreamDecodeResult)
    ensures
        decode_result_matches(r, raw_bytes@, filters@, None),
{
    decode_filter_chain_with_limit(raw_bytes, filters, None)
}


/// The filter names as `/A -> /B -> ...`.
pub open spec fn joined_filters(fs: Seq<Seq<char>>) -> Seq<char>
    decreases fs.len(),
{
    if fs.len() == 0 {
        seq![]
    } else if fs.len() == 1 {
        seq!['/'] + fs[0]
    } else {
        joined_filters(fs.drop_last()) + " -> "@ + seq!['/'] + fs.last()
    }
}

/// What `encode_filter_chain` returns: unfiltered data is kept, a single
/// Flate filter compresses, anything else is refused.
pub open spec fn spec_encode_chain(decoded: Seq<u8>, filters: Seq<Seq<char>>) -> Result<Seq<u8>, Seq<char>> {
    if filters.len() == 0 {
        Ok(decoded)
    } else if filters.len() == 1 && normalized_filter(filters[0]) == "FlateDecode"@ {
        spec_flate_encode(decoded)
    } else {
        Err("content stream editing can only re-encode unfiltered or single /FlateDecode streams; current filters: "@
            + joined_filters(filters))
    }
}

/// Re-encodes decoded stream bytes for the given filter chain.
pub fn encode_filter_chain(decoded_bytes: &[u8], filters: &[String]) -> (r: Result<Vec<u8>, String>)
    ensures
        match r {
            Ok(e) => spec_encode_chain(decoded_bytes@, string_views(filters@)) == Ok::<Seq<u8>, Seq<char>>(e@),
            Err(m) => spec_encode_chain(decoded_bytes@, string_views(filters@)) == Err::<Seq<u8>, Seq<char>>(m@),
        },
        // Decoding what was encoded, through the same filters, gives the input back without issues.
        r matches Ok(e) ==> ({
            let (d, steps, issues) = spec_decode_chain(e@, string_views(filters@), None);
            d == decoded_bytes@ && issues.len() == 0
        }),
{
    let ghost fv = string_views(filters@);
    if filters.len() == 0 {
        let mut out: Vec<u8> = Vec::new();
        let mut i: usize = 0;
        while i < decoded_bytes.len()
            invariant
                i <= decoded_bytes.len(),
                out@ == decoded_bytes@.take(i as int),
            decreases decoded_bytes.len() - i,
        {
            out.push(decoded_bytes[i]);
            assert(decoded_bytes@.take(i + 1) =~= decoded_bytes@.take(i as int).push(decoded_bytes@[i as int]));
            i = i + 1;
        }
        assert(decoded_bytes@.take(decoded_bytes.len() as int) =~= decoded_bytes@);
        return Ok(out);
    }
    if filters.len() == 1 {
        let n = normalize_filter_name(filters[0].as_str());
        assert(fv[0] == filters@[0]@);
        if str_eq(n.as_str(), "FlateDecode") {
            let r = flate_encode(decoded_bytes);
            proof {
                if r is Ok {
                    assert(is_decoding_filter(normalized_filter(fv[0])));
                    let after = chain_from(decoded_bytes@, fv, 1, None, seq![(fv[0], DecodeStepStatus::Decoded, decoded_message(normalized_filter(fv[0])))], seq![]);
                    assert(after.2 =~= Seq::<IssueView>::empty());
                }
            }
            return r;
        }
    }
    let mut m = owned("content stream editing can only re-encode unfiltered or single /FlateDecode streams; current filters: ");
    let mut i: usize = 0;
    while i < filters.len()
        invariant
            1 <= filters.len(),
            i <= filters.len(),
            fv == string_views(filters@),
            m@ == "content stream editing can only re-encode unfiltered or single /FlateDecode streams; current filters: "@
                + joined_filters(fv.take(i as int)),
        decreases filters.len() - i,
    {
        let ghost before = m@;
        if i > 0 {
            push_str(&mut m, " -> ");
        }
        push_char(&mut m, '/');
        push_str(&mut m, filters[i].as_str());
        proof {
            let t = fv.take(i + 1);
            assert(t.drop_last() =~= fv.take(i as int));
            assert(t.last() == filters@[i as int]@);
            if i == 0 {
                assert(fv.take(0) =~= Seq::<Seq<char>>::empty());
            }
        }
        assert(m@ =~= "content stream editing can only re-encode unfiltered or single /FlateDecode streams; current filters: "@
                + joined_filters(fv.take(i + 1)));
        i = i + 1;
    }
    assert(fv.take(filters.len() as int) =~= fv);
    Err(m)
}


/// The names among a sequence of values, in order.
pub open spec fn names_in(a: Seq<ValueView>) -> Seq<Seq<char>>
    decreases a.len(),
{
    if a.len() == 0 {
        seq![]
    } else {
        let rest = names_in(a.drop_last());
        match a.last() {
            ValueView::Name(n) => rest.push(n),
            _ => rest,
        }
    }
}

/// The filter names of a stream dictionary's /Filter entry: one name, or
/// the names in an array; none otherwise.
pub open spec fn filter_names(d: Seq<(Seq<char>, ValueView)>) -> Seq<Seq<char>> {
    match dict_get(d, "Filter"@) {
        Some(ValueView::Name(n)) => seq![n],
        Some(ValueView::Array(a)) => names_in(a),
        _ => seq![],
    }
}

pub fn filter_names_from_dictionary(dictionary: &PdfDictionary) -> (r: Vec<String>)
    ensures
        string_views(r@) == filter_names(dictionary@),
{
    let mut out: Vec<String> = Vec::new();
    match dictionary.get("Filter") {
        Some(PdfValue::Name(name)) => {
            out.push(owned(name.as_str()));
            assert(string_views(out@) =~= seq![name@]);
        },
        Some(PdfValue::Array(filters)) => {
            let mut i: usize = 0;
            while i < filters.len()
                invariant
                    i <= filters@.len(),
                    string_views(out@) == names_in(value_views(filters@).take(i as int)),
                decreases filters@.len() - i,
            {
                let ghost before = out@;
                assert(value_views(filters@).take(i + 1).drop_last() =~= value_views(filters@).take(i as int));
                assert(value_views(filters@).len() == filters@.len());
                assert(value_views(filters@)[i as int] == filters@[i as int]@);
                assert(value_views(filters@).take(i + 1).last() == filters@[i as int]@);
                match filters[i].as_name() {
                    Some(n) => {
                        out.push(owned(n));
                        assert(string_views(out@) =~= string_views(before).push(n@));
                    },
                    None => {},
                }
                i = i + 1;
            }
            assert(value_views(filters@).take(filters@.len() as int) =~= value_views(filters@));
        },
        _ => {
            assert(string_views(out@) =~= Seq::<Seq<char>>::empty());
        },
    }
    out
}

/// Decodes a stream's raw bytes through its filters with an optional limit.
pub fn decode_stream_with_limit(stream: &PdfStream, max_decoded_length: Option<usize>) -> (r: StreamDecodeResult)
    ensures
        decode_result_matches(r, stream.raw_bytes@, stream.filters@, max_decoded_length),
{
    decode_filter_chain_with_limit(stream.raw_bytes.clone(), stream.filters.as_slice(), max_decoded_length)
}

/// Decodes a stream's raw bytes through its filters.
pub fn decode_stream(stream: &PdfStream) -> (r: StreamDecodeResult)
    ensures
        decode_result_matches(r, stream.raw_bytes@, stream.filters@, None),
{
    decode_stream_with_limit(stream, None)
}

// ---------------------------------------------------------------------------
// The output limit
// ---------------------------------------------------------------------------

proof fn lemma_rl_bound(input: Seq<u8>, pos: int, out: Seq<u8>, l: usize)
    requires
        out.len() <= l,
    ensures
        rl_run(input, pos, out, Some(l)) matches Ok(o) ==> o.len() <= l,
    decreases input.len() - pos,
{
    if 0 <= pos < input.len() {
        let length = input[pos];
        let p = pos + 1;
        if length < 128 {
            let run = length + 1;
            if p + run <= input.len() {
                let o = out + input.subrange(p, p + run);
                if o.len() <= l {
                    lemma_rl_bound(input, p + run, o, l);
                }
            }
        } else if length > 128 && p < input.len() {
            let o = out + Seq::new((257 - length) as nat, |i: int| input[p]);
            if o.len() <= l {
                lemma_rl_bound(input, p + 1, o, l);
            }
        }
    }
}

proof fn lemma_a85_bound(data: Seq<u8>, out: Seq<u8>, group: Seq<u8>, l: usize)
    requires
        out.len() <= l,
    ensures
        a85_run(data, out, group, Some(l)) matches Ok(o) ==> o.len() <= l,
    decreases data.len(),
{
    if data.len() == 0 || data[0] == 0x7eu8 {
    } else if data[0] == 0x7au8 {
        if group.len() == 0 {
            let o = out + seq![0u8, 0u8, 0u8, 0u8];
            if o.len() <= l {
                lemma_a85_bound(data.drop_first(), o, group, l);
            }
        }
    } else if 0x21u8 <= data[0] <= 0x75u8 {
        let g = group.push((data[0] - 0x21u8) as u8);
        if g.len() == 5 {
            let o = out + a85_group_output(g, 4);
            if o.len() <= l {
                lemma_a85_bound(data.drop_first(), o, seq![], l);
            }
        } else {
            lemma_a85_bound(data.drop_first(), out, g, l);
        }
    }
}

proof fn lemma_decoder_bound(n: Seq<char>, input: Seq<u8>, l: usize)
    ensures
        apply_decoder(n, input, Some(l)) matches Ok(o) ==> o.len() <= l,
{
    if n == "FlateDecode"@ {
    } else if n == "ASCIIHexDecode"@ {
    } else if n == "ASCII85Decode"@ {
        lemma_a85_bound(strip_a85_prefix(remove_ws(input)), seq![], seq![], l);
    } else {
        lemma_rl_bound(input, 0, seq![], l);
    }
}

proof fn lemma_chain_bound(
    data: Seq<u8>,
    filters: Seq<Seq<char>>,
    i: int,
    l: usize,
    steps: Seq<StepView>,
    issues: Seq<IssueView>,
)
    requires
        data.len() <= l,
    ensures
        chain_from(data, filters, i, Some(l), steps, issues).0.len() <= l,
    decreases filters.len() - i,
{
    if 0 <= i < filters.len() {
        let f = filters[i];
        let n = normalized_filter(f);
        if is_decoding_filter(n) {
            lemma_decoder_bound(n, data, l);
            match apply_decoder(n, data, Some(l)) {
                Ok(next) => lemma_chain_bound(next, filters, i + 1, l,
                    steps.push((f, DecodeStepStatus::Decoded, decoded_message(n))), issues),
                Err(m) => {},
            }
        } else if n == "DCTDecode"@ {
            lemma_chain_bound(data, filters, i + 1, l,
                steps.push((f, DecodeStepStatus::Passthrough, "DCT/JPEG image data preserved for preview or export"@)), issues);
        }
    }
}

/// With an output limit, a decode never reports more decoded bytes than
/// the limit, and when it has no issues the decoded bytes are exactly the
/// reported length.
pub proof fn lemma_decode_within_limit(r: StreamDecodeResult, raw: Seq<u8>, filters: Seq<String>, limit: usize)
    requires
        decode_result_matches(r, raw, filters, Some(limit)),
    ensures
        r.decoded_length <= limit,
        r.issues@.len() == 0 ==> r.decoded@.len() == r.decoded_length,
{
    if !over_limit(raw.len() as int, Some(limit)) {
        lemma_chain_bound(raw, string_views(filters), 0, limit, seq![], seq![]);
    } else {
        assert(r.issues@.map_values(|i: DecodeIssue| issue_view(i)).len() == 1);
    }
}

// ---------------------------------------------------------------------------
// How a filter chain stops
// ---------------------------------------------------------------------------

/// A step that let the chain go on.
pub open spec fn step_ok(s: StepView) -> bool {
    s.1 is Decoded || s.1 is Passthrough
}

/// What a chain run from filter `i` yields, given `i` good steps so far.
pub open spec fn chain_shape(
    data: Seq<u8>,
    fs: Seq<Seq<char>>,
    i: int,
    steps: Seq<StepView>,
    out: (Seq<u8>, Seq<StepView>, Seq<IssueView>),
) -> bool {
    let (d, st, is) = out;
    &&& is.len() <= 1
    &&& i <= st.len() <= fs.len()
    &&& st.take(i) == steps
    &&& forall|j: int| 0 <= j < st.len() ==> #[trigger] st[j].0 == fs[j]
    &&& is.len() == 0 ==> st.len() == fs.len() && forall|j: int| i <= j < st.len() ==> step_ok(#[trigger] st[j])
    &&& is.len() == 1 ==> {
        &&& st.len() > i
        &&& !step_ok(st.last())
        &&& is[0].0 == st.last().0
        &&& forall|j: int| i <= j < st.len() - 1 ==> step_ok(#[trigger] st[j])
        &&& d == chain_from(data, fs.take(st.len() - 1), i, None, steps, seq![]).0
    }
}

proof fn lemma_chain_shape(data: Seq<u8>, fs: Seq<Seq<char>>, i: int, steps: Seq<StepView>)
    requires
        0 <= i <= fs.len(),
        steps.len() == i,
        forall|j: int| 0 <= j < i ==> #[trigger] steps[j].0 == fs[j],
    ensures
        chain_shape(data, fs, i, steps, chain_from(data, fs, i, None, steps, seq![])),
    decreases fs.len() - i,
{
    let out = chain_from(data, fs, i, None, steps, seq![]);
    if i >= fs.len() {
        assert(steps.take(i) =~= steps);
    } else {
        let f = fs[i];
        let n = normalized_filter(f);
        if is_decoding_filter(n) {
            match apply_decoder(n, data, None) {
                Ok(next) => {
                    let s2 = steps.push((f, DecodeStepStatus::Decoded, decoded_message(n)));
                    lemma_chain_shape(next, fs, i + 1, s2);
                    let (d, st, is) = out;
                    assert(st.take(i + 1) == s2);
                    assert(st.take(i) =~= s2.take(i));
                    assert(s2.take(i) =~= steps);
                    assert(st[i] == s2[i]);
                    if is.len() == 1 {
                        let k = st.len() - 1;
                        assert(fs.take(k)[i] == fs[i]);
                        assert(d == chain_from(next, fs.take(k), i + 1, None, s2, seq![]).0);
                    }
                },
                Err(m) => {
                    let (d, st, is) = out;
                    assert(st =~= steps.push((f, DecodeStepStatus::Failed, m)));
                    assert(st.take(i) =~= steps);
                },
            }
        } else if n == "DCTDecode"@ {
            let s2 = steps.push((f, DecodeStepStatus::Passthrough, "DCT/JPEG image data preserved for preview or export"@));
            lemma_chain_shape(data, fs, i + 1, s2);
            let (d, st, is) = out;
            assert(st.take(i + 1) == s2);
            assert(st.take(i) =~= s2.take(i));
            assert(s2.take(i) =~= steps);
            assert(st[i] == s2[i]);
            if is.len() == 1 {
                let k = st.len() - 1;
                assert(fs.take(k)[i] == fs[i]);
            }
        } else {
            let (d, st, is) = out;
            assert(st =~= steps.push((f, DecodeStepStatus::Unsupported, unsupported_message(f))));
            assert(st.take(i) =~= steps);
        }
    }
}

/// Without a limit, a filter chain either runs every filter to a good step
/// with no issue, or stops at its first failing or unsupported filter:
/// exactly one issue, for that filter, the last step, all earlier steps
/// good, and the decoded bytes are what the filters before it produced.
/// Steps name the filters in order, and the decoded length is the length
/// of the decoded bytes.
pub proof fn lemma_chain_stops_once(r: StreamDecodeResult, raw: Seq<u8>, filters: Seq<String>)
    requires
        decode_result_matches(r, raw, filters, None),
    ensures
        ({
            let fs = string_views(filters);
            let st = r.steps@.map_values(|s: DecodeStep| step_view(s));
            let is = r.issues@.map_values(|i: DecodeIssue| issue_view(i));
            &&& r.decoded_length == r.decoded@.len()
            &&& is.len() <= 1
            &&& st.len() <= fs.len()
            &&& forall|j: int| 0 <= j < st.len() ==> #[trigger] st[j].0 == fs[j]
            &&& is.len() == 0 ==> st.len() == fs.len() && forall|j: int| 0 <= j < st.len() ==> step_ok(#[trigger] st[j])
            &&& is.len() == 1 ==> {
                &&& st.len() >= 1
                &&& !step_ok(st.last())
                &&& is[0].0 == st.last().0
                &&& forall|j: int| 0 <= j < st.len() - 1 ==> step_ok(#[trigger] st[j])
                &&& r.decoded@ == spec_decode_chain(raw, fs.take(st.len() - 1), None).0
            }
        }),
{
    let fs = string_views(filters);
    let e: Seq<StepView> = seq![];
    lemma_chain_shape(raw, fs, 0, e);
    let (d, st, is) = chain_from(raw, fs, 0, None, e, seq![]);
    assert(!over_limit(raw.len() as int, None));
    assert(spec_decode_chain(raw, fs, None) == chain_from(raw, fs, 0, None, e, seq![]));
    assert(r.steps@.map_values(|s: DecodeStep| step_view(s)) == st);
    assert(r.issues@.map_values(|i: DecodeIssue| issue_view(i)) == is);
    if is.len() == 1 {
        assert(spec_decode_chain(raw, fs.take(st.len() - 1), None) == chain_from(raw, fs.take(st.len() - 1), 0, None, e, seq![]));
        assert(!step_ok(st.last()));
        assert(forall|j: int| 0 <= j < st.len() - 1 ==> step_ok(#[trigger] st[j]));
        assert(r.decoded@ == spec_decode_chain(raw, fs.take(st.len() - 1), None).0);
    }
    assert(r.decoded_length == r.decoded@.len());
    assert(forall|j: int| 0 <= j < st.len() ==> #[trigger] st[j].0 == fs[j]);
}

} // verus!
