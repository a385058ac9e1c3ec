//! Stream views: decode summaries, content stream analysis, and hex dumps.
use vstd::prelude::*;
use crate::content_ops::{ContentAnalysis, analysis_matches, analyze_content_stream, content_stream_tokenizable, tokenizable};
use crate::pdf_model::{ByteRange, ObjectRef, PdfStream, ValueView, dict_get, view_name};
use crate::stream_decode::{
    DecodeIssue, DecodeStep, IssueView, StepView, copy_strings, decode_stream, issue_view, spec_decode_chain, step_view,
};
use crate::text::{hex_digit, hex_digit_char, owned, push_char, push_str, string_views};

verus! {

// ---------------------------------------------------------------------------
// Hex dump
// ---------------------------------------------------------------------------

/// Lower-case hex digits of `n`, most significant first, no leading zeros.
pub open spec fn hex_of(n: nat) -> Seq<char>
    decreases n,
{
    if n < 16 { seq![hex_digit(n as int)] } else { hex_of(n / 16).push(hex_digit((n % 16) as int)) }
}

/// `{n:08x}`: hex digits padded with zeros to at least eight.
pub open spec fn hex8(n: nat) -> Seq<char> {
    let h = hex_of(n);
    if h.len() < 8 { Seq::new((8 - h.len()) as nat, |i: int| '0') + h } else { h }
}

/// The hex column cell for position `i` of a row.
pub open spec fn hex_cell(chunk: Seq<u8>, i: int) -> Seq<char> {
    let c = if i < chunk.len() {
        seq![hex_digit((chunk[i] / 16) as int), hex_digit((chunk[i] % 16) as int), ' ']
    } else {
        seq![' ', ' ', ' ']
    };
    if i == 7 { c.push(' ') } else { c }
}

pub open spec fn hex_cells(chunk: Seq<u8>, k: nat) -> Seq<char>
    decreases k,
{
    if k == 0 { seq![] } else { hex_cells(chunk, (k - 1) as nat) + hex_cell(chunk, k - 1) }
}

/// The printable column: printable ASCII and space as is, others as `.`.
pub open spec fn ascii_column(chunk: Seq<u8>) -> Seq<char> {
    chunk.map_values(|b: u8| if (0x21u8 <= b <= 0x7eu8) || b == 0x20u8 { b as char } else { '.' })
}

/// One row: offset, sixteen hex cells, and the printable column.
pub open spec fn hex_row(chunk: Seq<u8>, offset: nat) -> Seq<char> {
    hex8(offset) + seq![' ', ' '] + hex_cells(chunk, 16) + seq![' '] + ascii_column(chunk) + seq!['\n']
}

/// The rows of a hex dump for `b` from row `row` onward.
pub open spec fn hex_rows(b: Seq<u8>, rows: nat) -> Seq<char>
    decreases rows,
{
    if rows == 0 {
        seq![]
    } else {
        let r: int = rows - 1;
        let end: int = if 16 * r + 16 <= b.len() { 16 * r + 16 } else { b.len() as int };
        hex_rows(b, (rows - 1) as nat) + hex_row(b.subrange(16 * r, end), (16 * r) as nat)
    }
}

/// A hex dump of `b`: sixteen bytes per row.
pub open spec fn spec_hex_dump(b: Seq<u8>) -> Seq<char> {
    hex_rows(b, ((b.len() + 15) / 16) as nat)
}

fn hex_string(n: usize) -> (s: String)
    ensures
        s@ == hex_of(n as nat),
    decreases n,
{
    if n < 16 {
        let mut s = String::new();
        push_char(&mut s, hex_digit_char(n as u8));
        s
    } else {
        let mut s = hex_string(n / 16);
        push_char(&mut s, hex_digit_char((n % 16) as u8));
        s
    }
}

fn push_hex8(out: &mut String, n: usize)
    ensures
        final(out)@ == old(out)@ + hex8(n as nat),
{
    let h = hex_string(n);
    let hl = h.unicode_len();
    let ghost start = out@;
    if hl < 8 {
        let mut k = hl;
        while k < 8
            invariant
                hl <= k <= 8,
                hl == hex_of(n as nat).len(),
                out@ == start + Seq::new((k - hl) as nat, |i: int| '0'),
            decreases 8 - k,
        {
            push_char(out, '0');
            assert(Seq::new((k + 1 - hl) as nat, |i: int| '0') =~= Seq::new((k - hl) as nat, |i: int| '0').push('0'));
            k = k + 1;
        }
    }
    push_str(out, h.as_str());
    assert(out@ =~= start + hex8(n as nat));
}

/// Renders bytes as a hex dump: for each sixteen bytes, the offset in hex,
/// the bytes in hex, and the printable characters.
pub fn hex_dump(bytes: &[u8]) -> (s: String)
    ensures
        s@ == spec_hex_dump(bytes@),
{
    let mut output = String::new();
    let rows = bytes.len() / 16 + if bytes.len() % 16 == 0 { 0 } else { 1 };
    let mut row: usize = 0;
    let n = bytes.len();
    while row < rows
        invariant
            n == bytes@.len(),
            row <= rows,
            rows == (bytes@.len() + 15) / 16,
            output@ == hex_rows(bytes@, row as nat),
        decreases rows - row,
    {
        assert(row * 16 < bytes@.len()) by (nonlinear_arith)
            requires
                row < rows,
                rows == (bytes@.len() + 15) / 16,
        ;
        assert(row * 16 < n);
        let start = row * 16;
        let end = if bytes.len() - start >= 16 { start + 16 } else { bytes.len() };
        let ghost chunk = bytes@.subrange(start as int, end as int);
        let ghost before = output@;
        push_hex8(&mut output, start);
        push_char(&mut output, ' ');
        push_char(&mut output, ' ');
        let ghost mark = output@;
        let mut index: usize = 0;
        while index < 16
            invariant
                index <= 16,
                start <= end <= bytes@.len(),
                end - start <= 16,
                chunk == bytes@.subrange(start as int, end as int),
                output@ == mark + hex_cells(chunk, index as nat),
            decreases 16 - index,
        {
            if index < end - start {
                let b = bytes[start + index];
                assert(chunk[index as int] == b);
                push_char(&mut output, hex_digit_char(b / 16));
                push_char(&mut output, hex_digit_char(b % 16));
                push_char(&mut output, ' ');
            } else {
                push_char(&mut output, ' ');
                push_char(&mut output, ' ');
                push_char(&mut output, ' ');
            }
            if index == 7 {
                push_char(&mut output, ' ');
            }
            assert(output@ =~= mark + hex_cells(chunk, (index + 1) as nat));
            index = index + 1;
        }
        push_char(&mut output, ' ');
        let ghost mark2 = output@;
        let mut k = start;
        while k < end
            invariant
                start <= k <= end <= bytes@.len(),
                chunk == bytes@.subrange(start as int, end as int),
                output@ == mark2 + ascii_column(chunk.take(k - start)),
            decreases end - k,
        {
            let b = bytes[k];
            if (0x21 <= b && b <= 0x7e) || b == 0x20 {
                push_char(&mut output, b as char);
            } else {
                push_char(&mut output, '.');
            }
            assert(chunk.take(k + 1 - start) =~= chunk.take(k - start).push(b));
            assert(output@ =~= mark2 + ascii_column(chunk.take(k + 1 - start)));
            k = k + 1;
        }
        assert(chunk.take(end - start) =~= chunk);
        push_char(&mut output, '\n');
        assert(output@ =~= before + hex_row(chunk, (16 * row) as nat));
        row = row + 1;
    }
    output
}


// ---------------------------------------------------------------------------
// Stream inspection
// ---------------------------------------------------------------------------

/// What a stream holds and how its filters decode, without its bytes.
#[derive(Debug)]
pub struct StreamView {
    pub reference: ObjectRef,
    pub declared_length: Option<usize>,
    pub actual_length: usize,
    pub raw_range: ByteRange,
    pub filters: Vec<String>,
    pub decoded_length: Option<usize>,
    pub decode_steps: Vec<DecodeStep>,
    pub decode_issues: Vec<DecodeIssue>,
}

/// A decoded page content stream and its analysis.
#[derive(Debug)]
pub struct ContentStreamView {
    pub reference: ObjectRef,
    pub decoded_length: usize,
    pub filters: Vec<String>,
    pub decode_steps: Vec<DecodeStep>,
    pub analysis: ContentAnalysis,
}

/// Why a stream could not be analysed as page content.
#[derive(Debug)]
pub struct ContentStreamViewError {
    pub issues: Vec<DecodeIssue>,
    pub message: String,
}

pub open spec fn steps_view(s: Seq<DecodeStep>) -> Seq<StepView> {
    s.map_values(|x: DecodeStep| step_view(x))
}

pub open spec fn issues_view(s: Seq<DecodeIssue>) -> Seq<IssueView> {
    s.map_values(|x: DecodeIssue| issue_view(x))
}

/// Summarizes a stream: its lengths, range and filters, and the outcome of
/// decoding it (the decoded length only when every filter succeeded).
pub fn inspect_stream(reference: ObjectRef, stream: &PdfStream) -> (v: StreamView)
    ensures
        v.reference == reference,
        v.declared_length == stream.declared_length,
        v.actual_length == stream.actual_length,
        v.raw_range == stream.raw_range,
        string_views(v.filters@) == string_views(stream.filters@),
        ({
            let (d, steps, issues) = spec_decode_chain(stream.raw_bytes@, string_views(stream.filters@), None);
            &&& v.decoded_length == if issues.len() == 0 { Some(d.len() as usize) } else { None }
            &&& steps_view(v.decode_steps@) == steps
            &&& issues_view(v.decode_issues@) == issues
        }),
{
    let decode = decode_stream(stream);
    let decoded_length = if decode.has_issues() { None } else { Some(decode.decoded_length) };
    StreamView {
        reference,
        declared_length: stream.declared_length,
        actual_length: stream.actual_length,
        raw_range: stream.raw_range,
        filters: copy_strings(stream.filters.as_slice()),
        decoded_length,
        decode_steps: decode.steps,
        decode_issues: decode.issues,
    }
}

/// The name stored under `key` in a dictionary, if it is a name.
pub open spec fn name_under(d: Seq<(Seq<char>, ValueView)>, key: Seq<char>) -> Option<Seq<char>> {
    match dict_get(d, key) {
        Some(v) => view_name(v),
        None => None,
    }
}

/// Why a stream with this dictionary is not a page content stream, if it is not.
pub open spec fn candidate_refusal(reference: ObjectRef, d: Seq<(Seq<char>, ValueView)>) -> Option<Seq<char>> {
    let subtype = name_under(d, "Subtype"@);
    if subtype == Some("Image"@) {
        Some("Object "@ + reference.spec_text() + " is an image XObject stream, not a PDF page content stream."@)
    } else if name_under(d, "Type"@) == Some("XObject"@) {
        let shown = match subtype {
            Some(n) => n,
            None => "unknown subtype"@,
        };
        Some("Object "@ + reference.spec_text() + " is an XObject stream ("@ + shown + ") rather than a page content stream."@)
    } else {
        None
    }
}

/// "/{filter}: {message}"
pub open spec fn issue_line(i: IssueView) -> Seq<char> {
    "/"@ + i.0 + ": "@ + i.2
}

/// The issue lines joined by "; ".
pub open spec fn issues_joined(s: Seq<IssueView>) -> Seq<char>
    decreases s.len(),
{
    if s.len() == 0 {
        seq![]
    } else if s.len() == 1 {
        issue_line(s[0])
    } else {
        issues_joined(s.drop_last()) + "; "@ + issue_line(s.last())
    }
}

/// The message for decode issues: the joined lines, or a general sentence
/// when there are none.
pub open spec fn issues_message(s: Seq<IssueView>) -> Seq<char> {
    let m = issues_joined(s);
    if m.len() == 0 { "Content stream analysis requires successfully decoded stream bytes"@ } else { m }
}

/// The message when the decoded bytes hold a character the content scanner
/// cannot step past.
pub open spec fn untokenizable_message() -> Seq<char> {
    "Content stream holds a stray delimiter the content tokenizer cannot step past"@
}

fn name_of<'a>(stream: &'a PdfStream, key: &str) -> (r: Option<&'a str>)
    ensures
        match r {
            Some(n) => name_under(stream.dictionary@, key@) == Some(n@),
            None => name_under(stream.dictionary@, key@) is None,
        },
{
    match stream.dictionary.get(key) {
        Some(value) => value.as_name(),
        None => None,
    }
}

fn content_stream_type_error(message: String) -> (e: ContentStreamViewError)
    ensures
        e.issues@.len() == 0,
        e.message@ == message@,
{
    ContentStreamViewError { issues: Vec::new(), message }
}

fn ensure_page_content_stream_candidate(reference: ObjectRef, stream: &PdfStream) -> (r: Result<(), ContentStreamViewError>)
    ensures
        match candidate_refusal(reference, stream.dictionary@) {
            Some(m) => r matches Err(e) && e.issues@.len() == 0 && e.message@ == m,
            None => r is Ok,
        },
{
    let kind_name = name_of(stream, "Type");
    let subkind_name = name_of(stream, "Subtype");
    proof {
        reveal_strlit("Type");
        reveal_strlit("Subtype");
    }
    let is_image = match subkind_name {
        Some(n) => crate::text::str_eq(n, "Image"),
        None => false,
    };
    if is_image {
        let mut m = owned("Object ");
        let rt = reference.to_text();
        push_str(&mut m, rt.as_str());
        push_str(&mut m, " is an image XObject stream, not a PDF page content stream.");
        return Err(content_stream_type_error(m));
    }
    let is_xobject = match kind_name {
        Some(n) => crate::text::str_eq(n, "XObject"),
        None => false,
    };
    if is_xobject {
        let mut m = owned("Object ");
        let rt = reference.to_text();
        push_str(&mut m, rt.as_str());
        push_str(&mut m, " is an XObject stream (");
        match subkind_name {
            Some(n) => push_str(&mut m, n),
            None => push_str(&mut m, "unknown subtype"),
        }
        push_str(&mut m, ") rather than a page content stream.");
        return Err(content_stream_type_error(m));
    }
    Ok(())
}

/// The issue lines `/{filter}: {message}` joined by "; ".
pub fn join_issue_lines(issues: &[DecodeIssue]) -> (m: String)
    ensures
        m@ == issues_joined(issues_view(issues@)),
{
    let mut out = String::new();
    let mut i: usize = 0;
    while i < issues.len()
        invariant
            i <= issues@.len(),
            out@ == issues_joined(issues_view(issues@.take(i as int))),
        decreases issues@.len() - i,
    {
        let ghost before = issues_view(issues@.take(i as int));
        let ghost prev = out@;
        if i > 0 {
            push_str(&mut out, "; ");
        }
        push_char(&mut out, '/');
        push_str(&mut out, issues[i].filter.as_str());
        push_str(&mut out, ": ");
        push_str(&mut out, issues[i].message.as_str());
        proof {
            let next = issues_view(issues@.take(i + 1));
            assert(next.drop_last() =~= before);
            assert(next.last() == issue_view(issues@[i as int]));
            reveal_strlit("/");
            assert(next.len() == i + 1);
            if i == 0 {
                assert(prev.len() == 0);
                assert(out@ =~= issue_line(next[0]));
            } else {
                assert(out@ =~= prev + "; "@ + issue_line(next.last()));
            }
            assert(out@ =~= issues_joined(next));
        }
        i = i + 1;
    }
    assert(issues@.take(issues@.len() as int) =~= issues@);
    out
}

fn join_issues(issues: &[DecodeIssue]) -> (m: String)
    ensures
        m@ == issues_message(issues_view(issues@)),
{
    let out = join_issue_lines(issues);
    if out.unicode_len() == 0 {
        owned("Content stream analysis requires successfully decoded stream bytes")
    } else {
        out
    }
}

/// Decodes a page content stream and analyses its operators. Image and
/// other XObject streams are refused, as are streams whose filters fail and
/// decoded bytes the content scanner cannot step past.
pub fn inspect_content_stream(reference: ObjectRef, stream: &PdfStream) -> (r: Result<ContentStreamView, ContentStreamViewError>)
    ensures
        match candidate_refusal(reference, stream.dictionary@) {
            Some(m) => r matches Err(e) && e.issues@.len() == 0 && e.message@ == m,
            None => {
                let (d, steps, issues) = spec_decode_chain(stream.raw_bytes@, string_views(stream.filters@), None);
                if issues.len() > 0 {
                    r matches Err(e) && issues_view(e.issues@) == issues && e.message@ == issues_message(issues)
                } else if !tokenizable(d) {
                    r matches Err(e) && e.issues@.len() == 0 && e.message@ == untokenizable_message()
                } else {
                    r matches Ok(v) && {
                        &&& v.reference == reference
                        &&& v.decoded_length == d.len()
                        &&& string_views(v.filters@) == string_views(stream.filters@)
                        &&& steps_view(v.decode_steps@) == steps
                        &&& analysis_matches(v.analysis, d)
                    }
                }
            },
        },
{
    match ensure_page_content_stream_candidate(reference, stream) {
        Err(e) => return Err(e),
        Ok(()) => {},
    }
    let decode = decode_stream(stream);
    if decode.has_issues() {
        let message = join_issues(decode.issues.as_slice());
        return Err(ContentStreamViewError { issues: decode.issues, message });
    }
    if !content_stream_tokenizable(decode.decoded.as_slice()) {
        return Err(content_stream_type_error(owned("Content stream holds a stray delimiter the content tokenizer cannot step past")));
    }
    let analysis = analyze_content_stream(decode.decoded.as_slice());
    Ok(ContentStreamView {
        reference,
        decoded_length: decode.decoded_length,
        filters: decode.filters,
        decode_steps: decode.steps,
        analysis,
    })
}

// ---------------------------------------------------------------------------
// The lines of a hex dump
// ---------------------------------------------------------------------------

/// How many line breaks `s` holds.
pub open spec fn newline_count(s: Seq<char>) -> nat
    decreases s.len(),
{
    if s.len() == 0 { 0 } else { newline_count(s.drop_last()) + if s.last() == '\n' { 1nat } else { 0nat } }
}

proof fn lemma_newline_concat(a: Seq<char>, b: Seq<char>)
    ensures
        newline_count(a + b) == newline_count(a) + newline_count(b),
    decreases b.len(),
{
    if b.len() > 0 {
        assert((a + b).drop_last() =~= a + b.drop_last());
        lemma_newline_concat(a, b.drop_last());
    }
}

proof fn lemma_no_newline(s: Seq<char>)
    requires
        forall|i: int| 0 <= i < s.len() ==> s[i] != '\n',
    ensures
        newline_count(s) == 0,
    decreases s.len(),
{
    if s.len() > 0 {
        lemma_no_newline(s.drop_last());
    }
}

proof fn lemma_hex_digit_not_newline(d: int)
    requires
        0 <= d < 16,
    ensures
        hex_digit(d) != '\n',
{
}

proof fn lemma_hex_of_no_newline(n: nat)
    ensures
        forall|i: int| 0 <= i < hex_of(n).len() ==> hex_of(n)[i] != '\n',
    decreases n,
{
    if n >= 16 {
        lemma_hex_of_no_newline(n / 16);
        lemma_hex_digit_not_newline((n % 16) as int);
        let p = hex_of(n / 16);
        assert forall|i: int| 0 <= i < hex_of(n).len() implies hex_of(n)[i] != '\n' by {
            if i < p.len() {
                assert(hex_of(n)[i] == p[i]);
            }
        }
    } else {
        lemma_hex_digit_not_newline(n as int);
    }
}

proof fn lemma_hex_cells_no_newline(chunk: Seq<u8>, k: nat)
    ensures
        forall|i: int| 0 <= i < hex_cells(chunk, k).len() ==> hex_cells(chunk, k)[i] != '\n',
    decreases k,
{
    if k > 0 {
        lemma_hex_cells_no_newline(chunk, (k - 1) as nat);
        let j = k - 1;
        if j < chunk.len() {
            lemma_hex_digit_not_newline((chunk[j] / 16) as int);
            lemma_hex_digit_not_newline((chunk[j] % 16) as int);
        }
        let a = hex_cells(chunk, (k - 1) as nat);
        let c = hex_cell(chunk, j);
        assert forall|i: int| 0 <= i < (a + c).len() implies (a + c)[i] != '\n' by {
            if i >= a.len() {
                assert((a + c)[i] == c[i - a.len()]);
            }
        }
    }
}

proof fn lemma_hex_row_one_line(chunk: Seq<u8>, offset: nat)
    ensures
        newline_count(hex_row(chunk, offset)) == 1,
        hex_row(chunk, offset).last() == '\n',
{
    let h = hex_of(offset);
    lemma_hex_of_no_newline(offset);
    let h8 = hex8(offset);
    assert forall|i: int| 0 <= i < h8.len() implies h8[i] != '\n' by {
        if h.len() < 8 {
            let z = Seq::new((8 - h.len()) as nat, |i: int| '0');
            if i >= z.len() {
                assert(h8[i] == h[i - z.len()]);
            }
        }
    }
    lemma_hex_cells_no_newline(chunk, 16);
    let x = h8 + seq![' ', ' '] + hex_cells(chunk, 16) + seq![' '] + ascii_column(chunk);
    assert forall|i: int| 0 <= i < x.len() implies x[i] != '\n' by {
        let a = h8 + seq![' ', ' '];
        let b = a + hex_cells(chunk, 16);
        let c = b + seq![' '];
        if i >= c.len() {
            let k = i - c.len();
            assert(x[i] == ascii_column(chunk)[k]);
        } else if i >= b.len() {
        } else if i >= a.len() {
            assert(b[i] == hex_cells(chunk, 16)[i - a.len()]);
        } else if i >= h8.len() {
        } else {
            assert(a[i] == h8[i]);
        }
    }
    lemma_no_newline(x);
    assert(hex_row(chunk, offset) =~= x + seq!['\n']);
    assert(seq!['\n'].drop_last() =~= Seq::<char>::empty());
    let nl: Seq<char> = seq!['\n'];
    assert(nl.len() == 1 && nl.last() == '\n');
    assert(newline_count(nl.drop_last()) == 0);
    assert(newline_count(nl) == 1);
    lemma_newline_concat(x, seq!['\n']);
}

proof fn lemma_hex_rows_lines(b: Seq<u8>, rows: nat)
    ensures
        newline_count(hex_rows(b, rows)) == rows,
        rows > 0 ==> hex_rows(b, rows).len() > 0 && hex_rows(b, rows).last() == '\n',
        rows == 0 ==> hex_rows(b, rows).len() == 0,
    decreases rows,
{
    if rows > 0 {
        let r: int = rows - 1;
        let end: int = if 16 * r + 16 <= b.len() { 16 * r + 16 } else { b.len() as int };
        lemma_hex_rows_lines(b, (rows - 1) as nat);
        let row = hex_row(b.subrange(16 * r, end), (16 * r) as nat);
        lemma_hex_row_one_line(b.subrange(16 * r, end), (16 * r) as nat);
        lemma_newline_concat(hex_rows(b, (rows - 1) as nat), row);
    }
}

/// A hex dump of no bytes is empty; otherwise it ends with a line break
/// and has one line per sixteen bytes, the last possibly shorter.
pub proof fn lemma_hex_dump_lines(b: Seq<u8>)
    ensures
        b.len() == 0 ==> spec_hex_dump(b).len() == 0,
        b.len() > 0 ==> spec_hex_dump(b).last() == '\n',
        newline_count(spec_hex_dump(b)) == (b.len() + 15) / 16,
{
    lemma_hex_rows_lines(b, ((b.len() + 15) / 16) as nat);
}

} // verus!
