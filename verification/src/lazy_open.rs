//! Opening a document lazily: the chain of cross-reference sections
//! (classic tables, streams and hybrid files), merged newest first, the
//! merged trailer, and the metadata read from the header and the tail.
use vstd::prelude::*;
use crate::error::{ErrorV, PdfDebuggerError, error_message};
use crate::lazy_pdf::{
    LazyPdfDocument, LazyWarningV, header_end, lazy_open_error, lazy_unsigned, lazy_unsigned_at,
    lazy_warning_views, push_lazy_warning, read_at, window, window_object, parse_indirect_object_window,
};
use crate::lazy_xref::{
    LazyPdfWarning, LazyXrefEntry, LazyXrefIndex, insert_lazy_entry, lazy_entries_put, lazy_entries_sorted,
    parse_decoded_xref_stream_entries_checked, xref_stream_entries,
};
use crate::pdf_model::{PdfMetadata, ObjectRef, PdfDictionary, PdfStream, PdfValue, ValueView, dict_get, dict_insert, view_usize};
use crate::pdf_parser::{
    line_end, line_end_from, obj_bytes, occurs_at, parse_pdf_value_with_consumed, parse_u32, parse_u16, parse_usize,
    parse_unsigned, skip_blank, skip_blank_lines, skip_whitespace_and_comments, skip_wsc, spec_value,
    split_whitespace_words, starts_with_at, trailer_bytes, value_result, ws_words, xref_bytes, find_first,
    find_first_from, skip_ascii_whitespace, trim_text,
};
use crate::content_ops::skip_ws_from;
use crate::stream_decode::{decode_stream_with_limit, spec_decode_chain};
use crate::stream_viewer::{issues_joined, issues_view, join_issue_lines, name_under};
use crate::pdf_parser::name_is;
use crate::text::{copy_range, decimal, lossy_string, owned, push_decimal, push_str, str_eq, string_views, utf8_lossy};
use crate::value_views::StreamV;

verus! {

/// The most bytes read for one cross-reference section.
pub const XREF_READ_LIMIT: usize = 16777216;
/// The longest cross-reference stream, and the most it may decode to.
pub const XREF_STREAM_DECODE_LIMIT: usize = 33554432;
/// How many sections a `/Prev` chain may hold.
pub const XREF_CHAIN_MAX_SECTIONS: usize = 32;

/// A cross-reference section as values: its entries and its trailer.
pub type SectionV = (Seq<LazyXrefEntry>, Option<ValueView>);

pub(crate) struct LazyXrefSection {
    pub(crate) entries: Vec<LazyXrefEntry>,
    pub(crate) trailer: Option<PdfValue>,
}

pub(crate) open spec fn opt_value(v: Option<PdfValue>) -> Option<ValueView> {
    match v {
        Some(x) => Some(x@),
        None => None,
    }
}

pub(crate) open spec fn section_view(s: LazyXrefSection) -> SectionV {
    (s.entries@, opt_value(s.trailer))
}

// ---------------------------------------------------------------------------
// Classic tables
// ---------------------------------------------------------------------------

/// The end of the line at `start`; the end of the data past it.
pub open spec fn line_end_any(b: Seq<u8>, start: int) -> int {
    if start > b.len() { b.len() as int } else { line_end_from(b, start) }
}

/// `x + 1`, saturating at the largest `usize`.
pub open spec fn sat_next(x: int) -> int {
    if x + 1 > usize::MAX { usize::MAX as int } else { x + 1 }
}

/// The whitespace-separated words of `b[s..e]` read as text.
pub open spec fn line_words(b: Seq<u8>, s: int, e: int) -> Seq<Seq<char>> {
    ws_words(utf8_lossy(b.subrange(s, e)), seq![], seq![])
}

/// A word read as an unsigned number no larger than `max`.
pub open spec fn word_number(w: Seq<char>, max: nat) -> Option<nat> {
    parse_unsigned(vstd::utf8::encode_utf8(w), max)
}

/// The object number of entry `index` of a subsection that starts at
/// `first`, wrapping at 32 bits.
pub open spec fn entry_object(first: u32, index: nat) -> u32 {
    ((first as nat + index % 4294967296) % 4294967296) as u32
}

/// One entry line `offset generation n|f` read by its words.
pub open spec fn classic_entry(words: Seq<Seq<char>>, object: u32) -> Option<LazyXrefEntry> {
    if words.len() >= 3 {
        match (word_number(words[0], usize::MAX as nat), word_number(words[1], u16::MAX as nat)) {
            (Some(offset), Some(generation)) => Some(LazyXrefEntry {
                reference: ObjectRef { object, generation: generation as u16 },
                offset: offset as usize,
                in_use: words[2] == "n"@,
                generation: generation as u16,
                compressed: None,
            }),
            _ => None,
        }
    } else {
        None
    }
}

/// The entry lines of a subsection from `cursor`, `index` of `count` read:
/// where reading stopped and the entries so far. Blank lines are skipped;
/// lines that do not read as entries are passed over.
#[verifier::opaque]
pub open spec fn classic_entries(b: Seq<u8>, cursor: int, first: u32, index: nat, count: nat, acc: Seq<LazyXrefEntry>)
    -> (int, Seq<LazyXrefEntry>)
    decreases b.len() + 1 - cursor,
{
    if index >= count || cursor < 0 {
        (cursor, acc)
    } else {
        let c = skip_blank(b, cursor);
        let e = line_end_any(b, c);
        if e <= c || e > b.len() || c < cursor || e >= usize::MAX {
            (c, acc)
        } else {
            let acc2 = match classic_entry(line_words(b, c, e), entry_object(first, index)) {
                Some(x) => acc.push(x),
                None => acc,
            };
            classic_entries(b, e + 1, first, index + 1, count, acc2)
        }
    }
}

pub open spec fn trailer_missing(entries: Seq<LazyXrefEntry>, startxref: usize) -> (SectionV, Seq<LazyWarningV>) {
    ((entries, None), seq![("lazy.trailer_missing"@, "Classic xref table was parsed without a trailer dictionary"@, Some(startxref))])
}

/// The subsections of a classic table from `cursor` up to its trailer.
#[verifier::opaque]
pub open spec fn classic_lines(b: Seq<u8>, cursor: int, entries: Seq<LazyXrefEntry>, startxref: usize)
    -> (SectionV, Seq<LazyWarningV>)
    decreases b.len() + 1 - cursor,
{
    let c = if cursor < 0 { cursor } else { skip_blank(b, cursor) };
    if cursor < 0 || c >= b.len() || c < cursor {
        trailer_missing(entries, startxref)
    } else if occurs_at(b, trailer_bytes(), c) {
        let ts = c + 7;
        match spec_value(b.skip(ts), 0) {
            Some((v, _)) => ((entries, Some(v)), seq![]),
            None => ((entries, None), seq![("lazy.trailer_parse_failed"@, "Could not parse lazy trailer dictionary"@,
                Some((startxref + ts) as usize))]),
        }
    } else {
        let e = line_end_from(b, c);
        let words = line_words(b, c, e);
        if words.len() != 2 {
            trailer_missing(entries, startxref)
        } else {
            match (word_number(words[0], u32::MAX as nat), word_number(words[1], usize::MAX as nat)) {
                (Some(first), Some(count)) => {
                    let (c2, es) = classic_entries(b, sat_next(e), first as u32, 0, count, entries);
                    if c2 <= cursor || c2 > b.len() + 1 {
                        trailer_missing(es, startxref)
                    } else {
                        classic_lines(b, c2, es, startxref)
                    }
                },
                _ => trailer_missing(entries, startxref),
            }
        }
    }
}

/// A classic table read from `b`, which starts with `xref` at `startxref`.
pub open spec fn classic_section(b: Seq<u8>, startxref: usize) -> (SectionV, Seq<LazyWarningV>) {
    classic_lines(b, sat_next(line_end_any(b, 0)), seq![], startxref)
}

fn line_end_at(b: &[u8], start: usize) -> (r: usize)
    ensures
        r == line_end_any(b@, start as int),
        r <= b@.len(),
{
    if start > b.len() {
        b.len()
    } else {
        line_end(b, start)
    }
}

fn skip_blank_at(b: &[u8], cursor: usize) -> (r: usize)
    ensures
        r == skip_blank(b@, cursor as int),
{
    if cursor > b.len() {
        cursor
    } else {
        skip_blank_lines(b, cursor)
    }
}

fn words_between(b: &[u8], s: usize, e: usize) -> (r: Vec<String>)
    requires
        s <= e <= b@.len(),
    ensures
        string_views(r@) == line_words(b@, s as int, e as int),
{
    let line = vstd::slice::slice_subrange(b, s, e);
    let text = lossy_string(line);
    split_whitespace_words(text.as_str())
}

fn word_u32(w: &String) -> (r: Option<u32>)
    ensures
        match word_number(w@, u32::MAX as nat) {
            Some(v) => r == Some(v as u32),
            None => r is None,
        },
{
    parse_u32(w.as_str().as_bytes())
}

fn word_u16(w: &String) -> (r: Option<u16>)
    ensures
        match word_number(w@, u16::MAX as nat) {
            Some(v) => r == Some(v as u16),
            None => r is None,
        },
{
    parse_u16(w.as_str().as_bytes())
}

fn word_usize(w: &String) -> (r: Option<usize>)
    ensures
        match word_number(w@, usize::MAX as nat) {
            Some(v) => r == Some(v as usize),
            None => r is None,
        },
{
    parse_usize(w.as_str().as_bytes())
}

fn read_classic_entry(words: &Vec<String>, object: u32) -> (r: Option<LazyXrefEntry>)
    ensures
        r == classic_entry(string_views(words@), object),
{
    let ghost wv = string_views(words@);
    if words.len() < 3 {
        return None;
    }
    assert(wv[0] == words@[0]@ && wv[1] == words@[1]@ && wv[2] == words@[2]@);
    let offset = word_usize(&words[0]);
    let generation = word_u16(&words[1]);
    match (offset, generation) {
        (Some(offset), Some(generation)) => Some(LazyXrefEntry {
            reference: ObjectRef::new(object, generation),
            offset,
            in_use: str_eq(words[2].as_str(), "n"),
            generation,
            compressed: None,
        }),
        _ => None,
    }
}

fn wrap_object(first: u32, index: usize) -> (r: u32)
    ensures
        r == entry_object(first, index as nat),
{
    let wide: u64 = index as u64;
    let low: u64 = wide % 4294967296u64;
    let sum: u64 = first as u64 + low;
    (sum % 4294967296u64) as u32
}

fn classic_entry_step(
    b: &[u8],
    cursor: usize,
    first: u32,
    index: usize,
    count: usize,
    entries: &mut Vec<LazyXrefEntry>,
) -> (r: Result<usize, usize>)
    requires
        index < count,
    ensures
        match r {
            Err(c) => final(entries)@ == old(entries)@
                && classic_entries(b@, cursor as int, first, index as nat, count as nat, old(entries)@) == (c as int, old(entries)@),
            Ok(n) => cursor < n <= b@.len() + 1
                && classic_entries(b@, cursor as int, first, index as nat, count as nat, old(entries)@)
                    == classic_entries(b@, n as int, first, (index + 1) as nat, count as nat, final(entries)@),
        },
{
    reveal(classic_entries);
    let c = skip_blank_at(b, cursor);
    let e = line_end_at(b, c);
    if e <= c || e > b.len() || c < cursor || e >= usize::MAX {
        return Err(c);
    }
    let words = words_between(b, c, e);
    let found = read_classic_entry(&words, wrap_object(first, index));
    match found {
        Some(x) => entries.push(x),
        None => {},
    }
    Ok(e + 1)
}

fn read_classic_entries(b: &[u8], cursor: usize, first: u32, count: usize, entries: &mut Vec<LazyXrefEntry>) -> (r: usize)
    ensures
        classic_entries(b@, cursor as int, first, 0, count as nat, old(entries)@) == (r as int, final(entries)@),
{
    let ghost goal = classic_entries(b@, cursor as int, first, 0, count as nat, old(entries)@);
    let mut cur = cursor;
    let mut index: usize = 0;
    while index < count
        invariant
            index <= count,
            goal == classic_entries(b@, cursor as int, first, 0, count as nat, old(entries)@),
            classic_entries(b@, cur as int, first, index as nat, count as nat, entries@) == goal,
        decreases b@.len() + 1 - cur,
    {
        match classic_entry_step(b, cur, first, index, count, entries) {
            Err(c) => {
                return c;
            },
            Ok(n) => {
                cur = n;
                index = index + 1;
            },
        }
    }
    proof {
        reveal(classic_entries);
    }
    cur
}

fn push_missing_trailer(warnings: &mut Vec<LazyPdfWarning>, startxref: usize)
    ensures
        lazy_warning_views(final(warnings)@) == lazy_warning_views(old(warnings)@) + trailer_missing(seq![], startxref).1,
{
    let ghost w0 = lazy_warning_views(warnings@);
    push_lazy_warning(warnings, "lazy.trailer_missing", owned("Classic xref table was parsed without a trailer dictionary"), Some(startxref));
    assert(lazy_warning_views(warnings@) =~= w0 + trailer_missing(seq![], startxref).1);
}

#[verifier::rlimit(40)]
fn classic_line_step(
    b: &[u8],
    cursor: usize,
    entries: &mut Vec<LazyXrefEntry>,
    startxref: usize,
    warnings: &mut Vec<LazyPdfWarning>,
) -> (r: Result<usize, Option<PdfValue>>)
    requires
        startxref + b@.len() <= usize::MAX,
    ensures
        match r {
            Ok(n) => cursor < n <= b@.len() + 1 && final(warnings)@ == old(warnings)@
                && classic_lines(b@, cursor as int, old(entries)@, startxref) == classic_lines(b@, n as int, final(entries)@, startxref),
            Err(t) => classic_lines(b@, cursor as int, old(entries)@, startxref).0 == (final(entries)@, opt_value(t))
                && lazy_warning_views(final(warnings)@) == lazy_warning_views(old(warnings)@)
                    + classic_lines(b@, cursor as int, old(entries)@, startxref).1,
        },
{
    reveal(classic_lines);
    let c = skip_blank_at(b, cursor);
    if c >= b.len() || c < cursor {
        push_missing_trailer(warnings, startxref);
        return Err(None);
    }
    let trailer: [u8; 7] = [0x74, 0x72, 0x61, 0x69, 0x6c, 0x65, 0x72];
    assert(trailer@ =~= trailer_bytes());
    if starts_with_at(b, c, &trailer) {
        let ts = c + 7;
        let rest = vstd::slice::slice_subrange(b, ts, b.len());
        assert(rest@ =~= b@.skip(ts as int));
        match parse_pdf_value_with_consumed(rest) {
            Some((v, _)) => {
                return Err(Some(v));
            },
            None => {
                let ghost w0 = lazy_warning_views(warnings@);
                push_lazy_warning(warnings, "lazy.trailer_parse_failed", owned("Could not parse lazy trailer dictionary"), Some(startxref + ts));
                assert(lazy_warning_views(warnings@) =~= w0 + seq![("lazy.trailer_parse_failed"@, "Could not parse lazy trailer dictionary"@,
                    Some((startxref + ts) as usize))]);
                return Err(None);
            },
        }
    }
    let e = line_end(b, c);
    let words = words_between(b, c, e);
    let ghost wv = string_views(words@);
    if words.len() != 2 {
        push_missing_trailer(warnings, startxref);
        return Err(None);
    }
    assert(wv[0] == words@[0]@ && wv[1] == words@[1]@);
    let first = word_u32(&words[0]);
    let count = word_usize(&words[1]);
    let (first, count) = match (first, count) {
        (Some(f), Some(n)) => (f, n),
        _ => {
            push_missing_trailer(warnings, startxref);
            return Err(None);
        },
    };
    let next = if e < usize::MAX { e + 1 } else { e };
    let c2 = read_classic_entries(b, next, first, count, entries);
    if c2 <= cursor || c2 > b.len() {
        if c2 <= cursor || c2 - 1 > b.len() {
            push_missing_trailer(warnings, startxref);
            return Err(None);
        }
    }
    Ok(c2)
}

fn read_classic_section(b: &[u8], startxref: usize, warnings: &mut Vec<LazyPdfWarning>) -> (r: LazyXrefSection)
    requires
        startxref + b@.len() <= usize::MAX,
    ensures
        section_view(r) == classic_section(b@, startxref).0,
        lazy_warning_views(final(warnings)@) == lazy_warning_views(old(warnings)@) + classic_section(b@, startxref).1,
{
    let first_end = line_end_at(b, 0);
    let mut cursor = if first_end < usize::MAX { first_end + 1 } else { first_end };
    let mut entries: Vec<LazyXrefEntry> = Vec::new();
    let ghost goal = classic_section(b@, startxref);
    assert(goal == classic_lines(b@, cursor as int, entries@, startxref));
    loop
        invariant
            startxref + b@.len() <= usize::MAX,
            goal == classic_section(b@, startxref),
            classic_lines(b@, cursor as int, entries@, startxref) == goal,
            lazy_warning_views(warnings@) == lazy_warning_views(old(warnings)@),
        decreases b@.len() + 1 - cursor,
    {
        match classic_line_step(b, cursor, &mut entries, startxref, warnings) {
            Ok(n) => {
                cursor = n;
            },
            Err(t) => {
                return LazyXrefSection { entries, trailer: t };
            },
        }
    }
}

// ---------------------------------------------------------------------------
// Cross-reference streams
// ---------------------------------------------------------------------------

/// The reference an object header names, each number cut to its field's width.
pub open spec fn header_reference(w: Seq<u8>) -> Option<ObjectRef> {
    let c0 = skip_wsc(w, 0, false);
    match lazy_unsigned(w, c0) {
        None => None,
        Some((object, n1)) => {
            let c1 = skip_wsc(w, n1, false);
            match lazy_unsigned(w, c1) {
                None => None,
                Some((generation, n2)) => {
                    let c2 = skip_wsc(w, n2, false);
                    if !occurs_at(w, obj_bytes(), c2) {
                        None
                    } else {
                        Some(ObjectRef {
                            object: if object > u32::MAX { u32::MAX } else { object as u32 },
                            generation: if generation > u16::MAX { u16::MAX } else { generation as u16 },
                        })
                    }
                },
            }
        },
    }
}

fn object_reference_from_header(w: &[u8]) -> (r: Option<ObjectRef>)
    ensures
        r == header_reference(w@),
{
    let c0 = skip_whitespace_and_comments(w, 0);
    let (object, n1) = match lazy_unsigned_at(w, c0) {
        Some(x) => x,
        None => return None,
    };
    let c1 = skip_whitespace_and_comments(w, n1);
    assert(lazy_unsigned(w@, c0 as int) == Some((object as nat, n1 as int)));
    let (generation, n2) = match lazy_unsigned_at(w, c1) {
        Some(x) => x,
        None => return None,
    };
    let c2 = skip_whitespace_and_comments(w, n2);
    assert(lazy_unsigned(w@, c1 as int) == Some((generation as nat, n2 as int)));
    let obj: [u8; 3] = [0x6f, 0x62, 0x6a];
    assert(obj@ =~= obj_bytes());
    if !starts_with_at(w, c2, &obj) {
        return None;
    }
    let o: u32 = if object > 4294967295usize { 4294967295u32 } else { object as u32 };
    let g: u16 = if generation > 65535usize { 65535u16 } else { generation as u16 };
    Some(ObjectRef::new(o, g))
}

pub open spec fn outside_text(offset: usize) -> Seq<char> {
    "startxref offset "@ + decimal(offset as nat) + " is outside the file"@
}

/// The cross-reference stream whose object starts at `offset`: its entries,
/// and its dictionary as the section's trailer.
pub open spec fn xref_stream_section(file: Seq<u8>, offset: usize) -> (Result<SectionV, ErrorV>, Seq<LazyWarningV>) {
    if offset >= file.len() {
        (Err(ErrorV::LazyOpen(outside_text(offset))), seq![])
    } else {
        let w = window(file, offset as int, crate::lazy_pdf::OBJECT_READ_LIMIT as int);
        match header_reference(w) {
            None => (Err(ErrorV::LazyOpen("startxref offset "@ + decimal(offset as nat)
                + " does not point to an indirect object or classic xref table"@)), seq![]),
            Some(r) => match window_object(w, offset as int, r) {
                None => (Err(ErrorV::LazyOpen("Could not parse xref stream object at byte "@ + decimal(offset as nat))), seq![]),
                Some(o) => match o.2 {
                    None => (Err(ErrorV::LazyOpen("startxref object "@ + r.spec_text() + " is not a classic xref table or xref stream"@)), seq![]),
                    Some(st) => {
                        let ws: Seq<LazyWarningV> = if name_under(st.0, "Type"@) == Some("XRef"@) {
                            seq![]
                        } else {
                            seq![("lazy.xref_stream_or_invalid"@, "startxref points to a stream object that is not /Type /XRef"@, Some(offset))]
                        };
                        match st.1 {
                            None => (Err(ErrorV::LazyOpen("xref stream "@ + r.spec_text() + " does not have a numeric /Length"@)), ws),
                            Some(length) => if length > XREF_STREAM_DECODE_LIMIT {
                                (Err(ErrorV::LazyOpen("xref stream "@ + r.spec_text() + " length "@ + decimal(length as nat)
                                    + " exceeds lazy xref stream limit "@ + decimal(XREF_STREAM_DECODE_LIMIT as nat))), ws)
                            } else {
                                let raw = window(file, st.4.start as int, length as int);
                                let (d, steps, issues) = spec_decode_chain(raw, st.3, Some(XREF_STREAM_DECODE_LIMIT));
                                if issues.len() > 0 {
                                    (Err(ErrorV::LazyOpen("Could not decode xref stream "@ + r.spec_text() + ": "@ + issues_joined(issues))), ws)
                                } else {
                                    match xref_stream_entries(st.0, d, r) {
                                        None => (Err(ErrorV::LazyOpen("xref stream "@ + r.spec_text() + " has entry fields that overflow"@)), ws),
                                        Some(Err(e)) => (Err(e), ws),
                                        Some(Ok(es)) => (Ok((es, Some(ValueView::Dictionary(st.0)))), ws),
                                    }
                                }
                            },
                        }
                    },
                },
            },
        }
    }
}

fn decimal_msg(a: &str, n: usize, b: &str) -> (s: String)
    ensures
        s@ == a@ + decimal(n as nat) + b@,
{
    let mut s = owned(a);
    push_decimal(&mut s, n);
    push_str(&mut s, b);
    s
}

#[verifier::rlimit(60)]
fn parse_xref_stream_at(file: &[u8], offset: usize, warnings: &mut Vec<LazyPdfWarning>) -> (r: Result<LazyXrefSection, PdfDebuggerError>)
    ensures
        match xref_stream_section(file@, offset).0 {
            Ok(sec) => r matches Ok(x) && section_view(x) == sec,
            Err(e) => r matches Err(x) && x@ == e,
        },
        lazy_warning_views(final(warnings)@) == lazy_warning_views(old(warnings)@) + xref_stream_section(file@, offset).1,
{
    let ghost w0 = lazy_warning_views(warnings@);
    if offset >= file.len() {
        assert(w0 =~= w0 + Seq::<LazyWarningV>::empty());
        return Err(lazy_open_error(decimal_msg("startxref offset ", offset, " is outside the file")));
    }
    let w = read_at(file, offset, crate::lazy_pdf::OBJECT_READ_LIMIT);
    let n = file.len();
    assert(offset + w@.len() <= n);
    let reference = match object_reference_from_header(w) {
        Some(r) => r,
        None => {
            assert(w0 =~= w0 + Seq::<LazyWarningV>::empty());
            return Err(lazy_open_error(decimal_msg("startxref offset ", offset, " does not point to an indirect object or classic xref table")));
        },
    };
    let object = match parse_indirect_object_window(w, offset, reference) {
        Some(o) => o,
        None => {
            assert(w0 =~= w0 + Seq::<LazyWarningV>::empty());
            let mut m = owned("Could not parse xref stream object at byte ");
            push_decimal(&mut m, offset);
            return Err(lazy_open_error(m));
        },
    };
    let stream = match object.stream {
        Some(s) => s,
        None => {
            assert(w0 =~= w0 + Seq::<LazyWarningV>::empty());
            let mut m = owned("startxref object ");
            let t = reference.to_text();
            push_str(&mut m, t.as_str());
            push_str(&mut m, " is not a classic xref table or xref stream");
            return Err(lazy_open_error(m));
        },
    };
    if !name_is(&stream.dictionary, "Type", "XRef") {
        push_lazy_warning(warnings, "lazy.xref_stream_or_invalid", owned("startxref points to a stream object that is not /Type /XRef"), Some(offset));
    } else {
        assert(w0 =~= w0 + Seq::<LazyWarningV>::empty());
    }
    let mut m0 = owned("xref stream ");
    let rt = reference.to_text();
    push_str(&mut m0, rt.as_str());
    let length = match stream.declared_length {
        Some(l) => l,
        None => {
            push_str(&mut m0, " does not have a numeric /Length");
            return Err(lazy_open_error(m0));
        },
    };
    if length > XREF_STREAM_DECODE_LIMIT {
        push_str(&mut m0, " length ");
        push_decimal(&mut m0, length);
        push_str(&mut m0, " exceeds lazy xref stream limit ");
        push_decimal(&mut m0, XREF_STREAM_DECODE_LIMIT);
        return Err(lazy_open_error(m0));
    }
    let raw = read_at(file, stream.raw_range.start, length);
    let loaded = PdfStream {
        dictionary: stream.dictionary.deep_copy(),
        declared_length: stream.declared_length,
        actual_length: length,
        filters: crate::stream_decode::copy_strings(stream.filters.as_slice()),
        raw_range: stream.raw_range,
        raw_bytes: copy_range(raw, 0, raw.len()),
    };
    assert(loaded.raw_bytes@ =~= raw@);
    let decode = decode_stream_with_limit(&loaded, Some(XREF_STREAM_DECODE_LIMIT));
    let ghost sd = spec_decode_chain(raw@, stream@.3, Some(XREF_STREAM_DECODE_LIMIT));
    assert(issues_view(decode.issues@) =~= sd.2);
    if decode.has_issues() {
        let mut m = owned("Could not decode xref stream ");
        push_str(&mut m, rt.as_str());
        push_str(&mut m, ": ");
        let joined = join_issue_lines(decode.issues.as_slice());
        push_str(&mut m, joined.as_str());
        return Err(lazy_open_error(m));
    }
    match parse_decoded_xref_stream_entries_checked(&stream.dictionary, decode.decoded.as_slice(), reference) {
        None => {
            push_str(&mut m0, " has entry fields that overflow");
            Err(lazy_open_error(m0))
        },
        Some(Err(e)) => Err(e),
        Some(Ok(entries)) => {
            let d = stream.dictionary;
            Ok(LazyXrefSection { entries, trailer: Some(PdfValue::Dictionary(d)) })
        },
    }
}

// ---------------------------------------------------------------------------
// The chain of sections
// ---------------------------------------------------------------------------

/// The section at `offset`: a classic table where the bytes there start
/// with `xref`, else a cross-reference stream.
pub open spec fn xref_section_at(file: Seq<u8>, offset: usize) -> (Result<SectionV, ErrorV>, Seq<LazyWarningV>) {
    if offset >= file.len() {
        (Err(ErrorV::LazyOpen(outside_text(offset))), seq![])
    } else {
        let len = if XREF_READ_LIMIT < file.len() - offset { XREF_READ_LIMIT as int } else { file.len() - offset };
        let bytes = window(file, offset as int, len);
        if occurs_at(bytes, xref_bytes(), 0) {
            let (sec, ws) = classic_section(bytes, offset);
            (Ok(sec), ws)
        } else {
            xref_stream_section(file, offset)
        }
    }
}

fn parse_single_xref_section(file: &[u8], offset: usize, warnings: &mut Vec<LazyPdfWarning>) -> (r: Result<LazyXrefSection, PdfDebuggerError>)
    ensures
        match xref_section_at(file@, offset).0 {
            Ok(sec) => r matches Ok(x) && section_view(x) == sec,
            Err(e) => r matches Err(x) && x@ == e,
        },
        lazy_warning_views(final(warnings)@) == lazy_warning_views(old(warnings)@) + xref_section_at(file@, offset).1,
{
    if offset >= file.len() {
        assert(lazy_warning_views(warnings@) =~= lazy_warning_views(warnings@) + Seq::<LazyWarningV>::empty());
        return Err(lazy_open_error(decimal_msg("startxref offset ", offset, " is outside the file")));
    }
    let rest = file.len() - offset;
    let len = if XREF_READ_LIMIT < rest { XREF_READ_LIMIT } else { rest };
    let bytes = read_at(file, offset, len);
    let xref: [u8; 4] = [0x78, 0x72, 0x65, 0x66];
    assert(xref@ =~= xref_bytes());
    if starts_with_at(bytes, 0, &xref) {
        Ok(read_classic_section(bytes, offset, warnings))
    } else {
        parse_xref_stream_at(file, offset, warnings)
    }
}


/// The non-negative integer a trailer holds under `key`.
pub open spec fn trailer_usize(t: Option<ValueView>, key: Seq<char>) -> Option<usize> {
    match t {
        Some(ValueView::Dictionary(d)) => crate::lazy_pdf::usize_under(d, key),
        _ => None,
    }
}

fn trailer_usize_of(t: &Option<PdfValue>, key: &str) -> (r: Option<usize>)
    ensures
        r == trailer_usize(opt_value(*t), key@),
{
    match t {
        Some(v) => match v.as_dictionary() {
            Some(d) => match d.get(key) {
                Some(x) => x.as_usize(),
                None => None,
            },
            None => None,
        },
        None => None,
    }
}

/// A section with the entries of the cross-reference stream its trailer's
/// `/XRefStm` points to appended; a stream that fails becomes a warning.
pub open spec fn with_hybrid(file: Seq<u8>, sec: SectionV) -> (SectionV, Seq<LazyWarningV>) {
    match trailer_usize(sec.1, "XRefStm"@) {
        None => (sec, seq![]),
        Some(h) => {
            let (hr, hw) = xref_stream_section(file, h);
            match hr {
                Ok(hs) => ((sec.0 + hs.0, sec.1), hw),
                Err(e) => (sec, hw.push(("lazy.hybrid_xref_stream_failed"@, "Could not parse hybrid /XRefStm at byte "@
                    + decimal(h as nat) + ": "@ + error_message(e), Some(h)))),
            }
        },
    }
}

fn add_hybrid(file: &[u8], section: LazyXrefSection, warnings: &mut Vec<LazyPdfWarning>) -> (r: LazyXrefSection)
    ensures
        section_view(r) == with_hybrid(file@, section_view(section)).0,
        lazy_warning_views(final(warnings)@) == lazy_warning_views(old(warnings)@) + with_hybrid(file@, section_view(section)).1,
{
    let mut section = section;
    let ghost sv = section_view(section);
    match trailer_usize_of(&section.trailer, "XRefStm") {
        None => {
            assert(lazy_warning_views(warnings@) =~= lazy_warning_views(warnings@) + Seq::<LazyWarningV>::empty());
            section
        },
        Some(h) => {
            let ghost w0 = lazy_warning_views(warnings@);
            match parse_xref_stream_at(file, h, warnings) {
                Ok(hybrid) => {
                    let mut j: usize = 0;
                    let ghost base = section.entries@;
                    while j < hybrid.entries.len()
                        invariant
                            j <= hybrid.entries@.len(),
                            section.entries@ == base + hybrid.entries@.take(j as int),
                            opt_value(section.trailer) == sv.1,
                        decreases hybrid.entries@.len() - j,
                    {
                        section.entries.push(hybrid.entries[j]);
                        assert(hybrid.entries@.take(j + 1) =~= hybrid.entries@.take(j as int).push(hybrid.entries@[j as int]));
                        j = j + 1;
                    }
                    assert(hybrid.entries@.take(hybrid.entries@.len() as int) =~= hybrid.entries@);
                    section
                },
                Err(e) => {
                    let mut m = decimal_msg("Could not parse hybrid /XRefStm at byte ", h, ": ");
                    let em = e.message();
                    push_str(&mut m, em.as_str());
                    push_lazy_warning(warnings, "lazy.hybrid_xref_stream_failed", m, Some(h));
                    section
                },
            }
        },
    }
}

pub(crate) open spec fn sections_view(s: Seq<LazyXrefSection>) -> Seq<SectionV> {
    s.map_values(|x: LazyXrefSection| section_view(x))
}

/// The sections of the chain that starts at `cursor`, following `/Prev`,
/// after `sections` read at the offsets `visited`. The chain stops at a
/// repeated offset and after the most sections allowed, with a warning.
pub open spec fn xref_chain(file: Seq<u8>, cursor: Option<usize>, sections: Seq<SectionV>, visited: Seq<usize>)
    -> (Result<Seq<SectionV>, ErrorV>, Seq<LazyWarningV>)
    decreases XREF_CHAIN_MAX_SECTIONS - sections.len(),
{
    match cursor {
        None => (Ok(sections), seq![]),
        Some(off) => if sections.len() >= XREF_CHAIN_MAX_SECTIONS {
            (Ok(sections), seq![("lazy.xref_chain.limit"@, "Stopped lazy xref /Prev traversal after "@
                + decimal(XREF_CHAIN_MAX_SECTIONS as nat) + " section(s)"@, Some(off))])
        } else if visited.contains(off) {
            (Ok(sections), seq![("lazy.xref_chain.cycle"@, "Detected a repeated xref /Prev offset at byte "@ + decimal(off as nat), Some(off))])
        } else {
            let (r, w1) = xref_section_at(file, off);
            match r {
                Err(e) => (Err(e), w1),
                Ok(sec) => {
                    let prev = trailer_usize(sec.1, "Prev"@);
                    let (sec2, w2) = with_hybrid(file, sec);
                    let (rest, w3) = xref_chain(file, prev, sections.push(sec2), visited.push(off));
                    (rest, w1 + w2 + w3)
                },
            }
        },
    }
}

fn seen_offset(v: &Vec<usize>, x: usize) -> (r: bool)
    ensures
        r == v@.contains(x),
{
    let mut i: usize = 0;
    while i < v.len()
        invariant
            i <= v@.len(),
            forall|j: int| 0 <= j < i ==> v@[j] != x,
        decreases v@.len() - i,
    {
        if v[i] == x {
            return true;
        }
        i = i + 1;
    }
    false
}

#[verifier::rlimit(100)]
fn parse_xref_chain(file: &[u8], startxref: usize, warnings: &mut Vec<LazyPdfWarning>) -> (r: Result<Vec<LazyXrefSection>, PdfDebuggerError>)
    ensures
        match xref_chain(file@, Some(startxref), seq![], seq![]).0 {
            Ok(ss) => r matches Ok(v) && sections_view(v@) == ss,
            Err(e) => r matches Err(x) && x@ == e,
        },
        lazy_warning_views(final(warnings)@) == lazy_warning_views(old(warnings)@) + xref_chain(file@, Some(startxref), seq![], seq![]).1,
{
    let ghost goal = xref_chain(file@, Some(startxref), seq![], seq![]);
    let ghost w0 = lazy_warning_views(warnings@);
    let mut sections: Vec<LazyXrefSection> = Vec::new();
    let mut visited: Vec<usize> = Vec::new();
    let mut cursor: Option<usize> = Some(startxref);
    assert(sections_view(sections@) =~= Seq::<SectionV>::empty());
    assert(visited@ =~= Seq::<usize>::empty());
    assert(w0 =~= w0 + Seq::<LazyWarningV>::empty());
    loop
        invariant
            sections@.len() <= XREF_CHAIN_MAX_SECTIONS,
            goal == xref_chain(file@, Some(startxref), seq![], seq![]),
            w0 == lazy_warning_views(old(warnings)@),
            xref_chain(file@, cursor, sections_view(sections@), visited@).0 == goal.0,
            lazy_warning_views(warnings@) + xref_chain(file@, cursor, sections_view(sections@), visited@).1 == w0 + goal.1,
        decreases XREF_CHAIN_MAX_SECTIONS - sections@.len(),
    {
        let ghost wb = lazy_warning_views(warnings@);
        let off = match cursor {
            None => {
                assert(wb + Seq::<LazyWarningV>::empty() =~= wb);
                return Ok(sections);
            },
            Some(o) => o,
        };
        if sections.len() >= XREF_CHAIN_MAX_SECTIONS {
            let m = decimal_msg("Stopped lazy xref /Prev traversal after ", XREF_CHAIN_MAX_SECTIONS, " section(s)");
            push_lazy_warning(warnings, "lazy.xref_chain.limit", m, Some(off));
            return Ok(sections);
        }
        if seen_offset(&visited, off) {
            let mut m = owned("Detected a repeated xref /Prev offset at byte ");
            push_decimal(&mut m, off);
            push_lazy_warning(warnings, "lazy.xref_chain.cycle", m, Some(off));
            return Ok(sections);
        }
        let section = match parse_single_xref_section(file, off, warnings) {
            Ok(s) => s,
            Err(e) => {
                return Err(e);
            },
        };
        let ghost w1 = lazy_warning_views(warnings@);
        let previous = trailer_usize_of(&section.trailer, "Prev");
        let section = add_hybrid(file, section, warnings);
        let ghost w2 = lazy_warning_views(warnings@);
        let ghost before = sections_view(sections@);
        sections.push(section);
        assert(sections_view(sections@) =~= before.push(section_view(sections@.last())));
        visited.push(off);
        cursor = previous;
        proof {
            let (r1, ws1) = xref_section_at(file@, off);
            let sec = r1->Ok_0;
            let (sec2, ws2) = with_hybrid(file@, sec);
            let (rest, ws3) = xref_chain(file@, previous, sections_view(sections@), visited@);
            assert(w1 == wb + ws1);
            assert(w2 == w1 + ws2);
            assert(lazy_warning_views(warnings@) + ws3 =~= wb + (ws1 + ws2 + ws3));
        }
    }
}

// ---------------------------------------------------------------------------
// Merging the sections, newest last
// ---------------------------------------------------------------------------

/// Entries stored one after another, each replacing an entry with its reference.
pub open spec fn put_all(acc: Seq<LazyXrefEntry>, es: Seq<LazyXrefEntry>) -> Seq<LazyXrefEntry>
    decreases es.len(),
{
    if es.len() == 0 { acc } else { lazy_entries_put(put_all(acc, es.drop_last()), es.last()) }
}

/// The entries of the sections merged from the oldest (last) to the newest
/// (first), so that the newest section wins.
pub open spec fn merge_sections(sections: Seq<SectionV>, acc: Seq<LazyXrefEntry>) -> Seq<LazyXrefEntry>
    decreases sections.len(),
{
    if sections.len() == 0 { acc } else { merge_sections(sections.drop_last(), put_all(acc, sections.last().0)) }
}

/// Dictionary entries stored one after another.
pub open spec fn insert_all(acc: Seq<(Seq<char>, ValueView)>, d: Seq<(Seq<char>, ValueView)>) -> Seq<(Seq<char>, ValueView)>
    decreases d.len(),
{
    if d.len() == 0 { acc } else { dict_insert(insert_all(acc, d.drop_last()), d.last().0, d.last().1) }
}

/// The trailer dictionaries merged from the oldest to the newest; none when
/// no section has one.
pub open spec fn merge_trailers(sections: Seq<SectionV>, acc: Seq<(Seq<char>, ValueView)>, saw: bool) -> Option<ValueView>
    decreases sections.len(),
{
    if sections.len() == 0 {
        if saw { Some(ValueView::Dictionary(acc)) } else { None }
    } else {
        match sections.last().1 {
            Some(ValueView::Dictionary(d)) => merge_trailers(sections.drop_last(), insert_all(acc, d), true),
            _ => merge_trailers(sections.drop_last(), acc, saw),
        }
    }
}

fn merge_entries(sections: &Vec<LazyXrefSection>) -> (r: Vec<LazyXrefEntry>)
    ensures
        r@ == merge_sections(sections_view(sections@), seq![]),
        lazy_entries_sorted(r@),
{
    let ghost sv = sections_view(sections@);
    let mut merged: Vec<LazyXrefEntry> = Vec::new();
    let mut i = sections.len();
    assert(sv.take(i as int) =~= sv);
    while i > 0
        invariant
            i <= sections@.len(),
            sv == sections_view(sections@),
            merge_sections(sv, seq![]) == merge_sections(sv.take(i as int), merged@),
            lazy_entries_sorted(merged@),
        decreases i,
    {
        i = i - 1;
        let es = &sections[i].entries;
        assert(sv[i as int] == section_view(sections@[i as int]));
        assert(sv.take(i + 1).drop_last() =~= sv.take(i as int));
        let ghost start = merged@;
        let mut j: usize = 0;
        assert(es@.take(0) =~= Seq::<LazyXrefEntry>::empty());
        while j < es.len()
            invariant
                j <= es@.len(),
                merged@ == put_all(start, es@.take(j as int)),
                lazy_entries_sorted(merged@),
            decreases es@.len() - j,
        {
            insert_lazy_entry(&mut merged, es[j], true);
            assert(es@.take(j + 1).drop_last() =~= es@.take(j as int));
            j = j + 1;
        }
        assert(es@.take(es@.len() as int) =~= es@);
    }
    assert(sv.take(0) =~= Seq::<SectionV>::empty());
    merged
}

fn merge_trailer(sections: &Vec<LazyXrefSection>) -> (r: Option<PdfValue>)
    ensures
        opt_value(r) == merge_trailers(sections_view(sections@), seq![], false),
{
    let ghost sv = sections_view(sections@);
    let mut merged = PdfDictionary::new();
    let mut saw = false;
    let mut i = sections.len();
    assert(sv.take(i as int) =~= sv);
    while i > 0
        invariant
            i <= sections@.len(),
            sv == sections_view(sections@),
            merge_trailers(sv, seq![], false) == merge_trailers(sv.take(i as int), merged@, saw),
        decreases i,
    {
        i = i - 1;
        assert(sv[i as int] == section_view(sections@[i as int]));
        assert(sv.take(i + 1).drop_last() =~= sv.take(i as int));
        match &sections[i].trailer {
            Some(t) => match t.as_dictionary() {
                Some(d) => {
                    saw = true;
                    let ghost start = merged@;
                    let mut k: usize = 0;
                    assert(d@.take(0) =~= Seq::<(Seq<char>, ValueView)>::empty());
                    while k < d.len()
                        invariant
                            k <= d@.len(),
                            merged@ == insert_all(start, d@.take(k as int)),
                        decreases d@.len() - k,
                    {
                        let (key, value) = d.entry(k);
                        merged.insert(owned(key.as_str()), value.deep_copy());
                        assert(d@.take(k + 1).drop_last() =~= d@.take(k as int));
                        k = k + 1;
                    }
                    assert(d@.take(d@.len() as int) =~= d@);
                },
                None => {},
            },
            None => {},
        }
    }
    assert(sv.take(0) =~= Seq::<SectionV>::empty());
    if saw { Some(PdfValue::Dictionary(merged)) } else { None }
}

/// The cross-reference index and trailer of the chain that starts at
/// `startxref`, merged newest first.
pub open spec fn lazy_xref_at(file: Seq<u8>, startxref: usize) -> (Result<(Seq<LazyXrefEntry>, Option<ValueView>), ErrorV>, Seq<LazyWarningV>) {
    let (r, ws) = xref_chain(file, Some(startxref), seq![], seq![]);
    match r {
        Err(e) => (Err(e), ws),
        Ok(ss) => (Ok((merge_sections(ss, seq![]), merge_trailers(ss, seq![], false))), ws),
    }
}

fn parse_xref_at(file: &[u8], startxref: usize, warnings: &mut Vec<LazyPdfWarning>) -> (r: Result<(Vec<LazyXrefEntry>, Option<PdfValue>), PdfDebuggerError>)
    ensures
        match lazy_xref_at(file@, startxref).0 {
            Ok((es, t)) => r matches Ok((x, y)) && x@ == es && opt_value(y) == t && lazy_entries_sorted(es),
            Err(e) => r matches Err(x) && x@ == e,
        },
        lazy_warning_views(final(warnings)@) == lazy_warning_views(old(warnings)@) + lazy_xref_at(file@, startxref).1,
{
    match parse_xref_chain(file, startxref, warnings) {
        Err(e) => Err(e),
        Ok(sections) => {
            let trailer = merge_trailer(&sections);
            let entries = merge_entries(&sections);
            Ok((entries, trailer))
        },
    }
}


// ---------------------------------------------------------------------------
// Opening
// ---------------------------------------------------------------------------

/// How many bytes of the file's start are searched for the header.
pub const HEADER_READ_LIMIT: usize = 1024;
/// How many bytes of the file's end are searched for `startxref`.
pub const TAIL_READ_LIMIT: usize = 1048576;

pub open spec fn pdf_marker() -> Seq<u8> {
    seq![0x25u8, 0x50u8, 0x44u8, 0x46u8, 0x2du8]
}

pub open spec fn linearized_marker() -> Seq<u8> {
    seq![0x2fu8, 0x4cu8, 0x69u8, 0x6eu8, 0x65u8, 0x61u8, 0x72u8, 0x69u8, 0x7au8, 0x65u8, 0x64u8]
}

pub open spec fn eof_marker() -> Seq<u8> {
    seq![0x25u8, 0x25u8, 0x45u8, 0x4fu8, 0x46u8]
}

/// The first bytes of the file, where the header is looked for.
pub open spec fn header_of(file: Seq<u8>) -> Seq<u8> {
    window(file, 0, if HEADER_READ_LIMIT < file.len() { HEADER_READ_LIMIT as int } else { file.len() as int })
}

pub open spec fn tail_len(file: Seq<u8>) -> int {
    if TAIL_READ_LIMIT < file.len() { TAIL_READ_LIMIT as int } else { file.len() as int }
}

/// The last bytes of the file, where `startxref` is looked for.
pub open spec fn tail_of(file: Seq<u8>) -> Seq<u8> {
    window(file, file.len() - tail_len(file), tail_len(file))
}

/// The version after `%PDF-` up to the line's end, trimmed; a warning where
/// there is no header.
pub open spec fn lazy_version(header: Seq<u8>) -> (Option<Seq<char>>, Seq<LazyWarningV>) {
    match find_first(header, pdf_marker(), 0) {
        Some(o) => {
            let start = o + 5;
            let end = line_end_from(header, start);
            (Some(crate::pdf_parser::trim_ws(utf8_lossy(header.subrange(start, end)))), seq![])
        },
        None => (None, seq![("lazy.header_missing"@, "PDF header was not found in the first 1024 bytes"@, Some(0usize))]),
    }
}

fn read_version(header: &[u8], warnings: &mut Vec<LazyPdfWarning>) -> (r: Option<String>)
    ensures
        match lazy_version(header@).0 {
            Some(v) => r matches Some(s) && s@ == v,
            None => r is None,
        },
        lazy_warning_views(final(warnings)@) == lazy_warning_views(old(warnings)@) + lazy_version(header@).1,
{
    let marker: [u8; 5] = [0x25, 0x50, 0x44, 0x46, 0x2d];
    assert(marker@ =~= pdf_marker());
    let hl = header.len();
    match find_first_from(header, 0, &marker) {
        Some(o) => {
            assert(o + 5 <= hl);
            let start = o + 5;
            let end = line_end(header, start);
            let text = lossy_string(vstd::slice::slice_subrange(header, start, end));
            assert(lazy_warning_views(warnings@) =~= lazy_warning_views(warnings@) + Seq::<LazyWarningV>::empty());
            Some(trim_text(text.as_str()))
        },
        None => {
            let ghost w0 = lazy_warning_views(warnings@);
            push_lazy_warning(warnings, "lazy.header_missing", owned("PDF header was not found in the first 1024 bytes"), Some(0));
            assert(lazy_warning_views(warnings@) =~= w0 + lazy_version(header@).1);
            None
        },
    }
}

/// How many times `n` occurs from `cursor` on, the occurrences not overlapping.
pub open spec fn count_from(h: Seq<u8>, n: Seq<u8>, cursor: int) -> nat
    decreases h.len() + 1 - cursor,
{
    if cursor < 0 || n.len() == 0 {
        0
    } else {
        match find_first(h, n, cursor) {
            None => 0,
            Some(i) => if i + n.len() <= cursor || i + n.len() > h.len() { 0 } else { 1 + count_from(h, n, i + n.len()) },
        }
    }
}

fn count_occurrences(h: &[u8], n: &[u8]) -> (r: usize)
    requires
        n@.len() > 0,
    ensures
        r == count_from(h@, n@, 0),
{
    let mut count: usize = 0;
    let mut cursor: usize = 0;
    while cursor <= h.len()
        invariant
            n@.len() > 0,
            count + count_from(h@, n@, cursor as int) == count_from(h@, n@, 0),
            count <= cursor,
        decreases h@.len() + 1 - cursor,
    {
        match find_first_from(h, cursor, n) {
            None => {
                return count;
            },
            Some(i) => {
                if i + n.len() <= cursor || i + n.len() > h.len() {
                    return count;
                }
                count = count + 1;
                cursor = i + n.len();
            },
        }
    }
    count
}

/// The offset after the last `startxref` in the tail, which starts at
/// `tail_start` in the file; a warning where it is zero.
pub open spec fn lazy_startxref(tail: Seq<u8>, tail_start: int) -> (Option<usize>, Seq<LazyWarningV>) {
    match crate::pdf_parser::find_last(tail, crate::pdf_parser::startxref_bytes(), tail.len() as int) {
        None => (None, seq![]),
        Some(o) => {
            let ns = skip_ws_from(tail, o + 9);
            match lazy_unsigned(tail, ns) {
                None => (None, seq![]),
                Some((v, _)) => (Some(v as usize), if v == 0 {
                    seq![("lazy.startxref_zero"@, "startxref resolved to offset 0"@, Some((tail_start + o) as usize))]
                } else {
                    seq![]
                }),
            }
        },
    }
}

fn read_startxref(tail: &[u8], tail_start: usize, warnings: &mut Vec<LazyPdfWarning>) -> (r: Option<usize>)
    requires
        tail_start + tail@.len() <= usize::MAX,
    ensures
        r == lazy_startxref(tail@, tail_start as int).0,
        lazy_warning_views(final(warnings)@) == lazy_warning_views(old(warnings)@) + lazy_startxref(tail@, tail_start as int).1,
{
    let ghost w0 = lazy_warning_views(warnings@);
    let needle: [u8; 9] = [0x73, 0x74, 0x61, 0x72, 0x74, 0x78, 0x72, 0x65, 0x66];
    assert(needle@ =~= crate::pdf_parser::startxref_bytes());
    let o = match crate::pdf_parser::rfind_subslice(tail, &needle) {
        Some(o) => o,
        None => {
            assert(w0 =~= w0 + Seq::<LazyWarningV>::empty());
            return None;
        },
    };
    let ns = skip_ascii_whitespace(tail, o + 9);
    match lazy_unsigned_at(tail, ns) {
        None => {
            assert(w0 =~= w0 + Seq::<LazyWarningV>::empty());
            None
        },
        Some((v, _)) => {
            if v == 0 {
                push_lazy_warning(warnings, "lazy.startxref_zero", owned("startxref resolved to offset 0"), Some(tail_start + o));
            } else {
                assert(w0 =~= w0 + Seq::<LazyWarningV>::empty());
            }
            Some(v)
        },
    }
}

/// The dictionary of an object read lazily.
pub open spec fn lazy_object_dictionary(o: crate::value_views::ObjectV) -> Option<Seq<(Seq<char>, ValueView)>> {
    crate::pdf_parser::object_dictionary(o)
}

/// The `/Count` of the page tree root that the catalog `root` points to, as
/// a `u32`, and the warnings that reading those objects adds.
pub open spec fn lazy_page_count(file: Seq<u8>, entries: Seq<LazyXrefEntry>, root: ObjectRef) -> (Option<u32>, Seq<LazyWarningV>) {
    let (r1, w1) = crate::lazy_pdf::read_object_spec(file, entries, root);
    match r1 {
        Err(_) => (None, w1),
        Ok(o) => match lazy_object_dictionary(o) {
            None => (None, w1),
            Some(d) => match dict_get(d, "Pages"@) {
                Some(pv) => match crate::pdf_model::view_reference(pv) {
                    Some(p) => {
                        let (r2, w2) = crate::lazy_pdf::read_object_spec(file, entries, p);
                        match r2 {
                            Err(_) => (None, w1 + w2),
                            Ok(po) => match lazy_object_dictionary(po) {
                                None => (None, w1 + w2),
                                Some(pd) => match crate::lazy_pdf::usize_under(pd, "Count"@) {
                                    Some(c) => if c <= u32::MAX { (Some(c as u32), w1 + w2) } else { (None, w1 + w2) },
                                    None => (None, w1 + w2),
                                },
                            },
                        }
                    },
                    None => (None, w1),
                },
                None => (None, w1),
            },
        },
    }
}

fn detect_page_count_lazy(file: &[u8], entries: &[LazyXrefEntry], root: ObjectRef, warnings: &mut Vec<LazyPdfWarning>) -> (r: Option<u32>)
    ensures
        r == lazy_page_count(file@, entries@, root).0,
        lazy_warning_views(final(warnings)@) == lazy_warning_views(old(warnings)@) + lazy_page_count(file@, entries@, root).1,
{
    let ghost w0 = lazy_warning_views(warnings@);
    let root_object = match crate::lazy_pdf::read_lazy_object_from_file(file, entries, root, warnings) {
        Ok(o) => o,
        Err(_) => return None,
    };
    let ghost w1 = lazy_warning_views(warnings@);
    let pages = match root_object.dictionary() {
        Some(d) => match d.get("Pages") {
            Some(v) => v.as_reference(),
            None => None,
        },
        None => None,
    };
    let pages = match pages {
        Some(p) => p,
        None => return None,
    };
    let pages_object = match crate::lazy_pdf::read_lazy_object_from_file(file, entries, pages, warnings) {
        Ok(o) => o,
        Err(_) => return None,
    };
    let count = match pages_object.dictionary() {
        Some(d) => match d.get("Count") {
            Some(v) => v.as_usize(),
            None => None,
        },
        None => None,
    };
    match count {
        Some(c) => if c <= 4294967295usize { Some(c as u32) } else { None },
        None => None,
    }
}

/// Whether any entry lies in an object stream.
pub open spec fn any_compressed(es: Seq<LazyXrefEntry>) -> bool {
    exists|i: int| 0 <= i < es.len() && (#[trigger] es[i]).compressed is Some
}

/// The number of in-use entries.
pub open spec fn lazy_in_use_count(es: Seq<LazyXrefEntry>) -> nat
    decreases es.len(),
{
    if es.len() == 0 { 0 } else { lazy_in_use_count(es.drop_last()) + if es.last().in_use { 1nat } else { 0nat } }
}

fn count_entries(es: &Vec<LazyXrefEntry>) -> (r: (usize, bool))
    ensures
        r.0 == lazy_in_use_count(es@),
        r.1 == any_compressed(es@),
{
    let mut n: usize = 0;
    let mut compressed = false;
    let mut i: usize = 0;
    assert(es@.take(0) =~= Seq::<LazyXrefEntry>::empty());
    while i < es.len()
        invariant
            i <= es@.len(),
            n == lazy_in_use_count(es@.take(i as int)),
            n <= i,
            compressed == exists|j: int| 0 <= j < i && (#[trigger] es@[j]).compressed is Some,
        decreases es@.len() - i,
    {
        assert(es@.take(i + 1).drop_last() =~= es@.take(i as int));
        if es[i].in_use {
            n = n + 1;
        }
        if es[i].compressed.is_some() {
            compressed = true;
        }
        i = i + 1;
    }
    assert(es@.take(es@.len() as int) =~= es@);
    (n, compressed)
}

/// Whether the trailer marks a cross-reference stream: `/Type /XRef`, or a
/// hybrid `/XRefStm`.
pub open spec fn trailer_marks_xref_stream(t: Option<ValueView>) -> bool {
    match crate::pdf_parser::trailer_dict(t) {
        Some(d) => name_under(d, "Type"@) == Some("XRef"@) || dict_get(d, "XRefStm"@) is Some,
        None => false,
    }
}

/// What opening reads before the page count: the version, the `startxref`
/// offset, the merged entries and trailer, and the warnings so far; or why
/// the cross-reference chain could not be read.
pub open spec fn lazy_open_prefix(file: Seq<u8>)
    -> Result<(Option<Seq<char>>, Option<usize>, Seq<LazyXrefEntry>, Option<ValueView>, Seq<LazyWarningV>), ErrorV> {
    let (version, w1) = lazy_version(header_of(file));
    let (sx, w2) = lazy_startxref(tail_of(file), file.len() - tail_len(file));
    match sx {
        None => Ok((version, sx, seq![], None, w1 + w2)),
        Some(o) => {
            let (r, w3) = lazy_xref_at(file, o);
            match r {
                Err(e) => Err(e),
                Ok((es, t)) => Ok((version, sx, es, t, w1 + w2 + w3)),
            }
        },
    }
}

/// The document that opening `file` under `file_name` gives.
pub open spec fn lazy_document_matches(doc: LazyPdfDocument, file: Seq<u8>, file_name: Seq<char>) -> bool {
    match lazy_open_prefix(file) {
        Err(_) => false,
        Ok((version, sx, es, t, ws)) => {
            let root = crate::pdf_parser::trailer_ref(t, "Root"@);
            let (pc, pw) = match root {
                Some(r) => lazy_page_count(file, es, r),
                None => (None, seq![]),
            };
            let m = doc.metadata;
            &&& doc.xref.startxref == sx
            &&& doc.xref.entries@ == es
            &&& lazy_entries_sorted(es)
            &&& crate::pdf_parser::opt_view(doc.trailer) == t
            &&& lazy_warning_views(doc.warnings@) == ws + pw
            &&& m.file_name@ == file_name
            &&& m.file_size == file.len()
            &&& match version {
                Some(v) => m.pdf_version matches Some(x) && x@ == v,
                None => m.pdf_version is None,
            }
            &&& m.page_count == pc
            &&& m.encrypted == (crate::pdf_parser::trailer_dict(t) matches Some(d) && dict_get(d, "Encrypt"@) is Some)
            &&& m.linearized == (find_first(header_of(file), linearized_marker(), 0) is Some)
            &&& m.incremental_update_count == (if count_from(tail_of(file), eof_marker(), 0) > 0 { count_from(tail_of(file), eof_marker(), 0) - 1 } else { 0 })
            &&& m.root == root
            &&& m.info == crate::pdf_parser::trailer_ref(t, "Info"@)
            &&& string_views(m.trailer_keys@) == crate::pdf_parser::trailer_keys(t)
            &&& m.info_summary@.len() == 0
            &&& m.object_count == lazy_in_use_count(es)
            &&& m.stream_count == 0
            &&& m.xref_entry_count == es.len()
            &&& m.has_xref_stream == trailer_marks_xref_stream(t)
            &&& m.has_object_stream == any_compressed(es)
            &&& m.parse_warning_count == doc.warnings@.len()
        },
    }
}

/// Opens a document lazily from its bytes: the header, the tail with
/// `startxref`, the cross-reference chain and the page count, without
/// parsing the objects. Fails only where the cross-reference chain cannot
/// be read.
#[verifier::rlimit(60)]
pub fn open_lazy_pdf(file: &[u8], file_name: &str) -> (r: Result<LazyPdfDocument, PdfDebuggerError>)
    ensures
        match lazy_open_prefix(file@) {
            Err(e) => r matches Err(x) && x@ == e,
            Ok(_) => r matches Ok(doc) && lazy_document_matches(doc, file@, file_name@),
        },
{
    let n = file.len();
    let mut warnings: Vec<LazyPdfWarning> = Vec::new();
    let header_len = if HEADER_READ_LIMIT < n { HEADER_READ_LIMIT } else { n };
    let header = read_at(file, 0, header_len);
    let pdf_version = read_version(header, &mut warnings);
    let ghost w1 = lazy_warning_views(warnings@);
    let lin: [u8; 11] = [0x2f, 0x4c, 0x69, 0x6e, 0x65, 0x61, 0x72, 0x69, 0x7a, 0x65, 0x64];
    assert(lin@ =~= linearized_marker());
    let linearized = find_first_from(header, 0, &lin).is_some();
    let tl = if TAIL_READ_LIMIT < n { TAIL_READ_LIMIT } else { n };
    let tail_start = n - tl;
    let tail = read_at(file, tail_start, tl);
    assert(tail@ == tail_of(file@));
    let eof: [u8; 5] = [0x25, 0x25, 0x45, 0x4f, 0x46];
    assert(eof@ =~= eof_marker());
    let eofs = count_occurrences(tail, &eof);
    let incremental_update_count = if eofs > 0 { eofs - 1 } else { 0 };
    let startxref = read_startxref(tail, tail_start, &mut warnings);
    let ghost w2 = lazy_warning_views(warnings@);
    let (entries, trailer) = match startxref {
        Some(o) => match parse_xref_at(file, o, &mut warnings) {
            Ok(x) => x,
            Err(e) => return Err(e),
        },
        None => {
            let empty: Vec<LazyXrefEntry> = Vec::new();
            assert(lazy_warning_views(warnings@) =~= w2);
            (empty, None)
        },
    };
    let ghost ws = lazy_warning_views(warnings@);
    assert(lazy_entries_sorted(entries@));
    let root = crate::pdf_parser::trailer_reference(&trailer, "Root");
    let info = crate::pdf_parser::trailer_reference(&trailer, "Info");
    let (encrypted, trailer_keys, has_xref_stream) = match crate::pdf_parser::trailer_dictionary(&trailer) {
        Some(d) => (d.contains_key("Encrypt"), crate::pdf_parser::dictionary_keys(d),
            name_is(d, "Type", "XRef") || d.contains_key("XRefStm")),
        None => {
            let empty: Vec<String> = Vec::new();
            assert(string_views(empty@) =~= Seq::<Seq<char>>::empty());
            (false, empty, false)
        },
    };
    let page_count = match root {
        Some(r) => detect_page_count_lazy(file, entries.as_slice(), r, &mut warnings),
        None => {
            assert(lazy_warning_views(warnings@) =~= ws + Seq::<LazyWarningV>::empty());
            None
        },
    };
    let (object_count, has_object_stream) = count_entries(&entries);
    let xref_entry_count = entries.len();
    let parse_warning_count = warnings.len();
    let metadata = PdfMetadata {
        file_name: owned(file_name),
        file_size: n,
        pdf_version,
        page_count,
        encrypted,
        linearized,
        incremental_update_count,
        root,
        info,
        trailer_keys,
        info_summary: Vec::new(),
        object_count,
        stream_count: 0,
        xref_entry_count,
        has_xref_stream,
        has_object_stream,
        parse_warning_count,
    };
    Ok(LazyPdfDocument { metadata, trailer, xref: LazyXrefIndex { startxref, entries }, warnings })
}


// ---------------------------------------------------------------------------
// Reads that open the file first
// ---------------------------------------------------------------------------

/// The merged cross-reference entries that opening `file` reads, or why
/// opening fails.
pub open spec fn opened_entries(file: Seq<u8>) -> Result<Seq<LazyXrefEntry>, ErrorV> {
    match lazy_open_prefix(file) {
        Err(e) => Err(e),
        Ok((_, _, es, _, _)) => Ok(es),
    }
}

/// Opens the file lazily and inspects one object, without decoding stream data.
pub fn inspect_lazy_object(file: &[u8], reference: ObjectRef) -> (r: Result<crate::object_inspector::ObjectInspection, PdfDebuggerError>)
    ensures
        match opened_entries(file@) {
            Err(e) => r matches Err(x) && x@ == e,
            Ok(es) => match crate::lazy_pdf::read_object_spec(file@, es, reference).0 {
                Ok(o) => r matches Ok(i) && crate::object_inspector::inspection_matches(i, o, false),
                Err(e) => r matches Err(x) && x@ == e,
            },
        },
{
    let document = match open_lazy_pdf(file, "") {
        Ok(d) => d,
        Err(e) => return Err(e),
    };
    crate::lazy_pdf::inspect_lazy_object_with_document(&document, file, reference)
}

/// Opens the file lazily and reads one object.
pub fn read_lazy_object_for_tree(file: &[u8], reference: ObjectRef) -> (r: Result<crate::pdf_model::PdfObject, PdfDebuggerError>)
    ensures
        match opened_entries(file@) {
            Err(e) => r matches Err(x) && x@ == e,
            Ok(es) => crate::lazy_pdf::object_result(r, crate::lazy_pdf::read_object_spec(file@, es, reference).0),
        },
{
    let document = match open_lazy_pdf(file, "") {
        Ok(d) => d,
        Err(e) => return Err(e),
    };
    crate::lazy_pdf::read_lazy_object_for_tree_with_document(&document, file, reference)
}

/// Opens the file lazily and views one stream.
pub fn view_lazy_stream(file: &[u8], reference: ObjectRef) -> (r: Result<crate::lazy_pdf::LazyStreamView, PdfDebuggerError>)
    ensures
        match opened_entries(file@) {
            Err(e) => r matches Err(x) && x@ == e,
            Ok(es) => match crate::lazy_pdf::lazy_stream_metadata(file@, es, reference) {
                Ok(st) => r matches Ok(v) && crate::lazy_pdf::stream_view_matches(v, file@, st, reference),
                Err(e) => r matches Err(x) && x@ == e,
            },
        },
{
    let document = match open_lazy_pdf(file, "") {
        Ok(d) => d,
        Err(e) => return Err(e),
    };
    crate::lazy_pdf::view_lazy_stream_with_document(&document, file, reference)
}

/// Opens the file lazily and reads the raw data of one stream.
pub fn read_lazy_stream_raw_bytes(file: &[u8], reference: ObjectRef) -> (r: Result<Vec<u8>, PdfDebuggerError>)
    ensures
        match opened_entries(file@) {
            Err(e) => r matches Err(x) && x@ == e,
            Ok(es) => crate::lazy_pdf::bytes_result(r, crate::lazy_pdf::lazy_raw_bytes(file@, es, reference)),
        },
{
    let document = match open_lazy_pdf(file, "") {
        Ok(d) => d,
        Err(e) => return Err(e),
    };
    crate::lazy_pdf::read_lazy_stream_raw_bytes_with_document(&document, file, reference)
}

/// Opens the file lazily and reads the decoded data of one stream.
pub fn read_lazy_stream_decoded_bytes(file: &[u8], reference: ObjectRef) -> (r: Result<Vec<u8>, PdfDebuggerError>)
    ensures
        match opened_entries(file@) {
            Err(e) => r matches Err(x) && x@ == e,
            Ok(es) => crate::lazy_pdf::bytes_result(r, crate::lazy_pdf::lazy_decoded_bytes(file@, es, reference)),
        },
{
    let document = match open_lazy_pdf(file, "") {
        Ok(d) => d,
        Err(e) => return Err(e),
    };
    crate::lazy_pdf::read_lazy_stream_decoded_bytes_with_document(&document, file, reference)
}

/// Opens the file lazily and reads one stream with its data, for content analysis.
pub fn read_lazy_stream_for_content(file: &[u8], reference: ObjectRef) -> (r: Result<PdfStream, PdfDebuggerError>)
    ensures
        match opened_entries(file@) {
            Err(e) => r matches Err(x) && x@ == e,
            Ok(es) => crate::lazy_pdf::stream_result(r, crate::lazy_pdf::lazy_content_stream(file@, es, reference)),
        },
{
    let document = match open_lazy_pdf(file, "") {
        Ok(d) => d,
        Err(e) => return Err(e),
    };
    crate::lazy_pdf::read_lazy_stream_for_content_with_document(&document, file, reference)
}


// ---------------------------------------------------------------------------
// A first tree of a lazily opened document
// ---------------------------------------------------------------------------

/// How many in-use entries the tree lists.
pub const OBJECT_TREE_XREF_CHILD_LIMIT: usize = 512;

/// The in-use entries, in order.
pub open spec fn in_use_entries(es: Seq<LazyXrefEntry>) -> Seq<LazyXrefEntry>
    decreases es.len(),
{
    if es.len() == 0 {
        seq![]
    } else {
        in_use_entries(es.drop_last()) + if es.last().in_use { seq![es.last()] } else { seq![] }
    }
}

pub open spec fn leaf(label: Seq<char>, kind: crate::object_tree::ObjectTreeNodeKind, object: Option<ObjectRef>, summary: Seq<char>)
    -> crate::object_tree::NodeV {
    crate::object_tree::NodeV { label, kind, object, summary: Some(summary), children: seq![] }
}

pub open spec fn entry_node(e: LazyXrefEntry) -> crate::object_tree::NodeV {
    leaf(e.reference.spec_text(), crate::object_tree::ObjectTreeNodeKind::Object, Some(e.reference),
        "xref offset "@ + decimal(e.offset as nat) + ", lazy object"@)
}

pub open spec fn trailer_entry_node(e: (Seq<char>, ValueView)) -> crate::object_tree::NodeV {
    leaf(e.0, crate::object_tree::ObjectTreeNodeKind::Reference, crate::pdf_model::view_reference(e.1),
        crate::summary::value_summary(e.1))
}

/// The tree a lazily opened document shows before anything else is read:
/// the trailer and its entries, the catalog, and the first in-use entries of
/// the cross-reference index.
pub open spec fn lazy_tree(doc: LazyPdfDocument) -> crate::object_tree::NodeV {
    let m = doc.metadata;
    let t = crate::pdf_parser::opt_view(doc.trailer);
    let trailer = crate::object_tree::NodeV {
        label: "Trailer"@,
        kind: crate::object_tree::ObjectTreeNodeKind::Trailer,
        object: None,
        summary: match t {
            Some(v) => Some(crate::summary::value_summary(v)),
            None => None,
        },
        children: match crate::pdf_parser::trailer_dict(t) {
            Some(d) => d.map_values(|e: (Seq<char>, ValueView)| trailer_entry_node(e)),
            None => seq![],
        },
    };
    let catalog: Seq<crate::object_tree::NodeV> = match m.root {
        Some(r) => seq![leaf("Catalog"@, crate::object_tree::ObjectTreeNodeKind::Catalog, Some(r),
            "lazy object, click to inspect by xref offset"@)],
        None => seq![],
    };
    let used = in_use_entries(doc.xref.entries@);
    let shown = used.take(if used.len() < OBJECT_TREE_XREF_CHILD_LIMIT { used.len() as int } else { OBJECT_TREE_XREF_CHILD_LIMIT as int });
    let more: Seq<crate::object_tree::NodeV> = if m.object_count > OBJECT_TREE_XREF_CHILD_LIMIT {
        seq![leaf("More xref objects"@, crate::object_tree::ObjectTreeNodeKind::Xref, None,
            decimal((m.object_count - OBJECT_TREE_XREF_CHILD_LIMIT) as nat) + " additional in-use object(s) hidden in this first lazy tree"@)]
    } else {
        seq![]
    };
    let xref = crate::object_tree::NodeV {
        label: "Cross-reference"@,
        kind: crate::object_tree::ObjectTreeNodeKind::Xref,
        object: None,
        summary: Some("startxref "@ + match doc.xref.startxref {
            Some(o) => decimal(o as nat),
            None => "unknown"@,
        } + ", "@ + decimal(doc.xref.entries@.len()) + " entrie(s)"@),
        children: shown.map_values(|e: LazyXrefEntry| entry_node(e)) + more,
    };
    crate::object_tree::NodeV {
        label: "PDF"@,
        kind: crate::object_tree::ObjectTreeNodeKind::Root,
        object: None,
        summary: Some("lazy open, "@ + decimal(m.xref_entry_count as nat) + " xref entrie(s), "@ + decimal(m.object_count as nat)
            + " in-use object(s)"@),
        children: seq![trailer] + catalog + seq![xref],
    }
}

fn leaf_node(label: String, kind: crate::object_tree::ObjectTreeNodeKind, object: Option<ObjectRef>, summary: String)
    -> (r: crate::object_tree::ObjectTreeNode)
    ensures
        r@ == leaf(label@, kind, object, summary@),
{
    let children: Vec<crate::object_tree::ObjectTreeNode> = Vec::new();
    let r = crate::object_tree::ObjectTreeNode { label, kind, object, summary: Some(summary), children };
    assert(crate::object_tree::node_views(r.children@) =~= Seq::<crate::object_tree::NodeV>::empty());
    r
}

fn push_node(nodes: &mut Vec<crate::object_tree::ObjectTreeNode>, n: crate::object_tree::ObjectTreeNode)
    ensures
        crate::object_tree::node_views(final(nodes)@) == crate::object_tree::node_views(old(nodes)@).push(n@),
{
    let ghost before = old(nodes)@;
    nodes.push(n);
    assert(nodes@.drop_last() =~= before);
}

/// The first tree of a lazily opened document.
#[verifier::rlimit(60)]
pub fn lazy_pdf_to_object_tree(document: &LazyPdfDocument) -> (r: crate::object_tree::ObjectTreeNode)
    ensures
        r@ == lazy_tree(*document),
{
    let ghost spec = lazy_tree(*document);
    let mut trailer_children: Vec<crate::object_tree::ObjectTreeNode> = Vec::new();
    let ghost tc: Seq<crate::object_tree::NodeV> = seq![];
    match crate::pdf_parser::trailer_dictionary(&document.trailer) {
        Some(d) => {
            let mut k: usize = 0;
            while k < d.len()
                invariant
                    k <= d@.len(),
                    crate::object_tree::node_views(trailer_children@)
                        == d@.take(k as int).map_values(|e: (Seq<char>, ValueView)| trailer_entry_node(e)),
                decreases d@.len() - k,
            {
                let (key, value) = d.entry(k);
                let node = leaf_node(owned(key.as_str()), crate::object_tree::ObjectTreeNodeKind::Reference, value.as_reference(),
                    value.summary());
                push_node(&mut trailer_children, node);
                assert(d@.take(k + 1).map_values(|e: (Seq<char>, ValueView)| trailer_entry_node(e))
                    =~= d@.take(k as int).map_values(|e: (Seq<char>, ValueView)| trailer_entry_node(e)).push(trailer_entry_node(d@[k as int])));
                k = k + 1;
            }
            assert(d@.take(d@.len() as int) =~= d@);
        },
        None => {
            assert(crate::object_tree::node_views(trailer_children@) =~= Seq::<crate::object_tree::NodeV>::empty());
        },
    }
    let trailer = crate::object_tree::ObjectTreeNode {
        label: owned("Trailer"),
        kind: crate::object_tree::ObjectTreeNodeKind::Trailer,
        object: None,
        summary: match &document.trailer {
            Some(v) => Some(v.summary()),
            None => None,
        },
        children: trailer_children,
    };
    assert(trailer@ =~= spec.children[0]);
    let mut children: Vec<crate::object_tree::ObjectTreeNode> = Vec::new();
    assert(crate::object_tree::node_views(children@) =~= Seq::<crate::object_tree::NodeV>::empty());
    push_node(&mut children, trailer);
    match document.metadata.root {
        Some(r) => {
            push_node(&mut children, leaf_node(owned("Catalog"), crate::object_tree::ObjectTreeNodeKind::Catalog, Some(r),
                owned("lazy object, click to inspect by xref offset")));
        },
        None => {},
    }
    let entries = &document.xref.entries;
    let ghost ev = entries@;
    let mut xref_children: Vec<crate::object_tree::ObjectTreeNode> = Vec::new();
    let mut shown: usize = 0;
    let mut i: usize = 0;
    assert(ev.take(0) =~= Seq::<LazyXrefEntry>::empty());
    while i < entries.len()
        invariant
            i <= ev.len(),
            ev == entries@,
            shown <= OBJECT_TREE_XREF_CHILD_LIMIT,
            shown == if in_use_entries(ev.take(i as int)).len() < OBJECT_TREE_XREF_CHILD_LIMIT {
                in_use_entries(ev.take(i as int)).len()
            } else {
                OBJECT_TREE_XREF_CHILD_LIMIT as nat
            },
            crate::object_tree::node_views(xref_children@)
                == in_use_entries(ev.take(i as int)).take(shown as int).map_values(|e: LazyXrefEntry| entry_node(e)),
        decreases ev.len() - i,
    {
        let e = entries[i];
        let ghost before = in_use_entries(ev.take(i as int));
        assert(ev.take(i + 1).drop_last() =~= ev.take(i as int));
        assert(ev.take(i + 1).last() == e);
        if e.in_use && shown < OBJECT_TREE_XREF_CHILD_LIMIT {
            let mut summary = owned("xref offset ");
            crate::text::push_decimal(&mut summary, e.offset);
            push_str(&mut summary, ", lazy object");
            push_node(&mut xref_children, leaf_node(e.reference.to_text(), crate::object_tree::ObjectTreeNodeKind::Object,
                Some(e.reference), summary));
            shown = shown + 1;
            assert(in_use_entries(ev.take(i + 1)) =~= before.push(e));
            assert(in_use_entries(ev.take(i + 1)).take(shown as int) =~= before.take(shown - 1).push(e));
            assert(in_use_entries(ev.take(i + 1)).take(shown as int).map_values(|x: LazyXrefEntry| entry_node(x))
                =~= before.take(shown - 1).map_values(|x: LazyXrefEntry| entry_node(x)).push(entry_node(e)));
        } else if e.in_use {
            assert(in_use_entries(ev.take(i + 1)) =~= before.push(e));
            assert(in_use_entries(ev.take(i + 1)).take(shown as int) =~= before.take(shown as int));
        } else {
            assert(in_use_entries(ev.take(i + 1)) =~= before);
        }
        i = i + 1;
    }
    assert(ev.take(ev.len() as int) =~= ev);
    let count = document.metadata.object_count;
    if count > OBJECT_TREE_XREF_CHILD_LIMIT {
        let mut summary = String::new();
        crate::text::push_decimal(&mut summary, count - OBJECT_TREE_XREF_CHILD_LIMIT);
        push_str(&mut summary, " additional in-use object(s) hidden in this first lazy tree");
        proof {
            assert(summary@ =~= decimal((count - OBJECT_TREE_XREF_CHILD_LIMIT) as nat) + " additional in-use object(s) hidden in this first lazy tree"@);
        }
        push_node(&mut xref_children, leaf_node(owned("More xref objects"), crate::object_tree::ObjectTreeNodeKind::Xref, None, summary));
    }
    let mut xref_summary = owned("startxref ");
    match document.xref.startxref {
        Some(o) => crate::text::push_decimal(&mut xref_summary, o),
        None => push_str(&mut xref_summary, "unknown"),
    }
    push_str(&mut xref_summary, ", ");
    crate::text::push_decimal(&mut xref_summary, entries.len());
    push_str(&mut xref_summary, " entrie(s)");
    let ghost kids_before = crate::object_tree::node_views(children@);
    let xref = crate::object_tree::ObjectTreeNode {
        label: owned("Cross-reference"),
        kind: crate::object_tree::ObjectTreeNodeKind::Xref,
        object: None,
        summary: Some(xref_summary),
        children: xref_children,
    };
    proof {
        let used = in_use_entries(ev);
        assert(xref@.children =~= spec.children.last().children);
        assert(xref@ =~= spec.children.last());
        assert(kids_before =~= spec.children.drop_last());
    }
    push_node(&mut children, xref);
    let mut root_summary = owned("lazy open, ");
    crate::text::push_decimal(&mut root_summary, document.metadata.xref_entry_count);
    push_str(&mut root_summary, " xref entrie(s), ");
    crate::text::push_decimal(&mut root_summary, count);
    push_str(&mut root_summary, " in-use object(s)");
    let root = crate::object_tree::ObjectTreeNode {
        label: owned("PDF"),
        kind: crate::object_tree::ObjectTreeNodeKind::Root,
        object: None,
        summary: Some(root_summary),
        children,
    };
    proof {
        assert(root@.children =~= spec.children);
    }
    root
}

} // verus!
