//! The lazy reader: single objects and streams read out of a PDF file by
//! their cross-reference entries, without parsing the whole file. The file
//! is handed in as its bytes; every read takes a bounded window of them.
use vstd::prelude::*;
use crate::error::{ErrorV, PdfDebuggerError};
use crate::lazy_xref::{LazyCompressedObjectEntry, LazyPdfWarning, LazyXrefEntry, LazyXrefIndex};
use crate::object_inspector::{ObjectInspection, inspect_object_shallow, inspection_matches};
use crate::pdf_model::{
    ByteRange, ObjectRef, PdfDictionary, PdfMetadata, PdfObject, PdfStream, PdfValue, ValueView,
    dict_get, view_reference, view_usize,
};
use crate::pdf_parser::{
    crlf, digits_at, endobj_bytes, endstream_bytes, find_first, find_first_from, lemma_data_end_after_start,
    lemma_find_first_bounds, name_is, obj_bytes, occurs_at, parse_pdf_value_with_consumed, parse_usize,
    parse_unsigned, parse_usize_at, skip_ascii_whitespace, skip_whitespace_and_comments, skip_wsc,
    spec_value, split_whitespace_words, starts_with_at, stream_bytes, stream_data_start, trim_eol,
    trim_single_stream_eol, value_result, ws_words,
};
use crate::content_ops::skip_ws_from;
use crate::stream_decode::{
    DecodeIssue, DecodeStep, decode_stream_with_limit, filter_names, filter_names_from_dictionary,
    spec_decode_chain, issue_view,
};
use crate::stream_viewer::{issues_joined, issues_view, join_issue_lines, name_under};
use crate::text::{copy_range, decimal, lossy_string, owned, push_decimal, push_str, string_views, utf8_lossy};
use crate::value_views::{ObjectV, StreamV};

verus! {

/// The first window read for an object.
pub const OBJECT_INITIAL_READ_LIMIT: usize = 65536;
/// The largest window read for an object.
pub const OBJECT_READ_LIMIT: usize = 2097152;
/// How many bytes of a stream a preview shows.
pub const LAZY_STREAM_PREVIEW_LIMIT: usize = 1048576;
/// The longest stream the lazy reader decodes.
pub const LAZY_STREAM_DECODE_INPUT_LIMIT: usize = 16777216;
/// The most bytes a lazy decode may produce.
pub const LAZY_STREAM_DECODE_OUTPUT_LIMIT: usize = 33554432;
/// The longest stream whose raw bytes may be exported.
pub const LAZY_STREAM_EXPORT_LIMIT: usize = 536870912;
/// The most bytes a decoded export may produce.
pub const LAZY_STREAM_DECODE_EXPORT_LIMIT: usize = 268435456;

/// A lazy warning as text: rule, message and offset.
pub type LazyWarningV = (Seq<char>, Seq<char>, Option<usize>);

pub open spec fn lazy_warning_view(w: LazyPdfWarning) -> LazyWarningV {
    (w.rule_id@, w.message@, w.byte_offset)
}

pub open spec fn lazy_warning_views(s: Seq<LazyPdfWarning>) -> Seq<LazyWarningV> {
    s.map_values(|w: LazyPdfWarning| lazy_warning_view(w))
}

pub(crate) fn push_lazy_warning(warnings: &mut Vec<LazyPdfWarning>, rule_id: &str, message: String, byte_offset: Option<usize>)
    ensures
        lazy_warning_views(final(warnings)@) == lazy_warning_views(old(warnings)@).push((rule_id@, message@, byte_offset)),
{
    let ghost before = warnings@;
    warnings.push(LazyPdfWarning { rule_id: owned(rule_id), message, byte_offset });
    assert(lazy_warning_views(warnings@) =~= lazy_warning_views(before).push((rule_id@, warnings@.last().message@, byte_offset)));
}

// ---------------------------------------------------------------------------
// Windows of the file
// ---------------------------------------------------------------------------

/// The bytes `file[offset..offset + len]`, cut at the end of the file.
pub open spec fn window(file: Seq<u8>, offset: int, len: int) -> Seq<u8> {
    let s = if offset < file.len() { offset } else { file.len() as int };
    let e = if offset + len < file.len() { offset + len } else { file.len() as int };
    file.subrange(s, e)
}

/// Reads up to `len` bytes at `offset`; fewer where the file ends.
pub fn read_at(file: &[u8], offset: usize, len: usize) -> (r: &[u8])
    ensures
        r@ == window(file@, offset as int, len as int),
{
    let n = file.len();
    let s = if offset < n { offset } else { n };
    let e = if len <= n - s { s + len } else { n };
    vstd::slice::slice_subrange(file, s, e)
}

/// The window read for an object at `offset`, starting from `limit` bytes
/// and doubling until it holds `endobj`, reaches the end of the file, or
/// reaches the largest window.
pub open spec fn object_window_from(file: Seq<u8>, offset: int, limit: int) -> Seq<u8>
    decreases OBJECT_READ_LIMIT - limit,
{
    let w = window(file, offset, limit);
    if find_first(w, endobj_bytes(), 0) is Some || w.len() < limit || limit >= OBJECT_READ_LIMIT || limit <= 0 {
        w
    } else {
        let next = if limit * 2 < OBJECT_READ_LIMIT { limit * 2 } else { OBJECT_READ_LIMIT as int };
        object_window_from(file, offset, next)
    }
}

pub open spec fn object_window(file: Seq<u8>, offset: int) -> Seq<u8> {
    object_window_from(file, offset, OBJECT_INITIAL_READ_LIMIT as int)
}

fn read_object_window(file: &[u8], offset: usize) -> (r: &[u8])
    ensures
        r@ == object_window(file@, offset as int),
        offset + r@.len() <= usize::MAX,
{
    let n = file.len();
    let endobj: [u8; 6] = [0x65, 0x6e, 0x64, 0x6f, 0x62, 0x6a];
    assert(endobj@ =~= endobj_bytes());
    let mut limit: usize = OBJECT_INITIAL_READ_LIMIT;
    loop
        invariant
            n == file@.len(),
            OBJECT_INITIAL_READ_LIMIT <= limit <= OBJECT_READ_LIMIT,
            endobj@ == endobj_bytes(),
            object_window(file@, offset as int) == object_window_from(file@, offset as int, limit as int),
        decreases OBJECT_READ_LIMIT - limit,
    {
        let w = read_at(file, offset, limit);
        assert(offset + w@.len() <= usize::MAX) by {
            assert(w@.len() == 0 || offset + w@.len() <= n);
        }
        let found = find_first_from(w, 0, &endobj);
        if found.is_some() || w.len() < limit || limit >= OBJECT_READ_LIMIT {
            return w;
        }
        limit = if limit < OBJECT_READ_LIMIT / 2 { limit * 2 } else { OBJECT_READ_LIMIT };
    }
}

// ---------------------------------------------------------------------------
// One indirect object in a window
// ---------------------------------------------------------------------------

/// An unsigned number after ASCII whitespace, as `str::parse` reads it into
/// a `usize`, and the position after its digits.
pub open spec fn lazy_unsigned(b: Seq<u8>, cursor: int) -> Option<(nat, int)> {
    digits_at(b, skip_ws_from(b, cursor), usize::MAX as nat)
}

pub(crate) fn lazy_unsigned_at(input: &[u8], cursor: usize) -> (r: Option<(usize, usize)>)
    ensures
        match lazy_unsigned(input@, cursor as int) {
            Some((v, e)) => r == Some((v as usize, e as usize)) && e <= input@.len() && v <= usize::MAX && 0 <= e <= usize::MAX,
            None => r is None,
        },
{
    let mut pos = skip_ascii_whitespace(input, cursor);
    proof {
        crate::pdf_parser::lemma_digits_end_bounds(input@, pos as int);
    }
    match parse_usize_at(input, &mut pos) {
        Some(v) => Some((v, pos)),
        None => None,
    }
}

/// Where the header `object generation obj` of `reference` ends in a window.
pub open spec fn header_end(w: Seq<u8>, reference: ObjectRef) -> Option<int> {
    let c0 = skip_wsc(w, 0, false);
    match lazy_unsigned(w, c0) {
        None => None,
        Some((object, n1)) => {
            let c1 = skip_wsc(w, n1, false);
            match lazy_unsigned(w, c1) {
                None => None,
                Some((generation, n2)) => {
                    let c2 = skip_wsc(w, n2, false);
                    if object != reference.object as nat || generation != reference.generation as nat {
                        None
                    } else if !occurs_at(w, obj_bytes(), c2) {
                        None
                    } else {
                        Some(c2 + 3)
                    }
                },
            }
        },
    }
}

fn object_header_end(window: &[u8], reference: ObjectRef) -> (r: Option<usize>)
    ensures
        match header_end(window@, reference) {
            Some(e) => r == Some(e as usize) && e <= window@.len(),
            None => r is None,
        },
{
    let c0 = skip_whitespace_and_comments(window, 0);
    assert(c0 == skip_wsc(window@, 0, false));
    let (object, n1) = match lazy_unsigned_at(window, c0) {
        Some(x) => x,
        None => {
            assert(lazy_unsigned(window@, c0 as int) is None);
            assert(header_end(window@, reference) is None);
            return None;
        },
    };
    let c1 = skip_whitespace_and_comments(window, n1);
    assert(lazy_unsigned(window@, c0 as int) == Some((object as nat, n1 as int)));
    let (generation, n2) = match lazy_unsigned_at(window, c1) {
        Some(x) => x,
        None => {
            assert(lazy_unsigned(window@, c1 as int) is None);
            assert(header_end(window@, reference) is None);
            return None;
        },
    };
    let c2 = skip_whitespace_and_comments(window, n2);
    assert(lazy_unsigned(window@, c1 as int) == Some((generation as nat, n2 as int)));
    if object != reference.object as usize || generation != reference.generation as usize {
        assert(header_end(window@, reference) is None);
        return None;
    }
    let obj: [u8; 3] = [0x6f, 0x62, 0x6a];
    assert(obj@ =~= obj_bytes());
    if !starts_with_at(window, c2, &obj) {
        assert(header_end(window@, reference) is None);
        return None;
    }
    let wl = window.len();
    assert(occurs_at(window@, obj_bytes(), c2 as int));
    assert(c2 + 3 <= wl);
    assert(header_end(window@, reference) == Some(c2 + 3));
    Some(c2 + 3)
}

/// The declared `/Length` of a stream dictionary.
pub open spec fn declared_length_of(d: Seq<(Seq<char>, ValueView)>) -> Option<usize> {
    match dict_get(d, "Length"@) {
        Some(v) => view_usize(v),
        None => None,
    }
}

/// Where the data of a stream ends in its body: after the declared length
/// (saturating), else before the line break that precedes `endstream`, else
/// where it starts.
pub open spec fn lazy_data_end(body: Seq<u8>, ds: int, declared: Option<usize>) -> int {
    match declared {
        Some(l) => if ds + l > usize::MAX { usize::MAX as int } else { ds + l },
        None => match find_first(body, endstream_bytes(), ds) {
            Some(m) => trim_eol(body, ds, m),
            None => ds,
        },
    }
}

/// The object that a window read at `abs` holds for `reference`. A stream
/// object keeps no data: only where its data lies. Data that would end past
/// the largest offset leaves the object unread.
pub open spec fn window_object(w: Seq<u8>, abs: int, reference: ObjectRef) -> Option<ObjectV> {
    match header_end(w, reference) {
        None => None,
        Some(he) => {
            let body = w.skip(he);
            match spec_value(body, 0) {
                None => None,
                Some((value, value_end)) => {
                    let k = skip_wsc(body, value_end, false);
                    if occurs_at(body, stream_bytes(), k) {
                        let dictionary = match value {
                            ValueView::Dictionary(d) => d,
                            _ => seq![],
                        };
                        let ds = stream_data_start(body, k);
                        let declared = declared_length_of(dictionary);
                        let marker = find_first(body, endstream_bytes(), ds);
                        let de = lazy_data_end(body, ds, declared);
                        let de_in = if de < body.len() { de } else { body.len() as int };
                        let object_end = match marker {
                            Some(m) => match find_first(body, endobj_bytes(), m) {
                                Some(e) => he + e + 6,
                                None => he + de_in,
                            },
                            None => he + de_in,
                        };
                        let preview_end = if he + ds < w.len() { he + ds } else { w.len() as int };
                        if abs + he + de > usize::MAX {
                            None
                        } else {
                            let raw_range = ByteRange { start: (abs + he + ds) as usize, end: (abs + he + de) as usize };
                            let actual = match declared {
                                Some(l) => l,
                                None => (de - ds) as usize,
                            };
                            Some((
                                reference,
                                ValueView::Dictionary(dictionary),
                                Some((dictionary, declared, actual, filter_names(dictionary), raw_range, seq![])),
                                ByteRange { start: abs as usize, end: (abs + object_end) as usize },
                                w.take(preview_end),
                            ))
                        }
                    } else {
                        match find_first(body, endobj_bytes(), 0) {
                            None => None,
                            Some(e) => Some((
                                reference,
                                value,
                                None,
                                ByteRange { start: abs as usize, end: (abs + he + e + 6) as usize },
                                w.take(he + e + 6),
                            )),
                        }
                    }
                },
            }
        },
    }
}

proof fn lemma_lazy_data_end(body: Seq<u8>, k: int, declared: Option<usize>)
    requires
        0 <= k,
        body.len() <= usize::MAX,
        occurs_at(body, stream_bytes(), k),
    ensures
        k + 6 <= stream_data_start(body, k) <= body.len(),
        stream_data_start(body, k) <= lazy_data_end(body, stream_data_start(body, k), declared),
        declared is None ==> lazy_data_end(body, stream_data_start(body, k), declared) <= body.len(),
{
    let ds = stream_data_start(body, k);
    lemma_data_end_after_start(body, k, None);
    lemma_find_first_bounds(body, endstream_bytes(), ds);
}

fn stream_window_object(
    window: &[u8],
    body: &[u8],
    abs: usize,
    he: usize,
    reference: ObjectRef,
    value: &PdfValue,
    k: usize,
) -> (r: Option<PdfObject>)
    requires
        abs + window@.len() <= usize::MAX,
        he <= window@.len(),
        body@ == window@.skip(he as int),
        occurs_at(body@, stream_bytes(), k as int),
    ensures
        ({
            let w = window@;
            let dictionary = match value@ {
                ValueView::Dictionary(d) => d,
                _ => seq![],
            };
            let ds = stream_data_start(body@, k as int);
            let declared = declared_length_of(dictionary);
            let marker = find_first(body@, endstream_bytes(), ds);
            let de = lazy_data_end(body@, ds, declared);
            let de_in = if de < body@.len() { de } else { body@.len() as int };
            let object_end = match marker {
                Some(m) => match find_first(body@, endobj_bytes(), m) {
                    Some(e) => he + e + 6,
                    None => he + de_in,
                },
                None => he + de_in,
            };
            let preview_end = if he + ds < w.len() { he + ds } else { w.len() as int };
            if abs + he + de > usize::MAX {
                r is None
            } else {
                let raw_range = ByteRange { start: (abs + he + ds) as usize, end: (abs + he + de) as usize };
                let actual = match declared {
                    Some(l) => l,
                    None => (de - ds) as usize,
                };
                r matches Some(o) && o@ == (
                    reference,
                    ValueView::Dictionary(dictionary),
                    Some((dictionary, declared, actual, filter_names(dictionary), raw_range, Seq::<u8>::empty())),
                    ByteRange { start: abs as usize, end: (abs + object_end) as usize },
                    w.take(preview_end),
                )
            }
        }),
{
    let body_len = body.len();
    let dictionary = match value.as_dictionary() {
        Some(d) => d.deep_copy(),
        None => PdfDictionary::new(),
    };
    let eol: [u8; 2] = [0x0d, 0x0a];
    assert(eol@ =~= crlf());
    assert(k + 6 <= body_len);
    let mut data_start = k + 6;
    if starts_with_at(body, data_start, &eol) {
        data_start = data_start + 2;
    } else if data_start < body_len && (body[data_start] == 0x0a || body[data_start] == 0x0d) {
        data_start = data_start + 1;
    }
    let declared_length = match dictionary.get("Length") {
        Some(v) => v.as_usize(),
        None => None,
    };
    proof {
        lemma_lazy_data_end(body@, k as int, declared_length);
    }
    assert(data_start == stream_data_start(body@, k as int));
    let endstream: [u8; 9] = [0x65, 0x6e, 0x64, 0x73, 0x74, 0x72, 0x65, 0x61, 0x6d];
    assert(endstream@ =~= endstream_bytes());
    let marker = find_first_from(body, data_start, &endstream);
    let data_end: usize = match declared_length {
        Some(l) => data_start.saturating_add(l),
        None => match marker {
            Some(m) => trim_single_stream_eol(body, data_start, m),
            None => data_start,
        },
    };
    if data_end > usize::MAX - abs - he {
        return None;
    }
    let data_end_in_window = if data_end < body_len { data_end } else { body_len };
    let endobj: [u8; 6] = [0x65, 0x6e, 0x64, 0x6f, 0x62, 0x6a];
    assert(endobj@ =~= endobj_bytes());
    let object_end = match marker {
        Some(m) => match find_first_from(body, m, &endobj) {
            Some(e) => he + e + 6,
            None => he + data_end_in_window,
        },
        None => he + data_end_in_window,
    };
    let preview_end = if he + data_start < window.len() { he + data_start } else { window.len() };
    let raw_range = ByteRange { start: abs + he + data_start, end: abs + he + data_end };
    let actual_length = match declared_length {
        Some(l) => l,
        None => data_end - data_start,
    };
    let filters = filter_names_from_dictionary(&dictionary);
    let value_copy = dictionary.deep_copy();
    let raw_bytes = copy_range(window, 0, preview_end);
    assert(raw_bytes@ =~= window@.take(preview_end as int));
    let object = PdfObject {
        reference,
        value: PdfValue::Dictionary(value_copy),
        stream: Some(PdfStream { dictionary, declared_length, actual_length, filters, raw_range, raw_bytes: Vec::new() }),
        raw_range: ByteRange { start: abs, end: abs + object_end },
        raw_bytes,
    };
    assert(object@.2.unwrap().5 =~= Seq::<u8>::empty());
    Some(object)
}

/// Parses the indirect object `reference` from a window read at `abs`.
pub(crate) fn parse_indirect_object_window(window: &[u8], abs: usize, reference: ObjectRef) -> (r: Option<PdfObject>)
    requires
        abs + window@.len() <= usize::MAX,
    ensures
        match window_object(window@, abs as int, reference) {
            Some(v) => r matches Some(o) && o@ == v,
            None => r is None,
        },
{
    let he = match object_header_end(window, reference) {
        Some(e) => e,
        None => return None,
    };
    let body = vstd::slice::slice_subrange(window, he, window.len());
    assert(body@ =~= window@.skip(he as int));
    let (value, value_end) = match parse_pdf_value_with_consumed(body) {
        Some(x) => x,
        None => return None,
    };
    let k = skip_whitespace_and_comments(body, value_end);
    let kw: [u8; 6] = [0x73, 0x74, 0x72, 0x65, 0x61, 0x6d];
    assert(kw@ =~= stream_bytes());
    if starts_with_at(body, k, &kw) {
        stream_window_object(window, body, abs, he, reference, &value, k)
    } else {
        let endobj: [u8; 6] = [0x65, 0x6e, 0x64, 0x6f, 0x62, 0x6a];
        assert(endobj@ =~= endobj_bytes());
        match find_first_from(body, 0, &endobj) {
            None => None,
            Some(e) => {
                let raw_end = he + e + 6;
                let raw_bytes = copy_range(window, 0, raw_end);
                assert(raw_bytes@ =~= window@.take(raw_end as int));
                Some(PdfObject {
                    reference,
                    value,
                    stream: None,
                    raw_range: ByteRange { start: abs, end: abs + raw_end },
                    raw_bytes,
                })
            },
        }
    }
}

// ---------------------------------------------------------------------------
// Messages
// ---------------------------------------------------------------------------

fn push_ref(s: &mut String, r: ObjectRef)
    ensures
        final(s)@ == old(s)@ + r.spec_text(),
{
    let t = r.to_text();
    push_str(s, t.as_str());
}

fn ref_msg(a: &str, r: ObjectRef, b: &str) -> (s: String)
    ensures
        s@ == a@ + r.spec_text() + b@,
{
    let mut s = owned(a);
    push_ref(&mut s, r);
    push_str(&mut s, b);
    s
}

fn ref_ref_msg(a: &str, r: ObjectRef, b: &str, r2: ObjectRef, c: &str) -> (s: String)
    ensures
        s@ == a@ + r.spec_text() + b@ + r2.spec_text() + c@,
{
    let mut s = ref_msg(a, r, b);
    push_ref(&mut s, r2);
    push_str(&mut s, c);
    s
}

// ---------------------------------------------------------------------------
// Object stream members
// ---------------------------------------------------------------------------

/// The words that read as `usize` numbers, in order; the others are dropped.
pub open spec fn usize_words(words: Seq<Seq<char>>) -> Seq<usize>
    decreases words.len(),
{
    if words.len() == 0 {
        seq![]
    } else {
        let rest = usize_words(words.drop_last());
        match parse_unsigned(vstd::utf8::encode_utf8(words.last()), usize::MAX as nat) {
            Some(v) => rest.push(v as usize),
            None => rest,
        }
    }
}

/// `2 * n`, saturating at the largest `usize`.
pub open spec fn sat_double(n: usize) -> nat {
    if n * 2 > usize::MAX { usize::MAX as nat } else { (n * 2) as nat }
}

/// An object number cut to a `u32`.
pub open spec fn clamp_u32(n: usize) -> u32 {
    if n > u32::MAX { u32::MAX } else { n as u32 }
}

/// The member table of a decoded object stream as the lazy reader reads it:
/// the numbers among the words before `first`, paired as object number and
/// offset, `count` pairs.
pub open spec fn lazy_member_table(decoded: Seq<u8>, first: usize, count: usize) -> Result<Seq<(u32, usize)>, Seq<char>> {
    if first > decoded.len() {
        Err("object stream /First points outside decoded bytes"@)
    } else {
        let nums = usize_words(ws_words(utf8_lossy(decoded.take(first as int)), seq![], seq![]));
        if nums.len() < 2 * count {
            Err("object stream member table has "@ + decimal(nums.len()) + " number(s), expected "@ + decimal(sat_double(count)))
        } else {
            Ok(Seq::new(count as nat, |i: int| (clamp_u32(nums[2 * i]), nums[2 * i + 1])))
        }
    }
}

fn parse_lazy_member_table(decoded: &[u8], first: usize, count: usize) -> (r: Result<Vec<(u32, usize)>, String>)
    ensures
        match lazy_member_table(decoded@, first, count) {
            Ok(m) => r matches Ok(v) && v@ == m,
            Err(e) => r matches Err(s) && s@ == e,
        },
{
    if first > decoded.len() {
        return Err(owned("object stream /First points outside decoded bytes"));
    }
    let header = vstd::slice::slice_subrange(decoded, 0, first);
    assert(header@ =~= decoded@.take(first as int));
    let text = lossy_string(header);
    let words = split_whitespace_words(text.as_str());
    let ghost wv = string_views(words@);
    let mut nums: Vec<usize> = Vec::new();
    let mut i: usize = 0;
    assert(wv.take(0) =~= Seq::<Seq<char>>::empty());
    while i < words.len()
        invariant
            i <= words@.len(),
            wv == string_views(words@),
            nums@ == usize_words(wv.take(i as int)),
        decreases words@.len() - i,
    {
        assert(wv.take(i + 1).drop_last() =~= wv.take(i as int));
        assert(wv.take(i + 1).last() == words@[i as int]@);
        match parse_usize(words[i].as_str().as_bytes()) {
            Some(v) => {
                nums.push(v);
            },
            None => {},
        }
        i = i + 1;
    }
    assert(wv.take(words@.len() as int) =~= wv);
    let need: usize = if count > usize::MAX / 2 { usize::MAX } else { count * 2 };
    assert(need == sat_double(count));
    if count > nums.len() / 2 {
        let mut m = owned("object stream member table has ");
        push_decimal(&mut m, nums.len());
        push_str(&mut m, " number(s), expected ");
        push_decimal(&mut m, need);
        return Err(m);
    }
    let ghost f = |j: int| (clamp_u32(nums@[2 * j]), nums@[2 * j + 1]);
    let mut members: Vec<(u32, usize)> = Vec::new();
    let mut k: usize = 0;
    let nl = nums.len();
    assert(members@ =~= Seq::new(0, f));
    while k < count
        invariant
            k <= count,
            nl == nums@.len(),
            2 * count <= nums@.len(),
            members@ == Seq::new(k as nat, f),
            f == (|j: int| (clamp_u32(nums@[2 * j]), nums@[2 * j + 1])),
        decreases count - k,
    {
        let object = nums[2 * k];
        let o: u32 = if object > 4294967295usize { 4294967295u32 } else { object as u32 };
        members.push((o, nums[2 * k + 1]));
        assert(members@ =~= Seq::new((k + 1) as nat, f));
        k = k + 1;
    }
    Ok(members)
}

// ---------------------------------------------------------------------------
// Reading objects by their cross-reference entries
// ---------------------------------------------------------------------------

/// The first in-use entry for `reference`.
pub open spec fn find_lazy_entry(entries: Seq<LazyXrefEntry>, reference: ObjectRef) -> Option<LazyXrefEntry>
    decreases entries.len(),
{
    if entries.len() == 0 {
        None
    } else if entries[0].in_use && entries[0].reference == reference {
        Some(entries[0])
    } else {
        find_lazy_entry(entries.drop_first(), reference)
    }
}

fn lazy_entry_of(entries: &[LazyXrefEntry], reference: ObjectRef) -> (r: Option<LazyXrefEntry>)
    ensures
        r == find_lazy_entry(entries@, reference),
{
    let mut i: usize = 0;
    assert(entries@.skip(0) =~= entries@);
    while i < entries.len()
        invariant
            i <= entries@.len(),
            find_lazy_entry(entries@, reference) == find_lazy_entry(entries@.skip(i as int), reference),
        decreases entries@.len() - i,
    {
        assert(entries@.skip(i as int).drop_first() =~= entries@.skip(i + 1));
        let e = entries[i];
        if e.in_use && e.reference == reference {
            return Some(e);
        }
        i = i + 1;
    }
    None
}

pub open spec fn parse_failed_text(reference: ObjectRef, offset: usize) -> Seq<char> {
    "Could not parse object "@ + reference.spec_text() + " at xref offset "@ + decimal(offset as nat)
}

/// The value of `d[key]` when it is a non-negative integer.
pub open spec fn usize_under(d: Seq<(Seq<char>, ValueView)>, key: Seq<char>) -> Option<usize> {
    match dict_get(d, key) {
        Some(v) => view_usize(v),
        None => None,
    }
}

/// The member at `index` of an object stream whose decoded bytes are `d`.
pub open spec fn member_in_decoded(
    d: Seq<u8>,
    reference: ObjectRef,
    os: ObjectRef,
    first: usize,
    count: usize,
    index: usize,
    range: ByteRange,
) -> Result<ObjectV, ErrorV> {
    match lazy_member_table(d, first, count) {
        Err(m) => Err(ErrorV::LazyOpen(m)),
        Ok(members) => {
            let rel = members[index as int].1;
            if first + rel > usize::MAX {
                Err(ErrorV::LazyOpen("object stream "@ + os.spec_text() + " member offset overflows"@))
            } else if first + rel >= d.len() {
                Err(ErrorV::LazyOpen("object "@ + reference.spec_text() + " body starts outside decoded object stream "@ + os.spec_text()))
            } else {
                let bs = first + rel;
                let next_end: int = if index + 1 < members.len() {
                    let x = first + members[index + 1].1;
                    if x > usize::MAX { usize::MAX as int } else { x }
                } else {
                    d.len() as int
                };
                let be = if next_end < d.len() { next_end } else { d.len() as int };
                if bs > be {
                    Err(ErrorV::LazyOpen("object "@ + reference.spec_text() + " has an invalid object stream body range"@))
                } else {
                    let body = d.subrange(bs, be);
                    match spec_value(body, 0) {
                        None => Err(ErrorV::LazyOpen("Could not parse compressed object "@ + reference.spec_text()
                            + " from object stream "@ + os.spec_text())),
                        Some((v, consumed)) => Ok((reference, v, None, range,
                            body.take(if consumed < body.len() { consumed } else { body.len() as int }))),
                    }
                }
            }
        },
    }
}

/// The object at position `index` of the object stream `o` (whose stream
/// part is `st`), and the warnings that reading it adds.
pub open spec fn stream_member(
    file: Seq<u8>,
    reference: ObjectRef,
    c: LazyCompressedObjectEntry,
    o: ObjectV,
    st: StreamV,
) -> Result<ObjectV, ErrorV> {
    let os = c.object_stream;
    match usize_under(st.0, "First"@) {
        None => Err(ErrorV::LazyOpen("object stream "@ + os.spec_text() + " is missing numeric /First"@)),
        Some(first) => match usize_under(st.0, "N"@) {
            None => Err(ErrorV::LazyOpen("object stream "@ + os.spec_text() + " is missing numeric /N"@)),
            Some(count) => if count == 0 || c.index >= count {
                Err(ErrorV::LazyOpen("object "@ + reference.spec_text() + " index "@ + decimal(c.index as nat)
                    + " is outside object stream "@ + os.spec_text() + " member count "@ + decimal(count as nat)))
            } else if st.2 > LAZY_STREAM_DECODE_INPUT_LIMIT {
                Err(ErrorV::LazyOpen("object stream "@ + os.spec_text() + " is "@ + decimal(st.2 as nat)
                    + " bytes, above lazy object stream decode input limit "@ + decimal(LAZY_STREAM_DECODE_INPUT_LIMIT as nat) + " bytes"@))
            } else {
                let raw = window(file, st.4.start as int, st.2 as int);
                let (d, steps, issues) = spec_decode_chain(raw, st.3, Some(LAZY_STREAM_DECODE_OUTPUT_LIMIT));
                if issues.len() > 0 {
                    Err(ErrorV::LazyOpen("Could not decode object stream "@ + os.spec_text() + ": "@ + issues_joined(issues)))
                } else {
                    member_in_decoded(d, reference, os, first, count, c.index, o.3)
                }
            },
        },
    }
}

/// A compressed object read out of its object stream `container`, and the
/// warnings that this step adds.
pub open spec fn compressed_member(
    file: Seq<u8>,
    reference: ObjectRef,
    c: LazyCompressedObjectEntry,
    container: Result<ObjectV, ErrorV>,
) -> (Result<ObjectV, ErrorV>, Seq<LazyWarningV>) {
    let os = c.object_stream;
    match container {
        Err(e) => (Err(e), seq![]),
        Ok(o) => match o.2 {
            None => (Err(ErrorV::LazyOpen("object "@ + reference.spec_text() + " is compressed in "@ + os.spec_text()
                + ", but that object is not a stream"@)), seq![]),
            Some(st) => {
                let extra = if name_under(st.0, "Type"@) == Some("ObjStm"@) {
                    seq![]
                } else {
                    seq![("lazy.object_stream.unexpected_type"@, "object "@ + reference.spec_text() + " is stored in "@
                        + os.spec_text() + ", which is not marked /Type /ObjStm"@, Some(o.3.start))]
                };
                (stream_member(file, reference, c, o, st), extra)
            },
        },
    }
}

pub open spec fn chain_too_deep_text(reference: ObjectRef) -> Seq<char> {
    "object "@ + reference.spec_text() + " is compressed in a chain of object streams that does not end"@
}

/// An object read by its entry: a plain object from a window at its offset,
/// a compressed one out of its object stream, which is read in turn. `fuel`
/// bounds how many object streams are followed. With the warnings the read
/// adds.
pub open spec fn lazy_object(file: Seq<u8>, entries: Seq<LazyXrefEntry>, reference: ObjectRef, fuel: nat)
    -> (Result<ObjectV, ErrorV>, Seq<LazyWarningV>)
    decreases fuel,
{
    match find_lazy_entry(entries, reference) {
        None => (Err(ErrorV::ObjectNotFound(reference)), seq![]),
        Some(entry) => match entry.compressed {
            Some(c) => if fuel == 0 {
                (Err(ErrorV::LazyOpen(chain_too_deep_text(reference))), seq![])
            } else {
                let (container, ws) = lazy_object(file, entries, c.object_stream, (fuel - 1) as nat);
                let (res, extra) = compressed_member(file, reference, c, container);
                (res, ws + extra)
            },
            None => match window_object(object_window(file, entry.offset as int), entry.offset as int, reference) {
                Some(o) => (Ok(o), seq![]),
                None => (
                    Err(ErrorV::LazyOpen(parse_failed_text(reference, entry.offset))),
                    seq![("lazy.object_parse_failed"@, parse_failed_text(reference, entry.offset), Some(entry.offset))],
                ),
            },
        },
    }
}

/// An object read by its entry, following at most as many object streams
/// as there are entries.
#[verifier::opaque]
pub open spec fn read_object_spec(file: Seq<u8>, entries: Seq<LazyXrefEntry>, reference: ObjectRef) -> (Result<ObjectV, ErrorV>, Seq<LazyWarningV>) {
    lazy_object(file, entries, reference, entries.len())
}

pub open spec fn object_result(r: Result<PdfObject, PdfDebuggerError>, s: Result<ObjectV, ErrorV>) -> bool {
    match s {
        Ok(o) => r matches Ok(x) && x@ == o,
        Err(e) => r matches Err(x) && x@ == e,
    }
}

pub(crate) fn lazy_open_error(message: String) -> (e: PdfDebuggerError)
    ensures
        e@ == ErrorV::LazyOpen(message@),
{
    PdfDebuggerError::LazyOpen { message }
}

#[verifier::rlimit(40)]
fn read_stream_member(
    file: &[u8],
    reference: ObjectRef,
    c: LazyCompressedObjectEntry,
    container: &PdfObject,
    stream: &PdfStream,
) -> (r: Result<PdfObject, PdfDebuggerError>)
    requires
        container@.2 == Some(stream@),
    ensures
        object_result(r, stream_member(file@, reference, c, container@, stream@)),
{
    let os = c.object_stream;
    let first = match stream.dictionary.get("First") {
        Some(v) => v.as_usize(),
        None => None,
    };
    let first = match first {
        Some(f) => f,
        None => return Err(lazy_open_error(ref_msg("object stream ", os, " is missing numeric /First"))),
    };
    let count = match stream.dictionary.get("N") {
        Some(v) => v.as_usize(),
        None => None,
    };
    let count = match count {
        Some(n) => n,
        None => return Err(lazy_open_error(ref_msg("object stream ", os, " is missing numeric /N"))),
    };
    if count == 0 || c.index >= count {
        let mut m = ref_msg("object ", reference, " index ");
        push_decimal(&mut m, c.index);
        push_str(&mut m, " is outside object stream ");
        push_ref(&mut m, os);
        push_str(&mut m, " member count ");
        push_decimal(&mut m, count);
        return Err(lazy_open_error(m));
    }
    if stream.actual_length > LAZY_STREAM_DECODE_INPUT_LIMIT {
        let mut m = ref_msg("object stream ", os, " is ");
        push_decimal(&mut m, stream.actual_length);
        push_str(&mut m, " bytes, above lazy object stream decode input limit ");
        push_decimal(&mut m, LAZY_STREAM_DECODE_INPUT_LIMIT);
        push_str(&mut m, " bytes");
        return Err(lazy_open_error(m));
    }
    let raw = read_at(file, stream.raw_range.start, stream.actual_length);
    let loaded = PdfStream {
        dictionary: stream.dictionary.deep_copy(),
        declared_length: stream.declared_length,
        actual_length: stream.actual_length,
        filters: crate::stream_decode::copy_strings(stream.filters.as_slice()),
        raw_range: stream.raw_range,
        raw_bytes: copy_range(raw, 0, raw.len()),
    };
    assert(loaded.raw_bytes@ =~= raw@);
    let decode = decode_stream_with_limit(&loaded, Some(LAZY_STREAM_DECODE_OUTPUT_LIMIT));
    let ghost sd = spec_decode_chain(raw@, stream@.3, Some(LAZY_STREAM_DECODE_OUTPUT_LIMIT));
    assert(issues_view(decode.issues@) =~= sd.2);
    if decode.has_issues() {
        let mut m = ref_msg("Could not decode object stream ", os, ": ");
        let joined = join_issue_lines(decode.issues.as_slice());
        push_str(&mut m, joined.as_str());
        return Err(lazy_open_error(m));
    }
    member_from_decoded(decode.decoded.as_slice(), reference, os, first, count, c.index, container.raw_range)
}

#[verifier::rlimit(40)]
fn member_from_decoded(
    decoded: &[u8],
    reference: ObjectRef,
    os: ObjectRef,
    first: usize,
    count: usize,
    index: usize,
    range: ByteRange,
) -> (r: Result<PdfObject, PdfDebuggerError>)
    requires
        index < count,
    ensures
        object_result(r, member_in_decoded(decoded@, reference, os, first, count, index, range)),
{
    let members = match parse_lazy_member_table(decoded, first, count) {
        Ok(m) => m,
        Err(m) => return Err(lazy_open_error(m)),
    };
    let rel = members[index].1;
    if first > usize::MAX - rel {
        return Err(lazy_open_error(ref_msg("object stream ", os, " member offset overflows")));
    }
    let body_start = first + rel;
    if body_start >= decoded.len() {
        let mut m = ref_msg("object ", reference, " body starts outside decoded object stream ");
        push_ref(&mut m, os);
        return Err(lazy_open_error(m));
    }
    let next_end: usize = if index + 1 < members.len() {
        first.saturating_add(members[index + 1].1)
    } else {
        decoded.len()
    };
    let body_end = if next_end < decoded.len() { next_end } else { decoded.len() };
    if body_start > body_end {
        return Err(lazy_open_error(ref_msg("object ", reference, " has an invalid object stream body range")));
    }
    let body = vstd::slice::slice_subrange(decoded, body_start, body_end);
    match parse_pdf_value_with_consumed(body) {
        None => {
            let mut m = ref_msg("Could not parse compressed object ", reference, " from object stream ");
            push_ref(&mut m, os);
            Err(lazy_open_error(m))
        },
        Some((value, consumed)) => {
            let keep = if consumed < body.len() { consumed } else { body.len() };
            let raw_bytes = copy_range(body, 0, keep);
            assert(raw_bytes@ =~= body@.take(keep as int));
            Ok(PdfObject { reference, value, stream: None, raw_range: range, raw_bytes })
        },
    }
}

fn read_plain_object(file: &[u8], reference: ObjectRef, offset: usize, warnings: &mut Vec<LazyPdfWarning>) -> (r: Result<PdfObject, PdfDebuggerError>)
    ensures
        match window_object(object_window(file@, offset as int), offset as int, reference) {
            Some(o) => r matches Ok(x) && x@ == o && final(warnings)@ == old(warnings)@,
            None => r matches Err(x) && x@ == ErrorV::LazyOpen(parse_failed_text(reference, offset))
                && lazy_warning_views(final(warnings)@) == lazy_warning_views(old(warnings)@).push(
                    ("lazy.object_parse_failed"@, parse_failed_text(reference, offset), Some(offset))),
        },
{
    let w = read_object_window(file, offset);
    match parse_indirect_object_window(w, offset, reference) {
        Some(o) => Ok(o),
        None => {
            let mut m = ref_msg("Could not parse object ", reference, " at xref offset ");
            push_decimal(&mut m, offset);
            let mut m2 = ref_msg("Could not parse object ", reference, " at xref offset ");
            push_decimal(&mut m2, offset);
            push_lazy_warning(warnings, "lazy.object_parse_failed", m, Some(offset));
            Err(lazy_open_error(m2))
        },
    }
}

fn check_object_stream(
    file: &[u8],
    reference: ObjectRef,
    c: LazyCompressedObjectEntry,
    container: &PdfObject,
    warnings: &mut Vec<LazyPdfWarning>,
) -> (r: Result<PdfObject, PdfDebuggerError>)
    ensures
        object_result(r, compressed_member(file@, reference, c, Ok(container@)).0),
        lazy_warning_views(final(warnings)@) == lazy_warning_views(old(warnings)@) + compressed_member(file@, reference, c, Ok(container@)).1,
{
    let ghost w1 = lazy_warning_views(warnings@);
    let stream = match &container.stream {
        Some(s) => s,
        None => {
            assert(w1 =~= w1 + Seq::<LazyWarningV>::empty());
            return Err(lazy_open_error(ref_ref_msg("object ", reference, " is compressed in ", c.object_stream, ", but that object is not a stream")));
        },
    };
    if !name_is(&stream.dictionary, "Type", "ObjStm") {
        let m = ref_ref_msg("object ", reference, " is stored in ", c.object_stream, ", which is not marked /Type /ObjStm");
        push_lazy_warning(warnings, "lazy.object_stream.unexpected_type", m, Some(container.raw_range.start));
    } else {
        assert(w1 =~= w1 + Seq::<LazyWarningV>::empty());
    }
    read_stream_member(file, reference, c, container, stream)
}

fn read_object_with_fuel(
    file: &[u8],
    entries: &[LazyXrefEntry],
    reference: ObjectRef,
    fuel: usize,
    warnings: &mut Vec<LazyPdfWarning>,
) -> (r: Result<PdfObject, PdfDebuggerError>)
    ensures
        object_result(r, lazy_object(file@, entries@, reference, fuel as nat).0),
        lazy_warning_views(final(warnings)@) == lazy_warning_views(old(warnings)@) + lazy_object(file@, entries@, reference, fuel as nat).1,
    decreases fuel,
{
    let ghost w0 = lazy_warning_views(warnings@);
    let entry = match lazy_entry_of(entries, reference) {
        Some(e) => e,
        None => {
            assert(w0 =~= w0 + Seq::<LazyWarningV>::empty());
            return Err(PdfDebuggerError::ObjectNotFound { reference });
        },
    };
    match entry.compressed {
        Some(c) => {
            if fuel == 0 {
                assert(w0 =~= w0 + Seq::<LazyWarningV>::empty());
                return Err(lazy_open_error(ref_msg("object ", reference, " is compressed in a chain of object streams that does not end")));
            }
            let container = read_object_with_fuel(file, entries, c.object_stream, fuel - 1, warnings);
            let ghost w1 = lazy_warning_views(warnings@);
            match container {
                Ok(o) => {
                    let r = check_object_stream(file, reference, c, &o, warnings);
                    proof {
                        let ex = compressed_member(file@, reference, c, Ok(o@)).1;
                        assert(lazy_warning_views(warnings@) =~= w1 + ex);
                    }
                    r
                },
                Err(e) => {
                    assert(w1 =~= w1 + Seq::<LazyWarningV>::empty());
                    Err(e)
                },
            }
        },
        None => {
            let r = read_plain_object(file, reference, entry.offset, warnings);
            assert(lazy_warning_views(warnings@) =~= w0 + lazy_object(file@, entries@, reference, fuel as nat).1);
            r
        },
    }
}

/// Reads an object by its entry, with the warnings the read adds.
pub(crate) fn read_lazy_object_from_file(
    file: &[u8],
    entries: &[LazyXrefEntry],
    reference: ObjectRef,
    warnings: &mut Vec<LazyPdfWarning>,
) -> (r: Result<PdfObject, PdfDebuggerError>)
    ensures
        object_result(r, read_object_spec(file@, entries@, reference).0),
        lazy_warning_views(final(warnings)@) == lazy_warning_views(old(warnings)@) + read_object_spec(file@, entries@, reference).1,
{
    proof {
        reveal(read_object_spec);
    }
    read_object_with_fuel(file, entries, reference, entries.len(), warnings)
}

// ---------------------------------------------------------------------------
// The lazily opened document
// ---------------------------------------------------------------------------

/// A document opened lazily: its metadata, merged trailer, cross-reference
/// index and the warnings met so far.
#[derive(Debug)]
pub struct LazyPdfDocument {
    pub metadata: PdfMetadata,
    pub trailer: Option<PdfValue>,
    pub xref: LazyXrefIndex,
    pub warnings: Vec<LazyPdfWarning>,
}

// ---------------------------------------------------------------------------
// Streams
// ---------------------------------------------------------------------------

pub open spec fn stream_result(r: Result<PdfStream, PdfDebuggerError>, s: Result<StreamV, ErrorV>) -> bool {
    match s {
        Ok(v) => r matches Ok(x) && x@ == v,
        Err(e) => r matches Err(x) && x@ == e,
    }
}

/// The stream `reference` with its length settled: a direct `/Length`, or
/// one read from the object an indirect `/Length` points to. Its data range
/// must lie inside the file.
pub open spec fn lazy_stream_metadata(file: Seq<u8>, entries: Seq<LazyXrefEntry>, reference: ObjectRef) -> Result<StreamV, ErrorV> {
    match read_object_spec(file, entries, reference).0 {
        Err(e) => Err(e),
        Ok(o) => match o.2 {
            None => Err(ErrorV::StreamNotFound(reference)),
            Some(st) => {
                let length: Result<Option<usize>, ErrorV> = match st.1 {
                    Some(l) => Ok(Some(l)),
                    None => match dict_get(st.0, "Length"@) {
                        Some(v) => match view_reference(v) {
                            Some(lr) => match read_object_spec(file, entries, lr).0 {
                                Err(e) => Err(e),
                                Ok(lo) => match view_usize(lo.1) {
                                    Some(n) => Ok(Some(n)),
                                    None => Err(ErrorV::LazyOpen("stream "@ + reference.spec_text() + " has an indirect /Length "@
                                        + lr.spec_text() + " that is not a non-negative integer"@)),
                                },
                            },
                            None => Ok(None),
                        },
                        None => Ok(None),
                    },
                };
                match length {
                    Err(e) => Err(e),
                    Ok(None) => Err(ErrorV::LazyOpen("stream "@ + reference.spec_text()
                        + " does not have a numeric /Length; marker-based lazy stream reads are deferred"@)),
                    Ok(Some(n)) => if st.4.start + n > usize::MAX {
                        Err(ErrorV::LazyOpen("stream "@ + reference.spec_text() + " /Length overflows byte range"@))
                    } else if st.4.start + n > file.len() {
                        Err(ErrorV::LazyOpen("stream "@ + reference.spec_text() + " byte range "@ + decimal(st.4.start as nat) + ".."@
                            + decimal((st.4.start + n) as nat) + " exceeds file size "@ + decimal(file.len())))
                    } else {
                        Ok((st.0, Some(n), n, st.3, ByteRange { start: st.4.start, end: (st.4.start + n) as usize }, st.5))
                    }
                }
            },
        },
    }
}

pub(crate) fn read_lazy_stream_metadata(file: &[u8], entries: &[LazyXrefEntry], reference: ObjectRef) -> (r: Result<PdfStream, PdfDebuggerError>)
    ensures
        stream_result(r, lazy_stream_metadata(file@, entries@, reference)),
        r matches Ok(s) ==> s.raw_range.start + s.actual_length <= file@.len(),
{
    let mut warnings: Vec<LazyPdfWarning> = Vec::new();
    let object = match read_lazy_object_from_file(file, entries, reference, &mut warnings) {
        Ok(o) => o,
        Err(e) => return Err(e),
    };
    let mut stream = match object.stream {
        Some(s) => s,
        None => return Err(PdfDebuggerError::StreamNotFound { reference }),
    };
    if stream.declared_length.is_none() {
        let lr = match stream.dictionary.get("Length") {
            Some(v) => v.as_reference(),
            None => None,
        };
        match lr {
            Some(lr) => {
                let lo = match read_lazy_object_from_file(file, entries, lr, &mut warnings) {
                    Ok(o) => o,
                    Err(e) => return Err(e),
                };
                stream.declared_length = lo.value.as_usize();
                if stream.declared_length.is_none() {
                    return Err(lazy_open_error(ref_ref_msg("stream ", reference, " has an indirect /Length ", lr, " that is not a non-negative integer")));
                }
            },
            None => {},
        }
    }
    let length = match stream.declared_length {
        Some(l) => l,
        None => return Err(lazy_open_error(ref_msg("stream ", reference, " does not have a numeric /Length; marker-based lazy stream reads are deferred"))),
    };
    stream.actual_length = length;
    if stream.raw_range.start > usize::MAX - length {
        return Err(lazy_open_error(ref_msg("stream ", reference, " /Length overflows byte range")));
    }
    stream.raw_range.end = stream.raw_range.start + length;
    let file_size = file.len();
    if stream.raw_range.end > file_size {
        let mut m = ref_msg("stream ", reference, " byte range ");
        push_decimal(&mut m, stream.raw_range.start);
        push_str(&mut m, "..");
        push_decimal(&mut m, stream.raw_range.end);
        push_str(&mut m, " exceeds file size ");
        push_decimal(&mut m, file_size);
        return Err(lazy_open_error(m));
    }
    Ok(stream)
}

/// The raw data of a stream whose range lies in the file.
pub open spec fn stream_data(file: Seq<u8>, st: StreamV) -> Seq<u8> {
    window(file, st.4.start as int, st.2 as int)
}

/// The raw data of a stream, for export: refused above the export limit.
pub open spec fn lazy_raw_bytes(file: Seq<u8>, entries: Seq<LazyXrefEntry>, reference: ObjectRef) -> Result<Seq<u8>, ErrorV> {
    match lazy_stream_metadata(file, entries, reference) {
        Err(e) => Err(e),
        Ok(st) => if st.2 > LAZY_STREAM_EXPORT_LIMIT {
            Err(ErrorV::LazyOpen("stream "@ + reference.spec_text() + " is "@ + decimal(st.2 as nat)
                + " bytes, above lazy raw export limit "@ + decimal(LAZY_STREAM_EXPORT_LIMIT as nat) + " bytes"@))
        } else {
            Ok(stream_data(file, st))
        },
    }
}

pub open spec fn bytes_result(r: Result<Vec<u8>, PdfDebuggerError>, s: Result<Seq<u8>, ErrorV>) -> bool {
    match s {
        Ok(v) => r matches Ok(x) && x@ == v,
        Err(e) => r matches Err(x) && x@ == e,
    }
}

/// Reads the raw data of a stream of a lazily opened document.
#[verifier::rlimit(40)]
pub fn read_lazy_stream_raw_bytes_with_document(document: &LazyPdfDocument, file: &[u8], reference: ObjectRef) -> (r: Result<Vec<u8>, PdfDebuggerError>)
    ensures
        bytes_result(r, lazy_raw_bytes(file@, document.xref.entries@, reference)),
{
    let stream = match read_lazy_stream_metadata(file, document.xref.entries.as_slice(), reference) {
        Ok(s) => s,
        Err(e) => return Err(e),
    };
    assert(lazy_stream_metadata(file@, document.xref.entries@, reference) == Ok::<StreamV, ErrorV>(stream@));
    if stream.actual_length > LAZY_STREAM_EXPORT_LIMIT {
        let mut m = ref_msg("stream ", reference, " is ");
        push_decimal(&mut m, stream.actual_length);
        push_str(&mut m, " bytes, above lazy raw export limit ");
        push_decimal(&mut m, LAZY_STREAM_EXPORT_LIMIT);
        push_str(&mut m, " bytes");
        return Err(lazy_open_error(m));
    }
    let raw = read_at(file, stream.raw_range.start, stream.actual_length);
    let out = copy_range(raw, 0, raw.len());
    assert(out@ =~= raw@);
    Ok(out)
}

/// The decoded data of a stream, for export: refused above the decode input
/// limit, and when a filter fails.
pub open spec fn lazy_decoded_bytes(file: Seq<u8>, entries: Seq<LazyXrefEntry>, reference: ObjectRef) -> Result<Seq<u8>, ErrorV> {
    match lazy_stream_metadata(file, entries, reference) {
        Err(e) => Err(e),
        Ok(st) => if st.2 > LAZY_STREAM_DECODE_INPUT_LIMIT {
            Err(ErrorV::LazyOpen("stream "@ + reference.spec_text() + " is "@ + decimal(st.2 as nat)
                + " bytes, above lazy decode input limit "@ + decimal(LAZY_STREAM_DECODE_INPUT_LIMIT as nat) + " bytes"@))
        } else {
            let (d, steps, issues) = spec_decode_chain(stream_data(file, st), st.3, Some(LAZY_STREAM_DECODE_EXPORT_LIMIT));
            if issues.len() > 0 {
                Err(ErrorV::StreamDecode(reference, issues_joined(issues)))
            } else {
                Ok(d)
            }
        },
    }
}

fn load_stream(stream: &PdfStream, raw: &[u8]) -> (r: PdfStream)
    ensures
        r@ == (stream@.0, stream@.1, stream@.2, stream@.3, stream@.4, raw@),
{
    let s = PdfStream {
        dictionary: stream.dictionary.deep_copy(),
        declared_length: stream.declared_length,
        actual_length: stream.actual_length,
        filters: crate::stream_decode::copy_strings(stream.filters.as_slice()),
        raw_range: stream.raw_range,
        raw_bytes: copy_range(raw, 0, raw.len()),
    };
    assert(s.raw_bytes@ =~= raw@);
    s
}

/// Reads and decodes the data of a stream of a lazily opened document.
pub fn read_lazy_stream_decoded_bytes_with_document(document: &LazyPdfDocument, file: &[u8], reference: ObjectRef) -> (r: Result<Vec<u8>, PdfDebuggerError>)
    ensures
        bytes_result(r, lazy_decoded_bytes(file@, document.xref.entries@, reference)),
{
    let stream = match read_lazy_stream_metadata(file, document.xref.entries.as_slice(), reference) {
        Ok(s) => s,
        Err(e) => return Err(e),
    };
    if stream.actual_length > LAZY_STREAM_DECODE_INPUT_LIMIT {
        let mut m = ref_msg("stream ", reference, " is ");
        push_decimal(&mut m, stream.actual_length);
        push_str(&mut m, " bytes, above lazy decode input limit ");
        push_decimal(&mut m, LAZY_STREAM_DECODE_INPUT_LIMIT);
        push_str(&mut m, " bytes");
        return Err(lazy_open_error(m));
    }
    let raw = read_at(file, stream.raw_range.start, stream.actual_length);
    let loaded = load_stream(&stream, raw);
    let decode = decode_stream_with_limit(&loaded, Some(LAZY_STREAM_DECODE_EXPORT_LIMIT));
    let ghost sd = spec_decode_chain(raw@, stream@.3, Some(LAZY_STREAM_DECODE_EXPORT_LIMIT));
    assert(issues_view(decode.issues@) =~= sd.2);
    if decode.has_issues() {
        let m = join_issue_lines(decode.issues.as_slice());
        return Err(PdfDebuggerError::StreamDecode { reference, message: m });
    }
    Ok(decode.decoded)
}

/// A stream with its data, for content analysis: refused above the decode
/// input limit.
pub open spec fn lazy_content_stream(file: Seq<u8>, entries: Seq<LazyXrefEntry>, reference: ObjectRef) -> Result<StreamV, ErrorV> {
    match lazy_stream_metadata(file, entries, reference) {
        Err(e) => Err(e),
        Ok(st) => if st.2 > LAZY_STREAM_DECODE_INPUT_LIMIT {
            Err(ErrorV::LazyOpen("content stream "@ + reference.spec_text() + " is "@ + decimal(st.2 as nat)
                + " bytes, above lazy content analysis input limit "@ + decimal(LAZY_STREAM_DECODE_INPUT_LIMIT as nat) + " bytes"@))
        } else {
            Ok((st.0, st.1, st.2, st.3, st.4, stream_data(file, st)))
        },
    }
}

/// Reads a stream of a lazily opened document with its data, for content
/// analysis.
pub fn read_lazy_stream_for_content_with_document(document: &LazyPdfDocument, file: &[u8], reference: ObjectRef) -> (r: Result<PdfStream, PdfDebuggerError>)
    ensures
        stream_result(r, lazy_content_stream(file@, document.xref.entries@, reference)),
{
    let stream = match read_lazy_stream_metadata(file, document.xref.entries.as_slice(), reference) {
        Ok(s) => s,
        Err(e) => return Err(e),
    };
    if stream.actual_length > LAZY_STREAM_DECODE_INPUT_LIMIT {
        let mut m = ref_msg("content stream ", reference, " is ");
        push_decimal(&mut m, stream.actual_length);
        push_str(&mut m, " bytes, above lazy content analysis input limit ");
        push_decimal(&mut m, LAZY_STREAM_DECODE_INPUT_LIMIT);
        push_str(&mut m, " bytes");
        return Err(lazy_open_error(m));
    }
    let raw = read_at(file, stream.raw_range.start, stream.actual_length);
    Ok(load_stream(&stream, raw))
}

/// Reads an object of a lazily opened document.
pub fn read_lazy_object_for_tree_with_document(document: &LazyPdfDocument, file: &[u8], reference: ObjectRef) -> (r: Result<PdfObject, PdfDebuggerError>)
    ensures
        object_result(r, read_object_spec(file@, document.xref.entries@, reference).0),
{
    let mut warnings: Vec<LazyPdfWarning> = Vec::new();
    read_lazy_object_from_file(file, document.xref.entries.as_slice(), reference, &mut warnings)
}

/// Inspects an object of a lazily opened document, without decoding its
/// stream data.
pub fn inspect_lazy_object_with_document(document: &LazyPdfDocument, file: &[u8], reference: ObjectRef) -> (r: Result<ObjectInspection, PdfDebuggerError>)
    ensures
        match read_object_spec(file@, document.xref.entries@, reference).0 {
            Ok(o) => r matches Ok(i) && inspection_matches(i, o, false),
            Err(e) => r matches Err(x) && x@ == e,
        },
{
    match read_lazy_object_for_tree_with_document(document, file, reference) {
        Ok(object) => Ok(inspect_object_shallow(&object)),
        Err(e) => Err(e),
    }
}

// ---------------------------------------------------------------------------
// Stream views
// ---------------------------------------------------------------------------

/// What the lazy reader shows of a stream: its lengths and range, previews
/// of its raw and decoded data, and what an export would allow.
#[derive(Debug)]
pub struct LazyStreamView {
    pub reference: ObjectRef,
    pub declared_length: Option<usize>,
    pub actual_length: usize,
    pub raw_range: ByteRange,
    pub filters: Vec<String>,
    pub decoded_length: Option<usize>,
    pub decode_steps: Vec<DecodeStep>,
    pub decode_issues: Vec<DecodeIssue>,
    pub warnings: Vec<LazyPdfWarning>,
    pub raw_text: String,
    pub raw_text_truncated: bool,
    pub hex_text: String,
    pub hex_text_truncated: bool,
    pub decoded_text: Option<String>,
    pub decoded_text_truncated: bool,
    pub decoded_error: Option<String>,
    pub preview_limit: usize,
    pub can_export_raw: bool,
    pub can_export_decoded: bool,
}

pub open spec fn min_int(a: int, b: int) -> int {
    if a < b { a } else { b }
}

/// How many bytes of a stream the view reads: all of it when it may be
/// decoded, else at most a preview.
pub open spec fn view_read_length(full: usize) -> int {
    if full <= LAZY_STREAM_DECODE_INPUT_LIMIT { full as int } else { min_int(full as int, LAZY_STREAM_PREVIEW_LIMIT as int) }
}

/// The raw bytes the view reads of a stream.
pub open spec fn view_raw(file: Seq<u8>, st: StreamV) -> Seq<u8> {
    window(file, st.4.start as int, view_read_length(st.2))
}

/// The raw bytes a view shows.
pub open spec fn view_shown(file: Seq<u8>, st: StreamV) -> Seq<u8> {
    let raw = view_raw(file, st);
    raw.take(min_int(raw.len() as int, LAZY_STREAM_PREVIEW_LIMIT as int))
}

/// The warnings a stream view holds, in order: a truncated raw preview, a
/// truncated decoded preview or a skipped decode, a refused raw export.
pub open spec fn view_warnings(file: Seq<u8>, st: StreamV) -> Seq<LazyWarningV> {
    let full = st.2;
    let start = st.4.start;
    let shown = view_shown(file, st);
    let (d, steps, issues) = spec_decode_chain(view_raw(file, st), st.3, Some(LAZY_STREAM_DECODE_OUTPUT_LIMIT));
    let w1: Seq<LazyWarningV> = if full > shown.len() {
        seq![("lazy.stream.preview_truncated"@, "Stream preview is truncated to "@ + decimal(LAZY_STREAM_PREVIEW_LIMIT as nat)
            + " bytes from "@ + decimal(full as nat) + " total bytes"@, Some(start))]
    } else {
        seq![]
    };
    let w2: Seq<LazyWarningV> = if full <= LAZY_STREAM_DECODE_INPUT_LIMIT {
        if issues.len() == 0 && d.len() > LAZY_STREAM_PREVIEW_LIMIT {
            seq![("lazy.stream.decoded_preview_truncated"@, "Decoded stream preview is truncated to "@
                + decimal(LAZY_STREAM_PREVIEW_LIMIT as nat) + " bytes from "@ + decimal(d.len()) + " decoded bytes"@, Some(start))]
        } else {
            seq![]
        }
    } else {
        seq![("lazy.stream.decode_preview_skipped"@, "Decoded preview skipped because raw stream length "@ + decimal(full as nat)
            + " exceeds lazy decode input limit "@ + decimal(LAZY_STREAM_DECODE_INPUT_LIMIT as nat), Some(start))]
    };
    let w3: Seq<LazyWarningV> = if full <= LAZY_STREAM_EXPORT_LIMIT {
        seq![]
    } else {
        seq![("lazy.stream.raw_export_limit"@, "Raw stream export is disabled because stream length "@ + decimal(full as nat)
            + " exceeds export limit "@ + decimal(LAZY_STREAM_EXPORT_LIMIT as nat), Some(start))]
    };
    w1 + w2 + w3
}

pub open spec fn skipped_decode_text() -> Seq<char> {
    "Decoded preview skipped because raw stream length exceeds "@ + decimal(LAZY_STREAM_DECODE_INPUT_LIMIT as nat) + " bytes"@
}

/// The view of the stream `st` (settled by `lazy_stream_metadata`) read from `file`.
pub open spec fn stream_view_matches(v: LazyStreamView, file: Seq<u8>, st: StreamV, reference: ObjectRef) -> bool {
    let full = st.2;
    let shown = view_shown(file, st);
    let (d, steps, issues) = spec_decode_chain(view_raw(file, st), st.3, Some(LAZY_STREAM_DECODE_OUTPUT_LIMIT));
    let dpl = min_int(d.len() as int, LAZY_STREAM_PREVIEW_LIMIT as int);
    &&& v.reference == reference
    &&& v.declared_length == st.1
    &&& v.actual_length == full
    &&& v.raw_range == st.4
    &&& string_views(v.filters@) == st.3
    &&& v.raw_text@ == utf8_lossy(shown)
    &&& v.raw_text_truncated == (full > shown.len())
    &&& v.hex_text@ == crate::stream_viewer::spec_hex_dump(shown)
    &&& v.hex_text_truncated == (full > shown.len())
    &&& lazy_warning_views(v.warnings@) == view_warnings(file, st)
    &&& v.preview_limit == LAZY_STREAM_PREVIEW_LIMIT
    &&& v.can_export_raw == (full <= LAZY_STREAM_EXPORT_LIMIT)
    &&& if full <= LAZY_STREAM_DECODE_INPUT_LIMIT {
        &&& v.decode_steps@.map_values(|s: DecodeStep| crate::stream_decode::step_view(s)) == steps
        &&& issues_view(v.decode_issues@) == issues
        &&& if issues.len() == 0 {
            &&& v.decoded_length == Some(d.len() as usize)
            &&& v.decoded_text matches Some(t) && t@ == utf8_lossy(d.take(dpl))
            &&& v.decoded_text_truncated == (d.len() > dpl)
            &&& v.decoded_error is None
            &&& v.can_export_decoded
        } else {
            &&& v.decoded_length is None
            &&& v.decoded_text is None
            &&& !v.decoded_text_truncated
            &&& v.decoded_error matches Some(e) && e@ == issues_joined(issues)
            &&& !v.can_export_decoded
        }
    } else {
        &&& v.decode_steps@.len() == 0
        &&& v.decode_issues@.len() == 0
        &&& v.decoded_length is None
        &&& v.decoded_text is None
        &&& !v.decoded_text_truncated
        &&& v.decoded_error matches Some(e) && e@ == skipped_decode_text()
        &&& !v.can_export_decoded
    }
}

fn push_limit_warning(warnings: &mut Vec<LazyPdfWarning>, rule_id: &str, a: &str, x: usize, b: &str, y: usize, c: &str, start: usize)
    ensures
        lazy_warning_views(final(warnings)@) == lazy_warning_views(old(warnings)@).push(
            (rule_id@, a@ + decimal(x as nat) + b@ + decimal(y as nat) + c@, Some(start))),
{
    let mut m = owned(a);
    push_decimal(&mut m, x);
    push_str(&mut m, b);
    push_decimal(&mut m, y);
    push_str(&mut m, c);
    push_lazy_warning(warnings, rule_id, m, Some(start));
}

fn push_open_limit_warning(warnings: &mut Vec<LazyPdfWarning>, rule_id: &str, a: &str, x: usize, b: &str, y: usize, start: usize)
    ensures
        lazy_warning_views(final(warnings)@) == lazy_warning_views(old(warnings)@).push(
            (rule_id@, a@ + decimal(x as nat) + b@ + decimal(y as nat), Some(start))),
{
    let mut m = owned(a);
    push_decimal(&mut m, x);
    push_str(&mut m, b);
    push_decimal(&mut m, y);
    push_lazy_warning(warnings, rule_id, m, Some(start));
}

#[verifier::rlimit(60)]
fn build_stream_view(file: &[u8], stream: PdfStream, reference: ObjectRef) -> (v: LazyStreamView)
    requires
        stream.raw_range.start + stream.actual_length <= file@.len(),
    ensures
        stream_view_matches(v, file@, stream@, reference),
{
    let ghost st = stream@;
    let full = stream.actual_length;
    let start = stream.raw_range.start;
    let read_full = full <= LAZY_STREAM_DECODE_INPUT_LIMIT;
    let read_length = if read_full { full } else if full < LAZY_STREAM_PREVIEW_LIMIT { full } else { LAZY_STREAM_PREVIEW_LIMIT };
    let raw = read_at(file, start, read_length);
    assert(raw@ == view_raw(file@, st));
    assert(raw@.len() == read_length);
    let rpl = if raw.len() < LAZY_STREAM_PREVIEW_LIMIT { raw.len() } else { LAZY_STREAM_PREVIEW_LIMIT };
    let shown = vstd::slice::slice_subrange(raw, 0, rpl);
    assert(shown@ =~= view_shown(file@, st));
    let raw_text = lossy_string(shown);
    let raw_text_truncated = full > rpl;
    let hex_text = crate::stream_viewer::hex_dump(shown);
    let mut warnings: Vec<LazyPdfWarning> = Vec::new();
    if raw_text_truncated {
        push_limit_warning(&mut warnings, "lazy.stream.preview_truncated", "Stream preview is truncated to ",
            LAZY_STREAM_PREVIEW_LIMIT, " bytes from ", full, " total bytes", start);
    }
    let ghost w1 = lazy_warning_views(warnings@);
    let loaded = load_stream(&stream, raw);
    let decode = decode_stream_with_limit(&loaded, Some(LAZY_STREAM_DECODE_OUTPUT_LIMIT));
    let ghost sd = spec_decode_chain(raw@, st.3, Some(LAZY_STREAM_DECODE_OUTPUT_LIMIT));
    let mut decoded_length: Option<usize> = None;
    let mut decoded_text: Option<String> = None;
    let mut decoded_text_truncated = false;
    let mut decoded_error: Option<String> = None;
    let mut decode_steps: Vec<DecodeStep> = Vec::new();
    let mut decode_issues: Vec<DecodeIssue> = Vec::new();
    let mut clean = true;
    if read_full {
        assert(issues_view(decode.issues@) =~= sd.2);
        let has_issues = decode.has_issues();
        clean = !has_issues;
        decoded_length = if has_issues { None } else { Some(decode.decoded_length) };
        if has_issues {
            decoded_error = Some(join_issue_lines(decode.issues.as_slice()));
        } else {
            let dl = decode.decoded.len();
            let dpl = if dl < LAZY_STREAM_PREVIEW_LIMIT { dl } else { LAZY_STREAM_PREVIEW_LIMIT };
            let dshown = vstd::slice::slice_subrange(decode.decoded.as_slice(), 0, dpl);
            assert(dshown@ =~= sd.0.take(dpl as int));
            decoded_text = Some(lossy_string(dshown));
            decoded_text_truncated = dl > dpl;
            if decoded_text_truncated {
                push_limit_warning(&mut warnings, "lazy.stream.decoded_preview_truncated", "Decoded stream preview is truncated to ",
                    LAZY_STREAM_PREVIEW_LIMIT, " bytes from ", dl, " decoded bytes", start);
            }
        }
        decode_steps = decode.steps;
        decode_issues = decode.issues;
    } else {
        push_open_limit_warning(&mut warnings, "lazy.stream.decode_preview_skipped", "Decoded preview skipped because raw stream length ",
            full, " exceeds lazy decode input limit ", LAZY_STREAM_DECODE_INPUT_LIMIT, start);
        let mut m = owned("Decoded preview skipped because raw stream length exceeds ");
        push_decimal(&mut m, LAZY_STREAM_DECODE_INPUT_LIMIT);
        push_str(&mut m, " bytes");
        decoded_error = Some(m);
    }
    let ghost w2 = lazy_warning_views(warnings@);
    let can_export_raw = full <= LAZY_STREAM_EXPORT_LIMIT;
    if !can_export_raw {
        push_open_limit_warning(&mut warnings, "lazy.stream.raw_export_limit", "Raw stream export is disabled because stream length ",
            full, " exceeds export limit ", LAZY_STREAM_EXPORT_LIMIT, start);
    }
    let can_export_decoded = read_full && clean;
    proof {
        assert(lazy_warning_views(warnings@) =~= view_warnings(file@, st));
    }
    LazyStreamView {
        reference,
        declared_length: stream.declared_length,
        actual_length: full,
        raw_range: stream.raw_range,
        filters: stream.filters,
        decoded_length,
        decode_steps,
        decode_issues,
        warnings,
        raw_text,
        raw_text_truncated,
        hex_text,
        hex_text_truncated: raw_text_truncated,
        decoded_text,
        decoded_text_truncated,
        decoded_error,
        preview_limit: LAZY_STREAM_PREVIEW_LIMIT,
        can_export_raw,
        can_export_decoded,
    }
}

/// Views a stream of a lazily opened document.
pub fn view_lazy_stream_with_document(document: &LazyPdfDocument, file: &[u8], reference: ObjectRef) -> (r: Result<LazyStreamView, PdfDebuggerError>)
    ensures
        match lazy_stream_metadata(file@, document.xref.entries@, reference) {
            Ok(st) => r matches Ok(v) && stream_view_matches(v, file@, st, reference),
            Err(e) => r matches Err(x) && x@ == e,
        },
{
    match read_lazy_stream_metadata(file, document.xref.entries.as_slice(), reference) {
        Ok(stream) => Ok(build_stream_view(file, stream, reference)),
        Err(e) => Err(e),
    }
}

} // verus!
