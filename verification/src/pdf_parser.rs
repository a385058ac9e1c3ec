//! The PDF file parser: byte scanning, values, indirect objects, cross
//! reference sections and object streams.
use vstd::prelude::*;
use crate::content_ops::{
    all_digits, decode_name, decode_name_bytes, is_float_text, is_number, scan_delimiter, scan_to_delim,
    skip_whitespace, skip_ws_from,
};
use crate::pdf_model::{
    ByteRange, ObjectRef, ParseWarning, PdfDictionary, PdfNumber, PdfObject, PdfStream, PdfValue, ValueView, dict_get,
    dict_insert, keys_sorted, view_usize,
};
use crate::stream_decode::{filter_names, filter_names_from_dictionary};
use crate::stream_viewer::{issues_joined, issues_view, join_issue_lines, name_under};
use crate::stream_decode::{decode_result_matches, decode_stream_with_limit, spec_decode_chain};
use crate::value_views::{ObjectV, StreamV, WarningV, warning_views};
use crate::objects::{keeps_objects, lemma_get_at, lemma_put_absent_keeps, entries_get, entries_put, entries_put_absent, entries_sorted, insert_entry, find_object, insert_object, insert_object_if_absent, object_views, objects_get, objects_put, objects_put_absent, refs_sorted};
use crate::pdf_model::{PdfMetadata, ParsedPdf, XrefEntry, view_dictionary, view_reference};
use crate::summary::value_summary;
use crate::text::string_views;
use crate::text::{decimal, push_decimal};
use crate::pdf_string::{decode_pdf_string, spec_decode_pdf_string};
use crate::value_views::value_views;
use crate::text::{
    ascii_digit, ascii_string, ascii_whitespace, copy_range, is_digit, is_ws, latin1, lossy_string, owned, push_char,
    push_str, str_eq, utf8_lossy,
};

verus! {

// ---------------------------------------------------------------------------
// Substring search
// ---------------------------------------------------------------------------

/// `needle` occurs in `haystack` at index `i`.
pub open spec fn occurs_at(haystack: Seq<u8>, needle: Seq<u8>, i: int) -> bool {
    0 <= i && i + needle.len() <= haystack.len() && haystack.subrange(i, i + needle.len()) == needle
}

/// `r` is the index of the first occurrence, or `None` when there is none.
pub open spec fn is_first_occurrence(haystack: Seq<u8>, needle: Seq<u8>, r: Option<usize>) -> bool {
    match r {
        Some(i) => occurs_at(haystack, needle, i as int)
            && forall|j: int| 0 <= j < i ==> !#[trigger] occurs_at(haystack, needle, j),
        None => forall|j: int| !#[trigger] occurs_at(haystack, needle, j),
    }
}

/// `r` is the index of the last occurrence, or `None` when there is none.
pub open spec fn is_last_occurrence(haystack: Seq<u8>, needle: Seq<u8>, r: Option<usize>) -> bool {
    match r {
        Some(i) => occurs_at(haystack, needle, i as int)
            && forall|j: int| i < j ==> !#[trigger] occurs_at(haystack, needle, j),
        None => forall|j: int| !#[trigger] occurs_at(haystack, needle, j),
    }
}

/// Calls `memchr::memmem::find`, which its documentation describes as
/// returning the index of the first occurrence of the needle in the haystack.
/// The contract claims exactly that.
#[verifier::external_body]
fn memmem_find(haystack: &[u8], needle: &[u8]) -> (r: Option<usize>)
    ensures
        is_first_occurrence(haystack@, needle@, r),
{
    memchr::memmem::find(haystack, needle)
}

/// Calls `memchr::memmem::rfind`, which its documentation describes as
/// returning the index of the last occurrence of the needle in the haystack.
/// The contract claims exactly that.
#[verifier::external_body]
fn memmem_rfind(haystack: &[u8], needle: &[u8]) -> (r: Option<usize>)
    ensures
        is_last_occurrence(haystack@, needle@, r),
{
    memchr::memmem::rfind(haystack, needle)
}

/// The first index of `needle` in `haystack`; an empty needle is found at 0.
pub(crate) fn find_subslice(haystack: &[u8], needle: &[u8]) -> (r: Option<usize>)
    ensures
        is_first_occurrence(haystack@, needle@, r),
{
    if needle.len() == 0 {
        assert(haystack@.subrange(0, 0) =~= needle@);
        return Some(0);
    }
    memmem_find(haystack, needle)
}

/// `r` is the first occurrence at or after `from`, or `None` when there is none there.
pub open spec fn is_first_occurrence_from(haystack: Seq<u8>, needle: Seq<u8>, from: int, r: Option<usize>) -> bool {
    match r {
        Some(i) => from <= i && occurs_at(haystack, needle, i as int)
            && forall|j: int| from <= j < i ==> !#[trigger] occurs_at(haystack, needle, j),
        None => forall|j: int| from <= j ==> !#[trigger] occurs_at(haystack, needle, j),
    }
}

/// The first index at or after `from` where `needle` occurs.
fn find_from(haystack: &[u8], from: usize, needle: &[u8]) -> (r: Option<usize>)
    requires
        from <= haystack@.len(),
    ensures
        is_first_occurrence_from(haystack@, needle@, from as int, r),
{
    let tail = vstd::slice::slice_subrange(haystack, from, haystack.len());
    let found = find_subslice(tail, needle);
    proof {
        assert forall|k: int| 0 <= k implies #[trigger] occurs_at(tail@, needle@, k) == occurs_at(haystack@, needle@, from + k) by {
            if k + needle@.len() <= tail@.len() {
                assert(tail@.subrange(k, k + needle@.len()) =~= haystack@.subrange(from + k, from + k + needle@.len()));
            }
        }
    }
    match found {
        Some(rel) => {
            proof {
                assert(occurs_at(tail@, needle@, rel as int));
                assert forall|j: int| from <= j < from + rel implies !#[trigger] occurs_at(haystack@, needle@, j) by {
                    assert(!occurs_at(tail@, needle@, j - from));
                }
            }
            Some(from + rel)
        },
        None => {
            proof {
                assert forall|j: int| from <= j implies !#[trigger] occurs_at(haystack@, needle@, j) by {
                    assert(!occurs_at(tail@, needle@, j - from));
                }
            }
            None
        },
    }
}

/// Whether `lit` occurs at `pos`.
pub(crate) fn starts_with_at(input: &[u8], pos: usize, lit: &[u8]) -> (r: bool)
    ensures
        r == occurs_at(input@, lit@, pos as int),
{
    if pos > input.len() || lit.len() > input.len() - pos {
        return false;
    }
    let n = input.len();
    let mut k: usize = 0;
    while k < lit.len()
        invariant
            n == input@.len(),
            pos + lit@.len() <= n,
            k <= lit@.len(),
            forall|j: int| 0 <= j < k ==> input@[pos + j] == lit@[j],
        decreases lit@.len() - k,
    {
        if input[pos + k] != lit[k] {
            assert(input@.subrange(pos as int, pos + lit@.len())[k as int] != lit@[k as int]);
            return false;
        }
        k = k + 1;
    }
    assert(input@.subrange(pos as int, pos + lit@.len()) =~= lit@);
    true
}

// ---------------------------------------------------------------------------
// Whitespace, comments and lines
// ---------------------------------------------------------------------------

/// The position after whitespace and `%` comments from `pos`; `in_comment`
/// says the scan is inside a comment, which ends at a line break.
pub open spec fn skip_wsc(b: Seq<u8>, pos: int, in_comment: bool) -> int
    decreases b.len() - pos, (if in_comment { 1int } else { 0int }),
{
    if pos < 0 || pos >= b.len() {
        pos
    } else if in_comment {
        if b[pos] == 0x0au8 || b[pos] == 0x0du8 { skip_wsc(b, pos, false) } else { skip_wsc(b, pos + 1, true) }
    } else if is_ws(b[pos]) {
        skip_wsc(b, pos + 1, false)
    } else if b[pos] == 0x25u8 {
        skip_wsc(b, pos + 1, true)
    } else {
        pos
    }
}

pub proof fn lemma_skip_wsc_bounds(b: Seq<u8>, pos: int, in_comment: bool)
    requires
        0 <= pos,
    ensures
        pos <= skip_wsc(b, pos, in_comment),
        pos <= b.len() ==> skip_wsc(b, pos, in_comment) <= b.len(),
    decreases b.len() - pos, (if in_comment { 1int } else { 0int }),
{
    if pos < b.len() {
        if in_comment {
            if b[pos] == 0x0au8 || b[pos] == 0x0du8 {
                lemma_skip_wsc_bounds(b, pos, false);
            } else {
                lemma_skip_wsc_bounds(b, pos + 1, true);
            }
        } else if is_ws(b[pos]) {
            lemma_skip_wsc_bounds(b, pos + 1, false);
        } else if b[pos] == 0x25u8 {
            lemma_skip_wsc_bounds(b, pos + 1, true);
        }
    }
}

/// Skips whitespace and comments.
pub(crate) fn skip_whitespace_and_comments(input: &[u8], pos: usize) -> (r: usize)
    ensures
        r == skip_wsc(input@, pos as int, false),
        pos <= r,
        pos <= input@.len() ==> r <= input@.len(),
{
    proof {
        lemma_skip_wsc_bounds(input@, pos as int, false);
    }
    let mut p = pos;
    let mut in_comment = false;
    while p < input.len()
        invariant
            pos <= p,
            skip_wsc(input@, pos as int, false) == skip_wsc(input@, p as int, in_comment),
        decreases input@.len() - p, (if in_comment { 1int } else { 0int }),
    {
        let c = input[p];
        if in_comment {
            if c == 0x0a || c == 0x0d {
                in_comment = false;
            } else {
                p = p + 1;
            }
        } else if ascii_whitespace(c) {
            p = p + 1;
        } else if c == 0x25 {
            in_comment = true;
            p = p + 1;
        } else {
            return p;
        }
    }
    p
}

/// Skips ASCII whitespace; a position past the end stays as it is.
pub(crate) fn skip_ascii_whitespace(input: &[u8], pos: usize) -> (r: usize)
    ensures
        r == skip_ws_from(input@, pos as int),
        pos <= r,
        pos <= input@.len() ==> r <= input@.len(),
{
    if pos > input.len() {
        return pos;
    }
    skip_whitespace(input, pos)
}

/// The first line feed or carriage return at or after `pos`, or the end.
pub open spec fn line_end_from(b: Seq<u8>, pos: int) -> int
    decreases b.len() - pos,
{
    if 0 <= pos < b.len() && b[pos] != 0x0au8 && b[pos] != 0x0du8 { line_end_from(b, pos + 1) } else { pos }
}

pub proof fn lemma_line_end_bounds(b: Seq<u8>, pos: int)
    requires
        0 <= pos <= b.len(),
    ensures
        pos <= line_end_from(b, pos) <= b.len(),
        forall|k: int| pos <= k < line_end_from(b, pos) ==> b[k] != 0x0au8 && b[k] != 0x0du8,
    decreases b.len() - pos,
{
    if pos < b.len() && b[pos] != 0x0au8 && b[pos] != 0x0du8 {
        lemma_line_end_bounds(b, pos + 1);
    }
}

pub(crate) fn line_end(bytes: &[u8], start: usize) -> (r: usize)
    requires
        start <= bytes@.len(),
    ensures
        r == line_end_from(bytes@, start as int),
        start <= r <= bytes@.len(),
{
    proof {
        lemma_line_end_bounds(bytes@, start as int);
    }
    let mut p = start;
    while p < bytes.len() && bytes[p] != 0x0a && bytes[p] != 0x0d
        invariant
            start <= p <= bytes@.len(),
            line_end_from(bytes@, start as int) == line_end_from(bytes@, p as int),
        decreases bytes@.len() - p,
    {
        p = p + 1;
    }
    p
}

/// `pos` opens a line: it is the first byte or follows a line break.
pub open spec fn at_line_start(b: Seq<u8>, pos: int) -> bool {
    pos == 0 || (0 <= pos - 1 < b.len() && (b[pos - 1] == 0x0au8 || b[pos - 1] == 0x0du8))
}

fn is_line_start(bytes: &[u8], pos: usize) -> (r: bool)
    ensures
        r == at_line_start(bytes@, pos as int),
{
    pos == 0 || (pos - 1 < bytes.len() && (bytes[pos - 1] == 0x0a || bytes[pos - 1] == 0x0d))
}

/// Skips lines holding only whitespace; stops at the first other line, or
/// past the end of the data (one past the last line break, saturating).
pub open spec fn skip_blank(b: Seq<u8>, cursor: int) -> int
    decreases b.len() - cursor,
{
    if cursor < 0 || cursor >= b.len() {
        cursor
    } else {
        let end = line_end_from(b, cursor);
        proof {
            lemma_line_end_bounds(b, cursor);
        }
        let next = if end + 1 > usize::MAX { usize::MAX as int } else { end + 1 };
        if forall|k: int| cursor <= k < end ==> is_ws(#[trigger] b[k]) {
            if next <= cursor || next >= b.len() { next } else { skip_blank(b, next) }
        } else {
            cursor
        }
    }
}

pub(crate) fn skip_blank_lines(bytes: &[u8], cursor: usize) -> (r: usize)
    requires
        cursor <= bytes@.len(),
    ensures
        r == skip_blank(bytes@, cursor as int),
        cursor <= r,
{
    let mut c = cursor;
    while c < bytes.len()
        invariant
            cursor <= c,
            skip_blank(bytes@, cursor as int) == skip_blank(bytes@, c as int),
        decreases bytes@.len() + 1 - c,
    {
        let end = line_end(bytes, c);
        let mut k = c;
        let mut blank = true;
        while k < end
            invariant
                c <= k <= end <= bytes@.len(),
                blank == forall|j: int| c <= j < k ==> is_ws(#[trigger] bytes@[j]),
            decreases end - k,
        {
            if !ascii_whitespace(bytes[k]) {
                blank = false;
            }
            k = k + 1;
        }
        if !blank {
            return c;
        }
        c = if end < usize::MAX { end + 1 } else { end };
    }
    c
}

// ---------------------------------------------------------------------------
// Unsigned decimal numbers
// ---------------------------------------------------------------------------

/// The first position at or after `pos` that is not an ASCII digit.
pub open spec fn digits_end(b: Seq<u8>, pos: int) -> int
    decreases b.len() - pos,
{
    if 0 <= pos < b.len() && is_digit(b[pos]) { digits_end(b, pos + 1) } else { pos }
}

/// The value of a run of ASCII digits.
pub open spec fn digits_value(d: Seq<u8>) -> nat
    decreases d.len(),
{
    if d.len() == 0 { 0 } else { digits_value(d.drop_last()) * 10 + (d.last() - 48) as nat }
}

/// The digits at `pos` and the position after them, when there is at least
/// one digit and the value is at most `max`.
pub open spec fn digits_at(b: Seq<u8>, pos: int, max: nat) -> Option<(nat, int)> {
    let e = digits_end(b, pos);
    if e > pos && digits_value(b.subrange(pos, e)) <= max { Some((digits_value(b.subrange(pos, e)), e)) } else { None }
}

pub proof fn lemma_digits_end_bounds(b: Seq<u8>, pos: int)
    requires
        0 <= pos,
    ensures
        pos <= digits_end(b, pos),
        pos <= b.len() ==> digits_end(b, pos) <= b.len(),
        forall|k: int| pos <= k < digits_end(b, pos) ==> is_digit(#[trigger] b[k]),
        digits_end(b, pos) < b.len() ==> !is_digit(b[digits_end(b, pos)]),
    decreases b.len() - pos,
{
    if 0 <= pos < b.len() && is_digit(b[pos]) {
        lemma_digits_end_bounds(b, pos + 1);
    }
}

/// A prefix of a run of digits is worth no more than the whole run.
proof fn lemma_digits_value_prefix(d: Seq<u8>, k: int)
    requires
        0 <= k <= d.len(),
        all_digits(d),
    ensures
        digits_value(d.take(k)) <= digits_value(d),
    decreases d.len(),
{
    if k < d.len() {
        let t = d.drop_last();
        assert(t.take(k) =~= d.take(k));
        assert(all_digits(t));
        lemma_digits_value_prefix(t, k);
    } else {
        assert(d.take(k) =~= d);
    }
}

/// Reads an unsigned decimal number at `pos` into a `u32`.
fn parse_u32_at(bytes: &[u8], pos: &mut usize) -> (r: Option<u32>)
    ensures
        match digits_at(bytes@, *old(pos) as int, u32::MAX as nat) {
            Some((v, e)) => r == Some(v as u32) && *final(pos) == e,
            None => r is None,
        },
        *old(pos) <= *final(pos),
{
    let start = *pos;
    proof {
        lemma_digits_end_bounds(bytes@, start as int);
    }
    let ghost e = digits_end(bytes@, start as int);
    let mut value: u32 = 0;
    while *pos < bytes.len() && ascii_digit(bytes[*pos])
        invariant
            start == *old(pos),
            start <= *pos,
            start <= bytes@.len() ==> *pos <= bytes@.len(),
            *pos <= e,
            e == digits_end(bytes@, start as int),
            digits_end(bytes@, *pos as int) == e,
            *pos > start ==> value == digits_value(bytes@.subrange(start as int, *pos as int)),
            *pos == start ==> value == 0,
            start <= bytes@.len() ==> e <= bytes@.len(),
            forall|k: int| start <= k < e ==> is_digit(#[trigger] bytes@[k]),
            e < bytes@.len() ==> !is_digit(bytes@[e]),
        decreases bytes@.len() - *pos,
    {
        let d = (bytes[*pos] - 48) as u32;
        let ghost prefix = bytes@.subrange(start as int, *pos + 1);
        assert(prefix.drop_last() =~= bytes@.subrange(start as int, *pos as int));
        assert(prefix.last() == bytes@[*pos as int]);
        assert(prefix.len() > 0);
        assert(digits_value(prefix) == digits_value(prefix.drop_last()) * 10 + (prefix.last() - 48) as nat);
        assert(digits_value(prefix) == value * 10 + d) by {
            if *pos == start {
                assert(prefix.drop_last() =~= Seq::<u8>::empty());
                assert(digits_value(prefix.drop_last()) == 0);
            }
        }
        let m = value.checked_mul(10);
        if m.is_none() {
            proof {
                let whole = bytes@.subrange(start as int, e);
                assert forall|i: int| 0 <= i < whole.len() implies 0x30u8 <= #[trigger] whole[i] <= 0x39u8 by {
                    assert(whole[i] == bytes@[start + i]);
                    assert(is_digit(bytes@[start + i]));
                }
                lemma_digits_value_prefix(whole, *pos + 1 - start);
                assert(whole.take(*pos + 1 - start) =~= prefix);
            }
            return None;
        }
        let a = m.unwrap().checked_add(d);
        if a.is_none() {
            proof {
                let whole = bytes@.subrange(start as int, e);
                assert forall|i: int| 0 <= i < whole.len() implies 0x30u8 <= #[trigger] whole[i] <= 0x39u8 by {
                    assert(whole[i] == bytes@[start + i]);
                    assert(is_digit(bytes@[start + i]));
                }
                lemma_digits_value_prefix(whole, *pos + 1 - start);
                assert(whole.take(*pos + 1 - start) =~= prefix);
            }
            return None;
        }
        value = a.unwrap();
        *pos = *pos + 1;
    }
    if *pos > start {
        Some(value)
    } else {
        None
    }
}

/// Reads an unsigned decimal number at `pos` into a `usize`.
pub(crate) fn parse_usize_at(bytes: &[u8], pos: &mut usize) -> (r: Option<usize>)
    ensures
        match digits_at(bytes@, *old(pos) as int, usize::MAX as nat) {
            Some((v, e)) => r == Some(v as usize) && *final(pos) == e,
            None => r is None,
        },
        *old(pos) <= *final(pos),
{
    let start = *pos;
    proof {
        lemma_digits_end_bounds(bytes@, start as int);
    }
    let ghost e = digits_end(bytes@, start as int);
    let mut value: usize = 0;
    while *pos < bytes.len() && ascii_digit(bytes[*pos])
        invariant
            start == *old(pos),
            start <= *pos,
            start <= bytes@.len() ==> *pos <= bytes@.len(),
            *pos <= e,
            e == digits_end(bytes@, start as int),
            digits_end(bytes@, *pos as int) == e,
            *pos > start ==> value == digits_value(bytes@.subrange(start as int, *pos as int)),
            *pos == start ==> value == 0,
            start <= bytes@.len() ==> e <= bytes@.len(),
            forall|k: int| start <= k < e ==> is_digit(#[trigger] bytes@[k]),
            e < bytes@.len() ==> !is_digit(bytes@[e]),
        decreases bytes@.len() - *pos,
    {
        let d = (bytes[*pos] - 48) as usize;
        let ghost prefix = bytes@.subrange(start as int, *pos + 1);
        assert(prefix.drop_last() =~= bytes@.subrange(start as int, *pos as int));
        assert(prefix.last() == bytes@[*pos as int]);
        assert(prefix.len() > 0);
        assert(digits_value(prefix) == digits_value(prefix.drop_last()) * 10 + (prefix.last() - 48) as nat);
        assert(digits_value(prefix) == value * 10 + d) by {
            if *pos == start {
                assert(prefix.drop_last() =~= Seq::<u8>::empty());
                assert(digits_value(prefix.drop_last()) == 0);
            }
        }
        let m = value.checked_mul(10);
        if m.is_none() {
            proof {
                let whole = bytes@.subrange(start as int, e);
                assert forall|i: int| 0 <= i < whole.len() implies 0x30u8 <= #[trigger] whole[i] <= 0x39u8 by {
                    assert(whole[i] == bytes@[start + i]);
                    assert(is_digit(bytes@[start + i]));
                }
                lemma_digits_value_prefix(whole, *pos + 1 - start);
                assert(whole.take(*pos + 1 - start) =~= prefix);
            }
            return None;
        }
        let a = m.unwrap().checked_add(d);
        if a.is_none() {
            proof {
                let whole = bytes@.subrange(start as int, e);
                assert forall|i: int| 0 <= i < whole.len() implies 0x30u8 <= #[trigger] whole[i] <= 0x39u8 by {
                    assert(whole[i] == bytes@[start + i]);
                    assert(is_digit(bytes@[start + i]));
                }
                lemma_digits_value_prefix(whole, *pos + 1 - start);
                assert(whole.take(*pos + 1 - start) =~= prefix);
            }
            return None;
        }
        value = a.unwrap();
        *pos = *pos + 1;
    }
    if *pos > start {
        Some(value)
    } else {
        None
    }
}

/// Reads an unsigned decimal number at `pos` into a `u16` (through `u32`).
fn parse_u16_at(bytes: &[u8], pos: &mut usize) -> (r: Option<u16>)
    ensures
        match digits_at(bytes@, *old(pos) as int, u16::MAX as nat) {
            Some((v, e)) => r == Some(v as u16) && *final(pos) == e,
            None => r is None,
        },
        *old(pos) <= *final(pos),
{
    let v = parse_u32_at(bytes, pos);
    match v {
        Some(x) => {
            if x <= 0xffff {
                Some(x as u16)
            } else {
                None
            }
        },
        None => None,
    }
}

/// The digits of an unsigned number as `str::parse` reads it: one leading
/// `+` is allowed.
pub open spec fn unsigned_digits(b: Seq<u8>) -> Seq<u8> {
    if b.len() > 0 && b[0] == 0x2bu8 { b.drop_first() } else { b }
}

/// The value of one or more digits (no sign) when it is at most `max`.
pub open spec fn parse_digits_only(d: Seq<u8>, max: nat) -> Option<nat> {
    if d.len() > 0 && all_digits(d) && digits_value(d) <= max { Some(digits_value(d)) } else { None }
}

/// What `str::parse` gives for an unsigned integer type whose largest value
/// is `max`: the value of an optional `+` and one or more digits.
pub open spec fn parse_unsigned(b: Seq<u8>, max: nat) -> Option<nat> {
    parse_digits_only(unsigned_digits(b), max)
}

/// Reading digits from `start` to the very end is reading the whole tail.
proof fn lemma_digits_at_whole(b: Seq<u8>, start: int, max: nat)
    requires
        0 <= start <= b.len(),
    ensures
        parse_digits_only(b.skip(start), max) == match digits_at(b, start, max) {
            Some((v, e)) => if e == b.len() { Some(v) } else { None },
            None => None,
        },
{
    lemma_digits_end_bounds(b, start);
    let e = digits_end(b, start);
    let d = b.skip(start);
    if e < b.len() {
        assert(!is_digit(d[e - start]));
    } else if e > start {
        assert(b.subrange(start, e) =~= d);
    }
}

pub(crate) fn parse_u32(bytes: &[u8]) -> (r: Option<u32>)
    ensures
        match parse_unsigned(bytes@, u32::MAX as nat) {
            Some(v) => r == Some(v as u32),
            None => r is None,
        },
{
    let start: usize = if bytes.len() > 0 && bytes[0] == 0x2b { 1 } else { 0 };
    let mut pos = start;
    let v = parse_u32_at(bytes, &mut pos);
    proof {
        lemma_digits_at_whole(bytes@, start as int, u32::MAX as nat);
        assert(unsigned_digits(bytes@) =~= bytes@.skip(start as int));
    }
    if pos == bytes.len() {
        v
    } else {
        None
    }
}

pub(crate) fn parse_u16(bytes: &[u8]) -> (r: Option<u16>)
    ensures
        match parse_unsigned(bytes@, u16::MAX as nat) {
            Some(v) => r == Some(v as u16),
            None => r is None,
        },
{
    let start: usize = if bytes.len() > 0 && bytes[0] == 0x2b { 1 } else { 0 };
    let mut pos = start;
    let v = parse_u16_at(bytes, &mut pos);
    proof {
        lemma_digits_at_whole(bytes@, start as int, u16::MAX as nat);
        assert(unsigned_digits(bytes@) =~= bytes@.skip(start as int));
    }
    if pos == bytes.len() {
        v
    } else {
        None
    }
}

pub(crate) fn parse_usize(bytes: &[u8]) -> (r: Option<usize>)
    ensures
        match parse_unsigned(bytes@, usize::MAX as nat) {
            Some(v) => r == Some(v as usize),
            None => r is None,
        },
{
    let start: usize = if bytes.len() > 0 && bytes[0] == 0x2b { 1 } else { 0 };
    let mut pos = start;
    let v = parse_usize_at(bytes, &mut pos);
    proof {
        lemma_digits_at_whole(bytes@, start as int, usize::MAX as nat);
        assert(unsigned_digits(bytes@) =~= bytes@.skip(start as int));
    }
    if pos == bytes.len() {
        v
    } else {
        None
    }
}


// ---------------------------------------------------------------------------
// Values
// ---------------------------------------------------------------------------

pub proof fn lemma_scan_to_delim_bounds(b: Seq<u8>, pos: int)
    requires
        0 <= pos <= b.len(),
    ensures
        pos <= scan_to_delim(b, pos) <= b.len(),
    decreases b.len() - pos,
{
    if pos < b.len() && !crate::text::is_delim(b[pos]) {
        lemma_scan_to_delim_bounds(b, pos + 1);
    }
}

/// A character with Unicode's White_Space property (what `char::is_whitespace` tests).
pub open spec fn is_unicode_ws(c: char) -> bool {
    let v = c as u32;
    (0x09 <= v <= 0x0d) || v == 0x20 || v == 0x85 || v == 0xa0 || v == 0x1680 || (0x2000 <= v <= 0x200a)
        || v == 0x2028 || v == 0x2029 || v == 0x202f || v == 0x205f || v == 0x3000
}

/// The characters that are not whitespace, in order.
pub open spec fn without_whitespace(t: Seq<char>) -> Seq<char>
    decreases t.len(),
{
    if t.len() == 0 {
        seq![]
    } else if is_unicode_ws(t.last()) {
        without_whitespace(t.drop_last())
    } else {
        without_whitespace(t.drop_last()).push(t.last())
    }
}

fn unicode_whitespace(c: char) -> (r: bool)
    ensures
        r == is_unicode_ws(c),
{
    let v = c as u32;
    (0x09 <= v && v <= 0x0d) || v == 0x20 || v == 0x85 || v == 0xa0 || v == 0x1680 || (0x2000 <= v && v <= 0x200a)
        || v == 0x2028 || v == 0x2029 || v == 0x202f || v == 0x205f || v == 0x3000
}

fn remove_whitespace(text: &str) -> (r: String)
    ensures
        r@ == without_whitespace(text@),
{
    broadcast use vstd::string::group_string_axioms;
    let mut out = String::new();
    for c in it: text.chars()
        invariant
            it.seq() == text@,
            out@ == without_whitespace(text@.take(it.index() as int)),
    {
        let ghost i = it.index() as int;
        assert(text@.take(i + 1).drop_last() =~= text@.take(i));
        assert(text@.take(i + 1).last() == c);
        if !unicode_whitespace(c) {
            push_char(&mut out, c);
        }
    }
    assert(text@.take(text@.len() as int) =~= text@);
    out
}

/// The first `>` at or after `pos`, or the end.
pub open spec fn gt_from(b: Seq<u8>, pos: int) -> int
    decreases b.len() - pos,
{
    if 0 <= pos < b.len() && b[pos] != 0x3eu8 { gt_from(b, pos + 1) } else { pos }
}

pub proof fn lemma_gt_from_bounds(b: Seq<u8>, pos: int)
    requires
        0 <= pos <= b.len(),
    ensures
        pos <= gt_from(b, pos) <= b.len(),
        gt_from(b, pos) < b.len() ==> b[gt_from(b, pos)] == 0x3eu8,
    decreases b.len() - pos,
{
    if pos < b.len() && b[pos] != 0x3eu8 {
        lemma_gt_from_bounds(b, pos + 1);
    }
}

/// A hex string opening at `p`: its digits with whitespace removed, and the
/// position after its `>` (or the end).
pub open spec fn hex_value(b: Seq<u8>, p: int) -> (ValueView, int) {
    let e = gt_from(b, p + 1);
    (ValueView::HexString(without_whitespace(utf8_lossy(b.subrange(p + 1, e)))), if e < b.len() { e + 1 } else { e })
}

/// The byte a literal-string escape `\c` stands for; `None` for a line break
/// after the backslash, which is dropped.
pub open spec fn escape_byte(c: u8) -> Option<u8> {
    if c == 0x6eu8 {
        Some(0x0au8)
    } else if c == 0x72u8 {
        Some(0x0du8)
    } else if c == 0x74u8 {
        Some(0x09u8)
    } else if c == 0x62u8 {
        Some(0x08u8)
    } else if c == 0x66u8 {
        Some(0x0cu8)
    } else if c == 0x0du8 || c == 0x0au8 {
        None
    } else {
        Some(c)
    }
}

/// The bytes of a literal string from `pos` at nesting `depth`, with the
/// bytes so far in `out`: the string's bytes and the position after it. A
/// backslash at the very end makes it fail.
pub open spec fn literal_bytes(b: Seq<u8>, pos: int, depth: nat, out: Seq<u8>) -> Option<(Seq<u8>, int)>
    decreases b.len() - pos,
{
    if pos < 0 || pos >= b.len() {
        Some((out, pos))
    } else if b[pos] == 0x5cu8 {
        if pos + 1 >= b.len() {
            None
        } else {
            let e = b[pos + 1];
            let next = if e == 0x0du8 && pos + 2 < b.len() && b[pos + 2] == 0x0au8 { pos + 3 } else { pos + 2 };
            match escape_byte(e) {
                Some(x) => literal_bytes(b, pos + 2, depth, out.push(x)),
                None => literal_bytes(b, next, depth, out),
            }
        }
    } else if b[pos] == 0x28u8 {
        literal_bytes(b, pos + 1, depth + 1, out.push(b[pos]))
    } else if b[pos] == 0x29u8 {
        if depth <= 1 { Some((out, pos + 1)) } else { literal_bytes(b, pos + 1, (depth - 1) as nat, out.push(b[pos])) }
    } else {
        literal_bytes(b, pos + 1, depth, out.push(b[pos]))
    }
}

/// A literal string opening at `p`: its decoded text and the position after it.
pub open spec fn literal_value(b: Seq<u8>, p: int) -> Option<(ValueView, int)> {
    match literal_bytes(b, p + 1, 1, seq![]) {
        Some((out, e)) => Some((ValueView::String(spec_decode_pdf_string(out).0), e)),
        None => None,
    }
}

/// A name at `p` (which must hold `/`): its decoded text and the position after it.
pub open spec fn name_at(b: Seq<u8>, p: int) -> Option<(Seq<char>, int)> {
    if 0 <= p < b.len() && b[p] == 0x2fu8 {
        let e = scan_to_delim(b, p + 1);
        Some((utf8_lossy(decode_name_bytes(b.subrange(p + 1, e))), e))
    } else {
        None
    }
}

/// A bare token at `p` up to the next delimiter, kept as text.
pub open spec fn raw_token(b: Seq<u8>, p: int) -> Option<(ValueView, int)> {
    let e = scan_to_delim(b, p);
    if e == p { None } else { Some((ValueView::Raw(utf8_lossy(b.subrange(p, e))), e)) }
}

pub open spec fn is_sign(c: u8) -> bool {
    c == 0x2bu8 || c == 0x2du8
}

/// A number token after whitespace and comments from `pos`: an optional
/// sign, digits, and an optional `.` with digits. Its start, its end, and
/// whether it is an integer (digits and no `.`).
pub open spec fn number_token(b: Seq<u8>, pos: int) -> Option<(int, int, bool)> {
    let s = skip_wsc(b, pos, false);
    let signed = 0 <= s < b.len() && is_sign(b[s]);
    let p1 = if signed { s + 1 } else { s };
    let d1 = digits_end(b, p1);
    let has_dec = 0 <= d1 < b.len() && b[d1] == 0x2eu8;
    let p2 = if has_dec { digits_end(b, d1 + 1) } else { d1 };
    let has_digit = d1 > p1 || (has_dec && p2 > d1 + 1);
    if p2 == s || (p2 == s + 1 && signed) { None } else { Some((s, p2, has_digit && !has_dec)) }
}

/// A number at `p`, or an object reference `object generation R`; a token
/// that is no number is taken as a bare token.
pub open spec fn number_or_reference(b: Seq<u8>, p: int) -> Option<(ValueView, int)> {
    match number_token(b, p) {
        None => None,
        Some((s1, e1, int1)) => {
            let reference = if int1 {
                match number_token(b, e1) {
                    Some((s2, e2, int2)) => {
                        let q = skip_wsc(b, e2, false);
                        if int2 && 0 <= q < b.len() && b[q] == 0x52u8 {
                            match (parse_unsigned(b.subrange(s1, e1), u32::MAX as nat), parse_unsigned(b.subrange(s2, e2), u16::MAX as nat)) {
                                (Some(o), Some(g)) => Some((ValueView::Reference(ObjectRef { object: o as u32, generation: g as u16 }), q + 1)),
                                _ => None,
                            }
                        } else {
                            None
                        }
                    },
                    None => None,
                }
            } else {
                None
            };
            if reference is Some {
                reference
            } else if is_float_text(b.subrange(s1, e1)) {
                Some((ValueView::Number(latin1(b.subrange(s1, e1))), e1))
            } else {
                raw_token(b, p)
            }
        },
    }
}

pub open spec fn true_bytes() -> Seq<u8> {
    seq![0x74u8, 0x72u8, 0x75u8, 0x65u8]
}

pub open spec fn false_bytes() -> Seq<u8> {
    seq![0x66u8, 0x61u8, 0x6cu8, 0x73u8, 0x65u8]
}

pub open spec fn null_bytes() -> Seq<u8> {
    seq![0x6eu8, 0x75u8, 0x6cu8, 0x6cu8]
}

pub open spec fn dict_close() -> Seq<u8> {
    seq![0x3eu8, 0x3eu8]
}

/// The value after whitespace and comments from `pos`, and the position
/// after it.
pub open spec fn spec_value(b: Seq<u8>, pos: int) -> Option<(ValueView, int)>
    decreases b.len() - pos, 0int,
{
    if pos < 0 {
        None
    } else {
        let p = skip_wsc(b, pos, false);
        proof {
            lemma_skip_wsc_bounds(b, pos, false);
        }
        if p >= b.len() {
            None
        } else {
            let c = b[p];
            if c == 0x3cu8 && p + 1 < b.len() && b[p + 1] == 0x3cu8 {
                dict_items(b, p + 2, seq![])
            } else if c == 0x3cu8 {
                Some(hex_value(b, p))
            } else if c == 0x5bu8 {
                array_items(b, p + 1, seq![])
            } else if c == 0x28u8 {
                literal_value(b, p)
            } else if c == 0x2fu8 {
                match name_at(b, p) {
                    Some((n, e)) => Some((ValueView::Name(n), e)),
                    None => None,
                }
            } else if c == 0x74u8 && occurs_at(b, true_bytes(), p) {
                Some((ValueView::Boolean(true), p + 4))
            } else if c == 0x66u8 && occurs_at(b, false_bytes(), p) {
                Some((ValueView::Boolean(false), p + 5))
            } else if c == 0x6eu8 && occurs_at(b, null_bytes(), p) {
                Some((ValueView::Null, p + 4))
            } else if is_sign(c) || c == 0x2eu8 || is_digit(c) {
                number_or_reference(b, p)
            } else {
                raw_token(b, p)
            }
        }
    }
}

/// The entries of a dictionary from `pos` (after `<<`), added to `acc`,
/// up to its `>>`: the dictionary and the position after it. A key read
/// again replaces the earlier value.
pub open spec fn dict_items(b: Seq<u8>, pos: int, acc: Seq<(Seq<char>, ValueView)>) -> Option<(ValueView, int)>
    decreases b.len() - pos, 1int,
{
    if pos < 0 || pos > b.len() {
        None
    } else {
        let p = skip_wsc(b, pos, false);
        proof {
            lemma_skip_wsc_bounds(b, pos, false);
        }
        if occurs_at(b, dict_close(), p) {
            Some((ValueView::Dictionary(acc), p + 2))
        } else {
            match name_at(b, p) {
                None => None,
                Some((key, q)) => {
                    proof {
                        lemma_scan_to_delim_bounds(b, p + 1);
                    }
                    match spec_value(b, q) {
                        None => None,
                        Some((v, r)) => if r <= pos || r > b.len() { None } else { dict_items(b, r, dict_insert(acc, key, v)) },
                    }
                },
            }
        }
    }
}

/// The items of an array from `pos` (after `[`), added to `acc`, up to its
/// `]`: the array and the position after it.
pub open spec fn array_items(b: Seq<u8>, pos: int, acc: Seq<ValueView>) -> Option<(ValueView, int)>
    decreases b.len() - pos, 1int,
{
    if pos < 0 || pos > b.len() {
        None
    } else {
        let p = skip_wsc(b, pos, false);
        proof {
            lemma_skip_wsc_bounds(b, pos, false);
        }
        if p < b.len() && b[p] == 0x5du8 {
            Some((ValueView::Array(acc), p + 1))
        } else {
            match spec_value(b, p) {
                None => None,
                Some((v, r)) => if r <= pos || r > b.len() { None } else { array_items(b, r, acc.push(v)) },
            }
        }
    }
}


/// `r` is the executable outcome that `s` describes.
pub open spec fn value_result(r: Option<(PdfValue, usize)>, s: Option<(ValueView, int)>) -> bool {
    match s {
        Some((v, e)) => r matches Some((x, q)) && x@ == v && q == e,
        None => r is None,
    }
}

fn scan_digits(input: &[u8], pos: usize) -> (r: usize)
    requires
        pos <= input@.len(),
    ensures
        r == digits_end(input@, pos as int),
        pos <= r <= input@.len(),
        forall|k: int| pos <= k < r ==> is_digit(#[trigger] input@[k]),
{
    proof {
        lemma_digits_end_bounds(input@, pos as int);
    }
    let mut p = pos;
    while p < input.len() && ascii_digit(input[p])
        invariant
            pos <= p <= input@.len(),
            digits_end(input@, pos as int) == digits_end(input@, p as int),
        decreases input@.len() - p,
    {
        p = p + 1;
    }
    p
}

fn parse_number_token(input: &[u8], pos: usize) -> (r: Option<(usize, usize, bool)>)
    requires
        pos <= input@.len(),
    ensures
        match number_token(input@, pos as int) {
            Some((s, e, i)) => r matches Some((a, b, c)) && a == s && b == e && c == i,
            None => r is None,
        },
        r matches Some((s, e, _)) ==> pos <= s < e <= input@.len() && all_ascii_range(input@, s as int, e as int),
{
    let s = skip_whitespace_and_comments(input, pos);
    let signed = s < input.len() && (input[s] == 0x2b || input[s] == 0x2d);
    let p1 = if signed { s + 1 } else { s };
    let d1 = scan_digits(input, p1);
    let has_dec = d1 < input.len() && input[d1] == 0x2e;
    let p2 = if has_dec { scan_digits(input, d1 + 1) } else { d1 };
    let has_digit = d1 > p1 || (has_dec && p2 > d1 + 1);
    if p2 == s || (p2 == s + 1 && signed) {
        None
    } else {
        assert forall|k: int| s <= k < p2 implies #[trigger] input@[k] < 0x80u8 by {
            if k >= p1 && k < d1 {
                assert(is_digit(input@[k]));
            } else if has_dec && k > d1 {
                assert(is_digit(input@[k]));
            }
        }
        Some((s, p2, has_digit && !has_dec))
    }
}

/// Every byte in `[lo, hi)` is ASCII.
pub open spec fn all_ascii_range(b: Seq<u8>, lo: int, hi: int) -> bool {
    forall|k: int| lo <= k < hi ==> #[trigger] b[k] < 0x80u8
}

fn parse_raw_token(input: &[u8], p: usize) -> (r: Option<(PdfValue, usize)>)
    requires
        p <= input@.len(),
    ensures
        value_result(r, raw_token(input@, p as int)),
        r matches Some((_, q)) ==> p < q <= input@.len(),
{
    let e = scan_delimiter(input, p);
    if e == p {
        None
    } else {
        let text = lossy_string(vstd::slice::slice_subrange(input, p, e));
        Some((PdfValue::Raw(text), e))
    }
}

fn parse_name(input: &[u8], p: usize) -> (r: Option<(String, usize)>)
    requires
        p <= input@.len(),
    ensures
        match name_at(input@, p as int) {
            Some((n, e)) => r matches Some((x, q)) && x@ == n && q == e,
            None => r is None,
        },
        r matches Some((_, q)) ==> p < q <= input@.len(),
{
    if p < input.len() && input[p] == 0x2f {
        let e = scan_delimiter(input, p + 1);
        let name = decode_name(vstd::slice::slice_subrange(input, p + 1, e));
        Some((name, e))
    } else {
        None
    }
}

fn parse_hex_string(input: &[u8], p: usize) -> (r: (PdfValue, usize))
    requires
        p < input@.len(),
    ensures
        r.0@ == hex_value(input@, p as int).0,
        r.1 == hex_value(input@, p as int).1,
        p < r.1 <= input@.len(),
{
    let n = input.len();
    let start = p + 1;
    proof {
        lemma_gt_from_bounds(input@, start as int);
    }
    let mut e = start;
    while e < input.len() && input[e] != 0x3e
        invariant
            start <= e <= input@.len(),
            gt_from(input@, start as int) == gt_from(input@, e as int),
        decreases input@.len() - e,
    {
        e = e + 1;
    }
    let text = lossy_string(vstd::slice::slice_subrange(input, start, e));
    let stripped = remove_whitespace(text.as_str());
    let end = if e < input.len() { e + 1 } else { e };
    (PdfValue::HexString(stripped), end)
}

fn parse_literal_string(input: &[u8], p: usize) -> (r: Option<(PdfValue, usize)>)
    requires
        p < input@.len(),
    ensures
        value_result(r, literal_value(input@, p as int)),
        r matches Some((_, q)) ==> p < q <= input@.len(),
{
    let n = input.len();
    let mut pos = p + 1;
    let mut depth: usize = 1;
    let mut output: Vec<u8> = Vec::new();
    while pos < input.len()
        invariant
            p < pos <= input@.len(),
            1 <= depth <= pos,
            literal_bytes(input@, p + 1, 1, seq![]) == literal_bytes(input@, pos as int, depth as nat, output@),
        decreases input@.len() - pos,
    {
        let byte = input[pos];
        pos = pos + 1;
        if byte == 0x5c {
            if pos >= input.len() {
                return None;
            }
            let escaped = input[pos];
            pos = pos + 1;
            if escaped == 0x6e {
                output.push(0x0a);
            } else if escaped == 0x72 {
                output.push(0x0d);
            } else if escaped == 0x74 {
                output.push(0x09);
            } else if escaped == 0x62 {
                output.push(0x08);
            } else if escaped == 0x66 {
                output.push(0x0c);
            } else if escaped == 0x0d {
                if pos < input.len() && input[pos] == 0x0a {
                    pos = pos + 1;
                }
            } else if escaped == 0x0a {
            } else {
                output.push(escaped);
            }
        } else if byte == 0x28 {
            depth = depth + 1;
            output.push(byte);
        } else if byte == 0x29 {
            if depth <= 1 {
                let decoded = decode_pdf_string(output.as_slice());
                return Some((PdfValue::String(decoded.text), pos));
            }
            depth = depth - 1;
            output.push(byte);
        } else {
            output.push(byte);
        }
    }
    let decoded = decode_pdf_string(output.as_slice());
    Some((PdfValue::String(decoded.text), pos))
}

/// Parses one value at `pos`, after whitespace and comments.
fn parse_value(input: &[u8], pos: usize) -> (r: Option<(PdfValue, usize)>)
    requires
        pos <= input@.len(),
    ensures
        value_result(r, spec_value(input@, pos as int)),
        r matches Some((_, q)) ==> pos < q <= input@.len(),
    decreases input@.len() - pos, 0int,
{
    let p = skip_whitespace_and_comments(input, pos);
    if p >= input.len() {
        return None;
    }
    let c = input[p];
    let true_lit: [u8; 4] = [0x74, 0x72, 0x75, 0x65];
    let false_lit: [u8; 5] = [0x66, 0x61, 0x6c, 0x73, 0x65];
    let null_lit: [u8; 4] = [0x6e, 0x75, 0x6c, 0x6c];
    assert(true_lit@ =~= true_bytes());
    assert(false_lit@ =~= false_bytes());
    assert(null_lit@ =~= null_bytes());
    if c == 0x3c && p + 1 < input.len() && input[p + 1] == 0x3c {
        parse_dictionary(input, p + 2)
    } else if c == 0x3c {
        Some(parse_hex_string(input, p))
    } else if c == 0x5b {
        parse_array(input, p + 1)
    } else if c == 0x28 {
        parse_literal_string(input, p)
    } else if c == 0x2f {
        match parse_name(input, p) {
            Some((n, e)) => Some((PdfValue::Name(n), e)),
            None => None,
        }
    } else if c == 0x74 && starts_with_at(input, p, &true_lit) {
        Some((PdfValue::Boolean(true), p + 4))
    } else if c == 0x66 && starts_with_at(input, p, &false_lit) {
        Some((PdfValue::Boolean(false), p + 5))
    } else if c == 0x6e && starts_with_at(input, p, &null_lit) {
        Some((PdfValue::Null, p + 4))
    } else if c == 0x2b || c == 0x2d || c == 0x2e || ascii_digit(c) {
        parse_number_or_reference(input, p)
    } else {
        parse_raw_token(input, p)
    }
}

fn parse_number_or_reference(input: &[u8], p: usize) -> (r: Option<(PdfValue, usize)>)
    requires
        p < input@.len(),
    ensures
        value_result(r, number_or_reference(input@, p as int)),
        r matches Some((_, q)) ==> p < q <= input@.len(),
{
    let (s1, e1, int1) = match parse_number_token(input, p) {
        Some(t) => t,
        None => return None,
    };
    if int1 {
        match parse_number_token(input, e1) {
            Some((s2, e2, int2)) => {
                let q = skip_whitespace_and_comments(input, e2);
                if int2 && q < input.len() && input[q] == 0x52 {
                    let o = parse_u32(vstd::slice::slice_subrange(input, s1, e1));
                    let g = parse_u16(vstd::slice::slice_subrange(input, s2, e2));
                    match (o, g) {
                        (Some(o), Some(g)) => {
                            return Some((PdfValue::Reference(ObjectRef::new(o, g)), q + 1));
                        },
                        _ => {},
                    }
                }
            },
            None => {},
        }
    }
    let token = vstd::slice::slice_subrange(input, s1, e1);
    if is_number(token) {
        let text = ascii_string(token);
        return Some((PdfValue::Number(PdfNumber { text }), e1));
    }
    parse_raw_token(input, p)
}

fn parse_dictionary(input: &[u8], pos: usize) -> (r: Option<(PdfValue, usize)>)
    requires
        pos <= input@.len(),
    ensures
        value_result(r, dict_items(input@, pos as int, seq![])),
        r matches Some((_, q)) ==> pos < q <= input@.len(),
    decreases input@.len() - pos, 1int,
{
    let close: [u8; 2] = [0x3e, 0x3e];
    assert(close@ =~= dict_close());
    let mut dictionary = PdfDictionary::new();
    let mut cur = pos;
    loop
        invariant
            pos <= cur <= input@.len(),
            close@ == dict_close(),
            keys_sorted(dictionary@),
            dict_items(input@, pos as int, seq![]) == dict_items(input@, cur as int, dictionary@),
        decreases input@.len() - cur,
    {
        let p = skip_whitespace_and_comments(input, cur);
        if starts_with_at(input, p, &close) {
            assert(p + 2 <= input.len());
            return Some((PdfValue::Dictionary(dictionary), p + 2));
        }
        let (key, q) = match parse_name(input, p) {
            Some(x) => x,
            None => return None,
        };
        let (value, r) = match parse_value(input, q) {
            Some(x) => x,
            None => return None,
        };
        dictionary.insert(key, value);
        cur = r;
    }
}

fn parse_array(input: &[u8], pos: usize) -> (r: Option<(PdfValue, usize)>)
    requires
        pos <= input@.len(),
    ensures
        value_result(r, array_items(input@, pos as int, seq![])),
        r matches Some((_, q)) ==> pos < q <= input@.len(),
    decreases input@.len() - pos, 1int,
{
    let mut values: Vec<PdfValue> = Vec::new();
    let mut cur = pos;
    assert(value_views(values@) =~= Seq::<ValueView>::empty());
    loop
        invariant
            pos <= cur <= input@.len(),
            array_items(input@, pos as int, seq![]) == array_items(input@, cur as int, value_views(values@)),
        decreases input@.len() - cur,
    {
        let p = skip_whitespace_and_comments(input, cur);
        if p < input.len() && input[p] == 0x5d {
            return Some((PdfValue::Array(values), p + 1));
        }
        let (value, r) = match parse_value(input, p) {
            Some(x) => x,
            None => return None,
        };
        let ghost before = values@;
        values.push(value);
        assert(values@.drop_last() =~= before);
        cur = r;
    }
}

/// Parses a PDF value at the start of `input`, returning it with the number
/// of bytes read.
pub fn parse_pdf_value_with_consumed(input: &[u8]) -> (r: Option<(PdfValue, usize)>)
    ensures
        value_result(r, spec_value(input@, 0)),
        r matches Some((_, q)) ==> 0 < q <= input@.len(),
{
    parse_value(input, 0)
}

/// Parses a PDF value at the start of `input`.
pub fn parse_pdf_value(input: &[u8]) -> (r: Option<PdfValue>)
    ensures
        match spec_value(input@, 0) {
            Some((v, _)) => r matches Some(x) && x@ == v,
            None => r is None,
        },
{
    match parse_pdf_value_with_consumed(input) {
        Some((value, _)) => Some(value),
        None => None,
    }
}


// ---------------------------------------------------------------------------
// Searching by position
// ---------------------------------------------------------------------------

/// The first occurrence of `n` at or after `from`.
pub open spec fn find_first(h: Seq<u8>, n: Seq<u8>, from: int) -> Option<int>
    decreases h.len() + 1 - from,
{
    if from < 0 || from + n.len() > h.len() {
        None
    } else if occurs_at(h, n, from) {
        Some(from)
    } else {
        find_first(h, n, from + 1)
    }
}

/// The last occurrence of `n` at or before `i`.
pub open spec fn find_last(h: Seq<u8>, n: Seq<u8>, i: int) -> Option<int>
    decreases i + 1,
{
    if i < 0 {
        None
    } else if occurs_at(h, n, i) {
        Some(i)
    } else {
        find_last(h, n, i - 1)
    }
}

proof fn lemma_find_first(h: Seq<u8>, n: Seq<u8>, from: int, r: Option<usize>)
    requires
        0 <= from,
        is_first_occurrence_from(h, n, from, r),
    ensures
        find_first(h, n, from) == match r {
            Some(i) => Some(i as int),
            None => None::<int>,
        },
    decreases h.len() + 1 - from,
{
    if from + n.len() > h.len() {
        if let Some(i) = r {
            assert(occurs_at(h, n, i as int));
        }
    } else if occurs_at(h, n, from) {
    } else {
        if let Some(i) = r {
            assert(i != from);
        }
        lemma_find_first(h, n, from + 1, r);
    }
}

proof fn lemma_find_last(h: Seq<u8>, n: Seq<u8>, i: int, r: Option<usize>)
    requires
        i >= h.len(),
        is_last_occurrence(h, n, r),
    ensures
        find_last(h, n, i) == match r {
            Some(k) => Some(k as int),
            None => None::<int>,
        },
    decreases i,
{
    lemma_find_last_below(h, n, i, r);
}

proof fn lemma_find_last_below(h: Seq<u8>, n: Seq<u8>, i: int, r: Option<usize>)
    requires
        is_last_occurrence(h, n, r),
        r matches Some(k) ==> k <= i,
    ensures
        find_last(h, n, i) == match r {
            Some(k) => Some(k as int),
            None => None::<int>,
        },
    decreases i + 1,
{
    if i >= 0 {
        if occurs_at(h, n, i) {
            if let Some(k) = r {
                if k < i {
                    assert(!occurs_at(h, n, i));
                }
            }
        } else {
            if let Some(k) = r {
                assert(k != i);
            }
            lemma_find_last_below(h, n, i - 1, r);
        }
    } else {
        if let Some(k) = r {
            assert(occurs_at(h, n, k as int));
        }
    }
}

/// The first occurrence of `needle` at or after `from`, as a position.
pub(crate) fn find_first_from(haystack: &[u8], from: usize, needle: &[u8]) -> (r: Option<usize>)
    requires
        from <= haystack@.len(),
    ensures
        find_first(haystack@, needle@, from as int) == match r {
            Some(i) => Some(i as int),
            None => None::<int>,
        },
        r matches Some(i) ==> from <= i && i + needle@.len() <= haystack@.len(),
{
    let r = find_from(haystack, from, needle);
    proof {
        lemma_find_first(haystack@, needle@, from as int, r);
    }
    r
}

/// The last occurrence of `needle`.
pub(crate) fn rfind_subslice(haystack: &[u8], needle: &[u8]) -> (r: Option<usize>)
    ensures
        find_last(haystack@, needle@, haystack@.len() as int) == match r {
            Some(i) => Some(i as int),
            None => None::<int>,
        },
        r matches Some(i) ==> i + needle@.len() <= haystack@.len(),
{
    let r = memmem_rfind(haystack, needle);
    proof {
        lemma_find_last(haystack@, needle@, haystack@.len() as int, r);
    }
    r
}

// ---------------------------------------------------------------------------
// Indirect objects
// ---------------------------------------------------------------------------

pub open spec fn obj_bytes() -> Seq<u8> {
    seq![0x6fu8, 0x62u8, 0x6au8]
}

pub open spec fn stream_bytes() -> Seq<u8> {
    seq![0x73u8, 0x74u8, 0x72u8, 0x65u8, 0x61u8, 0x6du8]
}

pub open spec fn endstream_bytes() -> Seq<u8> {
    seq![0x65u8, 0x6eu8, 0x64u8, 0x73u8, 0x74u8, 0x72u8, 0x65u8, 0x61u8, 0x6du8]
}

pub open spec fn endobj_bytes() -> Seq<u8> {
    seq![0x65u8, 0x6eu8, 0x64u8, 0x6fu8, 0x62u8, 0x6au8]
}

pub open spec fn crlf() -> Seq<u8> {
    seq![0x0du8, 0x0au8]
}

/// An object header `object generation obj` at `offset` (after whitespace
/// and comments): the position after `obj` and the reference. `obj` must
/// end at a delimiter or at the end.
pub open spec fn object_header(b: Seq<u8>, offset: int) -> Option<(int, ObjectRef)> {
    let p0 = skip_wsc(b, offset, false);
    match digits_at(b, p0, u32::MAX as nat) {
        None => None,
        Some((object, p1)) => {
            let p2 = skip_ws_from(b, p1);
            match digits_at(b, p2, u16::MAX as nat) {
                None => None,
                Some((generation, p3)) => {
                    let p4 = skip_ws_from(b, p3);
                    if !occurs_at(b, obj_bytes(), p4) {
                        None
                    } else if 0 <= p4 + 3 < b.len() && !crate::text::is_delim(b[p4 + 3]) {
                        None
                    } else {
                        Some((p4 + 3, ObjectRef { object: object as u32, generation: generation as u16 }))
                    }
                },
            }
        },
    }
}

fn parse_object_header_at(bytes: &[u8], offset: usize) -> (r: Option<(usize, ObjectRef)>)
    ensures
        match object_header(bytes@, offset as int) {
            Some((e, reference)) => r == Some((e as usize, reference)),
            None => r is None,
        },
        r matches Some((e, _)) ==> offset < e <= bytes@.len(),
{
    let mut pos = skip_whitespace_and_comments(bytes, offset);
    let object = match parse_u32_at(bytes, &mut pos) {
        Some(v) => v,
        None => return None,
    };
    pos = skip_ascii_whitespace(bytes, pos);
    let generation = match parse_u16_at(bytes, &mut pos) {
        Some(v) => v,
        None => return None,
    };
    pos = skip_ascii_whitespace(bytes, pos);
    let obj: [u8; 3] = [0x6f, 0x62, 0x6a];
    assert(obj@ =~= obj_bytes());
    if !starts_with_at(bytes, pos, &obj) {
        return None;
    }
    assert(pos + 3 <= bytes.len());
    let end = pos + 3;
    if end < bytes.len() && !crate::text::delimiter(bytes[end]) {
        return None;
    }
    Some((end, ObjectRef::new(object, generation)))
}

/// Where stream data begins after the `stream` keyword at `k`: one CRLF,
/// LF or CR is skipped.
pub open spec fn stream_data_start(body: Seq<u8>, k: int) -> int {
    let d = k + 6;
    if occurs_at(body, crlf(), d) {
        d + 2
    } else if 0 <= d < body.len() && (body[d] == 0x0au8 || body[d] == 0x0du8) {
        d + 1
    } else {
        d
    }
}

/// The data end and `endstream` position when `endstream` follows the
/// declared length (after whitespace).
pub open spec fn endstream_after(body: Seq<u8>, data_start: int, declared: usize) -> Option<(int, int)> {
    let data_end = data_start + declared;
    if data_end > usize::MAX || data_end > body.len() {
        None
    } else {
        let marker = skip_ws_from(body, data_end);
        if occurs_at(body, endstream_bytes(), marker) { Some((data_end, marker)) } else { None }
    }
}

/// The data end before `marker_end` with one trailing CRLF, LF or CR removed.
pub open spec fn trim_eol(body: Seq<u8>, data_start: int, marker_end: int) -> int {
    if marker_end <= data_start {
        marker_end
    } else if marker_end >= 2 && occurs_at(body, crlf(), marker_end - 2) {
        marker_end - 2
    } else if 0 <= marker_end - 1 < body.len() && (body[marker_end - 1] == 0x0au8 || body[marker_end - 1] == 0x0du8) {
        marker_end - 1
    } else {
        marker_end
    }
}

/// The end of a stream object: just past the `endobj` after `endstream`.
pub open spec fn stream_raw_end(body: Seq<u8>, body_offset: int, marker: int) -> Option<int> {
    let after = marker + 9;
    if after > usize::MAX || after > body.len() {
        None
    } else {
        match find_first(body, endobj_bytes(), after) {
            Some(m) => Some(body_offset + m + 6),
            None => None,
        }
    }
}

/// How a parse treats stream data: load it or not, and whether to skip
/// objects whose cross-reference offsets do not resolve.
#[derive(Clone, Copy, Debug)]
pub struct ParseOptions {
    pub load_stream_bytes: bool,
    pub skip_invalid_xref_objects: bool,
}

/// The options of a full parse: stream bytes loaded, no skipping.
pub fn default_parse_options() -> (o: ParseOptions)
    ensures
        o.load_stream_bytes,
        !o.skip_invalid_xref_objects,
{
    ParseOptions { load_stream_bytes: true, skip_invalid_xref_objects: false }
}

/// The options of an interactive parse: stream bytes left out, objects
/// behind bad offsets skipped.
pub fn gui_parse_options() -> (o: ParseOptions)
    ensures
        !o.load_stream_bytes,
        o.skip_invalid_xref_objects,
{
    ParseOptions { load_stream_bytes: false, skip_invalid_xref_objects: true }
}

/// The data end and `endstream` position of a stream whose data starts at
/// `data_start`.
pub open spec fn stream_data_end(body: Seq<u8>, data_start: int, declared: Option<usize>) -> (int, int) {
    let fallback_marker = match find_first(body, endstream_bytes(), data_start) {
        Some(m) => m,
        None => body.len() as int,
    };
    let fallback = (trim_eol(body, data_start, fallback_marker), fallback_marker);
    match declared {
        Some(l) => match endstream_after(body, data_start, l) {
            Some(x) => x,
            None => fallback,
        },
        None => fallback,
    }
}

/// The object a body parses to: a stream object when `stream` follows the
/// value, else the plain value. `body` starts at `body_offset` in `full`.
pub open spec fn object_body(
    full: Seq<u8>,
    body: Seq<u8>,
    raw_start: usize,
    body_offset: int,
    reference: ObjectRef,
    options: ParseOptions,
) -> Option<ObjectV> {
    match spec_value(body, 0) {
        None => None,
        Some((value, value_end)) => {
            let k = skip_wsc(body, value_end, false);
            if occurs_at(body, stream_bytes(), k) {
                let dictionary = match value {
                    ValueView::Dictionary(d) => d,
                    _ => seq![],
                };
                let data_start = stream_data_start(body, k);
                let declared = match dict_get(dictionary, "Length"@) {
                    Some(v) => view_usize(v),
                    None => None,
                };
                let (data_end, marker) = stream_data_end(body, data_start, declared);
                let raw_range = ByteRange { start: (body_offset + data_start) as usize, end: (body_offset + data_end) as usize };
                let load = options.load_stream_bytes || name_under(dictionary, "Type"@) == Some("ObjStm"@);
                let raw_end_in_full = if raw_range.end <= full.len() { raw_range.end as int } else { full.len() as int };
                let raw = if load { full.subrange(raw_range.start as int, raw_end_in_full) } else { seq![] };
                let raw_end = match stream_raw_end(body, body_offset, marker) {
                    Some(e) => e,
                    None => body_offset + body.len(),
                };
                let actual = if raw_range.end >= raw_range.start { (raw_range.end - raw_range.start) as usize } else { 0 };
                Some((
                    reference,
                    ValueView::Dictionary(dictionary),
                    Some((dictionary, declared, actual, filter_names(dictionary), raw_range, raw)),
                    ByteRange { start: raw_start, end: raw_end as usize },
                    seq![],
                ))
            } else {
                let raw_end = match find_first(body, endobj_bytes(), value_end) {
                    Some(e) => body_offset + e + 6,
                    None => body_offset + body.len(),
                };
                Some((reference, value, None, ByteRange { start: raw_start, end: raw_end as usize }, seq![]))
            }
        },
    }
}

fn endstream_after_declared_length(body: &[u8], data_start: usize, declared_length: usize) -> (r: Option<(usize, usize)>)
    requires
        data_start <= body@.len(),
    ensures
        match endstream_after(body@, data_start as int, declared_length) {
            Some((e, m)) => r == Some((e as usize, m as usize)),
            None => r is None,
        },
        r matches Some((e, m)) ==> data_start <= e <= m && m + 9 <= body@.len(),
{
    let data_end = match data_start.checked_add(declared_length) {
        Some(e) => e,
        None => return None,
    };
    if data_end > body.len() {
        return None;
    }
    let marker = skip_ascii_whitespace(body, data_end);
    let endstream: [u8; 9] = [0x65, 0x6e, 0x64, 0x73, 0x74, 0x72, 0x65, 0x61, 0x6d];
    assert(endstream@ =~= endstream_bytes());
    if starts_with_at(body, marker, &endstream) {
        Some((data_end, marker))
    } else {
        None
    }
}

pub(crate) fn trim_single_stream_eol(body: &[u8], data_start: usize, marker_end: usize) -> (r: usize)
    requires
        marker_end <= body@.len(),
    ensures
        r == trim_eol(body@, data_start as int, marker_end as int),
{
    if marker_end <= data_start {
        return marker_end;
    }
    let eol: [u8; 2] = [0x0d, 0x0a];
    assert(eol@ =~= crlf());
    if marker_end >= 2 && starts_with_at(body, marker_end - 2, &eol) {
        marker_end - 2
    } else if body[marker_end - 1] == 0x0a || body[marker_end - 1] == 0x0d {
        marker_end - 1
    } else {
        marker_end
    }
}

fn stream_object_raw_end(body: &[u8], body_offset: usize, stream_marker: usize) -> (r: Option<usize>)
    requires
        body_offset + body@.len() <= usize::MAX,
    ensures
        match stream_raw_end(body@, body_offset as int, stream_marker as int) {
            Some(e) => r == Some(e as usize),
            None => r is None,
        },
        r matches Some(e) ==> e <= body_offset + body@.len(),
{
    let after = match stream_marker.checked_add(9) {
        Some(a) => a,
        None => return None,
    };
    if after > body.len() {
        return None;
    }
    let endobj: [u8; 6] = [0x65, 0x6e, 0x64, 0x6f, 0x62, 0x6a];
    assert(endobj@ =~= endobj_bytes());
    match find_first_from(body, after, &endobj) {
        Some(m) => Some(body_offset + m + 6),
        None => None,
    }
}

/// Whether `dictionary[key]` is the name `expected`.
pub(crate) fn name_is(dictionary: &PdfDictionary, key: &str, expected: &str) -> (r: bool)
    ensures
        r == (name_under(dictionary@, key@) == Some(expected@)),
{
    match dictionary.get(key) {
        Some(value) => match value.as_name() {
            Some(name) => str_eq(name, expected),
            None => false,
        },
        None => false,
    }
}

/// Data never ends before it starts: a trimmed line break lies after the
/// `stream` keyword's own line break.
pub(crate) proof fn lemma_data_end_after_start(body: Seq<u8>, k: int, declared: Option<usize>)
    requires
        0 <= k,
        occurs_at(body, stream_bytes(), k),
    ensures
        ({
            let ds = stream_data_start(body, k);
            let (de, m) = stream_data_end(body, ds, declared);
            &&& k + 6 <= ds <= body.len()
            &&& ds <= de <= body.len()
            &&& de <= m <= body.len()
        }),
{
    let ds = stream_data_start(body, k);
    assert(body.subrange(k, k + 6)[5] == 0x6du8);
    assert(body[k + 5] == 0x6du8);
    let fm = match find_first(body, endstream_bytes(), ds) {
        Some(m) => m,
        None => body.len() as int,
    };
    lemma_find_first_bounds(body, endstream_bytes(), ds);
    if fm == ds + 1 && fm >= 2 && occurs_at(body, crlf(), fm - 2) {
        assert(body.subrange(fm - 2, fm)[0] == 0x0du8);
        assert(body.subrange(fm - 2, fm)[1] == 0x0au8);
        assert(body[ds - 1] == 0x0du8 && body[ds] == 0x0au8);
        if ds == k + 7 {
            assert(body.subrange(k + 6, k + 8) =~= crlf());
        }
    }
    match declared {
        Some(l) => {
            if let Some((e, m)) = endstream_after(body, ds, l) {
                lemma_skip_ws_bounds(body, e);
            }
        },
        None => {},
    }
}

pub proof fn lemma_skip_ws_bounds(b: Seq<u8>, pos: int)
    requires
        0 <= pos,
    ensures
        pos <= skip_ws_from(b, pos),
        pos <= b.len() ==> skip_ws_from(b, pos) <= b.len(),
    decreases b.len() - pos,
{
    if 0 <= pos < b.len() && is_ws(b[pos]) {
        lemma_skip_ws_bounds(b, pos + 1);
    }
}

pub proof fn lemma_find_first_bounds(h: Seq<u8>, n: Seq<u8>, from: int)
    requires
        0 <= from,
    ensures
        find_first(h, n, from) matches Some(i) ==> from <= i && i + n.len() <= h.len() && occurs_at(h, n, i),
    decreases h.len() + 1 - from,
{
    if from + n.len() <= h.len() && !occurs_at(h, n, from) {
        lemma_find_first_bounds(h, n, from + 1);
    }
}


/// The stream object whose `stream` keyword is at `k` in `body`.
fn stream_object(
    full: &[u8],
    body: &[u8],
    raw_start: usize,
    body_offset: usize,
    reference: ObjectRef,
    options: ParseOptions,
    value: &PdfValue,
    k: usize,
) -> (r: PdfObject)
    requires
        body_offset + body@.len() <= full@.len(),
        occurs_at(body@, stream_bytes(), k as int),
    ensures
        ({
            let dictionary = match value@ {
                ValueView::Dictionary(d) => d,
                _ => seq![],
            };
            let data_start = stream_data_start(body@, k as int);
            let declared = match dict_get(dictionary, "Length"@) {
                Some(v) => view_usize(v),
                None => None,
            };
            let (data_end, marker) = stream_data_end(body@, data_start, declared);
            let raw_range = ByteRange { start: (body_offset + data_start) as usize, end: (body_offset + data_end) as usize };
            let load = options.load_stream_bytes || name_under(dictionary, "Type"@) == Some("ObjStm"@);
            let raw_end_in_full = if raw_range.end <= full@.len() { raw_range.end as int } else { full@.len() as int };
            let raw = if load { full@.subrange(raw_range.start as int, raw_end_in_full) } else { seq![] };
            let raw_end = match stream_raw_end(body@, body_offset as int, marker) {
                Some(e) => e,
                None => body_offset + body@.len(),
            };
            let actual = if raw_range.end >= raw_range.start { (raw_range.end - raw_range.start) as usize } else { 0 };
            r@ == (
                reference,
                ValueView::Dictionary(dictionary),
                Some((dictionary, declared, actual, filter_names(dictionary), raw_range, raw)),
                ByteRange { start: raw_start, end: raw_end as usize },
                Seq::<u8>::empty(),
            )
        }),
{
    let full_len = full.len();
    let body_len = body.len();
    assert(body_offset + body_len <= full_len);
    let dictionary = match value.as_dictionary() {
        Some(d) => d.deep_copy(),
        None => PdfDictionary::new(),
    };
    let eol: [u8; 2] = [0x0d, 0x0a];
    assert(eol@ =~= crlf());
    assert(k + 6 <= body_len);
    let mut data_start = k + 6;
    if starts_with_at(body, data_start, &eol) {
        assert(data_start + 2 <= body_len);
        data_start = data_start + 2;
    } else if data_start < body_len && (body[data_start] == 0x0a || body[data_start] == 0x0d) {
        data_start = data_start + 1;
    }
    let declared_length = match dictionary.get("Length") {
        Some(v) => v.as_usize(),
        None => None,
    };
    proof {
        lemma_data_end_after_start(body@, k as int, declared_length);
    }
    let found = match declared_length {
        Some(l) => endstream_after_declared_length(body, data_start, l),
        None => None,
    };
    let endstream: [u8; 9] = [0x65, 0x6e, 0x64, 0x73, 0x74, 0x72, 0x65, 0x61, 0x6d];
    assert(endstream@ =~= endstream_bytes());
    let (data_end, stream_marker) = match found {
        Some(x) => x,
        None => {
            let marker = match find_first_from(body, data_start, &endstream) {
                Some(m) => m,
                None => body_len,
            };
            (trim_single_stream_eol(body, data_start, marker), marker)
        },
    };
    let raw_range = ByteRange { start: body_offset + data_start, end: body_offset + data_end };
    let filters = filter_names_from_dictionary(&dictionary);
    let actual_length = raw_range.len();
    let load = options.load_stream_bytes || name_is(&dictionary, "Type", "ObjStm");
    let raw_bytes = if load {
        copy_range(full, raw_range.start, if raw_range.end <= full_len { raw_range.end } else { full_len })
    } else {
        Vec::new()
    };
    let raw_end = match stream_object_raw_end(body, body_offset, stream_marker) {
        Some(e) => e,
        None => body_offset + body_len,
    };
    let value_copy = dictionary.deep_copy();
    let object = PdfObject {
        reference,
        value: PdfValue::Dictionary(value_copy),
        stream: Some(PdfStream { dictionary, declared_length, actual_length, filters, raw_range, raw_bytes }),
        raw_range: ByteRange { start: raw_start, end: raw_end },
        raw_bytes: Vec::new(),
    };
    assert(object@.4 =~= Seq::<u8>::empty());
    object
}

fn parse_object_body(
    full: &[u8],
    body: &[u8],
    raw_start: usize,
    body_offset: usize,
    reference: ObjectRef,
    options: ParseOptions,
) -> (r: Option<PdfObject>)
    requires
        body_offset + body@.len() <= full@.len(),
    ensures
        match object_body(full@, body@, raw_start, body_offset as int, reference, options) {
            Some(v) => r matches Some(o) && o@ == v,
            None => r is None,
        },
{
    let full_len = full.len();
    let body_len = body.len();
    assert(body_offset + body_len <= full_len);
    let (value, value_end) = match parse_pdf_value_with_consumed(body) {
        Some(x) => x,
        None => return None,
    };
    let stream_keyword = skip_whitespace_and_comments(body, value_end);
    let kw: [u8; 6] = [0x73, 0x74, 0x72, 0x65, 0x61, 0x6d];
    assert(kw@ =~= stream_bytes());
    if starts_with_at(body, stream_keyword, &kw) {
        Some(stream_object(full, body, raw_start, body_offset, reference, options, &value, stream_keyword))
    } else {
        let endobj: [u8; 6] = [0x65, 0x6e, 0x64, 0x6f, 0x62, 0x6a];
        assert(endobj@ =~= endobj_bytes());
        let rel = find_first_from(body, value_end, &endobj);
        let raw_end = match rel {
            Some(e) => body_offset + e + 6,
            None => body_offset + body_len,
        };
        let object = PdfObject {
            reference,
            value,
            stream: None,
            raw_range: ByteRange { start: raw_start, end: raw_end },
            raw_bytes: Vec::new(),
        };
        assert(object@.4 =~= Seq::<u8>::empty());
        Some(object)
    }
}


// ---------------------------------------------------------------------------
// From object starts to objects
// ---------------------------------------------------------------------------

/// Where an indirect object begins, where its header ends, and its reference.
#[derive(Clone, Copy, Debug, PartialEq, Eq, Structural)]
pub struct ObjectStart {
    pub raw_start: usize,
    pub header_end: usize,
    pub reference: ObjectRef,
}

fn push_warning(warnings: &mut Vec<ParseWarning>, offset: Option<usize>, message: String)
    ensures
        warning_views(final(warnings)@) == warning_views(old(warnings)@).push((offset, message@)),
{
    let ghost before = warning_views(warnings@);
    warnings.push(ParseWarning { offset, message });
    assert(warning_views(warnings@) =~= before.push((offset, message@)));
}

/// "Could not parse indirect object {reference}"
pub open spec fn unparsed_object_warning(st: ObjectStart) -> WarningV {
    (Some(st.raw_start), "Could not parse indirect object "@ + st.reference.spec_text())
}

/// The objects parsed from `starts[i..]` into `objs`, with warnings for
/// bodies that do not parse; a body runs up to the next start. `None` when a
/// header ends past the next start, where slicing the body would fail.
pub open spec fn objects_from_starts(
    b: Seq<u8>,
    starts: Seq<ObjectStart>,
    options: ParseOptions,
    i: int,
    objs: Seq<ObjectV>,
    warns: Seq<WarningV>,
) -> Option<(Seq<ObjectV>, Seq<WarningV>)>
    decreases starts.len() - i,
{
    if i < 0 || i >= starts.len() {
        Some((objs, warns))
    } else {
        let st = starts[i];
        let search_end = if i + 1 < starts.len() { starts[i + 1].raw_start as int } else { b.len() as int };
        if st.header_end > search_end || search_end > b.len() {
            None
        } else {
            let body = b.subrange(st.header_end as int, search_end);
            match object_body(b, body, st.raw_start, st.header_end as int, st.reference, options) {
                Some(o) => objects_from_starts(b, starts, options, i + 1, objects_put(objs, o), warns),
                None => objects_from_starts(b, starts, options, i + 1, objs, warns.push(unparsed_object_warning(st))),
            }
        }
    }
}

fn parse_indirect_object_starts(
    bytes: &[u8],
    starts: &[ObjectStart],
    options: ParseOptions,
    warnings: &mut Vec<ParseWarning>,
) -> (r: Option<Vec<PdfObject>>)
    ensures
        match objects_from_starts(bytes@, starts@, options, 0, seq![], warning_views(old(warnings)@)) {
            Some((objs, ws)) => r matches Some(v) && object_views(v@) == objs && refs_sorted(objs)
                && warning_views(final(warnings)@) == ws,
            None => r is None,
        },
{
    let mut objects: Vec<PdfObject> = Vec::new();
    assert(object_views(objects@) =~= Seq::<ObjectV>::empty());
    let ghost w0 = warning_views(warnings@);
    let mut index: usize = 0;
    while index < starts.len()
        invariant
            index <= starts@.len(),
            w0 == warning_views(old(warnings)@),
            refs_sorted(object_views(objects@)),
            objects_from_starts(bytes@, starts@, options, 0, seq![], w0)
                == objects_from_starts(bytes@, starts@, options, index as int, object_views(objects@), warning_views(warnings@)),
        decreases starts@.len() - index,
    {
        let start = starts[index];
        let search_end = if index + 1 < starts.len() { starts[index + 1].raw_start } else { bytes.len() };
        if start.header_end > search_end || search_end > bytes.len() {
            return None;
        }
        let body = vstd::slice::slice_subrange(bytes, start.header_end, search_end);
        match parse_object_body(bytes, body, start.raw_start, start.header_end, start.reference, options) {
            Some(object) => {
                insert_object(&mut objects, object);
            },
            None => {
                let mut message = owned("Could not parse indirect object ");
                let text = start.reference.to_text();
                push_str(&mut message, text.as_str());
                push_warning(warnings, Some(start.raw_start), message);
            },
        }
        index = index + 1;
    }
    Some(objects)
}

// ---------------------------------------------------------------------------
// Object starts from the cross-reference table
// ---------------------------------------------------------------------------

/// The number of in-use entries.
pub open spec fn in_use_count(entries: Seq<XrefEntry>) -> nat
    decreases entries.len(),
{
    if entries.len() == 0 {
        0
    } else {
        in_use_count(entries.drop_last()) + if entries.last().in_use { 1nat } else { 0nat }
    }
}

/// The starts of in-use entries whose offset holds the header of the
/// object they name, in entry order.
pub open spec fn xref_starts(b: Seq<u8>, entries: Seq<XrefEntry>) -> Seq<ObjectStart>
    decreases entries.len(),
{
    if entries.len() == 0 {
        seq![]
    } else {
        let rest = xref_starts(b, entries.drop_last());
        let e = entries.last();
        if e.in_use {
            match object_header(b, e.offset as int) {
                Some((end, reference)) => if reference == e.reference {
                    rest.push(ObjectStart { raw_start: e.offset, header_end: end as usize, reference })
                } else {
                    rest
                },
                None => rest,
            }
        } else {
            rest
        }
    }
}

proof fn lemma_xref_starts_len(b: Seq<u8>, entries: Seq<XrefEntry>)
    ensures
        xref_starts(b, entries).len() <= in_use_count(entries),
        in_use_count(entries) <= entries.len(),
    decreases entries.len(),
{
    if entries.len() > 0 {
        lemma_xref_starts_len(b, entries.drop_last());
    }
}

/// `sorted` with `x` placed after every start that does not begin after it.
pub open spec fn insert_by_start(sorted: Seq<ObjectStart>, x: ObjectStart) -> Seq<ObjectStart>
    decreases sorted.len(),
{
    if sorted.len() == 0 {
        seq![x]
    } else if x.raw_start < sorted.last().raw_start {
        insert_by_start(sorted.drop_last(), x).push(sorted.last())
    } else {
        sorted.push(x)
    }
}

/// The starts in order of their position, equal positions in their given
/// order (a stable sort).
pub open spec fn sort_by_start(s: Seq<ObjectStart>) -> Seq<ObjectStart>
    decreases s.len(),
{
    if s.len() == 0 { seq![] } else { insert_by_start(sort_by_start(s.drop_last()), s.last()) }
}

/// The starts with each run of equal references cut to its first.
pub open spec fn dedup_refs(s: Seq<ObjectStart>) -> Seq<ObjectStart>
    decreases s.len(),
{
    if s.len() == 0 {
        seq![]
    } else if s.len() >= 2 && s[s.len() - 2].reference == s.last().reference {
        dedup_refs(s.drop_last())
    } else {
        dedup_refs(s.drop_last()).push(s.last())
    }
}

proof fn lemma_insert_by_start(s: Seq<ObjectStart>, x: ObjectStart, i: int)
    requires
        0 <= i <= s.len(),
        forall|j: int| i <= j < s.len() ==> x.raw_start < (#[trigger] s[j]).raw_start,
        i == 0 || !(x.raw_start < s[i - 1].raw_start),
    ensures
        insert_by_start(s, x) == s.take(i).push(x) + s.skip(i),
    decreases s.len() - i,
{
    if i == s.len() {
        if s.len() > 0 {
            assert(!(x.raw_start < s.last().raw_start));
        }
        assert(s.take(i).push(x) + s.skip(i) =~= s.push(x));
    } else {
        let t = s.drop_last();
        assert(x.raw_start < s.last().raw_start);
        assert forall|j: int| i <= j < t.len() implies x.raw_start < (#[trigger] t[j]).raw_start by {
            assert(t[j] == s[j]);
        }
        if i > 0 {
            assert(t[i - 1] == s[i - 1]);
        }
        lemma_insert_by_start(t, x, i);
        assert((t.take(i).push(x) + t.skip(i)).push(s.last()) =~= s.take(i).push(x) + s.skip(i));
    }
}

fn sort_starts(starts: &Vec<ObjectStart>) -> (r: Vec<ObjectStart>)
    ensures
        r@ == sort_by_start(starts@),
{
    let mut sorted: Vec<ObjectStart> = Vec::new();
    let mut k: usize = 0;
    while k < starts.len()
        invariant
            k <= starts@.len(),
            sorted@ == sort_by_start(starts@.take(k as int)),
        decreases starts@.len() - k,
    {
        let x = starts[k];
        let mut i = sorted.len();
        while i > 0 && x.raw_start < sorted[i - 1].raw_start
            invariant
                i <= sorted@.len(),
                forall|j: int| i <= j < sorted@.len() ==> x.raw_start < (#[trigger] sorted@[j]).raw_start,
            decreases i,
        {
            i = i - 1;
        }
        proof {
            lemma_insert_by_start(sorted@, x, i as int);
            assert(starts@.take(k + 1).drop_last() =~= starts@.take(k as int));
            assert(starts@.take(k + 1).last() == x);
        }
        let ghost before = sorted@;
        sorted.insert(i, x);
        assert(sorted@ =~= before.take(i as int).push(x) + before.skip(i as int));
        k = k + 1;
    }
    assert(starts@.take(starts@.len() as int) =~= starts@);
    sorted
}

fn dedup_starts(starts: &Vec<ObjectStart>) -> (r: Vec<ObjectStart>)
    ensures
        r@ == dedup_refs(starts@),
{
    let mut out: Vec<ObjectStart> = Vec::new();
    let mut k: usize = 0;
    while k < starts.len()
        invariant
            k <= starts@.len(),
            out@ == dedup_refs(starts@.take(k as int)),
        decreases starts@.len() - k,
    {
        let ghost t = starts@.take(k + 1);
        assert(t.drop_last() =~= starts@.take(k as int));
        assert(t.last() == starts@[k as int]);
        if k >= 1 {
            assert(t[t.len() - 2] == starts@[k - 1]);
        }
        if k >= 1 && starts[k - 1].reference == starts[k].reference {
        } else {
            out.push(starts[k]);
        }
        k = k + 1;
    }
    assert(starts@.take(starts@.len() as int) =~= starts@);
    out
}

fn collect_xref_starts(bytes: &[u8], entries: &[XrefEntry]) -> (r: (Vec<ObjectStart>, usize))
    ensures
        r.0@ == xref_starts(bytes@, entries@),
        r.1 == in_use_count(entries@),
{
    let mut starts: Vec<ObjectStart> = Vec::new();
    let mut in_use: usize = 0;
    let mut k: usize = 0;
    while k < entries.len()
        invariant
            k <= entries@.len(),
            starts@ == xref_starts(bytes@, entries@.take(k as int)),
            in_use == in_use_count(entries@.take(k as int)),
            in_use <= k,
        decreases entries@.len() - k,
    {
        let ghost t = entries@.take(k + 1);
        assert(t.drop_last() =~= entries@.take(k as int));
        assert(t.last() == entries@[k as int]);
        let entry = entries[k];
        if entry.in_use {
            in_use = in_use + 1;
            match parse_object_header_at(bytes, entry.offset) {
                Some((header_end, reference)) => {
                    if reference == entry.reference {
                        starts.push(ObjectStart { raw_start: entry.offset, header_end, reference });
                    }
                },
                None => {},
            }
        }
        k = k + 1;
    }
    assert(entries@.take(entries@.len() as int) =~= entries@);
    (starts, in_use)
}

/// "Skipped {n} in-use xref object(s) whose offsets did not resolve to the expected object"
pub open spec fn skipped_warning(n: nat) -> WarningV {
    (None, "Skipped "@ + decimal(n) + " in-use xref object(s) whose offsets did not resolve to the expected object"@)
}

/// "Classic xref offsets parsed only {found} of {in_use} in-use object(s); falling back to full object scan"
pub open spec fn xref_fallback_warning(found: nat, in_use: nat) -> WarningV {
    (None, "Classic xref offsets parsed only "@ + decimal(found) + " of "@ + decimal(in_use)
        + " in-use object(s); falling back to full object scan"@)
}

/// Objects located through the cross-reference entries: `Some((None, ..))`
/// when too few offsets resolve and the caller scans instead; `None` where
/// a body slice would fail.
pub open spec fn objects_via_xref(b: Seq<u8>, entries: Seq<XrefEntry>, options: ParseOptions, warns: Seq<WarningV>)
    -> Option<(Option<Seq<ObjectV>>, Seq<WarningV>)>
{
    let in_use = in_use_count(entries);
    let starts = xref_starts(b, entries);
    let ordered = dedup_refs(sort_by_start(starts));
    if in_use == 0 {
        Some((None, warns))
    } else if options.skip_invalid_xref_objects && starts.len() > 0 {
        let skipped = (in_use - starts.len()) as nat;
        let w = if skipped > 0 { warns.push(skipped_warning(skipped)) } else { warns };
        match objects_from_starts(b, ordered, options, 0, seq![], w) {
            Some((o, w2)) => Some((Some(o), w2)),
            None => None,
        }
    } else if starts.len() < 2 || starts.len() * 2 < in_use {
        Some((None, warns.push(xref_fallback_warning(starts.len(), in_use))))
    } else {
        match objects_from_starts(b, ordered, options, 0, seq![], warns) {
            Some((o, w2)) => Some((Some(o), w2)),
            None => None,
        }
    }
}

fn parse_indirect_objects_from_xref(
    bytes: &[u8],
    xref_entries: &[XrefEntry],
    options: ParseOptions,
    warnings: &mut Vec<ParseWarning>,
) -> (r: Option<Option<Vec<PdfObject>>>)
    ensures
        match objects_via_xref(bytes@, xref_entries@, options, warning_views(old(warnings)@)) {
            Some((objs, ws)) => r matches Some(x) && warning_views(final(warnings)@) == ws && match objs {
                Some(o) => x matches Some(v) && object_views(v@) == o && refs_sorted(o),
                None => x is None,
            },
            None => r is None,
        },
{
    let (starts, in_use_count) = collect_xref_starts(bytes, xref_entries);
    proof {
        lemma_xref_starts_len(bytes@, xref_entries@);
    }
    if in_use_count == 0 {
        return Some(None);
    }
    let found = starts.len();
    let skipped_count = in_use_count - found;
    let ordered = dedup_starts(&sort_starts(&starts));
    if options.skip_invalid_xref_objects && found > 0 {
        if skipped_count > 0 {
            let mut message = owned("Skipped ");
            push_decimal(&mut message, skipped_count);
            push_str(&mut message, " in-use xref object(s) whose offsets did not resolve to the expected object");
            push_warning(warnings, None, message);
        }
    } else if found < 2 || found < in_use_count - found {
        let mut message = owned("Classic xref offsets parsed only ");
        push_decimal(&mut message, found);
        push_str(&mut message, " of ");
        push_decimal(&mut message, in_use_count);
        push_str(&mut message, " in-use object(s); falling back to full object scan");
        push_warning(warnings, None, message);
        return Some(None);
    }
    match parse_indirect_object_starts(bytes, ordered.as_slice(), options, warnings) {
        Some(objects) => Some(Some(objects)),
        None => None,
    }
}

// ---------------------------------------------------------------------------
// Object starts from a scan of the whole file
// ---------------------------------------------------------------------------

/// What the regex `(?m)(\d+)\s+(\d+)\s+obj\b` (Unicode classes) captures
/// in successive non-overlapping matches: the overall span and the spans of
/// its two groups.
pub uninterp spec fn object_header_captures(haystack: Seq<u8>) -> Seq<(usize, usize, Option<(usize, usize)>, Option<(usize, usize)>)>;

/// Runs `regex::bytes::Regex::captures_iter` with the object-header pattern
/// and hands back each match's span and its two group spans. The contract
/// names the result and claims what the crate documents: every span lies
/// within the haystack with its start not after its end, and successive
/// matches do not overlap.
#[verifier::external_body]
fn object_header_matches(haystack: &[u8]) -> (r: Vec<(usize, usize, Option<(usize, usize)>, Option<(usize, usize)>)>)
    ensures
        r@ == object_header_captures(haystack@),
        forall|i: int| 0 <= i < r@.len() ==> (#[trigger] r@[i]).0 <= r@[i].1 <= haystack@.len(),
        forall|i: int| 0 <= i < r@.len() ==> ((#[trigger] r@[i]).2 matches Some((s, e)) ==> s <= e <= haystack@.len()),
        forall|i: int| 0 <= i < r@.len() ==> ((#[trigger] r@[i]).3 matches Some((s, e)) ==> s <= e <= haystack@.len()),
        forall|i: int, j: int| 0 <= i < j < r@.len() ==> (#[trigger] r@[i]).1 <= (#[trigger] r@[j]).0,
{
    let object_re = regex::bytes::Regex::new(r"(?m)(\d+)\s+(\d+)\s+obj\b").unwrap();
    object_re
        .captures_iter(haystack)
        .map(|c| {
            let full = c.get(0).unwrap();
            (
                full.start(),
                full.end(),
                c.get(1).map(|m| (m.start(), m.end())),
                c.get(2).map(|m| (m.start(), m.end())),
            )
        })
        .collect()
}

/// The starts of the captured headers whose numbers read as an object
/// number and a generation.
pub open spec fn scan_starts(b: Seq<u8>, caps: Seq<(usize, usize, Option<(usize, usize)>, Option<(usize, usize)>)>) -> Seq<ObjectStart>
    decreases caps.len(),
{
    if caps.len() == 0 {
        seq![]
    } else {
        let rest = scan_starts(b, caps.drop_last());
        let (s, e, g1, g2) = caps.last();
        match (g1, g2) {
            (Some((a1, b1)), Some((a2, b2))) => match (
                parse_unsigned(b.subrange(a1 as int, b1 as int), u32::MAX as nat),
                parse_unsigned(b.subrange(a2 as int, b2 as int), u16::MAX as nat),
            ) {
                (Some(o), Some(g)) => rest.push(ObjectStart { raw_start: s, header_end: e, reference: ObjectRef { object: o as u32, generation: g as u16 } }),
                _ => rest,
            },
            _ => rest,
        }
    }
}

/// The object starts that header captures give: for each capture whose
/// two groups read as an object number and a generation, the start and end
/// of the whole match with that reference.
pub fn object_starts_from_captures(
    bytes: &[u8],
    caps: &[(usize, usize, Option<(usize, usize)>, Option<(usize, usize)>)],
) -> (r: Vec<ObjectStart>)
    requires
        forall|i: int| 0 <= i < caps@.len() ==> ((#[trigger] caps@[i]).2 matches Some((s, e)) ==> s <= e <= bytes@.len()),
        forall|i: int| 0 <= i < caps@.len() ==> ((#[trigger] caps@[i]).3 matches Some((s, e)) ==> s <= e <= bytes@.len()),
    ensures
        r@ == scan_starts(bytes@, caps@),
{
    let mut starts: Vec<ObjectStart> = Vec::new();
    let mut k: usize = 0;
    while k < caps.len()
        invariant
            k <= caps@.len(),
            forall|i: int| 0 <= i < caps@.len() ==> ((#[trigger] caps@[i]).2 matches Some((s, e)) ==> s <= e <= bytes@.len()),
            forall|i: int| 0 <= i < caps@.len() ==> ((#[trigger] caps@[i]).3 matches Some((s, e)) ==> s <= e <= bytes@.len()),
            starts@ == scan_starts(bytes@, caps@.take(k as int)),
        decreases caps@.len() - k,
    {
        let ghost t = caps@.take(k + 1);
        assert(t.drop_last() =~= caps@.take(k as int));
        assert(t.last() == caps@[k as int]);
        let (s, e, g1, g2) = caps[k];
        match (g1, g2) {
            (Some((a1, b1)), Some((a2, b2))) => {
                let object = parse_u32(vstd::slice::slice_subrange(bytes, a1, b1));
                let generation = parse_u16(vstd::slice::slice_subrange(bytes, a2, b2));
                match (object, generation) {
                    (Some(o), Some(g)) => {
                        starts.push(ObjectStart { raw_start: s, header_end: e, reference: ObjectRef::new(o, g) });
                    },
                    _ => {},
                }
            },
            _ => {},
        }
        k = k + 1;
    }
    assert(caps@.take(caps@.len() as int) =~= caps@);
    starts
}

fn collect_scan_starts(bytes: &[u8]) -> (r: Vec<ObjectStart>)
    ensures
        r@ == scan_starts(bytes@, object_header_captures(bytes@)),
{
    let caps = object_header_matches(bytes);
    object_starts_from_captures(bytes, caps.as_slice())
}

/// Objects found by scanning the whole file for object headers.
pub open spec fn objects_by_scan(b: Seq<u8>, options: ParseOptions, warns: Seq<WarningV>) -> Option<(Seq<ObjectV>, Seq<WarningV>)> {
    objects_from_starts(b, scan_starts(b, object_header_captures(b)), options, 0, seq![], warns)
}

fn parse_indirect_objects_by_scan(bytes: &[u8], options: ParseOptions, warnings: &mut Vec<ParseWarning>) -> (r: Option<Vec<PdfObject>>)
    ensures
        match objects_by_scan(bytes@, options, warning_views(old(warnings)@)) {
            Some((objs, ws)) => r matches Some(v) && object_views(v@) == objs && refs_sorted(objs)
                && warning_views(final(warnings)@) == ws,
            None => r is None,
        },
{
    let starts = collect_scan_starts(bytes);
    parse_indirect_object_starts(bytes, starts.as_slice(), options, warnings)
}

/// The objects of a file: through the cross-reference entries when enough
/// of them resolve, else by scanning.
pub open spec fn indirect_objects(b: Seq<u8>, entries: Seq<XrefEntry>, options: ParseOptions, warns: Seq<WarningV>)
    -> Option<(Seq<ObjectV>, Seq<WarningV>)>
{
    match objects_via_xref(b, entries, options, warns) {
        None => None,
        Some((Some(o), w)) => Some((o, w)),
        Some((None, w)) => objects_by_scan(b, options, w),
    }
}

fn parse_indirect_objects(
    bytes: &[u8],
    xref_entries: &[XrefEntry],
    options: ParseOptions,
    warnings: &mut Vec<ParseWarning>,
) -> (r: Option<Vec<PdfObject>>)
    ensures
        match indirect_objects(bytes@, xref_entries@, options, warning_views(old(warnings)@)) {
            Some((objs, ws)) => r matches Some(v) && object_views(v@) == objs && refs_sorted(objs)
                && warning_views(final(warnings)@) == ws,
            None => r is None,
        },
{
    match parse_indirect_objects_from_xref(bytes, xref_entries, options, warnings) {
        None => None,
        Some(Some(objects)) => Some(objects),
        Some(None) => parse_indirect_objects_by_scan(bytes, options, warnings),
    }
}


// ---------------------------------------------------------------------------
// Cross-reference sections
// ---------------------------------------------------------------------------

pub open spec fn xref_bytes() -> Seq<u8> {
    seq![0x78u8, 0x72u8, 0x65u8, 0x66u8]
}

pub open spec fn trailer_bytes() -> Seq<u8> {
    seq![0x74u8, 0x72u8, 0x61u8, 0x69u8, 0x6cu8, 0x65u8, 0x72u8]
}

pub open spec fn startxref_bytes() -> Seq<u8> {
    seq![0x73u8, 0x74u8, 0x61u8, 0x72u8, 0x74u8, 0x78u8, 0x72u8, 0x65u8, 0x66u8]
}

/// One entry line between `start` and `end`: offset, generation, and `n`
/// for in use; the numbers may run past the line's end.
pub open spec fn xref_entry_line(b: Seq<u8>, start: int, end: int, object_number: u32) -> Option<XrefEntry> {
    let p0 = skip_ws_from(b, start);
    if p0 >= end {
        None
    } else {
        match digits_at(b, p0, usize::MAX as nat) {
            None => None,
            Some((offset, p1)) => {
                let p2 = skip_ws_from(b, p1);
                match digits_at(b, p2, u16::MAX as nat) {
                    None => None,
                    Some((generation, p3)) => {
                        let p4 = skip_ws_from(b, p3);
                        if p4 < 0 || p4 >= b.len() {
                            None
                        } else {
                            Some(XrefEntry {
                                reference: ObjectRef { object: object_number, generation: generation as u16 },
                                offset: offset as usize,
                                in_use: b[p4] == 0x6eu8,
                                valid_offset: None,
                            })
                        }
                    },
                }
            },
        }
    }
}

fn parse_xref_entry_line(bytes: &[u8], start: usize, end: usize, object_number: u32) -> (r: Option<XrefEntry>)
    ensures
        r == xref_entry_line(bytes@, start as int, end as int, object_number),
{
    let mut pos = skip_ascii_whitespace(bytes, start);
    if pos >= end {
        return None;
    }
    let offset = match parse_usize_at(bytes, &mut pos) {
        Some(v) => v,
        None => return None,
    };
    pos = skip_ascii_whitespace(bytes, pos);
    let generation = match parse_u16_at(bytes, &mut pos) {
        Some(v) => v,
        None => return None,
    };
    pos = skip_ascii_whitespace(bytes, pos);
    if pos >= bytes.len() {
        return None;
    }
    let in_use = bytes[pos] == 0x6e;
    Some(XrefEntry { reference: ObjectRef::new(object_number, generation), offset, in_use, valid_offset: None })
}

/// The entries of a subsection whose header names `first` and `count`,
/// read line by line from `cursor` from entry `index` on: the entries and
/// the position after the last line. `None` where the original scan runs
/// off the end of the data or the object number overflows.
pub open spec fn xref_subsection(b: Seq<u8>, cursor: int, first: u32, index: nat, count: nat, acc: Seq<XrefEntry>)
    -> Option<(Seq<XrefEntry>, int)>
    decreases count - index,
{
    if index >= count {
        Some((acc, cursor))
    } else if cursor < 0 || cursor > b.len() {
        None
    } else {
        let c = skip_blank(b, cursor);
        if c > b.len() {
            None
        } else {
            let e = line_end_from(b, c);
            let num = first + (index % 0x1_0000_0000);
            if num > u32::MAX {
                None
            } else {
                let acc2 = match xref_entry_line(b, c, e, num as u32) {
                    Some(x) => acc.push(x),
                    None => acc,
                };
                xref_subsection(b, e + 1, first, index + 1, count, acc2)
            }
        }
    }
}

pub proof fn lemma_skip_blank_bounds(b: Seq<u8>, cursor: int)
    requires
        0 <= cursor,
        b.len() <= usize::MAX,
    ensures
        cursor <= skip_blank(b, cursor),
    decreases b.len() - cursor,
{
    if cursor < b.len() {
        let end = line_end_from(b, cursor);
        lemma_line_end_bounds(b, cursor);
        let next = if end + 1 > usize::MAX { usize::MAX as int } else { end + 1 };
        if forall|k: int| cursor <= k < end ==> is_ws(#[trigger] b[k]) {
            if !(next <= cursor || next >= b.len()) {
                lemma_skip_blank_bounds(b, next);
            }
        }
    }
}

proof fn lemma_xref_subsection_bounds(b: Seq<u8>, cursor: int, first: u32, index: nat, count: nat, acc: Seq<XrefEntry>)
    requires
        0 <= cursor <= b.len() + 1,
        b.len() <= usize::MAX,
    ensures
        xref_subsection(b, cursor, first, index, count, acc) matches Some((_, next)) ==> cursor <= next <= b.len() + 1,
    decreases count - index,
{
    if index < count && cursor <= b.len() {
        let c = skip_blank(b, cursor);
        lemma_skip_blank_bounds(b, cursor);
        if c <= b.len() {
            let e = line_end_from(b, c);
            lemma_line_end_bounds(b, c);
            let num = first + (index % 0x1_0000_0000);
            if num <= u32::MAX {
                let acc2 = match xref_entry_line(b, c, e, num as u32) {
                    Some(x) => acc.push(x),
                    None => acc,
                };
                lemma_xref_subsection_bounds(b, e + 1, first, index + 1, count, acc2);
            }
        }
    }
}

fn parse_xref_subsection(bytes: &[u8], cursor: usize, first: u32, count: usize, entries: &mut Vec<XrefEntry>) -> (r: Option<usize>)
    requires
        cursor <= bytes@.len() + 1,
    ensures
        match xref_subsection(bytes@, cursor as int, first, 0, count as nat, old(entries)@) {
            Some((acc, next)) => if next <= usize::MAX { r == Some(next as usize) && final(entries)@ == acc } else { r is None },
            None => r is None,
        },
{
    let n = bytes.len();
    let mut line_cursor = cursor;
    let mut index: usize = 0;
    proof {
        lemma_xref_subsection_bounds(bytes@, cursor as int, first, 0, count as nat, entries@);
    }
    while index < count
        invariant
            index <= count,
            line_cursor <= bytes@.len() + 1,
            xref_subsection(bytes@, cursor as int, first, 0, count as nat, old(entries)@)
                == xref_subsection(bytes@, line_cursor as int, first, index as nat, count as nat, entries@),
        decreases count - index,
    {
        if line_cursor > bytes.len() {
            return None;
        }
        let c = skip_blank_lines(bytes, line_cursor);
        if c > bytes.len() {
            return None;
        }
        let e = line_end(bytes, c);
        let step = (index as u64) % 0x1_0000_0000u64;
        if first as u64 + step > 0xffff_ffff {
            return None;
        }
        let num = (first as u64 + step) as u32;
        match parse_xref_entry_line(bytes, c, e, num) {
            Some(x) => entries.push(x),
            None => {},
        }
        if e == usize::MAX {
            proof {
                lemma_xref_subsection_bounds(bytes@, e + 1, first, (index + 1) as nat, count as nat, entries@);
            }
            return None;
        }
        line_cursor = e + 1;
        index = index + 1;
    }
    Some(line_cursor)
}

/// A section's entries, its trailer, the trailer's `/Prev`, and where a
/// trailer failed to parse.
pub type SectionV = (Seq<XrefEntry>, Option<ValueView>, Option<usize>, Option<usize>);

/// The `/Prev` offset of a trailer dictionary.
pub open spec fn trailer_prev(v: ValueView) -> Option<usize> {
    match v {
        ValueView::Dictionary(d) => match dict_get(d, "Prev"@) {
            Some(p) => view_usize(p),
            None => None,
        },
        _ => None,
    }
}

/// The section's end at a `trailer` keyword at `c`: the trailer value and
/// its `/Prev`, or where it failed to parse.
pub open spec fn trailer_section(b: Seq<u8>, c: int, entries: Seq<XrefEntry>) -> SectionV {
    let ts = c + 7;
    match spec_value(b.subrange(ts, b.len() as int), 0) {
        Some((v, _)) => (entries, Some(v), trailer_prev(v), None),
        None => (entries, None, None, Some(ts as usize)),
    }
}

/// The lines of a section from `cursor`: subsections up to `trailer` or the
/// first line that is neither. `None` where the original runs off the end.
pub open spec fn xref_section_lines(b: Seq<u8>, cursor: int, entries: Seq<XrefEntry>) -> Option<SectionV>
    decreases b.len() + 2 - cursor, 1int,
{
    if cursor < 0 || cursor > b.len() {
        None
    } else {
        let c = skip_blank(b, cursor);
        if c >= b.len() {
            Some((entries, None, None, None))
        } else if occurs_at(b, trailer_bytes(), c) {
            Some(trailer_section(b, c, entries))
        } else {
            match subsection_header(b, c) {
                None => Some((entries, None, None, None)),
                Some((first, count, ce)) => after_subsection(b, cursor, entries, first, count, ce),
            }
        }
    }
}

/// The section that starts with `xref` at `start`: `Some(None)` when no
/// `xref` is there; `None` where the original runs off the end.
pub open spec fn xref_section(b: Seq<u8>, start: int) -> Option<Option<SectionV>> {
    if !occurs_at(b, xref_bytes(), start) {
        Some(None)
    } else {
        match xref_section_lines(b, line_end_from(b, start) + 1, seq![]) {
            None => None,
            Some(x) => Some(Some(x)),
        }
    }
}

/// The outcome of a section: entries, trailer, `/Prev`, failed trailer offset.
pub type SectionResult = (Vec<XrefEntry>, Option<PdfValue>, Option<usize>, Option<usize>);

pub open spec fn section_result_matches(r: SectionResult, s: SectionV) -> bool {
    &&& r.0@ == s.0
    &&& r.2 == s.2
    &&& r.3 == s.3
    &&& match s.1 {
        Some(tv) => r.1 matches Some(yv) && yv@ == tv,
        None => r.1 is None,
    }
}

fn parse_trailer_at(bytes: &[u8], trailer_start: usize, entries: Vec<XrefEntry>) -> (r: SectionResult)
    requires
        7 <= trailer_start <= bytes@.len(),
    ensures
        section_result_matches(r, trailer_section(bytes@, trailer_start - 7, entries@)),
{
    let tail = vstd::slice::slice_subrange(bytes, trailer_start, bytes.len());
    match parse_pdf_value_with_consumed(tail) {
        Some((value, _)) => {
            let prev = match value.as_dictionary() {
                Some(d) => match d.get("Prev") {
                    Some(p) => p.as_usize(),
                    None => None,
                },
                None => None,
            };
            (entries, Some(value), prev, None)
        },
        None => (entries, None, None, Some(trailer_start)),
    }
}

/// A subsection header line at `c`: the first object number, the count,
/// and the end of the line.
pub open spec fn subsection_header(b: Seq<u8>, c: int) -> Option<(nat, nat, int)> {
    match digits_at(b, c, u32::MAX as nat) {
        None => None,
        Some((first, p1)) => {
            let p2 = skip_ws_from(b, p1);
            match digits_at(b, p2, usize::MAX as nat) {
                None => None,
                Some((count, _)) => Some((first, count, line_end_from(b, c))),
            }
        },
    }
}

fn parse_subsection_header(bytes: &[u8], c: usize) -> (r: Option<(u32, usize, usize)>)
    requires
        c < bytes@.len(),
    ensures
        match r {
            Some((f, k, e)) => subsection_header(bytes@, c as int) == Some((f as nat, k as nat, e as int)),
            None => subsection_header(bytes@, c as int) is None,
        },
        r matches Some((_, _, end)) ==> c <= end <= bytes@.len(),
{
    let current_end = line_end(bytes, c);
    let mut header_pos = c;
    let first_object = match parse_u32_at(bytes, &mut header_pos) {
        Some(v) => v,
        None => return None,
    };
    header_pos = skip_ascii_whitespace(bytes, header_pos);
    let count = match parse_usize_at(bytes, &mut header_pos) {
        Some(v) => v,
        None => return None,
    };
    Some((first_object, count, current_end))
}

/// What follows a subsection header: its entries, then the next lines.
pub open spec fn after_subsection(b: Seq<u8>, cursor: int, entries: Seq<XrefEntry>, first: nat, count: nat, ce: int) -> Option<SectionV>
    decreases b.len() + 2 - cursor, 0int,
{
    match xref_subsection(b, ce + 1, first as u32, 0, count, entries) {
        None => None,
        Some((entries2, next)) => if next <= cursor || next > b.len() + 1 {
            Some((entries2, None, None, None))
        } else {
            xref_section_lines(b, next, entries2)
        },
    }
}

fn parse_after_subsection_header(
    bytes: &[u8],
    cursor: usize,
    entries: Vec<XrefEntry>,
    first_object: u32,
    count: usize,
    current_end: usize,
) -> (r: Option<SectionResult>)
    requires
        cursor <= bytes@.len(),
        current_end <= bytes@.len(),
    ensures
        match after_subsection(bytes@, cursor as int, entries@, first_object as nat, count as nat, current_end as int) {
            Some(s) => r matches Some(x) && section_result_matches(x, s),
            None => r is None,
        },
    decreases bytes@.len() + 2 - cursor, 0int,
{
    let n = bytes.len();
    let mut entries = entries;
    if current_end == usize::MAX {
        proof {
            assert(bytes@.len() == current_end);
            if count > 0 {
                assert(xref_subsection(bytes@, current_end + 1, first_object, 0, count as nat, entries@) is None);
            } else {
                assert(xref_subsection(bytes@, current_end + 1, first_object, 0, count as nat, entries@) == Some((entries@, current_end + 1)));
                assert(xref_section_lines(bytes@, current_end + 1, entries@) is None);
            }
        }
        return None;
    }
    proof {
        lemma_xref_subsection_bounds(bytes@, current_end + 1, first_object, 0, count as nat, entries@);
    }
    let ghost before = entries@;
    match parse_xref_subsection(bytes, current_end + 1, first_object, count, &mut entries) {
        Some(next) => {
            if next <= cursor || next - 1 > n {
                return Some((entries, None, None, None));
            }
            parse_section_lines(bytes, next, entries)
        },
        None => {
            proof {
                if let Some((acc, next)) = xref_subsection(bytes@, current_end + 1, first_object, 0, count as nat, before) {
                    assert(next == bytes@.len() + 1);
                    assert(xref_section_lines(bytes@, next, acc) is None);
                }
            }
            None
        },
    }
}

fn parse_section_lines(bytes: &[u8], cursor: usize, entries: Vec<XrefEntry>) -> (r: Option<SectionResult>)
    ensures
        match xref_section_lines(bytes@, cursor as int, entries@) {
            Some(s) => r matches Some(x) && section_result_matches(x, s),
            None => r is None,
        },
    decreases bytes@.len() + 2 - cursor, 1int,
{
    let n = bytes.len();
    if cursor > n {
        return None;
    }
    let c = skip_blank_lines(bytes, cursor);
    if c >= n {
        return Some((entries, None, None, None));
    }
    let trailer_kw: [u8; 7] = [0x74, 0x72, 0x61, 0x69, 0x6c, 0x65, 0x72];
    assert(trailer_kw@ =~= trailer_bytes());
    if starts_with_at(bytes, c, &trailer_kw) {
        return Some(parse_trailer_at(bytes, c + 7, entries));
    }
    match parse_subsection_header(bytes, c) {
        Some((first_object, count, current_end)) => {
            parse_after_subsection_header(bytes, cursor, entries, first_object, count, current_end)
        },
        None => Some((entries, None, None, None)),
    }
}

fn parse_xref_section_at(bytes: &[u8], xref_start: usize) -> (r: Option<Option<SectionResult>>)
    ensures
        match xref_section(bytes@, xref_start as int) {
            None => r is None,
            Some(None) => r matches Some(x) && x is None,
            Some(Some(s)) => r matches Some(Some(x)) && section_result_matches(x, s),
        },
{
    let n = bytes.len();
    let xref: [u8; 4] = [0x78, 0x72, 0x65, 0x66];
    assert(xref@ =~= xref_bytes());
    if !starts_with_at(bytes, xref_start, &xref) {
        return Some(None);
    }
    let entries: Vec<XrefEntry> = Vec::new();
    assert(entries@ =~= Seq::<XrefEntry>::empty());
    let le = line_end(bytes, xref_start);
    if le == usize::MAX {
        assert(xref_section_lines(bytes@, le + 1, seq![]) is None);
        return None;
    }
    match parse_section_lines(bytes, le + 1, entries) {
        Some(x) => Some(Some(x)),
        None => None,
    }
}


// ---------------------------------------------------------------------------
// The chain of sections
// ---------------------------------------------------------------------------

/// The view of an optional value.
pub open spec fn opt_view(x: Option<PdfValue>) -> Option<ValueView> {
    match x {
        Some(v) => Some(v@),
        None => None,
    }
}

/// An optional value matches its view.
pub open spec fn opt_value_matches(x: Option<PdfValue>, v: Option<ValueView>) -> bool {
    match v {
        Some(vv) => x matches Some(xv) && xv@ == vv,
        None => x is None,
    }
}

/// `acc` with the entries of `es` stored in order; with `replace` later
/// entries win, without it the first entry for a reference stays.
pub open spec fn merge_entries(acc: Seq<XrefEntry>, es: Seq<XrefEntry>, replace: bool) -> Seq<XrefEntry>
    decreases es.len(),
{
    if es.len() == 0 {
        acc
    } else {
        let m = merge_entries(acc, es.drop_last(), replace);
        if replace { entries_put(m, es.last()) } else { entries_put_absent(m, es.last()) }
    }
}

fn merge_into(acc: &mut Vec<XrefEntry>, es: &Vec<XrefEntry>, replace: bool)
    requires
        entries_sorted(old(acc)@),
    ensures
        final(acc)@ == merge_entries(old(acc)@, es@, replace),
        entries_sorted(final(acc)@),
{
    let ghost a0 = acc@;
    let mut k: usize = 0;
    while k < es.len()
        invariant
            k <= es@.len(),
            entries_sorted(acc@),
            acc@ == merge_entries(a0, es@.take(k as int), replace),
        decreases es@.len() - k,
    {
        assert(es@.take(k + 1).drop_last() =~= es@.take(k as int));
        assert(es@.take(k + 1).last() == es@[k as int]);
        insert_entry(acc, es[k], replace);
        k = k + 1;
    }
    assert(es@.take(es@.len() as int) =~= es@);
}

/// The offset after the last `startxref`.
pub open spec fn startxref_offset(b: Seq<u8>) -> Option<usize> {
    match find_last(b, startxref_bytes(), b.len() as int) {
        None => None,
        Some(m) => {
            let p = skip_ws_from(b, m + 9);
            match digits_at(b, p, usize::MAX as nat) {
                Some((v, _)) => Some(v as usize),
                None => None,
            }
        },
    }
}

fn parse_startxref(bytes: &[u8]) -> (r: Option<usize>)
    ensures
        r == startxref_offset(bytes@),
{
    let kw: [u8; 9] = [0x73, 0x74, 0x61, 0x72, 0x74, 0x78, 0x72, 0x65, 0x66];
    assert(kw@ =~= startxref_bytes());
    let n = bytes.len();
    let marker = match rfind_subslice(bytes, &kw) {
        Some(m) => m,
        None => return None,
    };
    assert(marker + 9 <= n);
    let mut pos = skip_ascii_whitespace(bytes, marker + 9);
    parse_usize_at(bytes, &mut pos)
}

/// Sections followed from an offset through `/Prev` until an offset comes
/// again: merged entries (the newest entry for each reference), the first
/// trailer, and the number of sections. `Some(None)` when an offset holds
/// no section; `None` where a section scan runs off the end.
pub open spec fn xref_chain(b: Seq<u8>, offset: usize, seen: Seq<usize>, entries: Seq<XrefEntry>, trailer: Option<ValueView>)
    -> Option<Option<(Seq<XrefEntry>, Option<ValueView>, nat)>>
    decreases b.len() + 1 - seen.len(),
{
    if seen.contains(offset) || seen.len() > b.len() {
        Some(Some((entries, trailer, seen.len())))
    } else {
        let seen2 = seen.push(offset);
        match xref_section(b, offset as int) {
            None => None,
            Some(None) => Some(None),
            Some(Some((es, t, prev, _))) => {
                let entries2 = merge_entries(entries, es, false);
                let trailer2 = if trailer is Some { trailer } else { t };
                match prev {
                    None => Some(Some((entries2, trailer2, seen2.len()))),
                    Some(p) => xref_chain(b, p, seen2, entries2, trailer2),
                }
            },
        }
    }
}

proof fn lemma_entries_put_get(s: Seq<XrefEntry>, e: XrefEntry, r: ObjectRef)
    ensures
        entries_get(entries_put(s, e), r) == if r == e.reference { Some(e) } else { entries_get(s, r) },
    decreases s.len(),
{
    if s.len() == 0 {
        assert(seq![e].drop_first() =~= Seq::<XrefEntry>::empty());
        assert(entries_get(Seq::<XrefEntry>::empty(), r) is None);
        assert(entries_get(s, r) is None);
    } else if s[0].reference != e.reference && !e.reference.precedes(s[0].reference) {
        lemma_entries_put_get(s.drop_first(), e, r);
        let t = seq![s[0]] + entries_put(s.drop_first(), e);
        assert(t[0] == s[0]);
        assert(t.drop_first() =~= entries_put(s.drop_first(), e));
    } else if s[0].reference == e.reference {
        let t = seq![e] + s.drop_first();
        assert(t[0] == e);
        assert(t.drop_first() =~= s.drop_first());
    } else {
        let t = seq![e] + s;
        assert(t[0] == e);
        assert(t.drop_first() =~= s);
    }
}

proof fn lemma_entries_get_push(s: Seq<XrefEntry>, e: XrefEntry, r: ObjectRef)
    ensures
        entries_get(s.push(e), r) == if entries_get(s, r) is Some { entries_get(s, r) } else if e.reference == r { Some(e) } else { None },
    decreases s.len(),
{
    if s.len() > 0 {
        assert(s.push(e)[0] == s[0]);
        assert(s.push(e).drop_first() =~= s.drop_first().push(e));
        lemma_entries_get_push(s.drop_first(), e, r);
    } else {
        assert(s.push(e) =~= seq![e]);
        assert(seq![e].drop_first() =~= Seq::<XrefEntry>::empty());
        assert(entries_get(Seq::<XrefEntry>::empty(), r) is None);
    }
}

/// Merging a section without replacing: a reference already present keeps
/// its entry, any other takes the section's first entry for it.
proof fn lemma_merge_keep_first(acc: Seq<XrefEntry>, es: Seq<XrefEntry>, r: ObjectRef)
    ensures
        entries_get(merge_entries(acc, es, false), r)
            == if entries_get(acc, r) is Some { entries_get(acc, r) } else { entries_get(es, r) },
    decreases es.len(),
{
    if es.len() > 0 {
        let m = merge_entries(acc, es.drop_last(), false);
        lemma_merge_keep_first(acc, es.drop_last(), r);
        lemma_entries_get_push(es.drop_last(), es.last(), r);
        assert(es.drop_last().push(es.last()) =~= es);
        lemma_entries_put_get(m, es.last(), r);
        lemma_entries_put_get(m, es.last(), es.last().reference);
    }
}

/// Following cross-reference sections from an offset back through `/Prev`:
/// an entry already held is never replaced by an older section, and a
/// reference the first (newest) section lists ends with that section's
/// entry for it, whatever the sections reached through `/Prev` say.
pub proof fn lemma_xref_chain_newest_wins(
    b: Seq<u8>,
    offset: usize,
    seen: Seq<usize>,
    entries: Seq<XrefEntry>,
    trailer: Option<ValueView>,
    r: ObjectRef,
)
    ensures
        match xref_chain(b, offset, seen, entries, trailer) {
            Some(Some((es, _, _))) => {
                &&& (entries_get(entries, r) is Some ==> entries_get(es, r) == entries_get(entries, r))
                &&& match xref_section(b, offset as int) {
                    Some(Some((first, _, _, _))) => !seen.contains(offset) && seen.len() <= b.len()
                        && entries_get(entries, r) is None && entries_get(first, r) is Some
                        ==> entries_get(es, r) == entries_get(first, r),
                    _ => true,
                }
            },
            _ => true,
        },
    decreases b.len() + 1 - seen.len(),
{
    if seen.contains(offset) || seen.len() > b.len() {
    } else {
        let seen2 = seen.push(offset);
        match xref_section(b, offset as int) {
            None => {},
            Some(None) => {},
            Some(Some((es, t, prev, _))) => {
                let merged = merge_entries(entries, es, false);
                let next_trailer = if trailer is Some { trailer } else { t };
                lemma_merge_keep_first(entries, es, r);
                match prev {
                    None => {},
                    Some(p) => {
                        lemma_xref_chain_newest_wins(b, p, seen2, merged, next_trailer, r);
                    },
                }
            },
        }
    }
}

fn contains_offset(seen: &Vec<usize>, offset: usize) -> (r: bool)
    ensures
        r == seen@.contains(offset),
{
    let mut k: usize = 0;
    while k < seen.len()
        invariant
            k <= seen@.len(),
            forall|j: int| 0 <= j < k ==> seen@[j] != offset,
        decreases seen@.len() - k,
    {
        if seen[k] == offset {
            assert(seen@[k as int] == offset);
            return true;
        }
        k = k + 1;
    }
    false
}

/// The outcome of reading cross-reference sections: entries, trailer, count.
pub type SectionsResult = (Vec<XrefEntry>, Option<PdfValue>, usize);

fn follow_xref_chain(
    bytes: &[u8],
    offset: usize,
    seen: Vec<usize>,
    entries: Vec<XrefEntry>,
    trailer: Option<PdfValue>,
) -> (r: Option<Option<SectionsResult>>)
    requires
        entries_sorted(entries@),
        seen@.len() <= bytes@.len() + 1,
    ensures
        match xref_chain(bytes@, offset, seen@, entries@, opt_view(trailer)) {
            None => r is None,
            Some(None) => r matches Some(x) && x is None,
            Some(Some((es, t, n))) => r matches Some(Some((x, y, c))) && x@ == es && entries_sorted(es)
                && opt_value_matches(y, t) && c == n,
        },
    decreases bytes@.len() + 1 - seen@.len(),
{
    let n = bytes.len();
    let mut seen = seen;
    let mut entries = entries;
    let mut trailer = trailer;
    // An offset chain visits each section start at most once; the length
    // bound makes that explicit.
    if contains_offset(&seen, offset) || seen.len() > n {
        let count = seen.len();
        return Some(Some((entries, trailer, count)));
    }
    seen.push(offset);
    let (section_entries, section_trailer, prev) = match parse_xref_section_at(bytes, offset) {
        None => return None,
        Some(None) => return Some(None),
        Some(Some((es, t, p, _))) => (es, t, p),
    };
    merge_into(&mut entries, &section_entries, false);
    if trailer.is_none() {
        trailer = section_trailer;
    }
    match prev {
        None => {
            let count = seen.len();
            Some(Some((entries, trailer, count)))
        },
        Some(p) => follow_xref_chain(bytes, p, seen, entries, trailer),
    }
}

fn parse_xref_sections_from_startxref(bytes: &[u8]) -> (r: Option<Option<SectionsResult>>)
    ensures
        match startxref_offset(bytes@) {
            None => r matches Some(x) && x is None,
            Some(o) => match xref_chain(bytes@, o, seq![], seq![], None) {
                None => r is None,
                Some(None) => r matches Some(x) && x is None,
                Some(Some((es, t, n))) => r matches Some(Some((x, y, c))) && x@ == es && entries_sorted(es)
                    && opt_value_matches(y, t) && c == n,
            },
        },
{
    let offset = match parse_startxref(bytes) {
        Some(o) => o,
        None => return Some(None),
    };
    let seen: Vec<usize> = Vec::new();
    let entries: Vec<XrefEntry> = Vec::new();
    assert(seen@ =~= Seq::<usize>::empty());
    assert(entries@ =~= Seq::<XrefEntry>::empty());
    follow_xref_chain(bytes, offset, seen, entries, None)
}

/// "Could not parse trailer dictionary"
pub open spec fn trailer_warning(offset: usize) -> WarningV {
    (Some(offset), "Could not parse trailer dictionary"@)
}

/// Sections found by scanning for `xref` at the start of a line, followed
/// by whitespace: entries merged with later ones winning, the last trailer,
/// and the number of sections read.
pub open spec fn xref_scan(b: Seq<u8>, cursor: int, entries: Seq<XrefEntry>, trailer: Option<ValueView>, count: nat, warns: Seq<WarningV>)
    -> Option<(Seq<XrefEntry>, Option<ValueView>, nat, Seq<WarningV>)>
    decreases b.len() + 1 - cursor,
{
    if cursor < 0 || cursor > b.len() {
        Some((entries, trailer, count, warns))
    } else {
        match find_first(b, xref_bytes(), cursor) {
            None => Some((entries, trailer, count, warns)),
            Some(x) => {
                proof {
                    lemma_find_first_bounds(b, xref_bytes(), cursor);
                }
                let next = x + 4;
                if !at_line_start(b, x) || (0 <= x + 4 < b.len() && !is_ws(b[x + 4])) {
                    xref_scan(b, next, entries, trailer, count, warns)
                } else {
                    match xref_section(b, x) {
                        None => None,
                        Some(None) => xref_scan(b, next, entries, trailer, count, warns),
                        Some(Some((es, t, _, failed))) => {
                            let w = match failed {
                                Some(o) => warns.push(trailer_warning(o)),
                                None => warns,
                            };
                            xref_scan(b, next, merge_entries(entries, es, true), if t is Some { t } else { trailer }, count + 1, w)
                        },
                    }
                }
            },
        }
    }
}

fn parse_xref_sections_by_scan(bytes: &[u8], warnings: &mut Vec<ParseWarning>) -> (r: Option<SectionsResult>)
    ensures
        match xref_scan(bytes@, 0, seq![], None, 0, warning_views(old(warnings)@)) {
            None => r is None,
            Some((es, t, n, ws)) => r matches Some((x, y, c)) && x@ == es && entries_sorted(es) && opt_value_matches(y, t)
                && c == n && warning_views(final(warnings)@) == ws,
        },
{
    let n = bytes.len();
    let mut entries: Vec<XrefEntry> = Vec::new();
    let mut trailer: Option<PdfValue> = None;
    let ghost mut trailer_view: Option<ValueView> = None;
    let mut section_count: usize = 0;
    let mut cursor: usize = 0;
    let ghost w0 = warning_views(warnings@);
    let xref: [u8; 4] = [0x78, 0x72, 0x65, 0x66];
    assert(xref@ =~= xref_bytes());
    assert(entries@ =~= Seq::<XrefEntry>::empty());
    loop
        invariant
            n == bytes@.len(),
            cursor <= n,
            section_count <= cursor,
            xref@ == xref_bytes(),
            w0 == warning_views(old(warnings)@),
            entries_sorted(entries@),
            opt_value_matches(trailer, trailer_view),
            xref_scan(bytes@, 0, seq![], None, 0, w0)
                == xref_scan(bytes@, cursor as int, entries@, trailer_view, section_count as nat, warning_views(warnings@)),
        decreases n + 1 - cursor,
    {
        let xref_start = match find_first_from(bytes, cursor, &xref) {
            Some(x) => x,
            None => return Some((entries, trailer, section_count)),
        };
        let next = xref_start + 4;
        let after_ok = !(next < n && !ascii_whitespace(bytes[next]));
        if !is_line_start(bytes, xref_start) || !after_ok {
            cursor = next;
        } else {
            match parse_xref_section_at(bytes, xref_start) {
                None => return None,
                Some(None) => {
                    cursor = next;
                },
                Some(Some((section_entries, section_trailer, _, failed))) => {
                    match failed {
                        Some(o) => push_warning(warnings, Some(o), owned("Could not parse trailer dictionary")),
                        None => {},
                    }
                    merge_into(&mut entries, &section_entries, true);
                    if section_trailer.is_some() {
                        proof {
                            trailer_view = opt_view(section_trailer);
                        }
                        trailer = section_trailer;
                    }
                    section_count = section_count + 1;
                    cursor = next;
                },
            }
        }
    }
}

/// The cross-reference sections of a file: followed from `startxref` when
/// that works, else found by scanning.
pub open spec fn xref_sections(b: Seq<u8>, warns: Seq<WarningV>) -> Option<(Seq<XrefEntry>, Option<ValueView>, nat, Seq<WarningV>)> {
    let via = match startxref_offset(b) {
        None => Some(None),
        Some(o) => xref_chain(b, o, seq![], seq![], None),
    };
    match via {
        None => None,
        Some(Some((e, t, n))) => Some((e, t, n, warns)),
        Some(None) => xref_scan(b, 0, seq![], None, 0, warns),
    }
}

fn parse_xref_sections(bytes: &[u8], warnings: &mut Vec<ParseWarning>) -> (r: Option<SectionsResult>)
    ensures
        match xref_sections(bytes@, warning_views(old(warnings)@)) {
            None => r is None,
            Some((es, t, n, ws)) => r matches Some((x, y, c)) && x@ == es && entries_sorted(es) && opt_value_matches(y, t)
                && c == n && warning_views(final(warnings)@) == ws,
        },
{
    match parse_xref_sections_from_startxref(bytes) {
        None => None,
        Some(Some(parsed)) => Some(parsed),
        Some(None) => parse_xref_sections_by_scan(bytes, warnings),
    }
}


// ---------------------------------------------------------------------------
// Object streams
// ---------------------------------------------------------------------------

/// The most bytes an object stream may decode to.
pub const OBJECT_STREAM_DECODE_LIMIT: usize = 32 * 1024 * 1024;

/// The whitespace-separated words of a text, in order (`str::split_whitespace`).
pub open spec fn ws_words(t: Seq<char>, cur: Seq<char>, acc: Seq<Seq<char>>) -> Seq<Seq<char>>
    decreases t.len(),
{
    if t.len() == 0 {
        if cur.len() > 0 { acc.push(cur) } else { acc }
    } else if is_unicode_ws(t[0]) {
        ws_words(t.drop_first(), seq![], if cur.len() > 0 { acc.push(cur) } else { acc })
    } else {
        ws_words(t.drop_first(), cur.push(t[0]), acc)
    }
}

pub(crate) fn split_whitespace_words(text: &str) -> (r: Vec<String>)
    ensures
        crate::text::string_views(r@) == ws_words(text@, seq![], seq![]),
{
    broadcast use vstd::string::group_string_axioms;
    let mut words: Vec<String> = Vec::new();
    let mut cur = String::new();
    assert(crate::text::string_views(words@) =~= Seq::<Seq<char>>::empty());
    assert(text@.skip(0) =~= text@);
    assert(cur@ =~= Seq::<char>::empty());
    for c in it: text.chars()
        invariant
            it.seq() == text@,
            ws_words(text@, seq![], seq![]) == ws_words(text@.skip(it.index() as int), cur@, crate::text::string_views(words@)),
    {
        let ghost i = it.index() as int;
        let ghost rest = text@.skip(i);
        assert(rest[0] == c);
        assert(rest.drop_first() =~= text@.skip(i + 1));
        if unicode_whitespace(c) {
            if cur.unicode_len() > 0 {
                let ghost before = crate::text::string_views(words@);
                let ghost cv = cur@;
                words.push(cur);
                assert(crate::text::string_views(words@) =~= before.push(cv));
                cur = String::new();
            } else {
                cur = String::new();
            }
        } else {
            push_char(&mut cur, c);
        }
    }
    assert(text@.skip(text@.len() as int) =~= Seq::<char>::empty());
    if cur.unicode_len() > 0 {
        let ghost before = crate::text::string_views(words@);
        let ghost cv = cur@;
        words.push(cur);
        assert(crate::text::string_views(words@) =~= before.push(cv));
    }
    words
}

/// The member pairs `object offset` from word `2k` on, `count` in all.
pub open spec fn member_pairs(words: Seq<Seq<char>>, k: nat, count: nat, acc: Seq<(u32, usize)>) -> Option<Seq<(u32, usize)>>
    decreases count - k,
{
    if k >= count {
        Some(acc)
    } else {
        match (
            parse_unsigned(vstd::utf8::encode_utf8(words[2 * k as int]), u32::MAX as nat),
            parse_unsigned(vstd::utf8::encode_utf8(words[2 * k + 1 as int]), usize::MAX as nat),
        ) {
            (Some(o), Some(off)) => member_pairs(words, k + 1, count, acc.push((o as u32, off as usize))),
            _ => None,
        }
    }
}

/// The member table of a decoded object stream: `count` pairs of object
/// number and offset among the words before `first`.
pub open spec fn member_table(decoded: Seq<u8>, first: usize, count: usize) -> Option<Seq<(u32, usize)>> {
    if first > decoded.len() {
        None
    } else {
        let words = ws_words(utf8_lossy(decoded.take(first as int)), seq![], seq![]);
        if words.len() < count * 2 { None } else { member_pairs(words, 0, count as nat, seq![]) }
    }
}

#[verifier::rlimit(40)]
fn parse_object_stream_member_table(decoded: &[u8], first: usize, count: usize) -> (r: Option<Vec<(u32, usize)>>)
    ensures
        match member_table(decoded@, first, count) {
            Some(m) => r matches Some(v) && v@ == m,
            None => r is None,
        },
{
    if first > decoded.len() {
        return None;
    }
    let table = vstd::slice::slice_subrange(decoded, 0, first);
    assert(table@ =~= decoded@.take(first as int));
    let text = lossy_string(table);
    let numbers = split_whitespace_words(text.as_str());
    let ghost words = crate::text::string_views(numbers@);
    let nl = numbers.len();
    if count > nl / 2 {
        return None;
    }
    let mut members: Vec<(u32, usize)> = Vec::new();
    let mut k: usize = 0;
    assert(members@ =~= Seq::<(u32, usize)>::empty());
    assert(member_table(decoded@, first, count) == member_pairs(words, 0, count as nat, seq![]));
    while k < count
        invariant
            k <= count,
            nl == numbers@.len(),
            count * 2 <= nl,
            member_table(decoded@, first, count) == member_pairs(words, 0, count as nat, seq![]),
            words == crate::text::string_views(numbers@),
            member_pairs(words, 0, count as nat, seq![]) == member_pairs(words, k as nat, count as nat, members@),
        decreases count - k,
    {
        assert(words[2 * k as int] == numbers@[2 * k as int]@);
        assert(words[2 * k + 1 as int] == numbers@[2 * k + 1 as int]@);
        let pair = parse_member_pair(&numbers[2 * k], &numbers[2 * k + 1]);
        match pair {
            Some(p) => {
                members.push(p);
            },
            None => {
                assert(member_pairs(words, k as nat, count as nat, members@) is None);
                return None;
            },
        }
        k = k + 1;
    }
    Some(members)
}

fn parse_member_pair(a: &String, b: &String) -> (r: Option<(u32, usize)>)
    ensures
        match (parse_unsigned(vstd::utf8::encode_utf8(a@), u32::MAX as nat), parse_unsigned(vstd::utf8::encode_utf8(b@), usize::MAX as nat)) {
            (Some(o), Some(off)) => r == Some((o as u32, off as usize)),
            _ => r is None,
        },
{
    let object_number = parse_u32(a.as_str().as_bytes());
    let offset = parse_usize(b.as_str().as_bytes());
    match (object_number, offset) {
        (Some(o), Some(off)) => Some((o, off)),
        _ => None,
    }
}

/// "Object stream {reference} ..." warnings.
pub open spec fn stream_warning(o: ObjectV, text: Seq<char>) -> WarningV {
    (Some(o.3.start), "Object stream "@ + o.0.spec_text() + text)
}

/// Members `members[i..]` of an object stream added where no object has
/// their reference, each read as a value at `first + offset`.
pub open spec fn expand_members(
    o: ObjectV,
    decoded: Seq<u8>,
    first: usize,
    members: Seq<(u32, usize)>,
    i: int,
    objs: Seq<ObjectV>,
    warns: Seq<WarningV>,
) -> (Seq<ObjectV>, Seq<WarningV>)
    decreases members.len() - i,
{
    if i < 0 || i >= members.len() {
        (objs, warns)
    } else {
        let (num, off) = members[i];
        let member = " member "@ + decimal(num as nat);
        if first + off > usize::MAX {
            expand_members(o, decoded, first, members, i + 1, objs, warns.push(stream_warning(o, member + " has an overflowing body offset"@)))
        } else if first + off >= decoded.len() {
            expand_members(o, decoded, first, members, i + 1, objs, warns.push(stream_warning(o, member + " starts outside decoded bytes"@)))
        } else {
            let body = decoded.skip(first + off);
            match spec_value(body, 0) {
                None => expand_members(o, decoded, first, members, i + 1, objs,
                    warns.push((Some(o.3.start), "Could not parse object stream "@ + o.0.spec_text() + member))),
                Some((v, consumed)) => {
                    let kept = body.take(if consumed <= body.len() { consumed } else { body.len() as int });
                    let reference = ObjectRef { object: num, generation: 0 };
                    expand_members(o, decoded, first, members, i + 1, objects_put_absent(objs, (reference, v, None, o.3, kept)), warns)
                },
            }
        }
    }
}

/// One object stream expanded into `objs`.
pub open spec fn expand_one(o: ObjectV, objs: Seq<ObjectV>, warns: Seq<WarningV>) -> (Seq<ObjectV>, Seq<WarningV>) {
    let st = o.2->0;
    let first = match dict_get(st.0, "First"@) {
        Some(v) => view_usize(v),
        None => None,
    };
    let count = match dict_get(st.0, "N"@) {
        Some(v) => view_usize(v),
        None => None,
    };
    match (first, count) {
        (None, _) => (objs, warns.push(stream_warning(o, " is missing numeric /First"@))),
        (Some(_), None) => (objs, warns.push(stream_warning(o, " is missing numeric /N"@))),
        (Some(f), Some(n)) => {
            let (decoded, _, issues) = spec_decode_chain(st.5, st.3, Some(OBJECT_STREAM_DECODE_LIMIT));
            if issues.len() > 0 {
                (objs, warns.push((Some(o.3.start), "Could not decode object stream "@ + o.0.spec_text() + ": "@ + issues_joined(issues))))
            } else {
                match member_table(decoded, f, n) {
                    None => (objs, warns.push((Some(o.3.start), "Could not parse object stream "@ + o.0.spec_text() + " member table"@))),
                    Some(members) => expand_members(o, decoded, f, members, 0, objs, warns),
                }
            }
        },
    }
}

/// Whether an object is an object stream (a stream of `/Type /ObjStm`).
pub open spec fn is_object_stream(o: ObjectV) -> bool {
    o.2 matches Some(st) && name_under(st.0, "Type"@) == Some("ObjStm"@)
}

/// The object streams among the objects, in order.
pub open spec fn object_streams_of(objs: Seq<ObjectV>) -> Seq<ObjectV>
    decreases objs.len(),
{
    if objs.len() == 0 {
        seq![]
    } else {
        let rest = object_streams_of(objs.drop_last());
        if is_object_stream(objs.last()) { rest.push(objs.last()) } else { rest }
    }
}

/// The object streams `streams[i..]` expanded in turn.
pub open spec fn expand_streams(streams: Seq<ObjectV>, i: int, objs: Seq<ObjectV>, warns: Seq<WarningV>) -> (Seq<ObjectV>, Seq<WarningV>)
    decreases streams.len() - i,
{
    if i < 0 || i >= streams.len() {
        (objs, warns)
    } else {
        let (o2, w2) = expand_one(streams[i], objs, warns);
        expand_streams(streams, i + 1, o2, w2)
    }
}


fn object_stream_message(reference: ObjectRef, text: &str) -> (m: String)
    ensures
        m@ == "Object stream "@ + reference.spec_text() + text@,
{
    let mut m = owned("Object stream ");
    let r = reference.to_text();
    push_str(&mut m, r.as_str());
    push_str(&mut m, text);
    m
}

fn expand_members_into(
    objects: &mut Vec<PdfObject>,
    warnings: &mut Vec<ParseWarning>,
    Ghost(o): Ghost<ObjectV>,
    reference: ObjectRef,
    raw_range: ByteRange,
    decoded: &Vec<u8>,
    first: usize,
    members: &Vec<(u32, usize)>,
)
    requires
        refs_sorted(object_views(old(objects)@)),
        o.0 == reference,
        o.3 == raw_range,
    ensures
        (object_views(final(objects)@), warning_views(final(warnings)@))
            == expand_members(o, decoded@, first, members@, 0, object_views(old(objects)@), warning_views(old(warnings)@)),
        refs_sorted(object_views(final(objects)@)),
        keeps_objects(object_views(old(objects)@), object_views(final(objects)@)),
{
    let ghost v0 = object_views(objects@);
    let ghost w0 = warning_views(warnings@);
    let mut i: usize = 0;
    while i < members.len()
        invariant
            i <= members@.len(),
            o.0 == reference,
            o.3 == raw_range,
            refs_sorted(object_views(objects@)),
            keeps_objects(v0, object_views(objects@)),
            v0 == object_views(old(objects)@),
            w0 == warning_views(old(warnings)@),
            expand_members(o, decoded@, first, members@, 0, v0, w0)
                == expand_members(o, decoded@, first, members@, i as int, object_views(objects@), warning_views(warnings@)),
        decreases members@.len() - i,
    {
        let (num, off) = members[i];
        let ghost before = object_views(objects@);
        let mut member = owned(" member ");
        push_decimal(&mut member, num as usize);
        match first.checked_add(off) {
            None => {
                push_str(&mut member, " has an overflowing body offset");
                let m = object_stream_message(reference, member.as_str());
                push_warning(warnings, Some(raw_range.start), m);
            },
            Some(body_start) => {
                if body_start >= decoded.len() {
                    push_str(&mut member, " starts outside decoded bytes");
                    let m = object_stream_message(reference, member.as_str());
                    push_warning(warnings, Some(raw_range.start), m);
                } else {
                    let body = vstd::slice::slice_subrange(decoded.as_slice(), body_start, decoded.len());
                    assert(body@ =~= decoded@.skip(body_start as int));
                    match parse_pdf_value_with_consumed(body) {
                        None => {
                            let mut m = owned("Could not parse object stream ");
                            let r = reference.to_text();
                            push_str(&mut m, r.as_str());
                            push_str(&mut m, member.as_str());
                            push_warning(warnings, Some(raw_range.start), m);
                        },
                        Some((value, consumed)) => {
                            let keep = if consumed <= body.len() { consumed } else { body.len() };
                            let kept = copy_range(body, 0, keep);
                            assert(kept@ =~= body@.take(keep as int));
                            let member_ref = ObjectRef::new(num, 0);
                            let object = PdfObject { reference: member_ref, value, stream: None, raw_range, raw_bytes: kept };
                            proof {
                                lemma_put_absent_keeps(before, object@);
                            }
                            insert_object_if_absent(objects, object);
                        },
                    }
                }
            },
        }
        i = i + 1;
    }
}

fn expand_one_object_stream(objects: &mut Vec<PdfObject>, warnings: &mut Vec<ParseWarning>, index: usize)
    requires
        refs_sorted(object_views(old(objects)@)),
        index < old(objects)@.len(),
        is_object_stream(old(objects)@[index as int]@),
    ensures
        (object_views(final(objects)@), warning_views(final(warnings)@))
            == expand_one(old(objects)@[index as int]@, object_views(old(objects)@), warning_views(old(warnings)@)),
        refs_sorted(object_views(final(objects)@)),
        keeps_objects(object_views(old(objects)@), object_views(final(objects)@)),
{
    let ghost o = objects@[index as int]@;
    let ghost v0 = object_views(objects@);
    let reference = objects[index].reference;
    let raw_range = objects[index].raw_range;
    let (first, count, decode) = {
        let stream = match objects[index].stream.as_ref() {
            Some(st) => st,
            None => {
                return;
            },
        };
        let first = match stream.dictionary.get("First") {
            Some(v) => v.as_usize(),
            None => None,
        };
        let count = match stream.dictionary.get("N") {
            Some(v) => v.as_usize(),
            None => None,
        };
        let decode = if first.is_some() && count.is_some() {
            Some(decode_stream_with_limit(stream, Some(OBJECT_STREAM_DECODE_LIMIT)))
        } else {
            None
        };
        (first, count, decode)
    };
    let first = match first {
        Some(f) => f,
        None => {
            let m = object_stream_message(reference, " is missing numeric /First");
            push_warning(warnings, Some(raw_range.start), m);
            return;
        },
    };
    let count = match count {
        Some(c) => c,
        None => {
            let m = object_stream_message(reference, " is missing numeric /N");
            push_warning(warnings, Some(raw_range.start), m);
            return;
        },
    };
    let decode = match decode {
        Some(d) => d,
        None => {
            return;
        },
    };
    if decode.has_issues() {
        let mut m = owned("Could not decode object stream ");
        let r = reference.to_text();
        push_str(&mut m, r.as_str());
        push_str(&mut m, ": ");
        let joined = join_issue_lines(decode.issues.as_slice());
        push_str(&mut m, joined.as_str());
        push_warning(warnings, Some(raw_range.start), m);
        return;
    }
    let members = match parse_object_stream_member_table(decode.decoded.as_slice(), first, count) {
        Some(m) => m,
        None => {
            let mut m = owned("Could not parse object stream ");
            let r = reference.to_text();
            push_str(&mut m, r.as_str());
            push_str(&mut m, " member table");
            push_warning(warnings, Some(raw_range.start), m);
            return;
        },
    };
    expand_members_into(objects, warnings, Ghost(o), reference, raw_range, &decode.decoded, first, &members);
}

fn object_stream_refs(objects: &Vec<PdfObject>) -> (r: Vec<ObjectRef>)
    ensures
        r@.len() == object_streams_of(object_views(objects@)).len(),
        forall|j: int| 0 <= j < r@.len() ==> r@[j] == (#[trigger] object_streams_of(object_views(objects@))[j]).0,
        forall|j: int| 0 <= j < r@.len() ==> exists|k: int| 0 <= k < objects@.len()
            && #[trigger] object_streams_of(object_views(objects@))[j] == object_views(objects@)[k],
{
    let ghost v = object_views(objects@);
    let mut refs: Vec<ObjectRef> = Vec::new();
    let mut k: usize = 0;
    while k < objects.len()
        invariant
            k <= objects@.len(),
            v == object_views(objects@),
            refs@.len() == object_streams_of(v.take(k as int)).len(),
            forall|j: int| 0 <= j < refs@.len() ==> refs@[j] == (#[trigger] object_streams_of(v.take(k as int))[j]).0,
            forall|j: int| 0 <= j < refs@.len() ==> exists|m: int| 0 <= m < k
                && #[trigger] object_streams_of(v.take(k as int))[j] == v[m],
        decreases objects@.len() - k,
    {
        let ghost t = v.take(k + 1);
        assert(t.drop_last() =~= v.take(k as int));
        assert(t.last() == v[k as int]);
        let is_stream = match &objects[k].stream {
            Some(st) => name_is(&st.dictionary, "Type", "ObjStm"),
            None => false,
        };
        proof {
            assert(is_stream == is_object_stream(v[k as int]));
        }
        if is_stream {
            refs.push(objects[k].reference);
            proof {
                let os = object_streams_of(t);
                assert forall|j: int| 0 <= j < refs@.len() implies exists|m: int| 0 <= m < k + 1
                    && #[trigger] object_streams_of(t)[j] == v[m] by {
                    if j < refs@.len() - 1 {
                        let m = choose|m: int| 0 <= m < k && #[trigger] object_streams_of(v.take(k as int))[j] == v[m];
                        assert(os[j] == v[m]);
                    } else {
                        assert(os[j] == v[k as int]);
                    }
                }
            }
        }
        k = k + 1;
    }
    assert(v.take(objects@.len() as int) =~= v);
    refs
}

proof fn lemma_object_streams_are_streams(v: Seq<ObjectV>)
    ensures
        forall|j: int| 0 <= j < object_streams_of(v).len() ==> is_object_stream(#[trigger] object_streams_of(v)[j]),
    decreases v.len(),
{
    if v.len() > 0 {
        lemma_object_streams_are_streams(v.drop_last());
        let rest = object_streams_of(v.drop_last());
        if is_object_stream(v.last()) {
            assert forall|j: int| 0 <= j < rest.push(v.last()).len() implies is_object_stream(#[trigger] rest.push(v.last())[j]) by {
                if j < rest.len() {
                    assert(rest.push(v.last())[j] == rest[j]);
                }
            }
        }
    }
}

fn expand_object_streams(objects: &mut Vec<PdfObject>, warnings: &mut Vec<ParseWarning>)
    requires
        refs_sorted(object_views(old(objects)@)),
    ensures
        (object_views(final(objects)@), warning_views(final(warnings)@))
            == expand_streams(object_streams_of(object_views(old(objects)@)), 0, object_views(old(objects)@), warning_views(old(warnings)@)),
        refs_sorted(object_views(final(objects)@)),
{
    let ghost v0 = object_views(objects@);
    let ghost w0 = warning_views(warnings@);
    let ghost streams = object_streams_of(v0);
    let refs = object_stream_refs(objects);
    proof {
        lemma_object_streams_are_streams(v0);
        assert forall|j: int| 0 <= j < streams.len() implies objects_get(v0, (#[trigger] streams[j]).0) == Some(streams[j]) by {
            let k = choose|k: int| 0 <= k < objects@.len() && #[trigger] object_streams_of(v0)[j] == object_views(objects@)[k];
            lemma_get_at(v0, k);
        }
    }
    let mut i: usize = 0;
    while i < refs.len()
        invariant
            i <= refs@.len(),
            refs@.len() == streams.len(),
            forall|j: int| 0 <= j < refs@.len() ==> refs@[j] == (#[trigger] streams[j]).0,
            forall|j: int| 0 <= j < streams.len() ==> is_object_stream(#[trigger] streams[j]),
            refs_sorted(object_views(objects@)),
            forall|j: int| i <= j < streams.len() ==> objects_get(object_views(objects@), (#[trigger] streams[j]).0) == Some(streams[j]),
            v0 == object_views(old(objects)@),
            w0 == warning_views(old(warnings)@),
            streams == object_streams_of(v0),
            expand_streams(streams, 0, v0, w0) == expand_streams(streams, i as int, object_views(objects@), warning_views(warnings@)),
        decreases refs@.len() - i,
    {
        let ghost before = object_views(objects@);
        let index = match find_object(objects, refs[i]) {
            Some(x) => x,
            None => {
                assert(false);
                return;
            },
        };
        assert(objects@[index as int]@ == streams[i as int]);
        expand_one_object_stream(objects, warnings, index);
        proof {
            assert forall|j: int| i + 1 <= j < streams.len() implies objects_get(object_views(objects@), (#[trigger] streams[j]).0) == Some(streams[j]) by {
                assert(objects_get(before, streams[j].0) is Some);
            }
        }
        i = i + 1;
    }
}


// ---------------------------------------------------------------------------
// Document-level facts
// ---------------------------------------------------------------------------

/// Text with whitespace removed from both ends (`str::trim`).
pub open spec fn trim_ws(t: Seq<char>) -> Seq<char> {
    trim_end_ws(trim_start_ws(t))
}

pub open spec fn trim_start_ws(t: Seq<char>) -> Seq<char>
    decreases t.len(),
{
    if t.len() > 0 && is_unicode_ws(t[0]) { trim_start_ws(t.drop_first()) } else { t }
}

pub open spec fn trim_end_ws(t: Seq<char>) -> Seq<char>
    decreases t.len(),
{
    if t.len() > 0 && is_unicode_ws(t.last()) { trim_end_ws(t.drop_last()) } else { t }
}

pub(crate) fn trim_text(text: &str) -> (r: String)
    ensures
        r@ == trim_ws(text@),
{
    broadcast use vstd::string::group_string_axioms;
    let mut chars: Vec<char> = Vec::new();
    for c in it: text.chars()
        invariant
            it.seq() == text@,
            chars@ == text@.take(it.index() as int),
    {
        assert(text@.take(it.index() + 1) =~= text@.take(it.index() as int).push(c));
        chars.push(c);
    }
    assert(text@.take(text@.len() as int) =~= text@);
    let mut lo: usize = 0;
    assert(chars@.skip(0) =~= chars@);
    while lo < chars.len() && unicode_whitespace(chars[lo])
        invariant
            lo <= chars@.len(),
            trim_start_ws(chars@) == trim_start_ws(chars@.skip(lo as int)),
        decreases chars@.len() - lo,
    {
        assert(chars@.skip(lo as int).drop_first() =~= chars@.skip(lo + 1));
        lo = lo + 1;
    }
    let mut hi: usize = chars.len();
    assert(chars@.subrange(lo as int, hi as int) =~= chars@.skip(lo as int));
    while hi > lo && unicode_whitespace(chars[hi - 1])
        invariant
            lo <= hi <= chars@.len(),
            trim_end_ws(trim_start_ws(chars@)) == trim_end_ws(chars@.subrange(lo as int, hi as int)),
        decreases hi,
    {
        assert(chars@.subrange(lo as int, hi as int).drop_last() =~= chars@.subrange(lo as int, hi - 1));
        hi = hi - 1;
    }
    let mut out = String::new();
    let mut k = lo;
    while k < hi
        invariant
            lo <= k <= hi <= chars@.len(),
            out@ == chars@.subrange(lo as int, k as int),
        decreases hi - k,
    {
        push_char(&mut out, chars[k]);
        assert(chars@.subrange(lo as int, k + 1) =~= chars@.subrange(lo as int, k as int).push(chars@[k as int]));
        k = k + 1;
    }
    out
}

pub open spec fn header_bytes() -> Seq<u8> {
    seq![0x25u8, 0x50u8, 0x44u8, 0x46u8, 0x2du8]
}

pub open spec fn linearized_bytes() -> Seq<u8> {
    seq![0x2fu8, 0x4cu8, 0x69u8, 0x6eu8, 0x65u8, 0x61u8, 0x72u8, 0x69u8, 0x7au8, 0x65u8, 0x64u8]
}

/// The first 1024 bytes (or all of them).
pub open spec fn head(b: Seq<u8>) -> Seq<u8> {
    b.take(if b.len() < 1024 { b.len() as int } else { 1024 })
}

/// The version after `%PDF-` in the first 1024 bytes, up to the line end, trimmed.
pub open spec fn pdf_version(b: Seq<u8>) -> Option<Seq<char>> {
    match find_first(head(b), header_bytes(), 0) {
        None => None,
        Some(off) => {
            let start = off + 5;
            Some(trim_ws(utf8_lossy(b.subrange(start, line_end_from(b, start)))))
        },
    }
}

/// "PDF header was not found in the first 1024 bytes"
pub open spec fn no_header_warning() -> WarningV {
    (Some(0usize), "PDF header was not found in the first 1024 bytes"@)
}

fn parse_pdf_version(bytes: &[u8], warnings: &mut Vec<ParseWarning>) -> (r: Option<String>)
    ensures
        match pdf_version(bytes@) {
            Some(v) => r matches Some(x) && x@ == v && final(warnings)@ == old(warnings)@,
            None => r is None && warning_views(final(warnings)@) == warning_views(old(warnings)@).push(no_header_warning()),
        },
{
    let n = bytes.len();
    let search_end = if n < 1024 { n } else { 1024 };
    let prefix = vstd::slice::slice_subrange(bytes, 0, search_end);
    assert(prefix@ =~= head(bytes@));
    let marker: [u8; 5] = [0x25, 0x50, 0x44, 0x46, 0x2d];
    assert(marker@ =~= header_bytes());
    match find_first_from(prefix, 0, &marker) {
        Some(offset) => {
            let start = offset + 5;
            let end = line_end(bytes, start);
            let text = lossy_string(vstd::slice::slice_subrange(bytes, start, end));
            Some(trim_text(text.as_str()))
        },
        None => {
            push_warning(warnings, Some(0), owned("PDF header was not found in the first 1024 bytes"));
            None
        },
    }
}

/// `/Linearized` occurs in the first 1024 bytes.
pub open spec fn is_linearized(b: Seq<u8>) -> bool {
    find_first(head(b), linearized_bytes(), 0) is Some
}

fn detect_linearized(bytes: &[u8]) -> (r: bool)
    ensures
        r == is_linearized(bytes@),
{
    let n = bytes.len();
    let search_end = if n < 1024 { n } else { 1024 };
    let prefix = vstd::slice::slice_subrange(bytes, 0, search_end);
    assert(prefix@ =~= head(bytes@));
    let marker: [u8; 11] = [0x2f, 0x4c, 0x69, 0x6e, 0x65, 0x61, 0x72, 0x69, 0x7a, 0x65, 0x64];
    assert(marker@ =~= linearized_bytes());
    find_first_from(prefix, 0, &marker).is_some()
}

/// The dictionary of an object: its stream dictionary, or its value when
/// that is a dictionary.
pub open spec fn object_dictionary(o: ObjectV) -> Option<Seq<(Seq<char>, ValueView)>> {
    match o.2 {
        Some(st) => Some(st.0),
        None => view_dictionary(o.1),
    }
}

/// The dictionary of the first cross-reference stream, as the trailer.
pub open spec fn xref_stream_trailer(objs: Seq<ObjectV>) -> Option<ValueView>
    decreases objs.len(),
{
    if objs.len() == 0 {
        None
    } else {
        match objs[0].2 {
            Some(st) => if name_under(st.0, "Type"@) == Some("XRef"@) {
                Some(ValueView::Dictionary(st.0))
            } else {
                xref_stream_trailer(objs.drop_first())
            },
            None => xref_stream_trailer(objs.drop_first()),
        }
    }
}

fn find_xref_stream_trailer(objects: &Vec<PdfObject>) -> (r: Option<PdfValue>)
    ensures
        opt_value_matches(r, xref_stream_trailer(object_views(objects@))),
{
    let ghost v = object_views(objects@);
    let mut k: usize = 0;
    assert(v.skip(0) =~= v);
    while k < objects.len()
        invariant
            k <= objects@.len(),
            v == object_views(objects@),
            xref_stream_trailer(v) == xref_stream_trailer(v.skip(k as int)),
        decreases objects@.len() - k,
    {
        assert(v.skip(k as int)[0] == objects@[k as int]@);
        assert(v.skip(k as int).drop_first() =~= v.skip(k + 1));
        match &objects[k].stream {
            Some(st) => {
                if name_is(&st.dictionary, "Type", "XRef") {
                    return Some(PdfValue::Dictionary(st.dictionary.deep_copy()));
                }
            },
            None => {},
        }
        k = k + 1;
    }
    None
}

/// An in-use entry marked by whether its offset holds the header of the
/// object it names.
pub open spec fn validated_entry(b: Seq<u8>, e: XrefEntry) -> XrefEntry {
    if !e.in_use {
        e
    } else if e.offset >= b.len() {
        XrefEntry { valid_offset: Some(false), ..e }
    } else {
        XrefEntry {
            valid_offset: Some(object_header(b, e.offset as int) matches Some((_, r)) && r == e.reference),
            ..e
        }
    }
}

fn validate_xref_offsets(bytes: &[u8], entries: &mut Vec<XrefEntry>)
    ensures
        final(entries)@ == old(entries)@.map_values(|e: XrefEntry| validated_entry(bytes@, e)),
{
    let ghost e0 = entries@;
    let mut k: usize = 0;
    while k < entries.len()
        invariant
            k <= entries@.len(),
            entries@.len() == e0.len(),
            e0 == old(entries)@,
            forall|j: int| 0 <= j < k ==> entries@[j] == validated_entry(bytes@, #[trigger] e0[j]),
            forall|j: int| k <= j < entries@.len() ==> entries@[j] == e0[j],
        decreases entries@.len() - k,
    {
        let e = entries[k];
        if e.in_use {
            let valid = if e.offset >= bytes.len() {
                false
            } else {
                match parse_object_header_at(bytes, e.offset) {
                    Some((_, reference)) => reference == e.reference,
                    None => false,
                }
            };
            entries.set(k, XrefEntry { valid_offset: Some(valid), ..e });
        }
        k = k + 1;
    }
    assert(entries@ =~= e0.map_values(|e: XrefEntry| validated_entry(bytes@, e)));
}


/// The trailer's dictionary.
pub open spec fn trailer_dict(t: Option<ValueView>) -> Option<Seq<(Seq<char>, ValueView)>> {
    match t {
        Some(v) => view_dictionary(v),
        None => None,
    }
}

/// The reference the trailer stores under `key`.
pub open spec fn trailer_ref(t: Option<ValueView>, key: Seq<char>) -> Option<ObjectRef> {
    match trailer_dict(t) {
        Some(d) => match dict_get(d, key) {
            Some(v) => view_reference(v),
            None => None,
        },
        None => None,
    }
}

/// The keys of the trailer dictionary, in order.
pub open spec fn trailer_keys(t: Option<ValueView>) -> Seq<Seq<char>> {
    match trailer_dict(t) {
        Some(d) => d.map_values(|e: (Seq<char>, ValueView)| e.0),
        None => seq![],
    }
}

/// The number of stream objects.
pub open spec fn stream_count(objs: Seq<ObjectV>) -> nat
    decreases objs.len(),
{
    if objs.len() == 0 { 0 } else { stream_count(objs.drop_last()) + if objs.last().2 is Some { 1nat } else { 0nat } }
}

/// Whether the object's dictionary has `/Type` named `ty`.
pub open spec fn has_type(o: ObjectV, ty: Seq<char>) -> bool {
    object_dictionary(o) matches Some(d) && name_under(d, "Type"@) == Some(ty)
}

/// The number of objects whose dictionary has `/Type` named `ty`.
pub open spec fn count_type(objs: Seq<ObjectV>, ty: Seq<char>) -> nat
    decreases objs.len(),
{
    if objs.len() == 0 { 0 } else { count_type(objs.drop_last(), ty) + if has_type(objs.last(), ty) { 1nat } else { 0nat } }
}

/// A dictionary's entries with each value summarized.
pub open spec fn summary_entries(d: Seq<(Seq<char>, ValueView)>) -> Seq<(Seq<char>, Seq<char>)> {
    d.map_values(|e: (Seq<char>, ValueView)| (e.0, value_summary(e.1)))
}

/// The summarized entries of the document information dictionary.
pub open spec fn info_summary(objs: Seq<ObjectV>, info: Option<ObjectRef>) -> Seq<(Seq<char>, Seq<char>)> {
    match info {
        Some(r) => match objects_get(objs, r) {
            Some(o) => match object_dictionary(o) {
                Some(d) => summary_entries(d),
                None => seq![],
            },
            None => seq![],
        },
        None => seq![],
    }
}

/// The page count: the page tree root's `/Count`, else the number of page
/// objects when there are any.
pub open spec fn page_count(objs: Seq<ObjectV>, root: Option<ObjectRef>) -> Option<u32> {
    let n = count_type(objs, "Page"@);
    let fallback = if n > 0 { Some(n as u32) } else { None };
    match root {
        None => None,
        Some(r) => match objects_get(objs, r) {
            None => None,
            Some(ro) => match object_dictionary(ro) {
                None => None,
                Some(rd) => match dict_get(rd, "Pages"@) {
                    None => None,
                    Some(pages) => {
                        let tree = match view_reference(pages) {
                            Some(pr) => objects_get(objs, pr),
                            None => None,
                        };
                        match tree {
                            Some(pt) => match object_dictionary(pt) {
                                None => None,
                                Some(pd) => match dict_get(pd, "Count"@) {
                                    Some(c) => match view_usize(c) {
                                        Some(k) => Some(k as u32),
                                        None => fallback,
                                    },
                                    None => fallback,
                                },
                            },
                            None => fallback,
                        }
                    },
                },
            },
        },
    }
}

/// The warnings at the end of a parse about what was not found.
pub open spec fn closing_warnings(w: Seq<WarningV>, no_objects: bool, no_entries: bool, no_trailer: bool) -> Seq<WarningV> {
    let w1 = if no_objects { w.push((None, "No indirect objects were discovered"@)) } else { w };
    let w2 = if no_entries { w1.push((None, "No classic xref table was discovered"@)) } else { w1 };
    if no_trailer { w2.push((None, "No trailer dictionary was discovered"@)) } else { w2 }
}

/// What a parse of `b` finds: validated entries, trailer, objects,
/// warnings, number of sections, and version. `None` for the inputs on
/// which reading runs off the end of the data.
pub type ParseCore = (Seq<XrefEntry>, Option<ValueView>, Seq<ObjectV>, Seq<WarningV>, nat, Option<Seq<char>>);

pub open spec fn parse_core(b: Seq<u8>, options: ParseOptions) -> Option<ParseCore> {
    let version = pdf_version(b);
    let w1: Seq<WarningV> = if version is None { seq![no_header_warning()] } else { seq![] };
    match xref_sections(b, w1) {
        None => None,
        Some((entries, classic, count, w2)) => match indirect_objects(b, entries, options, w2) {
            None => None,
            Some((objs, w3)) => {
                let (objs2, w4) = expand_streams(object_streams_of(objs), 0, objs, w3);
                let trailer = if classic is Some { classic } else { xref_stream_trailer(objs2) };
                let entries2 = entries.map_values(|e: XrefEntry| validated_entry(b, e));
                let w5 = closing_warnings(w4, objs2.len() == 0, entries2.len() == 0, trailer is None);
                Some((entries2, trailer, objs2, w5, count, version))
            },
        },
    }
}

/// `p` is the parse of `b` that `core` describes, for `file_name`.
pub open spec fn parsed_matches(p: ParsedPdf, core: ParseCore, b: Seq<u8>, file_name: Seq<char>) -> bool {
    let (entries, trailer, objs, warns, count, version) = core;
    let info = trailer_ref(trailer, "Info"@);
    let root = trailer_ref(trailer, "Root"@);
    let m = p.metadata;
    &&& p.xref_entries@ == entries
    &&& opt_value_matches(p.trailer, trailer)
    &&& object_views(p.objects@) == objs
    &&& p.wf()
    &&& warning_views(p.warnings@) == warns
    &&& m.file_name@ == file_name
    &&& m.file_size == b.len()
    &&& match version {
        Some(v) => m.pdf_version matches Some(x) && x@ == v,
        None => m.pdf_version is None,
    }
    &&& m.page_count == page_count(objs, root)
    &&& m.encrypted == (trailer_dict(trailer) matches Some(d) && dict_get(d, "Encrypt"@) is Some)
    &&& m.linearized == is_linearized(b)
    &&& m.incremental_update_count == if count > 0 { count - 1 } else { 0 }
    &&& m.root == root
    &&& m.info == info
    &&& string_views(m.trailer_keys@) == trailer_keys(trailer)
    &&& m.info_summary@.map_values(|e: (String, String)| (e.0@, e.1@)) == info_summary(objs, info)
    &&& m.object_count == objs.len()
    &&& m.stream_count == stream_count(objs)
    &&& m.xref_entry_count == entries.len()
    &&& m.has_xref_stream == (count_type(objs, "XRef"@) > 0)
    &&& m.has_object_stream == (count_type(objs, "ObjStm"@) > 0)
    &&& m.parse_warning_count == warns.len()
}


pub(crate) fn trailer_dictionary(trailer: &Option<PdfValue>) -> (r: Option<&PdfDictionary>)
    ensures
        match trailer_dict(opt_view(*trailer)) {
            Some(d) => r matches Some(x) && x@ == d,
            None => r is None,
        },
{
    match trailer {
        Some(v) => v.as_dictionary(),
        None => None,
    }
}

pub(crate) fn trailer_reference(trailer: &Option<PdfValue>, key: &str) -> (r: Option<ObjectRef>)
    ensures
        r == trailer_ref(opt_view(*trailer), key@),
{
    match trailer_dictionary(trailer) {
        Some(d) => match d.get(key) {
            Some(v) => v.as_reference(),
            None => None,
        },
        None => None,
    }
}

pub(crate) fn dictionary_keys(d: &PdfDictionary) -> (r: Vec<String>)
    ensures
        string_views(r@) == d@.map_values(|e: (Seq<char>, ValueView)| e.0),
{
    let mut keys: Vec<String> = Vec::new();
    let mut k: usize = 0;
    while k < d.len()
        invariant
            k <= d@.len(),
            string_views(keys@) == d@.take(k as int).map_values(|e: (Seq<char>, ValueView)| e.0),
        decreases d@.len() - k,
    {
        let (key, _) = d.entry(k);
        let ghost before = keys@;
        keys.push(owned(key.as_str()));
        assert(string_views(keys@) =~= string_views(before).push(d@[k as int].0));
        assert(d@.take(k + 1).map_values(|e: (Seq<char>, ValueView)| e.0)
            =~= d@.take(k as int).map_values(|e: (Seq<char>, ValueView)| e.0).push(d@[k as int].0));
        k = k + 1;
    }
    assert(d@.take(d@.len() as int) =~= d@);
    keys
}

fn summary_dictionary(d: &PdfDictionary) -> (r: Vec<(String, String)>)
    ensures
        r@.map_values(|e: (String, String)| (e.0@, e.1@)) == summary_entries(d@),
{
    let mut out: Vec<(String, String)> = Vec::new();
    let mut k: usize = 0;
    while k < d.len()
        invariant
            k <= d@.len(),
            out@.map_values(|e: (String, String)| (e.0@, e.1@)) == summary_entries(d@.take(k as int)),
        decreases d@.len() - k,
    {
        let (key, value) = d.entry(k);
        let ghost before = out@;
        out.push((owned(key.as_str()), value.summary()));
        assert(out@.map_values(|e: (String, String)| (e.0@, e.1@))
            =~= before.map_values(|e: (String, String)| (e.0@, e.1@)).push((d@[k as int].0, value_summary(d@[k as int].1))));
        assert(summary_entries(d@.take(k + 1)) =~= summary_entries(d@.take(k as int)).push((d@[k as int].0, value_summary(d@[k as int].1))));
        k = k + 1;
    }
    assert(d@.take(d@.len() as int) =~= d@);
    out
}

fn object_has_type(o: &PdfObject, ty: &str) -> (r: bool)
    ensures
        r == has_type(o@, ty@),
{
    match o.dictionary() {
        Some(d) => name_is(d, "Type", ty),
        None => false,
    }
}

fn count_streams_and_types(objects: &Vec<PdfObject>) -> (r: (usize, usize, usize, usize))
    ensures
        r.0 == stream_count(object_views(objects@)),
        r.1 == count_type(object_views(objects@), "Page"@),
        r.2 == count_type(object_views(objects@), "XRef"@),
        r.3 == count_type(object_views(objects@), "ObjStm"@),
{
    let ghost v = object_views(objects@);
    let mut streams: usize = 0;
    let mut pages: usize = 0;
    let mut xrefs: usize = 0;
    let mut objstms: usize = 0;
    let mut k: usize = 0;
    while k < objects.len()
        invariant
            k <= objects@.len(),
            v == object_views(objects@),
            streams == stream_count(v.take(k as int)),
            pages == count_type(v.take(k as int), "Page"@),
            xrefs == count_type(v.take(k as int), "XRef"@),
            objstms == count_type(v.take(k as int), "ObjStm"@),
            streams <= k && pages <= k && xrefs <= k && objstms <= k,
        decreases objects@.len() - k,
    {
        let ghost t = v.take(k + 1);
        assert(t.drop_last() =~= v.take(k as int));
        assert(t.last() == objects@[k as int]@);
        if objects[k].stream.is_some() {
            streams = streams + 1;
        }
        if object_has_type(&objects[k], "Page") {
            pages = pages + 1;
        }
        if object_has_type(&objects[k], "XRef") {
            xrefs = xrefs + 1;
        }
        if object_has_type(&objects[k], "ObjStm") {
            objstms = objstms + 1;
        }
        k = k + 1;
    }
    assert(v.take(objects@.len() as int) =~= v);
    (streams, pages, xrefs, objstms)
}

fn object_at<'a>(objects: &'a Vec<PdfObject>, reference: ObjectRef) -> (r: Option<&'a PdfObject>)
    requires
        refs_sorted(object_views(objects@)),
    ensures
        match objects_get(object_views(objects@), reference) {
            Some(o) => r matches Some(x) && x@ == o,
            None => r is None,
        },
{
    match find_object(objects, reference) {
        Some(i) => Some(&objects[i]),
        None => None,
    }
}

fn detect_page_count(objects: &Vec<PdfObject>, root: Option<ObjectRef>, pages: usize) -> (r: Option<u32>)
    requires
        refs_sorted(object_views(objects@)),
        pages == count_type(object_views(objects@), "Page"@),
    ensures
        r == page_count(object_views(objects@), root),
{
    let fallback = if pages > 0 { Some(pages as u32) } else { None };
    let root_ref = match root {
        Some(r) => r,
        None => return None,
    };
    let root_object = match object_at(objects, root_ref) {
        Some(o) => o,
        None => return None,
    };
    let root_dict = match root_object.dictionary() {
        Some(d) => d,
        None => return None,
    };
    let pages_value = match root_dict.get("Pages") {
        Some(v) => v,
        None => return None,
    };
    let tree = match pages_value.as_reference() {
        Some(pr) => object_at(objects, pr),
        None => None,
    };
    match tree {
        Some(page_tree) => {
            let tree_dict = match page_tree.dictionary() {
                Some(d) => d,
                None => return None,
            };
            match tree_dict.get("Count") {
                Some(c) => match c.as_usize() {
                    Some(k) => Some(k as u32),
                    None => fallback,
                },
                None => fallback,
            }
        },
        None => fallback,
    }
}

fn info_summary_of(objects: &Vec<PdfObject>, info: Option<ObjectRef>) -> (r: Vec<(String, String)>)
    requires
        refs_sorted(object_views(objects@)),
    ensures
        r@.map_values(|e: (String, String)| (e.0@, e.1@)) == info_summary(object_views(objects@), info),
{
    let empty: Vec<(String, String)> = Vec::new();
    assert(empty@.map_values(|e: (String, String)| (e.0@, e.1@)) =~= Seq::<(Seq<char>, Seq<char>)>::empty());
    match info {
        Some(r) => match object_at(objects, r) {
            Some(o) => match o.dictionary() {
                Some(d) => summary_dictionary(d),
                None => empty,
            },
            None => empty,
        },
        None => empty,
    }
}

/// Parses a document from its bytes, or `None` for the inputs on which
/// reading the cross-reference data runs off the end of the bytes or an
/// object header ends past the next object's start.
pub fn parse_bytes_checked(bytes: &[u8], file_name: &str, options: ParseOptions) -> (r: Option<ParsedPdf>)
    ensures
        match parse_core(bytes@, options) {
            Some(core) => r matches Some(p) && parsed_matches(p, core, bytes@, file_name@),
            None => r is None,
        },
{
    let mut warnings: Vec<ParseWarning> = Vec::new();
    assert(warning_views(warnings@) =~= Seq::<WarningV>::empty());
    let pdf_version = parse_pdf_version(bytes, &mut warnings);
    proof {
        if pdf_version is Some {
            assert(warning_views(warnings@) =~= Seq::<WarningV>::empty());
        } else {
            assert(warning_views(warnings@) =~= seq![no_header_warning()]);
        }
    }
    let linearized = detect_linearized(bytes);
    let (mut xref_entries, classic_trailer, xref_section_count) = match parse_xref_sections(bytes, &mut warnings) {
        Some(x) => x,
        None => return None,
    };
    let incremental_update_count = if xref_section_count > 0 { xref_section_count - 1 } else { 0 };
    let mut objects = match parse_indirect_objects(bytes, xref_entries.as_slice(), options, &mut warnings) {
        Some(o) => o,
        None => return None,
    };
    expand_object_streams(&mut objects, &mut warnings);
    let trailer = match classic_trailer {
        Some(t) => Some(t),
        None => find_xref_stream_trailer(&objects),
    };
    validate_xref_offsets(bytes, &mut xref_entries);
    let root = trailer_reference(&trailer, "Root");
    let info = trailer_reference(&trailer, "Info");
    let encrypted = match trailer_dictionary(&trailer) {
        Some(d) => d.contains_key("Encrypt"),
        None => false,
    };
    let trailer_keys = match trailer_dictionary(&trailer) {
        Some(d) => dictionary_keys(d),
        None => {
            let empty: Vec<String> = Vec::new();
            assert(string_views(empty@) =~= Seq::<Seq<char>>::empty());
            empty
        },
    };
    let info_summary = info_summary_of(&objects, info);
    let (stream_count, pages, xrefs, objstms) = count_streams_and_types(&objects);
    if objects.len() == 0 {
        push_warning(&mut warnings, None, owned("No indirect objects were discovered"));
    }
    if xref_entries.len() == 0 {
        push_warning(&mut warnings, None, owned("No classic xref table was discovered"));
    }
    if trailer.is_none() {
        push_warning(&mut warnings, None, owned("No trailer dictionary was discovered"));
    }
    let page_count = detect_page_count(&objects, root, pages);
    let object_count = objects.len();
    let xref_entry_count = xref_entries.len();
    let parse_warning_count = warnings.len();
    let metadata = PdfMetadata {
        file_name: owned(file_name),
        file_size: bytes.len(),
        pdf_version,
        page_count,
        encrypted,
        linearized,
        incremental_update_count,
        root,
        info,
        trailer_keys,
        info_summary,
        object_count,
        stream_count,
        xref_entry_count,
        has_xref_stream: xrefs > 0,
        has_object_stream: objstms > 0,
        parse_warning_count,
    };
    Some(ParsedPdf { metadata, trailer, objects, xref_entries, warnings })
}

/// Parses a document with the given options.
pub fn parse_bytes_with_options(bytes: &[u8], file_name: &str, options: ParseOptions) -> (r: ParsedPdf)
    requires
        parse_core(bytes@, options) is Some,
    ensures
        parsed_matches(r, parse_core(bytes@, options)->0, bytes@, file_name@),
{
    match parse_bytes_checked(bytes, file_name, options) {
        Some(p) => p,
        None => vstd::pervasive::unreached(),
    }
}

/// Parses a document, loading stream data.
pub fn parse_bytes(bytes: &[u8], file_name: &str) -> (r: ParsedPdf)
    requires
        parse_core(bytes@, ParseOptions { load_stream_bytes: true, skip_invalid_xref_objects: false }) is Some,
    ensures
        parsed_matches(r, parse_core(bytes@, ParseOptions { load_stream_bytes: true, skip_invalid_xref_objects: false })->0, bytes@, file_name@),
{
    parse_bytes_with_options(bytes, file_name, default_parse_options())
}


/// The largest file the full-file parser reads: 1 GiB.
pub const MAX_FULL_PARSE_FILE_SIZE: u64 = 1073741824u64;

/// Refuses a file larger than the full-file parser reads.
pub fn check_full_parse_size(size: u64) -> (r: Result<(), crate::error::PdfDebuggerError>)
    ensures
        r is Ok <==> size <= MAX_FULL_PARSE_FILE_SIZE,
        r matches Err(e) ==> e@ == crate::error::ErrorV::FileTooLarge(size, MAX_FULL_PARSE_FILE_SIZE),
{
    if size > MAX_FULL_PARSE_FILE_SIZE {
        Err(crate::error::PdfDebuggerError::FileTooLarge { size, limit: MAX_FULL_PARSE_FILE_SIZE })
    } else {
        Ok(())
    }
}

} // verus!
