//! The cross-reference index that the lazy reader builds: entries decoded
//! from binary cross-reference streams, the newest section winning for each
//! reference, and the trailer dictionaries merged in the same way.
use vstd::prelude::*;
use crate::error::{ErrorV, PdfDebuggerError};
use crate::pdf_model::{ObjectRef, PdfDictionary, PdfValue, ValueView, dict_get, view_usize};
use crate::text::owned;
use crate::value_views::value_views;

verus! {

broadcast use crate::value_views::group_views;

/// Where a compressed object lives: its object stream and its index there.
#[derive(Clone, Copy, Debug, PartialEq, Eq, Structural)]
pub struct LazyCompressedObjectEntry {
    pub object_stream: ObjectRef,
    pub index: usize,
}

/// One cross-reference entry as the lazy reader keeps it.
#[derive(Clone, Copy, Debug, PartialEq, Eq, Structural)]
pub struct LazyXrefEntry {
    pub reference: ObjectRef,
    pub offset: usize,
    pub in_use: bool,
    pub generation: u16,
    pub compressed: Option<LazyCompressedObjectEntry>,
}

/// The lazy reader's cross-reference index.
#[derive(Clone, Debug)]
pub struct LazyXrefIndex {
    pub startxref: Option<usize>,
    pub entries: Vec<LazyXrefEntry>,
}

/// A problem the lazy reader met, with its byte offset when known.
#[derive(Clone, Debug)]
pub struct LazyPdfWarning {
    pub rule_id: String,
    pub message: String,
    pub byte_offset: Option<usize>,
}

// ---------------------------------------------------------------------------
// Binary fields
// ---------------------------------------------------------------------------

/// Big-endian bytes as a number, keeping the low bits that fit in a `usize`.
pub open spec fn be_field(s: Seq<u8>) -> nat
    decreases s.len(),
{
    if s.len() == 0 {
        0
    } else {
        (be_field(s.drop_last()) * 256 + s.last() as nat) % (usize::MAX as nat + 1)
    }
}

/// The field of `width` bytes at `start`, zero where the bytes run out.
pub open spec fn xref_field(b: Seq<u8>, start: int, width: int) -> usize {
    let end = if start + width > usize::MAX { usize::MAX as int } else { start + width };
    if end > b.len() { 0 } else { be_field(b.subrange(start, end)) as usize }
}

proof fn lemma_be_field_step(v: usize, byte: u8)
    ensures
        (((v as nat * 256) % (usize::MAX as nat + 1)) + byte as nat) == (v as nat * 256 + byte as nat) % (usize::MAX as nat + 1),
        (((v as nat * 256) % (usize::MAX as nat + 1)) + byte as nat) <= usize::MAX,
{
    let m: int = usize::MAX as int + 1;
    let k: int = m / 256;
    assert(m == 256 * k && k > 0) by {
        assert(usize::MAX == 0xffff_ffff || usize::MAX == 0xffff_ffff_ffff_ffff);
    }
    let x: int = v as int;
    let b: int = byte as int;
    let q: int = x / k;
    let r: int = x % k;
    vstd::arithmetic::div_mod::lemma_fundamental_div_mod(x, k);
    assert(0 <= r < k);
    assert(x * 256 == m * q + 256 * r) by (nonlinear_arith)
        requires
            x == k * q + r,
            m == 256 * k,
    {
    }
    assert(0 <= 256 * r + b < m) by (nonlinear_arith)
        requires
            0 <= r < k,
            0 <= b < 256,
            m == 256 * k,
    {
    }
    vstd::arithmetic::div_mod::lemma_mod_multiples_vanish(q, 256 * r, m);
    vstd::arithmetic::div_mod::lemma_mod_multiples_vanish(q, 256 * r + b, m);
    vstd::arithmetic::div_mod::lemma_small_mod((256 * r) as nat, m as nat);
    vstd::arithmetic::div_mod::lemma_small_mod((256 * r + b) as nat, m as nat);
    assert((x * 256) % m == 256 * r);
    assert((x * 256 + b) % m == 256 * r + b);
}

/// Reads a big-endian field of `width` bytes at `start`; zero where the
/// bytes run out.
pub fn read_xref_field(bytes: &[u8], start: usize, width: usize) -> (r: usize)
    ensures
        r == xref_field(bytes@, start as int, width as int),
{
    let end = start.saturating_add(width);
    if end > bytes.len() {
        return 0;
    }
    let mut value: usize = 0;
    let mut i: usize = start;
    assert(bytes@.subrange(start as int, start as int) =~= Seq::<u8>::empty());
    while i < end
        invariant
            start <= i <= end <= bytes@.len(),
            value as nat == be_field(bytes@.subrange(start as int, i as int)),
        decreases end - i,
    {
        assert(bytes@.subrange(start as int, i + 1).drop_last() =~= bytes@.subrange(start as int, i as int));
        proof {
            lemma_be_field_step(value, bytes@[i as int]);
        }
        value = value.wrapping_mul(256) + bytes[i] as usize;
        i = i + 1;
    }
    value
}

// ---------------------------------------------------------------------------
// /W and /Index
// ---------------------------------------------------------------------------

pub open spec fn usize_or_zero(v: ValueView) -> usize {
    match view_usize(v) {
        Some(x) => x,
        None => 0,
    }
}

/// The three field widths of an xref stream, or why there are none.
pub open spec fn widths_of(d: Seq<(Seq<char>, ValueView)>) -> Result<(usize, usize, usize), ErrorV> {
    match dict_get(d, "W"@) {
        Some(ValueView::Array(a)) => if a.len() != 3 {
            Err(ErrorV::LazyOpen("xref stream /W must contain exactly three widths"@))
        } else {
            Ok((usize_or_zero(a[0]), usize_or_zero(a[1]), usize_or_zero(a[2])))
        },
        _ => Err(ErrorV::LazyOpen("xref stream is missing /W"@)),
    }
}

pub open spec fn clamp_u32(x: usize) -> u32 {
    if x > u32::MAX { u32::MAX } else { x as u32 }
}

/// The (first object, count) pairs of an `/Index` array; an odd last number
/// is ignored.
pub open spec fn index_pairs(a: Seq<ValueView>) -> Seq<(u32, usize)>
    decreases a.len(),
{
    if a.len() < 2 {
        seq![]
    } else {
        seq![(clamp_u32(usize_or_zero(a[0])), usize_or_zero(a[1]))] + index_pairs(a.skip(2))
    }
}

/// The subsections of an xref stream: its `/Index` pairs, else one running
/// from object 0 over `/Size` objects, or why there are none.
pub open spec fn indexes_of(d: Seq<(Seq<char>, ValueView)>) -> Result<Seq<(u32, usize)>, ErrorV> {
    match dict_get(d, "Index"@) {
        Some(ValueView::Array(a)) => Ok(index_pairs(a)),
        _ => match dict_get(d, "Size"@) {
            Some(v) => match view_usize(v) {
                Some(s) => Ok(seq![(0u32, s)]),
                None => Err(ErrorV::LazyOpen("xref stream is missing /Index and numeric /Size"@)),
            },
            None => Err(ErrorV::LazyOpen("xref stream is missing /Index and numeric /Size"@)),
        },
    }
}

fn lazy_open(message: &str) -> (e: PdfDebuggerError)
    ensures
        e@ == ErrorV::LazyOpen(message@),
{
    PdfDebuggerError::LazyOpen { message: owned(message) }
}

/// Reads the `/W` widths of an xref stream dictionary.
pub fn xref_widths(dictionary: &PdfDictionary) -> (r: Result<[usize; 3], PdfDebuggerError>)
    ensures
        match widths_of(dictionary@) {
            Ok(w) => r matches Ok(x) && x@ == seq![w.0, w.1, w.2],
            Err(e) => r matches Err(x) && x@ == e,
        },
{
    let values = match dictionary.get("W") {
        Some(v) => v.as_array(),
        None => None,
    };
    let values = match values {
        Some(a) => a,
        None => return Err(lazy_open("xref stream is missing /W")),
    };
    if values.len() != 3 {
        return Err(lazy_open("xref stream /W must contain exactly three widths"));
    }
    let a = match values[0].as_usize() { Some(x) => x, None => 0 };
    let b = match values[1].as_usize() { Some(x) => x, None => 0 };
    let c = match values[2].as_usize() { Some(x) => x, None => 0 };
    let w = [a, b, c];
    assert(w@ =~= seq![a, b, c]);
    Ok(w)
}

/// Reads the subsections of an xref stream dictionary.
pub fn xref_indexes(dictionary: &PdfDictionary) -> (r: Result<Vec<(u32, usize)>, PdfDebuggerError>)
    ensures
        match indexes_of(dictionary@) {
            Ok(p) => r matches Ok(x) && x@ == p,
            Err(e) => r matches Err(x) && x@ == e,
        },
{
    let index = match dictionary.get("Index") {
        Some(v) => v.as_array(),
        None => None,
    };
    match index {
        Some(values) => {
            let ghost all = value_views(values@);
            let mut pairs: Vec<(u32, usize)> = Vec::new();
            let mut i: usize = 0;
            assert(all.skip(0) =~= all);
            while i + 1 < values.len()
                invariant
                    i <= values@.len(),
                    i % 2 == 0,
                    all == value_views(values@),
                    all.len() == values@.len(),
                    index_pairs(all) == pairs@ + index_pairs(all.skip(i as int)),
                decreases values@.len() - i,
            {
                let first = match values[i].as_usize() { Some(x) => x, None => 0 };
                let count = match values[i + 1].as_usize() { Some(x) => x, None => 0 };
                let first = if first > 0xffff_ffff { 0xffff_ffffu32 } else { first as u32 };
                let ghost rest = all.skip(i as int);
                assert(rest[0] == values@[i as int]@ && rest[1] == values@[i + 1]@);
                assert(rest.skip(2) =~= all.skip(i + 2));
                pairs.push((first, count));
                assert(index_pairs(all) == pairs@ + index_pairs(all.skip(i + 2)));
                i = i + 2;
            }
            assert(all.skip(i as int).len() < 2);
            assert(pairs@ + Seq::<(u32, usize)>::empty() =~= pairs@);
            Ok(pairs)
        },
        None => {
            let size = match dictionary.get("Size") {
                Some(v) => v.as_usize(),
                None => None,
            };
            match size {
                Some(s) => {
                    let mut pairs: Vec<(u32, usize)> = Vec::new();
                    pairs.push((0, s));
                    assert(pairs@ =~= seq![(0u32, s)]);
                    Ok(pairs)
                },
                None => Err(lazy_open("xref stream is missing /Index and numeric /Size")),
            }
        },
    }
}

// ---------------------------------------------------------------------------
// Decoding the entries
// ---------------------------------------------------------------------------

pub open spec fn clamp_u16(x: usize) -> u16 {
    if x > u16::MAX { u16::MAX } else { x as u16 }
}

/// The entry for object `num` from its type and two data fields: free (0),
/// in use at an offset (1), or compressed in an object stream (2); other
/// types give none.
pub open spec fn stream_entry(num: u32, ty: usize, f1: usize, f2: usize) -> Option<LazyXrefEntry> {
    if ty == 0 {
        Some(LazyXrefEntry { reference: ObjectRef { object: num, generation: clamp_u16(f2) }, offset: f1, in_use: false, generation: clamp_u16(f2), compressed: None })
    } else if ty == 1 {
        Some(LazyXrefEntry { reference: ObjectRef { object: num, generation: clamp_u16(f2) }, offset: f1, in_use: true, generation: clamp_u16(f2), compressed: None })
    } else if ty == 2 {
        Some(LazyXrefEntry {
            reference: ObjectRef { object: num, generation: 0 },
            offset: f1,
            in_use: true,
            generation: 0,
            compressed: Some(LazyCompressedObjectEntry { object_stream: ObjectRef { object: clamp_u32(f1), generation: 0 }, index: f2 }),
        })
    } else {
        None
    }
}

/// The entries of one subsection from `cursor` on, with the cursor after
/// them, whether the data ran out, and whether an object number passed
/// `u32::MAX` (where counting would overflow).
pub open spec fn subsection_entries(
    b: Seq<u8>,
    w: (usize, usize, usize),
    size: nat,
    first: u32,
    count: nat,
    index: nat,
    cursor: nat,
    acc: Seq<LazyXrefEntry>,
) -> (Seq<LazyXrefEntry>, nat, bool, bool)
    decreases count - index,
{
    if index >= count {
        (acc, cursor, false, false)
    } else if cursor + size > b.len() {
        (acc, cursor, true, false)
    } else {
        let num = first as nat + index % 0x1_0000_0000;
        if num > u32::MAX {
            (acc, cursor, false, true)
        } else {
            let f0 = xref_field(b, cursor as int, w.0 as int);
            let f1 = xref_field(b, cursor + w.0, w.1 as int);
            let f2 = xref_field(b, cursor + w.0 + w.1, w.2 as int);
            let ty: usize = if w.0 == 0 { 1 } else { f0 };
            let next = match stream_entry(num as u32, ty, f1, f2) {
                Some(e) => acc.push(e),
                None => acc,
            };
            subsection_entries(b, w, size, first, count, index + 1, cursor + size, next)
        }
    }
}

/// The entries of the subsections in order, and whether an object number
/// overflowed.
pub open spec fn subsections_entries(
    b: Seq<u8>,
    w: (usize, usize, usize),
    size: nat,
    pairs: Seq<(u32, usize)>,
    cursor: nat,
    acc: Seq<LazyXrefEntry>,
) -> (Seq<LazyXrefEntry>, bool)
    decreases pairs.len(),
{
    if pairs.len() == 0 {
        (acc, false)
    } else {
        let (a2, c2, stopped, overflow) = subsection_entries(b, w, size, pairs[0].0, pairs[0].1 as nat, 0, cursor, acc);
        if overflow {
            (a2, true)
        } else if stopped {
            (a2, false)
        } else {
            subsections_entries(b, w, size, pairs.drop_first(), c2, a2)
        }
    }
}

/// The entries of a decoded xref stream, or why there are none; `None`
/// where the widths' sum or an object number overflows, which the reader
/// does not survive.
pub open spec fn xref_stream_entries(d: Seq<(Seq<char>, ValueView)>, b: Seq<u8>, r: ObjectRef) -> Option<Result<Seq<LazyXrefEntry>, ErrorV>> {
    match widths_of(d) {
        Err(e) => Some(Err(e)),
        Ok(w) => match indexes_of(d) {
            Err(e) => Some(Err(e)),
            Ok(pairs) => {
                let size = w.0 as nat + w.1 as nat + w.2 as nat;
                if size > usize::MAX {
                    None
                } else if size == 0 {
                    Some(Err(ErrorV::LazyOpen("xref stream "@ + r.spec_text() + " has zero-width /W entries"@)))
                } else {
                    let (entries, overflow) = subsections_entries(b, w, size, pairs, 0, seq![]);
                    if overflow { None } else { Some(Ok(entries)) }
                }
            },
        },
    }
}

/// Decodes one subsection from `cursor`; returns whether the data ran out
/// and whether an object number overflowed.
fn decode_subsection(
    decoded: &[u8],
    widths: [usize; 3],
    size: usize,
    first: u32,
    count: usize,
    cursor: &mut usize,
    entries: &mut Vec<LazyXrefEntry>,
) -> (r: (bool, bool))
    requires
        size == widths@[0] + widths@[1] + widths@[2],
        size > 0,
        *old(cursor) <= decoded@.len(),
    ensures
        *final(cursor) <= decoded@.len(),
        (final(entries)@, *final(cursor) as nat, r.0, r.1) == subsection_entries(decoded@, (widths@[0], widths@[1], widths@[2]),
            size as nat, first, count as nat, 0, *old(cursor) as nat, old(entries)@),
{
    let ghost w = (widths@[0], widths@[1], widths@[2]);
    let ghost b = decoded@;
    let ghost goal = subsection_entries(b, w, size as nat, first, count as nat, 0, *cursor as nat, entries@);
    let n = decoded.len();
    let mut index: usize = 0;
    while index < count
        invariant
            index <= count,
            *cursor <= b.len(),
            size == w.0 + w.1 + w.2,
            size > 0,
            w == (widths@[0], widths@[1], widths@[2]),
            b == decoded@,
            goal == subsection_entries(b, w, size as nat, first, count as nat, index as nat, *cursor as nat, entries@),
            goal == subsection_entries(decoded@, (widths@[0], widths@[1], widths@[2]), size as nat, first, count as nat, 0,
                *old(cursor) as nat, old(entries)@),
            b.len() <= usize::MAX,
        decreases count - index,
    {
        let end = match cursor.checked_add(size) {
            Some(e) => e,
            None => {
                assert(subsection_entries(b, w, size as nat, first, count as nat, index as nat, *cursor as nat, entries@)
                    == (entries@, *cursor as nat, true, false));
                return (true, false);
            },
        };
        if end > decoded.len() {
            assert(subsection_entries(b, w, size as nat, first, count as nat, index as nat, *cursor as nat, entries@)
                == (entries@, *cursor as nat, true, false));
            return (true, false);
        }
        let number = (first as u64) + ((index as u64) % 0x1_0000_0000);
        if number > 0xffff_ffff {
            assert(subsection_entries(b, w, size as nat, first, count as nat, index as nat, *cursor as nat, entries@)
                == (entries@, *cursor as nat, false, true));
            return (false, true);
        }
        let at = *cursor;
        let f0 = read_xref_field(decoded, at, widths[0]);
        let f1 = read_xref_field(decoded, at + widths[0], widths[1]);
        let f2 = read_xref_field(decoded, at + widths[0] + widths[1], widths[2]);
        let ty: usize = if widths[0] == 0 { 1 } else { f0 };
        let generation: u16 = if f2 > 0xffff { 0xffff } else { f2 as u16 };
        let object = number as u32;
        if ty == 0 {
            entries.push(LazyXrefEntry { reference: ObjectRef { object, generation }, offset: f1, in_use: false, generation, compressed: None });
        } else if ty == 1 {
            entries.push(LazyXrefEntry { reference: ObjectRef { object, generation }, offset: f1, in_use: true, generation, compressed: None });
        } else if ty == 2 {
            let stream_object: u32 = if f1 > 0xffff_ffff { 0xffff_ffff } else { f1 as u32 };
            entries.push(LazyXrefEntry {
                reference: ObjectRef { object, generation: 0 },
                offset: f1,
                in_use: true,
                generation: 0,
                compressed: Some(LazyCompressedObjectEntry { object_stream: ObjectRef { object: stream_object, generation: 0 }, index: f2 }),
            });
        }
        *cursor = end;
        index = index + 1;
    }
    (false, false)
}

fn decode_entries(
    decoded: &[u8],
    widths: [usize; 3],
    size: usize,
    pairs: &Vec<(u32, usize)>,
    entries: &mut Vec<LazyXrefEntry>,
) -> (overflow: bool)
    requires
        size == widths@[0] + widths@[1] + widths@[2],
        size > 0,
    ensures
        (final(entries)@, overflow) == subsections_entries(decoded@, (widths@[0], widths@[1], widths@[2]), size as nat, pairs@, 0, old(entries)@),
{
    let ghost w = (widths@[0], widths@[1], widths@[2]);
    let ghost b = decoded@;
    let mut cursor: usize = 0;
    let mut p: usize = 0;
    assert(pairs@.skip(0) =~= pairs@);
    let ghost goal = subsections_entries(b, w, size as nat, pairs@, 0, entries@);
    while p < pairs.len()
        invariant
            p <= pairs@.len(),
            cursor <= b.len(),
            size == w.0 + w.1 + w.2,
            size > 0,
            w == (widths@[0], widths@[1], widths@[2]),
            b == decoded@,
            goal == subsections_entries(b, w, size as nat, pairs@.skip(p as int), cursor as nat, entries@),
            goal == subsections_entries(decoded@, (widths@[0], widths@[1], widths@[2]), size as nat, pairs@, 0, old(entries)@),
        decreases pairs@.len() - p,
    {
        let (first, count) = pairs[p];
        let ghost rest = pairs@.skip(p as int);
        assert(rest[0] == (first, count));
        assert(rest.drop_first() =~= pairs@.skip(p + 1));
        let (stopped, overflow) = decode_subsection(decoded, widths, size, first, count, &mut cursor, entries);
        if overflow {
            return true;
        }
        if stopped {
            return false;
        }
        p = p + 1;
    }
    false
}

/// Decodes the entries of an xref stream from its dictionary and decoded
/// data. Defined where the widths' sum and the object numbers fit.
pub fn parse_decoded_xref_stream_entries(
    dictionary: &PdfDictionary,
    decoded: &[u8],
    xref_stream_reference: ObjectRef,
) -> (r: Result<Vec<LazyXrefEntry>, PdfDebuggerError>)
    requires
        xref_stream_entries(dictionary@, decoded@, xref_stream_reference) is Some,
    ensures
        match xref_stream_entries(dictionary@, decoded@, xref_stream_reference)->0 {
            Ok(es) => r matches Ok(x) && x@ == es,
            Err(e) => r matches Err(x) && x@ == e,
        },
{
    match parse_decoded_xref_stream_entries_checked(dictionary, decoded, xref_stream_reference) {
        Some(r) => r,
        None => vstd::pervasive::unreached(),
    }
}

/// Decodes the entries of an xref stream; `None` where the widths' sum or
/// an object number overflows.
pub fn parse_decoded_xref_stream_entries_checked(
    dictionary: &PdfDictionary,
    decoded: &[u8],
    xref_stream_reference: ObjectRef,
) -> (r: Option<Result<Vec<LazyXrefEntry>, PdfDebuggerError>>)
    ensures
        match xref_stream_entries(dictionary@, decoded@, xref_stream_reference) {
            None => r is None,
            Some(Ok(es)) => r matches Some(Ok(x)) && x@ == es,
            Some(Err(e)) => r matches Some(Err(x)) && x@ == e,
        },
{
    let widths = match xref_widths(dictionary) {
        Ok(w) => w,
        Err(e) => return Some(Err(e)),
    };
    let pairs = match xref_indexes(dictionary) {
        Ok(p) => p,
        Err(e) => return Some(Err(e)),
    };
    let size = match widths[0].checked_add(widths[1]) {
        Some(s) => s.checked_add(widths[2]),
        None => None,
    };
    let size = match size {
        Some(s) => s,
        None => return None,
    };
    if size == 0 {
        let mut m = owned("xref stream ");
        let t = xref_stream_reference.to_text();
        crate::text::push_str(&mut m, t.as_str());
        crate::text::push_str(&mut m, " has zero-width /W entries");
        return Some(Err(PdfDebuggerError::LazyOpen { message: m }));
    }
    let mut entries: Vec<LazyXrefEntry> = Vec::new();
    if decode_entries(decoded, widths, size, &pairs, &mut entries) {
        return None;
    }
    Some(Ok(entries))
}


// ---------------------------------------------------------------------------
// Entries in reference order
// ---------------------------------------------------------------------------

/// Cross-reference entries in strictly increasing reference order.
pub open spec fn lazy_entries_sorted(s: Seq<LazyXrefEntry>) -> bool {
    forall|i: int, j: int| 0 <= i < j < s.len() ==> (#[trigger] s[i]).reference.precedes((#[trigger] s[j]).reference)
}

pub open spec fn lazy_entries_get(s: Seq<LazyXrefEntry>, r: ObjectRef) -> Option<LazyXrefEntry>
    decreases s.len(),
{
    if s.len() == 0 {
        None
    } else if s[0].reference == r {
        Some(s[0])
    } else {
        lazy_entries_get(s.drop_first(), r)
    }
}

/// The entries after storing `e` under its reference, replacing an entry
/// stored there, keeping reference order.
pub open spec fn lazy_entries_put(s: Seq<LazyXrefEntry>, e: LazyXrefEntry) -> Seq<LazyXrefEntry>
    decreases s.len(),
{
    if s.len() == 0 {
        seq![e]
    } else if s[0].reference == e.reference {
        seq![e] + s.drop_first()
    } else if e.reference.precedes(s[0].reference) {
        seq![e] + s
    } else {
        seq![s[0]] + lazy_entries_put(s.drop_first(), e)
    }
}

/// The entries after storing `e` only when its reference is not there yet.
pub open spec fn lazy_entries_put_absent(s: Seq<LazyXrefEntry>, e: LazyXrefEntry) -> Seq<LazyXrefEntry> {
    if lazy_entries_get(s, e.reference) is Some { s } else { lazy_entries_put(s, e) }
}

proof fn lemma_lazy_put_position(s: Seq<LazyXrefEntry>, e: LazyXrefEntry, i: int)
    requires
        0 <= i <= s.len(),
        forall|j: int| 0 <= j < i ==> (#[trigger] s[j]).reference.precedes(e.reference),
        i == s.len() || !s[i].reference.precedes(e.reference),
    ensures
        lazy_entries_put(s, e) == s.take(i) + seq![e] + if i < s.len() && s[i].reference == e.reference { s.skip(i + 1) } else { s.skip(i) },
        i < s.len() && s[i].reference == e.reference ==> lazy_entries_get(s, e.reference) == Some(s[i]),
        !(i < s.len() && s[i].reference == e.reference) && lazy_entries_sorted(s) ==> lazy_entries_get(s, e.reference) is None,
    decreases i,
{
    if i == 0 {
        if s.len() == 0 {
            assert(s.take(0) + seq![e] + s.skip(0) =~= seq![e]);
        } else if s[0].reference == e.reference {
            assert(s.take(0) + seq![e] + s.skip(1) =~= seq![e] + s.drop_first());
        } else {
            assert(s.take(0) + seq![e] + s.skip(0) =~= seq![e] + s);
            if lazy_entries_sorted(s) {
                lemma_lazy_absent_after(s, e.reference);
            }
        }
    } else {
        let t = s.drop_first();
        assert forall|j: int| 0 <= j < i - 1 implies (#[trigger] t[j]).reference.precedes(e.reference) by {
            assert(t[j] == s[j + 1]);
        }
        if i - 1 < t.len() {
            assert(t[i - 1] == s[i]);
        }
        if lazy_entries_sorted(s) {
            assert forall|a: int, b: int| 0 <= a < b < t.len() implies (#[trigger] t[a]).reference.precedes((#[trigger] t[b]).reference) by {
                assert(t[a] == s[a + 1] && t[b] == s[b + 1]);
            }
        }
        lemma_lazy_put_position(t, e, i - 1);
        assert(s[0].reference.precedes(e.reference));
        if i < s.len() && s[i].reference == e.reference {
            assert(seq![s[0]] + (t.take(i - 1) + seq![e] + t.skip(i)) =~= s.take(i) + seq![e] + s.skip(i + 1));
        } else {
            assert(seq![s[0]] + (t.take(i - 1) + seq![e] + t.skip(i - 1)) =~= s.take(i) + seq![e] + s.skip(i));
        }
    }
}

/// In sorted entries that start after `r`, `r` is absent.
proof fn lemma_lazy_absent_after(s: Seq<LazyXrefEntry>, r: ObjectRef)
    requires
        lazy_entries_sorted(s),
        s.len() > 0,
        r.precedes(s[0].reference),
    ensures
        lazy_entries_get(s, r) is None,
    decreases s.len(),
{
    if s.len() > 1 {
        let t = s.drop_first();
        assert(s[0].reference.precedes(s[1].reference));
        assert(t[0] == s[1]);
        assert forall|a: int, b: int| 0 <= a < b < t.len() implies (#[trigger] t[a]).reference.precedes((#[trigger] t[b]).reference) by {
            assert(t[a] == s[a + 1] && t[b] == s[b + 1]);
        }
        assert(r.precedes(t[0].reference));
        lemma_lazy_absent_after(t, r);
        assert(s[0].reference != r);
    } else {
        assert(s[0].reference != r);
        assert(lazy_entries_get(s.drop_first(), r) is None);
    }
}

/// Stores an entry under its reference; with `replace` an entry already
/// there is replaced, without it the entry already there stays.
pub fn insert_lazy_entry(entries: &mut Vec<LazyXrefEntry>, entry: LazyXrefEntry, replace: bool)
    requires
        lazy_entries_sorted(old(entries)@),
    ensures
        final(entries)@ == if replace { lazy_entries_put(old(entries)@, entry) } else { lazy_entries_put_absent(old(entries)@, entry) },
        lazy_entries_sorted(final(entries)@),
{
    let ghost v = entries@;
    let mut i = entries.len();
    while i > 0 && !entries[i - 1].reference.less_than(&entry.reference)
        invariant
            i <= entries@.len(),
            v == entries@,
            lazy_entries_sorted(v),
            forall|j: int| i <= j < entries@.len() ==> !(#[trigger] entries@[j]).reference.precedes(entry.reference),
        decreases i,
    {
        i = i - 1;
    }
    proof {
        assert forall|j: int| 0 <= j < i implies (#[trigger] v[j]).reference.precedes(entry.reference) by {
            if j < i - 1 {
                assert(v[j].reference.precedes(v[i - 1].reference));
            }
        }
        lemma_lazy_put_position(v, entry, i as int);
    }
    let found = i < entries.len() && entries[i].reference == entry.reference;
    if found {
        if replace {
            entries.set(i, entry);
            assert(entries@ =~= v.take(i as int) + seq![entry] + v.skip(i + 1));
        }
    } else {
        entries.insert(i, entry);
        assert(entries@ =~= v.take(i as int) + seq![entry] + v.skip(i as int));
    }
    proof {
        let nv = entries@;
        assert forall|a: int, b: int| 0 <= a < b < nv.len() implies (#[trigger] nv[a]).reference.precedes((#[trigger] nv[b]).reference) by {
            if found {
                if a == i {
                    if b > i {
                        assert(v[i as int].reference.precedes(v[b].reference));
                    }
                }
            } else {
                if a < i && b < i {
                } else if a < i && b == i {
                } else if a < i {
                    assert(nv[b] == v[b - 1]);
                    if b - 1 > i {
                        assert(v[i as int].reference.precedes(v[b - 1].reference));
                    }
                } else if a == i {
                    assert(nv[b] == v[b - 1]);
                    if b - 1 > i {
                        assert(v[i as int].reference.precedes(v[b - 1].reference));
                    }
                } else {
                    assert(nv[a] == v[a - 1] && nv[b] == v[b - 1]);
                }
            }
        }
    }
}

} // verus!
