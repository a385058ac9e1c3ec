//! Fast diagnostics of a lazily opened document: its open warnings, the
//! trailer and catalog, every page and link checked against the
//! cross-reference index, and a bounded number of stream dictionaries
//! checked without decoding their data. Each finding is reported once.
use vstd::prelude::*;
use crate::error::{ErrorV, error_message};
use crate::lazy_pages::{build_lazy_page_index, lazy_page_walk, lazy_document_kept};
use crate::lazy_pdf::{LazyPdfDocument, LazyWarningV, lazy_stream_metadata, lazy_warning_views, read_lazy_stream_metadata};
use crate::lazy_xref::{LazyPdfWarning, LazyXrefEntry};
use crate::page_index::{PageIndex, PageObjectLink, PageObjectLinkKind, PageSummary, PageSummaryV, LinkV, link_views, page_views};
use crate::pdf_model::{DiagnosticSummary, Finding, ObjectRef, PdfStream, Severity, count_severity};
use crate::text::{decimal, owned, push_decimal, push_str, str_eq, string_views};
use crate::value_views::{FindingV, StreamV, finding_views};
use crate::report::{LazyDebugReport, LazyReportEnrichment, REPORT_SCHEMA_VERSION, copy_metadata, same_metadata};

verus! {

/// How many distinct streams the fast diagnostics read the dictionary of.
pub const LAZY_FAST_STREAM_METADATA_LIMIT: usize = 256;

/// The findings of the fast diagnostics and their counts by severity.
#[derive(Debug)]
pub struct LazyDiagnosticsReport {
    pub diagnostics: DiagnosticSummary,
    pub findings: Vec<Finding>,
}

// ---------------------------------------------------------------------------
// Findings reported once
// ---------------------------------------------------------------------------

/// What makes two findings the same: rule, object, page, offset, message.
pub open spec fn finding_key(f: FindingV) -> (Seq<char>, Option<ObjectRef>, Option<u32>, Option<usize>, Seq<char>) {
    (f.0, f.3, f.4, f.5, f.2)
}

pub open spec fn has_key(s: Seq<FindingV>, f: FindingV) -> bool {
    exists|i: int| 0 <= i < s.len() && finding_key(#[trigger] s[i]) == finding_key(f)
}

/// The findings with `f` added unless the same finding is already there.
pub open spec fn push_once(s: Seq<FindingV>, f: FindingV) -> Seq<FindingV> {
    if has_key(s, f) { s } else { s.push(f) }
}

fn same_key(a: &Finding, b: &Finding) -> (r: bool)
    ensures
        r == (finding_key(a@) == finding_key(b@)),
{
    a.object == b.object && a.page == b.page && a.byte_offset == b.byte_offset && str_eq(a.rule_id.as_str(), b.rule_id.as_str())
        && str_eq(a.message.as_str(), b.message.as_str())
}

fn add_once(findings: &mut Vec<Finding>, f: Finding)
    ensures
        finding_views(final(findings)@) == push_once(finding_views(old(findings)@), f@),
{
    let ghost fv = finding_views(findings@);
    let mut i: usize = 0;
    while i < findings.len()
        invariant
            i <= findings@.len(),
            fv == finding_views(findings@),
            fv.len() == findings@.len(),
            forall|j: int| 0 <= j < i ==> finding_key(#[trigger] fv[j]) != finding_key(f@),
        decreases findings@.len() - i,
    {
        assert(fv[i as int] == findings@[i as int]@);
        if same_key(&findings[i], &f) {
            assert(has_key(fv, f@));
            return;
        }
        i = i + 1;
    }
    assert(!has_key(fv, f@));
    findings.push(f);
    assert(finding_views(findings@) =~= fv.push(f@));
}

fn make_finding(
    rule_id: &str,
    severity: Severity,
    message: String,
    object: Option<ObjectRef>,
    page: Option<u32>,
    byte_offset: Option<usize>,
    next: &str,
) -> (f: Finding)
    ensures
        f@ == (rule_id@, severity, message@, object, page, byte_offset, next@),
{
    Finding { rule_id: owned(rule_id), severity, message, object, page, byte_offset, suggested_next_step: owned(next) }
}

// ---------------------------------------------------------------------------
// The state of the checks
// ---------------------------------------------------------------------------

/// The findings so far, the references and streams already checked, and
/// whether the stream limit was reported.
pub struct FastV {
    pub findings: Seq<FindingV>,
    pub checked: Seq<ObjectRef>,
    pub streams: Seq<ObjectRef>,
    pub limit_reported: bool,
}

pub open spec fn add_finding(st: FastV, f: FindingV) -> FastV {
    FastV { findings: push_once(st.findings, f), checked: st.checked, streams: st.streams, limit_reported: st.limit_reported }
}

struct FastState {
    findings: Vec<Finding>,
    checked: Vec<ObjectRef>,
    streams: Vec<ObjectRef>,
    limit_reported: bool,
}

spec fn fast_view(s: FastState) -> FastV {
    FastV { findings: finding_views(s.findings@), checked: s.checked@, streams: s.streams@, limit_reported: s.limit_reported }
}

fn contains_ref(v: &Vec<ObjectRef>, r: ObjectRef) -> (b: bool)
    ensures
        b == v@.contains(r),
{
    let mut i: usize = 0;
    while i < v.len()
        invariant
            i <= v@.len(),
            forall|j: int| 0 <= j < i ==> v@[j] != r,
        decreases v@.len() - i,
    {
        if v[i] == r {
            return true;
        }
        i = i + 1;
    }
    false
}

fn ref_text(a: &str, r: ObjectRef, b: &str) -> (s: String)
    ensures
        s@ == a@ + r.spec_text() + b@,
{
    let mut s = owned(a);
    let t = r.to_text();
    push_str(&mut s, t.as_str());
    push_str(&mut s, b);
    s
}

// ---------------------------------------------------------------------------
// The open warnings
// ---------------------------------------------------------------------------

pub open spec fn warning_finding(w: LazyWarningV) -> FindingV {
    (w.0, Severity::Warning, w.1, None, None, w.2,
        "Continue with lazy inspection; if this affects a branch, inspect the referenced object by xref offset."@)
}

pub open spec fn warnings_findings(ws: Seq<LazyWarningV>, s: Seq<FindingV>) -> Seq<FindingV>
    decreases ws.len(),
{
    if ws.len() == 0 { s } else { push_once(warnings_findings(ws.drop_last(), s), warning_finding(ws.last())) }
}

fn add_lazy_warnings(warnings: &Vec<LazyPdfWarning>, findings: &mut Vec<Finding>)
    ensures
        finding_views(final(findings)@) == warnings_findings(lazy_warning_views(warnings@), finding_views(old(findings)@)),
{
    let ghost wv = lazy_warning_views(warnings@);
    let ghost start = finding_views(findings@);
    let mut i: usize = 0;
    assert(wv.take(0) =~= Seq::<LazyWarningV>::empty());
    while i < warnings.len()
        invariant
            i <= warnings@.len(),
            wv == lazy_warning_views(warnings@),
            finding_views(findings@) == warnings_findings(wv.take(i as int), start),
        decreases warnings@.len() - i,
    {
        assert(wv.take(i + 1).drop_last() =~= wv.take(i as int));
        let w = &warnings[i];
        let f = make_finding(w.rule_id.as_str(), Severity::Warning, owned(w.message.as_str()), None, None, w.byte_offset,
            "Continue with lazy inspection; if this affects a branch, inspect the referenced object by xref offset.");
        add_once(findings, f);
        i = i + 1;
    }
    assert(wv.take(warnings@.len() as int) =~= wv);
}

// ---------------------------------------------------------------------------
// References against the cross-reference index
// ---------------------------------------------------------------------------

/// The entry for `r`: the last one with that reference.
pub open spec fn lookup(es: Seq<LazyXrefEntry>, r: ObjectRef) -> Option<LazyXrefEntry>
    decreases es.len(),
{
    if es.len() == 0 {
        None
    } else if es.last().reference == r {
        Some(es.last())
    } else {
        lookup(es.drop_last(), r)
    }
}

fn lookup_entry(es: &Vec<LazyXrefEntry>, r: ObjectRef) -> (e: Option<LazyXrefEntry>)
    ensures
        e == lookup(es@, r),
{
    let mut i = es.len();
    assert(es@.take(i as int) =~= es@);
    while i > 0
        invariant
            i <= es@.len(),
            lookup(es@, r) == lookup(es@.take(i as int), r),
        decreases i,
    {
        assert(es@.take(i as int).drop_last() =~= es@.take(i - 1));
        if es[i - 1].reference == r {
            return Some(es[i - 1]);
        }
        i = i - 1;
    }
    None
}

/// Checking a reference, once: whether the index has it, in use, at an
/// offset inside the file.
pub open spec fn ref_finding(doc: LazyPdfDocument, r: ObjectRef, rule: Seq<char>, label: Seq<char>, st: FastV) -> FastV {
    if st.checked.contains(r) {
        st
    } else {
        let st2 = FastV { findings: st.findings, checked: st.checked.push(r), streams: st.streams, limit_reported: st.limit_reported };
        match lookup(doc.xref.entries@, r) {
            None => add_finding(st2, (rule, Severity::Error, label + " "@ + r.spec_text() + " is not present in the lazy xref table"@,
                Some(r), None, None, "Check whether "@ + r.spec_text() + " is missing, in an object stream, or omitted from the classic xref table"@)),
            Some(e) => if !e.in_use {
                add_finding(st2, ("lazy.reference_free_xref_entry"@, Severity::Error, label + " "@ + r.spec_text() + " points to a free xref entry"@,
                    Some(r), None, Some(e.offset), "Verify the xref entry and regenerate the referenced object"@))
            } else if e.offset >= doc.metadata.file_size {
                add_finding(st2, ("xref.invalid_offset"@, Severity::Error, "Xref entry for "@ + r.spec_text() + " points outside the file at byte "@
                    + decimal(e.offset as nat), Some(r), None, Some(e.offset), "Compare the xref table against the raw file length and object header"@))
            } else {
                st2
            },
        }
    }
}

fn check_reference(doc: &LazyPdfDocument, r: ObjectRef, rule: &str, label: &str, st: &mut FastState)
    ensures
        fast_view(*final(st)) == ref_finding(*doc, r, rule@, label@, fast_view(*old(st))),
{
    if contains_ref(&st.checked, r) {
        return;
    }
    st.checked.push(r);
    match lookup_entry(&doc.xref.entries, r) {
        None => {
            let mut m = owned(label);
            push_str(&mut m, " ");
            let t = r.to_text();
            push_str(&mut m, t.as_str());
            push_str(&mut m, " is not present in the lazy xref table");
            let next = ref_text("Check whether ", r, " is missing, in an object stream, or omitted from the classic xref table");
            let f = Finding { rule_id: owned(rule), severity: Severity::Error, message: m, object: Some(r), page: None,
                byte_offset: None, suggested_next_step: next };
            add_once(&mut st.findings, f);
        },
        Some(e) => {
            if !e.in_use {
                let mut m = owned(label);
                push_str(&mut m, " ");
                let t = r.to_text();
                push_str(&mut m, t.as_str());
                push_str(&mut m, " points to a free xref entry");
                let f = make_finding("lazy.reference_free_xref_entry", Severity::Error, m, Some(r), None, Some(e.offset),
                    "Verify the xref entry and regenerate the referenced object");
                add_once(&mut st.findings, f);
            } else if e.offset >= doc.metadata.file_size {
                let mut m = ref_text("Xref entry for ", r, " points outside the file at byte ");
                push_decimal(&mut m, e.offset);
                let f = make_finding("xref.invalid_offset", Severity::Error, m, Some(r), None, Some(e.offset),
                    "Compare the xref table against the raw file length and object header");
                add_once(&mut st.findings, f);
            }
        },
    }
}

// ---------------------------------------------------------------------------
// The document
// ---------------------------------------------------------------------------

pub open spec fn when(c: bool, st: FastV, f: FindingV) -> FastV {
    if c { add_finding(st, f) } else { st }
}

/// The document checks: trailer, `startxref`, catalog, and the features
/// worth knowing about.
pub open spec fn document_findings(doc: LazyPdfDocument, st: FastV) -> FastV {
    let m = doc.metadata;
    let sx = doc.xref.startxref;
    let s1 = when(doc.trailer is None, st, ("lazy.trailer_missing"@, Severity::Error, "Lazy open did not find a trailer dictionary"@,
        None, None, sx, "Verify startxref and the classic xref trailer section"@));
    let s2 = when(sx is None, s1, ("lazy.startxref_missing"@, Severity::Error, "No startxref offset was found in the file tail"@,
        None, None, None, "Verify the PDF tail and %%EOF/startxref section"@));
    let s3 = match m.root {
        None => add_finding(s2, ("lazy.root_missing"@, Severity::Error, "The trailer does not contain a /Root catalog reference"@,
            None, None, sx, "Inspect the trailer dictionary and root catalog reference"@)),
        Some(r) => ref_finding(doc, r, "lazy.root_missing_from_xref"@, "Root catalog reference"@, s2),
    };
    let s4 = when(m.encrypted, s3, ("document.encryption_detected"@, Severity::Warning,
        "The trailer contains /Encrypt; encrypted content may not be inspectable without credentials"@, None, None, None,
        "Reproduce with an unencrypted fixture when possible, or provide credentials to downstream tools"@));
    let s5 = when(m.incremental_update_count > 0, s4, ("document.incremental_updates_detected"@, Severity::Info,
        "Detected "@ + decimal(m.incremental_update_count as nat) + " incremental update section(s)"@, None, None, None,
        "Check whether the issue reproduces before and after the incremental update section"@));
    let s6 = when(m.has_xref_stream, s5, ("document.xref_stream_detected"@, Severity::Info,
        "Xref stream detected; lazy fast diagnostics use bounded xref stream metadata when available"@, None, None, sx,
        "Inspect referenced objects through the lazy Object Inspector to validate xref stream entries"@));
    when(m.has_object_stream, s6, ("document.object_stream_detected"@, Severity::Info,
        "Object stream detected; lazy object inspection can expand selected compressed members on demand"@, None, None, None,
        "Open a referenced object to inspect the selected object-stream member within lazy limits"@))
}

fn add_when(c: bool, st: &mut FastState, f: Finding)
    ensures
        fast_view(*final(st)) == when(c, fast_view(*old(st)), f@),
{
    if c {
        add_once(&mut st.findings, f);
    }
}

#[verifier::rlimit(40)]
fn add_document_findings(doc: &LazyPdfDocument, st: &mut FastState)
    ensures
        fast_view(*final(st)) == document_findings(*doc, fast_view(*old(st))),
{
    let m = &doc.metadata;
    let sx = doc.xref.startxref;
    add_when(doc.trailer.is_none(), st, make_finding("lazy.trailer_missing", Severity::Error,
        owned("Lazy open did not find a trailer dictionary"), None, None, sx, "Verify startxref and the classic xref trailer section"));
    add_when(sx.is_none(), st, make_finding("lazy.startxref_missing", Severity::Error,
        owned("No startxref offset was found in the file tail"), None, None, None, "Verify the PDF tail and %%EOF/startxref section"));
    match m.root {
        None => {
            let f = make_finding("lazy.root_missing", Severity::Error, owned("The trailer does not contain a /Root catalog reference"),
                None, None, sx, "Inspect the trailer dictionary and root catalog reference");
            add_once(&mut st.findings, f);
        },
        Some(r) => check_reference(doc, r, "lazy.root_missing_from_xref", "Root catalog reference", st),
    }
    add_when(m.encrypted, st, make_finding("document.encryption_detected", Severity::Warning,
        owned("The trailer contains /Encrypt; encrypted content may not be inspectable without credentials"), None, None, None,
        "Reproduce with an unencrypted fixture when possible, or provide credentials to downstream tools"));
    let mut detected = owned("Detected ");
    push_decimal(&mut detected, m.incremental_update_count);
    push_str(&mut detected, " incremental update section(s)");
    add_when(m.incremental_update_count > 0, st, make_finding("document.incremental_updates_detected", Severity::Info,
        detected, None, None, None, "Check whether the issue reproduces before and after the incremental update section"));
    add_when(m.has_xref_stream, st, make_finding("document.xref_stream_detected", Severity::Info,
        owned("Xref stream detected; lazy fast diagnostics use bounded xref stream metadata when available"), None, None, sx,
        "Inspect referenced objects through the lazy Object Inspector to validate xref stream entries"));
    add_when(m.has_object_stream, st, make_finding("document.object_stream_detected", Severity::Info,
        owned("Object stream detected; lazy object inspection can expand selected compressed members on demand"), None, None, None,
        "Open a referenced object to inspect the selected object-stream member within lazy limits"));
}

// ---------------------------------------------------------------------------
// Stream dictionaries
// ---------------------------------------------------------------------------

/// The offset the index gives `r`, if it has an entry for it.
pub open spec fn xref_offset(doc: LazyPdfDocument, r: ObjectRef) -> Option<usize> {
    match lookup(doc.xref.entries@, r) {
        Some(e) => Some(e.offset),
        None => None,
    }
}

/// The filters whose data the library can decode.
pub open spec fn supported_filter(f: Seq<char>) -> bool {
    ||| f == "FlateDecode"@
    ||| f == "Fl"@
    ||| f == "ASCIIHexDecode"@
    ||| f == "AHx"@
    ||| f == "ASCII85Decode"@
    ||| f == "A85"@
    ||| f == "RunLengthDecode"@
    ||| f == "RL"@
    ||| f == "DCTDecode"@
    ||| f == "DCT"@
}

fn is_supported_filter(f: &str) -> (b: bool)
    ensures
        b == supported_filter(f@),
{
    str_eq(f, "FlateDecode") || str_eq(f, "Fl") || str_eq(f, "ASCIIHexDecode") || str_eq(f, "AHx")
        || str_eq(f, "ASCII85Decode") || str_eq(f, "A85") || str_eq(f, "RunLengthDecode") || str_eq(f, "RL")
        || str_eq(f, "DCTDecode") || str_eq(f, "DCT")
}

/// What is wrong with a stream's length against the file size, if anything.
pub open spec fn length_problem(doc: LazyPdfDocument, r: ObjectRef, s: StreamV) -> Option<Seq<char>> {
    match s.1 {
        None => Some("Stream "@ + r.spec_text() + " has no numeric /Length; marker-based lazy validation is deferred"@),
        Some(n) => if s.4.start + n > usize::MAX {
            Some("Stream "@ + r.spec_text() + " /Length overflows byte range"@)
        } else if s.4.start + n > doc.metadata.file_size {
            Some("Stream "@ + r.spec_text() + " byte range "@ + decimal(s.4.start as nat) + ".."@ + decimal((s.4.start + n) as nat)
                + " exceeds file size "@ + decimal(doc.metadata.file_size as nat))
        } else {
            None
        },
    }
}

fn check_length(doc: &LazyPdfDocument, r: ObjectRef, s: &PdfStream) -> (m: Option<String>)
    ensures
        opt_string_view(m) == length_problem(*doc, r, s@),
{
    let n = match s.declared_length {
        None => {
            return Some(ref_text("Stream ", r, " has no numeric /Length; marker-based lazy validation is deferred"));
        },
        Some(n) => n,
    };
    let start = s.raw_range.start;
    if n > usize::MAX - start {
        return Some(ref_text("Stream ", r, " /Length overflows byte range"));
    }
    let end = start + n;
    if end > doc.metadata.file_size {
        let mut m = ref_text("Stream ", r, " byte range ");
        push_decimal(&mut m, start);
        push_str(&mut m, "..");
        push_decimal(&mut m, end);
        push_str(&mut m, " exceeds file size ");
        push_decimal(&mut m, doc.metadata.file_size);
        return Some(m);
    }
    None
}

pub open spec fn opt_string_view(m: Option<String>) -> Option<Seq<char>> {
    match m {
        Some(s) => Some(s@),
        None => None,
    }
}

pub open spec fn filter_finding(r: ObjectRef, page: Option<u32>, start: usize, f: Seq<char>) -> FindingV {
    ("stream.unsupported_filter"@, Severity::Warning, "Stream "@ + r.spec_text() + " uses unsupported or deferred filter /"@ + f
        + "; lazy fast diagnostics did not decode the stream bytes"@, Some(r), page, Some(start),
        "Use raw export or add support for this filter before deep stream validation"@)
}

/// A finding for each filter the library cannot decode, in order.
pub open spec fn filters_findings(r: ObjectRef, page: Option<u32>, start: usize, fs: Seq<Seq<char>>, st: FastV) -> FastV
    decreases fs.len(),
{
    if fs.len() == 0 {
        st
    } else {
        let st1 = filters_findings(r, page, start, fs.drop_last(), st);
        if supported_filter(fs.last()) { st1 } else { add_finding(st1, filter_finding(r, page, start, fs.last())) }
    }
}

/// The checks of one stream dictionary, read without decoding its data.
pub open spec fn stream_findings(doc: LazyPdfDocument, file: Seq<u8>, r: ObjectRef, page: Option<u32>, st: FastV) -> FastV {
    match lazy_stream_metadata(file, doc.xref.entries@, r) {
        Err(e) => add_finding(st, ("lazy.stream.metadata_unavailable"@, Severity::Warning,
            "Could not read stream metadata for "@ + r.spec_text() + ": "@ + error_message(e), Some(r), page, xref_offset(doc, r),
            "Inspect the object by xref offset and verify its stream dictionary"@)),
        Ok(s) => {
            let st1 = match length_problem(doc, r, s) {
                Some(m) => add_finding(st, ("lazy.stream.invalid_length"@, Severity::Warning, m, Some(r), page, Some(s.4.start),
                    "Inspect the stream dictionary /Length and compare it with the xref byte range"@)),
                None => st,
            };
            filters_findings(r, page, s.4.start, s.3, st1)
        },
    }
}

fn add_filter_findings(r: ObjectRef, page: Option<u32>, start: usize, filters: &Vec<String>, st: &mut FastState)
    ensures
        fast_view(*final(st)) == filters_findings(r, page, start, string_views(filters@), fast_view(*old(st))),
{
    let ghost fs = string_views(filters@);
    let ghost st0 = fast_view(*st);
    let mut i: usize = 0;
    assert(fs.take(0) =~= Seq::<Seq<char>>::empty());
    while i < filters.len()
        invariant
            i <= filters@.len(),
            fs == string_views(filters@),
            fs.len() == filters@.len(),
            fast_view(*st) == filters_findings(r, page, start, fs.take(i as int), st0),
        decreases filters@.len() - i,
    {
        assert(fs.take(i + 1).drop_last() =~= fs.take(i as int));
        assert(fs[i as int] == filters@[i as int]@);
        let f = filters[i].as_str();
        if !is_supported_filter(f) {
            let mut m = ref_text("Stream ", r, " uses unsupported or deferred filter /");
            push_str(&mut m, f);
            push_str(&mut m, "; lazy fast diagnostics did not decode the stream bytes");
            let fd = make_finding("stream.unsupported_filter", Severity::Warning, m, Some(r), page, Some(start),
                "Use raw export or add support for this filter before deep stream validation");
            add_once(&mut st.findings, fd);
        }
        i = i + 1;
    }
    assert(fs.take(filters@.len() as int) =~= fs);
}

fn add_stream_findings(doc: &LazyPdfDocument, file: &[u8], r: ObjectRef, page: Option<u32>, st: &mut FastState)
    ensures
        fast_view(*final(st)) == stream_findings(*doc, file@, r, page, fast_view(*old(st))),
{
    let s = match read_lazy_stream_metadata(file, doc.xref.entries.as_slice(), r) {
        Ok(s) => s,
        Err(e) => {
            let mut m = ref_text("Could not read stream metadata for ", r, ": ");
            let t = e.message();
            push_str(&mut m, t.as_str());
            let offset = match lookup_entry(&doc.xref.entries, r) {
                Some(en) => Some(en.offset),
                None => None,
            };
            let f = make_finding("lazy.stream.metadata_unavailable", Severity::Warning, m, Some(r), page, offset,
                "Inspect the object by xref offset and verify its stream dictionary");
            add_once(&mut st.findings, f);
            return;
        },
    };
    match check_length(doc, r, &s) {
        Some(m) => {
            let f = make_finding("lazy.stream.invalid_length", Severity::Warning, m, Some(r), page, Some(s.raw_range.start),
                "Inspect the stream dictionary /Length and compare it with the xref byte range");
            add_once(&mut st.findings, f);
        },
        None => {},
    }
    add_filter_findings(r, page, s.raw_range.start, &s.filters, st);
}

// ---------------------------------------------------------------------------
// Pages and their links
// ---------------------------------------------------------------------------

/// The word that names a link's kind in a finding.
pub open spec fn link_label(k: PageObjectLinkKind) -> Seq<char> {
    match k {
        PageObjectLinkKind::Page => "page"@,
        PageObjectLinkKind::Parent => "parent"@,
        PageObjectLinkKind::Resources => "resources"@,
        PageObjectLinkKind::Contents => "contents"@,
        PageObjectLinkKind::Font => "font"@,
        PageObjectLinkKind::XObject => "xobject"@,
        PageObjectLinkKind::Image => "image"@,
        PageObjectLinkKind::Annotation => "annotation"@,
    }
}

fn page_link_label(k: PageObjectLinkKind) -> (s: &'static str)
    ensures
        s@ == link_label(k),
{
    match k {
        PageObjectLinkKind::Page => "page",
        PageObjectLinkKind::Parent => "parent",
        PageObjectLinkKind::Resources => "resources",
        PageObjectLinkKind::Contents => "contents",
        PageObjectLinkKind::Font => "font",
        PageObjectLinkKind::XObject => "xobject",
        PageObjectLinkKind::Image => "image",
        PageObjectLinkKind::Annotation => "annotation",
    }
}

/// The kinds of link whose target is a stream.
pub open spec fn stream_kind(k: PageObjectLinkKind) -> bool {
    k is Contents || k is XObject || k is Image
}

pub open spec fn limit_finding(page: u32) -> FindingV {
    ("lazy.fast_stream_metadata_limit"@, Severity::Info, "Lazy fast diagnostics checked the first "@
        + decimal(LAZY_FAST_STREAM_METADATA_LIMIT as nat)
        + " unique stream dictionaries and deferred additional stream metadata checks"@, None, Some(page), None,
        "Open a specific stream or run selected deep diagnostics for additional stream checks"@)
}

/// One link of page `n`: its target against the index and, for a stream
/// not seen before, its dictionary while fewer than the limit were read.
/// Past the limit the first stream over it is reported once.
pub open spec fn link_findings(doc: LazyPdfDocument, file: Seq<u8>, n: u32, l: LinkV, st: FastV) -> FastV {
    let st1 = ref_finding(doc, l.2, "lazy.page_link_missing_from_xref"@,
        "Page "@ + decimal(n as nat) + " "@ + link_label(l.1) + " link"@, st);
    if !stream_kind(l.1) || st1.streams.contains(l.2) {
        st1
    } else {
        let st2 = FastV { findings: st1.findings, checked: st1.checked, streams: st1.streams.push(l.2), limit_reported: st1.limit_reported };
        if st2.streams.len() > LAZY_FAST_STREAM_METADATA_LIMIT {
            if st2.limit_reported {
                st2
            } else {
                add_finding(FastV { findings: st2.findings, checked: st2.checked, streams: st2.streams, limit_reported: true },
                    limit_finding(n))
            }
        } else {
            stream_findings(doc, file, l.2, Some(n), st2)
        }
    }
}

pub open spec fn links_findings(doc: LazyPdfDocument, file: Seq<u8>, n: u32, ls: Seq<LinkV>, st: FastV) -> FastV
    decreases ls.len(),
{
    if ls.len() == 0 {
        st
    } else {
        link_findings(doc, file, n, ls.last(), links_findings(doc, file, n, ls.drop_last(), st))
    }
}

pub open spec fn mediabox_finding(p: PageSummaryV) -> FindingV {
    ("page.missing_mediabox"@, Severity::Warning, "Page "@ + decimal(p.page_number as nat) + " ("@ + p.reference.spec_text()
        + ") has no /MediaBox and does not inherit one"@, Some(p.reference), Some(p.page_number), None,
        "Add /MediaBox to the page or an ancestor /Pages node"@)
}

/// One page: a missing media box, its reference against the index, then
/// its links in order.
pub open spec fn page_findings(doc: LazyPdfDocument, file: Seq<u8>, p: PageSummaryV, st: FastV) -> FastV {
    let st1 = if p.boxes[0] is None { add_finding(st, mediabox_finding(p)) } else { st };
    let st2 = ref_finding(doc, p.reference, "lazy.page_missing_from_xref"@, "Page reference"@, st1);
    links_findings(doc, file, p.page_number, p.links, st2)
}

pub open spec fn pages_findings(doc: LazyPdfDocument, file: Seq<u8>, ps: Seq<PageSummaryV>, st: FastV) -> FastV
    decreases ps.len(),
{
    if ps.len() == 0 {
        st
    } else {
        page_findings(doc, file, ps.last(), pages_findings(doc, file, ps.drop_last(), st))
    }
}

#[verifier::rlimit(40)]
fn add_link_findings(doc: &LazyPdfDocument, file: &[u8], n: u32, l: &PageObjectLink, st: &mut FastState)
    ensures
        fast_view(*final(st)) == link_findings(*doc, file@, n, l@, fast_view(*old(st))),
{
    let mut label = owned("Page ");
    push_decimal(&mut label, n as usize);
    push_str(&mut label, " ");
    push_str(&mut label, page_link_label(l.kind));
    push_str(&mut label, " link");
    check_reference(doc, l.reference, "lazy.page_link_missing_from_xref", label.as_str(), st);
    let is_stream = match l.kind {
        PageObjectLinkKind::Contents | PageObjectLinkKind::XObject | PageObjectLinkKind::Image => true,
        _ => false,
    };
    if !is_stream || contains_ref(&st.streams, l.reference) {
        return;
    }
    st.streams.push(l.reference);
    if st.streams.len() > LAZY_FAST_STREAM_METADATA_LIMIT {
        if !st.limit_reported {
            st.limit_reported = true;
            let mut m = owned("Lazy fast diagnostics checked the first ");
            push_decimal(&mut m, LAZY_FAST_STREAM_METADATA_LIMIT);
            push_str(&mut m, " unique stream dictionaries and deferred additional stream metadata checks");
            let f = make_finding("lazy.fast_stream_metadata_limit", Severity::Info, m, None, Some(n), None,
                "Open a specific stream or run selected deep diagnostics for additional stream checks");
            add_once(&mut st.findings, f);
        }
        return;
    }
    add_stream_findings(doc, file, l.reference, Some(n), st);
}

fn add_page_findings(doc: &LazyPdfDocument, file: &[u8], p: &PageSummary, st: &mut FastState)
    ensures
        fast_view(*final(st)) == page_findings(*doc, file@, p@, fast_view(*old(st))),
{
    if p.media_box.is_none() {
        let mut m = owned("Page ");
        push_decimal(&mut m, p.page_number as usize);
        push_str(&mut m, " (");
        let t = p.reference.to_text();
        push_str(&mut m, t.as_str());
        push_str(&mut m, ") has no /MediaBox and does not inherit one");
        let f = make_finding("page.missing_mediabox", Severity::Warning, m, Some(p.reference), Some(p.page_number), None,
            "Add /MediaBox to the page or an ancestor /Pages node");
        add_once(&mut st.findings, f);
    }
    check_reference(doc, p.reference, "lazy.page_missing_from_xref", "Page reference", st);
    let ghost ls = p@.links;
    let ghost st0 = fast_view(*st);
    let mut i: usize = 0;
    assert(ls.take(0) =~= Seq::<LinkV>::empty());
    while i < p.links.len()
        invariant
            i <= p.links@.len(),
            ls == link_views(p.links@),
            ls.len() == p.links@.len(),
            fast_view(*st) == links_findings(*doc, file@, p.page_number, ls.take(i as int), st0),
        decreases p.links@.len() - i,
    {
        assert(ls.take(i + 1).drop_last() =~= ls.take(i as int));
        assert(ls[i as int] == p.links@[i as int]@);
        add_link_findings(doc, file, p.page_number, &p.links[i], st);
        i = i + 1;
    }
    assert(ls.take(p.links@.len() as int) =~= ls);
}

fn add_pages_findings(doc: &LazyPdfDocument, file: &[u8], index: &PageIndex, st: &mut FastState)
    ensures
        fast_view(*final(st)) == pages_findings(*doc, file@, page_views(index.pages@), fast_view(*old(st))),
{
    let ghost ps = page_views(index.pages@);
    let ghost st0 = fast_view(*st);
    let mut i: usize = 0;
    assert(ps.take(0) =~= Seq::<PageSummaryV>::empty());
    while i < index.pages.len()
        invariant
            i <= index.pages@.len(),
            ps == page_views(index.pages@),
            ps.len() == index.pages@.len(),
            fast_view(*st) == pages_findings(*doc, file@, ps.take(i as int), st0),
        decreases index.pages@.len() - i,
    {
        assert(ps.take(i + 1).drop_last() =~= ps.take(i as int));
        assert(ps[i as int] == index.pages@[i as int]@);
        add_page_findings(doc, file, &index.pages[i], st);
        i = i + 1;
    }
    assert(ps.take(index.pages@.len() as int) =~= ps);
}

// ---------------------------------------------------------------------------
// The whole run
// ---------------------------------------------------------------------------

pub open spec fn deferred_finding(doc: LazyPdfDocument) -> FindingV {
    ("lazy.deep_diagnostics_deferred"@, Severity::Info,
        "Large PDF opened in lazy mode. Fast diagnostics are ready; stream decode validation, content stream analysis, page object extraction, image/font deep validation, and full report generation are deferred."@,
        doc.metadata.root, None, doc.xref.startxref,
        "Inspect individual objects/streams on demand, or run full diagnostics on a smaller repro PDF."@)
}

pub open spec fn empty_state() -> FastV {
    FastV { findings: seq![], checked: seq![], streams: seq![], limit_reported: false }
}

/// The findings of the fast diagnostics, in order: the open warnings, the
/// document checks, the pages, and last the note that deep checks were
/// deferred.
pub open spec fn fast_findings(doc: LazyPdfDocument, file: Seq<u8>, pages: Seq<PageSummaryV>) -> Seq<FindingV> {
    let st1 = FastV { findings: warnings_findings(lazy_warning_views(doc.warnings@), seq![]), checked: seq![], streams: seq![],
        limit_reported: false };
    let st2 = document_findings(doc, st1);
    let st3 = pages_findings(doc, file, pages, st2);
    push_once(st3.findings, deferred_finding(doc))
}

/// The fast diagnostics of a document whose page index is already built;
/// `file` is the document's bytes.
pub fn run_lazy_fast_diagnostics_with_page_index(document: &LazyPdfDocument, file: &[u8], page_index: &PageIndex) -> (r: Vec<Finding>)
    ensures
        finding_views(r@) == fast_findings(*document, file@, page_views(page_index.pages@)),
{
    let mut st = FastState { findings: Vec::new(), checked: Vec::new(), streams: Vec::new(), limit_reported: false };
    assert(finding_views(st.findings@) =~= Seq::<FindingV>::empty());
    add_lazy_warnings(&document.warnings, &mut st.findings);
    add_document_findings(document, &mut st);
    add_pages_findings(document, file, page_index, &mut st);
    let f = make_finding("lazy.deep_diagnostics_deferred", Severity::Info,
        owned("Large PDF opened in lazy mode. Fast diagnostics are ready; stream decode validation, content stream analysis, page object extraction, image/font deep validation, and full report generation are deferred."),
        document.metadata.root, None, document.xref.startxref,
        "Inspect individual objects/streams on demand, or run full diagnostics on a smaller repro PDF.");
    add_once(&mut st.findings, f);
    st.findings
}

/// Builds the page index of the document, which adds its warnings to the
/// document, then runs the fast diagnostics with it.
pub fn run_lazy_fast_diagnostics(document: &mut LazyPdfDocument, file: &[u8]) -> (r: Vec<Finding>)
    ensures
        ({
            let (pages, ws) = lazy_page_walk(file@, old(document).xref.entries@, old(document).metadata.root, true, None,
                lazy_warning_views(old(document).warnings@));
            &&& lazy_warning_views(final(document).warnings@) == ws
            &&& finding_views(r@) == fast_findings(*final(document), file@, pages)
        }),
        final(document).metadata.parse_warning_count == final(document).warnings@.len(),
        lazy_document_kept(*old(document), *final(document)),
{
    let index = build_lazy_page_index(document, file);
    run_lazy_fast_diagnostics_with_page_index(document, file, &index)
}

/// The fast diagnostics with their counts by severity.
pub fn build_lazy_diagnostics_report(document: &mut LazyPdfDocument, file: &[u8]) -> (r: LazyDiagnosticsReport)
    ensures
        ({
            let (pages, ws) = lazy_page_walk(file@, old(document).xref.entries@, old(document).metadata.root, true, None,
                lazy_warning_views(old(document).warnings@));
            &&& lazy_warning_views(final(document).warnings@) == ws
            &&& finding_views(r.findings@) == fast_findings(*final(document), file@, pages)
        }),
        r.diagnostics.errors == count_severity(r.findings@, Severity::Error),
        r.diagnostics.warnings == count_severity(r.findings@, Severity::Warning),
        r.diagnostics.info == count_severity(r.findings@, Severity::Info),
        final(document).metadata.parse_warning_count == final(document).warnings@.len(),
        lazy_document_kept(*old(document), *final(document)),
{
    let findings = run_lazy_fast_diagnostics(document, file);
    let diagnostics = DiagnosticSummary::from_findings(findings.as_slice());
    LazyDiagnosticsReport { diagnostics, findings }
}

// ---------------------------------------------------------------------------
// Each finding once
// ---------------------------------------------------------------------------

/// No two findings are the same finding.
pub open spec fn distinct_keys(s: Seq<FindingV>) -> bool {
    forall|i: int, j: int| 0 <= i < j < s.len() ==> finding_key(#[trigger] s[i]) != finding_key(#[trigger] s[j])
}

/// `b` starts with the findings of `a`.
pub open spec fn extends(a: Seq<FindingV>, b: Seq<FindingV>) -> bool {
    a.len() <= b.len() && forall|i: int| 0 <= i < a.len() ==> #[trigger] b[i] == a[i]
}

/// A step of the checks keeps the findings so far and adds none twice.
pub open spec fn step_ok(a: FastV, b: FastV) -> bool {
    &&& distinct_keys(a.findings) ==> distinct_keys(b.findings)
    &&& extends(a.findings, b.findings)
}

proof fn lemma_step_trans(a: FastV, b: FastV, c: FastV)
    requires
        step_ok(a, b),
        step_ok(b, c),
    ensures
        step_ok(a, c),
{
}

proof fn lemma_has_key_extends(a: Seq<FindingV>, b: Seq<FindingV>, f: FindingV)
    requires
        has_key(a, f),
        extends(a, b),
    ensures
        has_key(b, f),
{
    let i = choose|i: int| 0 <= i < a.len() && finding_key(#[trigger] a[i]) == finding_key(f);
    assert(b[i] == a[i]);
}

proof fn lemma_push_once(s: Seq<FindingV>, f: FindingV)
    ensures
        distinct_keys(s) ==> distinct_keys(push_once(s, f)),
        extends(s, push_once(s, f)),
        has_key(push_once(s, f), f),
{
    if !has_key(s, f) {
        let t = s.push(f);
        assert(t[s.len() as int] == f);
        assert forall|i: int, j: int| distinct_keys(s) && 0 <= i < j < t.len() implies finding_key(#[trigger] t[i])
            != finding_key(#[trigger] t[j]) by {
            if j == s.len() {
                assert(t[i] == s[i]);
            } else {
                assert(t[i] == s[i] && t[j] == s[j]);
            }
        }
    }
}

proof fn lemma_add(st: FastV, f: FindingV)
    ensures
        step_ok(st, add_finding(st, f)),
        has_key(add_finding(st, f).findings, f),
{
    lemma_push_once(st.findings, f);
}

proof fn lemma_when(c: bool, st: FastV, f: FindingV)
    ensures
        step_ok(st, when(c, st, f)),
{
    lemma_add(st, f);
}

proof fn lemma_ref(doc: LazyPdfDocument, r: ObjectRef, rule: Seq<char>, label: Seq<char>, st: FastV)
    ensures
        step_ok(st, ref_finding(doc, r, rule, label, st)),
{
    if !st.checked.contains(r) {
        let st2 = FastV { findings: st.findings, checked: st.checked.push(r), streams: st.streams, limit_reported: st.limit_reported };
        match lookup(doc.xref.entries@, r) {
            None => lemma_add(st2, (rule, Severity::Error, label + " "@ + r.spec_text() + " is not present in the lazy xref table"@,
                Some(r), None, None, "Check whether "@ + r.spec_text() + " is missing, in an object stream, or omitted from the classic xref table"@)),
            Some(e) => {
                lemma_add(st2, ("lazy.reference_free_xref_entry"@, Severity::Error, label + " "@ + r.spec_text() + " points to a free xref entry"@,
                    Some(r), None, Some(e.offset), "Verify the xref entry and regenerate the referenced object"@));
                lemma_add(st2, ("xref.invalid_offset"@, Severity::Error, "Xref entry for "@ + r.spec_text() + " points outside the file at byte "@
                    + decimal(e.offset as nat), Some(r), None, Some(e.offset), "Compare the xref table against the raw file length and object header"@));
            },
        }
    }
}

proof fn lemma_warnings(ws: Seq<LazyWarningV>, s: Seq<FindingV>)
    ensures
        distinct_keys(s) ==> distinct_keys(warnings_findings(ws, s)),
        extends(s, warnings_findings(ws, s)),
        forall|k: int| 0 <= k < ws.len() ==> has_key(warnings_findings(ws, s), warning_finding(#[trigger] ws[k])),
    decreases ws.len(),
{
    if ws.len() > 0 {
        let prev = warnings_findings(ws.drop_last(), s);
        lemma_warnings(ws.drop_last(), s);
        lemma_push_once(prev, warning_finding(ws.last()));
        let cur = warnings_findings(ws, s);
        assert forall|k: int| 0 <= k < ws.len() implies has_key(cur, warning_finding(#[trigger] ws[k])) by {
            if k < ws.len() - 1 {
                assert(ws.drop_last()[k] == ws[k]);
                lemma_has_key_extends(prev, cur, warning_finding(ws[k]));
            }
        }
    }
}

proof fn lemma_document(doc: LazyPdfDocument, st: FastV)
    ensures
        step_ok(st, document_findings(doc, st)),
{
    let m = doc.metadata;
    let sx = doc.xref.startxref;
    let f1 = ("lazy.trailer_missing"@, Severity::Error, "Lazy open did not find a trailer dictionary"@,
        None, None, sx, "Verify startxref and the classic xref trailer section"@);
    let s1 = when(doc.trailer is None, st, f1);
    lemma_when(doc.trailer is None, st, f1);
    let f2 = ("lazy.startxref_missing"@, Severity::Error, "No startxref offset was found in the file tail"@,
        None, None, None, "Verify the PDF tail and %%EOF/startxref section"@);
    let s2 = when(sx is None, s1, f2);
    lemma_when(sx is None, s1, f2);
    lemma_step_trans(st, s1, s2);
    let s3 = match m.root {
        None => add_finding(s2, ("lazy.root_missing"@, Severity::Error, "The trailer does not contain a /Root catalog reference"@,
            None, None, sx, "Inspect the trailer dictionary and root catalog reference"@)),
        Some(r) => ref_finding(doc, r, "lazy.root_missing_from_xref"@, "Root catalog reference"@, s2),
    };
    match m.root {
        None => lemma_add(s2, ("lazy.root_missing"@, Severity::Error, "The trailer does not contain a /Root catalog reference"@,
            None, None, sx, "Inspect the trailer dictionary and root catalog reference"@)),
        Some(r) => lemma_ref(doc, r, "lazy.root_missing_from_xref"@, "Root catalog reference"@, s2),
    }
    lemma_step_trans(st, s2, s3);
    let f4 = ("document.encryption_detected"@, Severity::Warning,
        "The trailer contains /Encrypt; encrypted content may not be inspectable without credentials"@, None, None, None,
        "Reproduce with an unencrypted fixture when possible, or provide credentials to downstream tools"@);
    let s4 = when(m.encrypted, s3, f4);
    lemma_when(m.encrypted, s3, f4);
    lemma_step_trans(st, s3, s4);
    let f5 = ("document.incremental_updates_detected"@, Severity::Info,
        "Detected "@ + decimal(m.incremental_update_count as nat) + " incremental update section(s)"@, None, None, None,
        "Check whether the issue reproduces before and after the incremental update section"@);
    let s5 = when(m.incremental_update_count > 0, s4, f5);
    lemma_when(m.incremental_update_count > 0, s4, f5);
    lemma_step_trans(st, s4, s5);
    let f6 = ("document.xref_stream_detected"@, Severity::Info,
        "Xref stream detected; lazy fast diagnostics use bounded xref stream metadata when available"@, None, None, sx,
        "Inspect referenced objects through the lazy Object Inspector to validate xref stream entries"@);
    let s6 = when(m.has_xref_stream, s5, f6);
    lemma_when(m.has_xref_stream, s5, f6);
    lemma_step_trans(st, s5, s6);
    let f7 = ("document.object_stream_detected"@, Severity::Info,
        "Object stream detected; lazy object inspection can expand selected compressed members on demand"@, None, None, None,
        "Open a referenced object to inspect the selected object-stream member within lazy limits"@);
    lemma_when(m.has_object_stream, s6, f7);
    lemma_step_trans(st, s6, when(m.has_object_stream, s6, f7));
}

proof fn lemma_filters(r: ObjectRef, page: Option<u32>, start: usize, fs: Seq<Seq<char>>, st: FastV)
    ensures
        step_ok(st, filters_findings(r, page, start, fs, st)),
    decreases fs.len(),
{
    if fs.len() > 0 {
        let st1 = filters_findings(r, page, start, fs.drop_last(), st);
        lemma_filters(r, page, start, fs.drop_last(), st);
        lemma_add(st1, filter_finding(r, page, start, fs.last()));
        lemma_step_trans(st, st1, filters_findings(r, page, start, fs, st));
    }
}

proof fn lemma_stream(doc: LazyPdfDocument, file: Seq<u8>, r: ObjectRef, page: Option<u32>, st: FastV)
    ensures
        step_ok(st, stream_findings(doc, file, r, page, st)),
{
    match lazy_stream_metadata(file, doc.xref.entries@, r) {
        Err(e) => lemma_add(st, ("lazy.stream.metadata_unavailable"@, Severity::Warning,
            "Could not read stream metadata for "@ + r.spec_text() + ": "@ + error_message(e), Some(r), page, xref_offset(doc, r),
            "Inspect the object by xref offset and verify its stream dictionary"@)),
        Ok(s) => {
            let st1 = match length_problem(doc, r, s) {
                Some(m) => add_finding(st, ("lazy.stream.invalid_length"@, Severity::Warning, m, Some(r), page, Some(s.4.start),
                    "Inspect the stream dictionary /Length and compare it with the xref byte range"@)),
                None => st,
            };
            match length_problem(doc, r, s) {
                Some(m) => lemma_add(st, ("lazy.stream.invalid_length"@, Severity::Warning, m, Some(r), page, Some(s.4.start),
                    "Inspect the stream dictionary /Length and compare it with the xref byte range"@)),
                None => {},
            }
            lemma_filters(r, page, s.4.start, s.3, st1);
            lemma_step_trans(st, st1, filters_findings(r, page, s.4.start, s.3, st1));
        },
    }
}

proof fn lemma_link(doc: LazyPdfDocument, file: Seq<u8>, n: u32, l: LinkV, st: FastV)
    ensures
        step_ok(st, link_findings(doc, file, n, l, st)),
{
    let st1 = ref_finding(doc, l.2, "lazy.page_link_missing_from_xref"@,
        "Page "@ + decimal(n as nat) + " "@ + link_label(l.1) + " link"@, st);
    lemma_ref(doc, l.2, "lazy.page_link_missing_from_xref"@, "Page "@ + decimal(n as nat) + " "@ + link_label(l.1) + " link"@, st);
    if stream_kind(l.1) && !st1.streams.contains(l.2) {
        let st2 = FastV { findings: st1.findings, checked: st1.checked, streams: st1.streams.push(l.2), limit_reported: st1.limit_reported };
        let st3 = FastV { findings: st2.findings, checked: st2.checked, streams: st2.streams, limit_reported: true };
        lemma_add(st3, limit_finding(n));
        lemma_stream(doc, file, l.2, Some(n), st2);
        lemma_step_trans(st, st1, link_findings(doc, file, n, l, st));
    }
}

proof fn lemma_links(doc: LazyPdfDocument, file: Seq<u8>, n: u32, ls: Seq<LinkV>, st: FastV)
    ensures
        step_ok(st, links_findings(doc, file, n, ls, st)),
    decreases ls.len(),
{
    if ls.len() > 0 {
        let st1 = links_findings(doc, file, n, ls.drop_last(), st);
        lemma_links(doc, file, n, ls.drop_last(), st);
        lemma_link(doc, file, n, ls.last(), st1);
        lemma_step_trans(st, st1, links_findings(doc, file, n, ls, st));
    }
}

proof fn lemma_page(doc: LazyPdfDocument, file: Seq<u8>, p: PageSummaryV, st: FastV)
    ensures
        step_ok(st, page_findings(doc, file, p, st)),
{
    let st1 = if p.boxes[0] is None { add_finding(st, mediabox_finding(p)) } else { st };
    lemma_add(st, mediabox_finding(p));
    let st2 = ref_finding(doc, p.reference, "lazy.page_missing_from_xref"@, "Page reference"@, st1);
    lemma_ref(doc, p.reference, "lazy.page_missing_from_xref"@, "Page reference"@, st1);
    lemma_step_trans(st, st1, st2);
    lemma_links(doc, file, p.page_number, p.links, st2);
    lemma_step_trans(st, st2, page_findings(doc, file, p, st));
}

proof fn lemma_pages(doc: LazyPdfDocument, file: Seq<u8>, ps: Seq<PageSummaryV>, st: FastV)
    ensures
        step_ok(st, pages_findings(doc, file, ps, st)),
    decreases ps.len(),
{
    if ps.len() > 0 {
        let st1 = pages_findings(doc, file, ps.drop_last(), st);
        lemma_pages(doc, file, ps.drop_last(), st);
        lemma_page(doc, file, ps.last(), st1);
        lemma_step_trans(st, st1, pages_findings(doc, file, ps, st));
    }
}

/// The fast diagnostics report each finding once (no two share rule,
/// object, page, offset and message), report every warning the document
/// carries, and always end with the note that deep checks were deferred.
pub proof fn lemma_fast_findings_once(doc: LazyPdfDocument, file: Seq<u8>, pages: Seq<PageSummaryV>)
    ensures
        distinct_keys(fast_findings(doc, file, pages)),
        forall|k: int| 0 <= k < doc.warnings@.len() ==> has_key(fast_findings(doc, file, pages),
            warning_finding(#[trigger] lazy_warning_views(doc.warnings@)[k])),
        has_key(fast_findings(doc, file, pages), deferred_finding(doc)),
{
    let ws = lazy_warning_views(doc.warnings@);
    let e: Seq<FindingV> = seq![];
    lemma_warnings(ws, e);
    let st1 = FastV { findings: warnings_findings(ws, e), checked: seq![], streams: seq![], limit_reported: false };
    let st2 = document_findings(doc, st1);
    lemma_document(doc, st1);
    let st3 = pages_findings(doc, file, pages, st2);
    lemma_pages(doc, file, pages, st2);
    lemma_step_trans(st1, st2, st3);
    lemma_push_once(st3.findings, deferred_finding(doc));
    let out = fast_findings(doc, file, pages);
    assert forall|k: int| 0 <= k < doc.warnings@.len() implies has_key(out, warning_finding(#[trigger] ws[k])) by {
        lemma_has_key_extends(st1.findings, st3.findings, warning_finding(ws[k]));
        lemma_has_key_extends(st3.findings, out, warning_finding(ws[k]));
    }
}

// ---------------------------------------------------------------------------
// The lazy report
// ---------------------------------------------------------------------------

/// The kind and open mode a lazy report names.
pub const LAZY_REPORT_KIND: &'static str = "lazy_fast_diagnostics";
pub const LAZY_OPEN_MODE: &'static str = "lazy";

/// The deep checks a lazy report leaves for later.
pub open spec fn deferred_items() -> Seq<Seq<char>> {
    seq!["stream decode validation"@, "content stream operator analysis"@, "precise page object extraction"@,
        "image/font deep validation"@, "page screenshots"@, "full report enrichment"@]
}

/// The findings of all enrichments, in order.
pub open spec fn enrichment_findings(es: Seq<LazyReportEnrichment>) -> Seq<Finding>
    decreases es.len(),
{
    if es.len() == 0 { seq![] } else { enrichment_findings(es.drop_last()) + es.last().findings@ }
}

/// Counting by severity looks at severities alone.
proof fn lemma_count_same_severities(a: Seq<Finding>, b: Seq<Finding>, s: Severity)
    requires
        a.len() == b.len(),
        forall|i: int| 0 <= i < a.len() ==> #[trigger] a[i].severity == b[i].severity,
    ensures
        count_severity(a, s) == count_severity(b, s),
    decreases a.len(),
{
    if a.len() > 0 {
        lemma_count_same_severities(a.drop_last(), b.drop_last(), s);
        assert(a.last().severity == b.last().severity);
    }
}

fn copy_finding(f: &Finding) -> (c: Finding)
    ensures
        c@ == f@,
        c.severity == f.severity,
{
    Finding {
        rule_id: owned(f.rule_id.as_str()),
        severity: f.severity,
        message: owned(f.message.as_str()),
        object: f.object,
        page: f.page,
        byte_offset: f.byte_offset,
        suggested_next_step: owned(f.suggested_next_step.as_str()),
    }
}

/// Appends copies of `src`: the same findings, severity by severity.
fn push_copies(dst: &mut Vec<Finding>, src: &Vec<Finding>, Ghost(model): Ghost<Seq<Finding>>)
    requires
        old(dst)@.len() == model.len(),
        forall|i: int| 0 <= i < model.len() ==> #[trigger] old(dst)@[i].severity == model[i].severity,
    ensures
        final(dst)@.len() == model.len() + src@.len(),
        forall|i: int| 0 <= i < model.len() + src@.len() ==> #[trigger] final(dst)@[i].severity == (model + src@)[i].severity,
{
    let mut k: usize = 0;
    while k < src.len()
        invariant
            k <= src@.len(),
            dst@.len() == model.len() + k,
            forall|i: int| 0 <= i < model.len() + k ==> #[trigger] dst@[i].severity == (model + src@)[i].severity,
        decreases src@.len() - k,
    {
        let c = copy_finding(&src[k]);
        dst.push(c);
        k = k + 1;
    }
}

/// The lazy report with the given enrichments: the fast diagnostics of the
/// document (after its page index is built), and counts over those
/// findings and the enrichments' findings together.
pub fn build_lazy_report_with_enrichments(document: &mut LazyPdfDocument, file: &[u8], enrichments: Vec<LazyReportEnrichment>) -> (r: LazyDebugReport)
    ensures
        ({
            let (pages, ws) = lazy_page_walk(file@, old(document).xref.entries@, old(document).metadata.root, true, None,
                lazy_warning_views(old(document).warnings@));
            &&& lazy_warning_views(final(document).warnings@) == ws
            &&& finding_views(r.findings@) == fast_findings(*final(document), file@, pages)
        }),
        r.schema_version@ == REPORT_SCHEMA_VERSION@,
        r.report_kind@ == LAZY_REPORT_KIND@,
        r.open_mode@ == LAZY_OPEN_MODE@,
        same_metadata(r.file, final(document).metadata),
        r.enrichments@ == enrichments@,
        r.diagnostics.errors == count_severity(r.findings@ + enrichment_findings(enrichments@), Severity::Error),
        r.diagnostics.warnings == count_severity(r.findings@ + enrichment_findings(enrichments@), Severity::Warning),
        r.diagnostics.info == count_severity(r.findings@ + enrichment_findings(enrichments@), Severity::Info),
        string_views(r.deferred_deep_diagnostics@) == deferred_items(),
        final(document).metadata.parse_warning_count == final(document).warnings@.len(),
        lazy_document_kept(*old(document), *final(document)),
{
    let findings = run_lazy_fast_diagnostics(document, file);
    let mut all: Vec<Finding> = Vec::new();
    push_copies(&mut all, &findings, Ghost(Seq::<Finding>::empty()));
    assert(Seq::<Finding>::empty() + findings@ =~= findings@);
    let mut k: usize = 0;
    assert(enrichments@.take(0) =~= Seq::<LazyReportEnrichment>::empty());
    assert(findings@ + enrichment_findings(enrichments@.take(0)) =~= findings@);
    while k < enrichments.len()
        invariant
            k <= enrichments@.len(),
            all@.len() == (findings@ + enrichment_findings(enrichments@.take(k as int))).len(),
            forall|i: int| 0 <= i < all@.len() ==> #[trigger] all@[i].severity
                == (findings@ + enrichment_findings(enrichments@.take(k as int)))[i].severity,
        decreases enrichments@.len() - k,
    {
        let ghost model = findings@ + enrichment_findings(enrichments@.take(k as int));
        push_copies(&mut all, &enrichments[k].findings, Ghost(model));
        assert(enrichments@.take(k + 1).drop_last() =~= enrichments@.take(k as int));
        assert(enrichments@.take(k + 1).last() == enrichments@[k as int]);
        assert(findings@ + enrichment_findings(enrichments@.take(k + 1)) =~= model + enrichments@[k as int].findings@);
        k = k + 1;
    }
    assert(enrichments@.take(enrichments@.len() as int) =~= enrichments@);
    let diagnostics = DiagnosticSummary::from_findings(all.as_slice());
    proof {
        let target = findings@ + enrichment_findings(enrichments@);
        lemma_count_same_severities(all@, target, Severity::Error);
        lemma_count_same_severities(all@, target, Severity::Warning);
        lemma_count_same_severities(all@, target, Severity::Info);
    }
    let mut deferred: Vec<String> = Vec::new();
    deferred.push(owned("stream decode validation"));
    deferred.push(owned("content stream operator analysis"));
    deferred.push(owned("precise page object extraction"));
    deferred.push(owned("image/font deep validation"));
    deferred.push(owned("page screenshots"));
    deferred.push(owned("full report enrichment"));
    assert(string_views(deferred@) =~= deferred_items());
    LazyDebugReport {
        schema_version: owned(REPORT_SCHEMA_VERSION),
        report_kind: owned(LAZY_REPORT_KIND),
        open_mode: owned(LAZY_OPEN_MODE),
        file: copy_metadata(&document.metadata),
        diagnostics,
        findings,
        enrichments,
        deferred_deep_diagnostics: deferred,
    }
}

/// The lazy report without enrichments.
pub fn build_lazy_report(document: &mut LazyPdfDocument, file: &[u8]) -> (r: LazyDebugReport)
    ensures
        ({
            let (pages, ws) = lazy_page_walk(file@, old(document).xref.entries@, old(document).metadata.root, true, None,
                lazy_warning_views(old(document).warnings@));
            &&& lazy_warning_views(final(document).warnings@) == ws
            &&& finding_views(r.findings@) == fast_findings(*final(document), file@, pages)
        }),
        r.schema_version@ == REPORT_SCHEMA_VERSION@,
        r.report_kind@ == LAZY_REPORT_KIND@,
        r.open_mode@ == LAZY_OPEN_MODE@,
        same_metadata(r.file, final(document).metadata),
        r.enrichments@.len() == 0,
        r.diagnostics.errors == count_severity(r.findings@, Severity::Error),
        r.diagnostics.warnings == count_severity(r.findings@, Severity::Warning),
        r.diagnostics.info == count_severity(r.findings@, Severity::Info),
        string_views(r.deferred_deep_diagnostics@) == deferred_items(),
        final(document).metadata.parse_warning_count == final(document).warnings@.len(),
        lazy_document_kept(*old(document), *final(document)),
{
    let r = build_lazy_report_with_enrichments(document, file, Vec::new());
    assert(r.findings@ + enrichment_findings(Seq::<LazyReportEnrichment>::empty()) =~= r.findings@);
    r
}

} // verus!
