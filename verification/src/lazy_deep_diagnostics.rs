//! Deep diagnostics of one selected target of a lazily opened document: a
//! stream (its decode status and content operators), an object (its
//! references against the index), or a page (its metadata and a bounded
//! number of content streams). Each yields an enrichment for the report.
use vstd::prelude::*;
use crate::content_ops::{ContentAnalysis, OpView, WarnView, content_operators, lemma_analysis_operators, operator_warnings,
    opviews, tokens_from, wviews};
use crate::error::{ErrorV, PdfDebuggerError, error_message};
use crate::lazy_pdf::{LazyPdfDocument, LazyStreamView, inspect_lazy_object_with_document, lazy_content_stream, read_object_spec, lazy_stream_metadata, lazy_warning_views,
    read_lazy_stream_for_content_with_document, stream_view_matches, view_lazy_stream_with_document};
use crate::object_tree::{join_strings, joined};
use crate::pdf_model::{ByteRange, DiagnosticSummary, Finding, ObjectRef, Severity, count_severity};
use crate::report::{LazyEnrichmentDetail, LazyReportEnrichment};
use crate::stream_decode::{DecodeIssue, DecodeIssueKind, IssueView, issue_view, spec_decode_chain};
use crate::stream_viewer::{candidate_refusal, inspect_content_stream, issues_message, untokenizable_message};
use crate::content_ops::tokenizable;
use crate::text::{decimal, owned, push_decimal, push_str, string_views};
use crate::value_views::{FindingV, ObjectV, finding_views};
use crate::lazy_xref::LazyXrefEntry;
use crate::object_inspector::{object_keys, object_type_name};
use crate::summary::value_summary;
use crate::diagnostics::object_refs;
use crate::lazy_pages::{build_lazy_page_index, lazy_document_kept, lazy_page_walk};
use crate::page_index::{BoxV, LinkV, PageIndex, PageObjectLink, PageObjectLinkKind, PageSummary, PageSummaryV, link_views, page_views};

verus! {

// ---------------------------------------------------------------------------
// Enrichments
// ---------------------------------------------------------------------------

/// A detail as name and value.
pub type DetailV = (Seq<char>, Seq<char>);

pub open spec fn detail_views(s: Seq<LazyEnrichmentDetail>) -> Seq<DetailV> {
    s.map_values(|d: LazyEnrichmentDetail| (d.name@, d.value@))
}

/// What an enrichment holds, its counts aside.
pub struct EnrichmentV {
    pub scope: Seq<char>,
    pub target: Seq<char>,
    pub page_number: Option<u32>,
    pub reference: Option<ObjectRef>,
    pub partial: bool,
    pub summary: Seq<char>,
    pub findings: Seq<FindingV>,
    pub warnings: Seq<Seq<char>>,
    pub limitations: Seq<Seq<char>>,
    pub details: Seq<DetailV>,
}

pub open spec fn enrichment_view(e: LazyReportEnrichment) -> EnrichmentV {
    EnrichmentV {
        scope: e.scope@,
        target: e.target@,
        page_number: e.page_number,
        reference: e.reference,
        partial: e.partial,
        summary: e.summary@,
        findings: finding_views(e.findings@),
        warnings: string_views(e.warnings@),
        limitations: string_views(e.limitations@),
        details: detail_views(e.details@),
    }
}

/// The counts of an enrichment are those of its findings.
pub open spec fn counts_match(e: LazyReportEnrichment) -> bool {
    &&& e.diagnostics.errors == count_severity(e.findings@, Severity::Error)
    &&& e.diagnostics.warnings == count_severity(e.findings@, Severity::Warning)
    &&& e.diagnostics.info == count_severity(e.findings@, Severity::Info)
}

fn detail(name: String, value: String) -> (d: LazyEnrichmentDetail)
    ensures
        d.name@ == name@,
        d.value@ == value@,
{
    LazyEnrichmentDetail { name, value }
}

fn push_detail(details: &mut Vec<LazyEnrichmentDetail>, name: &str, value: String)
    ensures
        detail_views(final(details)@) == detail_views(old(details)@).push((name@, value@)),
{
    details.push(detail(owned(name), value));
    assert(detail_views(final(details)@) =~= detail_views(old(details)@).push((name@, value@)));
}

fn make_enrichment(
    scope: &str,
    target: String,
    page_number: Option<u32>,
    reference: Option<ObjectRef>,
    summary: String,
    findings: Vec<Finding>,
    warnings: Vec<String>,
    limitations: Vec<String>,
    details: Vec<LazyEnrichmentDetail>,
) -> (e: LazyReportEnrichment)
    ensures
        enrichment_view(e) == (EnrichmentV {
            scope: scope@,
            target: target@,
            page_number,
            reference,
            partial: limitations@.len() > 0,
            summary: summary@,
            findings: finding_views(findings@),
            warnings: string_views(warnings@),
            limitations: string_views(limitations@),
            details: detail_views(details@),
        }),
        counts_match(e),
{
    let diagnostics = DiagnosticSummary::from_findings(findings.as_slice());
    let partial = limitations.len() > 0;
    LazyReportEnrichment {
        scope: owned(scope),
        target,
        page_number,
        reference,
        partial,
        summary,
        diagnostics,
        findings,
        warnings,
        limitations,
        details,
    }
}

fn push_string(v: &mut Vec<String>, s: String)
    ensures
        string_views(final(v)@) == string_views(old(v)@).push(s@),
{
    v.push(s);
    assert(string_views(final(v)@) =~= string_views(old(v)@).push(s@));
}

fn push_finding(v: &mut Vec<Finding>, f: Finding)
    ensures
        finding_views(final(v)@) == finding_views(old(v)@).push(f@),
{
    v.push(f);
    assert(finding_views(final(v)@) =~= finding_views(old(v)@).push(f@));
}

/// "unknown", or the number.
pub open spec fn opt_usize_text(v: Option<usize>) -> Seq<char> {
    match v {
        Some(n) => decimal(n as nat),
        None => "unknown"@,
    }
}

fn opt_usize_string(v: Option<usize>) -> (s: String)
    ensures
        s@ == opt_usize_text(v),
{
    match v {
        Some(n) => {
            let mut s = String::new();
            push_decimal(&mut s, n);
            assert(s@ =~= decimal(n as nat));
            s
        },
        None => owned("unknown"),
    }
}

/// "None", or the filters joined by " -> ".
pub open spec fn filters_text(fs: Seq<Seq<char>>) -> Seq<char> {
    if fs.len() == 0 { "None"@ } else { joined(fs, " -> "@) }
}

fn filters_string(fs: &Vec<String>) -> (s: String)
    ensures
        s@ == filters_text(string_views(fs@)),
{
    if fs.len() == 0 { owned("None") } else { join_strings(fs, " -> ") }
}

pub open spec fn range_text(r: ByteRange) -> Seq<char> {
    decimal(r.start as nat) + ".."@ + decimal(r.end as nat)
}

fn range_string(r: ByteRange) -> (s: String)
    ensures
        s@ == range_text(r),
{
    let mut s = String::new();
    push_decimal(&mut s, r.start);
    push_str(&mut s, "..");
    push_decimal(&mut s, r.end);
    assert(s@ =~= range_text(r));
    s
}

fn ref_string(a: &str, r: ObjectRef, b: &str) -> (s: String)
    ensures
        s@ == a@ + r.spec_text() + b@,
{
    let mut s = owned(a);
    let t = r.to_text();
    push_str(&mut s, t.as_str());
    push_str(&mut s, b);
    s
}

// ---------------------------------------------------------------------------
// Streams
// ---------------------------------------------------------------------------

/// What stream deep diagnostics read of a stream view.
pub struct StreamFacts {
    pub declared_length: Option<usize>,
    pub actual_length: usize,
    pub filters: Seq<Seq<char>>,
    pub decoded_length: Option<usize>,
    pub raw_range: ByteRange,
    pub issues: Seq<IssueView>,
    pub preview_truncated: bool,
    pub decoded_truncated: bool,
    pub preview_limit: usize,
    pub decoded_error: Option<Seq<char>>,
    pub warnings: Seq<Seq<char>>,
}

pub open spec fn stream_facts(v: LazyStreamView) -> StreamFacts {
    StreamFacts {
        declared_length: v.declared_length,
        actual_length: v.actual_length,
        filters: string_views(v.filters@),
        decoded_length: v.decoded_length,
        raw_range: v.raw_range,
        issues: v.decode_issues@.map_values(|i: DecodeIssue| issue_view(i)),
        preview_truncated: v.raw_text_truncated || v.hex_text_truncated,
        decoded_truncated: v.decoded_text_truncated,
        preview_limit: v.preview_limit,
        decoded_error: match v.decoded_error {
            Some(e) => Some(e@),
            None => None,
        },
        warnings: lazy_warning_views(v.warnings@).map_values(|w: crate::lazy_pdf::LazyWarningV| w.1),
    }
}

/// Two views of the same stream read the same facts.
proof fn lemma_stream_facts_unique(v1: LazyStreamView, v2: LazyStreamView, file: Seq<u8>, st: crate::value_views::StreamV, r: ObjectRef)
    requires
        stream_view_matches(v1, file, st, r),
        stream_view_matches(v2, file, st, r),
    ensures
        stream_facts(v1) == stream_facts(v2),
{
    let a = stream_facts(v1);
    let b = stream_facts(v2);
    assert(a.issues =~= b.issues);
    assert(a.warnings =~= b.warnings);
}

pub open spec fn stream_details(f: StreamFacts) -> Seq<DetailV> {
    seq![
        ("Declared length"@, opt_usize_text(f.declared_length)),
        ("Actual length"@, decimal(f.actual_length as nat)),
        ("Filters"@, filters_text(f.filters)),
        ("Decoded length"@, opt_usize_text(f.decoded_length)),
        ("Raw range"@, range_text(f.raw_range)),
    ]
}

pub open spec fn issue_finding(r: ObjectRef, page: Option<u32>, start: usize, i: IssueView) -> FindingV {
    (if i.1 is Failed { "lazy.deep.stream_decode_failed"@ } else { "lazy.deep.stream_unsupported_filter"@ },
        if i.1 is Failed { Severity::Error } else { Severity::Warning },
        "Stream "@ + r.spec_text() + " filter /"@ + i.0 + " could not be decoded during lazy deep diagnostics: "@ + i.2,
        Some(r), page, Some(start), "Export the raw stream or inspect the /Filter chain and encoded bytes"@)
}

pub open spec fn issue_findings(r: ObjectRef, page: Option<u32>, start: usize, issues: Seq<IssueView>) -> Seq<FindingV> {
    issues.map_values(|i: IssueView| issue_finding(r, page, start, i))
}

pub open spec fn view_limitations(f: StreamFacts) -> Seq<Seq<char>> {
    (if f.preview_truncated {
        seq!["Raw/hex preview was truncated at "@ + decimal(f.preview_limit as nat)
            + " bytes; report enrichment does not embed stream bytes."@]
    } else {
        seq![]
    }) + (if f.decoded_truncated {
        seq!["Decoded preview was truncated at "@ + decimal(f.preview_limit as nat)
            + " bytes; report enrichment does not embed decoded bytes."@]
    } else {
        seq![]
    }) + match f.decoded_error {
        Some(e) => seq!["Decoded content analysis unavailable: "@ + e],
        None => seq![],
    }
}

/// How content analysis of a stream went.
pub enum ContentOutcome {
    /// The token count, the operators and the warnings on them.
    Analysed(nat, Seq<OpView>, Seq<WarnView>),
    /// The stream is no page content, or its bytes cannot be analysed.
    Refused(Seq<char>),
    /// The stream could not be read for analysis.
    Skipped(ErrorV),
}

/// Content analysis of stream `r`: its data read within the lazy limits,
/// then scanned as page content.
pub open spec fn content_outcome(file: Seq<u8>, entries: Seq<crate::lazy_xref::LazyXrefEntry>, r: ObjectRef) -> ContentOutcome {
    match lazy_content_stream(file, entries, r) {
        Err(e) => ContentOutcome::Skipped(e),
        Ok(st) => match candidate_refusal(r, st.0) {
            Some(m) => ContentOutcome::Refused(m),
            None => {
                let (d, steps, issues) = spec_decode_chain(st.5, st.3, None);
                if issues.len() > 0 {
                    ContentOutcome::Refused(issues_message(issues))
                } else if !tokenizable(d) {
                    ContentOutcome::Refused(untokenizable_message())
                } else {
                    ContentOutcome::Analysed(tokens_from(d, 0)->0.len(), content_operators(d), operator_warnings(content_operators(d)))
                }
            },
        },
    }
}

/// At most the first sixteen operator names, joined by spaces.
pub open spec fn operator_sample(ops: Seq<OpView>) -> Seq<char> {
    joined(ops.take(if ops.len() < 16 { ops.len() as int } else { 16 }).map_values(|o: OpView| o.0), " "@)
}

pub open spec fn sat_add(a: usize, b: usize) -> usize {
    if a + b > usize::MAX { usize::MAX } else { (a + b) as usize }
}

pub open spec fn warning_finding(r: ObjectRef, page: Option<u32>, start: usize, w: WarnView) -> FindingV {
    ("lazy.deep."@ + w.0, Severity::Warning, w.3, Some(r), page,
        match w.2 {
            Some(br) => Some(sat_add(start, br.start)),
            None => None,
        }, w.4)
}

pub open spec fn content_findings(o: ContentOutcome, r: ObjectRef, page: Option<u32>, start: usize) -> Seq<FindingV> {
    match o {
        ContentOutcome::Analysed(_, _, ws) => ws.map_values(|w: WarnView| warning_finding(r, page, start, w)),
        _ => seq![],
    }
}

pub open spec fn content_limitations(o: ContentOutcome) -> Seq<Seq<char>> {
    match o {
        ContentOutcome::Analysed(_, _, _) => seq![],
        ContentOutcome::Refused(m) => seq![m],
        ContentOutcome::Skipped(e) => seq!["Content stream operator analysis skipped: "@ + error_message(e)],
    }
}

pub open spec fn content_details(o: ContentOutcome) -> Seq<DetailV> {
    match o {
        ContentOutcome::Analysed(n, ops, ws) => seq![
            ("Content tokens"@, decimal(n)),
            ("Content operators"@, decimal(ops.len())),
            ("Content warnings"@, decimal(ws.len())),
        ] + if operator_sample(ops).len() > 0 { seq![("Operator sample"@, operator_sample(ops))] } else { seq![] },
        _ => seq![],
    }
}

/// The enrichment of a stream from what its view shows and how its
/// content analysis went.
pub open spec fn stream_enrichment(f: StreamFacts, o: ContentOutcome, r: ObjectRef, page: Option<u32>) -> EnrichmentV {
    let limitations = view_limitations(f) + content_limitations(o);
    EnrichmentV {
        scope: "stream"@,
        target: "Stream "@ + r.spec_text(),
        page_number: page,
        reference: Some(r),
        partial: limitations.len() > 0,
        summary: "Stream "@ + r.spec_text() + " lazy deep diagnostics inspected metadata, decode status, and bounded content operators."@,
        findings: issue_findings(r, page, f.raw_range.start, f.issues) + content_findings(o, r, page, f.raw_range.start),
        warnings: f.warnings,
        limitations,
        details: stream_details(f) + content_details(o),
    }
}

/// Stream deep diagnostics of `r` as a whole: refused when its dictionary
/// cannot be read, else the enrichment of its view.
pub open spec fn stream_deep(file: Seq<u8>, entries: Seq<crate::lazy_xref::LazyXrefEntry>, r: ObjectRef, page: Option<u32>) -> Result<EnrichmentV, ErrorV> {
    match lazy_stream_metadata(file, entries, r) {
        Err(e) => Err(e),
        Ok(st) => Ok(stream_enrichment(stream_facts(choose|v: LazyStreamView| stream_view_matches(v, file, st, r)),
            content_outcome(file, entries, r), r, page)),
    }
}

pub open spec fn enrichment_result(r: Result<LazyReportEnrichment, PdfDebuggerError>, s: Result<EnrichmentV, ErrorV>) -> bool {
    match s {
        Ok(e) => r matches Ok(x) && enrichment_view(x) == e && counts_match(x),
        Err(e) => r matches Err(x) && x@ == e,
    }
}

fn add_issue_findings(r: ObjectRef, page: Option<u32>, start: usize, issues: &Vec<DecodeIssue>, findings: &mut Vec<Finding>)
    ensures
        finding_views(final(findings)@) == finding_views(old(findings)@)
            + issue_findings(r, page, start, issues@.map_values(|i: DecodeIssue| issue_view(i))),
{
    let ghost iv = issues@.map_values(|i: DecodeIssue| issue_view(i));
    let ghost f0 = finding_views(findings@);
    let mut k: usize = 0;
    while k < issues.len()
        invariant
            k <= issues@.len(),
            iv == issues@.map_values(|i: DecodeIssue| issue_view(i)),
            finding_views(findings@) == f0 + issue_findings(r, page, start, iv.take(k as int)),
        decreases issues@.len() - k,
    {
        let issue = &issues[k];
        let failed = match issue.kind {
            DecodeIssueKind::Failed => true,
            DecodeIssueKind::Unsupported => false,
        };
        let mut m = ref_string("Stream ", r, " filter /");
        push_str(&mut m, issue.filter.as_str());
        push_str(&mut m, " could not be decoded during lazy deep diagnostics: ");
        push_str(&mut m, issue.message.as_str());
        let f = Finding {
            rule_id: if failed { owned("lazy.deep.stream_decode_failed") } else { owned("lazy.deep.stream_unsupported_filter") },
            severity: if failed { Severity::Error } else { Severity::Warning },
            message: m,
            object: Some(r),
            page,
            byte_offset: Some(start),
            suggested_next_step: owned("Export the raw stream or inspect the /Filter chain and encoded bytes"),
        };
        push_finding(findings, f);
        assert(iv.take(k + 1) =~= iv.take(k as int).push(iv[k as int]));
        assert(issue_findings(r, page, start, iv.take(k + 1)) =~= issue_findings(r, page, start, iv.take(k as int))
            .push(issue_finding(r, page, start, iv[k as int])));
        k = k + 1;
    }
    assert(iv.take(issues@.len() as int) =~= iv);
}

fn add_view_limitations(v: &LazyStreamView, limitations: &mut Vec<String>)
    ensures
        string_views(final(limitations)@) == string_views(old(limitations)@) + view_limitations(stream_facts(*v)),
{
    let ghost l0 = string_views(limitations@);
    if v.raw_text_truncated || v.hex_text_truncated {
        let mut m = owned("Raw/hex preview was truncated at ");
        push_decimal(&mut m, v.preview_limit);
        push_str(&mut m, " bytes; report enrichment does not embed stream bytes.");
        push_string(limitations, m);
    }
    if v.decoded_text_truncated {
        let mut m = owned("Decoded preview was truncated at ");
        push_decimal(&mut m, v.preview_limit);
        push_str(&mut m, " bytes; report enrichment does not embed decoded bytes.");
        push_string(limitations, m);
    }
    match &v.decoded_error {
        Some(e) => {
            let mut m = owned("Decoded content analysis unavailable: ");
            push_str(&mut m, e.as_str());
            push_string(limitations, m);
        },
        None => {},
    }
    assert(string_views(limitations@) =~= l0 + view_limitations(stream_facts(*v)));
}

fn add_warning_findings(r: ObjectRef, page: Option<u32>, start: usize, a: &ContentAnalysis, findings: &mut Vec<Finding>)
    ensures
        finding_views(final(findings)@) == finding_views(old(findings)@)
            + wviews(a.warnings@).map_values(|w: WarnView| warning_finding(r, page, start, w)),
{
    let ghost wv = wviews(a.warnings@);
    let ghost f0 = finding_views(findings@);
    let mut k: usize = 0;
    while k < a.warnings.len()
        invariant
            k <= a.warnings@.len(),
            wv == wviews(a.warnings@),
            finding_views(findings@) == f0 + wv.take(k as int).map_values(|w: WarnView| warning_finding(r, page, start, w)),
        decreases a.warnings@.len() - k,
    {
        let w = &a.warnings[k];
        let offset = match w.byte_range {
            Some(br) => Some(start.saturating_add(br.start)),
            None => None,
        };
        let mut rule = owned("lazy.deep.");
        push_str(&mut rule, w.rule_id.as_str());
        let f = Finding {
            rule_id: rule,
            severity: Severity::Warning,
            message: owned(w.message.as_str()),
            object: Some(r),
            page,
            byte_offset: offset,
            suggested_next_step: owned(w.suggested_next_step.as_str()),
        };
        push_finding(findings, f);
        assert(wv.take(k + 1) =~= wv.take(k as int).push(wv[k as int]));
        assert(wv.take(k + 1).map_values(|w: WarnView| warning_finding(r, page, start, w)) =~= wv.take(k as int).map_values(
            |w: WarnView| warning_finding(r, page, start, w)).push(warning_finding(r, page, start, wv[k as int])));
        k = k + 1;
    }
    assert(wv.take(a.warnings@.len() as int) =~= wv);
}

fn operator_sample_string(a: &ContentAnalysis) -> (s: String)
    ensures
        s@ == operator_sample(opviews(a.operators@)),
{
    let ghost ops = opviews(a.operators@);
    let n: usize = if a.operators.len() < 16 { a.operators.len() } else { 16 };
    let mut names: Vec<String> = Vec::new();
    let mut k: usize = 0;
    while k < n
        invariant
            k <= n,
            n <= a.operators@.len(),
            ops == opviews(a.operators@),
            string_views(names@) == ops.take(k as int).map_values(|o: OpView| o.0),
        decreases n - k,
    {
        names.push(owned(a.operators[k].name.as_str()));
        assert(ops.take(k + 1).map_values(|o: OpView| o.0) =~= ops.take(k as int).map_values(|o: OpView| o.0).push(ops[k as int].0));
        assert(string_views(names@) =~= ops.take(k + 1).map_values(|o: OpView| o.0));
        k = k + 1;
    }
    join_strings(&names, " ")
}

/// Runs content analysis of stream `r` and adds what it yields.
fn add_content_analysis(
    document: &LazyPdfDocument,
    file: &[u8],
    r: ObjectRef,
    page: Option<u32>,
    start: usize,
    findings: &mut Vec<Finding>,
    limitations: &mut Vec<String>,
    details: &mut Vec<LazyEnrichmentDetail>,
)
    ensures
        ({
            let o = content_outcome(file@, document.xref.entries@, r);
            &&& finding_views(final(findings)@) == finding_views(old(findings)@) + content_findings(o, r, page, start)
            &&& string_views(final(limitations)@) == string_views(old(limitations)@) + content_limitations(o)
            &&& detail_views(final(details)@) == detail_views(old(details)@) + content_details(o)
        }),
{
    let ghost o = content_outcome(file@, document.xref.entries@, r);
    let ghost f0 = finding_views(findings@);
    let ghost l0 = string_views(limitations@);
    let ghost d0 = detail_views(details@);
    match read_lazy_stream_for_content_with_document(document, file, r) {
        Err(e) => {
            let mut m = owned("Content stream operator analysis skipped: ");
            let t = e.message();
            push_str(&mut m, t.as_str());
            push_string(limitations, m);
            assert(finding_views(findings@) =~= f0 + content_findings(o, r, page, start));
            assert(string_views(limitations@) =~= l0 + content_limitations(o));
            assert(detail_views(details@) =~= d0 + content_details(o));
        },
        Ok(stream) => match inspect_content_stream(r, &stream) {
            Err(error) => {
                push_string(limitations, error.message);
                assert(finding_views(findings@) =~= f0 + content_findings(o, r, page, start));
                assert(string_views(limitations@) =~= l0 + content_limitations(o));
                assert(detail_views(details@) =~= d0 + content_details(o));
            },
            Ok(content) => {
                let a = &content.analysis;
                proof {
                    let st = lazy_content_stream(file@, document.xref.entries@, r)->Ok_0;
                    let d = spec_decode_chain(st.5, st.3, None).0;
                    lemma_analysis_operators(*a, d);
                }
                let mut t = String::new();
                push_decimal(&mut t, a.tokens.len());
                push_detail(details, "Content tokens", t);
                let mut t2 = String::new();
                push_decimal(&mut t2, a.operators.len());
                push_detail(details, "Content operators", t2);
                let mut t3 = String::new();
                push_decimal(&mut t3, a.warnings.len());
                push_detail(details, "Content warnings", t3);
                let sample = operator_sample_string(a);
                if sample.as_str().unicode_len() > 0 {
                    push_detail(details, "Operator sample", sample);
                }
                add_warning_findings(r, page, start, a, findings);
                assert(finding_views(findings@) =~= f0 + content_findings(o, r, page, start));
                assert(string_views(limitations@) =~= l0 + content_limitations(o));
                assert(detail_views(details@) =~= d0 + content_details(o));
            },
        },
    }
}

/// Deep diagnostics of one stream: its view (decode issues, truncated
/// previews) and the warnings of its content operators, without embedding
/// any stream bytes. `page_number` is the page that led to it, if any.
pub fn run_lazy_stream_deep_diagnostics(document: &LazyPdfDocument, file: &[u8], reference: ObjectRef, page_number: Option<u32>) -> (r: Result<LazyReportEnrichment, PdfDebuggerError>)
    ensures
        enrichment_result(r, stream_deep(file@, document.xref.entries@, reference, page_number)),
{
    let view = match view_lazy_stream_with_document(document, file, reference) {
        Ok(v) => v,
        Err(e) => return Err(e),
    };
    let ghost st = lazy_stream_metadata(file@, document.xref.entries@, reference)->Ok_0;
    proof {
        let c = choose|v: LazyStreamView| stream_view_matches(v, file@, st, reference);
        lemma_stream_facts_unique(view, c, file@, st, reference);
    }
    let mut findings: Vec<Finding> = Vec::new();
    let mut warnings: Vec<String> = Vec::new();
    let mut limitations: Vec<String> = Vec::new();
    let mut details: Vec<LazyEnrichmentDetail> = Vec::new();
    let ghost f = stream_facts(view);
    let mut k: usize = 0;
    while k < view.warnings.len()
        invariant
            k <= view.warnings@.len(),
            f == stream_facts(view),
            f.warnings.len() == view.warnings@.len(),
            string_views(warnings@) == f.warnings.take(k as int),
        decreases view.warnings@.len() - k,
    {
        push_string(&mut warnings, owned(view.warnings[k].message.as_str()));
        assert(f.warnings[k as int] == view.warnings@[k as int].message@);
        assert(string_views(warnings@) =~= f.warnings.take(k + 1));
        k = k + 1;
    }
    assert(f.warnings.take(view.warnings@.len() as int) =~= f.warnings);
    push_detail(&mut details, "Declared length", opt_usize_string(view.declared_length));
    let mut al = String::new();
    push_decimal(&mut al, view.actual_length);
    push_detail(&mut details, "Actual length", al);
    push_detail(&mut details, "Filters", filters_string(&view.filters));
    push_detail(&mut details, "Decoded length", opt_usize_string(view.decoded_length));
    push_detail(&mut details, "Raw range", range_string(view.raw_range));
    assert(detail_views(details@) =~= stream_details(f));
    add_issue_findings(reference, page_number, view.raw_range.start, &view.decode_issues, &mut findings);
    assert(finding_views(findings@) =~= issue_findings(reference, page_number, f.raw_range.start, f.issues));
    assert(string_views(limitations@) =~= Seq::<Seq<char>>::empty());
    add_view_limitations(&view, &mut limitations);
    add_content_analysis(document, file, reference, page_number, view.raw_range.start, &mut findings, &mut limitations, &mut details);
    let mut target = owned("Stream ");
    let rt = reference.to_text();
    push_str(&mut target, rt.as_str());
    let summary = ref_string("Stream ", reference,
        " lazy deep diagnostics inspected metadata, decode status, and bounded content operators.");
    Ok(make_enrichment("stream", target, page_number, Some(reference), summary, findings, warnings, limitations, details))
}

// ---------------------------------------------------------------------------
// Objects
// ---------------------------------------------------------------------------

/// The first entry of the index for `r`.
pub open spec fn first_entry(es: Seq<LazyXrefEntry>, r: ObjectRef) -> Option<LazyXrefEntry>
    decreases es.len(),
{
    if es.len() == 0 {
        None
    } else if es[0].reference == r {
        Some(es[0])
    } else {
        first_entry(es.drop_first(), r)
    }
}

fn first_entry_exec(es: &Vec<LazyXrefEntry>, r: ObjectRef) -> (e: Option<LazyXrefEntry>)
    ensures
        e == first_entry(es@, r),
{
    let mut i: usize = 0;
    assert(es@.subrange(0, es@.len() as int) =~= es@);
    while i < es.len()
        invariant
            i <= es@.len(),
            first_entry(es@, r) == first_entry(es@.subrange(i as int, es@.len() as int), r),
        decreases es@.len() - i,
    {
        assert(es@.subrange(i as int, es@.len() as int).drop_first() =~= es@.subrange(i + 1, es@.len() as int));
        if es[i].reference == r {
            return Some(es[i]);
        }
        i = i + 1;
    }
    None
}

/// What object `r` linking to `linked` is worth reporting, given the first
/// index entry for `linked`.
pub open spec fn link_finding(file_size: usize, r: ObjectRef, linked: ObjectRef, e: Option<LazyXrefEntry>) -> Seq<FindingV> {
    match e {
        Some(en) => if en.in_use && en.offset < file_size {
            seq![]
        } else if !en.in_use {
            seq![("lazy.deep.object_reference_free"@, Severity::Error, "Object "@ + r.spec_text() + " references free xref entry "@
                + linked.spec_text(), Some(linked), None, Some(en.offset), "Verify the referenced object and regenerate the xref table"@)]
        } else {
            seq![("xref.invalid_offset"@, Severity::Error, "Object "@ + r.spec_text() + " references "@ + linked.spec_text()
                + ", whose xref offset "@ + decimal(en.offset as nat) + " is outside the file"@, Some(linked), None, Some(en.offset),
                "Compare the xref table against the raw file length"@)]
        },
        None => seq![("object.missing_reference"@, Severity::Error, "Object "@ + r.spec_text() + " references "@ + linked.spec_text()
            + ", which is missing from the lazy xref table"@, Some(linked), None, None,
            "Check whether the referenced object is missing or stored in an unsupported object stream"@)],
    }
}

pub open spec fn link_findings(es: Seq<LazyXrefEntry>, file_size: usize, r: ObjectRef, links: Seq<ObjectRef>) -> Seq<FindingV>
    decreases links.len(),
{
    if links.len() == 0 {
        seq![]
    } else {
        link_findings(es, file_size, r, links.drop_last()) + link_finding(file_size, r, links.last(), first_entry(es, links.last()))
    }
}

pub open spec fn object_details(o: ObjectV) -> Seq<DetailV> {
    seq![
        ("Object type"@, object_type_name(o)),
        ("Summary"@, value_summary(o.1)),
        ("Raw range"@, range_text(o.3)),
        ("Dictionary keys"@, joined(object_keys(o), ", "@)),
        ("Referenced objects"@, decimal(object_refs(seq![], o).len())),
    ]
}

pub open spec fn prefixed_details(ds: Seq<DetailV>) -> Seq<DetailV> {
    ds.map_values(|d: DetailV| ("Stream "@ + d.0, d.1))
}

/// Object deep diagnostics of `r` as a whole: its references checked
/// against the index and, for a stream, the stream's own deep diagnostics.
pub open spec fn object_deep(file: Seq<u8>, es: Seq<LazyXrefEntry>, file_size: usize, r: ObjectRef) -> Result<EnrichmentV, ErrorV> {
    match read_object_spec(file, es, r).0 {
        Err(e) => Err(e),
        Ok(o) => {
            let refs = object_refs(seq![], o);
            let base = link_findings(es, file_size, r, refs);
            let (findings, warnings, limitations, details) = match o.2 {
                None => (base, Seq::<Seq<char>>::empty(), Seq::<Seq<char>>::empty(), object_details(o)),
                Some(st) => {
                    let d = object_details(o) + seq![("Stream actual length"@, decimal(st.2 as nat)), ("Stream filters"@, filters_text(st.3))];
                    match stream_deep(file, es, r, None) {
                        Ok(se) => (base + se.findings, se.warnings, se.limitations, d + prefixed_details(se.details)),
                        Err(e) => (base, Seq::<Seq<char>>::empty(), seq!["Stream-level diagnostics for object "@ + r.spec_text()
                            + " were unavailable: "@ + error_message(e)], d),
                    }
                },
            };
            Ok(EnrichmentV {
                scope: "object"@,
                target: "Object "@ + r.spec_text(),
                page_number: None,
                reference: Some(r),
                partial: limitations.len() > 0,
                summary: "Object "@ + r.spec_text() + " lazy deep diagnostics inspected one indirect object and "@
                    + decimal(refs.len()) + " reference(s)."@,
                findings,
                warnings,
                limitations,
                details,
            })
        },
    }
}

fn add_link_findings(es: &Vec<LazyXrefEntry>, file_size: usize, r: ObjectRef, links: &Vec<ObjectRef>, findings: &mut Vec<Finding>)
    ensures
        finding_views(final(findings)@) == finding_views(old(findings)@) + link_findings(es@, file_size, r, links@),
{
    let ghost f0 = finding_views(findings@);
    let mut k: usize = 0;
    assert(links@.take(0) =~= Seq::<ObjectRef>::empty());
    assert(f0 + link_findings(es@, file_size, r, links@.take(0)) =~= f0);
    while k < links.len()
        invariant
            k <= links@.len(),
            finding_views(findings@) == f0 + link_findings(es@, file_size, r, links@.take(k as int)),
        decreases links@.len() - k,
    {
        let linked = links[k];
        assert(links@.take(k + 1).drop_last() =~= links@.take(k as int));
        assert(links@.take(k + 1).last() == linked);
        let ghost before = finding_views(findings@);
        match first_entry_exec(es, linked) {
            Some(en) => {
                if en.in_use && en.offset < file_size {
                } else if !en.in_use {
                    let mut m = ref_string("Object ", r, " references free xref entry ");
                    let t = linked.to_text();
                    push_str(&mut m, t.as_str());
                    push_finding(findings, Finding { rule_id: owned("lazy.deep.object_reference_free"), severity: Severity::Error,
                        message: m, object: Some(linked), page: None, byte_offset: Some(en.offset),
                        suggested_next_step: owned("Verify the referenced object and regenerate the xref table") });
                } else {
                    let mut m = ref_string("Object ", r, " references ");
                    let t = linked.to_text();
                    push_str(&mut m, t.as_str());
                    push_str(&mut m, ", whose xref offset ");
                    push_decimal(&mut m, en.offset);
                    push_str(&mut m, " is outside the file");
                    push_finding(findings, Finding { rule_id: owned("xref.invalid_offset"), severity: Severity::Error,
                        message: m, object: Some(linked), page: None, byte_offset: Some(en.offset),
                        suggested_next_step: owned("Compare the xref table against the raw file length") });
                }
            },
            None => {
                let mut m = ref_string("Object ", r, " references ");
                let t = linked.to_text();
                push_str(&mut m, t.as_str());
                push_str(&mut m, ", which is missing from the lazy xref table");
                push_finding(findings, Finding { rule_id: owned("object.missing_reference"), severity: Severity::Error,
                    message: m, object: Some(linked), page: None, byte_offset: None,
                    suggested_next_step: owned("Check whether the referenced object is missing or stored in an unsupported object stream") });
            },
        }
        assert(finding_views(findings@) =~= before + link_finding(file_size, r, linked, first_entry(es@, linked)));
        k = k + 1;
    }
    assert(links@.take(links@.len() as int) =~= links@);
}

fn append_findings(dst: &mut Vec<Finding>, mut src: Vec<Finding>)
    ensures
        finding_views(final(dst)@) == finding_views(old(dst)@) + finding_views(src@),
{
    let ghost s = src@;
    dst.append(&mut src);
    assert(finding_views(final(dst)@) =~= finding_views(old(dst)@) + finding_views(s));
}

fn append_strings(dst: &mut Vec<String>, mut src: Vec<String>)
    ensures
        string_views(final(dst)@) == string_views(old(dst)@) + string_views(src@),
{
    let ghost s = src@;
    dst.append(&mut src);
    assert(string_views(final(dst)@) =~= string_views(old(dst)@) + string_views(s));
}

fn append_prefixed_details(dst: &mut Vec<LazyEnrichmentDetail>, src: &Vec<LazyEnrichmentDetail>)
    ensures
        detail_views(final(dst)@) == detail_views(old(dst)@) + prefixed_details(detail_views(src@)),
{
    let ghost d0 = detail_views(dst@);
    let ghost sv = detail_views(src@);
    let mut k: usize = 0;
    while k < src.len()
        invariant
            k <= src@.len(),
            sv == detail_views(src@),
            detail_views(dst@) == d0 + prefixed_details(sv.take(k as int)),
        decreases src@.len() - k,
    {
        let mut name = owned("Stream ");
        push_str(&mut name, src[k].name.as_str());
        push_detail(dst, name.as_str(), owned(src[k].value.as_str()));
        assert(sv[k as int] == (src@[k as int].name@, src@[k as int].value@));
        assert(sv.take(k + 1) =~= sv.take(k as int).push(sv[k as int]));
        assert(detail_views(dst@) =~= d0 + prefixed_details(sv.take(k + 1)));
        k = k + 1;
    }
    assert(sv.take(src@.len() as int) =~= sv);
}

/// Deep diagnostics of one indirect object: its references against the
/// index and, when it is a stream, the stream's deep diagnostics.
#[verifier::rlimit(40)]
pub fn run_lazy_object_deep_diagnostics(document: &LazyPdfDocument, file: &[u8], reference: ObjectRef) -> (r: Result<LazyReportEnrichment, PdfDebuggerError>)
    ensures
        enrichment_result(r, object_deep(file@, document.xref.entries@, document.metadata.file_size, reference)),
{
    let inspection = match inspect_lazy_object_with_document(document, file, reference) {
        Ok(i) => i,
        Err(e) => return Err(e),
    };
    let ghost o = read_object_spec(file@, document.xref.entries@, reference).0->Ok_0;
    let mut findings: Vec<Finding> = Vec::new();
    let mut warnings: Vec<String> = Vec::new();
    let mut limitations: Vec<String> = Vec::new();
    let mut details: Vec<LazyEnrichmentDetail> = Vec::new();
    push_detail(&mut details, "Object type", owned(inspection.object_type.as_str()));
    push_detail(&mut details, "Summary", owned(inspection.value_summary.as_str()));
    push_detail(&mut details, "Raw range", range_string(inspection.raw_range));
    push_detail(&mut details, "Dictionary keys", join_strings(&inspection.dictionary_keys, ", "));
    let mut rc = String::new();
    push_decimal(&mut rc, inspection.references.len());
    push_detail(&mut details, "Referenced objects", rc);
    assert(detail_views(details@) =~= object_details(o));
    assert(finding_views(findings@) =~= Seq::<FindingV>::empty());
    add_link_findings(&document.xref.entries, document.metadata.file_size, reference, &inspection.references, &mut findings);
    assert(finding_views(findings@) =~= link_findings(document.xref.entries@, document.metadata.file_size, reference, object_refs(seq![], o)));
    assert(string_views(warnings@) =~= Seq::<Seq<char>>::empty());
    assert(string_views(limitations@) =~= Seq::<Seq<char>>::empty());
    let ghost refs = object_refs(seq![], o);
    let ghost base = link_findings(document.xref.entries@, document.metadata.file_size, reference, refs);
    match &inspection.stream {
        None => {
            assert(o.2 is None);
        },
        Some(si) => {
            let ghost st = o.2->Some_0;
            let mut al = String::new();
            push_decimal(&mut al, si.actual_length);
            push_detail(&mut details, "Stream actual length", al);
            push_detail(&mut details, "Stream filters", filters_string(&si.filters));
            match run_lazy_stream_deep_diagnostics(document, file, reference, None) {
                Ok(se) => {
                    let ghost sev = enrichment_view(se);
                    append_prefixed_details(&mut details, &se.details);
                    append_findings(&mut findings, se.findings);
                    append_strings(&mut warnings, se.warnings);
                    append_strings(&mut limitations, se.limitations);
                    assert(finding_views(findings@) =~= base + sev.findings);
                    assert(string_views(warnings@) =~= sev.warnings);
                    assert(string_views(limitations@) =~= sev.limitations);
                },
                Err(e) => {
                    let mut m = ref_string("Stream-level diagnostics for object ", reference, " were unavailable: ");
                    let t = e.message();
                    push_str(&mut m, t.as_str());
                    push_string(&mut limitations, m);
                },
            }
        },
    }
    let mut target = owned("Object ");
    let rt = reference.to_text();
    push_str(&mut target, rt.as_str());
    let mut summary = ref_string("Object ", reference, " lazy deep diagnostics inspected one indirect object and ");
    push_decimal(&mut summary, inspection.references.len());
    push_str(&mut summary, " reference(s).");
    let e = make_enrichment("object", target, None, Some(reference), summary, findings, warnings, limitations, details);
    proof {
        let x = object_deep(file@, document.xref.entries@, document.metadata.file_size, reference)->Ok_0;
        let ev = enrichment_view(e);
        assert(ev.target =~= x.target);
        assert(ev.summary =~= x.summary);
        assert(ev.findings =~= x.findings);
        assert(ev.warnings =~= x.warnings);
        assert(ev.limitations =~= x.limitations);
        assert(ev.details =~= x.details);
        assert(ev.partial == x.partial);
    }
    Ok(e)
}

// ---------------------------------------------------------------------------
// Pages
// ---------------------------------------------------------------------------

/// How many content streams of a page are analysed.
pub const PAGE_DEEP_STREAM_LIMIT: usize = 4;

/// The first page of the index with number `n`.
pub open spec fn first_page(ps: Seq<PageSummaryV>, n: u32) -> Option<PageSummaryV>
    decreases ps.len(),
{
    if ps.len() == 0 {
        None
    } else if ps[0].page_number == n {
        Some(ps[0])
    } else {
        first_page(ps.drop_first(), n)
    }
}

/// The targets of a page's content links, in order.
pub open spec fn content_refs(ls: Seq<LinkV>) -> Seq<ObjectRef>
    decreases ls.len(),
{
    if ls.len() == 0 {
        seq![]
    } else {
        content_refs(ls.drop_last()) + if ls.last().1 is Contents { seq![ls.last().2] } else { seq![] }
    }
}

pub open spec fn resource_kind(k: PageObjectLinkKind) -> bool {
    k is Resources || k is Font || k is XObject || k is Image || k is Annotation
}

pub open spec fn resource_link_count(ls: Seq<LinkV>) -> nat
    decreases ls.len(),
{
    if ls.len() == 0 { 0 } else { resource_link_count(ls.drop_last()) + if resource_kind(ls.last().1) { 1nat } else { 0nat } }
}

/// A signed number in decimal.
pub open spec fn signed_text(n: i32) -> Seq<char> {
    if n < 0 { "-"@ + decimal((-n) as nat) } else { decimal(n as nat) }
}

fn signed_string(n: i32) -> (s: String)
    ensures
        s@ == signed_text(n),
{
    let mut s = String::new();
    if n < 0 {
        push_str(&mut s, "-");
        let m: i64 = -(n as i64);
        push_decimal(&mut s, m as usize);
    } else {
        push_decimal(&mut s, n as usize);
    }
    assert(s@ =~= signed_text(n));
    s
}

pub open spec fn box_text(b: BoxV) -> Seq<char> {
    b.0 + " "@ + b.1 + " "@ + b.2 + " "@ + b.3
}

pub open spec fn page_base_details(p: PageSummaryV) -> Seq<DetailV> {
    let rot = match p.rotation {
        Some(r) => r,
        None => 0i32,
    };
    seq![
        ("Page reference"@, p.reference.spec_text()),
        ("Rotation"@, signed_text(rot)),
        ("Fonts"@, decimal(p.resources.fonts as nat)),
        ("XObjects"@, decimal(p.resources.xobjects as nat)),
        ("Images"@, decimal(p.resources.images as nat)),
        ("Content streams"@, decimal(p.resources.contents as nat)),
        ("Annotations"@, decimal(p.resources.annotations as nat)),
    ] + match p.boxes[0] {
        Some(b) => seq![("MediaBox"@, box_text(b))],
        None => seq![],
    } + seq![
        ("Page object links"@, decimal(p.links.len())),
        ("Resource links"@, decimal(resource_link_count(p.links))),
    ]
}

pub open spec fn mediabox_findings(p: PageSummaryV, n: u32) -> Seq<FindingV> {
    if p.boxes[0] is None {
        seq![("lazy.deep.page_missing_mediabox"@, Severity::Warning, "Page "@ + decimal(n as nat) + " ("@ + p.reference.spec_text()
            + ") has no inherited MediaBox in lazy metadata"@, Some(p.reference), Some(n), None,
            "Inspect the page tree ancestors for a /MediaBox entry"@)]
    } else {
        seq![]
    }
}

/// What the deep diagnostics of one content stream add to its page:
/// findings, warnings and details.
pub open spec fn page_stream_part(file: Seq<u8>, es: Seq<LazyXrefEntry>, n: u32, r: ObjectRef)
    -> (Seq<FindingV>, Seq<Seq<char>>, Seq<DetailV>)
{
    match stream_deep(file, es, r, Some(n)) {
        Ok(se) => (se.findings, se.warnings.map_values(|w: Seq<char>| "Content stream "@ + r.spec_text() + ": "@ + w),
            seq![("Content stream "@ + r.spec_text(), se.summary)]),
        Err(e) => (seq![("lazy.deep.page_content_stream_unavailable"@, Severity::Warning,
            "Could not run deep diagnostics for content stream "@ + r.spec_text() + ": "@ + error_message(e), Some(r), Some(n), None,
            "Inspect this content stream directly through lazy stream diagnostics"@)], seq![], seq![]),
    }
}

pub open spec fn page_stream_parts(file: Seq<u8>, es: Seq<LazyXrefEntry>, n: u32, rs: Seq<ObjectRef>)
    -> (Seq<FindingV>, Seq<Seq<char>>, Seq<DetailV>)
    decreases rs.len(),
{
    if rs.len() == 0 {
        (seq![], seq![], seq![])
    } else {
        let (f, w, d) = page_stream_parts(file, es, n, rs.drop_last());
        let (f2, w2, d2) = page_stream_part(file, es, n, rs.last());
        (f + f2, w + w2, d + d2)
    }
}

pub open spec fn page_deferred_text() -> Seq<char> {
    "Precise lazy page object extraction is still deferred; this enrichment inspects page metadata, object links, and a bounded number of content streams."@
}

/// Page deep diagnostics of page `n` given the page index: refused when no
/// page has that number.
pub open spec fn page_deep(file: Seq<u8>, es: Seq<LazyXrefEntry>, n: u32, pages: Seq<PageSummaryV>) -> Result<EnrichmentV, ErrorV> {
    match first_page(pages, n) {
        None => Err(ErrorV::LazyOpen("page "@ + decimal(n as nat) + " was not found in the lazy page index"@)),
        Some(p) => {
            let cs = content_refs(p.links);
            let analysed = if cs.len() < PAGE_DEEP_STREAM_LIMIT { cs.len() as int } else { PAGE_DEEP_STREAM_LIMIT as int };
            let (f, w, d) = page_stream_parts(file, es, n, cs.take(analysed));
            let limitations = seq![page_deferred_text()] + if cs.len() > PAGE_DEEP_STREAM_LIMIT {
                seq!["Only the first "@ + decimal(PAGE_DEEP_STREAM_LIMIT as nat) + " content stream(s) were analyzed for this page; "@
                    + decimal((cs.len() - PAGE_DEEP_STREAM_LIMIT) as nat) + " additional stream(s) were skipped."@]
            } else {
                seq![]
            };
            Ok(EnrichmentV {
                scope: "page"@,
                target: "Page "@ + decimal(n as nat),
                page_number: Some(n),
                reference: Some(p.reference),
                partial: true,
                summary: "Page "@ + decimal(n as nat) + " lazy deep diagnostics inspected "@ + decimal(p.links.len()) + " link(s) and "@
                    + decimal(analysed as nat) + " content stream(s)."@,
                findings: mediabox_findings(p, n) + f,
                warnings: w,
                limitations,
                details: page_base_details(p) + d,
            })
        },
    }
}

fn find_page(index: &PageIndex, n: u32) -> (i: Option<usize>)
    ensures
        match first_page(page_views(index.pages@), n) {
            None => i is None,
            Some(p) => i matches Some(k) && k < index.pages@.len() && index.pages@[k as int]@ == p,
        },
{
    let ghost ps = page_views(index.pages@);
    let mut i: usize = 0;
    assert(ps.subrange(0, ps.len() as int) =~= ps);
    while i < index.pages.len()
        invariant
            i <= index.pages@.len(),
            ps == page_views(index.pages@),
            ps.len() == index.pages@.len(),
            first_page(ps, n) == first_page(ps.subrange(i as int, ps.len() as int), n),
        decreases index.pages@.len() - i,
    {
        assert(ps.subrange(i as int, ps.len() as int).drop_first() =~= ps.subrange(i + 1, ps.len() as int));
        assert(ps[i as int] == index.pages@[i as int]@);
        if index.pages[i].page_number == n {
            return Some(i);
        }
        i = i + 1;
    }
    None
}

fn page_content_refs(links: &Vec<PageObjectLink>) -> (r: (Vec<ObjectRef>, usize))
    ensures
        r.0@ == content_refs(link_views(links@)),
        r.1 == resource_link_count(link_views(links@)),
{
    let ghost ls = link_views(links@);
    let mut refs: Vec<ObjectRef> = Vec::new();
    let mut count: usize = 0;
    let mut k: usize = 0;
    while k < links.len()
        invariant
            k <= links@.len(),
            ls == link_views(links@),
            ls.len() == links@.len(),
            refs@ == content_refs(ls.take(k as int)),
            count == resource_link_count(ls.take(k as int)),
            count <= k,
        decreases links@.len() - k,
    {
        assert(ls.take(k + 1).drop_last() =~= ls.take(k as int));
        assert(ls.take(k + 1).last() == links@[k as int]@);
        match links[k].kind {
            PageObjectLinkKind::Contents => {
                refs.push(links[k].reference);
            },
            _ => {},
        }
        match links[k].kind {
            PageObjectLinkKind::Resources | PageObjectLinkKind::Font | PageObjectLinkKind::XObject | PageObjectLinkKind::Image
            | PageObjectLinkKind::Annotation => {
                count = count + 1;
            },
            _ => {},
        }
        assert(refs@ =~= content_refs(ls.take(k + 1)));
        k = k + 1;
    }
    assert(ls.take(links@.len() as int) =~= ls);
    (refs, count)
}

fn add_page_stream(
    document: &LazyPdfDocument,
    file: &[u8],
    n: u32,
    r: ObjectRef,
    findings: &mut Vec<Finding>,
    warnings: &mut Vec<String>,
    details: &mut Vec<LazyEnrichmentDetail>,
)
    ensures
        ({
            let (f, w, d) = page_stream_part(file@, document.xref.entries@, n, r);
            &&& finding_views(final(findings)@) == finding_views(old(findings)@) + f
            &&& string_views(final(warnings)@) == string_views(old(warnings)@) + w
            &&& detail_views(final(details)@) == detail_views(old(details)@) + d
        }),
{
    let ghost f0 = finding_views(findings@);
    let ghost w0 = string_views(warnings@);
    let ghost d0 = detail_views(details@);
    match run_lazy_stream_deep_diagnostics(document, file, r, Some(n)) {
        Ok(se) => {
            let ghost sev = enrichment_view(se);
            let mut k: usize = 0;
            while k < se.warnings.len()
                invariant
                    k <= se.warnings@.len(),
                    sev == enrichment_view(se),
                    string_views(warnings@) == w0 + sev.warnings.take(k as int).map_values(
                        |w: Seq<char>| "Content stream "@ + r.spec_text() + ": "@ + w),
                decreases se.warnings@.len() - k,
            {
                let mut m = ref_string("Content stream ", r, ": ");
                push_str(&mut m, se.warnings[k].as_str());
                push_string(warnings, m);
                assert(sev.warnings.take(k + 1) =~= sev.warnings.take(k as int).push(sev.warnings[k as int]));
                assert(string_views(warnings@) =~= w0 + sev.warnings.take(k + 1).map_values(
                    |w: Seq<char>| "Content stream "@ + r.spec_text() + ": "@ + w));
                k = k + 1;
            }
            assert(sev.warnings.take(se.warnings@.len() as int) =~= sev.warnings);
            let mut label = owned("Content stream ");
            let t = r.to_text();
            push_str(&mut label, t.as_str());
            details.push(detail(label, se.summary));
            assert(detail_views(details@) =~= d0 + seq![("Content stream "@ + r.spec_text(), sev.summary)]);
            append_findings(findings, se.findings);
        },
        Err(e) => {
            let mut m = ref_string("Could not run deep diagnostics for content stream ", r, ": ");
            let t = e.message();
            push_str(&mut m, t.as_str());
            push_finding(findings, Finding { rule_id: owned("lazy.deep.page_content_stream_unavailable"), severity: Severity::Warning,
                message: m, object: Some(r), page: Some(n), byte_offset: None,
                suggested_next_step: owned("Inspect this content stream directly through lazy stream diagnostics") });
            assert(string_views(warnings@) =~= w0 + Seq::<Seq<char>>::empty());
            assert(detail_views(details@) =~= d0 + Seq::<DetailV>::empty());
        },
    }
}

fn add_page_base_details(p: &PageSummary, details: &mut Vec<LazyEnrichmentDetail>, resource_links: usize)
    requires
        resource_links == resource_link_count(link_views(p.links@)),
    ensures
        detail_views(final(details)@) == detail_views(old(details)@) + page_base_details(p@),
{
    let ghost d0 = detail_views(details@);
    push_detail(details, "Page reference", p.reference.to_text());
    let rot: i32 = match p.rotation {
        Some(r) => r,
        None => 0,
    };
    push_detail(details, "Rotation", signed_string(rot));
    let mut a = String::new();
    push_decimal(&mut a, p.resources.fonts);
    push_detail(details, "Fonts", a);
    let mut b = String::new();
    push_decimal(&mut b, p.resources.xobjects);
    push_detail(details, "XObjects", b);
    let mut c = String::new();
    push_decimal(&mut c, p.resources.images);
    push_detail(details, "Images", c);
    let mut d = String::new();
    push_decimal(&mut d, p.resources.contents);
    push_detail(details, "Content streams", d);
    let mut e = String::new();
    push_decimal(&mut e, p.resources.annotations);
    push_detail(details, "Annotations", e);
    match &p.media_box {
        Some(mb) => {
            let mut m = owned(mb.lower_left_x.as_str());
            push_str(&mut m, " ");
            push_str(&mut m, mb.lower_left_y.as_str());
            push_str(&mut m, " ");
            push_str(&mut m, mb.upper_right_x.as_str());
            push_str(&mut m, " ");
            push_str(&mut m, mb.upper_right_y.as_str());
            push_detail(details, "MediaBox", m);
        },
        None => {},
    }
    let mut g = String::new();
    push_decimal(&mut g, p.links.len());
    push_detail(details, "Page object links", g);
    let mut h = String::new();
    push_decimal(&mut h, resource_links);
    push_detail(details, "Resource links", h);
    assert(detail_views(details@) =~= d0 + page_base_details(p@));
}

/// Deep diagnostics of page `page_number`: its metadata, links, and its
/// first content streams. Building the page index adds its warnings to the
/// document, as `build_lazy_page_index` does.
#[verifier::rlimit(40)]
pub fn run_lazy_page_deep_diagnostics(document: &mut LazyPdfDocument, file: &[u8], page_number: u32) -> (r: Result<LazyReportEnrichment, PdfDebuggerError>)
    ensures
        ({
            let (pages, ws) = lazy_page_walk(file@, old(document).xref.entries@, old(document).metadata.root, true, None,
                lazy_warning_views(old(document).warnings@));
            &&& lazy_warning_views(final(document).warnings@) == ws
            &&& enrichment_result(r, page_deep(file@, old(document).xref.entries@, page_number, pages))
        }),
        final(document).metadata.parse_warning_count == final(document).warnings@.len(),
        lazy_document_kept(*old(document), *final(document)),
{
    let index = build_lazy_page_index(document, file);
    let k = match find_page(&index, page_number) {
        Some(k) => k,
        None => {
            let mut m = owned("page ");
            push_decimal(&mut m, page_number as usize);
            push_str(&mut m, " was not found in the lazy page index");
            return Err(crate::lazy_pdf::lazy_open_error(m));
        },
    };
    let page = &index.pages[k];
    let ghost p = page@;
    let mut findings: Vec<Finding> = Vec::new();
    let mut warnings: Vec<String> = Vec::new();
    let mut limitations: Vec<String> = Vec::new();
    let mut details: Vec<LazyEnrichmentDetail> = Vec::new();
    push_string(&mut limitations, owned(
        "Precise lazy page object extraction is still deferred; this enrichment inspects page metadata, object links, and a bounded number of content streams."));
    let (contents, resource_links) = page_content_refs(&page.links);
    assert(detail_views(details@) =~= Seq::<DetailV>::empty());
    add_page_base_details(page, &mut details, resource_links);
    if page.media_box.is_none() {
        let mut m = owned("Page ");
        push_decimal(&mut m, page_number as usize);
        push_str(&mut m, " (");
        let t = page.reference.to_text();
        push_str(&mut m, t.as_str());
        push_str(&mut m, ") has no inherited MediaBox in lazy metadata");
        push_finding(&mut findings, Finding { rule_id: owned("lazy.deep.page_missing_mediabox"), severity: Severity::Warning,
            message: m, object: Some(page.reference), page: Some(page_number), byte_offset: None,
            suggested_next_step: owned("Inspect the page tree ancestors for a /MediaBox entry") });
    }
    let ghost es = document.xref.entries@;
    let ghost cs = contents@;
    let analysed: usize = if contents.len() < PAGE_DEEP_STREAM_LIMIT { contents.len() } else { PAGE_DEEP_STREAM_LIMIT };
    let ghost f0 = finding_views(findings@);
    let ghost d0 = detail_views(details@);
    assert(finding_views(findings@) =~= mediabox_findings(p, page_number));
    assert(string_views(warnings@) =~= Seq::<Seq<char>>::empty());
    let mut i: usize = 0;
    assert(cs.take(0) =~= Seq::<ObjectRef>::empty());
    while i < analysed
        invariant
            i <= analysed,
            analysed <= contents@.len(),
            cs == contents@,
            es == document.xref.entries@,
            ({
                let (f, w, d) = page_stream_parts(file@, es, page_number, cs.take(i as int));
                &&& finding_views(findings@) == f0 + f
                &&& string_views(warnings@) == w
                &&& detail_views(details@) == d0 + d
            }),
        decreases analysed - i,
    {
        assert(cs.take(i + 1).drop_last() =~= cs.take(i as int));
        assert(cs.take(i + 1).last() == cs[i as int]);
        add_page_stream(document, file, page_number, contents[i], &mut findings, &mut warnings, &mut details);
        proof {
            let (f, w, d) = page_stream_parts(file@, es, page_number, cs.take(i as int));
            let (f2, w2, d2) = page_stream_part(file@, es, page_number, cs[i as int]);
            assert(f0 + f + f2 =~= f0 + (f + f2));
            assert(d0 + d + d2 =~= d0 + (d + d2));
        }
        i = i + 1;
    }
    if contents.len() > PAGE_DEEP_STREAM_LIMIT {
        let mut m = owned("Only the first ");
        push_decimal(&mut m, PAGE_DEEP_STREAM_LIMIT);
        push_str(&mut m, " content stream(s) were analyzed for this page; ");
        push_decimal(&mut m, contents.len() - PAGE_DEEP_STREAM_LIMIT);
        push_str(&mut m, " additional stream(s) were skipped.");
        push_string(&mut limitations, m);
    }
    let mut target = owned("Page ");
    push_decimal(&mut target, page_number as usize);
    let mut summary = owned("Page ");
    push_decimal(&mut summary, page_number as usize);
    push_str(&mut summary, " lazy deep diagnostics inspected ");
    push_decimal(&mut summary, page.links.len());
    push_str(&mut summary, " link(s) and ");
    push_decimal(&mut summary, analysed);
    push_str(&mut summary, " content stream(s).");
    let e = make_enrichment("page", target, Some(page_number), Some(page.reference), summary, findings, warnings, limitations, details);
    proof {
        let (pages, ws) = lazy_page_walk(file@, old(document).xref.entries@, old(document).metadata.root, true, None,
            lazy_warning_views(old(document).warnings@));
        let x = page_deep(file@, old(document).xref.entries@, page_number, pages)->Ok_0;
        let ev = enrichment_view(e);
        assert(ev.target =~= x.target);
        assert(ev.summary =~= x.summary);
        assert(ev.findings =~= x.findings);
        assert(ev.warnings =~= x.warnings);
        assert(ev.limitations =~= x.limitations);
        assert(ev.details =~= x.details);
    }
    Ok(e)
}

// ---------------------------------------------------------------------------
// Requests
// ---------------------------------------------------------------------------

/// The target of deep diagnostics.
#[derive(Clone, Copy, Debug, PartialEq, Eq, Structural)]
pub enum LazyDeepDiagnosticRequest {
    Page { page_number: u32 },
    Stream { reference: ObjectRef },
    Object { reference: ObjectRef },
}

/// Runs the deep diagnostics that `request` selects. Only a page request
/// changes the document (the page index adds its warnings).
pub fn run_lazy_deep_diagnostics(document: &mut LazyPdfDocument, file: &[u8], request: LazyDeepDiagnosticRequest) -> (r: Result<LazyReportEnrichment, PdfDebuggerError>)
    ensures
        match request {
            LazyDeepDiagnosticRequest::Page { page_number } => {
                let (pages, ws) = lazy_page_walk(file@, old(document).xref.entries@, old(document).metadata.root, true, None,
                    lazy_warning_views(old(document).warnings@));
                &&& lazy_warning_views(final(document).warnings@) == ws
                &&& enrichment_result(r, page_deep(file@, old(document).xref.entries@, page_number, pages))
                &&& final(document).metadata.parse_warning_count == final(document).warnings@.len()
                &&& lazy_document_kept(*old(document), *final(document))
            },
            LazyDeepDiagnosticRequest::Stream { reference } => {
                &&& enrichment_result(r, stream_deep(file@, old(document).xref.entries@, reference, None))
                &&& *final(document) == *old(document)
            },
            LazyDeepDiagnosticRequest::Object { reference } => {
                &&& enrichment_result(r, object_deep(file@, old(document).xref.entries@, old(document).metadata.file_size, reference))
                &&& *final(document) == *old(document)
            },
        },
{
    match request {
        LazyDeepDiagnosticRequest::Page { page_number } => run_lazy_page_deep_diagnostics(document, file, page_number),
        LazyDeepDiagnosticRequest::Stream { reference } => run_lazy_stream_deep_diagnostics(document, file, reference, None),
        LazyDeepDiagnosticRequest::Object { reference } => run_lazy_object_deep_diagnostics(document, file, reference),
    }
}

} // verus!
