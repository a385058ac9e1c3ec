//! Debug reports: what they hold and how they render as Markdown.
use vstd::prelude::*;
use crate::pdf_model::{
    DiagnosticSummary, Finding, ObjectRef, ParsedPdf, PdfMetadata, Severity, count_severity,
};
use crate::text::{decimal, decimal_string, owned, push_decimal, push_str, string_views};

verus! {

/// The version of the report layout.
pub const REPORT_SCHEMA_VERSION: &'static str = "0.1.0";

/// A report on a parsed document: its metadata, the counts of findings by
/// severity, and the findings.
#[derive(Debug)]
pub struct DebugReport {
    pub schema_version: String,
    pub file: PdfMetadata,
    pub diagnostics: DiagnosticSummary,
    pub findings: Vec<Finding>,
}

/// A named value that a deep diagnostic reports.
#[derive(Debug)]
pub struct LazyEnrichmentDetail {
    pub name: String,
    pub value: String,
}

/// The outcome of one deep diagnostic on a selected target.
#[derive(Debug)]
pub struct LazyReportEnrichment {
    pub scope: String,
    pub target: String,
    pub page_number: Option<u32>,
    pub reference: Option<ObjectRef>,
    pub partial: bool,
    pub summary: String,
    pub diagnostics: DiagnosticSummary,
    pub findings: Vec<Finding>,
    pub warnings: Vec<String>,
    pub limitations: Vec<String>,
    pub details: Vec<LazyEnrichmentDetail>,
}

/// A report built from metadata-only opening and fast diagnostics, with any
/// deep diagnostics that were run on demand.
#[derive(Debug)]
pub struct LazyDebugReport {
    pub schema_version: String,
    pub report_kind: String,
    pub open_mode: String,
    pub file: PdfMetadata,
    pub diagnostics: DiagnosticSummary,
    pub findings: Vec<Finding>,
    pub enrichments: Vec<LazyReportEnrichment>,
    pub deferred_deep_diagnostics: Vec<String>,
}

/// "yes" or "no".
pub open spec fn yes_no_text(value: bool) -> Seq<char> {
    if value { "yes"@ } else { "no"@ }
}

pub fn yes_no(value: bool) -> (r: &'static str)
    ensures
        r@ == yes_no_text(value),
{
    if value { "yes" } else { "no" }
}

/// A reference as text, or "unknown".
pub open spec fn optional_ref_text(reference: Option<ObjectRef>) -> Seq<char> {
    match reference {
        Some(r) => r.spec_text(),
        None => "unknown"@,
    }
}

pub fn optional_ref(reference: Option<ObjectRef>) -> (r: String)
    ensures
        r@ == optional_ref_text(reference),
{
    match reference {
        Some(r) => r.to_text(),
        None => owned("unknown"),
    }
}

/// One finding as a list item: its page, object, message and byte offset.
pub open spec fn finding_line(f: Finding) -> Seq<char> {
    "- "@ + page_part(f.page) + object_part(f.object) + f.message@ + offset_part(f.byte_offset) + "\n"@
}

/// The list items of the findings of one severity, in order.
pub open spec fn finding_lines(fs: Seq<Finding>, severity: Severity) -> Seq<char>
    decreases fs.len(),
{
    if fs.len() == 0 {
        seq![]
    } else {
        finding_lines(fs.drop_last(), severity) + if fs.last().severity == severity { finding_line(fs.last()) } else { seq![] }
    }
}

/// A section for the findings of one severity; nothing when there are none.
pub open spec fn findings_section(heading: Seq<char>, severity: Severity, fs: Seq<Finding>) -> Seq<char> {
    if count_severity(fs, severity) == 0 {
        seq![]
    } else {
        "### "@ + heading + "\n\n"@ + finding_lines(fs, severity) + "\n"@
    }
}

pub open spec fn page_part(page: Option<u32>) -> Seq<char> {
    match page {
        Some(p) => "Page `"@ + decimal(p as nat) + "`: "@,
        None => seq![],
    }
}

pub open spec fn object_part(object: Option<ObjectRef>) -> Seq<char> {
    match object {
        Some(r) => "Object `"@ + r.spec_text() + "`: "@,
        None => seq![],
    }
}

pub open spec fn offset_part(offset: Option<usize>) -> Seq<char> {
    match offset {
        Some(o) => " Byte offset `"@ + decimal(o as nat) + "`."@,
        None => seq![],
    }
}

fn push_page_part(markdown: &mut String, page: Option<u32>)
    ensures
        final(markdown)@ == old(markdown)@ + page_part(page),
{
    match page {
        Some(p) => {
            push_str(markdown, "Page `");
            push_decimal(markdown, p as usize);
            push_str(markdown, "`: ");
            assert(final(markdown)@ =~= old(markdown)@ + page_part(page));
        },
        None => {
            assert(old(markdown)@ + page_part(page) =~= old(markdown)@);
        },
    }
}

fn push_object_part(markdown: &mut String, object: Option<ObjectRef>)
    ensures
        final(markdown)@ == old(markdown)@ + object_part(object),
{
    match object {
        Some(r) => {
            push_str(markdown, "Object `");
            let t = r.to_text();
            push_str(markdown, t.as_str());
            push_str(markdown, "`: ");
            assert(final(markdown)@ =~= old(markdown)@ + object_part(object));
        },
        None => {
            assert(old(markdown)@ + object_part(object) =~= old(markdown)@);
        },
    }
}

fn push_offset_part(markdown: &mut String, offset: Option<usize>)
    ensures
        final(markdown)@ == old(markdown)@ + offset_part(offset),
{
    match offset {
        Some(o) => {
            push_str(markdown, " Byte offset `");
            push_decimal(markdown, o);
            push_str(markdown, "`.");
            assert(final(markdown)@ =~= old(markdown)@ + offset_part(offset));
        },
        None => {
            assert(old(markdown)@ + offset_part(offset) =~= old(markdown)@);
        },
    }
}

fn push_finding_line(markdown: &mut String, finding: &Finding)
    ensures
        final(markdown)@ == old(markdown)@ + finding_line(*finding),
{
    push_str(markdown, "- ");
    push_page_part(markdown, finding.page);
    push_object_part(markdown, finding.object);
    push_str(markdown, finding.message.as_str());
    push_offset_part(markdown, finding.byte_offset);
    push_str(markdown, "\n");
    assert(final(markdown)@ =~= old(markdown)@ + finding_line(*finding));
}

/// Appends the section of the findings of one severity, if there are any.
pub fn push_findings_section(markdown: &mut String, heading: &str, severity: Severity, findings: &[Finding])
    ensures
        final(markdown)@ == old(markdown)@ + findings_section(heading@, severity, findings@),
{
    let mut any = false;
    let mut i: usize = 0;
    while i < findings.len()
        invariant
            i <= findings@.len(),
            any == (count_severity(findings@.take(i as int), severity) > 0),
        decreases findings@.len() - i,
    {
        assert(findings@.take(i + 1).drop_last() =~= findings@.take(i as int));
        if findings[i].severity == severity {
            any = true;
        }
        i = i + 1;
    }
    assert(findings@.take(findings@.len() as int) =~= findings@);
    if !any {
        assert(findings_section(heading@, severity, findings@) =~= Seq::<char>::empty());
        return;
    }
    let ghost start = markdown@;
    push_str(markdown, "### ");
    push_str(markdown, heading);
    push_str(markdown, "\n\n");
    let ghost mark = markdown@;
    let mut k: usize = 0;
    while k < findings.len()
        invariant
            k <= findings@.len(),
            markdown@ == mark + finding_lines(findings@.take(k as int), severity),
        decreases findings@.len() - k,
    {
        assert(findings@.take(k + 1).drop_last() =~= findings@.take(k as int));
        assert(findings@.take(k + 1).last() == findings@[k as int]);
        if findings[k].severity == severity {
            push_finding_line(markdown, &findings[k]);
        }
        assert(markdown@ =~= mark + finding_lines(findings@.take(k + 1), severity));
        k = k + 1;
    }
    push_str(markdown, "\n");
    assert(markdown@ =~= start + findings_section(heading@, severity, findings@));
}

/// The first eight findings' next steps as list items, or `fallback` when
/// there are no findings.
pub open spec fn next_steps(fs: Seq<Finding>, fallback: Seq<char>) -> Seq<char> {
    if fs.len() == 0 { fallback } else { step_lines(fs.take(if fs.len() < 8 { fs.len() as int } else { 8 })) }
}

pub open spec fn step_lines(fs: Seq<Finding>) -> Seq<char>
    decreases fs.len(),
{
    if fs.len() == 0 { seq![] } else { step_lines(fs.drop_last()) + "- "@ + fs.last().suggested_next_step@ + "\n"@ }
}

fn push_next_steps(markdown: &mut String, findings: &[Finding], fallback: &str)
    ensures
        final(markdown)@ == old(markdown)@ + next_steps(findings@, fallback@),
{
    let ghost start = markdown@;
    let shown: usize = if findings.len() < 8 { findings.len() } else { 8 };
    let mut k: usize = 0;
    while k < shown
        invariant
            k <= shown <= findings@.len(),
            shown == if findings@.len() < 8 { findings@.len() } else { 8 },
            markdown@ == start + step_lines(findings@.take(k as int)),
        decreases shown - k,
    {
        assert(findings@.take(k + 1).drop_last() =~= findings@.take(k as int));
        assert(findings@.take(k + 1).last() == findings@[k as int]);
        push_str(markdown, "- ");
        push_str(markdown, findings[k].suggested_next_step.as_str());
        push_str(markdown, "\n");
        assert(markdown@ =~= start + step_lines(findings@.take(k + 1)));
        k = k + 1;
    }
    if shown == 0 {
        push_str(markdown, fallback);
        assert(markdown@ =~= start + next_steps(findings@, fallback@));
    } else {
        assert(markdown@ =~= start + next_steps(findings@, fallback@));
    }
}

/// "PDF version: ..." with "unknown" for no version.
pub open spec fn version_text(v: Option<String>) -> Seq<char> {
    match v {
        Some(s) => s@,
        None => "unknown"@,
    }
}

/// A page count, or "unknown".
pub open spec fn count_text(c: Option<u32>) -> Seq<char> {
    match c {
        Some(n) => decimal(n as nat),
        None => "unknown"@,
    }
}

fn push_version(markdown: &mut String, v: &Option<String>)
    ensures
        final(markdown)@ == old(markdown)@ + version_text(*v),
{
    match v {
        Some(s) => push_str(markdown, s.as_str()),
        None => push_str(markdown, "unknown"),
    }
}

fn push_count(markdown: &mut String, c: Option<u32>)
    ensures
        final(markdown)@ == old(markdown)@ + count_text(c),
{
    match c {
        Some(n) => push_decimal(markdown, n as usize),
        None => push_str(markdown, "unknown"),
    }
}

/// The Markdown of a full-parse report.
pub open spec fn markdown_report(r: DebugReport) -> Seq<char> {
    let f = r.file;
    "## PDF Debug Report\n\n"@
        + "File: `"@ + f.file_name@ + "`\n"@
        + "PDF version: "@ + version_text(f.pdf_version) + "\n"@
        + "Pages: "@ + count_text(f.page_count) + "\n"@
        + "Encrypted: "@ + yes_no_text(f.encrypted) + "\n"@
        + "Linearized: "@ + yes_no_text(f.linearized) + "\n"@
        + "Incremental updates: "@ + decimal(f.incremental_update_count as nat) + "\n"@
        + "Objects: "@ + decimal(f.object_count as nat) + "\n"@
        + "Streams: "@ + decimal(f.stream_count as nat) + "\n\n"@
        + findings_section("Errors"@, Severity::Error, r.findings@)
        + findings_section("Warnings"@, Severity::Warning, r.findings@)
        + findings_section("Info"@, Severity::Info, r.findings@)
        + "### Suggested Next Steps\n\n"@
        + next_steps(r.findings@, "- No diagnostics were emitted. Keep this report with the fixture for regression tracking.\n"@)
}

/// Renders a report as Markdown: file facts, findings by severity, and the
/// first next steps.
pub fn render_markdown_report(report: &DebugReport) -> (markdown: String)
    ensures
        markdown@ == markdown_report(*report),
{
    let file = &report.file;
    let mut markdown = String::new();
    push_str(&mut markdown, "## PDF Debug Report\n\n");
    push_str(&mut markdown, "File: `");
    push_str(&mut markdown, file.file_name.as_str());
    push_str(&mut markdown, "`\n");
    push_str(&mut markdown, "PDF version: ");
    push_version(&mut markdown, &file.pdf_version);
    push_str(&mut markdown, "\n");
    push_str(&mut markdown, "Pages: ");
    push_count(&mut markdown, file.page_count);
    push_str(&mut markdown, "\n");
    push_str(&mut markdown, "Encrypted: ");
    push_str(&mut markdown, yes_no(file.encrypted));
    push_str(&mut markdown, "\n");
    push_str(&mut markdown, "Linearized: ");
    push_str(&mut markdown, yes_no(file.linearized));
    push_str(&mut markdown, "\n");
    push_str(&mut markdown, "Incremental updates: ");
    push_decimal(&mut markdown, file.incremental_update_count);
    push_str(&mut markdown, "\n");
    push_str(&mut markdown, "Objects: ");
    push_decimal(&mut markdown, file.object_count);
    push_str(&mut markdown, "\n");
    push_str(&mut markdown, "Streams: ");
    push_decimal(&mut markdown, file.stream_count);
    push_str(&mut markdown, "\n\n");
    let ghost head = markdown@;
    push_findings_section(&mut markdown, "Errors", Severity::Error, report.findings.as_slice());
    push_findings_section(&mut markdown, "Warnings", Severity::Warning, report.findings.as_slice());
    push_findings_section(&mut markdown, "Info", Severity::Info, report.findings.as_slice());
    push_str(&mut markdown, "### Suggested Next Steps\n\n");
    push_next_steps(
        &mut markdown,
        report.findings.as_slice(),
        "- No diagnostics were emitted. Keep this report with the fixture for regression tracking.\n",
    );
    assert(markdown@ =~= markdown_report(*report));
    markdown
}


/// Two metadata records hold the same facts.
pub open spec fn same_metadata(a: PdfMetadata, b: PdfMetadata) -> bool {
    &&& a.file_name@ == b.file_name@
    &&& a.file_size == b.file_size
    &&& (match (a.pdf_version, b.pdf_version) {
        (Some(x), Some(y)) => x@ == y@,
        (None, None) => true,
        _ => false,
    })
    &&& a.page_count == b.page_count
    &&& a.encrypted == b.encrypted
    &&& a.linearized == b.linearized
    &&& a.incremental_update_count == b.incremental_update_count
    &&& a.root == b.root
    &&& a.info == b.info
    &&& string_views(a.trailer_keys@) == string_views(b.trailer_keys@)
    &&& a.info_summary@.map_values(|e: (String, String)| (e.0@, e.1@)) == b.info_summary@.map_values(|e: (String, String)| (e.0@, e.1@))
    &&& a.object_count == b.object_count
    &&& a.stream_count == b.stream_count
    &&& a.xref_entry_count == b.xref_entry_count
    &&& a.has_xref_stream == b.has_xref_stream
    &&& a.has_object_stream == b.has_object_stream
    &&& a.parse_warning_count == b.parse_warning_count
}

pub(crate) fn copy_metadata(m: &PdfMetadata) -> (r: PdfMetadata)
    ensures
        same_metadata(r, *m),
{
    let pdf_version = match &m.pdf_version {
        Some(v) => Some(owned(v.as_str())),
        None => None,
    };
    let trailer_keys = crate::stream_decode::copy_strings(m.trailer_keys.as_slice());
    let mut info_summary: Vec<(String, String)> = Vec::new();
    let mut k: usize = 0;
    while k < m.info_summary.len()
        invariant
            k <= m.info_summary@.len(),
            info_summary@.map_values(|e: (String, String)| (e.0@, e.1@))
                == m.info_summary@.take(k as int).map_values(|e: (String, String)| (e.0@, e.1@)),
        decreases m.info_summary@.len() - k,
    {
        let ghost before = info_summary@;
        info_summary.push((owned(m.info_summary[k].0.as_str()), owned(m.info_summary[k].1.as_str())));
        assert(info_summary@.map_values(|e: (String, String)| (e.0@, e.1@))
            =~= before.map_values(|e: (String, String)| (e.0@, e.1@)).push((m.info_summary@[k as int].0@, m.info_summary@[k as int].1@)));
        assert(m.info_summary@.take(k + 1).map_values(|e: (String, String)| (e.0@, e.1@))
            =~= m.info_summary@.take(k as int).map_values(|e: (String, String)| (e.0@, e.1@)).push((m.info_summary@[k as int].0@, m.info_summary@[k as int].1@)));
        k = k + 1;
    }
    assert(m.info_summary@.take(m.info_summary@.len() as int) =~= m.info_summary@);
    PdfMetadata {
        file_name: owned(m.file_name.as_str()),
        file_size: m.file_size,
        pdf_version,
        page_count: m.page_count,
        encrypted: m.encrypted,
        linearized: m.linearized,
        incremental_update_count: m.incremental_update_count,
        root: m.root,
        info: m.info,
        trailer_keys,
        info_summary,
        object_count: m.object_count,
        stream_count: m.stream_count,
        xref_entry_count: m.xref_entry_count,
        has_xref_stream: m.has_xref_stream,
        has_object_stream: m.has_object_stream,
        parse_warning_count: m.parse_warning_count,
    }
}

/// Builds a report from a parsed document and its findings.
pub fn build_report(pdf: &ParsedPdf, findings: Vec<Finding>) -> (r: DebugReport)
    ensures
        r.schema_version@ == REPORT_SCHEMA_VERSION@,
        same_metadata(r.file, pdf.metadata),
        r.diagnostics.errors == count_severity(findings@, Severity::Error),
        r.diagnostics.warnings == count_severity(findings@, Severity::Warning),
        r.diagnostics.info == count_severity(findings@, Severity::Info),
        r.findings@ == findings@,
{
    let diagnostics = DiagnosticSummary::from_findings(findings.as_slice());
    DebugReport { schema_version: owned(REPORT_SCHEMA_VERSION), file: copy_metadata(&pdf.metadata), diagnostics, findings }
}

/// The strings as list items.
pub open spec fn bullet_lines(items: Seq<Seq<char>>) -> Seq<char>
    decreases items.len(),
{
    if items.len() == 0 { seq![] } else { bullet_lines(items.drop_last()) + "- "@ + items.last() + "\n"@ }
}

fn push_bullets(markdown: &mut String, items: &Vec<String>)
    ensures
        final(markdown)@ == old(markdown)@ + bullet_lines(string_views(items@)),
{
    let ghost start = markdown@;
    let mut k: usize = 0;
    while k < items.len()
        invariant
            k <= items@.len(),
            markdown@ == start + bullet_lines(string_views(items@.take(k as int))),
        decreases items@.len() - k,
    {
        assert(string_views(items@.take(k + 1)).drop_last() =~= string_views(items@.take(k as int)));
        assert(string_views(items@.take(k + 1)).last() == items@[k as int]@);
        push_str(markdown, "- ");
        push_str(markdown, items[k].as_str());
        push_str(markdown, "\n");
        assert(markdown@ =~= start + bullet_lines(string_views(items@.take(k + 1))));
        k = k + 1;
    }
    assert(items@.take(items@.len() as int) =~= items@);
}

/// The details as list items `name: value`.
pub open spec fn detail_lines(ds: Seq<LazyEnrichmentDetail>) -> Seq<char>
    decreases ds.len(),
{
    if ds.len() == 0 { seq![] } else { detail_lines(ds.drop_last()) + "- "@ + ds.last().name@ + ": "@ + ds.last().value@ + "\n"@ }
}

/// A labelled list, or nothing when it is empty.
pub open spec fn labelled(label: Seq<char>, len: nat, lines: Seq<char>) -> Seq<char> {
    if len == 0 { seq![] } else { label + lines + "\n"@ }
}

/// The title lines of an enrichment's section.
pub open spec fn enrichment_title(e: LazyReportEnrichment) -> Seq<char> {
    "#### "@ + e.target@ + " ("@ + e.scope@ + ")\n\n"@
        + "Partial: "@ + yes_no_text(e.partial) + "\n\n"@
        + e.summary@ + "\n\n"@
}

/// The lists of an enrichment's section.
pub open spec fn enrichment_lists(e: LazyReportEnrichment) -> Seq<char> {
    labelled("Details:\n\n"@, e.details@.len(), detail_lines(e.details@))
        + labelled("Warnings:\n\n"@, e.warnings@.len(), bullet_lines(string_views(e.warnings@)))
        + labelled("Limitations:\n\n"@, e.limitations@.len(), bullet_lines(string_views(e.limitations@)))
}

/// One enrichment's section.
pub open spec fn enrichment_text(e: LazyReportEnrichment) -> Seq<char> {
    enrichment_title(e) + enrichment_lists(e)
        + findings_section("Enrichment Errors"@, Severity::Error, e.findings@)
        + findings_section("Enrichment Warnings"@, Severity::Warning, e.findings@)
        + findings_section("Enrichment Info"@, Severity::Info, e.findings@)
}

pub open spec fn enrichments_text(es: Seq<LazyReportEnrichment>) -> Seq<char>
    decreases es.len(),
{
    if es.len() == 0 { seq![] } else { enrichments_text(es.drop_last()) + enrichment_text(es.last()) }
}

fn push_enrichment_title(markdown: &mut String, e: &LazyReportEnrichment)
    ensures
        final(markdown)@ == old(markdown)@ + enrichment_title(*e),
{
    push_str(markdown, "#### ");
    push_str(markdown, e.target.as_str());
    push_str(markdown, " (");
    push_str(markdown, e.scope.as_str());
    push_str(markdown, ")\n\n");
    push_str(markdown, "Partial: ");
    push_str(markdown, yes_no(e.partial));
    push_str(markdown, "\n\n");
    push_str(markdown, e.summary.as_str());
    push_str(markdown, "\n\n");
    assert(final(markdown)@ =~= old(markdown)@ + enrichment_title(*e));
}

fn push_details(markdown: &mut String, details: &Vec<LazyEnrichmentDetail>)
    ensures
        final(markdown)@ == old(markdown)@ + labelled("Details:\n\n"@, details@.len(), detail_lines(details@)),
{
    let ghost a = markdown@;
    if details.len() > 0 {
        push_str(markdown, "Details:\n\n");
        let ghost m0 = markdown@;
        let mut k: usize = 0;
        while k < details.len()
            invariant
                k <= details@.len(),
                markdown@ == m0 + detail_lines(details@.take(k as int)),
            decreases details@.len() - k,
        {
            assert(details@.take(k + 1).drop_last() =~= details@.take(k as int));
            assert(details@.take(k + 1).last() == details@[k as int]);
            push_str(markdown, "- ");
            push_str(markdown, details[k].name.as_str());
            push_str(markdown, ": ");
            push_str(markdown, details[k].value.as_str());
            push_str(markdown, "\n");
            assert(markdown@ =~= m0 + detail_lines(details@.take(k + 1)));
            k = k + 1;
        }
        assert(details@.take(details@.len() as int) =~= details@);
        push_str(markdown, "\n");
    }
    assert(markdown@ =~= a + labelled("Details:\n\n"@, details@.len(), detail_lines(details@)));
}

fn push_labelled_bullets(markdown: &mut String, label: &str, items: &Vec<String>)
    ensures
        final(markdown)@ == old(markdown)@ + labelled(label@, items@.len(), bullet_lines(string_views(items@))),
{
    let ghost a = markdown@;
    if items.len() > 0 {
        push_str(markdown, label);
        push_bullets(markdown, items);
        push_str(markdown, "\n");
    }
    assert(markdown@ =~= a + labelled(label@, items@.len(), bullet_lines(string_views(items@))));
}

fn push_enrichment(markdown: &mut String, e: &LazyReportEnrichment)
    ensures
        final(markdown)@ == old(markdown)@ + enrichment_text(*e),
{
    let ghost start = markdown@;
    push_enrichment_title(markdown, e);
    push_details(markdown, &e.details);
    push_labelled_bullets(markdown, "Warnings:\n\n", &e.warnings);
    push_labelled_bullets(markdown, "Limitations:\n\n", &e.limitations);
    push_findings_section(markdown, "Enrichment Errors", Severity::Error, e.findings.as_slice());
    push_findings_section(markdown, "Enrichment Warnings", Severity::Warning, e.findings.as_slice());
    push_findings_section(markdown, "Enrichment Info", Severity::Info, e.findings.as_slice());
    assert(markdown@ =~= start + enrichment_text(*e));
}

/// The opening of a lazy report's header.
pub open spec fn lazy_header_top(r: LazyDebugReport) -> Seq<char> {
    let f = r.file;
    let has = r.enrichments@.len() > 0;
    "## PDF Lazy Debug Report\n\n"@
        + (if has { "> Lazy report. Fast diagnostics plus selected deep diagnostics enrichment.\n\n"@ } else { "> Lazy report. Fast diagnostics only. Deep diagnostics deferred.\n\n"@ })
        + "File: `"@ + f.file_name@ + "`\n"@
        + "File size: "@ + decimal(f.file_size as nat) + " bytes\n"@
        + "PDF version: "@ + version_text(f.pdf_version) + "\n"@
        + "Open mode: `lazy`\n"@
        + (if has { "Scope: fast diagnostics plus selected target enrichments\n"@ } else { "Scope: fast diagnostics only\n"@ })
}

/// The document facts of a lazy report's header.
/// One `label: value` line of a report header.
pub open spec fn fact_line(label: Seq<char>, value: Seq<char>) -> Seq<char> {
    label + value + "\n"@
}

/// The document facts of a lazy report header: first what the trailer
/// says of it, then what the index counts.
pub open spec fn lazy_trailer_facts(r: LazyDebugReport) -> Seq<char> {
    let f = r.file;
    fact_line("Pages: "@, count_text(f.page_count)) + fact_line("Encrypted: "@, yes_no_text(f.encrypted))
        + fact_line("Linearized: "@, yes_no_text(f.linearized))
        + fact_line("Incremental updates: "@, decimal(f.incremental_update_count as nat))
        + fact_line("Root: "@, optional_ref_text(f.root)) + fact_line("Info: "@, optional_ref_text(f.info))
}

pub open spec fn lazy_count_facts(r: LazyDebugReport) -> Seq<char> {
    let f = r.file;
    fact_line("Xref entries: "@, decimal(f.xref_entry_count as nat)) + fact_line("Objects: "@, decimal(f.object_count as nat))
        + "Streams: "@ + decimal(f.stream_count as nat) + " (metadata only in lazy report)\n\n"@
}

pub open spec fn lazy_header_facts(r: LazyDebugReport) -> Seq<char> {
    lazy_trailer_facts(r) + lazy_count_facts(r)
}

/// The header of a lazy report.
pub open spec fn lazy_header(r: LazyDebugReport) -> Seq<char> {
    lazy_header_top(r) + lazy_header_facts(r)
}

/// The scope and deferred parts of a lazy report.
pub open spec fn lazy_scope(r: LazyDebugReport) -> Seq<char> {
    let has = r.enrichments@.len() > 0;
    "### Lazy Report Scope\n\n"@
        + "- This report was generated from metadata-only lazy open data, lazy page metadata, and lazy fast diagnostics.\n"@
        + "- It does not full-parse the PDF, scan all indirect objects, read all stream bytes, decode all streams, or extract page objects.\n"@
        + "- Deep diagnostics are deferred and should be run on demand or against a smaller repro PDF.\n\n"@
        + "### Deferred Deep Diagnostics\n\n"@
        + (if has { "The selected enrichment target(s) below were run on demand. Other unrequested deep diagnostics remain deferred.\n\n"@ } else { seq![] })
        + bullet_lines(string_views(r.deferred_deep_diagnostics@)) + "\n"@
        + (if has { "### Deep Diagnostics Enrichment\n\n"@ + enrichments_text(r.enrichments@) } else { seq![] })
}

/// The Markdown of a lazy report.
pub open spec fn lazy_markdown_report(r: LazyDebugReport) -> Seq<char> {
    lazy_header(r) + lazy_scope(r)
        + "### Diagnostic Summary\n\n"@
        + "- Errors: "@ + decimal(r.diagnostics.errors as nat) + "\n"@
        + "- Warnings: "@ + decimal(r.diagnostics.warnings as nat) + "\n"@
        + "- Info: "@ + decimal(r.diagnostics.info as nat) + "\n\n"@
        + findings_section("Errors"@, Severity::Error, r.findings@)
        + findings_section("Warnings"@, Severity::Warning, r.findings@)
        + findings_section("Info"@, Severity::Info, r.findings@)
        + "### Suggested Next Steps\n\n"@
        + next_steps(r.findings@, "- No lazy fast diagnostics findings were emitted. Keep this report with the fixture for regression tracking.\n"@)
}

fn push_lazy_header_top(markdown: &mut String, report: &LazyDebugReport)
    ensures
        final(markdown)@ == old(markdown)@ + lazy_header_top(*report),
{
    let file = &report.file;
    let has = report.enrichments.len() > 0;
    push_str(markdown, "## PDF Lazy Debug Report\n\n");
    if has {
        push_str(markdown, "> Lazy report. Fast diagnostics plus selected deep diagnostics enrichment.\n\n");
    } else {
        push_str(markdown, "> Lazy report. Fast diagnostics only. Deep diagnostics deferred.\n\n");
    }
    push_str(markdown, "File: `");
    push_str(markdown, file.file_name.as_str());
    push_str(markdown, "`\n");
    push_str(markdown, "File size: ");
    push_decimal(markdown, file.file_size);
    push_str(markdown, " bytes\n");
    push_str(markdown, "PDF version: ");
    push_version(markdown, &file.pdf_version);
    push_str(markdown, "\n");
    push_str(markdown, "Open mode: `lazy`\n");
    if has {
        push_str(markdown, "Scope: fast diagnostics plus selected target enrichments\n");
    } else {
        push_str(markdown, "Scope: fast diagnostics only\n");
    }
    assert(final(markdown)@ =~= old(markdown)@ + lazy_header_top(*report));
}

fn push_fact(markdown: &mut String, label: &str, value: &str)
    ensures
        final(markdown)@ == old(markdown)@ + fact_line(label@, value@),
{
    push_str(markdown, label);
    push_str(markdown, value);
    push_str(markdown, "\n");
    assert(final(markdown)@ =~= old(markdown)@ + fact_line(label@, value@));
}

fn count_string(c: Option<u32>) -> (s: String)
    ensures
        s@ == count_text(c),
{
    let mut s = String::new();
    push_count(&mut s, c);
    assert(s@ =~= count_text(c));
    s
}

fn push_lazy_trailer_facts(markdown: &mut String, report: &LazyDebugReport)
    ensures
        final(markdown)@ == old(markdown)@ + lazy_trailer_facts(*report),
{
    let file = &report.file;
    let ghost m0 = markdown@;
    let pages = count_string(file.page_count);
    push_fact(markdown, "Pages: ", pages.as_str());
    push_fact(markdown, "Encrypted: ", yes_no(file.encrypted));
    push_fact(markdown, "Linearized: ", yes_no(file.linearized));
    let updates = decimal_string(file.incremental_update_count);
    push_fact(markdown, "Incremental updates: ", updates.as_str());
    let root = optional_ref(file.root);
    push_fact(markdown, "Root: ", root.as_str());
    let info = optional_ref(file.info);
    push_fact(markdown, "Info: ", info.as_str());
    assert(markdown@ =~= m0 + lazy_trailer_facts(*report));
}

fn push_lazy_count_facts(markdown: &mut String, report: &LazyDebugReport)
    ensures
        final(markdown)@ == old(markdown)@ + lazy_count_facts(*report),
{
    let file = &report.file;
    let ghost m0 = markdown@;
    let entries = decimal_string(file.xref_entry_count);
    push_fact(markdown, "Xref entries: ", entries.as_str());
    let objects = decimal_string(file.object_count);
    push_fact(markdown, "Objects: ", objects.as_str());
    push_str(markdown, "Streams: ");
    push_decimal(markdown, file.stream_count);
    push_str(markdown, " (metadata only in lazy report)\n\n");
    assert(markdown@ =~= m0 + lazy_count_facts(*report));
}

fn push_lazy_header_facts(markdown: &mut String, report: &LazyDebugReport)
    ensures
        final(markdown)@ == old(markdown)@ + lazy_header_facts(*report),
{
    push_lazy_trailer_facts(markdown, report);
    push_lazy_count_facts(markdown, report);
    assert(final(markdown)@ =~= old(markdown)@ + lazy_header_facts(*report));
}

fn push_lazy_header(markdown: &mut String, report: &LazyDebugReport)
    ensures
        final(markdown)@ == old(markdown)@ + lazy_header(*report),
{
    push_lazy_header_top(markdown, report);
    push_lazy_header_facts(markdown, report);
    assert(final(markdown)@ =~= old(markdown)@ + lazy_header(*report));
}

fn push_lazy_scope(markdown: &mut String, report: &LazyDebugReport)
    ensures
        final(markdown)@ == old(markdown)@ + lazy_scope(*report),
{
    let has = report.enrichments.len() > 0;
    push_str(markdown, "### Lazy Report Scope\n\n");
    push_str(markdown, "- This report was generated from metadata-only lazy open data, lazy page metadata, and lazy fast diagnostics.\n");
    push_str(markdown, "- It does not full-parse the PDF, scan all indirect objects, read all stream bytes, decode all streams, or extract page objects.\n");
    push_str(markdown, "- Deep diagnostics are deferred and should be run on demand or against a smaller repro PDF.\n\n");
    push_str(markdown, "### Deferred Deep Diagnostics\n\n");
    let ghost a = markdown@;
    if has {
        push_str(markdown, "The selected enrichment target(s) below were run on demand. Other unrequested deep diagnostics remain deferred.\n\n");
    }
    push_bullets(markdown, &report.deferred_deep_diagnostics);
    push_str(markdown, "\n");
    let ghost b = markdown@;
    if has {
        push_str(markdown, "### Deep Diagnostics Enrichment\n\n");
        let ghost m0 = markdown@;
        let mut k: usize = 0;
        while k < report.enrichments.len()
            invariant
                k <= report.enrichments@.len(),
                markdown@ == m0 + enrichments_text(report.enrichments@.take(k as int)),
            decreases report.enrichments@.len() - k,
        {
            assert(report.enrichments@.take(k + 1).drop_last() =~= report.enrichments@.take(k as int));
            assert(report.enrichments@.take(k + 1).last() == report.enrichments@[k as int]);
            push_enrichment(markdown, &report.enrichments[k]);
            assert(markdown@ =~= m0 + enrichments_text(report.enrichments@.take(k + 1)));
            k = k + 1;
        }
        assert(report.enrichments@.take(report.enrichments@.len() as int) =~= report.enrichments@);
    }
    assert(final(markdown)@ =~= old(markdown)@ + lazy_scope(*report));
}

/// Renders a lazy report as Markdown: file facts, the scope of a lazy
/// report, deferred and run deep diagnostics, counts, findings by severity,
/// and the first next steps.
pub fn render_lazy_markdown_report(report: &LazyDebugReport) -> (markdown: String)
    ensures
        markdown@ == lazy_markdown_report(*report),
{
    let mut markdown = String::new();
    push_lazy_header(&mut markdown, report);
    push_lazy_scope(&mut markdown, report);
    push_str(&mut markdown, "### Diagnostic Summary\n\n");
    push_str(&mut markdown, "- Errors: ");
    push_decimal(&mut markdown, report.diagnostics.errors);
    push_str(&mut markdown, "\n");
    push_str(&mut markdown, "- Warnings: ");
    push_decimal(&mut markdown, report.diagnostics.warnings);
    push_str(&mut markdown, "\n");
    push_str(&mut markdown, "- Info: ");
    push_decimal(&mut markdown, report.diagnostics.info);
    push_str(&mut markdown, "\n\n");
    push_findings_section(&mut markdown, "Errors", Severity::Error, report.findings.as_slice());
    push_findings_section(&mut markdown, "Warnings", Severity::Warning, report.findings.as_slice());
    push_findings_section(&mut markdown, "Info", Severity::Info, report.findings.as_slice());
    push_str(&mut markdown, "### Suggested Next Steps\n\n");
    push_next_steps(
        &mut markdown,
        report.findings.as_slice(),
        "- No lazy fast diagnostics findings were emitted. Keep this report with the fixture for regression tracking.\n",
    );
    assert(markdown@ =~= lazy_markdown_report(*report));
    markdown
}

// ---------------------------------------------------------------------------
// What a rendered report holds
// ---------------------------------------------------------------------------

/// `t` occurs in `s`.
pub open spec fn contains_text(s: Seq<char>, t: Seq<char>) -> bool {
    exists|i: int| 0 <= i && i + t.len() <= s.len() && #[trigger] s.subrange(i, i + t.len()) == t
}

/// `s` ends with `t`.
pub open spec fn ends_with_text(s: Seq<char>, t: Seq<char>) -> bool {
    t.len() <= s.len() && s.subrange(s.len() - t.len(), s.len() as int) == t
}

/// The heading line of a findings section.
pub open spec fn section_heading(heading: Seq<char>) -> Seq<char> {
    "### "@ + heading + "\n\n"@
}

proof fn lemma_contains_middle(a: Seq<char>, t: Seq<char>, b: Seq<char>)
    ensures
        contains_text(a + t + b, t),
{
    let s = a + t + b;
    assert(s.subrange(a.len() as int, (a.len() + t.len()) as int) =~= t);
}

proof fn lemma_ends_with(a: Seq<char>, t: Seq<char>)
    ensures
        ends_with_text(a + t, t),
{
    assert((a + t).subrange(a.len() as int, (a + t).len() as int) =~= t);
}

proof fn lemma_count_positive(fs: Seq<Finding>, sev: Severity, i: int)
    requires
        0 <= i < fs.len(),
        fs[i].severity == sev,
    ensures
        count_severity(fs, sev) > 0,
    decreases fs.len(),
{
    if i < fs.len() - 1 {
        assert(fs.drop_last()[i] == fs[i]);
        lemma_count_positive(fs.drop_last(), sev, i);
    }
}

proof fn lemma_section_shown(pre: Seq<char>, heading: Seq<char>, sev: Severity, fs: Seq<Finding>, post: Seq<char>)
    requires
        exists|i: int| 0 <= i < fs.len() && #[trigger] fs[i].severity == sev,
    ensures
        contains_text(pre + findings_section(heading, sev, fs) + post, section_heading(heading)),
{
    let i = choose|i: int| 0 <= i < fs.len() && #[trigger] fs[i].severity == sev;
    lemma_count_positive(fs, sev, i);
    let rest = finding_lines(fs, sev) + "\n"@ + post;
    assert(pre + findings_section(heading, sev, fs) + post =~= pre + section_heading(heading) + rest);
    lemma_contains_middle(pre, section_heading(heading), rest);
}

pub open spec fn has_severity(fs: Seq<Finding>, sev: Severity) -> bool {
    exists|i: int| 0 <= i < fs.len() && #[trigger] fs[i].severity == sev
}

/// A report shows a severity's section heading when it has a finding of
/// that severity, and ends with the suggested next steps: those of its
/// first eight findings, or the fallback line when it has none.
pub proof fn lemma_markdown_sections(r: DebugReport)
    ensures
        has_severity(r.findings@, Severity::Error) ==> contains_text(markdown_report(r), section_heading("Errors"@)),
        has_severity(r.findings@, Severity::Warning) ==> contains_text(markdown_report(r), section_heading("Warnings"@)),
        has_severity(r.findings@, Severity::Info) ==> contains_text(markdown_report(r), section_heading("Info"@)),
        ends_with_text(markdown_report(r), "### Suggested Next Steps\n\n"@
            + next_steps(r.findings@, "- No diagnostics were emitted. Keep this report with the fixture for regression tracking.\n"@)),
{
    let f = r.file;
    let fs = r.findings@;
    let head = "## PDF Debug Report\n\n"@
        + "File: `"@ + f.file_name@ + "`\n"@
        + "PDF version: "@ + version_text(f.pdf_version) + "\n"@
        + "Pages: "@ + count_text(f.page_count) + "\n"@
        + "Encrypted: "@ + yes_no_text(f.encrypted) + "\n"@
        + "Linearized: "@ + yes_no_text(f.linearized) + "\n"@
        + "Incremental updates: "@ + decimal(f.incremental_update_count as nat) + "\n"@
        + "Objects: "@ + decimal(f.object_count as nat) + "\n"@
        + "Streams: "@ + decimal(f.stream_count as nat) + "\n\n"@;
    let e = findings_section("Errors"@, Severity::Error, fs);
    let w = findings_section("Warnings"@, Severity::Warning, fs);
    let i = findings_section("Info"@, Severity::Info, fs);
    let tail = "### Suggested Next Steps\n\n"@
        + next_steps(fs, "- No diagnostics were emitted. Keep this report with the fixture for regression tracking.\n"@);
    let md = markdown_report(r);
    assert(md =~= head + e + (w + i + tail));
    assert(md =~= (head + e) + w + (i + tail));
    assert(md =~= (head + e + w) + i + tail);
    assert(md =~= (head + e + w + i) + tail);
    if has_severity(fs, Severity::Error) {
        lemma_section_shown(head, "Errors"@, Severity::Error, fs, w + i + tail);
    }
    if has_severity(fs, Severity::Warning) {
        lemma_section_shown(head + e, "Warnings"@, Severity::Warning, fs, i + tail);
    }
    if has_severity(fs, Severity::Info) {
        lemma_section_shown(head + e + w, "Info"@, Severity::Info, fs, tail);
    }
    lemma_ends_with(head + e + w + i, tail);
}

proof fn lemma_contains_extend(a: Seq<char>, t: Seq<char>, pre: Seq<char>, post: Seq<char>)
    requires
        contains_text(a, t),
    ensures
        contains_text(pre + a + post, t),
{
    let i = choose|i: int| 0 <= i && i + t.len() <= a.len() && #[trigger] a.subrange(i, i + t.len()) == t;
    let s = pre + a + post;
    assert(s.subrange(pre.len() + i, pre.len() + i + t.len()) =~= a.subrange(i, i + t.len()));
}

proof fn lemma_bullet_shown(items: Seq<Seq<char>>, k: int)
    requires
        0 <= k < items.len(),
    ensures
        contains_text(bullet_lines(items), "- "@ + items[k] + "\n"@),
    decreases items.len(),
{
    let prev = items.drop_last();
    let line = "- "@ + items[k] + "\n"@;
    assert(bullet_lines(items) =~= bullet_lines(prev) + "- "@ + items.last() + "\n"@);
    if k == items.len() - 1 {
        assert(bullet_lines(items) =~= bullet_lines(prev) + line + Seq::<char>::empty());
        lemma_contains_middle(bullet_lines(prev), line, Seq::<char>::empty());
    } else {
        assert(prev[k] == items[k]);
        lemma_bullet_shown(prev, k);
        assert(bullet_lines(items) =~= Seq::<char>::empty() + bullet_lines(prev) + ("- "@ + items.last() + "\n"@));
        lemma_contains_extend(bullet_lines(prev), line, Seq::<char>::empty(), "- "@ + items.last() + "\n"@);
    }
}

/// The counts lines of a report.
pub open spec fn counts_text(d: DiagnosticSummary) -> Seq<char> {
    "- Errors: "@ + decimal(d.errors as nat) + "\n"@ + "- Warnings: "@ + decimal(d.warnings as nat) + "\n"@
        + "- Info: "@ + decimal(d.info as nat) + "\n\n"@
}

/// The positions of the parts of a lazy report, on any texts: header,
/// scope, summary heading, the nine pieces of the counts lines, the three
/// sections and the two pieces of the next steps.
proof fn lemma_lazy_pieces(
    h: Seq<char>, sc: Seq<char>, s0: Seq<char>,
    a1: Seq<char>, a2: Seq<char>, a3: Seq<char>, a4: Seq<char>, a5: Seq<char>, a6: Seq<char>, a7: Seq<char>,
    a8: Seq<char>, a9: Seq<char>, e: Seq<char>, w: Seq<char>, i: Seq<char>, t1: Seq<char>, t2: Seq<char>,
)
    ensures
        ({
            let c = a1 + a2 + a3 + a4 + a5 + a6 + a7 + a8 + a9;
            let md = h + sc + s0 + a1 + a2 + a3 + a4 + a5 + a6 + a7 + a8 + a9 + e + w + i + t1 + t2;
            &&& contains_text(md, c)
            &&& ends_with_text(md, t1 + t2)
            &&& md == (h + sc + s0 + c) + e + (w + i + (t1 + t2))
            &&& md == (h + sc + s0 + c + e) + w + (i + (t1 + t2))
            &&& md == (h + sc + s0 + c + e + w) + i + (t1 + t2)
            &&& md == h + sc + (s0 + c + e + w + i + (t1 + t2))
        }),
{
    let c = a1 + a2 + a3 + a4 + a5 + a6 + a7 + a8 + a9;
    let t = t1 + t2;
    let md = h + sc + s0 + a1 + a2 + a3 + a4 + a5 + a6 + a7 + a8 + a9 + e + w + i + t1 + t2;
    let pre = h + sc + s0;
    assert(md =~= pre + c + (e + w + i + t));
    lemma_contains_middle(pre, c, e + w + i + t);
    assert(md =~= (pre + c + e + w + i) + t);
    lemma_ends_with(pre + c + e + w + i, t);
    assert(md =~= (pre + c) + e + (w + i + t));
    assert(md =~= (pre + c + e) + w + (i + t));
    assert(md =~= (pre + c + e + w) + i + t);
    assert(md =~= h + sc + (s0 + c + e + w + i + t));
}

/// The banner is the second piece of a lazy report's first header lines.
proof fn lemma_banner_piece(
    title: Seq<char>, banner: Seq<char>, q1: Seq<char>, q2: Seq<char>, q3: Seq<char>, q4: Seq<char>, q5: Seq<char>,
    q6: Seq<char>, q7: Seq<char>, q8: Seq<char>, q9: Seq<char>, q10: Seq<char>, q11: Seq<char>, rest: Seq<char>,
)
    ensures
        contains_text(title + banner + q1 + q2 + q3 + q4 + q5 + q6 + q7 + q8 + q9 + q10 + q11 + rest, banner),
{
    let md = title + banner + q1 + q2 + q3 + q4 + q5 + q6 + q7 + q8 + q9 + q10 + q11 + rest;
    assert(md =~= title + banner + (q1 + q2 + q3 + q4 + q5 + q6 + q7 + q8 + q9 + q10 + q11 + rest));
    lemma_contains_middle(title, banner, q1 + q2 + q3 + q4 + q5 + q6 + q7 + q8 + q9 + q10 + q11 + rest);
}

proof fn lemma_lazy_scope_parts(r: LazyDebugReport)
    ensures
        forall|k: int| 0 <= k < r.deferred_deep_diagnostics@.len() ==> contains_text(lazy_scope(r),
            "- "@ + #[trigger] r.deferred_deep_diagnostics@[k]@ + "\n"@),
        r.enrichments@.len() > 0 ==> contains_text(lazy_scope(r), "### Deep Diagnostics Enrichment\n\n"@),
{
    let has = r.enrichments@.len() > 0;
    let items = string_views(r.deferred_deep_diagnostics@);
    let s1 = "### Lazy Report Scope\n\n"@
        + "- This report was generated from metadata-only lazy open data, lazy page metadata, and lazy fast diagnostics.\n"@
        + "- It does not full-parse the PDF, scan all indirect objects, read all stream bytes, decode all streams, or extract page objects.\n"@
        + "- Deep diagnostics are deferred and should be run on demand or against a smaller repro PDF.\n\n"@
        + "### Deferred Deep Diagnostics\n\n"@
        + (if has { "The selected enrichment target(s) below were run on demand. Other unrequested deep diagnostics remain deferred.\n\n"@ } else { seq![] });
    let s3 = "\n"@ + (if has { "### Deep Diagnostics Enrichment\n\n"@ + enrichments_text(r.enrichments@) } else { seq![] });
    assert(lazy_scope(r) =~= s1 + bullet_lines(items) + s3);
    assert forall|k: int| 0 <= k < r.deferred_deep_diagnostics@.len() implies contains_text(lazy_scope(r),
        "- "@ + #[trigger] r.deferred_deep_diagnostics@[k]@ + "\n"@) by {
        assert(items[k] == r.deferred_deep_diagnostics@[k]@);
        lemma_bullet_shown(items, k);
        lemma_contains_extend(bullet_lines(items), "- "@ + items[k] + "\n"@, s1, s3);
    }
    if has {
        let head = "### Deep Diagnostics Enrichment\n\n"@;
        assert(lazy_scope(r) =~= (s1 + bullet_lines(items) + "\n"@) + head + enrichments_text(r.enrichments@));
        lemma_contains_middle(s1 + bullet_lines(items) + "\n"@, head, enrichments_text(r.enrichments@));
    }
}

/// A lazy report shows its counts, each deferred deep diagnostic as a
/// list item, the enrichment heading when it has enrichments and the
/// fast-only banner when it has none, a severity's section heading when it
/// has a finding of that severity, and ends with the suggested next steps.
pub proof fn lemma_lazy_markdown_parts(r: LazyDebugReport)
    ensures
        contains_text(lazy_markdown_report(r), counts_text(r.diagnostics)),
        forall|k: int| 0 <= k < r.deferred_deep_diagnostics@.len() ==> contains_text(lazy_markdown_report(r),
            "- "@ + #[trigger] r.deferred_deep_diagnostics@[k]@ + "\n"@),
        r.enrichments@.len() > 0 ==> contains_text(lazy_markdown_report(r), "### Deep Diagnostics Enrichment\n\n"@),
        r.enrichments@.len() == 0 ==> contains_text(lazy_markdown_report(r),
            "> Lazy report. Fast diagnostics only. Deep diagnostics deferred.\n\n"@),
        has_severity(r.findings@, Severity::Error) ==> contains_text(lazy_markdown_report(r), section_heading("Errors"@)),
        has_severity(r.findings@, Severity::Warning) ==> contains_text(lazy_markdown_report(r), section_heading("Warnings"@)),
        has_severity(r.findings@, Severity::Info) ==> contains_text(lazy_markdown_report(r), section_heading("Info"@)),
        ends_with_text(lazy_markdown_report(r), "### Suggested Next Steps\n\n"@ + next_steps(r.findings@,
            "- No lazy fast diagnostics findings were emitted. Keep this report with the fixture for regression tracking.\n"@)),
{
    let fs = r.findings@;
    let d = r.diagnostics;
    let h = lazy_header(r);
    let sc = lazy_scope(r);
    let s0 = "### Diagnostic Summary\n\n"@;
    let a1 = "- Errors: "@;
    let a2 = decimal(d.errors as nat);
    let a3 = "\n"@;
    let a4 = "- Warnings: "@;
    let a5 = decimal(d.warnings as nat);
    let a6 = "\n"@;
    let a7 = "- Info: "@;
    let a8 = decimal(d.info as nat);
    let a9 = "\n\n"@;
    let e = findings_section("Errors"@, Severity::Error, fs);
    let w = findings_section("Warnings"@, Severity::Warning, fs);
    let i = findings_section("Info"@, Severity::Info, fs);
    let t1 = "### Suggested Next Steps\n\n"@;
    let t2 = next_steps(fs, "- No lazy fast diagnostics findings were emitted. Keep this report with the fixture for regression tracking.\n"@);
    let md = lazy_markdown_report(r);
    assert(md == h + sc + s0 + a1 + a2 + a3 + a4 + a5 + a6 + a7 + a8 + a9 + e + w + i + t1 + t2);
    lemma_lazy_pieces(h, sc, s0, a1, a2, a3, a4, a5, a6, a7, a8, a9, e, w, i, t1, t2);
    let c = a1 + a2 + a3 + a4 + a5 + a6 + a7 + a8 + a9;
    assert(counts_text(d) == c);
    if has_severity(fs, Severity::Error) {
        lemma_section_shown(h + sc + s0 + c, "Errors"@, Severity::Error, fs, w + i + (t1 + t2));
    }
    if has_severity(fs, Severity::Warning) {
        lemma_section_shown(h + sc + s0 + c + e, "Warnings"@, Severity::Warning, fs, i + (t1 + t2));
    }
    if has_severity(fs, Severity::Info) {
        lemma_section_shown(h + sc + s0 + c + e + w, "Info"@, Severity::Info, fs, t1 + t2);
    }
    lemma_lazy_scope_parts(r);
    let post = s0 + c + e + w + i + (t1 + t2);
    assert forall|k: int| 0 <= k < r.deferred_deep_diagnostics@.len() implies contains_text(md,
        "- "@ + #[trigger] r.deferred_deep_diagnostics@[k]@ + "\n"@) by {
        lemma_contains_extend(sc, "- "@ + r.deferred_deep_diagnostics@[k]@ + "\n"@, h, post);
    }
    if r.enrichments@.len() > 0 {
        lemma_contains_extend(sc, "### Deep Diagnostics Enrichment\n\n"@, h, post);
    } else {
        let f = r.file;
        let banner = "> Lazy report. Fast diagnostics only. Deep diagnostics deferred.\n\n"@;
        let rest = lazy_header_facts(r) + sc + post;
        assert(md == lazy_header_top(r) + lazy_header_facts(r) + sc + post);
        assert(md =~= lazy_header_top(r) + rest);
        lemma_banner_piece("## PDF Lazy Debug Report\n\n"@, banner, "File: `"@, f.file_name@, "`\n"@, "File size: "@,
            decimal(f.file_size as nat), " bytes\n"@, "PDF version: "@, version_text(f.pdf_version), "\n"@, "Open mode: `lazy`\n"@,
            "Scope: fast diagnostics only\n"@, rest);
    }
}

} // verus!
