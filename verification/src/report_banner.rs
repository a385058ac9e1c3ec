//! Which banner a rendered lazy report can hold: when its text fields do
//! not spell the banner's first words, the fast-only banner appears
//! exactly when it has no enrichments.
use vstd::prelude::*;
use crate::pdf_model::{Finding, ObjectRef, Severity};
use crate::report::{
    LazyDebugReport, LazyEnrichmentDetail, LazyReportEnrichment, bullet_lines, contains_text, count_text, detail_lines,
    enrichment_lists, enrichment_text, enrichment_title, enrichments_text, fact_line, finding_line, finding_lines,
    findings_section, labelled, lazy_header, lazy_header_facts, lazy_header_top, lazy_markdown_report, lazy_scope,
    lemma_lazy_markdown_parts, next_steps, object_part, offset_part, optional_ref_text, page_part, step_lines, version_text,
    yes_no_text,
};
use crate::text::{decimal, string_views};

verus! {

/// `s` holds no `>`.
pub open spec fn gt_free(s: Seq<char>) -> bool {
    forall|i: int| 0 <= i < s.len() ==> s[i] != '>'
}


proof fn lemma_gt_free_concat(a: Seq<char>, b: Seq<char>)
    requires
        gt_free(a),
        gt_free(b),
    ensures
        gt_free(a + b),
{
    assert forall|i: int| 0 <= i < (a + b).len() implies (a + b)[i] != '>' by {
        if i >= a.len() {
            assert((a + b)[i] == b[i - a.len()]);
        }
    }
}


proof fn lemma_decimal_gt_free(n: nat)
    ensures
        gt_free(decimal(n)),
    decreases n,
{
    if n >= 10 {
        lemma_decimal_gt_free(n / 10);
        let d = decimal(n / 10);
        assert forall|i: int| 0 <= i < decimal(n).len() implies decimal(n)[i] != '>' by {
            if i < d.len() {
                assert(decimal(n)[i] == d[i]);
            }
        }
    }
}

proof fn lemma_ref_gt_free(r: ObjectRef)
    ensures
        gt_free(r.spec_text()),
{
    lemma_decimal_gt_free(r.object as nat);
    lemma_decimal_gt_free(r.generation as nat);
    lemma_gt_free_concat(decimal(r.object as nat), seq![' ']);
    lemma_gt_free_concat(decimal(r.object as nat) + seq![' '], decimal(r.generation as nat));
    lemma_gt_free_concat(decimal(r.object as nat) + seq![' '] + decimal(r.generation as nat), seq![' ', 'R']);
}

proof fn lemma_report_literals_gt()
    ensures
        gt_free("- "@),
        gt_free("\n"@),
        gt_free("\n\n"@),
        gt_free("Page `"@),
        gt_free("`: "@),
        gt_free("Object `"@),
        gt_free(" Byte offset `"@),
        gt_free("`."@),
        gt_free("yes"@),
        gt_free("no"@),
        gt_free("unknown"@),
        gt_free("File: `"@),
        gt_free("`\n"@),
        gt_free("PDF version: "@),
        gt_free("Pages: "@),
        gt_free("Encrypted: "@),
        gt_free("Linearized: "@),
        gt_free("Incremental updates: "@),
        gt_free("Objects: "@),
        gt_free("Streams: "@),
        gt_free("- No diagnostics were emitted. Keep this report with the fixture for regression tracking.\n"@),
{
    reveal_strlit("- ");
    reveal_strlit("\n");
    reveal_strlit("\n\n");
    reveal_strlit("Page `");
    reveal_strlit("`: ");
    reveal_strlit("Object `");
    reveal_strlit(" Byte offset `");
    reveal_strlit("`.");
    reveal_strlit("yes");
    reveal_strlit("no");
    reveal_strlit("unknown");
    reveal_strlit("File: `");
    reveal_strlit("`\n");
    reveal_strlit("PDF version: ");
    reveal_strlit("Pages: ");
    reveal_strlit("Encrypted: ");
    reveal_strlit("Linearized: ");
    reveal_strlit("Incremental updates: ");
    reveal_strlit("Objects: ");
    reveal_strlit("Streams: ");
    reveal_strlit("- No diagnostics were emitted. Keep this report with the fixture for regression tracking.\n");
}

/// The text fields a Markdown report shows of its findings.
// ---------------------------------------------------------------------------
// Texts that do not spell the start of a banner
// ---------------------------------------------------------------------------

/// The words both banners of a lazy report start with.
pub open spec fn lazy_marker() -> Seq<char> {
    "> Lazy report"@
}

/// `s` does not hold `> Lazy report`.
pub open spec fn marker_free(s: Seq<char>) -> bool {
    !contains_text(s, lazy_marker())
}

proof fn lemma_banner_start()
    ensures
        fast_only_banner().len() == 66,
        lazy_marker().len() == 13,
        forall|k: int| 0 <= k < 13 ==> fast_only_banner()[k] == #[trigger] lazy_marker()[k],
        fast_only_banner()[0] == '>',
        fast_only_banner()[1] == ' ',
        fast_only_banner()[2] == 'L',
        fast_only_banner()[3] == 'a',
        fast_only_banner()[4] == 'z',
        fast_only_banner()[5] == 'y',
        fast_only_banner()[6] == ' ',
        fast_only_banner()[7] == 'r',
        fast_only_banner()[8] == 'e',
        fast_only_banner()[9] == 'p',
        fast_only_banner()[10] == 'o',
        fast_only_banner()[11] == 'r',
        fast_only_banner()[12] == 't',
{
    reveal_strlit("> Lazy report. Fast diagnostics only. Deep diagnostics deferred.\n\n");
    reveal_strlit("> Lazy report");
}

/// Every `>` of `s` starts text that differs, inside `s`, from the
/// fast-only banner, or starts a piece of the banner's first words that
/// `s` ends with.
pub open spec fn banner_open(s: Seq<char>) -> bool {
    forall|i: int| 0 <= i < s.len() && #[trigger] s[i] == '>' ==> (exists|k: int|
        0 <= k < fast_only_banner().len() && i + k < s.len() && #[trigger] s[i + k] != fast_only_banner()[k])
        || (s.len() < i + 13 && forall|k: int| 0 <= k < s.len() - i ==> #[trigger] s[i + k] == fast_only_banner()[k])
}

proof fn lemma_marker_free_open(s: Seq<char>)
    requires
        marker_free(s),
    ensures
        banner_open(s),
{
    lemma_banner_start();
    let t = fast_only_banner();
    let m = lazy_marker();
    assert forall|i: int| 0 <= i < s.len() && #[trigger] s[i] == '>' implies (exists|k: int|
        0 <= k < t.len() && i + k < s.len() && #[trigger] s[i + k] != t[k])
        || (s.len() < i + 13 && forall|k: int| 0 <= k < s.len() - i ==> #[trigger] s[i + k] == t[k]) by {
        if !(exists|k: int| 0 <= k < t.len() && i + k < s.len() && #[trigger] s[i + k] != t[k]) {
            if i + 13 <= s.len() {
                assert forall|k: int| 0 <= k < 13 implies s.subrange(i, i + 13)[k] == m[k] by {
                    assert(s[i + k] == t[k]);
                }
                assert(s.subrange(i, i + 13) =~= m);
                assert(contains_text(s, m));
            } else {
                assert forall|k: int| 0 <= k < s.len() - i implies #[trigger] s[i + k] == t[k] by {
                    if s[i + k] != t[k] {
                        assert(i + k < s.len());
                    }
                }
            }
        }
    }
}

/// Appending text that may leave a banner's start open to text that
/// closes every banner it starts.
proof fn lemma_closed_open(a: Seq<char>, b: Seq<char>)
    requires
        banner_avoided(a),
        banner_open(b),
    ensures
        banner_open(a + b),
{
    let s = a + b;
    let t = fast_only_banner();
    assert forall|i: int| 0 <= i < s.len() && #[trigger] s[i] == '>' implies (exists|k: int|
        0 <= k < t.len() && i + k < s.len() && #[trigger] s[i + k] != t[k])
        || (s.len() < i + 13 && forall|k: int| 0 <= k < s.len() - i ==> #[trigger] s[i + k] == t[k]) by {
        if i < a.len() {
            assert(a[i] == s[i]);
            let k = choose|k: int| 0 <= k < t.len() && i + k < a.len() && #[trigger] a[i + k] != t[k];
            assert(s[i + k] == a[i + k]);
        } else {
            let j = i - a.len();
            assert(b[j] == s[i]);
            if exists|k: int| 0 <= k < t.len() && j + k < b.len() && #[trigger] b[j + k] != t[k] {
                let k = choose|k: int| 0 <= k < t.len() && j + k < b.len() && #[trigger] b[j + k] != t[k];
                assert(s[i + k] == b[j + k]);
            } else {
                assert forall|k: int| 0 <= k < s.len() - i implies #[trigger] s[i + k] == t[k] by {
                    assert(s[i + k] == b[j + k]);
                }
            }
        }
    }
}

/// `b` breaks off every piece of the banner's first words that text
/// before it could end with.
pub open spec fn breaks_marker(b: Seq<char>) -> bool {
    forall|j: int| 1 <= j <= 12 ==> #[trigger] breaks_at(b, j)
}

/// `b` differs, inside `b`, from the banner's first words read from `j` on.
pub open spec fn breaks_at(b: Seq<char>, j: int) -> bool {
    exists|k: int| 0 <= k < b.len() && j + k < 13 && #[trigger] b[k] != fast_only_banner()[j + k]
}

proof fn lemma_breaks_marker(b: Seq<char>)
    requires
        b.len() >= 1,
        b[0] != ' ' && b[0] != 'L' && b[0] != 'a' && b[0] != 'z' && b[0] != 'y' && b[0] != 'r' && b[0] != 'e'
            && b[0] != 'p' && b[0] != 'o' && b[0] != 't' || (b.len() >= 2 && b[0] == ' ' && b[1] != 'L' && b[1] != 'r'),
    ensures
        breaks_marker(b),
{
    lemma_banner_start();
    let t = fast_only_banner();
    assert forall|j: int| 1 <= j <= 12 implies #[trigger] breaks_at(b, j) by {
        if b[0] != t[j] {
            assert(b[0] != t[j + 0]);
        } else {
            assert(b[1] != t[j + 1]);
        }
    }
}

/// Text without `>` that breaks off the banner's first words closes what
/// the text before it left open.
proof fn lemma_open_break(a: Seq<char>, b: Seq<char>)
    requires
        banner_open(a),
        gt_free(b),
        breaks_marker(b),
    ensures
        banner_avoided(a + b),
{
    lemma_banner_start();
    let s = a + b;
    let t = fast_only_banner();
    assert forall|i: int| 0 <= i < s.len() && #[trigger] s[i] == '>' implies exists|k: int|
        0 <= k < t.len() && i + k < s.len() && #[trigger] s[i + k] != t[k] by {
        if i < a.len() {
            assert(a[i] == s[i]);
            if exists|k: int| 0 <= k < t.len() && i + k < a.len() && #[trigger] a[i + k] != t[k] {
                let k = choose|k: int| 0 <= k < t.len() && i + k < a.len() && #[trigger] a[i + k] != t[k];
                assert(s[i + k] == a[i + k]);
            } else {
                let j = a.len() - i;
                assert(breaks_at(b, j));
                let k = choose|k: int| 0 <= k < b.len() && j + k < 13 && #[trigger] b[k] != t[j + k];
                assert(s[i + (j + k)] == b[k]);
            }
        } else {
            assert(b[i - a.len()] == s[i]);
        }
    }
}

proof fn lemma_break_literals()
    ensures
        "`\n"@.len() == 2 && "`\n"@[0] == '`',
        "\n"@.len() == 1 && "\n"@[0] == '\n',
        "\n\n"@.len() == 2 && "\n\n"@[0] == '\n',
        ": "@.len() == 2 && ": "@[0] == ':',
        " ("@.len() == 2 && " ("@[0] == ' ' && " ("@[1] == '(',
        ")\n\n"@.len() == 3 && ")\n\n"@[0] == ')',
        " Byte offset `"@.len() > 2 && " Byte offset `"@[0] == ' ' && " Byte offset `"@[1] == 'B',
{
    reveal_strlit("`\n");
    reveal_strlit("\n");
    reveal_strlit("\n\n");
    reveal_strlit(": ");
    reveal_strlit(" (");
    reveal_strlit(")\n\n");
    reveal_strlit(" Byte offset `");
}

/// The findings' text fields that a Markdown report shows do not hold the
/// banner's first words.
pub open spec fn findings_marker_free(fs: Seq<Finding>) -> bool {
    forall|i: int| 0 <= i < fs.len() ==> marker_free((#[trigger] fs[i]).message@) && marker_free(fs[i].suggested_next_step@)
}

proof fn lemma_finding_line_avoided(f: Finding)
    requires
        marker_free(f.message@),
    ensures
        banner_avoided(finding_line(f)),
{
    lemma_report_literals_gt();
    lemma_break_literals();
    let pp = page_part(f.page);
    let op = object_part(f.object);
    let fp = offset_part(f.byte_offset);
    match f.page {
        Some(p) => {
            lemma_decimal_gt_free(p as nat);
            lemma_gt_free_concat("Page `"@, decimal(p as nat));
            lemma_gt_free_concat("Page `"@ + decimal(p as nat), "`: "@);
        },
        None => {},
    }
    match f.object {
        Some(r) => {
            lemma_ref_gt_free(r);
            lemma_gt_free_concat("Object `"@, r.spec_text());
            lemma_gt_free_concat("Object `"@ + r.spec_text(), "`: "@);
        },
        None => {},
    }
    lemma_gt_free_concat("- "@, pp);
    lemma_gt_free_concat("- "@ + pp, op);
    let pre = "- "@ + pp + op;
    lemma_gt_free_banner(pre);
    lemma_marker_free_open(f.message@);
    lemma_closed_open(pre, f.message@);
    lemma_breaks_marker("\n"@);
    match f.byte_offset {
        Some(o) => {
            lemma_decimal_gt_free(o as nat);
            lemma_gt_free_concat(" Byte offset `"@, decimal(o as nat));
            lemma_gt_free_concat(" Byte offset `"@ + decimal(o as nat), "`."@);
            assert(fp[0] == ' ' && fp[1] == 'B');
            lemma_breaks_marker(fp);
            lemma_open_break(pre + f.message@, fp);
            lemma_gt_free_banner("\n"@);
            lemma_banner_concat(pre + f.message@ + fp, "\n"@);
        },
        None => {
            assert(pre + f.message@ + fp =~= pre + f.message@);
            lemma_open_break(pre + f.message@ + fp, "\n"@);
        },
    }
}

proof fn lemma_finding_lines_avoided(fs: Seq<Finding>, sev: Severity)
    requires
        findings_marker_free(fs),
    ensures
        banner_avoided(finding_lines(fs, sev)),
    decreases fs.len(),
{
    if fs.len() > 0 {
        let prev = fs.drop_last();
        assert forall|i: int| 0 <= i < prev.len() implies marker_free((#[trigger] prev[i]).message@)
            && marker_free(prev[i].suggested_next_step@) by {
            assert(prev[i] == fs[i]);
        }
        lemma_finding_lines_avoided(prev, sev);
        assert(fs.last() == fs[fs.len() - 1]);
        if fs.last().severity == sev {
            lemma_finding_line_avoided(fs.last());
            lemma_banner_concat(finding_lines(prev, sev), finding_line(fs.last()));
        } else {
            assert(finding_lines(fs, sev) =~= finding_lines(prev, sev));
        }
    }
}

/// `- item` lines, each item followed by a line feed, close every banner
/// start.
proof fn lemma_item_line_avoided(before: Seq<char>, item: Seq<char>)
    requires
        banner_avoided(before),
        marker_free(item),
    ensures
        banner_avoided(before + "- "@ + item + "\n"@),
{
    lemma_report_literals_gt();
    lemma_break_literals();
    lemma_gt_free_banner("- "@);
    lemma_banner_concat(before, "- "@);
    lemma_marker_free_open(item);
    lemma_closed_open(before + "- "@, item);
    lemma_breaks_marker("\n"@);
    lemma_open_break(before + "- "@ + item, "\n"@);
}

proof fn lemma_step_lines_avoided(fs: Seq<Finding>)
    requires
        findings_marker_free(fs),
    ensures
        banner_avoided(step_lines(fs)),
    decreases fs.len(),
{
    if fs.len() > 0 {
        let prev = fs.drop_last();
        assert forall|i: int| 0 <= i < prev.len() implies marker_free((#[trigger] prev[i]).message@)
            && marker_free(prev[i].suggested_next_step@) by {
            assert(prev[i] == fs[i]);
        }
        lemma_step_lines_avoided(prev);
        assert(fs.last() == fs[fs.len() - 1]);
        lemma_item_line_avoided(step_lines(prev), fs.last().suggested_next_step@);
    }
}

proof fn lemma_next_steps_avoided(fs: Seq<Finding>, fallback: Seq<char>)
    requires
        findings_marker_free(fs),
        gt_free(fallback),
    ensures
        banner_avoided(next_steps(fs, fallback)),
{
    if fs.len() > 0 {
        let k: int = if fs.len() < 8 { fs.len() as int } else { 8 };
        let t = fs.take(k);
        assert forall|i: int| 0 <= i < t.len() implies marker_free((#[trigger] t[i]).message@)
            && marker_free(t[i].suggested_next_step@) by {
            assert(t[i] == fs[i]);
        }
        lemma_step_lines_avoided(t);
    }
}

proof fn lemma_bullets_avoided(items: Seq<Seq<char>>)
    requires
        forall|k: int| 0 <= k < items.len() ==> marker_free(#[trigger] items[k]),
    ensures
        banner_avoided(bullet_lines(items)),
    decreases items.len(),
{
    if items.len() > 0 {
        let prev = items.drop_last();
        assert forall|k: int| 0 <= k < prev.len() implies marker_free(#[trigger] prev[k]) by {
            assert(prev[k] == items[k]);
        }
        lemma_bullets_avoided(prev);
        assert(items.last() == items[items.len() - 1]);
        lemma_item_line_avoided(bullet_lines(prev), items.last());
    }
}

proof fn lemma_fact_gt_free(label: Seq<char>, v: Seq<char>)
    requires
        gt_free(label),
        gt_free(v),
    ensures
        gt_free(fact_line(label, v)),
{
    lemma_lazy_literals_gt();
    lemma_gt_free_concat(label, v);
    lemma_gt_free_concat(label + v, "\n"@);
}

proof fn lemma_lazy_literals_gt()
    ensures
        gt_free("File: `"@),
        gt_free("`\n"@),
        gt_free("File size: "@),
        gt_free(" bytes\n"@),
        gt_free("PDF version: "@),
        gt_free("\n"@),
        gt_free("Open mode: `lazy`\n"@),
        gt_free("Scope: fast diagnostics only\n"@),
        gt_free("Pages: "@),
        gt_free("Encrypted: "@),
        gt_free("Linearized: "@),
        gt_free("Incremental updates: "@),
        gt_free("Root: "@),
        gt_free("Info: "@),
        gt_free("Xref entries: "@),
        gt_free("Objects: "@),
        gt_free("Streams: "@),
        gt_free(" (metadata only in lazy report)\n\n"@),
        gt_free("- This report was generated from metadata-only lazy open data, lazy page metadata, and lazy fast diagnostics.\n"@),
        gt_free("- It does not full-parse the PDF, scan all indirect objects, read all stream bytes, decode all streams, or extract page objects.\n"@),
        gt_free("- Deep diagnostics are deferred and should be run on demand or against a smaller repro PDF.\n\n"@),
        gt_free("- "@),
        gt_free("\n\n"@),
        gt_free("- Errors: "@),
        gt_free("- Warnings: "@),
        gt_free("- Info: "@),
        gt_free("- No lazy fast diagnostics findings were emitted. Keep this report with the fixture for regression tracking.\n"@),
        gt_free("unknown"@),
        gt_free("yes"@),
        gt_free("no"@),
        gt_free("PDF Lazy Debug Report\n\n"@),
        gt_free("Lazy Report Scope"@),
        gt_free("Deferred Deep Diagnostics"@),
        gt_free("Diagnostic Summary"@),
        gt_free("Deep Diagnostics Enrichment"@),
        "### Lazy Report Scope\n\n"@ == "### "@ + "Lazy Report Scope"@ + "\n\n"@,
        "### Deferred Deep Diagnostics\n\n"@ == "### "@ + "Deferred Deep Diagnostics"@ + "\n\n"@,
        "### Diagnostic Summary\n\n"@ == "### "@ + "Diagnostic Summary"@ + "\n\n"@,
        "### Deep Diagnostics Enrichment\n\n"@ == "### "@ + "Deep Diagnostics Enrichment"@ + "\n\n"@,
        "Lazy Report Scope"@.len() == 17,
        "Deferred Deep Diagnostics"@.len() == 25,
        "Diagnostic Summary"@.len() == 18,
        "Deep Diagnostics Enrichment"@.len() == 27,
        "## PDF Lazy Debug Report\n\n"@ == "## "@ + "PDF Lazy Debug Report\n\n"@,
        "PDF Lazy Debug Report\n\n"@.len() >= 2,
{
    reveal_strlit("### ");
    reveal_strlit("\n\n");
    reveal_strlit("## ");
    reveal_strlit("## PDF Lazy Debug Report\n\n");
    reveal_strlit("File: `");
    reveal_strlit("`\n");
    reveal_strlit("File size: ");
    reveal_strlit(" bytes\n");
    reveal_strlit("PDF version: ");
    reveal_strlit("\n");
    reveal_strlit("Open mode: `lazy`\n");
    reveal_strlit("Scope: fast diagnostics only\n");
    reveal_strlit("Pages: ");
    reveal_strlit("Encrypted: ");
    reveal_strlit("Linearized: ");
    reveal_strlit("Incremental updates: ");
    reveal_strlit("Root: ");
    reveal_strlit("Info: ");
    reveal_strlit("Xref entries: ");
    reveal_strlit("Objects: ");
    reveal_strlit("Streams: ");
    reveal_strlit(" (metadata only in lazy report)\n\n");
    reveal_strlit("- This report was generated from metadata-only lazy open data, lazy page metadata, and lazy fast diagnostics.\n");
    reveal_strlit("- It does not full-parse the PDF, scan all indirect objects, read all stream bytes, decode all streams, or extract page objects.\n");
    reveal_strlit("- Deep diagnostics are deferred and should be run on demand or against a smaller repro PDF.\n\n");
    reveal_strlit("- ");
    reveal_strlit("\n\n");
    reveal_strlit("- Errors: ");
    reveal_strlit("- Warnings: ");
    reveal_strlit("- Info: ");
    reveal_strlit("- No lazy fast diagnostics findings were emitted. Keep this report with the fixture for regression tracking.\n");
    reveal_strlit("unknown");
    reveal_strlit("yes");
    reveal_strlit("no");
    reveal_strlit("PDF Lazy Debug Report\n\n");
    reveal_strlit("Lazy Report Scope");
    reveal_strlit("Deferred Deep Diagnostics");
    reveal_strlit("Diagnostic Summary");
    reveal_strlit("Deep Diagnostics Enrichment");
    reveal_strlit("### Lazy Report Scope\n\n");
    assert("### Lazy Report Scope\n\n"@ =~= "### "@ + "Lazy Report Scope"@ + "\n\n"@);
    reveal_strlit("### Deferred Deep Diagnostics\n\n");
    assert("### Deferred Deep Diagnostics\n\n"@ =~= "### "@ + "Deferred Deep Diagnostics"@ + "\n\n"@);
    reveal_strlit("### Diagnostic Summary\n\n");
    assert("### Diagnostic Summary\n\n"@ =~= "### "@ + "Diagnostic Summary"@ + "\n\n"@);
    reveal_strlit("### Deep Diagnostics Enrichment\n\n");
    assert("### Deep Diagnostics Enrichment\n\n"@ =~= "### "@ + "Deep Diagnostics Enrichment"@ + "\n\n"@);
    assert("## PDF Lazy Debug Report\n\n"@ =~= "## "@ + "PDF Lazy Debug Report\n\n"@);
}


proof fn lemma_banner_literals()
    ensures
        gt_free("#### "@),
        gt_free(" ("@),
        gt_free(")\n\n"@),
        gt_free("Partial: "@),
        gt_free("Details:\n\n"@),
        gt_free("Warnings:\n\n"@),
        gt_free("Limitations:\n\n"@),
        gt_free(": "@),
        gt_free("Enrichment Errors"@),
        gt_free("Enrichment Warnings"@),
        gt_free("Enrichment Info"@),
        gt_free("### "@),
        gt_free("Scope: fast diagnostics plus selected target enrichments\n"@),
        gt_free("The selected enrichment target(s) below were run on demand. Other unrequested deep diagnostics remain deferred.\n\n"@),
        gt_free("### Deep Diagnostics Enrichment\n\n"@),
        gt_free("### Lazy Report Scope\n\n"@),
        gt_free("### Deferred Deep Diagnostics\n\n"@),
        gt_free("### Diagnostic Summary\n\n"@),
        gt_free("### Suggested Next Steps\n\n"@),
        gt_free("## PDF Lazy Debug Report\n\n"@),
        gt_free("Errors"@),
        gt_free("Warnings"@),
        gt_free("Info"@),
        "> Lazy report. Fast diagnostics only. Deep diagnostics deferred.\n\n"@.len() > 33,
        "> Lazy report. Fast diagnostics only. Deep diagnostics deferred.\n\n"@[0] == '>',
        "> Lazy report. Fast diagnostics only. Deep diagnostics deferred.\n\n"@[32] == 'o',
        "> Lazy report. Fast diagnostics plus selected deep diagnostics enrichment.\n\n"@.len() > 33,
        "> Lazy report. Fast diagnostics plus selected deep diagnostics enrichment.\n\n"@[0] == '>',
        "> Lazy report. Fast diagnostics plus selected deep diagnostics enrichment.\n\n"@[32] == 'p',
        forall|i: int| 1 <= i < "> Lazy report. Fast diagnostics plus selected deep diagnostics enrichment.\n\n"@.len()
            ==> "> Lazy report. Fast diagnostics plus selected deep diagnostics enrichment.\n\n"@[i] != '>',
{
    reveal_strlit("#### ");
    reveal_strlit(" (");
    reveal_strlit(")\n\n");
    reveal_strlit("Partial: ");
    reveal_strlit("Details:\n\n");
    reveal_strlit("Warnings:\n\n");
    reveal_strlit("Limitations:\n\n");
    reveal_strlit(": ");
    reveal_strlit("Enrichment Errors");
    reveal_strlit("Enrichment Warnings");
    reveal_strlit("Enrichment Info");
    reveal_strlit("### ");
    reveal_strlit("Scope: fast diagnostics plus selected target enrichments\n");
    reveal_strlit("The selected enrichment target(s) below were run on demand. Other unrequested deep diagnostics remain deferred.\n\n");
    reveal_strlit("### Deep Diagnostics Enrichment\n\n");
    reveal_strlit("### Lazy Report Scope\n\n");
    reveal_strlit("### Deferred Deep Diagnostics\n\n");
    reveal_strlit("### Diagnostic Summary\n\n");
    reveal_strlit("### Suggested Next Steps\n\n");
    reveal_strlit("## PDF Lazy Debug Report\n\n");
    reveal_strlit("Errors");
    reveal_strlit("Warnings");
    reveal_strlit("Info");
    reveal_strlit("> Lazy report. Fast diagnostics only. Deep diagnostics deferred.\n\n");
    reveal_strlit("> Lazy report. Fast diagnostics plus selected deep diagnostics enrichment.\n\n");
}

/// The fast-only banner line.
pub open spec fn fast_only_banner() -> Seq<char> {
    "> Lazy report. Fast diagnostics only. Deep diagnostics deferred.\n\n"@
}

/// Every `>` of `s` starts text that differs, inside `s`, from the
/// fast-only banner.
pub open spec fn banner_avoided(s: Seq<char>) -> bool {
    forall|i: int| 0 <= i < s.len() && #[trigger] s[i] == '>' ==> exists|k: int|
        0 <= k < fast_only_banner().len() && i + k < s.len() && #[trigger] s[i + k] != fast_only_banner()[k]
}

proof fn lemma_gt_free_banner(s: Seq<char>)
    requires
        gt_free(s),
    ensures
        banner_avoided(s),
{
}

proof fn lemma_banner_concat(a: Seq<char>, b: Seq<char>)
    requires
        banner_avoided(a),
        banner_avoided(b),
    ensures
        banner_avoided(a + b),
{
    let s = a + b;
    let t = fast_only_banner();
    assert forall|i: int| 0 <= i < s.len() && #[trigger] s[i] == '>' implies exists|k: int|
        0 <= k < t.len() && i + k < s.len() && #[trigger] s[i + k] != t[k] by {
        if i < a.len() {
            assert(a[i] == s[i]);
            let k = choose|k: int| 0 <= k < t.len() && i + k < a.len() && #[trigger] a[i + k] != t[k];
            assert(s[i + k] == a[i + k]);
        } else {
            let j = i - a.len();
            assert(b[j] == s[i]);
            let k = choose|k: int| 0 <= k < t.len() && j + k < b.len() && #[trigger] b[j + k] != t[k];
            assert(s[i + k] == b[j + k]);
        }
    }
}

proof fn lemma_plus_banner_avoided()
    ensures
        banner_avoided("> Lazy report. Fast diagnostics plus selected deep diagnostics enrichment.\n\n"@),
{
    lemma_banner_literals();
    let s = "> Lazy report. Fast diagnostics plus selected deep diagnostics enrichment.\n\n"@;
    assert forall|i: int| 0 <= i < s.len() && #[trigger] s[i] == '>' implies exists|k: int|
        0 <= k < fast_only_banner().len() && i + k < s.len() && #[trigger] s[i + k] != fast_only_banner()[k] by {
        assert(i == 0);
        assert(s[0int + 32] != fast_only_banner()[32]);
    }
}

proof fn lemma_banner_not_contained(s: Seq<char>)
    requires
        banner_avoided(s),
    ensures
        !contains_text(s, fast_only_banner()),
{
    lemma_banner_literals();
    let t = fast_only_banner();
    if contains_text(s, t) {
        let i = choose|i: int| 0 <= i && i + t.len() <= s.len() && #[trigger] s.subrange(i, i + t.len()) == t;
        assert(s[i] == s.subrange(i, i + t.len())[0]);
        let k = choose|k: int| 0 <= k < t.len() && i + k < s.len() && #[trigger] s[i + k] != t[k];
        assert(s[i + k] == s.subrange(i, i + t.len())[k]);
    }
}

proof fn lemma_gt_free_marker_free(s: Seq<char>)
    requires
        gt_free(s),
    ensures
        marker_free(s),
{
    lemma_banner_start();
    if contains_text(s, lazy_marker()) {
        let i = choose|i: int| 0 <= i && i + 13 <= s.len() && #[trigger] s.subrange(i, i + 13) == lazy_marker();
        assert(s.subrange(i, i + 13)[0] == s[i]);
        assert(lazy_marker()[0] == fast_only_banner()[0]);
    }
}

proof fn lemma_section_avoided(heading: Seq<char>, sev: Severity, fs: Seq<Finding>)
    requires
        gt_free(heading),
        findings_marker_free(fs),
    ensures
        banner_avoided(findings_section(heading, sev, fs)),
{
    lemma_banner_literals();
    lemma_report_literals_gt();
    if count_severity_positive(fs, sev) {
        lemma_finding_lines_avoided(fs, sev);
        lemma_gt_free_concat("### "@, heading);
        lemma_gt_free_concat("### "@ + heading, "\n\n"@);
        lemma_gt_free_banner("### "@ + heading + "\n\n"@);
        lemma_banner_concat("### "@ + heading + "\n\n"@, finding_lines(fs, sev));
        lemma_gt_free_banner("\n"@);
        lemma_banner_concat("### "@ + heading + "\n\n"@ + finding_lines(fs, sev), "\n"@);
    } else {
        assert(findings_section(heading, sev, fs) =~= Seq::<char>::empty());
    }
}

pub open spec fn count_severity_positive(fs: Seq<Finding>, sev: Severity) -> bool {
    crate::pdf_model::count_severity(fs, sev) != 0
}

proof fn lemma_detail_lines_avoided(ds: Seq<LazyEnrichmentDetail>)
    requires
        forall|k: int| 0 <= k < ds.len() ==> marker_free((#[trigger] ds[k]).name@) && marker_free(ds[k].value@),
    ensures
        banner_avoided(detail_lines(ds)),
    decreases ds.len(),
{
    lemma_banner_literals();
    lemma_lazy_literals_gt();
    lemma_break_literals();
    if ds.len() > 0 {
        let prev = ds.drop_last();
        assert forall|k: int| 0 <= k < prev.len() implies marker_free((#[trigger] prev[k]).name@) && marker_free(prev[k].value@) by {
            assert(prev[k] == ds[k]);
        }
        lemma_detail_lines_avoided(prev);
        let l = ds.last();
        assert(l == ds[ds.len() - 1]);
        let before = detail_lines(prev);
        lemma_gt_free_banner("- "@);
        lemma_banner_concat(before, "- "@);
        lemma_marker_free_open(l.name@);
        lemma_closed_open(before + "- "@, l.name@);
        lemma_breaks_marker(": "@);
        lemma_open_break(before + "- "@ + l.name@, ": "@);
        lemma_marker_free_open(l.value@);
        lemma_closed_open(before + "- "@ + l.name@ + ": "@, l.value@);
        lemma_breaks_marker("\n"@);
        lemma_open_break(before + "- "@ + l.name@ + ": "@ + l.value@, "\n"@);
    }
}

proof fn lemma_labelled_avoided(label: Seq<char>, len: nat, lines: Seq<char>)
    requires
        gt_free(label),
        banner_avoided(lines),
    ensures
        banner_avoided(labelled(label, len, lines)),
{
    lemma_lazy_literals_gt();
    if len > 0 {
        lemma_gt_free_banner(label);
        lemma_banner_concat(label, lines);
        lemma_gt_free_banner("\n"@);
        lemma_banner_concat(label + lines, "\n"@);
    } else {
        assert(labelled(label, len, lines) =~= Seq::<char>::empty());
    }
}

pub open spec fn strings_marker_free(v: Seq<String>) -> bool {
    forall|k: int| 0 <= k < v.len() ==> marker_free((#[trigger] v[k])@)
}

proof fn lemma_strings_bullets_avoided(v: Seq<String>)
    requires
        strings_marker_free(v),
    ensures
        banner_avoided(bullet_lines(string_views(v))),
{
    let items = string_views(v);
    assert forall|k: int| 0 <= k < items.len() implies marker_free(#[trigger] items[k]) by {
        assert(items[k] == v[k]@);
    }
    lemma_bullets_avoided(items);
}

/// The text fields an enrichment's section shows do not hold the banner's
/// first words.
pub open spec fn enrichment_marker_free(e: LazyReportEnrichment) -> bool {
    &&& marker_free(e.target@)
    &&& marker_free(e.scope@)
    &&& marker_free(e.summary@)
    &&& forall|k: int| 0 <= k < e.details@.len() ==> marker_free((#[trigger] e.details@[k]).name@) && marker_free(e.details@[k].value@)
    &&& strings_marker_free(e.warnings@)
    &&& strings_marker_free(e.limitations@)
    &&& findings_marker_free(e.findings@)
}

proof fn lemma_enrichment_title_avoided(e: LazyReportEnrichment)
    requires
        enrichment_marker_free(e),
    ensures
        banner_avoided(enrichment_title(e)),
{
    lemma_banner_literals();
    lemma_report_literals_gt();
    lemma_lazy_literals_gt();
    lemma_break_literals();
    lemma_gt_free_banner("#### "@);
    lemma_marker_free_open(e.target@);
    lemma_closed_open("#### "@, e.target@);
    lemma_breaks_marker(" ("@);
    lemma_open_break("#### "@ + e.target@, " ("@);
    lemma_marker_free_open(e.scope@);
    lemma_closed_open("#### "@ + e.target@ + " ("@, e.scope@);
    lemma_breaks_marker(")\n\n"@);
    lemma_open_break("#### "@ + e.target@ + " ("@ + e.scope@, ")\n\n"@);
    lemma_gt_free_banner("Partial: "@);
    lemma_banner_concat("#### "@ + e.target@ + " ("@ + e.scope@ + ")\n\n"@, "Partial: "@);
    lemma_gt_free_banner(yes_no_text(e.partial));
    lemma_banner_concat("#### "@ + e.target@ + " ("@ + e.scope@ + ")\n\n"@ + "Partial: "@, yes_no_text(e.partial));
    lemma_gt_free_banner("\n\n"@);
    lemma_banner_concat("#### "@ + e.target@ + " ("@ + e.scope@ + ")\n\n"@ + "Partial: "@ + yes_no_text(e.partial), "\n\n"@);
    lemma_marker_free_open(e.summary@);
    lemma_closed_open("#### "@ + e.target@ + " ("@ + e.scope@ + ")\n\n"@ + "Partial: "@ + yes_no_text(e.partial) + "\n\n"@, e.summary@);
    lemma_breaks_marker("\n\n"@);
    lemma_open_break("#### "@ + e.target@ + " ("@ + e.scope@ + ")\n\n"@ + "Partial: "@ + yes_no_text(e.partial) + "\n\n"@ + e.summary@, "\n\n"@);
    assert(enrichment_title(e) == "#### "@ + e.target@ + " ("@ + e.scope@ + ")\n\n"@ + "Partial: "@ + yes_no_text(e.partial) + "\n\n"@ + e.summary@ + "\n\n"@);
}

proof fn lemma_enrichment_avoided(e: LazyReportEnrichment)
    requires
        enrichment_marker_free(e),
    ensures
        banner_avoided(enrichment_text(e)),
{
    lemma_banner_literals();
    lemma_enrichment_title_avoided(e);
    lemma_detail_lines_avoided(e.details@);
    lemma_strings_bullets_avoided(e.warnings@);
    lemma_strings_bullets_avoided(e.limitations@);
    lemma_labelled_avoided("Details:\n\n"@, e.details@.len(), detail_lines(e.details@));
    lemma_labelled_avoided("Warnings:\n\n"@, e.warnings@.len(), bullet_lines(string_views(e.warnings@)));
    lemma_labelled_avoided("Limitations:\n\n"@, e.limitations@.len(), bullet_lines(string_views(e.limitations@)));
    let l1 = labelled("Details:\n\n"@, e.details@.len(), detail_lines(e.details@));
    let l2 = labelled("Warnings:\n\n"@, e.warnings@.len(), bullet_lines(string_views(e.warnings@)));
    let l3 = labelled("Limitations:\n\n"@, e.limitations@.len(), bullet_lines(string_views(e.limitations@)));
    lemma_banner_concat(l1, l2);
    lemma_banner_concat(l1 + l2, l3);
    lemma_section_avoided("Enrichment Errors"@, Severity::Error, e.findings@);
    lemma_section_avoided("Enrichment Warnings"@, Severity::Warning, e.findings@);
    lemma_section_avoided("Enrichment Info"@, Severity::Info, e.findings@);
    let s1 = findings_section("Enrichment Errors"@, Severity::Error, e.findings@);
    let s2 = findings_section("Enrichment Warnings"@, Severity::Warning, e.findings@);
    let s3 = findings_section("Enrichment Info"@, Severity::Info, e.findings@);
    lemma_banner_concat(enrichment_title(e), enrichment_lists(e));
    lemma_banner_concat(enrichment_title(e) + enrichment_lists(e), s1);
    lemma_banner_concat(enrichment_title(e) + enrichment_lists(e) + s1, s2);
    lemma_banner_concat(enrichment_title(e) + enrichment_lists(e) + s1 + s2, s3);
}

proof fn lemma_enrichments_avoided(es: Seq<LazyReportEnrichment>)
    requires
        forall|k: int| 0 <= k < es.len() ==> enrichment_marker_free(#[trigger] es[k]),
    ensures
        banner_avoided(enrichments_text(es)),
    decreases es.len(),
{
    if es.len() > 0 {
        let prev = es.drop_last();
        assert forall|k: int| 0 <= k < prev.len() implies enrichment_marker_free(#[trigger] prev[k]) by {
            assert(prev[k] == es[k]);
        }
        lemma_enrichments_avoided(prev);
        assert(es.last() == es[es.len() - 1]);
        lemma_enrichment_avoided(es.last());
        lemma_banner_concat(enrichments_text(prev), enrichment_text(es.last()));
    }
}

/// The text fields a lazy report's Markdown shows do not hold the
/// banner's first words, `> Lazy report`.
pub open spec fn lazy_fields_marker_free(r: LazyDebugReport) -> bool {
    &&& marker_free(r.file.file_name@)
    &&& (r.file.pdf_version matches Some(v) ==> marker_free(v@))
    &&& findings_marker_free(r.findings@)
    &&& strings_marker_free(r.deferred_deep_diagnostics@)
    &&& forall|k: int| 0 <= k < r.enrichments@.len() ==> enrichment_marker_free(#[trigger] r.enrichments@[k])
}

proof fn lemma_top_banner(r: LazyDebugReport)
    requires
        lazy_fields_marker_free(r),
        r.enrichments@.len() > 0,
    ensures
        banner_avoided(lazy_header_top(r)),
{
    lemma_banner_literals();
    lemma_lazy_literals_gt();
    lemma_report_literals_gt();
    lemma_break_literals();
    let f = r.file;
    lemma_decimal_gt_free(f.file_size as nat);
    if f.pdf_version is None {
        lemma_gt_free_marker_free("unknown"@);
    }
    lemma_gt_free_banner("## PDF Lazy Debug Report\n\n"@);
    lemma_plus_banner_avoided();
    lemma_banner_concat("## PDF Lazy Debug Report\n\n"@, "> Lazy report. Fast diagnostics plus selected deep diagnostics enrichment.\n\n"@);
    lemma_gt_free_banner("File: `"@);
    lemma_banner_concat("## PDF Lazy Debug Report\n\n"@ + "> Lazy report. Fast diagnostics plus selected deep diagnostics enrichment.\n\n"@, "File: `"@);
    lemma_marker_free_open(f.file_name@);
    lemma_closed_open("## PDF Lazy Debug Report\n\n"@ + "> Lazy report. Fast diagnostics plus selected deep diagnostics enrichment.\n\n"@ + "File: `"@, f.file_name@);
    lemma_breaks_marker("`\n"@);
    lemma_open_break("## PDF Lazy Debug Report\n\n"@ + "> Lazy report. Fast diagnostics plus selected deep diagnostics enrichment.\n\n"@ + "File: `"@ + f.file_name@, "`\n"@);
    lemma_gt_free_banner("File size: "@);
    lemma_banner_concat("## PDF Lazy Debug Report\n\n"@ + "> Lazy report. Fast diagnostics plus selected deep diagnostics enrichment.\n\n"@ + "File: `"@ + f.file_name@ + "`\n"@, "File size: "@);
    lemma_gt_free_banner(decimal(f.file_size as nat));
    lemma_banner_concat("## PDF Lazy Debug Report\n\n"@ + "> Lazy report. Fast diagnostics plus selected deep diagnostics enrichment.\n\n"@ + "File: `"@ + f.file_name@ + "`\n"@ + "File size: "@, decimal(f.file_size as nat));
    lemma_gt_free_banner(" bytes\n"@);
    lemma_banner_concat("## PDF Lazy Debug Report\n\n"@ + "> Lazy report. Fast diagnostics plus selected deep diagnostics enrichment.\n\n"@ + "File: `"@ + f.file_name@ + "`\n"@ + "File size: "@ + decimal(f.file_size as nat), " bytes\n"@);
    lemma_gt_free_banner("PDF version: "@);
    lemma_banner_concat("## PDF Lazy Debug Report\n\n"@ + "> Lazy report. Fast diagnostics plus selected deep diagnostics enrichment.\n\n"@ + "File: `"@ + f.file_name@ + "`\n"@ + "File size: "@ + decimal(f.file_size as nat) + " bytes\n"@, "PDF version: "@);
    lemma_marker_free_open(version_text(f.pdf_version));
    lemma_closed_open("## PDF Lazy Debug Report\n\n"@ + "> Lazy report. Fast diagnostics plus selected deep diagnostics enrichment.\n\n"@ + "File: `"@ + f.file_name@ + "`\n"@ + "File size: "@ + decimal(f.file_size as nat) + " bytes\n"@ + "PDF version: "@, version_text(f.pdf_version));
    lemma_breaks_marker("\n"@);
    lemma_open_break("## PDF Lazy Debug Report\n\n"@ + "> Lazy report. Fast diagnostics plus selected deep diagnostics enrichment.\n\n"@ + "File: `"@ + f.file_name@ + "`\n"@ + "File size: "@ + decimal(f.file_size as nat) + " bytes\n"@ + "PDF version: "@ + version_text(f.pdf_version), "\n"@);
    lemma_gt_free_banner("Open mode: `lazy`\n"@);
    lemma_banner_concat("## PDF Lazy Debug Report\n\n"@ + "> Lazy report. Fast diagnostics plus selected deep diagnostics enrichment.\n\n"@ + "File: `"@ + f.file_name@ + "`\n"@ + "File size: "@ + decimal(f.file_size as nat) + " bytes\n"@ + "PDF version: "@ + version_text(f.pdf_version) + "\n"@, "Open mode: `lazy`\n"@);
    lemma_gt_free_banner("Scope: fast diagnostics plus selected target enrichments\n"@);
    lemma_banner_concat("## PDF Lazy Debug Report\n\n"@ + "> Lazy report. Fast diagnostics plus selected deep diagnostics enrichment.\n\n"@ + "File: `"@ + f.file_name@ + "`\n"@ + "File size: "@ + decimal(f.file_size as nat) + " bytes\n"@ + "PDF version: "@ + version_text(f.pdf_version) + "\n"@ + "Open mode: `lazy`\n"@, "Scope: fast diagnostics plus selected target enrichments\n"@);
    assert(lazy_header_top(r) == "## PDF Lazy Debug Report\n\n"@ + "> Lazy report. Fast diagnostics plus selected deep diagnostics enrichment.\n\n"@ + "File: `"@ + f.file_name@ + "`\n"@ + "File size: "@ + decimal(f.file_size as nat) + " bytes\n"@ + "PDF version: "@ + version_text(f.pdf_version) + "\n"@ + "Open mode: `lazy`\n"@ + "Scope: fast diagnostics plus selected target enrichments\n"@);
}

proof fn lemma_facts_gt_free(r: LazyDebugReport)
    ensures
        gt_free(lazy_header_facts(r)),
{
    lemma_lazy_literals_gt();
    lemma_report_literals_gt();
    let f = r.file;
    lemma_decimal_gt_free(f.incremental_update_count as nat);
    lemma_decimal_gt_free(f.xref_entry_count as nat);
    lemma_decimal_gt_free(f.object_count as nat);
    lemma_decimal_gt_free(f.stream_count as nat);
    match f.page_count {
        Some(n) => lemma_decimal_gt_free(n as nat),
        None => {},
    }
    match f.root {
        Some(x) => lemma_ref_gt_free(x),
        None => {},
    }
    match f.info {
        Some(x) => lemma_ref_gt_free(x),
        None => {},
    }
    lemma_fact_gt_free("Pages: "@, count_text(f.page_count));
    lemma_fact_gt_free("Encrypted: "@, yes_no_text(f.encrypted));
    lemma_gt_free_concat(fact_line("Pages: "@, count_text(f.page_count)), fact_line("Encrypted: "@, yes_no_text(f.encrypted)));
    lemma_fact_gt_free("Linearized: "@, yes_no_text(f.linearized));
    lemma_gt_free_concat(fact_line("Pages: "@, count_text(f.page_count)) + fact_line("Encrypted: "@, yes_no_text(f.encrypted)), fact_line("Linearized: "@, yes_no_text(f.linearized)));
    lemma_fact_gt_free("Incremental updates: "@, decimal(f.incremental_update_count as nat));
    lemma_gt_free_concat(fact_line("Pages: "@, count_text(f.page_count)) + fact_line("Encrypted: "@, yes_no_text(f.encrypted)) + fact_line("Linearized: "@, yes_no_text(f.linearized)), fact_line("Incremental updates: "@, decimal(f.incremental_update_count as nat)));
    lemma_fact_gt_free("Root: "@, optional_ref_text(f.root));
    lemma_gt_free_concat(fact_line("Pages: "@, count_text(f.page_count)) + fact_line("Encrypted: "@, yes_no_text(f.encrypted)) + fact_line("Linearized: "@, yes_no_text(f.linearized)) + fact_line("Incremental updates: "@, decimal(f.incremental_update_count as nat)), fact_line("Root: "@, optional_ref_text(f.root)));
    lemma_fact_gt_free("Info: "@, optional_ref_text(f.info));
    lemma_gt_free_concat(fact_line("Pages: "@, count_text(f.page_count)) + fact_line("Encrypted: "@, yes_no_text(f.encrypted)) + fact_line("Linearized: "@, yes_no_text(f.linearized)) + fact_line("Incremental updates: "@, decimal(f.incremental_update_count as nat)) + fact_line("Root: "@, optional_ref_text(f.root)), fact_line("Info: "@, optional_ref_text(f.info)));
    lemma_fact_gt_free("Xref entries: "@, decimal(f.xref_entry_count as nat));
    lemma_gt_free_concat(fact_line("Pages: "@, count_text(f.page_count)) + fact_line("Encrypted: "@, yes_no_text(f.encrypted)) + fact_line("Linearized: "@, yes_no_text(f.linearized)) + fact_line("Incremental updates: "@, decimal(f.incremental_update_count as nat)) + fact_line("Root: "@, optional_ref_text(f.root)) + fact_line("Info: "@, optional_ref_text(f.info)), fact_line("Xref entries: "@, decimal(f.xref_entry_count as nat)));
    lemma_fact_gt_free("Objects: "@, decimal(f.object_count as nat));
    lemma_gt_free_concat(fact_line("Pages: "@, count_text(f.page_count)) + fact_line("Encrypted: "@, yes_no_text(f.encrypted)) + fact_line("Linearized: "@, yes_no_text(f.linearized)) + fact_line("Incremental updates: "@, decimal(f.incremental_update_count as nat)) + fact_line("Root: "@, optional_ref_text(f.root)) + fact_line("Info: "@, optional_ref_text(f.info)) + fact_line("Xref entries: "@, decimal(f.xref_entry_count as nat)), fact_line("Objects: "@, decimal(f.object_count as nat)));
    lemma_gt_free_concat(fact_line("Pages: "@, count_text(f.page_count)) + fact_line("Encrypted: "@, yes_no_text(f.encrypted)) + fact_line("Linearized: "@, yes_no_text(f.linearized)) + fact_line("Incremental updates: "@, decimal(f.incremental_update_count as nat)) + fact_line("Root: "@, optional_ref_text(f.root)) + fact_line("Info: "@, optional_ref_text(f.info)) + fact_line("Xref entries: "@, decimal(f.xref_entry_count as nat)) + fact_line("Objects: "@, decimal(f.object_count as nat)), "Streams: "@);
    lemma_gt_free_concat(fact_line("Pages: "@, count_text(f.page_count)) + fact_line("Encrypted: "@, yes_no_text(f.encrypted)) + fact_line("Linearized: "@, yes_no_text(f.linearized)) + fact_line("Incremental updates: "@, decimal(f.incremental_update_count as nat)) + fact_line("Root: "@, optional_ref_text(f.root)) + fact_line("Info: "@, optional_ref_text(f.info)) + fact_line("Xref entries: "@, decimal(f.xref_entry_count as nat)) + fact_line("Objects: "@, decimal(f.object_count as nat)) + "Streams: "@, decimal(f.stream_count as nat));
    lemma_gt_free_concat(fact_line("Pages: "@, count_text(f.page_count)) + fact_line("Encrypted: "@, yes_no_text(f.encrypted)) + fact_line("Linearized: "@, yes_no_text(f.linearized)) + fact_line("Incremental updates: "@, decimal(f.incremental_update_count as nat)) + fact_line("Root: "@, optional_ref_text(f.root)) + fact_line("Info: "@, optional_ref_text(f.info)) + fact_line("Xref entries: "@, decimal(f.xref_entry_count as nat)) + fact_line("Objects: "@, decimal(f.object_count as nat)) + "Streams: "@ + decimal(f.stream_count as nat), " (metadata only in lazy report)\n\n"@);
    assert(lazy_header_facts(r) =~= fact_line("Pages: "@, count_text(f.page_count)) + fact_line("Encrypted: "@, yes_no_text(f.encrypted)) + fact_line("Linearized: "@, yes_no_text(f.linearized)) + fact_line("Incremental updates: "@, decimal(f.incremental_update_count as nat)) + fact_line("Root: "@, optional_ref_text(f.root)) + fact_line("Info: "@, optional_ref_text(f.info)) + fact_line("Xref entries: "@, decimal(f.xref_entry_count as nat)) + fact_line("Objects: "@, decimal(f.object_count as nat)) + "Streams: "@ + decimal(f.stream_count as nat) + " (metadata only in lazy report)\n\n"@);
}

proof fn lemma_scope_avoided(r: LazyDebugReport)
    requires
        lazy_fields_marker_free(r),
        r.enrichments@.len() > 0,
    ensures
        banner_avoided(lazy_scope(r)),
{
    lemma_banner_literals();
    lemma_lazy_literals_gt();
    lemma_strings_bullets_avoided(r.deferred_deep_diagnostics@);
    lemma_enrichments_avoided(r.enrichments@);
    lemma_gt_free_banner("### Lazy Report Scope\n\n"@);
    lemma_gt_free_banner("### Deep Diagnostics Enrichment\n\n"@);
    lemma_banner_concat("### Deep Diagnostics Enrichment\n\n"@, enrichments_text(r.enrichments@));
    lemma_banner_concat("### Lazy Report Scope\n\n"@, "- This report was generated from metadata-only lazy open data, lazy page metadata, and lazy fast diagnostics.\n"@);
    lemma_banner_concat("### Lazy Report Scope\n\n"@ + "- This report was generated from metadata-only lazy open data, lazy page metadata, and lazy fast diagnostics.\n"@, "- It does not full-parse the PDF, scan all indirect objects, read all stream bytes, decode all streams, or extract page objects.\n"@);
    lemma_banner_concat("### Lazy Report Scope\n\n"@ + "- This report was generated from metadata-only lazy open data, lazy page metadata, and lazy fast diagnostics.\n"@ + "- It does not full-parse the PDF, scan all indirect objects, read all stream bytes, decode all streams, or extract page objects.\n"@, "- Deep diagnostics are deferred and should be run on demand or against a smaller repro PDF.\n\n"@);
    lemma_banner_concat("### Lazy Report Scope\n\n"@ + "- This report was generated from metadata-only lazy open data, lazy page metadata, and lazy fast diagnostics.\n"@ + "- It does not full-parse the PDF, scan all indirect objects, read all stream bytes, decode all streams, or extract page objects.\n"@ + "- Deep diagnostics are deferred and should be run on demand or against a smaller repro PDF.\n\n"@, "### Deferred Deep Diagnostics\n\n"@);
    lemma_banner_concat("### Lazy Report Scope\n\n"@ + "- This report was generated from metadata-only lazy open data, lazy page metadata, and lazy fast diagnostics.\n"@ + "- It does not full-parse the PDF, scan all indirect objects, read all stream bytes, decode all streams, or extract page objects.\n"@ + "- Deep diagnostics are deferred and should be run on demand or against a smaller repro PDF.\n\n"@ + "### Deferred Deep Diagnostics\n\n"@, "The selected enrichment target(s) below were run on demand. Other unrequested deep diagnostics remain deferred.\n\n"@);
    lemma_banner_concat("### Lazy Report Scope\n\n"@ + "- This report was generated from metadata-only lazy open data, lazy page metadata, and lazy fast diagnostics.\n"@ + "- It does not full-parse the PDF, scan all indirect objects, read all stream bytes, decode all streams, or extract page objects.\n"@ + "- Deep diagnostics are deferred and should be run on demand or against a smaller repro PDF.\n\n"@ + "### Deferred Deep Diagnostics\n\n"@ + "The selected enrichment target(s) below were run on demand. Other unrequested deep diagnostics remain deferred.\n\n"@, bullet_lines(string_views(r.deferred_deep_diagnostics@)));
    lemma_banner_concat("### Lazy Report Scope\n\n"@ + "- This report was generated from metadata-only lazy open data, lazy page metadata, and lazy fast diagnostics.\n"@ + "- It does not full-parse the PDF, scan all indirect objects, read all stream bytes, decode all streams, or extract page objects.\n"@ + "- Deep diagnostics are deferred and should be run on demand or against a smaller repro PDF.\n\n"@ + "### Deferred Deep Diagnostics\n\n"@ + "The selected enrichment target(s) below were run on demand. Other unrequested deep diagnostics remain deferred.\n\n"@ + bullet_lines(string_views(r.deferred_deep_diagnostics@)), "\n"@);
    lemma_banner_concat("### Lazy Report Scope\n\n"@ + "- This report was generated from metadata-only lazy open data, lazy page metadata, and lazy fast diagnostics.\n"@ + "- It does not full-parse the PDF, scan all indirect objects, read all stream bytes, decode all streams, or extract page objects.\n"@ + "- Deep diagnostics are deferred and should be run on demand or against a smaller repro PDF.\n\n"@ + "### Deferred Deep Diagnostics\n\n"@ + "The selected enrichment target(s) below were run on demand. Other unrequested deep diagnostics remain deferred.\n\n"@ + bullet_lines(string_views(r.deferred_deep_diagnostics@)) + "\n"@, ("### Deep Diagnostics Enrichment\n\n"@ + enrichments_text(r.enrichments@)));
    assert(lazy_scope(r) == "### Lazy Report Scope\n\n"@ + "- This report was generated from metadata-only lazy open data, lazy page metadata, and lazy fast diagnostics.\n"@ + "- It does not full-parse the PDF, scan all indirect objects, read all stream bytes, decode all streams, or extract page objects.\n"@ + "- Deep diagnostics are deferred and should be run on demand or against a smaller repro PDF.\n\n"@ + "### Deferred Deep Diagnostics\n\n"@ + "The selected enrichment target(s) below were run on demand. Other unrequested deep diagnostics remain deferred.\n\n"@ + bullet_lines(string_views(r.deferred_deep_diagnostics@)) + "\n"@ + ("### Deep Diagnostics Enrichment\n\n"@ + enrichments_text(r.enrichments@)));
}

/// When the text fields of a lazy report that its Markdown shows (file
/// name, PDF version, findings, deferred items and every field of its
/// enrichments) do not hold `> Lazy report`, its Markdown holds the
/// fast-only banner exactly when it has no enrichments.
pub proof fn lemma_lazy_banner_exact(r: LazyDebugReport)
    requires
        lazy_fields_marker_free(r),
    ensures
        contains_text(lazy_markdown_report(r), fast_only_banner()) <==> r.enrichments@.len() == 0,
{
    lemma_lazy_markdown_parts(r);
    if r.enrichments@.len() > 0 {
        lemma_banner_literals();
        lemma_lazy_literals_gt();
        lemma_report_literals_gt();
        let d = r.diagnostics;
        let fs = r.findings@;
        lemma_top_banner(r);
        lemma_facts_gt_free(r);
        lemma_gt_free_banner(lazy_header_facts(r));
        lemma_banner_concat(lazy_header_top(r), lazy_header_facts(r));
        lemma_scope_avoided(r);
        lemma_banner_concat(lazy_header(r), lazy_scope(r));
        lemma_decimal_gt_free(d.errors as nat);
        lemma_decimal_gt_free(d.warnings as nat);
        lemma_decimal_gt_free(d.info as nat);
        lemma_section_avoided("Errors"@, Severity::Error, fs);
        lemma_section_avoided("Warnings"@, Severity::Warning, fs);
        lemma_section_avoided("Info"@, Severity::Info, fs);
        lemma_next_steps_avoided(fs, "- No lazy fast diagnostics findings were emitted. Keep this report with the fixture for regression tracking.\n"@);
        lemma_gt_free_banner("### Diagnostic Summary\n\n"@);
        lemma_banner_concat(lazy_header(r) + lazy_scope(r), "### Diagnostic Summary\n\n"@);
        lemma_gt_free_banner("- Errors: "@);
        lemma_banner_concat(lazy_header(r) + lazy_scope(r) + "### Diagnostic Summary\n\n"@, "- Errors: "@);
        lemma_gt_free_banner(decimal(d.errors as nat));
        lemma_banner_concat(lazy_header(r) + lazy_scope(r) + "### Diagnostic Summary\n\n"@ + "- Errors: "@, decimal(d.errors as nat));
        lemma_gt_free_banner("\n"@);
        lemma_banner_concat(lazy_header(r) + lazy_scope(r) + "### Diagnostic Summary\n\n"@ + "- Errors: "@ + decimal(d.errors as nat), "\n"@);
        lemma_gt_free_banner("- Warnings: "@);
        lemma_banner_concat(lazy_header(r) + lazy_scope(r) + "### Diagnostic Summary\n\n"@ + "- Errors: "@ + decimal(d.errors as nat) + "\n"@, "- Warnings: "@);
        lemma_gt_free_banner(decimal(d.warnings as nat));
        lemma_banner_concat(lazy_header(r) + lazy_scope(r) + "### Diagnostic Summary\n\n"@ + "- Errors: "@ + decimal(d.errors as nat) + "\n"@ + "- Warnings: "@, decimal(d.warnings as nat));
        lemma_gt_free_banner("\n"@);
        lemma_banner_concat(lazy_header(r) + lazy_scope(r) + "### Diagnostic Summary\n\n"@ + "- Errors: "@ + decimal(d.errors as nat) + "\n"@ + "- Warnings: "@ + decimal(d.warnings as nat), "\n"@);
        lemma_gt_free_banner("- Info: "@);
        lemma_banner_concat(lazy_header(r) + lazy_scope(r) + "### Diagnostic Summary\n\n"@ + "- Errors: "@ + decimal(d.errors as nat) + "\n"@ + "- Warnings: "@ + decimal(d.warnings as nat) + "\n"@, "- Info: "@);
        lemma_gt_free_banner(decimal(d.info as nat));
        lemma_banner_concat(lazy_header(r) + lazy_scope(r) + "### Diagnostic Summary\n\n"@ + "- Errors: "@ + decimal(d.errors as nat) + "\n"@ + "- Warnings: "@ + decimal(d.warnings as nat) + "\n"@ + "- Info: "@, decimal(d.info as nat));
        lemma_gt_free_banner("\n\n"@);
        lemma_banner_concat(lazy_header(r) + lazy_scope(r) + "### Diagnostic Summary\n\n"@ + "- Errors: "@ + decimal(d.errors as nat) + "\n"@ + "- Warnings: "@ + decimal(d.warnings as nat) + "\n"@ + "- Info: "@ + decimal(d.info as nat), "\n\n"@);
        lemma_banner_concat(lazy_header(r) + lazy_scope(r) + "### Diagnostic Summary\n\n"@ + "- Errors: "@ + decimal(d.errors as nat) + "\n"@ + "- Warnings: "@ + decimal(d.warnings as nat) + "\n"@ + "- Info: "@ + decimal(d.info as nat) + "\n\n"@, findings_section("Errors"@, Severity::Error, fs));
        lemma_banner_concat(lazy_header(r) + lazy_scope(r) + "### Diagnostic Summary\n\n"@ + "- Errors: "@ + decimal(d.errors as nat) + "\n"@ + "- Warnings: "@ + decimal(d.warnings as nat) + "\n"@ + "- Info: "@ + decimal(d.info as nat) + "\n\n"@ + findings_section("Errors"@, Severity::Error, fs), findings_section("Warnings"@, Severity::Warning, fs));
        lemma_banner_concat(lazy_header(r) + lazy_scope(r) + "### Diagnostic Summary\n\n"@ + "- Errors: "@ + decimal(d.errors as nat) + "\n"@ + "- Warnings: "@ + decimal(d.warnings as nat) + "\n"@ + "- Info: "@ + decimal(d.info as nat) + "\n\n"@ + findings_section("Errors"@, Severity::Error, fs) + findings_section("Warnings"@, Severity::Warning, fs), findings_section("Info"@, Severity::Info, fs));
        lemma_gt_free_banner("### Suggested Next Steps\n\n"@);
        lemma_banner_concat(lazy_header(r) + lazy_scope(r) + "### Diagnostic Summary\n\n"@ + "- Errors: "@ + decimal(d.errors as nat) + "\n"@ + "- Warnings: "@ + decimal(d.warnings as nat) + "\n"@ + "- Info: "@ + decimal(d.info as nat) + "\n\n"@ + findings_section("Errors"@, Severity::Error, fs) + findings_section("Warnings"@, Severity::Warning, fs) + findings_section("Info"@, Severity::Info, fs), "### Suggested Next Steps\n\n"@);
        lemma_banner_concat(lazy_header(r) + lazy_scope(r) + "### Diagnostic Summary\n\n"@ + "- Errors: "@ + decimal(d.errors as nat) + "\n"@ + "- Warnings: "@ + decimal(d.warnings as nat) + "\n"@ + "- Info: "@ + decimal(d.info as nat) + "\n\n"@ + findings_section("Errors"@, Severity::Error, fs) + findings_section("Warnings"@, Severity::Warning, fs) + findings_section("Info"@, Severity::Info, fs) + "### Suggested Next Steps\n\n"@, next_steps(fs, "- No lazy fast diagnostics findings were emitted. Keep this report with the fixture for regression tracking.\n"@));
        assert(lazy_markdown_report(r) == lazy_header(r) + lazy_scope(r) + "### Diagnostic Summary\n\n"@ + "- Errors: "@ + decimal(d.errors as nat) + "\n"@ + "- Warnings: "@ + decimal(d.warnings as nat) + "\n"@ + "- Info: "@ + decimal(d.info as nat) + "\n\n"@ + findings_section("Errors"@, Severity::Error, fs) + findings_section("Warnings"@, Severity::Warning, fs) + findings_section("Info"@, Severity::Info, fs) + "### Suggested Next Steps\n\n"@ + next_steps(fs, "- No lazy fast diagnostics findings were emitted. Keep this report with the fixture for regression tracking.\n"@));
        lemma_banner_not_contained(lazy_markdown_report(r));
    }
}

} // verus!
