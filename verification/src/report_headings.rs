//! Which section headings a rendered report can hold: a heading whose word
//! the report's own headings do not start with never appears, as long as
//! the report's text fields cannot spell a heading marker themselves.
use vstd::prelude::*;
use crate::pdf_model::{Finding, ObjectRef, Severity, count_severity};
use crate::report::{
    LazyDebugReport, bullet_lines, lazy_header, fact_line, lazy_header_facts, lazy_header_top, lazy_markdown_report, lazy_scope, lemma_lazy_markdown_parts,
    DebugReport, contains_text, lemma_markdown_sections, count_text, finding_line, finding_lines, findings_section, markdown_report, next_steps,
    object_part, offset_part, optional_ref_text, page_part, section_heading, step_lines, version_text, yes_no_text,
};
use crate::text::{decimal, string_views};

verus! {

/// `s` holds no `#`.
pub open spec fn hash_free(s: Seq<char>) -> bool {
    forall|i: int| 0 <= i < s.len() ==> s[i] != '#'
}

/// Every `#` of `s` has the rest of a heading marker after it, and every
/// `### ` in `s` is followed, inside `s`, by a character that differs from
/// the word `w` at that place.
pub open spec fn headings_avoid(s: Seq<char>, w: Seq<char>) -> bool {
    &&& forall|i: int| 0 <= i < s.len() && s[i] == '#' ==> i + 4 <= s.len()
    &&& forall|i: int| 0 <= i && i + 4 <= s.len() && #[trigger] s.subrange(i, i + 4) == "### "@
        ==> exists|k: int| 0 <= k < w.len() && i + 4 + k < s.len() && #[trigger] s[i + 4 + k] != w[k]
}

/// `w` holds no line feed.
pub open spec fn one_line(w: Seq<char>) -> bool {
    forall|k: int| 0 <= k < w.len() ==> w[k] != '\n'
}

proof fn lemma_marker_chars()
    ensures
        "### "@.len() == 4,
        "### "@[0] == '#',
        "### "@[1] == '#',
        "### "@[2] == '#',
        "### "@[3] == ' ',
        "\n\n"@.len() == 2,
        "\n\n"@[0] == '\n',
        "\n\n"@[1] == '\n',
{
    reveal_strlit("### ");
    reveal_strlit("\n\n");
}

proof fn lemma_hash_free_concat(a: Seq<char>, b: Seq<char>)
    requires
        hash_free(a),
        hash_free(b),
    ensures
        hash_free(a + b),
{
    assert forall|i: int| 0 <= i < (a + b).len() implies (a + b)[i] != '#' by {
        if i >= a.len() {
            assert((a + b)[i] == b[i - a.len()]);
        }
    }
}

/// A heading `### h` with a blank line after it avoids a one-line word `w`
/// that `h` does not start with, when `h` holds no `#`.
proof fn lemma_heading_avoids(h: Seq<char>, w: Seq<char>)
    requires
        hash_free(h),
        one_line(w),
        w.len() > 0,
        !(w.len() <= h.len() && h.subrange(0, w.len() as int) == w),
    ensures
        headings_avoid("### "@ + h + "\n\n"@, w),
{
    lemma_marker_chars();
    let s = "### "@ + h + "\n\n"@;
    assert(s.len() == 6 + h.len());
    assert forall|i: int| 0 <= i < s.len() && s[i] == '#' implies i + 4 <= s.len() by {
        if i >= 4 && i < 4 + h.len() {
            assert(s[i] == h[i - 4]);
        } else if i >= 4 + h.len() {
            assert(s[i] == "\n\n"@[i - 4 - h.len()]);
        }
    }
    assert forall|i: int| 0 <= i && i + 4 <= s.len() && #[trigger] s.subrange(i, i + 4) == "### "@
        implies exists|k: int| 0 <= k < w.len() && i + 4 + k < s.len() && #[trigger] s[i + 4 + k] != w[k] by {
        let win = s.subrange(i, i + 4);
        assert(win[0] == s[i]);
        assert(win[1] == s[i + 1]);
        assert(win[2] == s[i + 2]);
        if i == 0 {
            if w.len() <= h.len() {
                if forall|k: int| 0 <= k < w.len() ==> h[k] == w[k] {
                    assert(h.subrange(0, w.len() as int) =~= w);
                }
                let k = choose|k: int| !(0 <= k < w.len() ==> h[k] == w[k]);
                assert(s[4 + k] == h[k]);
            } else {
                let k = h.len() as int;
                assert(s[4 + k] == '\n');
                assert(w[k] != '\n');
            }
        } else if i == 1 || i == 2 {
            assert(s[3] == ' ');
        } else if i < 4 + h.len() {
            assert(s[i] == h[i - 4]);
        } else {
            assert(s[i] == "\n\n"@[i - 4 - h.len()]);
        }
    }
}

/// A text that avoids `w` holds no heading `### w` followed by a blank line.
proof fn lemma_avoided_not_contained(s: Seq<char>, w: Seq<char>)
    requires
        windows_avoid(s, w),
    ensures
        !contains_text(s, section_heading(w)),
{
    lemma_marker_chars();
    let t = section_heading(w);
    if contains_text(s, t) {
        let i = choose|i: int| 0 <= i && i + t.len() <= s.len() && #[trigger] s.subrange(i, i + t.len()) == t;
        assert(s.subrange(i, i + 4) =~= t.subrange(0, 4));
        assert(t.subrange(0, 4) =~= "### "@);
        let k = choose|k: int| 0 <= k < w.len() && i + 4 + k < s.len() && #[trigger] s[i + 4 + k] != w[k];
        assert(s[i + 4 + k] == s.subrange(i, i + t.len())[4 + k]);
        assert(t[4 + k] == w[k]);
    }
}

// ---------------------------------------------------------------------------
// The texts of a report
// ---------------------------------------------------------------------------

proof fn lemma_decimal_hash_free(n: nat)
    ensures
        hash_free(decimal(n)),
    decreases n,
{
    if n >= 10 {
        lemma_decimal_hash_free(n / 10);
        let d = decimal(n / 10);
        assert forall|i: int| 0 <= i < decimal(n).len() implies decimal(n)[i] != '#' by {
            if i < d.len() {
                assert(decimal(n)[i] == d[i]);
            }
        }
    }
}

proof fn lemma_ref_hash_free(r: ObjectRef)
    ensures
        hash_free(r.spec_text()),
{
    lemma_decimal_hash_free(r.object as nat);
    lemma_decimal_hash_free(r.generation as nat);
    lemma_hash_free_concat(decimal(r.object as nat), seq![' ']);
    lemma_hash_free_concat(decimal(r.object as nat) + seq![' '], decimal(r.generation as nat));
    lemma_hash_free_concat(decimal(r.object as nat) + seq![' '] + decimal(r.generation as nat), seq![' ', 'R']);
}

proof fn lemma_report_literals()
    ensures
        hash_free("- "@),
        hash_free("\n"@),
        hash_free("\n\n"@),
        hash_free("Page `"@),
        hash_free("`: "@),
        hash_free("Object `"@),
        hash_free(" Byte offset `"@),
        hash_free("`."@),
        hash_free("yes"@),
        hash_free("no"@),
        hash_free("unknown"@),
        hash_free("File: `"@),
        hash_free("`\n"@),
        hash_free("PDF version: "@),
        hash_free("Pages: "@),
        hash_free("Encrypted: "@),
        hash_free("Linearized: "@),
        hash_free("Incremental updates: "@),
        hash_free("Objects: "@),
        hash_free("Streams: "@),
        hash_free("- No diagnostics were emitted. Keep this report with the fixture for regression tracking.\n"@),
{
    reveal_strlit("- ");
    reveal_strlit("\n");
    reveal_strlit("\n\n");
    reveal_strlit("Page `");
    reveal_strlit("`: ");
    reveal_strlit("Object `");
    reveal_strlit(" Byte offset `");
    reveal_strlit("`.");
    reveal_strlit("yes");
    reveal_strlit("no");
    reveal_strlit("unknown");
    reveal_strlit("File: `");
    reveal_strlit("`\n");
    reveal_strlit("PDF version: ");
    reveal_strlit("Pages: ");
    reveal_strlit("Encrypted: ");
    reveal_strlit("Linearized: ");
    reveal_strlit("Incremental updates: ");
    reveal_strlit("Objects: ");
    reveal_strlit("Streams: ");
    reveal_strlit("- No diagnostics were emitted. Keep this report with the fixture for regression tracking.\n");
}

proof fn lemma_words()
    ensures
        hash_free("Errors"@), hash_free("Warnings"@), hash_free("Info"@), hash_free("Suggested Next Steps"@),
        one_line("Errors"@), one_line("Warnings"@), one_line("Info"@),
        "Errors"@.len() == 6, "Warnings"@.len() == 8, "Info"@.len() == 4, "Suggested Next Steps"@.len() == 20,
        "Errors"@[0] == 'E', "Warnings"@[0] == 'W', "Info"@[0] == 'I', "Suggested Next Steps"@[0] == 'S',
        "### Suggested Next Steps\n\n"@ == "### "@ + "Suggested Next Steps"@ + "\n\n"@,
        "## PDF Debug Report\n\n"@ == "## "@ + "PDF Debug Report\n\n"@,
        "## "@.len() == 3, "## "@[0] == '#', "## "@[1] == '#', "## "@[2] == ' ',
        hash_free("PDF Debug Report\n\n"@), "PDF Debug Report\n\n"@.len() == 18,
{
    reveal_strlit("Errors");
    reveal_strlit("Warnings");
    reveal_strlit("Info");
    reveal_strlit("Suggested Next Steps");
    reveal_strlit("### Suggested Next Steps\n\n");
    reveal_strlit("### ");
    reveal_strlit("\n\n");
    reveal_strlit("## PDF Debug Report\n\n");
    reveal_strlit("## ");
    reveal_strlit("PDF Debug Report\n\n");
    assert("### Suggested Next Steps\n\n"@ =~= "### "@ + "Suggested Next Steps"@ + "\n\n"@);
    assert("## PDF Debug Report\n\n"@ =~= "## "@ + "PDF Debug Report\n\n"@);
}

/// A `## ` title line avoids every word.
proof fn lemma_title_avoids(rest: Seq<char>, w: Seq<char>)
    requires
        hash_free(rest),
        rest.len() >= 2,
    ensures
        headings_avoid("## "@ + rest, w),
{
    lemma_words();
    let s = "## "@ + rest;
    assert forall|i: int| 0 <= i < s.len() && s[i] == '#' implies i + 4 <= s.len() by {
        if i >= 3 {
            assert(s[i] == rest[i - 3]);
        }
    }
    assert forall|i: int| 0 <= i && i + 4 <= s.len() && #[trigger] s.subrange(i, i + 4) == "### "@
        implies exists|k: int| 0 <= k < w.len() && i + 4 + k < s.len() && #[trigger] s[i + 4 + k] != w[k] by {
        lemma_marker_chars();
        let win = s.subrange(i, i + 4);
        assert(win[0] == s[i]);
        assert(win[1] == s[i + 1]);
        assert(win[2] == s[i + 2]);
        if i == 0 || i == 1 {
            assert(s[2] == ' ');
        } else {
            assert(s[i] == rest[i - 3]);
        }
    }
}

pub open spec fn has_severity_of(fs: Seq<Finding>, sev: Severity) -> bool {
    exists|i: int| 0 <= i < fs.len() && #[trigger] fs[i].severity == sev
}

proof fn lemma_count_zero(fs: Seq<Finding>, sev: Severity)
    requires
        !has_severity_of(fs, sev),
    ensures
        count_severity(fs, sev) == 0,
    decreases fs.len(),
{
    if fs.len() > 0 {
        let prev = fs.drop_last();
        assert(!has_severity_of(prev, sev)) by {
            if has_severity_of(prev, sev) {
                let i = choose|i: int| 0 <= i < prev.len() && #[trigger] prev[i].severity == sev;
                assert(fs[i] == prev[i]);
            }
        }
        lemma_count_zero(prev, sev);
        assert(fs[fs.len() - 1] == fs.last());
    }
}

/// The header lines of a Markdown report.
pub open spec fn report_head(r: DebugReport) -> Seq<char> {
    let f = r.file;
    "## PDF Debug Report\n\n"@ + "File: `"@ + f.file_name@ + "`\n"@ + "PDF version: "@ + version_text(f.pdf_version) + "\n"@ + "Pages: "@ + count_text(f.page_count) + "\n"@ + "Encrypted: "@ + yes_no_text(f.encrypted) + "\n"@ + "Linearized: "@ + yes_no_text(f.linearized) + "\n"@ + "Incremental updates: "@ + decimal(f.incremental_update_count as nat) + "\n"@ + "Objects: "@ + decimal(f.object_count as nat) + "\n"@ + "Streams: "@ + decimal(f.stream_count as nat) + "\n\n"@
}

// ---------------------------------------------------------------------------
// Texts without three `#` in a row
// ---------------------------------------------------------------------------

/// `s` is empty or does not end with `#`.
pub open spec fn ends_plain(s: Seq<char>) -> bool {
    s.len() == 0 || s[s.len() - 1] != '#'
}

/// `s` is empty or does not start with `#`.
pub open spec fn starts_plain(s: Seq<char>) -> bool {
    s.len() == 0 || s[0] != '#'
}

/// `s` holds no `###`.
pub open spec fn triple_free(s: Seq<char>) -> bool {
    !contains_text(s, "###"@)
}

proof fn lemma_triple_chars()
    ensures
        "###"@.len() == 3,
        "###"@[0] == '#',
        "###"@[1] == '#',
        "###"@[2] == '#',
{
    reveal_strlit("###");
}

/// A text without `#` holds no `###` and neither starts nor ends with `#`.
proof fn lemma_hf_tf(s: Seq<char>)
    requires
        hash_free(s),
    ensures
        triple_free(s),
        ends_plain(s),
        starts_plain(s),
{
    lemma_triple_chars();
    if contains_text(s, "###"@) {
        let i = choose|i: int| 0 <= i && i + 3 <= s.len() && #[trigger] s.subrange(i, i + 3) == "###"@;
        assert(s.subrange(i, i + 3)[0] == s[i]);
    }
}

/// Joining two texts without `###` makes none, unless the first ends and
/// the second starts with `#`.
proof fn lemma_tf_step(a: Seq<char>, b: Seq<char>)
    requires
        triple_free(a),
        triple_free(b),
        ends_plain(a) || starts_plain(b),
    ensures
        triple_free(a + b),
        ends_plain(b) && (b.len() > 0 || ends_plain(a)) ==> ends_plain(a + b),
{
    lemma_triple_chars();
    let s = a + b;
    if contains_text(s, "###"@) {
        let i = choose|i: int| 0 <= i && i + 3 <= s.len() && #[trigger] s.subrange(i, i + 3) == "###"@;
        let win = s.subrange(i, i + 3);
        assert(win[0] == s[i] && win[1] == s[i + 1] && win[2] == s[i + 2]);
        if i + 3 <= a.len() {
            assert(a.subrange(i, i + 3) =~= win);
        } else if i >= a.len() {
            assert(b.subrange(i - a.len(), i - a.len() + 3) =~= win);
        } else {
            assert(s[a.len() - 1] == a[a.len() - 1]);
            assert(s[a.len() as int] == b[0]);
        }
    }
    if b.len() == 0 {
        assert(s =~= a);
    } else {
        assert(s[s.len() - 1] == b[b.len() - 1]);
    }
}

/// Every `### ` inside `s` is followed, inside `s`, by a character that
/// differs from the word `w` at that place.
pub open spec fn windows_avoid(s: Seq<char>, w: Seq<char>) -> bool {
    forall|i: int| 0 <= i && i + 4 <= s.len() && #[trigger] s.subrange(i, i + 4) == "### "@
        ==> exists|k: int| 0 <= k < w.len() && i + 4 + k < s.len() && #[trigger] s[i + 4 + k] != w[k]
}

proof fn lemma_tf_windows(s: Seq<char>, w: Seq<char>)
    requires
        triple_free(s),
    ensures
        windows_avoid(s, w),
{
    lemma_triple_chars();
    lemma_marker_chars();
    assert forall|i: int| 0 <= i && i + 4 <= s.len() && #[trigger] s.subrange(i, i + 4) == "### "@
        implies exists|k: int| 0 <= k < w.len() && i + 4 + k < s.len() && #[trigger] s[i + 4 + k] != w[k] by {
        assert(s.subrange(i, i + 3) =~= s.subrange(i, i + 4).subrange(0, 3));
        assert("### "@.subrange(0, 3) =~= "###"@);
    }
}

/// Joining a text that does not end with `#` to another keeps every
/// `### ` followed by a mismatch.
proof fn lemma_windows_concat(a: Seq<char>, b: Seq<char>, w: Seq<char>)
    requires
        windows_avoid(a, w),
        windows_avoid(b, w),
        ends_plain(a),
    ensures
        windows_avoid(a + b, w),
        ends_plain(b) && (b.len() > 0 || ends_plain(a)) ==> ends_plain(a + b),
{
    lemma_marker_chars();
    let s = a + b;
    assert forall|i: int| 0 <= i && i + 4 <= s.len() && #[trigger] s.subrange(i, i + 4) == "### "@
        implies exists|k: int| 0 <= k < w.len() && i + 4 + k < s.len() && #[trigger] s[i + 4 + k] != w[k] by {
        let win = s.subrange(i, i + 4);
        assert(win[0] == s[i] && win[1] == s[i + 1] && win[2] == s[i + 2]);
        if i + 4 <= a.len() {
            assert(s.subrange(i, i + 4) =~= a.subrange(i, i + 4));
            let k = choose|k: int| 0 <= k < w.len() && i + 4 + k < a.len() && #[trigger] a[i + 4 + k] != w[k];
            assert(s[i + 4 + k] == a[i + 4 + k]);
        } else if i >= a.len() {
            let j = i - a.len();
            assert(s.subrange(i, i + 4) =~= b.subrange(j, j + 4));
            let k = choose|k: int| 0 <= k < w.len() && j + 4 + k < b.len() && #[trigger] b[j + 4 + k] != w[k];
            assert(s[i + 4 + k] == b[j + 4 + k]);
        } else {
            assert(s[a.len() - 1] == a[a.len() - 1]);
            assert(win[a.len() - 1 - i] == s[a.len() - 1]);
        }
    }
    if b.len() == 0 {
        assert(s =~= a);
    } else {
        assert(s[s.len() - 1] == b[b.len() - 1]);
    }
}

/// The findings' text fields that a Markdown report shows hold no `###`.
pub open spec fn findings_triple_free(fs: Seq<Finding>) -> bool {
    forall|i: int| 0 <= i < fs.len() ==> triple_free((#[trigger] fs[i]).message@) && triple_free(fs[i].suggested_next_step@)
}

proof fn lemma_parts_hash_free(f: Finding)
    ensures
        hash_free(page_part(f.page)),
        hash_free(object_part(f.object)),
        hash_free(offset_part(f.byte_offset)),
{
    lemma_report_literals();
    match f.page {
        Some(p) => {
            lemma_decimal_hash_free(p as nat);
            lemma_hash_free_concat("Page `"@, decimal(p as nat));
            lemma_hash_free_concat("Page `"@ + decimal(p as nat), "`: "@);
        },
        None => {},
    }
    match f.object {
        Some(r) => {
            lemma_ref_hash_free(r);
            lemma_hash_free_concat("Object `"@, r.spec_text());
            lemma_hash_free_concat("Object `"@ + r.spec_text(), "`: "@);
        },
        None => {},
    }
    match f.byte_offset {
        Some(o) => {
            lemma_decimal_hash_free(o as nat);
            lemma_hash_free_concat(" Byte offset `"@, decimal(o as nat));
            lemma_hash_free_concat(" Byte offset `"@ + decimal(o as nat), "`."@);
        },
        None => {},
    }
}

proof fn lemma_short_literals()
    ensures
        "- "@.len() == 2,
        "\n"@.len() == 1,
        "File: `"@.len() > 0,
        "PDF version: "@.len() > 0,
        "\n\n"@.len() == 2,
{
    reveal_strlit("\n\n");
    reveal_strlit("- ");
    reveal_strlit("\n");
    reveal_strlit("File: `");
    reveal_strlit("PDF version: ");
}

proof fn lemma_finding_line_tf(f: Finding)
    requires
        triple_free(f.message@),
    ensures
        triple_free(finding_line(f)),
        ends_plain(finding_line(f)),
        finding_line(f).len() > 0,
{
    lemma_report_literals();
    lemma_short_literals();
    lemma_parts_hash_free(f);
    let pp = page_part(f.page);
    let op = object_part(f.object);
    let fp = offset_part(f.byte_offset);
    lemma_hash_free_concat("- "@, pp);
    lemma_hash_free_concat("- "@ + pp, op);
    let pre = "- "@ + pp + op;
    lemma_hf_tf(pre);
    lemma_hf_tf(fp);
    lemma_hf_tf("\n"@);
    lemma_tf_step(pre, f.message@);
    lemma_tf_step(pre + f.message@, fp);
    lemma_tf_step(pre + f.message@ + fp, "\n"@);
}

proof fn lemma_finding_lines_tf(fs: Seq<Finding>, sev: Severity)
    requires
        findings_triple_free(fs),
    ensures
        triple_free(finding_lines(fs, sev)),
        ends_plain(finding_lines(fs, sev)),
    decreases fs.len(),
{
    lemma_triple_chars();
    if fs.len() == 0 {
        assert(!contains_text(Seq::<char>::empty(), "###"@));
    } else {
        let prev = fs.drop_last();
        assert forall|i: int| 0 <= i < prev.len() implies triple_free((#[trigger] prev[i]).message@)
            && triple_free(prev[i].suggested_next_step@) by {
            assert(prev[i] == fs[i]);
        }
        lemma_finding_lines_tf(prev, sev);
        assert(fs.last() == fs[fs.len() - 1]);
        if fs.last().severity == sev {
            lemma_finding_line_tf(fs.last());
            lemma_tf_step(finding_lines(prev, sev), finding_line(fs.last()));
        } else {
            assert(finding_lines(fs, sev) =~= finding_lines(prev, sev));
        }
    }
}

proof fn lemma_step_lines_tf(fs: Seq<Finding>)
    requires
        findings_triple_free(fs),
    ensures
        triple_free(step_lines(fs)),
    decreases fs.len(),
{
    lemma_triple_chars();
    lemma_report_literals();
    lemma_short_literals();
    if fs.len() == 0 {
        assert(!contains_text(Seq::<char>::empty(), "###"@));
    } else {
        let prev = fs.drop_last();
        assert forall|i: int| 0 <= i < prev.len() implies triple_free((#[trigger] prev[i]).message@)
            && triple_free(prev[i].suggested_next_step@) by {
            assert(prev[i] == fs[i]);
        }
        lemma_step_lines_tf(prev);
        assert(fs.last() == fs[fs.len() - 1]);
        let n = fs.last().suggested_next_step@;
        lemma_hf_tf("- "@);
        lemma_hf_tf("\n"@);
        lemma_tf_step(step_lines(prev), "- "@);
        lemma_tf_step(step_lines(prev) + "- "@, n);
        lemma_tf_step(step_lines(prev) + "- "@ + n, "\n"@);
    }
}

/// A findings section avoids `w` when its heading does not start with `w`.
proof fn lemma_section_windows(heading: Seq<char>, sev: Severity, fs: Seq<Finding>, w: Seq<char>)
    requires
        findings_triple_free(fs),
        hash_free(heading),
        one_line(w),
        w.len() > 0,
        !(w.len() <= heading.len() && heading.subrange(0, w.len() as int) == w),
    ensures
        windows_avoid(findings_section(heading, sev, fs), w),
        ends_plain(findings_section(heading, sev, fs)),
{
    lemma_report_literals();
    lemma_marker_chars();
    if count_severity(fs, sev) == 0 {
        assert(findings_section(heading, sev, fs) =~= Seq::<char>::empty());
    } else {
        let h = "### "@ + heading + "\n\n"@;
        lemma_heading_avoids(heading, w);
        assert(h[h.len() - 1] == '\n');
        lemma_finding_lines_tf(fs, sev);
        lemma_hf_tf("\n"@);
        lemma_tf_step(finding_lines(fs, sev), "\n"@);
        lemma_tf_windows(finding_lines(fs, sev) + "\n"@, w);
        lemma_windows_concat(h, finding_lines(fs, sev) + "\n"@, w);
        assert(findings_section(heading, sev, fs) =~= h + (finding_lines(fs, sev) + "\n"@));
    }
}

/// The text fields of a report that its Markdown shows hold no `###`.
pub open spec fn report_fields_triple_free(r: DebugReport) -> bool {
    &&& triple_free(r.file.file_name@)
    &&& (r.file.pdf_version matches Some(v) ==> triple_free(v@))
    &&& findings_triple_free(r.findings@)
}

/// The header lines after the title.
pub open spec fn report_head_body(r: DebugReport) -> Seq<char> {
    let f = r.file;
    "File: `"@ + f.file_name@ + "`\n"@ + "PDF version: "@ + version_text(f.pdf_version) + "\n"@ + "Pages: "@ + count_text(f.page_count) + "\n"@ + "Encrypted: "@ + yes_no_text(f.encrypted) + "\n"@ + "Linearized: "@ + yes_no_text(f.linearized) + "\n"@ + "Incremental updates: "@ + decimal(f.incremental_update_count as nat) + "\n"@ + "Objects: "@ + decimal(f.object_count as nat) + "\n"@ + "Streams: "@ + decimal(f.stream_count as nat) + "\n\n"@
}

#[verifier::rlimit(60)]
proof fn lemma_head_body_tf(r: DebugReport)
    requires
        report_fields_triple_free(r),
    ensures
        triple_free(report_head_body(r)),
        ends_plain(report_head_body(r)),
{
    lemma_report_literals();
    lemma_short_literals();
    let f = r.file;
    lemma_decimal_hash_free(f.incremental_update_count as nat);
    lemma_decimal_hash_free(f.object_count as nat);
    lemma_decimal_hash_free(f.stream_count as nat);
    match f.page_count {
        Some(n) => lemma_decimal_hash_free(n as nat),
        None => {},
    }
    if f.pdf_version is None {
        lemma_hf_tf("unknown"@);
    }
    lemma_hf_tf("File: `"@);
    lemma_hf_tf("`\n"@);
    lemma_hf_tf("PDF version: "@);
    lemma_hf_tf("\n"@);
    lemma_hf_tf("Pages: "@);
    lemma_hf_tf(count_text(f.page_count));
    lemma_hf_tf("\n"@);
    lemma_hf_tf("Encrypted: "@);
    lemma_hf_tf(yes_no_text(f.encrypted));
    lemma_hf_tf("\n"@);
    lemma_hf_tf("Linearized: "@);
    lemma_hf_tf(yes_no_text(f.linearized));
    lemma_hf_tf("\n"@);
    lemma_hf_tf("Incremental updates: "@);
    lemma_hf_tf(decimal(f.incremental_update_count as nat));
    lemma_hf_tf("\n"@);
    lemma_hf_tf("Objects: "@);
    lemma_hf_tf(decimal(f.object_count as nat));
    lemma_hf_tf("\n"@);
    lemma_hf_tf("Streams: "@);
    lemma_hf_tf(decimal(f.stream_count as nat));
    lemma_hf_tf("\n\n"@);
    lemma_tf_step("File: `"@, f.file_name@);
    lemma_tf_step("File: `"@ + f.file_name@, "`\n"@);
    lemma_tf_step("File: `"@ + f.file_name@ + "`\n"@, "PDF version: "@);
    lemma_tf_step("File: `"@ + f.file_name@ + "`\n"@ + "PDF version: "@, version_text(f.pdf_version));
    lemma_tf_step("File: `"@ + f.file_name@ + "`\n"@ + "PDF version: "@ + version_text(f.pdf_version), "\n"@);
    lemma_tf_step("File: `"@ + f.file_name@ + "`\n"@ + "PDF version: "@ + version_text(f.pdf_version) + "\n"@, "Pages: "@);
    lemma_tf_step("File: `"@ + f.file_name@ + "`\n"@ + "PDF version: "@ + version_text(f.pdf_version) + "\n"@ + "Pages: "@, count_text(f.page_count));
    lemma_tf_step("File: `"@ + f.file_name@ + "`\n"@ + "PDF version: "@ + version_text(f.pdf_version) + "\n"@ + "Pages: "@ + count_text(f.page_count), "\n"@);
    lemma_tf_step("File: `"@ + f.file_name@ + "`\n"@ + "PDF version: "@ + version_text(f.pdf_version) + "\n"@ + "Pages: "@ + count_text(f.page_count) + "\n"@, "Encrypted: "@);
    lemma_tf_step("File: `"@ + f.file_name@ + "`\n"@ + "PDF version: "@ + version_text(f.pdf_version) + "\n"@ + "Pages: "@ + count_text(f.page_count) + "\n"@ + "Encrypted: "@, yes_no_text(f.encrypted));
    lemma_tf_step("File: `"@ + f.file_name@ + "`\n"@ + "PDF version: "@ + version_text(f.pdf_version) + "\n"@ + "Pages: "@ + count_text(f.page_count) + "\n"@ + "Encrypted: "@ + yes_no_text(f.encrypted), "\n"@);
    lemma_tf_step("File: `"@ + f.file_name@ + "`\n"@ + "PDF version: "@ + version_text(f.pdf_version) + "\n"@ + "Pages: "@ + count_text(f.page_count) + "\n"@ + "Encrypted: "@ + yes_no_text(f.encrypted) + "\n"@, "Linearized: "@);
    lemma_tf_step("File: `"@ + f.file_name@ + "`\n"@ + "PDF version: "@ + version_text(f.pdf_version) + "\n"@ + "Pages: "@ + count_text(f.page_count) + "\n"@ + "Encrypted: "@ + yes_no_text(f.encrypted) + "\n"@ + "Linearized: "@, yes_no_text(f.linearized));
    lemma_tf_step("File: `"@ + f.file_name@ + "`\n"@ + "PDF version: "@ + version_text(f.pdf_version) + "\n"@ + "Pages: "@ + count_text(f.page_count) + "\n"@ + "Encrypted: "@ + yes_no_text(f.encrypted) + "\n"@ + "Linearized: "@ + yes_no_text(f.linearized), "\n"@);
    lemma_tf_step("File: `"@ + f.file_name@ + "`\n"@ + "PDF version: "@ + version_text(f.pdf_version) + "\n"@ + "Pages: "@ + count_text(f.page_count) + "\n"@ + "Encrypted: "@ + yes_no_text(f.encrypted) + "\n"@ + "Linearized: "@ + yes_no_text(f.linearized) + "\n"@, "Incremental updates: "@);
    lemma_tf_step("File: `"@ + f.file_name@ + "`\n"@ + "PDF version: "@ + version_text(f.pdf_version) + "\n"@ + "Pages: "@ + count_text(f.page_count) + "\n"@ + "Encrypted: "@ + yes_no_text(f.encrypted) + "\n"@ + "Linearized: "@ + yes_no_text(f.linearized) + "\n"@ + "Incremental updates: "@, decimal(f.incremental_update_count as nat));
    lemma_tf_step("File: `"@ + f.file_name@ + "`\n"@ + "PDF version: "@ + version_text(f.pdf_version) + "\n"@ + "Pages: "@ + count_text(f.page_count) + "\n"@ + "Encrypted: "@ + yes_no_text(f.encrypted) + "\n"@ + "Linearized: "@ + yes_no_text(f.linearized) + "\n"@ + "Incremental updates: "@ + decimal(f.incremental_update_count as nat), "\n"@);
    lemma_tf_step("File: `"@ + f.file_name@ + "`\n"@ + "PDF version: "@ + version_text(f.pdf_version) + "\n"@ + "Pages: "@ + count_text(f.page_count) + "\n"@ + "Encrypted: "@ + yes_no_text(f.encrypted) + "\n"@ + "Linearized: "@ + yes_no_text(f.linearized) + "\n"@ + "Incremental updates: "@ + decimal(f.incremental_update_count as nat) + "\n"@, "Objects: "@);
    lemma_tf_step("File: `"@ + f.file_name@ + "`\n"@ + "PDF version: "@ + version_text(f.pdf_version) + "\n"@ + "Pages: "@ + count_text(f.page_count) + "\n"@ + "Encrypted: "@ + yes_no_text(f.encrypted) + "\n"@ + "Linearized: "@ + yes_no_text(f.linearized) + "\n"@ + "Incremental updates: "@ + decimal(f.incremental_update_count as nat) + "\n"@ + "Objects: "@, decimal(f.object_count as nat));
    lemma_tf_step("File: `"@ + f.file_name@ + "`\n"@ + "PDF version: "@ + version_text(f.pdf_version) + "\n"@ + "Pages: "@ + count_text(f.page_count) + "\n"@ + "Encrypted: "@ + yes_no_text(f.encrypted) + "\n"@ + "Linearized: "@ + yes_no_text(f.linearized) + "\n"@ + "Incremental updates: "@ + decimal(f.incremental_update_count as nat) + "\n"@ + "Objects: "@ + decimal(f.object_count as nat), "\n"@);
    lemma_tf_step("File: `"@ + f.file_name@ + "`\n"@ + "PDF version: "@ + version_text(f.pdf_version) + "\n"@ + "Pages: "@ + count_text(f.page_count) + "\n"@ + "Encrypted: "@ + yes_no_text(f.encrypted) + "\n"@ + "Linearized: "@ + yes_no_text(f.linearized) + "\n"@ + "Incremental updates: "@ + decimal(f.incremental_update_count as nat) + "\n"@ + "Objects: "@ + decimal(f.object_count as nat) + "\n"@, "Streams: "@);
    lemma_tf_step("File: `"@ + f.file_name@ + "`\n"@ + "PDF version: "@ + version_text(f.pdf_version) + "\n"@ + "Pages: "@ + count_text(f.page_count) + "\n"@ + "Encrypted: "@ + yes_no_text(f.encrypted) + "\n"@ + "Linearized: "@ + yes_no_text(f.linearized) + "\n"@ + "Incremental updates: "@ + decimal(f.incremental_update_count as nat) + "\n"@ + "Objects: "@ + decimal(f.object_count as nat) + "\n"@ + "Streams: "@, decimal(f.stream_count as nat));
    lemma_tf_step("File: `"@ + f.file_name@ + "`\n"@ + "PDF version: "@ + version_text(f.pdf_version) + "\n"@ + "Pages: "@ + count_text(f.page_count) + "\n"@ + "Encrypted: "@ + yes_no_text(f.encrypted) + "\n"@ + "Linearized: "@ + yes_no_text(f.linearized) + "\n"@ + "Incremental updates: "@ + decimal(f.incremental_update_count as nat) + "\n"@ + "Objects: "@ + decimal(f.object_count as nat) + "\n"@ + "Streams: "@ + decimal(f.stream_count as nat), "\n\n"@);
}

#[verifier::rlimit(60)]
proof fn lemma_head_split(r: DebugReport)
    ensures
        report_head(r) == "## PDF Debug Report\n\n"@ + report_head_body(r),
{
    let f = r.file;
    let title = "## PDF Debug Report\n\n"@;
    vstd::seq_lib::lemma_concat_associative(title, "File: `"@, f.file_name@);
    vstd::seq_lib::lemma_concat_associative(title, "File: `"@ + f.file_name@, "`\n"@);
    vstd::seq_lib::lemma_concat_associative(title, "File: `"@ + f.file_name@ + "`\n"@, "PDF version: "@);
    vstd::seq_lib::lemma_concat_associative(title, "File: `"@ + f.file_name@ + "`\n"@ + "PDF version: "@, version_text(f.pdf_version));
    vstd::seq_lib::lemma_concat_associative(title, "File: `"@ + f.file_name@ + "`\n"@ + "PDF version: "@ + version_text(f.pdf_version), "\n"@);
    vstd::seq_lib::lemma_concat_associative(title, "File: `"@ + f.file_name@ + "`\n"@ + "PDF version: "@ + version_text(f.pdf_version) + "\n"@, "Pages: "@);
    vstd::seq_lib::lemma_concat_associative(title, "File: `"@ + f.file_name@ + "`\n"@ + "PDF version: "@ + version_text(f.pdf_version) + "\n"@ + "Pages: "@, count_text(f.page_count));
    vstd::seq_lib::lemma_concat_associative(title, "File: `"@ + f.file_name@ + "`\n"@ + "PDF version: "@ + version_text(f.pdf_version) + "\n"@ + "Pages: "@ + count_text(f.page_count), "\n"@);
    vstd::seq_lib::lemma_concat_associative(title, "File: `"@ + f.file_name@ + "`\n"@ + "PDF version: "@ + version_text(f.pdf_version) + "\n"@ + "Pages: "@ + count_text(f.page_count) + "\n"@, "Encrypted: "@);
    vstd::seq_lib::lemma_concat_associative(title, "File: `"@ + f.file_name@ + "`\n"@ + "PDF version: "@ + version_text(f.pdf_version) + "\n"@ + "Pages: "@ + count_text(f.page_count) + "\n"@ + "Encrypted: "@, yes_no_text(f.encrypted));
    vstd::seq_lib::lemma_concat_associative(title, "File: `"@ + f.file_name@ + "`\n"@ + "PDF version: "@ + version_text(f.pdf_version) + "\n"@ + "Pages: "@ + count_text(f.page_count) + "\n"@ + "Encrypted: "@ + yes_no_text(f.encrypted), "\n"@);
    vstd::seq_lib::lemma_concat_associative(title, "File: `"@ + f.file_name@ + "`\n"@ + "PDF version: "@ + version_text(f.pdf_version) + "\n"@ + "Pages: "@ + count_text(f.page_count) + "\n"@ + "Encrypted: "@ + yes_no_text(f.encrypted) + "\n"@, "Linearized: "@);
    vstd::seq_lib::lemma_concat_associative(title, "File: `"@ + f.file_name@ + "`\n"@ + "PDF version: "@ + version_text(f.pdf_version) + "\n"@ + "Pages: "@ + count_text(f.page_count) + "\n"@ + "Encrypted: "@ + yes_no_text(f.encrypted) + "\n"@ + "Linearized: "@, yes_no_text(f.linearized));
    vstd::seq_lib::lemma_concat_associative(title, "File: `"@ + f.file_name@ + "`\n"@ + "PDF version: "@ + version_text(f.pdf_version) + "\n"@ + "Pages: "@ + count_text(f.page_count) + "\n"@ + "Encrypted: "@ + yes_no_text(f.encrypted) + "\n"@ + "Linearized: "@ + yes_no_text(f.linearized), "\n"@);
    vstd::seq_lib::lemma_concat_associative(title, "File: `"@ + f.file_name@ + "`\n"@ + "PDF version: "@ + version_text(f.pdf_version) + "\n"@ + "Pages: "@ + count_text(f.page_count) + "\n"@ + "Encrypted: "@ + yes_no_text(f.encrypted) + "\n"@ + "Linearized: "@ + yes_no_text(f.linearized) + "\n"@, "Incremental updates: "@);
    vstd::seq_lib::lemma_concat_associative(title, "File: `"@ + f.file_name@ + "`\n"@ + "PDF version: "@ + version_text(f.pdf_version) + "\n"@ + "Pages: "@ + count_text(f.page_count) + "\n"@ + "Encrypted: "@ + yes_no_text(f.encrypted) + "\n"@ + "Linearized: "@ + yes_no_text(f.linearized) + "\n"@ + "Incremental updates: "@, decimal(f.incremental_update_count as nat));
    vstd::seq_lib::lemma_concat_associative(title, "File: `"@ + f.file_name@ + "`\n"@ + "PDF version: "@ + version_text(f.pdf_version) + "\n"@ + "Pages: "@ + count_text(f.page_count) + "\n"@ + "Encrypted: "@ + yes_no_text(f.encrypted) + "\n"@ + "Linearized: "@ + yes_no_text(f.linearized) + "\n"@ + "Incremental updates: "@ + decimal(f.incremental_update_count as nat), "\n"@);
    vstd::seq_lib::lemma_concat_associative(title, "File: `"@ + f.file_name@ + "`\n"@ + "PDF version: "@ + version_text(f.pdf_version) + "\n"@ + "Pages: "@ + count_text(f.page_count) + "\n"@ + "Encrypted: "@ + yes_no_text(f.encrypted) + "\n"@ + "Linearized: "@ + yes_no_text(f.linearized) + "\n"@ + "Incremental updates: "@ + decimal(f.incremental_update_count as nat) + "\n"@, "Objects: "@);
    vstd::seq_lib::lemma_concat_associative(title, "File: `"@ + f.file_name@ + "`\n"@ + "PDF version: "@ + version_text(f.pdf_version) + "\n"@ + "Pages: "@ + count_text(f.page_count) + "\n"@ + "Encrypted: "@ + yes_no_text(f.encrypted) + "\n"@ + "Linearized: "@ + yes_no_text(f.linearized) + "\n"@ + "Incremental updates: "@ + decimal(f.incremental_update_count as nat) + "\n"@ + "Objects: "@, decimal(f.object_count as nat));
    vstd::seq_lib::lemma_concat_associative(title, "File: `"@ + f.file_name@ + "`\n"@ + "PDF version: "@ + version_text(f.pdf_version) + "\n"@ + "Pages: "@ + count_text(f.page_count) + "\n"@ + "Encrypted: "@ + yes_no_text(f.encrypted) + "\n"@ + "Linearized: "@ + yes_no_text(f.linearized) + "\n"@ + "Incremental updates: "@ + decimal(f.incremental_update_count as nat) + "\n"@ + "Objects: "@ + decimal(f.object_count as nat), "\n"@);
    vstd::seq_lib::lemma_concat_associative(title, "File: `"@ + f.file_name@ + "`\n"@ + "PDF version: "@ + version_text(f.pdf_version) + "\n"@ + "Pages: "@ + count_text(f.page_count) + "\n"@ + "Encrypted: "@ + yes_no_text(f.encrypted) + "\n"@ + "Linearized: "@ + yes_no_text(f.linearized) + "\n"@ + "Incremental updates: "@ + decimal(f.incremental_update_count as nat) + "\n"@ + "Objects: "@ + decimal(f.object_count as nat) + "\n"@, "Streams: "@);
    vstd::seq_lib::lemma_concat_associative(title, "File: `"@ + f.file_name@ + "`\n"@ + "PDF version: "@ + version_text(f.pdf_version) + "\n"@ + "Pages: "@ + count_text(f.page_count) + "\n"@ + "Encrypted: "@ + yes_no_text(f.encrypted) + "\n"@ + "Linearized: "@ + yes_no_text(f.linearized) + "\n"@ + "Incremental updates: "@ + decimal(f.incremental_update_count as nat) + "\n"@ + "Objects: "@ + decimal(f.object_count as nat) + "\n"@ + "Streams: "@, decimal(f.stream_count as nat));
    vstd::seq_lib::lemma_concat_associative(title, "File: `"@ + f.file_name@ + "`\n"@ + "PDF version: "@ + version_text(f.pdf_version) + "\n"@ + "Pages: "@ + count_text(f.page_count) + "\n"@ + "Encrypted: "@ + yes_no_text(f.encrypted) + "\n"@ + "Linearized: "@ + yes_no_text(f.linearized) + "\n"@ + "Incremental updates: "@ + decimal(f.incremental_update_count as nat) + "\n"@ + "Objects: "@ + decimal(f.object_count as nat) + "\n"@ + "Streams: "@ + decimal(f.stream_count as nat), "\n\n"@);
}

proof fn lemma_head_windows(r: DebugReport, w: Seq<char>)
    requires
        report_fields_triple_free(r),
    ensures
        windows_avoid(report_head(r), w),
        ends_plain(report_head(r)),
{
    let title = "## PDF Debug Report\n\n"@;
    let body = report_head_body(r);
    lemma_words();
    lemma_head_body_tf(r);
    lemma_title_avoids("PDF Debug Report\n\n"@, w);
    assert(title[title.len() - 1] == '\n') by {
        reveal_strlit("## PDF Debug Report\n\n");
    }
    lemma_tf_windows(body, w);
    lemma_windows_concat(title, body, w);
    lemma_head_split(r);
}

proof fn lemma_report_windows(r: DebugReport, w: Seq<char>, sev: Severity)
    requires
        report_fields_triple_free(r),
        one_line(w),
        w.len() > 0,
        !has_severity_of(r.findings@, sev),
        sev == Severity::Error ==> w == "Errors"@,
        sev == Severity::Warning ==> w == "Warnings"@,
        sev == Severity::Info ==> w == "Info"@,
    ensures
        windows_avoid(markdown_report(r), w),
{
    lemma_words();
    lemma_report_literals();
    lemma_marker_chars();
    let fs = r.findings@;
    lemma_head_windows(r, w);
    let head = report_head(r);
    lemma_count_zero(fs, sev);
    let e = findings_section("Errors"@, Severity::Error, fs);
    let ws = findings_section("Warnings"@, Severity::Warning, fs);
    let is = findings_section("Info"@, Severity::Info, fs);
    if sev == Severity::Error {
        assert(e =~= Seq::<char>::empty());
    } else {
        if w.len() <= 6 {
            assert("Errors"@.subrange(0, w.len() as int)[0] == 'E');
        }
        lemma_section_windows("Errors"@, Severity::Error, fs, w);
    }
    if sev == Severity::Warning {
        assert(ws =~= Seq::<char>::empty());
    } else {
        if w.len() <= 8 {
            assert("Warnings"@.subrange(0, w.len() as int)[0] == 'W');
        }
        lemma_section_windows("Warnings"@, Severity::Warning, fs, w);
    }
    if sev == Severity::Info {
        assert(is =~= Seq::<char>::empty());
    } else {
        if w.len() <= 4 {
            assert("Info"@.subrange(0, w.len() as int)[0] == 'I');
        }
        lemma_section_windows("Info"@, Severity::Info, fs, w);
    }
    assert("Suggested Next Steps"@.subrange(0, w.len() as int)[0] == 'S');
    let sh = "### Suggested Next Steps\n\n"@;
    lemma_heading_avoids("Suggested Next Steps"@, w);
    assert(sh[sh.len() - 1] == '\n');
    let fallback = "- No diagnostics were emitted. Keep this report with the fixture for regression tracking.\n"@;
    if fs.len() == 0 {
        lemma_hf_tf(fallback);
    } else {
        let k: int = if fs.len() < 8 { fs.len() as int } else { 8 };
        let t = fs.take(k);
        assert forall|i: int| 0 <= i < t.len() implies triple_free((#[trigger] t[i]).message@)
            && triple_free(t[i].suggested_next_step@) by {
            assert(t[i] == fs[i]);
        }
        lemma_step_lines_tf(t);
    }
    lemma_tf_windows(next_steps(fs, fallback), w);
    lemma_windows_concat(head, e, w);
    lemma_windows_concat(head + e, ws, w);
    lemma_windows_concat(head + e + ws, is, w);
    lemma_windows_concat(head + e + ws + is, sh, w);
    lemma_windows_concat(head + e + ws + is + sh, next_steps(fs, fallback), w);
    assert(markdown_report(r) == head + e + ws + is + sh + next_steps(fs, fallback));
}

/// When no text field of a report (file name, PDF version, finding
/// messages and next steps) holds `###`, its Markdown holds a severity's
/// section heading exactly when it has a finding of that severity.
pub proof fn lemma_markdown_headings_exact(r: DebugReport)
    requires
        report_fields_triple_free(r),
    ensures
        contains_text(markdown_report(r), section_heading("Errors"@)) <==> has_severity_of(r.findings@, Severity::Error),
        contains_text(markdown_report(r), section_heading("Warnings"@)) <==> has_severity_of(r.findings@, Severity::Warning),
        contains_text(markdown_report(r), section_heading("Info"@)) <==> has_severity_of(r.findings@, Severity::Info),
{
    lemma_words();
    lemma_markdown_sections(r);
    if !has_severity_of(r.findings@, Severity::Error) {
        lemma_report_windows(r, "Errors"@, Severity::Error);
        lemma_avoided_not_contained(markdown_report(r), "Errors"@);
    }
    if !has_severity_of(r.findings@, Severity::Warning) {
        lemma_report_windows(r, "Warnings"@, Severity::Warning);
        lemma_avoided_not_contained(markdown_report(r), "Warnings"@);
    }
    if !has_severity_of(r.findings@, Severity::Info) {
        lemma_report_windows(r, "Info"@, Severity::Info);
        lemma_avoided_not_contained(markdown_report(r), "Info"@);
    }
}

proof fn lemma_lazy_literals()
    ensures
        hash_free("> Lazy report. Fast diagnostics only. Deep diagnostics deferred.\n\n"@),
        hash_free("File: `"@),
        hash_free("`\n"@),
        hash_free("File size: "@),
        hash_free(" bytes\n"@),
        hash_free("PDF version: "@),
        hash_free("\n"@),
        hash_free("Open mode: `lazy`\n"@),
        hash_free("Scope: fast diagnostics only\n"@),
        hash_free("Pages: "@),
        hash_free("Encrypted: "@),
        hash_free("Linearized: "@),
        hash_free("Incremental updates: "@),
        hash_free("Root: "@),
        hash_free("Info: "@),
        hash_free("Xref entries: "@),
        hash_free("Objects: "@),
        hash_free("Streams: "@),
        hash_free(" (metadata only in lazy report)\n\n"@),
        hash_free("- This report was generated from metadata-only lazy open data, lazy page metadata, and lazy fast diagnostics.\n"@),
        hash_free("- It does not full-parse the PDF, scan all indirect objects, read all stream bytes, decode all streams, or extract page objects.\n"@),
        hash_free("- Deep diagnostics are deferred and should be run on demand or against a smaller repro PDF.\n\n"@),
        hash_free("- "@),
        hash_free("\n\n"@),
        hash_free("- Errors: "@),
        hash_free("- Warnings: "@),
        hash_free("- Info: "@),
        hash_free("- No lazy fast diagnostics findings were emitted. Keep this report with the fixture for regression tracking.\n"@),
        hash_free("unknown"@),
        hash_free("yes"@),
        hash_free("no"@),
        hash_free("PDF Lazy Debug Report\n\n"@),
        hash_free("Lazy Report Scope"@),
        hash_free("Deferred Deep Diagnostics"@),
        hash_free("Diagnostic Summary"@),
        hash_free("Deep Diagnostics Enrichment"@),
        "### Lazy Report Scope\n\n"@ == "### "@ + "Lazy Report Scope"@ + "\n\n"@,
        "### Deferred Deep Diagnostics\n\n"@ == "### "@ + "Deferred Deep Diagnostics"@ + "\n\n"@,
        "### Diagnostic Summary\n\n"@ == "### "@ + "Diagnostic Summary"@ + "\n\n"@,
        "### Deep Diagnostics Enrichment\n\n"@ == "### "@ + "Deep Diagnostics Enrichment"@ + "\n\n"@,
        "Lazy Report Scope"@.len() == 17,
        "Deferred Deep Diagnostics"@.len() == 25,
        "Diagnostic Summary"@.len() == 18,
        "Deep Diagnostics Enrichment"@.len() == 27,
        "## PDF Lazy Debug Report\n\n"@ == "## "@ + "PDF Lazy Debug Report\n\n"@,
        "PDF Lazy Debug Report\n\n"@.len() >= 2,
{
    reveal_strlit("### ");
    reveal_strlit("\n\n");
    reveal_strlit("## ");
    reveal_strlit("## PDF Lazy Debug Report\n\n");
    reveal_strlit("> Lazy report. Fast diagnostics only. Deep diagnostics deferred.\n\n");
    reveal_strlit("File: `");
    reveal_strlit("`\n");
    reveal_strlit("File size: ");
    reveal_strlit(" bytes\n");
    reveal_strlit("PDF version: ");
    reveal_strlit("\n");
    reveal_strlit("Open mode: `lazy`\n");
    reveal_strlit("Scope: fast diagnostics only\n");
    reveal_strlit("Pages: ");
    reveal_strlit("Encrypted: ");
    reveal_strlit("Linearized: ");
    reveal_strlit("Incremental updates: ");
    reveal_strlit("Root: ");
    reveal_strlit("Info: ");
    reveal_strlit("Xref entries: ");
    reveal_strlit("Objects: ");
    reveal_strlit("Streams: ");
    reveal_strlit(" (metadata only in lazy report)\n\n");
    reveal_strlit("- This report was generated from metadata-only lazy open data, lazy page metadata, and lazy fast diagnostics.\n");
    reveal_strlit("- It does not full-parse the PDF, scan all indirect objects, read all stream bytes, decode all streams, or extract page objects.\n");
    reveal_strlit("- Deep diagnostics are deferred and should be run on demand or against a smaller repro PDF.\n\n");
    reveal_strlit("- ");
    reveal_strlit("\n\n");
    reveal_strlit("- Errors: ");
    reveal_strlit("- Warnings: ");
    reveal_strlit("- Info: ");
    reveal_strlit("- No lazy fast diagnostics findings were emitted. Keep this report with the fixture for regression tracking.\n");
    reveal_strlit("unknown");
    reveal_strlit("yes");
    reveal_strlit("no");
    reveal_strlit("PDF Lazy Debug Report\n\n");
    reveal_strlit("Lazy Report Scope");
    reveal_strlit("Deferred Deep Diagnostics");
    reveal_strlit("Diagnostic Summary");
    reveal_strlit("Deep Diagnostics Enrichment");
    reveal_strlit("### Lazy Report Scope\n\n");
    assert("### Lazy Report Scope\n\n"@ =~= "### "@ + "Lazy Report Scope"@ + "\n\n"@);
    reveal_strlit("### Deferred Deep Diagnostics\n\n");
    assert("### Deferred Deep Diagnostics\n\n"@ =~= "### "@ + "Deferred Deep Diagnostics"@ + "\n\n"@);
    reveal_strlit("### Diagnostic Summary\n\n");
    assert("### Diagnostic Summary\n\n"@ =~= "### "@ + "Diagnostic Summary"@ + "\n\n"@);
    reveal_strlit("### Deep Diagnostics Enrichment\n\n");
    assert("### Deep Diagnostics Enrichment\n\n"@ =~= "### "@ + "Deep Diagnostics Enrichment"@ + "\n\n"@);
    assert("## PDF Lazy Debug Report\n\n"@ =~= "## "@ + "PDF Lazy Debug Report\n\n"@);
}

proof fn lemma_fact_hash_free(label: Seq<char>, v: Seq<char>)
    requires
        hash_free(label),
        hash_free(v),
    ensures
        hash_free(fact_line(label, v)),
{
    lemma_lazy_literals();
    lemma_hash_free_concat(label, v);
    lemma_hash_free_concat(label + v, "\n"@);
}

proof fn lemma_lazy_facts_hash_free(r: LazyDebugReport)
    ensures
        hash_free(lazy_header_facts(r)),
{
    lemma_lazy_literals();
    let f = r.file;
    lemma_decimal_hash_free(f.incremental_update_count as nat);
    lemma_decimal_hash_free(f.xref_entry_count as nat);
    lemma_decimal_hash_free(f.object_count as nat);
    lemma_decimal_hash_free(f.stream_count as nat);
    match f.page_count {
        Some(n) => lemma_decimal_hash_free(n as nat),
        None => {},
    }
    match f.root {
        Some(x) => lemma_ref_hash_free(x),
        None => {},
    }
    match f.info {
        Some(x) => lemma_ref_hash_free(x),
        None => {},
    }
    lemma_fact_hash_free("Pages: "@, count_text(f.page_count));
    lemma_fact_hash_free("Encrypted: "@, yes_no_text(f.encrypted));
    lemma_hash_free_concat(fact_line("Pages: "@, count_text(f.page_count)), fact_line("Encrypted: "@, yes_no_text(f.encrypted)));
    lemma_fact_hash_free("Linearized: "@, yes_no_text(f.linearized));
    lemma_hash_free_concat(fact_line("Pages: "@, count_text(f.page_count)) + fact_line("Encrypted: "@, yes_no_text(f.encrypted)), fact_line("Linearized: "@, yes_no_text(f.linearized)));
    lemma_fact_hash_free("Incremental updates: "@, decimal(f.incremental_update_count as nat));
    lemma_hash_free_concat(fact_line("Pages: "@, count_text(f.page_count)) + fact_line("Encrypted: "@, yes_no_text(f.encrypted)) + fact_line("Linearized: "@, yes_no_text(f.linearized)), fact_line("Incremental updates: "@, decimal(f.incremental_update_count as nat)));
    lemma_fact_hash_free("Root: "@, optional_ref_text(f.root));
    lemma_hash_free_concat(fact_line("Pages: "@, count_text(f.page_count)) + fact_line("Encrypted: "@, yes_no_text(f.encrypted)) + fact_line("Linearized: "@, yes_no_text(f.linearized)) + fact_line("Incremental updates: "@, decimal(f.incremental_update_count as nat)), fact_line("Root: "@, optional_ref_text(f.root)));
    lemma_fact_hash_free("Info: "@, optional_ref_text(f.info));
    lemma_hash_free_concat(fact_line("Pages: "@, count_text(f.page_count)) + fact_line("Encrypted: "@, yes_no_text(f.encrypted)) + fact_line("Linearized: "@, yes_no_text(f.linearized)) + fact_line("Incremental updates: "@, decimal(f.incremental_update_count as nat)) + fact_line("Root: "@, optional_ref_text(f.root)), fact_line("Info: "@, optional_ref_text(f.info)));
    lemma_fact_hash_free("Xref entries: "@, decimal(f.xref_entry_count as nat));
    lemma_hash_free_concat(fact_line("Pages: "@, count_text(f.page_count)) + fact_line("Encrypted: "@, yes_no_text(f.encrypted)) + fact_line("Linearized: "@, yes_no_text(f.linearized)) + fact_line("Incremental updates: "@, decimal(f.incremental_update_count as nat)) + fact_line("Root: "@, optional_ref_text(f.root)) + fact_line("Info: "@, optional_ref_text(f.info)), fact_line("Xref entries: "@, decimal(f.xref_entry_count as nat)));
    lemma_fact_hash_free("Objects: "@, decimal(f.object_count as nat));
    lemma_hash_free_concat(fact_line("Pages: "@, count_text(f.page_count)) + fact_line("Encrypted: "@, yes_no_text(f.encrypted)) + fact_line("Linearized: "@, yes_no_text(f.linearized)) + fact_line("Incremental updates: "@, decimal(f.incremental_update_count as nat)) + fact_line("Root: "@, optional_ref_text(f.root)) + fact_line("Info: "@, optional_ref_text(f.info)) + fact_line("Xref entries: "@, decimal(f.xref_entry_count as nat)), fact_line("Objects: "@, decimal(f.object_count as nat)));
    lemma_hash_free_concat(fact_line("Pages: "@, count_text(f.page_count)) + fact_line("Encrypted: "@, yes_no_text(f.encrypted)) + fact_line("Linearized: "@, yes_no_text(f.linearized)) + fact_line("Incremental updates: "@, decimal(f.incremental_update_count as nat)) + fact_line("Root: "@, optional_ref_text(f.root)) + fact_line("Info: "@, optional_ref_text(f.info)) + fact_line("Xref entries: "@, decimal(f.xref_entry_count as nat)) + fact_line("Objects: "@, decimal(f.object_count as nat)), "Streams: "@);
    lemma_hash_free_concat(fact_line("Pages: "@, count_text(f.page_count)) + fact_line("Encrypted: "@, yes_no_text(f.encrypted)) + fact_line("Linearized: "@, yes_no_text(f.linearized)) + fact_line("Incremental updates: "@, decimal(f.incremental_update_count as nat)) + fact_line("Root: "@, optional_ref_text(f.root)) + fact_line("Info: "@, optional_ref_text(f.info)) + fact_line("Xref entries: "@, decimal(f.xref_entry_count as nat)) + fact_line("Objects: "@, decimal(f.object_count as nat)) + "Streams: "@, decimal(f.stream_count as nat));
    lemma_hash_free_concat(fact_line("Pages: "@, count_text(f.page_count)) + fact_line("Encrypted: "@, yes_no_text(f.encrypted)) + fact_line("Linearized: "@, yes_no_text(f.linearized)) + fact_line("Incremental updates: "@, decimal(f.incremental_update_count as nat)) + fact_line("Root: "@, optional_ref_text(f.root)) + fact_line("Info: "@, optional_ref_text(f.info)) + fact_line("Xref entries: "@, decimal(f.xref_entry_count as nat)) + fact_line("Objects: "@, decimal(f.object_count as nat)) + "Streams: "@ + decimal(f.stream_count as nat), " (metadata only in lazy report)\n\n"@);
    assert(lazy_header_facts(r) =~= fact_line("Pages: "@, count_text(f.page_count)) + fact_line("Encrypted: "@, yes_no_text(f.encrypted)) + fact_line("Linearized: "@, yes_no_text(f.linearized)) + fact_line("Incremental updates: "@, decimal(f.incremental_update_count as nat)) + fact_line("Root: "@, optional_ref_text(f.root)) + fact_line("Info: "@, optional_ref_text(f.info)) + fact_line("Xref entries: "@, decimal(f.xref_entry_count as nat)) + fact_line("Objects: "@, decimal(f.object_count as nat)) + "Streams: "@ + decimal(f.stream_count as nat) + " (metadata only in lazy report)\n\n"@);
}

/// The text fields a lazy report's Markdown shows, enrichments aside,
/// hold no `###`.
pub open spec fn lazy_fields_triple_free(r: LazyDebugReport) -> bool {
    &&& triple_free(r.file.file_name@)
    &&& (r.file.pdf_version matches Some(v) ==> triple_free(v@))
    &&& findings_triple_free(r.findings@)
    &&& forall|k: int| 0 <= k < r.deferred_deep_diagnostics@.len() ==> triple_free((#[trigger] r.deferred_deep_diagnostics@[k])@)
}

/// The header lines of a lazy report without enrichments, after its title.
pub open spec fn lazy_top_body(r: LazyDebugReport) -> Seq<char> {
    let f = r.file;
    "> Lazy report. Fast diagnostics only. Deep diagnostics deferred.\n\n"@ + "File: `"@ + f.file_name@ + "`\n"@ + "File size: "@ + decimal(f.file_size as nat) + " bytes\n"@ + "PDF version: "@ + version_text(f.pdf_version) + "\n"@ + "Open mode: `lazy`\n"@ + "Scope: fast diagnostics only\n"@
}

#[verifier::rlimit(60)]
proof fn lemma_lazy_top_body_tf(r: LazyDebugReport)
    requires
        lazy_fields_triple_free(r),
    ensures
        triple_free(lazy_top_body(r)),
        ends_plain(lazy_top_body(r)),
{
    lemma_lazy_literals();
    lemma_short_literals();
    let f = r.file;
    lemma_decimal_hash_free(f.file_size as nat);
    if f.pdf_version is None {
        lemma_hf_tf("unknown"@);
    }
    lemma_hf_tf("> Lazy report. Fast diagnostics only. Deep diagnostics deferred.\n\n"@);
    lemma_hf_tf("File: `"@);
    lemma_hf_tf("`\n"@);
    lemma_hf_tf("File size: "@);
    lemma_hf_tf(decimal(f.file_size as nat));
    lemma_hf_tf(" bytes\n"@);
    lemma_hf_tf("PDF version: "@);
    lemma_hf_tf("\n"@);
    lemma_hf_tf("Open mode: `lazy`\n"@);
    lemma_hf_tf("Scope: fast diagnostics only\n"@);
    lemma_tf_step("> Lazy report. Fast diagnostics only. Deep diagnostics deferred.\n\n"@, "File: `"@);
    lemma_tf_step("> Lazy report. Fast diagnostics only. Deep diagnostics deferred.\n\n"@ + "File: `"@, f.file_name@);
    lemma_tf_step("> Lazy report. Fast diagnostics only. Deep diagnostics deferred.\n\n"@ + "File: `"@ + f.file_name@, "`\n"@);
    lemma_tf_step("> Lazy report. Fast diagnostics only. Deep diagnostics deferred.\n\n"@ + "File: `"@ + f.file_name@ + "`\n"@, "File size: "@);
    lemma_tf_step("> Lazy report. Fast diagnostics only. Deep diagnostics deferred.\n\n"@ + "File: `"@ + f.file_name@ + "`\n"@ + "File size: "@, decimal(f.file_size as nat));
    lemma_tf_step("> Lazy report. Fast diagnostics only. Deep diagnostics deferred.\n\n"@ + "File: `"@ + f.file_name@ + "`\n"@ + "File size: "@ + decimal(f.file_size as nat), " bytes\n"@);
    lemma_tf_step("> Lazy report. Fast diagnostics only. Deep diagnostics deferred.\n\n"@ + "File: `"@ + f.file_name@ + "`\n"@ + "File size: "@ + decimal(f.file_size as nat) + " bytes\n"@, "PDF version: "@);
    lemma_tf_step("> Lazy report. Fast diagnostics only. Deep diagnostics deferred.\n\n"@ + "File: `"@ + f.file_name@ + "`\n"@ + "File size: "@ + decimal(f.file_size as nat) + " bytes\n"@ + "PDF version: "@, version_text(f.pdf_version));
    lemma_tf_step("> Lazy report. Fast diagnostics only. Deep diagnostics deferred.\n\n"@ + "File: `"@ + f.file_name@ + "`\n"@ + "File size: "@ + decimal(f.file_size as nat) + " bytes\n"@ + "PDF version: "@ + version_text(f.pdf_version), "\n"@);
    lemma_tf_step("> Lazy report. Fast diagnostics only. Deep diagnostics deferred.\n\n"@ + "File: `"@ + f.file_name@ + "`\n"@ + "File size: "@ + decimal(f.file_size as nat) + " bytes\n"@ + "PDF version: "@ + version_text(f.pdf_version) + "\n"@, "Open mode: `lazy`\n"@);
    lemma_tf_step("> Lazy report. Fast diagnostics only. Deep diagnostics deferred.\n\n"@ + "File: `"@ + f.file_name@ + "`\n"@ + "File size: "@ + decimal(f.file_size as nat) + " bytes\n"@ + "PDF version: "@ + version_text(f.pdf_version) + "\n"@ + "Open mode: `lazy`\n"@, "Scope: fast diagnostics only\n"@);
}

#[verifier::rlimit(60)]
proof fn lemma_lazy_top_split(r: LazyDebugReport)
    requires
        r.enrichments@.len() == 0,
    ensures
        lazy_header_top(r) == "## PDF Lazy Debug Report\n\n"@ + lazy_top_body(r),
{
    let f = r.file;
    let title = "## PDF Lazy Debug Report\n\n"@;
    vstd::seq_lib::lemma_concat_associative(title, "> Lazy report. Fast diagnostics only. Deep diagnostics deferred.\n\n"@, "File: `"@);
    vstd::seq_lib::lemma_concat_associative(title, "> Lazy report. Fast diagnostics only. Deep diagnostics deferred.\n\n"@ + "File: `"@, f.file_name@);
    vstd::seq_lib::lemma_concat_associative(title, "> Lazy report. Fast diagnostics only. Deep diagnostics deferred.\n\n"@ + "File: `"@ + f.file_name@, "`\n"@);
    vstd::seq_lib::lemma_concat_associative(title, "> Lazy report. Fast diagnostics only. Deep diagnostics deferred.\n\n"@ + "File: `"@ + f.file_name@ + "`\n"@, "File size: "@);
    vstd::seq_lib::lemma_concat_associative(title, "> Lazy report. Fast diagnostics only. Deep diagnostics deferred.\n\n"@ + "File: `"@ + f.file_name@ + "`\n"@ + "File size: "@, decimal(f.file_size as nat));
    vstd::seq_lib::lemma_concat_associative(title, "> Lazy report. Fast diagnostics only. Deep diagnostics deferred.\n\n"@ + "File: `"@ + f.file_name@ + "`\n"@ + "File size: "@ + decimal(f.file_size as nat), " bytes\n"@);
    vstd::seq_lib::lemma_concat_associative(title, "> Lazy report. Fast diagnostics only. Deep diagnostics deferred.\n\n"@ + "File: `"@ + f.file_name@ + "`\n"@ + "File size: "@ + decimal(f.file_size as nat) + " bytes\n"@, "PDF version: "@);
    vstd::seq_lib::lemma_concat_associative(title, "> Lazy report. Fast diagnostics only. Deep diagnostics deferred.\n\n"@ + "File: `"@ + f.file_name@ + "`\n"@ + "File size: "@ + decimal(f.file_size as nat) + " bytes\n"@ + "PDF version: "@, version_text(f.pdf_version));
    vstd::seq_lib::lemma_concat_associative(title, "> Lazy report. Fast diagnostics only. Deep diagnostics deferred.\n\n"@ + "File: `"@ + f.file_name@ + "`\n"@ + "File size: "@ + decimal(f.file_size as nat) + " bytes\n"@ + "PDF version: "@ + version_text(f.pdf_version), "\n"@);
    vstd::seq_lib::lemma_concat_associative(title, "> Lazy report. Fast diagnostics only. Deep diagnostics deferred.\n\n"@ + "File: `"@ + f.file_name@ + "`\n"@ + "File size: "@ + decimal(f.file_size as nat) + " bytes\n"@ + "PDF version: "@ + version_text(f.pdf_version) + "\n"@, "Open mode: `lazy`\n"@);
    vstd::seq_lib::lemma_concat_associative(title, "> Lazy report. Fast diagnostics only. Deep diagnostics deferred.\n\n"@ + "File: `"@ + f.file_name@ + "`\n"@ + "File size: "@ + decimal(f.file_size as nat) + " bytes\n"@ + "PDF version: "@ + version_text(f.pdf_version) + "\n"@ + "Open mode: `lazy`\n"@, "Scope: fast diagnostics only\n"@);
}

proof fn lemma_lazy_top_windows(r: LazyDebugReport, w: Seq<char>)
    requires
        lazy_fields_triple_free(r),
        r.enrichments@.len() == 0,
    ensures
        windows_avoid(lazy_header_top(r), w),
        ends_plain(lazy_header_top(r)),
{
    let title = "## PDF Lazy Debug Report\n\n"@;
    lemma_lazy_literals();
    lemma_lazy_top_body_tf(r);
    lemma_title_avoids("PDF Lazy Debug Report\n\n"@, w);
    assert(title[title.len() - 1] == '\n') by {
        reveal_strlit("## PDF Lazy Debug Report\n\n");
    }
    lemma_tf_windows(lazy_top_body(r), w);
    lemma_windows_concat(title, lazy_top_body(r), w);
    lemma_lazy_top_split(r);
}

proof fn lemma_bullets_tf(items: Seq<Seq<char>>)
    requires
        forall|k: int| 0 <= k < items.len() ==> triple_free(#[trigger] items[k]),
    ensures
        triple_free(bullet_lines(items)),
        ends_plain(bullet_lines(items)),
    decreases items.len(),
{
    lemma_lazy_literals();
    lemma_short_literals();
    lemma_triple_chars();
    if items.len() == 0 {
        assert(!contains_text(Seq::<char>::empty(), "###"@));
    } else {
        let prev = items.drop_last();
        assert forall|k: int| 0 <= k < prev.len() implies triple_free(#[trigger] prev[k]) by {
            assert(prev[k] == items[k]);
        }
        lemma_bullets_tf(prev);
        assert(items.last() == items[items.len() - 1]);
        lemma_hf_tf("- "@);
        lemma_hf_tf("\n"@);
        lemma_tf_step(bullet_lines(prev), "- "@);
        lemma_tf_step(bullet_lines(prev) + "- "@, items.last());
        lemma_tf_step(bullet_lines(prev) + "- "@ + items.last(), "\n"@);
    }
}

/// A heading line `### h` with a blank line after it does not end with `#`.
proof fn lemma_heading_ends_plain(h: Seq<char>)
    ensures
        ends_plain("### "@ + h + "\n\n"@),
{
    lemma_marker_chars();
    let s = "### "@ + h + "\n\n"@;
    assert(s[s.len() - 1] == "\n\n"@[1]);
}

proof fn lemma_lazy_scope_windows(r: LazyDebugReport, w: Seq<char>)
    requires
        lazy_fields_triple_free(r),
        r.enrichments@.len() == 0,
        one_line(w),
        w.len() == 27,
    ensures
        windows_avoid(lazy_scope(r), w),
        ends_plain(lazy_scope(r)),
{
    lemma_lazy_literals();
    let items = string_views(r.deferred_deep_diagnostics@);
    assert forall|k: int| 0 <= k < items.len() implies triple_free(#[trigger] items[k]) by {
        assert(items[k] == r.deferred_deep_diagnostics@[k]@);
    }
    lemma_bullets_tf(items);
    lemma_heading_avoids("Lazy Report Scope"@, w);
    lemma_heading_avoids("Deferred Deep Diagnostics"@, w);
    lemma_heading_ends_plain("Lazy Report Scope"@);
    lemma_heading_ends_plain("Deferred Deep Diagnostics"@);
    let b1 = "- This report was generated from metadata-only lazy open data, lazy page metadata, and lazy fast diagnostics.\n"@;
    let b2 = "- It does not full-parse the PDF, scan all indirect objects, read all stream bytes, decode all streams, or extract page objects.\n"@;
    let b3 = "- Deep diagnostics are deferred and should be run on demand or against a smaller repro PDF.\n\n"@;
    let h1 = "### Lazy Report Scope\n\n"@;
    let h2 = "### Deferred Deep Diagnostics\n\n"@;
    let e: Seq<char> = seq![];
    lemma_hf_tf(b1);
    lemma_hf_tf(b2);
    lemma_hf_tf(b3);
    lemma_hf_tf(e);
    lemma_hf_tf("\n"@);
    lemma_tf_windows(b1, w);
    lemma_tf_windows(b2, w);
    lemma_tf_windows(b3, w);
    lemma_tf_windows(e, w);
    lemma_tf_windows("\n"@, w);
    lemma_tf_windows(bullet_lines(items), w);
    lemma_windows_concat(h1, b1, w);
    lemma_windows_concat(h1 + b1, b2, w);
    lemma_windows_concat(h1 + b1 + b2, b3, w);
    lemma_windows_concat(h1 + b1 + b2 + b3, h2, w);
    lemma_windows_concat(h1 + b1 + b2 + b3 + h2, e, w);
    lemma_windows_concat(h1 + b1 + b2 + b3 + h2 + e, bullet_lines(items), w);
    lemma_windows_concat(h1 + b1 + b2 + b3 + h2 + e + bullet_lines(items), "\n"@, w);
    lemma_windows_concat(h1 + b1 + b2 + b3 + h2 + e + bullet_lines(items) + "\n"@, e, w);
    assert(lazy_scope(r) == h1 + b1 + b2 + b3 + h2 + e + bullet_lines(items) + "\n"@ + e);
}

/// When the text fields of a lazy report that its Markdown shows (file
/// name, PDF version, finding messages and next steps, deferred items) hold
/// no `###`, its Markdown holds the enrichment heading exactly when it has
/// enrichments.
#[verifier::rlimit(60)]
pub proof fn lemma_lazy_enrichment_heading_exact(r: LazyDebugReport)
    requires
        lazy_fields_triple_free(r),
    ensures
        contains_text(lazy_markdown_report(r), "### Deep Diagnostics Enrichment\n\n"@) <==> r.enrichments@.len() > 0,
{
    lemma_lazy_markdown_parts(r);
    lemma_lazy_literals();
    if r.enrichments@.len() == 0 {
        let w = "Deep Diagnostics Enrichment"@;
        assert forall|k: int| 0 <= k < w.len() implies w[k] != '\n' by {
            reveal_strlit("Deep Diagnostics Enrichment");
        }
        let d = r.diagnostics;
        let fs = r.findings@;
        lemma_words();
        lemma_lazy_top_windows(r, w);
        lemma_lazy_facts_hash_free(r);
        lemma_hf_tf(lazy_header_facts(r));
        lemma_tf_windows(lazy_header_facts(r), w);
        lemma_windows_concat(lazy_header_top(r), lazy_header_facts(r), w);
        lemma_lazy_scope_windows(r, w);
        lemma_decimal_hash_free(d.errors as nat);
        lemma_decimal_hash_free(d.warnings as nat);
        lemma_decimal_hash_free(d.info as nat);
        lemma_heading_avoids("Diagnostic Summary"@, w);
        lemma_heading_ends_plain("Diagnostic Summary"@);
        lemma_heading_avoids("Suggested Next Steps"@, w);
        lemma_heading_ends_plain("Suggested Next Steps"@);
        lemma_hf_tf("- Errors: "@);
        lemma_hf_tf(decimal(d.errors as nat));
        lemma_hf_tf("\n"@);
        lemma_hf_tf("- Warnings: "@);
        lemma_hf_tf(decimal(d.warnings as nat));
        lemma_hf_tf("- Info: "@);
        lemma_hf_tf(decimal(d.info as nat));
        lemma_hf_tf("\n\n"@);
        lemma_tf_windows("- Errors: "@, w);
        lemma_tf_windows(decimal(d.errors as nat), w);
        lemma_tf_windows("\n"@, w);
        lemma_tf_windows("- Warnings: "@, w);
        lemma_tf_windows(decimal(d.warnings as nat), w);
        lemma_tf_windows("- Info: "@, w);
        lemma_tf_windows(decimal(d.info as nat), w);
        lemma_tf_windows("\n\n"@, w);
        lemma_section_windows("Errors"@, Severity::Error, fs, w);
        lemma_section_windows("Warnings"@, Severity::Warning, fs, w);
        lemma_section_windows("Info"@, Severity::Info, fs, w);
        let fallback = "- No lazy fast diagnostics findings were emitted. Keep this report with the fixture for regression tracking.\n"@;
        if fs.len() == 0 {
            lemma_hf_tf(fallback);
        } else {
            let k: int = if fs.len() < 8 { fs.len() as int } else { 8 };
            let t = fs.take(k);
            assert forall|i: int| 0 <= i < t.len() implies triple_free((#[trigger] t[i]).message@)
                && triple_free(t[i].suggested_next_step@) by {
                assert(t[i] == fs[i]);
            }
            lemma_step_lines_tf(t);
        }
        lemma_tf_windows(next_steps(fs, fallback), w);
        lemma_windows_concat(lazy_header(r), lazy_scope(r), w);
        lemma_windows_concat(lazy_header(r) + lazy_scope(r), "### Diagnostic Summary\n\n"@, w);
        lemma_windows_concat(lazy_header(r) + lazy_scope(r) + "### Diagnostic Summary\n\n"@, "- Errors: "@, w);
        lemma_windows_concat(lazy_header(r) + lazy_scope(r) + "### Diagnostic Summary\n\n"@ + "- Errors: "@, decimal(r.diagnostics.errors as nat), w);
        lemma_windows_concat(lazy_header(r) + lazy_scope(r) + "### Diagnostic Summary\n\n"@ + "- Errors: "@ + decimal(r.diagnostics.errors as nat), "\n"@, w);
        lemma_windows_concat(lazy_header(r) + lazy_scope(r) + "### Diagnostic Summary\n\n"@ + "- Errors: "@ + decimal(r.diagnostics.errors as nat) + "\n"@, "- Warnings: "@, w);
        lemma_windows_concat(lazy_header(r) + lazy_scope(r) + "### Diagnostic Summary\n\n"@ + "- Errors: "@ + decimal(r.diagnostics.errors as nat) + "\n"@ + "- Warnings: "@, decimal(r.diagnostics.warnings as nat), w);
        lemma_windows_concat(lazy_header(r) + lazy_scope(r) + "### Diagnostic Summary\n\n"@ + "- Errors: "@ + decimal(r.diagnostics.errors as nat) + "\n"@ + "- Warnings: "@ + decimal(r.diagnostics.warnings as nat), "\n"@, w);
        lemma_windows_concat(lazy_header(r) + lazy_scope(r) + "### Diagnostic Summary\n\n"@ + "- Errors: "@ + decimal(r.diagnostics.errors as nat) + "\n"@ + "- Warnings: "@ + decimal(r.diagnostics.warnings as nat) + "\n"@, "- Info: "@, w);
        lemma_windows_concat(lazy_header(r) + lazy_scope(r) + "### Diagnostic Summary\n\n"@ + "- Errors: "@ + decimal(r.diagnostics.errors as nat) + "\n"@ + "- Warnings: "@ + decimal(r.diagnostics.warnings as nat) + "\n"@ + "- Info: "@, decimal(r.diagnostics.info as nat), w);
        lemma_windows_concat(lazy_header(r) + lazy_scope(r) + "### Diagnostic Summary\n\n"@ + "- Errors: "@ + decimal(r.diagnostics.errors as nat) + "\n"@ + "- Warnings: "@ + decimal(r.diagnostics.warnings as nat) + "\n"@ + "- Info: "@ + decimal(r.diagnostics.info as nat), "\n\n"@, w);
        lemma_windows_concat(lazy_header(r) + lazy_scope(r) + "### Diagnostic Summary\n\n"@ + "- Errors: "@ + decimal(r.diagnostics.errors as nat) + "\n"@ + "- Warnings: "@ + decimal(r.diagnostics.warnings as nat) + "\n"@ + "- Info: "@ + decimal(r.diagnostics.info as nat) + "\n\n"@, findings_section("Errors"@, Severity::Error, fs), w);
        lemma_windows_concat(lazy_header(r) + lazy_scope(r) + "### Diagnostic Summary\n\n"@ + "- Errors: "@ + decimal(r.diagnostics.errors as nat) + "\n"@ + "- Warnings: "@ + decimal(r.diagnostics.warnings as nat) + "\n"@ + "- Info: "@ + decimal(r.diagnostics.info as nat) + "\n\n"@ + findings_section("Errors"@, Severity::Error, fs), findings_section("Warnings"@, Severity::Warning, fs), w);
        lemma_windows_concat(lazy_header(r) + lazy_scope(r) + "### Diagnostic Summary\n\n"@ + "- Errors: "@ + decimal(r.diagnostics.errors as nat) + "\n"@ + "- Warnings: "@ + decimal(r.diagnostics.warnings as nat) + "\n"@ + "- Info: "@ + decimal(r.diagnostics.info as nat) + "\n\n"@ + findings_section("Errors"@, Severity::Error, fs) + findings_section("Warnings"@, Severity::Warning, fs), findings_section("Info"@, Severity::Info, fs), w);
        lemma_windows_concat(lazy_header(r) + lazy_scope(r) + "### Diagnostic Summary\n\n"@ + "- Errors: "@ + decimal(r.diagnostics.errors as nat) + "\n"@ + "- Warnings: "@ + decimal(r.diagnostics.warnings as nat) + "\n"@ + "- Info: "@ + decimal(r.diagnostics.info as nat) + "\n\n"@ + findings_section("Errors"@, Severity::Error, fs) + findings_section("Warnings"@, Severity::Warning, fs) + findings_section("Info"@, Severity::Info, fs), "### Suggested Next Steps\n\n"@, w);
        lemma_windows_concat(lazy_header(r) + lazy_scope(r) + "### Diagnostic Summary\n\n"@ + "- Errors: "@ + decimal(r.diagnostics.errors as nat) + "\n"@ + "- Warnings: "@ + decimal(r.diagnostics.warnings as nat) + "\n"@ + "- Info: "@ + decimal(r.diagnostics.info as nat) + "\n\n"@ + findings_section("Errors"@, Severity::Error, fs) + findings_section("Warnings"@, Severity::Warning, fs) + findings_section("Info"@, Severity::Info, fs) + "### Suggested Next Steps\n\n"@, next_steps(fs, "- No lazy fast diagnostics findings were emitted. Keep this report with the fixture for regression tracking.\n"@), w);
        assert(lazy_markdown_report(r) == lazy_header(r) + lazy_scope(r) + "### Diagnostic Summary\n\n"@ + "- Errors: "@ + decimal(r.diagnostics.errors as nat) + "\n"@ + "- Warnings: "@ + decimal(r.diagnostics.warnings as nat) + "\n"@ + "- Info: "@ + decimal(r.diagnostics.info as nat) + "\n\n"@ + findings_section("Errors"@, Severity::Error, fs) + findings_section("Warnings"@, Severity::Warning, fs) + findings_section("Info"@, Severity::Info, fs) + "### Suggested Next Steps\n\n"@ + next_steps(fs, "- No lazy fast diagnostics findings were emitted. Keep this report with the fixture for regression tracking.\n"@));
        lemma_avoided_not_contained(lazy_markdown_report(r), w);
    }
}

} // verus!
