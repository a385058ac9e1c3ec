//! Diagnostics on a parsed document: parse warnings, document features,
//! cross-reference offsets, missing references, streams, and the page tree.
use vstd::prelude::*;
use crate::objects::{find_object, object_views, objects_get, refs_sorted};
use crate::pdf_model::{
    Finding, ObjectRef, ParsedPdf, PdfDictionary, PdfObject, PdfStream, PdfValue, Severity, ValueView, XrefEntry, dict_get,
};
use crate::pdf_parser::{has_type, object_dictionary};
use crate::stream_viewer::name_under;
use crate::text::{decimal, owned, push_decimal, push_str, str_eq};
use crate::value_views::{FindingV, ObjectV, StreamV, WarningV, finding_views, value_views, warning_views};
use crate::stream_decode::{DecodeIssue, DecodeIssueKind, IssueView, issue_view, spec_decode_chain};
use crate::content_ops::{
    ContentWarning, WarnView, content_operators, names_used, operator_warnings, opviews, tokenizable, wviews,
};
use crate::pdf_model::{lemma_sorted_names_is, sorted_names, view_reference};
use crate::text::string_views;

verus! {

broadcast use crate::value_views::group_views;

fn finding(
    rule_id: &str,
    severity: Severity,
    message: String,
    object: Option<ObjectRef>,
    page: Option<u32>,
    byte_offset: Option<usize>,
    suggested_next_step: String,
) -> (f: Finding)
    ensures
        f@ == (rule_id@, severity, message@, object, page, byte_offset, suggested_next_step@),
{
    Finding { rule_id: owned(rule_id), severity, message, object, page, byte_offset, suggested_next_step }
}

fn push_finding(findings: &mut Vec<Finding>, f: Finding)
    ensures
        finding_views(final(findings)@) == finding_views(old(findings)@).push(f@),
{
    let ghost before = finding_views(findings@);
    findings.push(f);
    assert(finding_views(findings@) =~= before.push(f@));
}

/// Text followed by a reference and more text.
fn text_ref_text(a: &str, r: ObjectRef, b: &str) -> (s: String)
    ensures
        s@ == a@ + r.spec_text() + b@,
{
    let mut s = owned(a);
    let t = r.to_text();
    push_str(&mut s, t.as_str());
    push_str(&mut s, b);
    s
}

// ---------------------------------------------------------------------------
// Parse warnings
// ---------------------------------------------------------------------------

pub open spec fn parse_warning_finding(w: WarningV) -> FindingV {
    ("parse.warning"@, Severity::Warning, w.1, None, None, w.0,
        "Open the file in inspect mode and verify the PDF header, xref table, and trailer"@)
}

pub open spec fn parse_warning_findings(ws: Seq<WarningV>) -> Seq<FindingV> {
    ws.map_values(|w: WarningV| parse_warning_finding(w))
}

fn add_parse_warnings(pdf: &ParsedPdf, findings: &mut Vec<Finding>)
    ensures
        finding_views(final(findings)@) == finding_views(old(findings)@) + parse_warning_findings(warning_views(pdf.warnings@)),
{
    let ghost start = finding_views(findings@);
    let mut k: usize = 0;
    while k < pdf.warnings.len()
        invariant
            k <= pdf.warnings@.len(),
            finding_views(findings@) == start + parse_warning_findings(warning_views(pdf.warnings@.take(k as int))),
        decreases pdf.warnings@.len() - k,
    {
        let w = &pdf.warnings[k];
        let f = finding(
            "parse.warning",
            Severity::Warning,
            owned(w.message.as_str()),
            None,
            None,
            w.offset,
            owned("Open the file in inspect mode and verify the PDF header, xref table, and trailer"),
        );
        push_finding(findings, f);
        assert(warning_views(pdf.warnings@.take(k + 1)) =~= warning_views(pdf.warnings@.take(k as int)).push(w@));
        assert(finding_views(findings@) =~= start + parse_warning_findings(warning_views(pdf.warnings@.take(k + 1))));
        k = k + 1;
    }
    assert(pdf.warnings@.take(pdf.warnings@.len() as int) =~= pdf.warnings@);
}

// ---------------------------------------------------------------------------
// Document features
// ---------------------------------------------------------------------------

/// The reference of the first object whose dictionary has `/Type` named `ty`.
pub open spec fn first_with_type(objs: Seq<ObjectV>, ty: Seq<char>) -> Option<ObjectRef>
    decreases objs.len(),
{
    if objs.len() == 0 {
        None
    } else if has_type(objs[0], ty) {
        Some(objs[0].0)
    } else {
        first_with_type(objs.drop_first(), ty)
    }
}

fn first_object_with_type(pdf: &ParsedPdf, object_type: &str) -> (r: Option<ObjectRef>)
    ensures
        r == first_with_type(object_views(pdf.objects@), object_type@),
{
    let ghost v = object_views(pdf.objects@);
    let mut k: usize = 0;
    assert(v.skip(0) =~= v);
    while k < pdf.objects.len()
        invariant
            k <= pdf.objects@.len(),
            v == object_views(pdf.objects@),
            first_with_type(v, object_type@) == first_with_type(v.skip(k as int), object_type@),
        decreases pdf.objects@.len() - k,
    {
        assert(v.skip(k as int)[0] == pdf.objects@[k as int]@);
        assert(v.skip(k as int).drop_first() =~= v.skip(k + 1));
        let is_type = match pdf.objects[k].dictionary() {
            Some(d) => crate::pdf_parser::name_is(d, "Type", object_type),
            None => false,
        };
        if is_type {
            return Some(pdf.objects[k].reference);
        }
        k = k + 1;
    }
    None
}

pub open spec fn feature_findings(pdf: ParsedPdf) -> Seq<FindingV> {
    let m = pdf.metadata;
    let objs = object_views(pdf.objects@);
    let a: Seq<FindingV> = if m.encrypted {
        seq![("document.encryption_detected"@, Severity::Warning,
            "The trailer contains /Encrypt; encrypted content may not be inspectable without credentials"@, None, None, None,
            "Reproduce with an unencrypted fixture when possible, or provide credentials to downstream tools"@)]
    } else {
        seq![]
    };
    let b: Seq<FindingV> = if m.incremental_update_count > 0 {
        seq![("document.incremental_updates_detected"@, Severity::Info,
            "Detected "@ + decimal(m.incremental_update_count as nat) + " incremental update section(s)"@, None, None, None,
            "Check whether the issue reproduces before and after the incremental update section"@)]
    } else {
        seq![]
    };
    let c: Seq<FindingV> = if m.has_object_stream {
        seq![("document.object_stream_detected"@, Severity::Info,
            "Object stream detected; Milestone 1 reports it but does not decompress object streams"@,
            first_with_type(objs, "ObjStm"@), None, None,
            "Use a later parser milestone or an external decompressor to inspect compressed object members"@)]
    } else {
        seq![]
    };
    let d: Seq<FindingV> = if m.has_xref_stream {
        seq![("document.xref_stream_detected"@, Severity::Info,
            "Xref stream detected; Milestone 1 reports it but targets classic xref tables"@,
            first_with_type(objs, "XRef"@), None, None,
            "Save or regenerate a classic-xref fixture when possible, or inspect with a parser that expands xref streams"@)]
    } else {
        seq![]
    };
    a + b + c + d
}

fn add_document_feature_findings(pdf: &ParsedPdf, findings: &mut Vec<Finding>)
    ensures
        finding_views(final(findings)@) == finding_views(old(findings)@) + feature_findings(*pdf),
{
    let ghost start = finding_views(findings@);
    if pdf.metadata.encrypted {
        push_finding(findings, finding(
            "document.encryption_detected",
            Severity::Warning,
            owned("The trailer contains /Encrypt; encrypted content may not be inspectable without credentials"),
            None,
            None,
            None,
            owned("Reproduce with an unencrypted fixture when possible, or provide credentials to downstream tools"),
        ));
    }
    if pdf.metadata.incremental_update_count > 0 {
        let mut message = owned("Detected ");
        push_decimal(&mut message, pdf.metadata.incremental_update_count);
        push_str(&mut message, " incremental update section(s)");
        push_finding(findings, finding(
            "document.incremental_updates_detected",
            Severity::Info,
            message,
            None,
            None,
            None,
            owned("Check whether the issue reproduces before and after the incremental update section"),
        ));
    }
    if pdf.metadata.has_object_stream {
        let object = first_object_with_type(pdf, "ObjStm");
        push_finding(findings, finding(
            "document.object_stream_detected",
            Severity::Info,
            owned("Object stream detected; Milestone 1 reports it but does not decompress object streams"),
            object,
            None,
            None,
            owned("Use a later parser milestone or an external decompressor to inspect compressed object members"),
        ));
    }
    if pdf.metadata.has_xref_stream {
        let object = first_object_with_type(pdf, "XRef");
        push_finding(findings, finding(
            "document.xref_stream_detected",
            Severity::Info,
            owned("Xref stream detected; Milestone 1 reports it but targets classic xref tables"),
            object,
            None,
            None,
            owned("Save or regenerate a classic-xref fixture when possible, or inspect with a parser that expands xref streams"),
        ));
    }
    assert(finding_views(findings@) =~= start + feature_findings(*pdf));
}

// ---------------------------------------------------------------------------
// Cross-reference offsets
// ---------------------------------------------------------------------------

pub open spec fn xref_finding(e: XrefEntry) -> FindingV {
    ("xref.invalid_offset"@, Severity::Error,
        "Xref entry for object "@ + e.reference.spec_text() + " points to byte "@ + decimal(e.offset as nat)
            + ", but that offset does not contain the expected object header"@,
        Some(e.reference), None, Some(e.offset),
        "Dump object "@ + e.reference.spec_text() + " and compare the xref offset against the raw file bytes"@)
}

/// Findings for in-use entries whose offset was found not to hold their object.
pub open spec fn xref_findings(es: Seq<XrefEntry>) -> Seq<FindingV>
    decreases es.len(),
{
    if es.len() == 0 {
        seq![]
    } else {
        let e = es.last();
        xref_findings(es.drop_last()) + if e.in_use && e.valid_offset == Some(false) { seq![xref_finding(e)] } else { seq![] }
    }
}

fn add_xref_findings(pdf: &ParsedPdf, findings: &mut Vec<Finding>)
    ensures
        finding_views(final(findings)@) == finding_views(old(findings)@) + xref_findings(pdf.xref_entries@),
{
    let ghost start = finding_views(findings@);
    let mut k: usize = 0;
    while k < pdf.xref_entries.len()
        invariant
            k <= pdf.xref_entries@.len(),
            finding_views(findings@) == start + xref_findings(pdf.xref_entries@.take(k as int)),
        decreases pdf.xref_entries@.len() - k,
    {
        let e = pdf.xref_entries[k];
        assert(pdf.xref_entries@.take(k + 1).drop_last() =~= pdf.xref_entries@.take(k as int));
        if e.in_use && e.valid_offset == Some(false) {
            let mut message = text_ref_text("Xref entry for object ", e.reference, " points to byte ");
            push_decimal(&mut message, e.offset);
            push_str(&mut message, ", but that offset does not contain the expected object header");
            let next = text_ref_text("Dump object ", e.reference, " and compare the xref offset against the raw file bytes");
            push_finding(findings, finding("xref.invalid_offset", Severity::Error, message, Some(e.reference), None, Some(e.offset), next));
        }
        assert(finding_views(findings@) =~= start + xref_findings(pdf.xref_entries@.take(k + 1)));
        k = k + 1;
    }
    assert(pdf.xref_entries@.take(pdf.xref_entries@.len() as int) =~= pdf.xref_entries@);
}


// ---------------------------------------------------------------------------
// Missing references
// ---------------------------------------------------------------------------

/// References in strictly increasing order.
pub open spec fn refs_increasing(s: Seq<ObjectRef>) -> bool {
    forall|i: int, j: int| 0 <= i < j < s.len() ==> (#[trigger] s[i]).precedes(#[trigger] s[j])
}

/// `r` added to a sorted list of distinct references.
pub open spec fn ref_insert(s: Seq<ObjectRef>, r: ObjectRef) -> Seq<ObjectRef>
    decreases s.len(),
{
    if s.len() == 0 {
        seq![r]
    } else if s[0] == r {
        s
    } else if r.precedes(s[0]) {
        seq![r] + s
    } else {
        seq![s[0]] + ref_insert(s.drop_first(), r)
    }
}

proof fn lemma_ref_insert_position(s: Seq<ObjectRef>, r: ObjectRef, i: int)
    requires
        0 <= i <= s.len(),
        forall|j: int| 0 <= j < i ==> (#[trigger] s[j]).precedes(r),
        i == s.len() || !s[i].precedes(r),
    ensures
        ref_insert(s, r) == if i < s.len() && s[i] == r { s } else { s.take(i) + seq![r] + s.skip(i) },
    decreases i,
{
    if i == 0 {
        if s.len() == 0 {
            assert(s.take(0) + seq![r] + s.skip(0) =~= seq![r]);
        } else if s[0] == r {
        } else {
            assert(s.take(0) + seq![r] + s.skip(0) =~= seq![r] + s);
        }
    } else {
        let t = s.drop_first();
        assert forall|j: int| 0 <= j < i - 1 implies (#[trigger] t[j]).precedes(r) by {
            assert(t[j] == s[j + 1]);
        }
        if i - 1 < t.len() {
            assert(t[i - 1] == s[i]);
        }
        lemma_ref_insert_position(t, r, i - 1);
        assert(s[0].precedes(r));
        if i < s.len() && s[i] == r {
            assert(seq![s[0]] + t =~= s);
        } else {
            assert(seq![s[0]] + (t.take(i - 1) + seq![r] + t.skip(i - 1)) =~= s.take(i) + seq![r] + s.skip(i));
        }
    }
}

pub(crate) fn insert_ref(refs: &mut Vec<ObjectRef>, r: ObjectRef)
    requires
        refs_increasing(old(refs)@),
    ensures
        final(refs)@ == ref_insert(old(refs)@, r),
        refs_increasing(final(refs)@),
{
    let ghost v = refs@;
    let mut i = refs.len();
    while i > 0 && !refs[i - 1].less_than(&r)
        invariant
            i <= refs@.len(),
            v == refs@,
            refs_increasing(v),
            forall|j: int| i <= j < refs@.len() ==> !(#[trigger] refs@[j]).precedes(r),
        decreases i,
    {
        i = i - 1;
    }
    proof {
        assert forall|j: int| 0 <= j < i implies (#[trigger] v[j]).precedes(r) by {
            if j < i - 1 {
                assert(v[j].precedes(v[i - 1]));
            }
        }
        lemma_ref_insert_position(v, r, i as int);
    }
    if i < refs.len() && refs[i] == r {
        return;
    }
    refs.insert(i, r);
    assert(refs@ =~= v.take(i as int) + seq![r] + v.skip(i as int));
    proof {
        let nv = refs@;
        assert forall|a: int, b: int| 0 <= a < b < nv.len() implies (#[trigger] nv[a]).precedes(#[trigger] nv[b]) by {
            if a < i && b < i {
            } else if a < i && b == i {
            } else if a < i {
                assert(nv[b] == v[b - 1]);
                if b - 1 > i {
                    assert(v[i as int].precedes(v[b - 1]));
                }
            } else if a == i {
                assert(nv[b] == v[b - 1]);
                if b - 1 > i {
                    assert(v[i as int].precedes(v[b - 1]));
                }
            } else {
                assert(nv[a] == v[a - 1] && nv[b] == v[b - 1]);
            }
        }
    }
}

/// The references of a value (through arrays and dictionaries) added to `acc`.
pub open spec fn value_refs(acc: Seq<ObjectRef>, v: ValueView) -> Seq<ObjectRef>
    decreases v,
{
    match v {
        ValueView::Reference(r) => ref_insert(acc, r),
        ValueView::Array(items) => items_refs(acc, items),
        ValueView::Dictionary(d) => entries_refs(acc, d),
        _ => acc,
    }
}

pub open spec fn items_refs(acc: Seq<ObjectRef>, items: Seq<ValueView>) -> Seq<ObjectRef>
    decreases items,
{
    if items.len() == 0 {
        acc
    } else {
        items_refs(value_refs(acc, items[0]), items.drop_first())
    }
}

pub open spec fn entries_refs(acc: Seq<ObjectRef>, d: Seq<(Seq<char>, ValueView)>) -> Seq<ObjectRef>
    decreases d,
{
    if d.len() == 0 {
        acc
    } else {
        proof {
            assert(decreases_to!(d => d[0]));
        }
        entries_refs(value_refs(acc, d[0].1), d.drop_first())
    }
}


pub(crate) fn collect_references(value: &PdfValue, refs: &mut Vec<ObjectRef>)
    requires
        refs_increasing(old(refs)@),
    ensures
        final(refs)@ == value_refs(old(refs)@, value@),
        refs_increasing(final(refs)@),
    decreases value,
{
    match value {
        PdfValue::Reference(r) => insert_ref(refs, *r),
        PdfValue::Array(values) => {
            let ghost all = value_views(values@);
            let ghost start = refs@;
            let mut i: usize = 0;
            assert(all.skip(0) =~= all);
            while i < values.len()
                invariant
                    *value == PdfValue::Array(*values),
                    i <= values@.len(),
                    all == value_views(values@),
                    all.len() == values@.len(),
                    refs_increasing(refs@),
                    items_refs(start, all) == items_refs(refs@, all.skip(i as int)),
                decreases values@.len() - i,
            {
                proof {
                    assert(decreases_to!(*value => value->Array_0));
                    assert(decreases_to!(*values => values@));
                    assert(decreases_to!(values@ => values@[i as int]));
                    assert(all.skip(i as int)[0] == values@[i as int]@);
                    assert(all.skip(i as int).drop_first() =~= all.skip(i + 1));
                }
                collect_references(&values[i], refs);
                i = i + 1;
            }
            assert(all.skip(values@.len() as int) =~= Seq::<ValueView>::empty());
        },
        PdfValue::Dictionary(d) => {
            let ghost all = d@;
            let ghost start = refs@;
            let mut i: usize = 0;
            assert(all.skip(0) =~= all);
            while i < d.entries.len()
                invariant
                    *value == PdfValue::Dictionary(*d),
                    i <= d.entries@.len(),
                    all == d@,
                    all.len() == d.entries@.len(),
                    refs_increasing(refs@),
                    entries_refs(start, all) == entries_refs(refs@, all.skip(i as int)),
                decreases d.entries@.len() - i,
            {
                proof {
                    assert(decreases_to!(*value => value->Dictionary_0));
                    assert(decreases_to!(*d => d.entries));
                    assert(decreases_to!(d.entries => d.entries@));
                    assert(decreases_to!(d.entries@ => d.entries@[i as int]));
                    assert(decreases_to!(d.entries@[i as int] => d.entries@[i as int].1));
                    assert(all.skip(i as int)[0] == (d.entries@[i as int].0@, d.entries@[i as int].1@));
                    assert(all.skip(i as int).drop_first() =~= all.skip(i + 1));
                }
                collect_references(&d.entries[i].1, refs);
                i = i + 1;
            }
            assert(all.skip(d.entries@.len() as int) =~= Seq::<(Seq<char>, ValueView)>::empty());
        },
        _ => {},
    }
}

/// The references of an object: its value's, then its stream dictionary's.
pub open spec fn object_refs(acc: Seq<ObjectRef>, o: ObjectV) -> Seq<ObjectRef> {
    let a1 = value_refs(acc, o.1);
    match o.2 {
        Some(st) => value_refs(a1, ValueView::Dictionary(st.0)),
        None => a1,
    }
}

pub open spec fn objects_refs(acc: Seq<ObjectRef>, objs: Seq<ObjectV>) -> Seq<ObjectRef>
    decreases objs.len(),
{
    if objs.len() == 0 { acc } else { objects_refs(object_refs(acc, objs[0]), objs.drop_first()) }
}

/// Every reference in the objects and the trailer, sorted, each once.
pub open spec fn document_refs(pdf: ParsedPdf) -> Seq<ObjectRef> {
    let a = objects_refs(seq![], object_views(pdf.objects@));
    match pdf.trailer {
        Some(t) => value_refs(a, t@),
        None => a,
    }
}

pub open spec fn missing_finding(r: ObjectRef) -> FindingV {
    ("object.missing_reference"@, Severity::Error,
        "Referenced object "@ + r.spec_text() + " was not found among parsed indirect objects"@,
        Some(r), None, None,
        "Check whether "@ + r.spec_text() + " is absent, hidden in an object stream, or omitted from the xref table"@)
}

/// Findings for the references that no object has.
pub open spec fn missing_findings(refs: Seq<ObjectRef>, objs: Seq<ObjectV>) -> Seq<FindingV>
    decreases refs.len(),
{
    if refs.len() == 0 {
        seq![]
    } else {
        let r = refs.last();
        missing_findings(refs.drop_last(), objs) + if objects_get(objs, r) is None { seq![missing_finding(r)] } else { seq![] }
    }
}

fn add_missing_reference_findings(pdf: &ParsedPdf, findings: &mut Vec<Finding>)
    requires
        pdf.wf(),
    ensures
        finding_views(final(findings)@) == finding_views(old(findings)@)
            + missing_findings(document_refs(*pdf), object_views(pdf.objects@)),
{
    let ghost v = object_views(pdf.objects@);
    let mut refs: Vec<ObjectRef> = Vec::new();
    assert(refs@ =~= Seq::<ObjectRef>::empty());
    let mut k: usize = 0;
    assert(v.skip(0) =~= v);
    while k < pdf.objects.len()
        invariant
            k <= pdf.objects@.len(),
            v == object_views(pdf.objects@),
            refs_increasing(refs@),
            objects_refs(seq![], v) == objects_refs(refs@, v.skip(k as int)),
        decreases pdf.objects@.len() - k,
    {
        let object = &pdf.objects[k];
        assert(v.skip(k as int)[0] == object@);
        assert(v.skip(k as int).drop_first() =~= v.skip(k + 1));
        collect_references(&object.value, &mut refs);
        match &object.stream {
            Some(stream) => {
                let copy = PdfValue::Dictionary(stream.dictionary.deep_copy());
                collect_references(&copy, &mut refs);
            },
            None => {},
        }
        k = k + 1;
    }
    assert(v.skip(pdf.objects@.len() as int) =~= Seq::<ObjectV>::empty());
    match &pdf.trailer {
        Some(t) => collect_references(t, &mut refs),
        None => {},
    }
    let ghost start = finding_views(findings@);
    let mut i: usize = 0;
    while i < refs.len()
        invariant
            i <= refs@.len(),
            pdf.wf(),
            v == object_views(pdf.objects@),
            refs@ == document_refs(*pdf),
            finding_views(findings@) == start + missing_findings(refs@.take(i as int), v),
        decreases refs@.len() - i,
    {
        let r = refs[i];
        assert(refs@.take(i + 1).drop_last() =~= refs@.take(i as int));
        if find_object(&pdf.objects, r).is_none() {
            let message = text_ref_text("Referenced object ", r, " was not found among parsed indirect objects");
            let next = text_ref_text("Check whether ", r, " is absent, hidden in an object stream, or omitted from the xref table");
            push_finding(findings, finding("object.missing_reference", Severity::Error, message, Some(r), None, None, next));
        }
        assert(finding_views(findings@) =~= start + missing_findings(refs@.take(i + 1), v));
        i = i + 1;
    }
    assert(refs@.take(refs@.len() as int) =~= refs@);
}


// ---------------------------------------------------------------------------
// Streams
// ---------------------------------------------------------------------------

pub open spec fn length_finding(r: ObjectRef, declared: usize, st: StreamV) -> FindingV {
    ("stream.length_mismatch"@, Severity::Warning,
        "Stream "@ + r.spec_text() + " declares /Length "@ + decimal(declared as nat) + ", but "@
            + decimal(st.2 as nat) + " byte(s) were found before endstream"@,
        Some(r), None, Some(st.4.start),
        "Regenerate or inspect stream "@ + r.spec_text() + " and verify the writer's /Length calculation"@)
}

pub open spec fn issue_finding(r: ObjectRef, offset: usize, i: IssueView) -> FindingV {
    (if i.1 == DecodeIssueKind::Failed { "stream.decode_failed"@ } else { "stream.unsupported_filter"@ },
        if i.1 == DecodeIssueKind::Failed { Severity::Error } else { Severity::Warning },
        "Stream "@ + r.spec_text() + " filter /"@ + i.0 + " could not be decoded: "@ + i.2,
        Some(r), None, Some(offset),
        "Dump stream "@ + r.spec_text() + " and verify the /Filter chain and encoded bytes"@)
}

pub open spec fn image_key_finding(r: ObjectRef, offset: usize, key: Seq<char>) -> FindingV {
    ("image.missing_required_key"@, Severity::Warning,
        "Image stream "@ + r.spec_text() + " is missing /"@ + key,
        Some(r), None, Some(offset),
        "Verify the image XObject dictionary written by the PDF generator"@)
}

/// The finding for `key` if the dictionary lacks it.
pub open spec fn image_key_check(r: ObjectRef, offset: usize, d: Seq<(Seq<char>, ValueView)>, key: Seq<char>) -> Seq<FindingV> {
    if dict_get(d, key) is None { seq![image_key_finding(r, offset, key)] } else { seq![] }
}

/// Findings for an image stream that lacks a required key.
pub open spec fn image_findings(r: ObjectRef, st: StreamV) -> Seq<FindingV> {
    let d = st.0;
    let offset = st.4.start;
    if name_under(d, "Subtype"@) == Some("Image"@) {
        image_key_check(r, offset, d, "Width"@) + image_key_check(r, offset, d, "Height"@)
            + image_key_check(r, offset, d, "ColorSpace"@) + image_key_check(r, offset, d, "BitsPerComponent"@)
    } else {
        seq![]
    }
}

/// Findings for one stream object: its length, its decoding, its image keys.
pub open spec fn stream_object_findings(r: ObjectRef, st: StreamV) -> Seq<FindingV> {
    let length: Seq<FindingV> = match st.1 {
        Some(declared) => if declared != st.2 { seq![length_finding(r, declared, st)] } else { seq![] },
        None => seq![],
    };
    let issues = spec_decode_chain(st.5, st.3, None).2;
    length + issues.map_values(|i: IssueView| issue_finding(r, st.4.start, i)) + image_findings(r, st)
}

pub open spec fn stream_findings(objs: Seq<ObjectV>) -> Seq<FindingV>
    decreases objs.len(),
{
    if objs.len() == 0 {
        seq![]
    } else {
        let o = objs.last();
        stream_findings(objs.drop_last()) + match o.2 {
            Some(st) => stream_object_findings(o.0, st),
            None => seq![],
        }
    }
}

fn check_image_key(r: ObjectRef, offset: usize, dictionary: &PdfDictionary, key: &str, findings: &mut Vec<Finding>)
    ensures
        finding_views(final(findings)@) == finding_views(old(findings)@) + image_key_check(r, offset, dictionary@, key@),
{
    let ghost start = finding_views(findings@);
    if !dictionary.contains_key(key) {
        let mut message = text_ref_text("Image stream ", r, " is missing /");
        push_str(&mut message, key);
        push_finding(findings, finding(
            "image.missing_required_key",
            Severity::Warning,
            message,
            Some(r),
            None,
            Some(offset),
            owned("Verify the image XObject dictionary written by the PDF generator"),
        ));
    }
    assert(finding_views(findings@) =~= start + image_key_check(r, offset, dictionary@, key@));
}

fn add_image_stream_findings(object: &PdfObject, stream: &PdfStream, findings: &mut Vec<Finding>)
    requires
        object.stream == Some(*stream),
    ensures
        finding_views(final(findings)@) == finding_views(old(findings)@) + image_findings(object.reference, stream@),
{
    let ghost start = finding_views(findings@);
    let dictionary = &stream.dictionary;
    if !crate::pdf_parser::name_is(dictionary, "Subtype", "Image") {
        assert(finding_views(findings@) =~= start + image_findings(object.reference, stream@));
        return;
    }
    let r = object.reference;
    let offset = stream.raw_range.start;
    check_image_key(r, offset, dictionary, "Width", findings);
    check_image_key(r, offset, dictionary, "Height", findings);
    check_image_key(r, offset, dictionary, "ColorSpace", findings);
    check_image_key(r, offset, dictionary, "BitsPerComponent", findings);
    assert(finding_views(findings@) =~= start + image_findings(object.reference, stream@));
}

fn add_issue_findings(r: ObjectRef, offset: usize, issues: &Vec<DecodeIssue>, findings: &mut Vec<Finding>)
    ensures
        finding_views(final(findings)@) == finding_views(old(findings)@)
            + issues@.map_values(|i: DecodeIssue| issue_view(i)).map_values(|i: IssueView| issue_finding(r, offset, i)),
{
    let ghost start = finding_views(findings@);
    let ghost all = issues@.map_values(|i: DecodeIssue| issue_view(i)).map_values(|i: IssueView| issue_finding(r, offset, i));
    let mut k: usize = 0;
    while k < issues.len()
        invariant
            k <= issues@.len(),
            all == issues@.map_values(|i: DecodeIssue| issue_view(i)).map_values(|i: IssueView| issue_finding(r, offset, i)),
            finding_views(findings@) == start + all.take(k as int),
        decreases issues@.len() - k,
    {
        let issue = &issues[k];
        let failed = match issue.kind {
            DecodeIssueKind::Failed => true,
            DecodeIssueKind::Unsupported => false,
        };
        let mut message = text_ref_text("Stream ", r, " filter /");
        push_str(&mut message, issue.filter.as_str());
        push_str(&mut message, " could not be decoded: ");
        push_str(&mut message, issue.message.as_str());
        let next = text_ref_text("Dump stream ", r, " and verify the /Filter chain and encoded bytes");
        let f = if failed {
            finding("stream.decode_failed", Severity::Error, message, Some(r), None, Some(offset), next)
        } else {
            finding("stream.unsupported_filter", Severity::Warning, message, Some(r), None, Some(offset), next)
        };
        push_finding(findings, f);
        assert(all.take(k + 1) =~= all.take(k as int).push(all[k as int]));
        k = k + 1;
    }
    assert(all.take(issues@.len() as int) =~= all);
}

fn add_stream_findings(pdf: &ParsedPdf, findings: &mut Vec<Finding>)
    ensures
        finding_views(final(findings)@) == finding_views(old(findings)@) + stream_findings(object_views(pdf.objects@)),
{
    let ghost v = object_views(pdf.objects@);
    let ghost start = finding_views(findings@);
    let mut k: usize = 0;
    assert(v.take(0) =~= Seq::<ObjectV>::empty());
    while k < pdf.objects.len()
        invariant
            k <= pdf.objects@.len(),
            v == object_views(pdf.objects@),
            finding_views(findings@) == start + stream_findings(v.take(k as int)),
        decreases pdf.objects@.len() - k,
    {
        let object = &pdf.objects[k];
        assert(v.take(k + 1).drop_last() =~= v.take(k as int));
        assert(v.take(k + 1).last() == object@);
        let ghost before = finding_views(findings@);
        match &object.stream {
            Some(stream) => {
                let r = object.reference;
                let offset = stream.raw_range.start;
                match stream.declared_length {
                    Some(declared) => {
                        if declared != stream.actual_length {
                            let mut message = text_ref_text("Stream ", r, " declares /Length ");
                            push_decimal(&mut message, declared);
                            push_str(&mut message, ", but ");
                            push_decimal(&mut message, stream.actual_length);
                            push_str(&mut message, " byte(s) were found before endstream");
                            let next = text_ref_text("Regenerate or inspect stream ", r, " and verify the writer's /Length calculation");
                            push_finding(findings, finding("stream.length_mismatch", Severity::Warning, message, Some(r), None, Some(offset), next));
                        }
                    },
                    None => {},
                }
                let ghost mid = finding_views(findings@);
                let decode = crate::stream_decode::decode_stream(stream);
                add_issue_findings(r, offset, &decode.issues, findings);
                add_image_stream_findings(object, stream, findings);
                proof {
                    let issues = spec_decode_chain(stream@.5, stream@.3, None).2;
                    assert(decode.issues@.map_values(|i: DecodeIssue| issue_view(i)) == issues);
                    assert(finding_views(findings@) =~= before + stream_object_findings(r, stream@));
                }
            },
            None => {
                assert(finding_views(findings@) =~= before + seq![]);
            },
        }
        k = k + 1;
    }
    assert(v.take(pdf.objects@.len() as int) =~= v);
}


// ---------------------------------------------------------------------------
// Page tree
// ---------------------------------------------------------------------------

/// The dictionary a value stands for: itself, or the dictionary of the
/// object it references.
pub open spec fn resolve_dict(objs: Seq<ObjectV>, v: ValueView) -> Option<Seq<(Seq<char>, ValueView)>> {
    match v {
        ValueView::Dictionary(d) => Some(d),
        ValueView::Reference(r) => match objects_get(objs, r) {
            Some(o) => object_dictionary(o),
            None => None,
        },
        _ => None,
    }
}

/// The dictionary under `key` in the resources, each resolved through a reference.
pub open spec fn resource_dict(objs: Seq<ObjectV>, resources: Option<ValueView>, key: Seq<char>) -> Option<Seq<(Seq<char>, ValueView)>> {
    match resources {
        Some(v) => match resolve_dict(objs, v) {
            Some(d) => match dict_get(d, key) {
                Some(x) => resolve_dict(objs, x),
                None => None,
            },
            None => None,
        },
        None => None,
    }
}

/// The decoded bytes of a stream, or nothing when a filter fails.
pub open spec fn decoded_content(st: StreamV) -> Seq<u8> {
    let (d, _steps, issues) = spec_decode_chain(st.5, st.3, None);
    if issues.len() == 0 { d } else { seq![] }
}

/// The content bytes that `/Contents` names: a stream's decoded bytes, or
/// those of each array item followed by a line feed.
pub open spec fn content_bytes(objs: Seq<ObjectV>, v: ValueView) -> Seq<u8>
    decreases v,
{
    match v {
        ValueView::Reference(r) => match objects_get(objs, r) {
            Some(o) => match o.2 {
                Some(st) => decoded_content(st),
                None => seq![],
            },
            None => seq![],
        },
        ValueView::Array(items) => items_content_bytes(objs, items),
        _ => seq![],
    }
}

pub open spec fn items_content_bytes(objs: Seq<ObjectV>, items: Seq<ValueView>) -> Seq<u8>
    decreases items,
{
    if items.len() == 0 {
        seq![]
    } else {
        content_bytes(objs, items[0]) + seq![10u8] + items_content_bytes(objs, items.drop_first())
    }
}

pub open spec fn page_prefix(n: u32) -> Seq<char> {
    "Page "@ + decimal(n as nat)
}

pub open spec fn content_warning_finding(r: ObjectRef, n: u32, w: WarnView) -> FindingV {
    (w.0, Severity::Warning, page_prefix(n) + " content stream: "@ + w.3, Some(r), Some(n), None, w.4)
}

pub open spec fn resource_finding(r: ObjectRef, n: u32, name: Seq<char>, font: bool) -> FindingV {
    if font {
        ("page.missing_font_resource"@, Severity::Warning,
            page_prefix(n) + " references font /"@ + name + ", but /"@ + name + " is not defined in page resources"@,
            Some(r), Some(n), None, "Check the page /Resources /Font dictionary and content stream Tf operators"@)
    } else {
        ("page.missing_xobject_resource"@, Severity::Warning,
            page_prefix(n) + " invokes XObject /"@ + name + ", but /"@ + name + " is not defined in page resources"@,
            Some(r), Some(n), None, "Check the page /Resources /XObject dictionary and Do operators"@)
    }
}

pub open spec fn has_key(d: Option<Seq<(Seq<char>, ValueView)>>, key: Seq<char>) -> bool {
    d matches Some(x) && dict_get(x, key) is Some
}

/// Findings for the names that the resource dictionary lacks.
pub open spec fn missing_resources(r: ObjectRef, n: u32, names: Seq<Seq<char>>, d: Option<Seq<(Seq<char>, ValueView)>>, font: bool) -> Seq<FindingV>
    decreases names.len(),
{
    if names.len() == 0 {
        seq![]
    } else {
        missing_resources(r, n, names.drop_last(), d, font)
            + if has_key(d, names.last()) { seq![] } else { seq![resource_finding(r, n, names.last(), font)] }
    }
}

/// The findings for a page's content, and whether its content stream
/// holds a delimiter the content tokenizer cannot step past.
pub open spec fn page_resource_findings(
    objs: Seq<ObjectV>,
    r: ObjectRef,
    d: Seq<(Seq<char>, ValueView)>,
    resources: Option<ValueView>,
    n: u32,
) -> (Seq<FindingV>, bool) {
    match dict_get(d, "Contents"@) {
        None => (seq![], false),
        Some(c) => {
            let bytes = content_bytes(objs, c);
            if bytes.len() == 0 {
                (seq![], false)
            } else if !tokenizable(bytes) {
                (seq![], true)
            } else {
                let ops = content_operators(bytes);
                let warnings = operator_warnings(ops).map_values(|w: WarnView| content_warning_finding(r, n, w));
                let fonts = missing_resources(r, n, sorted_names(names_used(ops, "Tf"@, false)), resource_dict(objs, resources, "Font"@), true);
                let xobjects = missing_resources(r, n, sorted_names(names_used(ops, "Do"@, true)), resource_dict(objs, resources, "XObject"@), false);
                (warnings + fonts + xobjects, false)
            }
        },
    }
}

/// What a page inherits from its ancestors: whether one has `/MediaBox`,
/// and the nearest `/Resources`.
pub type InheritedV = (bool, Option<ValueView>);

/// Findings so far, pages counted so far, the nodes visited (sorted), and
/// whether some page's content stalls the content tokenizer.
pub type WalkState = (Seq<FindingV>, u32, Seq<ObjectRef>, bool);

pub open spec fn node_finding(rule: Seq<char>, r: ObjectRef, message: Seq<char>, offset: Option<usize>, next: Seq<char>) -> FindingV {
    (rule, Severity::Error, message, Some(r), None, offset, next)
}

pub open spec fn cyclic_finding(r: ObjectRef) -> FindingV {
    node_finding("page_tree.cyclic_reference"@, r, "Page tree cycle detected at "@ + r.spec_text(), None,
        "Break the cycle in the /Kids or /Parent references"@)
}

pub open spec fn missing_node_finding(r: ObjectRef) -> FindingV {
    node_finding("page_tree.missing_node"@, r, "Page tree node "@ + r.spec_text() + " is missing"@, None,
        "Verify the page tree /Kids array and xref entries"@)
}

pub open spec fn not_dictionary_finding(r: ObjectRef, offset: usize) -> FindingV {
    node_finding("page_tree.node_not_dictionary"@, r, "Page tree node "@ + r.spec_text() + " is not a dictionary"@, Some(offset),
        "Replace the node with a valid /Pages or /Page dictionary"@)
}

pub open spec fn no_kids_finding(r: ObjectRef, offset: usize) -> FindingV {
    node_finding("page_tree.pages_without_kids"@, r, "/Pages node "@ + r.spec_text() + " does not contain a /Kids array"@, Some(offset),
        "Write a /Kids array containing page or page-tree references"@)
}

pub open spec fn invalid_kid_finding(r: ObjectRef, offset: usize) -> FindingV {
    node_finding("page_tree.invalid_kid_reference"@, r,
        "/Pages node "@ + r.spec_text() + " contains a /Kids entry that is not a reference"@, Some(offset),
        "Ensure every /Kids entry is an indirect object reference"@)
}

pub open spec fn invalid_type_finding(r: ObjectRef, ty: Option<Seq<char>>, offset: usize) -> FindingV {
    node_finding("page_tree.invalid_node_type"@, r,
        "Page tree node "@ + r.spec_text() + " has unexpected /Type "@ + optional_name_debug(ty), Some(offset),
        "Ensure page tree nodes use /Type /Pages or /Type /Page"@)
}

pub open spec fn missing_mediabox_finding(n: u32, r: ObjectRef, offset: usize) -> FindingV {
    ("page.missing_mediabox"@, Severity::Warning,
        page_prefix(n) + " ("@ + r.spec_text() + ") has no /MediaBox and does not inherit one"@,
        Some(r), Some(n), Some(offset), "Add /MediaBox to the page or an ancestor /Pages node"@)
}

/// Visiting page tree node `r`: a node seen before is a cycle; a missing
/// node or one without a dictionary is reported; a `/Pages` node walks its
/// `/Kids` in order; a `/Page` node is numbered and its MediaBox and content
/// are checked; any other `/Type` is reported. `fuel` bounds the depth:
/// each level visits a new object, so one more than the number of objects
/// is never used up.
pub open spec fn walk_node(objs: Seq<ObjectV>, fuel: nat, r: ObjectRef, inh: InheritedV, st: WalkState) -> WalkState
    decreases fuel, 0nat,
{
    let (fs, pages, visited, stalled) = st;
    if visited.contains(r) {
        (fs.push(cyclic_finding(r)), pages, visited, stalled)
    } else {
        let vis = ref_insert(visited, r);
        match objects_get(objs, r) {
            None => (fs.push(missing_node_finding(r)), pages, vis, stalled),
            Some(o) => match object_dictionary(o) {
                None => (fs.push(not_dictionary_finding(r, o.3.start)), pages, vis, stalled),
                Some(d) => {
                    let inh2: InheritedV = (
                        inh.0 || dict_get(d, "MediaBox"@) is Some,
                        match dict_get(d, "Resources"@) {
                            Some(v) => Some(v),
                            None => inh.1,
                        },
                    );
                    let ty = name_under(d, "Type"@);
                    let offset = o.3.start;
                    if ty == Some("Pages"@) {
                        match dict_get(d, "Kids"@) {
                            Some(ValueView::Array(kids)) => if fuel == 0 {
                                (fs, pages, vis, stalled)
                            } else {
                                walk_kids(objs, (fuel - 1) as nat, r, offset, kids, inh2, (fs, pages, vis, stalled))
                            },
                            _ => (fs.push(no_kids_finding(r, offset)), pages, vis, stalled),
                        }
                    } else if ty == Some("Page"@) {
                        let n = (pages + 1) as u32;
                        let mediabox: Seq<FindingV> = if inh2.0 { seq![] } else { seq![missing_mediabox_finding(n, r, offset)] };
                        let content = page_resource_findings(objs, r, d, inh2.1, n);
                        (fs + mediabox + content.0, n, vis, stalled || content.1)
                    } else {
                        (fs.push(invalid_type_finding(r, ty, offset)), pages, vis, stalled)
                    }
                },
            },
        }
    }
}

/// Walking the `/Kids` of node `parent` in order.
pub open spec fn walk_kids(
    objs: Seq<ObjectV>,
    fuel: nat,
    parent: ObjectRef,
    offset: usize,
    kids: Seq<ValueView>,
    inh: InheritedV,
    st: WalkState,
) -> WalkState
    decreases fuel, kids.len() + 1,
{
    if kids.len() == 0 {
        st
    } else {
        let next = match kids[0] {
            ValueView::Reference(k) => walk_node(objs, fuel, k, inh, st),
            _ => (st.0.push(invalid_kid_finding(parent, offset)), st.1, st.2, st.3),
        };
        walk_kids(objs, fuel, parent, offset, kids.drop_first(), inh, next)
    }
}

/// The page tree findings, and whether some page's content stalls the
/// content tokenizer.
pub open spec fn page_tree_walk(pdf: ParsedPdf) -> (Seq<FindingV>, bool) {
    let objs = object_views(pdf.objects@);
    match pdf.metadata.root {
        None => (seq![("page_tree.missing_catalog"@, Severity::Error, "Trailer does not contain a /Root catalog reference"@,
            None, None, None, "Verify the trailer dictionary and root catalog object"@)], false),
        Some(root) => match (match objects_get(objs, root) { Some(o) => object_dictionary(o), None => None }) {
            None => (seq![node_finding("page_tree.invalid_catalog_reference"@, root,
                "Root catalog reference "@ + root.spec_text() + " does not resolve to a dictionary"@, None,
                "Check the trailer /Root entry and referenced object"@)], false),
            Some(catalog) => match dict_get(catalog, "Pages"@) {
                None => (seq![node_finding("page_tree.missing_pages"@, root,
                    "Catalog "@ + root.spec_text() + " does not contain /Pages"@, None,
                    "Verify that the catalog points to a valid page tree root"@)], false),
                Some(pages) => match view_reference(pages) {
                    None => (seq![node_finding("page_tree.invalid_pages_reference"@, root,
                        "Catalog "@ + root.spec_text() + " has /Pages that is not an object reference"@, None,
                        "Write /Pages as an indirect reference to a /Pages dictionary"@)], false),
                    Some(p) => {
                        let st = walk_node(objs, objs.len() + 1, p, (false, None), (seq![], 0, seq![], false));
                        (st.0, st.3)
                    },
                },
            },
        },
    }
}

/// std's `Debug` text of an optional name, as `format!("{:?}", ..)` writes it.
pub uninterp spec fn optional_name_debug(name: Option<Seq<char>>) -> Seq<char>;

/// Calls `format!("{:?}", name)`: std's `Debug` for `Option<&str>`. The
/// contract claims only that the text depends on the name alone.
#[verifier::external_body]
fn debug_optional_name(name: Option<&str>) -> (r: String)
    ensures
        r@ == optional_name_debug(match name { Some(n) => Some(n@), None => None }),
{
    format!("{:?}", name)
}

/// The number of objects whose reference has not been visited.
pub open spec fn unvisited(objs: Seq<ObjectV>, visited: Seq<ObjectRef>) -> nat
    decreases objs.len(),
{
    if objs.len() == 0 {
        0
    } else {
        (if visited.contains(objs[0].0) { 0nat } else { 1nat }) + unvisited(objs.drop_first(), visited)
    }
}

pub(crate) proof fn lemma_unvisited_bound(objs: Seq<ObjectV>, visited: Seq<ObjectRef>)
    ensures
        unvisited(objs, visited) <= objs.len(),
    decreases objs.len(),
{
    if objs.len() > 0 {
        lemma_unvisited_bound(objs.drop_first(), visited);
    }
}

pub(crate) proof fn lemma_unvisited_grow(objs: Seq<ObjectV>, a: Seq<ObjectRef>, b: Seq<ObjectRef>)
    requires
        forall|x: ObjectRef| a.contains(x) ==> b.contains(x),
    ensures
        unvisited(objs, b) <= unvisited(objs, a),
    decreases objs.len(),
{
    if objs.len() > 0 {
        lemma_unvisited_grow(objs.drop_first(), a, b);
    }
}

pub(crate) proof fn lemma_unvisited_visit(objs: Seq<ObjectV>, a: Seq<ObjectRef>, b: Seq<ObjectRef>, r: ObjectRef)
    requires
        forall|x: ObjectRef| a.contains(x) ==> b.contains(x),
        objects_get(objs, r) is Some,
        !a.contains(r),
        b.contains(r),
    ensures
        unvisited(objs, b) < unvisited(objs, a),
    decreases objs.len(),
{
    if objs[0].0 == r {
        lemma_unvisited_grow(objs.drop_first(), a, b);
    } else {
        lemma_unvisited_visit(objs.drop_first(), a, b, r);
    }
}

pub(crate) proof fn lemma_ref_insert_contains(s: Seq<ObjectRef>, r: ObjectRef)
    ensures
        forall|x: ObjectRef| #[trigger] ref_insert(s, r).contains(x) <==> s.contains(x) || x == r,
    decreases s.len(),
{
    if s.len() == 0 {
        assert(seq![r][0] == r);
    } else if s[0] == r {
        assert(s.contains(s[0]));
    } else if r.precedes(s[0]) {
        let t = seq![r] + s;
        assert forall|x: ObjectRef| #[trigger] t.contains(x) <==> s.contains(x) || x == r by {
            if t.contains(x) {
                let k = choose|k: int| 0 <= k < t.len() && t[k] == x;
                if k > 0 {
                    assert(s[k - 1] == x);
                }
            }
            if s.contains(x) {
                let k = choose|k: int| 0 <= k < s.len() && s[k] == x;
                assert(t[k + 1] == x);
            }
            if x == r {
                assert(t[0] == x);
            }
        }
    } else {
        let rest = s.drop_first();
        lemma_ref_insert_contains(rest, r);
        let t = seq![s[0]] + ref_insert(rest, r);
        assert forall|x: ObjectRef| #[trigger] t.contains(x) <==> s.contains(x) || x == r by {
            if t.contains(x) {
                let k = choose|k: int| 0 <= k < t.len() && t[k] == x;
                if k == 0 {
                    assert(s[0] == x);
                } else {
                    assert(ref_insert(rest, r)[k - 1] == x);
                    assert(ref_insert(rest, r).contains(x));
                    if rest.contains(x) {
                        let m = choose|m: int| 0 <= m < rest.len() && rest[m] == x;
                        assert(s[m + 1] == x);
                    }
                }
            }
            if s.contains(x) {
                let k = choose|k: int| 0 <= k < s.len() && s[k] == x;
                if k == 0 {
                    assert(t[0] == x);
                } else {
                    assert(rest[k - 1] == x);
                    assert(ref_insert(rest, r).contains(x));
                    let m = choose|m: int| 0 <= m < ref_insert(rest, r).len() && ref_insert(rest, r)[m] == x;
                    assert(t[m + 1] == x);
                }
            }
            if x == r {
                assert(ref_insert(rest, r).contains(x));
                let m = choose|m: int| 0 <= m < ref_insert(rest, r).len() && ref_insert(rest, r)[m] == x;
                assert(t[m + 1] == x);
            }
        }
    }
}

pub(crate) fn contains_ref(v: &Vec<ObjectRef>, r: ObjectRef) -> (b: bool)
    ensures
        b == v@.contains(r),
{
    let mut i: usize = 0;
    while i < v.len()
        invariant
            i <= v@.len(),
            forall|j: int| 0 <= j < i ==> v@[j] != r,
        decreases v@.len() - i,
    {
        if v[i] == r {
            assert(v@[i as int] == r);
            return true;
        }
        i = i + 1;
    }
    false
}

fn resolve_dictionary<'a>(pdf: &'a ParsedPdf, value: &'a PdfValue) -> (r: Option<&'a PdfDictionary>)
    requires
        pdf.wf(),
    ensures
        match resolve_dict(object_views(pdf.objects@), value@) {
            Some(d) => r matches Some(x) && x@ == d,
            None => r is None,
        },
{
    match value {
        PdfValue::Dictionary(d) => Some(d),
        PdfValue::Reference(reference) => match pdf.object(*reference) {
            Some(o) => o.dictionary(),
            None => None,
        },
        _ => None,
    }
}

fn resource_dictionary<'a>(pdf: &'a ParsedPdf, resources: Option<&'a PdfValue>, key: &str) -> (r: Option<&'a PdfDictionary>)
    requires
        pdf.wf(),
    ensures
        match resource_dict(object_views(pdf.objects@), match resources { Some(v) => Some(v@), None => None }, key@) {
            Some(d) => r matches Some(x) && x@ == d,
            None => r is None,
        },
{
    match resources {
        Some(v) => match resolve_dictionary(pdf, v) {
            Some(d) => match d.get(key) {
                Some(x) => resolve_dictionary(pdf, x),
                None => None,
            },
            None => None,
        },
        None => None,
    }
}

fn collect_content_stream_bytes(pdf: &ParsedPdf, value: &PdfValue, output: &mut Vec<u8>)
    requires
        pdf.wf(),
    ensures
        final(output)@ == old(output)@ + content_bytes(object_views(pdf.objects@), value@),
    decreases value,
{
    let ghost objs = object_views(pdf.objects@);
    match value {
        PdfValue::Reference(reference) => {
            match pdf.stream(*reference) {
                Some(stream) => {
                    let decode = crate::stream_decode::decode_stream(stream);
                    if !decode.has_issues() {
                        let mut decoded = decode.decoded;
                        output.append(&mut decoded);
                    } else {
                        assert(output@ =~= old(output)@ + seq![]);
                    }
                },
                None => {
                    assert(output@ =~= old(output)@ + seq![]);
                },
            }
        },
        PdfValue::Array(values) => {
            let ghost all = value_views(values@);
            let ghost start = output@;
            let mut i: usize = 0;
            assert(all.skip(0) =~= all);
            assert(start =~= start + seq![]);
            while i < values.len()
                invariant
                    *value == PdfValue::Array(*values),
                    pdf.wf(),
                    objs == object_views(pdf.objects@),
                    i <= values@.len(),
                    all == value_views(values@),
                    all.len() == values@.len(),
                    start + items_content_bytes(objs, all) == output@ + items_content_bytes(objs, all.skip(i as int)),
                decreases values@.len() - i,
            {
                proof {
                    assert(decreases_to!(*value => value->Array_0));
                    assert(decreases_to!(*values => values@));
                    assert(decreases_to!(values@ => values@[i as int]));
                    assert(all.skip(i as int)[0] == values@[i as int]@);
                    assert(all.skip(i as int).drop_first() =~= all.skip(i + 1));
                }
                let ghost before = output@;
                collect_content_stream_bytes(pdf, &values[i], output);
                output.push(10u8);
                proof {
                    let c = content_bytes(objs, values@[i as int]@);
                    let rest = items_content_bytes(objs, all.skip(i + 1));
                    assert(items_content_bytes(objs, all.skip(i as int)) == c + seq![10u8] + rest);
                    assert(before + (c + seq![10u8] + rest) =~= output@ + rest);
                }
                i = i + 1;
            }
            assert(all.skip(values@.len() as int) =~= Seq::<ValueView>::empty());
            assert(output@ + items_content_bytes(objs, Seq::<ValueView>::empty()) =~= output@);
        },
        _ => {
            assert(output@ =~= old(output)@ + seq![]);
        },
    }
}

fn page_text(n: u32, text: &str) -> (s: String)
    ensures
        s@ == page_prefix(n) + text@,
{
    let mut s = owned("Page ");
    push_decimal(&mut s, n as usize);
    push_str(&mut s, text);
    s
}

fn add_missing_resources(
    r: ObjectRef,
    n: u32,
    names: &Vec<String>,
    d: Option<&PdfDictionary>,
    font: bool,
    findings: &mut Vec<Finding>,
)
    ensures
        finding_views(final(findings)@) == finding_views(old(findings)@)
            + missing_resources(r, n, string_views(names@), match d { Some(x) => Some(x@), None => None }, font),
{
    let ghost dv = match d { Some(x) => Some(x@), None => None };
    let ghost nv = string_views(names@);
    let ghost start = finding_views(findings@);
    let mut i: usize = 0;
    assert(nv.take(0) =~= Seq::<Seq<char>>::empty());
    while i < names.len()
        invariant
            i <= names@.len(),
            nv == string_views(names@),
            nv.len() == names@.len(),
            dv == match d { Some(x) => Some(x@), None => None::<Seq<(Seq<char>, ValueView)>> },
            finding_views(findings@) == start + missing_resources(r, n, nv.take(i as int), dv, font),
        decreases names@.len() - i,
    {
        let name = names[i].as_str();
        assert(nv.take(i + 1).drop_last() =~= nv.take(i as int));
        assert(nv.take(i + 1).last() == name@);
        let present = match d {
            Some(x) => x.contains_key(name),
            None => false,
        };
        if !present {
            let message = if font {
                let mut m = page_text(n, " references font /");
                push_str(&mut m, name);
                push_str(&mut m, ", but /");
                push_str(&mut m, name);
                push_str(&mut m, " is not defined in page resources");
                m
            } else {
                let mut m = page_text(n, " invokes XObject /");
                push_str(&mut m, name);
                push_str(&mut m, ", but /");
                push_str(&mut m, name);
                push_str(&mut m, " is not defined in page resources");
                m
            };
            let f = if font {
                finding("page.missing_font_resource", Severity::Warning, message, Some(r), Some(n), None,
                    owned("Check the page /Resources /Font dictionary and content stream Tf operators"))
            } else {
                finding("page.missing_xobject_resource", Severity::Warning, message, Some(r), Some(n), None,
                    owned("Check the page /Resources /XObject dictionary and Do operators"))
            };
            push_finding(findings, f);
        }
        assert(finding_views(findings@) =~= start + missing_resources(r, n, nv.take(i + 1), dv, font));
        i = i + 1;
    }
    assert(nv.take(names@.len() as int) =~= nv);
}

fn add_content_warnings(r: ObjectRef, n: u32, warnings: &Vec<ContentWarning>, findings: &mut Vec<Finding>)
    ensures
        finding_views(final(findings)@) == finding_views(old(findings)@)
            + wviews(warnings@).map_values(|w: WarnView| content_warning_finding(r, n, w)),
{
    let ghost all = wviews(warnings@).map_values(|w: WarnView| content_warning_finding(r, n, w));
    let ghost start = finding_views(findings@);
    let mut i: usize = 0;
    while i < warnings.len()
        invariant
            i <= warnings@.len(),
            all == wviews(warnings@).map_values(|w: WarnView| content_warning_finding(r, n, w)),
            finding_views(findings@) == start + all.take(i as int),
        decreases warnings@.len() - i,
    {
        let w = &warnings[i];
        let mut message = page_text(n, " content stream: ");
        push_str(&mut message, w.message.as_str());
        push_finding(findings, Finding {
            rule_id: owned(w.rule_id.as_str()),
            severity: Severity::Warning,
            message,
            object: Some(r),
            page: Some(n),
            byte_offset: None,
            suggested_next_step: owned(w.suggested_next_step.as_str()),
        });
        assert(all.take(i + 1) =~= all.take(i as int).push(all[i as int]));
        i = i + 1;
    }
    assert(all.take(warnings@.len() as int) =~= all);
}

fn add_page_resource_findings(
    pdf: &ParsedPdf,
    page_reference: ObjectRef,
    page_dictionary: &PdfDictionary,
    resources_value: Option<&PdfValue>,
    page_number: u32,
    findings: &mut Vec<Finding>,
) -> (stalled: bool)
    requires
        pdf.wf(),
    ensures
        ({
            let res = page_resource_findings(object_views(pdf.objects@), page_reference, page_dictionary@,
                match resources_value { Some(v) => Some(v@), None => None }, page_number);
            finding_views(final(findings)@) == finding_views(old(findings)@) + res.0 && stalled == res.1
        }),
{
    let ghost objs = object_views(pdf.objects@);
    let ghost start = finding_views(findings@);
    let contents = match page_dictionary.get("Contents") {
        Some(c) => c,
        None => {
            assert(finding_views(findings@) =~= start + seq![]);
            return false;
        },
    };
    let mut bytes: Vec<u8> = Vec::new();
    collect_content_stream_bytes(pdf, contents, &mut bytes);
    assert(bytes@ =~= content_bytes(objs, contents@));
    if bytes.len() == 0 {
        assert(finding_views(findings@) =~= start + seq![]);
        return false;
    }
    if !crate::content_ops::content_stream_tokenizable(bytes.as_slice()) {
        assert(finding_views(findings@) =~= start + seq![]);
        return true;
    }
    let analysis = crate::content_ops::analyze_content_stream(bytes.as_slice());
    proof {
        crate::content_ops::lemma_analysis_operators(analysis, bytes@);
    }
    let resources = resource_dictionary(pdf, resources_value, "Font");
    let xobjects = resource_dictionary(pdf, resources_value, "XObject");
    add_content_warnings(page_reference, page_number, &analysis.warnings, findings);
    let fonts_used = crate::content_ops::font_names_used(&analysis);
    proof {
        lemma_sorted_names_is(string_views(fonts_used@), names_used(opviews(analysis.operators@), "Tf"@, false));
    }
    add_missing_resources(page_reference, page_number, &fonts_used, resources, true, findings);
    let xobjects_used = crate::content_ops::xobject_names_used(&analysis);
    proof {
        lemma_sorted_names_is(string_views(xobjects_used@), names_used(opviews(analysis.operators@), "Do"@, true));
    }
    add_missing_resources(page_reference, page_number, &xobjects_used, xobjects, false, findings);
    proof {
        let res = page_resource_findings(objs, page_reference, page_dictionary@,
            match resources_value { Some(v) => Some(v@), None => None }, page_number);
        assert(finding_views(findings@) =~= start + res.0);
    }
    false
}


/// What a page inherits from its ancestors.
struct InheritedPageState {
    has_media_box: bool,
    resources: Option<PdfValue>,
}

impl View for InheritedPageState {
    type V = InheritedV;

    closed spec fn view(&self) -> InheritedV {
        (self.has_media_box, match self.resources { Some(v) => Some(v@), None => None })
    }
}

fn node_error(rule: &str, r: ObjectRef, message: String, offset: Option<usize>, next: &str) -> (f: Finding)
    ensures
        f@ == node_finding(rule@, r, message@, offset, next@),
{
    finding(rule, Severity::Error, message, Some(r), None, offset, owned(next))
}

fn walk_page_node(
    pdf: &ParsedPdf,
    reference: ObjectRef,
    inherited: &InheritedPageState,
    page_number: &mut u32,
    visited: &mut Vec<ObjectRef>,
    findings: &mut Vec<Finding>,
    stalled: &mut bool,
    Ghost(fuel): Ghost<nat>,
)
    requires
        pdf.wf(),
        refs_increasing(old(visited)@),
        fuel > unvisited(object_views(pdf.objects@), old(visited)@),
        *old(page_number) + unvisited(object_views(pdf.objects@), old(visited)@) <= pdf.objects@.len(),
        pdf.objects@.len() <= u32::MAX,
    ensures
        refs_increasing(final(visited)@),
        forall|x: ObjectRef| old(visited)@.contains(x) ==> final(visited)@.contains(x),
        *final(page_number) + unvisited(object_views(pdf.objects@), final(visited)@) <= pdf.objects@.len(),
        (finding_views(final(findings)@), *final(page_number), final(visited)@, *final(stalled))
            == walk_node(object_views(pdf.objects@), fuel, reference, inherited@,
                (finding_views(old(findings)@), *old(page_number), old(visited)@, *old(stalled))),
    decreases fuel,
{
    let ghost objs = object_views(pdf.objects@);
    let ghost v0 = visited@;
    if contains_ref(visited, reference) {
        let mut message = owned("Page tree cycle detected at ");
        let t = reference.to_text();
        push_str(&mut message, t.as_str());
        push_finding(findings, node_error("page_tree.cyclic_reference", reference, message, None,
            "Break the cycle in the /Kids or /Parent references"));
        return;
    }
    insert_ref(visited, reference);
    proof {
        lemma_ref_insert_contains(v0, reference);
        lemma_unvisited_grow(objs, v0, visited@);
    }
    let object = match pdf.object(reference) {
        Some(o) => o,
        None => {
            let message = text_ref_text("Page tree node ", reference, " is missing");
            push_finding(findings, node_error("page_tree.missing_node", reference, message, None,
                "Verify the page tree /Kids array and xref entries"));
            return;
        },
    };
    proof {
        lemma_unvisited_visit(objs, v0, visited@, reference);
    }
    let offset = object.raw_range.start;
    let dictionary = match object.dictionary() {
        Some(d) => d,
        None => {
            let message = text_ref_text("Page tree node ", reference, " is not a dictionary");
            push_finding(findings, node_error("page_tree.node_not_dictionary", reference, message, Some(offset),
                "Replace the node with a valid /Pages or /Page dictionary"));
            return;
        },
    };
    let resources = match dictionary.get("Resources") {
        Some(v) => Some(v.deep_copy()),
        None => match &inherited.resources {
            Some(v) => Some(v.deep_copy()),
            None => None,
        },
    };
    let state = InheritedPageState {
        has_media_box: inherited.has_media_box || dictionary.contains_key("MediaBox"),
        resources,
    };
    let node_type = match dictionary.get("Type") {
        Some(v) => v.as_name(),
        None => None,
    };
    let ghost ty = name_under(dictionary@, "Type"@);
    assert(match node_type { Some(n) => ty == Some(n@), None => ty is None });
    let is_pages = match node_type { Some(n) => str_eq(n, "Pages"), None => false };
    let is_page = match node_type { Some(n) => str_eq(n, "Page"), None => false };
    if is_pages {
        let kids = match dictionary.get("Kids") {
            Some(k) => k.as_array(),
            None => None,
        };
        let kids = match kids {
            Some(k) => k,
            None => {
                let message = text_ref_text("/Pages node ", reference, " does not contain a /Kids array");
                push_finding(findings, node_error("page_tree.pages_without_kids", reference, message, Some(offset),
                    "Write a /Kids array containing page or page-tree references"));
                return;
            },
        };
        let ghost kv = value_views(kids@);
        let ghost f1 = (fuel - 1) as nat;
        let ghost goal = walk_kids(objs, f1, reference, offset, kv, state@,
            (finding_views(findings@), *page_number, visited@, *stalled));
        let mut i: usize = 0;
        assert(kv.skip(0) =~= kv);
        while i < kids.len()
            invariant
                pdf.wf(),
                objs == object_views(pdf.objects@),
                pdf.objects@.len() <= u32::MAX,
                i <= kids@.len(),
                kv == value_views(kids@),
                kv.len() == kids@.len(),
                fuel > 0,
                f1 == fuel - 1,
                refs_increasing(visited@),
                forall|x: ObjectRef| v0.contains(x) ==> visited@.contains(x),
                f1 > unvisited(objs, visited@),
                *page_number + unvisited(objs, visited@) <= pdf.objects@.len(),
                goal == walk_kids(objs, f1, reference, offset, kv.skip(i as int), state@,
                    (finding_views(findings@), *page_number, visited@, *stalled)),
            decreases kids@.len() - i,
        {
            assert(kv.skip(i as int)[0] == kids@[i as int]@);
            assert(kv.skip(i as int).drop_first() =~= kv.skip(i + 1));
            let ghost vb = visited@;
            match kids[i].as_reference() {
                Some(kid) => {
                    walk_page_node(pdf, kid, &state, page_number, visited, findings, stalled, Ghost(f1));
                    proof {
                        lemma_unvisited_grow(objs, vb, visited@);
                    }
                },
                None => {
                    let message = text_ref_text("/Pages node ", reference, " contains a /Kids entry that is not a reference");
                    push_finding(findings, node_error("page_tree.invalid_kid_reference", reference, message, Some(offset),
                        "Ensure every /Kids entry is an indirect object reference"));
                },
            }
            i = i + 1;
        }
        assert(kv.skip(kids@.len() as int) =~= Seq::<ValueView>::empty());
    } else if is_page {
        *page_number = *page_number + 1;
        let n = *page_number;
        let ghost before = finding_views(findings@);
        if !state.has_media_box {
            let mut message = page_text(n, " (");
            let t = reference.to_text();
            push_str(&mut message, t.as_str());
            push_str(&mut message, ") has no /MediaBox and does not inherit one");
            push_finding(findings, finding("page.missing_mediabox", Severity::Warning, message, Some(reference), Some(n),
                Some(offset), owned("Add /MediaBox to the page or an ancestor /Pages node")));
        }
        let ghost mid = finding_views(findings@);
        let content_stalled = add_page_resource_findings(pdf, reference, dictionary, state.resources.as_ref(), n, findings);
        if content_stalled {
            *stalled = true;
        }
        proof {
            let mediabox: Seq<FindingV> = if state@.0 { seq![] } else { seq![missing_mediabox_finding(n, reference, offset)] };
            assert(mid =~= before + mediabox);
        }
    } else {
        let shown = debug_optional_name(node_type);
        let mut message = text_ref_text("Page tree node ", reference, " has unexpected /Type ");
        push_str(&mut message, shown.as_str());
        push_finding(findings, node_error("page_tree.invalid_node_type", reference, message, Some(offset),
            "Ensure page tree nodes use /Type /Pages or /Type /Page"));
    }
}

fn add_page_tree_findings(pdf: &ParsedPdf, findings: &mut Vec<Finding>) -> (stalled: bool)
    requires
        pdf.wf(),
        pdf.objects@.len() <= u32::MAX,
    ensures
        finding_views(final(findings)@) == finding_views(old(findings)@) + page_tree_walk(*pdf).0,
        stalled == page_tree_walk(*pdf).1,
{
    let ghost objs = object_views(pdf.objects@);
    let ghost start = finding_views(findings@);
    let root = match pdf.metadata.root {
        Some(r) => r,
        None => {
            push_finding(findings, finding("page_tree.missing_catalog", Severity::Error,
                owned("Trailer does not contain a /Root catalog reference"), None, None, None,
                owned("Verify the trailer dictionary and root catalog object")));
            return false;
        },
    };
    let catalog = match pdf.object(root) {
        Some(o) => o.dictionary(),
        None => None,
    };
    let catalog = match catalog {
        Some(c) => c,
        None => {
            let message = text_ref_text("Root catalog reference ", root, " does not resolve to a dictionary");
            push_finding(findings, node_error("page_tree.invalid_catalog_reference", root, message, None,
                "Check the trailer /Root entry and referenced object"));
            return false;
        },
    };
    let pages_value = match catalog.get("Pages") {
        Some(p) => p,
        None => {
            let message = text_ref_text("Catalog ", root, " does not contain /Pages");
            push_finding(findings, node_error("page_tree.missing_pages", root, message, None,
                "Verify that the catalog points to a valid page tree root"));
            return false;
        },
    };
    let pages_reference = match pages_value.as_reference() {
        Some(p) => p,
        None => {
            let message = text_ref_text("Catalog ", root, " has /Pages that is not an object reference");
            push_finding(findings, node_error("page_tree.invalid_pages_reference", root, message, None,
                "Write /Pages as an indirect reference to a /Pages dictionary"));
            return false;
        },
    };
    let mut visited: Vec<ObjectRef> = Vec::new();
    let mut page_number: u32 = 0;
    let mut stalled = false;
    let mut walked: Vec<Finding> = Vec::new();
    let inherited = InheritedPageState { has_media_box: false, resources: None };
    proof {
        lemma_unvisited_bound(objs, visited@);
        assert(finding_views(walked@) =~= Seq::<FindingV>::empty());
    }
    walk_page_node(pdf, pages_reference, &inherited, &mut page_number, &mut visited, &mut walked, &mut stalled,
        Ghost((pdf.objects@.len() + 1) as nat));
    let ghost walked_views = finding_views(walked@);
    let mut k: usize = 0;
    while k < walked.len()
        invariant
            k <= walked@.len(),
            walked_views == finding_views(walked@),
            finding_views(findings@) == start + walked_views.take(k as int),
        decreases walked@.len() - k,
    {
        let f = Finding {
            rule_id: owned(walked[k].rule_id.as_str()),
            severity: walked[k].severity,
            message: owned(walked[k].message.as_str()),
            object: walked[k].object,
            page: walked[k].page,
            byte_offset: walked[k].byte_offset,
            suggested_next_step: owned(walked[k].suggested_next_step.as_str()),
        };
        push_finding(findings, f);
        assert(walked_views.take(k + 1) =~= walked_views.take(k as int).push(walked_views[k as int]));
        k = k + 1;
    }
    assert(walked_views.take(walked@.len() as int) =~= walked_views);
    stalled
}


// ---------------------------------------------------------------------------
// All diagnostics
// ---------------------------------------------------------------------------

/// Every finding on a document, in order: parse warnings, document
/// features, cross-reference offsets, missing references, streams, and
/// the page tree.
pub open spec fn diagnostics_of(pdf: ParsedPdf) -> Seq<FindingV> {
    let objs = object_views(pdf.objects@);
    parse_warning_findings(warning_views(pdf.warnings@))
        + feature_findings(pdf)
        + xref_findings(pdf.xref_entries@)
        + missing_findings(document_refs(pdf), objs)
        + stream_findings(objs)
        + page_tree_walk(pdf).0
}

/// Some page's content holds a delimiter (`)`, `>`, `{` or `}` where a
/// token should start) that the content tokenizer cannot step past.
pub open spec fn page_content_stalls(pdf: ParsedPdf) -> bool {
    page_tree_walk(pdf).1
}

fn diagnostics(pdf: &ParsedPdf) -> (r: (Vec<Finding>, bool))
    requires
        pdf.wf(),
        pdf.objects@.len() <= u32::MAX,
    ensures
        finding_views(r.0@) == diagnostics_of(*pdf),
        r.1 == page_content_stalls(*pdf),
{
    let mut findings: Vec<Finding> = Vec::new();
    assert(finding_views(findings@) =~= Seq::<FindingV>::empty());
    add_parse_warnings(pdf, &mut findings);
    add_document_feature_findings(pdf, &mut findings);
    add_xref_findings(pdf, &mut findings);
    add_missing_reference_findings(pdf, &mut findings);
    add_stream_findings(pdf, &mut findings);
    let stalled = add_page_tree_findings(pdf, &mut findings);
    assert(finding_views(findings@) =~= diagnostics_of(*pdf));
    (findings, stalled)
}

/// Runs every check on a parsed document. Defined where no page's content
/// stalls the content tokenizer.
pub fn run_diagnostics(pdf: &ParsedPdf) -> (findings: Vec<Finding>)
    requires
        pdf.wf(),
        pdf.objects@.len() <= u32::MAX,
        !page_content_stalls(*pdf),
    ensures
        finding_views(findings@) == diagnostics_of(*pdf),
{
    diagnostics(pdf).0
}

/// Runs every check on a parsed document; `None` where some page's content
/// stalls the content tokenizer.
pub fn run_diagnostics_checked(pdf: &ParsedPdf) -> (r: Option<Vec<Finding>>)
    requires
        pdf.wf(),
        pdf.objects@.len() <= u32::MAX,
    ensures
        r is None <==> page_content_stalls(*pdf),
        r matches Some(findings) ==> finding_views(findings@) == diagnostics_of(*pdf),
{
    let (findings, stalled) = diagnostics(pdf);
    if stalled { None } else { Some(findings) }
}


/// A missing-reference finding names reference `r` exactly when `r` is
/// among the references and no object is stored under it.
pub proof fn lemma_missing_findings_exact(refs: Seq<ObjectRef>, objs: Seq<ObjectV>, r: ObjectRef)
    ensures
        (exists|i: int| 0 <= i < missing_findings(refs, objs).len() && #[trigger] missing_findings(refs, objs)[i].3 == Some(r))
            <==> (refs.contains(r) && objects_get(objs, r) is None),
    decreases refs.len(),
{
    let m = missing_findings(refs, objs);
    if refs.len() > 0 {
        let rest = refs.drop_last();
        let mr = missing_findings(rest, objs);
        lemma_missing_findings_exact(rest, objs, r);
        let x = refs.last();
        let extra: Seq<FindingV> = if objects_get(objs, x) is None { seq![missing_finding(x)] } else { seq![] };
        assert(m == mr + extra);
        if exists|i: int| 0 <= i < m.len() && #[trigger] m[i].3 == Some(r) {
            let i = choose|i: int| 0 <= i < m.len() && #[trigger] m[i].3 == Some(r);
            if i < mr.len() {
                assert(mr[i].3 == Some(r));
                let j = choose|j: int| 0 <= j < rest.len() && rest[j] == r;
                assert(refs[j] == r);
            } else {
                assert(x == r);
                assert(refs[refs.len() - 1] == r);
            }
        }
        if refs.contains(r) && objects_get(objs, r) is None {
            let j = choose|j: int| 0 <= j < refs.len() && refs[j] == r;
            if j < refs.len() - 1 {
                assert(rest[j] == r);
                let i = choose|i: int| 0 <= i < mr.len() && #[trigger] mr[i].3 == Some(r);
                assert(m[i] == mr[i]);
            } else {
                assert(m[mr.len() as int].3 == Some(r));
            }
        }
    }
}

} // verus!
