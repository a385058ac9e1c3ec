//! A summary of one indirect object: its kind, keys, references, and for a
//! stream its lengths, filters and how its data decodes.
use vstd::prelude::*;
use crate::diagnostics::{collect_references, object_refs};
use crate::pdf_model::{ByteRange, ObjectRef, PdfObject, PdfValue, ValueView};
use crate::stream_decode::{DecodeIssue, IssueView, decode_stream, issue_view, spec_decode_chain};
use crate::summary::value_summary;
use crate::text::{owned, string_views};
use crate::value_views::{ObjectV, StreamV};

verus! {

broadcast use crate::value_views::group_views;

/// What `inspect_object` reports of a stream.
#[derive(Clone, Debug)]
pub struct StreamInspection {
    pub declared_length: Option<usize>,
    pub actual_length: usize,
    pub raw_range: ByteRange,
    pub filters: Vec<String>,
    pub decoded_length: Option<usize>,
    pub decode_issues: Vec<DecodeIssue>,
}

/// What `inspect_object` reports of an object.
#[derive(Clone, Debug)]
pub struct ObjectInspection {
    pub reference: ObjectRef,
    pub object_type: String,
    pub value_summary: String,
    pub raw_range: ByteRange,
    pub raw_length: usize,
    pub dictionary_keys: Vec<String>,
    pub references: Vec<ObjectRef>,
    pub stream: Option<StreamInspection>,
}

/// The name of a value's kind.
pub open spec fn value_kind_name(v: ValueView) -> Seq<char> {
    match v {
        ValueView::Null => "null"@,
        ValueView::Boolean(_) => "boolean"@,
        ValueView::Number(_) => "number"@,
        ValueView::Name(_) => "name"@,
        ValueView::String(_) => "string"@,
        ValueView::HexString(_) => "hex_string"@,
        ValueView::Array(_) => "array"@,
        ValueView::Dictionary(_) => "dictionary"@,
        ValueView::Reference(_) => "reference"@,
        ValueView::Raw(_) => "raw"@,
    }
}

/// An object's kind: `stream` for a stream, else its value's kind.
pub open spec fn object_type_name(o: ObjectV) -> Seq<char> {
    if o.2 is Some { "stream"@ } else { value_kind_name(o.1) }
}

/// The keys of a dictionary, in its order.
pub open spec fn key_names(d: Seq<(Seq<char>, ValueView)>) -> Seq<Seq<char>> {
    d.map_values(|e: (Seq<char>, ValueView)| e.0)
}

/// The keys of the object's dictionary, none when it has none.
pub open spec fn object_keys(o: ObjectV) -> Seq<Seq<char>> {
    match o.2 {
        Some(st) => key_names(st.0),
        None => match o.1 {
            ValueView::Dictionary(d) => key_names(d),
            _ => seq![],
        },
    }
}

/// The decoded length of a stream, when every filter decodes.
pub open spec fn decoded_length_of(st: StreamV) -> Option<usize> {
    let (d, _steps, issues) = spec_decode_chain(st.5, st.3, None);
    if issues.len() == 0 { Some(d.len() as usize) } else { None }
}

/// `si` reports stream `st`; its data is decoded when `decode` holds.
pub open spec fn stream_inspection_matches(si: StreamInspection, st: StreamV, decode: bool) -> bool {
    &&& si.declared_length == st.1
    &&& si.actual_length == st.2
    &&& si.raw_range == st.4
    &&& string_views(si.filters@) == st.3
    &&& si.decoded_length == if decode { decoded_length_of(st) } else { None }
    &&& si.decode_issues@.map_values(|i: DecodeIssue| issue_view(i))
        == if decode { spec_decode_chain(st.5, st.3, None).2 } else { Seq::<IssueView>::empty() }
}

/// `r` reports object `o`; stream data is decoded when `decode` holds.
pub open spec fn inspection_matches(r: ObjectInspection, o: ObjectV, decode: bool) -> bool {
    &&& r.reference == o.0
    &&& r.object_type@ == object_type_name(o)
    &&& r.value_summary@ == value_summary(o.1)
    &&& r.raw_range == o.3
    &&& r.raw_length == if o.4.len() == 0 {
        if o.3.end >= o.3.start { (o.3.end - o.3.start) as usize } else { 0 }
    } else {
        o.4.len() as usize
    }
    &&& string_views(r.dictionary_keys@) == object_keys(o)
    &&& r.references@ == object_refs(seq![], o)
    &&& match o.2 {
        Some(st) => r.stream matches Some(si) && stream_inspection_matches(si, st, decode),
        None => r.stream is None,
    }
}

fn value_kind(value: &PdfValue) -> (s: String)
    ensures
        s@ == value_kind_name(value@),
{
    match value {
        PdfValue::Null => owned("null"),
        PdfValue::Boolean(_) => owned("boolean"),
        PdfValue::Number(_) => owned("number"),
        PdfValue::Name(_) => owned("name"),
        PdfValue::String(_) => owned("string"),
        PdfValue::HexString(_) => owned("hex_string"),
        PdfValue::Array(_) => owned("array"),
        PdfValue::Dictionary(_) => owned("dictionary"),
        PdfValue::Reference(_) => owned("reference"),
        PdfValue::Raw(_) => owned("raw"),
    }
}

fn dictionary_keys(object: &PdfObject) -> (keys: Vec<String>)
    ensures
        string_views(keys@) == object_keys(object@),
{
    let mut keys: Vec<String> = Vec::new();
    match object.dictionary() {
        Some(d) => {
            let ghost all = key_names(d@);
            let mut i: usize = 0;
            while i < d.len()
                invariant
                    i <= d@.len(),
                    all == key_names(d@),
                    string_views(keys@) == all.take(i as int),
                decreases d@.len() - i,
            {
                let (k, _) = d.entry(i);
                let ghost before = string_views(keys@);
                keys.push(owned(k.as_str()));
                assert(string_views(keys@) =~= before.push(k@));
                assert(all.take(i + 1) =~= all.take(i as int).push(all[i as int]));
                i = i + 1;
            }
            assert(all.take(d@.len() as int) =~= all);
        },
        None => {
            assert(string_views(keys@) =~= Seq::<Seq<char>>::empty());
        },
    }
    keys
}

fn object_references(object: &PdfObject) -> (refs: Vec<ObjectRef>)
    ensures
        refs@ == object_refs(seq![], object@),
{
    let mut refs: Vec<ObjectRef> = Vec::new();
    assert(refs@ =~= Seq::<ObjectRef>::empty());
    collect_references(&object.value, &mut refs);
    match &object.stream {
        Some(stream) => {
            let copy = PdfValue::Dictionary(stream.dictionary.deep_copy());
            collect_references(&copy, &mut refs);
        },
        None => {},
    }
    refs
}

fn inspect_object_with_options(object: &PdfObject, decode_streams: bool) -> (r: ObjectInspection)
    ensures
        inspection_matches(r, object@, decode_streams),
{
    let dictionary_keys = dictionary_keys(object);
    let references = object_references(object);
    let stream = match &object.stream {
        Some(stream) => {
            let (decoded_length, decode_issues) = if decode_streams {
                let decode = decode_stream(stream);
                let length = if decode.has_issues() { None } else { Some(decode.decoded_length) };
                (length, decode.issues)
            } else {
                let none: Vec<DecodeIssue> = Vec::new();
                assert(none@.map_values(|i: DecodeIssue| issue_view(i)) =~= Seq::<IssueView>::empty());
                (None, none)
            };
            Some(StreamInspection {
                declared_length: stream.declared_length,
                actual_length: stream.actual_length,
                raw_range: stream.raw_range,
                filters: crate::stream_decode::copy_strings(stream.filters.as_slice()),
                decoded_length,
                decode_issues,
            })
        },
        None => None,
    };
    let object_type = if object.stream.is_some() { owned("stream") } else { value_kind(&object.value) };
    let raw_length = if object.raw_bytes.len() == 0 { object.raw_range.len() } else { object.raw_bytes.len() };
    ObjectInspection {
        reference: object.reference,
        object_type,
        value_summary: object.value.summary(),
        raw_range: object.raw_range,
        raw_length,
        dictionary_keys,
        references,
        stream,
    }
}

/// Inspects an object, decoding its stream data if it has any.
pub fn inspect_object(object: &PdfObject) -> (r: ObjectInspection)
    ensures
        inspection_matches(r, object@, true),
{
    inspect_object_with_options(object, true)
}

/// Inspects an object without decoding its stream data.
pub fn inspect_object_shallow(object: &PdfObject) -> (r: ObjectInspection)
    ensures
        inspection_matches(r, object@, false),
{
    inspect_object_with_options(object, false)
}

} // verus!
