//! Edits to a parsed document: replacing a scalar value inside an object,
//! replacing a content stream's decoded text, and writing the document out
//! as a fresh file with a classic cross-reference table.
use vstd::prelude::*;
use crate::error::{ErrorV, PdfDebuggerError};
use crate::objects::{find_object, insert_object, object_views, objects_get, objects_put, refs_sorted};
use crate::pdf_model::{
    ObjectRef, ParsedPdf, PdfDictionary, PdfNumber, PdfObject, PdfStream, PdfValue, ValueView, dict_get,
    dict_insert, dict_remove, key_pos, view_usize,
};
use vstd::utf8::encode_utf8;
use crate::pdf_parser::{spec_value, trim_ws};
use crate::stream_decode::{filter_names, spec_encode_chain};
use crate::text::{decimal, owned, push_decimal, push_str, string_views};
use crate::value_views::{ObjectV, StreamV, value_views};

verus! {

broadcast use crate::value_views::group_views;

/// One step of the path to an edited value: a dictionary key or an array index.
#[derive(Debug)]
pub enum PdfEditPathSegment {
    DictionaryKey(String),
    ArrayIndex(usize),
}

/// A path step by its text.
pub enum SegmentV {
    Key(Seq<char>),
    Index(usize),
}

impl View for PdfEditPathSegment {
    type V = SegmentV;

    open spec fn view(&self) -> SegmentV {
        match self {
            PdfEditPathSegment::DictionaryKey(k) => SegmentV::Key(k@),
            PdfEditPathSegment::ArrayIndex(i) => SegmentV::Index(*i),
        }
    }
}

pub open spec fn segment_views(p: Seq<PdfEditPathSegment>) -> Seq<SegmentV> {
    p.map_values(|s: PdfEditPathSegment| s@)
}

/// Replaces the value that `path` leads to inside object `reference`.
#[derive(Debug)]
pub struct PdfObjectEdit {
    pub reference: ObjectRef,
    pub path: Vec<PdfEditPathSegment>,
    pub value: PdfValue,
}

/// Replaces the decoded text of the stream `reference`.
#[derive(Debug)]
pub struct PdfStreamEdit {
    pub reference: ObjectRef,
    pub decoded_text: String,
}

/// What writing the edited document produced.
#[derive(Clone, Copy, Debug)]
pub struct PdfSaveAsResult {
    pub bytes_written: usize,
    pub object_count: usize,
}

/// Only numbers, strings and names can be edited.
pub open spec fn editable(v: ValueView) -> bool {
    v is Number || v is String || v is Name
}

pub open spec fn not_editable_error() -> ErrorV {
    ErrorV::Parse(0, "Only Number, String, and Name values can be edited in Object Inspector."@)
}

fn ensure_editable_object_value(value: &PdfValue) -> (r: Result<(), PdfDebuggerError>)
    ensures
        r is Ok <==> editable(value@),
        r matches Err(e) ==> e@ == not_editable_error(),
{
    match value {
        PdfValue::Number(_) | PdfValue::String(_) | PdfValue::Name(_) => Ok(()),
        _ => Err(PdfDebuggerError::Parse {
            offset: 0,
            message: owned("Only Number, String, and Name values can be edited in Object Inspector."),
        }),
    }
}

/// What parsing an edited value gives: the value the trimmed text starts
/// with, when it is a number, string or name.
pub open spec fn edit_value_result(input: Seq<char>) -> Result<ValueView, ErrorV> {
    match spec_value(vstd::utf8::encode_utf8(trim_ws(input)), 0) {
        None => Err(ErrorV::Parse(0, "Could not parse edited PDF value."@)),
        Some((v, _)) => if editable(v) { Ok(v) } else { Err(not_editable_error()) },
    }
}

/// Parses the text typed for an edited value.
pub fn parse_edit_value(input: &str) -> (r: Result<PdfValue, PdfDebuggerError>)
    ensures
        match edit_value_result(input@) {
            Ok(v) => r matches Ok(x) && x@ == v,
            Err(e) => r matches Err(x) && x@ == e,
        },
{
    let trimmed = crate::pdf_parser::trim_text(input);
    let value = match crate::pdf_parser::parse_pdf_value(trimmed.as_str().as_bytes()) {
        Some(v) => v,
        None => {
            return Err(PdfDebuggerError::Parse { offset: 0, message: owned("Could not parse edited PDF value.") });
        },
    };
    match ensure_editable_object_value(&value) {
        Ok(()) => Ok(value),
        Err(e) => Err(e),
    }
}

/// The value after replacing what `path` leads to with `rep`, or why the
/// edit is refused. Only a number, string or name is replaced, and only by
/// one.
pub open spec fn value_edit(v: ValueView, path: Seq<SegmentV>, rep: ValueView) -> Result<ValueView, ErrorV>
    decreases path.len(),
{
    if path.len() == 0 {
        Ok(rep)
    } else {
        let tail = path.drop_first();
        match path[0] {
            SegmentV::Key(k) => match v {
                ValueView::Dictionary(d) => match key_pos(d, k) {
                    None => Err(ErrorV::Parse(0, "Dictionary key /"@ + k + " was not found."@)),
                    Some(i) => if tail.len() == 0 {
                        if !editable(d[i].1) || !editable(rep) {
                            Err(not_editable_error())
                        } else {
                            Ok(ValueView::Dictionary(d.update(i, (d[i].0, rep))))
                        }
                    } else {
                        match value_edit(d[i].1, tail, rep) {
                            Ok(c) => Ok(ValueView::Dictionary(d.update(i, (d[i].0, c)))),
                            Err(e) => Err(e),
                        }
                    },
                },
                _ => Err(ErrorV::Parse(0, "Cannot edit /"@ + k + "; parent is not a dictionary."@)),
            },
            SegmentV::Index(i) => match v {
                ValueView::Array(items) => if i >= items.len() {
                    Err(ErrorV::Parse(0, "Array index ["@ + decimal(i as nat) + "] is out of range."@))
                } else if tail.len() == 0 {
                    if !editable(items[i as int]) || !editable(rep) {
                        Err(not_editable_error())
                    } else {
                        Ok(ValueView::Array(items.update(i as int, rep)))
                    }
                } else {
                    match value_edit(items[i as int], tail, rep) {
                        Ok(c) => Ok(ValueView::Array(items.update(i as int, c))),
                        Err(e) => Err(e),
                    }
                },
                _ => Err(ErrorV::Parse(0, "Cannot edit ["@ + decimal(i as nat) + "]; parent is not an array."@)),
            },
        }
    }
}

fn parse_error(message: String) -> (e: PdfDebuggerError)
    ensures
        e@ == ErrorV::Parse(0, message@),
{
    PdfDebuggerError::Parse { offset: 0, message }
}

fn apply_value_edit(
    current: &mut PdfValue,
    path: &Vec<PdfEditPathSegment>,
    start: usize,
    replacement: PdfValue,
) -> (r: Result<(), PdfDebuggerError>)
    requires
        start <= path@.len(),
    ensures
        match value_edit(old(current)@, segment_views(path@).skip(start as int), replacement@) {
            Ok(v) => r is Ok && final(current)@ == v,
            Err(e) => r matches Err(x) && x@ == e && final(current)@ == old(current)@,
        },
    decreases path@.len() - start,
{
    let ghost sv = segment_views(path@).skip(start as int);
    if start == path.len() {
        assert(sv.len() == 0);
        *current = replacement;
        return Ok(());
    }
    assert(sv[0] == path@[start as int]@);
    assert(sv.drop_first() =~= segment_views(path@).skip(start + 1));
    let last = start + 1 == path.len();
    match &path[start] {
        PdfEditPathSegment::DictionaryKey(key) => {
            match current {
                PdfValue::Dictionary(d) => {
                    let ghost e = d@;
                    let idx = match d.key_index(key.as_str()) {
                        Some(i) => i,
                        None => {
                            let mut m = owned("Dictionary key /");
                            push_str(&mut m, key.as_str());
                            push_str(&mut m, " was not found.");
                            return Err(parse_error(m));
                        },
                    };
                    let (k, mut child) = d.entries.remove(idx);
                    assert(k@ == e[idx as int].0 && child@ == e[idx as int].1) by {
                        crate::value_views::lemma_entry_views(old(current)->Dictionary_0.entries@);
                    }
                    let result = if last {
                        match ensure_editable_object_value(&child) {
                            Err(x) => Err(x),
                            Ok(()) => match ensure_editable_object_value(&replacement) {
                                Err(x) => Err(x),
                                Ok(()) => {
                                    child = replacement;
                                    Ok(())
                                },
                            },
                        }
                    } else {
                        apply_value_edit(&mut child, path, start + 1, replacement)
                    };
                    d.entries.insert(idx, (k, child));
                    proof {
                        crate::value_views::lemma_entry_views(d.entries@);
                    }
                    assert(d@ =~= e.update(idx as int, (e[idx as int].0, child@)));
                    assert(e.update(idx as int, e[idx as int]) =~= e);
                    result
                },
                _ => {
                    let mut m = owned("Cannot edit /");
                    push_str(&mut m, key.as_str());
                    push_str(&mut m, "; parent is not a dictionary.");
                    Err(parse_error(m))
                },
            }
        },
        PdfEditPathSegment::ArrayIndex(index) => {
            let index = *index;
            match current {
                PdfValue::Array(values) => {
                    let ghost items = value_views(values@);
                    if index >= values.len() {
                        let mut m = owned("Array index [");
                        push_decimal(&mut m, index);
                        push_str(&mut m, "] is out of range.");
                        return Err(parse_error(m));
                    }
                    let mut child = values.remove(index);
                    assert(child@ == items[index as int]);
                    let result = if last {
                        match ensure_editable_object_value(&child) {
                            Err(x) => Err(x),
                            Ok(()) => match ensure_editable_object_value(&replacement) {
                                Err(x) => Err(x),
                                Ok(()) => {
                                    child = replacement;
                                    Ok(())
                                },
                            },
                        }
                    } else {
                        apply_value_edit(&mut child, path, start + 1, replacement)
                    };
                    values.insert(index, child);
                    assert(value_views(values@) =~= items.update(index as int, child@));
                    assert(items.update(index as int, items[index as int]) =~= items);
                    result
                },
                _ => {
                    let mut m = owned("Cannot edit [");
                    push_decimal(&mut m, index);
                    push_str(&mut m, "]; parent is not an array.");
                    Err(parse_error(m))
                },
            }
        },
    }
}


/// A stream's dictionary replaced by `d`, with its declared length and
/// filters read again from `d`.
pub open spec fn with_stream_dictionary(st: StreamV, d: Seq<(Seq<char>, ValueView)>) -> StreamV {
    (d, match dict_get(d, "Length"@) { Some(v) => view_usize(v), None => None }, st.2, filter_names(d), st.4, st.5)
}

/// A stream object whose value is a dictionary takes it as its stream dictionary.
pub open spec fn synced(o: ObjectV) -> ObjectV {
    match o.2 {
        Some(st) => match o.1 {
            ValueView::Dictionary(d) => (o.0, o.1, Some(with_stream_dictionary(st, d)), o.3, o.4),
            _ => o,
        },
        None => o,
    }
}

/// A stream object's value set to its stream dictionary, where edits start.
pub open spec fn edit_root(o: ObjectV) -> ObjectV {
    match o.2 {
        Some(st) => (o.0, ValueView::Dictionary(st.0), o.2, o.3, o.4),
        None => o,
    }
}

/// The object after an edit along `path`, and the error when it is refused.
/// An edit inside a stream object starts from its stream dictionary, even
/// when it is refused.
pub open spec fn object_after_edit(o: ObjectV, path: Seq<SegmentV>, rep: ValueView) -> (ObjectV, Option<ErrorV>) {
    if path.len() == 0 {
        if !editable(o.1) {
            (o, Some(not_editable_error()))
        } else {
            (synced((o.0, rep, o.2, o.3, o.4)), None)
        }
    } else {
        let root = edit_root(o);
        match value_edit(root.1, path, rep) {
            Ok(v) => (synced((root.0, v, root.2, root.3, root.4)), None),
            Err(e) => (root, Some(e)),
        }
    }
}

/// An object edit by reference, path and new value.
pub type ObjectEditV = (ObjectRef, Seq<SegmentV>, ValueView);

impl View for PdfObjectEdit {
    type V = ObjectEditV;

    open spec fn view(&self) -> ObjectEditV {
        (self.reference, segment_views(self.path@), self.value@)
    }
}

/// The objects after an edit, and the error when it is refused.
pub open spec fn document_after_edit(objs: Seq<ObjectV>, edit: ObjectEditV) -> (Seq<ObjectV>, Option<ErrorV>) {
    if !editable(edit.2) {
        (objs, Some(not_editable_error()))
    } else {
        match objects_get(objs, edit.0) {
            None => (objs, Some(ErrorV::ObjectNotFound(edit.0))),
            Some(o) => {
                let (o2, err) = object_after_edit(o, edit.1, edit.2);
                (objects_put(objs, o2), err)
            },
        }
    }
}

fn copy_bytes(b: &Vec<u8>) -> (r: Vec<u8>)
    ensures
        r@ == b@,
{
    let r = crate::text::copy_range(b.as_slice(), 0, b.len());
    assert(b@.subrange(0, b@.len() as int) =~= b@);
    r
}

fn copy_stream(st: &PdfStream) -> (r: PdfStream)
    ensures
        r@ == st@,
{
    PdfStream {
        dictionary: st.dictionary.deep_copy(),
        declared_length: st.declared_length,
        actual_length: st.actual_length,
        filters: crate::stream_decode::copy_strings(st.filters.as_slice()),
        raw_range: st.raw_range,
        raw_bytes: copy_bytes(&st.raw_bytes),
    }
}

fn copy_object(o: &PdfObject) -> (r: PdfObject)
    ensures
        r@ == o@,
{
    PdfObject {
        reference: o.reference,
        value: o.value.deep_copy(),
        stream: match &o.stream {
            Some(st) => Some(copy_stream(st)),
            None => None,
        },
        raw_range: o.raw_range,
        raw_bytes: copy_bytes(&o.raw_bytes),
    }
}

fn sync_stream_dictionary_from_value(object: &mut PdfObject)
    ensures
        final(object)@ == synced(old(object)@),
{
    let dictionary = match &object.value {
        PdfValue::Dictionary(d) => d.deep_copy(),
        _ => return,
    };
    match &mut object.stream {
        Some(stream) => {
            stream.declared_length = match dictionary.get("Length") {
                Some(v) => v.as_usize(),
                None => None,
            };
            stream.filters = crate::stream_decode::filter_names_from_dictionary(&dictionary);
            stream.dictionary = dictionary;
        },
        None => {},
    }
}

fn edit_object(object: &mut PdfObject, path: &Vec<PdfEditPathSegment>, replacement: PdfValue) -> (r: Result<(), PdfDebuggerError>)
    ensures
        ({
            let (o2, err) = object_after_edit(old(object)@, segment_views(path@), replacement@);
            &&& final(object)@ == o2
            &&& match err {
                Some(e) => r matches Err(x) && x@ == e,
                None => r is Ok,
            }
        }),
{
    if path.len() == 0 {
        match ensure_editable_object_value(&object.value) {
            Err(e) => return Err(e),
            Ok(()) => {},
        }
        object.value = replacement;
        sync_stream_dictionary_from_value(object);
        return Ok(());
    }
    match &object.stream {
        Some(stream) => {
            object.value = PdfValue::Dictionary(stream.dictionary.deep_copy());
        },
        None => {},
    }
    assert(segment_views(path@).skip(0) =~= segment_views(path@));
    let result = apply_value_edit(&mut object.value, path, 0, replacement);
    if result.is_ok() {
        sync_stream_dictionary_from_value(object);
    }
    result
}

/// Applies an edit to one object of the document.
pub fn apply_object_edit(pdf: &mut ParsedPdf, edit: &PdfObjectEdit) -> (r: Result<(), PdfDebuggerError>)
    requires
        old(pdf).wf(),
    ensures
        final(pdf).wf(),
        final(pdf).metadata == old(pdf).metadata,
        final(pdf).trailer == old(pdf).trailer,
        final(pdf).xref_entries == old(pdf).xref_entries,
        final(pdf).warnings == old(pdf).warnings,
        ({
            let (objs, err) = document_after_edit(object_views(old(pdf).objects@), edit@);
            &&& object_views(final(pdf).objects@) == objs
            &&& match err {
                Some(e) => r matches Err(x) && x@ == e,
                None => r is Ok,
            }
        }),
{
    match ensure_editable_object_value(&edit.value) {
        Err(e) => return Err(e),
        Ok(()) => {},
    }
    let index = match find_object(&pdf.objects, edit.reference) {
        Some(i) => i,
        None => return Err(PdfDebuggerError::ObjectNotFound { reference: edit.reference }),
    };
    let mut object = copy_object(&pdf.objects[index]);
    let result = edit_object(&mut object, &edit.path, edit.value.deep_copy());
    insert_object(&mut pdf.objects, object);
    result
}

/// A stream object after its decoded text is replaced: the text is encoded
/// through the stream's filters, and `/Length` and both lengths follow the
/// new data.
pub open spec fn stream_after_edit(o: ObjectV, text: Seq<char>) -> Result<ObjectV, ErrorV> {
    match o.2 {
        None => Err(ErrorV::StreamNotFound(o.0)),
        Some(st) => match spec_encode_chain(vstd::utf8::encode_utf8(text), st.3) {
            Err(m) => Err(ErrorV::StreamDecode(o.0, m)),
            Ok(enc) => {
                let d = dict_insert(st.0, "Length"@, ValueView::Number(decimal(enc.len())));
                Ok((o.0, ValueView::Dictionary(d), Some((d, Some(enc.len() as usize), enc.len() as usize, st.3, st.4, enc)), o.3, o.4))
            },
        },
    }
}

/// The objects after a stream edit, or why it is refused.
pub open spec fn document_after_stream_edit(objs: Seq<ObjectV>, reference: ObjectRef, text: Seq<char>) -> Result<Seq<ObjectV>, ErrorV> {
    match objects_get(objs, reference) {
        None => Err(ErrorV::ObjectNotFound(reference)),
        Some(o) => match stream_after_edit(o, text) {
            Ok(o2) => Ok(objects_put(objs, o2)),
            Err(e) => Err(e),
        },
    }
}

/// Replaces the decoded text of a stream object.
pub fn apply_stream_edit(pdf: &mut ParsedPdf, edit: &PdfStreamEdit) -> (r: Result<(), PdfDebuggerError>)
    requires
        old(pdf).wf(),
    ensures
        final(pdf).wf(),
        final(pdf).metadata == old(pdf).metadata,
        final(pdf).trailer == old(pdf).trailer,
        final(pdf).xref_entries == old(pdf).xref_entries,
        final(pdf).warnings == old(pdf).warnings,
        match document_after_stream_edit(object_views(old(pdf).objects@), edit.reference, edit.decoded_text@) {
            Ok(objs) => r is Ok && object_views(final(pdf).objects@) == objs,
            Err(e) => r matches Err(x) && x@ == e && final(pdf).objects@ == old(pdf).objects@,
        },
{
    let index = match find_object(&pdf.objects, edit.reference) {
        Some(i) => i,
        None => return Err(PdfDebuggerError::ObjectNotFound { reference: edit.reference }),
    };
    let encoded = match &pdf.objects[index].stream {
        None => return Err(PdfDebuggerError::StreamNotFound { reference: edit.reference }),
        Some(stream) => match crate::stream_decode::encode_filter_chain(edit.decoded_text.as_str().as_bytes(), stream.filters.as_slice()) {
            Ok(e) => e,
            Err(message) => return Err(PdfDebuggerError::StreamDecode { reference: edit.reference, message }),
        },
    };
    let mut object = copy_object(&pdf.objects[index]);
    let length = encoded.len();
    match &mut object.stream {
        Some(stream) => {
            stream.raw_bytes = encoded;
            stream.actual_length = length;
            stream.declared_length = Some(length);
            stream.dictionary.insert(owned("Length"), PdfValue::Number(PdfNumber { text: crate::text::decimal_string(length) }));
            object.value = PdfValue::Dictionary(stream.dictionary.deep_copy());
        },
        None => {},
    }
    insert_object(&mut pdf.objects, object);
    Ok(())
}


// ---------------------------------------------------------------------------
// Writing a document
// ---------------------------------------------------------------------------

/// A character of a name as written: whitespace and delimiters as `#XX`.
pub open spec fn name_char_text(c: char) -> Seq<char> {
    if c == ' ' || c == '\t' || c == '\n' || c == '\x0C' || c == '\r' || c == '(' || c == ')' || c == '<'
        || c == '>' || c == '[' || c == ']' || c == '{' || c == '}' || c == '/' || c == '%' {
        seq!['#'] + crate::text::hex2_upper(c as u8)
    } else {
        seq![c]
    }
}

pub open spec fn escaped_name(s: Seq<char>) -> Seq<char>
    decreases s.len(),
{
    if s.len() == 0 { seq![] } else { escaped_name(s.drop_last()) + name_char_text(s.last()) }
}

/// A character of a literal string as written.
pub open spec fn literal_char_text(c: char) -> Seq<char> {
    if c == '(' {
        seq!['\\', '(']
    } else if c == ')' {
        seq!['\\', ')']
    } else if c == '\\' {
        seq!['\\', '\\']
    } else if c == '\n' {
        seq!['\\', 'n']
    } else if c == '\r' {
        seq!['\\', 'r']
    } else if c == '\t' {
        seq!['\\', 't']
    } else {
        seq![c]
    }
}

pub open spec fn escaped_literal(s: Seq<char>) -> Seq<char>
    decreases s.len(),
{
    if s.len() == 0 { seq![] } else { escaped_literal(s.drop_last()) + literal_char_text(s.last()) }
}

/// A value as PDF syntax.
pub open spec fn value_text(v: ValueView) -> Seq<char>
    decreases v,
{
    match v {
        ValueView::Null => "null"@,
        ValueView::Boolean(b) => if b { "true"@ } else { "false"@ },
        ValueView::Number(t) => crate::summary::number_summary(t),
        ValueView::Name(n) => seq!['/'] + escaped_name(n),
        ValueView::String(t) => seq!['('] + escaped_literal(t) + seq![')'],
        ValueView::HexString(h) => seq!['<'] + h + seq!['>'],
        ValueView::Array(items) => seq!['['] + items_text(items) + seq![']'],
        ValueView::Dictionary(d) => "<<"@ + entries_text(d) + " >>"@,
        ValueView::Reference(r) => r.spec_text(),
        ValueView::Raw(t) => t,
    }
}

/// Array items separated by single spaces.
pub open spec fn items_text(items: Seq<ValueView>) -> Seq<char>
    decreases items,
{
    if items.len() == 0 {
        seq![]
    } else if items.len() == 1 {
        value_text(items[0])
    } else {
        items_text(items.drop_last()) + seq![' '] + value_text(items.last())
    }
}

/// Dictionary entries, each as a space, the key as a name, a space and the value.
pub open spec fn entries_text(d: Seq<(Seq<char>, ValueView)>) -> Seq<char>
    decreases d,
{
    if d.len() == 0 {
        seq![]
    } else {
        proof {
            assert(decreases_to!(d => d[d.len() - 1]));
        }
        entries_text(d.drop_last()) + " /"@ + escaped_name(d.last().0) + seq![' '] + value_text(d.last().1)
    }
}

fn push_escaped_name(out: &mut String, name: &str)
    ensures
        final(out)@ == old(out)@ + escaped_name(name@),
{
    broadcast use vstd::string::group_string_axioms;
    let ghost start = out@;
    for c in it: name.chars()
        invariant
            it.seq() == name@,
            out@ == start + escaped_name(name@.take(it.index() as int)),
    {
        let ghost i = it.index() as int;
        assert(name@.take(i + 1).drop_last() =~= name@.take(i));
        assert(name@.take(i + 1).last() == c);
        let escape = c == ' ' || c == '\t' || c == '\n' || c == '\x0C' || c == '\r' || c == '(' || c == ')'
            || c == '<' || c == '>' || c == '[' || c == ']' || c == '{' || c == '}' || c == '/' || c == '%';
        if escape {
            crate::text::push_char(out, '#');
            crate::text::push_hex2_upper(out, c as u8);
        } else {
            crate::text::push_char(out, c);
        }
        assert(out@ =~= start + escaped_name(name@.take(i + 1)));
    }
    assert(name@.take(name@.len() as int) =~= name@);
}

fn push_escaped_literal(out: &mut String, text: &str)
    ensures
        final(out)@ == old(out)@ + escaped_literal(text@),
{
    broadcast use vstd::string::group_string_axioms;
    let ghost start = out@;
    for c in it: text.chars()
        invariant
            it.seq() == text@,
            out@ == start + escaped_literal(text@.take(it.index() as int)),
    {
        let ghost i = it.index() as int;
        assert(text@.take(i + 1).drop_last() =~= text@.take(i));
        assert(text@.take(i + 1).last() == c);
        if c == '(' {
            push_str(out, "\\(");
        } else if c == ')' {
            push_str(out, "\\)");
        } else if c == '\\' {
            push_str(out, "\\\\");
        } else if c == '\n' {
            push_str(out, "\\n");
        } else if c == '\r' {
            push_str(out, "\\r");
        } else if c == '\t' {
            push_str(out, "\\t");
        } else {
            crate::text::push_char(out, c);
        }
        proof {
            reveal_strlit("\\(");
            reveal_strlit("\\)");
            reveal_strlit("\\\\");
            reveal_strlit("\\n");
            reveal_strlit("\\r");
            reveal_strlit("\\t");
        }
        assert(out@ =~= start + escaped_literal(text@.take(i + 1)));
    }
    assert(text@.take(text@.len() as int) =~= text@);
}

fn write_value_text(out: &mut String, value: &PdfValue)
    ensures
        final(out)@ == old(out)@ + value_text(value@),
    decreases value,
{
    let ghost start = out@;
    match value {
        PdfValue::Null => push_str(out, "null"),
        PdfValue::Boolean(b) => if *b { push_str(out, "true") } else { push_str(out, "false") },
        PdfValue::Number(n) => {
            let t = crate::summary::summarize_number(n.text.as_str());
            push_str(out, t.as_str());
        },
        PdfValue::Name(n) => {
            crate::text::push_char(out, '/');
            push_escaped_name(out, n.as_str());
            assert(out@ =~= start + value_text(value@));
        },
        PdfValue::String(t) => {
            crate::text::push_char(out, '(');
            push_escaped_literal(out, t.as_str());
            crate::text::push_char(out, ')');
            assert(out@ =~= start + value_text(value@));
        },
        PdfValue::HexString(h) => {
            crate::text::push_char(out, '<');
            push_str(out, h.as_str());
            crate::text::push_char(out, '>');
            assert(out@ =~= start + value_text(value@));
        },
        PdfValue::Array(values) => {
            let ghost all = value_views(values@);
            crate::text::push_char(out, '[');
            let mut i: usize = 0;
            assert(all.take(0) =~= Seq::<ValueView>::empty());
            while i < values.len()
                invariant
                    *value == PdfValue::Array(*values),
                    i <= values@.len(),
                    all == value_views(values@),
                    all.len() == values@.len(),
                    out@ == start + seq!['['] + items_text(all.take(i as int)),
                decreases values@.len() - i,
            {
                proof {
                    assert(decreases_to!(*value => value->Array_0));
                    assert(decreases_to!(*values => values@));
                    assert(decreases_to!(values@ => values@[i as int]));
                }
                assert(all.take(i + 1).drop_last() =~= all.take(i as int));
                assert(all.take(i + 1).last() == values@[i as int]@);
                if i > 0 {
                    crate::text::push_char(out, ' ');
                }
                write_value_text(out, &values[i]);
                assert(out@ =~= start + seq!['['] + items_text(all.take(i + 1)));
                i = i + 1;
            }
            assert(all.take(values@.len() as int) =~= all);
            crate::text::push_char(out, ']');
            assert(out@ =~= start + value_text(value@));
        },
        PdfValue::Dictionary(d) => {
            let ghost all = d@;
            push_str(out, "<<");
            let mut i: usize = 0;
            assert(all.take(0) =~= Seq::<(Seq<char>, ValueView)>::empty());
            while i < d.entries.len()
                invariant
                    *value == PdfValue::Dictionary(*d),
                    i <= d.entries@.len(),
                    all == d@,
                    all.len() == d.entries@.len(),
                    out@ == start + "<<"@ + entries_text(all.take(i as int)),
                decreases d.entries@.len() - i,
            {
                proof {
                    assert(decreases_to!(*value => value->Dictionary_0));
                    assert(decreases_to!(*d => d.entries));
                    assert(decreases_to!(d.entries => d.entries@));
                    assert(decreases_to!(d.entries@ => d.entries@[i as int]));
                    assert(decreases_to!(d.entries@[i as int] => d.entries@[i as int].1));
                    crate::value_views::lemma_entry_views(d.entries@);
                }
                assert(all.take(i + 1).drop_last() =~= all.take(i as int));
                assert(all.take(i + 1).last() == (d.entries@[i as int].0@, d.entries@[i as int].1@));
                push_str(out, " /");
                push_escaped_name(out, d.entries[i].0.as_str());
                crate::text::push_char(out, ' ');
                write_value_text(out, &d.entries[i].1);
                assert(out@ =~= start + "<<"@ + entries_text(all.take(i + 1)));
                i = i + 1;
            }
            assert(all.take(d.entries@.len() as int) =~= all);
            push_str(out, " >>");
            assert(out@ =~= start + value_text(value@));
        },
        PdfValue::Reference(r) => {
            let t = r.to_text();
            push_str(out, t.as_str());
        },
        PdfValue::Raw(t) => push_str(out, t.as_str()),
    }
}


/// `%PDF-1.7`, a line feed, then a comment of four high bytes marking the
/// file as binary.
pub open spec fn header_bytes() -> Seq<u8> {
    seq![0x25u8, 0x50u8, 0x44u8, 0x46u8, 0x2du8, 0x31u8, 0x2eu8, 0x37u8, 0x0au8, 0x25u8, 0xe2u8, 0xe3u8, 0xcfu8, 0xd3u8, 0x0au8]
}

/// A stream's dictionary as written: a missing `/Length` is filled in
/// with the data length.
pub open spec fn written_stream_dictionary(st: StreamV) -> Seq<(Seq<char>, ValueView)> {
    if dict_get(st.0, "Length"@) is Some {
        st.0
    } else {
        dict_insert(st.0, "Length"@, ValueView::Number(decimal(st.5.len())))
    }
}

pub open spec fn object_head_text(r: ObjectRef) -> Seq<char> {
    decimal(r.object as nat) + seq![' '] + decimal(r.generation as nat) + " obj\n"@
}

/// An indirect object as written.
pub open spec fn object_bytes(o: ObjectV) -> Seq<u8> {
    match o.2 {
        Some(st) => encode_utf8(object_head_text(o.0) + value_text(ValueView::Dictionary(written_stream_dictionary(st))) + "\nstream\n"@)
            + st.5 + encode_utf8("\nendstream\nendobj\n"@),
        None => encode_utf8(object_head_text(o.0) + value_text(o.1) + "\nendobj\n"@),
    }
}

/// The header and objects as written, and where each object starts.
pub open spec fn objects_section(objs: Seq<ObjectV>) -> (Seq<u8>, Seq<int>)
    decreases objs.len(),
{
    if objs.len() == 0 {
        (header_bytes(), seq![])
    } else {
        let (b, offsets) = objects_section(objs.drop_last());
        (b + object_bytes(objs.last()), offsets.push(b.len() as int))
    }
}

/// Decimal digits padded with zeros to ten.
pub open spec fn pad10(t: Seq<char>) -> Seq<char> {
    if t.len() < 10 { Seq::new((10 - t.len()) as nat, |i: int| '0') + t } else { t }
}

pub open spec fn xref_lines(offsets: Seq<int>) -> Seq<char>
    decreases offsets.len(),
{
    if offsets.len() == 0 {
        seq![]
    } else {
        xref_lines(offsets.drop_last()) + pad10(decimal(offsets.last() as nat)) + " 00000 n \n"@
    }
}

/// The trailer as written: the document's trailer dictionary (or an empty
/// one) with `/Size` set and `/Prev` and `/XRefStm` removed.
pub open spec fn written_trailer(trailer: Option<ValueView>, size: nat) -> Seq<(Seq<char>, ValueView)> {
    let base = match trailer {
        Some(ValueView::Dictionary(d)) => d,
        _ => seq![],
    };
    dict_remove(dict_remove(dict_insert(base, "Size"@, ValueView::Number(decimal(size))), "Prev"@), "XRefStm"@)
}

/// A document written out: header, objects in reference order, a classic
/// cross-reference table over them, the trailer and `startxref`.
pub open spec fn serialized(pdf: ParsedPdf) -> Seq<u8> {
    let (body, offsets) = objects_section(object_views(pdf.objects@));
    let size = offsets.len() + 1;
    let trailer = match pdf.trailer { Some(t) => Some(t@), None => None };
    body + encode_utf8("xref\n0 "@ + decimal(size) + "\n0000000000 65535 f \n"@ + xref_lines(offsets) + "trailer\n"@
        + value_text(ValueView::Dictionary(written_trailer(trailer, size))) + "\nstartxref\n"@ + decimal(body.len()) + "\n%%EOF\n"@)
}

fn append_text(bytes: &mut Vec<u8>, text: &str)
    ensures
        final(bytes)@ == old(bytes)@ + encode_utf8(text@),
{
    let b = text.as_bytes();
    let ghost start = bytes@;
    let mut i: usize = 0;
    while i < b.len()
        invariant
            i <= b@.len(),
            b@ == encode_utf8(text@),
            bytes@ == start + b@.take(i as int),
        decreases b@.len() - i,
    {
        bytes.push(b[i]);
        assert(b@.take(i + 1) =~= b@.take(i as int).push(b@[i as int]));
        i = i + 1;
    }
    assert(b@.take(b@.len() as int) =~= b@);
}

fn append_bytes(bytes: &mut Vec<u8>, more: &Vec<u8>)
    ensures
        final(bytes)@ == old(bytes)@ + more@,
{
    let ghost start = bytes@;
    let mut i: usize = 0;
    while i < more.len()
        invariant
            i <= more@.len(),
            bytes@ == start + more@.take(i as int),
        decreases more@.len() - i,
    {
        bytes.push(more[i]);
        assert(more@.take(i + 1) =~= more@.take(i as int).push(more@[i as int]));
        i = i + 1;
    }
    assert(more@.take(more@.len() as int) =~= more@);
}

fn push_padded10(out: &mut String, n: usize)
    ensures
        final(out)@ == old(out)@ + pad10(decimal(n as nat)),
{
    let d = crate::text::decimal_string(n);
    let len = d.as_str().unicode_len();
    let ghost start = out@;
    if len < 10 {
        let mut k: usize = len;
        while k < 10
            invariant
                len <= k <= 10,
                len == d@.len(),
                out@ == start + Seq::new((k - len) as nat, |i: int| '0'),
            decreases 10 - k,
        {
            crate::text::push_char(out, '0');
            assert(out@ =~= start + Seq::new((k + 1 - len) as nat, |i: int| '0'));
            k = k + 1;
        }
    }
    push_str(out, d.as_str());
    assert(out@ =~= start + pad10(decimal(n as nat)));
}

fn object_head(r: ObjectRef) -> (s: String)
    ensures
        s@ == object_head_text(r),
{
    let mut s = String::new();
    push_decimal(&mut s, r.object as usize);
    crate::text::push_char(&mut s, ' ');
    push_decimal(&mut s, r.generation as usize);
    push_str(&mut s, " obj\n");
    assert(s@ =~= object_head_text(r));
    s
}

fn write_object(bytes: &mut Vec<u8>, object: &PdfObject)
    ensures
        final(bytes)@ == old(bytes)@ + object_bytes(object@),
{
    let mut text = object_head(object.reference);
    match &object.stream {
        Some(stream) => {
            let mut dictionary = stream.dictionary.deep_copy();
            if !dictionary.contains_key("Length") {
                let n = stream.raw_bytes.len();
                dictionary.insert(owned("Length"), PdfValue::Number(PdfNumber { text: crate::text::decimal_string(n) }));
            }
            write_value_text(&mut text, &PdfValue::Dictionary(dictionary));
            push_str(&mut text, "\nstream\n");
            append_text(bytes, text.as_str());
            append_bytes(bytes, &stream.raw_bytes);
            append_text(bytes, "\nendstream\nendobj\n");
        },
        None => {
            write_value_text(&mut text, &object.value);
            push_str(&mut text, "\nendobj\n");
            append_text(bytes, text.as_str());
        },
    }
}

fn writable_trailer(pdf: &ParsedPdf, size: usize) -> (t: PdfValue)
    ensures
        t@ == ValueView::Dictionary(written_trailer(match pdf.trailer { Some(t) => Some(t@), None => None }, size as nat)),
{
    let mut trailer = match &pdf.trailer {
        Some(t) => match t.as_dictionary() {
            Some(d) => d.deep_copy(),
            None => PdfDictionary::new(),
        },
        None => PdfDictionary::new(),
    };
    trailer.insert(owned("Size"), PdfValue::Number(PdfNumber { text: crate::text::decimal_string(size) }));
    trailer.remove("Prev");
    trailer.remove("XRefStm");
    PdfValue::Dictionary(trailer)
}

/// Writes the document out as a new file's bytes.
pub fn serialize_pdf(pdf: &ParsedPdf) -> (r: Result<Vec<u8>, PdfDebuggerError>)
    requires
        pdf.objects@.len() < usize::MAX,
    ensures
        r matches Ok(b) && b@ == serialized(*pdf),
{
    let ghost objs = object_views(pdf.objects@);
    let mut bytes: Vec<u8> = vec![0x25u8, 0x50u8, 0x44u8, 0x46u8, 0x2du8, 0x31u8, 0x2eu8, 0x37u8, 0x0au8, 0x25u8, 0xe2u8, 0xe3u8, 0xcfu8, 0xd3u8, 0x0au8];
    assert(bytes@ =~= header_bytes());
    let mut offsets: Vec<usize> = Vec::new();
    let mut k: usize = 0;
    assert(objs.take(0) =~= Seq::<ObjectV>::empty());
    while k < pdf.objects.len()
        invariant
            k <= pdf.objects@.len(),
            objs == object_views(pdf.objects@),
            offsets@.len() == k,
            objects_section(objs.take(k as int)).0 == bytes@,
            objects_section(objs.take(k as int)).1 == offsets@.map_values(|o: usize| o as int),
        decreases pdf.objects@.len() - k,
    {
        assert(objs.take(k + 1).drop_last() =~= objs.take(k as int));
        assert(objs.take(k + 1).last() == pdf.objects@[k as int]@);
        let ghost before = offsets@;
        offsets.push(bytes.len());
        assert(offsets@.map_values(|o: usize| o as int) =~= before.map_values(|o: usize| o as int).push(bytes@.len() as int));
        write_object(&mut bytes, &pdf.objects[k]);
        k = k + 1;
    }
    assert(objs.take(pdf.objects@.len() as int) =~= objs);
    let xref_offset = bytes.len();
    let size = offsets.len() + 1;
    let mut text = owned("xref\n0 ");
    push_decimal(&mut text, size);
    push_str(&mut text, "\n0000000000 65535 f \n");
    let ghost offs = offsets@.map_values(|o: usize| o as int);
    let ghost before_lines = text@;
    let mut i: usize = 0;
    assert(offs.take(0) =~= Seq::<int>::empty());
    while i < offsets.len()
        invariant
            i <= offsets@.len(),
            offs == offsets@.map_values(|o: usize| o as int),
            text@ == before_lines + xref_lines(offs.take(i as int)),
        decreases offsets@.len() - i,
    {
        assert(offs.take(i + 1).drop_last() =~= offs.take(i as int));
        assert(offs.take(i + 1).last() == offsets@[i as int] as int);
        push_padded10(&mut text, offsets[i]);
        push_str(&mut text, " 00000 n \n");
        assert(text@ =~= before_lines + xref_lines(offs.take(i + 1)));
        i = i + 1;
    }
    assert(offs.take(offsets@.len() as int) =~= offs);
    push_str(&mut text, "trailer\n");
    let trailer = writable_trailer(pdf, size);
    write_value_text(&mut text, &trailer);
    push_str(&mut text, "\nstartxref\n");
    push_decimal(&mut text, xref_offset);
    push_str(&mut text, "\n%%EOF\n");
    append_text(&mut bytes, text.as_str());
    assert(bytes@ =~= serialized(*pdf));
    Ok(bytes)
}


// ---------------------------------------------------------------------------
// Reading back an edit
// ---------------------------------------------------------------------------

/// The value that `path` leads to, if it leads anywhere.
pub open spec fn value_at(v: ValueView, path: Seq<SegmentV>) -> Option<ValueView>
    decreases path.len(),
{
    if path.len() == 0 {
        Some(v)
    } else {
        match path[0] {
            SegmentV::Key(k) => match v {
                ValueView::Dictionary(d) => match dict_get(d, k) {
                    Some(c) => value_at(c, path.drop_first()),
                    None => None,
                },
                _ => None,
            },
            SegmentV::Index(i) => match v {
                ValueView::Array(items) => if i < items.len() { value_at(items[i as int], path.drop_first()) } else { None },
                _ => None,
            },
        }
    }
}

proof fn lemma_key_pos_update(d: Seq<(Seq<char>, ValueView)>, k: Seq<char>, c: ValueView)
    requires
        key_pos(d, k) is Some,
    ensures
        0 <= key_pos(d, k)->0 < d.len(),
        d[key_pos(d, k)->0].0 == k,
        dict_get(d, k) == Some(d[key_pos(d, k)->0].1),
        dict_get(d.update(key_pos(d, k)->0, (k, c)), k) == Some(c),
    decreases d.len(),
{
    if d[0].0 != k {
        let t = d.drop_first();
        lemma_key_pos_update(t, k, c);
        let i = key_pos(t, k)->0;
        assert(d.update(i + 1, (k, c)).drop_first() =~= t.update(i, (k, c)));
    }
}

/// An edit that is made reads back: afterwards the path leads to the new value.
pub proof fn lemma_edit_reads_back(v: ValueView, path: Seq<SegmentV>, rep: ValueView)
    requires
        value_edit(v, path, rep) is Ok,
    ensures
        value_at(value_edit(v, path, rep)->Ok_0, path) == Some(rep),
    decreases path.len(),
{
    if path.len() > 0 {
        let tail = path.drop_first();
        match path[0] {
            SegmentV::Key(k) => {
                let d = v->Dictionary_0;
                lemma_key_pos_update(d, k, rep);
                let i = key_pos(d, k)->0;
                if tail.len() > 0 {
                    lemma_edit_reads_back(d[i].1, tail, rep);
                    lemma_key_pos_update(d, k, value_edit(d[i].1, tail, rep)->Ok_0);
                }
            },
            SegmentV::Index(i) => {
                if tail.len() > 0 {
                    lemma_edit_reads_back(v->Array_0[i as int], tail, rep);
                }
            },
        }
    }
}

/// An object edit that is made reads back: the edited object is stored
/// under its reference, and the path, taken from the object's value (for a
/// stream, its dictionary), leads to the new value.
pub proof fn lemma_object_edit_reads_back(objs: Seq<ObjectV>, edit: ObjectEditV)
    requires
        document_after_edit(objs, edit).1 is None,
    ensures
        objects_get(document_after_edit(objs, edit).0, edit.0) matches Some(o)
            && value_at(o.1, edit.1) == Some(edit.2),
{
    let o = objects_get(objs, edit.0)->0;
    lemma_get_ref(objs, edit.0);
    let (o2, err) = object_after_edit(o, edit.1, edit.2);
    crate::objects::lemma_put_get(objs, o2);
    if edit.1.len() > 0 {
        lemma_edit_reads_back(edit_root(o).1, edit.1, edit.2);
    }
}

proof fn lemma_get_ref(objs: Seq<ObjectV>, r: ObjectRef)
    ensures
        objects_get(objs, r) matches Some(o) ==> o.0 == r,
    decreases objs.len(),
{
    if objs.len() > 0 && objs[0].0 != r {
        lemma_get_ref(objs.drop_first(), r);
    }
}

} // verus!
