//! How the text view of a value sequence and of dictionary entries relates
//! to the items themselves.
use vstd::prelude::*;
use crate::pdf_model::{ByteRange, Finding, ObjectRef, ParseWarning, Severity, PdfDictionary, PdfObject, PdfStream, PdfValue, ValueView};
use crate::text::string_views;

verus! {

/// The text of each value in a sequence.
pub open spec fn value_views(s: Seq<PdfValue>) -> Seq<ValueView>
    decreases s,
{
    if s.len() == 0 {
        seq![]
    } else {
        value_views(s.drop_last()).push(s.last().view())
    }
}

/// The entries of a dictionary by their text.
pub open spec fn entry_views(e: Seq<(String, PdfValue)>) -> Seq<(Seq<char>, ValueView)>
    decreases e,
{
    if e.len() == 0 {
        seq![]
    } else {
        entry_views(e.drop_last()).push((e.last().0@, e.last().1.view()))
    }
}

impl View for PdfValue {
    type V = ValueView;

    open spec fn view(&self) -> ValueView
        decreases self,
    {
        match self {
            PdfValue::Null => ValueView::Null,
            PdfValue::Boolean(b) => ValueView::Boolean(*b),
            PdfValue::Number(n) => ValueView::Number(n.text@),
            PdfValue::Name(s) => ValueView::Name(s@),
            PdfValue::String(s) => ValueView::String(s@),
            PdfValue::HexString(s) => ValueView::HexString(s@),
            PdfValue::Array(v) => ValueView::Array(value_views(v@)),
            PdfValue::Dictionary(d) => ValueView::Dictionary(entry_views(d.entries@)),
            PdfValue::Reference(r) => ValueView::Reference(*r),
            PdfValue::Raw(s) => ValueView::Raw(s@),
        }
    }
}

impl View for PdfDictionary {
    type V = Seq<(Seq<char>, ValueView)>;

    open spec fn view(&self) -> Seq<(Seq<char>, ValueView)> {
        entry_views(self.entries@)
    }
}

pub broadcast proof fn lemma_value_views(s: Seq<PdfValue>)
    ensures
        #[trigger] value_views(s).len() == s.len(),
        forall|i: int| 0 <= i < s.len() ==> #[trigger] value_views(s)[i] == s[i]@,
    decreases s.len(),
{
    if s.len() > 0 {
        lemma_value_views(s.drop_last());
        assert(value_views(s) == value_views(s.drop_last()).push(s.last()@));
    } else {
        assert(value_views(s) == Seq::<ValueView>::empty());
    }
}

pub broadcast group group_views {
    lemma_value_views,
    lemma_entry_views,
}

pub broadcast proof fn lemma_entry_views(e: Seq<(String, PdfValue)>)
    ensures
        #[trigger] entry_views(e).len() == e.len(),
        forall|i: int| 0 <= i < e.len() ==> #[trigger] entry_views(e)[i] == (e[i].0@, e[i].1@),
    decreases e.len(),
{
    if e.len() > 0 {
        lemma_entry_views(e.drop_last());
        assert(entry_views(e) == entry_views(e.drop_last()).push((e.last().0@, e.last().1@)));
    } else {
        assert(entry_views(e) == Seq::<(Seq<char>, ValueView)>::empty());
    }
}


/// A stream by its dictionary, declared and actual length, filter names,
/// data range and loaded bytes.
pub type StreamV = (Seq<(Seq<char>, ValueView)>, Option<usize>, usize, Seq<Seq<char>>, ByteRange, Seq<u8>);

impl View for PdfStream {
    type V = StreamV;

    open spec fn view(&self) -> StreamV {
        (self.dictionary@, self.declared_length, self.actual_length, string_views(self.filters@), self.raw_range, self.raw_bytes@)
    }
}

/// An object by its reference, value, stream, byte range and kept bytes.
pub type ObjectV = (ObjectRef, ValueView, Option<StreamV>, ByteRange, Seq<u8>);

impl View for PdfObject {
    type V = ObjectV;

    open spec fn view(&self) -> ObjectV {
        (self.reference, self.value@, match self.stream { Some(s) => Some(s@), None => None }, self.raw_range, self.raw_bytes@)
    }
}

/// A warning by its offset and message.
pub type WarningV = (Option<usize>, Seq<char>);

impl View for ParseWarning {
    type V = WarningV;

    open spec fn view(&self) -> WarningV {
        (self.offset, self.message@)
    }
}

/// The warnings by offset and message.
pub open spec fn warning_views(w: Seq<ParseWarning>) -> Seq<WarningV> {
    w.map_values(|x: ParseWarning| x@)
}


/// A finding by rule, severity, message, object, page, offset and next step.
pub type FindingV = (Seq<char>, Severity, Seq<char>, Option<ObjectRef>, Option<u32>, Option<usize>, Seq<char>);

impl View for Finding {
    type V = FindingV;

    open spec fn view(&self) -> FindingV {
        (self.rule_id@, self.severity, self.message@, self.object, self.page, self.byte_offset, self.suggested_next_step@)
    }
}

/// The findings by their views.
pub open spec fn finding_views(f: Seq<Finding>) -> Seq<FindingV> {
    f.map_values(|x: Finding| x@)
}

} // verus!
