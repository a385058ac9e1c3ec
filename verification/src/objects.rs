//! The indirect objects of a document, kept in order of their references,
//! each reference once.
use vstd::prelude::*;
use crate::pdf_model::{ObjectRef, PdfObject};
use crate::value_views::ObjectV;

verus! {

/// The objects by their views.
pub open spec fn object_views(s: Seq<PdfObject>) -> Seq<ObjectV> {
    s.map_values(|o: PdfObject| o@)
}

/// References in strictly increasing order.
pub open spec fn refs_sorted(s: Seq<ObjectV>) -> bool {
    forall|i: int, j: int| 0 <= i < j < s.len() ==> (#[trigger] s[i]).0.precedes((#[trigger] s[j]).0)
}

/// The object stored under a reference.
pub open spec fn objects_get(s: Seq<ObjectV>, r: ObjectRef) -> Option<ObjectV>
    decreases s.len(),
{
    if s.len() == 0 {
        None
    } else if s[0].0 == r {
        Some(s[0])
    } else {
        objects_get(s.drop_first(), r)
    }
}

/// The objects after storing `o` under its reference, replacing an object
/// stored there, keeping reference order.
pub open spec fn objects_put(s: Seq<ObjectV>, o: ObjectV) -> Seq<ObjectV>
    decreases s.len(),
{
    if s.len() == 0 {
        seq![o]
    } else if s[0].0 == o.0 {
        seq![o] + s.drop_first()
    } else if o.0.precedes(s[0].0) {
        seq![o] + s
    } else {
        seq![s[0]] + objects_put(s.drop_first(), o)
    }
}

/// The objects after storing `o` only when nothing is stored under its reference.
pub open spec fn objects_put_absent(s: Seq<ObjectV>, o: ObjectV) -> Seq<ObjectV> {
    if objects_get(s, o.0) is Some { s } else { objects_put(s, o) }
}

proof fn lemma_put_position(s: Seq<ObjectV>, o: ObjectV, i: int)
    requires
        0 <= i <= s.len(),
        forall|j: int| 0 <= j < i ==> (#[trigger] s[j]).0.precedes(o.0),
        i == s.len() || !s[i].0.precedes(o.0),
    ensures
        objects_put(s, o) == s.take(i) + seq![o] + if i < s.len() && s[i].0 == o.0 { s.skip(i + 1) } else { s.skip(i) },
    decreases i,
{
    if i == 0 {
        if s.len() == 0 {
            assert(s.take(0) + seq![o] + s.skip(0) =~= seq![o]);
        } else if s[0].0 == o.0 {
            assert(s.take(0) + seq![o] + s.skip(1) =~= seq![o] + s.drop_first());
        } else {
            assert(o.0.precedes(s[0].0));
            assert(s.take(0) + seq![o] + s.skip(0) =~= seq![o] + s);
        }
    } else {
        let t = s.drop_first();
        assert forall|j: int| 0 <= j < i - 1 implies (#[trigger] t[j]).0.precedes(o.0) by {
            assert(t[j] == s[j + 1]);
        }
        if i - 1 < t.len() {
            assert(t[i - 1] == s[i]);
        }
        lemma_put_position(t, o, i - 1);
        assert(s[0].0.precedes(o.0));
        assert(s[0].0 != o.0);
        assert(!o.0.precedes(s[0].0));
        if i < s.len() && s[i].0 == o.0 {
            assert(seq![s[0]] + (t.take(i - 1) + seq![o] + t.skip(i)) =~= s.take(i) + seq![o] + s.skip(i + 1));
        } else {
            assert(seq![s[0]] + (t.take(i - 1) + seq![o] + t.skip(i - 1)) =~= s.take(i) + seq![o] + s.skip(i));
        }
    }
}

proof fn lemma_get_sorted(s: Seq<ObjectV>, r: ObjectRef, i: int)
    requires
        refs_sorted(s),
        0 <= i < s.len(),
        s[i].0 == r,
    ensures
        objects_get(s, r) == Some(s[i]),
    decreases i,
{
    if i > 0 {
        assert(s[0].0.precedes(s[i].0));
        let t = s.drop_first();
        assert(t[i - 1] == s[i]);
        assert forall|a: int, b: int| 0 <= a < b < t.len() implies (#[trigger] t[a]).0.precedes((#[trigger] t[b]).0) by {
            assert(t[a] == s[a + 1] && t[b] == s[b + 1]);
        }
        lemma_get_sorted(t, r, i - 1);
    }
}

proof fn lemma_get_absent(s: Seq<ObjectV>, r: ObjectRef)
    requires
        forall|j: int| 0 <= j < s.len() ==> (#[trigger] s[j]).0 != r,
    ensures
        objects_get(s, r) is None,
    decreases s.len(),
{
    if s.len() > 0 {
        let t = s.drop_first();
        assert forall|j: int| 0 <= j < t.len() implies (#[trigger] t[j]).0 != r by {
            assert(t[j] == s[j + 1]);
        }
        lemma_get_absent(t, r);
    }
}

/// Where a reference stands: the first position whose reference does not
/// come before it, and whether that position holds the reference.
fn locate(objects: &Vec<PdfObject>, reference: ObjectRef) -> (r: (usize, bool))
    requires
        refs_sorted(object_views(objects@)),
    ensures
        r.0 <= objects@.len(),
        forall|j: int| 0 <= j < r.0 ==> (#[trigger] objects@[j]).reference.precedes(reference),
        r.0 == objects@.len() || !objects@[r.0 as int].reference.precedes(reference),
        r.1 == (r.0 < objects@.len() && objects@[r.0 as int].reference == reference),
{
    let ghost v = object_views(objects@);
    let mut i = objects.len();
    while i > 0 && !objects[i - 1].reference.less_than(&reference)
        invariant
            i <= objects@.len(),
            v == object_views(objects@),
            refs_sorted(v),
            forall|j: int| i <= j < objects@.len() ==> !(#[trigger] objects@[j]).reference.precedes(reference),
        decreases i,
    {
        i = i - 1;
    }
    proof {
        if i > 0 {
            assert forall|j: int| 0 <= j < i implies (#[trigger] objects@[j]).reference.precedes(reference) by {
                if j < i - 1 {
                    assert(v[j].0 == objects@[j].reference);
                    assert(v[i - 1].0 == objects@[i - 1].reference);
                    assert(v[j].0.precedes(v[i - 1].0));
                }
            }
        }
    }
    let found = i < objects.len() && objects[i].reference == reference;
    (i, found)
}

/// The position of the object with this reference, if there is one.
pub fn find_object(objects: &Vec<PdfObject>, reference: ObjectRef) -> (r: Option<usize>)
    requires
        refs_sorted(object_views(objects@)),
    ensures
        match objects_get(object_views(objects@), reference) {
            Some(o) => r matches Some(i) && i < objects@.len() && objects@[i as int]@ == o && objects@[i as int].reference == reference,
            None => r is None,
        },
{
    let ghost v = object_views(objects@);
    let (i, found) = locate(objects, reference);
    if found {
        proof {
            lemma_get_sorted(v, reference, i as int);
        }
        Some(i)
    } else {
        proof {
            assert forall|j: int| 0 <= j < v.len() implies (#[trigger] v[j]).0 != reference by {
                assert(v[j].0 == objects@[j].reference);
                if j >= i && i < v.len() {
                    assert(v[i as int].0 == objects@[i as int].reference);
                    if j > i {
                        assert(v[i as int].0.precedes(v[j].0));
                    }
                }
            }
            lemma_get_absent(v, reference);
        }
        None
    }
}

/// Stores an object under its reference, replacing one stored there.
pub fn insert_object(objects: &mut Vec<PdfObject>, object: PdfObject)
    requires
        refs_sorted(object_views(old(objects)@)),
    ensures
        object_views(final(objects)@) == objects_put(object_views(old(objects)@), object@),
        refs_sorted(object_views(final(objects)@)),
{
    let ghost v = object_views(objects@);
    let ghost ov = object@;
    let (i, found) = locate(objects, object.reference);
    proof {
        assert forall|j: int| 0 <= j < i implies (#[trigger] v[j]).0.precedes(ov.0) by {
            assert(v[j].0 == objects@[j].reference);
        }
        if i < v.len() {
            assert(v[i as int].0 == objects@[i as int].reference);
        }
        lemma_put_position(v, ov, i as int);
    }
    if found {
        objects.set(i, object);
        assert(object_views(objects@) =~= v.take(i as int) + seq![ov] + v.skip(i + 1));
    } else {
        objects.insert(i, object);
        assert(object_views(objects@) =~= v.take(i as int) + seq![ov] + v.skip(i as int));
    }
    proof {
        let nv = object_views(objects@);
        assert forall|a: int, b: int| 0 <= a < b < nv.len() implies (#[trigger] nv[a]).0.precedes((#[trigger] nv[b]).0) by {
            if found {
                if a == i {
                    assert(nv[b] == v[b]);
                    if b > i + 0 {
                        assert(v[i as int].0 == ov.0);
                        assert(v[i as int].0.precedes(v[b].0));
                    }
                } else if b == i {
                    assert(nv[a] == v[a]);
                } else {
                    assert(nv[a] == v[a] && nv[b] == v[b]);
                }
            } else {
                if a < i && b < i {
                    assert(nv[a] == v[a] && nv[b] == v[b]);
                } else if a < i && b == i {
                    assert(nv[a] == v[a]);
                } else if a < i {
                    assert(nv[a] == v[a] && nv[b] == v[b - 1]);
                    if b - 1 > i {
                        assert(v[i as int].0.precedes(v[b - 1].0));
                    }
                    assert(!v[i as int].0.precedes(ov.0));
                    assert(v[i as int].0 != ov.0);
                } else if a == i {
                    assert(nv[b] == v[b - 1]);
                    assert(!v[i as int].0.precedes(ov.0));
                    assert(v[i as int].0 != ov.0);
                    if b - 1 > i {
                        assert(v[i as int].0.precedes(v[b - 1].0));
                    }
                } else {
                    assert(nv[a] == v[a - 1] && nv[b] == v[b - 1]);
                }
            }
        }
    }
}

/// Stores an object under its reference unless one is stored there.
pub fn insert_object_if_absent(objects: &mut Vec<PdfObject>, object: PdfObject)
    requires
        refs_sorted(object_views(old(objects)@)),
    ensures
        object_views(final(objects)@) == objects_put_absent(object_views(old(objects)@), object@),
        refs_sorted(object_views(final(objects)@)),
{
    match find_object(objects, object.reference) {
        Some(_) => {},
        None => insert_object(objects, object),
    }
}

} // verus!

verus! {

use crate::pdf_model::XrefEntry;

/// Cross-reference entries in strictly increasing reference order.
pub open spec fn entries_sorted(s: Seq<XrefEntry>) -> bool {
    forall|i: int, j: int| 0 <= i < j < s.len() ==> (#[trigger] s[i]).reference.precedes((#[trigger] s[j]).reference)
}

pub open spec fn entries_get(s: Seq<XrefEntry>, r: ObjectRef) -> Option<XrefEntry>
    decreases s.len(),
{
    if s.len() == 0 {
        None
    } else if s[0].reference == r {
        Some(s[0])
    } else {
        entries_get(s.drop_first(), r)
    }
}

/// The entries after storing `e` under its reference, replacing an entry
/// stored there, keeping reference order.
pub open spec fn entries_put(s: Seq<XrefEntry>, e: XrefEntry) -> Seq<XrefEntry>
    decreases s.len(),
{
    if s.len() == 0 {
        seq![e]
    } else if s[0].reference == e.reference {
        seq![e] + s.drop_first()
    } else if e.reference.precedes(s[0].reference) {
        seq![e] + s
    } else {
        seq![s[0]] + entries_put(s.drop_first(), e)
    }
}

/// The entries after storing `e` only when its reference is not there yet.
pub open spec fn entries_put_absent(s: Seq<XrefEntry>, e: XrefEntry) -> Seq<XrefEntry> {
    if entries_get(s, e.reference) is Some { s } else { entries_put(s, e) }
}

proof fn lemma_entries_put_position(s: Seq<XrefEntry>, e: XrefEntry, i: int)
    requires
        0 <= i <= s.len(),
        forall|j: int| 0 <= j < i ==> (#[trigger] s[j]).reference.precedes(e.reference),
        i == s.len() || !s[i].reference.precedes(e.reference),
    ensures
        entries_put(s, e) == s.take(i) + seq![e] + if i < s.len() && s[i].reference == e.reference { s.skip(i + 1) } else { s.skip(i) },
        i < s.len() && s[i].reference == e.reference ==> entries_get(s, e.reference) == Some(s[i]),
        !(i < s.len() && s[i].reference == e.reference) && entries_sorted(s) ==> entries_get(s, e.reference) is None,
    decreases i,
{
    if i == 0 {
        if s.len() == 0 {
            assert(s.take(0) + seq![e] + s.skip(0) =~= seq![e]);
        } else if s[0].reference == e.reference {
            assert(s.take(0) + seq![e] + s.skip(1) =~= seq![e] + s.drop_first());
        } else {
            assert(s.take(0) + seq![e] + s.skip(0) =~= seq![e] + s);
            if entries_sorted(s) {
                lemma_entries_absent_after(s, e.reference);
            }
        }
    } else {
        let t = s.drop_first();
        assert forall|j: int| 0 <= j < i - 1 implies (#[trigger] t[j]).reference.precedes(e.reference) by {
            assert(t[j] == s[j + 1]);
        }
        if i - 1 < t.len() {
            assert(t[i - 1] == s[i]);
        }
        if entries_sorted(s) {
            assert forall|a: int, b: int| 0 <= a < b < t.len() implies (#[trigger] t[a]).reference.precedes((#[trigger] t[b]).reference) by {
                assert(t[a] == s[a + 1] && t[b] == s[b + 1]);
            }
        }
        lemma_entries_put_position(t, e, i - 1);
        assert(s[0].reference.precedes(e.reference));
        if i < s.len() && s[i].reference == e.reference {
            assert(seq![s[0]] + (t.take(i - 1) + seq![e] + t.skip(i)) =~= s.take(i) + seq![e] + s.skip(i + 1));
        } else {
            assert(seq![s[0]] + (t.take(i - 1) + seq![e] + t.skip(i - 1)) =~= s.take(i) + seq![e] + s.skip(i));
        }
    }
}

/// In sorted entries that start after `r`, `r` is absent.
proof fn lemma_entries_absent_after(s: Seq<XrefEntry>, r: ObjectRef)
    requires
        entries_sorted(s),
        s.len() > 0,
        r.precedes(s[0].reference),
    ensures
        entries_get(s, r) is None,
    decreases s.len(),
{
    if s.len() > 1 {
        let t = s.drop_first();
        assert(s[0].reference.precedes(s[1].reference));
        assert(t[0] == s[1]);
        assert forall|a: int, b: int| 0 <= a < b < t.len() implies (#[trigger] t[a]).reference.precedes((#[trigger] t[b]).reference) by {
            assert(t[a] == s[a + 1] && t[b] == s[b + 1]);
        }
        assert(r.precedes(t[0].reference));
        lemma_entries_absent_after(t, r);
        assert(s[0].reference != r);
    } else {
        assert(s[0].reference != r);
        assert(entries_get(s.drop_first(), r) is None);
    }
}

/// Stores an entry under its reference; with `replace` an entry already
/// there is replaced, without it the entry already there stays.
pub fn insert_entry(entries: &mut Vec<XrefEntry>, entry: XrefEntry, replace: bool)
    requires
        entries_sorted(old(entries)@),
    ensures
        final(entries)@ == if replace { entries_put(old(entries)@, entry) } else { entries_put_absent(old(entries)@, entry) },
        entries_sorted(final(entries)@),
{
    let ghost v = entries@;
    let mut i = entries.len();
    while i > 0 && !entries[i - 1].reference.less_than(&entry.reference)
        invariant
            i <= entries@.len(),
            v == entries@,
            entries_sorted(v),
            forall|j: int| i <= j < entries@.len() ==> !(#[trigger] entries@[j]).reference.precedes(entry.reference),
        decreases i,
    {
        i = i - 1;
    }
    proof {
        assert forall|j: int| 0 <= j < i implies (#[trigger] v[j]).reference.precedes(entry.reference) by {
            if j < i - 1 {
                assert(v[j].reference.precedes(v[i - 1].reference));
            }
        }
        lemma_entries_put_position(v, entry, i as int);
    }
    let found = i < entries.len() && entries[i].reference == entry.reference;
    if found {
        if replace {
            entries.set(i, entry);
            assert(entries@ =~= v.take(i as int) + seq![entry] + v.skip(i + 1));
        }
    } else {
        entries.insert(i, entry);
        assert(entries@ =~= v.take(i as int) + seq![entry] + v.skip(i as int));
    }
    proof {
        let nv = entries@;
        assert forall|a: int, b: int| 0 <= a < b < nv.len() implies (#[trigger] nv[a]).reference.precedes((#[trigger] nv[b]).reference) by {
            if found {
                if a == i {
                    if b > i {
                        assert(v[i as int].reference.precedes(v[b].reference));
                    }
                }
            } else {
                if a < i && b < i {
                } else if a < i && b == i {
                } else if a < i {
                    assert(nv[b] == v[b - 1]);
                    if b - 1 > i {
                        assert(v[i as int].reference.precedes(v[b - 1].reference));
                    }
                } else if a == i {
                    assert(nv[b] == v[b - 1]);
                    if b - 1 > i {
                        assert(v[i as int].reference.precedes(v[b - 1].reference));
                    }
                } else {
                    assert(nv[a] == v[a - 1] && nv[b] == v[b - 1]);
                }
            }
        }
    }
}

} // verus!

verus! {

/// Storing under another reference leaves a reference's object as it was.
pub proof fn lemma_put_other(s: Seq<ObjectV>, o: ObjectV, r: ObjectRef)
    requires
        o.0 != r,
    ensures
        objects_get(objects_put(s, o), r) == objects_get(s, r),
    decreases s.len(),
{
    if s.len() > 0 && s[0].0 != o.0 && !o.0.precedes(s[0].0) {
        lemma_put_other(s.drop_first(), o, r);
        assert((seq![s[0]] + objects_put(s.drop_first(), o)).drop_first() =~= objects_put(s.drop_first(), o));
    } else if s.len() > 0 && s[0].0 == o.0 {
        assert((seq![o] + s.drop_first()).drop_first() =~= s.drop_first());
    } else if s.len() > 0 {
        assert((seq![o] + s).drop_first() =~= s);
    } else {
        assert(seq![o].drop_first() =~= Seq::<ObjectV>::empty());
        assert(objects_get(Seq::<ObjectV>::empty(), r) is None);
    }
}

/// Every object stored stays stored, unchanged.
pub open spec fn keeps_objects(old: Seq<ObjectV>, new: Seq<ObjectV>) -> bool {
    forall|r: ObjectRef| #[trigger] objects_get(old, r) is Some ==> objects_get(new, r) == objects_get(old, r)
}

pub proof fn lemma_put_absent_keeps(s: Seq<ObjectV>, o: ObjectV)
    ensures
        keeps_objects(s, objects_put_absent(s, o)),
{
    assert forall|r: ObjectRef| #[trigger] objects_get(s, r) is Some implies objects_get(objects_put_absent(s, o), r) == objects_get(s, r) by {
        if objects_get(s, o.0) is None {
            assert(o.0 != r);
            lemma_put_other(s, o, r);
        }
    }
}

pub proof fn lemma_get_at(s: Seq<ObjectV>, i: int)
    requires
        refs_sorted(s),
        0 <= i < s.len(),
    ensures
        objects_get(s, s[i].0) == Some(s[i]),
{
    lemma_get_sorted(s, s[i].0, i);
}


/// Reading a reference right after storing an object under it gives that
/// object back.
pub proof fn lemma_put_get(s: Seq<ObjectV>, o: ObjectV)
    ensures
        objects_get(objects_put(s, o), o.0) == Some(o),
    decreases s.len(),
{
    if s.len() > 0 && s[0].0 != o.0 && !o.0.precedes(s[0].0) {
        lemma_put_get(s.drop_first(), o);
        assert((seq![s[0]] + objects_put(s.drop_first(), o)).drop_first() =~= objects_put(s.drop_first(), o));
    }
}

} // verus!
