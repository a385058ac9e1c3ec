//! The page tree of a lazily opened document: a walk from the catalog's
//! `/Pages` that reads each node by its cross-reference entry, bounded in
//! depth, nodes and pages, with inherited boxes, rotation and resources.
use vstd::prelude::*;
use crate::error::{ErrorV, PdfDebuggerError, error_message};
use crate::lazy_open::opened_entries;
use crate::lazy_pdf::{
    LazyPdfDocument, LazyWarningV, lazy_warning_views, push_lazy_warning, read_lazy_object_from_file, read_object_spec,
};
use crate::lazy_xref::{LazyPdfWarning, LazyXrefEntry};
use crate::page_index::{
    BoxV, InheritedPageAttributes, InheritedV, LinkV, PageBoxNumbers, PageIndex, PageObjectLink, PageObjectLinkKind,
    PageResourceSummary, PageSummary, PageSummaryV, box_from_items, box_key, collect_links, copy_opt_box,
    count_references, dedupe_links, deduped, font_links, link_views, name_label, no_inheritance, opt_box, opt_count,
    opt_links, page_box_from_array, page_views, push_link,
};
use crate::pdf_model::{ObjectRef, PdfDictionary, PdfValue, ValueView, dict_get, number_as_i32, view_reference};
use crate::pdf_parser::object_dictionary;
use crate::stream_viewer::name_under;
use crate::text::{owned, push_str, str_eq};
use crate::value_views::ObjectV;

verus! {

broadcast use crate::value_views::group_views;

/// How deep the walk goes below `/Pages`.
pub const PAGE_TREE_MAX_DEPTH: usize = 64;
/// How many nodes the walk visits.
pub const PAGE_TREE_MAX_NODES: usize = 20000;
/// How many pages the walk counts.
pub const PAGE_TREE_MAX_PAGES: u32 = 20000;

// ---------------------------------------------------------------------------
// Values behind references
// ---------------------------------------------------------------------------

/// The dictionary of the object `r`, read lazily, and the read's warnings.
pub open spec fn lazy_read_dict(file: Seq<u8>, es: Seq<LazyXrefEntry>, r: ObjectRef) -> (Option<Seq<(Seq<char>, ValueView)>>, Seq<LazyWarningV>) {
    let (res, w) = read_object_spec(file, es, r);
    match res {
        Err(_) => (None, w),
        Ok(o) => (object_dictionary(o), w),
    }
}

/// A dictionary written in place, or the dictionary of the object referenced.
pub open spec fn lazy_resolve(file: Seq<u8>, es: Seq<LazyXrefEntry>, v: ValueView) -> (Option<Seq<(Seq<char>, ValueView)>>, Seq<LazyWarningV>) {
    match v {
        ValueView::Dictionary(d) => (Some(d), seq![]),
        ValueView::Reference(r) => lazy_read_dict(file, es, r),
        _ => (None, seq![]),
    }
}

/// The box a value gives, following references to the referenced objects'
/// values, at most `fuel` of them.
pub open spec fn lazy_box(file: Seq<u8>, es: Seq<LazyXrefEntry>, v: ValueView, fuel: nat) -> (Option<BoxV>, Seq<LazyWarningV>)
    decreases fuel,
{
    match v {
        ValueView::Array(items) => (box_from_items(items), seq![]),
        ValueView::Reference(r) => if fuel == 0 {
            (None, seq![])
        } else {
            let (res, w) = read_object_spec(file, es, r);
            match res {
                Err(_) => (None, w),
                Ok(o) => {
                    let (b, w2) = lazy_box(file, es, o.1, (fuel - 1) as nat);
                    (b, w + w2)
                },
            }
        },
        _ => (None, seq![]),
    }
}

/// The rotation a value gives, following references like `lazy_box`.
pub open spec fn lazy_rotation(file: Seq<u8>, es: Seq<LazyXrefEntry>, v: ValueView, fuel: nat) -> (Option<i32>, Seq<LazyWarningV>)
    decreases fuel,
{
    match v {
        ValueView::Number(t) => (number_as_i32(t), seq![]),
        ValueView::Reference(r) => if fuel == 0 {
            (None, seq![])
        } else {
            let (res, w) = read_object_spec(file, es, r);
            match res {
                Err(_) => (None, w),
                Ok(o) => {
                    let (x, w2) = lazy_rotation(file, es, o.1, (fuel - 1) as nat);
                    (x, w + w2)
                },
            }
        },
        _ => (None, seq![]),
    }
}

/// How many references a box or rotation follows: as many as there are
/// entries, enough for any chain of distinct objects.
pub open spec fn ref_fuel(es: Seq<LazyXrefEntry>) -> nat {
    es.len()
}

fn read_lazy_dictionary(file: &[u8], entries: &[LazyXrefEntry], reference: ObjectRef, warnings: &mut Vec<LazyPdfWarning>) -> (r: Option<PdfDictionary>)
    ensures
        match lazy_read_dict(file@, entries@, reference).0 {
            Some(d) => r matches Some(x) && x@ == d,
            None => r is None,
        },
        lazy_warning_views(final(warnings)@) == lazy_warning_views(old(warnings)@) + lazy_read_dict(file@, entries@, reference).1,
{
    match read_lazy_object_from_file(file, entries, reference, warnings) {
        Ok(object) => match object.dictionary() {
            Some(d) => Some(d.deep_copy()),
            None => None,
        },
        Err(_) => None,
    }
}

fn resolve_lazy_dictionary(file: &[u8], entries: &[LazyXrefEntry], value: &PdfValue, warnings: &mut Vec<LazyPdfWarning>) -> (r: Option<PdfDictionary>)
    ensures
        match lazy_resolve(file@, entries@, value@).0 {
            Some(d) => r matches Some(x) && x@ == d,
            None => r is None,
        },
        lazy_warning_views(final(warnings)@) == lazy_warning_views(old(warnings)@) + lazy_resolve(file@, entries@, value@).1,
{
    match value {
        PdfValue::Dictionary(d) => {
            assert(lazy_warning_views(warnings@) =~= lazy_warning_views(warnings@) + Seq::<LazyWarningV>::empty());
            Some(d.deep_copy())
        },
        PdfValue::Reference(r) => read_lazy_dictionary(file, entries, *r, warnings),
        _ => {
            assert(lazy_warning_views(warnings@) =~= lazy_warning_views(warnings@) + Seq::<LazyWarningV>::empty());
            None
        },
    }
}

#[verifier::rlimit(40)]
fn lazy_box_from_value(file: &[u8], entries: &[LazyXrefEntry], value: &PdfValue, warnings: &mut Vec<LazyPdfWarning>) -> (r: Option<PageBoxNumbers>)
    ensures
        opt_box(r) == lazy_box(file@, entries@, value@, ref_fuel(entries@)).0,
        lazy_warning_views(final(warnings)@) == lazy_warning_views(old(warnings)@) + lazy_box(file@, entries@, value@, ref_fuel(entries@)).1,
{
    let ghost goal = lazy_box(file@, entries@, value@, ref_fuel(entries@));
    let ghost w0 = lazy_warning_views(warnings@);
    let mut current = value.deep_copy();
    let mut fuel: usize = entries.len();
    assert(w0 =~= w0 + Seq::<LazyWarningV>::empty());
    loop
        invariant
            goal == lazy_box(file@, entries@, value@, ref_fuel(entries@)),
            w0 == lazy_warning_views(old(warnings)@),
            ({
                let (b, w) = lazy_box(file@, entries@, current@, fuel as nat);
                &&& goal.0 == b
                &&& w0 + goal.1 == lazy_warning_views(warnings@) + w
            }),
        decreases fuel,
    {
        let ghost wb = lazy_warning_views(warnings@);
        match &current {
            PdfValue::Array(items) => {
                assert(wb + Seq::<LazyWarningV>::empty() =~= wb);
                return page_box_from_array(items);
            },
            PdfValue::Reference(reference) => {
                if fuel == 0 {
                    assert(wb + Seq::<LazyWarningV>::empty() =~= wb);
                    return None;
                }
                let reference = *reference;
                match read_lazy_object_from_file(file, entries, reference, warnings) {
                    Err(_) => {
                        assert(lazy_warning_views(warnings@) + Seq::<LazyWarningV>::empty() =~= lazy_warning_views(warnings@));
                        return None;
                    },
                    Ok(object) => {
                        proof {
                            let w = read_object_spec(file@, entries@, reference).1;
                            let (_, w2) = lazy_box(file@, entries@, object.value@, (fuel - 1) as nat);
                            assert(wb + (w + w2) =~= (wb + w) + w2);
                        }
                        current = object.value;
                        fuel = fuel - 1;
                    },
                }
            },
            _ => {
                assert(wb + Seq::<LazyWarningV>::empty() =~= wb);
                return None;
            },
        }
    }
}

#[verifier::rlimit(40)]
fn lazy_rotation_from_value(file: &[u8], entries: &[LazyXrefEntry], value: &PdfValue, warnings: &mut Vec<LazyPdfWarning>) -> (r: Option<i32>)
    ensures
        r == lazy_rotation(file@, entries@, value@, ref_fuel(entries@)).0,
        lazy_warning_views(final(warnings)@) == lazy_warning_views(old(warnings)@) + lazy_rotation(file@, entries@, value@, ref_fuel(entries@)).1,
{
    let ghost goal = lazy_rotation(file@, entries@, value@, ref_fuel(entries@));
    let ghost w0 = lazy_warning_views(warnings@);
    let mut current = value.deep_copy();
    let mut fuel: usize = entries.len();
    assert(w0 =~= w0 + Seq::<LazyWarningV>::empty());
    loop
        invariant
            goal == lazy_rotation(file@, entries@, value@, ref_fuel(entries@)),
            w0 == lazy_warning_views(old(warnings)@),
            ({
                let (x, w) = lazy_rotation(file@, entries@, current@, fuel as nat);
                &&& goal.0 == x
                &&& w0 + goal.1 == lazy_warning_views(warnings@) + w
            }),
        decreases fuel,
    {
        let ghost wb = lazy_warning_views(warnings@);
        match &current {
            PdfValue::Number(n) => {
                assert(wb + Seq::<LazyWarningV>::empty() =~= wb);
                return n.as_i32();
            },
            PdfValue::Reference(reference) => {
                if fuel == 0 {
                    assert(wb + Seq::<LazyWarningV>::empty() =~= wb);
                    return None;
                }
                let reference = *reference;
                match read_lazy_object_from_file(file, entries, reference, warnings) {
                    Err(_) => {
                        assert(lazy_warning_views(warnings@) + Seq::<LazyWarningV>::empty() =~= lazy_warning_views(warnings@));
                        return None;
                    },
                    Ok(object) => {
                        proof {
                            let w = read_object_spec(file@, entries@, reference).1;
                            let (_, w2) = lazy_rotation(file@, entries@, object.value@, (fuel - 1) as nat);
                            assert(wb + (w + w2) =~= (wb + w) + w2);
                        }
                        current = object.value;
                        fuel = fuel - 1;
                    },
                }
            },
            _ => {
                assert(wb + Seq::<LazyWarningV>::empty() =~= wb);
                return None;
            },
        }
    }
}

// ---------------------------------------------------------------------------
// Inherited attributes
// ---------------------------------------------------------------------------

/// A box a node writes replaces the inherited one, even when it is no box.
pub open spec fn lazy_inherit_box(file: Seq<u8>, es: Seq<LazyXrefEntry>, d: Seq<(Seq<char>, ValueView)>, i: int, current: Option<BoxV>)
    -> (Option<BoxV>, Seq<LazyWarningV>) {
    match dict_get(d, box_key(i)) {
        None => (current, seq![]),
        Some(v) => lazy_box(file, es, v, ref_fuel(es)),
    }
}

/// What a node passes on to its kids, and the warnings of the reads.
pub open spec fn lazy_inherit(file: Seq<u8>, es: Seq<LazyXrefEntry>, d: Seq<(Seq<char>, ValueView)>, inh: InheritedV)
    -> (InheritedV, Seq<LazyWarningV>) {
    let (b0, w0) = lazy_inherit_box(file, es, d, 0, inh.boxes[0]);
    let (b1, w1) = lazy_inherit_box(file, es, d, 1, inh.boxes[1]);
    let (b2, w2) = lazy_inherit_box(file, es, d, 2, inh.boxes[2]);
    let (b3, w3) = lazy_inherit_box(file, es, d, 3, inh.boxes[3]);
    let (b4, w4) = lazy_inherit_box(file, es, d, 4, inh.boxes[4]);
    let (rotation, w5) = match dict_get(d, "Rotate"@) {
        None => (inh.rotation, seq![]),
        Some(v) => lazy_rotation(file, es, v, ref_fuel(es)),
    };
    let resources = match dict_get(d, "Resources"@) {
        Some(v) => Some(v),
        None => inh.resources,
    };
    (InheritedV { boxes: seq![b0, b1, b2, b3, b4], rotation, resources }, w0 + w1 + w2 + w3 + w4 + w5)
}

fn lazy_inherit_box_exec(
    file: &[u8],
    entries: &[LazyXrefEntry],
    d: &PdfDictionary,
    key: &str,
    current: &Option<PageBoxNumbers>,
    warnings: &mut Vec<LazyPdfWarning>,
) -> (r: Option<PageBoxNumbers>)
    ensures
        ({
            let (b, w) = match dict_get(d@, key@) {
                None => (opt_box(*current), Seq::<LazyWarningV>::empty()),
                Some(v) => lazy_box(file@, entries@, v, ref_fuel(entries@)),
            };
            opt_box(r) == b && lazy_warning_views(final(warnings)@) == lazy_warning_views(old(warnings)@) + w
        }),
{
    match d.get(key) {
        None => {
            assert(lazy_warning_views(warnings@) =~= lazy_warning_views(warnings@) + Seq::<LazyWarningV>::empty());
            copy_opt_box(current)
        },
        Some(v) => lazy_box_from_value(file, entries, v, warnings),
    }
}

#[verifier::rlimit(60)]
fn lazy_inherit_attributes(
    file: &[u8],
    entries: &[LazyXrefEntry],
    d: &PdfDictionary,
    inherited: &InheritedPageAttributes,
    warnings: &mut Vec<LazyPdfWarning>,
) -> (r: InheritedPageAttributes)
    ensures
        r@ == lazy_inherit(file@, entries@, d@, inherited@).0,
        lazy_warning_views(final(warnings)@) == lazy_warning_views(old(warnings)@) + lazy_inherit(file@, entries@, d@, inherited@).1,
{
    proof {
        reveal_strlit("MediaBox");
        reveal_strlit("CropBox");
        reveal_strlit("BleedBox");
        reveal_strlit("TrimBox");
        reveal_strlit("ArtBox");
    }
    let ghost w0 = lazy_warning_views(warnings@);
    let media_box = lazy_inherit_box_exec(file, entries, d, "MediaBox", &inherited.media_box, warnings);
    let ghost w1 = lazy_warning_views(warnings@);
    let crop_box = lazy_inherit_box_exec(file, entries, d, "CropBox", &inherited.crop_box, warnings);
    let ghost w2 = lazy_warning_views(warnings@);
    let bleed_box = lazy_inherit_box_exec(file, entries, d, "BleedBox", &inherited.bleed_box, warnings);
    let ghost w3 = lazy_warning_views(warnings@);
    let trim_box = lazy_inherit_box_exec(file, entries, d, "TrimBox", &inherited.trim_box, warnings);
    let ghost w4 = lazy_warning_views(warnings@);
    let art_box = lazy_inherit_box_exec(file, entries, d, "ArtBox", &inherited.art_box, warnings);
    let ghost w5 = lazy_warning_views(warnings@);
    let rotation = match d.get("Rotate") {
        None => {
            assert(lazy_warning_views(warnings@) =~= lazy_warning_views(warnings@) + Seq::<LazyWarningV>::empty());
            inherited.rotation
        },
        Some(v) => lazy_rotation_from_value(file, entries, v, warnings),
    };
    let resources = match d.get("Resources") {
        Some(v) => Some(v.deep_copy()),
        None => match &inherited.resources {
            Some(v) => Some(v.deep_copy()),
            None => None,
        },
    };
    let r = InheritedPageAttributes { media_box, crop_box, bleed_box, trim_box, art_box, rotation, resources };
    proof {
        let spec = lazy_inherit(file@, entries@, d@, inherited@);
        assert(r@.boxes =~= spec.0.boxes);
        assert(lazy_warning_views(warnings@) =~= w0 + spec.1);
    }
    r
}

// ---------------------------------------------------------------------------
// Resource links
// ---------------------------------------------------------------------------

/// Links to the XObjects an XObject dictionary references, each read to
/// tell images apart; the number of images; the reads' warnings.
pub open spec fn lazy_xobject_links(file: Seq<u8>, es: Seq<LazyXrefEntry>, xd: Seq<(Seq<char>, ValueView)>)
    -> (Seq<LinkV>, nat, Seq<LazyWarningV>)
    decreases xd.len(),
{
    if xd.len() == 0 {
        (seq![], 0, seq![])
    } else {
        let (l, n, w) = lazy_xobject_links(file, es, xd.drop_last());
        match view_reference(xd.last().1) {
            None => (l, n, w),
            Some(r) => {
                let (dd, w2) = lazy_read_dict(file, es, r);
                if dd matches Some(x) && name_under(x, "Subtype"@) == Some("Image"@) {
                    (l.push((seq!['/'] + xd.last().0 + " Image"@, PageObjectLinkKind::Image, r)), n + 1, w + w2)
                } else {
                    (l.push((seq!['/'] + xd.last().0 + " XObject"@, PageObjectLinkKind::XObject, r)), n, w + w2)
                }
            },
        }
    }
}

pub open spec fn cap(n: nat) -> usize {
    if n > usize::MAX { usize::MAX } else { n as usize }
}

/// The font and XObject links of a resource dictionary (written in place or
/// referenced), the numbers of fonts, XObjects and images, and the reads'
/// warnings.
pub open spec fn lazy_resource_links(file: Seq<u8>, es: Seq<LazyXrefEntry>, res: ValueView)
    -> ((Seq<LinkV>, usize, usize, usize), Seq<LazyWarningV>) {
    let (rd, w0) = lazy_resolve(file, es, res);
    match rd {
        None => ((seq![], 0, 0, 0), w0),
        Some(d) => {
            let (fl, fonts, w1): (Seq<LinkV>, usize, Seq<LazyWarningV>) = match dict_get(d, "Font"@) {
                Some(f) => {
                    let (fd, wf) = lazy_resolve(file, es, f);
                    match fd {
                        Some(x) => (font_links(x), cap(x.len()), wf),
                        None => (seq![], 0, wf),
                    }
                },
                None => (seq![], 0, seq![]),
            };
            let (xl, xobjects, images, w2): (Seq<LinkV>, usize, usize, Seq<LazyWarningV>) = match dict_get(d, "XObject"@) {
                Some(x) => {
                    let (xd, wx) = lazy_resolve(file, es, x);
                    match xd {
                        Some(y) => {
                            let (l, n, wl) = lazy_xobject_links(file, es, y);
                            (l, cap(y.len()), cap(n), wx + wl)
                        },
                        None => (seq![], 0, 0, wx),
                    }
                },
                None => (seq![], 0, 0, seq![]),
            };
            ((fl + xl, fonts, xobjects, images), w0 + w1 + w2)
        },
    }
}

fn lazy_font_links(fd: &PdfDictionary, links: &mut Vec<PageObjectLink>)
    ensures
        link_views(final(links)@) == link_views(old(links)@) + font_links(fd@),
{
    let ghost start = link_views(links@);
    let ghost all = fd@;
    let mut i: usize = 0;
    assert(all.take(0) =~= Seq::<(Seq<char>, ValueView)>::empty());
    while i < fd.entries.len()
        invariant
            i <= fd.entries@.len(),
            all == fd@,
            all.len() == fd.entries@.len(),
            link_views(links@) == start + font_links(all.take(i as int)),
        decreases fd.entries@.len() - i,
    {
        proof { crate::value_views::lemma_entry_views(fd.entries@); }
        assert(all.take(i + 1).drop_last() =~= all.take(i as int));
        assert(all.take(i + 1).last() == (fd.entries@[i as int].0@, fd.entries@[i as int].1@));
        match fd.entries[i].1.as_reference() {
            Some(r) => {
                let label = name_label(fd.entries[i].0.as_str(), " Font");
                push_link(links, label, PageObjectLinkKind::Font, r);
            },
            None => {},
        }
        assert(link_views(links@) =~= start + font_links(all.take(i + 1)));
        i = i + 1;
    }
    assert(all.take(fd.entries@.len() as int) =~= all);
}

fn is_image_dictionary(d: &Option<PdfDictionary>) -> (r: bool)
    ensures
        r == (match *d {
            Some(x) => name_under(x@, "Subtype"@) == Some("Image"@),
            None => false,
        }),
{
    match d {
        Some(x) => match x.get("Subtype") {
            Some(v) => match v.as_name() {
                Some(n) => str_eq(n, "Image"),
                None => false,
            },
            None => false,
        },
        None => false,
    }
}

#[verifier::rlimit(40)]
fn lazy_xobject_links_exec(
    file: &[u8],
    entries: &[LazyXrefEntry],
    xd: &PdfDictionary,
    links: &mut Vec<PageObjectLink>,
    warnings: &mut Vec<LazyPdfWarning>,
) -> (r: usize)
    ensures
        ({
            let (l, n, w) = lazy_xobject_links(file@, entries@, xd@);
            &&& link_views(final(links)@) == link_views(old(links)@) + l
            &&& r == cap(n)
            &&& lazy_warning_views(final(warnings)@) == lazy_warning_views(old(warnings)@) + w
        }),
{
    let ghost start = link_views(links@);
    let ghost w0 = lazy_warning_views(warnings@);
    let ghost all = xd@;
    let mut images: usize = 0;
    let mut i: usize = 0;
    assert(all.take(0) =~= Seq::<(Seq<char>, ValueView)>::empty());
    assert(w0 =~= w0 + Seq::<LazyWarningV>::empty());
    while i < xd.entries.len()
        invariant
            i <= xd.entries@.len(),
            all == xd@,
            all.len() == xd.entries@.len(),
            ({
                let (l, n, w) = lazy_xobject_links(file@, entries@, all.take(i as int));
                &&& link_views(links@) == start + l
                &&& images == cap(n)
                &&& n <= i
                &&& lazy_warning_views(warnings@) == w0 + w
            }),
        decreases xd.entries@.len() - i,
    {
        proof { crate::value_views::lemma_entry_views(xd.entries@); }
        assert(all.take(i + 1).drop_last() =~= all.take(i as int));
        assert(all.take(i + 1).last() == (xd.entries@[i as int].0@, xd.entries@[i as int].1@));
        let ghost lb = link_views(links@);
        let ghost wb = lazy_warning_views(warnings@);
        match xd.entries[i].1.as_reference() {
            Some(r) => {
                let d = read_lazy_dictionary(file, entries, r, warnings);
                if is_image_dictionary(&d) {
                    images = images + 1;
                    let label = name_label(xd.entries[i].0.as_str(), " Image");
                    push_link(links, label, PageObjectLinkKind::Image, r);
                } else {
                    let label = name_label(xd.entries[i].0.as_str(), " XObject");
                    push_link(links, label, PageObjectLinkKind::XObject, r);
                }
            },
            None => {},
        }
        proof {
            let (l, n, w) = lazy_xobject_links(file@, entries@, all.take(i as int));
            let (l2, n2, w2) = lazy_xobject_links(file@, entries@, all.take(i + 1));
            assert(link_views(links@) =~= start + l2);
            assert(lazy_warning_views(warnings@) =~= w0 + w2);
        }
        i = i + 1;
    }
    assert(all.take(xd.entries@.len() as int) =~= all);
    images
}

#[verifier::rlimit(60)]
fn lazy_add_resource_links(
    file: &[u8],
    entries: &[LazyXrefEntry],
    value: &PdfValue,
    links: &mut Vec<PageObjectLink>,
    warnings: &mut Vec<LazyPdfWarning>,
) -> (r: (usize, usize, usize))
    ensures
        ({
            let ((l, f, x, i), w) = lazy_resource_links(file@, entries@, value@);
            &&& link_views(final(links)@) == link_views(old(links)@) + l
            &&& r == (f, x, i)
            &&& lazy_warning_views(final(warnings)@) == lazy_warning_views(old(warnings)@) + w
        }),
{
    let ghost start = link_views(links@);
    let ghost w0 = lazy_warning_views(warnings@);
    let rd = match resolve_lazy_dictionary(file, entries, value, warnings) {
        Some(d) => d,
        None => {
            assert(link_views(links@) =~= start + Seq::<LinkV>::empty());
            return (0, 0, 0);
        },
    };
    let ghost wa = lazy_warning_views(warnings@);
    let mut fonts: usize = 0;
    match rd.get("Font") {
        Some(f) => match resolve_lazy_dictionary(file, entries, f, warnings) {
            Some(fd) => {
                fonts = fd.len();
                lazy_font_links(&fd, links);
            },
            None => {
                assert(link_views(links@) =~= start + Seq::<LinkV>::empty());
            },
        },
        None => {
            assert(link_views(links@) =~= start + Seq::<LinkV>::empty());
            assert(wa =~= wa + Seq::<LazyWarningV>::empty());
        },
    }
    let ghost mid = link_views(links@);
    let ghost wb = lazy_warning_views(warnings@);
    let mut xobjects: usize = 0;
    let mut images: usize = 0;
    match rd.get("XObject") {
        Some(x) => match resolve_lazy_dictionary(file, entries, x, warnings) {
            Some(xd) => {
                xobjects = xd.len();
                images = lazy_xobject_links_exec(file, entries, &xd, links, warnings);
            },
            None => {
                assert(link_views(links@) =~= mid + Seq::<LinkV>::empty());
            },
        },
        None => {
            assert(link_views(links@) =~= mid + Seq::<LinkV>::empty());
            assert(wb =~= wb + Seq::<LazyWarningV>::empty());
        },
    }
    proof {
        let ((l, f, xo, im), w) = lazy_resource_links(file@, entries@, value@);
        assert(link_views(links@) =~= start + l);
        assert(lazy_warning_views(warnings@) =~= w0 + w);
    }
    (fonts, xobjects, images)
}

// ---------------------------------------------------------------------------
// Page summaries
// ---------------------------------------------------------------------------

/// A box the page writes, or the inherited one.
pub open spec fn lazy_page_box(file: Seq<u8>, es: Seq<LazyXrefEntry>, d: Seq<(Seq<char>, ValueView)>, inh: InheritedV, i: int)
    -> (Option<BoxV>, Seq<LazyWarningV>) {
    match dict_get(d, box_key(i)) {
        None => (inh.boxes[i], seq![]),
        Some(v) => {
            let (b, w) = lazy_box(file, es, v, ref_fuel(es));
            (if b is Some { b } else { inh.boxes[i] }, w)
        },
    }
}

/// The rotation the page writes, or the inherited one.
pub open spec fn lazy_page_rotation(file: Seq<u8>, es: Seq<LazyXrefEntry>, d: Seq<(Seq<char>, ValueView)>, inh: InheritedV)
    -> (Option<i32>, Seq<LazyWarningV>) {
    match dict_get(d, "Rotate"@) {
        None => (inh.rotation, seq![]),
        Some(v) => {
            let (x, w) = lazy_rotation(file, es, v, ref_fuel(es));
            (if x is Some { x } else { inh.rotation }, w)
        },
    }
}

/// The warning for a page without a media box.
pub open spec fn media_box_warning(r: ObjectRef, media: Option<BoxV>) -> Seq<LazyWarningV> {
    if media is None {
        seq![("lazy.page_tree.media_box_missing"@, "Page "@ + r.spec_text() + " does not have a MediaBox in local or inherited attributes"@,
            None::<usize>)]
    } else {
        seq![]
    }
}

/// The boxes and rotation of a page, and the reads' warnings in order:
/// the media box, the warning when there is none, the other boxes, the
/// rotation.
pub open spec fn lazy_page_geometry(file: Seq<u8>, es: Seq<LazyXrefEntry>, r: ObjectRef, d: Seq<(Seq<char>, ValueView)>, inh: InheritedV)
    -> (Seq<Option<BoxV>>, Option<i32>, Seq<LazyWarningV>) {
    let (b0, w0) = lazy_page_box(file, es, d, inh, 0);
    let (b1, w1) = lazy_page_box(file, es, d, inh, 1);
    let (b2, w2) = lazy_page_box(file, es, d, inh, 2);
    let (b3, w3) = lazy_page_box(file, es, d, inh, 3);
    let (b4, w4) = lazy_page_box(file, es, d, inh, 4);
    let (rotation, w5) = lazy_page_rotation(file, es, d, inh);
    (seq![b0, b1, b2, b3, b4], rotation, w0 + media_box_warning(r, b0) + w1 + w2 + w3 + w4 + w5)
}

pub open spec fn parent_links(d: Seq<(Seq<char>, ValueView)>) -> Seq<LinkV> {
    match dict_get(d, "Parent"@) {
        Some(v) => match view_reference(v) {
            Some(p) => seq![("Parent"@, PageObjectLinkKind::Parent, p)],
            None => seq![],
        },
        None => seq![],
    }
}

/// The full summary of page `r`, numbered `n`: links without repeats (the
/// page, its parent, contents, annotations, resources and what they name),
/// resource counts, boxes and rotation; and the reads' warnings.
pub open spec fn lazy_page_summary(file: Seq<u8>, es: Seq<LazyXrefEntry>, n: u32, r: ObjectRef, d: Seq<(Seq<char>, ValueView)>, inh: InheritedV)
    -> (PageSummaryV, Seq<LazyWarningV>) {
    let base = seq![("Page"@, PageObjectLinkKind::Page, r)] + parent_links(d)
        + opt_links(d, "Contents"@, "Contents"@, PageObjectLinkKind::Contents)
        + opt_links(d, "Annots"@, "Annotation"@, PageObjectLinkKind::Annotation);
    let resources_value = match dict_get(d, "Resources"@) {
        Some(v) => Some(v),
        None => inh.resources,
    };
    let (res_links, fonts, xobjects, images, wr): (Seq<LinkV>, usize, usize, usize, Seq<LazyWarningV>) = match resources_value {
        Some(v) => {
            let ((l, f, x, i), w) = lazy_resource_links(file, es, v);
            ((match view_reference(v) {
                Some(rr) => seq![("Resources"@, PageObjectLinkKind::Resources, rr)],
                None => seq![],
            }) + l, f, x, i, w)
        },
        None => (seq![], 0, 0, 0, seq![]),
    };
    let (boxes, rotation, wg) = lazy_page_geometry(file, es, r, d, inh);
    (PageSummaryV {
        page_number: n,
        reference: r,
        boxes,
        rotation,
        resources: PageResourceSummary {
            fonts,
            xobjects,
            images,
            contents: opt_count(d, "Contents"@),
            annotations: opt_count(d, "Annots"@),
        },
        links: deduped(base + res_links),
    }, wr + wg)
}

/// The short summary of page `r` for a page list: the page and parent
/// links, boxes and rotation, no resources.
pub open spec fn lazy_page_list_summary(file: Seq<u8>, es: Seq<LazyXrefEntry>, n: u32, r: ObjectRef, d: Seq<(Seq<char>, ValueView)>, inh: InheritedV)
    -> (PageSummaryV, Seq<LazyWarningV>) {
    let (boxes, rotation, wg) = lazy_page_geometry(file, es, r, d, inh);
    (PageSummaryV {
        page_number: n,
        reference: r,
        boxes,
        rotation,
        resources: PageResourceSummary { fonts: 0, xobjects: 0, images: 0, contents: 0, annotations: 0 },
        links: seq![("Page"@, PageObjectLinkKind::Page, r)] + parent_links(d),
    }, wg)
}

fn lazy_page_box_exec(
    file: &[u8],
    entries: &[LazyXrefEntry],
    d: &PdfDictionary,
    key: &str,
    inherited: &Option<PageBoxNumbers>,
    warnings: &mut Vec<LazyPdfWarning>,
) -> (r: Option<PageBoxNumbers>)
    ensures
        ({
            let (b, w) = match dict_get(d@, key@) {
                None => (opt_box(*inherited), Seq::<LazyWarningV>::empty()),
                Some(v) => {
                    let (x, w) = lazy_box(file@, entries@, v, ref_fuel(entries@));
                    (if x is Some { x } else { opt_box(*inherited) }, w)
                },
            };
            opt_box(r) == b && lazy_warning_views(final(warnings)@) == lazy_warning_views(old(warnings)@) + w
        }),
{
    match d.get(key) {
        None => {
            assert(lazy_warning_views(warnings@) =~= lazy_warning_views(warnings@) + Seq::<LazyWarningV>::empty());
            copy_opt_box(inherited)
        },
        Some(v) => {
            let b = lazy_box_from_value(file, entries, v, warnings);
            if b.is_some() { b } else { copy_opt_box(inherited) }
        },
    }
}

#[verifier::rlimit(80)]
fn lazy_page_geometry_exec(
    file: &[u8],
    entries: &[LazyXrefEntry],
    reference: ObjectRef,
    d: &PdfDictionary,
    inherited: &InheritedPageAttributes,
    warnings: &mut Vec<LazyPdfWarning>,
) -> (r: (Option<PageBoxNumbers>, Option<PageBoxNumbers>, Option<PageBoxNumbers>, Option<PageBoxNumbers>, Option<PageBoxNumbers>, Option<i32>))
    ensures
        ({
            let (boxes, rotation, w) = lazy_page_geometry(file@, entries@, reference, d@, inherited@);
            &&& boxes == seq![opt_box(r.0), opt_box(r.1), opt_box(r.2), opt_box(r.3), opt_box(r.4)]
            &&& r.5 == rotation
            &&& lazy_warning_views(final(warnings)@) == lazy_warning_views(old(warnings)@) + w
        }),
{
    proof {
        reveal_strlit("MediaBox");
        reveal_strlit("CropBox");
        reveal_strlit("BleedBox");
        reveal_strlit("TrimBox");
        reveal_strlit("ArtBox");
    }
    let ghost w0 = lazy_warning_views(warnings@);
    let media_box = lazy_page_box_exec(file, entries, d, "MediaBox", &inherited.media_box, warnings);
    if media_box.is_none() {
        let mut m = owned("Page ");
        let t = reference.to_text();
        push_str(&mut m, t.as_str());
        push_str(&mut m, " does not have a MediaBox in local or inherited attributes");
        push_lazy_warning(warnings, "lazy.page_tree.media_box_missing", m, None);
    }
    let ghost w1 = lazy_warning_views(warnings@);
    let crop_box = lazy_page_box_exec(file, entries, d, "CropBox", &inherited.crop_box, warnings);
    let bleed_box = lazy_page_box_exec(file, entries, d, "BleedBox", &inherited.bleed_box, warnings);
    let trim_box = lazy_page_box_exec(file, entries, d, "TrimBox", &inherited.trim_box, warnings);
    let art_box = lazy_page_box_exec(file, entries, d, "ArtBox", &inherited.art_box, warnings);
    let rotation = match d.get("Rotate") {
        None => {
            assert(lazy_warning_views(warnings@) =~= lazy_warning_views(warnings@) + Seq::<LazyWarningV>::empty());
            inherited.rotation
        },
        Some(v) => {
            let x = lazy_rotation_from_value(file, entries, v, warnings);
            if x.is_some() { x } else { inherited.rotation }
        },
    };
    proof {
        let (boxes, rot, w) = lazy_page_geometry(file@, entries@, reference, d@, inherited@);
        assert(lazy_warning_views(warnings@) =~= w0 + w);
    }
    (media_box, crop_box, bleed_box, trim_box, art_box, rotation)
}

fn parent_link_exec(d: &PdfDictionary, links: &mut Vec<PageObjectLink>)
    ensures
        link_views(final(links)@) == link_views(old(links)@) + parent_links(d@),
{
    match d.get("Parent") {
        Some(v) => match v.as_reference() {
            Some(p) => push_link(links, owned("Parent"), PageObjectLinkKind::Parent, p),
            None => {
                assert(link_views(links@) =~= link_views(links@) + Seq::<LinkV>::empty());
            },
        },
        None => {
            assert(link_views(links@) =~= link_views(links@) + Seq::<LinkV>::empty());
        },
    }
}

fn lazy_page_list_summary_exec(
    file: &[u8],
    entries: &[LazyXrefEntry],
    n: u32,
    reference: ObjectRef,
    d: &PdfDictionary,
    inherited: &InheritedPageAttributes,
    warnings: &mut Vec<LazyPdfWarning>,
) -> (r: PageSummary)
    ensures
        r@ == lazy_page_list_summary(file@, entries@, n, reference, d@, inherited@).0,
        lazy_warning_views(final(warnings)@) == lazy_warning_views(old(warnings)@) + lazy_page_list_summary(file@, entries@, n, reference, d@, inherited@).1,
{
    let mut links: Vec<PageObjectLink> = Vec::new();
    assert(link_views(links@) =~= Seq::<LinkV>::empty());
    push_link(&mut links, owned("Page"), PageObjectLinkKind::Page, reference);
    parent_link_exec(d, &mut links);
    let (media_box, crop_box, bleed_box, trim_box, art_box, rotation) = lazy_page_geometry_exec(file, entries, reference, d, inherited, warnings);
    let p = PageSummary {
        page_number: n,
        reference,
        media_box,
        crop_box,
        bleed_box,
        trim_box,
        art_box,
        rotation,
        resources: PageResourceSummary { fonts: 0, xobjects: 0, images: 0, contents: 0, annotations: 0 },
        links,
    };
    assert(p@.boxes =~= lazy_page_list_summary(file@, entries@, n, reference, d@, inherited@).0.boxes);
    p
}

#[verifier::rlimit(80)]
fn lazy_page_summary_exec(
    file: &[u8],
    entries: &[LazyXrefEntry],
    n: u32,
    reference: ObjectRef,
    d: &PdfDictionary,
    inherited: &InheritedPageAttributes,
    warnings: &mut Vec<LazyPdfWarning>,
) -> (r: PageSummary)
    ensures
        r@ == lazy_page_summary(file@, entries@, n, reference, d@, inherited@).0,
        lazy_warning_views(final(warnings)@) == lazy_warning_views(old(warnings)@) + lazy_page_summary(file@, entries@, n, reference, d@, inherited@).1,
{
    let ghost dv = d@;
    let ghost w0 = lazy_warning_views(warnings@);
    let mut links: Vec<PageObjectLink> = Vec::new();
    assert(link_views(links@) =~= Seq::<LinkV>::empty());
    push_link(&mut links, owned("Page"), PageObjectLinkKind::Page, reference);
    parent_link_exec(d, &mut links);
    let ghost s1 = link_views(links@);
    let mut contents: usize = 0;
    match d.get("Contents") {
        Some(c) => {
            collect_links(c, "Contents", PageObjectLinkKind::Contents, &mut links);
            contents = count_references(c);
        },
        None => {},
    }
    assert(link_views(links@) =~= s1 + opt_links(dv, "Contents"@, "Contents"@, PageObjectLinkKind::Contents));
    let ghost s2 = link_views(links@);
    let mut annotations: usize = 0;
    match d.get("Annots") {
        Some(a) => {
            collect_links(a, "Annotation", PageObjectLinkKind::Annotation, &mut links);
            annotations = count_references(a);
        },
        None => {},
    }
    assert(link_views(links@) =~= s2 + opt_links(dv, "Annots"@, "Annotation"@, PageObjectLinkKind::Annotation));
    let ghost s3 = link_views(links@);
    let resources_value = match d.get("Resources") {
        Some(v) => Some(v.deep_copy()),
        None => match &inherited.resources {
            Some(v) => Some(v.deep_copy()),
            None => None,
        },
    };
    let mut fonts: usize = 0;
    let mut xobjects: usize = 0;
    let mut images: usize = 0;
    match &resources_value {
        Some(v) => {
            match v.as_reference() {
                Some(rr) => push_link(&mut links, owned("Resources"), PageObjectLinkKind::Resources, rr),
                None => {},
            }
            let (f, x, i) = lazy_add_resource_links(file, entries, v, &mut links, warnings);
            fonts = f;
            xobjects = x;
            images = i;
        },
        None => {
            assert(w0 =~= w0 + Seq::<LazyWarningV>::empty());
        },
    }
    let ghost wr = lazy_warning_views(warnings@);
    let ghost all_links = link_views(links@);
    proof {
        let rv = match dict_get(dv, "Resources"@) {
            Some(v) => Some(v),
            None => inherited@.resources,
        };
        assert(rv == match resources_value { Some(v) => Some(v@), None => None::<ValueView> });
        let res_links: Seq<LinkV> = match rv {
            Some(v) => {
                let ((l, f, x, i), w) = lazy_resource_links(file@, entries@, v);
                (match view_reference(v) {
                    Some(rr) => seq![("Resources"@, PageObjectLinkKind::Resources, rr)],
                    None => seq![],
                }) + l
            },
            None => seq![],
        };
        assert(all_links =~= s3 + res_links);
    }
    let links = dedupe_links(links);
    let (media_box, crop_box, bleed_box, trim_box, art_box, rotation) = lazy_page_geometry_exec(file, entries, reference, d, inherited, warnings);
    let p = PageSummary {
        page_number: n,
        reference,
        media_box,
        crop_box,
        bleed_box,
        trim_box,
        art_box,
        rotation,
        resources: PageResourceSummary { fonts, xobjects, images, contents, annotations },
        links,
    };
    proof {
        let spec = lazy_page_summary(file@, entries@, n, reference, d@, inherited@);
        assert(p@.boxes =~= spec.0.boxes);
        assert(lazy_warning_views(warnings@) =~= w0 + spec.1);
    }
    p
}

// ---------------------------------------------------------------------------
// The walk
// ---------------------------------------------------------------------------

/// The walk's state: the pages collected, the nodes visited, how many nodes
/// and pages were counted, whether the page sought was found, and the
/// warnings so far.
pub struct LazyWalkV {
    pub pages: Seq<PageSummaryV>,
    pub visited: Seq<ObjectRef>,
    pub node_count: nat,
    pub page_count_seen: nat,
    pub target_found: bool,
    pub warnings: Seq<LazyWarningV>,
}

pub open spec fn with_warnings(st: LazyWalkV, ws: Seq<LazyWarningV>) -> LazyWalkV {
    LazyWalkV {
        pages: st.pages,
        visited: st.visited,
        node_count: st.node_count,
        page_count_seen: st.page_count_seen,
        target_found: st.target_found,
        warnings: st.warnings + ws,
    }
}

pub open spec fn warn(st: LazyWalkV, rule: Seq<char>, message: Seq<char>, offset: Option<usize>) -> LazyWalkV {
    LazyWalkV {
        pages: st.pages,
        visited: st.visited,
        node_count: st.node_count,
        page_count_seen: st.page_count_seen,
        target_found: st.target_found,
        warnings: st.warnings.push((rule, message, offset)),
    }
}

/// Visiting page tree node `r` at `depth`. Nothing is done once the page
/// sought is found; a node past the depth, node or page limits, or seen
/// before, adds a warning; a node that cannot be read or is no dictionary
/// adds a warning; a `/Page` node is counted and, unless another page is
/// sought, summarized; a `/Pages` node or one without `/Type` visits its
/// `/Kids` in order; any other type adds a warning.
pub open spec fn lazy_walk(
    file: Seq<u8>,
    es: Seq<LazyXrefEntry>,
    details: bool,
    target: Option<u32>,
    r: ObjectRef,
    inh: InheritedV,
    depth: nat,
    st: LazyWalkV,
) -> LazyWalkV
    decreases 65 - depth, 1nat, 0nat,
{
    if st.target_found {
        st
    } else if depth > PAGE_TREE_MAX_DEPTH {
        warn(st, "lazy.page_tree.depth_limit"@, "Page tree traversal reached depth limit "@ + crate::text::decimal(PAGE_TREE_MAX_DEPTH as nat)
            + " at "@ + r.spec_text(), None)
    } else if st.node_count >= PAGE_TREE_MAX_NODES {
        warn(st, "lazy.page_tree.node_limit"@, "Page tree traversal reached node limit "@ + crate::text::decimal(PAGE_TREE_MAX_NODES as nat), None)
    } else if st.page_count_seen >= PAGE_TREE_MAX_PAGES {
        warn(st, "lazy.page_tree.page_limit"@, "Page tree traversal reached page limit "@ + crate::text::decimal(PAGE_TREE_MAX_PAGES as nat), None)
    } else if st.visited.contains(r) {
        warn(st, "lazy.page_tree.cycle"@, "Cycle detected while traversing page tree at "@ + r.spec_text(), None)
    } else {
        let (res, rw) = read_object_spec(file, es, r);
        let st2 = LazyWalkV {
            pages: st.pages,
            visited: st.visited.push(r),
            node_count: st.node_count + 1,
            page_count_seen: st.page_count_seen,
            target_found: st.target_found,
            warnings: st.warnings + rw,
        };
        match res {
            Err(e) => warn(st2, "lazy.page_tree.object_unavailable"@, "Could not read page tree object "@ + r.spec_text() + ": "@
                + error_message(e), None),
            Ok(o) => match object_dictionary(o) {
                None => warn(st2, "lazy.page_tree.non_dictionary"@, "Page tree object "@ + r.spec_text() + " is not a dictionary"@,
                    Some(o.3.start)),
                Some(d) => {
                    let (inh2, iw) = lazy_inherit(file, es, d, inh);
                    let st3 = with_warnings(st2, iw);
                    let ty = name_under(d, "Type"@);
                    if ty == Some("Page"@) {
                        let n = st3.page_count_seen + 1;
                        let collect = match target {
                            Some(t) => t == n,
                            None => true,
                        };
                        if collect {
                            let (p, pw) = if details {
                                lazy_page_summary(file, es, n as u32, r, d, inh2)
                            } else {
                                lazy_page_list_summary(file, es, n as u32, r, d, inh2)
                            };
                            LazyWalkV {
                                pages: st3.pages.push(p),
                                visited: st3.visited,
                                node_count: st3.node_count,
                                page_count_seen: n,
                                target_found: target is Some,
                                warnings: st3.warnings + pw,
                            }
                        } else {
                            LazyWalkV {
                                pages: st3.pages,
                                visited: st3.visited,
                                node_count: st3.node_count,
                                page_count_seen: n,
                                target_found: st3.target_found,
                                warnings: st3.warnings,
                            }
                        }
                    } else if ty == Some("Pages"@) || ty is None {
                        match dict_get(d, "Kids"@) {
                            Some(ValueView::Array(kids)) => lazy_kids(file, es, details, target, r, o.3.start, kids, 0, inh2, depth, st3),
                            _ => warn(st3, "lazy.page_tree.kids_missing"@, "Pages node "@ + r.spec_text() + " does not contain a /Kids array"@,
                                Some(o.3.start)),
                        }
                    } else {
                        warn(st3, "lazy.page_tree.unexpected_type"@, "Page tree object "@ + r.spec_text() + " has unexpected /Type /"@
                            + ty->Some_0, Some(o.3.start))
                    }
                },
            },
        }
    }
}

/// Visiting the kids of `parent` from the `i`-th on, stopping once the page
/// sought is found; a kid that is no reference adds a warning.
pub open spec fn lazy_kids(
    file: Seq<u8>,
    es: Seq<LazyXrefEntry>,
    details: bool,
    target: Option<u32>,
    parent: ObjectRef,
    offset: usize,
    kids: Seq<ValueView>,
    i: nat,
    inh: InheritedV,
    depth: nat,
    st: LazyWalkV,
) -> LazyWalkV
    decreases 65 - depth, 0nat, kids.len() - i,
{
    if i >= kids.len() || depth > PAGE_TREE_MAX_DEPTH {
        st
    } else {
        match kids[i as int] {
            ValueView::Reference(k) => {
                let st2 = lazy_walk(file, es, details, target, k, inh, depth + 1, st);
                if st2.target_found { st2 } else { lazy_kids(file, es, details, target, parent, offset, kids, i + 1, inh, depth, st2) }
            },
            _ => lazy_kids(file, es, details, target, parent, offset, kids, i + 1, inh, depth,
                warn(st, "lazy.page_tree.invalid_kid"@, "Pages node "@ + parent.spec_text() + " contains a non-reference /Kids entry"@,
                    Some(offset))),
        }
    }
}

struct LazyWalk {
    pages: Vec<PageSummary>,
    visited: Vec<ObjectRef>,
    node_count: usize,
    page_count_seen: u32,
    target_found: bool,
}

spec fn walk_view(w: LazyWalk, warnings: Seq<LazyPdfWarning>) -> LazyWalkV {
    LazyWalkV {
        pages: page_views(w.pages@),
        visited: w.visited@,
        node_count: w.node_count as nat,
        page_count_seen: w.page_count_seen as nat,
        target_found: w.target_found,
        warnings: lazy_warning_views(warnings),
    }
}

fn seen_ref(v: &Vec<ObjectRef>, r: ObjectRef) -> (b: bool)
    ensures
        b == v@.contains(r),
{
    let mut i: usize = 0;
    while i < v.len()
        invariant
            i <= v@.len(),
            forall|j: int| 0 <= j < i ==> v@[j] != r,
        decreases v@.len() - i,
    {
        if v[i] == r {
            return true;
        }
        i = i + 1;
    }
    false
}

fn ref_message(a: &str, r: ObjectRef, b: &str) -> (s: String)
    ensures
        s@ == a@ + r.spec_text() + b@,
{
    let mut s = owned(a);
    let t = r.to_text();
    push_str(&mut s, t.as_str());
    push_str(&mut s, b);
    s
}

fn push_summary(pages: &mut Vec<PageSummary>, p: PageSummary)
    ensures
        page_views(final(pages)@) == page_views(old(pages)@).push(p@),
{
    let ghost before = page_views(pages@);
    pages.push(p);
    assert(page_views(pages@) =~= before.push(p@));
}

#[verifier::rlimit(100)]
fn walk_page_node(
    file: &[u8],
    entries: &[LazyXrefEntry],
    details: bool,
    target: Option<u32>,
    reference: ObjectRef,
    inherited: &InheritedPageAttributes,
    depth: usize,
    st: &mut LazyWalk,
    warnings: &mut Vec<LazyPdfWarning>,
)
    requires
        depth <= 65,
        old(st).node_count <= PAGE_TREE_MAX_NODES,
        old(st).page_count_seen <= PAGE_TREE_MAX_PAGES,
    ensures
        walk_view(*final(st), final(warnings)@) == lazy_walk(file@, entries@, details, target, reference, inherited@, depth as nat,
            walk_view(*old(st), old(warnings)@)),
        final(st).node_count <= PAGE_TREE_MAX_NODES,
        final(st).page_count_seen <= PAGE_TREE_MAX_PAGES,
    decreases 65 - depth, 1nat,
{
    let ghost s0 = walk_view(*st, warnings@);
    if st.target_found {
        return;
    }
    if depth > PAGE_TREE_MAX_DEPTH {
        let mut m = owned("Page tree traversal reached depth limit ");
        crate::text::push_decimal(&mut m, PAGE_TREE_MAX_DEPTH);
        push_str(&mut m, " at ");
        let t = reference.to_text();
        push_str(&mut m, t.as_str());
        push_lazy_warning(warnings, "lazy.page_tree.depth_limit", m, None);
        return;
    }
    if st.node_count >= PAGE_TREE_MAX_NODES {
        let mut m = owned("Page tree traversal reached node limit ");
        crate::text::push_decimal(&mut m, PAGE_TREE_MAX_NODES);
        push_lazy_warning(warnings, "lazy.page_tree.node_limit", m, None);
        return;
    }
    if st.page_count_seen >= PAGE_TREE_MAX_PAGES {
        let mut m = owned("Page tree traversal reached page limit ");
        crate::text::push_decimal(&mut m, PAGE_TREE_MAX_PAGES as usize);
        push_lazy_warning(warnings, "lazy.page_tree.page_limit", m, None);
        return;
    }
    if seen_ref(&st.visited, reference) {
        let mut m = owned("Cycle detected while traversing page tree at ");
        let t = reference.to_text();
        push_str(&mut m, t.as_str());
        push_lazy_warning(warnings, "lazy.page_tree.cycle", m, None);
        return;
    }
    st.visited.push(reference);
    st.node_count = st.node_count + 1;
    let object = match read_lazy_object_from_file(file, entries, reference, warnings) {
        Ok(o) => o,
        Err(e) => {
            let mut m = ref_message("Could not read page tree object ", reference, ": ");
            let em = e.message();
            push_str(&mut m, em.as_str());
            push_lazy_warning(warnings, "lazy.page_tree.object_unavailable", m, None);
            return;
        },
    };
    let ghost s2 = walk_view(*st, warnings@);
    let dictionary = match object.dictionary() {
        Some(d) => d,
        None => {
            let m = ref_message("Page tree object ", reference, " is not a dictionary");
            push_lazy_warning(warnings, "lazy.page_tree.non_dictionary", m, Some(object.raw_range.start));
            return;
        },
    };
    let inherited2 = lazy_inherit_attributes(file, entries, dictionary, inherited, warnings);
    let ghost s3 = walk_view(*st, warnings@);
    let ty = match dictionary.get("Type") {
        Some(v) => v.as_name(),
        None => None,
    };
    let is_page = match ty {
        Some(t) => str_eq(t, "Page"),
        None => false,
    };
    let is_pages = match ty {
        Some(t) => str_eq(t, "Pages"),
        None => true,
    };
    if is_page {
        st.page_count_seen = st.page_count_seen + 1;
        let n = st.page_count_seen;
        let collect = match target {
            Some(t) => t == n,
            None => true,
        };
        if collect {
            let summary = if details {
                lazy_page_summary_exec(file, entries, n, reference, dictionary, &inherited2, warnings)
            } else {
                lazy_page_list_summary_exec(file, entries, n, reference, dictionary, &inherited2, warnings)
            };
            push_summary(&mut st.pages, summary);
            if target.is_some() {
                st.target_found = true;
            }
        }
    } else if is_pages {
        match dictionary.get("Kids") {
            Some(PdfValue::Array(kids)) => {
                walk_kids(file, entries, details, target, reference, object.raw_range.start, kids, &inherited2, depth, st, warnings);
            },
            _ => {
                let m = ref_message("Pages node ", reference, " does not contain a /Kids array");
                push_lazy_warning(warnings, "lazy.page_tree.kids_missing", m, Some(object.raw_range.start));
            },
        }
    } else {
        let mut m = ref_message("Page tree object ", reference, " has unexpected /Type /");
        match ty {
            Some(t) => push_str(&mut m, t),
            None => {},
        }
        push_lazy_warning(warnings, "lazy.page_tree.unexpected_type", m, Some(object.raw_range.start));
    }
}

#[verifier::rlimit(60)]
fn walk_kids(
    file: &[u8],
    entries: &[LazyXrefEntry],
    details: bool,
    target: Option<u32>,
    parent: ObjectRef,
    offset: usize,
    kids: &Vec<PdfValue>,
    inherited: &InheritedPageAttributes,
    depth: usize,
    st: &mut LazyWalk,
    warnings: &mut Vec<LazyPdfWarning>,
)
    requires
        depth <= 64,
        old(st).node_count <= PAGE_TREE_MAX_NODES,
        old(st).page_count_seen <= PAGE_TREE_MAX_PAGES,
    ensures
        walk_view(*final(st), final(warnings)@) == lazy_kids(file@, entries@, details, target, parent, offset,
            crate::value_views::value_views(kids@), 0, inherited@, depth as nat, walk_view(*old(st), old(warnings)@)),
        final(st).node_count <= PAGE_TREE_MAX_NODES,
        final(st).page_count_seen <= PAGE_TREE_MAX_PAGES,
    decreases 65 - depth, 0nat,
{
    let ghost kv = crate::value_views::value_views(kids@);
    let ghost goal = lazy_kids(file@, entries@, details, target, parent, offset, kv, 0, inherited@, depth as nat, walk_view(*st, warnings@));
    let mut i: usize = 0;
    while i < kids.len()
        invariant
            depth <= 64,
            kv == crate::value_views::value_views(kids@),
            kv.len() == kids@.len(),
            i <= kids@.len(),
            st.node_count <= PAGE_TREE_MAX_NODES,
            st.page_count_seen <= PAGE_TREE_MAX_PAGES,
            goal == lazy_kids(file@, entries@, details, target, parent, offset, kv, 0, inherited@, depth as nat, walk_view(*old(st), old(warnings)@)),
            goal == lazy_kids(file@, entries@, details, target, parent, offset, kv, i as nat, inherited@, depth as nat, walk_view(*st, warnings@)),
        decreases kids@.len() - i,
    {
        assert(kv[i as int] == kids@[i as int]@);
        match &kids[i] {
            PdfValue::Reference(k) => {
                walk_page_node(file, entries, details, target, *k, inherited, depth + 1, st, warnings);
                if st.target_found {
                    return;
                }
            },
            _ => {
                let m = ref_message("Pages node ", parent, " contains a non-reference /Kids entry");
                push_lazy_warning(warnings, "lazy.page_tree.invalid_kid", m, Some(offset));
            },
        }
        i = i + 1;
    }
}

// ---------------------------------------------------------------------------
// Building the index
// ---------------------------------------------------------------------------

/// The pages under the catalog's `/Pages` and the warnings after `ws0`: a
/// warning and no pages where there is no catalog, it cannot be read, or it
/// names no `/Pages`.
pub open spec fn lazy_page_walk(
    file: Seq<u8>,
    es: Seq<LazyXrefEntry>,
    root: Option<ObjectRef>,
    details: bool,
    target: Option<u32>,
    ws0: Seq<LazyWarningV>,
) -> (Seq<PageSummaryV>, Seq<LazyWarningV>) {
    match root {
        None => (seq![], ws0.push(("lazy.page_tree.root_missing"@,
            "Lazy page index could not run because the trailer has no Root reference"@, None))),
        Some(rr) => {
            let (res, w) = read_object_spec(file, es, rr);
            match res {
                Err(_) => (seq![], (ws0 + w).push(("lazy.page_tree.catalog_missing"@, "Could not read Root catalog "@ + rr.spec_text(), None))),
                Ok(o) => {
                    let pages_ref = match object_dictionary(o) {
                        Some(d) => match dict_get(d, "Pages"@) {
                            Some(v) => view_reference(v),
                            None => None,
                        },
                        None => None,
                    };
                    match pages_ref {
                        None => (seq![], (ws0 + w).push(("lazy.page_tree.pages_missing"@, "Root catalog "@ + rr.spec_text()
                            + " does not contain a /Pages reference"@, Some(o.3.start)))),
                        Some(p) => {
                            let st = lazy_walk(file, es, details, target, p, no_inheritance(), 0, LazyWalkV {
                                pages: seq![],
                                visited: seq![],
                                node_count: 0,
                                page_count_seen: 0,
                                target_found: false,
                                warnings: ws0 + w,
                            });
                            (st.pages, st.warnings)
                        },
                    }
                },
            }
        },
    }
}

/// The document is the same but for its warnings and their count.
pub open spec fn lazy_document_kept(a: LazyPdfDocument, b: LazyPdfDocument) -> bool {
    &&& b.xref.startxref == a.xref.startxref
    &&& b.xref.entries@ == a.xref.entries@
    &&& crate::pdf_parser::opt_view(b.trailer) == crate::pdf_parser::opt_view(a.trailer)
    &&& b.metadata.file_name@ == a.metadata.file_name@
    &&& b.metadata.file_size == a.metadata.file_size
    &&& b.metadata.pdf_version == a.metadata.pdf_version
    &&& b.metadata.page_count == a.metadata.page_count
    &&& b.metadata.encrypted == a.metadata.encrypted
    &&& b.metadata.linearized == a.metadata.linearized
    &&& b.metadata.incremental_update_count == a.metadata.incremental_update_count
    &&& b.metadata.root == a.metadata.root
    &&& b.metadata.info == a.metadata.info
    &&& b.metadata.trailer_keys@ == a.metadata.trailer_keys@
    &&& b.metadata.info_summary@ == a.metadata.info_summary@
    &&& b.metadata.object_count == a.metadata.object_count
    &&& b.metadata.stream_count == a.metadata.stream_count
    &&& b.metadata.xref_entry_count == a.metadata.xref_entry_count
    &&& b.metadata.has_xref_stream == a.metadata.has_xref_stream
    &&& b.metadata.has_object_stream == a.metadata.has_object_stream
}

fn no_inherited_attributes() -> (r: InheritedPageAttributes)
    ensures
        r@ == no_inheritance(),
{
    let r = InheritedPageAttributes {
        media_box: None,
        crop_box: None,
        bleed_box: None,
        trim_box: None,
        art_box: None,
        rotation: None,
        resources: None,
    };
    assert(r@.boxes =~= no_inheritance().boxes);
    r
}

fn walk_from_root(
    file: &[u8],
    entries: &[LazyXrefEntry],
    root: Option<ObjectRef>,
    details: bool,
    target: Option<u32>,
    warnings: &mut Vec<LazyPdfWarning>,
) -> (r: Vec<PageSummary>)
    ensures
        ({
            let (pages, ws) = lazy_page_walk(file@, entries@, root, details, target, lazy_warning_views(old(warnings)@));
            page_views(r@) == pages && lazy_warning_views(final(warnings)@) == ws
        }),
{
    let ghost w0 = lazy_warning_views(warnings@);
    let empty: Vec<PageSummary> = Vec::new();
    assert(page_views(empty@) =~= Seq::<PageSummaryV>::empty());
    let rr = match root {
        None => {
            push_lazy_warning(warnings, "lazy.page_tree.root_missing",
                owned("Lazy page index could not run because the trailer has no Root reference"), None);
            return empty;
        },
        Some(rr) => rr,
    };
    let root_object = match read_lazy_object_from_file(file, entries, rr, warnings) {
        Ok(o) => o,
        Err(_) => {
            let mut m = owned("Could not read Root catalog ");
            let t = rr.to_text();
            push_str(&mut m, t.as_str());
            push_lazy_warning(warnings, "lazy.page_tree.catalog_missing", m, None);
            return empty;
        },
    };
    let pages_ref = match root_object.dictionary() {
        Some(d) => match d.get("Pages") {
            Some(v) => v.as_reference(),
            None => None,
        },
        None => None,
    };
    let p = match pages_ref {
        None => {
            let m = ref_message("Root catalog ", rr, " does not contain a /Pages reference");
            push_lazy_warning(warnings, "lazy.page_tree.pages_missing", m, Some(root_object.raw_range.start));
            return empty;
        },
        Some(p) => p,
    };
    let mut st = LazyWalk { pages: empty, visited: Vec::new(), node_count: 0, page_count_seen: 0, target_found: false };
    let inherited = no_inherited_attributes();
    proof {
        assert(walk_view(st, warnings@).visited =~= Seq::<ObjectRef>::empty());
    }
    walk_page_node(file, entries, details, target, p, &inherited, 0, &mut st, warnings);
    st.pages
}

fn build_lazy_page_index_with_options(document: &mut LazyPdfDocument, file: &[u8], details: bool, target: Option<u32>) -> (r: PageIndex)
    ensures
        ({
            let (pages, ws) = lazy_page_walk(file@, old(document).xref.entries@, old(document).metadata.root, details, target,
                lazy_warning_views(old(document).warnings@));
            page_views(r.pages@) == pages && lazy_warning_views(final(document).warnings@) == ws
        }),
        final(document).metadata.parse_warning_count == final(document).warnings@.len(),
        lazy_document_kept(*old(document), *final(document)),
{
    let root = document.metadata.root;
    let pages = walk_from_root(file, document.xref.entries.as_slice(), root, details, target, &mut document.warnings);
    document.metadata.parse_warning_count = document.warnings.len();
    PageIndex { pages }
}

/// The pages of a lazily opened document with their boxes, rotation,
/// resources and links; the walk's warnings are added to the document's.
pub fn build_lazy_page_index(document: &mut LazyPdfDocument, file: &[u8]) -> (r: PageIndex)
    ensures
        ({
            let (pages, ws) = lazy_page_walk(file@, old(document).xref.entries@, old(document).metadata.root, true, None,
                lazy_warning_views(old(document).warnings@));
            page_views(r.pages@) == pages && lazy_warning_views(final(document).warnings@) == ws
        }),
        final(document).metadata.parse_warning_count == final(document).warnings@.len(),
        lazy_document_kept(*old(document), *final(document)),
{
    build_lazy_page_index_with_options(document, file, true, None)
}

/// The pages of a lazily opened document with their boxes and rotation
/// only, for a quick list.
pub fn build_lazy_page_list(document: &mut LazyPdfDocument, file: &[u8]) -> (r: PageIndex)
    ensures
        ({
            let (pages, ws) = lazy_page_walk(file@, old(document).xref.entries@, old(document).metadata.root, false, None,
                lazy_warning_views(old(document).warnings@));
            page_views(r.pages@) == pages && lazy_warning_views(final(document).warnings@) == ws
        }),
        final(document).metadata.parse_warning_count == final(document).warnings@.len(),
        lazy_document_kept(*old(document), *final(document)),
{
    build_lazy_page_index_with_options(document, file, false, None)
}

/// The full summary of one page, numbered from 1, walking the page tree
/// only until that page is found.
pub fn build_lazy_page_metadata(document: &mut LazyPdfDocument, file: &[u8], page_number: u32) -> (r: Result<PageSummary, PdfDebuggerError>)
    ensures
        page_number == 0 ==> (r matches Err(e) && e@ == ErrorV::LazyOpen("Page numbers start at 1."@)
            && final(document).warnings@ == old(document).warnings@),
        page_number > 0 ==> ({
            let (pages, ws) = lazy_page_walk(file@, old(document).xref.entries@, old(document).metadata.root, true, Some(page_number),
                lazy_warning_views(old(document).warnings@));
            &&& lazy_warning_views(final(document).warnings@) == ws
            &&& if pages.len() > 0 {
                (r matches Ok(p) && p@ == pages.last())
            } else {
                (r matches Err(e) && e@ == ErrorV::LazyOpen("Page "@ + crate::text::decimal(page_number as nat)
                    + " was not found in the lazy page tree"@))
            }
        }),
        lazy_document_kept(*old(document), *final(document)),
{
    if page_number == 0 {
        return Err(crate::lazy_pdf::lazy_open_error(owned("Page numbers start at 1.")));
    }
    let index = build_lazy_page_index_with_options(document, file, true, Some(page_number));
    let mut pages = index.pages;
    let ghost before = pages@;
    match pages.pop() {
        Some(p) => {
            assert(page_views(before).last() == p@);
            Ok(p)
        },
        None => {
            let mut m = owned("Page ");
            crate::text::push_decimal(&mut m, page_number as usize);
            push_str(&mut m, " was not found in the lazy page tree");
            Err(crate::lazy_pdf::lazy_open_error(m))
        },
    }
}

} // verus!
