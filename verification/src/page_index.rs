//! An index of the pages of a document: each page's boxes and rotation
//! (inherited through the page tree), resource counts, and links to the
//! objects it uses.
use vstd::prelude::*;
use crate::diagnostics::{
    contains_ref, insert_ref, lemma_ref_insert_contains, lemma_unvisited_bound, lemma_unvisited_grow,
    lemma_unvisited_visit, ref_insert, refs_increasing, resolve_dict, unvisited,
};
use crate::objects::{object_views, objects_get};
use crate::pdf_model::{
    ObjectRef, ParsedPdf, PdfDictionary, PdfValue, ValueView, dict_get, number_as_i32, view_reference,
};
use crate::pdf_parser::object_dictionary;
use crate::stream_viewer::name_under;
use crate::text::{owned, push_str, str_eq};
use crate::value_views::{ObjectV, value_views};

verus! {

broadcast use crate::value_views::group_views;

/// The four corners of a page box as the document writes them: lower-left
/// x and y, upper-right x and y, each a number's text.
#[derive(Debug)]
pub struct PageBoxNumbers {
    pub lower_left_x: String,
    pub lower_left_y: String,
    pub upper_right_x: String,
    pub upper_right_y: String,
}

/// A page box by its four number texts.
pub type BoxV = (Seq<char>, Seq<char>, Seq<char>, Seq<char>);

impl View for PageBoxNumbers {
    type V = BoxV;

    open spec fn view(&self) -> BoxV {
        (self.lower_left_x@, self.lower_left_y@, self.upper_right_x@, self.upper_right_y@)
    }
}

/// How many resources and content pieces a page uses.
#[derive(Clone, Copy, Debug, PartialEq, Eq, Structural)]
pub struct PageResourceSummary {
    pub fonts: usize,
    pub xobjects: usize,
    pub images: usize,
    pub contents: usize,
    pub annotations: usize,
}

/// What a page links to.
#[derive(Clone, Copy, Debug, PartialEq, Eq, Structural)]
pub enum PageObjectLinkKind {
    Page,
    Parent,
    Resources,
    Contents,
    Font,
    XObject,
    Image,
    Annotation,
}

/// A link from a page to an object it uses.
#[derive(Debug)]
pub struct PageObjectLink {
    pub label: String,
    pub kind: PageObjectLinkKind,
    pub reference: ObjectRef,
}

/// A link by its label, kind and target.
pub type LinkV = (Seq<char>, PageObjectLinkKind, ObjectRef);

impl View for PageObjectLink {
    type V = LinkV;

    open spec fn view(&self) -> LinkV {
        (self.label@, self.kind, self.reference)
    }
}

pub open spec fn link_views(s: Seq<PageObjectLink>) -> Seq<LinkV> {
    s.map_values(|l: PageObjectLink| l@)
}

/// One page of the index.
#[derive(Debug)]
pub struct PageSummary {
    pub page_number: u32,
    pub reference: ObjectRef,
    pub media_box: Option<PageBoxNumbers>,
    pub crop_box: Option<PageBoxNumbers>,
    pub bleed_box: Option<PageBoxNumbers>,
    pub trim_box: Option<PageBoxNumbers>,
    pub art_box: Option<PageBoxNumbers>,
    pub rotation: Option<i32>,
    pub resources: PageResourceSummary,
    pub links: Vec<PageObjectLink>,
}

/// A page summary by its values.
pub struct PageSummaryV {
    pub page_number: u32,
    pub reference: ObjectRef,
    pub boxes: Seq<Option<BoxV>>,
    pub rotation: Option<i32>,
    pub resources: PageResourceSummary,
    pub links: Seq<LinkV>,
}

pub open spec fn opt_box(b: Option<PageBoxNumbers>) -> Option<BoxV> {
    match b {
        Some(x) => Some(x@),
        None => None,
    }
}

impl View for PageSummary {
    type V = PageSummaryV;

    open spec fn view(&self) -> PageSummaryV {
        PageSummaryV {
            page_number: self.page_number,
            reference: self.reference,
            boxes: seq![opt_box(self.media_box), opt_box(self.crop_box), opt_box(self.bleed_box),
                opt_box(self.trim_box), opt_box(self.art_box)],
            rotation: self.rotation,
            resources: self.resources,
            links: link_views(self.links@),
        }
    }
}

/// The pages of a document, in page tree order.
#[derive(Debug)]
pub struct PageIndex {
    pub pages: Vec<PageSummary>,
}

pub open spec fn page_views(s: Seq<PageSummary>) -> Seq<PageSummaryV> {
    s.map_values(|p: PageSummary| p@)
}

// ---------------------------------------------------------------------------
// Boxes and rotation
// ---------------------------------------------------------------------------

/// The keys of the five page boxes, in the order a summary holds them.
pub open spec fn box_key(i: int) -> Seq<char> {
    if i == 0 {
        "MediaBox"@
    } else if i == 1 {
        "CropBox"@
    } else if i == 2 {
        "BleedBox"@
    } else if i == 3 {
        "TrimBox"@
    } else {
        "ArtBox"@
    }
}

/// A box from an array of exactly four numbers.
pub open spec fn box_from_items(items: Seq<ValueView>) -> Option<BoxV> {
    if items.len() == 4 && items[0] is Number && items[1] is Number && items[2] is Number && items[3] is Number {
        Some((items[0]->Number_0, items[1]->Number_0, items[2]->Number_0, items[3]->Number_0))
    } else {
        None
    }
}

/// The box a value gives, following references to objects' values; the
/// outer `None` when more than `fuel` references are followed, which over
/// distinct objects means the references form a cycle.
pub open spec fn box_of(objs: Seq<ObjectV>, v: ValueView, fuel: nat) -> Option<Option<BoxV>>
    decreases fuel,
{
    match v {
        ValueView::Array(items) => Some(box_from_items(items)),
        ValueView::Reference(r) => match objects_get(objs, r) {
            None => Some(None),
            Some(o) => if fuel == 0 { None } else { box_of(objs, o.1, (fuel - 1) as nat) },
        },
        _ => Some(None),
    }
}

/// The rotation a value gives, following references like `box_of`.
pub open spec fn rotation_of(objs: Seq<ObjectV>, v: ValueView, fuel: nat) -> Option<Option<i32>>
    decreases fuel,
{
    match v {
        ValueView::Number(t) => Some(number_as_i32(t)),
        ValueView::Reference(r) => match objects_get(objs, r) {
            None => Some(None),
            Some(o) => if fuel == 0 { None } else { rotation_of(objs, o.1, (fuel - 1) as nat) },
        },
        _ => Some(None),
    }
}

/// What a page inherits: its five boxes, rotation and resources.
pub struct InheritedV {
    pub boxes: Seq<Option<BoxV>>,
    pub rotation: Option<i32>,
    pub resources: Option<ValueView>,
}

pub open spec fn no_inheritance() -> InheritedV {
    InheritedV { boxes: seq![None, None, None, None, None], rotation: None, resources: None }
}

/// A box after a node's own: one the node writes replaces the inherited
/// one; whether its references form a cycle.
pub open spec fn inherit_box(objs: Seq<ObjectV>, d: Seq<(Seq<char>, ValueView)>, key: Seq<char>, current: Option<BoxV>) -> (Option<BoxV>, bool) {
    match dict_get(d, key) {
        None => (current, false),
        Some(v) => match box_of(objs, v, objs.len()) {
            None => (current, true),
            Some(x) => (x, false),
        },
    }
}

/// What a node passes on: its own boxes, rotation and resources where it
/// writes them, else what it inherited; whether some reference cycles.
pub open spec fn inherit(objs: Seq<ObjectV>, d: Seq<(Seq<char>, ValueView)>, inh: InheritedV) -> (InheritedV, bool) {
    let b0 = inherit_box(objs, d, box_key(0), inh.boxes[0]);
    let b1 = inherit_box(objs, d, box_key(1), inh.boxes[1]);
    let b2 = inherit_box(objs, d, box_key(2), inh.boxes[2]);
    let b3 = inherit_box(objs, d, box_key(3), inh.boxes[3]);
    let b4 = inherit_box(objs, d, box_key(4), inh.boxes[4]);
    let (rotation, c2) = match dict_get(d, "Rotate"@) {
        None => (inh.rotation, false),
        Some(v) => match rotation_of(objs, v, objs.len()) {
            None => (inh.rotation, true),
            Some(x) => (x, false),
        },
    };
    let resources = match dict_get(d, "Resources"@) {
        Some(v) => Some(v),
        None => inh.resources,
    };
    (InheritedV { boxes: seq![b0.0, b1.0, b2.0, b3.0, b4.0], rotation, resources },
        b0.1 || b1.1 || b2.1 || b3.1 || b4.1 || c2)
}

// ---------------------------------------------------------------------------
// Links and counts
// ---------------------------------------------------------------------------

/// Links to every reference in a value, looking into arrays.
pub open spec fn value_links(v: ValueView, label: Seq<char>, kind: PageObjectLinkKind) -> Seq<LinkV>
    decreases v,
{
    match v {
        ValueView::Reference(r) => seq![(label, kind, r)],
        ValueView::Array(items) => items_links(items, label, kind),
        _ => seq![],
    }
}

pub open spec fn items_links(items: Seq<ValueView>, label: Seq<char>, kind: PageObjectLinkKind) -> Seq<LinkV>
    decreases items,
{
    if items.len() == 0 {
        seq![]
    } else {
        items_links(items.drop_last(), label, kind) + value_links(items.last(), label, kind)
    }
}

/// The number of references in a value, looking into arrays.
pub open spec fn reference_count(v: ValueView) -> nat
    decreases v,
{
    match v {
        ValueView::Reference(_) => 1,
        ValueView::Array(items) => items_reference_count(items),
        _ => 0,
    }
}

pub open spec fn items_reference_count(items: Seq<ValueView>) -> nat
    decreases items,
{
    if items.len() == 0 { 0 } else { items_reference_count(items.drop_last()) + reference_count(items.last()) }
}

pub open spec fn capped(n: nat) -> usize {
    if n > usize::MAX { usize::MAX } else { n as usize }
}

/// Links to the fonts a font dictionary references.
pub open spec fn font_links(fd: Seq<(Seq<char>, ValueView)>) -> Seq<LinkV>
    decreases fd.len(),
{
    if fd.len() == 0 {
        seq![]
    } else {
        font_links(fd.drop_last()) + match view_reference(fd.last().1) {
            Some(r) => seq![(seq!['/'] + fd.last().0 + " Font"@, PageObjectLinkKind::Font, r)],
            None => seq![],
        }
    }
}

pub open spec fn is_image(objs: Seq<ObjectV>, r: ObjectRef) -> bool {
    objects_get(objs, r) matches Some(o) && object_dictionary(o) matches Some(d) && name_under(d, "Subtype"@) == Some("Image"@)
}

/// Links to the XObjects an XObject dictionary references, images told apart.
pub open spec fn xobject_links(objs: Seq<ObjectV>, xd: Seq<(Seq<char>, ValueView)>) -> Seq<LinkV>
    decreases xd.len(),
{
    if xd.len() == 0 {
        seq![]
    } else {
        xobject_links(objs, xd.drop_last()) + match view_reference(xd.last().1) {
            Some(r) => if is_image(objs, r) {
                seq![(seq!['/'] + xd.last().0 + " Image"@, PageObjectLinkKind::Image, r)]
            } else {
                seq![(seq!['/'] + xd.last().0 + " XObject"@, PageObjectLinkKind::XObject, r)]
            },
            None => seq![],
        }
    }
}

pub open spec fn image_count(objs: Seq<ObjectV>, xd: Seq<(Seq<char>, ValueView)>) -> nat
    decreases xd.len(),
{
    if xd.len() == 0 {
        0
    } else {
        image_count(objs, xd.drop_last()) + match view_reference(xd.last().1) {
            Some(r) => if is_image(objs, r) { 1nat } else { 0nat },
            None => 0nat,
        }
    }
}

/// The font, XObject and image links of a resource dictionary, and the
/// numbers of fonts, XObjects and images.
pub open spec fn resource_links(objs: Seq<ObjectV>, res: ValueView) -> (Seq<LinkV>, usize, usize, usize) {
    match resolve_dict(objs, res) {
        None => (seq![], 0, 0, 0),
        Some(rd) => {
            let (fl, fonts): (Seq<LinkV>, usize) = match dict_get(rd, "Font"@) {
                Some(f) => match resolve_dict(objs, f) {
                    Some(fd) => (font_links(fd), fd.len() as usize),
                    None => (seq![], 0),
                },
                None => (seq![], 0),
            };
            let (xl, xobjects, images): (Seq<LinkV>, usize, usize) = match dict_get(rd, "XObject"@) {
                Some(x) => match resolve_dict(objs, x) {
                    Some(xd) => (xobject_links(objs, xd), xd.len() as usize, image_count(objs, xd) as usize),
                    None => (seq![], 0, 0),
                },
                None => (seq![], 0, 0),
            };
            (fl + xl, fonts, xobjects, images)
        },
    }
}

/// The links without repeats, each kept where it first occurs.
pub open spec fn deduped(s: Seq<LinkV>) -> Seq<LinkV>
    decreases s.len(),
{
    if s.len() == 0 {
        seq![]
    } else {
        deduped(s.drop_last()) + if s.drop_last().contains(s.last()) { seq![] } else { seq![s.last()] }
    }
}

pub open spec fn opt_links(d: Seq<(Seq<char>, ValueView)>, key: Seq<char>, label: Seq<char>, kind: PageObjectLinkKind) -> Seq<LinkV> {
    match dict_get(d, key) {
        Some(v) => value_links(v, label, kind),
        None => seq![],
    }
}

pub open spec fn opt_count(d: Seq<(Seq<char>, ValueView)>, key: Seq<char>) -> usize {
    match dict_get(d, key) {
        Some(v) => capped(reference_count(v)),
        None => 0,
    }
}

/// A box the page writes, or the inherited one; whether it cycles.
pub open spec fn page_box(objs: Seq<ObjectV>, d: Seq<(Seq<char>, ValueView)>, inh: InheritedV, i: int) -> (Option<BoxV>, bool) {
    match dict_get(d, box_key(i)) {
        None => (inh.boxes[i], false),
        Some(v) => match box_of(objs, v, objs.len()) {
            None => (inh.boxes[i], true),
            Some(b) => (if b is Some { b } else { inh.boxes[i] }, false),
        },
    }
}

/// A page's links before repeats are dropped: the page, its parent, its
/// contents, its annotations, its resources and what they name; and the
/// numbers of fonts, XObjects and images in its resources.
pub open spec fn page_links_spec(objs: Seq<ObjectV>, r: ObjectRef, d: Seq<(Seq<char>, ValueView)>, inh: InheritedV) -> (Seq<LinkV>, usize, usize, usize) {
    let parent: Seq<LinkV> = match dict_get(d, "Parent"@) {
        Some(v) => match view_reference(v) {
            Some(p) => seq![("Parent"@, PageObjectLinkKind::Parent, p)],
            None => seq![],
        },
        None => seq![],
    };
    let resources_value = match dict_get(d, "Resources"@) {
        Some(v) => Some(v),
        None => inh.resources,
    };
    let (res_links, fonts, xobjects, images): (Seq<LinkV>, usize, usize, usize) = match resources_value {
        Some(v) => {
            let (l, f, x, i) = resource_links(objs, v);
            ((match view_reference(v) {
                Some(rr) => seq![("Resources"@, PageObjectLinkKind::Resources, rr)],
                None => seq![],
            }) + l, f, x, i)
        },
        None => (seq![], 0, 0, 0),
    };
    (seq![("Page"@, PageObjectLinkKind::Page, r)] + parent
        + opt_links(d, "Contents"@, "Contents"@, PageObjectLinkKind::Contents)
        + opt_links(d, "Annots"@, "Annotation"@, PageObjectLinkKind::Annotation) + res_links,
        fonts, xobjects, images)
}

/// The summary of page `r`, numbered `n`, and whether a box or rotation
/// reference cycles.
pub open spec fn page_summary_spec(objs: Seq<ObjectV>, n: u32, r: ObjectRef, d: Seq<(Seq<char>, ValueView)>, inh: InheritedV) -> (PageSummaryV, bool) {
    let (links, fonts, xobjects, images) = page_links_spec(objs, r, d, inh);
    let b0 = page_box(objs, d, inh, 0);
    let b1 = page_box(objs, d, inh, 1);
    let b2 = page_box(objs, d, inh, 2);
    let b3 = page_box(objs, d, inh, 3);
    let b4 = page_box(objs, d, inh, 4);
    let (rotation, rc): (Option<i32>, bool) = match dict_get(d, "Rotate"@) {
        None => (inh.rotation, false),
        Some(v) => match rotation_of(objs, v, objs.len()) {
            None => (inh.rotation, true),
            Some(x) => (if x is Some { x } else { inh.rotation }, false),
        },
    };
    (PageSummaryV {
        page_number: n,
        reference: r,
        boxes: seq![b0.0, b1.0, b2.0, b3.0, b4.0],
        rotation,
        resources: PageResourceSummary {
            fonts,
            xobjects,
            images,
            contents: opt_count(d, "Contents"@),
            annotations: opt_count(d, "Annots"@),
        },
        links: deduped(links),
    }, b0.1 || b1.1 || b2.1 || b3.1 || b4.1 || rc)
}

/// A page's own box wins: when the page dictionary writes a box key as an
/// array of four numbers, the page's summary holds exactly that box,
/// whatever the page inherits; a box key the page does not write, or
/// writes as an array that is not four numbers, is the inherited one.
pub proof fn lemma_page_own_box_wins(
    objs: Seq<ObjectV>,
    n: u32,
    r: ObjectRef,
    d: Seq<(Seq<char>, ValueView)>,
    inh: InheritedV,
    i: int,
)
    requires
        0 <= i < 5,
    ensures
        dict_get(d, box_key(i)) matches Some(ValueView::Array(items)) ==> (items.len() == 4
            && items[0] is Number && items[1] is Number && items[2] is Number && items[3] is Number
            ==> page_summary_spec(objs, n, r, d, inh).0.boxes[i]
                == Some((items[0]->Number_0, items[1]->Number_0, items[2]->Number_0, items[3]->Number_0))),
        dict_get(d, box_key(i)) matches Some(ValueView::Array(items)) ==> (!(items.len() == 4
            && items[0] is Number && items[1] is Number && items[2] is Number && items[3] is Number)
            ==> page_summary_spec(objs, n, r, d, inh).0.boxes[i] == inh.boxes[i]),
        dict_get(d, box_key(i)) is None ==> page_summary_spec(objs, n, r, d, inh).0.boxes[i] == inh.boxes[i],
{
    let bx = page_summary_spec(objs, n, r, d, inh).0.boxes;
    assert(bx[i] == page_box(objs, d, inh, i).0);
}

// ---------------------------------------------------------------------------
// The walk
// ---------------------------------------------------------------------------

/// Pages found so far, nodes visited (sorted), and whether some box or
/// rotation reference cycles.
pub type IndexState = (Seq<PageSummaryV>, Seq<ObjectRef>, bool);

/// Visiting page tree node `r`: a node seen before, a missing node, or one
/// without a dictionary adds nothing; a `/Pages` node or one without `/Type`
/// visits its referenced `/Kids` in order; a `/Page` node adds its summary.
/// `fuel` bounds the depth: each level visits a new object, so one more
/// than the number of objects is never used up.
pub open spec fn index_walk(objs: Seq<ObjectV>, fuel: nat, r: ObjectRef, inh: InheritedV, st: IndexState) -> IndexState
    decreases fuel, 0nat,
{
    let (pages, visited, cyc) = st;
    if visited.contains(r) {
        st
    } else {
        let vis = ref_insert(visited, r);
        match objects_get(objs, r) {
            None => (pages, vis, cyc),
            Some(o) => match object_dictionary(o) {
                None => (pages, vis, cyc),
                Some(d) => {
                    let (inh2, c2) = inherit(objs, d, inh);
                    let ty = name_under(d, "Type"@);
                    if ty == Some("Pages"@) || ty is None {
                        match dict_get(d, "Kids"@) {
                            Some(ValueView::Array(kids)) => if fuel == 0 {
                                (pages, vis, cyc || c2)
                            } else {
                                index_kids(objs, (fuel - 1) as nat, kids, inh2, (pages, vis, cyc || c2))
                            },
                            _ => (pages, vis, cyc || c2),
                        }
                    } else if ty == Some("Page"@) {
                        let (p, c3) = page_summary_spec(objs, (pages.len() + 1) as u32, r, d, inh2);
                        (pages.push(p), vis, cyc || c2 || c3)
                    } else {
                        (pages, vis, cyc || c2)
                    }
                },
            },
        }
    }
}

pub open spec fn index_kids(objs: Seq<ObjectV>, fuel: nat, kids: Seq<ValueView>, inh: InheritedV, st: IndexState) -> IndexState
    decreases fuel, kids.len() + 1,
{
    if kids.len() == 0 {
        st
    } else {
        let next = match kids[0] {
            ValueView::Reference(k) => index_walk(objs, fuel, k, inh, st),
            _ => st,
        };
        index_kids(objs, fuel, kids.drop_first(), inh, next)
    }
}

/// The page index of a document and whether some box or rotation reference
/// cycles: the pages under the catalog's `/Pages`, none without one.
pub open spec fn page_index_walk(pdf: ParsedPdf) -> (Seq<PageSummaryV>, bool) {
    let objs = object_views(pdf.objects@);
    let start = match pdf.metadata.root {
        Some(root) => match objects_get(objs, root) {
            Some(o) => match object_dictionary(o) {
                Some(d) => match dict_get(d, "Pages"@) {
                    Some(p) => view_reference(p),
                    None => None,
                },
                None => None,
            },
            None => None,
        },
        None => None,
    };
    match start {
        None => (seq![], false),
        Some(p) => {
            let st = index_walk(objs, objs.len() + 1, p, no_inheritance(), (seq![], seq![], false));
            (st.0, st.2)
        },
    }
}


// ---------------------------------------------------------------------------
// Building the index
// ---------------------------------------------------------------------------

pub(crate) fn copy_box(b: &PageBoxNumbers) -> (r: PageBoxNumbers)
    ensures
        r@ == b@,
{
    PageBoxNumbers {
        lower_left_x: owned(b.lower_left_x.as_str()),
        lower_left_y: owned(b.lower_left_y.as_str()),
        upper_right_x: owned(b.upper_right_x.as_str()),
        upper_right_y: owned(b.upper_right_y.as_str()),
    }
}

pub(crate) fn copy_opt_box(b: &Option<PageBoxNumbers>) -> (r: Option<PageBoxNumbers>)
    ensures
        opt_box(r) == opt_box(*b),
{
    match b {
        Some(x) => Some(copy_box(x)),
        None => None,
    }
}

pub(crate) fn page_box_from_array(items: &Vec<PdfValue>) -> (r: Option<PageBoxNumbers>)
    ensures
        opt_box(r) == box_from_items(value_views(items@)),
{
    if items.len() != 4 {
        return None;
    }
    match (&items[0], &items[1], &items[2], &items[3]) {
        (PdfValue::Number(a), PdfValue::Number(b), PdfValue::Number(c), PdfValue::Number(d)) => Some(PageBoxNumbers {
            lower_left_x: owned(a.text.as_str()),
            lower_left_y: owned(b.text.as_str()),
            upper_right_x: owned(c.text.as_str()),
            upper_right_y: owned(d.text.as_str()),
        }),
        _ => None,
    }
}

/// The box a value gives, and whether its references cycle.
fn page_box_from_value(pdf: &ParsedPdf, value: &PdfValue) -> (r: (Option<PageBoxNumbers>, bool))
    requires
        pdf.wf(),
    ensures
        match box_of(object_views(pdf.objects@), value@, pdf.objects@.len() as nat) {
            None => r.1,
            Some(b) => !r.1 && opt_box(r.0) == b,
        },
{
    let ghost objs = object_views(pdf.objects@);
    let mut current = value;
    let mut steps: usize = 0;
    loop
        invariant
            pdf.wf(),
            objs == object_views(pdf.objects@),
            steps <= pdf.objects@.len(),
            box_of(objs, value@, objs.len()) == box_of(objs, current@, (objs.len() - steps) as nat),
        decreases pdf.objects@.len() - steps,
    {
        match current {
            PdfValue::Array(items) => return (page_box_from_array(items), false),
            PdfValue::Reference(reference) => match pdf.object(*reference) {
                None => return (None, false),
                Some(o) => {
                    if steps == pdf.objects.len() {
                        return (None, true);
                    }
                    steps = steps + 1;
                    current = &o.value;
                },
            },
            _ => return (None, false),
        }
    }
}

/// The rotation a value gives, and whether its references cycle.
fn rotation_from_value(pdf: &ParsedPdf, value: &PdfValue) -> (r: (Option<i32>, bool))
    requires
        pdf.wf(),
    ensures
        match rotation_of(object_views(pdf.objects@), value@, pdf.objects@.len() as nat) {
            None => r.1,
            Some(x) => !r.1 && r.0 == x,
        },
{
    let ghost objs = object_views(pdf.objects@);
    let mut current = value;
    let mut steps: usize = 0;
    loop
        invariant
            pdf.wf(),
            objs == object_views(pdf.objects@),
            steps <= pdf.objects@.len(),
            rotation_of(objs, value@, objs.len()) == rotation_of(objs, current@, (objs.len() - steps) as nat),
        decreases pdf.objects@.len() - steps,
    {
        match current {
            PdfValue::Number(n) => return (n.as_i32(), false),
            PdfValue::Reference(reference) => match pdf.object(*reference) {
                None => return (None, false),
                Some(o) => {
                    if steps == pdf.objects.len() {
                        return (None, true);
                    }
                    steps = steps + 1;
                    current = &o.value;
                },
            },
            _ => return (None, false),
        }
    }
}

/// What a page inherits from its ancestors.
pub struct InheritedPageAttributes {
    pub media_box: Option<PageBoxNumbers>,
    pub crop_box: Option<PageBoxNumbers>,
    pub bleed_box: Option<PageBoxNumbers>,
    pub trim_box: Option<PageBoxNumbers>,
    pub art_box: Option<PageBoxNumbers>,
    pub rotation: Option<i32>,
    pub resources: Option<PdfValue>,
}

impl View for InheritedPageAttributes {
    type V = InheritedV;

    open spec fn view(&self) -> InheritedV {
        InheritedV {
            boxes: seq![opt_box(self.media_box), opt_box(self.crop_box), opt_box(self.bleed_box),
                opt_box(self.trim_box), opt_box(self.art_box)],
            rotation: self.rotation,
            resources: match self.resources { Some(v) => Some(v@), None => None },
        }
    }
}

fn inherit_box_exec(pdf: &ParsedPdf, d: &PdfDictionary, key: &str, current: &Option<PageBoxNumbers>) -> (r: (Option<PageBoxNumbers>, bool))
    requires
        pdf.wf(),
    ensures
        (opt_box(r.0), r.1) == inherit_box(object_views(pdf.objects@), d@, key@, opt_box(*current)),
{
    match d.get(key) {
        None => (copy_opt_box(current), false),
        Some(v) => {
            let (b, cycle) = page_box_from_value(pdf, v);
            if cycle { (copy_opt_box(current), true) } else { (b, false) }
        },
    }
}

fn inherit_attributes(pdf: &ParsedPdf, d: &PdfDictionary, inherited: &InheritedPageAttributes) -> (r: (InheritedPageAttributes, bool))
    requires
        pdf.wf(),
    ensures
        (r.0@, r.1) == inherit(object_views(pdf.objects@), d@, inherited@),
{
    proof {
        reveal_strlit("MediaBox");
        reveal_strlit("CropBox");
        reveal_strlit("BleedBox");
        reveal_strlit("TrimBox");
        reveal_strlit("ArtBox");
    }
    let (media_box, c0) = inherit_box_exec(pdf, d, "MediaBox", &inherited.media_box);
    let (crop_box, c1) = inherit_box_exec(pdf, d, "CropBox", &inherited.crop_box);
    let (bleed_box, c2) = inherit_box_exec(pdf, d, "BleedBox", &inherited.bleed_box);
    let (trim_box, c3) = inherit_box_exec(pdf, d, "TrimBox", &inherited.trim_box);
    let (art_box, c4) = inherit_box_exec(pdf, d, "ArtBox", &inherited.art_box);
    let (rotation, c5) = match d.get("Rotate") {
        None => (inherited.rotation, false),
        Some(v) => {
            let (x, cycle) = rotation_from_value(pdf, v);
            if cycle { (inherited.rotation, true) } else { (x, false) }
        },
    };
    let resources = match d.get("Resources") {
        Some(v) => Some(v.deep_copy()),
        None => match &inherited.resources {
            Some(v) => Some(v.deep_copy()),
            None => None,
        },
    };
    let r = InheritedPageAttributes { media_box, crop_box, bleed_box, trim_box, art_box, rotation, resources };
    (r, c0 || c1 || c2 || c3 || c4 || c5)
}

pub(crate) fn push_link(links: &mut Vec<PageObjectLink>, label: String, kind: PageObjectLinkKind, reference: ObjectRef)
    ensures
        link_views(final(links)@) == link_views(old(links)@).push((label@, kind, reference)),
{
    let ghost before = link_views(links@);
    links.push(PageObjectLink { label, kind, reference });
    assert(link_views(links@) =~= before.push((label@, kind, reference)));
}

pub(crate) fn collect_links(value: &PdfValue, label: &str, kind: PageObjectLinkKind, links: &mut Vec<PageObjectLink>)
    ensures
        link_views(final(links)@) == link_views(old(links)@) + value_links(value@, label@, kind),
    decreases value,
{
    let ghost start = link_views(links@);
    match value {
        PdfValue::Reference(r) => {
            push_link(links, owned(label), kind, *r);
        },
        PdfValue::Array(values) => {
            let ghost all = value_views(values@);
            let mut i: usize = 0;
            assert(all.take(0) =~= Seq::<ValueView>::empty());
            while i < values.len()
                invariant
                    *value == PdfValue::Array(*values),
                    i <= values@.len(),
                    all == value_views(values@),
                    all.len() == values@.len(),
                    link_views(links@) == start + items_links(all.take(i as int), label@, kind),
                decreases values@.len() - i,
            {
                proof {
                    assert(decreases_to!(*value => value->Array_0));
                    assert(decreases_to!(*values => values@));
                    assert(decreases_to!(values@ => values@[i as int]));
                }
                assert(all.take(i + 1).drop_last() =~= all.take(i as int));
                assert(all.take(i + 1).last() == values@[i as int]@);
                collect_links(&values[i], label, kind, links);
                assert(link_views(links@) =~= start + items_links(all.take(i + 1), label@, kind));
                i = i + 1;
            }
            assert(all.take(values@.len() as int) =~= all);
        },
        _ => {
            assert(link_views(links@) =~= start + seq![]);
        },
    }
}

pub(crate) fn count_references(value: &PdfValue) -> (n: usize)
    ensures
        n == capped(reference_count(value@)),
    decreases value,
{
    match value {
        PdfValue::Reference(_) => 1,
        PdfValue::Array(values) => {
            let ghost all = value_views(values@);
            let mut total: usize = 0;
            let mut i: usize = 0;
            assert(all.take(0) =~= Seq::<ValueView>::empty());
            while i < values.len()
                invariant
                    *value == PdfValue::Array(*values),
                    i <= values@.len(),
                    all == value_views(values@),
                    all.len() == values@.len(),
                    total == capped(items_reference_count(all.take(i as int))),
                decreases values@.len() - i,
            {
                proof {
                    assert(decreases_to!(*value => value->Array_0));
                    assert(decreases_to!(*values => values@));
                    assert(decreases_to!(values@ => values@[i as int]));
                }
                assert(all.take(i + 1).drop_last() =~= all.take(i as int));
                assert(all.take(i + 1).last() == values@[i as int]@);
                let c = count_references(&values[i]);
                total = total.saturating_add(c);
                i = i + 1;
            }
            assert(all.take(values@.len() as int) =~= all);
            total
        },
        _ => 0,
    }
}

fn resolve_dictionary<'a>(pdf: &'a ParsedPdf, value: &'a PdfValue) -> (r: Option<&'a PdfDictionary>)
    requires
        pdf.wf(),
    ensures
        match resolve_dict(object_views(pdf.objects@), value@) {
            Some(d) => r matches Some(x) && x@ == d,
            None => r is None,
        },
{
    match value {
        PdfValue::Dictionary(d) => Some(d),
        PdfValue::Reference(reference) => match pdf.object(*reference) {
            Some(o) => o.dictionary(),
            None => None,
        },
        _ => None,
    }
}

fn image_target(pdf: &ParsedPdf, reference: ObjectRef) -> (b: bool)
    requires
        pdf.wf(),
    ensures
        b == is_image(object_views(pdf.objects@), reference),
{
    let object = match pdf.object(reference) {
        Some(o) => o,
        None => return false,
    };
    let dictionary = match object.dictionary() {
        Some(d) => d,
        None => return false,
    };
    let subtype = match dictionary.get("Subtype") {
        Some(v) => v.as_name(),
        None => None,
    };
    match subtype {
        Some(s) => str_eq(s, "Image"),
        None => false,
    }
}

pub(crate) fn name_label(name: &str, suffix: &str) -> (s: String)
    ensures
        s@ == seq!['/'] + name@ + suffix@,
{
    let mut s = String::new();
    crate::text::push_char(&mut s, '/');
    push_str(&mut s, name);
    push_str(&mut s, suffix);
    s
}

/// Adds the font and XObject links of a resource dictionary; returns the
/// numbers of fonts, XObjects and images.
fn add_resource_links(pdf: &ParsedPdf, value: &PdfValue, links: &mut Vec<PageObjectLink>) -> (r: (usize, usize, usize))
    requires
        pdf.wf(),
    ensures
        ({
            let (l, f, x, i) = resource_links(object_views(pdf.objects@), value@);
            link_views(final(links)@) == link_views(old(links)@) + l && r == (f, x, i)
        }),
{
    let ghost objs = object_views(pdf.objects@);
    let ghost start = link_views(links@);
    let rd = match resolve_dictionary(pdf, value) {
        Some(d) => d,
        None => {
            assert(link_views(links@) =~= start + seq![]);
            return (0, 0, 0);
        },
    };
    let mut fonts: usize = 0;
    let ghost fl: Seq<LinkV> = seq![];
    match rd.get("Font") {
        Some(f) => match resolve_dictionary(pdf, f) {
            Some(fd) => {
                fonts = fd.len();
                let ghost all = fd@;
                let mut i: usize = 0;
                assert(all.take(0) =~= Seq::<(Seq<char>, ValueView)>::empty());
                while i < fd.entries.len()
                    invariant
                        i <= fd.entries@.len(),
                        all == fd@,
                        all.len() == fd.entries@.len(),
                        link_views(links@) == start + font_links(all.take(i as int)),
                    decreases fd.entries@.len() - i,
                {
                    proof { crate::value_views::lemma_entry_views(fd.entries@); }
                    assert(all.take(i + 1).drop_last() =~= all.take(i as int));
                    assert(all.take(i + 1).last() == (fd.entries@[i as int].0@, fd.entries@[i as int].1@));
                    match fd.entries[i].1.as_reference() {
                        Some(r) => {
                            let label = name_label(fd.entries[i].0.as_str(), " Font");
                            push_link(links, label, PageObjectLinkKind::Font, r);
                        },
                        None => {},
                    }
                    assert(link_views(links@) =~= start + font_links(all.take(i + 1)));
                    i = i + 1;
                }
                assert(all.take(fd.entries@.len() as int) =~= all);
                proof { fl = font_links(all); }
            },
            None => {},
        },
        None => {},
    }
    assert(link_views(links@) =~= start + fl);
    let ghost mid = link_views(links@);
    let mut xobjects: usize = 0;
    let mut images: usize = 0;
    let ghost xl: Seq<LinkV> = seq![];
    match rd.get("XObject") {
        Some(x) => match resolve_dictionary(pdf, x) {
            Some(xd) => {
                xobjects = xd.len();
                let ghost all = xd@;
                let mut i: usize = 0;
                assert(all.take(0) =~= Seq::<(Seq<char>, ValueView)>::empty());
                while i < xd.entries.len()
                    invariant
                        pdf.wf(),
                        objs == object_views(pdf.objects@),
                        i <= xd.entries@.len(),
                        all == xd@,
                        all.len() == xd.entries@.len(),
                        link_views(links@) == mid + xobject_links(objs, all.take(i as int)),
                        images == image_count(objs, all.take(i as int)),
                        images <= i,
                    decreases xd.entries@.len() - i,
                {
                    proof { crate::value_views::lemma_entry_views(xd.entries@); }
                    assert(all.take(i + 1).drop_last() =~= all.take(i as int));
                    assert(all.take(i + 1).last() == (xd.entries@[i as int].0@, xd.entries@[i as int].1@));
                    match xd.entries[i].1.as_reference() {
                        Some(r) => {
                            if image_target(pdf, r) {
                                images = images + 1;
                                let label = name_label(xd.entries[i].0.as_str(), " Image");
                                push_link(links, label, PageObjectLinkKind::Image, r);
                            } else {
                                let label = name_label(xd.entries[i].0.as_str(), " XObject");
                                push_link(links, label, PageObjectLinkKind::XObject, r);
                            }
                        },
                        None => {},
                    }
                    assert(link_views(links@) =~= mid + xobject_links(objs, all.take(i + 1)));
                    i = i + 1;
                }
                assert(all.take(xd.entries@.len() as int) =~= all);
                proof { xl = xobject_links(objs, all); }
            },
            None => {},
        },
        None => {},
    }
    assert(link_views(links@) =~= start + (fl + xl));
    (fonts, xobjects, images)
}

proof fn lemma_deduped_contains(s: Seq<LinkV>, x: LinkV)
    ensures
        deduped(s).contains(x) <==> s.contains(x),
    decreases s.len(),
{
    if s.len() > 0 {
        let p = s.drop_last();
        lemma_deduped_contains(p, x);
        let dp = deduped(p);
        let tail: Seq<LinkV> = if p.contains(s.last()) { seq![] } else { seq![s.last()] };
        assert(deduped(s) == dp + tail);
        if s.contains(x) {
            let k = choose|k: int| 0 <= k < s.len() && s[k] == x;
            if k < p.len() {
                assert(p[k] == x);
                let j = choose|j: int| 0 <= j < dp.len() && dp[j] == x;
                assert((dp + tail)[j] == x);
            } else if p.contains(x) {
                let j = choose|j: int| 0 <= j < dp.len() && dp[j] == x;
                assert((dp + tail)[j] == x);
            } else {
                assert((dp + tail)[dp.len() as int] == x);
            }
        }
        if deduped(s).contains(x) {
            let k = choose|k: int| 0 <= k < (dp + tail).len() && (dp + tail)[k] == x;
            if k < dp.len() {
                assert(dp[k] == x);
                let j = choose|j: int| 0 <= j < p.len() && p[j] == x;
                assert(s[j] == x);
            } else {
                assert(s[s.len() - 1] == x);
            }
        }
    }
}

fn same_link(a: &PageObjectLink, b: &PageObjectLink) -> (r: bool)
    ensures
        r == (a@ == b@),
{
    a.kind == b.kind && a.reference == b.reference && str_eq(a.label.as_str(), b.label.as_str())
}

pub(crate) fn dedupe_links(links: Vec<PageObjectLink>) -> (r: Vec<PageObjectLink>)
    ensures
        link_views(r@) == deduped(link_views(links@)),
{
    let ghost lv = link_views(links@);
    let mut out: Vec<PageObjectLink> = Vec::new();
    let mut i: usize = 0;
    assert(link_views(out@) =~= Seq::<LinkV>::empty());
    assert(lv.take(0) =~= Seq::<LinkV>::empty());
    while i < links.len()
        invariant
            i <= links@.len(),
            lv == link_views(links@),
            lv.len() == links@.len(),
            link_views(out@) == deduped(lv.take(i as int)),
        decreases links@.len() - i,
    {
        assert(lv.take(i + 1).drop_last() =~= lv.take(i as int));
        assert(lv.take(i + 1).last() == links@[i as int]@);
        let mut seen = false;
        let mut k: usize = 0;
        while k < out.len()
            invariant
                k <= out@.len(),
                !seen ==> forall|j: int| 0 <= j < k ==> link_views(out@)[j] != links@[i as int]@,
                seen ==> link_views(out@).contains(links@[i as int]@),
                i < links@.len(),
            decreases out@.len() - k,
        {
            if same_link(&out[k], &links[i]) {
                assert(link_views(out@)[k as int] == links@[i as int]@);
                seen = true;
            }
            k = k + 1;
        }
        proof {
            lemma_deduped_contains(lv.take(i as int), links@[i as int]@);
        }
        if !seen {
            let ghost before = link_views(out@);
            let l = &links[i];
            push_link(&mut out, owned(l.label.as_str()), l.kind, l.reference);
            assert(link_views(out@) =~= deduped(lv.take(i + 1)));
        } else {
            assert(link_views(out@) =~= deduped(lv.take(i + 1)));
        }
        i = i + 1;
    }
    assert(lv.take(links@.len() as int) =~= lv);
    out
}


fn page_box_exec(pdf: &ParsedPdf, d: &PdfDictionary, key: &str, inherited: &Option<PageBoxNumbers>) -> (r: (Option<PageBoxNumbers>, bool))
    requires
        pdf.wf(),
    ensures
        ({
            let objs = object_views(pdf.objects@);
            let expected: (Option<BoxV>, bool) = match dict_get(d@, key@) {
                None => (opt_box(*inherited), false),
                Some(v) => match box_of(objs, v, objs.len()) {
                    None => (opt_box(*inherited), true),
                    Some(b) => (if b is Some { b } else { opt_box(*inherited) }, false),
                },
            };
            (opt_box(r.0), r.1) == expected
        }),
{
    match d.get(key) {
        None => (copy_opt_box(inherited), false),
        Some(v) => {
            let (b, cycle) = page_box_from_value(pdf, v);
            if cycle {
                (copy_opt_box(inherited), true)
            } else if b.is_some() {
                (b, false)
            } else {
                (copy_opt_box(inherited), false)
            }
        },
    }
}

fn page_links(
    pdf: &ParsedPdf,
    reference: ObjectRef,
    d: &PdfDictionary,
    inherited: &InheritedPageAttributes,
) -> (r: (Vec<PageObjectLink>, usize, usize, usize, usize, usize))
    requires
        pdf.wf(),
    ensures
        ({
            let (l, f, x, i) = page_links_spec(object_views(pdf.objects@), reference, d@, inherited@);
            &&& link_views(r.0@) == l
            &&& r.1 == f && r.2 == x && r.3 == i
            &&& r.4 == opt_count(d@, "Contents"@)
            &&& r.5 == opt_count(d@, "Annots"@)
        }),
{
    let ghost objs = object_views(pdf.objects@);
    let ghost dv = d@;
    let mut links: Vec<PageObjectLink> = Vec::new();
    assert(link_views(links@) =~= Seq::<LinkV>::empty());
    push_link(&mut links, owned("Page"), PageObjectLinkKind::Page, reference);
    let ghost s0 = link_views(links@);
    let ghost parent: Seq<LinkV> = match dict_get(dv, "Parent"@) {
        Some(v) => match view_reference(v) {
            Some(p) => seq![("Parent"@, PageObjectLinkKind::Parent, p)],
            None => seq![],
        },
        None => seq![],
    };
    match d.get("Parent") {
        Some(v) => match v.as_reference() {
            Some(p) => push_link(&mut links, owned("Parent"), PageObjectLinkKind::Parent, p),
            None => {},
        },
        None => {},
    }
    assert(link_views(links@) =~= s0 + parent);
    let ghost s1 = link_views(links@);
    let mut contents: usize = 0;
    match d.get("Contents") {
        Some(c) => {
            collect_links(c, "Contents", PageObjectLinkKind::Contents, &mut links);
            contents = count_references(c);
        },
        None => {},
    }
    assert(link_views(links@) =~= s1 + opt_links(dv, "Contents"@, "Contents"@, PageObjectLinkKind::Contents));
    let ghost s2 = link_views(links@);
    let mut annotations: usize = 0;
    match d.get("Annots") {
        Some(a) => {
            collect_links(a, "Annotation", PageObjectLinkKind::Annotation, &mut links);
            annotations = count_references(a);
        },
        None => {},
    }
    assert(link_views(links@) =~= s2 + opt_links(dv, "Annots"@, "Annotation"@, PageObjectLinkKind::Annotation));
    let ghost s3 = link_views(links@);
    let resources_value = match d.get("Resources") {
        Some(v) => Some(v),
        None => inherited.resources.as_ref(),
    };
    let ghost rv = match dict_get(dv, "Resources"@) {
        Some(v) => Some(v),
        None => inherited@.resources,
    };
    assert(match resources_value { Some(v) => rv == Some(v@), None => rv is None });
    let (fonts, xobjects, images) = match resources_value {
        Some(v) => {
            match v.as_reference() {
                Some(rr) => push_link(&mut links, owned("Resources"), PageObjectLinkKind::Resources, rr),
                None => {},
            }
            add_resource_links(pdf, v, &mut links)
        },
        None => (0, 0, 0),
    };
    let ghost res_links: Seq<LinkV> = match rv {
        Some(v) => (match view_reference(v) {
            Some(rr) => seq![("Resources"@, PageObjectLinkKind::Resources, rr)],
            None => seq![],
        }) + resource_links(objs, v).0,
        None => seq![],
    };
    assert(link_views(links@) =~= s3 + res_links);
    assert(link_views(links@) =~= seq![("Page"@, PageObjectLinkKind::Page, reference)] + parent
        + opt_links(dv, "Contents"@, "Contents"@, PageObjectLinkKind::Contents)
        + opt_links(dv, "Annots"@, "Annotation"@, PageObjectLinkKind::Annotation) + res_links);
    (links, fonts, xobjects, images, contents, annotations)
}

fn page_summary(
    pdf: &ParsedPdf,
    page_number: u32,
    reference: ObjectRef,
    d: &PdfDictionary,
    inherited: &InheritedPageAttributes,
) -> (r: (PageSummary, bool))
    requires
        pdf.wf(),
    ensures
        (r.0@, r.1) == page_summary_spec(object_views(pdf.objects@), page_number, reference, d@, inherited@),
{
    let ghost objs = object_views(pdf.objects@);
    let (links, fonts, xobjects, images, contents, annotations) = page_links(pdf, reference, d, inherited);
    let links = dedupe_links(links);
    let (media_box, c0) = page_box_exec(pdf, d, "MediaBox", &inherited.media_box);
    let (crop_box, c1) = page_box_exec(pdf, d, "CropBox", &inherited.crop_box);
    let (bleed_box, c2) = page_box_exec(pdf, d, "BleedBox", &inherited.bleed_box);
    let (trim_box, c3) = page_box_exec(pdf, d, "TrimBox", &inherited.trim_box);
    let (art_box, c4) = page_box_exec(pdf, d, "ArtBox", &inherited.art_box);
    let (rotation, c5) = match d.get("Rotate") {
        None => (inherited.rotation, false),
        Some(v) => {
            let (x, cycle) = rotation_from_value(pdf, v);
            if cycle {
                (inherited.rotation, true)
            } else if x.is_some() {
                (x, false)
            } else {
                (inherited.rotation, false)
            }
        },
    };
    let summary = PageSummary {
        page_number,
        reference,
        media_box,
        crop_box,
        bleed_box,
        trim_box,
        art_box,
        rotation,
        resources: PageResourceSummary { fonts, xobjects, images, contents, annotations },
        links,
    };
    let ghost expected = page_summary_spec(objs, page_number, reference, d@, inherited@);
    assert(summary@.boxes =~= expected.0.boxes);
    assert(summary@.links =~= expected.0.links);
    (summary, c0 || c1 || c2 || c3 || c4 || c5)
}

fn push_page(pages: &mut Vec<PageSummary>, p: PageSummary)
    ensures
        page_views(final(pages)@) == page_views(old(pages)@).push(p@),
        final(pages)@.len() == old(pages)@.len() + 1,
{
    let ghost before = page_views(pages@);
    pages.push(p);
    assert(page_views(pages@) =~= before.push(p@));
}

fn walk_page_node(
    pdf: &ParsedPdf,
    reference: ObjectRef,
    inherited: &InheritedPageAttributes,
    visited: &mut Vec<ObjectRef>,
    pages: &mut Vec<PageSummary>,
    cycle: &mut bool,
    Ghost(fuel): Ghost<nat>,
)
    requires
        pdf.wf(),
        refs_increasing(old(visited)@),
        fuel > unvisited(object_views(pdf.objects@), old(visited)@),
        old(pages)@.len() + unvisited(object_views(pdf.objects@), old(visited)@) <= pdf.objects@.len(),
        pdf.objects@.len() <= u32::MAX,
    ensures
        refs_increasing(final(visited)@),
        forall|x: ObjectRef| old(visited)@.contains(x) ==> final(visited)@.contains(x),
        final(pages)@.len() + unvisited(object_views(pdf.objects@), final(visited)@) <= pdf.objects@.len(),
        (page_views(final(pages)@), final(visited)@, *final(cycle))
            == index_walk(object_views(pdf.objects@), fuel, reference, inherited@,
                (page_views(old(pages)@), old(visited)@, *old(cycle))),
    decreases fuel,
{
    let ghost objs = object_views(pdf.objects@);
    let ghost v0 = visited@;
    if contains_ref(visited, reference) {
        return;
    }
    insert_ref(visited, reference);
    proof {
        lemma_ref_insert_contains(v0, reference);
        lemma_unvisited_grow(objs, v0, visited@);
    }
    let object = match pdf.object(reference) {
        Some(o) => o,
        None => return,
    };
    proof {
        lemma_unvisited_visit(objs, v0, visited@, reference);
    }
    let dictionary = match object.dictionary() {
        Some(d) => d,
        None => return,
    };
    let (state, c2) = inherit_attributes(pdf, dictionary, inherited);
    if c2 {
        *cycle = true;
    }
    let node_type = match dictionary.get("Type") {
        Some(v) => v.as_name(),
        None => None,
    };
    let ghost ty = name_under(dictionary@, "Type"@);
    assert(match node_type { Some(t) => ty == Some(t@), None => ty is None });
    let is_page = match node_type { Some(t) => str_eq(t, "Page"), None => false };
    let is_pages = match node_type { Some(t) => str_eq(t, "Pages"), None => true };
    if is_pages {
        let kids = match dictionary.get("Kids") {
            Some(k) => k.as_array(),
            None => None,
        };
        let kids = match kids {
            Some(k) => k,
            None => return,
        };
        let ghost kv = value_views(kids@);
        let ghost f1 = (fuel - 1) as nat;
        let ghost goal = index_kids(objs, f1, kv, state@, (page_views(pages@), visited@, *cycle));
        let mut i: usize = 0;
        assert(kv.skip(0) =~= kv);
        while i < kids.len()
            invariant
                pdf.wf(),
                objs == object_views(pdf.objects@),
                pdf.objects@.len() <= u32::MAX,
                i <= kids@.len(),
                kv == value_views(kids@),
                kv.len() == kids@.len(),
                fuel > 0,
                f1 == fuel - 1,
                refs_increasing(visited@),
                forall|x: ObjectRef| v0.contains(x) ==> visited@.contains(x),
                f1 > unvisited(objs, visited@),
                pages@.len() + unvisited(objs, visited@) <= pdf.objects@.len(),
                goal == index_kids(objs, f1, kv.skip(i as int), state@, (page_views(pages@), visited@, *cycle)),
            decreases kids@.len() - i,
        {
            assert(kv.skip(i as int)[0] == kids@[i as int]@);
            assert(kv.skip(i as int).drop_first() =~= kv.skip(i + 1));
            let ghost vb = visited@;
            match kids[i].as_reference() {
                Some(kid) => {
                    walk_page_node(pdf, kid, &state, visited, pages, cycle, Ghost(f1));
                    proof {
                        lemma_unvisited_grow(objs, vb, visited@);
                    }
                },
                None => {},
            }
            i = i + 1;
        }
        assert(kv.skip(kids@.len() as int) =~= Seq::<ValueView>::empty());
    } else if is_page {
        let page_number = (pages.len() + 1) as u32;
        let (summary, c3) = page_summary(pdf, page_number, reference, dictionary, &state);
        push_page(pages, summary);
        if c3 {
            *cycle = true;
        }
    }
}

/// The pages of a document in page tree order. Defined where no box or
/// rotation value leads into a cycle of references.
pub fn build_page_index(pdf: &ParsedPdf) -> (index: PageIndex)
    requires
        pdf.wf(),
        pdf.objects@.len() <= u32::MAX,
        !page_index_walk(*pdf).1,
    ensures
        page_views(index.pages@) == page_index_walk(*pdf).0,
{
    let (index, _) = page_index_with_cycles(pdf);
    index
}

/// The pages of a document in page tree order; `None` where a box or
/// rotation value leads into a cycle of references.
pub fn build_page_index_checked(pdf: &ParsedPdf) -> (r: Option<PageIndex>)
    requires
        pdf.wf(),
        pdf.objects@.len() <= u32::MAX,
    ensures
        r is None <==> page_index_walk(*pdf).1,
        r matches Some(index) ==> page_views(index.pages@) == page_index_walk(*pdf).0,
{
    let (index, cycle) = page_index_with_cycles(pdf);
    if cycle { None } else { Some(index) }
}

fn page_index_with_cycles(pdf: &ParsedPdf) -> (r: (PageIndex, bool))
    requires
        pdf.wf(),
        pdf.objects@.len() <= u32::MAX,
    ensures
        page_views(r.0.pages@) == page_index_walk(*pdf).0,
        r.1 == page_index_walk(*pdf).1,
{
    let ghost objs = object_views(pdf.objects@);
    let mut pages: Vec<PageSummary> = Vec::new();
    assert(page_views(pages@) =~= Seq::<PageSummaryV>::empty());
    let root = match pdf.root_catalog() {
        Some(o) => o,
        None => return (PageIndex { pages }, false),
    };
    let pages_reference = match root.dictionary() {
        Some(d) => match d.get("Pages") {
            Some(p) => p.as_reference(),
            None => None,
        },
        None => None,
    };
    let pages_reference = match pages_reference {
        Some(p) => p,
        None => return (PageIndex { pages }, false),
    };
    let mut visited: Vec<ObjectRef> = Vec::new();
    let mut cycle = false;
    let inherited = InheritedPageAttributes {
        media_box: None,
        crop_box: None,
        bleed_box: None,
        trim_box: None,
        art_box: None,
        rotation: None,
        resources: None,
    };
    proof {
        lemma_unvisited_bound(objs, visited@);
        assert(visited@ =~= Seq::<ObjectRef>::empty());
        assert(inherited@ =~= no_inheritance());
    }
    walk_page_node(pdf, pages_reference, &inherited, &mut visited, &mut pages, &mut cycle,
        Ghost((pdf.objects@.len() + 1) as nat));
    (PageIndex { pages }, cycle)
}

} // verus!
