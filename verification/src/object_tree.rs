//! A browsable tree of a document: trailer, catalog with its page tree and
//! resources, the cross-reference entries, and objects nothing refers to.
use vstd::prelude::*;
use crate::diagnostics::{
    contains_ref, insert_ref, lemma_ref_insert_contains, lemma_unvisited_bound, lemma_unvisited_grow,
    lemma_unvisited_visit, ref_insert, refs_increasing, unvisited,
};
use crate::objects::{object_views, objects_get};
use crate::pdf_model::{ObjectRef, ParsedPdf, PdfDictionary, PdfObject, PdfValue, ValueView, XrefEntry, dict_get, view_reference};
use crate::pdf_parser::object_dictionary;
use crate::stream_viewer::name_under;
use crate::summary::value_summary;
use crate::text::{decimal, owned, push_decimal, push_str, str_eq, string_views};
use crate::value_views::{ObjectV, value_views};

verus! {

broadcast use crate::value_views::group_views;

/// What a tree node stands for.
#[derive(Clone, Copy, Debug, PartialEq, Eq, Structural)]
pub enum ObjectTreeNodeKind {
    Root,
    Trailer,
    Catalog,
    Pages,
    Page,
    Resources,
    Fonts,
    Font,
    XObjects,
    XObject,
    Images,
    Image,
    Annotations,
    Annotation,
    AcroForm,
    EmbeddedFiles,
    Xref,
    OrphanedObjects,
    Object,
    Reference,
    Cycle,
    Missing,
}

/// A node of the object tree.
#[derive(Debug)]
pub struct ObjectTreeNode {
    pub label: String,
    pub kind: ObjectTreeNodeKind,
    pub object: Option<ObjectRef>,
    pub summary: Option<String>,
    pub children: Vec<ObjectTreeNode>,
}

/// A tree node by its texts.
#[verifier::ext_equal]
pub struct NodeV {
    pub label: Seq<char>,
    pub kind: ObjectTreeNodeKind,
    pub object: Option<ObjectRef>,
    pub summary: Option<Seq<char>>,
    pub children: Seq<NodeV>,
}

pub open spec fn node_views(s: Seq<ObjectTreeNode>) -> Seq<NodeV>
    decreases s,
{
    if s.len() == 0 {
        seq![]
    } else {
        node_views(s.drop_last()).push(s.last().view())
    }
}

impl View for ObjectTreeNode {
    type V = NodeV;

    open spec fn view(&self) -> NodeV
        decreases self,
    {
        NodeV {
            label: self.label@,
            kind: self.kind,
            object: self.object,
            summary: match self.summary { Some(s) => Some(s@), None => None },
            children: node_views(self.children@),
        }
    }
}

/// The views of a node list: one per node, each the node's view.
pub proof fn lemma_node_views(s: Seq<ObjectTreeNode>)
    ensures
        node_views(s).len() == s.len(),
        forall|i: int| 0 <= i < s.len() ==> #[trigger] node_views(s)[i] == s[i]@,
    decreases s.len(),
{
    if s.len() > 0 {
        lemma_node_views(s.drop_last());
        assert(node_views(s) == node_views(s.drop_last()).push(s.last()@));
    } else {
        assert(node_views(s) == Seq::<NodeV>::empty());
    }
}

proof fn lemma_node_views_push(s: Seq<ObjectTreeNode>, x: ObjectTreeNode)
    ensures
        node_views(s.push(x)) == node_views(s).push(x@),
{
    assert(s.push(x).drop_last() =~= s);
}

/// A node without children.
pub open spec fn leaf(label: Seq<char>, kind: ObjectTreeNodeKind, object: Option<ObjectRef>, summary: Option<Seq<char>>) -> NodeV {
    NodeV { label, kind, object, summary, children: seq![] }
}

pub open spec fn with_children(n: NodeV, children: Seq<NodeV>) -> NodeV {
    NodeV { children, ..n }
}

// ---------------------------------------------------------------------------
// Summaries
// ---------------------------------------------------------------------------

/// Texts joined with a separator.
pub open spec fn joined(parts: Seq<Seq<char>>, sep: Seq<char>) -> Seq<char>
    decreases parts.len(),
{
    if parts.len() == 0 {
        seq![]
    } else if parts.len() == 1 {
        parts[0]
    } else {
        joined(parts.drop_last(), sep) + sep + parts.last()
    }
}

pub open spec fn name_part(d: Seq<(Seq<char>, ValueView)>, key: Seq<char>, prefix: Seq<char>) -> Seq<Seq<char>> {
    match name_under(d, key) {
        Some(n) => seq![prefix + n],
        None => seq![],
    }
}

/// `/Type` and `/Subtype` of an object, its stream length and filters.
pub open spec fn summary_parts(o: ObjectV) -> Seq<Seq<char>> {
    let names = match object_dictionary(o) {
        Some(d) => name_part(d, "Type"@, "/Type /"@) + name_part(d, "Subtype"@, "/Subtype /"@),
        None => seq![],
    };
    let stream = match o.2 {
        Some(st) => seq!["stream "@ + decimal(st.2 as nat) + " byte(s)"@]
            + if st.3.len() > 0 { seq!["filters "@ + joined(st.3, " -> "@)] } else { seq![] },
        None => seq![],
    };
    names + stream
}

/// A one-line description of an object: its parts, or its value's summary.
pub open spec fn object_summary_text(o: ObjectV) -> Seq<char> {
    let parts = summary_parts(o);
    if parts.len() == 0 { value_summary(o.1) } else { joined(parts, ", "@) }
}

pub open spec fn value_part(d: Seq<(Seq<char>, ValueView)>, key: Seq<char>, prefix: Seq<char>) -> Seq<Seq<char>> {
    match dict_get(d, key) {
        Some(v) => seq![prefix + value_summary(v)],
        None => seq![],
    }
}

/// A page's boxes and rotation, or `/Type /Page`.
pub open spec fn page_summary_text(d: Seq<(Seq<char>, ValueView)>) -> Seq<char> {
    let parts = value_part(d, "MediaBox"@, "MediaBox "@) + value_part(d, "CropBox"@, "CropBox "@)
        + value_part(d, "Rotate"@, "Rotate "@);
    if parts.len() == 0 { "/Type /Page"@ } else { joined(parts, ", "@) }
}

pub(crate) fn join_strings(parts: &Vec<String>, sep: &str) -> (s: String)
    ensures
        s@ == joined(string_views(parts@), sep@),
{
    let ghost pv = string_views(parts@);
    let mut s = String::new();
    let mut i: usize = 0;
    assert(pv.take(0) =~= Seq::<Seq<char>>::empty());
    while i < parts.len()
        invariant
            i <= parts@.len(),
            pv == string_views(parts@),
            pv.len() == parts@.len(),
            s@ == joined(pv.take(i as int), sep@),
        decreases parts@.len() - i,
    {
        assert(pv.take(i + 1).drop_last() =~= pv.take(i as int));
        assert(pv.take(i + 1).last() == parts@[i as int]@);
        if i > 0 {
            push_str(&mut s, sep);
        } else {
            assert(s@ =~= Seq::<char>::empty());
        }
        push_str(&mut s, parts[i].as_str());
        assert(s@ =~= joined(pv.take(i + 1), sep@));
        i = i + 1;
    }
    assert(pv.take(parts@.len() as int) =~= pv);
    s
}

fn push_text(parts: &mut Vec<String>, s: String)
    ensures
        string_views(final(parts)@) == string_views(old(parts)@).push(s@),
{
    let ghost before = string_views(parts@);
    parts.push(s);
    assert(string_views(parts@) =~= before.push(s@));
}

fn push_name_part(parts: &mut Vec<String>, d: &PdfDictionary, key: &str, prefix: &str)
    ensures
        string_views(final(parts)@) == string_views(old(parts)@) + name_part(d@, key@, prefix@),
{
    let ghost before = string_views(parts@);
    let name = match d.get(key) {
        Some(v) => v.as_name(),
        None => None,
    };
    match name {
        Some(n) => {
            let mut s = owned(prefix);
            push_str(&mut s, n);
            push_text(parts, s);
        },
        None => {},
    }
    assert(string_views(parts@) =~= before + name_part(d@, key@, prefix@));
}

fn push_value_part(parts: &mut Vec<String>, d: &PdfDictionary, key: &str, prefix: &str)
    ensures
        string_views(final(parts)@) == string_views(old(parts)@) + value_part(d@, key@, prefix@),
{
    let ghost before = string_views(parts@);
    match d.get(key) {
        Some(v) => {
            let mut s = owned(prefix);
            let t = v.summary();
            push_str(&mut s, t.as_str());
            push_text(parts, s);
        },
        None => {},
    }
    assert(string_views(parts@) =~= before + value_part(d@, key@, prefix@));
}

fn object_summary(object: &PdfObject) -> (s: String)
    ensures
        s@ == object_summary_text(object@),
{
    let mut parts: Vec<String> = Vec::new();
    assert(string_views(parts@) =~= Seq::<Seq<char>>::empty());
    match object.dictionary() {
        Some(d) => {
            push_name_part(&mut parts, d, "Type", "/Type /");
            push_name_part(&mut parts, d, "Subtype", "/Subtype /");
        },
        None => {},
    }
    let ghost names = string_views(parts@);
    match &object.stream {
        Some(stream) => {
            let mut s = owned("stream ");
            push_decimal(&mut s, stream.actual_length);
            push_str(&mut s, " byte(s)");
            push_text(&mut parts, s);
            if stream.filters.len() > 0 {
                let mut f = owned("filters ");
                let j = join_strings(&stream.filters, " -> ");
                push_str(&mut f, j.as_str());
                push_text(&mut parts, f);
            }
        },
        None => {},
    }
    assert(string_views(parts@) =~= summary_parts(object@));
    if parts.len() == 0 {
        object.value.summary()
    } else {
        join_strings(&parts, ", ")
    }
}

fn page_summary(d: &PdfDictionary) -> (s: String)
    ensures
        s@ == page_summary_text(d@),
{
    let mut parts: Vec<String> = Vec::new();
    assert(string_views(parts@) =~= Seq::<Seq<char>>::empty());
    push_value_part(&mut parts, d, "MediaBox", "MediaBox ");
    push_value_part(&mut parts, d, "CropBox", "CropBox ");
    push_value_part(&mut parts, d, "Rotate", "Rotate ");
    if parts.len() == 0 {
        owned("/Type /Page")
    } else {
        join_strings(&parts, ", ")
    }
}

// ---------------------------------------------------------------------------
// Nodes for values, resources and annotations
// ---------------------------------------------------------------------------

/// The node for a value under a label, and the references seen so far: a
/// reference is summarized by the object it points to.
pub open spec fn named_value_spec(label: Seq<char>, kind: ObjectTreeNodeKind, v: ValueView, objs: Seq<ObjectV>, refd: Seq<ObjectRef>) -> (NodeV, Seq<ObjectRef>) {
    match v {
        ValueView::Reference(r) => (
            leaf(label, kind, Some(r), Some(match objects_get(objs, r) {
                Some(o) => object_summary_text(o),
                None => "missing reference"@,
            })),
            ref_insert(refd, r),
        ),
        _ => (leaf(label, kind, None, Some(value_summary(v))), refd),
    }
}

/// The dictionary a value stands for, noting a reference as seen.
pub open spec fn resolve_spec(objs: Seq<ObjectV>, v: ValueView, refd: Seq<ObjectRef>) -> (Option<Seq<(Seq<char>, ValueView)>>, Seq<ObjectRef>) {
    match v {
        ValueView::Dictionary(d) => (Some(d), refd),
        ValueView::Reference(r) => (
            match objects_get(objs, r) {
                Some(o) => object_dictionary(o),
                None => None,
            },
            ref_insert(refd, r),
        ),
        _ => (None, refd),
    }
}

/// The kind of a resource entry: an image when it references an object with
/// `/Subtype /Image`.
pub open spec fn resource_kind(objs: Seq<ObjectV>, v: ValueView, item: ObjectTreeNodeKind) -> ObjectTreeNodeKind {
    match view_reference(v) {
        Some(r) => match objects_get(objs, r) {
            Some(o) => match object_dictionary(o) {
                Some(d) => match name_under(d, "Subtype"@) {
                    Some(s) => if s == "Image"@ { ObjectTreeNodeKind::Image } else { item },
                    None => item,
                },
                None => item,
            },
            None => item,
        },
        None => item,
    }
}

pub open spec fn resource_items(objs: Seq<ObjectV>, item: ObjectTreeNodeKind, d: Seq<(Seq<char>, ValueView)>, refd: Seq<ObjectRef>) -> (Seq<NodeV>, Seq<ObjectRef>)
    decreases d.len(),
{
    if d.len() == 0 {
        (seq![], refd)
    } else {
        let (ks, r1) = resource_items(objs, item, d.drop_last(), refd);
        let e = d.last();
        let (k, r2) = named_value_spec(seq!['/'] + e.0, resource_kind(objs, e.1, item), e.1, objs, r1);
        (ks.push(k), r2)
    }
}

pub open spec fn resource_map_spec(label: Seq<char>, map: ObjectTreeNodeKind, item: ObjectTreeNodeKind, v: ValueView, objs: Seq<ObjectV>, refd: Seq<ObjectRef>) -> (NodeV, Seq<ObjectRef>) {
    let (n, r1) = named_value_spec(label, map, v, objs, refd);
    let (od, r2) = resolve_spec(objs, v, r1);
    match od {
        Some(d) => {
            let (ks, r3) = resource_items(objs, item, d, r2);
            (with_children(n, ks), r3)
        },
        None => (n, r2),
    }
}

/// The image nodes among some nodes, in order.
pub open spec fn image_children(cs: Seq<NodeV>) -> Seq<NodeV>
    decreases cs.len(),
{
    if cs.len() == 0 {
        seq![]
    } else {
        image_children(cs.drop_last()) + if cs.last().kind == ObjectTreeNodeKind::Image { seq![cs.last()] } else { seq![] }
    }
}

pub open spec fn resources_spec(v: ValueView, objs: Seq<ObjectV>, refd: Seq<ObjectRef>) -> (NodeV, Seq<ObjectRef>) {
    let (n, r1) = named_value_spec("Resources"@, ObjectTreeNodeKind::Resources, v, objs, refd);
    let (od, r2) = resolve_spec(objs, v, r1);
    match od {
        Some(d) => {
            let (c1, r3): (Seq<NodeV>, Seq<ObjectRef>) = match dict_get(d, "Font"@) {
                Some(f) => {
                    let (fn_, r) = resource_map_spec("Fonts"@, ObjectTreeNodeKind::Fonts, ObjectTreeNodeKind::Font, f, objs, r2);
                    (seq![fn_], r)
                },
                None => (seq![], r2),
            };
            let (c2, r4): (Seq<NodeV>, Seq<ObjectRef>) = match dict_get(d, "XObject"@) {
                Some(x) => {
                    let (xn, r) = resource_map_spec("XObjects"@, ObjectTreeNodeKind::XObjects, ObjectTreeNodeKind::XObject, x, objs, r3);
                    let images = image_children(xn.children);
                    (seq![xn] + if images.len() > 0 {
                        seq![with_children(leaf("Images"@, ObjectTreeNodeKind::Images, None, None), images)]
                    } else {
                        seq![]
                    }, r)
                },
                None => (seq![], r3),
            };
            (with_children(n, c1 + c2), r4)
        },
        None => (n, r2),
    }
}

pub open spec fn annotation_items(objs: Seq<ObjectV>, items: Seq<ValueView>, refd: Seq<ObjectRef>) -> (Seq<NodeV>, Seq<ObjectRef>)
    decreases items.len(),
{
    if items.len() == 0 {
        (seq![], refd)
    } else {
        let (ks, r1) = annotation_items(objs, items.drop_last(), refd);
        let (k, r2) = named_value_spec("Annotation"@, ObjectTreeNodeKind::Annotation, items.last(), objs, r1);
        (ks.push(k), r2)
    }
}

pub open spec fn annotations_spec(v: ValueView, objs: Seq<ObjectV>, refd: Seq<ObjectRef>) -> (NodeV, Seq<ObjectRef>) {
    let (n, r1) = named_value_spec("Annotations"@, ObjectTreeNodeKind::Annotations, v, objs, refd);
    match v {
        ValueView::Array(items) => {
            let (ks, r2) = annotation_items(objs, items, r1);
            (with_children(n, ks), r2)
        },
        _ => (n, r1),
    }
}

/// A page node: its summary, then its resources, annotations and contents.
pub open spec fn page_spec(objs: Seq<ObjectV>, r: ObjectRef, d: Seq<(Seq<char>, ValueView)>, refd: Seq<ObjectRef>) -> (NodeV, Seq<ObjectRef>) {
    let n = leaf("Page"@, ObjectTreeNodeKind::Page, Some(r), Some(page_summary_text(d)));
    let (c1, r1): (Seq<NodeV>, Seq<ObjectRef>) = match dict_get(d, "Resources"@) {
        Some(v) => {
            let (x, rr) = resources_spec(v, objs, refd);
            (seq![x], rr)
        },
        None => (seq![], refd),
    };
    let (c2, r2): (Seq<NodeV>, Seq<ObjectRef>) = match dict_get(d, "Annots"@) {
        Some(v) => {
            let (x, rr) = annotations_spec(v, objs, r1);
            (seq![x], rr)
        },
        None => (seq![], r1),
    };
    let (c3, r3): (Seq<NodeV>, Seq<ObjectRef>) = match dict_get(d, "Contents"@) {
        Some(v) => {
            let (x, rr) = named_value_spec("Contents"@, ObjectTreeNodeKind::Reference, v, objs, r2);
            (seq![x], rr)
        },
        None => (seq![], r2),
    };
    (with_children(n, c1 + c2 + c3), r3)
}


// ---------------------------------------------------------------------------
// The page tree
// ---------------------------------------------------------------------------

/// The node for page tree node `r`, the references seen, and the nodes
/// visited. A node seen before is a cycle; `/Type /Page` is a page; a
/// `/Pages` node or one without `/Type` lists its `/Kids`. `fuel` bounds the
/// depth: each level visits a new object, so one more than the number of
/// objects is never used up.
pub open spec fn page_tree_spec(objs: Seq<ObjectV>, fuel: nat, r: ObjectRef, refd: Seq<ObjectRef>, visited: Seq<ObjectRef>) -> (NodeV, Seq<ObjectRef>, Seq<ObjectRef>)
    decreases fuel, 0nat,
{
    let r1 = ref_insert(refd, r);
    if visited.contains(r) {
        (leaf("Cycle"@, ObjectTreeNodeKind::Cycle, Some(r), Some("cyclic page tree reference"@)), r1, visited)
    } else {
        let vis = ref_insert(visited, r);
        match objects_get(objs, r) {
            None => (leaf("Missing page tree node"@, ObjectTreeNodeKind::Missing, Some(r), None), r1, vis),
            Some(o) => match object_dictionary(o) {
                None => (leaf("Invalid page tree node"@, ObjectTreeNodeKind::Object, Some(r), Some(object_summary_text(o))), r1, vis),
                Some(d) => {
                    let ty = name_under(d, "Type"@);
                    if ty == Some("Page"@) {
                        let (n, r2) = page_spec(objs, r, d, r1);
                        (n, r2, vis)
                    } else if ty == Some("Pages"@) || ty is None {
                        let summary = match dict_get(d, "Count"@) {
                            Some(c) => "Count "@ + value_summary(c),
                            None => object_summary_text(o),
                        };
                        let n = leaf("Pages"@, ObjectTreeNodeKind::Pages, Some(r), Some(summary));
                        match dict_get(d, "Kids"@) {
                            Some(ValueView::Array(kids)) => if fuel == 0 {
                                (n, r1, vis)
                            } else {
                                let (ks, r2, v2) = page_kids_spec(objs, (fuel - 1) as nat, kids, r1, vis);
                                (with_children(n, ks), r2, v2)
                            },
                            _ => (n, r1, vis),
                        }
                    } else {
                        (leaf("Unexpected page tree node"@, ObjectTreeNodeKind::Object, Some(r), Some("/Type /"@ + ty->0)), r1, vis)
                    }
                },
            },
        }
    }
}

/// The nodes for the `/Kids` of a `/Pages` node, in order.
pub open spec fn page_kids_spec(objs: Seq<ObjectV>, fuel: nat, kids: Seq<ValueView>, refd: Seq<ObjectRef>, visited: Seq<ObjectRef>) -> (Seq<NodeV>, Seq<ObjectRef>, Seq<ObjectRef>)
    decreases fuel, kids.len() + 1,
{
    if kids.len() == 0 {
        (seq![], refd, visited)
    } else {
        let (k, r1, v1) = match kids[0] {
            ValueView::Reference(kr) => page_tree_spec(objs, fuel, kr, refd, visited),
            _ => {
                let (n, rr) = named_value_spec("Kid"@, ObjectTreeNodeKind::Reference, kids[0], objs, refd);
                (n, rr, visited)
            },
        };
        let (rest, r2, v2) = page_kids_spec(objs, fuel, kids.drop_first(), r1, v1);
        (seq![k] + rest, r2, v2)
    }
}

// ---------------------------------------------------------------------------
// Catalog, trailer, cross-reference table, orphans
// ---------------------------------------------------------------------------

pub open spec fn catalog_spec(objs: Seq<ObjectV>, r: ObjectRef, refd: Seq<ObjectRef>) -> (NodeV, Seq<ObjectRef>) {
    let r1 = ref_insert(refd, r);
    match objects_get(objs, r) {
        None => (leaf("Catalog missing"@, ObjectTreeNodeKind::Missing, Some(r), None), r1),
        Some(o) => {
            let n = leaf("Catalog"@, ObjectTreeNodeKind::Catalog, Some(r), Some(object_summary_text(o)));
            match object_dictionary(o) {
                None => (n, r1),
                Some(d) => {
                    let (c1, r2): (Seq<NodeV>, Seq<ObjectRef>) = match dict_get(d, "Pages"@) {
                        Some(p) => match view_reference(p) {
                            Some(pr) => {
                                let (x, rr, _v) = page_tree_spec(objs, objs.len() + 1, pr, r1, seq![]);
                                (seq![x], rr)
                            },
                            None => (seq![], r1),
                        },
                        None => (seq![], r1),
                    };
                    let (c2, r3): (Seq<NodeV>, Seq<ObjectRef>) = match dict_get(d, "AcroForm"@) {
                        Some(a) => {
                            let (x, rr) = named_value_spec("AcroForm"@, ObjectTreeNodeKind::AcroForm, a, objs, r2);
                            (seq![x], rr)
                        },
                        None => (seq![], r2),
                    };
                    let (c3, r4): (Seq<NodeV>, Seq<ObjectRef>) = match dict_get(d, "Names"@) {
                        Some(names) => {
                            let (od, rr) = resolve_spec(objs, names, r3);
                            match od {
                                Some(nd) => match dict_get(nd, "EmbeddedFiles"@) {
                                    Some(e) => {
                                        let (x, rr2) = named_value_spec("Embedded files"@, ObjectTreeNodeKind::EmbeddedFiles, e, objs, rr);
                                        (seq![x], rr2)
                                    },
                                    None => (seq![], rr),
                                },
                                None => (seq![], rr),
                            }
                        },
                        None => (seq![], r3),
                    };
                    (with_children(n, c1 + c2 + c3), r4)
                },
            }
        },
    }
}

pub open spec fn trailer_items(objs: Seq<ObjectV>, d: Seq<(Seq<char>, ValueView)>, refd: Seq<ObjectRef>) -> (Seq<NodeV>, Seq<ObjectRef>)
    decreases d.len(),
{
    if d.len() == 0 {
        (seq![], refd)
    } else {
        let (ks, r1) = trailer_items(objs, d.drop_last(), refd);
        let (k, r2) = named_value_spec(d.last().0, ObjectTreeNodeKind::Reference, d.last().1, objs, r1);
        (ks.push(k), r2)
    }
}

pub open spec fn trailer_spec(trailer: Option<ValueView>, objs: Seq<ObjectV>, refd: Seq<ObjectRef>) -> (NodeV, Seq<ObjectRef>) {
    match trailer {
        Some(t) => {
            let n = leaf("Trailer"@, ObjectTreeNodeKind::Trailer, None, Some(value_summary(t)));
            match t {
                ValueView::Dictionary(d) => {
                    let (ks, r1) = trailer_items(objs, d, refd);
                    (with_children(n, ks), r1)
                },
                _ => (n, refd),
            }
        },
        None => (leaf("Trailer"@, ObjectTreeNodeKind::Trailer, None, Some("missing"@)), refd),
    }
}

pub open spec fn invalid_count(es: Seq<XrefEntry>) -> nat
    decreases es.len(),
{
    if es.len() == 0 {
        0
    } else {
        invalid_count(es.drop_last()) + if es.last().in_use && es.last().valid_offset == Some(false) { 1nat } else { 0nat }
    }
}

pub open spec fn validity_text(v: Option<bool>) -> Seq<char> {
    match v {
        Some(true) => "true"@,
        Some(false) => "false"@,
        None => "unknown"@,
    }
}

pub open spec fn entry_node(e: XrefEntry) -> NodeV {
    leaf(e.reference.spec_text(), ObjectTreeNodeKind::Object, Some(e.reference),
        Some("offset "@ + decimal(e.offset as nat) + ", valid offset: "@ + validity_text(e.valid_offset)))
}

/// Nodes for the first `limit` in-use entries.
pub open spec fn entry_nodes(es: Seq<XrefEntry>, limit: nat) -> Seq<NodeV>
    decreases es.len(),
{
    if es.len() == 0 || limit == 0 {
        seq![]
    } else if es[0].in_use {
        seq![entry_node(es[0])] + entry_nodes(es.drop_first(), (limit - 1) as nat)
    } else {
        entry_nodes(es.drop_first(), limit)
    }
}

pub open spec fn xref_spec(pdf: ParsedPdf) -> NodeV {
    let n = leaf("Cross-reference"@, ObjectTreeNodeKind::Xref, None,
        Some(decimal(pdf.metadata.xref_entry_count as nat) + " entrie(s), "@ + decimal(invalid_count(pdf.xref_entries@))
            + " invalid in-use offset(s)"@));
    let stream: Seq<NodeV> = if pdf.metadata.has_xref_stream {
        seq![leaf("Xref stream detected"@, ObjectTreeNodeKind::Xref, None, Some("full expansion deferred"@))]
    } else {
        seq![]
    };
    with_children(n, stream + entry_nodes(pdf.xref_entries@, 256))
}

pub open spec fn orphan_nodes(objs: Seq<ObjectV>, refd: Seq<ObjectRef>) -> Seq<NodeV>
    decreases objs.len(),
{
    if objs.len() == 0 {
        seq![]
    } else {
        let o = objs.last();
        orphan_nodes(objs.drop_last(), refd) + if refd.contains(o.0) {
            seq![]
        } else {
            seq![leaf(o.0.spec_text(), ObjectTreeNodeKind::Object, Some(o.0), Some(object_summary_text(o)))]
        }
    }
}

/// The object tree of a document: its trailer, its catalog (with the page
/// tree, form and embedded files), its cross-reference entries, and the
/// objects that nothing in those refers to.
pub open spec fn object_tree(pdf: ParsedPdf) -> NodeV {
    let objs = object_views(pdf.objects@);
    let trailer = match pdf.trailer { Some(t) => Some(t@), None => None };
    let (t, r1) = trailer_spec(trailer, objs, seq![]);
    let (c, r2) = match pdf.metadata.root {
        Some(root) => catalog_spec(objs, root, r1),
        None => (leaf("Catalog missing"@, ObjectTreeNodeKind::Missing, None, None), r1),
    };
    let orphans = orphan_nodes(objs, r2);
    let root = leaf("PDF"@, ObjectTreeNodeKind::Root, None,
        Some(decimal(pdf.metadata.object_count as nat) + " object(s), "@ + decimal(pdf.metadata.stream_count as nat) + " stream(s)"@));
    with_children(root, seq![t, c, xref_spec(pdf)] + if orphans.len() > 0 {
        seq![with_children(leaf("Orphaned objects"@, ObjectTreeNodeKind::OrphanedObjects, None,
            Some(decimal(orphans.len()) + " object(s)"@)), orphans)]
    } else {
        seq![]
    })
}


// ---------------------------------------------------------------------------
// Building the tree
// ---------------------------------------------------------------------------

fn node(label: String, kind: ObjectTreeNodeKind, object: Option<ObjectRef>, summary: Option<String>) -> (n: ObjectTreeNode)
    ensures
        n@ == leaf(label@, kind, object, match summary { Some(s) => Some(s@), None => None }),
{
    let n = ObjectTreeNode { label, kind, object, summary, children: Vec::new() };
    assert(node_views(n.children@) =~= Seq::<NodeV>::empty());
    n
}

fn add_child(n: &mut ObjectTreeNode, child: ObjectTreeNode)
    ensures
        final(n)@ == with_children(old(n)@, old(n)@.children.push(child@)),
{
    proof { lemma_node_views_push(n.children@, child); }
    n.children.push(child);
}

fn copy_node(n: &ObjectTreeNode) -> (r: ObjectTreeNode)
    ensures
        r@ == n@,
    decreases n,
{
    let summary = match &n.summary {
        Some(s) => Some(owned(s.as_str())),
        None => None,
    };
    let mut r = node(owned(n.label.as_str()), n.kind, n.object, summary);
    let mut i: usize = 0;
    assert(node_views(n.children@).take(0) =~= Seq::<NodeV>::empty());
    assert(r@ =~= with_children(leaf(n.label@, n.kind, n.object, match n.summary { Some(s) => Some(s@), None => None }),
        node_views(n.children@).take(0)));
    while i < n.children.len()
        invariant
            i <= n.children@.len(),
            r@ == with_children(leaf(n.label@, n.kind, n.object, match n.summary { Some(s) => Some(s@), None => None }),
                node_views(n.children@).take(i as int)),
        decreases n.children@.len() - i,
    {
        proof {
            assert(decreases_to!(*n => n.children));
            assert(decreases_to!(n.children => n.children@));
            assert(decreases_to!(n.children@ => n.children@[i as int]));
        }
        proof { lemma_node_views(n.children@); }
        let c = copy_node(&n.children[i]);
        add_child(&mut r, c);
        assert(node_views(n.children@).take(i + 1) =~= node_views(n.children@).take(i as int).push(n.children@[i as int]@));
        i = i + 1;
    }
    proof { lemma_node_views(n.children@); }
    assert(node_views(n.children@).take(n.children@.len() as int) =~= node_views(n.children@));
    r
}

fn named_value_node(
    label: String,
    kind: ObjectTreeNodeKind,
    value: &PdfValue,
    pdf: &ParsedPdf,
    referenced: &mut Vec<ObjectRef>,
) -> (n: ObjectTreeNode)
    requires
        pdf.wf(),
        refs_increasing(old(referenced)@),
    ensures
        refs_increasing(final(referenced)@),
        (n@, final(referenced)@) == named_value_spec(label@, kind, value@, object_views(pdf.objects@), old(referenced)@),
{
    match value {
        PdfValue::Reference(r) => {
            insert_ref(referenced, *r);
            let summary = match pdf.object(*r) {
                Some(o) => object_summary(o),
                None => owned("missing reference"),
            };
            node(label, kind, Some(*r), Some(summary))
        },
        _ => node(label, kind, None, Some(value.summary())),
    }
}

fn resolve_dictionary<'a>(pdf: &'a ParsedPdf, value: &'a PdfValue, referenced: &mut Vec<ObjectRef>) -> (r: Option<&'a PdfDictionary>)
    requires
        pdf.wf(),
        refs_increasing(old(referenced)@),
    ensures
        refs_increasing(final(referenced)@),
        ({
            let (od, rs) = resolve_spec(object_views(pdf.objects@), value@, old(referenced)@);
            &&& final(referenced)@ == rs
            &&& match od {
                Some(d) => r matches Some(x) && x@ == d,
                None => r is None,
            }
        }),
{
    match value {
        PdfValue::Dictionary(d) => Some(d),
        PdfValue::Reference(reference) => {
            insert_ref(referenced, *reference);
            match pdf.object(*reference) {
                Some(o) => o.dictionary(),
                None => None,
            }
        },
        _ => None,
    }
}

fn resource_item_kind(pdf: &ParsedPdf, value: &PdfValue, item: ObjectTreeNodeKind) -> (k: ObjectTreeNodeKind)
    requires
        pdf.wf(),
    ensures
        k == resource_kind(object_views(pdf.objects@), value@, item),
{
    let reference = match value.as_reference() {
        Some(r) => r,
        None => return item,
    };
    let object = match pdf.object(reference) {
        Some(o) => o,
        None => return item,
    };
    let dictionary = match object.dictionary() {
        Some(d) => d,
        None => return item,
    };
    let subtype = match dictionary.get("Subtype") {
        Some(v) => v.as_name(),
        None => None,
    };
    match subtype {
        Some(s) => if str_eq(s, "Image") { ObjectTreeNodeKind::Image } else { item },
        None => item,
    }
}

fn resource_map_node(
    label: &str,
    map: ObjectTreeNodeKind,
    item: ObjectTreeNodeKind,
    value: &PdfValue,
    pdf: &ParsedPdf,
    referenced: &mut Vec<ObjectRef>,
) -> (n: ObjectTreeNode)
    requires
        pdf.wf(),
        refs_increasing(old(referenced)@),
    ensures
        refs_increasing(final(referenced)@),
        (n@, final(referenced)@) == resource_map_spec(label@, map, item, value@, object_views(pdf.objects@), old(referenced)@),
{
    let ghost objs = object_views(pdf.objects@);
    let mut n = named_value_node(owned(label), map, value, pdf, referenced);
    let ghost base = n@;
    match resolve_dictionary(pdf, value, referenced) {
        Some(d) => {
            let ghost start = referenced@;
            let ghost all = d@;
            let mut i: usize = 0;
            assert(all.take(0) =~= Seq::<(Seq<char>, ValueView)>::empty());
            assert(base.children =~= Seq::<NodeV>::empty());
            while i < d.entries.len()
                invariant
                    pdf.wf(),
                    objs == object_views(pdf.objects@),
                    i <= d.entries@.len(),
                    all == d@,
                    all.len() == d.entries@.len(),
                    refs_increasing(referenced@),
                    base.children == Seq::<NodeV>::empty(),
                    ({
                        let (ks, rs) = resource_items(objs, item, all.take(i as int), start);
                        &&& n@ == with_children(base, ks)
                        &&& referenced@ == rs
                    }),
                decreases d.entries@.len() - i,
            {
                proof { crate::value_views::lemma_entry_views(d.entries@); }
                assert(all.take(i + 1).drop_last() =~= all.take(i as int));
                assert(all.take(i + 1).last() == (d.entries@[i as int].0@, d.entries@[i as int].1@));
                let entry_value = &d.entries[i].1;
                let kind = resource_item_kind(pdf, entry_value, item);
                let mut child_label = String::new();
                crate::text::push_char(&mut child_label, '/');
                push_str(&mut child_label, d.entries[i].0.as_str());
                let child = named_value_node(child_label, kind, entry_value, pdf, referenced);
                add_child(&mut n, child);
                i = i + 1;
            }
            assert(all.take(d.entries@.len() as int) =~= all);
        },
        None => {},
    }
    n
}

fn image_nodes(children: &Vec<ObjectTreeNode>) -> (r: Vec<ObjectTreeNode>)
    ensures
        node_views(r@) == image_children(node_views(children@)),
{
    let ghost cv = node_views(children@);
    proof { lemma_node_views(children@); }
    let mut r: Vec<ObjectTreeNode> = Vec::new();
    let mut i: usize = 0;
    assert(node_views(r@) =~= Seq::<NodeV>::empty());
    assert(cv.take(0) =~= Seq::<NodeV>::empty());
    while i < children.len()
        invariant
            i <= children@.len(),
            cv == node_views(children@),
            cv.len() == children@.len(),
            forall|j: int| 0 <= j < children@.len() ==> cv[j] == children@[j]@,
            node_views(r@) == image_children(cv.take(i as int)),
        decreases children@.len() - i,
    {
        assert(cv.take(i + 1).drop_last() =~= cv.take(i as int));
        assert(cv.take(i + 1).last() == children@[i as int]@);
        let ghost before = node_views(r@);
        if children[i].kind == ObjectTreeNodeKind::Image {
            let c = copy_node(&children[i]);
            proof { lemma_node_views_push(r@, c); }
            r.push(c);
        }
        assert(node_views(r@) =~= image_children(cv.take(i + 1)));
        i = i + 1;
    }
    assert(cv.take(children@.len() as int) =~= cv);
    r
}

fn resources_node(value: &PdfValue, pdf: &ParsedPdf, referenced: &mut Vec<ObjectRef>) -> (n: ObjectTreeNode)
    requires
        pdf.wf(),
        refs_increasing(old(referenced)@),
    ensures
        refs_increasing(final(referenced)@),
        (n@, final(referenced)@) == resources_spec(value@, object_views(pdf.objects@), old(referenced)@),
{
    let ghost objs = object_views(pdf.objects@);
    let ghost r0 = referenced@;
    let mut n = named_value_node(owned("Resources"), ObjectTreeNodeKind::Resources, value, pdf, referenced);
    let ghost base = n@;
    let ghost r1 = referenced@;
    match resolve_dictionary(pdf, value, referenced) {
        Some(d) => {
            let ghost dv = d@;
            let ghost r2 = referenced@;
            let ghost p1: (Seq<NodeV>, Seq<ObjectRef>) = match dict_get(dv, "Font"@) {
                Some(f) => {
                    let (fn_, r) = resource_map_spec("Fonts"@, ObjectTreeNodeKind::Fonts, ObjectTreeNodeKind::Font, f, objs, r2);
                    (seq![fn_], r)
                },
                None => (seq![], r2),
            };
            match d.get("Font") {
                Some(fonts) => {
                    let f = resource_map_node("Fonts", ObjectTreeNodeKind::Fonts, ObjectTreeNodeKind::Font, fonts, pdf, referenced);
                    add_child(&mut n, f);
                },
                None => {},
            }
            assert(n@.children =~= p1.0 && referenced@ == p1.1);
            let ghost p2: (Seq<NodeV>, Seq<ObjectRef>) = match dict_get(dv, "XObject"@) {
                Some(x) => {
                    let (xn, r) = resource_map_spec("XObjects"@, ObjectTreeNodeKind::XObjects, ObjectTreeNodeKind::XObject, x, objs, p1.1);
                    let images = image_children(xn.children);
                    (seq![xn] + if images.len() > 0 {
                        seq![with_children(leaf("Images"@, ObjectTreeNodeKind::Images, None, None), images)]
                    } else {
                        seq![]
                    }, r)
                },
                None => (seq![], p1.1),
            };
            match d.get("XObject") {
                Some(xobjects) => {
                    let x = resource_map_node("XObjects", ObjectTreeNodeKind::XObjects, ObjectTreeNodeKind::XObject, xobjects, pdf, referenced);
                    let images = image_nodes(&x.children);
                    proof { lemma_node_views(images@); }
                    let ghost xv = x@;
                    add_child(&mut n, x);
                    if images.len() > 0 {
                        let mut group = node(owned("Images"), ObjectTreeNodeKind::Images, None, None);
                        group.children = images;
                        assert(group@ =~= with_children(leaf("Images"@, ObjectTreeNodeKind::Images, None, None), image_children(xv.children)));
                        add_child(&mut n, group);
                    }
                },
                None => {},
            }
            assert(n@.children =~= p1.0 + p2.0 && referenced@ == p2.1);
            assert(n@ =~= with_children(base, p1.0 + p2.0));
        },
        None => {},
    }
    n
}

fn annotations_node(value: &PdfValue, pdf: &ParsedPdf, referenced: &mut Vec<ObjectRef>) -> (n: ObjectTreeNode)
    requires
        pdf.wf(),
        refs_increasing(old(referenced)@),
    ensures
        refs_increasing(final(referenced)@),
        (n@, final(referenced)@) == annotations_spec(value@, object_views(pdf.objects@), old(referenced)@),
{
    let ghost objs = object_views(pdf.objects@);
    let mut n = named_value_node(owned("Annotations"), ObjectTreeNodeKind::Annotations, value, pdf, referenced);
    let ghost base = n@;
    match value.as_array() {
        Some(values) => {
            let ghost all = value_views(values@);
            let ghost start = referenced@;
            let mut i: usize = 0;
            assert(all.take(0) =~= Seq::<ValueView>::empty());
            assert(base.children =~= Seq::<NodeV>::empty());
            while i < values.len()
                invariant
                    pdf.wf(),
                    objs == object_views(pdf.objects@),
                    i <= values@.len(),
                    all == value_views(values@),
                    all.len() == values@.len(),
                    refs_increasing(referenced@),
                    base.children == Seq::<NodeV>::empty(),
                    ({
                        let (ks, rs) = annotation_items(objs, all.take(i as int), start);
                        &&& n@ == with_children(base, ks)
                        &&& referenced@ == rs
                    }),
                decreases values@.len() - i,
            {
                assert(all.take(i + 1).drop_last() =~= all.take(i as int));
                assert(all.take(i + 1).last() == values@[i as int]@);
                let child = named_value_node(owned("Annotation"), ObjectTreeNodeKind::Annotation, &values[i], pdf, referenced);
                add_child(&mut n, child);
                i = i + 1;
            }
            assert(all.take(values@.len() as int) =~= all);
        },
        None => {},
    }
    n
}

fn page_node(pdf: &ParsedPdf, reference: ObjectRef, dictionary: &PdfDictionary, referenced: &mut Vec<ObjectRef>) -> (n: ObjectTreeNode)
    requires
        pdf.wf(),
        refs_increasing(old(referenced)@),
    ensures
        refs_increasing(final(referenced)@),
        (n@, final(referenced)@) == page_spec(object_views(pdf.objects@), reference, dictionary@, old(referenced)@),
{
    let ghost objs = object_views(pdf.objects@);
    let ghost d = dictionary@;
    let ghost r0 = referenced@;
    let mut n = node(owned("Page"), ObjectTreeNodeKind::Page, Some(reference), Some(page_summary(dictionary)));
    let ghost base = n@;
    let ghost p1: (Seq<NodeV>, Seq<ObjectRef>) = match dict_get(d, "Resources"@) {
        Some(v) => {
            let (x, rr) = resources_spec(v, objs, r0);
            (seq![x], rr)
        },
        None => (seq![], r0),
    };
    match dictionary.get("Resources") {
        Some(v) => {
            let c = resources_node(v, pdf, referenced);
            add_child(&mut n, c);
        },
        None => {},
    }
    assert(n@.children =~= p1.0 && referenced@ == p1.1);
    let ghost p2: (Seq<NodeV>, Seq<ObjectRef>) = match dict_get(d, "Annots"@) {
        Some(v) => {
            let (x, rr) = annotations_spec(v, objs, p1.1);
            (seq![x], rr)
        },
        None => (seq![], p1.1),
    };
    match dictionary.get("Annots") {
        Some(v) => {
            let c = annotations_node(v, pdf, referenced);
            add_child(&mut n, c);
        },
        None => {},
    }
    assert(n@.children =~= p1.0 + p2.0 && referenced@ == p2.1);
    let ghost p3: (Seq<NodeV>, Seq<ObjectRef>) = match dict_get(d, "Contents"@) {
        Some(v) => {
            let (x, rr) = named_value_spec("Contents"@, ObjectTreeNodeKind::Reference, v, objs, p2.1);
            (seq![x], rr)
        },
        None => (seq![], p2.1),
    };
    match dictionary.get("Contents") {
        Some(v) => {
            let c = named_value_node(owned("Contents"), ObjectTreeNodeKind::Reference, v, pdf, referenced);
            add_child(&mut n, c);
        },
        None => {},
    }
    assert(n@.children =~= p1.0 + p2.0 + p3.0 && referenced@ == p3.1);
    assert(n@ =~= with_children(base, p1.0 + p2.0 + p3.0));
    assert(n@ =~= page_spec(object_views(pdf.objects@), reference, dictionary@, old(referenced)@).0);
    n
}


fn page_tree_node(
    pdf: &ParsedPdf,
    reference: ObjectRef,
    referenced: &mut Vec<ObjectRef>,
    visited: &mut Vec<ObjectRef>,
    Ghost(fuel): Ghost<nat>,
) -> (n: ObjectTreeNode)
    requires
        pdf.wf(),
        refs_increasing(old(referenced)@),
        refs_increasing(old(visited)@),
        fuel > unvisited(object_views(pdf.objects@), old(visited)@),
    ensures
        refs_increasing(final(referenced)@),
        refs_increasing(final(visited)@),
        forall|x: ObjectRef| old(visited)@.contains(x) ==> final(visited)@.contains(x),
        (n@, final(referenced)@, final(visited)@)
            == page_tree_spec(object_views(pdf.objects@), fuel, reference, old(referenced)@, old(visited)@),
    decreases fuel,
{
    let ghost objs = object_views(pdf.objects@);
    let ghost v0 = visited@;
    insert_ref(referenced, reference);
    if contains_ref(visited, reference) {
        return node(owned("Cycle"), ObjectTreeNodeKind::Cycle, Some(reference), Some(owned("cyclic page tree reference")));
    }
    insert_ref(visited, reference);
    proof {
        lemma_ref_insert_contains(v0, reference);
        lemma_unvisited_grow(objs, v0, visited@);
    }
    let object = match pdf.object(reference) {
        Some(o) => o,
        None => return node(owned("Missing page tree node"), ObjectTreeNodeKind::Missing, Some(reference), None),
    };
    proof {
        lemma_unvisited_visit(objs, v0, visited@, reference);
    }
    let dictionary = match object.dictionary() {
        Some(d) => d,
        None => return node(owned("Invalid page tree node"), ObjectTreeNodeKind::Object, Some(reference), Some(object_summary(object))),
    };
    let node_type = match dictionary.get("Type") {
        Some(v) => v.as_name(),
        None => None,
    };
    let ghost ty = name_under(dictionary@, "Type"@);
    assert(match node_type { Some(t) => ty == Some(t@), None => ty is None });
    let is_page = match node_type { Some(t) => str_eq(t, "Page"), None => false };
    let is_pages = match node_type { Some(t) => str_eq(t, "Pages"), None => true };
    if is_page {
        return page_node(pdf, reference, dictionary, referenced);
    }
    if !is_pages {
        let mut summary = owned("/Type /");
        match node_type {
            Some(t) => push_str(&mut summary, t),
            None => {},
        }
        return node(owned("Unexpected page tree node"), ObjectTreeNodeKind::Object, Some(reference), Some(summary));
    }
    let summary = match dictionary.get("Count") {
        Some(c) => {
            let mut s = owned("Count ");
            let t = c.summary();
            push_str(&mut s, t.as_str());
            s
        },
        None => object_summary(object),
    };
    let mut n = node(owned("Pages"), ObjectTreeNodeKind::Pages, Some(reference), Some(summary));
    let kids = match dictionary.get("Kids") {
        Some(k) => k.as_array(),
        None => None,
    };
    let kids = match kids {
        Some(k) => k,
        None => return n,
    };
    let ghost base = n@;
    let ghost kv = value_views(kids@);
    let ghost f1 = (fuel - 1) as nat;
    let ghost goal = page_kids_spec(objs, f1, kv, referenced@, visited@);
    let ghost done: Seq<NodeV> = seq![];
    let mut i: usize = 0;
    assert(kv.skip(0) =~= kv);
    assert(base.children =~= Seq::<NodeV>::empty());
    while i < kids.len()
        invariant
            pdf.wf(),
            objs == object_views(pdf.objects@),
            i <= kids@.len(),
            kv == value_views(kids@),
            kv.len() == kids@.len(),
            fuel > 0,
            f1 == fuel - 1,
            refs_increasing(referenced@),
            refs_increasing(visited@),
            forall|x: ObjectRef| v0.contains(x) ==> visited@.contains(x),
            f1 > unvisited(objs, visited@),
            base.children == Seq::<NodeV>::empty(),
            n@ == with_children(base, done),
            ({
                let (rest, rs, vs) = page_kids_spec(objs, f1, kv.skip(i as int), referenced@, visited@);
                goal == (done + rest, rs, vs)
            }),
        decreases kids@.len() - i,
    {
        assert(kv.skip(i as int)[0] == kids@[i as int]@);
        assert(kv.skip(i as int).drop_first() =~= kv.skip(i + 1));
        let ghost vb = visited@;
        let child = match kids[i].as_reference() {
            Some(kid) => {
                let c = page_tree_node(pdf, kid, referenced, visited, Ghost(f1));
                proof {
                    lemma_unvisited_grow(objs, vb, visited@);
                }
                c
            },
            None => named_value_node(owned("Kid"), ObjectTreeNodeKind::Reference, &kids[i], pdf, referenced),
        };
        let ghost cv = child@;
        add_child(&mut n, child);
        proof {
            assert(done.push(cv) + page_kids_spec(objs, f1, kv.skip(i + 1), referenced@, visited@).0
                =~= done + (seq![cv] + page_kids_spec(objs, f1, kv.skip(i + 1), referenced@, visited@).0));
            done = done.push(cv);
        }
        i = i + 1;
    }
    assert(kv.skip(kids@.len() as int) =~= Seq::<ValueView>::empty());
    assert(done + Seq::<NodeV>::empty() =~= done);
    n
}

fn catalog_node(pdf: &ParsedPdf, reference: ObjectRef, referenced: &mut Vec<ObjectRef>) -> (n: ObjectTreeNode)
    requires
        pdf.wf(),
        refs_increasing(old(referenced)@),
    ensures
        refs_increasing(final(referenced)@),
        (n@, final(referenced)@) == catalog_spec(object_views(pdf.objects@), reference, old(referenced)@),
{
    let ghost objs = object_views(pdf.objects@);
    insert_ref(referenced, reference);
    let catalog = match pdf.object(reference) {
        Some(o) => o,
        None => return node(owned("Catalog missing"), ObjectTreeNodeKind::Missing, Some(reference), None),
    };
    let mut n = node(owned("Catalog"), ObjectTreeNodeKind::Catalog, Some(reference), Some(object_summary(catalog)));
    let dictionary = match catalog.dictionary() {
        Some(d) => d,
        None => return n,
    };
    let ghost base = n@;
    let ghost d = dictionary@;
    let ghost r1 = referenced@;
    let ghost p1: (Seq<NodeV>, Seq<ObjectRef>) = match dict_get(d, "Pages"@) {
        Some(p) => match view_reference(p) {
            Some(pr) => {
                let (x, rr, _v) = page_tree_spec(objs, objs.len() + 1, pr, r1, seq![]);
                (seq![x], rr)
            },
            None => (seq![], r1),
        },
        None => (seq![], r1),
    };
    let pages = match dictionary.get("Pages") {
        Some(p) => p.as_reference(),
        None => None,
    };
    match pages {
        Some(p) => {
            let mut visited: Vec<ObjectRef> = Vec::new();
            proof {
                lemma_unvisited_bound(objs, visited@);
                assert(visited@ =~= Seq::<ObjectRef>::empty());
            }
            let c = page_tree_node(pdf, p, referenced, &mut visited, Ghost((pdf.objects@.len() + 1) as nat));
            add_child(&mut n, c);
        },
        None => {},
    }
    assert(n@.children =~= p1.0 && referenced@ == p1.1);
    let ghost p2: (Seq<NodeV>, Seq<ObjectRef>) = match dict_get(d, "AcroForm"@) {
        Some(a) => {
            let (x, rr) = named_value_spec("AcroForm"@, ObjectTreeNodeKind::AcroForm, a, objs, p1.1);
            (seq![x], rr)
        },
        None => (seq![], p1.1),
    };
    match dictionary.get("AcroForm") {
        Some(a) => {
            let c = named_value_node(owned("AcroForm"), ObjectTreeNodeKind::AcroForm, a, pdf, referenced);
            add_child(&mut n, c);
        },
        None => {},
    }
    assert(n@.children =~= p1.0 + p2.0 && referenced@ == p2.1);
    let ghost p3: (Seq<NodeV>, Seq<ObjectRef>) = match dict_get(d, "Names"@) {
        Some(names) => {
            let (od, rr) = resolve_spec(objs, names, p2.1);
            match od {
                Some(nd) => match dict_get(nd, "EmbeddedFiles"@) {
                    Some(e) => {
                        let (x, rr2) = named_value_spec("Embedded files"@, ObjectTreeNodeKind::EmbeddedFiles, e, objs, rr);
                        (seq![x], rr2)
                    },
                    None => (seq![], rr),
                },
                None => (seq![], rr),
            }
        },
        None => (seq![], p2.1),
    };
    match dictionary.get("Names") {
        Some(names) => {
            match resolve_dictionary(pdf, names, referenced) {
                Some(nd) => match nd.get("EmbeddedFiles") {
                    Some(e) => {
                        let c = named_value_node(owned("Embedded files"), ObjectTreeNodeKind::EmbeddedFiles, e, pdf, referenced);
                        add_child(&mut n, c);
                    },
                    None => {},
                },
                None => {},
            }
        },
        None => {},
    }
    assert(n@.children =~= p1.0 + p2.0 + p3.0 && referenced@ == p3.1);
    assert(n@ =~= with_children(base, p1.0 + p2.0 + p3.0));
    n
}

fn trailer_node(pdf: &ParsedPdf, referenced: &mut Vec<ObjectRef>) -> (n: ObjectTreeNode)
    requires
        pdf.wf(),
        refs_increasing(old(referenced)@),
    ensures
        refs_increasing(final(referenced)@),
        (n@, final(referenced)@) == trailer_spec(match pdf.trailer { Some(t) => Some(t@), None => None },
            object_views(pdf.objects@), old(referenced)@),
{
    let ghost objs = object_views(pdf.objects@);
    let trailer = match &pdf.trailer {
        Some(t) => t,
        None => return node(owned("Trailer"), ObjectTreeNodeKind::Trailer, None, Some(owned("missing"))),
    };
    let mut n = node(owned("Trailer"), ObjectTreeNodeKind::Trailer, None, Some(trailer.summary()));
    let ghost base = n@;
    match trailer.as_dictionary() {
        Some(d) => {
            let ghost all = d@;
            let ghost start = referenced@;
            let mut i: usize = 0;
            assert(all.take(0) =~= Seq::<(Seq<char>, ValueView)>::empty());
            assert(base.children =~= Seq::<NodeV>::empty());
            while i < d.entries.len()
                invariant
                    pdf.wf(),
                    objs == object_views(pdf.objects@),
                    i <= d.entries@.len(),
                    all == d@,
                    all.len() == d.entries@.len(),
                    refs_increasing(referenced@),
                    base.children == Seq::<NodeV>::empty(),
                    ({
                        let (ks, rs) = trailer_items(objs, all.take(i as int), start);
                        &&& n@ == with_children(base, ks)
                        &&& referenced@ == rs
                    }),
                decreases d.entries@.len() - i,
            {
                proof { crate::value_views::lemma_entry_views(d.entries@); }
                assert(all.take(i + 1).drop_last() =~= all.take(i as int));
                assert(all.take(i + 1).last() == (d.entries@[i as int].0@, d.entries@[i as int].1@));
                let child = named_value_node(owned(d.entries[i].0.as_str()), ObjectTreeNodeKind::Reference, &d.entries[i].1, pdf, referenced);
                add_child(&mut n, child);
                i = i + 1;
            }
            assert(all.take(d.entries@.len() as int) =~= all);
        },
        None => {},
    }
    n
}

fn xref_node(pdf: &ParsedPdf) -> (n: ObjectTreeNode)
    ensures
        n@ == xref_spec(*pdf),
{
    let ghost es = pdf.xref_entries@;
    let mut invalid: usize = 0;
    let mut i: usize = 0;
    while i < pdf.xref_entries.len()
        invariant
            i <= es.len(),
            es == pdf.xref_entries@,
            invalid == invalid_count(es.take(i as int)),
            invalid <= i,
        decreases es.len() - i,
    {
        assert(es.take(i + 1).drop_last() =~= es.take(i as int));
        let e = pdf.xref_entries[i];
        if e.in_use && e.valid_offset == Some(false) {
            invalid = invalid + 1;
        }
        i = i + 1;
    }
    assert(es.take(es.len() as int) =~= es);
    let mut summary = String::new();
    push_decimal(&mut summary, pdf.metadata.xref_entry_count);
    push_str(&mut summary, " entrie(s), ");
    push_decimal(&mut summary, invalid);
    push_str(&mut summary, " invalid in-use offset(s)");
    let mut n = node(owned("Cross-reference"), ObjectTreeNodeKind::Xref, None, Some(summary));
    if pdf.metadata.has_xref_stream {
        let c = node(owned("Xref stream detected"), ObjectTreeNodeKind::Xref, None, Some(owned("full expansion deferred")));
        add_child(&mut n, c);
    }
    let ghost base = n@.children;
    let mut k: usize = 0;
    let mut taken: usize = 0;
    assert(es.skip(0) =~= es);
    while k < pdf.xref_entries.len() && taken < 256
        invariant
            k <= es.len(),
            es == pdf.xref_entries@,
            taken <= 256,
            n@.children + entry_nodes(es.skip(k as int), (256 - taken) as nat) == base + entry_nodes(es, 256),
            n@.label == "Cross-reference"@,
            n@.kind == ObjectTreeNodeKind::Xref,
            n@.object is None,
            n@.summary == Some(summary@),
        decreases es.len() - k,
    {
        let e = pdf.xref_entries[k];
        assert(es.skip(k as int)[0] == e);
        assert(es.skip(k as int).drop_first() =~= es.skip(k + 1));
        if e.in_use {
            let label = e.reference.to_text();
            let mut s = owned("offset ");
            push_decimal(&mut s, e.offset);
            push_str(&mut s, ", valid offset: ");
            match e.valid_offset {
                Some(true) => push_str(&mut s, "true"),
                Some(false) => push_str(&mut s, "false"),
                None => push_str(&mut s, "unknown"),
            }
            let ghost before = n@.children;
            let c = node(label, ObjectTreeNodeKind::Object, Some(e.reference), Some(s));
            assert(c@ == entry_node(e));
            add_child(&mut n, c);
            assert(before.push(entry_node(e)) + entry_nodes(es.skip(k + 1), (256 - taken - 1) as nat)
                =~= before + (seq![entry_node(e)] + entry_nodes(es.skip(k + 1), (256 - taken - 1) as nat)));
            taken = taken + 1;
        }
        k = k + 1;
    }
    proof {
        if k == es.len() {
            assert(es.skip(k as int) =~= Seq::<XrefEntry>::empty());
        }
        assert(entry_nodes(es.skip(k as int), (256 - taken) as nat) =~= Seq::<NodeV>::empty());
        assert(n@.children + Seq::<NodeV>::empty() =~= n@.children);
    }
    assert(n@ =~= xref_spec(*pdf));
    n
}

fn orphaned_objects_node(pdf: &ParsedPdf, referenced: &Vec<ObjectRef>) -> (n: ObjectTreeNode)
    requires
        pdf.wf(),
    ensures
        n@ == with_children(
            leaf("Orphaned objects"@, ObjectTreeNodeKind::OrphanedObjects, None,
                Some(decimal(orphan_nodes(object_views(pdf.objects@), referenced@).len()) + " object(s)"@)),
            orphan_nodes(object_views(pdf.objects@), referenced@)),
{
    let ghost objs = object_views(pdf.objects@);
    let mut n = node(owned("Orphaned objects"), ObjectTreeNodeKind::OrphanedObjects, None, None);
    let ghost base = n@;
    let mut k: usize = 0;
    assert(objs.take(0) =~= Seq::<ObjectV>::empty());
    assert(base.children =~= Seq::<NodeV>::empty());
    while k < pdf.objects.len()
        invariant
            k <= objs.len(),
            objs == object_views(pdf.objects@),
            n@ == with_children(base, orphan_nodes(objs.take(k as int), referenced@)),
        decreases objs.len() - k,
    {
        assert(objs.take(k + 1).drop_last() =~= objs.take(k as int));
        assert(objs.take(k + 1).last() == pdf.objects@[k as int]@);
        let object = &pdf.objects[k];
        if !contains_ref(referenced, object.reference) {
            let c = node(object.reference.to_text(), ObjectTreeNodeKind::Object, Some(object.reference), Some(object_summary(object)));
            add_child(&mut n, c);
        }
        assert(n@.children =~= orphan_nodes(objs.take(k + 1), referenced@));
        k = k + 1;
    }
    assert(objs.take(objs.len() as int) =~= objs);
    proof { lemma_node_views(n.children@); }
    let mut summary = String::new();
    push_decimal(&mut summary, n.children.len());
    push_str(&mut summary, " object(s)");
    n.summary = Some(summary);
    assert(n@ =~= with_children(
        leaf("Orphaned objects"@, ObjectTreeNodeKind::OrphanedObjects, None,
            Some(decimal(orphan_nodes(objs, referenced@).len()) + " object(s)"@)),
        orphan_nodes(objs, referenced@)));
    n
}

/// Builds the object tree of a parsed document.
pub fn build_object_tree(pdf: &ParsedPdf) -> (tree: ObjectTreeNode)
    requires
        pdf.wf(),
    ensures
        tree@ == object_tree(*pdf),
{
    let ghost objs = object_views(pdf.objects@);
    let ghost trailer = match &pdf.trailer { Some(t) => Some(t@), None => None };
    let mut referenced: Vec<ObjectRef> = Vec::new();
    let mut summary = String::new();
    push_decimal(&mut summary, pdf.metadata.object_count);
    push_str(&mut summary, " object(s), ");
    push_decimal(&mut summary, pdf.metadata.stream_count);
    push_str(&mut summary, " stream(s)");
    let mut root = node(owned("PDF"), ObjectTreeNodeKind::Root, None, Some(summary));
    let ghost base = root@;
    assert(referenced@ =~= Seq::<ObjectRef>::empty());
    let ghost p1 = trailer_spec(trailer, objs, seq![]);
    let t = trailer_node(pdf, &mut referenced);
    add_child(&mut root, t);
    let ghost p2 = match pdf.metadata.root {
        Some(r) => catalog_spec(objs, r, p1.1),
        None => (leaf("Catalog missing"@, ObjectTreeNodeKind::Missing, None, None), p1.1),
    };
    match pdf.metadata.root {
        Some(r) => {
            let c = catalog_node(pdf, r, &mut referenced);
            add_child(&mut root, c);
        },
        None => {
            let c = node(owned("Catalog missing"), ObjectTreeNodeKind::Missing, None, None);
            add_child(&mut root, c);
        },
    }
    assert(referenced@ == p2.1);
    let x = xref_node(pdf);
    add_child(&mut root, x);
    assert(root@.children =~= seq![p1.0, p2.0, xref_spec(*pdf)]);
    let orphans = orphaned_objects_node(pdf, &referenced);
    proof { lemma_node_views(orphans.children@); }
    let ghost ov = orphan_nodes(objs, p2.1);
    if orphans.children.len() > 0 {
        add_child(&mut root, orphans);
    }
    assert(root@.children =~= seq![p1.0, p2.0, xref_spec(*pdf)] + if ov.len() > 0 {
        seq![with_children(leaf("Orphaned objects"@, ObjectTreeNodeKind::OrphanedObjects, None,
            Some(decimal(ov.len()) + " object(s)"@)), ov)]
    } else {
        seq![]
    });
    assert(root@ =~= object_tree(*pdf));
    root
}

} // verus!
