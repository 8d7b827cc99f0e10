//! The runtime values that flow through the query pipeline: graph elements
//! (vertices, edges, paths), generic scalars, pairs, collections, the two
//! intersection results, and the null element, all behind one shared,
//! reference-counted, immutable handle.
//!
//! Equality, ordering and hashing are tag-gated: values of different kinds
//! are never equal and never ordered, and hashing agrees with equality.

use vstd::prelude::*;

use std::sync::Arc;

use crate::object::{
    mix, mix_u64, obj_cmp, obj_eq, obj_hash, spec_obj_cmp, spec_obj_eq, spec_obj_hash, KeyValue,
    Object, Primitives,
};
use crate::property::str_eq;
use crate::EntryType;
use core::cmp::Ordering;

verus! {

/// A graph element identifier.
pub type ID = u64;

/// The reserved identifier that the null entry reports.
pub const NULL_ID: u64 = 0xFFFF_FFFF_FFFF_FFFF;

/// A property key: a name or a schema-assigned number.
#[derive(Debug)]
pub enum PropKey {
    Str(String),
    Id(i32),
}

/// Whether two property keys name the same property.
pub open spec fn spec_key_eq(a: PropKey, b: PropKey) -> bool {
    match (a, b) {
        (PropKey::Str(x), PropKey::Str(y)) => x@ == y@,
        (PropKey::Id(x), PropKey::Id(y)) => x == y,
        _ => false,
    }
}

pub fn key_eq(a: &PropKey, b: &PropKey) -> (r: bool)
    ensures
        r == spec_key_eq(*a, *b),
{
    match (a, b) {
        (PropKey::Str(x), PropKey::Str(y)) => str_eq(x.as_str(), y.as_str()),
        (PropKey::Id(x), PropKey::Id(y)) => *x == *y,
        _ => false,
    }
}

/// One stored property of a graph element.
#[derive(Debug)]
pub struct PropEntry {
    pub key: PropKey,
    pub value: Object,
}

/// A graph vertex: identifier, optional label, and stored properties.
/// Vertices are identified by their id; equality, ordering and hashing
/// look at the id alone.
#[derive(Debug)]
pub struct Vertex {
    pub id: ID,
    pub label: Option<i32>,
    pub properties: Vec<PropEntry>,
}

/// A graph edge: identifier, endpoints, optional label, and properties.
/// Like vertices, edges are identified by their id.
#[derive(Debug)]
pub struct Edge {
    pub id: ID,
    pub src_id: ID,
    pub dst_id: ID,
    pub label: Option<i32>,
    pub properties: Vec<PropEntry>,
}

/// A step of a path: either a vertex or an edge. Vertices order before
/// edges; within a kind the id orders.
#[derive(Debug)]
pub enum VertexOrEdge {
    V(Vertex),
    E(Edge),
}

impl VertexOrEdge {
    pub fn get_type(&self) -> (r: EntryType)
        ensures
            r == (match self {
                VertexOrEdge::V(_) => EntryType::Vertex,
                VertexOrEdge::E(_) => EntryType::Edge,
            }),
    {
        match self {
            VertexOrEdge::V(_) => EntryType::Vertex,
            VertexOrEdge::E(_) => EntryType::Edge,
        }
    }

    /// The identifier of the element.
    pub open spec fn spec_id(&self) -> ID {
        match self {
            VertexOrEdge::V(v) => v.id,
            VertexOrEdge::E(e) => e.id,
        }
    }

    pub fn id(&self) -> (r: ID)
        ensures
            r == self.spec_id(),
    {
        match self {
            VertexOrEdge::V(v) => v.id,
            VertexOrEdge::E(e) => e.id,
        }
    }

    pub open spec fn spec_label(&self) -> Option<i32> {
        match self {
            VertexOrEdge::V(v) => v.label,
            VertexOrEdge::E(e) => e.label,
        }
    }

    /// The vertex view, present exactly for a vertex step.
    pub fn as_vertex(&self) -> (r: Option<&Vertex>)
        ensures
            match r {
                Some(v) => self matches VertexOrEdge::V(w) && *v == w,
                None => !(self matches VertexOrEdge::V(_)),
            },
    {
        match self {
            VertexOrEdge::V(v) => Some(v),
            _ => None,
        }
    }

    /// The edge view, present exactly for an edge step.
    pub fn as_edge(&self) -> (r: Option<&Edge>)
        ensures
            match r {
                Some(v) => self matches VertexOrEdge::E(w) && *v == w,
                None => !(self matches VertexOrEdge::E(_)),
            },
    {
        match self {
            VertexOrEdge::E(e) => Some(e),
            _ => None,
        }
    }
}

/// Element equality: same kind and same identifier.
pub open spec fn spec_voe_eq(a: VertexOrEdge, b: VertexOrEdge) -> bool {
    match (a, b) {
        (VertexOrEdge::V(x), VertexOrEdge::V(y)) => x.id == y.id,
        (VertexOrEdge::E(x), VertexOrEdge::E(y)) => x.id == y.id,
        _ => false,
    }
}

/// Element order: vertices first, then by identifier.
pub open spec fn spec_voe_cmp(a: VertexOrEdge, b: VertexOrEdge) -> Ordering {
    match (a, b) {
        (VertexOrEdge::V(_), VertexOrEdge::E(_)) => Ordering::Less,
        (VertexOrEdge::E(_), VertexOrEdge::V(_)) => Ordering::Greater,
        _ => {
            if a.spec_id() < b.spec_id() {
                Ordering::Less
            } else if a.spec_id() == b.spec_id() {
                Ordering::Equal
            } else {
                Ordering::Greater
            }
        },
    }
}

pub open spec fn spec_voe_hash(a: VertexOrEdge) -> u64 {
    match a {
        VertexOrEdge::V(v) => mix(21, v.id),
        VertexOrEdge::E(e) => mix(22, e.id),
    }
}

/// A path through the graph: the sequence of elements walked.
#[derive(Debug)]
pub struct GraphPath {
    pub elements: Vec<VertexOrEdge>,
}

pub open spec fn spec_path_eq(a: GraphPath, b: GraphPath) -> bool {
    a.elements@.len() == b.elements@.len() && forall|i: int|
        0 <= i < a.elements@.len() ==> spec_voe_eq(#[trigger] a.elements@[i], b.elements@[i])
}

pub open spec fn spec_voe_seq_cmp(s: Seq<VertexOrEdge>, t: Seq<VertexOrEdge>) -> Ordering
    decreases s.len(),
{
    if s.len() == 0 && t.len() == 0 {
        Ordering::Equal
    } else if s.len() == 0 {
        Ordering::Less
    } else if t.len() == 0 {
        Ordering::Greater
    } else {
        match spec_voe_cmp(s[0], t[0]) {
            Ordering::Equal => spec_voe_seq_cmp(s.drop_first(), t.drop_first()),
            other => other,
        }
    }
}

pub open spec fn spec_voe_seq_hash(s: Seq<VertexOrEdge>) -> u64
    decreases s.len(),
{
    if s.len() == 0 {
        23
    } else {
        mix(spec_voe_seq_hash(s.drop_last()), spec_voe_hash(s.last()))
    }
}

/// The compact intersection result: the matched identifiers.
#[derive(Debug)]
pub struct IntersectionEntry {
    pub ids: Vec<ID>,
}

/// The general intersection result: matched identifiers, each with its
/// multiplicity.
#[derive(Debug)]
pub struct GeneralIntersectionEntry {
    pub ids: Vec<ID>,
    pub counts: Vec<u32>,
}

/// The null entry: an absent graph element (for example the result of an
/// optional expansion that found nothing). It is still a graph element:
/// its identifier is the reserved null id, it has no label and no
/// properties, and its logical length is zero.
#[derive(Debug)]
pub struct NullEntry;

impl NullEntry {
    pub fn get_type(&self) -> (r: EntryType)
        ensures
            r == EntryType::Null,
    {
        EntryType::Null
    }

    pub fn as_graph_element(&self) -> (r: bool)
        ensures
            r,
    {
        true
    }

    pub fn len(&self) -> (r: usize)
        ensures
            r == 0,
    {
        0
    }

    pub fn id(&self) -> (r: ID)
        ensures
            r == NULL_ID,
    {
        NULL_ID
    }

    pub fn label(&self) -> (r: Option<i32>)
        ensures
            r is None,
    {
        None
    }

    pub fn get_property(&self, _key: &PropKey) -> (r: Option<&Object>)
        ensures
            r is None,
    {
        None
    }

    pub fn get_all_properties(&self) -> (r: Option<&Vec<PropEntry>>)
        ensures
            r is None,
    {
        None
    }
}

/// An ordered pair of entries, used for keyed grouping.
#[derive(Debug)]
pub struct PairEntry {
    left: DynEntry,
    right: DynEntry,
}

/// An ordered sequence of entries.
#[derive(Debug)]
pub struct CollectionEntry {
    pub inner: Vec<DynEntry>,
}

/// The closed set of runtime value kinds. The two intersection sub-forms
/// both report the `Intersection` tag but stay distinct variants, with
/// distinct wire tags.
#[derive(Debug)]
pub enum Entry {
    Vertex(Vertex),
    Edge(Edge),
    Path(GraphPath),
    Object(Object),
    Intersection(IntersectionEntry),
    GeneralIntersection(GeneralIntersectionEntry),
    Collection(CollectionEntry),
    Pair(PairEntry),
    Null(NullEntry),
}

/// The shared, immutable, reference-counted handle through which every
/// entry is held. Cloning the handle shares the underlying value.
#[derive(Debug)]
pub struct DynEntry {
    inner: Arc<Entry>,
}

/// Relies on `Arc::clone`: the clone is a new handle to the same
/// underlying value.
#[verifier::external_body]
fn arc_share(a: &Arc<Entry>) -> (r: Arc<Entry>)
    ensures
        *r == **a,
{
    Arc::clone(a)
}

impl DynEntry {
    /// The entry this handle holds.
    pub closed spec fn entry(&self) -> Entry {
        *self.inner
    }

    /// Borrow the concrete entry behind the handle.
    pub fn as_entry(&self) -> (r: &Entry)
        ensures
            *r == self.entry(),
    {
        &*self.inner
    }

    /// Wrap a concrete entry in a shared handle.
    pub fn new(entry: Entry) -> (r: DynEntry)
        ensures
            r.entry() == entry,
    {
        DynEntry { inner: Arc::new(entry) }
    }

    /// A second handle to the same underlying value (constant-time: the
    /// value is shared, not copied).
    pub fn share(&self) -> (r: DynEntry)
        ensures
            r.entry() == self.entry(),
    {
        DynEntry { inner: arc_share(&self.inner) }
    }

    /// The tag this entry dispatches on.
    pub open spec fn spec_get_type(&self) -> EntryType {
        spec_entry_type(self.entry())
    }

    pub fn get_type(&self) -> (r: EntryType)
        ensures
            r == self.spec_get_type(),
    {
        match &*self.inner {
            Entry::Vertex(_) => EntryType::Vertex,
            Entry::Edge(_) => EntryType::Edge,
            Entry::Path(_) => EntryType::Path,
            Entry::Object(_) => EntryType::Object,
            Entry::Intersection(_) => EntryType::Intersection,
            Entry::GeneralIntersection(_) => EntryType::Intersection,
            Entry::Collection(_) => EntryType::Collection,
            Entry::Pair(_) => EntryType::Pair,
            Entry::Null(_) => EntryType::Null,
        }
    }

    /// The typed vertex view, present exactly under the vertex tag.
    pub fn as_vertex(&self) -> (r: Option<&Vertex>)
        ensures
            match r {
                Some(v) => self.entry() matches Entry::Vertex(w) && *v == w,
                None => !(self.entry() matches Entry::Vertex(_)),
            },
    {
        match &*self.inner {
            Entry::Vertex(v) => Some(v),
            _ => None,
        }
    }

    /// The typed edge view, present exactly under the edge tag.
    pub fn as_edge(&self) -> (r: Option<&Edge>)
        ensures
            match r {
                Some(v) => self.entry() matches Entry::Edge(w) && *v == w,
                None => !(self.entry() matches Entry::Edge(_)),
            },
    {
        match &*self.inner {
            Entry::Edge(e) => Some(e),
            _ => None,
        }
    }

    /// The typed path view, present exactly under the path tag.
    pub fn as_graph_path(&self) -> (r: Option<&GraphPath>)
        ensures
            match r {
                Some(v) => self.entry() matches Entry::Path(w) && *v == w,
                None => !(self.entry() matches Entry::Path(_)),
            },
    {
        match &*self.inner {
            Entry::Path(p) => Some(p),
            _ => None,
        }
    }

    /// The typed scalar view, present exactly under the object tag.
    pub fn as_object(&self) -> (r: Option<&Object>)
        ensures
            match r {
                Some(v) => self.entry() matches Entry::Object(w) && *v == w,
                None => !(self.entry() matches Entry::Object(_)),
            },
    {
        match &*self.inner {
            Entry::Object(o) => Some(o),
            _ => None,
        }
    }

    /// The borrowable generic scalar view of this entry: the scalar itself
    /// for object entries, absent for every other kind.
    pub fn as_borrow_object(&self) -> (r: Option<&Object>)
        ensures
            match r {
                Some(v) => self.entry() matches Entry::Object(w) && *v == w,
                None => !(self.entry() matches Entry::Object(_)),
            },
    {
        self.as_object()
    }

    /// Whether this entry stands for "nothing": the null entry, or an
    /// object entry holding the none scalar.
    pub fn is_none(&self) -> (r: bool)
        ensures
            r == (self.entry() matches Entry::Null(_) || (self.entry() matches Entry::Object(o)
                && o matches Object::NoneValue)),
    {
        match &*self.inner {
            Entry::Null(_) => true,
            Entry::Object(o) => o.is_none_object(),
            _ => false,
        }
    }

    /// The logical length of this entry: the number of elements for paths
    /// and collections, zero for the null entry, one otherwise.
    pub fn len(&self) -> (r: usize)
        ensures
            r == spec_entry_len(self.entry()),
    {
        match &*self.inner {
            Entry::Path(p) => p.elements.len(),
            Entry::Intersection(x) => x.ids.len(),
            Entry::GeneralIntersection(x) => x.ids.len(),
            Entry::Collection(c) => c.inner.len(),
            Entry::Null(_) => 0,
            _ => 1,
        }
    }

    /// Whether this entry offers the graph-element view (id, label,
    /// properties): vertices, edges, paths and the null entry do.
    pub fn as_graph_element(&self) -> (r: bool)
        ensures
            r == spec_is_element(self.entry()),
    {
        match &*self.inner {
            Entry::Vertex(_) | Entry::Edge(_) | Entry::Path(_) | Entry::Null(_) => true,
            _ => false,
        }
    }

    /// The identifier of a graph element; asking any other kind is a
    /// contract violation, ruled out here rather than answered.
    pub fn id(&self) -> (r: ID)
        requires
            spec_is_element(self.entry()),
            self.entry() matches Entry::Path(p) ==> p.elements@.len() > 0,
        ensures
            r == spec_element_id(self.entry()),
    {
        match &*self.inner {
            Entry::Vertex(v) => v.id,
            Entry::Edge(e) => e.id,
            Entry::Path(p) => p.elements[p.elements.len() - 1].id(),
            _ => NULL_ID,
        }
    }

    /// The label of a graph element, when it has one.
    pub fn label(&self) -> (r: Option<i32>)
        requires
            spec_is_element(self.entry()),
            self.entry() matches Entry::Path(p) ==> p.elements@.len() > 0,
        ensures
            r == spec_element_label(self.entry()),
    {
        match &*self.inner {
            Entry::Vertex(v) => v.label,
            Entry::Edge(e) => e.label,
            Entry::Path(p) => {
                match &p.elements[p.elements.len() - 1] {
                    VertexOrEdge::V(v) => v.label,
                    VertexOrEdge::E(e) => e.label,
                }
            },
            _ => None,
        }
    }

    /// The named property of a graph element (a path answers for the
    /// element it ends on); the null entry has none.
    pub fn get_property(&self, key: &PropKey) -> (r: Option<&Object>)
        requires
            spec_is_element(self.entry()),
            self.entry() matches Entry::Path(p) ==> p.elements@.len() > 0,
        ensures
            match r {
                Some(v) => exists|i: int|
                    0 <= i < spec_element_props(self.entry()).len() && spec_key_eq(
                        #[trigger] spec_element_props(self.entry())[i].key,
                        *key,
                    ) && *v == spec_element_props(self.entry())[i].value,
                None => (forall|i: int|
                    0 <= i < spec_element_props(self.entry()).len() ==> !spec_key_eq(
                        #[trigger] spec_element_props(self.entry())[i].key,
                        *key,
                    )),
            },
    {
        match &*self.inner {
            Entry::Vertex(v) => find_property(&v.properties, key),
            Entry::Edge(e) => find_property(&e.properties, key),
            Entry::Path(p) => {
                match &p.elements[p.elements.len() - 1] {
                    VertexOrEdge::V(v) => find_property(&v.properties, key),
                    VertexOrEdge::E(e) => find_property(&e.properties, key),
                }
            },
            _ => None,
        }
    }

    /// All stored properties of a graph element; the null entry reports
    /// none at all.
    pub fn get_all_properties(&self) -> (r: Option<&Vec<PropEntry>>)
        requires
            spec_is_element(self.entry()),
            self.entry() matches Entry::Path(p) ==> p.elements@.len() > 0,
        ensures
            match r {
                Some(v) => !(self.entry() matches Entry::Null(_)) && v@ == spec_element_props(
                    self.entry(),
                ),
                None => self.entry() matches Entry::Null(_),
            },
    {
        match &*self.inner {
            Entry::Vertex(v) => Some(&v.properties),
            Entry::Edge(e) => Some(&e.properties),
            Entry::Path(p) => {
                match &p.elements[p.elements.len() - 1] {
                    VertexOrEdge::V(v) => Some(&v.properties),
                    VertexOrEdge::E(e) => Some(&e.properties),
                }
            },
            _ => None,
        }
    }
}

fn find_property<'a>(props: &'a Vec<PropEntry>, key: &PropKey) -> (r: Option<&'a Object>)
    ensures
        match r {
            Some(v) => exists|i: int|
                0 <= i < props@.len() && spec_key_eq(#[trigger] props@[i].key, *key) && *v
                    == props@[i].value,
            None => forall|i: int|
                0 <= i < props@.len() ==> !spec_key_eq(#[trigger] props@[i].key, *key),
        },
{
    let mut i: usize = 0;
    while i < props.len()
        invariant
            i <= props@.len(),
            forall|j: int| 0 <= j < i ==> !spec_key_eq(#[trigger] props@[j].key, *key),
        decreases props@.len() - i,
    {
        if key_eq(&props[i].key, key) {
            return Some(&props[i].value);
        }
        i = i + 1;
    }
    None
}

/// The tag of a concrete entry.
pub open spec fn spec_entry_type(e: Entry) -> EntryType {
    match e {
        Entry::Vertex(_) => EntryType::Vertex,
        Entry::Edge(_) => EntryType::Edge,
        Entry::Path(_) => EntryType::Path,
        Entry::Object(_) => EntryType::Object,
        Entry::Intersection(_) => EntryType::Intersection,
        Entry::GeneralIntersection(_) => EntryType::Intersection,
        Entry::Collection(_) => EntryType::Collection,
        Entry::Pair(_) => EntryType::Pair,
        Entry::Null(_) => EntryType::Null,
    }
}

/// Whether the entry offers the graph-element view.
pub open spec fn spec_is_element(e: Entry) -> bool {
    e matches Entry::Vertex(_) || e matches Entry::Edge(_) || e matches Entry::Path(_) || e
        matches Entry::Null(_)
}

/// The identifier a graph element reports (a path reports its end, the
/// null entry the reserved null id).
pub open spec fn spec_element_id(e: Entry) -> ID {
    match e {
        Entry::Vertex(v) => v.id,
        Entry::Edge(x) => x.id,
        Entry::Path(p) => p.elements@.last().spec_id(),
        _ => NULL_ID,
    }
}

pub open spec fn spec_element_label(e: Entry) -> Option<i32> {
    match e {
        Entry::Vertex(v) => v.label,
        Entry::Edge(x) => x.label,
        Entry::Path(p) => p.elements@.last().spec_label(),
        _ => None,
    }
}

/// The stored properties a graph element answers with.
pub open spec fn spec_element_props(e: Entry) -> Seq<PropEntry> {
    match e {
        Entry::Vertex(v) => v.properties@,
        Entry::Edge(x) => x.properties@,
        Entry::Path(p) => match p.elements@.last() {
            VertexOrEdge::V(v) => v.properties@,
            VertexOrEdge::E(x) => x.properties@,
        },
        _ => Seq::empty(),
    }
}

/// The logical length of an entry.
pub open spec fn spec_entry_len(e: Entry) -> int {
    match e {
        Entry::Path(p) => p.elements@.len() as int,
        Entry::Intersection(x) => x.ids@.len() as int,
        Entry::GeneralIntersection(x) => x.ids@.len() as int,
        Entry::Collection(c) => c.inner@.len() as int,
        Entry::Null(_) => 0,
        _ => 1,
    }
}

/// Tag-gated equality of entries: values of different kinds are never
/// equal; graph elements are equal when their identifiers are; scalars,
/// intersections, collections and pairs are equal structurally; the null
/// entry equals itself.
pub open spec fn spec_entry_eq(a: Entry, b: Entry) -> bool
    decreases a, 0int, 0int,
{
    match (a, b) {
        (Entry::Vertex(x), Entry::Vertex(y)) => x.id == y.id,
        (Entry::Edge(x), Entry::Edge(y)) => x.id == y.id,
        (Entry::Path(x), Entry::Path(y)) => spec_path_eq(x, y),
        (Entry::Object(x), Entry::Object(y)) => spec_obj_eq(x, y),
        (Entry::Intersection(x), Entry::Intersection(y)) => x.ids@ == y.ids@,
        (Entry::GeneralIntersection(x), Entry::GeneralIntersection(y)) => x.ids@ == y.ids@
            && x.counts@ == y.counts@,
        (Entry::Collection(x), Entry::Collection(y)) => spec_entry_seq_eq(x.inner@, y.inner@),
        (Entry::Pair(x), Entry::Pair(y)) => spec_entry_eq(x.spec_left(), y.spec_left())
            && spec_entry_eq(x.spec_right(), y.spec_right()),
        (Entry::Null(_), Entry::Null(_)) => true,
        _ => false,
    }
}

pub open spec fn spec_entry_seq_eq(s: Seq<DynEntry>, t: Seq<DynEntry>) -> bool
    decreases s, 1int, s.len(),
{
    if s.len() != t.len() {
        false
    } else if s.len() == 0 {
        true
    } else {
        spec_entry_eq(s[0].entry(), t[0].entry()) && spec_entry_seq_eq(
            s.drop_first(),
            t.drop_first(),
        )
    }
}

/// Tag-gated partial order of entries: different kinds (and the two
/// intersection sub-forms) are incomparable; graph elements order by
/// identifier; collections and pairs order componentwise; the null entry
/// is ordered with nothing, not even itself.
pub open spec fn spec_entry_cmp(a: Entry, b: Entry) -> Option<Ordering>
    decreases a, 0int, 0int,
{
    match (a, b) {
        (Entry::Vertex(x), Entry::Vertex(y)) => Some(spec_id_cmp(x.id, y.id)),
        (Entry::Edge(x), Entry::Edge(y)) => Some(spec_id_cmp(x.id, y.id)),
        (Entry::Path(x), Entry::Path(y)) => Some(spec_voe_seq_cmp(x.elements@, y.elements@)),
        (Entry::Object(x), Entry::Object(y)) => spec_obj_cmp(x, y),
        (Entry::Intersection(x), Entry::Intersection(y)) => Some(
            spec_id_seq_cmp(x.ids@, y.ids@),
        ),
        (Entry::GeneralIntersection(x), Entry::GeneralIntersection(y)) => Some(
            spec_general_cmp(x, y),
        ),
        (Entry::Collection(x), Entry::Collection(y)) => spec_entry_seq_cmp(x.inner@, y.inner@),
        (Entry::Pair(x), Entry::Pair(y)) => match spec_entry_cmp(x.spec_left(), y.spec_left()) {
            Some(Ordering::Equal) => spec_entry_cmp(x.spec_right(), y.spec_right()),
            other => other,
        },
        _ => None,
    }
}

pub open spec fn spec_id_cmp(a: u64, b: u64) -> Ordering {
    if a < b {
        Ordering::Less
    } else if a == b {
        Ordering::Equal
    } else {
        Ordering::Greater
    }
}

pub open spec fn spec_id_seq_cmp(s: Seq<u64>, t: Seq<u64>) -> Ordering
    decreases s.len(),
{
    if s.len() == 0 && t.len() == 0 {
        Ordering::Equal
    } else if s.len() == 0 {
        Ordering::Less
    } else if t.len() == 0 {
        Ordering::Greater
    } else if s[0] < t[0] {
        Ordering::Less
    } else if s[0] > t[0] {
        Ordering::Greater
    } else {
        spec_id_seq_cmp(s.drop_first(), t.drop_first())
    }
}

pub open spec fn spec_u32_seq_cmp(s: Seq<u32>, t: Seq<u32>) -> Ordering
    decreases s.len(),
{
    if s.len() == 0 && t.len() == 0 {
        Ordering::Equal
    } else if s.len() == 0 {
        Ordering::Less
    } else if t.len() == 0 {
        Ordering::Greater
    } else if s[0] < t[0] {
        Ordering::Less
    } else if s[0] > t[0] {
        Ordering::Greater
    } else {
        spec_u32_seq_cmp(s.drop_first(), t.drop_first())
    }
}

/// The general intersection orders by the id list, then the counts.
pub open spec fn spec_general_cmp(
    x: GeneralIntersectionEntry,
    y: GeneralIntersectionEntry,
) -> Ordering {
    match spec_id_seq_cmp(x.ids@, y.ids@) {
        Ordering::Equal => spec_u32_seq_cmp(x.counts@, y.counts@),
        other => other,
    }
}

pub open spec fn spec_entry_seq_cmp(s: Seq<DynEntry>, t: Seq<DynEntry>) -> Option<Ordering>
    decreases s, 1int, s.len(),
{
    if s.len() == 0 && t.len() == 0 {
        Some(Ordering::Equal)
    } else if s.len() == 0 {
        Some(Ordering::Less)
    } else if t.len() == 0 {
        Some(Ordering::Greater)
    } else {
        match spec_entry_cmp(s[0].entry(), t[0].entry()) {
            Some(Ordering::Equal) => spec_entry_seq_cmp(s.drop_first(), t.drop_first()),
            other => other,
        }
    }
}

/// A hash consistent with `spec_entry_eq`: it reads only what equality
/// reads (identifiers for graph elements, structure elsewhere), seeded
/// differently per kind.
pub open spec fn spec_entry_hash(a: Entry) -> u64
    decreases a, 0int, 0int,
{
    match a {
        Entry::Vertex(x) => mix(11, x.id),
        Entry::Edge(x) => mix(12, x.id),
        Entry::Path(x) => spec_voe_seq_hash(x.elements@),
        Entry::Object(x) => mix(14, spec_obj_hash(x)),
        Entry::Intersection(x) => spec_id_seq_hash(x.ids@, 15),
        Entry::GeneralIntersection(x) => mix(
            spec_id_seq_hash(x.ids@, 18),
            spec_u32_seq_hash(x.counts@, 20),
        ),
        Entry::Collection(x) => spec_entry_seq_hash(x.inner@),
        Entry::Pair(x) => mix(
            mix(17, spec_entry_hash(x.spec_left())),
            spec_entry_hash(x.spec_right()),
        ),
        Entry::Null(_) => 19,
    }
}

pub open spec fn spec_id_seq_hash(s: Seq<u64>, h0: u64) -> u64
    decreases s.len(),
{
    if s.len() == 0 {
        h0
    } else {
        mix(spec_id_seq_hash(s.drop_last(), h0), s.last())
    }
}

pub open spec fn spec_u32_seq_hash(s: Seq<u32>, h0: u64) -> u64
    decreases s.len(),
{
    if s.len() == 0 {
        h0
    } else {
        mix(spec_u32_seq_hash(s.drop_last(), h0), s.last() as u64)
    }
}

pub open spec fn spec_entry_seq_hash(s: Seq<DynEntry>) -> u64
    decreases s, 1int, s.len(),
{
    if s.len() == 0 {
        16
    } else {
        mix(spec_entry_seq_hash(s.drop_last()), spec_entry_hash(s.last().entry()))
    }
}

impl PairEntry {
    /// Pair two entries (the handles are moved, not copied).
    pub fn new(left: DynEntry, right: DynEntry) -> (r: PairEntry)
        ensures
            r.spec_left() == left.entry(),
            r.spec_right() == right.entry(),
    {
        PairEntry { left, right }
    }

    pub fn get_left(&self) -> (r: &DynEntry)
        ensures
            r.entry() == self.spec_left(),
    {
        &self.left
    }

    pub fn get_right(&self) -> (r: &DynEntry)
        ensures
            r.entry() == self.spec_right(),
    {
        &self.right
    }

    /// The left component, as a ghost value for contracts.
    pub closed spec fn spec_left(&self) -> Entry {
        self.left.entry()
    }

    pub closed spec fn spec_right(&self) -> Entry {
        self.right.entry()
    }
}

/// Compare two entries; see `spec_entry_cmp`.
pub fn entry_cmp(a: &Entry, b: &Entry) -> (r: Option<Ordering>)
    ensures
        r == spec_entry_cmp(*a, *b),
    decreases *a, 0int, 0int,
{
    match (a, b) {
        (Entry::Vertex(x), Entry::Vertex(y)) => Some(id_cmp(x.id, y.id)),
        (Entry::Edge(x), Entry::Edge(y)) => Some(id_cmp(x.id, y.id)),
        (Entry::Path(x), Entry::Path(y)) => Some(voe_seq_cmp(&x.elements, &y.elements)),
        (Entry::Object(x), Entry::Object(y)) => obj_cmp(x, y),
        (Entry::Intersection(x), Entry::Intersection(y)) => Some(id_seq_cmp(&x.ids, &y.ids)),
        (Entry::GeneralIntersection(x), Entry::GeneralIntersection(y)) => {
            match id_seq_cmp(&x.ids, &y.ids) {
                Ordering::Equal => Some(u32_seq_cmp(&x.counts, &y.counts)),
                other => Some(other),
            }
        },
        (Entry::Collection(x), Entry::Collection(y)) => {
            let mut i: usize = 0;
            proof {
                assert(x.inner@.subrange(0, x.inner@.len() as int) =~= x.inner@);
                assert(y.inner@.subrange(0, y.inner@.len() as int) =~= y.inner@);
            }
            while i < x.inner.len() && i < y.inner.len()
                invariant
                    a matches Entry::Collection(xx) && xx == x,
                    b matches Entry::Collection(yy) && yy == y,
                    i <= x.inner@.len(),
                    i <= y.inner@.len(),
                    spec_entry_seq_cmp(x.inner@, y.inner@) == spec_entry_seq_cmp(
                        x.inner@.subrange(i as int, x.inner@.len() as int),
                        y.inner@.subrange(i as int, y.inner@.len() as int),
                    ),
                decreases x.inner@.len() - i,
            {
                proof {
                    let sa = x.inner@.subrange(i as int, x.inner@.len() as int);
                    let sb = y.inner@.subrange(i as int, y.inner@.len() as int);
                    assert(sa[0] == x.inner@[i as int]);
                    assert(sb[0] == y.inner@[i as int]);
                    assert(sa.drop_first() =~= x.inner@.subrange(i + 1, x.inner@.len() as int));
                    assert(sb.drop_first() =~= y.inner@.subrange(i + 1, y.inner@.len() as int));
                }
                match entry_cmp(&x.inner[i].inner, &y.inner[i].inner) {
                    Some(Ordering::Equal) => {
                        i = i + 1;
                    },
                    other => {
                        return other;
                    },
                }
            }
            if x.inner.len() == y.inner.len() {
                Some(Ordering::Equal)
            } else if x.inner.len() < y.inner.len() {
                Some(Ordering::Less)
            } else {
                Some(Ordering::Greater)
            }
        },
        (Entry::Pair(x), Entry::Pair(y)) => {
            match entry_cmp(&x.left.inner, &y.left.inner) {
                Some(Ordering::Equal) => entry_cmp(&x.right.inner, &y.right.inner),
                other => other,
            }
        },
        _ => None,
    }
}

fn id_cmp(a: u64, b: u64) -> (r: Ordering)
    ensures
        r == spec_id_cmp(a, b),
{
    if a < b {
        Ordering::Less
    } else if a == b {
        Ordering::Equal
    } else {
        Ordering::Greater
    }
}

fn voe_cmp(a: &VertexOrEdge, b: &VertexOrEdge) -> (r: Ordering)
    ensures
        r == spec_voe_cmp(*a, *b),
{
    match (a, b) {
        (VertexOrEdge::V(_), VertexOrEdge::E(_)) => Ordering::Less,
        (VertexOrEdge::E(_), VertexOrEdge::V(_)) => Ordering::Greater,
        _ => id_cmp(a.id(), b.id()),
    }
}

fn voe_seq_cmp(x: &Vec<VertexOrEdge>, y: &Vec<VertexOrEdge>) -> (r: Ordering)
    ensures
        r == spec_voe_seq_cmp(x@, y@),
{
    let mut i: usize = 0;
    proof {
        assert(x@.subrange(0, x@.len() as int) =~= x@);
        assert(y@.subrange(0, y@.len() as int) =~= y@);
    }
    while i < x.len() && i < y.len()
        invariant
            i <= x@.len(),
            i <= y@.len(),
            spec_voe_seq_cmp(x@, y@) == spec_voe_seq_cmp(
                x@.subrange(i as int, x@.len() as int),
                y@.subrange(i as int, y@.len() as int),
            ),
        decreases x@.len() - i,
    {
        proof {
            let sa = x@.subrange(i as int, x@.len() as int);
            let sb = y@.subrange(i as int, y@.len() as int);
            assert(sa[0] == x@[i as int]);
            assert(sb[0] == y@[i as int]);
            assert(sa.drop_first() =~= x@.subrange(i + 1, x@.len() as int));
            assert(sb.drop_first() =~= y@.subrange(i + 1, y@.len() as int));
        }
        match voe_cmp(&x[i], &y[i]) {
            Ordering::Equal => {
                i = i + 1;
            },
            other => {
                return other;
            },
        }
    }
    if x.len() == y.len() {
        Ordering::Equal
    } else if x.len() < y.len() {
        Ordering::Less
    } else {
        Ordering::Greater
    }
}

fn id_seq_cmp(x: &Vec<u64>, y: &Vec<u64>) -> (r: Ordering)
    ensures
        r == spec_id_seq_cmp(x@, y@),
{
    let mut i: usize = 0;
    proof {
        assert(x@.subrange(0, x@.len() as int) =~= x@);
        assert(y@.subrange(0, y@.len() as int) =~= y@);
    }
    while i < x.len() && i < y.len()
        invariant
            i <= x@.len(),
            i <= y@.len(),
            spec_id_seq_cmp(x@, y@) == spec_id_seq_cmp(
                x@.subrange(i as int, x@.len() as int),
                y@.subrange(i as int, y@.len() as int),
            ),
        decreases x@.len() - i,
    {
        proof {
            let sa = x@.subrange(i as int, x@.len() as int);
            let sb = y@.subrange(i as int, y@.len() as int);
            assert(sa[0] == x@[i as int]);
            assert(sb[0] == y@[i as int]);
            assert(sa.drop_first() =~= x@.subrange(i + 1, x@.len() as int));
            assert(sb.drop_first() =~= y@.subrange(i + 1, y@.len() as int));
        }
        if x[i] < y[i] {
            return Ordering::Less;
        }
        if x[i] > y[i] {
            return Ordering::Greater;
        }
        i = i + 1;
    }
    if x.len() == y.len() {
        Ordering::Equal
    } else if x.len() < y.len() {
        Ordering::Less
    } else {
        Ordering::Greater
    }
}

fn u32_seq_cmp(x: &Vec<u32>, y: &Vec<u32>) -> (r: Ordering)
    ensures
        r == spec_u32_seq_cmp(x@, y@),
{
    let mut i: usize = 0;
    proof {
        assert(x@.subrange(0, x@.len() as int) =~= x@);
        assert(y@.subrange(0, y@.len() as int) =~= y@);
    }
    while i < x.len() && i < y.len()
        invariant
            i <= x@.len(),
            i <= y@.len(),
            spec_u32_seq_cmp(x@, y@) == spec_u32_seq_cmp(
                x@.subrange(i as int, x@.len() as int),
                y@.subrange(i as int, y@.len() as int),
            ),
        decreases x@.len() - i,
    {
        proof {
            let sa = x@.subrange(i as int, x@.len() as int);
            let sb = y@.subrange(i as int, y@.len() as int);
            assert(sa[0] == x@[i as int]);
            assert(sb[0] == y@[i as int]);
            assert(sa.drop_first() =~= x@.subrange(i + 1, x@.len() as int));
            assert(sb.drop_first() =~= y@.subrange(i + 1, y@.len() as int));
        }
        if x[i] < y[i] {
            return Ordering::Less;
        }
        if x[i] > y[i] {
            return Ordering::Greater;
        }
        i = i + 1;
    }
    if x.len() == y.len() {
        Ordering::Equal
    } else if x.len() < y.len() {
        Ordering::Less
    } else {
        Ordering::Greater
    }
}

/// Whether two entries are equal; see `spec_entry_eq`.
pub fn entry_eq(a: &Entry, b: &Entry) -> (r: bool)
    ensures
        r == spec_entry_eq(*a, *b),
    decreases *a, 0int, 0int,
{
    match (a, b) {
        (Entry::Vertex(x), Entry::Vertex(y)) => x.id == y.id,
        (Entry::Edge(x), Entry::Edge(y)) => x.id == y.id,
        (Entry::Path(x), Entry::Path(y)) => {
            if x.elements.len() != y.elements.len() {
                return false;
            }
            let mut i: usize = 0;
            while i < x.elements.len()
                invariant
                    a matches Entry::Path(xx) && xx == x,
                    b matches Entry::Path(yy) && yy == y,
                    x.elements@.len() == y.elements@.len(),
                    i <= x.elements@.len(),
                    forall|j: int|
                        0 <= j < i ==> spec_voe_eq(#[trigger] x.elements@[j], y.elements@[j]),
                decreases x.elements@.len() - i,
            {
                let same = match (&x.elements[i], &y.elements[i]) {
                    (VertexOrEdge::V(v), VertexOrEdge::V(w)) => v.id == w.id,
                    (VertexOrEdge::E(v), VertexOrEdge::E(w)) => v.id == w.id,
                    _ => false,
                };
                if !same {
                    return false;
                }
                i = i + 1;
            }
            true
        },
        (Entry::Object(x), Entry::Object(y)) => obj_eq(x, y),
        (Entry::Intersection(x), Entry::Intersection(y)) => {
            let r = matches!(id_seq_cmp(&x.ids, &y.ids), Ordering::Equal);
            proof {
                if spec_id_seq_cmp(x.ids@, y.ids@) == Ordering::Equal {
                    lemma_id_seq_cmp_equal(x.ids@, y.ids@);
                }
                if x.ids@ == y.ids@ {
                    lemma_id_seq_cmp_refl(x.ids@);
                }
            }
            r
        },
        (Entry::GeneralIntersection(x), Entry::GeneralIntersection(y)) => {
            let r = matches!(id_seq_cmp(&x.ids, &y.ids), Ordering::Equal) && matches!(
                u32_seq_cmp(&x.counts, &y.counts),
                Ordering::Equal,
            );
            proof {
                if spec_id_seq_cmp(x.ids@, y.ids@) == Ordering::Equal {
                    lemma_id_seq_cmp_equal(x.ids@, y.ids@);
                }
                if spec_u32_seq_cmp(x.counts@, y.counts@) == Ordering::Equal {
                    lemma_u32_seq_cmp_equal(x.counts@, y.counts@);
                }
                if x.ids@ == y.ids@ {
                    lemma_id_seq_cmp_refl(x.ids@);
                }
                if x.counts@ == y.counts@ {
                    lemma_u32_seq_cmp_refl(x.counts@);
                }
            }
            r
        },
        (Entry::Collection(x), Entry::Collection(y)) => {
            let mut i: usize = 0;
            if x.inner.len() != y.inner.len() {
                proof {
                    lemma_entry_seq_eq_len(x.inner@, y.inner@);
                }
                return false;
            }
            proof {
                assert(x.inner@.subrange(0, x.inner@.len() as int) =~= x.inner@);
                assert(y.inner@.subrange(0, y.inner@.len() as int) =~= y.inner@);
            }
            while i < x.inner.len()
                invariant
                    a matches Entry::Collection(xx) && xx == x,
                    b matches Entry::Collection(yy) && yy == y,
                    x.inner@.len() == y.inner@.len(),
                    i <= x.inner@.len(),
                    spec_entry_seq_eq(x.inner@, y.inner@) == spec_entry_seq_eq(
                        x.inner@.subrange(i as int, x.inner@.len() as int),
                        y.inner@.subrange(i as int, y.inner@.len() as int),
                    ),
                decreases x.inner@.len() - i,
            {
                proof {
                    let sa = x.inner@.subrange(i as int, x.inner@.len() as int);
                    let sb = y.inner@.subrange(i as int, y.inner@.len() as int);
                    assert(sa[0] == x.inner@[i as int]);
                    assert(sb[0] == y.inner@[i as int]);
                    assert(sa.drop_first() =~= x.inner@.subrange(i + 1, x.inner@.len() as int));
                    assert(sb.drop_first() =~= y.inner@.subrange(i + 1, y.inner@.len() as int));
                }
                if !entry_eq(&x.inner[i].inner, &y.inner[i].inner) {
                    return false;
                }
                i = i + 1;
            }
            true
        },
        (Entry::Pair(x), Entry::Pair(y)) => {
            entry_eq(&x.left.inner, &y.left.inner) && entry_eq(&x.right.inner, &y.right.inner)
        },
        (Entry::Null(_), Entry::Null(_)) => true,
        _ => false,
    }
}

proof fn lemma_id_seq_cmp_equal(s: Seq<u64>, t: Seq<u64>)
    requires
        spec_id_seq_cmp(s, t) == Ordering::Equal,
    ensures
        s == t,
    decreases s.len(),
{
    if s.len() == 0 || t.len() == 0 {
        assert(s =~= t);
    } else {
        lemma_id_seq_cmp_equal(s.drop_first(), t.drop_first());
        assert(s =~= t) by {
            assert(forall|i: int| 1 <= i < s.len() ==> s[i] == s.drop_first()[i - 1]);
            assert(forall|i: int| 1 <= i < t.len() ==> t[i] == t.drop_first()[i - 1]);
        }
    }
}

proof fn lemma_id_seq_cmp_refl(s: Seq<u64>)
    ensures
        spec_id_seq_cmp(s, s) == Ordering::Equal,
    decreases s.len(),
{
    if s.len() > 0 {
        lemma_id_seq_cmp_refl(s.drop_first());
    }
}

proof fn lemma_u32_seq_cmp_equal(s: Seq<u32>, t: Seq<u32>)
    requires
        spec_u32_seq_cmp(s, t) == Ordering::Equal,
    ensures
        s == t,
    decreases s.len(),
{
    if s.len() == 0 || t.len() == 0 {
        assert(s =~= t);
    } else {
        lemma_u32_seq_cmp_equal(s.drop_first(), t.drop_first());
        assert(s =~= t) by {
            assert(forall|i: int| 1 <= i < s.len() ==> s[i] == s.drop_first()[i - 1]);
            assert(forall|i: int| 1 <= i < t.len() ==> t[i] == t.drop_first()[i - 1]);
        }
    }
}

proof fn lemma_u32_seq_cmp_refl(s: Seq<u32>)
    ensures
        spec_u32_seq_cmp(s, s) == Ordering::Equal,
    decreases s.len(),
{
    if s.len() > 0 {
        lemma_u32_seq_cmp_refl(s.drop_first());
    }
}

proof fn lemma_entry_seq_eq_len(s: Seq<DynEntry>, t: Seq<DynEntry>)
    ensures
        spec_entry_seq_eq(s, t) ==> s.len() == t.len(),
{
}

/// Hash an entry; see `spec_entry_hash`.
pub fn entry_hash(a: &Entry) -> (r: u64)
    ensures
        r == spec_entry_hash(*a),
    decreases *a, 0int, 0int,
{
    match a {
        Entry::Vertex(x) => mix_u64(11, x.id),
        Entry::Edge(x) => mix_u64(12, x.id),
        Entry::Path(x) => {
            let mut h: u64 = 23;
            let mut i: usize = 0;
            while i < x.elements.len()
                invariant
                    i <= x.elements@.len(),
                    h == spec_voe_seq_hash(x.elements@.subrange(0, i as int)),
                decreases x.elements@.len() - i,
            {
                let eh = match &x.elements[i] {
                    VertexOrEdge::V(v) => mix_u64(21, v.id),
                    VertexOrEdge::E(e) => mix_u64(22, e.id),
                };
                h = mix_u64(h, eh);
                i = i + 1;
                proof {
                    let pre = x.elements@.subrange(0, i as int);
                    assert(pre.drop_last() =~= x.elements@.subrange(0, i - 1));
                }
            }
            proof {
                assert(x.elements@.subrange(0, x.elements@.len() as int) =~= x.elements@);
            }
            h
        },
        Entry::Object(x) => mix_u64(14, obj_hash(x)),
        Entry::Intersection(x) => id_seq_hash(&x.ids, 15),
        Entry::GeneralIntersection(x) => mix_u64(
            id_seq_hash(&x.ids, 18),
            u32_seq_hash(&x.counts, 20),
        ),
        Entry::Collection(x) => {
            let mut h: u64 = 16;
            let mut i: usize = 0;
            while i < x.inner.len()
                invariant
                    a matches Entry::Collection(xx) && xx == x,
                    i <= x.inner@.len(),
                    h == spec_entry_seq_hash(x.inner@.subrange(0, i as int)),
                decreases x.inner@.len() - i,
            {
                let eh = entry_hash(&x.inner[i].inner);
                h = mix_u64(h, eh);
                i = i + 1;
                proof {
                    let pre = x.inner@.subrange(0, i as int);
                    assert(pre.drop_last() =~= x.inner@.subrange(0, i - 1));
                }
            }
            proof {
                assert(x.inner@.subrange(0, x.inner@.len() as int) =~= x.inner@);
            }
            h
        },
        Entry::Pair(x) => mix_u64(
            mix_u64(17, entry_hash(&x.left.inner)),
            entry_hash(&x.right.inner),
        ),
        Entry::Null(_) => 19,
    }
}

fn id_seq_hash(v: &Vec<u64>, h0: u64) -> (r: u64)
    ensures
        r == spec_id_seq_hash(v@, h0),
{
    let mut h = h0;
    let mut i: usize = 0;
    while i < v.len()
        invariant
            i <= v@.len(),
            h == spec_id_seq_hash(v@.subrange(0, i as int), h0),
        decreases v@.len() - i,
    {
        h = mix_u64(h, v[i]);
        i = i + 1;
        proof {
            let pre = v@.subrange(0, i as int);
            assert(pre.drop_last() =~= v@.subrange(0, i - 1));
        }
    }
    proof {
        assert(v@.subrange(0, v@.len() as int) =~= v@);
    }
    h
}

fn u32_seq_hash(v: &Vec<u32>, h0: u64) -> (r: u64)
    ensures
        r == spec_u32_seq_hash(v@, h0),
{
    let mut h = h0;
    let mut i: usize = 0;
    while i < v.len()
        invariant
            i <= v@.len(),
            h == spec_u32_seq_hash(v@.subrange(0, i as int), h0),
        decreases v@.len() - i,
    {
        h = mix_u64(h, v[i] as u64);
        i = i + 1;
        proof {
            let pre = v@.subrange(0, i as int);
            assert(pre.drop_last() =~= v@.subrange(0, i - 1));
        }
    }
    proof {
        assert(v@.subrange(0, v@.len() as int) =~= v@);
    }
    h
}

impl DynEntry {
    /// Compare two handles by the tag-gated order.
    pub fn compare(&self, other: &DynEntry) -> (r: Option<Ordering>)
        ensures
            r == spec_entry_cmp(self.entry(), other.entry()),
    {
        entry_cmp(&self.inner, &other.inner)
    }

    /// The 64-bit hash of this entry, consistent with equality.
    pub fn hash64(&self) -> (r: u64)
        ensures
            r == spec_entry_hash(self.entry()),
    {
        entry_hash(&self.inner)
    }
}

impl PartialEq for DynEntry {
    fn eq(&self, other: &Self) -> (r: bool) {
        entry_eq(&self.inner, &other.inner)
    }
}

impl vstd::std_specs::cmp::PartialEqSpecImpl for DynEntry {
    open spec fn obeys_eq_spec() -> bool {
        true
    }

    open spec fn eq_spec(&self, other: &Self) -> bool {
        spec_entry_eq(self.entry(), other.entry())
    }
}

impl PartialOrd for DynEntry {
    fn partial_cmp(&self, other: &Self) -> (r: Option<Ordering>) {
        entry_cmp(&self.inner, &other.inner)
    }
}

impl vstd::std_specs::cmp::PartialOrdSpecImpl for DynEntry {
    open spec fn obeys_partial_cmp_spec() -> bool {
        true
    }

    open spec fn partial_cmp_spec(&self, other: &Self) -> Option<Ordering> {
        spec_entry_cmp(self.entry(), other.entry())
    }
}

/// The ghost image of a scalar: text as characters, buffers as sequences.
pub enum ObjV {
    Byte(i8),
    Integer(i32),
    UInteger(u32),
    Long(i64),
    ULong(u64),
    ULLong(u128),
    Float(u32),
    Double(u64),
    Str(Seq<char>),
    Blob(Seq<u8>),
    Vector(Seq<ObjV>),
    KV(Seq<(ObjV, ObjV)>),
    NoneV,
}

/// The ghost image of a property key.
pub enum KeyV {
    Str(Seq<char>),
    Id(i32),
}

/// The ghost image of one stored property.
pub struct PropV {
    pub key: KeyV,
    pub value: ObjV,
}

/// The ghost image of a vertex.
pub struct VertexV {
    pub id: u64,
    pub label: Option<i32>,
    pub props: Seq<PropV>,
}

/// The ghost image of an edge.
pub struct EdgeV {
    pub id: u64,
    pub src: u64,
    pub dst: u64,
    pub label: Option<i32>,
    pub props: Seq<PropV>,
}

/// The ghost image of a path step.
pub enum VoeV {
    V(VertexV),
    E(EdgeV),
}

/// The ghost image of an entry.
pub enum EntryV {
    Vertex(VertexV),
    Edge(EdgeV),
    Path(Seq<VoeV>),
    Object(ObjV),
    Intersection(Seq<u64>),
    GeneralIntersection(Seq<u64>, Seq<u32>),
    Collection(Seq<EntryV>),
    Pair(Box<EntryV>, Box<EntryV>),
    Null,
}

/// The image of a scalar.
pub open spec fn view_obj(o: Object) -> ObjV
    decreases o, 0int, 0int,
{
    match o {
        Object::Primitive(Primitives::Byte(v)) => ObjV::Byte(v),
        Object::Primitive(Primitives::Integer(v)) => ObjV::Integer(v),
        Object::Primitive(Primitives::UInteger(v)) => ObjV::UInteger(v),
        Object::Primitive(Primitives::Long(v)) => ObjV::Long(v),
        Object::Primitive(Primitives::ULong(v)) => ObjV::ULong(v),
        Object::Primitive(Primitives::ULLong(v)) => ObjV::ULLong(v),
        Object::Primitive(Primitives::Float(v)) => ObjV::Float(v),
        Object::Primitive(Primitives::Double(v)) => ObjV::Double(v),
        Object::String(s) => ObjV::Str(s@),
        Object::Blob(b) => ObjV::Blob(b@),
        Object::Vector(v) => ObjV::Vector(view_obj_seq(v@)),
        Object::KV(v) => ObjV::KV(view_kv_seq(v@)),
        Object::NoneValue => ObjV::NoneV,
    }
}

pub open spec fn view_obj_seq(s: Seq<Object>) -> Seq<ObjV>
    decreases s, 1int, s.len(),
{
    if s.len() == 0 {
        Seq::empty()
    } else {
        seq![view_obj(s[0])] + view_obj_seq(s.drop_first())
    }
}

pub open spec fn view_kv_seq(s: Seq<KeyValue>) -> Seq<(ObjV, ObjV)>
    decreases s, 1int, s.len(),
{
    if s.len() == 0 {
        Seq::empty()
    } else {
        seq![(view_obj(s[0].key), view_obj(s[0].value))] + view_kv_seq(s.drop_first())
    }
}

pub open spec fn view_key(k: PropKey) -> KeyV {
    match k {
        PropKey::Str(s) => KeyV::Str(s@),
        PropKey::Id(i) => KeyV::Id(i),
    }
}

pub open spec fn view_props(s: Seq<PropEntry>) -> Seq<PropV>
    decreases s.len(),
{
    if s.len() == 0 {
        Seq::empty()
    } else {
        seq![PropV { key: view_key(s[0].key), value: view_obj(s[0].value) }] + view_props(
            s.drop_first(),
        )
    }
}

pub open spec fn view_vertex(v: Vertex) -> VertexV {
    VertexV { id: v.id, label: v.label, props: view_props(v.properties@) }
}

pub open spec fn view_edge(e: Edge) -> EdgeV {
    EdgeV { id: e.id, src: e.src_id, dst: e.dst_id, label: e.label, props: view_props(
        e.properties@,
    ) }
}

pub open spec fn view_voe(v: VertexOrEdge) -> VoeV {
    match v {
        VertexOrEdge::V(x) => VoeV::V(view_vertex(x)),
        VertexOrEdge::E(x) => VoeV::E(view_edge(x)),
    }
}

pub open spec fn view_voes(s: Seq<VertexOrEdge>) -> Seq<VoeV>
    decreases s.len(),
{
    if s.len() == 0 {
        Seq::empty()
    } else {
        seq![view_voe(s[0])] + view_voes(s.drop_first())
    }
}

/// The image of an entry.
pub open spec fn view_entry(e: Entry) -> EntryV
    decreases e, 0int, 0int,
{
    match e {
        Entry::Vertex(v) => EntryV::Vertex(view_vertex(v)),
        Entry::Edge(x) => EntryV::Edge(view_edge(x)),
        Entry::Path(p) => EntryV::Path(view_voes(p.elements@)),
        Entry::Object(o) => EntryV::Object(view_obj(o)),
        Entry::Intersection(x) => EntryV::Intersection(x.ids@),
        Entry::GeneralIntersection(x) => EntryV::GeneralIntersection(x.ids@, x.counts@),
        Entry::Collection(c) => EntryV::Collection(view_entry_seq(c.inner@)),
        Entry::Pair(p) => EntryV::Pair(
            Box::new(view_entry(p.spec_left())),
            Box::new(view_entry(p.spec_right())),
        ),
        Entry::Null(_) => EntryV::Null,
    }
}

pub open spec fn view_entry_seq(s: Seq<DynEntry>) -> Seq<EntryV>
    decreases s, 1int, s.len(),
{
    if s.len() == 0 {
        Seq::empty()
    } else {
        seq![view_entry(s[0].entry())] + view_entry_seq(s.drop_first())
    }
}


/// A pair's components sit below the pair in the well-founded order used
/// for recursion (needed by the codec, which recurses through the handle).
pub broadcast proof fn lemma_pair_decreases(p: PairEntry)
    ensures
        #[trigger] (decreases_to!(p => p.spec_left())),
        decreases_to!(p => p.spec_right()),
{
}

/// A handle's entry sits below the handle in the well-founded order.
pub broadcast proof fn lemma_dyn_decreases(d: DynEntry)
    ensures
        #[trigger] (decreases_to!(d => d.entry())),
{
}

} // verus!
