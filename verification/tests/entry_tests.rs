use graph_value::convert::{
    ElementInner, ParseError, ResultElement, ResultEntry, ResultEntryInner, ResultKeyValue,
};
use graph_value::entry::{
    CollectionEntry, DynEntry, Edge, Entry, GeneralIntersectionEntry, GraphPath,
    IntersectionEntry, NullEntry, PairEntry, PropEntry, PropKey, Vertex, VertexOrEdge, NULL_ID,
};
use graph_value::object::{KeyValue, Object, Primitives};
use graph_value::EntryType;

fn vertex(id: u64) -> Vertex {
    Vertex {
        id,
        label: Some(3),
        properties: vec![PropEntry {
            key: PropKey::Str("name".to_owned()),
            value: Object::String("n".to_owned()),
        }],
    }
}

fn edge(id: u64) -> Edge {
    Edge {
        id,
        src_id: 1,
        dst_id: 2,
        label: None,
        properties: vec![],
    }
}

fn roundtrip(d: &DynEntry) -> DynEntry {
    let mut bytes: Vec<u8> = Vec::new();
    d.write_to(&mut bytes);
    let (decoded, used) = DynEntry::read_from(&bytes, 0).unwrap();
    assert_eq!(used, bytes.len());
    decoded
}

#[test]
fn codec_round_trip_every_variant() {
    let samples = vec![
        DynEntry::new(Entry::Vertex(vertex(1))),
        DynEntry::new(Entry::Edge(edge(2))),
        DynEntry::new(Entry::Path(GraphPath {
            elements: vec![VertexOrEdge::V(vertex(1)), VertexOrEdge::E(edge(2))],
        })),
        DynEntry::new(Entry::Object(Object::Primitive(Primitives::Long(-5)))),
        DynEntry::new(Entry::Object(Object::Primitive(Primitives::Double(
            (2.5f64).to_bits(),
        )))),
        DynEntry::new(Entry::Object(Object::String("héllo".to_owned()))),
        DynEntry::new(Entry::Object(Object::Blob(vec![0, 255]))),
        DynEntry::new(Entry::Object(Object::Vector(vec![
            Object::Primitive(Primitives::Integer(1)),
            Object::NoneValue,
        ]))),
        DynEntry::new(Entry::Object(Object::KV(vec![KeyValue {
            key: Object::String("k".to_owned()),
            value: Object::Primitive(Primitives::Byte(-1)),
        }]))),
        DynEntry::new(Entry::Intersection(IntersectionEntry { ids: vec![7, 8] })),
        DynEntry::new(Entry::GeneralIntersection(GeneralIntersectionEntry {
            ids: vec![7],
            counts: vec![2],
        })),
        DynEntry::new(Entry::Null(NullEntry)),
    ];
    for d in &samples {
        let back = roundtrip(d);
        assert!(back == *d, "round trip changed the entry");
    }
    // Nested pair and collection round-trip too.
    let pair = DynEntry::new(Entry::Pair(PairEntry::new(
        DynEntry::new(Entry::Vertex(vertex(1))),
        DynEntry::new(Entry::Null(NullEntry)),
    )));
    assert!(roundtrip(&pair) == pair);
    let coll = DynEntry::new(Entry::Collection(CollectionEntry {
        inner: vec![pair.share(), DynEntry::new(Entry::Object(Object::NoneValue))],
    }));
    assert!(roundtrip(&coll) == coll);
    // The null entry is a single tag byte.
    let mut bytes: Vec<u8> = Vec::new();
    DynEntry::new(Entry::Null(NullEntry)).write_to(&mut bytes);
    assert_eq!(bytes, vec![9]);
    // The two intersection sub-forms use distinct tag bytes.
    let mut b1: Vec<u8> = Vec::new();
    DynEntry::new(Entry::Intersection(IntersectionEntry { ids: vec![] })).write_to(&mut b1);
    assert_eq!(b1[0], 5);
    let mut b2: Vec<u8> = Vec::new();
    DynEntry::new(Entry::GeneralIntersection(GeneralIntersectionEntry {
        ids: vec![],
        counts: vec![],
    }))
    .write_to(&mut b2);
    assert_eq!(b2[0], 8);
    // An unrecognized tag byte fails the decode.
    assert!(DynEntry::read_from(&vec![42u8], 0).is_err());
    assert!(DynEntry::read_from(&vec![], 0).is_err());
}

#[test]
fn tag_gated_comparison() {
    let v = DynEntry::new(Entry::Vertex(vertex(1)));
    let e = DynEntry::new(Entry::Edge(edge(1)));
    let o = DynEntry::new(Entry::Object(Object::Primitive(Primitives::Integer(1))));
    let n = DynEntry::new(Entry::Null(NullEntry));
    // Different tags: never equal, never ordered, never a panic.
    assert!(!(v == e));
    assert!(v.partial_cmp(&e).is_none());
    assert!(!(o == n));
    assert!(o.partial_cmp(&n).is_none());
    // Same tag: ordered by the variant's own rule.
    let v2 = DynEntry::new(Entry::Vertex(vertex(2)));
    assert!(v < v2);
    assert!(v == DynEntry::new(Entry::Vertex(Vertex {
        id: 1,
        label: None,
        properties: vec![],
    })));
    // Null equals null but is ordered with nothing, not even itself.
    let n2 = DynEntry::new(Entry::Null(NullEntry));
    assert!(n == n2);
    assert!(n.partial_cmp(&n2).is_none());
}

#[test]
fn hash_consistent_with_equality() {
    // Graph elements hash by identifier, like their equality.
    let a = DynEntry::new(Entry::Vertex(vertex(9)));
    let b = DynEntry::new(Entry::Vertex(Vertex {
        id: 9,
        label: Some(1),
        properties: vec![],
    }));
    assert!(a == b);
    assert_eq!(a.hash64(), b.hash64());
    // Numeric scalars of different widths that compare equal hash equal.
    let x = DynEntry::new(Entry::Object(Object::Primitive(Primitives::Integer(1))));
    let y = DynEntry::new(Entry::Object(Object::Primitive(Primitives::Long(1))));
    let z = DynEntry::new(Entry::Object(Object::Primitive(Primitives::Double(
        (1.0f64).to_bits(),
    ))));
    assert!(x == y);
    assert_eq!(x.hash64(), y.hash64());
    assert!(x == z);
    assert_eq!(x.hash64(), z.hash64());
    // The two zero doubles are equal and hash equal.
    let pz = DynEntry::new(Entry::Object(Object::Primitive(Primitives::Double(
        (0.0f64).to_bits(),
    ))));
    let nz = DynEntry::new(Entry::Object(Object::Primitive(Primitives::Double(
        (-0.0f64).to_bits(),
    ))));
    assert!(pz == nz);
    assert_eq!(pz.hash64(), nz.hash64());
    // Collections hash their elements.
    let c1 = DynEntry::new(Entry::Collection(CollectionEntry { inner: vec![x.share()] }));
    let c2 = DynEntry::new(Entry::Collection(CollectionEntry { inner: vec![y.share()] }));
    assert!(c1 == c2);
    assert_eq!(c1.hash64(), c2.hash64());
}

#[test]
fn entry_accessors() {
    let v = DynEntry::new(Entry::Vertex(vertex(4)));
    assert_eq!(v.get_type(), EntryType::Vertex);
    assert!(v.as_vertex().is_some());
    assert!(v.as_edge().is_none());
    assert!(v.as_graph_element());
    assert_eq!(v.id(), 4);
    assert_eq!(v.label(), Some(3));
    assert!(v
        .get_property(&PropKey::Str("name".to_owned()))
        .is_some());
    assert!(v.get_property(&PropKey::Str("nope".to_owned())).is_none());
    assert_eq!(v.get_all_properties().unwrap().len(), 1);
    assert_eq!(v.len(), 1);

    let n = DynEntry::new(Entry::Null(NullEntry));
    assert_eq!(n.get_type(), EntryType::Null);
    assert!(n.as_graph_element());
    assert_eq!(n.id(), NULL_ID);
    assert_eq!(n.label(), None);
    assert_eq!(n.len(), 0);
    assert!(n.is_none());
    assert!(DynEntry::new(Entry::Object(Object::NoneValue)).is_none());
    assert!(!v.is_none());

    let p = DynEntry::new(Entry::Pair(PairEntry::new(v.share(), n.share())));
    assert_eq!(p.get_type(), EntryType::Pair);
    assert!(p.as_borrow_object().is_none());
    assert_eq!(p.len(), 1);

    let path = DynEntry::new(Entry::Path(GraphPath {
        elements: vec![VertexOrEdge::V(vertex(1)), VertexOrEdge::E(edge(8))],
    }));
    assert_eq!(path.get_type(), EntryType::Path);
    assert_eq!(path.id(), 8);
    assert_eq!(path.len(), 2);

    // Both intersection sub-forms report the intersection tag.
    assert_eq!(
        DynEntry::new(Entry::Intersection(IntersectionEntry { ids: vec![] })).get_type(),
        EntryType::Intersection
    );
    assert_eq!(
        DynEntry::new(Entry::GeneralIntersection(GeneralIntersectionEntry {
            ids: vec![],
            counts: vec![],
        }))
        .get_type(),
        EntryType::Intersection
    );
}

#[test]
fn collection_transmission_scenario() {
    // Build a collection of three entries, encode it, decode it elsewhere,
    // and check element-wise equality and preserved order.
    let items = vec![
        DynEntry::new(Entry::Vertex(vertex(1))),
        DynEntry::new(Entry::Edge(edge(2))),
        DynEntry::new(Entry::Object(Object::Primitive(Primitives::Integer(7)))),
    ];
    let coll = DynEntry::new(Entry::Collection(CollectionEntry {
        inner: items.iter().map(|d| d.share()).collect(),
    }));
    let mut wire: Vec<u8> = Vec::new();
    coll.write_to(&mut wire);
    let (received, _) = DynEntry::read_from(&wire, 0).unwrap();
    assert!(received == coll);
    assert_eq!(received.get_type(), EntryType::Collection);
    assert_eq!(received.len(), 3);
}

#[test]
fn result_message_conversion() {
    // An element maps one-to-one.
    let e = ResultElement {
        inner: Some(ElementInner::Vertex(vertex(5))),
    };
    let d = DynEntry::try_from_element(e).unwrap();
    assert_eq!(d.get_type(), EntryType::Vertex);
    assert_eq!(
        DynEntry::try_from_element(ResultElement { inner: None }),
        Err(ParseError::EmptyField)
    );

    // A collection converts element-wise and fails whole on a bad element.
    let entry = ResultEntry {
        inner: Some(ResultEntryInner::Collection(vec![
            ResultElement {
                inner: Some(ElementInner::Object(Object::Primitive(
                    Primitives::Integer(1),
                ))),
            },
            ResultElement { inner: None },
        ])),
    };
    assert_eq!(
        DynEntry::try_from_result_entry(entry),
        Err(ParseError::EmptyField)
    );

    // A map of scalar values becomes an ordered key-to-scalar object.
    let kv = |k: &str, n: i32| ResultKeyValue {
        key: Some(Object::String(k.to_owned())),
        value: Some(ResultEntry {
            inner: Some(ResultEntryInner::Element(ResultElement {
                inner: Some(ElementInner::Object(Object::Primitive(
                    Primitives::Integer(n),
                ))),
            })),
        }),
    };
    let entry = ResultEntry {
        inner: Some(ResultEntryInner::Mapping(vec![kv("a", 1), kv("a", 2)])),
    };
    let d = DynEntry::try_from_result_entry(entry).unwrap();
    // The second value for the same key replaced the first.
    match d.as_object().unwrap() {
        Object::KV(pairs) => {
            assert_eq!(pairs.len(), 1);
            match &pairs[0].value {
                Object::Primitive(Primitives::Integer(n)) => assert_eq!(*n, 2),
                other => panic!("unexpected value {:?}", other),
            }
        }
        other => panic!("unexpected object {:?}", other),
    }

    // The same pairs arriving in either order give the same mapping.
    let ab = ResultEntry {
        inner: Some(ResultEntryInner::Mapping(vec![kv("a", 1), kv("b", 2)])),
    };
    let ba = ResultEntry {
        inner: Some(ResultEntryInner::Mapping(vec![kv("b", 2), kv("a", 1)])),
    };
    let d1 = DynEntry::try_from_result_entry(ab).unwrap();
    let d2 = DynEntry::try_from_result_entry(ba).unwrap();
    assert!(d1 == d2);

    // A nested collection inside a map entry fails loudly.
    let nested = ResultKeyValue {
        key: Some(Object::String("a".to_owned())),
        value: Some(ResultEntry {
            inner: Some(ResultEntryInner::Collection(vec![])),
        }),
    };
    let entry = ResultEntry {
        inner: Some(ResultEntryInner::Mapping(vec![nested])),
    };
    assert_eq!(
        DynEntry::try_from_result_entry(entry),
        Err(ParseError::Unsupported)
    );
}

#[test]
fn float_bit_model_matches_hardware() {
    let longs = [0i64, 1, -1, 255, -256, (1 << 53) + 1, i64::MAX, i64::MIN];
    for v in longs {
        assert_eq!(
            graph_value::fbits::i64_to_f64_bits(v),
            (v as f64).to_bits()
        );
        assert_eq!(
            graph_value::fbits::i64_to_f32_bits(v),
            (v as f32).to_bits()
        );
    }
    let doubles = [
        0.0f64, -0.0, 1.5, -2.75, 1.0e300, -1.0e-300, 3.5e38, 1.0e-40, 255.4, -255.6,
        f64::INFINITY, f64::NEG_INFINITY, 4.9e-324,
    ];
    for d in doubles {
        assert_eq!(
            graph_value::fbits::f64_to_f32_bits(d.to_bits()),
            (d as f32).to_bits(),
            "narrowing {d}"
        );
        assert_eq!(
            graph_value::fbits::f64_to_i64_sat(d.to_bits()),
            d as i64,
            "truncating {d}"
        );
    }
    let singles = [0.0f32, -0.0, 1.5, 3.4e38, 1.0e-42, -7.25];
    for s in singles {
        assert_eq!(
            graph_value::fbits::f32_widen(s.to_bits()),
            (s as f64).to_bits(),
            "widening {s}"
        );
    }
    // NaN keeps being NaN through the conversions.
    assert!(f32::from_bits(graph_value::fbits::f64_to_f32_bits(f64::NAN.to_bits())).is_nan());
    assert_eq!(graph_value::fbits::f64_to_i64_sat(f64::NAN.to_bits()), 0);
    // Comparison agrees with the hardware partial order.
    let pairs = [(1.0f64, 2.0f64), (-1.0, 1.0), (0.0, -0.0), (f64::NAN, 1.0)];
    for (x, y) in pairs {
        assert_eq!(
            graph_value::fbits::f64_cmp_bits(x.to_bits(), y.to_bits()),
            x.partial_cmp(&y)
        );
    }
}
