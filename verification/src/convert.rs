//! The conversion boundary from the external result-message format into
//! entries. A message element maps one-to-one onto a vertex, edge, path or
//! scalar entry; a message collection maps onto a collection entry, failing
//! whole if any element fails; a message map becomes a scalar entry holding
//! a key-ordered key-to-scalar mapping, so the pairs' arrival order does
//! not show in the result. Only scalar-valued map entries are supported: a
//! nested collection or map inside a map entry fails loudly, as does any
//! missing field.

use vstd::prelude::*;

use core::cmp::Ordering;

use crate::entry::{CollectionEntry, DynEntry, Edge, Entry, GraphPath, Vertex};
use crate::object::{obj_cmp, spec_obj_cmp, KeyValue, Object};

verus! {

/// A malformed or unsupported result message.
#[derive(Debug, PartialEq, Eq, Structural, Clone, Copy)]
pub enum ParseError {
    /// A field the conversion needs was absent.
    EmptyField,
    /// A shape the conversion does not support (a non-scalar map value, a
    /// nested collection or map).
    Unsupported,
}

/// The payload of a message element.
#[derive(Debug)]
pub enum ElementInner {
    Vertex(Vertex),
    Edge(Edge),
    GraphPath(GraphPath),
    Object(Object),
}

/// A message element; its payload may be absent.
#[derive(Debug)]
pub struct ResultElement {
    pub inner: Option<ElementInner>,
}

/// One key/value pair of a message map; either side may be absent.
#[derive(Debug)]
pub struct ResultKeyValue {
    pub key: Option<Object>,
    pub value: Option<ResultEntry>,
}

/// The payload of a message entry.
#[derive(Debug)]
pub enum ResultEntryInner {
    Element(ResultElement),
    Collection(Vec<ResultElement>),
    Mapping(Vec<ResultKeyValue>),
}

/// A message entry; its payload may be absent.
#[derive(Debug)]
pub struct ResultEntry {
    pub inner: Option<ResultEntryInner>,
}

/// What converting one message element yields.
pub open spec fn spec_convert_element(e: ResultElement) -> Result<Entry, ParseError> {
    match e.inner {
        Option::None => Err(ParseError::EmptyField),
        Option::Some(ElementInner::Vertex(v)) => Ok(Entry::Vertex(v)),
        Option::Some(ElementInner::Edge(x)) => Ok(Entry::Edge(x)),
        Option::Some(ElementInner::GraphPath(p)) => Ok(Entry::Path(p)),
        Option::Some(ElementInner::Object(o)) => Ok(Entry::Object(o)),
    }
}

/// Insert into a key-ordered association list: the pairs stay sorted by
/// the scalar order on keys, an equal key replaces the value in place, and
/// a key the scalar order cannot compare with an existing one is
/// unsupported. Keeping the keys sorted makes the mapping independent of
/// the order in which the message delivered its pairs.
pub open spec fn spec_map_insert(s: Seq<KeyValue>, k: Object, v: Object) -> Result<
    Seq<KeyValue>,
    ParseError,
>
    decreases s.len(),
{
    if s.len() == 0 {
        Ok(seq![KeyValue { key: k, value: v }])
    } else {
        match spec_obj_cmp(s[0].key, k) {
            Some(Ordering::Equal) => Ok(
                seq![KeyValue { key: s[0].key, value: v }] + s.drop_first(),
            ),
            Some(Ordering::Less) => match spec_map_insert(s.drop_first(), k, v) {
                Ok(rest) => Ok(seq![s[0]] + rest),
                Err(e) => Err(e),
            },
            Some(Ordering::Greater) => Ok(seq![KeyValue { key: k, value: v }] + s),
            None => Err(ParseError::Unsupported),
        }
    }
}

/// What folding a message map's pairs into an association list yields:
/// every pair must have a key and a scalar element value.
pub open spec fn spec_convert_map(kvs: Seq<ResultKeyValue>, acc: Seq<KeyValue>) -> Result<
    Seq<KeyValue>,
    ParseError,
>
    decreases kvs.len(),
{
    if kvs.len() == 0 {
        Ok(acc)
    } else {
        match kvs[0].key {
            Option::None => Err(ParseError::EmptyField),
            Option::Some(k) => match kvs[0].value {
                Option::None => Err(ParseError::EmptyField),
                Option::Some(entry) => match entry.inner {
                    Option::None => Err(ParseError::EmptyField),
                    Option::Some(ResultEntryInner::Element(el)) => match el.inner {
                        Option::Some(ElementInner::Object(o)) => match spec_map_insert(acc, k, o) {
                            Ok(acc2) => spec_convert_map(kvs.drop_first(), acc2),
                            Err(e) => Err(e),
                        },
                        _ => Err(ParseError::Unsupported),
                    },
                    _ => Err(ParseError::Unsupported),
                },
            },
        }
    }
}

fn map_insert(s: Vec<KeyValue>, k: Object, v: Object) -> (r: Result<Vec<KeyValue>, ParseError>)
    ensures
        match r {
            Ok(out) => spec_map_insert(s@, k, v) == Ok::<Seq<KeyValue>, ParseError>(out@),
            Err(e) => spec_map_insert(s@, k, v) == Err::<Seq<KeyValue>, ParseError>(e),
        },
    decreases s@.len(),
{
    let mut s = s;
    let ghost s0 = s@;
    if s.len() == 0 {
        let mut out: Vec<KeyValue> = Vec::new();
        out.push(KeyValue { key: k, value: v });
        proof {
            assert(out@ =~= seq![KeyValue { key: k, value: v }]);
        }
        Ok(out)
    } else {
        let first = s.remove(0);
        proof {
            assert(s@ =~= s0.drop_first());
            assert(first == s0[0]);
        }
        match obj_cmp(&first.key, &k) {
            Some(Ordering::Equal) => {
                let mut out: Vec<KeyValue> = Vec::new();
                let ghost fk = first.key;
                out.push(KeyValue { key: first.key, value: v });
                let mut rest = s;
                let ghost rest0 = rest@;
                while rest.len() > 0
                    invariant
                        rest@.len() <= rest0.len(),
                        out@.len() == 1 + rest0.len() - rest@.len(),
                        out@[0] == (KeyValue { key: fk, value: v }),
                        forall|j: int| 0 <= j < out@.len() - 1 ==> out@[j + 1] == rest0[j],
                        forall|j: int|
                            0 <= j < rest@.len() ==> rest@[j] == rest0[j + rest0.len()
                                - rest@.len()],
                    decreases rest@.len(),
                {
                    let ghost before = rest@;
                    let item = rest.remove(0);
                    proof {
                        assert(rest@ =~= before.drop_first());
                        assert(item == before[0]);
                    }
                    out.push(item);
                }
                proof {
                    assert(out@ =~= seq![KeyValue { key: fk, value: v }] + rest0);
                }
                Ok(out)
            },
            Some(Ordering::Less) => {
                match map_insert(s, k, v) {
                    Ok(mut rest) => {
                        let ghost pre = rest@;
                        rest.insert(0, first);
                        proof {
                            assert(rest@.drop_first() =~= pre);
                            assert(rest@ =~= seq![first] + pre);
                        }
                        Ok(rest)
                    },
                    Err(e) => Err(e),
                }
            },
            Some(Ordering::Greater) => {
                let mut out = s;
                let ghost tail = out@;
                out.insert(0, first);
                proof {
                    assert(out@.drop_first() =~= tail);
                    assert(out@ =~= s0);
                }
                let ghost whole = out@;
                out.insert(0, KeyValue { key: k, value: v });
                proof {
                    assert(out@.drop_first() =~= whole);
                    assert(out@ =~= seq![KeyValue { key: k, value: v }] + whole);
                }
                Ok(out)
            },
            None => Err(ParseError::Unsupported),
        }
    }
}

impl DynEntry {
    /// Convert one message element into an entry; an absent payload is a
    /// malformed message.
    pub fn try_from_element(e: ResultElement) -> (r: Result<DynEntry, ParseError>)
        ensures
            match r {
                Ok(d) => spec_convert_element(e) == Ok::<Entry, ParseError>(d.entry()),
                Err(err) => spec_convert_element(e) == Err::<Entry, ParseError>(err),
            },
    {
        match e.inner {
            Option::None => Err(ParseError::EmptyField),
            Option::Some(ElementInner::Vertex(v)) => Ok(DynEntry::new(Entry::Vertex(v))),
            Option::Some(ElementInner::Edge(x)) => Ok(DynEntry::new(Entry::Edge(x))),
            Option::Some(ElementInner::GraphPath(p)) => Ok(DynEntry::new(Entry::Path(p))),
            Option::Some(ElementInner::Object(o)) => Ok(DynEntry::new(Entry::Object(o))),
        }
    }

    /// Convert a whole message entry: an element maps directly, a
    /// collection maps element-wise (failing whole if any element fails),
    /// and a map becomes a scalar entry holding an ordered key-to-scalar
    /// mapping, rejecting non-scalar values.
    #[verifier::rlimit(100)]
    #[verifier::spinoff_prover]
    pub fn try_from_result_entry(entry: ResultEntry) -> (r: Result<DynEntry, ParseError>)
        ensures
            match entry.inner {
                Option::None => r == Err::<DynEntry, ParseError>(ParseError::EmptyField),
                Option::Some(ResultEntryInner::Element(e)) => match r {
                    Ok(d) => spec_convert_element(e) == Ok::<Entry, ParseError>(d.entry()),
                    Err(err) => spec_convert_element(e) == Err::<Entry, ParseError>(err),
                },
                Option::Some(ResultEntryInner::Collection(c)) => match r {
                    Ok(d) => d.entry() matches Entry::Collection(col) && col.inner@.len()
                        == c@.len() && (forall|j: int|
                        0 <= j < c@.len() ==> spec_convert_element(#[trigger] c@[j]) == Ok::<
                            Entry,
                            ParseError,
                        >(col.inner@[j].entry())),
                    Err(err) => exists|j: int|
                        0 <= j < c@.len() && spec_convert_element(#[trigger] c@[j]) == Err::<
                            Entry,
                            ParseError,
                        >(err),
                },
                Option::Some(ResultEntryInner::Mapping(kvs)) => match r {
                    Ok(d) => d.entry() matches Entry::Object(o) && o matches Object::KV(m)
                        && spec_convert_map(kvs@, Seq::empty()) == Ok::<Seq<KeyValue>, ParseError>(
                        m@,
                    ),
                    Err(err) => spec_convert_map(kvs@, Seq::empty()) == Err::<
                        Seq<KeyValue>,
                        ParseError,
                    >(err),
                },
            },
    {
        match entry.inner {
            Option::None => Err(ParseError::EmptyField),
            Option::Some(ResultEntryInner::Element(e)) => DynEntry::try_from_element(e),
            Option::Some(ResultEntryInner::Collection(c)) => {
                let mut out: Vec<DynEntry> = Vec::new();
                let mut rem = c;
                let n = rem.len();
                let mut i: usize = 0;
                while rem.len() > 0
                    invariant
                        entry.inner matches Option::Some(ResultEntryInner::Collection(cc)) && cc
                            == c,
                        c@.len() == n,
                        out@.len() == i,
                        i + rem@.len() == c@.len(),
                        forall|j: int| 0 <= j < rem@.len() ==> rem@[j] == c@[i + j],
                        forall|j: int|
                            0 <= j < i ==> spec_convert_element(#[trigger] c@[j]) == Ok::<
                                Entry,
                                ParseError,
                            >(out@[j].entry()),
                    decreases rem@.len(),
                {
                    let ghost before = rem@;
                    let e = rem.remove(0);
                    proof {
                        assert(rem@ =~= before.drop_first());
                        assert(e == c@[i as int]);
                    }
                    match DynEntry::try_from_element(e) {
                        Ok(d) => {
                            out.push(d);
                        },
                        Err(err) => {
                            proof {
                                assert(0 <= i < c@.len());
                                assert(spec_convert_element(c@[i as int]) == Err::<
                                    Entry,
                                    ParseError,
                                >(err));
                                assert(exists|j: int|
                                    0 <= j < c@.len() && spec_convert_element(
                                        #[trigger] c@[j],
                                    ) == Err::<Entry, ParseError>(err));
                            }
                            return Err(err);
                        },
                    }
                    i = i + 1;
                }
                Ok(DynEntry::new(Entry::Collection(CollectionEntry { inner: out })))
            },
            Option::Some(ResultEntryInner::Mapping(kvs)) => {
                let mut acc: Vec<KeyValue> = Vec::new();
                let mut rem = kvs;
                while rem.len() > 0
                    invariant
                        entry.inner matches Option::Some(ResultEntryInner::Mapping(kk)) && kk
                            == kvs,
                        spec_convert_map(kvs@, Seq::empty()) == spec_convert_map(rem@, acc@),
                    decreases rem@.len(),
                {
                    let ghost before = rem@;
                    let ghost acc_at_entry = acc@;
                    let kv = rem.remove(0);
                    proof {
                        assert(rem@ =~= before.drop_first());
                        assert(kv == before[0]);
                        assert(spec_convert_map(kvs@, Seq::empty()) == spec_convert_map(
                            before,
                            acc_at_entry,
                        ));
                    }
                    let k = match kv.key {
                        Option::Some(k) => k,
                        Option::None => {
                            return Err(ParseError::EmptyField);
                        },
                    };
                    let val_entry = match kv.value {
                        Option::Some(v) => v,
                        Option::None => {
                            return Err(ParseError::EmptyField);
                        },
                    };
                    let val_inner = match val_entry.inner {
                        Option::Some(vi) => vi,
                        Option::None => {
                            return Err(ParseError::EmptyField);
                        },
                    };
                    let o = match val_inner {
                        ResultEntryInner::Element(el) => {
                            match el.inner {
                                Option::Some(ElementInner::Object(o)) => o,
                                _ => {
                                    proof {
                                        assert(spec_convert_map(before, acc_at_entry) == Err::<
                                            Seq<KeyValue>,
                                            ParseError,
                                        >(ParseError::Unsupported));
                                    }
                                    return Err(ParseError::Unsupported);
                                },
                            }
                        },
                        _ => {
                            proof {
                                assert(spec_convert_map(before, acc_at_entry) == Err::<
                                    Seq<KeyValue>,
                                    ParseError,
                                >(ParseError::Unsupported));
                            }
                            return Err(ParseError::Unsupported);
                        },
                    };
                    match map_insert(acc, k, o) {
                        Ok(acc2) => {
                            acc = acc2;
                            proof {
                                assert(spec_convert_map(before, acc_at_entry)
                                    == spec_convert_map(before.drop_first(), acc@));
                            }
                        },
                        Err(e) => {
                            proof {
                                assert(spec_convert_map(before, acc_at_entry) == Err::<
                                    Seq<KeyValue>,
                                    ParseError,
                                >(e));
                            }
                            return Err(e);
                        },
                    }
                }
                Ok(DynEntry::new(Entry::Object(Object::KV(acc))))
            },
        }
    }
}

} // verus!
