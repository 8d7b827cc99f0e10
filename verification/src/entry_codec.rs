//! The binary wire codec for entries: one tag byte (1..9), then the
//! variant's own payload, recursively for pairs and collections. Decoding
//! dispatches on the tag byte; an unrecognized tag, a truncated payload or
//! malformed text is a protocol violation and fails the whole decode.
//!
//! The codec is specified against a ghost image of the entry (`EntryV`),
//! where text is a character sequence and vectors are sequences; encoding
//! then decoding returns exactly that image.

use vstd::prelude::*;

use crate::be::{
    be4, be4i, be8, be_get_u32, be_get_u64, be_push_u32, be_push_u64, i32_as_u32, u32_as_i32,
    u32_of_be, u32_to_i32, u64_of_be,
};
use crate::entry::{
    lemma_dyn_decreases, lemma_pair_decreases, view_entry, view_entry_seq, view_key, view_kv_seq,
    view_obj, view_obj_seq, view_props, view_vertex, view_edge, view_voe, view_voes,
    CollectionEntry, DynEntry, Edge, EdgeV, EntryV, GeneralIntersectionEntry, GraphPath,
    IntersectionEntry, KeyV, NullEntry, ObjV, PairEntry, PropEntry, PropKey, PropV, Vertex,
    VertexOrEdge, VertexV, VoeV,
};
use crate::entry::Entry;
use crate::object::{KeyValue, Object, Primitives};
use crate::text::bytes_to_string;
use vstd::utf8::{decode_utf8, encode_utf8, valid_utf8};

verus! {

/// The unsigned two's-complement image of a signed byte.
pub open spec fn i8_as_u8(x: i8) -> u8 {
    if x >= 0 {
        x as u8
    } else {
        (x + 0x100) as u8
    }
}

/// The signed byte whose image is `u`.
pub open spec fn u8_as_i8(u: u8) -> i8 {
    if u < 0x80 {
        u as i8
    } else {
        (u - 0x100) as i8
    }
}

/// An optional label: an absence byte, or a presence byte and the value.
pub open spec fn enc_label(l: Option<i32>) -> Seq<u8> {
    match l {
        Option::None => seq![0u8],
        Option::Some(x) => seq![1u8] + be4i(x),
    }
}

/// A length-prefixed character sequence in UTF-8.
pub open spec fn enc_str(s: Seq<char>) -> Seq<u8> {
    be8(encode_utf8(s).len() as u64) + encode_utf8(s)
}

/// The wire bytes of a scalar image.
pub open spec fn enc_obj(o: ObjV) -> Seq<u8>
    decreases o, 0int, 0int,
{
    match o {
        ObjV::NoneV => seq![0u8],
        ObjV::Byte(v) => seq![1u8, i8_as_u8(v)],
        ObjV::Integer(v) => seq![2u8] + be4i(v),
        ObjV::Long(v) => seq![3u8] + be8(crate::be::i64_as_u64(v)),
        ObjV::ULLong(v) => seq![4u8] + be8((v / 0x1_0000_0000_0000_0000) as u64) + be8(
            (v % 0x1_0000_0000_0000_0000) as u64,
        ),
        ObjV::Float(b) => seq![5u8] + be4(b),
        ObjV::Double(b) => seq![6u8] + be8(b),
        ObjV::UInteger(v) => seq![7u8] + be4(v),
        ObjV::ULong(v) => seq![8u8] + be8(v),
        ObjV::Str(s) => seq![9u8] + enc_str(s),
        ObjV::Blob(b) => seq![10u8] + be8(b.len() as u64) + b,
        ObjV::Vector(v) => seq![11u8] + be8(v.len() as u64) + enc_obj_seq(v),
        ObjV::KV(v) => seq![12u8] + be8(v.len() as u64) + enc_kv_seq(v),
    }
}

pub open spec fn enc_obj_seq(s: Seq<ObjV>) -> Seq<u8>
    decreases s, 1int, s.len(),
{
    if s.len() == 0 {
        Seq::empty()
    } else {
        enc_obj(s[0]) + enc_obj_seq(s.drop_first())
    }
}

pub open spec fn enc_kv_seq(s: Seq<(ObjV, ObjV)>) -> Seq<u8>
    decreases s, 1int, s.len(),
{
    if s.len() == 0 {
        Seq::empty()
    } else {
        enc_obj(s[0].0) + enc_obj(s[0].1) + enc_kv_seq(s.drop_first())
    }
}

/// The wire bytes of a property key (named or numbered).
pub open spec fn enc_key(k: KeyV) -> Seq<u8> {
    match k {
        KeyV::Str(s) => seq![0u8] + enc_str(s),
        KeyV::Id(i) => seq![1u8] + be4i(i),
    }
}

pub open spec fn enc_props(s: Seq<PropV>) -> Seq<u8>
    decreases s, 1int, s.len(),
{
    if s.len() == 0 {
        Seq::empty()
    } else {
        enc_key(s[0].key) + enc_obj(s[0].value) + enc_props(s.drop_first())
    }
}

/// The wire bytes of a vertex: id, label, then the property count and each
/// key/value.
pub open spec fn enc_vertex(v: VertexV) -> Seq<u8> {
    be8(v.id) + enc_label(v.label) + be8(v.props.len() as u64) + enc_props(v.props)
}

pub open spec fn enc_edge(e: EdgeV) -> Seq<u8> {
    be8(e.id) + be8(e.src) + be8(e.dst) + enc_label(e.label) + be8(e.props.len() as u64)
        + enc_props(e.props)
}

pub open spec fn enc_voe(v: VoeV) -> Seq<u8> {
    match v {
        VoeV::V(x) => seq![1u8] + enc_vertex(x),
        VoeV::E(x) => seq![2u8] + enc_edge(x),
    }
}

pub open spec fn enc_voes(s: Seq<VoeV>) -> Seq<u8>
    decreases s.len(),
{
    if s.len() == 0 {
        Seq::empty()
    } else {
        enc_voe(s[0]) + enc_voes(s.drop_first())
    }
}

pub open spec fn enc_u64s(s: Seq<u64>) -> Seq<u8>
    decreases s.len(),
{
    if s.len() == 0 {
        Seq::empty()
    } else {
        be8(s[0]) + enc_u64s(s.drop_first())
    }
}

pub open spec fn enc_u32s(s: Seq<u32>) -> Seq<u8>
    decreases s.len(),
{
    if s.len() == 0 {
        Seq::empty()
    } else {
        be4(s[0]) + enc_u32s(s.drop_first())
    }
}

/// The wire bytes of an entry: one tag byte, then the payload. The tags are
/// 1 vertex, 2 edge, 3 path, 4 object, 5 compact intersection,
/// 6 collection, 7 pair, 8 general intersection, 9 null.
pub open spec fn enc_entry(e: EntryV) -> Seq<u8>
    decreases e, 0int, 0int,
{
    match e {
        EntryV::Vertex(v) => seq![1u8] + enc_vertex(v),
        EntryV::Edge(x) => seq![2u8] + enc_edge(x),
        EntryV::Path(p) => seq![3u8] + be8(p.len() as u64) + enc_voes(p),
        EntryV::Object(o) => seq![4u8] + enc_obj(o),
        EntryV::Intersection(ids) => seq![5u8] + be8(ids.len() as u64) + enc_u64s(ids),
        EntryV::Collection(c) => seq![6u8] + be8(c.len() as u64) + enc_entry_seq(c),
        EntryV::Pair(l, r) => seq![7u8] + enc_entry(*l) + enc_entry(*r),
        EntryV::GeneralIntersection(ids, counts) => seq![8u8] + be8(ids.len() as u64) + enc_u64s(
            ids,
        ) + be8(counts.len() as u64) + enc_u32s(counts),
        EntryV::Null => seq![9u8],
    }
}

pub open spec fn enc_entry_seq(s: Seq<EntryV>) -> Seq<u8>
    decreases s, 1int, s.len(),
{
    if s.len() == 0 {
        Seq::empty()
    } else {
        enc_entry(s[0]) + enc_entry_seq(s.drop_first())
    }
}


/// Each view preserves the element count.
pub proof fn lemma_view_obj_seq_len(s: Seq<Object>)
    ensures
        view_obj_seq(s).len() == s.len(),
    decreases s, 1int, s.len(),
{
    if s.len() > 0 {
        lemma_view_obj_seq_len(s.drop_first());
    }
}

pub proof fn lemma_view_kv_seq_len(s: Seq<KeyValue>)
    ensures
        view_kv_seq(s).len() == s.len(),
    decreases s, 1int, s.len(),
{
    if s.len() > 0 {
        lemma_view_kv_seq_len(s.drop_first());
    }
}

pub proof fn lemma_view_props_len(s: Seq<PropEntry>)
    ensures
        view_props(s).len() == s.len(),
    decreases s.len(),
{
    if s.len() > 0 {
        lemma_view_props_len(s.drop_first());
    }
}

pub proof fn lemma_view_voes_len(s: Seq<VertexOrEdge>)
    ensures
        view_voes(s).len() == s.len(),
    decreases s.len(),
{
    if s.len() > 0 {
        lemma_view_voes_len(s.drop_first());
    }
}

pub proof fn lemma_view_entry_seq_len(s: Seq<DynEntry>)
    ensures
        view_entry_seq(s).len() == s.len(),
    decreases s, 1int, s.len(),
{
    if s.len() > 0 {
        lemma_view_entry_seq_len(s.drop_first());
    }
}

fn push_u8_tag(out: &mut Vec<u8>, t: u8)
    ensures
        final(out)@ == old(out)@ + seq![t],
{
    out.push(t);
    proof {
        assert(out@ =~= old(out)@ + seq![t]);
    }
}

fn encode_label(out: &mut Vec<u8>, l: &Option<i32>)
    ensures
        final(out)@ == old(out)@ + enc_label(*l),
{
    match l {
        Option::None => {
            push_u8_tag(out, 0);
        },
        Option::Some(x) => {
            push_u8_tag(out, 1);
            crate::be::be_push_i32(out, *x);
            proof {
                assert(out@ =~= old(out)@ + enc_label(*l));
            }
        },
    }
}

fn encode_str(out: &mut Vec<u8>, s: &str)
    ensures
        final(out)@ == old(out)@ + enc_str(s@),
{
    let b = s.as_bytes();
    crate::be::be_push_u64(out, b.len() as u64);
    let mut i: usize = 0;
    while i < b.len()
        invariant
            i <= b@.len(),
            b@ == encode_utf8(s@),
            out@ == old(out)@ + crate::be::be8(b@.len() as u64) + b@.subrange(0, i as int),
        decreases b@.len() - i,
    {
        out.push(b[i]);
        i = i + 1;
        proof {
            assert(b@.subrange(0, i as int) =~= b@.subrange(0, i - 1) + seq![b@[i - 1]]);
            assert(out@ =~= old(out)@ + crate::be::be8(b@.len() as u64) + b@.subrange(0, i as int));
        }
    }
    proof {
        assert(b@.subrange(0, b@.len() as int) =~= b@);
        assert(out@ =~= old(out)@ + enc_str(s@));
    }
}

#[verifier::rlimit(60)]
fn encode_obj(out: &mut Vec<u8>, o: &Object)
    ensures
        final(out)@ == old(out)@ + enc_obj(view_obj(*o)),
    decreases *o, 0int, 0int,
{
    match o {
        Object::NoneValue => {
            push_u8_tag(out, 0);
        },
        Object::Primitive(Primitives::Byte(v)) => {
            push_u8_tag(out, 1);
            let u: u8 = if *v >= 0 {
                *v as u8
            } else {
                ((*v as i16) + 0x100) as u8
            };
            push_u8_tag(out, u);
            proof {
                assert(out@ =~= old(out)@ + enc_obj(view_obj(*o)));
            }
        },
        Object::Primitive(Primitives::Integer(v)) => {
            push_u8_tag(out, 2);
            crate::be::be_push_i32(out, *v);
            proof {
                assert(out@ =~= old(out)@ + enc_obj(view_obj(*o)));
            }
        },
        Object::Primitive(Primitives::Long(v)) => {
            push_u8_tag(out, 3);
            crate::be::be_push_i64(out, *v);
            proof {
                assert(out@ =~= old(out)@ + enc_obj(view_obj(*o)));
            }
        },
        Object::Primitive(Primitives::ULLong(v)) => {
            push_u8_tag(out, 4);
            crate::be::be_push_u64(out, (*v / 0x1_0000_0000_0000_0000) as u64);
            crate::be::be_push_u64(out, (*v % 0x1_0000_0000_0000_0000) as u64);
            proof {
                assert(out@ =~= old(out)@ + enc_obj(view_obj(*o)));
            }
        },
        Object::Primitive(Primitives::Float(b)) => {
            push_u8_tag(out, 5);
            crate::be::be_push_u32(out, *b);
            proof {
                assert(out@ =~= old(out)@ + enc_obj(view_obj(*o)));
            }
        },
        Object::Primitive(Primitives::Double(b)) => {
            push_u8_tag(out, 6);
            crate::be::be_push_u64(out, *b);
            proof {
                assert(out@ =~= old(out)@ + enc_obj(view_obj(*o)));
            }
        },
        Object::Primitive(Primitives::UInteger(v)) => {
            push_u8_tag(out, 7);
            crate::be::be_push_u32(out, *v);
            proof {
                assert(out@ =~= old(out)@ + enc_obj(view_obj(*o)));
            }
        },
        Object::Primitive(Primitives::ULong(v)) => {
            push_u8_tag(out, 8);
            crate::be::be_push_u64(out, *v);
            proof {
                assert(out@ =~= old(out)@ + enc_obj(view_obj(*o)));
            }
        },
        Object::String(s) => {
            push_u8_tag(out, 9);
            encode_str(out, s.as_str());
            proof {
                assert(out@ =~= old(out)@ + enc_obj(view_obj(*o)));
            }
        },
        Object::Blob(b) => {
            push_u8_tag(out, 10);
            crate::be::be_push_u64(out, b.len() as u64);
            let mut i: usize = 0;
            while i < b.len()
                invariant
                    o matches Object::Blob(bb) && bb == b,
                    i <= b@.len(),
                    out@ == old(out)@ + seq![10u8] + crate::be::be8(b@.len() as u64) + b@.subrange(
                        0,
                        i as int,
                    ),
                decreases b@.len() - i,
            {
                out.push(b[i]);
                i = i + 1;
                proof {
                    assert(b@.subrange(0, i as int) =~= b@.subrange(0, i - 1) + seq![b@[i - 1]]);
                    assert(out@ =~= old(out)@ + seq![10u8] + crate::be::be8(b@.len() as u64)
                        + b@.subrange(0, i as int));
                }
            }
            proof {
                assert(b@.subrange(0, b@.len() as int) =~= b@);
                assert(out@ =~= old(out)@ + enc_obj(view_obj(*o)));
            }
        },
        Object::Vector(v) => {
            push_u8_tag(out, 11);
            crate::be::be_push_u64(out, v.len() as u64);
            encode_obj_seq(out, v, 0);
            proof {
                assert(v@.subrange(0, v@.len() as int) =~= v@);
                lemma_view_obj_seq_len(v@);
                assert(out@ =~= old(out)@ + enc_obj(view_obj(*o)));
            }
        },
        Object::KV(v) => {
            push_u8_tag(out, 12);
            crate::be::be_push_u64(out, v.len() as u64);
            encode_kv_seq(out, v, 0);
            proof {
                assert(v@.subrange(0, v@.len() as int) =~= v@);
                lemma_view_kv_seq_len(v@);
                assert(out@ =~= old(out)@ + enc_obj(view_obj(*o)));
            }
        },
    }
}

fn encode_obj_seq(out: &mut Vec<u8>, v: &Vec<Object>, i: usize)
    requires
        i <= v@.len(),
    ensures
        final(out)@ == old(out)@ + enc_obj_seq(
            view_obj_seq(v@.subrange(i as int, v@.len() as int)),
        ),
    decreases v@, 1int, v@.len() - i,
{
    if i < v.len() {
        proof {
            let rest = v@.subrange(i as int, v@.len() as int);
            assert(rest[0] == v@[i as int]);
            assert(rest.drop_first() =~= v@.subrange(i + 1, v@.len() as int));
        }
        encode_obj(out, &v[i]);
        encode_obj_seq(out, v, i + 1);
        proof {
            let rest = v@.subrange(i as int, v@.len() as int);
            assert(view_obj_seq(rest).drop_first() =~= view_obj_seq(rest.drop_first()));
            assert(out@ =~= old(out)@ + enc_obj_seq(view_obj_seq(rest)));
        }
    } else {
        proof {
            assert(v@.subrange(i as int, v@.len() as int).len() == 0);
        }
    }
}

fn encode_kv_seq(out: &mut Vec<u8>, v: &Vec<KeyValue>, i: usize)
    requires
        i <= v@.len(),
    ensures
        final(out)@ == old(out)@ + enc_kv_seq(
            view_kv_seq(v@.subrange(i as int, v@.len() as int)),
        ),
    decreases v@, 1int, v@.len() - i,
{
    if i < v.len() {
        proof {
            let rest = v@.subrange(i as int, v@.len() as int);
            assert(rest[0] == v@[i as int]);
            assert(rest.drop_first() =~= v@.subrange(i + 1, v@.len() as int));
        }
        encode_obj(out, &v[i].key);
        encode_obj(out, &v[i].value);
        encode_kv_seq(out, v, i + 1);
        proof {
            let rest = v@.subrange(i as int, v@.len() as int);
            assert(view_kv_seq(rest).drop_first() =~= view_kv_seq(rest.drop_first()));
            assert(out@ =~= old(out)@ + enc_kv_seq(view_kv_seq(rest)));
        }
    } else {
        proof {
            assert(v@.subrange(i as int, v@.len() as int).len() == 0);
        }
    }
}

fn encode_key(out: &mut Vec<u8>, k: &PropKey)
    ensures
        final(out)@ == old(out)@ + enc_key(view_key(*k)),
{
    match k {
        PropKey::Str(s) => {
            push_u8_tag(out, 0);
            encode_str(out, s.as_str());
            proof {
                assert(out@ =~= old(out)@ + enc_key(view_key(*k)));
            }
        },
        PropKey::Id(x) => {
            push_u8_tag(out, 1);
            crate::be::be_push_i32(out, *x);
            proof {
                assert(out@ =~= old(out)@ + enc_key(view_key(*k)));
            }
        },
    }
}

fn encode_props(out: &mut Vec<u8>, v: &Vec<PropEntry>, i: usize)
    requires
        i <= v@.len(),
    ensures
        final(out)@ == old(out)@ + enc_props(
            view_props(v@.subrange(i as int, v@.len() as int)),
        ),
    decreases v@.len() - i,
{
    if i < v.len() {
        proof {
            let rest = v@.subrange(i as int, v@.len() as int);
            assert(rest[0] == v@[i as int]);
            assert(rest.drop_first() =~= v@.subrange(i + 1, v@.len() as int));
        }
        encode_key(out, &v[i].key);
        encode_obj(out, &v[i].value);
        encode_props(out, v, i + 1);
        proof {
            let rest = v@.subrange(i as int, v@.len() as int);
            assert(view_props(rest).drop_first() =~= view_props(rest.drop_first()));
            assert(out@ =~= old(out)@ + enc_props(view_props(rest)));
        }
    } else {
        proof {
            assert(v@.subrange(i as int, v@.len() as int).len() == 0);
        }
    }
}

fn encode_vertex(out: &mut Vec<u8>, v: &Vertex)
    ensures
        final(out)@ == old(out)@ + enc_vertex(view_vertex(*v)),
{
    crate::be::be_push_u64(out, v.id);
    encode_label(out, &v.label);
    crate::be::be_push_u64(out, v.properties.len() as u64);
    encode_props(out, &v.properties, 0);
    proof {
        assert(v.properties@.subrange(0, v.properties@.len() as int) =~= v.properties@);
        lemma_view_props_len(v.properties@);
        assert(out@ =~= old(out)@ + enc_vertex(view_vertex(*v)));
    }
}

fn encode_edge(out: &mut Vec<u8>, e: &Edge)
    ensures
        final(out)@ == old(out)@ + enc_edge(view_edge(*e)),
{
    crate::be::be_push_u64(out, e.id);
    crate::be::be_push_u64(out, e.src_id);
    crate::be::be_push_u64(out, e.dst_id);
    encode_label(out, &e.label);
    crate::be::be_push_u64(out, e.properties.len() as u64);
    encode_props(out, &e.properties, 0);
    proof {
        assert(e.properties@.subrange(0, e.properties@.len() as int) =~= e.properties@);
        lemma_view_props_len(e.properties@);
        assert(out@ =~= old(out)@ + enc_edge(view_edge(*e)));
    }
}

fn encode_voes(out: &mut Vec<u8>, v: &Vec<VertexOrEdge>, i: usize)
    requires
        i <= v@.len(),
    ensures
        final(out)@ == old(out)@ + enc_voes(view_voes(v@.subrange(i as int, v@.len() as int))),
    decreases v@.len() - i,
{
    if i < v.len() {
        proof {
            let rest = v@.subrange(i as int, v@.len() as int);
            assert(rest[0] == v@[i as int]);
            assert(rest.drop_first() =~= v@.subrange(i + 1, v@.len() as int));
        }
        match &v[i] {
            VertexOrEdge::V(x) => {
                push_u8_tag(out, 1);
                encode_vertex(out, x);
            },
            VertexOrEdge::E(x) => {
                push_u8_tag(out, 2);
                encode_edge(out, x);
            },
        }
        encode_voes(out, v, i + 1);
        proof {
            let rest = v@.subrange(i as int, v@.len() as int);
            assert(view_voes(rest).drop_first() =~= view_voes(rest.drop_first()));
            assert(out@ =~= old(out)@ + enc_voes(view_voes(rest)));
        }
    } else {
        proof {
            assert(v@.subrange(i as int, v@.len() as int).len() == 0);
        }
    }
}

fn encode_u64s(out: &mut Vec<u8>, v: &Vec<u64>, i: usize)
    requires
        i <= v@.len(),
    ensures
        final(out)@ == old(out)@ + enc_u64s(v@.subrange(i as int, v@.len() as int)),
    decreases v@.len() - i,
{
    if i < v.len() {
        proof {
            let rest = v@.subrange(i as int, v@.len() as int);
            assert(rest[0] == v@[i as int]);
            assert(rest.drop_first() =~= v@.subrange(i + 1, v@.len() as int));
        }
        crate::be::be_push_u64(out, v[i]);
        encode_u64s(out, v, i + 1);
        proof {
            let rest = v@.subrange(i as int, v@.len() as int);
            assert(out@ =~= old(out)@ + enc_u64s(rest));
        }
    } else {
        proof {
            assert(v@.subrange(i as int, v@.len() as int).len() == 0);
        }
    }
}

fn encode_u32s(out: &mut Vec<u8>, v: &Vec<u32>, i: usize)
    requires
        i <= v@.len(),
    ensures
        final(out)@ == old(out)@ + enc_u32s(v@.subrange(i as int, v@.len() as int)),
    decreases v@.len() - i,
{
    if i < v.len() {
        proof {
            let rest = v@.subrange(i as int, v@.len() as int);
            assert(rest[0] == v@[i as int]);
            assert(rest.drop_first() =~= v@.subrange(i + 1, v@.len() as int));
        }
        crate::be::be_push_u32(out, v[i]);
        encode_u32s(out, v, i + 1);
        proof {
            let rest = v@.subrange(i as int, v@.len() as int);
            assert(out@ =~= old(out)@ + enc_u32s(rest));
        }
    } else {
        proof {
            assert(v@.subrange(i as int, v@.len() as int).len() == 0);
        }
    }
}

#[verifier::rlimit(60)]
fn encode_entry(out: &mut Vec<u8>, e: &Entry)
    ensures
        final(out)@ == old(out)@ + enc_entry(view_entry(*e)),
    decreases *e, 2int, 0int,
{
    match e {
        Entry::Vertex(v) => {
            push_u8_tag(out, 1);
            encode_vertex(out, v);
            proof {
                assert(out@ =~= old(out)@ + enc_entry(view_entry(*e)));
            }
        },
        Entry::Edge(x) => {
            push_u8_tag(out, 2);
            encode_edge(out, x);
            proof {
                assert(out@ =~= old(out)@ + enc_entry(view_entry(*e)));
            }
        },
        Entry::Path(p) => {
            push_u8_tag(out, 3);
            crate::be::be_push_u64(out, p.elements.len() as u64);
            encode_voes(out, &p.elements, 0);
            proof {
                assert(p.elements@.subrange(0, p.elements@.len() as int) =~= p.elements@);
                lemma_view_voes_len(p.elements@);
                assert(out@ =~= old(out)@ + enc_entry(view_entry(*e)));
            }
        },
        Entry::Object(o) => {
            push_u8_tag(out, 4);
            encode_obj(out, o);
            proof {
                assert(out@ =~= old(out)@ + enc_entry(view_entry(*e)));
            }
        },
        Entry::Intersection(x) => {
            push_u8_tag(out, 5);
            crate::be::be_push_u64(out, x.ids.len() as u64);
            encode_u64s(out, &x.ids, 0);
            proof {
                assert(x.ids@.subrange(0, x.ids@.len() as int) =~= x.ids@);
                assert(out@ =~= old(out)@ + enc_entry(view_entry(*e)));
            }
        },
        Entry::GeneralIntersection(x) => {
            push_u8_tag(out, 8);
            crate::be::be_push_u64(out, x.ids.len() as u64);
            encode_u64s(out, &x.ids, 0);
            crate::be::be_push_u64(out, x.counts.len() as u64);
            encode_u32s(out, &x.counts, 0);
            proof {
                assert(x.ids@.subrange(0, x.ids@.len() as int) =~= x.ids@);
                assert(x.counts@.subrange(0, x.counts@.len() as int) =~= x.counts@);
                assert(out@ =~= old(out)@ + enc_entry(view_entry(*e)));
            }
        },
        Entry::Collection(c) => {
            push_u8_tag(out, 6);
            crate::be::be_push_u64(out, c.inner.len() as u64);
            encode_entries(out, &c.inner, 0);
            proof {
                assert(c.inner@.subrange(0, c.inner@.len() as int) =~= c.inner@);
                lemma_view_entry_seq_len(c.inner@);
                assert(out@ =~= old(out)@ + enc_entry(view_entry(*e)));
            }
        },
        Entry::Pair(p) => {
            push_u8_tag(out, 7);
            proof {
                lemma_pair_decreases(*p);
            }
            encode_entry(out, p.get_left().as_entry());
            encode_entry(out, p.get_right().as_entry());
            proof {
                assert(out@ =~= old(out)@ + enc_entry(view_entry(*e)));
            }
        },
        Entry::Null(_) => {
            push_u8_tag(out, 9);
        },
    }
}

fn encode_entries(out: &mut Vec<u8>, v: &Vec<DynEntry>, i: usize)
    requires
        i <= v@.len(),
    ensures
        final(out)@ == old(out)@ + enc_entry_seq(
            view_entry_seq(v@.subrange(i as int, v@.len() as int)),
        ),
    decreases v@, 3int, v@.len() - i,
{
    if i < v.len() {
        proof {
            let rest = v@.subrange(i as int, v@.len() as int);
            assert(rest[0] == v@[i as int]);
            assert(rest.drop_first() =~= v@.subrange(i + 1, v@.len() as int));
            lemma_dyn_decreases(v@[i as int]);
        }
        encode_entry(out, v[i].as_entry());
        encode_entries(out, v, i + 1);
        proof {
            let rest = v@.subrange(i as int, v@.len() as int);
            assert(view_entry_seq(rest).drop_first() =~= view_entry_seq(rest.drop_first()));
            assert(out@ =~= old(out)@ + enc_entry_seq(view_entry_seq(rest)));
        }
    } else {
        proof {
            assert(v@.subrange(i as int, v@.len() as int).len() == 0);
        }
    }
}

impl DynEntry {
    /// Append this entry's wire bytes: one tag byte, then the payload.
    pub fn write_to(&self, out: &mut Vec<u8>)
        ensures
            final(out)@ == old(out)@ + enc_entry(view_entry(self.entry())),
    {
        encode_entry(out, self.as_entry());
    }
}

/// A decode failure: a truncated buffer, an unrecognized tag byte, or
/// malformed text. All are protocol violations; decoding stops.
#[derive(Debug, PartialEq, Eq, Structural, Clone, Copy)]
pub enum DecodeError {
    Truncated,
    UnknownTag,
    InvalidText,
}

/// Whether `n` bytes can be read at `pos`.
pub open spec fn can_read(b: Seq<u8>, pos: int, n: int) -> bool {
    0 <= pos && pos + n <= b.len()
}

/// The big-endian 64-bit value at `pos`.
pub open spec fn rd_u64(b: Seq<u8>, p: int) -> u64 {
    u64_of_be(b[p], b[p + 1], b[p + 2], b[p + 3], b[p + 4], b[p + 5], b[p + 6], b[p + 7])
}

/// The big-endian 32-bit value at `pos`.
pub open spec fn rd_u32(b: Seq<u8>, p: int) -> u32 {
    u32_of_be(b[p], b[p + 1], b[p + 2], b[p + 3])
}

pub open spec fn dec_label(b: Seq<u8>, pos: int) -> Option<(Option<i32>, int)> {
    if !can_read(b, pos, 1) {
        None
    } else if b[pos] == 0 {
        Some((Option::None, pos + 1))
    } else if b[pos] == 1 && can_read(b, pos + 1, 4) {
        Some((Option::Some(u32_as_i32(rd_u32(b, pos + 1))), pos + 5))
    } else {
        None
    }
}

pub open spec fn dec_str(b: Seq<u8>, pos: int) -> Option<(Seq<char>, int)> {
    if !can_read(b, pos, 8) {
        None
    } else {
        let n = rd_u64(b, pos) as int;
        if pos + 8 + n > b.len() {
            None
        } else if valid_utf8(b.subrange(pos + 8, pos + 8 + n)) {
            Some((decode_utf8(b.subrange(pos + 8, pos + 8 + n)), pos + 8 + n))
        } else {
            None
        }
    }
}

pub open spec fn dec_obj(b: Seq<u8>, pos: int) -> Option<(ObjV, int)>
    decreases b.len() - pos, 0int,
{
    if !can_read(b, pos, 1) {
        None
    } else {
        let tag = b[pos];
        let p = pos + 1;
        if tag == 0 {
            Some((ObjV::NoneV, p))
        } else if tag == 1 {
            if can_read(b, p, 1) {
                Some((ObjV::Byte(u8_as_i8(b[p])), p + 1))
            } else {
                None
            }
        } else if tag == 2 {
            if can_read(b, p, 4) {
                Some((ObjV::Integer(u32_as_i32(rd_u32(b, p))), p + 4))
            } else {
                None
            }
        } else if tag == 3 {
            if can_read(b, p, 8) {
                Some((ObjV::Long(crate::be::u64_as_i64(rd_u64(b, p))), p + 8))
            } else {
                None
            }
        } else if tag == 4 {
            if can_read(b, p, 16) {
                Some(
                    (
                        ObjV::ULLong(
                            ((rd_u64(b, p) as u128) * 0x1_0000_0000_0000_0000 + (rd_u64(
                                b,
                                p + 8,
                            ) as u128)) as u128,
                        ),
                        p + 16,
                    ),
                )
            } else {
                None
            }
        } else if tag == 5 {
            if can_read(b, p, 4) {
                Some((ObjV::Float(rd_u32(b, p)), p + 4))
            } else {
                None
            }
        } else if tag == 6 {
            if can_read(b, p, 8) {
                Some((ObjV::Double(rd_u64(b, p)), p + 8))
            } else {
                None
            }
        } else if tag == 7 {
            if can_read(b, p, 4) {
                Some((ObjV::UInteger(rd_u32(b, p)), p + 4))
            } else {
                None
            }
        } else if tag == 8 {
            if can_read(b, p, 8) {
                Some((ObjV::ULong(rd_u64(b, p)), p + 8))
            } else {
                None
            }
        } else if tag == 9 {
            match dec_str(b, p) {
                Some((s, p2)) => Some((ObjV::Str(s), p2)),
                None => None,
            }
        } else if tag == 10 {
            if !can_read(b, p, 8) {
                None
            } else {
                let n = rd_u64(b, p) as int;
                if p + 8 + n > b.len() {
                    None
                } else {
                    Some((ObjV::Blob(b.subrange(p + 8, p + 8 + n)), p + 8 + n))
                }
            }
        } else if tag == 11 {
            if !can_read(b, p, 8) {
                None
            } else {
                match dec_obj_seq(b, p + 8, rd_u64(b, p)) {
                    Some((v, p2)) => Some((ObjV::Vector(v), p2)),
                    None => None,
                }
            }
        } else if tag == 12 {
            if !can_read(b, p, 8) {
                None
            } else {
                match dec_kv_seq(b, p + 8, rd_u64(b, p)) {
                    Some((v, p2)) => Some((ObjV::KV(v), p2)),
                    None => None,
                }
            }
        } else {
            None
        }
    }
}

pub open spec fn dec_obj_seq(b: Seq<u8>, pos: int, n: u64) -> Option<(Seq<ObjV>, int)>
    decreases b.len() - pos, 1int,
    when pos >= 0
{
    if n == 0 {
        Some((Seq::empty(), pos))
    } else {
        match dec_obj(b, pos) {
            Some((o, p2)) => if p2 <= pos || p2 > b.len() {
                None
            } else {
                match dec_obj_seq(b, p2, (n - 1) as u64) {
                    Some((rest, p3)) => Some((seq![o] + rest, p3)),
                    None => None,
                }
            },
            None => None,
        }
    }
}

pub open spec fn dec_kv_seq(b: Seq<u8>, pos: int, n: u64) -> Option<(Seq<(ObjV, ObjV)>, int)>
    decreases b.len() - pos, 1int,
    when pos >= 0
{
    if n == 0 {
        Some((Seq::empty(), pos))
    } else {
        match dec_obj(b, pos) {
            Some((k, pk)) => if pk <= pos || pk > b.len() {
                None
            } else {
                match dec_obj(b, pk) {
                    Some((v, pv)) => if pv <= pos || pv > b.len() {
                        None
                    } else {
                        match dec_kv_seq(b, pv, (n - 1) as u64) {
                            Some((rest, p3)) => Some((seq![(k, v)] + rest, p3)),
                            None => None,
                        }
                    },
                    None => None,
                }
            },
            None => None,
        }
    }
}

pub open spec fn dec_key(b: Seq<u8>, pos: int) -> Option<(KeyV, int)> {
    if !can_read(b, pos, 1) {
        None
    } else if b[pos] == 0 {
        match dec_str(b, pos + 1) {
            Some((s, p2)) => Some((KeyV::Str(s), p2)),
            None => None,
        }
    } else if b[pos] == 1 && can_read(b, pos + 1, 4) {
        Some((KeyV::Id(u32_as_i32(rd_u32(b, pos + 1))), pos + 5))
    } else {
        None
    }
}

pub open spec fn dec_props(b: Seq<u8>, pos: int, n: u64) -> Option<(Seq<PropV>, int)>
    decreases b.len() - pos,
    when pos >= 0
{
    if n == 0 {
        Some((Seq::empty(), pos))
    } else {
        match dec_key(b, pos) {
            Some((k, pk)) => if pk <= pos || pk > b.len() {
                None
            } else {
                match dec_obj(b, pk) {
                Some((v, pv)) => if pv <= pos || pv > b.len() {
                    None
                } else {
                    match dec_props(b, pv, (n - 1) as u64) {
                        Some((rest, p3)) => Some(
                            (seq![PropV { key: k, value: v }] + rest, p3),
                        ),
                        None => None,
                    }
                },
                None => None,
                }
            },
            None => None,
        }
    }
}

pub open spec fn dec_vertex(b: Seq<u8>, pos: int) -> Option<(VertexV, int)> {
    if !can_read(b, pos, 8) {
        None
    } else {
        match dec_label(b, pos + 8) {
            Some((l, pl)) => if !can_read(b, pl, 8) {
                None
            } else {
                match dec_props(b, pl + 8, rd_u64(b, pl)) {
                    Some((props, pp)) => Some(
                        (VertexV { id: rd_u64(b, pos), label: l, props }, pp),
                    ),
                    None => None,
                }
            },
            None => None,
        }
    }
}

pub open spec fn dec_edge(b: Seq<u8>, pos: int) -> Option<(EdgeV, int)> {
    if !can_read(b, pos, 24) {
        None
    } else {
        match dec_label(b, pos + 24) {
            Some((l, pl)) => if !can_read(b, pl, 8) {
                None
            } else {
                match dec_props(b, pl + 8, rd_u64(b, pl)) {
                    Some((props, pp)) => Some(
                        (
                            EdgeV {
                                id: rd_u64(b, pos),
                                src: rd_u64(b, pos + 8),
                                dst: rd_u64(b, pos + 16),
                                label: l,
                                props,
                            },
                            pp,
                        ),
                    ),
                    None => None,
                }
            },
            None => None,
        }
    }
}

pub open spec fn dec_voe(b: Seq<u8>, pos: int) -> Option<(VoeV, int)> {
    if !can_read(b, pos, 1) {
        None
    } else if b[pos] == 1 {
        match dec_vertex(b, pos + 1) {
            Some((v, p2)) => Some((VoeV::V(v), p2)),
            None => None,
        }
    } else if b[pos] == 2 {
        match dec_edge(b, pos + 1) {
            Some((e, p2)) => Some((VoeV::E(e), p2)),
            None => None,
        }
    } else {
        None
    }
}

pub open spec fn dec_voes(b: Seq<u8>, pos: int, n: u64) -> Option<(Seq<VoeV>, int)>
    decreases b.len() - pos,
    when pos >= 0
{
    if n == 0 {
        Some((Seq::empty(), pos))
    } else {
        match dec_voe(b, pos) {
            Some((v, p2)) => if p2 <= pos || p2 > b.len() {
                None
            } else {
                match dec_voes(b, p2, (n - 1) as u64) {
                    Some((rest, p3)) => Some((seq![v] + rest, p3)),
                    None => None,
                }
            },
            None => None,
        }
    }
}

pub open spec fn dec_u64s(b: Seq<u8>, pos: int, n: u64) -> Option<(Seq<u64>, int)>
    decreases n,
{
    if n == 0 {
        Some((Seq::empty(), pos))
    } else if !can_read(b, pos, 8) {
        None
    } else {
        match dec_u64s(b, pos + 8, (n - 1) as u64) {
            Some((rest, p3)) => Some((seq![rd_u64(b, pos)] + rest, p3)),
            None => None,
        }
    }
}

pub open spec fn dec_u32s(b: Seq<u8>, pos: int, n: u64) -> Option<(Seq<u32>, int)>
    decreases n,
{
    if n == 0 {
        Some((Seq::empty(), pos))
    } else if !can_read(b, pos, 4) {
        None
    } else {
        match dec_u32s(b, pos + 4, (n - 1) as u64) {
            Some((rest, p3)) => Some((seq![rd_u32(b, pos)] + rest, p3)),
            None => None,
        }
    }
}

/// What decoding yields at `pos`: the entry image and the position after
/// it, or nothing when the bytes are not a well-formed encoding.
pub open spec fn dec_entry(b: Seq<u8>, pos: int) -> Option<(EntryV, int)>
    decreases b.len() - pos, 0int,
{
    if !can_read(b, pos, 1) {
        None
    } else {
        let tag = b[pos];
        let p = pos + 1;
        if tag == 1 {
            match dec_vertex(b, p) {
                Some((v, p2)) => Some((EntryV::Vertex(v), p2)),
                None => None,
            }
        } else if tag == 2 {
            match dec_edge(b, p) {
                Some((e, p2)) => Some((EntryV::Edge(e), p2)),
                None => None,
            }
        } else if tag == 3 {
            if !can_read(b, p, 8) {
                None
            } else {
                match dec_voes(b, p + 8, rd_u64(b, p)) {
                    Some((v, p2)) => Some((EntryV::Path(v), p2)),
                    None => None,
                }
            }
        } else if tag == 4 {
            match dec_obj(b, p) {
                Some((o, p2)) => Some((EntryV::Object(o), p2)),
                None => None,
            }
        } else if tag == 5 {
            if !can_read(b, p, 8) {
                None
            } else {
                match dec_u64s(b, p + 8, rd_u64(b, p)) {
                    Some((v, p2)) => Some((EntryV::Intersection(v), p2)),
                    None => None,
                }
            }
        } else if tag == 6 {
            if !can_read(b, p, 8) {
                None
            } else {
                match dec_entry_seq(b, p + 8, rd_u64(b, p)) {
                    Some((v, p2)) => Some((EntryV::Collection(v), p2)),
                    None => None,
                }
            }
        } else if tag == 7 {
            match dec_entry(b, p) {
                Some((l, p2)) => if p2 <= p || p2 > b.len() {
                    None
                } else {
                    match dec_entry(b, p2) {
                        Some((r, p3)) => Some((EntryV::Pair(Box::new(l), Box::new(r)), p3)),
                        None => None,
                    }
                },
                None => None,
            }
        } else if tag == 8 {
            if !can_read(b, p, 8) {
                None
            } else {
                match dec_u64s(b, p + 8, rd_u64(b, p)) {
                    Some((ids, p2)) => if !can_read(b, p2, 8) {
                        None
                    } else {
                        match dec_u32s(b, p2 + 8, rd_u64(b, p2)) {
                            Some((counts, p3)) => Some(
                                (EntryV::GeneralIntersection(ids, counts), p3),
                            ),
                            None => None,
                        }
                    },
                    None => None,
                }
            }
        } else if tag == 9 {
            Some((EntryV::Null, p))
        } else {
            None
        }
    }
}

pub open spec fn dec_entry_seq(b: Seq<u8>, pos: int, n: u64) -> Option<(Seq<EntryV>, int)>
    decreases b.len() - pos, 1int,
    when pos >= 0
{
    if n == 0 {
        Some((Seq::empty(), pos))
    } else {
        match dec_entry(b, pos) {
            Some((e, p2)) => if p2 <= pos || p2 > b.len() {
                None
            } else {
                match dec_entry_seq(b, p2, (n - 1) as u64) {
                    Some((rest, p3)) => Some((seq![e] + rest, p3)),
                    None => None,
                }
            },
            None => None,
        }
    }
}

fn copy_range(buf: &Vec<u8>, from: usize, to: usize) -> (r: Vec<u8>)
    requires
        from <= to <= buf@.len(),
    ensures
        r@ == buf@.subrange(from as int, to as int),
{
    let mut out: Vec<u8> = Vec::new();
    let mut i: usize = from;
    while i < to
        invariant
            from <= i <= to <= buf@.len(),
            out@ == buf@.subrange(from as int, i as int),
        decreases to - i,
    {
        out.push(buf[i]);
        i = i + 1;
        proof {
            assert(buf@.subrange(from as int, i as int) =~= buf@.subrange(from as int, i - 1)
                + seq![buf@[i - 1]]);
        }
    }
    out
}

fn decode_label(buf: &Vec<u8>, pos: usize) -> (r: Result<(Option<i32>, usize), DecodeError>)
    ensures
        match r {
            Ok((l, p)) => dec_label(buf@, pos as int) == Some((l, p as int)) && pos < p
                <= buf@.len(),
            Err(_) => dec_label(buf@, pos as int) is None,
        },
{
    if pos >= buf.len() {
        return Err(DecodeError::Truncated);
    }
    let tag = buf[pos];
    if tag == 0 {
        Ok((None, pos + 1))
    } else if tag == 1 {
        if buf.len() - (pos + 1) < 4 {
            return Err(DecodeError::Truncated);
        }
        let v = u32_to_i32(be_get_u32(buf, pos + 1));
        Ok((Some(v), pos + 5))
    } else {
        Err(DecodeError::UnknownTag)
    }
}

fn decode_str(buf: &Vec<u8>, pos: usize) -> (r: Result<(String, usize), DecodeError>)
    ensures
        match r {
            Ok((s, p)) => dec_str(buf@, pos as int) == Some((s@, p as int)) && pos < p
                <= buf@.len(),
            Err(_) => dec_str(buf@, pos as int) is None,
        },
{
    if pos >= buf.len() || buf.len() - pos < 8 {
        return Err(DecodeError::Truncated);
    }
    let n = be_get_u64(buf, pos);
    if n > (buf.len() - (pos + 8)) as u64 {
        return Err(DecodeError::Truncated);
    }
    let end = pos + 8 + (n as usize);
    let payload = copy_range(buf, pos + 8, end);
    match bytes_to_string(&payload) {
        Some(s) => Ok((s, end)),
        None => Err(DecodeError::InvalidText),
    }
}

#[verifier::rlimit(100)]
fn decode_obj(buf: &Vec<u8>, pos: usize) -> (r: Result<(Object, usize), DecodeError>)
    ensures
        match r {
            Ok((o, p)) => dec_obj(buf@, pos as int) == Some((view_obj(o), p as int)) && pos < p
                <= buf@.len(),
            Err(_) => dec_obj(buf@, pos as int) is None,
        },
    decreases buf@.len() - pos, 0int,
{
    if pos >= buf.len() {
        return Err(DecodeError::Truncated);
    }
    let tag = buf[pos];
    let p = pos + 1;
    let rem = buf.len() - p;
    if tag == 0 {
        Ok((Object::NoneValue, p))
    } else if tag == 1 {
        if rem < 1 {
            return Err(DecodeError::Truncated);
        }
        let u = buf[p];
        let v: i8 = if u < 0x80 {
            u as i8
        } else {
            ((u as i16) - 0x100) as i8
        };
        Ok((Object::Primitive(Primitives::Byte(v)), p + 1))
    } else if tag == 2 {
        if rem < 4 {
            return Err(DecodeError::Truncated);
        }
        Ok((Object::Primitive(Primitives::Integer(u32_to_i32(be_get_u32(buf, p)))), p + 4))
    } else if tag == 3 {
        if rem < 8 {
            return Err(DecodeError::Truncated);
        }
        Ok((Object::Primitive(Primitives::Long(crate::be::u64_to_i64(be_get_u64(buf, p)))), p + 8))
    } else if tag == 4 {
        if rem < 16 {
            return Err(DecodeError::Truncated);
        }
        let hi = be_get_u64(buf, p);
        let lo = be_get_u64(buf, p + 8);
        Ok(
            (
                Object::Primitive(
                    Primitives::ULLong((hi as u128) * 0x1_0000_0000_0000_0000 + (lo as u128)),
                ),
                p + 16,
            ),
        )
    } else if tag == 5 {
        if rem < 4 {
            return Err(DecodeError::Truncated);
        }
        Ok((Object::Primitive(Primitives::Float(be_get_u32(buf, p))), p + 4))
    } else if tag == 6 {
        if rem < 8 {
            return Err(DecodeError::Truncated);
        }
        Ok((Object::Primitive(Primitives::Double(be_get_u64(buf, p))), p + 8))
    } else if tag == 7 {
        if rem < 4 {
            return Err(DecodeError::Truncated);
        }
        Ok((Object::Primitive(Primitives::UInteger(be_get_u32(buf, p))), p + 4))
    } else if tag == 8 {
        if rem < 8 {
            return Err(DecodeError::Truncated);
        }
        Ok((Object::Primitive(Primitives::ULong(be_get_u64(buf, p))), p + 8))
    } else if tag == 9 {
        match decode_str(buf, p) {
            Ok((s, p2)) => Ok((Object::String(s), p2)),
            Err(e) => Err(e),
        }
    } else if tag == 10 {
        if rem < 8 {
            return Err(DecodeError::Truncated);
        }
        let n = be_get_u64(buf, p);
        if n > (buf.len() - (p + 8)) as u64 {
            return Err(DecodeError::Truncated);
        }
        let end = p + 8 + (n as usize);
        Ok((Object::Blob(copy_range(buf, p + 8, end)), end))
    } else if tag == 11 {
        if rem < 8 {
            return Err(DecodeError::Truncated);
        }
        let n = be_get_u64(buf, p);
        match decode_obj_seq(buf, p + 8, n) {
            Ok((v, p2)) => Ok((Object::Vector(v), p2)),
            Err(e) => Err(e),
        }
    } else if tag == 12 {
        if rem < 8 {
            return Err(DecodeError::Truncated);
        }
        let n = be_get_u64(buf, p);
        match decode_kv_seq(buf, p + 8, n) {
            Ok((v, p2)) => Ok((Object::KV(v), p2)),
            Err(e) => Err(e),
        }
    } else {
        Err(DecodeError::UnknownTag)
    }
}

fn decode_obj_seq(buf: &Vec<u8>, pos: usize, n: u64) -> (r: Result<
    (Vec<Object>, usize),
    DecodeError,
>)
    requires
        pos <= buf@.len(),
    ensures
        match r {
            Ok((v, p)) => dec_obj_seq(buf@, pos as int, n) == Some((view_obj_seq(v@), p as int))
                && pos <= p <= buf@.len(),
            Err(_) => dec_obj_seq(buf@, pos as int, n) is None,
        },
    decreases buf@.len() - pos, 1int,
{
    if n == 0 {
        Ok((Vec::new(), pos))
    } else {
        match decode_obj(buf, pos) {
            Ok((o, p2)) => {
                match decode_obj_seq(buf, p2, n - 1) {
                    Ok((mut rest, p3)) => {
                        let ghost pre = rest@;
                        rest.insert(0, o);
                        proof {
                            assert(rest@.drop_first() =~= pre);
                            assert(view_obj_seq(rest@) =~= seq![view_obj(rest@[0])]
                                + view_obj_seq(rest@.drop_first()));
                        }
                        Ok((rest, p3))
                    },
                    Err(e) => Err(e),
                }
            },
            Err(e) => Err(e),
        }
    }
}

fn decode_kv_seq(buf: &Vec<u8>, pos: usize, n: u64) -> (r: Result<
    (Vec<KeyValue>, usize),
    DecodeError,
>)
    requires
        pos <= buf@.len(),
    ensures
        match r {
            Ok((v, p)) => dec_kv_seq(buf@, pos as int, n) == Some((view_kv_seq(v@), p as int))
                && pos <= p <= buf@.len(),
            Err(_) => dec_kv_seq(buf@, pos as int, n) is None,
        },
    decreases buf@.len() - pos, 1int,
{
    if n == 0 {
        Ok((Vec::new(), pos))
    } else {
        match decode_obj(buf, pos) {
            Ok((k, pk)) => {
                match decode_obj(buf, pk) {
                    Ok((v, pv)) => {
                        match decode_kv_seq(buf, pv, n - 1) {
                            Ok((mut rest, p3)) => {
                                let ghost pre = rest@;
                                rest.insert(0, KeyValue { key: k, value: v });
                                proof {
                                    assert(rest@.drop_first() =~= pre);
                                    assert(view_kv_seq(rest@) =~= seq![
                                        (view_obj(rest@[0].key), view_obj(rest@[0].value)),
                                    ] + view_kv_seq(rest@.drop_first()));
                                }
                                Ok((rest, p3))
                            },
                            Err(e) => Err(e),
                        }
                    },
                    Err(e) => Err(e),
                }
            },
            Err(e) => Err(e),
        }
    }
}

fn decode_key(buf: &Vec<u8>, pos: usize) -> (r: Result<(PropKey, usize), DecodeError>)
    ensures
        match r {
            Ok((k, p)) => dec_key(buf@, pos as int) == Some((view_key(k), p as int)) && pos < p
                <= buf@.len(),
            Err(_) => dec_key(buf@, pos as int) is None,
        },
{
    if pos >= buf.len() {
        return Err(DecodeError::Truncated);
    }
    let tag = buf[pos];
    if tag == 0 {
        match decode_str(buf, pos + 1) {
            Ok((s, p2)) => Ok((PropKey::Str(s), p2)),
            Err(e) => Err(e),
        }
    } else if tag == 1 {
        if buf.len() - (pos + 1) < 4 {
            return Err(DecodeError::Truncated);
        }
        Ok((PropKey::Id(u32_to_i32(be_get_u32(buf, pos + 1))), pos + 5))
    } else {
        Err(DecodeError::UnknownTag)
    }
}

fn decode_props(buf: &Vec<u8>, pos: usize, n: u64) -> (r: Result<
    (Vec<PropEntry>, usize),
    DecodeError,
>)
    requires
        pos <= buf@.len(),
    ensures
        match r {
            Ok((v, p)) => dec_props(buf@, pos as int, n) == Some((view_props(v@), p as int))
                && pos <= p <= buf@.len(),
            Err(_) => dec_props(buf@, pos as int, n) is None,
        },
    decreases buf@.len() - pos,
{
    if n == 0 {
        Ok((Vec::new(), pos))
    } else {
        match decode_key(buf, pos) {
            Ok((k, pk)) => {
                match decode_obj(buf, pk) {
                    Ok((v, pv)) => {
                        match decode_props(buf, pv, n - 1) {
                            Ok((mut rest, p3)) => {
                                let ghost pre = rest@;
                                rest.insert(0, PropEntry { key: k, value: v });
                                proof {
                                    assert(rest@.drop_first() =~= pre);
                                    assert(view_props(rest@) =~= seq![
                                        PropV {
                                            key: view_key(rest@[0].key),
                                            value: view_obj(rest@[0].value),
                                        },
                                    ] + view_props(rest@.drop_first()));
                                }
                                Ok((rest, p3))
                            },
                            Err(e) => Err(e),
                        }
                    },
                    Err(e) => Err(e),
                }
            },
            Err(e) => Err(e),
        }
    }
}

fn decode_vertex(buf: &Vec<u8>, pos: usize) -> (r: Result<(Vertex, usize), DecodeError>)
    ensures
        match r {
            Ok((v, p)) => dec_vertex(buf@, pos as int) == Some((view_vertex(v), p as int)) && pos
                < p <= buf@.len(),
            Err(_) => dec_vertex(buf@, pos as int) is None,
        },
{
    if pos >= buf.len() || buf.len() - pos < 8 {
        return Err(DecodeError::Truncated);
    }
    let id = be_get_u64(buf, pos);
    match decode_label(buf, pos + 8) {
        Ok((l, pl)) => {
            if buf.len() - pl < 8 {
                return Err(DecodeError::Truncated);
            }
            let n = be_get_u64(buf, pl);
            match decode_props(buf, pl + 8, n) {
                Ok((props, pp)) => Ok((Vertex { id, label: l, properties: props }, pp)),
                Err(e) => Err(e),
            }
        },
        Err(e) => Err(e),
    }
}

fn decode_edge(buf: &Vec<u8>, pos: usize) -> (r: Result<(Edge, usize), DecodeError>)
    ensures
        match r {
            Ok((v, p)) => dec_edge(buf@, pos as int) == Some((view_edge(v), p as int)) && pos < p
                <= buf@.len(),
            Err(_) => dec_edge(buf@, pos as int) is None,
        },
{
    if pos >= buf.len() || buf.len() - pos < 24 {
        return Err(DecodeError::Truncated);
    }
    let id = be_get_u64(buf, pos);
    let src = be_get_u64(buf, pos + 8);
    let dst = be_get_u64(buf, pos + 16);
    match decode_label(buf, pos + 24) {
        Ok((l, pl)) => {
            if buf.len() - pl < 8 {
                return Err(DecodeError::Truncated);
            }
            let n = be_get_u64(buf, pl);
            match decode_props(buf, pl + 8, n) {
                Ok((props, pp)) => Ok(
                    (Edge { id, src_id: src, dst_id: dst, label: l, properties: props }, pp),
                ),
                Err(e) => Err(e),
            }
        },
        Err(e) => Err(e),
    }
}

fn decode_voes(buf: &Vec<u8>, pos: usize, n: u64) -> (r: Result<
    (Vec<VertexOrEdge>, usize),
    DecodeError,
>)
    requires
        pos <= buf@.len(),
    ensures
        match r {
            Ok((v, p)) => dec_voes(buf@, pos as int, n) == Some((view_voes(v@), p as int)) && pos
                <= p <= buf@.len(),
            Err(_) => dec_voes(buf@, pos as int, n) is None,
        },
    decreases buf@.len() - pos,
{
    if n == 0 {
        Ok((Vec::new(), pos))
    } else {
        if pos >= buf.len() {
            return Err(DecodeError::Truncated);
        }
        let tag = buf[pos];
        let one: Result<(VertexOrEdge, usize), DecodeError> = if tag == 1 {
            match decode_vertex(buf, pos + 1) {
                Ok((v, p2)) => Ok((VertexOrEdge::V(v), p2)),
                Err(e) => Err(e),
            }
        } else if tag == 2 {
            match decode_edge(buf, pos + 1) {
                Ok((e, p2)) => Ok((VertexOrEdge::E(e), p2)),
                Err(e) => Err(e),
            }
        } else {
            Err(DecodeError::UnknownTag)
        };
        match one {
            Ok((v, p2)) => {
                match decode_voes(buf, p2, n - 1) {
                    Ok((mut rest, p3)) => {
                        let ghost pre = rest@;
                        rest.insert(0, v);
                        proof {
                            assert(rest@.drop_first() =~= pre);
                            assert(view_voes(rest@) =~= seq![view_voe(rest@[0])] + view_voes(
                                rest@.drop_first(),
                            ));
                        }
                        Ok((rest, p3))
                    },
                    Err(e) => Err(e),
                }
            },
            Err(e) => Err(e),
        }
    }
}

fn decode_u64s(buf: &Vec<u8>, pos: usize, n: u64) -> (r: Result<(Vec<u64>, usize), DecodeError>)
    requires
        pos <= buf@.len(),
    ensures
        match r {
            Ok((v, p)) => dec_u64s(buf@, pos as int, n) == Some((v@, p as int)) && pos <= p
                <= buf@.len(),
            Err(_) => dec_u64s(buf@, pos as int, n) is None,
        },
    decreases n,
{
    if n == 0 {
        Ok((Vec::new(), pos))
    } else {
        if buf.len() - pos < 8 {
            return Err(DecodeError::Truncated);
        }
        let x = be_get_u64(buf, pos);
        match decode_u64s(buf, pos + 8, n - 1) {
            Ok((mut rest, p3)) => {
                let ghost pre = rest@;
                rest.insert(0, x);
                proof {
                    assert(rest@.drop_first() =~= pre);
                }
                Ok((rest, p3))
            },
            Err(e) => Err(e),
        }
    }
}

fn decode_u32s(buf: &Vec<u8>, pos: usize, n: u64) -> (r: Result<(Vec<u32>, usize), DecodeError>)
    requires
        pos <= buf@.len(),
    ensures
        match r {
            Ok((v, p)) => dec_u32s(buf@, pos as int, n) == Some((v@, p as int)) && pos <= p
                <= buf@.len(),
            Err(_) => dec_u32s(buf@, pos as int, n) is None,
        },
    decreases n,
{
    if n == 0 {
        Ok((Vec::new(), pos))
    } else {
        if buf.len() - pos < 4 {
            return Err(DecodeError::Truncated);
        }
        let x = be_get_u32(buf, pos);
        match decode_u32s(buf, pos + 4, n - 1) {
            Ok((mut rest, p3)) => {
                let ghost pre = rest@;
                rest.insert(0, x);
                proof {
                    assert(rest@.drop_first() =~= pre);
                }
                Ok((rest, p3))
            },
            Err(e) => Err(e),
        }
    }
}

#[verifier::rlimit(100)]
fn decode_entry(buf: &Vec<u8>, pos: usize) -> (r: Result<(DynEntry, usize), DecodeError>)
    ensures
        match r {
            Ok((d, p)) => dec_entry(buf@, pos as int) == Some((view_entry(d.entry()), p as int))
                && pos < p <= buf@.len(),
            Err(_) => dec_entry(buf@, pos as int) is None,
        },
    decreases buf@.len() - pos, 2int,
{
    if pos >= buf.len() {
        return Err(DecodeError::Truncated);
    }
    let tag = buf[pos];
    let p = pos + 1;
    if tag == 1 {
        match decode_vertex(buf, p) {
            Ok((v, p2)) => Ok((DynEntry::new(Entry::Vertex(v)), p2)),
            Err(e) => Err(e),
        }
    } else if tag == 2 {
        match decode_edge(buf, p) {
            Ok((v, p2)) => Ok((DynEntry::new(Entry::Edge(v)), p2)),
            Err(e) => Err(e),
        }
    } else if tag == 3 {
        if buf.len() - p < 8 {
            return Err(DecodeError::Truncated);
        }
        let n = be_get_u64(buf, p);
        match decode_voes(buf, p + 8, n) {
            Ok((v, p2)) => Ok((DynEntry::new(Entry::Path(GraphPath { elements: v })), p2)),
            Err(e) => Err(e),
        }
    } else if tag == 4 {
        match decode_obj(buf, p) {
            Ok((o, p2)) => Ok((DynEntry::new(Entry::Object(o)), p2)),
            Err(e) => Err(e),
        }
    } else if tag == 5 {
        if buf.len() - p < 8 {
            return Err(DecodeError::Truncated);
        }
        let n = be_get_u64(buf, p);
        match decode_u64s(buf, p + 8, n) {
            Ok((v, p2)) => Ok((DynEntry::new(Entry::Intersection(IntersectionEntry { ids: v })), p2)),
            Err(e) => Err(e),
        }
    } else if tag == 6 {
        if buf.len() - p < 8 {
            return Err(DecodeError::Truncated);
        }
        let n = be_get_u64(buf, p);
        match decode_entries(buf, p + 8, n) {
            Ok((v, p2)) => Ok(
                (DynEntry::new(Entry::Collection(CollectionEntry { inner: v })), p2),
            ),
            Err(e) => Err(e),
        }
    } else if tag == 7 {
        match decode_entry(buf, p) {
            Ok((l, p2)) => {
                match decode_entry(buf, p2) {
                    Ok((rr, p3)) => Ok((DynEntry::new(Entry::Pair(PairEntry::new(l, rr))), p3)),
                    Err(e) => Err(e),
                }
            },
            Err(e) => Err(e),
        }
    } else if tag == 8 {
        if buf.len() - p < 8 {
            return Err(DecodeError::Truncated);
        }
        let n = be_get_u64(buf, p);
        match decode_u64s(buf, p + 8, n) {
            Ok((ids, p2)) => {
                if buf.len() - p2 < 8 {
                    return Err(DecodeError::Truncated);
                }
                let m = be_get_u64(buf, p2);
                match decode_u32s(buf, p2 + 8, m) {
                    Ok((counts, p3)) => Ok(
                        (
                            DynEntry::new(
                                Entry::GeneralIntersection(
                                    GeneralIntersectionEntry { ids, counts },
                                ),
                            ),
                            p3,
                        ),
                    ),
                    Err(e) => Err(e),
                }
            },
            Err(e) => Err(e),
        }
    } else if tag == 9 {
        Ok((DynEntry::new(Entry::Null(NullEntry)), p))
    } else {
        Err(DecodeError::UnknownTag)
    }
}

fn decode_entries(buf: &Vec<u8>, pos: usize, n: u64) -> (r: Result<
    (Vec<DynEntry>, usize),
    DecodeError,
>)
    requires
        pos <= buf@.len(),
    ensures
        match r {
            Ok((v, p)) => dec_entry_seq(buf@, pos as int, n) == Some(
                (view_entry_seq(v@), p as int),
            ) && pos <= p <= buf@.len(),
            Err(_) => dec_entry_seq(buf@, pos as int, n) is None,
        },
    decreases buf@.len() - pos, 3int,
{
    if n == 0 {
        Ok((Vec::new(), pos))
    } else {
        match decode_entry(buf, pos) {
            Ok((e, p2)) => {
                match decode_entries(buf, p2, n - 1) {
                    Ok((mut rest, p3)) => {
                        let ghost pre = rest@;
                        rest.insert(0, e);
                        proof {
                            assert(rest@.drop_first() =~= pre);
                            assert(view_entry_seq(rest@) =~= seq![view_entry(rest@[0].entry())]
                                + view_entry_seq(rest@.drop_first()));
                        }
                        Ok((rest, p3))
                    },
                    Err(e2) => Err(e2),
                }
            },
            Err(e) => Err(e),
        }
    }
}

impl DynEntry {
    /// Decode one entry from the buffer at `pos`: the entry and the
    /// position just after it, or a protocol error.
    pub fn read_from(buf: &Vec<u8>, pos: usize) -> (r: Result<(DynEntry, usize), DecodeError>)
        ensures
            match r {
                Ok((d, p)) => dec_entry(buf@, pos as int) == Some(
                    (view_entry(d.entry()), p as int),
                ) && pos < p <= buf@.len(),
                Err(_) => dec_entry(buf@, pos as int) is None,
            },
    {
        decode_entry(buf, pos)
    }
}

/// Counts and lengths that the wire format stores in eight bytes must fit
/// them; every image taken from a real value does (vector lengths are
/// machine-bounded).
pub open spec fn wf_obj(o: ObjV) -> bool
    decreases o, 0int, 0int,
{
    match o {
        ObjV::Str(s) => encode_utf8(s).len() < 0x1_0000_0000_0000_0000,
        ObjV::Blob(b) => b.len() < 0x1_0000_0000_0000_0000,
        ObjV::Vector(v) => v.len() < 0x1_0000_0000_0000_0000 && wf_obj_seq(v),
        ObjV::KV(v) => v.len() < 0x1_0000_0000_0000_0000 && wf_kv_seq(v),
        _ => true,
    }
}

pub open spec fn wf_obj_seq(s: Seq<ObjV>) -> bool
    decreases s, 1int, s.len(),
{
    s.len() == 0 || (wf_obj(s[0]) && wf_obj_seq(s.drop_first()))
}

pub open spec fn wf_kv_seq(s: Seq<(ObjV, ObjV)>) -> bool
    decreases s, 1int, s.len(),
{
    s.len() == 0 || (wf_obj(s[0].0) && wf_obj(s[0].1) && wf_kv_seq(s.drop_first()))
}

pub open spec fn wf_key(k: KeyV) -> bool {
    match k {
        KeyV::Str(s) => encode_utf8(s).len() < 0x1_0000_0000_0000_0000,
        KeyV::Id(_) => true,
    }
}

pub open spec fn wf_props(s: Seq<PropV>) -> bool
    decreases s, 1int, s.len(),
{
    s.len() == 0 || (wf_key(s[0].key) && wf_obj(s[0].value) && wf_props(s.drop_first()))
}

pub open spec fn wf_vertex(v: VertexV) -> bool {
    v.props.len() < 0x1_0000_0000_0000_0000 && wf_props(v.props)
}

pub open spec fn wf_edge(e: EdgeV) -> bool {
    e.props.len() < 0x1_0000_0000_0000_0000 && wf_props(e.props)
}

pub open spec fn wf_voe(v: VoeV) -> bool {
    match v {
        VoeV::V(x) => wf_vertex(x),
        VoeV::E(x) => wf_edge(x),
    }
}

pub open spec fn wf_voes(s: Seq<VoeV>) -> bool
    decreases s.len(),
{
    s.len() == 0 || (wf_voe(s[0]) && wf_voes(s.drop_first()))
}

/// Well-formedness of an entry image; every image of a real entry is
/// well-formed.
pub open spec fn wf_entry(e: EntryV) -> bool
    decreases e, 0int, 0int,
{
    match e {
        EntryV::Vertex(v) => wf_vertex(v),
        EntryV::Edge(x) => wf_edge(x),
        EntryV::Path(p) => p.len() < 0x1_0000_0000_0000_0000 && wf_voes(p),
        EntryV::Object(o) => wf_obj(o),
        EntryV::Intersection(ids) => ids.len() < 0x1_0000_0000_0000_0000,
        EntryV::GeneralIntersection(ids, counts) => ids.len() < 0x1_0000_0000_0000_0000
            && counts.len() < 0x1_0000_0000_0000_0000,
        EntryV::Collection(c) => c.len() < 0x1_0000_0000_0000_0000 && wf_entry_seq(c),
        EntryV::Pair(l, r) => wf_entry(*l) && wf_entry(*r),
        EntryV::Null => true,
    }
}

pub open spec fn wf_entry_seq(s: Seq<EntryV>) -> bool
    decreases s, 1int, s.len(),
{
    s.len() == 0 || (wf_entry(s[0]) && wf_entry_seq(s.drop_first()))
}

/// Bytes laid down at `pos` read back one by one.
proof fn lemma_bytes_at(b: Seq<u8>, pos: int, e: Seq<u8>)
    requires
        0 <= pos,
        pos + e.len() <= b.len(),
        b.subrange(pos, pos + e.len()) == e,
    ensures
        forall|i: int| 0 <= i < e.len() ==> #[trigger] b[pos + i] == e[i],
{
    assert forall|i: int| 0 <= i < e.len() implies #[trigger] b[pos + i] == e[i] by {
        assert(b.subrange(pos, pos + e.len())[i] == b[pos + i]);
    }
}

/// A run embedded after `off` bytes of a larger run is itself laid down.
proof fn lemma_sub_at(b: Seq<u8>, pos: int, e: Seq<u8>, off: int, part: Seq<u8>)
    requires
        0 <= pos,
        pos + e.len() <= b.len(),
        b.subrange(pos, pos + e.len()) == e,
        0 <= off,
        off + part.len() <= e.len(),
        forall|j: int| 0 <= j < part.len() ==> #[trigger] e[off + j] == part[j],
    ensures
        b.subrange(pos + off, pos + off + part.len()) == part,
{
    lemma_bytes_at(b, pos, e);
    assert forall|j: int|
        0 <= j < part.len() implies b.subrange(pos + off, pos + off + part.len())[j] == part[j] by {
        assert(b[pos + (off + j)] == e[off + j]);
    }
    assert(b.subrange(pos + off, pos + off + part.len()) =~= part);
}

/// An eight-byte big-endian run reads back its value.
proof fn lemma_rd_u64_at(b: Seq<u8>, pos: int, n: u64)
    requires
        0 <= pos,
        pos + 8 <= b.len(),
        forall|i: int| 0 <= i < 8 ==> b[pos + i] == crate::be::be8(n)[i],
    ensures
        rd_u64(b, pos) == n,
{
    crate::be::lemma_be8_round(n);
}

/// A four-byte big-endian run reads back its value.
proof fn lemma_rd_u32_at(b: Seq<u8>, pos: int, n: u32)
    requires
        0 <= pos,
        pos + 4 <= b.len(),
        forall|i: int| 0 <= i < 4 ==> b[pos + i] == be4(n)[i],
    ensures
        rd_u32(b, pos) == n,
{
    crate::be::lemma_be4_round(n);
}

proof fn lemma_dec_label_round(l: Option<i32>, b: Seq<u8>, pos: int)
    requires
        0 <= pos,
        pos + enc_label(l).len() <= b.len(),
        b.subrange(pos, pos + enc_label(l).len()) == enc_label(l),
    ensures
        dec_label(b, pos) == Some((l, pos + enc_label(l).len())),
{
    let e = enc_label(l);
    lemma_bytes_at(b, pos, e);
    match l {
        Option::None => {
            assert(b[pos + 0] == e[0]);
        },
        Option::Some(x) => {
            assert(b[pos + 0] == e[0]);
            assert forall|i: int|
                0 <= i < 4 implies #[trigger] b[pos + 1 + i] == be4(i32_as_u32(x))[i] by {
                assert(b[pos + (1 + i)] == e[1 + i]);
            }
            lemma_rd_u32_at(b, pos + 1, i32_as_u32(x));
        },
    }
}

proof fn lemma_dec_str_round(s: Seq<char>, b: Seq<u8>, pos: int)
    requires
        0 <= pos,
        encode_utf8(s).len() < 0x1_0000_0000_0000_0000,
        pos + enc_str(s).len() <= b.len(),
        b.subrange(pos, pos + enc_str(s).len()) == enc_str(s),
    ensures
        dec_str(b, pos) == Some((s, pos + enc_str(s).len())),
{
    let u = encode_utf8(s);
    let e = enc_str(s);
    lemma_bytes_at(b, pos, e);
    assert forall|i: int|
        0 <= i < 8 implies #[trigger] b[pos + i] == crate::be::be8(u.len() as u64)[i] by {
        assert(b[pos + i] == e[i]);
    }
    lemma_rd_u64_at(b, pos, u.len() as u64);
    assert forall|j: int|
        0 <= j < u.len() implies b.subrange(pos + 8, pos + 8 + u.len())[j] == u[j] by {
        assert(b[pos + (8 + j)] == e[8 + j]);
    }
    assert(b.subrange(pos + 8, pos + 8 + u.len()) =~= u);
    vstd::utf8::encode_utf8_valid_utf8(s);
    vstd::utf8::encode_utf8_decode_utf8(s);
}

proof fn lemma_dec_key_round(k: KeyV, b: Seq<u8>, pos: int)
    requires
        wf_key(k),
        0 <= pos,
        pos + enc_key(k).len() <= b.len(),
        b.subrange(pos, pos + enc_key(k).len()) == enc_key(k),
    ensures
        dec_key(b, pos) == Some((k, pos + enc_key(k).len())),
{
    let e = enc_key(k);
    lemma_bytes_at(b, pos, e);
    match k {
        KeyV::Str(s) => {
            assert(b[pos + 0] == e[0]);
            let es = enc_str(s);
            assert(forall|j: int| 0 <= j < es.len() ==> #[trigger] e[1 + j] == es[j]);
            lemma_sub_at(b, pos, e, 1, es);
            lemma_dec_str_round(s, b, pos + 1);
        },
        KeyV::Id(x) => {
            assert(b[pos + 0] == e[0]);
            assert forall|i: int|
                0 <= i < 4 implies #[trigger] b[pos + 1 + i] == be4(i32_as_u32(x))[i] by {
                assert(b[pos + (1 + i)] == e[1 + i]);
            }
            lemma_rd_u32_at(b, pos + 1, i32_as_u32(x));
        },
    }
}

proof fn lemma_dec_u64s_round(s: Seq<u64>, b: Seq<u8>, pos: int)
    requires
        0 <= pos,
        pos + enc_u64s(s).len() <= b.len(),
        b.subrange(pos, pos + enc_u64s(s).len()) == enc_u64s(s),
        s.len() < 0x1_0000_0000_0000_0000,
    ensures
        dec_u64s(b, pos, s.len() as u64) == Some((s, pos + enc_u64s(s).len())),
    decreases s.len(),
{
    let e = enc_u64s(s);
    lemma_bytes_at(b, pos, e);
    if s.len() > 0 {
        assert(forall|i: int| 0 <= i < 8 ==> #[trigger] b[pos + i] == crate::be::be8(s[0])[i]);
        lemma_rd_u64_at(b, pos, s[0]);
        let tail = enc_u64s(s.drop_first());
        assert(forall|j: int| 0 <= j < tail.len() ==> #[trigger] e[8 + j] == tail[j]);
        lemma_sub_at(b, pos, e, 8, tail);
        lemma_dec_u64s_round(s.drop_first(), b, pos + 8);
        assert(seq![s[0]] + s.drop_first() =~= s);
    }
}

proof fn lemma_dec_u32s_round(s: Seq<u32>, b: Seq<u8>, pos: int)
    requires
        0 <= pos,
        pos + enc_u32s(s).len() <= b.len(),
        b.subrange(pos, pos + enc_u32s(s).len()) == enc_u32s(s),
        s.len() < 0x1_0000_0000_0000_0000,
    ensures
        dec_u32s(b, pos, s.len() as u64) == Some((s, pos + enc_u32s(s).len())),
    decreases s.len(),
{
    let e = enc_u32s(s);
    lemma_bytes_at(b, pos, e);
    if s.len() > 0 {
        assert(forall|i: int| 0 <= i < 4 ==> #[trigger] b[pos + i] == be4(s[0])[i]);
        lemma_rd_u32_at(b, pos, s[0]);
        let tail = enc_u32s(s.drop_first());
        assert(forall|j: int| 0 <= j < tail.len() ==> #[trigger] e[4 + j] == tail[j]);
        lemma_sub_at(b, pos, e, 4, tail);
        lemma_dec_u32s_round(s.drop_first(), b, pos + 4);
        assert(seq![s[0]] + s.drop_first() =~= s);
    }
}

proof fn lemma_dec_props_round(s: Seq<PropV>, b: Seq<u8>, pos: int)
    requires
        wf_props(s),
        s.len() < 0x1_0000_0000_0000_0000,
        0 <= pos,
        pos + enc_props(s).len() <= b.len(),
        b.subrange(pos, pos + enc_props(s).len()) == enc_props(s),
    ensures
        dec_props(b, pos, s.len() as u64) == Some((s, pos + enc_props(s).len())),
    decreases s.len(),
{
    let e = enc_props(s);
    lemma_bytes_at(b, pos, e);
    if s.len() > 0 {
        let ek = enc_key(s[0].key);
        let ev = enc_obj(s[0].value);
        let tail = enc_props(s.drop_first());
        assert(e == ek + ev + tail);
        lemma_sub_at(b, pos, e, 0, ek);
        lemma_dec_key_round(s[0].key, b, pos);
        lemma_sub_at(b, pos, e, ek.len() as int, ev);
        lemma_dec_obj_round(s[0].value, b, pos + ek.len());
        lemma_sub_at(b, pos, e, ek.len() + ev.len() as int, tail);
        lemma_dec_props_round(s.drop_first(), b, pos + ek.len() + ev.len());
        assert(ev.len() >= 1);
        assert(seq![s[0]] + s.drop_first() =~= s);
        assert(seq![PropV { key: s[0].key, value: s[0].value }] + s.drop_first() =~= s);
    }
}

proof fn lemma_dec_vertex_round(v: VertexV, b: Seq<u8>, pos: int)
    requires
        wf_vertex(v),
        0 <= pos,
        pos + enc_vertex(v).len() <= b.len(),
        b.subrange(pos, pos + enc_vertex(v).len()) == enc_vertex(v),
    ensures
        dec_vertex(b, pos) == Some((v, pos + enc_vertex(v).len())),
{
    let e = enc_vertex(v);
    lemma_bytes_at(b, pos, e);
    let el = enc_label(v.label);
    let ep = enc_props(v.props);
    assert(e == crate::be::be8(v.id) + el + crate::be::be8(v.props.len() as u64) + ep);
    lemma_sub_at(b, pos, e, 0, crate::be::be8(v.id));
    lemma_bytes_at(b, pos, crate::be::be8(v.id));
    lemma_rd_u64_at(b, pos, v.id);
    lemma_sub_at(b, pos, e, 8, el);
    lemma_dec_label_round(v.label, b, pos + 8);
    lemma_sub_at(b, pos, e, 8 + el.len() as int, crate::be::be8(v.props.len() as u64));
    lemma_bytes_at(b, pos + 8 + el.len(), crate::be::be8(v.props.len() as u64));
    lemma_rd_u64_at(b, pos + 8 + el.len(), v.props.len() as u64);
    lemma_sub_at(b, pos, e, 8 + (el.len() as int) + 8, ep);
    lemma_dec_props_round(v.props, b, pos + 8 + el.len() + 8);
}

proof fn lemma_dec_edge_round(v: EdgeV, b: Seq<u8>, pos: int)
    requires
        wf_edge(v),
        0 <= pos,
        pos + enc_edge(v).len() <= b.len(),
        b.subrange(pos, pos + enc_edge(v).len()) == enc_edge(v),
    ensures
        dec_edge(b, pos) == Some((v, pos + enc_edge(v).len())),
{
    let e = enc_edge(v);
    lemma_bytes_at(b, pos, e);
    let el = enc_label(v.label);
    let ep = enc_props(v.props);
    assert(e == crate::be::be8(v.id) + crate::be::be8(v.src) + crate::be::be8(v.dst) + el
        + crate::be::be8(v.props.len() as u64) + ep);
    lemma_sub_at(b, pos, e, 0, crate::be::be8(v.id));
    lemma_bytes_at(b, pos, crate::be::be8(v.id));
    lemma_rd_u64_at(b, pos, v.id);
    lemma_sub_at(b, pos, e, 8, crate::be::be8(v.src));
    lemma_bytes_at(b, pos + 8, crate::be::be8(v.src));
    lemma_rd_u64_at(b, pos + 8, v.src);
    lemma_sub_at(b, pos, e, 16, crate::be::be8(v.dst));
    lemma_bytes_at(b, pos + 16, crate::be::be8(v.dst));
    lemma_rd_u64_at(b, pos + 16, v.dst);
    lemma_sub_at(b, pos, e, 24, el);
    lemma_dec_label_round(v.label, b, pos + 24);
    lemma_sub_at(b, pos, e, 24 + el.len() as int, crate::be::be8(v.props.len() as u64));
    lemma_bytes_at(b, pos + 24 + el.len(), crate::be::be8(v.props.len() as u64));
    lemma_rd_u64_at(b, pos + 24 + el.len(), v.props.len() as u64);
    lemma_sub_at(b, pos, e, 24 + (el.len() as int) + 8, ep);
    lemma_dec_props_round(v.props, b, pos + 24 + el.len() + 8);
}

proof fn lemma_dec_voe_round(v: VoeV, b: Seq<u8>, pos: int)
    requires
        wf_voe(v),
        0 <= pos,
        pos + enc_voe(v).len() <= b.len(),
        b.subrange(pos, pos + enc_voe(v).len()) == enc_voe(v),
    ensures
        dec_voe(b, pos) == Some((v, pos + enc_voe(v).len())),
{
    let e = enc_voe(v);
    lemma_bytes_at(b, pos, e);
    match v {
        VoeV::V(x) => {
            assert(b[pos + 0] == e[0]);
            let ev = enc_vertex(x);
            lemma_sub_at(b, pos, e, 1, ev);
            lemma_dec_vertex_round(x, b, pos + 1);
        },
        VoeV::E(x) => {
            assert(b[pos + 0] == e[0]);
            let ev = enc_edge(x);
            lemma_sub_at(b, pos, e, 1, ev);
            lemma_dec_edge_round(x, b, pos + 1);
        },
    }
}

proof fn lemma_dec_voes_round(s: Seq<VoeV>, b: Seq<u8>, pos: int)
    requires
        wf_voes(s),
        s.len() < 0x1_0000_0000_0000_0000,
        0 <= pos,
        pos + enc_voes(s).len() <= b.len(),
        b.subrange(pos, pos + enc_voes(s).len()) == enc_voes(s),
    ensures
        dec_voes(b, pos, s.len() as u64) == Some((s, pos + enc_voes(s).len())),
    decreases s.len(),
{
    let e = enc_voes(s);
    lemma_bytes_at(b, pos, e);
    if s.len() > 0 {
        let e0 = enc_voe(s[0]);
        let tail = enc_voes(s.drop_first());
        assert(e == e0 + tail);
        lemma_sub_at(b, pos, e, 0, e0);
        lemma_dec_voe_round(s[0], b, pos);
        lemma_sub_at(b, pos, e, e0.len() as int, tail);
        lemma_dec_voes_round(s.drop_first(), b, pos + e0.len());
        assert(e0.len() >= 1);
        assert(seq![s[0]] + s.drop_first() =~= s);
    }
}

#[verifier::rlimit(100)]
#[verifier::spinoff_prover]
proof fn lemma_dec_obj_round(o: ObjV, b: Seq<u8>, pos: int)
    requires
        wf_obj(o),
        0 <= pos,
        pos + enc_obj(o).len() <= b.len(),
        b.subrange(pos, pos + enc_obj(o).len()) == enc_obj(o),
    ensures
        dec_obj(b, pos) == Some((o, pos + enc_obj(o).len())),
    decreases o, 0int, 0int,
{
    let e = enc_obj(o);
    lemma_bytes_at(b, pos, e);
    assert(b[pos + 0] == e[0]);
    match o {
        ObjV::NoneV => {},
        ObjV::Byte(v) => {
            assert(b[pos + 1] == e[1]);
        },
        ObjV::Integer(v) => {
            assert forall|i: int|
                0 <= i < 4 implies #[trigger] b[pos + 1 + i] == be4(i32_as_u32(v))[i] by {
                assert(b[pos + (1 + i)] == e[1 + i]);
            }
            lemma_rd_u32_at(b, pos + 1, i32_as_u32(v));
        },
        ObjV::Long(v) => {
            assert forall|i: int|
                0 <= i < 8 implies #[trigger] b[pos + 1 + i] == crate::be::be8(
                    crate::be::i64_as_u64(v),
                )[i] by {
                assert(b[pos + (1 + i)] == e[1 + i]);
            }
            lemma_rd_u64_at(b, pos + 1, crate::be::i64_as_u64(v));
        },
        ObjV::ULLong(v) => {
            let hi = (v / 0x1_0000_0000_0000_0000) as u64;
            let lo = (v % 0x1_0000_0000_0000_0000) as u64;
            assert forall|i: int|
                0 <= i < 8 implies #[trigger] b[pos + 1 + i] == crate::be::be8(hi)[i] by {
                assert(b[pos + (1 + i)] == e[1 + i]);
            }
            lemma_rd_u64_at(b, pos + 1, hi);
            assert forall|i: int|
                0 <= i < 8 implies #[trigger] b[pos + 9 + i] == crate::be::be8(lo)[i] by {
                assert(b[pos + (9 + i)] == e[9 + i]);
            }
            lemma_rd_u64_at(b, pos + 9, lo);
            assert((hi as u128) * 0x1_0000_0000_0000_0000 + (lo as u128) == v) by (nonlinear_arith)
                requires
                    hi == (v / 0x1_0000_0000_0000_0000) as u64,
                    lo == (v % 0x1_0000_0000_0000_0000) as u64,
            ;
        },
        ObjV::Float(v) => {
            assert forall|i: int| 0 <= i < 4 implies #[trigger] b[pos + 1 + i] == be4(v)[i] by {
                assert(b[pos + (1 + i)] == e[1 + i]);
            }
            lemma_rd_u32_at(b, pos + 1, v);
        },
        ObjV::Double(v) => {
            assert forall|i: int|
                0 <= i < 8 implies #[trigger] b[pos + 1 + i] == crate::be::be8(v)[i] by {
                assert(b[pos + (1 + i)] == e[1 + i]);
            }
            lemma_rd_u64_at(b, pos + 1, v);
        },
        ObjV::UInteger(v) => {
            assert forall|i: int| 0 <= i < 4 implies #[trigger] b[pos + 1 + i] == be4(v)[i] by {
                assert(b[pos + (1 + i)] == e[1 + i]);
            }
            lemma_rd_u32_at(b, pos + 1, v);
        },
        ObjV::ULong(v) => {
            assert forall|i: int|
                0 <= i < 8 implies #[trigger] b[pos + 1 + i] == crate::be::be8(v)[i] by {
                assert(b[pos + (1 + i)] == e[1 + i]);
            }
            lemma_rd_u64_at(b, pos + 1, v);
        },
        ObjV::Str(s) => {
            let es = enc_str(s);
            lemma_sub_at(b, pos, e, 1, es);
            lemma_dec_str_round(s, b, pos + 1);
        },
        ObjV::Blob(bb) => {
            assert forall|i: int|
                0 <= i < 8 implies #[trigger] b[pos + 1 + i] == crate::be::be8(
                    bb.len() as u64,
                )[i] by {
                assert(b[pos + (1 + i)] == e[1 + i]);
            }
            lemma_rd_u64_at(b, pos + 1, bb.len() as u64);
            assert forall|j: int|
                0 <= j < bb.len() implies b.subrange(pos + 9, pos + 9 + bb.len())[j] == bb[j] by {
                assert(b[pos + (9 + j)] == e[9 + j]);
            }
            assert(b.subrange(pos + 9, pos + 9 + bb.len()) =~= bb);
        },
        ObjV::Vector(v) => {
            assert forall|i: int|
                0 <= i < 8 implies #[trigger] b[pos + 1 + i] == crate::be::be8(
                    v.len() as u64,
                )[i] by {
                assert(b[pos + (1 + i)] == e[1 + i]);
            }
            lemma_rd_u64_at(b, pos + 1, v.len() as u64);
            let ev = enc_obj_seq(v);
            lemma_sub_at(b, pos, e, 9, ev);
            lemma_dec_obj_seq_round(v, b, pos + 9);
        },
        ObjV::KV(v) => {
            assert forall|i: int|
                0 <= i < 8 implies #[trigger] b[pos + 1 + i] == crate::be::be8(
                    v.len() as u64,
                )[i] by {
                assert(b[pos + (1 + i)] == e[1 + i]);
            }
            lemma_rd_u64_at(b, pos + 1, v.len() as u64);
            let ev = enc_kv_seq(v);
            lemma_sub_at(b, pos, e, 9, ev);
            lemma_dec_kv_seq_round(v, b, pos + 9);
        },
    }
}

proof fn lemma_dec_obj_seq_round(s: Seq<ObjV>, b: Seq<u8>, pos: int)
    requires
        wf_obj_seq(s),
        s.len() < 0x1_0000_0000_0000_0000,
        0 <= pos,
        pos + enc_obj_seq(s).len() <= b.len(),
        b.subrange(pos, pos + enc_obj_seq(s).len()) == enc_obj_seq(s),
    ensures
        dec_obj_seq(b, pos, s.len() as u64) == Some((s, pos + enc_obj_seq(s).len())),
    decreases s, 1int, s.len(),
{
    let e = enc_obj_seq(s);
    if s.len() > 0 {
        let e0 = enc_obj(s[0]);
        let tail = enc_obj_seq(s.drop_first());
        assert(e == e0 + tail);
        lemma_sub_at(b, pos, e, 0, e0);
        lemma_dec_obj_round(s[0], b, pos);
        lemma_sub_at(b, pos, e, e0.len() as int, tail);
        lemma_dec_obj_seq_round(s.drop_first(), b, pos + e0.len());
        assert(e0.len() >= 1);
        assert(seq![s[0]] + s.drop_first() =~= s);
    }
}

proof fn lemma_dec_kv_seq_round(s: Seq<(ObjV, ObjV)>, b: Seq<u8>, pos: int)
    requires
        wf_kv_seq(s),
        s.len() < 0x1_0000_0000_0000_0000,
        0 <= pos,
        pos + enc_kv_seq(s).len() <= b.len(),
        b.subrange(pos, pos + enc_kv_seq(s).len()) == enc_kv_seq(s),
    ensures
        dec_kv_seq(b, pos, s.len() as u64) == Some((s, pos + enc_kv_seq(s).len())),
    decreases s, 1int, s.len(),
{
    let e = enc_kv_seq(s);
    if s.len() > 0 {
        let ek = enc_obj(s[0].0);
        let ev = enc_obj(s[0].1);
        let tail = enc_kv_seq(s.drop_first());
        assert(e == ek + ev + tail);
        lemma_sub_at(b, pos, e, 0, ek);
        lemma_dec_obj_round(s[0].0, b, pos);
        lemma_sub_at(b, pos, e, ek.len() as int, ev);
        lemma_dec_obj_round(s[0].1, b, pos + ek.len());
        lemma_sub_at(b, pos, e, ek.len() + ev.len() as int, tail);
        lemma_dec_kv_seq_round(s.drop_first(), b, pos + ek.len() + ev.len());
        assert(ek.len() >= 1 && ev.len() >= 1);
        assert(seq![(s[0].0, s[0].1)] + s.drop_first() =~= s);
    }
}

proof fn lemma_dec_entry_round_v(v: VertexV, e: EntryV, b: Seq<u8>, pos: int)
    requires
        e == EntryV::Vertex(v),
        wf_entry(e),
        0 <= pos,
        pos + enc_entry(e).len() <= b.len(),
        b.subrange(pos, pos + enc_entry(e).len()) == enc_entry(e),
    ensures
        dec_entry(b, pos) == Some((e, pos + enc_entry(e).len())),
{
    let w = enc_entry(e);
    lemma_bytes_at(b, pos, w);
    assert(b[pos + 0] == w[0]);
    lemma_sub_at(b, pos, w, 1, enc_vertex(v));
    lemma_dec_vertex_round(v, b, pos + 1);
}

proof fn lemma_dec_entry_round_e(x: EdgeV, e: EntryV, b: Seq<u8>, pos: int)
    requires
        e == EntryV::Edge(x),
        wf_entry(e),
        0 <= pos,
        pos + enc_entry(e).len() <= b.len(),
        b.subrange(pos, pos + enc_entry(e).len()) == enc_entry(e),
    ensures
        dec_entry(b, pos) == Some((e, pos + enc_entry(e).len())),
{
    let w = enc_entry(e);
    lemma_bytes_at(b, pos, w);
    assert(b[pos + 0] == w[0]);
    lemma_sub_at(b, pos, w, 1, enc_edge(x));
    lemma_dec_edge_round(x, b, pos + 1);
}

proof fn lemma_dec_entry_round_p(p: Seq<VoeV>, e: EntryV, b: Seq<u8>, pos: int)
    requires
        e == EntryV::Path(p),
        wf_entry(e),
        0 <= pos,
        pos + enc_entry(e).len() <= b.len(),
        b.subrange(pos, pos + enc_entry(e).len()) == enc_entry(e),
    ensures
        dec_entry(b, pos) == Some((e, pos + enc_entry(e).len())),
{
    let w = enc_entry(e);
    lemma_bytes_at(b, pos, w);
    assert(b[pos + 0] == w[0]);
    assert forall|i: int|
        0 <= i < 8 implies #[trigger] b[pos + 1 + i] == crate::be::be8(p.len() as u64)[i] by {
        assert(b[pos + (1 + i)] == w[1 + i]);
    }
    lemma_rd_u64_at(b, pos + 1, p.len() as u64);
    lemma_sub_at(b, pos, w, 9, enc_voes(p));
    lemma_dec_voes_round(p, b, pos + 9);
}

proof fn lemma_dec_entry_round_o(o: ObjV, e: EntryV, b: Seq<u8>, pos: int)
    requires
        e == EntryV::Object(o),
        wf_entry(e),
        0 <= pos,
        pos + enc_entry(e).len() <= b.len(),
        b.subrange(pos, pos + enc_entry(e).len()) == enc_entry(e),
    ensures
        dec_entry(b, pos) == Some((e, pos + enc_entry(e).len())),
{
    let w = enc_entry(e);
    lemma_bytes_at(b, pos, w);
    assert(b[pos + 0] == w[0]);
    lemma_sub_at(b, pos, w, 1, enc_obj(o));
    lemma_dec_obj_round(o, b, pos + 1);
}

proof fn lemma_dec_entry_round_i(ids: Seq<u64>, e: EntryV, b: Seq<u8>, pos: int)
    requires
        e == EntryV::Intersection(ids),
        wf_entry(e),
        0 <= pos,
        pos + enc_entry(e).len() <= b.len(),
        b.subrange(pos, pos + enc_entry(e).len()) == enc_entry(e),
    ensures
        dec_entry(b, pos) == Some((e, pos + enc_entry(e).len())),
{
    let w = enc_entry(e);
    lemma_bytes_at(b, pos, w);
    assert(b[pos + 0] == w[0]);
    assert forall|i: int|
        0 <= i < 8 implies #[trigger] b[pos + 1 + i] == crate::be::be8(ids.len() as u64)[i] by {
        assert(b[pos + (1 + i)] == w[1 + i]);
    }
    lemma_rd_u64_at(b, pos + 1, ids.len() as u64);
    lemma_sub_at(b, pos, w, 9, enc_u64s(ids));
    lemma_dec_u64s_round(ids, b, pos + 9);
}

proof fn lemma_dec_entry_round_g(
    ids: Seq<u64>,
    counts: Seq<u32>,
    e: EntryV,
    b: Seq<u8>,
    pos: int,
)
    requires
        e == EntryV::GeneralIntersection(ids, counts),
        wf_entry(e),
        0 <= pos,
        pos + enc_entry(e).len() <= b.len(),
        b.subrange(pos, pos + enc_entry(e).len()) == enc_entry(e),
    ensures
        dec_entry(b, pos) == Some((e, pos + enc_entry(e).len())),
{
    let w = enc_entry(e);
    lemma_bytes_at(b, pos, w);
    assert(b[pos + 0] == w[0]);
    assert forall|i: int|
        0 <= i < 8 implies #[trigger] b[pos + 1 + i] == crate::be::be8(ids.len() as u64)[i] by {
        assert(b[pos + (1 + i)] == w[1 + i]);
    }
    lemma_rd_u64_at(b, pos + 1, ids.len() as u64);
    lemma_sub_at(b, pos, w, 9, enc_u64s(ids));
    lemma_dec_u64s_round(ids, b, pos + 9);
    let off2 = 9 + enc_u64s(ids).len();
    assert forall|i: int|
        0 <= i < 8 implies #[trigger] b[pos + off2 + i] == crate::be::be8(
            counts.len() as u64,
        )[i] by {
        assert(b[pos + (off2 + i)] == w[off2 + i]);
    }
    lemma_rd_u64_at(b, pos + off2, counts.len() as u64);
    lemma_sub_at(b, pos, w, (off2 + 8) as int, enc_u32s(counts));
    lemma_dec_u32s_round(counts, b, pos + off2 + 8);
}

#[verifier::rlimit(100)]
#[verifier::spinoff_prover]
proof fn lemma_dec_entry_round(e: EntryV, b: Seq<u8>, pos: int)
    requires
        wf_entry(e),
        0 <= pos,
        pos + enc_entry(e).len() <= b.len(),
        b.subrange(pos, pos + enc_entry(e).len()) == enc_entry(e),
    ensures
        dec_entry(b, pos) == Some((e, pos + enc_entry(e).len())),
    decreases e, 0int, 0int,
{
    let w = enc_entry(e);
    lemma_bytes_at(b, pos, w);
    assert(b[pos + 0] == w[0]);
    match e {
        EntryV::Vertex(v) => {
            lemma_dec_entry_round_v(v, e, b, pos);
        },
        EntryV::Edge(x) => {
            lemma_dec_entry_round_e(x, e, b, pos);
        },
        EntryV::Path(p) => {
            lemma_dec_entry_round_p(p, e, b, pos);
        },
        EntryV::Object(o) => {
            lemma_dec_entry_round_o(o, e, b, pos);
        },
        EntryV::Intersection(ids) => {
            lemma_dec_entry_round_i(ids, e, b, pos);
        },
        EntryV::GeneralIntersection(ids, counts) => {
            lemma_dec_entry_round_g(ids, counts, e, b, pos);
        },
        EntryV::Collection(c) => {
            assert forall|i: int|
                0 <= i < 8 implies #[trigger] b[pos + 1 + i] == crate::be::be8(
                    c.len() as u64,
                )[i] by {
                assert(b[pos + (1 + i)] == w[1 + i]);
            }
            lemma_rd_u64_at(b, pos + 1, c.len() as u64);
            lemma_sub_at(b, pos, w, 9, enc_entry_seq(c));
            lemma_dec_entry_seq_round(c, b, pos + 9);
        },
        EntryV::Pair(l, r) => {
            let el = enc_entry(*l);
            let er = enc_entry(*r);
            assert(w == seq![7u8] + el + er);
            lemma_sub_at(b, pos, w, 1, el);
            lemma_dec_entry_round(*l, b, pos + 1);
            lemma_sub_at(b, pos, w, 1 + el.len() as int, er);
            lemma_dec_entry_round(*r, b, pos + 1 + el.len());
            assert(el.len() >= 1 && er.len() >= 1);
        },
        EntryV::Null => {},
    }
}

proof fn lemma_dec_entry_seq_round(s: Seq<EntryV>, b: Seq<u8>, pos: int)
    requires
        wf_entry_seq(s),
        s.len() < 0x1_0000_0000_0000_0000,
        0 <= pos,
        pos + enc_entry_seq(s).len() <= b.len(),
        b.subrange(pos, pos + enc_entry_seq(s).len()) == enc_entry_seq(s),
    ensures
        dec_entry_seq(b, pos, s.len() as u64) == Some((s, pos + enc_entry_seq(s).len())),
    decreases s, 1int, s.len(),
{
    let e = enc_entry_seq(s);
    if s.len() > 0 {
        let e0 = enc_entry(s[0]);
        let tail = enc_entry_seq(s.drop_first());
        assert(e == e0 + tail);
        lemma_sub_at(b, pos, e, 0, e0);
        lemma_dec_entry_round(s[0], b, pos);
        lemma_sub_at(b, pos, e, e0.len() as int, tail);
        lemma_dec_entry_seq_round(s.drop_first(), b, pos + e0.len());
        assert(e0.len() >= 1);
        assert(seq![s[0]] + s.drop_first() =~= s);
    }
}

/// Round trip: decoding the encoding of any well-formed entry image yields
/// exactly that image, consuming exactly its bytes. Well-formedness only
/// asks that every count fits its eight-byte field, which holds of the
/// image of every machine-held entry.
pub proof fn lemma_entry_round_trip(e: EntryV)
    requires
        wf_entry(e),
    ensures
        dec_entry(enc_entry(e), 0) == Some((e, enc_entry(e).len() as int)),
{
    let w = enc_entry(e);
    assert(w.subrange(0, w.len() as int) =~= w);
    lemma_dec_entry_round(e, w, 0);
}

} // verus!
