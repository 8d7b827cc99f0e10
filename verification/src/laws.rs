//! The value layer's cross-cutting guarantees, each stated and proved over
//! the same specification functions that the executable contracts use:
//! mirror symmetry of the property comparison, tag-gated entry comparison,
//! hash/equality consistency, and direct slicing of storage-layout lists.
//! (The codec's round trip is stated beside the codec itself.)

use vstd::prelude::*;

use core::cmp::Ordering;

use crate::be::be4i;
use crate::entry::{
    spec_entry_cmp, spec_entry_eq, spec_entry_hash, spec_entry_seq_eq, spec_entry_seq_hash,
    spec_entry_type, spec_voe_eq, spec_voe_seq_hash, DynEntry, Entry,
};
use crate::fbits::f64_cmp;
use crate::object::lemma_obj_eq_hash;
use crate::prop_codec::{blobs_total, enc_blob_offsets, enc_blobs_raw, enc_str_offsets,
    enc_strs_raw, str_bytes_of, strs_total};
use crate::property::{
    spec_bytes_cmp, spec_bytes_seq_cmp, spec_f64_seq_cmp, spec_i64_seq_cmp, spec_str_cmp,
    spec_str_seq_cmp, Property,
};

verus! {

/// The reverse of an ordering verdict.
pub open spec fn mirror(o: Option<Ordering>) -> Option<Ordering> {
    match o {
        Some(Ordering::Less) => Some(Ordering::Greater),
        Some(Ordering::Greater) => Some(Ordering::Less),
        Some(Ordering::Equal) => Some(Ordering::Equal),
        None => None,
    }
}

proof fn lemma_bytes_cmp_mirror(a: Seq<u8>, b: Seq<u8>)
    ensures
        spec_bytes_cmp(b, a) == (match spec_bytes_cmp(a, b) {
            Ordering::Less => Ordering::Greater,
            Ordering::Greater => Ordering::Less,
            Ordering::Equal => Ordering::Equal,
        }),
    decreases a.len(),
{
    if a.len() > 0 && b.len() > 0 && a[0] == b[0] {
        lemma_bytes_cmp_mirror(a.subrange(1, a.len() as int), b.subrange(1, b.len() as int));
    }
}

proof fn lemma_f64_cmp_mirror(a: u64, b: u64)
    ensures
        f64_cmp(b, a) == mirror(f64_cmp(a, b)),
{
}

proof fn lemma_i64_seq_cmp_mirror(a: Seq<i64>, b: Seq<i64>)
    ensures
        spec_i64_seq_cmp(b, a) == (match spec_i64_seq_cmp(a, b) {
            Ordering::Less => Ordering::Greater,
            Ordering::Greater => Ordering::Less,
            Ordering::Equal => Ordering::Equal,
        }),
    decreases a.len(),
{
    if a.len() > 0 && b.len() > 0 && a[0] == b[0] {
        lemma_i64_seq_cmp_mirror(a.subrange(1, a.len() as int), b.subrange(1, b.len() as int));
    }
}

proof fn lemma_f64_seq_cmp_mirror(a: Seq<u64>, b: Seq<u64>)
    ensures
        spec_f64_seq_cmp(b, a) == mirror(spec_f64_seq_cmp(a, b)),
    decreases a.len(),
{
    if a.len() > 0 && b.len() > 0 {
        lemma_f64_cmp_mirror(a[0], b[0]);
        if f64_cmp(a[0], b[0]) == Some(Ordering::Equal) {
            lemma_f64_seq_cmp_mirror(
                a.subrange(1, a.len() as int),
                b.subrange(1, b.len() as int),
            );
        }
    }
}

proof fn lemma_str_seq_cmp_mirror(a: Seq<String>, b: Seq<String>)
    ensures
        spec_str_seq_cmp(b, a) == (match spec_str_seq_cmp(a, b) {
            Ordering::Less => Ordering::Greater,
            Ordering::Greater => Ordering::Less,
            Ordering::Equal => Ordering::Equal,
        }),
    decreases a.len(),
{
    if a.len() > 0 && b.len() > 0 {
        lemma_bytes_cmp_mirror(
            vstd::utf8::encode_utf8(a[0]@),
            vstd::utf8::encode_utf8(b[0]@),
        );
        if spec_str_cmp(a[0]@, b[0]@) == Ordering::Equal {
            lemma_str_seq_cmp_mirror(
                a.subrange(1, a.len() as int),
                b.subrange(1, b.len() as int),
            );
        }
    }
}

proof fn lemma_bytes_seq_cmp_mirror(a: Seq<Vec<u8>>, b: Seq<Vec<u8>>)
    ensures
        spec_bytes_seq_cmp(b, a) == (match spec_bytes_seq_cmp(a, b) {
            Ordering::Less => Ordering::Greater,
            Ordering::Greater => Ordering::Less,
            Ordering::Equal => Ordering::Equal,
        }),
    decreases a.len(),
{
    if a.len() > 0 && b.len() > 0 {
        lemma_bytes_cmp_mirror(a[0]@, b[0]@);
        if spec_bytes_cmp(a[0]@, b[0]@) == Ordering::Equal {
            lemma_bytes_seq_cmp_mirror(
                a.subrange(1, a.len() as int),
                b.subrange(1, b.len() as int),
            );
        }
    }
}

/// Comparing properties in either direction gives mirrored verdicts: in
/// particular, widened numeric comparison commutes, and equality is
/// symmetric. This covers every pair of property values.
pub proof fn lemma_property_cmp_mirror(a: Property, b: Property)
    ensures
        b.spec_cmp(&a) == mirror(a.spec_cmp(&b)),
        b.spec_eq(&a) == a.spec_eq(&b),
{
    match (a, b) {
        (Property::Bytes(x), Property::Bytes(y)) => {
            lemma_bytes_cmp_mirror(x@, y@);
        },
        (Property::String(x), Property::String(y)) => {
            lemma_bytes_cmp_mirror(vstd::utf8::encode_utf8(x@), vstd::utf8::encode_utf8(y@));
        },
        (Property::Date(x), Property::Date(y)) => {
            lemma_bytes_cmp_mirror(vstd::utf8::encode_utf8(x@), vstd::utf8::encode_utf8(y@));
        },
        (Property::ListString(x), Property::ListString(y)) => {
            lemma_str_seq_cmp_mirror(x@, y@);
        },
        (Property::ListBytes(x), Property::ListBytes(y)) => {
            lemma_bytes_seq_cmp_mirror(x@, y@);
        },
        _ => {
            if a.is_numeric() && b.is_numeric() {
                if a.is_float_kind() || b.is_float_kind() {
                    lemma_f64_cmp_mirror(a.spec_double_bits(), b.spec_double_bits());
                }
            } else if a.is_numeric_list() && b.is_numeric_list() {
                if a.is_float_list_kind() || b.is_float_list_kind() {
                    lemma_f64_seq_cmp_mirror(a.spec_double_bits_seq(), b.spec_double_bits_seq());
                } else {
                    lemma_i64_seq_cmp_mirror(a.spec_long_seq(), b.spec_long_seq());
                }
            }
        },
    }
}

/// Entries of different tags are never equal and never ordered; comparison
/// of any two entries is total as a function (it cannot fail, only answer
/// "incomparable").
pub proof fn lemma_entry_cmp_tag_gated(a: Entry, b: Entry)
    ensures
        spec_entry_type(a) != spec_entry_type(b) ==> !spec_entry_eq(a, b) && spec_entry_cmp(a, b)
            is None,
{
}

proof fn lemma_voe_seq_hash_pointwise(
    s: Seq<crate::entry::VertexOrEdge>,
    t: Seq<crate::entry::VertexOrEdge>,
)
    requires
        s.len() == t.len(),
        forall|i: int| 0 <= i < s.len() ==> spec_voe_eq(#[trigger] s[i], t[i]),
    ensures
        spec_voe_seq_hash(s) == spec_voe_seq_hash(t),
    decreases s.len(),
{
    if s.len() > 0 {
        assert(spec_voe_eq(s[s.len() - 1], t[t.len() - 1]));
        lemma_voe_seq_hash_pointwise(s.drop_last(), t.drop_last());
    }
}

proof fn lemma_entry_seq_eq_pointwise(s: Seq<DynEntry>, t: Seq<DynEntry>)
    requires
        spec_entry_seq_eq(s, t),
    ensures
        s.len() == t.len(),
        forall|i: int|
            0 <= i < s.len() ==> spec_entry_eq(#[trigger] s[i].entry(), t[i].entry()),
    decreases s, 1int, s.len(),
{
    if s.len() > 0 {
        lemma_entry_seq_eq_pointwise(s.drop_first(), t.drop_first());
        assert forall|i: int|
            0 <= i < s.len() implies spec_entry_eq(#[trigger] s[i].entry(), t[i].entry()) by {
            if i > 0 {
                assert(s.drop_first()[i - 1] == s[i]);
                assert(t.drop_first()[i - 1] == t[i]);
            }
        }
    }
}

proof fn lemma_entry_seq_hash_pointwise(s: Seq<DynEntry>, t: Seq<DynEntry>)
    requires
        s.len() == t.len(),
        forall|i: int|
            0 <= i < s.len() ==> spec_entry_eq(#[trigger] s[i].entry(), t[i].entry()),
    ensures
        spec_entry_seq_hash(s) == spec_entry_seq_hash(t),
    decreases s, 1int, s.len(),
{
    if s.len() > 0 {
        lemma_entry_seq_hash_pointwise(s.drop_last(), t.drop_last());
        crate::entry::lemma_dyn_decreases(s[s.len() - 1]);
        lemma_entry_eq_hash(s[s.len() - 1].entry(), t[t.len() - 1].entry());
    }
}

/// Hashing is consistent with equality: equal entries hash identically,
/// whatever their shapes.
pub proof fn lemma_entry_eq_hash(a: Entry, b: Entry)
    requires
        spec_entry_eq(a, b),
    ensures
        spec_entry_hash(a) == spec_entry_hash(b),
    decreases a, 0int, 0int,
{
    match (a, b) {
        (Entry::Path(x), Entry::Path(y)) => {
            lemma_voe_seq_hash_pointwise(x.elements@, y.elements@);
        },
        (Entry::Object(x), Entry::Object(y)) => {
            lemma_obj_eq_hash(x, y);
        },
        (Entry::Collection(x), Entry::Collection(y)) => {
            lemma_entry_seq_eq_pointwise(x.inner@, y.inner@);
            lemma_entry_seq_hash_pointwise(x.inner@, y.inner@);
        },
        (Entry::Pair(x), Entry::Pair(y)) => {
            crate::entry::lemma_pair_decreases(x);
            lemma_entry_eq_hash(x.spec_left(), y.spec_left());
            lemma_entry_eq_hash(x.spec_right(), y.spec_right());
        },
        _ => {},
    }
}

/// In the storage layout of a bytes list, the four bytes at slot `i` of the
/// offset table hold the cumulative end of element `i`, and the bytes of
/// element `i` sit exactly between the previous end and that end inside the
/// payload — so a reader slices any element without decoding the others.
pub proof fn lemma_storage_blob_list_slicing(v: Seq<Vec<u8>>, i: int)
    requires
        0 <= i < v.len(),
    ensures
        enc_blob_offsets(v).subrange(4 * i, 4 * i + 4) == be4i(
            blobs_total(v.subrange(0, i + 1)) as i32,
        ),
        enc_blobs_raw(v).subrange(
            blobs_total(v.subrange(0, i)),
            blobs_total(v.subrange(0, i + 1)),
        ) == v[i]@,
    decreases v.len(),
{
    crate::prop_codec::lemma_blobs_total_prefix_le_pub(v, i);
    crate::prop_codec::lemma_blobs_total_prefix_le_pub(v, i + 1);
    crate::prop_codec::lemma_blobs_total_prefix_pub(v, i);
    crate::prop_codec::lemma_blob_offsets_len(v);
    crate::prop_codec::lemma_blob_offsets_len(v.drop_last());
    crate::prop_codec::lemma_blobs_raw_len(v);
    crate::prop_codec::lemma_blobs_raw_len(v.drop_last());
    if i == v.len() - 1 {
        assert(v.subrange(0, i + 1) =~= v);
        assert(v.drop_last() =~= v.subrange(0, i));
        assert(enc_blob_offsets(v).subrange(4 * i, 4 * i + 4) =~= be4i(
            blobs_total(v.subrange(0, i + 1)) as i32,
        ));
        assert(enc_blobs_raw(v).subrange(
            blobs_total(v.subrange(0, i)),
            blobs_total(v.subrange(0, i + 1)),
        ) =~= v[i]@);
    } else {
        lemma_storage_blob_list_slicing(v.drop_last(), i);
        assert(v.drop_last().subrange(0, i) =~= v.subrange(0, i));
        assert(v.drop_last().subrange(0, i + 1) =~= v.subrange(0, i + 1));
        assert(v.drop_last()[i] == v[i]);
        crate::prop_codec::lemma_blobs_total_prefix_le_pub(v.drop_last(), i + 1);
        assert(enc_blob_offsets(v).subrange(4 * i, 4 * i + 4) =~= enc_blob_offsets(
            v.drop_last(),
        ).subrange(4 * i, 4 * i + 4));
        assert(enc_blobs_raw(v).subrange(
            blobs_total(v.subrange(0, i)),
            blobs_total(v.subrange(0, i + 1)),
        ) =~= enc_blobs_raw(v.drop_last()).subrange(
            blobs_total(v.drop_last().subrange(0, i)),
            blobs_total(v.drop_last().subrange(0, i + 1)),
        ));
    }
}

/// The same direct-access guarantee for string lists: offsets are
/// cumulative byte ends, and each element's UTF-8 bytes sit between its
/// neighbours' ends in the payload.
pub proof fn lemma_storage_string_list_slicing(v: Seq<String>, i: int)
    requires
        0 <= i < v.len(),
    ensures
        enc_str_offsets(v).subrange(4 * i, 4 * i + 4) == be4i(
            strs_total(v.subrange(0, i + 1)) as i32,
        ),
        enc_strs_raw(v).subrange(
            strs_total(v.subrange(0, i)),
            strs_total(v.subrange(0, i + 1)),
        ) == str_bytes_of(v[i]),
    decreases v.len(),
{
    crate::prop_codec::lemma_strs_total_prefix_le_pub(v, i);
    crate::prop_codec::lemma_strs_total_prefix_le_pub(v, i + 1);
    crate::prop_codec::lemma_strs_total_prefix_pub(v, i);
    crate::prop_codec::lemma_str_offsets_len(v);
    crate::prop_codec::lemma_str_offsets_len(v.drop_last());
    crate::prop_codec::lemma_strs_raw_len(v);
    crate::prop_codec::lemma_strs_raw_len(v.drop_last());
    if i == v.len() - 1 {
        assert(v.subrange(0, i + 1) =~= v);
        assert(v.drop_last() =~= v.subrange(0, i));
        assert(enc_str_offsets(v).subrange(4 * i, 4 * i + 4) =~= be4i(
            strs_total(v.subrange(0, i + 1)) as i32,
        ));
        assert(enc_strs_raw(v).subrange(
            strs_total(v.subrange(0, i)),
            strs_total(v.subrange(0, i + 1)),
        ) =~= str_bytes_of(v[i]));
    } else {
        lemma_storage_string_list_slicing(v.drop_last(), i);
        assert(v.drop_last().subrange(0, i) =~= v.subrange(0, i));
        assert(v.drop_last().subrange(0, i + 1) =~= v.subrange(0, i + 1));
        assert(v.drop_last()[i] == v[i]);
        crate::prop_codec::lemma_strs_total_prefix_le_pub(v.drop_last(), i + 1);
        assert(enc_str_offsets(v).subrange(4 * i, 4 * i + 4) =~= enc_str_offsets(
            v.drop_last(),
        ).subrange(4 * i, 4 * i + 4));
        assert(enc_strs_raw(v).subrange(
            strs_total(v.subrange(0, i)),
            strs_total(v.subrange(0, i + 1)),
        ) =~= enc_strs_raw(v.drop_last()).subrange(
            strs_total(v.drop_last().subrange(0, i)),
            strs_total(v.drop_last().subrange(0, i + 1)),
        ));
    }
}

} // verus!
