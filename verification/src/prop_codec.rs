//! The two binary layouts of a property value, and the schema-driven
//! transform between declared column types.
//!
//! - The transport layout (`to_bytes`) is self-describing: variable-length
//!   values carry a four-byte big-endian length (or element count, each
//!   element itself length-prefixed for string/bytes lists).
//! - The storage layout (`to_vec`) is denser: scalars are bare fixed-width
//!   values, strings and blobs are raw bytes whose length the store tracks
//!   externally, and string/bytes lists store the element count followed by
//!   cumulative end offsets, so a reader can slice any element directly.
//!
//! Neither layout is defined for `Null` or `Unknown`: serializing those is a
//! contract violation, so both encoders require them away.

use vstd::prelude::*;

use crate::be::{
    be2i, be4, be4i, be8, be8i, be_push_i16, be_push_i32, be_push_i64, be_push_u32, be_push_u64,
};
use crate::fbits::{
    f32_to_f64_bits, f32_widen, f64_cmp, f64_cmp_bits, f64_mag, f64_to_f32_bits, f64_to_i64_sat,
    i64_to_f32_bits, i64_to_f64_bits, spec_f64_to_f32_bits, spec_f64_to_i64_sat,
    spec_i64_to_f32_bits, spec_i64_to_f64_bits,
};
use crate::property::{DataType, GraphError, Property};
use core::cmp::Ordering;
use vstd::string::StringSliceAdditionalSpecFns;
use vstd::utf8::encode_utf8;

verus! {

/// The UTF-8 bytes of an owned string.
pub open spec fn str_bytes_of(s: String) -> Seq<u8> {
    encode_utf8(s@)
}


/// Transport bytes of an int list: each element as four big-endian bytes.
pub open spec fn enc_i32s(v: Seq<i32>) -> Seq<u8>
    decreases v.len(),
{
    if v.len() == 0 {
        Seq::empty()
    } else {
        enc_i32s(v.drop_last()) + be4i(v.last())
    }
}

/// Transport bytes of a long list: each element as eight big-endian bytes.
pub open spec fn enc_i64s(v: Seq<i64>) -> Seq<u8>
    decreases v.len(),
{
    if v.len() == 0 {
        Seq::empty()
    } else {
        enc_i64s(v.drop_last()) + be8i(v.last())
    }
}

/// Bytes of a float list: each single pattern as four big-endian bytes.
pub open spec fn enc_f32s(v: Seq<u32>) -> Seq<u8>
    decreases v.len(),
{
    if v.len() == 0 {
        Seq::empty()
    } else {
        enc_f32s(v.drop_last()) + be4(v.last())
    }
}

/// Bytes of a double list: each double pattern as eight big-endian bytes.
pub open spec fn enc_f64s(v: Seq<u64>) -> Seq<u8>
    decreases v.len(),
{
    if v.len() == 0 {
        Seq::empty()
    } else {
        enc_f64s(v.drop_last()) + be8(v.last())
    }
}

/// Transport bytes of a string list: each element length-prefixed.
pub open spec fn enc_strs_prefixed(v: Seq<String>) -> Seq<u8>
    decreases v.len(),
{
    if v.len() == 0 {
        Seq::empty()
    } else {
        enc_strs_prefixed(v.drop_last()) + be4i(str_bytes_of(v.last()).len() as i32)
            + str_bytes_of(v.last())
    }
}

/// Transport bytes of a bytes list: each element length-prefixed.
pub open spec fn enc_blobs_prefixed(v: Seq<Vec<u8>>) -> Seq<u8>
    decreases v.len(),
{
    if v.len() == 0 {
        Seq::empty()
    } else {
        enc_blobs_prefixed(v.drop_last()) + be4i(v.last()@.len() as i32) + v.last()@
    }
}

/// Total byte size of a string list's payload.
pub open spec fn strs_total(v: Seq<String>) -> int
    decreases v.len(),
{
    if v.len() == 0 {
        0
    } else {
        strs_total(v.drop_last()) + str_bytes_of(v.last()).len()
    }
}

/// Total byte size of a bytes list's payload.
pub open spec fn blobs_total(v: Seq<Vec<u8>>) -> int
    decreases v.len(),
{
    if v.len() == 0 {
        0
    } else {
        blobs_total(v.drop_last()) + v.last()@.len()
    }
}

/// Storage-layout offset table of a string list: the cumulative end offset
/// of each element, four big-endian bytes per element.
pub open spec fn enc_str_offsets(v: Seq<String>) -> Seq<u8>
    decreases v.len(),
{
    if v.len() == 0 {
        Seq::empty()
    } else {
        enc_str_offsets(v.drop_last()) + be4i(strs_total(v) as i32)
    }
}

/// Storage-layout offset table of a bytes list.
pub open spec fn enc_blob_offsets(v: Seq<Vec<u8>>) -> Seq<u8>
    decreases v.len(),
{
    if v.len() == 0 {
        Seq::empty()
    } else {
        enc_blob_offsets(v.drop_last()) + be4i(blobs_total(v) as i32)
    }
}

/// Concatenated payload of a string list.
pub open spec fn enc_strs_raw(v: Seq<String>) -> Seq<u8>
    decreases v.len(),
{
    if v.len() == 0 {
        Seq::empty()
    } else {
        enc_strs_raw(v.drop_last()) + str_bytes_of(v.last())
    }
}

/// Concatenated payload of a bytes list.
pub open spec fn enc_blobs_raw(v: Seq<Vec<u8>>) -> Seq<u8>
    decreases v.len(),
{
    if v.len() == 0 {
        Seq::empty()
    } else {
        enc_blobs_raw(v.drop_last()) + v.last()@
    }
}

impl Property {
    /// Whether every length that the transport layout writes as a four-byte
    /// prefix fits that prefix.
    pub open spec fn transport_encodable(&self) -> bool {
        match self {
            Property::Null | Property::Unknown => false,
            Property::Bytes(v) => v@.len() <= 0x7FFF_FFFF,
            Property::String(s) | Property::Date(s) => str_bytes_of(*s).len() <= 0x7FFF_FFFF,
            Property::ListInt(v) => v@.len() <= 0x7FFF_FFFF,
            Property::ListLong(v) => v@.len() <= 0x7FFF_FFFF,
            Property::ListFloat(v) => v@.len() <= 0x7FFF_FFFF,
            Property::ListDouble(v) => v@.len() <= 0x7FFF_FFFF,
            Property::ListString(v) => v@.len() <= 0x7FFF_FFFF && (forall|i: int|
                0 <= i < v@.len() ==> (#[trigger] str_bytes_of(v@[i])).len() <= 0x7FFF_FFFF),
            Property::ListBytes(v) => v@.len() <= 0x7FFF_FFFF && (forall|i: int|
                0 <= i < v@.len() ==> (#[trigger] v@[i]@).len() <= 0x7FFF_FFFF),
            _ => true,
        }
    }

    /// Whether the storage layout's element count and cumulative offsets fit
    /// their four-byte slots.
    pub open spec fn storage_encodable(&self) -> bool {
        match self {
            Property::Null | Property::Unknown => false,
            Property::ListInt(v) => v@.len() <= 0x7FFF_FFFF,
            Property::ListLong(v) => v@.len() <= 0x7FFF_FFFF,
            Property::ListFloat(v) => v@.len() <= 0x7FFF_FFFF,
            Property::ListDouble(v) => v@.len() <= 0x7FFF_FFFF,
            Property::ListString(v) => v@.len() <= 0x7FFF_FFFF && strs_total(v@) <= 0x7FFF_FFFF,
            Property::ListBytes(v) => v@.len() <= 0x7FFF_FFFF && blobs_total(v@) <= 0x7FFF_FFFF,
            _ => true,
        }
    }

    /// The transport layout: fixed-width big-endian scalars; length-prefixed
    /// strings, blobs and lists.
    pub open spec fn spec_transport_bytes(&self) -> Seq<u8> {
        match self {
            Property::Bool(v) => seq![if *v { 1u8 } else { 0u8 }],
            Property::Char(v) => seq![*v],
            Property::Short(v) => be2i(*v),
            Property::Int(v) => be4i(*v),
            Property::Long(v) => be8i(*v),
            Property::Float(b) => be4(*b),
            Property::Double(b) => be8(*b),
            Property::Bytes(v) => be4i(v@.len() as i32) + v@,
            Property::String(s) => be4i(str_bytes_of(*s).len() as i32) + str_bytes_of(*s),
            Property::Date(s) => be4i(str_bytes_of(*s).len() as i32) + str_bytes_of(*s),
            Property::ListInt(v) => be4i(v@.len() as i32) + enc_i32s(v@),
            Property::ListLong(v) => be4i(v@.len() as i32) + enc_i64s(v@),
            Property::ListFloat(v) => be4i(v@.len() as i32) + enc_f32s(v@),
            Property::ListDouble(v) => be4i(v@.len() as i32) + enc_f64s(v@),
            Property::ListString(v) => be4i(v@.len() as i32) + enc_strs_prefixed(v@),
            Property::ListBytes(v) => be4i(v@.len() as i32) + enc_blobs_prefixed(v@),
            _ => Seq::empty(),
        }
    }

    /// The storage layout: bare scalars, raw strings and blobs, and lists
    /// with an element count and cumulative end offsets before the payload.
    pub open spec fn spec_storage_bytes(&self) -> Seq<u8> {
        match self {
            Property::Bool(v) => seq![if *v { 1u8 } else { 0u8 }],
            Property::Char(v) => seq![*v],
            Property::Short(v) => be2i(*v),
            Property::Int(v) => be4i(*v),
            Property::Long(v) => be8i(*v),
            Property::Float(b) => be4(*b),
            Property::Double(b) => be8(*b),
            Property::Bytes(v) => v@,
            Property::String(s) => str_bytes_of(*s),
            Property::Date(s) => str_bytes_of(*s),
            Property::ListInt(v) => be4i(v@.len() as i32) + enc_i32s(v@),
            Property::ListLong(v) => be4i(v@.len() as i32) + enc_i64s(v@),
            Property::ListFloat(v) => be4i(v@.len() as i32) + enc_f32s(v@),
            Property::ListDouble(v) => be4i(v@.len() as i32) + enc_f64s(v@),
            Property::ListString(v) => be4i(v@.len() as i32) + enc_str_offsets(v@) + enc_strs_raw(
                v@,
            ),
            Property::ListBytes(v) => be4i(v@.len() as i32) + enc_blob_offsets(v@)
                + enc_blobs_raw(v@),
            _ => Seq::empty(),
        }
    }
}

fn push_str_bytes(out: &mut Vec<u8>, s: &str)
    ensures
        final(out)@ == old(out)@ + s.spec_bytes(),
{
    let b = s.as_bytes();
    let mut i: usize = 0;
    while i < b.len()
        invariant
            i <= b@.len(),
            b@ == s.spec_bytes(),
            out@ == old(out)@ + b@.subrange(0, i as int),
        decreases b@.len() - i,
    {
        out.push(b[i]);
        i = i + 1;
        proof {
            assert(b@.subrange(0, i as int) =~= b@.subrange(0, i - 1) + seq![b@[i - 1]]);
        }
    }
    proof {
        assert(b@.subrange(0, b@.len() as int) =~= b@);
    }
}

fn push_bytes(out: &mut Vec<u8>, b: &Vec<u8>)
    ensures
        final(out)@ == old(out)@ + b@,
{
    let mut i: usize = 0;
    while i < b.len()
        invariant
            i <= b@.len(),
            out@ == old(out)@ + b@.subrange(0, i as int),
        decreases b@.len() - i,
    {
        out.push(b[i]);
        i = i + 1;
        proof {
            assert(b@.subrange(0, i as int) =~= b@.subrange(0, i - 1) + seq![b@[i - 1]]);
        }
    }
    proof {
        assert(b@.subrange(0, b@.len() as int) =~= b@);
    }
}

impl Property {
    /// The transport layout of this value (see the module text).
    #[verifier::rlimit(60)]
    pub fn to_bytes(&self) -> (r: Vec<u8>)
        requires
            self.transport_encodable(),
        ensures
            r@ == self.spec_transport_bytes(),
    {
        let mut data: Vec<u8> = Vec::new();
        match self {
            Property::Bool(v) => {
                data.push(if *v {
                    1
                } else {
                    0
                });
            },
            Property::Char(v) => {
                data.push(*v);
            },
            Property::Short(v) => {
                be_push_i16(&mut data, *v);
            },
            Property::Int(v) => {
                be_push_i32(&mut data, *v);
            },
            Property::Long(v) => {
                be_push_i64(&mut data, *v);
            },
            Property::Float(b) => {
                be_push_u32(&mut data, *b);
            },
            Property::Double(b) => {
                be_push_u64(&mut data, *b);
            },
            Property::Bytes(v) => {
                be_push_i32(&mut data, v.len() as i32);
                push_bytes(&mut data, v);
            },
            Property::String(s) => {
                be_push_i32(&mut data, s.as_str().as_bytes().len() as i32);
                push_str_bytes(&mut data, s.as_str());
            },
            Property::Date(s) => {
                be_push_i32(&mut data, s.as_str().as_bytes().len() as i32);
                push_str_bytes(&mut data, s.as_str());
            },
            Property::ListInt(v) => {
                be_push_i32(&mut data, v.len() as i32);
                let mut i: usize = 0;
                while i < v.len()
                    invariant
                        i <= v@.len(),
                        data@ == be4i(v@.len() as i32) + enc_i32s(
                            v@.subrange(0, i as int),
                        ),
                    decreases v@.len() - i,
                {
                    be_push_i32(&mut data, v[i]);
                    i = i + 1;
                    proof {
                        let pre = v@.subrange(0, i as int);
                        assert(pre.drop_last() =~= v@.subrange(0, i - 1));
                    }
                }
                proof {
                    assert(v@.subrange(0, v@.len() as int) =~= v@);
                }
            },
            Property::ListLong(v) => {
                be_push_i32(&mut data, v.len() as i32);
                let mut i: usize = 0;
                while i < v.len()
                    invariant
                        i <= v@.len(),
                        data@ == be4i(v@.len() as i32) + enc_i64s(
                            v@.subrange(0, i as int),
                        ),
                    decreases v@.len() - i,
                {
                    be_push_i64(&mut data, v[i]);
                    i = i + 1;
                    proof {
                        let pre = v@.subrange(0, i as int);
                        assert(pre.drop_last() =~= v@.subrange(0, i - 1));
                    }
                }
                proof {
                    assert(v@.subrange(0, v@.len() as int) =~= v@);
                }
            },
            Property::ListFloat(v) => {
                be_push_i32(&mut data, v.len() as i32);
                let mut i: usize = 0;
                while i < v.len()
                    invariant
                        i <= v@.len(),
                        data@ == be4i(v@.len() as i32) + enc_f32s(
                            v@.subrange(0, i as int),
                        ),
                    decreases v@.len() - i,
                {
                    be_push_u32(&mut data, v[i]);
                    i = i + 1;
                    proof {
                        let pre = v@.subrange(0, i as int);
                        assert(pre.drop_last() =~= v@.subrange(0, i - 1));
                    }
                }
                proof {
                    assert(v@.subrange(0, v@.len() as int) =~= v@);
                }
            },
            Property::ListDouble(v) => {
                be_push_i32(&mut data, v.len() as i32);
                let mut i: usize = 0;
                while i < v.len()
                    invariant
                        i <= v@.len(),
                        data@ == be4i(v@.len() as i32) + enc_f64s(
                            v@.subrange(0, i as int),
                        ),
                    decreases v@.len() - i,
                {
                    be_push_u64(&mut data, v[i]);
                    i = i + 1;
                    proof {
                        let pre = v@.subrange(0, i as int);
                        assert(pre.drop_last() =~= v@.subrange(0, i - 1));
                    }
                }
                proof {
                    assert(v@.subrange(0, v@.len() as int) =~= v@);
                }
            },
            Property::ListString(v) => {
                be_push_i32(&mut data, v.len() as i32);
                let mut i: usize = 0;
                while i < v.len()
                    invariant
                        i <= v@.len(),
                        forall|k: int|
                            0 <= k < v@.len() ==> (#[trigger] str_bytes_of(v@[k])).len()
                                <= 0x7FFF_FFFF,
                        data@ == be4i(v@.len() as i32) + enc_strs_prefixed(
                            v@.subrange(0, i as int),
                        ),
                    decreases v@.len() - i,
                {
                    be_push_i32(&mut data, v[i].as_str().as_bytes().len() as i32);
                    push_str_bytes(&mut data, v[i].as_str());
                    i = i + 1;
                    proof {
                        let pre = v@.subrange(0, i as int);
                        assert(pre.drop_last() =~= v@.subrange(0, i - 1));
                    }
                }
                proof {
                    assert(v@.subrange(0, v@.len() as int) =~= v@);
                }
            },
            Property::ListBytes(v) => {
                be_push_i32(&mut data, v.len() as i32);
                let mut i: usize = 0;
                while i < v.len()
                    invariant
                        i <= v@.len(),
                        forall|k: int|
                            0 <= k < v@.len() ==> (#[trigger] v@[k]@).len() <= 0x7FFF_FFFF,
                        data@ == be4i(v@.len() as i32) + enc_blobs_prefixed(
                            v@.subrange(0, i as int),
                        ),
                    decreases v@.len() - i,
                {
                    be_push_i32(&mut data, v[i].len() as i32);
                    push_bytes(&mut data, &v[i]);
                    i = i + 1;
                    proof {
                        let pre = v@.subrange(0, i as int);
                        assert(pre.drop_last() =~= v@.subrange(0, i - 1));
                    }
                }
                proof {
                    assert(v@.subrange(0, v@.len() as int) =~= v@);
                }
            },
            Property::Null | Property::Unknown => {
                proof {
                    assert(false);
                }
            },
        }
        data
    }

    /// The storage layout of this value (see the module text).
    #[verifier::rlimit(100)]
    pub fn to_vec(&self) -> (r: Vec<u8>)
        requires
            self.storage_encodable(),
        ensures
            r@ == self.spec_storage_bytes(),
    {
        let mut ret: Vec<u8> = Vec::new();
        match self {
            Property::Bool(v) => {
                ret.push(if *v {
                    1
                } else {
                    0
                });
            },
            Property::Char(v) => {
                ret.push(*v);
            },
            Property::Short(v) => {
                be_push_i16(&mut ret, *v);
            },
            Property::Int(v) => {
                be_push_i32(&mut ret, *v);
            },
            Property::Long(v) => {
                be_push_i64(&mut ret, *v);
            },
            Property::Float(b) => {
                be_push_u32(&mut ret, *b);
            },
            Property::Double(b) => {
                be_push_u64(&mut ret, *b);
            },
            Property::Bytes(v) => {
                push_bytes(&mut ret, v);
            },
            Property::String(s) => {
                push_str_bytes(&mut ret, s.as_str());
            },
            Property::Date(s) => {
                push_str_bytes(&mut ret, s.as_str());
            },
            Property::ListInt(v) => {
                be_push_i32(&mut ret, v.len() as i32);
                let mut i: usize = 0;
                while i < v.len()
                    invariant
                        i <= v@.len(),
                        ret@ == be4i(v@.len() as i32) + enc_i32s(
                            v@.subrange(0, i as int),
                        ),
                    decreases v@.len() - i,
                {
                    be_push_i32(&mut ret, v[i]);
                    i = i + 1;
                    proof {
                        let pre = v@.subrange(0, i as int);
                        assert(pre.drop_last() =~= v@.subrange(0, i - 1));
                    }
                }
                proof {
                    assert(v@.subrange(0, v@.len() as int) =~= v@);
                }
            },
            Property::ListLong(v) => {
                be_push_i32(&mut ret, v.len() as i32);
                let mut i: usize = 0;
                while i < v.len()
                    invariant
                        i <= v@.len(),
                        ret@ == be4i(v@.len() as i32) + enc_i64s(
                            v@.subrange(0, i as int),
                        ),
                    decreases v@.len() - i,
                {
                    be_push_i64(&mut ret, v[i]);
                    i = i + 1;
                    proof {
                        let pre = v@.subrange(0, i as int);
                        assert(pre.drop_last() =~= v@.subrange(0, i - 1));
                    }
                }
                proof {
                    assert(v@.subrange(0, v@.len() as int) =~= v@);
                }
            },
            Property::ListFloat(v) => {
                be_push_i32(&mut ret, v.len() as i32);
                let mut i: usize = 0;
                while i < v.len()
                    invariant
                        i <= v@.len(),
                        ret@ == be4i(v@.len() as i32) + enc_f32s(
                            v@.subrange(0, i as int),
                        ),
                    decreases v@.len() - i,
                {
                    be_push_u32(&mut ret, v[i]);
                    i = i + 1;
                    proof {
                        let pre = v@.subrange(0, i as int);
                        assert(pre.drop_last() =~= v@.subrange(0, i - 1));
                    }
                }
                proof {
                    assert(v@.subrange(0, v@.len() as int) =~= v@);
                }
            },
            Property::ListDouble(v) => {
                be_push_i32(&mut ret, v.len() as i32);
                let mut i: usize = 0;
                while i < v.len()
                    invariant
                        i <= v@.len(),
                        ret@ == be4i(v@.len() as i32) + enc_f64s(
                            v@.subrange(0, i as int),
                        ),
                    decreases v@.len() - i,
                {
                    be_push_u64(&mut ret, v[i]);
                    i = i + 1;
                    proof {
                        let pre = v@.subrange(0, i as int);
                        assert(pre.drop_last() =~= v@.subrange(0, i - 1));
                    }
                }
                proof {
                    assert(v@.subrange(0, v@.len() as int) =~= v@);
                }
            },
            Property::ListString(v) => {
                be_push_i32(&mut ret, v.len() as i32);
                let mut end_off: usize = 0;
                let mut i: usize = 0;
                while i < v.len()
                    invariant
                        i <= v@.len(),
                        strs_total(v@) <= 0x7FFF_FFFF,
                        end_off == strs_total(v@.subrange(0, i as int)),
                        ret@ == be4i(v@.len() as i32) + enc_str_offsets(
                            v@.subrange(0, i as int),
                        ),
                    decreases v@.len() - i,
                {
                    proof {
                        lemma_strs_total_prefix(v@, i as int);
                        lemma_strs_total_prefix_le(v@, (i + 1) as int);
                    }
                    end_off = end_off + v[i].as_str().as_bytes().len();
                    be_push_i32(&mut ret, end_off as i32);
                    i = i + 1;
                    proof {
                        let pre = v@.subrange(0, i as int);
                        assert(pre.drop_last() =~= v@.subrange(0, i - 1));
                    }
                }
                proof {
                    assert(v@.subrange(0, v@.len() as int) =~= v@);
                }
                let mut j: usize = 0;
                while j < v.len()
                    invariant
                        j <= v@.len(),
                        ret@ == be4i(v@.len() as i32) + enc_str_offsets(v@)
                            + enc_strs_raw(v@.subrange(0, j as int)),
                    decreases v@.len() - j,
                {
                    push_str_bytes(&mut ret, v[j].as_str());
                    j = j + 1;
                    proof {
                        let pre = v@.subrange(0, j as int);
                        assert(pre.drop_last() =~= v@.subrange(0, j - 1));
                    }
                }
                proof {
                    assert(v@.subrange(0, v@.len() as int) =~= v@);
                }
            },
            Property::ListBytes(v) => {
                be_push_i32(&mut ret, v.len() as i32);
                let mut end_off: usize = 0;
                let mut i: usize = 0;
                while i < v.len()
                    invariant
                        i <= v@.len(),
                        blobs_total(v@) <= 0x7FFF_FFFF,
                        end_off == blobs_total(v@.subrange(0, i as int)),
                        ret@ == be4i(v@.len() as i32) + enc_blob_offsets(
                            v@.subrange(0, i as int),
                        ),
                    decreases v@.len() - i,
                {
                    proof {
                        lemma_blobs_total_prefix(v@, i as int);
                        lemma_blobs_total_prefix_le(v@, (i + 1) as int);
                    }
                    end_off = end_off + v[i].len();
                    be_push_i32(&mut ret, end_off as i32);
                    i = i + 1;
                    proof {
                        let pre = v@.subrange(0, i as int);
                        assert(pre.drop_last() =~= v@.subrange(0, i - 1));
                    }
                }
                proof {
                    assert(v@.subrange(0, v@.len() as int) =~= v@);
                }
                let mut j: usize = 0;
                while j < v.len()
                    invariant
                        j <= v@.len(),
                        ret@ == be4i(v@.len() as i32) + enc_blob_offsets(v@)
                            + enc_blobs_raw(v@.subrange(0, j as int)),
                    decreases v@.len() - j,
                {
                    push_bytes(&mut ret, &v[j]);
                    j = j + 1;
                    proof {
                        let pre = v@.subrange(0, j as int);
                        assert(pre.drop_last() =~= v@.subrange(0, j - 1));
                    }
                }
                proof {
                    assert(v@.subrange(0, v@.len() as int) =~= v@);
                }
            },
            Property::Null | Property::Unknown => {
                proof {
                    assert(false);
                }
            },
        }
        ret
    }
}

/// A prefix's payload size extends by one element's size.
proof fn lemma_strs_total_prefix(v: Seq<String>, i: int)
    requires
        0 <= i < v.len(),
    ensures
        strs_total(v.subrange(0, i + 1)) == strs_total(v.subrange(0, i)) + str_bytes_of(v[i]).len(),
{
    let pre = v.subrange(0, i + 1);
    assert(pre.drop_last() =~= v.subrange(0, i));
}

/// Payload sizes grow along prefixes, so each fits when the total fits.
proof fn lemma_strs_total_prefix_le(v: Seq<String>, i: int)
    requires
        0 <= i <= v.len(),
    ensures
        0 <= strs_total(v.subrange(0, i)) <= strs_total(v),
    decreases v.len() - i,
{
    if i == v.len() {
        assert(v.subrange(0, i) =~= v);
        lemma_strs_total_nonneg(v);
    } else {
        lemma_strs_total_nonneg(v.subrange(0, i));
        lemma_strs_total_prefix(v, i);
        lemma_strs_total_prefix_le(v, i + 1);
    }
}

proof fn lemma_strs_total_nonneg(v: Seq<String>)
    ensures
        strs_total(v) >= 0,
    decreases v.len(),
{
    if v.len() > 0 {
        lemma_strs_total_nonneg(v.drop_last());
    }
}

proof fn lemma_blobs_total_prefix(v: Seq<Vec<u8>>, i: int)
    requires
        0 <= i < v.len(),
    ensures
        blobs_total(v.subrange(0, i + 1)) == blobs_total(v.subrange(0, i)) + v[i]@.len(),
{
    let pre = v.subrange(0, i + 1);
    assert(pre.drop_last() =~= v.subrange(0, i));
}

proof fn lemma_blobs_total_prefix_le(v: Seq<Vec<u8>>, i: int)
    requires
        0 <= i <= v.len(),
    ensures
        0 <= blobs_total(v.subrange(0, i)) <= blobs_total(v),
    decreases v.len() - i,
{
    if i == v.len() {
        assert(v.subrange(0, i) =~= v);
        lemma_blobs_total_nonneg(v);
    } else {
        lemma_blobs_total_nonneg(v.subrange(0, i));
        lemma_blobs_total_prefix(v, i);
        lemma_blobs_total_prefix_le(v, i + 1);
    }
}

proof fn lemma_blobs_total_nonneg(v: Seq<Vec<u8>>)
    ensures
        blobs_total(v) >= 0,
    decreases v.len(),
{
    if v.len() > 0 {
        lemma_blobs_total_nonneg(v.drop_last());
    }
}

/// Whether the value's own variant already is the declared column type.
/// Only the variants listed here may be asked (`transform` requires it).
pub open spec fn spec_is_data_type(p: Property, dt: DataType) -> bool {
    match p {
        Property::Bool(_) => dt == DataType::Bool,
        Property::Char(_) => dt == DataType::Char,
        Property::Short(_) => dt == DataType::Short,
        Property::Int(_) => dt == DataType::Int,
        Property::Long(_) => dt == DataType::Long,
        Property::Float(_) => dt == DataType::Float,
        Property::Double(_) => dt == DataType::Double,
        Property::String(_) => dt == DataType::String,
        _ => false,
    }
}

/// The storage bytes of a 64-bit integer narrowed into a column type, or a
/// domain error when the value does not fit the destination width.
pub open spec fn spec_long_to_data_type(x: i64, dt: DataType) -> Result<Seq<u8>, GraphError> {
    match dt {
        DataType::Bool => Ok(
            seq![
                if x != 0 {
                    1u8
                } else {
                    0u8
                },
            ],
        ),
        DataType::Char => if 0 <= x <= 255 {
            Ok(seq![x as u8])
        } else {
            Err(GraphError::DataError)
        },
        DataType::Short => if -32768 <= x <= 32767 {
            Ok(be2i(x as i16))
        } else {
            Err(GraphError::DataError)
        },
        DataType::Int => if -0x8000_0000 <= x <= 0x7FFF_FFFF {
            Ok(be4i(x as i32))
        } else {
            Err(GraphError::DataError)
        },
        DataType::Long => Ok(be8i(x)),
        DataType::Float => Ok(be4(spec_i64_to_f32_bits(x))),
        DataType::Double => Ok(be8(spec_i64_to_f64_bits(x))),
        _ => Err(GraphError::DataError),
    }
}

/// The storage bytes of a double narrowed into a column type. The range
/// checks compare against the column bounds as doubles; a value inside them
/// (or a NaN, which no bound check catches) is truncated saturatingly, as
/// the hardware cast does.
pub open spec fn spec_double_to_data_type(xb: u64, dt: DataType) -> Result<Seq<u8>, GraphError> {
    match dt {
        DataType::Bool => Ok(
            seq![
                if f64_mag(xb) != 0 {
                    1u8
                } else {
                    0u8
                },
            ],
        ),
        DataType::Char => if f64_cmp(xb, spec_i64_to_f64_bits(255)) == Some(Ordering::Greater)
            || f64_cmp(xb, spec_i64_to_f64_bits(0)) == Some(Ordering::Less) {
            Err(GraphError::DataError)
        } else {
            Ok(seq![spec_f64_to_i64_sat(xb) as u8])
        },
        DataType::Short => if f64_cmp(xb, spec_i64_to_f64_bits(32767)) == Some(Ordering::Greater)
            || f64_cmp(xb, spec_i64_to_f64_bits(-32768i64)) == Some(Ordering::Less) {
            Err(GraphError::DataError)
        } else {
            Ok(be2i(spec_f64_to_i64_sat(xb) as i16))
        },
        DataType::Int => if f64_cmp(xb, spec_i64_to_f64_bits(0x7FFF_FFFF)) == Some(
            Ordering::Greater,
        ) || f64_cmp(xb, spec_i64_to_f64_bits(-0x8000_0000i64)) == Some(Ordering::Less) {
            Err(GraphError::DataError)
        } else {
            Ok(be4i(spec_f64_to_i64_sat(xb) as i32))
        },
        DataType::Long => if f64_cmp(xb, spec_i64_to_f64_bits(i64::MAX)) == Some(Ordering::Greater)
            || f64_cmp(xb, spec_i64_to_f64_bits(i64::MIN)) == Some(Ordering::Less) {
            Err(GraphError::DataError)
        } else {
            Ok(be8i(spec_f64_to_i64_sat(xb)))
        },
        DataType::Float => Ok(be4(spec_f64_to_f32_bits(xb))),
        DataType::Double => Ok(be8(xb)),
        _ => Err(GraphError::DataError),
    }
}

/// The storage bytes of a value coerced into a declared column type: a
/// pass-through when the variant already matches, integer or double
/// narrowing with range checks otherwise, and an error for a string asked
/// to become anything else.
pub open spec fn spec_transform(p: Property, dt: DataType) -> Result<Seq<u8>, GraphError> {
    if spec_is_data_type(p, dt) {
        Ok(p.spec_storage_bytes())
    } else {
        match p {
            Property::Bool(v) => spec_long_to_data_type(
                if v {
                    1
                } else {
                    0
                },
                dt,
            ),
            Property::Char(v) => spec_long_to_data_type(v as i64, dt),
            Property::Short(v) => spec_long_to_data_type(v as i64, dt),
            Property::Int(v) => spec_long_to_data_type(v as i64, dt),
            Property::Long(v) => spec_long_to_data_type(v, dt),
            Property::Float(b) => spec_double_to_data_type(f32_to_f64_bits(b), dt),
            Property::Double(b) => spec_double_to_data_type(b, dt),
            _ => Err(GraphError::DataError),
        }
    }
}

/// Narrow a 64-bit integer into a column type's storage bytes; see
/// `spec_long_to_data_type`.
pub fn long_to_data_type(x: i64, data_type: &DataType) -> (r: Result<Vec<u8>, GraphError>)
    ensures
        match r {
            Ok(v) => spec_long_to_data_type(x, *data_type) matches Ok(s) && v@ == s,
            Err(e) => spec_long_to_data_type(x, *data_type) == Err::<Seq<u8>, GraphError>(e),
        },
{
    let mut out: Vec<u8> = Vec::new();
    match data_type {
        DataType::Bool => {
            out.push(
                if x != 0 {
                    1
                } else {
                    0
                },
            );
            Ok(out)
        },
        DataType::Char => {
            if x > 255 || x < 0 {
                Err(GraphError::DataError)
            } else {
                out.push(x as u8);
                Ok(out)
            }
        },
        DataType::Short => {
            if x > 32767 || x < -32768 {
                Err(GraphError::DataError)
            } else {
                be_push_i16(&mut out, x as i16);
                Ok(out)
            }
        },
        DataType::Int => {
            if x > 0x7FFF_FFFF || x < -0x8000_0000 {
                Err(GraphError::DataError)
            } else {
                be_push_i32(&mut out, x as i32);
                Ok(out)
            }
        },
        DataType::Long => {
            be_push_i64(&mut out, x);
            Ok(out)
        },
        DataType::Float => {
            be_push_u32(&mut out, i64_to_f32_bits(x));
            Ok(out)
        },
        DataType::Double => {
            be_push_u64(&mut out, i64_to_f64_bits(x));
            Ok(out)
        },
        _ => Err(GraphError::DataError),
    }
}

/// Narrow a double pattern into a column type's storage bytes; see
/// `spec_double_to_data_type`.
pub fn double_to_data_type(xb: u64, data_type: &DataType) -> (r: Result<Vec<u8>, GraphError>)
    ensures
        match r {
            Ok(v) => spec_double_to_data_type(xb, *data_type) matches Ok(s) && v@ == s,
            Err(e) => spec_double_to_data_type(xb, *data_type) == Err::<Seq<u8>, GraphError>(e),
        },
{
    let mut out: Vec<u8> = Vec::new();
    match data_type {
        DataType::Bool => {
            out.push(
                if xb % 0x8000_0000_0000_0000 != 0 {
                    1
                } else {
                    0
                },
            );
            Ok(out)
        },
        DataType::Char => {
            let hi = f64_cmp_bits(xb, i64_to_f64_bits(255));
            let lo = f64_cmp_bits(xb, i64_to_f64_bits(0));
            if matches!(hi, Some(Ordering::Greater)) || matches!(lo, Some(Ordering::Less)) {
                Err(GraphError::DataError)
            } else {
                let t = f64_to_i64_sat(xb);
                out.push(#[verifier::truncate] (t as u8));
                Ok(out)
            }
        },
        DataType::Short => {
            let hi = f64_cmp_bits(xb, i64_to_f64_bits(32767));
            let lo = f64_cmp_bits(xb, i64_to_f64_bits(-32768i64));
            if matches!(hi, Some(Ordering::Greater)) || matches!(lo, Some(Ordering::Less)) {
                Err(GraphError::DataError)
            } else {
                let t = f64_to_i64_sat(xb);
                be_push_i16(&mut out, #[verifier::truncate] (t as i16));
                Ok(out)
            }
        },
        DataType::Int => {
            let hi = f64_cmp_bits(xb, i64_to_f64_bits(0x7FFF_FFFF));
            let lo = f64_cmp_bits(xb, i64_to_f64_bits(-0x8000_0000i64));
            if matches!(hi, Some(Ordering::Greater)) || matches!(lo, Some(Ordering::Less)) {
                Err(GraphError::DataError)
            } else {
                let t = f64_to_i64_sat(xb);
                be_push_i32(&mut out, #[verifier::truncate] (t as i32));
                Ok(out)
            }
        },
        DataType::Long => {
            let hi = f64_cmp_bits(xb, i64_to_f64_bits(i64::MAX));
            let lo = f64_cmp_bits(xb, i64_to_f64_bits(i64::MIN));
            if matches!(hi, Some(Ordering::Greater)) || matches!(lo, Some(Ordering::Less)) {
                Err(GraphError::DataError)
            } else {
                be_push_i64(&mut out, f64_to_i64_sat(xb));
                Ok(out)
            }
        },
        DataType::Float => {
            be_push_u32(&mut out, f64_to_f32_bits(xb));
            Ok(out)
        },
        DataType::Double => {
            be_push_u64(&mut out, xb);
            Ok(out)
        },
        _ => Err(GraphError::DataError),
    }
}

impl Property {
    /// The variants on which `transform` is defined.
    pub open spec fn transformable(&self) -> bool {
        self matches Property::Bool(_) || self matches Property::Char(_) || self
            matches Property::Short(_) || self matches Property::Int(_) || self
            matches Property::Long(_) || self matches Property::Float(_) || self
            matches Property::Double(_) || self matches Property::String(_)
    }

    fn is_data_type(&self, data_type: &DataType) -> (r: bool)
        requires
            self.transformable(),
        ensures
            r == spec_is_data_type(*self, *data_type),
    {
        match self {
            Property::Bool(_) => *data_type == DataType::Bool,
            Property::Char(_) => *data_type == DataType::Char,
            Property::Short(_) => *data_type == DataType::Short,
            Property::Int(_) => *data_type == DataType::Int,
            Property::Long(_) => *data_type == DataType::Long,
            Property::Float(_) => *data_type == DataType::Float,
            Property::Double(_) => *data_type == DataType::Double,
            Property::String(_) => *data_type == DataType::String,
            _ => false,
        }
    }

    /// Coerce this value into a declared column type's storage bytes; see
    /// `spec_transform`.
    pub fn transform(&self, data_type: &DataType) -> (r: Result<Vec<u8>, GraphError>)
        requires
            self.transformable(),
        ensures
            match r {
                Ok(v) => spec_transform(*self, *data_type) matches Ok(s) && v@ == s,
                Err(e) => spec_transform(*self, *data_type) == Err::<Seq<u8>, GraphError>(e),
            },
    {
        if self.is_data_type(data_type) {
            return Ok(self.to_vec());
        }
        match self {
            Property::Bool(v) => long_to_data_type(
                if *v {
                    1
                } else {
                    0
                },
                data_type,
            ),
            Property::Char(v) => long_to_data_type(*v as i64, data_type),
            Property::Short(v) => long_to_data_type(*v as i64, data_type),
            Property::Int(v) => long_to_data_type(*v as i64, data_type),
            Property::Long(v) => long_to_data_type(*v, data_type),
            Property::Float(b) => double_to_data_type(f32_widen(*b), data_type),
            Property::Double(b) => double_to_data_type(*b, data_type),
            _ => Err(GraphError::DataError),
        }
    }
}

/// Public forms of the prefix-sum facts, for the storage-layout law.
pub proof fn lemma_strs_total_prefix_pub(v: Seq<String>, i: int)
    requires
        0 <= i < v.len(),
    ensures
        strs_total(v.subrange(0, i + 1)) == strs_total(v.subrange(0, i)) + str_bytes_of(
            v[i],
        ).len(),
{
    lemma_strs_total_prefix(v, i);
}

pub proof fn lemma_strs_total_prefix_le_pub(v: Seq<String>, i: int)
    requires
        0 <= i <= v.len(),
    ensures
        0 <= strs_total(v.subrange(0, i)) <= strs_total(v),
{
    lemma_strs_total_prefix_le(v, i);
}

pub proof fn lemma_blobs_total_prefix_pub(v: Seq<Vec<u8>>, i: int)
    requires
        0 <= i < v.len(),
    ensures
        blobs_total(v.subrange(0, i + 1)) == blobs_total(v.subrange(0, i)) + v[i]@.len(),
{
    lemma_blobs_total_prefix(v, i);
}

pub proof fn lemma_blobs_total_prefix_le_pub(v: Seq<Vec<u8>>, i: int)
    requires
        0 <= i <= v.len(),
    ensures
        0 <= blobs_total(v.subrange(0, i)) <= blobs_total(v),
{
    lemma_blobs_total_prefix_le(v, i);
}

/// The offset table holds four bytes per element.
pub proof fn lemma_blob_offsets_len(v: Seq<Vec<u8>>)
    ensures
        enc_blob_offsets(v).len() == 4 * v.len(),
    decreases v.len(),
{
    if v.len() > 0 {
        lemma_blob_offsets_len(v.drop_last());
    }
}

/// The payload holds exactly the summed element bytes.
pub proof fn lemma_blobs_raw_len(v: Seq<Vec<u8>>)
    ensures
        enc_blobs_raw(v).len() == blobs_total(v),
    decreases v.len(),
{
    if v.len() > 0 {
        lemma_blobs_raw_len(v.drop_last());
    }
}

pub proof fn lemma_str_offsets_len(v: Seq<String>)
    ensures
        enc_str_offsets(v).len() == 4 * v.len(),
    decreases v.len(),
{
    if v.len() > 0 {
        lemma_str_offsets_len(v.drop_last());
    }
}

pub proof fn lemma_strs_raw_len(v: Seq<String>)
    ensures
        enc_strs_raw(v).len() == strs_total(v),
    decreases v.len(),
{
    if v.len() > 0 {
        lemma_strs_raw_len(v.drop_last());
    }
}

} // verus!
