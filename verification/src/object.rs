//! The generic scalar value carried by `Object` entries and by graph-element
//! properties: primitives of every machine width, strings, byte blobs,
//! vectors, ordered key/value maps, and the canonical "none" scalar.
//! Floating-point primitives carry their IEEE-754 bit patterns (see
//! `fbits`).

use vstd::prelude::*;

use crate::fbits::{
    f32_to_f64_bits, f32_widen, f64_canon, f64_canon_bits, f64_cmp, f64_cmp_bits, i64_to_f64_bits,
    mag_to_f64_bits, spec_i64_to_f64_bits, spec_mag_to_f64_bits,
};
use crate::property::{spec_bytes_cmp, spec_int_cmp, spec_str_cmp};
use core::cmp::Ordering;
use vstd::utf8::encode_utf8;

verus! {

/// A primitive scalar. `Float` and `Double` hold IEEE-754 bit patterns.
#[derive(Debug, Clone, Copy)]
pub enum Primitives {
    Byte(i8),
    Integer(i32),
    UInteger(u32),
    Long(i64),
    ULong(u64),
    ULLong(u128),
    Float(u32),
    Double(u64),
}

/// One key/value pair of an ordered map scalar.
#[derive(Debug)]
pub struct KeyValue {
    pub key: Object,
    pub value: Object,
}

/// A generic scalar value.
#[derive(Debug)]
pub enum Object {
    Primitive(Primitives),
    String(String),
    Blob(Vec<u8>),
    Vector(Vec<Object>),
    KV(Vec<KeyValue>),
    NoneValue,
}

/// The kind of a generic scalar, used to pick a homogeneous list type.
#[derive(Debug, PartialEq, Eq, Structural, Clone, Copy)]
pub enum RawType {
    Byte,
    Integer,
    UInteger,
    Long,
    ULong,
    ULLong,
    Float,
    Double,
    String,
    Blob,
    Vector,
    KV,
    NoneValue,
}

/// A failed narrowing of a scalar to a requested machine type.
#[derive(Debug, PartialEq, Eq, Structural, Clone, Copy)]
pub struct CastError;

impl Object {
    /// The kind of this scalar.
    pub open spec fn spec_raw_type(&self) -> RawType {
        match self {
            Object::Primitive(Primitives::Byte(_)) => RawType::Byte,
            Object::Primitive(Primitives::Integer(_)) => RawType::Integer,
            Object::Primitive(Primitives::UInteger(_)) => RawType::UInteger,
            Object::Primitive(Primitives::Long(_)) => RawType::Long,
            Object::Primitive(Primitives::ULong(_)) => RawType::ULong,
            Object::Primitive(Primitives::ULLong(_)) => RawType::ULLong,
            Object::Primitive(Primitives::Float(_)) => RawType::Float,
            Object::Primitive(Primitives::Double(_)) => RawType::Double,
            Object::String(_) => RawType::String,
            Object::Blob(_) => RawType::Blob,
            Object::Vector(_) => RawType::Vector,
            Object::KV(_) => RawType::KV,
            Object::NoneValue => RawType::NoneValue,
        }
    }

    pub fn raw_type(&self) -> (r: RawType)
        ensures
            r == self.spec_raw_type(),
    {
        match self {
            Object::Primitive(Primitives::Byte(_)) => RawType::Byte,
            Object::Primitive(Primitives::Integer(_)) => RawType::Integer,
            Object::Primitive(Primitives::UInteger(_)) => RawType::UInteger,
            Object::Primitive(Primitives::Long(_)) => RawType::Long,
            Object::Primitive(Primitives::ULong(_)) => RawType::ULong,
            Object::Primitive(Primitives::ULLong(_)) => RawType::ULLong,
            Object::Primitive(Primitives::Float(_)) => RawType::Float,
            Object::Primitive(Primitives::Double(_)) => RawType::Double,
            Object::String(_) => RawType::String,
            Object::Blob(_) => RawType::Blob,
            Object::Vector(_) => RawType::Vector,
            Object::KV(_) => RawType::KV,
            Object::NoneValue => RawType::NoneValue,
        }
    }

    /// The signed 32-bit value of an integer scalar, when it fits.
    pub open spec fn spec_as_i32(&self) -> Result<i32, CastError> {
        match self {
            Object::Primitive(Primitives::Byte(b)) => Ok(*b as i32),
            Object::Primitive(Primitives::Integer(i)) => Ok(*i),
            Object::Primitive(Primitives::UInteger(u)) => if *u <= 0x7FFF_FFFF {
                Ok(*u as i32)
            } else {
                Err(CastError)
            },
            Object::Primitive(Primitives::Long(l)) => if -0x8000_0000i64 <= *l <= 0x7FFF_FFFFi64 {
                Ok(*l as i32)
            } else {
                Err(CastError)
            },
            Object::Primitive(Primitives::ULong(u)) => if *u <= 0x7FFF_FFFF {
                Ok(*u as i32)
            } else {
                Err(CastError)
            },
            Object::Primitive(Primitives::ULLong(u)) => if *u <= 0x7FFF_FFFF {
                Ok(*u as i32)
            } else {
                Err(CastError)
            },
            _ => Err(CastError),
        }
    }

    pub fn as_i32(&self) -> (r: Result<i32, CastError>)
        ensures
            r == self.spec_as_i32(),
    {
        match self {
            Object::Primitive(Primitives::Byte(b)) => Ok(*b as i32),
            Object::Primitive(Primitives::Integer(i)) => Ok(*i),
            Object::Primitive(Primitives::UInteger(u)) => if *u <= 0x7FFF_FFFF {
                Ok(*u as i32)
            } else {
                Err(CastError)
            },
            Object::Primitive(Primitives::Long(l)) => if -0x8000_0000i64 <= *l && *l
                <= 0x7FFF_FFFFi64 {
                Ok(*l as i32)
            } else {
                Err(CastError)
            },
            Object::Primitive(Primitives::ULong(u)) => if *u <= 0x7FFF_FFFF {
                Ok(*u as i32)
            } else {
                Err(CastError)
            },
            Object::Primitive(Primitives::ULLong(u)) => if *u <= 0x7FFF_FFFF {
                Ok(*u as i32)
            } else {
                Err(CastError)
            },
            _ => Err(CastError),
        }
    }

    /// The signed 64-bit value of an integer scalar, when it fits.
    pub open spec fn spec_as_i64(&self) -> Result<i64, CastError> {
        match self {
            Object::Primitive(Primitives::Byte(b)) => Ok(*b as i64),
            Object::Primitive(Primitives::Integer(i)) => Ok(*i as i64),
            Object::Primitive(Primitives::UInteger(u)) => Ok(*u as i64),
            Object::Primitive(Primitives::Long(l)) => Ok(*l),
            Object::Primitive(Primitives::ULong(u)) => if *u <= 0x7FFF_FFFF_FFFF_FFFF {
                Ok(*u as i64)
            } else {
                Err(CastError)
            },
            Object::Primitive(Primitives::ULLong(u)) => if *u <= 0x7FFF_FFFF_FFFF_FFFF {
                Ok(*u as i64)
            } else {
                Err(CastError)
            },
            _ => Err(CastError),
        }
    }

    pub fn as_i64(&self) -> (r: Result<i64, CastError>)
        ensures
            r == self.spec_as_i64(),
    {
        match self {
            Object::Primitive(Primitives::Byte(b)) => Ok(*b as i64),
            Object::Primitive(Primitives::Integer(i)) => Ok(*i as i64),
            Object::Primitive(Primitives::UInteger(u)) => Ok(*u as i64),
            Object::Primitive(Primitives::Long(l)) => Ok(*l),
            Object::Primitive(Primitives::ULong(u)) => if *u <= 0x7FFF_FFFF_FFFF_FFFF {
                Ok(*u as i64)
            } else {
                Err(CastError)
            },
            Object::Primitive(Primitives::ULLong(u)) => if *u <= 0x7FFF_FFFF_FFFF_FFFF {
                Ok(*u as i64)
            } else {
                Err(CastError)
            },
            _ => Err(CastError),
        }
    }

    /// The double bit pattern nearest to a numeric scalar's value.
    pub open spec fn spec_as_f64_bits(&self) -> Result<u64, CastError> {
        match self {
            Object::Primitive(Primitives::Byte(b)) => Ok(spec_i64_to_f64_bits(*b as i64)),
            Object::Primitive(Primitives::Integer(i)) => Ok(spec_i64_to_f64_bits(*i as i64)),
            Object::Primitive(Primitives::UInteger(u)) => Ok(spec_i64_to_f64_bits(*u as i64)),
            Object::Primitive(Primitives::Long(l)) => Ok(spec_i64_to_f64_bits(*l)),
            Object::Primitive(Primitives::ULong(u)) => Ok(spec_mag_to_f64_bits(false, *u as nat)),
            Object::Primitive(Primitives::ULLong(u)) => Ok(spec_mag_to_f64_bits(false, *u as nat)),
            Object::Primitive(Primitives::Float(b)) => Ok(f32_to_f64_bits(*b)),
            Object::Primitive(Primitives::Double(b)) => Ok(*b),
            _ => Err(CastError),
        }
    }

    pub fn as_f64_bits(&self) -> (r: Result<u64, CastError>)
        ensures
            r == self.spec_as_f64_bits(),
    {
        match self {
            Object::Primitive(Primitives::Byte(b)) => Ok(i64_to_f64_bits(*b as i64)),
            Object::Primitive(Primitives::Integer(i)) => Ok(i64_to_f64_bits(*i as i64)),
            Object::Primitive(Primitives::UInteger(u)) => Ok(i64_to_f64_bits(*u as i64)),
            Object::Primitive(Primitives::Long(l)) => Ok(i64_to_f64_bits(*l)),
            Object::Primitive(Primitives::ULong(u)) => Ok(mag_to_f64_bits(false, *u as u128)),
            Object::Primitive(Primitives::ULLong(u)) => Ok(mag_to_f64_bits(false, *u)),
            Object::Primitive(Primitives::Float(b)) => Ok(f32_widen(*b)),
            Object::Primitive(Primitives::Double(b)) => Ok(*b),
            _ => Err(CastError),
        }
    }

    /// The borrowed text of a string scalar.
    pub fn as_str(&self) -> (r: Result<&String, CastError>)
        ensures
            match r {
                Ok(s) => self matches Object::String(t) && s@ == t@,
                Err(_) => !(self matches Object::String(_)),
            },
    {
        match self {
            Object::String(s) => Ok(s),
            _ => Err(CastError),
        }
    }

    /// The borrowed contents of a blob scalar.
    pub fn as_bytes(&self) -> (r: Result<&Vec<u8>, CastError>)
        ensures
            match r {
                Ok(b) => self matches Object::Blob(v) && b@ == v@,
                Err(_) => !(self matches Object::Blob(_)),
            },
    {
        match self {
            Object::Blob(b) => Ok(b),
            _ => Err(CastError),
        }
    }

    /// Whether this is the canonical "none" scalar.
    pub fn is_none_object(&self) -> (r: bool)
        ensures
            r == (self matches Object::NoneValue),
    {
        match self {
            Object::NoneValue => true,
            _ => false,
        }
    }
}

/// Whether a primitive is float-typed.
pub open spec fn prim_is_float(p: Primitives) -> bool {
    p matches Primitives::Float(_) || p matches Primitives::Double(_)
}

/// The mathematical value of an integer primitive.
pub open spec fn prim_int_val(p: Primitives) -> int {
    match p {
        Primitives::Byte(v) => v as int,
        Primitives::Integer(v) => v as int,
        Primitives::UInteger(v) => v as int,
        Primitives::Long(v) => v as int,
        Primitives::ULong(v) => v as int,
        Primitives::ULLong(v) => v as int,
        _ => 0,
    }
}

/// The double pattern nearest to an unbounded integer (every primitive's
/// value is far inside the double range).
pub open spec fn int_to_f64_bits(v: int) -> u64 {
    if v >= 0 {
        spec_mag_to_f64_bits(false, v as nat)
    } else {
        spec_mag_to_f64_bits(true, (-v) as nat)
    }
}

/// The double pattern of any primitive, after widening.
pub open spec fn prim_f64_bits(p: Primitives) -> u64 {
    match p {
        Primitives::Float(b) => f32_to_f64_bits(b),
        Primitives::Double(b) => b,
        _ => int_to_f64_bits(prim_int_val(p)),
    }
}

/// The partial order on primitives: two integers compare exactly; a pair
/// with a float side widens both to doubles (so a NaN compares with
/// nothing).
pub open spec fn spec_prim_cmp(a: Primitives, b: Primitives) -> Option<Ordering> {
    if prim_is_float(a) || prim_is_float(b) {
        f64_cmp(prim_f64_bits(a), prim_f64_bits(b))
    } else {
        Some(spec_int_cmp(prim_int_val(a), prim_int_val(b)))
    }
}

/// The partial order on scalars: primitives widen as above; strings, blobs,
/// vectors and maps compare lexicographically within their own kind; the
/// none scalar equals itself; everything across kinds is incomparable.
pub open spec fn spec_obj_cmp(a: Object, b: Object) -> Option<Ordering>
    decreases a, 0int, 0int,
{
    match (a, b) {
        (Object::Primitive(p), Object::Primitive(q)) => spec_prim_cmp(p, q),
        (Object::String(x), Object::String(y)) => Some(spec_str_cmp(x@, y@)),
        (Object::Blob(x), Object::Blob(y)) => Some(spec_bytes_cmp(x@, y@)),
        (Object::Vector(x), Object::Vector(y)) => spec_obj_seq_cmp(x@, y@),
        (Object::KV(x), Object::KV(y)) => spec_kv_seq_cmp(x@, y@),
        (Object::NoneValue, Object::NoneValue) => Some(Ordering::Equal),
        _ => None,
    }
}

/// Lexicographic order on scalar sequences, propagating incomparability.
pub open spec fn spec_obj_seq_cmp(s: Seq<Object>, t: Seq<Object>) -> Option<Ordering>
    decreases s, 1int, s.len(),
{
    if s.len() == 0 && t.len() == 0 {
        Some(Ordering::Equal)
    } else if s.len() == 0 {
        Some(Ordering::Less)
    } else if t.len() == 0 {
        Some(Ordering::Greater)
    } else {
        match spec_obj_cmp(s[0], t[0]) {
            Some(Ordering::Equal) => spec_obj_seq_cmp(s.drop_first(), t.drop_first()),
            other => other,
        }
    }
}

/// Lexicographic order on key/value sequences: keys decide, values break
/// ties.
pub open spec fn spec_kv_seq_cmp(s: Seq<KeyValue>, t: Seq<KeyValue>) -> Option<Ordering>
    decreases s, 1int, s.len(),
{
    if s.len() == 0 && t.len() == 0 {
        Some(Ordering::Equal)
    } else if s.len() == 0 {
        Some(Ordering::Less)
    } else if t.len() == 0 {
        Some(Ordering::Greater)
    } else {
        match spec_obj_cmp(s[0].key, t[0].key) {
            Some(Ordering::Equal) => match spec_obj_cmp(s[0].value, t[0].value) {
                Some(Ordering::Equal) => spec_kv_seq_cmp(s.drop_first(), t.drop_first()),
                other => other,
            },
            other => other,
        }
    }
}

/// Scalar equality, derived from the order.
pub open spec fn spec_obj_eq(a: Object, b: Object) -> bool {
    spec_obj_cmp(a, b) == Some(Ordering::Equal)
}

pub fn prim_cmp(a: &Primitives, b: &Primitives) -> (r: Option<Ordering>)
    ensures
        r == spec_prim_cmp(*a, *b),
{
    let af = match a {
        Primitives::Float(_) | Primitives::Double(_) => true,
        _ => false,
    };
    let bf = match b {
        Primitives::Float(_) | Primitives::Double(_) => true,
        _ => false,
    };
    if af || bf {
        f64_cmp_bits(prim_f64_bits_exec(a), prim_f64_bits_exec(b))
    } else {
        match (a, b) {
            (Primitives::ULLong(x), Primitives::ULLong(y)) => Some(
                if *x < *y {
                    Ordering::Less
                } else if *x == *y {
                    Ordering::Equal
                } else {
                    Ordering::Greater
                },
            ),
            (Primitives::ULLong(x), _) => {
                let y = prim_i128_val(b);
                if *x > 0x7FFF_FFFF_FFFF_FFFF_FFFF_FFFF_FFFF_FFFF {
                    Some(Ordering::Greater)
                } else {
                    let xs = *x as i128;
                    Some(
                        if xs < y {
                            Ordering::Less
                        } else if xs == y {
                            Ordering::Equal
                        } else {
                            Ordering::Greater
                        },
                    )
                }
            },
            (_, Primitives::ULLong(y)) => {
                let x = prim_i128_val(a);
                if *y > 0x7FFF_FFFF_FFFF_FFFF_FFFF_FFFF_FFFF_FFFF {
                    Some(Ordering::Less)
                } else {
                    let ys = *y as i128;
                    Some(
                        if x < ys {
                            Ordering::Less
                        } else if x == ys {
                            Ordering::Equal
                        } else {
                            Ordering::Greater
                        },
                    )
                }
            },
            _ => {
                let x = prim_i128_val(a);
                let y = prim_i128_val(b);
                Some(
                    if x < y {
                        Ordering::Less
                    } else if x == y {
                        Ordering::Equal
                    } else {
                        Ordering::Greater
                    },
                )
            },
        }
    }
}

/// The value of an integer primitive other than the 128-bit unsigned one,
/// which does not always fit.
fn prim_i128_val(p: &Primitives) -> (r: i128)
    requires
        !prim_is_float(*p),
        !(p matches Primitives::ULLong(_)),
    ensures
        r == prim_int_val(*p),
{
    match p {
        Primitives::Byte(v) => *v as i128,
        Primitives::Integer(v) => *v as i128,
        Primitives::UInteger(v) => *v as i128,
        Primitives::Long(v) => *v as i128,
        Primitives::ULong(v) => *v as i128,
        Primitives::ULLong(v) => *v as i128,
        _ => 0,
    }
}

fn prim_f64_bits_exec(p: &Primitives) -> (r: u64)
    ensures
        r == prim_f64_bits(*p),
{
    match p {
        Primitives::Byte(v) => i64_to_f64_bits(*v as i64),
        Primitives::Integer(v) => i64_to_f64_bits(*v as i64),
        Primitives::UInteger(v) => i64_to_f64_bits(*v as i64),
        Primitives::Long(v) => i64_to_f64_bits(*v),
        Primitives::ULong(v) => mag_to_f64_bits(false, *v as u128),
        Primitives::ULLong(v) => mag_to_f64_bits(false, *v),
        Primitives::Float(b) => crate::fbits::f32_widen(*b),
        Primitives::Double(b) => *b,
    }
}

/// Compare two scalars; see `spec_obj_cmp`.
pub fn obj_cmp(a: &Object, b: &Object) -> (r: Option<Ordering>)
    ensures
        r == spec_obj_cmp(*a, *b),
    decreases *a, 0int, 0int,
{
    match (a, b) {
        (Object::Primitive(p), Object::Primitive(q)) => prim_cmp(p, q),
        (Object::String(x), Object::String(y)) => Some(
            crate::property::str_cmp(x.as_str(), y.as_str()),
        ),
        (Object::Blob(x), Object::Blob(y)) => Some(
            crate::property::bytes_cmp(x.as_slice(), y.as_slice()),
        ),
        (Object::Vector(x), Object::Vector(y)) => {
            let mut i: usize = 0;
            proof {
                assert(x@.subrange(0, x@.len() as int) =~= x@);
                assert(y@.subrange(0, y@.len() as int) =~= y@);
            }
            while i < x.len() && i < y.len()
                invariant
                    a matches Object::Vector(xx) && xx == x,
                    b matches Object::Vector(yy) && yy == y,
                    i <= x@.len(),
                    i <= y@.len(),
                    spec_obj_seq_cmp(x@, y@) == spec_obj_seq_cmp(
                        x@.subrange(i as int, x@.len() as int),
                        y@.subrange(i as int, y@.len() as int),
                    ),
                decreases x@.len() - i,
            {
                proof {
                    let sa = x@.subrange(i as int, x@.len() as int);
                    let sb = y@.subrange(i as int, y@.len() as int);
                    assert(sa[0] == x@[i as int]);
                    assert(sb[0] == y@[i as int]);
                    assert(sa.drop_first() =~= x@.subrange(i + 1, x@.len() as int));
                    assert(sb.drop_first() =~= y@.subrange(i + 1, y@.len() as int));
                }
                match obj_cmp(&x[i], &y[i]) {
                    Some(Ordering::Equal) => {
                        i = i + 1;
                    },
                    other => {
                        return other;
                    },
                }
            }
            if x.len() == y.len() {
                Some(Ordering::Equal)
            } else if x.len() < y.len() {
                Some(Ordering::Less)
            } else {
                Some(Ordering::Greater)
            }
        },
        (Object::KV(x), Object::KV(y)) => {
            let mut i: usize = 0;
            proof {
                assert(x@.subrange(0, x@.len() as int) =~= x@);
                assert(y@.subrange(0, y@.len() as int) =~= y@);
            }
            while i < x.len() && i < y.len()
                invariant
                    a matches Object::KV(xx) && xx == x,
                    b matches Object::KV(yy) && yy == y,
                    i <= x@.len(),
                    i <= y@.len(),
                    spec_kv_seq_cmp(x@, y@) == spec_kv_seq_cmp(
                        x@.subrange(i as int, x@.len() as int),
                        y@.subrange(i as int, y@.len() as int),
                    ),
                decreases x@.len() - i,
            {
                proof {
                    let sa = x@.subrange(i as int, x@.len() as int);
                    let sb = y@.subrange(i as int, y@.len() as int);
                    assert(sa[0] == x@[i as int]);
                    assert(sb[0] == y@[i as int]);
                    assert(sa.drop_first() =~= x@.subrange(i + 1, x@.len() as int));
                    assert(sb.drop_first() =~= y@.subrange(i + 1, y@.len() as int));
                }
                match obj_cmp(&x[i].key, &y[i].key) {
                    Some(Ordering::Equal) => {
                        match obj_cmp(&x[i].value, &y[i].value) {
                            Some(Ordering::Equal) => {
                                i = i + 1;
                            },
                            other => {
                                return other;
                            },
                        }
                    },
                    other => {
                        return other;
                    },
                }
            }
            if x.len() == y.len() {
                Some(Ordering::Equal)
            } else if x.len() < y.len() {
                Some(Ordering::Less)
            } else {
                Some(Ordering::Greater)
            }
        },
        (Object::NoneValue, Object::NoneValue) => Some(Ordering::Equal),
        _ => None,
    }
}

/// Whether two scalars are equal; see `spec_obj_eq`.
pub fn obj_eq(a: &Object, b: &Object) -> (r: bool)
    ensures
        r == spec_obj_eq(*a, *b),
{
    matches!(obj_cmp(a, b), Some(Ordering::Equal))
}

/// One step of the 64-bit mixing chain used by every hash in the library.
pub open spec fn mix(h: u64, x: u64) -> u64 {
    (((h * 0x100_0000_01b3) + x) % 0x1_0000_0000_0000_0000) as u64
}

pub fn mix_u64(h: u64, x: u64) -> (r: u64)
    ensures
        r == mix(h, x),
{
    (((h as u128) * 0x100_0000_01b3 + (x as u128)) % 0x1_0000_0000_0000_0000) as u64
}

/// The mixing chain over a byte string, from a seed.
pub open spec fn spec_bytes_hash(s: Seq<u8>, h0: u64) -> u64
    decreases s.len(),
{
    if s.len() == 0 {
        h0
    } else {
        mix(spec_bytes_hash(s.drop_last(), h0), s.last() as u64)
    }
}

pub fn bytes_hash(b: &[u8], h0: u64) -> (r: u64)
    ensures
        r == spec_bytes_hash(b@, h0),
{
    let mut h = h0;
    let mut i: usize = 0;
    while i < b.len()
        invariant
            i <= b@.len(),
            h == spec_bytes_hash(b@.subrange(0, i as int), h0),
        decreases b@.len() - i,
    {
        h = mix_u64(h, b[i] as u64);
        i = i + 1;
        proof {
            let pre = b@.subrange(0, i as int);
            assert(pre.drop_last() =~= b@.subrange(0, i - 1));
        }
    }
    proof {
        assert(b@.subrange(0, b@.len() as int) =~= b@);
    }
    h
}

/// A hash of a scalar, consistent with `spec_obj_eq`: numerics hash by
/// their widened double pattern (with the zeroes identified), so equal
/// numerics of different widths agree.
pub open spec fn spec_obj_hash(a: Object) -> u64
    decreases a, 0int, 0int,
{
    match a {
        Object::Primitive(p) => mix(1, f64_canon(prim_f64_bits(p))),
        Object::String(s) => spec_bytes_hash(encode_utf8(s@), 2),
        Object::Blob(b) => spec_bytes_hash(b@, 3),
        Object::Vector(v) => spec_obj_seq_hash(v@),
        Object::KV(v) => spec_kv_seq_hash(v@),
        Object::NoneValue => 6,
    }
}

pub open spec fn spec_obj_seq_hash(s: Seq<Object>) -> u64
    decreases s, 1int, s.len(),
{
    if s.len() == 0 {
        4
    } else {
        mix(spec_obj_seq_hash(s.drop_last()), spec_obj_hash(s.last()))
    }
}

pub open spec fn spec_kv_seq_hash(s: Seq<KeyValue>) -> u64
    decreases s, 1int, s.len(),
{
    if s.len() == 0 {
        5
    } else {
        mix(
            mix(spec_kv_seq_hash(s.drop_last()), spec_obj_hash(s.last().key)),
            spec_obj_hash(s.last().value),
        )
    }
}

/// Hash a scalar; see `spec_obj_hash`.
pub fn obj_hash(a: &Object) -> (r: u64)
    ensures
        r == spec_obj_hash(*a),
    decreases *a, 0int, 0int,
{
    match a {
        Object::Primitive(p) => mix_u64(1, f64_canon_bits(prim_f64_bits_exec(p))),
        Object::String(s) => bytes_hash(s.as_str().as_bytes(), 2),
        Object::Blob(b) => bytes_hash(b.as_slice(), 3),
        Object::Vector(v) => {
            let mut h: u64 = 4;
            let mut i: usize = 0;
            while i < v.len()
                invariant
                    a matches Object::Vector(vv) && vv == v,
                    i <= v@.len(),
                    h == spec_obj_seq_hash(v@.subrange(0, i as int)),
                decreases v@.len() - i,
            {
                h = mix_u64(h, obj_hash(&v[i]));
                i = i + 1;
                proof {
                    let pre = v@.subrange(0, i as int);
                    assert(pre.drop_last() =~= v@.subrange(0, i - 1));
                }
            }
            proof {
                assert(v@.subrange(0, v@.len() as int) =~= v@);
            }
            h
        },
        Object::KV(v) => {
            let mut h: u64 = 5;
            let mut i: usize = 0;
            while i < v.len()
                invariant
                    a matches Object::KV(vv) && vv == v,
                    i <= v@.len(),
                    h == spec_kv_seq_hash(v@.subrange(0, i as int)),
                decreases v@.len() - i,
            {
                h = mix_u64(mix_u64(h, obj_hash(&v[i].key)), obj_hash(&v[i].value));
                i = i + 1;
                proof {
                    let pre = v@.subrange(0, i as int);
                    assert(pre.drop_last() =~= v@.subrange(0, i - 1));
                }
            }
            proof {
                assert(v@.subrange(0, v@.len() as int) =~= v@);
            }
            h
        },
        Object::NoneValue => 6,
    }
}

/// Byte strings that compare equal are equal.
pub proof fn lemma_bytes_cmp_equal(a: Seq<u8>, b: Seq<u8>)
    requires
        spec_bytes_cmp(a, b) == Ordering::Equal,
    ensures
        a == b,
    decreases a.len(),
{
    if a.len() == 0 || b.len() == 0 {
        assert(a =~= b);
    } else {
        lemma_bytes_cmp_equal(a.subrange(1, a.len() as int), b.subrange(1, b.len() as int));
        assert(a =~= b) by {
            assert(a[0] == b[0]);
            assert(forall|i: int|
                1 <= i < a.len() ==> a[i] == a.subrange(1, a.len() as int)[i - 1]);
            assert(forall|i: int|
                1 <= i < b.len() ==> b[i] == b.subrange(1, b.len() as int)[i - 1]);
        }
    }
}

/// Equal primitives hash alike: equal integers widen to the same double,
/// and doubles that compare equal have the same canonical pattern.
proof fn lemma_prim_eq_hash(a: Primitives, b: Primitives)
    requires
        spec_prim_cmp(a, b) == Some(Ordering::Equal),
    ensures
        f64_canon(prim_f64_bits(a)) == f64_canon(prim_f64_bits(b)),
{
    if prim_is_float(a) || prim_is_float(b) {
        crate::fbits::lemma_f64_cmp_equal_canon(prim_f64_bits(a), prim_f64_bits(b));
    } else {
        assert(prim_int_val(a) == prim_int_val(b));
    }
}

/// A comparison that answers "equal" on scalar sequences pins the lengths
/// and makes every element pair compare equal.
proof fn lemma_obj_seq_cmp_equal(s: Seq<Object>, t: Seq<Object>)
    requires
        spec_obj_seq_cmp(s, t) == Some(Ordering::Equal),
    ensures
        s.len() == t.len(),
        forall|i: int|
            0 <= i < s.len() ==> spec_obj_cmp(s[i], t[i]) == Some(Ordering::Equal),
    decreases s.len(),
{
    if s.len() > 0 && t.len() > 0 {
        lemma_obj_seq_cmp_equal(s.drop_first(), t.drop_first());
        assert forall|i: int|
            0 <= i < s.len() implies spec_obj_cmp(s[i], t[i]) == Some(Ordering::Equal) by {
            if i > 0 {
                assert(s.drop_first()[i - 1] == s[i]);
                assert(t.drop_first()[i - 1] == t[i]);
            }
        }
    }
}

proof fn lemma_kv_seq_cmp_equal(s: Seq<KeyValue>, t: Seq<KeyValue>)
    requires
        spec_kv_seq_cmp(s, t) == Some(Ordering::Equal),
    ensures
        s.len() == t.len(),
        forall|i: int|
            0 <= i < s.len() ==> spec_obj_cmp(#[trigger] s[i].key, t[i].key) == Some(
                Ordering::Equal,
            ) && spec_obj_cmp(s[i].value, t[i].value) == Some(Ordering::Equal),
    decreases s.len(),
{
    if s.len() > 0 && t.len() > 0 {
        lemma_kv_seq_cmp_equal(s.drop_first(), t.drop_first());
        assert forall|i: int|
            0 <= i < s.len() implies spec_obj_cmp(#[trigger] s[i].key, t[i].key) == Some(
            Ordering::Equal,
        ) && spec_obj_cmp(s[i].value, t[i].value) == Some(Ordering::Equal) by {
            if i > 0 {
                assert(s.drop_first()[i - 1] == s[i]);
                assert(t.drop_first()[i - 1] == t[i]);
            }
        }
    }
}

/// Equal scalars hash alike.
pub proof fn lemma_obj_eq_hash(a: Object, b: Object)
    requires
        spec_obj_eq(a, b),
    ensures
        spec_obj_hash(a) == spec_obj_hash(b),
    decreases a, 0int, 0int,
{
    match (a, b) {
        (Object::Primitive(p), Object::Primitive(q)) => {
            lemma_prim_eq_hash(p, q);
        },
        (Object::String(x), Object::String(y)) => {
            lemma_bytes_cmp_equal(encode_utf8(x@), encode_utf8(y@));
        },
        (Object::Blob(x), Object::Blob(y)) => {
            lemma_bytes_cmp_equal(x@, y@);
        },
        (Object::Vector(x), Object::Vector(y)) => {
            lemma_obj_seq_cmp_equal(x@, y@);
            lemma_obj_seq_hash_pointwise(x@, y@);
        },
        (Object::KV(x), Object::KV(y)) => {
            lemma_kv_seq_cmp_equal(x@, y@);
            lemma_kv_seq_hash_pointwise(x@, y@);
        },
        _ => {},
    }
}

proof fn lemma_obj_seq_hash_pointwise(s: Seq<Object>, t: Seq<Object>)
    requires
        s.len() == t.len(),
        forall|i: int|
            0 <= i < s.len() ==> spec_obj_cmp(s[i], t[i]) == Some(Ordering::Equal),
    ensures
        spec_obj_seq_hash(s) == spec_obj_seq_hash(t),
    decreases s, 1int, s.len(),
{
    if s.len() > 0 {
        lemma_obj_seq_hash_pointwise(s.drop_last(), t.drop_last());
        lemma_obj_eq_hash(s.last(), t.last());
    }
}

proof fn lemma_kv_seq_hash_pointwise(s: Seq<KeyValue>, t: Seq<KeyValue>)
    requires
        s.len() == t.len(),
        forall|i: int|
            0 <= i < s.len() ==> spec_obj_cmp(#[trigger] s[i].key, t[i].key) == Some(
                Ordering::Equal,
            ) && spec_obj_cmp(s[i].value, t[i].value) == Some(Ordering::Equal),
    ensures
        spec_kv_seq_hash(s) == spec_kv_seq_hash(t),
    decreases s, 1int, s.len(),
{
    if s.len() > 0 {
        lemma_kv_seq_hash_pointwise(s.drop_last(), t.drop_last());
        lemma_obj_eq_hash(s.last().key, t.last().key);
        lemma_obj_eq_hash(s.last().value, t.last().value);
    }
}

} // verus!
