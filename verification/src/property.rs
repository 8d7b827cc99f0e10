//! The typed property value model of the graph store: a closed set of scalar
//! and list variants, cross-variant numeric comparison by widening, and the
//! containment / prefix / suffix predicates used by filter operators.
//!
//! `Float` / `Double` variants (and their lists) carry IEEE-754 bit patterns;
//! see `fbits` for the integer model of those patterns.

use vstd::prelude::*;

use core::cmp::Ordering;

use crate::fbits::{
    f32_to_f64_bits, f32_widen, f64_cmp, f64_cmp_bits, f64_eq, i64_to_f32_bits, i64_to_f64_bits,
    spec_i64_to_f32_bits, spec_i64_to_f64_bits,
};
use vstd::utf8::encode_utf8;
use vstd::string::StringSliceAdditionalSpecFns;
use crate::be::{u32_as_i32, u32_to_i32, u64_as_i64, u64_to_i64};
use crate::object::{Object, Primitives, RawType};

verus! {

/// A schema-declared column type.
#[derive(Debug, PartialEq, Eq, Structural, Clone, Copy)]
pub enum DataType {
    Bool,
    Char,
    Short,
    Int,
    Long,
    Float,
    Double,
    String,
    Bytes,
    Date,
    ListInt,
    ListLong,
    ListFloat,
    ListDouble,
    ListString,
    ListBytes,
    Unknown,
}

/// A recoverable failure of the property engine: a malformed operand
/// combination, or a value that does not fit the requested width.
#[derive(Debug, PartialEq, Eq, Structural, Clone, Copy)]
pub enum GraphError {
    InvalidCondition,
    DataError,
}

/// A stored or computed property value. `Float` / `Double` (and their list
/// forms) hold IEEE-754 bit patterns; `Date` is text-encoded; `Null` marks an
/// absent value and `Unknown` an unparseable one.
#[derive(Debug, Clone)]
pub enum Property {
    Bool(bool),
    Char(u8),
    Short(i16),
    Int(i32),
    Long(i64),
    Float(u32),
    Double(u64),
    Bytes(Vec<u8>),
    String(String),
    Date(String),
    ListInt(Vec<i32>),
    ListLong(Vec<i64>),
    ListFloat(Vec<u32>),
    ListDouble(Vec<u64>),
    ListString(Vec<String>),
    ListBytes(Vec<Vec<u8>>),
    Null,
    Unknown,
}

/// Total order on booleans: false sorts before true.
pub open spec fn spec_bool_cmp(a: bool, b: bool) -> Ordering {
    if a == b {
        Ordering::Equal
    } else if !a {
        Ordering::Less
    } else {
        Ordering::Greater
    }
}

/// Total order on unbounded integers.
pub open spec fn spec_int_cmp(a: int, b: int) -> Ordering {
    if a < b {
        Ordering::Less
    } else if a == b {
        Ordering::Equal
    } else {
        Ordering::Greater
    }
}

/// Lexicographic order on byte strings.
pub open spec fn spec_bytes_cmp(a: Seq<u8>, b: Seq<u8>) -> Ordering
    decreases a.len(),
{
    if a.len() == 0 && b.len() == 0 {
        Ordering::Equal
    } else if a.len() == 0 {
        Ordering::Less
    } else if b.len() == 0 {
        Ordering::Greater
    } else if a[0] < b[0] {
        Ordering::Less
    } else if a[0] > b[0] {
        Ordering::Greater
    } else {
        spec_bytes_cmp(a.subrange(1, a.len() as int), b.subrange(1, b.len() as int))
    }
}

/// Order on text, as the byte order of its UTF-8 encoding (which agrees
/// with scalar-value order).
pub open spec fn spec_str_cmp(a: Seq<char>, b: Seq<char>) -> Ordering {
    spec_bytes_cmp(encode_utf8(a), encode_utf8(b))
}

/// Lexicographic order on signed 64-bit sequences.
pub open spec fn spec_i64_seq_cmp(a: Seq<i64>, b: Seq<i64>) -> Ordering
    decreases a.len(),
{
    if a.len() == 0 && b.len() == 0 {
        Ordering::Equal
    } else if a.len() == 0 {
        Ordering::Less
    } else if b.len() == 0 {
        Ordering::Greater
    } else if a[0] < b[0] {
        Ordering::Less
    } else if a[0] > b[0] {
        Ordering::Greater
    } else {
        spec_i64_seq_cmp(a.subrange(1, a.len() as int), b.subrange(1, b.len() as int))
    }
}

/// Lexicographic order on sequences of double patterns; an incomparable
/// element pair (a NaN) makes the whole comparison undefined.
pub open spec fn spec_f64_seq_cmp(a: Seq<u64>, b: Seq<u64>) -> Option<Ordering>
    decreases a.len(),
{
    if a.len() == 0 && b.len() == 0 {
        Some(Ordering::Equal)
    } else if a.len() == 0 {
        Some(Ordering::Less)
    } else if b.len() == 0 {
        Some(Ordering::Greater)
    } else {
        match f64_cmp(a[0], b[0]) {
            Some(Ordering::Equal) => spec_f64_seq_cmp(
                a.subrange(1, a.len() as int),
                b.subrange(1, b.len() as int),
            ),
            other => other,
        }
    }
}

/// Lexicographic order on string lists.
pub open spec fn spec_str_seq_cmp(a: Seq<String>, b: Seq<String>) -> Ordering
    decreases a.len(),
{
    if a.len() == 0 && b.len() == 0 {
        Ordering::Equal
    } else if a.len() == 0 {
        Ordering::Less
    } else if b.len() == 0 {
        Ordering::Greater
    } else {
        match spec_str_cmp(a[0]@, b[0]@) {
            Ordering::Equal => spec_str_seq_cmp(
                a.subrange(1, a.len() as int),
                b.subrange(1, b.len() as int),
            ),
            other => other,
        }
    }
}

/// Lexicographic order on byte-string lists.
pub open spec fn spec_bytes_seq_cmp(a: Seq<Vec<u8>>, b: Seq<Vec<u8>>) -> Ordering
    decreases a.len(),
{
    if a.len() == 0 && b.len() == 0 {
        Ordering::Equal
    } else if a.len() == 0 {
        Ordering::Less
    } else if b.len() == 0 {
        Ordering::Greater
    } else {
        match spec_bytes_cmp(a[0]@, b[0]@) {
            Ordering::Equal => spec_bytes_seq_cmp(
                a.subrange(1, a.len() as int),
                b.subrange(1, b.len() as int),
            ),
            other => other,
        }
    }
}

impl Property {
    /// Whether this variant takes part in integer widening (Short/Int/Long).
    pub open spec fn is_int_kind(&self) -> bool {
        self matches Property::Short(_) || self matches Property::Int(_) || self
            matches Property::Long(_)
    }

    /// Whether this variant is float-typed (Float/Double).
    pub open spec fn is_float_kind(&self) -> bool {
        self matches Property::Float(_) || self matches Property::Double(_)
    }

    /// Whether this variant takes part in numeric widening.
    pub open spec fn is_numeric(&self) -> bool {
        self.is_int_kind() || self.is_float_kind()
    }

    /// Whether this variant is a list of integers.
    pub open spec fn is_int_list_kind(&self) -> bool {
        self matches Property::ListInt(_) || self matches Property::ListLong(_)
    }

    /// Whether this variant is a list of floats.
    pub open spec fn is_float_list_kind(&self) -> bool {
        self matches Property::ListFloat(_) || self matches Property::ListDouble(_)
    }

    /// Whether this variant is a numeric list.
    pub open spec fn is_numeric_list(&self) -> bool {
        self.is_int_list_kind() || self.is_float_list_kind()
    }

    /// The 64-bit value of an integer variant.
    pub open spec fn spec_long_val(&self) -> i64 {
        match self {
            Property::Short(s) => *s as i64,
            Property::Int(i) => *i as i64,
            Property::Long(l) => *l,
            _ => 0,
        }
    }

    /// The double pattern of a numeric variant, after widening.
    pub open spec fn spec_double_bits(&self) -> u64 {
        match self {
            Property::Short(s) => spec_i64_to_f64_bits(*s as i64),
            Property::Int(i) => spec_i64_to_f64_bits(*i as i64),
            Property::Long(l) => spec_i64_to_f64_bits(*l),
            Property::Float(b) => f32_to_f64_bits(*b),
            Property::Double(b) => *b,
            _ => 0,
        }
    }

    /// The single pattern of a variant accepted by `get_float`.
    pub open spec fn spec_float_bits(&self) -> u32 {
        match self {
            Property::Short(s) => spec_i64_to_f32_bits(*s as i64),
            Property::Int(i) => spec_i64_to_f32_bits(*i as i64),
            Property::Float(b) => *b,
            _ => 0,
        }
    }

    /// An integer list widened to 64-bit elements.
    pub open spec fn spec_long_seq(&self) -> Seq<i64> {
        match self {
            Property::ListInt(v) => v@.map_values(|x: i32| x as i64),
            Property::ListLong(v) => v@,
            _ => Seq::empty(),
        }
    }

    /// A numeric list widened to double patterns.
    pub open spec fn spec_double_bits_seq(&self) -> Seq<u64> {
        match self {
            Property::ListInt(v) => v@.map_values(|x: i32| spec_i64_to_f64_bits(x as i64)),
            Property::ListLong(v) => v@.map_values(|x: i64| spec_i64_to_f64_bits(x)),
            Property::ListFloat(v) => v@.map_values(|x: u32| f32_to_f64_bits(x)),
            Property::ListDouble(v) => v@,
            _ => Seq::empty(),
        }
    }

    /// The partial order on property values: same-variant pairs compare
    /// natively; mixed numeric pairs widen (to 64-bit integers, or to
    /// doubles when either side is float-typed); mixed numeric lists widen
    /// element-wise; every other combination is incomparable.
    pub open spec fn spec_cmp(&self, other: &Property) -> Option<Ordering> {
        match (self, other) {
            (Property::Bool(x), Property::Bool(y)) => Some(spec_bool_cmp(*x, *y)),
            (Property::Char(x), Property::Char(y)) => Some(spec_int_cmp(*x as int, *y as int)),
            (Property::Bytes(x), Property::Bytes(y)) => Some(spec_bytes_cmp(x@, y@)),
            (Property::String(x), Property::String(y)) => Some(spec_str_cmp(x@, y@)),
            (Property::Date(x), Property::Date(y)) => Some(spec_str_cmp(x@, y@)),
            (Property::ListString(x), Property::ListString(y)) => Some(spec_str_seq_cmp(x@, y@)),
            (Property::ListBytes(x), Property::ListBytes(y)) => Some(spec_bytes_seq_cmp(x@, y@)),
            (Property::Null, Property::Null) => Some(Ordering::Equal),
            _ => {
                if self.is_numeric() && other.is_numeric() {
                    if self.is_float_kind() || other.is_float_kind() {
                        f64_cmp(self.spec_double_bits(), other.spec_double_bits())
                    } else {
                        Some(spec_int_cmp(self.spec_long_val() as int, other.spec_long_val() as int))
                    }
                } else if self.is_numeric_list() && other.is_numeric_list() {
                    if self.is_float_list_kind() || other.is_float_list_kind() {
                        spec_f64_seq_cmp(self.spec_double_bits_seq(), other.spec_double_bits_seq())
                    } else {
                        Some(spec_i64_seq_cmp(self.spec_long_seq(), other.spec_long_seq()))
                    }
                } else {
                    None
                }
            },
        }
    }

    /// Equality is derived from the order: equal exactly when the order
    /// reports "equal", so incomparable pairs are unequal.
    pub open spec fn spec_eq(&self, other: &Property) -> bool {
        self.spec_cmp(other) == Some(Ordering::Equal)
    }
}

/// Lexicographic comparison of byte strings.
pub fn bytes_cmp(a: &[u8], b: &[u8]) -> (r: Ordering)
    ensures
        r == spec_bytes_cmp(a@, b@),
{
    let mut i: usize = 0;
    proof {
        assert(a@.subrange(0, a@.len() as int) =~= a@);
        assert(b@.subrange(0, b@.len() as int) =~= b@);
    }
    while i < a.len() && i < b.len()
        invariant
            i <= a@.len(),
            i <= b@.len(),
            spec_bytes_cmp(a@, b@) == spec_bytes_cmp(
                a@.subrange(i as int, a@.len() as int),
                b@.subrange(i as int, b@.len() as int),
            ),
        decreases a@.len() - i,
    {
        let x = a[i];
        let y = b[i];
        proof {
            let sa = a@.subrange(i as int, a@.len() as int);
            let sb = b@.subrange(i as int, b@.len() as int);
            assert(sa[0] == a@[i as int]);
            assert(sb[0] == b@[i as int]);
            assert(sa.subrange(1, sa.len() as int) =~= a@.subrange(i + 1, a@.len() as int));
            assert(sb.subrange(1, sb.len() as int) =~= b@.subrange(i + 1, b@.len() as int));
        }
        if x < y {
            return Ordering::Less;
        }
        if x > y {
            return Ordering::Greater;
        }
        i = i + 1;
    }
    proof {
        let sa = a@.subrange(i as int, a@.len() as int);
        let sb = b@.subrange(i as int, b@.len() as int);
        assert(sa.len() == 0 || sb.len() == 0);
    }
    if a.len() == b.len() {
        Ordering::Equal
    } else if a.len() < b.len() {
        Ordering::Less
    } else {
        Ordering::Greater
    }
}

/// Whether two byte strings are equal.
pub fn bytes_eq(a: &[u8], b: &[u8]) -> (r: bool)
    ensures
        r == (a@ == b@),
{
    if a.len() != b.len() {
        return false;
    }
    let mut i: usize = 0;
    while i < a.len()
        invariant
            i <= a@.len(),
            a@.len() == b@.len(),
            forall|j: int| 0 <= j < i ==> a@[j] == b@[j],
        decreases a@.len() - i,
    {
        if a[i] != b[i] {
            return false;
        }
        i = i + 1;
    }
    proof {
        assert(a@ =~= b@);
    }
    true
}

/// Lexicographic comparison of text, by UTF-8 bytes.
pub fn str_cmp(a: &str, b: &str) -> (r: Ordering)
    ensures
        r == spec_str_cmp(a@, b@),
{
    bytes_cmp(a.as_bytes(), b.as_bytes())
}

/// Whether two strings hold the same text.
pub fn str_eq(a: &str, b: &str) -> (r: bool)
    ensures
        r == (a@ == b@),
{
    let r = bytes_eq(a.as_bytes(), b.as_bytes());
    proof {
        if a.spec_bytes() == b.spec_bytes() {
            vstd::utf8::encode_utf8_decode_utf8(a@);
            vstd::utf8::encode_utf8_decode_utf8(b@);
        }
    }
    r
}

fn i64_vec_cmp(a: &Vec<i64>, b: &Vec<i64>) -> (r: Ordering)
    ensures
        r == spec_i64_seq_cmp(a@, b@),
{
    let mut i: usize = 0;
    proof {
        assert(a@.subrange(0, a@.len() as int) =~= a@);
        assert(b@.subrange(0, b@.len() as int) =~= b@);
    }
    while i < a.len() && i < b.len()
        invariant
            i <= a@.len(),
            i <= b@.len(),
            spec_i64_seq_cmp(a@, b@) == spec_i64_seq_cmp(
                a@.subrange(i as int, a@.len() as int),
                b@.subrange(i as int, b@.len() as int),
            ),
        decreases a@.len() - i,
    {
        let x = a[i];
        let y = b[i];
        proof {
            let sa = a@.subrange(i as int, a@.len() as int);
            let sb = b@.subrange(i as int, b@.len() as int);
            assert(sa[0] == a@[i as int]);
            assert(sb[0] == b@[i as int]);
            assert(sa.subrange(1, sa.len() as int) =~= a@.subrange(i + 1, a@.len() as int));
            assert(sb.subrange(1, sb.len() as int) =~= b@.subrange(i + 1, b@.len() as int));
        }
        if x < y {
            return Ordering::Less;
        }
        if x > y {
            return Ordering::Greater;
        }
        i = i + 1;
    }
    if a.len() == b.len() {
        Ordering::Equal
    } else if a.len() < b.len() {
        Ordering::Less
    } else {
        Ordering::Greater
    }
}

fn f64_vec_cmp(a: &Vec<u64>, b: &Vec<u64>) -> (r: Option<Ordering>)
    ensures
        r == spec_f64_seq_cmp(a@, b@),
{
    let mut i: usize = 0;
    proof {
        assert(a@.subrange(0, a@.len() as int) =~= a@);
        assert(b@.subrange(0, b@.len() as int) =~= b@);
    }
    while i < a.len() && i < b.len()
        invariant
            i <= a@.len(),
            i <= b@.len(),
            spec_f64_seq_cmp(a@, b@) == spec_f64_seq_cmp(
                a@.subrange(i as int, a@.len() as int),
                b@.subrange(i as int, b@.len() as int),
            ),
        decreases a@.len() - i,
    {
        proof {
            let sa = a@.subrange(i as int, a@.len() as int);
            let sb = b@.subrange(i as int, b@.len() as int);
            assert(sa[0] == a@[i as int]);
            assert(sb[0] == b@[i as int]);
            assert(sa.subrange(1, sa.len() as int) =~= a@.subrange(i + 1, a@.len() as int));
            assert(sb.subrange(1, sb.len() as int) =~= b@.subrange(i + 1, b@.len() as int));
        }
        match f64_cmp_bits(a[i], b[i]) {
            Some(Ordering::Equal) => {
                i = i + 1;
            },
            other => {
                return other;
            },
        }
    }
    if a.len() == b.len() {
        Some(Ordering::Equal)
    } else if a.len() < b.len() {
        Some(Ordering::Less)
    } else {
        Some(Ordering::Greater)
    }
}

fn string_vec_cmp(a: &Vec<String>, b: &Vec<String>) -> (r: Ordering)
    ensures
        r == spec_str_seq_cmp(a@, b@),
{
    let mut i: usize = 0;
    proof {
        assert(a@.subrange(0, a@.len() as int) =~= a@);
        assert(b@.subrange(0, b@.len() as int) =~= b@);
    }
    while i < a.len() && i < b.len()
        invariant
            i <= a@.len(),
            i <= b@.len(),
            spec_str_seq_cmp(a@, b@) == spec_str_seq_cmp(
                a@.subrange(i as int, a@.len() as int),
                b@.subrange(i as int, b@.len() as int),
            ),
        decreases a@.len() - i,
    {
        proof {
            let sa = a@.subrange(i as int, a@.len() as int);
            let sb = b@.subrange(i as int, b@.len() as int);
            assert(sa[0] == a@[i as int]);
            assert(sb[0] == b@[i as int]);
            assert(sa.subrange(1, sa.len() as int) =~= a@.subrange(i + 1, a@.len() as int));
            assert(sb.subrange(1, sb.len() as int) =~= b@.subrange(i + 1, b@.len() as int));
        }
        match str_cmp(a[i].as_str(), b[i].as_str()) {
            Ordering::Equal => {
                i = i + 1;
            },
            other => {
                return other;
            },
        }
    }
    if a.len() == b.len() {
        Ordering::Equal
    } else if a.len() < b.len() {
        Ordering::Less
    } else {
        Ordering::Greater
    }
}

fn bytes_vec_cmp(a: &Vec<Vec<u8>>, b: &Vec<Vec<u8>>) -> (r: Ordering)
    ensures
        r == spec_bytes_seq_cmp(a@, b@),
{
    let mut i: usize = 0;
    proof {
        assert(a@.subrange(0, a@.len() as int) =~= a@);
        assert(b@.subrange(0, b@.len() as int) =~= b@);
    }
    while i < a.len() && i < b.len()
        invariant
            i <= a@.len(),
            i <= b@.len(),
            spec_bytes_seq_cmp(a@, b@) == spec_bytes_seq_cmp(
                a@.subrange(i as int, a@.len() as int),
                b@.subrange(i as int, b@.len() as int),
            ),
        decreases a@.len() - i,
    {
        proof {
            let sa = a@.subrange(i as int, a@.len() as int);
            let sb = b@.subrange(i as int, b@.len() as int);
            assert(sa[0] == a@[i as int]);
            assert(sb[0] == b@[i as int]);
            assert(sa.subrange(1, sa.len() as int) =~= a@.subrange(i + 1, a@.len() as int));
            assert(sb.subrange(1, sb.len() as int) =~= b@.subrange(i + 1, b@.len() as int));
        }
        match bytes_cmp(a[i].as_slice(), b[i].as_slice()) {
            Ordering::Equal => {
                i = i + 1;
            },
            other => {
                return other;
            },
        }
    }
    if a.len() == b.len() {
        Ordering::Equal
    } else if a.len() < b.len() {
        Ordering::Less
    } else {
        Ordering::Greater
    }
}

impl Property {
    fn long_value(&self) -> (r: i64)
        requires
            self.is_int_kind(),
        ensures
            r == self.spec_long_val(),
    {
        match self {
            Property::Short(s) => *s as i64,
            Property::Int(i) => *i as i64,
            Property::Long(l) => *l,
            _ => 0,
        }
    }

    fn double_bits(&self) -> (r: u64)
        requires
            self.is_numeric(),
        ensures
            r == self.spec_double_bits(),
    {
        match self {
            Property::Short(s) => i64_to_f64_bits(*s as i64),
            Property::Int(i) => i64_to_f64_bits(*i as i64),
            Property::Long(l) => i64_to_f64_bits(*l),
            Property::Float(b) => f32_widen(*b),
            Property::Double(b) => *b,
            _ => 0,
        }
    }

    fn is_float_type(&self) -> (r: bool)
        ensures
            r == self.is_float_kind(),
    {
        match self {
            Property::Float(_) => true,
            Property::Double(_) => true,
            _ => false,
        }
    }

    fn is_ele_float_type(&self) -> (r: bool)
        ensures
            r == self.is_float_list_kind(),
    {
        match self {
            Property::ListFloat(_) => true,
            Property::ListDouble(_) => true,
            _ => false,
        }
    }

    fn is_numeric_type(&self) -> (r: bool)
        ensures
            r == self.is_numeric(),
    {
        match self {
            Property::Short(_) => true,
            Property::Int(_) => true,
            Property::Long(_) => true,
            Property::Float(_) => true,
            Property::Double(_) => true,
            _ => false,
        }
    }

    fn is_numeric_list_type(&self) -> (r: bool)
        ensures
            r == self.is_numeric_list(),
    {
        match self {
            Property::ListInt(_) => true,
            Property::ListLong(_) => true,
            Property::ListFloat(_) => true,
            Property::ListDouble(_) => true,
            _ => false,
        }
    }

    /// An integer list copied up to 64-bit elements.
    fn long_seq_vec(&self) -> (r: Vec<i64>)
        requires
            self.is_int_list_kind(),
        ensures
            r@ == self.spec_long_seq(),
    {
        let mut out: Vec<i64> = Vec::new();
        match self {
            Property::ListInt(v) => {
                let mut i: usize = 0;
                while i < v.len()
                    invariant
                        i <= v@.len(),
                        out@.len() == i,
                        forall|j: int| 0 <= j < i ==> out@[j] == v@[j] as i64,
                    decreases v@.len() - i,
                {
                    out.push(v[i] as i64);
                    i = i + 1;
                }
                proof {
                    assert(out@ =~= v@.map_values(|x: i32| x as i64));
                }
            },
            Property::ListLong(v) => {
                let mut i: usize = 0;
                while i < v.len()
                    invariant
                        i <= v@.len(),
                        out@.len() == i,
                        forall|j: int| 0 <= j < i ==> out@[j] == v@[j],
                    decreases v@.len() - i,
                {
                    out.push(v[i]);
                    i = i + 1;
                }
                proof {
                    assert(out@ =~= v@);
                }
            },
            _ => {},
        }
        out
    }

    /// A numeric list widened to double patterns.
    fn double_bits_vec(&self) -> (r: Vec<u64>)
        requires
            self.is_numeric_list(),
        ensures
            r@ == self.spec_double_bits_seq(),
    {
        let mut out: Vec<u64> = Vec::new();
        match self {
            Property::ListInt(v) => {
                let mut i: usize = 0;
                while i < v.len()
                    invariant
                        i <= v@.len(),
                        out@.len() == i,
                        forall|j: int| 0 <= j < i ==> out@[j] == spec_i64_to_f64_bits(v@[j] as i64),
                    decreases v@.len() - i,
                {
                    out.push(i64_to_f64_bits(v[i] as i64));
                    i = i + 1;
                }
                proof {
                    assert(out@ =~= v@.map_values(|x: i32| spec_i64_to_f64_bits(x as i64)));
                }
            },
            Property::ListLong(v) => {
                let mut i: usize = 0;
                while i < v.len()
                    invariant
                        i <= v@.len(),
                        out@.len() == i,
                        forall|j: int| 0 <= j < i ==> out@[j] == spec_i64_to_f64_bits(v@[j]),
                    decreases v@.len() - i,
                {
                    out.push(i64_to_f64_bits(v[i]));
                    i = i + 1;
                }
                proof {
                    assert(out@ =~= v@.map_values(|x: i64| spec_i64_to_f64_bits(x)));
                }
            },
            Property::ListFloat(v) => {
                let mut i: usize = 0;
                while i < v.len()
                    invariant
                        i <= v@.len(),
                        out@.len() == i,
                        forall|j: int| 0 <= j < i ==> out@[j] == f32_to_f64_bits(v@[j]),
                    decreases v@.len() - i,
                {
                    out.push(f32_widen(v[i]));
                    i = i + 1;
                }
                proof {
                    assert(out@ =~= v@.map_values(|x: u32| f32_to_f64_bits(x)));
                }
            },
            Property::ListDouble(v) => {
                let mut i: usize = 0;
                while i < v.len()
                    invariant
                        i <= v@.len(),
                        out@.len() == i,
                        forall|j: int| 0 <= j < i ==> out@[j] == v@[j],
                    decreases v@.len() - i,
                {
                    out.push(v[i]);
                    i = i + 1;
                }
                proof {
                    assert(out@ =~= v@);
                }
            },
            _ => {},
        }
        out
    }

    /// The comparison engine behind `==`, `<` and friends.
    pub fn compare(&self, other: &Property) -> (r: Option<Ordering>)
        ensures
            r == self.spec_cmp(other),
    {
        match (self, other) {
            (Property::Bool(x), Property::Bool(y)) => Some(
                if *x == *y {
                    Ordering::Equal
                } else if !*x {
                    Ordering::Less
                } else {
                    Ordering::Greater
                },
            ),
            (Property::Char(x), Property::Char(y)) => Some(
                if *x < *y {
                    Ordering::Less
                } else if *x == *y {
                    Ordering::Equal
                } else {
                    Ordering::Greater
                },
            ),
            (Property::Bytes(x), Property::Bytes(y)) => Some(
                bytes_cmp(x.as_slice(), y.as_slice()),
            ),
            (Property::String(x), Property::String(y)) => Some(str_cmp(x.as_str(), y.as_str())),
            (Property::Date(x), Property::Date(y)) => Some(str_cmp(x.as_str(), y.as_str())),
            (Property::ListString(x), Property::ListString(y)) => Some(string_vec_cmp(x, y)),
            (Property::ListBytes(x), Property::ListBytes(y)) => Some(bytes_vec_cmp(x, y)),
            (Property::Null, Property::Null) => Some(Ordering::Equal),
            _ => {
                if self.is_numeric_type() && other.is_numeric_type() {
                    if self.is_float_type() || other.is_float_type() {
                        f64_cmp_bits(self.double_bits(), other.double_bits())
                    } else {
                        let x = self.long_value();
                        let y = other.long_value();
                        Some(
                            if x < y {
                                Ordering::Less
                            } else if x == y {
                                Ordering::Equal
                            } else {
                                Ordering::Greater
                            },
                        )
                    }
                } else if self.is_numeric_list_type() && other.is_numeric_list_type() {
                    if self.is_ele_float_type() || other.is_ele_float_type() {
                        let a = self.double_bits_vec();
                        let b = other.double_bits_vec();
                        f64_vec_cmp(&a, &b)
                    } else {
                        let a = self.long_seq_vec();
                        let b = other.long_seq_vec();
                        Some(i64_vec_cmp(&a, &b))
                    }
                } else {
                    None
                }
            },
        }
    }
}

impl PartialEq for Property {
    fn eq(&self, other: &Self) -> (r: bool) {
        matches!(self.compare(other), Some(Ordering::Equal))
    }
}

impl vstd::std_specs::cmp::PartialEqSpecImpl for Property {
    open spec fn obeys_eq_spec() -> bool {
        true
    }

    open spec fn eq_spec(&self, other: &Self) -> bool {
        self.spec_eq(other)
    }
}

impl PartialOrd for Property {
    fn partial_cmp(&self, other: &Self) -> (r: Option<Ordering>) {
        self.compare(other)
    }
}

impl vstd::std_specs::cmp::PartialOrdSpecImpl for Property {
    open spec fn obeys_partial_cmp_spec() -> bool {
        true
    }

    open spec fn partial_cmp_spec(&self, other: &Self) -> Option<Ordering> {
        self.spec_cmp(other)
    }
}

/// Whether `n` occurs as a contiguous run inside `h`.
pub open spec fn spec_bytes_contains(h: Seq<u8>, n: Seq<u8>) -> bool {
    exists|i: int| 0 <= i <= h.len() - n.len() && #[trigger] h.subrange(i, i + n.len()) == n
}

/// Whether `n` is a prefix of `h`.
pub open spec fn spec_bytes_prefix(h: Seq<u8>, n: Seq<u8>) -> bool {
    n.len() <= h.len() && h.subrange(0, n.len() as int) == n
}

/// Whether `n` is a suffix of `h`.
pub open spec fn spec_bytes_suffix(h: Seq<u8>, n: Seq<u8>) -> bool {
    n.len() <= h.len() && h.subrange(h.len() - n.len(), h.len() as int) == n
}

/// Substring search over byte strings.
pub fn bytes_contains(h: &[u8], n: &[u8]) -> (r: bool)
    ensures
        r == spec_bytes_contains(h@, n@),
{
    if n.len() > h.len() {
        return false;
    }
    let bound = h.len() - n.len();
    let mut i: usize = 0;
    while i <= bound
        invariant
            h@.len() <= usize::MAX,
            n@.len() <= h@.len(),
            bound == h@.len() - n@.len(),
            i <= bound + 1,
            forall|k: int| 0 <= k < i ==> #[trigger] h@.subrange(k, k + n@.len()) != n@,
        decreases bound + 1 - i,
    {
        let mut j: usize = 0;
        while j < n.len() && h[i + j] == n[j]
            invariant
                h@.len() <= usize::MAX,
                n@.len() <= h@.len(),
                i + n@.len() <= h@.len(),
                j <= n@.len(),
                forall|t: int| 0 <= t < j ==> h@[i + t] == n@[t],
            decreases n@.len() - j,
        {
            j = j + 1;
        }
        if j == n.len() {
            proof {
                assert(h@.subrange(i as int, i + n@.len()) =~= n@);
            }
            return true;
        }
        proof {
            assert(h@.subrange(i as int, i + n@.len())[j as int] == h@[i + j]);
            assert(h@.subrange(i as int, i + n@.len()) != n@);
        }
        i = i + 1;
    }
    false
}

/// Prefix test over byte strings.
pub fn bytes_starts_with(h: &[u8], n: &[u8]) -> (r: bool)
    ensures
        r == spec_bytes_prefix(h@, n@),
{
    if n.len() > h.len() {
        return false;
    }
    let mut j: usize = 0;
    while j < n.len()
        invariant
            n@.len() <= h@.len(),
            j <= n@.len(),
            forall|t: int| 0 <= t < j ==> h@[t] == n@[t],
        decreases n@.len() - j,
    {
        if h[j] != n[j] {
            proof {
                assert(h@.subrange(0, n@.len() as int)[j as int] == h@[j as int]);
            }
            return false;
        }
        j = j + 1;
    }
    proof {
        assert(h@.subrange(0, n@.len() as int) =~= n@);
    }
    true
}

/// Suffix test over byte strings.
pub fn bytes_ends_with(h: &[u8], n: &[u8]) -> (r: bool)
    ensures
        r == spec_bytes_suffix(h@, n@),
{
    if n.len() > h.len() {
        return false;
    }
    let off = h.len() - n.len();
    let mut j: usize = 0;
    while j < n.len()
        invariant
            h@.len() <= usize::MAX,
            n@.len() <= h@.len(),
            off == h@.len() - n@.len(),
            j <= n@.len(),
            forall|t: int| 0 <= t < j ==> h@[off + t] == n@[t],
        decreases n@.len() - j,
    {
        if h[off + j] != n[j] {
            proof {
                assert(h@.subrange(off as int, h@.len() as int)[j as int] == h@[off + j]);
            }
            return false;
        }
        j = j + 1;
    }
    proof {
        assert(h@.subrange(off as int, h@.len() as int) =~= n@);
    }
    true
}

fn find_i32(v: &Vec<i32>, x: i32) -> (r: bool)
    ensures
        r == v@.contains(x),
{
    let mut i: usize = 0;
    while i < v.len()
        invariant
            i <= v@.len(),
            forall|j: int| 0 <= j < i ==> v@[j] != x,
        decreases v@.len() - i,
    {
        if v[i] == x {
            return true;
        }
        i = i + 1;
    }
    false
}

fn find_i64(v: &Vec<i64>, x: i64) -> (r: bool)
    ensures
        r == v@.contains(x),
{
    let mut i: usize = 0;
    while i < v.len()
        invariant
            i <= v@.len(),
            forall|j: int| 0 <= j < i ==> v@[j] != x,
        decreases v@.len() - i,
    {
        if v[i] == x {
            return true;
        }
        i = i + 1;
    }
    false
}

fn find_f32_bits(v: &Vec<u32>, xb: u32) -> (r: bool)
    ensures
        r == exists|i: int|
            0 <= i < v@.len() && f64_eq(f32_to_f64_bits(v@[i]), f32_to_f64_bits(xb)),
{
    let wx = f32_widen(xb);
    let mut i: usize = 0;
    while i < v.len()
        invariant
            i <= v@.len(),
            wx == f32_to_f64_bits(xb),
            forall|j: int| 0 <= j < i ==> !f64_eq(f32_to_f64_bits(v@[j]), f32_to_f64_bits(xb)),
        decreases v@.len() - i,
    {
        match f64_cmp_bits(f32_widen(v[i]), wx) {
            Some(Ordering::Equal) => {
                return true;
            },
            _ => {},
        }
        i = i + 1;
    }
    false
}

fn find_f64_bits(v: &Vec<u64>, xb: u64) -> (r: bool)
    ensures
        r == exists|i: int| 0 <= i < v@.len() && f64_eq(v@[i], xb),
{
    let mut i: usize = 0;
    while i < v.len()
        invariant
            i <= v@.len(),
            forall|j: int| 0 <= j < i ==> !f64_eq(v@[j], xb),
        decreases v@.len() - i,
    {
        match f64_cmp_bits(v[i], xb) {
            Some(Ordering::Equal) => {
                return true;
            },
            _ => {},
        }
        i = i + 1;
    }
    false
}

fn find_string(v: &Vec<String>, x: &str) -> (r: bool)
    ensures
        r == exists|i: int| 0 <= i < v@.len() && v@[i]@ == x@,
{
    let mut i: usize = 0;
    while i < v.len()
        invariant
            i <= v@.len(),
            forall|j: int| 0 <= j < i ==> v@[j]@ != x@,
        decreases v@.len() - i,
    {
        if str_eq(v[i].as_str(), x) {
            return true;
        }
        i = i + 1;
    }
    false
}

fn find_bytes(v: &Vec<Vec<u8>>, x: &Vec<u8>) -> (r: bool)
    ensures
        r == exists|i: int| 0 <= i < v@.len() && v@[i]@ == x@,
{
    let mut i: usize = 0;
    while i < v.len()
        invariant
            i <= v@.len(),
            forall|j: int| 0 <= j < i ==> v@[j]@ != x@,
        decreases v@.len() - i,
    {
        if bytes_eq(v[i].as_slice(), x.as_slice()) {
            return true;
        }
        i = i + 1;
    }
    false
}

impl Property {
    /// The 32-bit value accepted by `get_int` (Short widens, Int passes).
    pub open spec fn spec_int_val(&self) -> i32 {
        match self {
            Property::Short(s) => *s as i32,
            Property::Int(i) => *i,
            _ => 0,
        }
    }

    /// What `contains` answers: lists look for an element equal to the
    /// operand under that list's element type (numeric lists widen the
    /// operand), a string looks for a substring; an operand the receiver
    /// cannot accept, or a receiver that is neither a list nor a string,
    /// is an error, never a silent false.
    pub open spec fn spec_contains(&self, rhs: &Property) -> Result<bool, GraphError> {
        match self {
            Property::ListBytes(list) => match rhs {
                Property::Bytes(x) => Ok(
                    exists|i: int| 0 <= i < list@.len() && list@[i]@ == x@,
                ),
                _ => Err(GraphError::InvalidCondition),
            },
            Property::ListInt(list) => match rhs {
                Property::Short(_) | Property::Int(_) => Ok(list@.contains(rhs.spec_int_val())),
                _ => Err(GraphError::InvalidCondition),
            },
            Property::ListLong(list) => if rhs.is_int_kind() {
                Ok(list@.contains(rhs.spec_long_val()))
            } else {
                Err(GraphError::InvalidCondition)
            },
            Property::ListFloat(list) => match rhs {
                Property::Short(_) | Property::Int(_) | Property::Float(_) => Ok(
                    exists|i: int|
                        0 <= i < list@.len() && f64_eq(
                            f32_to_f64_bits(list@[i]),
                            f32_to_f64_bits(rhs.spec_float_bits()),
                        ),
                ),
                _ => Err(GraphError::InvalidCondition),
            },
            Property::ListDouble(list) => if rhs.is_numeric() {
                Ok(exists|i: int| 0 <= i < list@.len() && f64_eq(list@[i], rhs.spec_double_bits()))
            } else {
                Err(GraphError::InvalidCondition)
            },
            Property::ListString(list) => match rhs {
                Property::String(x) => Ok(exists|i: int| 0 <= i < list@.len() && list@[i]@ == x@),
                _ => Err(GraphError::InvalidCondition),
            },
            Property::String(s) => match rhs {
                Property::String(x) => Ok(spec_bytes_contains(encode_utf8(s@), encode_utf8(x@))),
                _ => Err(GraphError::InvalidCondition),
            },
            _ => Err(GraphError::InvalidCondition),
        }
    }

    /// Membership and substring test; see `spec_contains`.
    pub fn contains(&self, rhs: &Property) -> (r: Result<bool, GraphError>)
        ensures
            r == self.spec_contains(rhs),
    {
        match self {
            Property::ListBytes(list) => match rhs {
                Property::Bytes(x) => Ok(find_bytes(list, x)),
                _ => Err(GraphError::InvalidCondition),
            },
            Property::ListInt(list) => match rhs {
                Property::Short(s) => Ok(find_i32(list, *s as i32)),
                Property::Int(i) => Ok(find_i32(list, *i)),
                _ => Err(GraphError::InvalidCondition),
            },
            Property::ListLong(list) => match rhs {
                Property::Short(s) => Ok(find_i64(list, *s as i64)),
                Property::Int(i) => Ok(find_i64(list, *i as i64)),
                Property::Long(l) => Ok(find_i64(list, *l)),
                _ => Err(GraphError::InvalidCondition),
            },
            Property::ListFloat(list) => match rhs {
                Property::Short(s) => Ok(find_f32_bits(list, i64_to_f32_bits(*s as i64))),
                Property::Int(i) => Ok(find_f32_bits(list, i64_to_f32_bits(*i as i64))),
                Property::Float(b) => Ok(find_f32_bits(list, *b)),
                _ => Err(GraphError::InvalidCondition),
            },
            Property::ListDouble(list) => if rhs.is_numeric_type() {
                Ok(find_f64_bits(list, rhs.double_bits()))
            } else {
                Err(GraphError::InvalidCondition)
            },
            Property::ListString(list) => match rhs {
                Property::String(x) => Ok(find_string(list, x.as_str())),
                _ => Err(GraphError::InvalidCondition),
            },
            Property::String(s) => match rhs {
                Property::String(x) => Ok(bytes_contains(s.as_str().as_bytes(), x.as_str().as_bytes())),
                _ => Err(GraphError::InvalidCondition),
            },
            _ => Err(GraphError::InvalidCondition),
        }
    }

    /// Prefix test; only string receivers and operands are accepted.
    pub fn start_with(&self, rhs: &Property) -> (r: Result<bool, GraphError>)
        ensures
            match (self, rhs) {
                (Property::String(s), Property::String(x)) => r == Ok::<bool, GraphError>(
                    spec_bytes_prefix(encode_utf8(s@), encode_utf8(x@)),
                ),
                _ => r == Err::<bool, GraphError>(GraphError::InvalidCondition),
            },
    {
        match (self, rhs) {
            (Property::String(s), Property::String(x)) => Ok(
                bytes_starts_with(s.as_str().as_bytes(), x.as_str().as_bytes()),
            ),
            _ => Err(GraphError::InvalidCondition),
        }
    }

    /// Suffix test; only string receivers and operands are accepted.
    pub fn end_with(&self, rhs: &Property) -> (r: Result<bool, GraphError>)
        ensures
            match (self, rhs) {
                (Property::String(s), Property::String(x)) => r == Ok::<bool, GraphError>(
                    spec_bytes_suffix(encode_utf8(s@), encode_utf8(x@)),
                ),
                _ => r == Err::<bool, GraphError>(GraphError::InvalidCondition),
            },
    {
        match (self, rhs) {
            (Property::String(s), Property::String(x)) => Ok(
                bytes_ends_with(s.as_str().as_bytes(), x.as_str().as_bytes()),
            ),
            _ => Err(GraphError::InvalidCondition),
        }
    }

    /// Whether this is the null property.
    pub fn is_null(&self) -> (r: bool)
        ensures
            r == (self matches Property::Null),
    {
        match self {
            Property::Null => true,
            _ => false,
        }
    }

    /// The boolean value; an error on any other variant.
    pub fn get_bool(&self) -> (r: Result<bool, String>)
        ensures
            match r {
                Ok(v) => self matches Property::Bool(b) && v == b,
                Err(_) => !(self matches Property::Bool(_)),
            },
    {
        match self {
            Property::Bool(b) => Ok(*b),
            _ => Err("get bool value fail from property".to_owned()),
        }
    }

    /// The 32-bit integer value; Short widens, Int passes, all else errs.
    pub fn get_int(&self) -> (r: Result<i32, String>)
        ensures
            match r {
                Ok(v) => (self matches Property::Short(_) || self matches Property::Int(_)) && v
                    == self.spec_int_val(),
                Err(_) => !(self matches Property::Short(_) || self matches Property::Int(_)),
            },
    {
        match self {
            Property::Short(s) => Ok(*s as i32),
            Property::Int(i) => Ok(*i),
            _ => Err("get int value fail from property".to_owned()),
        }
    }

    /// The 64-bit integer value; Short and Int widen, Long passes.
    pub fn get_long(&self) -> (r: Result<i64, String>)
        ensures
            match r {
                Ok(v) => self.is_int_kind() && v == self.spec_long_val(),
                Err(_) => !self.is_int_kind(),
            },
    {
        match self {
            Property::Short(s) => Ok(*s as i64),
            Property::Int(i) => Ok(*i as i64),
            Property::Long(l) => Ok(*l),
            _ => Err("get long value fail from property".to_owned()),
        }
    }

    /// The single bit pattern; Short and Int round to single precision,
    /// Float passes.
    pub fn get_float(&self) -> (r: Result<u32, String>)
        ensures
            match r {
                Ok(v) => (self matches Property::Short(_) || self matches Property::Int(_) || self
                    matches Property::Float(_)) && v == self.spec_float_bits(),
                Err(_) => !(self matches Property::Short(_) || self matches Property::Int(_)
                    || self matches Property::Float(_)),
            },
    {
        match self {
            Property::Short(s) => Ok(i64_to_f32_bits(*s as i64)),
            Property::Int(i) => Ok(i64_to_f32_bits(*i as i64)),
            Property::Float(b) => Ok(*b),
            _ => Err("get float value fail from property".to_owned()),
        }
    }

    /// The double bit pattern of any numeric variant, after widening.
    pub fn get_double(&self) -> (r: Result<u64, String>)
        ensures
            match r {
                Ok(v) => self.is_numeric() && v == self.spec_double_bits(),
                Err(_) => !self.is_numeric(),
            },
    {
        match self {
            Property::Short(s) => Ok(i64_to_f64_bits(*s as i64)),
            Property::Int(i) => Ok(i64_to_f64_bits(*i as i64)),
            Property::Long(l) => Ok(i64_to_f64_bits(*l)),
            Property::Float(b) => Ok(f32_widen(*b)),
            Property::Double(b) => Ok(*b),
            _ => Err("get double value fail from property".to_owned()),
        }
    }

    /// The borrowed text of a string property.
    pub fn get_string(&self) -> (r: Result<&String, String>)
        ensures
            match r {
                Ok(s) => self matches Property::String(t) && s@ == t@,
                Err(_) => !(self matches Property::String(_)),
            },
    {
        match self {
            Property::String(s) => Ok(s),
            _ => Err("get string ref value fail from property".to_owned()),
        }
    }

    /// The borrowed contents of a bytes property.
    pub fn get_bytes(&self) -> (r: Result<&Vec<u8>, String>)
        ensures
            match r {
                Ok(b) => self matches Property::Bytes(v) && b@ == v@,
                Err(_) => !(self matches Property::Bytes(_)),
            },
    {
        match self {
            Property::Bytes(b) => Ok(b),
            _ => Err("get bytes fail from property".to_owned()),
        }
    }

    /// The borrowed elements of an int-list property.
    pub fn get_list(&self) -> (r: Result<&Vec<i32>, String>)
        ensures
            match r {
                Ok(v) => self matches Property::ListInt(l) && v@ == l@,
                Err(_) => !(self matches Property::ListInt(_)),
            },
    {
        match self {
            Property::ListInt(l) => Ok(l),
            _ => Err("get list fail from property".to_owned()),
        }
    }

    /// An int or long list copied up to 64-bit elements.
    pub fn cast_long_list(&self) -> (r: Result<Vec<i64>, String>)
        ensures
            match r {
                Ok(v) => self.is_int_list_kind() && v@ == self.spec_long_seq(),
                Err(_) => !self.is_int_list_kind(),
            },
    {
        match self {
            Property::ListInt(_) | Property::ListLong(_) => Ok(self.long_seq_vec()),
            _ => Err("get list fail from property".to_owned()),
        }
    }

    /// The borrowed elements of a long-list property.
    pub fn get_long_list(&self) -> (r: Result<&Vec<i64>, String>)
        ensures
            match r {
                Ok(v) => self matches Property::ListLong(l) && v@ == l@,
                Err(_) => !(self matches Property::ListLong(_)),
            },
    {
        match self {
            Property::ListLong(l) => Ok(l),
            _ => Err("get long list fail from property".to_owned()),
        }
    }

    /// The borrowed single patterns of a float-list property.
    pub fn get_float_list(&self) -> (r: Result<&Vec<u32>, String>)
        ensures
            match r {
                Ok(v) => self matches Property::ListFloat(l) && v@ == l@,
                Err(_) => !(self matches Property::ListFloat(_)),
            },
    {
        match self {
            Property::ListFloat(l) => Ok(l),
            _ => Err("get float list fail from property".to_owned()),
        }
    }

    /// Any numeric list widened to double patterns.
    pub fn cast_double_list(&self) -> (r: Result<Vec<u64>, String>)
        ensures
            match r {
                Ok(v) => self.is_numeric_list() && v@ == self.spec_double_bits_seq(),
                Err(_) => !self.is_numeric_list(),
            },
    {
        if self.is_numeric_list_type() {
            Ok(self.double_bits_vec())
        } else {
            Err("get double list fail from property".to_owned())
        }
    }

    /// The borrowed double patterns of a double-list property.
    pub fn get_double_list(&self) -> (r: Result<&Vec<u64>, String>)
        ensures
            match r {
                Ok(v) => self matches Property::ListDouble(l) && v@ == l@,
                Err(_) => !(self matches Property::ListDouble(_)),
            },
    {
        match self {
            Property::ListDouble(l) => Ok(l),
            _ => Err("get double list fail from property".to_owned()),
        }
    }

    /// The borrowed elements of a string-list property.
    pub fn get_string_list(&self) -> (r: Result<&Vec<String>, String>)
        ensures
            match r {
                Ok(v) => self matches Property::ListString(l) && v@ == l@,
                Err(_) => !(self matches Property::ListString(_)),
            },
    {
        match self {
            Property::ListString(l) => Ok(l),
            _ => Err("get string list fail from property".to_owned()),
        }
    }

    /// The borrowed elements of a bytes-list property.
    pub fn get_bytes_list(&self) -> (r: Result<&Vec<Vec<u8>>, String>)
        ensures
            match r {
                Ok(v) => self matches Property::ListBytes(l) && v@ == l@,
                Err(_) => !(self matches Property::ListBytes(_)),
            },
    {
        match self {
            Property::ListBytes(l) => Ok(l),
            _ => Err("get bytes list fail from property".to_owned()),
        }
    }
}

/// The unsigned image of a signed byte, as stored in a Char property.
pub open spec fn i8_as_u8(x: i8) -> u8 {
    if x >= 0 {
        x as u8
    } else {
        (x + 0x100) as u8
    }
}

/// How a primitive scalar becomes a stored property: bytes become Char,
/// 32-bit values Int (unsigned ones wrapping), 64-bit values Long (unsigned
/// ones wrapping), floats keep their width, and a 128-bit value too large
/// for Long is rejected.
pub open spec fn spec_from_primitive(p: Primitives) -> Result<Property, GraphError> {
    match p {
        Primitives::Byte(v) => Ok(Property::Char(i8_as_u8(v))),
        Primitives::Integer(v) => Ok(Property::Int(v)),
        Primitives::Long(v) => Ok(Property::Long(v)),
        Primitives::ULLong(v) => if v > 0x7FFF_FFFF_FFFF_FFFF {
            Err(GraphError::InvalidCondition)
        } else {
            Ok(Property::Long(v as i64))
        },
        Primitives::Float(b) => Ok(Property::Float(b)),
        Primitives::Double(b) => Ok(Property::Double(b)),
        Primitives::UInteger(v) => Ok(Property::Int(u32_as_i32(v))),
        Primitives::ULong(v) => Ok(Property::Long(u64_as_i64(v))),
    }
}

/// Whether a homogeneous list property can be built from these scalars:
/// the first element picks the list type, and every element must then
/// convert to it.
pub open spec fn objects_list_ok(v: Seq<Object>) -> bool {
    v.len() > 0 && match v[0].spec_raw_type() {
        RawType::Blob => forall|i: int| 0 <= i < v.len() ==> #[trigger] v[i] matches Object::Blob(
            _,
        ),
        RawType::String => forall|i: int|
            0 <= i < v.len() ==> #[trigger] v[i] matches Object::String(_),
        RawType::Integer => forall|i: int|
            0 <= i < v.len() ==> (#[trigger] v[i].spec_as_i32()) is Ok,
        RawType::Long | RawType::ULLong => forall|i: int|
            0 <= i < v.len() ==> (#[trigger] v[i].spec_as_i64()) is Ok,
        RawType::Float => forall|i: int|
            0 <= i < v.len() ==> (#[trigger] v[i].spec_as_f64_bits()) is Ok,
        _ => false,
    }
}

/// What the list built from these scalars holds, element by element.
pub open spec fn list_from_objects_matches(v: Seq<Object>, p: Property) -> bool {
    match v[0].spec_raw_type() {
        RawType::Blob => p matches Property::ListBytes(out) && out@.len() == v.len() && (forall|
            i: int,
        |
            0 <= i < v.len() ==> (#[trigger] v[i] matches Object::Blob(bb) && out@[i]@ == bb@)),
        RawType::String => p matches Property::ListString(out) && out@.len() == v.len() && (forall|
            i: int,
        |
            0 <= i < v.len() ==> (#[trigger] v[i] matches Object::String(t) && out@[i]@ == t@)),
        RawType::Integer => p matches Property::ListInt(out) && out@.len() == v.len() && (forall|
            i: int,
        |
            0 <= i < v.len() ==> #[trigger] v[i].spec_as_i32() == Ok::<i32, crate::object::CastError>(
                out@[i],
            )),
        RawType::Long | RawType::ULLong => p matches Property::ListLong(out) && out@.len()
            == v.len() && (forall|i: int|
            0 <= i < v.len() ==> #[trigger] v[i].spec_as_i64() == Ok::<i64, crate::object::CastError>(
                out@[i],
            )),
        RawType::Float => p matches Property::ListDouble(out) && out@.len() == v.len() && (forall|
            i: int,
        |
            0 <= i < v.len() ==> #[trigger] v[i].spec_as_f64_bits() == Ok::<
                u64,
                crate::object::CastError,
            >(out@[i])),
        _ => false,
    }
}

/// Build a homogeneous list property from scalars; the first element's kind
/// decides the list type, and any element of another kind is an error, as
/// is an empty list.
pub fn objects_to_list_property(v: &Vec<Object>) -> (r: Result<Property, GraphError>)
    ensures
        match r {
            Ok(p) => objects_list_ok(v@) && list_from_objects_matches(v@, p),
            Err(_) => !objects_list_ok(v@),
        },
{
    if v.len() == 0 {
        return Err(GraphError::InvalidCondition);
    }
    match v[0].raw_type() {
        RawType::Blob => {
            let mut out: Vec<Vec<u8>> = Vec::new();
            let mut i: usize = 0;
            while i < v.len()
                invariant
                    v@.len() > 0,
                    v@[0].spec_raw_type() == RawType::Blob,
                    i <= v@.len(),
                    out@.len() == i,
                    forall|j: int|
                        0 <= j < i ==> (#[trigger] v@[j] matches Object::Blob(bb) && out@[j]@
                            == bb@),
                decreases v@.len() - i,
            {
                match v[i].as_bytes() {
                    Ok(bb) => {
                        let mut copy: Vec<u8> = Vec::new();
                        let mut k: usize = 0;
                        while k < bb.len()
                            invariant
                                k <= bb@.len(),
                                copy@ == bb@.subrange(0, k as int),
                            decreases bb@.len() - k,
                        {
                            copy.push(bb[k]);
                            k = k + 1;
                            proof {
                                assert(bb@.subrange(0, k as int) =~= bb@.subrange(0, k - 1) + seq![
                                    bb@[k - 1],
                                ]);
                            }
                        }
                        proof {
                            assert(bb@.subrange(0, bb@.len() as int) =~= bb@);
                        }
                        out.push(copy);
                    },
                    Err(_) => {
                        return Err(GraphError::InvalidCondition);
                    },
                }
                i = i + 1;
            }
            Ok(Property::ListBytes(out))
        },
        RawType::String => {
            let mut out: Vec<String> = Vec::new();
            let mut i: usize = 0;
            while i < v.len()
                invariant
                    v@.len() > 0,
                    v@[0].spec_raw_type() == RawType::String,
                    i <= v@.len(),
                    out@.len() == i,
                    forall|j: int|
                        0 <= j < i ==> (#[trigger] v@[j] matches Object::String(t) && out@[j]@
                            == t@),
                decreases v@.len() - i,
            {
                match v[i].as_str() {
                    Ok(s) => {
                        out.push(s.as_str().to_owned());
                    },
                    Err(_) => {
                        return Err(GraphError::InvalidCondition);
                    },
                }
                i = i + 1;
            }
            Ok(Property::ListString(out))
        },
        RawType::Integer => {
            let mut out: Vec<i32> = Vec::new();
            let mut i: usize = 0;
            while i < v.len()
                invariant
                    v@.len() > 0,
                    v@[0].spec_raw_type() == RawType::Integer,
                    i <= v@.len(),
                    out@.len() == i,
                    forall|j: int|
                        0 <= j < i ==> #[trigger] v@[j].spec_as_i32() == Ok::<
                            i32,
                            crate::object::CastError,
                        >(out@[j]),
                decreases v@.len() - i,
            {
                match v[i].as_i32() {
                    Ok(x) => {
                        out.push(x);
                    },
                    Err(_) => {
                        return Err(GraphError::InvalidCondition);
                    },
                }
                i = i + 1;
            }
            Ok(Property::ListInt(out))
        },
        RawType::Long | RawType::ULLong => {
            let mut out: Vec<i64> = Vec::new();
            let mut i: usize = 0;
            while i < v.len()
                invariant
                    v@.len() > 0,
                    v@[0].spec_raw_type() == RawType::Long || v@[0].spec_raw_type()
                        == RawType::ULLong,
                    i <= v@.len(),
                    out@.len() == i,
                    forall|j: int|
                        0 <= j < i ==> #[trigger] v@[j].spec_as_i64() == Ok::<
                            i64,
                            crate::object::CastError,
                        >(out@[j]),
                decreases v@.len() - i,
            {
                match v[i].as_i64() {
                    Ok(x) => {
                        out.push(x);
                    },
                    Err(_) => {
                        return Err(GraphError::InvalidCondition);
                    },
                }
                i = i + 1;
            }
            Ok(Property::ListLong(out))
        },
        RawType::Float => {
            let mut out: Vec<u64> = Vec::new();
            let mut i: usize = 0;
            while i < v.len()
                invariant
                    v@.len() > 0,
                    v@[0].spec_raw_type() == RawType::Float,
                    i <= v@.len(),
                    out@.len() == i,
                    forall|j: int|
                        0 <= j < i ==> #[trigger] v@[j].spec_as_f64_bits() == Ok::<
                            u64,
                            crate::object::CastError,
                        >(out@[j]),
                decreases v@.len() - i,
            {
                match v[i].as_f64_bits() {
                    Ok(x) => {
                        out.push(x);
                    },
                    Err(_) => {
                        return Err(GraphError::InvalidCondition);
                    },
                }
                i = i + 1;
            }
            Ok(Property::ListDouble(out))
        },
        _ => Err(GraphError::InvalidCondition),
    }
}

impl Property {
    /// Build a property from a primitive scalar; see `spec_from_primitive`.
    pub fn from_primitive(p: &Primitives) -> (r: Result<Property, GraphError>)
        ensures
            r == spec_from_primitive(*p),
    {
        match p {
            Primitives::Byte(v) => {
                let u: u8 = if *v >= 0 {
                    *v as u8
                } else {
                    ((*v as i16) + 0x100) as u8
                };
                Ok(Property::Char(u))
            },
            Primitives::Integer(v) => Ok(Property::Int(*v)),
            Primitives::Long(v) => Ok(Property::Long(*v)),
            Primitives::ULLong(v) => {
                if *v > 0x7FFF_FFFF_FFFF_FFFF {
                    Err(GraphError::InvalidCondition)
                } else {
                    Ok(Property::Long(*v as i64))
                }
            },
            Primitives::Float(b) => Ok(Property::Float(*b)),
            Primitives::Double(b) => Ok(Property::Double(*b)),
            Primitives::UInteger(v) => Ok(Property::Int(u32_to_i32(*v))),
            Primitives::ULong(v) => Ok(Property::Long(u64_to_i64(*v))),
        }
    }

    /// Build a property from a borrowed generic scalar: primitives convert
    /// as above, text and blobs are copied, a vector becomes a homogeneous
    /// list, and map or none scalars are rejected.
    pub fn from_borrow_object(bobj: &Object) -> (r: Result<Property, GraphError>)
        ensures
            match bobj {
                Object::Primitive(p) => r == spec_from_primitive(*p),
                Object::String(s) => r matches Ok(p) && p matches Property::String(t) && t@ == s@,
                Object::Blob(bb) => r matches Ok(p) && p matches Property::Bytes(w) && w@ == bb@,
                Object::Vector(v) => match r {
                    Ok(p) => objects_list_ok(v@) && list_from_objects_matches(v@, p),
                    Err(_) => !objects_list_ok(v@),
                },
                _ => r is Err,
            },
    {
        match bobj {
            Object::Primitive(p) => Property::from_primitive(p),
            Object::String(s) => Ok(Property::String(s.as_str().to_owned())),
            Object::Blob(bb) => {
                let mut copy: Vec<u8> = Vec::new();
                let mut k: usize = 0;
                while k < bb.len()
                    invariant
                        bobj matches Object::Blob(b2) && b2 == bb,
                        k <= bb@.len(),
                        copy@ == bb@.subrange(0, k as int),
                    decreases bb@.len() - k,
                {
                    copy.push(bb[k]);
                    k = k + 1;
                    proof {
                        assert(bb@.subrange(0, k as int) =~= bb@.subrange(0, k - 1) + seq![
                            bb@[k - 1],
                        ]);
                    }
                }
                proof {
                    assert(bb@.subrange(0, bb@.len() as int) =~= bb@);
                }
                Ok(Property::Bytes(copy))
            },
            Object::Vector(v) => objects_to_list_property(v),
            _ => Err(GraphError::InvalidCondition),
        }
    }

    /// Whether this is one of the list variants.
    pub fn is_list_type(&self) -> (r: bool)
        ensures
            r == (self.is_numeric_list() || self matches Property::ListString(_) || self
                matches Property::ListBytes(_)),
    {
        match self {
            Property::ListInt(_) | Property::ListLong(_) | Property::ListFloat(_)
                | Property::ListDouble(_) | Property::ListString(_) | Property::ListBytes(_) => true,
            _ => false,
        }
    }

    /// The element type of a list variant; an error for anything else.
    pub fn get_list_ele_type(&self) -> (r: Result<DataType, String>)
        ensures
            match r {
                Ok(dt) => (self matches Property::ListInt(_) && dt == DataType::Int) || (self
                    matches Property::ListLong(_) && dt == DataType::Long) || (self
                    matches Property::ListFloat(_) && dt == DataType::Float) || (self
                    matches Property::ListDouble(_) && dt == DataType::Double) || (self
                    matches Property::ListString(_) && dt == DataType::String) || (self
                    matches Property::ListBytes(_) && dt == DataType::Bytes),
                Err(_) => !(self.is_numeric_list() || self matches Property::ListString(_) || self
                    matches Property::ListBytes(_)),
            },
    {
        match self {
            Property::ListInt(_) => Ok(DataType::Int),
            Property::ListLong(_) => Ok(DataType::Long),
            Property::ListFloat(_) => Ok(DataType::Float),
            Property::ListDouble(_) => Ok(DataType::Double),
            Property::ListString(_) => Ok(DataType::String),
            Property::ListBytes(_) => Ok(DataType::Bytes),
            _ => Err("not a list type property".to_owned()),
        }
    }
}

} // verus!
