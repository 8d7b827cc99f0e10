//! Text parsing of schema-typed property values, and the debug renderer
//! that turns transport-layout bytes back into human-readable text.
//!
//! Float-typed columns are the one gap: parsing or printing a float needs
//! floating-point arithmetic, which cannot stand in verified code, so those
//! schema types are excluded here and completed by the thin unverified
//! layer around the library.

use vstd::prelude::*;

use crate::be::{u16_as_i16, u16_of_be, u32_as_i32, u32_of_be, u32_to_i32, u64_as_i64, u64_of_be};
use crate::be::{be_get_u16, be_get_u32, be_get_u64, u16_to_i16, u64_to_i64};
use crate::property::{DataType, Property};
use crate::text::{
    bytes_to_string, dec_i64, lemma_ascii_valid_utf8, lemma_dec_digits_ascii, parse_i64_bytes,
    push_dec_i64, spec_parse_i64,
};
use vstd::string::StringSliceAdditionalSpecFns;
use vstd::utf8::{decode_utf8, encode_scalar, encode_utf8, valid_utf8};

verus! {

/// The position of the first comma, or the length when there is none.
pub open spec fn first_comma(s: Seq<u8>) -> int
    decreases s.len(),
{
    if s.len() == 0 {
        0
    } else if s[0] == 44 {
        0
    } else {
        1 + first_comma(s.drop_first())
    }
}

pub proof fn lemma_first_comma_bounds(s: Seq<u8>)
    ensures
        0 <= first_comma(s) <= s.len(),
        forall|j: int| 0 <= j < first_comma(s) ==> s[j] != 44,
        first_comma(s) < s.len() ==> s[first_comma(s)] == 44,
    decreases s.len(),
{
    if s.len() > 0 && s[0] != 44 {
        lemma_first_comma_bounds(s.drop_first());
        assert forall|j: int| 0 <= j < first_comma(s) implies s[j] != 44 by {
            if j > 0 {
                assert(s.drop_first()[j - 1] == s[j]);
            }
        }
        if first_comma(s) < s.len() {
            assert(s.drop_first()[first_comma(s.drop_first())] == s[first_comma(s)]);
        }
    }
}

/// A scan position with no comma before it pins the first comma.
pub proof fn lemma_first_comma_at(s: Seq<u8>, c: int)
    requires
        0 <= c <= s.len(),
        forall|j: int| 0 <= j < c ==> s[j] != 44,
        c < s.len() ==> s[c] == 44,
    ensures
        first_comma(s) == c,
    decreases s.len(),
{
    if s.len() > 0 && c > 0 {
        assert(s[0] != 44);
        lemma_first_comma_at(s.drop_first(), c - 1);
    }
}

/// The comma-separated chunks of a byte string (an empty trailing chunk
/// included, as splitting does).
pub open spec fn split_commas(s: Seq<u8>) -> Seq<Seq<u8>>
    decreases s.len(),
{
    let c = first_comma(s);
    if c == s.len() || !(0 <= c < s.len()) {
        seq![s]
    } else {
        seq![s.subrange(0, c)] + split_commas(s.subrange(c + 1, s.len() as int))
    }
}

pub proof fn lemma_split_commas_len(s: Seq<u8>)
    ensures
        split_commas(s).len() >= 1,
    decreases s.len(),
{
    lemma_first_comma_bounds(s);
}

/// Whether a chunk parses as a decimal inside the given bounds.
pub open spec fn chunk_fits(c: Seq<u8>, lo: int, hi: int) -> bool {
    match spec_parse_i64(c) {
        Some(v) => lo <= v <= hi,
        None => false,
    }
}

/// The schema types handled here: everything but the float-typed columns,
/// which need floating-point arithmetic and are completed by the layer
/// around the library.
pub open spec fn parse_input_ok(s: Seq<u8>, dt: DataType) -> bool {
    match dt {
        DataType::Float | DataType::Double | DataType::ListFloat | DataType::ListDouble => false,
        _ => true,
    }
}

/// Whether every comma-separated chunk parses as a decimal inside the
/// given bounds.
pub open spec fn list_chunks_fit(s: Seq<u8>, lo: int, hi: int) -> bool {
    forall|j: int|
        0 <= j < split_commas(s).len() ==> chunk_fits(#[trigger] split_commas(s)[j], lo, hi)
}

fn copy_byte_range(b: &[u8], from: usize, to: usize) -> (r: Vec<u8>)
    requires
        from <= to <= b@.len(),
    ensures
        r@ == b@.subrange(from as int, to as int),
{
    let mut out: Vec<u8> = Vec::new();
    let mut i: usize = from;
    while i < to
        invariant
            from <= i <= to <= b@.len(),
            out@ == b@.subrange(from as int, i as int),
        decreases to - i,
    {
        out.push(b[i]);
        i = i + 1;
        proof {
            assert(b@.subrange(from as int, i as int) =~= b@.subrange(from as int, i - 1) + seq![
                b@[i - 1],
            ]);
        }
    }
    out
}

/// Build a property from text and its declared schema type. A literal
/// that does not parse — a scalar, or any chunk of a numeric list — yields
/// the `Unknown` sentinel rather than failing the whole record.
pub fn parse_property(data: &str, data_type: DataType) -> (r: Property)
    requires
        parse_input_ok(data.spec_bytes(), data_type),
    ensures
        (match data_type {
            DataType::Bool => r == (if data.spec_bytes() =~= seq![116u8, 114u8, 117u8, 101u8] {
                Property::Bool(true)
            } else if data.spec_bytes() =~= seq![102u8, 97u8, 108u8, 115u8, 101u8] {
                Property::Bool(false)
            } else {
                Property::Unknown
            }),
            DataType::Char => r == (if data.spec_bytes().len() == 1 {
                Property::Char(data.spec_bytes()[0])
            } else {
                Property::Unknown
            }),
            DataType::Short => r == (match spec_parse_i64(data.spec_bytes()) {
                Some(v) => if -32768 <= v <= 32767 {
                    Property::Short(v as i16)
                } else {
                    Property::Unknown
                },
                None => Property::Unknown,
            }),
            DataType::Int => r == (match spec_parse_i64(data.spec_bytes()) {
                Some(v) => if -0x8000_0000 <= v <= 0x7FFF_FFFF {
                    Property::Int(v as i32)
                } else {
                    Property::Unknown
                },
                None => Property::Unknown,
            }),
            DataType::Long => r == (match spec_parse_i64(data.spec_bytes()) {
                Some(v) => Property::Long(v),
                None => Property::Unknown,
            }),
            DataType::String => r matches Property::String(s) && s@ == data@,
            DataType::Date => r matches Property::Date(s) && s@ == data@,
            DataType::Bytes => r matches Property::Bytes(v) && v@ == data.spec_bytes(),
            DataType::ListInt => if data.spec_bytes().len() == 0 {
                r matches Property::ListInt(v) && v@.len() == 0
            } else if list_chunks_fit(data.spec_bytes(), -0x8000_0000, 0x7FFF_FFFF) {
                r matches Property::ListInt(v) && v@.len() == split_commas(
                    data.spec_bytes(),
                ).len() && (forall|j: int|
                    0 <= j < v@.len() ==> spec_parse_i64(
                        #[trigger] split_commas(data.spec_bytes())[j],
                    ) == Some(v@[j] as i64))
            } else {
                r == Property::Unknown
            },
            DataType::ListLong => if data.spec_bytes().len() == 0 {
                r matches Property::ListLong(v) && v@.len() == 0
            } else if list_chunks_fit(
                data.spec_bytes(),
                -0x8000_0000_0000_0000,
                0x7FFF_FFFF_FFFF_FFFF,
            ) {
                r matches Property::ListLong(v) && v@.len() == split_commas(
                    data.spec_bytes(),
                ).len() && (forall|j: int|
                    0 <= j < v@.len() ==> spec_parse_i64(
                        #[trigger] split_commas(data.spec_bytes())[j],
                    ) == Some(v@[j]))
            } else {
                r == Property::Unknown
            },
            DataType::ListString => if data.spec_bytes().len() == 0 {
                r matches Property::ListString(v) && v@.len() == 0
            } else {
                (r matches Property::ListString(v) && v@.len() == split_commas(
                    data.spec_bytes(),
                ).len() && (forall|j: int|
                    0 <= j < v@.len() ==> encode_utf8(#[trigger] v@[j]@) == split_commas(
                        data.spec_bytes(),
                    )[j])) || (r == Property::Unknown && !(forall|j: int|
                    0 <= j < split_commas(data.spec_bytes()).len() ==> valid_utf8(
                        #[trigger] split_commas(data.spec_bytes())[j],
                    )))
            },
            _ => r == Property::Unknown,
        }),
{
    let b = data.as_bytes();
    match data_type {
        DataType::Bool => {
            let t: [u8; 4] = [116, 114, 117, 101];
            let f: [u8; 5] = [102, 97, 108, 115, 101];
            if crate::property::bytes_eq(b, t.as_slice()) {
                proof {
                    assert(t@ =~= seq![116u8, 114u8, 117u8, 101u8]);
                }
                Property::Bool(true)
            } else if crate::property::bytes_eq(b, f.as_slice()) {
                proof {
                    assert(t@ =~= seq![116u8, 114u8, 117u8, 101u8]);
                    assert(f@ =~= seq![102u8, 97u8, 108u8, 115u8, 101u8]);
                }
                Property::Bool(false)
            } else {
                proof {
                    assert(t@ =~= seq![116u8, 114u8, 117u8, 101u8]);
                    assert(f@ =~= seq![102u8, 97u8, 108u8, 115u8, 101u8]);
                }
                Property::Unknown
            }
        },
        DataType::Char => {
            if b.len() == 1 {
                Property::Char(b[0])
            } else {
                Property::Unknown
            }
        },
        DataType::Short => {
            match parse_i64_bytes(b) {
                Some(v) => {
                    if -32768 <= v && v <= 32767 {
                        Property::Short(v as i16)
                    } else {
                        Property::Unknown
                    }
                },
                None => Property::Unknown,
            }
        },
        DataType::Int => {
            match parse_i64_bytes(b) {
                Some(v) => {
                    if -0x8000_0000 <= v && v <= 0x7FFF_FFFF {
                        Property::Int(v as i32)
                    } else {
                        Property::Unknown
                    }
                },
                None => Property::Unknown,
            }
        },
        DataType::Long => {
            match parse_i64_bytes(b) {
                Some(v) => Property::Long(v),
                None => Property::Unknown,
            }
        },
        DataType::String => Property::String(data.to_owned()),
        DataType::Date => Property::Date(data.to_owned()),
        DataType::Bytes => {
            let v = copy_byte_range(b, 0, b.len());
            proof {
                assert(b@.subrange(0, b@.len() as int) =~= b@);
            }
            Property::Bytes(v)
        },
        DataType::ListInt => {
            if b.len() == 0 {
                Property::ListInt(Vec::new())
            } else {
                let mut out: Vec<i32> = Vec::new();
                let ghost full = b@;
                let ghost chunks = split_commas(full);
                let mut start: usize = 0;
                let mut done: bool = false;
                let mut bad: bool = false;
                proof {
                    assert(full.subrange(0, full.len() as int) =~= full);
                    assert(chunks.subrange(0, 0) + split_commas(full) =~= split_commas(full));
                }
                while !done
                    invariant
                        full == b@,
                        chunks == split_commas(full),
                        full.len() >= 1,
                        start <= full.len(),
                        out@.len() <= chunks.len(),
                        !done ==> !bad,
                        !done ==> chunks =~= chunks.subrange(0, out@.len() as int) + split_commas(
                            full.subrange(start as int, full.len() as int),
                        ),
                        done ==> bad || out@.len() == chunks.len(),
                        bad ==> !list_chunks_fit(full, -0x8000_0000, 0x7FFF_FFFF),
                        forall|j: int|
                            0 <= j < out@.len() ==> spec_parse_i64(#[trigger] chunks[j]) == Some(
                                out@[j] as i64,
                            ),
                    decreases full.len() - start, (if done {
                        0int
                    } else {
                        1int
                    }),
                {
                    let ghost rest = full.subrange(start as int, full.len() as int);
                    let mut end: usize = start;
                    while end < b.len() && b[end] != 44
                        invariant
                            full == b@,
                            start <= end <= full.len(),
                            forall|j: int| start <= j < end ==> full[j] != 44,
                        decreases full.len() - end,
                    {
                        end = end + 1;
                    }
                    proof {
                        lemma_first_comma_at(rest, end - start);
                        lemma_split_commas_len(full.subrange(start as int, full.len() as int));
                    }
                    let chunk = copy_byte_range(b, start, end);
                    proof {
                        assert(rest.subrange(0, end - start) =~= full.subrange(
                            start as int,
                            end as int,
                        ));
                        assert(chunks[out@.len() as int] == chunk@);
                    }
                    let mut ok: bool = false;
                    match parse_i64_bytes(chunk.as_slice()) {
                        Some(v) => {
                            if -0x8000_0000 <= v && v <= 0x7FFF_FFFF {
                                out.push(v as i32);
                                ok = true;
                            }
                        },
                        None => {},
                    }
                    if !ok {
                        proof {
                            assert(!chunk_fits(
                                chunks[out@.len() as int],
                                -0x8000_0000,
                                0x7FFF_FFFF,
                            ));
                            assert(!list_chunks_fit(full, -0x8000_0000, 0x7FFF_FFFF));
                        }
                        bad = true;
                        done = true;
                    } else if end == b.len() {
                        proof {
                            assert(split_commas(rest) =~= seq![rest]);
                            assert(chunks =~= chunks.subrange(0, out@.len() as int));
                        }
                        done = true;
                    } else {
                        proof {
                            assert(rest[end - start] == 44);
                            assert(split_commas(rest) =~= seq![rest.subrange(0, end - start)]
                                + split_commas(rest.subrange(end - start + 1, rest.len() as int)));
                            assert(rest.subrange(end - start + 1, rest.len() as int) =~= full
                                .subrange(end + 1, full.len() as int));
                            assert(chunks =~= chunks.subrange(0, out@.len() as int) + split_commas(
                                full.subrange(end + 1, full.len() as int),
                            ));
                        }
                        start = end + 1;
                    }
                }
                if bad {
                    Property::Unknown
                } else {
                    proof {
                        assert forall|j: int|
                            0 <= j < split_commas(full).len() implies chunk_fits(
                            #[trigger] split_commas(full)[j],
                            -0x8000_0000,
                            0x7FFF_FFFF,
                        ) by {
                            assert(spec_parse_i64(chunks[j]) == Some(out@[j] as i64));
                        }
                    }
                    Property::ListInt(out)
                }
            }
        },
        DataType::ListLong => {
            if b.len() == 0 {
                Property::ListLong(Vec::new())
            } else {
                let mut out: Vec<i64> = Vec::new();
                let ghost full = b@;
                let ghost chunks = split_commas(full);
                let mut start: usize = 0;
                let mut done: bool = false;
                let mut bad: bool = false;
                proof {
                    assert(full.subrange(0, full.len() as int) =~= full);
                    assert(chunks.subrange(0, 0) + split_commas(full) =~= split_commas(full));
                }
                while !done
                    invariant
                        full == b@,
                        chunks == split_commas(full),
                        full.len() >= 1,
                        start <= full.len(),
                        out@.len() <= chunks.len(),
                        !done ==> !bad,
                        !done ==> chunks =~= chunks.subrange(0, out@.len() as int) + split_commas(
                            full.subrange(start as int, full.len() as int),
                        ),
                        done ==> bad || out@.len() == chunks.len(),
                        bad ==> !list_chunks_fit(
                            full,
                            -0x8000_0000_0000_0000,
                            0x7FFF_FFFF_FFFF_FFFF,
                        ),
                        forall|j: int|
                            0 <= j < out@.len() ==> spec_parse_i64(#[trigger] chunks[j]) == Some(
                                out@[j],
                            ),
                    decreases full.len() - start, (if done {
                        0int
                    } else {
                        1int
                    }),
                {
                    let ghost rest = full.subrange(start as int, full.len() as int);
                    let mut end: usize = start;
                    while end < b.len() && b[end] != 44
                        invariant
                            full == b@,
                            start <= end <= full.len(),
                            forall|j: int| start <= j < end ==> full[j] != 44,
                        decreases full.len() - end,
                    {
                        end = end + 1;
                    }
                    proof {
                        lemma_first_comma_at(rest, end - start);
                        lemma_split_commas_len(full.subrange(start as int, full.len() as int));
                    }
                    let chunk = copy_byte_range(b, start, end);
                    proof {
                        assert(rest.subrange(0, end - start) =~= full.subrange(
                            start as int,
                            end as int,
                        ));
                        assert(chunks[out@.len() as int] == chunk@);
                    }
                    let mut ok: bool = false;
                    match parse_i64_bytes(chunk.as_slice()) {
                        Some(v) => {
                            out.push(v);
                            ok = true;
                        },
                        None => {},
                    }
                    if !ok {
                        proof {
                            assert(!chunk_fits(
                                chunks[out@.len() as int],
                                -0x8000_0000_0000_0000,
                                0x7FFF_FFFF_FFFF_FFFF,
                            ));
                            assert(!list_chunks_fit(
                                full,
                                -0x8000_0000_0000_0000,
                                0x7FFF_FFFF_FFFF_FFFF,
                            ));
                        }
                        bad = true;
                        done = true;
                    } else if end == b.len() {
                        proof {
                            assert(split_commas(rest) =~= seq![rest]);
                            assert(chunks =~= chunks.subrange(0, out@.len() as int));
                        }
                        done = true;
                    } else {
                        proof {
                            assert(rest[end - start] == 44);
                            assert(split_commas(rest) =~= seq![rest.subrange(0, end - start)]
                                + split_commas(rest.subrange(end - start + 1, rest.len() as int)));
                            assert(rest.subrange(end - start + 1, rest.len() as int) =~= full
                                .subrange(end + 1, full.len() as int));
                            assert(chunks =~= chunks.subrange(0, out@.len() as int) + split_commas(
                                full.subrange(end + 1, full.len() as int),
                            ));
                        }
                        start = end + 1;
                    }
                }
                if bad {
                    Property::Unknown
                } else {
                    proof {
                        assert forall|j: int|
                            0 <= j < split_commas(full).len() implies chunk_fits(
                            #[trigger] split_commas(full)[j],
                            -0x8000_0000_0000_0000,
                            0x7FFF_FFFF_FFFF_FFFF,
                        ) by {
                            assert(spec_parse_i64(chunks[j]) == Some(out@[j]));
                        }
                    }
                    Property::ListLong(out)
                }
            }
        },
        DataType::ListString => {
            if b.len() == 0 {
                Property::ListString(Vec::new())
            } else {
                let mut out: Vec<String> = Vec::new();
                let ghost full = b@;
                let ghost chunks = split_commas(full);
                let mut start: usize = 0;
                let mut done: bool = false;
                let mut bad: bool = false;
                proof {
                    assert(full.subrange(0, full.len() as int) =~= full);
                    assert(chunks.subrange(0, 0) + split_commas(full) =~= split_commas(full));
                }
                while !done
                    invariant
                        full == b@,
                        chunks == split_commas(full),
                        full.len() >= 1,
                        start <= full.len(),
                        out@.len() <= chunks.len(),
                        !done ==> !bad,
                        !done ==> chunks =~= chunks.subrange(0, out@.len() as int) + split_commas(
                            full.subrange(start as int, full.len() as int),
                        ),
                        done ==> bad || out@.len() == chunks.len(),
                        bad ==> exists|j: int|
                            0 <= j < chunks.len() && !valid_utf8(#[trigger] chunks[j]),
                        forall|j: int|
                            0 <= j < out@.len() ==> encode_utf8(#[trigger] out@[j]@) == chunks[j],
                    decreases full.len() - start, (if done {
                        0int
                    } else {
                        1int
                    }),
                {
                    let ghost rest = full.subrange(start as int, full.len() as int);
                    let mut end: usize = start;
                    while end < b.len() && b[end] != 44
                        invariant
                            full == b@,
                            start <= end <= full.len(),
                            forall|j: int| start <= j < end ==> full[j] != 44,
                        decreases full.len() - end,
                    {
                        end = end + 1;
                    }
                    proof {
                        lemma_first_comma_at(rest, end - start);
                        lemma_split_commas_len(full.subrange(start as int, full.len() as int));
                    }
                    let chunk = copy_byte_range(b, start, end);
                    proof {
                        assert(rest.subrange(0, end - start) =~= full.subrange(
                            start as int,
                            end as int,
                        ));
                        assert(chunks[out@.len() as int] == chunk@);
                    }
                    match bytes_to_string(&chunk) {
                        Some(s) => {
                            out.push(s);
                        },
                        None => {
                            bad = true;
                            done = true;
                        },
                    }
                    if !done {
                        if end == b.len() {
                            proof {
                                assert(split_commas(rest) =~= seq![rest]);
                                assert(chunks =~= chunks.subrange(0, out@.len() as int));
                            }
                            done = true;
                        } else {
                            proof {
                                assert(rest[end - start] == 44);
                                assert(split_commas(rest) =~= seq![rest.subrange(0, end - start)]
                                    + split_commas(
                                    rest.subrange(end - start + 1, rest.len() as int),
                                ));
                                assert(rest.subrange(end - start + 1, rest.len() as int) =~= full
                                    .subrange(end + 1, full.len() as int));
                                assert(chunks =~= chunks.subrange(0, out@.len() as int)
                                    + split_commas(full.subrange(end + 1, full.len() as int)));
                            }
                            start = end + 1;
                        }
                    }
                }
                if bad {
                    Property::Unknown
                } else {
                    Property::ListString(out)
                }
            }
        },
        _ => Property::Unknown,
    }
}

/// The 32-bit big-endian value at a byte offset.
pub open spec fn read_i32_at(d: Seq<u8>, p: int) -> i32 {
    u32_as_i32(u32_of_be(d[p], d[p + 1], d[p + 2], d[p + 3]))
}

/// The elements of a transport-layout int list, widened for rendering.
pub open spec fn list_i32_elems(d: Seq<u8>, n: int) -> Seq<i64> {
    Seq::new(n as nat, |j: int| read_i32_at(d, 4 + 4 * j) as i64)
}

/// The rendering of a list body: decimal elements joined by ", ".
pub open spec fn join_dec(v: Seq<i64>) -> Seq<u8>
    decreases v.len(),
{
    if v.len() == 0 {
        Seq::empty()
    } else if v.len() == 1 {
        dec_i64(v[0])
    } else {
        join_dec(v.drop_last()) + seq![44u8, 32u8] + dec_i64(v.last())
    }
}

/// What the renderer accepts: enough bytes for the declared type, a length
/// prefix that matches for text, and a well-formed count for int lists.
/// Float and double columns need float formatting and are completed by the
/// unverified layer; the remaining types have no rendering at all.
pub open spec fn render_input_ok(d: Seq<u8>, dt: DataType) -> bool {
    match dt {
        DataType::String | DataType::Date => d.len() >= 4 && read_i32_at(d, 0) == d.len() - 4
            && valid_utf8(d.subrange(4, d.len() as int)),
        DataType::Long => d.len() >= 8,
        DataType::Int => d.len() >= 4,
        DataType::Short => d.len() >= 2,
        DataType::Char => d.len() >= 1,
        DataType::Bool => d.len() >= 1,
        DataType::ListInt => d.len() >= 4 && read_i32_at(d, 0) >= 0 && d.len() >= 4 + 4 * (
        read_i32_at(d, 0) as int),
        _ => false,
    }
}

/// Every decimal-rendered byte is printable ASCII.
proof fn lemma_dec_i64_ascii(x: i64)
    ensures
        forall|i: int| 0 <= i < dec_i64(x).len() ==> dec_i64(x)[i] < 0x80,
{
    if x >= 0 {
        lemma_dec_digits_ascii(x as nat);
    } else {
        lemma_dec_digits_ascii((-(x as int)) as nat);
        assert forall|i: int| 0 <= i < dec_i64(x).len() implies dec_i64(x)[i] < 0x80 by {
            if i > 0 {
                assert(dec_i64(x)[i] == crate::text::dec_digits((-(x as int)) as nat)[i - 1]);
            }
        }
    }
}

/// Rebuild readable text from a value's transport bytes: text is quoted,
/// booleans render as "True"/"False", a char is quoted in single quotes,
/// integers render in decimal, and an int list renders bracketed.
#[verifier::rlimit(60)]
pub fn parse_proerty_as_string(data: Vec<u8>, data_type: &DataType) -> (r: Option<String>)
    requires
        render_input_ok(data@, *data_type),
    ensures
        (match *data_type {
            DataType::String | DataType::Date => r matches Some(s) && s@ == seq!['"']
                + decode_utf8(data@.subrange(4, data@.len() as int)) + seq!['"'],
            DataType::Long => r matches Some(s) && encode_utf8(s@) == dec_i64(
                u64_as_i64(
                    u64_of_be(
                        data@[0],
                        data@[1],
                        data@[2],
                        data@[3],
                        data@[4],
                        data@[5],
                        data@[6],
                        data@[7],
                    ),
                ),
            ),
            DataType::Int => r matches Some(s) && encode_utf8(s@) == dec_i64(
                read_i32_at(data@, 0) as i64,
            ),
            DataType::Short => r matches Some(s) && encode_utf8(s@) == dec_i64(
                u16_as_i16(u16_of_be(data@[0], data@[1])) as i64,
            ),
            DataType::Char => r matches Some(s) && s@ =~= seq![
                (39u8) as char,
                data@[0] as char,
                (39u8) as char,
            ],
            DataType::Bool => r matches Some(s) && s@ == (if data@[0] == 0 {
                "False"@
            } else {
                "True"@
            }),
            DataType::ListInt => r matches Some(s) && encode_utf8(s@) == seq![91u8] + join_dec(
                list_i32_elems(data@, read_i32_at(data@, 0) as int),
            ) + seq![93u8],
            _ => r is None,
        }),
{
    match data_type {
        DataType::String | DataType::Date => {
            let len = data.len();
            let payload = copy_byte_range(data.as_slice(), 4, len);
            let t = match bytes_to_string(&payload) {
                Some(t) => t,
                None => {
                    proof {
                        assert(false);
                    }
                    return None;
                },
            };
            let s = String::from_str("\u{22}").concat(t.as_str()).concat("\u{22}");
            proof {
                reveal_strlit("\u{22}");
            }
            Some(s)
        },
        DataType::Long => {
            let v = u64_to_i64(be_get_u64(&data, 0));
            let mut buf: Vec<u8> = Vec::new();
            push_dec_i64(&mut buf, v);
            proof {
                lemma_dec_i64_ascii(v);
                lemma_ascii_valid_utf8(buf@);
            }
            bytes_to_string(&buf)
        },
        DataType::Int => {
            let v = u32_to_i32(be_get_u32(&data, 0));
            let mut buf: Vec<u8> = Vec::new();
            push_dec_i64(&mut buf, v as i64);
            proof {
                lemma_dec_i64_ascii(v as i64);
                lemma_ascii_valid_utf8(buf@);
            }
            bytes_to_string(&buf)
        },
        DataType::Short => {
            let v = u16_to_i16(be_get_u16(&data, 0));
            let mut buf: Vec<u8> = Vec::new();
            push_dec_i64(&mut buf, v as i64);
            proof {
                lemma_dec_i64_ascii(v as i64);
                lemma_ascii_valid_utf8(buf@);
            }
            bytes_to_string(&buf)
        },
        DataType::Char => {
            let b = data[0];
            let ghost target: Seq<char> = seq![(39u8) as char, b as char, (39u8) as char];
            let mut buf: Vec<u8> = Vec::new();
            buf.push(39);
            if b < 0x80 {
                buf.push(b);
            } else {
                buf.push((0xC0u32 | (((b as u32) >> 6) & 0x1F)) as u8);
                buf.push((0x80u32 | ((b as u32) & 0x3F)) as u8);
            }
            buf.push(39);
            proof {
                let c39: u32 = (39u8 as char) as u32;
                let cb: u32 = (b as char) as u32;
                assert(c39 == 39);
                assert(cb == b as u32);
                assert((39u32 & 0x7F) as u8 == 39u8) by (bit_vector);
                assert(encode_scalar(c39) =~= seq![39u8]);
                if b < 0x80 {
                    assert((cb & 0x7F) as u8 == b) by (bit_vector)
                        requires
                            cb == b as u32,
                            b < 0x80,
                    ;
                    assert(encode_scalar(cb) =~= seq![b]);
                } else {
                    assert(!(cb < 0x80) && cb < 0x800) by (bit_vector)
                        requires
                            cb == b as u32,
                            b >= 0x80,
                    ;
                    assert((0xC0u32 | ((cb >> 6) & 0x1F)) as u8 == 0xC0u8 | (((cb >> 6)
                        & 0x1F) as u8)) by (bit_vector);
                    assert((0x80u32 | (cb & 0x3F)) as u8 == 0x80u8 | ((cb & 0x3F) as u8))
                        by (bit_vector);
                    assert(encode_scalar(cb) =~= seq![
                        (0xC0u32 | ((cb >> 6) & 0x1F)) as u8,
                        (0x80u32 | (cb & 0x3F)) as u8,
                    ]);
                }
                reveal_with_fuel(vstd::utf8::encode_utf8, 5);
                assert(target.drop_first() =~= seq![b as char, (39u8) as char]);
                assert(target.drop_first().drop_first() =~= seq![(39u8) as char]);
                assert(seq![(39u8) as char].drop_first() =~= Seq::<char>::empty());
                assert(encode_utf8(target) =~= buf@);
                vstd::utf8::encode_utf8_valid_utf8(target);
                vstd::utf8::encode_utf8_decode_utf8(target);
            }
            bytes_to_string(&buf)
        },
        DataType::Bool => {
            if data[0] == 0 {
                Some("False".to_owned())
            } else {
                Some("True".to_owned())
            }
        },
        DataType::ListInt => {
            let n_i = u32_to_i32(be_get_u32(&data, 0));
            let n = n_i as usize;
            let ghost elems = list_i32_elems(data@, n_i as int);
            let mut buf: Vec<u8> = Vec::new();
            buf.push(91);
            let mut j: usize = 0;
            while j < n
                invariant
                    n == n_i as int,
                    n_i >= 0,
                    elems == list_i32_elems(data@, n_i as int),
                    data@.len() >= 4 + 4 * (n_i as int),
                    j <= n,
                    buf@ == seq![91u8] + join_dec(elems.subrange(0, j as int)),
                    forall|i: int| 0 <= i < buf@.len() ==> buf@[i] < 0x80,
                decreases n - j,
            {
                if j > 0 {
                    buf.push(44);
                    buf.push(32);
                }
                let v = u32_to_i32(be_get_u32(&data, 4 + 4 * j));
                push_dec_i64(&mut buf, v as i64);
                proof {
                    lemma_dec_i64_ascii(v as i64);
                    let pre = elems.subrange(0, j + 1);
                    assert(pre.drop_last() =~= elems.subrange(0, j as int));
                    assert(pre.last() == v as i64);
                    if j == 0 {
                        assert(join_dec(pre) == dec_i64(v as i64));
                        assert(buf@ =~= seq![91u8] + join_dec(pre));
                    } else {
                        assert(buf@ =~= seq![91u8] + join_dec(pre));
                    }
                }
                j = j + 1;
            }
            buf.push(93);
            proof {
                assert(elems.subrange(0, n as int) =~= elems);
                assert(buf@ =~= seq![91u8] + join_dec(elems) + seq![93u8]);
                lemma_ascii_valid_utf8(buf@);
            }
            bytes_to_string(&buf)
        },
        _ => None,
    }
}

} // verus!
