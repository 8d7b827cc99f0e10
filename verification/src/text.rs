//! Text helpers shared by the parsers and the debug renderer: the one
//! trusted UTF-8 decoding step, decimal formatting of integers, and decimal
//! parsing, all specified at the byte level of the UTF-8 encoding.

use vstd::prelude::*;

use vstd::string::StringSliceAdditionalSpecFns;
use vstd::utf8::{
    decode_utf8, encode_utf8, is_leading_byte_width_1, partial_valid_utf8,
    partial_valid_utf8_extend_ascii_block, valid_utf8, valid_utf8_concat,
};

verus! {

/// Relies on `str::from_utf8`: it succeeds exactly on valid UTF-8 input and
/// returns the text whose encoding is that input; `str::to_owned` then
/// copies it.
#[verifier::external_body]
pub fn bytes_to_string(v: &Vec<u8>) -> (r: Option<String>)
    ensures
        match r {
            Some(s) => valid_utf8(v@) && s@ == decode_utf8(v@) && encode_utf8(s@) == v@,
            None => !valid_utf8(v@),
        },
{
    match core::str::from_utf8(v.as_slice()) {
        Ok(s) => Some(s.to_owned()),
        Err(_) => None,
    }
}

/// The encoding function distributes over concatenation.
pub proof fn lemma_encode_utf8_concat(a: Seq<char>, b: Seq<char>)
    ensures
        encode_utf8(a + b) == encode_utf8(a) + encode_utf8(b),
    decreases a.len(),
{
    if a.len() == 0 {
        assert(a + b =~= b);
        assert(encode_utf8(a) + encode_utf8(b) =~= encode_utf8(b));
    } else {
        lemma_encode_utf8_concat(a.drop_first(), b);
        assert((a + b).drop_first() =~= a.drop_first() + b);
        assert((a + b)[0] == a[0]);
        assert(encode_utf8(a + b) =~= encode_utf8(a) + encode_utf8(b));
    }
}

/// A run of bytes below 0x80 is valid UTF-8.
pub proof fn lemma_ascii_valid_utf8(b: Seq<u8>)
    requires
        forall|i: int| 0 <= i < b.len() ==> b[i] < 0x80,
    ensures
        valid_utf8(b),
{
    assert(forall|i: int| 0 <= i < b.len() ==> #[trigger] is_leading_byte_width_1(b[i]));
    assert(partial_valid_utf8(b, 0)) by {
        assert(b.subrange(0, 0) =~= Seq::<u8>::empty());
        assert(valid_utf8(Seq::<u8>::empty()));
    }
    partial_valid_utf8_extend_ascii_block(b, 0, b.len() as int);
    assert(b.subrange(0, b.len() as int) =~= b);
}

/// The decimal digits of a natural number, most significant first.
pub open spec fn dec_digits(n: nat) -> Seq<u8>
    decreases n,
{
    if n < 10 {
        seq![(48 + n) as u8]
    } else {
        dec_digits(n / 10) + seq![(48 + n % 10) as u8]
    }
}

/// The decimal rendering of a signed 64-bit value, with a leading minus
/// sign when negative.
pub open spec fn dec_i64(x: i64) -> Seq<u8> {
    if x >= 0 {
        dec_digits(x as nat)
    } else {
        seq![45u8] + dec_digits((-(x as int)) as nat)
    }
}

/// Every decimal byte is an ASCII digit.
pub proof fn lemma_dec_digits_ascii(n: nat)
    ensures
        forall|i: int| 0 <= i < dec_digits(n).len() ==> 48 <= #[trigger] dec_digits(n)[i] <= 57,
    decreases n,
{
    if n >= 10 {
        lemma_dec_digits_ascii(n / 10);
        let pre = dec_digits(n / 10);
        assert forall|i: int| 0 <= i < dec_digits(n).len() implies 48 <= #[trigger] dec_digits(
            n,
        )[i] <= 57 by {
            if i < pre.len() {
                assert(dec_digits(n)[i] == pre[i]);
            } else {
                assert(dec_digits(n)[i] == (48 + n % 10) as u8);
            }
        }
    }
}

fn push_dec_u64(out: &mut Vec<u8>, n: u64)
    ensures
        final(out)@ == old(out)@ + dec_digits(n as nat),
    decreases n,
{
    if n < 10 {
        out.push(48 + (n as u8));
        proof {
            assert(out@ =~= old(out)@ + dec_digits(n as nat));
        }
    } else {
        push_dec_u64(out, n / 10);
        out.push(48 + ((n % 10) as u8));
        proof {
            assert(out@ =~= old(out)@ + dec_digits(n as nat));
        }
    }
}

/// Append the decimal rendering of `x`.
pub fn push_dec_i64(out: &mut Vec<u8>, x: i64)
    ensures
        final(out)@ == old(out)@ + dec_i64(x),
{
    if x >= 0 {
        push_dec_u64(out, x as u64);
    } else {
        out.push(45);
        let mag: u64 = if x == i64::MIN {
            0x8000_0000_0000_0000
        } else {
            (-x) as u64
        };
        push_dec_u64(out, mag);
        proof {
            assert(out@ =~= old(out)@ + dec_i64(x));
        }
    }
}

/// The integer value of a run of ASCII digits, most significant first.
pub open spec fn digits_val(d: Seq<u8>) -> int
    decreases d.len(),
{
    if d.len() == 0 {
        0
    } else {
        digits_val(d.drop_last()) * 10 + (d.last() - 48)
    }
}

/// Whether every byte is an ASCII digit.
pub open spec fn all_digits(d: Seq<u8>) -> bool {
    forall|i: int| 0 <= i < d.len() ==> 48 <= #[trigger] d[i] <= 57
}

/// What parsing an optionally signed decimal as a signed 64-bit integer
/// yields: the sign is a single leading `+` or `-`, at least one digit must
/// follow, and a value outside the 64-bit range fails.
pub open spec fn spec_parse_digits(d: Seq<u8>, neg: bool) -> Option<i64> {
    if d.len() == 0 || !all_digits(d) {
        None
    } else {
        let v = if neg {
            -digits_val(d)
        } else {
            digits_val(d)
        };
        if -0x8000_0000_0000_0000 <= v <= 0x7FFF_FFFF_FFFF_FFFF {
            Some(v as i64)
        } else {
            None
        }
    }
}

pub open spec fn spec_parse_i64(s: Seq<u8>) -> Option<i64> {
    if s.len() == 0 {
        None
    } else if s[0] == 43 {
        spec_parse_digits(s.drop_first(), false)
    } else if s[0] == 45 {
        spec_parse_digits(s.drop_first(), true)
    } else {
        spec_parse_digits(s, false)
    }
}

proof fn lemma_digits_val_nonneg(d: Seq<u8>)
    requires
        all_digits(d),
    ensures
        digits_val(d) >= 0,
    decreases d.len(),
{
    if d.len() > 0 {
        assert(all_digits(d.drop_last()));
        lemma_digits_val_nonneg(d.drop_last());
    }
}

/// Appending digits never shrinks the value.
proof fn lemma_digits_val_grows(d: Seq<u8>, i: int)
    requires
        all_digits(d),
        0 <= i <= d.len(),
    ensures
        digits_val(d.subrange(0, i)) <= digits_val(d),
    decreases d.len() - i,
{
    if i == d.len() {
        assert(d.subrange(0, i) =~= d);
    } else {
        let pre = d.subrange(0, i + 1);
        assert(pre.drop_last() =~= d.subrange(0, i));
        assert(all_digits(pre.drop_last()));
        lemma_digits_val_nonneg(d.subrange(0, i));
        lemma_digits_val_grows(d, i + 1);
    }
}

/// Parse an optionally signed decimal from bytes; see `spec_parse_i64`.
pub fn parse_i64_bytes(b: &[u8]) -> (r: Option<i64>)
    ensures
        r == spec_parse_i64(b@),
{
    if b.len() == 0 {
        return None;
    }
    let (neg, start): (bool, usize) = if b[0] == 43 {
        (false, 1)
    } else if b[0] == 45 {
        (true, 1)
    } else {
        (false, 0)
    };
    let ghost d: Seq<u8> = if start == 1 {
        b@.drop_first()
    } else {
        b@
    };
    if b.len() == start {
        return None;
    }
    let mut acc: u128 = 0;
    let mut i: usize = start;
    while i < b.len()
        invariant
            start <= i <= b@.len(),
            b@.len() >= start + 1,
            d == if start == 1 {
                b@.drop_first()
            } else {
                b@
            },
            d.len() == b@.len() - start,
            spec_parse_i64(b@) == spec_parse_digits(d, neg),
            forall|j: int| 0 <= j < d.len() ==> d[j] == b@[j + start],
            all_digits(d.subrange(0, i - start)),
            acc == digits_val(d.subrange(0, i - start)),
            acc <= 0x8000_0000_0000_0000,
        decreases b@.len() - i,
    {
        let c = b[i];
        if c < 48 || c > 57 {
            proof {
                assert(d[i - start] == c);
                assert(!all_digits(d));
            }
            return None;
        }
        let dv = (c - 48) as u128;
        let next = acc * 10 + dv;
        proof {
            let pre = d.subrange(0, i + 1 - start);
            assert(pre.drop_last() =~= d.subrange(0, i - start));
            assert(pre.last() == d[i - start] == c);
        }
        if next > 0x8000_0000_0000_0000 {
            proof {
                let pre = d.subrange(0, i + 1 - start);
                assert(all_digits(pre));
                assert(digits_val(pre) == next);
                if all_digits(d) {
                    lemma_digits_val_grows(d, i + 1 - start);
                    assert(digits_val(d) >= next);
                }
            }
            return None;
        }
        acc = next;
        i = i + 1;
    }
    proof {
        assert(d.subrange(0, d.len() as int) =~= d);
    }
    if neg {
        if acc == 0x8000_0000_0000_0000 {
            Some(i64::MIN)
        } else {
            Some(-(acc as i64))
        }
    } else {
        if acc > 0x7FFF_FFFF_FFFF_FFFF {
            None
        } else {
            Some(acc as i64)
        }
    }
}

} // verus!
