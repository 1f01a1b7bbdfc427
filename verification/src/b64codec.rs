//! The custom base64 codec: the 128-bit value, left-padded with 4 zero bits
//! to 132 bits, split into 22 six-bit groups read most significant first,
//! each group mapped through a private 64-symbol alphabet
//! (`A-Z`, `a-z`, `0-9`, `-`, `_` in that order).

use vstd::prelude::*;
use vstd::arithmetic::power2::{
    pow2, lemma_pow2_adds, lemma_pow2_strictly_increases, lemma2_to64, lemma2_to64_rest,
};

use crate::hexcodec::lemma_pow2_128;

verus! {

/// The alphabet byte for a 6-bit group value below 64.
pub open spec fn b64_digit_byte(d: u8) -> u8
    recommends
        d < 64,
{
    if d < 26 {
        (d + 65) as u8  // 'A'..'Z'
    } else if d < 52 {
        (d + 71) as u8  // 'a'..'z'
    } else if d < 62 {
        (d - 4) as u8  // '0'..'9'
    } else if d == 62 {
        45  // '-'
    } else {
        95  // '_'
    }
}

/// The `i`-th six-bit group of the 132-bit zero-padded form of `v`, counted
/// from the most significant end, for `0 <= i < 22`.  The four padding bits
/// sit above bit 127, so the first group is just the top two bits of `v`.
pub open spec fn spec_group6(v: u128, i: int) -> u8
    recommends
        0 <= i < 22,
{
    ((v >> ((126 - 6 * i) as u128)) & 0x3f) as u8
}

/// The custom base64 form of `v`: 22 alphabet bytes.
pub open spec fn spec_b64_bytes(v: u128) -> Seq<u8> {
    Seq::new(22, |i: int| b64_digit_byte(spec_group6(v, i)))
}

/// True for the bytes of the private alphabet.
pub open spec fn is_b64_digit(b: u8) -> bool {
    (65 <= b <= 90) || (97 <= b <= 122) || (48 <= b <= 57) || b == 45 || b == 95
}

/// The 6-bit value of an alphabet byte; zero for a byte outside the
/// alphabet.
pub open spec fn b64_digit_val(b: u8) -> u8 {
    if 65 <= b <= 90 {
        (b - 65) as u8
    } else if 97 <= b <= 122 {
        (b - 71) as u8
    } else if 48 <= b <= 57 {
        (b + 4) as u8
    } else if b == 45 {
        62
    } else if b == 95 {
        63
    } else {
        0
    }
}

/// True when every byte of `s` is an alphabet byte.
pub open spec fn all_b64_digits(s: Seq<u8>) -> bool {
    forall|i: int| 0 <= i < s.len() ==> is_b64_digit(#[trigger] s[i])
}

/// The number denoted by `s` read as base-64 groups, most significant first,
/// with the top four bits of the first group dropped: the inverse of the
/// 4-zero-bit padding of the encode direction.
pub open spec fn b64_value(s: Seq<u8>) -> int
    decreases s.len(),
{
    if s.len() == 0 {
        0
    } else if s.len() == 1 {
        (b64_digit_val(s[0]) % 4) as int
    } else {
        b64_value(s.drop_last()) * 64 + b64_digit_val(s.last())
    }
}

/// Encodes one 6-bit group as its alphabet byte.
fn b64_digit_encode(d: u8) -> (r: u8)
    requires
        d < 64,
    ensures
        r == b64_digit_byte(d),
{
    if d < 26 {
        d + 65
    } else if d < 52 {
        d + 71
    } else if d < 62 {
        d - 4
    } else if d == 62 {
        45
    } else {
        95
    }
}

/// Tests a byte for membership in the alphabet.
fn b64_digit_check(b: u8) -> (r: bool)
    ensures
        r == is_b64_digit(b),
{
    (65 <= b && b <= 90) || (97 <= b && b <= 122) || (48 <= b && b <= 57) || b == 45 || b == 95
}

/// Decodes one alphabet byte to its 6-bit value.
fn b64_digit_decode(b: u8) -> (r: u8)
    requires
        is_b64_digit(b),
    ensures
        r == b64_digit_val(b),
{
    if 65 <= b && b <= 90 {
        b - 65
    } else if 97 <= b && b <= 122 {
        b - 71
    } else if 48 <= b && b <= 57 {
        b + 4
    } else if b == 45 {
        62
    } else {
        63
    }
}

/// A shifted-and-masked group is below 64 and survives the cast to `u8`.
proof fn lemma_mask6_bound(v: u128, sh: u128)
    by (bit_vector)
    ensures
        (v >> sh) & 0x3f < 64,
{
}

/// Reading one more group multiplies the value seen so far by 64.
proof fn lemma_shift_step6(v: u128, sh: u128)
    by (bit_vector)
    requires
        sh <= 120,
    ensures
        v >> sh == ((v >> sh) >> 6) * 64 + ((v >> sh) & 0x3f),
{
}

/// Formats `v` as exactly 22 alphabet bytes.
pub(crate) fn encode_b64_bytes(v: u128) -> (r: Vec<u8>)
    ensures
        r@ == spec_b64_bytes(v),
{
    let mut out: Vec<u8> = Vec::new();
    let mut i: usize = 0;
    while i < 22
        invariant
            i <= 22,
            out@.len() == i,
            forall|j: int| 0 <= j < i ==> out@[j] == spec_b64_bytes(v)[j],
        decreases 22 - i,
    {
        let sh: u128 = 126 - 6 * (i as u128);
        let masked: u128 = (v >> sh) & 0x3f;
        proof {
            lemma_mask6_bound(v, sh);
        }
        let g: u8 = masked as u8;
        assert(g == spec_group6(v, i as int));
        out.push(b64_digit_encode(g));
        i += 1;
    }
    assert(out@ =~= spec_b64_bytes(v));
    out
}

/// Extending a prefix of two or more groups by one group multiplies its
/// value by 64 and adds the group.
proof fn lemma_b64_value_step(s: Seq<u8>, j: int)
    requires
        1 <= j < s.len(),
    ensures
        b64_value(s.take(j + 1)) == b64_value(s.take(j)) * 64 + b64_digit_val(s[j]),
{
    assert(s.take(j + 1).drop_last() =~= s.take(j));
    assert(s.take(j + 1).last() == s[j]);
}

/// Parses 22 alphabet bytes as the number they denote, returning `None` when
/// a byte is outside the alphabet.
pub(crate) fn parse_b64_digits(s: &[u8]) -> (r: Option<u128>)
    requires
        s@.len() == 22,
    ensures
        r is Some <==> all_b64_digits(s@),
        r matches Some(u) ==> u == b64_value(s@),
{
    proof {
        lemma2_to64();
    }
    let mut acc: u128 = 0;
    let mut j: usize = 0;
    while j < 22
        invariant
            s@.len() == 22,
            j <= 22,
            forall|t: int| 0 <= t < j ==> is_b64_digit(#[trigger] s@[t]),
            j >= 1 ==> acc == b64_value(s@.take(j as int)),
            j == 0 ==> acc == 0,
            acc < pow2(if j == 0 {
                0
            } else {
                (6 * j - 4) as nat
            }),
        decreases 22 - j,
    {
        if !b64_digit_check(s[j]) {
            return None;
        }
        let d = b64_digit_decode(s[j]);
        if j == 0 {
            acc = (d % 4) as u128;
            assert(s@.take(1).len() == 1 && s@.take(1)[0] == s@[0]);
            assert(acc == b64_value(s@.take(1)));
            proof {
                lemma2_to64();
            }
        } else {
            proof {
                lemma_b64_value_step(s@, j as int);
                lemma2_to64();
                lemma2_to64_rest();
                lemma_pow2_128();
                if 6 * j - 4 < 122 {
                    lemma_pow2_strictly_increases((6 * j - 4) as nat, 122);
                }
                lemma_pow2_adds(122, 6);
                assert(acc < pow2(122));
                assert(pow2(128) == pow2(122) * 64);
                lemma_pow2_adds((6 * j - 4) as nat, 6);
            }
            acc = acc * 64 + (d as u128);
        }
        j += 1;
    }
    assert(s@.take(22) =~= s@);
    Some(acc)
}

/// An alphabet byte decodes back to the 6-bit group it encodes.
pub proof fn lemma_b64_digit_roundtrip(d: u8)
    requires
        d < 64,
    ensures
        is_b64_digit(b64_digit_byte(d)),
        b64_digit_val(b64_digit_byte(d)) == d,
{
}

/// The base64 form of any value consists of alphabet bytes and denotes that
/// value: decoding the encoding returns the input.
pub proof fn lemma_b64_bytes_roundtrip(v: u128)
    ensures
        spec_b64_bytes(v).len() == 22,
        all_b64_digits(spec_b64_bytes(v)),
        b64_value(spec_b64_bytes(v)) == v,
{
    assert forall|i: int| 0 <= i < 22 implies is_b64_digit(#[trigger] spec_b64_bytes(v)[i]) by {
        lemma_mask6_bound(v, (126 - 6 * i) as u128);
        lemma_b64_digit_roundtrip(spec_group6(v, i));
    }
    lemma_b64_prefix_value(v, 22);
    assert(spec_b64_bytes(v).take(22) =~= spec_b64_bytes(v));
    assert(v >> 0u128 == v) by (bit_vector);
}

/// The first `k` groups of the encoding denote the top bits of the 132-bit
/// padded value.
proof fn lemma_b64_prefix_value(v: u128, k: int)
    requires
        1 <= k <= 22,
    ensures
        b64_value(spec_b64_bytes(v).take(k)) == v >> ((132 - 6 * k) as u128),
    decreases k,
{
    let s = spec_b64_bytes(v);
    if k == 1 {
        assert(s.take(1).len() == 1 && s.take(1)[0] == s[0]);
        lemma_mask6_bound(v, 126);
        lemma_b64_digit_roundtrip(spec_group6(v, 0));
        assert((v >> 126) & 0x3f == v >> 126 && v >> 126 < 4) by (bit_vector);
    } else {
        let shk = (132 - 6 * k) as u128;
        lemma_mask6_bound(v, shk);
        lemma_b64_prefix_value(v, k - 1);
        let shp = (132 - 6 * (k - 1)) as u128;
        lemma_b64_value_step(s, k - 1);
        lemma_b64_digit_roundtrip(spec_group6(v, k - 1));
        assert(v >> shp == (v >> shk) >> 6) by (bit_vector)
            requires
                shp == shk + 6 && shk <= 120,
        ;
        lemma_shift_step6(v, shk);
    }
}

} // verus!
