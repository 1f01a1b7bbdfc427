//! The binary codec: a 16-byte little-endian buffer read as a 128-bit
//! integer.  The raw value itself is the binary form, so only the decode
//! direction is executable; the encode direction exists as a specification.

use vstd::prelude::*;
use vstd::arithmetic::power2::{pow2, lemma_pow2_adds, lemma2_to64, lemma2_to64_rest};

verus! {

/// The number denoted by `s` read as little-endian base-256 digits.
pub open spec fn le_value(s: Seq<u8>) -> int
    decreases s.len(),
{
    if s.len() == 0 {
        0
    } else {
        s[0] + 256 * le_value(s.drop_first())
    }
}

/// The 16-byte little-endian buffer holding `v`.
pub open spec fn spec_le_bytes(v: u128) -> Seq<u8> {
    Seq::new(16, |i: int| ((v >> ((8 * i) as u128)) & 0xff) as u8)
}

/// Reads a 16-byte buffer as a little-endian 128-bit integer.
pub(crate) fn u128_from_le_slice(s: &[u8]) -> (r: u128)
    requires
        s@.len() == 16,
    ensures
        r == le_value(s@),
{
    proof {
        lemma2_to64();
        assert(s@.skip(16) =~= Seq::<u8>::empty());
    }
    let mut acc: u128 = 0;
    let mut i: usize = 16;
    while i > 0
        invariant
            s@.len() == 16,
            i <= 16,
            acc == le_value(s@.skip(i as int)),
            acc < pow2((8 * (16 - i)) as nat),
        decreases i,
    {
        i -= 1;
        proof {
            assert(s@.skip(i as int).drop_first() =~= s@.skip(i as int + 1));
            assert(s@.skip(i as int)[0] == s@[i as int]);
            lemma_pow2_adds((8 * (16 - i - 1)) as nat, 8);
            lemma2_to64();
            lemma2_to64_rest();
            crate::hexcodec::lemma_pow2_128();
            if 8 * (16 - i - 1) < 120 {
                vstd::arithmetic::power2::lemma_pow2_strictly_increases(
                    (8 * (16 - i - 1)) as nat,
                    120,
                );
            }
            lemma_pow2_adds(120, 8);
            assert(acc < pow2(120));
            assert(pow2(128) == pow2(120) * 256);
        }
        acc = acc * 256 + (s[i] as u128);
    }
    assert(s@.skip(0) =~= s@);
    acc
}

/// One step of the little-endian read: splitting off the low byte.
proof fn lemma_shift_step8(v: u128, sh: u128)
    by (bit_vector)
    requires
        sh <= 120,
    ensures
        v >> sh == ((v >> sh) >> 8) * 256 + ((v >> sh) & 0xff),
        (v >> sh) & 0xff < 256,
{
}

/// The little-endian buffer of any value denotes that value: decoding the
/// encoding returns the input.
pub proof fn lemma_le_bytes_roundtrip(v: u128)
    ensures
        spec_le_bytes(v).len() == 16,
        le_value(spec_le_bytes(v)) == v,
{
    lemma_le_suffix_value(v, 0);
    assert(spec_le_bytes(v).skip(0) =~= spec_le_bytes(v));
    assert(v >> 0u128 == v) by (bit_vector);
}

/// The bytes from position `k` on denote the value with its low `8 k` bits
/// dropped.
proof fn lemma_le_suffix_value(v: u128, k: int)
    requires
        0 <= k <= 15,
    ensures
        le_value(spec_le_bytes(v).skip(k)) == v >> ((8 * k) as u128),
    decreases 15 - k,
{
    let b = spec_le_bytes(v);
    let shk = (8 * k) as u128;
    if k == 15 {
        assert(b.skip(15).drop_first() =~= Seq::<u8>::empty());
        assert(b.skip(15)[0] == b[15]);
        assert((v >> 120) & 0xff == v >> 120 && v >> 120 < 256) by (bit_vector);
        assert(b[15] == ((v >> 120) & 0xff) as u8);
        assert(le_value(Seq::<u8>::empty()) == 0);
        assert(le_value(b.skip(15)) == b[15]);
    } else {
        lemma_le_suffix_value(v, k + 1);
        let shn = (8 * (k + 1)) as u128;
        assert(b.skip(k).drop_first() =~= b.skip(k + 1));
        assert(b.skip(k)[0] == b[k]);
        assert(v >> shn == (v >> shk) >> 8) by (bit_vector)
            requires
                shn == shk + 8 && shk <= 120,
        ;
        lemma_shift_step8(v, shk);
    }
}

} // verus!
