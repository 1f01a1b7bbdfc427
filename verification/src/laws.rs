//! The library-wide laws: round trips of every encoding, idempotence of
//! normalization, the version/variant invariant, length-dispatch totality,
//! and the fixed shape of the canonical form.

use vstd::prelude::*;
use vstd::arithmetic::power2::pow2;

use crate::b64codec::{spec_b64_bytes, lemma_b64_bytes_roundtrip};
use crate::bytescodec::{spec_le_bytes, lemma_le_bytes_roundtrip};
use crate::canonical::{
    spec_canonical_bytes, lemma_canonical_shape, lemma_canonical_strip, strip_hyphens,
};
use crate::error::U64Error;
use crate::hexcodec::{spec_hex_bytes, lemma_hex_bytes_roundtrip, lemma_pow2_128};
use crate::norm::{spec_normalize, lemma_normalize_idempotent, lemma_normalized_version_variant};
use crate::text::{all_ascii, ascii_str, lemma_ascii_decode};
use crate::uuid4::spec_try_from_bytes;

verus! {

/// Round trip through the packed hex form: for every 128-bit value, decoding
/// the hex encoding of the normalized value returns the normalized value.
pub proof fn lemma_round_trip_hex(v: u128)
    ensures
        spec_try_from_bytes(spec_hex_bytes(spec_normalize(v))) == Ok::<u128, U64Error>(
            spec_normalize(v),
        ),
{
    let n = spec_normalize(v);
    lemma_normalize_idempotent(v);
    lemma_hex_bytes_roundtrip(n);
    assert(all_ascii(spec_hex_bytes(n)));
    lemma_ascii_decode(spec_hex_bytes(n));
}

/// Round trip through the canonical hyphenated form: for every 128-bit
/// value, decoding the canonical encoding of the normalized value returns
/// the normalized value.
pub proof fn lemma_round_trip_canonical(v: u128)
    ensures
        spec_try_from_bytes(spec_canonical_bytes(spec_normalize(v))) == Ok::<u128, U64Error>(
            spec_normalize(v),
        ),
{
    let n = spec_normalize(v);
    lemma_normalize_idempotent(v);
    lemma_canonical_shape(n);
    assert(all_ascii(spec_canonical_bytes(n)));
    lemma_ascii_decode(spec_canonical_bytes(n));
    lemma_canonical_strip(n);
    lemma_hex_bytes_roundtrip(n);
    lemma_pow2_128();
    assert(strip_hyphens(spec_canonical_bytes(n), 4) == spec_hex_bytes(n));
}

/// Round trip through the custom base64 form: for every 128-bit value,
/// decoding the base64 encoding of the normalized value returns the
/// normalized value.
pub proof fn lemma_round_trip_base64(v: u128)
    ensures
        spec_try_from_bytes(spec_b64_bytes(spec_normalize(v))) == Ok::<u128, U64Error>(
            spec_normalize(v),
        ),
{
    let n = spec_normalize(v);
    lemma_normalize_idempotent(v);
    lemma_b64_bytes_roundtrip(n);
}

/// Round trip through the binary form: for every 128-bit value, decoding the
/// 16-byte little-endian buffer of the normalized value returns the
/// normalized value.
pub proof fn lemma_round_trip_bytes(v: u128)
    ensures
        spec_try_from_bytes(spec_le_bytes(spec_normalize(v))) == Ok::<u128, U64Error>(
            spec_normalize(v),
        ),
{
    let n = spec_normalize(v);
    lemma_normalize_idempotent(v);
    lemma_le_bytes_roundtrip(n);
}

/// The version/variant invariant of every construction path: whatever the
/// 128-bit payload, the normalized value has version nibble 4 and variant
/// bits `10`.
pub proof fn lemma_version_variant(raw: u128)
    ensures
        (spec_normalize(raw) >> 52) & 0xf == 4,
        (spec_normalize(raw) >> 70) & 3 == 2,
{
    lemma_normalize_idempotent(raw);
    lemma_normalized_version_variant(spec_normalize(raw));
}

/// Length-dispatch totality: decoding fails with a length error exactly for
/// the lengths outside {16, 22, 32, 36}; inside that set the result is a
/// success or one of the content errors.
pub proof fn lemma_length_dispatch(s: Seq<u8>)
    ensures
        spec_try_from_bytes(s) == Err::<u128, U64Error>(
            U64Error::InvalidStrLength(s.len() as usize),
        ) <==> !(s.len() == 16 || s.len() == 22 || s.len() == 32 || s.len() == 36),
{
}

/// The canonical form always has 36 characters, with `-` at exactly the
/// character offsets 8, 13, 18 and 23.
pub proof fn lemma_canonical_format(v: u128)
    ensures
        ascii_str(spec_canonical_bytes(v)).len() == 36,
        forall|i: int|
            0 <= i < 36 ==> (ascii_str(spec_canonical_bytes(v))[i] == '-' <==> (i == 8 || i == 13
                || i == 18 || i == 23)),
{
    lemma_canonical_shape(v);
    let cs = ascii_str(spec_canonical_bytes(v));
    assert forall|i: int| 0 <= i < 36 implies (cs[i] == '-' <==> (i == 8 || i == 13 || i == 18
        || i == 23)) by {
        let b = spec_canonical_bytes(v)[i];
        assert(cs[i] == b as char);
        assert((b as char) as u32 == b);
        assert('-' as u32 == 45);
    }
}

} // verus!
