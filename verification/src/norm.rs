//! The normalization rule: force any 128-bit payload into a structurally
//! valid version-4, variant-10 UUID by clearing the version nibble and the
//! variant bits and then setting the fixed marker pattern.

use vstd::prelude::*;

verus! {

/// Mask that keeps every bit except the version nibble and the variant bits.
pub const VERSION_VARIANT_CLEAR: u128 = 0xffffffffffffff3fff0fffffffffffff;

/// The fixed version-4 / variant-10 marker bits.
pub const VERSION_VARIANT_SET: u128 = 0x00000000000000800040000000000000;

/// The normalization rule as a mathematical function: clear the version
/// nibble and the variant bits of `raw`, then set the fixed marker pattern.
pub open spec fn spec_normalize(raw: u128) -> u128 {
    (raw & VERSION_VARIANT_CLEAR) | VERSION_VARIANT_SET
}

/// A value is normalized when applying the normalization rule leaves it
/// unchanged.
pub open spec fn is_normalized(v: u128) -> bool {
    v == spec_normalize(v)
}

/// Clears the version nibble and variant bits of `raw`, then sets the fixed
/// version-4 / variant-10 pattern.  Pure and total.
pub fn normalize(raw: u128) -> (r: u128)
    ensures
        r == spec_normalize(raw),
{
    (raw & VERSION_VARIANT_CLEAR) | VERSION_VARIANT_SET
}

/// Normalization is idempotent: applying the rule a second time is a no-op.
pub proof fn lemma_normalize_idempotent(raw: u128)
    ensures
        spec_normalize(spec_normalize(raw)) == spec_normalize(raw),
{
    assert(((raw & VERSION_VARIANT_CLEAR) | VERSION_VARIANT_SET) & VERSION_VARIANT_CLEAR
        | VERSION_VARIANT_SET == (raw & VERSION_VARIANT_CLEAR) | VERSION_VARIANT_SET)
        by (bit_vector);
}

/// Every normalized value carries the fixed markers: its version nibble is 4
/// and its variant bits are the two-bit pattern `10`.
pub proof fn lemma_normalized_version_variant(v: u128)
    requires
        is_normalized(v),
    ensures
        (v >> 52) & 0xf == 4,
        (v >> 70) & 3 == 2,
{
    let n = spec_normalize(v);
    assert(((v & VERSION_VARIANT_CLEAR) | VERSION_VARIANT_SET) >> 52 & 0xf == 4) by (bit_vector);
    assert(((v & VERSION_VARIANT_CLEAR) | VERSION_VARIANT_SET) >> 70 & 3 == 2) by (bit_vector);
}

} // verus!
