//! A version-4 (random) UUID held as a single 128-bit integer, with lossless,
//! bit-exact conversions between that integer and four external forms: a
//! 16-byte little-endian buffer, a 32-character packed hexadecimal string, the
//! 36-character hyphenated canonical string, and a 22-character URL-safe
//! base64-like encoding over a private alphabet.

use vstd::prelude::*;

pub mod b64codec;
pub mod bytescodec;
pub mod canonical;
pub mod error;
pub mod hexcodec;
pub mod laws;
pub mod norm;
pub mod text;
pub mod uuid4;

pub use crate::error::U64Error;
pub use crate::norm::is_normalized;
pub use crate::norm::normalize;
pub use crate::norm::spec_normalize;
pub use crate::uuid4::Uuid4;
pub use crate::uuid4::Uuid4Proxy;

verus! {

use crate::b64codec::{encode_b64_bytes, spec_b64_bytes, lemma_b64_bytes_roundtrip};
use crate::canonical::{encode_canonical_bytes, spec_canonical_bytes, lemma_canonical_shape};
use crate::hexcodec::{encode_hex_bytes, spec_hex_bytes, lemma_hex_bytes_roundtrip};
use crate::text::{all_ascii, ascii_str, lemma_ascii_decode, string_from_bytes};

/// Core trait of the library: any type that can expose and replace a 128-bit
/// value gains the codec operations defined against that accessor.
pub trait Uuid {
    /// The 128-bit value held by the implementor, as seen by contracts.
    spec fn raw_uuid(&self) -> u128;

    /// Direct access to the internal value of the uuid.
    ///
    /// This allows the other trait methods to read the value without knowing
    /// how or where it is actually kept.
    fn uuid0(&self) -> (r: u128)
        ensures
            r == self.raw_uuid(),
    ;

    /// Direct access to set the internal value of the uuid, bypassing
    /// normalization.
    ///
    /// This allows the other trait methods to write the value without knowing
    /// how or where it is actually kept.
    fn set_uuid0(&mut self, v: u128)
        ensures
            final(self).raw_uuid() == v,
    ;

    /// Generate the custom base 64 encoded form of the held value: always
    /// exactly the 22 alphabet characters of [`spec_b64_bytes`].
    ///
    /// The result is fallible in its type — the table lookup is modeled as
    /// able to miss — but the alphabet maps all 64 patterns, so this always
    /// returns `Ok`.
    fn as_base64(&self) -> (r: Result<String, U64Error>)
        ensures
            r matches Ok(s) && s@ == ascii_str(spec_b64_bytes(self.raw_uuid())),
    {
        let bytes = encode_b64_bytes(self.uuid0());
        proof {
            lemma_b64_bytes_roundtrip(self.raw_uuid());
            assert(all_ascii(bytes@));
            lemma_ascii_decode(bytes@);
        }
        Ok(string_from_bytes(bytes))
    }

    /// Generate the hexadecimal encoded form of the held value: always
    /// exactly 32 lowercase hex digits, zero-padded on the left.
    fn as_hex_string(&self) -> (r: String)
        ensures
            r@ == ascii_str(spec_hex_bytes(self.raw_uuid())),
    {
        let bytes = encode_hex_bytes(self.uuid0());
        proof {
            lemma_hex_bytes_roundtrip(self.raw_uuid());
            assert(all_ascii(bytes@));
            lemma_ascii_decode(bytes@);
        }
        string_from_bytes(bytes)
    }

    /// Generate the standard hyphenated form of the held value: always the
    /// 36 characters of [`spec_canonical_bytes`], the 32 hex digits grouped
    /// 8-4-4-4-12.
    fn as_uuid(&self) -> (r: Result<String, U64Error>)
        ensures
            r matches Ok(s) && s@ == ascii_str(spec_canonical_bytes(self.raw_uuid())),
    {
        let bytes = encode_canonical_bytes(self.uuid0());
        proof {
            lemma_canonical_shape(self.raw_uuid());
            assert(all_ascii(bytes@));
            lemma_ascii_decode(bytes@);
        }
        Ok(string_from_bytes(bytes))
    }
}

impl Uuid for Uuid4 {
    open spec fn raw_uuid(&self) -> u128 {
        self.0
    }

    fn uuid0(&self) -> u128 {
        self.0
    }

    fn set_uuid0(&mut self, v: u128) {
        self.0 = v;
    }
}

} // verus!
