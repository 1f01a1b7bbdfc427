//! The concrete identifier type: a 128-bit value normalized to the fixed
//! version-4 / variant-10 bit pattern on every construction path.

use vstd::prelude::*;
use vstd::arithmetic::power2::pow2;
use vstd::utf8::valid_utf8;

use crate::b64codec::{all_b64_digits, b64_value, parse_b64_digits};
use crate::bytescodec::{le_value, u128_from_le_slice};
use crate::canonical::{strip_hyphens, strip_hyphens_exec, lemma_strip_hyphens_len};
use crate::error::U64Error;
use crate::hexcodec::{all_hex_digits, hex_value, lemma_hex_value_bound, parse_hex_digits};
use crate::norm::{normalize, spec_normalize, is_normalized};
use crate::text::check_utf8;

verus! {

/// Minimum structure implementing the core trait: its sole state is the
/// 128-bit value.
#[derive(Debug, PartialEq, Eq, Hash, PartialOrd, Ord, Structural)]
pub struct Uuid4(pub u128);

/// Marker type standing for the database column representation of a
/// [`Uuid4`]; adapters outside the library map it to a concrete column type.
pub struct Uuid4Proxy;

/// The thread-local random number generator of the `rand` crate, declared so
/// that an optional caller-supplied generator can be threaded through
/// [`Uuid4::new`].  Values of it are opaque to the library.
#[verifier::external_type_specification]
#[verifier::external_body]
pub struct ExThreadRng(rand::rngs::ThreadRng);

/// Relies on `rand::Rng::gen` to draw a uniformly random 128-bit value from
/// the supplied generator.  Nothing can be promised of a random value.
#[verifier::external_body]
fn draw_from_rng(rng: &mut rand::rngs::ThreadRng) -> u128 {
    rand::Rng::gen(rng)
}

/// Relies on `rand::random` to draw a uniformly random 128-bit value from the
/// process-global thread-local generator.  Nothing can be promised of a
/// random value.
#[verifier::external_body]
fn draw_random() -> u128 {
    rand::random()
}

/// What decoding a 32-byte packed hex form yields: the UTF-8 check comes
/// first, then the hex-digit check, then the parsed value is normalized.
pub open spec fn spec_from_hex_bytes(s: Seq<u8>) -> Result<u128, U64Error> {
    if !valid_utf8(s) {
        Err(U64Error::InvalidUtf8String)
    } else if all_hex_digits(s) {
        Ok(spec_normalize(hex_value(s) as u128))
    } else {
        Err(U64Error::InvalidHexString)
    }
}

/// What decoding a 36-byte canonical form yields: after the UTF-8 check the
/// first four hyphens are removed wherever they occur, and the remainder
/// must be hex digits denoting a 128-bit value.
pub open spec fn spec_from_canonical_bytes(s: Seq<u8>) -> Result<u128, U64Error> {
    if !valid_utf8(s) {
        Err(U64Error::InvalidUtf8String)
    } else {
        let d = strip_hyphens(s, 4);
        if all_hex_digits(d) && hex_value(d) < pow2(128) {
            Ok(spec_normalize(hex_value(d) as u128))
        } else {
            Err(U64Error::InvalidUuidString)
        }
    }
}

/// What decoding a 22-byte base64 form yields: every byte must belong to
/// the private alphabet, and the denoted value is normalized.
pub open spec fn spec_from_b64_bytes(s: Seq<u8>) -> Result<u128, U64Error> {
    if all_b64_digits(s) {
        Ok(spec_normalize(b64_value(s) as u128))
    } else {
        Err(U64Error::InvalidBase64String)
    }
}

/// What the length-dispatched decode yields for any byte sequence: 16 bytes
/// are the little-endian binary form and always succeed, 22/32/36 bytes go
/// to their codec, and every other length is a length error.
pub open spec fn spec_try_from_bytes(s: Seq<u8>) -> Result<u128, U64Error> {
    if s.len() == 16 {
        Ok(spec_normalize(le_value(s) as u128))
    } else if s.len() == 22 {
        spec_from_b64_bytes(s)
    } else if s.len() == 32 {
        spec_from_hex_bytes(s)
    } else if s.len() == 36 {
        spec_from_canonical_bytes(s)
    } else {
        Err(U64Error::InvalidStrLength(s.len() as usize))
    }
}

/// True when the executable decode result carries exactly the value or the
/// error that the specification-level decode names.
pub open spec fn decode_matches(r: Result<Uuid4, U64Error>, sp: Result<u128, U64Error>) -> bool {
    match (r, sp) {
        (Ok(u), Ok(w)) => u.0 == w,
        (Err(e), Err(f)) => e == f,
        _ => false,
    }
}

impl Uuid4 {
    /// Construct a new random instance, normalized to a valid version-4
    /// UUID.
    ///
    /// `rng` may carry a caller-supplied random number generator, saving the
    /// per-call lookup of the process-global one when generating many values.
    pub fn new(rng: Option<&mut rand::rngs::ThreadRng>) -> (r: Self)
        ensures
            is_normalized(r.0),
    {
        let v: u128 = match rng {
            Some(r) => draw_from_rng(r),
            None => draw_random(),
        };
        proof {
            crate::norm::lemma_normalize_idempotent(v);
        }
        Uuid4(normalize(v))
    }

    /// Decode a 16-byte little-endian buffer.  Total: any 16-byte input is
    /// valid, and the read value is normalized.
    pub fn from_bytes16(value: &[u8; 16]) -> (r: Self)
        ensures
            r.0 == spec_normalize(le_value(value@) as u128),
    {
        let v = u128_from_le_slice(value.as_slice());
        Uuid4(normalize(v))
    }

    /// Decode a 32-byte packed hex form: the bytes must be valid UTF-8 and
    /// all hex digits; the parsed value is normalized.
    pub fn from_hex32(value: &[u8; 32]) -> (r: Result<Self, U64Error>)
        ensures
            decode_matches(r, spec_from_hex_bytes(value@)),
    {
        Self::decode_hex_slice(value.as_slice())
    }

    /// Decode a 36-byte canonical form: the bytes must be valid UTF-8, and
    /// once the first four hyphens are removed — wherever they occur — the
    /// remainder must be hex digits denoting a 128-bit value, which is
    /// normalized.
    pub fn from_canonical(value: &[u8; 36]) -> (r: Result<Self, U64Error>)
        ensures
            decode_matches(r, spec_from_canonical_bytes(value@)),
    {
        Self::decode_canonical_slice(value.as_slice())
    }

    /// Decode a 22-byte custom base64 form: every byte must belong to the
    /// private alphabet; the denoted value is normalized.
    pub fn from_base64_22(value: &[u8; 22]) -> (r: Result<Self, U64Error>)
        ensures
            decode_matches(r, spec_from_b64_bytes(value@)),
    {
        Self::decode_b64_slice(value.as_slice())
    }

    /// Decode a byte sequence whose encoding is not known ahead of time,
    /// dispatching purely on its length: 16 bytes are the binary form,
    /// 22 the base64 form, 32 the packed hex form, 36 the canonical form;
    /// every other length is rejected with a length error.
    pub fn try_from_bytes(value: &[u8]) -> (r: Result<Self, U64Error>)
        ensures
            decode_matches(r, spec_try_from_bytes(value@)),
    {
        match value.len() {
            16 => Ok(Uuid4(normalize(u128_from_le_slice(value)))),
            22 => Self::decode_b64_slice(value),
            32 => Self::decode_hex_slice(value),
            36 => Self::decode_canonical_slice(value),
            n => Err(U64Error::InvalidStrLength(n)),
        }
    }

    /// Decode a string slice through its UTF-8 bytes, dispatching on the
    /// byte length as [`Uuid4::try_from_bytes`] does.
    pub fn try_from(value: &str) -> (r: Result<Self, U64Error>)
        ensures
            decode_matches(r, spec_try_from_bytes(vstd::utf8::encode_utf8(value@))),
    {
        let bytes = value.as_bytes();
        Self::try_from_bytes(bytes)
    }

    fn decode_hex_slice(value: &[u8]) -> (r: Result<Self, U64Error>)
        requires
            value@.len() == 32,
        ensures
            decode_matches(r, spec_from_hex_bytes(value@)),
    {
        if !check_utf8(value) {
            return Err(U64Error::InvalidUtf8String);
        }
        match parse_hex_digits(value) {
            Some(v) => {
                proof {
                    lemma_hex_value_bound(value@);
                }
                Ok(Uuid4(normalize(v)))
            },
            None => {
                proof {
                    lemma_hex_value_bound(value@);
                    crate::hexcodec::lemma_pow2_128();
                    vstd::arithmetic::power2::lemma2_to64();
                    vstd::arithmetic::power2::lemma_pow2_adds(64, 64);
                }
                Err(U64Error::InvalidHexString)
            },
        }
    }

    fn decode_canonical_slice(value: &[u8]) -> (r: Result<Self, U64Error>)
        requires
            value@.len() == 36,
        ensures
            decode_matches(r, spec_from_canonical_bytes(value@)),
    {
        if !check_utf8(value) {
            return Err(U64Error::InvalidUtf8String);
        }
        let digits = strip_hyphens_exec(value);
        proof {
            lemma_strip_hyphens_len(value@, 4);
        }
        match parse_hex_digits(digits.as_slice()) {
            Some(v) => Ok(Uuid4(normalize(v))),
            None => Err(U64Error::InvalidUuidString),
        }
    }

    fn decode_b64_slice(value: &[u8]) -> (r: Result<Self, U64Error>)
        requires
            value@.len() == 22,
        ensures
            decode_matches(r, spec_from_b64_bytes(value@)),
    {
        match parse_b64_digits(value) {
            Some(v) => Ok(Uuid4(normalize(v))),
            None => Err(U64Error::InvalidBase64String),
        }
    }
}

impl From<&[u8; 16]> for Uuid4 {
    /// Reads the buffer as a little-endian 128-bit integer and normalizes.
    fn from(bytes: &[u8; 16]) -> (r: Self) {
        Uuid4::from_bytes16(bytes)
    }
}

impl vstd::std_specs::convert::FromSpecImpl<&[u8; 16]> for Uuid4 {
    open spec fn obeys_from_spec() -> bool {
        true
    }

    open spec fn from_spec(bytes: &[u8; 16]) -> Self {
        Uuid4(spec_normalize(le_value(bytes@) as u128))
    }
}

impl Default for Uuid4 {
    /// The identifier whose only non-zero bits are the version/variant
    /// markers: `normalize(0)`.
    fn default() -> (r: Self)
        ensures
            r.0 == spec_normalize(0),
    {
        proof {
            assert((0u128 & crate::norm::VERSION_VARIANT_CLEAR)
                | crate::norm::VERSION_VARIANT_SET == crate::norm::VERSION_VARIANT_SET)
                by (bit_vector);
        }
        Uuid4(0x00000000000000800040000000000000)
    }
}

impl From<u128> for Uuid4 {
    /// Normalizes `v` and wraps the result.
    fn from(v: u128) -> (r: Self) {
        Uuid4(normalize(v))
    }
}

impl vstd::std_specs::convert::FromSpecImpl<u128> for Uuid4 {
    open spec fn obeys_from_spec() -> bool {
        true
    }

    open spec fn from_spec(v: u128) -> Self {
        Uuid4(spec_normalize(v))
    }
}

} // verus!
