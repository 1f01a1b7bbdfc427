//! The shared error type for every decode path of the library.

use vstd::prelude::*;

verus! {

/// Errors reported by the decoding paths.
///
/// Every decode failure is reported through this type; construction from an
/// already-validated 128-bit integer or 16-byte buffer never fails.
#[derive(Debug, PartialEq, Eq, Structural)]
#[non_exhaustive]
pub enum U64Error {
    /// A binary digit string held a character other than `0` or `1`.
    /// Defensive: no reachable decode path produces it.
    InvalidBinString,
    /// A hexadecimal string held a character outside `0-9a-fA-F`.
    InvalidHexString,
    /// A byte sequence was not valid UTF-8.
    InvalidUtf8String,
    /// A canonical UUID string failed to parse as hexadecimal once its
    /// hyphens were removed.
    InvalidUuidString,
    /// A base64 string held a character outside the private 64-symbol
    /// alphabet.
    InvalidBase64String,
    /// The input length was not one of the four recognized lengths
    /// (16, 22, 32 or 36); the payload is the offending length.
    InvalidStrLength(usize),
    /// A 6-bit group had no alphabet entry; the payload is the group.
    /// Defensive: the alphabet maps all 64 patterns, so no reachable
    /// encode path produces it.
    UnknownBitPattern(u8),
}

} // verus!
