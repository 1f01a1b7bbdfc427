//! Bridging between byte sequences and text: UTF-8 validation of decoder
//! input, ASCII views of encoder output, and `String` construction.

use vstd::prelude::*;
use vstd::utf8::{
    decode_utf8, encode_utf8, encode_utf8_decode_utf8, encode_utf8_valid_utf8, is_ascii_chars,
    is_ascii_chars_encode_utf8, valid_utf8,
};

verus! {

/// The character sequence read off an ASCII byte sequence, byte for byte.
pub open spec fn ascii_str(s: Seq<u8>) -> Seq<char> {
    s.map(|i: int, b: u8| b as char)
}

/// True when every byte of `s` is an ASCII byte.
pub open spec fn all_ascii(s: Seq<u8>) -> bool {
    forall|i: int| 0 <= i < s.len() ==> #[trigger] s[i] < 128
}

/// Relies on `core::str::from_utf8`: it returns `Ok` exactly when the bytes
/// are a valid UTF-8 encoding.
#[verifier::external_body]
pub(crate) fn check_utf8(bytes: &[u8]) -> (r: bool)
    ensures
        r == valid_utf8(bytes@),
{
    core::str::from_utf8(bytes).is_ok()
}

/// Relies on `String::from_utf8`: valid UTF-8 bytes become the string of
/// exactly those bytes, so its character view is their decoding.
#[verifier::external_body]
pub(crate) fn string_from_bytes(bytes: Vec<u8>) -> (r: String)
    requires
        valid_utf8(bytes@),
    ensures
        r@ == decode_utf8(bytes@),
{
    match String::from_utf8(bytes) {
        Ok(s) => s,
        Err(_) => String::new(),
    }
}

/// An ASCII byte sequence is valid UTF-8, its decoding is the byte-for-byte
/// character view, and that view encodes back to the same bytes.
pub proof fn lemma_ascii_decode(s: Seq<u8>)
    requires
        all_ascii(s),
    ensures
        is_ascii_chars(ascii_str(s)),
        encode_utf8(ascii_str(s)) == s,
        valid_utf8(s),
        decode_utf8(s) == ascii_str(s),
{
    let cs = ascii_str(s);
    assert forall|i: int| 0 <= i < cs.len() implies '\0' <= #[trigger] cs[i] <= '\u{7f}' by {
        assert(s[i] < 128);
        assert(cs[i] == s[i] as char);
    }
    is_ascii_chars_encode_utf8(cs);
    assert forall|i: int| 0 <= i < cs.len() implies #[trigger] encode_utf8(cs)[i] == s[i] by {
        assert(cs[i] as u8 == encode_utf8(cs)[i]);
        assert((s[i] as char) as u8 == s[i]);
    }
    assert(encode_utf8(cs) =~= s);
    encode_utf8_valid_utf8(cs);
    encode_utf8_decode_utf8(cs);
}

} // verus!
