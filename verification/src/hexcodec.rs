//! The hexadecimal codec: the 128-bit value as exactly 32 lowercase hex
//! digits, and the positional parse back from hex digit bytes.

use vstd::prelude::*;
use vstd::arithmetic::power2::{
    pow2, lemma_pow2_adds, lemma_pow2_pos, lemma_pow2_strictly_increases, lemma2_to64,
    lemma2_to64_rest,
};

verus! {

/// The lowercase hex digit byte for a nibble value below 16.
pub open spec fn hex_digit_byte(d: u8) -> u8
    recommends
        d < 16,
{
    if d < 10 {
        (d + 48) as u8
    } else {
        (d + 87) as u8
    }
}

/// The `i`-th nibble of `v`, counted from the most significant end of the
/// 128-bit value, for `0 <= i < 32`.
pub open spec fn spec_nibble(v: u128, i: int) -> u8
    recommends
        0 <= i < 32,
{
    ((v >> ((124 - 4 * i) as u128)) & 0xf) as u8
}

/// The packed hex form of `v`: 32 lowercase hex digit bytes, most significant
/// nibble first, zero-padded on the left.
pub open spec fn spec_hex_bytes(v: u128) -> Seq<u8> {
    Seq::new(32, |i: int| hex_digit_byte(spec_nibble(v, i)))
}

/// True for the bytes `0-9`, `a-f` and `A-F`.
pub open spec fn is_hex_digit(b: u8) -> bool {
    (48 <= b <= 57) || (97 <= b <= 102) || (65 <= b <= 70)
}

/// The value of a hex digit byte; zero for a byte outside the hex alphabet.
pub open spec fn hex_digit_val(b: u8) -> u8 {
    if 48 <= b <= 57 {
        (b - 48) as u8
    } else if 97 <= b <= 102 {
        (b - 87) as u8
    } else if 65 <= b <= 70 {
        (b - 55) as u8
    } else {
        0
    }
}

/// True when every byte of `s` is a hex digit.
pub open spec fn all_hex_digits(s: Seq<u8>) -> bool {
    forall|i: int| 0 <= i < s.len() ==> is_hex_digit(#[trigger] s[i])
}

/// The number denoted by `s` read as base-16 digits, most significant first.
pub open spec fn hex_value(s: Seq<u8>) -> int
    decreases s.len(),
{
    if s.len() == 0 {
        0
    } else {
        hex_value(s.drop_last()) * 16 + hex_digit_val(s.last())
    }
}

/// Encodes one nibble value as its lowercase hex digit byte.
pub(crate) fn hex_digit_encode(d: u8) -> (r: u8)
    requires
        d < 16,
    ensures
        r == hex_digit_byte(d),
{
    if d < 10 {
        d + 48
    } else {
        d + 87
    }
}

/// Tests a byte for membership in the hex alphabet.
fn hex_digit_check(b: u8) -> (r: bool)
    ensures
        r == is_hex_digit(b),
{
    (48 <= b && b <= 57) || (97 <= b && b <= 102) || (65 <= b && b <= 70)
}

/// Decodes one hex digit byte to its value.
fn hex_digit_decode(b: u8) -> (r: u8)
    requires
        is_hex_digit(b),
    ensures
        r == hex_digit_val(b),
{
    if 48 <= b && b <= 57 {
        b - 48
    } else if 97 <= b && b <= 102 {
        b - 87
    } else {
        b - 55
    }
}

/// A shifted-and-masked nibble is below 16 and survives the cast to `u8`.
pub(crate) proof fn lemma_mask4_bound(v: u128, sh: u128)
    by (bit_vector)
    ensures
        (v >> sh) & 0xf < 16,
{
}

/// Reading one more nibble multiplies the value seen so far by 16.
proof fn lemma_shift_step4(v: u128, sh: u128)
    by (bit_vector)
    requires
        sh <= 124,
    ensures
        v >> sh == ((v >> sh) >> 4) * 16 + ((v >> sh) & 0xf),
{
}

/// Formats `v` as exactly 32 lowercase hex digit bytes.
pub(crate) fn encode_hex_bytes(v: u128) -> (r: Vec<u8>)
    ensures
        r@ == spec_hex_bytes(v),
{
    let mut out: Vec<u8> = Vec::new();
    let mut i: usize = 0;
    while i < 32
        invariant
            i <= 32,
            out@.len() == i,
            forall|j: int| 0 <= j < i ==> out@[j] == spec_hex_bytes(v)[j],
        decreases 32 - i,
    {
        let sh: u128 = 124 - 4 * (i as u128);
        let masked: u128 = (v >> sh) & 0xf;
        proof {
            lemma_mask4_bound(v, sh);
        }
        let nib: u8 = masked as u8;
        assert(nib == spec_nibble(v, i as int));
        out.push(hex_digit_encode(nib));
        i += 1;
    }
    assert(out@ =~= spec_hex_bytes(v));
    out
}

/// Extending a prefix by one digit multiplies its value by 16 and adds the
/// digit.
pub proof fn lemma_hex_value_step(s: Seq<u8>, j: int)
    requires
        0 <= j < s.len(),
    ensures
        hex_value(s.take(j + 1)) == hex_value(s.take(j)) * 16 + hex_digit_val(s[j]),
{
    assert(s.take(j + 1).drop_last() =~= s.take(j));
    assert(s.take(j + 1).last() == s[j]);
}

/// The value of `n` digits lies below `pow2(4 n)`.
pub proof fn lemma_hex_value_bound(s: Seq<u8>)
    ensures
        0 <= hex_value(s) < pow2((4 * s.len()) as nat),
    decreases s.len(),
{
    if s.len() == 0 {
        assert(pow2(0) == 1) by {
            lemma2_to64();
        }
    } else {
        lemma_hex_value_bound(s.drop_last());
        lemma_pow2_adds((4 * (s.len() - 1)) as nat, 4);
        assert(pow2(4) == 16) by {
            lemma2_to64();
        }
    }
}

/// Splitting the digits at `k` splits the value positionally.
pub proof fn lemma_hex_value_split(s: Seq<u8>, k: int)
    requires
        0 <= k <= s.len(),
    ensures
        hex_value(s) == hex_value(s.take(k)) * pow2((4 * (s.len() - k)) as nat) + hex_value(
            s.skip(k),
        ),
    decreases s.len() - k,
{
    if k == s.len() {
        assert(s.take(k) =~= s);
        assert(s.skip(k) =~= Seq::<u8>::empty());
        assert(pow2(0) == 1) by {
            lemma2_to64();
        }
        assert(hex_value(s.skip(k)) == 0);
        assert((4 * (s.len() - k)) as nat == 0);
        assert(hex_value(s.take(k)) * pow2(0) == hex_value(s) * 1);
    } else {
        let d = s.drop_last();
        lemma_hex_value_split(d, k);
        assert(d.take(k) =~= s.take(k));
        assert(s.skip(k).drop_last() =~= d.skip(k));
        assert(s.skip(k).last() == s.last());
        let p = pow2((4 * (d.len() - k)) as nat) as int;
        lemma_pow2_adds((4 * (d.len() - k)) as nat, 4);
        assert(pow2(4) == 16) by {
            lemma2_to64();
        }
        assert(hex_value(s) == (hex_value(s.take(k)) * p + hex_value(d.skip(k))) * 16
            + hex_digit_val(s.last()));
        assert((hex_value(s.take(k)) * p) * 16 == hex_value(s.take(k)) * (p * 16))
            by (nonlinear_arith);
        assert(p * 16 == pow2((4 * (s.len() - k)) as nat));
        assert(hex_value(s.skip(k)) == hex_value(d.skip(k)) * 16 + hex_digit_val(s.last()));
        assert(hex_value(s) == hex_value(s.take(k)) * (p * 16) + (hex_value(d.skip(k)) * 16
            + hex_digit_val(s.last())));
        assert(hex_value(s.take(k)) * (p * 16) == hex_value(s.take(k)) * pow2(
            (4 * (s.len() - k)) as nat,
        )) by (nonlinear_arith)
            requires
                p * 16 == pow2((4 * (s.len() - k)) as nat),
        ;
    }
}

/// `pow2(128)` written out, one past the largest 128-bit value.
pub proof fn lemma_pow2_128()
    ensures
        pow2(128) == 0x100000000000000000000000000000000,
{
    lemma2_to64();
    lemma_pow2_adds(64, 64);
}

/// The value of a digit sequence is zero exactly when every digit has value
/// zero.
pub proof fn lemma_hex_value_zero(s: Seq<u8>)
    ensures
        hex_value(s) == 0 <==> forall|j: int| 0 <= j < s.len() ==> hex_digit_val(#[trigger] s[j])
            == 0,
    decreases s.len(),
{
    if s.len() != 0 {
        let d = s.drop_last();
        lemma_hex_value_zero(d);
        lemma_hex_value_bound(d);
        assert(forall|j: int| 0 <= j < d.len() ==> d[j] == s[j]);
        if hex_value(s) == 0 {
            assert(hex_value(d) * 16 >= 0) by (nonlinear_arith)
                requires
                    hex_value(d) >= 0,
            ;
        }
    }
}

/// Parses 32 to 36 hex digit bytes as one base-16 number, returning `None`
/// when a byte is not a hex digit or when the number does not fit in 128
/// bits.
pub(crate) fn parse_hex_digits(s: &[u8]) -> (r: Option<u128>)
    requires
        32 <= s@.len() <= 36,
    ensures
        r is Some <==> all_hex_digits(s@) && hex_value(s@) < pow2(128),
        r matches Some(u) ==> u == hex_value(s@),
{
    let n = s.len();
    let mut i: usize = 0;
    while i < n
        invariant
            n == s@.len(),
            i <= n,
            forall|j: int| 0 <= j < i ==> is_hex_digit(#[trigger] s@[j]),
        decreases n - i,
    {
        if !hex_digit_check(s[i]) {
            return None;
        }
        i += 1;
    }
    // All digits are hex; the number fits in 128 bits exactly when the
    // digits before the final 32 are all zero.
    let extra = n - 32;
    let mut j: usize = 0;
    while j < extra
        invariant
            n == s@.len(),
            32 <= n <= 36,
            extra == n - 32,
            j <= extra,
            all_hex_digits(s@),
            forall|t: int| 0 <= t < j ==> s@[t] == 48,
        decreases extra - j,
    {
        if s[j] != 48 {
            proof {
                lemma_hex_overflow(s@, j as int);
            }
            return None;
        }
        j += 1;
    }
    proof {
        lemma_hex_prefix_zero(s@, extra as int);
    }
    // Fold the final 32 digits.
    let tail_ghost = Ghost(s@.skip(extra as int));
    proof {
        lemma2_to64();
    }
    let mut acc: u128 = 0;
    let mut k: usize = 0;
    while k < 32
        invariant
            n == s@.len(),
            32 <= n <= 36,
            extra == n - 32,
            all_hex_digits(s@),
            tail_ghost@ == s@.skip(extra as int),
            tail_ghost@.len() == 32,
            k <= 32,
            acc == hex_value(tail_ghost@.take(k as int)),
            acc < pow2((4 * k) as nat),
        decreases 32 - k,
    {
        let d = hex_digit_decode(s[extra + k]);
        proof {
            assert(tail_ghost@[k as int] == s@[extra + k as int]);
            lemma_hex_value_step(tail_ghost@, k as int);
            lemma2_to64();
            lemma_pow2_128();
            if 4 * k < 124 {
                lemma_pow2_strictly_increases((4 * k) as nat, 124);
            }
            lemma_pow2_adds(124, 4);
            assert(acc < pow2(124));
            assert(pow2(128) == pow2(124) * 16);
            lemma_pow2_adds((4 * k) as nat, 4);
        }
        acc = acc * 16 + (d as u128);
        k += 1;
    }
    proof {
        assert(tail_ghost@.take(32) =~= tail_ghost@);
        lemma_hex_value_bound(tail_ghost@);
        lemma_hex_value_split(s@, extra as int);
        lemma2_to64();
        lemma2_to64_rest();
    }
    Some(acc)
}

/// A nonzero hex digit among the leading `extra` digits pushes the value to
/// `pow2(128)` or beyond.
proof fn lemma_hex_overflow(s: Seq<u8>, j: int)
    requires
        32 <= s.len() <= 36,
        all_hex_digits(s),
        0 <= j < s.len() - 32,
        s[j] != 48,
    ensures
        hex_value(s) >= pow2(128),
{
    let k = (s.len() - 32) as int;
    lemma_hex_value_split(s, k);
    lemma_hex_value_zero(s.take(k));
    assert(s.take(k)[j] == s[j]);
    assert(hex_digit_val(s[j]) != 0);
    lemma_hex_value_bound(s.take(k));
    lemma_hex_value_bound(s.skip(k));
    assert(hex_value(s.take(k)) >= 1);
    assert(pow2((4 * (s.len() - k)) as nat) == pow2(128));
    assert(hex_value(s.take(k)) * pow2(128) >= pow2(128)) by (nonlinear_arith)
        requires
            hex_value(s.take(k)) >= 1,
            pow2(128) > 0,
    ;
    lemma_pow2_pos(128);
}

/// All-zero leading digits contribute nothing: the value is that of the
/// final 32 digits, and it fits in 128 bits.
proof fn lemma_hex_prefix_zero(s: Seq<u8>, k: int)
    requires
        32 <= s.len() <= 36,
        k == s.len() - 32,
        forall|t: int| 0 <= t < k ==> s[t] == 48,
    ensures
        hex_value(s) == hex_value(s.skip(k)),
        hex_value(s) < pow2(128),
{
    lemma_hex_value_split(s, k);
    lemma_hex_value_zero(s.take(k));
    assert(forall|t: int| 0 <= t < k ==> s.take(k)[t] == 48);
    assert(hex_value(s.take(k)) == 0);
    lemma_hex_value_bound(s.skip(k));
}

/// A hex digit decodes back to the nibble it encodes.
pub proof fn lemma_hex_digit_roundtrip(d: u8)
    requires
        d < 16,
    ensures
        is_hex_digit(hex_digit_byte(d)),
        hex_digit_val(hex_digit_byte(d)) == d,
{
}

/// The packed hex form of any value consists of hex digits and denotes that
/// value: decoding the encoding returns the input.
pub proof fn lemma_hex_bytes_roundtrip(v: u128)
    ensures
        spec_hex_bytes(v).len() == 32,
        all_hex_digits(spec_hex_bytes(v)),
        hex_value(spec_hex_bytes(v)) == v,
{
    assert forall|i: int| 0 <= i < 32 implies is_hex_digit(#[trigger] spec_hex_bytes(v)[i]) by {
        lemma_mask4_bound(v, (124 - 4 * i) as u128);
        lemma_hex_digit_roundtrip(spec_nibble(v, i));
    }
    lemma_hex_prefix_value(v, 32);
    assert(spec_hex_bytes(v).take(32) =~= spec_hex_bytes(v));
    assert(v >> 0u128 == v) by (bit_vector);
}

/// The first `k` hex digits of the encoding denote the top `4 k` bits of the
/// value.
proof fn lemma_hex_prefix_value(v: u128, k: int)
    requires
        1 <= k <= 32,
    ensures
        hex_value(spec_hex_bytes(v).take(k)) == v >> ((128 - 4 * k) as u128),
    decreases k,
{
    let s = spec_hex_bytes(v);
    let shk = (128 - 4 * k) as u128;
    lemma_mask4_bound(v, shk);
    if k == 1 {
        lemma_hex_value_step(s, 0);
        assert(s.take(0) =~= Seq::<u8>::empty());
        lemma_hex_digit_roundtrip(spec_nibble(v, 0));
        assert((v >> 124) & 0xf == v >> 124) by (bit_vector);
    } else {
        lemma_hex_prefix_value(v, k - 1);
        let shp = (128 - 4 * (k - 1)) as u128;
        lemma_hex_value_step(s, k - 1);
        lemma_hex_digit_roundtrip(spec_nibble(v, k - 1));
        assert(v >> shp == (v >> shk) >> 4) by (bit_vector)
            requires
                shp == shk + 4 && shk <= 124,
        ;
        lemma_shift_step4(v, shk);
    }
}

} // verus!
