//! The canonical 36-character hyphenated form: the packed hex digits grouped
//! 8-4-4-4-12 with `-` at character offsets 8, 13, 18 and 23, and the
//! permissive decode that removes the first four hyphens found anywhere
//! before parsing the remainder as hex.

use vstd::prelude::*;

use crate::hexcodec::{hex_digit_byte, spec_hex_bytes, spec_nibble};

verus! {

/// True at the four character offsets that hold a hyphen.
pub open spec fn is_hyphen_pos(i: int) -> bool {
    i == 8 || i == 13 || i == 18 || i == 23
}

/// How many hyphen offsets lie strictly before position `i`.
pub open spec fn hyphens_before(i: int) -> int {
    (if i > 8 {
        1int
    } else {
        0int
    }) + (if i > 13 {
        1int
    } else {
        0int
    }) + (if i > 18 {
        1int
    } else {
        0int
    }) + (if i > 23 {
        1int
    } else {
        0int
    })
}

/// The canonical form of `v`: the 32 hex digits with a hyphen inserted after
/// digit positions 8, 12, 16 and 20.
pub open spec fn spec_canonical_bytes(v: u128) -> Seq<u8> {
    Seq::new(
        36,
        |i: int|
            if is_hyphen_pos(i) {
                45
            } else {
                hex_digit_byte(spec_nibble(v, i - hyphens_before(i)))
            },
    )
}

/// Removes the first `k` hyphens of `s`, wherever they occur; every other
/// byte is kept in order.
pub open spec fn strip_hyphens(s: Seq<u8>, k: int) -> Seq<u8>
    decreases s.len(),
{
    if s.len() == 0 {
        s
    } else if s[0] == 45 && k > 0 {
        strip_hyphens(s.drop_first(), k - 1)
    } else {
        seq![s[0]] + strip_hyphens(s.drop_first(), k)
    }
}

/// Stripping never drops more than `k` bytes and never adds any.
pub proof fn lemma_strip_hyphens_len(s: Seq<u8>, k: int)
    requires
        k >= 0,
    ensures
        s.len() - k <= strip_hyphens(s, k).len() <= s.len(),
    decreases s.len(),
{
    if s.len() != 0 {
        if s[0] == 45 && k > 0 {
            lemma_strip_hyphens_len(s.drop_first(), k - 1);
        } else {
            lemma_strip_hyphens_len(s.drop_first(), k);
        }
    }
}

/// Formats `v` as the 36 bytes of its canonical form.
pub(crate) fn encode_canonical_bytes(v: u128) -> (r: Vec<u8>)
    ensures
        r@ == spec_canonical_bytes(v),
{
    let mut out: Vec<u8> = Vec::new();
    let mut i: usize = 0;
    while i < 36
        invariant
            i <= 36,
            out@.len() == i,
            forall|j: int| 0 <= j < i ==> out@[j] == spec_canonical_bytes(v)[j],
        decreases 36 - i,
    {
        if i == 8 || i == 13 || i == 18 || i == 23 {
            out.push(45);
        } else {
            let hp: usize = if i < 8 {
                i
            } else if i < 13 {
                i - 1
            } else if i < 18 {
                i - 2
            } else if i < 23 {
                i - 3
            } else {
                i - 4
            };
            assert(hp == i - hyphens_before(i as int));
            let sh: u128 = 124 - 4 * (hp as u128);
            let masked: u128 = (v >> sh) & 0xf;
            proof {
                crate::hexcodec::lemma_mask4_bound(v, sh);
            }
            let nib: u8 = masked as u8;
            assert(nib == spec_nibble(v, hp as int));
            out.push(crate::hexcodec::hex_digit_encode(nib));
        }
        i += 1;
    }
    assert(out@ =~= spec_canonical_bytes(v));
    out
}

/// Removes the first four hyphens of `s`, wherever they occur.
pub(crate) fn strip_hyphens_exec(s: &[u8]) -> (r: Vec<u8>)
    ensures
        r@ == strip_hyphens(s@, 4),
{
    let n = s.len();
    let mut out: Vec<u8> = Vec::new();
    proof {
        assert(s@.skip(0) =~= s@);
        assert(out@ + strip_hyphens(s@, 4) =~= strip_hyphens(s@, 4));
    }
    let mut removed: usize = 0;
    let mut i: usize = 0;
    while i < n
        invariant
            n == s@.len(),
            i <= n,
            removed <= 4,
            strip_hyphens(s@, 4) == out@ + strip_hyphens(s@.skip(i as int), 4 - removed),
        decreases n - i,
    {
        proof {
            assert(s@.skip(i as int).drop_first() =~= s@.skip(i as int + 1));
            assert(s@.skip(i as int)[0] == s@[i as int]);
        }
        if s[i] == 45 && removed < 4 {
            removed += 1;
        } else {
            let ghost pre = out@;
            out.push(s[i]);
            proof {
                assert(out@ + strip_hyphens(s@.skip(i as int + 1), 4 - removed) =~= pre + (seq![
                    s@[i as int],
                ] + strip_hyphens(s@.skip(i as int + 1), 4 - removed)));
            }
        }
        i += 1;
    }
    proof {
        assert(s@.skip(n as int) =~= Seq::<u8>::empty());
        assert(strip_hyphens(Seq::<u8>::empty(), 4 - removed) =~= Seq::<u8>::empty());
        assert(out@ + Seq::<u8>::empty() =~= out@);
    }
    out
}

/// Stripping the four hyphens of a canonical form recovers exactly the
/// packed hex digits.
pub proof fn lemma_canonical_strip(v: u128)
    ensures
        strip_hyphens(spec_canonical_bytes(v), 4) == spec_hex_bytes(v),
{
    lemma_canonical_strip_from(v, 0);
    assert(spec_canonical_bytes(v).skip(0) =~= spec_canonical_bytes(v));
    assert(spec_hex_bytes(v).skip(0) =~= spec_hex_bytes(v));
}

/// From position `i` on, stripping the remaining hyphens of the canonical
/// form yields the remaining hex digits.
proof fn lemma_canonical_strip_from(v: u128, i: int)
    requires
        0 <= i <= 36,
    ensures
        strip_hyphens(spec_canonical_bytes(v).skip(i), 4 - hyphens_before(i)) == spec_hex_bytes(
            v,
        ).skip(i - hyphens_before(i)),
    decreases 36 - i,
{
    let c = spec_canonical_bytes(v);
    let h = spec_hex_bytes(v);
    if i == 36 {
        assert(c.skip(36) =~= Seq::<u8>::empty());
        assert(h.skip(32) =~= Seq::<u8>::empty());
    } else {
        lemma_canonical_strip_from(v, i + 1);
        assert(c.skip(i).drop_first() =~= c.skip(i + 1));
        assert(c.skip(i)[0] == c[i]);
        if is_hyphen_pos(i) {
            assert(c[i] == 45);
            assert(hyphens_before(i + 1) == hyphens_before(i) + 1);
        } else {
            let j = i - hyphens_before(i);
            crate::hexcodec::lemma_mask4_bound(v, (124 - 4 * j) as u128);
            assert(spec_nibble(v, j) < 16);
            assert(c[i] != 45);
            assert(c[i] == h[j]);
            assert(hyphens_before(i + 1) == hyphens_before(i));
            assert(seq![h[j]] + h.skip(j + 1) =~= h.skip(j));
        }
    }
}

/// The canonical form is always 36 bytes with a hyphen at exactly offsets
/// 8, 13, 18 and 23; every other byte is a hex digit.
pub proof fn lemma_canonical_shape(v: u128)
    ensures
        spec_canonical_bytes(v).len() == 36,
        forall|i: int|
            0 <= i < 36 ==> (spec_canonical_bytes(v)[i] == 45 <==> is_hyphen_pos(i)),
        forall|i: int|
            0 <= i < 36 && !is_hyphen_pos(i) ==> crate::hexcodec::is_hex_digit(
                #[trigger] spec_canonical_bytes(v)[i],
            ),
{
    assert forall|i: int| 0 <= i < 36 && !is_hyphen_pos(i) implies crate::hexcodec::is_hex_digit(
        #[trigger] spec_canonical_bytes(v)[i],
    ) && spec_canonical_bytes(v)[i] != 45 by {
        let j = i - hyphens_before(i);
        crate::hexcodec::lemma_mask4_bound(v, (124 - 4 * j) as u128);
        crate::hexcodec::lemma_hex_digit_roundtrip(spec_nibble(v, j));
    }
}

} // verus!
