//! Initialisation vectors of encrypted segments.

use vstd::prelude::*;
use vstd::slice::slice_subrange;

use crate::number;
use crate::number::parse_hex_upto;
use crate::text;
use crate::text::{chars_of, strip_prefix};

verus! {

/// The `len` lowest bytes of `n`, the highest first.
pub open spec fn be_bytes(n: nat, len: nat) -> Seq<u8>
    decreases len,
{
    if len == 0 {
        Seq::empty()
    } else {
        be_bytes(n / 256, (len - 1) as nat).push((n % 256) as u8)
    }
}

/// The number that bytes write, the highest first.
pub open spec fn be_value(s: Seq<u8>) -> nat
    decreases s.len(),
{
    if s.len() == 0 {
        0
    } else {
        be_value(s.drop_last()) * 256 + s.last() as nat
    }
}

pub proof fn lemma_be_bytes_len(n: nat, len: nat)
    ensures
        be_bytes(n, len).len() == len,
    decreases len,
{
    if len > 0 {
        lemma_be_bytes_len(n / 256, (len - 1) as nat);
    }
}

/// Sixteen big-endian bytes hold a sequence number without loss.
pub proof fn sequence_bytes_hold_the_number(n: u64)
    ensures
        be_bytes(n as nat, 16).len() == 16,
        be_value(be_bytes(n as nat, 16)) == n,
{
    lemma_be_bytes_len(n as nat, 16);
    lemma_be_value(n as nat, 16);
}

/// 256 to the power `k`.
pub open spec fn pow256(k: nat) -> nat
    decreases k,
{
    if k == 0 {
        1
    } else {
        256 * pow256((k - 1) as nat)
    }
}

proof fn lemma_be_value(n: nat, len: nat)
    requires
        n < 0x1_0000_0000_0000_0000,
        len >= 8 || n < pow256(len),
    ensures
        be_value(be_bytes(n, len)) == n,
    decreases len,
{
    if len == 0 {
        assert(pow256(0) == 1);
    } else {
        if len == 8 {
            reveal_with_fuel(pow256, 9);
            assert(pow256(7) == 0x100_0000_0000_0000);
        } else if len < 8 {
            assert(pow256(len) == 256 * pow256((len - 1) as nat));
        }
        lemma_be_value(n / 256, (len - 1) as nat);
        let b = be_bytes(n, len);
        assert(b.drop_last() =~= be_bytes(n / 256, (len - 1) as nat));
        assert(b.last() == (n % 256) as u8);
    }
}

/// The initialisation vector of a segment whose key gives none: its media
/// sequence number as a sixteen-byte big-endian number.
pub fn iv_from_media_sequence(sequence: u64) -> (r: [u8; 16])
    ensures
        r@ == be_bytes(sequence as nat, 16),
{
    let mut iv: [u8; 16] = [0u8;16];
    let mut n: u64 = sequence;
    let mut i: usize = 16;
    assert(be_bytes(n as nat, 16) + iv@.subrange(16, 16) =~= be_bytes(sequence as nat, 16));
    while i > 0
        invariant
            i <= 16,
            be_bytes(n as nat, i as nat) + iv@.subrange(i as int, 16) == be_bytes(
                sequence as nat,
                16,
            ),
        decreases i,
    {
        let ghost before = iv@;
        i -= 1;
        iv[i] = (n % 256) as u8;
        proof {
            assert(iv@.subrange(i as int, 16) =~= seq![(n % 256) as u8] + before.subrange(
                i + 1,
                16,
            ));
            assert(be_bytes(n as nat, (i + 1) as nat) =~= be_bytes((n / 256) as nat, i as nat).push(
                (n % 256) as u8,
            ));
            assert(be_bytes((n / 256) as nat, i as nat) + iv@.subrange(i as int, 16) =~= be_bytes(
                n as nat,
                (i + 1) as nat,
            ) + before.subrange(i + 1, 16));
        }
        n = n / 256;
    }
    assert(iv@ =~= be_bytes(sequence as nat, 16));
    iv
}

/// The digits of an `IV` attribute without the `0x` that may precede them.
pub open spec fn iv_digits(s: Seq<char>) -> Seq<char> {
    if text::has_prefix(s, "0x"@) || text::has_prefix(s, "0X"@) {
        s.skip(2)
    } else {
        s
    }
}

/// The byte that the `i`-th pair of digits writes.
pub open spec fn iv_byte(h: Seq<char>, i: int) -> Option<nat> {
    number::parsed_hex(h.subrange(2 * i, 2 * i + 2), 255)
}

/// The sixteen bytes of an `IV` attribute: 32 hexadecimal digits, with or without
/// `0x` in front.
pub open spec fn iv_attr(s: Seq<char>) -> Option<Seq<u8>> {
    let h = iv_digits(s);
    if h.len() == 32 && forall|i: int| 0 <= i < 16 ==> (#[trigger] iv_byte(h, i)) is Some {
        Some(Seq::new(16, |i: int| iv_byte(h, i)->0 as u8))
    } else {
        None
    }
}

/// Reads an `IV` attribute.
pub fn parse_iv_attr(hex: &str) -> (r: Option<[u8; 16]>)
    ensures
        match r {
            Some(b) => iv_attr(hex@) == Some(b@),
            None => iv_attr(hex@) is None,
        },
{
    proof {
        reveal_strlit("0x");
        reveal_strlit("0X");
    }
    let cs = chars_of(hex);
    let all = cs.as_slice();
    let h = match strip_prefix(all, "0x") {
        Some(rest) => rest,
        None => match strip_prefix(all, "0X") {
            Some(rest) => rest,
            None => all,
        },
    };
    assert(h@ == iv_digits(hex@));
    if h.len() != 32 {
        return None;
    }
    let mut iv: [u8; 16] = [0u8;16];
    let mut i: usize = 0;
    while i < 16
        invariant
            i <= 16,
            h@ == iv_digits(hex@),
            h.len() == 32,
            forall|j: int|
                0 <= j < i ==> (#[trigger] iv_byte(h@, j)) is Some && iv@[j] == iv_byte(h@, j)->0,
        decreases 16 - i,
    {
        match parse_hex_upto(slice_subrange(h, 2 * i, 2 * i + 2), 255) {
            Some(b) => {
                assert(iv_byte(h@, i as int) == Some(b as nat));
                iv[i] = b as u8;
            },
            None => {
                assert(iv_byte(h@, i as int) is None);
                return None;
            },
        }
        i += 1;
    }
    assert(iv@ =~= Seq::new(16, |j: int| iv_byte(h@, j)->0 as u8));
    Some(iv)
}

} // verus!
