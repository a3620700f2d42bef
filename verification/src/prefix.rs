//! The length of the hexadecimal prefix that two byte strings share.
//!
//! This is what an abbreviated identifier rests on: the shortest text that
//! still tells an identifier from its neighbours is one digit longer than the
//! longest prefix it shares with any of them.

use crate::byte_order::{
    common_prefix_len, lemma_common_prefix_len_same, lemma_common_prefix_len_unique,
};
use crate::hex_codec::half_bytes;
use vstd::prelude::*;

verus! {

/// One half of one byte of `bytes`: the high half of byte `i / 2` if `i` is
/// even, the low half if it is odd.
fn half_byte(bytes: &[u8], i: usize) -> (half: u8)
    requires
        i < 2 * bytes@.len(),
    ensures
        half == half_bytes(bytes@)[i as int],
        half < 16,
{
    let v: u8 = bytes[i / 2];
    assert(v >> 4 == v / 16) by (bit_vector);
    assert(v & 0xf == v % 16) by (bit_vector);
    if i & 1 == 0 {
        assert(i & 1 == 0 ==> i % 2 == 0) by (bit_vector);
        v >> 4
    } else {
        assert(i & 1 != 0 ==> i % 2 == 1) by (bit_vector);
        v & 0xf
    }
}

/// The halves of the bytes of `bytes` in turn, high half first: the values of
/// the digits of its hexadecimal text.
pub fn iter_half_bytes(bytes: &[u8]) -> (halves: Vec<u8>)
    requires
        2 * bytes@.len() <= usize::MAX,
    ensures
        halves@ == half_bytes(bytes@),
{
    let n: usize = bytes.len() * 2;
    let mut halves: Vec<u8> = Vec::new();
    let mut i: usize = 0;
    while i < n
        invariant
            n == 2 * bytes@.len(),
            0 <= i <= n,
            halves@.len() == i,
            forall|k: int| 0 <= k < i ==> halves@[k] == half_bytes(bytes@)[k],
        decreases n - i,
    {
        halves.push(half_byte(bytes, i));
        i += 1;
    }
    assert(halves@ =~= half_bytes(bytes@));
    halves
}

/// The number of hexadecimal digits that the texts of `bytes_a` and `bytes_b`
/// share at their start.
pub fn common_hex_len(bytes_a: &[u8], bytes_b: &[u8]) -> (len: usize)
    requires
        2 * bytes_a@.len() <= usize::MAX || 2 * bytes_b@.len() <= usize::MAX,
    ensures
        len == common_prefix_len(half_bytes(bytes_a@), half_bytes(bytes_b@)),
{
    let shorter: usize = if bytes_a.len() < bytes_b.len() {
        bytes_a.len()
    } else {
        bytes_b.len()
    };
    let n: usize = shorter * 2;
    let mut i: usize = 0;
    while i < n
        invariant
            n <= 2 * bytes_a@.len(),
            n <= 2 * bytes_b@.len(),
            n == 2 * bytes_a@.len() || n == 2 * bytes_b@.len(),
            0 <= i <= n,
            forall|k: int| 0 <= k < i ==> half_bytes(bytes_a@)[k] == half_bytes(bytes_b@)[k],
        decreases n - i,
    {
        if half_byte(bytes_a, i) != half_byte(bytes_b, i) {
            proof {
                lemma_common_prefix_len_unique(
                    half_bytes(bytes_a@),
                    half_bytes(bytes_b@),
                    i as int,
                );
            }
            return i;
        }
        i += 1;
    }
    proof {
        lemma_common_prefix_len_unique(half_bytes(bytes_a@), half_bytes(bytes_b@), i as int);
    }
    i
}

/// A byte string shares with itself every digit of its text: two for each
/// byte.
pub proof fn lemma_common_hex_len_same(bytes: Seq<u8>)
    ensures
        common_prefix_len(half_bytes(bytes), half_bytes(bytes)) == 2 * bytes.len(),
{
    lemma_common_prefix_len_same(half_bytes(bytes));
}

/// Byte strings whose first bytes differ in the high half share no digit.
pub proof fn lemma_common_hex_len_first_differs(a: Seq<u8>, b: Seq<u8>)
    requires
        a.len() > 0,
        b.len() > 0,
        a[0] / 16 != b[0] / 16,
    ensures
        common_prefix_len(half_bytes(a), half_bytes(b)) == 0,
{
    assert(half_bytes(a)[0] == a[0] / 16);
    assert(half_bytes(b)[0] == b[0] / 16);
    lemma_common_prefix_len_unique(half_bytes(a), half_bytes(b), 0);
}

} // verus!
