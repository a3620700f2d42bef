//! Lexicographic order on byte strings.
//!
//! Identifiers and tree entry names are ordered by their raw bytes. This
//! module defines that order once, proves that it is a strict total order, and
//! offers an executable comparison that is proved against the definition.

use vstd::prelude::*;

verus! {

/// The outcome of comparing two byte strings.
#[derive(Clone, Copy, Debug, PartialEq, Eq, Structural)]
pub enum ByteOrder {
    Less,
    Equal,
    Greater,
}

/// The first index at or after `from` at which `a` and `b` stop agreeing:
/// either one of them ends there, or they hold different bytes there.
pub open spec fn mismatch_from(a: Seq<u8>, b: Seq<u8>, from: int) -> int
    decreases a.len() - from,
{
    if from < 0 || from >= a.len() || from >= b.len() || a[from] != b[from] {
        from
    } else {
        mismatch_from(a, b, from + 1)
    }
}

/// The length of the longest common prefix of `a` and `b`.
pub open spec fn common_prefix_len(a: Seq<u8>, b: Seq<u8>) -> int {
    mismatch_from(a, b, 0)
}

/// `k` is the length of the longest common prefix of `a` and `b`.
pub open spec fn is_common_prefix_len(a: Seq<u8>, b: Seq<u8>, k: int) -> bool {
    &&& 0 <= k <= a.len()
    &&& k <= b.len()
    &&& forall|i: int| 0 <= i < k ==> a[i] == b[i]
    &&& (k < a.len() && k < b.len() ==> a[k] != b[k])
}

/// `a` comes strictly before `b`: at the first place where they differ, `a`
/// has ended or holds the smaller byte.
pub open spec fn lex_less(a: Seq<u8>, b: Seq<u8>) -> bool {
    let k = common_prefix_len(a, b);
    k < b.len() && (k == a.len() || a[k] < b[k])
}

/// The order of `a` relative to `b`.
pub open spec fn lex_order(a: Seq<u8>, b: Seq<u8>) -> ByteOrder {
    if lex_less(a, b) {
        ByteOrder::Less
    } else if lex_less(b, a) {
        ByteOrder::Greater
    } else {
        ByteOrder::Equal
    }
}

/// `mismatch_from` stays within both sequences, everything between `from` and
/// it agrees, and the bytes at it differ where both exist.
pub proof fn lemma_mismatch_from(a: Seq<u8>, b: Seq<u8>, from: int)
    requires
        0 <= from <= a.len(),
        from <= b.len(),
    ensures
        from <= mismatch_from(a, b, from) <= a.len(),
        mismatch_from(a, b, from) <= b.len(),
        forall|i: int| from <= i < mismatch_from(a, b, from) ==> a[i] == b[i],
        ({
            let k = mismatch_from(a, b, from);
            k < a.len() && k < b.len() ==> a[k] != b[k]
        }),
    decreases a.len() - from,
{
    if from >= a.len() || from >= b.len() || a[from] != b[from] {
    } else {
        lemma_mismatch_from(a, b, from + 1);
    }
}

/// The longest common prefix is the only length that meets
/// `is_common_prefix_len`.
pub proof fn lemma_common_prefix_len_unique(a: Seq<u8>, b: Seq<u8>, k: int)
    ensures
        is_common_prefix_len(a, b, common_prefix_len(a, b)),
        is_common_prefix_len(a, b, k) ==> k == common_prefix_len(a, b),
{
    lemma_mismatch_from(a, b, 0);
    let m = common_prefix_len(a, b);
    if is_common_prefix_len(a, b, k) {
        if k < m {
            assert(a[k] == b[k]);
        } else if m < k {
            assert(a[m] == b[m]);
        }
    }
}

/// The common prefix does not depend on the order of the arguments.
pub proof fn lemma_common_prefix_len_symmetric(a: Seq<u8>, b: Seq<u8>)
    ensures
        common_prefix_len(a, b) == common_prefix_len(b, a),
{
    lemma_common_prefix_len_unique(a, b, 0);
    lemma_common_prefix_len_unique(b, a, common_prefix_len(a, b));
}

/// A sequence shares all of itself with itself.
pub proof fn lemma_common_prefix_len_same(a: Seq<u8>)
    ensures
        common_prefix_len(a, a) == a.len(),
{
    lemma_common_prefix_len_unique(a, a, a.len() as int);
}

/// Exactly one of `a < b`, `a == b`, `b < a` holds.
pub proof fn lemma_lex_trichotomy(a: Seq<u8>, b: Seq<u8>)
    ensures
        lex_less(a, b) || a == b || lex_less(b, a),
        !(lex_less(a, b) && lex_less(b, a)),
        !(lex_less(a, b) && a == b),
        lex_order(a, b) == ByteOrder::Equal <==> a == b,
{
    lemma_common_prefix_len_unique(a, b, 0);
    lemma_common_prefix_len_symmetric(a, b);
    let k = common_prefix_len(a, b);
    if k == a.len() && k == b.len() {
        assert(a =~= b);
    }
    if a == b {
        lemma_common_prefix_len_same(a);
    }
}

/// The order is transitive.
pub proof fn lemma_lex_transitive(a: Seq<u8>, b: Seq<u8>, c: Seq<u8>)
    requires
        lex_less(a, b),
        lex_less(b, c),
    ensures
        lex_less(a, c),
{
    lemma_common_prefix_len_unique(a, b, 0);
    lemma_common_prefix_len_unique(b, c, 0);
    let k1 = common_prefix_len(a, b);
    let k2 = common_prefix_len(b, c);
    let k = if k1 <= k2 {
        k1
    } else {
        k2
    };
    assert forall|i: int| 0 <= i < k implies a[i] == c[i] by {
        assert(a[i] == b[i]);
        assert(b[i] == c[i]);
    }
    if k1 < k2 {
        assert(b[k1] == c[k1]);
    } else if k2 < k1 {
        assert(a[k2] == b[k2]);
    }
    lemma_common_prefix_len_unique(a, c, k);
}

/// Compares two byte strings lexicographically.
pub fn compare_bytes(a: &[u8], b: &[u8]) -> (r: ByteOrder)
    ensures
        r == lex_order(a@, b@),
{
    let mut i: usize = 0;
    while i < a.len() && i < b.len()
        invariant
            0 <= i <= a@.len(),
            i <= b@.len(),
            forall|j: int| 0 <= j < i ==> a@[j] == b@[j],
        decreases a@.len() - i,
    {
        if a[i] < b[i] {
            proof {
                lemma_common_prefix_len_unique(a@, b@, i as int);
                lemma_lex_trichotomy(a@, b@);
            }
            return ByteOrder::Less;
        }
        if a[i] > b[i] {
            proof {
                lemma_common_prefix_len_unique(a@, b@, i as int);
                lemma_common_prefix_len_symmetric(a@, b@);
                lemma_lex_trichotomy(a@, b@);
            }
            return ByteOrder::Greater;
        }
        i += 1;
    }
    proof {
        lemma_common_prefix_len_unique(a@, b@, i as int);
        lemma_common_prefix_len_symmetric(a@, b@);
        lemma_lex_trichotomy(a@, b@);
    }
    if i < b.len() {
        ByteOrder::Less
    } else if i < a.len() {
        ByteOrder::Greater
    } else {
        ByteOrder::Equal
    }
}

/// Whether two byte strings hold the same bytes.
pub fn bytes_equal(a: &[u8], b: &[u8]) -> (r: bool)
    ensures
        r == (a@ == b@),
{
    if a.len() != b.len() {
        return false;
    }
    let mut i: usize = 0;
    while i < a.len()
        invariant
            a@.len() == b@.len(),
            0 <= i <= a@.len(),
            forall|j: int| 0 <= j < i ==> a@[j] == b@[j],
        decreases a@.len() - i,
    {
        if a[i] != b[i] {
            return false;
        }
        i += 1;
    }
    assert(a@ =~= b@);
    true
}

} // verus!
