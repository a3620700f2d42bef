//! Values that may be conflicted.
//!
//! A merge is an odd number of terms that are read as add, remove, add, and
//! so on, ending in an add. A merge of one term is resolved: it is that term
//! and nothing else. How the terms of a longer merge combine is not decided
//! here; this module only holds them.

use crate::content_hash::{
    fits_u64, joined_bytes, le_bytes, lemma_counted_cut, ContentHash, SelfDelimiting,
};
use crate::object_id::TreeId;
use vstd::prelude::*;

verus! {

/// An odd number of terms: adds at the even places, removes at the odd ones.
#[derive(Debug, PartialEq, Eq, Hash)]
pub struct Merge<T> {
    values: Vec<T>,
}

impl<T> Merge<T> {
    /// The terms in order, adds and removes interleaved.
    pub closed spec fn terms(&self) -> Seq<T> {
        self.values@
    }

    /// The invariant of a merge: the number of its terms is odd.
    pub open spec fn wf(&self) -> bool {
        self.terms().len() % 2 == 1
    }

    #[verifier::type_invariant]
    spec fn odd_terms(self) -> bool {
        self.wf()
    }

    /// The merge that is `value` alone, without conflict.
    pub fn resolved(value: T) -> (merge: Self)
        ensures
            merge.wf(),
            merge.terms() == seq![value],
    {
        let mut values: Vec<T> = Vec::new();
        values.push(value);
        assert(values@ =~= seq![value]);
        Merge { values }
    }

    /// The merge with the given terms, adds and removes interleaved, starting
    /// and ending with an add. Their number has to be odd.
    pub fn from_vec(values: Vec<T>) -> (merge: Self)
        requires
            values@.len() % 2 == 1,
        ensures
            merge.wf(),
            merge.terms() == values@,
    {
        Merge { values }
    }

    /// The terms in order, adds and removes interleaved.
    pub fn as_slice(&self) -> (terms: &[T])
        ensures
            self.wf(),
            terms@ == self.terms(),
    {
        proof {
            use_type_invariant(self);
        }
        self.values.as_slice()
    }

    /// Whether the merge is a single term, and so without conflict.
    pub fn is_resolved(&self) -> (resolved: bool)
        ensures
            self.wf(),
            resolved == (self.terms().len() == 1),
    {
        proof {
            use_type_invariant(self);
        }
        self.values.len() == 1
    }

    /// The single term of the merge, if it is resolved.
    pub fn as_resolved(&self) -> (term: Option<&T>)
        ensures
            self.wf(),
            term is Some <==> self.terms().len() == 1,
            term matches Some(value) ==> *value == self.terms()[0],
    {
        proof {
            use_type_invariant(self);
        }
        if self.values.len() == 1 {
            Some(&self.values[0])
        } else {
            None
        }
    }
}

impl<T: ContentHash> ContentHash for Merge<T> {
    open spec fn content_bytes(&self) -> Seq<u8> {
        le_bytes(self.terms().len(), 8) + joined_bytes(self.terms())
    }

    open spec fn fits(&self) -> bool {
        &&& fits_u64(self.terms().len())
        &&& forall|i: int| 0 <= i < self.terms().len() ==> (#[trigger] self.terms()[i]).fits()
    }

    fn hash(&self, state: &mut Vec<u8>) {
        self.values.hash(state);
    }
}

impl<T: SelfDelimiting> SelfDelimiting for Merge<T> {
    open spec fn same_content(&self, other: &Self) -> bool {
        &&& self.terms().len() == other.terms().len()
        &&& forall|i: int|
            0 <= i < self.terms().len() ==> (#[trigger] self.terms()[i]).same_content(
                &other.terms()[i],
            )
    }

    proof fn lemma_cut(a: &Self, x: Seq<u8>, b: &Self, y: Seq<u8>) {
        lemma_counted_cut(a.terms(), x, b.terms(), y);
        assert(a.same_content(b));
    }
}

impl View for Merge<TreeId> {
    type V = Seq<Seq<u8>>;

    open spec fn view(&self) -> Seq<Seq<u8>> {
        Seq::new(self.terms().len(), |i: int| self.terms()[i]@)
    }
}

impl Clone for Merge<TreeId> {
    fn clone(&self) -> (copy: Self)
        ensures
            copy.wf(),
            copy@ == self@,
    {
        proof {
            use_type_invariant(self);
        }
        let mut values: Vec<TreeId> = Vec::new();
        let mut i: usize = 0;
        while i < self.values.len()
            invariant
                0 <= i <= self.values@.len(),
                values@.len() == i,
                forall|k: int| 0 <= k < i ==> (#[trigger] values@[k])@ == self.values@[k]@,
            decreases self.values@.len() - i,
        {
            values.push(self.values[i].clone());
            i += 1;
        }
        let copy = Merge { values };
        assert(copy@ =~= self@);
        copy
    }
}

impl Merge<TreeId> {
    /// Whether both merges have the same terms in the same order.
    pub fn same_terms(&self, other: &Merge<TreeId>) -> (same: bool)
        ensures
            same == (self@ == other@),
    {
        if self.values.len() != other.values.len() {
            assert(self@.len() != other@.len());
            return false;
        }
        let mut i: usize = 0;
        while i < self.values.len()
            invariant
                self.values@.len() == other.values@.len(),
                0 <= i <= self.values@.len(),
                forall|k: int| 0 <= k < i ==> self.values@[k]@ == other.values@[k]@,
            decreases self.values@.len() - i,
        {
            if self.values[i] != other.values[i] {
                assert(self@[i as int] != other@[i as int]);
                return false;
            }
            i += 1;
        }
        assert(self@ =~= other@);
        true
    }
}

} // verus!
