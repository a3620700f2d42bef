//! Conflicts recorded for a single path, as older repositories hold them.
//!
//! A conflict is a list of values to take away and a list of values to put in
//! their place. How the two combine is decided elsewhere. A conflict that
//! adds one value and removes none means that value and no conflict.

use crate::content_hash::{ContentHash, SelfDelimiting};
use crate::tree_value::TreeValue;
use vstd::prelude::*;

verus! {

/// One side of a conflict.
#[derive(Debug, PartialEq, Eq)]
pub struct ConflictTerm {
    pub value: TreeValue,
}

impl Clone for ConflictTerm {
    fn clone(&self) -> (copy: Self)
        ensures
            copy.value@ == self.value@,
    {
        ConflictTerm { value: self.value.clone() }
    }
}

impl ContentHash for ConflictTerm {
    open spec fn content_bytes(&self) -> Seq<u8> {
        self.value.content_bytes()
    }

    open spec fn fits(&self) -> bool {
        self.value.fits()
    }

    fn hash(&self, state: &mut Vec<u8>) {
        self.value.hash(state);
    }
}

impl SelfDelimiting for ConflictTerm {
    open spec fn same_content(&self, other: &Self) -> bool {
        self.value@ == other.value@
    }

    proof fn lemma_cut(a: &Self, x: Seq<u8>, b: &Self, y: Seq<u8>) {
        TreeValue::lemma_cut(&a.value, x, &b.value, y);
        assert(a.same_content(b));
    }
}

/// The states to take away and the states to put in their place. In a merge
/// of B and C with the base A, the conflict adds B and C and removes A.
#[derive(Debug, PartialEq, Eq)]
pub struct Conflict {
    pub removes: Vec<ConflictTerm>,
    pub adds: Vec<ConflictTerm>,
}

impl Conflict {
    /// What the conflict amounts to if it is none: the one value that it
    /// adds, provided that it removes nothing.
    pub open spec fn resolved_value(&self) -> Option<TreeValue> {
        if self.removes@.len() == 0 && self.adds@.len() == 1 {
            Some(self.adds@[0].value)
        } else {
            None
        }
    }

    /// The one value that the conflict adds, if it removes nothing and adds
    /// nothing else.
    pub fn as_resolved(&self) -> (value: Option<&TreeValue>)
        ensures
            value is Some <==> self.resolved_value() is Some,
            value matches Some(v) ==> Some(*v) == self.resolved_value(),
    {
        if self.removes.len() == 0 && self.adds.len() == 1 {
            Some(&self.adds[0].value)
        } else {
            None
        }
    }
}

impl Default for Conflict {
    /// The conflict that removes nothing and adds nothing.
    fn default() -> (conflict: Self)
        ensures
            conflict.removes@.len() == 0,
            conflict.adds@.len() == 0,
    {
        Conflict { removes: Vec::new(), adds: Vec::new() }
    }
}

impl Clone for Conflict {
    fn clone(&self) -> (copy: Self)
        ensures
            copy.removes@.len() == self.removes@.len(),
            copy.adds@.len() == self.adds@.len(),
            forall|i: int|
                0 <= i < self.removes@.len() ==> (#[trigger] copy.removes@[i]).value@
                    == self.removes@[i].value@,
            forall|i: int|
                0 <= i < self.adds@.len() ==> (#[trigger] copy.adds@[i]).value@
                    == self.adds@[i].value@,
    {
        Conflict { removes: clone_terms(&self.removes), adds: clone_terms(&self.adds) }
    }
}

fn clone_terms(terms: &Vec<ConflictTerm>) -> (copy: Vec<ConflictTerm>)
    ensures
        copy@.len() == terms@.len(),
        forall|i: int| 0 <= i < terms@.len() ==> (#[trigger] copy@[i]).value@ == terms@[i].value@,
{
    let mut copy: Vec<ConflictTerm> = Vec::new();
    let mut i: usize = 0;
    while i < terms.len()
        invariant
            0 <= i <= terms@.len(),
            copy@.len() == i,
            forall|k: int| 0 <= k < i ==> (#[trigger] copy@[k]).value@ == terms@[k].value@,
        decreases terms@.len() - i,
    {
        copy.push(terms[i].clone());
        i += 1;
    }
    copy
}

impl ContentHash for Conflict {
    open spec fn content_bytes(&self) -> Seq<u8> {
        self.removes.content_bytes() + self.adds.content_bytes()
    }

    open spec fn fits(&self) -> bool {
        self.removes.fits() && self.adds.fits()
    }

    fn hash(&self, state: &mut Vec<u8>) {
        self.removes.hash(state);
        self.adds.hash(state);
        assert(state@ =~= old(state)@ + self.content_bytes());
    }
}

impl SelfDelimiting for Conflict {
    open spec fn same_content(&self, other: &Self) -> bool {
        self.removes.same_content(&other.removes) && self.adds.same_content(&other.adds)
    }

    proof fn lemma_cut(a: &Self, x: Seq<u8>, b: &Self, y: Seq<u8>) {
        let a1 = a.adds.content_bytes() + x;
        let b1 = b.adds.content_bytes() + y;
        assert(a.content_bytes() + x =~= a.removes.content_bytes() + a1);
        assert(b.content_bytes() + y =~= b.removes.content_bytes() + b1);
        Vec::<ConflictTerm>::lemma_cut(&a.removes, a1, &b.removes, b1);
        Vec::<ConflictTerm>::lemma_cut(&a.adds, x, &b.adds, y);
        assert(a.same_content(b));
    }
}

} // verus!
