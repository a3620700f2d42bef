//! Commits and what they are made of.
//!
//! A commit is never changed once it is written. To rewrite one is to write
//! another, with another identifier, which may keep the change identifier of
//! the first and names it as its predecessor.

use crate::content_hash::{lemma_join_assoc, ContentHash, SelfDelimiting};
use crate::merged_tree::MergedTreeId;
use crate::object_id::{ChangeId, CommitId, TreeId};
use crate::timestamp::{MillisSinceEpoch, Timestamp};
use vstd::prelude::*;

verus! {

/// Who did something, and when. Neither the name nor the address is checked.
#[derive(Debug, PartialEq, Eq)]
pub struct Signature {
    pub name: String,
    pub email: String,
    pub timestamp: Timestamp,
}

impl Clone for Signature {
    fn clone(&self) -> (copy: Self)
        ensures
            copy == *self,
    {
        Signature {
            name: self.name.clone(),
            email: self.email.clone(),
            timestamp: self.timestamp.clone(),
        }
    }
}

impl ContentHash for Signature {
    open spec fn content_bytes(&self) -> Seq<u8> {
        self.name.content_bytes() + self.email.content_bytes() + self.timestamp.content_bytes()
    }

    open spec fn fits(&self) -> bool {
        self.name.fits() && self.email.fits()
    }

    fn hash(&self, state: &mut Vec<u8>) {
        self.name.hash(state);
        self.email.hash(state);
        self.timestamp.hash(state);
        assert(state@ =~= old(state)@ + self.content_bytes());
    }
}

impl SelfDelimiting for Signature {
    open spec fn same_content(&self, other: &Self) -> bool {
        &&& self.name@ == other.name@
        &&& self.email@ == other.email@
        &&& self.timestamp == other.timestamp
    }

    proof fn lemma_cut(a: &Self, x: Seq<u8>, b: &Self, y: Seq<u8>) {
        let a2 = a.timestamp.content_bytes() + x;
        let b2 = b.timestamp.content_bytes() + y;
        let a1 = a.email.content_bytes() + a2;
        let b1 = b.email.content_bytes() + b2;
        assert(a.content_bytes() + x =~= a.name.content_bytes() + a1);
        assert(b.content_bytes() + y =~= b.name.content_bytes() + b1);
        String::lemma_cut(&a.name, a1, &b.name, b1);
        String::lemma_cut(&a.email, a2, &b.email, b2);
        Timestamp::lemma_cut(&a.timestamp, x, &b.timestamp, y);
        assert(a.same_content(b));
    }
}

/// A cryptographic signature over a commit: the data that was signed and the
/// signature itself, both in a form that only the backend reads.
#[derive(Debug, PartialEq, Eq)]
pub struct SecureSig {
    pub data: Vec<u8>,
    pub sig: Vec<u8>,
}

impl Clone for SecureSig {
    fn clone(&self) -> (copy: Self)
        ensures
            copy.data@ == self.data@,
            copy.sig@ == self.sig@,
    {
        SecureSig { data: self.data.clone(), sig: self.sig.clone() }
    }
}

impl ContentHash for SecureSig {
    open spec fn content_bytes(&self) -> Seq<u8> {
        self.data.content_bytes() + self.sig.content_bytes()
    }

    open spec fn fits(&self) -> bool {
        self.data.fits() && self.sig.fits()
    }

    fn hash(&self, state: &mut Vec<u8>) {
        self.data.hash(state);
        self.sig.hash(state);
        assert(state@ =~= old(state)@ + self.content_bytes());
    }
}

impl SelfDelimiting for SecureSig {
    open spec fn same_content(&self, other: &Self) -> bool {
        self.data@ == other.data@ && self.sig@ == other.sig@
    }

    proof fn lemma_cut(a: &Self, x: Seq<u8>, b: &Self, y: Seq<u8>) {
        let a1 = a.sig.content_bytes() + x;
        let b1 = b.sig.content_bytes() + y;
        assert(a.content_bytes() + x =~= a.data.content_bytes() + a1);
        assert(b.content_bytes() + y =~= b.data.content_bytes() + b1);
        Vec::<u8>::lemma_cut(&a.data, a1, &b.data, b1);
        Vec::<u8>::lemma_cut(&a.sig, x, &b.sig, y);
        assert(a.data@ =~= b.data@);
        assert(a.sig@ =~= b.sig@);
        assert(a.same_content(b));
    }
}

/// A commit.
#[derive(Debug, PartialEq, Eq)]
pub struct Commit {
    /// The commits that this one follows; only the root commit has none.
    pub parents: Vec<CommitId>,
    /// The commits that this one replaces.
    pub predecessors: Vec<CommitId>,
    pub root_tree: MergedTreeId,
    /// What stays the same when this commit is rewritten.
    pub change_id: ChangeId,
    pub description: String,
    pub author: Signature,
    pub committer: Signature,
    pub secure_sig: Option<SecureSig>,
}

impl ContentHash for Commit {
    open spec fn content_bytes(&self) -> Seq<u8> {
        self.parents.content_bytes() + self.predecessors.content_bytes()
            + self.root_tree.content_bytes() + self.change_id.content_bytes()
            + self.description.content_bytes() + self.author.content_bytes()
            + self.committer.content_bytes() + self.secure_sig.content_bytes()
    }

    open spec fn fits(&self) -> bool {
        &&& self.parents.fits()
        &&& self.predecessors.fits()
        &&& self.root_tree.fits()
        &&& self.change_id.fits()
        &&& self.description.fits()
        &&& self.author.fits()
        &&& self.committer.fits()
        &&& self.secure_sig.fits()
    }

    fn hash(&self, state: &mut Vec<u8>) {
        self.parents.hash(state);
        self.predecessors.hash(state);
        self.root_tree.hash(state);
        self.change_id.hash(state);
        self.description.hash(state);
        self.author.hash(state);
        self.committer.hash(state);
        self.secure_sig.hash(state);
        assert(state@ =~= old(state)@ + self.content_bytes());
    }
}

impl Commit {
    /// The encoding of a commit, followed by anything, read as the encoding
    /// of its first field followed by all the rest, field by field.
    proof fn lemma_regroup(&self, x: Seq<u8>)
        ensures
            self.content_bytes() + x == self.parents.content_bytes() + (
                self.predecessors.content_bytes() + (
                    self.root_tree.content_bytes() + (
                        self.change_id.content_bytes() + (
                            self.description.content_bytes() + (
                                self.author.content_bytes() + (
                                    self.committer.content_bytes() + (
                                        self.secure_sig.content_bytes() + x
                                    )
                                )
                            )
                        )
                    )
                )
            ),
    {
        let field1 = self.parents.content_bytes();
        let field2 = self.predecessors.content_bytes();
        let field3 = self.root_tree.content_bytes();
        let field4 = self.change_id.content_bytes();
        let field5 = self.description.content_bytes();
        let field6 = self.author.content_bytes();
        let field7 = self.committer.content_bytes();
        let field8 = self.secure_sig.content_bytes();
        let rest8 = field8 + x;
        let rest7 = field7 + rest8;
        let rest6 = field6 + rest7;
        let rest5 = field5 + rest6;
        let rest4 = field4 + rest5;
        let rest3 = field3 + rest4;
        lemma_join_assoc(field1 + field2 + field3 + field4 + field5 + field6 + field7, field8, x);
        lemma_join_assoc(field1 + field2 + field3 + field4 + field5 + field6, field7, rest8);
        lemma_join_assoc(field1 + field2 + field3 + field4 + field5, field6, rest7);
        lemma_join_assoc(field1 + field2 + field3 + field4, field5, rest6);
        lemma_join_assoc(field1 + field2 + field3, field4, rest5);
        lemma_join_assoc(field1 + field2, field3, rest4);
        lemma_join_assoc(field1, field2, rest3);
    }
}

impl SelfDelimiting for Commit {
    /// Commits have the same content when they agree field by field. Their
    /// roots have to be of the same form for that, which being equal does not
    /// ask for.
    open spec fn same_content(&self, other: &Self) -> bool {
        &&& self.parents.same_content(&other.parents)
        &&& self.predecessors.same_content(&other.predecessors)
        &&& self.root_tree.same_content(&other.root_tree)
        &&& self.change_id.same_content(&other.change_id)
        &&& self.description.same_content(&other.description)
        &&& self.author.same_content(&other.author)
        &&& self.committer.same_content(&other.committer)
        &&& self.secure_sig.same_content(&other.secure_sig)
    }

    proof fn lemma_cut(a: &Self, x: Seq<u8>, b: &Self, y: Seq<u8>) {
        let a7 = a.secure_sig.content_bytes() + x;
        let b7 = b.secure_sig.content_bytes() + y;
        let a6 = a.committer.content_bytes() + a7;
        let b6 = b.committer.content_bytes() + b7;
        let a5 = a.author.content_bytes() + a6;
        let b5 = b.author.content_bytes() + b6;
        let a4 = a.description.content_bytes() + a5;
        let b4 = b.description.content_bytes() + b5;
        let a3 = a.change_id.content_bytes() + a4;
        let b3 = b.change_id.content_bytes() + b4;
        let a2 = a.root_tree.content_bytes() + a3;
        let b2 = b.root_tree.content_bytes() + b3;
        let a1 = a.predecessors.content_bytes() + a2;
        let b1 = b.predecessors.content_bytes() + b2;
        a.lemma_regroup(x);
        b.lemma_regroup(y);
        Vec::<CommitId>::lemma_cut(&a.parents, a1, &b.parents, b1);
        Vec::<CommitId>::lemma_cut(&a.predecessors, a2, &b.predecessors, b2);
        MergedTreeId::lemma_cut(&a.root_tree, a3, &b.root_tree, b3);
        ChangeId::lemma_cut(&a.change_id, a4, &b.change_id, b4);
        String::lemma_cut(&a.description, a5, &b.description, b5);
        Signature::lemma_cut(&a.author, a6, &b.author, b6);
        Signature::lemma_cut(&a.committer, a7, &b.committer, b7);
        Option::<SecureSig>::lemma_cut(&a.secure_sig, x, &b.secure_sig, y);
        assert(a.same_content(b));
    }
}

/// Whether `signature` is the one of the root commit: no name, no address,
/// the epoch as its instant and no offset.
pub open spec fn is_root_signature(signature: Signature) -> bool {
    &&& signature.name@ == Seq::<char>::empty()
    &&& signature.email@ == Seq::<char>::empty()
    &&& signature.timestamp == Timestamp { timestamp: MillisSinceEpoch(0), tz_offset: 0 }
}

/// The commit from which all others of a repository descend. It has no
/// parents and no predecessors, the empty tree as its root in the legacy
/// form, no description, nobody as author or committer, and the epoch as its
/// time.
pub fn make_root_commit(root_change_id: ChangeId, empty_tree_id: TreeId) -> (commit: Commit)
    ensures
        commit.parents@.len() == 0,
        commit.predecessors@.len() == 0,
        commit.root_tree == MergedTreeId::Legacy(empty_tree_id),
        commit.change_id == root_change_id,
        commit.description@ == Seq::<char>::empty(),
        is_root_signature(commit.author),
        is_root_signature(commit.committer),
        commit.secure_sig is None,
{
    let timestamp = Timestamp { timestamp: MillisSinceEpoch(0), tz_offset: 0 };
    let signature = Signature { name: String::new(), email: String::new(), timestamp };
    Commit {
        parents: Vec::new(),
        predecessors: Vec::new(),
        root_tree: MergedTreeId::Legacy(empty_tree_id),
        change_id: root_change_id,
        description: String::new(),
        author: signature.clone(),
        committer: signature,
        secure_sig: None,
    }
}

} // verus!
