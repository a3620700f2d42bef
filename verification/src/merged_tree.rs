//! The root of a commit, in either of its two forms.
//!
//! Older repositories record the root as one tree that may hold conflicts
//! under single paths. Newer ones record it as a merge of trees, none of
//! which holds a conflict. Both stand for a merge of trees, and two roots are
//! equal when they stand for the same one, whatever their form. Their
//! encodings, in contrast, always tell the forms apart.

use crate::content_hash::{lemma_seq_cut, ContentHash, SelfDelimiting};
use crate::merge::Merge;
use crate::object_id::TreeId;
use vstd::prelude::*;
use vstd::std_specs::cmp::{PartialEqSpec, PartialEqSpecImpl};

verus! {

/// The byte written in front of a legacy tree: the digit `0`.
pub const LEGACY_TAG: u8 = 0x30;

/// The byte written in front of a merge of trees: the digit `1`.
pub const MERGE_TAG: u8 = 0x31;

/// One legacy tree, which may hold conflicts under single paths, or a merge
/// of trees that hold none.
#[derive(Debug, Eq)]
pub enum MergedTreeId {
    /// The identifier of a legacy tree.
    Legacy(TreeId),
    /// The identifiers of the trees of a merge.
    Merge(Merge<TreeId>),
}

impl MergedTreeId {
    /// The merge of trees that this root stands for: a legacy tree stands
    /// for itself alone.
    pub open spec fn merge_view(&self) -> Seq<Seq<u8>> {
        match self {
            MergedTreeId::Legacy(tree_id) => seq![tree_id@],
            MergedTreeId::Merge(tree_ids) => tree_ids@,
        }
    }

    /// The root that is `tree_id` alone, in the form of a merge.
    pub fn resolved(tree_id: TreeId) -> (root: Self)
        ensures
            root is Merge,
            root.merge_view() == seq![tree_id@],
    {
        let root = MergedTreeId::Merge(Merge::resolved(tree_id));
        assert(root.merge_view() =~= seq![tree_id@]);
        root
    }

    /// The merge of trees that this root stands for.
    pub fn to_merge(&self) -> (merge: Merge<TreeId>)
        ensures
            merge.wf(),
            merge@ == self.merge_view(),
    {
        match self {
            MergedTreeId::Legacy(tree_id) => {
                let merge = Merge::resolved(tree_id.clone());
                assert(merge@ =~= seq![tree_id@]);
                merge
            },
            MergedTreeId::Merge(tree_ids) => tree_ids.clone(),
        }
    }
}

impl Clone for MergedTreeId {
    fn clone(&self) -> (copy: Self)
        ensures
            copy is Legacy == self is Legacy,
            copy.merge_view() == self.merge_view(),
    {
        match self {
            MergedTreeId::Legacy(tree_id) => MergedTreeId::Legacy(tree_id.clone()),
            MergedTreeId::Merge(tree_ids) => MergedTreeId::Merge(tree_ids.clone()),
        }
    }
}

impl PartialEq for MergedTreeId {
    /// Roots are equal when they stand for the same merge of trees, whether
    /// or not they have the same form.
    fn eq(&self, other: &Self) -> (same: bool) {
        self.to_merge().same_terms(&other.to_merge())
    }
}

impl PartialEqSpecImpl for MergedTreeId {
    open spec fn obeys_eq_spec() -> bool {
        true
    }

    open spec fn eq_spec(&self, other: &Self) -> bool {
        self.merge_view() == other.merge_view()
    }
}

impl ContentHash for MergedTreeId {
    open spec fn content_bytes(&self) -> Seq<u8> {
        match self {
            MergedTreeId::Legacy(tree_id) => seq![LEGACY_TAG] + tree_id.content_bytes(),
            MergedTreeId::Merge(tree_ids) => seq![MERGE_TAG] + tree_ids.content_bytes(),
        }
    }

    open spec fn fits(&self) -> bool {
        match self {
            MergedTreeId::Legacy(tree_id) => tree_id.fits(),
            MergedTreeId::Merge(tree_ids) => tree_ids.fits(),
        }
    }

    fn hash(&self, state: &mut Vec<u8>) {
        match self {
            MergedTreeId::Legacy(tree_id) => {
                state.push(LEGACY_TAG);
                tree_id.hash(state);
            },
            MergedTreeId::Merge(tree_ids) => {
                state.push(MERGE_TAG);
                tree_ids.hash(state);
            },
        }
        assert(state@ =~= old(state)@ + self.content_bytes());
    }
}

impl SelfDelimiting for MergedTreeId {
    /// Roots have the same content when they have the same form and hold the
    /// same trees. This is less than being equal: the two forms of one tree
    /// are equal and differ in content.
    open spec fn same_content(&self, other: &Self) -> bool {
        self is Legacy == other is Legacy && self.merge_view() == other.merge_view()
    }

    proof fn lemma_cut(a: &Self, x: Seq<u8>, b: &Self, y: Seq<u8>) {
        let tag_a = if a is Legacy { LEGACY_TAG } else { MERGE_TAG };
        let tag_b = if b is Legacy { LEGACY_TAG } else { MERGE_TAG };
        let rest_a = match a {
            MergedTreeId::Legacy(tree_id) => tree_id.content_bytes() + x,
            MergedTreeId::Merge(tree_ids) => tree_ids.content_bytes() + x,
        };
        let rest_b = match b {
            MergedTreeId::Legacy(tree_id) => tree_id.content_bytes() + y,
            MergedTreeId::Merge(tree_ids) => tree_ids.content_bytes() + y,
        };
        assert(a.content_bytes() + x =~= seq![tag_a] + rest_a);
        assert(b.content_bytes() + y =~= seq![tag_b] + rest_b);
        lemma_seq_cut(seq![tag_a], rest_a, seq![tag_b], rest_b);
        assert(seq![tag_a][0] == seq![tag_b][0]);
        match (a, b) {
            (MergedTreeId::Legacy(s), MergedTreeId::Legacy(t)) => {
                TreeId::lemma_cut(s, x, t, y);
            },
            (MergedTreeId::Merge(s), MergedTreeId::Merge(t)) => {
                Merge::<TreeId>::lemma_cut(s, x, t, y);
                assert(s@ =~= t@);
            },
            _ => {},
        }
        assert(a.same_content(b));
    }
}

/// A legacy root and the resolved merge of the same tree are equal, and yet
/// their encodings differ: that of the legacy root starts with the digit `0`,
/// that of the merge with the digit `1`.
pub proof fn lemma_legacy_equals_resolved(legacy: MergedTreeId, merged: MergedTreeId)
    requires
        legacy is Legacy,
        merged is Merge,
        merged.merge_view() == seq![legacy->Legacy_0@],
    ensures
        PartialEqSpec::eq_spec(&legacy, &merged),
        PartialEqSpec::eq_spec(&merged, &legacy),
        legacy.content_bytes()[0] == LEGACY_TAG,
        merged.content_bytes()[0] == MERGE_TAG,
        legacy.content_bytes() != merged.content_bytes(),
{
}

/// The encodings of a legacy root and of a merge are never the same, whatever
/// the two hold.
pub proof fn lemma_forms_never_collide(a: MergedTreeId, b: MergedTreeId)
    requires
        a is Legacy,
        b is Merge,
    ensures
        a.content_bytes() != b.content_bytes(),
{
    assert(a.content_bytes()[0] == LEGACY_TAG);
    assert(b.content_bytes()[0] == MERGE_TAG);
}

} // verus!
