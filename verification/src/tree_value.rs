//! What a tree holds under a name.
//!
//! An entry of a tree is a file, a symbolic link, a directory, a link to a
//! commit of another repository, or a conflict. Each holds the identifier of
//! an object of its kind, and the kinds are kept apart even where the
//! identifiers have the same bytes.

use crate::content_hash::{
    fits_u64, le_bytes, lemma_le_bytes_len, lemma_le_bytes_unique, lemma_radix_power_values,
    lemma_seq_cut, lemma_sized_bytes_cut, put_u32, sized_bytes, ContentHash, SelfDelimiting,
};
use crate::hex_codec::hex_text;
use crate::object_id::{CommitId, ConflictId, FileId, ObjectId, SymlinkId, TreeId};
use vstd::prelude::*;
use vstd::std_specs::cmp::PartialEqSpecImpl;

verus! {

/// What a tree holds under one name.
#[derive(Debug, Eq, Hash)]
pub enum TreeValue {
    /// A file with the given content, which may be marked executable.
    File { id: FileId, executable: bool },
    /// A symbolic link with the given target.
    Symlink(SymlinkId),
    /// A directory.
    Tree(TreeId),
    /// A link to a commit of another repository.
    GitSubmodule(CommitId),
    /// A conflict that is recorded for this path alone.
    Conflict(ConflictId),
}

/// A `TreeValue` with each identifier as its byte string.
pub enum TreeValueView {
    File { id: Seq<u8>, executable: bool },
    Symlink(Seq<u8>),
    Tree(Seq<u8>),
    GitSubmodule(Seq<u8>),
    Conflict(Seq<u8>),
}

impl TreeValueView {
    /// The bytes of the identifier held, whatever its kind.
    pub open spec fn id_bytes(self) -> Seq<u8> {
        match self {
            TreeValueView::File { id, .. } => id,
            TreeValueView::Symlink(id) => id,
            TreeValueView::Tree(id) => id,
            TreeValueView::GitSubmodule(id) => id,
            TreeValueView::Conflict(id) => id,
        }
    }

    /// The number written in front of the identifier to tell the variants
    /// apart.
    pub open spec fn tag(self) -> nat {
        match self {
            TreeValueView::File { .. } => 0,
            TreeValueView::Symlink(_) => 1,
            TreeValueView::Tree(_) => 2,
            TreeValueView::GitSubmodule(_) => 3,
            TreeValueView::Conflict(_) => 4,
        }
    }

    /// Whether the length of the identifier can be written in eight bytes.
    /// True of every identifier in memory.
    pub open spec fn fits(self) -> bool {
        fits_u64(self.id_bytes().len())
    }

    /// The encoding: the tag in four bytes, the identifier, and for a file
    /// one more byte that says whether it is executable.
    pub open spec fn content_bytes(self) -> Seq<u8> {
        let front = le_bytes(self.tag(), 4) + sized_bytes(self.id_bytes());
        match self {
            TreeValueView::File { executable, .. } => front + executable.content_bytes(),
            _ => front,
        }
    }
}

impl View for TreeValue {
    type V = TreeValueView;

    open spec fn view(&self) -> TreeValueView {
        match self {
            TreeValue::File { id, executable } => TreeValueView::File {
                id: id@,
                executable: *executable,
            },
            TreeValue::Symlink(id) => TreeValueView::Symlink(id@),
            TreeValue::Tree(id) => TreeValueView::Tree(id@),
            TreeValue::GitSubmodule(id) => TreeValueView::GitSubmodule(id@),
            TreeValue::Conflict(id) => TreeValueView::Conflict(id@),
        }
    }
}

impl Clone for TreeValue {
    fn clone(&self) -> (copy: Self)
        ensures
            copy@ == self@,
    {
        match self {
            TreeValue::File { id, executable } => TreeValue::File {
                id: id.clone(),
                executable: *executable,
            },
            TreeValue::Symlink(id) => TreeValue::Symlink(id.clone()),
            TreeValue::Tree(id) => TreeValue::Tree(id.clone()),
            TreeValue::GitSubmodule(id) => TreeValue::GitSubmodule(id.clone()),
            TreeValue::Conflict(id) => TreeValue::Conflict(id.clone()),
        }
    }
}

impl PartialEq for TreeValue {
    /// Values are equal when they are of the same kind and hold the same
    /// bytes as identifier, and, if they are files, agree on whether the file
    /// is executable.
    fn eq(&self, other: &Self) -> (same: bool) {
        match (self, other) {
            (
                TreeValue::File { id: a, executable: x },
                TreeValue::File { id: b, executable: y },
            ) => a == b && *x == *y,
            (TreeValue::Symlink(a), TreeValue::Symlink(b)) => a == b,
            (TreeValue::Tree(a), TreeValue::Tree(b)) => a == b,
            (TreeValue::GitSubmodule(a), TreeValue::GitSubmodule(b)) => a == b,
            (TreeValue::Conflict(a), TreeValue::Conflict(b)) => a == b,
            _ => false,
        }
    }
}

impl PartialEqSpecImpl for TreeValue {
    open spec fn obeys_eq_spec() -> bool {
        true
    }

    open spec fn eq_spec(&self, other: &Self) -> bool {
        self@ == other@
    }
}

impl TreeValue {
    /// The identifier held, whatever its kind, as hexadecimal text.
    pub fn hex(&self) -> (text: String)
        ensures
            text@ == hex_text(self@.id_bytes()),
    {
        match self {
            TreeValue::File { id, .. } => id.hex(),
            TreeValue::Symlink(id) => id.hex(),
            TreeValue::Tree(id) => id.hex(),
            TreeValue::GitSubmodule(id) => id.hex(),
            TreeValue::Conflict(id) => id.hex(),
        }
    }
}

impl ContentHash for TreeValue {
    open spec fn content_bytes(&self) -> Seq<u8> {
        self@.content_bytes()
    }

    open spec fn fits(&self) -> bool {
        self@.fits()
    }

    fn hash(&self, state: &mut Vec<u8>) {
        match self {
            TreeValue::File { id, executable } => {
                put_u32(state, 0);
                id.hash(state);
                executable.hash(state);
            },
            TreeValue::Symlink(id) => {
                put_u32(state, 1);
                id.hash(state);
            },
            TreeValue::Tree(id) => {
                put_u32(state, 2);
                id.hash(state);
            },
            TreeValue::GitSubmodule(id) => {
                put_u32(state, 3);
                id.hash(state);
            },
            TreeValue::Conflict(id) => {
                put_u32(state, 4);
                id.hash(state);
            },
        }
        assert(state@ =~= old(state)@ + self@.content_bytes());
    }
}

/// The encoding of a value says where it ends and which value it is of: if
/// two encodings are followed by anything and the wholes are the same, the
/// values are the same and so is what follows.
pub proof fn lemma_tree_value_bytes_cut(a: TreeValueView, x: Seq<u8>, b: TreeValueView, y: Seq<u8>)
    requires
        a.fits(),
        b.fits(),
        a.content_bytes() + x == b.content_bytes() + y,
    ensures
        a == b,
        x == y,
{
    lemma_radix_power_values();
    lemma_le_bytes_len(a.tag(), 4);
    lemma_le_bytes_len(b.tag(), 4);
    let tail_a: Seq<u8> = match a {
        TreeValueView::File { executable, .. } => executable.content_bytes() + x,
        _ => x,
    };
    let tail_b: Seq<u8> = match b {
        TreeValueView::File { executable, .. } => executable.content_bytes() + y,
        _ => y,
    };
    let rest_a = sized_bytes(a.id_bytes()) + tail_a;
    let rest_b = sized_bytes(b.id_bytes()) + tail_b;
    assert(a.content_bytes() + x =~= le_bytes(a.tag(), 4) + rest_a);
    assert(b.content_bytes() + y =~= le_bytes(b.tag(), 4) + rest_b);
    lemma_seq_cut(le_bytes(a.tag(), 4), rest_a, le_bytes(b.tag(), 4), rest_b);
    lemma_le_bytes_unique(a.tag(), b.tag(), 4);
    lemma_sized_bytes_cut(a.id_bytes(), tail_a, b.id_bytes(), tail_b);
    if a is File {
        let flag_a = a->executable.content_bytes();
        let flag_b = b->executable.content_bytes();
        lemma_seq_cut(flag_a, x, flag_b, y);
        assert(flag_a[0] == flag_b[0]);
    }
}

impl SelfDelimiting for TreeValue {
    open spec fn same_content(&self, other: &Self) -> bool {
        self@ == other@
    }

    proof fn lemma_cut(a: &Self, x: Seq<u8>, b: &Self, y: Seq<u8>) {
        lemma_tree_value_bytes_cut(a@, x, b@, y);
        assert(a.same_content(b));
    }
}

} // verus!
