//! Names of tree entries and paths made of them.
//!
//! A path component is a piece of text that names one entry of a directory.
//! Components are ordered by the bytes of their UTF-8 form, which is the
//! order in which a tree lists its entries.

use crate::byte_order::{compare_bytes, lemma_lex_trichotomy, lex_order, ByteOrder};
use crate::content_hash::{
    fits_u64, lemma_sized_bytes_cut, lemma_utf8_unique, sized_bytes, ContentHash, SelfDelimiting,
};
use vstd::prelude::*;
use vstd::utf8::encode_utf8;

verus! {

/// The bytes by which a name is ordered: its UTF-8 form.
pub open spec fn name_bytes(name: Seq<char>) -> Seq<u8> {
    encode_utf8(name)
}

/// Different names have different bytes.
pub proof fn lemma_name_bytes_unique(a: Seq<char>, b: Seq<char>)
    requires
        name_bytes(a) == name_bytes(b),
    ensures
        a == b,
{
    lemma_utf8_unique(a, b);
}

/// The name of one entry of a directory.
#[derive(Debug, PartialEq, Eq, PartialOrd, Ord, Hash)]
pub struct RepoPathComponent {
    value: String,
}

impl View for RepoPathComponent {
    type V = Seq<char>;

    closed spec fn view(&self) -> Seq<char> {
        self.value@
    }
}

impl Clone for RepoPathComponent {
    fn clone(&self) -> (copy: Self)
        ensures
            copy@ == self@,
    {
        RepoPathComponent { value: self.value.clone() }
    }
}

impl RepoPathComponent {
    /// The component named `value`.
    pub fn new(value: &str) -> (name: Self)
        ensures
            name@ == value@,
    {
        RepoPathComponent { value: value.to_owned() }
    }

    /// The name as text.
    pub fn as_str(&self) -> (text: &str)
        ensures
            text@ == self@,
    {
        self.value.as_str()
    }

    /// How this name stands to `other` in the order of tree entries.
    pub fn order_to(&self, other: &RepoPathComponent) -> (order: ByteOrder)
        ensures
            order == lex_order(name_bytes(self@), name_bytes(other@)),
            order == ByteOrder::Equal <==> self@ == other@,
    {
        proof {
            lemma_lex_trichotomy(name_bytes(self@), name_bytes(other@));
            if name_bytes(self@) == name_bytes(other@) {
                lemma_name_bytes_unique(self@, other@);
            }
        }
        compare_bytes(self.value.as_str().as_bytes(), other.value.as_str().as_bytes())
    }
}

impl ContentHash for RepoPathComponent {
    open spec fn content_bytes(&self) -> Seq<u8> {
        sized_bytes(name_bytes(self@))
    }

    open spec fn fits(&self) -> bool {
        fits_u64(name_bytes(self@).len())
    }

    fn hash(&self, state: &mut Vec<u8>) {
        self.value.hash(state);
    }
}

impl SelfDelimiting for RepoPathComponent {
    open spec fn same_content(&self, other: &Self) -> bool {
        self@ == other@
    }

    proof fn lemma_cut(a: &Self, x: Seq<u8>, b: &Self, y: Seq<u8>) {
        lemma_sized_bytes_cut(name_bytes(a@), x, name_bytes(b@), y);
        lemma_name_bytes_unique(a@, b@);
        assert(a.same_content(b));
    }
}

/// A path from the root of a repository to an entry: the names of the
/// directories passed, then the name of the entry. The empty path is the root.
#[derive(Debug, PartialEq, Eq, PartialOrd, Ord, Hash)]
pub struct RepoPath {
    components: Vec<RepoPathComponent>,
}

impl RepoPath {
    /// The names along the path, outermost first.
    pub closed spec fn names(&self) -> Seq<Seq<char>> {
        Seq::new(self.components@.len(), |i: int| self.components@[i]@)
    }

    /// The path of the root directory.
    pub fn root() -> (path: Self)
        ensures
            path.names() == Seq::<Seq<char>>::empty(),
    {
        RepoPath { components: Vec::new() }
    }

    /// The path with the given names, outermost first.
    pub fn from_components(components: Vec<RepoPathComponent>) -> (path: Self)
        ensures
            path.names() == Seq::new(components@.len(), |i: int| components@[i]@),
    {
        RepoPath { components }
    }

    /// The names along the path, outermost first.
    pub fn components(&self) -> (components: &Vec<RepoPathComponent>)
        ensures
            self.names() == Seq::new(components@.len(), |i: int| components@[i]@),
    {
        &self.components
    }

    /// Whether this is the path of the root directory.
    pub fn is_root(&self) -> (r: bool)
        ensures
            r == (self.names().len() == 0),
    {
        self.components.len() == 0
    }
}

} // verus!
