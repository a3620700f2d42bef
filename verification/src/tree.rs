//! Directory trees.
//!
//! A tree maps the names of its entries to what it holds under them. It lists
//! its entries in the byte order of their names, each name once; that order
//! is part of the tree's identity, because the encoding of a tree writes the
//! entries as they are listed.

use crate::byte_order::{lemma_lex_transitive, lemma_lex_trichotomy, lex_less, ByteOrder};
use crate::content_hash::{fits_u64, put_u64, ContentHash, SelfDelimiting};
use crate::listing::{
    entry_map, is_gap, lemma_entry_map_at, lemma_gap_absent, lemma_insert_at,
    lemma_listing_unique, lemma_remove_at, lemma_tree_bytes_cut, lemma_update_at, listing_bytes,
    listing_fits, strictly_increasing, tree_bytes, EntryMap, Listing,
};
use crate::repo_path::{name_bytes, RepoPathComponent};
use vstd::prelude::*;
use vstd::std_specs::cmp::PartialEqSpecImpl;

pub use crate::tree_value::{TreeValue, TreeValueView};

verus! {

/// A directory: what it holds under each name.
#[derive(Debug, Eq)]
pub struct Tree {
    entries: Vec<(RepoPathComponent, TreeValue)>,
}

/// One entry of a tree, by reference.
#[derive(Debug, PartialEq, Eq)]
pub struct TreeEntry<'a> {
    name: &'a RepoPathComponent,
    value: &'a TreeValue,
}

impl<'a> View for TreeEntry<'a> {
    type V = (Seq<char>, TreeValueView);

    closed spec fn view(&self) -> (Seq<char>, TreeValueView) {
        (self.name@, self.value@)
    }
}

impl<'a> Clone for TreeEntry<'a> {
    fn clone(&self) -> (copy: Self)
        ensures
            copy@ == self@,
    {
        TreeEntry { name: self.name, value: self.value }
    }
}

impl<'a> TreeEntry<'a> {
    /// The entry with the given name and value.
    pub fn new(name: &'a RepoPathComponent, value: &'a TreeValue) -> (entry: Self)
        ensures
            entry@ == (name@, value@),
    {
        TreeEntry { name, value }
    }

    /// The name of the entry.
    pub fn name(&self) -> (name: &'a RepoPathComponent)
        ensures
            name@ == self@.0,
    {
        self.name
    }

    /// What the tree holds under that name.
    pub fn value(&self) -> (value: &'a TreeValue)
        ensures
            value@ == self@.1,
    {
        self.value
    }
}

impl View for Tree {
    type V = EntryMap;

    open spec fn view(&self) -> EntryMap {
        entry_map(self.listing())
    }
}

impl Tree {
    /// The entries in the order in which the tree lists them.
    pub closed spec fn listing(&self) -> Listing {
        Seq::new(self.entries@.len(), |i: int| (self.entries@[i].0@, self.entries@[i].1@))
    }

    /// The invariant of a tree: its listing rises strictly, so every name
    /// occurs once and the order is the byte order of the names.
    pub open spec fn wf(&self) -> bool {
        strictly_increasing(self.listing())
    }

    #[verifier::type_invariant]
    spec fn listing_rises(self) -> bool {
        self.wf()
    }

    /// Where `name` is listed, or where it would have to be put.
    ///
    /// The flag says whether the tree has the name; if it has, the index is
    /// that of its entry, and if not, the index is that of the gap into which
    /// the name falls.
    fn find(&self, name: &RepoPathComponent) -> (r: (bool, usize))
        ensures
            self.wf(),
            r.0 ==> r.1 < self.listing().len() && self.listing()[r.1 as int].0 == name@,
            !r.0 ==> is_gap(self.listing(), r.1 as int, name@),
    {
        proof {
            use_type_invariant(self);
        }
        let ghost listing = self.listing();
        let mut low: usize = 0;
        let mut high: usize = self.entries.len();
        while low < high
            invariant
                listing == self.listing(),
                strictly_increasing(listing),
                0 <= low <= high <= listing.len(),
                listing.len() == self.entries@.len(),
                forall|i: int|
                    0 <= i < low ==> lex_less(
                        name_bytes((#[trigger] listing[i]).0),
                        name_bytes(name@),
                    ),
                forall|i: int|
                    high <= i < listing.len() ==> lex_less(
                        name_bytes(name@),
                        name_bytes((#[trigger] listing[i]).0),
                    ),
            decreases high - low,
        {
            let mid: usize = low + (high - low) / 2;
            assert(listing[mid as int].0 == self.entries@[mid as int].0@);
            match self.entries[mid].0.order_to(name) {
                ByteOrder::Less => {
                    proof {
                        assert forall|i: int| 0 <= i < mid + 1 implies lex_less(
                            name_bytes((#[trigger] listing[i]).0),
                            name_bytes(name@),
                        ) by {
                            if i < mid {
                                lemma_lex_transitive(
                                    name_bytes(listing[i].0),
                                    name_bytes(listing[mid as int].0),
                                    name_bytes(name@),
                                );
                            }
                        }
                    }
                    low = mid + 1;
                },
                ByteOrder::Equal => {
                    return (true, mid);
                },
                ByteOrder::Greater => {
                    proof {
                        lemma_lex_trichotomy(name_bytes(listing[mid as int].0), name_bytes(name@));
                        assert forall|i: int| mid <= i < listing.len() implies lex_less(
                            name_bytes(name@),
                            name_bytes((#[trigger] listing[i]).0),
                        ) by {
                            if i > mid {
                                lemma_lex_transitive(
                                    name_bytes(name@),
                                    name_bytes(listing[mid as int].0),
                                    name_bytes(listing[i].0),
                                );
                            }
                        }
                    }
                    high = mid;
                },
            }
        }
        (false, low)
    }
}

impl PartialEq for Tree {
    /// Trees are equal when they list the same entries, which is when they
    /// hold the same values under the same names.
    fn eq(&self, other: &Self) -> (same: bool) {
        if self.entries.len() != other.entries.len() {
            assert(self.listing().len() != other.listing().len());
            return false;
        }
        let mut i: usize = 0;
        while i < self.entries.len()
            invariant
                self.entries@.len() == other.entries@.len(),
                0 <= i <= self.entries@.len(),
                forall|k: int| 0 <= k < i ==> self.listing()[k] == other.listing()[k],
            decreases self.entries@.len() - i,
        {
            let same_name = self.entries[i].0.order_to(&other.entries[i].0) == ByteOrder::Equal;
            if !same_name || self.entries[i].1 != other.entries[i].1 {
                assert(self.listing()[i as int] != other.listing()[i as int]);
                return false;
            }
            i += 1;
        }
        assert(self.listing() =~= other.listing());
        true
    }
}

impl PartialEqSpecImpl for Tree {
    open spec fn obeys_eq_spec() -> bool {
        true
    }

    open spec fn eq_spec(&self, other: &Self) -> bool {
        self.listing() == other.listing()
    }
}

impl Default for Tree {
    /// The empty tree.
    fn default() -> (tree: Self)
        ensures
            tree.wf(),
            tree.listing() == Listing::empty(),
            tree@ == EntryMap::empty(),
    {
        let tree = Tree { entries: Vec::new() };
        assert(tree.listing() =~= Listing::empty());
        assert(tree@ =~= EntryMap::empty());
        tree
    }
}

impl Clone for Tree {
    fn clone(&self) -> (copy: Self)
        ensures
            copy.wf(),
            copy.listing() == self.listing(),
            copy@ == self@,
    {
        proof {
            use_type_invariant(self);
        }
        let mut entries: Vec<(RepoPathComponent, TreeValue)> = Vec::new();
        let mut i: usize = 0;
        while i < self.entries.len()
            invariant
                0 <= i <= self.entries@.len(),
                entries@.len() == i,
                forall|k: int|
                    0 <= k < i ==> (#[trigger] entries@[k]).0@ == self.entries@[k].0@
                        && entries@[k].1@ == self.entries@[k].1@,
            decreases self.entries@.len() - i,
        {
            entries.push((self.entries[i].0.clone(), self.entries[i].1.clone()));
            i += 1;
        }
        let ghost listing = Seq::new(entries@.len(), |k: int| (entries@[k].0@, entries@[k].1@));
        assert(listing =~= self.listing());
        Tree { entries }
    }
}

impl Tree {
    /// Whether the tree has no entry.
    pub fn is_empty(&self) -> (empty: bool)
        ensures
            self.wf(),
            empty == (self.listing().len() == 0),
            empty == (self@ == EntryMap::empty()),
    {
        proof {
            use_type_invariant(self);
            if self.listing().len() > 0 {
                lemma_entry_map_at(self.listing(), 0);
            } else {
                assert(self@ =~= EntryMap::empty());
            }
        }
        self.entries.len() == 0
    }

    /// The names of the entries, in the order of the listing.
    pub fn names(&self) -> (names: Vec<&RepoPathComponent>)
        ensures
            self.wf(),
            names@.len() == self.listing().len(),
            forall|i: int| 0 <= i < names@.len() ==> (#[trigger] names@[i])@ == self.listing()[i].0,
    {
        proof {
            use_type_invariant(self);
        }
        let mut names: Vec<&RepoPathComponent> = Vec::new();
        let mut i: usize = 0;
        while i < self.entries.len()
            invariant
                0 <= i <= self.entries@.len(),
                names@.len() == i,
                forall|k: int| 0 <= k < i ==> (#[trigger] names@[k])@ == self.entries@[k].0@,
            decreases self.entries@.len() - i,
        {
            names.push(&self.entries[i].0);
            i += 1;
        }
        names
    }

    /// A walk over the entries of this tree alone, in the order of the
    /// listing; what lies in the directories below is not visited.
    pub fn entries(&self) -> (walk: TreeEntriesNonRecursiveIterator<'_>)
        ensures
            self.wf(),
            walk.remaining() == self.listing(),
    {
        proof {
            use_type_invariant(self);
        }
        let walk = TreeEntriesNonRecursiveIterator { tree: self, position: 0 };
        assert(walk.remaining() =~= self.listing());
        walk
    }

    /// Puts `value` under `name`, in place of what was there.
    pub fn set(&mut self, name: RepoPathComponent, value: TreeValue)
        ensures
            final(self).wf(),
            final(self)@ == old(self)@.insert(name@, value@),
    {
        let (found, index) = self.find(&name);
        let ghost before = self.listing();
        let mut entries: Vec<(RepoPathComponent, TreeValue)> = Vec::new();
        std::mem::swap(&mut self.entries, &mut entries);
        proof {
            if found {
                lemma_update_at(before, index as int, value@);
            } else {
                lemma_insert_at(before, index as int, name@, value@);
            }
        }
        if found {
            entries.set(index, (name, value));
        } else {
            entries.insert(index, (name, value));
        }
        let ghost after = Seq::new(entries@.len(), |i: int| (entries@[i].0@, entries@[i].1@));
        proof {
            if found {
                assert(after =~= before.update(index as int, (before[index as int].0, value@)));
            } else {
                assert(after =~= before.insert(index as int, (name@, value@)));
            }
        }
        self.entries = entries;
        assert(self.listing() =~= after);
    }

    /// Takes out what is under `name`, if there is anything.
    pub fn remove(&mut self, name: &RepoPathComponent)
        ensures
            final(self).wf(),
            final(self)@ == old(self)@.remove(name@),
    {
        let (found, index) = self.find(name);
        let ghost before = self.listing();
        if found {
            let mut entries: Vec<(RepoPathComponent, TreeValue)> = Vec::new();
            std::mem::swap(&mut self.entries, &mut entries);
            proof {
                lemma_remove_at(before, index as int);
            }
            entries.remove(index);
            let ghost after = Seq::new(entries@.len(), |i: int| (entries@[i].0@, entries@[i].1@));
            assert(after =~= before.remove(index as int));
            self.entries = entries;
            assert(self.listing() =~= after);
        } else {
            proof {
                lemma_gap_absent(before, index as int, name@);
                assert(self@ =~= old(self)@.remove(name@));
            }
        }
    }

    /// Puts `value` under `name` if there is one, and takes out what is under
    /// `name` if there is none.
    pub fn set_or_remove(&mut self, name: &RepoPathComponent, value: Option<TreeValue>)
        ensures
            final(self).wf(),
            value is None ==> final(self)@ == old(self)@.remove(name@),
            value matches Some(v) ==> final(self)@ == old(self)@.insert(name@, v@),
    {
        match value {
            None => {
                self.remove(name);
            },
            Some(value) => {
                self.set(name.clone(), value);
            },
        }
    }

    /// The entry named `name`, if the tree has one.
    pub fn entry(&self, name: &RepoPathComponent) -> (entry: Option<TreeEntry<'_>>)
        ensures
            self.wf(),
            entry is Some <==> self@.contains_key(name@),
            entry matches Some(e) ==> e@ == (name@, self@[name@]),
    {
        let (found, index) = self.find(name);
        if found {
            proof {
                lemma_entry_map_at(self.listing(), index as int);
            }
            Some(TreeEntry { name: &self.entries[index].0, value: &self.entries[index].1 })
        } else {
            proof {
                lemma_gap_absent(self.listing(), index as int, name@);
            }
            None
        }
    }

    /// What the tree holds under `name`, if anything.
    pub fn value(&self, name: &RepoPathComponent) -> (value: Option<&TreeValue>)
        ensures
            self.wf(),
            value is Some <==> self@.contains_key(name@),
            value matches Some(v) ==> v@ == self@[name@],
    {
        let (found, index) = self.find(name);
        if found {
            proof {
                lemma_entry_map_at(self.listing(), index as int);
            }
            Some(&self.entries[index].1)
        } else {
            proof {
                lemma_gap_absent(self.listing(), index as int, name@);
            }
            None
        }
    }
}

impl ContentHash for Tree {
    open spec fn content_bytes(&self) -> Seq<u8> {
        tree_bytes(self.listing())
    }

    open spec fn fits(&self) -> bool {
        listing_fits(self.listing())
    }

    fn hash(&self, state: &mut Vec<u8>) {
        put_u64(state, self.entries.len() as u64);
        let ghost start = state@;
        let ghost listing = self.listing();
        let mut i: usize = 0;
        while i < self.entries.len()
            invariant
                0 <= i <= self.entries@.len(),
                listing == self.listing(),
                listing.len() == self.entries@.len(),
                state@ == start + listing_bytes(listing.subrange(0, i as int)),
                forall|k: int|
                    0 <= k < i ==> fits_u64(name_bytes((#[trigger] listing[k]).0).len())
                        && listing[k].1.fits(),
            decreases self.entries@.len() - i,
        {
            self.entries[i].0.hash(state);
            self.entries[i].1.hash(state);
            proof {
                let next = listing.subrange(0, i + 1);
                assert(next.drop_last() =~= listing.subrange(0, i as int));
                assert(next.last() == listing[i as int]);
                assert(state@ =~= start + listing_bytes(next));
            }
            i += 1;
        }
        assert(listing.subrange(0, i as int) =~= listing);
        assert(state@ =~= old(state)@ + tree_bytes(listing));
    }
}

/// A walk over the entries of one tree, in the order of its listing.
pub struct TreeEntriesNonRecursiveIterator<'a> {
    tree: &'a Tree,
    position: usize,
}

impl<'a> TreeEntriesNonRecursiveIterator<'a> {
    /// The entries that the walk has still to give, in order.
    pub closed spec fn remaining(&self) -> Listing {
        self.tree.listing().skip(self.position as int)
    }

    #[verifier::type_invariant]
    spec fn within_tree(self) -> bool {
        self.position <= self.tree.listing().len()
    }

    /// The next entry, if any is left.
    pub fn next(&mut self) -> (entry: Option<TreeEntry<'a>>)
        ensures
            old(self).remaining().len() == 0 ==> entry is None && final(self).remaining() == old(
                self,
            ).remaining(),
            old(self).remaining().len() > 0 ==> entry is Some && entry->0@ == old(
                self,
            ).remaining()[0] && final(self).remaining() == old(self).remaining().drop_first(),
    {
        proof {
            use_type_invariant(&*self);
        }
        let tree: &'a Tree = self.tree;
        let at: usize = self.position;
        if at < tree.entries.len() {
            let entry = TreeEntry { name: &tree.entries[at].0, value: &tree.entries[at].1 };
            self.position = at + 1;
            assert(self.remaining() =~= old(self).remaining().drop_first());
            Some(entry)
        } else {
            None
        }
    }
}

/// After `set`, the tree holds the new value under the name, and under every
/// other name what it held before.
pub proof fn lemma_value_after_set(
    before: EntryMap,
    name: Seq<char>,
    value: TreeValueView,
    other: Seq<char>,
)
    requires
        other != name,
    ensures
        before.insert(name, value).contains_key(name),
        before.insert(name, value)[name] == value,
        before.insert(name, value).contains_key(other) == before.contains_key(other),
        before.contains_key(other) ==> before.insert(name, value)[other] == before[other],
{
}

/// After `remove`, the tree holds nothing under the name, and under every
/// other name what it held before.
pub proof fn lemma_value_after_remove(
    before: EntryMap,
    name: Seq<char>,
    other: Seq<char>,
)
    requires
        other != name,
    ensures
        !before.remove(name).contains_key(name),
        before.remove(name).contains_key(other) == before.contains_key(other),
        before.contains_key(other) ==> before.remove(name)[other] == before[other],
{
}

/// Trees that hold the same values under the same names list them in the
/// same order and have the same encoding.
pub proof fn lemma_same_content_same_bytes(a: Tree, b: Tree)
    requires
        a.wf(),
        b.wf(),
        a@ == b@,
    ensures
        a.listing() == b.listing(),
        a.content_bytes() == b.content_bytes(),
{
    lemma_listing_unique(a.listing(), b.listing());
}

impl SelfDelimiting for Tree {
    open spec fn same_content(&self, other: &Self) -> bool {
        self.listing() == other.listing()
    }

    proof fn lemma_cut(a: &Self, x: Seq<u8>, b: &Self, y: Seq<u8>) {
        lemma_tree_bytes_cut(a.listing(), x, b.listing(), y);
        assert(a.same_content(b));
    }
}

} // verus!
