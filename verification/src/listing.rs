//! The listing of a tree: its entries in order.
//!
//! A listing is well formed when the names of its entries rise strictly in
//! byte order. Such a listing and the mapping from names to values that it
//! stands for determine each other, and so do the listing and its encoding.

use crate::byte_order::{lemma_lex_trichotomy, lex_less};
use crate::content_hash::{
    fits_u64, le_bytes, lemma_le_bytes_len, lemma_le_bytes_unique, lemma_radix_power_values,
    lemma_seq_cut, lemma_sized_bytes_cut, sized_bytes,
};
use crate::repo_path::{lemma_name_bytes_unique, name_bytes};
use crate::tree_value::{lemma_tree_value_bytes_cut, TreeValueView};
use vstd::prelude::*;

verus! {

/// The entries of a tree as it lists them: name and value, in order.
pub type Listing = Seq<(Seq<char>, TreeValueView)>;

/// What a tree holds under each name.
pub type EntryMap = Map<Seq<char>, TreeValueView>;

/// Whether the names of `listing` rise strictly in byte order from each entry
/// to the next, so that no name occurs twice.
pub open spec fn strictly_increasing(listing: Listing) -> bool {
    forall|i: int, j: int|
        0 <= i < j < listing.len() ==> lex_less(
            name_bytes(#[trigger] listing[i].0),
            name_bytes(#[trigger] listing[j].0),
        )
}

/// Whether `listing` has an entry named `name`.
pub open spec fn lists(listing: Listing, name: Seq<char>) -> bool {
    exists|i: int| 0 <= i < listing.len() && (#[trigger] listing[i]).0 == name
}

/// The place of an entry named `name` in `listing`, if it has one.
pub open spec fn place_of(listing: Listing, name: Seq<char>) -> int {
    choose|i: int| 0 <= i < listing.len() && (#[trigger] listing[i]).0 == name
}

/// The mapping from names to values that `listing` stands for.
pub open spec fn entry_map(listing: Listing) -> EntryMap {
    Map::new(
        |name: Seq<char>| lists(listing, name),
        |name: Seq<char>| listing[place_of(listing, name)].1,
    )
}

/// The encoding of one entry: its name as a sized byte string, then its
/// value.
pub open spec fn entry_bytes(entry: (Seq<char>, TreeValueView)) -> Seq<u8> {
    sized_bytes(name_bytes(entry.0)) + entry.1.content_bytes()
}

/// The encoding of the entries of `listing`, one after the other.
pub open spec fn listing_bytes(listing: Listing) -> Seq<u8>
    decreases listing.len(),
{
    if listing.len() == 0 {
        Seq::empty()
    } else {
        listing_bytes(listing.drop_last()) + entry_bytes(listing.last())
    }
}

/// Whether every length in `listing` can be written in eight bytes: the
/// number of entries, the length of each name and that of each identifier.
/// True of the listing of every tree in memory.
pub open spec fn listing_fits(listing: Listing) -> bool {
    &&& fits_u64(listing.len())
    &&& forall|i: int|
        0 <= i < listing.len() ==> fits_u64(name_bytes((#[trigger] listing[i]).0).len())
            && listing[i].1.fits()
}

/// The encoding of a tree that lists `listing`: the number of entries in
/// eight bytes, then the entries.
pub open spec fn tree_bytes(listing: Listing) -> Seq<u8> {
    le_bytes(listing.len(), 8) + listing_bytes(listing)
}

/// Whether `name` falls into the gap in front of place `at` of `listing`: it
/// comes after every name before that place and before every name from that
/// place on.
pub open spec fn is_gap(listing: Listing, at: int, name: Seq<char>) -> bool {
    &&& 0 <= at <= listing.len()
    &&& forall|i: int|
        0 <= i < at ==> lex_less(name_bytes((#[trigger] listing[i]).0), name_bytes(name))
    &&& forall|i: int|
        at <= i < listing.len() ==> lex_less(
            name_bytes(name),
            name_bytes((#[trigger] listing[i]).0),
        )
}

/// In a rising listing, entries at different places have different names.
pub proof fn lemma_names_distinct(listing: Listing, i: int, j: int)
    requires
        strictly_increasing(listing),
        0 <= i < listing.len(),
        0 <= j < listing.len(),
        i != j,
    ensures
        listing[i].0 != listing[j].0,
{
    lemma_lex_trichotomy(name_bytes(listing[i].0), name_bytes(listing[j].0));
    if i < j {
        assert(lex_less(name_bytes(listing[i].0), name_bytes(listing[j].0)));
    } else {
        assert(lex_less(name_bytes(listing[j].0), name_bytes(listing[i].0)));
    }
}

/// The mapping of a rising listing holds each entry of the listing under its
/// name.
pub proof fn lemma_entry_map_at(listing: Listing, i: int)
    requires
        strictly_increasing(listing),
        0 <= i < listing.len(),
    ensures
        entry_map(listing).contains_key(listing[i].0),
        entry_map(listing)[listing[i].0] == listing[i].1,
        place_of(listing, listing[i].0) == i,
{
    let name = listing[i].0;
    assert(lists(listing, name));
    let k = place_of(listing, name);
    if k != i {
        lemma_names_distinct(listing, i, k);
    }
}

/// A name that falls into a gap of a rising listing is not in its mapping.
pub proof fn lemma_gap_absent(listing: Listing, at: int, name: Seq<char>)
    requires
        strictly_increasing(listing),
        is_gap(listing, at, name),
    ensures
        !entry_map(listing).contains_key(name),
{
    if lists(listing, name) {
        let k = place_of(listing, name);
        lemma_lex_trichotomy(name_bytes(listing[k].0), name_bytes(name));
    }
}

/// Putting a new name into its gap keeps the listing rising and adds the
/// entry to its mapping.
pub proof fn lemma_insert_at(listing: Listing, at: int, name: Seq<char>, value: TreeValueView)
    requires
        strictly_increasing(listing),
        is_gap(listing, at, name),
    ensures
        strictly_increasing(listing.insert(at, (name, value))),
        entry_map(listing.insert(at, (name, value))) == entry_map(listing).insert(name, value),
{
    let after = listing.insert(at, (name, value));
    assert forall|i: int, j: int| 0 <= i < j < after.len() implies lex_less(
        name_bytes(#[trigger] after[i].0),
        name_bytes(#[trigger] after[j].0),
    ) by {
        let i0 = if i < at { i } else { i - 1 };
        let j0 = if j < at { j } else { j - 1 };
        if i == at {
            assert(after[j] == listing[j0]);
        } else if j == at {
            assert(after[i] == listing[i0]);
        } else {
            assert(after[i] == listing[i0]);
            assert(after[j] == listing[j0]);
        }
    }
    let goal = entry_map(listing).insert(name, value);
    assert forall|n: Seq<char>| entry_map(after).contains_key(n) <==> goal.contains_key(n) by {
        if lists(after, n) {
            let k = place_of(after, n);
            if k < at {
                assert(after[k] == listing[k]);
            } else if k > at {
                assert(after[k] == listing[k - 1]);
            }
        }
        if lists(listing, n) {
            let k = place_of(listing, n);
            let k1 = if k < at { k } else { k + 1 };
            assert(after[k1] == listing[k]);
        }
        if n == name {
            assert(after[at].0 == n);
        }
    }
    assert forall|n: Seq<char>| entry_map(after).contains_key(n) implies entry_map(after)[n]
        == goal[n] by {
        let k = place_of(after, n);
        lemma_entry_map_at(after, k);
        if k < at {
            assert(after[k] == listing[k]);
            lemma_entry_map_at(listing, k);
            lemma_names_distinct(after, k, at);
        } else if k > at {
            assert(after[k] == listing[k - 1]);
            lemma_entry_map_at(listing, k - 1);
            lemma_names_distinct(after, k, at);
        }
    }
    assert(entry_map(after) =~= goal);
}

/// Giving an entry a new value keeps the listing rising and changes the
/// mapping at its name alone.
pub proof fn lemma_update_at(listing: Listing, at: int, value: TreeValueView)
    requires
        strictly_increasing(listing),
        0 <= at < listing.len(),
    ensures
        strictly_increasing(listing.update(at, (listing[at].0, value))),
        entry_map(listing.update(at, (listing[at].0, value))) == entry_map(listing).insert(
            listing[at].0,
            value,
        ),
{
    let name = listing[at].0;
    let after = listing.update(at, (name, value));
    assert forall|i: int, j: int| 0 <= i < j < after.len() implies lex_less(
        name_bytes(#[trigger] after[i].0),
        name_bytes(#[trigger] after[j].0),
    ) by {
        assert(after[i].0 == listing[i].0);
        assert(after[j].0 == listing[j].0);
    }
    let goal = entry_map(listing).insert(name, value);
    assert forall|n: Seq<char>| entry_map(after).contains_key(n) <==> goal.contains_key(n) by {
        if lists(after, n) {
            let k = place_of(after, n);
            assert(listing[k].0 == n);
        }
        if lists(listing, n) {
            let k = place_of(listing, n);
            assert(after[k].0 == n);
        }
        if n == name {
            assert(after[at].0 == n);
        }
    }
    assert forall|n: Seq<char>| entry_map(after).contains_key(n) implies entry_map(after)[n]
        == goal[n] by {
        let k = place_of(after, n);
        lemma_entry_map_at(after, k);
        if k != at {
            assert(after[k] == listing[k]);
            lemma_entry_map_at(listing, k);
            lemma_names_distinct(listing, k, at);
        }
    }
    assert(entry_map(after) =~= goal);
}

/// Taking an entry out keeps the listing rising and takes its name out of the
/// mapping.
pub proof fn lemma_remove_at(listing: Listing, at: int)
    requires
        strictly_increasing(listing),
        0 <= at < listing.len(),
    ensures
        strictly_increasing(listing.remove(at)),
        entry_map(listing.remove(at)) == entry_map(listing).remove(listing[at].0),
{
    let name = listing[at].0;
    let after = listing.remove(at);
    assert forall|i: int, j: int| 0 <= i < j < after.len() implies lex_less(
        name_bytes(#[trigger] after[i].0),
        name_bytes(#[trigger] after[j].0),
    ) by {
        let i0 = if i < at { i } else { i + 1 };
        let j0 = if j < at { j } else { j + 1 };
        assert(after[i] == listing[i0]);
        assert(after[j] == listing[j0]);
    }
    let goal = entry_map(listing).remove(name);
    assert forall|n: Seq<char>| entry_map(after).contains_key(n) <==> goal.contains_key(n) by {
        if lists(after, n) {
            let k = place_of(after, n);
            let k0 = if k < at { k } else { k + 1 };
            assert(after[k] == listing[k0]);
            lemma_names_distinct(listing, k0, at);
        }
        if lists(listing, n) && n != name {
            let k = place_of(listing, n);
            let k1 = if k < at { k } else { k - 1 };
            assert(after[k1] == listing[k]);
        }
    }
    assert forall|n: Seq<char>| entry_map(after).contains_key(n) implies entry_map(after)[n]
        == goal[n] by {
        let k = place_of(after, n);
        let k0 = if k < at { k } else { k + 1 };
        lemma_entry_map_at(after, k);
        assert(after[k] == listing[k0]);
        lemma_entry_map_at(listing, k0);
    }
    assert(entry_map(after) =~= goal);
}

/// Two rising listings with the same mapping agree on their first `upto`
/// entries.
proof fn lemma_same_prefix(a: Listing, b: Listing, upto: int)
    requires
        strictly_increasing(a),
        strictly_increasing(b),
        entry_map(a) == entry_map(b),
        0 <= upto <= a.len(),
    ensures
        upto <= b.len(),
        forall|k: int| 0 <= k < upto ==> a[k] == b[k],
    decreases upto,
{
    if upto > 0 {
        let i = upto - 1;
        lemma_same_prefix(a, b, i);
        lemma_entry_map_at(a, i);
        assert(lists(b, a[i].0));
        let j = place_of(b, a[i].0);
        if j < i {
            lemma_names_distinct(a, j, i);
        }
        lemma_entry_map_at(b, i);
        assert(lists(a, b[i].0));
        let j2 = place_of(a, b[i].0);
        if j2 < i {
            lemma_names_distinct(b, j2, i);
        }
        lemma_lex_trichotomy(name_bytes(a[i].0), name_bytes(b[i].0));
        if j > i {
            assert(lex_less(name_bytes(b[i].0), name_bytes(b[j].0)));
            if j2 > i {
                assert(lex_less(name_bytes(a[i].0), name_bytes(a[j2].0)));
            }
        }
        assert(a[i].0 == b[i].0);
        assert(a[i].1 == b[i].1);
    }
}

/// A mapping has one rising listing: the order of the entries, and with it
/// the encoding of a tree, is fixed by what the tree holds.
pub proof fn lemma_listing_unique(a: Listing, b: Listing)
    requires
        strictly_increasing(a),
        strictly_increasing(b),
        entry_map(a) == entry_map(b),
    ensures
        a == b,
        tree_bytes(a) == tree_bytes(b),
{
    lemma_same_prefix(a, b, a.len() as int);
    lemma_same_prefix(b, a, b.len() as int);
    assert(a =~= b);
}

/// The encoding of an entry says where it ends and which entry it is of.
pub proof fn lemma_entry_bytes_cut(
    a: (Seq<char>, TreeValueView),
    x: Seq<u8>,
    b: (Seq<char>, TreeValueView),
    y: Seq<u8>,
)
    requires
        fits_u64(name_bytes(a.0).len()),
        fits_u64(name_bytes(b.0).len()),
        a.1.fits(),
        b.1.fits(),
        entry_bytes(a) + x == entry_bytes(b) + y,
    ensures
        a == b,
        x == y,
{
    let rest_a = a.1.content_bytes() + x;
    let rest_b = b.1.content_bytes() + y;
    assert(entry_bytes(a) + x =~= sized_bytes(name_bytes(a.0)) + rest_a);
    assert(entry_bytes(b) + y =~= sized_bytes(name_bytes(b.0)) + rest_b);
    lemma_sized_bytes_cut(name_bytes(a.0), rest_a, name_bytes(b.0), rest_b);
    lemma_name_bytes_unique(a.0, b.0);
    lemma_tree_value_bytes_cut(a.1, x, b.1, y);
}

/// The encoding of a listing is that of its first entry, then that of the
/// rest.
pub proof fn lemma_listing_bytes_front(listing: Listing)
    requires
        listing.len() > 0,
    ensures
        listing_bytes(listing) == entry_bytes(listing[0]) + listing_bytes(listing.drop_first()),
    decreases listing.len(),
{
    let rest = listing.drop_first();
    if listing.len() == 1 {
        assert(listing.drop_last() =~= Listing::empty());
        assert(rest =~= Listing::empty());
        assert(listing_bytes(listing) =~= entry_bytes(listing[0]) + listing_bytes(rest));
    } else {
        let front = listing.drop_last();
        lemma_listing_bytes_front(front);
        assert(front.drop_first() =~= rest.drop_last());
        assert(front[0] == listing[0]);
        assert(rest.last() == listing.last());
        assert(listing_bytes(listing) =~= entry_bytes(listing[0]) + listing_bytes(rest));
    }
}

/// Listings of the same length whose encodings, followed by anything, are the
/// same are the same listing, and what follows is the same.
pub proof fn lemma_listing_bytes_cut(a: Listing, x: Seq<u8>, b: Listing, y: Seq<u8>)
    requires
        listing_fits(a),
        listing_fits(b),
        a.len() == b.len(),
        listing_bytes(a) + x == listing_bytes(b) + y,
    ensures
        a == b,
        x == y,
    decreases a.len(),
{
    if a.len() == 0 {
        assert(a =~= b);
        assert(listing_bytes(a) + x =~= x);
        assert(listing_bytes(b) + y =~= y);
    } else {
        lemma_listing_bytes_front(a);
        lemma_listing_bytes_front(b);
        let rest_a = listing_bytes(a.drop_first()) + x;
        let rest_b = listing_bytes(b.drop_first()) + y;
        assert(listing_bytes(a) + x =~= entry_bytes(a[0]) + rest_a);
        assert(listing_bytes(b) + y =~= entry_bytes(b[0]) + rest_b);
        lemma_entry_bytes_cut(a[0], rest_a, b[0], rest_b);
        assert forall|i: int| 0 <= i < a.drop_first().len() implies fits_u64(
            name_bytes((#[trigger] a.drop_first()[i]).0).len(),
        ) && a.drop_first()[i].1.fits() by {
            assert(a.drop_first()[i] == a[i + 1]);
        }
        assert forall|i: int| 0 <= i < b.drop_first().len() implies fits_u64(
            name_bytes((#[trigger] b.drop_first()[i]).0).len(),
        ) && b.drop_first()[i].1.fits() by {
            assert(b.drop_first()[i] == b[i + 1]);
        }
        lemma_listing_bytes_cut(a.drop_first(), x, b.drop_first(), y);
        assert forall|i: int| 0 <= i < a.len() implies a[i] == b[i] by {
            if i > 0 {
                assert(a[i] == a.drop_first()[i - 1]);
                assert(b[i] == b.drop_first()[i - 1]);
            }
        }
        assert(a =~= b);
    }
}

/// The encoding of a tree says where it ends and which listing it is of: how
/// many entries there are, and for each its name and its value.
pub proof fn lemma_tree_bytes_cut(a: Listing, x: Seq<u8>, b: Listing, y: Seq<u8>)
    requires
        listing_fits(a),
        listing_fits(b),
        tree_bytes(a) + x == tree_bytes(b) + y,
    ensures
        a == b,
        x == y,
{
    lemma_radix_power_values();
    lemma_le_bytes_len(a.len(), 8);
    lemma_le_bytes_len(b.len(), 8);
    let rest_a = listing_bytes(a) + x;
    let rest_b = listing_bytes(b) + y;
    assert(tree_bytes(a) + x =~= le_bytes(a.len(), 8) + rest_a);
    assert(tree_bytes(b) + y =~= le_bytes(b.len(), 8) + rest_b);
    lemma_seq_cut(le_bytes(a.len(), 8), rest_a, le_bytes(b.len(), 8), rest_b);
    lemma_le_bytes_unique(a.len(), b.len(), 8);
    lemma_listing_bytes_cut(a, x, b, y);
}

} // verus!
