//! Identifiers of stored objects.
//!
//! An identifier is an immutable byte string derived from the content of the
//! object it names. There is one type per kind of object, so that an
//! identifier of one kind cannot stand where another is meant. All of them
//! are equal when their bytes are equal, are ordered lexicographically by
//! their bytes, and are written as lower-case hexadecimal text.

use crate::byte_order::{bytes_equal, compare_bytes, lex_order, ByteOrder};
use crate::content_hash::{
    fits_u64, lemma_sized_bytes_cut, put_bytes, sized_bytes, ContentHash, SelfDelimiting,
};
use crate::hex_codec::{decode_hex, encode, hex_decode, hex_text, is_hex_text};
use std::cmp::Ordering;
use vstd::pervasive::unreached;
use vstd::prelude::*;
use vstd::slice::slice_to_vec;
use vstd::std_specs::cmp::{PartialEqSpecImpl, PartialOrdSpecImpl};

verus! {

/// What every kind of identifier can do.
pub trait ObjectId: Sized + View<V = Seq<u8>> {
    /// The tag of the kind of object that this type names.
    spec fn kind_tag() -> Seq<char>;

    /// Wraps `value` as it is; no length is checked.
    fn new(value: Vec<u8>) -> (id: Self)
        ensures
            id@ == value@,
    ;

    /// The tag of the kind of object named, in lower case.
    fn object_type(&self) -> (tag: String)
        ensures
            tag@ == Self::kind_tag(),
    ;

    /// Wraps a copy of `bytes` as it is; no length is checked.
    fn from_bytes(bytes: &[u8]) -> (id: Self)
        ensures
            id@ == bytes@,
    ;

    /// The bytes of the identifier.
    fn as_bytes(&self) -> (bytes: &[u8])
        ensures
            bytes@ == self@,
    ;

    /// A copy of the bytes of the identifier.
    fn to_bytes(&self) -> (bytes: Vec<u8>)
        ensures
            bytes@ == self@,
    ;

    /// The identifier that `hex` is the text of. The text has to be an even
    /// number of hexadecimal digits; `decode_hex` tells whether it is.
    fn from_hex(hex: &str) -> (id: Self)
        requires
            is_hex_text(hex@),
        ensures
            id@ == hex_decode(hex@),
    ;

    /// The identifier as lower-case hexadecimal text.
    fn hex(&self) -> (text: String)
        ensures
            text@ == hex_text(self@),
    ;
}

/// The order of the standard library that `order` stands for.
pub open spec fn ordering_of(order: ByteOrder) -> Ordering {
    match order {
        ByteOrder::Less => Ordering::Less,
        ByteOrder::Equal => Ordering::Equal,
        ByteOrder::Greater => Ordering::Greater,
    }
}

/// The order of the standard library that `order` stands for.
fn to_ordering(order: ByteOrder) -> (r: Ordering)
    ensures
        r == ordering_of(order),
{
    match order {
        ByteOrder::Less => Ordering::Less,
        ByteOrder::Equal => Ordering::Equal,
        ByteOrder::Greater => Ordering::Greater,
    }
}

/// The bytes that hexadecimal text stands for.
fn bytes_of_hex(hex: &str) -> (bytes: Vec<u8>)
    requires
        is_hex_text(hex@),
    ensures
        bytes@ == hex_decode(hex@),
{
    match decode_hex(hex) {
        Ok(bytes) => bytes,
        Err(_) => unreached(),
    }
}

/// Names a commit.
#[derive(Debug, Eq, Ord, Hash)]
pub struct CommitId(Vec<u8>);

impl View for CommitId {
    type V = Seq<u8>;

    closed spec fn view(&self) -> Seq<u8> {
        self.0@
    }
}

impl Clone for CommitId {
    fn clone(&self) -> (copy: Self)
        ensures
            copy@ == self@,
    {
        CommitId(self.0.clone())
    }
}

impl PartialEq for CommitId {
    fn eq(&self, other: &Self) -> (same: bool) {
        bytes_equal(self.0.as_slice(), other.0.as_slice())
    }
}

impl PartialEqSpecImpl for CommitId {
    open spec fn obeys_eq_spec() -> bool {
        true
    }

    open spec fn eq_spec(&self, other: &Self) -> bool {
        self@ == other@
    }
}

impl PartialOrd for CommitId {
    fn partial_cmp(&self, other: &Self) -> (order: Option<Ordering>) {
        Some(to_ordering(compare_bytes(self.0.as_slice(), other.0.as_slice())))
    }
}

impl PartialOrdSpecImpl for CommitId {
    open spec fn obeys_partial_cmp_spec() -> bool {
        true
    }

    open spec fn partial_cmp_spec(&self, other: &Self) -> Option<Ordering> {
        Some(ordering_of(lex_order(self@, other@)))
    }
}

impl ObjectId for CommitId {
    open spec fn kind_tag() -> Seq<char> {
        "commit"@
    }

    fn new(value: Vec<u8>) -> (id: Self) {
        CommitId(value)
    }

    fn object_type(&self) -> (tag: String) {
        "commit".to_owned()
    }

    fn from_bytes(bytes: &[u8]) -> (id: Self) {
        CommitId(slice_to_vec(bytes))
    }

    fn as_bytes(&self) -> (bytes: &[u8]) {
        self.0.as_slice()
    }

    fn to_bytes(&self) -> (bytes: Vec<u8>) {
        self.0.clone()
    }

    fn from_hex(hex: &str) -> (id: Self) {
        CommitId(bytes_of_hex(hex))
    }

    fn hex(&self) -> (text: String) {
        encode(self.0.as_slice())
    }
}

impl ContentHash for CommitId {
    open spec fn content_bytes(&self) -> Seq<u8> {
        sized_bytes(self@)
    }

    open spec fn fits(&self) -> bool {
        fits_u64(self@.len())
    }

    fn hash(&self, state: &mut Vec<u8>) {
        put_bytes(state, self.0.as_slice());
        assert(self.content_bytes() == sized_bytes(self.0@));
        assert(self.fits() == fits_u64(self.0@.len()));
    }
}

impl SelfDelimiting for CommitId {
    open spec fn same_content(&self, other: &Self) -> bool {
        self@ == other@
    }

    proof fn lemma_cut(a: &Self, x: Seq<u8>, b: &Self, y: Seq<u8>) {
        lemma_sized_bytes_cut(a@, x, b@, y);
        assert(a.same_content(b));
    }
}

/// Names a change: what stays the same when a commit is rewritten.
#[derive(Debug, Eq, Ord, Hash)]
pub struct ChangeId(Vec<u8>);

impl View for ChangeId {
    type V = Seq<u8>;

    closed spec fn view(&self) -> Seq<u8> {
        self.0@
    }
}

impl Clone for ChangeId {
    fn clone(&self) -> (copy: Self)
        ensures
            copy@ == self@,
    {
        ChangeId(self.0.clone())
    }
}

impl PartialEq for ChangeId {
    fn eq(&self, other: &Self) -> (same: bool) {
        bytes_equal(self.0.as_slice(), other.0.as_slice())
    }
}

impl PartialEqSpecImpl for ChangeId {
    open spec fn obeys_eq_spec() -> bool {
        true
    }

    open spec fn eq_spec(&self, other: &Self) -> bool {
        self@ == other@
    }
}

impl PartialOrd for ChangeId {
    fn partial_cmp(&self, other: &Self) -> (order: Option<Ordering>) {
        Some(to_ordering(compare_bytes(self.0.as_slice(), other.0.as_slice())))
    }
}

impl PartialOrdSpecImpl for ChangeId {
    open spec fn obeys_partial_cmp_spec() -> bool {
        true
    }

    open spec fn partial_cmp_spec(&self, other: &Self) -> Option<Ordering> {
        Some(ordering_of(lex_order(self@, other@)))
    }
}

impl ObjectId for ChangeId {
    open spec fn kind_tag() -> Seq<char> {
        "change"@
    }

    fn new(value: Vec<u8>) -> (id: Self) {
        ChangeId(value)
    }

    fn object_type(&self) -> (tag: String) {
        "change".to_owned()
    }

    fn from_bytes(bytes: &[u8]) -> (id: Self) {
        ChangeId(slice_to_vec(bytes))
    }

    fn as_bytes(&self) -> (bytes: &[u8]) {
        self.0.as_slice()
    }

    fn to_bytes(&self) -> (bytes: Vec<u8>) {
        self.0.clone()
    }

    fn from_hex(hex: &str) -> (id: Self) {
        ChangeId(bytes_of_hex(hex))
    }

    fn hex(&self) -> (text: String) {
        encode(self.0.as_slice())
    }
}

impl ContentHash for ChangeId {
    open spec fn content_bytes(&self) -> Seq<u8> {
        sized_bytes(self@)
    }

    open spec fn fits(&self) -> bool {
        fits_u64(self@.len())
    }

    fn hash(&self, state: &mut Vec<u8>) {
        put_bytes(state, self.0.as_slice());
        assert(self.content_bytes() == sized_bytes(self.0@));
        assert(self.fits() == fits_u64(self.0@.len()));
    }
}

impl SelfDelimiting for ChangeId {
    open spec fn same_content(&self, other: &Self) -> bool {
        self@ == other@
    }

    proof fn lemma_cut(a: &Self, x: Seq<u8>, b: &Self, y: Seq<u8>) {
        lemma_sized_bytes_cut(a@, x, b@, y);
        assert(a.same_content(b));
    }
}

/// Names a directory tree.
#[derive(Debug, Eq, Ord, Hash)]
pub struct TreeId(Vec<u8>);

impl View for TreeId {
    type V = Seq<u8>;

    closed spec fn view(&self) -> Seq<u8> {
        self.0@
    }
}

impl Clone for TreeId {
    fn clone(&self) -> (copy: Self)
        ensures
            copy@ == self@,
    {
        TreeId(self.0.clone())
    }
}

impl PartialEq for TreeId {
    fn eq(&self, other: &Self) -> (same: bool) {
        bytes_equal(self.0.as_slice(), other.0.as_slice())
    }
}

impl PartialEqSpecImpl for TreeId {
    open spec fn obeys_eq_spec() -> bool {
        true
    }

    open spec fn eq_spec(&self, other: &Self) -> bool {
        self@ == other@
    }
}

impl PartialOrd for TreeId {
    fn partial_cmp(&self, other: &Self) -> (order: Option<Ordering>) {
        Some(to_ordering(compare_bytes(self.0.as_slice(), other.0.as_slice())))
    }
}

impl PartialOrdSpecImpl for TreeId {
    open spec fn obeys_partial_cmp_spec() -> bool {
        true
    }

    open spec fn partial_cmp_spec(&self, other: &Self) -> Option<Ordering> {
        Some(ordering_of(lex_order(self@, other@)))
    }
}

impl ObjectId for TreeId {
    open spec fn kind_tag() -> Seq<char> {
        "tree"@
    }

    fn new(value: Vec<u8>) -> (id: Self) {
        TreeId(value)
    }

    fn object_type(&self) -> (tag: String) {
        "tree".to_owned()
    }

    fn from_bytes(bytes: &[u8]) -> (id: Self) {
        TreeId(slice_to_vec(bytes))
    }

    fn as_bytes(&self) -> (bytes: &[u8]) {
        self.0.as_slice()
    }

    fn to_bytes(&self) -> (bytes: Vec<u8>) {
        self.0.clone()
    }

    fn from_hex(hex: &str) -> (id: Self) {
        TreeId(bytes_of_hex(hex))
    }

    fn hex(&self) -> (text: String) {
        encode(self.0.as_slice())
    }
}

impl ContentHash for TreeId {
    open spec fn content_bytes(&self) -> Seq<u8> {
        sized_bytes(self@)
    }

    open spec fn fits(&self) -> bool {
        fits_u64(self@.len())
    }

    fn hash(&self, state: &mut Vec<u8>) {
        put_bytes(state, self.0.as_slice());
        assert(self.content_bytes() == sized_bytes(self.0@));
        assert(self.fits() == fits_u64(self.0@.len()));
    }
}

impl SelfDelimiting for TreeId {
    open spec fn same_content(&self, other: &Self) -> bool {
        self@ == other@
    }

    proof fn lemma_cut(a: &Self, x: Seq<u8>, b: &Self, y: Seq<u8>) {
        lemma_sized_bytes_cut(a@, x, b@, y);
        assert(a.same_content(b));
    }
}

/// Names the content of a file.
#[derive(Debug, Eq, Ord, Hash)]
pub struct FileId(Vec<u8>);

impl View for FileId {
    type V = Seq<u8>;

    closed spec fn view(&self) -> Seq<u8> {
        self.0@
    }
}

impl Clone for FileId {
    fn clone(&self) -> (copy: Self)
        ensures
            copy@ == self@,
    {
        FileId(self.0.clone())
    }
}

impl PartialEq for FileId {
    fn eq(&self, other: &Self) -> (same: bool) {
        bytes_equal(self.0.as_slice(), other.0.as_slice())
    }
}

impl PartialEqSpecImpl for FileId {
    open spec fn obeys_eq_spec() -> bool {
        true
    }

    open spec fn eq_spec(&self, other: &Self) -> bool {
        self@ == other@
    }
}

impl PartialOrd for FileId {
    fn partial_cmp(&self, other: &Self) -> (order: Option<Ordering>) {
        Some(to_ordering(compare_bytes(self.0.as_slice(), other.0.as_slice())))
    }
}

impl PartialOrdSpecImpl for FileId {
    open spec fn obeys_partial_cmp_spec() -> bool {
        true
    }

    open spec fn partial_cmp_spec(&self, other: &Self) -> Option<Ordering> {
        Some(ordering_of(lex_order(self@, other@)))
    }
}

impl ObjectId for FileId {
    open spec fn kind_tag() -> Seq<char> {
        "file"@
    }

    fn new(value: Vec<u8>) -> (id: Self) {
        FileId(value)
    }

    fn object_type(&self) -> (tag: String) {
        "file".to_owned()
    }

    fn from_bytes(bytes: &[u8]) -> (id: Self) {
        FileId(slice_to_vec(bytes))
    }

    fn as_bytes(&self) -> (bytes: &[u8]) {
        self.0.as_slice()
    }

    fn to_bytes(&self) -> (bytes: Vec<u8>) {
        self.0.clone()
    }

    fn from_hex(hex: &str) -> (id: Self) {
        FileId(bytes_of_hex(hex))
    }

    fn hex(&self) -> (text: String) {
        encode(self.0.as_slice())
    }
}

impl ContentHash for FileId {
    open spec fn content_bytes(&self) -> Seq<u8> {
        sized_bytes(self@)
    }

    open spec fn fits(&self) -> bool {
        fits_u64(self@.len())
    }

    fn hash(&self, state: &mut Vec<u8>) {
        put_bytes(state, self.0.as_slice());
        assert(self.content_bytes() == sized_bytes(self.0@));
        assert(self.fits() == fits_u64(self.0@.len()));
    }
}

impl SelfDelimiting for FileId {
    open spec fn same_content(&self, other: &Self) -> bool {
        self@ == other@
    }

    proof fn lemma_cut(a: &Self, x: Seq<u8>, b: &Self, y: Seq<u8>) {
        lemma_sized_bytes_cut(a@, x, b@, y);
        assert(a.same_content(b));
    }
}

/// Names the target of a symbolic link.
#[derive(Debug, Eq, Ord, Hash)]
pub struct SymlinkId(Vec<u8>);

impl View for SymlinkId {
    type V = Seq<u8>;

    closed spec fn view(&self) -> Seq<u8> {
        self.0@
    }
}

impl Clone for SymlinkId {
    fn clone(&self) -> (copy: Self)
        ensures
            copy@ == self@,
    {
        SymlinkId(self.0.clone())
    }
}

impl PartialEq for SymlinkId {
    fn eq(&self, other: &Self) -> (same: bool) {
        bytes_equal(self.0.as_slice(), other.0.as_slice())
    }
}

impl PartialEqSpecImpl for SymlinkId {
    open spec fn obeys_eq_spec() -> bool {
        true
    }

    open spec fn eq_spec(&self, other: &Self) -> bool {
        self@ == other@
    }
}

impl PartialOrd for SymlinkId {
    fn partial_cmp(&self, other: &Self) -> (order: Option<Ordering>) {
        Some(to_ordering(compare_bytes(self.0.as_slice(), other.0.as_slice())))
    }
}

impl PartialOrdSpecImpl for SymlinkId {
    open spec fn obeys_partial_cmp_spec() -> bool {
        true
    }

    open spec fn partial_cmp_spec(&self, other: &Self) -> Option<Ordering> {
        Some(ordering_of(lex_order(self@, other@)))
    }
}

impl ObjectId for SymlinkId {
    open spec fn kind_tag() -> Seq<char> {
        "symlink"@
    }

    fn new(value: Vec<u8>) -> (id: Self) {
        SymlinkId(value)
    }

    fn object_type(&self) -> (tag: String) {
        "symlink".to_owned()
    }

    fn from_bytes(bytes: &[u8]) -> (id: Self) {
        SymlinkId(slice_to_vec(bytes))
    }

    fn as_bytes(&self) -> (bytes: &[u8]) {
        self.0.as_slice()
    }

    fn to_bytes(&self) -> (bytes: Vec<u8>) {
        self.0.clone()
    }

    fn from_hex(hex: &str) -> (id: Self) {
        SymlinkId(bytes_of_hex(hex))
    }

    fn hex(&self) -> (text: String) {
        encode(self.0.as_slice())
    }
}

impl ContentHash for SymlinkId {
    open spec fn content_bytes(&self) -> Seq<u8> {
        sized_bytes(self@)
    }

    open spec fn fits(&self) -> bool {
        fits_u64(self@.len())
    }

    fn hash(&self, state: &mut Vec<u8>) {
        put_bytes(state, self.0.as_slice());
        assert(self.content_bytes() == sized_bytes(self.0@));
        assert(self.fits() == fits_u64(self.0@.len()));
    }
}

impl SelfDelimiting for SymlinkId {
    open spec fn same_content(&self, other: &Self) -> bool {
        self@ == other@
    }

    proof fn lemma_cut(a: &Self, x: Seq<u8>, b: &Self, y: Seq<u8>) {
        lemma_sized_bytes_cut(a@, x, b@, y);
        assert(a.same_content(b));
    }
}

/// Names the record of a conflict at one path.
#[derive(Debug, Eq, Ord, Hash)]
pub struct ConflictId(Vec<u8>);

impl View for ConflictId {
    type V = Seq<u8>;

    closed spec fn view(&self) -> Seq<u8> {
        self.0@
    }
}

impl Clone for ConflictId {
    fn clone(&self) -> (copy: Self)
        ensures
            copy@ == self@,
    {
        ConflictId(self.0.clone())
    }
}

impl PartialEq for ConflictId {
    fn eq(&self, other: &Self) -> (same: bool) {
        bytes_equal(self.0.as_slice(), other.0.as_slice())
    }
}

impl PartialEqSpecImpl for ConflictId {
    open spec fn obeys_eq_spec() -> bool {
        true
    }

    open spec fn eq_spec(&self, other: &Self) -> bool {
        self@ == other@
    }
}

impl PartialOrd for ConflictId {
    fn partial_cmp(&self, other: &Self) -> (order: Option<Ordering>) {
        Some(to_ordering(compare_bytes(self.0.as_slice(), other.0.as_slice())))
    }
}

impl PartialOrdSpecImpl for ConflictId {
    open spec fn obeys_partial_cmp_spec() -> bool {
        true
    }

    open spec fn partial_cmp_spec(&self, other: &Self) -> Option<Ordering> {
        Some(ordering_of(lex_order(self@, other@)))
    }
}

impl ObjectId for ConflictId {
    open spec fn kind_tag() -> Seq<char> {
        "conflict"@
    }

    fn new(value: Vec<u8>) -> (id: Self) {
        ConflictId(value)
    }

    fn object_type(&self) -> (tag: String) {
        "conflict".to_owned()
    }

    fn from_bytes(bytes: &[u8]) -> (id: Self) {
        ConflictId(slice_to_vec(bytes))
    }

    fn as_bytes(&self) -> (bytes: &[u8]) {
        self.0.as_slice()
    }

    fn to_bytes(&self) -> (bytes: Vec<u8>) {
        self.0.clone()
    }

    fn from_hex(hex: &str) -> (id: Self) {
        ConflictId(bytes_of_hex(hex))
    }

    fn hex(&self) -> (text: String) {
        encode(self.0.as_slice())
    }
}

impl ContentHash for ConflictId {
    open spec fn content_bytes(&self) -> Seq<u8> {
        sized_bytes(self@)
    }

    open spec fn fits(&self) -> bool {
        fits_u64(self@.len())
    }

    fn hash(&self, state: &mut Vec<u8>) {
        put_bytes(state, self.0.as_slice());
        assert(self.content_bytes() == sized_bytes(self.0@));
        assert(self.fits() == fits_u64(self.0@.len()));
    }
}

impl SelfDelimiting for ConflictId {
    open spec fn same_content(&self, other: &Self) -> bool {
        self@ == other@
    }

    proof fn lemma_cut(a: &Self, x: Seq<u8>, b: &Self, y: Seq<u8>) {
        lemma_sized_bytes_cut(a@, x, b@, y);
        assert(a.same_content(b));
    }
}

} // verus!
