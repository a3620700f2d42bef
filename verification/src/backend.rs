//! What a storage backend has to provide, and how it fails.
//!
//! A backend owns the durable store. It reads and writes each kind of object,
//! names the objects that every repository has, and says how many requests it
//! handles well at a time. Objects are immutable: what was written under an
//! identifier is what every later read of that identifier gives.
//!
//! The object model that a backend stores is re-exported from here.

use crate::hex_codec::hex_text;
use crate::repo_path::RepoPath;
use crate::text::{decimal, push_decimal};
use vstd::prelude::*;
use vstd::string::StringExecFns;

pub use crate::commit::{make_root_commit, Commit, SecureSig, Signature};
pub use crate::conflict::{Conflict, ConflictTerm};
pub use crate::merged_tree::MergedTreeId;
pub use crate::object_id::{
    ChangeId, CommitId, ConflictId, FileId, ObjectId, SymlinkId, TreeId,
};
pub use crate::prefix::common_hex_len;
pub use crate::timestamp::{MillisSinceEpoch, Timestamp};
pub use crate::tree::{Tree, TreeEntriesNonRecursiveIterator, TreeEntry, TreeValue};

verus! {

/// A store could not be created. The cause is carried as its message.
#[derive(Debug)]
pub struct BackendInitError(pub String);

/// An existing store could not be opened. The cause is carried as its
/// message.
#[derive(Debug)]
pub struct BackendLoadError(pub String);

impl BackendInitError {
    /// The error as it is shown: the message of its cause.
    pub fn message(&self) -> (text: String)
        ensures
            text@ == self.0@,
    {
        self.0.clone()
    }
}

impl BackendLoadError {
    /// The error as it is shown: the message of its cause.
    pub fn message(&self) -> (text: String)
        ensures
            text@ == self.0@,
    {
        self.0.clone()
    }
}

/// A failure of one operation of a backend that has been loaded. Where there
/// is an underlying cause, it is carried as its message.
#[derive(Debug)]
#[allow(inconsistent_fields)]
pub enum BackendError {
    /// An identifier does not have the length that the backend declares for
    /// its kind.
    InvalidHashLength { expected: usize, actual: usize, object_type: String, hash: String },
    /// An object that has to be text is not valid UTF-8.
    InvalidUtf8 { object_type: String, hash: String, source: String },
    /// The identifier is well formed, but the store has no such object.
    ObjectNotFound { object_type: String, hash: String, source: String },
    /// The object is there, but could not be fetched or decoded.
    ReadObject { object_type: String, hash: String, source: String },
    /// An object could not be written.
    WriteObject { object_type: &'static str, source: String },
    /// Anything else that a backend has to report.
    Other(String),
}

pub type BackendResult<T> = Result<T, BackendError>;

impl BackendError {
    /// The error as it is shown.
    pub open spec fn message_text(&self) -> Seq<char> {
        match self {
            BackendError::InvalidHashLength { expected, actual, object_type, hash } => {
                "Invalid hash length for object of type "@ + object_type@ + " (expected "@
                    + decimal(*expected as nat) + " bytes, got "@ + decimal(*actual as nat)
                    + " bytes): "@ + hash@
            },
            BackendError::InvalidUtf8 { object_type, hash, source } => {
                "Invalid UTF-8 for object "@ + hash@ + " of type "@ + object_type@ + ": "@
                    + source@
            },
            BackendError::ObjectNotFound { object_type, hash, source } => {
                "Object "@ + hash@ + " of type "@ + object_type@ + " not found: "@ + source@
            },
            BackendError::ReadObject { object_type, hash, source } => {
                "Error when reading object "@ + hash@ + " of type "@ + object_type@ + ": "@
                    + source@
            },
            BackendError::WriteObject { object_type, source } => {
                "Could not write object of type "@ + object_type@ + ": "@ + source@
            },
            BackendError::Other(source) => "Error: "@ + source@,
        }
    }

    /// The error as it is shown.
    pub fn message(&self) -> (text: String)
        ensures
            text@ == self.message_text(),
    {
        let mut text = String::new();
        match self {
            BackendError::InvalidHashLength { expected, actual, object_type, hash } => {
                text.append("Invalid hash length for object of type ");
                text.append(object_type.as_str());
                text.append(" (expected ");
                push_decimal(&mut text, *expected as u64);
                text.append(" bytes, got ");
                push_decimal(&mut text, *actual as u64);
                text.append(" bytes): ");
                text.append(hash.as_str());
            },
            BackendError::InvalidUtf8 { object_type, hash, source } => {
                text.append("Invalid UTF-8 for object ");
                text.append(hash.as_str());
                text.append(" of type ");
                text.append(object_type.as_str());
                text.append(": ");
                text.append(source.as_str());
            },
            BackendError::ObjectNotFound { object_type, hash, source } => {
                text.append("Object ");
                text.append(hash.as_str());
                text.append(" of type ");
                text.append(object_type.as_str());
                text.append(" not found: ");
                text.append(source.as_str());
            },
            BackendError::ReadObject { object_type, hash, source } => {
                text.append("Error when reading object ");
                text.append(hash.as_str());
                text.append(" of type ");
                text.append(object_type.as_str());
                text.append(": ");
                text.append(source.as_str());
            },
            BackendError::WriteObject { object_type, source } => {
                text.append("Could not write object of type ");
                text.append(object_type);
                text.append(": ");
                text.append(source.as_str());
            },
            BackendError::Other(source) => {
                text.append("Error: ");
                text.append(source.as_str());
            },
        }
        assert(text@ =~= self.message_text());
        text
    }
}

/// Holds an identifier to the length that a backend declares for its kind.
///
/// Succeeds exactly if `id` has `expected` bytes. Otherwise the error names
/// both lengths, the kind of the identifier and its hexadecimal text.
pub fn check_id_length<I: ObjectId>(id: &I, expected: usize) -> (r: BackendResult<()>)
    ensures
        r is Ok <==> id@.len() == expected,
        r matches Err(e) ==> e is InvalidHashLength,
        r matches Err(e) ==> e->expected == expected && e->actual == id@.len(),
        r matches Err(e) ==> e->InvalidHashLength_object_type@ == I::kind_tag(),
        r matches Err(e) ==> e->InvalidHashLength_hash@ == hex_text(id@),
{
    let actual: usize = id.as_bytes().len();
    if actual == expected {
        Ok(())
    } else {
        Err(
            BackendError::InvalidHashLength {
                expected,
                actual,
                object_type: id.object_type(),
                hash: id.hex(),
            },
        )
    }
}

/// The operations of a storage backend.
///
/// Every read takes the identifier of the object and, except for commits,
/// the path at which the object is expected, which a backend may use in its
/// messages and in the layout of its store. Every write gives the identifier
/// under which the object can be read from then on. A write either succeeds
/// as a whole or leaves nothing behind.
pub trait Backend: Send + Sync {
    /// A name that identifies this kind of backend. It is stored when a
    /// repository is created, so that the repository is opened with the same
    /// kind of backend later.
    fn name(&self) -> &str;

    /// The length of commit identifiers in bytes.
    fn commit_id_length(&self) -> usize;

    /// The length of change identifiers in bytes.
    fn change_id_length(&self) -> usize;

    /// The identifier of the root commit.
    fn root_commit_id(&self) -> &CommitId;

    /// The change identifier of the root commit.
    fn root_change_id(&self) -> &ChangeId;

    /// The identifier of the tree without entries.
    fn empty_tree_id(&self) -> &TreeId;

    /// An estimate of how many requests at a time this backend handles well.
    /// A backend on the local disk may say 1, one behind a network 100 or so.
    /// Callers may send more at a time; that costs speed and nothing else.
    fn concurrency(&self) -> usize;

    /// The content of the file `id`.
    fn read_file(&self, path: &RepoPath, id: &FileId) -> BackendResult<Vec<u8>>;

    /// Stores a file with the given content.
    fn write_file(&self, path: &RepoPath, contents: &[u8]) -> BackendResult<FileId>;

    /// The target of the symbolic link `id`.
    fn read_symlink(&self, path: &RepoPath, id: &SymlinkId) -> BackendResult<String>;

    /// Stores a symbolic link with the given target.
    fn write_symlink(&self, path: &RepoPath, target: &str) -> BackendResult<SymlinkId>;

    /// The tree `id`.
    fn read_tree(&self, path: &RepoPath, id: &TreeId) -> BackendResult<Tree>;

    /// Stores a tree.
    fn write_tree(&self, path: &RepoPath, contents: &Tree) -> BackendResult<TreeId>;

    /// The conflict `id`.
    fn read_conflict(&self, path: &RepoPath, id: &ConflictId) -> BackendResult<Conflict>;

    /// Stores a conflict.
    fn write_conflict(&self, path: &RepoPath, contents: &Conflict) -> BackendResult<ConflictId>;

    /// The commit `id`.
    fn read_commit(&self, id: &CommitId) -> BackendResult<Commit>;

    /// Stores a commit. The commit that comes back is the one that was
    /// written, which may differ from `contents`: a backend may put another
    /// committer in, or keep less of a timestamp than a millisecond. It is
    /// the commit that a later read of the identifier gives.
    fn write_commit(&self, contents: Commit) -> BackendResult<(CommitId, Commit)>;
}

} // verus!
