use commit_backend::backend::{check_id_length, Backend, BackendError, BackendResult};
use commit_backend::commit::{make_root_commit, Commit, Signature};
use commit_backend::conflict::{Conflict, ConflictTerm};
use commit_backend::content_hash::ContentHash;
use commit_backend::merged_tree::MergedTreeId;
use commit_backend::object_id::{
    ChangeId, CommitId, ConflictId, FileId, ObjectId, SymlinkId, TreeId,
};
use commit_backend::repo_path::{RepoPath, RepoPathComponent};
use commit_backend::timestamp::{MillisSinceEpoch, Timestamp};
use commit_backend::tree::{Tree, TreeValue};
use std::collections::HashMap;
use std::sync::Mutex;

const ID_LENGTH: usize = 8;

/// A 64-bit FNV-1a digest: good enough to name the few objects of a test.
fn digest(kind: u8, bytes: &[u8]) -> Vec<u8> {
    let mut hash: u64 = 0xcbf2_9ce4_8422_2325;
    for byte in std::iter::once(&kind).chain(bytes) {
        hash ^= u64::from(*byte);
        hash = hash.wrapping_mul(0x0000_0100_0000_01b3);
    }
    hash.to_be_bytes().to_vec()
}

fn digest_of<T: ContentHash>(kind: u8, value: &T) -> Vec<u8> {
    let mut state = Vec::new();
    value.hash(&mut state);
    digest(kind, &state)
}

/// A store in memory that names every object by a digest of its encoding.
struct MemoryBackend {
    root_commit_id: CommitId,
    root_change_id: ChangeId,
    empty_tree_id: TreeId,
    files: Mutex<HashMap<FileId, Vec<u8>>>,
    symlinks: Mutex<HashMap<SymlinkId, String>>,
    trees: Mutex<HashMap<TreeId, Tree>>,
    conflicts: Mutex<HashMap<ConflictId, Conflict>>,
    commits: Mutex<HashMap<CommitId, Commit>>,
}

impl MemoryBackend {
    fn new() -> Self {
        let backend = MemoryBackend {
            root_commit_id: CommitId::from_bytes(&[0; ID_LENGTH]),
            root_change_id: ChangeId::from_bytes(&[0; ID_LENGTH]),
            empty_tree_id: TreeId::new(digest_of(b't', &Tree::default())),
            files: Mutex::new(HashMap::new()),
            symlinks: Mutex::new(HashMap::new()),
            trees: Mutex::new(HashMap::new()),
            conflicts: Mutex::new(HashMap::new()),
            commits: Mutex::new(HashMap::new()),
        };
        backend
            .trees
            .lock()
            .unwrap()
            .insert(backend.empty_tree_id.clone(), Tree::default());
        backend
    }
}

fn not_found<I: ObjectId>(id: &I) -> BackendError {
    BackendError::ObjectNotFound {
        object_type: id.object_type(),
        hash: id.hex(),
        source: String::from("no such key"),
    }
}

impl Backend for MemoryBackend {
    fn name(&self) -> &str {
        "memory"
    }

    fn commit_id_length(&self) -> usize {
        ID_LENGTH
    }

    fn change_id_length(&self) -> usize {
        ID_LENGTH
    }

    fn root_commit_id(&self) -> &CommitId {
        &self.root_commit_id
    }

    fn root_change_id(&self) -> &ChangeId {
        &self.root_change_id
    }

    fn empty_tree_id(&self) -> &TreeId {
        &self.empty_tree_id
    }

    fn concurrency(&self) -> usize {
        1
    }

    fn read_file(&self, _path: &RepoPath, id: &FileId) -> BackendResult<Vec<u8>> {
        self.files.lock().unwrap().get(id).cloned().ok_or_else(|| not_found(id))
    }

    fn write_file(&self, _path: &RepoPath, contents: &[u8]) -> BackendResult<FileId> {
        let id = FileId::new(digest(b'f', contents));
        self.files.lock().unwrap().insert(id.clone(), contents.to_vec());
        Ok(id)
    }

    fn read_symlink(&self, _path: &RepoPath, id: &SymlinkId) -> BackendResult<String> {
        self.symlinks.lock().unwrap().get(id).cloned().ok_or_else(|| not_found(id))
    }

    fn write_symlink(&self, _path: &RepoPath, target: &str) -> BackendResult<SymlinkId> {
        let id = SymlinkId::new(digest(b's', target.as_bytes()));
        self.symlinks.lock().unwrap().insert(id.clone(), target.to_string());
        Ok(id)
    }

    fn read_tree(&self, _path: &RepoPath, id: &TreeId) -> BackendResult<Tree> {
        self.trees.lock().unwrap().get(id).cloned().ok_or_else(|| not_found(id))
    }

    fn write_tree(&self, _path: &RepoPath, contents: &Tree) -> BackendResult<TreeId> {
        let id = TreeId::new(digest_of(b't', contents));
        self.trees.lock().unwrap().insert(id.clone(), contents.clone());
        Ok(id)
    }

    fn read_conflict(&self, _path: &RepoPath, id: &ConflictId) -> BackendResult<Conflict> {
        self.conflicts.lock().unwrap().get(id).cloned().ok_or_else(|| not_found(id))
    }

    fn write_conflict(&self, _path: &RepoPath, contents: &Conflict) -> BackendResult<ConflictId> {
        let id = ConflictId::new(digest_of(b'c', contents));
        self.conflicts.lock().unwrap().insert(id.clone(), contents.clone());
        Ok(id)
    }

    fn read_commit(&self, id: &CommitId) -> BackendResult<Commit> {
        check_id_length(id, self.commit_id_length())?;
        if id == &self.root_commit_id {
            return Ok(make_root_commit(self.root_change_id.clone(), self.empty_tree_id.clone()));
        }
        self.commits.lock().unwrap().get(id).map(copy_of).ok_or_else(|| not_found(id))
    }

    fn write_commit(&self, mut contents: Commit) -> BackendResult<(CommitId, Commit)> {
        if contents.parents.is_empty() {
            return Err(BackendError::Other(String::from(
                "cannot write a commit with no parents",
            )));
        }
        // This store keeps whole seconds only.
        let seconds = contents.committer.timestamp.timestamp.0.div_euclid(1000);
        contents.committer.timestamp.timestamp = MillisSinceEpoch(seconds * 1000);
        let id = CommitId::new(digest_of(b'C', &contents));
        self.commits.lock().unwrap().insert(id.clone(), copy_of(&contents));
        Ok((id, contents))
    }
}

fn copy_of(commit: &Commit) -> Commit {
    Commit {
        parents: commit.parents.clone(),
        predecessors: commit.predecessors.clone(),
        root_tree: commit.root_tree.clone(),
        change_id: commit.change_id.clone(),
        description: commit.description.clone(),
        author: commit.author.clone(),
        committer: commit.committer.clone(),
        secure_sig: commit.secure_sig.clone(),
    }
}

fn sample_tree() -> Tree {
    let mut tree = Tree::default();
    tree.set(
        RepoPathComponent::new("file1"),
        TreeValue::File { id: FileId::from_hex("01"), executable: false },
    );
    tree.set(
        RepoPathComponent::new("bin"),
        TreeValue::File { id: FileId::from_hex("02"), executable: true },
    );
    tree.set(RepoPathComponent::new("dir"), TreeValue::Tree(TreeId::from_hex("03")));
    tree
}

#[test]
fn tree_read_back_equals_tree_written() {
    let backend = MemoryBackend::new();
    let path = RepoPath::root();
    let tree = sample_tree();
    let id = backend.write_tree(&path, &tree).unwrap();
    let read = backend.read_tree(&path, &id).unwrap();
    assert_eq!(read, tree);
    let mut written = tree.entries();
    let mut found = read.entries();
    loop {
        match (written.next(), found.next()) {
            (Some(a), Some(b)) => assert_eq!(a, b),
            (None, None) => break,
            _ => panic!("the trees differ in length"),
        }
    }
}

#[test]
fn commit_read_back_equals_commit_returned_by_write() {
    let backend = MemoryBackend::new();
    let signature = Signature {
        name: String::from("Someone"),
        email: String::from("someone@example.com"),
        timestamp: Timestamp { timestamp: MillisSinceEpoch(1_700_000_000_123), tz_offset: 60 },
    };
    let input = Commit {
        parents: vec![backend.root_commit_id().clone()],
        predecessors: vec![],
        root_tree: MergedTreeId::resolved(backend.empty_tree_id().clone()),
        change_id: ChangeId::from_hex("0102030405060708"),
        description: String::from("a change"),
        author: signature.clone(),
        committer: signature.clone(),
        secure_sig: None,
    };
    let (id, written) = backend.write_commit(copy_of(&input)).unwrap();
    assert_eq!(id.as_bytes().len(), backend.commit_id_length());
    assert_ne!(written, input);
    assert_eq!(written.committer.timestamp.timestamp, MillisSinceEpoch(1_700_000_000_000));
    assert_eq!(written.author, input.author);
    let read = backend.read_commit(&id).unwrap();
    assert_eq!(read, written);
}

#[test]
fn identical_trees_get_the_same_id() {
    let backend = MemoryBackend::new();
    let path = RepoPath::root();
    let one = sample_tree();
    let mut other = Tree::default();
    let mut walk = one.entries();
    let mut entries = Vec::new();
    while let Some(entry) = walk.next() {
        entries.push((entry.name().clone(), entry.value().clone()));
    }
    for (name, value) in entries.into_iter().rev() {
        other.set(name, value);
    }
    let first_caller: &dyn Backend = &backend;
    let second_caller: &dyn Backend = &backend;
    let first = first_caller.write_tree(&path, &one).unwrap();
    let second = second_caller.write_tree(&path, &other).unwrap();
    assert_eq!(first, second);
    let elsewhere = MemoryBackend::new();
    assert_eq!(elsewhere.write_tree(&path, &other).unwrap(), first);
    let mut changed = sample_tree();
    changed.remove(&RepoPathComponent::new("dir"));
    assert_ne!(backend.write_tree(&path, &changed).unwrap(), first);
}

#[test]
fn empty_tree_and_root_commit_are_there_from_the_start() {
    let backend = MemoryBackend::new();
    assert_eq!(backend.name(), "memory");
    assert_eq!(backend.concurrency(), 1);
    assert_eq!(backend.change_id_length(), ID_LENGTH);
    let empty = backend.read_tree(&RepoPath::root(), backend.empty_tree_id()).unwrap();
    assert!(empty.is_empty());
    assert_eq!(backend.write_tree(&RepoPath::root(), &Tree::default()).unwrap(), *backend.empty_tree_id());
    let root = backend.read_commit(backend.root_commit_id()).unwrap();
    assert!(root.parents.is_empty());
    assert_eq!(&root.change_id, backend.root_change_id());
    assert_eq!(root.root_tree, MergedTreeId::resolved(backend.empty_tree_id().clone()));
}

#[test]
fn files_symlinks_and_conflicts_round_trip() {
    let backend = MemoryBackend::new();
    let path = RepoPath::from_components(vec![RepoPathComponent::new("a")]);
    let file_id = backend.write_file(&path, b"content").unwrap();
    assert_eq!(backend.read_file(&path, &file_id).unwrap(), b"content");
    assert_eq!(backend.write_file(&path, b"content").unwrap(), file_id);
    let link_id = backend.write_symlink(&path, "target").unwrap();
    assert_eq!(backend.read_symlink(&path, &link_id).unwrap(), "target");
    let conflict = Conflict {
        removes: vec![ConflictTerm { value: TreeValue::File { id: file_id.clone(), executable: false } }],
        adds: vec![
            ConflictTerm { value: TreeValue::Symlink(link_id.clone()) },
            ConflictTerm { value: TreeValue::File { id: file_id.clone(), executable: true } },
        ],
    };
    let conflict_id = backend.write_conflict(&path, &conflict).unwrap();
    assert_eq!(backend.read_conflict(&path, &conflict_id).unwrap(), conflict);
}

#[test]
fn backend_errors_carry_kind_and_hex() {
    let backend = MemoryBackend::new();
    let missing = TreeId::from_hex("00000000000000ff");
    match backend.read_tree(&RepoPath::root(), &missing) {
        Err(BackendError::ObjectNotFound { object_type, hash, .. }) => {
            assert_eq!(object_type, "tree");
            assert_eq!(hash, "00000000000000ff");
        }
        other => panic!("unexpected outcome: {:?}", other),
    }
    assert!(matches!(
        backend.read_commit(&CommitId::from_hex("0102")),
        Err(BackendError::InvalidHashLength { expected: 8, actual: 2, .. })
    ));
    let orphan = make_root_commit(ChangeId::from_hex("01"), TreeId::from_hex("02"));
    assert!(matches!(backend.write_commit(orphan), Err(BackendError::Other(_))));
}
