use commit_backend::commit::{Commit, SecureSig, Signature};
use commit_backend::conflict::{Conflict, ConflictTerm};
use commit_backend::content_hash::{put_bytes, put_u32, put_u64, ContentHash};
use commit_backend::merge::Merge;
use commit_backend::merged_tree::{MergedTreeId, LEGACY_TAG, MERGE_TAG};
use commit_backend::object_id::{
    ChangeId, CommitId, ConflictId, FileId, ObjectId, SymlinkId, TreeId,
};
use commit_backend::repo_path::RepoPathComponent;
use commit_backend::timestamp::{MillisSinceEpoch, Timestamp};
use commit_backend::tree::{Tree, TreeValue};

fn bytes_of<T: ContentHash>(value: &T) -> Vec<u8> {
    let mut state = Vec::new();
    value.hash(&mut state);
    state
}

#[test]
fn hash_appends_to_what_is_there() {
    let mut state = vec![9, 9];
    7u8.hash(&mut state);
    true.hash(&mut state);
    assert_eq!(state, vec![9, 9, 7, 1]);
}

#[test]
fn integers_are_little_endian() {
    let mut state = Vec::new();
    put_u32(&mut state, 0x0102_0304);
    assert_eq!(state, vec![4, 3, 2, 1]);
    let mut state = Vec::new();
    put_u64(&mut state, 0x0102_0304_0506_0708);
    assert_eq!(state, vec![8, 7, 6, 5, 4, 3, 2, 1]);
    assert_eq!(bytes_of(&1i32), 1i32.to_le_bytes().to_vec());
    assert_eq!(bytes_of(&-1i32), vec![0xff; 4]);
    assert_eq!(bytes_of(&i32::MIN), i32::MIN.to_le_bytes().to_vec());
    assert_eq!(bytes_of(&i32::MAX), i32::MAX.to_le_bytes().to_vec());
    assert_eq!(bytes_of(&-2i64), (-2i64).to_le_bytes().to_vec());
    assert_eq!(bytes_of(&i64::MIN), i64::MIN.to_le_bytes().to_vec());
    assert_eq!(bytes_of(&i64::MAX), i64::MAX.to_le_bytes().to_vec());
    assert_eq!(bytes_of(&1_700_000_000_123i64), 1_700_000_000_123i64.to_le_bytes().to_vec());
}

#[test]
fn bool_is_one_byte() {
    assert_eq!(bytes_of(&false), vec![0]);
    assert_eq!(bytes_of(&true), vec![1]);
}

#[test]
fn byte_strings_carry_their_length() {
    let mut state = Vec::new();
    put_bytes(&mut state, &[0xaa, 0xbb, 0xcc]);
    assert_eq!(state, vec![3, 0, 0, 0, 0, 0, 0, 0, 0xaa, 0xbb, 0xcc]);
    assert_eq!(bytes_of(&Vec::<u8>::new()), vec![0; 8]);
    assert_eq!(bytes_of(&vec![5u8, 6]), vec![2, 0, 0, 0, 0, 0, 0, 0, 5, 6]);
}

#[test]
fn strings_are_their_utf8_bytes_with_length() {
    assert_eq!(bytes_of(&String::from("ab")), vec![2, 0, 0, 0, 0, 0, 0, 0, b'a', b'b']);
    assert_eq!(
        bytes_of(&String::from("\u{e9}")),
        vec![2, 0, 0, 0, 0, 0, 0, 0, 0xc3, 0xa9]
    );
    // Without the length the two pairs would run together.
    let ab_c = [bytes_of(&String::from("ab")), bytes_of(&String::from("c"))].concat();
    let a_bc = [bytes_of(&String::from("a")), bytes_of(&String::from("bc"))].concat();
    assert_ne!(ab_c, a_bc);
}

#[test]
fn options_are_tagged() {
    assert_eq!(bytes_of(&None::<u8>), vec![0, 0, 0, 0]);
    assert_eq!(bytes_of(&Some(7u8)), vec![1, 0, 0, 0, 7]);
}

#[test]
fn ids_hash_as_sized_byte_strings() {
    assert_eq!(
        bytes_of(&CommitId::from_hex("0102")),
        vec![2, 0, 0, 0, 0, 0, 0, 0, 1, 2]
    );
    assert_eq!(bytes_of(&TreeId::from_hex("")), vec![0; 8]);
}

#[test]
fn tree_value_hashes_tag_then_id() {
    let id = vec![1u8, 0, 0, 0, 0, 0, 0, 0, 0xaa];
    let with_tag = |tag: u8, rest: &[u8]| {
        let mut expected = vec![tag, 0, 0, 0];
        expected.extend_from_slice(&id);
        expected.extend_from_slice(rest);
        expected
    };
    assert_eq!(
        bytes_of(&TreeValue::File { id: FileId::from_hex("aa"), executable: false }),
        with_tag(0, &[0])
    );
    assert_eq!(
        bytes_of(&TreeValue::File { id: FileId::from_hex("aa"), executable: true }),
        with_tag(0, &[1])
    );
    assert_eq!(bytes_of(&TreeValue::Symlink(SymlinkId::from_hex("aa"))), with_tag(1, &[]));
    assert_eq!(bytes_of(&TreeValue::Tree(TreeId::from_hex("aa"))), with_tag(2, &[]));
    assert_eq!(bytes_of(&TreeValue::GitSubmodule(CommitId::from_hex("aa"))), with_tag(3, &[]));
    assert_eq!(bytes_of(&TreeValue::Conflict(ConflictId::from_hex("aa"))), with_tag(4, &[]));
}

#[test]
fn file_and_symlink_with_same_id_bytes_hash_differently() {
    let file = TreeValue::File { id: FileId::from_hex("c0ffee"), executable: false };
    let link = TreeValue::Symlink(SymlinkId::from_hex("c0ffee"));
    let tree = TreeValue::Tree(TreeId::from_hex("c0ffee"));
    assert_ne!(bytes_of(&file), bytes_of(&link));
    assert_ne!(bytes_of(&link), bytes_of(&tree));
    assert_ne!(bytes_of(&file), bytes_of(&tree));
}

#[test]
fn legacy_and_resolved_are_equal_but_hash_differently() {
    let tree_id = TreeId::from_hex("abc123");
    let legacy = MergedTreeId::Legacy(tree_id.clone());
    let merged = MergedTreeId::resolved(tree_id.clone());
    assert!(matches!(merged, MergedTreeId::Merge(_)));
    assert_eq!(legacy, merged);
    assert_eq!(merged, legacy);
    let legacy_bytes = bytes_of(&legacy);
    let merged_bytes = bytes_of(&merged);
    assert_eq!(legacy_bytes[0], b'0');
    assert_eq!(merged_bytes[0], b'1');
    assert_eq!(LEGACY_TAG, b'0');
    assert_eq!(MERGE_TAG, b'1');
    assert_ne!(legacy_bytes, merged_bytes);
    assert_eq!(legacy_bytes, vec![b'0', 3, 0, 0, 0, 0, 0, 0, 0, 0xab, 0xc1, 0x23]);
    assert_eq!(
        merged_bytes,
        vec![b'1', 1, 0, 0, 0, 0, 0, 0, 0, 3, 0, 0, 0, 0, 0, 0, 0, 0xab, 0xc1, 0x23]
    );
}

#[test]
fn merged_tree_ids_compare_by_what_they_stand_for() {
    let a = TreeId::from_hex("0a");
    let b = TreeId::from_hex("0b");
    let c = TreeId::from_hex("0c");
    let conflicted = MergedTreeId::Merge(Merge::from_vec(vec![a.clone(), b.clone(), c.clone()]));
    assert_eq!(conflicted, conflicted.clone());
    assert_ne!(conflicted, MergedTreeId::Legacy(a.clone()));
    assert_ne!(MergedTreeId::Legacy(a.clone()), MergedTreeId::Legacy(b.clone()));
    assert_ne!(MergedTreeId::resolved(a.clone()), MergedTreeId::Legacy(b.clone()));
    assert_ne!(
        conflicted,
        MergedTreeId::Merge(Merge::from_vec(vec![a.clone(), c.clone(), b.clone()]))
    );
    assert_eq!(MergedTreeId::Legacy(a.clone()).to_merge(), Merge::resolved(a.clone()));
    assert_eq!(conflicted.to_merge(), Merge::from_vec(vec![a, b, c]));
}

#[test]
fn merges_hold_their_terms() {
    let a = TreeId::from_hex("0a");
    let b = TreeId::from_hex("0b");
    let resolved = Merge::resolved(a.clone());
    assert!(resolved.is_resolved());
    assert_eq!(resolved.as_resolved(), Some(&a));
    assert_eq!(resolved.as_slice(), &[a.clone()]);
    let conflicted = Merge::from_vec(vec![a.clone(), b.clone(), a.clone()]);
    assert!(!conflicted.is_resolved());
    assert_eq!(conflicted.as_resolved(), None);
    assert_eq!(conflicted.as_slice().len(), 3);
    assert!(conflicted.same_terms(&conflicted.clone()));
    assert!(!conflicted.same_terms(&resolved));
    assert!(!conflicted.same_terms(&Merge::from_vec(vec![a.clone(), a.clone(), a.clone()])));
    assert_eq!(
        bytes_of(&conflicted),
        vec![
            3, 0, 0, 0, 0, 0, 0, 0, 1, 0, 0, 0, 0, 0, 0, 0, 0x0a, 1, 0, 0, 0, 0, 0, 0, 0, 0x0b,
            1, 0, 0, 0, 0, 0, 0, 0, 0x0a
        ]
    );
}

#[test]
fn tree_hashes_count_then_entries_in_order() {
    let mut tree = Tree::default();
    assert_eq!(bytes_of(&tree), vec![0; 8]);
    tree.set(RepoPathComponent::new("b"), TreeValue::Tree(TreeId::from_hex("02")));
    tree.set(RepoPathComponent::new("a"), TreeValue::Symlink(SymlinkId::from_hex("01")));
    let mut expected = vec![2, 0, 0, 0, 0, 0, 0, 0];
    expected.extend_from_slice(&[1, 0, 0, 0, 0, 0, 0, 0, b'a']);
    expected.extend_from_slice(&[1, 0, 0, 0, 1, 0, 0, 0, 0, 0, 0, 0, 0x01]);
    expected.extend_from_slice(&[1, 0, 0, 0, 0, 0, 0, 0, b'b']);
    expected.extend_from_slice(&[2, 0, 0, 0, 1, 0, 0, 0, 0, 0, 0, 0, 0x02]);
    assert_eq!(bytes_of(&tree), expected);
}

#[test]
fn equal_trees_hash_equally_however_they_were_built() {
    let mut one = Tree::default();
    let mut other = Tree::default();
    let names = ["x", "y", "a", "m"];
    for name in names {
        one.set(RepoPathComponent::new(name), TreeValue::Tree(TreeId::from_hex("aa")));
    }
    for name in names.iter().rev() {
        other.set(RepoPathComponent::new(name), TreeValue::Tree(TreeId::from_hex("bb")));
        other.set(RepoPathComponent::new(name), TreeValue::Tree(TreeId::from_hex("aa")));
    }
    other.set(RepoPathComponent::new("extra"), TreeValue::Tree(TreeId::from_hex("cc")));
    other.remove(&RepoPathComponent::new("extra"));
    assert_eq!(one, other);
    assert_eq!(bytes_of(&one), bytes_of(&other));
    other.set(RepoPathComponent::new("x"), TreeValue::Tree(TreeId::from_hex("ab")));
    assert_ne!(bytes_of(&one), bytes_of(&other));
}

#[test]
fn timestamp_hashes_instant_then_offset() {
    let timestamp = Timestamp { timestamp: MillisSinceEpoch(-2), tz_offset: -60 };
    let mut expected = (-2i64).to_le_bytes().to_vec();
    expected.extend_from_slice(&(-60i32).to_le_bytes());
    assert_eq!(bytes_of(&timestamp), expected);
    assert_eq!(bytes_of(&MillisSinceEpoch(258)), vec![2, 1, 0, 0, 0, 0, 0, 0]);
}

#[test]
fn conflict_and_its_resolved_value_hash_differently() {
    let value = TreeValue::File { id: FileId::from_hex("aa"), executable: false };
    let conflict = Conflict { removes: vec![], adds: vec![ConflictTerm { value: value.clone() }] };
    assert_eq!(conflict.as_resolved(), Some(&value));
    assert_ne!(bytes_of(&conflict), bytes_of(&value));
    assert_ne!(bytes_of(&conflict), bytes_of(&Conflict::default()));
    assert_eq!(bytes_of(&Conflict::default()), vec![0; 16]);
    let mut expected = vec![0; 8];
    expected.extend_from_slice(&[1, 0, 0, 0, 0, 0, 0, 0]);
    expected.extend_from_slice(&bytes_of(&value));
    assert_eq!(bytes_of(&conflict), expected);
    assert_eq!(bytes_of(&ConflictTerm { value: value.clone() }), bytes_of(&value));
}

#[test]
fn conflict_with_removes_is_not_resolved() {
    let a = ConflictTerm { value: TreeValue::Tree(TreeId::from_hex("0a")) };
    let b = ConflictTerm { value: TreeValue::Tree(TreeId::from_hex("0b")) };
    let c = ConflictTerm { value: TreeValue::Tree(TreeId::from_hex("0c")) };
    let conflict = Conflict { removes: vec![a.clone()], adds: vec![b.clone(), c.clone()] };
    assert_eq!(conflict.as_resolved(), None);
    assert_eq!(Conflict::default().as_resolved(), None);
    assert_eq!(conflict.clone(), conflict);
    let swapped = Conflict { removes: vec![b], adds: vec![a, c] };
    assert_ne!(bytes_of(&conflict), bytes_of(&swapped));
}

#[test]
fn commit_hashes_its_fields_in_order() {
    let signature = Signature {
        name: String::from("n"),
        email: String::from("e"),
        timestamp: Timestamp { timestamp: MillisSinceEpoch(1), tz_offset: 2 },
    };
    let commit = Commit {
        parents: vec![CommitId::from_hex("01")],
        predecessors: vec![],
        root_tree: MergedTreeId::Legacy(TreeId::from_hex("02")),
        change_id: ChangeId::from_hex("03"),
        description: String::from("d"),
        author: signature.clone(),
        committer: signature.clone(),
        secure_sig: Some(SecureSig { data: vec![4], sig: vec![5, 6] }),
    };
    let mut expected = Vec::new();
    expected.extend_from_slice(&[1, 0, 0, 0, 0, 0, 0, 0]);
    expected.extend_from_slice(&[1, 0, 0, 0, 0, 0, 0, 0, 0x01]);
    expected.extend_from_slice(&[0, 0, 0, 0, 0, 0, 0, 0]);
    expected.extend_from_slice(&[b'0', 1, 0, 0, 0, 0, 0, 0, 0, 0x02]);
    expected.extend_from_slice(&[1, 0, 0, 0, 0, 0, 0, 0, 0x03]);
    expected.extend_from_slice(&[1, 0, 0, 0, 0, 0, 0, 0, b'd']);
    for _ in 0..2 {
        expected.extend_from_slice(&[1, 0, 0, 0, 0, 0, 0, 0, b'n']);
        expected.extend_from_slice(&[1, 0, 0, 0, 0, 0, 0, 0, b'e']);
        expected.extend_from_slice(&[1, 0, 0, 0, 0, 0, 0, 0, 2, 0, 0, 0]);
    }
    expected.extend_from_slice(&[1, 0, 0, 0]);
    expected.extend_from_slice(&[1, 0, 0, 0, 0, 0, 0, 0, 4]);
    expected.extend_from_slice(&[2, 0, 0, 0, 0, 0, 0, 0, 5, 6]);
    assert_eq!(bytes_of(&commit), expected);
    assert_eq!(bytes_of(&signature).len(), 9 + 9 + 12);
}

#[test]
fn commits_that_differ_in_one_field_hash_differently() {
    let signature = Signature {
        name: String::new(),
        email: String::new(),
        timestamp: Timestamp { timestamp: MillisSinceEpoch(0), tz_offset: 0 },
    };
    let base = || Commit {
        parents: vec![CommitId::from_hex("01")],
        predecessors: vec![],
        root_tree: MergedTreeId::Legacy(TreeId::from_hex("02")),
        change_id: ChangeId::from_hex("03"),
        description: String::new(),
        author: signature.clone(),
        committer: signature.clone(),
        secure_sig: None,
    };
    let mut moved = base();
    moved.predecessors = moved.parents.split_off(0);
    assert_ne!(bytes_of(&base()), bytes_of(&moved));
    let mut resolved = base();
    resolved.root_tree = MergedTreeId::resolved(TreeId::from_hex("02"));
    assert_eq!(base(), resolved);
    assert_ne!(bytes_of(&base()), bytes_of(&resolved));
    let mut signed = base();
    signed.secure_sig = Some(SecureSig { data: vec![], sig: vec![] });
    assert_ne!(bytes_of(&base()), bytes_of(&signed));
    assert_eq!(bytes_of(&base()), bytes_of(&base()));
}
