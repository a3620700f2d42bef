use commit_backend::backend::{
    check_id_length, BackendError, BackendInitError, BackendLoadError,
};
use commit_backend::commit::{make_root_commit, Signature};
use commit_backend::merged_tree::MergedTreeId;
use commit_backend::next::{
    choose_step, plan_search, require_working_copy, NextError, NextStep, SearchPlan, SearchStart,
};
use commit_backend::object_id::{ChangeId, CommitId, ObjectId, TreeId};
use commit_backend::timestamp::{MillisSinceEpoch, Timestamp, ZonedInstant};

#[test]
fn root_commit_is_empty_but_for_its_ids() {
    let change_id = ChangeId::from_hex("00000000");
    let tree_id = TreeId::from_hex("4b825dc6");
    let commit = make_root_commit(change_id.clone(), tree_id.clone());
    assert!(commit.parents.is_empty());
    assert!(commit.predecessors.is_empty());
    assert!(matches!(&commit.root_tree, MergedTreeId::Legacy(id) if id == &tree_id));
    assert_eq!(commit.root_tree, MergedTreeId::Legacy(tree_id));
    assert_eq!(commit.change_id, change_id);
    assert_eq!(commit.description, "");
    let nobody = Signature {
        name: String::new(),
        email: String::new(),
        timestamp: Timestamp { timestamp: MillisSinceEpoch(0), tz_offset: 0 },
    };
    assert_eq!(commit.author, nobody);
    assert_eq!(commit.committer, nobody);
    assert_eq!(commit.author.timestamp.timestamp.0, 0);
    assert_eq!(commit.author.timestamp.tz_offset, 0);
    assert_eq!(commit.secure_sig, None);
}

#[test]
fn timestamp_keeps_instant_and_whole_minutes_of_offset() {
    let east = Timestamp::from_datetime(ZonedInstant {
        timestamp_millis: 1_000_000_000_555,
        local_minus_utc: 5 * 3600 + 30 * 60,
    });
    assert_eq!(east.timestamp, MillisSinceEpoch(1_000_000_000_555));
    assert_eq!(east.tz_offset, 330);
    let west = Timestamp::from_datetime(ZonedInstant {
        timestamp_millis: -1,
        local_minus_utc: -8 * 3600,
    });
    assert_eq!(west.timestamp, MillisSinceEpoch(-1));
    assert_eq!(west.tz_offset, -480);
}

#[test]
fn timestamp_offset_rounds_towards_zero() {
    let of = |secs: i32| {
        Timestamp::from_datetime(ZonedInstant { timestamp_millis: 0, local_minus_utc: secs })
            .tz_offset
    };
    assert_eq!(of(0), 0);
    assert_eq!(of(59), 0);
    assert_eq!(of(-59), 0);
    assert_eq!(of(60), 1);
    assert_eq!(of(-60), -1);
    assert_eq!(of(-3599), -59);
    assert_eq!(of(3599), 59);
    assert_eq!(of(86_399), 1439);
    assert_eq!(of(-86_399), -1439);
    assert_eq!(of(i32::MIN), i32::MIN / 60);
    assert_eq!(of(i32::MAX), i32::MAX / 60);
}

#[test]
fn timestamp_now_is_recent_and_within_a_day_of_utc() {
    let now = Timestamp::now();
    assert!(-1440 < now.tz_offset && now.tz_offset < 1440);
    // After the start of 2020.
    assert!(now.timestamp.0 > 1_577_836_800_000);
    let later = Timestamp::now();
    assert!(later.timestamp >= now.timestamp.clone());
}

#[test]
fn timestamps_order_by_instant_first() {
    let early = Timestamp { timestamp: MillisSinceEpoch(1), tz_offset: 600 };
    let late = Timestamp { timestamp: MillisSinceEpoch(2), tz_offset: -600 };
    assert!(early < late);
    assert!(early.timestamp < late.timestamp);
    assert_eq!(early.clone(), early);
    assert_ne!(early, Timestamp { timestamp: MillisSinceEpoch(1), tz_offset: 0 });
}

#[test]
fn id_of_declared_length_is_accepted() {
    let id = CommitId::from_hex("0011223344");
    assert!(check_id_length(&id, 5).is_ok());
    assert!(check_id_length(&TreeId::from_hex(""), 0).is_ok());
}

#[test]
fn id_of_other_length_is_refused_with_details() {
    let id = CommitId::from_hex("00AB");
    match check_id_length(&id, 20) {
        Err(BackendError::InvalidHashLength { expected, actual, object_type, hash }) => {
            assert_eq!(expected, 20);
            assert_eq!(actual, 2);
            assert_eq!(object_type, "commit");
            assert_eq!(hash, "00ab");
        }
        other => panic!("unexpected outcome: {:?}", other),
    }
    assert!(matches!(
        check_id_length(&TreeId::from_hex("00"), 0),
        Err(BackendError::InvalidHashLength { expected: 0, actual: 1, .. })
    ));
}

#[test]
fn next_needs_a_working_copy() {
    let id = CommitId::from_hex("01");
    assert_eq!(require_working_copy(Some(&id)), Ok(&id));
    assert_eq!(require_working_copy(None), Err(NextError::NoWorkingCopy));
}

#[test]
fn next_searches_from_the_parent_unless_editing() {
    assert_eq!(
        plan_search(false, 3, 1),
        Ok(SearchPlan {
            start: SearchStart::Parent,
            amount: 3,
            skip_working_copy_descendants: true
        })
    );
    assert_eq!(plan_search(false, 1, 0), Err(NextError::MergeCommit));
    assert_eq!(plan_search(false, 1, 2), Err(NextError::MergeCommit));
    for parents in [0, 1, 2, 5] {
        assert_eq!(
            plan_search(true, 2, parents),
            Ok(SearchPlan {
                start: SearchStart::WorkingCopy,
                amount: 2,
                skip_working_copy_descendants: false
            })
        );
    }
}

#[test]
fn next_wants_exactly_one_target() {
    assert_eq!(choose_step(true, 1, 1), Ok(NextStep::Edit));
    assert_eq!(choose_step(false, 1, 1), Ok(NextStep::CheckOut));
    assert_eq!(
        choose_step(false, 1, 0),
        Err(NextError::NoDescendant { amount: 1, plural: false })
    );
    assert_eq!(
        choose_step(true, 2, 0),
        Err(NextError::NoDescendant { amount: 2, plural: true })
    );
    assert_eq!(
        choose_step(true, 0, 0),
        Err(NextError::NoDescendant { amount: 0, plural: false })
    );
    assert_eq!(choose_step(false, 1, 2), Err(NextError::AmbiguousTarget));
    assert_eq!(choose_step(true, 1, 7), Err(NextError::AmbiguousTarget));
}

#[test]
fn backend_error_messages_name_kind_and_id() {
    let invalid = BackendError::InvalidHashLength {
        expected: 20,
        actual: 3,
        object_type: String::from("commit"),
        hash: String::from("abcdef"),
    };
    assert_eq!(
        invalid.message(),
        "Invalid hash length for object of type commit (expected 20 bytes, got 3 bytes): abcdef"
    );
    let utf8 = BackendError::InvalidUtf8 {
        object_type: String::from("symlink"),
        hash: String::from("0a"),
        source: String::from("invalid utf-8 sequence of 1 bytes from index 0"),
    };
    assert_eq!(
        utf8.message(),
        "Invalid UTF-8 for object 0a of type symlink: invalid utf-8 sequence of 1 bytes from \
         index 0"
    );
    let missing = BackendError::ObjectNotFound {
        object_type: String::from("tree"),
        hash: String::from("0b"),
        source: String::from("no such file"),
    };
    assert_eq!(missing.message(), "Object 0b of type tree not found: no such file");
    let unread = BackendError::ReadObject {
        object_type: String::from("file"),
        hash: String::from("0c"),
        source: String::from("short read"),
    };
    assert_eq!(unread.message(), "Error when reading object 0c of type file: short read");
    let unwritten =
        BackendError::WriteObject { object_type: "conflict", source: String::from("disk full") };
    assert_eq!(unwritten.message(), "Could not write object of type conflict: disk full");
    assert_eq!(BackendError::Other(String::from("odd")).message(), "Error: odd");
}

#[test]
fn backend_error_message_writes_lengths_in_decimal() {
    let message = |expected: usize, actual: usize| {
        BackendError::InvalidHashLength {
            expected,
            actual,
            object_type: String::new(),
            hash: String::new(),
        }
        .message()
    };
    assert_eq!(
        message(0, 9),
        "Invalid hash length for object of type  (expected 0 bytes, got 9 bytes): "
    );
    assert_eq!(
        message(10, 1234567890),
        "Invalid hash length for object of type  (expected 10 bytes, got 1234567890 bytes): "
    );
    assert_eq!(
        message(usize::MAX, 100),
        format!(
            "Invalid hash length for object of type  (expected {} bytes, got 100 bytes): ",
            usize::MAX
        )
    );
}

#[test]
fn refused_id_has_the_message_of_its_error() {
    let error = check_id_length(&TreeId::from_hex("c0ffee"), 20).unwrap_err();
    assert_eq!(
        error.message(),
        "Invalid hash length for object of type tree (expected 20 bytes, got 3 bytes): c0ffee"
    );
}

#[test]
fn init_and_load_errors_show_their_cause() {
    assert_eq!(BackendInitError(String::from("no space")).message(), "no space");
    assert_eq!(BackendLoadError(String::from("no store")).message(), "no store");
}

#[test]
fn next_error_messages() {
    assert_eq!(NextError::NoWorkingCopy.message(), "This command requires a working copy");
    assert_eq!(NextError::MergeCommit.message(), "Cannot run `jj next` on a merge commit");
    assert_eq!(NextError::AmbiguousTarget.message(), "Ambiguous target commit");
    assert_eq!(
        choose_step(false, 1, 0).unwrap_err().message(),
        "No descendant found 1 commit forward"
    );
    assert_eq!(
        choose_step(false, 12, 0).unwrap_err().message(),
        "No descendant found 12 commits forward"
    );
    assert_eq!(
        choose_step(true, 0, 0).unwrap_err().message(),
        "No descendant found 0 commit forward"
    );
    assert_eq!(
        choose_step(true, u64::MAX, 0).unwrap_err().message(),
        "No descendant found 18446744073709551615 commits forward"
    );
}
