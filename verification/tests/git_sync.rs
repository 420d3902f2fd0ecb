//! The git-backed ledger and synchronization, run against real repositories
//! in temporary directories: staged commits, remote registration, fetch with
//! the merge decision, and push.

use rspass::git::{
    add_remote, commit_changes, fetch_from_remote, initialize_repository, open_repository,
    push_to_remote, FetchOutcome, GitLedger,
};
use rspass::store::Ledger;
use rspass::sync::{fetch_decision, oid_bytes_equal, FetchAction, MergeKind};
use rspass::ErrorKind;
use std::io::Write;

fn write_file(dir: &std::path::Path, name: &str, content: &[u8]) {
    let mut f = tempfile::NamedTempFile::new_in(dir).unwrap();
    f.write_all(content).unwrap();
    f.persist(dir.join(name)).unwrap();
}

fn names(list: &[&str]) -> Vec<String> {
    list.iter().map(|s| s.to_string()).collect()
}

#[test]
fn initialize_and_commit_history() {
    let dir = tempfile::tempdir().unwrap();
    let path = dir.path().to_str().unwrap();
    let reported = initialize_repository(path).unwrap();
    assert_eq!(reported, path);
    let mut ledger = GitLedger::open(path).unwrap();
    write_file(dir.path(), "cred", b"ciphertext-bytes");
    ledger.commit(&names(&["cred"]), &names(&[]), "add \"cred\"").unwrap();
    let repo = git2::Repository::open(path).unwrap();
    let head = repo.head().unwrap().peel_to_commit().unwrap();
    assert_eq!(head.message().unwrap(), "add \"cred\"");
    assert_eq!(head.parent_count(), 0);
    commit_changes(&repo, None, Some(&names(&["cred"])), "remove \"cred\"").unwrap();
    let repo2 = git2::Repository::open(path).unwrap();
    let head2 = repo2.head().unwrap().peel_to_commit().unwrap();
    assert_eq!(head2.message().unwrap(), "remove \"cred\"");
    assert_eq!(head2.parent_count(), 1);
    assert_eq!(head2.parent(0).unwrap().id(), head.id());
}

#[test]
fn open_missing_repository_fails_not_initialized() {
    let dir = tempfile::tempdir().unwrap();
    let path = dir.path().to_str().unwrap();
    let err = match open_repository(path) {
        Ok(_) => panic!("expected an error"),
        Err(e) => e,
    };
    assert_eq!(err.kind, ErrorKind::NotInitialized);
    let err = match GitLedger::open(path) {
        Ok(_) => panic!("expected an error"),
        Err(e) => e,
    };
    assert_eq!(err.kind, ErrorKind::NotInitialized);
}

#[test]
fn initialize_on_bad_path_fails() {
    let dir = tempfile::tempdir().unwrap();
    write_file(dir.path(), "occupied", b"a file, not a directory");
    let bad = dir.path().join("occupied").join("nested");
    let err = initialize_repository(bad.to_str().unwrap()).unwrap_err();
    assert_eq!(err.kind, ErrorKind::InitializationError);
}

#[test]
fn initialize_twice_fails() {
    let dir = tempfile::tempdir().unwrap();
    let path = dir.path().to_str().unwrap();
    initialize_repository(path).unwrap();
    let err = initialize_repository(path).unwrap_err();
    assert_eq!(err.kind, ErrorKind::InitializationError);
    // the existing repository is untouched and still opens
    assert!(open_repository(path).is_ok());
}

#[test]
fn add_remote_twice_fails_remote_error() {
    let dir = tempfile::tempdir().unwrap();
    let path = dir.path().to_str().unwrap();
    initialize_repository(path).unwrap();
    let repo = open_repository(path).unwrap();
    add_remote(&repo, "/tmp/somewhere").unwrap();
    let err = add_remote(&repo, "/tmp/elsewhere").unwrap_err();
    assert_eq!(err.kind, ErrorKind::RemoteError);
}

#[test]
fn fetch_without_remote_fails_remote_error() {
    let dir = tempfile::tempdir().unwrap();
    let path = dir.path().to_str().unwrap();
    initialize_repository(path).unwrap();
    let repo = open_repository(path).unwrap();
    let err = fetch_from_remote(&repo, "user", "token").unwrap_err();
    assert_eq!(err.kind, ErrorKind::RemoteError);
}

#[test]
fn fetch_from_unreachable_remote_fails_fetch_error() {
    let dir = tempfile::tempdir().unwrap();
    let path = dir.path().to_str().unwrap();
    initialize_repository(path).unwrap();
    let repo = open_repository(path).unwrap();
    add_remote(&repo, "/nonexistent/remote/path").unwrap();
    let err = fetch_from_remote(&repo, "user", "token").unwrap_err();
    assert_eq!(err.kind, ErrorKind::FetchError);
}

/// A bare origin seeded with one commit, and the workdir repository that
/// pushed it.
fn seeded_origin() -> (tempfile::TempDir, tempfile::TempDir) {
    let bare = tempfile::tempdir().unwrap();
    git2::Repository::init_bare(bare.path()).unwrap();
    let work = tempfile::tempdir().unwrap();
    let work_path = work.path().to_str().unwrap();
    initialize_repository(work_path).unwrap();
    let repo = open_repository(work_path).unwrap();
    write_file(work.path(), "cred1", b"first");
    commit_changes(&repo, Some(&names(&["cred1"])), None, "add \"cred1\"").unwrap();
    add_remote(&repo, bare.path().to_str().unwrap()).unwrap();
    push_to_remote(&repo, "user", "token").unwrap();
    (bare, work)
}

#[test]
fn fetch_with_identical_tips_is_a_no_op() {
    let (bare, _work) = seeded_origin();
    let clone_dir = tempfile::tempdir().unwrap();
    let cloned =
        git2::Repository::clone(bare.path().to_str().unwrap(), clone_dir.path()).unwrap();
    let tip_before = cloned.head().unwrap().peel_to_commit().unwrap().id();
    let outcome = fetch_from_remote(&cloned, "user", "token").unwrap();
    assert_eq!(outcome, FetchOutcome::UpToDate);
    let tip_after = cloned.head().unwrap().peel_to_commit().unwrap().id();
    assert_eq!(tip_before, tip_after);
}

#[test]
fn fetch_fast_forwards_a_strict_ancestor() {
    let (bare, work) = seeded_origin();
    let clone_dir = tempfile::tempdir().unwrap();
    let cloned =
        git2::Repository::clone(bare.path().to_str().unwrap(), clone_dir.path()).unwrap();
    // advance the origin by one commit
    let repo = open_repository(work.path().to_str().unwrap()).unwrap();
    write_file(work.path(), "cred2", b"second");
    commit_changes(&repo, Some(&names(&["cred2"])), None, "add \"cred2\"").unwrap();
    push_to_remote(&repo, "user", "token").unwrap();
    let remote_tip = repo.head().unwrap().peel_to_commit().unwrap().id();
    // the clone is now a strict ancestor: fetch fast-forwards it
    let outcome = fetch_from_remote(&cloned, "user", "token").unwrap();
    assert_eq!(outcome, FetchOutcome::FastForwarded);
    let local_tip = cloned
        .find_branch("master", git2::BranchType::Local)
        .unwrap()
        .get()
        .target()
        .unwrap();
    assert_eq!(local_tip, remote_tip);
    // the working tree matches the new tip exactly
    let tree = cloned.head().unwrap().peel_to_tree().unwrap();
    assert!(tree.get_name("cred2").is_some());
    assert!(clone_dir.path().join("cred2").exists());
}

#[test]
fn fetch_merges_diverged_histories_and_push_is_rejected() {
    let (bare, work) = seeded_origin();
    let clone_dir = tempfile::tempdir().unwrap();
    let cloned =
        git2::Repository::clone(bare.path().to_str().unwrap(), clone_dir.path()).unwrap();
    // diverge: one commit on the origin side, a different one in the clone
    let repo = open_repository(work.path().to_str().unwrap()).unwrap();
    write_file(work.path(), "theirs", b"their side");
    commit_changes(&repo, Some(&names(&["theirs"])), None, "add \"theirs\"").unwrap();
    push_to_remote(&repo, "user", "token").unwrap();
    write_file(clone_dir.path(), "ours", b"our side");
    commit_changes(&cloned, Some(&names(&["ours"])), None, "add \"ours\"").unwrap();
    // a push from the diverged clone is rejected
    let err = push_to_remote(&cloned, "user", "token").unwrap_err();
    assert_eq!(err.kind, ErrorKind::PushError);
    // a fetch runs the merge machinery; these changes cannot conflict
    let outcome = fetch_from_remote(&cloned, "user", "token").unwrap();
    assert_eq!(outcome, FetchOutcome::MergePerformed);
}

#[test]
fn fetch_decision_cases() {
    assert_eq!(fetch_decision(true, MergeKind::Normal), FetchAction::Nothing);
    assert_eq!(fetch_decision(true, MergeKind::FastForward), FetchAction::Nothing);
    assert_eq!(fetch_decision(false, MergeKind::FastForward), FetchAction::FastForward);
    assert_eq!(fetch_decision(false, MergeKind::Normal), FetchAction::Merge);
    assert_eq!(fetch_decision(false, MergeKind::UpToDate), FetchAction::Nothing);
    assert_eq!(fetch_decision(false, MergeKind::Other), FetchAction::Nothing);
}

#[test]
fn oid_byte_comparison() {
    assert!(oid_bytes_equal(&vec![1, 2, 3], &vec![1, 2, 3]));
    assert!(!oid_bytes_equal(&vec![1, 2, 3], &vec![1, 2, 4]));
    assert!(!oid_bytes_equal(&vec![1, 2], &vec![1, 2, 3]));
    assert!(oid_bytes_equal(&vec![], &vec![]));
}
