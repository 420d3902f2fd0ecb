//! The version-control engine behind the ledger: repository initialization,
//! staged commits, remote registration, fetch with the merge decision, and
//! push, all through git2. Every call into git2 sits behind a trusted
//! wrapper; the sequencing, staging loops, error mapping and the merge
//! decision are verified.

use vstd::prelude::*;
use vstd::string::{StrSliceExecFns, StringExecFns};

use crate::store::{CommitView, Ledger};
use crate::sync::{fetch_decision, oid_bytes_equal, FetchAction, MergeKind};
use crate::{Error as LedgerError, ErrorKind};

verus! {

#[verifier::external_type_specification]
#[verifier::external_body]
pub struct ExRepository(git2::Repository);

#[verifier::external_type_specification]
#[verifier::external_body]
pub struct ExIndex(git2::Index);

#[verifier::external_type_specification]
#[verifier::external_body]
pub struct ExRemote<'a>(git2::Remote<'a>);

// ---------------------------------------------------------------------------
// Trusted wrappers around git2
// ---------------------------------------------------------------------------

/// Relies on git2::Repository::init: creates a repository at `path`.
#[verifier::external_body]
fn repo_init(path: &str) -> (r: Result<git2::Repository, String>) {
    git2::Repository::init(std::path::Path::new(path)).map_err(|e| e.message().to_owned())
}

/// Relies on git2::Repository::open: opens the repository at `path`.
#[verifier::external_body]
fn repo_open(path: &str) -> (r: Result<git2::Repository, String>) {
    git2::Repository::open(std::path::Path::new(path)).map_err(|e| e.message().to_owned())
}

/// Relies on git2::Repository::index: the repository's index.
#[verifier::external_body]
fn repo_index(repo: &git2::Repository) -> (r: Result<git2::Index, String>) {
    repo.index().map_err(|e| e.message().to_owned())
}

/// Relies on git2::Index::add_path: stages the file at the relative path
/// `name` as an addition.
#[verifier::external_body]
fn index_add(index: &mut git2::Index, name: &str) -> (r: Result<(), String>) {
    index.add_path(std::path::Path::new(name)).map_err(|e| e.message().to_owned())
}

/// Relies on git2::Index::remove_path: stages the relative path `name` as a
/// removal.
#[verifier::external_body]
fn index_remove(index: &mut git2::Index, name: &str) -> (r: Result<(), String>) {
    index.remove_path(std::path::Path::new(name)).map_err(|e| e.message().to_owned())
}

/// Relies on git2::Index::write, git2::Index::write_tree,
/// git2::Signature::now, git2::Repository::find_tree and
/// git2::Repository::commit: persists the index, builds a tree from it, and
/// creates exactly one commit with `message` on HEAD, parented on the current
/// branch tip (a root commit when there is none), with the fixed author and
/// committer identity.
#[verifier::external_body]
fn commit_staged(repo: &git2::Repository, index: &mut git2::Index, message: &str) -> (r: Result<
    (),
    String,
>) {
    let build = |oid: git2::Oid| -> Result<git2::Oid, git2::Error> {
        let signature = git2::Signature::now("rspass", "rspass@rspass")?;
        let tree = repo.find_tree(oid)?;
        let parent = repo.head().ok().and_then(|h| h.peel_to_commit().ok());
        let parents: Vec<&git2::Commit> = parent.iter().collect();
        repo.commit(Some("HEAD"), &signature, &signature, message, &tree, &parents)
    };
    let staged = index.write().and_then(|_| index.write_tree());
    staged.and_then(build).map(|_| ()).map_err(|e| e.message().to_owned())
}

/// Relies on git2::Repository::remote: registers the remote "origin" at
/// `uri`; fails when one is already registered.
#[verifier::external_body]
fn remote_add_origin(repo: &git2::Repository, uri: &str) -> (r: Result<(), String>) {
    match repo.remote("origin", uri) {
        Ok(_) => Ok(()),
        Err(e) => Err(e.message().to_owned()),
    }
}

/// Relies on git2::Repository::find_remote: the registered remote "origin".
#[verifier::external_body]
fn find_origin(repo: &git2::Repository) -> (r: Result<git2::Remote<'_>, String>) {
    repo.find_remote("origin").map_err(|e| e.message().to_owned())
}

/// Relies on git2::Remote::fetch with git2::Cred::userpass_plaintext: fetches
/// the "master" branch from the remote, authenticating with the username and
/// token.
#[verifier::external_body]
fn fetch_master(remote: &mut git2::Remote<'_>, username: &str, token: &str) -> (r: Result<
    (),
    String,
>) {
    let mut callbacks = git2::RemoteCallbacks::new();
    callbacks.credentials(|_, _, _| git2::Cred::userpass_plaintext(username, token));
    let mut options = git2::FetchOptions::new();
    options.remote_callbacks(callbacks);
    remote.fetch(&["master"], Some(&mut options), None).map_err(|e| e.message().to_owned())
}

/// Relies on git2::Remote::push with git2::Cred::userpass_plaintext: pushes
/// the local "master" branch to the same-named remote branch, authenticating
/// with the username and token.
#[verifier::external_body]
fn push_master(remote: &mut git2::Remote<'_>, username: &str, token: &str) -> (r: Result<
    (),
    String,
>) {
    let mut callbacks = git2::RemoteCallbacks::new();
    callbacks.credentials(|_, _, _| git2::Cred::userpass_plaintext(username, token));
    let mut options = git2::PushOptions::new();
    options.remote_callbacks(callbacks);
    remote.push(&["refs/heads/master:refs/heads/master"], Some(&mut options)).map_err(|e| e.message().to_owned())
}

/// Relies on git2::Repository::find_branch, git2::Branch::get and
/// git2::Reference::target: the identity of the local "master" tip, as raw
/// bytes, or nothing on an unborn branch.
#[verifier::external_body]
fn local_tip(repo: &git2::Repository) -> (r: Result<Option<Vec<u8>>, String>) {
    match repo.find_branch("master", git2::BranchType::Local) {
        Ok(branch) => Ok(branch.get().target().map(|o| o.as_bytes().to_vec())),
        Err(e) => Err(e.message().to_owned()),
    }
}

/// Relies on git2::Repository::find_reference and git2::Reference::target:
/// the identity of the fetched "origin/master" tip, as raw bytes.
#[verifier::external_body]
fn remote_tip(repo: &git2::Repository) -> (r: Result<Option<Vec<u8>>, String>) {
    match repo.find_reference("refs/remotes/origin/master") {
        Ok(reference) => Ok(reference.target().map(|o| o.as_bytes().to_vec())),
        Err(e) => Err(e.message().to_owned()),
    }
}

/// Relies on git2::Repository::reference_to_annotated_commit and
/// git2::Repository::merge_analysis: what merging the fetched
/// "origin/master" into the local branch would take, told apart variant by
/// variant.
#[verifier::external_body]
fn merge_analysis_kind(repo: &git2::Repository) -> (r: Result<MergeKind, String>) {
    let inner = || -> Result<git2::MergeAnalysis, git2::Error> {
        let reference = repo.find_reference("refs/remotes/origin/master")?;
        let annotated = repo.reference_to_annotated_commit(&reference)?;
        Ok(repo.merge_analysis(&[&annotated])?.0)
    };
    let analysis = inner().map_err(|e| e.message().to_owned())?;
    let kind = if analysis.is_fast_forward() { MergeKind::FastForward }
        else if analysis.is_normal() { MergeKind::Normal }
        else if analysis.is_up_to_date() { MergeKind::UpToDate }
        else { MergeKind::Other };
    Ok(kind)
}

/// Relies on git2::Oid::from_bytes, git2::Reference::set_target,
/// git2::Repository::set_head and git2::Repository::checkout_head with a
/// forced checkout: moves the local "master" to the given tip and makes the
/// working tree match it exactly, discarding local changes.
#[verifier::external_body]
fn fast_forward_to(repo: &git2::Repository, tip: &Vec<u8>) -> (r: Result<(), String>) {
    let inner = || -> Result<(), git2::Error> {
        let oid = git2::Oid::from_bytes(tip.as_slice())?;
        let mut reference = repo.find_reference("refs/heads/master")?;
        reference.set_target(oid, "Fast-forward")?;
        repo.set_head("refs/heads/master")?;
        repo.checkout_head(Some(git2::build::CheckoutBuilder::default().force()))
    };
    inner().map_err(|e| e.message().to_owned())
}

/// Relies on git2::Repository::merge and git2::Index::has_conflicts: runs a
/// normal merge of the fetched "origin/master" into the local branch and
/// reports whether it left conflicts in the index.
#[verifier::external_body]
fn merge_remote(repo: &git2::Repository) -> (r: Result<bool, String>) {
    let inner = || -> Result<bool, git2::Error> {
        let reference = repo.find_reference("refs/remotes/origin/master")?;
        let annotated = repo.reference_to_annotated_commit(&reference)?;
        repo.merge(&[&annotated], None, None)?;
        Ok(repo.index()?.has_conflicts())
    };
    inner().map_err(|e| e.message().to_owned())
}

// ---------------------------------------------------------------------------
// Verified engine operations
// ---------------------------------------------------------------------------

fn engine_error(kind: ErrorKind, prefix: &str, detail: &String) -> (r: LedgerError)
    ensures
        r.kind == kind,
{
    let mut message = prefix.to_owned();
    message.append(detail.as_str());
    LedgerError::new(kind, message.as_str())
}

/// Creates a new repository at `path`; fails `InitializationError` when the
/// path is invalid, cannot be initialized, or already holds a repository
/// (the engine would silently re-initialize one, so an existing repository
/// is probed for and refused first).
pub fn initialize_repository(path: &str) -> (r: Result<String, LedgerError>)
    ensures
        match r {
            Ok(p) => p@ == path@,
            Err(e) => e.kind == ErrorKind::InitializationError,
        },
{
    match repo_open(path) {
        Ok(_) => {
            return Err(
                LedgerError::new(
                    ErrorKind::InitializationError,
                    "failed to initialize repository. a repository already exists at this path",
                ),
            );
        },
        Err(_) => {},
    }
    match repo_init(path) {
        Ok(_) => Ok(path.to_owned()),
        Err(e) => Err(
            engine_error(ErrorKind::InitializationError, "failed to initialize repository. ", &e),
        ),
    }
}

/// Opens the repository at `path`; fails `NotInitialized` when the path does
/// not hold a valid repository.
pub fn open_repository(path: &str) -> (r: Result<git2::Repository, LedgerError>)
    ensures
        r matches Err(e) ==> e.kind == ErrorKind::NotInitialized,
{
    match repo_open(path) {
        Ok(repo) => Ok(repo),
        Err(e) => Err(
            engine_error(
                ErrorKind::NotInitialized,
                "failed to access repository. Make sure to initialize a valid repository. ",
                &e,
            ),
        ),
    }
}

/// Stages every addition and every removal into the index and creates
/// exactly one commit with `message`, parented on the current branch tip (a
/// root commit when there is none). Any engine failure surfaces as the
/// catch-all internal kind and the index is not committed.
pub fn commit_changes(
    repo: &git2::Repository,
    additions: Option<&Vec<String>>,
    removals: Option<&Vec<String>>,
    message: &str,
) -> (r: Result<(), LedgerError>)
    ensures
        r matches Err(e) ==> e.kind == ErrorKind::Internal,
{
    let mut index = match repo_index(repo) {
        Ok(i) => i,
        Err(e) => {
            return Err(
                engine_error(ErrorKind::Internal, "failed to obtain repository index. ", &e),
            );
        },
    };
    if let Some(entries) = additions {
        let mut i: usize = 0;
        while i < entries.len()
            decreases entries.len() - i,
        {
            match index_add(&mut index, entries[i].as_str()) {
                Ok(_) => {},
                Err(e) => {
                    return Err(engine_error(ErrorKind::Internal, "failed to stage file. ", &e));
                },
            }
            i = i + 1;
        }
    }
    if let Some(entries) = removals {
        let mut i: usize = 0;
        while i < entries.len()
            decreases entries.len() - i,
        {
            match index_remove(&mut index, entries[i].as_str()) {
                Ok(_) => {},
                Err(e) => {
                    return Err(
                        engine_error(ErrorKind::Internal, "failed to stage removal. ", &e),
                    );
                },
            }
            i = i + 1;
        }
    }
    match commit_staged(repo, &mut index, message) {
        Ok(_) => Ok(()),
        Err(e) => Err(engine_error(ErrorKind::Internal, "failed to commit changes. ", &e)),
    }
}

/// Registers the "origin" remote at `uri`; fails `RemoteError` when one is
/// already registered or the URI is refused.
pub fn add_remote(repo: &git2::Repository, uri: &str) -> (r: Result<(), LedgerError>)
    ensures
        r matches Err(e) ==> e.kind == ErrorKind::RemoteError,
{
    match remote_add_origin(repo, uri) {
        Ok(_) => Ok(()),
        Err(e) => Err(engine_error(ErrorKind::RemoteError, "failed to add remote. ", &e)),
    }
}

/// What a fetch came to.
#[derive(Clone, Copy, Debug, PartialEq, Eq, Structural)]
pub enum FetchOutcome {
    /// The local branch already matched the remote; nothing was touched.
    UpToDate,
    /// The local branch was moved to the remote tip and the working tree
    /// force-checked-out to match it exactly.
    FastForwarded,
    /// The histories had diverged; a normal merge ran and left no conflicts.
    MergePerformed,
    /// A normal merge ran and left conflicts in the index to resolve.
    MergeConflicts,
}

/// Fetches "master" from "origin" with the given credentials, then acts on
/// the merge decision: identical tips touch nothing, a fast-forward moves the
/// local branch to the remote tip and force-checks-out the working tree, and
/// diverged histories go to the underlying merge machinery, whose conflicts
/// are surfaced as their own outcome rather than as success or failure. Fails
/// `RemoteError` when no "origin" is registered, `FetchError` on transport or
/// engine failures.
pub fn fetch_from_remote(repo: &git2::Repository, username: &str, token: &str) -> (r: Result<
    FetchOutcome,
    LedgerError,
>)
    ensures
        r matches Err(e) ==> e.kind == ErrorKind::RemoteError || e.kind == ErrorKind::FetchError
            || e.kind == ErrorKind::Internal,
{
    let mut remote = match find_origin(repo) {
        Ok(rm) => rm,
        Err(_) => {
            return Err(LedgerError::new(ErrorKind::RemoteError, "failed to find remote"));
        },
    };
    match fetch_master(&mut remote, username, token) {
        Ok(_) => {},
        Err(e) => {
            return Err(
                engine_error(ErrorKind::FetchError, "failed to fetch master from origin. ", &e),
            );
        },
    }
    let local = match local_tip(repo) {
        Ok(Some(t)) => t,
        Ok(None) => {
            return Err(LedgerError::new(ErrorKind::Internal, "the local master branch has no tip"));
        },
        Err(_) => {
            return Err(LedgerError::new(ErrorKind::Internal, "the local master branch is missing"));
        },
    };
    let remote_oid = match remote_tip(repo) {
        Ok(Some(t)) => t,
        Ok(None) => {
            return Err(LedgerError::new(ErrorKind::Internal, "the fetched remote branch has no tip"));
        },
        Err(e) => {
            return Err(
                engine_error(ErrorKind::FetchError, "failed to fetch master from origin. ", &e),
            );
        },
    };
    let tips_equal = oid_bytes_equal(&local, &remote_oid);
    let analysis = if tips_equal {
        MergeKind::UpToDate
    } else {
        match merge_analysis_kind(repo) {
            Ok(k) => k,
            Err(e) => {
                return Err(
                    engine_error(
                        ErrorKind::FetchError,
                        "failed to fetch master from origin. ",
                        &e,
                    ),
                );
            },
        }
    };
    match fetch_decision(tips_equal, analysis) {
        FetchAction::Nothing => Ok(FetchOutcome::UpToDate),
        FetchAction::FastForward => {
            match fast_forward_to(repo, &remote_oid) {
                Ok(_) => Ok(FetchOutcome::FastForwarded),
                Err(e) => Err(
                    engine_error(
                        ErrorKind::FetchError,
                        "failed to fetch master from origin. ",
                        &e,
                    ),
                ),
            }
        },
        FetchAction::Merge => {
            match merge_remote(repo) {
                Ok(conflicts) => {
                    if conflicts {
                        Ok(FetchOutcome::MergeConflicts)
                    } else {
                        Ok(FetchOutcome::MergePerformed)
                    }
                },
                Err(e) => Err(
                    engine_error(
                        ErrorKind::FetchError,
                        "failed to fetch master from origin. ",
                        &e,
                    ),
                ),
            }
        },
    }
}

/// Pushes the local "master" to the same-named branch of "origin" with the
/// given credentials. Fails `RemoteError` when no "origin" is registered and
/// `PushError` on rejection, for example when the remote has diverged and
/// must be fetched first.
pub fn push_to_remote(repo: &git2::Repository, username: &str, token: &str) -> (r: Result<
    (),
    LedgerError,
>)
    ensures
        r matches Err(e) ==> e.kind == ErrorKind::RemoteError || e.kind == ErrorKind::PushError,
{
    let mut remote = match find_origin(repo) {
        Ok(rm) => rm,
        Err(_) => {
            return Err(LedgerError::new(ErrorKind::RemoteError, "failed to find remote"));
        },
    };
    match push_master(&mut remote, username, token) {
        Ok(_) => Ok(()),
        Err(e) => Err(engine_error(ErrorKind::PushError, "failed to push to remote. ", &e)),
    }
}

// ---------------------------------------------------------------------------
// The git-backed ledger
// ---------------------------------------------------------------------------

/// The git-backed ledger: each successful `commit` stages its paths and
/// creates exactly one commit on the current branch tip. The history view
/// tracks the commits made through this handle since it was opened.
pub struct GitLedger {
    repo: git2::Repository,
    history: Ghost<Seq<CommitView>>,
}

impl GitLedger {
    /// Opens the ledger over the repository at `path`; fails `NotInitialized`
    /// when there is none.
    pub fn open(path: &str) -> (r: Result<GitLedger, LedgerError>)
        ensures
            match r {
                Ok(l) => l.history() == Seq::<CommitView>::empty(),
                Err(e) => e.kind == ErrorKind::NotInitialized,
            },
    {
        match open_repository(path) {
            Ok(repo) => Ok(GitLedger { repo, history: Ghost(Seq::empty()) }),
            Err(e) => Err(e),
        }
    }

    /// The underlying repository, for remote registration and sync.
    pub fn repo(&self) -> &git2::Repository {
        &self.repo
    }
}

impl Ledger for GitLedger {
    closed spec fn history(&self) -> Seq<CommitView> {
        self.history@
    }

    fn commit(&mut self, additions: &Vec<String>, removals: &Vec<String>, message: &str) -> (r:
        Result<(), LedgerError>) {
        match commit_changes(&self.repo, Some(additions), Some(removals), message) {
            Ok(_) => {
                self.history = Ghost(
                    self.history@.push(
                        CommitView {
                            message: message@,
                            additions: additions.deep_view(),
                            removals: removals.deep_view(),
                        },
                    ),
                );
                Ok(())
            },
            Err(e) => Err(e),
        }
    }
}

} // verus!
