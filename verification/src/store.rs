//! The credential store: a tree of encrypted entries addressed by relative
//! name, mutated in lockstep with an append-only commit ledger. The tree and
//! the ledger are capabilities: the verified in-memory implementations here
//! back tests, and the store operations are verified once for every
//! implementation that meets the contracts.

use vstd::prelude::*;
use vstd::string::{StrSliceExecFns, StringExecFns};

use crate::crypto::{keypair_matches, unseal_of};
use crate::payload::{
    apply_changes, edited_secret, first_line, first_line_of, lemma_map_of_pairs_domain,
    lemma_map_of_pairs_remove, lemma_map_of_pairs_value, map_of_pairs, pair_is_storable,
    parsed_pairs, payload_of, rebuild_payload, secret_is_storable, serialize_payload, unique_keys,
    wf_changes, wf_pair, wf_pairs, wf_secret,
};
use crate::{Error, ErrorKind};

verus! {

broadcast use vstd::std_specs::vec::vec_clone_deep_view_proof;

/// How a filesystem operation failed, as far as the store's decisions need.
#[derive(Clone, Copy, Debug, PartialEq, Eq, Structural)]
pub enum FsFailure {
    AlreadyExists,
    NotFound,
    PermissionDenied,
    Other,
}

/// The error kind surfaced for a filesystem failure.
pub open spec fn kind_of_fs_failure(f: FsFailure) -> ErrorKind {
    match f {
        FsFailure::AlreadyExists => ErrorKind::AlreadyExists,
        FsFailure::NotFound => ErrorKind::NotFound,
        FsFailure::PermissionDenied => ErrorKind::PermissionDenied,
        FsFailure::Other => ErrorKind::Internal,
    }
}

fn fs_failure_error(f: FsFailure, message: &str) -> (r: Error)
    ensures
        r.kind == kind_of_fs_failure(f),
{
    match f {
        FsFailure::AlreadyExists => Error::new(ErrorKind::AlreadyExists, message),
        FsFailure::NotFound => Error::new(ErrorKind::NotFound, message),
        FsFailure::PermissionDenied => Error::new(ErrorKind::PermissionDenied, message),
        FsFailure::Other => Error::new(ErrorKind::Internal, message),
    }
}

/// A ledger snapshot as the contracts see it: its message and the entry
/// names staged as added or removed. A commit's parent is the entry before
/// it in the history; the first commit has none.
pub struct CommitView {
    pub message: Seq<char>,
    pub additions: Seq<Seq<char>>,
    pub removals: Seq<Seq<char>>,
}

// ---------------------------------------------------------------------------
// Commit message templates
// ---------------------------------------------------------------------------

pub open spec fn add_message(name: Seq<char>) -> Seq<char> {
    "add \""@ + name + "\""@
}

pub open spec fn update_message(name: Seq<char>) -> Seq<char> {
    "update \""@ + name + "\""@
}

pub open spec fn remove_message(name: Seq<char>) -> Seq<char> {
    "remove \""@ + name + "\""@
}

pub open spec fn move_message(target: Seq<char>, destination: Seq<char>) -> Seq<char> {
    "move "@ + target + " to "@ + destination
}

fn build_add_message(name: &str) -> (m: String)
    ensures
        m@ == add_message(name@),
{
    let mut m = "add \"".to_owned();
    m.append(name);
    m.append("\"");
    m
}

fn build_update_message(name: &str) -> (m: String)
    ensures
        m@ == update_message(name@),
{
    let mut m = "update \"".to_owned();
    m.append(name);
    m.append("\"");
    m
}

fn build_remove_message(name: &str) -> (m: String)
    ensures
        m@ == remove_message(name@),
{
    let mut m = "remove \"".to_owned();
    m.append(name);
    m.append("\"");
    m
}

fn build_move_message(target: &str, destination: &str) -> (m: String)
    ensures
        m@ == move_message(target@, destination@),
{
    let mut m = "move ".to_owned();
    m.append(target);
    m.append(" to ");
    m.append(destination);
    m
}

// ---------------------------------------------------------------------------
// The two capabilities
// ---------------------------------------------------------------------------

/// The tree of encrypted credential files: ciphertext bytes addressed by
/// relative name. `MemFs` is the verified in-memory implementation; a
/// disk-backed one lives outside the verified crate and must honour the same
/// contracts.
pub trait CredentialFs {
    /// The entries held: ciphertext by name. An implementation overrides
    /// this with its own model of what it stores.
    open spec fn entries(&self) -> Map<Seq<char>, Seq<u8>> {
        Map::<Seq<char>, Seq<u8>>::empty()
    }

    /// Whether an entry named `name` exists.
    fn contains(&self, name: &str) -> (r: bool)
        ensures
            r == self.entries().contains_key(name@),
    ;

    /// Creates the entry `name` with content `data`, creating parent groups
    /// as needed; fails `AlreadyExists` exactly when the entry exists.
    fn create(&mut self, name: &str, data: &Vec<u8>) -> (r: Result<(), FsFailure>)
        ensures
            r matches Ok(_) ==> !old(self).entries().contains_key(name@) && final(self).entries()
                == old(self).entries().insert(name@, data@),
            r is Err ==> final(self).entries() == old(self).entries(),
            r matches Err(f) && f == FsFailure::AlreadyExists <==> old(
                self,
            ).entries().contains_key(name@),
    ;

    /// The ciphertext of entry `name`; fails `NotFound` exactly when absent.
    /// A present entry may still fail to read (a rights failure), under any
    /// other failure.
    fn read(&self, name: &str) -> (r: Result<Vec<u8>, FsFailure>)
        ensures
            match r {
                Ok(d) => self.entries().contains_key(name@) && d@ == self.entries()[name@],
                Err(f) => (f == FsFailure::NotFound <==> !self.entries().contains_key(name@))
                    && f != FsFailure::AlreadyExists,
            },
    ;

    /// Replaces the content of the existing entry `name`, truncating what was
    /// there; fails `NotFound` exactly when the entry is absent. A present
    /// entry may still fail to rewrite (a rights failure), under any other
    /// failure, leaving the entries as they were.
    fn replace(&mut self, name: &str, data: &Vec<u8>) -> (r: Result<(), FsFailure>)
        ensures
            match r {
                Ok(_) => old(self).entries().contains_key(name@) && final(self).entries() == old(
                    self,
                ).entries().insert(name@, data@),
                Err(f) => (f == FsFailure::NotFound <==> !old(self).entries().contains_key(name@))
                    && f != FsFailure::AlreadyExists && final(self).entries() == old(
                    self,
                ).entries(),
            },
    ;

    /// Deletes the entry `name`; fails `NotFound` exactly when absent.
    fn remove(&mut self, name: &str) -> (r: Result<(), FsFailure>)
        ensures
            r matches Ok(_) ==> old(self).entries().contains_key(name@) && final(self).entries()
                == old(self).entries().remove(name@),
            r is Err ==> final(self).entries() == old(self).entries(),
            r matches Err(f) && f == FsFailure::NotFound <==> !old(self).entries().contains_key(
                name@,
            ),
    ;

    /// Renames the entry `from` to `to`, overwriting an entry already at
    /// `to`; fails `NotFound` exactly when `from` is absent.
    fn rename(&mut self, from: &str, to: &str) -> (r: Result<(), FsFailure>)
        ensures
            r matches Ok(_) ==> old(self).entries().contains_key(from@) && final(self).entries()
                == old(self).entries().remove(from@).insert(
                to@,
                old(self).entries()[from@],
            ),
            r is Err ==> final(self).entries() == old(self).entries(),
            r matches Err(f) && f == FsFailure::NotFound <==> !old(self).entries().contains_key(
                from@,
            ),
            r matches Err(f) ==> f != FsFailure::AlreadyExists,
    ;
}

/// The version-control ledger: an append-only linear history of commits.
/// `MemLedger` is the verified in-memory implementation; the git-backed one
/// stages each path and commits on the current branch tip.
pub trait Ledger {
    /// The commits so far, oldest first; each one's parent is the commit
    /// before it, and the first has none. An implementation overrides this
    /// with its own model of what it records.
    open spec fn history(&self) -> Seq<CommitView> {
        Seq::<CommitView>::empty()
    }

    /// Stages the additions and removals and records them as exactly one new
    /// commit carrying `message`, parented on the current tip. A failure
    /// records nothing and surfaces the catch-all internal kind.
    fn commit(&mut self, additions: &Vec<String>, removals: &Vec<String>, message: &str) -> (r:
        Result<(), Error>)
        ensures
            r matches Ok(_) ==> final(self).history() == old(self).history().push(
                (CommitView {
                    message: message@,
                    additions: additions.deep_view(),
                    removals: removals.deep_view(),
                }),
            ),
            r is Err ==> final(self).history() == old(self).history(),
            r matches Err(e) ==> e.kind == ErrorKind::Internal,
    ;
}

// ---------------------------------------------------------------------------
// Verified in-memory implementations
// ---------------------------------------------------------------------------

/// Finds the index of the entry named `name` in an association vector.
fn vec_index_of(files: &Vec<(String, Vec<u8>)>, name: &str) -> (r: Option<usize>)
    ensures
        match r {
            Some(i) => i < files.deep_view().len() && files.deep_view()[i as int].0 == name@,
            None => forall|i: int|
                0 <= i < files.deep_view().len() ==> (#[trigger] files.deep_view()[i]).0 != name@,
        },
{
    let key = name.to_owned();
    let mut i: usize = 0;
    while i < files.len()
        invariant
            0 <= i <= files.len(),
            key@ == name@,
            forall|j: int| 0 <= j < i ==> (#[trigger] files.deep_view()[j]).0 != name@,
        decreases files.len() - i,
    {
        if files[i].0.eq(&key) {
            proof {
                assert(files.deep_view()[i as int].0 == name@);
            }
            return Some(i);
        }
        i = i + 1;
    }
    None
}

/// Removes the entry at `i`, keeping keys unique and removing its key from
/// the mapping.
fn vec_remove_at(files: &mut Vec<(String, Vec<u8>)>, i: usize)
    requires
        unique_keys(old(files).deep_view()),
        i < old(files)@.len(),
    ensures
        unique_keys(final(files).deep_view()),
        map_of_pairs(final(files).deep_view()) == map_of_pairs(old(files).deep_view()).remove(
            old(files).deep_view()[i as int].0,
        ),
        forall|x: int|
            0 <= x < final(files).deep_view().len() ==> (#[trigger] final(files).deep_view()[x]).0
                != old(files).deep_view()[i as int].0,
{
    let ghost ps = files.deep_view();
    files.remove(i);
    proof {
        assert(files.deep_view() =~= ps.remove(i as int));
        lemma_map_of_pairs_remove(ps, i as int);
        assert forall|a: int, b: int|
            0 <= a < b < files.deep_view().len() implies (#[trigger] files.deep_view()[a]).0 != (
        #[trigger] files.deep_view()[b]).0 by {
            if b < i as int {
                assert(files.deep_view()[a] == ps[a]);
                assert(files.deep_view()[b] == ps[b]);
            } else if a < i as int {
                assert(files.deep_view()[a] == ps[a]);
                assert(files.deep_view()[b] == ps[b + 1]);
            } else {
                assert(files.deep_view()[a] == ps[a + 1]);
                assert(files.deep_view()[b] == ps[b + 1]);
            }
        }
        assert forall|x: int|
            0 <= x < files.deep_view().len() implies (#[trigger] files.deep_view()[x]).0 != ps[
            i as int].0 by {
            if x < i as int {
                assert(files.deep_view()[x] == ps[x]);
            } else {
                assert(files.deep_view()[x] == ps[x + 1]);
            }
        }
    }
}

/// Appends an entry whose key is absent, keeping keys unique and inserting
/// it into the mapping.
fn vec_append(files: &mut Vec<(String, Vec<u8>)>, name: &str, data: &Vec<u8>)
    requires
        unique_keys(old(files).deep_view()),
        forall|x: int|
            0 <= x < old(files).deep_view().len() ==> (#[trigger] old(files).deep_view()[x]).0
                != name@,
    ensures
        unique_keys(final(files).deep_view()),
        map_of_pairs(final(files).deep_view()) == map_of_pairs(old(files).deep_view()).insert(
            name@,
            data@,
        ),
{
    let ghost ps = files.deep_view();
    files.push((name.to_owned(), data.clone()));
    proof {
        assert(data.deep_view() =~= data@);
        assert(files.deep_view() =~= ps.push((name@, data@)));
        assert(files.deep_view().drop_last() =~= ps);
        assert forall|a: int, b: int|
            0 <= a < b < files.deep_view().len() implies (#[trigger] files.deep_view()[a]).0 != (
        #[trigger] files.deep_view()[b]).0 by {
            assert(files.deep_view()[a] == ps[a]);
            if b < files.deep_view().len() - 1 {
                assert(files.deep_view()[b] == ps[b]);
            }
        }
    }
}

/// An in-memory credential tree, used by the tests and by anything that
/// wants the store without a disk.
pub struct MemFs {
    files: Vec<(String, Vec<u8>)>,
}

impl MemFs {
    #[verifier::type_invariant]
    spec fn inv(&self) -> bool {
        unique_keys(self.files.deep_view())
    }

    pub fn new() -> (r: MemFs)
        ensures
            r.entries() == Map::<Seq<char>, Seq<u8>>::empty(),
    {
        let r = MemFs { files: Vec::new() };
        proof {
            assert(r.files.deep_view() =~= Seq::<(Seq<char>, Seq<u8>)>::empty());
        }
        r
    }

    /// Swaps the entry vector out for mutation; the tree is empty meanwhile.
    fn take_files(&mut self) -> (r: Vec<(String, Vec<u8>)>)
        ensures
            r == old(self).files,
            final(self).files@.len() == 0,
            unique_keys(r.deep_view()),
    {
        proof {
            use_type_invariant(&*self);
        }
        let mut files: Vec<(String, Vec<u8>)> = Vec::new();
        proof {
            assert(files.deep_view() =~= Seq::<(Seq<char>, Seq<u8>)>::empty());
        }
        core::mem::swap(&mut files, &mut self.files);
        files
    }

    /// Puts the entry vector back after mutation.
    fn put_files(&mut self, files: Vec<(String, Vec<u8>)>)
        requires
            unique_keys(files.deep_view()),
        ensures
            final(self).files == files,
    {
        let mut files = files;
        core::mem::swap(&mut files, &mut self.files);
    }
}

impl CredentialFs for MemFs {
    closed spec fn entries(&self) -> Map<Seq<char>, Seq<u8>> {
        map_of_pairs(self.files.deep_view())
    }

    fn contains(&self, name: &str) -> (r: bool) {
        proof {
            lemma_map_of_pairs_domain(self.files.deep_view(), name@);
        }
        vec_index_of(&self.files, name).is_some()
    }

    fn create(&mut self, name: &str, data: &Vec<u8>) -> (r: Result<(), FsFailure>)
        ensures
            !old(self).entries().contains_key(name@) ==> r is Ok,
    {
        proof {
            lemma_map_of_pairs_domain(self.files.deep_view(), name@);
        }
        let mut files = self.take_files();
        let r = match vec_index_of(&files, name) {
            Some(_) => Err(FsFailure::AlreadyExists),
            None => {
                vec_append(&mut files, name, data);
                Ok(())
            },
        };
        self.put_files(files);
        r
    }

    fn read(&self, name: &str) -> (r: Result<Vec<u8>, FsFailure>)
        ensures
            self.entries().contains_key(name@) ==> r is Ok,
    {
        proof {
            use_type_invariant(self);
            lemma_map_of_pairs_domain(self.files.deep_view(), name@);
        }
        match vec_index_of(&self.files, name) {
            Some(i) => {
                proof {
                    lemma_map_of_pairs_value(self.files.deep_view(), i as int);
                }
                let d = self.files[i].1.clone();
                proof {
                    assert(d.deep_view() =~= d@);
                    assert(self.files.deep_view()[i as int].1 =~= self.files[i as int].1@);
                }
                Ok(d)
            },
            None => Err(FsFailure::NotFound),
        }
    }

    fn replace(&mut self, name: &str, data: &Vec<u8>) -> (r: Result<(), FsFailure>)
        ensures
            old(self).entries().contains_key(name@) ==> r is Ok,
    {
        proof {
            lemma_map_of_pairs_domain(self.files.deep_view(), name@);
        }
        let ghost ps = self.files.deep_view();
        let mut files = self.take_files();
        let r = match vec_index_of(&files, name) {
            Some(i) => {
                vec_remove_at(&mut files, i);
                vec_append(&mut files, name, data);
                proof {
                    assert(map_of_pairs(ps).remove(name@).insert(name@, data@) =~= map_of_pairs(
                        ps,
                    ).insert(name@, data@));
                }
                Ok(())
            },
            None => Err(FsFailure::NotFound),
        };
        self.put_files(files);
        r
    }

    fn remove(&mut self, name: &str) -> (r: Result<(), FsFailure>)
        ensures
            old(self).entries().contains_key(name@) ==> r is Ok,
    {
        proof {
            lemma_map_of_pairs_domain(self.files.deep_view(), name@);
        }
        let mut files = self.take_files();
        let r = match vec_index_of(&files, name) {
            Some(i) => {
                vec_remove_at(&mut files, i);
                Ok(())
            },
            None => Err(FsFailure::NotFound),
        };
        self.put_files(files);
        r
    }

    fn rename(&mut self, from: &str, to: &str) -> (r: Result<(), FsFailure>)
        ensures
            old(self).entries().contains_key(from@) ==> r is Ok,
    {
        proof {
            lemma_map_of_pairs_domain(self.files.deep_view(), from@);
        }
        let ghost ps0 = self.files.deep_view();
        let mut files = self.take_files();
        let r = match vec_index_of(&files, from) {
            Some(i) => {
                proof {
                    lemma_map_of_pairs_value(ps0, i as int);
                }
                let data = files[i].1.clone();
                proof {
                    assert(data.deep_view() =~= data@);
                    assert(ps0[i as int].1 =~= files[i as int].1@);
                }
                vec_remove_at(&mut files, i);
                match vec_index_of(&files, to) {
                    Some(j) => {
                        vec_remove_at(&mut files, j);
                        proof {
                            assert(map_of_pairs(ps0).remove(from@).remove(to@).insert(to@, data@)
                                =~= map_of_pairs(ps0).remove(from@).insert(to@, data@));
                        }
                    },
                    None => {},
                }
                vec_append(&mut files, to, &data);
                Ok(())
            },
            None => Err(FsFailure::NotFound),
        };
        self.put_files(files);
        r
    }
}

/// One recorded commit of the in-memory ledger.
#[derive(Debug)]
pub struct CommitRecord {
    pub message: String,
    pub additions: Vec<String>,
    pub removals: Vec<String>,
}

impl View for CommitRecord {
    type V = CommitView;

    open spec fn view(&self) -> CommitView {
        CommitView {
            message: self.message@,
            additions: self.additions.deep_view(),
            removals: self.removals.deep_view(),
        }
    }
}

impl DeepView for CommitRecord {
    type V = CommitView;

    open spec fn deep_view(&self) -> CommitView {
        self.view()
    }
}

/// An in-memory ledger: commits are recorded in order and never fail.
pub struct MemLedger {
    pub commits: Vec<CommitRecord>,
}

impl MemLedger {
    pub fn new() -> (r: MemLedger)
        ensures
            r.history() == Seq::<CommitView>::empty(),
    {
        let r = MemLedger { commits: Vec::new() };
        proof {
            assert(r.history() =~= Seq::<CommitView>::empty());
        }
        r
    }

    /// How many commits the ledger holds.
    pub fn commit_count(&self) -> (r: usize)
        ensures
            r == self.history().len(),
    {
        self.commits.len()
    }
}

impl Ledger for MemLedger {
    closed spec fn history(&self) -> Seq<CommitView> {
        self.commits.deep_view()
    }

    fn commit(&mut self, additions: &Vec<String>, removals: &Vec<String>, message: &str) -> (r:
        Result<(), Error>)
        ensures
            r is Ok,
    {
        let ghost h = self.history();
        let record = CommitRecord {
            message: message.to_owned(),
            additions: additions.clone(),
            removals: removals.clone(),
        };
        self.commits.push(record);
        proof {
            assert(self.commits.deep_view() =~= h.push(
                (CommitView {
                    message: message@,
                    additions: additions.deep_view(),
                    removals: removals.deep_view(),
                }),
            ));
        }
        Ok(())
    }
}

// ---------------------------------------------------------------------------
// The store operations
// ---------------------------------------------------------------------------

/// The metadata pairs given to an insertion; none means no pairs.
pub open spec fn given_pairs(metadata: Option<&Vec<(String, String)>>) -> Seq<
    (Seq<char>, Seq<char>),
> {
    match metadata {
        Some(m) => m.deep_view(),
        None => Seq::<(Seq<char>, Seq<char>)>::empty(),
    }
}

/// The metadata changes given to an edit; none means no changes.
pub open spec fn given_changes(metadata: Option<&Vec<(String, Option<String>)>>) -> Seq<
    (Seq<char>, Option<Seq<char>>),
> {
    match metadata {
        Some(m) => m.deep_view(),
        None => Seq::<(Seq<char>, Option<Seq<char>>)>::empty(),
    }
}

/// The replacement secret given to an edit, when one is.
pub open spec fn given_secret(password: Option<&str>) -> Option<Seq<char>> {
    match password {
        Some(p) => Some(p@),
        None => None,
    }
}

/// Whether an insertion's inputs fit the payload line format.
pub open spec fn wf_insert_inputs(
    password: Seq<char>,
    metadata: Option<&Vec<(String, String)>>,
) -> bool {
    wf_secret(password) && wf_pairs(given_pairs(metadata))
}

/// Whether an edit's inputs fit the payload line format.
pub open spec fn wf_edit_inputs(
    password: Option<&str>,
    metadata: Option<&Vec<(String, Option<String>)>>,
) -> bool {
    &&& match password {
        Some(p) => wf_secret(p@),
        None => true,
    }
    &&& wf_changes(given_changes(metadata))
}

/// Writes an already-sealed credential as a new entry and records the one
/// matching commit. When the commit cannot be recorded the entry is removed
/// again, so that tree and ledger never diverge; only when that removal
/// itself fails is the written-but-uncommitted entry left behind, flagged by
/// the catch-all internal kind.
pub fn store_sealed_credential<F: CredentialFs, L: Ledger>(
    fs: &mut F,
    ledger: &mut L,
    name: &str,
    ciphertext: &Vec<u8>,
) -> (r: Result<(), Error>)
    ensures
        match r {
            Ok(_) => {
                &&& !old(fs).entries().contains_key(name@)
                &&& final(fs).entries() == old(fs).entries().insert(name@, ciphertext@)
                &&& final(ledger).history() == old(ledger).history().push(
                    (CommitView {
                        message: add_message(name@),
                        additions: seq![name@],
                        removals: Seq::<Seq<char>>::empty(),
                    }),
                )
            },
            Err(e) => {
                &&& final(ledger).history() == old(ledger).history()
                &&& (e.kind == ErrorKind::AlreadyExists <==> old(fs).entries().contains_key(name@))
                &&& (e.kind == ErrorKind::AlreadyExists || e.kind == ErrorKind::NotFound || e.kind
                    == ErrorKind::PermissionDenied || e.kind == ErrorKind::Internal)
                &&& (final(fs).entries() == old(fs).entries() || (e.kind == ErrorKind::Internal
                    && final(fs).entries() == old(fs).entries().insert(name@, ciphertext@)))
            },
        },
{
    match fs.create(name, ciphertext) {
        Ok(_) => {},
        Err(f) => {
            return Err(fs_failure_error(f, "failed to create the credential entry"));
        },
    }
    let additions = vec![name.to_owned()];
    let removals: Vec<String> = Vec::new();
    let message = build_add_message(name);
    proof {
        assert(additions.deep_view() =~= seq![name@]);
        assert(removals.deep_view() =~= Seq::<Seq<char>>::empty());
    }
    match ledger.commit(&additions, &removals, message.as_str()) {
        Ok(_) => Ok(()),
        Err(e) => {
            match fs.remove(name) {
                Ok(_) => {
                    proof {
                        assert(fs.entries() =~= old(fs).entries());
                    }
                    Err(e)
                },
                Err(_) => Err(
                    Error::new(
                        ErrorKind::Internal,
                        "the credential entry was written but could not be committed or removed",
                    ),
                ),
            }
        },
    }
}

/// Inserts a new credential: the payload is built from the secret and the
/// metadata pairs as given (duplicates kept), sealed to the RSA public key,
/// written as a new entry, and committed as `add "<name>"` on the prior tip.
/// The stored ciphertext unseals, under any keys matching the sealing public
/// key, to exactly that payload. An existing entry of that name fails
/// `AlreadyExists` and changes nothing; a secret holding a newline, a key
/// holding `=` or a newline, or a value holding a newline fails
/// `InsertionError` and changes nothing. When the commit cannot be recorded
/// the entry is removed again; only when that removal itself fails is the
/// written-but-uncommitted entry left behind, flagged by the catch-all
/// internal kind — over a fallible tree and ledger nothing stronger is
/// attainable.
pub fn insert_credential<F: CredentialFs, L: Ledger>(
    fs: &mut F,
    ledger: &mut L,
    name: &str,
    password: &str,
    metadata: Option<&Vec<(String, String)>>,
    rsa_pub_key: &str,
) -> (r: Result<(), Error>)
    ensures
        match r {
            Ok(_) => {
                &&& wf_insert_inputs(password@, metadata)
                &&& !old(fs).entries().contains_key(name@)
                &&& (exists|ct: Seq<u8>|
                    {
                        &&& final(fs).entries() == old(fs).entries().insert(name@, ct)
                        &&& (forall|sk: Seq<char>, pw: Seq<char>|
                            keypair_matches(sk, pw, rsa_pub_key@) ==> unseal_of(sk, pw, ct)
                                == Some(payload_of(password@, given_pairs(metadata))))
                    })
                &&& final(ledger).history() == old(ledger).history().push(
                    (CommitView {
                        message: add_message(name@),
                        additions: seq![name@],
                        removals: Seq::<Seq<char>>::empty(),
                    }),
                )
            },
            Err(e) => {
                &&& final(ledger).history() == old(ledger).history()
                &&& (e.kind == ErrorKind::AlreadyExists <==> old(fs).entries().contains_key(name@))
                &&& (e.kind == ErrorKind::InsertionError ==> !wf_insert_inputs(
                    password@,
                    metadata,
                ))
                &&& (e.kind == ErrorKind::AlreadyExists || e.kind == ErrorKind::InsertionError
                    || e.kind == ErrorKind::EncryptionError || e.kind
                    == ErrorKind::PermissionDenied || e.kind == ErrorKind::NotFound || e.kind
                    == ErrorKind::Internal)
                &&& (final(fs).entries() == old(fs).entries() || (e.kind == ErrorKind::Internal
                    && exists|ct: Seq<u8>|
                    final(fs).entries() == old(fs).entries().insert(name@, ct)))
            },
        },
{
    if fs.contains(name) {
        return Err(Error::new(ErrorKind::AlreadyExists, "a credential already exists with this name"));
    }
    if !secret_is_storable(password) {
        return Err(Error::new(ErrorKind::InsertionError, "the secret must not contain a newline"));
    }
    let payload = match metadata {
        Some(m) => {
            let ghost pairs = m.deep_view();
            let mut i: usize = 0;
            while i < m.len()
                invariant
                    0 <= i <= m.len(),
                    pairs == m.deep_view(),
                    pairs.len() == m.len(),
                    metadata == Some(m),
                    wf_secret(password@),
                    !fs.entries().contains_key(name@),
                    fs.entries() == old(fs).entries(),
                    ledger.history() == old(ledger).history(),
                    forall|j: int| 0 <= j < m.len() ==> #[trigger] pairs[j] == (m[j].0@, m[j].1@),
                    forall|j: int| 0 <= j < i ==> wf_pair(#[trigger] pairs[j]),
                decreases m.len() - i,
            {
                if !pair_is_storable(m[i].0.as_str(), m[i].1.as_str()) {
                    proof {
                        assert(given_pairs(metadata) == pairs);
                        assert(!wf_pair(given_pairs(metadata)[i as int]));
                        assert(!wf_pairs(given_pairs(metadata)));
                    }
                    return Err(
                        Error::new(
                            ErrorKind::InsertionError,
                            "metadata keys must not contain '=' or newlines, values no newlines",
                        ),
                    );
                }
                i = i + 1;
            }
            let p = serialize_payload(password, m);
            proof {
                assert(p@ == payload_of(password@, given_pairs(metadata)));
            }
            p
        },
        None => {
            let empty: Vec<(String, String)> = Vec::new();
            proof {
                assert(empty.deep_view() =~= Seq::<(Seq<char>, Seq<char>)>::empty());
            }
            let p = serialize_payload(password, &empty);
            proof {
                assert(p@ == payload_of(password@, given_pairs(metadata)));
            }
            p
        },
    };
    let ciphertext = match crate::crypto::encrypt(payload.as_str(), rsa_pub_key) {
        Ok(ct) => ct,
        Err(e) => {
            return Err(e);
        },
    };
    let r = store_sealed_credential(fs, ledger, name, &ciphertext);
    proof {
        if r is Ok {
            assert(fs.entries() == old(fs).entries().insert(name@, ciphertext@));
            assert forall|sk: Seq<char>, pw: Seq<char>|
                keypair_matches(sk, pw, rsa_pub_key@) implies unseal_of(sk, pw, ciphertext@)
                == Some(payload_of(password@, given_pairs(metadata))) by {}
        }
    }
    r
}

/// Reads a credential: fails `NotFound` exactly when no entry carries the
/// name, `DecryptionError` when the envelope does not unseal, the catch-all
/// internal kind when a present entry cannot be read; otherwise returns the
/// whole payload (`full`) or exactly its first line, the secret.
pub fn get_credential<F: CredentialFs>(
    fs: &F,
    name: &str,
    password: &str,
    full: bool,
    private_key: &str,
) -> (r: Result<String, Error>)
    ensures
        !fs.entries().contains_key(name@) ==> (r matches Err(e) && e.kind == ErrorKind::NotFound),
        fs.entries().contains_key(name@) ==> match r {
            Ok(s) => unseal_of(private_key@, password@, fs.entries()[name@]) matches Some(p) && s@
                == (if full {
                p
            } else {
                first_line(p)
            }),
            Err(e) => (e.kind == ErrorKind::DecryptionError && unseal_of(
                private_key@,
                password@,
                fs.entries()[name@],
            ) is None) || e.kind == ErrorKind::Internal,
        },
{
    let data = match fs.read(name) {
        Ok(d) => d,
        Err(FsFailure::NotFound) => {
            return Err(Error::new(ErrorKind::NotFound, "no credential found for this name"));
        },
        Err(_) => {
            return Err(Error::new(ErrorKind::Internal, "the credential entry could not be read"));
        },
    };
    let payload = match crate::crypto::decrypt(&data, password, private_key) {
        Ok(p) => p,
        Err(e) => {
            return Err(e);
        },
    };
    if full {
        Ok(payload)
    } else {
        Ok(first_line_of(payload.as_str()))
    }
}

/// Edits a credential in place: the current payload is unsealed, the secret
/// kept or replaced, the metadata mapping updated (a present value sets its
/// key, an absent one deletes it), and the entry re-sealed, overwritten with
/// truncation, and committed as `update "<name>"`. The new entry unseals,
/// under any keys matching the sealing public key, to the rebuilt payload.
/// Fails `NotFound` exactly when the entry is absent, `DecryptionError` when
/// the envelope does not unseal, and `InsertionError` when the new secret or
/// a change does not fit the payload line format. When the commit cannot be
/// recorded the old content is written back; only when that write-back
/// itself fails is the rewrite left uncommitted, flagged by the catch-all
/// internal kind.
pub fn edit_credential<F: CredentialFs, L: Ledger>(
    fs: &mut F,
    ledger: &mut L,
    name: &str,
    gpg_password: &str,
    password: Option<&str>,
    metadata: Option<&Vec<(String, Option<String>)>>,
    rsa_pub_key: &str,
    private_key: &str,
) -> (r: Result<(), Error>)
    ensures
        !old(fs).entries().contains_key(name@) ==> (r matches Err(e) && e.kind
            == ErrorKind::NotFound && final(fs).entries() == old(fs).entries()
            && final(ledger).history() == old(ledger).history()),
        old(fs).entries().contains_key(name@) ==> match r {
            Ok(_) => {
                &&& wf_edit_inputs(password, metadata)
                &&& (unseal_of(private_key@, gpg_password@, old(fs).entries()[name@])
                    matches Some(cur) && (exists|ct: Seq<u8>|
                    {
                        &&& final(fs).entries() == old(fs).entries().insert(name@, ct)
                        &&& (forall|sk: Seq<char>, pw: Seq<char>|
                            keypair_matches(sk, pw, rsa_pub_key@) ==> (unseal_of(sk, pw, ct)
                                matches Some(p) && first_line(p) == edited_secret(
                                cur,
                                given_secret(password),
                            ) && map_of_pairs(parsed_pairs(p)) == apply_changes(
                                map_of_pairs(parsed_pairs(cur)),
                                given_changes(metadata),
                            ) && unique_keys(parsed_pairs(p))))
                    }))
                &&& final(ledger).history() == old(ledger).history().push(
                    (CommitView {
                        message: update_message(name@),
                        additions: seq![name@],
                        removals: Seq::<Seq<char>>::empty(),
                    }),
                )
            },
            Err(e) => {
                &&& final(ledger).history() == old(ledger).history()
                &&& (final(fs).entries() == old(fs).entries() || (e.kind == ErrorKind::Internal
                    && exists|ct: Seq<u8>|
                    final(fs).entries() == old(fs).entries().insert(name@, ct)))
                &&& e.kind != ErrorKind::NotFound
                &&& (e.kind == ErrorKind::DecryptionError ==> unseal_of(
                    private_key@,
                    gpg_password@,
                    old(fs).entries()[name@],
                ) is None)
                &&& (unseal_of(private_key@, gpg_password@, old(fs).entries()[name@]) is None
                    ==> e.kind == ErrorKind::DecryptionError || e.kind == ErrorKind::Internal)
                &&& (e.kind == ErrorKind::InsertionError ==> !wf_edit_inputs(password, metadata))
            },
        },
{
    let data = match fs.read(name) {
        Ok(d) => d,
        Err(FsFailure::NotFound) => {
            return Err(Error::new(ErrorKind::NotFound, "no credential found for this name"));
        },
        Err(_) => {
            return Err(Error::new(ErrorKind::Internal, "the credential entry could not be read"));
        },
    };
    let current = match crate::crypto::decrypt(&data, gpg_password, private_key) {
        Ok(p) => p,
        Err(e) => {
            return Err(e);
        },
    };
    let ghost cur = current@;
    let rebuilt: String = match metadata {
        Some(m) => {
            match rebuild_payload(current.as_str(), password, m) {
                Ok(p) => {
                    proof {
                        assert(first_line(p@) == edited_secret(cur, given_secret(password)));
                        assert(map_of_pairs(parsed_pairs(p@)) == apply_changes(
                            map_of_pairs(parsed_pairs(cur)),
                            given_changes(metadata),
                        ));
                        assert(unique_keys(parsed_pairs(p@)));
                        assert(wf_edit_inputs(password, metadata));
                    }
                    p
                },
                Err(e) => {
                    proof {
                        assert(!wf_edit_inputs(password, metadata));
                    }
                    return Err(e);
                },
            }
        },
        None => {
            let empty: Vec<(String, Option<String>)> = Vec::new();
            proof {
                assert(empty.deep_view() =~= Seq::<(Seq<char>, Option<Seq<char>>)>::empty());
            }
            match rebuild_payload(current.as_str(), password, &empty) {
                Ok(p) => {
                    proof {
                        assert(first_line(p@) == edited_secret(cur, given_secret(password)));
                        assert(map_of_pairs(parsed_pairs(p@)) == apply_changes(
                            map_of_pairs(parsed_pairs(cur)),
                            given_changes(metadata),
                        ));
                        assert(unique_keys(parsed_pairs(p@)));
                        assert(wf_edit_inputs(password, metadata));
                    }
                    p
                },
                Err(e) => {
                    proof {
                        assert(!wf_edit_inputs(password, metadata));
                    }
                    return Err(e);
                },
            }
        },
    };
    let ciphertext = match crate::crypto::encrypt(rebuilt.as_str(), rsa_pub_key) {
        Ok(ct) => ct,
        Err(e) => {
            return Err(e);
        },
    };
    match fs.replace(name, &ciphertext) {
        Ok(_) => {},
        Err(f) => {
            return Err(fs_failure_error(f, "failed to rewrite the credential entry"));
        },
    }
    let additions = vec![name.to_owned()];
    let removals: Vec<String> = Vec::new();
    let message = build_update_message(name);
    proof {
        assert(additions.deep_view() =~= seq![name@]);
        assert(removals.deep_view() =~= Seq::<Seq<char>>::empty());
    }
    match ledger.commit(&additions, &removals, message.as_str()) {
        Ok(_) => {
            proof {
                assert(fs.entries() == old(fs).entries().insert(name@, ciphertext@));
                assert forall|sk: Seq<char>, pw: Seq<char>|
                    keypair_matches(sk, pw, rsa_pub_key@) implies (unseal_of(sk, pw, ciphertext@)
                    matches Some(p) && first_line(p) == edited_secret(cur, given_secret(password))
                    && map_of_pairs(parsed_pairs(p)) == apply_changes(
                    map_of_pairs(parsed_pairs(cur)),
                    given_changes(metadata),
                ) && unique_keys(parsed_pairs(p))) by {
                    assert(unseal_of(sk, pw, ciphertext@) == Some(rebuilt@));
                }
            }
            Ok(())
        },
        Err(e) => {
            match fs.replace(name, &data) {
                Ok(_) => {
                    proof {
                        assert(fs.entries() =~= old(fs).entries());
                    }
                    Err(e)
                },
                Err(_) => Err(
                    Error::new(
                        ErrorKind::Internal,
                        "the credential entry was rewritten but the update could not be committed or undone",
                    ),
                ),
            }
        },
    }
}

/// Removes a credential: the entry is deleted and the deletion committed as
/// `remove "<name>"`. Fails `NotFound` exactly when no entry carries the
/// name. When the commit cannot be recorded the entry is written back, so
/// that tree and ledger never diverge; only when that write-back itself
/// fails is the deletion left uncommitted, flagged by the catch-all internal
/// kind.
pub fn remove_credential<F: CredentialFs, L: Ledger>(fs: &mut F, ledger: &mut L, name: &str) -> (r:
    Result<(), Error>)
    ensures
        match r {
            Ok(_) => {
                &&& old(fs).entries().contains_key(name@)
                &&& final(fs).entries() == old(fs).entries().remove(name@)
                &&& final(ledger).history() == old(ledger).history().push(
                    (CommitView {
                        message: remove_message(name@),
                        additions: Seq::<Seq<char>>::empty(),
                        removals: seq![name@],
                    }),
                )
            },
            Err(e) => {
                &&& final(ledger).history() == old(ledger).history()
                &&& (e.kind == ErrorKind::NotFound <==> !old(fs).entries().contains_key(name@))
                &&& (final(fs).entries() == old(fs).entries() || (e.kind == ErrorKind::Internal
                    && final(fs).entries() == old(fs).entries().remove(name@)))
            },
        },
{
    let data = match fs.read(name) {
        Ok(d) => d,
        Err(FsFailure::NotFound) => {
            return Err(Error::new(ErrorKind::NotFound, "no credential found for this name"));
        },
        Err(_) => {
            return Err(Error::new(ErrorKind::Internal, "the credential entry could not be read"));
        },
    };
    match fs.remove(name) {
        Ok(_) => {},
        Err(f) => {
            return Err(fs_failure_error(f, "failed to remove the credential entry"));
        },
    }
    let additions: Vec<String> = Vec::new();
    let removals = vec![name.to_owned()];
    let message = build_remove_message(name);
    proof {
        assert(additions.deep_view() =~= Seq::<Seq<char>>::empty());
        assert(removals.deep_view() =~= seq![name@]);
    }
    match ledger.commit(&additions, &removals, message.as_str()) {
        Ok(_) => Ok(()),
        Err(e) => {
            match fs.create(name, &data) {
                Ok(_) => {
                    proof {
                        assert(fs.entries() =~= old(fs).entries());
                    }
                    Err(e)
                },
                Err(_) => Err(
                    Error::new(
                        ErrorKind::Internal,
                        "the credential entry was removed but the removal could not be committed or undone",
                    ),
                ),
            }
        },
    }
}

/// Moves a credential to a new name: the entry is renamed and the move
/// committed as `move <target> to <destination>`, staging the destination as
/// an addition and the target as a removal. Fails `NotFound` exactly when the
/// target is absent; an existing distinct destination is rejected with
/// `AlreadyExists` rather than overwritten. When the commit cannot be
/// recorded the entry is renamed back; only when that itself fails is the
/// move left uncommitted, flagged by the catch-all internal kind.
pub fn move_credential<F: CredentialFs, L: Ledger>(
    fs: &mut F,
    ledger: &mut L,
    target: &str,
    destination: &str,
) -> (r: Result<(), Error>)
    ensures
        match r {
            Ok(_) => {
                &&& old(fs).entries().contains_key(target@)
                &&& final(fs).entries() == old(fs).entries().remove(target@).insert(
                    destination@,
                    old(fs).entries()[target@],
                )
                &&& final(ledger).history() == old(ledger).history().push(
                    (CommitView {
                        message: move_message(target@, destination@),
                        additions: seq![destination@],
                        removals: seq![target@],
                    }),
                )
            },
            Err(e) => {
                &&& final(ledger).history() == old(ledger).history()
                &&& (e.kind == ErrorKind::NotFound <==> !old(fs).entries().contains_key(target@))
                &&& (old(fs).entries().contains_key(target@) && old(fs).entries().contains_key(
                    destination@,
                ) && target@ != destination@ ==> e.kind == ErrorKind::AlreadyExists)
                &&& (e.kind == ErrorKind::AlreadyExists ==> old(fs).entries().contains_key(
                    destination@,
                ))
                &&& (final(fs).entries() == old(fs).entries() || (e.kind == ErrorKind::Internal
                    && final(fs).entries() == old(fs).entries().remove(target@).insert(
                    destination@,
                    old(fs).entries()[target@],
                )))
            },
        },
{
    if !fs.contains(target) {
        return Err(Error::new(ErrorKind::NotFound, "no credential found for this name"));
    }
    let same_name = target.to_owned().eq(&destination.to_owned());
    if !same_name && fs.contains(destination) {
        return Err(
            Error::new(ErrorKind::AlreadyExists, "a credential already exists at the destination"),
        );
    }
    match fs.rename(target, destination) {
        Ok(_) => {},
        Err(f) => {
            return Err(fs_failure_error(f, "failed to move the credential entry"));
        },
    }
    let additions = vec![destination.to_owned()];
    let removals = vec![target.to_owned()];
    let message = build_move_message(target, destination);
    proof {
        assert(additions.deep_view() =~= seq![destination@]);
        assert(removals.deep_view() =~= seq![target@]);
    }
    match ledger.commit(&additions, &removals, message.as_str()) {
        Ok(_) => Ok(()),
        Err(e) => {
            match fs.rename(destination, target) {
                Ok(_) => {
                    proof {
                        assert(fs.entries() =~= old(fs).entries());
                    }
                    Err(e)
                },
                Err(_) => Err(
                    Error::new(
                        ErrorKind::Internal,
                        "the credential entry was moved but the move could not be committed or undone",
                    ),
                ),
            }
        },
    }
}

} // verus!
