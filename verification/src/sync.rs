//! The fetch merge decision: after fetching, the local and remote tips are
//! compared and merge analysis decides between doing nothing, fast-forwarding
//! the local branch, and a normal merge. The decision is a pure function
//! here; the model below states what it does to a linear history.

use vstd::prelude::*;

verus! {

/// What merge analysis reports of the fetched remote branch against the
/// local one.
#[derive(Clone, Copy, Debug, PartialEq, Eq, Structural)]
pub enum MergeKind {
    UpToDate,
    FastForward,
    Normal,
    Other,
}

/// What a fetch decides to do once the tips are compared.
#[derive(Clone, Copy, Debug, PartialEq, Eq, Structural)]
pub enum FetchAction {
    Nothing,
    FastForward,
    Merge,
}

/// The fetch decision: identical tips need nothing; otherwise fast-forward
/// when eligible, a normal merge when the histories diverged, and nothing in
/// the remaining cases.
pub open spec fn spec_fetch_decision(tips_equal: bool, analysis: MergeKind) -> FetchAction {
    if tips_equal {
        FetchAction::Nothing
    } else {
        match analysis {
            MergeKind::FastForward => FetchAction::FastForward,
            MergeKind::Normal => FetchAction::Merge,
            _ => FetchAction::Nothing,
        }
    }
}

pub fn fetch_decision(tips_equal: bool, analysis: MergeKind) -> (r: FetchAction)
    ensures
        r == spec_fetch_decision(tips_equal, analysis),
{
    if tips_equal {
        FetchAction::Nothing
    } else {
        match analysis {
            MergeKind::FastForward => FetchAction::FastForward,
            MergeKind::Normal => FetchAction::Merge,
            _ => FetchAction::Nothing,
        }
    }
}

/// Whether two commit identities are the same.
pub fn oid_bytes_equal(a: &Vec<u8>, b: &Vec<u8>) -> (r: bool)
    ensures
        r == (a@ == b@),
{
    if a.len() != b.len() {
        proof {
            assert(a@ != b@);
        }
        return false;
    }
    let mut i: usize = 0;
    while i < a.len()
        invariant
            0 <= i <= a@.len(),
            a@.len() == b@.len(),
            forall|j: int| 0 <= j < i ==> a@[j] == b@[j],
        decreases a.len() - i,
    {
        if a[i] != b[i] {
            proof {
                assert(a@ != b@);
            }
            return false;
        }
        i = i + 1;
    }
    proof {
        assert(a@ =~= b@);
    }
    true
}

// ---------------------------------------------------------------------------
// The model: what the decision does to a linear history
// ---------------------------------------------------------------------------

/// A branch history is modelled as the sequence of its commit identities,
/// oldest first; its tip is the last. One history is an ancestor of another
/// when it is a prefix of it.
pub open spec fn is_prefix_of(a: Seq<Seq<u8>>, b: Seq<Seq<u8>>) -> bool {
    a.len() <= b.len() && a == b.subrange(0, a.len() as int)
}

/// What merge analysis reports for two linear histories: up to date when the
/// remote history is already contained in the local one, fast-forward when
/// the local history is an ancestor of the remote one, a normal merge when
/// the two diverged.
pub open spec fn analysis_of(local: Seq<Seq<u8>>, remote: Seq<Seq<u8>>) -> MergeKind {
    if is_prefix_of(remote, local) {
        MergeKind::UpToDate
    } else if is_prefix_of(local, remote) {
        MergeKind::FastForward
    } else {
        MergeKind::Normal
    }
}

/// The local history after a fetch: unchanged when nothing is to be done,
/// the remote history after a fast-forward. A normal merge is delegated to
/// the underlying merge machinery and moves no branch here.
pub open spec fn fetch_step(local: Seq<Seq<u8>>, remote: Seq<Seq<u8>>) -> Seq<Seq<u8>> {
    match spec_fetch_decision(local == remote, analysis_of(local, remote)) {
        FetchAction::Nothing => local,
        FetchAction::FastForward => remote,
        FetchAction::Merge => local,
    }
}

/// Law: a fetch that finds the local and remote histories identical decides
/// to do nothing, and the local history is exactly what it was.
pub proof fn lemma_fetch_identical_tips(local: Seq<Seq<u8>>)
    ensures
        spec_fetch_decision(true, analysis_of(local, local)) == FetchAction::Nothing,
        fetch_step(local, local) == local,
{
}

/// Law: histories that have diverged, neither an ancestor of the other, go
/// to the underlying merge machinery, and the local branch is not moved by
/// the decision itself.
pub proof fn lemma_fetch_diverged(local: Seq<Seq<u8>>, remote: Seq<Seq<u8>>)
    requires
        !is_prefix_of(local, remote),
        !is_prefix_of(remote, local),
    ensures
        analysis_of(local, remote) == MergeKind::Normal,
        spec_fetch_decision(local == remote, analysis_of(local, remote)) == FetchAction::Merge,
        fetch_step(local, remote) == local,
{
    assert(local != remote) by {
        if local == remote {
            assert(local =~= remote.subrange(0, local.len() as int));
        }
    }
}

/// Law: a fetch that finds the local history a strict ancestor of the remote
/// one fast-forwards, and afterwards the local history, and with it its tip,
/// equals the remote one exactly.
pub proof fn lemma_fetch_fast_forward(local: Seq<Seq<u8>>, remote: Seq<Seq<u8>>)
    requires
        is_prefix_of(local, remote),
        local.len() < remote.len(),
    ensures
        analysis_of(local, remote) == MergeKind::FastForward,
        fetch_step(local, remote) == remote,
{
    assert(!is_prefix_of(remote, local));
    assert(local != remote) by {
        if local == remote {
            assert(local.len() == remote.len());
        }
    }
}

} // verus!
