//! Prepared-net revision chains.
use vstd::prelude::*;

use crate::keyed::TextMap;
use crate::text::{same_text, text_of};

verus! {

#[derive(Clone, Debug, PartialEq, Eq)]
pub struct NetRevision {
    pub artifact_id: String,
    pub body_hash: String,
    pub net_id: String,
    pub revision: u64,
    pub previous_revision_hash: Option<String>,
    pub effective_at_ms: u64,
    pub expires_at_ms: Option<u64>,
}

#[derive(Clone, Debug, PartialEq, Eq)]
pub enum ApplyRevision {
    Applied,
    Duplicate,
    Fork {
        expected_revision: u64,
        expected_predecessor: Option<String>,
        received_revision: u64,
        received_predecessor: Option<String>,
    },
}

#[derive(Clone, Copy, Debug, PartialEq, Eq, Structural)]
pub enum NetError {
    NetMismatch,
    ArtifactConflict,
    RevisionZero,
    InitialPredecessor,
    NotEffective,
    Expired,
}

#[derive(Clone, Debug, PartialEq, Eq)]
pub struct NetRevisionChain {
    net_id: String,
    head: Option<NetRevision>,
    artifacts: TextMap<String>,
}

/// The derived state of a revision chain.
pub struct NetChainView {
    pub net_id: Seq<char>,
    pub head: Option<NetRevision>,
    pub artifacts: Map<Seq<char>, String>,
}

/// Whether an optional expiry has passed at `now_ms`.
pub open spec fn has_expired(expires_at_ms: Option<u64>, now_ms: u64) -> bool {
    match expires_at_ms {
        Some(expiry) => now_ms >= expiry,
        None => false,
    }
}

pub fn expired_at(expires_at_ms: Option<u64>, now_ms: u64) -> (r: bool)
    ensures
        r == has_expired(expires_at_ms, now_ms),
{
    match expires_at_ms {
        Some(expiry) => now_ms >= expiry,
        None => false,
    }
}

/// The revision number and predecessor hash a chain expects next.
pub open spec fn expected_next(head: Option<NetRevision>) -> (u64, Option<String>) {
    match head {
        None => (1, None),
        Some(h) => ((h.revision + 1) as u64, Some(h.body_hash)),
    }
}

/// Applying one verified revision: the result and the state afterwards.
///
/// Checks run in order: net identity, artifact reuse (duplicate or
/// conflict), revision zero, effective time, expiry, initial predecessor,
/// then linearity. A revision that does not extend the head is reported as a
/// fork and never replaces the head; only `Applied` changes the state.
pub open spec fn net_apply(s: NetChainView, revision: NetRevision, now_ms: u64) -> (Result<ApplyRevision, NetError>, NetChainView) {
    if revision.net_id@ != s.net_id {
        (Err(NetError::NetMismatch), s)
    } else if s.artifacts.contains_key(revision.artifact_id@) {
        if s.artifacts[revision.artifact_id@]@ == revision.body_hash@ {
            (Ok(ApplyRevision::Duplicate), s)
        } else {
            (Err(NetError::ArtifactConflict), s)
        }
    } else if revision.revision == 0 {
        (Err(NetError::RevisionZero), s)
    } else if revision.effective_at_ms > now_ms {
        (Err(NetError::NotEffective), s)
    } else if has_expired(revision.expires_at_ms, now_ms) {
        (Err(NetError::Expired), s)
    } else if s.head is None && revision.revision == 1 && revision.previous_revision_hash is Some {
        (Err(NetError::InitialPredecessor), s)
    } else {
        let (expected_revision, expected_predecessor) = expected_next(s.head);
        if revision.revision != expected_revision || text_of(revision.previous_revision_hash) != text_of(
            expected_predecessor,
        ) {
            (
                Ok(
                    ApplyRevision::Fork {
                        expected_revision,
                        expected_predecessor,
                        received_revision: revision.revision,
                        received_predecessor: revision.previous_revision_hash,
                    },
                ),
                s,
            )
        } else {
            (
                Ok(ApplyRevision::Applied),
                NetChainView {
                    net_id: s.net_id,
                    head: Some(revision),
                    artifacts: s.artifacts.insert(revision.artifact_id@, revision.body_hash),
                },
            )
        }
    }
}

impl NetRevisionChain {
    pub closed spec fn wf(&self) -> bool {
        &&& self.artifacts.wf()
        &&& match self.head {
            None => self.artifacts.pairs().len() == 0,
            Some(h) => h.revision == self.artifacts.pairs().len(),
        }
    }

    pub closed spec fn view_state(&self) -> NetChainView {
        NetChainView { net_id: self.net_id@, head: self.head, artifacts: self.artifacts.view_map() }
    }

    /// The number of revisions applied so far.
    pub closed spec fn applied_count(&self) -> nat {
        self.artifacts.pairs().len()
    }

    /// In a well-formed chain the head's revision number is the number of
    /// revisions applied (and there is no head before the first).
    pub proof fn lemma_head_revision_is_count(&self)
        requires
            self.wf(),
        ensures
            match self.view_state().head {
                Some(h) => h.revision == self.applied_count(),
                None => self.applied_count() == 0,
            },
    {
    }

    /// The number of revisions applied so far; `apply` needs it below
    /// `usize::MAX`.
    pub fn revisions_applied(&self) -> (r: usize)
        ensures
            r == self.applied_count(),
    {
        self.artifacts.len()
    }

    pub fn new(net_id: &str) -> (r: Self)
        ensures
            r.wf(),
            r.view_state().net_id == net_id@,
            r.view_state().head is None,
            r.view_state().artifacts == Map::<Seq<char>, String>::empty(),
            r.applied_count() == 0,
    {
        NetRevisionChain { net_id: String::from_str(net_id), head: None, artifacts: TextMap::new() }
    }

    pub fn head(&self) -> (r: Option<&NetRevision>)
        ensures
            match r {
                Some(h) => self.view_state().head == Some(*h),
                None => self.view_state().head is None,
            },
    {
        self.head.as_ref()
    }

    /// Applies one verified revision without resolving forks by arrival time.
    pub fn apply(&mut self, revision: NetRevision, now_ms: u64) -> (r: Result<ApplyRevision, NetError>)
        requires
            old(self).wf(),
            old(self).applied_count() < usize::MAX,
        ensures
            final(self).wf(),
            (r, final(self).view_state()) == net_apply(old(self).view_state(), revision, now_ms),
            final(self).applied_count() == old(self).applied_count() + if r == Ok::<ApplyRevision, NetError>(ApplyRevision::Applied) { 1nat } else { 0nat },
    {
        if revision.net_id != self.net_id {
            return Err(NetError::NetMismatch);
        }
        match self.artifacts.get(&revision.artifact_id) {
            Some(hash) => {
                return if *hash == revision.body_hash {
                    Ok(ApplyRevision::Duplicate)
                } else {
                    Err(NetError::ArtifactConflict)
                };
            },
            None => {},
        }
        if revision.revision == 0 {
            return Err(NetError::RevisionZero);
        }
        if revision.effective_at_ms > now_ms {
            return Err(NetError::NotEffective);
        }
        if expired_at(revision.expires_at_ms, now_ms) {
            return Err(NetError::Expired);
        }
        let (expected_revision, expected_predecessor) = match &self.head {
            None => (1u64, None),
            Some(head) => (head.revision + 1, Some(head.body_hash.clone())),
        };
        if self.head.is_none() && revision.revision == 1 && revision.previous_revision_hash.is_some() {
            return Err(NetError::InitialPredecessor);
        }
        if revision.revision != expected_revision || !same_text(
            &revision.previous_revision_hash,
            &expected_predecessor,
        ) {
            return Ok(
                ApplyRevision::Fork {
                    expected_revision,
                    expected_predecessor,
                    received_revision: revision.revision,
                    received_predecessor: revision.previous_revision_hash,
                },
            );
        }
        self.artifacts.insert_new(revision.artifact_id.clone(), revision.body_hash.clone());
        self.head = Some(revision);
        Ok(ApplyRevision::Applied)
    }
}

/// Re-applying a revision that was applied is an idempotent duplicate, at
/// any later evaluation time, and changes nothing.
pub proof fn law_net_reapply_is_duplicate(s: NetChainView, revision: NetRevision, now_ms: u64, later_ms: u64)
    requires
        net_apply(s, revision, now_ms).0 == Ok::<ApplyRevision, NetError>(ApplyRevision::Applied),
    ensures
        net_apply(net_apply(s, revision, now_ms).1, revision, later_ms) == (
            Ok::<ApplyRevision, NetError>(ApplyRevision::Duplicate),
            net_apply(s, revision, now_ms).1,
        ),
{
}

/// Only an applied revision changes the derived state: rejected revisions,
/// duplicates and forks leave the head and the artifact index as they were.
pub proof fn law_net_only_applied_changes_state(s: NetChainView, revision: NetRevision, now_ms: u64)
    requires
        net_apply(s, revision, now_ms).0 != Ok::<ApplyRevision, NetError>(ApplyRevision::Applied),
    ensures
        net_apply(s, revision, now_ms).1 == s,
{
}

/// An applied revision becomes the head and extends the chain linearly: its
/// number is one past the previous head's (or one for the first) and it
/// names the previous head's body hash as predecessor (or none).
pub proof fn law_net_applied_extends_head(s: NetChainView, revision: NetRevision, now_ms: u64)
    requires
        s.head matches Some(h) ==> h.revision < u64::MAX,
        net_apply(s, revision, now_ms).0 == Ok::<ApplyRevision, NetError>(ApplyRevision::Applied),
    ensures
        net_apply(s, revision, now_ms).1.head == Some(revision),
        match s.head {
            None => revision.revision == 1 && revision.previous_revision_hash is None,
            Some(h) => revision.revision == h.revision + 1 && text_of(revision.previous_revision_hash) == Some(
                h.body_hash@,
            ),
        },
{
    if s.head is None {
        assert(expected_next(s.head) == (1u64, None::<String>));
        assert(text_of(revision.previous_revision_hash) == text_of(None));
    }
}

/// Two different children of the same head cannot both be applied: once one
/// is applied, the other is reported as a fork, whatever order they arrive in.
pub proof fn law_net_competing_children_fork(
    s: NetChainView,
    first: NetRevision,
    second: NetRevision,
    now_ms: u64,
    later_ms: u64,
)
    requires
        net_apply(s, first, now_ms).0 == Ok::<ApplyRevision, NetError>(ApplyRevision::Applied),
        net_apply(s, second, later_ms).0 == Ok::<ApplyRevision, NetError>(ApplyRevision::Applied),
        first.artifact_id@ != second.artifact_id@,
        first.revision < u64::MAX,
    ensures
        net_apply(net_apply(s, first, now_ms).1, second, later_ms).0 matches Ok(ApplyRevision::Fork { .. }),
{
    let s1 = net_apply(s, first, now_ms).1;
    assert(s1.head == Some(first));
    assert(!s1.artifacts.contains_key(second.artifact_id@));
    assert(second.revision == first.revision);
    assert(expected_next(s1.head).0 == first.revision + 1);
}

} // verus!
