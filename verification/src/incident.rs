//! Deterministic incident transition state machine.
use vstd::prelude::*;

use crate::keyed::TextMap;
use crate::net::{expired_at, has_expired};
use crate::text::{same_text, text_of};

verus! {

#[derive(Clone, Copy, Debug, PartialEq, Eq, Structural)]
pub enum IncidentState {
    Planned,
    Active,
    Monitoring,
    Closed,
    Cancelled,
}

pub open spec fn terminal(state: IncidentState) -> bool {
    state == IncidentState::Closed || state == IncidentState::Cancelled
}

impl IncidentState {
    /// Closed and cancelled are terminal for an incident.
    pub fn is_terminal(self) -> (r: bool)
        ensures
            r == terminal(self),
    {
        matches!(self, Self::Closed | Self::Cancelled)
    }
}

/// The permitted lifecycle edges: planned to active or cancelled; active to
/// monitoring, closed or cancelled; monitoring back to active, or to closed
/// or cancelled.
pub open spec fn lifecycle_edge(from: IncidentState, to: IncidentState) -> bool {
    match (from, to) {
        (IncidentState::Planned, IncidentState::Active) => true,
        (IncidentState::Planned, IncidentState::Cancelled) => true,
        (IncidentState::Active, IncidentState::Monitoring) => true,
        (IncidentState::Active, IncidentState::Closed) => true,
        (IncidentState::Active, IncidentState::Cancelled) => true,
        (IncidentState::Monitoring, IncidentState::Active) => true,
        (IncidentState::Monitoring, IncidentState::Closed) => true,
        (IncidentState::Monitoring, IncidentState::Cancelled) => true,
        _ => false,
    }
}

fn valid_edge(from: IncidentState, to: IncidentState) -> (r: bool)
    ensures
        r == lifecycle_edge(from, to),
{
    match (from, to) {
        (IncidentState::Planned, IncidentState::Active) => true,
        (IncidentState::Planned, IncidentState::Cancelled) => true,
        (IncidentState::Active, IncidentState::Monitoring) => true,
        (IncidentState::Active, IncidentState::Closed) => true,
        (IncidentState::Active, IncidentState::Cancelled) => true,
        (IncidentState::Monitoring, IncidentState::Active) => true,
        (IncidentState::Monitoring, IncidentState::Closed) => true,
        (IncidentState::Monitoring, IncidentState::Cancelled) => true,
        _ => false,
    }
}

#[derive(Clone, Debug, PartialEq, Eq)]
pub struct IncidentTransition {
    pub artifact_id: String,
    pub body_hash: String,
    pub incident_id: String,
    pub previous_transition_hash: Option<String>,
    pub state: IncidentState,
    pub occurred_at_ms: u64,
    pub expires_at_ms: Option<u64>,
}

#[derive(Clone, Debug, PartialEq, Eq)]
pub enum ApplyTransition {
    Applied,
    Duplicate,
    Fork { expected: Option<String>, received: Option<String> },
}

#[derive(Clone, Copy, Debug, PartialEq, Eq, Structural)]
pub enum IncidentError {
    IncidentMismatch,
    ArtifactConflict,
    Terminal(IncidentState),
    InvalidTransition { from: IncidentState, to: IncidentState },
    Expired,
}

#[derive(Clone, Debug, PartialEq, Eq)]
pub struct IncidentChain {
    incident_id: String,
    head: Option<IncidentTransition>,
    artifacts: TextMap<String>,
}

/// The derived state of an incident chain.
pub struct IncidentChainView {
    pub incident_id: Seq<char>,
    pub head: Option<IncidentTransition>,
    pub artifacts: Map<Seq<char>, String>,
}

/// The predecessor hash a chain expects next: the head's body hash.
pub open spec fn expected_predecessor(head: Option<IncidentTransition>) -> Option<String> {
    match head {
        Some(h) => Some(h.body_hash),
        None => None,
    }
}

/// Applying one verified transition: the result and the state afterwards.
///
/// Checks run in order: incident identity, artifact reuse (duplicate or
/// conflict), expiry, predecessor (a mismatch is a fork), terminal head,
/// lifecycle edge (the first transition must be planned or active). Only
/// `Applied` changes the state.
pub open spec fn incident_apply(s: IncidentChainView, t: IncidentTransition, now_ms: u64) -> (
    Result<ApplyTransition, IncidentError>,
    IncidentChainView,
) {
    if t.incident_id@ != s.incident_id {
        (Err(IncidentError::IncidentMismatch), s)
    } else if s.artifacts.contains_key(t.artifact_id@) {
        if s.artifacts[t.artifact_id@]@ == t.body_hash@ {
            (Ok(ApplyTransition::Duplicate), s)
        } else {
            (Err(IncidentError::ArtifactConflict), s)
        }
    } else if has_expired(t.expires_at_ms, now_ms) {
        (Err(IncidentError::Expired), s)
    } else if text_of(t.previous_transition_hash) != text_of(expected_predecessor(s.head)) {
        (
            Ok(
                ApplyTransition::Fork {
                    expected: expected_predecessor(s.head),
                    received: t.previous_transition_hash,
                },
            ),
            s,
        )
    } else {
        match s.head {
            Some(h) => if terminal(h.state) {
                (Err(IncidentError::Terminal(h.state)), s)
            } else if !lifecycle_edge(h.state, t.state) {
                (Err(IncidentError::InvalidTransition { from: h.state, to: t.state }), s)
            } else {
                (Ok(ApplyTransition::Applied), incident_applied(s, t))
            },
            None => if t.state != IncidentState::Planned && t.state != IncidentState::Active {
                (Err(IncidentError::InvalidTransition { from: IncidentState::Planned, to: t.state }), s)
            } else {
                (Ok(ApplyTransition::Applied), incident_applied(s, t))
            },
        }
    }
}

pub open spec fn incident_applied(s: IncidentChainView, t: IncidentTransition) -> IncidentChainView {
    IncidentChainView {
        incident_id: s.incident_id,
        head: Some(t),
        artifacts: s.artifacts.insert(t.artifact_id@, t.body_hash),
    }
}

impl IncidentChain {
    pub closed spec fn wf(&self) -> bool {
        self.artifacts.wf()
    }

    pub closed spec fn view_state(&self) -> IncidentChainView {
        IncidentChainView { incident_id: self.incident_id@, head: self.head, artifacts: self.artifacts.view_map() }
    }

    pub fn new(incident_id: &str) -> (r: Self)
        ensures
            r.wf(),
            r.view_state().incident_id == incident_id@,
            r.view_state().head is None,
            r.view_state().artifacts == Map::<Seq<char>, String>::empty(),
    {
        IncidentChain {
            incident_id: String::from_str(incident_id),
            head: None,
            artifacts: TextMap::new(),
        }
    }

    pub fn head(&self) -> (r: Option<&IncidentTransition>)
        ensures
            match r {
                Some(h) => self.view_state().head == Some(*h),
                None => self.view_state().head is None,
            },
    {
        self.head.as_ref()
    }

    /// Applies a verified transition to the derived chain.
    pub fn apply(&mut self, transition: IncidentTransition, now_ms: u64) -> (r: Result<
        ApplyTransition,
        IncidentError,
    >)
        requires
            old(self).wf(),
        ensures
            final(self).wf(),
            (r, final(self).view_state()) == incident_apply(old(self).view_state(), transition, now_ms),
    {
        if transition.incident_id != self.incident_id {
            return Err(IncidentError::IncidentMismatch);
        }
        match self.artifacts.get(&transition.artifact_id) {
            Some(hash) => {
                return if *hash == transition.body_hash {
                    Ok(ApplyTransition::Duplicate)
                } else {
                    Err(IncidentError::ArtifactConflict)
                };
            },
            None => {},
        }
        if expired_at(transition.expires_at_ms, now_ms) {
            return Err(IncidentError::Expired);
        }
        let expected = match &self.head {
            Some(head) => Some(head.body_hash.clone()),
            None => None,
        };
        if !same_text(&transition.previous_transition_hash, &expected) {
            return Ok(ApplyTransition::Fork { expected, received: transition.previous_transition_hash });
        }
        match &self.head {
            Some(head) => {
                if head.state.is_terminal() {
                    return Err(IncidentError::Terminal(head.state));
                }
                if !valid_edge(head.state, transition.state) {
                    return Err(IncidentError::InvalidTransition { from: head.state, to: transition.state });
                }
            },
            None => {
                if transition.state != IncidentState::Planned && transition.state != IncidentState::Active {
                    return Err(
                        IncidentError::InvalidTransition { from: IncidentState::Planned, to: transition.state },
                    );
                }
            },
        }
        self.artifacts.insert_new(transition.artifact_id.clone(), transition.body_hash.clone());
        self.head = Some(transition);
        Ok(ApplyTransition::Applied)
    }
}

/// A terminal incident never changes again under the same identifier: no
/// transition is applied once the head is closed or cancelled.
pub proof fn law_terminal_incident_is_final(s: IncidentChainView, t: IncidentTransition, now_ms: u64)
    requires
        s.head matches Some(h) && terminal(h.state),
    ensures
        incident_apply(s, t, now_ms).0 != Ok::<ApplyTransition, IncidentError>(ApplyTransition::Applied),
        incident_apply(s, t, now_ms).1 == s,
{
}

/// Every applied transition follows the lifecycle: from the head's state
/// along a permitted edge, or, for the first transition, into planned or
/// active; and it names the head's body hash as predecessor.
pub proof fn law_applied_transition_follows_lifecycle(s: IncidentChainView, t: IncidentTransition, now_ms: u64)
    requires
        incident_apply(s, t, now_ms).0 == Ok::<ApplyTransition, IncidentError>(ApplyTransition::Applied),
    ensures
        incident_apply(s, t, now_ms).1.head == Some(t),
        match s.head {
            Some(h) => !terminal(h.state) && lifecycle_edge(h.state, t.state) && text_of(
                t.previous_transition_hash,
            ) == Some(h.body_hash@),
            None => (t.state == IncidentState::Planned || t.state == IncidentState::Active) && text_of(
                t.previous_transition_hash,
            ) is None,
        },
{
}

/// Only an applied transition changes the derived state.
pub proof fn law_incident_only_applied_changes_state(s: IncidentChainView, t: IncidentTransition, now_ms: u64)
    requires
        incident_apply(s, t, now_ms).0 != Ok::<ApplyTransition, IncidentError>(ApplyTransition::Applied),
    ensures
        incident_apply(s, t, now_ms).1 == s,
{
}

/// Re-applying an applied transition is an idempotent duplicate.
pub proof fn law_incident_reapply_is_duplicate(s: IncidentChainView, t: IncidentTransition, now_ms: u64, later_ms: u64)
    requires
        incident_apply(s, t, now_ms).0 == Ok::<ApplyTransition, IncidentError>(ApplyTransition::Applied),
    ensures
        incident_apply(incident_apply(s, t, now_ms).1, t, later_ms) == (
            Ok::<ApplyTransition, IncidentError>(ApplyTransition::Duplicate),
            incident_apply(s, t, now_ms).1,
        ),
{
}

/// Two different children of the same head cannot both be applied: once one
/// is applied, the other names a predecessor that is no longer the head and
/// is reported as a fork, whatever order they arrive in. (A child whose body
/// hash repeated its parent's would leave the expected predecessor as it was.)
pub proof fn law_incident_competing_children_fork(
    s: IncidentChainView,
    first: IncidentTransition,
    second: IncidentTransition,
    now_ms: u64,
    later_ms: u64,
)
    requires
        incident_apply(s, first, now_ms).0 == Ok::<ApplyTransition, IncidentError>(ApplyTransition::Applied),
        incident_apply(s, second, later_ms).0 == Ok::<ApplyTransition, IncidentError>(ApplyTransition::Applied),
        first.artifact_id@ != second.artifact_id@,
        s.head matches Some(h) ==> first.body_hash@ != h.body_hash@,
    ensures
        incident_apply(incident_apply(s, first, now_ms).1, second, later_ms).0 matches Ok(ApplyTransition::Fork { .. }),
{
    let s1 = incident_apply(s, first, now_ms).1;
    assert(s1.head == Some(first));
    assert(!s1.artifacts.contains_key(second.artifact_id@));
    assert(text_of(expected_predecessor(s1.head)) == Some(first.body_hash@));
}

/// The incident lifecycle, for a transition that names this incident, is new,
/// is unexpired and names the head as predecessor: it is applied exactly
/// along planned → active or cancelled, active → monitoring, closed or
/// cancelled, and monitoring → active, closed or cancelled (and, as the
/// first transition, into planned or active). From a closed or cancelled
/// head it is refused as terminal; along any other edge it is refused as an
/// invalid transition naming both states.
pub proof fn law_incident_lifecycle_edges(s: IncidentChainView, t: IncidentTransition, now_ms: u64)
    requires
        t.incident_id@ == s.incident_id,
        !s.artifacts.contains_key(t.artifact_id@),
        !has_expired(t.expires_at_ms, now_ms),
        text_of(t.previous_transition_hash) == match s.head {
            Some(h) => Some(h.body_hash@),
            None => None,
        },
    ensures
        match s.head {
            None => if t.state == IncidentState::Planned || t.state == IncidentState::Active {
                incident_apply(s, t, now_ms).0 == Ok::<ApplyTransition, IncidentError>(ApplyTransition::Applied)
            } else {
                incident_apply(s, t, now_ms).0 == Err::<ApplyTransition, IncidentError>(
                    IncidentError::InvalidTransition { from: IncidentState::Planned, to: t.state },
                )
            },
            Some(h) => if h.state == IncidentState::Closed || h.state == IncidentState::Cancelled {
                incident_apply(s, t, now_ms).0 == Err::<ApplyTransition, IncidentError>(IncidentError::Terminal(h.state))
            } else if (h.state == IncidentState::Planned && (t.state == IncidentState::Active || t.state
                == IncidentState::Cancelled)) || (h.state == IncidentState::Active && (t.state == IncidentState::Monitoring
                || t.state == IncidentState::Closed || t.state == IncidentState::Cancelled)) || (h.state
                == IncidentState::Monitoring && (t.state == IncidentState::Active || t.state == IncidentState::Closed
                || t.state == IncidentState::Cancelled)) {
                incident_apply(s, t, now_ms).0 == Ok::<ApplyTransition, IncidentError>(ApplyTransition::Applied)
            } else {
                incident_apply(s, t, now_ms).0 == Err::<ApplyTransition, IncidentError>(
                    IncidentError::InvalidTransition { from: h.state, to: t.state },
                )
            },
        },
{
}

} // verus!
