//! Deterministic report correction, retraction, and expiry derivation.
use vstd::prelude::*;

use crate::keyed::{keys_distinct, lemma_map_of_domain, lemma_map_of_lookup, map_of, TextMap};
use crate::net::{expired_at, has_expired};

verus! {

#[derive(Clone, Copy, Debug, PartialEq, Eq, Structural)]
pub enum ReportOperation {
    Publish,
    Correct,
    Retract,
}

#[derive(Clone, Debug, PartialEq, Eq)]
pub struct ReportArtifact {
    pub artifact_id: String,
    pub body_hash: String,
    pub operation: ReportOperation,
    pub target_body_hash: Option<String>,
    pub created_at_ms: u64,
    pub expires_at_ms: Option<u64>,
}

#[derive(Clone, Copy, Debug, PartialEq, Eq, Structural)]
pub enum ReportStatus {
    Current,
    Corrected,
    Retracted,
    Expired,
}

#[derive(Clone, Debug, PartialEq, Eq)]
pub struct ReportView {
    pub body_hash: String,
    pub status: ReportStatus,
    pub superseded_by: Option<String>,
}

#[derive(Clone, Copy, Debug, PartialEq, Eq, Structural)]
pub enum ReportError {
    ArtifactConflict,
    UnexpectedTarget,
    MissingTarget,
    TargetRetracted,
    OperationExpired,
}

#[derive(Clone, Debug, PartialEq, Eq)]
pub struct ReportLedger {
    artifacts: TextMap<String>,
    reports: TextMap<ReportView>,
    expiries: TextMap<u64>,
}

/// The derived state of a report ledger: artifact identifiers to body
/// hashes, body hashes to report views, and body hashes to expiry times.
pub struct LedgerView {
    pub artifacts: Map<Seq<char>, String>,
    pub reports: Map<Seq<char>, ReportView>,
    pub expiries: Map<Seq<char>, u64>,
}

/// Applying one verified report artifact: the result (`true` when it was
/// newly applied, `false` for an idempotent duplicate) and the state after.
///
/// A publication records a current report (already expired when its expiry
/// has passed) and its expiry. A correction or retraction marks an existing,
/// not yet retracted, target as corrected or retracted, links it to the new
/// body hash, and records the new body as a current report. Nothing is ever
/// deleted.
pub open spec fn report_apply(s: LedgerView, a: ReportArtifact, now_ms: u64) -> (Result<bool, ReportError>, LedgerView) {
    if s.artifacts.contains_key(a.artifact_id@) {
        if s.artifacts[a.artifact_id@]@ == a.body_hash@ {
            (Ok(false), s)
        } else {
            (Err(ReportError::ArtifactConflict), s)
        }
    } else if a.operation != ReportOperation::Publish && has_expired(a.expires_at_ms, now_ms) {
        (Err(ReportError::OperationExpired), s)
    } else if a.operation == ReportOperation::Publish {
        if a.target_body_hash is Some {
            (Err(ReportError::UnexpectedTarget), s)
        } else {
            let view = ReportView {
                body_hash: a.body_hash,
                status: if has_expired(a.expires_at_ms, now_ms) {
                    ReportStatus::Expired
                } else {
                    ReportStatus::Current
                },
                superseded_by: None,
            };
            (
                Ok(true),
                LedgerView {
                    artifacts: s.artifacts.insert(a.artifact_id@, a.body_hash),
                    reports: s.reports.insert(a.body_hash@, view),
                    expiries: match a.expires_at_ms {
                        Some(expiry) => s.expiries.insert(a.body_hash@, expiry),
                        None => s.expiries,
                    },
                },
            )
        }
    } else {
        match a.target_body_hash {
            None => (Err(ReportError::MissingTarget), s),
            Some(target) => if !s.reports.contains_key(target@) {
                (Err(ReportError::MissingTarget), s)
            } else if s.reports[target@].status == ReportStatus::Retracted {
                (Err(ReportError::TargetRetracted), s)
            } else {
                let superseded = ReportView {
                    body_hash: s.reports[target@].body_hash,
                    status: if a.operation == ReportOperation::Correct {
                        ReportStatus::Corrected
                    } else {
                        ReportStatus::Retracted
                    },
                    superseded_by: Some(a.body_hash),
                };
                let replacement = ReportView {
                    body_hash: a.body_hash,
                    status: ReportStatus::Current,
                    superseded_by: None,
                };
                (
                    Ok(true),
                    LedgerView {
                        artifacts: s.artifacts.insert(a.artifact_id@, a.body_hash),
                        reports: s.reports.insert(target@, superseded).insert(a.body_hash@, replacement),
                        expiries: s.expiries,
                    },
                )
            },
        }
    }
}

/// Whether the report for `hash` expires at `now_ms`: it has a recorded
/// expiry that has passed and it is still current.
pub open spec fn expires_now(s: LedgerView, hash: Seq<char>, now_ms: u64) -> bool {
    &&& s.expiries.contains_key(hash)
    &&& now_ms >= s.expiries[hash]
    &&& s.reports.contains_key(hash)
    &&& s.reports[hash].status == ReportStatus::Current
}

/// The reports after deriving expiry at `now_ms`: current reports whose
/// recorded expiry has passed become expired; nothing else changes.
pub open spec fn reports_after_expiry(s: LedgerView, now_ms: u64) -> Map<Seq<char>, ReportView> {
    Map::new(
        |k: Seq<char>| s.reports.contains_key(k),
        |k: Seq<char>|
            if expires_now(s, k, now_ms) {
                ReportView { body_hash: s.reports[k].body_hash, status: ReportStatus::Expired, superseded_by: s.reports[k].superseded_by }
            } else {
                s.reports[k]
            },
    )
}

impl ReportLedger {
    pub closed spec fn wf(&self) -> bool {
        &&& self.artifacts.wf()
        &&& self.reports.wf()
        &&& self.expiries.wf()
    }

    pub closed spec fn view_state(&self) -> LedgerView {
        LedgerView {
            artifacts: self.artifacts.view_map(),
            reports: self.reports.view_map(),
            expiries: self.expiries.view_map(),
        }
    }

    /// An empty ledger.
    pub fn new() -> (r: Self)
        ensures
            r.wf(),
            r.view_state().artifacts == Map::<Seq<char>, String>::empty(),
            r.view_state().reports == Map::<Seq<char>, ReportView>::empty(),
            r.view_state().expiries == Map::<Seq<char>, u64>::empty(),
    {
        ReportLedger { artifacts: TextMap::new(), reports: TextMap::new(), expiries: TextMap::new() }
    }

    /// Applies one verified report artifact idempotently.
    pub fn apply(&mut self, artifact: ReportArtifact, now_ms: u64) -> (r: Result<bool, ReportError>)
        requires
            old(self).wf(),
        ensures
            final(self).wf(),
            (r, final(self).view_state()) == report_apply(old(self).view_state(), artifact, now_ms),
    {
        match self.artifacts.get(&artifact.artifact_id) {
            Some(hash) => {
                return if *hash == artifact.body_hash {
                    Ok(false)
                } else {
                    Err(ReportError::ArtifactConflict)
                };
            },
            None => {},
        }
        if artifact.operation != ReportOperation::Publish && expired_at(artifact.expires_at_ms, now_ms) {
            return Err(ReportError::OperationExpired);
        }
        if artifact.operation == ReportOperation::Publish {
            if artifact.target_body_hash.is_some() {
                return Err(ReportError::UnexpectedTarget);
            }
            let status = if expired_at(artifact.expires_at_ms, now_ms) {
                ReportStatus::Expired
            } else {
                ReportStatus::Current
            };
            self.reports.upsert(
                artifact.body_hash.clone(),
                ReportView { body_hash: artifact.body_hash.clone(), status, superseded_by: None },
            );
            match artifact.expires_at_ms {
                Some(expiry) => {
                    self.expiries.upsert(artifact.body_hash.clone(), expiry);
                },
                None => {},
            }
        } else {
            let target_hash = match &artifact.target_body_hash {
                Some(target) => target,
                None => {
                    return Err(ReportError::MissingTarget);
                },
            };
            let index = match self.reports.find(target_hash) {
                Some(index) => index,
                None => {
                    return Err(ReportError::MissingTarget);
                },
            };
            let target = self.reports.value_at(index);
            if target.status == ReportStatus::Retracted {
                return Err(ReportError::TargetRetracted);
            }
            let superseded = ReportView {
                body_hash: target.body_hash.clone(),
                status: if artifact.operation == ReportOperation::Correct {
                    ReportStatus::Corrected
                } else {
                    ReportStatus::Retracted
                },
                superseded_by: Some(artifact.body_hash.clone()),
            };
            self.reports.set_value_at(index, superseded);
            self.reports.upsert(
                artifact.body_hash.clone(),
                ReportView { body_hash: artifact.body_hash.clone(), status: ReportStatus::Current, superseded_by: None },
            );
        }
        self.artifacts.insert_new(artifact.artifact_id, artifact.body_hash);
        Ok(true)
    }

    /// Derives expiry at `now_ms`: every current report whose recorded
    /// expiry has passed becomes expired.
    pub fn evaluate_expiry(&mut self, now_ms: u64)
        requires
            old(self).wf(),
        ensures
            final(self).wf(),
            final(self).view_state().artifacts == old(self).view_state().artifacts,
            final(self).view_state().expiries == old(self).view_state().expiries,
            final(self).view_state().reports == reports_after_expiry(old(self).view_state(), now_ms),
    {
        let ghost start = self.view_state();
        let ghost keys = self.expiries.pairs();
        proof {
            self.expiries.lemma_view();
        }
        let mut i: usize = 0;
        while i < self.expiries.len()
            invariant
                self.wf(),
                self.expiries.pairs() == keys,
                keys_distinct(keys),
                start.expiries == map_of(keys),
                self.view_state().artifacts == start.artifacts,
                self.view_state().expiries == start.expiries,
                i <= keys.len(),
                self.view_state().reports.dom() == start.reports.dom(),
                forall|k: Seq<char>| #[trigger] self.view_state().reports.contains_key(k) ==> self.view_state().reports[k] == if (
                exists|j: int| 0 <= j < i && (#[trigger] keys[j]).0@ == k) && expires_now(start, k, now_ms) {
                    ReportView { body_hash: start.reports[k].body_hash, status: ReportStatus::Expired, superseded_by: start.reports[k].superseded_by }
                } else {
                    start.reports[k]
                },
            decreases keys.len() - i,
        {
            let expiry = *self.expiries.value_at(i);
            let ghost key = keys[i as int].0@;
            proof {
                lemma_map_of_lookup(keys, i as int);
                assert forall|j: int| 0 <= j < i implies (#[trigger] keys[j]).0@ != key by {}
            }
            if now_ms >= expiry {
                match self.reports.find(self.expiries.key_at(i)) {
                    Some(index) => {
                        let report = self.reports.value_at(index);
                        if report.status == ReportStatus::Current {
                            let expired = ReportView {
                                body_hash: report.body_hash.clone(),
                                status: ReportStatus::Expired,
                                superseded_by: match &report.superseded_by {
                                    Some(next) => Some(next.clone()),
                                    None => None,
                                },
                            };
                            self.reports.set_value_at(index, expired);
                        }
                    },
                    None => {},
                }
            }
            i = i + 1;
        }
        proof {
            assert forall|k: Seq<char>| #[trigger] self.view_state().reports.contains_key(k) implies (exists|j: int| 0 <= j < keys.len() && (#[trigger] keys[j]).0@ == k) == start.expiries.contains_key(k) by {
                if start.expiries.contains_key(k) {
                    lemma_map_of_domain(keys, k);
                }
                if exists|j: int| 0 <= j < keys.len() && (#[trigger] keys[j]).0@ == k {
                    let j = choose|j: int| 0 <= j < keys.len() && (#[trigger] keys[j]).0@ == k;
                    lemma_map_of_lookup(keys, j);
                }
            }
            assert(self.view_state().reports =~= reports_after_expiry(start, now_ms));
        }
    }

    /// The derived view of the report with this body hash, if any.
    pub fn get(&self, body_hash: &str) -> (r: Option<&ReportView>)
        requires
            self.wf(),
        ensures
            match r {
                Some(v) => self.view_state().reports.contains_key(body_hash@) && self.view_state().reports[body_hash@]
                    == *v,
                None => !self.view_state().reports.contains_key(body_hash@),
            },
    {
        let key = String::from_str(body_hash);
        self.reports.get(&key)
    }
}

impl Default for ReportLedger {
    fn default() -> (r: Self)
        ensures
            r.wf(),
            r.view_state().artifacts == Map::<Seq<char>, String>::empty(),
            r.view_state().reports == Map::<Seq<char>, ReportView>::empty(),
            r.view_state().expiries == Map::<Seq<char>, u64>::empty(),
    {
        ReportLedger::new()
    }
}

/// Reports are never deleted: applying an artifact and deriving expiry keep
/// every report already in the ledger.
pub proof fn law_reports_are_never_deleted(s: LedgerView, a: ReportArtifact, now_ms: u64, hash: Seq<char>)
    requires
        s.reports.contains_key(hash),
    ensures
        report_apply(s, a, now_ms).1.reports.contains_key(hash),
        reports_after_expiry(s, now_ms).contains_key(hash),
{
}

/// Re-applying an applied artifact is an idempotent duplicate.
pub proof fn law_report_reapply_is_duplicate(s: LedgerView, a: ReportArtifact, now_ms: u64, later_ms: u64)
    requires
        report_apply(s, a, now_ms).0 == Ok::<bool, ReportError>(true),
    ensures
        report_apply(report_apply(s, a, now_ms).1, a, later_ms) == (
            Ok::<bool, ReportError>(false),
            report_apply(s, a, now_ms).1,
        ),
{
}

/// Only a newly applied artifact changes the ledger.
pub proof fn law_report_only_applied_changes_state(s: LedgerView, a: ReportArtifact, now_ms: u64)
    requires
        report_apply(s, a, now_ms).0 != Ok::<bool, ReportError>(true),
    ensures
        report_apply(s, a, now_ms).1 == s,
{
}

/// A correction or retraction preserves the earlier report: the target stays in
/// the ledger, marked corrected or retracted and linked to its replacement,
/// and the replacement is current.
pub proof fn law_correction_links_replacement(s: LedgerView, a: ReportArtifact, now_ms: u64)
    requires
        report_apply(s, a, now_ms).0 == Ok::<bool, ReportError>(true),
        a.operation != ReportOperation::Publish,
        a.target_body_hash matches Some(t) && t@ != a.body_hash@,
    ensures
        ({
            let t = a.target_body_hash->0@;
            let after = report_apply(s, a, now_ms).1.reports;
            &&& after.contains_key(t)
            &&& after[t].status == if a.operation == ReportOperation::Correct {
                ReportStatus::Corrected
            } else {
                ReportStatus::Retracted
            }
            &&& after[t].superseded_by == Some(a.body_hash)
            &&& after[a.body_hash@].status == ReportStatus::Current
        }),
{
}

/// A retraction is final: a retracted report stays retracted through later
/// artifacts (unless one reuses its exact body hash) and expiry derivation.
pub proof fn law_retraction_is_final(s: LedgerView, a: ReportArtifact, now_ms: u64, hash: Seq<char>)
    requires
        s.reports.contains_key(hash),
        s.reports[hash].status == ReportStatus::Retracted,
        a.body_hash@ != hash,
    ensures
        report_apply(s, a, now_ms).1.reports[hash].status == ReportStatus::Retracted,
        reports_after_expiry(s, now_ms)[hash].status == ReportStatus::Retracted,
{
}

/// Deriving expiry twice at the same time is the same as deriving it once.
pub proof fn law_expiry_is_idempotent(s: LedgerView, now_ms: u64)
    ensures
        reports_after_expiry(
            LedgerView { artifacts: s.artifacts, reports: reports_after_expiry(s, now_ms), expiries: s.expiries },
            now_ms,
        ) == reports_after_expiry(s, now_ms),
{
    let once = reports_after_expiry(s, now_ms);
    let twice = reports_after_expiry(
        LedgerView { artifacts: s.artifacts, reports: once, expiries: s.expiries },
        now_ms,
    );
    assert(twice =~= once);
}

/// The empty ledger.
pub open spec fn empty_ledger() -> LedgerView {
    LedgerView {
        artifacts: Map::<Seq<char>, String>::empty(),
        reports: Map::<Seq<char>, ReportView>::empty(),
        expiries: Map::<Seq<char>, u64>::empty(),
    }
}

/// The ledger after applying a history of artifacts, each with the time it
/// was evaluated at, to an empty ledger.
pub open spec fn ledger_after(history: Seq<(ReportArtifact, u64)>) -> LedgerView
    decreases history.len(),
{
    if history.len() == 0 {
        empty_ledger()
    } else {
        report_apply(ledger_after(history.drop_last()), history.last().0, history.last().1).1
    }
}

/// The `i`-th artifact of a history was newly applied (`Ok(true)`).
pub open spec fn accepted_at(history: Seq<(ReportArtifact, u64)>, i: int) -> bool {
    &&& 0 <= i < history.len()
    &&& report_apply(ledger_after(history.take(i)), history[i].0, history[i].1).0 == Ok::<bool, ReportError>(true)
}

/// Some artifact of the history with this identifier and body hash was newly
/// applied.
pub open spec fn accepted_with(history: Seq<(ReportArtifact, u64)>, id: Seq<char>, hash: Seq<char>) -> bool {
    exists|i: int| #[trigger] accepted_at(history, i) && history[i].0.artifact_id@ == id && history[i].0.body_hash@ == hash
}

proof fn lemma_artifacts_record_acceptances(history: Seq<(ReportArtifact, u64)>)
    ensures
        forall|id: Seq<char>, hash: Seq<char>|
            #[trigger] accepted_with(history, id, hash) <==> (ledger_after(history).artifacts.contains_key(id)
                && ledger_after(history).artifacts[id]@ == hash),
    decreases history.len(),
{
    if history.len() > 0 {
        let n = history.len() - 1;
        let init = history.drop_last();
        let (a, t) = history.last();
        lemma_artifacts_record_acceptances(init);
        let before = ledger_after(init);
        assert(history.take(n) =~= init);
        assert forall|i: int| 0 <= i < n implies #[trigger] accepted_at(history, i) == accepted_at(init, i) by {
            assert(history.take(i) =~= init.take(i));
            assert(history[i] == init[i]);
        }
        let step = report_apply(before, a, t);
        assert forall|id: Seq<char>, hash: Seq<char>|
            #[trigger] accepted_with(history, id, hash) <==> (ledger_after(history).artifacts.contains_key(id)
                && ledger_after(history).artifacts[id]@ == hash) by {
            if accepted_with(history, id, hash) {
                let i = choose|i: int|
                    #[trigger] accepted_at(history, i) && history[i].0.artifact_id@ == id && history[i].0.body_hash@
                        == hash;
                if i < n {
                    assert(accepted_at(init, i) && init[i].0.artifact_id@ == id && init[i].0.body_hash@ == hash);
                    assert(accepted_with(init, id, hash));
                    if step.0 == Ok::<bool, ReportError>(true) {
                        assert(before.artifacts.contains_key(id));
                        assert(id != a.artifact_id@);
                    }
                }
            }
            if ledger_after(history).artifacts.contains_key(id) && ledger_after(history).artifacts[id]@ == hash {
                if step.0 == Ok::<bool, ReportError>(true) && id == a.artifact_id@ {
                    assert(accepted_at(history, n));
                } else {
                    if step.0 != Ok::<bool, ReportError>(true) {
                        law_report_only_applied_changes_state(before, a, t);
                    }
                    assert(accepted_with(init, id, hash));
                    let i = choose|i: int|
                        #[trigger] accepted_at(init, i) && init[i].0.artifact_id@ == id && init[i].0.body_hash@ == hash;
                    assert(accepted_at(history, i));
                }
            }
        }
    }
}

/// What applying an artifact answers is decided by the ledger's history: it
/// is an idempotent duplicate exactly when an earlier artifact with the same
/// identifier and body hash was newly applied, and an artifact conflict
/// exactly when one with the same identifier and another body hash was; in
/// both cases, and on every error, the ledger is left as it was.
pub proof fn law_report_outcome_follows_history(history: Seq<(ReportArtifact, u64)>, a: ReportArtifact, now_ms: u64)
    ensures
        report_apply(ledger_after(history), a, now_ms).0 == Ok::<bool, ReportError>(false) <==> accepted_with(
            history,
            a.artifact_id@,
            a.body_hash@,
        ),
        report_apply(ledger_after(history), a, now_ms).0 == Err::<bool, ReportError>(ReportError::ArtifactConflict)
            <==> exists|hash: Seq<char>| hash != a.body_hash@ && #[trigger] accepted_with(history, a.artifact_id@, hash),
        report_apply(ledger_after(history), a, now_ms).0 != Ok::<bool, ReportError>(true) ==> report_apply(
            ledger_after(history),
            a,
            now_ms,
        ).1 == ledger_after(history),
{
    lemma_artifacts_record_acceptances(history);
    let s = ledger_after(history);
    let id = a.artifact_id@;
    if s.artifacts.contains_key(id) {
        let recorded = s.artifacts[id]@;
        assert(accepted_with(history, id, recorded));
    }
}

/// Expiry only ever retires current reports: deriving expiry at `now_ms`
/// keeps every report, leaves corrected, retracted and already-expired
/// reports exactly as they were, marks a current report expired (keeping its
/// body hash and link) exactly when it has a recorded expiry that has
/// passed, and leaves every other current report as it was.
pub proof fn law_expiry_retires_only_current_reports(s: LedgerView, now_ms: u64, hash: Seq<char>)
    requires
        s.reports.contains_key(hash),
    ensures
        reports_after_expiry(s, now_ms).contains_key(hash),
        s.reports[hash].status != ReportStatus::Current ==> reports_after_expiry(s, now_ms)[hash] == s.reports[hash],
        s.reports[hash].status == ReportStatus::Current ==> if s.expiries.contains_key(hash) && now_ms
            >= s.expiries[hash] {
            reports_after_expiry(s, now_ms)[hash] == (ReportView {
                body_hash: s.reports[hash].body_hash,
                status: ReportStatus::Expired,
                superseded_by: s.reports[hash].superseded_by,
            })
        } else {
            reports_after_expiry(s, now_ms)[hash] == s.reports[hash]
        },
{
}

} // verus!
