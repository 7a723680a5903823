//! Deterministic emission posture and disclosure-policy evaluation.
use vstd::prelude::*;

use crate::text::{code_points, text_of, lemma_lex_lt_asymmetric, lemma_lex_lt_irreflexive, lemma_lex_lt_total, lemma_lex_lt_transitive, lex_lt, str_lt, text_lt};

verus! {

#[derive(Clone, Copy, Debug, PartialEq, Eq, Structural, PartialOrd, Ord, Hash)]
pub enum Posture {
    Routine,
    Elevated,
    Restricted,
    Silent,
}

#[derive(Clone, Copy, Debug, PartialEq, Eq, Structural, PartialOrd, Ord, Hash)]
pub enum EnforcementLevel {
    Advisory,
    ClientGuarded,
    DaemonEnforced,
    HardwareReceiveOnly,
}

#[derive(Clone, Copy, Debug, PartialEq, Eq, Structural, PartialOrd, Ord, Hash)]
pub enum DisclosureClass {
    Public,
    Operational,
    Confidential,
}

#[derive(Clone, Copy, Debug, PartialEq, Eq, Structural)]
pub enum Confidentiality {
    Unprotected,
    Link,
    EndToEnd,
}

#[derive(Clone, Copy, Debug, PartialEq, Eq, Structural)]
pub enum ActorAuthorization {
    Authorized,
    Unauthorized,
    Unknown,
}

#[derive(Clone, Debug, PartialEq, Eq)]
pub struct PostureDirective {
    pub posture: Posture,
    pub issued_at_ms: u64,
    pub expires_at_ms: Option<u64>,
    pub priority: u16,
    pub issuer: String,
    pub authorization: ActorAuthorization,
    pub requires_confirmation: bool,
    pub confirmed: bool,
}

#[derive(Clone, Copy, Debug, PartialEq, Eq, Structural)]
pub struct BearerFacts {
    pub can_transmit: bool,
    pub confidentiality: Confidentiality,
    pub enforcement: EnforcementLevel,
}

#[derive(Clone, Copy, Debug, PartialEq, Eq, Structural)]
pub struct EmissionRequest {
    pub disclosure: DisclosureClass,
    pub emergency: bool,
    pub operator_confirmed: bool,
}

#[derive(Clone, Copy, Debug, PartialEq, Eq, Structural)]
pub enum PolicyOutcome {
    Permit,
    Deny,
    RequireConfirmation,
    Indeterminate,
}

#[derive(Clone, Copy, Debug, PartialEq, Eq, Structural)]
pub enum ReasonCode {
    AuthorizedDirective,
    NoApplicableDirective,
    AuthorizationUnknown,
    ConfirmationRequired,
    SilentPosture,
    RestrictedPosture,
    BearerCannotTransmit,
    ConfidentialityUnavailable,
    EmergencyConfirmed,
    InvalidExtensionClaim,
    ExtensionRestricted,
}

#[derive(Clone, Debug, PartialEq, Eq)]
pub struct PolicyDecision {
    pub outcome: PolicyOutcome,
    pub reason: ReasonCode,
    pub effective_posture: Posture,
    pub enforcement: EnforcementLevel,
    pub selected_issuer: Option<String>,
}

/// The mathematical content of a [`PolicyDecision`].
pub struct DecisionView {
    pub outcome: PolicyOutcome,
    pub reason: ReasonCode,
    pub effective_posture: Posture,
    pub enforcement: EnforcementLevel,
    pub selected_issuer: Option<Seq<char>>,
}

impl View for PolicyDecision {
    type V = DecisionView;

    open spec fn view(&self) -> DecisionView {
        DecisionView {
            outcome: self.outcome,
            reason: self.reason,
            effective_posture: self.effective_posture,
            enforcement: self.enforcement,
            selected_issuer: text_of(self.selected_issuer),
        }
    }
}

/// A directive is fresh when it has been issued and has not yet expired.
pub open spec fn is_fresh(d: PostureDirective, now_ms: u64) -> bool {
    &&& d.issued_at_ms <= now_ms
    &&& match d.expires_at_ms {
        Some(expiry) => now_ms < expiry,
        None => true,
    }
}

/// A directive can determine posture when it is fresh and authorized.
pub open spec fn is_eligible(d: PostureDirective, now_ms: u64) -> bool {
    is_fresh(d, now_ms) && d.authorization == ActorAuthorization::Authorized
}

/// `a` takes strict precedence over `b`: higher priority, then newer issue
/// time, then the lexicographically smaller issuer.
pub open spec fn precedes(a: PostureDirective, b: PostureDirective) -> bool {
    ||| a.priority > b.priority
    ||| a.priority == b.priority && a.issued_at_ms > b.issued_at_ms
    ||| a.priority == b.priority && a.issued_at_ms == b.issued_at_ms && text_lt(a.issuer@, b.issuer@)
}

/// Index `i` is the applicable directive: it is eligible, no eligible
/// directive precedes it, and it precedes every later eligible directive
/// (so among equal-ranked directives the last one is chosen).
pub open spec fn is_selected(ds: Seq<PostureDirective>, now_ms: u64, i: int) -> bool {
    &&& 0 <= i < ds.len()
    &&& is_eligible(ds[i], now_ms)
    &&& forall|j: int| 0 <= j < ds.len() && is_eligible(ds[j], now_ms) ==> !precedes(#[trigger] ds[j], ds[i])
    &&& forall|j: int| i < j < ds.len() && is_eligible(#[trigger] ds[j], now_ms) ==> precedes(ds[i], ds[j])
}

pub open spec fn any_eligible(ds: Seq<PostureDirective>, now_ms: u64) -> bool {
    exists|j: int| 0 <= j < ds.len() && is_eligible(#[trigger] ds[j], now_ms)
}

pub open spec fn any_fresh_unknown(ds: Seq<PostureDirective>, now_ms: u64) -> bool {
    exists|j: int| 0 <= j < ds.len() && is_fresh(#[trigger] ds[j], now_ms) && ds[j].authorization == ActorAuthorization::Unknown
}

/// Which directive applies: the selected index, no directive, or the reason
/// why none can be determined.
pub open spec fn directive_choice(ds: Seq<PostureDirective>, now_ms: u64) -> Result<Option<int>, ReasonCode> {
    if any_eligible(ds, now_ms) {
        Ok(Some(choose|i: int| is_selected(ds, now_ms, i)))
    } else if any_fresh_unknown(ds, now_ms) {
        Err(ReasonCode::AuthorizationUnknown)
    } else {
        Ok(None)
    }
}

pub proof fn lemma_precedes_asymmetric(a: PostureDirective, b: PostureDirective)
    requires
        precedes(a, b),
    ensures
        !precedes(b, a),
{
    if a.priority == b.priority && a.issued_at_ms == b.issued_at_ms {
        lemma_lex_lt_asymmetric(code_points(a.issuer@), code_points(b.issuer@));
    }
}

pub proof fn lemma_precedes_transitive(a: PostureDirective, b: PostureDirective, c: PostureDirective)
    requires
        precedes(a, b),
        precedes(b, c),
    ensures
        precedes(a, c),
{
    if a.priority == b.priority && b.priority == c.priority && a.issued_at_ms == b.issued_at_ms
        && b.issued_at_ms == c.issued_at_ms {
        lemma_lex_lt_transitive(code_points(a.issuer@), code_points(b.issuer@), code_points(c.issuer@));
    }
}

/// Two directives that neither precede the other rank equally.
pub proof fn lemma_precedes_total(a: PostureDirective, b: PostureDirective)
    ensures
        precedes(a, b) || precedes(b, a) || (a.priority == b.priority && a.issued_at_ms == b.issued_at_ms
            && code_points(a.issuer@) == code_points(b.issuer@)),
{
    lemma_lex_lt_total(code_points(a.issuer@), code_points(b.issuer@));
}

/// At most one index is selected.
pub proof fn lemma_selected_unique(ds: Seq<PostureDirective>, now_ms: u64, i: int, j: int)
    requires
        is_selected(ds, now_ms, i),
        is_selected(ds, now_ms, j),
    ensures
        i == j,
{
    if i < j {
        assert(precedes(ds[i], ds[j]));
    } else if j < i {
        assert(precedes(ds[j], ds[i]));
    }
}

fn fresh(d: &PostureDirective, now_ms: u64) -> (r: bool)
    ensures
        r == is_fresh(*d, now_ms),
{
    d.issued_at_ms <= now_ms && match d.expires_at_ms {
        Some(expiry) => now_ms < expiry,
        None => true,
    }
}

fn takes_precedence(a: &PostureDirective, b: &PostureDirective) -> (r: bool)
    ensures
        r == precedes(*a, *b),
{
    if a.priority != b.priority {
        a.priority > b.priority
    } else if a.issued_at_ms != b.issued_at_ms {
        a.issued_at_ms > b.issued_at_ms
    } else {
        str_lt(a.issuer.as_str(), b.issuer.as_str())
    }
}

/// Finds the applicable directive by index.
fn select_index(directives: &[PostureDirective], now_ms: u64) -> (r: (Option<usize>, bool))
    ensures
        match r.0 {
            Some(i) => is_selected(directives@, now_ms, i as int),
            None => !any_eligible(directives@, now_ms),
        },
        r.1 == any_fresh_unknown(directives@, now_ms),
{
    let ghost ds = directives@;
    let mut best: Option<usize> = None;
    let mut saw_unknown = false;
    let mut k: usize = 0;
    while k < directives.len()
        invariant
            ds == directives@,
            k <= ds.len(),
            saw_unknown == exists|j: int| 0 <= j < k && is_fresh(#[trigger] ds[j], now_ms) && ds[j].authorization == ActorAuthorization::Unknown,
            match best {
                Some(b) => {
                    &&& b < k
                    &&& is_eligible(ds[b as int], now_ms)
                    &&& forall|j: int| 0 <= j < k && is_eligible(ds[j], now_ms) ==> !precedes(#[trigger] ds[j], ds[b as int])
                    &&& forall|j: int| b < j < k && is_eligible(#[trigger] ds[j], now_ms) ==> precedes(ds[b as int], ds[j])
                },
                None => forall|j: int| 0 <= j < k ==> !is_eligible(#[trigger] ds[j], now_ms),
            },
        decreases ds.len() - k,
    {
        let d = &directives[k];
        let is_fresh_now = fresh(d, now_ms);
        if is_fresh_now && d.authorization == ActorAuthorization::Unknown {
            saw_unknown = true;
        }
        if is_fresh_now && d.authorization == ActorAuthorization::Authorized {
            match best {
                None => {
                    proof {
                        lemma_lex_lt_irreflexive(code_points(ds[k as int].issuer@));
                    }
                    best = Some(k);
                },
                Some(b) => {
                    if takes_precedence(&directives[b], d) {
                        proof {
                            lemma_precedes_asymmetric(ds[b as int], ds[k as int]);
                        }
                    } else {
                        proof {
                            assert forall|j: int| 0 <= j < k + 1 && is_eligible(ds[j], now_ms) implies !precedes(
                                #[trigger] ds[j],
                                ds[k as int],
                            ) by {
                                if j == k {
                                    lemma_lex_lt_irreflexive(code_points(ds[k as int].issuer@));
                                } else if j != b && precedes(ds[j], ds[k as int]) {
                                    lemma_precedes_total(ds[k as int], ds[b as int]);
                                    if precedes(ds[k as int], ds[b as int]) {
                                        lemma_precedes_transitive(ds[j], ds[k as int], ds[b as int]);
                                    }
                                }
                            }
                        }
                        best = Some(k);
                    }
                },
            }
        }
        k = k + 1;
    }
    (best, saw_unknown)
}

/// Selects the applicable directive using deterministic precedence.
///
/// Unauthorized, expired, and not-yet-issued directives are ignored. Among
/// authorized directives, higher priority wins, then newer issue time, then
/// lexicographically smaller issuer as a deterministic tie-breaker.
/// `Err(AuthorizationUnknown)` is returned when a fresh directive has unknown
/// authorization and no authorized directive can determine posture.
pub fn select_directive(directives: &[PostureDirective], now_ms: u64) -> (r: Result<
    Option<&PostureDirective>,
    ReasonCode,
>)
    ensures
        match directive_choice(directives@, now_ms) {
            Ok(Some(i)) => r == Ok::<Option<&PostureDirective>, ReasonCode>(Some(&directives@[i])),
            Ok(None) => r == Ok::<Option<&PostureDirective>, ReasonCode>(None),
            Err(reason) => r == Err::<Option<&PostureDirective>, ReasonCode>(reason),
        },
{
    let (best, saw_unknown) = select_index(directives, now_ms);
    match best {
        Some(i) => {
            proof {
                let c = choose|j: int| is_selected(directives@, now_ms, j);
                lemma_selected_unique(directives@, now_ms, c, i as int);
            }
            Ok(Some(&directives[i]))
        },
        None => {
            if saw_unknown {
                Err(ReasonCode::AuthorizationUnknown)
            } else {
                Ok(None)
            }
        },
    }
}

pub open spec fn decision_view(
    outcome: PolicyOutcome,
    reason: ReasonCode,
    posture: Posture,
    enforcement: EnforcementLevel,
    issuer: Option<Seq<char>>,
) -> DecisionView {
    DecisionView { outcome, reason, effective_posture: posture, enforcement, selected_issuer: issuer }
}

/// The decision for one emission request, given the applicable directive.
///
/// Checks run in this order: unknown authorization, unconfirmed directive,
/// bearer transmit capability, confidentiality, silent posture, restricted
/// posture (emergency with operator confirmation permits), then permit.
/// The reported enforcement is always the bearer's own.
pub open spec fn emission_decision(
    ds: Seq<PostureDirective>,
    bearer: BearerFacts,
    request: EmissionRequest,
    now_ms: u64,
) -> DecisionView {
    match directive_choice(ds, now_ms) {
        Err(reason) => decision_view(PolicyOutcome::Indeterminate, reason, Posture::Restricted, bearer.enforcement, None),
        Ok(choice) => {
            let posture = match choice {
                Some(i) => ds[i].posture,
                None => Posture::Routine,
            };
            let issuer = match choice {
                Some(i) => Some(ds[i].issuer@),
                None => None,
            };
            let unconfirmed = match choice {
                Some(i) => ds[i].requires_confirmation && !ds[i].confirmed,
                None => false,
            };
            let (outcome, reason) = if unconfirmed {
                (PolicyOutcome::RequireConfirmation, ReasonCode::ConfirmationRequired)
            } else if !bearer.can_transmit {
                (PolicyOutcome::Deny, ReasonCode::BearerCannotTransmit)
            } else if request.disclosure == DisclosureClass::Confidential && bearer.confidentiality
                != Confidentiality::EndToEnd {
                (PolicyOutcome::Deny, ReasonCode::ConfidentialityUnavailable)
            } else if posture == Posture::Silent {
                (PolicyOutcome::Deny, ReasonCode::SilentPosture)
            } else if posture == Posture::Restricted {
                if request.emergency && request.operator_confirmed {
                    (PolicyOutcome::Permit, ReasonCode::EmergencyConfirmed)
                } else if request.emergency {
                    (PolicyOutcome::RequireConfirmation, ReasonCode::ConfirmationRequired)
                } else {
                    (PolicyOutcome::Deny, ReasonCode::RestrictedPosture)
                }
            } else {
                (
                    PolicyOutcome::Permit,
                    if choice is Some {
                        ReasonCode::AuthorizedDirective
                    } else {
                        ReasonCode::NoApplicableDirective
                    },
                )
            };
            decision_view(outcome, reason, posture, bearer.enforcement, issuer)
        },
    }
}

fn decision(
    outcome: PolicyOutcome,
    reason: ReasonCode,
    effective_posture: Posture,
    enforcement: EnforcementLevel,
    selected_issuer: Option<String>,
) -> (r: PolicyDecision)
    ensures
        r.outcome == outcome,
        r.reason == reason,
        r.effective_posture == effective_posture,
        r.enforcement == enforcement,
        r.selected_issuer == selected_issuer,
{
    PolicyDecision { outcome, reason, effective_posture, enforcement, selected_issuer }
}

/// Evaluates whether one emission request may use a bearer.
pub fn evaluate_emission(
    directives: &[PostureDirective],
    bearer: BearerFacts,
    request: EmissionRequest,
    now_ms: u64,
) -> (r: PolicyDecision)
    ensures
        r@ == emission_decision(directives@, bearer, request, now_ms),
{
    let directive = match select_directive(directives, now_ms) {
        Ok(directive) => directive,
        Err(reason) => {
            return decision(PolicyOutcome::Indeterminate, reason, Posture::Restricted, bearer.enforcement, None);
        },
    };
    let posture = match directive {
        Some(value) => value.posture,
        None => Posture::Routine,
    };
    let issuer = match directive {
        Some(value) => Some(value.issuer.clone()),
        None => None,
    };
    let unconfirmed = match directive {
        Some(value) => value.requires_confirmation && !value.confirmed,
        None => false,
    };
    if unconfirmed {
        return decision(
            PolicyOutcome::RequireConfirmation,
            ReasonCode::ConfirmationRequired,
            posture,
            bearer.enforcement,
            issuer,
        );
    }
    if !bearer.can_transmit {
        return decision(PolicyOutcome::Deny, ReasonCode::BearerCannotTransmit, posture, bearer.enforcement, issuer);
    }
    if request.disclosure == DisclosureClass::Confidential && bearer.confidentiality != Confidentiality::EndToEnd {
        return decision(
            PolicyOutcome::Deny,
            ReasonCode::ConfidentialityUnavailable,
            posture,
            bearer.enforcement,
            issuer,
        );
    }
    if posture == Posture::Silent {
        return decision(PolicyOutcome::Deny, ReasonCode::SilentPosture, posture, bearer.enforcement, issuer);
    }
    if posture == Posture::Restricted {
        if request.emergency && request.operator_confirmed {
            return decision(
                PolicyOutcome::Permit,
                ReasonCode::EmergencyConfirmed,
                posture,
                bearer.enforcement,
                issuer,
            );
        }
        return decision(
            if request.emergency {
                PolicyOutcome::RequireConfirmation
            } else {
                PolicyOutcome::Deny
            },
            if request.emergency {
                ReasonCode::ConfirmationRequired
            } else {
                ReasonCode::RestrictedPosture
            },
            posture,
            bearer.enforcement,
            issuer,
        );
    }
    let reason = match directive {
        Some(_) => ReasonCode::AuthorizedDirective,
        None => ReasonCode::NoApplicableDirective,
    };
    decision(PolicyOutcome::Permit, reason, posture, bearer.enforcement, issuer)
}

/// A decision reports the bearer's own enforcement level: client-side
/// guarding is never presented as daemon or hardware enforcement.
pub proof fn law_decision_reports_bearer_enforcement(
    ds: Seq<PostureDirective>,
    bearer: BearerFacts,
    request: EmissionRequest,
    now_ms: u64,
)
    ensures
        emission_decision(ds, bearer, request, now_ms).enforcement == bearer.enforcement,
{
}

/// A permit is only ever issued when the bearer can transmit, confidential
/// disclosures have end-to-end confidentiality, the posture is not silent
/// (not even for a confirmed emergency), a restricted posture was overridden
/// only by a confirmed emergency, and authorization was known.
pub proof fn law_permit_requires_safe_conditions(
    ds: Seq<PostureDirective>,
    bearer: BearerFacts,
    request: EmissionRequest,
    now_ms: u64,
)
    requires
        emission_decision(ds, bearer, request, now_ms).outcome == PolicyOutcome::Permit,
    ensures
        bearer.can_transmit,
        request.disclosure == DisclosureClass::Confidential ==> bearer.confidentiality == Confidentiality::EndToEnd,
        emission_decision(ds, bearer, request, now_ms).effective_posture != Posture::Silent,
        emission_decision(ds, bearer, request, now_ms).effective_posture == Posture::Restricted ==> request.emergency
            && request.operator_confirmed,
        directive_choice(ds, now_ms) is Ok,
{
}

/// Unknown authorization with no authorized directive never becomes
/// permission: the decision is indeterminate.
pub proof fn law_unknown_authorization_is_indeterminate(
    ds: Seq<PostureDirective>,
    bearer: BearerFacts,
    request: EmissionRequest,
    now_ms: u64,
)
    requires
        !any_eligible(ds, now_ms),
        any_fresh_unknown(ds, now_ms),
    ensures
        emission_decision(ds, bearer, request, now_ms).outcome == PolicyOutcome::Indeterminate,
        emission_decision(ds, bearer, request, now_ms).reason == ReasonCode::AuthorizationUnknown,
{
}

proof fn lemma_selection_exists(ds: Seq<PostureDirective>, now_ms: u64)
    requires
        any_eligible(ds, now_ms),
    ensures
        exists|i: int| is_selected(ds, now_ms, i),
    decreases ds.len(),
{
    let n = ds.len() - 1;
    let init = ds.drop_last();
    let last = ds[n];
    lemma_lex_lt_irreflexive(code_points(last.issuer@));
    if any_eligible(init, now_ms) {
        lemma_selection_exists(init, now_ms);
        let b = choose|i: int| is_selected(init, now_ms, i);
        assert(ds[b] == init[b]);
        assert forall|j: int| 0 <= j < n implies #[trigger] ds[j] == init[j] by {}
        if !is_eligible(last, now_ms) || precedes(ds[b], last) {
            if is_eligible(last, now_ms) {
                lemma_precedes_asymmetric(ds[b], last);
            }
            assert(is_selected(ds, now_ms, b));
        } else {
            assert forall|j: int| 0 <= j < ds.len() && is_eligible(ds[j], now_ms) implies !precedes(#[trigger] ds[j], last) by {
                if j < n && precedes(ds[j], last) {
                    lemma_precedes_total(last, ds[b]);
                    if precedes(last, ds[b]) {
                        lemma_precedes_transitive(ds[j], last, ds[b]);
                    }
                    assert(precedes(ds[j], ds[b]));
                }
            }
            assert(is_selected(ds, now_ms, n));
        }
    } else {
        assert forall|j: int| 0 <= j < ds.len() && is_eligible(ds[j], now_ms) implies j == n by {
            if j < n {
                assert(init[j] == ds[j]);
            }
        }
        assert(is_selected(ds, now_ms, n));
    }
}

/// Only a fresh, authorized directive ever governs a decision: an expired,
/// not yet issued, or unauthorized directive never sets the posture, and
/// the governing directive outranks every other fresh authorized one.
pub proof fn law_governing_directive_is_fresh_and_authorized(ds: Seq<PostureDirective>, now_ms: u64)
    ensures
        directive_choice(ds, now_ms) matches Ok(Some(i)) ==> {
            &&& 0 <= i < ds.len()
            &&& is_fresh(ds[i], now_ms)
            &&& ds[i].authorization == ActorAuthorization::Authorized
            &&& forall|j: int| 0 <= j < ds.len() && is_eligible(ds[j], now_ms) ==> !precedes(#[trigger] ds[j], ds[i])
        },
{
    if any_eligible(ds, now_ms) {
        lemma_selection_exists(ds, now_ms);
    }
}

/// The posture that governs a decision: the selected directive's, or
/// routine when no directive applies.
pub open spec fn governing_posture(ds: Seq<PostureDirective>, now_ms: u64) -> Posture {
    match directive_choice(ds, now_ms) {
        Ok(Some(i)) => ds[i].posture,
        _ => Posture::Routine,
    }
}

/// A routine or elevated posture never restricts an emission: when
/// authorization is known, the governing directive (if any) needs no
/// outstanding confirmation, the bearer can transmit and confidentiality is
/// available where needed, the decision is a permit, for the governing
/// directive or for the absence of one, under that posture. Conversely, a
/// silent-posture denial is only ever reported under a silent posture.
pub proof fn law_open_posture_permits(
    ds: Seq<PostureDirective>,
    bearer: BearerFacts,
    request: EmissionRequest,
    now_ms: u64,
)
    ensures
        ({
            let d = emission_decision(ds, bearer, request, now_ms);
            &&& directive_choice(ds, now_ms) is Ok ==> d.effective_posture == governing_posture(ds, now_ms)
            &&& (directive_choice(ds, now_ms) is Ok
                && !(directive_choice(ds, now_ms) matches Ok(Some(i)) && ds[i].requires_confirmation && !ds[i].confirmed)
                && bearer.can_transmit
                && (request.disclosure == DisclosureClass::Confidential ==> bearer.confidentiality == Confidentiality::EndToEnd)
                && (governing_posture(ds, now_ms) == Posture::Routine || governing_posture(ds, now_ms) == Posture::Elevated))
                ==> d.outcome == PolicyOutcome::Permit && d.reason == if directive_choice(ds, now_ms) matches Ok(Some(_)) {
                    ReasonCode::AuthorizedDirective
                } else {
                    ReasonCode::NoApplicableDirective
                }
            &&& d.reason == ReasonCode::SilentPosture ==> d.effective_posture == Posture::Silent && d.outcome
                == PolicyOutcome::Deny
        }),
{
}

} // verus!
