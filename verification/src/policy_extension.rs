//! Composition boundary between compiled safety invariants and extensions.
use vstd::prelude::*;

use crate::policy::{EnforcementLevel, PolicyDecision, PolicyOutcome, ReasonCode};

verus! {

/// Outcomes ordered by how much they restrict:
/// `Permit < RequireConfirmation < Indeterminate < Deny`.
#[derive(Clone, Copy, Debug, PartialEq, Eq, Structural, PartialOrd, Ord, Hash)]
pub enum RestrictionLevel {
    Permit,
    RequireConfirmation,
    Indeterminate,
    Deny,
}

pub open spec fn level_of(value: PolicyOutcome) -> RestrictionLevel {
    match value {
        PolicyOutcome::Permit => RestrictionLevel::Permit,
        PolicyOutcome::RequireConfirmation => RestrictionLevel::RequireConfirmation,
        PolicyOutcome::Indeterminate => RestrictionLevel::Indeterminate,
        PolicyOutcome::Deny => RestrictionLevel::Deny,
    }
}

pub open spec fn outcome_of(value: RestrictionLevel) -> PolicyOutcome {
    match value {
        RestrictionLevel::Permit => PolicyOutcome::Permit,
        RestrictionLevel::RequireConfirmation => PolicyOutcome::RequireConfirmation,
        RestrictionLevel::Indeterminate => PolicyOutcome::Indeterminate,
        RestrictionLevel::Deny => PolicyOutcome::Deny,
    }
}

/// The position of a level in the restriction order.
pub open spec fn restriction_rank(value: RestrictionLevel) -> int {
    match value {
        RestrictionLevel::Permit => 0,
        RestrictionLevel::RequireConfirmation => 1,
        RestrictionLevel::Indeterminate => 2,
        RestrictionLevel::Deny => 3,
    }
}

/// How restrictive an outcome is.
pub open spec fn outcome_rank(value: PolicyOutcome) -> int {
    restriction_rank(level_of(value))
}

/// The position of an enforcement level, weakest first.
pub open spec fn enforcement_rank(value: EnforcementLevel) -> int {
    match value {
        EnforcementLevel::Advisory => 0,
        EnforcementLevel::ClientGuarded => 1,
        EnforcementLevel::DaemonEnforced => 2,
        EnforcementLevel::HardwareReceiveOnly => 3,
    }
}

impl From<PolicyOutcome> for RestrictionLevel {
    fn from(value: PolicyOutcome) -> (r: Self) {
        match value {
            PolicyOutcome::Permit => Self::Permit,
            PolicyOutcome::RequireConfirmation => Self::RequireConfirmation,
            PolicyOutcome::Indeterminate => Self::Indeterminate,
            PolicyOutcome::Deny => Self::Deny,
        }
    }
}

impl vstd::std_specs::convert::FromSpecImpl<PolicyOutcome> for RestrictionLevel {
    open spec fn obeys_from_spec() -> bool {
        true
    }

    open spec fn from_spec(value: PolicyOutcome) -> RestrictionLevel {
        level_of(value)
    }
}

impl From<RestrictionLevel> for PolicyOutcome {
    fn from(value: RestrictionLevel) -> (r: Self) {
        match value {
            RestrictionLevel::Permit => Self::Permit,
            RestrictionLevel::RequireConfirmation => Self::RequireConfirmation,
            RestrictionLevel::Indeterminate => Self::Indeterminate,
            RestrictionLevel::Deny => Self::Deny,
        }
    }
}

impl vstd::std_specs::convert::FromSpecImpl<RestrictionLevel> for PolicyOutcome {
    open spec fn obeys_from_spec() -> bool {
        true
    }

    open spec fn from_spec(value: RestrictionLevel) -> PolicyOutcome {
        outcome_of(value)
    }
}

#[derive(Clone, Debug, PartialEq, Eq)]
pub struct PolicyExtensionResult {
    pub outcome: PolicyOutcome,
    pub reason: String,
    pub engine_id: String,
    pub engine_version: String,
    pub bundle_id: String,
    pub bundle_hash: String,
    pub claimed_enforcement: Option<EnforcementLevel>,
}

#[derive(Clone, Debug, PartialEq, Eq)]
pub enum ExtensionDisposition {
    NotEvaluated,
    Applied {
        engine_id: String,
        engine_version: String,
        bundle_id: String,
        bundle_hash: String,
        reason: String,
    },
    RejectedClaim { engine_id: String, reason: String },
}

#[derive(Clone, Debug, PartialEq, Eq)]
pub struct ComposedPolicyDecision {
    pub decision: PolicyDecision,
    pub safety_outcome: PolicyOutcome,
    pub extension: ExtensionDisposition,
}

fn rank_of(value: RestrictionLevel) -> (r: u8)
    ensures
        r == restriction_rank(value),
{
    match value {
        RestrictionLevel::Permit => 0,
        RestrictionLevel::RequireConfirmation => 1,
        RestrictionLevel::Indeterminate => 2,
        RestrictionLevel::Deny => 3,
    }
}

fn enforcement_rank_of(value: EnforcementLevel) -> (r: u8)
    ensures
        r == enforcement_rank(value),
{
    match value {
        EnforcementLevel::Advisory => 0,
        EnforcementLevel::ClientGuarded => 1,
        EnforcementLevel::DaemonEnforced => 2,
        EnforcementLevel::HardwareReceiveOnly => 3,
    }
}

/// Whether an extension claims more enforcement evidence than the compiled
/// safety layer established.
pub open spec fn inflates_enforcement(safety: PolicyDecision, extension: PolicyExtensionResult) -> bool {
    match extension.claimed_enforcement {
        Some(claimed) => enforcement_rank(claimed) > enforcement_rank(safety.enforcement),
        None => false,
    }
}

/// Composes an optional policy extension without permitting relaxation of the
/// compiled safety result or inflation of enforcement evidence.
///
/// Without an extension the safety decision stands. An extension that claims
/// more enforcement than the safety layer reported is rejected and the
/// decision becomes `Deny` with `InvalidExtensionClaim`. Otherwise the more
/// restrictive of the two outcomes wins; the reason becomes
/// `ExtensionRestricted` only when the extension was strictly more
/// restrictive.
pub fn compose_policy(safety: PolicyDecision, extension: Option<PolicyExtensionResult>) -> (r:
    ComposedPolicyDecision)
    ensures
        r.safety_outcome == safety.outcome,
        r.decision.effective_posture == safety.effective_posture,
        r.decision.enforcement == safety.enforcement,
        r.decision.selected_issuer == safety.selected_issuer,
        outcome_rank(r.decision.outcome) >= outcome_rank(safety.outcome),
        match extension {
            None => r.decision == safety && r.extension == ExtensionDisposition::NotEvaluated,
            Some(ext) => if inflates_enforcement(safety, ext) {
                &&& r.decision.outcome == PolicyOutcome::Deny
                &&& r.decision.reason == ReasonCode::InvalidExtensionClaim
                &&& r.extension matches ExtensionDisposition::RejectedClaim { engine_id, reason }
                &&& engine_id == ext.engine_id
                &&& reason@ == "extension attempted to increase enforcement evidence"@
            } else {
                &&& outcome_rank(r.decision.outcome) == if outcome_rank(ext.outcome) > outcome_rank(
                    safety.outcome,
                ) {
                    outcome_rank(ext.outcome)
                } else {
                    outcome_rank(safety.outcome)
                }
                &&& r.decision.reason == if outcome_rank(ext.outcome) > outcome_rank(safety.outcome) {
                    ReasonCode::ExtensionRestricted
                } else {
                    safety.reason
                }
                &&& r.extension == ExtensionDisposition::Applied {
                    engine_id: ext.engine_id,
                    engine_version: ext.engine_version,
                    bundle_id: ext.bundle_id,
                    bundle_hash: ext.bundle_hash,
                    reason: ext.reason,
                }
            },
        },
{
    let safety_outcome = safety.outcome;
    let extension = match extension {
        None => {
            return ComposedPolicyDecision {
                decision: safety,
                safety_outcome,
                extension: ExtensionDisposition::NotEvaluated,
            };
        },
        Some(extension) => extension,
    };
    let inflated = match extension.claimed_enforcement {
        Some(claimed) => enforcement_rank_of(claimed) > enforcement_rank_of(safety.enforcement),
        None => false,
    };
    if inflated {
        return ComposedPolicyDecision {
            decision: PolicyDecision {
                outcome: PolicyOutcome::Deny,
                reason: ReasonCode::InvalidExtensionClaim,
                effective_posture: safety.effective_posture,
                enforcement: safety.enforcement,
                selected_issuer: safety.selected_issuer,
            },
            safety_outcome,
            extension: ExtensionDisposition::RejectedClaim {
                engine_id: extension.engine_id,
                reason: String::from_str("extension attempted to increase enforcement evidence"),
            },
        };
    }
    let safety_level = RestrictionLevel::from(safety.outcome);
    let extension_level = RestrictionLevel::from(extension.outcome);
    let stricter = rank_of(extension_level) > rank_of(safety_level);
    let effective = if stricter {
        extension_level
    } else {
        safety_level
    };
    ComposedPolicyDecision {
        decision: PolicyDecision {
            outcome: PolicyOutcome::from(effective),
            reason: if stricter {
                ReasonCode::ExtensionRestricted
            } else {
                safety.reason
            },
            effective_posture: safety.effective_posture,
            enforcement: safety.enforcement,
            selected_issuer: safety.selected_issuer,
        },
        safety_outcome,
        extension: ExtensionDisposition::Applied {
            engine_id: extension.engine_id,
            engine_version: extension.engine_version,
            bundle_id: extension.bundle_id,
            bundle_hash: extension.bundle_hash,
            reason: extension.reason,
        },
    }
}

} // verus!
