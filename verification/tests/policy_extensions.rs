use ghostnet::policy::{EnforcementLevel, PolicyDecision, PolicyOutcome, Posture, ReasonCode};
use ghostnet::policy_extension::{compose_policy, ExtensionDisposition, PolicyExtensionResult, RestrictionLevel};

fn safety(outcome: PolicyOutcome) -> PolicyDecision {
    PolicyDecision {
        outcome,
        reason: ReasonCode::AuthorizedDirective,
        effective_posture: Posture::Routine,
        enforcement: EnforcementLevel::ClientGuarded,
        selected_issuer: Some("authority".into()),
    }
}

fn extension(outcome: PolicyOutcome) -> PolicyExtensionResult {
    PolicyExtensionResult {
        outcome,
        reason: "mission bundle rule".into(),
        engine_id: "rego-wasm".into(),
        engine_version: "pinned-test".into(),
        bundle_id: "mission-alpha".into(),
        bundle_hash: format!("sha256:{}", "a".repeat(64)),
        claimed_enforcement: None,
    }
}

#[test]
fn extension_can_restrict_safety_permit() {
    let composed = compose_policy(safety(PolicyOutcome::Permit), Some(extension(PolicyOutcome::Deny)));
    assert_eq!(composed.decision.outcome, PolicyOutcome::Deny);
    assert_eq!(composed.decision.reason, ReasonCode::ExtensionRestricted);
    assert!(matches!(composed.extension, ExtensionDisposition::Applied { .. }));
}

#[test]
fn extension_cannot_relax_safety_deny_or_indeterminate() {
    for safety_outcome in [PolicyOutcome::Deny, PolicyOutcome::Indeterminate] {
        let composed = compose_policy(safety(safety_outcome), Some(extension(PolicyOutcome::Permit)));
        assert_eq!(composed.decision.outcome, safety_outcome);
        assert_eq!(composed.decision.reason, ReasonCode::AuthorizedDirective);
    }
}

#[test]
fn missing_extension_preserves_safety_result() {
    let composed = compose_policy(safety(PolicyOutcome::RequireConfirmation), None);
    assert_eq!(composed.decision.outcome, PolicyOutcome::RequireConfirmation);
    assert_eq!(composed.extension, ExtensionDisposition::NotEvaluated);
}

#[test]
fn extension_cannot_inflate_enforcement_evidence() {
    let mut dynamic = extension(PolicyOutcome::Permit);
    dynamic.claimed_enforcement = Some(EnforcementLevel::DaemonEnforced);
    let composed = compose_policy(safety(PolicyOutcome::Permit), Some(dynamic));
    assert_eq!(composed.decision.outcome, PolicyOutcome::Deny);
    assert_eq!(composed.decision.reason, ReasonCode::InvalidExtensionClaim);
    assert_eq!(composed.decision.enforcement, EnforcementLevel::ClientGuarded);
    assert!(matches!(composed.extension, ExtensionDisposition::RejectedClaim { .. }));
}

#[test]
fn confirmation_cannot_be_relaxed_to_permit() {
    let composed = compose_policy(
        safety(PolicyOutcome::RequireConfirmation),
        Some(extension(PolicyOutcome::Permit)),
    );
    assert_eq!(composed.decision.outcome, PolicyOutcome::RequireConfirmation);
}

#[test]
fn applied_extension_records_its_provenance() {
    let composed = compose_policy(
        safety(PolicyOutcome::Permit),
        Some(extension(PolicyOutcome::Indeterminate)),
    );
    assert_eq!(composed.safety_outcome, PolicyOutcome::Permit);
    assert_eq!(composed.decision.outcome, PolicyOutcome::Indeterminate);
    assert_eq!(composed.decision.selected_issuer.as_deref(), Some("authority"));
    assert_eq!(
        composed.extension,
        ExtensionDisposition::Applied {
            engine_id: "rego-wasm".into(),
            engine_version: "pinned-test".into(),
            bundle_id: "mission-alpha".into(),
            bundle_hash: format!("sha256:{}", "a".repeat(64)),
            reason: "mission bundle rule".into(),
        }
    );
}

#[test]
fn equal_or_weaker_enforcement_claims_are_accepted() {
    let mut dynamic = extension(PolicyOutcome::Permit);
    dynamic.claimed_enforcement = Some(EnforcementLevel::ClientGuarded);
    let composed = compose_policy(safety(PolicyOutcome::Permit), Some(dynamic));
    assert_eq!(composed.decision.outcome, PolicyOutcome::Permit);
    assert_eq!(composed.decision.reason, ReasonCode::AuthorizedDirective);
}

#[test]
fn rejected_claim_names_the_engine_and_reason() {
    let mut dynamic = extension(PolicyOutcome::Permit);
    dynamic.claimed_enforcement = Some(EnforcementLevel::HardwareReceiveOnly);
    let composed = compose_policy(safety(PolicyOutcome::Deny), Some(dynamic));
    assert_eq!(composed.decision.outcome, PolicyOutcome::Deny);
    assert_eq!(
        composed.extension,
        ExtensionDisposition::RejectedClaim {
            engine_id: "rego-wasm".into(),
            reason: "extension attempted to increase enforcement evidence".into(),
        }
    );
}

#[test]
fn restriction_levels_convert_both_ways() {
    for outcome in [
        PolicyOutcome::Permit,
        PolicyOutcome::RequireConfirmation,
        PolicyOutcome::Indeterminate,
        PolicyOutcome::Deny,
    ] {
        assert_eq!(PolicyOutcome::from(RestrictionLevel::from(outcome)), outcome);
    }
    assert!(RestrictionLevel::Permit < RestrictionLevel::RequireConfirmation);
    assert!(RestrictionLevel::RequireConfirmation < RestrictionLevel::Indeterminate);
    assert!(RestrictionLevel::Indeterminate < RestrictionLevel::Deny);
}
