use ghostnet::styrene::{capabilities_conform, page_conforms, retry_conforms};
use ghostnet::styrene::{
    ArtifactKey, FakeStyrenePort, Fault, IdentityRef, PollRequest, PublishRequest, SignRequest,
    StyreneError, TopicPath,
};

fn artifact(index: u8) -> ArtifactKey {
    ArtifactKey {
        artifact_id: format!("artifact-{index}"),
        body_hash: format!("sha256:{index:064x}"),
    }
}

fn publication(index: u8) -> PublishRequest {
    PublishRequest {
        topic: TopicPath("ghostnet/net/example/reports".into()),
        artifact: artifact(index),
        body: vec![index],
        correlation_id: format!("correlation-{index}"),
    }
}

fn poll() -> PollRequest {
    PollRequest {
        topic: TopicPath("ghostnet/net/example/reports".into()),
        after: None,
        limit: 100,
    }
}

#[test]
fn duplicate_publication_is_idempotent() {
    let mut fake = FakeStyrenePort::new(IdentityRef("local".into()));
    let first = fake.publish(publication(1)).expect("first publish");
    let second = fake.publish(publication(1)).expect("retry publish");

    assert!(!first.duplicate);
    assert!(second.duplicate);
    assert_eq!(first.event_id, second.event_id);
    assert_eq!(fake.poll(poll()).expect("poll").events.len(), 1);
}

#[test]
fn timeout_before_acceptance_does_not_retain_event() {
    let mut fake = FakeStyrenePort::new(IdentityRef("local".into()));
    fake.inject(Fault::TimeoutBeforeAcceptance);

    assert_eq!(fake.publish(publication(1)), Err(StyreneError::Timeout));
    assert!(fake.poll(poll()).expect("poll").events.is_empty());
}

#[test]
fn timeout_after_acceptance_is_safe_to_retry() {
    let mut fake = FakeStyrenePort::new(IdentityRef("local".into()));
    fake.inject(Fault::TimeoutAfterAcceptance);

    assert_eq!(fake.publish(publication(1)), Err(StyreneError::Timeout));
    let retry = fake.publish(publication(1)).expect("idempotent retry");
    assert!(retry.duplicate);
    assert_eq!(fake.poll(poll()).expect("poll").events.len(), 1);
}

#[test]
fn denial_is_explicit_and_has_no_side_effect() {
    let mut fake = FakeStyrenePort::new(IdentityRef("local".into()));
    fake.inject(Fault::Deny("publish forbidden".into()));

    assert_eq!(
        fake.publish(publication(1)),
        Err(StyreneError::Denied("publish forbidden".into()))
    );
    assert!(fake.poll(poll()).expect("poll").events.is_empty());
}

#[test]
fn poll_can_inject_duplicate_and_reordering() {
    let mut fake = FakeStyrenePort::new(IdentityRef("local".into()));
    fake.publish(publication(1)).expect("publish 1");
    fake.publish(publication(2)).expect("publish 2");

    fake.inject(Fault::DuplicateNextPoll);
    let duplicated = fake.poll(poll()).expect("duplicate poll");
    assert_eq!(duplicated.events.len(), 3);
    assert_eq!(duplicated.events[0], duplicated.events[1]);

    fake.inject(Fault::ReverseNextPoll);
    let reversed = fake.poll(poll()).expect("reverse poll");
    assert_eq!(reversed.events[0].artifact, artifact(2));
    assert_eq!(reversed.events[1].artifact, artifact(1));
}

#[test]
fn retention_gap_is_visible_and_omits_retained_prefix() {
    let mut fake = FakeStyrenePort::new(IdentityRef("local".into()));
    fake.publish(publication(1)).expect("publish 1");
    fake.publish(publication(2)).expect("publish 2");
    fake.inject(Fault::RetentionGapNextPoll);

    let page = fake.poll(poll()).expect("gap poll");
    assert!(page.retention_gap);
    assert_eq!(page.events.len(), 1);
    assert_eq!(page.events[0].artifact, artifact(2));
}

#[test]
fn event_ids_count_up_and_cursor_resumes_after_last_event() {
    let mut fake = FakeStyrenePort::new(IdentityRef("local".into()));
    fake.set_now_ms(42);
    let first = fake.publish(publication(1)).expect("publish 1");
    let second = fake.publish(publication(2)).expect("publish 2");
    assert_eq!(first.event_id, "event:1");
    assert_eq!(second.event_id, "event:2");
    assert_eq!(second.accepted_at_ms, 42);

    let page = fake
        .poll(PollRequest {
            limit: 1,
            ..poll()
        })
        .expect("first page");
    assert_eq!(page.next_cursor.as_deref(), Some("event:1"));
    let rest = fake
        .poll(PollRequest {
            after: page.next_cursor.clone(),
            ..poll()
        })
        .expect("second page");
    assert_eq!(rest.events.len(), 1);
    assert_eq!(rest.events[0].event_id, "event:2");
    assert_eq!(rest.events[0].body, vec![2u8]);
    assert!(!rest.retention_gap);
}

#[test]
fn invalid_requests_are_rejected() {
    let mut fake = FakeStyrenePort::new(IdentityRef("local".into()));
    let mut oversized = publication(1);
    oversized.body = vec![0; 65_537];
    assert!(matches!(
        fake.publish(oversized),
        Err(StyreneError::InvalidRequest(_))
    ));
    assert!(matches!(
        fake.poll(PollRequest { limit: 0, ..poll() }),
        Err(StyreneError::InvalidRequest(_))
    ));
    fake.inject(Fault::Deny("poll forbidden".into()));
    assert_eq!(
        fake.poll(poll()),
        Err(StyreneError::Denied("poll forbidden".into()))
    );
    assert!(fake.poll(poll()).expect("poll").events.is_empty());
}

#[test]
fn identity_capabilities_and_signing_are_reported() {
    let fake = FakeStyrenePort::new(IdentityRef("local".into()));
    assert_eq!(fake.local_identity(), Ok(IdentityRef("local".into())));
    let capabilities = fake.capabilities().expect("capabilities");
    assert_eq!(capabilities.contract_version, 1);
    assert_eq!(capabilities.maximum_publication_bytes, 65_536);
    assert_eq!(
        fake.sign(SignRequest {
            purpose: "test".into(),
            payload: vec![1],
            expected_identity: None,
            correlation_id: "sign".into(),
        }),
        Err(StyreneError::CapabilityUnavailable("detached_signing"))
    );
}

#[test]
fn baseline_judgements_accept_the_double_and_reject_violations() {
    let mut fake = FakeStyrenePort::new(IdentityRef("local".into()));
    let capabilities = fake.capabilities().expect("capabilities");
    assert!(capabilities_conform(&capabilities));
    let first = fake.publish(publication(1)).expect("first");
    let retry = fake.publish(publication(1)).expect("retry");
    assert!(retry_conforms(&first, &retry));
    assert!(!retry_conforms(&first, &first));
    let page = fake.poll(poll()).expect("poll");
    assert!(page_conforms(&page, &artifact(1)));
    assert!(!page_conforms(&page, &artifact(2)));
    let mut zero = capabilities;
    zero.contract_version = 0;
    assert!(!capabilities_conform(&zero));
}
