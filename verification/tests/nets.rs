use ghostnet::net::{ApplyRevision, NetError, NetRevision, NetRevisionChain};

fn revision(number: u64, hash: &str, previous: Option<&str>) -> NetRevision {
    NetRevision {
        artifact_id: format!("artifact-{number}"),
        body_hash: hash.into(),
        net_id: "net-1".into(),
        revision: number,
        previous_revision_hash: previous.map(str::to_owned),
        effective_at_ms: 100,
        expires_at_ms: None,
    }
}

#[test]
fn applies_linear_revisions_and_duplicates_idempotently() {
    let mut chain = NetRevisionChain::new("net-1");
    let first = revision(1, "h1", None);
    assert_eq!(chain.apply(first.clone(), 100), Ok(ApplyRevision::Applied));
    assert_eq!(chain.apply(first, 100), Ok(ApplyRevision::Duplicate));
    assert_eq!(chain.apply(revision(2, "h2", Some("h1")), 100), Ok(ApplyRevision::Applied));
    assert_eq!(chain.head().expect("head").revision, 2);
}

#[test]
fn fork_is_explicit_and_does_not_replace_head() {
    let mut chain = NetRevisionChain::new("net-1");
    chain.apply(revision(1, "h1", None), 100).expect("first");
    assert_eq!(
        chain.apply(revision(2, "fork", Some("other")), 100),
        Ok(ApplyRevision::Fork {
            expected_revision: 2,
            expected_predecessor: Some("h1".into()),
            received_revision: 2,
            received_predecessor: Some("other".into()),
        })
    );
    assert_eq!(chain.head().expect("head").body_hash, "h1");
}

#[test]
fn validity_and_initial_predecessor_are_enforced() {
    let mut chain = NetRevisionChain::new("net-1");
    let mut future = revision(1, "h1", None);
    future.effective_at_ms = 101;
    assert_eq!(chain.apply(future, 100), Err(NetError::NotEffective));

    let mut expired = revision(1, "h1", None);
    expired.expires_at_ms = Some(100);
    assert_eq!(chain.apply(expired, 100), Err(NetError::Expired));

    assert_eq!(
        chain.apply(revision(1, "h1", Some("impossible")), 100),
        Err(NetError::InitialPredecessor)
    );
}

#[test]
fn other_net_zero_revision_and_conflicting_reuse_are_rejected() {
    let mut chain = NetRevisionChain::new("net-1");
    let mut foreign = revision(1, "h1", None);
    foreign.net_id = "net-2".into();
    assert_eq!(chain.apply(foreign, 100), Err(NetError::NetMismatch));
    assert_eq!(chain.apply(revision(0, "h0", None), 100), Err(NetError::RevisionZero));
    chain.apply(revision(1, "h1", None), 100).expect("first");
    let mut reused = revision(1, "different", None);
    reused.artifact_id = "artifact-1".into();
    assert_eq!(chain.apply(reused, 100), Err(NetError::ArtifactConflict));
}

#[test]
fn competing_children_of_one_head_fork() {
    let mut chain = NetRevisionChain::new("net-1");
    chain.apply(revision(1, "h1", None), 100).expect("first");
    let mut left = revision(2, "left", Some("h1"));
    left.artifact_id = "left".into();
    let mut right = revision(2, "right", Some("h1"));
    right.artifact_id = "right".into();
    assert_eq!(chain.apply(left, 100), Ok(ApplyRevision::Applied));
    assert_eq!(
        chain.apply(right, 100),
        Ok(ApplyRevision::Fork {
            expected_revision: 3,
            expected_predecessor: Some("left".into()),
            received_revision: 2,
            received_predecessor: Some("h1".into()),
        })
    );
    assert_eq!(chain.head().expect("head").body_hash, "left");
}

#[test]
fn skipped_first_revision_is_a_fork() {
    let mut chain = NetRevisionChain::new("net-1");
    assert_eq!(
        chain.apply(revision(2, "h2", Some("h1")), 100),
        Ok(ApplyRevision::Fork {
            expected_revision: 1,
            expected_predecessor: None,
            received_revision: 2,
            received_predecessor: Some("h1".into()),
        })
    );
    assert!(chain.head().is_none());
}

#[test]
fn applied_revision_count_matches_head_revision() {
    let mut chain = NetRevisionChain::new("net-1");
    assert_eq!(chain.revisions_applied(), 0);
    chain.apply(revision(1, "h1", None), 100).expect("first");
    chain.apply(revision(1, "h1", None), 100).expect("duplicate");
    chain.apply(revision(2, "h2", Some("h1")), 100).expect("second");
    assert_eq!(chain.revisions_applied(), 2);
    assert_eq!(chain.head().expect("head").revision, 2);
}
