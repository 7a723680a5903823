use ghostnet::adapter::{
    AcknowledgementModel, AdapterCapability, AdapterError, FakeAdapterSupervisor,
    ADAPTER_API_VERSION,
};

#[test]
fn adapter_api_is_explicitly_versioned() {
    assert_eq!(ADAPTER_API_VERSION, 1);
}

fn capability(adapter_id: &str, bytes: usize) -> AdapterCapability {
    AdapterCapability {
        adapter_id: adapter_id.into(),
        api_version: ADAPTER_API_VERSION,
        bearer: "test".into(),
        maximum_payload_bytes: bytes,
        acknowledgement: AcknowledgementModel::Unacknowledged,
        can_transmit: false,
    }
}

#[test]
fn fake_supervisor_returns_stable_adapter_order() {
    let mut fake = FakeAdapterSupervisor::default();
    for adapter_id in ["zulu", "alpha"] {
        fake.upsert(capability(adapter_id, 160));
    }

    let capabilities = fake.capabilities().expect("capabilities");
    assert_eq!(capabilities[0].adapter_id, "alpha");
    assert_eq!(capabilities[1].adapter_id, "zulu");
}

#[test]
fn upsert_replaces_existing_adapter_and_lookup_reports_missing() {
    let mut fake = FakeAdapterSupervisor::new();
    fake.upsert(capability("mike", 160));
    fake.upsert(capability("bravo", 80));
    fake.upsert(capability("mike", 320));
    let capabilities = fake.capabilities().expect("capabilities");
    assert_eq!(capabilities.len(), 2);
    assert_eq!(capabilities[0].adapter_id, "bravo");
    assert_eq!(capabilities[1].maximum_payload_bytes, 320);
    assert_eq!(
        fake.capability("mike").expect("mike").maximum_payload_bytes,
        320
    );
    assert!(matches!(
        fake.capability("zulu"),
        Err(AdapterError::Unavailable(ref name)) if name == "zulu"
    ));
}
