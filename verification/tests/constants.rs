use ghostnet::{CONTRACT_VERSION, PRODUCT_NAME};

#[test]
fn product_name_is_stable() {
    assert_eq!(PRODUCT_NAME, "GhostNet");
}

#[test]
fn contract_version_starts_at_one() {
    assert_eq!(CONTRACT_VERSION, 1);
}
