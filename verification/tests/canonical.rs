use ghostnet::canonical::{
    body_hash, canonicalize, signature_input, CanonicalError, JsonMember, JsonNumber, JsonValue,
    MAX_INTEROPERABLE_INTEGER, SIGNATURE_DOMAIN_TAG,
};

fn text(s: &str) -> JsonValue {
    JsonValue::String(s.to_owned())
}

fn member(name: &str, value: JsonValue) -> JsonMember {
    JsonMember {
        name: name.to_owned(),
        value,
    }
}

fn canonical_text(value: &JsonValue) -> String {
    String::from_utf8(canonicalize(value).expect("canonical")).expect("utf-8")
}

#[test]
fn object_members_are_sorted_and_nested_values_encoded_compactly() {
    let value = JsonValue::Object(vec![
        member("zeta", JsonValue::Bool(false)),
        member(
            "alpha",
            JsonValue::Array(vec![
                JsonValue::Number(JsonNumber::Signed(-12)),
                JsonValue::Number(JsonNumber::Unsigned(7)),
                JsonValue::Bool(true),
            ]),
        ),
        member("aa", JsonValue::Object(vec![])),
        member("", text("empty")),
    ]);
    assert_eq!(
        canonical_text(&value),
        r#"{"":"empty","aa":{},"alpha":[-12,7,true],"zeta":false}"#
    );
}

#[test]
fn member_order_follows_utf16_code_units_not_code_points() {
    let value = JsonValue::Object(vec![
        member("\u{E000}", JsonValue::Number(JsonNumber::Signed(1))),
        member("\u{1F600}", JsonValue::Number(JsonNumber::Signed(2))),
    ]);
    assert_eq!(canonical_text(&value), "{\"\u{1F600}\":2,\"\u{E000}\":1}");
}

#[test]
fn strings_use_compact_json_escaping() {
    let value = text("q\"b\\n\nt\tc\u{1}e\u{7f}é");
    assert_eq!(
        canonical_text(&value),
        "\"q\\\"b\\\\n\\nt\\tc\\u0001e\u{7f}é\""
    );
    assert_eq!(canonical_text(&text("\u{8}\u{c}\r\u{1f}")), "\"\\b\\f\\r\\u001f\"");
}

#[test]
fn integer_limits_floats_and_nulls_are_enforced() {
    let max = MAX_INTEROPERABLE_INTEGER as i64;
    assert_eq!(
        canonical_text(&JsonValue::Number(JsonNumber::Signed(-max))),
        format!("-{max}")
    );
    assert_eq!(
        canonicalize(&JsonValue::Number(JsonNumber::Signed(max + 1))),
        Err(CanonicalError::IntegerRange)
    );
    assert_eq!(
        canonicalize(&JsonValue::Number(JsonNumber::Signed(i64::MIN))),
        Err(CanonicalError::IntegerRange)
    );
    assert_eq!(
        canonicalize(&JsonValue::Number(JsonNumber::Unsigned(u64::MAX))),
        Err(CanonicalError::IntegerRange)
    );
    assert_eq!(
        canonicalize(&JsonValue::Array(vec![JsonValue::Number(JsonNumber::Float)])),
        Err(CanonicalError::Float)
    );
    assert_eq!(
        canonicalize(&JsonValue::Object(vec![member("k", JsonValue::Null)])),
        Err(CanonicalError::Null)
    );
    assert_eq!(canonical_text(&JsonValue::Number(JsonNumber::Signed(0))), "0");
}

#[test]
fn body_hash_is_prefixed_lowercase_sha256() {
    assert_eq!(
        body_hash(b"abc"),
        "sha256:ba7816bf8f01cfea414140de5dae2223b00361a396177a9cb410ff61f20015ad"
    );
    assert_eq!(
        body_hash(b""),
        "sha256:e3b0c44298fc1c149afbf4c8996fb92427ae41e4649b934ca495991b7852b855"
    );
}

#[test]
fn signature_input_is_domain_separated() {
    let input = signature_input("schema-v1", b"{}").expect("input");
    let mut expected = SIGNATURE_DOMAIN_TAG.as_bytes().to_vec();
    expected.push(0);
    expected.extend_from_slice(b"schema-v1");
    expected.push(0);
    expected.extend_from_slice(b"{}");
    assert_eq!(input, expected);
    assert_eq!(&input[..21], b"ghostnet-artifact-v1\0");
    assert_eq!(signature_input("", b"{}"), Err(CanonicalError::InvalidSchema));
    assert_eq!(
        signature_input("bad\0schema", b"{}"),
        Err(CanonicalError::InvalidSchema)
    );
}

#[test]
fn member_order_in_the_source_does_not_change_canonical_bytes() {
    let forward = JsonValue::Object(vec![
        member("b", JsonValue::Number(JsonNumber::Signed(2))),
        member("a", text("x")),
        member("\u{E000}", JsonValue::Bool(true)),
        member("\u{1F600}", JsonValue::Array(vec![])),
    ]);
    let backward = JsonValue::Object(vec![
        member("\u{1F600}", JsonValue::Array(vec![])),
        member("\u{E000}", JsonValue::Bool(true)),
        member("a", text("x")),
        member("b", JsonValue::Number(JsonNumber::Signed(2))),
    ]);
    assert_eq!(canonicalize(&forward), canonicalize(&backward));
    let refused_forward = JsonValue::Object(vec![
        member("z", JsonValue::Number(JsonNumber::Float)),
        member("a", JsonValue::Null),
    ]);
    let refused_backward = JsonValue::Object(vec![
        member("a", JsonValue::Null),
        member("z", JsonValue::Number(JsonNumber::Float)),
    ]);
    assert_eq!(canonicalize(&refused_forward), Err(CanonicalError::Null));
    assert_eq!(canonicalize(&refused_backward), Err(CanonicalError::Null));
}

#[test]
fn signature_inputs_of_different_schema_body_splits_differ() {
    let left = signature_input("schema-a", b"b{}").expect("left");
    let right = signature_input("schema-ab", b"{}").expect("right");
    assert_ne!(left, right);
    assert_eq!(left.len(), right.len());
}
