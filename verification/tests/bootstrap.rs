use mod_memory::bootstrap::{allowed_keys_for_family, CredentialValidator};
use mod_memory::domain::credential::CredentialFamily;
use mod_memory::domain::json::{parse_json, JsonValue};
use mod_memory::error::ErrorKind;

fn parse(text: &str) -> JsonValue {
    parse_json(text).expect("valid JSON")
}

const BADGE: &str = r#"{
    "@context": [
        "https://www.w3.org/ns/credentials/v2",
        "https://purl.imsglobal.org/spec/ob/v3p0/context-3.0.3.json"
    ],
    "type": ["VerifiableCredential", "OpenBadgeCredential"],
    "id": "urn:example:badge:001",
    "issuer": { "id": "https://issuer.example.org" },
    "credentialSubject": { "achievement": { "name": "Rust" } },
    "proof": { "type": "DataIntegrityProof" },
    "validFrom": "2026-01-01T00:00:00Z"
}"#;

#[test]
fn classifies_open_badges() {
    let validator = CredentialValidator::new();
    let credential = validator.validate(parse(BADGE)).expect("valid credential");

    assert_eq!(credential.family, CredentialFamily::OpenBadgesV3);
}

#[test]
fn validated_credentials_carry_their_id_and_normalized_hash() {
    let validator = CredentialValidator::new();
    let credential = validator.validate(parse(BADGE)).expect("valid credential");
    assert_eq!(credential.credential_id, "urn:example:badge:001");
    assert_eq!(credential.semantic_payload_hash.len(), 64);
    assert_eq!(credential.created_at, credential.updated_at);
}

#[test]
fn clr_credentials_need_a_name() {
    let validator = CredentialValidator::new();
    let without_name = BADGE.replace("OpenBadgeCredential", "ClrCredential");
    let error = validator.validate(parse(&without_name)).expect_err("CLR needs a name");
    assert_eq!(error.kind, ErrorKind::Validation);
    assert!(error.details.is_some());

    let with_name = without_name.replace("\"validFrom\"", "\"name\": \"Transcript\", \"validFrom\"");
    let credential = validator.validate(parse(&with_name)).expect("valid CLR");
    assert_eq!(credential.family, CredentialFamily::ClrV2);
}

#[test]
fn payloads_that_are_not_one_family_are_refused() {
    let validator = CredentialValidator::new();
    let both = BADGE.replace("\"OpenBadgeCredential\"", "\"OpenBadgeCredential\", \"ClrCredential\"");
    let error = validator.validate(parse(&both)).expect_err("two families");
    assert_eq!(error.kind, ErrorKind::Validation);
    assert_eq!(
        error.message,
        "Credential payload could not be classified to exactly one supported family"
    );

    let error = validator.validate(parse("[1, 2]")).expect_err("not an object");
    assert_eq!(error.message, "Credential payload must be a JSON object");

    let untyped = BADGE.replace("\"type\": [\"VerifiableCredential\", \"OpenBadgeCredential\"],", "");
    let error = validator.validate(parse(&untyped)).expect_err("no type");
    assert_eq!(error.message, "Credential type is required for family classification");
    assert!(error.details.is_none());
}

#[test]
fn unsupported_top_level_members_are_listed() {
    let validator = CredentialValidator::new();
    let extra = BADGE.replace("\"validFrom\"", "\"zeta\": 1, \"alpha\": 2, \"validFrom\"");
    let error = validator.validate(parse(&extra)).expect_err("extra members");
    assert_eq!(error.message, "Credential payload includes unsupported top-level fields");
    match error.details {
        Some(JsonValue::Object(members)) => {
            assert_eq!(members.len(), 1);
            assert_eq!(members[0].0, "unsupported_fields");
            match &members[0].1 {
                JsonValue::Array(items) => {
                    let names: Vec<String> = items
                        .iter()
                        .map(|item| match item {
                            JsonValue::String(s) => s.clone(),
                            _ => String::new(),
                        })
                        .collect();
                    assert_eq!(names, vec!["alpha".to_owned(), "zeta".to_owned()]);
                },
                _ => panic!("unsupported_fields must be an array"),
            }
        },
        _ => panic!("details must be an object"),
    }
}

#[test]
fn empty_ids_are_refused() {
    let validator = CredentialValidator::new();
    let empty = BADGE.replace("urn:example:badge:001", "");
    let error = validator.validate(parse(&empty)).expect_err("empty id");
    assert_eq!(error.message, "Credential id must not be empty");
}

#[test]
fn clr_allows_partial_and_open_badges_do_not() {
    let ob = allowed_keys_for_family(CredentialFamily::OpenBadgesV3);
    let clr = allowed_keys_for_family(CredentialFamily::ClrV2);
    assert_eq!(ob.len(), 19);
    assert_eq!(clr.len(), 20);
    assert!(!ob.contains(&"partial"));
    assert!(clr.contains(&"partial"));
    let mut sorted = clr.clone();
    sorted.sort();
    assert_eq!(sorted, clr);
}
