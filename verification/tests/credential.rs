use mod_memory::domain::credential::{
    conflict_details, extract_issuer_id, extract_stringish, extract_type_tokens, normalize_json,
    semantic_payload_hash, CredentialFamily, StandardCredential,
};
use mod_memory::domain::json::{parse_json, JsonValue};
use mod_memory::domain::normalization::{canonical_json_string, json_value_hash};

fn parse(text: &str) -> JsonValue {
    parse_json(text).expect("valid JSON")
}

fn keys(value: &JsonValue) -> Vec<String> {
    match value {
        JsonValue::Object(members) => members.iter().map(|(k, _)| k.clone()).collect(),
        _ => Vec::new(),
    }
}

#[test]
fn normalization_sorts_members_at_every_level() {
    let value = JsonValue::Object(vec![
        ("z".to_owned(), JsonValue::Object(vec![
            ("b".to_owned(), JsonValue::Null),
            ("a".to_owned(), JsonValue::Null),
        ])),
        ("a".to_owned(), JsonValue::Array(vec![JsonValue::Object(vec![
            ("y".to_owned(), JsonValue::Bool(true)),
            ("x".to_owned(), JsonValue::Bool(false)),
        ])])),
    ]);
    let normalized = normalize_json(&value);
    assert_eq!(keys(&normalized), vec!["a", "z"]);
    assert_eq!(canonical_json_string(&normalized), r#"{"a":[{"x":false,"y":true}],"z":{"a":null,"b":null}}"#);
    assert_eq!(semantic_payload_hash(&normalized), json_value_hash(&value));
}

#[test]
fn credentials_keep_their_normalized_document_and_hash() {
    let payload = parse(r#"{"name":"Badge","id":"urn:1","issuer":{"name":"Org","id":"https://org.example"},"type":["VerifiableCredential","OpenBadgeCredential"],"validFrom":"2026-01-01T00:00:00Z"}"#);
    let credential = StandardCredential::new("urn:1".to_owned(), CredentialFamily::OpenBadgesV3, payload);
    assert_eq!(keys(&credential.response_document()), vec!["id", "issuer", "name", "type", "validFrom"]);
    assert_eq!(credential.semantic_payload_hash, semantic_payload_hash(&credential.credential));

    let projection = credential.to_projection();
    assert_eq!(projection.credential_id, "urn:1");
    assert_eq!(projection.issuer_id.as_deref(), Some("https://org.example"));
    assert_eq!(projection.valid_from.as_deref(), Some("2026-01-01T00:00:00Z"));
    assert_eq!(projection.preview.as_deref(), Some("Badge · https://org.example"));

    let hit = projection.to_hit(Some(0.75f64.to_bits()));
    assert_eq!(hit.family, CredentialFamily::OpenBadgesV3);
    assert_eq!(hit.score_bits.map(f64::from_bits), Some(0.75));
    assert_eq!(keys(&hit.credential), vec!["id", "issuer", "name", "type", "validFrom"]);
}

#[test]
fn extraction_helpers_read_strings_and_objects() {
    let tokens = extract_type_tokens(&parse(r#"["A", 1, "B"]"#));
    assert_eq!(tokens, vec!["A".to_owned(), "B".to_owned()]);
    assert_eq!(extract_type_tokens(&parse(r#""Single""#)), vec!["Single".to_owned()]);
    assert!(extract_type_tokens(&parse("7")).is_empty());
    assert_eq!(extract_stringish(&parse(r#"{"n":1,"m":"first"}"#)).as_deref(), Some("first"));
    assert_eq!(extract_stringish(&parse("null")), None);
    assert_eq!(extract_issuer_id(&parse(r#"{"id":"https://i"}"#)).as_deref(), Some("https://i"));
    assert_eq!(extract_issuer_id(&parse(r#"{"id":3}"#)), None);
    assert_eq!(extract_issuer_id(&parse(r#""https://s""#)).as_deref(), Some("https://s"));
}

#[test]
fn conflicts_report_both_hashes() {
    let a = StandardCredential::new("urn:1".to_owned(), CredentialFamily::ClrV2, parse(r#"{"a":1}"#));
    let b = StandardCredential::new("urn:1".to_owned(), CredentialFamily::ClrV2, parse(r#"{"a":2}"#));
    let details = conflict_details(&a, &b);
    assert_eq!(keys(&details), vec!["credential_id", "existing_hash", "incoming_hash"]);
    assert_ne!(a.semantic_payload_hash, b.semantic_payload_hash);
}

#[test]
fn normalizing_twice_is_normalizing_once_and_ordered_documents_stay() {
    let inner = JsonValue::Object(vec![
        ("y".to_owned(), JsonValue::Number("1".to_owned())),
        ("x".to_owned(), JsonValue::Number("2".to_owned())),
    ]);
    let value = JsonValue::Object(vec![
        (
            "z".to_owned(),
            JsonValue::Object(vec![
                ("b".to_owned(), JsonValue::Array(vec![inner])),
                ("a".to_owned(), JsonValue::Null),
            ]),
        ),
        ("a".to_owned(), JsonValue::Bool(true)),
    ]);
    let once = normalize_json(&value);
    let twice = normalize_json(&once);
    assert_eq!(format!("{twice:?}"), format!("{once:?}"));
    assert_ne!(format!("{once:?}"), format!("{value:?}"));
    let ordered = JsonValue::Object(vec![
        ("a".to_owned(), JsonValue::Number("1".to_owned())),
        ("b".to_owned(), JsonValue::Array(vec![JsonValue::String("x".to_owned())])),
    ]);
    assert_eq!(format!("{:?}", normalize_json(&ordered)), format!("{ordered:?}"));
}
