use mod_memory::domain::json::{parse_json, JsonValue};
use mod_memory::domain::normalization::{canonical_json_string, json_value_hash, normalized_json_hash, sha256_hex};
use mod_memory::error::{AppError, ErrorKind};

fn normalized_json_hash_from_str(text: &str) -> Result<String, AppError> {
    normalized_json_hash(text)
}

const CLR_COMPACT: &str = r#"{"@context":["https://www.w3.org/ns/credentials/v2","https://purl.imsglobal.org/spec/clr/v2p0/context-2.0.1.json"],"id":"https://clr.example/credentials/123","type":["VerifiableCredential","ClrCredential"],"issuer":{"id":"https://clr.example/issuers/1","type":["Profile"],"name":"Example University"},"name":"Rust CLR","validFrom":"2025-01-01T00:00:00Z","credentialSubject":{"type":["ClrSubject"],"verifiableCredential":[{"id":"https://clr.example/achievements/1","type":["VerifiableCredential","AchievementCredential"]}]}}"#;

const CLR_PRETTY: &str = r#"
{
  "credentialSubject": {
    "verifiableCredential": [
      {
        "type": ["VerifiableCredential", "AchievementCredential"],
        "id": "https://clr.example/achievements/1"
      }
    ],
    "type": ["ClrSubject"]
  },
  "validFrom": "2025-01-01T00:00:00Z",
  "name": "Rust CLR",
  "issuer": {
    "name": "Example University",
    "type": ["Profile"],
    "id": "https://clr.example/issuers/1"
  },
  "type": ["VerifiableCredential", "ClrCredential"],
  "id": "https://clr.example/credentials/123",
  "@context": [
    "https://www.w3.org/ns/credentials/v2",
    "https://purl.imsglobal.org/spec/clr/v2p0/context-2.0.1.json"
  ]
}
"#;

const CLR_CONFLICT: &str = r#"{"@context":["https://www.w3.org/ns/credentials/v2","https://purl.imsglobal.org/spec/clr/v2p0/context-2.0.1.json"],"id":"https://clr.example/credentials/123","type":["VerifiableCredential","ClrCredential"],"issuer":{"id":"https://clr.example/issuers/1","type":["Profile"],"name":"Example University"},"name":"Rust CLR (revised)","validFrom":"2025-01-01T00:00:00Z","credentialSubject":{"type":["ClrSubject"],"verifiableCredential":[{"id":"https://clr.example/achievements/1","type":["VerifiableCredential","AchievementCredential"]}]}}"#;

const OPEN_BADGES_COMPACT: &str = r#"{"@context":["https://www.w3.org/ns/credentials/v2","https://purl.imsglobal.org/spec/ob/v3p0/context-3.0.3.json"],"id":"https://example.com/credential/1","type":["VerifiableCredential","AchievementCredential"],"name":"A","issuer":"https://issuer.example.com/issuers/1","validFrom":"2025-01-01T00:00:00Z","credentialSubject":{"type":"AchievementSubject","achievement":{"id":"https://example.com/achievements/a","type":"Achievement","name":"A","description":"A desc","criteria":{}}}}"#;

const OPEN_BADGES_PRETTY: &str = "{\n  \"credentialSubject\": {\n    \"achievement\": {\n      \"criteria\": {},\n      \"description\": \"A desc\",\n      \"id\": \"https://example.com/achievements/a\",\n      \"name\": \"A\",\n      \"type\": \"Achievement\"\n    },\n    \"type\": \"AchievementSubject\"\n  },\n  \"validFrom\": \"2025-01-01T00:00:00Z\",\n  \"issuer\": \"https://issuer.example.com/issuers/1\",\n  \"name\": \"A\",\n  \"type\": [\n    \"VerifiableCredential\",\n    \"AchievementCredential\"\n  ],\n  \"id\": \"https://example.com/credential/1\",\n  \"@context\": [\n    \"https://www.w3.org/ns/credentials/v2\",\n    \"https://purl.imsglobal.org/spec/ob/v3p0/context-3.0.3.json\"\n  ]\n}";

const FORMATTING_COMPACT: &str = r#"{"id":"urn:badge:001","name":"Rust Badge","nested":{"b":2,"a":1},"list":[{"y":2,"z":1}]}"#;

const FORMATTING_PRETTY: &str = r#"
    {
      "list": [
        {
          "z": 1,
          "y": 2
        }
      ],
      "nested": {
        "a": 1,
        "b": 2
      },
      "name": "Rust Badge",
      "id": "urn:badge:001"
    }
    "#;

#[test]
fn formatting_only_json_variants_share_the_same_hash() {
    let compact_hash = normalized_json_hash_from_str(FORMATTING_COMPACT).expect("compact JSON should hash");
    let formatted_hash = normalized_json_hash_from_str(FORMATTING_PRETTY).expect("formatted JSON should hash");

    assert_eq!(compact_hash, formatted_hash);
}

#[test]
fn semantic_json_changes_produce_a_different_hash() {
    let left = r#"{"id":"urn:badge:001","name":"Rust Badge","nested":{"a":1,"b":2}}"#;
    let right = r#"{"id":"urn:badge:001","name":"Rust Badge","nested":{"a":1,"b":3}}"#;

    let left_hash = normalized_json_hash_from_str(left).expect("left JSON should hash");
    let right_hash = normalized_json_hash_from_str(right).expect("right JSON should hash");

    assert_ne!(left_hash, right_hash);
}

#[test]
fn clr_formatting_only_variants_share_the_same_hash() {
    let compact_hash = normalized_json_hash_from_str(CLR_COMPACT).expect("compact CLR should hash");
    let formatted_hash = normalized_json_hash_from_str(CLR_PRETTY).expect("formatted CLR should hash");

    assert_eq!(compact_hash, formatted_hash);
}

#[test]
fn open_badges_fixture_variants_share_the_same_hash() {
    let compact_hash = normalized_json_hash_from_str(OPEN_BADGES_COMPACT).expect("compact badge should hash");
    let formatted_hash = normalized_json_hash_from_str(OPEN_BADGES_PRETTY).expect("formatted badge should hash");

    assert_eq!(compact_hash, formatted_hash);
}

#[test]
fn fixture_semantic_changes_produce_different_hashes() {
    let open_badges_hash = normalized_json_hash_from_str(OPEN_BADGES_COMPACT).expect("badge payload should hash");
    let clr_hash = normalized_json_hash_from_str(CLR_COMPACT).expect("CLR payload should hash");
    let clr_conflict_hash = normalized_json_hash_from_str(CLR_CONFLICT).expect("conflicting CLR should hash");

    assert_ne!(open_badges_hash, clr_hash);
    assert_ne!(clr_hash, clr_conflict_hash);
}

#[test]
fn normalized_hashing_is_deterministic_across_repeated_runs() {
    let first = normalized_json_hash_from_str(OPEN_BADGES_PRETTY).expect("first hash should succeed");
    let second = normalized_json_hash_from_str(OPEN_BADGES_PRETTY).expect("second hash should succeed");
    let third = normalized_json_hash_from_str(OPEN_BADGES_PRETTY).expect("third hash should succeed");

    assert_eq!(first, second);
    assert_eq!(second, third);
}

#[test]
fn normalized_json_hash_formatting_only_json_variants_share_the_same_hash() {
    let compact_hash = normalized_json_hash_from_str(FORMATTING_COMPACT).expect("compact JSON should hash");
    let formatted_hash = normalized_json_hash_from_str(FORMATTING_PRETTY).expect("formatted JSON should hash");

    assert_eq!(compact_hash, formatted_hash);
}

#[test]
fn normalized_json_hash_semantic_json_changes_produce_a_different_hash() {
    let left = r#"{"id":"urn:badge:001","name":"Rust Badge","nested":{"a":1,"b":2}}"#;
    let right = r#"{"id":"urn:badge:001","name":"Rust Badge","nested":{"a":1,"b":3}}"#;

    let left_hash = normalized_json_hash_from_str(left).expect("left JSON should hash");
    let right_hash = normalized_json_hash_from_str(right).expect("right JSON should hash");

    assert_ne!(left_hash, right_hash);
}

#[test]
fn normalized_json_hash_clr_formatting_only_variants_share_the_same_hash() {
    let compact_hash = normalized_json_hash_from_str(CLR_COMPACT).expect("compact CLR should hash");
    let formatted_hash = normalized_json_hash_from_str(CLR_PRETTY).expect("formatted CLR should hash");

    assert_eq!(compact_hash, formatted_hash);
}

#[test]
fn normalized_hash_is_lowercase_sha256_of_canonical_text() {
    let value = parse_json(r#"{"b":[1,true,null],"a":"x"}"#).expect("valid JSON");
    let hash = json_value_hash(&value);
    assert_eq!(hash.len(), 64);
    assert!(hash.chars().all(|c| c.is_ascii_hexdigit() && !c.is_ascii_uppercase()));
    // SHA-256 of the canonical text {"a":"x","b":[1,true,null]}
    let reordered = JsonValue::Object(vec![
        (
            "b".to_owned(),
            JsonValue::Array(vec![JsonValue::Number("1".to_owned()), JsonValue::Bool(true), JsonValue::Null]),
        ),
        ("a".to_owned(), JsonValue::String("x".to_owned())),
    ]);
    let sorted = JsonValue::Object(vec![
        ("a".to_owned(), JsonValue::String("x".to_owned())),
        (
            "b".to_owned(),
            JsonValue::Array(vec![JsonValue::Number("1".to_owned()), JsonValue::Bool(true), JsonValue::Null]),
        ),
    ]);
    assert_eq!(json_value_hash(&reordered), json_value_hash(&sorted));
    assert_eq!(json_value_hash(&sorted), hash);
    assert_eq!(hash, "5b71bebbe6b3c09ca542ef17e30971a66ce4bd625875f2d4bb4dc9ed3271197a");
    assert_eq!(canonical_json_string(&reordered), r#"{"a":"x","b":[1,true,null]}"#);
}

#[test]
fn sha256_hex_gives_the_lowercase_digest() {
    assert_eq!(sha256_hex(""), "e3b0c44298fc1c149afbf4c8996fb92427ae41e4649b934ca495991b7852b855");
    assert_eq!(sha256_hex("alpha"), "8ed3f6ad685b959ead7022518e1af76cd816f8e8ec7ccdda1ed4018e8f2223f8");
}

#[test]
fn canonical_text_escapes_quotes_backslashes_and_control_characters() {
    let value = JsonValue::Object(vec![(
        "k\"ey\\".to_owned(),
        JsonValue::String("a\u{8}\t\n\u{c}\r\u{1}\u{1f} é/".to_owned()),
    )]);
    assert_eq!(
        canonical_json_string(&value),
        "{\"k\\\"ey\\\\\":\"a\\b\\t\\n\\f\\r\\u0001\\u001f é/\"}"
    );
}

#[test]
fn formatting_only_json_replays_share_hash() {
    let compact = r#"{"@context":["https://www.w3.org/ns/credentials/v2","https://purl.imsglobal.org/spec/ob/v3p0/context-3.0.3.json"],"id":"https://example.com/credential/1","type":["VerifiableCredential","AchievementCredential"],"name":"A","issuer":"https://issuer.example.com/issuers/1","validFrom":"2025-01-01T00:00:00Z","credentialSubject":{"type":"AchievementSubject","achievement":{"id":"https://example.com/achievements/a","type":"Achievement","name":"A","description":"A desc","criteria":{}}}}"#;
    let pretty = "{\n  \"credentialSubject\": {\n    \"achievement\": {\n      \"criteria\": {},\n      \"description\": \"A desc\",\n      \"id\": \"https://example.com/achievements/a\",\n      \"name\": \"A\",\n      \"type\": \"Achievement\"\n    },\n    \"type\": \"AchievementSubject\"\n  },\n  \"validFrom\": \"2025-01-01T00:00:00Z\",\n  \"issuer\": \"https://issuer.example.com/issuers/1\",\n  \"name\": \"A\",\n  \"type\": [\n    \"VerifiableCredential\",\n    \"AchievementCredential\"\n  ],\n  \"id\": \"https://example.com/credential/1\",\n  \"@context\": [\n    \"https://www.w3.org/ns/credentials/v2\",\n    \"https://purl.imsglobal.org/spec/ob/v3p0/context-3.0.3.json\"\n  ]\n}";
    assert_eq!(
        normalized_json_hash_from_str(compact).unwrap(),
        normalized_json_hash_from_str(pretty).unwrap()
    );
}

#[test]
fn bodies_that_are_not_json_are_refused_and_array_order_counts() {
    let error = normalized_json_hash("{").expect_err("not a JSON document");
    assert_eq!(error.kind, ErrorKind::Validation);
    assert_eq!(error.message, "invalid supported-standard json payload");
    let forward = normalized_json_hash("[1,2]").expect("array hashes");
    let backward = normalized_json_hash("[2,1]").expect("array hashes");
    assert_ne!(forward, backward);
    assert_eq!(forward.len(), 64);
    assert_eq!(forward, sha256_hex("[1,2]"));
    assert_eq!(normalized_json_hash(" {\"b\": 1, \"a\": [true]} ").unwrap(), sha256_hex("{\"a\":[true],\"b\":1}"));
}
