use mod_memory::domain::json::{parse_json, JsonValue};
use mod_memory::domain::source_external_id::{
    canonicalize_direct_standard_payload, normalize_object_id, normalize_source_domain, CanonicalSourceExternalId,
    DirectStandardProfile,
};
use mod_memory::domain::source_identity::{deterministic_source_id, source_seed, verify_source_id};
use uuid::Uuid;

fn parse(text: &str) -> JsonValue {
    parse_json(text).expect("valid JSON")
}

#[test]
fn classifies_open_badges_payloads() {
    let payload = parse(
        r#"{
            "@context": ["https://www.w3.org/ns/credentials/v2"],
            "type": ["VerifiableCredential", "OpenBadgeCredential"],
            "id": " urn:badge:1 ",
            "issuer": {
                "id": "https://issuer.example.org"
            },
            "name": " Rust Badge "
        }"#,
    );

    let standard = canonicalize_direct_standard_payload(&payload).expect("open badges payload should canonicalize");

    assert_eq!(standard.profile, DirectStandardProfile::OpenBadgesAchievementCredential);
    assert_eq!(
        standard.external_id.canonical_uri(),
        "https://api.cherry-pick.net/ob/v2p0/issuer.example.org:urn%3Abadge%3A1"
    );
    assert_eq!(standard.original_standard_id, "urn:badge:1");
    assert_eq!(standard.title, "Rust Badge");
}

#[test]
fn rejects_shape_valid_but_unmappable_standard_payloads() {
    let payload = parse(
        r#"{
            "@context": ["https://www.w3.org/ns/credentials/v2"],
            "type": ["VerifiableCredential"],
            "id": "urn:example:1",
            "name": "Example"
        }"#,
    );

    let error = canonicalize_direct_standard_payload(&payload).expect_err("unsupported standard must fail");

    assert_eq!(error.error_code(), "INVALID_STANDARD_PAYLOAD");
}

#[test]
fn clr_payloads_take_the_publisher_domain_first() {
    let payload = parse(
        r#"{
            "type": "ClrCredential",
            "id": "abc",
            "name": "Transcript",
            "publisher": {"id": "https://Registrar.Example.edu/path"},
            "issuer": {"id": "https://issuer.example.org"}
        }"#,
    );
    let standard = canonicalize_direct_standard_payload(&payload).expect("CLR payload should canonicalize");
    assert_eq!(standard.profile, DirectStandardProfile::ClrCredential);
    assert_eq!(
        standard.external_id.canonical_uri(),
        "https://api.cherry-pick.net/clr/v2p0/registrar.example.edu:abc"
    );
}

#[test]
fn payloads_without_a_trusted_domain_are_rejected() {
    let payload = parse(r#"{"type": "OpenBadgeCredential", "id": "x", "name": "n"}"#);
    let error = canonicalize_direct_standard_payload(&payload).expect_err("no issuer domain");
    assert_eq!(error.error_code(), "DIRECT_STANDARD_REJECTED_UNTRUSTED_DOMAIN");

    let not_object = parse(r#"["OpenBadgeCredential"]"#);
    let error = canonicalize_direct_standard_payload(&not_object).expect_err("not an object");
    assert_eq!(error.error_code(), "INVALID_INPUT");
}

#[test]
fn canonical_uris_parse_back_to_their_components() {
    let uri = "https://api.cherry-pick.net/ob/v2p0/issuer.example.org:urn%3Abadge%3A1";
    let id = CanonicalSourceExternalId::parse_canonical_uri(uri).expect("canonical URI should parse");
    assert_eq!(id.standard(), "ob");
    assert_eq!(id.version(), "v2p0");
    assert_eq!(id.source_domain(), "issuer.example.org");
    assert_eq!(id.object_id_raw(), "urn:badge:1");
    assert_eq!(id.canonical_uri(), uri);
}

#[test]
fn non_canonical_uris_are_rejected() {
    for uri in [
        "https://other.example/ob/v2p0/issuer.example.org:1",
        "https://api.cherry-pick.net/ob/v9p9/issuer.example.org:1",
        "https://api.cherry-pick.net/ob/v2p0/Issuer.Example.org:1",
        "https://api.cherry-pick.net/ob/v2p0/issuer.example.org:a b",
        "https://api.cherry-pick.net/ob/v2p0/issuer.example.org",
        "https://api.cherry-pick.net/ob/v2p0/:1",
    ] {
        let error = CanonicalSourceExternalId::parse_canonical_uri(uri).expect_err(uri);
        assert_eq!(error.error_code(), "INVALID_INPUT");
    }
}

#[test]
fn components_are_normalized() {
    let id = CanonicalSourceExternalId::from_components("clr", "v2p0", "HTTPS://Example.EDU/x", "  a b/c  ")
        .expect("components should be accepted");
    assert_eq!(id.source_domain(), "example.edu");
    assert_eq!(id.object_id_raw(), "a b/c");
    assert_eq!(id.canonical_uri(), "https://api.cherry-pick.net/clr/v2p0/example.edu:a%20b%2Fc");
    assert!(CanonicalSourceExternalId::from_components("ob", "v1p0", "example.edu", "a").is_err());
    assert_eq!(normalize_source_domain(" Example.COM ").expect("domain"), "example.com");
    assert!(normalize_source_domain("exa mple.com").is_err());
    assert_eq!(normalize_object_id(" ü ").expect("object id"), "%C3%BC");
    assert!(normalize_object_id("   ").is_err());
}

#[test]
fn source_ids_are_name_based_and_reproducible() {
    let uri = "https://api.cherry-pick.net/ob/v2p0/issuer.example.org:urn%3Abadge%3A1";
    assert_eq!(source_seed("v1", uri), format!("source|v1|{uri}"));
    let id = deterministic_source_id("v1", uri);
    assert_eq!(Uuid::from_u128(id).to_string(), "288a99ae-044a-5e4f-aac0-d0b24fa0b23b");
    assert!(verify_source_id("v1", uri, id));
    assert!(!verify_source_id("v1", uri, id ^ 1));
    assert_ne!(deterministic_source_id("v1", "https://api.cherry-pick.net/clr/v2p0/clr.example:abc"), id);
}

#[test]
fn built_identifiers_print_and_parse_back_to_the_same_components() {
    let built = CanonicalSourceExternalId::from_components("clr", "v2p0", " HTTPS://Issuer.Example.ORG/path ", "  urn:clr/é 1 ")
        .expect("components should be accepted");
    let uri = built.canonical_uri();
    assert_eq!(uri, "https://api.cherry-pick.net/clr/v2p0/issuer.example.org:urn%3Aclr%2F%C3%A9%201");
    let parsed = CanonicalSourceExternalId::parse_canonical_uri(&uri).expect("printed URI should parse");
    assert_eq!(parsed.standard(), built.standard());
    assert_eq!(parsed.version(), built.version());
    assert_eq!(parsed.source_domain(), built.source_domain());
    assert_eq!(parsed.object_id_raw(), built.object_id_raw());
    assert_eq!(parsed.canonical_uri(), uri);
}
