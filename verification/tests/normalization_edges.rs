use mod_memory::domain::json::JsonValue;
use mod_memory::domain::normalization::{normalize_source, NormalizationInput};
use mod_memory::domain::source::DocumentType;
use time::OffsetDateTime;
use uuid::Uuid;
use mod_memory::domain::urn::DefaultIdGenerator;

fn nanos(seconds: i64) -> i128 {
    OffsetDateTime::from_unix_timestamp(seconds)
        .expect("valid timestamp")
        .unix_timestamp_nanos()
}

fn object(members: Vec<(&str, &str)>) -> JsonValue {
    JsonValue::Object(
        members
            .into_iter()
            .map(|(k, v)| (k.to_owned(), JsonValue::String(v.to_owned())))
            .collect(),
    )
}

#[test]
fn empty_content_creates_a_metadata_placeholder_item() {
    let source_id = Uuid::parse_str("aaaaaaaa-aaaa-4aaa-8aaa-aaaaaaaaaaaa")
        .expect("valid source id")
        .as_u128();
    let created_at = nanos(1_700_000_000);
    let generator = DefaultIdGenerator;
    let metadata = object(vec![("topic", "empty")]);

    let items = normalize_source(
        &NormalizationInput {
            source_id,
            external_id: "empty-source",
            title: "Empty Source",
            summary: Some("placeholder"),
            document_type: DocumentType::Text,
            authoritative_content: "",
            source_metadata: &metadata,
            created_at,
        },
        &generator,
    )
    .expect("empty content should normalize");

    assert_eq!(items.len(), 1);
    assert_eq!(items[0].sequence, 0);
    assert_eq!(items[0].unit_type.as_str(), "metadata_placeholder");
    assert_eq!(items[0].start_offset, 0);
    assert_eq!(items[0].end_offset, 0);
    assert_eq!(items[0].content, "");
}

#[test]
fn normalization_is_deterministic_for_sequence_and_urns() {
    let source_id = Uuid::parse_str("bbbbbbbb-bbbb-4bbb-8bbb-bbbbbbbbbbbb")
        .expect("valid source id")
        .as_u128();
    let created_at = nanos(1_700_000_001);
    let generator = DefaultIdGenerator;
    let metadata = object(vec![("topic", "deterministic")]);
    let input = NormalizationInput {
        source_id,
        external_id: "deterministic-source",
        title: "Deterministic Source",
        summary: None,
        document_type: DocumentType::Text,
        authoritative_content: "alpha\n\nbeta\n\ngamma",
        source_metadata: &metadata,
        created_at,
    };

    let first = normalize_source(&input, &generator).expect("first normalization should succeed");
    let second = normalize_source(&input, &generator).expect("second normalization should succeed");

    assert_eq!(first.len(), 3);
    assert_eq!(first.len(), second.len());

    for (index, (left, right)) in first.iter().zip(second.iter()).enumerate() {
        assert_eq!(left.sequence as usize, index);
        assert_eq!(left.sequence, right.sequence);
        assert_eq!(left.urn, right.urn);
        assert_eq!(left.start_offset, right.start_offset);
        assert_eq!(left.end_offset, right.end_offset);
    }
}

#[test]
fn utf8_offsets_follow_raw_byte_ranges() {
    let source_id = Uuid::parse_str("dddddddd-dddd-4ddd-8ddd-dddddddddddd")
        .expect("valid source id")
        .as_u128();
    let created_at = nanos(1_700_000_003);
    let generator = DefaultIdGenerator;
    let raw_body = "가나다\n\nRust";
    let metadata = JsonValue::Object(vec![]);

    let items = normalize_source(
        &NormalizationInput {
            source_id,
            external_id: "utf8-source",
            title: "UTF-8 Source",
            summary: None,
            document_type: DocumentType::Text,
            authoritative_content: raw_body,
            source_metadata: &metadata,
            created_at,
        },
        &generator,
    )
    .expect("utf-8 content should normalize");

    assert_eq!(items.len(), 2);
    assert_eq!(items[0].content, "가나다");
    assert_eq!(items[0].start_offset, 0);
    assert_eq!(items[0].end_offset, 9);
    assert_eq!(items[1].content, "Rust");
    assert_eq!(items[1].start_offset, 11);
    assert_eq!(items[1].end_offset, 15);
    assert_eq!(
        &raw_body[items[0].start_offset as usize..items[0].end_offset as usize],
        "가나다"
    );
    assert_eq!(
        &raw_body[items[1].start_offset as usize..items[1].end_offset as usize],
        "Rust"
    );
}

const CLR_COMPACT: &str = r#"{"@context":["https://www.w3.org/ns/credentials/v2","https://purl.imsglobal.org/spec/clr/v2p0/context-2.0.1.json"],"id":"https://clr.example/credentials/123","type":["VerifiableCredential","ClrCredential"],"issuer":{"id":"https://clr.example/issuers/1","type":["Profile"],"name":"Example University"},"name":"Rust CLR","validFrom":"2025-01-01T00:00:00Z","credentialSubject":{"type":["ClrSubject"]}}"#;

#[test]
fn direct_standard_json_creates_one_json_document_item() {
    let source_id = Uuid::parse_str("cccccccc-cccc-4ccc-8ccc-cccccccccccc")
        .expect("valid source id")
        .as_u128();
    let created_at = nanos(1_700_000_002);
    let generator = DefaultIdGenerator;
    let raw_body = CLR_COMPACT;
    let metadata = object(vec![("standard", "clr")]);

    let items = normalize_source(
        &NormalizationInput {
            source_id,
            external_id: "https://clr.example/credentials/123",
            title: "Rust CLR",
            summary: Some("json document"),
            document_type: DocumentType::Json,
            authoritative_content: raw_body,
            source_metadata: &metadata,
            created_at,
        },
        &generator,
    )
    .expect("json normalization should succeed");

    assert_eq!(items.len(), 1);
    assert_eq!(items[0].unit_type.as_str(), "json_document");
    assert_eq!(items[0].sequence, 0);
    assert_eq!(items[0].start_offset, 0);
    assert_eq!(items[0].end_offset as usize, raw_body.len());
    assert_eq!(items[0].content, raw_body);
}

#[test]
fn text_normalization_uses_utf8_byte_offsets() {
    let metadata = JsonValue::Object(vec![]);
    let items = normalize_source(
        &NormalizationInput {
            source_id: Uuid::parse_str("aaaaaaaa-aaaa-4aaa-8aaa-aaaaaaaaaaaa").unwrap().as_u128(),
            external_id: "utf8-source",
            title: "UTF8",
            summary: None,
            document_type: DocumentType::Text,
            authoritative_content: "가나다\n\nRust",
            source_metadata: &metadata,
            created_at: OffsetDateTime::now_utc().unix_timestamp_nanos(),
        },
        &DefaultIdGenerator,
    )
    .unwrap();

    assert_eq!(items.len(), 2);
    assert_eq!(items[0].start_offset, 0);
    assert_eq!(items[0].end_offset, 9);
    assert_eq!(items[1].start_offset, 11);
    assert_eq!(items[1].end_offset, 15);
}

#[test]
fn markdown_sections_start_at_headings() {
    let metadata = JsonValue::Object(vec![]);
    let content = "intro\n# One\nbody\n# Two\nmore";
    let items = normalize_source(
        &NormalizationInput {
            source_id: 7,
            external_id: "md",
            title: "MD",
            summary: None,
            document_type: DocumentType::Markdown,
            authoritative_content: content,
            source_metadata: &metadata,
            created_at: 0,
        },
        &DefaultIdGenerator,
    )
    .unwrap();

    let pieces: Vec<&str> = items
        .iter()
        .map(|item| &content[item.start_offset as usize..item.end_offset as usize])
        .collect();
    assert!(items.iter().all(|item| item.unit_type.as_str() == "section"));
    assert_eq!(pieces, vec!["# One\nbody", "# Two\nmore"]);
    for (index, item) in items.iter().enumerate() {
        assert_eq!(item.sequence as usize, index);
        assert_eq!(item.content, pieces[index]);
        assert_eq!(item.version, "1");
        assert_eq!(item.created_at, 0);
    }
}

#[test]
fn memory_item_urns_and_hashes_follow_the_content() {
    let metadata = JsonValue::Object(vec![]);
    let items = normalize_source(
        &NormalizationInput {
            source_id: 1,
            external_id: "t",
            title: "T",
            summary: None,
            document_type: DocumentType::Text,
            authoritative_content: "alpha",
            source_metadata: &metadata,
            created_at: 5,
        },
        &DefaultIdGenerator,
    )
    .unwrap();
    assert_eq!(items.len(), 1);
    assert_eq!(items[0].unit_type.as_str(), "paragraph");
    assert_eq!(
        items[0].content_hash,
        "8ed3f6ad685b959ead7022518e1af76cd816f8e8ec7ccdda1ed4018e8f2223f8"
    );
    assert_eq!(
        items[0].urn,
        format!(
            "urn:memory-item:{}:0:0:5:8ed3f6ad685b959ead7022518e1af76cd816f8e8ec7ccdda1ed4018e8f2223f8",
            Uuid::from_u128(1)
        )
    );
}
