use mod_memory::application::queries::{
    parse_document_type, search_result_from_projection, source_result, SearchMemoryItemsQuery,
};
use mod_memory::application::register::{
    created_decision_reason, into_result, plan_registration, RegisterSourceCommand,
};
use mod_memory::domain::event::GraphProjectionEvent;
use mod_memory::domain::json::JsonValue;
use mod_memory::domain::source::{DocumentType, IngestKind};
use mod_memory::domain::source_identity::deterministic_source_id;
use mod_memory::error::ErrorKind;
use mod_memory::infra::indexer::{ProjectionSearchHit, ProjectionSearchResult, PublicIndexingStatus};
use mod_memory::infra::records::{PersistedIndexJobRecord, PersistedSourceBundle};
use mod_memory::domain::urn::DefaultIdGenerator;
use mod_memory::infra::surreal_source_repo::{
    bundle_from_records, memory_item_to_record, prepare_create_or_replay, source_to_record, SourceCreateOrReplay,
};

const URI: &str = "https://api.cherry-pick.net/ob/v2p0/issuer.example.org:urn%3Abadge%3A1";

fn command(hash: &str) -> RegisterSourceCommand {
    RegisterSourceCommand {
        external_id: URI.to_owned(),
        title: "Rust Badge".to_owned(),
        summary: None,
        document_type: DocumentType::Text,
        authoritative_content: "alpha\n\nbeta".to_owned(),
        source_metadata: JsonValue::Object(vec![
            ("topic".to_owned(), JsonValue::String("rust".to_owned())),
            ("system".to_owned(), JsonValue::String("caller supplied".to_owned())),
        ]),
        semantic_payload_hash: hash.to_owned(),
        original_standard_id: None,
        raw_body_hash: None,
        ingest_kind: IngestKind::Canonical,
    }
}

fn stored_bundle(hash: &str) -> PersistedSourceBundle {
    let (source, items) = plan_registration(&command(hash), 10, &DefaultIdGenerator).expect("valid command");
    PersistedSourceBundle {
        source: source_to_record(&source),
        memory_items: items.iter().map(memory_item_to_record).collect(),
        latest_job: Some(PersistedIndexJobRecord {
            job_id: 3,
            source_id: source.source_id,
            status: "completed".to_owned(),
            retry_count: 0,
            last_error: None,
            available_at: 10,
            created_at: 10,
            updated_at: 10,
        }),
    }
}

fn member<'a>(value: &'a JsonValue, key: &str) -> Option<&'a JsonValue> {
    match value {
        JsonValue::Object(members) => members.iter().find(|(k, _)| k == key).map(|(_, v)| v),
        _ => None,
    }
}

#[test]
fn commands_need_identity_title_hash_and_bounded_content() {
    assert!(command("h").validate().is_ok());
    let mut c = command("h");
    c.external_id = "  ".to_owned();
    assert_eq!(c.validate().expect_err("blank id").message, "external_id is required");
    let mut c = command("h");
    c.title = "\n".to_owned();
    assert_eq!(c.validate().expect_err("blank title").message, "title is required");
    let c = command(" ");
    assert_eq!(c.validate().expect_err("blank hash").message, "semantic_payload_hash is required");
    let mut c = command("h");
    c.authoritative_content = "x".repeat(10 * 1024 * 1024 + 1);
    let error = c.validate().expect_err("too large");
    assert_eq!(error.kind, ErrorKind::Validation);
    assert_eq!(error.message, "authoritative content exceeds the 10 MB ingest limit");
    c.authoritative_content = "x".repeat(10 * 1024 * 1024);
    assert!(c.validate().is_ok());
}

#[test]
fn planned_sources_get_a_derived_id_and_a_system_block() {
    let (source, items) = plan_registration(&command("hash-1"), 10, &DefaultIdGenerator).expect("valid command");
    assert_eq!(source.source_id, deterministic_source_id("v1", URI));
    assert_eq!(source.semantic_payload_hash, "hash-1");
    assert_eq!(items.len(), 2);
    assert_eq!(items[1].content, "beta");
    let system = member(&source.source_metadata, "system").expect("system block");
    assert!(matches!(member(system, "canonical_id_version"), Some(JsonValue::String(v)) if v == "v1"));
    assert!(matches!(member(system, "ingest_kind"), Some(JsonValue::String(v)) if v == "canonical"));
    assert!(matches!(member(system, "semantic_payload_hash"), Some(JsonValue::String(v)) if v == "hash-1"));
    assert!(matches!(member(system, "raw_body_hash"), Some(JsonValue::Null)));
    assert!(matches!(member(&source.source_metadata, "topic"), Some(JsonValue::String(v)) if v == "rust"));
    assert!(plan_registration(&command(""), 10, &DefaultIdGenerator).is_err());
}

#[test]
fn registrations_create_replay_or_conflict() {
    let (fresh, _) = plan_registration(&command("hash-1"), 10, &DefaultIdGenerator).expect("valid command");
    match prepare_create_or_replay(None, fresh, true).expect("create") {
        SourceCreateOrReplay::Create(s) => assert_eq!(s.semantic_payload_hash, "hash-1"),
        SourceCreateOrReplay::Replay(_) => panic!("nothing stored yet"),
    }

    let (same, _) = plan_registration(&command("hash-1"), 20, &DefaultIdGenerator).expect("valid command");
    match prepare_create_or_replay(Some(stored_bundle("hash-1")), same, true).expect("replay") {
        SourceCreateOrReplay::Replay(bundle) => {
            assert_eq!(bundle.source.external_id, URI);
            assert_eq!(bundle.memory_items.len(), 2);
            assert_eq!(bundle.indexing_status, PublicIndexingStatus::Indexed);
            assert_eq!(bundle.source.created_at, 10);
        },
        SourceCreateOrReplay::Create(_) => panic!("same payload must replay"),
    }

    let (different, _) = plan_registration(&command("hash-2"), 20, &DefaultIdGenerator).expect("valid command");
    let error = prepare_create_or_replay(Some(stored_bundle("hash-1")), different, true).expect_err("conflict");
    assert_eq!(error.kind, ErrorKind::Conflict);
    assert_eq!(error.error_code(), "CONFLICT");
}

#[test]
fn unreadable_stored_rows_are_internal_errors() {
    let mut bundle = stored_bundle("hash-1");
    bundle.source.document_type = "pdf".to_owned();
    let error = bundle_from_records(&bundle, true).expect_err("unknown document type");
    assert_eq!(error.kind, ErrorKind::Internal);
    let mut bundle = stored_bundle("hash-1");
    bundle.memory_items[0].unit_type = "chapter".to_owned();
    assert!(bundle_from_records(&bundle, true).is_err());
    let bundle = stored_bundle("hash-1");
    assert_eq!(bundle_from_records(&bundle, false).expect("readable").indexing_status, PublicIndexingStatus::Deferred);
}

#[test]
fn lookups_and_reports_hide_the_system_block() {
    let bundle = bundle_from_records(&stored_bundle("hash-1"), true).expect("readable");
    let result = source_result(&bundle);
    assert_eq!(result.decision_reason, "LOOKUP_RESOLVED_CANONICAL");
    assert!(member(&result.source_metadata, "system").is_none());
    assert!(member(&result.source_metadata, "topic").is_some());
    assert_eq!(result.memory_items.len(), 2);
    assert_eq!(result.memory_items[0].unit_type, "paragraph");

    let report = into_result(&bundle, true, "REPLAY_SEMANTIC_MATCH", "steady_state", "canonical");
    assert!(report.replayed);
    assert_eq!(report.memory_items[1].sequence, 1);
    assert!(member(&report.source_metadata, "system").is_none());
    assert_eq!(created_decision_reason(IngestKind::Canonical), "MANUAL_CANONICAL_ACCEPTED");
    assert_eq!(created_decision_reason(IngestKind::DirectStandard), "DIRECT_STANDARD_CANONICALIZED");

    match GraphProjectionEvent::source_registered(&bundle.source, &bundle.memory_items) {
        GraphProjectionEvent::SourceRegistered(event) => {
            assert_eq!(event.source_id, bundle.source.source_id);
            assert_eq!(event.memory_items.len(), 2);
            assert_eq!(event.memory_items[0].unit_type, "paragraph");
        },
    }
}

#[test]
fn search_queries_are_bounded_and_hits_read_back_document_types() {
    let q = SearchMemoryItemsQuery::default();
    assert_eq!(q.limit, 20);
    assert!(q.validate().is_ok());
    let mut q = SearchMemoryItemsQuery::default();
    q.limit = 0;
    assert_eq!(q.validate().expect_err("zero").kind, ErrorKind::Validation);
    q.limit = 101;
    assert!(q.validate().is_err());
    q.limit = 100;
    q.document_type = Some(DocumentType::Markdown);
    assert_eq!(q.to_projection_query().document_type.as_deref(), Some("markdown"));

    assert_eq!(parse_document_type("text"), DocumentType::Text);
    assert_eq!(parse_document_type("markdown"), DocumentType::Markdown);
    assert_eq!(parse_document_type("anything"), DocumentType::Json);

    let projection = ProjectionSearchResult {
        total: 7,
        limit: 1,
        offset: 2,
        items: vec![ProjectionSearchHit {
            urn: "urn:x".to_owned(),
            source_id: 4,
            sequence: 3,
            document_type: "markdown".to_owned(),
            content_preview: "p".to_owned(),
            score_bits: Some(0.5f32.to_bits()),
        }],
    };
    let result = search_result_from_projection(&projection);
    assert_eq!((result.total, result.limit, result.offset), (7, 1, 2));
    assert_eq!(result.items[0].document_type, DocumentType::Markdown);
    assert_eq!(result.items[0].score_bits.map(f32::from_bits), Some(0.5));
}

#[test]
fn a_second_registration_with_the_same_hash_replays_the_first_items() {
    let (first, first_items) = plan_registration(&command("hash-1"), 10, &DefaultIdGenerator).expect("valid command");
    let stored = PersistedSourceBundle {
        source: source_to_record(&first),
        memory_items: first_items.iter().map(memory_item_to_record).collect(),
        latest_job: None,
    };
    let mut second_command = command("hash-1");
    second_command.authoritative_content = "alpha\n\n\n   beta (reformatted)".to_owned();
    let (second, _) = plan_registration(&second_command, 99, &DefaultIdGenerator).expect("valid command");
    match prepare_create_or_replay(Some(stored), second, true).expect("replay") {
        SourceCreateOrReplay::Replay(bundle) => {
            assert_eq!(bundle.source.source_id, first.source_id);
            assert_eq!(bundle.source.created_at, 10);
            assert_eq!(bundle.memory_items.len(), first_items.len());
            for (replayed, original) in bundle.memory_items.iter().zip(first_items.iter()) {
                assert_eq!(replayed.urn, original.urn);
                assert_eq!(replayed.content, original.content);
                assert_eq!(replayed.unit_type, original.unit_type);
            }
            assert_eq!(bundle.memory_items[1].content, "beta");
        },
        SourceCreateOrReplay::Create(_) => panic!("same hash must replay"),
    }
}
