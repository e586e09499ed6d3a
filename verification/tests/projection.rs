use mod_memory::error::ErrorKind;
use mod_memory::infra::indexer::{ProjectionInput, ProjectionSearchQuery};
use mod_memory::infra::meili_indexer::{
    build_content_preview, build_filter, settings_snapshot, InMemoryMeiliProjectionIndex,
};
use uuid::Uuid;

fn input(urn: &str, source_id: u128, sequence: u32, preview: &str, updated_at: i128) -> ProjectionInput {
    ProjectionInput {
        urn: urn.to_owned(),
        source_id,
        sequence,
        document_type: "text".to_owned(),
        content_preview: preview.to_owned(),
        content_hash: format!("hash-{urn}"),
        created_at: 0,
        updated_at,
    }
}

fn query(text: Option<&str>, source_id: Option<u128>, limit: usize, offset: usize) -> ProjectionSearchQuery {
    ProjectionSearchQuery {
        query: text.map(|t| t.to_owned()),
        source_id,
        document_type: None,
        limit,
        offset,
    }
}

#[test]
fn settings_pin_the_index_layout() {
    let s = settings_snapshot();
    assert_eq!(s.index_uid, "memory_items_v1");
    assert_eq!(s.primary_key, "urn");
    assert_eq!(s.filterable_attributes, vec!["source_id", "document_type"]);
    assert_eq!(s.sortable_attributes, vec!["sequence", "created_at", "updated_at"]);
    assert_eq!(s.searchable_attributes, vec!["content_preview", "urn", "source_id", "content_hash"]);
    assert_eq!(s.displayed_attributes.len(), 8);
}

#[test]
fn filters_join_source_and_document_type() {
    let id = Uuid::parse_str("aaaaaaaa-aaaa-4aaa-8aaa-aaaaaaaaaaaa").unwrap().as_u128();
    let mut q = query(None, None, 10, 0);
    assert_eq!(build_filter(&q), None);
    q.source_id = Some(id);
    assert_eq!(
        build_filter(&q).as_deref(),
        Some("source_id = \"aaaaaaaa-aaaa-4aaa-8aaa-aaaaaaaaaaaa\"")
    );
    q.document_type = Some("markdown".to_owned());
    assert_eq!(
        build_filter(&q).as_deref(),
        Some("source_id = \"aaaaaaaa-aaaa-4aaa-8aaa-aaaaaaaaaaaa\" AND document_type = \"markdown\"")
    );
    q.source_id = None;
    assert_eq!(build_filter(&q).as_deref(), Some("document_type = \"markdown\""));
}

#[test]
fn previews_keep_the_first_five_hundred_characters() {
    let long: String = "é".repeat(600);
    let preview = build_content_preview(&long);
    assert_eq!(preview.chars().count(), 500);
    assert_eq!(build_content_preview("short"), "short");
}

#[test]
fn upserts_are_idempotent_and_searches_are_ordered_and_paged() {
    let mut index = InMemoryMeiliProjectionIndex::new();
    index.ensure_index().expect("index available");
    assert!(index.settings_snapshot().is_some());
    let docs = vec![
        input("urn:b", 1, 1, "Rust memory", 10),
        input("urn:a", 1, 0, "rust basics", 10),
        input("urn:c", 2, 0, "Go notes", 20),
    ];
    index.upsert(&docs).expect("upsert");
    index.upsert(&docs).expect("upsert again");
    let stored = index.documents();
    assert_eq!(stored.len(), 3);
    assert_eq!(stored.iter().map(|d| d.urn.as_str()).collect::<Vec<_>>(), vec!["urn:a", "urn:b", "urn:c"]);

    let all = index.search(&query(None, None, 10, 0)).expect("search");
    assert_eq!(all.total, 3);
    assert_eq!(all.items.iter().map(|h| h.urn.as_str()).collect::<Vec<_>>(), vec!["urn:c", "urn:a", "urn:b"]);

    let rust = index.search(&query(Some("RUST"), None, 10, 0)).expect("search");
    assert_eq!(rust.total, 2);
    assert_eq!(rust.items.iter().map(|h| h.urn.as_str()).collect::<Vec<_>>(), vec!["urn:a", "urn:b"]);

    let page = index.search(&query(None, Some(1), 1, 1)).expect("search");
    assert_eq!(page.total, 2);
    assert_eq!(page.limit, 1);
    assert_eq!(page.offset, 1);
    assert_eq!(page.items.len(), 1);
    assert_eq!(page.items[0].urn, "urn:b");
    assert!(page.items[0].score_bits.is_none());

    let by_source_text = index
        .search(&query(Some(&Uuid::from_u128(2).to_string()[24..]), None, 10, 0))
        .expect("search");
    assert_eq!(by_source_text.items.len(), 1);
    assert_eq!(by_source_text.items[0].urn, "urn:c");
}

#[test]
fn a_later_write_replaces_the_document_with_its_urn() {
    let mut index = InMemoryMeiliProjectionIndex::new();
    index.upsert(&vec![input("urn:a", 1, 0, "old", 1)]).expect("upsert");
    index.upsert(&vec![input("urn:a", 1, 0, "new", 2)]).expect("upsert");
    let stored = index.documents();
    assert_eq!(stored.len(), 1);
    assert_eq!(stored[0].content_preview, "new");
}

#[test]
fn an_unavailable_projection_reports_degraded_search() {
    let mut index = InMemoryMeiliProjectionIndex::new();
    index.set_available(false);
    assert!(!index.is_available());
    let error = index.search(&query(None, None, 10, 0)).expect_err("unavailable");
    assert_eq!(error.kind, ErrorKind::SearchDegraded);
    assert_eq!(error.error_code(), "SEARCH_UNAVAILABLE");
    assert!(index.upsert(&vec![input("urn:a", 1, 0, "x", 1)]).is_err());
    assert!(index.documents().is_empty());
    assert!(index.ensure_index().is_err());
    assert!(index.settings_snapshot().is_none());
}

#[test]
fn meilisearch_projection_contract_pins_index_settings() {
    let mut adapter = InMemoryMeiliProjectionIndex::new();
    adapter.ensure_index().expect("settings bootstrap should succeed");
    let settings = adapter.settings_snapshot().expect("settings snapshot should be recorded");
    assert_eq!(settings.index_uid, "memory_items_v1");
    assert_eq!(settings.primary_key, "urn");
    assert_eq!(settings.filterable_attributes, ["source_id", "document_type"]);
    assert_eq!(settings.sortable_attributes, ["sequence", "created_at", "updated_at"]);
    assert_eq!(settings.searchable_attributes, ["content_preview", "urn", "source_id", "content_hash"]);
}

#[test]
fn meilisearch_projection_contract_is_idempotent_and_filterable() {
    let mut adapter = InMemoryMeiliProjectionIndex::new();
    let source_id = Uuid::new_v4().as_u128();
    let created_at: i128 = 1_700_000_000_000_000_000;
    let first = ProjectionInput {
        urn: "urn:memory-item:1".to_owned(),
        source_id,
        sequence: 0,
        document_type: "json".to_owned(),
        content_preview: "Rust badge preview".to_owned(),
        content_hash: "hash-1".to_owned(),
        created_at,
        updated_at: created_at,
    };
    adapter.upsert(&vec![first]).expect("first upsert should succeed");
    let second = ProjectionInput {
        urn: "urn:memory-item:1".to_owned(),
        source_id,
        sequence: 0,
        document_type: "json".to_owned(),
        content_preview: "Updated Rust badge preview".to_owned(),
        content_hash: "hash-2".to_owned(),
        created_at,
        updated_at: created_at,
    };
    adapter.upsert(&vec![second]).expect("idempotent replace should succeed");

    let docs = adapter.documents();
    assert_eq!(docs.len(), 1);
    assert_eq!(docs[0].content_hash, "hash-2");

    let result = adapter
        .search(&ProjectionSearchQuery {
            query: Some("Rust".to_owned()),
            source_id: Some(source_id),
            document_type: Some("json".to_owned()),
            limit: 10,
            offset: 0,
        })
        .expect("filtered search should succeed");
    assert_eq!(result.total, 1);
    assert_eq!(result.items[0].document_type, "json");
    assert!(result.items[0].content_preview.contains("Updated Rust badge preview"));
}

#[test]
fn meilisearch_projection_contract_surfaces_degraded_availability() {
    let mut adapter = InMemoryMeiliProjectionIndex::new();
    adapter.set_available(false);
    let error = adapter
        .search(&ProjectionSearchQuery {
            query: Some("hello".to_owned()),
            source_id: None,
            document_type: None,
            limit: 10,
            offset: 0,
        })
        .expect_err("search should fail when projection is unavailable");
    assert_eq!(error.error_code(), "SEARCH_UNAVAILABLE");
}
