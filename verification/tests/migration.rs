use mod_memory::domain::json::JsonValue;
use mod_memory::domain::normalization::{normalized_json_hash, sha256_hex};
use mod_memory::domain::source_identity::deterministic_source_id;
use mod_memory::error::ErrorKind;
use mod_memory::infra::migration::MigrationClassification;
use mod_memory::infra::records::{
    PersistedAuthoritativeState, PersistedIndexJobRecord, PersistedMemoryItemRecord, PersistedSourceRecord,
};
use mod_memory::infra::source_migration::InMemorySourceMigration;
use mod_memory::domain::urn::DefaultIdGenerator;

const URI: &str = "https://api.cherry-pick.net/ob/v2p0/issuer.example.org:urn%3Abadge%3A1";
const BADGE_BODY: &str = r#"{"type":["VerifiableCredential","OpenBadgeCredential"],"id":"urn:badge:9","name":"Badge","issuer":{"id":"https://issuer.example.org"}}"#;

fn system(hash: &str) -> JsonValue {
    JsonValue::Object(vec![(
        "system".to_owned(),
        JsonValue::Object(vec![("semantic_payload_hash".to_owned(), JsonValue::String(hash.to_owned()))]),
    )])
}

fn source(id: u128, external_id: &str, document_type: &str, metadata: JsonValue, created_at: i128) -> PersistedSourceRecord {
    PersistedSourceRecord {
        source_id: id,
        external_id: external_id.to_owned(),
        title: format!("source {id}"),
        summary: None,
        document_type: document_type.to_owned(),
        source_metadata: metadata,
        created_at,
        updated_at: created_at,
    }
}

fn item(source_id: u128, content: &str) -> PersistedMemoryItemRecord {
    PersistedMemoryItemRecord {
        urn: format!("legacy:{source_id}"),
        source_id,
        sequence: 0,
        unit_type: "json_document".to_owned(),
        start_offset: 0,
        end_offset: content.len() as u32,
        version: "1".to_owned(),
        content: content.to_owned(),
        content_hash: sha256_hex(content),
        item_metadata: JsonValue::Object(vec![]),
        created_at: 0,
        updated_at: 0,
    }
}

fn job(source_id: u128) -> PersistedIndexJobRecord {
    PersistedIndexJobRecord {
        job_id: source_id + 1000,
        source_id,
        status: "completed".to_owned(),
        retry_count: 0,
        last_error: None,
        available_at: 0,
        created_at: 0,
        updated_at: 0,
    }
}

fn clean_store() -> PersistedAuthoritativeState {
    PersistedAuthoritativeState {
        sources: vec![
            source(30, URI, "text", system("h1"), 5),
            source(10, "legacy-a", "json", JsonValue::Object(vec![]), 1),
            source(20, URI, "text", system("h1"), 3),
        ],
        memory_items: vec![item(10, BADGE_BODY), item(20, "twenty"), item(30, "thirty")],
        index_jobs: vec![job(10), job(20)],
        source_id_remaps: vec![],
        migration_phase: "steady_state".to_owned(),
        snapshot_ready: true,
    }
}

#[test]
fn dry_runs_classify_and_group_legacy_rows() {
    let store = clean_store();
    let migration = InMemorySourceMigration::new(store);
    let report = migration.dry_run().expect("dry run");
    assert_eq!(report.migration_phase, "dry_run");
    let ids: Vec<u128> = report.rows.iter().map(|r| r.legacy_source_id).collect();
    assert_eq!(ids, vec![10, 20, 30]);

    let badge = &report.rows[0];
    let badge_uri = "https://api.cherry-pick.net/ob/v2p0/issuer.example.org:urn%3Abadge%3A9";
    assert_eq!(badge.classification, MigrationClassification::Migratable);
    assert_eq!(badge.candidate_canonical_external_id, badge_uri);
    assert_eq!(badge.candidate_source_seed, format!("source|v1|{badge_uri}"));
    assert_eq!(badge.candidate_source_id, deterministic_source_id("v1", badge_uri));
    assert_eq!(badge.original_standard_id.as_deref(), Some("urn:badge:9"));
    assert_eq!(badge.semantic_payload_hash, normalized_json_hash(BADGE_BODY).expect("badge body hashes"));
    assert_eq!(badge.raw_body_hash.as_deref(), Some(sha256_hex(BADGE_BODY).as_str()));
    assert!(badge.raw_body_hash_present);
    assert_eq!(badge.dependent_reference_counts.memory_item, 1);
    assert_eq!(badge.dependent_reference_counts.memory_index_job, 1);
    assert_eq!(badge.planned_action, "rewrite");

    for row in &report.rows[1..] {
        assert_eq!(row.classification, MigrationClassification::Consolidate);
        assert_eq!(row.decision_reason, "LEGACY_ROW_CONSOLIDATE_MATCH");
        assert_eq!(row.legacy_resolution_path, "shadow_duplicate");
        assert_eq!(row.planned_action, "consolidate");
    }
    let s = report.summary;
    assert_eq!((s.total_rows, s.migratable_rows, s.consolidation_groups), (3, 1, 1));
    assert_eq!((s.unmigratable_rows, s.conflict_groups, s.reference_gap_rows), (0, 0, 0));
    assert!(!s.stop_required);
}

#[test]
fn conflicting_duplicates_and_missing_components_stop_the_migration() {
    let mut store = clean_store();
    store.sources[0].source_metadata = system("h2");
    store.sources.push(source(40, "legacy-text", "text", system("h4"), 0));
    let mut migration = InMemorySourceMigration::new(store);
    let report = migration.dry_run().expect("dry run");
    let conflict = report.rows.iter().find(|r| r.legacy_source_id == 30).unwrap();
    assert_eq!(conflict.classification, MigrationClassification::Unmigratable);
    assert_eq!(conflict.decision_reason, "LEGACY_ROW_UNMIGRATABLE_DUPLICATE_CONFLICT");
    let missing = report.rows.iter().find(|r| r.legacy_source_id == 40).unwrap();
    assert_eq!(missing.decision_reason, "LEGACY_ROW_UNMIGRATABLE_MISSING_CANONICAL_COMPONENT");
    assert_eq!(missing.candidate_source_id, 40);
    assert_eq!(missing.candidate_source_seed, "");
    assert_eq!(report.summary.unmigratable_rows, 3);
    assert_eq!(report.summary.conflict_groups, 1);
    assert_eq!(report.summary.reference_gap_rows, 1);
    assert!(report.summary.stop_required);

    let error = migration.execute(&DefaultIdGenerator).expect_err("stop condition");
    assert_eq!(error.kind, ErrorKind::Conflict);
    assert_eq!(error.error_code(), "MIGRATION_STOP_CONDITION");
    assert_eq!(migration.state.sources.len(), 4);
}

#[test]
fn rows_without_hash_material_abort_the_dry_run() {
    let mut store = clean_store();
    store.sources.push(source(50, "legacy-text", "text", JsonValue::Object(vec![]), 0));
    let migration = InMemorySourceMigration::new(store);
    let error = migration.dry_run().expect_err("missing material");
    assert_eq!(error.error_code(), "MIGRATION_STOP_CONDITION");
}

#[test]
fn execution_needs_a_snapshot() {
    let mut store = clean_store();
    store.snapshot_ready = false;
    let mut migration = InMemorySourceMigration::new(store);
    let error = migration.execute(&DefaultIdGenerator).expect_err("no snapshot");
    assert_eq!(error.kind, ErrorKind::StorageUnavailable);
    assert_eq!(error.error_code(), "MIGRATION_BACKUP_GATE_FAILED");
}

#[test]
fn executed_migrations_rewrite_the_store_and_verify() {
    let store = clean_store();
    let mut migration = InMemorySourceMigration::new(store);
    let before = migration.snapshot();
    let legacy_check = migration.verify(&migration.dry_run().expect("dry run"));
    assert_eq!(
        legacy_check.expect_err("legacy rows lack the current system block").error_code(),
        "MIGRATION_VERIFICATION_FAILED"
    );

    let report = migration.execute(&DefaultIdGenerator).expect("migration runs");
    let state = &migration.state;
    assert_eq!(state.migration_phase, "verification");
    assert_eq!(state.sources.len(), 2);
    let mut targets: Vec<u128> = report.rows.iter().map(|r| r.candidate_source_id).collect();
    targets.sort();
    targets.dedup();
    assert_eq!(state.sources.iter().map(|s| s.source_id).collect::<Vec<_>>(), targets);
    let merged = state.sources.iter().find(|s| s.external_id == URI).expect("consolidated source");
    assert_eq!(merged.created_at, 3);
    assert_eq!(merged.title, "source 20");
    assert_eq!(state.memory_items.len(), 3);
    assert!(state.memory_items.iter().all(|i| targets.contains(&i.source_id)));
    assert_eq!(state.index_jobs.len(), 2);
    assert_eq!(state.source_id_remaps.len(), 3);

    let verification = migration.verify(&report).expect("verifies");
    assert!(verification.verified);
    assert_eq!(verification.canonical_row_count, 2);
    assert_eq!(verification.remap_count, 3);

    migration.complete_cutover();
    assert_eq!(migration.state.migration_phase, "steady_state");
    assert!(migration.state.source_id_remaps.is_empty());

    migration.rollback(before);
    assert_eq!(migration.state.sources.len(), 3);
    assert_eq!(migration.state.migration_phase, "steady_state");
}
