use vstd::prelude::*;
use crate::domain::json::{JsonValue, Json, duplicate_json, json_get, object_get, lemma_object_view, members_view, lemma_scalar_views};

verus! {

/// A stored source row.
#[derive(Debug)]
pub struct PersistedSourceRecord {
    pub source_id: u128,
    pub external_id: String,
    pub title: String,
    pub summary: Option<String>,
    pub document_type: String,
    pub source_metadata: JsonValue,
    pub created_at: i128,
    pub updated_at: i128,
}

/// A stored memory item row.
#[derive(Debug)]
pub struct PersistedMemoryItemRecord {
    pub urn: String,
    pub source_id: u128,
    pub sequence: u32,
    pub unit_type: String,
    pub start_offset: u32,
    pub end_offset: u32,
    pub version: String,
    pub content: String,
    pub content_hash: String,
    pub item_metadata: JsonValue,
    pub created_at: i128,
    pub updated_at: i128,
}

/// A stored indexing outbox row.
#[derive(Debug)]
pub struct PersistedIndexJobRecord {
    pub job_id: u128,
    pub source_id: u128,
    pub status: String,
    pub retry_count: u32,
    pub last_error: Option<String>,
    pub available_at: i128,
    pub created_at: i128,
    pub updated_at: i128,
}

/// The whole authoritative store: sources, memory items, indexing jobs,
/// the source identifiers remapped by a migration, the migration phase and
/// whether a restorable snapshot exists.
#[derive(Debug)]
pub struct PersistedAuthoritativeState {
    pub sources: Vec<PersistedSourceRecord>,
    pub memory_items: Vec<PersistedMemoryItemRecord>,
    pub index_jobs: Vec<PersistedIndexJobRecord>,
    pub source_id_remaps: Vec<(u128, u128)>,
    pub migration_phase: String,
    pub snapshot_ready: bool,
}

/// A source together with its memory items and its latest indexing job.
#[derive(Debug)]
pub struct PersistedSourceBundle {
    pub source: PersistedSourceRecord,
    pub memory_items: Vec<PersistedMemoryItemRecord>,
    pub latest_job: Option<PersistedIndexJobRecord>,
}

/// A source row with its metadata as a JSON model.
pub struct SourceModel {
    pub source_id: u128,
    pub external_id: Seq<char>,
    pub title: Seq<char>,
    pub summary: Option<Seq<char>>,
    pub document_type: Seq<char>,
    pub source_metadata: Json,
    pub created_at: i128,
    pub updated_at: i128,
}

/// A memory item row with its texts as character sequences.
pub struct ItemModel {
    pub urn: Seq<char>,
    pub source_id: u128,
    pub sequence: u32,
    pub unit_type: Seq<char>,
    pub start_offset: u32,
    pub end_offset: u32,
    pub version: Seq<char>,
    pub content: Seq<char>,
    pub content_hash: Seq<char>,
    pub item_metadata: Json,
    pub created_at: i128,
    pub updated_at: i128,
}

pub open spec fn opt_text(v: Option<String>) -> Option<Seq<char>> {
    match v {
        Some(s) => Some(s@),
        None => None,
    }
}

impl View for PersistedSourceRecord {
    type V = SourceModel;

    open spec fn view(&self) -> SourceModel {
        SourceModel {
            source_id: self.source_id,
            external_id: self.external_id@,
            title: self.title@,
            summary: opt_text(self.summary),
            document_type: self.document_type@,
            source_metadata: self.source_metadata@,
            created_at: self.created_at,
            updated_at: self.updated_at,
        }
    }
}

impl View for PersistedMemoryItemRecord {
    type V = ItemModel;

    open spec fn view(&self) -> ItemModel {
        ItemModel {
            urn: self.urn@,
            source_id: self.source_id,
            sequence: self.sequence,
            unit_type: self.unit_type@,
            start_offset: self.start_offset,
            end_offset: self.end_offset,
            version: self.version@,
            content: self.content@,
            content_hash: self.content_hash@,
            item_metadata: self.item_metadata@,
            created_at: self.created_at,
            updated_at: self.updated_at,
        }
    }
}

pub open spec fn sources_view(v: Seq<PersistedSourceRecord>) -> Seq<SourceModel> {
    Seq::new(v.len(), |i: int| v[i]@)
}

pub open spec fn items_model(v: Seq<PersistedMemoryItemRecord>) -> Seq<ItemModel> {
    Seq::new(v.len(), |i: int| v[i]@)
}

/// A source and its memory items, as read back to rebuild the search
/// projection.
#[derive(Debug)]
pub struct ProjectionRehydrationBundle {
    pub source: PersistedSourceRecord,
    pub memory_items: Vec<PersistedMemoryItemRecord>,
}

/// Two sources are the same row: equal fields, metadata compared as JSON.
pub open spec fn same_source(a: PersistedSourceRecord, b: PersistedSourceRecord) -> bool {
    &&& a.source_id == b.source_id
    &&& a.external_id == b.external_id
    &&& a.title == b.title
    &&& a.summary == b.summary
    &&& a.document_type == b.document_type
    &&& a.source_metadata@ == b.source_metadata@
    &&& a.created_at == b.created_at
    &&& a.updated_at == b.updated_at
}

/// Two memory items are the same row.
pub open spec fn same_item(a: PersistedMemoryItemRecord, b: PersistedMemoryItemRecord) -> bool {
    &&& a.urn == b.urn
    &&& a.source_id == b.source_id
    &&& a.sequence == b.sequence
    &&& a.unit_type == b.unit_type
    &&& a.start_offset == b.start_offset
    &&& a.end_offset == b.end_offset
    &&& a.version == b.version
    &&& a.content == b.content
    &&& a.content_hash == b.content_hash
    &&& a.item_metadata@ == b.item_metadata@
    &&& a.created_at == b.created_at
    &&& a.updated_at == b.updated_at
}

/// Two indexing jobs are the same row.
pub open spec fn same_job(a: PersistedIndexJobRecord, b: PersistedIndexJobRecord) -> bool {
    a == b
}

pub fn clone_opt_string(v: &Option<String>) -> (r: Option<String>)
    ensures
        r == *v,
{
    match v {
        Some(s) => Some(s.clone()),
        None => None,
    }
}

pub fn copy_source(r: &PersistedSourceRecord) -> (c: PersistedSourceRecord)
    ensures
        same_source(c, *r),
{
    PersistedSourceRecord {
        source_id: r.source_id,
        external_id: r.external_id.clone(),
        title: r.title.clone(),
        summary: clone_opt_string(&r.summary),
        document_type: r.document_type.clone(),
        source_metadata: duplicate_json(&r.source_metadata),
        created_at: r.created_at,
        updated_at: r.updated_at,
    }
}

pub fn copy_item(r: &PersistedMemoryItemRecord) -> (c: PersistedMemoryItemRecord)
    ensures
        same_item(c, *r),
{
    PersistedMemoryItemRecord {
        urn: r.urn.clone(),
        source_id: r.source_id,
        sequence: r.sequence,
        unit_type: r.unit_type.clone(),
        start_offset: r.start_offset,
        end_offset: r.end_offset,
        version: r.version.clone(),
        content: r.content.clone(),
        content_hash: r.content_hash.clone(),
        item_metadata: duplicate_json(&r.item_metadata),
        created_at: r.created_at,
        updated_at: r.updated_at,
    }
}

pub fn copy_job(r: &PersistedIndexJobRecord) -> (c: PersistedIndexJobRecord)
    ensures
        same_job(c, *r),
{
    PersistedIndexJobRecord {
        job_id: r.job_id,
        source_id: r.source_id,
        status: r.status.clone(),
        retry_count: r.retry_count,
        last_error: clone_opt_string(&r.last_error),
        available_at: r.available_at,
        created_at: r.created_at,
        updated_at: r.updated_at,
    }
}

/// The string at `/system/<key>` of a metadata document, if there is one.
pub open spec fn system_str(meta: Json, key: Seq<char>) -> Option<Seq<char>> {
    match meta {
        Json::Object(m) => match json_get(m, "system"@) {
            Some(Json::Object(sys)) => match json_get(sys, key) {
                Some(Json::String(t)) => Some(t),
                _ => None,
            },
            _ => None,
        },
        _ => None,
    }
}

/// Whether `/system/<key>` is present at all, whatever its value.
pub open spec fn system_has(meta: Json, key: Seq<char>) -> bool {
    match meta {
        Json::Object(m) => match json_get(m, "system"@) {
            Some(Json::Object(sys)) => json_get(sys, key) is Some,
            _ => false,
        },
        _ => false,
    }
}

fn system_member<'a>(meta: &'a JsonValue, key: &str) -> (r: Option<&'a JsonValue>)
    ensures
        r is Some <==> system_has(meta@, key@),
        r matches Some(v) ==> match meta@ {
            Json::Object(m) => match json_get(m, "system"@) {
                Some(Json::Object(sys)) => json_get(sys, key@) == Some(v@),
                _ => false,
            },
            _ => false,
        },
{
    proof {
        lemma_scalar_views(*meta);
        reveal_strlit("system");
    }
    match meta {
        JsonValue::Object(m) => {
            proof {
                lemma_object_view(*meta);
            }
            match object_get(m, "system") {
                Some(sys) => {
                    proof {
                        lemma_scalar_views(*sys);
                    }
                    match sys {
                        JsonValue::Object(sm) => {
                            proof {
                                lemma_object_view(*sys);
                            }
                            object_get(sm, key)
                        },
                        _ => None,
                    }
                },
                None => None,
            }
        },
        _ => None,
    }
}

/// The string at `/system/<key>` of a metadata document.
pub fn system_string<'a>(meta: &'a JsonValue, key: &str) -> (r: Option<&'a String>)
    ensures
        r is Some <==> system_str(meta@, key@) is Some,
        r matches Some(t) ==> system_str(meta@, key@) == Some(t@),
{
    match system_member(meta, key) {
        Some(v) => {
            proof {
                lemma_scalar_views(*v);
            }
            match v {
                JsonValue::String(t) => Some(t),
                _ => None,
            }
        },
        None => None,
    }
}

/// Whether `/system/<key>` is present.
pub fn system_contains(meta: &JsonValue, key: &str) -> (r: bool)
    ensures
        r == system_has(meta@, key@),
{
    system_member(meta, key).is_some()
}

} // verus!
