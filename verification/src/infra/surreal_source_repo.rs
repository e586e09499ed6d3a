use vstd::prelude::*;
use crate::domain::json::{JsonValue, Json, duplicate_json};
use crate::domain::memory_item::{MemoryItem, UnitType, unit_type_from_name, unit_type_named};
use crate::domain::source::{DocumentType, Source, document_type_from_name, document_type_named};
use crate::error::{AppError, AppResult, ErrorKind};
use crate::infra::indexer::{OutboxStatus, PublicIndexingStatus, derive_public_indexing_status, public_status_of};
use crate::infra::records::{
    PersistedSourceRecord, PersistedMemoryItemRecord, PersistedSourceBundle, system_str, system_string, clone_opt_string,
};
use crate::text::str_eq;

verus! {

/// A source about to be registered, with the semantic payload hash its
/// registration is keyed on.
#[derive(Debug)]
pub struct NewSource {
    pub source_id: u128,
    pub external_id: String,
    pub title: String,
    pub summary: Option<String>,
    pub document_type: DocumentType,
    pub source_metadata: JsonValue,
    pub semantic_payload_hash: String,
    pub created_at: i128,
    pub updated_at: i128,
}

/// A stored source with its memory items and public indexing status.
#[derive(Debug)]
pub struct SourceBundle {
    pub source: Source,
    pub memory_items: Vec<MemoryItem>,
    pub indexing_status: PublicIndexingStatus,
}

/// Whether a registration creates a new source or replays a stored one.
#[derive(Debug)]
pub enum SourceCreateOrReplay {
    Create(NewSource),
    Replay(SourceBundle),
}

pub fn document_type_from_str(value: &str) -> (r: AppResult<DocumentType>)
    ensures
        match document_type_named(value@) {
            Some(d) => r == Ok::<DocumentType, AppError>(d),
            None => r matches Err(e) && e.kind == ErrorKind::Internal,
        },
{
    match document_type_from_name(value) {
        Some(d) => Ok(d),
        None => Err(AppError::internal("unknown document_type")),
    }
}

pub fn memory_unit_type_from_str(value: &str) -> (r: AppResult<UnitType>)
    ensures
        match unit_type_named(value@) {
            Some(u) => r == Ok::<UnitType, AppError>(u),
            None => r matches Err(e) && e.kind == ErrorKind::Internal,
        },
{
    match unit_type_from_name(value) {
        Some(u) => Ok(u),
        None => Err(AppError::internal("unknown unit_type")),
    }
}

/// The source a stored row describes, when its document type is known.
pub open spec fn source_of_record(r: PersistedSourceRecord, s: Source) -> bool {
    &&& s.source_id == r.source_id
    &&& s.external_id == r.external_id
    &&& s.title == r.title
    &&& s.summary == r.summary
    &&& document_type_named(r.document_type@) == Some(s.document_type)
    &&& s.source_metadata@ == r.source_metadata@
    &&& s.created_at == r.created_at
    &&& s.updated_at == r.updated_at
}

pub fn source_from_record(record: &PersistedSourceRecord) -> (r: AppResult<Source>)
    ensures
        r is Ok <==> document_type_named(record.document_type@) is Some,
        r matches Ok(s) ==> source_of_record(*record, s),
        r matches Err(e) ==> e.kind == ErrorKind::Internal,
{
    let document_type = document_type_from_str(record.document_type.as_str())?;
    Ok(
        Source {
            source_id: record.source_id,
            external_id: record.external_id.clone(),
            title: record.title.clone(),
            summary: clone_opt_string(&record.summary),
            document_type,
            source_metadata: duplicate_json(&record.source_metadata),
            created_at: record.created_at,
            updated_at: record.updated_at,
        },
    )
}

/// The memory item a stored row describes, when its unit type is known.
pub open spec fn item_of_record(r: PersistedMemoryItemRecord, m: MemoryItem) -> bool {
    &&& m.urn == r.urn
    &&& m.source_id == r.source_id
    &&& m.sequence == r.sequence
    &&& unit_type_named(r.unit_type@) == Some(m.unit_type)
    &&& m.start_offset == r.start_offset
    &&& m.end_offset == r.end_offset
    &&& m.version == r.version
    &&& m.content == r.content
    &&& m.content_hash == r.content_hash
    &&& m.item_metadata@ == r.item_metadata@
    &&& m.created_at == r.created_at
    &&& m.updated_at == r.updated_at
}

pub fn memory_item_from_record(record: &PersistedMemoryItemRecord) -> (r: AppResult<MemoryItem>)
    ensures
        r is Ok <==> unit_type_named(record.unit_type@) is Some,
        r matches Ok(m) ==> item_of_record(*record, m),
        r matches Err(e) ==> e.kind == ErrorKind::Internal,
{
    let unit_type = memory_unit_type_from_str(record.unit_type.as_str())?;
    Ok(
        MemoryItem {
            urn: record.urn.clone(),
            source_id: record.source_id,
            sequence: record.sequence,
            unit_type,
            start_offset: record.start_offset,
            end_offset: record.end_offset,
            version: record.version.clone(),
            content: record.content.clone(),
            content_hash: record.content_hash.clone(),
            item_metadata: duplicate_json(&record.item_metadata),
            created_at: record.created_at,
            updated_at: record.updated_at,
        },
    )
}

/// The row a registration writes for a memory item.
pub open spec fn record_of_item(r: PersistedMemoryItemRecord, item: MemoryItem) -> bool {
    &&& r.urn == item.urn
    &&& r.source_id == item.source_id
    &&& r.sequence == item.sequence
    &&& r.unit_type@ == item.unit_type.name()
    &&& r.start_offset == item.start_offset
    &&& r.end_offset == item.end_offset
    &&& r.version == item.version
    &&& r.content == item.content
    &&& r.content_hash == item.content_hash
    &&& r.item_metadata@ == item.item_metadata@
    &&& r.created_at == item.created_at
    &&& r.updated_at == item.updated_at
}

/// The row a registration writes for a new source.
pub open spec fn record_of_source(r: PersistedSourceRecord, source: NewSource) -> bool {
    &&& r.source_id == source.source_id
    &&& r.external_id == source.external_id
    &&& r.title == source.title
    &&& r.summary == source.summary
    &&& r.document_type@ == source.document_type.name()
    &&& r.source_metadata@ == source.source_metadata@
    &&& r.created_at == source.created_at
    &&& r.updated_at == source.updated_at
}

/// The stored row of a memory item.
pub fn memory_item_to_record(item: &MemoryItem) -> (r: PersistedMemoryItemRecord)
    ensures
        record_of_item(r, *item),
{
    PersistedMemoryItemRecord {
        urn: item.urn.clone(),
        source_id: item.source_id,
        sequence: item.sequence,
        unit_type: item.unit_type.as_str().to_owned(),
        start_offset: item.start_offset,
        end_offset: item.end_offset,
        version: item.version.clone(),
        content: item.content.clone(),
        content_hash: item.content_hash.clone(),
        item_metadata: duplicate_json(&item.item_metadata),
        created_at: item.created_at,
        updated_at: item.updated_at,
    }
}

/// The stored row of a source about to be registered.
pub fn source_to_record(source: &NewSource) -> (r: PersistedSourceRecord)
    ensures
        record_of_source(r, *source),
{
    PersistedSourceRecord {
        source_id: source.source_id,
        external_id: source.external_id.clone(),
        title: source.title.clone(),
        summary: clone_opt_string(&source.summary),
        document_type: source.document_type.as_str().to_owned(),
        source_metadata: duplicate_json(&source.source_metadata),
        created_at: source.created_at,
        updated_at: source.updated_at,
    }
}

/// The public indexing status of a stored bundle: from the status of its
/// latest job (an unknown status counts as no job).
pub open spec fn bundle_status(b: PersistedSourceBundle, search_available: bool) -> PublicIndexingStatus {
    public_status_of(
        match b.latest_job {
            Some(j) => OutboxStatus::named(j.status@),
            None => None,
        },
        search_available,
    )
}

/// Every memory item row has a known unit type.
pub open spec fn items_readable(items: Seq<PersistedMemoryItemRecord>) -> bool {
    forall|k: int| 0 <= k < items.len() ==> unit_type_named((#[trigger] items[k]).unit_type@) is Some
}

pub fn bundle_from_records(bundle: &PersistedSourceBundle, search_available: bool) -> (r: AppResult<SourceBundle>)
    ensures
        r is Ok <==> document_type_named(bundle.source.document_type@) is Some && items_readable(bundle.memory_items@),
        r matches Ok(b) ==> {
            &&& source_of_record(bundle.source, b.source)
            &&& b.memory_items@.len() == bundle.memory_items@.len()
            &&& forall|k: int| 0 <= k < b.memory_items@.len() ==> item_of_record(bundle.memory_items@[k], #[trigger] b.memory_items@[k])
            &&& b.indexing_status == bundle_status(*bundle, search_available)
        },
        r matches Err(e) ==> e.kind == ErrorKind::Internal,
{
    let status = match &bundle.latest_job {
        Some(j) => OutboxStatus::from_str(j.status.as_str()),
        None => None,
    };
    let indexing_status = derive_public_indexing_status(status, search_available);
    let source = source_from_record(&bundle.source)?;
    let mut items: Vec<MemoryItem> = Vec::new();
    let mut i: usize = 0;
    while i < bundle.memory_items.len()
        invariant
            i <= bundle.memory_items@.len(),
            items@.len() == i,
            forall|k: int| 0 <= k < i ==> unit_type_named((#[trigger] bundle.memory_items@[k]).unit_type@) is Some,
            forall|k: int| 0 <= k < i ==> item_of_record(bundle.memory_items@[k], #[trigger] items@[k]),
        decreases bundle.memory_items@.len() - i,
    {
        let item = memory_item_from_record(&bundle.memory_items[i])?;
        items.push(item);
        i = i + 1;
    }
    Ok(SourceBundle { source, memory_items: items, indexing_status })
}

/// The semantic payload hash stored for a source (empty when none).
pub open spec fn stored_hash(r: PersistedSourceRecord) -> Seq<char> {
    match system_str(r.source_metadata@, "semantic_payload_hash"@) {
        Some(h) => h,
        None => Seq::empty(),
    }
}

/// The outcome of a registration when a source is stored under its
/// external identifier: a replay of the stored bundle for the same semantic
/// payload hash (an internal error when the stored rows are unreadable), a
/// conflict for a different one.
pub open spec fn stored_outcome(
    b: PersistedSourceBundle,
    source: NewSource,
    search_available: bool,
    r: AppResult<SourceCreateOrReplay>,
) -> bool {
    if stored_hash(b.source) != source.semantic_payload_hash@ {
        r matches Err(e) && e.kind == ErrorKind::Conflict
    } else if document_type_named(b.source.document_type@) is Some && items_readable(b.memory_items@) {
        r matches Ok(SourceCreateOrReplay::Replay(x)) && {
            &&& source_of_record(b.source, x.source)
            &&& x.memory_items@.len() == b.memory_items@.len()
            &&& forall|k: int| 0 <= k < x.memory_items@.len() ==> item_of_record(b.memory_items@[k], #[trigger] x.memory_items@[k])
            &&& x.indexing_status == bundle_status(b, search_available)
        }
    } else {
        r matches Err(e) && e.kind == ErrorKind::Internal
    }
}

/// Decides a registration against what is stored under its external
/// identifier: nothing stored creates; the same semantic payload hash
/// replays the stored bundle; a different one is a conflict.
pub fn prepare_create_or_replay(
    existing: Option<PersistedSourceBundle>,
    source: NewSource,
    search_available: bool,
) -> (r: AppResult<SourceCreateOrReplay>)
    ensures
        existing is None ==> (r matches Ok(SourceCreateOrReplay::Create(s)) && s == source),
        existing matches Some(b) ==> stored_outcome(b, source, search_available, r),
{
    proof {
        reveal_strlit("semantic_payload_hash");
        reveal_strlit("");
        assert(""@ =~= Seq::<char>::empty());
    }
    match existing {
        None => Ok(SourceCreateOrReplay::Create(source)),
        Some(b) => {
            let same = match system_string(&b.source.source_metadata, "semantic_payload_hash") {
                Some(h) => str_eq(h.as_str(), source.semantic_payload_hash.as_str()),
                None => str_eq("", source.semantic_payload_hash.as_str()),
            };
            proof {
                assert(same == (stored_hash(b.source) == source.semantic_payload_hash@));
            }
            if same {
                let bundle = bundle_from_records(&b, search_available)?;
                Ok(SourceCreateOrReplay::Replay(bundle))
            } else {
                let mut message = "external_id '".to_owned();
                message.append(source.external_id.as_str());
                message.append("' is already registered with a different semantic payload");
                Err(AppError::conflict(message.as_str()))
            }
        },
    }
}

} // verus!
