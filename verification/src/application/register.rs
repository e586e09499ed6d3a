use vstd::prelude::*;
use vstd::string::*;
use crate::domain::credential::now_utc_nanos;
use crate::domain::json::{JsonValue, Json, sorted_insert, lemma_object_view, lemma_scalar_views, members_view};
use crate::domain::credential::insert_member_sorted;
use crate::domain::memory_item::{MemoryItem, UnitType};
use crate::domain::normalization::{IdGenerator, NormalizationInput, normalize_source, normalized_ranges, normalized_unit_type, item_built};
use crate::domain::source::{DocumentType, IngestKind, CANONICAL_ID_VERSION};
use crate::domain::source_identity::{deterministic_source_id, source_id_for};
use crate::error::{AppError, AppResult, ErrorKind};
use crate::infra::indexer::PublicIndexingStatus;
use crate::infra::migration_rewrite::{system_fields, system_fields_json, without_key, metadata_without_system};
use crate::infra::surreal_source_repo::{NewSource, SourceBundle};
use crate::application::queries::{public_metadata, public_source_metadata};
use crate::text::{trim_string, trimmed};
use crate::application::indexing::{MAX_INSTANT_NANOS, MIN_INSTANT_NANOS};

verus! {

/// Largest authoritative content accepted, in bytes (10 MiB).
pub const MAX_AUTHORITATIVE_CONTENT_BYTES: usize = 10485760;

/// The system clock.
#[derive(Debug, Default)]
pub struct SystemClock;

impl SystemClock {
    /// The current instant in Unix nanoseconds, within the range of
    /// instants the time library represents.
    pub fn now(&self) -> (r: i128)
        ensures
            MIN_INSTANT_NANOS <= r <= MAX_INSTANT_NANOS,
    {
        now_utc_nanos()
    }
}

/// A request to register a source.
#[derive(Debug)]
pub struct RegisterSourceCommand {
    pub external_id: String,
    pub title: String,
    pub summary: Option<String>,
    pub document_type: DocumentType,
    pub authoritative_content: String,
    pub source_metadata: JsonValue,
    pub semantic_payload_hash: String,
    pub original_standard_id: Option<String>,
    pub raw_body_hash: Option<String>,
    pub ingest_kind: IngestKind,
}

/// A text that is empty once leading and trailing whitespace is removed.
pub open spec fn blank(t: Seq<char>) -> bool {
    trimmed(vstd::utf8::encode_utf8(t)).len() == 0
}

/// Why a command is refused, if it is: the first of a blank external
/// identifier, a blank title, a blank semantic payload hash, or content over
/// the size limit.
pub open spec fn command_problem(c: RegisterSourceCommand) -> Option<Seq<char>> {
    if blank(c.external_id@) {
        Some("external_id is required"@)
    } else if blank(c.title@) {
        Some("title is required"@)
    } else if blank(c.semantic_payload_hash@) {
        Some("semantic_payload_hash is required"@)
    } else if vstd::utf8::encode_utf8(c.authoritative_content@).len() > MAX_AUTHORITATIVE_CONTENT_BYTES {
        Some("authoritative content exceeds the 10 MB ingest limit"@)
    } else {
        None
    }
}

fn is_blank(t: &str) -> (r: bool)
    ensures
        r == blank(t@),
{
    let trimmed_text = trim_string(t);
    trimmed_text.as_str().as_bytes().len() == 0
}

impl RegisterSourceCommand {
    pub fn validate(&self) -> (r: AppResult<()>)
        ensures
            match command_problem(*self) {
                None => r is Ok,
                Some(m) => r matches Err(e) && e.kind == ErrorKind::Validation && e.message@ == m,
            },
    {
        if is_blank(self.external_id.as_str()) {
            return Err(AppError::validation("external_id is required"));
        }
        if is_blank(self.title.as_str()) {
            return Err(AppError::validation("title is required"));
        }
        if is_blank(self.semantic_payload_hash.as_str()) {
            return Err(AppError::validation("semantic_payload_hash is required"));
        }
        if self.authoritative_content.as_str().as_bytes().len() > MAX_AUTHORITATIVE_CONTENT_BYTES {
            return Err(AppError::validation("authoritative content exceeds the 10 MB ingest limit"));
        }
        Ok(())
    }
}

/// The metadata stored with a registered source: the caller's metadata
/// (an empty object when it is not an object) with its `system` block
/// replaced by the registration's own.
pub open spec fn registered_metadata(meta: Json, system: Json) -> Json {
    let base = match meta {
        Json::Object(m) => m,
        _ => seq![],
    };
    Json::Object(sorted_insert(without_key(base, "system"@), ("system"@, system)))
}

pub open spec fn opt_view(o: Option<String>) -> Option<Seq<char>> {
    match o {
        Some(s) => Some(s@),
        None => None,
    }
}

/// The system block a command registers.
pub open spec fn command_system(c: RegisterSourceCommand) -> Json {
    system_fields_json(c.ingest_kind, opt_view(c.original_standard_id), opt_view(c.raw_body_hash), c.semantic_payload_hash@)
}

/// The source a valid command registers at `created_at`.
pub open spec fn planned_source(c: RegisterSourceCommand, created_at: i128, s: NewSource) -> bool {
    &&& s.source_id == source_id_for("v1"@, c.external_id@)
    &&& s.external_id == c.external_id
    &&& s.title == c.title
    &&& s.summary == c.summary
    &&& s.document_type == c.document_type
    &&& s.source_metadata@ == registered_metadata(c.source_metadata@, command_system(c))
    &&& s.semantic_payload_hash == c.semantic_payload_hash
    &&& s.created_at == created_at
    &&& s.updated_at == created_at
}

/// The source and memory items a registration command produces: refused
/// when the command is invalid; otherwise the source under the identifier
/// derived from its external identifier, with its content cut into memory
/// items.
pub fn plan_registration<G: IdGenerator>(command: &RegisterSourceCommand, created_at: i128, gen: &G) -> (r: AppResult<
    (NewSource, Vec<MemoryItem>),
>)
    ensures
        r is Err <==> command_problem(*command) is Some,
        r matches Err(e) ==> e.kind == ErrorKind::Validation,
        r matches Ok((s, items)) ==> {
            let bytes = vstd::utf8::encode_utf8(command.authoritative_content@);
            let ranges = normalized_ranges(bytes, command.document_type);
            &&& planned_source(*command, created_at, s)
            &&& items@.len() == ranges.len()
            &&& forall|i: int| 0 <= i < ranges.len() ==> item_built(
                *gen,
                s.source_id,
                created_at,
                bytes,
                i as u32,
                normalized_unit_type(bytes, command.document_type),
                ranges[i].0,
                ranges[i].1,
                #[trigger] items@[i],
            )
        },
{
    command.validate()?;
    proof {
        reveal_strlit("v1");
        reveal_strlit("system");
    }
    let source_id = deterministic_source_id(CANONICAL_ID_VERSION, command.external_id.as_str());
    let mut members = metadata_without_system(&command.source_metadata);
    let system = system_fields(
        command.ingest_kind,
        &command.original_standard_id,
        &command.raw_body_hash,
        command.semantic_payload_hash.as_str(),
    );
    insert_member_sorted(&mut members, ("system".to_owned(), system));
    let metadata = JsonValue::Object(members);
    proof {
        lemma_object_view(metadata);
    }
    let items = match normalize_source(
        &NormalizationInput {
            source_id,
            external_id: command.external_id.as_str(),
            title: command.title.as_str(),
            summary: match &command.summary {
                Some(s) => Some(s.as_str()),
                None => None,
            },
            document_type: command.document_type,
            authoritative_content: command.authoritative_content.as_str(),
            source_metadata: &command.source_metadata,
            created_at,
        },
        gen,
    ) {
        Ok(items) => items,
        Err(e) => {
            return Err(e);
        },
    };
    let source = NewSource {
        source_id,
        external_id: command.external_id.clone(),
        title: command.title.clone(),
        summary: match &command.summary {
            Some(s) => Some(s.clone()),
            None => None,
        },
        document_type: command.document_type,
        source_metadata: metadata,
        semantic_payload_hash: command.semantic_payload_hash.clone(),
        created_at,
        updated_at: created_at,
    };
    Ok((source, items))
}

/// The decision reason reported for a newly created source.
pub open spec fn created_reason(kind: IngestKind) -> Seq<char> {
    match kind {
        IngestKind::Canonical => "MANUAL_CANONICAL_ACCEPTED"@,
        IngestKind::DirectStandard => "DIRECT_STANDARD_CANONICALIZED"@,
    }
}

pub fn created_decision_reason(kind: IngestKind) -> (r: &'static str)
    ensures
        r@ == created_reason(kind),
{
    match kind {
        IngestKind::Canonical => "MANUAL_CANONICAL_ACCEPTED",
        IngestKind::DirectStandard => "DIRECT_STANDARD_CANONICALIZED",
    }
}

/// The decision reason reported when a registration replays a stored source.
pub const REPLAY_DECISION_REASON: &'static str = "REPLAY_SEMANTIC_MATCH";

/// A memory item as a registration reports it.
#[derive(Debug)]
pub struct RegisteredMemoryItem {
    pub urn: String,
    pub sequence: u32,
    pub unit_type: String,
}

/// What a registration reports.
#[derive(Debug)]
pub struct RegisterSourceResult {
    pub source_id: u128,
    pub external_id: String,
    pub document_type: DocumentType,
    pub source_metadata: JsonValue,
    pub memory_items: Vec<RegisteredMemoryItem>,
    pub indexing_status: PublicIndexingStatus,
    pub replayed: bool,
    pub decision_reason: String,
    pub migration_phase: String,
    pub legacy_resolution_path: String,
}

pub open spec fn registered_item(m: MemoryItem, x: RegisteredMemoryItem) -> bool {
    &&& x.urn == m.urn
    &&& x.sequence == m.sequence
    &&& x.unit_type@ == m.unit_type.name()
}

pub fn registered_items(items: &Vec<MemoryItem>) -> (r: Vec<RegisteredMemoryItem>)
    ensures
        r@.len() == items@.len(),
        forall|k: int| 0 <= k < items@.len() ==> registered_item(items@[k], #[trigger] r@[k]),
{
    let mut out: Vec<RegisteredMemoryItem> = Vec::new();
    let mut i: usize = 0;
    while i < items.len()
        invariant
            i <= items@.len(),
            out@.len() == i,
            forall|k: int| 0 <= k < i ==> registered_item(items@[k], #[trigger] out@[k]),
        decreases items@.len() - i,
    {
        let item = &items[i];
        out.push(
            RegisteredMemoryItem {
                urn: item.urn.clone(),
                sequence: item.sequence,
                unit_type: item.unit_type.as_str().to_owned(),
            },
        );
        i = i + 1;
    }
    out
}

/// The registration report of a stored bundle.
pub fn into_result(
    bundle: &SourceBundle,
    replayed: bool,
    decision_reason: &str,
    migration_phase: &str,
    legacy_resolution_path: &str,
) -> (r: RegisterSourceResult)
    ensures
        r.source_id == bundle.source.source_id,
        r.external_id == bundle.source.external_id,
        r.document_type == bundle.source.document_type,
        r.source_metadata@ == public_metadata(bundle.source.source_metadata@),
        r.memory_items@.len() == bundle.memory_items@.len(),
        forall|k: int| 0 <= k < bundle.memory_items@.len() ==> registered_item(bundle.memory_items@[k], #[trigger] r.memory_items@[k]),
        r.indexing_status == bundle.indexing_status,
        r.replayed == replayed,
        r.decision_reason@ == decision_reason@,
        r.migration_phase@ == migration_phase@,
        r.legacy_resolution_path@ == legacy_resolution_path@,
{
    RegisterSourceResult {
        source_id: bundle.source.source_id,
        external_id: bundle.source.external_id.clone(),
        document_type: bundle.source.document_type,
        source_metadata: public_source_metadata(&bundle.source.source_metadata),
        memory_items: registered_items(&bundle.memory_items),
        indexing_status: bundle.indexing_status,
        replayed,
        decision_reason: decision_reason.to_owned(),
        migration_phase: migration_phase.to_owned(),
        legacy_resolution_path: legacy_resolution_path.to_owned(),
    }
}

} // verus!
