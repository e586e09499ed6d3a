use vstd::prelude::*;
use vstd::string::*;
use crate::domain::json::{JsonValue, Json, parsed_json, parse_json};
use crate::domain::normalization::{sha256_hex, json_value_hash, sha256_digest, canonical_json};
use crate::domain::source::CANONICAL_ID_VERSION;
use crate::domain::source_external_id::{
    CanonicalSourceExternalId, canonicalize_direct_standard_payload, canonicalized, canonical_text,
    parsed_canonical_uri,
};
use crate::domain::source_identity::{deterministic_source_id, source_seed, seed_text, source_id_for};
use crate::error::{AppError, AppResult, ErrorKind};
use crate::infra::records::{
    PersistedSourceRecord, PersistedMemoryItemRecord, PersistedIndexJobRecord, system_str, system_string,
    clone_opt_string,
};
use crate::text::{hex_lower, str_eq};

verus! {

/// What a migration dry-run decided for one legacy source row.
#[derive(Debug, Clone, Copy, PartialEq, Eq, Structural)]
pub enum MigrationClassification {
    Migratable,
    Consolidate,
    Unmigratable,
}

/// How many rows of each dependent table point at a legacy source.
#[derive(Debug, Clone, Copy, PartialEq, Eq, Structural)]
pub struct DependentReferenceCounts {
    pub memory_item: usize,
    pub memory_index_job: usize,
    pub search_projection: usize,
}

/// The dry-run report line of one legacy source row.
#[derive(Debug)]
pub struct MigrationRowReport {
    pub legacy_source_id: u128,
    pub legacy_external_id: String,
    pub candidate_canonical_external_id: String,
    pub candidate_source_seed: String,
    pub candidate_source_id: u128,
    pub classification: MigrationClassification,
    pub decision_reason: String,
    pub legacy_resolution_path: String,
    pub canonical_id_version: String,
    pub original_standard_id: Option<String>,
    pub semantic_payload_hash: String,
    pub raw_body_hash_present: bool,
    pub raw_body_hash: Option<String>,
    pub dependent_reference_counts: DependentReferenceCounts,
    pub planned_action: String,
}

/// A report line with its texts as character sequences.
pub struct RowModel {
    pub legacy_source_id: u128,
    pub legacy_external_id: Seq<char>,
    pub candidate: Seq<char>,
    pub seed: Seq<char>,
    pub candidate_source_id: u128,
    pub classification: MigrationClassification,
    pub decision_reason: Seq<char>,
    pub legacy_resolution_path: Seq<char>,
    pub canonical_id_version: Seq<char>,
    pub original_standard_id: Option<Seq<char>>,
    pub semantic_payload_hash: Seq<char>,
    pub raw_body_hash_present: bool,
    pub raw_body_hash: Option<Seq<char>>,
    pub counts: DependentReferenceCounts,
    pub planned_action: Seq<char>,
}

pub open spec fn opt_chars(v: Option<String>) -> Option<Seq<char>> {
    match v {
        Some(s) => Some(s@),
        None => None,
    }
}

impl View for MigrationRowReport {
    type V = RowModel;

    open spec fn view(&self) -> RowModel {
        RowModel {
            legacy_source_id: self.legacy_source_id,
            legacy_external_id: self.legacy_external_id@,
            candidate: self.candidate_canonical_external_id@,
            seed: self.candidate_source_seed@,
            candidate_source_id: self.candidate_source_id,
            classification: self.classification,
            decision_reason: self.decision_reason@,
            legacy_resolution_path: self.legacy_resolution_path@,
            canonical_id_version: self.canonical_id_version@,
            original_standard_id: opt_chars(self.original_standard_id),
            semantic_payload_hash: self.semantic_payload_hash@,
            raw_body_hash_present: self.raw_body_hash_present,
            raw_body_hash: opt_chars(self.raw_body_hash),
            counts: self.dependent_reference_counts,
            planned_action: self.planned_action@,
        }
    }
}

pub open spec fn rows_view(v: Seq<MigrationRowReport>) -> Seq<RowModel> {
    Seq::new(v.len(), |i: int| v[i]@)
}

/// What the content of each memory item reads as: its JSON document, or
/// `None` when the content is not a JSON document.
pub open spec fn contents_json(items: Seq<PersistedMemoryItemRecord>) -> Seq<Option<Json>> {
    Seq::new(items.len(), |i: int| parsed_json(items[i].content@))
}

/// Index of the first memory item of source `sid` at or after `from`
/// (the length of `items` when there is none).
pub open spec fn first_item_from(items: Seq<PersistedMemoryItemRecord>, sid: u128, from: int) -> int
    decreases items.len() - from,
{
    if from < 0 || from >= items.len() {
        items.len() as int
    } else if items[from].source_id == sid {
        from
    } else {
        first_item_from(items, sid, from + 1)
    }
}

/// Number of memory items of source `sid`.
pub open spec fn count_items(items: Seq<PersistedMemoryItemRecord>, sid: u128) -> nat
    decreases items.len(),
{
    if items.len() == 0 {
        0
    } else {
        count_items(items.drop_last(), sid) + if items.last().source_id == sid { 1nat } else { 0nat }
    }
}

/// Number of indexing jobs of source `sid`.
pub open spec fn count_jobs(jobs: Seq<PersistedIndexJobRecord>, sid: u128) -> nat
    decreases jobs.len(),
{
    if jobs.len() == 0 {
        0
    } else {
        count_jobs(jobs.drop_last(), sid) + if jobs.last().source_id == sid { 1nat } else { 0nat }
    }
}

/// The content of the first memory item of source `sid`, with what it
/// reads as JSON (`None` when it is not a JSON document).
pub open spec fn first_body(items: Seq<PersistedMemoryItemRecord>, parsed: Seq<Option<Json>>, sid: u128) -> Option<
    (Seq<char>, Option<Json>),
> {
    let i = first_item_from(items, sid, 0);
    if i < items.len() {
        Some((items[i].content@, parsed[i]))
    } else {
        None
    }
}

/// The canonical external identifier a legacy source maps to, with the
/// original standard identifier the mapping carries: its own external
/// identifier when that is already canonical, else the identity of the
/// supported-standard payload stored as its first JSON memory item.
pub open spec fn derived_candidate(s: PersistedSourceRecord, body: Option<(Seq<char>, Option<Json>)>) -> Option<
    (Seq<char>, Option<Seq<char>>),
> {
    match parsed_canonical_uri(vstd::utf8::encode_utf8(s.external_id@)) {
        Some(parts) => Some((canonical_text(parts), system_str(s.source_metadata@, "original_standard_id"@))),
        None => if s.document_type@ == "json"@ {
            match body {
                Some((_, Some(j))) => match canonicalized(j) {
                    Ok((p, parts, id, title)) => Some((canonical_text(parts), Some(vstd::utf8::decode_utf8(id)))),
                    Err(_) => None,
                },
                _ => None,
            }
        } else {
            None
        },
    }
}

/// Lowercase hexadecimal SHA-256 of the UTF-8 bytes of a text.
pub open spec fn text_hash(t: Seq<char>) -> Seq<char> {
    hex_lower(sha256_digest(vstd::utf8::encode_utf8(t)))
}

/// The semantic payload hash recorded for a legacy source, or why it has
/// none: `Err(true)` when its JSON body does not read as JSON, `Err(false)`
/// when there is no material to take it from.
pub open spec fn semantic_hash_of(s: PersistedSourceRecord, body: Option<(Seq<char>, Option<Json>)>) -> Result<
    Seq<char>,
    bool,
> {
    match system_str(s.source_metadata@, "semantic_payload_hash"@) {
        Some(h) => Ok(h),
        None => match system_str(s.source_metadata@, "canonical_payload_hash"@) {
            Some(h) => Ok(h),
            None => if s.document_type@ == "json"@ && body is Some {
                match body.unwrap().1 {
                    Some(j) => Ok(text_hash(canonical_json(j))),
                    None => Err(true),
                }
            } else {
                Err(false)
            },
        },
    }
}

/// The raw body hash recorded for a legacy source, else the hash of its
/// first JSON memory item.
pub open spec fn raw_hash_of(s: PersistedSourceRecord, body: Option<(Seq<char>, Option<Json>)>) -> Option<Seq<char>> {
    match system_str(s.source_metadata@, "raw_body_hash"@) {
        Some(h) => Some(h),
        None => if s.document_type@ == "json"@ && body is Some {
            Some(text_hash(body.unwrap().0))
        } else {
            None
        },
    }
}

/// The failure `derive_semantic_payload_hash` reports.
pub open spec fn hash_failure(e: AppError, unreadable_json: bool) -> bool {
    if unreadable_json {
        e.kind == ErrorKind::Validation
    } else {
        &&& e.kind == ErrorKind::Conflict
        &&& e.code matches Some(c) && c@ == "MIGRATION_STOP_CONDITION"@
    }
}

/// The report line of a legacy source before duplicate groups are looked at.
pub open spec fn base_row(
    s: PersistedSourceRecord,
    items: Seq<PersistedMemoryItemRecord>,
    jobs: Seq<PersistedIndexJobRecord>,
    parsed: Seq<Option<Json>>,
) -> Result<RowModel, bool> {
    let body = first_body(items, parsed, s.source_id);
    let derived = derived_candidate(s, body);
    let candidate = match derived {
        Some((t, _)) => t,
        None => Seq::<char>::empty(),
    };
    let original = match derived {
        Some((_, Some(o))) => Some(o),
        Some((_, None)) => system_str(s.source_metadata@, "original_standard_id"@),
        None => None,
    };
    let raw = raw_hash_of(s, body);
    let missing = candidate.len() == 0;
    match semantic_hash_of(s, body) {
        Err(b) => Err(b),
        Ok(h) => Ok(
            RowModel {
                legacy_source_id: s.source_id,
                legacy_external_id: s.external_id@,
                candidate,
                seed: if missing { Seq::empty() } else { seed_text("v1"@, candidate) },
                candidate_source_id: if missing { s.source_id } else { source_id_for("v1"@, candidate) },
                classification: if missing { MigrationClassification::Unmigratable } else { MigrationClassification::Migratable },
                decision_reason: if missing {
                    "LEGACY_ROW_UNMIGRATABLE_MISSING_CANONICAL_COMPONENT"@
                } else {
                    "LEGACY_ROW_MIGRATABLE"@
                },
                legacy_resolution_path: "legacy_only"@,
                canonical_id_version: "v1"@,
                original_standard_id: original,
                semantic_payload_hash: h,
                raw_body_hash_present: raw is Some,
                raw_body_hash: raw,
                counts: DependentReferenceCounts {
                    memory_item: count_items(items, s.source_id) as usize,
                    memory_index_job: count_jobs(jobs, s.source_id) as usize,
                    search_projection: 0,
                },
                planned_action: if missing { "abort"@ } else { "rewrite"@ },
            },
        ),
    }
}

proof fn lemma_first_item_from(items: Seq<PersistedMemoryItemRecord>, sid: u128, from: int)
    requires
        0 <= from <= items.len(),
    ensures
        from <= first_item_from(items, sid, from) <= items.len(),
        first_item_from(items, sid, from) < items.len() ==> items[first_item_from(items, sid, from)].source_id == sid,
        forall|k: int| from <= k < first_item_from(items, sid, from) ==> items[k].source_id != sid,
    decreases items.len() - from,
{
    if from < items.len() && items[from].source_id != sid {
        lemma_first_item_from(items, sid, from + 1);
    }
}

fn first_item_index(items: &Vec<PersistedMemoryItemRecord>, sid: u128) -> (r: usize)
    ensures
        r == first_item_from(items@, sid, 0),
{
    let mut i: usize = 0;
    while i < items.len()
        invariant
            i <= items@.len(),
            first_item_from(items@, sid, 0) == first_item_from(items@, sid, i as int),
        decreases items@.len() - i,
    {
        if items[i].source_id == sid {
            return i;
        }
        i = i + 1;
    }
    i
}

proof fn lemma_count_items_bound(items: Seq<PersistedMemoryItemRecord>, sid: u128)
    ensures
        count_items(items, sid) <= items.len(),
    decreases items.len(),
{
    if items.len() > 0 {
        lemma_count_items_bound(items.drop_last(), sid);
    }
}

proof fn lemma_count_jobs_bound(jobs: Seq<PersistedIndexJobRecord>, sid: u128)
    ensures
        count_jobs(jobs, sid) <= jobs.len(),
    decreases jobs.len(),
{
    if jobs.len() > 0 {
        lemma_count_jobs_bound(jobs.drop_last(), sid);
    }
}

fn count_items_of(items: &Vec<PersistedMemoryItemRecord>, sid: u128) -> (r: usize)
    ensures
        r == count_items(items@, sid),
{
    let mut n: usize = 0;
    let mut i: usize = 0;
    while i < items.len()
        invariant
            i <= items@.len(),
            n == count_items(items@.take(i as int), sid),
            n <= i,
        decreases items@.len() - i,
    {
        proof {
            assert(items@.take(i + 1).drop_last() =~= items@.take(i as int));
        }
        if items[i].source_id == sid {
            n = n + 1;
        }
        i = i + 1;
    }
    proof {
        assert(items@.take(i as int) =~= items@);
    }
    n
}

fn count_jobs_of(jobs: &Vec<PersistedIndexJobRecord>, sid: u128) -> (r: usize)
    ensures
        r == count_jobs(jobs@, sid),
{
    let mut n: usize = 0;
    let mut i: usize = 0;
    while i < jobs.len()
        invariant
            i <= jobs@.len(),
            n == count_jobs(jobs@.take(i as int), sid),
            n <= i,
        decreases jobs@.len() - i,
    {
        proof {
            assert(jobs@.take(i + 1).drop_last() =~= jobs@.take(i as int));
        }
        if jobs[i].source_id == sid {
            n = n + 1;
        }
        i = i + 1;
    }
    proof {
        assert(jobs@.take(i as int) =~= jobs@);
    }
    n
}

/// `derive_candidate_external_id`.
fn derive_candidate_external_id(source: &PersistedSourceRecord, body: Option<(&String, Option<&JsonValue>)>) -> (r:
    Option<(String, Option<String>)>)
    ensures
        ({
            let bv = match body {
                Some((c, p)) => Some(
                    (
                        c@,
                        match p {
                            Some(j) => Some(j@),
                            None => None,
                        },
                    ),
                ),
                None => None,
            };
            match derived_candidate(*source, bv) {
                Some((t, o)) => r matches Some((x, y)) && x@ == t && opt_chars(y) == o,
                None => r is None,
            }
        }),
{
    proof {
        reveal_strlit("json");
        reveal_strlit("original_standard_id");
    }
    match CanonicalSourceExternalId::parse_canonical_uri(source.external_id.as_str()) {
        Ok(canonical) => {
            let original = match system_string(&source.source_metadata, "original_standard_id") {
                Some(o) => Some(o.clone()),
                None => None,
            };
            return Some((canonical.canonical_uri(), original));
        },
        Err(_) => {},
    }
    if str_eq(source.document_type.as_str(), "json") {
        match body {
            Some((_, Some(payload))) => match canonicalize_direct_standard_payload(payload) {
                Ok(c) => {
                    proof {
                        vstd::utf8::encode_utf8_decode_utf8(c.original_standard_id@);
                    }
                    let uri = c.external_id.canonical_uri();
                    Some((uri, Some(c.original_standard_id)))
                },
                Err(_) => None,
            },
            _ => None,
        }
    } else {
        None
    }
}

/// `derive_semantic_payload_hash`.
fn derive_semantic_payload_hash(source: &PersistedSourceRecord, body: Option<(&String, Option<&JsonValue>)>) -> (r:
    AppResult<String>)
    ensures
        ({
            let bv = match body {
                Some((c, p)) => Some(
                    (
                        c@,
                        match p {
                            Some(j) => Some(j@),
                            None => None,
                        },
                    ),
                ),
                None => None,
            };
            match semantic_hash_of(*source, bv) {
                Ok(h) => r matches Ok(x) && x@ == h,
                Err(b) => r matches Err(e) && hash_failure(e, b),
            }
        }),
{
    proof {
        reveal_strlit("json");
        reveal_strlit("semantic_payload_hash");
        reveal_strlit("canonical_payload_hash");
        reveal_strlit("MIGRATION_STOP_CONDITION");
    }
    if let Some(h) = system_string(&source.source_metadata, "semantic_payload_hash") {
        return Ok(h.clone());
    }
    if let Some(h) = system_string(&source.source_metadata, "canonical_payload_hash") {
        return Ok(h.clone());
    }
    if str_eq(source.document_type.as_str(), "json") {
        if let Some((_, parsed)) = body {
            return match parsed {
                Some(j) => Ok(json_value_hash(j)),
                None => Err(AppError::validation("invalid supported-standard json payload")),
            };
        }
    }
    Err(
        AppError::conflict("legacy row is missing semantic payload material for migration").with_error_code(
            "MIGRATION_STOP_CONDITION",
        ),
    )
}

/// `derive_raw_body_hash`.
fn derive_raw_body_hash(source: &PersistedSourceRecord, body: Option<(&String, Option<&JsonValue>)>) -> (r: Option<
    String,
>)
    ensures
        ({
            let bv = match body {
                Some((c, p)) => Some(
                    (
                        c@,
                        match p {
                            Some(j) => Some(j@),
                            None => None,
                        },
                    ),
                ),
                None => None,
            };
            opt_chars(r) == raw_hash_of(*source, bv)
        }),
{
    proof {
        reveal_strlit("json");
        reveal_strlit("raw_body_hash");
    }
    if let Some(h) = system_string(&source.source_metadata, "raw_body_hash") {
        return Some(h.clone());
    }
    if str_eq(source.document_type.as_str(), "json") {
        if let Some((content, _)) = body {
            return Some(sha256_hex(content.as_str()));
        }
    }
    None
}

/// `build_row`: the report line of one legacy source, before duplicate
/// groups are looked at.
fn build_row(
    source: &PersistedSourceRecord,
    items: &Vec<PersistedMemoryItemRecord>,
    jobs: &Vec<PersistedIndexJobRecord>,
) -> (r: AppResult<MigrationRowReport>)
    ensures
        match base_row(*source, items@, jobs@, contents_json(items@)) {
            Ok(m) => r matches Ok(x) && x@ == m,
            Err(b) => r matches Err(e) && hash_failure(e, b),
        },
{
    let ghost pv = contents_json(items@);
    let fi = first_item_index(items, source.source_id);
    proof {
        lemma_first_item_from(items@, source.source_id, 0);
    }
    let first_parsed: Option<JsonValue> = if fi < items.len() {
        parse_json(items[fi].content.as_str())
    } else {
        None
    };
    let body: Option<(&String, Option<&JsonValue>)> = if fi < items.len() {
        Some((&items[fi].content, first_parsed.as_ref()))
    } else {
        None
    };
    let ghost bv = first_body(items@, pv, source.source_id);
    proof {
        if fi < items.len() {
            assert(pv[fi as int] == parsed_json(items@[fi as int].content@));
        }
    }
    let derived = derive_candidate_external_id(source, body);
    let semantic_payload_hash = derive_semantic_payload_hash(source, body)?;
    let raw_body_hash = derive_raw_body_hash(source, body);
    let (candidate, original_from_id) = match derived {
        Some((t, o)) => (t, Some(o)),
        None => (String::new(), None),
    };
    let original_standard_id = match original_from_id {
        Some(Some(o)) => Some(o),
        Some(None) => match system_string(&source.source_metadata, "original_standard_id") {
            Some(o) => Some(o.clone()),
            None => None,
        },
        None => None,
    };
    proof {
        reveal_strlit("original_standard_id");
        reveal_strlit("v1");
    }
    let missing = candidate.as_str().unicode_len() == 0;
    let seed = if missing {
        String::new()
    } else {
        source_seed(CANONICAL_ID_VERSION, candidate.as_str())
    };
    let candidate_source_id = if missing {
        source.source_id
    } else {
        deterministic_source_id(CANONICAL_ID_VERSION, candidate.as_str())
    };
    let memory_item = count_items_of(items, source.source_id);
    let memory_index_job = count_jobs_of(jobs, source.source_id);
    let present = raw_body_hash.is_some();
    let row = MigrationRowReport {
        legacy_source_id: source.source_id,
        legacy_external_id: source.external_id.clone(),
        candidate_canonical_external_id: candidate,
        candidate_source_seed: seed,
        candidate_source_id,
        classification: if missing { MigrationClassification::Unmigratable } else { MigrationClassification::Migratable },
        decision_reason: if missing {
            "LEGACY_ROW_UNMIGRATABLE_MISSING_CANONICAL_COMPONENT".to_owned()
        } else {
            "LEGACY_ROW_MIGRATABLE".to_owned()
        },
        legacy_resolution_path: "legacy_only".to_owned(),
        canonical_id_version: CANONICAL_ID_VERSION.to_owned(),
        original_standard_id,
        semantic_payload_hash,
        raw_body_hash_present: present,
        raw_body_hash,
        dependent_reference_counts: DependentReferenceCounts { memory_item, memory_index_job, search_projection: 0 },
        planned_action: if missing { "abort".to_owned() } else { "rewrite".to_owned() },
    };
    Ok(row)
}

/// The report lines of all legacy sources in source order, before
/// duplicate groups are looked at; the first failure stops the run.
pub open spec fn base_rows(
    sources: Seq<PersistedSourceRecord>,
    items: Seq<PersistedMemoryItemRecord>,
    jobs: Seq<PersistedIndexJobRecord>,
    parsed: Seq<Option<Json>>,
) -> Result<Seq<RowModel>, bool>
    decreases sources.len(),
{
    if sources.len() == 0 {
        Ok(seq![])
    } else {
        match base_rows(sources.drop_last(), items, jobs, parsed) {
            Err(b) => Err(b),
            Ok(rs) => match base_row(sources.last(), items, jobs, parsed) {
                Err(b) => Err(b),
                Ok(r) => Ok(rs.push(r)),
            },
        }
    }
}

/// Number of lines whose candidate canonical external identifier is `t`.
pub open spec fn count_candidate(rows: Seq<RowModel>, t: Seq<char>) -> nat
    decreases rows.len(),
{
    if rows.len() == 0 {
        0
    } else {
        count_candidate(rows.drop_last(), t) + if rows.last().candidate == t { 1nat } else { 0nat }
    }
}

/// Every line with candidate `t` carries the semantic payload hash `h`.
pub open spec fn group_uniform(rows: Seq<RowModel>, t: Seq<char>, h: Seq<char>) -> bool {
    forall|j: int| 0 <= j < rows.len() && (#[trigger] rows[j]).candidate == t ==> rows[j].semantic_payload_hash == h
}

/// Line `i` after duplicate groups are looked at: several legacy rows that
/// map to one canonical identifier consolidate when they agree on the
/// semantic payload hash, and are a conflict that blocks the migration
/// when they do not.
pub open spec fn adjusted(rows: Seq<RowModel>, i: int) -> RowModel {
    let r = rows[i];
    if r.candidate.len() > 0 && count_candidate(rows, r.candidate) > 1 {
        if group_uniform(rows, r.candidate, r.semantic_payload_hash) {
            RowModel {
                classification: MigrationClassification::Consolidate,
                decision_reason: "LEGACY_ROW_CONSOLIDATE_MATCH"@,
                legacy_resolution_path: "shadow_duplicate"@,
                planned_action: "consolidate"@,
                ..r
            }
        } else {
            RowModel {
                classification: MigrationClassification::Unmigratable,
                decision_reason: "LEGACY_ROW_UNMIGRATABLE_DUPLICATE_CONFLICT"@,
                planned_action: "abort"@,
                ..r
            }
        }
    } else {
        r
    }
}

pub open spec fn adjusted_rows(rows: Seq<RowModel>) -> Seq<RowModel> {
    Seq::new(rows.len(), |i: int| adjusted(rows, i))
}

/// Stable insertion of `x` after every line whose legacy source identifier
/// is not greater than its own.
pub open spec fn insert_row(s: Seq<RowModel>, x: RowModel) -> Seq<RowModel>
    decreases s.len(),
{
    if s.len() == 0 {
        seq![x]
    } else if s.last().legacy_source_id <= x.legacy_source_id {
        s.push(x)
    } else {
        insert_row(s.drop_last(), x).push(s.last())
    }
}

/// Stable sort by legacy source identifier.
pub open spec fn sort_rows(s: Seq<RowModel>) -> Seq<RowModel>
    decreases s.len(),
{
    if s.len() == 0 {
        seq![]
    } else {
        insert_row(sort_rows(s.drop_last()), s.last())
    }
}

pub open spec fn row_insert_pos(s: Seq<RowModel>, x: RowModel) -> int
    decreases s.len(),
{
    if s.len() == 0 {
        0
    } else if s.last().legacy_source_id <= x.legacy_source_id {
        s.len() as int
    } else {
        row_insert_pos(s.drop_last(), x)
    }
}

proof fn lemma_insert_row_at(s: Seq<RowModel>, x: RowModel)
    ensures
        0 <= row_insert_pos(s, x) <= s.len(),
        insert_row(s, x) == s.subrange(0, row_insert_pos(s, x)).push(x) + s.subrange(row_insert_pos(s, x), s.len() as int),
    decreases s.len(),
{
    if s.len() == 0 {
        assert(insert_row(s, x) =~= s.subrange(0, 0).push(x) + s.subrange(0, 0));
    } else if s.last().legacy_source_id <= x.legacy_source_id {
        assert(insert_row(s, x) =~= s.subrange(0, s.len() as int).push(x) + s.subrange(s.len() as int, s.len() as int));
    } else {
        let d = s.drop_last();
        lemma_insert_row_at(d, x);
        let p = row_insert_pos(d, x);
        assert(insert_row(s, x) =~= s.subrange(0, p).push(x) + s.subrange(p, s.len() as int)) by {
            assert(d.subrange(0, p) =~= s.subrange(0, p));
            assert(d.subrange(p, d.len() as int).push(s.last()) =~= s.subrange(p, s.len() as int));
        }
    }
}

/// What a dry run reports for a snapshot, sorted by legacy source id.
pub open spec fn planned_rows(
    sources: Seq<PersistedSourceRecord>,
    items: Seq<PersistedMemoryItemRecord>,
    jobs: Seq<PersistedIndexJobRecord>,
    parsed: Seq<Option<Json>>,
) -> Result<Seq<RowModel>, bool> {
    match base_rows(sources, items, jobs, parsed) {
        Err(b) => Err(b),
        Ok(b) => Ok(sort_rows(adjusted_rows(b))),
    }
}

fn insert_row_sorted(sorted: &mut Vec<MigrationRowReport>, x: MigrationRowReport)
    ensures
        rows_view(final(sorted)@) == insert_row(rows_view(old(sorted)@), x@),
{
    let ghost s = rows_view(sorted@);
    let ghost xv = x@;
    let mut p = sorted.len();
    proof {
        assert(s.subrange(0, p as int) =~= s);
    }
    let mut go = p > 0 && sorted[p - 1].legacy_source_id > x.legacy_source_id;
    while go
        invariant
            p <= sorted@.len(),
            s == rows_view(sorted@),
            xv == x@,
            go ==> p > 0 && s[p - 1].legacy_source_id > xv.legacy_source_id,
            !go ==> (p == 0 || s[p - 1].legacy_source_id <= xv.legacy_source_id),
            row_insert_pos(s, xv) == row_insert_pos(s.subrange(0, p as int), xv),
        decreases p,
    {
        proof {
            let t = s.subrange(0, p as int);
            assert(t.last() == s[p - 1]);
            assert(t.drop_last() =~= s.subrange(0, p - 1));
        }
        p = p - 1;
        go = p > 0 && sorted[p - 1].legacy_source_id > x.legacy_source_id;
    }
    proof {
        let t = s.subrange(0, p as int);
        if p > 0 {
            assert(t.last() == s[p - 1]);
        }
        assert(row_insert_pos(s, xv) == p);
        lemma_insert_row_at(s, xv);
    }
    sorted.insert(p, x);
    proof {
        assert(rows_view(sorted@) =~= s.subrange(0, p as int).push(xv) + s.subrange(p as int, s.len() as int));
    }
}

fn count_candidate_of(rows: &Vec<MigrationRowReport>, t: &str) -> (r: usize)
    ensures
        r == count_candidate(rows_view(rows@), t@),
{
    let ghost rv = rows_view(rows@);
    let mut n: usize = 0;
    let mut i: usize = 0;
    while i < rows.len()
        invariant
            i <= rows@.len(),
            rv == rows_view(rows@),
            n == count_candidate(rv.take(i as int), t@),
            n <= i,
        decreases rows@.len() - i,
    {
        proof {
            assert(rv.take(i + 1).drop_last() =~= rv.take(i as int));
            assert(rv.take(i + 1).last() == rows@[i as int]@);
        }
        if str_eq(rows[i].candidate_canonical_external_id.as_str(), t) {
            n = n + 1;
        }
        i = i + 1;
    }
    proof {
        assert(rv.take(i as int) =~= rv);
    }
    n
}

fn uniform_group(rows: &Vec<MigrationRowReport>, t: &str, h: &str) -> (r: bool)
    ensures
        r == group_uniform(rows_view(rows@), t@, h@),
{
    let ghost rv = rows_view(rows@);
    let mut i: usize = 0;
    while i < rows.len()
        invariant
            i <= rows@.len(),
            rv == rows_view(rows@),
            forall|j: int| 0 <= j < i && (#[trigger] rv[j]).candidate == t@ ==> rv[j].semantic_payload_hash == h@,
        decreases rows@.len() - i,
    {
        proof {
            assert(rv[i as int] == rows@[i as int]@);
        }
        if str_eq(rows[i].candidate_canonical_external_id.as_str(), t) && !str_eq(
            rows[i].semantic_payload_hash.as_str(),
            h,
        ) {
            return false;
        }
        i = i + 1;
    }
    true
}

/// A copy of a report line with a new classification, reason, resolution
/// path and planned action.
fn relabel(
    row: &MigrationRowReport,
    classification: MigrationClassification,
    decision_reason: &str,
    legacy_resolution_path: &str,
    planned_action: &str,
) -> (r: MigrationRowReport)
    ensures
        r@ == (RowModel {
            classification,
            decision_reason: decision_reason@,
            legacy_resolution_path: legacy_resolution_path@,
            planned_action: planned_action@,
            ..row@
        }),
{
    MigrationRowReport {
        legacy_source_id: row.legacy_source_id,
        legacy_external_id: row.legacy_external_id.clone(),
        candidate_canonical_external_id: row.candidate_canonical_external_id.clone(),
        candidate_source_seed: row.candidate_source_seed.clone(),
        candidate_source_id: row.candidate_source_id,
        classification,
        decision_reason: decision_reason.to_owned(),
        legacy_resolution_path: legacy_resolution_path.to_owned(),
        canonical_id_version: row.canonical_id_version.clone(),
        original_standard_id: clone_opt_string(&row.original_standard_id),
        semantic_payload_hash: row.semantic_payload_hash.clone(),
        raw_body_hash_present: row.raw_body_hash_present,
        raw_body_hash: clone_opt_string(&row.raw_body_hash),
        dependent_reference_counts: row.dependent_reference_counts,
        planned_action: planned_action.to_owned(),
    }
}

fn adjusted_row(rows: &Vec<MigrationRowReport>, i: usize) -> (r: MigrationRowReport)
    requires
        i < rows@.len(),
    ensures
        r@ == adjusted(rows_view(rows@), i as int),
{
    let ghost rv = rows_view(rows@);
    let row = &rows[i];
    proof {
        assert(rv[i as int] == row@);
        reveal_strlit("LEGACY_ROW_CONSOLIDATE_MATCH");
        reveal_strlit("shadow_duplicate");
        reveal_strlit("consolidate");
        reveal_strlit("LEGACY_ROW_UNMIGRATABLE_DUPLICATE_CONFLICT");
        reveal_strlit("abort");
    }
    let t = row.candidate_canonical_external_id.as_str();
    if t.unicode_len() > 0 && count_candidate_of(rows, t) > 1 {
        if uniform_group(rows, t, row.semantic_payload_hash.as_str()) {
            relabel(
                row,
                MigrationClassification::Consolidate,
                "LEGACY_ROW_CONSOLIDATE_MATCH",
                "shadow_duplicate",
                "consolidate",
            )
        } else {
            relabel(
                row,
                MigrationClassification::Unmigratable,
                "LEGACY_ROW_UNMIGRATABLE_DUPLICATE_CONFLICT",
                row.legacy_resolution_path.as_str(),
                "abort",
            )
        }
    } else {
        relabel(
            row,
            row.classification,
            row.decision_reason.as_str(),
            row.legacy_resolution_path.as_str(),
            row.planned_action.as_str(),
        )
    }
}

fn collect_base_rows(
    sources: &Vec<PersistedSourceRecord>,
    items: &Vec<PersistedMemoryItemRecord>,
    jobs: &Vec<PersistedIndexJobRecord>,
) -> (r: AppResult<Vec<MigrationRowReport>>)
    ensures
        match base_rows(sources@, items@, jobs@, contents_json(items@)) {
            Ok(m) => r matches Ok(v) && rows_view(v@) == m,
            Err(b) => r matches Err(e) && hash_failure(e, b),
        },
{
    let ghost pv = contents_json(items@);
    let mut base: Vec<MigrationRowReport> = Vec::new();
    let mut i: usize = 0;
    proof {
        assert(sources@.take(0) =~= Seq::<PersistedSourceRecord>::empty());
        assert(rows_view(base@) =~= Seq::<RowModel>::empty());
    }
    while i < sources.len()
        invariant
            i <= sources@.len(),
            pv == contents_json(items@),
            base_rows(sources@.take(i as int), items@, jobs@, pv) == Ok::<Seq<RowModel>, bool>(rows_view(base@)),
        decreases sources@.len() - i,
    {
        proof {
            assert(sources@.take(i + 1).drop_last() =~= sources@.take(i as int));
            assert(sources@.take(i + 1).last() == sources@[i as int]);
        }
        let row = match build_row(&sources[i], items, jobs) {
            Ok(row) => row,
            Err(e) => {
                proof {
                    let k = i + 1;
                    lemma_base_rows_err_persists(sources@, items@, jobs@, pv, k as int);
                    assert(sources@.take(sources@.len() as int) =~= sources@);
                }
                return Err(e);
            },
        };
        let ghost before = rows_view(base@);
        base.push(row);
        proof {
            assert(rows_view(base@) =~= before.push(base@.last()@));
        }
        i = i + 1;
    }
    proof {
        assert(sources@.take(i as int) =~= sources@);
    }
    Ok(base)
}

fn sort_adjusted(base: &Vec<MigrationRowReport>) -> (r: Vec<MigrationRowReport>)
    ensures
        rows_view(r@) == sort_rows(adjusted_rows(rows_view(base@))),
{
    let ghost bv = rows_view(base@);
    let ghost adj = adjusted_rows(bv);
    let mut out: Vec<MigrationRowReport> = Vec::new();
    let mut j: usize = 0;
    proof {
        assert(adj.take(0) =~= Seq::<RowModel>::empty());
        assert(rows_view(out@) =~= Seq::<RowModel>::empty());
    }
    while j < base.len()
        invariant
            j <= base@.len(),
            bv == rows_view(base@),
            adj == adjusted_rows(bv),
            rows_view(out@) == sort_rows(adj.take(j as int)),
        decreases base@.len() - j,
    {
        let row = adjusted_row(base, j);
        proof {
            assert(adj.take(j + 1).drop_last() =~= adj.take(j as int));
            assert(adj.take(j + 1).last() == adj[j as int]);
        }
        insert_row_sorted(&mut out, row);
        j = j + 1;
    }
    proof {
        assert(adj.take(j as int) =~= adj);
    }
    out
}

/// `build_rows`: the dry-run report lines of a snapshot, each memory
/// item's content read as JSON where a line needs it.
pub fn build_rows(
    sources: &Vec<PersistedSourceRecord>,
    items: &Vec<PersistedMemoryItemRecord>,
    jobs: &Vec<PersistedIndexJobRecord>,
) -> (r: AppResult<Vec<MigrationRowReport>>)
    ensures
        match planned_rows(sources@, items@, jobs@, contents_json(items@)) {
            Ok(m) => r matches Ok(v) && rows_view(v@) == m,
            Err(b) => r matches Err(e) && hash_failure(e, b),
        },
{
    let base = collect_base_rows(sources, items, jobs)?;
    Ok(sort_adjusted(&base))
}

proof fn lemma_base_rows_err_persists(
    sources: Seq<PersistedSourceRecord>,
    items: Seq<PersistedMemoryItemRecord>,
    jobs: Seq<PersistedIndexJobRecord>,
    parsed: Seq<Option<Json>>,
    k: int,
)
    requires
        0 <= k <= sources.len(),
        base_rows(sources.take(k), items, jobs, parsed) is Err,
    ensures
        base_rows(sources.take(sources.len() as int), items, jobs, parsed) == base_rows(sources.take(k), items, jobs, parsed),
    decreases sources.len() - k,
{
    if k < sources.len() {
        assert(sources.take(k + 1).drop_last() =~= sources.take(k));
        lemma_base_rows_err_persists(sources, items, jobs, parsed, k + 1);
    }
}

/// Counts a dry run reports, and whether the migration must stop.
#[derive(Debug, Clone, Copy, PartialEq, Eq, Structural)]
pub struct MigrationSummary {
    pub total_rows: usize,
    pub migratable_rows: usize,
    pub consolidation_groups: usize,
    pub unmigratable_rows: usize,
    pub conflict_groups: usize,
    pub reference_gap_rows: usize,
    pub stop_required: bool,
}

pub open spec fn count_class(rows: Seq<RowModel>, c: MigrationClassification) -> nat
    decreases rows.len(),
{
    if rows.len() == 0 {
        0
    } else {
        count_class(rows.drop_last(), c) + if rows.last().classification == c { 1nat } else { 0nat }
    }
}

pub open spec fn count_reference_gaps(rows: Seq<RowModel>) -> nat
    decreases rows.len(),
{
    if rows.len() == 0 {
        0
    } else {
        count_reference_gaps(rows.drop_last()) + if rows.last().counts.memory_item == 0 { 1nat } else { 0nat }
    }
}

/// A consolidated line (`consolidated`), or a line of a conflicting
/// duplicate group (otherwise).
pub open spec fn grouped_row(r: RowModel, consolidated: bool) -> bool {
    if consolidated {
        r.classification == MigrationClassification::Consolidate
    } else {
        r.decision_reason == "LEGACY_ROW_UNMIGRATABLE_DUPLICATE_CONFLICT"@
    }
}

/// The candidate identifiers of the first `n` lines that are grouped lines.
pub open spec fn group_keys_upto(rows: Seq<RowModel>, consolidated: bool, n: int) -> Set<Seq<char>> {
    Set::new(|t: Seq<char>| exists|j: int| 0 <= j < n && grouped_row(#[trigger] rows[j], consolidated) && rows[j].candidate == t)
}

pub open spec fn group_keys(rows: Seq<RowModel>, consolidated: bool) -> Set<Seq<char>> {
    group_keys_upto(rows, consolidated, rows.len() as int)
}

/// The summary of a dry run's lines.
pub open spec fn summary_of(rows: Seq<RowModel>, snapshot_ready: bool) -> MigrationSummary {
    let unmigratable = count_class(rows, MigrationClassification::Unmigratable);
    let conflicts = group_keys(rows, false).len();
    MigrationSummary {
        total_rows: rows.len() as usize,
        migratable_rows: count_class(rows, MigrationClassification::Migratable) as usize,
        consolidation_groups: group_keys(rows, true).len() as usize,
        unmigratable_rows: unmigratable as usize,
        conflict_groups: conflicts as usize,
        reference_gap_rows: count_reference_gaps(rows) as usize,
        stop_required: !snapshot_ready || unmigratable > 0 || conflicts > 0,
    }
}

pub open spec fn strs_view(v: Seq<String>) -> Seq<Seq<char>> {
    Seq::new(v.len(), |i: int| v[i]@)
}

fn count_class_of(rows: &Vec<MigrationRowReport>, c: MigrationClassification) -> (r: usize)
    ensures
        r == count_class(rows_view(rows@), c),
{
    let ghost rv = rows_view(rows@);
    let mut n: usize = 0;
    let mut i: usize = 0;
    while i < rows.len()
        invariant
            i <= rows@.len(),
            rv == rows_view(rows@),
            n == count_class(rv.take(i as int), c),
            n <= i,
        decreases rows@.len() - i,
    {
        proof {
            assert(rv.take(i + 1).drop_last() =~= rv.take(i as int));
            assert(rv.take(i + 1).last() == rows@[i as int]@);
        }
        if rows[i].classification == c {
            n = n + 1;
        }
        i = i + 1;
    }
    proof {
        assert(rv.take(i as int) =~= rv);
    }
    n
}

fn count_reference_gaps_of(rows: &Vec<MigrationRowReport>) -> (r: usize)
    ensures
        r == count_reference_gaps(rows_view(rows@)),
{
    let ghost rv = rows_view(rows@);
    let mut n: usize = 0;
    let mut i: usize = 0;
    while i < rows.len()
        invariant
            i <= rows@.len(),
            rv == rows_view(rows@),
            n == count_reference_gaps(rv.take(i as int)),
            n <= i,
        decreases rows@.len() - i,
    {
        proof {
            assert(rv.take(i + 1).drop_last() =~= rv.take(i as int));
            assert(rv.take(i + 1).last() == rows@[i as int]@);
        }
        if rows[i].dependent_reference_counts.memory_item == 0 {
            n = n + 1;
        }
        i = i + 1;
    }
    proof {
        assert(rv.take(i as int) =~= rv);
    }
    n
}

fn contains_str(seen: &Vec<String>, t: &str) -> (r: bool)
    ensures
        r == strs_view(seen@).contains(t@),
{
    let ghost sv = strs_view(seen@);
    let mut k: usize = 0;
    while k < seen.len()
        invariant
            k <= seen@.len(),
            sv == strs_view(seen@),
            forall|m: int| 0 <= m < k ==> sv[m] != t@,
        decreases seen@.len() - k,
    {
        if str_eq(seen[k].as_str(), t) {
            proof {
                assert(sv[k as int] == t@);
            }
            return true;
        }
        k = k + 1;
    }
    false
}

/// Number of distinct candidate identifiers among grouped lines.
fn distinct_group_keys(rows: &Vec<MigrationRowReport>, consolidated: bool) -> (r: usize)
    ensures
        r == group_keys(rows_view(rows@), consolidated).len(),
{
    let ghost rv = rows_view(rows@);
    let mut seen: Vec<String> = Vec::new();
    let mut i: usize = 0;
    proof {
        reveal_strlit("LEGACY_ROW_UNMIGRATABLE_DUPLICATE_CONFLICT");
        assert(strs_view(seen@).to_set() =~= group_keys_upto(rv, consolidated, 0));
    }
    while i < rows.len()
        invariant
            i <= rows@.len(),
            rv == rows_view(rows@),
            seen@.len() <= i,
            strs_view(seen@).no_duplicates(),
            strs_view(seen@).to_set() == group_keys_upto(rv, consolidated, i as int),
        decreases rows@.len() - i,
    {
        let row = &rows[i];
        proof {
            assert(rv[i as int] == row@);
        }
        let grouped = if consolidated {
            row.classification == MigrationClassification::Consolidate
        } else {
            str_eq(row.decision_reason.as_str(), "LEGACY_ROW_UNMIGRATABLE_DUPLICATE_CONFLICT")
        };
        let ghost before = strs_view(seen@);
        proof {
            assert(grouped == grouped_row(rv[i as int], consolidated));
        }
        let present = contains_str(&seen, row.candidate_canonical_external_id.as_str());
        if grouped && !present {
            seen.push(row.candidate_canonical_external_id.clone());
            proof {
                assert(strs_view(seen@) =~= before.push(row@.candidate));
                assert(strs_view(seen@)[before.len() as int] == rv[i as int].candidate);
            }
        }
        proof {
            let now = strs_view(seen@);
            if grouped {
                assert(now.contains(rv[i as int].candidate));
            }
            assert forall|t: Seq<char>| before.contains(t) implies now.contains(t) by {
                let k = choose|k: int| 0 <= k < before.len() && before[k] == t;
                assert(now[k] == t);
            }
            assert forall|t: Seq<char>| now.to_set().contains(t) <==> group_keys_upto(rv, consolidated, i + 1).contains(t) by {
                if now.to_set().contains(t) {
                    if before.contains(t) {
                        assert(group_keys_upto(rv, consolidated, i as int).contains(t));
                        let j = choose|j: int| 0 <= j < i && grouped_row(#[trigger] rv[j], consolidated) && rv[j].candidate == t;
                        assert(0 <= j < i + 1 && grouped_row(rv[j], consolidated) && rv[j].candidate == t);
                    } else {
                        assert(grouped_row(rv[i as int], consolidated) && rv[i as int].candidate == t);
                    }
                }
                if group_keys_upto(rv, consolidated, i + 1).contains(t) {
                    let j = choose|j: int| 0 <= j < i + 1 && grouped_row(#[trigger] rv[j], consolidated) && rv[j].candidate == t;
                    if j < i {
                        assert(group_keys_upto(rv, consolidated, i as int).contains(t));
                    } else {
                        assert(grouped_row(rv[i as int], consolidated));
                    }
                }
            }
            assert(now.to_set() =~= group_keys_upto(rv, consolidated, i + 1));
        }
        i = i + 1;
    }
    proof {
        strs_view(seen@).unique_seq_to_set();
    }
    seen.len()
}

/// `summarize_rows`.
pub fn summarize_rows(rows: &Vec<MigrationRowReport>, snapshot_ready: bool) -> (r: MigrationSummary)
    ensures
        r == summary_of(rows_view(rows@), snapshot_ready),
{
    let migratable_rows = count_class_of(rows, MigrationClassification::Migratable);
    let consolidation_groups = distinct_group_keys(rows, true);
    let unmigratable_rows = count_class_of(rows, MigrationClassification::Unmigratable);
    let conflict_groups = distinct_group_keys(rows, false);
    let reference_gap_rows = count_reference_gaps_of(rows);
    MigrationSummary {
        total_rows: rows.len(),
        migratable_rows,
        consolidation_groups,
        unmigratable_rows,
        conflict_groups,
        reference_gap_rows,
        stop_required: !snapshot_ready || unmigratable_rows > 0 || conflict_groups > 0,
    }
}

}
