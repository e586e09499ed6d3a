use vstd::prelude::*;
use crate::domain::json::{JsonValue, Json, duplicate_json, members_view, lemma_object_view, lemma_scalar_views};
use crate::domain::memory_item::{MemoryItem, UnitType};
use crate::domain::source::{DocumentType, Source};
use crate::error::{AppError, AppResult, ErrorKind};
use crate::infra::indexer::{ProjectionSearchQuery, ProjectionSearchHit, ProjectionSearchResult, PublicIndexingStatus};
use crate::infra::migration_rewrite::without_key;
use crate::infra::surreal_source_repo::SourceBundle;
use crate::text::str_eq;

verus! {

pub const DEFAULT_LIMIT: usize = 20;

pub const MAX_LIMIT: usize = 100;

/// A memory item search: free text, optional source and document type
/// filters, and a page.
#[derive(Debug)]
pub struct SearchMemoryItemsQuery {
    pub query: Option<String>,
    pub source_id: Option<u128>,
    pub document_type: Option<DocumentType>,
    pub limit: usize,
    pub offset: usize,
}

impl Default for SearchMemoryItemsQuery {
    /// No text or filters; the first page of twenty.
    fn default() -> (r: SearchMemoryItemsQuery)
        ensures
            r.query is None,
            r.source_id is None,
            r.document_type is None,
            r.limit == DEFAULT_LIMIT,
            r.offset == 0,
    {
        SearchMemoryItemsQuery { query: None, source_id: None, document_type: None, limit: DEFAULT_LIMIT, offset: 0 }
    }
}

impl SearchMemoryItemsQuery {
    /// The page size must be between 1 and 100.
    pub fn validate(&self) -> (r: AppResult<()>)
        ensures
            r is Ok <==> 1 <= self.limit <= MAX_LIMIT,
            r matches Err(e) ==> e.kind == ErrorKind::Validation,
    {
        if self.limit == 0 || self.limit > MAX_LIMIT {
            return Err(AppError::validation("limit must be between 1 and 100"));
        }
        Ok(())
    }

    /// The projection search this query asks for.
    pub fn to_projection_query(&self) -> (r: ProjectionSearchQuery)
        ensures
            r.query == self.query,
            r.source_id == self.source_id,
            r.document_type matches Some(t) ==> self.document_type matches Some(d) && t@ == d.name(),
            r.document_type is None <==> self.document_type is None,
            r.limit == self.limit,
            r.offset == self.offset,
    {
        ProjectionSearchQuery {
            query: match &self.query {
                Some(q) => Some(q.clone()),
                None => None,
            },
            source_id: self.source_id,
            document_type: match self.document_type {
                Some(d) => Some(d.as_str().to_owned()),
                None => None,
            },
            limit: self.limit,
            offset: self.offset,
        }
    }
}

/// The document type a projection hit names; anything unknown is JSON.
pub open spec fn parsed_document_type(value: Seq<char>) -> DocumentType {
    if value == "text"@ {
        DocumentType::Text
    } else if value == "markdown"@ {
        DocumentType::Markdown
    } else {
        DocumentType::Json
    }
}

pub fn parse_document_type(value: &str) -> (r: DocumentType)
    ensures
        r == parsed_document_type(value@),
{
    if str_eq(value, "text") {
        DocumentType::Text
    } else if str_eq(value, "markdown") {
        DocumentType::Markdown
    } else {
        DocumentType::Json
    }
}

/// One memory item search hit. The score is the bit pattern of the
/// engine's 32-bit floating-point ranking score, when it gives one.
#[derive(Debug)]
pub struct SearchMemoryItemsHit {
    pub urn: String,
    pub source_id: u128,
    pub sequence: u32,
    pub document_type: DocumentType,
    pub content_preview: String,
    pub score_bits: Option<u32>,
}

/// A page of memory item search hits.
#[derive(Debug)]
pub struct SearchMemoryItemsResult {
    pub total: usize,
    pub limit: usize,
    pub offset: usize,
    pub items: Vec<SearchMemoryItemsHit>,
}

pub open spec fn hit_from(h: ProjectionSearchHit, x: SearchMemoryItemsHit) -> bool {
    &&& x.urn == h.urn
    &&& x.source_id == h.source_id
    &&& x.sequence == h.sequence
    &&& x.document_type == parsed_document_type(h.document_type@)
    &&& x.content_preview == h.content_preview
    &&& x.score_bits == h.score_bits
}

/// The search result a projection result gives: the same counts and, hit
/// for hit, the same fields with the document type read back.
pub fn search_result_from_projection(p: &ProjectionSearchResult) -> (r: SearchMemoryItemsResult)
    ensures
        r.total == p.total,
        r.limit == p.limit,
        r.offset == p.offset,
        r.items@.len() == p.items@.len(),
        forall|k: int| 0 <= k < p.items@.len() ==> hit_from(p.items@[k], #[trigger] r.items@[k]),
{
    let mut items: Vec<SearchMemoryItemsHit> = Vec::new();
    let mut i: usize = 0;
    while i < p.items.len()
        invariant
            i <= p.items@.len(),
            items@.len() == i,
            forall|k: int| 0 <= k < i ==> hit_from(p.items@[k], #[trigger] items@[k]),
        decreases p.items@.len() - i,
    {
        let h = &p.items[i];
        items.push(
            SearchMemoryItemsHit {
                urn: h.urn.clone(),
                source_id: h.source_id,
                sequence: h.sequence,
                document_type: parse_document_type(h.document_type.as_str()),
                content_preview: h.content_preview.clone(),
                score_bits: h.score_bits,
            },
        );
        i = i + 1;
    }
    SearchMemoryItemsResult { total: p.total, limit: p.limit, offset: p.offset, items }
}

/// The memory item search service over a search projection.
pub struct SearchMemoryItemsService<P> {
    pub projection_index: P,
}

impl<P> SearchMemoryItemsService<P> {
    pub fn new(projection_index: P) -> (r: SearchMemoryItemsService<P>)
        ensures
            r.projection_index == projection_index,
    {
        SearchMemoryItemsService { projection_index }
    }
}

/// A memory item with what the caller sees of its source.
#[derive(Debug)]
pub struct GetMemoryItemResult {
    pub urn: String,
    pub source_id: u128,
    pub sequence: u32,
    pub document_type: DocumentType,
    pub content: String,
    pub unit_type: String,
    pub start_offset: u32,
    pub end_offset: u32,
    pub version: String,
    pub created_at: i128,
    pub updated_at: i128,
    pub source_external_id: String,
    pub source_title: String,
}

/// The memory item lookup service over a memory query repository.
pub struct GetMemoryItemService<R> {
    pub repo: R,
}

impl<R> GetMemoryItemService<R> {
    pub fn new(repo: R) -> (r: GetMemoryItemService<R>)
        ensures
            r.repo == repo,
    {
        GetMemoryItemService { repo }
    }
}

/// The lookup result of a memory item and its source.
pub fn memory_item_result(item: &MemoryItem, source: &Source) -> (r: GetMemoryItemResult)
    ensures
        r.urn == item.urn,
        r.source_id == item.source_id,
        r.sequence == item.sequence,
        r.document_type == source.document_type,
        r.content == item.content,
        r.unit_type@ == item.unit_type.name(),
        r.start_offset == item.start_offset,
        r.end_offset == item.end_offset,
        r.version == item.version,
        r.created_at == item.created_at,
        r.updated_at == item.updated_at,
        r.source_external_id == source.external_id,
        r.source_title == source.title,
{
    GetMemoryItemResult {
        urn: item.urn.clone(),
        source_id: item.source_id,
        sequence: item.sequence,
        document_type: source.document_type,
        content: item.content.clone(),
        unit_type: item.unit_type.as_str().to_owned(),
        start_offset: item.start_offset,
        end_offset: item.end_offset,
        version: item.version.clone(),
        created_at: item.created_at,
        updated_at: item.updated_at,
        source_external_id: source.external_id.clone(),
        source_title: source.title.clone(),
    }
}

/// One memory item of a looked-up source.
#[derive(Debug)]
pub struct SourceMemoryItemResult {
    pub urn: String,
    pub source_id: u128,
    pub sequence: u32,
    pub unit_type: String,
    pub start_offset: u32,
    pub end_offset: u32,
    pub version: String,
    pub content: String,
    pub created_at: i128,
    pub updated_at: i128,
}

/// A looked-up source with its memory items.
#[derive(Debug)]
pub struct GetSourceResult {
    pub source_id: u128,
    pub external_id: String,
    pub title: String,
    pub summary: Option<String>,
    pub document_type: DocumentType,
    pub source_metadata: JsonValue,
    pub created_at: i128,
    pub updated_at: i128,
    pub indexing_status: PublicIndexingStatus,
    pub decision_reason: String,
    pub memory_items: Vec<SourceMemoryItemResult>,
}

/// The source lookup service over a source query repository.
pub struct GetSourceService<R> {
    pub repo: R,
}

impl<R> GetSourceService<R> {
    pub fn new(repo: R) -> (r: GetSourceService<R>)
        ensures
            r.repo == repo,
    {
        GetSourceService { repo }
    }
}

/// The metadata a source shows its callers: its metadata without the
/// internal `system` block.
pub open spec fn public_metadata(meta: Json) -> Json {
    match meta {
        Json::Object(m) => Json::Object(without_key(m, "system"@)),
        _ => meta,
    }
}

pub fn public_source_metadata(meta: &JsonValue) -> (r: JsonValue)
    ensures
        r@ == public_metadata(meta@),
{
    proof {
        lemma_scalar_views(*meta);
        reveal_strlit("system");
    }
    match meta {
        JsonValue::Object(m) => {
            proof {
                lemma_object_view(*meta);
            }
            let ghost mv = members_view(m@);
            let mut out: Vec<(String, JsonValue)> = Vec::new();
            let mut i: usize = 0;
            proof {
                assert(mv.take(0) =~= Seq::<(Seq<char>, Json)>::empty());
                assert(members_view(out@) =~= Seq::<(Seq<char>, Json)>::empty());
            }
            while i < m.len()
                invariant
                    i <= m@.len(),
                    mv == members_view(m@),
                    members_view(out@) == without_key(mv.take(i as int), "system"@),
                decreases m@.len() - i,
            {
                proof {
                    assert(mv.take(i + 1).drop_last() =~= mv.take(i as int));
                    assert(mv.take(i + 1).last() == mv[i as int]);
                    assert(mv[i as int] == (m@[i as int].0@, m@[i as int].1@));
                }
                if !str_eq(m[i].0.as_str(), "system") {
                    let ghost before = members_view(out@);
                    out.push((m[i].0.clone(), duplicate_json(&m[i].1)));
                    proof {
                        assert(members_view(out@) =~= before.push(mv[i as int]));
                    }
                }
                i = i + 1;
            }
            proof {
                assert(mv.take(i as int) =~= mv);
            }
            let r = JsonValue::Object(out);
            proof {
                lemma_object_view(r);
            }
            r
        },
        _ => duplicate_json(meta),
    }
}

pub open spec fn source_item_from(m: MemoryItem, x: SourceMemoryItemResult) -> bool {
    &&& x.urn == m.urn
    &&& x.source_id == m.source_id
    &&& x.sequence == m.sequence
    &&& x.unit_type@ == m.unit_type.name()
    &&& x.start_offset == m.start_offset
    &&& x.end_offset == m.end_offset
    &&& x.version == m.version
    &&& x.content == m.content
    &&& x.created_at == m.created_at
    &&& x.updated_at == m.updated_at
}

/// The lookup result of a stored source bundle: the source with its public
/// metadata, its indexing status, and its memory items in stored order.
pub fn source_result(bundle: &SourceBundle) -> (r: GetSourceResult)
    ensures
        r.source_id == bundle.source.source_id,
        r.external_id == bundle.source.external_id,
        r.title == bundle.source.title,
        r.summary == bundle.source.summary,
        r.document_type == bundle.source.document_type,
        r.source_metadata@ == public_metadata(bundle.source.source_metadata@),
        r.created_at == bundle.source.created_at,
        r.updated_at == bundle.source.updated_at,
        r.indexing_status == bundle.indexing_status,
        r.decision_reason@ == "LOOKUP_RESOLVED_CANONICAL"@,
        r.memory_items@.len() == bundle.memory_items@.len(),
        forall|k: int| 0 <= k < bundle.memory_items@.len() ==> source_item_from(bundle.memory_items@[k], #[trigger] r.memory_items@[k]),
{
    let source = &bundle.source;
    let mut items: Vec<SourceMemoryItemResult> = Vec::new();
    let mut i: usize = 0;
    while i < bundle.memory_items.len()
        invariant
            i <= bundle.memory_items@.len(),
            items@.len() == i,
            forall|k: int| 0 <= k < i ==> source_item_from(bundle.memory_items@[k], #[trigger] items@[k]),
        decreases bundle.memory_items@.len() - i,
    {
        let item = &bundle.memory_items[i];
        items.push(
            SourceMemoryItemResult {
                urn: item.urn.clone(),
                source_id: item.source_id,
                sequence: item.sequence,
                unit_type: item.unit_type.as_str().to_owned(),
                start_offset: item.start_offset,
                end_offset: item.end_offset,
                version: item.version.clone(),
                content: item.content.clone(),
                created_at: item.created_at,
                updated_at: item.updated_at,
            },
        );
        i = i + 1;
    }
    GetSourceResult {
        source_id: source.source_id,
        external_id: source.external_id.clone(),
        title: source.title.clone(),
        summary: match &source.summary {
            Some(s) => Some(s.clone()),
            None => None,
        },
        document_type: source.document_type,
        source_metadata: public_source_metadata(&source.source_metadata),
        created_at: source.created_at,
        updated_at: source.updated_at,
        indexing_status: bundle.indexing_status,
        decision_reason: "LOOKUP_RESOLVED_CANONICAL".to_owned(),
        memory_items: items,
    }
}

} // verus!
