use vstd::prelude::*;
use crate::text::str_eq;
use crate::domain::source_identity::{random_uuid, is_random_uuid, lemma_random_uuid_not_nil};

verus! {

/// Internal state of an indexing outbox job.
#[derive(Debug, Clone, Copy, PartialEq, Eq, Structural)]
pub enum OutboxStatus {
    Pending,
    Processing,
    Retryable,
    Completed,
    DeadLetter,
}

impl OutboxStatus {
    pub open spec fn name(self) -> Seq<char> {
        match self {
            OutboxStatus::Pending => "pending"@,
            OutboxStatus::Processing => "processing"@,
            OutboxStatus::Retryable => "retryable"@,
            OutboxStatus::Completed => "completed"@,
            OutboxStatus::DeadLetter => "dead_letter"@,
        }
    }

    pub open spec fn named(value: Seq<char>) -> Option<OutboxStatus> {
        if value == "pending"@ {
            Some(OutboxStatus::Pending)
        } else if value == "processing"@ {
            Some(OutboxStatus::Processing)
        } else if value == "retryable"@ {
            Some(OutboxStatus::Retryable)
        } else if value == "completed"@ {
            Some(OutboxStatus::Completed)
        } else if value == "dead_letter"@ {
            Some(OutboxStatus::DeadLetter)
        } else {
            None
        }
    }

    pub fn as_str(self) -> (r: &'static str)
        ensures
            r@ == self.name(),
    {
        match self {
            OutboxStatus::Pending => "pending",
            OutboxStatus::Processing => "processing",
            OutboxStatus::Retryable => "retryable",
            OutboxStatus::Completed => "completed",
            OutboxStatus::DeadLetter => "dead_letter",
        }
    }

    pub fn from_str(value: &str) -> (r: Option<OutboxStatus>)
        ensures
            r == OutboxStatus::named(value@),
    {
        if str_eq(value, "pending") {
            Some(OutboxStatus::Pending)
        } else if str_eq(value, "processing") {
            Some(OutboxStatus::Processing)
        } else if str_eq(value, "retryable") {
            Some(OutboxStatus::Retryable)
        } else if str_eq(value, "completed") {
            Some(OutboxStatus::Completed)
        } else if str_eq(value, "dead_letter") {
            Some(OutboxStatus::DeadLetter)
        } else {
            None
        }
    }
}

/// Parsing the stored name of an outbox status gives back that status.
pub proof fn lemma_outbox_status_round_trip(s: OutboxStatus)
    ensures
        OutboxStatus::named(s.name()) == Some(s),
{
    reveal_strlit("pending");
    reveal_strlit("processing");
    reveal_strlit("retryable");
    reveal_strlit("completed");
    reveal_strlit("dead_letter");
    assert("retryable"@[0] != "completed"@[0]);
    assert("pending"@[1] != "processing"@[1]);
    assert("pending"@[0] != "retryable"@[0]);
    assert("pending"@[0] != "completed"@[0]);
    assert("pending"@[0] != "dead_letter"@[0]);
    assert("processing"@[0] != "retryable"@[0]);
    assert("processing"@[0] != "completed"@[0]);
    assert("processing"@[0] != "dead_letter"@[0]);
    assert("retryable"@[0] != "completed"@[0]);
    assert("retryable"@[0] != "dead_letter"@[0]);
    assert("completed"@[0] != "dead_letter"@[0]);
}

/// Indexing status as callers of the public API see it.
#[derive(Debug, Clone, Copy, PartialEq, Eq, Structural)]
pub enum PublicIndexingStatus {
    Queued,
    Indexed,
    Deferred,
}

impl PublicIndexingStatus {
    pub open spec fn name(self) -> Seq<char> {
        match self {
            PublicIndexingStatus::Queued => "queued"@,
            PublicIndexingStatus::Indexed => "indexed"@,
            PublicIndexingStatus::Deferred => "deferred"@,
        }
    }

    pub fn as_str(self) -> (r: &'static str)
        ensures
            r@ == self.name(),
    {
        match self {
            PublicIndexingStatus::Queued => "queued",
            PublicIndexingStatus::Indexed => "indexed",
            PublicIndexingStatus::Deferred => "deferred",
        }
    }
}

/// A job of the indexing outbox. Identifiers are UUIDs as 128-bit integers,
/// instants are Unix timestamps in nanoseconds.
#[derive(Debug, Clone)]
pub struct IndexingJob {
    pub job_id: u128,
    pub source_id: u128,
    pub status: OutboxStatus,
    pub retry_count: u32,
    pub last_error: Option<String>,
    pub available_at: i128,
    pub created_at: i128,
    pub updated_at: i128,
}

/// One memory item as handed to the search projection.
#[derive(Debug, Clone)]
pub struct ProjectionInput {
    pub urn: String,
    pub source_id: u128,
    pub sequence: u32,
    pub document_type: String,
    pub content_preview: String,
    pub content_hash: String,
    pub created_at: i128,
    pub updated_at: i128,
}

/// A search over the projection: free text, and optional source and
/// document type filters, paged by `limit` and `offset`.
#[derive(Debug, Clone)]
pub struct ProjectionSearchQuery {
    pub query: Option<String>,
    pub source_id: Option<u128>,
    pub document_type: Option<String>,
    pub limit: usize,
    pub offset: usize,
}

/// One hit of a projection search. The score is the bit pattern of the
/// engine's 32-bit floating-point ranking score, when it gives one.
#[derive(Debug, Clone)]
pub struct ProjectionSearchHit {
    pub urn: String,
    pub source_id: u128,
    pub sequence: u32,
    pub document_type: String,
    pub content_preview: String,
    pub score_bits: Option<u32>,
}

/// A page of projection search hits with the total number of matches.
#[derive(Debug, Clone)]
pub struct ProjectionSearchResult {
    pub total: usize,
    pub limit: usize,
    pub offset: usize,
    pub items: Vec<ProjectionSearchHit>,
}

/// Indexer that only records outbox jobs; search availability decides the
/// status reported at registration time.
#[derive(Debug, Clone)]
pub struct OutboxOnlyIndexer {
    pub search_available: bool,
}

impl OutboxOnlyIndexer {
    pub fn new(search_available: bool) -> (r: OutboxOnlyIndexer)
        ensures
            r.search_available == search_available,
    {
        OutboxOnlyIndexer { search_available }
    }

    /// A fresh pending job for `source_id`, available at once, under a
    /// random (version 4, never nil) job identifier.
    pub fn create_job(&self, source_id: u128, created_at: i128) -> (r: IndexingJob)
        ensures
            r.source_id == source_id,
            r.status == OutboxStatus::Pending,
            r.retry_count == 0,
            r.last_error.is_none(),
            r.available_at == created_at,
            r.created_at == created_at,
            r.updated_at == created_at,
            is_random_uuid(r.job_id),
            r.job_id != 0,
    {
        let job_id = random_uuid();
        proof {
            lemma_random_uuid_not_nil(job_id);
        }
        IndexingJob {
            job_id,
            source_id,
            status: OutboxStatus::Pending,
            retry_count: 0,
            last_error: None,
            available_at: created_at,
            created_at,
            updated_at: created_at,
        }
    }

    pub fn registration_status(&self) -> (r: PublicIndexingStatus)
        ensures
            r == (if self.search_available {
                PublicIndexingStatus::Queued
            } else {
                PublicIndexingStatus::Deferred
            }),
    {
        if self.search_available {
            PublicIndexingStatus::Queued
        } else {
            PublicIndexingStatus::Deferred
        }
    }
}

pub open spec fn public_status_of(status: Option<OutboxStatus>, search_available: bool) -> PublicIndexingStatus {
    if !search_available {
        PublicIndexingStatus::Deferred
    } else {
        match status.unwrap_or(OutboxStatus::Pending) {
            OutboxStatus::Pending | OutboxStatus::Processing => PublicIndexingStatus::Queued,
            OutboxStatus::Completed => PublicIndexingStatus::Indexed,
            OutboxStatus::Retryable | OutboxStatus::DeadLetter => PublicIndexingStatus::Deferred,
        }
    }
}

/// Maps the internal outbox status of a source's latest job to the public
/// indexing status. A source without a job counts as pending.
pub fn derive_public_indexing_status(status: Option<OutboxStatus>, search_available: bool) -> (r:
    PublicIndexingStatus)
    ensures
        r == public_status_of(status, search_available),
{
    if !search_available {
        return PublicIndexingStatus::Deferred;
    }
    let s = match status {
        Some(s) => s,
        None => OutboxStatus::Pending,
    };
    match s {
        OutboxStatus::Pending | OutboxStatus::Processing => PublicIndexingStatus::Queued,
        OutboxStatus::Completed => PublicIndexingStatus::Indexed,
        OutboxStatus::Retryable | OutboxStatus::DeadLetter => PublicIndexingStatus::Deferred,
    }
}

/// Internal states never leak: whatever the job status, the public status is
/// one of queued, indexed or deferred, indexed only for a completed job with
/// search available, and deferred whenever search is unavailable.
pub proof fn lemma_public_status_exposes_only_completion(status: Option<OutboxStatus>, search_available: bool)
    ensures
        public_status_of(status, search_available) == PublicIndexingStatus::Indexed
            <==> (search_available && status == Some(OutboxStatus::Completed)),
        !search_available ==> public_status_of(status, search_available) == PublicIndexingStatus::Deferred,
{
}

} // verus!
