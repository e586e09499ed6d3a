use vstd::prelude::*;
use crate::text::str_eq;
use crate::domain::json::{JsonValue, Json};

verus! {

/// Kind of authoritative content a source carries.
#[derive(Debug, Clone, Copy, PartialEq, Eq, Structural)]
pub enum DocumentType {
    Text,
    Markdown,
    Json,
}

impl DocumentType {
    pub open spec fn name(self) -> Seq<char> {
        match self {
            DocumentType::Text => "text"@,
            DocumentType::Markdown => "markdown"@,
            DocumentType::Json => "json"@,
        }
    }

    pub fn as_str(&self) -> (r: &'static str)
        ensures
            r@ == self.name(),
    {
        match self {
            DocumentType::Text => "text",
            DocumentType::Markdown => "markdown",
            DocumentType::Json => "json",
        }
    }
}

/// The stored name of a document type, if it names one.
pub open spec fn document_type_named(value: Seq<char>) -> Option<DocumentType> {
    if value == "text"@ {
        Some(DocumentType::Text)
    } else if value == "markdown"@ {
        Some(DocumentType::Markdown)
    } else if value == "json"@ {
        Some(DocumentType::Json)
    } else {
        None
    }
}

pub fn document_type_from_name(value: &str) -> (r: Option<DocumentType>)
    ensures
        r == document_type_named(value@),
{
    if str_eq(value, "text") {
        Some(DocumentType::Text)
    } else if str_eq(value, "markdown") {
        Some(DocumentType::Markdown)
    } else if str_eq(value, "json") {
        Some(DocumentType::Json)
    } else {
        None
    }
}

/// Reading back the name of a document type gives the same document type.
pub proof fn lemma_document_type_name_round_trip(d: DocumentType)
    ensures
        document_type_named(d.name()) == Some(d),
{
    reveal_strlit("text");
    reveal_strlit("markdown");
    reveal_strlit("json");
    assert("text"@[0] != "json"@[0]);
    assert("text"@[0] != "markdown"@[0]);
    assert("text"@[0] != "json"@[0]);
    assert("markdown"@[0] != "json"@[0]);
}

/// Version of the canonical identity scheme under which source
/// identifiers are derived.
pub const CANONICAL_ID_VERSION: &'static str = "v1";

/// How a source reached the library: a canonical registration, or a
/// supported-standard payload mapped to its canonical identity.
#[derive(Debug, Clone, Copy, PartialEq, Eq, Structural)]
pub enum IngestKind {
    Canonical,
    DirectStandard,
}

impl IngestKind {
    pub open spec fn name(self) -> Seq<char> {
        match self {
            IngestKind::Canonical => "canonical"@,
            IngestKind::DirectStandard => "direct_standard"@,
        }
    }

    pub fn as_str(&self) -> (r: &'static str)
        ensures
            r@ == self.name(),
    {
        match self {
            IngestKind::Canonical => "canonical",
            IngestKind::DirectStandard => "direct_standard",
        }
    }
}

/// A registered source. Identifiers are UUIDs as 128-bit integers,
/// instants are Unix nanoseconds.
#[derive(Debug)]
pub struct Source {
    pub source_id: u128,
    pub external_id: String,
    pub title: String,
    pub summary: Option<String>,
    pub document_type: DocumentType,
    pub source_metadata: JsonValue,
    pub created_at: i128,
    pub updated_at: i128,
}

/// A source as a caller states it before registration, with the hash of
/// its canonical form.
#[derive(Debug)]
pub struct CanonicalSource {
    pub title: String,
    pub summary: Option<String>,
    pub external_id: String,
    pub document_type: DocumentType,
    pub content: String,
    pub metadata: JsonValue,
    pub canonical_hash: String,
}

} // verus!
