use vstd::prelude::*;
use vstd::string::*;
use crate::domain::json::{bytes_lt, bytes_less, key_lt, lemma_key_lt_facts};
use crate::domain::source_identity::{uuid_string, uuid_text};
use crate::error::{AppError, AppResult, ErrorKind};
use crate::infra::indexer::{ProjectionInput, ProjectionSearchQuery, ProjectionSearchHit, ProjectionSearchResult};
use crate::text::{str_eq, bytes_eq, lemma_encode_utf8_injective};
use crate::infra::records::{ProjectionRehydrationBundle, PersistedMemoryItemRecord};

verus! {

pub const MEMORY_ITEMS_INDEX_UID: &'static str = "memory_items_v1";

pub const PRIMARY_KEY: &'static str = "urn";

pub const MAX_CONTENT_PREVIEW_CHARS: usize = 500;

/// The document stored in the search projection for one memory item.
#[derive(Debug)]
pub struct MemoryItemProjectionDocument {
    pub urn: String,
    pub source_id: u128,
    pub sequence: u32,
    pub document_type: String,
    pub content_preview: String,
    pub content_hash: String,
    pub created_at: i128,
    pub updated_at: i128,
}

/// A projection document with its texts as character sequences.
pub struct DocModel {
    pub urn: Seq<char>,
    pub source_id: u128,
    pub sequence: u32,
    pub document_type: Seq<char>,
    pub content_preview: Seq<char>,
    pub content_hash: Seq<char>,
    pub created_at: i128,
    pub updated_at: i128,
}

impl View for MemoryItemProjectionDocument {
    type V = DocModel;

    open spec fn view(&self) -> DocModel {
        DocModel {
            urn: self.urn@,
            source_id: self.source_id,
            sequence: self.sequence,
            document_type: self.document_type@,
            content_preview: self.content_preview@,
            content_hash: self.content_hash@,
            created_at: self.created_at,
            updated_at: self.updated_at,
        }
    }
}

pub open spec fn docs_view(v: Seq<MemoryItemProjectionDocument>) -> Seq<DocModel> {
    Seq::new(v.len(), |i: int| v[i]@)
}

/// The projection document of a projection input.
pub open spec fn input_doc(x: ProjectionInput) -> DocModel {
    DocModel {
        urn: x.urn@,
        source_id: x.source_id,
        sequence: x.sequence,
        document_type: x.document_type@,
        content_preview: x.content_preview@,
        content_hash: x.content_hash@,
        created_at: x.created_at,
        updated_at: x.updated_at,
    }
}

impl MemoryItemProjectionDocument {
    pub fn from_input(value: &ProjectionInput) -> (r: MemoryItemProjectionDocument)
        ensures
            r@ == input_doc(*value),
    {
        MemoryItemProjectionDocument {
            urn: value.urn.clone(),
            source_id: value.source_id,
            sequence: value.sequence,
            document_type: value.document_type.clone(),
            content_preview: value.content_preview.clone(),
            content_hash: value.content_hash.clone(),
            created_at: value.created_at,
            updated_at: value.updated_at,
        }
    }

    pub fn duplicate(&self) -> (r: MemoryItemProjectionDocument)
        ensures
            r@ == self@,
    {
        MemoryItemProjectionDocument {
            urn: self.urn.clone(),
            source_id: self.source_id,
            sequence: self.sequence,
            document_type: self.document_type.clone(),
            content_preview: self.content_preview.clone(),
            content_hash: self.content_hash.clone(),
            created_at: self.created_at,
            updated_at: self.updated_at,
        }
    }
}

/// The settings the projection index is created with.
#[derive(Debug)]
pub struct ProjectionIndexSettingsSnapshot {
    pub index_uid: String,
    pub primary_key: String,
    pub filterable_attributes: Vec<String>,
    pub sortable_attributes: Vec<String>,
    pub searchable_attributes: Vec<String>,
    pub displayed_attributes: Vec<String>,
}

pub open spec fn strs_view(v: Seq<String>) -> Seq<Seq<char>> {
    Seq::new(v.len(), |i: int| v[i]@)
}

/// The projection index settings: keyed by URN, filterable by source and
/// document type, sortable by sequence and timestamps.
pub open spec fn expected_settings(s: ProjectionIndexSettingsSnapshot) -> bool {
    &&& s.index_uid@ == "memory_items_v1"@
    &&& s.primary_key@ == "urn"@
    &&& strs_view(s.filterable_attributes@) == seq!["source_id"@, "document_type"@]
    &&& strs_view(s.sortable_attributes@) == seq!["sequence"@, "created_at"@, "updated_at"@]
    &&& strs_view(s.searchable_attributes@) == seq!["content_preview"@, "urn"@, "source_id"@, "content_hash"@]
    &&& strs_view(s.displayed_attributes@) == seq![
        "urn"@,
        "source_id"@,
        "sequence"@,
        "document_type"@,
        "content_preview"@,
        "content_hash"@,
        "created_at"@,
        "updated_at"@,
    ]
}

pub fn settings_snapshot() -> (r: ProjectionIndexSettingsSnapshot)
    ensures
        expected_settings(r),
{
    let filterable = vec!["source_id".to_owned(), "document_type".to_owned()];
    let sortable = vec!["sequence".to_owned(), "created_at".to_owned(), "updated_at".to_owned()];
    let searchable = vec![
        "content_preview".to_owned(),
        "urn".to_owned(),
        "source_id".to_owned(),
        "content_hash".to_owned(),
    ];
    let displayed = vec![
        "urn".to_owned(),
        "source_id".to_owned(),
        "sequence".to_owned(),
        "document_type".to_owned(),
        "content_preview".to_owned(),
        "content_hash".to_owned(),
        "created_at".to_owned(),
        "updated_at".to_owned(),
    ];
    let r = ProjectionIndexSettingsSnapshot {
        index_uid: MEMORY_ITEMS_INDEX_UID.to_owned(),
        primary_key: PRIMARY_KEY.to_owned(),
        filterable_attributes: filterable,
        sortable_attributes: sortable,
        searchable_attributes: searchable,
        displayed_attributes: displayed,
    };
    proof {
        assert(strs_view(r.filterable_attributes@) =~= seq!["source_id"@, "document_type"@]);
        assert(strs_view(r.sortable_attributes@) =~= seq!["sequence"@, "created_at"@, "updated_at"@]);
        assert(strs_view(r.searchable_attributes@) =~= seq!["content_preview"@, "urn"@, "source_id"@, "content_hash"@]);
        assert(strs_view(r.displayed_attributes@) =~= seq![
            "urn"@,
            "source_id"@,
            "sequence"@,
            "document_type"@,
            "content_preview"@,
            "content_hash"@,
            "created_at"@,
            "updated_at"@,
        ]);
    }
    r
}

fn copy_strings(v: &Vec<String>) -> (r: Vec<String>)
    ensures
        strs_view(r@) == strs_view(v@),
{
    let mut out: Vec<String> = Vec::new();
    let mut i: usize = 0;
    while i < v.len()
        invariant
            i <= v@.len(),
            out@.len() == i,
            forall|k: int| 0 <= k < i ==> #[trigger] out@[k] == v@[k],
        decreases v@.len() - i,
    {
        out.push(v[i].clone());
        i = i + 1;
    }
    proof {
        assert(strs_view(out@) =~= strs_view(v@));
    }
    out
}

impl ProjectionIndexSettingsSnapshot {
    pub fn duplicate(&self) -> (r: ProjectionIndexSettingsSnapshot)
        ensures
            r.index_uid == self.index_uid,
            r.primary_key == self.primary_key,
            strs_view(r.filterable_attributes@) == strs_view(self.filterable_attributes@),
            strs_view(r.sortable_attributes@) == strs_view(self.sortable_attributes@),
            strs_view(r.searchable_attributes@) == strs_view(self.searchable_attributes@),
            strs_view(r.displayed_attributes@) == strs_view(self.displayed_attributes@),
    {
        ProjectionIndexSettingsSnapshot {
            index_uid: self.index_uid.clone(),
            primary_key: self.primary_key.clone(),
            filterable_attributes: copy_strings(&self.filterable_attributes),
            sortable_attributes: copy_strings(&self.sortable_attributes),
            searchable_attributes: copy_strings(&self.searchable_attributes),
            displayed_attributes: copy_strings(&self.displayed_attributes),
        }
    }
}

/// The first 500 characters of a memory item's content.
pub fn build_content_preview(content: &str) -> (r: String)
    ensures
        r@ == content@.take(
            if content@.len() < MAX_CONTENT_PREVIEW_CHARS {
                content@.len() as int
            } else {
                MAX_CONTENT_PREVIEW_CHARS as int
            },
        ),
{
    let n = content.unicode_len();
    let take = if n < MAX_CONTENT_PREVIEW_CHARS {
        n
    } else {
        MAX_CONTENT_PREVIEW_CHARS
    };
    content.substring_char(0, take).to_owned()
}

/// The filter expression of a projection search, `None` when nothing is
/// filtered: `source_id = "<uuid>"` and `document_type = "<type>"`, joined
/// by ` AND `.
pub open spec fn filter_text(source_id: Option<u128>, document_type: Option<Seq<char>>) -> Option<Seq<char>> {
    let s = match source_id {
        Some(id) => Some("source_id = \""@ + uuid_text(id) + "\""@),
        None => None,
    };
    let d = match document_type {
        Some(t) => Some("document_type = \""@ + t + "\""@),
        None => None,
    };
    match (s, d) {
        (Some(a), Some(b)) => Some(a + " AND "@ + b),
        (Some(a), None) => Some(a),
        (None, Some(b)) => Some(b),
        (None, None) => None,
    }
}

pub fn build_filter(query: &ProjectionSearchQuery) -> (r: Option<String>)
    ensures
        r matches Some(t) ==> filter_text(query.source_id, match query.document_type {
            Some(t) => Some(t@),
            None => None,
        }) == Some(t@),
        r is None <==> filter_text(query.source_id, match query.document_type {
            Some(t) => Some(t@),
            None => None,
        }) is None,
{
    let s = match query.source_id {
        Some(id) => {
            let mut f = "source_id = \"".to_owned();
            let text = uuid_string(id);
            f.append(text.as_str());
            f.append("\"");
            Some(f)
        },
        None => None,
    };
    let d = match &query.document_type {
        Some(t) => {
            let mut f = "document_type = \"".to_owned();
            f.append(t.as_str());
            f.append("\"");
            Some(f)
        },
        None => None,
    };
    match (s, d) {
        (Some(a), Some(b)) => {
            let mut f = a;
            f.append(" AND ");
            f.append(b.as_str());
            Some(f)
        },
        (Some(a), None) => Some(a),
        (None, Some(b)) => Some(b),
        (None, None) => None,
    }
}

/// URNs strictly ascending in byte order (so each URN occurs once).
pub open spec fn urns_sorted(s: Seq<DocModel>) -> bool {
    forall|i: int, j: int| 0 <= i < j < s.len() ==> key_lt(s[i].urn, s[j].urn)
}

/// Index of the document with URN `u` at or after `from`.
pub open spec fn urn_index(s: Seq<DocModel>, u: Seq<char>, from: int) -> int
    decreases s.len() - from,
{
    if from < 0 || from >= s.len() {
        s.len() as int
    } else if s[from].urn == u {
        from
    } else {
        urn_index(s, u, from + 1)
    }
}

/// Index of the first document whose URN does not sort below `u`.
pub open spec fn first_not_below(s: Seq<DocModel>, u: Seq<char>, from: int) -> int
    decreases s.len() - from,
{
    if from < 0 || from >= s.len() {
        s.len() as int
    } else if !key_lt(s[from].urn, u) {
        from
    } else {
        first_not_below(s, u, from + 1)
    }
}

/// The documents after `d` is written: it replaces the document with its
/// URN, or takes its place in URN order.
pub open spec fn upsert_doc(s: Seq<DocModel>, d: DocModel) -> Seq<DocModel> {
    let i = urn_index(s, d.urn, 0);
    if i < s.len() {
        s.update(i, d)
    } else {
        s.insert(first_not_below(s, d.urn, 0), d)
    }
}

/// The documents after each input, in order, is written.
pub open spec fn upsert_docs(s: Seq<DocModel>, inputs: Seq<ProjectionInput>) -> Seq<DocModel>
    decreases inputs.len(),
{
    if inputs.len() == 0 {
        s
    } else {
        upsert_doc(upsert_docs(s, inputs.drop_last()), input_doc(inputs.last()))
    }
}

proof fn lemma_first_not_below(s: Seq<DocModel>, u: Seq<char>, from: int)
    requires
        0 <= from <= s.len(),
    ensures
        from <= first_not_below(s, u, from) <= s.len(),
        forall|k: int| from <= k < first_not_below(s, u, from) ==> key_lt(#[trigger] s[k].urn, u),
        first_not_below(s, u, from) < s.len() ==> !key_lt(s[first_not_below(s, u, from)].urn, u),
    decreases s.len() - from,
{
    if from < s.len() && key_lt(s[from].urn, u) {
        lemma_first_not_below(s, u, from + 1);
    }
}

proof fn lemma_urn_index_from(s: Seq<DocModel>, u: Seq<char>, from: int)
    requires
        0 <= from <= s.len(),
        forall|k: int| from <= k < s.len() ==> (#[trigger] s[k]).urn != u,
    ensures
        urn_index(s, u, from) == s.len(),
    decreases s.len() - from,
{
    if from < s.len() {
        lemma_urn_index_from(s, u, from + 1);
    }
}

proof fn lemma_urn_index_skip(s: Seq<DocModel>, u: Seq<char>, from: int, to: int)
    requires
        0 <= from <= to <= s.len(),
        forall|k: int| from <= k < to ==> (#[trigger] s[k]).urn != u,
    ensures
        urn_index(s, u, from) == urn_index(s, u, to),
    decreases to - from,
{
    if from < to {
        lemma_urn_index_skip(s, u, from + 1, to);
    }
}

fn upsert_into(docs: &mut Vec<MemoryItemProjectionDocument>, d: MemoryItemProjectionDocument)
    requires
        urns_sorted(docs_view(old(docs)@)),
    ensures
        urns_sorted(docs_view(final(docs)@)),
        docs_view(final(docs)@) == upsert_doc(docs_view(old(docs)@), d@),
{
    let ghost s = docs_view(docs@);
    let ghost dv = d@;
    proof {
        lemma_key_lt_facts();
    }
    let mut p: usize = 0;
    while p < docs.len() && bytes_less(docs[p].urn.as_str().as_bytes(), d.urn.as_str().as_bytes())
        invariant
            p <= docs@.len(),
            s == docs_view(docs@),
            dv == d@,
            first_not_below(s, dv.urn, 0) == first_not_below(s, dv.urn, p as int),
            forall|k: int| 0 <= k < p ==> key_lt(#[trigger] s[k].urn, dv.urn),
        decreases docs@.len() - p,
    {
        proof {
            assert(s[p as int] == docs@[p as int]@);
        }
        p = p + 1;
    }
    proof {
        if p < docs@.len() {
            assert(s[p as int] == docs@[p as int]@);
            assert(!key_lt(s[p as int].urn, dv.urn));
        }
        assert(first_not_below(s, dv.urn, p as int) == p);
        assert forall|k: int| 0 <= k < p implies (#[trigger] s[k]).urn != dv.urn by {
            assert(key_lt(s[k].urn, dv.urn));
        }
        lemma_urn_index_skip(s, dv.urn, 0, p as int);
    }
    if p < docs.len() && str_eq(docs[p].urn.as_str(), d.urn.as_str()) {
        proof {
            assert(s[p as int] == docs@[p as int]@);
            assert(urn_index(s, dv.urn, p as int) == p);
        }
        docs.set(p, d);
        proof {
            assert(docs_view(docs@) =~= s.update(p as int, dv));
        }
    } else {
        proof {
            assert forall|k: int| p <= k < s.len() implies (#[trigger] s[k]).urn != dv.urn by {
                assert(s[p as int] == docs@[p as int]@);
                assert(s[p as int].urn != dv.urn);
                assert(key_lt(dv.urn, s[p as int].urn));
                if k > p {
                    assert(key_lt(s[p as int].urn, s[k].urn));
                    assert(key_lt(dv.urn, s[k].urn));
                }
            }
            lemma_urn_index_from(s, dv.urn, p as int);
            assert forall|k: int| p <= k < s.len() implies key_lt(dv.urn, #[trigger] s[k].urn) by {
                assert(s[p as int] == docs@[p as int]@);
                assert(s[p as int].urn != dv.urn);
                assert(key_lt(dv.urn, s[p as int].urn));
                if k > p {
                    assert(key_lt(s[p as int].urn, s[k].urn));
                }
            }
        }
        docs.insert(p, d);
        proof {
            let n = docs_view(docs@);
            assert(n =~= s.insert(p as int, dv));
            assert forall|i: int, j: int| 0 <= i < j < n.len() implies key_lt(n[i].urn, n[j].urn) by {
                if j < p {
                } else if i < p && j == p {
                } else if i < p && j > p {
                    assert(n[j] == s[j - 1]);
                    assert(key_lt(s[i].urn, dv.urn));
                    assert(key_lt(dv.urn, s[j - 1].urn));
                } else if i == p {
                    assert(n[j] == s[j - 1]);
                } else {
                    assert(n[i] == s[i - 1]);
                    assert(n[j] == s[j - 1]);
                }
            }
        }
    }
}

/// The in-memory search projection: whether it is reachable, the settings
/// it was created with, and its documents in URN order.
#[derive(Debug)]
pub struct InMemoryMeiliProjectionIndex {
    available: bool,
    settings: Option<ProjectionIndexSettingsSnapshot>,
    documents: Vec<MemoryItemProjectionDocument>,
}

impl InMemoryMeiliProjectionIndex {
    #[verifier::type_invariant]
    spec fn well_formed(self) -> bool {
        &&& urns_sorted(docs_view(self.documents@))
        &&& self.settings matches Some(s) ==> expected_settings(s)
    }

    pub closed spec fn is_up(&self) -> bool {
        self.available
    }

    pub closed spec fn stored(&self) -> Seq<DocModel> {
        docs_view(self.documents@)
    }

    pub closed spec fn has_settings(&self) -> bool {
        self.settings is Some
    }

    /// A reachable, empty projection with no settings applied yet.
    pub fn new() -> (r: InMemoryMeiliProjectionIndex)
        ensures
            r.is_up(),
            r.stored() == Seq::<DocModel>::empty(),
            !r.has_settings(),
    {
        let r = InMemoryMeiliProjectionIndex { available: true, settings: None, documents: Vec::new() };
        proof {
            assert(docs_view(r.documents@) =~= Seq::<DocModel>::empty());
        }
        r
    }

    pub fn set_available(&mut self, available: bool)
        ensures
            final(self).is_up() == available,
            final(self).stored() == old(self).stored(),
            final(self).has_settings() == old(self).has_settings(),
    {
        proof {
            use_type_invariant(&*self);
        }
        self.available = available;
    }

    pub fn is_available(&self) -> (r: bool)
        ensures
            r == self.is_up(),
    {
        self.available
    }

    /// The settings applied to the index, if it was created.
    pub fn settings_snapshot(&self) -> (r: Option<ProjectionIndexSettingsSnapshot>)
        ensures
            r is Some == self.has_settings(),
            r matches Some(s) ==> expected_settings(s),
    {
        match &self.settings {
            Some(s) => {
                proof {
                    use_type_invariant(self);
                }
                Some(s.duplicate())
            },
            None => None,
        }
    }
}

impl InMemoryMeiliProjectionIndex {
    /// The stored documents, in URN order.
    pub fn documents(&self) -> (r: Vec<MemoryItemProjectionDocument>)
        ensures
            docs_view(r@) == self.stored(),
    {
        let mut out: Vec<MemoryItemProjectionDocument> = Vec::new();
        let mut i: usize = 0;
        while i < self.documents.len()
            invariant
                i <= self.documents@.len(),
                docs_view(out@) == docs_view(self.documents@).take(i as int),
            decreases self.documents@.len() - i,
        {
            let ghost before = docs_view(out@);
            out.push(self.documents[i].duplicate());
            proof {
                assert(docs_view(out@) =~= before.push(self.documents@[i as int]@));
                assert(docs_view(out@) =~= docs_view(self.documents@).take(i + 1));
            }
            i = i + 1;
        }
        proof {
            assert(docs_view(self.documents@).take(i as int) =~= docs_view(self.documents@));
        }
        out
    }

    fn ensure_available(&self) -> (r: AppResult<()>)
        ensures
            r is Ok <==> self.is_up(),
            r matches Err(e) ==> e.kind == ErrorKind::SearchDegraded && e.code is None,
    {
        if self.available {
            Ok(())
        } else {
            Err(AppError::search_degraded("Meilisearch projection is unavailable"))
        }
    }

    /// Applies the index settings; refused while the projection is down.
    pub fn ensure_index(&mut self) -> (r: AppResult<()>)
        ensures
            r is Ok <==> old(self).is_up(),
            r matches Err(e) ==> e.kind == ErrorKind::SearchDegraded && e.code is None,
            r is Ok ==> final(self).has_settings(),
            final(self).is_up() == old(self).is_up(),
            final(self).stored() == old(self).stored(),
            r is Err ==> final(self).has_settings() == old(self).has_settings(),
    {
        proof {
            use_type_invariant(&*self);
        }
        self.ensure_available()?;
        self.settings = Some(settings_snapshot());
        Ok(())
    }

    /// Writes the documents of the inputs, each replacing any document with
    /// its URN; refused while the projection is down.
    pub fn upsert(&mut self, documents: &Vec<ProjectionInput>) -> (r: AppResult<()>)
        ensures
            r is Ok <==> old(self).is_up(),
            r matches Err(e) ==> e.kind == ErrorKind::SearchDegraded && e.code is None,
            r is Ok ==> final(self).stored() == upsert_docs(old(self).stored(), documents@),
            r is Ok ==> final(self).has_settings(),
            r is Err ==> final(self).stored() == old(self).stored(),
            final(self).is_up() == old(self).is_up(),
    {
        proof {
            use_type_invariant(&*self);
        }
        self.ensure_available()?;
        self.settings = Some(settings_snapshot());
        let mut docs: Vec<MemoryItemProjectionDocument> = Vec::new();
        proof {
            assert(docs_view(docs@) =~= Seq::<DocModel>::empty());
        }
        std::mem::swap(&mut docs, &mut self.documents);
        let ghost s0 = docs_view(docs@);
        let mut i: usize = 0;
        proof {
            assert(documents@.take(0) =~= Seq::<ProjectionInput>::empty());
        }
        while i < documents.len()
            invariant
                i <= documents@.len(),
                urns_sorted(docs_view(docs@)),
                docs_view(docs@) == upsert_docs(s0, documents@.take(i as int)),
            decreases documents@.len() - i,
        {
            proof {
                assert(documents@.take(i + 1).drop_last() =~= documents@.take(i as int));
                assert(documents@.take(i + 1).last() == documents@[i as int]);
            }
            let doc = MemoryItemProjectionDocument::from_input(&documents[i]);
            upsert_into(&mut docs, doc);
            i = i + 1;
        }
        proof {
            assert(documents@.take(i as int) =~= documents@);
        }
        self.documents = docs;
        Ok(())
    }
}

pub open spec fn lower_byte(b: u8) -> u8 {
    if 65 <= b && b <= 90 {
        (b + 32) as u8
    } else {
        b
    }
}

/// ASCII lowercase of UTF-8 bytes (`str::to_ascii_lowercase`).
pub open spec fn lower_bytes(s: Seq<u8>) -> Seq<u8> {
    Seq::new(s.len(), |i: int| lower_byte(s[i]))
}

/// `n` occurs in `h` (`str::contains`).
pub open spec fn bytes_contain(h: Seq<u8>, n: Seq<u8>) -> bool {
    exists|i: int| 0 <= i && i + n.len() <= h.len() && #[trigger] h.subrange(i, i + n.len()) == n
}

/// A document matches free text when the ASCII-lowercased query occurs in
/// its lowercased preview or URN, or in its source identifier.
pub open spec fn text_matches(d: DocModel, needle: Seq<u8>) -> bool {
    ||| bytes_contain(lower_bytes(vstd::utf8::encode_utf8(d.content_preview)), needle)
    ||| bytes_contain(lower_bytes(vstd::utf8::encode_utf8(d.urn)), needle)
    ||| bytes_contain(vstd::utf8::encode_utf8(uuid_text(d.source_id)), needle)
}

pub open spec fn opt_seq(v: Option<String>) -> Option<Seq<char>> {
    match v {
        Some(s) => Some(s@),
        None => None,
    }
}

pub open spec fn doc_matches(d: DocModel, q: ProjectionSearchQuery) -> bool {
    &&& (q.source_id matches Some(id) ==> id == d.source_id)
    &&& (opt_seq(q.document_type) matches Some(t) ==> t == d.document_type)
    &&& (opt_seq(q.query) matches Some(t) ==> text_matches(d, lower_bytes(vstd::utf8::encode_utf8(t))))
}

/// The documents that match the query, in stored order.
pub open spec fn matching(s: Seq<DocModel>, q: ProjectionSearchQuery) -> Seq<DocModel>
    decreases s.len(),
{
    if s.len() == 0 {
        seq![]
    } else if doc_matches(s.last(), q) {
        matching(s.drop_last(), q).push(s.last())
    } else {
        matching(s.drop_last(), q)
    }
}

/// Search order: most recently updated first, then by sequence, then by URN.
pub open spec fn ranks_before(a: DocModel, b: DocModel) -> bool {
    ||| a.updated_at > b.updated_at
    ||| (a.updated_at == b.updated_at && a.sequence < b.sequence)
    ||| (a.updated_at == b.updated_at && a.sequence == b.sequence && key_lt(a.urn, b.urn))
}

pub open spec fn insert_ranked(s: Seq<DocModel>, x: DocModel) -> Seq<DocModel>
    decreases s.len(),
{
    if s.len() == 0 {
        seq![x]
    } else if !ranks_before(x, s.last()) {
        s.push(x)
    } else {
        insert_ranked(s.drop_last(), x).push(s.last())
    }
}

/// Stable sort in search order.
pub open spec fn sort_ranked(s: Seq<DocModel>) -> Seq<DocModel>
    decreases s.len(),
{
    if s.len() == 0 {
        seq![]
    } else {
        insert_ranked(sort_ranked(s.drop_last()), s.last())
    }
}

pub open spec fn ranked_pos(s: Seq<DocModel>, x: DocModel) -> int
    decreases s.len(),
{
    if s.len() == 0 {
        0
    } else if !ranks_before(x, s.last()) {
        s.len() as int
    } else {
        ranked_pos(s.drop_last(), x)
    }
}

proof fn lemma_insert_ranked_at(s: Seq<DocModel>, x: DocModel)
    ensures
        0 <= ranked_pos(s, x) <= s.len(),
        insert_ranked(s, x) == s.subrange(0, ranked_pos(s, x)).push(x) + s.subrange(ranked_pos(s, x), s.len() as int),
    decreases s.len(),
{
    if s.len() == 0 {
        assert(insert_ranked(s, x) =~= s.subrange(0, 0).push(x) + s.subrange(0, 0));
    } else if !ranks_before(x, s.last()) {
        assert(insert_ranked(s, x) =~= s.subrange(0, s.len() as int).push(x) + s.subrange(s.len() as int, s.len() as int));
    } else {
        let d = s.drop_last();
        lemma_insert_ranked_at(d, x);
        let p = ranked_pos(d, x);
        assert(insert_ranked(s, x) =~= s.subrange(0, p).push(x) + s.subrange(p, s.len() as int)) by {
            assert(d.subrange(0, p) =~= s.subrange(0, p));
            assert(d.subrange(p, d.len() as int).push(s.last()) =~= s.subrange(p, s.len() as int));
        }
    }
}

/// The page of `s` that skips `offset` documents and keeps at most `limit`.
pub open spec fn page(s: Seq<DocModel>, offset: usize, limit: usize) -> Seq<DocModel> {
    let start = if offset < s.len() { offset as int } else { s.len() as int };
    let end = if limit > s.len() - start { s.len() as int } else { start + limit };
    s.subrange(start, end)
}

/// A search hit with its texts as character sequences.
pub struct HitModel {
    pub urn: Seq<char>,
    pub source_id: u128,
    pub sequence: u32,
    pub document_type: Seq<char>,
    pub content_preview: Seq<char>,
    pub score_bits: Option<u32>,
}

pub open spec fn hit_view(h: ProjectionSearchHit) -> HitModel {
    HitModel {
        urn: h.urn@,
        source_id: h.source_id,
        sequence: h.sequence,
        document_type: h.document_type@,
        content_preview: h.content_preview@,
        score_bits: h.score_bits,
    }
}

pub open spec fn hits_view(v: Seq<ProjectionSearchHit>) -> Seq<HitModel> {
    Seq::new(v.len(), |i: int| hit_view(v[i]))
}

pub open spec fn doc_hit(d: DocModel) -> HitModel {
    HitModel {
        urn: d.urn,
        source_id: d.source_id,
        sequence: d.sequence,
        document_type: d.document_type,
        content_preview: d.content_preview,
        score_bits: None,
    }
}

pub open spec fn doc_hits(s: Seq<DocModel>) -> Seq<HitModel> {
    Seq::new(s.len(), |i: int| doc_hit(s[i]))
}

fn lower_vec(b: &[u8]) -> (r: Vec<u8>)
    ensures
        r@ == lower_bytes(b@),
{
    let mut out: Vec<u8> = Vec::new();
    let mut i: usize = 0;
    while i < b.len()
        invariant
            i <= b@.len(),
            out@ == lower_bytes(b@).take(i as int),
        decreases b@.len() - i,
    {
        let c = b[i];
        let l = if 65 <= c && c <= 90 {
            c + 32
        } else {
            c
        };
        out.push(l);
        proof {
            assert(out@ =~= lower_bytes(b@).take(i + 1));
        }
        i = i + 1;
    }
    proof {
        assert(lower_bytes(b@).take(i as int) =~= lower_bytes(b@));
    }
    out
}

fn contains_bytes(h: &[u8], n: &[u8]) -> (r: bool)
    ensures
        r == bytes_contain(h@, n@),
{
    if n.len() > h.len() {
        return false;
    }
    let last = h.len() - n.len();
    let mut i: usize = 0;
    while i <= last
        invariant
            last == h@.len() - n@.len(),
            n@.len() <= h@.len(),
            i <= last + 1,
            forall|k: int| 0 <= k < i ==> #[trigger] h@.subrange(k, k + n@.len()) != n@,
        decreases last + 1 - i,
    {
        let hl = h.len();
        assert(i + n@.len() <= hl);
        let end = i + n.len();
        let part = vstd::slice::slice_subrange(h, i, end);
        if bytes_eq(part, n) {
            return true;
        }
        if i == last {
            return false;
        }
        i = i + 1;
    }
    false
}

fn doc_matches_exec(d: &MemoryItemProjectionDocument, q: &ProjectionSearchQuery, needle: &Option<Vec<u8>>) -> (r: bool)
    requires
        match q.query {
            Some(t) => needle matches Some(n) && n@ == lower_bytes(vstd::utf8::encode_utf8(t@)),
            None => needle is None,
        },
    ensures
        r == doc_matches(d@, *q),
{
    if let Some(id) = q.source_id {
        if id != d.source_id {
            return false;
        }
    }
    if let Some(t) = &q.document_type {
        if !str_eq(t.as_str(), d.document_type.as_str()) {
            return false;
        }
    }
    match needle {
        Some(n) => {
            let preview = lower_vec(d.content_preview.as_str().as_bytes());
            if contains_bytes(preview.as_slice(), n.as_slice()) {
                return true;
            }
            let urn = lower_vec(d.urn.as_str().as_bytes());
            if contains_bytes(urn.as_slice(), n.as_slice()) {
                return true;
            }
            let sid = uuid_string(d.source_id);
            contains_bytes(sid.as_str().as_bytes(), n.as_slice())
        },
        None => true,
    }
}

fn ranks_before_exec(a: &MemoryItemProjectionDocument, b: &MemoryItemProjectionDocument) -> (r: bool)
    ensures
        r == ranks_before(a@, b@),
{
    a.updated_at > b.updated_at || (a.updated_at == b.updated_at && a.sequence < b.sequence) || (a.updated_at
        == b.updated_at && a.sequence == b.sequence && bytes_less(a.urn.as_str().as_bytes(), b.urn.as_str().as_bytes()))
}

fn insert_ranked_exec(sorted: &mut Vec<MemoryItemProjectionDocument>, x: MemoryItemProjectionDocument)
    ensures
        docs_view(final(sorted)@) == insert_ranked(docs_view(old(sorted)@), x@),
{
    let ghost s = docs_view(sorted@);
    let ghost xv = x@;
    let mut p = sorted.len();
    proof {
        assert(s.subrange(0, p as int) =~= s);
    }
    let mut go = p > 0 && ranks_before_exec(&x, &sorted[p - 1]);
    while go
        invariant
            p <= sorted@.len(),
            s == docs_view(sorted@),
            xv == x@,
            go ==> p > 0 && ranks_before(xv, s[p - 1]),
            !go ==> (p == 0 || !ranks_before(xv, s[p - 1])),
            ranked_pos(s, xv) == ranked_pos(s.subrange(0, p as int), xv),
        decreases p,
    {
        proof {
            let t = s.subrange(0, p as int);
            assert(t.last() == s[p - 1]);
            assert(t.drop_last() =~= s.subrange(0, p - 1));
        }
        p = p - 1;
        go = p > 0 && ranks_before_exec(&x, &sorted[p - 1]);
    }
    proof {
        let t = s.subrange(0, p as int);
        if p > 0 {
            assert(t.last() == s[p - 1]);
        }
        assert(ranked_pos(s, xv) == p);
        lemma_insert_ranked_at(s, xv);
    }
    sorted.insert(p, x);
    proof {
        assert(docs_view(sorted@) =~= s.subrange(0, p as int).push(xv) + s.subrange(p as int, s.len() as int));
    }
}

impl InMemoryMeiliProjectionIndex {
    /// The matching documents in search order, paged; refused while the
    /// projection is down.
    pub fn search(&self, query: &ProjectionSearchQuery) -> (r: AppResult<ProjectionSearchResult>)
        ensures
            r is Ok <==> self.is_up(),
            r matches Err(e) ==> e.kind == ErrorKind::SearchDegraded && e.code is None,
            r matches Ok(res) ==> {
                let ranked = sort_ranked(matching(self.stored(), *query));
                &&& res.total == ranked.len()
                &&& res.limit == query.limit
                &&& res.offset == query.offset
                &&& hits_view(res.items@) == doc_hits(page(ranked, query.offset, query.limit))
            },
    {
        self.ensure_available()?;
        let needle: Option<Vec<u8>> = match &query.query {
            Some(t) => Some(lower_vec(t.as_str().as_bytes())),
            None => None,
        };
        let ghost sv = docs_view(self.documents@);
        let mut ranked: Vec<MemoryItemProjectionDocument> = Vec::new();
        let mut i: usize = 0;
        proof {
            assert(sv.take(0) =~= Seq::<DocModel>::empty());
            assert(docs_view(ranked@) =~= Seq::<DocModel>::empty());
        }
        while i < self.documents.len()
            invariant
                i <= self.documents@.len(),
                sv == docs_view(self.documents@),
                match query.query {
                    Some(t) => needle matches Some(n) && n@ == lower_bytes(vstd::utf8::encode_utf8(t@)),
                    None => needle is None,
                },
                docs_view(ranked@) == sort_ranked(matching(sv.take(i as int), *query)),
            decreases self.documents@.len() - i,
        {
            proof {
                assert(sv.take(i + 1).drop_last() =~= sv.take(i as int));
                assert(sv.take(i + 1).last() == self.documents@[i as int]@);
            }
            let d = &self.documents[i];
            let ghost prefix = matching(sv.take(i as int), *query);
            if doc_matches_exec(d, query, &needle) {
                proof {
                    assert(matching(sv.take(i + 1), *query) == prefix.push(d@));
                    assert(prefix.push(d@).drop_last() =~= prefix);
                    assert(prefix.push(d@).last() == d@);
                }
                insert_ranked_exec(&mut ranked, d.duplicate());
            } else {
                proof {
                    assert(matching(sv.take(i + 1), *query) == prefix);
                }
            }
            i = i + 1;
        }
        proof {
            assert(sv.take(i as int) =~= sv);
        }
        let ghost rv = docs_view(ranked@);
        let total = ranked.len();
        let start = if query.offset < total {
            query.offset
        } else {
            total
        };
        let end = if query.limit > total - start {
            total
        } else {
            start + query.limit
        };
        let mut items: Vec<ProjectionSearchHit> = Vec::new();
        let mut k: usize = start;
        proof {
            assert(hits_view(items@) =~= doc_hits(rv.subrange(start as int, start as int)));
        }
        while k < end
            invariant
                start <= k <= end <= ranked@.len(),
                rv == docs_view(ranked@),
                hits_view(items@) == doc_hits(rv.subrange(start as int, k as int)),
            decreases end - k,
        {
            let d = &ranked[k];
            let ghost before = hits_view(items@);
            items.push(
                ProjectionSearchHit {
                    urn: d.urn.clone(),
                    source_id: d.source_id,
                    sequence: d.sequence,
                    document_type: d.document_type.clone(),
                    content_preview: d.content_preview.clone(),
                    score_bits: None,
                },
            );
            proof {
                assert(rv[k as int] == d@);
                assert(hits_view(items@) =~= before.push(doc_hit(rv[k as int])));
                assert(doc_hits(rv.subrange(start as int, k + 1)) =~= doc_hits(rv.subrange(start as int, k as int)).push(
                    doc_hit(rv[k as int]),
                ));
            }
            k = k + 1;
        }
        Ok(ProjectionSearchResult { total, limit: query.limit, offset: query.offset, items })
    }
}

/// Writing the same document twice leaves the projection as writing it once.
pub proof fn lemma_upsert_doc_idempotent(s: Seq<DocModel>, d: DocModel)
    requires
        urns_sorted(s),
    ensures
        upsert_doc(upsert_doc(s, d), d) == upsert_doc(s, d),
{
    let t = upsert_doc(s, d);
    let i = urn_index(s, d.urn, 0);
    lemma_urn_index_bounds(s, d.urn, 0);
    if i < s.len() {
        assert forall|k: int| 0 <= k < i implies (#[trigger] t[k]).urn != d.urn by {
            assert(t[k] == s[k]);
        }
        lemma_urn_index_skip(t, d.urn, 0, i);
        assert(t[i] == d);
        assert(t.update(i, d) =~= t);
    } else {
        let p = first_not_below(s, d.urn, 0);
        lemma_first_not_below(s, d.urn, 0);
        lemma_key_lt_facts();
        assert forall|k: int| 0 <= k < p implies (#[trigger] t[k]).urn != d.urn by {
            assert(t[k] == s[k]);
            assert(key_lt(s[k].urn, d.urn));
        }
        lemma_urn_index_skip(t, d.urn, 0, p);
        assert(t[p] == d);
        assert(t.update(p, d) =~= t);
    }
}

proof fn lemma_urn_index_bounds(s: Seq<DocModel>, u: Seq<char>, from: int)
    requires
        0 <= from <= s.len(),
    ensures
        from <= urn_index(s, u, from) <= s.len(),
        urn_index(s, u, from) < s.len() ==> s[urn_index(s, u, from)].urn == u,
        forall|k: int| from <= k < urn_index(s, u, from) ==> (#[trigger] s[k]).urn != u,
    decreases s.len() - from,
{
    if from < s.len() && s[from].urn != u {
        lemma_urn_index_bounds(s, u, from + 1);
    }
}

proof fn lemma_matching_elements(s: Seq<DocModel>, q: ProjectionSearchQuery)
    ensures
        forall|d: DocModel| #[trigger] matching(s, q).contains(d) ==> s.contains(d) && doc_matches(d, q),
    decreases s.len(),
{
    if s.len() > 0 {
        let rest = s.drop_last();
        lemma_matching_elements(rest, q);
        assert forall|d: DocModel| #[trigger] matching(s, q).contains(d) implies s.contains(d) && doc_matches(d, q) by {
            let m = matching(s, q);
            let k = choose|k: int| 0 <= k < m.len() && m[k] == d;
            if doc_matches(s.last(), q) && k == m.len() - 1 {
                assert(s[s.len() - 1] == d);
            } else {
                assert(matching(rest, q)[k] == d);
                assert(matching(rest, q).contains(d));
                let j = choose|j: int| 0 <= j < rest.len() && rest[j] == d;
                assert(s[j] == d);
            }
        }
    }
}

proof fn lemma_sort_ranked_elements(s: Seq<DocModel>)
    ensures
        forall|d: DocModel| #[trigger] sort_ranked(s).contains(d) ==> s.contains(d),
    decreases s.len(),
{
    if s.len() > 0 {
        let rest = s.drop_last();
        lemma_sort_ranked_elements(rest);
        let r = sort_ranked(rest);
        lemma_insert_ranked_at(r, s.last());
        let p = ranked_pos(r, s.last());
        assert forall|d: DocModel| #[trigger] sort_ranked(s).contains(d) implies s.contains(d) by {
            let n = sort_ranked(s);
            let k = choose|k: int| 0 <= k < n.len() && n[k] == d;
            if k == p {
                assert(s[s.len() - 1] == d);
            } else {
                let m = if k < p { k } else { k - 1 };
                assert(r[m] == d);
                assert(r.contains(d));
                let j = choose|j: int| 0 <= j < rest.len() && rest[j] == d;
                assert(s[j] == d);
            }
        }
    }
}

/// Every search hit comes from a stored document that matches the query.
pub proof fn lemma_search_hits_match(s: Seq<DocModel>, q: ProjectionSearchQuery, offset: usize, limit: usize)
    ensures
        forall|k: int|
            0 <= k < page(sort_ranked(matching(s, q)), offset, limit).len() ==> {
                let d = #[trigger] page(sort_ranked(matching(s, q)), offset, limit)[k];
                s.contains(d) && doc_matches(d, q)
            },
{
    let ranked = sort_ranked(matching(s, q));
    lemma_sort_ranked_elements(matching(s, q));
    lemma_matching_elements(s, q);
    let pg = page(ranked, offset, limit);
    assert forall|k: int| 0 <= k < pg.len() implies s.contains(#[trigger] pg[k]) && doc_matches(pg[k], q) by {
        let start = if offset < ranked.len() { offset as int } else { ranked.len() as int };
        assert(pg[k] == ranked[start + k]);
        assert(ranked.contains(ranked[start + k]));
        assert(matching(s, q).contains(pg[k]));
    }
}

proof fn lemma_sort_ranked_keeps(s: Seq<DocModel>)
    ensures
        forall|d: DocModel| s.contains(d) ==> #[trigger] sort_ranked(s).contains(d),
    decreases s.len(),
{
    if s.len() > 0 {
        let rest = s.drop_last();
        lemma_sort_ranked_keeps(rest);
        let r = sort_ranked(rest);
        lemma_insert_ranked_at(r, s.last());
        let p = ranked_pos(r, s.last());
        let n = sort_ranked(s);
        assert forall|d: DocModel| s.contains(d) implies #[trigger] sort_ranked(s).contains(d) by {
            let j = choose|j: int| 0 <= j < s.len() && s[j] == d;
            if j == s.len() - 1 {
                assert(n[p] == d);
            } else {
                assert(rest[j] == d);
                assert(rest.contains(d));
                assert(r.contains(d));
                let m = choose|m: int| 0 <= m < r.len() && r[m] == d;
                if m < p {
                    assert(n[m] == d);
                } else {
                    assert(n[m + 1] == d);
                }
            }
        }
    }
}

proof fn lemma_matching_keeps(s: Seq<DocModel>, q: ProjectionSearchQuery, d: DocModel)
    requires
        s.contains(d),
        doc_matches(d, q),
    ensures
        matching(s, q).contains(d),
    decreases s.len(),
{
    let j = choose|j: int| 0 <= j < s.len() && s[j] == d;
    let rest = s.drop_last();
    if j == s.len() - 1 {
        let m = matching(s, q);
        assert(m[m.len() - 1] == d);
    } else {
        assert(rest[j] == d);
        lemma_matching_keeps(rest, q, d);
        let mr = matching(rest, q);
        let k = choose|k: int| 0 <= k < mr.len() && mr[k] == d;
        if doc_matches(s.last(), q) {
            assert(matching(s, q)[k] == d);
        }
    }
}

/// A search applies its filters: every document it counts or returns has
/// the requested source identifier and document type and, for a free-text
/// query, holds the ASCII-lowercased query in its lowercased preview, its
/// lowercased URN or its source identifier's text; and every stored
/// document that meets those conditions is counted.
pub proof fn lemma_search_respects_filters(s: Seq<DocModel>, q: ProjectionSearchQuery, offset: usize, limit: usize)
    ensures
        forall|d: DocModel|
            #[trigger] sort_ranked(matching(s, q)).contains(d) ==> {
                &&& s.contains(d)
                &&& (q.source_id matches Some(id) ==> d.source_id == id)
                &&& (q.document_type matches Some(t) ==> d.document_type == t@)
                &&& (q.query matches Some(t) ==> {
                    let needle = lower_bytes(vstd::utf8::encode_utf8(t@));
                    ||| bytes_contain(lower_bytes(vstd::utf8::encode_utf8(d.content_preview)), needle)
                    ||| bytes_contain(lower_bytes(vstd::utf8::encode_utf8(d.urn)), needle)
                    ||| bytes_contain(vstd::utf8::encode_utf8(uuid_text(d.source_id)), needle)
                })
            },
        forall|k: int|
            0 <= k < page(sort_ranked(matching(s, q)), offset, limit).len() ==> sort_ranked(matching(s, q)).contains(
                #[trigger] page(sort_ranked(matching(s, q)), offset, limit)[k],
            ),
        forall|d: DocModel|
            s.contains(d) && (q.source_id matches Some(id) ==> d.source_id == id) && (q.document_type matches Some(t)
                ==> d.document_type == t@) && (q.query matches Some(t) ==> {
                let needle = lower_bytes(vstd::utf8::encode_utf8(t@));
                ||| bytes_contain(lower_bytes(vstd::utf8::encode_utf8(d.content_preview)), needle)
                ||| bytes_contain(lower_bytes(vstd::utf8::encode_utf8(d.urn)), needle)
                ||| bytes_contain(vstd::utf8::encode_utf8(uuid_text(d.source_id)), needle)
            }) ==> #[trigger] sort_ranked(matching(s, q)).contains(d),
{
    lemma_sort_ranked_elements(matching(s, q));
    lemma_matching_elements(s, q);
    lemma_sort_ranked_keeps(matching(s, q));
    let ranked = sort_ranked(matching(s, q));
    let pg = page(ranked, offset, limit);
    assert forall|k: int| 0 <= k < pg.len() implies ranked.contains(#[trigger] pg[k]) by {
        let start = if offset < ranked.len() { offset as int } else { ranked.len() as int };
        assert(pg[k] == ranked[start + k]);
    }
    assert forall|d: DocModel|
        s.contains(d) && (q.source_id matches Some(id) ==> d.source_id == id) && (q.document_type matches Some(t)
            ==> d.document_type == t@) && (q.query matches Some(t) ==> {
            let needle = lower_bytes(vstd::utf8::encode_utf8(t@));
            ||| bytes_contain(lower_bytes(vstd::utf8::encode_utf8(d.content_preview)), needle)
            ||| bytes_contain(lower_bytes(vstd::utf8::encode_utf8(d.urn)), needle)
            ||| bytes_contain(vstd::utf8::encode_utf8(uuid_text(d.source_id)), needle)
        }) implies #[trigger] ranked.contains(d) by {
        assert(doc_matches(d, q));
        lemma_matching_keeps(s, q, d);
    }
}

/// Hits in search order: more recently updated first, and among equally
/// recent ones the lower sequence first.
pub open spec fn recency_ordered(r: Seq<DocModel>) -> bool {
    forall|i: int, j: int|
        0 <= i < j < r.len() ==> (#[trigger] r[i]).updated_at >= (#[trigger] r[j]).updated_at && (r[i].updated_at
            == r[j].updated_at ==> r[i].sequence <= r[j].sequence)
}

proof fn lemma_ranked_pos_facts(s: Seq<DocModel>, x: DocModel)
    ensures
        forall|k: int| ranked_pos(s, x) <= k < s.len() ==> ranks_before(x, #[trigger] s[k]),
        ranked_pos(s, x) > 0 ==> !ranks_before(x, s[ranked_pos(s, x) - 1]),
    decreases s.len(),
{
    lemma_insert_ranked_at(s, x);
    if s.len() > 0 && ranks_before(x, s.last()) {
        let d = s.drop_last();
        lemma_ranked_pos_facts(d, x);
        lemma_insert_ranked_at(d, x);
        assert forall|k: int| ranked_pos(s, x) <= k < s.len() implies ranks_before(x, #[trigger] s[k]) by {
            if k < d.len() {
                assert(s[k] == d[k]);
            }
        }
        if ranked_pos(s, x) > 0 {
            assert(s[ranked_pos(s, x) - 1] == d[ranked_pos(d, x) - 1]);
        }
    }
}

proof fn lemma_insert_ranked_ordered(s: Seq<DocModel>, x: DocModel)
    requires
        recency_ordered(s),
    ensures
        recency_ordered(insert_ranked(s, x)),
{
    lemma_insert_ranked_at(s, x);
    lemma_ranked_pos_facts(s, x);
    let p = ranked_pos(s, x);
    let r = insert_ranked(s, x);
    assert forall|i: int, j: int| 0 <= i < j < r.len() implies (#[trigger] r[i]).updated_at >= (#[trigger] r[j]).updated_at
        && (r[i].updated_at == r[j].updated_at ==> r[i].sequence <= r[j].sequence) by {
        if j < p {
            assert(r[i] == s[i] && r[j] == s[j]);
        } else if j == p {
            assert(r[i] == s[i] && r[j] == x);
            if i < p - 1 {
                assert(s[i].updated_at >= s[p - 1].updated_at);
            }
        } else if i < p {
            assert(r[i] == s[i] && r[j] == s[j - 1]);
        } else if i == p {
            assert(r[i] == x && r[j] == s[j - 1]);
        } else {
            assert(r[i] == s[i - 1] && r[j] == s[j - 1]);
        }
    }
}

/// Search results come most recently updated first and, among equally
/// recent documents, in ascending sequence; a page is the run of those
/// results that starts after `offset` of them and holds at most `limit`.
pub proof fn lemma_search_order_and_page(s: Seq<DocModel>, q: ProjectionSearchQuery, offset: usize, limit: usize)
    ensures
        recency_ordered(sort_ranked(matching(s, q))),
        ({
            let r = sort_ranked(matching(s, q));
            let pg = page(r, offset, limit);
            &&& pg.len() == (if offset >= r.len() { 0 } else if limit > r.len() - offset { r.len() - offset } else { limit as int })
            &&& forall|k: int| 0 <= k < pg.len() ==> #[trigger] pg[k] == r[offset + k]
        }),
{
    lemma_sort_ranked_ordered(matching(s, q));
}

proof fn lemma_sort_ranked_ordered(s: Seq<DocModel>)
    ensures
        recency_ordered(sort_ranked(s)),
    decreases s.len(),
{
    if s.len() > 0 {
        lemma_sort_ranked_ordered(s.drop_last());
        lemma_insert_ranked_ordered(sort_ranked(s.drop_last()), s.last());
    }
}

/// The projection input of a stored memory item of a source with this
/// document type.
pub open spec fn item_input(document_type: Seq<char>, item: PersistedMemoryItemRecord, x: ProjectionInput) -> bool {
    let n = item.content@.len();
    &&& x.urn == item.urn
    &&& x.source_id == item.source_id
    &&& x.sequence == item.sequence
    &&& x.document_type@ == document_type
    &&& x.content_preview@ == item.content@.take(
        if n < MAX_CONTENT_PREVIEW_CHARS {
            n as int
        } else {
            MAX_CONTENT_PREVIEW_CHARS as int
        },
    )
    &&& x.content_hash == item.content_hash
    &&& x.created_at == item.created_at
    &&& x.updated_at == item.updated_at
}

/// The projection inputs of a source's memory items, in stored order.
pub fn projection_inputs_from_bundle(bundle: &ProjectionRehydrationBundle) -> (r: Vec<ProjectionInput>)
    ensures
        r@.len() == bundle.memory_items@.len(),
        forall|k: int|
            0 <= k < r@.len() ==> item_input(bundle.source.document_type@, bundle.memory_items@[k], #[trigger] r@[k]),
{
    let mut out: Vec<ProjectionInput> = Vec::new();
    let mut i: usize = 0;
    while i < bundle.memory_items.len()
        invariant
            i <= bundle.memory_items@.len(),
            out@.len() == i,
            forall|k: int|
                0 <= k < i ==> item_input(bundle.source.document_type@, bundle.memory_items@[k], #[trigger] out@[k]),
        decreases bundle.memory_items@.len() - i,
    {
        let item = &bundle.memory_items[i];
        out.push(
            ProjectionInput {
                urn: item.urn.clone(),
                source_id: item.source_id,
                sequence: item.sequence,
                document_type: bundle.source.document_type.clone(),
                content_preview: build_content_preview(item.content.as_str()),
                content_hash: item.content_hash.clone(),
                created_at: item.created_at,
                updated_at: item.updated_at,
            },
        );
        i = i + 1;
    }
    out
}

#[verifier::external_type_specification]
#[verifier::external_body]
pub struct ExMeiliSettings(meilisearch_sdk::settings::Settings);

/// Calls `meilisearch_sdk::settings::Settings::new`: settings with nothing
/// set. Nothing is claimed of the value, which Verus cannot see into.
#[verifier::external_body]
fn meili_settings_new() -> (r: meilisearch_sdk::settings::Settings) {
    meilisearch_sdk::settings::Settings::new()
}

/// Calls `Settings::with_filterable_attributes` with these names.
#[verifier::external_body]
fn meili_with_filterable(s: meilisearch_sdk::settings::Settings, names: &Vec<String>) -> (r:
    meilisearch_sdk::settings::Settings) {
    s.with_filterable_attributes(names)
}

/// Calls `Settings::with_sortable_attributes` with these names.
#[verifier::external_body]
fn meili_with_sortable(s: meilisearch_sdk::settings::Settings, names: &Vec<String>) -> (r:
    meilisearch_sdk::settings::Settings) {
    s.with_sortable_attributes(names)
}

/// Calls `Settings::with_searchable_attributes` with these names.
#[verifier::external_body]
fn meili_with_searchable(s: meilisearch_sdk::settings::Settings, names: &Vec<String>) -> (r:
    meilisearch_sdk::settings::Settings) {
    s.with_searchable_attributes(names)
}

/// Calls `Settings::with_displayed_attributes` with these names.
#[verifier::external_body]
fn meili_with_displayed(s: meilisearch_sdk::settings::Settings, names: &Vec<String>) -> (r:
    meilisearch_sdk::settings::Settings) {
    s.with_displayed_attributes(names)
}

/// The search engine settings of the projection index, built from the
/// attribute lists of `settings_snapshot`.
pub fn runtime_settings() -> meilisearch_sdk::settings::Settings {
    let snapshot = settings_snapshot();
    let s = meili_settings_new();
    let s = meili_with_filterable(s, &snapshot.filterable_attributes);
    let s = meili_with_sortable(s, &snapshot.sortable_attributes);
    let s = meili_with_searchable(s, &snapshot.searchable_attributes);
    meili_with_displayed(s, &snapshot.displayed_attributes)
}

} // verus!
