use vstd::prelude::*;
use crate::application::register::{RegisterSourceCommand, planned_source, registered_metadata, command_system};
use crate::domain::json::{Json, json_get, sorted_insert, insert_pos, lemma_sorted_insert_at};
use crate::domain::memory_item::{MemoryItem, lemma_unit_type_name_round_trip};
use crate::domain::source::lemma_document_type_name_round_trip;
use crate::infra::migration_rewrite::{system_fields_json, without_key};
use crate::infra::records::{PersistedSourceBundle, system_str};
use crate::infra::surreal_source_repo::{
    NewSource, SourceCreateOrReplay, record_of_source, record_of_item, stored_outcome, stored_hash, bundle_status,
};
use crate::error::AppResult;

verus! {

pub(crate) proof fn lemma_without_key_absent(m: Seq<(Seq<char>, Json)>, k: Seq<char>)
    ensures
        forall|i: int| 0 <= i < without_key(m, k).len() ==> (#[trigger] without_key(m, k)[i]).0 != k,
    decreases m.len(),
{
    if m.len() > 0 {
        let d = m.drop_last();
        lemma_without_key_absent(d, k);
        let w = without_key(d, k);
        if m.last().0 != k {
            let v = w.push(m.last());
            assert(without_key(m, k) == v);
            assert forall|i: int| 0 <= i < v.len() implies (#[trigger] v[i]).0 != k by {
                if i < w.len() {
                    assert(v[i] == w[i]);
                }
            }
        }
    }
}

pub(crate) proof fn lemma_json_get_only(s: Seq<(Seq<char>, Json)>, k: Seq<char>, p: int)
    requires
        0 <= p < s.len(),
        s[p].0 == k,
        forall|i: int| 0 <= i < s.len() && i != p ==> (#[trigger] s[i]).0 != k,
    ensures
        json_get(s, k) == Some(s[p].1),
    decreases s.len(),
{
    if p > 0 {
        let t = s.drop_first();
        assert forall|i: int| 0 <= i < t.len() && i != p - 1 implies (#[trigger] t[i]).0 != k by {
            assert(t[i] == s[i + 1]);
        }
        lemma_json_get_only(t, k, p - 1);
    }
}

/// The `system` block a registration stores records the semantic payload
/// hash the registration is keyed on.
pub proof fn lemma_planned_source_records_hash(c: RegisterSourceCommand, created_at: i128, s: NewSource)
    requires
        planned_source(c, created_at, s),
    ensures
        system_str(s.source_metadata@, "semantic_payload_hash"@) == Some(s.semantic_payload_hash@),
{
    let base = match c.source_metadata@ {
        Json::Object(m) => m,
        _ => seq![],
    };
    let w = without_key(base, "system"@);
    let x = ("system"@, command_system(c));
    let t = sorted_insert(w, x);
    lemma_without_key_absent(base, "system"@);
    lemma_sorted_insert_at(w, x);
    let p = insert_pos(w, x);
    assert(t[p] == x);
    assert forall|i: int| 0 <= i < t.len() && i != p implies (#[trigger] t[i]).0 != "system"@ by {
        if i < p {
            assert(t[i] == w[i]);
        } else {
            assert(t[i] == w[i - 1]);
        }
    }
    lemma_json_get_only(t, "system"@, p);
    assert(s.source_metadata@ == Json::Object(t));
    reveal_strlit("canonical_id_version");
    reveal_strlit("ingest_kind");
    reveal_strlit("original_standard_id");
    reveal_strlit("raw_body_hash");
    reveal_strlit("semantic_payload_hash");
    let sys = match command_system(c) {
        Json::Object(m) => m,
        _ => seq![],
    };
    assert(sys.len() == 5);
    assert forall|i: int| 0 <= i < sys.len() && i != 4 implies (#[trigger] sys[i]).0 != "semantic_payload_hash"@ by {
        assert(sys[i].0.len() != "semantic_payload_hash"@.len() || sys[i].0[0] != 's');
    }
    lemma_json_get_only(sys, "semantic_payload_hash"@, 4);
}

/// Two memory items are the same item: every field equal, the metadata
/// by its model.
pub open spec fn same_item(a: MemoryItem, b: MemoryItem) -> bool {
    &&& a.urn == b.urn
    &&& a.source_id == b.source_id
    &&& a.sequence == b.sequence
    &&& a.unit_type == b.unit_type
    &&& a.start_offset == b.start_offset
    &&& a.end_offset == b.end_offset
    &&& a.version == b.version
    &&& a.content == b.content
    &&& a.content_hash == b.content_hash
    &&& a.item_metadata@ == b.item_metadata@
    &&& a.created_at == b.created_at
    &&& a.updated_at == b.updated_at
}

/// A second registration with the same semantic payload hash replays the
/// first: when the store holds the rows the first registration wrote (its
/// source, whose `system` block records its hash, and its memory items),
/// the outcome `prepare_create_or_replay` gives for the second source is a
/// replay of the first source with exactly its memory items, in order; the
/// second body is never written.
pub proof fn lemma_second_registration_replays(
    stored: PersistedSourceBundle,
    first: NewSource,
    items: Seq<MemoryItem>,
    second: NewSource,
    search_available: bool,
    r: AppResult<SourceCreateOrReplay>,
)
    requires
        record_of_source(stored.source, first),
        system_str(first.source_metadata@, "semantic_payload_hash"@) == Some(first.semantic_payload_hash@),
        stored.memory_items@.len() == items.len(),
        forall|k: int| 0 <= k < items.len() ==> record_of_item(#[trigger] stored.memory_items@[k], items[k]),
        second.semantic_payload_hash@ == first.semantic_payload_hash@,
        stored_outcome(stored, second, search_available, r),
    ensures
        r matches Ok(SourceCreateOrReplay::Replay(x)) && {
            &&& x.source.source_id == first.source_id
            &&& x.source.external_id == first.external_id
            &&& x.source.title == first.title
            &&& x.source.summary == first.summary
            &&& x.source.document_type == first.document_type
            &&& x.source.source_metadata@ == first.source_metadata@
            &&& x.source.created_at == first.created_at
            &&& x.source.updated_at == first.updated_at
            &&& x.memory_items@.len() == items.len()
            &&& forall|k: int| 0 <= k < items.len() ==> same_item(#[trigger] x.memory_items@[k], items[k])
            &&& x.indexing_status == bundle_status(stored, search_available)
        },
{
    assert(stored_hash(stored.source) == first.semantic_payload_hash@);
    lemma_document_type_name_round_trip(first.document_type);
    assert forall|k: int| 0 <= k < stored.memory_items@.len() implies
        crate::domain::memory_item::unit_type_named((#[trigger] stored.memory_items@[k]).unit_type@) is Some by {
        assert(record_of_item(stored.memory_items@[k], items[k]));
        lemma_unit_type_name_round_trip(items[k].unit_type);
    }
    if let Ok(SourceCreateOrReplay::Replay(x)) = r {
        assert forall|k: int| 0 <= k < items.len() implies same_item(#[trigger] x.memory_items@[k], items[k]) by {
            assert(record_of_item(stored.memory_items@[k], items[k]));
            lemma_unit_type_name_round_trip(items[k].unit_type);
            assert(crate::infra::surreal_source_repo::item_of_record(stored.memory_items@[k], x.memory_items@[k]));
        }
    }
}

} // verus!
