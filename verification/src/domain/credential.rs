use vstd::prelude::*;
use vstd::string::*;
use crate::domain::json::{
    JsonValue, Json, json_get, members_view, items_view, object_get, duplicate_json, lemma_object_view,
    lemma_array_view, lemma_scalar_views, sort_by_key, sorted_insert, insert_pos, lemma_sorted_insert_at, key_lt,
    bytes_less,
};
use crate::domain::normalization::{canonical_json, canonical_json_string, sha256_digest, sha256_hex};
use crate::text::hex_lower;
use crate::application::indexing::{MAX_INSTANT_NANOS, MIN_INSTANT_NANOS};

verus! {

/// Supported credential families.
#[derive(Debug, Clone, Copy, PartialEq, Eq, Structural)]
pub enum CredentialFamily {
    OpenBadgesV3,
    ClrV2,
}

#[derive(Debug, Clone, Copy, PartialEq, Eq, Structural)]
pub enum RegistrationStatus {
    Created,
    Replayed,
}

#[derive(Debug, Clone, Copy, PartialEq, Eq, Structural)]
pub enum CredentialIndexJobStatus {
    Pending,
    Completed,
}

/// A registered credential: its normalized document and the hash of it.
/// Instants are Unix nanoseconds.
#[derive(Debug)]
pub struct StandardCredential {
    pub credential_id: String,
    pub family: CredentialFamily,
    pub credential: JsonValue,
    pub semantic_payload_hash: String,
    pub created_at: i128,
    pub updated_at: i128,
}

/// Search-facing summary of a credential.
#[derive(Debug)]
pub struct CredentialSearchProjection {
    pub credential_id: String,
    pub family: CredentialFamily,
    pub name: Option<JsonValue>,
    pub issuer: Option<JsonValue>,
    pub issuer_id: Option<String>,
    pub credential_type: JsonValue,
    pub valid_from: Option<String>,
    pub preview: Option<String>,
    pub created_at: i128,
    pub updated_at: i128,
}

/// A search hit. The relevance score is carried as the bit pattern of the
/// search engine's floating point score.
#[derive(Debug)]
pub struct CredentialSearchHit {
    pub credential: JsonValue,
    pub family: CredentialFamily,
    pub score_bits: Option<u64>,
    pub preview: Option<String>,
}

#[derive(Debug)]
pub struct CredentialSearchResponse {
    pub items: Vec<CredentialSearchHit>,
    pub limit: usize,
    pub offset: usize,
}

#[derive(Debug, Clone)]
pub struct SearchCredentialsQuery {
    pub q: Option<String>,
    pub family: Option<CredentialFamily>,
    pub issuer_id: Option<String>,
    pub limit: usize,
    pub offset: usize,
}

#[derive(Debug, Clone)]
pub struct CredentialIndexJob {
    pub job_id: u128,
    pub credential_id: String,
    pub status: CredentialIndexJobStatus,
    pub retry_count: u32,
    pub created_at: i128,
    pub updated_at: i128,
}

pub open spec fn normalized_members(m: Seq<(Seq<char>, Json)>) -> Seq<(Seq<char>, Json)>
    decreases m, 0nat,
{
    Seq::new(m.len(), |i: int| if 0 <= i < m.len() { (m[i].0, normalized_json(m[i].1)) } else { (seq![], Json::Null) })
}

pub open spec fn normalized_items(items: Seq<Json>) -> Seq<Json>
    decreases items, 0nat,
{
    Seq::new(items.len(), |i: int| if 0 <= i < items.len() { normalized_json(items[i]) } else { Json::Null })
}

/// The document with the members of every object in key order.
pub open spec fn normalized_json(v: Json) -> Json
    decreases v, 1nat,
{
    match v {
        Json::Object(m) => Json::Object(sort_by_key(normalized_members(m))),
        Json::Array(items) => Json::Array(normalized_items(items)),
        _ => v,
    }
}

pub open spec fn jpairs_view(v: Seq<(String, JsonValue)>) -> Seq<(Seq<char>, Json)> {
    members_view(v)
}

pub(crate) fn insert_member_sorted(sorted: &mut Vec<(String, JsonValue)>, x: (String, JsonValue))
    ensures
        members_view(final(sorted)@) == sorted_insert(members_view(old(sorted)@), (x.0@, x.1@)),
{
    let ghost s = members_view(sorted@);
    let ghost xv = (x.0@, x.1@);
    let mut p = sorted.len();
    proof {
        assert(s.subrange(0, p as int) =~= s);
    }
    let mut go = p > 0 && bytes_less(x.0.as_str().as_bytes(), sorted[p - 1].0.as_str().as_bytes());
    while go
        invariant
            p <= sorted@.len(),
            s == members_view(sorted@),
            xv == (x.0@, x.1@),
            go ==> p > 0 && key_lt(xv.0, s[p - 1].0),
            !go ==> (p == 0 || !key_lt(xv.0, s[p - 1].0)),
            insert_pos(s, xv) == insert_pos(s.subrange(0, p as int), xv),
            forall|k: int| p <= k < s.len() ==> key_lt(xv.0, #[trigger] s[k].0),
        decreases p,
    {
        proof {
            let t = s.subrange(0, p as int);
            assert(t.last() == s[p - 1]);
            assert(t.drop_last() =~= s.subrange(0, p - 1));
        }
        p = p - 1;
        go = p > 0 && bytes_less(x.0.as_str().as_bytes(), sorted[p - 1].0.as_str().as_bytes());
    }
    proof {
        let t = s.subrange(0, p as int);
        if p > 0 {
            assert(t.last() == s[p - 1]);
        }
        assert(insert_pos(s, xv) == p);
        lemma_sorted_insert_at(s, xv);
    }
    sorted.insert(p, x);
    proof {
        assert(members_view(sorted@) =~= s.subrange(0, p as int).push(xv) + s.subrange(p as int, s.len() as int));
    }
}

/// The document with the members of every object in key order.
#[verifier::loop_isolation(false)]
pub fn normalize_json(value: &JsonValue) -> (r: JsonValue)
    ensures
        r@ == normalized_json(value@),
    decreases value,
{
    proof {
        lemma_scalar_views(*value);
    }
    match value {
        JsonValue::Object(m) => {
            proof {
                lemma_object_view(*value);
            }
            let ghost mv = members_view(m@);
            let ghost want = normalized_members(mv);
            let mut sorted: Vec<(String, JsonValue)> = Vec::new();
            let mut i: usize = 0;
            while i < m.len()
                invariant
                    i <= m@.len(),
                    mv == members_view(m@),
                    want == normalized_members(mv),
                    members_view(sorted@) == sort_by_key(want.take(i as int)),
                decreases m@.len() - i,
            {
                assert(decreases_to!(*value => m@[i as int].1)) by {
                    assert(decreases_to!(*value => value->Object_0));
                    assert(decreases_to!(*m => m@[i as int]));
                    assert(decreases_to!(m@[i as int] => m@[i as int].1));
                }
                let v = normalize_json(&m[i].1);
                let key = m[i].0.clone();
                proof {
                    assert(want[i as int] == (key@, v@));
                    assert(want.take(i + 1).drop_last() =~= want.take(i as int));
                    assert(want.take(i + 1).last() == want[i as int]);
                }
                insert_member_sorted(&mut sorted, (key, v));
                i = i + 1;
            }
            proof {
                assert(want.take(m@.len() as int) =~= want);
            }
            let r = JsonValue::Object(sorted);
            proof {
                lemma_object_view(r);
            }
            r
        },
        JsonValue::Array(items) => {
            proof {
                lemma_array_view(*value);
            }
            let ghost iv = items_view(items@);
            let mut out: Vec<JsonValue> = Vec::new();
            let mut i: usize = 0;
            while i < items.len()
                invariant
                    i <= items@.len(),
                    iv == items_view(items@),
                    out@.len() == i,
                    forall|k: int| 0 <= k < i ==> #[trigger] out@[k]@ == normalized_json(iv[k]),
                decreases items@.len() - i,
            {
                assert(decreases_to!(*value => items@[i as int])) by {
                    assert(decreases_to!(*value => value->Array_0));
                    assert(decreases_to!(*items => items@[i as int]));
                }
                let v = normalize_json(&items[i]);
                out.push(v);
                i = i + 1;
            }
            let r = JsonValue::Array(out);
            proof {
                lemma_array_view(r);
                assert(items_view(out@) =~= normalized_items(iv));
            }
            r
        },
        _ => duplicate_json(value),
    }
}

/// Hash of a normalized document: the lowercase hexadecimal SHA-256 of its
/// compact JSON text (members in key order).
pub fn semantic_payload_hash(value: &JsonValue) -> (r: String)
    ensures
        r@ == hex_lower(sha256_digest(vstd::utf8::encode_utf8(canonical_json(value@)))),
        r@.len() == 64,
{
    let text = canonical_json_string(value);
    sha256_hex(text.as_str())
}

/// Calls `time::OffsetDateTime::now_utc` and takes its Unix timestamp in
/// nanoseconds. The value depends on the clock; claimed is only what holds
/// of every instant the time library represents (years -9999 to 9999, the
/// range it is built with here): the result lies between the first
/// nanosecond of year -9999 and the last of year 9999. The library panics
/// rather than return an instant outside that range.
#[verifier::external_body]
pub(crate) fn now_utc_nanos() -> (r: i128)
    ensures
        MIN_INSTANT_NANOS <= r <= MAX_INSTANT_NANOS,
{
    time::OffsetDateTime::now_utc().unix_timestamp_nanos()
}

impl StandardCredential {
    /// A credential registered now: the document normalized, its hash
    /// computed, creation and update instants equal.
    pub fn new(credential_id: String, family: CredentialFamily, credential: JsonValue) -> (r: StandardCredential)
        ensures
            r.credential_id@ == credential_id@,
            r.family == family,
            r.credential@ == normalized_json(credential@),
            r.semantic_payload_hash@ == hex_lower(
                sha256_digest(vstd::utf8::encode_utf8(canonical_json(normalized_json(credential@)))),
            ),
            r.created_at == r.updated_at,
    {
        let now = now_utc_nanos();
        let normalized = normalize_json(&credential);
        let hash = semantic_payload_hash(&normalized);
        StandardCredential {
            credential_id,
            family,
            credential: normalized,
            semantic_payload_hash: hash,
            created_at: now,
            updated_at: now,
        }
    }

    pub fn response_document(&self) -> (r: JsonValue)
        ensures
            r@ == self.credential@,
    {
        duplicate_json(&self.credential)
    }
}

/// `Value::get`: a member of an object, nothing for other values.
pub open spec fn member_of(v: Json, key: Seq<char>) -> Option<Json> {
    match v {
        Json::Object(m) => json_get(m, key),
        _ => None,
    }
}

pub fn value_get<'a>(v: &'a JsonValue, key: &str) -> (r: Option<&'a JsonValue>)
    ensures
        r is None <==> member_of(v@, key@) is None,
        r matches Some(x) ==> member_of(v@, key@) == Some(x@),
{
    proof {
        lemma_scalar_views(*v);
    }
    match v {
        JsonValue::Object(m) => {
            proof {
                lemma_object_view(*v);
            }
            object_get(m, key)
        },
        _ => None,
    }
}

/// The texts of the string items of a sequence, in order; other items are skipped.
pub open spec fn string_items(items: Seq<Json>) -> Seq<Seq<char>>
    decreases items.len(),
{
    if items.len() == 0 {
        seq![]
    } else {
        let rest = string_items(items.drop_last());
        match items.last() {
            Json::String(t) => rest.push(t),
            _ => rest,
        }
    }
}

/// `extract_type_tokens`: a string, or the strings of an array.
pub open spec fn type_tokens(v: Json) -> Seq<Seq<char>> {
    match v {
        Json::String(t) => seq![t],
        Json::Array(items) => string_items(items),
        _ => seq![],
    }
}

pub fn extract_type_tokens(value: &JsonValue) -> (r: Vec<String>)
    ensures
        r@.map_values(|t: String| t@) == type_tokens(value@),
{
    proof {
        lemma_scalar_views(*value);
    }
    match value {
        JsonValue::String(t) => {
            let mut v: Vec<String> = Vec::new();
            v.push(t.clone());
            proof {
                assert(v@.map_values(|t: String| t@) =~= seq![t@]);
            }
            v
        },
        JsonValue::Array(items) => {
            proof {
                lemma_array_view(*value);
            }
            let ghost iv = items_view(items@);
            let mut v: Vec<String> = Vec::new();
            let mut i: usize = 0;
            while i < items.len()
                invariant
                    i <= items@.len(),
                    iv == items_view(items@),
                    v@.map_values(|t: String| t@) == string_items(iv.take(i as int)),
                decreases items@.len() - i,
            {
                let ghost before = v@;
                proof {
                    lemma_scalar_views(items@[i as int]);
                    assert(iv[i as int] == items@[i as int]@);
                    assert(iv.take(i + 1).drop_last() =~= iv.take(i as int));
                    assert(iv.take(i + 1).last() == iv[i as int]);
                }
                match &items[i] {
                    JsonValue::String(t) => {
                        v.push(t.clone());
                        proof {
                            assert(v@.map_values(|t: String| t@) =~= before.map_values(|t: String| t@).push(t@));
                        }
                    },
                    _ => {},
                }
                i = i + 1;
            }
            proof {
                assert(iv.take(items@.len() as int) =~= iv);
            }
            v
        },
        _ => Vec::new(),
    }
}

/// `extract_stringish`: a string, or the first string member of an object.
pub open spec fn first_string_member(m: Seq<(Seq<char>, Json)>) -> Option<Seq<char>>
    decreases m.len(),
{
    if m.len() == 0 {
        None
    } else if m[0].1 is String {
        Some(m[0].1->String_0)
    } else {
        first_string_member(m.drop_first())
    }
}

pub open spec fn stringish(v: Json) -> Option<Seq<char>> {
    match v {
        Json::String(t) => Some(t),
        Json::Object(m) => first_string_member(m),
        _ => None,
    }
}

pub fn extract_stringish(value: &JsonValue) -> (r: Option<String>)
    ensures
        r is None <==> stringish(value@) is None,
        r matches Some(t) ==> stringish(value@) == Some(t@),
{
    proof {
        lemma_scalar_views(*value);
    }
    match value {
        JsonValue::String(t) => Some(t.clone()),
        JsonValue::Object(m) => {
            proof {
                lemma_object_view(*value);
            }
            let ghost mv = members_view(m@);
            proof {
                assert(mv.subrange(0, mv.len() as int) =~= mv);
            }
            let mut i: usize = 0;
            while i < m.len()
                invariant
                    i <= m@.len(),
                    mv == members_view(m@),
                    stringish(value@) == first_string_member(mv),
                    first_string_member(mv) == first_string_member(mv.subrange(i as int, mv.len() as int)),
                decreases m@.len() - i,
            {
                proof {
                    lemma_scalar_views(m@[i as int].1);
                    let t = mv.subrange(i as int, mv.len() as int);
                    assert(t[0] == mv[i as int]);
                    assert(t.drop_first() =~= mv.subrange(i + 1, mv.len() as int));
                    assert(mv[i as int] == (m@[i as int].0@, m@[i as int].1@));
                }
                if let JsonValue::String(t) = &m[i].1 {
                    return Some(t.clone());
                }
                i = i + 1;
            }
            proof {
                assert(mv.subrange(i as int, mv.len() as int).len() == 0);
            }
            None
        },
        _ => None,
    }
}

/// `extract_issuer_id`: a string, or the string `id` member of an object.
pub open spec fn issuer_id_of(v: Json) -> Option<Seq<char>> {
    match v {
        Json::String(t) => Some(t),
        Json::Object(m) => match json_get(m, "id"@) {
            Some(Json::String(t)) => Some(t),
            _ => None,
        },
        _ => None,
    }
}

pub fn extract_issuer_id(value: &JsonValue) -> (r: Option<String>)
    ensures
        r is None <==> issuer_id_of(value@) is None,
        r matches Some(t) ==> issuer_id_of(value@) == Some(t@),
{
    proof {
        lemma_scalar_views(*value);
        reveal_strlit("id");
    }
    match value {
        JsonValue::String(t) => Some(t.clone()),
        JsonValue::Object(m) => {
            proof {
                lemma_object_view(*value);
            }
            match object_get(m, "id") {
                Some(x) => {
                    proof {
                        lemma_scalar_views(*x);
                    }
                    match x {
                        JsonValue::String(t) => Some(t.clone()),
                        _ => None,
                    }
                },
                None => None,
            }
        },
        _ => None,
    }
}

/// `"{name} · {issuer}"`, or whichever of the two is present.
pub open spec fn preview_text(name: Option<Seq<char>>, issuer: Option<Seq<char>>) -> Option<Seq<char>> {
    match (name, issuer) {
        (Some(n), Some(i)) => Some(n + " · "@ + i),
        (Some(n), None) => Some(n),
        (None, Some(i)) => Some(i),
        (None, None) => None,
    }
}

pub open spec fn opt_stringish(v: Option<Json>) -> Option<Seq<char>> {
    match v {
        Some(x) => stringish(x),
        None => None,
    }
}

fn build_preview(name: Option<&JsonValue>, issuer: Option<&JsonValue>) -> (r: Option<String>)
    ensures
        r is None <==> preview_text(
            opt_stringish(match name { Some(n) => Some(n@), None => None }),
            opt_stringish(match issuer { Some(i) => Some(i@), None => None }),
        ) is None,
        r matches Some(t) ==> preview_text(
            opt_stringish(match name { Some(n) => Some(n@), None => None }),
            opt_stringish(match issuer { Some(i) => Some(i@), None => None }),
        ) == Some(t@),
{
    let n = match name {
        Some(v) => extract_stringish(v),
        None => None,
    };
    let i = match issuer {
        Some(v) => extract_stringish(v),
        None => None,
    };
    match (n, i) {
        (Some(mut a), Some(b)) => {
            a.append(" · ");
            a.append(b.as_str());
            Some(a)
        },
        (Some(a), None) => Some(a),
        (None, Some(b)) => Some(b),
        (None, None) => None,
    }
}

pub open spec fn opt_view(v: Option<JsonValue>) -> Option<Json> {
    match v {
        Some(x) => Some(x@),
        None => None,
    }
}

pub open spec fn opt_text(v: Option<String>) -> Option<Seq<char>> {
    match v {
        Some(x) => Some(x@),
        None => None,
    }
}

/// `value["type"]`: the member, or null when absent.
pub open spec fn type_member(v: Json) -> Json {
    match member_of(v, "type"@) {
        Some(t) => t,
        None => Json::Null,
    }
}

pub open spec fn valid_from_of(v: Json) -> Option<Seq<char>> {
    match member_of(v, "validFrom"@) {
        Some(Json::String(t)) => Some(t),
        _ => None,
    }
}

fn clone_opt_json(v: Option<&JsonValue>) -> (r: Option<JsonValue>)
    ensures
        opt_view(r) == match v { Some(x) => Some(x@), None => None },
{
    match v {
        Some(x) => Some(duplicate_json(x)),
        None => None,
    }
}

impl StandardCredential {
    /// The search projection: name, issuer and its identifier, type, validity
    /// start and a preview, taken from the document.
    pub fn to_projection(&self) -> (r: CredentialSearchProjection)
        ensures
            r.credential_id@ == self.credential_id@,
            r.family == self.family,
            opt_view(r.name) == member_of(self.credential@, "name"@),
            opt_view(r.issuer) == member_of(self.credential@, "issuer"@),
            opt_text(r.issuer_id) == match member_of(self.credential@, "issuer"@) {
                Some(i) => issuer_id_of(i),
                None => None,
            },
            r.credential_type@ == type_member(self.credential@),
            opt_text(r.valid_from) == valid_from_of(self.credential@),
            opt_text(r.preview) == preview_text(
                opt_stringish(member_of(self.credential@, "name"@)),
                opt_stringish(member_of(self.credential@, "issuer"@)),
            ),
            r.created_at == self.created_at,
            r.updated_at == self.updated_at,
    {
        let name_ref = value_get(&self.credential, "name");
        let issuer_ref = value_get(&self.credential, "issuer");
        let issuer_id = match issuer_ref {
            Some(i) => extract_issuer_id(i),
            None => None,
        };
        let preview = build_preview(name_ref, issuer_ref);
        let credential_type = match value_get(&self.credential, "type") {
            Some(t) => duplicate_json(t),
            None => JsonValue::Null,
        };
        let valid_from = match value_get(&self.credential, "validFrom") {
            Some(x) => {
                proof {
                    lemma_scalar_views(*x);
                }
                match x {
                    JsonValue::String(t) => Some(t.clone()),
                    _ => None,
                }
            },
            None => None,
        };
        CredentialSearchProjection {
            credential_id: self.credential_id.clone(),
            family: self.family,
            name: clone_opt_json(name_ref),
            issuer: clone_opt_json(issuer_ref),
            issuer_id,
            credential_type,
            valid_from,
            preview,
            created_at: self.created_at,
            updated_at: self.updated_at,
        }
    }
}

/// The summary document of a hit: `id`, `issuer`, `name`, `type` and
/// `validFrom`, in key order, the optional ones only when present.
pub open spec fn hit_document(p: CredentialSearchProjection) -> Json {
    let id = seq![("id"@, Json::String(p.credential_id@))];
    let issuer = match p.issuer {
        Some(i) => seq![("issuer"@, i@)],
        None => seq![],
    };
    let name = match p.name {
        Some(n) => seq![("name"@, n@)],
        None => seq![],
    };
    let ty = seq![("type"@, p.credential_type@)];
    let vf = match p.valid_from {
        Some(v) => seq![("validFrom"@, Json::String(v@))],
        None => seq![],
    };
    Json::Object(id + issuer + name + ty + vf)
}

impl CredentialSearchProjection {
    pub fn to_hit(&self, score_bits: Option<u64>) -> (r: CredentialSearchHit)
        ensures
            r.credential@ == hit_document(*self),
            r.family == self.family,
            r.score_bits == score_bits,
            opt_text(r.preview) == opt_text(self.preview),
    {
        let mut members: Vec<(String, JsonValue)> = Vec::new();
        members.push(("id".to_owned(), JsonValue::String(self.credential_id.clone())));
        let ghost m0 = members_view(members@);
        if let Some(issuer) = &self.issuer {
            members.push(("issuer".to_owned(), duplicate_json(issuer)));
        }
        let ghost m1 = members_view(members@);
        if let Some(name) = &self.name {
            members.push(("name".to_owned(), duplicate_json(name)));
        }
        let ghost m2 = members_view(members@);
        members.push(("type".to_owned(), duplicate_json(&self.credential_type)));
        let ghost m3 = members_view(members@);
        if let Some(valid_from) = &self.valid_from {
            members.push(("validFrom".to_owned(), JsonValue::String(valid_from.clone())));
        }
        let preview = match &self.preview {
            Some(p) => Some(p.clone()),
            None => None,
        };
        let credential = JsonValue::Object(members);
        proof {
            lemma_object_view(credential);
            let p = *self;
            let id = seq![("id"@, Json::String(p.credential_id@))];
            let issuer = match p.issuer {
                Some(i) => seq![("issuer"@, i@)],
                None => seq![],
            };
            let name = match p.name {
                Some(n) => seq![("name"@, n@)],
                None => seq![],
            };
            let ty = seq![("type"@, p.credential_type@)];
            let vf = match p.valid_from {
                Some(v) => seq![("validFrom"@, Json::String(v@))],
                None => seq![],
            };
            assert(m0 =~= id);
            assert(m1 =~= id + issuer);
            assert(m2 =~= id + issuer + name);
            assert(m3 =~= id + issuer + name + ty);
            assert(members_view(credential->Object_0@) =~= id + issuer + name + ty + vf);
        }
        CredentialSearchHit { credential, family: self.family, score_bits, preview }
    }
}

/// Details of a registration conflict: the credential and both hashes.
pub open spec fn conflict_document(existing: StandardCredential, incoming: StandardCredential) -> Json {
    Json::Object(
        seq![
            ("credential_id"@, Json::String(existing.credential_id@)),
            ("existing_hash"@, Json::String(existing.semantic_payload_hash@)),
            ("incoming_hash"@, Json::String(incoming.semantic_payload_hash@)),
        ],
    )
}

pub fn conflict_details(existing: &StandardCredential, incoming: &StandardCredential) -> (r: JsonValue)
    ensures
        r@ == conflict_document(*existing, *incoming),
{
    let mut members: Vec<(String, JsonValue)> = Vec::new();
    members.push(("credential_id".to_owned(), JsonValue::String(existing.credential_id.clone())));
    members.push(("existing_hash".to_owned(), JsonValue::String(existing.semantic_payload_hash.clone())));
    members.push(("incoming_hash".to_owned(), JsonValue::String(incoming.semantic_payload_hash.clone())));
    let r = JsonValue::Object(members);
    proof {
        lemma_object_view(r);
        assert(members_view(r->Object_0@) =~= seq![
            ("credential_id"@, Json::String(existing.credential_id@)),
            ("existing_hash"@, Json::String(existing.semantic_payload_hash@)),
            ("incoming_hash"@, Json::String(incoming.semantic_payload_hash@)),
        ]);
    }
    r
}

} // verus!
