use vstd::prelude::*;
use vstd::string::*;
use crate::domain::credential::{
    CredentialFamily, StandardCredential, extract_type_tokens, type_tokens, normalized_json,
};
use crate::domain::json::{JsonValue, Json, json_get, object_get, members_view, lemma_object_view, lemma_scalar_views, duplicate_json};
use crate::domain::normalization::{canonical_json, canonical_json_string, sha256_digest};
use crate::error::{AppError, AppResult, ErrorKind};
use crate::text::{hex_lower, str_eq};

verus! {

/// Readiness of a dependency the service relies on.
pub trait DependencyProbe {
    fn is_ready(&self) -> bool;
}

/// The violation messages that jsonschema reports, in its order, when the
/// payload written as JSON text `payload` is validated against the schema
/// written as JSON text `schema`; `None` when either text is not a JSON
/// document or the schema does not compile.
pub uninterp spec fn schema_violation_texts(schema: Seq<char>, payload: Seq<char>) -> Option<Seq<Seq<char>>>;

/// Reads both texts with `serde_json::from_str`, compiles the schema with
/// `jsonschema::validator_for` and renders each error of
/// `Validator::iter_errors` on the payload with its `Display`. Claims only
/// that the result is `schema_violation_texts` of the two texts. The schema
/// is one of the two pinned schemas, which reference nothing outside
/// themselves, so the result depends on the texts alone.
#[verifier::external_body]
fn schema_violations(schema: &str, payload: &str) -> (r: Option<Vec<String>>)
    requires
        schema@ == OPEN_BADGES_SCHEMA@ || schema@ == CLR_SCHEMA@,
    ensures
        match schema_violation_texts(schema@, payload@) {
            Some(v) => r matches Some(x) && texts_of(x@) == v,
            None => r is None,
        },
{
    let schema: serde_json::Value = serde_json::from_str(schema).ok()?;
    let validator = jsonschema::validator_for(&schema).ok()?;
    let payload: serde_json::Value = serde_json::from_str(payload).ok()?;
    Some(validator.iter_errors(&payload).map(|error| error.to_string()).collect())
}

pub open spec fn common_keys() -> Seq<Seq<char>> {
    seq![
        "@context"@,
        "awardedDate"@,
        "credentialSchema"@,
        "credentialStatus"@,
        "credentialSubject"@,
        "description"@,
        "endorsement"@,
        "endorsementJwt"@,
        "evidence"@,
        "id"@,
        "image"@,
        "issuer"@,
        "name"@,
        "proof"@,
        "refreshService"@,
        "termsOfUse"@,
        "type"@,
        "validFrom"@,
        "validUntil"@,
    ]
}

/// The allowed top-level members of a family, in byte order: a CLR
/// credential may also carry `partial`.
pub open spec fn allowed_keys(family: CredentialFamily) -> Seq<Seq<char>> {
    match family {
        CredentialFamily::OpenBadgesV3 => common_keys(),
        CredentialFamily::ClrV2 => common_keys().subrange(0, 13).push("partial"@) + common_keys().subrange(13, 19),
    }
}

pub open spec fn strs_view(v: Seq<&str>) -> Seq<Seq<char>> {
    Seq::new(v.len(), |i: int| v[i]@)
}

pub fn allowed_keys_for_family(family: CredentialFamily) -> (r: Vec<&'static str>)
    ensures
        strs_view(r@) == allowed_keys(family),
{
    let mut allowed: Vec<&'static str> = vec![
        "@context",
        "awardedDate",
        "credentialSchema",
        "credentialStatus",
        "credentialSubject",
        "description",
        "endorsement",
        "endorsementJwt",
        "evidence",
        "id",
        "image",
        "issuer",
        "name",
        "proof",
        "refreshService",
        "termsOfUse",
        "type",
        "validFrom",
        "validUntil",
    ];
    proof {
        assert(strs_view(allowed@) =~= common_keys());
    }
    if family == CredentialFamily::ClrV2 {
        allowed.insert(13, "partial");
        proof {
            assert(strs_view(allowed@) =~= common_keys().subrange(0, 13).push("partial"@) + common_keys().subrange(13, 19));
        }
    }
    allowed
}

/// The family a credential object is classified to: its type names Open
/// Badges (`OpenBadgeCredential` or `AchievementCredential`) or CLR
/// (`ClrCredential`), exactly one of the two. `Err(true)` when there is no
/// `type` member, `Err(false)` when it names neither or both.
pub open spec fn family_of(members: Seq<(Seq<char>, Json)>) -> Result<CredentialFamily, bool> {
    match json_get(members, "type"@) {
        None => Err(true),
        Some(t) => {
            let tokens = type_tokens(t);
            let ob = tokens.contains("OpenBadgeCredential"@) || tokens.contains("AchievementCredential"@);
            let clr = tokens.contains("ClrCredential"@);
            if ob && !clr {
                Ok(CredentialFamily::OpenBadgesV3)
            } else if clr && !ob {
                Ok(CredentialFamily::ClrV2)
            } else {
                Err(false)
            }
        },
    }
}

fn contains_token(tokens: &Vec<String>, t: &str) -> (r: bool)
    ensures
        r == tokens@.map_values(|s: String| s@).contains(t@),
{
    let ghost tv = tokens@.map_values(|s: String| s@);
    let mut i: usize = 0;
    while i < tokens.len()
        invariant
            i <= tokens@.len(),
            tv == tokens@.map_values(|s: String| s@),
            forall|k: int| 0 <= k < i ==> tv[k] != t@,
        decreases tokens@.len() - i,
    {
        if str_eq(tokens[i].as_str(), t) {
            proof {
                assert(tv[i as int] == t@);
            }
            return true;
        }
        i = i + 1;
    }
    false
}

/// A validation error carrying these details.
pub open spec fn invalid_with(e: AppError, details: Json) -> bool {
    &&& e.kind == ErrorKind::Validation
    &&& e.details matches Some(d) && d@ == details
}

/// The details of a classification failure: the supported families and
/// the offending type.
pub open spec fn classification_details(type_value: Json) -> Json {
    Json::Object(
        seq![
            ("supported_families"@, Json::Array(seq![Json::String("open_badges_v3"@), Json::String("clr_v2"@)])),
            ("type"@, type_value),
        ],
    )
}

fn classification_details_exec(type_value: &JsonValue) -> (r: JsonValue)
    ensures
        r@ == classification_details(type_value@),
{
    let a = JsonValue::String("open_badges_v3".to_owned());
    let b = JsonValue::String("clr_v2".to_owned());
    proof {
        lemma_scalar_views(a);
        lemma_scalar_views(b);
    }
    let families = JsonValue::Array(vec![a, b]);
    proof {
        reveal_with_fuel(<JsonValue as View>::view, 2);
        assert(families@ == Json::Array(seq![Json::String("open_badges_v3"@), Json::String("clr_v2"@)])) by {
            if let Json::Array(x) = families@ {
                assert(x =~= seq![Json::String("open_badges_v3"@), Json::String("clr_v2"@)]);
            }
        }
    }
    let mut m: Vec<(String, JsonValue)> = Vec::new();
    m.push(("supported_families".to_owned(), families));
    m.push(("type".to_owned(), duplicate_json(type_value)));
    let r = JsonValue::Object(m);
    proof {
        lemma_object_view(r);
        assert(members_view(m@) =~= classification_details(type_value@)->Object_0);
    }
    r
}

pub fn classify_family(members: &Vec<(String, JsonValue)>) -> (r: AppResult<CredentialFamily>)
    ensures
        match family_of(members_view(members@)) {
            Ok(f) => r == Ok::<CredentialFamily, AppError>(f),
            Err(true) => r matches Err(e) && e.kind == ErrorKind::Validation && e.details is None,
            Err(false) => r matches Err(e) && invalid_with(
                e,
                classification_details(json_get(members_view(members@), "type"@).unwrap()),
            ),
        },
{
    proof {
        reveal_strlit("type");
    }
    let type_value = match object_get(members, "type") {
        Some(t) => t,
        None => {
            return Err(AppError::invalid_input("Credential type is required for family classification", None));
        },
    };
    let tokens = extract_type_tokens(type_value);
    let has_open_badges = contains_token(&tokens, "OpenBadgeCredential") || contains_token(
        &tokens,
        "AchievementCredential",
    );
    let has_clr = contains_token(&tokens, "ClrCredential");
    if has_open_badges && !has_clr {
        Ok(CredentialFamily::OpenBadgesV3)
    } else if has_clr && !has_open_badges {
        Ok(CredentialFamily::ClrV2)
    } else {
        Err(
            AppError::invalid_input(
                "Credential payload could not be classified to exactly one supported family",
                Some(classification_details_exec(type_value)),
            ),
        )
    }
}

/// The top-level member names a family does not allow, in member order.
pub open spec fn unsupported_keys(members: Seq<(Seq<char>, Json)>, family: CredentialFamily) -> Seq<Seq<char>>
    decreases members.len(),
{
    if members.len() == 0 {
        seq![]
    } else if allowed_keys(family).contains(members.last().0) {
        unsupported_keys(members.drop_last(), family)
    } else {
        unsupported_keys(members.drop_last(), family).push(members.last().0)
    }
}

pub open spec fn string_items_json(names: Seq<Seq<char>>) -> Seq<Json> {
    Seq::new(names.len(), |i: int| Json::String(names[i]))
}

pub fn enforce_allowed_top_level_keys(members: &Vec<(String, JsonValue)>, family: CredentialFamily) -> (r: AppResult<
    (),
>)
    ensures
        r is Ok <==> unsupported_keys(members_view(members@), family).len() == 0,
        r matches Err(e) ==> invalid_with(
            e,
            Json::Object(
                seq![("unsupported_fields"@, Json::Array(string_items_json(unsupported_keys(members_view(members@), family))))],
            ),
        ),
{
    let allowed = allowed_keys_for_family(family);
    let ghost mv = members_view(members@);
    let ghost av = strs_view(allowed@);
    let mut unsupported: Vec<JsonValue> = Vec::new();
    let mut i: usize = 0;
    proof {
        assert(mv.take(0) =~= Seq::<(Seq<char>, Json)>::empty());
        assert(items_of(unsupported@) =~= Seq::<Json>::empty());
    }
    while i < members.len()
        invariant
            i <= members@.len(),
            mv == members_view(members@),
            av == strs_view(allowed@),
            av == allowed_keys(family),
            items_of(unsupported@) == string_items_json(unsupported_keys(mv.take(i as int), family)),
        decreases members@.len() - i,
    {
        proof {
            assert(mv.take(i + 1).drop_last() =~= mv.take(i as int));
            assert(mv.take(i + 1).last() == mv[i as int]);
            assert(mv[i as int].0 == members@[i as int].0@);
        }
        let key = members[i].0.as_str();
        let mut found = false;
        let mut k: usize = 0;
        while k < allowed.len()
            invariant
                k <= allowed@.len(),
                av == strs_view(allowed@),
                found == exists|j: int| 0 <= j < k && av[j] == key@,
            decreases allowed@.len() - k,
        {
            proof {
                assert(av[k as int] == allowed@[k as int]@);
            }
            let ghost was = found;
            if str_eq(allowed[k], key) {
                found = true;
            }
            proof {
                if found && !was {
                    assert(av[k as int] == key@);
                }
                if !found {
                    assert forall|j: int| 0 <= j < k + 1 implies av[j] != key@ by {
                        if j < k {
                        }
                    }
                }
            }
            k = k + 1;
        }
        proof {
            assert(found == av.contains(key@));
        }
        if !found {
            let ghost before = items_of(unsupported@);
            let v = JsonValue::String(key.to_owned());
            proof {
                lemma_scalar_views(v);
            }
            unsupported.push(v);
            proof {
                assert(items_of(unsupported@) =~= before.push(Json::String(key@)));
                let u = unsupported_keys(mv.take(i as int), family);
                assert(string_items_json(u.push(key@)) =~= string_items_json(u).push(Json::String(key@)));
            }
        }
        i = i + 1;
    }
    proof {
        assert(mv.take(i as int) =~= mv);
    }
    if unsupported.len() == 0 {
        Ok(())
    } else {
        let list = JsonValue::Array(unsupported);
        proof {
            reveal_with_fuel(<JsonValue as View>::view, 2);
            if let Json::Array(x) = list@ {
                assert(x =~= items_of(unsupported@));
            }
        }
        let mut m: Vec<(String, JsonValue)> = Vec::new();
        m.push(("unsupported_fields".to_owned(), list));
        let details = JsonValue::Object(m);
        proof {
            lemma_object_view(details);
            assert(members_view(m@) =~= seq![
                ("unsupported_fields"@, Json::Array(string_items_json(unsupported_keys(mv, family)))),
            ]);
        }
        Err(AppError::invalid_input("Credential payload includes unsupported top-level fields", Some(details)))
    }
}

pub open spec fn items_of(v: Seq<JsonValue>) -> Seq<Json> {
    Seq::new(v.len(), |i: int| v[i]@)
}

/// Text of the Open Badges schema the validator compiles.
pub const OPEN_BADGES_SCHEMA: &'static str = "{\"type\":\"object\",\"additionalProperties\":false,\"required\":[\"@context\",\"type\",\"id\",\"issuer\",\"credentialSubject\",\"proof\",\"validFrom\"],\"properties\":{\"@context\":{\"oneOf\":[{\"type\":\"string\"},{\"type\":\"array\",\"items\":{}}]},\"awardedDate\":{\"type\":\"string\"},\"credentialSchema\":{\"oneOf\":[{\"type\":\"object\"},{\"type\":\"array\",\"items\":{\"type\":\"object\"}}]},\"credentialStatus\":{\"oneOf\":[{\"type\":\"object\"},{\"type\":\"array\",\"items\":{\"type\":\"object\"}}]},\"credentialSubject\":{\"type\":\"object\"},\"description\":{\"oneOf\":[{\"type\":\"string\"},{\"type\":\"object\"}]},\"endorsement\":{\"oneOf\":[{\"type\":\"object\"},{\"type\":\"array\",\"items\":{\"type\":\"object\"}}]},\"endorsementJwt\":{\"oneOf\":[{\"type\":\"string\"},{\"type\":\"array\",\"items\":{\"type\":\"string\"}}]},\"evidence\":{\"oneOf\":[{\"type\":\"object\"},{\"type\":\"array\",\"items\":{\"type\":\"object\"}}]},\"id\":{\"type\":\"string\"},\"image\":{\"oneOf\":[{\"type\":\"string\"},{\"type\":\"object\"}]},\"issuer\":{\"oneOf\":[{\"type\":\"string\"},{\"type\":\"object\"}]},\"name\":{\"oneOf\":[{\"type\":\"string\"},{\"type\":\"object\"}]},\"partial\":{\"type\":\"boolean\"},\"proof\":{\"oneOf\":[{\"type\":\"object\"},{\"type\":\"array\",\"items\":{\"type\":\"object\"}}]},\"refreshService\":{\"oneOf\":[{\"type\":\"object\"},{\"type\":\"array\",\"items\":{\"type\":\"object\"}}]},\"termsOfUse\":{\"oneOf\":[{\"type\":\"object\"},{\"type\":\"array\",\"items\":{\"type\":\"object\"}}]},\"type\":{\"oneOf\":[{\"type\":\"string\"},{\"type\":\"array\",\"items\":{}}]},\"validFrom\":{\"type\":\"string\"},\"validUntil\":{\"type\":\"string\"}}}";

/// Text of the CLR schema the validator compiles (a `name` is required too).
pub const CLR_SCHEMA: &'static str = "{\"type\":\"object\",\"additionalProperties\":false,\"required\":[\"@context\",\"type\",\"id\",\"issuer\",\"name\",\"credentialSubject\",\"proof\",\"validFrom\"],\"properties\":{\"@context\":{\"oneOf\":[{\"type\":\"string\"},{\"type\":\"array\",\"items\":{}}]},\"awardedDate\":{\"type\":\"string\"},\"credentialSchema\":{\"oneOf\":[{\"type\":\"object\"},{\"type\":\"array\",\"items\":{\"type\":\"object\"}}]},\"credentialStatus\":{\"oneOf\":[{\"type\":\"object\"},{\"type\":\"array\",\"items\":{\"type\":\"object\"}}]},\"credentialSubject\":{\"type\":\"object\"},\"description\":{\"oneOf\":[{\"type\":\"string\"},{\"type\":\"object\"}]},\"endorsement\":{\"oneOf\":[{\"type\":\"object\"},{\"type\":\"array\",\"items\":{\"type\":\"object\"}}]},\"endorsementJwt\":{\"oneOf\":[{\"type\":\"string\"},{\"type\":\"array\",\"items\":{\"type\":\"string\"}}]},\"evidence\":{\"oneOf\":[{\"type\":\"object\"},{\"type\":\"array\",\"items\":{\"type\":\"object\"}}]},\"id\":{\"type\":\"string\"},\"image\":{\"oneOf\":[{\"type\":\"string\"},{\"type\":\"object\"}]},\"issuer\":{\"oneOf\":[{\"type\":\"string\"},{\"type\":\"object\"}]},\"name\":{\"oneOf\":[{\"type\":\"string\"},{\"type\":\"object\"}]},\"partial\":{\"type\":\"boolean\"},\"proof\":{\"oneOf\":[{\"type\":\"object\"},{\"type\":\"array\",\"items\":{\"type\":\"object\"}}]},\"refreshService\":{\"oneOf\":[{\"type\":\"object\"},{\"type\":\"array\",\"items\":{\"type\":\"object\"}}]},\"termsOfUse\":{\"oneOf\":[{\"type\":\"object\"},{\"type\":\"array\",\"items\":{\"type\":\"object\"}}]},\"type\":{\"oneOf\":[{\"type\":\"string\"},{\"type\":\"array\",\"items\":{}}]},\"validFrom\":{\"type\":\"string\"},\"validUntil\":{\"type\":\"string\"}}}";

/// Why a credential object that passed classification and the member check
/// is refused after schema validation with these violations: `Err(true)`
/// for schema violations, `Err(false)` for a missing, non-string or empty
/// `id`; otherwise its identifier.
pub open spec fn credential_id_outcome(members: Seq<(Seq<char>, Json)>, violations: Seq<Seq<char>>) -> Result<Seq<char>, bool> {
    if violations.len() > 0 {
        Err(true)
    } else {
        match json_get(members, "id"@) {
            Some(Json::String(id)) => if id.len() > 0 {
                Ok(id)
            } else {
                Err(false)
            },
            _ => Err(false),
        }
    }
}

pub open spec fn texts_of(v: Seq<String>) -> Seq<Seq<char>> {
    Seq::new(v.len(), |i: int| v[i]@)
}

/// The last step of credential validation, given the schema violations
/// found for the payload: refused with the violations when there are any,
/// refused without a string, non-empty `id`; otherwise the credential.
pub fn finish_validation(payload: JsonValue, family: CredentialFamily, violations: Vec<String>) -> (r: AppResult<
    StandardCredential,
>)
    requires
        payload is Object,
    ensures
        validation_finished(payload, family, texts_of(violations@), r),
{
    proof {
        reveal_strlit("id");
    }
    if violations.len() > 0 {
        let mut items: Vec<JsonValue> = Vec::new();
        let mut i: usize = 0;
        while i < violations.len()
            invariant
                i <= violations@.len(),
                items_of(items@) == string_items_json(texts_of(violations@.take(i as int))),
            decreases violations@.len() - i,
        {
            let v = JsonValue::String(violations[i].clone());
            proof {
                lemma_scalar_views(v);
            }
            let ghost before = items_of(items@);
            items.push(v);
            proof {
                assert(items_of(items@) =~= before.push(Json::String(violations@[i as int]@)));
                assert(texts_of(violations@.take(i + 1)) =~= texts_of(violations@.take(i as int)).push(violations@[i as int]@));
                assert(items_of(items@) =~= string_items_json(texts_of(violations@.take(i + 1))));
            }
            i = i + 1;
        }
        let details = JsonValue::Array(items);
        proof {
            reveal_with_fuel(<JsonValue as View>::view, 2);
            assert(violations@.take(violations@.len() as int) =~= violations@);
            if let Json::Array(x) = details@ {
                assert(x =~= string_items_json(texts_of(violations@)));
            }
        }
        return Err(
            AppError::invalid_input("Credential payload does not satisfy the pinned family schema", Some(details)),
        );
    }
    let id = match &payload {
        JsonValue::Object(members) => {
            proof {
                lemma_object_view(payload);
            }
            match object_get(members, "id") {
                Some(v) => {
                    proof {
                        lemma_scalar_views(*v);
                    }
                    match v {
                        JsonValue::String(s) => s.clone(),
                        _ => {
                            return Err(AppError::invalid_input("Credential id must be a string", None));
                        },
                    }
                },
                None => {
                    return Err(AppError::invalid_input("Credential id must be a string", None));
                },
            }
        },
        _ => {
            return Err(AppError::invalid_input("Credential payload must be a JSON object", None));
        },
    };
    if id.as_str().unicode_len() == 0 {
        return Err(AppError::invalid_input("Credential id must not be empty", None));
    }
    Ok(StandardCredential::new(id, family, payload))
}

/// The pinned schema of a credential family, as JSON text.
pub open spec fn family_schema(family: CredentialFamily) -> Seq<char> {
    match family {
        CredentialFamily::OpenBadgesV3 => OPEN_BADGES_SCHEMA@,
        CredentialFamily::ClrV2 => CLR_SCHEMA@,
    }
}

/// What the last step of validation returns for an object payload and the
/// schema violations found for it (see `finish_validation`).
pub open spec fn validation_finished(
    payload: JsonValue,
    family: CredentialFamily,
    violations: Seq<Seq<char>>,
    r: AppResult<StandardCredential>,
) -> bool {
    match credential_id_outcome(members_view(payload->Object_0@), violations) {
        Ok(id) => r matches Ok(c) && {
            &&& c.credential_id@ == id
            &&& c.family == family
            &&& c.credential@ == normalized_json(payload@)
            &&& c.semantic_payload_hash@ == hex_lower(
                sha256_digest(vstd::utf8::encode_utf8(canonical_json(normalized_json(payload@)))),
            )
        },
        Err(true) => r matches Err(e) && invalid_with(e, Json::Array(string_items_json(violations))),
        Err(false) => r matches Err(e) && e.kind == ErrorKind::Validation,
    }
}

/// Validates credential payloads against the pinned Open Badges and CLR
/// schemas.
pub struct CredentialValidator {}

impl CredentialValidator {
    /// The validator of the two pinned schemas.
    pub fn new() -> (r: CredentialValidator) {
        CredentialValidator {}
    }

    /// Validates a credential payload: it must be a JSON object classified
    /// to exactly one family, with only allowed top-level members, valid
    /// against that family's schema (checked on its canonical text), and
    /// with a non-empty string `id`.
    pub fn validate(&self, payload: JsonValue) -> (r: AppResult<StandardCredential>)
        ensures
            !(payload is Object) ==> (r matches Err(e) && e.kind == ErrorKind::Validation),
            payload is Object ==> (match family_of(members_view(payload->Object_0@)) {
                Err(_) => r matches Err(e) && e.kind == ErrorKind::Validation,
                Ok(f) => if unsupported_keys(members_view(payload->Object_0@), f).len() > 0 {
                    r matches Err(e) && e.kind == ErrorKind::Validation
                } else {
                    match schema_violation_texts(family_schema(f), canonical_json(payload@)) {
                        None => r matches Err(e) && e.kind == ErrorKind::Internal,
                        Some(v) => validation_finished(payload, f, v, r),
                    }
                },
            }),
    {
        let family = match &payload {
            JsonValue::Object(members) => {
                proof {
                    lemma_object_view(payload);
                }
                let family = classify_family(members)?;
                enforce_allowed_top_level_keys(members, family)?;
                family
            },
            _ => {
                proof {
                    lemma_scalar_views(payload);
                }
                return Err(AppError::invalid_input("Credential payload must be a JSON object", None));
            },
        };
        let text = canonical_json_string(&payload);
        let found = match family {
            CredentialFamily::OpenBadgesV3 => schema_violations(OPEN_BADGES_SCHEMA, text.as_str()),
            CredentialFamily::ClrV2 => schema_violations(CLR_SCHEMA, text.as_str()),
        };
        match found {
            Some(violations) => finish_validation(payload, family, violations),
            None => Err(AppError::internal("credential schema or payload could not be read for schema validation")),
        }
    }
}

} // verus!
