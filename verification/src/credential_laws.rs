use vstd::prelude::*;
use crate::bootstrap::family_of;
use crate::domain::credential::{CredentialFamily, string_items, type_tokens};
use crate::domain::json::{Json, json_get};

verus! {

/// The `type` value names `name`: it is that string, or an array holding
/// that string.
pub open spec fn names_type(t: Json, name: Seq<char>) -> bool {
    ||| t == Json::String(name)
    ||| (t matches Json::Array(items) && exists|i: int| 0 <= i < items.len() && items[i] == Json::String(name))
}

proof fn lemma_string_items_contains(items: Seq<Json>, name: Seq<char>)
    ensures
        string_items(items).contains(name) <==> exists|i: int| 0 <= i < items.len() && items[i] == Json::String(name),
    decreases items.len(),
{
    if items.len() > 0 {
        let d = items.drop_last();
        lemma_string_items_contains(d, name);
        let rest = string_items(d);
        if exists|i: int| 0 <= i < items.len() && items[i] == Json::String(name) {
            let i = choose|i: int| 0 <= i < items.len() && items[i] == Json::String(name);
            if i < d.len() {
                assert(d[i] == items[i]);
                let k = choose|k: int| 0 <= k < rest.len() && rest[k] == name;
                if let Json::String(t) = items.last() {
                    assert(rest.push(t)[k] == name);
                }
            } else {
                assert(string_items(items) == rest.push(name));
                assert(rest.push(name)[rest.len() as int] == name);
            }
        }
        if string_items(items).contains(name) {
            let k = choose|k: int| 0 <= k < string_items(items).len() && string_items(items)[k] == name;
            match items.last() {
                Json::String(t) => {
                    if k == rest.len() {
                        assert(items[items.len() - 1] == Json::String(name));
                    } else {
                        assert(rest[k] == name);
                        let i = choose|i: int| 0 <= i < d.len() && d[i] == Json::String(name);
                        assert(items[i] == d[i]);
                    }
                },
                _ => {
                    assert(rest[k] == name);
                    let i = choose|i: int| 0 <= i < d.len() && d[i] == Json::String(name);
                    assert(items[i] == d[i]);
                },
            }
        }
    }
}

proof fn lemma_type_tokens_contains(t: Json, name: Seq<char>)
    ensures
        type_tokens(t).contains(name) <==> names_type(t, name),
{
    match t {
        Json::String(s) => {
            if type_tokens(t).contains(name) {
                assert(seq![s][0] == s);
            }
            if names_type(t, name) {
                assert(seq![s][0] == name);
            }
        },
        Json::Array(items) => {
            lemma_string_items_contains(items, name);
        },
        _ => {},
    }
}

/// Classification of a credential by its `type`: Open Badges 3.0 when the
/// type names `OpenBadgeCredential` or `AchievementCredential` and not
/// `ClrCredential`; CLR 2.0 when it names `ClrCredential` and neither Open
/// Badges type; otherwise (both, neither, or no `type`) it is refused.
pub proof fn lemma_family_by_type(members: Seq<(Seq<char>, Json)>)
    ensures
        family_of(members) == Ok::<CredentialFamily, bool>(CredentialFamily::OpenBadgesV3) <==> (json_get(members, "type"@)
            matches Some(t) && (names_type(t, "OpenBadgeCredential"@) || names_type(t, "AchievementCredential"@))
            && !names_type(t, "ClrCredential"@)),
        family_of(members) == Ok::<CredentialFamily, bool>(CredentialFamily::ClrV2) <==> (json_get(members, "type"@)
            matches Some(t) && names_type(t, "ClrCredential"@) && !names_type(t, "OpenBadgeCredential"@)
            && !names_type(t, "AchievementCredential"@)),
{
    if let Some(t) = json_get(members, "type"@) {
        lemma_type_tokens_contains(t, "OpenBadgeCredential"@);
        lemma_type_tokens_contains(t, "AchievementCredential"@);
        lemma_type_tokens_contains(t, "ClrCredential"@);
    }
}

} // verus!
