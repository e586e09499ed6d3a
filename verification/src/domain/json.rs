use vstd::prelude::*;

verus! {

broadcast use vstd::std_specs::vec::group_vec_axioms;

/// A JSON document as the library reads it. Numbers keep the text the
/// JSON reader produced for them; objects keep their members in the order
/// the reader yielded them.
#[derive(Debug)]
pub enum JsonValue {
    Null,
    Bool(bool),
    Number(String),
    String(String),
    Array(Vec<JsonValue>),
    Object(Vec<(String, JsonValue)>),
}

#[verifier::external_type_specification]
#[verifier::external_body]
pub struct ExSerdeJsonValue(serde_json::Value);

/// The document `serde_json::from_str` reads from a text (`None` when the
/// text is not a JSON document), as the library models it.
pub uninterp spec fn parsed_json(text: Seq<char>) -> Option<Json>;

/// Converts a `serde_json::Value` into the library's model one for one:
/// numbers as serde_json prints them, object members in the order its map
/// yields them. Used only by `parse_json`; nothing is claimed of it alone.
#[verifier::external_body]
fn json_from_serde(value: serde_json::Value) -> (r: JsonValue) {
    match value {
        serde_json::Value::Null => JsonValue::Null,
        serde_json::Value::Bool(b) => JsonValue::Bool(b),
        serde_json::Value::Number(n) => JsonValue::Number(n.to_string()),
        serde_json::Value::String(t) => JsonValue::String(t),
        serde_json::Value::Array(items) => JsonValue::Array(items.into_iter().map(json_from_serde).collect()),
        serde_json::Value::Object(m) => JsonValue::Object(m.into_iter().map(|(k, v)| (k, json_from_serde(v))).collect()),
    }
}

/// Calls `serde_json::from_str` into a `serde_json::Value` and converts the
/// value with `json_from_serde`. Claims only that the result is
/// `parsed_json` of the text: reading is deterministic, so the same text
/// always gives the same document.
#[verifier::external_body]
pub fn parse_json(text: &str) -> (r: Option<JsonValue>)
    ensures
        match parsed_json(text@) {
            Some(j) => r matches Some(v) && v@ == j,
            None => r is None,
        },
{
    serde_json::from_str::<serde_json::Value>(text).ok().map(json_from_serde)
}

/// Mathematical model of a JSON document.
pub enum Json {
    Null,
    Bool(bool),
    Number(Seq<char>),
    String(Seq<char>),
    Array(Seq<Json>),
    Object(Seq<(Seq<char>, Json)>),
}

impl View for JsonValue {
    type V = Json;

    open spec fn view(&self) -> Json
        decreases self,
    {
        match self {
            JsonValue::Null => Json::Null,
            JsonValue::Bool(b) => Json::Bool(*b),
            JsonValue::Number(n) => Json::Number(n@),
            JsonValue::String(t) => Json::String(t@),
            JsonValue::Array(items) => Json::Array(
                Seq::new(
                    items@.len(),
                    |i: int|
                        if 0 <= i < items@.len() {
                            items@[i].view()
                        } else {
                            Json::Null
                        },
                ),
            ),
            JsonValue::Object(members) => Json::Object(
                Seq::new(
                    members@.len(),
                    |i: int|
                        if 0 <= i < members@.len() {
                            (members@[i].0@, members@[i].1.view())
                        } else {
                            (Seq::empty(), Json::Null)
                        },
                ),
            ),
        }
    }
}

/// A copy of a JSON value, member for member.
#[verifier::loop_isolation(false)]
pub fn duplicate_json(v: &JsonValue) -> (r: JsonValue)
    ensures
        r@ == v@,
    decreases v,
{
    match v {
        JsonValue::Null => JsonValue::Null,
        JsonValue::Bool(b) => JsonValue::Bool(*b),
        JsonValue::Number(n) => JsonValue::Number(n.clone()),
        JsonValue::String(t) => JsonValue::String(t.clone()),
        JsonValue::Array(items) => {
            let mut out: Vec<JsonValue> = Vec::new();
            let mut i: usize = 0;
            while i < items.len()
                invariant
                    i <= items@.len(),
                    out@.len() == i,
                    forall|k: int| 0 <= k < i ==> out@[k]@ == items@[k]@,
                decreases items@.len() - i,
            {
                                assert(decreases_to!(*v => v->Array_0));
                assert(decreases_to!(*items => items@[i as int]));
                assert(decreases_to!(*v => items@[i as int]));
                let c = duplicate_json(&items[i]);
                out.push(c);
                i = i + 1;
            }
            let r = JsonValue::Array(out);
            proof {
                if let (Json::Array(a), Json::Array(b)) = (r@, v@) {
                    assert(a =~= b);
                }
            }
            r
        },
        JsonValue::Object(members) => {
            let mut out: Vec<(String, JsonValue)> = Vec::new();
            let mut i: usize = 0;
            while i < members.len()
                invariant
                    i <= members@.len(),
                    out@.len() == i,
                    forall|k: int| 0 <= k < i ==> out@[k].0@ == members@[k].0@ && out@[k].1@ == members@[k].1@,
                decreases members@.len() - i,
            {
                                assert(decreases_to!(*v => v->Object_0));
                assert(decreases_to!(*members => members@[i as int]));
                assert(decreases_to!(members@[i as int] => members@[i as int].1));
                assert(decreases_to!(*v => members@[i as int].1));
                let k = members[i].0.clone();
                let c = duplicate_json(&members[i].1);
                out.push((k, c));
                i = i + 1;
            }
            let r = JsonValue::Object(out);
            proof {
                if let (Json::Object(a), Json::Object(b)) = (r@, v@) {
                    assert(a =~= b);
                }
            }
            r
        },
    }
}

/// Model of the members of an object, as the view of `JsonValue` gives them.
pub open spec fn members_view(m: Seq<(String, JsonValue)>) -> Seq<(Seq<char>, Json)> {
    Seq::new(
        m.len(),
        |i: int|
            if 0 <= i < m.len() {
                (m[i].0@, m[i].1@)
            } else {
                (Seq::empty(), Json::Null)
            },
    )
}

pub proof fn lemma_object_view(v: JsonValue)
    requires
        v is Object,
    ensures
        v@ == Json::Object(members_view(v->Object_0@)),
{
    if let JsonValue::Object(m) = v {
        reveal_with_fuel(<JsonValue as View>::view, 2);
        if let Json::Object(x) = v@ {
            assert(x.len() == m@.len());
            assert forall|i: int| 0 <= i < x.len() implies x[i] == members_view(m@)[i] by {
                assert(x[i] == (m@[i].0@, m@[i].1@));
            }
            assert(x =~= members_view(m@));
        } else {
            assert(false);
        }
    }
}

/// The value of the first member named `key` (JSON readers give objects
/// unique member names).
pub open spec fn json_get(members: Seq<(Seq<char>, Json)>, key: Seq<char>) -> Option<Json>
    decreases members.len(),
{
    if members.len() == 0 {
        None
    } else if members[0].0 == key {
        Some(members[0].1)
    } else {
        json_get(members.drop_first(), key)
    }
}

pub open spec fn json_get_from(members: Seq<(Seq<char>, Json)>, key: Seq<char>, i: int) -> Option<Json>
    decreases members.len() - i,
{
    if i < 0 || i >= members.len() {
        None
    } else if members[i].0 == key {
        Some(members[i].1)
    } else {
        json_get_from(members, key, i + 1)
    }
}

proof fn lemma_json_get_from(members: Seq<(Seq<char>, Json)>, key: Seq<char>, i: int)
    requires
        0 <= i <= members.len(),
    ensures
        json_get_from(members, key, i) == json_get(members.subrange(i, members.len() as int), key),
    decreases members.len() - i,
{
    if i < members.len() {
        lemma_json_get_from(members, key, i + 1);
        assert(members.subrange(i, members.len() as int).drop_first() =~= members.subrange(i + 1, members.len() as int));
    }
}

/// The first member of `members` named `key`.
pub fn object_get<'a>(members: &'a Vec<(String, JsonValue)>, key: &str) -> (r: Option<&'a JsonValue>)
    ensures
        r is None <==> json_get(members_view(members@), key@) is None,
        r matches Some(v) ==> json_get(members_view(members@), key@) == Some(v@),
{
    let ghost mv = members_view(members@);
    let mut i: usize = 0;
    while i < members.len()
        invariant
            i <= members@.len(),
            mv == members_view(members@),
            json_get_from(mv, key@, 0) == json_get_from(mv, key@, i as int),
        decreases members@.len() - i,
    {
        if crate::text::str_eq(members[i].0.as_str(), key) {
            proof {
                lemma_json_get_from(mv, key@, 0);
                assert(mv.subrange(0, mv.len() as int) =~= mv);
            }
            return Some(&members[i].1);
        }
        i = i + 1;
    }
    proof {
        lemma_json_get_from(mv, key@, 0);
        assert(mv.subrange(0, mv.len() as int) =~= mv);
    }
    None
}

pub open spec fn items_view(items: Seq<JsonValue>) -> Seq<Json> {
    Seq::new(items.len(), |i: int| if 0 <= i < items.len() { items[i]@ } else { Json::Null })
}

pub proof fn lemma_array_view(v: JsonValue)
    requires
        v is Array,
    ensures
        v@ == Json::Array(items_view(v->Array_0@)),
{
    if let JsonValue::Array(items) = v {
        reveal_with_fuel(<JsonValue as View>::view, 2);
        if let Json::Array(x) = v@ {
            assert(x.len() == items@.len());
            assert forall|i: int| 0 <= i < x.len() implies x[i] == items_view(items@)[i] by {
                assert(x[i] == items@[i]@);
            }
            assert(x =~= items_view(items@));
        } else {
            assert(false);
        }
    }
}

pub proof fn lemma_scalar_views(v: JsonValue)
    ensures
        v is Null <==> v@ is Null,
        v is Bool <==> v@ is Bool,
        v is Number <==> v@ is Number,
        v is String <==> v@ is String,
        v is Array <==> v@ is Array,
        v is Object <==> v@ is Object,
        v is Bool ==> v@ == Json::Bool(v->Bool_0),
        v is Number ==> v@ == Json::Number(v->Number_0@),
        v is String ==> v@ == Json::String(v->String_0@),
{
}

/// Byte-wise lexicographic order (the order of `String`'s `Ord`).
pub open spec fn bytes_lt(a: Seq<u8>, b: Seq<u8>) -> bool
    decreases a.len(),
{
    if a.len() == 0 {
        b.len() > 0
    } else if b.len() == 0 {
        false
    } else if a[0] < b[0] {
        true
    } else if a[0] > b[0] {
        false
    } else {
        bytes_lt(a.drop_first(), b.drop_first())
    }
}

pub proof fn lemma_bytes_lt_irreflexive(a: Seq<u8>)
    ensures
        !bytes_lt(a, a),
    decreases a.len(),
{
    if a.len() > 0 {
        lemma_bytes_lt_irreflexive(a.drop_first());
    }
}

pub proof fn lemma_bytes_lt_asymmetric(a: Seq<u8>, b: Seq<u8>)
    requires
        bytes_lt(a, b),
    ensures
        !bytes_lt(b, a),
    decreases a.len(),
{
    if a.len() > 0 && b.len() > 0 && a[0] == b[0] {
        lemma_bytes_lt_asymmetric(a.drop_first(), b.drop_first());
    }
}

pub proof fn lemma_bytes_lt_transitive(a: Seq<u8>, b: Seq<u8>, c: Seq<u8>)
    requires
        bytes_lt(a, b),
        bytes_lt(b, c),
    ensures
        bytes_lt(a, c),
    decreases a.len(),
{
    if a.len() > 0 && b.len() > 0 && c.len() > 0 && a[0] == b[0] && b[0] == c[0] {
        lemma_bytes_lt_transitive(a.drop_first(), b.drop_first(), c.drop_first());
    }
}

pub proof fn lemma_bytes_lt_total(a: Seq<u8>, b: Seq<u8>)
    requires
        a != b,
    ensures
        bytes_lt(a, b) || bytes_lt(b, a),
    decreases a.len(),
{
    if a.len() == 0 {
        if b.len() == 0 {
            assert(a =~= b);
        }
    } else if b.len() > 0 && a[0] == b[0] {
        if a.drop_first() == b.drop_first() {
            assert(a.len() == b.len()) by {
                assert(a.drop_first().len() == b.drop_first().len());
            }
            assert(a =~= b) by {
                assert forall|i: int| 0 <= i < a.len() implies a[i] == b[i] by {
                    if i > 0 {
                        assert(a[i] == a.drop_first()[i - 1]);
                        assert(b[i] == b.drop_first()[i - 1]);
                    }
                }
            }
        }
        lemma_bytes_lt_total(a.drop_first(), b.drop_first());
    }
}

pub open spec fn key_lt(a: Seq<char>, b: Seq<char>) -> bool {
    bytes_lt(vstd::utf8::encode_utf8(a), vstd::utf8::encode_utf8(b))
}

/// Key order is a strict total order.
pub proof fn lemma_key_lt_facts()
    ensures
        forall|a: Seq<char>| !#[trigger] key_lt(a, a),
        forall|a: Seq<char>, b: Seq<char>| #[trigger] key_lt(a, b) ==> !key_lt(b, a),
        forall|a: Seq<char>, b: Seq<char>, c: Seq<char>| #[trigger] key_lt(a, b) && #[trigger] key_lt(b, c) ==> key_lt(a, c),
        forall|a: Seq<char>, b: Seq<char>| a != b ==> #[trigger] key_lt(a, b) || #[trigger] key_lt(b, a),
{
    assert forall|a: Seq<char>| !#[trigger] key_lt(a, a) by {
        lemma_bytes_lt_irreflexive(vstd::utf8::encode_utf8(a));
    }
    assert forall|a: Seq<char>, b: Seq<char>| #[trigger] key_lt(a, b) implies !key_lt(b, a) by {
        lemma_bytes_lt_asymmetric(vstd::utf8::encode_utf8(a), vstd::utf8::encode_utf8(b));
    }
    assert forall|a: Seq<char>, b: Seq<char>, c: Seq<char>| #[trigger] key_lt(a, b) && #[trigger] key_lt(b, c) implies key_lt(
        a,
        c,
    ) by {
        lemma_bytes_lt_transitive(vstd::utf8::encode_utf8(a), vstd::utf8::encode_utf8(b), vstd::utf8::encode_utf8(c));
    }
    assert forall|a: Seq<char>, b: Seq<char>| a != b implies #[trigger] key_lt(a, b) || #[trigger] key_lt(b, a) by {
        crate::text::lemma_encode_utf8_injective(a, b);
        lemma_bytes_lt_total(vstd::utf8::encode_utf8(a), vstd::utf8::encode_utf8(b));
    }
}

pub fn bytes_less(a: &[u8], b: &[u8]) -> (r: bool)
    ensures
        r == bytes_lt(a@, b@),
{
    let mut i: usize = 0;
    proof {
        assert(a@.subrange(0, a@.len() as int) =~= a@);
        assert(b@.subrange(0, b@.len() as int) =~= b@);
    }
    while i < a.len() && i < b.len() && a[i] == b[i]
        invariant
            i <= a@.len(),
            i <= b@.len(),
            bytes_lt(a@, b@) == bytes_lt(a@.subrange(i as int, a@.len() as int), b@.subrange(i as int, b@.len() as int)),
        decreases a@.len() - i,
    {
        proof {
            let x = a@.subrange(i as int, a@.len() as int);
            let y = b@.subrange(i as int, b@.len() as int);
            assert(x.drop_first() =~= a@.subrange(i + 1, a@.len() as int));
            assert(y.drop_first() =~= b@.subrange(i + 1, b@.len() as int));
        }
        i = i + 1;
    }
    proof {
        let x = a@.subrange(i as int, a@.len() as int);
        let y = b@.subrange(i as int, b@.len() as int);
        if i < a@.len() && i < b@.len() {
            assert(x[0] == a@[i as int] && y[0] == b@[i as int]);
        }
    }
    if i >= a.len() {
        i < b.len()
    } else if i >= b.len() {
        false
    } else {
        a[i] < b[i]
    }
}

/// Stable insertion of `x` into `s`: after every element whose key is not
/// greater than `x`'s.
pub open spec fn sorted_insert<T>(s: Seq<(Seq<char>, T)>, x: (Seq<char>, T)) -> Seq<(Seq<char>, T)>
    decreases s.len(),
{
    if s.len() == 0 {
        seq![x]
    } else if !key_lt(x.0, s.last().0) {
        s.push(x)
    } else {
        sorted_insert(s.drop_last(), x).push(s.last())
    }
}

/// Stable sort by key (the result `slice::sort_by` gives with key order).
pub open spec fn sort_by_key<T>(s: Seq<(Seq<char>, T)>) -> Seq<(Seq<char>, T)>
    decreases s.len(),
{
    if s.len() == 0 {
        seq![]
    } else {
        sorted_insert(sort_by_key(s.drop_last()), s.last())
    }
}

pub proof fn lemma_sorted_insert_len<T>(s: Seq<(Seq<char>, T)>, x: (Seq<char>, T))
    ensures
        sorted_insert(s, x).len() == s.len() + 1,
    decreases s.len(),
{
    if s.len() > 0 && key_lt(x.0, s.last().0) {
        lemma_sorted_insert_len(s.drop_last(), x);
    }
}

pub proof fn lemma_sort_by_key_len<T>(s: Seq<(Seq<char>, T)>)
    ensures
        sort_by_key(s).len() == s.len(),
    decreases s.len(),
{
    if s.len() > 0 {
        lemma_sort_by_key_len(s.drop_last());
        lemma_sorted_insert_len(sort_by_key(s.drop_last()), s.last());
    }
}

/// The position at which `sorted_insert` places `x`: after the longest
/// prefix... computed from the back.
pub open spec fn insert_pos<T>(s: Seq<(Seq<char>, T)>, x: (Seq<char>, T)) -> int
    decreases s.len(),
{
    if s.len() == 0 {
        0
    } else if !key_lt(x.0, s.last().0) {
        s.len() as int
    } else {
        insert_pos(s.drop_last(), x)
    }
}

pub proof fn lemma_sorted_insert_at<T>(s: Seq<(Seq<char>, T)>, x: (Seq<char>, T))
    ensures
        0 <= insert_pos(s, x) <= s.len(),
        sorted_insert(s, x) == s.subrange(0, insert_pos(s, x)).push(x) + s.subrange(insert_pos(s, x), s.len() as int),
        forall|k: int| insert_pos(s, x) <= k < s.len() ==> key_lt(x.0, #[trigger] s[k].0),
        insert_pos(s, x) > 0 ==> !key_lt(x.0, s[insert_pos(s, x) - 1].0),
    decreases s.len(),
{
    if s.len() == 0 {
        assert(sorted_insert(s, x) =~= s.subrange(0, 0).push(x) + s.subrange(0, 0));
    } else if !key_lt(x.0, s.last().0) {
        assert(sorted_insert(s, x) =~= s.subrange(0, s.len() as int).push(x) + s.subrange(s.len() as int, s.len() as int));
    } else {
        let d = s.drop_last();
        lemma_sorted_insert_at(d, x);
        let p = insert_pos(d, x);
        assert(sorted_insert(s, x) =~= s.subrange(0, p).push(x) + s.subrange(p, s.len() as int)) by {
            assert(d.subrange(0, p) =~= s.subrange(0, p));
            assert(d.subrange(p, d.len() as int).push(s.last()) =~= s.subrange(p, s.len() as int));
        }
        assert forall|k: int| p <= k < s.len() implies key_lt(x.0, #[trigger] s[k].0) by {
            if k < d.len() {
                assert(s[k] == d[k]);
            }
        }
        if p > 0 {
            assert(s[p - 1] == d[p - 1]);
        }
    }
}

} // verus!
