use vstd::prelude::*;
use crate::domain::json::{Json, key_lt, lemma_key_lt_facts, sort_by_key, sorted_insert, insert_pos, lemma_sorted_insert_at};
use crate::domain::normalization::{canonical_json, member_entries, entry_texts, item_texts, sha256_digest};
use crate::domain::credential::{normalized_json, normalized_members, normalized_items};
use crate::text::hex_lower;

verus! {

/// No key occurs twice.
pub open spec fn keys_distinct<T>(s: Seq<(Seq<char>, T)>) -> bool {
    forall|i: int, j: int| 0 <= i < j < s.len() ==> (#[trigger] s[i]).0 != (#[trigger] s[j]).0
}

/// Keys strictly ascending.
pub open spec fn strictly_sorted<T>(s: Seq<(Seq<char>, T)>) -> bool {
    forall|i: int, j: int| 0 <= i < j < s.len() ==> key_lt((#[trigger] s[i]).0, (#[trigger] s[j]).0)
}

/// The two sequences hold the same elements.
pub open spec fn same_elements<T>(a: Seq<T>, b: Seq<T>) -> bool {
    forall|x: T| a.contains(x) <==> b.contains(x)
}

proof fn lemma_sorted_insert_contains<T>(s: Seq<(Seq<char>, T)>, x: (Seq<char>, T))
    ensures
        forall|y: (Seq<char>, T)| sorted_insert(s, x).contains(y) <==> (s.contains(y) || y == x),
{
    lemma_sorted_insert_at(s, x);
    let p = insert_pos(s, x);
    let r = sorted_insert(s, x);
    assert forall|y: (Seq<char>, T)| r.contains(y) <==> (s.contains(y) || y == x) by {
        if r.contains(y) {
            let k = choose|k: int| 0 <= k < r.len() && r[k] == y;
            if k < p {
                assert(s[k] == y);
            } else if k > p {
                assert(s[k - 1] == y);
            }
        }
        if s.contains(y) {
            let k = choose|k: int| 0 <= k < s.len() && s[k] == y;
            if k < p {
                assert(r[k] == y);
            } else {
                assert(r[k + 1] == y);
            }
        }
        if y == x {
            assert(r[p] == y);
        }
    }
}

proof fn lemma_sort_contains<T>(s: Seq<(Seq<char>, T)>)
    ensures
        same_elements(sort_by_key(s), s),
        sort_by_key(s).len() == s.len(),
    decreases s.len(),
{
    if s.len() > 0 {
        let d = s.drop_last();
        lemma_sort_contains(d);
        lemma_sorted_insert_contains(sort_by_key(d), s.last());
        lemma_sorted_insert_at(sort_by_key(d), s.last());
        assert forall|y: (Seq<char>, T)| sort_by_key(s).contains(y) <==> s.contains(y) by {
            if s.contains(y) {
                let k = choose|k: int| 0 <= k < s.len() && s[k] == y;
                if k < s.len() - 1 {
                    assert(d[k] == y);
                }
            }
            if d.contains(y) {
                let k = choose|k: int| 0 <= k < d.len() && d[k] == y;
                assert(s[k] == y);
            }
        }
    }
}

proof fn lemma_sort_strictly_sorted<T>(s: Seq<(Seq<char>, T)>)
    requires
        keys_distinct(s),
    ensures
        strictly_sorted(sort_by_key(s)),
    decreases s.len(),
{
    if s.len() > 0 {
        let d = s.drop_last();
        let x = s.last();
        assert(keys_distinct(d)) by {
            assert forall|i: int, j: int| 0 <= i < j < d.len() implies (#[trigger] d[i]).0 != (#[trigger] d[j]).0 by {
                assert(d[i] == s[i] && d[j] == s[j]);
            }
        }
        lemma_sort_strictly_sorted(d);
        lemma_sort_contains(d);
        let r = sort_by_key(d);
        lemma_sorted_insert_at(r, x);
        lemma_key_lt_facts();
        let p = insert_pos(r, x);
        assert forall|k: int| 0 <= k < r.len() implies (#[trigger] r[k]).0 != x.0 by {
            assert(r.contains(r[k]));
            assert(d.contains(r[k]));
            let m = choose|m: int| 0 <= m < d.len() && d[m] == r[k];
            assert(s[m] == d[m]);
            assert(s[m].0 != s[s.len() - 1].0);
        }
        assert forall|k: int| 0 <= k < p implies key_lt((#[trigger] r[k]).0, x.0) by {
            assert(r[k].0 != x.0);
            if key_lt(x.0, r[k].0) {
                assert(key_lt(r[k].0, r[p - 1].0) || k == p - 1);
            }
        }
        let n = sorted_insert(r, x);
        assert forall|i: int, j: int| 0 <= i < j < n.len() implies key_lt((#[trigger] n[i]).0, (#[trigger] n[j]).0) by {
            if j < p {
                assert(n[i] == r[i] && n[j] == r[j]);
            } else if j == p {
                assert(n[i] == r[i]);
            } else if i < p {
                assert(n[i] == r[i] && n[j] == r[j - 1]);
                assert(key_lt(r[i].0, x.0));
            } else if i == p {
                assert(n[j] == r[j - 1]);
            } else {
                assert(n[i] == r[i - 1] && n[j] == r[j - 1]);
            }
        }
    }
}

proof fn lemma_strictly_sorted_unique<T>(a: Seq<(Seq<char>, T)>, b: Seq<(Seq<char>, T)>)
    requires
        strictly_sorted(a),
        strictly_sorted(b),
        same_elements(a, b),
    ensures
        a == b,
    decreases a.len(),
{
    lemma_key_lt_facts();
    if a.len() == 0 {
        if b.len() > 0 {
            assert(b.contains(b[0]));
        }
        assert(a =~= b);
    } else {
        assert(a.contains(a[0]));
        let i = choose|i: int| 0 <= i < b.len() && b[i] == a[0];
        assert(b.contains(b[0]));
        let j = choose|j: int| 0 <= j < a.len() && a[j] == b[0];
        if i > 0 && j > 0 {
            assert(key_lt(b[0].0, b[i].0));
            assert(key_lt(a[0].0, a[j].0));
        } else if i > 0 {
            assert(key_lt(b[0].0, b[i].0));
        }
        assert(a[0] == b[0]);
        let a1 = a.drop_first();
        let b1 = b.drop_first();
        assert forall|y: (Seq<char>, T)| a1.contains(y) <==> b1.contains(y) by {
            if a1.contains(y) {
                let k = choose|k: int| 0 <= k < a1.len() && a1[k] == y;
                assert(a[k + 1] == y);
                assert(key_lt(a[0].0, a[k + 1].0));
                assert(a.contains(y));
                let m = choose|m: int| 0 <= m < b.len() && b[m] == y;
                if m == 0 {
                    assert(y == a[0]);
                }
                assert(b1[m - 1] == y);
            }
            if b1.contains(y) {
                let k = choose|k: int| 0 <= k < b1.len() && b1[k] == y;
                assert(b[k + 1] == y);
                assert(key_lt(b[0].0, b[k + 1].0));
                assert(b.contains(y));
                let m = choose|m: int| 0 <= m < a.len() && a[m] == y;
                if m == 0 {
                    assert(y == b[0]);
                }
                assert(a1[m - 1] == y);
            }
        }
        assert(strictly_sorted(a1)) by {
            assert forall|x: int, y: int| 0 <= x < y < a1.len() implies key_lt((#[trigger] a1[x]).0, (#[trigger] a1[y]).0) by {
                assert(a1[x] == a[x + 1] && a1[y] == a[y + 1]);
            }
        }
        assert(strictly_sorted(b1)) by {
            assert forall|x: int, y: int| 0 <= x < y < b1.len() implies key_lt((#[trigger] b1[x]).0, (#[trigger] b1[y]).0) by {
                assert(b1[x] == b[x + 1] && b1[y] == b[y + 1]);
            }
        }
        lemma_strictly_sorted_unique(a1, b1);
        assert(a =~= b) by {
            assert forall|k: int| 0 <= k < a.len() implies a[k] == b[k] by {
                if k > 0 {
                    assert(a[k] == a1[k - 1] && b[k] == b1[k - 1]);
                }
            }
        }
    }
}

/// Sorting by key is independent of the order of the input when no key
/// occurs twice: the same elements sort to the same sequence.
pub proof fn lemma_sort_by_key_order_independent<T>(a: Seq<(Seq<char>, T)>, b: Seq<(Seq<char>, T)>)
    requires
        keys_distinct(a),
        keys_distinct(b),
        same_elements(a, b),
    ensures
        sort_by_key(a) == sort_by_key(b),
{
    lemma_sort_contains(a);
    lemma_sort_contains(b);
    lemma_sort_strictly_sorted(a);
    lemma_sort_strictly_sorted(b);
    lemma_strictly_sorted_unique(sort_by_key(a), sort_by_key(b));
}

/// The canonical text of an object, and so its normalized hash, does not
/// depend on the order of its members: two objects with the same members,
/// each member name occurring once, have the same canonical text and hash.
pub proof fn lemma_canonical_json_ignores_member_order(m: Seq<(Seq<char>, Json)>, p: Seq<(Seq<char>, Json)>)
    requires
        keys_distinct(m),
        keys_distinct(p),
        same_elements(m, p),
    ensures
        canonical_json(Json::Object(m)) == canonical_json(Json::Object(p)),
        hex_lower(sha256_digest(vstd::utf8::encode_utf8(canonical_json(Json::Object(m))))) == hex_lower(
            sha256_digest(vstd::utf8::encode_utf8(canonical_json(Json::Object(p)))),
        ),
{
    let em = member_entries(m);
    let ep = member_entries(p);
    assert(keys_distinct(em)) by {
        assert forall|i: int, j: int| 0 <= i < j < em.len() implies (#[trigger] em[i]).0 != (#[trigger] em[j]).0 by {
            assert(em[i].0 == m[i].0 && em[j].0 == m[j].0);
        }
    }
    assert(keys_distinct(ep)) by {
        assert forall|i: int, j: int| 0 <= i < j < ep.len() implies (#[trigger] ep[i]).0 != (#[trigger] ep[j]).0 by {
            assert(ep[i].0 == p[i].0 && ep[j].0 == p[j].0);
        }
    }
    assert forall|y: (Seq<char>, Seq<char>)| em.contains(y) <==> ep.contains(y) by {
        if em.contains(y) {
            let k = choose|k: int| 0 <= k < em.len() && em[k] == y;
            assert(m.contains(m[k]));
            let q = choose|q: int| 0 <= q < p.len() && p[q] == m[k];
            assert(ep[q] == y);
        }
        if ep.contains(y) {
            let k = choose|k: int| 0 <= k < ep.len() && ep[k] == y;
            assert(p.contains(p[k]));
            let q = choose|q: int| 0 <= q < m.len() && m[q] == p[k];
            assert(em[q] == y);
        }
    }
    lemma_sort_by_key_order_independent(em, ep);
}

/// Keys never decrease.
pub open spec fn key_sorted<T>(s: Seq<(Seq<char>, T)>) -> bool {
    forall|i: int, j: int| 0 <= i < j < s.len() ==> !key_lt((#[trigger] s[j]).0, (#[trigger] s[i]).0)
}

proof fn lemma_sort_key_sorted<T>(s: Seq<(Seq<char>, T)>)
    ensures
        key_sorted(sort_by_key(s)),
    decreases s.len(),
{
    if s.len() > 0 {
        let d = s.drop_last();
        let x = s.last();
        lemma_sort_key_sorted(d);
        let r = sort_by_key(d);
        lemma_sorted_insert_at(r, x);
        lemma_key_lt_facts();
        let p = insert_pos(r, x);
        assert forall|k: int| 0 <= k < p implies !key_lt(x.0, (#[trigger] r[k]).0) by {
            assert(!key_lt(x.0, r[p - 1].0));
            if k < p - 1 {
                assert(!key_lt(r[p - 1].0, r[k].0));
                if key_lt(x.0, r[k].0) {
                    if r[k].0 == r[p - 1].0 {
                    } else {
                        assert(key_lt(r[k].0, r[p - 1].0));
                    }
                }
            }
        }
        let n = sorted_insert(r, x);
        assert forall|i: int, j: int| 0 <= i < j < n.len() implies !key_lt((#[trigger] n[j]).0, (#[trigger] n[i]).0) by {
            if j < p {
                assert(n[i] == r[i] && n[j] == r[j]);
            } else if j == p {
                assert(n[i] == r[i]);
            } else if i < p {
                assert(n[i] == r[i] && n[j] == r[j - 1]);
                assert(key_lt(x.0, r[j - 1].0));
                assert(!key_lt(x.0, r[i].0));
                if key_lt(r[j - 1].0, r[i].0) {
                    assert(key_lt(x.0, r[i].0));
                }
            } else if i == p {
                assert(n[j] == r[j - 1]);
                assert(key_lt(x.0, r[j - 1].0));
            } else {
                assert(n[i] == r[i - 1] && n[j] == r[j - 1]);
            }
        }
    }
}

proof fn lemma_sort_sorted_identity<T>(t: Seq<(Seq<char>, T)>)
    requires
        key_sorted(t),
    ensures
        sort_by_key(t) == t,
    decreases t.len(),
{
    if t.len() > 0 {
        let d = t.drop_last();
        assert(key_sorted(d)) by {
            assert forall|i: int, j: int| 0 <= i < j < d.len() implies !key_lt((#[trigger] d[j]).0, (#[trigger] d[i]).0) by {
                assert(d[i] == t[i] && d[j] == t[j]);
            }
        }
        lemma_sort_sorted_identity(d);
        if d.len() > 0 {
            assert(!key_lt(t[t.len() - 1].0, t[t.len() - 2].0));
            assert(d.last() == t[t.len() - 2]);
        }
        assert(d.push(t.last()) =~= t);
    }
}

proof fn lemma_insert_pos_entries(t: Seq<(Seq<char>, Json)>, x: (Seq<char>, Json))
    ensures
        insert_pos(member_entries(t), member_entries(seq![x])[0]) == insert_pos(t, x),
        member_entries(t).len() == t.len(),
    decreases t.len(),
{
    let e = member_entries(t);
    let ex = member_entries(seq![x])[0];
    assert(ex.0 == x.0);
    if t.len() > 0 {
        assert(member_entries(t.drop_last()) =~= e.drop_last());
        assert(e.last().0 == t.last().0);
        lemma_insert_pos_entries(t.drop_last(), x);
    }
}

proof fn lemma_entries_of_sort(s: Seq<(Seq<char>, Json)>)
    ensures
        member_entries(sort_by_key(s)) == sort_by_key(member_entries(s)),
    decreases s.len(),
{
    if s.len() == 0 {
        assert(member_entries(sort_by_key(s)) =~= sort_by_key(member_entries(s)));
    } else {
        let d = s.drop_last();
        let x = s.last();
        let ex = member_entries(seq![x])[0];
        lemma_entries_of_sort(d);
        assert(member_entries(d) =~= member_entries(s).drop_last());
        assert(member_entries(s).last() == ex);
        let r = sort_by_key(d);
        lemma_sorted_insert_at(r, x);
        lemma_sorted_insert_at(member_entries(r), ex);
        lemma_insert_pos_entries(r, x);
        let p = insert_pos(r, x);
        assert(member_entries(sorted_insert(r, x)) =~= sorted_insert(member_entries(r), ex)) by {
            let a = member_entries(sorted_insert(r, x));
            let b = sorted_insert(member_entries(r), ex);
            let er = member_entries(r);
            assert forall|k: int| 0 <= k < a.len() implies a[k] == b[k] by {
                if k < p {
                    assert(sorted_insert(r, x)[k] == r[k]);
                    assert(b[k] == er[k]);
                } else if k == p {
                    assert(sorted_insert(r, x)[k] == x);
                } else {
                    assert(sorted_insert(r, x)[k] == r[k - 1]);
                    assert(b[k] == er[k - 1]);
                }
            }
        }
    }
}

proof fn lemma_canonical_of_normalized_members(m: Seq<(Seq<char>, Json)>)
    ensures
        member_entries(normalized_members(m)) == member_entries(m),
    decreases m, 0nat,
{
    let a = member_entries(normalized_members(m));
    let b = member_entries(m);
    assert forall|i: int| 0 <= i < m.len() implies a[i] == b[i] by {
        assert(decreases_to!(m => m[i]));
        assert(decreases_to!(m[i] => m[i].1));
        lemma_canonical_of_normalized(m[i].1);
        assert(normalized_members(m)[i] == (m[i].0, normalized_json(m[i].1)));
    }
    assert(a =~= b);
}

proof fn lemma_canonical_of_normalized_items(items: Seq<Json>)
    ensures
        item_texts(normalized_items(items)) == item_texts(items),
    decreases items, 0nat,
{
    let a = item_texts(normalized_items(items));
    let b = item_texts(items);
    assert forall|i: int| 0 <= i < items.len() implies a[i] == b[i] by {
        assert(decreases_to!(items => items[i]));
        lemma_canonical_of_normalized(items[i]);
        assert(normalized_items(items)[i] == normalized_json(items[i]));
    }
    assert(a =~= b);
}

/// Normalizing a document does not change its canonical text, so a stored
/// credential's semantic payload hash is the normalized hash of the payload
/// it was registered with.
pub proof fn lemma_canonical_of_normalized(v: Json)
    ensures
        canonical_json(normalized_json(v)) == canonical_json(v),
    decreases v, 1nat,
{
    match v {
        Json::Object(m) => {
            lemma_canonical_of_normalized_members(m);
            let n = normalized_members(m);
            lemma_entries_of_sort(n);
            lemma_sort_key_sorted(member_entries(n));
            lemma_sort_sorted_identity(sort_by_key(member_entries(n)));
        },
        Json::Array(items) => {
            lemma_canonical_of_normalized_items(items);
        },
        _ => {},
    }
}

/// A document whose objects, at every level, have their members in key
/// order.
pub open spec fn key_ordered(v: Json) -> bool
    decreases v,
{
    match v {
        Json::Object(m) => key_sorted(m) && forall|i: int| 0 <= i < m.len() ==> key_ordered(#[trigger] m[i].1),
        Json::Array(items) => forall|i: int| 0 <= i < items.len() ==> key_ordered(#[trigger] items[i]),
        _ => true,
    }
}

/// A normalized document is key ordered at every level.
pub proof fn lemma_normalized_is_key_ordered(v: Json)
    ensures
        key_ordered(normalized_json(v)),
    decreases v,
{
    match v {
        Json::Object(m) => {
            let n = normalized_members(m);
            let t = sort_by_key(n);
            lemma_sort_key_sorted(n);
            lemma_sort_contains(n);
            assert forall|i: int| 0 <= i < t.len() implies key_ordered(#[trigger] t[i].1) by {
                assert(t.contains(t[i]));
                assert(n.contains(t[i]));
                let k = choose|k: int| 0 <= k < n.len() && n[k] == t[i];
                assert(decreases_to!(m => m[k]));
                assert(decreases_to!(m[k] => m[k].1));
                lemma_normalized_is_key_ordered(m[k].1);
                assert(n[k] == (m[k].0, normalized_json(m[k].1)));
            }
        },
        Json::Array(items) => {
            let n = normalized_items(items);
            assert forall|i: int| 0 <= i < n.len() implies key_ordered(#[trigger] n[i]) by {
                assert(decreases_to!(items => items[i]));
                lemma_normalized_is_key_ordered(items[i]);
            }
        },
        _ => {},
    }
}

/// Normalizing leaves a document that is already key ordered unchanged.
pub proof fn lemma_normalize_keeps_key_ordered(v: Json)
    requires
        key_ordered(v),
    ensures
        normalized_json(v) == v,
    decreases v,
{
    match v {
        Json::Object(m) => {
            let n = normalized_members(m);
            assert forall|i: int| 0 <= i < m.len() implies #[trigger] n[i] == m[i] by {
                assert(decreases_to!(m => m[i]));
                assert(decreases_to!(m[i] => m[i].1));
                assert(key_ordered(m[i].1));
                lemma_normalize_keeps_key_ordered(m[i].1);
            }
            assert(n =~= m);
            lemma_sort_sorted_identity(m);
        },
        Json::Array(items) => {
            let n = normalized_items(items);
            assert forall|i: int| 0 <= i < items.len() implies #[trigger] n[i] == items[i] by {
                assert(decreases_to!(items => items[i]));
                assert(key_ordered(items[i]));
                lemma_normalize_keeps_key_ordered(items[i]);
            }
            assert(n =~= items);
        },
        _ => {},
    }
}

/// Normalizing is idempotent: a normalized document normalizes to itself.
pub proof fn lemma_normalize_idempotent(v: Json)
    ensures
        normalized_json(normalized_json(v)) == normalized_json(v),
{
    lemma_normalized_is_key_ordered(v);
    lemma_normalize_keeps_key_ordered(normalized_json(v));
}

} // verus!
