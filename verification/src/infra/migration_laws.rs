use vstd::prelude::*;
use crate::domain::normalization::IdGenerator;
use crate::infra::migration::{first_body, RowModel, MigrationClassification, insert_row, sort_rows, planned_rows, base_row, base_rows, adjusted, adjusted_rows, count_class, summary_of};
use crate::infra::source_migration::{expected_ids, row_reproducible, source_check, sources_check, references_resolve, has_source_id, verification_outcome};
use crate::domain::source_identity::{seed_text, source_id_for};
use crate::domain::source_external_id::parsed_canonical_uri;
use crate::domain::external_id_laws::{lemma_parse_print, lemma_canonicalized_round_trip};
use crate::domain::json::{Json, json_get, sorted_insert, insert_pos, lemma_sorted_insert_at};
use crate::application::registration_laws::{lemma_without_key_absent, lemma_json_get_only};
use crate::infra::migration_rewrite::{
    RewriteAcc, insert_key, target_keys, apply_row, add_items, add_jobs, moved_item, has_urn, apply_group_rows, rewrite_group, rewrite_groups, remap_insert,
    remap_index, first_row_of, lemma_first_row_of, survivor_in, rewritten_metadata, without_key, system_json,
};
use crate::infra::records::{sources_view, items_model, system_str, system_has, SourceModel, ItemModel, PersistedSourceRecord, PersistedMemoryItemRecord, PersistedIndexJobRecord};

verus! {

/// Report lines in ascending order of legacy source identifier.
pub open spec fn rows_sorted(s: Seq<RowModel>) -> bool {
    forall|i: int, j: int| 0 <= i < j < s.len() ==> (#[trigger] s[i]).legacy_source_id <= (#[trigger] s[j]).legacy_source_id
}

proof fn lemma_insert_row_sorted(s: Seq<RowModel>, x: RowModel)
    requires
        rows_sorted(s),
    ensures
        rows_sorted(insert_row(s, x)),
        insert_row(s, x).len() == s.len() + 1,
        forall|k: int|
            0 <= k < insert_row(s, x).len() ==> (#[trigger] insert_row(s, x)[k]).legacy_source_id <= x.legacy_source_id
                || (s.len() > 0 && insert_row(s, x)[k].legacy_source_id <= s.last().legacy_source_id),
    decreases s.len(),
{
    if s.len() == 0 {
    } else if s.last().legacy_source_id <= x.legacy_source_id {
        let r = s.push(x);
        assert forall|i: int, j: int| 0 <= i < j < r.len() implies (#[trigger] r[i]).legacy_source_id
            <= (#[trigger] r[j]).legacy_source_id by {
            if j == s.len() {
                assert(r[i] == s[i]);
                if i < s.len() - 1 {
                    assert(s[i].legacy_source_id <= s[s.len() - 1].legacy_source_id);
                }
            } else {
                assert(r[i] == s[i] && r[j] == s[j]);
            }
        }
        assert forall|k: int| 0 <= k < r.len() implies (#[trigger] r[k]).legacy_source_id <= x.legacy_source_id
            || (s.len() > 0 && r[k].legacy_source_id <= s.last().legacy_source_id) by {
            if k < s.len() {
                assert(r[k] == s[k]);
                if k < s.len() - 1 {
                    assert(s[k].legacy_source_id <= s[s.len() - 1].legacy_source_id);
                }
            }
        }
    } else {
        let d = s.drop_last();
        assert(rows_sorted(d)) by {
            assert forall|i: int, j: int| 0 <= i < j < d.len() implies (#[trigger] d[i]).legacy_source_id
                <= (#[trigger] d[j]).legacy_source_id by {
                assert(d[i] == s[i] && d[j] == s[j]);
            }
        }
        lemma_insert_row_sorted(d, x);
        let q = insert_row(d, x);
        let r = q.push(s.last());
        assert(insert_row(s, x) == r);
        assert forall|k: int| 0 <= k < q.len() implies (#[trigger] q[k]).legacy_source_id <= s.last().legacy_source_id by {
            if d.len() > 0 {
                assert(d.last() == s[s.len() - 2]);
                assert(s[s.len() - 2].legacy_source_id <= s[s.len() - 1].legacy_source_id);
            }
        }
        assert forall|i: int, j: int| 0 <= i < j < r.len() implies (#[trigger] r[i]).legacy_source_id
            <= (#[trigger] r[j]).legacy_source_id by {
            if j == q.len() {
                assert(r[i] == q[i]);
            } else {
                assert(r[i] == q[i] && r[j] == q[j]);
            }
        }
        assert forall|k: int| 0 <= k < r.len() implies (#[trigger] r[k]).legacy_source_id <= x.legacy_source_id
            || (s.len() > 0 && r[k].legacy_source_id <= s.last().legacy_source_id) by {
            if k < q.len() {
                assert(r[k] == q[k]);
            }
        }
    }
}

/// The dry-run report lines come out in ascending order of legacy source
/// identifier.
pub proof fn lemma_sort_rows_sorted(s: Seq<RowModel>)
    ensures
        rows_sorted(sort_rows(s)),
        sort_rows(s).len() == s.len(),
    decreases s.len(),
{
    if s.len() > 0 {
        lemma_sort_rows_sorted(s.drop_last());
        lemma_insert_row_sorted(sort_rows(s.drop_last()), s.last());
    }
}

/// Keys strictly ascending, so each occurs once.
pub open spec fn keys_ascending(s: Seq<u128>) -> bool {
    forall|i: int, j: int| 0 <= i < j < s.len() ==> (#[trigger] s[i]) < (#[trigger] s[j])
}

proof fn lemma_insert_key_ascending(s: Seq<u128>, x: u128)
    requires
        keys_ascending(s),
    ensures
        keys_ascending(insert_key(s, x)),
        forall|k: int| 0 <= k < insert_key(s, x).len() ==> (#[trigger] insert_key(s, x)[k]) == x || s.contains(
            insert_key(s, x)[k],
        ),
        insert_key(s, x).contains(x),
        forall|y: u128| s.contains(y) ==> insert_key(s, x).contains(y),
    decreases s.len(),
{
    if s.len() == 0 {
        assert(insert_key(s, x)[0] == x);
    } else if s.last() < x {
        let r = s.push(x);
        assert forall|i: int, j: int| 0 <= i < j < r.len() implies (#[trigger] r[i]) < (#[trigger] r[j]) by {
            if j == s.len() {
                assert(r[i] == s[i]);
                if i < s.len() - 1 {
                    assert(s[i] < s[s.len() - 1]);
                }
            } else {
                assert(r[i] == s[i] && r[j] == s[j]);
            }
        }
        assert forall|k: int| 0 <= k < r.len() implies (#[trigger] r[k]) == x || s.contains(r[k]) by {
            if k < s.len() {
                assert(r[k] == s[k]);
            }
        }
        assert(r[s.len() as int] == x);
        assert forall|y: u128| s.contains(y) implies r.contains(y) by {
            let i = choose|i: int| 0 <= i < s.len() && s[i] == y;
            assert(r[i] == y);
        }
    } else if s.last() == x {
        assert(s[s.len() - 1] == x);
    } else {
        let d = s.drop_last();
        assert(keys_ascending(d)) by {
            assert forall|i: int, j: int| 0 <= i < j < d.len() implies (#[trigger] d[i]) < (#[trigger] d[j]) by {
                assert(d[i] == s[i] && d[j] == s[j]);
            }
        }
        lemma_insert_key_ascending(d, x);
        let q = insert_key(d, x);
        let r = q.push(s.last());
        assert(insert_key(s, x) == r);
        assert forall|k: int| 0 <= k < q.len() implies (#[trigger] q[k]) < s.last() by {
            if q[k] != x {
                assert(d.contains(q[k]));
                let i = choose|i: int| 0 <= i < d.len() && d[i] == q[k];
                assert(s[i] < s[s.len() - 1]);
            }
        }
        assert forall|i: int, j: int| 0 <= i < j < r.len() implies (#[trigger] r[i]) < (#[trigger] r[j]) by {
            if j == q.len() {
                assert(r[i] == q[i]);
            } else {
                assert(r[i] == q[i] && r[j] == q[j]);
            }
        }
        assert forall|k: int| 0 <= k < r.len() implies (#[trigger] r[k]) == x || s.contains(r[k]) by {
            if k < q.len() {
                assert(r[k] == q[k]);
                if q[k] != x {
                    let i = choose|i: int| 0 <= i < d.len() && d[i] == q[k];
                    assert(s[i] == q[k]);
                }
            } else {
                assert(s[s.len() - 1] == r[k]);
            }
        }
        let p = choose|k: int| 0 <= k < q.len() && q[k] == x;
        assert(r[p] == x);
        assert forall|y: u128| s.contains(y) implies r.contains(y) by {
            let i = choose|i: int| 0 <= i < s.len() && s[i] == y;
            if i == s.len() - 1 {
                assert(r[q.len() as int] == y);
            } else {
                assert(d[i] == y);
                assert(d.contains(y));
                assert(q.contains(y));
                let k = choose|k: int| 0 <= k < q.len() && q[k] == y;
                assert(r[k] == y);
            }
        }
    }
}

/// The target identifiers of the report lines: each candidate source
/// identifier of a line exactly once, ascending.
pub proof fn lemma_target_keys(rows: Seq<RowModel>)
    ensures
        keys_ascending(target_keys(rows)),
        forall|id: u128|
            target_keys(rows).contains(id) <==> exists|j: int| 0 <= j < rows.len() && (#[trigger] rows[j]).candidate_source_id
                == id,
    decreases rows.len(),
{
    if rows.len() > 0 {
        let d = rows.drop_last();
        lemma_target_keys(d);
        let x = rows.last().candidate_source_id;
        lemma_insert_key_ascending(target_keys(d), x);
        let t = target_keys(rows);
        assert forall|id: u128| t.contains(id) <==> exists|j: int| 0 <= j < rows.len() && (#[trigger] rows[j]).candidate_source_id
            == id by {
            if t.contains(id) {
                let k = choose|k: int| 0 <= k < t.len() && t[k] == id;
                if id == x {
                    assert(rows[rows.len() - 1].candidate_source_id == id);
                } else {
                    assert(target_keys(d).contains(id));
                    let j = choose|j: int| 0 <= j < d.len() && (#[trigger] d[j]).candidate_source_id == id;
                    assert(rows[j] == d[j]);
                }
            }
            if exists|j: int| 0 <= j < rows.len() && (#[trigger] rows[j]).candidate_source_id == id {
                let j = choose|j: int| 0 <= j < rows.len() && (#[trigger] rows[j]).candidate_source_id == id;
                if j == rows.len() - 1 {
                    assert(id == x);
                } else {
                    assert(d[j] == rows[j]);
                    assert(target_keys(d).contains(id));
                }
            }
        }
    }
}

/// Every remap entry moves a source to a different identifier.
pub open spec fn remaps_change(r: Seq<(u128, u128)>) -> bool {
    forall|k: int| 0 <= k < r.len() ==> (#[trigger] r[k]).0 != r[k].1
}

proof fn lemma_remap_index(r: Seq<(u128, u128)>, l: u128, from: int)
    requires
        0 <= from <= r.len(),
    ensures
        from <= remap_index(r, l, from) <= r.len(),
        remap_index(r, l, from) < r.len() ==> r[remap_index(r, l, from)].0 == l,
    decreases r.len() - from,
{
    if from < r.len() && r[from].0 != l {
        lemma_remap_index(r, l, from + 1);
    }
}

proof fn lemma_remap_insert_changes(r: Seq<(u128, u128)>, l: u128, t: u128)
    requires
        remaps_change(r),
        l != t,
    ensures
        remaps_change(remap_insert(r, l, t)),
{
    let i = remap_index(r, l, 0);
    lemma_remap_index(r, l, 0);
    let n = remap_insert(r, l, t);
    if i < r.len() {
        assert(n == r.update(i, (l, t)));
        assert forall|k: int| 0 <= k < n.len() implies (#[trigger] n[k]).0 != n[k].1 by {
            if k != i {
                assert(n[k] == r[k]);
            }
        }
    } else {
        assert(n == r.push((l, t)));
        assert forall|k: int| 0 <= k < n.len() implies (#[trigger] n[k]).0 != n[k].1 by {
            if k < r.len() {
                assert(n[k] == r[k]);
            }
        }
    }
}

proof fn lemma_apply_group_rows<G: IdGenerator>(
    acc: RewriteAcc,
    rows: Seq<RowModel>,
    t: u128,
    items: Seq<PersistedMemoryItemRecord>,
    jobs: Seq<PersistedIndexJobRecord>,
    g: G,
)
    requires
        remaps_change(acc.remaps),
    ensures
        apply_group_rows(acc, rows, t, items, jobs, g).sources == acc.sources,
        remaps_change(apply_group_rows(acc, rows, t, items, jobs, g).remaps),
    decreases rows.len(),
{
    if rows.len() > 0 {
        lemma_apply_group_rows(acc, rows.drop_last(), t, items, jobs, g);
        let a = apply_group_rows(acc, rows.drop_last(), t, items, jobs, g);
        if rows.last().candidate_source_id == t && rows.last().legacy_source_id != t {
            lemma_remap_insert_changes(a.remaps, rows.last().legacy_source_id, t);
        }
    }
}

/// A migration rewrite stores one canonical source per target identifier,
/// in the order of the targets, each under its target identifier with the
/// canonical external identifier of the group's first line; every remap it
/// records moves a legacy identifier to a different one.
pub proof fn lemma_rewrite_one_source_per_target<G: IdGenerator>(
    keys: Seq<u128>,
    sources: Seq<PersistedSourceRecord>,
    rows: Seq<RowModel>,
    items: Seq<PersistedMemoryItemRecord>,
    jobs: Seq<PersistedIndexJobRecord>,
    g: G,
)
    ensures
        rewrite_groups(keys, sources, rows, items, jobs, g) matches Some(a) ==> {
            &&& a.sources.len() == keys.len()
            &&& forall|i: int| 0 <= i < keys.len() ==> (#[trigger] a.sources[i]).source_id == keys[i]
                && a.sources[i].external_id == rows[first_row_of(rows, keys[i], 0)].candidate
                && a.sources[i].source_metadata == rewritten_metadata(
                    sources[survivor_in(sources, rows, keys[i])].source_metadata@,
                    rows[first_row_of(rows, keys[i], 0)],
                )
            &&& remaps_change(a.remaps)
        },
    decreases keys.len(),
{
    if keys.len() > 0 {
        let d = keys.drop_last();
        lemma_rewrite_one_source_per_target(d, sources, rows, items, jobs, g);
        match rewrite_groups(d, sources, rows, items, jobs, g) {
            None => {},
            Some(a) => {
                let t = keys.last();
                match rewrite_group(a, t, sources, rows, items, jobs, g) {
                    None => {},
                    Some(b) => {
                        let f = first_row_of(rows, t, 0);
                        let survivor = crate::infra::migration_rewrite::survivor_in(sources, rows, t);
                        let a1 = RewriteAcc {
                            sources: a.sources.push(crate::infra::migration_rewrite::merged_source(sources[survivor], rows[f], t)),
                            ..a
                        };
                        lemma_apply_group_rows(a1, rows, t, items, jobs, g);
                        assert(b.sources == a1.sources);
                        assert forall|i: int| 0 <= i < keys.len() implies (#[trigger] b.sources[i]).source_id == keys[i]
                            && b.sources[i].external_id == rows[first_row_of(rows, keys[i], 0)].candidate
                            && b.sources[i].source_metadata == rewritten_metadata(
                                sources[survivor_in(sources, rows, keys[i])].source_metadata@,
                                rows[first_row_of(rows, keys[i], 0)],
                            ) by {
                            if i < d.len() {
                                assert(b.sources[i] == a.sources[i]);
                                assert(keys[i] == d[i]);
                            }
                        }
                    },
                }
            },
        }
    }
}

/// The store holds a source under identifier `id`.
pub open spec fn holds_source(s: Seq<SourceModel>, id: u128) -> bool {
    exists|i: int| 0 <= i < s.len() && (#[trigger] s[i]).source_id == id
}

/// Some report line targets identifier `id`.
pub open spec fn has_target(m: Seq<RowModel>, id: u128) -> bool {
    exists|j: int| 0 <= j < m.len() && (#[trigger] m[j]).candidate_source_id == id
}

/// The shape of a migration run (the rows `execute` reports and the store
/// it leaves, see `InMemorySourceMigration::execute`): the report lines are
/// in ascending order of legacy source identifier; the store holds exactly
/// one source per distinct target identifier of the lines, in ascending
/// order of identifier; every remap moves a legacy identifier to another.
pub proof fn lemma_migration_run_shape<G: IdGenerator>(
    sources: Seq<PersistedSourceRecord>,
    items: Seq<PersistedMemoryItemRecord>,
    jobs: Seq<PersistedIndexJobRecord>,
    parsed: Seq<Option<Json>>,
    g: G,
    m: Seq<RowModel>,
    a: RewriteAcc,
)
    requires
        planned_rows(sources, items, jobs, parsed) == Ok::<Seq<RowModel>, bool>(m),
        rewrite_groups(target_keys(m), sources, m, items, jobs, g) == Some(a),
    ensures
        rows_sorted(m),
        a.sources.len() == target_keys(m).len(),
        forall|i: int, j: int| 0 <= i < j < a.sources.len() ==> (#[trigger] a.sources[i]).source_id < (#[trigger] a.sources[j]).source_id,
        forall|id: u128| #[trigger] holds_source(a.sources, id) <==> has_target(m, id),
        remaps_change(a.remaps),
{
    let base = match crate::infra::migration::base_rows(sources, items, jobs, parsed) {
        Ok(b) => b,
        Err(_) => seq![],
    };
    lemma_sort_rows_sorted(crate::infra::migration::adjusted_rows(base));
    let keys = target_keys(m);
    lemma_target_keys(m);
    lemma_rewrite_one_source_per_target(keys, sources, m, items, jobs, g);
    assert forall|i: int, j: int| 0 <= i < j < a.sources.len() implies (#[trigger] a.sources[i]).source_id
        < (#[trigger] a.sources[j]).source_id by {
        assert(a.sources[i].source_id == keys[i] && a.sources[j].source_id == keys[j]);
    }
    assert forall|id: u128| #[trigger] holds_source(a.sources, id) <==> has_target(m, id) by {
        if holds_source(a.sources, id) {
            let i = choose|i: int| 0 <= i < a.sources.len() && (#[trigger] a.sources[i]).source_id == id;
            assert(keys[i] == id);
            assert(keys.contains(id));
        }
        if has_target(m, id) {
            assert(keys.contains(id));
            let i = choose|i: int| 0 <= i < keys.len() && keys[i] == id;
            assert(a.sources[i].source_id == id);
        }
    }
}

/// A report line as `base_row` forms it: under the current identity
/// version, with the seed and target its canonical identifier derives, and
/// refused when it has none.
pub open spec fn row_formed(r: RowModel) -> bool {
    &&& r.canonical_id_version == "v1"@
    &&& r.candidate.len() > 0 ==> r.seed == seed_text("v1"@, r.candidate) && r.candidate_source_id == source_id_for(
        "v1"@,
        r.candidate,
    )
    &&& r.candidate.len() == 0 ==> r.classification == MigrationClassification::Unmigratable
    &&& r.candidate.len() > 0 ==> parsed_canonical_uri(vstd::utf8::encode_utf8(r.candidate)) is Some
}

proof fn lemma_base_row_parses(
    s: PersistedSourceRecord,
    items: Seq<PersistedMemoryItemRecord>,
    jobs: Seq<PersistedIndexJobRecord>,
    parsed: Seq<Option<Json>>,
)
    ensures
        base_row(s, items, jobs, parsed) matches Ok(r) ==> row_formed(r),
{
    let u = vstd::utf8::encode_utf8(s.external_id@);
    vstd::utf8::encode_utf8_valid_utf8(s.external_id@);
    if parsed_canonical_uri(u) is Some {
        lemma_parse_print(u);
    } else {
        let body = first_body(items, parsed, s.source_id);
        if let Some((_, Some(j))) = body {
            lemma_canonicalized_round_trip(j);
        }
    }
}

proof fn lemma_base_rows_formed(
    sources: Seq<PersistedSourceRecord>,
    items: Seq<PersistedMemoryItemRecord>,
    jobs: Seq<PersistedIndexJobRecord>,
    parsed: Seq<Option<Json>>,
)
    ensures
        base_rows(sources, items, jobs, parsed) matches Ok(b) ==> forall|i: int| 0 <= i < b.len() ==> row_formed(#[trigger] b[i]),
    decreases sources.len(),
{
    if sources.len() > 0 {
        lemma_base_rows_formed(sources.drop_last(), items, jobs, parsed);
        lemma_base_row_parses(sources.last(), items, jobs, parsed);
        if let Ok(b) = base_rows(sources, items, jobs, parsed) {
            let rs = base_rows(sources.drop_last(), items, jobs, parsed)->Ok_0;
            let r = base_row(sources.last(), items, jobs, parsed)->Ok_0;
            assert(b == rs.push(r));
            assert forall|i: int| 0 <= i < b.len() implies row_formed(#[trigger] b[i]) by {
                if i < rs.len() {
                    assert(b[i] == rs[i]);
                }
            }
        }
    }
}

proof fn lemma_insert_row_elements(s: Seq<RowModel>, x: RowModel)
    ensures
        forall|k: int| 0 <= k < insert_row(s, x).len() ==> (#[trigger] insert_row(s, x)[k]) == x || s.contains(insert_row(s, x)[k]),
    decreases s.len(),
{
    if s.len() > 0 && !(s.last().legacy_source_id <= x.legacy_source_id) {
        let d = s.drop_last();
        lemma_insert_row_elements(d, x);
        let q = insert_row(d, x);
        let r = q.push(s.last());
        assert forall|k: int| 0 <= k < r.len() implies (#[trigger] r[k]) == x || s.contains(r[k]) by {
            if k < q.len() {
                assert(r[k] == q[k]);
                if q[k] != x {
                    let i = choose|i: int| 0 <= i < d.len() && d[i] == q[k];
                    assert(s[i] == q[k]);
                }
            } else {
                assert(s[s.len() - 1] == r[k]);
            }
        }
    } else if s.len() > 0 {
        let r = s.push(x);
        assert forall|k: int| 0 <= k < r.len() implies (#[trigger] r[k]) == x || s.contains(r[k]) by {
            if k < s.len() {
                assert(r[k] == s[k]);
            }
        }
    }
}

proof fn lemma_sort_rows_elements(s: Seq<RowModel>)
    ensures
        forall|k: int| 0 <= k < sort_rows(s).len() ==> s.contains(#[trigger] sort_rows(s)[k]),
    decreases s.len(),
{
    if s.len() > 0 {
        let d = s.drop_last();
        lemma_sort_rows_elements(d);
        lemma_insert_row_elements(sort_rows(d), s.last());
        let r = sort_rows(s);
        assert forall|k: int| 0 <= k < r.len() implies s.contains(#[trigger] r[k]) by {
            if r[k] == s.last() {
                assert(s[s.len() - 1] == r[k]);
            } else {
                assert(sort_rows(d).contains(r[k]));
                let j = choose|j: int| 0 <= j < sort_rows(d).len() && sort_rows(d)[j] == r[k];
                assert(d.contains(sort_rows(d)[j]));
                let i = choose|i: int| 0 <= i < d.len() && d[i] == r[k];
                assert(s[i] == r[k]);
            }
        }
    }
}

proof fn lemma_no_class(s: Seq<RowModel>, c: MigrationClassification)
    requires
        count_class(s, c) == 0,
    ensures
        forall|j: int| 0 <= j < s.len() ==> (#[trigger] s[j]).classification != c,
    decreases s.len(),
{
    if s.len() > 0 {
        lemma_no_class(s.drop_last(), c);
        assert forall|j: int| 0 <= j < s.len() implies (#[trigger] s[j]).classification != c by {
            if j < s.len() - 1 {
                assert(s[j] == s.drop_last()[j]);
            }
        }
    }
}

/// Every line of a dry-run report is formed as `base_row` forms it.
pub proof fn lemma_planned_rows_formed(
    sources: Seq<PersistedSourceRecord>,
    items: Seq<PersistedMemoryItemRecord>,
    jobs: Seq<PersistedIndexJobRecord>,
    parsed: Seq<Option<Json>>,
    m: Seq<RowModel>,
)
    requires
        planned_rows(sources, items, jobs, parsed) == Ok::<Seq<RowModel>, bool>(m),
    ensures
        forall|j: int| 0 <= j < m.len() ==> row_formed(#[trigger] m[j]),
{
    let b = base_rows(sources, items, jobs, parsed)->Ok_0;
    lemma_base_rows_formed(sources, items, jobs, parsed);
    let adj = adjusted_rows(b);
    assert forall|i: int| 0 <= i < adj.len() implies row_formed(#[trigger] adj[i]) by {
        assert(row_formed(b[i]));
        assert(adj[i] == adjusted(b, i));
    }
    lemma_sort_rows_elements(adj);
    assert(m == sort_rows(adj));
    assert forall|j: int| 0 <= j < m.len() implies row_formed(#[trigger] m[j]) by {
        assert(adj.contains(m[j]));
        let i = choose|i: int| 0 <= i < adj.len() && adj[i] == m[j];
        assert(row_formed(adj[i]));
    }
}

/// When a migration run is allowed (its report has no refused line), every
/// line's seed and target are the ones its canonical identifier derives,
/// and the store the rewrite leaves holds exactly as many sources as the
/// lines have distinct targets, the count `verify` checks.
pub proof fn lemma_migration_run_counts<G: IdGenerator>(
    sources: Seq<PersistedSourceRecord>,
    items: Seq<PersistedMemoryItemRecord>,
    jobs: Seq<PersistedIndexJobRecord>,
    parsed: Seq<Option<Json>>,
    g: G,
    m: Seq<RowModel>,
    a: RewriteAcc,
)
    requires
        planned_rows(sources, items, jobs, parsed) == Ok::<Seq<RowModel>, bool>(m),
        !summary_of(m, true).stop_required,
        rewrite_groups(target_keys(m), sources, m, items, jobs, g) == Some(a),
    ensures
        forall|j: int| 0 <= j < m.len() ==> row_reproducible(#[trigger] m[j]),
        a.sources.len() == expected_ids(m).len(),
{
    lemma_planned_rows_formed(sources, items, jobs, parsed, m);
    lemma_no_class(m, MigrationClassification::Unmigratable);
    assert forall|j: int| 0 <= j < m.len() implies row_reproducible(#[trigger] m[j]) by {
        assert(row_formed(m[j]));
    }
    lemma_migration_run_shape(sources, items, jobs, parsed, g, m, a);
    let keys = target_keys(m);
    lemma_target_keys(m);
    assert(keys.no_duplicates()) by {
        assert forall|i: int, j: int| 0 <= i < keys.len() && 0 <= j < keys.len() && i != j implies keys[i] != keys[j] by {
            if i < j {
                assert(keys[i] < keys[j]);
            } else {
                assert(keys[j] < keys[i]);
            }
        }
    }
    keys.unique_seq_to_set();
    assert(expected_ids(m) =~= keys.to_set()) by {
        assert forall|id: u128| expected_ids(m).contains(id) <==> keys.to_set().contains(id) by {
            if keys.contains(id) {
                let j = choose|j: int| 0 <= j < m.len() && (#[trigger] m[j]).candidate_source_id == id;
                assert(m[j].classification != MigrationClassification::Unmigratable);
            }
            if expected_ids(m).contains(id) {
                let j = choose|j: int|
                    0 <= j < m.len() && (#[trigger] m[j]).classification != MigrationClassification::Unmigratable
                        && m[j].candidate_source_id == id;
                assert(exists|j: int| 0 <= j < m.len() && (#[trigger] m[j]).candidate_source_id == id);
            }
        }
    }
}

/// Every memory item and indexing job of a rewrite points at one of its
/// sources.
pub open spec fn acc_references_resolve(a: RewriteAcc) -> bool {
    &&& forall|k: int| 0 <= k < a.items.len() ==> holds_source(a.sources, (#[trigger] a.items[k]).source_id)
    &&& forall|k: int| 0 <= k < a.jobs.len() ==> holds_source(a.sources, (#[trigger] a.jobs[k]).source_id)
}

proof fn lemma_add_items_resolve<G: IdGenerator>(
    acc: Seq<ItemModel>,
    items: Seq<PersistedMemoryItemRecord>,
    legacy: u128,
    t: u128,
    g: G,
    s: Seq<SourceModel>,
)
    requires
        forall|k: int| 0 <= k < acc.len() ==> holds_source(s, (#[trigger] acc[k]).source_id),
        holds_source(s, t),
    ensures
        forall|k: int| 0 <= k < add_items(acc, items, legacy, t, g).len() ==> holds_source(
            s,
            (#[trigger] add_items(acc, items, legacy, t, g)[k]).source_id,
        ),
    decreases items.len(),
{
    if items.len() > 0 {
        lemma_add_items_resolve(acc, items.drop_last(), legacy, t, g, s);
        let a = add_items(acc, items.drop_last(), legacy, t, g);
        let r = add_items(acc, items, legacy, t, g);
        assert forall|k: int| 0 <= k < r.len() implies holds_source(s, (#[trigger] r[k]).source_id) by {
            if k < a.len() {
                assert(r[k] == a[k]);
            }
        }
    }
}

proof fn lemma_add_jobs_resolve(
    acc: Seq<PersistedIndexJobRecord>,
    jobs: Seq<PersistedIndexJobRecord>,
    legacy: u128,
    t: u128,
    s: Seq<SourceModel>,
)
    requires
        forall|k: int| 0 <= k < acc.len() ==> holds_source(s, (#[trigger] acc[k]).source_id),
        holds_source(s, t),
    ensures
        forall|k: int| 0 <= k < add_jobs(acc, jobs, legacy, t).len() ==> holds_source(
            s,
            (#[trigger] add_jobs(acc, jobs, legacy, t)[k]).source_id,
        ),
    decreases jobs.len(),
{
    if jobs.len() > 0 {
        lemma_add_jobs_resolve(acc, jobs.drop_last(), legacy, t, s);
        let a = add_jobs(acc, jobs.drop_last(), legacy, t);
        let r = add_jobs(acc, jobs, legacy, t);
        assert forall|k: int| 0 <= k < r.len() implies holds_source(s, (#[trigger] r[k]).source_id) by {
            if k < a.len() {
                assert(r[k] == a[k]);
            }
        }
    }
}

proof fn lemma_apply_group_rows_resolve<G: IdGenerator>(
    acc: RewriteAcc,
    rows: Seq<RowModel>,
    t: u128,
    items: Seq<PersistedMemoryItemRecord>,
    jobs: Seq<PersistedIndexJobRecord>,
    g: G,
)
    requires
        acc_references_resolve(acc),
        holds_source(acc.sources, t),
    ensures
        acc_references_resolve(apply_group_rows(acc, rows, t, items, jobs, g)),
    decreases rows.len(),
{
    if rows.len() > 0 {
        lemma_apply_group_rows_resolve(acc, rows.drop_last(), t, items, jobs, g);
        let a = apply_group_rows(acc, rows.drop_last(), t, items, jobs, g);
        lemma_apply_group_rows_sources(acc, rows.drop_last(), t, items, jobs, g);
        if rows.last().candidate_source_id == t {
            lemma_add_items_resolve(a.items, items, rows.last().legacy_source_id, t, g, a.sources);
            lemma_add_jobs_resolve(a.jobs, jobs, rows.last().legacy_source_id, t, a.sources);
        }
    }
}

proof fn lemma_apply_group_rows_sources<G: IdGenerator>(
    acc: RewriteAcc,
    rows: Seq<RowModel>,
    t: u128,
    items: Seq<PersistedMemoryItemRecord>,
    jobs: Seq<PersistedIndexJobRecord>,
    g: G,
)
    ensures
        apply_group_rows(acc, rows, t, items, jobs, g).sources == acc.sources,
    decreases rows.len(),
{
    if rows.len() > 0 {
        lemma_apply_group_rows_sources(acc, rows.drop_last(), t, items, jobs, g);
    }
}

proof fn lemma_rewrite_groups_resolve<G: IdGenerator>(
    keys: Seq<u128>,
    sources: Seq<PersistedSourceRecord>,
    rows: Seq<RowModel>,
    items: Seq<PersistedMemoryItemRecord>,
    jobs: Seq<PersistedIndexJobRecord>,
    g: G,
)
    ensures
        rewrite_groups(keys, sources, rows, items, jobs, g) matches Some(a) ==> acc_references_resolve(a),
    decreases keys.len(),
{
    if keys.len() > 0 {
        let d = keys.drop_last();
        lemma_rewrite_groups_resolve(d, sources, rows, items, jobs, g);
        match rewrite_groups(d, sources, rows, items, jobs, g) {
            None => {},
            Some(a) => {
                let t = keys.last();
                let b = crate::infra::migration_rewrite::survivor_in(sources, rows, t);
                if b >= 0 {
                    let f = first_row_of(rows, t, 0);
                    let ns = a.sources.push(crate::infra::migration_rewrite::merged_source(sources[b], rows[f], t));
                    let a1 = RewriteAcc { sources: ns, ..a };
                    assert(ns[a.sources.len() as int].source_id == t);
                    assert(holds_source(ns, t));
                    assert forall|k: int| 0 <= k < a1.items.len() implies holds_source(ns, (#[trigger] a1.items[k]).source_id) by {
                        let i = choose|i: int| 0 <= i < a.sources.len() && (#[trigger] a.sources[i]).source_id == a.items[k].source_id;
                        assert(ns[i] == a.sources[i]);
                    }
                    assert forall|k: int| 0 <= k < a1.jobs.len() implies holds_source(ns, (#[trigger] a1.jobs[k]).source_id) by {
                        let i = choose|i: int| 0 <= i < a.sources.len() && (#[trigger] a.sources[i]).source_id == a.jobs[k].source_id;
                        assert(ns[i] == a.sources[i]);
                    }
                    lemma_apply_group_rows_resolve(a1, rows, t, items, jobs, g);
                }
            },
        }
    }
}

/// Every memory item and indexing job a migration rewrite leaves points at
/// one of the sources it stores.
pub proof fn lemma_rewrite_references_resolve<G: IdGenerator>(
    sources: Seq<PersistedSourceRecord>,
    rows: Seq<RowModel>,
    items: Seq<PersistedMemoryItemRecord>,
    jobs: Seq<PersistedIndexJobRecord>,
    g: G,
)
    ensures
        rewrite_groups(target_keys(rows), sources, rows, items, jobs, g) matches Some(a) ==> acc_references_resolve(a),
{
    lemma_rewrite_groups_resolve(target_keys(rows), sources, rows, items, jobs, g);
}

/// The `system` block a migration writes is of the current identity
/// version and no longer carries the legacy hash alias.
pub proof fn lemma_rewritten_system(meta: Json, row: RowModel)
    ensures
        system_str(rewritten_metadata(meta, row), "canonical_id_version"@) == Some("v1"@),
        !system_has(rewritten_metadata(meta, row), "canonical_payload_hash"@),
{
    let base = match meta {
        Json::Object(m) => m,
        _ => seq![],
    };
    let w = without_key(base, "system"@);
    let x = ("system"@, system_json(row));
    let t = sorted_insert(w, x);
    lemma_without_key_absent(base, "system"@);
    lemma_sorted_insert_at(w, x);
    let p = insert_pos(w, x);
    assert(t[p] == x);
    assert forall|i: int| 0 <= i < t.len() && i != p implies (#[trigger] t[i]).0 != "system"@ by {
        if i < p {
            assert(t[i] == w[i]);
        } else {
            assert(t[i] == w[i - 1]);
        }
    }
    lemma_json_get_only(t, "system"@, p);
    reveal_strlit("canonical_id_version");
    reveal_strlit("ingest_kind");
    reveal_strlit("original_standard_id");
    reveal_strlit("raw_body_hash");
    reveal_strlit("semantic_payload_hash");
    reveal_strlit("canonical_payload_hash");
    reveal_strlit("v1");
    let sys = match system_json(row) {
        Json::Object(m) => m,
        _ => seq![],
    };
    assert(sys.len() == 5);
    assert forall|i: int| 0 <= i < sys.len() && i != 0 implies (#[trigger] sys[i]).0 != "canonical_id_version"@ by {
        assert(sys[i].0.len() != "canonical_id_version"@.len() || sys[i].0[0] != 'c');
    }
    lemma_json_get_only(sys, "canonical_id_version"@, 0);
    assert forall|i: int| 0 <= i < sys.len() implies (#[trigger] sys[i]).0 != "canonical_payload_hash"@ by {
        assert(sys[i].0.len() != "canonical_payload_hash"@.len());
    }
    lemma_json_get_none(sys, "canonical_payload_hash"@);
}

proof fn lemma_json_get_none(s: Seq<(Seq<char>, Json)>, k: Seq<char>)
    requires
        forall|i: int| 0 <= i < s.len() ==> (#[trigger] s[i]).0 != k,
    ensures
        json_get(s, k) is None,
    decreases s.len(),
{
    if s.len() > 0 {
        let d = s.drop_first();
        assert forall|i: int| 0 <= i < d.len() implies (#[trigger] d[i]).0 != k by {
            assert(d[i] == s[i + 1]);
        }
        lemma_json_get_none(d, k);
    }
}

proof fn lemma_sources_check_all(s: Seq<PersistedSourceRecord>)
    requires
        forall|i: int| 0 <= i < s.len() ==> source_check(#[trigger] s[i]) == Ok::<(), bool>(()),
    ensures
        sources_check(s) == Ok::<(), bool>(()),
    decreases s.len(),
{
    if s.len() > 0 {
        let d = s.drop_last();
        assert forall|i: int| 0 <= i < d.len() implies source_check(#[trigger] d[i]) == Ok::<(), bool>(()) by {
            assert(d[i] == s[i]);
        }
        lemma_sources_check_all(d);
        assert(source_check(s[s.len() - 1]) == Ok::<(), bool>(()));
    }
}

/// A store that a migration run leaves passes the migration's verification
/// against the run's report: every source carries a canonical external
/// identifier and a current `system` block, every memory item and job points
/// at a stored source, the store holds one source per distinct target of the
/// report lines, and every line's seed and target are reproducible. The
/// store is given by the models `InMemorySourceMigration::execute` states of
/// it.
pub proof fn lemma_verify_after_execute<G: IdGenerator>(
    sources: Seq<PersistedSourceRecord>,
    items: Seq<PersistedMemoryItemRecord>,
    jobs: Seq<PersistedIndexJobRecord>,
    parsed: Seq<Option<Json>>,
    g: G,
    m: Seq<RowModel>,
    a: RewriteAcc,
    new_sources: Seq<PersistedSourceRecord>,
    new_items: Seq<PersistedMemoryItemRecord>,
    new_jobs: Seq<PersistedIndexJobRecord>,
)
    requires
        planned_rows(sources, items, jobs, parsed) == Ok::<Seq<RowModel>, bool>(m),
        !summary_of(m, true).stop_required,
        rewrite_groups(target_keys(m), sources, m, items, jobs, g) == Some(a),
        sources_view(new_sources) == a.sources,
        items_model(new_items) == a.items,
        new_jobs == a.jobs,
    ensures
        verification_outcome(new_sources, new_items, new_jobs, m) == Ok::<(), bool>(()),
        new_sources.len() == expected_ids(m).len(),
{
    lemma_migration_run_counts(sources, items, jobs, parsed, g, m, a);
    lemma_planned_rows_formed(sources, items, jobs, parsed, m);
    lemma_no_class(m, MigrationClassification::Unmigratable);
    let keys = target_keys(m);
    lemma_target_keys(m);
    lemma_rewrite_one_source_per_target(keys, sources, m, items, jobs, g);
    lemma_rewrite_references_resolve(sources, m, items, jobs, g);
    assert(new_sources.len() == a.sources.len());
    assert forall|i: int| 0 <= i < new_sources.len() implies source_check(#[trigger] new_sources[i]) == Ok::<(), bool>(()) by {
        assert(new_sources[i]@ == a.sources[i]);
        let t = keys[i];
        assert(keys.contains(t));
        let j0 = choose|j: int| 0 <= j < m.len() && (#[trigger] m[j]).candidate_source_id == t;
        lemma_first_row_of(m, t, 0);
        let f = first_row_of(m, t, 0);
        assert(f <= j0);
        assert(f < m.len());
        assert(row_formed(m[f]));
        assert(m[f].classification != MigrationClassification::Unmigratable);
        lemma_rewritten_system(sources[survivor_in(sources, m, t)].source_metadata@, m[f]);
    }
    lemma_sources_check_all(new_sources);
    assert forall|k: int| 0 <= k < new_items.len() implies has_source_id(new_sources, (#[trigger] new_items[k]).source_id) by {
        assert(new_items[k]@ == a.items[k]);
        assert(holds_source(a.sources, a.items[k].source_id));
        let i = choose|i: int| 0 <= i < a.sources.len() && (#[trigger] a.sources[i]).source_id == a.items[k].source_id;
        assert(new_sources[i]@ == a.sources[i]);
    }
    assert forall|k: int| 0 <= k < new_jobs.len() implies has_source_id(new_sources, (#[trigger] new_jobs[k]).source_id) by {
        assert(holds_source(a.sources, a.jobs[k].source_id));
        let i = choose|i: int| 0 <= i < a.sources.len() && (#[trigger] a.sources[i]).source_id == a.jobs[k].source_id;
        assert(new_sources[i]@ == a.sources[i]);
    }
    assert(references_resolve(new_sources, new_items, new_jobs));
}

} // verus!
