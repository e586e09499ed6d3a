use vstd::prelude::*;
use crate::domain::json::{JsonValue, Json, duplicate_json, members_view, lemma_object_view, lemma_scalar_views, sorted_insert};
use crate::domain::credential::insert_member_sorted;
use crate::domain::normalization::IdGenerator;
use crate::domain::source::IngestKind;
use crate::error::{AppError, AppResult, ErrorKind};
use crate::infra::migration::{MigrationRowReport, RowModel, rows_view};
use crate::infra::records::{
    PersistedSourceRecord, PersistedMemoryItemRecord, PersistedIndexJobRecord, PersistedAuthoritativeState, SourceModel,
    ItemModel, sources_view, items_model, clone_opt_string, copy_job,
};
use crate::text::str_eq;

verus! {

/// `keys` with `x` added at its place in ascending order, unless present.
pub open spec fn insert_key(s: Seq<u128>, x: u128) -> Seq<u128>
    decreases s.len(),
{
    if s.len() == 0 {
        seq![x]
    } else if s.last() < x {
        s.push(x)
    } else if s.last() == x {
        s
    } else {
        insert_key(s.drop_last(), x).push(s.last())
    }
}

/// The distinct target source identifiers of the report lines, ascending.
pub open spec fn target_keys(rows: Seq<RowModel>) -> Seq<u128>
    decreases rows.len(),
{
    if rows.len() == 0 {
        seq![]
    } else {
        insert_key(target_keys(rows.drop_last()), rows.last().candidate_source_id)
    }
}

pub open spec fn key_pos(s: Seq<u128>, x: u128) -> int
    decreases s.len(),
{
    if s.len() == 0 {
        0
    } else if s.last() <= x {
        s.len() as int
    } else {
        key_pos(s.drop_last(), x)
    }
}

proof fn lemma_insert_key_at(s: Seq<u128>, x: u128)
    ensures
        0 <= key_pos(s, x) <= s.len(),
        key_pos(s, x) > 0 && s[key_pos(s, x) - 1] == x ==> insert_key(s, x) == s,
        !(key_pos(s, x) > 0 && s[key_pos(s, x) - 1] == x) ==> insert_key(s, x) == s.subrange(0, key_pos(s, x)).push(x)
            + s.subrange(key_pos(s, x), s.len() as int),
    decreases s.len(),
{
    if s.len() == 0 {
        assert(insert_key(s, x) =~= s.subrange(0, 0).push(x) + s.subrange(0, 0));
    } else if s.last() <= x {
        if s.last() < x {
            assert(insert_key(s, x) =~= s.subrange(0, s.len() as int).push(x) + s.subrange(s.len() as int, s.len() as int));
        }
    } else {
        let d = s.drop_last();
        lemma_insert_key_at(d, x);
        let p = key_pos(d, x);
        if p > 0 && d[p - 1] == x {
            assert(s[p - 1] == d[p - 1]);
            assert(insert_key(d, x).push(s.last()) =~= s);
        } else {
            assert(s.subrange(0, p) =~= d.subrange(0, p));
            if p > 0 {
                assert(s[p - 1] == d[p - 1]);
            }
            assert(insert_key(s, x) =~= s.subrange(0, p).push(x) + s.subrange(p, s.len() as int)) by {
                assert(d.subrange(p, d.len() as int).push(s.last()) =~= s.subrange(p, s.len() as int));
            }
        }
    }
}

fn insert_key_exec(keys: &mut Vec<u128>, x: u128)
    ensures
        final(keys)@ == insert_key(old(keys)@, x),
{
    let ghost s = keys@;
    let mut p = keys.len();
    proof {
        assert(s.subrange(0, p as int) =~= s);
    }
    let mut go = p > 0 && keys[p - 1] > x;
    while go
        invariant
            p <= keys@.len(),
            s == keys@,
            go ==> p > 0 && s[p - 1] > x,
            !go ==> (p == 0 || s[p - 1] <= x),
            key_pos(s, x) == key_pos(s.subrange(0, p as int), x),
        decreases p,
    {
        proof {
            let t = s.subrange(0, p as int);
            assert(t.last() == s[p - 1]);
            assert(t.drop_last() =~= s.subrange(0, p - 1));
        }
        p = p - 1;
        go = p > 0 && keys[p - 1] > x;
    }
    proof {
        let t = s.subrange(0, p as int);
        if p > 0 {
            assert(t.last() == s[p - 1]);
        }
        assert(key_pos(s, x) == p);
        lemma_insert_key_at(s, x);
    }
    if p > 0 && keys[p - 1] == x {
        return ;
    }
    keys.insert(p, x);
    proof {
        assert(keys@ =~= s.subrange(0, p as int).push(x) + s.subrange(p as int, s.len() as int));
    }
}

fn collect_target_keys(rows: &Vec<MigrationRowReport>) -> (r: Vec<u128>)
    ensures
        r@ == target_keys(rows_view(rows@)),
{
    let ghost rv = rows_view(rows@);
    let mut keys: Vec<u128> = Vec::new();
    let mut i: usize = 0;
    while i < rows.len()
        invariant
            i <= rows@.len(),
            rv == rows_view(rows@),
            keys@ == target_keys(rv.take(i as int)),
        decreases rows@.len() - i,
    {
        proof {
            assert(rv.take(i + 1).drop_last() =~= rv.take(i as int));
            assert(rv.take(i + 1).last() == rows@[i as int]@);
        }
        insert_key_exec(&mut keys, rows[i].candidate_source_id);
        i = i + 1;
    }
    proof {
        assert(rv.take(i as int) =~= rv);
    }
    keys
}

/// Index of the last source with identifier `id` (`-1` when none).
pub open spec fn find_source(s: Seq<PersistedSourceRecord>, id: u128) -> int
    decreases s.len(),
{
    if s.len() == 0 {
        -1
    } else if s.last().source_id == id {
        s.len() - 1
    } else {
        find_source(s.drop_last(), id)
    }
}

/// `a` was created before `b`, or at the same time with a smaller identifier.
pub open spec fn created_before(a: PersistedSourceRecord, b: PersistedSourceRecord) -> bool {
    a.created_at < b.created_at || (a.created_at == b.created_at && a.source_id < b.source_id)
}

/// Index in `s` of the surviving source of the group with target `t`: the
/// earliest created of the group's legacy sources (`-1` when none is
/// stored).
pub open spec fn survivor_in(s: Seq<PersistedSourceRecord>, rows: Seq<RowModel>, t: u128) -> int
    decreases rows.len(),
{
    if rows.len() == 0 {
        -1
    } else {
        let b = survivor_in(s, rows.drop_last(), t);
        let r = rows.last();
        if r.candidate_source_id != t {
            b
        } else {
            let idx = find_source(s, r.legacy_source_id);
            if idx >= 0 && (b < 0 || created_before(s[idx], s[b])) {
                idx
            } else {
                b
            }
        }
    }
}

proof fn lemma_find_source(s: Seq<PersistedSourceRecord>, id: u128)
    ensures
        -1 <= find_source(s, id) < s.len(),
        find_source(s, id) >= 0 ==> s[find_source(s, id)].source_id == id,
        forall|k: int| find_source(s, id) < k < s.len() ==> s[k].source_id != id,
    decreases s.len(),
{
    if s.len() > 0 && s.last().source_id != id {
        lemma_find_source(s.drop_last(), id);
        assert forall|k: int| find_source(s, id) < k < s.len() implies s[k].source_id != id by {
            if k < s.len() - 1 {
                assert(s[k] == s.drop_last()[k]);
            }
        }
    }
}

proof fn lemma_survivor_in(s: Seq<PersistedSourceRecord>, rows: Seq<RowModel>, t: u128)
    ensures
        -1 <= survivor_in(s, rows, t) < s.len(),
    decreases rows.len(),
{
    if rows.len() > 0 {
        lemma_survivor_in(s, rows.drop_last(), t);
        lemma_find_source(s, rows.last().legacy_source_id);
    }
}

fn find_source_exec(s: &Vec<PersistedSourceRecord>, id: u128) -> (r: Option<usize>)
    ensures
        match r {
            Some(i) => i as int == find_source(s@, id),
            None => find_source(s@, id) == -1,
        },
{
    let mut i = s.len();
    proof {
        assert(s@.take(i as int) =~= s@);
    }
    while i > 0
        invariant
            i <= s@.len(),
            find_source(s@, id) == find_source(s@.take(i as int), id),
        decreases i,
    {
        proof {
            assert(s@.take(i as int).drop_last() =~= s@.take(i - 1));
        }
        if s[i - 1].source_id == id {
            return Some(i - 1);
        }
        i = i - 1;
    }
    None
}

fn group_survivor(s: &Vec<PersistedSourceRecord>, rows: &Vec<MigrationRowReport>, t: u128) -> (r: Option<usize>)
    ensures
        match r {
            Some(i) => i as int == survivor_in(s@, rows_view(rows@), t) && i < s@.len(),
            None => survivor_in(s@, rows_view(rows@), t) == -1,
        },
{
    let ghost rv = rows_view(rows@);
    let mut best: Option<usize> = None;
    let mut i: usize = 0;
    while i < rows.len()
        invariant
            i <= rows@.len(),
            rv == rows_view(rows@),
            match best {
                Some(b) => b as int == survivor_in(s@, rv.take(i as int), t) && b < s@.len(),
                None => survivor_in(s@, rv.take(i as int), t) == -1,
            },
        decreases rows@.len() - i,
    {
        proof {
            assert(rv.take(i + 1).drop_last() =~= rv.take(i as int));
            assert(rv.take(i + 1).last() == rows@[i as int]@);
        }
        if rows[i].candidate_source_id == t {
            match find_source_exec(s, rows[i].legacy_source_id) {
                Some(idx) => {
                    proof {
                        lemma_find_source(s@, rows@[i as int].legacy_source_id);
                    }
                    let better = match best {
                        None => true,
                        Some(b) => s[idx].created_at < s[b].created_at || (s[idx].created_at == s[b].created_at
                            && s[idx].source_id < s[b].source_id),
                    };
                    if better {
                        best = Some(idx);
                    }
                },
                None => {},
            }
        }
        i = i + 1;
    }
    proof {
        assert(rv.take(i as int) =~= rv);
    }
    best
}

/// Index of the first report line with target `t`, at or after `from`.
pub open spec fn first_row_of(rows: Seq<RowModel>, t: u128, from: int) -> int
    decreases rows.len() - from,
{
    if from < 0 || from >= rows.len() {
        rows.len() as int
    } else if rows[from].candidate_source_id == t {
        from
    } else {
        first_row_of(rows, t, from + 1)
    }
}

pub(crate) proof fn lemma_first_row_of(rows: Seq<RowModel>, t: u128, from: int)
    requires
        0 <= from <= rows.len(),
    ensures
        from <= first_row_of(rows, t, from) <= rows.len(),
        first_row_of(rows, t, from) < rows.len() ==> rows[first_row_of(rows, t, from)].candidate_source_id == t,
        forall|k: int| from <= k < first_row_of(rows, t, from) ==> rows[k].candidate_source_id != t,
    decreases rows.len() - from,
{
    if from < rows.len() && rows[from].candidate_source_id != t {
        lemma_first_row_of(rows, t, from + 1);
    }
}

fn first_row_exec(rows: &Vec<MigrationRowReport>, t: u128) -> (r: usize)
    ensures
        r == first_row_of(rows_view(rows@), t, 0),
{
    let ghost rv = rows_view(rows@);
    let mut i: usize = 0;
    while i < rows.len()
        invariant
            i <= rows@.len(),
            rv == rows_view(rows@),
            first_row_of(rv, t, 0) == first_row_of(rv, t, i as int),
        decreases rows@.len() - i,
    {
        proof {
            assert(rv[i as int] == rows@[i as int]@);
        }
        if rows[i].candidate_source_id == t {
            return i;
        }
        i = i + 1;
    }
    i
}

pub open spec fn opt_json_text(o: Option<Seq<char>>) -> Json {
    match o {
        Some(t) => Json::String(t),
        None => Json::Null,
    }
}

/// The `system` block of a source, members in key order.
pub open spec fn system_fields_json(
    kind: IngestKind,
    original: Option<Seq<char>>,
    raw: Option<Seq<char>>,
    hash: Seq<char>,
) -> Json {
    Json::Object(
        seq![
            ("canonical_id_version"@, Json::String("v1"@)),
            ("ingest_kind"@, Json::String(kind.name())),
            ("original_standard_id"@, opt_json_text(original)),
            ("raw_body_hash"@, opt_json_text(raw)),
            ("semantic_payload_hash"@, Json::String(hash)),
        ],
    )
}

/// The `system` block a migrated source carries: direct-standard when the
/// line carries an original standard identifier.
pub open spec fn system_json(row: RowModel) -> Json {
    system_fields_json(
        if row.original_standard_id is Some {
            IngestKind::DirectStandard
        } else {
            IngestKind::Canonical
        },
        row.original_standard_id,
        row.raw_body_hash,
        row.semantic_payload_hash,
    )
}

/// The members other than those named `k`.
pub open spec fn without_key(m: Seq<(Seq<char>, Json)>, k: Seq<char>) -> Seq<(Seq<char>, Json)>
    decreases m.len(),
{
    if m.len() == 0 {
        seq![]
    } else if m.last().0 == k {
        without_key(m.drop_last(), k)
    } else {
        without_key(m.drop_last(), k).push(m.last())
    }
}

/// The survivor's metadata with its `system` block replaced.
pub open spec fn rewritten_metadata(meta: Json, row: RowModel) -> Json {
    let base = match meta {
        Json::Object(m) => m,
        _ => seq![],
    };
    Json::Object(sorted_insert(without_key(base, "system"@), ("system"@, system_json(row))))
}

/// The canonical source that replaces a group of legacy sources.
pub open spec fn merged_source(survivor: PersistedSourceRecord, row: RowModel, t: u128) -> SourceModel {
    SourceModel {
        source_id: t,
        external_id: row.candidate,
        source_metadata: rewritten_metadata(survivor.source_metadata@, row),
        ..survivor@
    }
}

fn opt_json_string(o: &Option<String>) -> (r: JsonValue)
    ensures
        r@ == opt_json_text(match o {
            Some(s) => Some(s@),
            None => None,
        }),
{
    match o {
        Some(s) => {
            let v = JsonValue::String(s.clone());
            proof {
                lemma_scalar_views(v);
            }
            v
        },
        None => {
            let v = JsonValue::Null;
            proof {
                lemma_scalar_views(v);
            }
            v
        },
    }
}

pub(crate) fn system_fields(kind: IngestKind, original: &Option<String>, raw: &Option<String>, hash: &str) -> (r:
    JsonValue)
    ensures
        r@ == system_fields_json(
            kind,
            match original {
                Some(s) => Some(s@),
                None => None,
            },
            match raw {
                Some(s) => Some(s@),
                None => None,
            },
            hash@,
        ),
{
    let v1 = JsonValue::String("v1".to_owned());
    let k = JsonValue::String(kind.as_str().to_owned());
    let h = JsonValue::String(hash.to_owned());
    proof {
        lemma_scalar_views(v1);
        lemma_scalar_views(k);
        lemma_scalar_views(h);
    }
    let mut m: Vec<(String, JsonValue)> = Vec::new();
    m.push(("canonical_id_version".to_owned(), v1));
    m.push(("ingest_kind".to_owned(), k));
    m.push(("original_standard_id".to_owned(), opt_json_string(original)));
    m.push(("raw_body_hash".to_owned(), opt_json_string(raw)));
    m.push(("semantic_payload_hash".to_owned(), h));
    let v = JsonValue::Object(m);
    proof {
        lemma_object_view(v);
        assert(members_view(m@) =~= system_fields_json(
            kind,
            match original {
                Some(s) => Some(s@),
                None => None,
            },
            match raw {
                Some(s) => Some(s@),
                None => None,
            },
            hash@,
        )->Object_0);
    }
    v
}

fn system_block(row: &MigrationRowReport) -> (r: JsonValue)
    ensures
        r@ == system_json(row@),
{
    let kind = if row.original_standard_id.is_some() {
        IngestKind::DirectStandard
    } else {
        IngestKind::Canonical
    };
    system_fields(kind, &row.original_standard_id, &row.raw_body_hash, row.semantic_payload_hash.as_str())
}

pub(crate) fn metadata_without_system(meta: &JsonValue) -> (r: Vec<(String, JsonValue)>)
    ensures
        members_view(r@) == without_key(
            match meta@ {
                Json::Object(m) => m,
                _ => seq![],
            },
            "system"@,
        ),
{
    proof {
        lemma_scalar_views(*meta);
        reveal_strlit("system");
    }
    let mut out: Vec<(String, JsonValue)> = Vec::new();
    match meta {
        JsonValue::Object(m) => {
            proof {
                lemma_object_view(*meta);
            }
            let ghost mv = members_view(m@);
            let mut i: usize = 0;
            proof {
                assert(mv.take(0) =~= Seq::<(Seq<char>, Json)>::empty());
                assert(members_view(out@) =~= Seq::<(Seq<char>, Json)>::empty());
            }
            while i < m.len()
                invariant
                    i <= m@.len(),
                    mv == members_view(m@),
                    members_view(out@) == without_key(mv.take(i as int), "system"@),
                decreases m@.len() - i,
            {
                proof {
                    assert(mv.take(i + 1).drop_last() =~= mv.take(i as int));
                    assert(mv.take(i + 1).last() == mv[i as int]);
                    assert(mv[i as int] == (m@[i as int].0@, m@[i as int].1@));
                }
                if !str_eq(m[i].0.as_str(), "system") {
                    let ghost before = members_view(out@);
                    out.push((m[i].0.clone(), duplicate_json(&m[i].1)));
                    proof {
                        assert(members_view(out@) =~= before.push(mv[i as int]));
                    }
                }
                i = i + 1;
            }
            proof {
                assert(mv.take(i as int) =~= mv);
            }
            out
        },
        _ => {
            proof {
                assert(members_view(out@) =~= Seq::<(Seq<char>, Json)>::empty());
            }
            out
        },
    }
}

fn merged_source_exec(survivor: &PersistedSourceRecord, row: &MigrationRowReport, t: u128) -> (r: PersistedSourceRecord)
    ensures
        r@ == merged_source(*survivor, row@, t),
{
    let mut members = metadata_without_system(&survivor.source_metadata);
    let system = system_block(row);
    proof {
        reveal_strlit("system");
    }
    insert_member_sorted(&mut members, ("system".to_owned(), system));
    let metadata = JsonValue::Object(members);
    proof {
        lemma_object_view(metadata);
    }
    PersistedSourceRecord {
        source_id: t,
        external_id: row.candidate_canonical_external_id.clone(),
        title: survivor.title.clone(),
        summary: clone_opt_string(&survivor.summary),
        document_type: survivor.document_type.clone(),
        source_metadata: metadata,
        created_at: survivor.created_at,
        updated_at: survivor.updated_at,
    }
}

/// A memory item moved to target source `t` under a new URN.
pub open spec fn moved_item(it: PersistedMemoryItemRecord, urn: Seq<char>, t: u128) -> ItemModel {
    ItemModel { urn, source_id: t, ..it@ }
}

pub open spec fn has_urn(acc: Seq<ItemModel>, urn: Seq<char>) -> bool {
    exists|k: int| 0 <= k < acc.len() && (#[trigger] acc[k]).urn == urn
}

/// `acc` with the memory items of `legacy` moved to `t`, skipping any whose
/// new URN is already taken.
pub open spec fn add_items<G: IdGenerator>(
    acc: Seq<ItemModel>,
    items: Seq<PersistedMemoryItemRecord>,
    legacy: u128,
    t: u128,
    g: G,
) -> Seq<ItemModel>
    decreases items.len(),
{
    if items.len() == 0 {
        acc
    } else {
        let a = add_items(acc, items.drop_last(), legacy, t, g);
        let it = items.last();
        if it.source_id != legacy {
            a
        } else {
            let urn = g.urn_for(t, it.sequence, it.start_offset, it.end_offset, it.content_hash@);
            if has_urn(a, urn) {
                a
            } else {
                a.push(moved_item(it, urn, t))
            }
        }
    }
}

/// `acc` with the indexing jobs of `legacy` moved to `t`.
pub open spec fn add_jobs(acc: Seq<PersistedIndexJobRecord>, jobs: Seq<PersistedIndexJobRecord>, legacy: u128, t: u128) -> Seq<
    PersistedIndexJobRecord,
>
    decreases jobs.len(),
{
    if jobs.len() == 0 {
        acc
    } else {
        let a = add_jobs(acc, jobs.drop_last(), legacy, t);
        if jobs.last().source_id != legacy {
            a
        } else {
            a.push(PersistedIndexJobRecord { source_id: t, ..jobs.last() })
        }
    }
}

/// Index of the first remap entry for `k` at or after `from`.
pub open spec fn remap_index(s: Seq<(u128, u128)>, k: u128, from: int) -> int
    decreases s.len() - from,
{
    if from < 0 || from >= s.len() {
        s.len() as int
    } else if s[from].0 == k {
        from
    } else {
        remap_index(s, k, from + 1)
    }
}

/// The remap table with `k` now pointing at `v`.
pub open spec fn remap_insert(s: Seq<(u128, u128)>, k: u128, v: u128) -> Seq<(u128, u128)> {
    let i = remap_index(s, k, 0);
    if i < s.len() {
        s.update(i, (k, v))
    } else {
        s.push((k, v))
    }
}

/// What a migration rewrite has produced so far.
pub struct RewriteAcc {
    pub sources: Seq<SourceModel>,
    pub items: Seq<ItemModel>,
    pub jobs: Seq<PersistedIndexJobRecord>,
    pub remaps: Seq<(u128, u128)>,
}

pub open spec fn apply_row<G: IdGenerator>(
    acc: RewriteAcc,
    row: RowModel,
    t: u128,
    items: Seq<PersistedMemoryItemRecord>,
    jobs: Seq<PersistedIndexJobRecord>,
    g: G,
) -> RewriteAcc {
    RewriteAcc {
        sources: acc.sources,
        items: add_items(acc.items, items, row.legacy_source_id, t, g),
        jobs: add_jobs(acc.jobs, jobs, row.legacy_source_id, t),
        remaps: if row.legacy_source_id != t {
            remap_insert(acc.remaps, row.legacy_source_id, t)
        } else {
            acc.remaps
        },
    }
}

/// `acc` after the lines of group `t`, in report order, moved their
/// dependents to `t`.
pub open spec fn apply_group_rows<G: IdGenerator>(
    acc: RewriteAcc,
    rows: Seq<RowModel>,
    t: u128,
    items: Seq<PersistedMemoryItemRecord>,
    jobs: Seq<PersistedIndexJobRecord>,
    g: G,
) -> RewriteAcc
    decreases rows.len(),
{
    if rows.len() == 0 {
        acc
    } else {
        let a = apply_group_rows(acc, rows.drop_last(), t, items, jobs, g);
        if rows.last().candidate_source_id == t {
            apply_row(a, rows.last(), t, items, jobs, g)
        } else {
            a
        }
    }
}

/// `acc` after group `t` is rewritten: its canonical source is added and
/// its dependents are moved; `None` when no legacy source of the group is
/// stored.
pub open spec fn rewrite_group<G: IdGenerator>(
    acc: RewriteAcc,
    t: u128,
    sources: Seq<PersistedSourceRecord>,
    rows: Seq<RowModel>,
    items: Seq<PersistedMemoryItemRecord>,
    jobs: Seq<PersistedIndexJobRecord>,
    g: G,
) -> Option<RewriteAcc> {
    let b = survivor_in(sources, rows, t);
    if b < 0 {
        None
    } else {
        let f = first_row_of(rows, t, 0);
        let a1 = RewriteAcc { sources: acc.sources.push(merged_source(sources[b], rows[f], t)), ..acc };
        Some(apply_group_rows(a1, rows, t, items, jobs, g))
    }
}

/// The rewrite of the groups with targets `keys`, in that order.
pub open spec fn rewrite_groups<G: IdGenerator>(
    keys: Seq<u128>,
    sources: Seq<PersistedSourceRecord>,
    rows: Seq<RowModel>,
    items: Seq<PersistedMemoryItemRecord>,
    jobs: Seq<PersistedIndexJobRecord>,
    g: G,
) -> Option<RewriteAcc>
    decreases keys.len(),
{
    if keys.len() == 0 {
        Some(RewriteAcc { sources: seq![], items: seq![], jobs: seq![], remaps: seq![] })
    } else {
        match rewrite_groups(keys.drop_last(), sources, rows, items, jobs, g) {
            None => None,
            Some(a) => rewrite_group(a, keys.last(), sources, rows, items, jobs, g),
        }
    }
}

fn has_urn_exec(acc: &Vec<PersistedMemoryItemRecord>, urn: &str) -> (r: bool)
    ensures
        r == has_urn(items_model(acc@), urn@),
{
    let ghost av = items_model(acc@);
    let mut k: usize = 0;
    while k < acc.len()
        invariant
            k <= acc@.len(),
            av == items_model(acc@),
            forall|m: int| 0 <= m < k ==> (#[trigger] av[m]).urn != urn@,
        decreases acc@.len() - k,
    {
        proof {
            assert(av[k as int] == acc@[k as int]@);
        }
        if str_eq(acc[k].urn.as_str(), urn) {
            return true;
        }
        k = k + 1;
    }
    false
}

fn append_items<G: IdGenerator>(
    acc: &mut Vec<PersistedMemoryItemRecord>,
    items: &Vec<PersistedMemoryItemRecord>,
    legacy: u128,
    t: u128,
    gen: &G,
)
    ensures
        items_model(final(acc)@) == add_items(items_model(old(acc)@), items@, legacy, t, *gen),
{
    let ghost a0 = items_model(acc@);
    let mut i: usize = 0;
    proof {
        assert(items@.take(0) =~= Seq::<PersistedMemoryItemRecord>::empty());
    }
    while i < items.len()
        invariant
            i <= items@.len(),
            items_model(acc@) == add_items(a0, items@.take(i as int), legacy, t, *gen),
        decreases items@.len() - i,
    {
        proof {
            assert(items@.take(i + 1).drop_last() =~= items@.take(i as int));
            assert(items@.take(i + 1).last() == items@[i as int]);
        }
        let it = &items[i];
        if it.source_id == legacy {
            let urn = gen.memory_item_urn(t, it.sequence, it.start_offset, it.end_offset, it.content_hash.as_str());
            if !has_urn_exec(acc, urn.as_str()) {
                let ghost before = items_model(acc@);
                acc.push(
                    PersistedMemoryItemRecord {
                        urn,
                        source_id: t,
                        sequence: it.sequence,
                        unit_type: it.unit_type.clone(),
                        start_offset: it.start_offset,
                        end_offset: it.end_offset,
                        version: it.version.clone(),
                        content: it.content.clone(),
                        content_hash: it.content_hash.clone(),
                        item_metadata: duplicate_json(&it.item_metadata),
                        created_at: it.created_at,
                        updated_at: it.updated_at,
                    },
                );
                proof {
                    assert(items_model(acc@) =~= before.push(acc@.last()@));
                }
            }
        }
        i = i + 1;
    }
    proof {
        assert(items@.take(i as int) =~= items@);
    }
}

fn append_jobs(acc: &mut Vec<PersistedIndexJobRecord>, jobs: &Vec<PersistedIndexJobRecord>, legacy: u128, t: u128)
    ensures
        final(acc)@ == add_jobs(old(acc)@, jobs@, legacy, t),
{
    let ghost a0 = acc@;
    let mut i: usize = 0;
    proof {
        assert(jobs@.take(0) =~= Seq::<PersistedIndexJobRecord>::empty());
    }
    while i < jobs.len()
        invariant
            i <= jobs@.len(),
            acc@ == add_jobs(a0, jobs@.take(i as int), legacy, t),
        decreases jobs@.len() - i,
    {
        proof {
            assert(jobs@.take(i + 1).drop_last() =~= jobs@.take(i as int));
            assert(jobs@.take(i + 1).last() == jobs@[i as int]);
        }
        if jobs[i].source_id == legacy {
            let mut moved = copy_job(&jobs[i]);
            moved.source_id = t;
            acc.push(moved);
        }
        i = i + 1;
    }
    proof {
        assert(jobs@.take(i as int) =~= jobs@);
    }
}

fn remap_insert_exec(remaps: &mut Vec<(u128, u128)>, k: u128, v: u128)
    ensures
        final(remaps)@ == remap_insert(old(remaps)@, k, v),
{
    let ghost s = remaps@;
    let mut i: usize = 0;
    while i < remaps.len()
        invariant
            i <= remaps@.len(),
            s == remaps@,
            s == old(remaps)@,
            remap_index(s, k, 0) == remap_index(s, k, i as int),
        decreases remaps@.len() - i,
    {
        if remaps[i].0 == k {
            proof {
                assert(remap_index(s, k, i as int) == i);
            }
            remaps.set(i, (k, v));
            return ;
        }
        i = i + 1;
    }
    remaps.push((k, v));
}

fn apply_group<G: IdGenerator>(
    new_items: &mut Vec<PersistedMemoryItemRecord>,
    new_jobs: &mut Vec<PersistedIndexJobRecord>,
    remaps: &mut Vec<(u128, u128)>,
    rows: &Vec<MigrationRowReport>,
    t: u128,
    items: &Vec<PersistedMemoryItemRecord>,
    jobs: &Vec<PersistedIndexJobRecord>,
    gen: &G,
)
    ensures
        ({
            let a0 = RewriteAcc {
                sources: seq![],
                items: items_model(old(new_items)@),
                jobs: old(new_jobs)@,
                remaps: old(remaps)@,
            };
            let a1 = apply_group_rows(a0, rows_view(rows@), t, items@, jobs@, *gen);
            &&& items_model(final(new_items)@) == a1.items
            &&& final(new_jobs)@ == a1.jobs
            &&& final(remaps)@ == a1.remaps
        }),
{
    let ghost rv = rows_view(rows@);
    let ghost a0 = RewriteAcc { sources: seq![], items: items_model(new_items@), jobs: new_jobs@, remaps: remaps@ };
    let mut i: usize = 0;
    proof {
        assert(rv.take(0) =~= Seq::<RowModel>::empty());
    }
    while i < rows.len()
        invariant
            i <= rows@.len(),
            rv == rows_view(rows@),
            ({
                let a = apply_group_rows(a0, rv.take(i as int), t, items@, jobs@, *gen);
                &&& items_model(new_items@) == a.items
                &&& new_jobs@ == a.jobs
                &&& remaps@ == a.remaps
            }),
        decreases rows@.len() - i,
    {
        proof {
            assert(rv.take(i + 1).drop_last() =~= rv.take(i as int));
            assert(rv.take(i + 1).last() == rows@[i as int]@);
        }
        let row = &rows[i];
        if row.candidate_source_id == t {
            if row.legacy_source_id != t {
                remap_insert_exec(remaps, row.legacy_source_id, t);
            }
            append_items(new_items, items, row.legacy_source_id, t, gen);
            append_jobs(new_jobs, jobs, row.legacy_source_id, t);
        }
        i = i + 1;
    }
    proof {
        assert(rv.take(i as int) =~= rv);
    }
}

proof fn lemma_apply_group_rows_sources<G: IdGenerator>(
    a: RewriteAcc,
    b: RewriteAcc,
    rows: Seq<RowModel>,
    t: u128,
    items: Seq<PersistedMemoryItemRecord>,
    jobs: Seq<PersistedIndexJobRecord>,
    g: G,
)
    requires
        a.items == b.items,
        a.jobs == b.jobs,
        a.remaps == b.remaps,
    ensures
        apply_group_rows(a, rows, t, items, jobs, g).sources == a.sources,
        apply_group_rows(a, rows, t, items, jobs, g).items == apply_group_rows(b, rows, t, items, jobs, g).items,
        apply_group_rows(a, rows, t, items, jobs, g).jobs == apply_group_rows(b, rows, t, items, jobs, g).jobs,
        apply_group_rows(a, rows, t, items, jobs, g).remaps == apply_group_rows(b, rows, t, items, jobs, g).remaps,
    decreases rows.len(),
{
    if rows.len() > 0 {
        lemma_apply_group_rows_sources(a, b, rows.drop_last(), t, items, jobs, g);
    }
}

proof fn lemma_survivor_has_row(s: Seq<PersistedSourceRecord>, rows: Seq<RowModel>, t: u128)
    requires
        survivor_in(s, rows, t) >= 0,
    ensures
        first_row_of(rows, t, 0) < rows.len(),
    decreases rows.len(),
{
    lemma_first_row_of(rows, t, 0);
    let d = rows.drop_last();
    if survivor_in(s, d, t) >= 0 {
        lemma_survivor_has_row(s, d, t);
        lemma_first_row_of(d, t, 0);
        let j = first_row_of(d, t, 0);
        assert(rows[j] == d[j]);
    } else {
        assert(rows.last().candidate_source_id == t);
        assert(rows[rows.len() - 1].candidate_source_id == t);
    }
}

proof fn lemma_rewrite_groups_none_persists<G: IdGenerator>(
    keys: Seq<u128>,
    sources: Seq<PersistedSourceRecord>,
    rows: Seq<RowModel>,
    items: Seq<PersistedMemoryItemRecord>,
    jobs: Seq<PersistedIndexJobRecord>,
    g: G,
    k: int,
)
    requires
        0 <= k <= keys.len(),
        rewrite_groups(keys.take(k), sources, rows, items, jobs, g) is None,
    ensures
        rewrite_groups(keys, sources, rows, items, jobs, g) is None,
    decreases keys.len() - k,
{
    if k < keys.len() {
        assert(keys.take(k + 1).drop_last() =~= keys.take(k));
        lemma_rewrite_groups_none_persists(keys, sources, rows, items, jobs, g, k + 1);
    } else {
        assert(keys.take(k) =~= keys);
    }
}

/// `rewrite_state`: the store after a migration that passed its dry run.
/// Each group of report lines with one target source identifier, in
/// ascending order of that identifier, becomes one canonical source built
/// from the group's earliest created legacy source; the group's memory
/// items (under new URNs, first one kept per URN) and indexing jobs move to
/// it, and every legacy identifier that changed is remapped. Fails when a
/// group has no stored legacy source.
pub fn rewrite_state<G: IdGenerator>(snapshot: &PersistedAuthoritativeState, rows: &Vec<MigrationRowReport>, gen: &G) -> (r:
    AppResult<PersistedAuthoritativeState>)
    ensures
        match rewrite_groups(
            target_keys(rows_view(rows@)),
            snapshot.sources@,
            rows_view(rows@),
            snapshot.memory_items@,
            snapshot.index_jobs@,
            *gen,
        ) {
            Some(a) => r matches Ok(st) && {
                &&& sources_view(st.sources@) == a.sources
                &&& items_model(st.memory_items@) == a.items
                &&& st.index_jobs@ == a.jobs
                &&& st.source_id_remaps@ == a.remaps
                &&& st.migration_phase@ == "verification"@
                &&& st.snapshot_ready == snapshot.snapshot_ready
            },
            None => r matches Err(e) && e.kind == ErrorKind::Internal,
        },
{
    let keys = collect_target_keys(rows);
    let ghost rv = rows_view(rows@);
    let ghost sv = snapshot.sources@;
    let ghost iv = snapshot.memory_items@;
    let ghost jv = snapshot.index_jobs@;
    let mut new_sources: Vec<PersistedSourceRecord> = Vec::new();
    let mut new_items: Vec<PersistedMemoryItemRecord> = Vec::new();
    let mut new_jobs: Vec<PersistedIndexJobRecord> = Vec::new();
    let mut remaps: Vec<(u128, u128)> = Vec::new();
    let mut k: usize = 0;
    proof {
        assert(keys@.take(0) =~= Seq::<u128>::empty());
        assert(sources_view(new_sources@) =~= Seq::<SourceModel>::empty());
        assert(items_model(new_items@) =~= Seq::<ItemModel>::empty());
    }
    while k < keys.len()
        invariant
            k <= keys@.len(),
            keys@ == target_keys(rv),
            rv == rows_view(rows@),
            sv == snapshot.sources@,
            iv == snapshot.memory_items@,
            jv == snapshot.index_jobs@,
            rewrite_groups(keys@.take(k as int), sv, rv, iv, jv, *gen) == Some(
                RewriteAcc {
                    sources: sources_view(new_sources@),
                    items: items_model(new_items@),
                    jobs: new_jobs@,
                    remaps: remaps@,
                },
            ),
        decreases keys@.len() - k,
    {
        let t = keys[k];
        proof {
            assert(keys@.take(k + 1).drop_last() =~= keys@.take(k as int));
            assert(keys@.take(k + 1).last() == t);
        }
        let b = match group_survivor(&snapshot.sources, rows, t) {
            Some(b) => b,
            None => {
                proof {
                    lemma_rewrite_groups_none_persists(keys@, sv, rv, iv, jv, *gen, k + 1);
                }
                return Err(AppError::internal("migration survivor selection failed"));
            },
        };
        proof {
            lemma_survivor_has_row(sv, rv, t);
        }
        let f = first_row_exec(rows, t);
        let merged = merged_source_exec(&snapshot.sources[b], &rows[f], t);
        let ghost before = sources_view(new_sources@);
        new_sources.push(merged);
        proof {
            assert(sources_view(new_sources@) =~= before.push(merged_source(sv[b as int], rv[f as int], t)));
        }
        let ghost items0 = items_model(new_items@);
        let ghost jobs0 = new_jobs@;
        let ghost remaps0 = remaps@;
        apply_group(&mut new_items, &mut new_jobs, &mut remaps, rows, t, &snapshot.memory_items, &snapshot.index_jobs, gen);
        proof {
            let a0 = RewriteAcc { sources: seq![], items: items0, jobs: jobs0, remaps: remaps0 };
            let a1 = RewriteAcc { sources: sources_view(new_sources@), items: items0, jobs: jobs0, remaps: remaps0 };
            lemma_apply_group_rows_sources(a1, a0, rv, t, iv, jv, *gen);
        }
        k = k + 1;
    }
    proof {
        assert(keys@.take(k as int) =~= keys@);
    }
    Ok(
        PersistedAuthoritativeState {
            sources: new_sources,
            memory_items: new_items,
            index_jobs: new_jobs,
            source_id_remaps: remaps,
            migration_phase: "verification".to_owned(),
            snapshot_ready: snapshot.snapshot_ready,
        },
    )
}

}
