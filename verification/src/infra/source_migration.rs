use vstd::prelude::*;
use vstd::string::*;
use crate::domain::json::{JsonValue, Json};
use crate::domain::normalization::IdGenerator;
use crate::domain::source_external_id::{CanonicalSourceExternalId, parsed_canonical_uri};
use crate::domain::source_identity::{random_uuid, source_seed, verify_source_id, seed_text, source_id_for};
use crate::error::{AppError, AppResult, ErrorKind};
use crate::infra::migration::{
    MigrationClassification, MigrationRowReport, MigrationSummary, RowModel, build_rows, hash_failure, contents_json,
    planned_rows, rows_view, summarize_rows, summary_of,
};
use crate::infra::migration_rewrite::{RewriteAcc, rewrite_groups, rewrite_state, target_keys};
use crate::infra::records::{
    PersistedSourceRecord, PersistedMemoryItemRecord, PersistedIndexJobRecord, PersistedAuthoritativeState, copy_source,
    copy_item, copy_job, same_source, same_item, sources_view, items_model, system_str, system_has, system_string,
    system_contains,
};
use crate::text::str_eq;

verus! {

/// A dry run: its random identifier, the phase, the summary and the lines.
#[derive(Debug)]
pub struct MigrationDryRunReport {
    pub run_id: u128,
    pub migration_phase: String,
    pub summary: MigrationSummary,
    pub rows: Vec<MigrationRowReport>,
}

/// Outcome of checking a migrated store.
#[derive(Debug)]
pub struct MigrationVerificationReport {
    pub migration_phase: String,
    pub verified: bool,
    pub canonical_row_count: usize,
    pub remap_count: usize,
}

/// The whole-store migration of legacy sources to canonical identities.
#[derive(Debug)]
pub struct InMemorySourceMigration {
    pub state: PersistedAuthoritativeState,
}

/// Two stores hold the same rows.
pub open spec fn same_state(a: PersistedAuthoritativeState, b: PersistedAuthoritativeState) -> bool {
    &&& sources_view(a.sources@) == sources_view(b.sources@)
    &&& items_model(a.memory_items@) == items_model(b.memory_items@)
    &&& a.index_jobs@ == b.index_jobs@
    &&& a.source_id_remaps@ == b.source_id_remaps@
    &&& a.migration_phase@ == b.migration_phase@
    &&& a.snapshot_ready == b.snapshot_ready
}

pub fn copy_state(s: &PersistedAuthoritativeState) -> (r: PersistedAuthoritativeState)
    ensures
        same_state(r, *s),
{
    let mut sources: Vec<PersistedSourceRecord> = Vec::new();
    let mut i: usize = 0;
    while i < s.sources.len()
        invariant
            i <= s.sources@.len(),
            sources@.len() == i,
            forall|k: int| 0 <= k < i ==> same_source(#[trigger] sources@[k], s.sources@[k]),
        decreases s.sources@.len() - i,
    {
        sources.push(copy_source(&s.sources[i]));
        i = i + 1;
    }
    let mut items: Vec<PersistedMemoryItemRecord> = Vec::new();
    let mut j: usize = 0;
    while j < s.memory_items.len()
        invariant
            j <= s.memory_items@.len(),
            items@.len() == j,
            forall|k: int| 0 <= k < j ==> same_item(#[trigger] items@[k], s.memory_items@[k]),
        decreases s.memory_items@.len() - j,
    {
        items.push(copy_item(&s.memory_items[j]));
        j = j + 1;
    }
    let mut jobs: Vec<PersistedIndexJobRecord> = Vec::new();
    let mut m: usize = 0;
    while m < s.index_jobs.len()
        invariant
            m <= s.index_jobs@.len(),
            jobs@.len() == m,
            forall|k: int| 0 <= k < m ==> #[trigger] jobs@[k] == s.index_jobs@[k],
        decreases s.index_jobs@.len() - m,
    {
        jobs.push(copy_job(&s.index_jobs[m]));
        m = m + 1;
    }
    let mut remaps: Vec<(u128, u128)> = Vec::new();
    let mut n: usize = 0;
    while n < s.source_id_remaps.len()
        invariant
            n <= s.source_id_remaps@.len(),
            remaps@ == s.source_id_remaps@.take(n as int),
        decreases s.source_id_remaps@.len() - n,
    {
        remaps.push(s.source_id_remaps[n]);
        proof {
            assert(s.source_id_remaps@.take(n + 1) =~= s.source_id_remaps@.take(n as int).push(s.source_id_remaps@[n as int]));
        }
        n = n + 1;
    }
    proof {
        assert(sources_view(sources@) =~= sources_view(s.sources@));
        assert(items_model(items@) =~= items_model(s.memory_items@));
        assert(jobs@ =~= s.index_jobs@);
        assert(s.source_id_remaps@.take(n as int) =~= s.source_id_remaps@);
    }
    PersistedAuthoritativeState {
        sources,
        memory_items: items,
        index_jobs: jobs,
        source_id_remaps: remaps,
        migration_phase: s.migration_phase.clone(),
        snapshot_ready: s.snapshot_ready,
    }
}

/// First failing check of a migrated source row: `Err(true)` when its
/// external identifier is not a canonical URI, `Err(false)` when its
/// `system` block is not of the current canonical version or still carries
/// the legacy hash alias.
pub open spec fn source_check(s: PersistedSourceRecord) -> Result<(), bool> {
    if parsed_canonical_uri(vstd::utf8::encode_utf8(s.external_id@)) is None {
        Err(true)
    } else if system_str(s.source_metadata@, "canonical_id_version"@) != Some("v1"@) {
        Err(false)
    } else if system_has(s.source_metadata@, "canonical_payload_hash"@) {
        Err(false)
    } else {
        Ok(())
    }
}

/// The first failing source check, in row order.
pub open spec fn sources_check(s: Seq<PersistedSourceRecord>) -> Result<(), bool>
    decreases s.len(),
{
    if s.len() == 0 {
        Ok(())
    } else {
        match sources_check(s.drop_last()) {
            Err(b) => Err(b),
            Ok(()) => source_check(s.last()),
        }
    }
}

pub open spec fn has_source_id(s: Seq<PersistedSourceRecord>, id: u128) -> bool {
    exists|k: int| 0 <= k < s.len() && (#[trigger] s[k]).source_id == id
}

/// Every memory item and indexing job points at a stored source.
pub open spec fn references_resolve(
    s: Seq<PersistedSourceRecord>,
    items: Seq<PersistedMemoryItemRecord>,
    jobs: Seq<PersistedIndexJobRecord>,
) -> bool {
    &&& forall|k: int| 0 <= k < items.len() ==> has_source_id(s, (#[trigger] items[k]).source_id)
    &&& forall|k: int| 0 <= k < jobs.len() ==> has_source_id(s, (#[trigger] jobs[k]).source_id)
}

/// The target source identifiers of the lines that were not refused.
pub open spec fn expected_ids(rows: Seq<RowModel>) -> Set<u128> {
    Set::new(
        |id: u128|
            exists|j: int|
                0 <= j < rows.len() && (#[trigger] rows[j]).classification != MigrationClassification::Unmigratable
                    && rows[j].candidate_source_id == id,
    )
}

/// A line's seed and target identifier are the ones its canonical
/// identifier derives.
pub open spec fn row_reproducible(r: RowModel) -> bool {
    &&& r.seed == seed_text(r.canonical_id_version, r.candidate)
    &&& r.candidate_source_id == source_id_for(r.canonical_id_version, r.candidate)
}

/// Outcome of verifying a migrated store against the dry-run lines:
/// `Err(true)` for a non-canonical external identifier, `Err(false)` for
/// any other failed check.
pub open spec fn verification_outcome(
    s: Seq<PersistedSourceRecord>,
    items: Seq<PersistedMemoryItemRecord>,
    jobs: Seq<PersistedIndexJobRecord>,
    rows: Seq<RowModel>,
) -> Result<(), bool> {
    match sources_check(s) {
        Err(b) => Err(b),
        Ok(()) => if !references_resolve(s, items, jobs) || s.len() != expected_ids(rows).len() || !(forall|j: int|
            0 <= j < rows.len() ==> row_reproducible(#[trigger] rows[j])) {
            Err(false)
        } else {
            Ok(())
        },
    }
}

/// The error has this kind and carries this error code.
pub open spec fn coded_error(e: AppError, kind: ErrorKind, code: Seq<char>) -> bool {
    &&& e.kind == kind
    &&& e.code matches Some(c) && c@ == code
}

pub open spec fn verification_failed(e: AppError, non_canonical: bool) -> bool {
    if non_canonical {
        e.kind == ErrorKind::Validation
    } else {
        &&& e.kind == ErrorKind::Conflict
        &&& e.code matches Some(c) && c@ == "MIGRATION_VERIFICATION_FAILED"@
    }
}

fn verification_error(message: &str) -> (r: AppError)
    ensures
        verification_failed(r, false),
{
    proof {
        reveal_strlit("MIGRATION_VERIFICATION_FAILED");
    }
    AppError::conflict(message).with_error_code("MIGRATION_VERIFICATION_FAILED")
}

fn check_source(s: &PersistedSourceRecord) -> (r: AppResult<()>)
    ensures
        match source_check(*s) {
            Ok(()) => r is Ok,
            Err(b) => r matches Err(e) && verification_failed(e, b),
        },
{
    proof {
        reveal_strlit("canonical_id_version");
        reveal_strlit("canonical_payload_hash");
        reveal_strlit("v1");
    }
    match CanonicalSourceExternalId::parse_canonical_uri(s.external_id.as_str()) {
        Ok(_) => {},
        Err(e) => {
            return Err(e);
        },
    }
    let version_ok = match system_string(&s.source_metadata, "canonical_id_version") {
        Some(v) => str_eq(v.as_str(), "v1"),
        None => false,
    };
    if !version_ok {
        return Err(verification_error("source migration verification found a non-v1 canonical row"));
    }
    if system_contains(&s.source_metadata, "canonical_payload_hash") {
        return Err(
            verification_error("source migration verification found a legacy canonical_payload_hash alias"),
        );
    }
    Ok(())
}

fn has_source_id_exec(s: &Vec<PersistedSourceRecord>, id: u128) -> (r: bool)
    ensures
        r == has_source_id(s@, id),
{
    let mut k: usize = 0;
    while k < s.len()
        invariant
            k <= s@.len(),
            forall|m: int| 0 <= m < k ==> (#[trigger] s@[m]).source_id != id,
        decreases s@.len() - k,
    {
        if s[k].source_id == id {
            return true;
        }
        k = k + 1;
    }
    false
}

fn expected_id_count(rows: &Vec<MigrationRowReport>) -> (r: usize)
    ensures
        r == expected_ids(rows_view(rows@)).len(),
{
    let ghost rv = rows_view(rows@);
    let mut seen: Vec<u128> = Vec::new();
    let mut i: usize = 0;
    proof {
        assert(seen@.to_set() =~= Set::new(
            |id: u128|
                exists|j: int|
                    0 <= j < 0 && (#[trigger] rv[j]).classification != MigrationClassification::Unmigratable
                        && rv[j].candidate_source_id == id,
        ));
    }
    while i < rows.len()
        invariant
            i <= rows@.len(),
            rv == rows_view(rows@),
            seen@.len() <= i,
            seen@.no_duplicates(),
            seen@.to_set() == Set::new(
                |id: u128|
                    exists|j: int|
                        0 <= j < i && (#[trigger] rv[j]).classification != MigrationClassification::Unmigratable
                            && rv[j].candidate_source_id == id,
            ),
        decreases rows@.len() - i,
    {
        let row = &rows[i];
        proof {
            assert(rv[i as int] == row@);
        }
        let ghost before = seen@;
        let counted = row.classification != MigrationClassification::Unmigratable;
        let mut present = false;
        let mut k: usize = 0;
        while k < seen.len()
            invariant
                k <= seen@.len(),
                present == exists|m: int| 0 <= m < k && seen@[m] == row.candidate_source_id,
            decreases seen@.len() - k,
        {
            if seen[k] == row.candidate_source_id {
                present = true;
            }
            k = k + 1;
        }
        if counted && !present {
            seen.push(row.candidate_source_id);
            proof {
                assert(seen@[before.len() as int] == row.candidate_source_id);
            }
        }
        proof {
            let now = seen@;
            let upto_next = Set::new(
                |id: u128|
                    exists|j: int|
                        0 <= j < i + 1 && (#[trigger] rv[j]).classification != MigrationClassification::Unmigratable
                            && rv[j].candidate_source_id == id,
            );
            if counted {
                assert(now.contains(row.candidate_source_id));
            }
            assert forall|id: u128| before.contains(id) implies now.contains(id) by {
                let q = choose|q: int| 0 <= q < before.len() && before[q] == id;
                assert(now[q] == id);
            }
            assert forall|id: u128| now.to_set().contains(id) <==> upto_next.contains(id) by {
                if now.to_set().contains(id) {
                    if before.contains(id) {
                        assert(before.to_set().contains(id));
                        let j = choose|j: int|
                            0 <= j < i && (#[trigger] rv[j]).classification != MigrationClassification::Unmigratable
                                && rv[j].candidate_source_id == id;
                        assert(0 <= j < i + 1);
                    } else {
                        assert(rv[i as int].candidate_source_id == id);
                    }
                }
                if upto_next.contains(id) {
                    let j = choose|j: int|
                        0 <= j < i + 1 && (#[trigger] rv[j]).classification != MigrationClassification::Unmigratable
                            && rv[j].candidate_source_id == id;
                    if j < i {
                        assert(before.to_set().contains(id));
                    }
                }
            }
            assert(now.to_set() =~= upto_next);
        }
        i = i + 1;
    }
    proof {
        seen@.unique_seq_to_set();
        assert(seen@.to_set() =~= expected_ids(rv));
    }
    seen.len()
}

impl InMemorySourceMigration {
    pub fn new(state: PersistedAuthoritativeState) -> (r: InMemorySourceMigration)
        ensures
            r.state == state,
    {
        InMemorySourceMigration { state }
    }

    /// A copy of the whole store.
    pub fn snapshot(&self) -> (r: PersistedAuthoritativeState)
        ensures
            same_state(r, self.state),
    {
        copy_state(&self.state)
    }

    /// Restores a snapshot; the store returns to the steady-state phase.
    pub fn rollback(&mut self, snapshot: PersistedAuthoritativeState)
        ensures
            sources_view(final(self).state.sources@) == sources_view(snapshot.sources@),
            items_model(final(self).state.memory_items@) == items_model(snapshot.memory_items@),
            final(self).state.index_jobs@ == snapshot.index_jobs@,
            final(self).state.source_id_remaps@ == snapshot.source_id_remaps@,
            final(self).state.snapshot_ready == snapshot.snapshot_ready,
            final(self).state.migration_phase@ == "steady_state"@,
    {
        let mut restored = snapshot;
        restored.migration_phase = "steady_state".to_owned();
        self.state = restored;
    }

    /// Ends the migration: the steady-state phase, with no remaps left.
    pub fn complete_cutover(&mut self)
        ensures
            sources_view(final(self).state.sources@) == sources_view(old(self).state.sources@),
            items_model(final(self).state.memory_items@) == items_model(old(self).state.memory_items@),
            final(self).state.index_jobs@ == old(self).state.index_jobs@,
            final(self).state.source_id_remaps@.len() == 0,
            final(self).state.snapshot_ready == old(self).state.snapshot_ready,
            final(self).state.migration_phase@ == "steady_state"@,
    {
        self.state.migration_phase = "steady_state".to_owned();
        self.state.source_id_remaps = Vec::new();
    }

    /// The report of what a migration of the current store would do.
    pub fn dry_run(&self) -> (r: AppResult<MigrationDryRunReport>)
        ensures
            match planned_rows(
                self.state.sources@,
                self.state.memory_items@,
                self.state.index_jobs@,
                contents_json(self.state.memory_items@),
            ) {
                Ok(m) => r matches Ok(rep) && {
                    &&& rows_view(rep.rows@) == m
                    &&& rep.summary == summary_of(m, self.state.snapshot_ready)
                    &&& rep.migration_phase@ == "dry_run"@
                },
                Err(b) => r matches Err(e) && hash_failure(e, b),
            },
    {
        let rows = build_rows(&self.state.sources, &self.state.memory_items, &self.state.index_jobs)?;
        let summary = summarize_rows(&rows, self.state.snapshot_ready);
        Ok(MigrationDryRunReport { run_id: random_uuid(), migration_phase: "dry_run".to_owned(), summary, rows })
    }

    /// Runs the migration: refused without a restorable snapshot, or when
    /// the dry run reports a stop condition; otherwise the store is
    /// rewritten and the dry-run report returned.
    pub fn execute<G: IdGenerator>(&mut self, gen: &G) -> (r: AppResult<MigrationDryRunReport>)
        ensures
            !old(self).state.snapshot_ready ==> (r matches Err(e) && coded_error(
                e,
                ErrorKind::StorageUnavailable,
                "MIGRATION_BACKUP_GATE_FAILED"@,
            )),
            old(self).state.snapshot_ready ==> match planned_rows(
                old(self).state.sources@,
                old(self).state.memory_items@,
                old(self).state.index_jobs@,
                contents_json(old(self).state.memory_items@),
            ) {
                Err(b) => r matches Err(e) && hash_failure(e, b),
                Ok(m) => if summary_of(m, true).stop_required {
                    r matches Err(e) && coded_error(e, ErrorKind::Conflict, "MIGRATION_STOP_CONDITION"@)
                } else {
                    match rewrite_groups(
                        target_keys(m),
                        old(self).state.sources@,
                        m,
                        old(self).state.memory_items@,
                        old(self).state.index_jobs@,
                        *gen,
                    ) {
                        None => r matches Err(e) && e.kind == ErrorKind::Internal,
                        Some(a) => r matches Ok(rep) && rows_view(rep.rows@) == m && {
                            &&& sources_view(final(self).state.sources@) == a.sources
                            &&& items_model(final(self).state.memory_items@) == a.items
                            &&& final(self).state.index_jobs@ == a.jobs
                            &&& final(self).state.source_id_remaps@ == a.remaps
                            &&& final(self).state.migration_phase@ == "verification"@
                            &&& final(self).state.snapshot_ready
                        },
                    }
                },
            },
            r is Err ==> final(self).state == old(self).state,
    {
        proof {
            reveal_strlit("MIGRATION_BACKUP_GATE_FAILED");
            reveal_strlit("MIGRATION_STOP_CONDITION");
        }
        if !self.state.snapshot_ready {
            return Err(
                AppError::storage_unavailable("snapshot or backup gate failed before migration execution").with_error_code(
                    "MIGRATION_BACKUP_GATE_FAILED",
                ),
            );
        }
        let report = self.dry_run()?;
        if report.summary.stop_required {
            return Err(
                AppError::conflict("source migration dry-run reported stop conditions").with_error_code(
                    "MIGRATION_STOP_CONDITION",
                ),
            );
        }
        let next = rewrite_state(&self.state, &report.rows, gen)?;
        self.state = next;
        Ok(report)
    }

    /// Checks a migrated store against the dry-run report: every source has
    /// a canonical external identifier and a current `system` block, every
    /// memory item and job points at a stored source, there is one source
    /// per target of a line that was not refused, and every line's seed and
    /// target identifier are reproducible.
    #[verifier::loop_isolation(false)]
    pub fn verify(&self, report: &MigrationDryRunReport) -> (r: AppResult<MigrationVerificationReport>)
        ensures
            match verification_outcome(
                self.state.sources@,
                self.state.memory_items@,
                self.state.index_jobs@,
                rows_view(report.rows@),
            ) {
                Ok(()) => r matches Ok(v) && {
                    &&& v.verified
                    &&& v.migration_phase@ == self.state.migration_phase@
                    &&& v.canonical_row_count == self.state.sources@.len()
                    &&& v.remap_count == self.state.source_id_remaps@.len()
                },
                Err(b) => r matches Err(e) && verification_failed(e, b),
            },
    {
        let st = &self.state;
        let mut i: usize = 0;
        proof {
            assert(st.sources@.take(0) =~= Seq::<PersistedSourceRecord>::empty());
        }
        while i < st.sources.len()
            invariant
                i <= st.sources@.len(),
                sources_check(st.sources@.take(i as int)) == Ok::<(), bool>(()),
            decreases st.sources@.len() - i,
        {
            proof {
                assert(st.sources@.take(i + 1).drop_last() =~= st.sources@.take(i as int));
                assert(st.sources@.take(i + 1).last() == st.sources@[i as int]);
            }
            match check_source(&st.sources[i]) {
                Ok(()) => {},
                Err(e) => {
                    proof {
                        lemma_sources_check_err_persists(st.sources@, i + 1);
                    }
                    return Err(e);
                },
            }
            i = i + 1;
        }
        proof {
            assert(st.sources@.take(i as int) =~= st.sources@);
        }
        let mut j: usize = 0;
        while j < st.memory_items.len()
            invariant
                j <= st.memory_items@.len(),
                forall|k: int| 0 <= k < j ==> has_source_id(st.sources@, (#[trigger] st.memory_items@[k]).source_id),
            decreases st.memory_items@.len() - j,
        {
            if !has_source_id_exec(&st.sources, st.memory_items[j].source_id) {
                return Err(
                    verification_error("source migration verification found an unre-written memory_item reference"),
                );
            }
            j = j + 1;
        }
        let mut m: usize = 0;
        while m < st.index_jobs.len()
            invariant
                m <= st.index_jobs@.len(),
                forall|k: int| 0 <= k < m ==> has_source_id(st.sources@, (#[trigger] st.index_jobs@[k]).source_id),
            decreases st.index_jobs@.len() - m,
        {
            if !has_source_id_exec(&st.sources, st.index_jobs[m].source_id) {
                return Err(
                    verification_error(
                        "source migration verification found an unre-written memory_index_job reference",
                    ),
                );
            }
            m = m + 1;
        }
        let expected = expected_id_count(&report.rows);
        if st.sources.len() != expected {
            return Err(verification_error("source migration verification found a canonical row-count mismatch"));
        }
        let ghost rv = rows_view(report.rows@);
        let mut n: usize = 0;
        while n < report.rows.len()
            invariant
                n <= report.rows@.len(),
                rv == rows_view(report.rows@),
                forall|k: int| 0 <= k < n ==> row_reproducible(#[trigger] rv[k]),
            decreases report.rows@.len() - n,
        {
            let row = &report.rows[n];
            proof {
                assert(rv[n as int] == row@);
            }
            let seed = source_seed(row.canonical_id_version.as_str(), row.candidate_canonical_external_id.as_str());
            if !str_eq(row.candidate_source_seed.as_str(), seed.as_str()) || !verify_source_id(
                row.canonical_id_version.as_str(),
                row.candidate_canonical_external_id.as_str(),
                row.candidate_source_id,
            ) {
                return Err(
                    verification_error("source migration verification found a non-reproducible candidate_source_id"),
                );
            }
            n = n + 1;
        }
        Ok(
            MigrationVerificationReport {
                migration_phase: st.migration_phase.clone(),
                verified: true,
                canonical_row_count: st.sources.len(),
                remap_count: st.source_id_remaps.len(),
            },
        )
    }
}

proof fn lemma_sources_check_err_persists(s: Seq<PersistedSourceRecord>, k: int)
    requires
        0 <= k <= s.len(),
        sources_check(s.take(k)) is Err,
    ensures
        sources_check(s) == sources_check(s.take(k)),
    decreases s.len() - k,
{
    if k < s.len() {
        assert(s.take(k + 1).drop_last() =~= s.take(k));
        lemma_sources_check_err_persists(s, k + 1);
    } else {
        assert(s.take(k) =~= s);
    }
}

} // verus!
