use vstd::prelude::*;
use crate::domain::source_identity::uuid_string;
use crate::error::{AppError, AppResult, ErrorKind};
use crate::infra::indexer::{IndexingJob, OutboxStatus, ProjectionInput};
use crate::infra::records::{PersistedIndexJobRecord, clone_opt_string};

verus! {

/// Nanoseconds in one second.
pub const NANOS_PER_SECOND: u64 = 1_000_000_000;

/// Latest instant the time library represents (end of year 9999), in
/// nanoseconds since the Unix epoch.
pub const MAX_INSTANT_NANOS: i128 = 253_402_300_799_999_999_999;

/// Earliest instant the time library represents (start of year -9999), in
/// nanoseconds since the Unix epoch.
pub const MIN_INSTANT_NANOS: i128 = -377_705_116_800_000_000_000;

/// Longest duration (`u64::MAX` seconds and 999 999 999 nanoseconds).
pub const MAX_DURATION_NANOS: u128 = 18_446_744_073_709_551_615_999_999_999;

/// How the indexing worker retries failed jobs: how many retries, how long
/// to wait per retry (in nanoseconds), and how long to wait between polls of
/// an empty outbox.
#[derive(Debug, Clone, Copy, PartialEq, Eq, Structural)]
pub struct RetryPolicy {
    pub max_retries: u32,
    pub retry_delay_nanos: u64,
    pub poll_interval_nanos: u64,
}

impl Default for RetryPolicy {
    /// Three retries, five seconds apart; polls every 250 milliseconds.
    fn default() -> (r: RetryPolicy)
        ensures
            r.max_retries == 3,
            r.retry_delay_nanos == 5 * NANOS_PER_SECOND,
            r.poll_interval_nanos == 250_000_000,
    {
        RetryPolicy { max_retries: 3, retry_delay_nanos: 5 * NANOS_PER_SECOND, poll_interval_nanos: 250_000_000 }
    }
}

/// The wait before retry number `retry_count`: the retry delay times the
/// retry count (at least one), or the plain retry delay when that product
/// is longer than the longest duration.
pub open spec fn backoff_delay(retry_count: u32, retry_delay_nanos: u64) -> int {
    let factor: int = if retry_count == 0 { 1 } else { retry_count as int };
    let product = retry_delay_nanos * factor;
    if product > MAX_DURATION_NANOS {
        retry_delay_nanos as int
    } else {
        product
    }
}

/// The delay as it is added to an instant: whole seconds capped at
/// `i64::MAX`, plus the sub-second nanoseconds.
pub open spec fn added_delay(delay: int) -> int {
    let secs = delay / (NANOS_PER_SECOND as int);
    let capped = if secs > i64::MAX { i64::MAX as int } else { secs };
    capped * (NANOS_PER_SECOND as int) + delay % (NANOS_PER_SECOND as int)
}

/// When a job that failed for the `retry_count`-th time becomes available
/// again.
pub open spec fn backoff_instant(now: i128, retry_count: u32, retry_delay_nanos: u64) -> int {
    now + added_delay(backoff_delay(retry_count, retry_delay_nanos))
}

pub fn backoff_available_at(now: i128, retry_count: u32, retry_delay_nanos: u64) -> (r: i128)
    requires
        MIN_INSTANT_NANOS <= now,
        backoff_instant(now, retry_count, retry_delay_nanos) <= MAX_INSTANT_NANOS,
    ensures
        r == backoff_instant(now, retry_count, retry_delay_nanos),
{
    let factor: u128 = if retry_count == 0 {
        1
    } else {
        retry_count as u128
    };
    assert(retry_delay_nanos as u128 * factor <= 0xffff_ffff_ffff_ffffu128 * 0xffff_ffffu128) by (nonlinear_arith)
        requires
            factor <= 0xffff_ffffu128,
    ;
    let product: u128 = retry_delay_nanos as u128 * factor;
    let delay: u128 = if product > MAX_DURATION_NANOS {
        retry_delay_nanos as u128
    } else {
        product
    };
    let secs: u128 = delay / (NANOS_PER_SECOND as u128);
    let sub: u128 = delay % (NANOS_PER_SECOND as u128);
    let capped: u128 = if secs > 0x7fff_ffff_ffff_ffffu128 {
        0x7fff_ffff_ffff_ffffu128
    } else {
        secs
    };
    assert(capped * 1_000_000_000u128 <= 0x7fff_ffff_ffff_ffffu128 * 1_000_000_000u128) by (nonlinear_arith)
        requires
            capped <= 0x7fff_ffff_ffff_ffffu128,
    ;
    let added: u128 = capped * (NANOS_PER_SECOND as u128) + sub;
    proof {
        assert(added == added_delay(backoff_delay(retry_count, retry_delay_nanos)));
    }
    now + added as i128
}

/// Whether a retry after `retry_count` failures can be scheduled: `now` and
/// the backoff instant both lie in the range the time library represents.
pub fn backoff_fits(now: i128, retry_count: u32, retry_delay_nanos: u64) -> (r: bool)
    ensures
        r == (MIN_INSTANT_NANOS <= now && backoff_instant(now, retry_count, retry_delay_nanos) <= MAX_INSTANT_NANOS),
{
    if now < MIN_INSTANT_NANOS || now > MAX_INSTANT_NANOS {
        return false;
    }
    let factor: u128 = if retry_count == 0 {
        1
    } else {
        retry_count as u128
    };
    assert(retry_delay_nanos as u128 * factor <= 0xffff_ffff_ffff_ffffu128 * 0xffff_ffffu128) by (nonlinear_arith)
        requires
            factor <= 0xffff_ffffu128,
    ;
    let product: u128 = retry_delay_nanos as u128 * factor;
    let delay: u128 = if product > MAX_DURATION_NANOS {
        retry_delay_nanos as u128
    } else {
        product
    };
    let secs: u128 = delay / (NANOS_PER_SECOND as u128);
    let sub: u128 = delay % (NANOS_PER_SECOND as u128);
    let capped: u128 = if secs > 0x7fff_ffff_ffff_ffffu128 {
        0x7fff_ffff_ffff_ffffu128
    } else {
        secs
    };
    assert(capped * 1_000_000_000u128 <= 0x7fff_ffff_ffff_ffffu128 * 1_000_000_000u128) by (nonlinear_arith)
        requires
            capped <= 0x7fff_ffff_ffff_ffffu128,
    ;
    let added: u128 = capped * (NANOS_PER_SECOND as u128) + sub;
    proof {
        assert(added == added_delay(backoff_delay(retry_count, retry_delay_nanos)));
    }
    now + (added as i128) <= MAX_INSTANT_NANOS
}

/// A job after its projection was written: completed, with no error, and
/// available at once.
pub fn complete_job(job: &mut IndexingJob, now: i128)
    ensures
        final(job).status == OutboxStatus::Completed,
        final(job).last_error.is_none(),
        final(job).updated_at == now,
        final(job).available_at == now,
        final(job).job_id == old(job).job_id,
        final(job).source_id == old(job).source_id,
        final(job).retry_count == old(job).retry_count,
        final(job).created_at == old(job).created_at,
{
    job.status = OutboxStatus::Completed;
    job.last_error = None;
    job.updated_at = now;
    job.available_at = now;
}

/// A failure is final when the retries are used up, or when the error is
/// one that no retry can mend (a missing source, an internal error).
pub open spec fn failure_is_final(next_retry_count: int, kind: ErrorKind, policy: RetryPolicy) -> bool {
    next_retry_count > policy.max_retries || kind == ErrorKind::NotFound || kind == ErrorKind::Internal
}

/// Whether `transition_failure` can record this failure: the retry counter
/// is not full, `now` is a representable instant and, when the failure is
/// not final, the backoff instant is representable too.
pub fn failure_transition_allowed(job: &IndexingJob, now: i128, error: &AppError, policy: &RetryPolicy) -> (r: bool)
    ensures
        r == (job.retry_count < u32::MAX && MIN_INSTANT_NANOS <= now && (!failure_is_final(
            job.retry_count + 1,
            error.kind,
            *policy,
        ) ==> backoff_instant(now, (job.retry_count + 1) as u32, policy.retry_delay_nanos) <= MAX_INSTANT_NANOS)),
{
    if job.retry_count == u32::MAX || now < MIN_INSTANT_NANOS {
        return false;
    }
    let next = job.retry_count + 1;
    let is_final = next > policy.max_retries || error.kind == ErrorKind::NotFound || error.kind == ErrorKind::Internal;
    if is_final {
        true
    } else {
        backoff_fits(now, next, policy.retry_delay_nanos)
    }
}

/// A job after a failed attempt: one more retry counted and the error
/// recorded; dead-lettered at once when the failure is final, otherwise
/// retryable after the backoff.
pub fn transition_failure(job: &mut IndexingJob, now: i128, error: &AppError, policy: &RetryPolicy)
    requires
        old(job).retry_count < u32::MAX,
        MIN_INSTANT_NANOS <= now,
        !failure_is_final(old(job).retry_count + 1, error.kind, *policy) ==> backoff_instant(
            now,
            (old(job).retry_count + 1) as u32,
            policy.retry_delay_nanos,
        ) <= MAX_INSTANT_NANOS,
    ensures
        final(job).retry_count == old(job).retry_count + 1,
        final(job).last_error matches Some(m) && m@ == error.message@,
        final(job).updated_at == now,
        final(job).job_id == old(job).job_id,
        final(job).source_id == old(job).source_id,
        final(job).created_at == old(job).created_at,
        failure_is_final(final(job).retry_count as int, error.kind, *policy) ==> final(job).status == OutboxStatus::DeadLetter
            && final(job).available_at == now,
        !failure_is_final(final(job).retry_count as int, error.kind, *policy) ==> final(job).status == OutboxStatus::Retryable
            && final(job).available_at == backoff_instant(now, final(job).retry_count, policy.retry_delay_nanos),
        old(job).retry_count + 1 <= policy.max_retries && error.kind != ErrorKind::NotFound && error.kind
            != ErrorKind::Internal ==> final(job).status == OutboxStatus::Retryable && final(job).available_at
            == backoff_instant(now, final(job).retry_count, policy.retry_delay_nanos),
        old(job).retry_count + 1 > policy.max_retries || error.kind == ErrorKind::NotFound || error.kind
            == ErrorKind::Internal ==> final(job).status == OutboxStatus::DeadLetter && final(job).available_at == now,
{
    let next_retry_count = job.retry_count + 1;
    job.retry_count = next_retry_count;
    job.last_error = Some(error.message.clone());
    job.updated_at = now;
    if next_retry_count > policy.max_retries || error.kind == ErrorKind::NotFound || error.kind == ErrorKind::Internal {
        job.status = OutboxStatus::DeadLetter;
        job.available_at = now;
    } else {
        job.status = OutboxStatus::Retryable;
        job.available_at = backoff_available_at(now, next_retry_count, policy.retry_delay_nanos);
    }
}

/// What one iteration of the indexing worker reports.
#[derive(Debug, Clone, Copy, PartialEq, Eq, Structural)]
pub struct IndexingIterationResult {
    pub source_id: u128,
    pub job_id: u128,
    pub status: OutboxStatus,
    pub retry_count: u32,
}

pub fn iteration_result(job: &IndexingJob) -> (r: IndexingIterationResult)
    ensures
        r.source_id == job.source_id,
        r.job_id == job.job_id,
        r.status == job.status,
        r.retry_count == job.retry_count,
{
    IndexingIterationResult {
        source_id: job.source_id,
        job_id: job.job_id,
        status: job.status,
        retry_count: job.retry_count,
    }
}

/// A source must yield at least one projection input to be indexed; an
/// empty set is an internal error.
pub fn require_projection_inputs(source_id: u128, inputs: &Vec<ProjectionInput>) -> (r: AppResult<()>)
    ensures
        r is Ok <==> inputs@.len() > 0,
        r matches Err(e) ==> e.kind == ErrorKind::Internal,
{
    if inputs.len() == 0 {
        let mut message = "source '".to_owned();
        let id = uuid_string(source_id);
        message.append(id.as_str());
        message.append("' produced no projection inputs");
        return Err(AppError::internal(message.as_str()));
    }
    Ok(())
}

/// The stored row of an outbox job.
pub fn job_to_record(job: &IndexingJob) -> (r: PersistedIndexJobRecord)
    ensures
        r.job_id == job.job_id,
        r.source_id == job.source_id,
        r.status@ == job.status.name(),
        r.retry_count == job.retry_count,
        r.last_error == job.last_error,
        r.available_at == job.available_at,
        r.created_at == job.created_at,
        r.updated_at == job.updated_at,
{
    PersistedIndexJobRecord {
        job_id: job.job_id,
        source_id: job.source_id,
        status: job.status.as_str().to_owned(),
        retry_count: job.retry_count,
        last_error: clone_opt_string(&job.last_error),
        available_at: job.available_at,
        created_at: job.created_at,
        updated_at: job.updated_at,
    }
}

/// The outbox job of a stored row; an unknown status reads as retryable.
pub fn job_from_record(record: &PersistedIndexJobRecord) -> (r: IndexingJob)
    ensures
        r.job_id == record.job_id,
        r.source_id == record.source_id,
        r.status == match OutboxStatus::named(record.status@) {
            Some(s) => s,
            None => OutboxStatus::Retryable,
        },
        r.retry_count == record.retry_count,
        r.last_error == record.last_error,
        r.available_at == record.available_at,
        r.created_at == record.created_at,
        r.updated_at == record.updated_at,
{
    let status = match OutboxStatus::from_str(record.status.as_str()) {
        Some(s) => s,
        None => OutboxStatus::Retryable,
    };
    IndexingJob {
        job_id: record.job_id,
        source_id: record.source_id,
        status,
        retry_count: record.retry_count,
        last_error: clone_opt_string(&record.last_error),
        available_at: record.available_at,
        created_at: record.created_at,
        updated_at: record.updated_at,
    }
}

/// When a failure is final: the retries are used up, or the source is gone
/// (`NotFound`) or the failure is internal. Every other failure with a
/// retry left (a timeout, a degraded search, an unavailable store, ...)
/// is retried.
pub proof fn lemma_final_failures(next_retry_count: int, kind: ErrorKind, policy: RetryPolicy)
    ensures
        failure_is_final(next_retry_count, kind, policy) <==> (next_retry_count > policy.max_retries || kind
            == ErrorKind::NotFound || kind == ErrorKind::Internal),
        next_retry_count <= policy.max_retries && kind != ErrorKind::NotFound && kind != ErrorKind::Internal
            ==> !failure_is_final(next_retry_count, kind, policy),
{
}

/// The backoff before a retry is the retry delay times the number of
/// failures so far (at least one) as long as that product is a
/// representable duration: the first retry waits exactly one delay, the
/// second two, and so on.
pub proof fn lemma_backoff_is_linear(now: i128, retry_count: u32, retry_delay_nanos: u64)
    requires
        retry_delay_nanos * (if retry_count == 0 { 1int } else { retry_count as int }) <= i64::MAX,
    ensures
        backoff_instant(now, retry_count, retry_delay_nanos) == now + retry_delay_nanos * (if retry_count == 0 {
            1int
        } else {
            retry_count as int
        }),
{
    let x: int = retry_delay_nanos * (if retry_count == 0 { 1int } else { retry_count as int });
    assert(x >= 0) by (nonlinear_arith)
        requires
            x == retry_delay_nanos * (if retry_count == 0 { 1int } else { retry_count as int }),
    ;
    assert(backoff_delay(retry_count, retry_delay_nanos) == x);
    vstd::arithmetic::div_mod::lemma_fundamental_div_mod(x, NANOS_PER_SECOND as int);
    assert(x / (NANOS_PER_SECOND as int) <= i64::MAX) by (nonlinear_arith)
        requires
            0 <= x <= i64::MAX,
    ;
}

} // verus!
