use mod_memory::application::indexing::{
    backoff_available_at, complete_job, iteration_result, job_from_record, job_to_record, require_projection_inputs,
    transition_failure, RetryPolicy,
};
use mod_memory::error::{AppError, ErrorKind};
use mod_memory::infra::indexer::{
    derive_public_indexing_status, IndexingJob, OutboxOnlyIndexer, OutboxStatus, PublicIndexingStatus,
};

const SECOND: i128 = 1_000_000_000;

fn job(retry_count: u32) -> IndexingJob {
    IndexingJob {
        job_id: 1,
        source_id: 2,
        status: OutboxStatus::Processing,
        retry_count,
        last_error: None,
        available_at: 0,
        created_at: 0,
        updated_at: 0,
    }
}

#[test]
fn the_default_policy_retries_three_times_five_seconds_apart() {
    let policy = RetryPolicy::default();
    assert_eq!(policy.max_retries, 3);
    assert_eq!(policy.retry_delay_nanos, 5_000_000_000);
    assert_eq!(policy.poll_interval_nanos, 250_000_000);
}

#[test]
fn backoff_grows_with_the_retry_count() {
    assert_eq!(backoff_available_at(100, 0, 5_000_000_000), 100 + 5 * SECOND);
    assert_eq!(backoff_available_at(100, 1, 5_000_000_000), 100 + 5 * SECOND);
    assert_eq!(backoff_available_at(100, 3, 5_000_000_000), 100 + 15 * SECOND);
    assert_eq!(backoff_available_at(0, 2, 1_500_000_001), 3_000_000_002);
}

#[test]
fn transient_failures_become_retryable_after_backoff() {
    let policy = RetryPolicy::default();
    let mut j = job(0);
    transition_failure(&mut j, 7 * SECOND, &AppError::new(ErrorKind::SearchDegraded, "down"), &policy);
    assert_eq!(j.status, OutboxStatus::Retryable);
    assert_eq!(j.retry_count, 1);
    assert_eq!(j.last_error.as_deref(), Some("down"));
    assert_eq!(j.updated_at, 7 * SECOND);
    assert_eq!(j.available_at, 12 * SECOND);
}

#[test]
fn exhausted_or_permanent_failures_are_dead_lettered() {
    let policy = RetryPolicy::default();
    let mut exhausted = job(3);
    transition_failure(&mut exhausted, 9, &AppError::new(ErrorKind::Timeout, "slow"), &policy);
    assert_eq!(exhausted.status, OutboxStatus::DeadLetter);
    assert_eq!(exhausted.retry_count, 4);
    assert_eq!(exhausted.available_at, 9);

    let mut missing = job(0);
    transition_failure(&mut missing, 9, &AppError::not_found("gone"), &policy);
    assert_eq!(missing.status, OutboxStatus::DeadLetter);

    let mut internal = job(0);
    transition_failure(&mut internal, 9, &AppError::internal("bug"), &policy);
    assert_eq!(internal.status, OutboxStatus::DeadLetter);
}

#[test]
fn completed_jobs_clear_their_error() {
    let mut j = job(2);
    j.last_error = Some("earlier".to_owned());
    complete_job(&mut j, 42);
    assert_eq!(j.status, OutboxStatus::Completed);
    assert!(j.last_error.is_none());
    assert_eq!(j.available_at, 42);
    assert_eq!(j.retry_count, 2);
    let r = iteration_result(&j);
    assert_eq!((r.source_id, r.job_id, r.status, r.retry_count), (2, 1, OutboxStatus::Completed, 2));
}

#[test]
fn public_status_hides_internal_states() {
    assert_eq!(derive_public_indexing_status(Some(OutboxStatus::Pending), true), PublicIndexingStatus::Queued);
    assert_eq!(derive_public_indexing_status(Some(OutboxStatus::Processing), true), PublicIndexingStatus::Queued);
    assert_eq!(derive_public_indexing_status(None, true), PublicIndexingStatus::Queued);
    assert_eq!(derive_public_indexing_status(Some(OutboxStatus::Completed), true), PublicIndexingStatus::Indexed);
    assert_eq!(derive_public_indexing_status(Some(OutboxStatus::Retryable), true), PublicIndexingStatus::Deferred);
    assert_eq!(derive_public_indexing_status(Some(OutboxStatus::DeadLetter), true), PublicIndexingStatus::Deferred);
    assert_eq!(derive_public_indexing_status(Some(OutboxStatus::Completed), false), PublicIndexingStatus::Deferred);
    assert_eq!(PublicIndexingStatus::Deferred.as_str(), "deferred");
}

#[test]
fn outbox_statuses_round_trip_through_their_names() {
    for status in [
        OutboxStatus::Pending,
        OutboxStatus::Processing,
        OutboxStatus::Retryable,
        OutboxStatus::Completed,
        OutboxStatus::DeadLetter,
    ] {
        assert_eq!(OutboxStatus::from_str(status.as_str()), Some(status));
    }
    assert_eq!(OutboxStatus::DeadLetter.as_str(), "dead_letter");
    assert_eq!(OutboxStatus::from_str("unknown"), None);
}

#[test]
fn stored_jobs_round_trip_and_unknown_statuses_read_as_retryable() {
    let mut j = job(1);
    j.last_error = Some("boom".to_owned());
    let record = job_to_record(&j);
    assert_eq!(record.status, "processing");
    let back = job_from_record(&record);
    assert_eq!(back.status, OutboxStatus::Processing);
    assert_eq!(back.last_error.as_deref(), Some("boom"));
    let mut odd = record;
    odd.status = "paused".to_owned();
    assert_eq!(job_from_record(&odd).status, OutboxStatus::Retryable);
}

#[test]
fn outbox_jobs_start_pending_and_report_search_availability() {
    let indexer = OutboxOnlyIndexer::new(true);
    let first = indexer.create_job(9, 100);
    let second = indexer.create_job(9, 100);
    assert_eq!(first.status, OutboxStatus::Pending);
    assert_eq!(first.retry_count, 0);
    assert_eq!(first.available_at, 100);
    assert_ne!(first.job_id, second.job_id);
    assert_eq!(indexer.registration_status(), PublicIndexingStatus::Queued);
    assert_eq!(OutboxOnlyIndexer::new(false).registration_status(), PublicIndexingStatus::Deferred);
}

#[test]
fn sources_without_projection_inputs_are_internal_errors() {
    let error = require_projection_inputs(5, &Vec::new()).expect_err("no inputs");
    assert_eq!(error.kind, ErrorKind::Internal);
    assert_eq!(error.message, "source '00000000-0000-0000-0000-000000000005' produced no projection inputs");
}
