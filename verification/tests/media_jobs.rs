use localstream_core::media_jobs::{
    check_config, work_outcome, MediaJobConfig, MediaJobFailureKind, MediaJobId, MediaJobKey,
    MediaJobLedger, MediaJobOutputError, MediaJobStartError, MediaJobState, MediaJobSubmitError,
    SubmitDisposition,
};

fn key(text: &str) -> MediaJobKey {
    MediaJobKey::new(text.to_owned()).expect("key should be valid")
}

#[test]
fn keys_are_one_to_five_hundred_twelve_bytes() {
    assert_eq!(MediaJobKey::new(String::new()).err(), Some(MediaJobSubmitError::InvalidKey));
    assert_eq!(MediaJobKey::new("x".repeat(513)).err(), Some(MediaJobSubmitError::InvalidKey));
    assert_eq!(MediaJobKey::new("é".repeat(257)).err(), Some(MediaJobSubmitError::InvalidKey));
    assert_eq!(MediaJobKey::new("x".repeat(512)).map(|k| k.as_str().len()), Ok(512));
}

#[test]
fn deduplicates_active_work_and_enforces_the_quota() {
    let mut ledger = MediaJobLedger::new(100);
    assert_eq!(
        ledger.submit_with_id(key("a"), 0, MediaJobId(1)).err(),
        Some(MediaJobSubmitError::InvalidReservation)
    );
    assert_eq!(
        ledger.submit_with_id(key("a"), 101, MediaJobId(1)).err(),
        Some(MediaJobSubmitError::InvalidReservation)
    );
    let first = ledger.submit_with_id(key("same-transform"), 60, MediaJobId(1)).unwrap();
    assert_eq!(first.disposition, SubmitDisposition::Admitted);
    let second = ledger.submit_with_id(key("same-transform"), 60, MediaJobId(2)).unwrap();
    assert_eq!(second.disposition, SubmitDisposition::Deduplicated);
    assert_eq!(second.id, first.id);
    assert_eq!(
        ledger.submit_with_id(key("other"), 41, MediaJobId(3)).err(),
        Some(MediaJobSubmitError::TemporaryQuotaExceeded)
    );
    assert_eq!(
        ledger.submit_with_id(key("other"), 40, MediaJobId(1)).err(),
        Some(MediaJobSubmitError::Unavailable)
    );
    let third = ledger.submit_with_id(key("other"), 40, MediaJobId(3)).unwrap();
    assert_eq!(third.disposition, SubmitDisposition::Admitted);
    ledger.remove(MediaJobId(3));
    assert!(ledger.snapshot(MediaJobId(3)).is_none());
    let again = ledger.submit(key("other"), 40).unwrap();
    assert_eq!(again.disposition, SubmitDisposition::Admitted);
}

#[test]
fn runs_completes_and_releases_jobs() {
    let mut ledger = MediaJobLedger::new(100);
    let id = ledger.submit_with_id(key("job"), 50, MediaJobId(7)).unwrap().id;
    let queued = ledger.snapshot(id).unwrap();
    assert_eq!(queued.state, MediaJobState::Queued);
    assert_eq!(queued.progress_permille, 0);
    assert!(!ledger.release(id));
    assert_eq!(ledger.output_status(id), Err(MediaJobOutputError::NotReady));
    assert!(ledger.begin(id));
    ledger.set_permille(id, 5000);
    assert_eq!(ledger.snapshot(id).unwrap().progress_permille, 999);
    assert_eq!(ledger.finish(id, Ok(())), Some(MediaJobState::Completed));
    let done = ledger.snapshot(id).unwrap();
    assert_eq!(done.state, MediaJobState::Completed);
    assert_eq!(done.progress_permille, 1000);
    assert_eq!(ledger.output_status(id), Ok(()));
    ledger.set_permille(id, 10);
    assert_eq!(ledger.snapshot(id).unwrap().progress_permille, 1000);
    let next = ledger.submit_with_id(key("job"), 50, MediaJobId(8)).unwrap();
    assert_eq!(next.disposition, SubmitDisposition::Admitted);
    assert!(ledger.release(id));
    assert!(ledger.snapshot(id).is_none());
    assert_eq!(ledger.output_status(id), Err(MediaJobOutputError::UnknownJob));
    assert!(!ledger.release(id));
}

#[test]
fn cancelled_work_never_runs_and_frees_its_key() {
    let mut ledger = MediaJobLedger::new(100);
    let id = ledger.submit_with_id(key("cancel-me"), 10, MediaJobId(1)).unwrap().id;
    assert!(ledger.cancel(id));
    assert!(!ledger.begin(id));
    assert_eq!(ledger.snapshot(id).unwrap().state, MediaJobState::Cancelled);
    assert!(!ledger.cancel(id));
    let again = ledger.submit_with_id(key("cancel-me"), 10, MediaJobId(2)).unwrap();
    assert_eq!(again.disposition, SubmitDisposition::Admitted);
    assert!(ledger.begin(again.id));
    assert!(ledger.cancel(again.id));
    assert_eq!(
        ledger.finish(again.id, Ok(())),
        Some(MediaJobState::Cancelled)
    );
    assert!(ledger.release(again.id));
    assert!(!ledger.cancel(MediaJobId(99)));
}

#[test]
fn failed_work_reports_its_failure() {
    let mut ledger = MediaJobLedger::new(100);
    let id = ledger.submit_with_id(key("fail"), 10, MediaJobId(1)).unwrap().id;
    assert!(ledger.begin(id));
    let outcome = work_outcome(true, true, false, Some(11), 10);
    assert_eq!(outcome, Err(MediaJobFailureKind::TemporaryQuotaExceeded));
    assert_eq!(ledger.finish(id, outcome), Some(MediaJobState::Failed));
    let snapshot = ledger.snapshot(id).unwrap();
    assert_eq!(snapshot.failure, Some(MediaJobFailureKind::TemporaryQuotaExceeded));
    assert_eq!(work_outcome(false, true, false, Some(1), 10), Err(MediaJobFailureKind::TemporaryStorageUnavailable));
    assert_eq!(work_outcome(true, false, false, Some(1), 10), Err(MediaJobFailureKind::Transform));
    assert_eq!(work_outcome(true, true, true, Some(1), 10), Err(MediaJobFailureKind::Transform));
    assert_eq!(work_outcome(true, true, false, None, 10), Err(MediaJobFailureKind::TemporaryStorageUnavailable));
    assert_eq!(work_outcome(true, true, false, Some(10), 10), Ok(()));
}

#[test]
fn configuration_limits_must_be_positive() {
    let config = |concurrent, queued, quota| MediaJobConfig {
        work_root: std::path::PathBuf::from("work"),
        max_concurrent: concurrent,
        max_queued: queued,
        temporary_byte_quota: quota,
    };
    assert!(matches!(check_config(&config(0, 1, 1)), Err(MediaJobStartError::InvalidConfiguration)));
    assert!(matches!(check_config(&config(1, 0, 1)), Err(MediaJobStartError::InvalidConfiguration)));
    assert!(matches!(check_config(&config(1, 1, 0)), Err(MediaJobStartError::InvalidConfiguration)));
    assert!(check_config(&config(1, 1, 1)).is_ok());
}

#[test]
fn opens_only_completed_single_component_output_names() {
    let mut ledger = MediaJobLedger::new(10);
    let id = ledger.submit_with_id(key("output"), 1, MediaJobId(1)).unwrap().id;
    assert_eq!(ledger.check_output_request(id, "output.mp4"), Err(MediaJobOutputError::NotReady));
    assert!(ledger.begin(id));
    ledger.finish(id, Ok(()));
    assert_eq!(ledger.check_output_request(id, "output.mp4"), Ok(()));
    assert_eq!(ledger.check_output_request(id, "media/output.mp4"), Err(MediaJobOutputError::InvalidName));
    assert_eq!(ledger.check_output_request(id, "../outside"), Err(MediaJobOutputError::InvalidName));
    assert_eq!(ledger.check_output_request(id, ".."), Err(MediaJobOutputError::InvalidName));
    assert_eq!(ledger.check_output_request(id, ""), Err(MediaJobOutputError::InvalidName));
    assert_eq!(ledger.check_output_request(MediaJobId(2), "output.mp4"), Err(MediaJobOutputError::UnknownJob));
}

#[test]
fn submitted_jobs_get_distinct_random_version_four_ids() {
    let mut ledger = MediaJobLedger::new(100);
    let first = ledger.submit(key("first"), 10).expect("first job should be admitted");
    let second = ledger.submit(key("second"), 10).expect("second job should be admitted");
    assert_eq!(first.disposition, SubmitDisposition::Admitted);
    assert_ne!(first.id, second.id);
    assert_eq!((first.id.0 >> 76) & 0xf, 4);
    let again = ledger.submit(key("first"), 10).expect("active work should be shared");
    assert_eq!(again.id, first.id);
    assert_eq!(again.disposition, SubmitDisposition::Deduplicated);
    assert_eq!(ledger.submit(key("third"), 0).err(), Some(MediaJobSubmitError::InvalidReservation));
}
