use cyberscope::jobs::manager::{JobKind, JobStartError, JobStatus, JobTable};

#[test]
fn enforces_global_slot_and_cleans_up_on_drop() {
    let mut table = JobTable::new(1);
    let first = table.try_start(1, JobKind::Search, 10, 0).unwrap();
    assert_eq!(
        table.try_start(2, JobKind::Search, 11, 0).err().unwrap(),
        JobStartError::GloballyBusy
    );

    table.release(first.user_id, first.id);
    assert!(table.snapshot(1).is_none());
    assert!(table.try_start(2, JobKind::Search, 12, 0).is_ok());
}

#[test]
fn prevents_duplicate_user_task() {
    let mut table = JobTable::new(2);
    let _first = table.try_start(1, JobKind::Search, 10, 0).unwrap();
    assert_eq!(
        table.try_start(1, JobKind::Batch, 11, 0).err().unwrap(),
        JobStartError::UserBusy
    );
}

#[test]
fn cancellation_updates_status_and_token() {
    let mut table = JobTable::new(1);
    let job = table.try_start(1, JobKind::Search, 10, 0).unwrap();
    assert_eq!(job.status, JobStatus::Queued);
    // `true` tells the caller to fire the job's cancellation token.
    assert!(table.cancel(1));
    assert_eq!(table.snapshot(1).unwrap().status, JobStatus::Cancelling);
    assert_eq!(table.snapshot_by_id(10).unwrap().status, JobStatus::Cancelling);
}

#[test]
fn finished_jobs_cannot_be_cancelled() {
    let mut table = JobTable::new(1);
    let job = table.try_start(1, JobKind::Batch, 10, 0).unwrap();
    table.set_status(job.user_id, job.id, JobStatus::Completed);
    assert!(!table.cancel(1));
    assert!(!table.cancel_by_id(99));
    assert_eq!(table.snapshot(1).unwrap().status, JobStatus::Completed);
}

#[test]
fn a_stale_lease_does_not_release_a_newer_job() {
    let mut table = JobTable::new(1);
    let job = table.try_start(1, JobKind::Search, 10, 0).unwrap();
    table.release(job.user_id, 99);
    assert!(table.snapshot(1).is_some());
}
