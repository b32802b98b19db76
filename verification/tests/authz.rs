use oma_id::authz::{authorize, Consumer, Denial, Operation, Request, VerifiedLease};

const OPS: &[Operation] = &[Operation::Login, Operation::Unlock];

fn lease() -> VerifiedLease<'static> {
    VerifiedLease {
        subject_id: "person-1",
        device_id: "device-1",
        not_before: 1_000,
        expires_at: 2_000,
        revocation_epoch: 7,
        operations: OPS,
    }
}

fn request() -> Request<'static> {
    Request {
        subject_id: "person-1",
        device_id: "device-1",
        consumer: Consumer::Quickshell,
        operation: Operation::Unlock,
        now: 1_500,
        trusted_time_floor: 1_400,
        minimum_revocation_epoch: 7,
    }
}

#[test]
fn permits_a_bound_unexpired_operation() {
    assert_eq!(authorize(&lease(), &request()), Ok(()));
}

#[test]
fn denies_wrong_subject_and_device() {
    let mut candidate = request();
    candidate.subject_id = "person-2";
    assert_eq!(authorize(&lease(), &candidate), Err(Denial::SubjectMismatch));
    candidate = request();
    candidate.device_id = "device-2";
    assert_eq!(authorize(&lease(), &candidate), Err(Denial::DeviceMismatch));
}

#[test]
fn denies_time_boundary_and_clock_rollback() {
    let mut candidate = request();
    candidate.now = 999;
    candidate.trusted_time_floor = 900;
    assert_eq!(authorize(&lease(), &candidate), Err(Denial::NotYetValid));
    candidate = request();
    candidate.now = 2_000;
    assert_eq!(authorize(&lease(), &candidate), Err(Denial::Expired));
    candidate = request();
    candidate.now = 1_399;
    assert_eq!(authorize(&lease(), &candidate), Err(Denial::ClockRollback));
}

#[test]
fn denies_stale_epoch_and_ungranted_operation() {
    let mut candidate = request();
    candidate.minimum_revocation_epoch = 8;
    assert_eq!(authorize(&lease(), &candidate), Err(Denial::StaleRevocationEpoch));
    candidate = request();
    candidate.operation = Operation::Elevate;
    assert_eq!(authorize(&lease(), &candidate), Err(Denial::OperationNotAuthorized));
}

#[test]
fn validity_window_is_half_open() {
    // not_before is inside the window, expires_at is not.
    let mut candidate = request();
    candidate.now = 1_000;
    candidate.trusted_time_floor = 1_000;
    assert_eq!(authorize(&lease(), &candidate), Ok(()));
    candidate.now = 1_999;
    assert_eq!(authorize(&lease(), &candidate), Ok(()));
    candidate.now = 2_000;
    assert_eq!(authorize(&lease(), &candidate), Err(Denial::Expired));
}

#[test]
fn subject_mismatch_is_reported_before_later_checks() {
    let mut candidate = request();
    candidate.subject_id = "person-2";
    candidate.device_id = "device-2";
    candidate.now = 5_000;
    candidate.operation = Operation::Elevate;
    assert_eq!(authorize(&lease(), &candidate), Err(Denial::SubjectMismatch));
}
