use oma_id::authz::{Consumer as CoreConsumer, Operation as CoreOperation, VerifiedLease};
use oma_id::ipc::{
    AgentRequest, AuthorizationRequest, Consumer, Credential, CredentialExchangeRequest, Decision,
    DenialCode, Operation, PeerCredentials, PROTOCOL_VERSION,
};
use oma_id::service::{
    constant_time_eq, decide_authorization, decide_credential, respond, to_core_consumer,
    to_core_operation, ServiceConfig,
};
use oma_id::agent::active_service_lease;
use oma_id::store::{issuer_keypair, LeasePayload, SignedLease, Store, StoreFile, StoredLease};
use std::path::Path;

const NOW: u64 = 1_700_000_000;
const USER_UID: u32 = 1_000;

struct Bounds {
    not_before: u64,
    expires_at: u64,
    trusted_time_floor: u64,
    revocation_epoch: u64,
    minimum_revocation_epoch: u64,
}

impl Bounds {
    fn valid_around(current: u64) -> Self {
        Self {
            not_before: current - 60,
            expires_at: current + 3_600,
            trusted_time_floor: current - 60,
            revocation_epoch: 1,
            minimum_revocation_epoch: 1,
        }
    }

    fn expired(current: u64) -> Self {
        Self {
            not_before: current - 120,
            expires_at: current - 1,
            trusted_time_floor: current - 120,
            revocation_epoch: 1,
            minimum_revocation_epoch: 1,
        }
    }

    fn rolled_back_clock(current: u64) -> Self {
        Self {
            not_before: current - 3_600,
            expires_at: current + 3_600,
            trusted_time_floor: current + 3_600,
            revocation_epoch: 1,
            minimum_revocation_epoch: 1,
        }
    }

    fn stale_revocation_epoch(current: u64) -> Self {
        Self {
            not_before: current - 60,
            expires_at: current + 3_600,
            trusted_time_floor: current - 60,
            revocation_epoch: 1,
            minimum_revocation_epoch: 2,
        }
    }
}

const OPS: &[CoreOperation] = &[CoreOperation::Unlock];

fn config(bounds: Bounds) -> ServiceConfig<'static, fn(&str, &str) -> bool> {
    ServiceConfig {
        socket_path: Path::new("/run/oma-id/test.sock"),
        lease: VerifiedLease {
            subject_id: "person-1",
            device_id: "device-1",
            not_before: bounds.not_before,
            expires_at: bounds.expires_at,
            revocation_epoch: bounds.revocation_epoch,
            operations: OPS,
        },
        trusted_time_floor: bounds.trusted_time_floor,
        minimum_revocation_epoch: bounds.minimum_revocation_epoch,
        expected_credential: None,
        bound_local_username: None,
        credential_verifier: None,
    }
}

fn request(consumer: Consumer, operation: Operation) -> AuthorizationRequest {
    AuthorizationRequest {
        version: PROTOCOL_VERSION,
        request_id: [9; 16],
        local_username: "owner".to_owned(),
        consumer,
        operation,
    }
}

fn user_peer() -> PeerCredentials {
    PeerCredentials { pid: 4242, uid: USER_UID, gid: USER_UID }
}

#[test]
fn constant_time_eq_matches_only_equal_bytes() {
    assert!(constant_time_eq(b"s3cret", b"s3cret"));
    assert!(!constant_time_eq(b"s3cret", b"s3creT"));
    assert!(!constant_time_eq(b"s3cret", b"s3crets"));
    assert!(constant_time_eq(b"", b""));
}

#[test]
fn maps_every_ipc_consumer_and_operation() {
    for consumer in [
        Consumer::Sddm,
        Consumer::Quickshell,
        Consumer::Tty,
        Consumer::Sudo,
        Consumer::Polkit,
        Consumer::Ssh,
    ] {
        assert!(matches!(
            to_core_consumer(consumer),
            CoreConsumer::Sddm
                | CoreConsumer::Quickshell
                | CoreConsumer::Tty
                | CoreConsumer::Sudo
                | CoreConsumer::Polkit
                | CoreConsumer::Ssh
        ));
    }
    for operation in [Operation::Login, Operation::Unlock, Operation::Elevate, Operation::RemoteLogin] {
        assert!(matches!(
            to_core_operation(operation),
            CoreOperation::Login | CoreOperation::Unlock | CoreOperation::Elevate | CoreOperation::RemoteLogin
        ));
    }
}

#[test]
fn allows_same_user_quickshell_unlock() {
    let config = config(Bounds::valid_around(NOW));
    let decision = decide_authorization(
        &request(Consumer::Quickshell, Operation::Unlock),
        &user_peer(),
        &config,
        Some(USER_UID),
        NOW,
    );
    assert_eq!(decision, Decision::Allow);
}

#[test]
fn denies_unprivileged_consumer_for_non_root_peer() {
    let config = config(Bounds::valid_around(NOW));
    let decision = decide_authorization(
        &request(Consumer::Sddm, Operation::Login),
        &user_peer(),
        &config,
        Some(USER_UID),
        NOW,
    );
    assert_eq!(decision, Decision::Deny(DenialCode::NotAuthorized));
    let decision = decide_authorization(
        &request(Consumer::Quickshell, Operation::Login),
        &user_peer(),
        &config,
        Some(USER_UID),
        NOW,
    );
    assert_eq!(decision, Decision::Deny(DenialCode::NotAuthorized));
}

#[test]
fn denies_unknown_local_account_opaquely() {
    let config = config(Bounds::valid_around(NOW));
    let mut candidate = request(Consumer::Quickshell, Operation::Unlock);
    candidate.local_username = "definitely-not-an-oma-user".to_owned();
    // The account lookup finds nobody of that name.
    let decision = decide_authorization(&candidate, &user_peer(), &config, None, NOW);
    assert_eq!(decision, Decision::Deny(DenialCode::NotAuthorized));
}

#[test]
fn maps_lease_denials_to_opaque_not_authorized() {
    for bounds in [
        Bounds::expired(NOW),
        Bounds::rolled_back_clock(NOW),
        Bounds::stale_revocation_epoch(NOW),
    ] {
        let config = config(bounds);
        let decision = decide_authorization(
            &request(Consumer::Quickshell, Operation::Unlock),
            &user_peer(),
            &config,
            Some(USER_UID),
            NOW,
        );
        assert_eq!(decision, Decision::Deny(DenialCode::NotAuthorized));
    }
    // Elevate is not in the lease's operation set; root may ask for it.
    let config = config(Bounds::valid_around(NOW));
    let root = PeerCredentials { pid: 1, uid: 0, gid: 0 };
    let decision = decide_authorization(
        &request(Consumer::Sudo, Operation::Elevate),
        &root,
        &config,
        Some(USER_UID),
        NOW,
    );
    assert_eq!(decision, Decision::Deny(DenialCode::NotAuthorized));
}

#[test]
fn validation_failures_return_correlated_invalid_request() {
    let config = config(Bounds::valid_around(NOW));
    let mut bad_version = request(Consumer::Quickshell, Operation::Unlock);
    bad_version.version = 2;
    let response = respond(&AgentRequest::Authorization(bad_version.clone()), &user_peer(), &config, Some(USER_UID), NOW);
    assert_eq!(response.decision, Decision::Deny(DenialCode::InvalidRequest));
    assert_eq!(response.request_id, bad_version.request_id);

    let mut bad_name = request(Consumer::Quickshell, Operation::Unlock);
    bad_name.local_username = "Owner".to_owned();
    let response = respond(&AgentRequest::Authorization(bad_name.clone()), &user_peer(), &config, None, NOW);
    assert_eq!(response.decision, Decision::Deny(DenialCode::InvalidRequest));
    assert_eq!(response.request_id, bad_name.request_id);
}

#[test]
fn single_connection_handler_serves_one_exchange() {
    let config = config(Bounds::valid_around(NOW));
    let response = respond(
        &AgentRequest::Authorization(request(Consumer::Quickshell, Operation::Unlock)),
        &user_peer(),
        &config,
        Some(USER_UID),
        NOW,
    );
    assert_eq!(response.decision, Decision::Allow);
}

#[test]
fn bound_username_restricts_the_lease_to_one_account() {
    let mut config = config(Bounds::valid_around(NOW));
    config.bound_local_username = Some("someone-else");
    let decision = decide_authorization(
        &request(Consumer::Quickshell, Operation::Unlock),
        &user_peer(),
        &config,
        Some(USER_UID),
        NOW,
    );
    assert_eq!(decision, Decision::Deny(DenialCode::NotAuthorized));
    config.bound_local_username = Some("owner");
    let decision = decide_authorization(
        &request(Consumer::Quickshell, Operation::Unlock),
        &user_peer(),
        &config,
        Some(USER_UID),
        NOW,
    );
    assert_eq!(decision, Decision::Allow);
}

fn credential_request(password: &str) -> CredentialExchangeRequest {
    CredentialExchangeRequest {
        version: PROTOCOL_VERSION,
        request_id: [3; 16],
        local_username: "owner".to_owned(),
        consumer: Consumer::Quickshell,
        operation: Operation::Unlock,
        credential: Credential::Password(password.to_owned()),
    }
}

#[test]
fn credential_exchange_compares_the_configured_credential() {
    let mut config = config(Bounds::expired(NOW));
    // No credential configured: everything is denied.
    assert_eq!(
        decide_credential(&credential_request("p1nned-credential"), &user_peer(), &config, Some(USER_UID)),
        Decision::Deny(DenialCode::NotAuthorized)
    );
    config.expected_credential = Some("p1nned-credential");
    // The lease plays no part: an expired lease still lets a credential verify.
    assert_eq!(
        decide_credential(&credential_request("p1nned-credential"), &user_peer(), &config, Some(USER_UID)),
        Decision::Allow
    );
    assert_eq!(
        decide_credential(&credential_request("not-the-credential"), &user_peer(), &config, Some(USER_UID)),
        Decision::Deny(DenialCode::NotAuthorized)
    );
    assert_eq!(
        decide_credential(&credential_request("p1nned-credential"), &user_peer(), &config, None),
        Decision::Deny(DenialCode::NotAuthorized)
    );
}

fn accept_owner(user: &str, password: &str) -> bool {
    user == "owner" && password == "right"
}

const VERIFIER: fn(&str, &str) -> bool = accept_owner;

#[test]
fn credential_verifier_replaces_the_stand_in_credential() {
    let mut config = config(Bounds::valid_around(NOW));
    config.expected_credential = Some("right-but-ignored");
    config.credential_verifier = Some(&VERIFIER);
    assert_eq!(
        decide_credential(&credential_request("right"), &user_peer(), &config, Some(USER_UID)),
        Decision::Allow
    );
    assert_eq!(
        decide_credential(&credential_request("right-but-ignored"), &user_peer(), &config, Some(USER_UID)),
        Decision::Deny(DenialCode::NotAuthorized)
    );
}

#[test]
fn respond_echoes_the_correlation_id() {
    let config = config(Bounds::valid_around(NOW));
    let response = respond(
        &AgentRequest::Authorization(request(Consumer::Quickshell, Operation::Unlock)),
        &user_peer(),
        &config,
        Some(USER_UID),
        NOW,
    );
    assert_eq!(response.version, PROTOCOL_VERSION);
    assert_eq!(response.request_id, [9; 16]);
    assert_eq!(response.decision, Decision::Allow);
    let response = respond(
        &AgentRequest::CredentialExchange(credential_request("x")),
        &user_peer(),
        &config,
        Some(USER_UID),
        NOW,
    );
    assert_eq!(response.request_id, [3; 16]);
    assert_eq!(response.decision, Decision::Deny(DenialCode::NotAuthorized));
}

#[test]
fn signed_lease_store_authorizes_through_the_socket_path() {
    let (issuer, verifying) = issuer_keypair(&[32u8; 32]).expect("keypair");
    let mut store = Store::empty();
    let payload = LeasePayload {
        subject_id: "person-1".into(),
        device_id: "device-1".into(),
        not_before: NOW - 60,
        expires_at: NOW + 3_600,
        revocation_epoch: 16,
        operations: vec![CoreOperation::Unlock],
    };
    store.record(&SignedLease::sign(payload, &issuer), &verifying, NOW).expect("record signed lease");
    store.verify_all(&verifying).expect("signatures valid");
    let chosen = active_service_lease(&store, NOW).expect("active signed lease");
    let config: ServiceConfig<fn(&str, &str) -> bool> = ServiceConfig {
        socket_path: Path::new("/run/oma-id/test.sock"),
        lease: chosen.lease,
        trusted_time_floor: chosen.trusted_time_floor,
        minimum_revocation_epoch: store.high_water_revocation_epoch(),
        expected_credential: None,
        bound_local_username: None,
        credential_verifier: None,
    };
    let response = respond(
        &AgentRequest::Authorization(request(Consumer::Quickshell, Operation::Unlock)),
        &user_peer(),
        &config,
        Some(USER_UID),
        NOW,
    );
    match response.decision {
        Decision::Allow => {}
        other => panic!("expected Allow backed by the signed lease, got {other:?}"),
    }
}

#[test]
fn tampered_store_file_fails_verification() {
    let (issuer, verifying) = issuer_keypair(&[10u8; 32]).expect("keypair");
    let mut store = Store::empty();
    let payload = LeasePayload {
        subject_id: "person-1".into(),
        device_id: "device-1".into(),
        not_before: NOW - 60,
        expires_at: NOW + 3_600,
        revocation_epoch: 7,
        operations: vec![CoreOperation::Login],
    };
    store.record(&SignedLease::sign(payload, &issuer), &verifying, NOW).expect("record");
    // The file content with the revocation epoch edited from 7 to 99.
    let file = store.file();
    let mut leases: Vec<StoredLease> = file.leases.iter().map(StoredLease::duplicate).collect();
    assert_eq!(leases[0].payload.revocation_epoch, 7);
    leases[0].payload.revocation_epoch = 99;
    let reloaded = Store::from_file(StoreFile {
        version: file.version,
        high_water_revocation_epoch: file.high_water_revocation_epoch,
        leases,
    })
    .expect("tampered file still parses");
    assert!(reloaded.verify_all(&verifying).is_err(), "tampered store must fail signature verification (fail closed)");
}

#[test]
fn distinct_wire_values_stay_distinct_in_the_core() {
    let consumers = [Consumer::Sddm, Consumer::Quickshell, Consumer::Tty, Consumer::Sudo, Consumer::Polkit, Consumer::Ssh];
    for (i, a) in consumers.iter().enumerate() {
        for (j, b) in consumers.iter().enumerate() {
            assert_eq!(to_core_consumer(*a) == to_core_consumer(*b), i == j);
        }
    }
    let operations = [Operation::Login, Operation::Unlock, Operation::Elevate, Operation::RemoteLogin];
    for (i, a) in operations.iter().enumerate() {
        for (j, b) in operations.iter().enumerate() {
            assert_eq!(to_core_operation(*a) == to_core_operation(*b), i == j);
        }
    }
}
