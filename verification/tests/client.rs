//! The PAM client against the agent's own decisions, run in process: the
//! exchange closures stand for the socket round trip.
use oma_id::authz::{Operation as CoreOperation, VerifiedLease};
use oma_id::ipc::{
    AgentRequest, AuthorizationResponse, Consumer, Decision, IoFailure, Operation, PeerCredentials,
    ProtocolError, PROTOCOL_VERSION,
};
use oma_id::pam_client::{Client, Outcome, UnavailableReason, DEFAULT_TIMEOUT_MILLIS};
use oma_id::service::{respond, ServiceConfig};
use std::path::Path;

const NOW: u64 = 1_700_000_000;
const UID: u32 = 1_000;
const OPS: &[CoreOperation] = &[CoreOperation::Unlock, CoreOperation::Login];

fn service(expected_credential: Option<&'static str>) -> ServiceConfig<'static, fn(&str, &str) -> bool> {
    ServiceConfig {
        socket_path: Path::new("/run/oma-id/test.sock"),
        lease: VerifiedLease {
            subject_id: "person-1",
            device_id: "device-1",
            not_before: NOW - 60,
            expires_at: NOW + 3_600,
            revocation_epoch: 1,
            operations: OPS,
        },
        trusted_time_floor: NOW - 60,
        minimum_revocation_epoch: 1,
        expected_credential,
        bound_local_username: None,
        credential_verifier: None,
    }
}

/// The agent answering one request from a same-user peer.
fn agent(config: &ServiceConfig<'static, fn(&str, &str) -> bool>, request: AgentRequest) -> Result<AuthorizationResponse, ProtocolError> {
    let peer = PeerCredentials { pid: 77, uid: UID, gid: UID };
    let response = respond(&request, &peer, config, Some(UID), NOW);
    Ok(AuthorizationResponse { version: response.version, request_id: response.request_id, decision: response.decision })
}

fn client() -> Client {
    Client::new("/run/oma-id/test.sock", DEFAULT_TIMEOUT_MILLIS)
}

#[test]
fn authorized_when_agent_allows() {
    let config = service(None);
    let outcome = client().authorize(Consumer::Quickshell, Operation::Unlock, "owner", Some([1; 16]), |q| {
        agent(&config, AgentRequest::Authorization(q.clone()))
    });
    assert_eq!(outcome, Outcome::Authorized);
}

#[test]
fn explicit_denial_is_denied_not_unavailable() {
    let config = service(None);
    let outcome = client().authorize(Consumer::Quickshell, Operation::Login, "owner", Some([2; 16]), |q| {
        agent(&config, AgentRequest::Authorization(q.clone()))
    });
    assert_eq!(outcome, Outcome::Denied);
}

#[test]
fn client_outcomes_daemon_down_fails_closed() {
    let outcome = client().authorize(Consumer::Quickshell, Operation::Unlock, "owner", Some([3; 16]), |_| {
        Err(ProtocolError::Io(IoFailure::NotFound))
    });
    assert_eq!(outcome, Outcome::Unavailable(UnavailableReason::ConnectFailed));
}

#[test]
fn unresponsive_agent_times_out() {
    let outcome = client().authorize(Consumer::Quickshell, Operation::Unlock, "owner", Some([4; 16]), |_| {
        Err(ProtocolError::Io(IoFailure::WouldBlock))
    });
    assert_eq!(outcome, Outcome::Unavailable(UnavailableReason::TimedOut));
}

#[test]
fn lying_agent_protocol_violation_fails_closed() {
    let outcome = client().authorize(Consumer::Quickshell, Operation::Unlock, "owner", Some([5; 16]), |_| {
        Ok(AuthorizationResponse { version: PROTOCOL_VERSION, request_id: [99; 16], decision: Decision::Allow })
    });
    assert_eq!(outcome, Outcome::Unavailable(UnavailableReason::ProtocolViolation));
    let garbage = client().authorize(Consumer::Quickshell, Operation::Unlock, "owner", Some([6; 16]), |_| {
        Err(ProtocolError::Json(serde_json::from_str::<u8>("not a decision").unwrap_err()))
    });
    assert_eq!(garbage, Outcome::Unavailable(UnavailableReason::ProtocolViolation));
}

#[test]
fn exchange_credential_authorized_when_agent_allows() {
    let config = service(Some("p1nned-credential"));
    let outcome = client().exchange_credential(
        Consumer::Quickshell,
        Operation::Unlock,
        "owner",
        "p1nned-credential",
        Some([7; 16]),
        |q| agent(&config, AgentRequest::CredentialExchange(q.clone())),
    );
    assert_eq!(outcome, Outcome::Authorized);
}

#[test]
fn exchange_credential_denied_is_denied_not_unavailable() {
    let config = service(Some("p1nned-credential"));
    let outcome = client().exchange_credential(
        Consumer::Quickshell,
        Operation::Unlock,
        "owner",
        "not-the-credential",
        Some([8; 16]),
        |q| agent(&config, AgentRequest::CredentialExchange(q.clone())),
    );
    assert_eq!(outcome, Outcome::Denied);
    let unconfigured = service(None);
    let outcome = client().exchange_credential(
        Consumer::Quickshell,
        Operation::Unlock,
        "owner",
        "p1nned-credential",
        Some([9; 16]),
        |q| agent(&unconfigured, AgentRequest::CredentialExchange(q.clone())),
    );
    assert_eq!(outcome, Outcome::Denied);
}

#[test]
fn exchange_credential_fails_closed_when_daemon_down() {
    let outcome = client().exchange_credential(
        Consumer::Quickshell,
        Operation::Unlock,
        "owner",
        "p1nned-credential",
        Some([10; 16]),
        |_| Err(ProtocolError::Io(IoFailure::ConnectionRefused)),
    );
    assert_eq!(outcome, Outcome::Unavailable(UnavailableReason::ConnectFailed));
}

#[test]
fn unusable_pam_username_fails_closed_before_connecting() {
    let outcome = client().authorize(Consumer::Quickshell, Operation::Unlock, "Owner", Some([11; 16]), |_| {
        panic!("an unsafe username never reaches the wire")
    });
    assert_eq!(outcome, Outcome::Unavailable(UnavailableReason::ProtocolViolation));
}
