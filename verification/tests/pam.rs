use oma_id::ipc::{
    AuthorizationRequest, AuthorizationResponse, Consumer, Decision, DenialCode, IoFailure, Operation,
    ProtocolError, PROTOCOL_VERSION,
};
use oma_id::pam_client::{map_error, outcome_of, Client, Outcome, UnavailableReason, DEFAULT_TIMEOUT_MILLIS};
use oma_id::pam_module::{
    authenticate_outcomes, map_service, outcome_to_pam_code, stage_code, Stage, AGENT_SOCKET_PATH,
    PAM_AUTH_ERR, PAM_PERM_DENIED, PAM_SUCCESS, PAM_SYSTEM_ERR,
};

#[test]
fn maps_every_protocol_failure_to_a_fail_closed_reason() {
    for outcome in [
        Outcome::Denied,
        Outcome::Unavailable(UnavailableReason::ConnectFailed),
        Outcome::Unavailable(UnavailableReason::TimedOut),
        Outcome::Unavailable(UnavailableReason::ProtocolViolation),
        Outcome::Unavailable(UnavailableReason::Internal),
    ] {
        assert_ne!(outcome, Outcome::Authorized);
    }
}

#[test]
fn socket_path_is_retained() {
    let client = Client::new("/run/oma-id/agent.sock", DEFAULT_TIMEOUT_MILLIS);
    assert_eq!(client.socket_path, "/run/oma-id/agent.sock");
    assert_eq!(client.timeout_millis, DEFAULT_TIMEOUT_MILLIS);
}

#[test]
fn exchange_failures_map_to_reasons() {
    assert_eq!(map_error(&ProtocolError::Io(IoFailure::TimedOut)), UnavailableReason::TimedOut);
    assert_eq!(map_error(&ProtocolError::Io(IoFailure::WouldBlock)), UnavailableReason::TimedOut);
    assert_eq!(map_error(&ProtocolError::Io(IoFailure::NotFound)), UnavailableReason::ConnectFailed);
    assert_eq!(map_error(&ProtocolError::Io(IoFailure::ConnectionRefused)), UnavailableReason::ConnectFailed);
    assert_eq!(map_error(&ProtocolError::Io(IoFailure::PermissionDenied)), UnavailableReason::ConnectFailed);
    assert_eq!(map_error(&ProtocolError::Io(IoFailure::Other)), UnavailableReason::ProtocolViolation);
    assert_eq!(map_error(&ProtocolError::RequestIdMismatch), UnavailableReason::ProtocolViolation);
    assert_eq!(map_error(&ProtocolError::UnsupportedVersion(9)), UnavailableReason::ProtocolViolation);
}

fn response(decision: Decision) -> AuthorizationResponse {
    AuthorizationResponse { version: PROTOCOL_VERSION, request_id: [1; 16], decision }
}

#[test]
fn only_an_explicit_allow_authorizes() {
    assert_eq!(outcome_of(&Ok(response(Decision::Allow))), Outcome::Authorized);
    assert_eq!(outcome_of(&Ok(response(Decision::Deny(DenialCode::NotAuthorized)))), Outcome::Denied);
    assert_eq!(
        outcome_of(&Err(ProtocolError::EmptyMessage)),
        Outcome::Unavailable(UnavailableReason::ProtocolViolation)
    );
}

#[test]
fn client_builds_the_request_and_reads_the_answer() {
    let client = Client::new("/run/oma-id/agent.sock", DEFAULT_TIMEOUT_MILLIS);
    let outcome = client.authorize(Consumer::Quickshell, Operation::Unlock, "owner", Some([5; 16]), |q: &AuthorizationRequest| {
        assert_eq!(q.version, PROTOCOL_VERSION);
        assert_eq!(q.request_id, [5; 16]);
        assert_eq!(q.local_username, "owner");
        assert_eq!(q.consumer, Consumer::Quickshell);
        assert_eq!(q.operation, Operation::Unlock);
        Ok(AuthorizationResponse { request_id: q.request_id, ..response(Decision::Allow) })
    });
    assert_eq!(outcome, Outcome::Authorized);
    let no_entropy = client.authorize(Consumer::Quickshell, Operation::Unlock, "owner", None, |_| {
        panic!("no request without an id")
    });
    assert_eq!(no_entropy, Outcome::Unavailable(UnavailableReason::Internal));
    let timed_out = client.authorize(Consumer::Sddm, Operation::Login, "owner", Some([6; 16]), |_| {
        Err(ProtocolError::Io(IoFailure::TimedOut))
    });
    assert_eq!(timed_out, Outcome::Unavailable(UnavailableReason::TimedOut));
}

#[test]
fn maps_known_oma_services_only() {
    assert_eq!(map_service("sddm"), Some((Consumer::Sddm, Operation::Login)));
    for service in ["omarchy-lock-password", "omarchy-lock-fingerprint"] {
        assert_eq!(map_service(service), Some((Consumer::Quickshell, Operation::Unlock)));
    }
    for service in ["", "login", "sshd", "su", "sudo", "systemd-user"] {
        assert_eq!(map_service(service), None);
    }
}

#[test]
fn only_explicit_allow_succeeds() {
    let allow = Outcome::Authorized;
    for stage in [Stage::Auth, Stage::Account] {
        assert_eq!(outcome_to_pam_code(stage, allow), PAM_SUCCESS);
    }
    let failures: [Outcome; 5] = [
        Outcome::Denied,
        Outcome::Unavailable(UnavailableReason::ConnectFailed),
        Outcome::Unavailable(UnavailableReason::TimedOut),
        Outcome::Unavailable(UnavailableReason::ProtocolViolation),
        Outcome::Unavailable(UnavailableReason::Internal),
    ];
    for stage in [Stage::Auth, Stage::Account] {
        for outcome in failures {
            assert_ne!(outcome_to_pam_code(stage, outcome), PAM_SUCCESS);
        }
    }
}

#[test]
fn auth_stage_requires_both_decisions_in_order() {
    assert_eq!(authenticate_outcomes(Outcome::Authorized, Outcome::Authorized), PAM_SUCCESS);
    assert_eq!(authenticate_outcomes(Outcome::Denied, Outcome::Authorized), PAM_AUTH_ERR);
    assert_eq!(
        authenticate_outcomes(Outcome::Unavailable(UnavailableReason::ConnectFailed), Outcome::Authorized),
        PAM_SYSTEM_ERR
    );
    assert_eq!(authenticate_outcomes(Outcome::Authorized, Outcome::Denied), PAM_AUTH_ERR);
    assert_eq!(
        authenticate_outcomes(Outcome::Authorized, Outcome::Unavailable(UnavailableReason::TimedOut)),
        PAM_SYSTEM_ERR
    );
}

#[test]
fn denial_and_unavailable_are_distinct() {
    assert_eq!(outcome_to_pam_code(Stage::Auth, Outcome::Denied), PAM_AUTH_ERR);
    assert_eq!(outcome_to_pam_code(Stage::Account, Outcome::Denied), PAM_PERM_DENIED);
    for reason in [
        UnavailableReason::ConnectFailed,
        UnavailableReason::TimedOut,
        UnavailableReason::ProtocolViolation,
        UnavailableReason::Internal,
    ] {
        assert_eq!(outcome_to_pam_code(Stage::Auth, Outcome::Unavailable(reason)), PAM_SYSTEM_ERR);
    }
}

#[test]
fn agent_socket_path_is_fixed_and_absolute() {
    assert_eq!(AGENT_SOCKET_PATH, "/run/oma-id/agent.sock");
    assert!(std::path::Path::new(AGENT_SOCKET_PATH).is_absolute());
}

#[test]
fn stages_end_with_the_right_code() {
    assert_eq!(stage_code(Stage::Auth, false, None, Outcome::Authorized), PAM_SYSTEM_ERR);
    assert_eq!(stage_code(Stage::Account, true, None, Outcome::Denied), PAM_PERM_DENIED);
    assert_eq!(stage_code(Stage::Auth, true, Some(Outcome::Authorized), Outcome::Authorized), PAM_SUCCESS);
    assert_eq!(stage_code(Stage::Auth, true, Some(Outcome::Denied), Outcome::Authorized), PAM_AUTH_ERR);
}
