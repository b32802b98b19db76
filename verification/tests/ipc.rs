use oma_id::ipc::{
    authorize_peer, check_response, encode_frame, frame_length, valid_local_username,
    AuthorizationRequest, AuthorizationResponse, Consumer, Decision, Operation, PeerCredentials,
    PeerDenial, ProtocolError, MAX_MESSAGE_BYTES, PROTOCOL_VERSION,
};

fn request() -> AuthorizationRequest {
    AuthorizationRequest {
        version: PROTOCOL_VERSION,
        request_id: [7; 16],
        local_username: "oma_user-1".to_owned(),
        consumer: Consumer::Quickshell,
        operation: Operation::Unlock,
    }
}

#[test]
fn rejects_oversized_frames_before_allocating_body() {
    let claimed = MAX_MESSAGE_BYTES + 1;
    let prefix = (claimed as u32).to_be_bytes();
    let error = frame_length(prefix).expect_err("oversized");
    assert!(matches!(error, ProtocolError::MessageTooLarge(size) if size == claimed));
}

#[test]
fn rejects_unknown_fields_versions_and_unsafe_names() {
    // Unknown JSON fields are refused by the message decoder around the
    // library; the version and the username rules are the library's.
    let mut invalid = request();
    invalid.version = 2;
    assert!(matches!(invalid.validate(), Err(ProtocolError::UnsupportedVersion(2))));
    for name in ["", "-owner", "Owner", "user/name", "a_very_long_local_username_over_limit"] {
        invalid = request();
        invalid.local_username = name.to_owned();
        assert!(matches!(invalid.validate(), Err(ProtocolError::InvalidLocalUsername)));
    }
}

#[test]
fn restricts_root_to_valid_consumer_operation_pairs() {
    let root = PeerCredentials { pid: 1, uid: 0, gid: 0 };
    assert_eq!(authorize_peer(root, 1_000, Consumer::Sddm, Operation::Login), Ok(()));
    assert_eq!(
        authorize_peer(root, 1_000, Consumer::Sddm, Operation::Elevate),
        Err(PeerDenial::ConsumerOperationMismatch)
    );
}

#[test]
fn permits_only_same_user_quickshell_unlock_for_non_root_peer() {
    let user = PeerCredentials { pid: 10, uid: 1_000, gid: 1_000 };
    assert_eq!(authorize_peer(user, 1_000, Consumer::Quickshell, Operation::Unlock), Ok(()));
    assert_eq!(
        authorize_peer(user, 1_001, Consumer::Quickshell, Operation::Unlock),
        Err(PeerDenial::UserMismatch)
    );
    assert_eq!(
        authorize_peer(user, 1_000, Consumer::Sddm, Operation::Login),
        Err(PeerDenial::UnprivilegedConsumer)
    );
    assert_eq!(
        authorize_peer(user, 1_000, Consumer::Quickshell, Operation::Login),
        Err(PeerDenial::ConsumerOperationMismatch)
    );
}

#[test]
fn accepts_the_documented_username_shapes() {
    assert!(valid_local_username("oma_user-1"));
    assert!(valid_local_username("a"));
    assert!(valid_local_username("_svc"));
    assert!(valid_local_username(&"a".repeat(32)));
    assert!(!valid_local_username(&"a".repeat(33)));
    assert!(valid_local_username("1user"));
    assert!(!valid_local_username("-user"));
    assert!(!valid_local_username("user name"));
    assert!(request().validate().is_ok());
}

#[test]
fn frames_round_trip_their_length() {
    let body = br#"{"version":1}"#;
    let frame = encode_frame(body).expect("frame");
    assert_eq!(&frame[..4], &(body.len() as u32).to_be_bytes());
    assert_eq!(&frame[4..], &body[..]);
    let prefix = [frame[0], frame[1], frame[2], frame[3]];
    assert_eq!(frame_length(prefix).expect("length"), body.len());
}

#[test]
fn empty_and_oversized_bodies_are_not_framed() {
    assert!(matches!(encode_frame(&[]), Err(ProtocolError::EmptyMessage)));
    let big = vec![b'x'; MAX_MESSAGE_BYTES + 1];
    assert!(matches!(
        encode_frame(&big),
        Err(ProtocolError::MessageTooLarge(n)) if n == MAX_MESSAGE_BYTES + 1
    ));
    assert!(matches!(frame_length([0, 0, 0, 0]), Err(ProtocolError::EmptyMessage)));
    let full = vec![b'x'; MAX_MESSAGE_BYTES];
    assert_eq!(encode_frame(&full).expect("at the limit").len(), MAX_MESSAGE_BYTES + 4);
}

#[test]
fn responses_must_match_version_and_correlation_id() {
    let ok = AuthorizationResponse { version: PROTOCOL_VERSION, request_id: [7; 16], decision: Decision::Allow };
    assert!(check_response(&request(), &ok).is_ok());
    let wrong_id = AuthorizationResponse { request_id: [8; 16], ..ok };
    assert!(matches!(check_response(&request(), &wrong_id), Err(ProtocolError::RequestIdMismatch)));
    let wrong_version = AuthorizationResponse { version: 99, ..ok };
    assert!(matches!(
        check_response(&request(), &wrong_version),
        Err(ProtocolError::UnsupportedVersion(99))
    ));
}
