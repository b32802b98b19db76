use oma_id::agent::{
    active_lease_in, active_service_lease, apply_check_in, check_in_key_set, check_in_message_bytes,
    check_in_url, default_check_in_interval, expired_fallback, key_id_of_public_key, needs_enrollment,
    parse_enr_status_args, public_key_hex_for_key_id, service_lease, signed_check_in, AgentConfig,
    AgentError, CheckInError, CheckInResponse, DeviceIdentity, SignedLeaseWire,
};
use oma_id::authz::{authorize, Consumer, Operation, Request};
use oma_id::keys::SigningKey;
use oma_id::provisioning::PosixMapping;
use oma_id::store::{
    canonical_payload_json, issuer_keypair, IssuerKeySet, KeyError, KeyState, LeasePayload, PinnedIssuerKey,
    SignedLease, Store, StoreFile, StoredLease,
};
use sha2::Digest;

const NOW: u64 = 1_700_000_000;

fn no_persisted_set() -> Result<IssuerKeySet, KeyError> {
    Err(KeyError::Io(std::io::Error::new(std::io::ErrorKind::NotFound, "no key set file")))
}

fn message(error: Result<u64, AgentError>) -> String {
    match error {
        Err(AgentError::Message(m)) => m,
        other => panic!("expected a message error, got {other:?}"),
    }
}

fn identity(seed: u8) -> DeviceIdentity {
    DeviceIdentity::from_key_file(&[seed; 32]).expect("identity")
}

fn reload(store: &Store) -> Store {
    let file = store.file();
    Store::from_file(StoreFile {
        version: file.version,
        high_water_revocation_epoch: file.high_water_revocation_epoch,
        leases: file.leases.iter().map(StoredLease::duplicate).collect(),
    })
    .expect("reload")
}

fn payload() -> LeasePayload {
    LeasePayload {
        subject_id: "person-1".into(),
        device_id: "device-1".into(),
        not_before: NOW - 60,
        expires_at: NOW + 3_600,
        revocation_epoch: 7,
        operations: vec![Operation::Login, Operation::Unlock],
    }
}

fn response_with(leases: Vec<SignedLeaseWire>, issuer_keys: Vec<PinnedIssuerKey>) -> CheckInResponse {
    CheckInResponse {
        version: 2,
        high_water_revocation_epoch: 7,
        leases,
        key_id: String::new(),
        issuer_keys,
        posix: Some(PosixMapping {
            username: "deviceowner".into(),
            uid: 10001,
            gid: 10001,
            home: "/home/deviceowner".into(),
            shell: "/bin/zsh".into(),
            full_name: "Device Owner".into(),
        }),
    }
}

#[test]
fn device_identity_persists_and_reloads() {
    let first = identity(11);
    let stored = first.key_file_bytes();
    let second = DeviceIdentity::from_key_file(&stored).expect("reload");
    assert_eq!(hex::encode(first.signing_key.verifying_key().to_bytes()), second.public_key_hex);
}

#[test]
fn short_device_key_file_is_refused() {
    assert!(matches!(DeviceIdentity::from_key_file(&[1u8; 31]),
        Err(AgentError::Message(m)) if m == "device key file must be 32 bytes"));
    // Extra bytes after the seed are ignored.
    let mut long = vec![5u8; 32];
    long.extend_from_slice(b"trailing");
    assert_eq!(
        DeviceIdentity::from_key_file(&long).expect("identity").public_key_hex,
        identity(5).public_key_hex
    );
}

#[test]
fn key_id_derivation_matches_the_contract() {
    let key = SigningKey::from_bytes(&[7u8; 32]);
    let key_id = key_id_of_public_key(&key.verifying_key());
    let direct = hex::encode(sha2::Sha256::digest(key.verifying_key().to_bytes()));
    assert_eq!(key_id, direct);
}

#[test]
fn apply_check_in_records_leases_and_persists_the_key_set() {
    let (issuer, verifying) = issuer_keypair(&[30u8; 32]).expect("keypair");
    let key_id = key_id_of_public_key(&verifying);
    let signature = hex::encode(issuer.sign(&canonical_payload_json(&payload())));
    let response = response_with(
        vec![SignedLeaseWire { payload: payload(), signature, key_id: key_id.clone() }],
        vec![PinnedIssuerKey {
            key_id: key_id.clone(),
            public_key_hex: hex::encode(verifying.to_bytes()),
            state: KeyState::Active,
        }],
    );

    let mut store = Store::empty();
    let key_set = check_in_key_set(&response).expect("key set");
    let hwm = apply_check_in(&mut store, &response, key_set.as_ref(), &no_persisted_set(), NOW).expect("apply");
    assert_eq!(hwm, 7);

    let reloaded = reload(&store);
    assert_eq!(reloaded.lease_count(), 1);
    let lease = active_lease_in(&reloaded, NOW).expect("active lease");
    assert_eq!(lease.subject_id, "person-1");

    let set = key_set.expect("key set");
    assert!(set.validate().is_ok());
    assert!(set.verifying_key_for(&key_id).is_ok());
}

#[test]
fn apply_check_in_uses_the_persisted_set_without_a_new_one() {
    let (issuer, verifying) = issuer_keypair(&[31u8; 32]).expect("keypair");
    let key_id = key_id_of_public_key(&verifying);
    let signature = hex::encode(issuer.sign(&canonical_payload_json(&payload())));
    let response = response_with(
        vec![SignedLeaseWire { payload: payload(), signature, key_id: key_id.clone() }],
        Vec::new(),
    );
    let persisted = IssuerKeySet {
        version: 1,
        keys: vec![PinnedIssuerKey {
            key_id: key_id.clone(),
            public_key_hex: hex::encode(verifying.to_bytes()),
            state: KeyState::Active,
        }],
    };
    assert!(matches!(check_in_key_set(&response), Ok(None)));
    let mut store = Store::empty();
    assert_eq!(message(apply_check_in(&mut store, &response, None, &no_persisted_set(), NOW)), "no key set file");
    assert_eq!(store.lease_count(), 0);
    assert_eq!(apply_check_in(&mut store, &response, None, &Ok(persisted), NOW).expect("apply"), 7);
    assert_eq!(store.lease_count(), 1);
}

#[test]
fn apply_check_in_refuses_a_lease_without_any_key() {
    let (issuer, _) = issuer_keypair(&[32u8; 32]).expect("keypair");
    let signature = hex::encode(issuer.sign(&canonical_payload_json(&payload())));
    let response = response_with(
        vec![SignedLeaseWire { payload: payload(), signature, key_id: String::new() }],
        Vec::new(),
    );
    let mut store = Store::empty();
    assert_eq!(
        message(apply_check_in(&mut store, &response, None, &no_persisted_set(), NOW)),
        "no pinned issuer key available to verify the lease"
    );
}

#[test]
fn apply_check_in_stops_at_a_bad_signature_and_keeps_earlier_leases() {
    let (issuer, verifying) = issuer_keypair(&[33u8; 32]).expect("keypair");
    let key_id = key_id_of_public_key(&verifying);
    let good = payload();
    let mut other = payload();
    other.device_id = "device-2".into();
    let good_sig = hex::encode(issuer.sign(&canonical_payload_json(&good)));
    let response = response_with(
        vec![
            SignedLeaseWire { payload: good, signature: good_sig.clone(), key_id: String::new() },
            SignedLeaseWire { payload: other, signature: good_sig, key_id: String::new() },
        ],
        vec![PinnedIssuerKey { key_id, public_key_hex: hex::encode(verifying.to_bytes()), state: KeyState::Active }],
    );
    let key_set = check_in_key_set(&response).expect("key set");
    let mut store = Store::empty();
    let result = apply_check_in(&mut store, &response, key_set.as_ref(), &no_persisted_set(), NOW);
    assert!(message(result).starts_with("lease record: bad ed25519 signature: "));
    assert_eq!(store.lease_count(), 1);
}

#[test]
fn invalid_distributed_key_set_is_refused() {
    let response = response_with(
        Vec::new(),
        vec![PinnedIssuerKey { key_id: "0000".into(), public_key_hex: "00".repeat(32), state: KeyState::Retiring }],
    );
    assert!(matches!(check_in_key_set(&response),
        Err(AgentError::Message(m)) if m == "key set must contain exactly one active key"));
}

#[test]
fn public_key_hex_is_found_by_key_id() {
    let set = IssuerKeySet {
        version: 1,
        keys: vec![
            PinnedIssuerKey { key_id: "a".into(), public_key_hex: "11".into(), state: KeyState::Retiring },
            PinnedIssuerKey { key_id: "b".into(), public_key_hex: "22".into(), state: KeyState::Active },
        ],
    };
    assert_eq!(public_key_hex_for_key_id(&set, "b").expect("found"), "22");
    assert!(matches!(public_key_hex_for_key_id(&set, "c"), Err(AgentError::Message(m)) if m == "unknown key_id c"));
}

#[test]
fn check_in_signs_the_expected_message() {
    let identity = identity(3);
    let timestamp = 1_700_000_000u64;
    let message = check_in_message_bytes("device-x", timestamp);
    assert_eq!(message, format!("{}|{timestamp}", "device-x").into_bytes());
    let signature = identity.signing_key.sign(&message);
    let verifying = identity.signing_key.verifying_key();
    verifying
        .verify_strict(&message, &signature)
        .expect("check-in signature must verify with the device public key");
    let request = signed_check_in(&identity, "device-x", timestamp);
    assert_eq!(request.signature_hex, hex::encode(signature));
    assert_eq!(request.device_id, "device-x");
    assert_eq!(request.timestamp, timestamp);
}

#[test]
fn check_in_url_drops_trailing_slashes() {
    assert_eq!(check_in_url("https://id.example.org//"), "https://id.example.org/api/v1/device/check-ins");
    assert_eq!(check_in_url("https://id.example.org"), "https://id.example.org/api/v1/device/check-ins");
}

#[test]
fn only_an_unauthorized_check_in_asks_for_enrollment() {
    assert!(needs_enrollment(&CheckInError::Rejected { status: 401, body: String::new() }));
    assert!(!needs_enrollment(&CheckInError::Rejected { status: 500, body: String::new() }));
    assert!(!needs_enrollment(&CheckInError::Http("refused".into())));
}

#[test]
fn config_paths_live_in_the_state_dir() {
    let config = AgentConfig {
        server_url: "https://id.example.org".into(),
        device_id: "workstation-12".into(),
        state_dir: "/var/lib/oma-id".into(),
        socket_path: "/run/oma-id/agent.sock".into(),
        check_in_interval_seconds: default_check_in_interval(),
    };
    assert_eq!(config.device_key_path(), "/var/lib/oma-id/device.key");
    assert_eq!(config.key_set_path(), "/var/lib/oma-id/issuer-keys.json");
    assert_eq!(config.store_path(), "/var/lib/oma-id/leases.json");
    assert_eq!(config.check_in_pause_secs(), 300);
    let slash = AgentConfig { state_dir: "state/".into(), check_in_interval_seconds: 5, ..config };
    assert_eq!(slash.store_path(), "state/leases.json");
    assert_eq!(slash.check_in_pause_secs(), 30);
}

#[test]
fn without_an_active_lease_every_request_is_denied() {
    let store = Store::empty();
    assert!(active_lease_in(&store, NOW).is_none());
    assert!(active_service_lease(&store, NOW).is_none());
    let fallback = expired_fallback(&store);
    let chosen = service_lease(&store, &fallback, NOW);
    assert_eq!(chosen.minimum_revocation_epoch, 0);
    let request = Request {
        subject_id: "",
        device_id: "",
        consumer: Consumer::Quickshell,
        operation: Operation::Unlock,
        now: NOW,
        trusted_time_floor: chosen.trusted_time_floor,
        minimum_revocation_epoch: chosen.minimum_revocation_epoch,
    };
    assert!(authorize(&chosen.lease, &request).is_err());
}

#[test]
fn service_lease_floors_follow_the_store() {
    let (issuer, key) = issuer_keypair(&[34u8; 32]).expect("keypair");
    let mut store = Store::empty();
    let mut newer = payload();
    newer.device_id = "device-9".into();
    newer.revocation_epoch = 9;
    newer.expires_at = NOW + 60;
    store.record(&SignedLease::sign(payload(), &issuer), &key, NOW).expect("record");
    store.record(&SignedLease::sign(newer, &issuer), &key, NOW).expect("record");
    let chosen = active_service_lease(&store, NOW).expect("active");
    // The latest expiry wins; its epoch (7) is under the high-water mark (9).
    assert_eq!(chosen.lease.device_id, "device-1");
    assert_eq!(chosen.minimum_revocation_epoch, 7);
    assert_eq!(chosen.trusted_time_floor, NOW - 60);
}

#[test]
fn enr_status_arguments_are_all_required() {
    let args: Vec<String> = ["enr-status", "--server", "https://x", "--key", "/k", "--request-id", "7"]
        .iter()
        .map(|s| s.to_string())
        .collect();
    let parsed = parse_enr_status_args(&args).expect("parsed");
    assert_eq!(parsed.server, "https://x");
    assert_eq!(parsed.key, "/k");
    assert_eq!(parsed.request_id, 7);
    let missing: Vec<String> = ["enr-status", "--server", "https://x", "--request-id", "nope"]
        .iter()
        .map(|s| s.to_string())
        .collect();
    assert!(matches!(parse_enr_status_args(&missing), Err(AgentError::Message(m))
        if m == "enr-status requires --server <url> --key <path> --request-id <id>"));
}

#[test]
fn a_later_check_in_never_lowers_the_high_water_mark() {
    let (issuer, verifying) = issuer_keypair(&[35u8; 32]).expect("keypair");
    let key_id = key_id_of_public_key(&verifying);
    let pinned = || vec![PinnedIssuerKey { key_id: key_id.clone(), public_key_hex: hex::encode(verifying.to_bytes()), state: KeyState::Active }];
    let mut store = Store::empty();
    let first = payload();
    let response = response_with(
        vec![SignedLeaseWire { signature: hex::encode(issuer.sign(&canonical_payload_json(&first))), payload: first, key_id: String::new() }],
        pinned(),
    );
    let set = check_in_key_set(&response).expect("key set");
    assert_eq!(apply_check_in(&mut store, &response, set.as_ref(), &no_persisted_set(), NOW).expect("apply"), 7);
    let mut older = payload();
    older.revocation_epoch = 5;
    let replay = response_with(
        vec![SignedLeaseWire { signature: hex::encode(issuer.sign(&canonical_payload_json(&older))), payload: older, key_id: String::new() }],
        pinned(),
    );
    let set = check_in_key_set(&replay).expect("key set");
    assert_eq!(
        message(apply_check_in(&mut store, &replay, set.as_ref(), &no_persisted_set(), NOW)),
        "lease record: rollback detected: stored revocation epoch 7 is newer than incoming 5"
    );
    assert_eq!(store.high_water_revocation_epoch(), 7);
    assert_eq!(active_lease_in(&store, NOW).expect("lease").revocation_epoch, 7);
}
