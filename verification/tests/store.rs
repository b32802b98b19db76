use oma_id::authz::Operation;
use oma_id::keys::{SigningKey, VerifyingKey};
use oma_id::store::{
    canonical_payload_json, issuer_keypair, issuer_verifying_key, IssuerKeySet, KeyError, KeyState,
    LeasePayload, PinnedIssuerKey, RecordError, SignedLease, Store, StoreError, StoreFile, StoredLease,
    SINGLE_KEY_STORE_VERSION, STORE_VERSION,
};
use serde::ser::{SerializeStruct, Serializer};
use sha2::{Digest, Sha256};

fn seed(seed: u8) -> [u8; 32] {
    let mut bytes = [0u8; 32];
    bytes[0] = seed;
    bytes
}

fn payload(expires_at: u64, epoch: u64) -> LeasePayload {
    LeasePayload {
        subject_id: "person-1".into(),
        device_id: "device-1".into(),
        not_before: 1_000,
        expires_at,
        revocation_epoch: epoch,
        operations: vec![Operation::Login, Operation::Unlock],
    }
}

fn keypair(seed_byte: u8) -> (SigningKey, VerifyingKey) {
    issuer_keypair(&seed(seed_byte)).expect("keypair")
}

fn key_id_of(key: &SigningKey) -> String {
    hex::encode(Sha256::digest(key.verifying_key().to_bytes()))
}

fn public_hex(key: &SigningKey) -> String {
    hex::encode(key.verifying_key().to_bytes())
}

/// What reading back a saved store gives: the same file content.
fn reload(store: &Store) -> Store {
    let file = store.file();
    Store::from_file(StoreFile {
        version: file.version,
        high_water_revocation_epoch: file.high_water_revocation_epoch,
        leases: file.leases.iter().map(StoredLease::duplicate).collect(),
    })
    .expect("reload")
}

#[test]
fn sign_and_verify_roundtrip() {
    let (issuer, key) = keypair(1);
    let signed = SignedLease::sign(payload(2_000, 7), &issuer);
    let verified = signed.verify(&key).expect("signature must verify");
    assert_eq!(verified.subject_id, "person-1");
    assert_eq!(verified.revocation_epoch, 7);
}

#[test]
fn tampered_payload_rejected() {
    let (issuer, key) = keypair(1);
    let mut signed = SignedLease::sign(payload(2_000, 7), &issuer);
    signed.payload.revocation_epoch = 9;
    assert!(signed.verify(&key).is_err());
}

#[test]
fn wrong_issuer_key_rejected() {
    let (issuer, _) = keypair(1);
    let (_, other_key) = keypair(2);
    let signed = SignedLease::sign(payload(2_000, 7), &issuer);
    assert!(signed.verify(&other_key).is_err());
}

#[test]
fn record_persists_and_reloads() {
    let (issuer, key) = keypair(3);
    let mut store = Store::empty();
    assert_eq!(store.lease_count(), 0);
    store.record(&SignedLease::sign(payload(2_000, 7), &issuer), &key, 1_500).expect("record");

    let reloaded = reload(&store);
    assert_eq!(reloaded.lease_count(), 1);
    assert_eq!(reloaded.high_water_revocation_epoch(), 7);
    let lease = reloaded.active_lease(1_500, Operation::Unlock).expect("active lease");
    assert_eq!(lease.subject_id, "person-1");
    assert!(reloaded.active_lease(1_500, Operation::Elevate).is_none());
}

#[test]
fn rollback_rejected_and_persists_across_reload() {
    let (issuer, key) = keypair(4);
    let mut store = Store::empty();
    store.record(&SignedLease::sign(payload(3_000, 9), &issuer), &key, 1_500).expect("record epoch 9");

    let mut store = reload(&store);
    let err = store
        .record(&SignedLease::sign(payload(3_500, 7), &issuer), &key, 2_000)
        .expect_err("epoch 7 after 9 must be a rollback");
    assert!(matches!(err, RecordError::RollbackDetected { stored: 9, incoming: 7 }));
    assert_eq!(reload(&store).lease_count(), 1);
}

#[test]
fn expired_lease_rejected_at_record_time() {
    let (issuer, key) = keypair(5);
    let mut store = Store::empty();
    let err = store
        .record(&SignedLease::sign(payload(1_000, 7), &issuer), &key, 2_000)
        .expect_err("expired lease must be rejected");
    assert!(matches!(err, RecordError::Expired { .. }));
}

#[test]
fn newer_lease_replaces_same_subject_device() {
    let (issuer, key) = keypair(6);
    let mut store = Store::empty();
    store.record(&SignedLease::sign(payload(2_000, 7), &issuer), &key, 1_500).expect("first");
    store.record(&SignedLease::sign(payload(4_000, 8), &issuer), &key, 2_000).expect("renewal");
    assert_eq!(store.lease_count(), 1, "same (subject, device) replaces");
    assert_eq!(store.high_water_revocation_epoch(), 8);
    assert!(store.active_lease(2_500, Operation::Login).is_some());
}

#[test]
fn unsupported_store_version_rejected() {
    let result = Store::from_file(StoreFile { version: 99, high_water_revocation_epoch: 0, leases: Vec::new() });
    assert!(matches!(result, Err(StoreError::Json(_))));
    assert!(Store::from_file(StoreFile { version: STORE_VERSION, high_water_revocation_epoch: 0, leases: Vec::new() }).is_ok());
}

#[test]
fn single_key_store_files_still_load() {
    let (issuer, key) = keypair(1);
    let signed = SignedLease::sign(payload(2_000, 7), &issuer);
    let lease = StoredLease {
        payload: signed.payload.duplicate(),
        signature: signed.signature.clone(),
        key_id: String::new(),
        received_at: 1_100,
    };
    let store = Store::from_file(StoreFile {
        version: SINGLE_KEY_STORE_VERSION,
        high_water_revocation_epoch: 9,
        leases: vec![lease],
    })
    .expect("version 1 loads");
    assert_eq!(store.high_water_revocation_epoch(), 9);
    assert_eq!(store.lease_count(), 1);
    assert_eq!(store.file().version, STORE_VERSION);
    assert!(store.verify_all(&key).is_ok());
    assert!(matches!(
        Store::from_file(StoreFile { version: 0, high_water_revocation_epoch: 0, leases: Vec::new() }),
        Err(StoreError::Json(_))
    ));
}

#[test]
fn bad_issuer_key_length_rejected() {
    assert!(issuer_verifying_key("abcd").is_err());
    assert!(matches!(issuer_verifying_key("abcd"), Err(StoreError::BadKeyLength(2))));
    assert!(matches!(issuer_verifying_key("zz"), Err(StoreError::Hex(_))));
}

#[test]
fn key_set_rotation_overlap_and_revocation() {
    let (old_issuer, _) = keypair(20);
    let (new_issuer, _) = keypair(21);
    let key_set = IssuerKeySet {
        version: 1,
        keys: vec![
            PinnedIssuerKey {
                key_id: key_id_of(&old_issuer),
                public_key_hex: public_hex(&old_issuer),
                state: KeyState::Retiring,
            },
            PinnedIssuerKey {
                key_id: key_id_of(&new_issuer),
                public_key_hex: public_hex(&new_issuer),
                state: KeyState::Active,
            },
        ],
    };
    key_set.validate().expect("one active, one retiring");

    let old_lease = SignedLease::sign_with_key_id(payload(2_000, 7), &old_issuer, &key_id_of(&old_issuer));
    let new_lease = SignedLease::sign_with_key_id(payload(3_000, 8), &new_issuer, &key_id_of(&new_issuer));

    let old_key = key_set.verifying_key_for(&old_lease.key_id).expect("retiring key verifies");
    old_lease.verify(&old_key).expect("old lease verifies");
    let new_key = key_set.verifying_key_for(&new_lease.key_id).expect("active key verifies");
    new_lease.verify(&new_key).expect("new lease verifies");
}

#[test]
fn revoked_key_fails_closed() {
    let (issuer, _) = keypair(22);
    let (other_issuer, _) = keypair(23);
    let set = IssuerKeySet {
        version: 1,
        keys: vec![
            PinnedIssuerKey {
                key_id: key_id_of(&other_issuer),
                public_key_hex: public_hex(&other_issuer),
                state: KeyState::Active,
            },
            PinnedIssuerKey {
                key_id: key_id_of(&issuer),
                public_key_hex: public_hex(&issuer),
                state: KeyState::Revoked,
            },
        ],
    };
    set.validate().expect("exactly one active");
    let error = set.verifying_key_for(&key_id_of(&issuer)).expect_err("revoked key must fail closed");
    assert!(matches!(error, KeyError::RevokedKey(_)));
}

#[test]
fn unknown_key_id_fails_closed() {
    let (_, _) = keypair(24);
    let (active, _) = keypair(25);
    let set = IssuerKeySet {
        version: 1,
        keys: vec![PinnedIssuerKey {
            key_id: key_id_of(&active),
            public_key_hex: public_hex(&active),
            state: KeyState::Active,
        }],
    };
    let error = set.verifying_key_for("deadbeef").expect_err("unknown key_id must fail closed");
    assert!(matches!(error, KeyError::UnknownKeyId(_)));
}

#[test]
fn key_id_mismatch_rejected_at_load() {
    let (issuer, _) = keypair(26);
    let set = IssuerKeySet {
        version: 1,
        keys: vec![PinnedIssuerKey {
            key_id: "0000".into(),
            public_key_hex: public_hex(&issuer),
            state: KeyState::Active,
        }],
    };
    assert!(matches!(set.validate(), Err(KeyError::KeyIdMismatch { .. })));
}

#[test]
fn two_active_keys_rejected() {
    let (a, _) = keypair(27);
    let (b, _) = keypair(28);
    let set = IssuerKeySet {
        version: 1,
        keys: vec![
            PinnedIssuerKey { key_id: key_id_of(&a), public_key_hex: public_hex(&a), state: KeyState::Active },
            PinnedIssuerKey { key_id: key_id_of(&b), public_key_hex: public_hex(&b), state: KeyState::Active },
        ],
    };
    assert!(matches!(set.validate(), Err(KeyError::NotExactlyOneActive)));
}

#[test]
fn key_ids_compare_case_insensitively() {
    let (a, _) = keypair(29);
    let set = IssuerKeySet {
        version: 1,
        keys: vec![PinnedIssuerKey {
            key_id: key_id_of(&a).to_uppercase(),
            public_key_hex: public_hex(&a),
            state: KeyState::Active,
        }],
    };
    assert!(set.validate().is_ok());
}

#[test]
fn active_key_is_the_first_active_one() {
    let (a, _) = keypair(30);
    let (b, b_key) = keypair(31);
    let set = IssuerKeySet {
        version: 1,
        keys: vec![
            PinnedIssuerKey { key_id: key_id_of(&a), public_key_hex: public_hex(&a), state: KeyState::Retiring },
            PinnedIssuerKey { key_id: key_id_of(&b), public_key_hex: public_hex(&b), state: KeyState::Active },
        ],
    };
    let (pinned, key) = set.active_key().expect("active key");
    assert_eq!(pinned.key_id, key_id_of(&b));
    assert_eq!(key, b_key);
}

#[test]
fn canonical_encoding_matches_the_pinned_contract() {
    let payload = payload(2_000, 7);
    let bytes = canonical_payload_json(&payload);
    assert_eq!(
        String::from_utf8(bytes).expect("canonical json is utf-8"),
        "{\"subject_id\":\"person-1\",\"device_id\":\"device-1\",\"not_before\":1000,\"expires_at\":2000,\"revocation_epoch\":7,\"operations\":[\"Login\",\"Unlock\"]}"
    );
}

#[test]
fn canonical_encoding_is_drift_proofed_against_serde() {
    // serde's struct serialization of the payload, field by field in
    // declaration order; operations are unit variants, serialized by name.
    let payload = payload(2_000, 7);
    let mut out = Vec::new();
    {
        let mut serializer = serde_json::Serializer::new(&mut out);
        let mut state = (&mut serializer).serialize_struct("LeasePayload", 6).expect("serde serialization");
        state.serialize_field("subject_id", &payload.subject_id).expect("field");
        state.serialize_field("device_id", &payload.device_id).expect("field");
        state.serialize_field("not_before", &payload.not_before).expect("field");
        state.serialize_field("expires_at", &payload.expires_at).expect("field");
        state.serialize_field("revocation_epoch", &payload.revocation_epoch).expect("field");
        state.serialize_field("operations", &["Login", "Unlock"]).expect("field");
        state.end().expect("end");
    }
    assert_eq!(canonical_payload_json(&payload), out);
}

#[test]
fn canonical_encoding_escapes_defensively() {
    let mut payload = payload(2_000, 7);
    payload.subject_id = "quote\"and\\slash".into();
    let bytes = canonical_payload_json(&payload);
    let parsed: serde_json::Value = serde_json::from_slice(&bytes).expect("still valid json");
    assert_eq!(parsed["subject_id"], "quote\"and\\slash");
}

#[test]
fn canonical_encoding_escapes_control_characters() {
    let mut payload = payload(2_000, 7);
    payload.device_id = "tab\there\nnl\u{1}".into();
    let text = String::from_utf8(canonical_payload_json(&payload)).expect("utf-8");
    assert!(text.contains("\"device_id\":\"tab\\u0009here\\u000anl\\u0001\""));
    let parsed: serde_json::Value = serde_json::from_str(&text).expect("valid json");
    assert_eq!(parsed["device_id"], "tab\there\nnl\u{1}");
}

#[test]
fn verify_all_catches_post_record_tampering() {
    let (issuer, key) = keypair(7);
    let mut store = Store::empty();
    store.record(&SignedLease::sign(payload(2_000, 7), &issuer), &key, 1_500).expect("record");

    let file = store.file();
    let mut leases: Vec<StoredLease> = file.leases.iter().map(StoredLease::duplicate).collect();
    if let Some(lease) = leases.first_mut() {
        lease.payload.revocation_epoch = 42;
    }
    let tampered = Store::from_file(StoreFile {
        version: file.version,
        high_water_revocation_epoch: file.high_water_revocation_epoch,
        leases,
    })
    .expect("json-valid");
    assert!(tampered.verify_all(&key).is_err(), "tampered store must fail signature verification");
    assert!(store.verify_all(&key).is_ok());
}

#[test]
fn verify_all_with_key_set_uses_each_lease_key() {
    let (issuer, key) = keypair(8);
    let (other, _) = keypair(9);
    let set = IssuerKeySet {
        version: 1,
        keys: vec![PinnedIssuerKey { key_id: key_id_of(&issuer), public_key_hex: public_hex(&issuer), state: KeyState::Active }],
    };
    let mut store = Store::empty();
    store
        .record(&SignedLease::sign_with_key_id(payload(2_000, 7), &issuer, &key_id_of(&issuer)), &key, 1_500)
        .expect("record");
    assert!(store.verify_all_with_key_set(&set, &key).is_ok());
    let (_, other_key) = keypair(9);
    assert!(store.verify_all_with_key_set(&set, &other_key).is_ok(), "a lease with key id ignores the fallback");
    let unknown = IssuerKeySet {
        version: 1,
        keys: vec![PinnedIssuerKey { key_id: key_id_of(&other), public_key_hex: public_hex(&other), state: KeyState::Active }],
    };
    assert!(matches!(store.verify_all_with_key_set(&unknown, &key), Err(KeyError::UnknownKeyId(_))));
}

#[test]
fn active_lease_prefers_the_latest_expiry() {
    let (issuer, key) = keypair(10);
    let mut store = Store::empty();
    let mut first = payload(5_000, 7);
    first.device_id = "device-a".into();
    let mut second = payload(3_000, 7);
    second.device_id = "device-b".into();
    store.record(&SignedLease::sign(first, &issuer), &key, 1_500).expect("first");
    store.record(&SignedLease::sign(second, &issuer), &key, 1_500).expect("second");
    assert_eq!(store.lease_count(), 2);
    assert_eq!(store.active_lease(2_000, Operation::Login).expect("lease").device_id, "device-a");
    // Past the shorter expiry only the longer lease is usable.
    assert_eq!(store.active_lease(4_000, Operation::Login).expect("lease").device_id, "device-a");
    assert!(store.active_lease(5_000, Operation::Login).is_none());
}
