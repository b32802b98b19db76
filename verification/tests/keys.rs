use ed25519_dalek::Signer;
use oma_id::keys::{SigningKey, VerifyingKey};

#[test]
fn public_keys_and_signatures_match_ed25519_dalek() {
    let seed = [42u8; 32];
    let ours = SigningKey::from_bytes(&seed);
    let theirs = ed25519_dalek::SigningKey::from_bytes(&seed);
    assert_eq!(ours.verifying_key().to_bytes(), theirs.verifying_key().to_bytes());
    assert_ne!(ours.verifying_key().to_bytes(), seed);
    let message = b"device-1|1700000000";
    assert_eq!(ours.sign(message), theirs.sign(message).to_bytes());
    assert_eq!(ours.to_bytes(), seed);
}

#[test]
fn verifying_keys_accept_exactly_curve_points() {
    for candidate in [[0u8; 32], [2u8; 32], [0xffu8; 32], [7u8; 32]] {
        assert_eq!(
            VerifyingKey::from_bytes(&candidate).is_ok(),
            ed25519_dalek::VerifyingKey::from_bytes(&candidate).is_ok()
        );
    }
    let public = SigningKey::from_bytes(&[1u8; 32]).verifying_key();
    let parsed = VerifyingKey::from_bytes(&public.to_bytes()).expect("a public key is a point");
    assert_eq!(parsed, public);
}

#[test]
fn strict_verification_rejects_a_changed_message() {
    let key = SigningKey::from_bytes(&[3u8; 32]);
    let signature = key.sign(b"hello");
    assert!(key.verifying_key().verify_strict(b"hello", &signature).is_ok());
    assert!(key.verifying_key().verify_strict(b"hellp", &signature).is_err());
}
