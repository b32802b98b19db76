//! Ed25519 keys held as plain bytes: a signing key is its 32-byte secret
//! seed, a verifying key its 32 compressed-point bytes. ed25519-dalek does
//! every curve computation.
use vstd::prelude::*;
use crate::codec::{
    ed25519_check_point, ed25519_point, ed25519_public_key, ed25519_public_key_of, ed25519_sign,
    ed25519_signature, ed25519_verifies, ed25519_verify_strict,
};

verus! {

/// An Ed25519 signing key, identified by its secret seed.
#[derive(Clone)]
pub struct SigningKey {
    seed: [u8; 32],
}

/// An Ed25519 public key whose bytes decompress to a curve point.
#[derive(Clone, Copy, Debug, PartialEq, Eq)]
pub struct VerifyingKey {
    bytes: [u8; 32],
}

impl View for SigningKey {
    type V = Seq<u8>;

    closed spec fn view(&self) -> Seq<u8> {
        self.seed@
    }
}

impl View for VerifyingKey {
    type V = Seq<u8>;

    closed spec fn view(&self) -> Seq<u8> {
        self.bytes@
    }
}

impl SigningKey {
    /// The signing key with this secret seed.
    pub fn from_bytes(seed: &[u8; 32]) -> (r: SigningKey)
        ensures
            r@ == seed@,
    {
        SigningKey { seed: *seed }
    }

    /// The secret seed.
    pub fn to_bytes(&self) -> (r: [u8; 32])
        ensures
            r@ == self@,
    {
        self.seed
    }

    /// The public key that belongs to this secret.
    pub fn verifying_key(&self) -> (r: VerifyingKey)
        ensures
            r@ == ed25519_public_key(self@),
    {
        let bytes = ed25519_public_key_of(&self.seed);
        VerifyingKey { bytes }
    }

    /// The Ed25519 signature of `msg`.
    pub fn sign(&self, msg: &[u8]) -> (r: [u8; 64])
        ensures
            r@ == ed25519_signature(self@, msg@),
    {
        ed25519_sign(&self.seed, msg)
    }
}

impl VerifyingKey {
    #[verifier::type_invariant]
    closed spec fn decompresses(self) -> bool {
        ed25519_point(self.bytes@)
    }

    /// Accepts exactly the 32-byte strings that decompress to a curve point.
    pub fn from_bytes(bytes: &[u8; 32]) -> (r: Result<VerifyingKey, ed25519_dalek::SignatureError>)
        ensures
            r is Ok <==> ed25519_point(bytes@),
            r matches Ok(k) ==> k@ == bytes@,
    {
        match ed25519_check_point(bytes) {
            Ok(()) => Ok(VerifyingKey { bytes: *bytes }),
            Err(e) => Err(e),
        }
    }

    /// The compressed point.
    pub fn to_bytes(&self) -> (r: [u8; 32])
        ensures
            r@ == self@,
    {
        self.bytes
    }

    /// Strict Ed25519 verification of `sig` on `msg`.
    pub fn verify_strict(&self, msg: &[u8], sig: &[u8; 64]) -> (r: Result<
        (),
        ed25519_dalek::SignatureError,
    >)
        ensures
            r is Ok <==> ed25519_verifies(self@, msg@, sig@),
    {
        proof {
            use_type_invariant(self);
        }
        ed25519_verify_strict(&self.bytes, msg, sig)
    }
}

} // verus!
