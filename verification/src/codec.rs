//! Outside types and calls: hex (0.4), SHA-256 (sha2 0.10) and Ed25519
//! (ed25519-dalek 2), plus the error types of serde_json and std::io that
//! library errors carry.
use vstd::prelude::*;
use vstd::string::StringSliceAdditionalSpecFns;
use vstd::utf8::{encode_utf8, is_ascii_chars, is_ascii_chars_encode_utf8};

verus! {

#[verifier::external_type_specification]
#[verifier::external_body]
pub struct ExJsonError(serde_json::Error);

#[verifier::external_type_specification]
#[verifier::external_body]
pub struct ExIoError(std::io::Error);

#[verifier::external_type_specification]
#[verifier::external_body]
pub struct ExFromHexError(hex::FromHexError);

#[verifier::external_type_specification]
#[verifier::external_body]
pub struct ExSignatureError(ed25519_dalek::SignatureError);

// ---------------------------------------------------------------- hex

/// The lowercase hex digit for a nibble.
pub open spec fn hex_char(n: int) -> char {
    if n == 0 { '0' } else if n == 1 { '1' } else if n == 2 { '2' } else if n == 3 { '3' }
    else if n == 4 { '4' } else if n == 5 { '5' } else if n == 6 { '6' } else if n == 7 { '7' }
    else if n == 8 { '8' } else if n == 9 { '9' } else if n == 10 { 'a' } else if n == 11 { 'b' }
    else if n == 12 { 'c' } else if n == 13 { 'd' } else if n == 14 { 'e' } else { 'f' }
}

/// A nibble's digit is ASCII and reads back as the nibble.
pub proof fn lemma_hex_char(n: int)
    requires
        0 <= n < 16,
    ensures
        '\0' <= hex_char(n) <= '\u{7f}',
        hex_value(hex_char(n) as u8) == Some(n as u8),
{
}

/// Lowercase hex text of `data`: two digits per byte, high nibble first.
pub open spec fn hex_text(data: Seq<u8>) -> Seq<char>
    decreases data.len(),
{
    if data.len() == 0 {
        Seq::empty()
    } else {
        seq![hex_char(data[0] as int / 16), hex_char(data[0] as int % 16)] + hex_text(data.drop_first())
    }
}

/// The value of a hex digit byte (either case).
pub open spec fn hex_value(b: u8) -> Option<u8> {
    if 0x30 <= b <= 0x39 {
        Some((b - 0x30) as u8)
    } else if 0x61 <= b <= 0x66 {
        Some((b - 0x61 + 10) as u8)
    } else if 0x41 <= b <= 0x46 {
        Some((b - 0x41 + 10) as u8)
    } else {
        None
    }
}

/// Text that decodes as hex: an even number of hex digit bytes.
pub open spec fn hex_decodable(text: Seq<u8>) -> bool {
    &&& text.len() % 2 == 0
    &&& forall|i: int| 0 <= i < text.len() ==> (#[trigger] hex_value(text[i])) is Some
}

/// The bytes hex text stands for, one byte per digit pair.
pub open spec fn hex_bytes(text: Seq<u8>) -> Seq<u8> {
    Seq::new(
        text.len() / 2,
        |i: int|
            (hex_value(text[2 * i])->0 * 16 + hex_value(text[2 * i + 1])->0) as u8,
    )
}

/// `hex::encode`: the lowercase hex text of `data`.
#[verifier::external_body]
pub(crate) fn hex_encode(data: &[u8]) -> (r: String)
    ensures
        r@ == hex_text(data@),
{
    hex::encode(data)
}

/// `hex::decode` over the UTF-8 bytes of `text`: succeeds exactly on an
/// even number of hex digits (either case) and yields the byte each digit
/// pair stands for. Which error variant comes on failure is not stated.
#[verifier::external_body]
pub(crate) fn hex_decode(text: &str) -> (r: Result<Vec<u8>, hex::FromHexError>)
    ensures
        r is Ok <==> hex_decodable(text.spec_bytes()),
        r matches Ok(v) ==> v@ == hex_bytes(text.spec_bytes()),
{
    hex::decode(text)
}


/// The length of hex text and the two digits each byte becomes.
pub proof fn lemma_hex_text_digits(data: Seq<u8>)
    ensures
        hex_text(data).len() == 2 * data.len(),
        forall|i: int|
            0 <= i < data.len() ==> hex_text(data)[2 * i] == hex_char(data[i] as int / 16)
                && hex_text(data)[2 * i + 1] == hex_char(data[i] as int % 16),
    decreases data.len(),
{
    if data.len() > 0 {
        let rest = data.drop_first();
        lemma_hex_text_digits(rest);
        assert forall|i: int| 0 <= i < data.len() implies hex_text(data)[2 * i] == hex_char(
            data[i] as int / 16,
        ) && hex_text(data)[2 * i + 1] == hex_char(data[i] as int % 16) by {
            if i > 0 {
                assert(data[i] == rest[i - 1]);
                assert(hex_text(data)[2 * i] == hex_text(rest)[2 * (i - 1)]);
                assert(hex_text(data)[2 * i + 1] == hex_text(rest)[2 * (i - 1) + 1]);
            }
        }
    }
}

/// Lowercase hex text is ASCII, so its UTF-8 bytes are its characters.
pub proof fn lemma_hex_text_bytes(data: Seq<u8>)
    ensures
        encode_utf8(hex_text(data)).len() == 2 * data.len(),
        forall|i: int|
            0 <= i < 2 * data.len() ==> encode_utf8(hex_text(data))[i] == hex_text(data)[i] as u8,
{
    lemma_hex_text_digits(data);
    let t = hex_text(data);
    assert forall|i: int| 0 <= i < t.len() implies '\0' <= #[trigger] t[i] <= '\u{7f}' by {
        let k = i / 2;
        assert(0 <= k < data.len());
        lemma_hex_char(data[k] as int / 16);
        lemma_hex_char(data[k] as int % 16);
        if i % 2 == 0 {
            assert(i == 2 * k);
        } else {
            assert(i == 2 * k + 1);
        }
    }
    assert(is_ascii_chars(t));
    is_ascii_chars_encode_utf8(t);
}

/// Decoding the hex text of some bytes gives those bytes back.
pub proof fn lemma_hex_roundtrip(data: Seq<u8>)
    ensures
        hex_decodable(encode_utf8(hex_text(data))),
        hex_bytes(encode_utf8(hex_text(data))) == data,
{
    lemma_hex_text_digits(data);
    lemma_hex_text_bytes(data);
    let t = encode_utf8(hex_text(data));
    assert forall|i: int| 0 <= i < t.len() implies (#[trigger] hex_value(t[i])) is Some by {
        let k = i / 2;
        lemma_hex_char(data[k] as int / 16);
        lemma_hex_char(data[k] as int % 16);
        if i % 2 == 0 {
            assert(i == 2 * k);
        } else {
            assert(i == 2 * k + 1);
        }
    }
    assert forall|k: int| 0 <= k < data.len() implies #[trigger] hex_bytes(t)[k] == data[k] by {
        lemma_hex_char(data[k] as int / 16);
        lemma_hex_char(data[k] as int % 16);
        assert(t[2 * k] == hex_char(data[k] as int / 16) as u8);
        assert(t[2 * k + 1] == hex_char(data[k] as int % 16) as u8);
    }
    assert(hex_bytes(t) =~= data);
}

// ---------------------------------------------------------------- sha2

/// SHA-256 of `data` (FIPS 180-4), as computed by the sha2 crate.
pub uninterp spec fn sha256(data: Seq<u8>) -> Seq<u8>;

/// `sha2::Sha256::digest`: the 32-byte SHA-256 digest of `data`.
#[verifier::external_body]
pub(crate) fn sha256_digest(data: &[u8]) -> (r: [u8; 32])
    ensures
        r@ == sha256(data@),
{
    <sha2::Sha256 as sha2::Digest>::digest(data).into()
}

// ---------------------------------------------------------------- ed25519

/// The compressed public key ed25519-dalek derives from a 32-byte secret seed.
pub uninterp spec fn ed25519_public_key(seed: Seq<u8>) -> Seq<u8>;

/// Whether 32 bytes decompress to a curve point (`VerifyingKey::from_bytes`).
pub uninterp spec fn ed25519_point(bytes: Seq<u8>) -> bool;

/// The 64-byte Ed25519 signature of `msg` under the key with secret `seed`.
pub uninterp spec fn ed25519_signature(seed: Seq<u8>, msg: Seq<u8>) -> Seq<u8>;

/// Whether `VerifyingKey::verify_strict` accepts `sig` on `msg` for `public`.
pub uninterp spec fn ed25519_verifies(public: Seq<u8>, msg: Seq<u8>, sig: Seq<u8>) -> bool;

/// `SigningKey::from_bytes(seed).verifying_key().to_bytes()`: the public key
/// for a secret seed. The key is computed as a curve point and compressed,
/// so its bytes decompress again.
#[verifier::external_body]
pub(crate) fn ed25519_public_key_of(seed: &[u8; 32]) -> (r: [u8; 32])
    ensures
        r@ == ed25519_public_key(seed@),
        ed25519_point(r@),
{
    ed25519_dalek::SigningKey::from_bytes(seed).verifying_key().to_bytes()
}

/// `VerifyingKey::from_bytes`: succeeds exactly when the bytes decompress.
#[verifier::external_body]
pub(crate) fn ed25519_check_point(bytes: &[u8; 32]) -> (r: Result<(), ed25519_dalek::SignatureError>)
    ensures
        r is Ok <==> ed25519_point(bytes@),
{
    match ed25519_dalek::VerifyingKey::from_bytes(bytes) {
        Ok(_) => Ok(()),
        Err(e) => Err(e),
    }
}

/// `Signer::sign` of a `SigningKey` built from `seed`: the 64-byte signature.
#[verifier::external_body]
pub(crate) fn ed25519_sign(seed: &[u8; 32], msg: &[u8]) -> (r: [u8; 64])
    ensures
        r@ == ed25519_signature(seed@, msg@),
{
    ed25519_dalek::Signer::sign(&ed25519_dalek::SigningKey::from_bytes(seed), msg).to_bytes()
}

/// `Signature::from_slice`: accepts exactly 64 bytes and keeps them.
#[verifier::external_body]
pub(crate) fn ed25519_signature_from_slice(bytes: &[u8]) -> (r: Result<
    [u8; 64],
    ed25519_dalek::SignatureError,
>)
    ensures
        r is Ok <==> bytes@.len() == 64,
        r matches Ok(a) ==> a@ == bytes@,
{
    match ed25519_dalek::Signature::from_slice(bytes) {
        Ok(s) => Ok(s.to_bytes()),
        Err(e) => Err(e),
    }
}

/// `VerifyingKey::verify_strict` for the key with these (decompressing)
/// bytes: `Ok` exactly when the strict check accepts the signature.
#[verifier::external_body]
pub(crate) fn ed25519_verify_strict(public: &[u8; 32], msg: &[u8], sig: &[u8; 64]) -> (r: Result<
    (),
    ed25519_dalek::SignatureError,
>)
    requires
        ed25519_point(public@),
    ensures
        r is Ok <==> ed25519_verifies(public@, msg@, sig@),
{
    match ed25519_dalek::VerifyingKey::from_bytes(public) {
        Ok(key) => key.verify_strict(msg, &ed25519_dalek::Signature::from_bytes(sig)),
        Err(e) => Err(e),
    }
}

} // verus!
