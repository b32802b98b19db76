//! The endpoint agent: its configuration, its device identity, the signed
//! check-in with the issuer, applying a check-in response to the lease
//! store (every lease verified against the pinned issuer key set before it
//! is recorded), and which lease the PAM socket decides with.
//!
//! HTTP, the clock, the random seed and every file read or write are the
//! caller's I/O; their results come in as arguments.
use vstd::prelude::*;
use vstd::string::StringExecFns;
use vstd::string::StrSliceExecFns;
use vstd::string::StringSliceAdditionalSpecFns;
use vstd::utf8::encode_utf8;
use crate::authz::{first_denial, lease_permits, Operation, Request, VerifiedLease};
use crate::canonical::{decimal, push_decimal, push_str};
use crate::codec::{ed25519_public_key, ed25519_signature, hex_encode, hex_text, sha256, sha256_digest};
use crate::keys::{SigningKey, VerifyingKey};
use crate::provisioning::PosixMapping;
use crate::store::{
    first_active, first_with_id, issuer_verifying_key, lease_shows, newest_usable, pinned_key_bytes,
    pinned_views, recorded, record_refusal, refusal_reported, usable, IssuerKeySet, KeyError, KeyState, LeasePayload,
    PinnedIssuerKey, PinnedView, RecordError, SignedLease, SignedView, Store, StoreError,
    StoreView, Refusal, SignatureFault, expired_message, key_error_message, key_error_text,
    record_error_message, record_error_text, rollback_message, store_error_text,
};
use crate::text::{has_prefix, lemma_has_prefix_concat, str_eq, string_views};

verus! {

#[derive(Debug)]
pub enum AgentError {
    Io(std::io::Error),
    Json(serde_json::Error),
    Http(String),
    Hex(hex::FromHexError),
    Ed25519(ed25519_dalek::SignatureError),
    Message(String),
}

/// The refusal of a device key file shorter than a seed.
pub open spec fn short_key_message() -> Seq<char> {
    "device key file must be 32 bytes"@
}

/// The refusal of a lease without key id when no key set came with it.
pub open spec fn no_issuer_key_message() -> Seq<char> {
    "no pinned issuer key available to verify the lease"@
}

/// The refusal of a key id the persisted key set does not hold.
pub open spec fn unknown_key_id_message(key_id: Seq<char>) -> Seq<char> {
    "unknown key_id "@ + key_id
}

/// The status-poll command's usage.
pub open spec fn enr_status_usage_message() -> Seq<char> {
    "enr-status requires --server <url> --key <path> --request-id <id>"@
}

/// Agent configuration (a JSON file).
#[derive(Debug)]
pub struct AgentConfig {
    pub server_url: String,
    pub device_id: String,
    pub state_dir: String,
    pub socket_path: String,
    /// Seconds between check-ins.
    pub check_in_interval_seconds: u64,
}

/// The check-in interval when the configuration gives none.
pub fn default_check_in_interval() -> (r: u64)
    ensures
        r == 300,
{
    300
}

/// The shortest pause between periodic check-ins, in seconds.
pub const MIN_CHECK_IN_INTERVAL_SECS: u64 = 30;

/// `name` inside directory `dir`, as `Path::join` of a relative name: the
/// name follows a separator, added unless `dir` is empty or ends with one.
pub open spec fn path_join(dir: Seq<char>, name: Seq<char>) -> Seq<char> {
    if dir.len() == 0 || dir.last() == '/' {
        dir + name
    } else {
        dir + seq!['/'] + name
    }
}

fn join_path(dir: &str, name: &str) -> (r: String)
    ensures
        r@ == path_join(dir@, name@),
{
    proof {
        reveal_strlit("/");
    }
    let n = dir.unicode_len();
    let mut out = dir.to_owned();
    if n > 0 && dir.get_char(n - 1) != '/' {
        out.append("/");
    }
    out.append(name);
    out
}

impl AgentConfig {
    /// The device key file in the state directory.
    pub fn device_key_path(&self) -> (r: String)
        ensures
            r@ == path_join(self.state_dir@, "device.key"@),
    {
        join_path(self.state_dir.as_str(), "device.key")
    }

    /// The pinned issuer key set file in the state directory.
    pub fn key_set_path(&self) -> (r: String)
        ensures
            r@ == path_join(self.state_dir@, "issuer-keys.json"@),
    {
        join_path(self.state_dir.as_str(), "issuer-keys.json")
    }

    /// The lease store file in the state directory.
    pub fn store_path(&self) -> (r: String)
        ensures
            r@ == path_join(self.state_dir@, "leases.json"@),
    {
        join_path(self.state_dir.as_str(), "leases.json")
    }

    /// The pause between periodic check-ins: the configured interval, but
    /// never under thirty seconds.
    pub fn check_in_pause_secs(&self) -> (r: u64)
        ensures
            r == if self.check_in_interval_seconds >= MIN_CHECK_IN_INTERVAL_SECS {
                self.check_in_interval_seconds
            } else {
                MIN_CHECK_IN_INTERVAL_SECS
            },
    {
        if self.check_in_interval_seconds >= MIN_CHECK_IN_INTERVAL_SECS {
            self.check_in_interval_seconds
        } else {
            MIN_CHECK_IN_INTERVAL_SECS
        }
    }
}

/// The agent's device identity: an Ed25519 key pair, with the public key
/// in lowercase hex as it is registered with the issuer.
pub struct DeviceIdentity {
    pub signing_key: SigningKey,
    pub public_key_hex: String,
}

impl DeviceIdentity {
    /// The hex public key belongs to the signing key.
    pub open spec fn wf(&self) -> bool {
        self.public_key_hex@ == hex_text(ed25519_public_key(self.signing_key@))
    }

    pub fn from_signing_key(signing_key: SigningKey) -> (r: DeviceIdentity)
        ensures
            r.wf(),
            r.signing_key@ == signing_key@,
    {
        let public = signing_key.verifying_key().to_bytes();
        DeviceIdentity { public_key_hex: hex_encode(&public), signing_key }
    }

    /// The identity stored in a device key file: its first 32 bytes are
    /// the secret seed; a shorter file is refused.
    pub fn from_key_file(bytes: &[u8]) -> (r: Result<DeviceIdentity, AgentError>)
        ensures
            bytes@.len() < 32 ==> (r matches Err(AgentError::Message(m)) && m@ == short_key_message()),
            bytes@.len() >= 32 ==> (r matches Ok(id) && id.wf() && id.signing_key@ == bytes@.subrange(
                0,
                32,
            )),
    {
        if bytes.len() < 32 {
            return Err(AgentError::Message("device key file must be 32 bytes".to_owned()));
        }
        let mut seed = [0u8; 32];
        let mut i: usize = 0;
        while i < 32
            invariant
                bytes@.len() >= 32,
                i <= 32,
                seed@.len() == 32,
                forall|j: int| 0 <= j < i ==> seed@[j] == bytes@[j],
            decreases 32 - i,
        {
            seed[i] = bytes[i];
            i = i + 1;
        }
        assert(seed@ =~= bytes@.subrange(0, 32));
        Ok(DeviceIdentity::from_signing_key(SigningKey::from_bytes(&seed)))
    }

    /// The bytes the key file holds: the secret seed.
    pub fn key_file_bytes(&self) -> (r: [u8; 32])
        ensures
            r@ == self.signing_key@,
    {
        self.signing_key.to_bytes()
    }
}

/// The check-in request body.
#[derive(Debug)]
pub struct CheckInRequest {
    pub device_id: String,
    pub timestamp: u64,
    pub signature_hex: String,
}

/// The signed check-in message: `device_id|timestamp`.
pub open spec fn check_in_message(device_id: Seq<char>, timestamp: u64) -> Seq<u8> {
    encode_utf8(device_id) + seq![0x7cu8] + decimal(timestamp as nat)
}

/// The bytes a check-in signs.
pub fn check_in_message_bytes(device_id: &str, timestamp: u64) -> (r: Vec<u8>)
    ensures
        r@ == check_in_message(device_id@, timestamp),
{
    let mut out: Vec<u8> = Vec::new();
    push_str(&mut out, device_id);
    out.push(0x7c);
    push_decimal(&mut out, timestamp);
    assert(out@ =~= check_in_message(device_id@, timestamp));
    out
}

/// A check-in request for `device_id` at `timestamp`, signed with the
/// device key.
pub fn signed_check_in(identity: &DeviceIdentity, device_id: &str, timestamp: u64) -> (r: CheckInRequest)
    ensures
        r.device_id@ == device_id@,
        r.timestamp == timestamp,
        r.signature_hex@ == hex_text(
            ed25519_signature(identity.signing_key@, check_in_message(device_id@, timestamp)),
        ),
{
    let message = check_in_message_bytes(device_id, timestamp);
    let signature = identity.signing_key.sign(message.as_slice());
    CheckInRequest {
        device_id: device_id.to_owned(),
        timestamp,
        signature_hex: hex_encode(&signature),
    }
}

/// `s` without every trailing `c`, as `str::trim_end_matches(c)`.
pub open spec fn trim_trailing(s: Seq<char>, c: char) -> Seq<char>
    decreases s.len(),
{
    if s.len() > 0 && s.last() == c {
        trim_trailing(s.drop_last(), c)
    } else {
        s
    }
}

/// `text` without its trailing slashes.
pub fn trim_trailing_slashes(text: &str) -> (r: &str)
    ensures
        r@ == trim_trailing(text@, '/'),
{
    let mut n = text.unicode_len();
    assert(text@.subrange(0, n as int) =~= text@);
    while n > 0 && text.get_char(n - 1) == '/'
        invariant
            n <= text@.len(),
            trim_trailing(text@, '/') == trim_trailing(text@.subrange(0, n as int), '/'),
        decreases n,
    {
        assert(text@.subrange(0, n as int).drop_last() =~= text@.subrange(0, n - 1));
        n = n - 1;
    }
    text.substring_char(0, n)
}

/// The check-in endpoint under the server URL.
pub fn check_in_url(server_url: &str) -> (r: String)
    ensures
        r@ == trim_trailing(server_url@, '/') + "/api/v1/device/check-ins"@,
{
    let mut url = trim_trailing_slashes(server_url).to_owned();
    url.append("/api/v1/device/check-ins");
    url
}

#[derive(Debug)]
pub enum CheckInError {
    Http(String),
    Rejected { status: u16, body: String },
    Json(serde_json::Error),
    Io(std::io::Error),
}

/// The server does not know this device's key: enrollment comes first.
pub fn needs_enrollment(error: &CheckInError) -> (r: bool)
    ensures
        r == (error matches CheckInError::Rejected { status, .. } && status == 401),
{
    match error {
        CheckInError::Rejected { status, .. } => *status == 401,
        _ => false,
    }
}

/// One signed lease as the check-in response carries it.
#[derive(Debug)]
pub struct SignedLeaseWire {
    pub payload: LeasePayload,
    pub signature: String,
    pub key_id: String,
}

/// The check-in response: the lease records, the pinned issuer key set
/// and the current revocation epoch, with the provisioned POSIX mapping
/// when the server has one.
#[derive(Debug)]
pub struct CheckInResponse {
    pub version: u32,
    pub high_water_revocation_epoch: u64,
    pub leases: Vec<SignedLeaseWire>,
    pub key_id: String,
    pub issuer_keys: Vec<PinnedIssuerKey>,
    pub posix: Option<PosixMapping>,
}

pub open spec fn wire_view(w: SignedLeaseWire) -> SignedView {
    SignedView { payload: w.payload@, signature: w.signature@, key_id: w.key_id@ }
}

pub open spec fn wire_views(leases: Seq<SignedLeaseWire>) -> Seq<SignedView> {
    leases.map_values(|w: SignedLeaseWire| wire_view(w))
}

fn copy_keys(keys: &Vec<PinnedIssuerKey>) -> (r: Vec<PinnedIssuerKey>)
    ensures
        pinned_views(r@) == pinned_views(keys@),
{
    let mut out: Vec<PinnedIssuerKey> = Vec::new();
    let mut i: usize = 0;
    while i < keys.len()
        invariant
            i <= keys@.len(),
            pinned_views(out@) == pinned_views(keys@.subrange(0, i as int)),
        decreases keys@.len() - i,
    {
        let ghost before = out@;
        let copy = keys[i].duplicate();
        out.push(copy);
        assert(keys@.subrange(0, i + 1) =~= keys@.subrange(0, i as int).push(keys@[i as int]));
        assert(out@ =~= before.push(copy));
        assert(pinned_views(out@) =~= pinned_views(before).push(copy@));
        assert(pinned_views(keys@.subrange(0, i + 1)) =~= pinned_views(keys@.subrange(0, i as int)).push(
            keys@[i as int]@,
        ));
        i = i + 1;
    }
    assert(keys@.subrange(0, keys@.len() as int) =~= keys@);
    out
}

/// The refusal text of a key set with one active key: the first key whose
/// id does not fit its public key is reported.
pub open spec fn key_id_refusal(keys: Seq<PinnedView>, m: Seq<char>) -> bool {
    exists|i: int, e: KeyError|
        #![trigger keys[i], key_error_message(e, m)]
        0 <= i < keys.len() && crate::store::key_id_fault(keys[i]) is Some && (forall|j: int|
            0 <= j < i ==> crate::store::key_id_fault(keys[j]) is None) && crate::store::key_fault_reported(
            crate::store::key_id_fault(keys[i])->0,
            keys[i],
            e,
        ) && key_error_message(e, m)
}

/// The key set a check-in response distributes: none when it carries no
/// keys; otherwise its keys as a version 1 set, which must validate.
/// Persisting it is the caller's I/O.
pub fn check_in_key_set(response: &CheckInResponse) -> (r: Result<Option<IssuerKeySet>, AgentError>)
    ensures
        response.issuer_keys@.len() == 0 ==> r matches Ok(None),
        response.issuer_keys@.len() > 0 ==> match r {
            Ok(Some(set)) => set.version == 1 && set.key_views() == pinned_views(response.issuer_keys@),
            Ok(None) => false,
            Err(e) => e is Message,
        },
        response.issuer_keys@.len() > 0 ==> (r is Ok <==> ({
            let keys = pinned_views(response.issuer_keys@);
            crate::store::active_count(keys) == 1 && forall|i: int|
                0 <= i < keys.len() ==> crate::store::key_id_fault(#[trigger] keys[i]) is None
        })),
        response.issuer_keys@.len() > 0 && crate::store::active_count(pinned_views(response.issuer_keys@))
            != 1 ==> (r matches Err(AgentError::Message(m)) && m@ == "key set must contain exactly one active key"@),
        response.issuer_keys@.len() > 0 && crate::store::active_count(pinned_views(response.issuer_keys@))
            == 1 ==> (r matches Err(AgentError::Message(m)) ==> key_id_refusal(
            pinned_views(response.issuer_keys@),
            m@,
        )),
{
    if response.issuer_keys.len() == 0 {
        return Ok(None);
    }
    let set = IssuerKeySet { version: 1, keys: copy_keys(&response.issuer_keys) };
    match set.validate() {
        Ok(()) => Ok(Some(set)),
        Err(e) => {
            let m = key_error_text(&e);
            proof {
                let keys = pinned_views(response.issuer_keys@);
                assert(set.key_views() == keys);
                if crate::store::active_count(keys) == 1 {
                    let i = choose|i: int|
                        0 <= i < set.keys@.len() && crate::store::key_id_fault(#[trigger] set.key_views()[i]) is Some
                            && (forall|j: int| 0 <= j < i ==> crate::store::key_id_fault(set.key_views()[j]) is None)
                            && crate::store::key_fault_reported(
                            crate::store::key_id_fault(set.key_views()[i])->0,
                            set.key_views()[i],
                            e,
                        );
                    assert(keys[i] == set.key_views()[i]);
                    assert(key_error_message(e, m@));
                    assert forall|j: int| 0 <= j < i implies crate::store::key_id_fault(keys[j]) is None by {
                        assert(keys[j] == set.key_views()[j]);
                    }
                    assert(key_id_refusal(keys, m@));
                } else {
                    assert(e matches KeyError::NotExactlyOneActive);
                    assert(m@ == "key set must contain exactly one active key"@);
                }
            }
            Err(AgentError::Message(m))
        },
    }
}

/// The public key hex of the first key with id `key_id`.
pub fn public_key_hex_for_key_id(set: &IssuerKeySet, key_id: &str) -> (r: Result<String, AgentError>)
    ensures
        (forall|i: int| 0 <= i < set.keys@.len() ==> set.key_views()[i].key_id != key_id@) ==> (r matches Err(
            AgentError::Message(m),
        ) && m@ == unknown_key_id_message(key_id@)),
        forall|i: int|
            first_with_id(set.key_views(), key_id@, i) ==> (r matches Ok(h) && h@
                == set.key_views()[i].public_key_hex),
        r is Ok ==> exists|i: int| first_with_id(set.key_views(), key_id@, i),
        r is Err ==> forall|i: int| 0 <= i < set.keys@.len() ==> set.key_views()[i].key_id != key_id@,
{
    let ghost keys = set.key_views();
    let mut i: usize = 0;
    while i < set.keys.len()
        invariant
            keys == set.key_views(),
            i <= set.keys@.len(),
            forall|j: int| 0 <= j < i ==> keys[j].key_id != key_id@,
        decreases set.keys@.len() - i,
    {
        assert(set.keys@[i as int]@ == keys[i as int]);
        if str_eq(set.keys[i].key_id.as_str(), key_id) {
            proof {
                assert(first_with_id(keys, key_id@, i as int));
                assert forall|k: int| first_with_id(keys, key_id@, k) implies k == i by {
                    if k < i {
                    } else if k > i {
                    }
                }
            }
            return Ok(set.keys[i].public_key_hex.clone());
        }
        i = i + 1;
    }
    let mut m = "unknown key_id ".to_owned();
    m.append(key_id);
    Err(AgentError::Message(m))
}

pub open spec fn opt_key_views(set: Option<&IssuerKeySet>) -> Option<Seq<PinnedView>> {
    match set {
        Some(s) => Some(s.key_views()),
        None => None,
    }
}

/// The keys of the persisted key set, when it loaded.
pub open spec fn loaded_key_views(persisted: Result<IssuerKeySet, KeyError>) -> Option<Seq<PinnedView>> {
    match persisted {
        Ok(s) => Some(s.key_views()),
        Err(_) => None,
    }
}

/// What the refusal of a lease whose key does not resolve says, where the
/// reason is known: no key set and no key id; a persisted set that did not
/// load, or lacks the id; a key set that lacks the id, has it revoked, or
/// has no active key for a lease without id.
pub open spec fn unresolved_message(
    w: SignedView,
    set: Option<Seq<PinnedView>>,
    persisted: Result<IssuerKeySet, KeyError>,
    m: Seq<char>,
) -> bool {
    match set {
        None => if w.key_id.len() == 0 {
            m == no_issuer_key_message()
        } else {
            match persisted {
                Err(ke) => key_error_message(ke, m),
                Ok(p) => (forall|i: int| 0 <= i < p.key_views().len() ==> p.key_views()[i].key_id != w.key_id)
                    ==> m == unknown_key_id_message(w.key_id),
            }
        },
        Some(keys) => if w.key_id.len() > 0 {
            &&& (forall|i: int| 0 <= i < keys.len() ==> keys[i].key_id != w.key_id) ==> m == "unknown key_id "@
                + w.key_id + ": not in the pinned set"@
            &&& (forall|i: int|
                first_with_id(keys, w.key_id, i) && keys[i].state == KeyState::Revoked ==> m == "key "@
                    + w.key_id + " is revoked"@)
        } else {
            (forall|i: int| 0 <= i < keys.len() ==> keys[i].state != KeyState::Active) ==> m
                == "key set must contain exactly one active key"@
        },
    }
}

/// The key bytes a lease is checked with. With a key set: the first key
/// with the lease's id, unless revoked, or the first active key for a
/// lease without id. Without one: a lease with an id uses the first key
/// with that id in the persisted set; a lease without id has no key.
pub open spec fn resolved_key(
    w: SignedView,
    set: Option<Seq<PinnedView>>,
    persisted: Option<Seq<PinnedView>>,
) -> Option<Seq<u8>> {
    match set {
        Some(keys) => if w.key_id.len() > 0 {
            if exists|i: int| first_with_id(keys, w.key_id, i) {
                let i = choose|i: int| first_with_id(keys, w.key_id, i);
                if keys[i].state == KeyState::Revoked {
                    None
                } else {
                    pinned_key_bytes(keys[i].public_key_hex)
                }
            } else {
                None
            }
        } else {
            if exists|i: int| first_active(keys, i) {
                pinned_key_bytes(keys[choose|i: int| first_active(keys, i)].public_key_hex)
            } else {
                None
            }
        },
        None => if w.key_id.len() > 0 {
            match persisted {
                Some(keys) => if exists|i: int| first_with_id(keys, w.key_id, i) {
                    pinned_key_bytes(keys[choose|i: int| first_with_id(keys, w.key_id, i)].public_key_hex)
                } else {
                    None
                },
                None => None,
            }
        } else {
            None
        },
    }
}

/// Some key with the id means a first one.
proof fn lemma_first_with_id_exists(keys: Seq<PinnedView>, id: Seq<char>, i: int)
    requires
        0 <= i < keys.len(),
        keys[i].key_id == id,
    ensures
        exists|j: int| first_with_id(keys, id, j),
    decreases i,
{
    if exists|j: int| 0 <= j < i && keys[j].key_id == id {
        let j = choose|j: int| 0 <= j < i && keys[j].key_id == id;
        lemma_first_with_id_exists(keys, id, j);
    } else {
        assert(first_with_id(keys, id, i));
    }
}

/// Some active key means a first one.
proof fn lemma_first_active_exists(keys: Seq<PinnedView>, i: int)
    requires
        0 <= i < keys.len(),
        keys[i].state == KeyState::Active,
    ensures
        exists|j: int| first_active(keys, j),
    decreases i,
{
    if exists|j: int| 0 <= j < i && keys[j].state == KeyState::Active {
        let j = choose|j: int| 0 <= j < i && keys[j].state == KeyState::Active;
        lemma_first_active_exists(keys, j);
    } else {
        assert(first_active(keys, i));
    }
}

/// The verifying key for one lease.
fn resolve_key(wire: &SignedLeaseWire, key_set: Option<&IssuerKeySet>, persisted: &Result<IssuerKeySet, KeyError>)
    -> (r: Result<VerifyingKey, AgentError>)
    ensures
        match resolved_key(wire_view(*wire), opt_key_views(key_set), loaded_key_views(*persisted)) {
            Some(bytes) => r matches Ok(k) && k@ == bytes,
            None => r matches Err(AgentError::Message(m)) && unresolved_message(
                wire_view(*wire),
                opt_key_views(key_set),
                *persisted,
                m@,
            ),
        },
{
    let has_id = !wire.key_id.as_str().is_empty();
    match key_set {
        Some(set) => {
            if has_id {
                let r = set.verifying_key_for(wire.key_id.as_str());
                proof {
                    let keys = set.key_views();
                    if exists|i: int| 0 <= i < keys.len() && keys[i].key_id == wire.key_id@ {
                        let i = choose|i: int| 0 <= i < keys.len() && keys[i].key_id == wire.key_id@;
                        lemma_first_with_id_exists(keys, wire.key_id@, i);
                    }
                    if exists|i: int| first_with_id(keys, wire.key_id@, i) {
                        let i = choose|i: int| first_with_id(keys, wire.key_id@, i);
                        assert(first_with_id(keys, wire.key_id@, i));
                    }
                }
                match r {
                    Ok(k) => Ok(k),
                    Err(e) => Err(AgentError::Message(key_error_text(&e))),
                }
            } else {
                let r = set.active_key();
                proof {
                    let keys = set.key_views();
                    if exists|i: int| 0 <= i < keys.len() && keys[i].state == KeyState::Active {
                        let i = choose|i: int| 0 <= i < keys.len() && keys[i].state == KeyState::Active;
                        lemma_first_active_exists(keys, i);
                    }
                    if exists|i: int| first_active(keys, i) {
                        let i = choose|i: int| first_active(keys, i);
                        assert(first_active(keys, i));
                    }
                }
                match r {
                    Ok((_, k)) => Ok(k),
                    Err(e) => Err(AgentError::Message(key_error_text(&e))),
                }
            }
        },
        None => {
            if !has_id {
                return Err(AgentError::Message("no pinned issuer key available to verify the lease".to_owned()));
            }
            let stored = match persisted {
                Ok(stored) => stored,
                Err(e) => return Err(AgentError::Message(key_error_text(e))),
            };
            let hex_key = match public_key_hex_for_key_id(stored, wire.key_id.as_str()) {
                Ok(h) => h,
                Err(e) => return Err(e),
            };
            proof {
                let i = choose|i: int| first_with_id(stored.key_views(), wire.key_id@, i);
                assert(first_with_id(stored.key_views(), wire.key_id@, i));
            }
            match issuer_verifying_key(hex_key.as_str()) {
                Ok(k) => Ok(k),
                Err(e) => Err(AgentError::Message(store_error_text(&e))),
            }
        },
    }
}

/// The store after the first `n` leases are recorded in order at `now`.
#[verifier::opaque]
pub open spec fn applied(s: StoreView, leases: Seq<SignedView>, now: u64, n: int) -> StoreView
    decreases n,
{
    if n <= 0 {
        s
    } else {
        recorded(applied(s, leases, now, n - 1), leases[n - 1], now)
    }
}

/// The lease is checked with a resolved key and the store takes it.
#[verifier::opaque]
pub open spec fn lease_taken(
    s: StoreView,
    w: SignedView,
    set: Option<Seq<PinnedView>>,
    persisted: Option<Seq<PinnedView>>,
    now: u64,
) -> bool {
    resolved_key(w, set, persisted) matches Some(k) && record_refusal(s, w, k, now) is None
}

/// What the refusal of a lease the store turned away says: `lease record:`
/// and the store's reason, in full for a rollback or an expired lease, by
/// its fixed words for a bad signature.
pub open spec fn refusal_message(refusal: Refusal, s: StoreView, w: SignedView, now: u64, m: Seq<char>) -> bool {
    match refusal {
        Refusal::Signature(SignatureFault::Hex) => has_prefix(m, "lease record: hex signature: "@),
        Refusal::Signature(_) => has_prefix(m, "lease record: bad ed25519 signature: "@),
        Refusal::Rollback => m == "lease record: "@ + rollback_message(
            s.high_water_revocation_epoch,
            w.payload.revocation_epoch,
        ),
        Refusal::Expired => m == "lease record: "@ + expired_message(now, w.payload.expires_at),
    }
}

/// The error a lease that is not taken stops the run with: a lease with no
/// resolvable key gets the key problem's text, one the store refuses gets
/// the store's refusal.
pub open spec fn lease_error(
    s: StoreView,
    w: SignedView,
    set: Option<Seq<PinnedView>>,
    persisted: Result<IssuerKeySet, KeyError>,
    now: u64,
    e: AgentError,
) -> bool {
    match resolved_key(w, set, loaded_key_views(persisted)) {
        None => e matches AgentError::Message(m) && unresolved_message(w, set, persisted, m@),
        Some(k) => match record_refusal(s, w, k, now) {
            Some(refusal) => e matches AgentError::Message(m) && refusal_message(refusal, s, w, now, m@),
            None => false,
        },
    }
}

/// The first `n` leases are all taken, each by the store the earlier ones
/// left.
pub open spec fn taken_through(
    s: StoreView,
    leases: Seq<SignedView>,
    set: Option<Seq<PinnedView>>,
    persisted: Option<Seq<PinnedView>>,
    now: u64,
    n: int,
) -> bool {
    forall|j: int| 0 <= j < n ==> lease_taken(applied(s, leases, now, j), #[trigger] leases[j], set, persisted, now)
}

/// A prefix of a text's continuation extends the text's prefix.
proof fn lemma_prefix_after(p: Seq<char>, q: Seq<char>, t: Seq<char>)
    requires
        has_prefix(t, q),
    ensures
        has_prefix(p + t, p + q),
{
    assert((p + t).subrange(0, (p + q).len() as int) =~= p + q);
}

/// The text of a record error, after `lease record: `, says what the
/// refusal it reports is.
proof fn lemma_record_message(s: StoreView, w: SignedView, key: Seq<u8>, now: u64, e: RecordError, t: Seq<char>)
    requires
        record_refusal(s, w, key, now) is Some,
        refusal_reported(record_refusal(s, w, key, now)->0, s, w, now, e),
        record_error_message(e, t),
    ensures
        refusal_message(record_refusal(s, w, key, now)->0, s, w, now, "lease record: "@ + t),
{
    match record_refusal(s, w, key, now)->0 {
        Refusal::Signature(SignatureFault::Hex) => {
            lemma_prefix_after("lease record: "@, "hex signature: "@, t);
            assert("lease record: "@ + "hex signature: "@ == "lease record: hex signature: "@) by {
                reveal_strlit("lease record: ");
                reveal_strlit("hex signature: ");
                reveal_strlit("lease record: hex signature: ");
                assert("lease record: "@ + "hex signature: "@ =~= "lease record: hex signature: "@);
            }
        },
        Refusal::Signature(_) => {
            lemma_prefix_after("lease record: "@, "bad ed25519 signature: "@, t);
            assert("lease record: "@ + "bad ed25519 signature: "@ == "lease record: bad ed25519 signature: "@) by {
                reveal_strlit("lease record: ");
                reveal_strlit("bad ed25519 signature: ");
                reveal_strlit("lease record: bad ed25519 signature: ");
                assert("lease record: "@ + "bad ed25519 signature: "@ =~= "lease record: bad ed25519 signature: "@);
            }
        },
        _ => {},
    }
}

/// Check one lease's key and record it.
fn apply_one(
    store: &mut Store,
    wire: &SignedLeaseWire,
    key_set: Option<&IssuerKeySet>,
    persisted: &Result<IssuerKeySet, KeyError>,
    now: u64,
) -> (r: Result<(), AgentError>)
    ensures
        r is Ok <==> lease_taken(
            old(store)@,
            wire_view(*wire),
            opt_key_views(key_set),
            loaded_key_views(*persisted),
            now,
        ),
        r is Ok ==> final(store)@ == recorded(old(store)@, wire_view(*wire), now),
        r matches Err(e) ==> final(store)@ == old(store)@ && lease_error(
            old(store)@,
            wire_view(*wire),
            opt_key_views(key_set),
            *persisted,
            now,
            e,
        ),
{
    proof {
        reveal(lease_taken);
    }
    let key = match resolve_key(wire, key_set, persisted) {
        Ok(k) => k,
        Err(e) => return Err(e),
    };
    let signed = SignedLease {
        payload: wire.payload.duplicate(),
        signature: wire.signature.clone(),
        key_id: wire.key_id.clone(),
    };
    assert(signed@ == wire_view(*wire));
    match store.record(&signed, &key, now) {
        Ok(()) => Ok(()),
        Err(e) => {
            let mut m = "lease record: ".to_owned();
            let t = record_error_text(&e);
            m.append(t.as_str());
            proof {
                lemma_has_prefix_concat("lease record: "@, t@);
                lemma_record_message(old(store)@, signed@, key@, now, e, t@);
            }
            Err(AgentError::Message(m))
        },
    }
}

/// One more lease recorded.
pub proof fn lemma_applied_step(s: StoreView, leases: Seq<SignedView>, now: u64, i: int)
    requires
        0 <= i,
    ensures
        applied(s, leases, now, i + 1) == recorded(applied(s, leases, now, i), leases[i], now),
        applied(s, leases, now, 0) == s,
{
    reveal_with_fuel(applied, 2);
}

proof fn lemma_taken_step(
    start: StoreView,
    leases: Seq<SignedView>,
    set: Option<Seq<PinnedView>>,
    p: Option<Seq<PinnedView>>,
    now: u64,
    i: int,
)
    requires
        0 <= i < leases.len(),
        taken_through(start, leases, set, p, now, i),
        lease_taken(applied(start, leases, now, i), leases[i], set, p, now),
    ensures
        taken_through(start, leases, set, p, now, i + 1),
{
    assert forall|j: int| 0 <= j < i + 1 implies lease_taken(
        applied(start, leases, now, j),
        #[trigger] leases[j],
        set,
        p,
        now,
    ) by {
        if j < i {
        }
    }
}

/// Apply a check-in response: record every lease, in order, through the
/// store's verified path with the key `resolved_key` picks (`key_set` is
/// the set the response distributed, `persisted` the valid set persisted
/// earlier). The first lease that has no key or that the store refuses
/// stops the run; leases recorded before it stay. Returns the store's
/// high-water revocation epoch. Persisting the store is the caller's I/O.
pub fn apply_check_in(
    store: &mut Store,
    response: &CheckInResponse,
    key_set: Option<&IssuerKeySet>,
    persisted: &Result<IssuerKeySet, KeyError>,
    now: u64,
) -> (r: Result<u64, AgentError>)
    ensures
        ({
            let leases = wire_views(response.leases@);
            let set = opt_key_views(key_set);
            let p = loaded_key_views(*persisted);
            &&& taken_through(old(store)@, leases, set, p, now, leases.len() as int) ==> r is Ok
            &&& r matches Ok(h) ==> final(store)@ == applied(old(store)@, leases, now, leases.len() as int)
                && h == final(store)@.high_water_revocation_epoch
                && taken_through(old(store)@, leases, set, p, now, leases.len() as int)
            &&& r matches Err(e) ==> exists|k: int|
                0 <= k < leases.len() && taken_through(old(store)@, leases, set, p, now, k)
                    && !lease_taken(applied(old(store)@, leases, now, k), #[trigger] leases[k], set, p, now)
                    && final(store)@ == applied(old(store)@, leases, now, k) && lease_error(
                    applied(old(store)@, leases, now, k),
                    leases[k],
                    set,
                    *persisted,
                    now,
                    e,
                )
        }),
{
    let ghost leases = wire_views(response.leases@);
    let ghost set = opt_key_views(key_set);
    let ghost p = loaded_key_views(*persisted);
    let ghost start = store@;
    proof {
        lemma_applied_step(start, leases, now, 0);
    }
    let mut i: usize = 0;
    while i < response.leases.len()
        invariant
            leases == wire_views(response.leases@),
            set == opt_key_views(key_set),
            p == loaded_key_views(*persisted),
            start == old(store)@,
            i <= leases.len(),
            store@ == applied(start, leases, now, i as int),
            taken_through(start, leases, set, p, now, i as int),
        decreases leases.len() - i,
    {
        let wire = &response.leases[i];
        assert(wire_view(*wire) == leases[i as int]);
        let ghost before = store@;
        match apply_one(store, wire, key_set, persisted, now) {
            Ok(()) => {},
            Err(e) => {
                proof {
                    let k = i as int;
                    assert(!lease_taken(before, leases[k], set, p, now));
                    assert(!taken_through(start, leases, set, p, now, leases.len() as int));
                    assert(0 <= k < leases.len() && taken_through(start, leases, set, p, now, k)
                        && !lease_taken(applied(start, leases, now, k), leases[k], set, p, now)
                        && store@ == applied(start, leases, now, k) && lease_error(
                        applied(start, leases, now, k),
                        leases[k],
                        set,
                        *persisted,
                        now,
                        e,
                    ));
                }
                return Err(e);
            },
        }
        proof {
            lemma_applied_step(start, leases, now, i as int);
            lemma_taken_step(start, leases, set, p, now, i as int);
        }
        i = i + 1;
    }
    Ok(store.high_water_revocation_epoch())
}

/// Check-ins never lower the revocation high-water mark: after any number
/// of leases are recorded, it is at least what it was, and at least the
/// epoch of each recorded lease.
pub proof fn lemma_applied_never_lowers_high_water(s: StoreView, leases: Seq<SignedView>, now: u64, n: int)
    requires
        0 <= n <= leases.len(),
    ensures
        applied(s, leases, now, n).high_water_revocation_epoch >= s.high_water_revocation_epoch,
        forall|j: int|
            0 <= j < n ==> applied(s, leases, now, n).high_water_revocation_epoch
                >= #[trigger] leases[j].payload.revocation_epoch,
    decreases n,
{
    lemma_applied_step(s, leases, now, 0);
    if n > 0 {
        lemma_applied_never_lowers_high_water(s, leases, now, n - 1);
        lemma_applied_step(s, leases, now, n - 1);
        crate::store::lemma_record_raises_high_water(applied(s, leases, now, n - 1), leases[n - 1], now);
    }
}

/// The key id of a public key: lowercase hex of its SHA-256.
pub fn key_id_of_public_key(public_key: &VerifyingKey) -> (r: String)
    ensures
        r@ == hex_text(sha256(public_key@)),
{
    let bytes = public_key.to_bytes();
    let digest = sha256_digest(&bytes);
    hex_encode(&digest)
}

/// The operations in the order the agent looks for an active lease.
pub open spec fn lease_preference() -> Seq<Operation> {
    seq![Operation::Login, Operation::Unlock, Operation::Elevate, Operation::RemoteLogin]
}

/// Some lease in the store is usable for `op` at `now`.
pub open spec fn has_usable(s: StoreView, now: u64, op: Operation) -> bool {
    exists|i: int| 0 <= i < s.leases.len() && usable(#[trigger] s.leases[i], now, op)
}

/// `lease` is the one the daemon works with: the newest usable lease for
/// the first operation, in the order Login, Unlock, Elevate, RemoteLogin,
/// that has a usable lease at all.
pub open spec fn preferred_lease(s: StoreView, now: u64, lease: VerifiedLease) -> bool {
    exists|k: int|
        0 <= k < 4 && has_usable(s, now, #[trigger] lease_preference()[k]) && (forall|j: int|
            0 <= j < k ==> !has_usable(s, now, lease_preference()[j])) && exists|i: int|
            newest_usable(s.leases, now, lease_preference()[k], i) && lease_shows(lease, s.leases[i].payload)
}

/// Pick the newest unexpired lease from a store: for Login first, then
/// Unlock, Elevate and RemoteLogin.
pub fn active_lease_in(store: &Store, now: u64) -> (r: Option<VerifiedLease<'_>>)
    ensures
        r is None <==> forall|k: int| 0 <= k < 4 ==> !has_usable(store@, now, #[trigger] lease_preference()[k]),
        r matches Some(lease) ==> exists|k: int|
            0 <= k < 4 && has_usable(store@, now, #[trigger] lease_preference()[k]) && (forall|j: int|
                0 <= j < k ==> !has_usable(store@, now, lease_preference()[j])) && exists|i: int|
                newest_usable(store@.leases, now, lease_preference()[k], i) && lease_shows(
                    lease,
                    store@.leases[i].payload,
                ),
{
    let ops = [Operation::Login, Operation::Unlock, Operation::Elevate, Operation::RemoteLogin];
    assert(ops@ == lease_preference());
    let mut k: usize = 0;
    while k < 4
        invariant
            ops@ == lease_preference(),
            k <= 4,
            forall|j: int| 0 <= j < k ==> !has_usable(store@, now, #[trigger] lease_preference()[j]),
        decreases 4 - k,
    {
        match store.active_lease(now, ops[k]) {
            Some(lease) => {
                proof {
                    let i = choose|i: int|
                        newest_usable(store@.leases, now, lease_preference()[k as int], i) && lease_shows(
                            lease,
                            store@.leases[i].payload,
                        );
                    assert(usable(store@.leases[i], now, lease_preference()[k as int]));
                }
                return Some(lease);
            },
            None => {
                assert(!has_usable(store@, now, lease_preference()[k as int]));
            },
        }
        k = k + 1;
    }
    None
}

/// The lease the socket decides with, and the floors that go with it.
#[derive(Debug)]
pub struct ServiceLease<'a> {
    pub lease: VerifiedLease<'a>,
    pub trusted_time_floor: u64,
    pub minimum_revocation_epoch: u64,
}

/// The stand-in for "no active lease": empty subject and device, valid
/// from and expiring at zero, no operations, at the store's high-water
/// epoch. It keeps every request on the real decision path, so each
/// denial stays opaque and correctly framed.
pub fn expired_fallback(store: &Store) -> (r: LeasePayload)
    ensures
        r@.subject_id.len() == 0,
        r@.device_id.len() == 0,
        r@.not_before == 0,
        r@.expires_at == 0,
        r@.revocation_epoch == store@.high_water_revocation_epoch,
        r@.operations.len() == 0,
{
    LeasePayload {
        subject_id: String::new(),
        device_id: String::new(),
        not_before: 0,
        expires_at: 0,
        revocation_epoch: store.high_water_revocation_epoch(),
        operations: Vec::new(),
    }
}

/// The epoch floor for a lease: the lower of the store's high-water epoch
/// and the lease's own (anti-rollback: never below what was persisted,
/// never above what the lease carries).
pub open spec fn epoch_floor(high_water: u64, lease_epoch: u64) -> u64 {
    if high_water <= lease_epoch {
        high_water
    } else {
        lease_epoch
    }
}

/// The active lease of a store with its floors: its `not_before` as the
/// time floor and `epoch_floor` as the epoch floor; `None` when no lease is
/// usable for any operation.
pub fn active_service_lease(store: &Store, now: u64) -> (r: Option<ServiceLease<'_>>)
    ensures
        r is None <==> forall|k: int| 0 <= k < 4 ==> !has_usable(store@, now, #[trigger] lease_preference()[k]),
        r matches Some(sl) ==> sl.trusted_time_floor == sl.lease.not_before && sl.minimum_revocation_epoch
            == epoch_floor(store@.high_water_revocation_epoch, sl.lease.revocation_epoch) && preferred_lease(
            store@,
            now,
            sl.lease,
        ),
{
    let high_water = store.high_water_revocation_epoch();
    match active_lease_in(store, now) {
        Some(lease) => {
            let floor = if high_water <= lease.revocation_epoch {
                high_water
            } else {
                lease.revocation_epoch
            };
            let not_before = lease.not_before;
            Some(ServiceLease { lease, trusted_time_floor: not_before, minimum_revocation_epoch: floor })
        },
        None => None,
    }
}

/// The lease for one connection: the active lease with its floors, or,
/// without one, `fallback` with the high-water epoch as epoch floor.
pub fn service_lease<'a>(store: &'a Store, fallback: &'a LeasePayload, now: u64) -> (r: ServiceLease<'a>)
    ensures
        (forall|k: int| 0 <= k < 4 ==> !has_usable(store@, now, #[trigger] lease_preference()[k])) ==> (
        lease_shows(r.lease, fallback@) && r.trusted_time_floor == fallback@.not_before
            && r.minimum_revocation_epoch == store@.high_water_revocation_epoch),
        (exists|k: int| 0 <= k < 4 && has_usable(store@, now, #[trigger] lease_preference()[k])) ==> (
        r.trusted_time_floor == r.lease.not_before && r.minimum_revocation_epoch == epoch_floor(
            store@.high_water_revocation_epoch,
            r.lease.revocation_epoch,
        ) && preferred_lease(store@, now, r.lease)),
{
    match active_service_lease(store, now) {
        Some(sl) => sl,
        None => ServiceLease {
            lease: fallback.verified_lease(),
            trusted_time_floor: fallback.not_before,
            minimum_revocation_epoch: store.high_water_revocation_epoch(),
        },
    }
}

/// Without an active lease nothing is authorized: a lease that expires at
/// zero denies every request, at any time.
pub proof fn lemma_expired_lease_denies(lease: VerifiedLease, request: Request)
    requires
        lease.expires_at == 0,
    ensures
        first_denial(lease, request) is Some,
        !lease_permits(lease, request),
{
}

/// The installer's status-poll command: server URL, device key file and
/// enrollment request id.
#[derive(Debug)]
pub struct EnrStatusArgs {
    pub server: String,
    pub key: String,
    pub request_id: u64,
}

/// The status-poll arguments after scanning from position `i` with the
/// values found so far: `--server`, `--key` and `--request-id` each take
/// the next argument (empty when there is none; an id that does not parse
/// counts as 0), later ones win, anything else is skipped.
pub open spec fn enr_scan(args: Seq<Seq<char>>, i: int, server: Seq<char>, key: Seq<char>, id: u64) -> (
    Seq<char>,
    Seq<char>,
    u64,
)
    decreases args.len() + 1 - i,
{
    if i < 0 || i >= args.len() {
        (server, key, id)
    } else {
        let next = if i + 1 < args.len() {
            args[i + 1]
        } else {
            Seq::empty()
        };
        if args[i] == "--server"@ {
            enr_scan(args, i + 2, next, key, id)
        } else if args[i] == "--key"@ {
            enr_scan(args, i + 2, server, next, id)
        } else if args[i] == "--request-id"@ {
            let n = if i + 1 < args.len() {
                match crate::text::u64_value(args[i + 1]) {
                    Some(n) => n,
                    None => 0,
                }
            } else {
                0
            };
            enr_scan(args, i + 2, server, key, n)
        } else {
            enr_scan(args, i + 1, server, key, id)
        }
    }
}


/// Parse the status-poll command line; the server, the key file and a
/// non-zero request id are all required.
pub fn parse_enr_status_args(args: &Vec<String>) -> (r: Result<EnrStatusArgs, AgentError>)
    ensures
        ({
            let (server, key, id) = enr_scan(string_views(args@), 0, Seq::empty(), Seq::empty(), 0);
            if server.len() == 0 || key.len() == 0 || id == 0 {
                r matches Err(AgentError::Message(m)) && m@ == enr_status_usage_message()
            } else {
                r matches Ok(a) && a.server@ == server && a.key@ == key && a.request_id == id
            }
        }),
{
    proof {
        reveal_strlit("");
    }
    let ghost argv = string_views(args@);
    let mut server: &str = "";
    let mut key: &str = "";
    let mut id: u64 = 0;
    let mut i: usize = 0;
    assert(server@ =~= Seq::<char>::empty());
    assert(key@ =~= Seq::<char>::empty());
    while i < args.len()
        invariant
            argv == string_views(args@),
            argv.len() == args@.len(),
            i <= args@.len(),
            enr_scan(argv, 0, Seq::empty(), Seq::empty(), 0) == enr_scan(argv, i as int, server@, key@, id),
        decreases args@.len() - i,
    {
        assert(argv[i as int] == args@[i as int]@);
        let arg = args[i].as_str();
        let ghost i0 = i as int;
        let ghost s0 = server@;
        let ghost k0 = key@;
        let ghost d0 = id;
        proof {
            reveal_strlit("");
        }
        let next: &str = if i + 1 < args.len() {
            assert(argv[i + 1] == args@[i + 1]@);
            args[i + 1].as_str()
        } else {
            let empty = "";
            assert(empty@ =~= Seq::<char>::empty());
            empty
        };
        assert(next@ == (if i + 1 < argv.len() { argv[i + 1] } else { Seq::<char>::empty() }));
        if str_eq(arg, "--server") {
            server = next;
            i = i + 1;
            if i < args.len() {
                i = i + 1;
            }
            assert(enr_scan(argv, i0, s0, k0, d0) == enr_scan(argv, i0 + 2, next@, k0, d0));
            assert(enr_scan(argv, i0 + 2, next@, k0, d0) == enr_scan(argv, i as int, server@, key@, id));
        } else if str_eq(arg, "--key") {
            key = next;
            i = i + 1;
            if i < args.len() {
                i = i + 1;
            }
            assert(enr_scan(argv, i0, s0, k0, d0) == enr_scan(argv, i0 + 2, s0, next@, d0));
            assert(enr_scan(argv, i0 + 2, s0, next@, d0) == enr_scan(argv, i as int, server@, key@, id));
        } else if str_eq(arg, "--request-id") {
            id = if i + 1 < args.len() {
                match crate::text::parse_u64_text(next) {
                    Some(n) => n,
                    None => 0,
                }
            } else {
                0
            };
            i = i + 1;
            if i < args.len() {
                i = i + 1;
            }
            assert(enr_scan(argv, i0, s0, k0, d0) == enr_scan(argv, i0 + 2, s0, k0, id));
            assert(enr_scan(argv, i0 + 2, s0, k0, id) == enr_scan(argv, i as int, server@, key@, id));
        } else {
            i = i + 1;
            assert(enr_scan(argv, i0, s0, k0, d0) == enr_scan(argv, i as int, server@, key@, id));
        }
    }
    if server.is_empty() || key.is_empty() || id == 0 {
        return Err(
            AgentError::Message("enr-status requires --server <url> --key <path> --request-id <id>".to_owned()),
        );
    }
    Ok(EnrStatusArgs { server: server.to_owned(), key: key.to_owned(), request_id: id })
}



} // verus!
