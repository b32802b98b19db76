//! Bounded local IPC types and framing rules for the PAM client and agent.
//!
//! The protocol never carries enrollment tokens; the credential exchange
//! message carries the password the PAM stack collected, and nothing else.
use vstd::prelude::*;
use vstd::string::StringSliceAdditionalSpecFns;

verus! {

pub const PROTOCOL_VERSION: u16 = 1;
pub const MAX_MESSAGE_BYTES: usize = 4 * 1024;
pub const MAX_LOCAL_USERNAME_BYTES: usize = 32;

#[derive(Clone, Copy, Debug, PartialEq, Eq, Structural)]
pub enum Consumer {
    Sddm,
    Quickshell,
    Tty,
    Sudo,
    Polkit,
    Ssh,
}

#[derive(Clone, Copy, Debug, PartialEq, Eq, Structural)]
pub enum Operation {
    Login,
    Unlock,
    Elevate,
    RemoteLogin,
}

#[derive(Clone, Debug, PartialEq, Eq)]
pub struct AuthorizationRequest {
    pub version: u16,
    pub request_id: [u8; 16],
    pub local_username: String,
    pub consumer: Consumer,
    pub operation: Operation,
}

/// Credential material forwarded by the PAM module for verification.
#[derive(Clone, Debug, PartialEq, Eq)]
pub enum Credential {
    Password(String),
}

/// A forwarded credential to verify for a local account.
#[derive(Clone, Debug, PartialEq, Eq)]
pub struct CredentialExchangeRequest {
    pub version: u16,
    pub request_id: [u8; 16],
    pub local_username: String,
    pub consumer: Consumer,
    pub operation: Operation,
    pub credential: Credential,
}

/// Every request the agent socket accepts.
#[derive(Clone, Debug, PartialEq, Eq)]
pub enum AgentRequest {
    Authorization(AuthorizationRequest),
    CredentialExchange(CredentialExchangeRequest),
}

#[derive(Clone, Copy, Debug, PartialEq, Eq, Structural)]
pub enum DenialCode {
    NotAuthorized,
    InvalidRequest,
    InternalFailure,
}

#[derive(Clone, Copy, Debug, PartialEq, Eq, Structural)]
pub enum Decision {
    Allow,
    Deny(DenialCode),
}

#[derive(Clone, Copy, Debug, PartialEq, Eq)]
pub struct AuthorizationResponse {
    pub version: u16,
    pub request_id: [u8; 16],
    pub decision: Decision,
}

/// The answer the agent sends to either kind of request.
#[derive(Clone, Copy, Debug, PartialEq, Eq)]
pub struct AgentResponse {
    pub version: u16,
    pub request_id: [u8; 16],
    pub decision: Decision,
}

#[derive(Clone, Copy, Debug, PartialEq, Eq, Structural)]
pub struct PeerCredentials {
    pub pid: i32,
    pub uid: u32,
    pub gid: u32,
}

#[derive(Clone, Copy, Debug, PartialEq, Eq, Structural)]
pub enum PeerDenial {
    ConsumerOperationMismatch,
    UserMismatch,
    UnprivilegedConsumer,
}

/// The class of an I/O failure during an exchange, as far as callers
/// distinguish them.
#[derive(Clone, Copy, Debug, PartialEq, Eq, Structural)]
pub enum IoFailure {
    TimedOut,
    WouldBlock,
    NotFound,
    ConnectionRefused,
    PermissionDenied,
    Other,
}

#[derive(Debug)]
pub enum ProtocolError {
    Io(IoFailure),
    Json(serde_json::Error),
    EmptyMessage,
    MessageTooLarge(usize),
    UnsupportedVersion(u16),
    InvalidLocalUsername,
    RequestIdMismatch,
}

/// A byte allowed in a local username.
pub open spec fn username_byte(b: u8) -> bool {
    (0x61 <= b <= 0x7a) || (0x30 <= b <= 0x39) || b == 0x5f || b == 0x2d
}

/// The local-username rule over the UTF-8 bytes of the name: non-empty, at
/// most `MAX_LOCAL_USERNAME_BYTES`, no leading `-`, and only lowercase ASCII
/// letters, digits, `_` and `-`.
pub open spec fn username_bytes_ok(bytes: Seq<u8>) -> bool {
    &&& bytes.len() > 0
    &&& bytes.len() <= MAX_LOCAL_USERNAME_BYTES
    &&& bytes[0] != 0x2d
    &&& forall|i: int| 0 <= i < bytes.len() ==> username_byte(#[trigger] bytes[i])
}

pub fn valid_local_username(value: &str) -> (r: bool)
    ensures
        r == username_bytes_ok(value.spec_bytes()),
{
    let bytes = value.as_bytes();
    if bytes.len() == 0 || bytes.len() > MAX_LOCAL_USERNAME_BYTES || bytes[0] == 0x2d {
        return false;
    }
    let mut i: usize = 0;
    while i < bytes.len()
        invariant
            bytes@ == value.spec_bytes(),
            i <= bytes@.len(),
            forall|j: int| 0 <= j < i ==> username_byte(#[trigger] bytes@[j]),
        decreases bytes@.len() - i,
    {
        let b = bytes[i];
        if !((0x61 <= b && b <= 0x7a) || (0x30 <= b && b <= 0x39) || b == 0x5f || b == 0x2d) {
            assert(!username_byte(bytes@[i as int]));
            return false;
        }
        i = i + 1;
    }
    true
}

/// Which validation error, if any, a request with this version and
/// username gets.
pub open spec fn request_check(version: u16, username: Seq<char>) -> Option<ProtocolError> {
    if version != PROTOCOL_VERSION {
        Some(ProtocolError::UnsupportedVersion(version))
    } else if !username_bytes_ok(vstd::utf8::encode_utf8(username)) {
        Some(ProtocolError::InvalidLocalUsername)
    } else {
        None
    }
}

fn check_request_fields(version: u16, username: &String) -> (r: Result<(), ProtocolError>)
    ensures
        match request_check(version, username@) {
            Some(ProtocolError::UnsupportedVersion(v)) => r matches Err(ProtocolError::UnsupportedVersion(w)) && w == v,
            Some(_) => r matches Err(ProtocolError::InvalidLocalUsername),
            None => r is Ok,
        },
{
    if version != PROTOCOL_VERSION {
        return Err(ProtocolError::UnsupportedVersion(version));
    }
    if !valid_local_username(username.as_str()) {
        return Err(ProtocolError::InvalidLocalUsername);
    }
    Ok(())
}

impl AuthorizationRequest {
    /// The version must be the protocol version and the username must pass
    /// the local-username rule, checked in that order.
    pub fn validate(&self) -> (r: Result<(), ProtocolError>)
        ensures
            (r is Ok) <==> request_check(self.version, self.local_username@) is None,
            r matches Err(ProtocolError::UnsupportedVersion(v)) ==> v == self.version
                && self.version != PROTOCOL_VERSION,
            (r matches Err(ProtocolError::InvalidLocalUsername)) <==> (self.version
                == PROTOCOL_VERSION && !username_bytes_ok(
                vstd::utf8::encode_utf8(self.local_username@),
            )),
            r is Err ==> (r matches Err(ProtocolError::UnsupportedVersion(_)) || r matches Err(
                ProtocolError::InvalidLocalUsername,
            )),
    {
        check_request_fields(self.version, &self.local_username)
    }
}

impl CredentialExchangeRequest {
    /// Same rule as for authorization requests.
    pub fn validate(&self) -> (r: Result<(), ProtocolError>)
        ensures
            (r is Ok) <==> request_check(self.version, self.local_username@) is None,
            r matches Err(ProtocolError::UnsupportedVersion(v)) ==> v == self.version
                && self.version != PROTOCOL_VERSION,
            (r matches Err(ProtocolError::InvalidLocalUsername)) <==> (self.version
                == PROTOCOL_VERSION && !username_bytes_ok(
                vstd::utf8::encode_utf8(self.local_username@),
            )),
            r is Err ==> (r matches Err(ProtocolError::UnsupportedVersion(_)) || r matches Err(
                ProtocolError::InvalidLocalUsername,
            )),
    {
        check_request_fields(self.version, &self.local_username)
    }
}

/// The consumer/operation pairs the protocol allows.
pub open spec fn supported_pair(consumer: Consumer, operation: Operation) -> bool {
    match (consumer, operation) {
        (Consumer::Sddm, Operation::Login) => true,
        (Consumer::Tty, Operation::Login) => true,
        (Consumer::Quickshell, Operation::Unlock) => true,
        (Consumer::Sudo, Operation::Elevate) => true,
        (Consumer::Polkit, Operation::Elevate) => true,
        (Consumer::Ssh, Operation::RemoteLogin) => true,
        _ => false,
    }
}

pub fn consumer_supports_operation(consumer: Consumer, operation: Operation) -> (r: bool)
    ensures
        r == supported_pair(consumer, operation),
{
    match (consumer, operation) {
        (Consumer::Sddm, Operation::Login) => true,
        (Consumer::Tty, Operation::Login) => true,
        (Consumer::Quickshell, Operation::Unlock) => true,
        (Consumer::Sudo, Operation::Elevate) => true,
        (Consumer::Polkit, Operation::Elevate) => true,
        (Consumer::Ssh, Operation::RemoteLogin) => true,
        _ => false,
    }
}

/// The peer decision: the pair must be supported; root may then use any
/// consumer; any other peer only a same-user Quickshell unlock.
pub open spec fn peer_decision(
    peer: PeerCredentials,
    local_user_uid: u32,
    consumer: Consumer,
    operation: Operation,
) -> Result<(), PeerDenial> {
    if !supported_pair(consumer, operation) {
        Err(PeerDenial::ConsumerOperationMismatch)
    } else if peer.uid == 0 {
        Ok(())
    } else if consumer != Consumer::Quickshell || operation != Operation::Unlock {
        Err(PeerDenial::UnprivilegedConsumer)
    } else if peer.uid != local_user_uid {
        Err(PeerDenial::UserMismatch)
    } else {
        Ok(())
    }
}

/// The protocol allows exactly the pairs (Sddm, Login), (Tty, Login),
/// (Quickshell, Unlock), (Sudo, Elevate), (Polkit, Elevate) and
/// (Ssh, RemoteLogin); a root peer asking for any of them is allowed, and
/// no peer is allowed any other pair.
pub proof fn lemma_supported_pairs(peer: PeerCredentials, local_user_uid: u32, consumer: Consumer, operation: Operation)
    ensures
        supported_pair(consumer, operation) <==> (consumer == Consumer::Sddm && operation == Operation::Login)
            || (consumer == Consumer::Tty && operation == Operation::Login) || (consumer == Consumer::Quickshell
            && operation == Operation::Unlock) || (consumer == Consumer::Sudo && operation == Operation::Elevate)
            || (consumer == Consumer::Polkit && operation == Operation::Elevate) || (consumer == Consumer::Ssh
            && operation == Operation::RemoteLogin),
        peer.uid == 0 && ((consumer == Consumer::Sddm && operation == Operation::Login) || (consumer
            == Consumer::Tty && operation == Operation::Login) || (consumer == Consumer::Quickshell && operation
            == Operation::Unlock) || (consumer == Consumer::Sudo && operation == Operation::Elevate) || (consumer
            == Consumer::Polkit && operation == Operation::Elevate) || (consumer == Consumer::Ssh && operation
            == Operation::RemoteLogin)) ==> peer_decision(peer, local_user_uid, consumer, operation) == Ok::<
            (),
            PeerDenial,
        >(()),
        peer_decision(peer, local_user_uid, consumer, operation) is Ok ==> supported_pair(consumer, operation),
{
}

/// Authorize the process hosting the PAM module, independently of the user's
/// credential and lease. `local_user_uid` must come from a trusted local
/// account lookup, never from the request body.
pub fn authorize_peer(
    peer: PeerCredentials,
    local_user_uid: u32,
    consumer: Consumer,
    operation: Operation,
) -> (r: Result<(), PeerDenial>)
    ensures
        r == peer_decision(peer, local_user_uid, consumer, operation),
{
    if !consumer_supports_operation(consumer, operation) {
        return Err(PeerDenial::ConsumerOperationMismatch);
    }
    if peer.uid == 0 {
        return Ok(());
    }
    if consumer != Consumer::Quickshell || operation != Operation::Unlock {
        return Err(PeerDenial::UnprivilegedConsumer);
    }
    if peer.uid != local_user_uid {
        return Err(PeerDenial::UserMismatch);
    }
    Ok(())
}

/// Byte-wise equality of two request ids.
pub fn request_ids_equal(a: &[u8; 16], b: &[u8; 16]) -> (r: bool)
    ensures
        r == (a@ == b@),
{
    let mut i: usize = 0;
    while i < 16
        invariant
            a@.len() == 16,
            b@.len() == 16,
            i <= 16,
            forall|j: int| 0 <= j < i ==> a@[j] == b@[j],
        decreases 16 - i,
    {
        if a[i] != b[i] {
            return false;
        }
        i = i + 1;
    }
    assert(a@ =~= b@);
    true
}

/// The big-endian value of a four-byte length prefix.
pub open spec fn be_u32(b: Seq<u8>) -> int {
    b[0] * 0x100_0000 + b[1] * 0x1_0000 + b[2] * 0x100 + b[3]
}

/// A frame: the body length as a big-endian `u32`, then the body.
pub open spec fn frame_of(body: Seq<u8>) -> Seq<u8> {
    seq![
        (body.len() / 0x100_0000) as u8,
        ((body.len() / 0x1_0000) % 0x100) as u8,
        ((body.len() / 0x100) % 0x100) as u8,
        (body.len() % 0x100) as u8,
    ] + body
}

/// Frame an encoded message body for the socket. Empty bodies and bodies
/// over `MAX_MESSAGE_BYTES` are refused.
pub fn encode_frame(body: &[u8]) -> (r: Result<Vec<u8>, ProtocolError>)
    ensures
        body@.len() == 0 ==> r matches Err(ProtocolError::EmptyMessage),
        body@.len() > MAX_MESSAGE_BYTES ==> (r matches Err(ProtocolError::MessageTooLarge(n))
            && n == body@.len()),
        0 < body@.len() <= MAX_MESSAGE_BYTES ==> (r matches Ok(frame) && frame@ == frame_of(
            body@,
        )),
{
    let len = body.len();
    if len == 0 {
        return Err(ProtocolError::EmptyMessage);
    }
    if len > MAX_MESSAGE_BYTES {
        return Err(ProtocolError::MessageTooLarge(len));
    }
    let mut out: Vec<u8> = Vec::with_capacity(len + 4);
    out.push((len / 0x100_0000) as u8);
    out.push(((len / 0x1_0000) % 0x100) as u8);
    out.push(((len / 0x100) % 0x100) as u8);
    out.push((len % 0x100) as u8);
    assert(out@ =~= frame_of(body@).subrange(0, 4));
    let mut i: usize = 0;
    while i < len
        invariant
            len == body@.len(),
            i <= len,
            out@ == frame_of(body@).subrange(0, 4 + i),
        decreases len - i,
    {
        out.push(body[i]);
        i = i + 1;
        assert(out@ =~= frame_of(body@).subrange(0, 4 + i));
    }
    assert(out@ =~= frame_of(body@));
    Ok(out)
}

/// Read the body length from a frame prefix. A zero length or one over
/// `MAX_MESSAGE_BYTES` is refused before any body is read.
pub fn frame_length(prefix: [u8; 4]) -> (r: Result<usize, ProtocolError>)
    ensures
        be_u32(prefix@) == 0 ==> r matches Err(ProtocolError::EmptyMessage),
        be_u32(prefix@) > MAX_MESSAGE_BYTES ==> (r matches Err(ProtocolError::MessageTooLarge(n))
            && n == be_u32(prefix@)),
        0 < be_u32(prefix@) <= MAX_MESSAGE_BYTES ==> (r matches Ok(n) && n == be_u32(prefix@)),
{
    let length: u64 = prefix[0] as u64 * 0x100_0000 + prefix[1] as u64 * 0x1_0000
        + prefix[2] as u64 * 0x100 + prefix[3] as u64;
    if length == 0 {
        return Err(ProtocolError::EmptyMessage);
    }
    if length > MAX_MESSAGE_BYTES as u64 {
        return Err(ProtocolError::MessageTooLarge(length as usize));
    }
    Ok(length as usize)
}

/// A framed body's length prefix reads back as the body's length.
pub proof fn lemma_frame_roundtrip(body: Seq<u8>)
    requires
        0 < body.len() <= MAX_MESSAGE_BYTES,
    ensures
        be_u32(frame_of(body).subrange(0, 4)) == body.len(),
        frame_of(body).subrange(4, frame_of(body).len() as int) == body,
{
    let n = body.len();
    let f = frame_of(body);
    assert(n / 0x100_0000 == 0);
    assert(f.subrange(4, f.len() as int) =~= body);
    assert(n == (n / 0x1_0000 % 0x100) * 0x1_0000 + (n / 0x100 % 0x100) * 0x100 + n % 0x100)
        by (nonlinear_arith)
        requires
            0 < n <= 4096,
    ;
}

/// An answer is acceptable only at the protocol version and with the
/// request's correlation id.
pub fn check_response(request: &AuthorizationRequest, response: &AuthorizationResponse) -> (r:
    Result<(), ProtocolError>)
    ensures
        response.version != PROTOCOL_VERSION ==> (r matches Err(
            ProtocolError::UnsupportedVersion(v),
        ) && v == response.version),
        response.version == PROTOCOL_VERSION && response.request_id@ != request.request_id@
            ==> r matches Err(ProtocolError::RequestIdMismatch),
        response.version == PROTOCOL_VERSION && response.request_id@ == request.request_id@
            ==> r is Ok,
{
    if response.version != PROTOCOL_VERSION {
        return Err(ProtocolError::UnsupportedVersion(response.version));
    }
    if !request_ids_equal(&response.request_id, &request.request_id) {
        return Err(ProtocolError::RequestIdMismatch);
    }
    Ok(())
}

} // verus!
