//! The decisions of the root-owned agent socket service.
//!
//! Denial mapping is deliberately opaque. Peer identity failures, unknown
//! local accounts and every lease-decision denial map to
//! `Deny(NotAuthorized)`. Only protocol-level validation failures map to
//! `Deny(InvalidRequest)`. This keeps clients from learning which local
//! accounts exist or which lease field failed. Reading the peer identity,
//! the local account database and the clock is the caller's I/O; the
//! results come in as arguments.
use vstd::prelude::*;
use crate::authz;
use crate::authz::{first_denial, VerifiedLease};
use crate::ipc::{
    authorize_peer, peer_decision, request_check, AgentRequest, AgentResponse,
    AuthorizationRequest, Consumer as IpcConsumer, Credential, CredentialExchangeRequest,
    Decision, DenialCode, Operation as IpcOperation, PeerCredentials, PROTOCOL_VERSION,
};
use crate::text::str_eq;

verus! {

#[verifier::external_type_specification]
#[verifier::external_body]
pub struct ExPath(std::path::Path);

/// Upper bound, in seconds, for a single request/response exchange.
pub const CONNECTION_TIMEOUT_SECS: u64 = 10;

/// What the service decides with. `F` is the credential verification
/// delegate: it receives the PAM local username and the presented
/// password and returns whether the local account store accepts them.
pub struct ServiceConfig<'a, F: Fn(&str, &str) -> bool> {
    pub socket_path: &'a std::path::Path,
    /// Already-verified lease; signature checking happens before this.
    pub lease: VerifiedLease<'a>,
    pub trusted_time_floor: u64,
    pub minimum_revocation_epoch: u64,
    /// Stand-in credential for the bound subject; `None` denies every
    /// credential exchange unless a delegate is set.
    pub expected_credential: Option<&'a str>,
    /// The one local account the bound lease authorizes, when set.
    pub bound_local_username: Option<&'a str>,
    /// Credential verification delegate; when set it replaces
    /// `expected_credential`.
    pub credential_verifier: Option<&'a F>,
}

/// The core consumer with the same name.
pub open spec fn core_consumer(consumer: IpcConsumer) -> authz::Consumer {
    match consumer {
        IpcConsumer::Sddm => authz::Consumer::Sddm,
        IpcConsumer::Quickshell => authz::Consumer::Quickshell,
        IpcConsumer::Tty => authz::Consumer::Tty,
        IpcConsumer::Sudo => authz::Consumer::Sudo,
        IpcConsumer::Polkit => authz::Consumer::Polkit,
        IpcConsumer::Ssh => authz::Consumer::Ssh,
    }
}

/// The core operation with the same name.
pub open spec fn core_operation(operation: IpcOperation) -> authz::Operation {
    match operation {
        IpcOperation::Login => authz::Operation::Login,
        IpcOperation::Unlock => authz::Operation::Unlock,
        IpcOperation::Elevate => authz::Operation::Elevate,
        IpcOperation::RemoteLogin => authz::Operation::RemoteLogin,
    }
}

pub fn to_core_consumer(consumer: IpcConsumer) -> (r: authz::Consumer)
    ensures
        r == core_consumer(consumer),
{
    match consumer {
        IpcConsumer::Sddm => authz::Consumer::Sddm,
        IpcConsumer::Quickshell => authz::Consumer::Quickshell,
        IpcConsumer::Tty => authz::Consumer::Tty,
        IpcConsumer::Sudo => authz::Consumer::Sudo,
        IpcConsumer::Polkit => authz::Consumer::Polkit,
        IpcConsumer::Ssh => authz::Consumer::Ssh,
    }
}

pub fn to_core_operation(operation: IpcOperation) -> (r: authz::Operation)
    ensures
        r == core_operation(operation),
{
    match operation {
        IpcOperation::Login => authz::Operation::Login,
        IpcOperation::Unlock => authz::Operation::Unlock,
        IpcOperation::Elevate => authz::Operation::Elevate,
        IpcOperation::RemoteLogin => authz::Operation::RemoteLogin,
    }
}

/// The IPC-to-core mappings are one-to-one: distinct wire values never
/// reach the core as the same value.
pub proof fn lemma_core_mappings_injective(a: IpcConsumer, b: IpcConsumer, x: IpcOperation, y: IpcOperation)
    ensures
        core_consumer(a) == core_consumer(b) ==> a == b,
        core_operation(x) == core_operation(y) ==> x == y,
{
}

/// Each IPC operation and consumer reaches the core under its own name:
/// a Login request is checked against the lease's Login grant, an Ssh
/// request as the Ssh consumer, and so on for every value.
pub proof fn lemma_core_mappings_keep_names(consumer: IpcConsumer, operation: IpcOperation)
    ensures
        operation == IpcOperation::Login <==> core_operation(operation) == authz::Operation::Login,
        operation == IpcOperation::Unlock <==> core_operation(operation) == authz::Operation::Unlock,
        operation == IpcOperation::Elevate <==> core_operation(operation) == authz::Operation::Elevate,
        operation == IpcOperation::RemoteLogin <==> core_operation(operation)
            == authz::Operation::RemoteLogin,
        consumer == IpcConsumer::Sddm <==> core_consumer(consumer) == authz::Consumer::Sddm,
        consumer == IpcConsumer::Quickshell <==> core_consumer(consumer) == authz::Consumer::Quickshell,
        consumer == IpcConsumer::Tty <==> core_consumer(consumer) == authz::Consumer::Tty,
        consumer == IpcConsumer::Sudo <==> core_consumer(consumer) == authz::Consumer::Sudo,
        consumer == IpcConsumer::Polkit <==> core_consumer(consumer) == authz::Consumer::Polkit,
        consumer == IpcConsumer::Ssh <==> core_consumer(consumer) == authz::Consumer::Ssh,
{
}

/// The core request the service builds: the bound lease's own subject and
/// device, the request's consumer and operation, and the service floors.
pub open spec fn core_request<'a, F: Fn(&str, &str) -> bool>(
    consumer: IpcConsumer,
    operation: IpcOperation,
    config: ServiceConfig<'a, F>,
    now: u64,
) -> authz::Request<'a> {
    authz::Request {
        subject_id: config.lease.subject_id,
        device_id: config.lease.device_id,
        consumer: core_consumer(consumer),
        operation: core_operation(operation),
        now,
        trusted_time_floor: config.trusted_time_floor,
        minimum_revocation_epoch: config.minimum_revocation_epoch,
    }
}

/// The lease decision for a request at `now`.
pub fn authorize_lease<F: Fn(&str, &str) -> bool>(
    request: &AuthorizationRequest,
    config: &ServiceConfig<F>,
    now: u64,
) -> (r: Result<(), authz::Denial>)
    ensures
        r == (match first_denial(config.lease, core_request(request.consumer, request.operation, *config, now)) {
            Some(d) => Err(d),
            None => Ok(()),
        }),
{
    authz::authorize(
        &config.lease,
        &authz::Request {
            subject_id: config.lease.subject_id,
            device_id: config.lease.device_id,
            consumer: to_core_consumer(request.consumer),
            operation: to_core_operation(request.operation),
            now,
            trusted_time_floor: config.trusted_time_floor,
            minimum_revocation_epoch: config.minimum_revocation_epoch,
        },
    )
}

/// The authorization decision: invalid requests get `InvalidRequest`; an
/// unknown local account, a peer-policy failure, a request for another
/// account than the bound one, and every lease denial get `NotAuthorized`.
pub open spec fn authorization_decision<'a, F: Fn(&str, &str) -> bool>(
    request: AuthorizationRequest,
    peer: PeerCredentials,
    config: ServiceConfig<'a, F>,
    local_user_uid: Option<u32>,
    now: u64,
) -> Decision {
    if request_check(request.version, request.local_username@) is Some {
        Decision::Deny(DenialCode::InvalidRequest)
    } else if local_user_uid is None {
        Decision::Deny(DenialCode::NotAuthorized)
    } else if peer_decision(peer, local_user_uid->0, request.consumer, request.operation) is Err {
        Decision::Deny(DenialCode::NotAuthorized)
    } else if config.bound_local_username matches Some(bound) && request.local_username@ != bound@ {
        Decision::Deny(DenialCode::NotAuthorized)
    } else if first_denial(config.lease, core_request(request.consumer, request.operation, config, now))
        is Some {
        Decision::Deny(DenialCode::NotAuthorized)
    } else {
        Decision::Allow
    }
}

/// Denials are opaque: a request is refused as invalid exactly when it
/// fails protocol validation; every other refusal (unknown account, peer
/// policy, another account than the bound one, any lease check) is the same
/// `NotAuthorized`, and an allow needs the lease to permit the request.
pub proof fn lemma_denials_are_opaque<'a, F: Fn(&str, &str) -> bool>(
    request: AuthorizationRequest,
    peer: PeerCredentials,
    config: ServiceConfig<'a, F>,
    local_user_uid: Option<u32>,
    now: u64,
)
    ensures
        authorization_decision(request, peer, config, local_user_uid, now) == Decision::Deny(
            DenialCode::InvalidRequest,
        ) <==> request_check(request.version, request.local_username@) is Some,
        authorization_decision(request, peer, config, local_user_uid, now) != Decision::Deny(
            DenialCode::InternalFailure,
        ),
        authorization_decision(request, peer, config, local_user_uid, now) == Decision::Allow ==> authz::lease_permits(
            config.lease,
            core_request(request.consumer, request.operation, config, now),
        ),
{
}

/// Decide an authorization request. `local_user_uid` is the trusted local
/// account lookup of the request's username (`None` for unknown names);
/// `now` is the current time in seconds.
pub fn decide_authorization<F: Fn(&str, &str) -> bool>(
    request: &AuthorizationRequest,
    peer: &PeerCredentials,
    config: &ServiceConfig<F>,
    local_user_uid: Option<u32>,
    now: u64,
) -> (r: Decision)
    ensures
        r == authorization_decision(*request, *peer, *config, local_user_uid, now),
{
    if request.validate().is_err() {
        return Decision::Deny(DenialCode::InvalidRequest);
    }
    let uid = match local_user_uid {
        Some(uid) => uid,
        None => return Decision::Deny(DenialCode::NotAuthorized),
    };
    if authorize_peer(*peer, uid, request.consumer, request.operation).is_err() {
        return Decision::Deny(DenialCode::NotAuthorized);
    }
    match config.bound_local_username {
        Some(bound) => {
            if !str_eq(request.local_username.as_str(), bound) {
                return Decision::Deny(DenialCode::NotAuthorized);
            }
        },
        None => {},
    }
    match authorize_lease(request, config, now) {
        Ok(()) => Decision::Allow,
        Err(_) => Decision::Deny(DenialCode::NotAuthorized),
    }
}

/// Constant-time byte comparison. The length check first is the standard
/// trade-off (it reveals the expected length, not its content).
pub fn constant_time_eq(left: &[u8], right: &[u8]) -> (r: bool)
    ensures
        r == (left@ == right@),
{
    if left.len() != right.len() {
        return false;
    }
    let mut difference: u8 = 0;
    let mut i: usize = 0;
    while i < left.len()
        invariant
            left@.len() == right@.len(),
            i <= left@.len(),
            (difference == 0) <==> (forall|j: int| 0 <= j < i ==> left@[j] == right@[j]),
        decreases left@.len() - i,
    {
        let a = left[i];
        let b = right[i];
        let d = difference;
        assert((d | (a ^ b)) == 0 <==> (d == 0 && a == b)) by (bit_vector);
        difference = d | (a ^ b);
        i = i + 1;
    }
    assert((difference == 0) ==> left@ =~= right@);
    difference == 0
}

/// The password a credential carries.
pub open spec fn presented_password(credential: Credential) -> Seq<char> {
    match credential {
        Credential::Password(p) => p@,
    }
}

/// The credential decision's checks before the password is looked at:
/// invalid requests, unknown accounts and peer-policy failures.
pub open spec fn credential_precheck(
    request: CredentialExchangeRequest,
    peer: PeerCredentials,
    local_user_uid: Option<u32>,
) -> Option<Decision> {
    if request_check(request.version, request.local_username@) is Some {
        Some(Decision::Deny(DenialCode::InvalidRequest))
    } else if local_user_uid is None {
        Some(Decision::Deny(DenialCode::NotAuthorized))
    } else if peer_decision(peer, local_user_uid->0, request.consumer, request.operation) is Err {
        Some(Decision::Deny(DenialCode::NotAuthorized))
    } else {
        None
    }
}

/// Verify forwarded credential material. Authentication is separate from
/// authorization: this path never consults the lease. Peer policy still
/// applies. "Wrong credential", "no credential configured", an unknown
/// account and a rate-limited attempt are indistinguishable to the client.
pub fn decide_credential<F: Fn(&str, &str) -> bool>(
    request: &CredentialExchangeRequest,
    peer: &PeerCredentials,
    config: &ServiceConfig<F>,
    local_user_uid: Option<u32>,
) -> (r: Decision)
    requires
        config.credential_verifier matches Some(f) ==> forall|u: &str, p: &str|
            call_requires(*f, (u, p)),
    ensures
        credential_precheck(*request, *peer, local_user_uid) matches Some(d) ==> r == d,
        credential_precheck(*request, *peer, local_user_uid) is None ==> match config.credential_verifier {
            Some(f) => exists|u: &str, p: &str, ok: bool|
                u@ == request.local_username@ && p@ == presented_password(request.credential)
                    && call_ensures(*f, (u, p), ok) && r == (if ok {
                    Decision::Allow
                } else {
                    Decision::Deny(DenialCode::NotAuthorized)
                }),
            None => match config.expected_credential {
                Some(expected) => r == (if presented_password(request.credential) == expected@ {
                    Decision::Allow
                } else {
                    Decision::Deny(DenialCode::NotAuthorized)
                }),
                None => r == Decision::Deny(DenialCode::NotAuthorized),
            },
        },
{
    if request.validate().is_err() {
        return Decision::Deny(DenialCode::InvalidRequest);
    }
    let uid = match local_user_uid {
        Some(uid) => uid,
        None => return Decision::Deny(DenialCode::NotAuthorized),
    };
    if authorize_peer(*peer, uid, request.consumer, request.operation).is_err() {
        return Decision::Deny(DenialCode::NotAuthorized);
    }
    let presented: &str = match &request.credential {
        Credential::Password(password) => password.as_str(),
    };
    match config.credential_verifier {
        Some(verify) => {
            let username = request.local_username.as_str();
            let ok = verify(username, presented);
            return if ok {
                Decision::Allow
            } else {
                Decision::Deny(DenialCode::NotAuthorized)
            };
        },
        None => {},
    }
    let expected = match config.expected_credential {
        Some(expected) => expected,
        None => return Decision::Deny(DenialCode::NotAuthorized),
    };
    let same = constant_time_eq(presented.as_bytes(), expected.as_bytes());
    proof {
        crate::text::lemma_bytes_eq_iff_chars_eq(presented@, expected@);
    }
    if same {
        Decision::Allow
    } else {
        Decision::Deny(DenialCode::NotAuthorized)
    }
}

/// The username of either kind of request.
pub open spec fn request_username(request: AgentRequest) -> Seq<char> {
    match request {
        AgentRequest::Authorization(r) => r.local_username@,
        AgentRequest::CredentialExchange(r) => r.local_username@,
    }
}

/// Answer one parsed request: the response carries the protocol version,
/// echoes the request's correlation id, and holds the decision of the
/// request's kind. `local_user_uid` is the trusted account lookup of the
/// request's username.
pub fn respond<F: Fn(&str, &str) -> bool>(
    request: &AgentRequest,
    peer: &PeerCredentials,
    config: &ServiceConfig<F>,
    local_user_uid: Option<u32>,
    now: u64,
) -> (r: AgentResponse)
    requires
        config.credential_verifier matches Some(f) ==> forall|u: &str, p: &str|
            call_requires(*f, (u, p)),
    ensures
        r.version == PROTOCOL_VERSION,
        match request {
            AgentRequest::Authorization(a) => r.request_id == a.request_id && r.decision
                == authorization_decision(*a, *peer, *config, local_user_uid, now),
            AgentRequest::CredentialExchange(c) => {
                &&& r.request_id == c.request_id
                &&& credential_precheck(*c, *peer, local_user_uid) matches Some(d) ==> r.decision == d
                &&& (credential_precheck(*c, *peer, local_user_uid) is None
                    && config.credential_verifier is None) ==> r.decision == match config.expected_credential {
                    Some(expected) => if presented_password(c.credential) == expected@ {
                        Decision::Allow
                    } else {
                        Decision::Deny(DenialCode::NotAuthorized)
                    },
                    None => Decision::Deny(DenialCode::NotAuthorized),
                }
                &&& (credential_precheck(*c, *peer, local_user_uid) is None
                    && config.credential_verifier matches Some(f)) ==> exists|u: &str, p: &str, ok: bool|
                    u@ == c.local_username@ && p@ == presented_password(c.credential)
                        && call_ensures(*config.credential_verifier->0, (u, p), ok) && r.decision == (if ok {
                        Decision::Allow
                    } else {
                        Decision::Deny(DenialCode::NotAuthorized)
                    })
            },
        },
{
    match request {
        AgentRequest::Authorization(a) => AgentResponse {
            version: PROTOCOL_VERSION,
            request_id: a.request_id,
            decision: decide_authorization(a, peer, config, local_user_uid, now),
        },
        AgentRequest::CredentialExchange(c) => AgentResponse {
            version: PROTOCOL_VERSION,
            request_id: c.request_id,
            decision: decide_credential(c, peer, config, local_user_uid),
        },
    }
}

} // verus!
