//! Consumer-side client of the agent authorization socket, as the PAM
//! module uses it. Fail-closed contract: only `Outcome::Authorized` may be
//! treated as a pass. Every other outcome (explicit denial, daemon down,
//! timeout, protocol violation, an unusable PAM context) blocks the
//! operation; the client never falls back to anything else.
//!
//! `local_username` must come from the PAM context, never from user input
//! on the wire. The socket exchange and the random request id are the
//! caller's I/O.
use vstd::prelude::*;
use crate::ipc::{
    check_response, request_check, request_ids_equal, AuthorizationRequest, AuthorizationResponse,
    Consumer, Credential, CredentialExchangeRequest, Decision, IoFailure, Operation, ProtocolError,
    PROTOCOL_VERSION,
};

verus! {

/// Default upper bound for one authorization round trip, in milliseconds.
pub const DEFAULT_TIMEOUT_MILLIS: u64 = 3000;

/// The size of a request correlation id.
pub const REQUEST_ID_BYTES: usize = 16;

#[derive(Clone, Copy, Debug, PartialEq, Eq, Structural)]
pub enum UnavailableReason {
    /// The socket could not be reached (missing daemon, permission denied).
    ConnectFailed,
    /// The agent accepted the connection but did not answer in time.
    TimedOut,
    /// A decision was received but violated the protocol (framing, version,
    /// correlation id), or the request itself could not be formed.
    ProtocolViolation,
    /// Local failure before talking to the agent (e.g. no entropy source).
    Internal,
}

#[derive(Clone, Copy, Debug, PartialEq, Eq, Structural)]
pub enum Outcome {
    /// The agent explicitly authorized the request: the only pass.
    Authorized,
    /// The agent explicitly denied the request.
    Denied,
    /// No decision could be obtained.
    Unavailable(UnavailableReason),
}

/// The client: the agent socket and the round-trip bound.
#[derive(Debug)]
pub struct Client {
    pub socket_path: String,
    pub timeout_millis: u64,
}

/// Why an exchange yielded no decision.
pub open spec fn unavailable_reason(error: ProtocolError) -> UnavailableReason {
    match error {
        ProtocolError::Io(kind) => match kind {
            IoFailure::TimedOut | IoFailure::WouldBlock => UnavailableReason::TimedOut,
            IoFailure::NotFound | IoFailure::ConnectionRefused | IoFailure::PermissionDenied => {
                UnavailableReason::ConnectFailed
            },
            IoFailure::Other => UnavailableReason::ProtocolViolation,
        },
        _ => UnavailableReason::ProtocolViolation,
    }
}

/// Classify an exchange failure: a timeout, no agent (missing socket,
/// refused, not permitted), or a broken exchange (anything else).
pub fn map_error(error: &ProtocolError) -> (r: UnavailableReason)
    ensures
        r == unavailable_reason(*error),
{
    match error {
        ProtocolError::Io(kind) => match kind {
            IoFailure::TimedOut | IoFailure::WouldBlock => UnavailableReason::TimedOut,
            IoFailure::NotFound | IoFailure::ConnectionRefused | IoFailure::PermissionDenied => {
                UnavailableReason::ConnectFailed
            },
            IoFailure::Other => UnavailableReason::ProtocolViolation,
        },
        ProtocolError::Json(_)
        | ProtocolError::EmptyMessage
        | ProtocolError::MessageTooLarge(_)
        | ProtocolError::UnsupportedVersion(_)
        | ProtocolError::RequestIdMismatch
        | ProtocolError::InvalidLocalUsername => UnavailableReason::ProtocolViolation,
    }
}

/// The outcome of an exchange result.
pub open spec fn exchange_outcome(result: Result<AuthorizationResponse, ProtocolError>) -> Outcome {
    match result {
        Ok(response) => match response.decision {
            Decision::Allow => Outcome::Authorized,
            Decision::Deny(_) => Outcome::Denied,
        },
        Err(e) => Outcome::Unavailable(unavailable_reason(e)),
    }
}

/// The outcome an exchange result stands for: only an explicit `Allow`
/// authorizes.
pub fn outcome_of(result: &Result<AuthorizationResponse, ProtocolError>) -> (r: Outcome)
    ensures
        r == exchange_outcome(*result),
{
    match result {
        Ok(response) => match response.decision {
            Decision::Allow => Outcome::Authorized,
            Decision::Deny(_) => Outcome::Denied,
        },
        Err(error) => Outcome::Unavailable(map_error(error)),
    }
}

/// The outcome of a round trip for a request with correlation id `id`: an
/// answer at another protocol version or with another correlation id is no
/// decision.
pub open spec fn checked_outcome(id: [u8; 16], result: Result<AuthorizationResponse, ProtocolError>) -> Outcome {
    match result {
        Ok(response) => if response.version != PROTOCOL_VERSION || response.request_id@ != id@ {
            Outcome::Unavailable(UnavailableReason::ProtocolViolation)
        } else {
            exchange_outcome(result)
        },
        Err(_) => exchange_outcome(result),
    }
}

/// Check an answer against the request's correlation id, then classify.
fn checked(id: &[u8; 16], result: Result<AuthorizationResponse, ProtocolError>) -> (r: Outcome)
    ensures
        r == checked_outcome(*id, result),
{
    match result {
        Ok(response) => {
            if response.version != PROTOCOL_VERSION || !request_ids_equal(&response.request_id, id) {
                return Outcome::Unavailable(UnavailableReason::ProtocolViolation);
            }
            outcome_of(&Ok(response))
        },
        Err(e) => outcome_of(&Err(e)),
    }
}

impl Client {
    pub fn new(socket_path: &str, timeout_millis: u64) -> (r: Client)
        ensures
            r.socket_path@ == socket_path@,
            r.timeout_millis == timeout_millis,
    {
        Client { socket_path: socket_path.to_owned(), timeout_millis }
    }

    /// Ask the agent to authorize `operation` for `local_username` on behalf
    /// of `consumer`. `request_id` is the fresh random correlation id
    /// (`None` when no entropy could be read); `exchange` performs one
    /// bounded round trip with this client's socket and timeout. A request
    /// that fails validation never reaches the wire.
    pub fn authorize<F: FnOnce(&AuthorizationRequest) -> Result<AuthorizationResponse, ProtocolError>>(
        &self,
        consumer: Consumer,
        operation: Operation,
        local_username: &str,
        request_id: Option<[u8; 16]>,
        exchange: F,
    ) -> (r: Outcome)
        requires
            forall|q: &AuthorizationRequest| call_requires(exchange, (q,)),
        ensures
            request_id is None ==> r == Outcome::Unavailable(UnavailableReason::Internal),
            request_id is Some && request_check(PROTOCOL_VERSION, local_username@) is Some ==> r
                == Outcome::Unavailable(UnavailableReason::ProtocolViolation),
            request_id matches Some(id) ==> (request_check(PROTOCOL_VERSION, local_username@) is None
                ==> exists|q: &AuthorizationRequest, result: Result<AuthorizationResponse, ProtocolError>|
                q.version == PROTOCOL_VERSION && q.request_id == id && q.local_username@
                    == local_username@ && q.consumer == consumer && q.operation == operation
                    && call_ensures(exchange, (q,), result) && r == checked_outcome(id, result)),
    {
        let id = match request_id {
            Some(id) => id,
            None => return Outcome::Unavailable(UnavailableReason::Internal),
        };
        let request = AuthorizationRequest {
            version: PROTOCOL_VERSION,
            request_id: id,
            local_username: local_username.to_owned(),
            consumer,
            operation,
        };
        match request.validate() {
            Ok(()) => {},
            Err(e) => return Outcome::Unavailable(map_error(&e)),
        }
        let result = exchange(&request);
        checked(&id, result)
    }

    /// Forward `password` for `local_username` to the agent for
    /// verification, under the same rules as `authorize`.
    pub fn exchange_credential<F: FnOnce(&CredentialExchangeRequest) -> Result<AuthorizationResponse, ProtocolError>>(
        &self,
        consumer: Consumer,
        operation: Operation,
        local_username: &str,
        password: &str,
        request_id: Option<[u8; 16]>,
        exchange: F,
    ) -> (r: Outcome)
        requires
            forall|q: &CredentialExchangeRequest| call_requires(exchange, (q,)),
        ensures
            request_id is None ==> r == Outcome::Unavailable(UnavailableReason::Internal),
            request_id is Some && request_check(PROTOCOL_VERSION, local_username@) is Some ==> r
                == Outcome::Unavailable(UnavailableReason::ProtocolViolation),
            request_id matches Some(id) ==> (request_check(PROTOCOL_VERSION, local_username@) is None
                ==> exists|q: &CredentialExchangeRequest, result: Result<AuthorizationResponse, ProtocolError>|
                q.version == PROTOCOL_VERSION && q.request_id == id && q.local_username@
                    == local_username@ && q.consumer == consumer && q.operation == operation
                    && (q.credential matches Credential::Password(p) && p@ == password@)
                    && call_ensures(exchange, (q,), result) && r == checked_outcome(id, result)),
    {
        let id = match request_id {
            Some(id) => id,
            None => return Outcome::Unavailable(UnavailableReason::Internal),
        };
        let request = CredentialExchangeRequest {
            version: PROTOCOL_VERSION,
            request_id: id,
            local_username: local_username.to_owned(),
            consumer,
            operation,
            credential: Credential::Password(password.to_owned()),
        };
        match request.validate() {
            Ok(()) => {},
            Err(e) => return Outcome::Unavailable(map_error(&e)),
        }
        let result = exchange(&request);
        checked(&id, result)
    }
}

/// An answer with another correlation id or protocol version is never a
/// decision, whatever it says.
pub proof fn lemma_mismatched_answer_is_no_decision(id: [u8; 16], response: AuthorizationResponse)
    requires
        response.version != PROTOCOL_VERSION || response.request_id@ != id@,
    ensures
        checked_outcome(id, Ok(response)) == Outcome::Unavailable(UnavailableReason::ProtocolViolation),
{
}

/// Fail closed: no outcome but an explicit allow, with the request's
/// correlation id at the protocol version, authorizes.
pub proof fn lemma_only_allow_authorizes(id: [u8; 16], result: Result<AuthorizationResponse, ProtocolError>)
    ensures
        exchange_outcome(result) == Outcome::Authorized <==> (result matches Ok(response)
            && response.decision == Decision::Allow),
        checked_outcome(id, result) == Outcome::Authorized <==> (result matches Ok(response)
            && response.decision == Decision::Allow && response.version == PROTOCOL_VERSION
            && response.request_id@ == id@),
{
}

} // verus!
