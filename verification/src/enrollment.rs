//! The enrollment transaction, agent side. A device with no accepted
//! enrollment reports its hardware identity, posts an enrollment request
//! (its key is the identity claim) and polls a device-signed status
//! endpoint until an administrator decides. A rejection is terminal for
//! that key; nothing is stored unless the server accepted the request.
//!
//! Reading DMI and the machine id, HTTP, the clock, sleeping and writing
//! the record are the caller's work; this module decides each step.
use vstd::prelude::*;
use vstd::string::StringExecFns;
use vstd::utf8::encode_utf8;
use vstd::string::StringSliceAdditionalSpecFns;
use crate::agent::{trim_trailing, trim_trailing_slashes, DeviceIdentity};
use crate::canonical::{decimal, push_decimal, push_str};
use crate::codec::{ed25519_signature, hex_encode, hex_text};
use crate::text::{decimal_chars, opt_text, push_decimal_text, str_eq, trim, trim_text};

verus! {

/// The hardware identity a device reports when asking to be enrolled.
#[derive(Debug)]
pub struct HardwareIdentity {
    pub device_name: Option<String>,
    pub manufacturer: Option<String>,
    pub model: Option<String>,
    pub serial_number: Option<String>,
    pub machine_id: Option<String>,
}

/// The enrollment record kept once the server accepted the request; its
/// device id is used for every check-in afterwards.
#[derive(Debug)]
pub struct EnrollmentRecord {
    pub request_id: u64,
    pub device_id: String,
    pub accepted_at: u64,
}

#[derive(Debug)]
pub enum EnrollError {
    Http(String),
    Rejected { status: u16, body: String },
    RejectedByAdmin(u64),
    Message(String),
    Io(std::io::Error),
    Json(serde_json::Error),
}

/// The failure of an acceptance that carried no device id.
pub open spec fn no_device_id_message() -> Seq<char> {
    "server accepted the enrollment but sent no device id"@
}

/// The failure of a state other than accepted, rejected or pending.
pub open spec fn unknown_state_message(state: Seq<char>) -> Seq<char> {
    "server reported unknown enrollment state '"@ + state + "'"@
}

/// A hardware identity file's value: its trimmed content, when that is
/// not empty.
pub open spec fn trimmed_value(content: Seq<char>) -> Option<Seq<char>> {
    if trim(content).len() == 0 {
        None
    } else {
        Some(trim(content))
    }
}

/// The value of a DMI or machine-id file's content.
pub fn read_trimmed(content: &str) -> (r: Option<String>)
    ensures
        opt_text(r) == trimmed_value(content@),
{
    let t = trim_text(content);
    if t.is_empty() {
        None
    } else {
        Some(t.to_owned())
    }
}

/// The longest serial number reported, in bytes.
pub const MAX_SERIAL_BYTES: usize = 200;

/// The display name, always present: vendor and model, either alone, or
/// else the machine id, written `unknown` when that is missing too.
pub open spec fn device_name_of(
    vendor: Option<Seq<char>>,
    model: Option<Seq<char>>,
    machine_id: Option<Seq<char>>,
) -> Option<Seq<char>> {
    match (vendor, model) {
        (Some(v), Some(m)) => Some(v + " "@ + m),
        (Some(v), None) => Some(v),
        (None, Some(m)) => Some(m),
        (None, None) => match machine_id {
            Some(id) => Some("Device (machine-id "@ + id + ")"@),
            None => Some("Device (machine-id unknown)"@),
        },
    }
}

/// The hardware identity from the trimmed values of the DMI vendor, product
/// name and serial files and the machine id. Every field may be missing;
/// a serial over 200 bytes is dropped.
pub fn hardware_identity_from(
    vendor: Option<String>,
    model: Option<String>,
    serial: Option<String>,
    machine_id: Option<String>,
) -> (r: HardwareIdentity)
    ensures
        opt_text(r.device_name) == device_name_of(opt_text(vendor), opt_text(model), opt_text(machine_id)),
        opt_text(r.manufacturer) == opt_text(vendor),
        opt_text(r.model) == opt_text(model),
        opt_text(r.machine_id) == opt_text(machine_id),
        opt_text(r.serial_number) == match serial {
            Some(s) => if encode_utf8(s@).len() <= MAX_SERIAL_BYTES {
                Some(s@)
            } else {
                None
            },
            None => None,
        },
{
    let device_name = match (&vendor, &model) {
        (Some(v), Some(m)) => {
            let mut name = v.clone();
            name.append(" ");
            name.append(m.as_str());
            Some(name)
        },
        (Some(v), None) => Some(v.clone()),
        (None, Some(m)) => Some(m.clone()),
        (None, None) => match &machine_id {
            Some(id) => {
                let mut name = "Device (machine-id ".to_owned();
                name.append(id.as_str());
                name.append(")");
                Some(name)
            },
            None => Some("Device (machine-id unknown)".to_owned()),
        },
    };
    let serial_number = match serial {
        Some(s) => if s.as_str().as_bytes().len() <= MAX_SERIAL_BYTES {
            Some(s)
        } else {
            None
        },
        None => None,
    };
    HardwareIdentity { device_name, manufacturer: vendor, model, serial_number, machine_id }
}

/// The enrollment request endpoint under the server URL.
pub fn enrollment_requests_url(server_url: &str) -> (r: String)
    ensures
        r@ == trim_trailing(server_url@, '/') + "/api/v1/enrollment-requests"@,
{
    let mut url = trim_trailing_slashes(server_url).to_owned();
    url.append("/api/v1/enrollment-requests");
    url
}

/// The signed status poll message: `enrollment-status|request_id|timestamp`.
pub open spec fn status_poll_message(request_id: u64, timestamp: u64) -> Seq<u8> {
    encode_utf8("enrollment-status|"@) + decimal(request_id as nat) + seq![0x7cu8] + decimal(
        timestamp as nat,
    )
}

pub fn status_poll_message_bytes(request_id: u64, timestamp: u64) -> (r: Vec<u8>)
    ensures
        r@ == status_poll_message(request_id, timestamp),
{
    let mut out: Vec<u8> = Vec::new();
    push_str(&mut out, "enrollment-status|");
    push_decimal(&mut out, request_id);
    out.push(0x7c);
    push_decimal(&mut out, timestamp);
    assert(out@ =~= status_poll_message(request_id, timestamp));
    out
}

/// The device-signed status poll URL: the request's endpoint with the
/// timestamp and the hex signature of the poll message as query.
pub open spec fn status_poll_url_text(
    server_url: Seq<char>,
    request_id: u64,
    timestamp: u64,
    signature_hex: Seq<char>,
) -> Seq<char> {
    trim_trailing(server_url, '/') + "/api/v1/enrollment-requests/"@ + decimal_chars(request_id as nat)
        + "?timestamp="@ + decimal_chars(timestamp as nat) + "&signature_hex="@ + signature_hex
}

/// The status poll URL for `request_id` at `timestamp`, signed with the
/// device key.
pub fn status_poll_url(server_url: &str, request_id: u64, timestamp: u64, identity: &DeviceIdentity) -> (r:
    String)
    ensures
        r@ == status_poll_url_text(
            server_url@,
            request_id,
            timestamp,
            hex_text(
                ed25519_signature(identity.signing_key@, status_poll_message(request_id, timestamp)),
            ),
        ),
{
    let message = status_poll_message_bytes(request_id, timestamp);
    let signature = identity.signing_key.sign(message.as_slice());
    let signature_hex = hex_encode(&signature);
    let mut url = trim_trailing_slashes(server_url).to_owned();
    url.append("/api/v1/enrollment-requests/");
    push_decimal_text(&mut url, request_id);
    url.append("?timestamp=");
    push_decimal_text(&mut url, timestamp);
    url.append("&signature_hex=");
    url.append(signature_hex.as_str());
    url
}

/// What the agent does after a status poll.
#[derive(Debug)]
pub enum EnrollStep {
    /// Accepted: keep this server-assigned device id.
    Accepted(String),
    /// Still pending: poll again after the interval.
    Pending,
    /// Stop with this error.
    Failed(EnrollError),
}

/// Decide after a status poll answered `state`, with the accepted
/// device's id when the answer carried one: `accepted` with a device id
/// completes, `accepted` without one fails, `rejected` is terminal,
/// `pending` polls again, anything else fails.
pub fn enrollment_step(state: &str, device_id: Option<&str>, request_id: u64) -> (r: EnrollStep)
    ensures
        state@ == "accepted"@ ==> match device_id {
            Some(d) => r matches EnrollStep::Accepted(id) && id@ == d@,
            None => r matches EnrollStep::Failed(EnrollError::Message(m)) && m@ == no_device_id_message(),
        },
        state@ == "rejected"@ ==> (r matches EnrollStep::Failed(EnrollError::RejectedByAdmin(id)) && id
            == request_id),
        state@ == "pending"@ ==> r matches EnrollStep::Pending,
        state@ != "accepted"@ && state@ != "rejected"@ && state@ != "pending"@ ==> (r matches EnrollStep::Failed(
            EnrollError::Message(m),
        ) && m@ == unknown_state_message(state@)),
{
    proof {
        reveal_strlit("accepted");
        reveal_strlit("rejected");
        reveal_strlit("pending");
        assert("accepted"@[0] != "rejected"@[0]);
        assert("accepted"@[0] != "pending"@[0]);
        assert("rejected"@[0] != "pending"@[0]);
    }
    if str_eq(state, "accepted") {
        match device_id {
            Some(d) => EnrollStep::Accepted(d.to_owned()),
            None => EnrollStep::Failed(
                EnrollError::Message("server accepted the enrollment but sent no device id".to_owned()),
            ),
        }
    } else if str_eq(state, "rejected") {
        EnrollStep::Failed(EnrollError::RejectedByAdmin(request_id))
    } else if str_eq(state, "pending") {
        EnrollStep::Pending
    } else {
        let mut m = "server reported unknown enrollment state '".to_owned();
        m.append(state);
        m.append("'");
        EnrollStep::Failed(EnrollError::Message(m))
    }
}

/// The record kept once `request_id` was accepted with `device_id` at
/// `accepted_at`.
pub fn enrollment_record(request_id: u64, device_id: &str, accepted_at: u64) -> (r: EnrollmentRecord)
    ensures
        r.request_id == request_id,
        r.device_id@ == device_id@,
        r.accepted_at == accepted_at,
{
    EnrollmentRecord { request_id, device_id: device_id.to_owned(), accepted_at }
}

/// The default pause between status polls, in seconds.
pub const STATUS_POLL_INTERVAL_SECS: u64 = 5;

} // verus!
