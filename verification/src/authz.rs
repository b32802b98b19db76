//! Pure authorization-lease decisions for the endpoint agent.
//!
//! Parsing, signature verification, credential checking and socket IPC stay
//! outside this module. Callers may only construct a verified lease after
//! those steps pass.
use vstd::prelude::*;
use crate::text::str_eq;

verus! {

#[derive(Clone, Copy, Debug, PartialEq, Eq, Structural)]
pub enum Operation {
    Login,
    Unlock,
    Elevate,
    RemoteLogin,
}

#[derive(Clone, Copy, Debug, PartialEq, Eq, Structural)]
pub enum Consumer {
    Sddm,
    Quickshell,
    Tty,
    Sudo,
    Polkit,
    Ssh,
}

#[derive(Debug)]
pub struct VerifiedLease<'a> {
    pub subject_id: &'a str,
    pub device_id: &'a str,
    pub not_before: u64,
    pub expires_at: u64,
    pub revocation_epoch: u64,
    pub operations: &'a [Operation],
}

#[derive(Debug)]
pub struct Request<'a> {
    pub subject_id: &'a str,
    pub device_id: &'a str,
    pub consumer: Consumer,
    pub operation: Operation,
    pub now: u64,
    /// Last authenticated server time persisted by the agent.
    pub trusted_time_floor: u64,
    pub minimum_revocation_epoch: u64,
}

#[derive(Clone, Copy, Debug, PartialEq, Eq, Structural)]
pub enum Denial {
    SubjectMismatch,
    DeviceMismatch,
    NotYetValid,
    Expired,
    ClockRollback,
    StaleRevocationEpoch,
    OperationNotAuthorized,
}

/// The lease grants `op`.
pub open spec fn grants(ops: Seq<Operation>, op: Operation) -> bool {
    ops.contains(op)
}

/// The first check that rejects `request` under `lease`, in the order the
/// checks are made; `None` when every check passes.
pub open spec fn first_denial(lease: VerifiedLease, request: Request) -> Option<Denial> {
    if lease.subject_id@ != request.subject_id@ {
        Some(Denial::SubjectMismatch)
    } else if lease.device_id@ != request.device_id@ {
        Some(Denial::DeviceMismatch)
    } else if request.now < request.trusted_time_floor {
        Some(Denial::ClockRollback)
    } else if request.now < lease.not_before {
        Some(Denial::NotYetValid)
    } else if request.now >= lease.expires_at {
        Some(Denial::Expired)
    } else if lease.revocation_epoch < request.minimum_revocation_epoch {
        Some(Denial::StaleRevocationEpoch)
    } else if !grants(lease.operations@, request.operation) {
        Some(Denial::OperationNotAuthorized)
    } else {
        None
    }
}

/// Every condition a lease must meet to authorize a request.
pub open spec fn lease_permits(lease: VerifiedLease, request: Request) -> bool {
    &&& lease.subject_id@ == request.subject_id@
    &&& lease.device_id@ == request.device_id@
    &&& request.trusted_time_floor <= request.now
    &&& lease.not_before <= request.now < lease.expires_at
    &&& request.minimum_revocation_epoch <= lease.revocation_epoch
    &&& grants(lease.operations@, request.operation)
}

/// Membership test on a slice of operations.
pub fn operations_contain(ops: &[Operation], op: Operation) -> (r: bool)
    ensures
        r == grants(ops@, op),
{
    let mut i: usize = 0;
    while i < ops.len()
        invariant
            i <= ops@.len(),
            forall|j: int| 0 <= j < i ==> ops@[j] != op,
        decreases ops@.len() - i,
    {
        if ops[i] == op {
            assert(ops@[i as int] == op);
            return true;
        }
        i = i + 1;
    }
    false
}

/// Decide whether `lease` authorizes `request`.
pub fn authorize(lease: &VerifiedLease<'_>, request: &Request<'_>) -> (r: Result<(), Denial>)
    ensures
        r == (match first_denial(*lease, *request) {
            Some(d) => Err(d),
            None => Ok(()),
        }),
        r is Ok <==> lease_permits(*lease, *request),
{
    if !str_eq(lease.subject_id, request.subject_id) {
        return Err(Denial::SubjectMismatch);
    }
    if !str_eq(lease.device_id, request.device_id) {
        return Err(Denial::DeviceMismatch);
    }
    if request.now < request.trusted_time_floor {
        return Err(Denial::ClockRollback);
    }
    if request.now < lease.not_before {
        return Err(Denial::NotYetValid);
    }
    if request.now >= lease.expires_at {
        return Err(Denial::Expired);
    }
    if lease.revocation_epoch < request.minimum_revocation_epoch {
        return Err(Denial::StaleRevocationEpoch);
    }
    if !operations_contain(lease.operations, request.operation) {
        return Err(Denial::OperationNotAuthorized);
    }
    Ok(())
}

} // verus!
