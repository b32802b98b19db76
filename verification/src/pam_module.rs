//! Decisions of the PAM front end for the agent. The module reads the PAM
//! service and user from the handle, prompts for the password, asks the
//! agent, and turns the fail-closed outcome into a PAM return code. Only
//! `Authorized` maps to `PAM_SUCCESS`; an explicit denial maps to a
//! stage-specific error and an unavailable agent to `PAM_SYSTEM_ERR`, so
//! "agent dead" stays distinct from "agent said no". The auth stage needs
//! both the credential and the lease decision. Unknown PAM services fail
//! closed. The libpam calls themselves are the caller's FFI.
use vstd::prelude::*;
use crate::ipc::{Consumer, Operation};
use crate::pam_client::Outcome;
use crate::text::str_eq;

verus! {

pub const PAM_SUCCESS: i32 = 0;
pub const PAM_SYSTEM_ERR: i32 = 4;
pub const PAM_BUF_ERR: i32 = 5;
pub const PAM_PERM_DENIED: i32 = 6;
pub const PAM_AUTH_ERR: i32 = 7;
pub const PAM_CONV_ERR: i32 = 16;

/// Fixed agent socket; deliberately no environment override.
pub const AGENT_SOCKET_PATH: &'static str = "/run/oma-id/agent.sock";

#[derive(Clone, Copy, Debug, PartialEq, Eq, Structural)]
pub enum Stage {
    /// `pam_sm_authenticate`: the credential stage.
    Auth,
    /// `pam_sm_acct_mgmt`: account management; needs an explicit agent
    /// authorization too.
    Account,
}

/// The PAM code for an outcome at a stage.
pub open spec fn pam_code(stage: Stage, outcome: Outcome) -> i32 {
    match outcome {
        Outcome::Authorized => PAM_SUCCESS,
        Outcome::Denied => match stage {
            Stage::Auth => PAM_AUTH_ERR,
            Stage::Account => PAM_PERM_DENIED,
        },
        Outcome::Unavailable(_) => PAM_SYSTEM_ERR,
    }
}

/// Translate the client outcome into a PAM return code for the stage.
pub fn outcome_to_pam_code(stage: Stage, outcome: Outcome) -> (r: i32)
    ensures
        r == pam_code(stage, outcome),
{
    match outcome {
        Outcome::Authorized => PAM_SUCCESS,
        Outcome::Denied => match stage {
            Stage::Auth => PAM_AUTH_ERR,
            Stage::Account => PAM_PERM_DENIED,
        },
        Outcome::Unavailable(_) => PAM_SYSTEM_ERR,
    }
}

/// The auth-stage code: the credential must verify AND the lease must
/// authorize; a credential failure is reported first.
pub open spec fn auth_code(credential: Outcome, authorization: Outcome) -> i32 {
    if credential != Outcome::Authorized {
        pam_code(Stage::Auth, credential)
    } else {
        pam_code(Stage::Auth, authorization)
    }
}

/// Auth-stage decision rule: both decisions, in that order, so a dead agent
/// at the credential step is never masked and a verified credential never
/// rescues a lease denial.
pub fn authenticate_outcomes(credential: Outcome, authorization: Outcome) -> (r: i32)
    ensures
        r == auth_code(credential, authorization),
{
    if credential != Outcome::Authorized {
        return outcome_to_pam_code(Stage::Auth, credential);
    }
    outcome_to_pam_code(Stage::Auth, authorization)
}

/// The consumer and operation a PAM service stands for.
pub open spec fn service_pair(service: Seq<char>) -> Option<(Consumer, Operation)> {
    if service == "sddm"@ {
        Some((Consumer::Sddm, Operation::Login))
    } else if service == "omarchy-lock-password"@ || service == "omarchy-lock-fingerprint"@ {
        Some((Consumer::Quickshell, Operation::Unlock))
    } else {
        None
    }
}

/// Map a PAM service name to its consumer/operation pair; unknown services
/// get `None` and fail closed.
pub fn map_service(service: &str) -> (r: Option<(Consumer, Operation)>)
    ensures
        r == service_pair(service@),
{
    if str_eq(service, "sddm") {
        Some((Consumer::Sddm, Operation::Login))
    } else if str_eq(service, "omarchy-lock-password") || str_eq(service, "omarchy-lock-fingerprint") {
        Some((Consumer::Quickshell, Operation::Unlock))
    } else {
        None
    }
}

/// The code a stage ends with: an unknown service is a system error; the
/// account stage goes by the authorization alone; the auth stage needs
/// the credential outcome too (`None` when it was never obtained, which
/// only the account stage may do).
pub fn stage_code(stage: Stage, service_known: bool, credential: Option<Outcome>, authorization: Outcome) -> (r:
    i32)
    requires
        service_known && stage == Stage::Auth ==> credential is Some,
    ensures
        !service_known ==> r == PAM_SYSTEM_ERR,
        service_known && stage == Stage::Account ==> r == pam_code(Stage::Account, authorization),
        service_known && stage == Stage::Auth ==> r == auth_code(credential->0, authorization),
{
    if !service_known {
        return PAM_SYSTEM_ERR;
    }
    match stage {
        Stage::Account => outcome_to_pam_code(Stage::Account, authorization),
        Stage::Auth => match credential {
            Some(c) => authenticate_outcomes(c, authorization),
            None => PAM_SYSTEM_ERR,
        },
    }
}

/// Only an explicit allow succeeds, at either stage, and a success at the
/// auth stage needs both the credential and the authorization.
pub proof fn lemma_success_needs_authorization(stage: Stage, credential: Outcome, authorization: Outcome)
    ensures
        pam_code(stage, authorization) == PAM_SUCCESS <==> authorization == Outcome::Authorized,
        auth_code(credential, authorization) == PAM_SUCCESS <==> (credential == Outcome::Authorized
            && authorization == Outcome::Authorized),
{
}

/// Denial and unavailability stay distinct: a denial never reads as a
/// system error, and an unavailable agent never as a denial.
pub proof fn lemma_denial_distinct_from_unavailable(stage: Stage, outcome: Outcome)
    ensures
        outcome == Outcome::Denied ==> pam_code(stage, outcome) != PAM_SYSTEM_ERR,
        outcome is Unavailable ==> pam_code(stage, outcome) == PAM_SYSTEM_ERR,
{
}

} // verus!
