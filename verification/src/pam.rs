//! Authentication-module decision logic.
//!
//! The loadable module itself is a thin C-ABI shim; every decision it takes
//! is computed here. The fail-safe rule: the only way to return success is a
//! positive face match, and every other outcome abstains (returns IGNORE)
//! so that a missing or broken daemon never locks a user out.

use vstd::prelude::*;

verus! {

/// PAM return code: authentication succeeded.
pub const PAM_SUCCESS: i32 = 0;

/// PAM return code: this module abstains; the stack tries the next entry.
pub const PAM_IGNORE: i32 = 25;

/// PAM item type of the conversation function.
pub const PAM_CONV: i32 = 5;

/// PAM conversation message style for informational text.
pub const PAM_TEXT_INFO: i32 = 4;

/// syslog option: log the process id with each message.
pub const LOG_PID: i32 = 0x01;

/// syslog facility for security/authorization messages (private).
pub const LOG_AUTHPRIV: i32 = 10 << 3;

/// syslog priority: informational.
pub const LOG_INFO: i32 = 6;

/// syslog priority: warning.
pub const LOG_WARNING: i32 = 4;

/// syslog priority: error.
pub const LOG_ERR: i32 = 3;

/// Outcome of asking the daemon to verify a face, as seen by the
/// authentication module.
#[derive(Clone, Copy, Debug, PartialEq, Eq, Structural)]
pub enum VerifyOutcome {
    /// The daemon answered and the face matched.
    Matched,
    /// The daemon answered and the face did not match.
    NotMatched,
    /// No usable answer: the username was unavailable or not UTF-8, the
    /// daemon was absent, the call failed or timed out, or the shim panicked.
    Unavailable,
}

/// Map a verification outcome to the PAM return code.
///
/// Fail-safe: only a positive match yields `PAM_SUCCESS`; every other
/// outcome yields `PAM_IGNORE`, never an error code that would deny login.
pub fn auth_decision(outcome: VerifyOutcome) -> (r: i32)
    ensures
        r == PAM_SUCCESS || r == PAM_IGNORE,
        (r == PAM_SUCCESS) <==> outcome is Matched,
{
    match outcome {
        VerifyOutcome::Matched => PAM_SUCCESS,
        VerifyOutcome::NotMatched => PAM_IGNORE,
        VerifyOutcome::Unavailable => PAM_IGNORE,
    }
}

/// The credential-management entry point never manages credentials.
pub fn setcred_decision() -> (r: i32)
    ensures
        r == PAM_IGNORE,
{
    PAM_IGNORE
}

} // verus!
