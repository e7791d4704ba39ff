//! Cross-process serialization of plugin install and uninstall operations:
//! the lock file's name, what one nonblocking lock attempt means, and when
//! waiting for a contended lock gives up.

use vstd::prelude::*;
use vstd::string::StringExecFns;

verus! {

/// What one nonblocking advisory lock attempt achieved.
#[derive(Clone, Copy, Debug, PartialEq, Eq, Structural)]
pub enum LockAttempt {
    Acquired,
    Contended,
}

/// Why a nonblocking lock attempt failed.
#[derive(Debug)]
pub enum LockError {
    /// The lock is held elsewhere (`WouldBlock`).
    WouldBlock,
    /// Windows' `ERROR_LOCK_VIOLATION`.
    LockViolation,
    /// Any other failure, with its message.
    Other(String),
}

/// Whether a failed attempt only means the lock is held elsewhere: a
/// would-block failure always, a lock violation on Windows.
pub open spec fn contended(error: LockError, windows: bool) -> bool {
    match error {
        LockError::WouldBlock => true,
        LockError::LockViolation => windows,
        LockError::Other(_) => false,
    }
}

/// Whether a failed attempt only means the lock is held elsewhere.
pub fn lock_is_contended(error: &LockError, windows: bool) -> (c: bool)
    ensures
        c == contended(*error, windows),
{
    match error {
        LockError::WouldBlock => true,
        LockError::LockViolation => windows,
        LockError::Other(_) => false,
    }
}

/// The outcome of a lock attempt: acquired, contended, or the failure.
pub fn normalize_lock_attempt(result: Result<(), LockError>, windows: bool) -> (r: Result<LockAttempt, LockError>)
    ensures
        match result {
            Ok(()) => r == Ok::<LockAttempt, LockError>(LockAttempt::Acquired),
            Err(e) => if contended(e, windows) {
                r == Ok::<LockAttempt, LockError>(LockAttempt::Contended)
            } else {
                r == Err::<LockAttempt, LockError>(e)
            },
        },
{
    match result {
        Ok(()) => Ok(LockAttempt::Acquired),
        Err(e) => if lock_is_contended(&e, windows) {
            Ok(LockAttempt::Contended)
        } else {
            Err(e)
        },
    }
}

/// The name of the operation lock file of an installation.
pub fn operation_lock_file_name(installation_key: &str) -> (name: String)
    ensures
        name@ == ".nemo-relay-"@ + installation_key@ + "-operation.lock"@,
{
    let mut name = String::new();
    name.append(".nemo-relay-");
    name.append(installation_key);
    name.append("-operation.lock");
    assert(name@ =~= ".nemo-relay-"@ + installation_key@ + "-operation.lock"@);
    name
}

/// What waiting for an operation lock does after one attempt.
pub enum LockWait {
    Locked,
    /// Sleep a while and try again.
    Retry,
    Failed(String),
}

pub open spec fn lock_timeout_message(key: Seq<char>, scope: Seq<char>, directory: Seq<char>) -> Seq<char> {
    "timed out waiting for another "@ + key + " plugin install or uninstall operation on the "@ + scope
        + " lock at "@ + directory + "; wait for it to finish and retry"@
}

pub open spec fn lock_failure_message(path: Seq<char>, error: Seq<char>) -> Seq<char> {
    "failed to lock plugin operation "@ + path + ": "@ + error
}

/// The step after one attempt on the `scope` lock of `installation_key` in
/// `directory` (the lock file at `path`): a contended lock is retried
/// until the deadline has passed.
pub fn lock_wait_step(
    attempt: Result<LockAttempt, String>,
    past_deadline: bool,
    installation_key: &str,
    scope: &str,
    directory: &str,
    path: &str,
) -> (w: LockWait)
    ensures
        match attempt {
            Ok(LockAttempt::Acquired) => w is Locked,
            Ok(LockAttempt::Contended) => if past_deadline {
                w matches LockWait::Failed(m) && m@ == lock_timeout_message(installation_key@, scope@, directory@)
            } else {
                w is Retry
            },
            Err(e) => w matches LockWait::Failed(m) && m@ == lock_failure_message(path@, e@),
        },
{
    match attempt {
        Ok(LockAttempt::Acquired) => LockWait::Locked,
        Ok(LockAttempt::Contended) => {
            if !past_deadline {
                return LockWait::Retry;
            }
            let mut m = String::new();
            m.append("timed out waiting for another ");
            m.append(installation_key);
            m.append(" plugin install or uninstall operation on the ");
            m.append(scope);
            m.append(" lock at ");
            m.append(directory);
            m.append("; wait for it to finish and retry");
            assert(m@ =~= lock_timeout_message(installation_key@, scope@, directory@));
            LockWait::Failed(m)
        },
        Err(e) => {
            let mut m = String::new();
            m.append("failed to lock plugin operation ");
            m.append(path);
            m.append(": ");
            m.append(e.as_str());
            assert(m@ =~= lock_failure_message(path@, e@));
            LockWait::Failed(m)
        },
    }
}

/// The pause before the next attempt: the retry interval of 25 ms, or
/// what is left until the deadline if that is less.
pub fn retry_delay_millis(remaining_millis: u64) -> (d: u64)
    ensures
        d == if remaining_millis < 25 { remaining_millis } else { 25 },
{
    if remaining_millis < 25 { remaining_millis } else { 25 }
}

} // verus!
