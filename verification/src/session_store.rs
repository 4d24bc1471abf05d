//! The session store as its callers see it: its errors, and the policy by
//! which a caller waits for the refresh lock.

use vstd::prelude::*;
use crate::datastore::backoff::{delay_ms, Backoff, Step};
use crate::domain::{Session, SessionKey};
use crate::sqlite::session_store::{is_locked, lock_refresh_at, with_lock, SessionDatabase};

verus! {

/// Why an operation of the session store failed.
#[derive(Debug)]
pub enum Error {
    /// There is no such session, or it has expired.
    NotFound,
    /// The refresh lock was not acquired in any of the attempts.
    RefreshLockTimeout,
    /// Anything else; the message says what.
    Other(String),
}

/// Whether the refresh of a session was locked when a caller asked for the
/// lock.
#[derive(Debug, Clone, Copy, PartialEq, Eq, Structural)]
pub struct RefreshLockStatus {
    pub was_locked: bool,
}

/// The seconds between two passes that prune expired sessions.
pub const PRUNE_EXPIRED_SESSIONS_DELAY: u64 = 3600;

/// The seconds between two passes that prune expired refresh locks.
pub const PRUNE_EXPIRED_REFRESH_LOCKS_DELAY: u64 = 3600;

/// The seconds for which a refresh lock holds unless it is released.
pub const MAX_LOCK_SECONDS: u64 = 45;

/// A request to the worker of the session store.
#[derive(Debug)]
pub enum Message {
    Get { key: SessionKey },
    Delete { key: SessionKey },
    Put { session: Session },
    PruneExpired,
    LockRefresh { key: SessionKey, max_lock: u64 },
    UnlockRefresh { key: SessionKey },
    PruneExpiredRefresh,
}

/// The reply of the worker of the session store to a request.
#[derive(Debug)]
pub enum Reply {
    Session(Result<Session, Error>),
    Done(Result<(), Error>),
    Locked(Result<bool, Error>),
}

/// What a pass of the background pruning reports.
#[derive(Debug)]
pub enum BackgroundResultMessage {
    PruneExpiredSessions { result: Result<(), Error> },
    PruneExpiredRefreshLocks { result: Result<(), Error> },
}

/// What a caller that asks for the refresh lock does next.
#[derive(Debug, Clone, Copy, PartialEq, Eq, Structural)]
pub enum LockRefresh {
    /// It holds the lock.
    Locked,
    /// It waits and asks again, for the attempt with the number `retries`.
    Wait { delay_ms: u64, retries: u32 },
    /// It gives up; the operation fails with `RefreshLockTimeout`.
    TimedOut,
}

/// One round of a caller that asks for the refresh lock of the session `key`
/// at the time `now`, after `retries` failed attempts: it gives up if it has
/// asked as often as the policy allows; else it takes the lock if the refresh
/// is not locked, and waits if it is.
pub fn lock_refresh_round(
    db: &mut SessionDatabase,
    key: &SessionKey,
    policy: &Backoff,
    retries: u32,
    now: i64,
) -> (next: LockRefresh)
    requires
        old(db).wf(),
        policy.wf(),
    ensures
        final(db).wf(),
        final(db)@.sessions == old(db)@.sessions,
        match next {
            LockRefresh::TimedOut => retries >= policy.attempts && final(db)@ == old(db)@,
            LockRefresh::Locked => retries < policy.attempts && !is_locked(
                old(db)@.refresh_locks,
                key@,
                now as int,
            ) && final(db)@.refresh_locks == with_lock(
                old(db)@.refresh_locks,
                key@,
                now as int,
                MAX_LOCK_SECONDS as int,
            ),
            LockRefresh::Wait { delay_ms: wait, retries: then } => retries < policy.attempts
                && is_locked(old(db)@.refresh_locks, key@, now as int) && final(db)@ == old(db)@
                && then == retries + 1 && delay_ms(policy.base_ms as nat, retries as nat, 0)
                <= wait < delay_ms(policy.base_ms as nat, retries as nat, policy.jitter_ms as nat),
        },
{
    match policy.next(retries) {
        Step::GiveUp => LockRefresh::TimedOut,
        Step::Attempt { retries } => match lock_refresh_at(db, key, MAX_LOCK_SECONDS, now) {
            Ok(true) => LockRefresh::Locked,
            _ => LockRefresh::Wait {
                delay_ms: policy.jittered_delay(retries),
                retries: retries + 1,
            },
        },
    }
}

} // verus!
