//! The tables of the session store and the operations on them: sessions that
//! expire, and the lock that lets one caller at a time refresh a session.

use vstd::prelude::*;
use vstd::string::*;
use crate::domain::{unix_now, Session, SessionKey, SessionState};
use crate::session_store::{Error, Message, RefreshLockStatus, Reply};
use crate::text::{copy_str, same_text};

verus! {

/// The lock on the refresh of one session. It holds until `lock_invalid_at`,
/// in seconds since the Unix epoch, unless it is released before.
#[derive(Debug, Clone)]
pub struct RefreshLock {
    pub key: String,
    pub lock_invalid_at: i64,
}

/// What a refresh lock holds.
pub struct LockState {
    pub key: Seq<char>,
    pub lock_invalid_at: int,
}

impl DeepView for RefreshLock {
    type V = LockState;

    open spec fn deep_view(&self) -> LockState {
        LockState { key: self.key@, lock_invalid_at: self.lock_invalid_at as int }
    }
}

/// What the tables of the session store hold.
pub struct SessionsState {
    pub sessions: Seq<SessionState>,
    pub refresh_locks: Seq<LockState>,
}

/// The tables of the session store. Every operation expects them consistent
/// and leaves them so.
#[derive(Debug, Clone)]
pub struct SessionDatabase {
    pub sessions: Vec<Session>,
    pub refresh_locks: Vec<RefreshLock>,
}

impl View for SessionDatabase {
    type V = SessionsState;

    open spec fn view(&self) -> SessionsState {
        SessionsState {
            sessions: self.sessions.deep_view(),
            refresh_locks: self.refresh_locks.deep_view(),
        }
    }
}

/// The session with the given key stands at `i`.
pub open spec fn session_at(sessions: Seq<SessionState>, key: Seq<char>, i: int) -> bool {
    0 <= i < sessions.len() && sessions[i].key == key
}

/// The lock with the given key stands at `i`.
pub open spec fn lock_at(locks: Seq<LockState>, key: Seq<char>, i: int) -> bool {
    0 <= i < locks.len() && locks[i].key == key
}

/// The tables are consistent: no two sessions and no two locks share a key.
pub open spec fn sessions_wf(db: SessionsState) -> bool {
    &&& forall|i: int, j: int|
        0 <= i < db.sessions.len() && 0 <= j < db.sessions.len() && i != j ==> (
        #[trigger] db.sessions[i]).key != (#[trigger] db.sessions[j]).key
    &&& forall|i: int, j: int|
        0 <= i < db.refresh_locks.len() && 0 <= j < db.refresh_locks.len() && i != j ==> (
        #[trigger] db.refresh_locks[i]).key != (#[trigger] db.refresh_locks[j]).key
}

/// The session that a caller finds under `key` at the time `now`: the stored
/// one, unless it has expired.
pub open spec fn live_session(sessions: Seq<SessionState>, key: Seq<char>, now: int) -> Option<
    SessionState,
> {
    if exists|i: int| session_at(sessions, key, i) && sessions[i].expires_at > now {
        Some(sessions[choose|i: int| session_at(sessions, key, i) && sessions[i].expires_at > now])
    } else {
        None
    }
}

/// The refresh of the session `key` is locked at the time `now`: there is a
/// lock for it that has not run out.
pub open spec fn is_locked(locks: Seq<LockState>, key: Seq<char>, now: int) -> bool {
    exists|i: int| lock_at(locks, key, i) && locks[i].lock_invalid_at > now
}

/// The time until which a lock taken at `now` for `seconds` holds; it never
/// goes beyond the last second that can be stored.
pub open spec fn lock_deadline(now: int, seconds: int) -> int {
    if now + seconds > i64::MAX {
        i64::MAX as int
    } else {
        now + seconds
    }
}

/// The locks without the one for `key`.
pub open spec fn without_lock(locks: Seq<LockState>, key: Seq<char>) -> Seq<LockState> {
    if exists|i: int| lock_at(locks, key, i) {
        locks.remove(choose|i: int| lock_at(locks, key, i))
    } else {
        locks
    }
}

/// The locks once the one for `key` has been taken at `now` for `seconds`: a
/// lock for `key` that has run out gives way to the new one.
pub open spec fn with_lock(locks: Seq<LockState>, key: Seq<char>, now: int, seconds: int) -> Seq<
    LockState,
> {
    without_lock(locks, key).push(
        LockState { key, lock_invalid_at: lock_deadline(now, seconds) },
    )
}

/// The sessions without the one for `key`.
pub open spec fn without_session(sessions: Seq<SessionState>, key: Seq<char>) -> Seq<
    SessionState,
> {
    if exists|i: int| session_at(sessions, key, i) {
        sessions.remove(choose|i: int| session_at(sessions, key, i))
    } else {
        sessions
    }
}

/// The sessions with `session` stored under its key, in the place of the
/// session that was stored under that key, if there was one.
pub open spec fn with_session(sessions: Seq<SessionState>, session: SessionState) -> Seq<
    SessionState,
> {
    if exists|i: int| session_at(sessions, session.key, i) {
        sessions.update(choose|i: int| session_at(sessions, session.key, i), session)
    } else {
        sessions.push(session)
    }
}

/// The sessions that have not expired at `now`, in their order.
pub open spec fn unexpired_sessions(sessions: Seq<SessionState>, now: int) -> Seq<SessionState>
    decreases sessions.len(),
{
    if sessions.len() == 0 {
        Seq::empty()
    } else if sessions.last().expires_at > now {
        unexpired_sessions(sessions.drop_last(), now).push(sessions.last())
    } else {
        unexpired_sessions(sessions.drop_last(), now)
    }
}

/// The locks that have not run out at `now`, in their order.
pub open spec fn live_locks(locks: Seq<LockState>, now: int) -> Seq<LockState>
    decreases locks.len(),
{
    if locks.len() == 0 {
        Seq::empty()
    } else if locks.last().lock_invalid_at > now {
        live_locks(locks.drop_last(), now).push(locks.last())
    } else {
        live_locks(locks.drop_last(), now)
    }
}

impl SessionDatabase {
    /// The tables are consistent.
    pub open spec fn wf(&self) -> bool {
        sessions_wf(self@)
    }

    /// A session store without rows.
    pub fn new() -> (db: SessionDatabase)
        ensures
            db.wf(),
            db@.sessions.len() == 0,
            db@.refresh_locks.len() == 0,
    {
        SessionDatabase { sessions: Vec::new(), refresh_locks: Vec::new() }
    }
}

/// The position of the session with the given key.
fn find_session(db: &SessionDatabase, key: &str) -> (found: Option<usize>)
    ensures
        match found {
            Some(i) => session_at(db@.sessions, key@, i as int),
            None => forall|i: int| !session_at(db@.sessions, key@, i),
        },
{
    let mut i: usize = 0;
    while i < db.sessions.len()
        invariant
            i <= db.sessions.len(),
            forall|j: int| 0 <= j < i ==> !session_at(db@.sessions, key@, j),
        decreases db.sessions.len() - i,
    {
        if same_text(db.sessions[i].key.as_str(), key) {
            return Some(i);
        }
        i += 1;
    }
    None
}

/// The position of the lock with the given key.
fn find_lock(db: &SessionDatabase, key: &str) -> (found: Option<usize>)
    ensures
        match found {
            Some(i) => lock_at(db@.refresh_locks, key@, i as int),
            None => forall|i: int| !lock_at(db@.refresh_locks, key@, i),
        },
{
    let mut i: usize = 0;
    while i < db.refresh_locks.len()
        invariant
            i <= db.refresh_locks.len(),
            forall|j: int| 0 <= j < i ==> !lock_at(db@.refresh_locks, key@, j),
        decreases db.refresh_locks.len() - i,
    {
        if same_text(db.refresh_locks[i].key.as_str(), key) {
            return Some(i);
        }
        i += 1;
    }
    None
}

/// Stores a session under its key, in the place of the session that was
/// stored under that key, if there was one.
pub fn set(db: &mut SessionDatabase, session: &Session) -> (done: Result<(), Error>)
    requires
        old(db).wf(),
    ensures
        final(db).wf(),
        done is Ok,
        final(db)@.sessions == with_session(old(db)@.sessions, session.deep_view()),
        final(db)@.refresh_locks == old(db)@.refresh_locks,
{
    let ghost before = db@.sessions;
    match find_session(db, session.key.as_str()) {
        Some(i) => {
            assert(session_at(before, session.deep_view().key, i as int));
            let ghost chosen = choose|k: int| session_at(before, session.deep_view().key, k);
            assert(chosen == i);
            db.sessions.push(session.duplicate());
            let _ = db.sessions.swap_remove(i);
            assert(db@.sessions =~= before.update(i as int, session.deep_view()));
            assert(db@.refresh_locks =~= old(db)@.refresh_locks);
            assert forall|a: int, b: int|
                0 <= a < db@.sessions.len() && 0 <= b < db@.sessions.len() && a != b implies (
            #[trigger] db@.sessions[a]).key != (#[trigger] db@.sessions[b]).key by {
                assert(db@.sessions[a].key == before[a].key);
                assert(db@.sessions[b].key == before[b].key);
            }
        },
        None => {
            assert(!(exists|k: int| session_at(before, session.deep_view().key, k)));
            db.sessions.push(session.duplicate());
            assert(db@.sessions =~= before.push(session.deep_view()));
            assert(db@.refresh_locks =~= old(db)@.refresh_locks);
            assert forall|a: int, b: int|
                0 <= a < db@.sessions.len() && 0 <= b < db@.sessions.len() && a != b implies (
            #[trigger] db@.sessions[a]).key != (#[trigger] db@.sessions[b]).key by {
                if a == before.len() {
                    assert(!session_at(before, session.key@, b));
                } else if b == before.len() {
                    assert(!session_at(before, session.key@, a));
                }
            }
        },
    }
    Ok(())
}

/// The session under `key` as a caller finds it at the time `now`. Fails with
/// `NotFound` exactly if there is no such session or it has expired.
pub fn get_at(db: &SessionDatabase, key: &SessionKey, now: i64) -> (found: Result<Session, Error>)
    requires
        db.wf(),
    ensures
        match found {
            Ok(session) => live_session(db@.sessions, key@, now as int) == Some(
                session.deep_view(),
            ),
            Err(Error::NotFound) => live_session(db@.sessions, key@, now as int) is None,
            Err(_) => false,
        },
{
    match find_session(db, key.as_str()) {
        Some(i) => {
            if db.sessions[i].expires_at > now {
                proof {
                    let chosen = choose|k: int|
                        session_at(db@.sessions, key@, k) && db@.sessions[k].expires_at > now;
                    assert(chosen == i);
                }
                Ok(db.sessions[i].duplicate())
            } else {
                assert forall|k: int| session_at(db@.sessions, key@, k) implies !(
                db@.sessions[k].expires_at > now) by {
                    assert(k == i);
                }
                Err(Error::NotFound)
            }
        },
        None => Err(Error::NotFound),
    }
}

/// The session under `key` as a caller finds it at the time of the call,
/// whatever that time is.
pub fn get(db: &SessionDatabase, key: &SessionKey) -> (found: Result<Session, Error>)
    requires
        db.wf(),
    ensures
        exists|now: int|
            match found {
                Ok(session) => #[trigger] live_session(db@.sessions, key@, now) == Some(
                    session.deep_view(),
                ),
                Err(Error::NotFound) => live_session(db@.sessions, key@, now) is None,
                Err(_) => false,
            },
{
    let now = unix_now();
    let found = get_at(db, key, now);
    assert(match found {
        Ok(session) => live_session(db@.sessions, key@, now as int) == Some(session.deep_view()),
        Err(Error::NotFound) => live_session(db@.sessions, key@, now as int) is None,
        Err(_) => false,
    });
    found
}

/// Removes the session under `key`, if there is one.
pub fn delete(db: &mut SessionDatabase, key: &SessionKey) -> (done: Result<(), Error>)
    requires
        old(db).wf(),
    ensures
        final(db).wf(),
        done is Ok,
        final(db)@.sessions == without_session(old(db)@.sessions, key@),
        final(db)@.refresh_locks == old(db)@.refresh_locks,
{
    let ghost before = db@.sessions;
    match find_session(db, key.as_str()) {
        Some(i) => {
            let ghost chosen = choose|k: int| session_at(before, key@, k);
            assert(chosen == i);
            let _ = db.sessions.remove(i);
            assert(db@.sessions =~= before.remove(i as int));
            assert(db@.refresh_locks =~= old(db)@.refresh_locks);
            assert forall|a: int, b: int|
                0 <= a < db@.sessions.len() && 0 <= b < db@.sessions.len() && a != b implies (
            #[trigger] db@.sessions[a]).key != (#[trigger] db@.sessions[b]).key by {
                let a0 = if a < i { a } else { a + 1 };
                let b0 = if b < i { b } else { b + 1 };
                assert(db@.sessions[a] == before[a0] && db@.sessions[b] == before[b0]);
            }
        },
        None => {},
    }
    Ok(())
}

/// Removing the lock for `key` leaves locks with distinct keys, none of them
/// for `key`.
pub proof fn lemma_without_lock(locks: Seq<LockState>, key: Seq<char>)
    requires
        forall|i: int, j: int|
            0 <= i < locks.len() && 0 <= j < locks.len() && i != j ==> (#[trigger] locks[i]).key
                != (#[trigger] locks[j]).key,
    ensures
        forall|i: int, j: int|
            0 <= i < without_lock(locks, key).len() && 0 <= j < without_lock(locks, key).len()
                && i != j ==> (#[trigger] without_lock(locks, key)[i]).key != (
            #[trigger] without_lock(locks, key)[j]).key,
        forall|i: int| !lock_at(without_lock(locks, key), key, i),
{
    let rest = without_lock(locks, key);
    if exists|i: int| lock_at(locks, key, i) {
        let at = choose|i: int| lock_at(locks, key, i);
        assert forall|i: int| 0 <= i < rest.len() implies (#[trigger] rest[i]) == locks[if i
            < at {
            i
        } else {
            i + 1
        }] by {}
        assert forall|i: int, j: int|
            0 <= i < rest.len() && 0 <= j < rest.len() && i != j implies (#[trigger] rest[i]).key
            != (#[trigger] rest[j]).key by {
            let i0 = if i < at { i } else { i + 1 };
            let j0 = if j < at { j } else { j + 1 };
            assert(rest[i] == locks[i0] && rest[j] == locks[j0]);
        }
        assert forall|i: int| !lock_at(rest, key, i) by {
            if 0 <= i < rest.len() {
                let i0 = if i < at { i } else { i + 1 };
                assert(rest[i] == locks[i0]);
                assert(i0 != at);
            }
        }
    }
}

/// Removes the lock at `i`, which is the lock for `key`.
fn remove_lock(db: &mut SessionDatabase, key: &str, found: Option<usize>)
    requires
        old(db).wf(),
        match found {
            Some(i) => lock_at(old(db)@.refresh_locks, key@, i as int),
            None => forall|i: int| !lock_at(old(db)@.refresh_locks, key@, i),
        },
    ensures
        final(db).wf(),
        final(db)@.refresh_locks == without_lock(old(db)@.refresh_locks, key@),
        final(db)@.sessions == old(db)@.sessions,
{
    let ghost before = db@.refresh_locks;
    proof {
        lemma_without_lock(before, key@);
    }
    match found {
        Some(i) => {
            let ghost chosen = choose|k: int| lock_at(before, key@, k);
            assert(chosen == i);
            let _ = db.refresh_locks.remove(i);
            assert(db@.refresh_locks =~= before.remove(i as int));
            assert(db@.sessions =~= old(db)@.sessions);
        },
        None => {},
    }
}

/// Tries to take the lock on the refresh of the session `key` at the time
/// `now`, for `lock_until` seconds. The lock is taken, and `true` returned,
/// exactly if no lock for the key holds at `now`; a lock that has run out
/// gives way. Otherwise nothing changes.
pub fn lock_refresh_at(db: &mut SessionDatabase, key: &SessionKey, lock_until: u64, now: i64) -> (
    acquired: Result<bool, Error>)
    requires
        old(db).wf(),
    ensures
        final(db).wf(),
        final(db)@.sessions == old(db)@.sessions,
        match acquired {
            Ok(has_lock) => has_lock == !is_locked(old(db)@.refresh_locks, key@, now as int)
                && final(db)@.refresh_locks == if has_lock {
                with_lock(old(db)@.refresh_locks, key@, now as int, lock_until as int)
            } else {
                old(db)@.refresh_locks
            },
            Err(_) => false,
        },
{
    let ghost before = db@.refresh_locks;
    let found = find_lock(db, key.as_str());
    // check if the lock is already set
    let lock_exists = match found {
        Some(i) => db.refresh_locks[i].lock_invalid_at > now,
        None => false,
    };
    proof {
        if found is Some {
            let i = found->0 as int;
            assert forall|k: int| lock_at(before, key@, k) implies k == i by {}
        }
    }
    if lock_exists {
        return Ok(false);
    }
    // acquire the lock
    remove_lock(db, key.as_str(), found);
    let ghost rest = db@.refresh_locks;
    let deadline: i128 = now as i128 + lock_until as i128;
    let lock_invalid_at: i64 = if deadline > i64::MAX as i128 {
        i64::MAX
    } else {
        deadline as i64
    };
    assert(lock_invalid_at == lock_deadline(now as int, lock_until as int));
    db.refresh_locks.push(RefreshLock { key: copy_str(key.as_str()), lock_invalid_at });
    proof {
        lemma_without_lock(before, key@);
        assert(db@.refresh_locks =~= with_lock(before, key@, now as int, lock_until as int));
        assert(db@.sessions =~= old(db)@.sessions);
        let locks = db@.refresh_locks;
        assert forall|a: int, b: int|
            0 <= a < locks.len() && 0 <= b < locks.len() && a != b implies (#[trigger] locks[a]).key
            != (#[trigger] locks[b]).key by {
            if a == rest.len() {
                assert(!lock_at(rest, key@, b));
            } else if b == rest.len() {
                assert(!lock_at(rest, key@, a));
            } else {
                assert(locks[a] == rest[a] && locks[b] == rest[b]);
            }
        }
    }
    Ok(true)
}

/// Tries to take the lock on the refresh of the session `key` at the time of
/// the call, whatever that time is.
pub fn lock_refresh(db: &mut SessionDatabase, key: &SessionKey, lock_until: u64) -> (acquired:
    Result<bool, Error>)
    requires
        old(db).wf(),
    ensures
        final(db).wf(),
        final(db)@.sessions == old(db)@.sessions,
        exists|now: int|
            match acquired {
                Ok(has_lock) => has_lock == !(#[trigger] is_locked(
                    old(db)@.refresh_locks,
                    key@,
                    now,
                )) && final(db)@.refresh_locks == if has_lock {
                    with_lock(old(db)@.refresh_locks, key@, now, lock_until as int)
                } else {
                    old(db)@.refresh_locks
                },
                Err(_) => false,
            },
{
    let now = unix_now();
    let acquired = lock_refresh_at(db, key, lock_until, now);
    assert(match acquired {
        Ok(has_lock) => has_lock == !is_locked(old(db)@.refresh_locks, key@, now as int)
            && db@.refresh_locks == if has_lock {
            with_lock(old(db)@.refresh_locks, key@, now as int, lock_until as int)
        } else {
            old(db)@.refresh_locks
        },
        Err(_) => false,
    });
    acquired
}

/// Whether the refresh of the session `key` is locked at the time `now`.
pub fn refresh_lock_status_at(db: &SessionDatabase, key: &SessionKey, now: i64) -> (status:
    RefreshLockStatus)
    requires
        db.wf(),
    ensures
        status.was_locked == is_locked(db@.refresh_locks, key@, now as int),
{
    match find_lock(db, key.as_str()) {
        Some(i) => {
            proof {
                assert forall|k: int| lock_at(db@.refresh_locks, key@, k) implies k == i by {}
            }
            RefreshLockStatus { was_locked: db.refresh_locks[i].lock_invalid_at > now }
        },
        None => RefreshLockStatus { was_locked: false },
    }
}

/// Releases the lock on the refresh of the session `key`. That there is no
/// such lock is no error.
pub fn unlock_refresh(db: &mut SessionDatabase, key: &SessionKey) -> (done: Result<(), Error>)
    requires
        old(db).wf(),
    ensures
        final(db).wf(),
        done is Ok,
        final(db)@.refresh_locks == without_lock(old(db)@.refresh_locks, key@),
        final(db)@.sessions == old(db)@.sessions,
{
    let found = find_lock(db, key.as_str());
    remove_lock(db, key.as_str(), found);
    Ok(())
}

/// One caller at a time holds the refresh lock: once a caller has taken the
/// lock for a key at `now` for at least a second, the lock is consistent with
/// the other locks, a second caller finds the refresh locked for as long as
/// the lock holds, and finds it free again once the lock has run out or has
/// been released.
pub proof fn theorem_refresh_lock_excludes(
    locks: Seq<LockState>,
    key: Seq<char>,
    now: int,
    seconds: int,
    later: int,
)
    requires
        forall|i: int, j: int|
            0 <= i < locks.len() && 0 <= j < locks.len() && i != j ==> (#[trigger] locks[i]).key
                != (#[trigger] locks[j]).key,
        !is_locked(locks, key, now),
        seconds >= 1,
        now < i64::MAX,
        now <= later,
    ensures
        later < lock_deadline(now, seconds) ==> is_locked(
            with_lock(locks, key, now, seconds),
            key,
            later,
        ),
        later >= lock_deadline(now, seconds) ==> !is_locked(
            with_lock(locks, key, now, seconds),
            key,
            later,
        ),
        is_locked(with_lock(locks, key, now, seconds), key, now),
        !is_locked(without_lock(with_lock(locks, key, now, seconds), key), key, later),
{
    lemma_without_lock(locks, key);
    let rest = without_lock(locks, key);
    let held = with_lock(locks, key, now, seconds);
    let top = rest.len() as int;
    assert(lock_at(held, key, top));
    assert(held[top].lock_invalid_at == lock_deadline(now, seconds));
    assert forall|i: int| lock_at(held, key, i) implies i == top by {
        if i < top {
            assert(held[i] == rest[i]);
            assert(lock_at(rest, key, i));
        }
    }
    assert forall|i: int, j: int|
        0 <= i < held.len() && 0 <= j < held.len() && i != j implies (#[trigger] held[i]).key != (
    #[trigger] held[j]).key by {
        if i == top {
            assert(held[j] == rest[j]);
            assert(!lock_at(rest, key, j));
        } else if j == top {
            assert(held[i] == rest[i]);
            assert(!lock_at(rest, key, i));
        } else {
            assert(held[i] == rest[i] && held[j] == rest[j]);
        }
    }
    lemma_without_lock(held, key);
}


/// Removes the sessions that have expired at the time `now`.
pub fn prune_expired_at(db: &mut SessionDatabase, now: i64) -> (done: Result<(), Error>)
    requires
        old(db).wf(),
    ensures
        final(db).wf(),
        done is Ok,
        final(db)@.sessions == unexpired_sessions(old(db)@.sessions, now as int),
        final(db)@.refresh_locks == old(db)@.refresh_locks,
{
    let ghost before = db@.sessions;
    let mut kept: Vec<Session> = Vec::new();
    let ghost mut origin: Seq<int> = Seq::empty();
    let mut i: usize = 0;
    assert(before.take(0) =~= Seq::empty());
    while i < db.sessions.len()
        invariant
            i <= db.sessions.len(),
            before == db@.sessions,
            db@ == old(db)@,
            kept.deep_view() == unexpired_sessions(before.take(i as int), now as int),
            origin.len() == kept.len(),
            forall|a: int|
                0 <= a < origin.len() ==> 0 <= (#[trigger] origin[a]) < i && kept.deep_view()[a]
                    == before[origin[a]],
            forall|a: int, b: int|
                0 <= a < b < origin.len() ==> (#[trigger] origin[a]) < (#[trigger] origin[b]),
        decreases db.sessions.len() - i,
    {
        let ghost so_far = kept.deep_view();
        assert(before.take(i + 1).drop_last() =~= before.take(i as int));
        assert(before.take(i + 1).last() == before[i as int]);
        if db.sessions[i].expires_at > now {
            kept.push(db.sessions[i].duplicate());
            proof {
                origin = origin.push(i as int);
                assert(kept.deep_view() =~= so_far.push(before[i as int]));
            }
        }
        i += 1;
    }
    assert(before.take(i as int) =~= before);
    db.sessions = kept;
    proof {
        let after = db@.sessions;
        assert forall|a: int, b: int|
            0 <= a < after.len() && 0 <= b < after.len() && a != b implies (#[trigger] after[a]).key
            != (#[trigger] after[b]).key by {
            assert(after[a] == before[origin[a]] && after[b] == before[origin[b]]);
            if a < b {
                assert(origin[a] < origin[b]);
            } else {
                assert(origin[b] < origin[a]);
            }
        }
        assert(db@.refresh_locks =~= old(db)@.refresh_locks);
    }
    Ok(())
}

/// Removes the sessions that have expired at the time of the call, whatever
/// that time is.
pub fn prune_expired(db: &mut SessionDatabase) -> (done: Result<(), Error>)
    requires
        old(db).wf(),
    ensures
        final(db).wf(),
        done is Ok,
        exists|now: int| final(db)@.sessions == #[trigger] unexpired_sessions(old(db)@.sessions, now),
        final(db)@.refresh_locks == old(db)@.refresh_locks,
{
    let now = unix_now();
    let done = prune_expired_at(db, now);
    assert(db@.sessions == unexpired_sessions(old(db)@.sessions, now as int));
    done
}

/// Removes the refresh locks that have run out at the time `now`.
pub fn prune_expired_refresh_at(db: &mut SessionDatabase, now: i64) -> (done: Result<(), Error>)
    requires
        old(db).wf(),
    ensures
        final(db).wf(),
        done is Ok,
        final(db)@.refresh_locks == live_locks(old(db)@.refresh_locks, now as int),
        final(db)@.sessions == old(db)@.sessions,
{
    let ghost before = db@.refresh_locks;
    let mut kept: Vec<RefreshLock> = Vec::new();
    let ghost mut origin: Seq<int> = Seq::empty();
    let mut i: usize = 0;
    assert(before.take(0) =~= Seq::empty());
    while i < db.refresh_locks.len()
        invariant
            i <= db.refresh_locks.len(),
            before == db@.refresh_locks,
            db@ == old(db)@,
            kept.deep_view() == live_locks(before.take(i as int), now as int),
            origin.len() == kept.len(),
            forall|a: int|
                0 <= a < origin.len() ==> 0 <= (#[trigger] origin[a]) < i && kept.deep_view()[a]
                    == before[origin[a]],
            forall|a: int, b: int|
                0 <= a < b < origin.len() ==> (#[trigger] origin[a]) < (#[trigger] origin[b]),
        decreases db.refresh_locks.len() - i,
    {
        let ghost so_far = kept.deep_view();
        assert(before.take(i + 1).drop_last() =~= before.take(i as int));
        assert(before.take(i + 1).last() == before[i as int]);
        if db.refresh_locks[i].lock_invalid_at > now {
            kept.push(
                RefreshLock {
                    key: db.refresh_locks[i].key.clone(),
                    lock_invalid_at: db.refresh_locks[i].lock_invalid_at,
                },
            );
            proof {
                origin = origin.push(i as int);
                assert(kept.deep_view() =~= so_far.push(before[i as int]));
            }
        }
        i += 1;
    }
    assert(before.take(i as int) =~= before);
    db.refresh_locks = kept;
    proof {
        let after = db@.refresh_locks;
        assert forall|a: int, b: int|
            0 <= a < after.len() && 0 <= b < after.len() && a != b implies (#[trigger] after[a]).key
            != (#[trigger] after[b]).key by {
            assert(after[a] == before[origin[a]] && after[b] == before[origin[b]]);
            if a < b {
                assert(origin[a] < origin[b]);
            } else {
                assert(origin[b] < origin[a]);
            }
        }
        assert(db@.sessions =~= old(db)@.sessions);
    }
    Ok(())
}

/// Removes the refresh locks that have run out at the time of the call,
/// whatever that time is.
pub fn prune_expired_refresh(db: &mut SessionDatabase) -> (done: Result<(), Error>)
    requires
        old(db).wf(),
    ensures
        final(db).wf(),
        done is Ok,
        exists|now: int| final(db)@.refresh_locks == #[trigger] live_locks(old(db)@.refresh_locks, now),
        final(db)@.sessions == old(db)@.sessions,
{
    let now = unix_now();
    let done = prune_expired_refresh_at(db, now);
    assert(db@.refresh_locks == live_locks(old(db)@.refresh_locks, now as int));
    done
}

/// Once the expired sessions are pruned, every session that is left is one
/// that a caller still finds.
pub proof fn theorem_pruned_sessions_are_live(sessions: Seq<SessionState>, now: int, i: int)
    requires
        0 <= i < unexpired_sessions(sessions, now).len(),
    ensures
        unexpired_sessions(sessions, now)[i].expires_at > now,
        sessions.contains(unexpired_sessions(sessions, now)[i]),
    decreases sessions.len(),
{
    if sessions.len() > 0 {
        let init = sessions.drop_last();
        let kept = unexpired_sessions(init, now);
        if i < kept.len() {
            theorem_pruned_sessions_are_live(init, now, i);
            let j = choose|j: int| 0 <= j < init.len() && init[j] == kept[i];
            assert(sessions[j] == kept[i]);
        } else {
            assert(sessions[sessions.len() - 1] == sessions.last());
        }
    }
}

/// The reply answers the request at the time `now`: it is of the kind that
/// the request asks for and is what the operation of the request yields on the
/// tables `before`, which it leaves as `after`.
pub open spec fn answers(
    before: SessionsState,
    message: Message,
    now: int,
    reply: Reply,
    after: SessionsState,
) -> bool {
    match message {
        Message::Get { key } => after == before && match reply {
            Reply::Session(Ok(session)) => live_session(before.sessions, key@, now) == Some(
                session.deep_view(),
            ),
            Reply::Session(Err(Error::NotFound)) => live_session(before.sessions, key@, now)
                is None,
            _ => false,
        },
        Message::Delete { key } => reply matches Reply::Done(Ok(())) && after.sessions
            == without_session(before.sessions, key@) && after.refresh_locks
            == before.refresh_locks,
        Message::Put { session } => reply matches Reply::Done(Ok(())) && after.sessions
            == with_session(before.sessions, session.deep_view()) && after.refresh_locks
            == before.refresh_locks,
        Message::PruneExpired => reply matches Reply::Done(Ok(())) && after.sessions
            == unexpired_sessions(before.sessions, now) && after.refresh_locks
            == before.refresh_locks,
        Message::LockRefresh { key, max_lock } => reply matches Reply::Locked(Ok(has_lock))
            && after.sessions == before.sessions && has_lock == !is_locked(
            before.refresh_locks,
            key@,
            now,
        ) && after.refresh_locks == if has_lock {
            with_lock(before.refresh_locks, key@, now, max_lock as int)
        } else {
            before.refresh_locks
        },
        Message::UnlockRefresh { key } => reply matches Reply::Done(Ok(())) && after.refresh_locks
            == without_lock(before.refresh_locks, key@) && after.sessions == before.sessions,
        Message::PruneExpiredRefresh => reply matches Reply::Done(Ok(())) && after.refresh_locks
            == live_locks(before.refresh_locks, now) && after.sessions == before.sessions,
    }
}

/// Serves one request on the tables of the session store at the time `now`:
/// the request goes to the operation that it names, and what that operation
/// yields is the reply.
pub fn handle(db: &mut SessionDatabase, message: Message, now: i64) -> (reply: Reply)
    requires
        old(db).wf(),
    ensures
        final(db).wf(),
        answers(old(db)@, message, now as int, reply, final(db)@),
{
    match message {
        Message::Get { key } => Reply::Session(get_at(db, &key, now)),
        Message::Delete { key } => Reply::Done(delete(db, &key)),
        Message::Put { session } => Reply::Done(set(db, &session)),
        Message::PruneExpired => Reply::Done(prune_expired_at(db, now)),
        Message::LockRefresh { key, max_lock } => Reply::Locked(
            lock_refresh_at(db, &key, max_lock, now),
        ),
        Message::UnlockRefresh { key } => Reply::Done(unlock_refresh(db, &key)),
        Message::PruneExpiredRefresh => Reply::Done(prune_expired_refresh_at(db, now)),
    }
}

/// Whether the tables of the session store are consistent. Tables that come
/// from outside are checked with this before an operation is run on them.
pub fn is_consistent(db: &SessionDatabase) -> (consistent: bool)
    ensures
        consistent == db.wf(),
{
    let ghost sessions = db@.sessions;
    let ghost locks = db@.refresh_locks;
    let mut i: usize = 0;
    while i < db.sessions.len()
        invariant
            i <= db.sessions.len(),
            sessions == db@.sessions,
            forall|a: int, b: int|
                0 <= a < i && 0 <= b < sessions.len() && a != b ==> (#[trigger] sessions[a]).key
                    != (#[trigger] sessions[b]).key,
        decreases db.sessions.len() - i,
    {
        let mut j: usize = i + 1;
        while j < db.sessions.len()
            invariant
                i < j <= db.sessions.len(),
                sessions == db@.sessions,
                forall|b: int| i < b < j ==> sessions[i as int].key != (#[trigger] sessions[b]).key,
            decreases db.sessions.len() - j,
        {
            if same_text(db.sessions[i].key.as_str(), db.sessions[j].key.as_str()) {
                assert(sessions[i as int].key == sessions[j as int].key);
                return false;
            }
            j += 1;
        }
        i += 1;
    }
    let mut k: usize = 0;
    while k < db.refresh_locks.len()
        invariant
            k <= db.refresh_locks.len(),
            sessions == db@.sessions,
            locks == db@.refresh_locks,
            forall|a: int, b: int|
                0 <= a < sessions.len() && 0 <= b < sessions.len() && a != b ==> (
                #[trigger] sessions[a]).key != (#[trigger] sessions[b]).key,
            forall|a: int, b: int|
                0 <= a < k && 0 <= b < locks.len() && a != b ==> (#[trigger] locks[a]).key != (
                #[trigger] locks[b]).key,
        decreases db.refresh_locks.len() - k,
    {
        let mut j: usize = k + 1;
        while j < db.refresh_locks.len()
            invariant
                k < j <= db.refresh_locks.len(),
                locks == db@.refresh_locks,
                forall|b: int| k < b < j ==> locks[k as int].key != (#[trigger] locks[b]).key,
            decreases db.refresh_locks.len() - j,
        {
            if same_text(db.refresh_locks[k].key.as_str(), db.refresh_locks[j].key.as_str()) {
                assert(locks[k as int].key == locks[j as int].key);
                return false;
            }
            j += 1;
        }
        k += 1;
    }
    true
}

} // verus!
