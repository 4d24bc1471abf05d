//! The life of a session: when it is good, when it has to be refreshed, and
//! what a refresh leaves behind.

use vstd::prelude::*;
use vstd::string::*;
use crate::application;
use crate::domain::{status_at, Session, SessionKey, SessionState, SessionStatus};
use crate::session_store;
use crate::text::{base64_url, base64_url_encode};

verus! {

/// The seconds that a session lasts unless it is refreshed: ninety days.
pub const SESSION_EXPIRES_IN: i64 = 7776000;

/// The seconds for which a session that has been refreshed stays good under
/// its old key, for the requests that still carry that key.
pub const REFRESH_GRACE: i64 = 15;

/// The number of random bytes in the key of a session.
pub const SESSION_KEY_BYTES: usize = 32;

/// Why a session cannot be had.
#[derive(Debug, Clone, Copy, PartialEq, Eq, Structural)]
pub enum Error {
    /// No random bytes could be had for the key of a session.
    CryptoRandom,
    /// The session is over.
    Expired,
    /// The session would last beyond the last second that can be stored.
    TimeOutOfBounds,
}

/// The error that the application reports when a session cannot be had: a
/// session that is over leaves the caller unauthenticated, and everything
/// else is an error of the server.
pub fn reported(error: Error) -> (reported: application::Error)
    ensures
        match error {
            Error::Expired => reported matches application::Error::Unauthenticated(message)
                && message@ == "session is expired"@,
            Error::CryptoRandom => reported matches application::Error::Other(message) && message@
                == "crypto random error"@,
            Error::TimeOutOfBounds => reported matches application::Error::Other(message)
                && message@ == "time out of bounds"@,
        },
{
    match error {
        Error::Expired => application::Error::Unauthenticated(String::from_str("session is expired")),
        Error::CryptoRandom => application::Error::Other(String::from_str("crypto random error")),
        Error::TimeOutOfBounds => application::Error::Other(String::from_str("time out of bounds")),
    }
}

/// The error that the application reports when the session store fails on
/// finding a session: a caller whose session is not found is unauthenticated.
pub fn session_error(error: session_store::Error) -> (reported: application::Error)
    ensures
        match error {
            session_store::Error::NotFound => reported matches application::Error::Unauthenticated(
                message,
            ) && message@ == "session not found"@,
            session_store::Error::RefreshLockTimeout => reported matches application::Error::Other(
                message,
            ) && message@ == "refresh lock timeout"@,
            session_store::Error::Other(told) => reported matches application::Error::Other(message)
                && message@ == told@,
        },
{
    match error {
        session_store::Error::NotFound => application::Error::Unauthenticated(
            String::from_str("session not found"),
        ),
        session_store::Error::RefreshLockTimeout => application::Error::Other(
            String::from_str("refresh lock timeout"),
        ),
        session_store::Error::Other(message) => application::Error::Other(message),
    }
}

/// A session that is good.
#[derive(Debug, Clone)]
pub struct Active {
    pub key: SessionKey,
    pub user_id: String,
    pub expires_at: i64,
}

/// What is to be done for a caller who presents a session.
#[derive(Debug, Clone)]
pub enum Found {
    /// The session is good.
    Active(Active),
    /// The session is over; the caller is not authenticated.
    Expired,
    /// The session has to be refreshed under the refresh lock.
    MustRevalidate(Session),
}

/// `ring::rand::SecureRandom::fill` on `ring::rand::SystemRandom`, into a
/// vector of `count` zero bytes: the vector filled, unless the generator
/// fails. Nothing is claimed of the bytes but their number.
#[verifier::external_body]
fn system_random(count: usize) -> (bytes: Option<Vec<u8>>)
    ensures
        bytes matches Some(filled) ==> filled@.len() == count,
{
    let mut bytes = vec![0u8; count];
    match ring::rand::SecureRandom::fill(&ring::rand::SystemRandom::new(), &mut bytes) {
        Ok(()) => Some(bytes),
        Err(_) => None,
    }
}

/// A fresh key for a session: the text of 32 random bytes. Fails with
/// `CryptoRandom` if no random bytes can be had, and in no other way.
pub fn new_session_id() -> (key: Result<String, Error>)
    ensures
        match key {
            Ok(text) => exists|bytes: Seq<u8>|
                bytes.len() == SESSION_KEY_BYTES && text@ == #[trigger] base64_url(bytes),
            Err(error) => error == Error::CryptoRandom,
        },
{
    match system_random(SESSION_KEY_BYTES) {
        Some(bytes) => Ok(base64_url_encode(bytes.as_slice())),
        None => Err(Error::CryptoRandom),
    }
}

/// The time that lies `seconds` after `now`, if it can be stored.
pub fn seconds_after(now: i64, seconds: i64) -> (then: Result<i64, Error>)
    ensures
        match then {
            Ok(time) => time == now + seconds,
            Err(error) => error == Error::TimeOutOfBounds && !(i64::MIN <= now + seconds
                <= i64::MAX),
        },
{
    let then: i128 = now as i128 + seconds as i128;
    if then > i64::MAX as i128 || then < i64::MIN as i128 {
        Err(Error::TimeOutOfBounds)
    } else {
        Ok(then as i64)
    }
}

/// The session that begins at `now` for a user who has just signed in: it is
/// to be revalidated when the identity provider says so, and lasts ninety
/// days. Fails with `TimeOutOfBounds` exactly if that is beyond the last
/// second that can be stored.
pub fn begin(key: String, user_id: &str, refresh_token: &str, revalidate_at: i64, now: i64) -> (
    begun: Result<Session, Error>)
    ensures
        match begun {
            Ok(session) => session.deep_view() == (SessionState {
                key: key@,
                user_id: user_id@,
                refresh_token: refresh_token@,
                revalidate_at: revalidate_at as int,
                expires_at: now + SESSION_EXPIRES_IN,
            }),
            Err(error) => error == Error::TimeOutOfBounds && now + SESSION_EXPIRES_IN > i64::MAX,
        },
{
    let expires_at = match seconds_after(now, SESSION_EXPIRES_IN) {
        Ok(expires_at) => expires_at,
        Err(error) => {
            return Err(error);
        },
    };
    Ok(
        Session {
            key,
            user_id: String::from_str(user_id),
            refresh_token: String::from_str(refresh_token),
            revalidate_at,
            expires_at,
        },
    )
}

/// What is to be done at `now` for a caller who presents `session`: a good
/// session is used as it is, an expired one is refused, and one that has to
/// be revalidated is refreshed.
pub fn get(session: Session, now: i64) -> (found: Found)
    ensures
        match status_at(session.revalidate_at as int, session.expires_at as int, now as int) {
            SessionStatus::Active => found matches Found::Active(active) && active.key@
                == session.key@ && active.user_id@ == session.user_id@ && active.expires_at
                == session.expires_at,
            SessionStatus::Expired => found is Expired,
            SessionStatus::MustRevalidate => found matches Found::MustRevalidate(kept)
                && kept.deep_view() == session.deep_view(),
        },
{
    match session.status_at(now) {
        SessionStatus::Active => Found::Active(
            Active {
                key: SessionKey(session.key),
                user_id: session.user_id,
                expires_at: session.expires_at,
            },
        ),
        SessionStatus::Expired => Found::Expired,
        SessionStatus::MustRevalidate => Found::MustRevalidate(session),
    }
}

/// What a refresh leaves behind.
#[derive(Debug, Clone)]
pub struct Refreshed {
    /// The session under its old key, good for a short while yet.
    pub original: Session,
    /// The session under its new key.
    pub renewed: Session,
    /// What the caller goes on with.
    pub active: Active,
}

/// The sessions that a refresh at `now` stores once the identity provider has
/// issued a new refresh token: the old session stays good under its key for
/// fifteen seconds, with its old token, and the new session takes the new
/// key and the new token and lasts ninety days. Fails with `TimeOutOfBounds`
/// exactly if that is beyond the last second that can be stored.
pub fn refresh_session(
    session: &Session,
    key: &SessionKey,
    new_key: String,
    refresh_token: String,
    revalidate_at: i64,
    now: i64,
) -> (refreshed: Result<Refreshed, Error>)
    ensures
        match refreshed {
            Ok(sessions) => {
                &&& sessions.original.deep_view() == (SessionState {
                    key: key@,
                    user_id: session.user_id@,
                    refresh_token: session.refresh_token@,
                    revalidate_at: now + REFRESH_GRACE,
                    expires_at: now + REFRESH_GRACE,
                })
                &&& sessions.renewed.deep_view() == (SessionState {
                    key: new_key@,
                    user_id: session.user_id@,
                    refresh_token: refresh_token@,
                    revalidate_at: revalidate_at as int,
                    expires_at: now + SESSION_EXPIRES_IN,
                })
                &&& sessions.active.key@ == new_key@
                &&& sessions.active.user_id@ == session.user_id@
                &&& sessions.active.expires_at == now + SESSION_EXPIRES_IN
            },
            Err(error) => error == Error::TimeOutOfBounds && now + SESSION_EXPIRES_IN > i64::MAX,
        },
{
    // build the new session
    let expires_at = match seconds_after(now, SESSION_EXPIRES_IN) {
        Ok(expires_at) => expires_at,
        Err(error) => {
            return Err(error);
        },
    };
    let renewed = Session {
        key: new_key.clone(),
        user_id: session.user_id.clone(),
        refresh_token,
        revalidate_at,
        expires_at,
    };
    // the old session is kept alive for a short grace period, for the requests
    // that still use the old key
    let original_session_grace = now + REFRESH_GRACE;
    let original = Session {
        key: key.as_str().to_owned(),
        user_id: session.user_id.clone(),
        refresh_token: session.refresh_token.clone(),
        revalidate_at: original_session_grace,
        expires_at: original_session_grace,
    };
    Ok(
        Refreshed {
            original,
            renewed,
            active: Active {
                key: SessionKey(new_key),
                user_id: session.user_id.clone(),
                expires_at,
            },
        },
    )
}

} // verus!
