//! What the application decides around a sign-in with the identity provider.

use vstd::prelude::*;
use vstd::string::*;
use crate::config;
use crate::sqlite::delta::{sha256_digest, sha256_hex};
use crate::text::{ends_with, same_text};

verus! {

/// Why a sign-in failed.
#[derive(Debug)]
pub enum Error {
    /// The state that came back is not the state that was sent.
    CsrfMismatch,
    /// The identity provider sent no identity token.
    MissingIdToken,
    /// The identity provider sent no refresh token.
    MissingRefreshToken,
    /// The identity provider did not say how long the token is good.
    MissingExpiresIn,
    /// The token would be good beyond the last second that can be stored.
    InvalidExpiresIn(u64),
    /// The origin of the server ends with a slash.
    OriginMustNotEndWithSlash,
    /// A URL is not one; the message says which.
    InvalidUrl(String),
    /// Anything else; the message says what.
    Other(String),
}

/// What the identity provider is asked with.
pub struct Config {
    pub issuer_url: String,
    pub client_id: String,
    pub client_secret: String,
    pub origin: String,
}

/// The parameters with which the identity provider calls back.
pub struct CallbackParams<'a> {
    pub state: &'a str,
    pub code: &'a str,
}

impl Config {
    /// What the identity provider is asked with, taken from the configuration
    /// of the server. Fails exactly if the origin ends with a slash: the
    /// address to call back is the origin and a path.
    pub fn try_from(value: &config::Config) -> (taken: Result<Config, Error>)
        ensures
            match taken {
                Ok(config) => !(value.origin@.len() > 0 && value.origin@.last() == '/')
                    && config.issuer_url@ == value.oidc.issuer_url@ && config.client_id@
                    == value.oidc.client_id@ && config.client_secret@ == value.oidc.client_secret@
                    && config.origin@ == value.origin@,
                Err(error) => error is OriginMustNotEndWithSlash && value.origin@.len() > 0
                    && value.origin@.last() == '/',
            },
    {
        if ends_with(value.origin.as_str(), '/') {
            return Err(Error::OriginMustNotEndWithSlash);
        }
        Ok(
            Config {
                issuer_url: value.oidc.issuer_url.clone(),
                client_id: value.oidc.client_id.clone(),
                client_secret: value.oidc.client_secret.clone(),
                origin: value.origin.clone(),
            },
        )
    }

    /// The address that the identity provider calls back.
    pub fn redirect_url(&self) -> (url: String)
        ensures
            url@ == self.origin@ + "/auth/complete"@,
    {
        let mut url = self.origin.clone();
        url.append("/auth/complete");
        url
    }
}

/// Whether the state that came back with a call of the identity provider is
/// the state that was sent: the two are compared by their digests.
pub fn csrf_matches(sent: &str, returned: &str) -> (same: bool)
    ensures
        same == (sha256_hex(sent.spec_bytes()) == sha256_hex(returned.spec_bytes())),
{
    let sent_digest = sha256_digest(sent.as_bytes());
    let returned_digest = sha256_digest(returned.as_bytes());
    same_text(sent_digest.as_str(), returned_digest.as_str())
}

/// The time until which a token that is good for `expires_in` seconds from
/// `now` on is good. Fails exactly if that is beyond the last second that can
/// be stored.
pub fn expires_at(now: i64, expires_in: u64) -> (until: Result<i64, Error>)
    ensures
        match until {
            Ok(time) => time == now + expires_in,
            Err(error) => error == Error::InvalidExpiresIn(expires_in) && now + expires_in
                > i64::MAX,
        },
{
    let until: i128 = now as i128 + expires_in as i128;
    if until > i64::MAX as i128 {
        Err(Error::InvalidExpiresIn(expires_in))
    } else {
        Ok(until as i64)
    }
}

/// The name under which a user is registered: the name that the identity
/// provider gives, or else the subject.
pub fn display_name(subject: &str, name: Option<&str>) -> (shown: String)
    ensures
        shown@ == match name {
            Some(given) => given@,
            None => subject@,
        },
{
    match name {
        Some(given) => String::from_str(given),
        None => String::from_str(subject),
    }
}

} // verus!
