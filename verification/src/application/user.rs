//! Users on their way in from the identity provider.

use vstd::prelude::*;
use vstd::string::*;
use crate::domain::id::{ulid_text, Id};
use crate::application::recipe::{store_error, store_message};
use crate::application::Error;
use crate::datastore;
use crate::domain::RegisteringUser;
use crate::text::concat3;

verus! {

/// The user that is registered for a subject of the identity provider: the
/// external identity is the subject behind the prefix `custom|`, and the
/// identifier that is proposed is used if the identity is new.
pub fn registering(potential_id: &Id, subject: &str, name: &str) -> (user: RegisteringUser)
    ensures
        user.potential_id@ == ulid_text(potential_id@),
        user.oauth_id@ == "custom|"@ + subject@,
        user.name@ == name@,
{
    let mut oauth_id = String::from_str("custom|");
    oauth_id.append(subject);
    RegisteringUser {
        potential_id: potential_id.to_string(),
        oauth_id,
        name: String::from_str(name),
    }
}

/// The error that the application reports when the store fails on the user
/// `id`: a user that is not found is reported by name, and nothing else of
/// the store is told.
pub fn user_error(error: datastore::Error, id: &str) -> (reported: Error)
    ensures
        match error {
            datastore::Error::NotFound => reported matches Error::NotFound(message) && message@
                == "user "@ + id@ + " does not exist"@,
            _ => reported matches Error::Other(message) && message@ == store_message(error),
        },
{
    match error {
        datastore::Error::NotFound => Error::NotFound(concat3("user ", id, " does not exist")),
        other => store_error(other),
    }
}

} // verus!
