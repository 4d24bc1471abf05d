//! The domain vocabulary of the recipe store.

use vstd::prelude::*;

pub mod filter;
pub mod id;
pub mod image;
pub mod page;
pub mod recipe;
pub mod tag;
pub mod user;

verus! {

/// A registered user.
#[derive(Debug, Clone)]
pub struct User {
    pub id: String,
    pub oauth_id: String,
    pub name: String,
}

/// What a user record holds.
pub struct UserState {
    pub id: Seq<char>,
    pub oauth_id: Seq<char>,
    pub name: Seq<char>,
}

impl DeepView for User {
    type V = UserState;

    open spec fn deep_view(&self) -> UserState {
        UserState { id: self.id@, oauth_id: self.oauth_id@, name: self.name@ }
    }
}

impl User {
    /// A copy of the user.
    pub fn duplicate(&self) -> (copy: User)
        ensures
            copy.deep_view() == self.deep_view(),
    {
        User { id: self.id.clone(), oauth_id: self.oauth_id.clone(), name: self.name.clone() }
    }
}

/// A user on the way in: registered under `potential_id` unless the
/// `oauth_id` is known already.
#[derive(Debug, Clone)]
pub struct RegisteringUser {
    pub potential_id: String,
    pub oauth_id: String,
    pub name: String,
}

/// The key of a session.
#[derive(Debug, Clone)]
pub struct SessionKey(pub String);

impl View for SessionKey {
    type V = Seq<char>;

    open spec fn view(&self) -> Seq<char> {
        self.0@
    }
}

impl SessionKey {
    /// The key as text.
    pub fn as_str(&self) -> (key: &str)
        ensures
            key@ == self@,
    {
        self.0.as_str()
    }

    /// The key as owned text.
    pub fn into_string(self) -> (key: String)
        ensures
            key@ == self@,
    {
        self.0
    }
}

/// A session of a signed-in user. Times are seconds since the Unix epoch.
#[derive(Debug, Clone)]
pub struct Session {
    pub key: String,
    pub user_id: String,
    pub refresh_token: String,
    pub revalidate_at: i64,
    pub expires_at: i64,
}

/// What a session holds.
pub struct SessionState {
    pub key: Seq<char>,
    pub user_id: Seq<char>,
    pub refresh_token: Seq<char>,
    pub revalidate_at: int,
    pub expires_at: int,
}

impl DeepView for Session {
    type V = SessionState;

    open spec fn deep_view(&self) -> SessionState {
        SessionState {
            key: self.key@,
            user_id: self.user_id@,
            refresh_token: self.refresh_token@,
            revalidate_at: self.revalidate_at as int,
            expires_at: self.expires_at as int,
        }
    }
}

/// Where a session stands in its life.
#[derive(Debug, Clone, Copy, PartialEq, Eq, Structural)]
pub enum SessionStatus {
    /// The session has to be revalidated with its refresh token.
    MustRevalidate,
    /// The session is over.
    Expired,
    /// The session is good as it is.
    Active,
}

/// The status of a session at the time `now`: expired from `expires_at` on,
/// to be revalidated from `revalidate_at` on, and good before.
pub open spec fn status_at(revalidate_at: int, expires_at: int, now: int) -> SessionStatus {
    if expires_at <= now {
        SessionStatus::Expired
    } else if revalidate_at <= now {
        SessionStatus::MustRevalidate
    } else {
        SessionStatus::Active
    }
}

/// `std::time::SystemTime::now` measured from `std::time::UNIX_EPOCH` with
/// `duration_since`: the whole seconds by which the clock stands after the
/// epoch, or, as the error, before it. Nothing is claimed of the time that
/// comes back.
#[verifier::external_body]
fn clock() -> Result<u64, u64> {
    match std::time::SystemTime::now().duration_since(std::time::UNIX_EPOCH) {
        Ok(after) => Ok(after.as_secs()),
        Err(before) => Err(before.duration().as_secs()),
    }
}

/// The time in seconds since the Unix epoch that a reading of the clock
/// stands for: the seconds after the epoch, or the seconds before it as a
/// negative time, and the nearest time that fits where it does not fit.
pub open spec fn seconds_of(reading: Result<u64, u64>) -> int {
    match reading {
        Ok(after) => if after > i64::MAX {
            i64::MAX as int
        } else {
            after as int
        },
        Err(before) => if before > i64::MAX {
            i64::MIN as int
        } else {
            -(before as int)
        },
    }
}

/// The time in seconds since the Unix epoch that a reading of the clock
/// stands for.
pub fn seconds_since_epoch(reading: Result<u64, u64>) -> (seconds: i64)
    ensures
        seconds == seconds_of(reading),
{
    match reading {
        Ok(after) => if after > i64::MAX as u64 {
            i64::MAX
        } else {
            after as i64
        },
        Err(before) => if before > i64::MAX as u64 {
            i64::MIN
        } else {
            -(before as i64)
        },
    }
}

/// The time of the call in seconds since the Unix epoch, whatever that time
/// is.
pub fn unix_now() -> i64 {
    seconds_since_epoch(clock())
}

impl Session {
    /// The status of the session at the time `now`.
    pub fn status_at(&self, now: i64) -> (status: SessionStatus)
        ensures
            status == status_at(self.revalidate_at as int, self.expires_at as int, now as int),
    {
        if self.expires_at <= now {
            SessionStatus::Expired
        } else if self.revalidate_at <= now {
            SessionStatus::MustRevalidate
        } else {
            SessionStatus::Active
        }
    }

    /// The status of the session at the time of the call, whatever that time
    /// is.
    pub fn status(&self) -> (status: SessionStatus)
        ensures
            exists|now: int|
                status == #[trigger] status_at(
                    self.revalidate_at as int,
                    self.expires_at as int,
                    now,
                ),
    {
        let now = unix_now();
        let status = self.status_at(now);
        assert(status == status_at(
            self.revalidate_at as int,
            self.expires_at as int,
            now as int,
        ));
        status
    }

    /// A copy of the session.
    pub fn duplicate(&self) -> (copy: Session)
        ensures
            copy.deep_view() == self.deep_view(),
    {
        Session {
            key: self.key.clone(),
            user_id: self.user_id.clone(),
            refresh_token: self.refresh_token.clone(),
            revalidate_at: self.revalidate_at,
            expires_at: self.expires_at,
        }
    }
}

/// One revision of a recipe.
#[derive(Debug, Clone)]
pub struct RecipeRevision {
    pub revision: usize,
}

/// A validated recipe that is about to be created.
#[derive(Debug, Clone)]
pub struct CreatingRecipe {
    pub title: recipe::Title,
    pub image_id: Option<image::Id>,
    pub ingredients: Vec<recipe::IngredientBlock>,
    pub instructions: Vec<recipe::InstructionBlock>,
    pub notes: Option<recipe::Notes>,
    pub tag_ids: Vec<tag::Id>,
}

/// A validated recipe that is about to replace the one with hash
/// `previous_hash`.
#[derive(Debug, Clone)]
pub struct UpdatingRecipe {
    pub id: recipe::Id,
    pub previous_hash: String,
    pub title: recipe::Title,
    pub image_id: Option<image::Id>,
    pub ingredients: Vec<recipe::IngredientBlock>,
    pub instructions: Vec<recipe::InstructionBlock>,
    pub notes: Option<recipe::Notes>,
    pub tag_ids: Vec<tag::Id>,
}

/// A stored recipe, validated, with the hash of its stored bytes.
#[derive(Debug, Clone)]
pub struct Recipe {
    pub id: recipe::Id,
    pub hash: String,
    pub title: recipe::Title,
    pub image_id: Option<image::Id>,
    pub ingredients: Vec<recipe::IngredientBlock>,
    pub instructions: Vec<recipe::InstructionBlock>,
    pub notes: Option<recipe::Notes>,
    pub tags: Vec<tag::OnRecipe>,
}

/// A recipe as a listing shows it.
#[derive(Debug, Clone)]
pub struct ListedRecipe {
    pub id: recipe::Id,
    pub title: recipe::Title,
    pub image_id: Option<image::Id>,
}

/// A recipe as the search index takes it.
#[derive(Debug, Clone)]
pub struct DumpedIndexableRecipe {
    pub id: recipe::Id,
    pub title: recipe::Title,
    pub ingredients: Vec<recipe::IngredientBlock>,
    pub instructions: Vec<recipe::InstructionBlock>,
    pub notes: Option<recipe::Notes>,
    pub tag_ids: Vec<tag::Id>,
}

/// Why a value was rejected by a validated domain type.
#[derive(Debug)]
pub enum ValidationError {
    /// The value breaks a rule of the type; the message says which.
    Constraint(String),
    /// The value is not in the expected format; the message says why.
    Format(String),
}

impl ValidationError {
    /// The message of the error.
    pub fn to_string(&self) -> (message: String)
        ensures
            message@ == match *self {
                ValidationError::Constraint(text) => text@,
                ValidationError::Format(text) => text@,
            },
    {
        match self {
            ValidationError::Constraint(text) => text.clone(),
            ValidationError::Format(text) => text.clone(),
        }
    }
}

} // verus!
