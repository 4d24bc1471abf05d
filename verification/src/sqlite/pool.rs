//! The worker of the store: the table of users, the steps that bring a store
//! up to date, and the dispatch of a request to the operation that serves it.

use vstd::prelude::*;
use vstd::string::*;
use crate::datastore::{Error, Message, Reply};
use crate::domain::{RegisteringUser, User, UserState};
use crate::sqlite::database::{Database, DatabaseState};
use crate::sqlite::image::{image_found, image_outcome};
use crate::sqlite::recipe::{
    dump_outcome, dump_query, get_outcome, insert_outcome, list_outcome, list_query,
    revision_outcome, revisions_outcome, update_outcome,
};
use crate::sqlite::tag::{stats_outcome, tag_outcome, tags_outcome};
use crate::sqlite::{image, recipe, tag};
use crate::text::{copy_str, same_text};

verus! {

/// The sizes of the pages that a store hands out.
#[derive(Debug, Clone, Copy, PartialEq, Eq, Structural)]
pub struct DatastoreConfig {
    pub recipe_page_size: u64,
    pub recipe_dump_page_size: u64,
}

/// The handle on a store that has been brought up.
#[derive(Debug, Clone, Copy, PartialEq, Eq, Structural)]
pub struct DatastoreHandler {}

/// The number of workers of a store.
pub const WORKERS: usize = 5;

/// The number of steps that bring an empty store up to date.
pub const MIGRATIONS: usize = 8;

/// What is to be done with a store that has taken `user_version` steps.
#[derive(Debug, Clone, Copy, PartialEq, Eq, Structural)]
pub enum MigrationPlan {
    /// The steps from `from` up to but excluding `to` are to be taken, in
    /// order, and the store is then at `to`.
    Run { from: usize, to: usize },
    /// Nothing is to be done.
    UpToDate,
    /// The store has taken steps that this library does not know.
    Unknown { user_version: usize },
}

/// What is to be done with a store that has taken `user_version` steps of the
/// `desired_version` that there are: the steps that are missing are taken, and
/// a store that is ahead is refused.
pub fn plan_migration(user_version: usize, desired_version: usize) -> (plan: MigrationPlan)
    ensures
        plan == if user_version < desired_version {
            MigrationPlan::Run { from: user_version, to: desired_version }
        } else if user_version == desired_version {
            MigrationPlan::UpToDate
        } else {
            MigrationPlan::Unknown { user_version }
        },
{
    if user_version < desired_version {
        MigrationPlan::Run { from: user_version, to: desired_version }
    } else if user_version == desired_version {
        MigrationPlan::UpToDate
    } else {
        MigrationPlan::Unknown { user_version }
    }
}

/// The user with the given identifier stands at `i`.
pub open spec fn user_at(users: Seq<UserState>, id: Seq<char>, i: int) -> bool {
    0 <= i < users.len() && users[i].id == id
}

/// The user with the given external identity stands at `i`.
pub open spec fn identity_at(users: Seq<UserState>, oauth_id: Seq<char>, i: int) -> bool {
    0 <= i < users.len() && users[i].oauth_id == oauth_id
}

/// What asking for a user yields, given the tables.
pub open spec fn user_found(db: DatabaseState, id: Seq<char>, found: Result<User, Error>) -> bool {
    match found {
        Ok(user) => exists|i: int| #[trigger]
            user_at(db.users, id, i) && db.users[i] == user.deep_view(),
        Err(Error::NotFound) => forall|i: int| !user_at(db.users, id, i),
        Err(_) => false,
    }
}

/// A user by identifier. Fails with `NotFound` exactly if there is none.
pub fn get_user(db: &Database, id: &str) -> (found: Result<User, Error>)
    ensures
        user_found(db@, id@, found),
{
    let mut i: usize = 0;
    while i < db.users.len()
        invariant
            i <= db.users.len(),
            forall|j: int| 0 <= j < i ==> !user_at(db@.users, id@, j),
        decreases db.users.len() - i,
    {
        if same_text(db.users[i].id.as_str(), id) {
            assert(user_at(db@.users, id@, i as int));
            return Ok(db.users[i].duplicate());
        }
        i += 1;
    }
    Err(Error::NotFound)
}

/// What registering a user yields: the result `done` and the tables `after`,
/// given the tables `before`. A user whose external identity is known keeps
/// the identifier and takes the new name; a user whose identity is new is
/// stored under the identifier that was proposed, unless that is taken.
pub open spec fn upsert_outcome(
    before: DatabaseState,
    registering: UserState,
    done: Result<User, Error>,
    after: DatabaseState,
) -> bool {
    &&& after.recipes == before.recipes
    &&& after.tags == before.tags
    &&& after.images == before.images
    &&& if exists|i: int| identity_at(before.users, registering.oauth_id, i) {
        let i = choose|i: int| identity_at(before.users, registering.oauth_id, i);
        let renamed = UserState { name: registering.name, ..before.users[i] };
        done matches Ok(user) && user.deep_view() == renamed && after.users == before.users.update(
            i,
            renamed,
        )
    } else if exists|i: int| user_at(before.users, registering.id, i) {
        done matches Err(Error::Unknown(_)) && after.users == before.users
    } else {
        done matches Ok(user) && user.deep_view() == registering && after.users
            == before.users.push(registering)
    }
}

/// What a user on the way in would be stored as.
pub open spec fn registering_state(registering: RegisteringUser) -> UserState {
    UserState {
        id: registering.potential_id@,
        oauth_id: registering.oauth_id@,
        name: registering.name@,
    }
}

/// Registers a user by external identity and hands back the user as stored.
pub fn upsert_user_by_oauth_id(db: &mut Database, registering: &RegisteringUser) -> (done: Result<
    User,
    Error,
>)
    requires
        old(db).wf(),
    ensures
        final(db).wf(),
        upsert_outcome(old(db)@, registering_state(*registering), done, final(db)@),
{
    let ghost before = db@.users;
    let ghost state = registering_state(*registering);
    let mut i: usize = 0;
    while i < db.users.len()
        invariant
            i <= db.users.len(),
            *db == *old(db),
            db.wf(),
            before == db@.users,
            state == registering_state(*registering),
            forall|j: int| 0 <= j < i ==> !identity_at(before, registering.oauth_id@, j),
        decreases db.users.len() - i,
    {
        if same_text(db.users[i].oauth_id.as_str(), registering.oauth_id.as_str()) {
            let user = User {
                id: db.users[i].id.clone(),
                oauth_id: db.users[i].oauth_id.clone(),
                name: registering.name.clone(),
            };
            let stored = user.duplicate();
            proof {
                assert(identity_at(before, state.oauth_id, i as int));
                let chosen = choose|k: int| identity_at(before, state.oauth_id, k);
                assert(chosen == i);
            }
            db.users.push(stored);
            let _ = db.users.swap_remove(i);
            proof {
                let after = db@.users;
                assert(after =~= before.update(i as int, user.deep_view()));
                assert(db@.recipes =~= old(db)@.recipes);
                assert(db@.tags =~= old(db)@.tags);
                assert(db@.images =~= old(db)@.images);
                assert forall|a: int, b: int|
                    0 <= a < after.len() && 0 <= b < after.len() && a != b implies (
                #[trigger] after[a]).id != (#[trigger] after[b]).id && after[a].oauth_id
                    != after[b].oauth_id by {
                    assert(after[a].id == before[a].id && after[b].id == before[b].id);
                    assert(after[a].oauth_id == before[a].oauth_id);
                    assert(after[b].oauth_id == before[b].oauth_id);
                }
            }
            return Ok(user);
        }
        i += 1;
    }
    let mut k: usize = 0;
    while k < db.users.len()
        invariant
            k <= db.users.len(),
            *db == *old(db),
            db.wf(),
            before == db@.users,
            state == registering_state(*registering),
            forall|j: int| !identity_at(before, registering.oauth_id@, j),
            forall|j: int| 0 <= j < k ==> !user_at(before, registering.potential_id@, j),
        decreases db.users.len() - k,
    {
        if same_text(db.users[k].id.as_str(), registering.potential_id.as_str()) {
            assert(user_at(before, state.id, k as int));
            return Err(Error::Unknown(copy_str("the identifier of the user is taken")));
        }
        k += 1;
    }
    let user = User {
        id: registering.potential_id.clone(),
        oauth_id: registering.oauth_id.clone(),
        name: registering.name.clone(),
    };
    db.users.push(user.duplicate());
    proof {
        let after = db@.users;
        assert(after =~= before.push(state));
        assert(db@.recipes =~= old(db)@.recipes);
        assert(db@.tags =~= old(db)@.tags);
        assert(db@.images =~= old(db)@.images);
        assert forall|a: int, b: int|
            0 <= a < after.len() && 0 <= b < after.len() && a != b implies (#[trigger] after[a]).id
            != (#[trigger] after[b]).id && after[a].oauth_id != after[b].oauth_id by {
            if a == before.len() {
                assert(!user_at(before, state.id, b) && !identity_at(before, state.oauth_id, b));
            } else if b == before.len() {
                assert(!user_at(before, state.id, a) && !identity_at(before, state.oauth_id, a));
            }
        }
    }
    Ok(user)
}

/// The reply answers the request: it is of the kind that the request asks
/// for and is what the operation of the request yields on the tables
/// `before`, which it leaves as `after`.
pub open spec fn answers(
    before: DatabaseState,
    config: DatastoreConfig,
    message: Message,
    reply: Reply,
    after: DatabaseState,
) -> bool {
    match message {
        Message::Health => reply matches Reply::Health(Ok(())) && after == before,
        Message::GetUser { id } => reply matches Reply::User(found) && user_found(
            before,
            id@,
            found,
        ) && after == before,
        Message::UpsertUserByOauthId { user } => reply matches Reply::User(done)
            && upsert_outcome(before, registering_state(user), done, after),
        Message::GetRecipe { id } => reply matches Reply::Recipe(found) && get_outcome(
            before,
            id@,
            found,
        ) && after == before,
        Message::ListRecipes { filter, cursor } => reply matches Reply::Recipes(listed)
            && list_outcome(
            before,
            list_query(filter, cursor),
            config.recipe_page_size as nat,
            listed,
        ) && after == before,
        Message::CreateRecipe { id, user_id, recipe } => reply matches Reply::Done(done)
            && insert_outcome(before, id@, user_id@, recipe.deep_view(), done, after),
        Message::UpdateRecipe { id, user_id, recipe, current_hash } => reply matches Reply::Done(
            done,
        ) && update_outcome(before, id@, user_id@, recipe.deep_view(), current_hash@, done, after),
        Message::GetRevisions { recipe_id } => reply matches Reply::Revisions(found)
            && revisions_outcome(before, recipe_id@, found) && after == before,
        Message::GetRevision { recipe_id, revision } => reply matches Reply::Recipe(found)
            && revision_outcome(before, recipe_id@, revision as nat, found) && after == before,
        Message::DumpRecipesForIndex { cursor } => reply matches Reply::Dump(dumped)
            && dump_outcome(
            before,
            dump_query(cursor),
            config.recipe_dump_page_size as nat,
            dumped,
        ) && after == before,
        Message::GetTags => reply matches Reply::Tags(found) && tags_outcome(before, found)
            && after == before,
        Message::GetTagsWithStats => reply matches Reply::TagsWithStats(found) && stats_outcome(
            before,
            found,
        ) && after == before,
        Message::CreateTag { user_id, name } => reply matches Reply::Tag(done) && tag_outcome(
            before,
            user_id@,
            name@,
            done,
            after,
        ),
        Message::CreateImage { id } => reply matches Reply::Done(done) && image_outcome(
            before,
            id@,
            done,
            after,
        ),
        Message::GetImage { id } => reply matches Reply::Done(found) && image_found(
            before,
            id@,
            found,
        ) && after == before,
    }
}

/// Serves one request on the tables of a worker: the request goes to the
/// operation that it names, and what that operation yields is the reply.
pub fn handle(db: &mut Database, config: &DatastoreConfig, message: Message) -> (reply: Reply)
    requires
        old(db).wf(),
    ensures
        final(db).wf(),
        answers(old(db)@, *config, message, reply, final(db)@),
{
    match message {
        Message::Health => Reply::Health(Ok(())),
        Message::GetUser { id } => Reply::User(get_user(db, id.as_str())),
        Message::UpsertUserByOauthId { user } => Reply::User(upsert_user_by_oauth_id(db, &user)),
        Message::GetRecipe { id } => Reply::Recipe(recipe::get(db, id.as_str())),
        Message::ListRecipes { filter, cursor } => Reply::Recipes(
            recipe::list_recipes(db, config.recipe_page_size, &filter, cursor),
        ),
        Message::CreateRecipe { id, user_id, recipe } => Reply::Done(
            recipe::insert(db, id.as_str(), user_id.as_str(), recipe),
        ),
        Message::UpdateRecipe { id, user_id, recipe, current_hash } => Reply::Done(
            recipe::update(db, id.as_str(), user_id.as_str(), recipe, current_hash.as_str()),
        ),
        Message::GetRevisions { recipe_id } => Reply::Revisions(
            recipe::get_revisions(db, recipe_id.as_str()),
        ),
        Message::GetRevision { recipe_id, revision } => Reply::Recipe(
            recipe::get_revision(db, recipe_id.as_str(), revision),
        ),
        Message::DumpRecipesForIndex { cursor } => Reply::Dump(
            recipe::dump_recipes_for_index(db, config.recipe_dump_page_size, cursor),
        ),
        Message::GetTags => Reply::Tags(tag::get_all(db)),
        Message::GetTagsWithStats => Reply::TagsWithStats(tag::get_all_with_stats(db)),
        Message::CreateTag { user_id, name } => Reply::Tag(
            tag::insert(db, user_id.as_str(), name.as_str()),
        ),
        Message::CreateImage { id } => Reply::Done(image::insert(db, id.as_str())),
        Message::GetImage { id } => Reply::Done(image::get_image(db, id.as_str())),
    }
}

} // verus!
