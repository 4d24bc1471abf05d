//! The table of tags, kept in the order of the names.

use vstd::prelude::*;
use vstd::string::*;
use vstd::utf8::encode_utf8;
use crate::datastore::Error;
use crate::domain::id::Id;
use crate::domain::tag::{Name, Tag, WithStats};
use crate::sqlite::database::{Database, DatabaseState, RecipeState, TagRow, TagState};
use crate::sqlite::recipe::{get_tags_for_recipe, names_id, tags_on, tags_rejection};
use crate::text::{
    bytes_lt, copy_str, is_bytes_lt, lemma_bytes_lt_total, lemma_bytes_lt_transitive,
    lemma_utf8_injective, same_text,
};

verus! {

/// The identifiers of the tags of the table, in its order.
pub open spec fn ids_of(tags: Seq<TagState>) -> Seq<u128> {
    Seq::new(tags.len(), |i: int| tags[i].id)
}

/// What asking for all tags yields, given the tables.
pub open spec fn tags_outcome(db: DatabaseState, found: Result<Vec<Tag>, Error>) -> bool {
    match found {
        Ok(tags) => tags_rejection(db.tags, ids_of(db.tags)) is None && tags.deep_view()
            == tags_on(db.tags, ids_of(db.tags)),
        Err(Error::Unknown(message)) => tags_rejection(db.tags, ids_of(db.tags)) == Some(
            message@,
        ),
        Err(_) => false,
    }
}

/// All tags in the order of their names, with their names trimmed. Fails
/// with `Unknown` exactly if a stored name is blank.
pub fn get_all(db: &Database) -> (found: Result<Vec<Tag>, Error>)
    ensures
        tags_outcome(db@, found),
{
    let mut ids: Vec<Id> = Vec::new();
    let mut i: usize = 0;
    while i < db.tags.len()
        invariant
            i <= db.tags.len(),
            ids.len() == i,
            forall|j: int| 0 <= j < i ==> (#[trigger] ids[j])@ == db@.tags[j].id,
        decreases db.tags.len() - i,
    {
        ids.push(db.tags[i].id);
        i += 1;
    }
    assert(ids.deep_view() =~= ids_of(db@.tags));
    let carried = match get_tags_for_recipe(db, &ids) {
        Ok(carried) => carried,
        Err(error) => {
            return Err(error);
        },
    };
    let ghost texts = carried.deep_view();
    let mut tags: Vec<Tag> = Vec::new();
    let mut k: usize = 0;
    while k < carried.len()
        invariant
            k <= carried.len(),
            texts == carried.deep_view(),
            tags.len() == k,
            forall|j: int| 0 <= j < k ==> (#[trigger] tags[j]).deep_view() == texts[j],
        decreases carried.len() - k,
    {
        tags.push(Tag { id: carried[k].id, name: Name::renamed(&carried[k].name) });
        k += 1;
    }
    assert(tags.deep_view() =~= texts);
    Ok(tags)
}

/// Where a tag with the given name goes in the table: behind every tag whose
/// name sorts before it.
pub open spec fn is_place(tags: Seq<TagState>, name: Seq<char>, at: int) -> bool {
    &&& 0 <= at <= tags.len()
    &&& forall|i: int|
        0 <= i < at ==> bytes_lt(encode_utf8((#[trigger] tags[i]).name), encode_utf8(name))
    &&& forall|i: int|
        at <= i < tags.len() ==> bytes_lt(encode_utf8(name), encode_utf8((#[trigger] tags[i]).name))
}

/// The name or the identifier is taken.
pub open spec fn tag_taken(tags: Seq<TagState>, id: u128, name: Seq<char>) -> bool {
    exists|i: int| 0 <= i < tags.len() && ((#[trigger] tags[i]).id == id || tags[i].name == name)
}

/// Creates a tag under the given identifier. Fails with `Unknown` exactly if
/// the name or the identifier is taken; the table is then as it was. Else the
/// tag goes to its place in the order of names.
pub fn insert_with_id(db: &mut Database, id: Id, user_id: &str, name: &str) -> (done: Result<
    Id,
    Error,
>)
    requires
        old(db).wf(),
    ensures
        final(db).wf(),
        final(db)@.recipes == old(db)@.recipes,
        final(db)@.images == old(db)@.images,
        final(db)@.users == old(db)@.users,
        match done {
            Ok(created) => created == id && !tag_taken(old(db)@.tags, id@, name@) && exists|
                at: int,
            |
                #[trigger] is_place(old(db)@.tags, name@, at) && final(db)@.tags == old(
                    db,
                )@.tags.insert(at, TagState { id: id@, name: name@, created_by: user_id@ }),
            Err(Error::Unknown(_)) => tag_taken(old(db)@.tags, id@, name@) && final(db)@.tags
                == old(db)@.tags,
            Err(_) => false,
        },
{
    let ghost before = db@.tags;
    let mut j: usize = 0;
    while j < db.tags.len()
        invariant
            j <= db.tags.len(),
            before == db@.tags,
            *db == *old(db),
            db.wf(),
            forall|i: int| 0 <= i < j ==> (#[trigger] before[i]).id != id@ && before[i].name != name@,
        decreases db.tags.len() - j,
    {
        if db.tags[j].id.value() == id.value() || same_text(db.tags[j].name.as_str(), name) {
            assert(before[j as int].id == id@ || before[j as int].name == name@);
            return Err(Error::Unknown(copy_str("the tag exists already")));
        }
        j += 1;
    }
    let mut at: usize = 0;
    while at < db.tags.len() && is_bytes_lt(db.tags[at].name.as_str().as_bytes(), name.as_bytes())
        invariant
            at <= db.tags.len(),
            before == db@.tags,
            *db == *old(db),
            db.wf(),
            forall|i: int|
                0 <= i < at ==> bytes_lt(encode_utf8((#[trigger] before[i]).name), encode_utf8(name@)),
        decreases db.tags.len() - at,
    {
        at += 1;
    }
    proof {
        assert forall|i: int| at <= i < before.len() implies bytes_lt(
            encode_utf8(name@),
            encode_utf8((#[trigger] before[i]).name),
        ) by {
            let first = encode_utf8(before[at as int].name);
            lemma_bytes_lt_total(first, encode_utf8(name@));
            if first == encode_utf8(name@) {
                lemma_utf8_injective(before[at as int].name, name@);
            }
            if i > at {
                lemma_bytes_lt_transitive(encode_utf8(name@), first, encode_utf8(before[i].name));
            }
        }
        assert(is_place(before, name@, at as int));
    }
    let row = TagRow { id, name: copy_str(name), created_by_user_id: copy_str(user_id) };
    let ghost state = TagState { id: id@, name: name@, created_by: user_id@ };
    db.tags.insert(at, row);
    proof {
        let after = db@.tags;
        assert(after =~= before.insert(at as int, state));
        assert(db@.recipes =~= old(db)@.recipes);
        assert(db@.images =~= old(db)@.images);
        assert(db@.users =~= old(db)@.users);
        assert forall|a: int, b: int| 0 <= a < b < after.len() implies bytes_lt(
            encode_utf8((#[trigger] after[a]).name),
            encode_utf8((#[trigger] after[b]).name),
        ) by {
            let a0 = if a < at { a } else { a - 1 };
            let b0 = if b < at { b } else { b - 1 };
            if a != at && b != at {
                assert(after[a] == before[a0] && after[b] == before[b0]);
            } else if a == at {
                assert(after[b] == before[b0]);
            } else {
                assert(after[a] == before[a0]);
            }
        }
        assert forall|a: int, b: int|
            0 <= a < after.len() && 0 <= b < after.len() && a != b implies (#[trigger] after[a]).id
            != (#[trigger] after[b]).id by {
            let a0 = if a < at { a } else { a - 1 };
            let b0 = if b < at { b } else { b - 1 };
            if a != at && b != at {
                assert(after[a] == before[a0] && after[b] == before[b0]);
            } else if a == at {
                assert(after[b] == before[b0]);
            } else {
                assert(after[a] == before[a0]);
            }
        }
    }
    Ok(id)
}

/// What creating a tag under a fresh identifier yields: the result `done` and
/// the tables `after`, given the tables `before`.
pub open spec fn tag_outcome(
    before: DatabaseState,
    user: Seq<char>,
    name: Seq<char>,
    done: Result<Id, Error>,
    after: DatabaseState,
) -> bool {
    &&& after.recipes == before.recipes
    &&& after.images == before.images
    &&& after.users == before.users
    &&& match done {
        Ok(id) => !tag_taken(before.tags, id@, name) && exists|at: int|
            #[trigger] is_place(before.tags, name, at) && after.tags == before.tags.insert(
                at,
                TagState { id: id@, name, created_by: user },
            ),
        Err(Error::Unknown(_)) => after.tags == before.tags,
        Err(_) => false,
    }
}

/// Creates a tag under a fresh identifier. Fails with `Unknown` if the name is
/// taken, or the fresh identifier is; the table is then as it was.
pub fn insert(db: &mut Database, user_id: &str, name: &str) -> (done: Result<Id, Error>)
    requires
        old(db).wf(),
    ensures
        final(db).wf(),
        tag_outcome(old(db)@, user_id@, name@, done, final(db)@),
{
    insert_with_id(db, Id::new(), user_id, name)
}

/// The number of recipes that carry the tag.
pub open spec fn carriers(recipes: Seq<RecipeState>, tag: u128) -> nat
    decreases recipes.len(),
{
    if recipes.len() == 0 {
        0
    } else {
        carriers(recipes.drop_last(), tag) + if recipes.last().tag_ids.contains(tag) {
            1nat
        } else {
            0nat
        }
    }
}

/// The number of recipes that carry the tag.
pub fn count_carriers(db: &Database, tag: &Id) -> (count: u64)
    ensures
        count == carriers(db@.recipes, tag@),
{
    let ghost recipes = db@.recipes;
    let mut count: u64 = 0;
    let mut i: usize = 0;
    assert(recipes.take(0) =~= Seq::empty());
    while i < db.recipes.len()
        invariant
            i <= db.recipes.len(),
            recipes == db@.recipes,
            count <= i,
            count == carriers(recipes.take(i as int), tag@),
        decreases db.recipes.len() - i,
    {
        assert(recipes.take(i + 1).drop_last() =~= recipes.take(i as int));
        assert(recipes.take(i + 1).last() == db.recipes[i as int].deep_view());
        if names_id(&db.recipes[i].tag_ids, tag) {
            count += 1;
        }
        i += 1;
    }
    assert(recipes.take(i as int) =~= recipes);
    count
}

/// What asking for all tags with their numbers of recipes yields, given the
/// tables.
pub open spec fn stats_outcome(db: DatabaseState, found: Result<Vec<WithStats>, Error>) -> bool {
    match found {
        Ok(stats) => {
            let tags = tags_on(db.tags, ids_of(db.tags));
            &&& tags_rejection(db.tags, ids_of(db.tags)) is None
            &&& stats.len() == tags.len()
            &&& forall|i: int|
                0 <= i < stats.len() ==> (#[trigger] stats[i]).id@ == tags[i].id && stats[i].name@
                    == tags[i].name && stats[i].recipe_count == carriers(db.recipes, tags[i].id)
        },
        Err(Error::Unknown(message)) => tags_rejection(db.tags, ids_of(db.tags)) == Some(
            message@,
        ),
        Err(_) => false,
    }
}

/// All tags in the order of their names, each with the number of recipes that
/// carry it. Fails with `Unknown` exactly if a stored name is blank.
pub fn get_all_with_stats(db: &Database) -> (found: Result<Vec<WithStats>, Error>)
    ensures
        stats_outcome(db@, found),
{
    let tags = match get_all(db) {
        Ok(tags) => tags,
        Err(error) => {
            return Err(error);
        },
    };
    let ghost texts = tags.deep_view();
    let mut stats: Vec<WithStats> = Vec::new();
    let mut i: usize = 0;
    while i < tags.len()
        invariant
            i <= tags.len(),
            texts == tags.deep_view(),
            stats.len() == i,
            forall|j: int|
                0 <= j < i ==> (#[trigger] stats[j]).id@ == texts[j].id && stats[j].name@
                    == texts[j].name && stats[j].recipe_count == carriers(db@.recipes, texts[j].id),
        decreases tags.len() - i,
    {
        assert(texts[i as int] == tags[i as int].deep_view());
        stats.push(
            WithStats {
                id: tags[i].id,
                name: Name::renamed(&tags[i].name),
                recipe_count: count_carriers(db, &tags[i].id),
            },
        );
        i += 1;
    }
    Ok(stats)
}

} // verus!
