//! Checking that tables which come from outside are consistent, before an
//! operation relies on it.

use vstd::prelude::*;
use vstd::string::*;
use vstd::utf8::encode_utf8;
use crate::sqlite::database::{
    distinct_recipes, recipe_wf, tags_wf, users_wf, Database, RecipeRow, TagState,
};
use crate::sqlite::recipe::has_duplicates;
use crate::text::{bytes_lt, is_bytes_lt, lemma_bytes_lt_transitive, same_text};

verus! {

/// Whether the revisions of a row have their shape: a first one without a
/// patch, and then only revisions with patches.
fn has_revision_shape(row: &RecipeRow) -> (shaped: bool)
    ensures
        shaped == ({
            let r = row.deep_view();
            &&& r.revisions.len() >= 1
            &&& r.revisions[0].patch is None
            &&& forall|k: int|
                1 <= k < r.revisions.len() ==> (#[trigger] r.revisions[k]).patch is Some
        }),
{
    let ghost r = row.deep_view();
    if row.revisions.len() == 0 {
        return false;
    }
    assert(r.revisions[0] == row.revisions[0].deep_view());
    if row.revisions[0].patch.is_some() {
        return false;
    }
    let mut k: usize = 1;
    while k < row.revisions.len()
        invariant
            1 <= k <= row.revisions.len(),
            r == row.deep_view(),
            forall|j: int| 1 <= j < k ==> (#[trigger] r.revisions[j]).patch is Some,
        decreases row.revisions.len() - k,
    {
        assert(r.revisions[k as int] == row.revisions[k as int].deep_view());
        if row.revisions[k].patch.is_none() {
            return false;
        }
        k += 1;
    }
    true
}

/// Whether a row of a recipe is consistent.
pub fn is_recipe_consistent(row: &RecipeRow) -> (consistent: bool)
    ensures
        consistent == recipe_wf(row.deep_view()),
{
    if !has_revision_shape(row) {
        return false;
    }
    !has_duplicates(&row.tag_ids)
}

/// Whether no two rows of recipes share an identifier and every row is
/// consistent.
fn are_recipes_consistent(db: &Database) -> (consistent: bool)
    ensures
        consistent == (distinct_recipes(db@.recipes) && forall|i: int|
            0 <= i < db@.recipes.len() ==> recipe_wf(#[trigger] db@.recipes[i])),
{
    let ghost recipes = db@.recipes;
    let mut i: usize = 0;
    while i < db.recipes.len()
        invariant
            i <= db.recipes.len(),
            recipes == db@.recipes,
            forall|a: int| 0 <= a < i ==> recipe_wf(#[trigger] recipes[a]),
            forall|a: int, b: int|
                0 <= a < i && 0 <= b < recipes.len() && a != b ==> (#[trigger] recipes[a]).id != (
                #[trigger] recipes[b]).id,
        decreases db.recipes.len() - i,
    {
        assert(recipes[i as int] == db.recipes[i as int].deep_view());
        if !is_recipe_consistent(&db.recipes[i]) {
            return false;
        }
        let mut j: usize = i + 1;
        while j < db.recipes.len()
            invariant
                i < j <= db.recipes.len(),
                recipes == db@.recipes,
                forall|b: int| i < b < j ==> recipes[i as int].id != (#[trigger] recipes[b]).id,
            decreases db.recipes.len() - j,
        {
            if same_text(db.recipes[i].id.as_str(), db.recipes[j].id.as_str()) {
                assert(recipes[i as int].id == recipes[j as int].id);
                return false;
            }
            j += 1;
        }
        i += 1;
    }
    true
}

/// Whether the tags are in the strict order of their names and no two share
/// an identifier.
fn are_tags_consistent(db: &Database) -> (consistent: bool)
    ensures
        consistent == tags_wf(db@.tags),
{
    let ghost tags = db@.tags;
    let mut i: usize = 0;
    while i < db.tags.len()
        invariant
            i <= db.tags.len(),
            tags == db@.tags,
            forall|a: int|
                0 <= a && a + 1 < i ==> bytes_lt(
                    encode_utf8((#[trigger] tags[a]).name),
                    encode_utf8(tags[a + 1].name),
                ),
            forall|a: int, b: int|
                0 <= a < i && 0 <= b < tags.len() && a != b ==> (#[trigger] tags[a]).id != (
                #[trigger] tags[b]).id,
        decreases db.tags.len() - i,
    {
        if i > 0 && !is_bytes_lt(
            db.tags[i - 1].name.as_str().as_bytes(),
            db.tags[i].name.as_str().as_bytes(),
        ) {
            assert(!bytes_lt(encode_utf8(tags[i - 1].name), encode_utf8(tags[i as int].name)));
            return false;
        }
        let mut j: usize = i + 1;
        while j < db.tags.len()
            invariant
                i < j <= db.tags.len(),
                tags == db@.tags,
                forall|b: int| i < b < j ==> tags[i as int].id != (#[trigger] tags[b]).id,
            decreases db.tags.len() - j,
        {
            if db.tags[i].id.value() == db.tags[j].id.value() {
                assert(tags[i as int].id == tags[j as int].id);
                return false;
            }
            j += 1;
        }
        i += 1;
    }
    proof {
        lemma_neighbours_in_order(tags);
    }
    true
}

/// Tags of which every one sorts before its neighbour are in order
/// throughout.
proof fn lemma_neighbours_in_order(tags: Seq<TagState>)
    requires
        forall|a: int|
            0 <= a && a + 1 < tags.len() ==> bytes_lt(
                encode_utf8((#[trigger] tags[a]).name),
                encode_utf8(tags[a + 1].name),
            ),
    ensures
        forall|i: int, j: int|
            0 <= i < j < tags.len() ==> bytes_lt(
                encode_utf8((#[trigger] tags[i]).name),
                encode_utf8((#[trigger] tags[j]).name),
            ),
{
    assert forall|i: int, j: int| 0 <= i < j < tags.len() implies bytes_lt(
        encode_utf8((#[trigger] tags[i]).name),
        encode_utf8((#[trigger] tags[j]).name),
    ) by {
        lemma_in_order(tags, i, j);
    }
}

/// In tags of which every one sorts before its neighbour, an earlier one
/// sorts before a later one.
proof fn lemma_in_order(tags: Seq<TagState>, i: int, j: int)
    requires
        forall|a: int|
            0 <= a && a + 1 < tags.len() ==> bytes_lt(
                encode_utf8((#[trigger] tags[a]).name),
                encode_utf8(tags[a + 1].name),
            ),
        0 <= i < j < tags.len(),
    ensures
        bytes_lt(encode_utf8(tags[i].name), encode_utf8(tags[j].name)),
    decreases j - i,
{
    assert(bytes_lt(encode_utf8(tags[j - 1].name), encode_utf8(tags[j].name)));
    if i < j - 1 {
        lemma_in_order(tags, i, j - 1);
        lemma_bytes_lt_transitive(
            encode_utf8(tags[i].name),
            encode_utf8(tags[j - 1].name),
            encode_utf8(tags[j].name),
        );
    }
}

/// Whether no image is recorded twice.
fn are_images_consistent(db: &Database) -> (consistent: bool)
    ensures
        consistent == db@.images.no_duplicates(),
{
    let ghost images = db@.images;
    let mut i: usize = 0;
    while i < db.images.len()
        invariant
            i <= db.images.len(),
            images == db@.images,
            forall|a: int, b: int|
                0 <= a < i && 0 <= b < images.len() && a != b ==> images[a] != images[b],
        decreases db.images.len() - i,
    {
        let mut j: usize = i + 1;
        while j < db.images.len()
            invariant
                i < j <= db.images.len(),
                images == db@.images,
                forall|b: int| i < b < j ==> images[i as int] != images[b],
            decreases db.images.len() - j,
        {
            if same_text(db.images[i].as_str(), db.images[j].as_str()) {
                assert(images[i as int] == images[j as int]);
                return false;
            }
            j += 1;
        }
        i += 1;
    }
    true
}

/// Whether no two users share an identifier or an external identity.
fn are_users_consistent(db: &Database) -> (consistent: bool)
    ensures
        consistent == users_wf(db@.users),
{
    let ghost users = db@.users;
    let mut i: usize = 0;
    while i < db.users.len()
        invariant
            i <= db.users.len(),
            users == db@.users,
            forall|a: int, b: int|
                0 <= a < i && 0 <= b < users.len() && a != b ==> (#[trigger] users[a]).id != (
                #[trigger] users[b]).id && users[a].oauth_id != users[b].oauth_id,
        decreases db.users.len() - i,
    {
        let mut j: usize = i + 1;
        while j < db.users.len()
            invariant
                i < j <= db.users.len(),
                users == db@.users,
                forall|b: int|
                    i < b < j ==> users[i as int].id != (#[trigger] users[b]).id
                        && users[i as int].oauth_id != users[b].oauth_id,
            decreases db.users.len() - j,
        {
            if same_text(db.users[i].id.as_str(), db.users[j].id.as_str()) || same_text(
                db.users[i].oauth_id.as_str(),
                db.users[j].oauth_id.as_str(),
            ) {
                assert(users[i as int].id == users[j as int].id || users[i as int].oauth_id
                    == users[j as int].oauth_id);
                return false;
            }
            j += 1;
        }
        i += 1;
    }
    true
}

/// Whether the tables are consistent. Tables that come from outside are
/// checked with this before an operation is run on them.
pub fn is_consistent(db: &Database) -> (consistent: bool)
    ensures
        consistent == db.wf(),
{
    are_recipes_consistent(db) && are_tags_consistent(db) && are_images_consistent(db)
        && are_users_consistent(db)
}

} // verus!
