//! The operations on recipes: creating, reading, updating under optimistic
//! concurrency, reconstructing revisions, and listing by pages.

use vstd::prelude::*;
use vstd::string::*;
use crate::datastore::envelope::{
    decode, document, document_fits, encode, lemma_parse_document, parse_document,
};
use crate::datastore::{
    DocumentText, Error, HashedRecipeDocument, RecipeDocument, VersionedRecipeDocument,
};
use crate::datastore::envelope::value_of;
use crate::datastore::{
    document_rejection, is_valid_document, lemma_valid_document, notes_text, trimmed_notes,
};
use crate::domain::id::{id_rejection, ulid_value, Id};
use crate::domain::recipe::{is_blank, trimmed_blocks};
use crate::domain::tag::{Name, OnRecipe, TagText};
use crate::domain::id::ulid_text;
use crate::domain::page::cursor;
use crate::domain::recipe::{is_required_text, lemma_required_text_is_trimmed, Title};
use crate::domain::{filter, page, DumpedIndexableRecipe, ListedRecipe, Recipe, RecipeRevision};
use crate::sqlite::listing::{
    is_page, key_of, name_bytes, positions, select_page, Position, Query, SortKey,
};
use vstd::utf8::encode_utf8;
use crate::sqlite::database::TagState;
use crate::sqlite::database::{
    database_wf, distinct_recipes, has_recipe, has_tag, has_user, recipe_at, recipe_of, recipe_wf,
    references_hold, revision_bytes, revision_document, Database, DatabaseState, RecipeRow,
    RecipeState, RevisionRow, RevisionState,
};
use crate::sqlite::image::holds_image;
use crate::sqlite::delta::{
    bidiff_patch, bidiff_simple_diff, bipatch_apply, patched, sha256_digest,
    sha256_hex, zstd_compress, zstd_compressed, zstd_decode,
};
use crate::text::{copy_str, same_text, trimmed};

verus! {

/// The row of a recipe that has just been created from the document `d`.
pub open spec fn created(id: Seq<char>, user: Seq<char>, d: DocumentText) -> RecipeState {
    RecipeState {
        id,
        title: d.title,
        image_id: d.image_id,
        document: document(d),
        revisions: seq![RevisionState { patch: None, created_by: user }],
        tag_ids: d.tag_ids,
    }
}

/// The row of the recipe `r` once the document `d` has replaced its latest
/// document, with `patch` leading back from the new to the old.
pub open spec fn updated(r: RecipeState, user: Seq<char>, d: DocumentText, patch: Seq<u8>)
    -> RecipeState {
    RecipeState {
        id: r.id,
        title: d.title,
        image_id: d.image_id,
        document: document(d),
        revisions: r.revisions.push(RevisionState { patch: Some(patch), created_by: user }),
        tag_ids: d.tag_ids,
    }
}

/// The tables with one more recipe.
pub open spec fn with_recipe(db: DatabaseState, r: RecipeState) -> DatabaseState {
    DatabaseState { recipes: db.recipes.push(r), ..db }
}

/// The tables with the recipe at `i` replaced.
pub open spec fn with_recipe_at(db: DatabaseState, i: int, r: RecipeState) -> DatabaseState {
    DatabaseState { recipes: db.recipes.update(i, r), ..db }
}

/// A document can be stored as a recipe: it fits the stored format and names
/// no tag twice.
pub open spec fn storable(d: DocumentText) -> bool {
    document_fits(d) && d.tag_ids.no_duplicates()
}

/// A freshly created row is consistent and holds its document as revision 0.
pub proof fn lemma_created_wf(id: Seq<char>, user: Seq<char>, d: DocumentText)
    requires
        storable(d),
    ensures
        recipe_wf(created(id, user, d)),
        revision_document(created(id, user, d), 0) == Some(d),
{
    lemma_parse_document(d);
    let r = created(id, user, d);
    assert(revision_bytes(r, 0) == Some(r.document));
}

/// An update leaves every earlier revision as it was.
pub proof fn lemma_updated_keeps(
    r: RecipeState,
    user: Seq<char>,
    d: DocumentText,
    patch: Seq<u8>,
    k: int,
)
    requires
        r.revisions.len() >= 1,
        patched(patch, document(d)) == Some(r.document),
        0 <= k < r.revisions.len(),
    ensures
        revision_bytes(updated(r, user, d, patch), k) == revision_bytes(r, k),
    decreases r.revisions.len() - k,
{
    let u = updated(r, user, d, patch);
    let last = r.revisions.len() - 1;
    assert(revision_bytes(u, last + 1) == Some(u.document));
    if k == last {
        assert(u.revisions[last + 1].patch == Some(patch));
    } else {
        lemma_updated_keeps(r, user, d, patch, k + 1);
        assert(u.revisions[k + 1] == r.revisions[k + 1]);
    }
}

/// An updated row is consistent, holds the new document as its last revision
/// and every earlier revision as before.
pub proof fn lemma_updated_wf(r: RecipeState, user: Seq<char>, d: DocumentText, patch: Seq<u8>)
    requires
        recipe_wf(r),
        storable(d),
        patched(patch, document(d)) == Some(r.document),
    ensures
        recipe_wf(updated(r, user, d, patch)),
        revision_document(updated(r, user, d, patch), r.revisions.len() as int) == Some(d),
        forall|k: int|
            0 <= k < r.revisions.len() ==> #[trigger] revision_bytes(
                updated(r, user, d, patch),
                k,
            ) == revision_bytes(r, k),
{
    lemma_parse_document(d);
    let u = updated(r, user, d, patch);
    assert forall|k: int| 0 <= k < r.revisions.len() implies #[trigger] revision_bytes(u, k)
        == revision_bytes(r, k) by {
        lemma_updated_keeps(r, user, d, patch, k);
    }
    assert(revision_bytes(u, r.revisions.len() as int) == Some(u.document));
    assert forall|k: int| 1 <= k < u.revisions.len() implies (#[trigger] u.revisions[k]).patch
        is Some by {
        if k < r.revisions.len() {
            assert(u.revisions[k] == r.revisions[k]);
        }
    }
    assert(u.revisions[0] == r.revisions[0]);
}

/// Among recipes with distinct identifiers, the recipe with an identifier is
/// the one found at any position that holds it.
pub proof fn lemma_recipe_of(recipes: Seq<RecipeState>, id: Seq<char>, i: int)
    requires
        distinct_recipes(recipes),
        recipe_at(recipes, id, i),
    ensures
        has_recipe(recipes, id),
        recipe_of(recipes, id) == recipes[i],
{
    let j = choose|j: int| recipe_at(recipes, id, j);
    assert(i == j);
}

/// The position of the recipe with the given identifier.
pub fn find_recipe(db: &Database, id: &str) -> (found: Option<usize>)
    ensures
        match found {
            Some(i) => recipe_at(db@.recipes, id@, i as int),
            None => !has_recipe(db@.recipes, id@),
        },
{
    let mut i: usize = 0;
    while i < db.recipes.len()
        invariant
            i <= db.recipes.len(),
            forall|j: int| 0 <= j < i ==> !recipe_at(db@.recipes, id@, j),
        decreases db.recipes.len() - i,
    {
        if same_text(db.recipes[i].id.as_str(), id) {
            return Some(i);
        }
        i += 1;
    }
    None
}

/// Whether an identifier occurs twice.
pub fn has_duplicates(ids: &Vec<Id>) -> (twice: bool)
    ensures
        twice == !ids.deep_view().no_duplicates(),
{
    let ghost values = ids.deep_view();
    let mut i: usize = 0;
    while i < ids.len()
        invariant
            i <= ids.len(),
            values == ids.deep_view(),
            forall|a: int, b: int| 0 <= a < i && 0 <= b < ids.len() && a != b ==> values[a] != values[b],
        decreases ids.len() - i,
    {
        let mut j: usize = i + 1;
        while j < ids.len()
            invariant
                i < j <= ids.len(),
                values == ids.deep_view(),
                forall|b: int| i < b < j ==> values[i as int] != values[b],
            decreases ids.len() - j,
        {
            if ids[i].value() == ids[j].value() {
                assert(values[i as int] == values[j as int]);
                return true;
            }
            j += 1;
        }
        i += 1;
    }
    false
}

/// A copy of a sequence of identifiers.
pub fn copy_ids(ids: &Vec<Id>) -> (copy: Vec<Id>)
    ensures
        copy.deep_view() == ids.deep_view(),
{
    let mut copy: Vec<Id> = Vec::new();
    let mut i: usize = 0;
    while i < ids.len()
        invariant
            i <= ids.len(),
            copy.len() == i,
            forall|j: int| 0 <= j < i ==> (#[trigger] copy[j])@ == ids[j]@,
        decreases ids.len() - i,
    {
        copy.push(ids[i]);
        i += 1;
    }
    assert(copy.deep_view() =~= ids.deep_view());
    copy
}

/// What creating a recipe yields: the result `done` and the tables `after`,
/// given the tables `before`.
pub open spec fn insert_outcome(
    before: DatabaseState,
    id: Seq<char>,
    user: Seq<char>,
    d: DocumentText,
    done: Result<(), Error>,
    after: DatabaseState,
) -> bool {
    match done {
        Ok(()) => !has_recipe(before.recipes, id) && storable(d) && references_hold(
            before,
            user,
            d,
        ) && after == with_recipe(before, created(id, user, d)),
        Err(Error::Conflict) => has_recipe(before.recipes, id) && after == before,
        Err(Error::Unknown(_)) => !has_recipe(before.recipes, id) && (!references_hold(
            before,
            user,
            d,
        ) || !d.tag_ids.no_duplicates()) && after == before,
        Err(_) => false,
    }
}

/// Whether what a recipe refers to is there.
pub fn references_exist(db: &Database, user_id: &str, recipe: &RecipeDocument) -> (there: bool)
    ensures
        there == references_hold(db@, user_id@, recipe.deep_view()),
{
    let ghost d = recipe.deep_view();
    let mut u: usize = 0;
    let mut known = false;
    while u < db.users.len() && !known
        invariant
            u <= db.users.len(),
            known ==> has_user(db@.users, user_id@),
            !known ==> forall|j: int| 0 <= j < u ==> (#[trigger] db@.users[j]).id != user_id@,
        decreases db.users.len() - u,
    {
        if same_text(db.users[u].id.as_str(), user_id) {
            assert(db@.users[u as int].id == user_id@);
            known = true;
        }
        u += 1;
    }
    if !known {
        return false;
    }
    match &recipe.image_id {
        Some(image) => {
            if !holds_image(db, image.to_string().as_str()) {
                return false;
            }
        },
        None => {},
    }
    let mut k: usize = 0;
    while k < recipe.tag_ids.len()
        invariant
            k <= recipe.tag_ids.len(),
            d == recipe.deep_view(),
            forall|j: int| 0 <= j < k ==> has_tag(db@.tags, #[trigger] d.tag_ids[j]),
        decreases recipe.tag_ids.len() - k,
    {
        let mut t: usize = 0;
        let mut found = false;
        while t < db.tags.len() && !found
            invariant
                t <= db.tags.len(),
                k < recipe.tag_ids.len(),
                d == recipe.deep_view(),
                found ==> has_tag(db@.tags, d.tag_ids[k as int]),
                !found ==> forall|j: int|
                    0 <= j < t ==> (#[trigger] db@.tags[j]).id != d.tag_ids[k as int],
            decreases db.tags.len() - t,
        {
            if db.tags[t].id.value() == recipe.tag_ids[k].value() {
                assert(db@.tags[t as int].id == d.tag_ids[k as int]);
                found = true;
            }
            t += 1;
        }
        if !found {
            assert(!has_tag(db@.tags, d.tag_ids[k as int]));
            return false;
        }
        k += 1;
    }
    true
}

/// Creates a recipe with its first revision. Fails with `Conflict` exactly if
/// the identifier is taken, and with `Unknown` exactly if it is free but the
/// user, the image or a tag of the document does not exist or the document
/// names a tag twice; the store is then as it was.
pub fn insert(db: &mut Database, id: &str, user_id: &str, recipe: RecipeDocument) -> (done: Result<
    (),
    Error,
>)
    requires
        old(db).wf(),
    ensures
        final(db).wf(),
        insert_outcome(old(db)@, id@, user_id@, recipe.deep_view(), done, final(db)@),
{
    let ghost d = recipe.deep_view();
    let versioned = VersionedRecipeDocument::from(recipe);
    let serialized_document = encode(&versioned);
    let recipe = RecipeDocument::from(versioned);
    if find_recipe(db, id).is_some() {
        return Err(Error::Conflict);
    }
    if !references_exist(db, user_id, &recipe) {
        return Err(Error::Unknown(copy_str("a recipe refers to what does not exist")));
    }
    if has_duplicates(&recipe.tag_ids) {
        return Err(Error::Unknown(copy_str("a recipe cannot carry a tag twice")));
    }
    let mut revisions: Vec<RevisionRow> = Vec::new();
    revisions.push(RevisionRow { patch: None, created_by_user_id: copy_str(user_id) });
    let row = RecipeRow {
        id: copy_str(id),
        title: recipe.title,
        image_id: recipe.image_id,
        document: serialized_document,
        revisions,
        tag_ids: recipe.tag_ids,
    };
    proof {
        lemma_created_wf(id@, user_id@, d);
        assert(row.deep_view().revisions =~= created(id@, user_id@, d).revisions);
        assert(row.deep_view() == created(id@, user_id@, d));
    }
    db.recipes.push(row);
    proof {
        let before = old(db)@.recipes;
        let after = db@.recipes;
        assert(after =~= before.push(created(id@, user_id@, d)));
        assert forall|i: int, j: int|
            0 <= i < after.len() && 0 <= j < after.len() && i != j implies (#[trigger] after[i]).id
            != (#[trigger] after[j]).id by {
            if i == before.len() {
                assert(!recipe_at(before, id@, j));
            } else if j == before.len() {
                assert(!recipe_at(before, id@, i));
            }
        }
    }
    Ok(())
}

/// The tags of the table that `ids` names, in the order of the table, with
/// their names trimmed.
pub open spec fn tags_on(tags: Seq<TagState>, ids: Seq<u128>) -> Seq<TagText>
    decreases tags.len(),
{
    if tags.len() == 0 {
        Seq::empty()
    } else {
        let before = tags_on(tags.drop_last(), ids);
        if ids.contains(tags.last().id) {
            before.push(TagText { id: tags.last().id, name: trimmed(tags.last().name) })
        } else {
            before
        }
    }
}

/// The tag at `i` is named by `ids` and has a blank name, and no tag before
/// it is so.
pub open spec fn is_first_blank_tag(tags: Seq<TagState>, ids: Seq<u128>, i: int) -> bool {
    &&& 0 <= i < tags.len()
    &&& ids.contains(tags[i].id)
    &&& is_blank(tags[i].name)
    &&& forall|j: int| 0 <= j < i && ids.contains((#[trigger] tags[j]).id) ==> !is_blank(tags[j].name)
}

/// The message that rejects the tags that `ids` names: that of the first of
/// them whose name is blank; `None` if none is.
pub open spec fn tags_rejection(tags: Seq<TagState>, ids: Seq<u128>) -> Option<Seq<char>> {
    if exists|i: int| is_first_blank_tag(tags, ids, i) {
        Some(Name::rejection(tags[choose|i: int| is_first_blank_tag(tags, ids, i)].name))
    } else {
        None
    }
}

/// Whether `ids` names `id`.
pub fn names_id(ids: &Vec<Id>, id: &Id) -> (named: bool)
    ensures
        named == ids.deep_view().contains(id@),
{
    let mut i: usize = 0;
    while i < ids.len()
        invariant
            i <= ids.len(),
            forall|j: int| 0 <= j < i ==> ids.deep_view()[j] != id@,
        decreases ids.len() - i,
    {
        if ids[i].value() == id.value() {
            assert(ids.deep_view()[i as int] == id@);
            return true;
        }
        i += 1;
    }
    false
}

/// The tags that a recipe carries, by name. A tag that the table does not
/// hold is left out; a tag whose stored name is blank is an error.
pub fn get_tags_for_recipe(db: &Database, tag_ids: &Vec<Id>) -> (found: Result<
    Vec<OnRecipe>,
    Error,
>)
    ensures
        match found {
            Ok(tags) => tags_rejection(db@.tags, tag_ids.deep_view()) is None && tags.deep_view()
                == tags_on(db@.tags, tag_ids.deep_view()),
            Err(Error::Unknown(message)) => tags_rejection(db@.tags, tag_ids.deep_view()) == Some(
                message@,
            ),
            Err(_) => false,
        },
{
    let ghost table = db@.tags;
    let ghost ids = tag_ids.deep_view();
    let mut tags: Vec<OnRecipe> = Vec::new();
    let mut i: usize = 0;
    assert(table.take(0) =~= Seq::empty());
    while i < db.tags.len()
        invariant
            i <= db.tags.len(),
            table == db@.tags,
            ids == tag_ids.deep_view(),
            tags.deep_view() == tags_on(table.take(i as int), ids),
            forall|j: int|
                0 <= j < i && ids.contains((#[trigger] table[j]).id) ==> !is_blank(table[j].name),
        decreases db.tags.len() - i,
    {
        let ghost before = tags.deep_view();
        assert(table.take(i + 1).drop_last() =~= table.take(i as int));
        assert(table.take(i + 1).last() == table[i as int]);
        if names_id(tag_ids, &db.tags[i].id) {
            match Name::try_from(db.tags[i].name.clone()) {
                Ok(name) => {
                    tags.push(OnRecipe { id: db.tags[i].id, name });
                    assert(tags.deep_view() =~= before.push(
                        TagText { id: table[i as int].id, name: trimmed(table[i as int].name) },
                    ));
                },
                Err(error) => {
                    proof {
                        assert(is_first_blank_tag(table, ids, i as int));
                        let first = choose|k: int| is_first_blank_tag(table, ids, k);
                        assert(first == i);
                    }
                    return Err(Error::Unknown(error.to_string()));
                },
            }
        }
        i += 1;
    }
    assert(table.take(i as int) =~= table);
    Ok(tags)
}

/// The message that keeps a stored document from being shown as a recipe:
/// the identifier is no ULID, or the document is not valid, or a tag that it
/// carries has a blank name; `None` if it can be shown.
pub open spec fn recipe_rejection(db: DatabaseState, id: Seq<char>, d: DocumentText) -> Option<
    Seq<char>,
> {
    if ulid_value(id) is None {
        Some(id_rejection(id))
    } else if document_rejection(d) is Some {
        document_rejection(d)
    } else {
        tags_rejection(db.tags, d.tag_ids)
    }
}

/// `recipe` shows the document `d`, stored as `bytes` under `id`: the texts
/// are those of the document, trimmed, the hash is that of the bytes, and the
/// tags are those that the document names, by name.
pub open spec fn shows(
    recipe: Recipe,
    db: DatabaseState,
    id: Seq<char>,
    bytes: Seq<u8>,
    d: DocumentText,
) -> bool {
    &&& ulid_value(id) == Some(recipe.id@)
    &&& recipe.hash@ == sha256_hex(bytes)
    &&& recipe.hash@.len() == 64
    &&& recipe.title@ == trimmed(d.title)
    &&& value_of(recipe.image_id) == d.image_id
    &&& recipe.ingredients.deep_view() == trimmed_blocks(d.ingredients)
    &&& recipe.instructions.deep_view() == trimmed_blocks(d.instructions)
    &&& notes_text(recipe.notes) == trimmed_notes(d.notes)
    &&& recipe.tags.deep_view() == tags_on(db.tags, d.tag_ids)
}

/// Shows stored bytes that hold `document` as a recipe.
pub fn present(db: &Database, id: &str, serialized_document: &Vec<u8>, document: RecipeDocument)
    -> (shown: Result<Recipe, Error>)
    ensures
        match shown {
            Ok(recipe) => recipe_rejection(db@, id@, document.deep_view()) is None && shows(
                recipe,
                db@,
                id@,
                serialized_document@,
                document.deep_view(),
            ),
            Err(Error::Unknown(message)) => recipe_rejection(db@, id@, document.deep_view())
                == Some(message@),
            Err(_) => false,
        },
{
    let hash = sha256_digest(serialized_document.as_slice());
    let recipe_id = match Id::try_from(id) {
        Ok(recipe_id) => recipe_id,
        Err(error) => {
            return Err(Error::Unknown(error.to_string()));
        },
    };
    let image_id = document.image_id;
    let tag_ids = copy_ids(&document.tag_ids);
    let valid = match RecipeDocument::to_dumped_indexable_recipe(recipe_id, document) {
        Ok(valid) => valid,
        Err(error) => {
            return Err(Error::Unknown(error.to_string()));
        },
    };
    let tags = match get_tags_for_recipe(db, &tag_ids) {
        Ok(tags) => tags,
        Err(error) => {
            return Err(error);
        },
    };
    Ok(
        Recipe {
            id: valid.id,
            hash,
            title: valid.title,
            image_id,
            ingredients: valid.ingredients,
            instructions: valid.instructions,
            notes: valid.notes,
            tags,
        },
    )
}

/// The latest document of a recipe with the hash of its stored bytes. Fails
/// with `NotFound` exactly if there is no such recipe, and with
/// `Serialization` exactly if there is one and its stored bytes hold no
/// document.
pub fn get_document(db: &Database, id: &str) -> (found: Result<HashedRecipeDocument, Error>)
    requires
        db.wf(),
    ensures
        match found {
            Ok(hashed) => has_recipe(db@.recipes, id@) && parse_document(
                recipe_of(db@.recipes, id@).document,
            ) == Some(hashed.document.deep_view()) && hashed.hash@ == sha256_hex(
                recipe_of(db@.recipes, id@).document,
            ) && hashed.hash@.len() == 64,
            Err(Error::NotFound) => !has_recipe(db@.recipes, id@),
            Err(Error::Serialization) => has_recipe(db@.recipes, id@) && parse_document(
                recipe_of(db@.recipes, id@).document,
            ) is None,
            Err(_) => false,
        },
{
    let i = match find_recipe(db, id) {
        Some(i) => i,
        None => {
            return Err(Error::NotFound);
        },
    };
    proof {
        lemma_recipe_of(db@.recipes, id@, i as int);
        assert(recipe_wf(db@.recipes[i as int]));
    }
    let serialized_document = &db.recipes[i].document;
    match decode(serialized_document.as_slice()) {
        Some(versioned) => {
            let document = RecipeDocument::from(versioned);
            let hash = sha256_digest(serialized_document.as_slice());
            Ok(HashedRecipeDocument { document, hash })
        },
        None => Err(Error::Serialization),
    }
}

/// What reading a recipe yields, given the tables.
pub open spec fn get_outcome(db: DatabaseState, id: Seq<char>, found: Result<Recipe, Error>) -> bool {
    match found {
        Ok(recipe) => {
            let r = recipe_of(db.recipes, id);
            &&& has_recipe(db.recipes, id)
            &&& parse_document(r.document) is Some
            &&& recipe_rejection(db, id, parse_document(r.document)->0) is None
            &&& shows(recipe, db, id, r.document, parse_document(r.document)->0)
        },
        Err(Error::NotFound) => !has_recipe(db.recipes, id),
        Err(Error::Serialization) => has_recipe(db.recipes, id) && parse_document(
            recipe_of(db.recipes, id).document,
        ) is None,
        Err(Error::Unknown(message)) => {
            let r = recipe_of(db.recipes, id);
            &&& has_recipe(db.recipes, id)
            &&& parse_document(r.document) is Some
            &&& recipe_rejection(db, id, parse_document(r.document)->0) == Some(message@)
        },
        Err(_) => false,
    }
}

/// A recipe as it is now. Fails with `NotFound` exactly if there is no such
/// recipe, with `Serialization` exactly if there is one and its stored bytes
/// hold no document, and with `Unknown` exactly if they hold one that cannot
/// be shown.
pub fn get(db: &Database, id: &str) -> (found: Result<Recipe, Error>)
    requires
        db.wf(),
    ensures
        get_outcome(db@, id@, found),
{
    let i = match find_recipe(db, id) {
        Some(i) => i,
        None => {
            return Err(Error::NotFound);
        },
    };
    proof {
        lemma_recipe_of(db@.recipes, id@, i as int);
        assert(recipe_wf(db@.recipes[i as int]));
    }
    let serialized_document = &db.recipes[i].document;
    match decode(serialized_document.as_slice()) {
        Some(versioned) => present(db, id, serialized_document, RecipeDocument::from(versioned)),
        None => Err(Error::Serialization),
    }
}

/// The position of the recipe with the given identifier.
pub open spec fn recipe_index(recipes: Seq<RecipeState>, id: Seq<char>) -> int {
    choose|i: int| recipe_at(recipes, id, i)
}

/// Undoes a compressed patch: the bytes that it makes of `current`. Fails
/// exactly if the patch is not a compressed patch that fits `current`.
pub fn apply_patch(current: &[u8], compressed_patch: &[u8]) -> (applied: Result<Vec<u8>, Error>)
    ensures
        match applied {
            Ok(bytes) => patched(compressed_patch@, current@) == Some(bytes@),
            Err(Error::Unknown(_)) => patched(compressed_patch@, current@) is None,
            Err(_) => false,
        },
{
    let patch = match zstd_decode(compressed_patch) {
        Some(patch) => patch,
        None => {
            return Err(Error::Unknown(copy_str("a stored patch is not a compressed frame")));
        },
    };
    match bipatch_apply(patch.as_slice(), current) {
        Some(bytes) => Ok(bytes),
        None => Err(Error::Unknown(copy_str("a stored patch does not apply"))),
    }
}

/// The number of partitions that the suffix sort of a delta works on.
pub const SORT_PARTITIONS: usize = 2;

/// The compression level of stored patches; zero stands for the default.
pub const COMPRESSION_LEVEL: i32 = 0;

/// The compressed patch that is computed to turn `old` into `new`, before it
/// is tried: a text that is empty, or too long for the suffix sort, is not
/// compared, and there is no patch if the delta or its compression fails.
pub open spec fn untried_patch(old: Seq<u8>, new: Seq<u8>) -> Option<Seq<u8>> {
    if old.len() == 0 || old.len() >= 0x7fff_fffe {
        None
    } else {
        match bidiff_patch(old, new, SORT_PARTITIONS as int) {
            Some(patch) => zstd_compressed(patch, COMPRESSION_LEVEL as int),
            None => None,
        }
    }
}

/// The compressed patch that turns `old` into `new`: the one that is
/// computed, if it does turn the one into the other.
pub open spec fn delta(old: Seq<u8>, new: Seq<u8>) -> Option<Seq<u8>> {
    match untried_patch(old, new) {
        Some(patch) => if patched(patch, old) == Some(new) {
            Some(patch)
        } else {
            None
        },
        None => None,
    }
}

/// A compressed patch that has not been tried yet. A text that is empty, or
/// too long for the suffix sort, is not compared: it is refused before
/// anything is computed. For every other text the patch is what the delta
/// and the compression make of the two texts, and there is none if either of
/// them fails.
fn untried_diff(old: &[u8], new: &[u8]) -> (patch: Result<Vec<u8>, Error>)
    ensures
        match patch {
            Ok(bytes) => untried_patch(old@, new@) == Some(bytes@),
            Err(error) => error is Unknown && untried_patch(old@, new@) is None,
        },
{
    if old.len() == 0 || old.len() >= 0x7fff_fffe {
        return Err(Error::Unknown(copy_str("a document of this size cannot be compared")));
    }
    let patch = match bidiff_simple_diff(old, new, SORT_PARTITIONS) {
        Some(patch) => patch,
        None => {
            return Err(Error::Unknown(copy_str("the delta could not be written")));
        },
    };
    match zstd_compress(patch.as_slice(), COMPRESSION_LEVEL) {
        Some(compressed) => Ok(compressed),
        None => Err(Error::Unknown(copy_str("the delta could not be compressed"))),
    }
}

/// A compressed patch that turns `old` into `new`. The patch is tried before
/// it is handed out: what comes back does turn the one into the other. Fails
/// exactly if no patch is computed, or the patch that is computed does not
/// turn the one into the other.
pub fn diff(old: &[u8], new: &[u8]) -> (patch: Result<Vec<u8>, Error>)
    ensures
        match patch {
            Ok(bytes) => delta(old@, new@) == Some(bytes@),
            Err(error) => error is Unknown && delta(old@, new@) is None,
        },
{
    let patch = match untried_diff(old, new) {
        Ok(patch) => patch,
        Err(error) => {
            return Err(error);
        },
    };
    if leads_back(patch.as_slice(), old, new) {
        Ok(patch)
    } else {
        Err(Error::Unknown(copy_str("the delta does not lead to the document")))
    }
}

/// Whether two byte sequences are the same.
pub fn same_bytes(a: &[u8], b: &[u8]) -> (same: bool)
    ensures
        same == (a@ == b@),
{
    if a.len() != b.len() {
        return false;
    }
    let mut i: usize = 0;
    while i < a.len()
        invariant
            i <= a.len(),
            a.len() == b.len(),
            forall|j: int| 0 <= j < i ==> a@[j] == b@[j],
        decreases a.len() - i,
    {
        if a[i] != b[i] {
            return false;
        }
        i += 1;
    }
    assert(a@ =~= b@);
    true
}

/// Whether `patch` leads from `new` back to `old`.
pub fn leads_back(patch: &[u8], new: &[u8], old: &[u8]) -> (valid: bool)
    ensures
        valid == (patched(patch@, new@) == Some(old@)),
{
    match apply_patch(new, patch) {
        Ok(bytes) => same_bytes(bytes.as_slice(), old),
        Err(_) => false,
    }
}

/// An update of the recipe `id` to the document `d` by the user `user`, who
/// presents `hash`, with `patch` as the way back, is accepted: the recipe
/// exists, the hash is that of its stored bytes, what the document refers to
/// exists, it names no tag twice, and the patch leads from the new bytes back
/// to the stored ones.
pub open spec fn update_accepted(
    db: DatabaseState,
    id: Seq<char>,
    user: Seq<char>,
    d: DocumentText,
    hash: Seq<char>,
    patch: Option<Seq<u8>>,
) -> bool {
    &&& has_recipe(db.recipes, id)
    &&& sha256_hex(recipe_of(db.recipes, id).document) == hash
    &&& references_hold(db, user, d)
    &&& d.tag_ids.no_duplicates()
    &&& patch matches Some(p) && patched(p, document(d)) == Some(recipe_of(db.recipes, id).document)
}

/// The tables after an accepted update.
pub open spec fn after_update(
    db: DatabaseState,
    id: Seq<char>,
    user: Seq<char>,
    d: DocumentText,
    patch: Seq<u8>,
) -> DatabaseState {
    with_recipe_at(
        db,
        recipe_index(db.recipes, id),
        updated(recipe_of(db.recipes, id), user, d, patch),
    )
}

/// What an update yields when `patch` is the way back that was computed: the
/// result `done` and the tables `after`, given the tables `before`.
pub open spec fn commit_outcome(
    before: DatabaseState,
    id: Seq<char>,
    user: Seq<char>,
    d: DocumentText,
    hash: Seq<char>,
    patch: Option<Seq<u8>>,
    done: Result<(), Error>,
    after: DatabaseState,
) -> bool {
    &&& done is Ok <==> update_accepted(before, id, user, d, hash, patch)
    &&& match done {
        Ok(()) => after == after_update(before, id, user, d, patch->0),
        Err(Error::NotFound) => !has_recipe(before.recipes, id) && after == before,
        Err(Error::Conflict) => has_recipe(before.recipes, id) && sha256_hex(
            recipe_of(before.recipes, id).document,
        ) != hash && after == before,
        Err(Error::Unknown(_)) => has_recipe(before.recipes, id) && sha256_hex(
            recipe_of(before.recipes, id).document,
        ) == hash && after == before,
        Err(_) => false,
    }
}

/// Replaces the latest document of a recipe, given the compressed patch that
/// was computed for the way back. Fails with `NotFound` if there is no such
/// recipe, with `Conflict` if the hash presented is not that of the stored
/// document, and with `Unknown` if what the document refers to does not
/// exist, the document names a tag twice, or the patch is missing or does not
/// lead from the new bytes back to the stored ones. The store changes only
/// on success: the new document replaces the old one and one revision is
/// added.
pub fn commit_update(
    db: &mut Database,
    id: &str,
    user_id: &str,
    recipe: RecipeDocument,
    current_hash: &str,
    patch: Option<Vec<u8>>,
) -> (done: Result<(), Error>)
    requires
        old(db).wf(),
    ensures
        final(db).wf(),
        commit_outcome(
            old(db)@,
            id@,
            user_id@,
            recipe.deep_view(),
            current_hash@,
            bytes_of(patch),
            done,
            final(db)@,
        ),
{
    let i = match find_recipe(db, id) {
        Some(i) => i,
        None => {
            return Err(Error::NotFound);
        },
    };
    proof {
        lemma_recipe_of(db@.recipes, id@, i as int);
        assert(recipe_wf(db@.recipes[i as int]));
    }
    let hash = sha256_digest(db.recipes[i].document.as_slice());
    if !same_text(hash.as_str(), current_hash) {
        return Err(Error::Conflict);
    }
    let versioned = VersionedRecipeDocument::from(recipe);
    let new_serialized_document = encode(&versioned);
    let recipe = RecipeDocument::from(versioned);
    let patch = match patch {
        Some(patch) => patch,
        None => {
            return Err(Error::Unknown(copy_str("no patch leads back to the stored document")));
        },
    };
    if !leads_back(
        patch.as_slice(),
        new_serialized_document.as_slice(),
        db.recipes[i].document.as_slice(),
    ) {
        return Err(Error::Unknown(copy_str("the patch does not lead back to the stored document")));
    }
    if !references_exist(db, user_id, &recipe) {
        return Err(Error::Unknown(copy_str("a recipe refers to what does not exist")));
    }
    if has_duplicates(&recipe.tag_ids) {
        return Err(Error::Unknown(copy_str("a recipe cannot carry a tag twice")));
    }
    revise(db, i, user_id, recipe, new_serialized_document, patch);
    Ok(())
}

/// Puts the row `after` in the place of the row at `i`, which has the same
/// identifier.
fn replace_row(db: &mut Database, i: usize, row: RecipeRow)
    requires
        old(db).wf(),
        i < old(db).recipes.len(),
        recipe_wf(row.deep_view()),
        row.deep_view().id == old(db)@.recipes[i as int].id,
    ensures
        final(db).wf(),
        final(db)@ == with_recipe_at(old(db)@, i as int, row.deep_view()),
{
    let ghost after = row.deep_view();
    let ghost olds = db@.recipes;
    db.recipes.push(row);
    let _ = db.recipes.swap_remove(i);
    proof {
        let news = db@.recipes;
        assert(news =~= olds.update(i as int, after));
        assert(db@.tags =~= old(db)@.tags);
        assert(db@.images =~= old(db)@.images);
        assert(db@.users =~= old(db)@.users);
        assert(distinct_recipes(news)) by {
            assert forall|a: int, b: int|
                0 <= a < news.len() && 0 <= b < news.len() && a != b implies (
            #[trigger] news[a]).id != (#[trigger] news[b]).id by {
                assert(news[a].id == olds[a].id && news[b].id == olds[b].id);
            }
        }
        assert forall|k: int| 0 <= k < news.len() implies recipe_wf(#[trigger] news[k]) by {
            if k != i {
                assert(news[k] == olds[k]);
            }
        }
    }
}

/// A copy of the revisions of a recipe.
fn copy_revisions(revisions: &Vec<RevisionRow>) -> (copy: Vec<RevisionRow>)
    ensures
        copy.deep_view() == revisions.deep_view(),
{
    let mut copy: Vec<RevisionRow> = Vec::new();
    let mut i: usize = 0;
    while i < revisions.len()
        invariant
            i <= revisions.len(),
            copy.len() == i,
            forall|j: int| 0 <= j < i ==> (#[trigger] copy[j]).deep_view() == revisions[j].deep_view(),
        decreases revisions.len() - i,
    {
        let patch = match &revisions[i].patch {
            Some(patch) => Some(patch.clone()),
            None => None,
        };
        copy.push(RevisionRow { patch, created_by_user_id: revisions[i].created_by_user_id.clone() });
        i += 1;
    }
    assert(copy.deep_view() =~= revisions.deep_view());
    copy
}

/// Replaces the latest document of the recipe at `i` and adds the revision
/// that leads back from it.
fn revise(
    db: &mut Database,
    i: usize,
    user_id: &str,
    recipe: RecipeDocument,
    serialized_document: Vec<u8>,
    patch: Vec<u8>,
)
    requires
        old(db).wf(),
        i < old(db).recipes.len(),
        storable(recipe.deep_view()),
        serialized_document@ == document(recipe.deep_view()),
        patched(patch@, serialized_document@) == Some(old(db)@.recipes[i as int].document),
    ensures
        final(db).wf(),
        final(db)@ == with_recipe_at(
            old(db)@,
            i as int,
            updated(old(db)@.recipes[i as int], user_id@, recipe.deep_view(), patch@),
        ),
{
    let ghost before = db@.recipes[i as int];
    let ghost after = updated(before, user_id@, recipe.deep_view(), patch@);
    let mut revisions = copy_revisions(&db.recipes[i].revisions);
    revisions.push(RevisionRow { patch: Some(patch), created_by_user_id: copy_str(user_id) });
    let row = RecipeRow {
        id: db.recipes[i].id.clone(),
        title: recipe.title,
        image_id: recipe.image_id,
        document: serialized_document,
        revisions,
        tag_ids: recipe.tag_ids,
    };
    proof {
        assert(recipe_wf(before));
        lemma_updated_wf(before, user_id@, recipe.deep_view(), patch@);
        assert(row.deep_view().revisions =~= after.revisions);
        assert(row.deep_view() == after);
    }
    replace_row(db, i, row);
}

/// The bytes of an optional vector.
pub open spec fn bytes_of(bytes: Option<Vec<u8>>) -> Option<Seq<u8>> {
    match bytes {
        Some(bytes) => Some(bytes@),
        None => None,
    }
}

/// What an update yields: the result `done` and the tables `after`, given the
/// tables `before`. It is what committing the update yields with the patch
/// that is computed to lead from the new bytes back to the stored ones.
pub open spec fn update_outcome(
    before: DatabaseState,
    id: Seq<char>,
    user: Seq<char>,
    d: DocumentText,
    hash: Seq<char>,
    done: Result<(), Error>,
    after: DatabaseState,
) -> bool {
    commit_outcome(
        before,
        id,
        user,
        d,
        hash,
        delta(document(d), recipe_of(before.recipes, id).document),
        done,
        after,
    )
}

/// Replaces the latest document of a recipe if the caller presents the hash
/// of the stored document. Fails with `NotFound` exactly if there is no such
/// recipe and with `Conflict` exactly if there is one and the hash is not that
/// of its stored bytes. With the right hash the update succeeds exactly if
/// what the document refers to exists, it names no tag twice, and a patch is
/// computed that leads from the new bytes back to the stored ones; else it
/// fails with `Unknown`. The store changes only on success: the new document
/// replaces the old one, and one revision is added, with that patch.
pub fn update(db: &mut Database, id: &str, user_id: &str, recipe: RecipeDocument, current_hash: &str)
    -> (done: Result<(), Error>)
    requires
        old(db).wf(),
    ensures
        final(db).wf(),
        update_outcome(
            old(db)@,
            id@,
            user_id@,
            recipe.deep_view(),
            current_hash@,
            done,
            final(db)@,
        ),
{
    let i = match find_recipe(db, id) {
        Some(i) => i,
        None => {
            return Err(Error::NotFound);
        },
    };
    proof {
        lemma_recipe_of(db@.recipes, id@, i as int);
        assert(recipe_wf(db@.recipes[i as int]));
    }
    // the stored document must be the one that the caller has read
    let hash = sha256_digest(db.recipes[i].document.as_slice());
    if !same_text(hash.as_str(), current_hash) {
        return Err(Error::Conflict);
    }
    if !references_exist(db, user_id, &recipe) {
        return Err(Error::Unknown(copy_str("a recipe refers to what does not exist")));
    }
    if has_duplicates(&recipe.tag_ids) {
        return Err(Error::Unknown(copy_str("a recipe cannot carry a tag twice")));
    }
    let ghost d = recipe.deep_view();
    let versioned = VersionedRecipeDocument::from(recipe);
    let new_serialized_document = encode(&versioned);
    let recipe = RecipeDocument::from(versioned);
    // the patch leads from the new document back to the stored one
    let patch = match diff(
        new_serialized_document.as_slice(),
        db.recipes[i].document.as_slice(),
    ) {
        Ok(patch) => patch,
        Err(error) => {
            return Err(error);
        },
    };
    let ghost way_back = patch@;
    revise(db, i, user_id, recipe, new_serialized_document, patch);
    proof {
        assert(recipe_index(old(db)@.recipes, id@) == i);
        assert(update_accepted(old(db)@, id@, user_id@, d, current_hash@, Some(way_back)));
        assert(db@ == after_update(old(db)@, id@, user_id@, d, way_back));
    }
    Ok(())
}

/// What asking for the revisions of a recipe yields, given the tables.
pub open spec fn revisions_outcome(
    db: DatabaseState,
    id: Seq<char>,
    found: Result<Vec<RecipeRevision>, Error>,
) -> bool {
    match found {
        Ok(revisions) => {
            let count = if has_recipe(db.recipes, id) {
                recipe_of(db.recipes, id).revisions.len()
            } else {
                0
            };
            &&& revisions.len() == count
            &&& forall|j: int|
                0 <= j < count ==> (#[trigger] revisions[j]).revision == count - 1 - j
        },
        Err(_) => false,
    }
}

/// The revisions of a recipe, latest first; none if there is no such recipe.
pub fn get_revisions(db: &Database, recipe_id: &str) -> (found: Result<Vec<RecipeRevision>, Error>)
    requires
        db.wf(),
    ensures
        revisions_outcome(db@, recipe_id@, found),
{
    let i = match find_recipe(db, recipe_id) {
        Some(i) => i,
        None => {
            return Ok(Vec::new());
        },
    };
    proof {
        lemma_recipe_of(db@.recipes, recipe_id@, i as int);
    }
    let count = db.recipes[i].revisions.len();
    let mut revisions: Vec<RecipeRevision> = Vec::new();
    let mut j: usize = 0;
    while j < count
        invariant
            j <= count,
            revisions.len() == j,
            forall|k: int| 0 <= k < j ==> (#[trigger] revisions[k]).revision == count - 1 - k,
        decreases count - j,
    {
        revisions.push(RecipeRevision { revision: count - 1 - j });
        j += 1;
    }
    Ok(revisions)
}

/// A revision that cannot be reconstructed keeps every revision before it
/// from being reconstructed.
pub proof fn lemma_broken_history(r: RecipeState, k: int, earlier: int)
    requires
        0 <= earlier <= k < r.revisions.len(),
        revision_bytes(r, k) is None,
    ensures
        revision_bytes(r, earlier) is None,
    decreases k - earlier,
{
    if earlier < k {
        lemma_broken_history(r, k, earlier + 1);
    }
}

/// The stored bytes of a recipe as they were at a revision, reconstructed from
/// the latest bytes by undoing the patches of the later revisions, latest
/// first. Fails with `Unknown` exactly if one of those patches does not apply.
pub fn revision_bytes_at(db: &Database, i: usize, revision: usize) -> (bytes: Result<
    Vec<u8>,
    Error,
>)
    requires
        db.wf(),
        i < db.recipes.len(),
        revision < db.recipes[i as int].revisions.len(),
    ensures
        match bytes {
            Ok(stored) => revision_bytes(db@.recipes[i as int], revision as int) == Some(stored@),
            Err(error) => error is Unknown && revision_bytes(
                db@.recipes[i as int],
                revision as int,
            ) is None,
        },
{
    let ghost r = db@.recipes[i as int];
    let row = &db.recipes[i];
    assert(recipe_wf(r));
    let mut bytes: Vec<u8> = vstd::slice::slice_to_vec(row.document.as_slice());
    let mut j: usize = row.revisions.len() - 1;
    while j > revision
        invariant
            revision <= j < row.revisions.len(),
            i < db.recipes.len(),
            r == db@.recipes[i as int],
            r == row.deep_view(),
            recipe_wf(r),
            revision_bytes(r, j as int) == Some(bytes@),
        decreases j,
    {
        assert(r.revisions[j as int].patch is Some);
        assert(r.revisions[j as int] == row.revisions[j as int].deep_view());
        let earlier = match &row.revisions[j].patch {
            Some(patch) => apply_patch(bytes.as_slice(), patch.as_slice()),
            None => Err(Error::Unknown(copy_str("a revision lacks its patch"))),
        };
        match earlier {
            Ok(earlier) => {
                bytes = earlier;
            },
            Err(error) => {
                proof {
                    assert(revision_bytes(r, j - 1) is None);
                    lemma_broken_history(r, j - 1, revision as int);
                }
                return Err(error);
            },
        }
        j -= 1;
    }
    Ok(bytes)
}

/// What reading a revision of a recipe yields, given the tables.
pub open spec fn revision_outcome(
    db: DatabaseState,
    id: Seq<char>,
    revision: nat,
    found: Result<Recipe, Error>,
) -> bool {
    let r = recipe_of(db.recipes, id);
    let stored = revision_bytes(r, revision as int);
    let held = revision_document(r, revision as int);
    if !has_recipe(db.recipes, id) || revision >= r.revisions.len() {
        found matches Err(Error::NotFound)
    } else if stored is None {
        found matches Err(Error::Unknown(_))
    } else if held is None {
        found matches Err(Error::Serialization)
    } else {
        match found {
            Ok(recipe) => recipe_rejection(db, id, held->0) is None && shows(
                recipe,
                db,
                id,
                stored->0,
                held->0,
            ),
            Err(Error::Unknown(message)) => recipe_rejection(db, id, held->0) == Some(message@),
            Err(_) => false,
        }
    }
}

/// A recipe as it was at a revision. Fails with `NotFound` exactly if there
/// is no such recipe or no such revision of it, with `Unknown` if the revision
/// cannot be reconstructed because a patch does not apply, with
/// `Serialization` if what is reconstructed holds no document, and with
/// `Unknown` if the document of the revision cannot be shown. The other
/// revisions and the other recipes are not concerned.
pub fn get_revision(db: &Database, recipe_id: &str, revision: usize) -> (found: Result<
    Recipe,
    Error,
>)
    requires
        db.wf(),
    ensures
        revision_outcome(db@, recipe_id@, revision as nat, found),
{
    let i = match find_recipe(db, recipe_id) {
        Some(i) => i,
        None => {
            return Err(Error::NotFound);
        },
    };
    proof {
        lemma_recipe_of(db@.recipes, recipe_id@, i as int);
        assert(recipe_wf(db@.recipes[i as int]));
    }
    // the requested revision must exist
    if revision >= db.recipes[i].revisions.len() {
        return Err(Error::NotFound);
    }
    let serialized_document = match revision_bytes_at(db, i, revision) {
        Ok(bytes) => bytes,
        Err(error) => {
            return Err(error);
        },
    };
    match decode(serialized_document.as_slice()) {
        Some(versioned) => present(
            db,
            recipe_id,
            &serialized_document,
            RecipeDocument::from(versioned),
        ),
        None => Err(Error::Serialization),
    }
}

/// What a listing of recipes asks of the rows.
pub open spec fn list_query(filter: filter::Recipe, cursor: Option<cursor::Recipe>) -> Query {
    Query {
        by_title: true,
        name: name_bytes(filter.name),
        tag_ids: filter.tag_ids.deep_view(),
        after: match cursor {
            Some(cursor) => Some(
                SortKey { title: encode_utf8(cursor.name@), id: encode_utf8(cursor.id@) },
            ),
            None => None,
        },
    }
}

/// The message that keeps a row from being listed: its identifier is no ULID
/// or its title is blank; `None` if it can be listed.
pub open spec fn row_rejection(r: RecipeState) -> Option<Seq<char>> {
    if ulid_value(r.id) is None {
        Some(id_rejection(r.id))
    } else if is_blank(r.title) {
        Some(Title::rejection(r.title))
    } else {
        None
    }
}

/// `item` lists the row `r`.
pub open spec fn lists(item: ListedRecipe, r: RecipeState) -> bool {
    &&& ulid_value(r.id) == Some(item.id@)
    &&& item.title@ == trimmed(r.title)
    &&& value_of(item.image_id) == r.image_id
}

/// The row at `selected[i]` is rejected and no selected row before it is.
pub open spec fn is_first_unlisted<R>(
    recipes: Seq<RecipeState>,
    selected: Seq<int>,
    reject: spec_fn(RecipeState) -> Option<R>,
    i: int,
) -> bool {
    &&& 0 <= i < selected.len()
    &&& reject(recipes[selected[i]]) is Some
    &&& forall|j: int| 0 <= j < i ==> reject(recipes[#[trigger] selected[j]]) is None
}

/// What rejects a page: what rejects the first of its rows that is rejected;
/// `None` if every row is accepted.
pub open spec fn page_rejection<R>(
    recipes: Seq<RecipeState>,
    selected: Seq<int>,
    reject: spec_fn(RecipeState) -> Option<R>,
) -> Option<R> {
    if exists|i: int| is_first_unlisted(recipes, selected, reject, i) {
        reject(recipes[selected[choose|i: int| is_first_unlisted(recipes, selected, reject, i)]])
    } else {
        None
    }
}

/// The rule by which a listing rejects a row.
pub open spec fn listing_rule() -> spec_fn(RecipeState) -> Option<Seq<char>> {
    |r: RecipeState| row_rejection(r)
}

/// A page was full: it holds as many rows as a page may, and at least one.
pub open spec fn is_full(count: nat, page_size: nat) -> bool {
    count == page_size && page_size > 0
}

/// The position that is the first rejected one decides the rejection of the
/// page.
pub proof fn lemma_first_unlisted<R>(
    recipes: Seq<RecipeState>,
    selected: Seq<int>,
    reject: spec_fn(RecipeState) -> Option<R>,
    i: int,
)
    requires
        0 <= i < selected.len(),
        reject(recipes[selected[i]]) is Some,
        forall|j: int| 0 <= j < i ==> reject(recipes[#[trigger] selected[j]]) is None,
    ensures
        page_rejection(recipes, selected, reject) == reject(recipes[selected[i]]),
{
    assert(is_first_unlisted(recipes, selected, reject, i));
    let first = choose|k: int| is_first_unlisted(recipes, selected, reject, k);
    assert(first == i);
}

/// A page of which no row is rejected is not rejected.
pub proof fn lemma_none_unlisted<R>(
    recipes: Seq<RecipeState>,
    selected: Seq<int>,
    reject: spec_fn(RecipeState) -> Option<R>,
)
    requires
        forall|j: int| 0 <= j < selected.len() ==> reject(recipes[#[trigger] selected[j]]) is None,
    ensures
        page_rejection(recipes, selected, reject) is None,
{
}

/// A row as a listing shows it.
pub fn list_row(row: &RecipeRow) -> (listed: Result<ListedRecipe, Error>)
    ensures
        match listed {
            Ok(item) => row_rejection(row.deep_view()) is None && lists(item, row.deep_view()),
            Err(Error::Unknown(message)) => row_rejection(row.deep_view()) == Some(message@),
            Err(_) => false,
        },
{
    let id = match Id::try_from(row.id.as_str()) {
        Ok(id) => id,
        Err(error) => {
            return Err(Error::Unknown(error.to_string()));
        },
    };
    let title = match Title::try_from(row.title.clone()) {
        Ok(title) => title,
        Err(error) => {
            return Err(Error::Unknown(error.to_string()));
        },
    };
    Ok(ListedRecipe { id, title, image_id: row.image_id })
}

/// What a listing yields for the query `q`, given the tables.
pub open spec fn list_outcome(
    db: DatabaseState,
    q: Query,
    page_size: nat,
    listed: Result<page::Recipe, Error>,
) -> bool {
    exists|selected: Seq<int>| #[trigger]
        is_page(db.recipes, q, page_size, selected)
            && match listed {
            Ok(page) => {
                &&& page_rejection(db.recipes, selected, listing_rule()) is None
                &&& page.items.len() == selected.len()
                &&& forall|i: int|
                    0 <= i < selected.len() ==> lists(
                        #[trigger] page.items[i],
                        db.recipes[selected[i]],
                    )
                &&& page.next is Some <==> is_full(selected.len(), page_size)
                &&& page.next matches Some(next) ==> next.id@ == ulid_text(
                    page.items[page.items.len() - 1].id@,
                ) && next.name@ == page.items[page.items.len() - 1].title@
            },
            Err(Error::Unknown(message)) => page_rejection(
                db.recipes,
                selected,
                listing_rule(),
            ) == Some(message@),
            Err(_) => false,
        }
}

/// One page of recipes in the order of title and identifier, from the
/// position of the cursor on: the recipes whose title contains the name of the
/// filter, if it has one, and that carry as many of the tags of the filter as
/// the filter names. The page comes with the position of its last item if and
/// only if it is full. The listing fails exactly if a row of the page cannot
/// be listed.
pub fn list_recipes(
    db: &Database,
    page_size: u64,
    filter: &filter::Recipe,
    cursor: Option<cursor::Recipe>,
) -> (listed: Result<page::Recipe, Error>)
    requires
        db.wf(),
    ensures
        list_outcome(db@, list_query(*filter, cursor), page_size as nat, listed),
{
    let ghost q = list_query(*filter, cursor);
    let after = match cursor {
        Some(cursor) => Some(Position { title: cursor.name, id: cursor.id }),
        None => None,
    };
    let selected = select_page(db, true, &filter.name, &filter.tag_ids, after, page_size);
    let ghost recipes = db@.recipes;
    let ghost chosen = positions(selected@);
    assert forall|j: int| 0 <= j < selected.len() implies (#[trigger] selected[j])
        < recipes.len() by {
        reveal(is_page);
        assert(chosen[j] == selected[j] as int);
    }
    let mut items: Vec<ListedRecipe> = Vec::new();
    let mut i: usize = 0;
    while i < selected.len()
        invariant
            i <= selected.len(),
            recipes == db@.recipes,
            chosen == positions(selected@),
            q == list_query(*filter, cursor),
            is_page(recipes, q, page_size as nat, chosen),
            forall|j: int| 0 <= j < selected.len() ==> (#[trigger] selected[j]) < recipes.len(),
            items.len() == i,
            forall|j: int| 0 <= j < i ==> listing_rule()(recipes[#[trigger] chosen[j]]) is None,
            forall|j: int| 0 <= j < i ==> lists(#[trigger] items[j], recipes[chosen[j]]),
        decreases selected.len() - i,
    {
        assert(chosen[i as int] == selected[i as int] as int);
        match list_row(&db.recipes[selected[i]]) {
            Ok(item) => {
                items.push(item);
            },
            Err(error) => {
                proof {
                    lemma_first_unlisted(recipes, chosen, listing_rule(), i as int);
                }
                return Err(error);
            },
        }
        i += 1;
    }
    proof {
        lemma_none_unlisted(recipes, chosen, listing_rule());
    }
    let next = if items.len() > 0 && items.len() as u64 == page_size {
        let last = &items[items.len() - 1];
        Some(cursor::Recipe { id: last.id.to_string(), name: copy_str(last.title.as_str()) })
    } else {
        None
    };
    Ok(page::Recipe { items, next })
}

/// What a bulk export asks of the rows: every row whose identifier sorts
/// behind that of the cursor, or behind the empty identifier if there is no
/// cursor, in the order of identifiers.
pub open spec fn dump_query(cursor: Option<cursor::DumpedIndexableRecipe>) -> Query {
    Query {
        by_title: false,
        name: None,
        tag_ids: Seq::empty(),
        after: Some(
            SortKey {
                title: Seq::empty(),
                id: match cursor {
                    Some(cursor) => encode_utf8(cursor.id@),
                    None => Seq::empty(),
                },
            },
        ),
    }
}

/// Why a row is not exported.
pub enum Refusal {
    /// Its stored bytes hold no document.
    NoDocument,
    /// Its identifier is no ULID or its document is not valid, with the
    /// message that says so.
    Invalid(Seq<char>),
}

/// What keeps a row from being exported: its identifier is no ULID, its
/// stored bytes hold no document, or the document is not valid; `None` if it
/// can be exported.
pub open spec fn dump_rejection(r: RecipeState) -> Option<Refusal> {
    if ulid_value(r.id) is None {
        Some(Refusal::Invalid(id_rejection(r.id)))
    } else {
        match parse_document(r.document) {
            None => Some(Refusal::NoDocument),
            Some(d) => match document_rejection(d) {
                Some(message) => Some(Refusal::Invalid(message)),
                None => None,
            },
        }
    }
}

/// The rule by which a bulk export rejects a row.
pub open spec fn dump_rule() -> spec_fn(RecipeState) -> Option<Refusal> {
    |r: RecipeState| dump_rejection(r)
}

/// The error with which an export fails on a row that is refused.
pub open spec fn refuses(error: Error, refusal: Option<Refusal>) -> bool {
    match error {
        Error::Serialization => refusal == Some(Refusal::NoDocument),
        Error::Unknown(message) => refusal == Some(Refusal::Invalid(message@)),
        _ => false,
    }
}

/// `item` exports the row `r`.
pub open spec fn dumps(item: DumpedIndexableRecipe, r: RecipeState) -> bool {
    let d = parse_document(r.document)->0;
    &&& ulid_value(r.id) == Some(item.id@)
    &&& item.title@ == trimmed(d.title)
    &&& item.ingredients.deep_view() == trimmed_blocks(d.ingredients)
    &&& item.instructions.deep_view() == trimmed_blocks(d.instructions)
    &&& notes_text(item.notes) == trimmed_notes(d.notes)
    &&& item.tag_ids.deep_view() == d.tag_ids
}

/// A row as a bulk export shows it.
pub fn dump_row(row: &RecipeRow) -> (dumped: Result<DumpedIndexableRecipe, Error>)
    requires
        recipe_wf(row.deep_view()),
    ensures
        match dumped {
            Ok(item) => dump_rejection(row.deep_view()) is None && dumps(item, row.deep_view()),
            Err(error) => refuses(error, dump_rejection(row.deep_view())),
        },
{
    let id = match Id::try_from(row.id.as_str()) {
        Ok(id) => id,
        Err(error) => {
            return Err(Error::Unknown(error.to_string()));
        },
    };
    let document = match decode(row.document.as_slice()) {
        Some(versioned) => RecipeDocument::from(versioned),
        None => {
            return Err(Error::Serialization);
        },
    };
    match RecipeDocument::to_dumped_indexable_recipe(id, document) {
        Ok(item) => Ok(item),
        Err(error) => Err(Error::Unknown(error.to_string())),
    }
}

/// What a page of a bulk export yields for the query `q`, given the tables.
pub open spec fn dump_outcome(
    db: DatabaseState,
    q: Query,
    page_size: nat,
    dumped: Result<page::DumpedIndexableRecipe, Error>,
) -> bool {
    exists|selected: Seq<int>| #[trigger]
        is_page(db.recipes, q, page_size, selected) && match dumped {
            Ok(page) => {
                &&& page_rejection(db.recipes, selected, dump_rule()) is None
                &&& page.items.len() == selected.len()
                &&& forall|i: int|
                    0 <= i < selected.len() ==> dumps(
                        #[trigger] page.items[i],
                        db.recipes[selected[i]],
                    )
                &&& page.next is Some <==> is_full(selected.len(), page_size)
                &&& page.next matches Some(next) ==> next.id@ == ulid_text(
                    page.items[page.items.len() - 1].id@,
                )
            },
            Err(error) => refuses(error, page_rejection(db.recipes, selected, dump_rule())),
        }
}

/// One page of a bulk export of all recipes in the order of their
/// identifiers, from the position of the cursor on. The page comes with the
/// position of its last item if and only if it is full. The export fails
/// exactly if a row of the page cannot be exported: with `Serialization` if
/// the first such row holds no document, and else with `Unknown`.
pub fn dump_recipes_for_index(
    db: &Database,
    page_size: u64,
    cursor: Option<cursor::DumpedIndexableRecipe>,
) -> (dumped: Result<page::DumpedIndexableRecipe, Error>)
    requires
        db.wf(),
    ensures
        dump_outcome(db@, dump_query(cursor), page_size as nat, dumped),
{
    let ghost q = dump_query(cursor);
    let after = Position {
        title: String::new(),
        id: match cursor {
            Some(cursor) => cursor.id,
            None => String::new(),
        },
    };
    proof {
        assert(encode_utf8(Seq::<char>::empty()) =~= Seq::<u8>::empty());
    }
    let no_name: Option<String> = None;
    let no_tags: Vec<Id> = Vec::new();
    assert(no_tags.deep_view() =~= Seq::<u128>::empty());
    let selected = select_page(db, false, &no_name, &no_tags, Some(after), page_size);
    let ghost recipes = db@.recipes;
    let ghost chosen = positions(selected@);
    assert forall|j: int| 0 <= j < selected.len() implies (#[trigger] selected[j])
        < recipes.len() by {
        reveal(is_page);
        assert(chosen[j] == selected[j] as int);
    }
    let mut items: Vec<DumpedIndexableRecipe> = Vec::new();
    let mut i: usize = 0;
    while i < selected.len()
        invariant
            i <= selected.len(),
            recipes == db@.recipes,
            forall|k: int| 0 <= k < recipes.len() ==> recipe_wf(#[trigger] recipes[k]),
            chosen == positions(selected@),
            q == dump_query(cursor),
            is_page(recipes, q, page_size as nat, chosen),
            forall|j: int| 0 <= j < selected.len() ==> (#[trigger] selected[j]) < recipes.len(),
            items.len() == i,
            forall|j: int| 0 <= j < i ==> dump_rule()(recipes[#[trigger] chosen[j]]) is None,
            forall|j: int| 0 <= j < i ==> dumps(#[trigger] items[j], recipes[chosen[j]]),
        decreases selected.len() - i,
    {
        assert(chosen[i as int] == selected[i as int] as int);
        assert(recipe_wf(recipes[selected[i as int] as int]));
        match dump_row(&db.recipes[selected[i]]) {
            Ok(item) => {
                items.push(item);
            },
            Err(error) => {
                proof {
                    lemma_first_unlisted(recipes, chosen, dump_rule(), i as int);
                }
                return Err(error);
            },
        }
        i += 1;
    }
    proof {
        lemma_none_unlisted(recipes, chosen, dump_rule());
    }
    let next = if items.len() > 0 && items.len() as u64 == page_size {
        let last = &items[items.len() - 1];
        Some(cursor::DumpedIndexableRecipe { id: last.id.to_string() })
    } else {
        None
    };
    Ok(page::DumpedIndexableRecipe { items, next })
}

/// What is read after a creation is what was written: once a document that
/// can be stored has been created under a free identifier, the store is
/// consistent, the identifier is taken, and the stored bytes under it hold
/// exactly that document.
pub proof fn theorem_created_is_read(
    db: DatabaseState,
    id: Seq<char>,
    user: Seq<char>,
    d: DocumentText,
)
    requires
        database_wf(db),
        !has_recipe(db.recipes, id),
        storable(d),
    ensures
        database_wf(with_recipe(db, created(id, user, d))),
        has_recipe(with_recipe(db, created(id, user, d)).recipes, id),
        recipe_of(with_recipe(db, created(id, user, d)).recipes, id) == created(id, user, d),
        parse_document(recipe_of(with_recipe(db, created(id, user, d)).recipes, id).document)
            == Some(d),
{
    let row = created(id, user, d);
    let after = with_recipe(db, row);
    lemma_created_wf(id, user, d);
    lemma_parse_document(d);
    assert(after.recipes[db.recipes.len() as int] == row);
    assert(recipe_at(after.recipes, id, db.recipes.len() as int));
    assert(distinct_recipes(after.recipes)) by {
        assert forall|i: int, j: int|
            0 <= i < after.recipes.len() && 0 <= j < after.recipes.len() && i != j implies (
        #[trigger] after.recipes[i]).id != (#[trigger] after.recipes[j]).id by {
            if i == db.recipes.len() {
                assert(!recipe_at(db.recipes, id, j));
            } else if j == db.recipes.len() {
                assert(!recipe_at(db.recipes, id, i));
            }
        }
    }
    assert forall|i: int| 0 <= i < after.recipes.len() implies recipe_wf(
        #[trigger] after.recipes[i],
    ) by {
        if i < db.recipes.len() {
            assert(after.recipes[i] == db.recipes[i]);
        }
    }
    lemma_recipe_of(after.recipes, id, db.recipes.len() as int);
}

/// One write of a sequence of updates: who wrote, what, and the patch that
/// leads back from the written document to the one before it.
pub struct Write {
    pub user: Seq<char>,
    pub document: DocumentText,
    pub patch: Seq<u8>,
}

/// The row of a recipe after a sequence of updates.
pub open spec fn revised(r: RecipeState, writes: Seq<Write>) -> RecipeState
    decreases writes.len(),
{
    if writes.len() == 0 {
        r
    } else {
        let write = writes.last();
        updated(revised(r, writes.drop_last()), write.user, write.document, write.patch)
    }
}

/// Every write of the sequence would be accepted in its turn: its document
/// can be stored and its patch leads back to the document before it.
pub open spec fn acceptable(r: RecipeState, writes: Seq<Write>) -> bool
    decreases writes.len(),
{
    if writes.len() == 0 {
        true
    } else {
        let write = writes.last();
        &&& acceptable(r, writes.drop_last())
        &&& storable(write.document)
        &&& patched(write.patch, document(write.document)) == Some(
            revised(r, writes.drop_last()).document,
        )
    }
}

/// Every document of a sequence of writes that is acceptable can be stored.
pub proof fn lemma_acceptable_storable(r: RecipeState, writes: Seq<Write>, k: int)
    requires
        acceptable(r, writes),
        0 <= k < writes.len(),
    ensures
        storable(writes[k].document),
    decreases writes.len(),
{
    if k < writes.len() - 1 {
        lemma_acceptable_storable(r, writes.drop_last(), k);
        assert(writes.drop_last()[k] == writes[k]);
    }
}

/// A row has one revision more for every update.
pub proof fn lemma_revised_len(r: RecipeState, writes: Seq<Write>)
    ensures
        revised(r, writes).revisions.len() == r.revisions.len() + writes.len(),
        revised(r, writes).document == if writes.len() == 0 {
            r.document
        } else {
            document(writes.last().document)
        },
    decreases writes.len(),
{
    if writes.len() > 0 {
        lemma_revised_len(r, writes.drop_last());
    }
}

/// A consistent row stays consistent under accepted updates.
pub proof fn lemma_revised_wf(r: RecipeState, writes: Seq<Write>)
    requires
        recipe_wf(r),
        acceptable(r, writes),
    ensures
        recipe_wf(revised(r, writes)),
    decreases writes.len(),
{
    if writes.len() > 0 {
        let write = writes.last();
        lemma_revised_wf(r, writes.drop_last());
        lemma_updated_wf(revised(r, writes.drop_last()), write.user, write.document, write.patch);
    }
}

/// After accepted updates of a row that had one revision, the revision `k`
/// reconstructs to the bytes of the `k`-th update, and revision 0 to the bytes
/// that the row held.
pub proof fn lemma_revised_bytes(r: RecipeState, writes: Seq<Write>, k: int)
    requires
        r.revisions.len() == 1,
        acceptable(r, writes),
        0 <= k <= writes.len(),
    ensures
        revision_bytes(revised(r, writes), k) == Some(
            if k == 0 {
                r.document
            } else {
                document(writes[k - 1].document)
            },
        ),
    decreases writes.len(),
{
    if writes.len() > 0 {
        let earlier = writes.drop_last();
        let write = writes.last();
        let before = revised(r, earlier);
        lemma_revised_len(r, earlier);
        lemma_revised_len(r, writes);
        if k < writes.len() {
            lemma_revised_bytes(r, earlier, k);
            lemma_updated_keeps(before, write.user, write.document, write.patch, k);
            if k > 0 {
                assert(earlier[k - 1] == writes[k - 1]);
            }
        }
    }
}

/// The history of a recipe is kept exactly: after a creation and any number
/// of accepted updates the recipe has one revision more than it had updates,
/// revision 0 reconstructs to the bytes and the document that were created,
/// and revision `k` to the bytes and the document of the `k`-th update.
pub proof fn theorem_history_is_kept(
    id: Seq<char>,
    user: Seq<char>,
    first: DocumentText,
    writes: Seq<Write>,
)
    requires
        storable(first),
        acceptable(created(id, user, first), writes),
    ensures
        recipe_wf(revised(created(id, user, first), writes)),
        revised(created(id, user, first), writes).revisions.len() == writes.len() + 1,
        revision_bytes(revised(created(id, user, first), writes), 0) == Some(document(first)),
        revision_document(revised(created(id, user, first), writes), 0) == Some(first),
        forall|k: int|
            1 <= k <= writes.len() ==> revision_bytes(
                revised(created(id, user, first), writes),
                k,
            ) == Some(document((#[trigger] writes[k - 1]).document)) && revision_document(
                revised(created(id, user, first), writes),
                k,
            ) == Some(writes[k - 1].document),
{
    let start = created(id, user, first);
    lemma_created_wf(id, user, first);
    lemma_revised_wf(start, writes);
    lemma_revised_len(start, writes);
    lemma_revised_bytes(start, writes, 0);
    lemma_parse_document(first);
    assert forall|k: int| 1 <= k <= writes.len() implies revision_bytes(
        revised(start, writes),
        k,
    ) == Some(document((#[trigger] writes[k - 1]).document)) && revision_document(
        revised(start, writes),
        k,
    ) == Some(writes[k - 1].document) by {
        lemma_revised_bytes(start, writes, k);
        lemma_acceptable_storable(start, writes, k - 1);
        lemma_parse_document(writes[k - 1].document);
    }
}

/// A row is stored in the form in which it is listed: its title is a
/// required text, so that trimming leaves it as it is, and its identifier is
/// the canonical text of a ULID. Rows are so if they are created from
/// validated recipes under identifiers of the library.
pub open spec fn is_canonical(r: RecipeState) -> bool {
    &&& is_required_text(r.title)
    &&& ulid_value(r.id) matches Some(value) && ulid_text(value) == r.id
}

/// The cursor of a page resumes the listing right behind the last row of the
/// page: if that row is stored in canonical form, the listing that is asked
/// for with the cursor goes on from the key of the row.
pub proof fn theorem_cursor_resumes(
    r: RecipeState,
    item: ListedRecipe,
    next: cursor::Recipe,
    filter: filter::Recipe,
)
    requires
        lists(item, r),
        is_canonical(r),
        next.id@ == ulid_text(item.id@),
        next.name@ == item.title@,
    ensures
        list_query(filter, Some(next)).after == Some(key_of(r, true)),
{
    lemma_required_text_is_trimmed(r.title);
}

/// The tags that are shown for a document are those that it names and that
/// the table holds.
pub proof fn lemma_tags_on_ids(tags: Seq<TagState>, ids: Seq<u128>, t: u128)
    ensures
        (exists|i: int| 0 <= i < tags_on(tags, ids).len() && (#[trigger] tags_on(tags, ids)[i]).id
            == t) <==> ids.contains(t) && has_tag(tags, t),
    decreases tags.len(),
{
    if tags.len() > 0 {
        let init = tags.drop_last();
        let last = tags.last();
        let before = tags_on(init, ids);
        let all = tags_on(tags, ids);
        lemma_tags_on_ids(init, ids, t);
        if exists|i: int| 0 <= i < all.len() && (#[trigger] all[i]).id == t {
            let i = choose|i: int| 0 <= i < all.len() && (#[trigger] all[i]).id == t;
            if i < before.len() {
                assert(before[i].id == t);
                let j = choose|j: int| 0 <= j < init.len() && (#[trigger] init[j]).id == t;
                assert(tags[j].id == t);
            } else {
                assert(tags[tags.len() - 1].id == t);
            }
        }
        if ids.contains(t) && has_tag(tags, t) {
            let j = choose|j: int| 0 <= j < tags.len() && (#[trigger] tags[j]).id == t;
            if j < init.len() {
                assert(init[j].id == t);
                let i = choose|i: int| 0 <= i < before.len() && (#[trigger] before[i]).id == t;
                assert(all[i].id == t);
            } else {
                assert(all[all.len() - 1].id == t);
            }
        }
    }
}

/// What is read after a creation shows what was created: once a valid
/// document has been created by an existing user under a free identifier that
/// is the text of a ULID, with an image and tags that exist, reading the
/// recipe succeeds and shows the texts, the image and the tags of the document
/// and the hash of its bytes. The one input that is left out is a document
/// that names a tag whose stored name is blank: such a recipe cannot be
/// shown.
pub proof fn theorem_created_is_shown(
    db: DatabaseState,
    id: Seq<char>,
    user: Seq<char>,
    d: DocumentText,
    found: Result<Recipe, Error>,
)
    requires
        database_wf(db),
        !has_recipe(db.recipes, id),
        storable(d),
        references_hold(db, user, d),
        is_valid_document(d),
        ulid_value(id) is Some,
        tags_rejection(db.tags, d.tag_ids) is None,
        get_outcome(with_recipe(db, created(id, user, d)), id, found),
    ensures
        found matches Ok(recipe) && ulid_value(id) == Some(recipe.id@) && recipe.hash@
            == sha256_hex(document(d)) && recipe.title@ == d.title && value_of(recipe.image_id)
            == d.image_id && recipe.ingredients.deep_view() == d.ingredients
            && recipe.instructions.deep_view() == d.instructions && notes_text(recipe.notes)
            == d.notes && forall|t: u128|
            d.tag_ids.contains(t) <==> exists|i: int|
                0 <= i < recipe.tags.len() && (#[trigger] recipe.tags[i]).id@ == t,
{
    let after = with_recipe(db, created(id, user, d));
    theorem_created_is_read(db, id, user, d);
    lemma_valid_document(d);
    assert(after.tags == db.tags);
    let recipe = found->Ok_0;
    let shown = tags_on(db.tags, d.tag_ids);
    assert forall|t: u128|
        d.tag_ids.contains(t) <==> exists|i: int|
            0 <= i < recipe.tags.len() && (#[trigger] recipe.tags[i]).id@ == t by {
        lemma_tags_on_ids(db.tags, d.tag_ids, t);
        if d.tag_ids.contains(t) {
            let k = choose|k: int| 0 <= k < d.tag_ids.len() && d.tag_ids[k] == t;
            assert(has_tag(db.tags, d.tag_ids[k]));
            let i = choose|i: int| 0 <= i < shown.len() && (#[trigger] shown[i]).id == t;
            assert(recipe.tags.deep_view()[i].id == recipe.tags[i].id@);
        }
        if exists|i: int| 0 <= i < recipe.tags.len() && (#[trigger] recipe.tags[i]).id@ == t {
            let i = choose|i: int| 0 <= i < recipe.tags.len() && (#[trigger] recipe.tags[i]).id@ == t;
            assert(shown[i].id == recipe.tags[i].id@);
        }
    }
}

} // verus!
