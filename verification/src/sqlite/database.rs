//! The tables of the store as plain rows, and what it means for them to be
//! consistent.
//!
//! The rows are what a worker has read from its database file; the file, the
//! connection and the transaction round a request belong to the program that
//! uses the library. What the file enforces with keys and constraints is
//! here the consistency of the tables.

use vstd::prelude::*;
use crate::datastore::envelope::parse_document;
use crate::datastore::DocumentText;
use crate::domain::id::Id;
use crate::domain::{User, UserState};
use crate::sqlite::delta::patched;
use crate::text::bytes_lt;

verus! {

/// One revision of a recipe: the patch that leads back to it from the
/// revision after it, and who wrote it. The position of the row among the
/// revisions of its recipe is its number.
#[derive(Debug, Clone)]
pub struct RevisionRow {
    pub patch: Option<Vec<u8>>,
    pub created_by_user_id: String,
}

/// What a revision row holds.
pub struct RevisionState {
    pub patch: Option<Seq<u8>>,
    pub created_by: Seq<char>,
}

impl DeepView for RevisionRow {
    type V = RevisionState;

    open spec fn deep_view(&self) -> RevisionState {
        RevisionState {
            patch: match self.patch {
                Some(patch) => Some(patch@),
                None => None,
            },
            created_by: self.created_by_user_id@,
        }
    }
}

/// A recipe as the store holds it: the bytes of its latest document, the
/// columns copied out of that document, and its revisions from the first on.
#[derive(Debug, Clone)]
pub struct RecipeRow {
    pub id: String,
    pub title: String,
    pub image_id: Option<Id>,
    pub document: Vec<u8>,
    pub revisions: Vec<RevisionRow>,
    pub tag_ids: Vec<Id>,
}

/// What a recipe row holds.
pub struct RecipeState {
    pub id: Seq<char>,
    pub title: Seq<char>,
    pub image_id: Option<u128>,
    pub document: Seq<u8>,
    pub revisions: Seq<RevisionState>,
    pub tag_ids: Seq<u128>,
}

impl DeepView for RecipeRow {
    type V = RecipeState;

    open spec fn deep_view(&self) -> RecipeState {
        RecipeState {
            id: self.id@,
            title: self.title@,
            image_id: match self.image_id {
                Some(id) => Some(id@),
                None => None,
            },
            document: self.document@,
            revisions: self.revisions.deep_view(),
            tag_ids: self.tag_ids.deep_view(),
        }
    }
}

/// A tag as the store holds it.
#[derive(Debug, Clone)]
pub struct TagRow {
    pub id: Id,
    pub name: String,
    pub created_by_user_id: String,
}

/// What a tag row holds.
pub struct TagState {
    pub id: u128,
    pub name: Seq<char>,
    pub created_by: Seq<char>,
}

impl DeepView for TagRow {
    type V = TagState;

    open spec fn deep_view(&self) -> TagState {
        TagState { id: self.id@, name: self.name@, created_by: self.created_by_user_id@ }
    }
}

/// What the tables hold.
pub struct DatabaseState {
    pub recipes: Seq<RecipeState>,
    pub tags: Seq<TagState>,
    pub images: Seq<Seq<char>>,
    pub users: Seq<UserState>,
}

/// The bytes of the document that was current at revision `k`: the latest
/// document for the last revision, and for an earlier one what the patch of
/// the revision after it makes of that revision's bytes.
pub open spec fn revision_bytes(r: RecipeState, k: int) -> Option<Seq<u8>>
    decreases r.revisions.len() - k,
{
    if k < 0 || k >= r.revisions.len() {
        None
    } else if k == r.revisions.len() - 1 {
        Some(r.document)
    } else {
        match (revision_bytes(r, k + 1), r.revisions[k + 1].patch) {
            (Some(later), Some(patch)) => patched(patch, later),
            _ => None,
        }
    }
}

/// The document that was current at revision `k`.
pub open spec fn revision_document(r: RecipeState, k: int) -> Option<DocumentText> {
    match revision_bytes(r, k) {
        Some(bytes) => parse_document(bytes),
        None => None,
    }
}

/// A recipe row is consistent: it has a first revision without a patch and
/// then revisions with patches, and no tag occurs twice. Whether the stored
/// bytes hold a document, and whether an earlier revision can still be
/// reconstructed, is found when they are read.
pub open spec fn recipe_wf(r: RecipeState) -> bool {
    &&& r.revisions.len() >= 1
    &&& r.revisions[0].patch is None
    &&& forall|k: int| 1 <= k < r.revisions.len() ==> (#[trigger] r.revisions[k]).patch is Some
    &&& r.tag_ids.no_duplicates()
}

/// The position of the recipe with the given identifier, if there is one.
pub open spec fn recipe_at(recipes: Seq<RecipeState>, id: Seq<char>, i: int) -> bool {
    0 <= i < recipes.len() && recipes[i].id == id
}

/// There is a recipe with the given identifier.
pub open spec fn has_recipe(recipes: Seq<RecipeState>, id: Seq<char>) -> bool {
    exists|i: int| recipe_at(recipes, id, i)
}

/// The recipe with the given identifier.
pub open spec fn recipe_of(recipes: Seq<RecipeState>, id: Seq<char>) -> RecipeState {
    recipes[choose|i: int| recipe_at(recipes, id, i)]
}

/// There is a user with the given identifier.
pub open spec fn has_user(users: Seq<UserState>, id: Seq<char>) -> bool {
    exists|i: int| 0 <= i < users.len() && (#[trigger] users[i]).id == id
}

/// There is a tag with the given identifier.
pub open spec fn has_tag(tags: Seq<TagState>, id: u128) -> bool {
    exists|i: int| 0 <= i < tags.len() && (#[trigger] tags[i]).id == id
}

/// What a recipe refers to is there: the user who writes it, the image of the
/// document, if it has one, and every tag that the document names. A recipe
/// is stored only if it is so.
pub open spec fn references_hold(db: DatabaseState, user: Seq<char>, d: DocumentText) -> bool {
    &&& has_user(db.users, user)
    &&& d.image_id matches Some(image) ==> db.images.contains(crate::domain::id::ulid_text(image))
    &&& forall|k: int| 0 <= k < d.tag_ids.len() ==> has_tag(db.tags, #[trigger] d.tag_ids[k])
}

/// No two recipes share an identifier.
pub open spec fn distinct_recipes(recipes: Seq<RecipeState>) -> bool {
    forall|i: int, j: int|
        0 <= i < recipes.len() && 0 <= j < recipes.len() && i != j ==> (#[trigger] recipes[i]).id
            != (#[trigger] recipes[j]).id
}

/// The tags are in the order of their names, and no two share a name or an
/// identifier.
pub open spec fn tags_wf(tags: Seq<TagState>) -> bool {
    &&& forall|i: int, j: int|
        0 <= i < j < tags.len() ==> bytes_lt(
            vstd::utf8::encode_utf8((#[trigger] tags[i]).name),
            vstd::utf8::encode_utf8((#[trigger] tags[j]).name),
        )
    &&& forall|i: int, j: int|
        0 <= i < tags.len() && 0 <= j < tags.len() && i != j ==> (#[trigger] tags[i]).id != (
        #[trigger] tags[j]).id
}

/// No two users share an identifier or an external identity.
pub open spec fn users_wf(users: Seq<UserState>) -> bool {
    forall|i: int, j: int|
        0 <= i < users.len() && 0 <= j < users.len() && i != j ==> (#[trigger] users[i]).id != (
        #[trigger] users[j]).id && users[i].oauth_id != users[j].oauth_id
}

/// The tables are consistent.
pub open spec fn database_wf(db: DatabaseState) -> bool {
    &&& distinct_recipes(db.recipes)
    &&& forall|i: int| 0 <= i < db.recipes.len() ==> recipe_wf(#[trigger] db.recipes[i])
    &&& tags_wf(db.tags)
    &&& db.images.no_duplicates()
    &&& users_wf(db.users)
}

/// The store: its tables. Every operation expects them consistent and leaves
/// them so.
#[derive(Debug, Clone)]
pub struct Database {
    pub recipes: Vec<RecipeRow>,
    pub tags: Vec<TagRow>,
    pub images: Vec<String>,
    pub users: Vec<User>,
}

impl View for Database {
    type V = DatabaseState;

    open spec fn view(&self) -> DatabaseState {
        DatabaseState {
            recipes: self.recipes.deep_view(),
            tags: self.tags.deep_view(),
            images: self.images.deep_view(),
            users: self.users.deep_view(),
        }
    }
}

impl Database {
    /// The tables are consistent.
    pub open spec fn wf(&self) -> bool {
        database_wf(self@)
    }

    /// A store without rows.
    pub fn new() -> (db: Database)
        ensures
            db.wf(),
            db@.recipes.len() == 0,
            db@.tags.len() == 0,
            db@.images.len() == 0,
            db@.users.len() == 0,
    {
        Database { recipes: Vec::new(), tags: Vec::new(), images: Vec::new(), users: Vec::new() }
    }
}

} // verus!
