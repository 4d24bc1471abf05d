//! Recipe documents as they are stored, and the pool of workers that serves
//! them.

use vstd::prelude::*;
use crate::domain;
use crate::domain::{Recipe, RecipeRevision, RegisteringUser, User};
use crate::domain::recipe::{
    blocks_rejection, is_blank, is_required_text, is_valid_block, lemma_required_text_is_trimmed,
    lemma_valid_blocks, trimmed_blocks, validate_ingredient_blocks, validate_instruction_blocks,
    BlockText, Notes, StringifiedBlock, Title,
};
use crate::text::trimmed;

pub mod backoff;
pub mod envelope;
pub mod wire;

verus! {

/// A recipe as its author wrote it: plain texts, not yet validated.
#[derive(Debug, Clone)]
pub struct RecipeDocument {
    pub title: String,
    pub ingredients: Vec<StringifiedBlock>,
    pub instructions: Vec<StringifiedBlock>,
    pub notes: Option<String>,
    pub tag_ids: Vec<domain::tag::Id>,
    pub image_id: Option<domain::image::Id>,
}

/// What a recipe document says.
pub struct DocumentText {
    pub title: Seq<char>,
    pub ingredients: Seq<BlockText>,
    pub instructions: Seq<BlockText>,
    pub notes: Option<Seq<char>>,
    pub tag_ids: Seq<u128>,
    pub image_id: Option<u128>,
}

impl DeepView for RecipeDocument {
    type V = DocumentText;

    open spec fn deep_view(&self) -> DocumentText {
        DocumentText {
            title: self.title@,
            ingredients: self.ingredients.deep_view(),
            instructions: self.instructions.deep_view(),
            notes: match self.notes {
                Some(notes) => Some(notes@),
                None => None,
            },
            tag_ids: self.tag_ids.deep_view(),
            image_id: match self.image_id {
                Some(id) => Some(id@),
                None => None,
            },
        }
    }
}

/// A recipe document under the version of the stored format that holds it.
/// Stored bytes always begin with the version, so that bytes written under an
/// earlier version stay readable.
#[derive(Debug, Clone)]
pub enum VersionedRecipeDocument {
    V1 {
        title: String,
        ingredients: Vec<StringifiedBlock>,
        instructions: Vec<StringifiedBlock>,
        notes: Option<String>,
        tag_ids: Vec<domain::tag::Id>,
        image_id: Option<domain::image::Id>,
    },
}

impl DeepView for VersionedRecipeDocument {
    type V = DocumentText;

    open spec fn deep_view(&self) -> DocumentText {
        match *self {
            VersionedRecipeDocument::V1 {
                title,
                ingredients,
                instructions,
                notes,
                tag_ids,
                image_id,
            } => DocumentText {
                title: title@,
                ingredients: ingredients.deep_view(),
                instructions: instructions.deep_view(),
                notes: match notes {
                    Some(notes) => Some(notes@),
                    None => None,
                },
                tag_ids: tag_ids.deep_view(),
                image_id: match image_id {
                    Some(id) => Some(id@),
                    None => None,
                },
            },
        }
    }
}

impl RecipeDocument {
    /// A copy of the document.
    pub fn duplicate(&self) -> (copy: RecipeDocument)
        ensures
            copy.deep_view() == self.deep_view(),
    {
        let ingredients = duplicate_blocks(&self.ingredients);
        let instructions = duplicate_blocks(&self.instructions);
        let mut tag_ids: Vec<domain::tag::Id> = Vec::new();
        let mut i: usize = 0;
        while i < self.tag_ids.len()
            invariant
                i <= self.tag_ids.len(),
                tag_ids.len() == i,
                forall|j: int| 0 <= j < i ==> (#[trigger] tag_ids[j])@ == self.tag_ids[j]@,
            decreases self.tag_ids.len() - i,
        {
            tag_ids.push(self.tag_ids[i]);
            i += 1;
        }
        assert(tag_ids.deep_view() =~= self.tag_ids.deep_view());
        RecipeDocument {
            title: self.title.clone(),
            ingredients,
            instructions,
            notes: match &self.notes {
                Some(notes) => Some(notes.clone()),
                None => None,
            },
            tag_ids,
            image_id: self.image_id,
        }
    }

    /// The document that a versioned document holds.
    pub fn from(value: VersionedRecipeDocument) -> (document: RecipeDocument)
        ensures
            document.deep_view() == value.deep_view(),
    {
        match value {
            VersionedRecipeDocument::V1 {
                title,
                ingredients,
                instructions,
                notes,
                tag_ids,
                image_id,
            } => RecipeDocument { title, ingredients, instructions, notes, tag_ids, image_id },
        }
    }
}

/// A copy of a sequence of blocks.
pub fn duplicate_blocks(blocks: &Vec<StringifiedBlock>) -> (copy: Vec<StringifiedBlock>)
    ensures
        copy.deep_view() == blocks.deep_view(),
{
    let mut copy: Vec<StringifiedBlock> = Vec::new();
    let mut i: usize = 0;
    while i < blocks.len()
        invariant
            i <= blocks.len(),
            copy.len() == i,
            forall|j: int| 0 <= j < i ==> (#[trigger] copy[j]).deep_view() == blocks[j].deep_view(),
        decreases blocks.len() - i,
    {
        copy.push(blocks[i].duplicate());
        i += 1;
    }
    assert(copy.deep_view() =~= blocks.deep_view());
    copy
}

/// The message that rejects a document: that of the first of its title, its
/// blocks of ingredients, its blocks of instructions and its notes that is
/// rejected; `None` if the document is valid.
pub open spec fn document_rejection(d: DocumentText) -> Option<Seq<char>> {
    if is_blank(d.title) {
        Some(Title::rejection(d.title))
    } else if blocks_rejection(d.ingredients) is Some {
        blocks_rejection(d.ingredients)
    } else if blocks_rejection(d.instructions) is Some {
        blocks_rejection(d.instructions)
    } else if d.notes is Some && is_blank(d.notes->0) {
        Some(Notes::rejection(d.notes->0))
    } else {
        None
    }
}

/// The text of optional notes.
pub open spec fn notes_text(notes: Option<Notes>) -> Option<Seq<char>> {
    match notes {
        Some(notes) => Some(notes@),
        None => None,
    }
}

/// The text of optional notes, trimmed.
pub open spec fn trimmed_notes(notes: Option<Seq<char>>) -> Option<Seq<char>> {
    match notes {
        Some(notes) => Some(trimmed(notes)),
        None => None,
    }
}

impl RecipeDocument {
    /// Validates a document for the search index: every text is trimmed, and
    /// the first text that is blank rejects the document.
    pub fn to_dumped_indexable_recipe(id: domain::recipe::Id, value: RecipeDocument) -> (dumped:
        Result<domain::DumpedIndexableRecipe, domain::ValidationError>)
        ensures
            match dumped {
                Ok(recipe) => {
                    &&& document_rejection(value.deep_view()) is None
                    &&& recipe.id == id
                    &&& recipe.title@ == trimmed(value.title@)
                    &&& recipe.ingredients.deep_view() == trimmed_blocks(
                        value.ingredients.deep_view(),
                    )
                    &&& recipe.instructions.deep_view() == trimmed_blocks(
                        value.instructions.deep_view(),
                    )
                    &&& notes_text(recipe.notes) == trimmed_notes(value.deep_view().notes)
                    &&& recipe.tag_ids.deep_view() == value.tag_ids.deep_view()
                },
                Err(domain::ValidationError::Constraint(message)) => document_rejection(
                    value.deep_view(),
                ) == Some(message@),
                Err(domain::ValidationError::Format(_)) => false,
            },
    {
        let title = match Title::try_from(value.title) {
            Ok(title) => title,
            Err(error) => {
                return Err(error);
            },
        };
        let ingredients = match validate_ingredient_blocks(&value.ingredients) {
            Ok(blocks) => blocks,
            Err(error) => {
                return Err(error);
            },
        };
        let instructions = match validate_instruction_blocks(&value.instructions) {
            Ok(blocks) => blocks,
            Err(error) => {
                return Err(error);
            },
        };
        let notes = match value.notes {
            None => None,
            Some(text) => match Notes::try_from(text) {
                Ok(notes) => Some(notes),
                Err(error) => {
                    return Err(error);
                },
            },
        };
        Ok(
            domain::DumpedIndexableRecipe {
                id,
                title,
                ingredients,
                instructions,
                notes,
                tag_ids: value.tag_ids,
            },
        )
    }
}

impl RecipeDocument {
    /// The bytes that the document is stored as, under the current version
    /// of the stored format.
    pub fn to_bytes(&self) -> (bytes: Vec<u8>)
        ensures
            bytes@ == envelope::document(self.deep_view()),
            envelope::document_fits(self.deep_view()),
    {
        envelope::encode(&VersionedRecipeDocument::from(self.duplicate()))
    }

    /// The document that stored bytes hold. Fails with `Serialization`
    /// exactly if they hold none.
    pub fn from_bytes(bytes: &[u8]) -> (read: Result<RecipeDocument, Error>)
        ensures
            match read {
                Ok(document) => envelope::parse_document(bytes@) == Some(document.deep_view()),
                Err(error) => error is Serialization && envelope::parse_document(bytes@) is None,
            },
    {
        match envelope::decode(bytes) {
            Some(versioned) => Ok(RecipeDocument::from(versioned)),
            None => Err(Error::Serialization),
        }
    }
}

impl VersionedRecipeDocument {
    /// The document under the current version of the stored format.
    pub fn from(value: RecipeDocument) -> (versioned: VersionedRecipeDocument)
        ensures
            versioned.deep_view() == value.deep_view(),
            versioned is V1,
    {
        VersionedRecipeDocument::V1 {
            title: value.title,
            ingredients: value.ingredients,
            instructions: value.instructions,
            notes: value.notes,
            tag_ids: value.tag_ids,
            image_id: value.image_id,
        }
    }
}

/// A recipe document with the hash of the bytes it is stored as. The hash is
/// the token that an update has to present.
#[derive(Debug, Clone)]
pub struct HashedRecipeDocument {
    pub document: RecipeDocument,
    pub hash: String,
}

/// Why an operation of the store failed.
#[derive(Debug)]
pub enum Error {
    /// The record does not exist.
    NotFound,
    /// The record is not in the state that the operation expects: the hash
    /// presented is not that of the stored document, or the identifier is
    /// taken.
    Conflict,
    /// No worker became available.
    NoConnections,
    /// Stored bytes do not hold a document, or a document cannot be stored.
    Serialization,
    /// Anything else; the message says what.
    Unknown(String),
}

/// A request to a worker of the store.
#[derive(Debug)]
#[allow(inconsistent_fields)]
pub enum Message {
    Health,
    // users
    GetUser { id: String },
    UpsertUserByOauthId { user: RegisteringUser },
    // recipes
    GetRecipe { id: String },
    ListRecipes { filter: domain::filter::Recipe, cursor: Option<domain::page::cursor::Recipe> },
    CreateRecipe { id: String, user_id: String, recipe: RecipeDocument },
    UpdateRecipe { id: String, user_id: String, recipe: RecipeDocument, current_hash: String },
    GetRevisions { recipe_id: String },
    GetRevision { recipe_id: String, revision: usize },
    DumpRecipesForIndex { cursor: Option<domain::page::cursor::DumpedIndexableRecipe> },
    // tags
    GetTags,
    GetTagsWithStats,
    CreateTag { user_id: String, name: String },
    // images
    CreateImage { id: String },
    GetImage { id: String },
}

/// The reply of a worker to a request.
#[derive(Debug)]
pub enum Reply {
    Health(Result<(), Error>),
    User(Result<User, Error>),
    Recipe(Result<Recipe, Error>),
    Recipes(Result<domain::page::Recipe, Error>),
    Done(Result<(), Error>),
    Revisions(Result<Vec<RecipeRevision>, Error>),
    Dump(Result<domain::page::DumpedIndexableRecipe, Error>),
    Tags(Result<Vec<domain::tag::Tag>, Error>),
    TagsWithStats(Result<Vec<domain::tag::WithStats>, Error>),
    Tag(Result<domain::tag::Id, Error>),
}

/// The workers that are free to serve a request. A worker serves one request
/// at a time: whoever takes it out of the pool has it alone until it is put
/// back. Callers that share a pool hold it behind a lock of their own.
#[derive(Debug, Clone)]
pub struct Pool<T> {
    pub connections: Vec<T>,
}

impl<T> View for Pool<T> {
    type V = Seq<T>;

    open spec fn view(&self) -> Seq<T> {
        self.connections@
    }
}

/// What a caller that asks for a worker does next.
#[derive(Debug)]
pub enum Acquire<T> {
    /// It has a worker.
    Connected(T),
    /// It waits and asks again, for the attempt with the number `retries`.
    Wait { delay_ms: u64, retries: u32 },
    /// It gives up; the operation fails with `NoConnections`.
    Exhausted,
}

impl<T> Pool<T> {
    /// The pool of the given workers.
    pub fn new(connections: Vec<T>) -> (pool: Pool<T>)
        ensures
            pool@ == connections@,
    {
        Pool { connections }
    }

    /// Takes a worker out of the pool, if one is free.
    pub fn maybe_get_conn(&mut self) -> (taken: Option<T>)
        ensures
            match taken {
                Some(worker) => old(self)@.len() > 0 && worker == old(self)@.last() && final(self)@
                    == old(self)@.drop_last(),
                None => old(self)@.len() == 0 && final(self)@ == old(self)@,
            },
    {
        let taken = self.connections.pop();
        assert(self@ =~= if old(self)@.len() > 0 {
            old(self)@.drop_last()
        } else {
            old(self)@
        });
        taken
    }

    /// Puts a worker back into the pool.
    pub fn release(&mut self, worker: T)
        ensures
            final(self)@ == old(self)@.push(worker),
    {
        self.connections.push(worker);
    }

    /// One round of a caller that asks for a worker after `retries` failed
    /// attempts: it gives up if it has asked as often as the policy allows;
    /// else it takes a worker if one is free, and waits if none is.
    pub fn acquire(&mut self, policy: &backoff::Backoff, retries: u32) -> (next: Acquire<T>)
        requires
            policy.wf(),
        ensures
            match next {
                Acquire::Exhausted => retries >= policy.attempts && final(self)@ == old(self)@,
                Acquire::Connected(worker) => retries < policy.attempts && old(self)@.len() > 0
                    && worker == old(self)@.last() && final(self)@ == old(self)@.drop_last(),
                Acquire::Wait { delay_ms, retries: then } => retries < policy.attempts && old(
                    self,
                )@.len() == 0 && final(self)@ == old(self)@ && then == retries + 1
                    && backoff::delay_ms(policy.base_ms as nat, retries as nat, 0) <= delay_ms
                    < backoff::delay_ms(
                    policy.base_ms as nat,
                    retries as nat,
                    policy.jitter_ms as nat,
                ),
            },
    {
        match policy.next(retries) {
            backoff::Step::GiveUp => Acquire::Exhausted,
            backoff::Step::Attempt { retries } => match self.maybe_get_conn() {
                Some(worker) => Acquire::Connected(worker),
                None => Acquire::Wait {
                    delay_ms: policy.jittered_delay(retries),
                    retries: retries + 1,
                },
            },
        }
    }
}

/// A worker that is taken and put back leaves the pool as it was: no worker
/// is lost to a caller that returns it.
pub proof fn theorem_release_restores<T>(pool: Seq<T>)
    requires
        pool.len() > 0,
    ensures
        pool.drop_last().push(pool.last()) == pool,
{
    assert(pool.drop_last().push(pool.last()) =~= pool);
}

/// Every text of the document is a required text: the document is what
/// validation leaves of it.
pub open spec fn is_valid_document(d: DocumentText) -> bool {
    &&& is_required_text(d.title)
    &&& forall|i: int| 0 <= i < d.ingredients.len() ==> is_valid_block(#[trigger] d.ingredients[i])
    &&& forall|i: int|
        0 <= i < d.instructions.len() ==> is_valid_block(#[trigger] d.instructions[i])
    &&& d.notes matches Some(notes) ==> is_required_text(notes)
}

/// A document of required texts is accepted as it is.
pub proof fn lemma_valid_document(d: DocumentText)
    requires
        is_valid_document(d),
    ensures
        document_rejection(d) is None,
        trimmed(d.title) == d.title,
        trimmed_blocks(d.ingredients) == d.ingredients,
        trimmed_blocks(d.instructions) == d.instructions,
        trimmed_notes(d.notes) == d.notes,
{
    lemma_required_text_is_trimmed(d.title);
    lemma_valid_blocks(d.ingredients);
    lemma_valid_blocks(d.instructions);
    if d.notes is Some {
        lemma_required_text_is_trimmed(d.notes->0);
    }
}

} // verus!
