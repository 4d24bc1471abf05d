//! Recipes on their way from a validated request into the store.

use vstd::prelude::*;
use vstd::string::*;
use crate::application::Error;
use crate::datastore;
use crate::datastore::envelope::value_of;
use crate::datastore::{notes_text, RecipeDocument};
use crate::domain::recipe::{IngredientBlock, InstructionBlock, StringifiedBlock};
use crate::domain::{recipe, CreatingRecipe, UpdatingRecipe};
use crate::text::concat3;

verus! {

/// The plain blocks of blocks of ingredients.
pub fn plain_ingredients(blocks: Vec<IngredientBlock>) -> (plain: Vec<StringifiedBlock>)
    ensures
        plain.deep_view() == blocks.deep_view(),
{
    let ghost texts = blocks.deep_view();
    let mut blocks = blocks;
    let mut plain: Vec<StringifiedBlock> = Vec::new();
    while blocks.len() > 0
        invariant
            plain.len() + blocks.len() == texts.len(),
            forall|i: int| 0 <= i < blocks.len() ==> (#[trigger] blocks[i]).deep_view() == texts[i],
            forall|i: int|
                0 <= i < plain.len() ==> (#[trigger] plain[i]).deep_view() == texts[texts.len() - 1
                    - i],
        decreases blocks.len(),
    {
        match blocks.pop() {
            Some(block) => {
                plain.push(StringifiedBlock::from_ingredient_block(block));
            },
            None => {},
        }
    }
    let mut ordered: Vec<StringifiedBlock> = Vec::new();
    while plain.len() > 0
        invariant
            ordered.len() + plain.len() == texts.len(),
            forall|i: int|
                0 <= i < plain.len() ==> (#[trigger] plain[i]).deep_view() == texts[texts.len() - 1
                    - i],
            forall|i: int| 0 <= i < ordered.len() ==> (#[trigger] ordered[i]).deep_view() == texts[i],
        decreases plain.len(),
    {
        match plain.pop() {
            Some(block) => {
                ordered.push(block);
            },
            None => {},
        }
    }
    assert(ordered.deep_view() =~= texts);
    ordered
}

/// The plain blocks of blocks of instructions.
pub fn plain_instructions(blocks: Vec<InstructionBlock>) -> (plain: Vec<StringifiedBlock>)
    ensures
        plain.deep_view() == blocks.deep_view(),
{
    let ghost texts = blocks.deep_view();
    let mut blocks = blocks;
    let mut plain: Vec<StringifiedBlock> = Vec::new();
    while blocks.len() > 0
        invariant
            plain.len() + blocks.len() == texts.len(),
            forall|i: int| 0 <= i < blocks.len() ==> (#[trigger] blocks[i]).deep_view() == texts[i],
            forall|i: int|
                0 <= i < plain.len() ==> (#[trigger] plain[i]).deep_view() == texts[texts.len() - 1
                    - i],
        decreases blocks.len(),
    {
        match blocks.pop() {
            Some(block) => {
                plain.push(StringifiedBlock::from_instruction_block(block));
            },
            None => {},
        }
    }
    let mut ordered: Vec<StringifiedBlock> = Vec::new();
    while plain.len() > 0
        invariant
            ordered.len() + plain.len() == texts.len(),
            forall|i: int|
                0 <= i < plain.len() ==> (#[trigger] plain[i]).deep_view() == texts[texts.len() - 1
                    - i],
            forall|i: int| 0 <= i < ordered.len() ==> (#[trigger] ordered[i]).deep_view() == texts[i],
        decreases plain.len(),
    {
        match plain.pop() {
            Some(block) => {
                ordered.push(block);
            },
            None => {},
        }
    }
    assert(ordered.deep_view() =~= texts);
    ordered
}

/// The document of a recipe that is about to be created: the texts of the
/// recipe as they were validated.
pub fn document_of_creating(recipe: CreatingRecipe) -> (document: RecipeDocument)
    ensures
        document.title@ == recipe.title@,
        document.ingredients.deep_view() == recipe.ingredients.deep_view(),
        document.instructions.deep_view() == recipe.instructions.deep_view(),
        document.deep_view().notes == notes_text(recipe.notes),
        document.tag_ids.deep_view() == recipe.tag_ids.deep_view(),
        document.deep_view().image_id == value_of(recipe.image_id),
{
    RecipeDocument {
        title: recipe.title.into_string(),
        image_id: recipe.image_id,
        instructions: plain_instructions(recipe.instructions),
        ingredients: plain_ingredients(recipe.ingredients),
        notes: match recipe.notes {
            Some(notes) => Some(notes.into_string()),
            None => None,
        },
        tag_ids: recipe.tag_ids,
    }
}

/// The document of a recipe that is about to be updated: the texts of the
/// recipe as they were validated.
pub fn document_of_updating(recipe: UpdatingRecipe) -> (document: RecipeDocument)
    ensures
        document.title@ == recipe.title@,
        document.ingredients.deep_view() == recipe.ingredients.deep_view(),
        document.instructions.deep_view() == recipe.instructions.deep_view(),
        document.deep_view().notes == notes_text(recipe.notes),
        document.tag_ids.deep_view() == recipe.tag_ids.deep_view(),
        document.deep_view().image_id == value_of(recipe.image_id),
{
    RecipeDocument {
        title: recipe.title.into_string(),
        image_id: recipe.image_id,
        instructions: plain_instructions(recipe.instructions),
        ingredients: plain_ingredients(recipe.ingredients),
        notes: match recipe.notes {
            Some(notes) => Some(notes.into_string()),
            None => None,
        },
        tag_ids: recipe.tag_ids,
    }
}

/// What is said of a failure of the store.
pub open spec fn store_message(error: datastore::Error) -> Seq<char> {
    match error {
        datastore::Error::NotFound => "record not found"@,
        datastore::Error::Conflict => "invalid state when mutating record"@,
        datastore::Error::NoConnections => "no available connections"@,
        datastore::Error::Serialization => "a stored document cannot be read"@,
        datastore::Error::Unknown(told) => told@,
    }
}

/// The error that the application reports when the store fails and the
/// failure is one of the server: it says how the store failed.
pub fn store_error(error: datastore::Error) -> (reported: Error)
    ensures
        reported matches Error::Other(message) && message@ == store_message(error),
{
    match error {
        datastore::Error::NotFound => Error::Other(String::from_str("record not found")),
        datastore::Error::Conflict => Error::Other(
            String::from_str("invalid state when mutating record"),
        ),
        datastore::Error::NoConnections => Error::Other(String::from_str("no available connections")),
        datastore::Error::Serialization => Error::Other(
            String::from_str("a stored document cannot be read"),
        ),
        datastore::Error::Unknown(message) => Error::Other(message),
    }
}

/// The message that a missing recipe is reported with.
pub open spec fn missing_recipe(id: recipe::Id) -> Seq<char> {
    "recipe "@ + crate::domain::id::ulid_text(id@) + " does not exist"@
}

/// The error that the application reports when the store fails on the recipe
/// `id`: a recipe that is not found is reported by name, and nothing else of
/// the store is told.
pub fn recipe_error(error: datastore::Error, id: &recipe::Id) -> (reported: Error)
    ensures
        match error {
            datastore::Error::NotFound => reported matches Error::NotFound(message) && message@
                == missing_recipe(*id),
            _ => reported matches Error::Other(message) && message@ == store_message(error),
        },
{
    match error {
        datastore::Error::NotFound => Error::NotFound(
            concat3("recipe ", id.to_string().as_str(), " does not exist"),
        ),
        other => store_error(other),
    }
}

} // verus!
