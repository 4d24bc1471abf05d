//! Recipes as requests and replies carry them.

use vstd::prelude::*;
use vstd::string::*;
use crate::application::Error;
use crate::datastore::envelope::text_of;
use crate::application::recipe::{plain_ingredients, plain_instructions};
use crate::datastore::wire::{lemma_has_at_split, lemma_parse_text, parse_text, read_text, text, write_text};
use crate::domain;
use crate::datastore::envelope::value_of;
use crate::datastore::{notes_text, trimmed_notes};
use crate::domain::id::{id_rejection, ulid_value};
use crate::domain::recipe::{
    blocks_rejection, is_blank, trimmed_blocks, validate_ingredient_blocks,
    validate_instruction_blocks, Notes, Title,
};
use crate::domain::{CreatingRecipe, UpdatingRecipe};
use crate::text::trimmed;
use crate::domain::page::cursor;
use crate::sqlite::recipe::same_bytes;
use crate::text::{base64_url, base64_url_decode, base64_url_decoded, base64_url_encode, pieces, split};
use crate::domain::recipe::{
    block_rejection, rejected_text, trimmed_block, BlockText, IngredientBlock, InstructionBlock,
    StringifiedBlock,
};

verus! {

/// The parameters of the request that creates a recipe.
pub struct CreateParams {
    pub title: String,
    pub image_id: Option<String>,
    pub ingredients: Vec<Ingredients>,
    pub instructions: Vec<Instructions>,
    pub notes: Option<String>,
    pub tag_ids: Vec<domain::tag::Id>,
}

/// A recipe in a reply.
pub struct Recipe {
    pub id: String,
    pub hash: String,
    pub title: String,
    pub image_id: Option<String>,
    pub ingredient_blocks: Vec<Ingredients>,
    pub instruction_blocks: Vec<Instructions>,
    pub notes: Option<String>,
    pub tags: Vec<AttachedTag>,
}

/// A tag on a recipe in a reply.
pub struct AttachedTag {
    pub id: String,
    pub name: String,
}

/// A recipe in a listing.
pub struct Listed {
    pub id: String,
    pub title: String,
    pub image_id: Option<String>,
}

/// A page of a listing, with the cursor to go on from.
pub struct Page {
    pub data: Vec<Listed>,
    pub next: Option<String>,
}

/// A block of instructions in a request or a reply.
pub struct Instructions {
    pub title: Option<String>,
    pub instructions: Vec<String>,
}

/// A block of ingredients in a request or a reply.
pub struct Ingredients {
    pub title: Option<String>,
    pub ingredients: Vec<String>,
}

/// The parameters of the request that lists recipes.
pub struct ListParams {
    pub next: Option<String>,
    pub title: Option<String>,
    pub tag_ids: Option<String>,
}

/// The parameters of the request that updates a recipe.
pub struct UpdateParams {
    pub previous_hash: String,
    pub title: String,
    pub image_id: Option<String>,
    pub ingredients: Vec<Ingredients>,
    pub instructions: Vec<Instructions>,
    pub notes: Option<String>,
    pub tag_ids: Vec<domain::tag::Id>,
}

impl DeepView for Instructions {
    type V = BlockText;

    open spec fn deep_view(&self) -> BlockText {
        BlockText { title: text_of(self.title), items: self.instructions.deep_view() }
    }
}

impl DeepView for Ingredients {
    type V = BlockText;

    open spec fn deep_view(&self) -> BlockText {
        BlockText { title: text_of(self.title), items: self.ingredients.deep_view() }
    }
}

/// Validates a block of instructions of a request: the heading, if there is
/// one, and every instruction are trimmed, and the first of them that is
/// blank, heading first, rejects the block.
pub fn parse_instructions(block: Instructions) -> (parsed: Result<InstructionBlock, Error>)
    ensures
        match parsed {
            Ok(valid) => rejected_text(block.deep_view()) is None && valid.deep_view()
                == trimmed_block(block.deep_view()),
            Err(Error::DomainValidation(domain::ValidationError::Constraint(message))) =>
                rejected_text(block.deep_view()) matches Some(text) && message@ == block_rejection(
                    text,
                ),
            Err(_) => false,
        },
{
    let plain = StringifiedBlock { title: block.title, items: block.instructions };
    match InstructionBlock::try_from(plain) {
        Ok(valid) => Ok(valid),
        Err(error) => Err(Error::DomainValidation(error)),
    }
}

/// Validates a block of ingredients of a request: the heading, if there is
/// one, and every ingredient are trimmed, and the first of them that is
/// blank, heading first, rejects the block.
pub fn parse_ingredients(block: Ingredients) -> (parsed: Result<IngredientBlock, Error>)
    ensures
        match parsed {
            Ok(valid) => rejected_text(block.deep_view()) is None && valid.deep_view()
                == trimmed_block(block.deep_view()),
            Err(Error::DomainValidation(domain::ValidationError::Constraint(message))) =>
                rejected_text(block.deep_view()) matches Some(text) && message@ == block_rejection(
                    text,
                ),
            Err(_) => false,
        },
{
    let plain = StringifiedBlock { title: block.title, items: block.ingredients };
    match IngredientBlock::try_from(plain) {
        Ok(valid) => Ok(valid),
        Err(error) => Err(Error::DomainValidation(error)),
    }
}

/// A block of ingredients as a reply carries it.
pub fn ingredients_reply(block: IngredientBlock) -> (reply: Ingredients)
    ensures
        reply.deep_view() == block.deep_view(),
{
    let plain = StringifiedBlock::from_ingredient_block(block);
    Ingredients { title: plain.title, ingredients: plain.items }
}

/// A block of instructions as a reply carries it.
pub fn instructions_reply(block: InstructionBlock) -> (reply: Instructions)
    ensures
        reply.deep_view() == block.deep_view(),
{
    let plain = StringifiedBlock::from_instruction_block(block);
    Instructions { title: plain.title, instructions: plain.items }
}

/// `reply` carries the listed recipe `item`: its identifier and that of its
/// image as texts, and its title.
pub open spec fn carries(reply: Listed, item: domain::ListedRecipe) -> bool {
    &&& reply.id@ == domain::id::ulid_text(item.id@)
    &&& reply.title@ == item.title@
    &&& text_of(reply.image_id) == match item.image_id {
        Some(id) => Some(domain::id::ulid_text(id@)),
        None => None,
    }
}

/// A listed recipe as a reply carries it.
pub fn listed_reply(item: domain::ListedRecipe) -> (reply: Listed)
    ensures
        carries(reply, item),
{
    Listed {
        id: item.id.to_string(),
        title: item.title.into_string(),
        image_id: match item.image_id {
            Some(id) => Some(id.to_string()),
            None => None,
        },
    }
}

/// The identifiers among the pieces of a list: every piece that is the text
/// of an identifier, in the order of the list. What is no identifier is left
/// out.
pub open spec fn identifiers(parts: Seq<Seq<char>>) -> Seq<u128>
    decreases parts.len(),
{
    if parts.len() == 0 {
        Seq::empty()
    } else {
        let before = identifiers(parts.drop_last());
        match ulid_value(parts.last()) {
            Some(value) => before.push(value),
            None => before,
        }
    }
}

/// The tags that a request lists, separated by commas. What is no identifier
/// is left out.
pub fn parse_tag_ids(tag_ids: &str) -> (ids: Vec<domain::tag::Id>)
    ensures
        ids.deep_view() == identifiers(pieces(tag_ids@, ',')),
{
    let parts = split(tag_ids, ',');
    let ghost texts = parts.deep_view();
    let mut ids: Vec<domain::tag::Id> = Vec::new();
    let mut i: usize = 0;
    assert(texts.take(0) =~= Seq::empty());
    assert(ids.deep_view() =~= identifiers(texts.take(0)));
    while i < parts.len()
        invariant
            i <= parts.len(),
            texts == parts.deep_view(),
            ids.deep_view() == identifiers(texts.take(i as int)),
        decreases parts.len() - i,
    {
        let ghost before = ids.deep_view();
        assert(texts.take(i + 1).drop_last() =~= texts.take(i as int));
        assert(texts.take(i + 1).last() == parts[i as int]@);
        match domain::tag::Id::try_from(parts[i].as_str()) {
            Ok(id) => {
                ids.push(id);
                assert(ids.deep_view() =~= before.push(id@));
            },
            Err(_) => {},
        }
        i += 1;
    }
    assert(texts.take(i as int) =~= texts);
    ids
}

/// What a listing is filtered by: the title that a request asks for, and the
/// tags that it lists.
pub fn filter_of(title: Option<String>, tag_ids: Option<String>) -> (filter: domain::filter::Recipe)
    ensures
        text_of(filter.name) == text_of(title),
        filter.tag_ids.deep_view() == match tag_ids {
            Some(list) => identifiers(pieces(list@, ',')),
            None => Seq::empty(),
        },
{
    let ids = match tag_ids {
        Some(list) => parse_tag_ids(list.as_str()),
        None => {
            let none: Vec<domain::tag::Id> = Vec::new();
            assert(none.deep_view() =~= Seq::<u128>::empty());
            none
        },
    };
    domain::filter::Recipe { name: title, tag_ids: ids }
}

/// The bytes of a cursor: its identifier and its name, as texts.
pub open spec fn cursor_bytes(id: Seq<char>, name: Seq<char>) -> Seq<u8> {
    text(id) + text(name)
}

/// The cursor that bytes hold: an identifier and a name, and nothing else.
pub open spec fn parse_cursor(s: Seq<u8>) -> Option<(Seq<char>, Seq<char>)> {
    match parse_text(s, 0) {
        Some((id, after_id)) => match parse_text(s, after_id) {
            Some((name, end)) => if end == s.len() {
                Some((id, name))
            } else {
                None
            },
            None => None,
        },
        None => None,
    }
}

/// The cursor that a text stands for: the text is the base-64 form of the
/// bytes of a cursor.
pub open spec fn cursor_of(encoded: Seq<char>) -> Option<(Seq<char>, Seq<char>)> {
    match base64_url_decoded(encoded) {
        Some(bytes) => parse_cursor(bytes),
        None => None,
    }
}

/// The most bytes of a cursor that is handed out.
pub const MAX_CURSOR_BYTES: usize = 0x1000_0000;

/// The text that is handed out for a cursor: the base-64 form of its bytes,
/// if they are at most 256 mebibytes and the text reads back as them.
pub open spec fn cursor_text(id: Seq<char>, name: Seq<char>) -> Option<Seq<char>> {
    let bytes = cursor_bytes(id, name);
    if bytes.len() <= MAX_CURSOR_BYTES && base64_url_decoded(base64_url(bytes)) == Some(bytes) {
        Some(base64_url(bytes))
    } else {
        None
    }
}

/// The text that stands for a cursor. The text is read back before it is
/// handed out: what comes back does stand for the cursor. Fails exactly for
/// a cursor of more than 256 mebibytes, or if the text does not read back.
pub fn encode_cursor(cursor: &cursor::Recipe) -> (encoded: Result<String, Error>)
    ensures
        match encoded {
            Ok(text) => cursor_text(cursor.id@, cursor.name@) == Some(text@) && cursor_of(text@)
                == Some((cursor.id@, cursor.name@)),
            Err(error) => error is Other && cursor_text(cursor.id@, cursor.name@) is None,
        },
{
    let mut bytes: Vec<u8> = Vec::new();
    write_text(&mut bytes, cursor.id.as_str());
    write_text(&mut bytes, cursor.name.as_str());
    proof {
        let s = bytes@;
        assert(s =~= cursor_bytes(cursor.id@, cursor.name@));
        assert(s.subrange(0, s.len() as int) =~= s);
        lemma_has_at_split(s, 0, text(cursor.id@), text(cursor.name@));
        lemma_parse_text(s, 0, cursor.id@);
        lemma_parse_text(s, text(cursor.id@).len() as int, cursor.name@);
    }
    if bytes.len() > MAX_CURSOR_BYTES {
        return Err(Error::Other(String::from_str("the cursor is too long")));
    }
    let encoded = base64_url_encode(bytes.as_slice());
    match base64_url_decode(encoded.as_str()) {
        Some(decoded) => {
            if same_bytes(decoded.as_slice(), bytes.as_slice()) {
                Ok(encoded)
            } else {
                Err(Error::Other(String::from_str("the cursor does not read back")))
            }
        },
        None => Err(Error::Other(String::from_str("the cursor does not read back"))),
    }
}

/// The cursor that a text stands for. Fails exactly if the text stands for
/// none.
pub fn decode_cursor(encoded: &str) -> (decoded: Result<cursor::Recipe, Error>)
    ensures
        match decoded {
            Ok(cursor) => cursor_of(encoded@) == Some((cursor.id@, cursor.name@)),
            Err(error) => error is Other && cursor_of(encoded@) is None,
        },
{
    let bytes = match base64_url_decode(encoded) {
        Some(bytes) => bytes,
        None => {
            return Err(Error::Other(String::from_str("the cursor is not base 64")));
        },
    };
    let (id, after_id) = match read_text(bytes.as_slice(), 0) {
        Some(read) => read,
        None => {
            return Err(Error::Other(String::from_str("the cursor holds no identifier")));
        },
    };
    let (name, end) = match read_text(bytes.as_slice(), after_id) {
        Some(read) => read,
        None => {
            return Err(Error::Other(String::from_str("the cursor holds no name")));
        },
    };
    if end != bytes.len() {
        return Err(Error::Other(String::from_str("the cursor holds more than a position")));
    }
    Ok(cursor::Recipe { id, name })
}

/// A recipe as a reply carries it.
pub fn recipe_reply(recipe: domain::Recipe) -> (reply: Recipe)
    ensures
        reply.id@ == domain::id::ulid_text(recipe.id@),
        reply.hash@ == recipe.hash@,
        reply.title@ == recipe.title@,
        text_of(reply.image_id) == match recipe.image_id {
            Some(id) => Some(domain::id::ulid_text(id@)),
            None => None,
        },
        reply.ingredient_blocks.deep_view() == recipe.ingredients.deep_view(),
        reply.instruction_blocks.deep_view() == recipe.instructions.deep_view(),
        text_of(reply.notes) == notes_text(recipe.notes),
        reply.tags.len() == recipe.tags.len(),
        forall|i: int|
            0 <= i < reply.tags.len() ==> (#[trigger] reply.tags[i]).id@ == domain::id::ulid_text(
                recipe.tags[i].id@,
            ) && reply.tags[i].name@ == recipe.tags[i].name@,
{
    let ingredient_blocks = plain_ingredients(recipe.ingredients);
    let instruction_blocks = plain_instructions(recipe.instructions);
    let mut ingredients: Vec<Ingredients> = Vec::new();
    let mut i: usize = 0;
    while i < ingredient_blocks.len()
        invariant
            i <= ingredient_blocks.len(),
            ingredients.len() == i,
            forall|j: int|
                0 <= j < i ==> (#[trigger] ingredients[j]).deep_view()
                    == ingredient_blocks[j].deep_view(),
        decreases ingredient_blocks.len() - i,
    {
        let block = ingredient_blocks[i].duplicate();
        ingredients.push(Ingredients { title: block.title, ingredients: block.items });
        i += 1;
    }
    assert(ingredients.deep_view() =~= ingredient_blocks.deep_view());
    let mut instructions: Vec<Instructions> = Vec::new();
    let mut k: usize = 0;
    while k < instruction_blocks.len()
        invariant
            k <= instruction_blocks.len(),
            instructions.len() == k,
            forall|j: int|
                0 <= j < k ==> (#[trigger] instructions[j]).deep_view()
                    == instruction_blocks[j].deep_view(),
        decreases instruction_blocks.len() - k,
    {
        let block = instruction_blocks[k].duplicate();
        instructions.push(Instructions { title: block.title, instructions: block.items });
        k += 1;
    }
    assert(instructions.deep_view() =~= instruction_blocks.deep_view());
    let mut tags: Vec<AttachedTag> = Vec::new();
    let mut t: usize = 0;
    while t < recipe.tags.len()
        invariant
            t <= recipe.tags.len(),
            tags.len() == t,
            forall|j: int|
                0 <= j < t ==> (#[trigger] tags[j]).id@ == domain::id::ulid_text(
                    recipe.tags[j].id@,
                ) && tags[j].name@ == recipe.tags[j].name@,
        decreases recipe.tags.len() - t,
    {
        tags.push(
            AttachedTag {
                id: recipe.tags[t].id.to_string(),
                name: String::from_str(recipe.tags[t].name.as_str()),
            },
        );
        t += 1;
    }
    Recipe {
        id: recipe.id.to_string(),
        hash: recipe.hash,
        title: recipe.title.into_string(),
        image_id: match recipe.image_id {
            Some(id) => Some(id.to_string()),
            None => None,
        },
        ingredient_blocks: ingredients,
        instruction_blocks: instructions,
        notes: match recipe.notes {
            Some(notes) => Some(notes.into_string()),
            None => None,
        },
        tags,
    }
}


/// The plain blocks of the blocks of ingredients of a request.
pub fn plain_ingredients_of(blocks: &Vec<Ingredients>) -> (plain: Vec<StringifiedBlock>)
    ensures
        plain.deep_view() == blocks.deep_view(),
{
    let mut plain: Vec<StringifiedBlock> = Vec::new();
    let mut i: usize = 0;
    while i < blocks.len()
        invariant
            i <= blocks.len(),
            plain.len() == i,
            forall|j: int| 0 <= j < i ==> (#[trigger] plain[j]).deep_view() == blocks[j].deep_view(),
        decreases blocks.len() - i,
    {
        let block = &blocks[i];
        let mut items: Vec<String> = Vec::new();
        let mut k: usize = 0;
        while k < block.ingredients.len()
            invariant
                k <= block.ingredients.len(),
                items.len() == k,
                forall|j: int| 0 <= j < k ==> (#[trigger] items[j])@ == block.ingredients[j]@,
            decreases block.ingredients.len() - k,
        {
            items.push(block.ingredients[k].clone());
            k += 1;
        }
        let title = match &block.title {
            Some(title) => Some(title.clone()),
            None => None,
        };
        let copy = StringifiedBlock { title, items };
        assert(copy.deep_view().items =~= block.deep_view().items);
        plain.push(copy);
        i += 1;
    }
    assert(plain.deep_view() =~= blocks.deep_view());
    plain
}

/// The plain blocks of the blocks of instructions of a request.
pub fn plain_instructions_of(blocks: &Vec<Instructions>) -> (plain: Vec<StringifiedBlock>)
    ensures
        plain.deep_view() == blocks.deep_view(),
{
    let mut plain: Vec<StringifiedBlock> = Vec::new();
    let mut i: usize = 0;
    while i < blocks.len()
        invariant
            i <= blocks.len(),
            plain.len() == i,
            forall|j: int| 0 <= j < i ==> (#[trigger] plain[j]).deep_view() == blocks[j].deep_view(),
        decreases blocks.len() - i,
    {
        let block = &blocks[i];
        let mut items: Vec<String> = Vec::new();
        let mut k: usize = 0;
        while k < block.instructions.len()
            invariant
                k <= block.instructions.len(),
                items.len() == k,
                forall|j: int| 0 <= j < k ==> (#[trigger] items[j])@ == block.instructions[j]@,
            decreases block.instructions.len() - k,
        {
            items.push(block.instructions[k].clone());
            k += 1;
        }
        let title = match &block.title {
            Some(title) => Some(title.clone()),
            None => None,
        };
        let copy = StringifiedBlock { title, items };
        assert(copy.deep_view().items =~= block.deep_view().items);
        plain.push(copy);
        i += 1;
    }
    assert(plain.deep_view() =~= blocks.deep_view());
    plain
}

/// The message that rejects the recipe of a request: that of the first of its
/// title, the identifier of its image, its blocks of ingredients, its blocks
/// of instructions and its notes that is rejected; `None` if the recipe is
/// valid.
pub open spec fn request_rejection(
    title: Seq<char>,
    image_id: Option<Seq<char>>,
    ingredients: Seq<BlockText>,
    instructions: Seq<BlockText>,
    notes: Option<Seq<char>>,
) -> Option<Seq<char>> {
    if is_blank(title) {
        Some(Title::rejection(title))
    } else if image_id is Some && ulid_value(image_id->0) is None {
        Some(id_rejection(image_id->0))
    } else if blocks_rejection(ingredients) is Some {
        blocks_rejection(ingredients)
    } else if blocks_rejection(instructions) is Some {
        blocks_rejection(instructions)
    } else if notes is Some && is_blank(notes->0) {
        Some(Notes::rejection(notes->0))
    } else {
        None
    }
}

/// The message of a validation error.
pub open spec fn message_of(error: domain::ValidationError) -> Seq<char> {
    match error {
        domain::ValidationError::Constraint(message) => message@,
        domain::ValidationError::Format(message) => message@,
    }
}

/// The value of the identifier that an optional text stands for.
pub open spec fn image_of(image_id: Option<String>) -> Option<u128> {
    match image_id {
        Some(text) => ulid_value(text@),
        None => None,
    }
}

/// The validated texts of the recipe of a request.
pub struct ValidRecipe {
    pub title: Title,
    pub image_id: Option<domain::image::Id>,
    pub ingredients: Vec<IngredientBlock>,
    pub instructions: Vec<InstructionBlock>,
    pub notes: Option<Notes>,
}

/// Validates the recipe of a request: every text is trimmed, the identifier
/// of the image is read, and the first of them that is rejected rejects the
/// recipe.
pub fn validate(
    title: String,
    image_id: Option<String>,
    ingredients: &Vec<Ingredients>,
    instructions: &Vec<Instructions>,
    notes: Option<String>,
) -> (valid: Result<ValidRecipe, Error>)
    ensures
        match valid {
            Ok(recipe) => {
                &&& request_rejection(
                    title@,
                    text_of(image_id),
                    ingredients.deep_view(),
                    instructions.deep_view(),
                    text_of(notes),
                ) is None
                &&& recipe.title@ == trimmed(title@)
                &&& value_of(recipe.image_id) == image_of(image_id)
                &&& recipe.ingredients.deep_view() == trimmed_blocks(ingredients.deep_view())
                &&& recipe.instructions.deep_view() == trimmed_blocks(instructions.deep_view())
                &&& notes_text(recipe.notes) == trimmed_notes(text_of(notes))
            },
            Err(Error::DomainValidation(error)) => request_rejection(
                title@,
                text_of(image_id),
                ingredients.deep_view(),
                instructions.deep_view(),
                text_of(notes),
            ) == Some(message_of(error)),
            Err(_) => false,
        },
{
    let title = match Title::try_from(title) {
        Ok(title) => title,
        Err(error) => {
            return Err(Error::DomainValidation(error));
        },
    };
    let image_id = match image_id {
        None => None,
        Some(text) => match domain::image::Id::try_from(text.as_str()) {
            Ok(id) => Some(id),
            Err(error) => {
                return Err(Error::DomainValidation(error));
            },
        },
    };
    let ingredients = match validate_ingredient_blocks(&plain_ingredients_of(ingredients)) {
        Ok(blocks) => blocks,
        Err(error) => {
            return Err(Error::DomainValidation(error));
        },
    };
    let instructions = match validate_instruction_blocks(&plain_instructions_of(instructions)) {
        Ok(blocks) => blocks,
        Err(error) => {
            return Err(Error::DomainValidation(error));
        },
    };
    let notes = match notes {
        None => None,
        Some(text) => match Notes::try_from(text) {
            Ok(notes) => Some(notes),
            Err(error) => {
                return Err(Error::DomainValidation(error));
            },
        },
    };
    Ok(ValidRecipe { title, image_id, ingredients, instructions, notes })
}

/// The recipe that a request asks to create. Fails exactly if the recipe of
/// the request is rejected.
pub fn creating_recipe(request: CreateParams) -> (creating: Result<CreatingRecipe, Error>)
    ensures
        match creating {
            Ok(recipe) => {
                &&& request_rejection(
                    request.title@,
                    text_of(request.image_id),
                    request.ingredients.deep_view(),
                    request.instructions.deep_view(),
                    text_of(request.notes),
                ) is None
                &&& recipe.title@ == trimmed(request.title@)
                &&& value_of(recipe.image_id) == image_of(request.image_id)
                &&& recipe.ingredients.deep_view() == trimmed_blocks(
                    request.ingredients.deep_view(),
                )
                &&& recipe.instructions.deep_view() == trimmed_blocks(
                    request.instructions.deep_view(),
                )
                &&& notes_text(recipe.notes) == trimmed_notes(text_of(request.notes))
                &&& recipe.tag_ids.deep_view() == request.tag_ids.deep_view()
            },
            Err(Error::DomainValidation(error)) => request_rejection(
                request.title@,
                text_of(request.image_id),
                request.ingredients.deep_view(),
                request.instructions.deep_view(),
                text_of(request.notes),
            ) == Some(message_of(error)),
            Err(_) => false,
        },
{
    match validate(
        request.title,
        request.image_id,
        &request.ingredients,
        &request.instructions,
        request.notes,
    ) {
        Ok(valid) => Ok(
            CreatingRecipe {
                title: valid.title,
                image_id: valid.image_id,
                ingredients: valid.ingredients,
                instructions: valid.instructions,
                notes: valid.notes,
                tag_ids: request.tag_ids,
            },
        ),
        Err(error) => Err(error),
    }
}

/// The recipe that a request asks to put in the place of the recipe `id`.
/// Fails exactly if the recipe of the request is rejected.
pub fn updating_recipe(id: domain::recipe::Id, request: UpdateParams) -> (updating: Result<
    UpdatingRecipe,
    Error,
>)
    ensures
        match updating {
            Ok(recipe) => {
                &&& request_rejection(
                    request.title@,
                    text_of(request.image_id),
                    request.ingredients.deep_view(),
                    request.instructions.deep_view(),
                    text_of(request.notes),
                ) is None
                &&& recipe.id == id
                &&& recipe.previous_hash@ == request.previous_hash@
                &&& recipe.title@ == trimmed(request.title@)
                &&& value_of(recipe.image_id) == image_of(request.image_id)
                &&& recipe.ingredients.deep_view() == trimmed_blocks(
                    request.ingredients.deep_view(),
                )
                &&& recipe.instructions.deep_view() == trimmed_blocks(
                    request.instructions.deep_view(),
                )
                &&& notes_text(recipe.notes) == trimmed_notes(text_of(request.notes))
                &&& recipe.tag_ids.deep_view() == request.tag_ids.deep_view()
            },
            Err(Error::DomainValidation(error)) => request_rejection(
                request.title@,
                text_of(request.image_id),
                request.ingredients.deep_view(),
                request.instructions.deep_view(),
                text_of(request.notes),
            ) == Some(message_of(error)),
            Err(_) => false,
        },
{
    match validate(
        request.title,
        request.image_id,
        &request.ingredients,
        &request.instructions,
        request.notes,
    ) {
        Ok(valid) => Ok(
            UpdatingRecipe {
                id,
                previous_hash: request.previous_hash,
                title: valid.title,
                image_id: valid.image_id,
                ingredients: valid.ingredients,
                instructions: valid.instructions,
                notes: valid.notes,
                tag_ids: request.tag_ids,
            },
        ),
        Err(error) => Err(error),
    }
}

/// A page of a listing as a reply carries it: the recipes as texts, and the
/// cursor of the page, if it has one, as the text that stands for it. Fails
/// exactly if the page has a cursor for which no text is handed out.
pub fn page_reply(page: domain::page::Recipe) -> (reply: Result<Page, Error>)
    ensures
        match reply {
            Ok(sent) => {
                &&& sent.data.len() == page.items.len()
                &&& forall|i: int|
                    0 <= i < sent.data.len() ==> carries(#[trigger] sent.data[i], page.items[i])
                &&& sent.next is Some <==> page.next is Some
                &&& sent.next matches Some(text) ==> cursor_text(
                    page.next->0.id@,
                    page.next->0.name@,
                ) == Some(text@) && cursor_of(text@) == Some(
                    (page.next->0.id@, page.next->0.name@),
                )
            },
            Err(error) => {
                &&& error is Other
                &&& page.next is Some
                &&& cursor_text(page.next->0.id@, page.next->0.name@) is None
            },
        },
{
    let next = match &page.next {
        Some(cursor) => match encode_cursor(cursor) {
            Ok(text) => Some(text),
            Err(error) => {
                return Err(error);
            },
        },
        None => None,
    };
    let mut data: Vec<Listed> = Vec::new();
    let mut i: usize = 0;
    while i < page.items.len()
        invariant
            i <= page.items.len(),
            data.len() == i,
            forall|j: int| 0 <= j < i ==> carries(#[trigger] data[j], page.items[j]),
        decreases page.items.len() - i,
    {
        let item = &page.items[i];
        data.push(
            Listed {
                id: item.id.to_string(),
                title: String::from_str(item.title.as_str()),
                image_id: match item.image_id {
                    Some(id) => Some(id.to_string()),
                    None => None,
                },
            },
        );
        i += 1;
    }
    Ok(Page { data, next })
}

} // verus!
