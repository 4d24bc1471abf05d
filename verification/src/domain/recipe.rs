//! Validated recipe texts and the blocks built from them.

use vstd::prelude::*;
use vstd::string::*;
use crate::domain::ValidationError;
use crate::text::{concat3, copy_str, trim, trimmed};

pub use super::id::Id;

verus! {

/// Nothing is left of `value` once it is trimmed.
pub open spec fn is_blank(value: Seq<char>) -> bool {
    trimmed(value).len() == 0
}

/// A text that a validated type accepts: not empty, and neither starting nor
/// ending in white space.
pub open spec fn is_required_text(text: Seq<char>) -> bool {
    &&& text.len() >= 1
    &&& !crate::text::is_whitespace(text[0])
    &&& !crate::text::is_whitespace(text.last())
}

/// Trimming leaves a required text as it is.
pub proof fn lemma_required_text_is_trimmed(text: Seq<char>)
    requires
        is_required_text(text),
    ensures
        trimmed(text) == text,
{
    assert(crate::text::leading_whitespace(text) == 0);
    assert(crate::text::trailing_whitespace(text) == 0);
    assert(text.subrange(0, text.len() as int) =~= text);
}

/// Trims `value` and rejects it with `prefix + value + suffix` if nothing is
/// left.
pub(crate) fn required_trimmed(value: String, prefix: &str, suffix: &str) -> (accepted: Result<
    String,
    ValidationError,
>)
    ensures
        is_blank(value@) <==> accepted is Err,
        match accepted {
            Ok(text) => text@ == trimmed(value@) && is_required_text(text@),
            Err(ValidationError::Constraint(message)) => message@ == prefix@ + value@ + suffix@,
            Err(ValidationError::Format(_)) => false,
        },
{
    let kept = trim(value.as_str());
    if kept.is_empty() {
        Err(ValidationError::Constraint(concat3(prefix, value.as_str(), suffix)))
    } else {
        Ok(String::from_str(kept))
    }
}

/// The title of a recipe.
#[derive(Debug, Clone)]
pub struct Title(String);

impl View for Title {
    type V = Seq<char>;

    closed spec fn view(&self) -> Seq<char> {
        self.0@
    }
}

impl DeepView for Title {
    type V = Seq<char>;

    open spec fn deep_view(&self) -> Seq<char> {
        self@
    }
}

impl Title {
    /// The message that rejects `value`.
    pub open spec fn rejection(value: Seq<char>) -> Seq<char> {
        "Recipe title \""@ + value + "\" must contain at least one character."@
    }

    /// Accepts `value` trimmed of surrounding white space, unless nothing is
    /// left of it.
    pub fn try_from(value: String) -> (accepted: Result<Title, ValidationError>)
        ensures
            is_blank(value@) <==> accepted is Err,
            match accepted {
                Ok(title) => title@ == trimmed(value@) && is_required_text(title@),
                Err(ValidationError::Constraint(message)) => message@ == Self::rejection(value@),
                Err(ValidationError::Format(_)) => false,
            },
    {
        match required_trimmed(value, "Recipe title \"", "\" must contain at least one character.") {
            Ok(text) => Ok(Title(text)),
            Err(error) => Err(error),
        }
    }

    /// The text, by reference.
    pub fn as_str(&self) -> (text: &str)
        ensures
            text@ == self@,
    {
        self.0.as_str()
    }

    /// The text, owned.
    pub fn into_string(self) -> (text: String)
        ensures
            text@ == self@,
    {
        self.0
    }
}

/// Free-form notes on a recipe, in Markdown.
#[derive(Debug, Clone)]
pub struct Notes(String);

impl View for Notes {
    type V = Seq<char>;

    closed spec fn view(&self) -> Seq<char> {
        self.0@
    }
}

impl DeepView for Notes {
    type V = Seq<char>;

    open spec fn deep_view(&self) -> Seq<char> {
        self@
    }
}

impl Notes {
    /// The message that rejects `value`.
    pub open spec fn rejection(value: Seq<char>) -> Seq<char> {
        "Recipe notes \""@ + value + "\" must contain at least one character, or else be null."@
    }

    /// Accepts `value` trimmed of surrounding white space, unless nothing is
    /// left of it.
    pub fn try_from(value: String) -> (accepted: Result<Notes, ValidationError>)
        ensures
            is_blank(value@) <==> accepted is Err,
            match accepted {
                Ok(notes) => notes@ == trimmed(value@) && is_required_text(notes@),
                Err(ValidationError::Constraint(message)) => message@ == Self::rejection(value@),
                Err(ValidationError::Format(_)) => false,
            },
    {
        match required_trimmed(
            value,
            "Recipe notes \"",
            "\" must contain at least one character, or else be null.",
        ) {
            Ok(text) => Ok(Notes(text)),
            Err(error) => Err(error),
        }
    }

    /// The text, by reference.
    pub fn as_str(&self) -> (text: &str)
        ensures
            text@ == self@,
    {
        self.0.as_str()
    }

    /// The text, owned.
    pub fn into_string(self) -> (text: String)
        ensures
            text@ == self@,
    {
        self.0
    }
}

/// The HTML that a Markdown text renders to.
pub uninterp spec fn markdown_html(markdown: Seq<char>) -> Seq<char>;

/// What is left of an HTML text once everything outside the conservative
/// default allow-list is removed.
pub uninterp spec fn sanitized_html(html: Seq<char>) -> Seq<char>;

/// `pulldown_cmark::html::push_html` on `pulldown_cmark::Parser::new`: the
/// HTML rendering of a Markdown text with no extension enabled.
#[verifier::external_body]
fn render_markdown(markdown: &str) -> (html: String)
    ensures
        html@ == markdown_html(markdown@),
{
    let mut html = String::new();
    pulldown_cmark::html::push_html(&mut html, pulldown_cmark::Parser::new(markdown));
    html
}

/// `ammonia::clean`: the HTML cleaned with the crate's default settings.
#[verifier::external_body]
fn sanitize_html(html: &str) -> (clean: String)
    ensures
        clean@ == sanitized_html(html@),
{
    ammonia::clean(html)
}

impl Notes {
    /// The notes rendered from Markdown to sanitized HTML.
    pub fn into_html(&self) -> (html: String)
        ensures
            html@ == sanitized_html(markdown_html(self@)),
    {
        let rendered = render_markdown(self.0.as_str());
        sanitize_html(rendered.as_str())
    }
}

/// The heading of a block of instructions.
#[derive(Debug, Clone)]
pub struct InstructionBlockTitle(String);

impl View for InstructionBlockTitle {
    type V = Seq<char>;

    closed spec fn view(&self) -> Seq<char> {
        self.0@
    }
}

impl DeepView for InstructionBlockTitle {
    type V = Seq<char>;

    open spec fn deep_view(&self) -> Seq<char> {
        self@
    }
}

impl InstructionBlockTitle {
    /// The message that rejects `value`.
    pub open spec fn rejection(value: Seq<char>) -> Seq<char> {
        "\""@ + value + "\" must contain at least one character."@
    }

    /// Accepts `value` trimmed of surrounding white space, unless nothing is
    /// left of it.
    pub fn try_from(value: String) -> (accepted: Result<InstructionBlockTitle, ValidationError>)
        ensures
            is_blank(value@) <==> accepted is Err,
            match accepted {
                Ok(title) => title@ == trimmed(value@) && is_required_text(title@),
                Err(ValidationError::Constraint(message)) => message@ == Self::rejection(value@),
                Err(ValidationError::Format(_)) => false,
            },
    {
        match required_trimmed(value, "\"", "\" must contain at least one character.") {
            Ok(text) => Ok(InstructionBlockTitle(text)),
            Err(error) => Err(error),
        }
    }

    /// The text, by reference.
    pub fn as_str(&self) -> (text: &str)
        ensures
            text@ == self@,
    {
        self.0.as_str()
    }

    /// The text, owned.
    pub fn into_string(self) -> (text: String)
        ensures
            text@ == self@,
    {
        self.0
    }
}

/// One step of a recipe, in Markdown.
#[derive(Debug, Clone)]
pub struct Instruction(String);

impl View for Instruction {
    type V = Seq<char>;

    closed spec fn view(&self) -> Seq<char> {
        self.0@
    }
}

impl DeepView for Instruction {
    type V = Seq<char>;

    open spec fn deep_view(&self) -> Seq<char> {
        self@
    }
}

impl Instruction {
    /// The message that rejects `value`.
    pub open spec fn rejection(value: Seq<char>) -> Seq<char> {
        "\""@ + value + "\" must contain at least one character."@
    }

    /// Accepts `value` trimmed of surrounding white space, unless nothing is
    /// left of it.
    pub fn try_from(value: String) -> (accepted: Result<Instruction, ValidationError>)
        ensures
            is_blank(value@) <==> accepted is Err,
            match accepted {
                Ok(instruction) => instruction@ == trimmed(value@) && is_required_text(instruction@),
                Err(ValidationError::Constraint(message)) => message@ == Self::rejection(value@),
                Err(ValidationError::Format(_)) => false,
            },
    {
        match required_trimmed(value, "\"", "\" must contain at least one character.") {
            Ok(text) => Ok(Instruction(text)),
            Err(error) => Err(error),
        }
    }

    /// The text, by reference.
    pub fn as_str(&self) -> (text: &str)
        ensures
            text@ == self@,
    {
        self.0.as_str()
    }

    /// The text, owned.
    pub fn into_string(self) -> (text: String)
        ensures
            text@ == self@,
    {
        self.0
    }
}

impl Instruction {
    /// The instruction rendered from Markdown to sanitized HTML.
    pub fn into_html(&self) -> (html: String)
        ensures
            html@ == sanitized_html(markdown_html(self@)),
    {
        let rendered = render_markdown(self.0.as_str());
        sanitize_html(rendered.as_str())
    }
}

/// The heading of a block of ingredients.
#[derive(Debug, Clone)]
pub struct IngredientBlockTitle(String);

impl View for IngredientBlockTitle {
    type V = Seq<char>;

    closed spec fn view(&self) -> Seq<char> {
        self.0@
    }
}

impl DeepView for IngredientBlockTitle {
    type V = Seq<char>;

    open spec fn deep_view(&self) -> Seq<char> {
        self@
    }
}

impl IngredientBlockTitle {
    /// The message that rejects `value`.
    pub open spec fn rejection(value: Seq<char>) -> Seq<char> {
        "\""@ + value + "\" must contain at least one character."@
    }

    /// Accepts `value` trimmed of surrounding white space, unless nothing is
    /// left of it.
    pub fn try_from(value: String) -> (accepted: Result<IngredientBlockTitle, ValidationError>)
        ensures
            is_blank(value@) <==> accepted is Err,
            match accepted {
                Ok(title) => title@ == trimmed(value@) && is_required_text(title@),
                Err(ValidationError::Constraint(message)) => message@ == Self::rejection(value@),
                Err(ValidationError::Format(_)) => false,
            },
    {
        match required_trimmed(value, "\"", "\" must contain at least one character.") {
            Ok(text) => Ok(IngredientBlockTitle(text)),
            Err(error) => Err(error),
        }
    }

    /// The text, by reference.
    pub fn as_str(&self) -> (text: &str)
        ensures
            text@ == self@,
    {
        self.0.as_str()
    }

    /// The text, owned.
    pub fn into_string(self) -> (text: String)
        ensures
            text@ == self@,
    {
        self.0
    }
}

/// One ingredient of a recipe.
#[derive(Debug, Clone)]
pub struct Ingredient(String);

impl View for Ingredient {
    type V = Seq<char>;

    closed spec fn view(&self) -> Seq<char> {
        self.0@
    }
}

impl DeepView for Ingredient {
    type V = Seq<char>;

    open spec fn deep_view(&self) -> Seq<char> {
        self@
    }
}

impl Ingredient {
    /// The message that rejects `value`.
    pub open spec fn rejection(value: Seq<char>) -> Seq<char> {
        "\""@ + value + "\" must contain at least one character."@
    }

    /// Accepts `value` trimmed of surrounding white space, unless nothing is
    /// left of it.
    pub fn try_from(value: String) -> (accepted: Result<Ingredient, ValidationError>)
        ensures
            is_blank(value@) <==> accepted is Err,
            match accepted {
                Ok(ingredient) => ingredient@ == trimmed(value@) && is_required_text(ingredient@),
                Err(ValidationError::Constraint(message)) => message@ == Self::rejection(value@),
                Err(ValidationError::Format(_)) => false,
            },
    {
        match required_trimmed(value, "\"", "\" must contain at least one character.") {
            Ok(text) => Ok(Ingredient(text)),
            Err(error) => Err(error),
        }
    }

    /// The text, by reference.
    pub fn as_str(&self) -> (text: &str)
        ensures
            text@ == self@,
    {
        self.0.as_str()
    }

    /// The text, owned.
    pub fn into_string(self) -> (text: String)
        ensures
            text@ == self@,
    {
        self.0
    }
}


/// The texts of a block: its heading, if it has one, and its items in order.
pub struct BlockText {
    pub title: Option<Seq<char>>,
    pub items: Seq<Seq<char>>,
}

/// A block of plain, unvalidated texts, as it is stored and transmitted.
#[derive(Debug, Clone)]
pub struct StringifiedBlock {
    pub title: Option<String>,
    pub items: Vec<String>,
}

impl DeepView for StringifiedBlock {
    type V = BlockText;

    open spec fn deep_view(&self) -> BlockText {
        BlockText {
            title: match self.title {
                Some(title) => Some(title@),
                None => None,
            },
            items: self.items.deep_view(),
        }
    }
}

/// `items[i]` is blank and no item before it is.
pub open spec fn is_first_blank(items: Seq<Seq<char>>, i: int) -> bool {
    &&& 0 <= i < items.len()
    &&& is_blank(items[i])
    &&& forall|j: int| 0 <= j < i ==> !is_blank(items[j])
}

/// The text that rejects a block: its heading if that is blank, else its
/// first blank item; `None` if the block is accepted.
pub open spec fn rejected_text(block: BlockText) -> Option<Seq<char>> {
    if block.title is Some && is_blank(block.title->0) {
        block.title
    } else if exists|i: int| is_first_blank(block.items, i) {
        Some(block.items[choose|i: int| is_first_blank(block.items, i)])
    } else {
        None
    }
}

/// The message that rejects a heading or an item of a block.
pub open spec fn block_rejection(text: Seq<char>) -> Seq<char> {
    "\""@ + text + "\" must contain at least one character."@
}

/// The block with its heading and every item trimmed.
pub open spec fn trimmed_block(block: BlockText) -> BlockText {
    BlockText {
        title: match block.title {
            Some(title) => Some(trimmed(title)),
            None => None,
        },
        items: Seq::new(block.items.len(), |i: int| trimmed(block.items[i])),
    }
}

/// Two indices that are both the first blank one are the same index.
pub proof fn lemma_first_blank_unique(items: Seq<Seq<char>>, i: int, j: int)
    requires
        is_first_blank(items, i),
        is_first_blank(items, j),
    ensures
        i == j,
{
}

/// A block of ingredients under an optional heading.
#[derive(Debug, Clone)]
pub struct IngredientBlock {
    pub title: Option<IngredientBlockTitle>,
    pub ingredients: Vec<Ingredient>,
}

impl DeepView for IngredientBlock {
    type V = BlockText;

    open spec fn deep_view(&self) -> BlockText {
        BlockText {
            title: match self.title {
                Some(title) => Some(title@),
                None => None,
            },
            items: self.ingredients.deep_view(),
        }
    }
}

impl IngredientBlock {
    /// Validates a block of plain texts: the heading, if there is one, and
    /// every item are trimmed, and the first of them that is blank, heading
    /// first, rejects the block.
    pub fn try_from(value: StringifiedBlock) -> (accepted: Result<IngredientBlock, ValidationError>)
        ensures
            match accepted {
                Ok(block) => rejected_text(value.deep_view()) is None && block.deep_view()
                    == trimmed_block(value.deep_view()),
                Err(ValidationError::Constraint(message)) => rejected_text(value.deep_view())
                    matches Some(text) && message@ == block_rejection(text),
                Err(ValidationError::Format(_)) => false,
            },
    {
        Self::try_from_ref(&value)
    }

    /// Validates a block of plain texts that stays with the caller.
    pub fn try_from_ref(value: &StringifiedBlock) -> (accepted: Result<IngredientBlock, ValidationError>)
        ensures
            match accepted {
                Ok(block) => rejected_text(value.deep_view()) is None && block.deep_view()
                    == trimmed_block(value.deep_view()),
                Err(ValidationError::Constraint(message)) => rejected_text(value.deep_view())
                    matches Some(text) && message@ == block_rejection(text),
                Err(ValidationError::Format(_)) => false,
            },
    {
        let ghost texts = value.deep_view();
        let title = match &value.title {
            None => None,
            Some(heading) => match IngredientBlockTitle::try_from(heading.clone()) {
                Ok(title) => Some(title),
                Err(error) => {
                    return Err(error);
                },
            },
        };
        let mut ingredients: Vec<Ingredient> = Vec::new();
        let mut i: usize = 0;
        while i < value.items.len()
            invariant
                i <= value.items.len(),
                texts == value.deep_view(),
                ingredients.len() == i,
                texts.title is Some ==> !is_blank(texts.title->0),
                forall|j: int| 0 <= j < i ==> !is_blank(texts.items[j]),
                forall|j: int| 0 <= j < i ==> (#[trigger] ingredients[j])@ == trimmed(texts.items[j]),
            decreases value.items.len() - i,
        {
            match Ingredient::try_from(value.items[i].clone()) {
                Ok(item) => {
                    ingredients.push(item);
                },
                Err(error) => {
                    proof {
                        assert(is_first_blank(texts.items, i as int));
                        let first = choose|k: int| is_first_blank(texts.items, k);
                        lemma_first_blank_unique(texts.items, first, i as int);
                    }
                    return Err(error);
                },
            }
            i += 1;
        }
        let block = IngredientBlock { title, ingredients };
        assert(block.deep_view().items =~= trimmed_block(texts).items);
        Ok(block)
    }
}

/// A block of instructions under an optional heading.
#[derive(Debug, Clone)]
pub struct InstructionBlock {
    pub title: Option<InstructionBlockTitle>,
    pub instructions: Vec<Instruction>,
}

impl DeepView for InstructionBlock {
    type V = BlockText;

    open spec fn deep_view(&self) -> BlockText {
        BlockText {
            title: match self.title {
                Some(title) => Some(title@),
                None => None,
            },
            items: self.instructions.deep_view(),
        }
    }
}

impl InstructionBlock {
    /// Validates a block of plain texts: the heading, if there is one, and
    /// every item are trimmed, and the first of them that is blank, heading
    /// first, rejects the block.
    pub fn try_from(value: StringifiedBlock) -> (accepted: Result<InstructionBlock, ValidationError>)
        ensures
            match accepted {
                Ok(block) => rejected_text(value.deep_view()) is None && block.deep_view()
                    == trimmed_block(value.deep_view()),
                Err(ValidationError::Constraint(message)) => rejected_text(value.deep_view())
                    matches Some(text) && message@ == block_rejection(text),
                Err(ValidationError::Format(_)) => false,
            },
    {
        Self::try_from_ref(&value)
    }

    /// Validates a block of plain texts that stays with the caller.
    pub fn try_from_ref(value: &StringifiedBlock) -> (accepted: Result<InstructionBlock, ValidationError>)
        ensures
            match accepted {
                Ok(block) => rejected_text(value.deep_view()) is None && block.deep_view()
                    == trimmed_block(value.deep_view()),
                Err(ValidationError::Constraint(message)) => rejected_text(value.deep_view())
                    matches Some(text) && message@ == block_rejection(text),
                Err(ValidationError::Format(_)) => false,
            },
    {
        let ghost texts = value.deep_view();
        let title = match &value.title {
            None => None,
            Some(heading) => match InstructionBlockTitle::try_from(heading.clone()) {
                Ok(title) => Some(title),
                Err(error) => {
                    return Err(error);
                },
            },
        };
        let mut instructions: Vec<Instruction> = Vec::new();
        let mut i: usize = 0;
        while i < value.items.len()
            invariant
                i <= value.items.len(),
                texts == value.deep_view(),
                instructions.len() == i,
                texts.title is Some ==> !is_blank(texts.title->0),
                forall|j: int| 0 <= j < i ==> !is_blank(texts.items[j]),
                forall|j: int| 0 <= j < i ==> (#[trigger] instructions[j])@ == trimmed(texts.items[j]),
            decreases value.items.len() - i,
        {
            match Instruction::try_from(value.items[i].clone()) {
                Ok(item) => {
                    instructions.push(item);
                },
                Err(error) => {
                    proof {
                        assert(is_first_blank(texts.items, i as int));
                        let first = choose|k: int| is_first_blank(texts.items, k);
                        lemma_first_blank_unique(texts.items, first, i as int);
                    }
                    return Err(error);
                },
            }
            i += 1;
        }
        let block = InstructionBlock { title, instructions };
        assert(block.deep_view().items =~= trimmed_block(texts).items);
        Ok(block)
    }
}

impl StringifiedBlock {
    /// A copy of the block.
    pub fn duplicate(&self) -> (copy: StringifiedBlock)
        ensures
            copy.deep_view() == self.deep_view(),
    {
        let title = match &self.title {
            Some(title) => Some(title.clone()),
            None => None,
        };
        let mut items: Vec<String> = Vec::new();
        let mut i: usize = 0;
        while i < self.items.len()
            invariant
                i <= self.items.len(),
                items.len() == i,
                forall|j: int| 0 <= j < i ==> (#[trigger] items[j])@ == self.items[j]@,
            decreases self.items.len() - i,
        {
            items.push(self.items[i].clone());
            i += 1;
        }
        let copy = StringifiedBlock { title, items };
        assert(copy.deep_view().items =~= self.deep_view().items);
        copy
    }

    /// The plain texts of a block of ingredients.
    pub fn from_ingredient_block(value: IngredientBlock) -> (plain: StringifiedBlock)
        ensures
            plain.deep_view() == value.deep_view(),
    {
        let title = match value.title {
            Some(title) => Some(title.into_string()),
            None => None,
        };
        let mut items: Vec<String> = Vec::new();
        let mut i: usize = 0;
        while i < value.ingredients.len()
            invariant
                i <= value.ingredients.len(),
                items.len() == i,
                forall|j: int| 0 <= j < i ==> (#[trigger] items[j])@ == value.ingredients[j]@,
            decreases value.ingredients.len() - i,
        {
            items.push(copy_str(value.ingredients[i].as_str()));
            i += 1;
        }
        let plain = StringifiedBlock { title, items };
        assert(plain.deep_view().items =~= value.deep_view().items);
        plain
    }

    /// The plain texts of a block of instructions.
    pub fn from_instruction_block(value: InstructionBlock) -> (plain: StringifiedBlock)
        ensures
            plain.deep_view() == value.deep_view(),
    {
        let title = match value.title {
            Some(title) => Some(title.into_string()),
            None => None,
        };
        let mut items: Vec<String> = Vec::new();
        let mut i: usize = 0;
        while i < value.instructions.len()
            invariant
                i <= value.instructions.len(),
                items.len() == i,
                forall|j: int| 0 <= j < i ==> (#[trigger] items[j])@ == value.instructions[j]@,
            decreases value.instructions.len() - i,
        {
            items.push(copy_str(value.instructions[i].as_str()));
            i += 1;
        }
        let plain = StringifiedBlock { title, items };
        assert(plain.deep_view().items =~= value.deep_view().items);
        plain
    }
}

/// The block at `i` is rejected and no block before it is.
pub open spec fn is_first_rejected(blocks: Seq<BlockText>, i: int) -> bool {
    &&& 0 <= i < blocks.len()
    &&& rejected_text(blocks[i]) is Some
    &&& forall|j: int| 0 <= j < i ==> rejected_text(#[trigger] blocks[j]) is None
}

/// The message that rejects a sequence of blocks: that of its first rejected
/// block; `None` if every block is accepted.
pub open spec fn blocks_rejection(blocks: Seq<BlockText>) -> Option<Seq<char>> {
    if exists|i: int| is_first_rejected(blocks, i) {
        let first = choose|i: int| is_first_rejected(blocks, i);
        Some(block_rejection(rejected_text(blocks[first])->0))
    } else {
        None
    }
}

/// Every block with its heading and its items trimmed.
pub open spec fn trimmed_blocks(blocks: Seq<BlockText>) -> Seq<BlockText> {
    Seq::new(blocks.len(), |i: int| trimmed_block(blocks[i]))
}

/// Two positions that are both the first rejected one are the same position.
pub proof fn lemma_first_rejected_unique(blocks: Seq<BlockText>, i: int, j: int)
    requires
        is_first_rejected(blocks, i),
        is_first_rejected(blocks, j),
    ensures
        i == j,
{
}

/// Validates blocks of ingredients in order; the first block that is rejected
/// rejects them all.
pub fn validate_ingredient_blocks(blocks: &Vec<StringifiedBlock>) -> (accepted: Result<
    Vec<IngredientBlock>,
    ValidationError,
>)
    ensures
        match accepted {
            Ok(valid) => blocks_rejection(blocks.deep_view()) is None && valid.deep_view()
                == trimmed_blocks(blocks.deep_view()),
            Err(ValidationError::Constraint(message)) => blocks_rejection(blocks.deep_view())
                == Some(message@),
            Err(ValidationError::Format(_)) => false,
        },
{
    let ghost texts = blocks.deep_view();
    let mut valid: Vec<IngredientBlock> = Vec::new();
    let mut i: usize = 0;
    while i < blocks.len()
        invariant
            i <= blocks.len(),
            texts == blocks.deep_view(),
            valid.len() == i,
            forall|j: int| 0 <= j < i ==> rejected_text(#[trigger] texts[j]) is None,
            forall|j: int| 0 <= j < i ==> (#[trigger] valid[j]).deep_view() == trimmed_block(texts[j]),
        decreases blocks.len() - i,
    {
        match IngredientBlock::try_from_ref(&blocks[i]) {
            Ok(block) => {
                valid.push(block);
            },
            Err(error) => {
                proof {
                    assert(is_first_rejected(texts, i as int));
                    let first = choose|k: int| is_first_rejected(texts, k);
                    lemma_first_rejected_unique(texts, first, i as int);
                }
                return Err(error);
            },
        }
        i += 1;
    }
    assert(valid.deep_view() =~= trimmed_blocks(texts));
    Ok(valid)
}

/// Validates blocks of instructions in order; the first block that is rejected
/// rejects them all.
pub fn validate_instruction_blocks(blocks: &Vec<StringifiedBlock>) -> (accepted: Result<
    Vec<InstructionBlock>,
    ValidationError,
>)
    ensures
        match accepted {
            Ok(valid) => blocks_rejection(blocks.deep_view()) is None && valid.deep_view()
                == trimmed_blocks(blocks.deep_view()),
            Err(ValidationError::Constraint(message)) => blocks_rejection(blocks.deep_view())
                == Some(message@),
            Err(ValidationError::Format(_)) => false,
        },
{
    let ghost texts = blocks.deep_view();
    let mut valid: Vec<InstructionBlock> = Vec::new();
    let mut i: usize = 0;
    while i < blocks.len()
        invariant
            i <= blocks.len(),
            texts == blocks.deep_view(),
            valid.len() == i,
            forall|j: int| 0 <= j < i ==> rejected_text(#[trigger] texts[j]) is None,
            forall|j: int| 0 <= j < i ==> (#[trigger] valid[j]).deep_view() == trimmed_block(texts[j]),
        decreases blocks.len() - i,
    {
        match InstructionBlock::try_from_ref(&blocks[i]) {
            Ok(block) => {
                valid.push(block);
            },
            Err(error) => {
                proof {
                    assert(is_first_rejected(texts, i as int));
                    let first = choose|k: int| is_first_rejected(texts, k);
                    lemma_first_rejected_unique(texts, first, i as int);
                }
                return Err(error);
            },
        }
        i += 1;
    }
    assert(valid.deep_view() =~= trimmed_blocks(texts));
    Ok(valid)
}

/// Every text of the block is a required text: the block is what validation
/// leaves of it.
pub open spec fn is_valid_block(block: BlockText) -> bool {
    &&& block.title matches Some(title) ==> is_required_text(title)
    &&& forall|i: int| 0 <= i < block.items.len() ==> is_required_text(#[trigger] block.items[i])
}

/// A block of required texts is accepted as it is.
pub proof fn lemma_valid_block(block: BlockText)
    requires
        is_valid_block(block),
    ensures
        rejected_text(block) is None,
        trimmed_block(block) == block,
{
    if block.title is Some {
        lemma_required_text_is_trimmed(block.title->0);
    }
    assert forall|i: int| 0 <= i < block.items.len() implies trimmed(#[trigger] block.items[i])
        == block.items[i] by {
        lemma_required_text_is_trimmed(block.items[i]);
    }
    assert(trimmed_block(block).items =~= block.items);
    assert forall|i: int| !is_first_blank(block.items, i) by {
        if 0 <= i < block.items.len() {
            lemma_required_text_is_trimmed(block.items[i]);
        }
    }
}

/// Blocks of required texts are accepted as they are.
pub proof fn lemma_valid_blocks(blocks: Seq<BlockText>)
    requires
        forall|i: int| 0 <= i < blocks.len() ==> is_valid_block(#[trigger] blocks[i]),
    ensures
        blocks_rejection(blocks) is None,
        trimmed_blocks(blocks) == blocks,
{
    assert forall|i: int| 0 <= i < blocks.len() implies trimmed_block(#[trigger] blocks[i])
        == blocks[i] && rejected_text(blocks[i]) is None by {
        lemma_valid_block(blocks[i]);
    }
    assert(trimmed_blocks(blocks) =~= blocks);
    assert forall|i: int| !is_first_rejected(blocks, i) by {
        if 0 <= i < blocks.len() {
            lemma_valid_block(blocks[i]);
        }
    }
}

} // verus!
