//! Tags that recipes carry.

use vstd::prelude::*;
use vstd::string::*;
use crate::domain::ValidationError;
use crate::domain::recipe::{is_blank, is_required_text, required_trimmed};
use crate::text::trimmed;

pub use super::id::Id;

verus! {

/// A tag that recipes can carry.
#[derive(Debug, Clone)]
pub struct Tag {
    pub id: Id,
    pub name: Name,
}

/// A tag as it appears on a recipe.
#[derive(Debug, Clone)]
pub struct OnRecipe {
    pub id: Id,
    pub name: Name,
}

/// A tag that is about to be created.
#[derive(Debug, Clone)]
pub struct Creating {
    pub name: Name,
}

/// A tag together with the number of recipes that carry it.
#[derive(Debug, Clone)]
pub struct WithStats {
    pub id: Id,
    pub name: Name,
    pub recipe_count: u64,
}

/// The identifier and the name of a tag.
pub struct TagText {
    pub id: u128,
    pub name: Seq<char>,
}

impl DeepView for Tag {
    type V = TagText;

    open spec fn deep_view(&self) -> TagText {
        TagText { id: self.id@, name: self.name@ }
    }
}

impl DeepView for OnRecipe {
    type V = TagText;

    open spec fn deep_view(&self) -> TagText {
        TagText { id: self.id@, name: self.name@ }
    }
}

/// The name of a tag.
#[derive(Debug, Clone)]
pub struct Name(String);

impl View for Name {
    type V = Seq<char>;

    closed spec fn view(&self) -> Seq<char> {
        self.0@
    }
}

impl DeepView for Name {
    type V = Seq<char>;

    open spec fn deep_view(&self) -> Seq<char> {
        self@
    }
}

impl Name {
    /// The message that rejects `value`.
    pub open spec fn rejection(value: Seq<char>) -> Seq<char> {
        "Tag \""@ + value + "\" must contain at least one character."@
    }

    /// Accepts `value` trimmed of surrounding white space, unless nothing is
    /// left of it.
    pub fn try_from(value: String) -> (accepted: Result<Name, ValidationError>)
        ensures
            is_blank(value@) <==> accepted is Err,
            match accepted {
                Ok(name) => name@ == trimmed(value@) && is_required_text(name@),
                Err(ValidationError::Constraint(message)) => message@ == Self::rejection(value@),
                Err(ValidationError::Format(_)) => false,
            },
    {
        match required_trimmed(value, "Tag \"", "\" must contain at least one character.") {
            Ok(text) => Ok(Name(text)),
            Err(error) => Err(error),
        }
    }

    /// The text, by reference.
    pub fn as_str(&self) -> (text: &str)
        ensures
            text@ == self@,
    {
        self.0.as_str()
    }

    /// The text, owned.
    pub fn into_string(self) -> (text: String)
        ensures
            text@ == self@,
    {
        self.0
    }
}


impl Name {
    /// A copy of a name.
    pub fn renamed(name: &Name) -> (copy: Name)
        ensures
            copy@ == name@,
    {
        Name(name.0.clone())
    }
}

} // verus!
