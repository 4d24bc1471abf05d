//! Identifiers: 128-bit ULIDs with their 26-character canonical text.

use vstd::prelude::*;
use vstd::string::*;
use crate::domain::ValidationError;
use crate::text::concat3;

verus! {

/// The canonical text of the ULID with the given value.
pub uninterp spec fn ulid_text(value: u128) -> Seq<char>;

/// The value that a text parses to as a ULID, if it parses.
pub uninterp spec fn ulid_value(text: Seq<char>) -> Option<u128>;

/// Why a text is not a ULID.
#[derive(Debug, Clone, Copy, PartialEq, Eq, Structural)]
pub enum DecodeError {
    /// The text is not 26 bytes long.
    InvalidLength,
    /// A character is outside the Crockford base-32 alphabet.
    InvalidChar,
}

/// An identifier of a recipe, a tag, an image or a user.
#[derive(Debug, Clone, Copy, PartialEq, Eq, Structural)]
pub struct Id {
    value: u128,
}

impl View for Id {
    type V = u128;

    closed spec fn view(&self) -> u128 {
        self.value
    }
}

impl DeepView for Id {
    type V = u128;

    open spec fn deep_view(&self) -> u128 {
        self@
    }
}

/// `ulid::Ulid::to_string`: the canonical text of a value, 26 digits of base
/// 32, which `ulid::Ulid::from_string` reads back to the value digit by
/// digit.
#[verifier::external_body]
fn ulid_to_string(value: u128) -> (text: String)
    ensures
        text@ == ulid_text(value),
        ulid_value(text@) == Some(value),
{
    ulid::Ulid(value).to_string()
}

/// `ulid::Ulid::from_string`: fails with `InvalidLength` exactly on texts that
/// are not 26 bytes long, and with `InvalidChar` on the other texts that do
/// not parse.
#[verifier::external_body]
fn ulid_from_string(text: &str) -> (parsed: Result<u128, DecodeError>)
    ensures
        match parsed {
            Ok(value) => ulid_value(text@) == Some(value) && text.spec_bytes().len() == 26,
            Err(DecodeError::InvalidLength) => ulid_value(text@) is None
                && text.spec_bytes().len() != 26,
            Err(DecodeError::InvalidChar) => ulid_value(text@) is None
                && text.spec_bytes().len() == 26,
        },
{
    match ulid::Ulid::from_string(text) {
        Ok(parsed) => Ok(parsed.0),
        Err(ulid::DecodeError::InvalidLength) => Err(DecodeError::InvalidLength),
        Err(ulid::DecodeError::InvalidChar) => Err(DecodeError::InvalidChar),
    }
}

/// `ulid::Ulid::new`: a fresh value from the clock and a random source.
#[verifier::external_body]
fn ulid_generate() -> u128 {
    ulid::Ulid::new().0
}

/// The message of the error that rejects `text` as an identifier for the
/// given reason.
pub open spec fn parse_failure_message(text: Seq<char>, reason: DecodeError) -> Seq<char> {
    "Could not parse ulid: "@ + text + ". "@ + match reason {
        DecodeError::InvalidLength => "invalid length"@,
        DecodeError::InvalidChar => "invalid character"@,
    }
}

/// The message of the error that rejects `text` as an identifier: a text that
/// is not 26 bytes long is rejected for its length, any other for a character.
pub open spec fn id_rejection(text: Seq<char>) -> Seq<char> {
    parse_failure_message(
        text,
        if vstd::utf8::encode_utf8(text).len() != 26 {
            DecodeError::InvalidLength
        } else {
            DecodeError::InvalidChar
        },
    )
}

impl Id {
    /// A fresh identifier.
    pub fn new() -> Id {
        Id { value: ulid_generate() }
    }

    /// The identifier with the given 128-bit value.
    pub fn from_value(value: u128) -> (id: Id)
        ensures
            id@ == value,
    {
        Id { value }
    }

    /// The 128-bit value of the identifier.
    pub fn value(&self) -> (value: u128)
        ensures
            value == self@,
    {
        self.value
    }

    /// Parses the canonical text of an identifier. Succeeds exactly on the
    /// texts that are ULIDs; the error names the text and the reason.
    pub fn try_from(value: &str) -> (parsed: Result<Id, ValidationError>)
        ensures
            match parsed {
                Ok(id) => ulid_value(value@) == Some(id@),
                Err(ValidationError::Format(message)) => ulid_value(value@) is None && message@
                    == id_rejection(value@),
                Err(ValidationError::Constraint(_)) => false,
            },
    {
        match ulid_from_string(value) {
            Ok(parsed) => Ok(Id { value: parsed }),
            Err(reason) => {
                let detail = match reason {
                    DecodeError::InvalidLength => "invalid length",
                    DecodeError::InvalidChar => "invalid character",
                };
                let mut message = concat3("Could not parse ulid: ", value, ". ");
                message.append(detail);
                assert(message@ == id_rejection(value@));
                Err(ValidationError::Format(message))
            },
        }
    }

    /// The canonical text of the identifier; it reads back as the identifier.
    pub fn to_string(&self) -> (text: String)
        ensures
            text@ == ulid_text(self@),
            ulid_value(text@) == Some(self@),
    {
        ulid_to_string(self.value)
    }
}

} // verus!
