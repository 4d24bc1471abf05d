//! Tags as requests and replies carry them.

use vstd::prelude::*;
use crate::domain;

verus! {

/// A tag in a reply.
pub struct Tag {
    pub id: domain::tag::Id,
    pub name: String,
}

/// A tag in a reply, with the number of recipes that carry it.
pub struct TagWithStats {
    pub id: domain::tag::Id,
    pub name: String,
    pub recipe_count: u64,
}

/// The parameters of the request that creates a tag.
pub struct CreateParams {
    pub name: String,
}

/// The tag that a request asks to create. Fails exactly if its name is
/// blank.
pub fn creating(request: CreateParams) -> (tag: Result<
    domain::tag::Creating,
    domain::ValidationError,
>)
    ensures
        crate::domain::recipe::is_blank(request.name@) <==> tag is Err,
        match tag {
            Ok(creating) => creating.name@ == crate::text::trimmed(request.name@),
            Err(domain::ValidationError::Constraint(message)) => message@
                == domain::tag::Name::rejection(request.name@),
            Err(domain::ValidationError::Format(_)) => false,
        },
{
    match domain::tag::Name::try_from(request.name) {
        Ok(name) => Ok(domain::tag::Creating { name }),
        Err(error) => Err(error),
    }
}

/// A tag with its number of recipes as a reply carries it.
pub fn stats_reply(tag: domain::tag::WithStats) -> (reply: TagWithStats)
    ensures
        reply.id == tag.id,
        reply.name@ == tag.name@,
        reply.recipe_count == tag.recipe_count,
{
    TagWithStats { id: tag.id, name: tag.name.into_string(), recipe_count: tag.recipe_count }
}

/// A tag as a reply carries it.
pub fn tag_reply(tag: domain::tag::Tag) -> (reply: Tag)
    ensures
        reply.id == tag.id,
        reply.name@ == tag.name@,
{
    Tag { id: tag.id, name: tag.name.into_string() }
}

} // verus!
