//! The table of images: the identifiers of the images that have been stored.

use vstd::prelude::*;
use vstd::string::*;
use crate::datastore::Error;
use crate::sqlite::database::{Database, DatabaseState};
use crate::text::{copy_str, same_text};

verus! {

/// Whether the table holds the identifier.
pub fn holds_image(db: &Database, id: &str) -> (held: bool)
    ensures
        held == db@.images.contains(id@),
{
    let mut i: usize = 0;
    while i < db.images.len()
        invariant
            i <= db.images.len(),
            forall|j: int| 0 <= j < i ==> db@.images[j] != id@,
        decreases db.images.len() - i,
    {
        if same_text(db.images[i].as_str(), id) {
            assert(db@.images[i as int] == id@);
            return true;
        }
        i += 1;
    }
    false
}

/// What recording an image yields: the result `done` and the tables `after`,
/// given the tables `before`.
pub open spec fn image_outcome(
    before: DatabaseState,
    id: Seq<char>,
    done: Result<(), Error>,
    after: DatabaseState,
) -> bool {
    &&& after.recipes == before.recipes
    &&& after.tags == before.tags
    &&& after.users == before.users
    &&& match done {
        Ok(()) => !before.images.contains(id) && after.images == before.images.push(id),
        Err(Error::Unknown(_)) => before.images.contains(id) && after.images == before.images,
        Err(_) => false,
    }
}

/// What asking for an image yields, given the tables.
pub open spec fn image_found(db: DatabaseState, id: Seq<char>, found: Result<(), Error>) -> bool {
    match found {
        Ok(()) => db.images.contains(id),
        Err(Error::NotFound) => !db.images.contains(id),
        Err(_) => false,
    }
}

/// Records an image. Fails with `Unknown` exactly if the identifier is
/// recorded already; the table is then as it was.
pub fn insert(db: &mut Database, id: &str) -> (done: Result<(), Error>)
    requires
        old(db).wf(),
    ensures
        final(db).wf(),
        image_outcome(old(db)@, id@, done, final(db)@),
{
    if holds_image(db, id) {
        return Err(Error::Unknown(copy_str("the image is recorded already")));
    }
    let ghost before = db@.images;
    db.images.push(copy_str(id));
    proof {
        assert(db@.images =~= before.push(id@));
        assert(db@.recipes =~= old(db)@.recipes);
        assert(db@.tags =~= old(db)@.tags);
        assert(db@.users =~= old(db)@.users);
        assert forall|i: int, j: int|
            0 <= i < db@.images.len() && 0 <= j < db@.images.len() && i != j implies db@.images[i]
            != db@.images[j] by {
            if i == before.len() {
                assert(before[j] != id@);
            } else if j == before.len() {
                assert(before[i] != id@);
            }
        }
    }
    Ok(())
}

/// Whether an image is recorded. Fails with `NotFound` exactly if it is not.
pub fn get_image(db: &Database, id: &str) -> (found: Result<(), Error>)
    ensures
        image_found(db@, id@, found),
{
    if holds_image(db, id) {
        Ok(())
    } else {
        Err(Error::NotFound)
    }
}

} // verus!
