//! Where the images of recipes are kept.

use vstd::prelude::*;
use vstd::string::*;
use crate::application::recipe::{store_error, store_message};
use crate::application::Error;
use crate::datastore;
use crate::imagestore;

verus! {

/// The path under which the image with the given identifier is kept as it
/// was uploaded.
pub fn original_path(id: &str) -> (path: String)
    ensures
        path@ == id@ + "-original.jpg"@,
{
    let mut path = String::from_str(id);
    path.append("-original.jpg");
    path
}

/// The error that the application reports when the store of recipes does not
/// know an image: an image that is not found is reported as such, and
/// nothing else of the store is told.
pub fn unknown_image(error: datastore::Error) -> (reported: Error)
    ensures
        match error {
            datastore::Error::NotFound => reported matches Error::NotFound(message) && message@
                == "Image not found."@,
            _ => reported matches Error::Other(message) && message@ == store_message(error),
        },
{
    match error {
        datastore::Error::NotFound => Error::NotFound(String::from_str("Image not found.")),
        other => store_error(other),
    }
}

/// The error that the application reports when the store of images fails on
/// reading an image: an image that is not found is reported as such, and of
/// everything else only that the image could not be had.
pub fn image_error(error: imagestore::Error) -> (reported: Error)
    ensures
        match error {
            imagestore::Error::NotFound(_) => reported matches Error::NotFound(message) && message@
                == "Image not found."@,
            _ => reported matches Error::Other(message) && message@ == "Could not get image."@,
        },
{
    match error {
        imagestore::Error::NotFound(_) => Error::NotFound(String::from_str("Image not found.")),
        _ => Error::Other(String::from_str("Could not get image.")),
    }
}

} // verus!
