//! The configuration as the configuration file holds it.

use vstd::prelude::*;

verus! {

/// The configuration file.
pub struct Config {
    pub http_port: Option<u16>,
    pub origin: String,
    pub insecure_cookies: Option<bool>,
    pub oidc: Oidc,
    pub sqlite: Sqlite,
    pub images: Images,
}

/// The section on images: the backends that are described, and the one that
/// is to be used.
pub struct Images {
    pub s3: Option<S3>,
    pub file: Option<File>,
    pub backend: ImageBackend,
}

/// The name of a backend for images.
#[derive(Debug, Clone, Copy, PartialEq, Eq, Structural)]
pub enum ImageBackend {
    S3,
    File,
}

/// The section on the identity provider.
pub struct Oidc {
    pub issuer_url: String,
    pub client_id: String,
    pub client_secret: String,
}

/// The section on the files of the stores.
pub struct Sqlite {
    pub db_path: String,
    pub session_db_path: String,
}

/// The section on an object store.
pub struct S3 {
    pub host: String,
    pub bucket: String,
    pub region: String,
    pub secret_access_key: String,
    pub secret_access_key_id: String,
}

/// The section on a directory.
pub struct File {
    pub directory: String,
}

} // verus!
