//! The configuration of the server: what the configuration file says, and
//! what the server makes of it.

use vstd::prelude::*;
use vstd::string::*;
use crate::text::copy_str;

pub mod internal;

verus! {

/// Where images are kept.
#[derive(Clone)]
pub enum ImageBackend {
    S3(ImageBackendS3),
    File(ImageBackendFile),
}

/// The configuration that the server runs with.
#[derive(Clone)]
pub struct Config {
    pub http_port: u16,
    pub origin: String,
    pub insecure_cookies: bool,
    pub static_build_path: String,
    pub oidc: Oidc,
    pub sqlite: Sqlite,
    pub image_backend: ImageBackend,
}

/// The identity provider.
#[derive(Clone)]
pub struct Oidc {
    pub issuer_url: String,
    pub client_id: String,
    pub client_secret: String,
}

/// An object store that keeps images.
#[derive(Clone)]
pub struct ImageBackendS3 {
    pub host: String,
    pub bucket: String,
    pub region: String,
    pub secret_access_key: String,
    pub secret_access_key_id: String,
}

/// A directory that keeps images.
#[derive(Clone)]
pub struct ImageBackendFile {
    pub directory: String,
}

/// The files of the store and of the session store.
#[derive(Clone)]
pub struct Sqlite {
    pub db_path: String,
    pub session_db_path: String,
}

/// Why a configuration is refused.
#[derive(Debug)]
pub enum Error {
    /// The configuration file could not be read.
    Io(String),
    /// The configuration file is not well-formed.
    Parse(String),
    /// The configuration names a backend and does not describe it.
    Malformed(String),
}

/// The port that the server listens on unless the configuration names one.
pub const DEFAULT_HTTP_PORT: u16 = 3000;

/// The configuration names the backend that it also describes.
pub open spec fn describes_backend(parsed: internal::Config) -> bool {
    match parsed.images.backend {
        internal::ImageBackend::S3 => parsed.images.s3 is Some,
        internal::ImageBackend::File => parsed.images.file is Some,
    }
}

/// What the server makes of a configuration file: the port defaults to 3000
/// and cookies to secure ones, the path of the static files is the one given,
/// and of the backends that the file describes the one that it names is
/// taken. A file that names a backend without describing it is refused as
/// malformed.
pub fn resolve(parsed: internal::Config, static_build_path: String) -> (resolved: Result<
    Config,
    Error,
>)
    ensures
        resolved is Ok <==> describes_backend(parsed),
        match resolved {
            Ok(config) => {
                &&& config.http_port == match parsed.http_port {
                    Some(port) => port,
                    None => DEFAULT_HTTP_PORT,
                }
                &&& config.origin@ == parsed.origin@
                &&& config.insecure_cookies == (parsed.insecure_cookies == Some(true))
                &&& config.static_build_path@ == static_build_path@
                &&& config.oidc.issuer_url@ == parsed.oidc.issuer_url@
                &&& config.oidc.client_id@ == parsed.oidc.client_id@
                &&& config.oidc.client_secret@ == parsed.oidc.client_secret@
                &&& config.sqlite.db_path@ == parsed.sqlite.db_path@
                &&& config.sqlite.session_db_path@ == parsed.sqlite.session_db_path@
                &&& match config.image_backend {
                    ImageBackend::S3(s3) => parsed.images.backend is S3 && parsed.images.s3 is Some
                        && s3.host@ == parsed.images.s3->0.host@ && s3.bucket@
                        == parsed.images.s3->0.bucket@ && s3.region@ == parsed.images.s3->0.region@
                        && s3.secret_access_key@ == parsed.images.s3->0.secret_access_key@
                        && s3.secret_access_key_id@ == parsed.images.s3->0.secret_access_key_id@,
                    ImageBackend::File(file) => parsed.images.backend is File
                        && parsed.images.file is Some && file.directory@
                        == parsed.images.file->0.directory@,
                }
            },
            Err(error) => error is Malformed,
        },
{
    let image_backend = match parsed.images.backend {
        internal::ImageBackend::S3 => match parsed.images.s3 {
            Some(config) => ImageBackend::S3(
                ImageBackendS3 {
                    host: config.host,
                    bucket: config.bucket,
                    region: config.region,
                    secret_access_key: config.secret_access_key,
                    secret_access_key_id: config.secret_access_key_id,
                },
            ),
            None => {
                return Err(
                    Error::Malformed(copy_str("Image backend is s3, but missing s3 config.")),
                );
            },
        },
        internal::ImageBackend::File => match parsed.images.file {
            Some(config) => ImageBackend::File(ImageBackendFile { directory: config.directory }),
            None => {
                return Err(
                    Error::Malformed(copy_str("Image backend is file, but missing file config.")),
                );
            },
        },
    };
    Ok(
        Config {
            http_port: match parsed.http_port {
                Some(port) => port,
                None => DEFAULT_HTTP_PORT,
            },
            origin: parsed.origin,
            insecure_cookies: match parsed.insecure_cookies {
                Some(insecure) => insecure,
                None => false,
            },
            static_build_path,
            oidc: Oidc {
                issuer_url: parsed.oidc.issuer_url,
                client_id: parsed.oidc.client_id,
                client_secret: parsed.oidc.client_secret,
            },
            sqlite: Sqlite {
                db_path: parsed.sqlite.db_path,
                session_db_path: parsed.sqlite.session_db_path,
            },
            image_backend,
        },
    )
}

} // verus!
