use mise::application::image::original_path;
use mise::application::recipe::{document_of_creating, document_of_updating, recipe_error};
use mise::application::session::{
    begin, get, new_session_id, refresh_session, seconds_after, Error, Found, SESSION_EXPIRES_IN,
};
use mise::application::user::registering;
use mise::application::Error as ApplicationError;
use mise::config::internal;
use mise::config::{resolve, Error as ConfigError, ImageBackend};
use mise::datastore;
use mise::domain::id::Id;
use mise::domain::recipe::{IngredientBlock, InstructionBlock, Notes, StringifiedBlock, Title};
use mise::domain::tag::{Name, Tag};
use mise::domain::{
    CreatingRecipe, ListedRecipe, Session, SessionKey, UpdatingRecipe, ValidationError,
};
use mise::http::recipe::{
    ingredients_reply, instructions_reply, listed_reply, parse_ingredients, parse_instructions,
    Ingredients, Instructions,
};
use mise::http::server::{report, AuthenticatedUser};
use mise::http::tag::{creating, tag_reply, CreateParams};
use mise::image_processing::{
    has_keep_flag, is_at_least_major_minor, metadata_flag, vips_command,
};

const NOW: i64 = 1_700_000_000;

#[test]
fn image_is_kept_under_its_identifier() {
    assert_eq!("abc-original.jpg", original_path("abc"));
    assert_eq!("-original.jpg", original_path(""));
}

fn ingredient_blocks() -> Vec<IngredientBlock> {
    vec![
        IngredientBlock::try_from(StringifiedBlock {
            title: None,
            items: vec!["One chicken".to_owned(), "Parmesan cheese".to_owned()],
        })
        .unwrap(),
        IngredientBlock::try_from(StringifiedBlock {
            title: Some("Sauce".to_owned()),
            items: vec!["Tomatoes".to_owned()],
        })
        .unwrap(),
    ]
}

fn instruction_blocks() -> Vec<InstructionBlock> {
    vec![InstructionBlock::try_from(StringifiedBlock {
        title: None,
        items: vec!["Broil the chicken".to_owned(), "Add the parmesan".to_owned()],
    })
    .unwrap()]
}

fn plain(blocks: Vec<StringifiedBlock>) -> Vec<(Option<String>, Vec<String>)> {
    blocks.into_iter().map(|b| (b.title, b.items)).collect()
}

#[test]
fn document_holds_the_texts_of_the_recipe_in_their_order() {
    let tag_id = Id::new();
    let image_id = Id::new();
    let document = document_of_creating(CreatingRecipe {
        title: Title::try_from("Chicken Parm".to_owned()).unwrap(),
        image_id: Some(image_id),
        ingredients: ingredient_blocks(),
        instructions: instruction_blocks(),
        notes: Some(Notes::try_from("Best served hot!".to_owned()).unwrap()),
        tag_ids: vec![tag_id],
    });
    assert_eq!("Chicken Parm", document.title);
    assert_eq!(Some(image_id), document.image_id);
    assert_eq!(Some("Best served hot!".to_owned()), document.notes);
    assert_eq!(vec![tag_id], document.tag_ids);
    assert_eq!(
        vec![
            (None, vec!["One chicken".to_owned(), "Parmesan cheese".to_owned()]),
            (Some("Sauce".to_owned()), vec!["Tomatoes".to_owned()]),
        ],
        plain(document.ingredients)
    );
    assert_eq!(
        vec![(None, vec!["Broil the chicken".to_owned(), "Add the parmesan".to_owned()])],
        plain(document.instructions)
    );

    let document = document_of_updating(UpdatingRecipe {
        id: Id::new(),
        previous_hash: "hash".to_owned(),
        title: Title::try_from("Salad".to_owned()).unwrap(),
        image_id: None,
        ingredients: ingredient_blocks(),
        instructions: vec![],
        notes: None,
        tag_ids: vec![],
    });
    assert_eq!("Salad", document.title);
    assert_eq!(2, document.ingredients.len());
    assert_eq!(Some("Sauce".to_owned()), document.ingredients[1].title);
    assert!(document.instructions.is_empty());
    assert!(document.notes.is_none());
}

#[test]
fn missing_recipe_is_reported_by_name() {
    let id = Id::from_value(31);
    match recipe_error(datastore::Error::NotFound, &id) {
        ApplicationError::NotFound(message) => {
            assert_eq!("recipe 0000000000000000000000000Z does not exist", message)
        }
        other => panic!("reported as {other:?}"),
    }
    assert!(matches!(
        recipe_error(datastore::Error::Conflict, &id),
        ApplicationError::Other(_)
    ));
    assert!(matches!(
        recipe_error(datastore::Error::Unknown("x".to_owned()), &id),
        ApplicationError::Other(message) if message == "x"
    ));
}

#[test]
fn error_is_reported_under_its_status() {
    let reported = report(&ApplicationError::NotFound("recipe x does not exist".to_owned()));
    assert_eq!((404, "recipe x does not exist"), (reported.status, reported.body.as_str()));
    let reported = report(&ApplicationError::Unauthenticated("missing session cookie".to_owned()));
    assert_eq!((401, "Unauthenticated."), (reported.status, reported.body.as_str()));
    let reported = report(&ApplicationError::Invalid("No file found.".to_owned()));
    assert_eq!((422, "No file found."), (reported.status, reported.body.as_str()));
    let reported = report(&ApplicationError::DomainValidation(ValidationError::Constraint(
        "too short".to_owned(),
    )));
    assert_eq!((422, "too short"), (reported.status, reported.body.as_str()));
    let reported = report(&ApplicationError::Other("disk full".to_owned()));
    assert_eq!((500, "Internal error"), (reported.status, reported.body.as_str()));
}

#[test]
fn request_blocks_are_validated() {
    let block = parse_ingredients(Ingredients {
        title: Some(" Sauce ".to_owned()),
        ingredients: vec!["Tomatoes ".to_owned()],
    })
    .unwrap();
    let reply = ingredients_reply(block);
    assert_eq!(Some("Sauce".to_owned()), reply.title);
    assert_eq!(vec!["Tomatoes".to_owned()], reply.ingredients);

    let block = parse_instructions(Instructions {
        title: None,
        instructions: vec!["Stir".to_owned()],
    })
    .unwrap();
    let reply = instructions_reply(block);
    assert_eq!(None, reply.title);
    assert_eq!(vec!["Stir".to_owned()], reply.instructions);

    let rejected = parse_instructions(Instructions {
        title: None,
        instructions: vec!["Stir".to_owned(), " ".to_owned()],
    });
    match rejected {
        Err(ApplicationError::DomainValidation(ValidationError::Constraint(message))) => {
            assert_eq!("\" \" must contain at least one character.", message)
        }
        other => panic!("parsed as {other:?}"),
    }
    assert!(parse_ingredients(Ingredients { title: Some("".to_owned()), ingredients: vec![] }).is_err());
}

#[test]
fn replies_carry_identifiers_as_text() {
    let reply = listed_reply(ListedRecipe {
        id: Id::from_value(31),
        title: Title::try_from("Stew".to_owned()).unwrap(),
        image_id: Some(Id::from_value(0)),
    });
    assert_eq!("0000000000000000000000000Z", reply.id);
    assert_eq!("Stew", reply.title);
    assert_eq!(Some("00000000000000000000000000".to_owned()), reply.image_id);

    let tag = tag_reply(Tag { id: Id::from_value(1), name: Name::try_from("Soup".to_owned()).unwrap() });
    assert_eq!((Id::from_value(1), "Soup"), (tag.id, tag.name.as_str()));
    assert_eq!("Soup", creating(CreateParams { name: " Soup".to_owned() }).unwrap().name.as_str());
    assert!(creating(CreateParams { name: " ".to_owned() }).is_err());
    assert_eq!("u", AuthenticatedUser { id: "u".to_owned() }.into_authenticated().id);
}

#[test]
fn user_is_registered_under_a_prefixed_identity() {
    let user = registering(&Id::from_value(0), "subject-1", "Ann");
    assert_eq!("00000000000000000000000000", user.potential_id);
    assert_eq!("custom|subject-1", user.oauth_id);
    assert_eq!("Ann", user.name);
}

#[test]
fn session_key_is_the_text_of_random_bytes() {
    let first = new_session_id().unwrap();
    let second = new_session_id().unwrap();
    // 32 bytes make 44 characters of padded base 64
    assert_eq!(44, first.len());
    assert!(first.ends_with('='));
    assert!(first.chars().all(|c| c.is_ascii_alphanumeric() || "-_=".contains(c)));
    assert_ne!(first, second);
}

#[test]
fn session_lasts_ninety_days() {
    assert_eq!(60 * 60 * 24 * 90, SESSION_EXPIRES_IN);
    let session = begin("key".to_owned(), "user", "token", NOW + 300, NOW).unwrap();
    assert_eq!(("key", "user", "token"), (session.key.as_str(), session.user_id.as_str(), session.refresh_token.as_str()));
    assert_eq!(NOW + 300, session.revalidate_at);
    assert_eq!(NOW + 7_776_000, session.expires_at);

    assert_eq!(Ok(i64::MAX), seconds_after(i64::MAX - 5, 5));
    assert_eq!(Err(Error::TimeOutOfBounds), seconds_after(i64::MAX - 5, 6));
    let late = begin("key".to_owned(), "user", "token", 0, i64::MAX - SESSION_EXPIRES_IN + 1);
    assert!(matches!(late, Err(Error::TimeOutOfBounds)));
}

fn stored(revalidate_at: i64, expires_at: i64) -> Session {
    Session {
        key: "old".to_owned(),
        user_id: "user".to_owned(),
        refresh_token: "token".to_owned(),
        revalidate_at,
        expires_at,
    }
}

#[test]
fn session_is_used_refused_or_refreshed() {
    match get(stored(NOW + 10, NOW + 20), NOW) {
        Found::Active(active) => {
            assert_eq!("old", active.key.as_str());
            assert_eq!("user", active.user_id);
            assert_eq!(NOW + 20, active.expires_at);
        }
        other => panic!("found {other:?}"),
    }
    assert!(matches!(get(stored(NOW + 10, NOW + 20), NOW + 20), Found::Expired));
    match get(stored(NOW + 10, NOW + 20), NOW + 10) {
        Found::MustRevalidate(session) => assert_eq!("token", session.refresh_token),
        other => panic!("found {other:?}"),
    }
}

#[test]
fn refresh_leaves_the_old_session_for_a_while() {
    let refreshed = refresh_session(
        &stored(NOW - 1, NOW + 1000),
        &SessionKey("old".to_owned()),
        "new".to_owned(),
        "next token".to_owned(),
        NOW + 300,
        NOW,
    )
    .unwrap();
    let original = refreshed.original;
    assert_eq!(("old", "user", "token"), (original.key.as_str(), original.user_id.as_str(), original.refresh_token.as_str()));
    assert_eq!((NOW + 15, NOW + 15), (original.revalidate_at, original.expires_at));
    let renewed = refreshed.renewed;
    assert_eq!(("new", "user", "next token"), (renewed.key.as_str(), renewed.user_id.as_str(), renewed.refresh_token.as_str()));
    assert_eq!((NOW + 300, NOW + 7_776_000), (renewed.revalidate_at, renewed.expires_at));
    assert_eq!("new", refreshed.active.key.as_str());
    assert_eq!("user", refreshed.active.user_id);
    assert_eq!(NOW + 7_776_000, refreshed.active.expires_at);

    let late = refresh_session(
        &stored(0, 1),
        &SessionKey("old".to_owned()),
        "new".to_owned(),
        "next".to_owned(),
        0,
        i64::MAX - 100,
    );
    assert!(matches!(late, Err(Error::TimeOutOfBounds)));
}

fn parsed(backend: internal::ImageBackend, s3: bool, file: bool) -> internal::Config {
    internal::Config {
        http_port: None,
        origin: "https://mise.example".to_owned(),
        insecure_cookies: None,
        oidc: internal::Oidc {
            issuer_url: "https://id.example".to_owned(),
            client_id: "client".to_owned(),
            client_secret: "SECRET-REDACTED".to_owned(),
        },
        sqlite: internal::Sqlite {
            db_path: "mise.db".to_owned(),
            session_db_path: "sessions.db".to_owned(),
        },
        images: internal::Images {
            s3: if s3 {
                Some(internal::S3 {
                    host: "s3.example".to_owned(),
                    bucket: "bucket".to_owned(),
                    region: "region".to_owned(),
                    secret_access_key: "SECRET-REDACTED".to_owned(),
                    secret_access_key_id: "key id".to_owned(),
                })
            } else {
                None
            },
            file: if file { Some(internal::File { directory: "images".to_owned() }) } else { None },
            backend,
        },
    }
}

#[test]
fn configuration_takes_its_defaults() {
    let config = resolve(parsed(internal::ImageBackend::File, false, true), "../ui/build".to_owned())
        .unwrap();
    assert_eq!(3000, config.http_port);
    assert!(!config.insecure_cookies);
    assert_eq!("https://mise.example", config.origin);
    assert_eq!("../ui/build", config.static_build_path);
    assert_eq!("https://id.example", config.oidc.issuer_url);
    assert_eq!("client", config.oidc.client_id);
    assert_eq!("mise.db", config.sqlite.db_path);
    assert_eq!("sessions.db", config.sqlite.session_db_path);
    assert!(matches!(config.image_backend, ImageBackend::File(file) if file.directory == "images"));

    let mut file = parsed(internal::ImageBackend::S3, true, true);
    file.http_port = Some(8080);
    file.insecure_cookies = Some(true);
    let config = resolve(file, "build".to_owned()).unwrap();
    assert_eq!(8080, config.http_port);
    assert!(config.insecure_cookies);
    match config.image_backend {
        ImageBackend::S3(s3) => {
            assert_eq!(("s3.example", "bucket", "region"), (s3.host.as_str(), s3.bucket.as_str(), s3.region.as_str()));
            assert_eq!("key id", s3.secret_access_key_id);
        }
        ImageBackend::File(_) => panic!("the backend that is named is s3"),
    }
}

#[test]
fn configuration_has_to_describe_the_backend_that_it_names() {
    match resolve(parsed(internal::ImageBackend::S3, false, true), String::new()) {
        Err(ConfigError::Malformed(message)) => {
            assert_eq!("Image backend is s3, but missing s3 config.", message)
        }
        _ => panic!("a backend that is not described was accepted"),
    }
    match resolve(parsed(internal::ImageBackend::File, true, false), String::new()) {
        Err(ConfigError::Malformed(message)) => {
            assert_eq!("Image backend is file, but missing file config.", message)
        }
        _ => panic!("a backend that is not described was accepted"),
    }
}

#[test]
fn metadata_is_kept_or_stripped_by_version() {
    assert!(has_keep_flag((8, 15)));
    assert!(has_keep_flag((9, 0)));
    assert!(!has_keep_flag((8, 14)));
    assert!(is_at_least_major_minor((8, 15), (8, 15)));
    assert_eq!("--keep icc", metadata_flag(true));
    assert_eq!("--strip", metadata_flag(false));
    assert_eq!(
        "vips jpegsave /tmp/x/-original /tmp/x/-jpg.jpg && vips autorot /tmp/x/-jpg.jpg /tmp/x/-rotated.jpg && vips jpegsave /tmp/x/-rotated.jpg /tmp/x/-stripped.jpg --Q 75 --strip",
        vips_command("/tmp/x/", false)
    );
}

fn told(error: ApplicationError) -> (&'static str, String) {
    match error {
        ApplicationError::NotFound(message) => ("not found", message),
        ApplicationError::Unauthenticated(message) => ("unauthenticated", message),
        ApplicationError::Invalid(message) => ("invalid", message),
        ApplicationError::DomainValidation(error) => ("domain", error.to_string()),
        ApplicationError::Other(message) => ("other", message),
    }
}

#[test]
fn failure_of_the_store_is_an_error_of_the_server() {
    store_errors(mise::application::recipe::store_error, "record not found");
}

fn store_errors(report: fn(datastore::Error) -> ApplicationError, not_found: &str) {
    assert_eq!(("other", not_found.to_owned()), told(report(datastore::Error::NotFound)));
    assert_eq!(
        ("other", "invalid state when mutating record".to_owned()),
        told(report(datastore::Error::Conflict))
    );
    assert_eq!(
        ("other", "no available connections".to_owned()),
        told(report(datastore::Error::NoConnections))
    );
    assert_eq!(
        ("other", "a stored document cannot be read".to_owned()),
        told(report(datastore::Error::Serialization))
    );
    assert_eq!(
        ("other", "disk full".to_owned()),
        told(report(datastore::Error::Unknown("disk full".to_owned())))
    );
}

#[test]
fn missing_user_is_reported_by_name() {
    assert_eq!(
        ("not found", "user abc does not exist".to_owned()),
        told(mise::application::user::user_error(datastore::Error::NotFound, "abc"))
    );
    assert_eq!(
        ("other", "no available connections".to_owned()),
        told(mise::application::user::user_error(datastore::Error::NoConnections, "abc"))
    );
}

#[test]
fn missing_image_is_reported_as_such() {
    assert_eq!(
        ("not found", "Image not found.".to_owned()),
        told(mise::application::image::unknown_image(datastore::Error::NotFound))
    );
    assert_eq!(
        ("other", "x".to_owned()),
        told(mise::application::image::unknown_image(datastore::Error::Unknown("x".to_owned())))
    );
    assert_eq!(
        ("not found", "Image not found.".to_owned()),
        told(mise::application::image::image_error(mise::imagestore::Error::NotFound(
            "no such file".to_owned()
        )))
    );
    for error in [
        mise::imagestore::Error::DuplicatePath("a".to_owned()),
        mise::imagestore::Error::Config("b".to_owned()),
        mise::imagestore::Error::Other("c".to_owned()),
    ] {
        assert_eq!(
            ("other", "Could not get image.".to_owned()),
            told(mise::application::image::image_error(error))
        );
    }
}

#[test]
fn session_that_cannot_be_had_is_reported() {
    assert_eq!(
        ("unauthenticated", "session is expired".to_owned()),
        told(mise::application::session::reported(Error::Expired))
    );
    assert_eq!(
        ("other", "crypto random error".to_owned()),
        told(mise::application::session::reported(Error::CryptoRandom))
    );
    assert_eq!(
        ("other", "time out of bounds".to_owned()),
        told(mise::application::session::reported(Error::TimeOutOfBounds))
    );
    assert_eq!(
        ("unauthenticated", "session not found".to_owned()),
        told(mise::application::session::session_error(mise::session_store::Error::NotFound))
    );
    assert_eq!(
        ("other", "refresh lock timeout".to_owned()),
        told(mise::application::session::session_error(
            mise::session_store::Error::RefreshLockTimeout
        ))
    );
    assert_eq!(
        ("other", "locked".to_owned()),
        told(mise::application::session::session_error(mise::session_store::Error::Other(
            "locked".to_owned()
        )))
    );
}

#[test]
fn callers_are_told_how_long_to_keep_what_they_get() {
    assert_eq!("private, immutable, max-age=31536000", mise::http::image::cache_control());
    assert_eq!("public, immutable, max-age=1209600", mise::http::server::static_cache_control());
    assert_eq!("max-age=0, no-cache, must-revalidate", mise::http::server::entry_cache_control());
}
