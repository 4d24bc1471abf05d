use mise::application::Error;
use mise::config;
use mise::domain::id::Id;
use mise::domain::page::cursor;
use mise::domain::recipe::{IngredientBlock, InstructionBlock, Notes, StringifiedBlock, Title};
use mise::domain::tag::{Name, OnRecipe, WithStats};
use mise::domain::{Recipe, ValidationError};
use mise::http::image::{etag, is_not_modified};
use mise::http::recipe::{
    creating_recipe, decode_cursor, encode_cursor, filter_of, parse_tag_ids, recipe_reply,
    updating_recipe, CreateParams, Ingredients, Instructions, UpdateParams,
};
use mise::http::tag::stats_reply;
use mise::image_processing::{find_vips_version, ImageProcessor};
use mise::oidc;
use mise::text::{ends_with, split};

#[test]
fn text_is_split_at_every_separator() {
    assert_eq!(vec![""], split("", ','));
    assert_eq!(vec!["a"], split("a", ','));
    assert_eq!(vec!["a", "b"], split("a,b", ','));
    assert_eq!(vec!["", "a", "", "b", ""], split(",a,,b,", ','));
    assert_eq!(vec!["é", "日本", "x"], split("é.日本.x", '.'));
    assert!(ends_with("a/", '/'));
    assert!(!ends_with("/a", '/'));
    assert!(!ends_with("", '/'));
}

#[test]
fn tags_of_a_request_are_those_that_are_identifiers() {
    let first = Id::from_value(1);
    let second = Id::from_value(2);
    let (a, b) = (first.to_string(), second.to_string());
    let list = format!("{a},not-an-id,,{b},{a}");
    assert_eq!(vec![first, second, first], parse_tag_ids(&list));
    assert!(parse_tag_ids("").is_empty());

    let filter = filter_of(Some("Soup".to_owned()), Some(list));
    assert_eq!(Some("Soup".to_owned()), filter.name);
    assert_eq!(vec![first, second, first], filter.tag_ids);
    let filter = filter_of(None, None);
    assert_eq!(None, filter.name);
    assert!(filter.tag_ids.is_empty());
}

#[test]
fn cursor_reads_back_from_its_text() {
    let position = cursor::Recipe { id: Id::from_value(7).to_string(), name: "Crème brûlée".to_owned() };
    let text = encode_cursor(&position).unwrap();
    // one byte of length before the 26 of the identifier, one before the 15 of the
    // name: 43 bytes, which make 60 characters of padded base 64
    assert_eq!(60, text.len());
    assert!(text.starts_with("GjAwMDAw"), "the text is {text}");
    let read = decode_cursor(&text).unwrap();
    assert_eq!(position.id, read.id);
    assert_eq!(position.name, read.name);

    let empty = cursor::Recipe { id: String::new(), name: String::new() };
    assert_eq!("AAA=", encode_cursor(&empty).unwrap());
    let read = decode_cursor("AAA=").unwrap();
    assert_eq!(("", ""), (read.id.as_str(), read.name.as_str()));
}

#[test]
fn what_is_no_cursor_is_refused() {
    for text in ["", "!", "AA==", "AAAA", "AQ==", "AgE="] {
        assert!(matches!(decode_cursor(text), Err(Error::Other(_))), "{text} was read");
    }
}

fn create(title: &str, image_id: Option<&str>, item: &str, notes: Option<&str>) -> CreateParams {
    CreateParams {
        title: title.to_owned(),
        image_id: image_id.map(|i| i.to_owned()),
        ingredients: vec![Ingredients {
            title: None,
            ingredients: vec!["One chicken".to_owned(), item.to_owned()],
        }],
        instructions: vec![Instructions {
            title: Some(" Oven ".to_owned()),
            instructions: vec!["Broil the chicken".to_owned()],
        }],
        notes: notes.map(|n| n.to_owned()),
        tag_ids: vec![Id::from_value(3)],
    }
}

fn message(error: Error) -> (bool, String) {
    match error {
        Error::DomainValidation(ValidationError::Constraint(message)) => (false, message),
        Error::DomainValidation(ValidationError::Format(message)) => (true, message),
        other => panic!("rejected with {other:?}"),
    }
}

#[test]
fn request_is_validated_text_by_text() {
    let image = Id::from_value(9);
    let recipe =
        creating_recipe(create(" Chicken Parm ", Some(&image.to_string()), "Parmesan cheese ", Some("Hot!")))
            .unwrap();
    assert_eq!("Chicken Parm", recipe.title.as_str());
    assert_eq!(Some(image), recipe.image_id);
    assert_eq!(vec![Id::from_value(3)], recipe.tag_ids);
    assert_eq!("Hot!", recipe.notes.unwrap().as_str());
    let block = StringifiedBlock::from_ingredient_block(recipe.ingredients[0].clone());
    assert_eq!(vec!["One chicken", "Parmesan cheese"], block.items);
    let block = StringifiedBlock::from_instruction_block(recipe.instructions[0].clone());
    assert_eq!(Some("Oven".to_owned()), block.title);

    // the first text that is rejected rejects the request
    let rejected = creating_recipe(create(" ", Some("x"), "", Some(""))).unwrap_err();
    assert_eq!((false, "Recipe title \" \" must contain at least one character.".to_owned()), message(rejected));
    let rejected = creating_recipe(create("T", Some("x"), "", Some(""))).unwrap_err();
    assert_eq!((true, "Could not parse ulid: x. invalid length".to_owned()), message(rejected));
    let rejected = creating_recipe(create("T", None, "", Some(""))).unwrap_err();
    assert_eq!((false, "\"\" must contain at least one character.".to_owned()), message(rejected));
    let rejected = creating_recipe(create("T", None, "x", Some(""))).unwrap_err();
    assert_eq!(
        (false, "Recipe notes \"\" must contain at least one character, or else be null.".to_owned()),
        message(rejected)
    );
}

#[test]
fn update_carries_the_hash_that_was_presented() {
    let request = create("Salad", None, "leaves", None);
    let id = Id::from_value(5);
    let recipe = updating_recipe(
        id,
        UpdateParams {
            previous_hash: "hash".to_owned(),
            title: request.title,
            image_id: request.image_id,
            ingredients: request.ingredients,
            instructions: request.instructions,
            notes: request.notes,
            tag_ids: request.tag_ids,
        },
    )
    .unwrap();
    assert_eq!(id, recipe.id);
    assert_eq!("hash", recipe.previous_hash);
    assert_eq!("Salad", recipe.title.as_str());
    assert!(recipe.notes.is_none());
    assert_eq!(1, recipe.ingredients.len());

    let rejected = updating_recipe(
        id,
        UpdateParams {
            previous_hash: "hash".to_owned(),
            title: "".to_owned(),
            image_id: None,
            ingredients: vec![],
            instructions: vec![],
            notes: None,
            tag_ids: vec![],
        },
    );
    assert!(matches!(rejected, Err(Error::DomainValidation(_))));
}

#[test]
fn recipe_is_replied_as_texts() {
    let recipe = Recipe {
        id: Id::from_value(31),
        hash: "hash".to_owned(),
        title: Title::try_from("Chicken Parm".to_owned()).unwrap(),
        image_id: Some(Id::from_value(0)),
        ingredients: vec![
            IngredientBlock::try_from(StringifiedBlock { title: None, items: vec!["a".to_owned()] })
                .unwrap(),
            IngredientBlock::try_from(StringifiedBlock {
                title: Some("b".to_owned()),
                items: vec!["c".to_owned(), "d".to_owned()],
            })
            .unwrap(),
        ],
        instructions: vec![InstructionBlock::try_from(StringifiedBlock {
            title: None,
            items: vec!["e".to_owned()],
        })
        .unwrap()],
        notes: Some(Notes::try_from("f".to_owned()).unwrap()),
        tags: vec![OnRecipe { id: Id::from_value(1), name: Name::try_from("Soup".to_owned()).unwrap() }],
    };
    let reply = recipe_reply(recipe);
    assert_eq!("0000000000000000000000000Z", reply.id);
    assert_eq!("hash", reply.hash);
    assert_eq!("Chicken Parm", reply.title);
    assert_eq!(Some("00000000000000000000000000".to_owned()), reply.image_id);
    assert_eq!(2, reply.ingredient_blocks.len());
    assert_eq!(None, reply.ingredient_blocks[0].title);
    assert_eq!(vec!["a"], reply.ingredient_blocks[0].ingredients);
    assert_eq!(Some("b".to_owned()), reply.ingredient_blocks[1].title);
    assert_eq!(vec!["c", "d"], reply.ingredient_blocks[1].ingredients);
    assert_eq!(vec!["e"], reply.instruction_blocks[0].instructions);
    assert_eq!(Some("f".to_owned()), reply.notes);
    assert_eq!(1, reply.tags.len());
    assert_eq!(("00000000000000000000000001", "Soup"), (reply.tags[0].id.as_str(), reply.tags[0].name.as_str()));

    let stats = stats_reply(WithStats {
        id: Id::from_value(1),
        name: Name::try_from("Soup".to_owned()).unwrap(),
        recipe_count: 4,
    });
    assert_eq!((Id::from_value(1), "Soup", 4), (stats.id, stats.name.as_str(), stats.recipe_count));
}

#[test]
fn supplies_etag_for_cache() {
    assert_eq!("\"abc\"", etag("abc"));
    assert!(is_not_modified(Some("\"abc\""), "abc"));
    assert!(!is_not_modified(Some("abc"), "abc"));
    assert!(!is_not_modified(Some("\"abd\""), "abc"));
    assert!(!is_not_modified(None, "abc"));
}

#[test]
fn version_of_the_image_tool_is_read() {
    assert_eq!((8, 15), find_vips_version("vips-8.15.1\n").unwrap());
    assert_eq!((8, 12), find_vips_version("  vips-8.12.2-Tue Jan 25 09:34:32 UTC 2022").unwrap());
    // a sign is read with its number
    assert_eq!((8, 15), find_vips_version("vips_-8.+15.1").unwrap());
    for printed in ["", "vips", "vips-8.15", "vips-8.15.1.2", "vips-a.15.1", "vips-8.b.1", "vips-8..1", "vips--1.7.0"] {
        assert!(find_vips_version(printed).is_err(), "{printed} was read");
    }
    // the third number is not looked at
    assert_eq!((8, 15), find_vips_version("vips-8.15.x").unwrap());

    let processor = ImageProcessor::of_version((8, 15));
    assert_eq!("/tmp/mise-images", processor.working_directory);
    assert!(processor.vips_has_keep_flag);
    assert!(!ImageProcessor::of_version((7, 99)).vips_has_keep_flag);
}

fn server_config(origin: &str) -> config::Config {
    config::Config {
        http_port: 3000,
        origin: origin.to_owned(),
        insecure_cookies: false,
        static_build_path: String::new(),
        oidc: config::Oidc {
            issuer_url: "https://id.example".to_owned(),
            client_id: "client".to_owned(),
            client_secret: "SECRET-REDACTED".to_owned(),
        },
        sqlite: config::Sqlite { db_path: String::new(), session_db_path: String::new() },
        image_backend: config::ImageBackend::File(config::ImageBackendFile {
            directory: String::new(),
        }),
    }
}

#[test]
fn origin_must_not_end_with_a_slash() {
    let taken = oidc::Config::try_from(&server_config("https://mise.example")).unwrap();
    assert_eq!("https://mise.example", taken.origin);
    assert_eq!("https://id.example", taken.issuer_url);
    assert_eq!("client", taken.client_id);
    assert_eq!("https://mise.example/auth/complete", taken.redirect_url());
    assert!(matches!(
        oidc::Config::try_from(&server_config("https://mise.example/")),
        Err(oidc::Error::OriginMustNotEndWithSlash)
    ));
    assert!(oidc::Config::try_from(&server_config("")).is_ok());
}

#[test]
fn sign_in_is_checked_and_dated() {
    assert!(oidc::csrf_matches("state", "state"));
    assert!(!oidc::csrf_matches("state", "State"));
    assert!(!oidc::csrf_matches("state", ""));
    assert_eq!(1300, oidc::expires_at(1000, 300).unwrap());
    assert_eq!(i64::MAX, oidc::expires_at(i64::MAX - 1, 1).unwrap());
    assert!(matches!(oidc::expires_at(i64::MAX, 1), Err(oidc::Error::InvalidExpiresIn(1))));
    assert!(matches!(
        oidc::expires_at(0, u64::MAX),
        Err(oidc::Error::InvalidExpiresIn(u64::MAX))
    ));
    assert_eq!("Ann", oidc::display_name("subject", Some("Ann")));
    assert_eq!("subject", oidc::display_name("subject", None));
}

fn create_recipe(
    db: &mut mise::sqlite::database::Database,
    title: &str,
    image_id: Option<Id>,
    tag_ids: Vec<Id>,
) -> Id {
    let request = CreateParams {
        title: title.to_owned(),
        image_id: image_id.map(|id| id.to_string()),
        ingredients: vec![],
        instructions: vec![],
        notes: None,
        tag_ids,
    };
    let document = mise::application::recipe::document_of_creating(creating_recipe(request).unwrap());
    let id = Id::new();
    mise::sqlite::recipe::insert(db, &id.to_string(), "user", document).unwrap();
    id
}

fn store_with_user() -> mise::sqlite::database::Database {
    let mut db = mise::sqlite::database::Database::new();
    mise::sqlite::pool::upsert_user_by_oauth_id(
        &mut db,
        &mise::domain::RegisteringUser {
            potential_id: "user".into(),
            oauth_id: "custom|user".into(),
            name: "user".into(),
        },
    )
    .unwrap();
    db
}

fn new_image(db: &mut mise::sqlite::database::Database) -> Id {
    let id = Id::new();
    mise::sqlite::image::insert(db, &id.to_string()).unwrap();
    id
}

#[test]
fn can_get_me() {
    let user = mise::http::server::AuthenticatedUser { id: "thomas".to_owned() };
    assert_eq!("you are: thomas", mise::http::server::get_me(&user));
}

#[test]
fn cannot_get_unknown_recipe() {
    let db = mise::sqlite::database::Database::new();
    let random_id = Id::new();
    let error = mise::sqlite::recipe::get(&db, &random_id.to_string()).unwrap_err();
    let reported = mise::http::server::report(&mise::application::recipe::recipe_error(error, &random_id));
    assert_eq!(404, reported.status);
    assert_eq!(format!("recipe {} does not exist", random_id.to_string()), reported.body);
}

#[test]
fn can_create_and_get_recipe() {
    let mut db = store_with_user();
    let image_id = Id::new();
    mise::sqlite::image::insert(&mut db, &image_id.to_string()).unwrap();
    let tag_id = mise::sqlite::tag::insert(&mut db, "user", "Main Dish").unwrap();

    let request = CreateParams {
        title: "Chicken Parm".into(),
        image_id: Some(image_id.to_string()),
        ingredients: vec![Ingredients {
            title: None,
            ingredients: vec!["One chicken".into(), "Parmesan cheese".into()],
        }],
        instructions: vec![Instructions {
            title: None,
            instructions: vec!["Broil the chicken".into(), "Add the parmesan".into()],
        }],
        notes: Some("Best served hot!".into()),
        tag_ids: vec![tag_id],
    };
    let document = mise::application::recipe::document_of_creating(creating_recipe(request).unwrap());
    let id = Id::new();
    mise::sqlite::recipe::insert(&mut db, &id.to_string(), "user", document).unwrap();

    // try to get recipe
    let result = recipe_reply(mise::sqlite::recipe::get(&db, &id.to_string()).unwrap());

    assert_eq!(id.to_string(), result.id);
    assert_eq!("Chicken Parm", result.title);
    assert_eq!(Some(image_id.to_string()), result.image_id);
    assert_eq!(1, result.ingredient_blocks.len());
    assert_eq!(None, result.ingredient_blocks[0].title);
    assert_eq!(
        vec!["One chicken".to_owned(), "Parmesan cheese".to_owned()],
        result.ingredient_blocks[0].ingredients
    );
    assert_eq!(1, result.instruction_blocks.len());
    assert_eq!(None, result.instruction_blocks[0].title);
    assert_eq!(
        vec!["Broil the chicken".to_owned(), "Add the parmesan".to_owned()],
        result.instruction_blocks[0].instructions
    );
    assert_eq!(Some("Best served hot!".to_owned()), result.notes);
    assert_eq!(1, result.tags.len());
    assert_eq!(tag_id.to_string(), result.tags[0].id);
    assert_eq!("Main Dish", result.tags[0].name);
}

#[test]
fn can_list_recipes() {
    let mut db = store_with_user();
    let image_id_1 = new_image(&mut db);
    let image_id_3 = new_image(&mut db);
    let recipe_id_1 = create_recipe(&mut db, "Chicken Alpha", Some(image_id_1), vec![]);
    let recipe_id_2 = create_recipe(&mut db, "Chicken Gamma", None, vec![]);
    let recipe_id_3 = create_recipe(&mut db, "Chicken Beta", Some(image_id_3), vec![]);

    // get page one
    let page = mise::sqlite::recipe::list_recipes(&db, 2, &filter_of(None, None), None).unwrap();
    let page_1_result = mise::http::recipe::page_reply(page).unwrap();
    let listed: Vec<(String, String, Option<String>)> =
        page_1_result.data.into_iter().map(|r| (r.id, r.title, r.image_id)).collect();
    assert_eq!(
        vec![
            (recipe_id_1.to_string(), "Chicken Alpha".to_owned(), Some(image_id_1.to_string())),
            (recipe_id_3.to_string(), "Chicken Beta".to_owned(), Some(image_id_3.to_string())),
        ],
        listed
    );

    // get page two
    let next = decode_cursor(&page_1_result.next.unwrap()).unwrap();
    let page =
        mise::sqlite::recipe::list_recipes(&db, 2, &filter_of(None, None), Some(next)).unwrap();
    let page_2_result = mise::http::recipe::page_reply(page).unwrap();
    assert!(page_2_result.next.is_none());
    let listed: Vec<(String, String, Option<String>)> =
        page_2_result.data.into_iter().map(|r| (r.id, r.title, r.image_id)).collect();
    assert_eq!(vec![(recipe_id_2.to_string(), "Chicken Gamma".to_owned(), None)], listed);
}

#[test]
fn numbers_of_a_version_are_decimal() {
    for (printed, expected) in [
        ("vips-0.007.1", Some((0, 7))),
        ("vips-2147483647.0.1", Some((2147483647, 0))),
        ("vips-2147483648.0.1", None),
        ("vips-1.+.1", None),
        ("vips-1. 2.1", None),
        ("vips-1.2_0.1", None),
        ("vips-1.٣.1", None),
    ] {
        assert_eq!(expected, find_vips_version(printed).ok(), "{printed}");
    }
}
