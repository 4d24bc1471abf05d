use mise::datastore::envelope::encode;
use mise::datastore::{Error, RecipeDocument, VersionedRecipeDocument};
use mise::domain::filter;
use mise::domain::id::Id;
use mise::domain::page::cursor;
use mise::domain::recipe::StringifiedBlock;
use mise::domain::{Recipe, RegisteringUser};
use mise::sqlite::database::Database;
use mise::sqlite::pool::upsert_user_by_oauth_id;
use mise::sqlite::recipe::{
    apply_patch, commit_update, diff, dump_recipes_for_index, get, get_document, get_revision,
    get_revisions, insert, leads_back, list_recipes, update,
};
use mise::sqlite::{image, tag};

fn user(db: &mut Database) -> String {
    upsert_user_by_oauth_id(
        db,
        &RegisteringUser {
            potential_id: "user-id".into(),
            oauth_id: "custom|user-1".into(),
            name: "user".into(),
        },
    )
    .unwrap()
    .id
}

/// A store in which the users `user` and `u` are registered.
fn new_store() -> Database {
    let mut db = Database::new();
    for id in ["user", "u"] {
        upsert_user_by_oauth_id(
            &mut db,
            &RegisteringUser {
                potential_id: id.into(),
                oauth_id: format!("custom|{id}"),
                name: id.into(),
            },
        )
        .unwrap();
    }
    db
}

/// The tag with the given value as its identifier, registered.
fn tag_of(db: &mut Database, value: u128) -> Id {
    tag::insert_with_id(db, Id::from_value(value), "user", &format!("Tag {value}")).unwrap()
}

/// The image with the given value as its identifier, recorded.
fn image_of(db: &mut Database, value: u128) -> Id {
    let id = Id::from_value(value);
    image::insert(db, &id.to_string()).unwrap();
    id
}

fn new_tag(db: &mut Database, user_id: &str, name: &str) -> Id {
    tag::insert(db, user_id, name).unwrap()
}

fn new_image(db: &mut Database) -> Id {
    let id = Id::new();
    image::insert(db, &id.to_string()).unwrap();
    id
}

fn block(title: Option<&str>, items: &[&str]) -> StringifiedBlock {
    StringifiedBlock {
        title: title.map(|t| t.to_owned()),
        items: items.iter().map(|i| i.to_string()).collect(),
    }
}

fn blocks(recipe_blocks: Vec<StringifiedBlock>) -> Vec<(Option<String>, Vec<String>)> {
    recipe_blocks.into_iter().map(|b| (b.title, b.items)).collect()
}

fn ingredients(recipe: &Recipe) -> Vec<(Option<String>, Vec<String>)> {
    blocks(
        recipe
            .ingredients
            .iter()
            .map(|b| StringifiedBlock::from_ingredient_block(b.clone()))
            .collect(),
    )
}

fn instructions(recipe: &Recipe) -> Vec<(Option<String>, Vec<String>)> {
    blocks(
        recipe
            .instructions
            .iter()
            .map(|b| StringifiedBlock::from_instruction_block(b.clone()))
            .collect(),
    )
}

fn tags(recipe: &Recipe) -> Vec<String> {
    recipe.tags.iter().map(|t| t.name.as_str().to_owned()).collect()
}

fn casserole(image_id: Option<Id>, tag_ids: Vec<Id>) -> RecipeDocument {
    RecipeDocument {
        title: "Chicken Casserole".into(),
        image_id,
        ingredients: vec![block(None, &["Chicken"])],
        instructions: vec![block(None, &["Cook chicken"])],
        notes: Some("Don't burn it!".into()),
        tag_ids,
    }
}

fn soup(image_id: Option<Id>, tag_ids: Vec<Id>) -> RecipeDocument {
    RecipeDocument {
        title: "Bean Soup".into(),
        image_id,
        ingredients: vec![block(None, &["Beans"])],
        instructions: vec![block(None, &["Cook beans"])],
        notes: None,
        tag_ids,
    }
}

fn titled(title: &str, image_id: Option<Id>, tag_ids: Vec<Id>) -> RecipeDocument {
    RecipeDocument {
        title: title.into(),
        image_id,
        ingredients: vec![],
        instructions: vec![],
        notes: None,
        tag_ids,
    }
}

fn no_filter() -> filter::Recipe {
    filter::Recipe { name: None, tag_ids: vec![] }
}

// create

#[test]
fn can_create_and_get() {
    let mut db = new_store();
    let user_id = user(&mut db);
    let tag_main_id = new_tag(&mut db, &user_id, "Main Dish");
    let tag_yummy_id = new_tag(&mut db, &user_id, "Yummy");
    let image_id = new_image(&mut db);

    let id = Id::new();
    insert(
        &mut db,
        &id.to_string(),
        &user_id,
        casserole(Some(image_id), vec![tag_main_id, tag_yummy_id]),
    )
    .unwrap();

    let result = get(&db, &id.to_string()).unwrap();

    assert_eq!(id, result.id);
    assert_eq!("Chicken Casserole", result.title.as_str());
    assert_eq!(Some(image_id), result.image_id);
    assert_eq!(vec![(None, vec!["Chicken".to_owned()])], ingredients(&result));
    assert_eq!(vec![(None, vec!["Cook chicken".to_owned()])], instructions(&result));
    assert_eq!(
        Some("Don't burn it!".to_owned()),
        result.notes.as_ref().map(|n| n.as_str().to_owned())
    );
    assert_eq!(vec!["Main Dish", "Yummy"], tags(&result));
}

#[test]
fn tags_of_a_recipe_come_by_name() {
    let mut db = new_store();
    let user_id = user(&mut db);
    let zucchini = new_tag(&mut db, &user_id, "Zucchini");
    let apple = new_tag(&mut db, &user_id, "Apple");
    let melon = new_tag(&mut db, &user_id, "Melon");
    let id = Id::new();
    insert(&mut db, &id.to_string(), &user_id, soup(None, vec![zucchini, melon, apple])).unwrap();
    assert_eq!(vec!["Apple", "Melon", "Zucchini"], tags(&get(&db, &id.to_string()).unwrap()));
}

#[test]
fn cannot_create_with_what_does_not_exist() {
    let mut db = new_store();
    let tag_id = tag_of(&mut db, 1);
    let image_id = image_of(&mut db, 2);
    let id = Id::new().to_string();

    // a user that is not registered
    let result = insert(&mut db, &id, "nobody", casserole(Some(image_id), vec![tag_id]));
    assert!(matches!(result, Err(Error::Unknown(_))), "insert returned {result:?}");
    // an image that is not recorded
    let result = insert(&mut db, &id, "user", casserole(Some(Id::from_value(3)), vec![tag_id]));
    assert!(matches!(result, Err(Error::Unknown(_))), "insert returned {result:?}");
    // a tag that is not registered
    let result =
        insert(&mut db, &id, "user", casserole(Some(image_id), vec![tag_id, Id::from_value(4)]));
    assert!(matches!(result, Err(Error::Unknown(_))), "insert returned {result:?}");
    assert!(db.recipes.is_empty());

    insert(&mut db, &id, "user", casserole(Some(image_id), vec![tag_id])).unwrap();
    assert_eq!(1, db.recipes.len());
    assert_eq!(1, db.recipes[0].revisions.len());

    // a taken identifier comes before what does not exist
    let result = insert(&mut db, &id, "nobody", casserole(None, vec![]));
    assert!(matches!(result, Err(Error::Conflict)), "insert returned {result:?}");
}

#[test]
fn cannot_update_to_what_does_not_exist() {
    let mut db = new_store();
    let tag_id = tag_of(&mut db, 1);
    insert(&mut db, "1234", "user", casserole(None, vec![tag_id])).unwrap();
    let hash = get_document(&db, "1234").unwrap().hash;
    let stored = db.recipes[0].document.clone();

    let result = update(&mut db, "1234", "nobody", soup(None, vec![]), &hash);
    assert!(matches!(result, Err(Error::Unknown(_))), "update returned {result:?}");
    let result = update(&mut db, "1234", "user", soup(Some(Id::from_value(3)), vec![]), &hash);
    assert!(matches!(result, Err(Error::Unknown(_))), "update returned {result:?}");
    let result = update(&mut db, "1234", "user", soup(None, vec![Id::from_value(4)]), &hash);
    assert!(matches!(result, Err(Error::Unknown(_))), "update returned {result:?}");
    assert_eq!(stored, db.recipes[0].document);
    assert_eq!(1, db.recipes[0].revisions.len());

    // the wrong hash comes before what does not exist
    let result = update(&mut db, "1234", "nobody", soup(None, vec![]), "stale");
    assert!(matches!(result, Err(Error::Conflict)), "update returned {result:?}");

    update(&mut db, "1234", "user", soup(None, vec![tag_id]), &hash).unwrap();
    assert_eq!(2, db.recipes[0].revisions.len());
}

#[test]
fn what_is_created_is_read_with_the_hash_of_its_bytes() {
    let mut db = new_store();
    let document = casserole(Some(image_of(&mut db, 9)), vec![tag_of(&mut db, 1)]);
    let bytes = encode(&VersionedRecipeDocument::from(document.duplicate()));
    insert(&mut db, "1234", "user", document.duplicate()).unwrap();

    let hashed = get_document(&db, "1234").unwrap();
    assert_eq!(sha256::digest(bytes.as_slice()), hashed.hash);
    assert_eq!(64, hashed.hash.len());
    assert_eq!(document.title, hashed.document.title);
    assert_eq!(document.notes, hashed.document.notes);
    assert_eq!(document.tag_ids, hashed.document.tag_ids);
    assert_eq!(document.image_id, hashed.document.image_id);
    assert_eq!(blocks(document.ingredients), blocks(hashed.document.ingredients));
    assert_eq!(blocks(document.instructions), blocks(hashed.document.instructions));
    assert_eq!(bytes, db.recipes[0].document);
}

#[test]
fn create_creates_initial_revision() {
    let mut db = new_store();
    let user_id = user(&mut db);
    let tag_id = new_tag(&mut db, &user_id, "Main Dish");

    let id = Id::new();
    let mut recipe = casserole(None, vec![tag_id]);
    recipe.notes = None;
    insert(&mut db, &id.to_string(), &user_id, recipe).unwrap();

    // there should be one revision: revision 0
    let revisions = get_revisions(&db, &id.to_string()).unwrap();
    assert_eq!(1, revisions.len());
    assert_eq!(0, revisions[0].revision);

    let result = get_revision(&db, &id.to_string(), 0).unwrap();
    assert_eq!(id, result.id);
    assert_eq!("Chicken Casserole", result.title.as_str());
    assert_eq!(None, result.image_id);
    assert_eq!(vec![(None, vec!["Chicken".to_owned()])], ingredients(&result));
    assert_eq!(vec![(None, vec!["Cook chicken".to_owned()])], instructions(&result));
    assert!(result.notes.is_none());
    assert_eq!(vec!["Main Dish"], tags(&result));
}

#[test]
fn cannot_create_duplicate() {
    let mut db = new_store();
    let user_id = user(&mut db);
    let recipe = RecipeDocument {
        title: "Chicken Casserole".into(),
        image_id: None,
        ingredients: vec![block(None, &["Chicken"])],
        instructions: vec![block(None, &["Cook chicken"])],
        notes: None,
        tag_ids: vec![],
    };

    let id = Id::new();
    insert(&mut db, &id.to_string(), &user_id, recipe.duplicate()).unwrap();

    let result = insert(&mut db, &id.to_string(), &user_id, recipe);

    assert_eq!(true, result.is_err());
    assert!(matches!(result, Err(Error::Conflict)), "insert returned {result:?}");
    assert_eq!(1, db.recipes.len());
    assert_eq!(1, db.recipes[0].revisions.len());
}

#[test]
fn cannot_create_another_document_under_a_taken_identifier() {
    let mut db = new_store();
    let user_id = user(&mut db);
    let id = Id::new().to_string();
    insert(&mut db, &id, &user_id, casserole(None, vec![])).unwrap();
    let before = db.recipes[0].document.clone();

    let result = insert(&mut db, &id, &user_id, soup(None, vec![]));

    assert!(matches!(result, Err(Error::Conflict)), "insert returned {result:?}");
    assert_eq!(1, db.recipes.len());
    assert_eq!(before, db.recipes[0].document);
}

#[test]
fn cannot_create_with_a_tag_twice() {
    let mut db = new_store();
    let tag_id = tag_of(&mut db, 1);
    let result = insert(&mut db, "1234", "user", casserole(None, vec![tag_id, tag_id]));
    assert!(matches!(result, Err(Error::Unknown(_))), "insert returned {result:?}");
    assert!(db.recipes.is_empty());
}

// get

#[test]
fn cannot_get_non_existent_recipe() {
    let db = new_store();
    let r = get(&db, "a-random-id");
    assert!(matches!(r, Err(Error::NotFound)), "get returned {r:?}, expected NotFound");
}

#[test]
fn cannot_show_a_recipe_under_an_identifier_that_is_no_ulid() {
    let mut db = new_store();
    insert(&mut db, "1234", "user", casserole(None, vec![])).unwrap();
    match get(&db, "1234") {
        Err(Error::Unknown(message)) => {
            assert_eq!("Could not parse ulid: 1234. invalid length", message)
        }
        other => panic!("get returned {other:?}"),
    }
}

#[test]
fn cannot_show_a_recipe_with_a_blank_title() {
    let mut db = new_store();
    let id = Id::new().to_string();
    insert(&mut db, &id, "user", titled("  ", None, vec![])).unwrap();
    match get(&db, &id) {
        Err(Error::Unknown(message)) => {
            assert_eq!("Recipe title \"  \" must contain at least one character.", message)
        }
        other => panic!("get returned {other:?}"),
    }
}

// update

#[test]
fn can_update_recipe() {
    let mut db = new_store();
    let user_id = user(&mut db);
    let tag_main_id = new_tag(&mut db, &user_id, "Main Dish");
    let tag_soup_id = new_tag(&mut db, &user_id, "Soup");
    let image_id = new_image(&mut db);

    let id = Id::new();
    insert(&mut db, &id.to_string(), &user_id, casserole(Some(image_id), vec![tag_main_id]))
        .unwrap();

    let current_hash = get(&db, &id.to_string()).unwrap().hash;

    let new_image_id = new_image(&mut db);
    update(
        &mut db,
        &id.to_string(),
        &user_id,
        soup(Some(new_image_id), vec![tag_soup_id]),
        &current_hash,
    )
    .unwrap();

    let result = get(&db, &id.to_string()).unwrap();
    assert_eq!(id, result.id);
    assert_eq!("Bean Soup", result.title.as_str());
    assert_eq!(Some(new_image_id), result.image_id);
    assert_eq!(vec![(None, vec!["Beans".to_owned()])], ingredients(&result));
    assert_eq!(vec![(None, vec!["Cook beans".to_owned()])], instructions(&result));
    assert!(result.notes.is_none());
    assert_eq!(vec!["Soup"], tags(&result));
    assert_ne!(current_hash, result.hash);
}

#[test]
fn cannot_update_with_bad_hash() {
    let mut db = new_store();
    let user_id = user(&mut db);
    insert(&mut db, "1234", &user_id, casserole(None, vec![])).unwrap();
    let before = db.recipes[0].document.clone();

    let result = update(&mut db, "1234", &user_id, soup(None, vec![]), "this is the wrong hash");

    assert!(
        matches!(result, Err(Error::Conflict)),
        "update returned {result:?}, expected Conflict"
    );
    // the stored document is byte for byte what it was
    assert_eq!(before, db.recipes[0].document);
    assert_eq!("Chicken Casserole", db.recipes[0].title);
    assert_eq!(1, db.recipes[0].revisions.len());
}

#[test]
fn update_creates_new_revision() {
    let mut db = new_store();
    let user_id = user(&mut db);
    let id = Id::new();
    insert(&mut db, &id.to_string(), &user_id, casserole(None, vec![])).unwrap();

    let current_hash = get(&db, &id.to_string()).unwrap().hash;
    update(&mut db, &id.to_string(), &user_id, soup(None, vec![]), &current_hash).unwrap();

    // there should be two revisions
    let revisions = get_revisions(&db, &id.to_string()).unwrap();
    assert_eq!(2, revisions.len());
    assert_eq!(1, revisions[0].revision);
    assert_eq!(0, revisions[1].revision);

    let result = get_revision(&db, &id.to_string(), 1).unwrap();
    assert_eq!(id, result.id);
    assert_eq!("Bean Soup", result.title.as_str());
    assert_eq!(None, result.image_id);
    assert_eq!(vec![(None, vec!["Beans".to_owned()])], ingredients(&result));
    assert_eq!(vec![(None, vec!["Cook beans".to_owned()])], instructions(&result));
    assert!(result.notes.is_none());
    assert!(result.tags.is_empty());

    // the first revision has no patch, the second leads back to the first
    assert!(db.recipes[0].revisions[0].patch.is_none());
    assert!(db.recipes[0].revisions[1].patch.is_some());
    assert_eq!(user_id, db.recipes[0].revisions[1].created_by_user_id);
}

#[test]
fn handles_updating_unknown_recipe() {
    let mut db = new_store();
    let user_id = user(&mut db);
    let id = Id::new();
    let result = update(&mut db, &id.to_string(), &user_id, soup(None, vec![]), "");
    assert!(
        matches!(result, Err(Error::NotFound)),
        "update returned {result:?}, expected NotFound"
    );
}

#[test]
fn cannot_update_to_a_tag_twice() {
    let mut db = new_store();
    insert(&mut db, "1234", "user", casserole(None, vec![])).unwrap();
    let hash = get_document(&db, "1234").unwrap().hash;
    let tag_id = tag_of(&mut db, 1);
    let result = update(&mut db, "1234", "user", soup(None, vec![tag_id, tag_id]), &hash);
    assert!(matches!(result, Err(Error::Unknown(_))), "update returned {result:?}");
    assert_eq!("Chicken Casserole", db.recipes[0].title);
}

#[test]
fn update_is_refused_without_a_patch_that_leads_back() {
    let mut db = new_store();
    insert(&mut db, "1234", "user", casserole(None, vec![])).unwrap();
    let hash = get_document(&db, "1234").unwrap().hash;
    let stored = db.recipes[0].document.clone();

    // no patch at all
    let result = commit_update(&mut db, "1234", "user", soup(None, vec![]), &hash, None);
    assert!(matches!(result, Err(Error::Unknown(_))), "update returned {result:?}");
    // bytes that are no patch
    let result =
        commit_update(&mut db, "1234", "user", soup(None, vec![]), &hash, Some(vec![1, 2, 3]));
    assert!(matches!(result, Err(Error::Unknown(_))), "update returned {result:?}");
    // a patch that leads somewhere else
    let new_bytes = encode(&VersionedRecipeDocument::from(soup(None, vec![])));
    let astray = diff(&new_bytes, b"something else").unwrap();
    let result = commit_update(&mut db, "1234", "user", soup(None, vec![]), &hash, Some(astray));
    assert!(matches!(result, Err(Error::Unknown(_))), "update returned {result:?}");
    assert_eq!(stored, db.recipes[0].document);
    assert_eq!(1, db.recipes[0].revisions.len());

    // the wrong hash comes before a bad patch
    let result = commit_update(&mut db, "1234", "user", soup(None, vec![]), "stale", None);
    assert!(matches!(result, Err(Error::Conflict)), "update returned {result:?}");

    // the patch that leads back is accepted
    let back = diff(&new_bytes, &stored).unwrap();
    commit_update(&mut db, "1234", "user", soup(None, vec![]), &hash, Some(back)).unwrap();
    assert_eq!(new_bytes, db.recipes[0].document);
    assert_eq!(2, db.recipes[0].revisions.len());
}

#[test]
fn patch_turns_the_one_into_the_other() {
    let old = b"the quick brown fox jumps over the lazy dog".to_vec();
    let new = b"the quick brown cat jumps over the lazy dog, twice".to_vec();
    let patch = diff(&old, &new).unwrap();
    assert_ne!(old, patch);
    assert_eq!(new, apply_patch(&old, &patch).unwrap());
    assert!(leads_back(&patch, &old, &new));
    assert!(!leads_back(&patch, &new, &old));
    assert!(!leads_back(&patch, &old, &old));
}

#[test]
fn what_is_no_patch_does_not_apply() {
    assert!(matches!(apply_patch(b"abc", b"abc"), Err(Error::Unknown(_))));
    assert!(matches!(apply_patch(b"abc", b""), Err(Error::Unknown(_))));
}

#[test]
fn nothing_is_compared_with_nothing() {
    assert!(matches!(diff(b"", b"abc"), Err(Error::Unknown(_))));
}

// example scenario

#[test]
fn can_create_and_update_recipe() {
    let mut db = new_store();
    let user_id = user(&mut db);
    let id = Id::new().to_string();
    let parm = RecipeDocument {
        title: "Chicken Parm".into(),
        image_id: None,
        ingredients: vec![block(None, &["One chicken", "Parmesan cheese"])],
        instructions: vec![block(None, &["Broil the chicken", "Add the parmesan"])],
        notes: Some("Best served hot!".into()),
        tag_ids: vec![],
    };
    insert(&mut db, &id, &user_id, parm).unwrap();

    let hash = get(&db, &id).unwrap().hash;
    let salad = RecipeDocument {
        title: "One-Step Salad".into(),
        image_id: None,
        ingredients: vec![block(None, &["salad"])],
        instructions: vec![block(None, &["serve"])],
        notes: None,
        tag_ids: vec![],
    };

    // a stale hash is refused
    let stale = format!("{hash}0");
    let result = update(&mut db, &id, &user_id, salad.duplicate(), &stale);
    assert!(matches!(result, Err(Error::Conflict)), "update returned {result:?}");
    assert_eq!("Chicken Parm", get(&db, &id).unwrap().title.as_str());

    // the current hash is accepted
    update(&mut db, &id, &user_id, salad, &hash).unwrap();
    assert_eq!(2, get_revisions(&db, &id).unwrap().len());
    let now = get(&db, &id).unwrap();
    assert_eq!("One-Step Salad", now.title.as_str());
    assert_eq!(vec![(None, vec!["salad".to_owned()])], ingredients(&now));

    // the first revision is still what was created
    let first = get_revision(&db, &id, 0).unwrap();
    assert_eq!("Chicken Parm", first.title.as_str());
    assert_eq!(
        vec![(None, vec!["One chicken".to_owned(), "Parmesan cheese".to_owned()])],
        ingredients(&first)
    );
    assert_eq!(hash, first.hash);
}

// revisions

#[test]
fn cannot_get_non_existent_revision() {
    let mut db = new_store();
    let user_id = user(&mut db);
    let id = Id::new().to_string();
    insert(&mut db, &id, &user_id, titled("Chicken Casserole", None, vec![])).unwrap();
    let result = get_revision(&db, &id, 99);
    assert!(matches!(result, Err(Error::NotFound)), "get_revision returned {result:?}");
    let result = get_revision(&db, &id, 1);
    assert!(matches!(result, Err(Error::NotFound)), "get_revision returned {result:?}");
}

#[test]
fn cannot_get_revision_for_non_existent_recipe() {
    let db = new_store();
    let result = get_revision(&db, "bad-id", 0);
    assert!(matches!(result, Err(Error::NotFound)), "get_revision returned {result:?}");
}

#[test]
fn stores_revision_history() {
    let mut db = new_store();
    let user_id = user(&mut db);
    let id = Id::new().to_string();
    insert(&mut db, &id, &user_id, titled("Recipe 0", None, vec![])).unwrap();
    let mut hashes = vec![get(&db, &id).unwrap().hash];
    for n in 1..=5 {
        let mut next = titled(&format!("Recipe {n}"), None, vec![]);
        next.ingredients = vec![block(Some("Step"), &[&"more ".repeat(n)])];
        update(&mut db, &id, &user_id, next, hashes.last().unwrap()).unwrap();
        hashes.push(get(&db, &id).unwrap().hash);
    }

    let revisions = get_revisions(&db, &id).unwrap();
    assert_eq!(6, revisions.len());
    for (position, revision) in revisions.iter().enumerate() {
        assert_eq!(5 - position, revision.revision);
    }
    for n in 0..=5 {
        let recipe = get_revision(&db, &id, n).unwrap();
        assert_eq!(format!("Recipe {n}"), recipe.title.as_str());
        assert_eq!(hashes[n], recipe.hash);
        assert_eq!(if n == 0 { 0 } else { 1 }, recipe.ingredients.len());
    }
    assert!(matches!(get_revision(&db, &id, 6), Err(Error::NotFound)));
}

#[test]
fn cannot_get_revisions_for_non_existent_recipe() {
    let db = new_store();
    let result = get_revisions(&db, "a-random-id").unwrap();
    assert_eq!(0, result.len());
}

// listing

#[test]
fn can_list_recipes_over_multiple_pages() {
    let mut db = new_store();
    let user_id = user(&mut db);
    let mut created = vec![];
    for title in ["Recipe 1", "Recipe 2", "Recipe 3"] {
        let id = Id::new();
        let image_id = new_image(&mut db);
        insert(&mut db, &id.to_string(), &user_id, titled(title, Some(image_id), vec![])).unwrap();
        created.push((id, image_id));
    }

    let first_page = list_recipes(&db, 2, &no_filter(), None).unwrap();
    assert_eq!(2, first_page.items.len());
    assert_eq!(created[0].0, first_page.items[0].id);
    assert_eq!("Recipe 1", first_page.items[0].title.as_str());
    assert_eq!(Some(created[0].1), first_page.items[0].image_id);
    assert_eq!(created[1].0, first_page.items[1].id);
    assert_eq!("Recipe 2", first_page.items[1].title.as_str());
    assert_eq!(Some(created[1].1), first_page.items[1].image_id);
    let next = first_page.next.expect("a full page comes with a cursor");
    assert_eq!("Recipe 2", next.name);
    assert_eq!(created[1].0.to_string(), next.id);

    let second_page = list_recipes(&db, 2, &no_filter(), Some(next)).unwrap();
    assert!(second_page.next.is_none());
    assert_eq!(1, second_page.items.len());
    assert_eq!(created[2].0, second_page.items[0].id);
    assert_eq!("Recipe 3", second_page.items[0].title.as_str());
    assert_eq!(Some(created[2].1), second_page.items[0].image_id);
}

#[test]
fn listing_goes_by_title_and_then_by_identifier() {
    let mut db = new_store();
    let ids: Vec<Id> = [5u128, 3, 9, 1].iter().map(|v| Id::from_value(*v)).collect();
    // stored in no particular order
    insert(&mut db, &ids[0].to_string(), "u", titled("Stew", None, vec![])).unwrap();
    insert(&mut db, &ids[1].to_string(), "u", titled("Stew", None, vec![])).unwrap();
    insert(&mut db, &ids[2].to_string(), "u", titled("Bread", None, vec![])).unwrap();
    insert(&mut db, &ids[3].to_string(), "u", titled("bread", None, vec![])).unwrap();

    let mut seen = vec![];
    let mut cursor = None;
    let mut pages = 0;
    loop {
        let page = list_recipes(&db, 1, &no_filter(), cursor).unwrap();
        pages += 1;
        for item in &page.items {
            seen.push((item.title.as_str().to_owned(), item.id.value()));
        }
        match page.next {
            Some(next) => cursor = Some(next),
            None => break,
        }
    }
    // upper case sorts before lower case: the order is that of the bytes
    assert_eq!(
        vec![
            ("Bread".to_owned(), 9),
            ("Stew".to_owned(), 3),
            ("Stew".to_owned(), 5),
            ("bread".to_owned(), 1),
        ],
        seen
    );
    // four full pages of one, and the empty page that ends the listing
    assert_eq!(5, pages);
}

#[test]
fn page_that_is_not_full_has_no_cursor() {
    let mut db = new_store();
    insert(&mut db, &Id::new().to_string(), "u", titled("Stew", None, vec![])).unwrap();
    let page = list_recipes(&db, 2, &no_filter(), None).unwrap();
    assert_eq!(1, page.items.len());
    assert!(page.next.is_none());
    let page = list_recipes(&db, 1, &no_filter(), None).unwrap();
    assert_eq!(1, page.items.len());
    assert!(page.next.is_some());
}

#[test]
fn page_of_size_zero_is_empty_and_has_no_cursor() {
    let mut db = new_store();
    insert(&mut db, &Id::new().to_string(), "u", titled("Stew", None, vec![])).unwrap();
    let page = list_recipes(&db, 0, &no_filter(), None).unwrap();
    assert!(page.items.is_empty());
    assert!(page.next.is_none());
}

#[test]
fn listing_of_an_empty_store_is_empty() {
    let page = list_recipes(&new_store(), 20, &no_filter(), None).unwrap();
    assert!(page.items.is_empty());
    assert!(page.next.is_none());
}

#[test]
fn can_list_with_tag_filter() {
    let mut db = new_store();
    let user_id = user(&mut db);
    let tag1 = new_tag(&mut db, &user_id, "Tag1");
    let tag2 = new_tag(&mut db, &user_id, "Tag2");
    let tag3 = new_tag(&mut db, &user_id, "Tag3");
    let tag4 = new_tag(&mut db, &user_id, "Tag4");

    let recipe_id_1 = Id::new();
    insert(&mut db, &recipe_id_1.to_string(), &user_id, titled("Good Chicken", None, vec![tag1, tag2]))
        .unwrap();
    insert(&mut db, &Id::new().to_string(), &user_id, titled("Rabbit?", None, vec![tag3])).unwrap();
    insert(&mut db, &Id::new().to_string(), &user_id, titled("Baked beans", None, vec![tag2, tag4]))
        .unwrap();

    let filter = filter::Recipe { name: None, tag_ids: vec![tag1, tag2] };
    let result = list_recipes(&db, 2, &filter, None).unwrap();

    assert_eq!(1, result.items.len());
    assert!(result.next.is_none());
    assert_eq!(recipe_id_1, result.items[0].id);
    assert_eq!("Good Chicken", result.items[0].title.as_str());
    assert_eq!(None, result.items[0].image_id);
}

#[test]
fn recipe_with_only_one_of_two_tags_is_left_out() {
    let mut db = new_store();
    let t1 = tag_of(&mut db, 1);
    let t2 = tag_of(&mut db, 2);
    let t3 = tag_of(&mut db, 3);
    insert(&mut db, &Id::new().to_string(), "u", titled("Only one", None, vec![t1])).unwrap();
    insert(&mut db, &Id::new().to_string(), "u", titled("Both and more", None, vec![t3, t2, t1]))
        .unwrap();
    let filter = filter::Recipe { name: None, tag_ids: vec![t1, t2] };
    let page = list_recipes(&db, 10, &filter, None).unwrap();
    assert_eq!(1, page.items.len());
    assert_eq!("Both and more", page.items[0].title.as_str());
    // each tag alone keeps what carries it
    let filter = filter::Recipe { name: None, tag_ids: vec![t1] };
    assert_eq!(2, list_recipes(&db, 10, &filter, None).unwrap().items.len());
}

#[test]
fn filter_that_names_a_tag_twice_keeps_nothing() {
    let mut db = new_store();
    let t1 = tag_of(&mut db, 1);
    insert(&mut db, &Id::new().to_string(), "u", titled("Tagged", None, vec![t1])).unwrap();
    let filter = filter::Recipe { name: None, tag_ids: vec![t1, t1] };
    assert!(list_recipes(&db, 10, &filter, None).unwrap().items.is_empty());
}

#[test]
fn can_list_recipe_if_it_has_tag_with_no_filter() {
    let mut db = new_store();
    let user_id = user(&mut db);
    let tag1 = new_tag(&mut db, &user_id, "Tag1");
    let tag2 = new_tag(&mut db, &user_id, "Tag2");
    let recipe_id_1 = Id::new();
    insert(&mut db, &recipe_id_1.to_string(), &user_id, titled("Good Chicken", None, vec![tag1, tag2]))
        .unwrap();

    let result = list_recipes(&db, 2, &no_filter(), None).unwrap();
    assert_eq!(1, result.items.len());
    assert!(result.next.is_none());
    assert_eq!(recipe_id_1, result.items[0].id);
}

#[test]
fn filters_properly_if_has_multiple_tags_matching_count_but_wrong_tags() {
    let mut db = new_store();
    let user_id = user(&mut db);
    let tag1 = new_tag(&mut db, &user_id, "Tag1");
    let tag2 = new_tag(&mut db, &user_id, "Tag2");
    let tag3 = new_tag(&mut db, &user_id, "Tag3");
    let tag4 = new_tag(&mut db, &user_id, "Tag4");
    insert(&mut db, &Id::new().to_string(), &user_id, titled("Good Chicken", None, vec![tag1, tag2]))
        .unwrap();

    let filter = filter::Recipe { name: None, tag_ids: vec![tag3, tag4] };
    let result = list_recipes(&db, 2, &filter, None).unwrap();
    assert_eq!(0, result.items.len());
    assert!(result.next.is_none());
}

#[test]
fn can_list_recipes_with_filters() {
    let mut db = new_store();
    let user_id = user(&mut db);
    let tag_1 = new_tag(&mut db, &user_id, "Tag1");
    let tag_2 = new_tag(&mut db, &user_id, "Tag2");
    insert(&mut db, &Id::new().to_string(), &user_id, titled("Chicken Alpha", None, vec![tag_1]))
        .unwrap();
    insert(&mut db, &Id::new().to_string(), &user_id, titled("Chicken Gamma Alpha", None, vec![tag_1, tag_2]))
        .unwrap();
    insert(&mut db, &Id::new().to_string(), &user_id, titled("Chicken Beta", None, vec![tag_1]))
        .unwrap();
    insert(&mut db, &Id::new().to_string(), &user_id, titled("Alpha without tag", None, vec![]))
        .unwrap();

    let filter = filter::Recipe { name: Some("Alpha".to_owned()), tag_ids: vec![tag_1] };
    let first = list_recipes(&db, 1, &filter, None).unwrap();
    assert_eq!(1, first.items.len());
    assert_eq!("Chicken Alpha", first.items[0].title.as_str());
    let second = list_recipes(&db, 1, &filter, first.next).unwrap();
    assert_eq!(1, second.items.len());
    assert_eq!("Chicken Gamma Alpha", second.items[0].title.as_str());
    let third = list_recipes(&db, 1, &filter, second.next).unwrap();
    assert!(third.items.is_empty());
    assert!(third.next.is_none());

    // the name is matched as it is written
    let filter = filter::Recipe { name: Some("alpha".to_owned()), tag_ids: vec![] };
    assert!(list_recipes(&db, 10, &filter, None).unwrap().items.is_empty());
    // the empty name is contained in every title
    let filter = filter::Recipe { name: Some(String::new()), tag_ids: vec![] };
    assert_eq!(4, list_recipes(&db, 10, &filter, None).unwrap().items.len());
}

#[test]
fn listing_fails_on_a_row_that_cannot_be_listed() {
    let mut db = new_store();
    insert(&mut db, "no-ulid", "u", titled("Stew", None, vec![])).unwrap();
    match list_recipes(&db, 10, &no_filter(), None) {
        Err(Error::Unknown(message)) => {
            assert_eq!("Could not parse ulid: no-ulid. invalid length", message)
        }
        other => panic!("list_recipes returned {other:?}"),
    }
    // a page that does not reach the row is listed
    let cursor = cursor::Recipe { id: "z".to_owned(), name: "Stew".to_owned() };
    assert!(list_recipes(&db, 10, &no_filter(), Some(cursor)).unwrap().items.is_empty());
}

// bulk export

#[test]
fn dump_goes_by_identifier() {
    let mut db = new_store();
    let ids: Vec<Id> = [7u128, 2, 5].iter().map(|v| Id::from_value(*v)).collect();
    let tag_id = tag_of(&mut db, 40);
    insert(&mut db, &ids[0].to_string(), "u", titled("A", None, vec![tag_id])).unwrap();
    insert(&mut db, &ids[1].to_string(), "u", titled("C", None, vec![])).unwrap();
    insert(&mut db, &ids[2].to_string(), "u", soup(None, vec![])).unwrap();

    let first = dump_recipes_for_index(&db, 2, None).unwrap();
    assert_eq!(vec![2, 5], first.items.iter().map(|r| r.id.value()).collect::<Vec<_>>());
    assert_eq!("C", first.items[0].title.as_str());
    assert_eq!("Bean Soup", first.items[1].title.as_str());
    assert_eq!(1, first.items[1].ingredients.len());
    let next = first.next.expect("a full page comes with a cursor");
    assert_eq!(ids[2].to_string(), next.id);

    let second = dump_recipes_for_index(&db, 2, Some(next)).unwrap();
    assert_eq!(1, second.items.len());
    assert_eq!(7, second.items[0].id.value());
    assert_eq!(vec![Id::from_value(40)], second.items[0].tag_ids);
    assert!(second.next.is_none());
}

#[test]
fn dump_fails_on_a_document_that_is_not_valid() {
    let mut db = new_store();
    insert(&mut db, &Id::new().to_string(), "u", titled(" ", None, vec![])).unwrap();
    assert!(matches!(dump_recipes_for_index(&db, 2, None), Err(Error::Unknown(_))));
}

#[test]
fn damaged_patch_fails_the_revisions_behind_it_alone() {
    let mut db = new_store();
    insert(&mut db, "1234", "user", titled("Recipe 0", None, vec![])).unwrap();
    insert(&mut db, "5678", "user", titled("Another", None, vec![])).unwrap();
    for n in 1..=2 {
        let hash = get_document(&db, "1234").unwrap().hash;
        update(&mut db, "1234", "user", titled(&format!("Recipe {n}"), None, vec![]), &hash)
            .unwrap();
    }
    // the patch that leads from the second revision back to the first is damaged
    db.recipes[0].revisions[2].patch = Some(vec![1, 2, 3]);
    assert!(mise::sqlite::integrity::is_consistent(&db));

    assert_eq!("Recipe 2", get_document(&db, "1234").unwrap().document.title);
    assert_eq!(3, get_revisions(&db, "1234").unwrap().len());
    // the identifier is no ULID, so the revision that is reconstructed is refused for that
    assert!(matches!(get_revision(&db, "1234", 2), Err(Error::Unknown(message)) if message.contains("ulid")));
    assert!(matches!(get_revision(&db, "1234", 1), Err(Error::Unknown(message)) if !message.contains("ulid")));
    assert!(matches!(get_revision(&db, "1234", 0), Err(Error::Unknown(message)) if !message.contains("ulid")));
    assert!(matches!(get_revision(&db, "1234", 3), Err(Error::NotFound)));
    assert_eq!("Another", get_document(&db, "5678").unwrap().document.title);
}

#[test]
fn damaged_document_fails_its_own_reads_alone() {
    let mut db = new_store();
    let ids: Vec<String> = [1u128, 2, 3].iter().map(|v| Id::from_value(*v).to_string()).collect();
    for (id, title) in ids.iter().zip(["A", "B", "C"]) {
        insert(&mut db, id, "user", titled(title, None, vec![])).unwrap();
    }
    let hash = get_document(&db, &ids[1]).unwrap().hash;
    update(&mut db, &ids[1], "user", titled("B again", None, vec![]), &hash).unwrap();
    db.recipes[1].document.push(0);
    assert!(mise::sqlite::integrity::is_consistent(&db));

    assert!(matches!(get(&db, &ids[1]), Err(Error::Serialization)));
    assert!(matches!(get_document(&db, &ids[1]), Err(Error::Serialization)));
    assert!(matches!(get_revision(&db, &ids[1], 1), Err(Error::Serialization)));
    assert_eq!(2, get_revisions(&db, &ids[1]).unwrap().len());
    assert_eq!("A", get(&db, &ids[0]).unwrap().title.as_str());
    assert_eq!("C", get_revision(&db, &ids[2], 0).unwrap().title.as_str());

    // a listing goes by the columns, an export by the documents
    let page = list_recipes(&db, 10, &no_filter(), None).unwrap();
    assert_eq!(
        vec!["A", "B again", "C"],
        page.items.iter().map(|r| r.title.as_str()).collect::<Vec<_>>()
    );
    assert_eq!(1, dump_recipes_for_index(&db, 1, None).unwrap().items.len());
    assert!(matches!(dump_recipes_for_index(&db, 2, None), Err(Error::Serialization)));
}
