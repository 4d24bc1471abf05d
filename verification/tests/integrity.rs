use mise::datastore::RecipeDocument;
use mise::domain::id::Id;
use mise::domain::{Session, User};
use mise::sqlite::database::{Database, RevisionRow, TagRow};
use mise::sqlite::integrity::{is_consistent, is_recipe_consistent};
use mise::sqlite::recipe::{get_document, insert, update};
use mise::sqlite::session_store::{RefreshLock, SessionDatabase};

fn titled(title: &str, tag_ids: Vec<Id>) -> RecipeDocument {
    RecipeDocument {
        title: title.into(),
        ingredients: vec![],
        instructions: vec![],
        notes: None,
        tag_ids,
        image_id: None,
    }
}

fn store() -> Database {
    let mut db = Database::new();
    mise::sqlite::pool::upsert_user_by_oauth_id(
        &mut db,
        &mise::domain::RegisteringUser {
            potential_id: "user".into(),
            oauth_id: "custom|user".into(),
            name: "user".into(),
        },
    )
    .unwrap();
    mise::sqlite::tag::insert_with_id(&mut db, Id::from_value(1), "user", "Tag").unwrap();
    insert(&mut db, "a", "user", titled("Stew", vec![Id::from_value(1)])).unwrap();
    let hash = get_document(&db, "a").unwrap().hash;
    update(&mut db, "a", "user", titled("Thick stew", vec![]), &hash).unwrap();
    insert(&mut db, "b", "user", titled("Bread", vec![])).unwrap();
    db
}

#[test]
fn what_the_operations_leave_is_consistent() {
    assert!(is_consistent(&Database::new()));
    let db = store();
    assert!(is_consistent(&db));
    assert!(db.recipes.iter().all(is_recipe_consistent));
}

#[test]
fn tag_is_carried_once() {
    let mut db = store();
    db.recipes[0].tag_ids = vec![Id::from_value(1)];
    assert!(is_consistent(&db));
    db.recipes[0].tag_ids = vec![Id::from_value(1), Id::from_value(2), Id::from_value(1)];
    assert!(!is_consistent(&db));
}

#[test]
fn whether_the_bytes_hold_a_document_is_found_when_they_are_read() {
    let mut db = store();
    db.recipes[1].document.push(0);
    assert!(is_consistent(&db));
    db.recipes[1].document.clear();
    assert!(is_consistent(&db));
}

#[test]
fn revisions_have_to_lead_back() {
    // the first revision has no patch
    let mut db = store();
    db.recipes[1].revisions[0].patch = Some(vec![]);
    assert!(!is_consistent(&db));
    // the later ones have one
    let mut db = store();
    db.recipes[0].revisions[1].patch = None;
    assert!(!is_consistent(&db));
    // whether it applies is found when the revision is read
    let mut db = store();
    db.recipes[0].revisions[1].patch = Some(vec![1, 2, 3]);
    assert!(is_consistent(&db));
    // there is a first revision
    let mut db = store();
    db.recipes[1].revisions.clear();
    assert!(!is_consistent(&db));
    // and no revision without its patch
    let mut db = store();
    db.recipes[1]
        .revisions
        .push(RevisionRow { patch: None, created_by_user_id: "user".to_owned() });
    assert!(!is_consistent(&db));
}

#[test]
fn identifiers_are_taken_once() {
    let mut db = store();
    db.recipes[1].id = "a".to_owned();
    assert!(!is_consistent(&db));

    let mut db = store();
    db.users.clear();
    db.images = vec!["x".to_owned(), "y".to_owned(), "x".to_owned()];
    assert!(!is_consistent(&db));
    db.images.pop();
    assert!(is_consistent(&db));

    let user = |id: &str, oauth_id: &str| User {
        id: id.to_owned(),
        oauth_id: oauth_id.to_owned(),
        name: "name".to_owned(),
    };
    db.users = vec![user("1", "a"), user("2", "b")];
    assert!(is_consistent(&db));
    db.users = vec![user("1", "a"), user("1", "b")];
    assert!(!is_consistent(&db));
    db.users = vec![user("1", "a"), user("2", "a")];
    assert!(!is_consistent(&db));
}

#[test]
fn tags_are_kept_by_name() {
    let tag = |id: u128, name: &str| TagRow {
        id: Id::from_value(id),
        name: name.to_owned(),
        created_by_user_id: "user".to_owned(),
    };
    let mut db = store();
    db.tags = vec![tag(1, "Bread"), tag(2, "Soup"), tag(3, "Stew")];
    assert!(is_consistent(&db));
    db.tags = vec![tag(1, "Soup"), tag(2, "Bread")];
    assert!(!is_consistent(&db));
    db.tags = vec![tag(1, "Soup"), tag(2, "Soup")];
    assert!(!is_consistent(&db));
    db.tags = vec![tag(1, "Bread"), tag(1, "Soup")];
    assert!(!is_consistent(&db));
}

#[test]
fn session_keys_are_taken_once() {
    let session = |key: &str| Session {
        key: key.to_owned(),
        user_id: "user".to_owned(),
        refresh_token: "token".to_owned(),
        revalidate_at: 0,
        expires_at: 0,
    };
    let lock = |key: &str| RefreshLock { key: key.to_owned(), lock_invalid_at: 0 };
    let mut db = SessionDatabase::new();
    assert!(mise::sqlite::session_store::is_consistent(&db));
    db.sessions = vec![session("1"), session("2")];
    db.refresh_locks = vec![lock("1"), lock("2")];
    assert!(mise::sqlite::session_store::is_consistent(&db));
    db.sessions.push(session("1"));
    assert!(!mise::sqlite::session_store::is_consistent(&db));
    db.sessions.pop();
    db.refresh_locks.push(lock("2"));
    assert!(!mise::sqlite::session_store::is_consistent(&db));
}
