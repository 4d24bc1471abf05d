use mise::cache::{CacheMessage, CacheReply, Error};
use mise::inmem::CacheActor;

fn get(actor: &mut CacheActor, key: &str, now: i64) -> Result<String, Error> {
    match actor.process(CacheMessage::Get { key: key.to_owned() }, now) {
        CacheReply::Value(result) => result,
        other => panic!("the cache replies {other:?}"),
    }
}

fn put(actor: &mut CacheActor, key: &str, value: &str, expires_at: i64) {
    let msg = CacheMessage::Put { key: key.to_owned(), value: value.to_owned(), expires_at };
    assert!(matches!(actor.process(msg, 0), CacheReply::Done(Ok(()))));
}

#[test]
fn cached_value_is_good_until_its_time() {
    let mut actor = CacheActor::new();
    assert!(matches!(actor.process(CacheMessage::Health, 0), CacheReply::Done(Ok(()))));
    put(&mut actor, "a", "1", 100);
    assert_eq!("1", get(&mut actor, "a", 99).unwrap());
    // the last second at which it is good
    assert_eq!("1", get(&mut actor, "a", 100).unwrap());
    assert!(matches!(get(&mut actor, "a", 101), Err(Error::NoMatchingValue)));
    assert!(matches!(get(&mut actor, "b", 0), Err(Error::NoMatchingValue)));
}

#[test]
fn cached_value_is_replaced_and_removed() {
    let mut actor = CacheActor::new();
    put(&mut actor, "a", "1", 100);
    put(&mut actor, "b", "2", 100);
    put(&mut actor, "a", "3", 50);
    assert_eq!(2, actor.cache.len());
    assert_eq!("3", get(&mut actor, "a", 50).unwrap());
    assert!(matches!(get(&mut actor, "a", 51), Err(Error::NoMatchingValue)));
    assert_eq!("2", get(&mut actor, "b", 51).unwrap());

    let remove = |key: &str| CacheMessage::Remove { key: key.to_owned() };
    assert!(matches!(actor.process(remove("a"), 0), CacheReply::Done(Ok(()))));
    assert!(matches!(get(&mut actor, "a", 0), Err(Error::NoMatchingValue)));
    assert_eq!("2", get(&mut actor, "b", 0).unwrap());
    // what is not cached is removed without error
    assert!(matches!(actor.process(remove("a"), 0), CacheReply::Done(Ok(()))));
    assert_eq!(1, actor.cache.len());
}
