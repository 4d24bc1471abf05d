//! A cache that lives in memory: values under keys, each good until its time.

use vstd::prelude::*;
use vstd::string::*;
use crate::cache::{CacheMessage, CacheReply, Error};
use crate::text::same_text;

verus! {

/// A cached value and the last second at which it is good.
#[derive(Debug, Clone)]
pub struct CacheItem {
    pub key: String,
    pub value: String,
    pub expires_at: i64,
}

/// What a cached item holds.
pub struct ItemState {
    pub key: Seq<char>,
    pub value: Seq<char>,
    pub expires_at: int,
}

impl DeepView for CacheItem {
    type V = ItemState;

    open spec fn deep_view(&self) -> ItemState {
        ItemState { key: self.key@, value: self.value@, expires_at: self.expires_at as int }
    }
}

/// The worker of the cache: the items that it holds, at most one under each
/// key.
#[derive(Debug, Clone)]
pub struct CacheActor {
    pub cache: Vec<CacheItem>,
}

impl View for CacheActor {
    type V = Seq<ItemState>;

    open spec fn view(&self) -> Seq<ItemState> {
        self.cache.deep_view()
    }
}

/// The item under `key` stands at `i`.
pub open spec fn item_at(items: Seq<ItemState>, key: Seq<char>, i: int) -> bool {
    0 <= i < items.len() && items[i].key == key
}

/// No two items share a key.
pub open spec fn distinct_keys(items: Seq<ItemState>) -> bool {
    forall|i: int, j: int|
        0 <= i < items.len() && 0 <= j < items.len() && i != j ==> (#[trigger] items[i]).key != (
        #[trigger] items[j]).key
}

/// The value that a caller finds under `key` at the time `now`: the cached
/// one, as long as it is good.
pub open spec fn cached(items: Seq<ItemState>, key: Seq<char>, now: int) -> Option<Seq<char>> {
    if exists|i: int| item_at(items, key, i) && items[i].expires_at >= now {
        Some(items[choose|i: int| item_at(items, key, i) && items[i].expires_at >= now].value)
    } else {
        None
    }
}

/// The items without the one under `key`.
pub open spec fn without_item(items: Seq<ItemState>, key: Seq<char>) -> Seq<ItemState> {
    if exists|i: int| item_at(items, key, i) {
        items.remove(choose|i: int| item_at(items, key, i))
    } else {
        items
    }
}

/// The reply answers the request at the time `now`, and leaves the items
/// `before` as `after`.
pub open spec fn answers(
    before: Seq<ItemState>,
    msg: CacheMessage,
    now: int,
    reply: CacheReply,
    after: Seq<ItemState>,
) -> bool {
    match msg {
        CacheMessage::Health => reply matches CacheReply::Done(Ok(())) && after == before,
        CacheMessage::Get { key } => after == before && match reply {
            CacheReply::Value(Ok(value)) => cached(before, key@, now) == Some(value@),
            CacheReply::Value(Err(Error::NoMatchingValue)) => cached(before, key@, now) is None,
            _ => false,
        },
        CacheMessage::Put { key, value, expires_at } => reply matches CacheReply::Done(Ok(()))
            && after == without_item(before, key@).push(
            ItemState { key: key@, value: value@, expires_at: expires_at as int },
        ),
        CacheMessage::Remove { key } => reply matches CacheReply::Done(Ok(())) && after
            == without_item(before, key@),
    }
}

impl CacheActor {
    /// No two items share a key.
    pub open spec fn wf(&self) -> bool {
        distinct_keys(self@)
    }

    /// A cache without items.
    pub fn new() -> (actor: CacheActor)
        ensures
            actor.wf(),
            actor@.len() == 0,
    {
        CacheActor { cache: Vec::new() }
    }

    /// The position of the item under `key`.
    fn find(&self, key: &str) -> (found: Option<usize>)
        ensures
            match found {
                Some(i) => item_at(self@, key@, i as int),
                None => forall|i: int| !item_at(self@, key@, i),
            },
    {
        let mut i: usize = 0;
        while i < self.cache.len()
            invariant
                i <= self.cache.len(),
                forall|j: int| 0 <= j < i ==> !item_at(self@, key@, j),
            decreases self.cache.len() - i,
        {
            if same_text(self.cache[i].key.as_str(), key) {
                return Some(i);
            }
            i += 1;
        }
        None
    }

    /// Removes the item under `key`, if there is one.
    fn forget(&mut self, key: &str)
        requires
            old(self).wf(),
        ensures
            final(self).wf(),
            final(self)@ == without_item(old(self)@, key@),
            forall|i: int| !item_at(final(self)@, key@, i),
    {
        let ghost before = self@;
        match self.find(key) {
            Some(i) => {
                let ghost chosen = choose|k: int| item_at(before, key@, k);
                assert(chosen == i);
                let _ = self.cache.remove(i);
                let ghost after = self@;
                assert(after =~= before.remove(i as int));
                assert forall|a: int| 0 <= a < after.len() implies (#[trigger] after[a])
                    == before[if a < i {
                    a
                } else {
                    a + 1
                }] by {}
                assert forall|a: int, b: int|
                    0 <= a < after.len() && 0 <= b < after.len() && a != b implies (
                #[trigger] after[a]).key != (#[trigger] after[b]).key by {
                    let a0 = if a < i { a } else { a + 1 };
                    let b0 = if b < i { b } else { b + 1 };
                    assert(after[a] == before[a0] && after[b] == before[b0]);
                }
                assert forall|a: int| !item_at(after, key@, a) by {
                    if 0 <= a < after.len() {
                        let a0 = if a < i { a } else { a + 1 };
                        assert(after[a] == before[a0]);
                    }
                }
            },
            None => {},
        }
    }

    /// Serves one request at the time `now`: a value is found as long as it
    /// is good, a value that is put takes the place of the one under its key,
    /// and a value that is removed is gone.
    pub fn process(&mut self, msg: CacheMessage, now: i64) -> (reply: CacheReply)
        requires
            old(self).wf(),
        ensures
            final(self).wf(),
            answers(old(self)@, msg, now as int, reply, final(self)@),
    {
        match msg {
            CacheMessage::Health => CacheReply::Done(Ok(())),
            CacheMessage::Get { key } => {
                match self.find(key.as_str()) {
                    Some(i) => {
                        proof {
                            assert forall|k: int| item_at(self@, key@, k) implies k == i by {}
                        }
                        if self.cache[i].expires_at >= now {
                            CacheReply::Value(Ok(self.cache[i].value.clone()))
                        } else {
                            CacheReply::Value(Err(Error::NoMatchingValue))
                        }
                    },
                    None => CacheReply::Value(Err(Error::NoMatchingValue)),
                }
            },
            CacheMessage::Put { key, value, expires_at } => {
                self.forget(key.as_str());
                let ghost rest = self@;
                self.cache.push(CacheItem { key, value, expires_at });
                proof {
                    let after = self@;
                    assert(after =~= rest.push(
                        ItemState { key: key@, value: value@, expires_at: expires_at as int },
                    ));
                    assert forall|a: int, b: int|
                        0 <= a < after.len() && 0 <= b < after.len() && a != b implies (
                    #[trigger] after[a]).key != (#[trigger] after[b]).key by {
                        if a == rest.len() {
                            assert(!item_at(rest, key@, b));
                        } else if b == rest.len() {
                            assert(!item_at(rest, key@, a));
                        }
                    }
                }
                CacheReply::Done(Ok(()))
            },
            CacheMessage::Remove { key } => {
                self.forget(key.as_str());
                CacheReply::Done(Ok(()))
            },
        }
    }
}

} // verus!
