//! Keyset pagination: which rows make up the page that follows a position.
//!
//! The database file lies beyond the library, so a page is not asked of it
//! with a statement: the filter, the order and the limit of a listing are
//! computed here, over the rows of the tables in memory. That is what lets
//! the order of a page, the cursor and the walk over all pages be stated and
//! proved.

use vstd::prelude::*;
use vstd::string::*;
use vstd::utf8::encode_utf8;
use crate::domain::id::Id;
use crate::sqlite::database::{distinct_recipes, Database, RecipeRow, RecipeState};
use crate::sqlite::recipe::{names_id, same_bytes};
use crate::text::{
    bytes_lt, contains_bytes, is_bytes_lt, is_contained, lemma_bytes_lt_irreflexive,
    lemma_bytes_lt_total, lemma_bytes_lt_transitive, lemma_utf8_injective,
};

verus! {

/// The key that a listing sorts by: the title first, then the identifier,
/// both as UTF-8 bytes.
pub struct SortKey {
    pub title: Seq<u8>,
    pub id: Seq<u8>,
}

/// `a` sorts before `b`.
pub open spec fn key_lt(a: SortKey, b: SortKey) -> bool {
    bytes_lt(a.title, b.title) || (a.title == b.title && bytes_lt(a.id, b.id))
}

/// The key of a recipe. A listing that goes by identifier alone sorts as if
/// every title were empty.
pub open spec fn key_of(r: RecipeState, by_title: bool) -> SortKey {
    SortKey {
        title: if by_title {
            encode_utf8(r.title)
        } else {
            Seq::empty()
        },
        id: encode_utf8(r.id),
    }
}

/// What a listing asks for.
pub struct Query {
    /// Sort by title and identifier, or by identifier alone.
    pub by_title: bool,
    /// The bytes that a title has to contain.
    pub name: Option<Seq<u8>>,
    /// The tags that a recipe has to carry.
    pub tag_ids: Seq<u128>,
    /// The position that the page follows.
    pub after: Option<SortKey>,
}

/// The number of the tags of a recipe that are among the wanted ones.
pub open spec fn carried_count(tag_ids: Seq<u128>, wanted: Seq<u128>) -> nat
    decreases tag_ids.len(),
{
    if tag_ids.len() == 0 {
        0
    } else {
        carried_count(tag_ids.drop_last(), wanted) + if wanted.contains(tag_ids.last()) {
            1nat
        } else {
            0nat
        }
    }
}

/// The recipe passes the filter: its title contains the name, if one is
/// asked for, and as many of its tags are among the wanted ones as there are
/// wanted ones.
pub open spec fn passes(r: RecipeState, q: Query) -> bool {
    &&& q.name matches Some(name) ==> contains_bytes(encode_utf8(r.title), name)
    &&& carried_count(r.tag_ids, q.tag_ids) == q.tag_ids.len()
}

/// `key` lies behind the position `bound`; every key lies behind no position.
pub open spec fn beyond(bound: Option<SortKey>, key: SortKey) -> bool {
    bound matches Some(position) ==> key_lt(position, key)
}

/// The recipe belongs to the listing from the position of the query on.
pub open spec fn eligible(r: RecipeState, q: Query) -> bool {
    passes(r, q) && beyond(q.after, key_of(r, q.by_title))
}

/// The rows at the positions `selected` are the page of at most `page_size`
/// rows that the query asks for: they are eligible and in the order of their
/// keys, and every other eligible row sorts behind the last of a full page.
#[verifier::opaque]
pub open spec fn is_page(recipes: Seq<RecipeState>, q: Query, page_size: nat, selected: Seq<int>)
    -> bool {
    &&& selected.len() <= page_size
    &&& forall|i: int|
        0 <= i < selected.len() ==> 0 <= (#[trigger] selected[i]) < recipes.len() && eligible(
            recipes[selected[i]],
            q,
        )
    &&& forall|i: int, j: int|
        0 <= i < j < selected.len() ==> key_lt(
            key_of(recipes[#[trigger] selected[i]], q.by_title),
            key_of(recipes[#[trigger] selected[j]], q.by_title),
        )
    &&& forall|k: int|
        0 <= k < recipes.len() && eligible(#[trigger] recipes[k], q) ==> selected.contains(k) || (
        selected.len() == page_size && (page_size == 0 || key_lt(
            key_of(recipes[selected.last()], q.by_title),
            key_of(recipes[k], q.by_title),
        )))
}

/// The order of keys is transitive.
pub proof fn lemma_key_lt_transitive(a: SortKey, b: SortKey, c: SortKey)
    requires
        key_lt(a, b),
        key_lt(b, c),
    ensures
        key_lt(a, c),
{
    if bytes_lt(a.title, b.title) && bytes_lt(b.title, c.title) {
        lemma_bytes_lt_transitive(a.title, b.title, c.title);
    }
    if a.title == b.title && b.title == c.title {
        lemma_bytes_lt_irreflexive(a.title);
        lemma_bytes_lt_transitive(a.id, b.id, c.id);
    }
}

/// No key sorts before itself.
pub proof fn lemma_key_lt_irreflexive(a: SortKey)
    ensures
        !key_lt(a, a),
{
    lemma_bytes_lt_irreflexive(a.title);
    lemma_bytes_lt_irreflexive(a.id);
}

/// Of two keys with different identifiers one sorts before the other.
pub proof fn lemma_key_lt_total(a: SortKey, b: SortKey)
    requires
        a.id != b.id,
    ensures
        key_lt(a, b) || key_lt(b, a),
{
    lemma_bytes_lt_total(a.title, b.title);
    lemma_bytes_lt_total(a.id, b.id);
}

/// Two recipes with different identifiers have keys of which one sorts before
/// the other.
pub proof fn lemma_keys_comparable(a: RecipeState, b: RecipeState, by_title: bool)
    requires
        a.id != b.id,
    ensures
        key_lt(key_of(a, by_title), key_of(b, by_title)) || key_lt(
            key_of(b, by_title),
            key_of(a, by_title),
        ),
{
    if encode_utf8(a.id) == encode_utf8(b.id) {
        lemma_utf8_injective(a.id, b.id);
    }
    lemma_key_lt_total(key_of(a, by_title), key_of(b, by_title));
}

/// Whether the key `(a_title, a_id)` sorts before `(b_title, b_id)`.
pub fn is_key_lt(a_title: &[u8], a_id: &[u8], b_title: &[u8], b_id: &[u8]) -> (before: bool)
    ensures
        before == key_lt(
            SortKey { title: a_title@, id: a_id@ },
            SortKey { title: b_title@, id: b_id@ },
        ),
{
    if is_bytes_lt(a_title, b_title) {
        true
    } else if same_bytes(a_title, b_title) {
        is_bytes_lt(a_id, b_id)
    } else {
        false
    }
}

/// The number of the tags of a recipe that are among the wanted ones.
pub fn count_carried(tag_ids: &Vec<Id>, wanted: &Vec<Id>) -> (count: usize)
    ensures
        count == carried_count(tag_ids.deep_view(), wanted.deep_view()),
{
    let ghost tags = tag_ids.deep_view();
    let mut count: usize = 0;
    let mut i: usize = 0;
    assert(tags.take(0) =~= Seq::empty());
    while i < tag_ids.len()
        invariant
            i <= tag_ids.len(),
            tags == tag_ids.deep_view(),
            count <= i,
            count == carried_count(tags.take(i as int), wanted.deep_view()),
        decreases tag_ids.len() - i,
    {
        assert(tags.take(i + 1).drop_last() =~= tags.take(i as int));
        assert(tags.take(i + 1).last() == tag_ids[i as int]@);
        if names_id(wanted, &tag_ids[i]) {
            count += 1;
        }
        i += 1;
    }
    assert(tags.take(i as int) =~= tags);
    count
}

/// A position in a listing, as texts.
#[derive(Debug, Clone)]
pub struct Position {
    pub title: String,
    pub id: String,
}

impl Position {
    /// The key at which the position stands.
    pub open spec fn key(&self) -> SortKey {
        SortKey { title: encode_utf8(self.title@), id: encode_utf8(self.id@) }
    }
}

/// The key of an optional position.
pub open spec fn key_at(position: Option<Position>) -> Option<SortKey> {
    match position {
        Some(position) => Some(position.key()),
        None => None,
    }
}

/// The bytes of an optional name.
pub open spec fn name_bytes(name: Option<String>) -> Option<Seq<u8>> {
    match name {
        Some(name) => Some(encode_utf8(name@)),
        None => None,
    }
}

/// Whether a row passes the filter.
pub fn is_passing(row: &RecipeRow, name: &Option<String>, tag_ids: &Vec<Id>) -> (passing: bool)
    ensures
        passing == passes(
            row.deep_view(),
            Query {
                by_title: arbitrary(),
                name: name_bytes(*name),
                tag_ids: tag_ids.deep_view(),
                after: arbitrary(),
            },
        ),
{
    let named = match name {
        Some(name) => is_contained(row.title.as_str().as_bytes(), name.as_str().as_bytes()),
        None => true,
    };
    named && count_carried(&row.tag_ids, tag_ids) == tag_ids.len()
}

/// The position of a row in a listing.
pub fn position_of(row: &RecipeRow, by_title: bool) -> (position: Position)
    ensures
        position.key() == key_of(row.deep_view(), by_title),
{
    let title = if by_title {
        row.title.clone()
    } else {
        String::new()
    };
    proof {
        if !by_title {
            assert(encode_utf8(Seq::<char>::empty()) =~= Seq::<u8>::empty());
        }
    }
    Position { title, id: row.id.clone() }
}

/// Whether a row lies behind a position.
pub fn is_beyond(row: &RecipeRow, by_title: bool, bound: &Option<Position>) -> (behind: bool)
    ensures
        behind == beyond(key_at(*bound), key_of(row.deep_view(), by_title)),
{
    match bound {
        None => true,
        Some(position) => {
            let here = position_of(row, by_title);
            is_key_lt(
                position.title.as_str().as_bytes(),
                position.id.as_str().as_bytes(),
                here.title.as_str().as_bytes(),
                here.id.as_str().as_bytes(),
            )
        },
    }
}

/// The row that sorts first among those that pass the filter and lie behind
/// `bound`, if there is any.
pub fn first_beyond(
    db: &Database,
    by_title: bool,
    name: &Option<String>,
    tag_ids: &Vec<Id>,
    bound: &Option<Position>,
) -> (first: Option<usize>)
    requires
        distinct_recipes(db@.recipes),
    ensures
        ({
            let q = Query {
                by_title,
                name: name_bytes(*name),
                tag_ids: tag_ids.deep_view(),
                after: key_at(*bound),
            };
            match first {
                Some(b) => {
                    &&& b < db@.recipes.len()
                    &&& eligible(db@.recipes[b as int], q)
                    &&& forall|k: int|
                        0 <= k < db@.recipes.len() && k != b && eligible(
                            #[trigger] db@.recipes[k],
                            q,
                        ) ==> key_lt(
                            key_of(db@.recipes[b as int], by_title),
                            key_of(db@.recipes[k], by_title),
                        )
                },
                None => forall|k: int|
                    0 <= k < db@.recipes.len() ==> !eligible(#[trigger] db@.recipes[k], q),
            }
        }),
{
    let ghost q = Query {
        by_title,
        name: name_bytes(*name),
        tag_ids: tag_ids.deep_view(),
        after: key_at(*bound),
    };
    let ghost recipes = db@.recipes;
    let mut best: Option<usize> = None;
    let mut k: usize = 0;
    while k < db.recipes.len()
        invariant
            k <= db.recipes.len(),
            recipes == db@.recipes,
            distinct_recipes(recipes),
            q == (Query {
                by_title,
                name: name_bytes(*name),
                tag_ids: tag_ids.deep_view(),
                after: key_at(*bound),
            }),
            match best {
                Some(b) => {
                    &&& b < k
                    &&& eligible(recipes[b as int], q)
                    &&& forall|m: int|
                        0 <= m < k && m != b && eligible(#[trigger] recipes[m], q) ==> key_lt(
                            key_of(recipes[b as int], by_title),
                            key_of(recipes[m], by_title),
                        )
                },
                None => forall|m: int| 0 <= m < k ==> !eligible(#[trigger] recipes[m], q),
            },
        decreases db.recipes.len() - k,
    {
        let row = &db.recipes[k];
        assert(row.deep_view() == recipes[k as int]);
        if is_passing(row, name, tag_ids) && is_beyond(row, by_title, bound) {
            match best {
                None => {
                    best = Some(k);
                },
                Some(b) => {
                    let here = position_of(row, by_title);
                    let there = position_of(&db.recipes[b], by_title);
                    let ghost here_key = key_of(recipes[k as int], by_title);
                    let ghost there_key = key_of(recipes[b as int], by_title);
                    proof {
                        lemma_keys_comparable(recipes[k as int], recipes[b as int], by_title);
                    }
                    if is_key_lt(
                        here.title.as_str().as_bytes(),
                        here.id.as_str().as_bytes(),
                        there.title.as_str().as_bytes(),
                        there.id.as_str().as_bytes(),
                    ) {
                        proof {
                            assert forall|m: int|
                                0 <= m < k + 1 && m != k && eligible(
                                    #[trigger] recipes[m],
                                    q,
                                ) implies key_lt(here_key, key_of(recipes[m], by_title)) by {
                                if m != b {
                                    lemma_key_lt_transitive(
                                        here_key,
                                        there_key,
                                        key_of(recipes[m], by_title),
                                    );
                                }
                            }
                        }
                        best = Some(k);
                    }
                },
            }
        }
        k += 1;
    }
    best
}

/// The positions as integers.
pub open spec fn positions(selected: Seq<usize>) -> Seq<int> {
    Seq::new(selected.len(), |i: int| selected[i] as int)
}

/// The rows of the page of at most `page_size` rows that passes the filter
/// and follows the position `after`.
pub fn select_page(
    db: &Database,
    by_title: bool,
    name: &Option<String>,
    tag_ids: &Vec<Id>,
    after: Option<Position>,
    page_size: u64,
) -> (selected: Vec<usize>)
    requires
        distinct_recipes(db@.recipes),
    ensures
        is_page(
            db@.recipes,
            Query {
                by_title,
                name: name_bytes(*name),
                tag_ids: tag_ids.deep_view(),
                after: key_at(after),
            },
            page_size as nat,
            positions(selected@),
        ),
{
    let ghost q = Query {
        by_title,
        name: name_bytes(*name),
        tag_ids: tag_ids.deep_view(),
        after: key_at(after),
    };
    let ghost recipes = db@.recipes;
    let mut selected: Vec<usize> = Vec::new();
    let mut bound: Option<Position> = after;
    let mut exhausted = false;
    while !exhausted && (selected.len() as u64) < page_size
        invariant
            recipes == db@.recipes,
            distinct_recipes(recipes),
            q == (Query {
                by_title,
                name: name_bytes(*name),
                tag_ids: tag_ids.deep_view(),
                after: key_at(after),
            }),
            selected.len() <= page_size,
            forall|i: int|
                0 <= i < selected.len() ==> (#[trigger] selected[i]) < recipes.len() && eligible(
                    recipes[selected[i] as int],
                    q,
                ),
            forall|i: int, j: int|
                0 <= i < j < selected.len() ==> key_lt(
                    key_of(recipes[(#[trigger] selected[i]) as int], by_title),
                    key_of(recipes[(#[trigger] selected[j]) as int], by_title),
                ),
            key_at(bound) == if selected.len() == 0 {
                q.after
            } else {
                Some(key_of(recipes[selected[selected.len() - 1] as int], by_title))
            },
            forall|k: int|
                0 <= k < recipes.len() && eligible(#[trigger] recipes[k], q) ==> positions(
                    selected@,
                ).contains(k) || (!exhausted && beyond(key_at(bound), key_of(recipes[k], by_title))),
        decreases (if exhausted { 0int } else { 1int }) + page_size - selected.len(),
    {
        let ghost q_here = Query { after: key_at(bound), ..q };
        let ghost before = selected@;
        match first_beyond(db, by_title, name, tag_ids, &bound) {
            None => {
                exhausted = true;
                proof {
                    assert forall|k: int|
                        0 <= k < recipes.len() && eligible(#[trigger] recipes[k], q) implies positions(
                        selected@,
                    ).contains(k) by {
                        assert(!eligible(recipes[k], q_here));
                    }
                }
            },
            Some(b) => {
                let ghost b_key = key_of(recipes[b as int], by_title);
                proof {
                    assert(eligible(recipes[b as int], q_here));
                    if before.len() > 0 {
                        let last = before[before.len() - 1];
                        let last_key = key_of(recipes[last as int], by_title);
                        assert(eligible(recipes[last as int], q));
                        if q.after is Some {
                            lemma_key_lt_transitive(q.after->0, last_key, b_key);
                        }
                        assert forall|i: int| 0 <= i < before.len() implies key_lt(
                            key_of(recipes[(#[trigger] before[i]) as int], by_title),
                            b_key,
                        ) by {
                            if i < before.len() - 1 {
                                lemma_key_lt_transitive(
                                    key_of(recipes[before[i] as int], by_title),
                                    last_key,
                                    b_key,
                                );
                            }
                        }
                    }
                }
                selected.push(b);
                bound = Some(position_of(&db.recipes[b], by_title));
                proof {
                    assert forall|k: int|
                        0 <= k < recipes.len() && eligible(#[trigger] recipes[k], q) implies positions(
                        selected@,
                    ).contains(k) || beyond(key_at(bound), key_of(recipes[k], by_title)) by {
                        if positions(before).contains(k) {
                            let i = choose|i: int|
                                0 <= i < positions(before).len() && positions(before)[i] == k;
                            assert(positions(selected@)[i] == k);
                        } else if k == b {
                            assert(positions(selected@)[before.len() as int] == k);
                        } else {
                            assert(eligible(recipes[k], q_here));
                        }
                    }
                }
            },
        }
    }
    proof {
        reveal(is_page);
        let chosen = positions(selected@);
        assert forall|i: int, j: int| 0 <= i < j < chosen.len() implies key_lt(
            key_of(recipes[#[trigger] chosen[i]], q.by_title),
            key_of(recipes[#[trigger] chosen[j]], q.by_title),
        ) by {
            assert(chosen[i] == selected[i] as int && chosen[j] == selected[j] as int);
        }
        assert forall|i: int| 0 <= i < chosen.len() implies 0 <= (#[trigger] chosen[i])
            < recipes.len() && eligible(recipes[chosen[i]], q) by {
            assert(chosen[i] == selected[i] as int);
        }
        if selected.len() > 0 {
            assert(chosen.last() == selected[selected.len() - 1] as int);
        }
    }
    selected
}

/// The tags of a recipe that are among the wanted ones are as many as the
/// tags that the recipe and the wanted ones have in common.
pub proof fn lemma_carried_count_is_common(tag_ids: Seq<u128>, wanted: Seq<u128>)
    requires
        tag_ids.no_duplicates(),
    ensures
        carried_count(tag_ids, wanted) == tag_ids.to_set().intersect(wanted.to_set()).len(),
    decreases tag_ids.len(),
{
    broadcast use vstd::set::group_set_axioms;
    broadcast use vstd::seq_lib::seq_to_set_is_finite;

    if tag_ids.len() == 0 {
        assert(tag_ids.to_set().intersect(wanted.to_set()) =~= Set::<u128>::empty());
    } else {
        let init = tag_ids.drop_last();
        let x = tag_ids.last();
        lemma_carried_count_is_common(init, wanted);
        let common = init.to_set().intersect(wanted.to_set());
        assert(!init.contains(x)) by {
            if init.contains(x) {
                let i = choose|i: int| 0 <= i < init.len() && init[i] == x;
                assert(tag_ids[i] == tag_ids[tag_ids.len() - 1]);
            }
        }
        assert(tag_ids.to_set() =~= init.to_set().insert(x)) by {
            assert forall|t: u128| tag_ids.to_set().contains(t) <==> init.to_set().insert(
                x,
            ).contains(t) by {
                if tag_ids.contains(t) {
                    let i = choose|i: int| 0 <= i < tag_ids.len() && tag_ids[i] == t;
                    if i < init.len() {
                        assert(init[i] == t);
                    }
                }
                if init.contains(t) {
                    let i = choose|i: int| 0 <= i < init.len() && init[i] == t;
                    assert(tag_ids[i] == t);
                }
                if t == x {
                    assert(tag_ids[tag_ids.len() - 1] == t);
                }
            }
        }
        vstd::set_lib::lemma_len_intersect(init.to_set(), wanted.to_set());
        assert(common.finite()) by {
            vstd::set_lib::lemma_len_subset(common, init.to_set());
        }
        if wanted.contains(x) {
            assert(tag_ids.to_set().intersect(wanted.to_set()) =~= common.insert(x));
        } else {
            assert(tag_ids.to_set().intersect(wanted.to_set()) =~= common);
        }
    }
}

/// A filter on tags keeps exactly the recipes that carry every wanted tag:
/// for a recipe and a filter that each name no tag twice, the recipe passes
/// the count of the filter if and only if it carries all the wanted tags. A
/// recipe that carries only some of them does not pass.
pub proof fn theorem_tag_filter_is_conjunction(tag_ids: Seq<u128>, wanted: Seq<u128>)
    requires
        tag_ids.no_duplicates(),
        wanted.no_duplicates(),
    ensures
        carried_count(tag_ids, wanted) == wanted.len() <==> forall|t: u128|
            wanted.contains(t) ==> tag_ids.contains(t),
{
    broadcast use vstd::set::group_set_axioms;
    broadcast use vstd::seq_lib::seq_to_set_is_finite;

    lemma_carried_count_is_common(tag_ids, wanted);
    wanted.unique_seq_to_set();
    let carried = tag_ids.to_set();
    let asked = wanted.to_set();
    let common = carried.intersect(asked);
    vstd::set_lib::lemma_len_subset(common, asked);
    if forall|t: u128| wanted.contains(t) ==> tag_ids.contains(t) {
        assert(common =~= asked);
    }
    if carried_count(tag_ids, wanted) == wanted.len() {
        vstd::set_lib::lemma_subset_equality(common, asked);
        assert forall|t: u128| wanted.contains(t) implies tag_ids.contains(t) by {
            assert(asked.contains(t));
            assert(common.contains(t));
        }
    }
}

/// A filter that names a tag twice keeps no recipe.
pub proof fn theorem_repeated_tag_keeps_nothing(tag_ids: Seq<u128>, wanted: Seq<u128>)
    requires
        tag_ids.no_duplicates(),
        !wanted.no_duplicates(),
    ensures
        carried_count(tag_ids, wanted) < wanted.len(),
{
    broadcast use vstd::set::group_set_axioms;
    broadcast use vstd::seq_lib::seq_to_set_is_finite;

    lemma_carried_count_is_common(tag_ids, wanted);
    vstd::set_lib::lemma_len_subset(tag_ids.to_set().intersect(wanted.to_set()), wanted.to_set());
    wanted.lemma_cardinality_of_set();
    if wanted.to_set().len() == wanted.len() {
        wanted.lemma_no_dup_set_cardinality();
    }
}

/// The items of a page are in the strict order of their keys, so none occurs
/// twice.
pub proof fn theorem_page_is_sorted(
    recipes: Seq<RecipeState>,
    q: Query,
    page_size: nat,
    selected: Seq<int>,
)
    requires
        is_page(recipes, q, page_size, selected),
    ensures
        forall|i: int, j: int|
            0 <= i < j < selected.len() ==> key_lt(
                key_of(recipes[#[trigger] selected[i]], q.by_title),
                key_of(recipes[#[trigger] selected[j]], q.by_title),
            ),
        selected.no_duplicates(),
{
    reveal(is_page);
    assert forall|i: int, j: int|
        0 <= i < selected.len() && 0 <= j < selected.len() && i != j implies selected[i]
        != selected[j] by {
        lemma_key_lt_irreflexive(key_of(recipes[selected[i]], q.by_title));
    }
}

/// The query for the page that follows a page: the same filter, from the key
/// of the last row of the page on.
pub open spec fn next_query(recipes: Seq<RecipeState>, q: Query, selected: Seq<int>) -> Query {
    Query { after: Some(key_of(recipes[selected.last()], q.by_title)), ..q }
}

/// Following the cursor loses nothing and repeats nothing: every row that
/// belongs to a listing is either on its first page or, if that page is
/// full, belongs to the listing that goes on from the last row of the page,
/// and never both. A page that is not full holds every such row.
pub proof fn theorem_pages_partition(
    recipes: Seq<RecipeState>,
    q: Query,
    page_size: nat,
    selected: Seq<int>,
    k: int,
)
    requires
        distinct_recipes(recipes),
        page_size > 0,
        is_page(recipes, q, page_size, selected),
        0 <= k < recipes.len(),
        eligible(recipes[k], q),
    ensures
        selected.contains(k) != (selected.len() == page_size && eligible(
            recipes[k],
            next_query(recipes, q, selected),
        )),
{
    reveal(is_page);
    if selected.contains(k) {
        if selected.len() == page_size {
            let i = choose|i: int| 0 <= i < selected.len() && selected[i] == k;
            let last = selected.len() - 1;
            let last_key = key_of(recipes[selected[last]], q.by_title);
            let key = key_of(recipes[selected[i]], q.by_title);
            if i == last {
                lemma_key_lt_irreflexive(last_key);
            } else {
                assert(key_lt(key, last_key));
                if key_lt(last_key, key) {
                    lemma_key_lt_transitive(key, last_key, key);
                    lemma_key_lt_irreflexive(key);
                }
            }
        }
    }
}

/// Two pages for the same query agree on their first `i` rows.
proof fn lemma_pages_agree(
    recipes: Seq<RecipeState>,
    q: Query,
    page_size: nat,
    first: Seq<int>,
    second: Seq<int>,
    i: int,
)
    requires
        distinct_recipes(recipes),
        is_page(recipes, q, page_size, first),
        is_page(recipes, q, page_size, second),
        0 <= i <= first.len(),
        i <= second.len(),
    ensures
        forall|j: int| 0 <= j < i ==> first[j] == second[j],
    decreases i,
{
    if i > 0 {
        lemma_pages_agree(recipes, q, page_size, first, second, i - 1);
        let a = first[i - 1];
        let b = second[i - 1];
        if a != b {
            theorem_page_is_sorted(recipes, q, page_size, first);
            theorem_page_is_sorted(recipes, q, page_size, second);
            reveal(is_page);
            let key_a = key_of(recipes[a], q.by_title);
            let key_b = key_of(recipes[b], q.by_title);
            lemma_keys_comparable(recipes[a], recipes[b], q.by_title);
            lemma_rows_do_not_precede(recipes, q, page_size, first, second, i - 1);
            lemma_rows_do_not_precede(recipes, q, page_size, second, first, i - 1);
        }
    }
}

/// Where two pages agree before the position `k`, the row of the one at `k`
/// does not sort before that of the other.
proof fn lemma_rows_do_not_precede(
    recipes: Seq<RecipeState>,
    q: Query,
    page_size: nat,
    one: Seq<int>,
    other: Seq<int>,
    k: int,
)
    requires
        distinct_recipes(recipes),
        is_page(recipes, q, page_size, one),
        is_page(recipes, q, page_size, other),
        0 <= k < one.len(),
        k < other.len(),
        forall|j: int| 0 <= j < k ==> one[j] == other[j],
    ensures
        !key_lt(key_of(recipes[one[k]], q.by_title), key_of(recipes[other[k]], q.by_title)),
{
    theorem_page_is_sorted(recipes, q, page_size, one);
    theorem_page_is_sorted(recipes, q, page_size, other);
    reveal(is_page);
    let a = one[k];
    let key_a = key_of(recipes[a], q.by_title);
    let key_b = key_of(recipes[other[k]], q.by_title);
    let last = other.len() - 1;
    let key_last = key_of(recipes[other[last]], q.by_title);
    assert(eligible(recipes[a], q));
    if key_lt(key_a, key_b) {
        if other.contains(a) {
            let j = choose|j: int| 0 <= j < other.len() && other[j] == a;
            if j < k {
                assert(one[j] == a);
            } else if j == k {
                lemma_key_lt_irreflexive(key_a);
            } else {
                assert(key_lt(key_b, key_a));
                lemma_key_lt_transitive(key_a, key_b, key_a);
                lemma_key_lt_irreflexive(key_a);
            }
        } else {
            assert(key_lt(key_last, key_a));
            if k < last {
                assert(key_lt(key_b, key_last));
                lemma_key_lt_transitive(key_b, key_last, key_a);
            }
            lemma_key_lt_transitive(key_a, key_b, key_a);
            lemma_key_lt_irreflexive(key_a);
        }
    }
}

/// A query has one page: any two sequences of rows that are the page of at
/// most `page_size` rows for a query are the same sequence.
pub proof fn theorem_page_is_unique(
    recipes: Seq<RecipeState>,
    q: Query,
    page_size: nat,
    first: Seq<int>,
    second: Seq<int>,
)
    requires
        distinct_recipes(recipes),
        is_page(recipes, q, page_size, first),
        is_page(recipes, q, page_size, second),
    ensures
        first == second,
{
    if first.len() <= second.len() {
        lemma_pages_agree(recipes, q, page_size, first, second, first.len() as int);
        lemma_same_length(recipes, q, page_size, first, second);
    } else {
        lemma_pages_agree(recipes, q, page_size, first, second, second.len() as int);
        lemma_same_length(recipes, q, page_size, second, first);
    }
    assert(first =~= second);
}

/// A page that begins with all of another page is no longer than it.
proof fn lemma_same_length(
    recipes: Seq<RecipeState>,
    q: Query,
    page_size: nat,
    short: Seq<int>,
    long: Seq<int>,
)
    requires
        distinct_recipes(recipes),
        is_page(recipes, q, page_size, short),
        is_page(recipes, q, page_size, long),
        short.len() <= long.len(),
        forall|j: int| 0 <= j < short.len() ==> short[j] == long[j],
    ensures
        short.len() == long.len(),
{
    if short.len() < long.len() {
        theorem_page_is_sorted(recipes, q, page_size, long);
        reveal(is_page);
        let extra = long[short.len() as int];
        assert(eligible(recipes[extra], q));
        if short.contains(extra) {
            let j = choose|j: int| 0 <= j < short.len() && short[j] == extra;
            assert(long[j] == extra);
        }
    }
}

/// The query with which a walk over the pages of a listing asks for its page
/// number `i`: the query of the listing for the first page, and for every
/// other page the same filter from the last row of the page before on.
pub open spec fn walk_query(recipes: Seq<RecipeState>, q: Query, pages: Seq<Seq<int>>, i: int)
    -> Query {
    if i <= 0 {
        q
    } else {
        next_query(recipes, q, pages[i - 1])
    }
}

/// `pages` are the pages that a walk over a listing has seen so far: the
/// first page answers the query, and every page but the last is full and is
/// followed by the page that answers the query from its last row on.
pub open spec fn is_walk_so_far(
    recipes: Seq<RecipeState>,
    q: Query,
    page_size: nat,
    pages: Seq<Seq<int>>,
) -> bool {
    &&& pages.len() >= 1
    &&& forall|i: int|
        0 <= i < pages.len() ==> is_page(
            recipes,
            walk_query(recipes, q, pages, i),
            page_size,
            #[trigger] pages[i],
        )
    &&& forall|i: int| 0 <= i < pages.len() - 1 ==> (#[trigger] pages[i]).len() == page_size
}

/// `pages` is the walk over a listing to its end: the pages that the walk has
/// seen, of which the last is not full, so that it comes without a cursor.
pub open spec fn is_walk(
    recipes: Seq<RecipeState>,
    q: Query,
    page_size: nat,
    pages: Seq<Seq<int>>,
) -> bool {
    is_walk_so_far(recipes, q, page_size, pages) && pages.last().len() < page_size
}

/// The row at `a` of the page `i` of a walk.
pub open spec fn walked(recipes: Seq<RecipeState>, pages: Seq<Seq<int>>, i: int, a: int)
    -> RecipeState {
    recipes[pages[i][a]]
}

/// Every row of a walk belongs to the listing that is walked.
proof fn lemma_walk_rows_belong(
    recipes: Seq<RecipeState>,
    q: Query,
    page_size: nat,
    pages: Seq<Seq<int>>,
    i: int,
    a: int,
)
    requires
        page_size > 0,
        is_walk_so_far(recipes, q, page_size, pages),
        0 <= i < pages.len(),
        0 <= a < pages[i].len(),
    ensures
        0 <= pages[i][a] < recipes.len(),
        eligible(walked(recipes, pages, i, a), walk_query(recipes, q, pages, i)),
        eligible(walked(recipes, pages, i, a), q),
    decreases i,
{
    assert(is_page(recipes, walk_query(recipes, q, pages, i), page_size, pages[i]));
    reveal(is_page);
    if i > 0 {
        let before = pages[i - 1];
        assert(before.len() == page_size);
        let last = before.len() - 1;
        lemma_walk_rows_belong(recipes, q, page_size, pages, i - 1, last);
        assert(before.last() == before[last]);
        let last_key = key_of(walked(recipes, pages, i - 1, last), q.by_title);
        let key = key_of(walked(recipes, pages, i, a), q.by_title);
        assert(key_lt(last_key, key));
        if q.after is Some {
            lemma_key_lt_transitive(q.after->0, last_key, key);
        }
    }
}

/// Every row of a later page of a walk sorts behind the last row of an
/// earlier page.
proof fn lemma_walk_goes_on(
    recipes: Seq<RecipeState>,
    q: Query,
    page_size: nat,
    pages: Seq<Seq<int>>,
    i: int,
    j: int,
    b: int,
)
    requires
        page_size > 0,
        is_walk_so_far(recipes, q, page_size, pages),
        0 <= i < j < pages.len(),
        0 <= b < pages[j].len(),
    ensures
        pages[i].len() == page_size,
        key_lt(
            key_of(walked(recipes, pages, i, page_size - 1), q.by_title),
            key_of(walked(recipes, pages, j, b), q.by_title),
        ),
    decreases j - i,
{
    lemma_walk_rows_belong(recipes, q, page_size, pages, j, b);
    assert(pages[j - 1].len() == page_size);
    assert(pages[i].len() == page_size);
    assert(pages[j - 1].last() == pages[j - 1][page_size - 1]);
    let key = key_of(walked(recipes, pages, j, b), q.by_title);
    let before = key_of(walked(recipes, pages, j - 1, page_size - 1), q.by_title);
    assert(key_lt(before, key));
    if i < j - 1 {
        lemma_walk_goes_on(recipes, q, page_size, pages, i, j - 1, page_size - 1);
        lemma_key_lt_transitive(
            key_of(walked(recipes, pages, i, page_size - 1), q.by_title),
            before,
            key,
        );
    }
}

/// A row that belongs to the listing from the page `i` of a walk on is on that
/// page or on a later one.
proof fn lemma_walk_reaches(
    recipes: Seq<RecipeState>,
    q: Query,
    page_size: nat,
    pages: Seq<Seq<int>>,
    i: int,
    k: int,
)
    requires
        page_size > 0,
        is_walk(recipes, q, page_size, pages),
        0 <= i < pages.len(),
        0 <= k < recipes.len(),
        eligible(recipes[k], walk_query(recipes, q, pages, i)),
    ensures
        exists|j: int| 0 <= j < pages.len() && (#[trigger] pages[j]).contains(k),
    decreases pages.len() - i,
{
    assert(is_page(recipes, walk_query(recipes, q, pages, i), page_size, pages[i]));
    if !pages[i].contains(k) {
        reveal(is_page);
        assert(pages[i].len() == page_size);
        assert(i < pages.len() - 1) by {
            if i == pages.len() - 1 {
                assert(pages.last() == pages[i]);
            }
        }
        assert(eligible(recipes[k], walk_query(recipes, q, pages, i + 1)));
        lemma_walk_reaches(recipes, q, page_size, pages, i + 1, k);
    }
}

/// Following the cursors to the end yields the listing: the pages of a walk
/// hold every recipe that belongs to the listing and no other, in the strict
/// order of the keys from the first row of the first page to the last row of
/// the last, so that no recipe occurs twice.
pub proof fn theorem_walk_is_the_listing(
    recipes: Seq<RecipeState>,
    q: Query,
    page_size: nat,
    pages: Seq<Seq<int>>,
)
    requires
        distinct_recipes(recipes),
        page_size > 0,
        is_walk(recipes, q, page_size, pages),
    ensures
        forall|k: int|
            0 <= k < recipes.len() && eligible(#[trigger] recipes[k], q) ==> exists|j: int|
                0 <= j < pages.len() && (#[trigger] pages[j]).contains(k),
        forall|i: int, a: int|
            0 <= i < pages.len() && 0 <= a < pages[i].len() ==> 0 <= pages[i][a] < recipes.len()
                && eligible(#[trigger] walked(recipes, pages, i, a), q),
        forall|i: int, a: int, j: int, b: int|
            0 <= i < pages.len() && 0 <= a < pages[i].len() && 0 <= j < pages.len() && 0 <= b
                < pages[j].len() && (i < j || (i == j && a < b)) ==> key_lt(
                key_of(#[trigger] walked(recipes, pages, i, a), q.by_title),
                key_of(#[trigger] walked(recipes, pages, j, b), q.by_title),
            ),
        forall|i: int, a: int, j: int, b: int|
            0 <= i < pages.len() && 0 <= a < pages[i].len() && 0 <= j < pages.len() && 0 <= b
                < pages[j].len() && #[trigger] pages[i][a] == #[trigger] pages[j][b] ==> i == j
                && a == b,
{
    assert forall|k: int| 0 <= k < recipes.len() && eligible(#[trigger] recipes[k], q) implies exists|
        j: int,
    | 0 <= j < pages.len() && (#[trigger] pages[j]).contains(k) by {
        lemma_walk_reaches(recipes, q, page_size, pages, 0, k);
    }
    assert forall|i: int, a: int| 0 <= i < pages.len() && 0 <= a < pages[i].len() implies 0
        <= pages[i][a] < recipes.len() && eligible(#[trigger] walked(recipes, pages, i, a), q) by {
        lemma_walk_rows_belong(recipes, q, page_size, pages, i, a);
    }
    assert forall|i: int, a: int, j: int, b: int|
        0 <= i < pages.len() && 0 <= a < pages[i].len() && 0 <= j < pages.len() && 0 <= b
            < pages[j].len() && (i < j || (i == j && a < b)) implies key_lt(
        key_of(#[trigger] walked(recipes, pages, i, a), q.by_title),
        key_of(#[trigger] walked(recipes, pages, j, b), q.by_title),
    ) by {
        lemma_walk_order(recipes, q, page_size, pages, i, a, j, b);
    }
    assert forall|i: int, a: int, j: int, b: int|
        0 <= i < pages.len() && 0 <= a < pages[i].len() && 0 <= j < pages.len() && 0 <= b
            < pages[j].len() && #[trigger] pages[i][a] == #[trigger] pages[j][b] implies i == j
        && a == b by {
        lemma_key_lt_irreflexive(key_of(walked(recipes, pages, i, a), q.by_title));
        if i < j || (i == j && a < b) {
            lemma_walk_order(recipes, q, page_size, pages, i, a, j, b);
        } else if j < i || (i == j && b < a) {
            lemma_walk_order(recipes, q, page_size, pages, j, b, i, a);
        }
    }
}

/// A row of a walk sorts before every row that comes later in the walk.
proof fn lemma_walk_order(
    recipes: Seq<RecipeState>,
    q: Query,
    page_size: nat,
    pages: Seq<Seq<int>>,
    i: int,
    a: int,
    j: int,
    b: int,
)
    requires
        page_size > 0,
        is_walk_so_far(recipes, q, page_size, pages),
        0 <= i < pages.len(),
        0 <= a < pages[i].len(),
        0 <= j < pages.len(),
        0 <= b < pages[j].len(),
        i < j || (i == j && a < b),
    ensures
        key_lt(
            key_of(walked(recipes, pages, i, a), q.by_title),
            key_of(walked(recipes, pages, j, b), q.by_title),
        ),
{
    assert(is_page(recipes, walk_query(recipes, q, pages, i), page_size, pages[i]));
    theorem_page_is_sorted(recipes, walk_query(recipes, q, pages, i), page_size, pages[i]);
    if i < j {
        lemma_walk_goes_on(recipes, q, page_size, pages, i, j, b);
        if a < page_size - 1 {
            lemma_key_lt_transitive(
                key_of(walked(recipes, pages, i, a), q.by_title),
                key_of(walked(recipes, pages, i, page_size - 1), q.by_title),
                key_of(walked(recipes, pages, j, b), q.by_title),
            );
        }
    }
}

/// A walk comes to its end: a listing has no more full pages than there are
/// recipes, so that at most one page more than that is seen.
pub proof fn theorem_walk_ends(
    recipes: Seq<RecipeState>,
    q: Query,
    page_size: nat,
    pages: Seq<Seq<int>>,
)
    requires
        distinct_recipes(recipes),
        page_size > 0,
        is_walk_so_far(recipes, q, page_size, pages),
    ensures
        pages.len() <= recipes.len() + 1,
        pages.last().len() == page_size ==> pages.len() <= recipes.len(),
{
    broadcast use vstd::set::group_set_axioms;
    broadcast use vstd::seq_lib::seq_to_set_is_finite;

    let full: int = if pages.last().len() == page_size {
        pages.len() as int
    } else {
        pages.len() - 1
    };
    assert forall|i: int| 0 <= i < full implies (#[trigger] pages[i]).len() == page_size by {
        if i == pages.len() - 1 {
            assert(pages[i] == pages.last());
        }
    }
    let firsts = Seq::new(full as nat, |i: int| pages[i][0]);
    assert forall|i: int, j: int|
        0 <= i < firsts.len() && 0 <= j < firsts.len() && i != j implies firsts[i]
        != firsts[j] by {
        assert(pages[i].len() == page_size && pages[j].len() == page_size);
        lemma_key_lt_irreflexive(key_of(walked(recipes, pages, i, 0), q.by_title));
        if i < j {
            lemma_walk_order(recipes, q, page_size, pages, i, 0, j, 0);
        } else {
            lemma_walk_order(recipes, q, page_size, pages, j, 0, i, 0);
        }
    }
    firsts.unique_seq_to_set();
    let range = vstd::set_lib::set_int_range(0, recipes.len() as int);
    vstd::set_lib::lemma_int_range(0, recipes.len() as int);
    assert forall|k: int| firsts.to_set().contains(k) implies range.contains(k) by {
        let i = choose|i: int| 0 <= i < firsts.len() && firsts[i] == k;
        assert(pages[i].len() == page_size);
        lemma_walk_rows_belong(recipes, q, page_size, pages, i, 0);
    }
    vstd::set_lib::lemma_len_subset(firsts.to_set(), range);
}

} // verus!
