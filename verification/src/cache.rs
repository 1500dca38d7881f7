//! A bounded cache of documents by key, and what is remembered in it: the
//! expansions of documents, each together with its document, and contexts.

use crate::expand::{default_context_model, expanded, simple_expand};
use crate::reports::{cache_key, generate_json_ld_cache_key};
use crate::value::{array_model, same_model, Entries, Json, Value};
use vstd::prelude::*;

verus! {

#[verifier::external_type_specification]
#[verifier::external_body]
#[verifier::reject_recursive_types(K)]
#[verifier::reject_recursive_types(V)]
#[verifier::reject_recursive_types(S)]
pub struct ExLruCache<K, V, S>(lru::LruCache<K, V, S>);

#[verifier::external_type_specification]
#[verifier::external_body]
pub struct ExDefaultHashBuilder(hashbrown::DefaultHashBuilder);

/// A cache that holds a bounded number of documents under keys and gives
/// up the one that was used least recently: an `LruCache` of the crate
/// `lru`.
pub type DocumentCache = lru::LruCache<String, Value>;

/// What the cache holds: the keys with their documents, the one used most
/// recently first.
pub uninterp spec fn cached_entries(c: DocumentCache) -> Entries;

/// The number of entries that the cache holds at most.
pub uninterp spec fn cache_limit(c: DocumentCache) -> nat;

/// The position of the first entry at or after `from` with the given key.
pub open spec fn cached_at(entries: Entries, key: Seq<char>, from: int) -> Option<int>
    decreases entries.len() - from,
{
    if from < 0 || from >= entries.len() {
        None
    } else if entries[from].0 == key {
        Some(from)
    } else {
        cached_at(entries, key, from + 1)
    }
}

/// The entries after the one at `i` was used: it stands first.
pub open spec fn touched(entries: Entries, i: int) -> Entries {
    seq![entries[i]] + entries.remove(i)
}

/// The entries after a document was put under a key: an entry with that
/// key gets the document and stands first; a new entry stands first, and
/// the last entry goes where the cache was full.
pub open spec fn after_put(entries: Entries, limit: nat, key: Seq<char>, value: Json) -> Entries {
    match cached_at(entries, key, 0) {
        Some(i) => seq![(key, value)] + entries.remove(i),
        None => seq![(key, value)] + (if entries.len() == limit {
            entries.drop_last()
        } else {
            entries
        }),
    }
}

/// The largest number of entries that a cache is made for.
pub const MAX_CACHED: usize = 65536;

/// `LruCache::new` of the crate `lru`: an empty cache that holds at most
/// the given number of entries. The number must not be zero; the function
/// allocates room for that many entries at once, so the number must also
/// be one for which room can be had.
#[verifier::external_body]
pub(crate) fn cache_new(capacity: usize) -> (r: DocumentCache)
    requires
        0 < capacity <= MAX_CACHED,
    ensures
        cached_entries(r) == Seq::<(Seq<char>, Json)>::empty(),
        cache_limit(r) == capacity,
{
    lru::LruCache::new(std::num::NonZeroUsize::new(capacity).unwrap())
}

/// `LruCache::get` of the crate `lru`, and a copy of what it finds: the
/// document under the key, which then is the one used most recently; or
/// nothing, and no change, where the cache does not hold the key.
#[verifier::external_body]
pub(crate) fn cache_get(c: &mut DocumentCache, key: &str) -> (r: Option<Value>)
    ensures
        cache_limit(*final(c)) == cache_limit(*old(c)),
        match cached_at(cached_entries(*old(c)), key@, 0) {
            Some(i) => r is Some && r->Some_0@ == cached_entries(*old(c))[i].1 && cached_entries(
                *final(c),
            ) == touched(cached_entries(*old(c)), i),
            None => r is None && cached_entries(*final(c)) == cached_entries(*old(c)),
        },
{
    c.get(key).cloned()
}

/// `LruCache::put` of the crate `lru`: puts the document under the key. An
/// entry with that key is updated and then the one used most recently; a
/// new entry takes the place of the one used least recently where the
/// cache is full.
#[verifier::external_body]
pub(crate) fn cache_put(c: &mut DocumentCache, key: String, value: Value)
    ensures
        cache_limit(*final(c)) == cache_limit(*old(c)),
        cached_entries(*final(c)) == after_put(
            cached_entries(*old(c)),
            cache_limit(*old(c)),
            key@,
            value@,
        ),
{
    c.put(key, value);
}

/// Whether no two entries have one key.
pub open spec fn keys_distinct(entries: Entries) -> bool {
    forall|i: int, j: int|
        0 <= i < j < entries.len() ==> (#[trigger] entries[i]).0 != (#[trigger] entries[j]).0
}

/// Whether a cache is in order: it holds no more than its limit, which is
/// not zero, and no key twice, and every expansion that it remembers is
/// the right one.
pub open spec fn cache_wf(c: DocumentCache) -> bool {
    cache_limit(c) > 0 && cached_entries(c).len() <= cache_limit(c) && keys_distinct(
        cached_entries(c),
    ) && cache_sound(c)
}

pub proof fn lemma_cached_at(entries: Entries, key: Seq<char>, from: int)
    requires
        0 <= from,
    ensures
        match cached_at(entries, key, from) {
            Some(i) => from <= i < entries.len() && entries[i].0 == key && forall|j: int|
                from <= j < i ==> (#[trigger] entries[j]).0 != key,
            None => forall|j: int| from <= j < entries.len() ==> (#[trigger] entries[j]).0 != key,
        },
    decreases entries.len() - from,
{
    if from < entries.len() && entries[from].0 != key {
        lemma_cached_at(entries, key, from + 1);
    }
}

/// Using an entry keeps a cache in order.
pub proof fn lemma_touched_wf(entries: Entries, i: int)
    requires
        keys_distinct(entries),
        0 <= i < entries.len(),
    ensures
        keys_distinct(touched(entries, i)),
        touched(entries, i).len() == entries.len(),
{
    let t = touched(entries, i);
    assert forall|x: int, y: int| 0 <= x < y < t.len() implies (#[trigger] t[x]).0 != (
    #[trigger] t[y]).0 by {
        let from = |z: int| if z == 0 { i } else if z - 1 < i { z - 1 } else { z };
        assert(t[x] == entries[from(x)]);
        assert(t[y] == entries[from(y)]);
    }
}

/// After a document was put into a cache, the cache holds it under its
/// key, first.
pub proof fn lemma_after_put_first(entries: Entries, limit: nat, key: Seq<char>, value: Json)
    ensures
        after_put(entries, limit, key, value)[0] == (key, value),
        cached_at(after_put(entries, limit, key, value), key, 0) == Some(0int),
{
}

/// Putting a document into a cache keeps it in order.
pub proof fn lemma_after_put_wf(entries: Entries, limit: nat, key: Seq<char>, value: Json)
    requires
        limit > 0,
        entries.len() <= limit,
        keys_distinct(entries),
    ensures
        keys_distinct(after_put(entries, limit, key, value)),
        after_put(entries, limit, key, value).len() <= limit,
{
    lemma_cached_at(entries, key, 0);
    let t = after_put(entries, limit, key, value);
    match cached_at(entries, key, 0) {
        Some(i) => {
            assert forall|x: int, y: int| 0 <= x < y < t.len() implies (#[trigger] t[x]).0 != (
            #[trigger] t[y]).0 by {
                let from = |z: int| if z - 1 < i { z - 1 } else { z };
                assert(t[y] == entries[from(y)]);
                if x > 0 {
                    assert(t[x] == entries[from(x)]);
                } else {
                    assert(t[0].0 == entries[i].0);
                }
            }
        },
        None => {
            assert forall|x: int, y: int| 0 <= x < y < t.len() implies (#[trigger] t[x]).0 != (
            #[trigger] t[y]).0 by {
                assert(t[y] == entries[y - 1]);
                if x > 0 {
                    assert(t[x] == entries[x - 1]);
                }
            }
        },
    }
}

/// An empty cache that holds at most the given number of entries: one
/// entry where the number is zero, and no more than the largest number
/// that a cache is made for.
pub fn new_cache(capacity: usize) -> (r: DocumentCache)
    ensures
        cached_entries(r) == Seq::<(Seq<char>, Json)>::empty(),
        cache_limit(r) == if capacity == 0 {
            1
        } else if capacity > MAX_CACHED {
            MAX_CACHED as nat
        } else {
            capacity as nat
        },
        cache_wf(r),
{
    if capacity == 0 {
        cache_new(1)
    } else if capacity > MAX_CACHED {
        cache_new(MAX_CACHED)
    } else {
        cache_new(capacity)
    }
}

/// Whether a cached document is no remembered expansion, or the right
/// one: a pair holds a document and its expanded form.
pub open spec fn holds_expansion(v: Json) -> bool {
    match v {
        Json::Array(pair) => pair.len() == 2 ==> pair[1] == expanded(
            pair[0],
            default_context_model(),
            None,
        ),
        _ => true,
    }
}

/// Whether every expansion that a cache remembers is the expanded form of
/// the document that it is remembered with.
pub open spec fn cache_sound(c: DocumentCache) -> bool {
    forall|i: int|
        0 <= i < cached_entries(c).len() ==> holds_expansion((#[trigger] cached_entries(c)[i]).1)
}

/// Using an entry leaves the documents of a cache as they are.
pub proof fn lemma_touched_sound(entries: Entries, i: int)
    requires
        0 <= i < entries.len(),
        forall|x: int| 0 <= x < entries.len() ==> holds_expansion((#[trigger] entries[x]).1),
    ensures
        forall|x: int|
            0 <= x < touched(entries, i).len() ==> holds_expansion(
                (#[trigger] touched(entries, i)[x]).1,
            ),
{
    let t = touched(entries, i);
    assert forall|x: int| 0 <= x < t.len() implies holds_expansion((#[trigger] t[x]).1) by {
        if x == 0 {
            assert(t[x] == entries[i]);
        } else if x - 1 < i {
            assert(t[x] == entries[x - 1]);
        } else {
            assert(t[x] == entries[x]);
        }
    }
}

/// Putting a right expansion, or a document that is none, into a cache
/// leaves its remembered expansions right.
pub proof fn lemma_after_put_sound(entries: Entries, limit: nat, key: Seq<char>, value: Json)
    requires
        limit > 0,
        holds_expansion(value),
        forall|x: int| 0 <= x < entries.len() ==> holds_expansion((#[trigger] entries[x]).1),
    ensures
        forall|x: int|
            0 <= x < after_put(entries, limit, key, value).len() ==> holds_expansion(
                (#[trigger] after_put(entries, limit, key, value)[x]).1,
            ),
{
    lemma_cached_at(entries, key, 0);
    let t = after_put(entries, limit, key, value);
    assert forall|x: int| 0 <= x < t.len() implies holds_expansion((#[trigger] t[x]).1) by {
        if x > 0 {
            match cached_at(entries, key, 0) {
                Some(i) => {
                    if x - 1 < i {
                        assert(t[x] == entries[x - 1]);
                    } else {
                        assert(t[x] == entries[x]);
                    }
                },
                None => {
                    assert(t[x] == entries[x - 1]);
                },
            }
        }
    }
}

/// The expanded form of a document in the default context. The cache
/// never changes the result: an expansion is taken from it only where it
/// is remembered together with a document equal to the input; else it is
/// computed, and then remembered with the input under the key of the
/// input.
pub fn expand_with_cache(input: &Value, cache: &mut DocumentCache) -> (r: Value)
    requires
        cache_wf(*old(cache)),
    ensures
        r@ == expanded(input@, default_context_model(), None),
        cache_wf(*final(cache)),
        cache_limit(*final(cache)) == cache_limit(*old(cache)),
        cached_at(cached_entries(*final(cache)), cache_key(input@), 0) is Some,
{
    let key = generate_json_ld_cache_key(input);
    let ghost before = cached_entries(*cache);
    proof {
        lemma_cached_at(before, key@, 0);
    }
    let found = cache_get(cache, key.as_str());
    let ghost middle = cached_entries(*cache);
    proof {
        match cached_at(before, key@, 0) {
            Some(i) => {
                lemma_touched_sound(before, i);
                lemma_touched_wf(before, i);
                assert(touched(before, i)[0] == before[i]);
                assert(cached_at(middle, key@, 0) == Some(0int));
            },
            None => {},
        }
    }
    match &found {
        Some(Value::Array(pair)) => {
            if pair.len() == 2 && same_model(&pair[0], input) {
                proof {
                    let i = cached_at(before, key@, 0)->Some_0;
                    assert(holds_expansion(before[i].1));
                    assert(before[i].1 == Json::Array(array_model(pair@)));
                }
                return pair[1].deep_clone();
            }
        },
        _ => {},
    }
    let result = simple_expand(input);
    let remembered = vec![input.deep_clone(), result.deep_clone()];
    proof {
        assert(array_model(remembered@) =~= seq![input@, result@]);
        let value = Json::Array(array_model(remembered@));
        lemma_after_put_first(middle, cache_limit(*cache), key@, value);
        lemma_after_put_sound(middle, cache_limit(*cache), key@, value);
        lemma_after_put_wf(middle, cache_limit(*cache), key@, value);
    }
    cache_put(cache, key, Value::Array(remembered));
    result
}

/// Remembers a context under a key and returns the key.
pub fn cache_context(cache: &mut DocumentCache, context: String, key: String) -> (r: String)
    ensures
        r@ == key@,
        cache_wf(*old(cache)) ==> cache_wf(*final(cache)),
        cache_limit(*final(cache)) == cache_limit(*old(cache)),
        cached_entries(*final(cache)) == after_put(
            cached_entries(*old(cache)),
            cache_limit(*old(cache)),
            key@,
            Json::Str(context@),
        ),
{
    proof {
        if cache_wf(*cache) {
            lemma_after_put_wf(
                cached_entries(*cache),
                cache_limit(*cache),
                key@,
                Json::Str(context@),
            );
        }
        if cache_wf(*cache) {
            lemma_after_put_sound(
                cached_entries(*cache),
                cache_limit(*cache),
                key@,
                Json::Str(context@),
            );
        }
    }
    cache_put(cache, key.clone(), Value::Str(context));
    key
}

/// The context that the cache remembers under a key.
pub fn cached_context(cache: &mut DocumentCache, key: &str) -> (r: Option<Value>)
    ensures
        cache_wf(*old(cache)) ==> cache_wf(*final(cache)),
        cache_limit(*final(cache)) == cache_limit(*old(cache)),
        match cached_at(cached_entries(*old(cache)), key@, 0) {
            Some(i) => r is Some && r->Some_0@ == cached_entries(*old(cache))[i].1,
            None => r is None,
        },
{
    let ghost before = cached_entries(*cache);
    proof {
        lemma_cached_at(before, key@, 0);
        if cached_at(before, key@, 0) is Some && keys_distinct(before) {
            lemma_touched_wf(before, cached_at(before, key@, 0)->Some_0);
        }
        if cached_at(before, key@, 0) is Some && cache_sound(*cache) {
            lemma_touched_sound(before, cached_at(before, key@, 0)->Some_0);
        }
    }
    cache_get(cache, key)
}

} // verus!
