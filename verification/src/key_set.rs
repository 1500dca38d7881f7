//! A set of the keys of objects.

use crate::text::texts_model;
use crate::value::{entries_model, key_index, lemma_key_index_from, Value};
use vstd::prelude::*;

verus! {

#[verifier::external_type_specification]
#[verifier::external_body]
#[verifier::reject_recursive_types(T)]
#[verifier::reject_recursive_types(S)]
pub struct ExAHashSet<T, S>(ahash::AHashSet<T, S>);

#[verifier::external_type_specification]
#[verifier::external_body]
pub struct ExRandomState(ahash::RandomState);

/// A set of keys: an `AHashSet` of the crate `ahash`.
pub type KeySet = ahash::AHashSet<String>;

/// The keys that the set holds.
pub uninterp spec fn keys_in(s: KeySet) -> Set<Seq<char>>;

/// `AHashSet::new` of the crate `ahash`: a set that holds nothing.
#[verifier::external_body]
pub(crate) fn key_set_new() -> (r: KeySet)
    ensures
        keys_in(r) == Set::<Seq<char>>::empty(),
{
    ahash::AHashSet::new()
}

/// `HashSet::insert` of the standard library, on the set that an
/// `AHashSet` holds: the set then holds the key and what it held.
#[verifier::external_body]
pub(crate) fn key_set_insert(s: &mut KeySet, key: &str)
    ensures
        keys_in(*final(s)) == keys_in(*old(s)).insert(key@),
{
    s.insert(key.to_string());
}

/// `HashSet::contains` of the standard library, on the set that an
/// `AHashSet` holds: whether the set holds the key.
#[verifier::external_body]
pub(crate) fn key_set_contains(s: &KeySet, key: &str) -> (r: bool)
    ensures
        r == keys_in(*s).contains(key@),
{
    s.contains(key)
}

/// `HashSet::union` of the standard library, on the sets that two
/// `AHashSet`s hold, and copies of what it walks over: the keys that one
/// of the two sets holds. The order in which they come is left open.
#[verifier::external_body]
pub(crate) fn key_set_union(a: &KeySet, b: &KeySet) -> (r: Vec<String>)
    ensures
        forall|k: Seq<char>|
            texts_model(r@).contains(k) <==> keys_in(*a).contains(k) || keys_in(*b).contains(k),
{
    a.union(b).cloned().collect()
}

/// The set of the keys of the entries of an object: it holds a key
/// exactly where the object holds something under it.
pub fn key_set_of(entries: &Vec<(String, Value)>) -> (r: KeySet)
    ensures
        forall|k: Seq<char>|
            keys_in(r).contains(k) <==> exists|x: int|
                0 <= x < entries.len() && (#[trigger] entries_model(entries@)[x]).0 == k,
        forall|k: Seq<char>|
            keys_in(r).contains(k) <==> #[trigger] key_index(entries_model(entries@), k) is Some,
{
    let ghost e = entries_model(entries@);
    let mut out = key_set_new();
    let mut i: usize = 0;
    while i < entries.len()
        invariant
            i <= entries.len(),
            e == entries_model(entries@),
            forall|k: Seq<char>|
                keys_in(out).contains(k) <==> exists|x: int| 0 <= x < i && (#[trigger] e[x]).0 == k,
        decreases entries.len() - i,
    {
        let ghost before = keys_in(out);
        key_set_insert(&mut out, entries[i].0.as_str());
        assert forall|k: Seq<char>| keys_in(out).contains(k) <==> exists|x: int|
            0 <= x < i + 1 && (#[trigger] e[x]).0 == k by {
            if keys_in(out).contains(k) {
                if k == e[i as int].0 {
                } else {
                    assert(before.contains(k));
                    let x = choose|x: int| 0 <= x < i && (#[trigger] e[x]).0 == k;
                    assert(0 <= x < i + 1 && e[x].0 == k);
                }
            }
            if exists|x: int| 0 <= x < i + 1 && (#[trigger] e[x]).0 == k {
                let x = choose|x: int| 0 <= x < i + 1 && (#[trigger] e[x]).0 == k;
                if x < i {
                    assert(before.contains(k));
                }
            }
        }
        i += 1;
    }
    assert forall|k: Seq<char>| keys_in(out).contains(k) <==> #[trigger] key_index(e, k) is Some by {
        lemma_key_index_from(e, k, 0);
        if key_index(e, k) is Some {
            let x = key_index(e, k)->Some_0;
            assert(e[x].0 == k);
        }
    }
    out
}

} // verus!
