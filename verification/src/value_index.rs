//! An index of a list of documents by their structural hashes, to find out
//! quickly whether the list holds a document.

use crate::hash::{compute_value_hash_fast, content_hash};
use crate::value::{array_model, same_model, Json, Value};
use vstd::prelude::*;

verus! {

/// An index from hashes to places of a list, held as a `HashMap` of the
/// crate `hashbrown`.
#[verifier::external_body]
pub struct HashIndex {
    buckets: hashbrown::HashMap<u64, Vec<usize>>,
}

/// What the index holds: for each hash the places that were added under
/// it, in the order in which they were added.
pub uninterp spec fn index_buckets(ix: HashIndex) -> Map<u64, Seq<usize>>;

/// The places under a hash, or none for a hash that the index does not
/// hold.
pub open spec fn bucket_of(buckets: Map<u64, Seq<usize>>, h: u64) -> Seq<usize> {
    if buckets.dom().contains(h) {
        buckets[h]
    } else {
        Seq::empty()
    }
}

/// The buckets of an index without hashes.
pub open spec fn no_buckets() -> Map<u64, Seq<usize>> {
    Map::empty()
}

/// `HashMap::new` of the crate `hashbrown`: an index without hashes.
#[verifier::external_body]
pub(crate) fn index_new() -> (r: HashIndex)
    ensures
        index_buckets(r) == no_buckets(),
{
    HashIndex { buckets: hashbrown::HashMap::new() }
}

/// `HashMap::get` of the crate `hashbrown`, and a copy of what it finds:
/// the places under the hash, or none.
#[verifier::external_body]
pub(crate) fn index_bucket(ix: &HashIndex, h: u64) -> (r: Vec<usize>)
    ensures
        r@ == bucket_of(index_buckets(*ix), h),
{
    ix.buckets.get(&h).cloned().unwrap_or_default()
}

/// `HashMap::entry` and `Entry::or_default` of the crate `hashbrown`, and
/// a push onto the vector that they give: adds a place under the hash,
/// after the places that are there.
#[verifier::external_body]
pub(crate) fn index_add(ix: &mut HashIndex, h: u64, place: usize)
    ensures
        index_buckets(*final(ix)) == index_buckets(*old(ix)).insert(
            h,
            bucket_of(index_buckets(*old(ix)), h).push(place),
        ),
{
    ix.buckets.entry(h).or_default().push(place);
}

/// Whether the buckets are an index of the list: every place of the list
/// stands under the hash of its document, and every place of a bucket is a
/// place of the list.
pub open spec fn indexes(buckets: Map<u64, Seq<usize>>, list: Seq<Json>) -> bool {
    &&& list.len() <= usize::MAX
    &&& forall|i: int|
        0 <= i < list.len() ==> bucket_of(buckets, content_hash(#[trigger] list[i])).contains(
            i as usize,
        )
    &&& forall|h: u64, k: int|
        0 <= k < bucket_of(buckets, h).len() ==> (#[trigger] bucket_of(buckets, h)[k])
            < list.len()
}

/// Adding the place of a document that is put at the end of a list keeps
/// an index of the list.
pub proof fn lemma_index_push(buckets: Map<u64, Seq<usize>>, list: Seq<Json>, v: Json)
    requires
        indexes(buckets, list),
        list.len() < usize::MAX,
    ensures
        indexes(
            buckets.insert(
                content_hash(v),
                bucket_of(buckets, content_hash(v)).push(list.len() as usize),
            ),
            list.push(v),
        ),
{
    let h = content_hash(v);
    let old_bucket = bucket_of(buckets, h);
    let new_bucket = old_bucket.push(list.len() as usize);
    let more = buckets.insert(h, new_bucket);
    let longer = list.push(v);
    assert(bucket_of(more, h) == new_bucket);
    assert forall|i: int| 0 <= i < longer.len() implies bucket_of(
        more,
        content_hash(#[trigger] longer[i]),
    ).contains(i as usize) by {
        if i < list.len() {
            assert(longer[i] == list[i]);
            let g = content_hash(list[i]);
            assert(bucket_of(buckets, g).contains(i as usize));
            let k = choose|k: int|
                0 <= k < bucket_of(buckets, g).len() && bucket_of(buckets, g)[k] == i as usize;
            if g == h {
                assert(new_bucket[k] == i as usize);
            } else {
                assert(bucket_of(more, g) == bucket_of(buckets, g));
            }
        } else {
            assert(longer[i] == v);
            assert(new_bucket[old_bucket.len() as int] == i as usize);
        }
    }
    assert forall|g: u64, k: int| 0 <= k < bucket_of(more, g).len() implies (#[trigger] bucket_of(
        more,
        g,
    )[k]) < longer.len() by {
        if g == h {
            if k < old_bucket.len() {
                assert(new_bucket[k] == bucket_of(buckets, g)[k]);
            }
        } else {
            assert(bucket_of(more, g) == bucket_of(buckets, g));
        }
    }
}

/// An index of the list without documents.
pub fn empty_index() -> (r: HashIndex)
    ensures
        indexes(index_buckets(r), Seq::<Json>::empty()),
{
    index_new()
}

/// An index of a list of documents.
pub fn index_of(list: &Vec<Value>) -> (r: HashIndex)
    ensures
        indexes(index_buckets(r), array_model(list@)),
{
    let mut ix = index_new();
    let ghost model = array_model(list@);
    let mut i: usize = 0;
    assert(model.take(0) =~= Seq::<Json>::empty());
    assert(indexes(index_buckets(ix), model.take(0)));
    while i < list.len()
        invariant
            i <= list.len(),
            model == array_model(list@),
            indexes(index_buckets(ix), model.take(i as int)),
        decreases list.len() - i,
    {
        proof {
            lemma_index_push(index_buckets(ix), model.take(i as int), model[i as int]);
            assert(model.take(i as int).push(model[i as int]) =~= model.take(i + 1));
        }
        index_add(&mut ix, compute_value_hash_fast(&list[i]), i);
        i += 1;
    }
    assert(model.take(list.len() as int) =~= model);
    ix
}

/// Whether the list holds a document, by its index.
pub fn indexed_contains(list: &Vec<Value>, ix: &HashIndex, v: &Value) -> (r: bool)
    requires
        indexes(index_buckets(*ix), array_model(list@)),
    ensures
        r == array_model(list@).contains(v@),
{
    let ghost model = array_model(list@);
    let h = compute_value_hash_fast(v);
    let bucket = index_bucket(ix, h);
    let mut k: usize = 0;
    while k < bucket.len()
        invariant
            k <= bucket.len(),
            model == array_model(list@),
            bucket@ == bucket_of(index_buckets(*ix), h),
            indexes(index_buckets(*ix), model),
            forall|j: int| 0 <= j < k ==> model[bucket[j] as int] != v@,
        decreases bucket.len() - k,
    {
        let place = bucket[k];
        assert(bucket@[k as int] == bucket_of(index_buckets(*ix), h)[k as int]);
        if same_model(&list[place], v) {
            assert(model[place as int] == v@);
            return true;
        }
        k += 1;
    }
    proof {
        if model.contains(v@) {
            let i = choose|i: int| 0 <= i < model.len() && model[i] == v@;
            let found = bucket_of(index_buckets(*ix), content_hash(model[i]));
            assert(found.contains(i as usize));
            let j = choose|j: int| 0 <= j < found.len() && found[j] == i as usize;
            assert(model[bucket[j] as int] == v@);
        }
    }
    false
}

/// Puts a document at the end of a list and its place into the index of
/// the list.
pub fn push_indexed(list: &mut Vec<Value>, ix: &mut HashIndex, v: Value)
    requires
        indexes(index_buckets(*old(ix)), array_model(old(list)@)),
    ensures
        array_model(final(list)@) == array_model(old(list)@).push(v@),
        indexes(index_buckets(*final(ix)), array_model(final(list)@)),
{
    let ghost before = array_model(list@);
    let h = compute_value_hash_fast(&v);
    let place = list.len();
    list.push(v);
    let count = list.len();
    proof {
        assert(array_model(list@) =~= before.push(v@));
        assert(count == before.len() + 1);
        lemma_index_push(index_buckets(*ix), before, v@);
    }
    index_add(ix, h, place);
}

} // verus!
