//! The list of the structural hashes of the items of an array.

use crate::hash::{compute_value_hash_fast, content_hash, hashes_of};
use crate::value::{array_model, Value};
use vstd::prelude::*;

verus! {

/// A list of hashes, held as a `SmallVec` of the crate `smallvec` that
/// keeps up to 32 of them in line.
#[verifier::external_body]
pub struct HashList {
    items: smallvec::SmallVec<[u64; 32]>,
}

/// The hashes that the list holds, in order.
pub uninterp spec fn hashes_in(l: HashList) -> Seq<u64>;

/// `SmallVec::new` of the crate `smallvec`: a list without items.
#[verifier::external_body]
pub(crate) fn hash_list_new() -> (r: HashList)
    ensures
        hashes_in(r) == Seq::<u64>::empty(),
{
    HashList { items: smallvec::SmallVec::new() }
}

/// `SmallVec::push` of the crate `smallvec`: appends one item.
#[verifier::external_body]
pub(crate) fn hash_list_push(l: &mut HashList, h: u64)
    ensures
        hashes_in(*final(l)) == hashes_in(*old(l)).push(h),
{
    l.items.push(h)
}

/// `SmallVec::len` of the crate `smallvec`: the number of items.
#[verifier::external_body]
pub(crate) fn hash_list_len(l: &HashList) -> (r: usize)
    ensures
        r == hashes_in(*l).len(),
{
    l.items.len()
}

/// Indexing a `SmallVec` of the crate `smallvec`: the item at place `i`.
/// It panics for a place outside the list, which the precondition leaves
/// out.
#[verifier::external_body]
pub(crate) fn hash_list_get(l: &HashList, i: usize) -> (r: u64)
    requires
        i < hashes_in(*l).len(),
    ensures
        r == hashes_in(*l)[i as int],
{
    l.items[i]
}

/// The list of the given hashes.
pub fn hash_list_of(hashes: &Vec<u64>) -> (r: HashList)
    ensures
        hashes_in(r) == hashes@,
{
    let mut out = hash_list_new();
    let mut i: usize = 0;
    while i < hashes.len()
        invariant
            i <= hashes.len(),
            hashes_in(out) == hashes@.take(i as int),
        decreases hashes.len() - i,
    {
        hash_list_push(&mut out, hashes[i]);
        assert(hashes@.take(i as int).push(hashes@[i as int]) =~= hashes@.take(i + 1));
        i += 1;
    }
    assert(hashes@.take(hashes.len() as int) =~= hashes@);
    out
}

/// The hashes of a list, as a vector.
pub fn hash_list_to_vec(list: &HashList) -> (r: Vec<u64>)
    ensures
        r@ == hashes_in(*list),
{
    let n = hash_list_len(list);
    let mut out: Vec<u64> = Vec::new();
    let mut i: usize = 0;
    while i < n
        invariant
            i <= n,
            n == hashes_in(*list).len(),
            out@ == hashes_in(*list).take(i as int),
        decreases n - i,
    {
        out.push(hash_list_get(list, i));
        assert(out@ =~= hashes_in(*list).take(i + 1));
        i += 1;
    }
    assert(hashes_in(*list).take(n as int) =~= hashes_in(*list));
    out
}

/// The structural hashes of the items of an array, in order.
pub fn build_value_hash_map(arr: &Vec<Value>) -> (r: HashList)
    ensures
        hashes_in(r) == hashes_of(array_model(arr@)),
{
    let mut out = hash_list_new();
    let mut i: usize = 0;
    while i < arr.len()
        invariant
            i <= arr.len(),
            hashes_in(out).len() == i,
            forall|j: int| 0 <= j < i ==> #[trigger] hashes_in(out)[j] == content_hash(arr[j]@),
        decreases arr.len() - i,
    {
        hash_list_push(&mut out, compute_value_hash_fast(&arr[i]));
        i += 1;
    }
    assert(hashes_in(out) =~= hashes_of(array_model(arr@)));
    out
}

} // verus!
