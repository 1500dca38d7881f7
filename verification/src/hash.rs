//! The structural hash of a document: a 64-bit number that depends on the
//! document alone, so that equal documents have equal hashes.

use crate::value::{array_model, entries_model, Entries, Json, Number, NumberModel, Value};
use vstd::prelude::*;

verus! {

/// The first of the four keys with which the library hashes.
pub const HASH_KEY_0: u64 = 0x243f_6a88_85a3_08d3;

/// The second key.
pub const HASH_KEY_1: u64 = 0x1319_8a2e_0370_7344;

/// The third key.
pub const HASH_KEY_2: u64 = 0xa409_3822_299f_31d0;

/// The fourth key.
pub const HASH_KEY_3: u64 = 0x082e_fa98_ec4e_6c89;

pub const TAG_NULL: u64 = 0;

pub const TAG_BOOL: u64 = 1;

pub const TAG_POS_INT: u64 = 2;

pub const TAG_NEG_INT: u64 = 3;

pub const TAG_FLOAT: u64 = 4;

pub const TAG_STRING: u64 = 5;

pub const TAG_ARRAY: u64 = 6;

pub const TAG_OBJECT: u64 = 7;

pub const TAG_ENTRY: u64 = 8;

/// The hash that the crate `ahash` gives to a sequence of 64-bit words
/// under four keys.
pub uninterp spec fn ahash_of(k0: u64, k1: u64, k2: u64, k3: u64, words: Seq<u64>) -> u64;

/// `RandomState::with_seeds(k0, k1, k2, k3)` of the crate `ahash`, and
/// `hash_one` of that state on the words. States made with the same keys
/// give identical hashers, so the hash depends on the keys and the words
/// alone; the contract gives it its name and claims nothing else of it.
#[verifier::external_body]
pub(crate) fn ahash_seeded(k0: u64, k1: u64, k2: u64, k3: u64, words: &Vec<u64>) -> (r: u64)
    ensures
        r == ahash_of(k0, k1, k2, k3, words@),
{
    ahash::RandomState::with_seeds(k0, k1, k2, k3).hash_one(words)
}

/// The hash of a sequence of words under the keys of the library.
pub open spec fn hash_words(words: Seq<u64>) -> u64 {
    ahash_of(HASH_KEY_0, HASH_KEY_1, HASH_KEY_2, HASH_KEY_3, words)
}

/// The hash of a sequence of words under the keys of the library.
pub fn hash_of_words(words: &Vec<u64>) -> (r: u64)
    ensures
        r == hash_words(words@),
{
    ahash_seeded(HASH_KEY_0, HASH_KEY_1, HASH_KEY_2, HASH_KEY_3, words)
}

/// The scalar values of a text as words.
pub open spec fn text_words(s: Seq<char>) -> Seq<u64> {
    Seq::new(s.len(), |i: int| s[i] as u64)
}

/// The hash of a text: of the tag of strings and its scalar values.
pub open spec fn hash_text(s: Seq<char>) -> u64 {
    hash_words(seq![TAG_STRING] + text_words(s))
}

/// The hash of one entry of an object: of the tag of entries, the hash of
/// the value, and the scalar values of the key.
pub open spec fn entry_hash(key: Seq<char>, value_hash: u64) -> u64 {
    hash_words(seq![TAG_ENTRY, value_hash] + text_words(key))
}

/// The words of a document: a tag for its kind, then what it holds. An
/// array holds its length and the hashes of its items in order; an object
/// holds its length and the sum of the hashes of its entries, which does
/// not depend on their order.
pub open spec fn node_words(v: Json) -> Seq<u64>
    decreases v, 1nat,
{
    match v {
        Json::Null => seq![TAG_NULL],
        Json::Bool(b) => seq![TAG_BOOL, if b { 1u64 } else { 0u64 }],
        Json::Number(NumberModel::PosInt(n)) => seq![TAG_POS_INT, n],
        Json::Number(NumberModel::NegInt(n)) => seq![TAG_NEG_INT, n as u64],
        Json::Number(NumberModel::Float(t)) => seq![TAG_FLOAT] + text_words(t),
        Json::Str(s) => seq![TAG_STRING] + text_words(s),
        Json::Array(items) => seq![TAG_ARRAY, items.len() as u64] + item_hashes_from(items, 0),
        Json::Object(entries) => seq![
            TAG_OBJECT,
            entries.len() as u64,
            entries_sum_from(entries, 0, 0),
        ],
    }
}

/// The structural hash of a document: the hash of its words.
pub open spec fn content_hash(v: Json) -> u64
    decreases v, 2nat,
{
    hash_words(node_words(v))
}

/// The hashes of the items from position `i` on, in order.
pub open spec fn item_hashes_from(items: Seq<Json>, i: int) -> Seq<u64>
    decreases items, items.len() - i,
{
    if i < 0 || i >= items.len() {
        Seq::empty()
    } else {
        seq![content_hash(items[i])] + item_hashes_from(items, i + 1)
    }
}

/// The sum `acc` with the hashes of the entries from position `i` added.
pub open spec fn entries_sum_from(entries: Entries, i: int, acc: u64) -> u64
    decreases entries, entries.len() - i,
{
    if i < 0 || i >= entries.len() {
        acc
    } else {
        entries_sum_from(
            entries,
            i + 1,
            acc.wrapping_add(entry_hash(entries[i].0, content_hash(entries[i].1))),
        )
    }
}

/// The structural hashes of the items of an array, in order.
pub open spec fn hashes_of(items: Seq<Json>) -> Seq<u64> {
    Seq::new(items.len(), |i: int| content_hash(items[i]))
}

/// Three numbers add up to the same whichever of the last two is added
/// first.
pub proof fn lemma_wrapping_add_swap(a: u64, b: u64, c: u64)
    ensures
        a.wrapping_add(b).wrapping_add(c) == a.wrapping_add(c).wrapping_add(b),
{
}

/// A number added before the entries are summed up is a number added
/// after.
pub proof fn lemma_entries_sum_shift(entries: Entries, i: int, acc: u64, x: u64)
    requires
        0 <= i,
    ensures
        entries_sum_from(entries, i, acc.wrapping_add(x)) == entries_sum_from(
            entries,
            i,
            acc,
        ).wrapping_add(x),
    decreases entries.len() - i,
{
    if i < entries.len() {
        let h = entry_hash(entries[i].0, content_hash(entries[i].1));
        lemma_wrapping_add_swap(acc, x, h);
        lemma_entries_sum_shift(entries, i + 1, acc.wrapping_add(h), x);
    }
}

/// After the place at which an entry was put in, the sum runs over the
/// entries of the object before, one position later.
pub proof fn lemma_entries_sum_after(
    entries: Entries,
    p: int,
    entry: (Seq<char>, Json),
    i: int,
    acc: u64,
)
    requires
        0 <= p <= i <= entries.len(),
    ensures
        entries_sum_from(entries.insert(p, entry), i + 1, acc) == entries_sum_from(entries, i, acc),
    decreases entries.len() - i,
{
    let more = entries.insert(p, entry);
    if i < entries.len() {
        assert(more[i + 1] == entries[i]);
        lemma_entries_sum_after(
            entries,
            p,
            entry,
            i + 1,
            acc.wrapping_add(entry_hash(entries[i].0, content_hash(entries[i].1))),
        );
    }
}

/// The sum over an object with one more entry is the sum over the object
/// with the hash of that entry, wherever the entry stands.
pub proof fn lemma_entries_sum_insert(
    entries: Entries,
    p: int,
    entry: (Seq<char>, Json),
    i: int,
    acc: u64,
)
    requires
        0 <= i <= p <= entries.len(),
    ensures
        entries_sum_from(entries.insert(p, entry), i, acc) == entries_sum_from(
            entries,
            i,
            acc,
        ).wrapping_add(entry_hash(entry.0, content_hash(entry.1))),
    decreases p - i,
{
    let more = entries.insert(p, entry);
    let h = entry_hash(entry.0, content_hash(entry.1));
    if i < p {
        assert(more[i] == entries[i]);
        lemma_entries_sum_insert(
            entries,
            p,
            entry,
            i + 1,
            acc.wrapping_add(entry_hash(entries[i].0, content_hash(entries[i].1))),
        );
    } else {
        assert(more[p] == entry);
        lemma_entries_sum_after(entries, p, entry, p, acc.wrapping_add(h));
        lemma_entries_sum_shift(entries, p, acc, h);
    }
}

/// The order of the entries of an object does not matter to its hash: an
/// entry can stand at any place.
pub proof fn lemma_object_hash_ignores_order(entries: Entries, p: int, q: int, entry: (Seq<char>, Json))
    requires
        0 <= p <= entries.len(),
        0 <= q <= entries.len(),
    ensures
        content_hash(Json::Object(entries.insert(p, entry))) == content_hash(
            Json::Object(entries.insert(q, entry)),
        ),
{
    lemma_entries_sum_insert(entries, p, entry, 0, 0);
    lemma_entries_sum_insert(entries, q, entry, 0, 0);
}

/// Appends the scalar values of a text as words.
pub fn push_text_words(words: &mut Vec<u64>, s: &str)
    ensures
        final(words)@ == old(words)@ + text_words(s@),
{
    for c in it: s.chars()
        invariant
            it.seq() == s@,
            words@ == old(words)@ + text_words(s@).take(it.index@),
    {
        let ghost before = words@;
        words.push(c as u64);
        assert(words@ =~= old(words)@ + text_words(s@).take(it.index@ + 1));
    }
    assert(text_words(s@).take(s@.len() as int) =~= text_words(s@));
}

/// The hash of a text.
pub fn hash_str(s: &str) -> (r: u64)
    ensures
        r == hash_text(s@),
{
    let mut words: Vec<u64> = Vec::new();
    words.push(TAG_STRING);
    assert(words@ =~= seq![TAG_STRING]);
    push_text_words(&mut words, s);
    hash_of_words(&words)
}

/// The hash of one entry of an object.
pub fn hash_entry(key: &str, value_hash: u64) -> (r: u64)
    ensures
        r == entry_hash(key@, value_hash),
{
    let mut words: Vec<u64> = Vec::new();
    words.push(TAG_ENTRY);
    words.push(value_hash);
    assert(words@ =~= seq![TAG_ENTRY, value_hash]);
    push_text_words(&mut words, key);
    hash_of_words(&words)
}

/// The structural hash of a document.
#[verifier::loop_isolation(false)]
pub fn compute_value_hash_fast(value: &Value) -> (r: u64)
    ensures
        r == content_hash(value@),
    decreases value,
{
    let mut words: Vec<u64> = Vec::new();
    match value {
        Value::Null => {
            words.push(TAG_NULL);
            assert(words@ =~= node_words(value@));
        },
        Value::Bool(b) => {
            words.push(TAG_BOOL);
            words.push(if *b { 1 } else { 0 });
            assert(words@ =~= node_words(value@));
        },
        Value::Number(Number::PosInt(n)) => {
            words.push(TAG_POS_INT);
            words.push(*n);
            assert(words@ =~= node_words(value@));
        },
        Value::Number(Number::NegInt(n)) => {
            words.push(TAG_NEG_INT);
            words.push(*n as u64);
            assert(words@ =~= node_words(value@));
        },
        Value::Number(Number::Float(t)) => {
            words.push(TAG_FLOAT);
            assert(words@ =~= seq![TAG_FLOAT]);
            push_text_words(&mut words, t.as_str());
        },
        Value::Str(s) => {
            words.push(TAG_STRING);
            assert(words@ =~= seq![TAG_STRING]);
            push_text_words(&mut words, s.as_str());
        },
        Value::Array(items) => {
            let ghost model = array_model(items@);
            words.push(TAG_ARRAY);
            words.push(items.len() as u64);
            let ghost head = words@;
            assert(head =~= seq![TAG_ARRAY, items.len() as u64]);
            let mut i: usize = 0;
            while i < items.len()
                invariant
                    i <= items.len(),
                    words@ + item_hashes_from(model, i as int) == head + item_hashes_from(model, 0),
                decreases items.len() - i,
            {
                let ghost before = words@;
                let child = compute_value_hash_fast(&items[i]);
                words.push(child);
                proof {
                    let next = item_hashes_from(model, i + 1);
                    assert(words@ =~= before + seq![child]);
                    assert(before + (seq![child] + next) =~= (before + seq![child]) + next);
                }
                i += 1;
            }
            assert(words@ + Seq::<u64>::empty() =~= words@);
        },
        Value::Object(entries) => {
            let ghost model = entries_model(entries@);
            let mut acc: u64 = 0;
            let mut i: usize = 0;
            while i < entries.len()
                invariant
                    i <= entries.len(),
                    entries_sum_from(model, i as int, acc) == entries_sum_from(model, 0, 0),
                decreases entries.len() - i,
            {
                let child = compute_value_hash_fast(&entries[i].1);
                acc = acc.wrapping_add(hash_entry(entries[i].0.as_str(), child));
                i += 1;
            }
            words.push(TAG_OBJECT);
            words.push(entries.len() as u64);
            words.push(acc);
            assert(words@ =~= node_words(value@));
        },
    }
    hash_of_words(&words)
}

} // verus!
