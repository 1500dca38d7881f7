//! What a structural delta holds, key by key and place by place.

use crate::delta::{addition, deletion, index_key, insertion_key};
use crate::diff::{array_delta_simple, delta, longer, object_delta};
use crate::options::DiffOptions;
use crate::text::{
    decimal, lemma_parse_decimal_of_decimal, lemma_text_lt_asymmetric, lemma_text_lt_irreflexive,
    lemma_text_lt_total,
    lemma_text_lt_transitive, text_lt,
};
use crate::value::{
    insert_entry, key_index, key_index_from, keys_sorted, lemma_key_index_from,
    lemma_lookup_insert_entry, lookup, Entries, Json,
};
use vstd::prelude::*;

verus! {

/// What a delta holds for one key or place, given the old and the new
/// value there: nothing where both are missing or equal, the delta of the
/// two where both are there, a deletion of the old one alone, an addition
/// of the new one alone.
pub open spec fn entry_delta(old: Option<Json>, new: Option<Json>, o: DiffOptions) -> Option<Json> {
    match (old, new) {
        (Some(a), Some(b)) => if a == b {
            None
        } else {
            Some(delta(a, b, o))
        },
        (Some(a), None) => Some(deletion(a)),
        (None, Some(b)) => Some(addition(b)),
        (None, None) => None,
    }
}

/// The value under a key among the entries from position `from` on.
pub open spec fn value_from(entries: Entries, key: Seq<char>, from: int) -> Option<Json> {
    match key_index_from(entries, key, from) {
        Some(i) => Some(entries[i].1),
        None => None,
    }
}

/// The position of a key in entries that begin with one more entry.
pub proof fn lemma_key_index_cons(head: (Seq<char>, Json), rest: Entries, key: Seq<char>, from: int)
    requires
        0 <= from,
    ensures
        key_index_from(seq![head] + rest, key, from + 1) == (match key_index_from(rest, key, from) {
            Some(i) => Some(i + 1),
            None => None,
        }),
    decreases rest.len() - from,
{
    let all = seq![head] + rest;
    if from < rest.len() {
        assert(all[from + 1] == rest[from]);
        if rest[from].0 != key {
            lemma_key_index_cons(head, rest, key, from + 1);
        }
    }
}

/// What entries that begin with one more entry hold under a key.
pub proof fn lemma_lookup_cons(head: (Seq<char>, Json), rest: Entries, key: Seq<char>)
    ensures
        lookup(seq![head] + rest, key) == if head.0 == key {
            Some(head.1)
        } else {
            lookup(rest, key)
        },
{
    let all = seq![head] + rest;
    assert(all[0] == head);
    lemma_key_index_cons(head, rest, key, 0);
    lemma_key_index_from(rest, key, 0);
    match key_index_from(rest, key, 0) {
        Some(i) => {
            assert(all[i + 1] == rest[i]);
        },
        None => {},
    }
}

/// Among entries in ascending key order, no entry after position `i` has
/// the key of the entry at `i`, nor a key before it.
pub proof fn lemma_no_later_key(entries: Entries, i: int, key: Seq<char>)
    requires
        keys_sorted(entries),
        0 <= i < entries.len(),
        key == entries[i].0 || text_lt(key, entries[i].0),
    ensures
        value_from(entries, key, i + 1) is None,
        text_lt(key, entries[i].0) ==> value_from(entries, key, i) is None,
{
    lemma_key_index_from(entries, key, i + 1);
    lemma_key_index_from(entries, key, i);
    lemma_text_lt_irreflexive(key);
    match key_index_from(entries, key, i + 1) {
        Some(x) => {
            assert(text_lt(entries[i].0, entries[x].0));
            if text_lt(key, entries[i].0) {
                lemma_text_lt_transitive(key, entries[i].0, entries[x].0);
            }
        },
        None => {},
    }
}

/// What the delta of two objects, from the entries at `i` and `j` on,
/// holds under a key.
pub proof fn lemma_object_delta_lookup(
    a: Entries,
    b: Entries,
    i: int,
    j: int,
    o: DiffOptions,
    key: Seq<char>,
)
    requires
        keys_sorted(a),
        keys_sorted(b),
        0 <= i <= a.len(),
        0 <= j <= b.len(),
    ensures
        lookup(object_delta(a, b, i, j, o), key) == entry_delta(
            value_from(a, key, i),
            value_from(b, key, j),
            o,
        ),
    decreases (a.len() - i) + (b.len() - j),
{
    if i >= a.len() && j >= b.len() {
    } else if j >= b.len() || (i < a.len() && text_lt(a[i].0, b[j].0)) {
        let head = (a[i].0, deletion(a[i].1));
        lemma_lookup_cons(head, object_delta(a, b, i + 1, j, o), key);
        lemma_object_delta_lookup(a, b, i + 1, j, o, key);
        if key == a[i].0 {
            if j < b.len() {
                lemma_no_later_key(b, j, key);
            }
        }
    } else if i >= a.len() || text_lt(b[j].0, a[i].0) {
        let head = (b[j].0, addition(b[j].1));
        lemma_lookup_cons(head, object_delta(a, b, i, j + 1, o), key);
        lemma_object_delta_lookup(a, b, i, j + 1, o, key);
        if key == b[j].0 {
            if i < a.len() {
                lemma_no_later_key(a, i, key);
            }
        }
    } else {
        lemma_text_lt_total(a[i].0, b[j].0);
        lemma_object_delta_lookup(a, b, i + 1, j + 1, o, key);
        if key == a[i].0 {
            lemma_no_later_key(a, i, key);
            lemma_no_later_key(b, j, key);
        }
        if a[i].1 != b[j].1 {
            let head = (a[i].0, delta(a[i].1, b[j].1, o));
            lemma_lookup_cons(head, object_delta(a, b, i + 1, j + 1, o), key);
        }
    }
}

/// The delta of two objects, key by key: under every key it holds the
/// deletion of a value of the old object alone, the addition of a value of
/// the new object alone, the delta of two different values, and nothing
/// for a key with equal values or of neither object.
pub proof fn lemma_object_delta_by_key(a: Entries, b: Entries, o: DiffOptions, key: Seq<char>)
    requires
        keys_sorted(a),
        keys_sorted(b),
    ensures
        lookup(object_delta(a, b, 0, 0, o), key) == entry_delta(lookup(a, key), lookup(b, key), o),
{
    lemma_object_delta_lookup(a, b, 0, 0, o, key);
}

/// The item at a place of an array, where it has one.
pub open spec fn item_at(items: Seq<Json>, i: nat) -> Option<Json> {
    if i < items.len() {
        Some(items[i as int])
    } else {
        None
    }
}

/// Two places with one key are one place.
pub proof fn lemma_index_key_injective(i: nat, j: nat)
    requires
        index_key(i) == index_key(j),
    ensures
        i == j,
{
    lemma_parse_decimal_of_decimal(i);
    lemma_parse_decimal_of_decimal(j);
    assert(index_key(i).skip(1) =~= decimal(i));
    assert(index_key(j).skip(1) =~= decimal(j));
}

/// Two places with one key for an addition are one place.
pub proof fn lemma_insertion_key_injective(i: nat, j: nat)
    requires
        insertion_key(i) == insertion_key(j),
    ensures
        i == j,
{
    lemma_parse_decimal_of_decimal(i);
    lemma_parse_decimal_of_decimal(j);
}

/// The key of a place of the old array is not the key of an addition.
pub proof fn lemma_keys_apart(i: nat, j: nat)
    ensures
        index_key(i) != insertion_key(j),
{
    crate::text::lemma_decimal_digits(j);
    assert(crate::text::is_digit(decimal(j)[0]));
    assert(index_key(i)[0] == '_');
}

/// What the delta of two arrays holds under the key of a place of the old
/// array: the deletion of an item that the new array has no place for,
/// the delta of two different items, and nothing else.
pub open spec fn old_place_delta(a: Seq<Json>, b: Seq<Json>, o: DiffOptions, i: nat) -> Option<Json> {
    if i < a.len() {
        entry_delta(Some(a[i as int]), item_at(b, i), o)
    } else {
        None
    }
}

/// What the delta of two arrays holds under the key of an addition at a
/// place of the new array: the addition of an item beyond the old array,
/// and nothing else.
pub open spec fn new_place_addition(a: Seq<Json>, b: Seq<Json>, i: nat) -> Option<Json> {
    if a.len() <= i < b.len() {
        Some(addition(b[i as int]))
    } else {
        None
    }
}

/// What the delta of two arrays, from place `n` on and added to `acc`,
/// holds under the keys of a place.
pub proof fn lemma_array_delta_lookup(
    a: Seq<Json>,
    b: Seq<Json>,
    n: nat,
    o: DiffOptions,
    acc: Entries,
    i: nat,
)
    requires
        lookup(acc, index_key(i)) == if i < n {
            old_place_delta(a, b, o, i)
        } else {
            None
        },
        lookup(acc, insertion_key(i)) == if i < n {
            new_place_addition(a, b, i)
        } else {
            None
        },
    ensures
        lookup(array_delta_simple(a, b, n as int, o, acc), index_key(i)) == old_place_delta(
            a,
            b,
            o,
            i,
        ),
        lookup(array_delta_simple(a, b, n as int, o, acc), insertion_key(i)) == new_place_addition(
            a,
            b,
            i,
        ),
    decreases longer(a.len(), b.len()) - n,
{
    if n < longer(a.len(), b.len()) {
        let key = index_key(n);
        let fresh = insertion_key(n);
        if key == index_key(i) {
            lemma_index_key_injective(n, i);
        }
        if fresh == insertion_key(i) {
            lemma_insertion_key_injective(n, i);
        }
        lemma_keys_apart(n, i);
        lemma_keys_apart(i, n);
        if n < a.len() && n < b.len() {
            if a[n as int] == b[n as int] {
                lemma_array_delta_lookup(a, b, n + 1, o, acc, i);
            } else {
                let d = delta(a[n as int], b[n as int], o);
                lemma_lookup_insert_entry(acc, key, d, index_key(i));
                lemma_lookup_insert_entry(acc, key, d, insertion_key(i));
                lemma_array_delta_lookup(a, b, n + 1, o, insert_entry(acc, key, d), i);
            }
        } else if n < a.len() {
            let d = deletion(a[n as int]);
            lemma_lookup_insert_entry(acc, key, d, index_key(i));
            lemma_lookup_insert_entry(acc, key, d, insertion_key(i));
            lemma_array_delta_lookup(a, b, n + 1, o, insert_entry(acc, key, d), i);
        } else {
            let d = addition(b[n as int]);
            lemma_lookup_insert_entry(acc, fresh, d, index_key(i));
            lemma_lookup_insert_entry(acc, fresh, d, insertion_key(i));
            lemma_array_delta_lookup(a, b, n + 1, o, insert_entry(acc, fresh, d), i);
        }
    }
}

/// The delta of two arrays compared place by place. Under the key of
/// every place of the old array it holds the deletion of an item that the
/// new array has no place for, the delta of two different items, and
/// nothing for a place with equal items. Under the key of an addition it
/// holds the addition of an item of the new array beyond the old one.
pub proof fn lemma_array_delta_by_place(a: Seq<Json>, b: Seq<Json>, o: DiffOptions, i: nat)
    ensures
        lookup(array_delta_simple(a, b, 0, o, Seq::empty()), index_key(i)) == old_place_delta(
            a,
            b,
            o,
            i,
        ),
        lookup(array_delta_simple(a, b, 0, o, Seq::empty()), insertion_key(i))
            == new_place_addition(a, b, i),
{
    let none = Seq::<(Seq<char>, Json)>::empty();
    assert(key_index(none, index_key(i)) is None);
    assert(key_index(none, insertion_key(i)) is None);
    lemma_array_delta_lookup(a, b, 0, o, none, i);
}

/// The first entry of entries in key order is the one that its key finds.
pub proof fn lemma_lookup_first(x: Entries)
    requires
        x.len() > 0,
    ensures
        lookup(x, x[0].0) == Some(x[0].1),
{
    lemma_key_index_from(x, x[0].0, 0);
}

/// A key that finds something among entries stands at one of them.
pub proof fn lemma_lookup_found(x: Entries, key: Seq<char>)
    requires
        lookup(x, key) is Some,
    ensures
        exists|i: int| 0 <= i < x.len() && (#[trigger] x[i]).0 == key && x[i].1 == lookup(x, key)->Some_0,
{
    lemma_key_index_from(x, key, 0);
    let i = key_index(x, key)->Some_0;
    assert(0 <= i < x.len() && x[i].0 == key && x[i].1 == lookup(x, key)->Some_0);
}

/// Two lists of entries in key order that hold the same under every key
/// are one list.
pub proof fn lemma_sorted_entries_equal(x: Entries, y: Entries)
    requires
        keys_sorted(x),
        keys_sorted(y),
        forall|k: Seq<char>| lookup(x, k) == lookup(y, k),
    ensures
        x == y,
    decreases x.len(),
{
    if x.len() == 0 {
        if y.len() > 0 {
            lemma_lookup_first(y);
            lemma_key_index_from(x, y[0].0, 0);
        }
        assert(x =~= y);
    } else {
        let k0 = x[0].0;
        lemma_lookup_first(x);
        assert(lookup(y, k0) == Some(x[0].1));
        lemma_lookup_found(y, k0);
        let j = choose|j: int| 0 <= j < y.len() && (#[trigger] y[j]).0 == k0 && y[j].1 == x[0].1;
        if j > 0 {
            lemma_lookup_first(y);
            assert(lookup(x, y[0].0) is Some);
            lemma_lookup_found(x, y[0].0);
            let i = choose|i: int| 0 <= i < x.len() && (#[trigger] x[i]).0 == y[0].0;
            assert(text_lt(y[0].0, y[j].0));
            if i > 0 {
                assert(text_lt(x[0].0, x[i].0));
                lemma_text_lt_asymmetric(x[0].0, x[i].0);
            } else {
                lemma_text_lt_irreflexive(k0);
            }
        }
        assert(y[0] == x[0]);
        let xs = x.skip(1);
        let ys = y.skip(1);
        assert(x =~= seq![x[0]] + xs);
        assert(y =~= seq![y[0]] + ys);
        assert forall|a: int, b: int| 0 <= a < b < xs.len() implies text_lt(
            (#[trigger] xs[a]).0,
            (#[trigger] xs[b]).0,
        ) by {
            assert(xs[a] == x[a + 1] && xs[b] == x[b + 1]);
        }
        assert forall|a: int, b: int| 0 <= a < b < ys.len() implies text_lt(
            (#[trigger] ys[a]).0,
            (#[trigger] ys[b]).0,
        ) by {
            assert(ys[a] == y[a + 1] && ys[b] == y[b + 1]);
        }
        assert forall|k: Seq<char>| lookup(xs, k) == lookup(ys, k) by {
            lemma_lookup_cons(x[0], xs, k);
            lemma_lookup_cons(y[0], ys, k);
            if k == k0 {
                lemma_key_index_from(xs, k, 0);
                lemma_key_index_from(ys, k, 0);
                lemma_text_lt_irreflexive(k0);
                if key_index(xs, k) is Some {
                    let i = key_index(xs, k)->Some_0;
                    assert(xs[i] == x[i + 1]);
                    assert(text_lt(x[0].0, x[i + 1].0));
                }
                if key_index(ys, k) is Some {
                    let i = key_index(ys, k)->Some_0;
                    assert(ys[i] == y[i + 1]);
                    assert(text_lt(y[0].0, y[i + 1].0));
                }
            }
        }
        lemma_sorted_entries_equal(xs, ys);
    }
}

} // verus!
