//! The structural diff: the delta that leads from one document to another.

use crate::canonical::{canonical, sorted_json_value};
use crate::delta::{
    addition, change, deletion, diff_text_simd, index_key, insertion_key, make_addition,
    make_change, make_deletion, make_index_key, make_insertion_key, make_move, move_marker,
    myers_edit_script, text_delta_or_change,
};
use crate::delta_laws::entry_delta;
use crate::flags::{bits_of, flag_get, flag_set, flags_new, Flags, MAX_FLAGS};
use crate::hash::{content_hash, hashes_of};
use crate::hash_list::{build_value_hash_map, hash_list_get, hashes_in, HashList};
use crate::key_set::{key_set_of, key_set_union};
use crate::options::DiffOptions;
use crate::text::{text_lt, texts_model};
use crate::value::{
    array_model, entries_model, find_key, insert_entry, key_index, keys_sorted,
    lemma_key_index_from, lemma_lookup_insert_entry, lookup, obj_insert, same_model, wf_json,
    Entries, Json, Value,
};
use vstd::prelude::*;

verus! {

/// Whether two strings are compared character by character: the option is
/// on and both are longer than the threshold, counted in scalar values.
pub open spec fn uses_text_diff(a: Seq<char>, b: Seq<char>, o: DiffOptions) -> bool {
    o.text_diff && a.len() > o.text_diff_threshold && b.len() > o.text_diff_threshold
}

/// The larger of two lengths.
pub open spec fn longer(a: nat, b: nat) -> nat {
    if a >= b {
        a
    } else {
        b
    }
}

/// Whether two arrays are searched for moves: the options ask for it, and
/// neither array has more items than there are flags.
pub open spec fn searches_moves(a: Seq<Json>, b: Seq<Json>, o: DiffOptions) -> bool {
    o.include_moves && a.len() <= MAX_FLAGS && b.len() <= MAX_FLAGS
}

/// The delta from `old` to `new`. Equal documents have the empty delta. Two
/// objects and two arrays are compared part by part, two long strings
/// character by character; any other pair is a change of the whole value.
pub open spec fn delta(old: Json, new: Json, o: DiffOptions) -> Json
    decreases old, 0nat,
{
    if old == new {
        Json::Object(Seq::empty())
    } else {
        match (old, new) {
            (Json::Object(a), Json::Object(b)) => Json::Object(object_delta(a, b, 0, 0, o)),
            (Json::Array(a), Json::Array(b)) => if searches_moves(a, b, o) {
                Json::Object(array_delta_moves(a, b, o))
            } else {
                Json::Object(array_delta_simple(a, b, 0, o, Seq::empty()))
            },
            (Json::Str(a), Json::Str(b)) => if uses_text_diff(a, b, o) {
                text_delta_or_change(a, b, myers_edit_script(a, b))
            } else {
                change(old, new)
            },
            _ => change(old, new),
        }
    }
}

/// The delta of two objects from the entries at `i` and `j` on, both taken
/// in key order: a key of the old object alone is deleted, a key of the
/// new one alone is added, and a key of both has the delta of its two
/// values unless they are equal.
pub open spec fn object_delta(a: Entries, b: Entries, i: int, j: int, o: DiffOptions) -> Entries
    decreases a, (if i < a.len() { a.len() - i } else { 0 }) + (if j < b.len() { b.len() - j } else { 0 }),
{
    if i < 0 || j < 0 || (i >= a.len() && j >= b.len()) {
        Seq::empty()
    } else if j >= b.len() || (i < a.len() && text_lt(a[i].0, b[j].0)) {
        seq![(a[i].0, deletion(a[i].1))] + object_delta(a, b, i + 1, j, o)
    } else if i >= a.len() || text_lt(b[j].0, a[i].0) {
        seq![(b[j].0, addition(b[j].1))] + object_delta(a, b, i, j + 1, o)
    } else if a[i].1 == b[j].1 {
        object_delta(a, b, i + 1, j + 1, o)
    } else {
        seq![(a[i].0, delta(a[i].1, b[j].1, o))] + object_delta(a, b, i + 1, j + 1, o)
    }
}

/// The delta of two arrays compared place by place, from place `i` on,
/// added to `acc`: a place of both has the delta of its two items unless
/// they are equal, a place of the old array alone is deleted, a place of
/// the new one alone is added, under the key of that place of the new
/// array.
pub open spec fn array_delta_simple(a: Seq<Json>, b: Seq<Json>, i: int, o: DiffOptions, acc: Entries) -> Entries
    decreases a, (if i < longer(a.len(), b.len()) { longer(a.len(), b.len()) - i } else { 0 }),
{
    if i < 0 || i >= longer(a.len(), b.len()) {
        acc
    } else if i < a.len() && i < b.len() {
        if a[i] == b[i] {
            array_delta_simple(a, b, i + 1, o, acc)
        } else {
            array_delta_simple(
                a,
                b,
                i + 1,
                o,
                insert_entry(acc, index_key(i as nat), delta(a[i], b[i], o)),
            )
        }
    } else if i < a.len() {
        array_delta_simple(a, b, i + 1, o, insert_entry(acc, index_key(i as nat), deletion(a[i])))
    } else {
        array_delta_simple(a, b, i + 1, o, insert_entry(acc, insertion_key(i as nat), addition(b[i])))
    }
}

/// What the search for moves has found: which places of the old and of the
/// new array are taken, and the move markers so far.
pub struct MovePlan {
    pub used_old: Seq<bool>,
    pub used_new: Seq<bool>,
    pub marks: Entries,
}

/// The plan before the search: no place is taken.
pub open spec fn no_moves(old_len: nat, new_len: nat) -> MovePlan {
    MovePlan {
        used_old: Seq::new(old_len, |i: int| false),
        used_new: Seq::new(new_len, |i: int| false),
        marks: Seq::empty(),
    }
}

/// The first place at or after `from` that is not taken and holds an item
/// equal to `item`, or the number of places.
pub open spec fn first_free_match(items: Seq<Json>, used: Seq<bool>, item: Json, from: int) -> int
    decreases items.len() - from,
{
    if from < 0 || from >= items.len() {
        items.len() as int
    } else if !used[from] && items[from] == item {
        from
    } else {
        first_free_match(items, used, item, from + 1)
    }
}

/// The plan after one more place `j` of the new array: the first free
/// place of the old array with an equal item is taken together with `j`,
/// and marked as a move unless it is `j` itself.
pub open spec fn move_step(a: Seq<Json>, b: Seq<Json>, j: int, plan: MovePlan) -> MovePlan {
    let k = first_free_match(a, plan.used_old, b[j], 0);
    if k < a.len() {
        MovePlan {
            used_old: plan.used_old.update(k, true),
            used_new: plan.used_new.update(j, true),
            marks: if k != j {
                insert_entry(plan.marks, index_key(j as nat), move_marker(k as u64))
            } else {
                plan.marks
            },
        }
    } else {
        plan
    }
}

/// The plan after the places of the new array from `j` on, in order.
pub open spec fn moves_phase(a: Seq<Json>, b: Seq<Json>, j: int, plan: MovePlan) -> MovePlan
    decreases b.len() - j,
{
    if j < 0 || j >= b.len() {
        plan
    } else {
        moves_phase(a, b, j + 1, move_step(a, b, j, plan))
    }
}

/// The delta of two arrays after the search for moves, from place `i` on,
/// added to `acc`: a place free in both has the delta of its two items
/// unless they are equal; else a free place of the old array is deleted;
/// else a free place of the new array is added.
pub open spec fn rest_phase(
    a: Seq<Json>,
    b: Seq<Json>,
    i: int,
    used_old: Seq<bool>,
    used_new: Seq<bool>,
    o: DiffOptions,
    acc: Entries,
) -> Entries
    decreases a, (if i < longer(a.len(), b.len()) { longer(a.len(), b.len()) - i } else { 0 }),
{
    if i < 0 || i >= longer(a.len(), b.len()) {
        acc
    } else if i < a.len() && i < b.len() && !used_old[i] && !used_new[i] {
        if a[i] == b[i] {
            rest_phase(a, b, i + 1, used_old, used_new, o, acc)
        } else {
            rest_phase(
                a,
                b,
                i + 1,
                used_old,
                used_new,
                o,
                insert_entry(acc, index_key(i as nat), delta(a[i], b[i], o)),
            )
        }
    } else if i < a.len() && !used_old[i] {
        rest_phase(
            a,
            b,
            i + 1,
            used_old,
            used_new,
            o,
            insert_entry(acc, index_key(i as nat), deletion(a[i])),
        )
    } else if i < b.len() && !used_new[i] {
        rest_phase(
            a,
            b,
            i + 1,
            used_old,
            used_new,
            o,
            insert_entry(acc, insertion_key(i as nat), addition(b[i])),
        )
    } else {
        rest_phase(a, b, i + 1, used_old, used_new, o, acc)
    }
}

/// The delta of two arrays with the search for moves: an item of the new
/// array that is equal to an item of the old array, at another place, is
/// marked as moved from there; the places that the search leaves free are
/// compared one by one. The hashes of the items only speed the search up:
/// the delta does not depend on them.
pub open spec fn array_delta_moves(a: Seq<Json>, b: Seq<Json>, o: DiffOptions) -> Entries
    decreases a, longer(a.len(), b.len()) + 1,
{
    let plan = moves_phase(a, b, 0, no_moves(a.len(), b.len()));
    rest_phase(a, b, 0, plan.used_old, plan.used_new, o, plan.marks)
}

/// The structural delta from `old` to `new`. Objects count by their keys:
/// the delta is that of the canonical forms of the two documents, which
/// for documents in canonical form are the documents themselves. The delta
/// is in canonical form.
pub fn compute_structural_diff(old: &Value, new: &Value, options: &DiffOptions) -> (r: Value)
    ensures
        r@ == delta(canonical(old@), canonical(new@), *options),
        wf_json(old@) && wf_json(new@) ==> r@ == delta(old@, new@, *options),
        wf_json(r@),
{
    proof {
        if wf_json(old@) && wf_json(new@) {
            crate::canonical::lemma_canonical_of_wf(old@);
            crate::canonical::lemma_canonical_of_wf(new@);
        }
    }
    let a = sorted_json_value(old);
    let b = sorted_json_value(new);
    structural_delta(&a, &b, options)
}

/// The structural delta of two documents in canonical form; it is in
/// canonical form.
pub fn structural_delta(old: &Value, new: &Value, options: &DiffOptions) -> (r: Value)
    requires
        wf_json(old@),
        wf_json(new@),
    ensures
        r@ == delta(old@, new@, *options),
        wf_json(r@),
    decreases old, 0nat,
{
    proof {
        crate::canonical_laws::lemma_delta_wf(old@, new@, *options);
    }
    if same_model(old, new) {
        return Value::empty_object();
    }
    match (old, new) {
        (Value::Object(old_obj), Value::Object(new_obj)) => diff_objects_optimized(
            old_obj,
            new_obj,
            options,
        ),
        (Value::Array(old_arr), Value::Array(new_arr)) => diff_arrays_optimized(
            old_arr,
            new_arr,
            options,
        ),
        (Value::Str(old_str), Value::Str(new_str)) => {
            if options.text_diff && old_str.as_str().unicode_len() > options.text_diff_threshold
                && new_str.as_str().unicode_len() > options.text_diff_threshold {
                diff_text_simd(old_str.as_str(), new_str.as_str())
            } else {
                make_change(old.deep_clone(), new.deep_clone())
            }
        },
        _ => make_change(old.deep_clone(), new.deep_clone()),
    }
}

/// What the delta of two objects holds under a key, as a document to put
/// in, or nothing.
fn diff_entry(
    old_obj: &Vec<(String, Value)>,
    new_obj: &Vec<(String, Value)>,
    key: &str,
    options: &DiffOptions,
) -> (r: Option<Value>)
    requires
        wf_json(Json::Object(entries_model(old_obj@))),
        wf_json(Json::Object(entries_model(new_obj@))),
    ensures
        match r {
            Some(d) => entry_delta(
                lookup(entries_model(old_obj@), key@),
                lookup(entries_model(new_obj@), key@),
                *options,
            ) == Some(d@),
            None => entry_delta(
                lookup(entries_model(old_obj@), key@),
                lookup(entries_model(new_obj@), key@),
                *options,
            ) is None,
        },
    decreases old_obj, 0nat,
{
    let ghost a = entries_model(old_obj@);
    let ghost b = entries_model(new_obj@);
    match (find_key(old_obj, key), find_key(new_obj, key)) {
        (Some(i), Some(j)) => {
            assert(a[i as int].1 == old_obj[i as int].1@);
            assert(b[j as int].1 == new_obj[j as int].1@);
            if same_model(&old_obj[i].1, &new_obj[j].1) {
                None
            } else {
                Some(structural_delta(&old_obj[i].1, &new_obj[j].1, options))
            }
        },
        (Some(i), None) => {
            assert(a[i as int].1 == old_obj[i as int].1@);
            Some(make_deletion(old_obj[i].1.deep_clone()))
        },
        (None, Some(j)) => {
            assert(b[j as int].1 == new_obj[j as int].1@);
            Some(make_addition(new_obj[j].1.deep_clone()))
        },
        (None, None) => None,
    }
}

/// The delta of two objects in canonical form: under every key of one of
/// them it holds the deletion of a value of the old object alone, the
/// addition of a value of the new object alone, or the delta of two
/// different values. The keys are walked as a hash set of them has them;
/// the delta does not depend on that order.
#[verifier::loop_isolation(false)]
pub fn diff_objects_optimized(
    old_obj: &Vec<(String, Value)>,
    new_obj: &Vec<(String, Value)>,
    options: &DiffOptions,
) -> (r: Value)
    requires
        wf_json(Json::Object(entries_model(old_obj@))),
        wf_json(Json::Object(entries_model(new_obj@))),
    ensures
        r@ == Json::Object(
            object_delta(entries_model(old_obj@), entries_model(new_obj@), 0, 0, *options),
        ),
    decreases old_obj, 1nat,
{
    let ghost a = entries_model(old_obj@);
    let ghost b = entries_model(new_obj@);
    let ghost goal = object_delta(a, b, 0, 0, *options);
    let old_keys = key_set_of(old_obj);
    let new_keys = key_set_of(new_obj);
    let keys = key_set_union(&old_keys, &new_keys);
    let ghost walk = texts_model(keys@);
    let mut out: Vec<(String, Value)> = Vec::new();
    assert(entries_model(out@) =~= Seq::empty());
    let mut n: usize = 0;
    assert forall|k: Seq<char>| lookup(entries_model(out@), k) is None by {
        lemma_key_index_from(entries_model(out@), k, 0);
    }
    while n < keys.len()
        invariant
            n <= keys.len(),
            walk == texts_model(keys@),
            keys_sorted(entries_model(out@)),
            forall|k: Seq<char>|
                lookup(entries_model(out@), k) == if walk.take(n as int).contains(k) {
                    entry_delta(lookup(a, k), lookup(b, k), *options)
                } else {
                    None
                },
        decreases keys.len() - n,
    {
        let ghost before = entries_model(out@);
        let key = &keys[n];
        assert(key@ == walk[n as int]);
        let entry = diff_entry(old_obj, new_obj, key.as_str(), options);
        proof {
            assert(walk.take(n + 1) =~= walk.take(n as int).push(key@));
        }
        match entry {
            Some(d) => {
                obj_insert(&mut out, key.clone(), d);
                assert forall|k: Seq<char>|
                    lookup(entries_model(out@), k) == if walk.take(n + 1).contains(k) {
                        entry_delta(lookup(a, k), lookup(b, k), *options)
                    } else {
                        None
                    } by {
                    lemma_lookup_insert_entry(before, key@, d@, k);
                    if k != key@ {
                        if walk.take(n + 1).contains(k) {
                            let x = choose|x: int|
                                0 <= x < walk.take(n + 1).len() && (#[trigger] walk.take(n + 1)[x]) == k;
                            assert(walk.take(n as int)[x] == k);
                        }
                        if walk.take(n as int).contains(k) {
                            let x = choose|x: int|
                                0 <= x < walk.take(n as int).len() && (#[trigger] walk.take(n as int)[x]) == k;
                            assert(walk.take(n + 1)[x] == k);
                        }
                    } else {
                        assert(walk.take(n + 1)[n as int] == k);
                    }
                }
            },
            None => {
                assert forall|k: Seq<char>|
                    lookup(entries_model(out@), k) == if walk.take(n + 1).contains(k) {
                        entry_delta(lookup(a, k), lookup(b, k), *options)
                    } else {
                        None
                    } by {
                    if k != key@ {
                        if walk.take(n + 1).contains(k) {
                            let x = choose|x: int|
                                0 <= x < walk.take(n + 1).len() && (#[trigger] walk.take(n + 1)[x]) == k;
                            assert(walk.take(n as int)[x] == k);
                        }
                        if walk.take(n as int).contains(k) {
                            let x = choose|x: int|
                                0 <= x < walk.take(n as int).len() && (#[trigger] walk.take(n as int)[x]) == k;
                            assert(walk.take(n + 1)[x] == k);
                        }
                    } else {
                        assert(walk.take(n + 1)[n as int] == k);
                        if walk.take(n as int).contains(k) {
                        }
                    }
                }
            },
        }
        n += 1;
    }
    proof {
        assert(walk.take(n as int) =~= walk);
        crate::canonical_laws::lemma_object_delta_wf(a, b, 0, 0, *options);
        assert forall|k: Seq<char>| lookup(entries_model(out@), k) == lookup(goal, k) by {
            crate::delta_laws::lemma_object_delta_by_key(a, b, *options, k);
            if !walk.contains(k) {
                lemma_key_index_from(a, k, 0);
                lemma_key_index_from(b, k, 0);
                if lookup(a, k) is Some {
                    let i = key_index(a, k)->Some_0;
                    assert(a[i].0 == k);
                    assert(crate::key_set::keys_in(old_keys).contains(k));
                }
                if lookup(b, k) is Some {
                    let i = key_index(b, k)->Some_0;
                    assert(b[i].0 == k);
                    assert(crate::key_set::keys_in(new_keys).contains(k));
                }
            }
        }
        crate::delta_laws::lemma_sorted_entries_equal(entries_model(out@), goal);
    }
    Value::Object(out)
}

/// The delta of two arrays: with the search for moves where the options ask
/// for it and the arrays are not too long for it, else place by place.
pub fn diff_arrays_optimized(old_arr: &Vec<Value>, new_arr: &Vec<Value>, options: &DiffOptions) -> (r: Value)
    requires
        wf_json(Json::Array(array_model(old_arr@))),
        wf_json(Json::Array(array_model(new_arr@))),
    ensures
        r@ == if searches_moves(array_model(old_arr@), array_model(new_arr@), *options) {
            Json::Object(array_delta_moves(array_model(old_arr@), array_model(new_arr@), *options))
        } else {
            Json::Object(
                array_delta_simple(array_model(old_arr@), array_model(new_arr@), 0, *options, Seq::empty()),
            )
        },
    decreases old_arr, old_arr.len() + new_arr.len() + 2,
{
    if options.include_moves && old_arr.len() <= MAX_FLAGS && new_arr.len() <= MAX_FLAGS {
        diff_arrays_with_moves_simd(old_arr, new_arr, options)
    } else {
        diff_arrays_simple_simd(old_arr, new_arr, options)
    }
}

/// The delta of two arrays compared place by place.
#[verifier::loop_isolation(false)]
pub fn diff_arrays_simple_simd(old_arr: &Vec<Value>, new_arr: &Vec<Value>, options: &DiffOptions) -> (r: Value)
    requires
        wf_json(Json::Array(array_model(old_arr@))),
        wf_json(Json::Array(array_model(new_arr@))),
    ensures
        r@ == Json::Object(
            array_delta_simple(array_model(old_arr@), array_model(new_arr@), 0, *options, Seq::empty()),
        ),
    decreases old_arr, old_arr.len() + new_arr.len(),
{
    let ghost a = array_model(old_arr@);
    let ghost b = array_model(new_arr@);
    let max_len = if old_arr.len() >= new_arr.len() {
        old_arr.len()
    } else {
        new_arr.len()
    };
    let mut out: Vec<(String, Value)> = Vec::new();
    assert(entries_model(out@) =~= Seq::empty());
    let mut i: usize = 0;
    while i < max_len
        invariant
            i <= max_len,
            max_len == longer(a.len(), b.len()),
            array_delta_simple(a, b, i as int, *options, entries_model(out@)) == array_delta_simple(
                a,
                b,
                0,
                *options,
                Seq::empty(),
            ),
        decreases max_len - i,
    {
        if i < old_arr.len() && i < new_arr.len() {
            if !same_model(&old_arr[i], &new_arr[i]) {
                assert(a[i as int] == old_arr[i as int]@ && b[i as int] == new_arr[i as int]@);
                let d = structural_delta(&old_arr[i], &new_arr[i], options);
                obj_insert(&mut out, make_index_key(i), d);
            }
        } else if i < old_arr.len() {
            obj_insert(&mut out, make_index_key(i), make_deletion(old_arr[i].deep_clone()));
        } else {
            obj_insert(&mut out, make_insertion_key(i), make_addition(new_arr[i].deep_clone()));
        }
        i += 1;
    }
    Value::Object(out)
}

/// The first place of the old array that is not taken and holds an item
/// equal to `item`, or the number of places. An item is compared only
/// where its hash is the hash of `item`.
fn find_free_match(items: &Vec<Value>, hashes: &HashList, used: &Flags, item: &Value, h: u64) -> (r: usize)
    requires
        hashes_in(*hashes) == hashes_of(array_model(items@)),
        bits_of(*used).len() == items.len(),
        h == content_hash(item@),
    ensures
        r == first_free_match(array_model(items@), bits_of(*used), item@, 0),
{
    let ghost a = array_model(items@);
    let n = items.len();
    let mut k: usize = 0;
    while k < n
        invariant
            k <= n,
            n == items.len(),
            a == array_model(items@),
            hashes_in(*hashes) == hashes_of(a),
            bits_of(*used).len() == n,
            h == content_hash(item@),
            first_free_match(a, bits_of(*used), item@, k as int) == first_free_match(
                a,
                bits_of(*used),
                item@,
                0,
            ),
        decreases n - k,
    {
        if !flag_get(used, k) && hash_list_get(hashes, k) == h && same_model(&items[k], item) {
            return k;
        }
        assert(hashes_of(a)[k as int] == content_hash(a[k as int]));
        k += 1;
    }
    k
}

/// The search for moves in two arrays: appends the move markers to `out`
/// and returns the places of the old and of the new array that the search
/// has taken.
fn search_moves(
    old_arr: &Vec<Value>,
    new_arr: &Vec<Value>,
    old_hashes: &HashList,
    new_hashes: &HashList,
    out: &mut Vec<(String, Value)>,
) -> (r: (Flags, Flags))
    requires
        old_arr.len() <= MAX_FLAGS,
        new_arr.len() <= MAX_FLAGS,
        hashes_in(*old_hashes) == hashes_of(array_model(old_arr@)),
        hashes_in(*new_hashes) == hashes_of(array_model(new_arr@)),
        entries_model(old(out)@) == Seq::<(Seq<char>, Json)>::empty(),
    ensures
        (MovePlan {
            used_old: bits_of(r.0),
            used_new: bits_of(r.1),
            marks: entries_model(final(out)@),
        }) == moves_phase(
            array_model(old_arr@),
            array_model(new_arr@),
            0,
            no_moves(old_arr@.len(), new_arr@.len()),
        ),
        bits_of(r.0).len() == old_arr.len(),
        bits_of(r.1).len() == new_arr.len(),
{
    let ghost a = array_model(old_arr@);
    let ghost b = array_model(new_arr@);
    let old_len = old_arr.len();
    let new_len = new_arr.len();
    let mut processed_old = flags_new(old_len);
    let mut processed_new = flags_new(new_len);
    let ghost goal = moves_phase(a, b, 0, no_moves(a.len(), b.len()));
    let mut j: usize = 0;
    while j < new_len
        invariant
            j <= new_len,
            old_len == a.len(),
            new_len == b.len(),
            a == array_model(old_arr@),
            b == array_model(new_arr@),
            hashes_in(*old_hashes) == hashes_of(a),
            hashes_in(*new_hashes) == hashes_of(b),
            bits_of(processed_old).len() == a.len(),
            bits_of(processed_new).len() == b.len(),
            moves_phase(
                a,
                b,
                j as int,
                MovePlan {
                    used_old: bits_of(processed_old),
                    used_new: bits_of(processed_new),
                    marks: entries_model(out@),
                },
            ) == goal,
        decreases new_len - j,
    {
        assert(hashes_of(b)[j as int] == content_hash(b[j as int]));
        let k = find_free_match(
            old_arr,
            old_hashes,
            &processed_old,
            &new_arr[j],
            hash_list_get(new_hashes, j),
        );
        if k < old_len {
            if k != j {
                obj_insert(out, make_index_key(j), make_move(k));
            }
            flag_set(&mut processed_old, k, true);
            flag_set(&mut processed_new, j, true);
        }
        j += 1;
    }
    (processed_old, processed_new)
}

/// What the search for moves finds in two arrays.
#[derive(Debug)]
pub struct MoveSearch {
    /// The move markers, as the entries of an array delta.
    pub marks: Value,
    /// For each place of the old array, whether the search has taken it.
    pub used_old: Vec<bool>,
    /// For each place of the new array, whether the search has taken it.
    pub used_new: Vec<bool>,
}

/// The flags of a vector of flags, as a vector.
fn flags_to_vec(flags: &Flags, n: usize) -> (r: Vec<bool>)
    requires
        bits_of(*flags).len() == n,
    ensures
        r@ == bits_of(*flags),
{
    let mut out: Vec<bool> = Vec::new();
    let mut i: usize = 0;
    while i < n
        invariant
            i <= n,
            bits_of(*flags).len() == n,
            out@ == bits_of(*flags).take(i as int),
        decreases n - i,
    {
        out.push(flag_get(flags, i));
        assert(out@ =~= bits_of(*flags).take(i + 1));
        i += 1;
    }
    assert(bits_of(*flags).take(n as int) =~= bits_of(*flags));
    out
}

/// The search for moves in two arrays: each place of the new array, in
/// order, takes the first free place of the old array that holds an equal
/// item, and is marked as moved from there unless the two places are one.
/// There is no search in arrays with more items than there are flags.
pub fn plan_moves(old_arr: &Vec<Value>, new_arr: &Vec<Value>) -> (r: Option<MoveSearch>)
    ensures
        match r {
            Some(found) => old_arr.len() <= MAX_FLAGS && new_arr.len() <= MAX_FLAGS && (MovePlan {
                used_old: found.used_old@,
                used_new: found.used_new@,
                marks: found.marks@->Object_0,
            }) == moves_phase(
                array_model(old_arr@),
                array_model(new_arr@),
                0,
                no_moves(old_arr@.len(), new_arr@.len()),
            ) && found.marks@ is Object,
            None => old_arr.len() > MAX_FLAGS || new_arr.len() > MAX_FLAGS,
        },
{
    if old_arr.len() > MAX_FLAGS || new_arr.len() > MAX_FLAGS {
        return None;
    }
    let old_list = build_value_hash_map(old_arr);
    let new_list = build_value_hash_map(new_arr);
    let mut out: Vec<(String, Value)> = Vec::new();
    assert(entries_model(out@) =~= Seq::empty());
    let (used_old, used_new) = search_moves(old_arr, new_arr, &old_list, &new_list, &mut out);
    let old_flags = flags_to_vec(&used_old, old_arr.len());
    let new_flags = flags_to_vec(&used_new, new_arr.len());
    Some(MoveSearch { marks: Value::Object(out), used_old: old_flags, used_new: new_flags })
}

/// The delta of two arrays with the search for moves: an item of the new
/// array that is equal to an item of the old array, at another place, is
/// marked as moved from there.
#[verifier::loop_isolation(false)]
pub fn diff_arrays_with_moves_simd(old_arr: &Vec<Value>, new_arr: &Vec<Value>, options: &DiffOptions) -> (r: Value)
    requires
        old_arr.len() <= MAX_FLAGS,
        new_arr.len() <= MAX_FLAGS,
        wf_json(Json::Array(array_model(old_arr@))),
        wf_json(Json::Array(array_model(new_arr@))),
    ensures
        r@ == Json::Object(array_delta_moves(array_model(old_arr@), array_model(new_arr@), *options)),
    decreases old_arr, old_arr.len() + new_arr.len(),
{
    let ghost a = array_model(old_arr@);
    let ghost b = array_model(new_arr@);
    let old_hashes = build_value_hash_map(old_arr);
    let new_hashes = build_value_hash_map(new_arr);
    let mut out: Vec<(String, Value)> = Vec::new();
    assert(entries_model(out@) =~= Seq::empty());
    let ghost goal = moves_phase(a, b, 0, no_moves(a.len(), b.len()));
    let (processed_old, processed_new) = search_moves(
        old_arr,
        new_arr,
        &old_hashes,
        &new_hashes,
        &mut out,
    );
    let max_len = if old_arr.len() >= new_arr.len() {
        old_arr.len()
    } else {
        new_arr.len()
    };
    let mut i: usize = 0;
    while i < max_len
        invariant
            i <= max_len,
            max_len == longer(a.len(), b.len()),
            bits_of(processed_old).len() == old_arr.len(),
            bits_of(processed_new).len() == new_arr.len(),
            bits_of(processed_old) == goal.used_old,
            bits_of(processed_new) == goal.used_new,
            rest_phase(
                a,
                b,
                i as int,
                goal.used_old,
                goal.used_new,
                *options,
                entries_model(out@),
            ) == rest_phase(a, b, 0, goal.used_old, goal.used_new, *options, goal.marks),
        decreases max_len - i,
    {
        if i < old_arr.len() && i < new_arr.len() && !flag_get(&processed_old, i) && !flag_get(
            &processed_new,
            i,
        ) {
            if !same_model(&old_arr[i], &new_arr[i]) {
                assert(a[i as int] == old_arr[i as int]@ && b[i as int] == new_arr[i as int]@);
                let d = structural_delta(&old_arr[i], &new_arr[i], options);
                obj_insert(&mut out, make_index_key(i), d);
            }
        } else if i < old_arr.len() && !flag_get(&processed_old, i) {
            obj_insert(&mut out, make_index_key(i), make_deletion(old_arr[i].deep_clone()));
        } else if i < new_arr.len() && !flag_get(&processed_new, i) {
            obj_insert(&mut out, make_insertion_key(i), make_addition(new_arr[i].deep_clone()));
        }
        i += 1;
    }
    Value::Object(out)
}

} // verus!
