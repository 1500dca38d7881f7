//! The canonical form of a document: the keys of every object in ascending
//! order, each once.

use crate::text::{lemma_text_lt_transitive, str_lt, text_lt};
use crate::value::{
    array_model, entries_model, insert_entry, insert_position_from, key_index, keys_sorted,
    lemma_insert_entry_sorted, lemma_insert_position_from, lemma_key_index_from, obj_insert,
    wf_json, Entries, Json, Number, NumberModel, Value,
};
use vstd::prelude::*;

verus! {

/// The canonical form of a number: an integer that is not negative is
/// stored as such.
pub open spec fn canonical_number(n: NumberModel) -> NumberModel {
    match n {
        NumberModel::NegInt(v) => if v >= 0 {
            NumberModel::PosInt(v as u64)
        } else {
            n
        },
        _ => n,
    }
}

/// The canonical form of a document: every object holds its entries in
/// ascending key order, of two entries with one key the later one.
pub open spec fn canonical(v: Json) -> Json
    decreases v, 0nat,
{
    match v {
        Json::Number(n) => Json::Number(canonical_number(n)),
        Json::Array(items) => Json::Array(canonical_items(items)),
        Json::Object(entries) => Json::Object(canonical_entries(entries, 0, Seq::empty())),
        _ => v,
    }
}

/// The canonical forms of the items of an array, in order.
pub open spec fn canonical_items(items: Seq<Json>) -> Seq<Json>
    decreases items, 0nat,
{
    Seq::new(items.len(), |i: int| if 0 <= i < items.len() { canonical(items[i]) } else { Json::Null })
}

/// The entries `acc` with the entries from position `i` on put in, each
/// with the canonical form of its value.
pub open spec fn canonical_entries(entries: Entries, i: int, acc: Entries) -> Entries
    decreases entries, entries.len() - i,
{
    if i < 0 || i >= entries.len() {
        acc
    } else {
        canonical_entries(
            entries,
            i + 1,
            insert_entry(acc, entries[i].0, canonical(entries[i].1)),
        )
    }
}

/// The canonical form of a document.
#[verifier::loop_isolation(false)]
pub fn sorted_json_value(v: &Value) -> (r: Value)
    ensures
        r@ == canonical(v@),
        wf_json(r@),
    decreases v,
{
    proof {
        lemma_canonical_wf(v@);
    }
    match v {
        Value::Number(Number::NegInt(n)) => {
            if *n >= 0 {
                Value::Number(Number::PosInt(*n as u64))
            } else {
                Value::Number(Number::NegInt(*n))
            }
        },
        Value::Array(items) => {
            let mut out: Vec<Value> = Vec::new();
            let mut i: usize = 0;
            while i < items.len()
                invariant
                    i <= items.len(),
                    out.len() == i,
                    forall|j: int| 0 <= j < i ==> (#[trigger] out[j])@ == canonical(items[j]@),
                decreases items.len() - i,
            {
                out.push(sorted_json_value(&items[i]));
                i += 1;
            }
            assert(array_model(out@) =~= canonical_items(array_model(items@)));
            Value::Array(out)
        },
        Value::Object(entries) => {
            let ghost model = entries_model(entries@);
            let mut out: Vec<(String, Value)> = Vec::new();
            assert(entries_model(out@) =~= Seq::empty());
            let mut i: usize = 0;
            while i < entries.len()
                invariant
                    i <= entries.len(),
                    canonical_entries(model, i as int, entries_model(out@)) == canonical_entries(
                        model,
                        0,
                        Seq::empty(),
                    ),
                decreases entries.len() - i,
            {
                let child = sorted_json_value(&entries[i].1);
                obj_insert(&mut out, entries[i].0.clone(), child);
                i += 1;
            }
            Value::Object(out)
        },
        _ => v.deep_clone(),
    }
}

/// Whether every key comes before the next.
pub open spec fn neighbours_sorted(entries: Entries) -> bool {
    forall|i: int| 0 <= i < entries.len() - 1 ==> text_lt((#[trigger] entries[i]).0, entries[i + 1].0)
}

/// Keys of which each comes before the next are in ascending order.
pub proof fn lemma_neighbours_sorted(entries: Entries, i: int, j: int)
    requires
        neighbours_sorted(entries),
        0 <= i < j < entries.len(),
    ensures
        text_lt(entries[i].0, entries[j].0),
    decreases j - i,
{
    if j > i + 1 {
        lemma_neighbours_sorted(entries, i, j - 1);
        assert(text_lt(entries[j - 1].0, entries[j].0));
        lemma_text_lt_transitive(entries[i].0, entries[j - 1].0, entries[j].0);
    }
}

/// Whether a document is in canonical form.
#[verifier::loop_isolation(false)]
pub fn is_canonical(v: &Value) -> (r: bool)
    ensures
        r == wf_json(v@),
    decreases v,
{
    match v {
        Value::Number(Number::NegInt(n)) => *n < 0,
        Value::Array(items) => {
            let ghost model = array_model(items@);
            let mut i: usize = 0;
            while i < items.len()
                invariant
                    i <= items.len(),
                    forall|j: int| 0 <= j < i ==> wf_json(#[trigger] model[j]),
                decreases items.len() - i,
            {
                if !is_canonical(&items[i]) {
                    assert(!wf_json(model[i as int]));
                    return false;
                }
                i += 1;
            }
            true
        },
        Value::Object(entries) => {
            let ghost model = entries_model(entries@);
            let mut i: usize = 0;
            while i < entries.len()
                invariant
                    i <= entries.len(),
                    forall|j: int| 0 <= j < i ==> wf_json((#[trigger] model[j]).1),
                    forall|j: int| 0 <= j < i - 1 ==> text_lt((#[trigger] model[j]).0, model[j + 1].0),
                decreases entries.len() - i,
            {
                if !is_canonical(&entries[i].1) {
                    assert(!wf_json(model[i as int].1));
                    return false;
                }
                if i > 0 && !str_lt(entries[i - 1].0.as_str(), entries[i].0.as_str()) {
                    assert(!text_lt(model[i - 1].0, model[i as int].0));
                    return false;
                }
                i += 1;
            }
            proof {
                assert(neighbours_sorted(model));
                assert forall|x: int, y: int| 0 <= x < y < model.len() implies text_lt(
                    (#[trigger] model[x]).0,
                    (#[trigger] model[y]).0,
                ) by {
                    lemma_neighbours_sorted(model, x, y);
                }
            }
            true
        },
        _ => true,
    }
}

/// The entries put together in canonical form are in ascending key order,
/// and their values are in canonical form.
pub proof fn lemma_canonical_entries_wf(entries: Entries, i: int, acc: Entries)
    requires
        0 <= i <= entries.len(),
        keys_sorted(acc),
        forall|x: int| 0 <= x < acc.len() ==> wf_json((#[trigger] acc[x]).1),
        forall|x: int| i <= x < entries.len() ==> wf_json(canonical((#[trigger] entries[x]).1)),
    ensures
        keys_sorted(canonical_entries(entries, i, acc)),
        forall|x: int|
            0 <= x < canonical_entries(entries, i, acc).len() ==> wf_json(
                (#[trigger] canonical_entries(entries, i, acc)[x]).1,
            ),
    decreases entries.len() - i,
{
    if i < entries.len() {
        let key = entries[i].0;
        let value = canonical(entries[i].1);
        let next = insert_entry(acc, key, value);
        lemma_insert_entry_sorted(acc, key, value);
        lemma_key_index_from(acc, key, 0);
        lemma_insert_position_from(acc, key, 0);
        assert forall|x: int| 0 <= x < next.len() implies wf_json((#[trigger] next[x]).1) by {
            match key_index(acc, key) {
                Some(k) => {
                    if x != k {
                        assert(next[x] == acc[x]);
                    }
                },
                None => {
                    let p = insert_position_from(acc, key, 0);
                    if x < p {
                        assert(next[x] == acc[x]);
                    } else if x > p {
                        assert(next[x] == acc[x - 1]);
                    }
                },
            }
        }
        lemma_canonical_entries_wf(entries, i + 1, next);
    }
}

/// The canonical form of a document is in canonical form.
pub proof fn lemma_canonical_wf(v: Json)
    ensures
        wf_json(canonical(v)),
    decreases v,
{
    match v {
        Json::Array(items) => {
            let ci = canonical_items(items);
            assert forall|i: int| 0 <= i < ci.len() implies wf_json(#[trigger] ci[i]) by {
                lemma_canonical_wf(items[i]);
                assert(ci[i] == canonical(items[i]));
            }
            assert(canonical(v) == Json::Array(ci));
        },
        Json::Object(entries) => {
            assert forall|x: int| 0 <= x < entries.len() implies wf_json(
                canonical((#[trigger] entries[x]).1),
            ) by {
                lemma_canonical_wf(entries[x].1);
            }
            lemma_canonical_entries_wf(entries, 0, Seq::empty());
        },
        _ => {},
    }
}

/// Putting the entries of an object in canonical form in again, one after
/// the other, gives the object back.
pub proof fn lemma_canonical_entries_of_sorted(e: Entries, i: int)
    requires
        keys_sorted(e),
        0 <= i <= e.len(),
        forall|x: int| 0 <= x < e.len() ==> canonical((#[trigger] e[x]).1) == e[x].1,
    ensures
        canonical_entries(e, i, e.take(i)) == e,
    decreases e.len() - i,
{
    if i < e.len() {
        let p = e.take(i);
        let key = e[i].0;
        let none = Seq::<(Seq<char>, Json)>::empty();
        assert(p + none =~= p);
        assert forall|x: int| 0 <= x < p.len() implies (#[trigger] p[x]).0 != key && !text_lt(
            key,
            p[x].0,
        ) by {
            assert(p[x] == e[x]);
            crate::text::lemma_text_lt_irreflexive(key);
            crate::text::lemma_text_lt_asymmetric(e[x].0, key);
        }
        crate::round_trip::lemma_key_index_miss(p, none, key);
        crate::round_trip::lemma_insert_position_between(p, none, key);
        assert(insert_entry(p, key, e[i].1) =~= e.take(i + 1));
        lemma_canonical_entries_of_sorted(e, i + 1);
    } else {
        assert(e.take(i) =~= e);
    }
}

/// The canonical form of a document in canonical form is the document.
pub proof fn lemma_canonical_of_wf(v: Json)
    requires
        wf_json(v),
    ensures
        canonical(v) == v,
    decreases v,
{
    match v {
        Json::Array(items) => {
            assert forall|i: int| 0 <= i < items.len() implies canonical(#[trigger] items[i])
                == items[i] by {
                lemma_canonical_of_wf(items[i]);
            }
            assert(canonical_items(items) =~= items);
        },
        Json::Object(entries) => {
            assert forall|x: int| 0 <= x < entries.len() implies canonical(
                (#[trigger] entries[x]).1,
            ) == entries[x].1 by {
                lemma_canonical_of_wf(entries[x].1);
            }
            assert(entries.take(0) =~= Seq::<(Seq<char>, Json)>::empty());
            lemma_canonical_entries_of_sorted(entries, 0);
        },
        _ => {},
    }
}

} // verus!
