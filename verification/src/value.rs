//! The document value: a recursive tagged tree, and its mathematical model.

use crate::text::{
    lemma_text_lt_irreflexive, lemma_text_lt_total, lemma_text_lt_transitive, text_lt,
};
use vstd::prelude::*;

verus! {

/// The entries of an object model: keys with their values.
pub type Entries = Seq<(Seq<char>, Json)>;

/// The model of a JSON number. Integers are kept as integers; a number
/// written with a fraction or an exponent is kept as its decimal text, so
/// that an integer `1` and a float `1.0` are different numbers.
pub enum NumberModel {
    PosInt(u64),
    NegInt(i64),
    Float(Seq<char>),
}

/// The model of a document value. An object is the sequence of its entries
/// in ascending key order.
pub enum Json {
    Null,
    Bool(bool),
    Number(NumberModel),
    Str(Seq<char>),
    Array(Seq<Json>),
    Object(Seq<(Seq<char>, Json)>),
}

/// A JSON number as stored.
#[derive(Debug)]
pub enum Number {
    /// A non-negative integer.
    PosInt(u64),
    /// A negative integer.
    NegInt(i64),
    /// Any other number, as the decimal text that denotes it.
    Float(String),
}

/// A document value.
#[derive(Debug)]
pub enum Value {
    Null,
    Bool(bool),
    Number(Number),
    Str(String),
    Array(Vec<Value>),
    Object(Vec<(String, Value)>),
}

impl View for Number {
    type V = NumberModel;

    open spec fn view(&self) -> NumberModel {
        match self {
            Number::PosInt(n) => NumberModel::PosInt(*n),
            Number::NegInt(n) => NumberModel::NegInt(*n),
            Number::Float(t) => NumberModel::Float(t@),
        }
    }
}

/// The models of the values of a vector, in order.
pub open spec fn array_model(items: Seq<Value>) -> Seq<Json>
    decreases items,
{
    Seq::new(items.len(), |i: int| if 0 <= i < items.len() { items[i].view() } else { Json::Null })
}

/// The models of the entries of an object, in order.
pub open spec fn entries_model(entries: Seq<(String, Value)>) -> Seq<(Seq<char>, Json)>
    decreases entries,
{
    Seq::new(
        entries.len(),
        |i: int| if 0 <= i < entries.len() { (entries[i].0@, entries[i].1.view()) } else { (Seq::empty(), Json::Null) },
    )
}

impl View for Value {
    type V = Json;

    open spec fn view(&self) -> Json
        decreases self,
    {
        match self {
            Value::Null => Json::Null,
            Value::Bool(b) => Json::Bool(*b),
            Value::Number(n) => Json::Number(n@),
            Value::Str(s) => Json::Str(s@),
            Value::Array(items) => Json::Array(array_model(items@)),
            Value::Object(entries) => Json::Object(entries_model(entries@)),
        }
    }
}

impl Number {
    /// A copy of the number.
    pub fn deep_clone(&self) -> (r: Number)
        ensures
            r@ == self@,
    {
        match self {
            Number::PosInt(n) => Number::PosInt(*n),
            Number::NegInt(n) => Number::NegInt(*n),
            Number::Float(t) => Number::Float(t.clone()),
        }
    }

    /// Whether two numbers are the same number as stored.
    pub fn same(&self, other: &Number) -> (r: bool)
        ensures
            r == (self@ == other@),
    {
        match (self, other) {
            (Number::PosInt(a), Number::PosInt(b)) => *a == *b,
            (Number::NegInt(a), Number::NegInt(b)) => *a == *b,
            (Number::Float(a), Number::Float(b)) => {
                let r = *a == *b;
                proof {
                    if r {
                        assert(a@ =~= b@);
                    }
                }
                r
            },
            _ => false,
        }
    }
}

impl Value {
    /// A copy of the whole tree.
    #[verifier::loop_isolation(false)]
    pub fn deep_clone(&self) -> (r: Value)
        ensures
            r@ == self@,
        decreases self,
    {
        match self {
            Value::Null => Value::Null,
            Value::Bool(b) => Value::Bool(*b),
            Value::Number(n) => Value::Number(n.deep_clone()),
            Value::Str(s) => Value::Str(s.clone()),
            Value::Array(items) => {
                let mut out: Vec<Value> = Vec::new();
                let mut i: usize = 0;
                while i < items.len()
                    invariant
                        i <= items.len(),
                        out.len() == i,
                        forall|j: int| 0 <= j < i ==> out[j]@ == items[j]@,
                    decreases items.len() - i,
                {
                    out.push(items[i].deep_clone());
                    i += 1;
                }
                assert(array_model(out@) =~= array_model(items@));
                Value::Array(out)
            },
            Value::Object(entries) => {
                let mut out: Vec<(String, Value)> = Vec::new();
                let mut i: usize = 0;
                while i < entries.len()
                    invariant
                        i <= entries.len(),
                        out.len() == i,
                        forall|j: int|
                            0 <= j < i ==> out[j].0@ == entries[j].0@ && out[j].1@ == entries[j].1@,
                    decreases entries.len() - i,
                {
                    out.push((entries[i].0.clone(), entries[i].1.deep_clone()));
                    i += 1;
                }
                assert(entries_model(out@) =~= entries_model(entries@));
                Value::Object(out)
            },
        }
    }
}

/// The model of a document that may be missing.
pub open spec fn optional_model(v: Option<Value>) -> Option<Json> {
    match v {
        Some(x) => Some(x@),
        None => None,
    }
}

/// Deep equality of two documents: arrays in order, objects by key. Two
/// documents are equal where their canonical forms are the same, so the
/// order in which the entries of an object were put in does not count, and
/// of two entries with one key the later one does; two documents in
/// canonical form are equal where they are the same.
pub fn values_equal(a: &Value, b: &Value) -> (r: bool)
    ensures
        r == (crate::canonical::canonical(a@) == crate::canonical::canonical(b@)),
        wf_json(a@) && wf_json(b@) ==> r == (a@ == b@),
{
    proof {
        if wf_json(a@) && wf_json(b@) {
            crate::canonical::lemma_canonical_of_wf(a@);
            crate::canonical::lemma_canonical_of_wf(b@);
        }
    }
    let x = crate::canonical::sorted_json_value(a);
    let y = crate::canonical::sorted_json_value(b);
    same_model(&x, &y)
}

/// Whether two documents are the same, entry for entry: arrays in order,
/// and objects in the order of their entries, which for documents in
/// canonical form is the order of their keys.
#[verifier::loop_isolation(false)]
pub fn same_model(a: &Value, b: &Value) -> (r: bool)
    ensures
        r == (a@ == b@),
    decreases a,
{
    match (a, b) {
        (Value::Null, Value::Null) => true,
        (Value::Bool(x), Value::Bool(y)) => *x == *y,
        (Value::Number(x), Value::Number(y)) => x.same(y),
        (Value::Str(x), Value::Str(y)) => *x == *y,
        (Value::Array(x), Value::Array(y)) => {
            if x.len() != y.len() {
                assert(array_model(x@).len() != array_model(y@).len());
                return false;
            }
            let mut i: usize = 0;
            while i < x.len()
                invariant
                    i <= x.len(),
                    x.len() == y.len(),
                    forall|j: int| 0 <= j < i ==> x[j]@ == y[j]@,
                decreases x.len() - i,
            {
                if !same_model(&x[i], &y[i]) {
                    assert(array_model(x@)[i as int] != array_model(y@)[i as int]);
                    return false;
                }
                i += 1;
            }
            assert(array_model(x@) =~= array_model(y@));
            true
        },
        (Value::Object(x), Value::Object(y)) => {
            if x.len() != y.len() {
                assert(entries_model(x@).len() != entries_model(y@).len());
                return false;
            }
            let mut i: usize = 0;
            while i < x.len()
                invariant
                    i <= x.len(),
                    x.len() == y.len(),
                    forall|j: int| 0 <= j < i ==> x[j].0@ == y[j].0@ && x[j].1@ == y[j].1@,
                decreases x.len() - i,
            {
                if !(x[i].0 == y[i].0) || !same_model(&x[i].1, &y[i].1) {
                    assert(entries_model(x@)[i as int] != entries_model(y@)[i as int]);
                    return false;
                }
                i += 1;
            }
            assert(entries_model(x@) =~= entries_model(y@));
            true
        },
        _ => false,
    }
}

/// The position of the first entry at or after `from` whose key is `key`.
pub open spec fn key_index_from(entries: Entries, key: Seq<char>, from: int) -> Option<int>
    decreases entries.len() - from,
{
    if from < 0 || from >= entries.len() {
        None
    } else if entries[from].0 == key {
        Some(from)
    } else {
        key_index_from(entries, key, from + 1)
    }
}

/// The position of the first entry whose key is `key`.
pub open spec fn key_index(entries: Entries, key: Seq<char>) -> Option<int> {
    key_index_from(entries, key, 0)
}

/// The value that an object holds under `key`.
pub open spec fn lookup(entries: Entries, key: Seq<char>) -> Option<Json> {
    match key_index(entries, key) {
        Some(i) => Some(entries[i].1),
        None => None,
    }
}

/// The position of the first entry at or after `from` whose key comes after
/// `key`, or the number of entries.
pub open spec fn insert_position_from(entries: Entries, key: Seq<char>, from: int) -> int
    decreases entries.len() - from,
{
    if from < 0 || from >= entries.len() {
        entries.len() as int
    } else if text_lt(key, entries[from].0) {
        from
    } else {
        insert_position_from(entries, key, from + 1)
    }
}

/// The object with `value` under `key`: an entry with that key is replaced
/// where it stands, a new one goes before the first entry with a later key.
pub open spec fn insert_entry(entries: Entries, key: Seq<char>, value: Json) -> Entries {
    match key_index(entries, key) {
        Some(i) => entries.update(i, (key, value)),
        None => entries.insert(insert_position_from(entries, key, 0), (key, value)),
    }
}

/// The object without its entry for `key`.
pub open spec fn remove_entry(entries: Entries, key: Seq<char>) -> Entries {
    match key_index(entries, key) {
        Some(i) => entries.remove(i),
        None => entries,
    }
}

pub proof fn lemma_key_index_from(entries: Entries, key: Seq<char>, from: int)
    requires
        0 <= from,
    ensures
        match key_index_from(entries, key, from) {
            Some(i) => from <= i < entries.len() && entries[i].0 == key && forall|j: int|
                from <= j < i ==> (#[trigger] entries[j]).0 != key,
            None => forall|j: int| from <= j < entries.len() ==> (#[trigger] entries[j]).0 != key,
        },
    decreases entries.len() - from,
{
    if from < entries.len() && entries[from].0 != key {
        lemma_key_index_from(entries, key, from + 1);
    }
}

pub proof fn lemma_insert_position_from(entries: Entries, key: Seq<char>, from: int)
    requires
        0 <= from <= entries.len(),
    ensures
        from <= insert_position_from(entries, key, from) <= entries.len(),
        forall|j: int|
            from <= j < insert_position_from(entries, key, from) ==> !text_lt(
                key,
                (#[trigger] entries[j]).0,
            ),
        insert_position_from(entries, key, from) < entries.len() ==> text_lt(
            key,
            entries[insert_position_from(entries, key, from)].0,
        ),
    decreases entries.len() - from,
{
    if from < entries.len() && !text_lt(key, entries[from].0) {
        lemma_insert_position_from(entries, key, from + 1);
    }
}

/// The value under `key` when the document is an object.
pub open spec fn json_get(v: Json, key: Seq<char>) -> Option<Json> {
    match v {
        Json::Object(entries) => lookup(entries, key),
        _ => None,
    }
}

/// Whether the keys of the entries ascend strictly.
pub open spec fn keys_sorted(entries: Entries) -> bool {
    forall|i: int, j: int|
        0 <= i < j < entries.len() ==> text_lt((#[trigger] entries[i]).0, (#[trigger] entries[j]).0)
}

/// Whether a document is in canonical form: in every object the keys ascend
/// strictly, and every negative integer is negative.
pub open spec fn wf_json(v: Json) -> bool
    decreases v,
{
    match v {
        Json::Number(NumberModel::NegInt(n)) => n < 0,
        Json::Array(items) => items_wf(items),
        Json::Object(entries) => keys_sorted(entries) && values_wf(entries),
        _ => true,
    }
}

/// Whether every item is in canonical form.
pub open spec fn items_wf(items: Seq<Json>) -> bool
    decreases items,
{
    forall|i: int| 0 <= i < items.len() ==> wf_json(#[trigger] items[i])
}

/// Whether the value of every entry is in canonical form.
pub open spec fn values_wf(entries: Entries) -> bool
    decreases entries,
{
    forall|i: int| 0 <= i < entries.len() ==> wf_json((#[trigger] entries[i]).1)
}

/// Whether no array and no object of the document is longer than a vector
/// can be: every document that is the model of a value is so.
pub open spec fn representable(v: Json) -> bool
    decreases v,
{
    match v {
        Json::Array(items) => items.len() <= usize::MAX && forall|i: int|
            0 <= i < items.len() ==> representable(#[trigger] items[i]),
        Json::Object(entries) => entries.len() <= usize::MAX && forall|i: int|
            0 <= i < entries.len() ==> representable((#[trigger] entries[i]).1),
        _ => true,
    }
}

/// After a value was put under a key, the key holds that value, and every
/// other key holds what it held.
pub proof fn lemma_lookup_insert_entry(entries: Entries, key: Seq<char>, value: Json, other: Seq<char>)
    ensures
        lookup(insert_entry(entries, key, value), other) == if other == key {
            Some(value)
        } else {
            lookup(entries, other)
        },
{
    lemma_key_index_from(entries, key, 0);
    lemma_key_index_from(entries, other, 0);
    let after = insert_entry(entries, key, value);
    lemma_key_index_from(after, other, 0);
    match key_index(entries, key) {
        Some(i) => {
            assert(after.len() == entries.len());
            assert forall|x: int| 0 <= x < after.len() implies (#[trigger] after[x]).0
                == entries[x].0 by {}
            match key_index(after, other) {
                Some(j) => {
                    assert(after[j].0 == entries[j].0);
                    match key_index(entries, other) {
                        Some(k) => {
                            assert(after[k].0 == entries[k].0);
                            assert(j == k);
                        },
                        None => {
                            assert(entries[j].0 != other);
                        },
                    }
                },
                None => {
                    match key_index(entries, other) {
                        Some(k) => {
                            assert(after[k].0 == other);
                        },
                        None => {
                            if other == key {
                                assert(after[i].0 == key);
                            }
                        },
                    }
                },
            }
        },
        None => {
            lemma_insert_position_from(entries, key, 0);
            let p = insert_position_from(entries, key, 0);
            assert(after[p] == (key, value));
            assert forall|x: int| 0 <= x < p implies #[trigger] after[x] == entries[x] by {}
            assert forall|x: int| p < x < after.len() implies #[trigger] after[x] == entries[x
                - 1] by {}
            if other == key {
                match key_index(after, other) {
                    Some(j) => {
                        if j < p {
                            assert(after[j] == entries[j]);
                        } else if j > p {
                            assert(after[p].0 == key);
                        }
                    },
                    None => {
                        assert(after[p].0 == key);
                    },
                }
            } else {
                match key_index(entries, other) {
                    Some(k) => {
                        let k2 = if k < p {
                            k
                        } else {
                            k + 1
                        };
                        assert(after[k2] == entries[k]);
                        match key_index(after, other) {
                            Some(j) => {
                                if j < k2 {
                                    if j < p {
                                        assert(after[j] == entries[j]);
                                    } else if j > p {
                                        assert(after[j] == entries[j - 1]);
                                    }
                                } else if j > k2 {
                                }
                            },
                            None => {},
                        }
                    },
                    None => {
                        match key_index(after, other) {
                            Some(j) => {
                                if j < p {
                                    assert(after[j] == entries[j]);
                                } else if j > p {
                                    assert(after[j] == entries[j - 1]);
                                }
                            },
                            None => {},
                        }
                    },
                }
            }
        },
    }
}

/// Putting a value under a key keeps the keys in ascending order.
pub proof fn lemma_insert_entry_sorted(entries: Entries, key: Seq<char>, value: Json)
    requires
        keys_sorted(entries),
    ensures
        keys_sorted(insert_entry(entries, key, value)),
        lookup(insert_entry(entries, key, value), key) == Some(value),
{
    lemma_key_index_from(entries, key, 0);
    let after = insert_entry(entries, key, value);
    match key_index(entries, key) {
        Some(i) => {
            assert forall|x: int, y: int| 0 <= x < y < after.len() implies text_lt(
                (#[trigger] after[x]).0,
                (#[trigger] after[y]).0,
            ) by {
                assert(after[x].0 == entries[x].0);
                assert(after[y].0 == entries[y].0);
            }
            lemma_key_index_from(after, key, 0);
            match key_index(after, key) {
                Some(j) => {
                    if j < i {
                        assert(after[j].0 == entries[j].0);
                    } else if j > i {
                        assert(after[i].0 == key);
                    }
                },
                None => {
                    assert(after[i].0 == key);
                },
            }
        },
        None => {
            lemma_insert_position_from(entries, key, 0);
            let p = insert_position_from(entries, key, 0);
            assert forall|x: int| 0 <= x < p implies text_lt((#[trigger] entries[x]).0, key) by {
                lemma_text_lt_total(entries[x].0, key);
            }
            assert forall|x: int| p <= x < entries.len() implies text_lt(
                key,
                (#[trigger] entries[x]).0,
            ) by {
                if x > p {
                    lemma_text_lt_transitive(key, entries[p].0, entries[x].0);
                }
            }
            assert forall|x: int, y: int| 0 <= x < y < after.len() implies text_lt(
                (#[trigger] after[x]).0,
                (#[trigger] after[y]).0,
            ) by {
                if x < p {
                    assert(after[x] == entries[x]);
                } else if x > p {
                    assert(after[x] == entries[x - 1]);
                }
                if y < p {
                    assert(after[y] == entries[y]);
                } else if y > p {
                    assert(after[y] == entries[y - 1]);
                }
            }
            lemma_key_index_from(after, key, 0);
            assert(after[p].0 == key);
            match key_index(after, key) {
                Some(j) => {
                    if j < p {
                        assert(after[j] == entries[j]);
                    }
                },
                None => {},
            }
        },
    }
}

/// Taking a key away keeps the keys in ascending order.
pub proof fn lemma_remove_entry_sorted(entries: Entries, key: Seq<char>)
    requires
        keys_sorted(entries),
    ensures
        keys_sorted(remove_entry(entries, key)),
        lookup(remove_entry(entries, key), key) is None,
{
    lemma_key_index_from(entries, key, 0);
    let after = remove_entry(entries, key);
    match key_index(entries, key) {
        Some(i) => {
            assert forall|x: int, y: int| 0 <= x < y < after.len() implies text_lt(
                (#[trigger] after[x]).0,
                (#[trigger] after[y]).0,
            ) by {
                if x < i {
                    assert(after[x] == entries[x]);
                } else {
                    assert(after[x] == entries[x + 1]);
                }
                if y < i {
                    assert(after[y] == entries[y]);
                } else {
                    assert(after[y] == entries[y + 1]);
                }
            }
            lemma_key_index_from(after, key, 0);
            match key_index(after, key) {
                Some(j) => {
                    lemma_text_lt_irreflexive(key);
                    if j < i {
                        assert(after[j] == entries[j]);
                    } else {
                        assert(after[j] == entries[j + 1]);
                    }
                },
                None => {},
            }
        },
        None => {},
    }
}

/// The entries put together from pairs are in ascending key order.
pub proof fn lemma_entries_from_pairs_sorted(pairs: Entries, i: int, acc: Entries)
    requires
        0 <= i,
        keys_sorted(acc),
    ensures
        keys_sorted(entries_from_pairs(pairs, i, acc)),
    decreases pairs.len() - i,
{
    if i < pairs.len() {
        lemma_insert_entry_sorted(acc, pairs[i].0, pairs[i].1);
        lemma_entries_from_pairs_sorted(pairs, i + 1, insert_entry(acc, pairs[i].0, pairs[i].1));
    }
}

/// Whether two strings hold the same text.
pub fn same_text(a: &str, b: &str) -> (r: bool)
    ensures
        r == (a@ == b@),
{
    let x = a.to_owned();
    let y = b.to_owned();
    let r = x == y;
    r
}

/// The position of the entry for `key`.
pub fn find_key(entries: &Vec<(String, Value)>, key: &str) -> (r: Option<usize>)
    ensures
        match r {
            Some(i) => i < entries.len() && key_index(entries_model(entries@), key@) == Some(
                i as int,
            ),
            None => key_index(entries_model(entries@), key@) is None,
        },
{
    let ghost model = entries_model(entries@);
    let mut i: usize = 0;
    while i < entries.len()
        invariant
            i <= entries.len(),
            model == entries_model(entries@),
            key_index(model, key@) == key_index_from(model, key@, i as int),
        decreases entries.len() - i,
    {
        if same_text(entries[i].0.as_str(), key) {
            return Some(i);
        }
        i += 1;
    }
    None
}

/// The value that the entries hold under `key`.
pub fn obj_get<'a>(entries: &'a Vec<(String, Value)>, key: &str) -> (r: Option<&'a Value>)
    ensures
        match r {
            Some(v) => lookup(entries_model(entries@), key@) == Some(v@),
            None => lookup(entries_model(entries@), key@) is None,
        },
{
    match find_key(entries, key) {
        Some(i) => Some(&entries[i].1),
        None => None,
    }
}

/// Puts `value` under `key`, replacing an entry with that key or adding one
/// in key order.
pub fn obj_insert(entries: &mut Vec<(String, Value)>, key: String, value: Value)
    ensures
        entries_model(final(entries)@) == insert_entry(entries_model(old(entries)@), key@, value@),
        keys_sorted(entries_model(old(entries)@)) ==> keys_sorted(entries_model(final(entries)@)),
{
    let ghost model = entries_model(entries@);
    proof {
        if keys_sorted(model) {
            lemma_insert_entry_sorted(model, key@, value@);
        }
    }
    match find_key(entries, key.as_str()) {
        Some(i) => {
            entries[i] = (key, value);
            assert(entries_model(entries@) =~= model.update(i as int, (key@, value@)));
        },
        None => {
            let mut i: usize = 0;
            let mut found = false;
            while !found && i < entries.len()
                invariant
                    i <= entries.len(),
                    model == entries_model(entries@),
                    found ==> i < entries.len() && text_lt(key@, model[i as int].0),
                    insert_position_from(model, key@, 0) == insert_position_from(
                        model,
                        key@,
                        i as int,
                    ),
                decreases entries.len() - i + if found { 0int } else { 1int },
            {
                if crate::text::str_lt(key.as_str(), entries[i].0.as_str()) {
                    found = true;
                } else {
                    i += 1;
                }
            }
            entries.insert(i, (key, value));
            assert(entries_model(entries@) =~= model.insert(i as int, (key@, value@)));
        },
    }
}

/// Takes away the entry for `key`, if there is one.
pub fn obj_remove(entries: &mut Vec<(String, Value)>, key: &str)
    ensures
        entries_model(final(entries)@) == remove_entry(entries_model(old(entries)@), key@),
        keys_sorted(entries_model(old(entries)@)) ==> keys_sorted(entries_model(final(entries)@)),
{
    let ghost model = entries_model(entries@);
    proof {
        if keys_sorted(model) {
            lemma_remove_entry_sorted(model, key@);
        }
    }
    match find_key(entries, key) {
        Some(i) => {
            entries.remove(i);
            assert(entries_model(entries@) =~= model.remove(i as int));
        },
        None => {},
    }
}

impl Value {
    /// The value under `key` when this is an object.
    pub fn get(&self, key: &str) -> (r: Option<&Value>)
        ensures
            match r {
                Some(v) => json_get(self@, key@) == Some(v@),
                None => json_get(self@, key@) is None,
            },
    {
        match self {
            Value::Object(entries) => obj_get(entries, key),
            _ => None,
        }
    }

    /// The text when this is a string.
    pub fn as_str(&self) -> (r: Option<&String>)
        ensures
            match r {
                Some(s) => self@ == Json::Str(s@),
                None => !(self@ is Str),
            },
    {
        match self {
            Value::Str(s) => Some(s),
            _ => None,
        }
    }

    /// The number when this is a non-negative integer.
    pub fn as_u64(&self) -> (r: Option<u64>)
        ensures
            match r {
                Some(n) => self@ == Json::Number(NumberModel::PosInt(n)),
                None => !(self@ matches Json::Number(NumberModel::PosInt(_))),
            },
    {
        match self {
            Value::Number(Number::PosInt(n)) => Some(*n),
            _ => None,
        }
    }

    /// Whether this is the integer `n`.
    pub fn is_uint(&self, n: u64) -> (r: bool)
        ensures
            r == (self@ == Json::Number(NumberModel::PosInt(n))),
    {
        match self {
            Value::Number(Number::PosInt(m)) => *m == n,
            _ => false,
        }
    }

    /// An object without entries.
    pub fn empty_object() -> (r: Value)
        ensures
            r@ == Json::Object(Seq::empty()),
    {
        let entries: Vec<(String, Value)> = Vec::new();
        assert(entries_model(entries@) =~= Seq::empty());
        Value::Object(entries)
    }

    /// A string value.
    pub fn text(s: &str) -> (r: Value)
        ensures
            r@ == Json::Str(s@),
    {
        Value::Str(s.to_owned())
    }

    /// A non-negative integer value.
    pub fn uint(n: u64) -> (r: Value)
        ensures
            r@ == Json::Number(NumberModel::PosInt(n)),
    {
        Value::Number(Number::PosInt(n))
    }
}

/// The entries `acc` with the pairs from position `i` on put in, one after
/// the other.
pub open spec fn entries_from_pairs(pairs: Entries, i: int, acc: Entries) -> Entries
    decreases pairs.len() - i,
{
    if i < 0 || i >= pairs.len() {
        acc
    } else {
        entries_from_pairs(pairs, i + 1, insert_entry(acc, pairs[i].0, pairs[i].1))
    }
}

/// The object that holds the given pairs: in key order, and of two pairs
/// with one key the later one.
pub open spec fn object_from_pairs(pairs: Entries) -> Json {
    Json::Object(entries_from_pairs(pairs, 0, Seq::empty()))
}

/// An object with the given pairs of key and value; it is in canonical form
/// where the values are.
pub fn object_of(pairs: Vec<(String, Value)>) -> (r: Value)
    ensures
        r@ == object_from_pairs(entries_model(pairs@)),
        keys_sorted(r@->Object_0),
        values_wf(entries_model(pairs@)) ==> wf_json(r@),
{
    let ghost model = entries_model(pairs@);
    let mut entries: Vec<(String, Value)> = Vec::new();
    assert(entries_model(entries@) =~= Seq::empty());
    proof {
        lemma_entries_from_pairs_sorted(model, 0, Seq::empty());
        if values_wf(model) {
            crate::canonical_laws::lemma_entries_from_pairs_values_wf(model, 0, Seq::empty());
        }
    }
    let mut i: usize = 0;
    while i < pairs.len()
        invariant
            i <= pairs.len(),
            model == entries_model(pairs@),
            entries_from_pairs(model, i as int, entries_model(entries@)) == entries_from_pairs(
                model,
                0,
                Seq::empty(),
            ),
        decreases pairs.len() - i,
    {
        obj_insert(&mut entries, pairs[i].0.clone(), pairs[i].1.deep_clone());
        i += 1;
    }
    Value::Object(entries)
}

/// An array with the given items.
pub fn array_of(items: Vec<Value>) -> (r: Value)
    ensures
        r@ == Json::Array(array_model(items@)),
{
    Value::Array(items)
}

impl Clone for Value {
    fn clone(&self) -> (r: Value)
        ensures
            r@ == self@,
    {
        self.deep_clone()
    }
}

impl PartialEq for Value {
    fn eq(&self, other: &Value) -> (r: bool) {
        same_model(self, other)
    }
}

impl vstd::std_specs::cmp::PartialEqSpecImpl for Value {
    open spec fn obeys_eq_spec() -> bool {
        true
    }

    open spec fn eq_spec(&self, other: &Value) -> bool {
        self@ == other@
    }
}

} // verus!
