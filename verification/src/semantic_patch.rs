//! Applying a semantic delta to a document: the added and removed triples
//! of its root node, and the changes of its context.

use crate::contexts::{context_of, extract_context_fast};
use crate::operational::contains_value;
use crate::patch::clone_items;
use crate::semantic::triple_text;
use crate::text::{chars_of, iri_local_name, local_name, parse_i64, parse_i64_model};
use crate::triples::{rdf_type, xsd_boolean, xsd_double, xsd_integer};
use crate::value::{
    array_model, entries_model, insert_entry, json_get, lookup, obj_get, obj_insert, obj_remove,
    remove_entry, same_text, same_model, Entries, Json, Number, NumberModel, Value,
};
use vstd::prelude::*;

verus! {

/// What the text of a floating-point literal denotes, as `str::parse` of
/// the standard library reads it and the crate `serde_json` writes it:
/// nothing for a text that is no such literal, nothing inside for a number
/// that is not finite, else the JSON text of the number. The name stands
/// for three calls in a row, the reading of the text, `Number::from_f64`
/// and the writing of the number: what passes between them is a
/// floating-point number, which this library does not hold, so the steps
/// have no names of their own.
pub uninterp spec fn double_numeral(s: Seq<char>) -> Option<Option<Seq<char>>>;

/// The model of what reading a floating-point literal gives.
pub open spec fn numeral_model(r: Option<Option<String>>) -> Option<Option<Seq<char>>> {
    match r {
        Some(Some(t)) => Some(Some(t@)),
        Some(None) => Some(None),
        None => None,
    }
}

/// `Number::from_f64` of the crate `serde_json` on what `str::parse` of the
/// standard library reads from the text, and `to_string` of the number:
/// the outer result is missing where the text does not parse, the inner one
/// where the number is not finite. The contract gives the result its name
/// and claims nothing else of it.
#[verifier::external_body]
pub(crate) fn parse_double_numeral(s: &str) -> (r: Option<Option<String>>)
    ensures
        numeral_model(r) == double_numeral(s@),
{
    s.parse().ok().map(|x| serde_json::Number::from_f64(x).map(|n| n.to_string()))
}

/// The number for a signed integer: negative or not.
pub open spec fn int_number(n: i64) -> NumberModel {
    if n < 0 {
        NumberModel::NegInt(n)
    } else {
        NumberModel::PosInt(n as u64)
    }
}

/// The value of a literal whose text was read as a floating-point number:
/// the literal's own value where the text does not parse, 0 where the
/// number is not finite, else the number.
pub open spec fn double_value(parsed: Option<Option<Seq<char>>>, fallback: Json) -> Json {
    match parsed {
        None => fallback,
        Some(None) => Json::Number(NumberModel::PosInt(0)),
        Some(Some(t)) => Json::Number(NumberModel::Float(t)),
    }
}

/// The value of a literal whose text was read as a floating-point number.
pub fn value_of_double(parsed: Option<Option<String>>, fallback: &Value) -> (r: Value)
    ensures
        r@ == double_value(numeral_model(parsed), fallback@),
{
    match parsed {
        None => fallback.deep_clone(),
        Some(None) => Value::Number(Number::PosInt(0)),
        Some(Some(t)) => Value::Number(Number::Float(t)),
    }
}

/// The value that a literal with a datatype stands for: an integer, a
/// floating-point number or a boolean where the datatype says so and the
/// text of the literal reads as one, else the value of the literal as it
/// is.
pub open spec fn typed_value(v: Json, datatype: Seq<char>) -> Json {
    match v {
        Json::Str(s) => if datatype == xsd_integer() {
            match parse_i64_model(s) {
                Some(n) => Json::Number(int_number(n)),
                None => v,
            }
        } else if datatype == xsd_double() {
            double_value(double_numeral(s), v)
        } else if datatype == xsd_boolean() {
            if s == "true"@ {
                Json::Bool(true)
            } else if s == "false"@ {
                Json::Bool(false)
            } else {
                v
            }
        } else {
            v
        },
        _ => v,
    }
}

/// The document value that the object of a triple stands for: a string is
/// itself, an object with an `@id` that identifier, any other object the
/// value of the literal it is, decoded by its datatype; nothing is null.
pub open spec fn literal_value(obj: Option<Json>) -> Json {
    match obj {
        Some(Json::Str(s)) => Json::Str(s),
        Some(Json::Object(m)) => match lookup(m, "@id"@) {
            Some(Json::Str(id)) => Json::Str(id),
            _ => {
                let v = match lookup(m, "value"@) {
                    Some(x) => x,
                    None => Json::Null,
                };
                match lookup(m, "type"@) {
                    Some(Json::Str(t)) => typed_value(v, t),
                    _ => v,
                }
            },
        },
        Some(other) => other,
        None => Json::Null,
    }
}

/// The model of a value that may be missing.
pub open spec fn value_model(v: Option<&Value>) -> Option<Json> {
    match v {
        Some(x) => Some(x@),
        None => None,
    }
}

/// The value that a literal with a datatype stands for.
pub fn decode_typed_value(v: &Value, datatype: &str) -> (r: Value)
    ensures
        r@ == typed_value(v@, datatype@),
{
    match v {
        Value::Str(s) => {
            if same_text(datatype, "http://www.w3.org/2001/XMLSchema#integer") {
                match parse_i64(&chars_of(s.as_str())) {
                    Some(n) => {
                        if n < 0 {
                            Value::Number(Number::NegInt(n))
                        } else {
                            Value::Number(Number::PosInt(n as u64))
                        }
                    },
                    None => v.deep_clone(),
                }
            } else if same_text(datatype, "http://www.w3.org/2001/XMLSchema#double") {
                value_of_double(parse_double_numeral(s.as_str()), v)
            } else if same_text(datatype, "http://www.w3.org/2001/XMLSchema#boolean") {
                if same_text(s.as_str(), "true") {
                    Value::Bool(true)
                } else if same_text(s.as_str(), "false") {
                    Value::Bool(false)
                } else {
                    v.deep_clone()
                }
            } else {
                v.deep_clone()
            }
        },
        _ => v.deep_clone(),
    }
}

/// The document value that the object of a triple stands for.
pub fn object_to_json_value(obj_val: Option<&Value>) -> (r: Value)
    ensures
        r@ == literal_value(value_model(obj_val)),
{
    match obj_val {
        Some(Value::Str(s)) => Value::Str(s.clone()),
        Some(Value::Object(map)) => {
            let ghost m = entries_model(map@);
            match obj_get(map, "@id") {
                Some(Value::Str(id)) => {
                    assert(lookup(m, "@id"@) == Some(Json::Str(id@)));
                    return Value::Str(id.clone());
                },
                Some(other) => {
                    assert(lookup(m, "@id"@) == Some(other@));
                    assert(!(other@ is Str));
                },
                None => {},
            }
            let v = match obj_get(map, "value") {
                Some(x) => x.deep_clone(),
                None => Value::Null,
            };
            match obj_get(map, "type") {
                Some(Value::Str(t)) => {
                    assert(lookup(m, "type"@) == Some(Json::Str(t@)));
                    decode_typed_value(&v, t.as_str())
                },
                Some(other) => {
                    assert(lookup(m, "type"@) == Some(other@));
                    assert(!(other@ is Str));
                    v
                },
                None => v,
            }
        },
        Some(other) => {
            assert(!(other@ is Str) && !(other@ is Object));
            other.deep_clone()
        },
        None => Value::Null,
    }
}

/// The local name of the type that the object of a triple names: that of a
/// string, or of the `@id` of an object.
pub open spec fn type_local(obj: Option<Json>) -> Option<Seq<char>> {
    match obj {
        Some(Json::Str(s)) => Some(local_name(s)),
        Some(Json::Object(m)) => match lookup(m, "@id"@) {
            Some(Json::Str(id)) => Some(local_name(id)),
            _ => None,
        },
        _ => None,
    }
}

/// The local name of the type that the object of a triple names.
pub fn object_to_type_local(obj_val: Option<&Value>) -> (r: Option<String>)
    ensures
        crate::triples::text_model(r) == type_local(value_model(obj_val)),
{
    match obj_val {
        Some(Value::Str(s)) => Some(iri_local_name(s.as_str())),
        Some(Value::Object(map)) => {
            let ghost m = entries_model(map@);
            match obj_get(map, "@id") {
                Some(Value::Str(id)) => {
                    assert(lookup(m, "@id"@) == Some(Json::Str(id@)));
                    Some(iri_local_name(id.as_str()))
                },
                Some(other) => {
                    assert(lookup(m, "@id"@) == Some(other@));
                    assert(!(other@ is Str));
                    None
                },
                None => None,
            }
        },
        Some(other) => {
            assert(!(other@ is Str) && !(other@ is Object));
            None
        },
        None => None,
    }
}

/// The entries of a node with one more type: a single other type becomes a
/// list of the two, a list gains the type unless it has it, and a node
/// without types gets the type alone.
pub open spec fn type_added(e: Entries, ts: Seq<char>) -> Entries {
    match lookup(e, "@type"@) {
        Some(Json::Str(s)) => if s != ts {
            insert_entry(e, "@type"@, Json::Array(seq![Json::Str(s), Json::Str(ts)]))
        } else {
            e
        },
        Some(Json::Array(arr)) => if !arr.contains(Json::Str(ts)) {
            insert_entry(e, "@type"@, Json::Array(arr.push(Json::Str(ts))))
        } else {
            e
        },
        _ => insert_entry(e, "@type"@, Json::Str(ts)),
    }
}

/// The entries of a node with one more value of a property: a list gains
/// the value unless it has it, a single other value becomes a list of the
/// two, and a property without value gets the value alone.
pub open spec fn property_added(e: Entries, key: Seq<char>, v: Json) -> Entries {
    match lookup(e, key) {
        Some(Json::Array(arr)) => if !arr.contains(v) {
            insert_entry(e, key, Json::Array(arr.push(v)))
        } else {
            e
        },
        Some(current) => if current != v {
            insert_entry(e, key, Json::Array(seq![current, v]))
        } else {
            e
        },
        None => insert_entry(e, key, v),
    }
}

/// The root of a document: its `@id` where that is a string.
pub open spec fn root_of(doc: Json) -> Option<Seq<char>> {
    triple_text(doc, "@id"@)
}

/// The document with one added triple. A triple whose subject is not the
/// root changes nothing. A type triple adds the local name of its object
/// to the types of the root; any other triple adds the value of its object
/// to the property named by the local name of its predicate.
pub open spec fn triple_added(doc: Json, root: Option<Seq<char>>, t: Json) -> Json {
    match (triple_text(t, "subject"@), triple_text(t, "predicate"@)) {
        (Some(s), Some(p)) => if Some(s) == root {
            if p == rdf_type() {
                match (type_local(json_get(t, "object"@)), doc) {
                    (Some(ts), Json::Object(e)) => Json::Object(type_added(e, ts)),
                    _ => doc,
                }
            } else {
                let v = literal_value(json_get(t, "object"@));
                match doc {
                    Json::Object(e) => Json::Object(property_added(e, local_name(p), v)),
                    _ => Json::Object(property_added(Seq::empty(), local_name(p), v)),
                }
            }
        } else {
            doc
        },
        _ => doc,
    }
}

/// The document with the added triples from position `i` on, in order.
pub open spec fn triples_added_from(doc: Json, root: Option<Seq<char>>, added: Seq<Json>, i: int) -> Json
    decreases added.len() - i,
{
    if i < 0 || i >= added.len() {
        doc
    } else {
        triples_added_from(triple_added(doc, root, added[i]), root, added, i + 1)
    }
}

/// The document with the added triples of its root.
pub open spec fn triples_added(doc: Json, added: Seq<Json>) -> Json {
    triples_added_from(doc, root_of(doc), added, 0)
}

/// The text under a key of a document where that is a string.
pub fn text_at(t: &Value, key: &str) -> (r: Option<String>)
    ensures
        crate::triples::text_model(r) == triple_text(t@, key@),
{
    match t.get(key) {
        Some(Value::Str(s)) => {
            assert(json_get(t@, key@) == Some(Json::Str(s@)));
            Some(s.clone())
        },
        Some(other) => {
            assert(json_get(t@, key@) == Some(other@));
            assert(!(other@ is Str));
            None
        },
        None => None,
    }
}

/// Adds a type to the entries of a node.
pub fn add_type(entries: &mut Vec<(String, Value)>, ts: String)
    ensures
        entries_model(final(entries)@) == type_added(entries_model(old(entries)@), ts@),
{
    let ghost e = entries_model(entries@);
    let candidate = Value::Str(ts);
    let next: Option<Value> = match obj_get(entries, "@type") {
        Some(Value::Str(s)) => {
            assert(lookup(e, "@type"@) == Some(Json::Str(s@)));
            if !same_model(&Value::Str(s.clone()), &candidate) {
                let pair = vec![Value::Str(s.clone()), candidate];
                assert(array_model(pair@) =~= seq![Json::Str(s@), Json::Str(ts@)]);
                Some(Value::Array(pair))
            } else {
                None
            }
        },
        Some(Value::Array(arr)) => {
            assert(lookup(e, "@type"@) == Some(Json::Array(array_model(arr@))));
            if !contains_value(arr, &candidate) {
                let mut more = clone_items(arr);
                let ghost before = array_model(more@);
                more.push(candidate);
                assert(array_model(more@) =~= before.push(Json::Str(ts@)));
                Some(Value::Array(more))
            } else {
                None
            }
        },
        Some(other) => {
            assert(lookup(e, "@type"@) == Some(other@));
            assert(!(other@ is Str) && !(other@ is Array));
            Some(candidate)
        },
        None => Some(candidate),
    };
    match next {
        Some(v) => {
            obj_insert(entries, "@type".to_string(), v);
        },
        None => {},
    }
}

/// Adds a value of a property to the entries of a node.
pub fn add_property(entries: &mut Vec<(String, Value)>, key: String, v: Value)
    ensures
        entries_model(final(entries)@) == property_added(entries_model(old(entries)@), key@, v@),
{
    let ghost e = entries_model(entries@);
    let next: Option<Value> = match obj_get(entries, key.as_str()) {
        Some(Value::Array(arr)) => {
            assert(lookup(e, key@) == Some(Json::Array(array_model(arr@))));
            if !contains_value(arr, &v) {
                let mut more = clone_items(arr);
                let ghost before = array_model(more@);
                more.push(v);
                assert(array_model(more@) =~= before.push(v@));
                Some(Value::Array(more))
            } else {
                None
            }
        },
        Some(current) => {
            assert(lookup(e, key@) == Some(current@));
            assert(!(current@ is Array));
            if !same_model(current, &v) {
                let pair = vec![current.deep_clone(), v];
                assert(array_model(pair@) =~= seq![current@, v@]);
                Some(Value::Array(pair))
            } else {
                None
            }
        },
        None => Some(v),
    };
    match next {
        Some(x) => {
            obj_insert(entries, key, x);
        },
        None => {},
    }
}

/// Whether two texts that may be missing are the same.
pub fn same_optional_text(a: &Option<String>, b: &Option<String>) -> (r: bool)
    ensures
        r == (crate::triples::text_model(*a) == crate::triples::text_model(*b)),
{
    match (a, b) {
        (Some(x), Some(y)) => *x == *y,
        (None, None) => true,
        _ => false,
    }
}

/// Applies one added triple to the document.
pub fn apply_triple_addition(doc: Value, root: &Option<String>, t: &Value) -> (r: Value)
    ensures
        r@ == triple_added(doc@, crate::triples::text_model(*root), t@),
{
    let subject = text_at(t, "subject");
    let predicate = text_at(t, "predicate");
    match (&subject, &predicate) {
        (Some(_), Some(p)) => {
            if !same_optional_text(&subject, root) {
                return doc;
            }
            if same_text(p.as_str(), "http://www.w3.org/1999/02/22-rdf-syntax-ns#type") {
                match object_to_type_local(t.get("object")) {
                    Some(ts) => match doc {
                        Value::Object(mut entries) => {
                            add_type(&mut entries, ts);
                            Value::Object(entries)
                        },
                        other => other,
                    },
                    None => doc,
                }
            } else {
                let key = iri_local_name(p.as_str());
                let v = object_to_json_value(t.get("object"));
                match doc {
                    Value::Object(mut entries) => {
                        add_property(&mut entries, key, v);
                        Value::Object(entries)
                    },
                    _ => {
                        let mut entries: Vec<(String, Value)> = Vec::new();
                        assert(entries_model(entries@) =~= Seq::empty());
                        add_property(&mut entries, key, v);
                        Value::Object(entries)
                    },
                }
            }
        },
        _ => doc,
    }
}

/// Applies the added triples of its root to the document.
pub fn apply_triple_additions(doc: Value, added: &Vec<Value>) -> (r: Value)
    ensures
        r@ == triples_added(doc@, array_model(added@)),
{
    let root = text_at(&doc, "@id");
    let ghost start = doc@;
    let ghost list = array_model(added@);
    let ghost root_model = crate::triples::text_model(root);
    let mut current = doc;
    let mut i: usize = 0;
    while i < added.len()
        invariant
            i <= added.len(),
            list == array_model(added@),
            root_model == crate::triples::text_model(root),
            triples_added_from(current@, root_model, list, i as int) == triples_added_from(
                start,
                root_model,
                list,
                0,
            ),
        decreases added.len() - i,
    {
        assert(added[i as int]@ == list[i as int]);
        current = apply_triple_addition(current, &root, &added[i]);
        i += 1;
    }
    current
}

/// The list `acc` with the items from position `i` on that are not `v`.
pub open spec fn without_from(items: Seq<Json>, v: Json, i: int, acc: Seq<Json>) -> Seq<Json>
    decreases items.len() - i,
{
    if i < 0 || i >= items.len() {
        acc
    } else if items[i] != v {
        without_from(items, v, i + 1, acc.push(items[i]))
    } else {
        without_from(items, v, i + 1, acc)
    }
}

/// The items that are not `v`, in order.
pub open spec fn without(items: Seq<Json>, v: Json) -> Seq<Json> {
    without_from(items, v, 0, Seq::empty())
}

/// The items that are not `v`.
pub fn items_without(items: &Vec<Value>, v: &Value) -> (r: Vec<Value>)
    ensures
        array_model(r@) == without(array_model(items@), v@),
{
    let ghost model = array_model(items@);
    let mut out: Vec<Value> = Vec::new();
    assert(array_model(out@) =~= Seq::empty());
    let mut i: usize = 0;
    while i < items.len()
        invariant
            i <= items.len(),
            model == array_model(items@),
            without_from(model, v@, i as int, array_model(out@)) == without(model, v@),
        decreases items.len() - i,
    {
        assert(items[i as int]@ == model[i as int]);
        if !same_model(&items[i], v) {
            let ghost before = array_model(out@);
            out.push(items[i].deep_clone());
            assert(array_model(out@) =~= before.push(model[i as int]));
        }
        i += 1;
    }
    out
}

/// The entries of a node without one type: a single type that is the one
/// goes; a list loses it, and becomes a single type where one is left.
pub open spec fn type_removed(e: Entries, ts: Seq<char>) -> Entries {
    match lookup(e, "@type"@) {
        Some(Json::Str(s)) => if s == ts {
            remove_entry(e, "@type"@)
        } else {
            e
        },
        Some(Json::Array(arr)) => {
            let kept = without(arr, Json::Str(ts));
            if kept.len() == 1 {
                insert_entry(e, "@type"@, kept[0])
            } else {
                insert_entry(e, "@type"@, Json::Array(kept))
            }
        },
        _ => e,
    }
}

/// The entries of a node without one value of a property: a list loses the
/// value, becomes a single value where one is left and goes where none is;
/// a single value that is the one goes.
pub open spec fn property_removed(e: Entries, key: Seq<char>, v: Json) -> Entries {
    match lookup(e, key) {
        Some(Json::Array(arr)) => {
            let kept = without(arr, v);
            if kept.len() == 1 {
                insert_entry(e, key, kept[0])
            } else if kept.len() == 0 {
                remove_entry(e, key)
            } else {
                insert_entry(e, key, Json::Array(kept))
            }
        },
        Some(current) => if current == v {
            remove_entry(e, key)
        } else {
            e
        },
        None => e,
    }
}

/// The document without one removed triple of its root.
pub open spec fn triple_removed(doc: Json, root: Option<Seq<char>>, t: Json) -> Json {
    match (triple_text(t, "subject"@), triple_text(t, "predicate"@)) {
        (Some(s), Some(p)) => if Some(s) == root {
            match doc {
                Json::Object(e) => if p == rdf_type() {
                    match type_local(json_get(t, "object"@)) {
                        Some(ts) => Json::Object(type_removed(e, ts)),
                        None => doc,
                    }
                } else {
                    Json::Object(
                        property_removed(e, local_name(p), literal_value(json_get(t, "object"@))),
                    )
                },
                _ => doc,
            }
        } else {
            doc
        },
        _ => doc,
    }
}

/// The document without the removed triples from position `i` on.
pub open spec fn triples_removed_from(doc: Json, root: Option<Seq<char>>, removed: Seq<Json>, i: int) -> Json
    decreases removed.len() - i,
{
    if i < 0 || i >= removed.len() {
        doc
    } else {
        triples_removed_from(triple_removed(doc, root, removed[i]), root, removed, i + 1)
    }
}

/// The document without the removed triples of its root.
pub open spec fn triples_removed(doc: Json, removed: Seq<Json>) -> Json {
    triples_removed_from(doc, root_of(doc), removed, 0)
}

/// What is to be done with an entry.
pub enum EntryChange {
    Keep,
    Remove,
    Put(Value),
}

/// Takes a type away from the entries of a node.
pub fn remove_type(entries: &mut Vec<(String, Value)>, ts: String)
    ensures
        entries_model(final(entries)@) == type_removed(entries_model(old(entries)@), ts@),
{
    let ghost e = entries_model(entries@);
    let candidate = Value::Str(ts);
    let next: EntryChange = match obj_get(entries, "@type") {
        Some(Value::Str(s)) => {
            assert(lookup(e, "@type"@) == Some(Json::Str(s@)));
            if same_model(&Value::Str(s.clone()), &candidate) {
                EntryChange::Remove
            } else {
                EntryChange::Keep
            }
        },
        Some(Value::Array(arr)) => {
            assert(lookup(e, "@type"@) == Some(Json::Array(array_model(arr@))));
            let kept = items_without(arr, &candidate);
            if kept.len() == 1 {
                EntryChange::Put(kept[0].deep_clone())
            } else {
                EntryChange::Put(Value::Array(kept))
            }
        },
        Some(other) => {
            assert(lookup(e, "@type"@) == Some(other@));
            assert(!(other@ is Str) && !(other@ is Array));
            EntryChange::Keep
        },
        None => EntryChange::Keep,
    };
    match next {
        EntryChange::Put(v) => {
            obj_insert(entries, "@type".to_string(), v);
        },
        EntryChange::Remove => {
            obj_remove(entries, "@type");
        },
        EntryChange::Keep => {},
    }
}

/// Takes a value of a property away from the entries of a node.
pub fn remove_property(entries: &mut Vec<(String, Value)>, key: String, v: Value)
    ensures
        entries_model(final(entries)@) == property_removed(entries_model(old(entries)@), key@, v@),
{
    let ghost e = entries_model(entries@);
    let next: EntryChange = match obj_get(entries, key.as_str()) {
        Some(Value::Array(arr)) => {
            assert(lookup(e, key@) == Some(Json::Array(array_model(arr@))));
            let kept = items_without(arr, &v);
            if kept.len() == 1 {
                EntryChange::Put(kept[0].deep_clone())
            } else if kept.len() == 0 {
                EntryChange::Remove
            } else {
                EntryChange::Put(Value::Array(kept))
            }
        },
        Some(current) => {
            assert(lookup(e, key@) == Some(current@));
            assert(!(current@ is Array));
            if same_model(current, &v) {
                EntryChange::Remove
            } else {
                EntryChange::Keep
            }
        },
        None => EntryChange::Keep,
    };
    match next {
        EntryChange::Put(x) => {
            obj_insert(entries, key, x);
        },
        EntryChange::Remove => {
            obj_remove(entries, key.as_str());
        },
        EntryChange::Keep => {},
    }
}

/// Applies one removed triple to the document.
pub fn apply_triple_removal(doc: Value, root: &Option<String>, t: &Value) -> (r: Value)
    ensures
        r@ == triple_removed(doc@, crate::triples::text_model(*root), t@),
{
    let subject = text_at(t, "subject");
    let predicate = text_at(t, "predicate");
    match (&subject, &predicate) {
        (Some(_), Some(p)) => {
            if !same_optional_text(&subject, root) {
                return doc;
            }
            match doc {
                Value::Object(mut entries) => {
                    if same_text(p.as_str(), "http://www.w3.org/1999/02/22-rdf-syntax-ns#type") {
                        match object_to_type_local(t.get("object")) {
                            Some(ts) => {
                                remove_type(&mut entries, ts);
                            },
                            None => {},
                        }
                    } else {
                        let key = iri_local_name(p.as_str());
                        let v = object_to_json_value(t.get("object"));
                        remove_property(&mut entries, key, v);
                    }
                    Value::Object(entries)
                },
                other => other,
            }
        },
        _ => doc,
    }
}

/// Applies the removed triples of its root to the document.
pub fn apply_triple_removals(doc: Value, removed: &Vec<Value>) -> (r: Value)
    ensures
        r@ == triples_removed(doc@, array_model(removed@)),
{
    let root = text_at(&doc, "@id");
    let ghost start = doc@;
    let ghost list = array_model(removed@);
    let ghost root_model = crate::triples::text_model(root);
    let mut current = doc;
    let mut i: usize = 0;
    while i < removed.len()
        invariant
            i <= removed.len(),
            list == array_model(removed@),
            root_model == crate::triples::text_model(root),
            triples_removed_from(current@, root_model, list, i as int) == triples_removed_from(
                start,
                root_model,
                list,
                0,
            ),
        decreases removed.len() - i,
    {
        assert(removed[i as int]@ == list[i as int]);
        current = apply_triple_removal(current, &root, &removed[i]);
        i += 1;
    }
    current
}

/// The mappings under a key of the changes of a context, where that is an
/// object.
pub open spec fn mappings_under(changes: Entries, key: Seq<char>) -> Entries {
    match lookup(changes, key) {
        Some(Json::Object(m)) => m,
        _ => Seq::empty(),
    }
}

/// The context with the mappings from position `i` on put in.
pub open spec fn mappings_put(ctx: Entries, m: Entries, i: int) -> Entries
    decreases m.len() - i,
{
    if i < 0 || i >= m.len() {
        ctx
    } else {
        mappings_put(insert_entry(ctx, m[i].0, m[i].1), m, i + 1)
    }
}

/// The context without the terms of the mappings from position `i` on.
pub open spec fn mappings_dropped(ctx: Entries, m: Entries, i: int) -> Entries
    decreases m.len() - i,
{
    if i < 0 || i >= m.len() {
        ctx
    } else {
        mappings_dropped(remove_entry(ctx, m[i].0), m, i + 1)
    }
}

/// The context with the new side of the changed mappings from position `i`
/// on: of each that is a pair.
pub open spec fn mappings_changed(ctx: Entries, m: Entries, i: int) -> Entries
    decreases m.len() - i,
{
    if i < 0 || i >= m.len() {
        ctx
    } else {
        match m[i].1 {
            Json::Array(pair) => if pair.len() == 2 {
                mappings_changed(insert_entry(ctx, m[i].0, pair[1]), m, i + 1)
            } else {
                mappings_changed(ctx, m, i + 1)
            },
            _ => mappings_changed(ctx, m, i + 1),
        }
    }
}

/// The context of a document after the changes of a context: the added
/// mappings put in, the removed ones dropped, the changed ones set to
/// their new side.
pub open spec fn context_after(doc: Json, changes: Entries) -> Entries {
    mappings_changed(
        mappings_dropped(
            mappings_put(context_of(doc), mappings_under(changes, "added_mappings"@), 0),
            mappings_under(changes, "removed_mappings"@),
            0,
        ),
        mappings_under(changes, "changed_mappings"@),
        0,
    )
}

/// The document after the changes of a context: an object gets the new
/// context, anything else stays as it is.
pub open spec fn context_applied(doc: Json, changes: Entries) -> Json {
    match doc {
        Json::Object(e) => Json::Object(
            insert_entry(e, "@context"@, Json::Object(context_after(doc, changes))),
        ),
        _ => doc,
    }
}

/// The mappings under a key of the changes of a context.
pub fn get_mappings(changes: &Vec<(String, Value)>, key: &str) -> (r: Vec<(String, Value)>)
    ensures
        entries_model(r@) == mappings_under(entries_model(changes@), key@),
{
    let ghost c = entries_model(changes@);
    match obj_get(changes, key) {
        Some(Value::Object(m)) => {
            assert(lookup(c, key@) == Some(Json::Object(entries_model(m@))));
            crate::patch::clone_entries(m)
        },
        Some(other) => {
            assert(lookup(c, key@) == Some(other@));
            assert(!(other@ is Object));
            let empty: Vec<(String, Value)> = Vec::new();
            assert(entries_model(empty@) =~= Seq::empty());
            empty
        },
        None => {
            let empty: Vec<(String, Value)> = Vec::new();
            assert(entries_model(empty@) =~= Seq::empty());
            empty
        },
    }
}

/// Applies the changes of a context to the document.
pub fn apply_context_changes_fast(document: Value, changes: &Vec<(String, Value)>) -> (r: Value)
    ensures
        r@ == context_applied(document@, entries_model(changes@)),
{
    let mut ctx = extract_context_fast(&document);
    let added = get_mappings(changes, "added_mappings");
    let removed = get_mappings(changes, "removed_mappings");
    let changed = get_mappings(changes, "changed_mappings");
    let ghost start = entries_model(ctx@);
    let ghost a = entries_model(added@);
    let mut i: usize = 0;
    while i < added.len()
        invariant
            i <= added.len(),
            a == entries_model(added@),
            mappings_put(entries_model(ctx@), a, i as int) == mappings_put(start, a, 0),
        decreases added.len() - i,
    {
        obj_insert(&mut ctx, added[i].0.clone(), added[i].1.deep_clone());
        i += 1;
    }
    let ghost after_put = entries_model(ctx@);
    let ghost b = entries_model(removed@);
    let mut j: usize = 0;
    while j < removed.len()
        invariant
            j <= removed.len(),
            b == entries_model(removed@),
            mappings_dropped(entries_model(ctx@), b, j as int) == mappings_dropped(after_put, b, 0),
        decreases removed.len() - j,
    {
        obj_remove(&mut ctx, removed[j].0.as_str());
        j += 1;
    }
    let ghost after_drop = entries_model(ctx@);
    let ghost c = entries_model(changed@);
    let mut k: usize = 0;
    while k < changed.len()
        invariant
            k <= changed.len(),
            c == entries_model(changed@),
            mappings_changed(entries_model(ctx@), c, k as int) == mappings_changed(
                after_drop,
                c,
                0,
            ),
        decreases changed.len() - k,
    {
        match &changed[k].1 {
            Value::Array(pair) => {
                assert(c[k as int].1 == Json::Array(array_model(pair@)));
                if pair.len() == 2 {
                    obj_insert(&mut ctx, changed[k].0.clone(), pair[1].deep_clone());
                }
            },
            _ => {
                assert(!(c[k as int].1 is Array));
            },
        }
        k += 1;
    }
    match document {
        Value::Object(mut entries) => {
            obj_insert(&mut entries, "@context".to_string(), Value::Object(ctx));
            Value::Object(entries)
        },
        other => other,
    }
}

/// The document after a semantic delta: the added triples of its root,
/// then the removed ones, then the changes of its context.
pub open spec fn patched_semantic(doc: Json, patch: Json) -> Json {
    let with_added = match json_get(patch, "added_triples"@) {
        Some(Json::Array(a)) => triples_added(doc, a),
        _ => doc,
    };
    let with_removed = match json_get(patch, "removed_triples"@) {
        Some(Json::Array(r)) => triples_removed(with_added, r),
        _ => with_added,
    };
    match json_get(patch, "context_changes"@) {
        Some(Json::Object(c)) => context_applied(with_removed, c),
        _ => with_removed,
    }
}

/// Applies a semantic delta to a document.
pub fn patch_semantic(document: &Value, patch: &Value) -> (r: Value)
    ensures
        r@ == patched_semantic(document@, patch@),
{
    let mut result = document.deep_clone();
    match patch.get("added_triples") {
        Some(Value::Array(added)) => {
            assert(json_get(patch@, "added_triples"@) == Some(Json::Array(array_model(added@))));
            result = apply_triple_additions(result, added);
        },
        Some(other) => {
            assert(json_get(patch@, "added_triples"@) == Some(other@));
            assert(!(other@ is Array));
        },
        None => {},
    }
    match patch.get("removed_triples") {
        Some(Value::Array(removed)) => {
            assert(json_get(patch@, "removed_triples"@) == Some(Json::Array(array_model(removed@))));
            result = apply_triple_removals(result, removed);
        },
        Some(other) => {
            assert(json_get(patch@, "removed_triples"@) == Some(other@));
            assert(!(other@ is Array));
        },
        None => {},
    }
    match patch.get("context_changes") {
        Some(Value::Object(changes)) => {
            assert(json_get(patch@, "context_changes"@) == Some(
                Json::Object(entries_model(changes@)),
            ));
            result = apply_context_changes_fast(result, changes);
        },
        Some(other) => {
            assert(json_get(patch@, "context_changes"@) == Some(other@));
            assert(!(other@ is Object));
        },
        None => {},
    }
    result
}

} // verus!
