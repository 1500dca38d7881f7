//! The RDF triples that a document denotes.

use crate::hash::{compute_value_hash_fast, content_hash};
use crate::json_text::{number_text, number_to_text};
use crate::text::{
    chars_of, decimal, find_char, first_index_of, has_prefix, lemma_first_index_of, push_chars,
    push_decimal, push_str, slice_chars, starts_with, string_of,
};
use crate::value::{
    array_model, entries_model, find_key, key_index, lookup, obj_get, Entries, Json, Value,
};
use vstd::prelude::*;

verus! {

/// Whether a text looks like an absolute IRI: it begins with `http://` or
/// `https://`.
pub open spec fn is_iri_text(s: Seq<char>) -> bool {
    has_prefix(s, "http://"@) || has_prefix(s, "https://"@)
}

/// Whether a text looks like an absolute IRI.
pub fn is_iri(s: &str) -> (r: bool)
    ensures
        r == is_iri_text(s@),
{
    let sc = chars_of(s);
    starts_with(&sc, "http://") || starts_with(&sc, "https://")
}

/// The IRI of a property. An absolute IRI stands for itself. `prefix:local`
/// stands for the namespace of `schema`, `rdf` or `rdfs` followed by the
/// local part, and for itself with any other prefix. A name without a colon
/// stands in the default vocabulary, `http://example.org/`.
pub open spec fn property_iri(p: Seq<char>) -> Seq<char> {
    if is_iri_text(p) {
        p
    } else if p.contains(':') {
        let at = first_index_of(p, ':');
        let prefix = p.subrange(0, at);
        let local = p.subrange(at + 1, p.len() as int);
        if prefix == "schema"@ {
            "http://schema.org/"@ + local
        } else if prefix == "rdf"@ {
            "http://www.w3.org/1999/02/22-rdf-syntax-ns#"@ + local
        } else if prefix == "rdfs"@ {
            "http://www.w3.org/2000/01/rdf-schema#"@ + local
        } else {
            p
        }
    } else {
        "http://example.org/"@ + p
    }
}

/// Whether the scalar values of a vector are those of a text.
pub fn chars_are(s: &Vec<char>, t: &str) -> (r: bool)
    ensures
        r == (s@ == t@),
{
    let tc = chars_of(t);
    if tc.len() != s.len() {
        assert(s@.len() != t@.len());
        return false;
    }
    let mut i: usize = 0;
    while i < s.len()
        invariant
            i <= s.len(),
            tc.len() == s.len(),
            tc@ == t@,
            forall|j: int| 0 <= j < i ==> s[j] == tc[j],
        decreases s.len() - i,
    {
        if s[i] != tc[i] {
            assert(s@[i as int] != t@[i as int]);
            return false;
        }
        i += 1;
    }
    assert(s@ =~= tc@);
    true
}

/// The IRI of a property.
pub fn expand_property_iri_fast(property: &str) -> (r: String)
    ensures
        r@ == property_iri(property@),
{
    let p = chars_of(property);
    if starts_with(&p, "http://") || starts_with(&p, "https://") {
        return string_of(&p);
    }
    let at = find_char(&p, ':');
    proof {
        lemma_first_index_of(p@, ':');
        if at < p.len() {
            assert(p@.contains(':'));
        } else {
            if p@.contains(':') {
                let k = choose|k: int| 0 <= k < p@.len() && p@[k] == ':';
                assert(false);
            }
        }
    }
    if at < p.len() {
        let prefix = slice_chars(&p, 0, at);
        let local = slice_chars(&p, at + 1, p.len());
        let mut out: Vec<char> = Vec::new();
        if chars_are(&prefix, "schema") {
            push_str(&mut out, "http://schema.org/");
        } else if chars_are(&prefix, "rdf") {
            push_str(&mut out, "http://www.w3.org/1999/02/22-rdf-syntax-ns#");
        } else if chars_are(&prefix, "rdfs") {
            push_str(&mut out, "http://www.w3.org/2000/01/rdf-schema#");
        } else {
            return string_of(&p);
        }
        push_chars(&mut out, &local);
        assert(out@ =~= property_iri(property@));
        string_of(&out)
    } else {
        let mut out: Vec<char> = Vec::new();
        push_str(&mut out, "http://example.org/");
        push_chars(&mut out, &p);
        assert(out@ =~= property_iri(property@));
        string_of(&out)
    }
}

/// The IRI of the type of string literals.
pub open spec fn xsd_string() -> Seq<char> {
    "http://www.w3.org/2001/XMLSchema#string"@
}

/// The IRI of the type of integer literals.
pub open spec fn xsd_integer() -> Seq<char> {
    "http://www.w3.org/2001/XMLSchema#integer"@
}

/// The IRI of the type of floating-point literals.
pub open spec fn xsd_double() -> Seq<char> {
    "http://www.w3.org/2001/XMLSchema#double"@
}

/// The IRI of the type of boolean literals.
pub open spec fn xsd_boolean() -> Seq<char> {
    "http://www.w3.org/2001/XMLSchema#boolean"@
}

/// The IRI of the predicate that gives a node its type.
pub open spec fn rdf_type() -> Seq<char> {
    "http://www.w3.org/1999/02/22-rdf-syntax-ns#type"@
}

/// A literal with a datatype.
pub open spec fn typed_literal(value: Json, datatype: Seq<char>) -> Json {
    Json::Object(seq![("type"@, Json::Str(datatype)), ("value"@, value)])
}

/// A literal with a language tag.
pub open spec fn language_literal(value: Json, language: Seq<char>) -> Json {
    Json::Object(seq![("language"@, Json::Str(language)), ("value"@, value)])
}

/// The object of a triple for a value. A string that looks like an IRI is
/// that IRI, any other string a string literal; a number and a boolean are
/// literals of their text; an object is its `@id`, or the literal that its
/// `@value` makes with its `@language` or else its `@type`; anything else
/// is itself.
pub open spec fn rdf_object(v: Json) -> Json {
    match v {
        Json::Str(s) => if is_iri_text(s) {
            v
        } else {
            typed_literal(v, xsd_string())
        },
        Json::Number(n) => typed_literal(
            Json::Str(number_text(n)),
            if n is Float {
                xsd_double()
            } else {
                xsd_integer()
            },
        ),
        Json::Bool(b) => typed_literal(
            Json::Str(
                if b {
                    "true"@
                } else {
                    "false"@
                },
            ),
            xsd_boolean(),
        ),
        Json::Object(e) => match lookup(e, "@id"@) {
            Some(Json::Str(id)) => Json::Str(id),
            _ => match lookup(e, "@value"@) {
                Some(val) => match lookup(e, "@language"@) {
                    Some(Json::Str(lang)) => language_literal(val, lang),
                    _ => match lookup(e, "@type"@) {
                        Some(Json::Str(t)) => typed_literal(val, t),
                        _ => typed_literal(val, xsd_string()),
                    },
                },
                None => v,
            },
        },
        _ => v,
    }
}

/// A literal with a datatype.
pub fn make_typed_literal(value: Value, datatype: &str) -> (r: Value)
    ensures
        r@ == typed_literal(value@, datatype@),
{
    let entries = vec![("type".to_string(), Value::text(datatype)), ("value".to_string(), value)];
    assert(entries_model(entries@) =~= seq![("type"@, Json::Str(datatype@)), ("value"@, value@)]);
    Value::Object(entries)
}

/// A literal with a language tag.
pub fn make_language_literal(value: Value, language: &str) -> (r: Value)
    ensures
        r@ == language_literal(value@, language@),
{
    let entries = vec![
        ("language".to_string(), Value::text(language)),
        ("value".to_string(), value),
    ];
    assert(entries_model(entries@) =~= seq![
        ("language"@, Json::Str(language@)),
        ("value"@, value@),
    ]);
    Value::Object(entries)
}

/// The object of a triple for a value.
pub fn serialize_object_for_rdf(object: &Value) -> (r: Value)
    ensures
        r@ == rdf_object(object@),
{
    match object {
        Value::Str(s) => {
            if is_iri(s.as_str()) {
                object.deep_clone()
            } else {
                make_typed_literal(object.deep_clone(), "http://www.w3.org/2001/XMLSchema#string")
            }
        },
        Value::Number(n) => {
            let text = Value::Str(number_to_text(n));
            match n {
                crate::value::Number::Float(_) => make_typed_literal(
                    text,
                    "http://www.w3.org/2001/XMLSchema#double",
                ),
                _ => make_typed_literal(text, "http://www.w3.org/2001/XMLSchema#integer"),
            }
        },
        Value::Bool(b) => {
            let text = if *b {
                Value::text("true")
            } else {
                Value::text("false")
            };
            make_typed_literal(text, "http://www.w3.org/2001/XMLSchema#boolean")
        },
        Value::Object(obj) => {
            let ghost e = entries_model(obj@);
            match obj_get(obj, "@id") {
                Some(Value::Str(id)) => {
                    assert(lookup(e, "@id"@) == Some(Json::Str(id@)));
                    return Value::Str(id.clone());
                },
                Some(other) => {
                    assert(lookup(e, "@id"@) == Some(other@));
                    assert(!(other@ is Str));
                },
                None => {},
            }
            match obj_get(obj, "@value") {
                Some(val) => {
                    match obj_get(obj, "@language") {
                        Some(Value::Str(lang)) => {
                            assert(lookup(e, "@language"@) == Some(Json::Str(lang@)));
                            return make_language_literal(val.deep_clone(), lang.as_str());
                        },
                        Some(other) => {
                            assert(lookup(e, "@language"@) == Some(other@));
                            assert(!(other@ is Str));
                        },
                        None => {},
                    }
                    match obj_get(obj, "@type") {
                        Some(Value::Str(t)) => {
                            assert(lookup(e, "@type"@) == Some(Json::Str(t@)));
                            make_typed_literal(val.deep_clone(), t.as_str())
                        },
                        Some(other) => {
                            assert(lookup(e, "@type"@) == Some(other@));
                            assert(!(other@ is Str));
                            make_typed_literal(
                                val.deep_clone(),
                                "http://www.w3.org/2001/XMLSchema#string",
                            )
                        },
                        None => make_typed_literal(
                            val.deep_clone(),
                            "http://www.w3.org/2001/XMLSchema#string",
                        ),
                    }
                },
                None => object.deep_clone(),
            }
        },
        _ => object.deep_clone(),
    }
}

/// A triple as a document.
pub open spec fn triple(subject: Seq<char>, predicate: Seq<char>, object: Json) -> Json {
    Json::Object(
        seq![
            ("object"@, object),
            ("predicate"@, Json::Str(predicate)),
            ("subject"@, Json::Str(subject)),
        ],
    )
}

/// A triple as a document.
pub fn make_triple(subject: &str, predicate: &str, object: Value) -> (r: Value)
    ensures
        r@ == triple(subject@, predicate@, object@),
{
    let entries = vec![
        ("object".to_string(), object),
        ("predicate".to_string(), Value::text(predicate)),
        ("subject".to_string(), Value::text(subject)),
    ];
    assert(entries_model(entries@) =~= seq![
        ("object"@, object@),
        ("predicate"@, Json::Str(predicate@)),
        ("subject"@, Json::Str(subject@)),
    ]);
    Value::Object(entries)
}

/// The identifier of the blank node that stands for an object without an
/// `@id`: `_:h` and the numeral of the structural hash of the object, so
/// that two objects with the same content have the same identifier.
pub open spec fn blank_node_id(node: Json) -> Seq<char> {
    "_:h"@ + decimal(content_hash(node) as nat)
}

/// The identifier of the blank node that stands for an object.
pub fn make_blank_node_id(node: &Value) -> (r: String)
    ensures
        r@ == blank_node_id(node@),
{
    let mut out: Vec<char> = Vec::new();
    push_str(&mut out, "_:h");
    push_decimal(&mut out, compute_value_hash_fast(node));
    assert(out@ =~= blank_node_id(node@));
    string_of(&out)
}

/// The subject that stands for an object: its `@id` where that is a
/// string, else its blank node.
pub open spec fn subject_of(e: Entries) -> Seq<char> {
    match lookup(e, "@id"@) {
        Some(Json::Str(id)) => id,
        _ => blank_node_id(Json::Object(e)),
    }
}

/// Whether a key is a keyword: it begins with `@`.
pub open spec fn is_keyword(key: Seq<char>) -> bool {
    key.len() > 0 && key[0] == '@'
}

/// The triples that give a subject its types, from the items at `i` on of
/// an array of types: one for each string.
pub open spec fn type_triples(subject: Seq<char>, types: Seq<Json>, i: int) -> Seq<Json>
    decreases types.len() - i,
{
    if i < 0 || i >= types.len() {
        Seq::empty()
    } else {
        match types[i] {
            Json::Str(t) => seq![triple(subject, rdf_type(), Json::Str(property_iri(t)))]
                + type_triples(subject, types, i + 1),
            _ => type_triples(subject, types, i + 1),
        }
    }
}

/// The triples that give a subject its types, for the value of `@type`.
pub open spec fn types_of(subject: Seq<char>, t: Option<Json>) -> Seq<Json> {
    match t {
        Some(Json::Array(types)) => type_triples(subject, types, 0),
        Some(Json::Str(ts)) => seq![triple(subject, rdf_type(), Json::Str(property_iri(ts)))],
        _ => Seq::empty(),
    }
}

/// The triples of a node and the subject that stands for it. An object is
/// a subject: it has its types, and for every key that is no keyword, in
/// key order, the triples of the value under it, or of each item where the
/// value is an array. An array has the triples of its items and stands for
/// what its last item stands for. Anything else has no triples and stands
/// for the hint.
pub open spec fn node_triples(node: Json, hint: Option<Seq<char>>) -> (Seq<Json>, Option<Seq<char>>)
    decreases node, 0nat,
{
    match node {
        Json::Object(e) => {
            let subject = subject_of(e);
            (
                types_of(subject, lookup(e, "@type"@)) + entry_triples(subject, e, 0),
                Some(subject),
            )
        },
        Json::Array(items) => items_triples(items, 0, hint),
        _ => (Seq::empty(), hint),
    }
}

/// The triples of the items of an array from position `i` on, and what the
/// last of them stands for: nothing for an array without items.
pub open spec fn items_triples(items: Seq<Json>, i: int, hint: Option<Seq<char>>) -> (
    Seq<Json>,
    Option<Seq<char>>,
)
    decreases items, items.len() - i,
{
    if i < 0 || i >= items.len() {
        (Seq::empty(), None)
    } else {
        let (mine, subject) = node_triples(items[i], hint);
        if i == items.len() - 1 {
            (mine, subject)
        } else {
            let (rest, last) = items_triples(items, i + 1, hint);
            (mine + rest, last)
        }
    }
}

/// The triples of a subject for the entries of its object from position
/// `i` on.
pub open spec fn entry_triples(subject: Seq<char>, e: Entries, i: int) -> Seq<Json>
    decreases e, e.len() - i,
{
    if i < 0 || i >= e.len() {
        Seq::empty()
    } else if is_keyword(e[i].0) {
        entry_triples(subject, e, i + 1)
    } else {
        let predicate = property_iri(e[i].0);
        (match e[i].1 {
            Json::Array(items) => values_triples(subject, predicate, items, 0),
            other => value_triples(subject, predicate, other),
        }) + entry_triples(subject, e, i + 1)
    }
}

/// The triples of a subject and a predicate for the items of an array from
/// position `i` on.
pub open spec fn values_triples(subject: Seq<char>, predicate: Seq<char>, items: Seq<Json>, i: int) -> Seq<Json>
    decreases items, items.len() - i,
{
    if i < 0 || i >= items.len() {
        Seq::empty()
    } else {
        value_triples(subject, predicate, items[i]) + values_triples(
            subject,
            predicate,
            items,
            i + 1,
        )
    }
}

/// The triples of a subject and a predicate for one value. An object with
/// an `@id` or an `@value`, a string, a number and a boolean are the object
/// of one triple. An object with an `@set` gives the triples of the items
/// of the set, as the bare array does. Any other object is a node of its
/// own: its triples come first, then the triple that links the subject to
/// it. Null and an array give no triple.
pub open spec fn value_triples(subject: Seq<char>, predicate: Seq<char>, value: Json) -> Seq<Json>
    decreases value, 1nat,
{
    match value {
        Json::Object(e) => match lookup(e, "@id"@) {
            Some(Json::Str(id)) => seq![triple(subject, predicate, Json::Str(id))],
            _ => if lookup(e, "@value"@) is Some {
                seq![triple(subject, predicate, rdf_object(value))]
            } else {
                match key_index(e, "@set"@) {
                    Some(at) => if 0 <= at < e.len() {
                        match e[at].1 {
                            Json::Array(items) => values_triples(subject, predicate, items, 0),
                            other => value_triples(subject, predicate, other),
                        }
                    } else {
                        Seq::empty()
                    },
                    None => node_triples(value, None).0 + seq![
                        triple(subject, predicate, Json::Str(subject_of(e))),
                    ],
                }
            },
        },
        Json::Str(s) => seq![triple(subject, predicate, rdf_object(value))],
        Json::Number(_) => seq![triple(subject, predicate, rdf_object(value))],
        Json::Bool(_) => seq![triple(subject, predicate, rdf_object(value))],
        _ => Seq::empty(),
    }
}

/// The model of a text that may be missing.
pub open spec fn text_model(t: Option<String>) -> Option<Seq<char>> {
    match t {
        Some(s) => Some(s@),
        None => None,
    }
}

/// A copy of a text that may be missing.
pub fn clone_text(t: &Option<String>) -> (r: Option<String>)
    ensures
        text_model(r) == text_model(*t),
{
    match t {
        Some(s) => Some(s.clone()),
        None => None,
    }
}

/// Whether a key begins with `@`.
pub fn key_is_keyword(key: &str) -> (r: bool)
    ensures
        r == is_keyword(key@),
{
    let k = chars_of(key);
    k.len() > 0 && k[0] == '@'
}

/// The subject that stands for an object, given as the node and as its
/// entries.
fn subject_for(node: &Value, obj: &Vec<(String, Value)>) -> (r: String)
    requires
        node@ == Json::Object(entries_model(obj@)),
    ensures
        r@ == subject_of(entries_model(obj@)),
{
    let ghost e = entries_model(obj@);
    match obj_get(obj, "@id") {
        Some(Value::Str(id)) => {
            assert(lookup(e, "@id"@) == Some(Json::Str(id@)));
            id.clone()
        },
        Some(other) => {
            assert(lookup(e, "@id"@) == Some(other@));
            assert(!(other@ is Str));
            make_blank_node_id(node)
        },
        None => make_blank_node_id(node),
    }
}

/// Appends the triples that give a subject its types.
#[verifier::loop_isolation(false)]
pub fn push_type_triples(subject: &str, obj: &Vec<(String, Value)>, triples: &mut Vec<Value>)
    ensures
        array_model(final(triples)@) == array_model(old(triples)@) + types_of(
            subject@,
            lookup(entries_model(obj@), "@type"@),
        ),
{
    let ghost start = array_model(triples@);
    let ghost e = entries_model(obj@);
    let rdf_type_iri = "http://www.w3.org/1999/02/22-rdf-syntax-ns#type";
    match obj_get(obj, "@type") {
        Some(Value::Array(types)) => {
            assert(lookup(e, "@type"@) == Some(Json::Array(array_model(types@))));
            let ghost list = array_model(types@);
            let mut k: usize = 0;
            while k < types.len()
                invariant
                    k <= types.len(),
                    list == array_model(types@),
                    array_model(triples@) + type_triples(subject@, list, k as int) == start
                        + type_triples(subject@, list, 0),
                decreases types.len() - k,
            {
                let ghost before = array_model(triples@);
                assert(list[k as int] == types[k as int]@);
                match &types[k] {
                    Value::Str(ts) => {
                        let t = make_triple(
                            subject,
                            rdf_type_iri,
                            Value::Str(expand_property_iri_fast(ts.as_str())),
                        );
                        triples.push(t);
                        proof {
                            let next = type_triples(subject@, list, k + 1);
                            assert(list[k as int] == Json::Str(ts@));
                            assert(array_model(triples@) =~= before + seq![t@]);
                            assert(before + (seq![t@] + next) =~= (before + seq![t@]) + next);
                        }
                    },
                    _ => {
                        assert(!(list[k as int] is Str));
                    },
                }
                k += 1;
            }
            assert(array_model(triples@) + Seq::<Json>::empty() =~= array_model(triples@));
        },
        Some(Value::Str(ts)) => {
            assert(lookup(e, "@type"@) == Some(Json::Str(ts@)));
            let t = make_triple(
                subject,
                rdf_type_iri,
                Value::Str(expand_property_iri_fast(ts.as_str())),
            );
            triples.push(t);
            assert(array_model(triples@) =~= start + seq![t@]);
        },
        Some(other) => {
            assert(lookup(e, "@type"@) == Some(other@));
            assert(!(other@ is Str) && !(other@ is Array));
            assert(start + Seq::<Json>::empty() =~= start);
        },
        None => {
            assert(start + Seq::<Json>::empty() =~= start);
        },
    }
}

/// Appends the triples of a subject for the entries of its object.
#[verifier::loop_isolation(false)]
pub fn push_entry_triples(subject: &str, obj: &Vec<(String, Value)>, triples: &mut Vec<Value>)
    ensures
        array_model(final(triples)@) == array_model(old(triples)@) + entry_triples(
            subject@,
            entries_model(obj@),
            0,
        ),
    decreases obj, 2nat,
{
    let ghost start = array_model(triples@);
    let ghost e = entries_model(obj@);
    let mut i: usize = 0;
    while i < obj.len()
        invariant
            i <= obj.len(),
            array_model(triples@) + entry_triples(subject@, e, i as int) == start + entry_triples(
                subject@,
                e,
                0,
            ),
        decreases obj.len() - i,
    {
        let ghost before = array_model(triples@);
        let ghost next = entry_triples(subject@, e, i + 1);
        if !key_is_keyword(obj[i].0.as_str()) {
            let pred = expand_property_iri_fast(obj[i].0.as_str());
            match &obj[i].1 {
                Value::Array(items) => {
                    assert(e[i as int].1 == Json::Array(array_model(items@)));
                    push_values_triples(subject, pred.as_str(), items, triples);
                    proof {
                        let all = values_triples(subject@, pred@, array_model(items@), 0);
                        assert(before + (all + next) =~= (before + all) + next);
                    }
                },
                other => {
                    assert(!(e[i as int].1 is Array));
                    emit_triple_for_value(subject, pred.as_str(), other, triples);
                    proof {
                        let one = value_triples(subject@, pred@, e[i as int].1);
                        assert(before + (one + next) =~= (before + one) + next);
                    }
                },
            }
        }
        i += 1;
    }
    assert(array_model(triples@) + Seq::<Json>::empty() =~= array_model(triples@));
}

/// Appends the triples of a subject and a predicate for the items of an
/// array.
#[verifier::loop_isolation(false)]
pub fn push_values_triples(subject: &str, pred: &str, items: &Vec<Value>, triples: &mut Vec<Value>)
    ensures
        array_model(final(triples)@) == array_model(old(triples)@) + values_triples(
            subject@,
            pred@,
            array_model(items@),
            0,
        ),
    decreases items, 2nat,
{
    let ghost start = array_model(triples@);
    let ghost list = array_model(items@);
    let mut k: usize = 0;
    while k < items.len()
        invariant
            k <= items.len(),
            array_model(triples@) + values_triples(subject@, pred@, list, k as int) == start
                + values_triples(subject@, pred@, list, 0),
        decreases items.len() - k,
    {
        let ghost prev = array_model(triples@);
        emit_triple_for_value(subject, pred, &items[k], triples);
        proof {
            let one = value_triples(subject@, pred@, list[k as int]);
            let more = values_triples(subject@, pred@, list, k + 1);
            assert(prev + (one + more) =~= (prev + one) + more);
        }
        k += 1;
    }
    assert(array_model(triples@) + Seq::<Json>::empty() =~= array_model(triples@));
}

/// Appends the triples of a node to `triples`, and returns the subject
/// that stands for the node.
#[verifier::loop_isolation(false)]
pub fn extract_triples_node_fast(node: &Value, subject_hint: Option<String>, triples: &mut Vec<Value>) -> (r: Option<String>)
    ensures
        array_model(final(triples)@) == array_model(old(triples)@) + node_triples(
            node@,
            text_model(subject_hint),
        ).0,
        text_model(r) == node_triples(node@, text_model(subject_hint)).1,
    decreases node, 0nat,
{
    let ghost start = array_model(triples@);
    let ghost hint = text_model(subject_hint);
    match node {
        Value::Object(obj) => {
            let ghost e = entries_model(obj@);
            let subject = subject_for(node, obj);
            push_type_triples(subject.as_str(), obj, triples);
            push_entry_triples(subject.as_str(), obj, triples);
            proof {
                let t = types_of(subject@, lookup(e, "@type"@));
                let all = entry_triples(subject@, e, 0);
                assert((start + t) + all =~= start + (t + all));
            }
            Some(subject)
        },
        Value::Array(arr) => {
            let ghost items = array_model(arr@);
            let mut last: Option<String> = None;
            let mut i: usize = 0;
            assert(start + Seq::<Json>::empty() =~= start);
            while i < arr.len()
                invariant
                    i <= arr.len(),
                    hint == text_model(subject_hint),
                    i < arr.len() ==> array_model(triples@) + items_triples(
                        items,
                        i as int,
                        hint,
                    ).0 == start + items_triples(items, 0, hint).0,
                    i < arr.len() ==> items_triples(items, i as int, hint).1 == items_triples(
                        items,
                        0,
                        hint,
                    ).1,
                    i == arr.len() ==> array_model(triples@) == start + items_triples(
                        items,
                        0,
                        hint,
                    ).0,
                    i == arr.len() ==> text_model(last) == items_triples(items, 0, hint).1,
                decreases arr.len() - i,
            {
                let ghost before = array_model(triples@);
                last = extract_triples_node_fast(&arr[i], clone_text(&subject_hint), triples);
                proof {
                    let mine = node_triples(items[i as int], hint).0;
                    if i + 1 < arr.len() {
                        let rest = items_triples(items, i + 1, hint).0;
                        assert(before + (mine + rest) =~= (before + mine) + rest);
                    }
                }
                i += 1;
            }
            last
        },
        _ => {
            assert(start + Seq::<Json>::empty() =~= start);
            subject_hint
        },
    }
}

/// Appends the triples of a subject and a predicate for one value.
pub fn emit_triple_for_value(subject: &str, pred: &str, value: &Value, triples: &mut Vec<Value>)
    ensures
        array_model(final(triples)@) == array_model(old(triples)@) + value_triples(
            subject@,
            pred@,
            value@,
        ),
    decreases value, 1nat,
{
    let ghost start = array_model(triples@);
    match value {
        Value::Object(obj) => {
            let ghost e = entries_model(obj@);
            match obj_get(obj, "@id") {
                Some(Value::Str(id)) => {
                    assert(lookup(e, "@id"@) == Some(Json::Str(id@)));
                    let t = make_triple(subject, pred, Value::Str(id.clone()));
                    triples.push(t);
                    assert(array_model(triples@) =~= start + seq![t@]);
                    return;
                },
                Some(other) => {
                    assert(lookup(e, "@id"@) == Some(other@));
                    assert(!(other@ is Str));
                },
                None => {},
            }
            let has_value = match obj_get(obj, "@value") {
                Some(_) => true,
                None => false,
            };
            if has_value {
                let t = make_triple(subject, pred, serialize_object_for_rdf(value));
                triples.push(t);
                assert(array_model(triples@) =~= start + seq![t@]);
            } else {
                match find_key(obj, "@set") {
                    Some(at) => match &obj[at].1 {
                        Value::Array(items) => {
                            assert(e[at as int].1 == Json::Array(array_model(items@)));
                            push_values_triples(subject, pred, items, triples);
                        },
                        other => {
                            assert(e[at as int].1 == other@);
                            assert(!(other@ is Array));
                            emit_triple_for_value(subject, pred, other, triples);
                        },
                    },
                    None => {
                        let nested = extract_triples_node_fast(value, None, triples);
                        let ghost middle = array_model(triples@);
                        let nested_id = match nested {
                            Some(id) => id,
                            None => String::new(),
                        };
                        let t = make_triple(subject, pred, Value::Str(nested_id));
                        triples.push(t);
                        proof {
                            let inner = node_triples(value@, None).0;
                            assert(array_model(triples@) =~= middle + seq![t@]);
                            assert((start + inner) + seq![t@] =~= start + (inner + seq![t@]));
                        }
                    },
                }
            }
        },
        Value::Str(_) => {
            let t = make_triple(subject, pred, serialize_object_for_rdf(value));
            triples.push(t);
            assert(array_model(triples@) =~= start + seq![t@]);
        },
        Value::Number(_) => {
            let t = make_triple(subject, pred, serialize_object_for_rdf(value));
            triples.push(t);
            assert(array_model(triples@) =~= start + seq![t@]);
        },
        Value::Bool(_) => {
            let t = make_triple(subject, pred, serialize_object_for_rdf(value));
            triples.push(t);
            assert(array_model(triples@) =~= start + seq![t@]);
        },
        _ => {
            assert(start + Seq::<Json>::empty() =~= start);
        },
    }
}

} // verus!
