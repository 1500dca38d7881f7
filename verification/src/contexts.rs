//! The context mappings of a document, their difference, and how a
//! difference is applied.

use crate::delta::{make_change, change};
use crate::json_text::{json_text, to_json_text};
use crate::key_set::{key_set_contains, key_set_of, keys_in};
use crate::value::{
    array_model, entries_model, insert_entry, json_get, key_index, lookup, obj_get, obj_insert,
    Entries, Json, Value,
};
use crate::patch::clone_entries;
use vstd::prelude::*;

verus! {

/// The context of a document: the entries of its `@context` where that is
/// an object, else none.
pub open spec fn context_of(doc: Json) -> Entries {
    match json_get(doc, "@context"@) {
        Some(Json::Object(c)) => c,
        _ => Seq::empty(),
    }
}

/// The context of a document.
pub fn extract_context_fast(document: &Value) -> (r: Vec<(String, Value)>)
    ensures
        entries_model(r@) == context_of(document@),
{
    match document.get("@context") {
        Some(Value::Object(context)) => {
            assert(json_get(document@, "@context"@) == Some(Json::Object(entries_model(context@))));
            clone_entries(context)
        },
        Some(other) => {
            assert(json_get(document@, "@context"@) == Some(other@));
            assert(!(other@ is Object));
            let empty: Vec<(String, Value)> = Vec::new();
            assert(entries_model(empty@) =~= Seq::empty());
            empty
        },
        None => {
            let empty: Vec<(String, Value)> = Vec::new();
            assert(entries_model(empty@) =~= Seq::empty());
            empty
        },
    }
}

/// What a term of a context maps to, as a text: a string is itself, any
/// other value its JSON text.
pub open spec fn flat(v: Json) -> Seq<char> {
    match v {
        Json::Str(s) => s,
        _ => json_text(v),
    }
}

/// The terms of a context with the texts they map to, in order.
pub open spec fn flattened(ctx: Entries) -> Seq<(Seq<char>, Seq<char>)> {
    Seq::new(ctx.len(), |i: int| (ctx[i].0, flat(ctx[i].1)))
}

/// What a value maps to, as a text.
pub fn flatten_value(v: &Value) -> (r: String)
    ensures
        r@ == flat(v@),
{
    match v {
        Value::Str(s) => s.clone(),
        _ => to_json_text(v),
    }
}

/// The terms of a context with the texts they map to.
pub fn flatten_context_fast(ctx: &Vec<(String, Value)>) -> (r: Vec<(String, String)>)
    ensures
        crate::options::pairs_model(r@) == flattened(entries_model(ctx@)),
{
    let mut out: Vec<(String, String)> = Vec::new();
    let mut i: usize = 0;
    while i < ctx.len()
        invariant
            i <= ctx.len(),
            out.len() == i,
            forall|j: int|
                0 <= j < i ==> (#[trigger] out[j]).0@ == ctx[j].0@ && out[j].1@ == flat(ctx[j].1@),
        decreases ctx.len() - i,
    {
        out.push((ctx[i].0.clone(), flatten_value(&ctx[i].1)));
        i += 1;
    }
    assert(crate::options::pairs_model(out@) =~= flattened(entries_model(ctx@)));
    out
}

/// The mappings `acc` with those of `from` from position `i` on whose term
/// `other` does not have, each as the text it maps to.
pub open spec fn only_in(from: Entries, other: Entries, i: int, acc: Entries) -> Entries
    decreases from.len() - i,
{
    if i < 0 || i >= from.len() {
        acc
    } else if key_index(other, from[i].0) is None {
        only_in(from, other, i + 1, insert_entry(acc, from[i].0, Json::Str(flat(from[i].1))))
    } else {
        only_in(from, other, i + 1, acc)
    }
}

/// The mappings `acc` with those of the old context from position `i` on
/// whose term the new context maps to another text: the old text and the
/// new one.
pub open spec fn changed_in(old_ctx: Entries, new_ctx: Entries, i: int, acc: Entries) -> Entries
    decreases old_ctx.len() - i,
{
    if i < 0 || i >= old_ctx.len() {
        acc
    } else {
        match lookup(new_ctx, old_ctx[i].0) {
            Some(v) => if flat(old_ctx[i].1) != flat(v) {
                changed_in(
                    old_ctx,
                    new_ctx,
                    i + 1,
                    insert_entry(
                        acc,
                        old_ctx[i].0,
                        change(Json::Str(flat(old_ctx[i].1)), Json::Str(flat(v))),
                    ),
                )
            } else {
                changed_in(old_ctx, new_ctx, i + 1, acc)
            },
            None => changed_in(old_ctx, new_ctx, i + 1, acc),
        }
    }
}

/// What a context holds under a key, or null.
pub open spec fn value_or_null(v: Option<Json>) -> Json {
    match v {
        Some(x) => x,
        None => Json::Null,
    }
}

/// The difference of the contexts of two documents: the mappings of the
/// new one alone, those of the old one alone, those that map to another
/// text, and the two bases.
pub open spec fn context_changes(old: Json, new: Json) -> Json {
    let a = context_of(old);
    let b = context_of(new);
    Json::Object(
        seq![
            ("added_mappings"@, Json::Object(only_in(b, a, 0, Seq::empty()))),
            (
                "base_changes"@,
                Json::Array(
                    seq![value_or_null(lookup(a, "@base"@)), value_or_null(lookup(b, "@base"@))],
                ),
            ),
            ("changed_mappings"@, Json::Object(changed_in(a, b, 0, Seq::empty()))),
            ("removed_mappings"@, Json::Object(only_in(a, b, 0, Seq::empty()))),
        ],
    )
}

/// The difference of two contexts that were not compared: no mapping, and
/// no base.
pub open spec fn no_context_changes() -> Json {
    Json::Object(
        seq![
            ("added_mappings"@, Json::Object(Seq::empty())),
            ("base_changes"@, Json::Array(seq![Json::Null, Json::Null])),
            ("changed_mappings"@, Json::Object(Seq::empty())),
            ("removed_mappings"@, Json::Object(Seq::empty())),
        ],
    )
}

/// The mappings of `from` whose term `other` does not have: those whose
/// term is not in the set of the terms of `other`.
pub fn mappings_only_in(from: &Vec<(String, Value)>, other: &Vec<(String, Value)>) -> (r: Vec<(String, Value)>)
    ensures
        entries_model(r@) == only_in(entries_model(from@), entries_model(other@), 0, Seq::empty()),
{
    let ghost a = entries_model(from@);
    let ghost b = entries_model(other@);
    let other_keys = key_set_of(other);
    let mut out: Vec<(String, Value)> = Vec::new();
    assert(entries_model(out@) =~= Seq::empty());
    let mut i: usize = 0;
    while i < from.len()
        invariant
            i <= from.len(),
            a == entries_model(from@),
            b == entries_model(other@),
            forall|k: Seq<char>| keys_in(other_keys).contains(k) <==> #[trigger] key_index(b, k) is Some,
            only_in(a, b, i as int, entries_model(out@)) == only_in(a, b, 0, Seq::empty()),
        decreases from.len() - i,
    {
        assert(a[i as int].0 == from[i as int].0@);
        if !key_set_contains(&other_keys, from[i].0.as_str()) {
            assert(key_index(b, a[i as int].0) is None);
            obj_insert(&mut out, from[i].0.clone(), Value::Str(flatten_value(&from[i].1)));
        } else {
            assert(key_index(b, a[i as int].0) is Some);
        }
        i += 1;
    }
    out
}

/// What the entries hold under a key, or null.
pub fn get_or_null(entries: &Vec<(String, Value)>, key: &str) -> (r: Value)
    ensures
        r@ == value_or_null(lookup(entries_model(entries@), key@)),
{
    match obj_get(entries, key) {
        Some(v) => v.deep_clone(),
        None => Value::Null,
    }
}

/// The difference of the contexts of two documents.
pub fn compare_contexts_fast(old_doc: &Value, new_doc: &Value) -> (r: Value)
    ensures
        r@ == context_changes(old_doc@, new_doc@),
{
    let old_context = extract_context_fast(old_doc);
    let new_context = extract_context_fast(new_doc);
    let ghost a = entries_model(old_context@);
    let ghost b = entries_model(new_context@);
    let added = mappings_only_in(&new_context, &old_context);
    let removed = mappings_only_in(&old_context, &new_context);
    let mut changed: Vec<(String, Value)> = Vec::new();
    assert(entries_model(changed@) =~= Seq::empty());
    let mut i: usize = 0;
    while i < old_context.len()
        invariant
            i <= old_context.len(),
            a == entries_model(old_context@),
            b == entries_model(new_context@),
            changed_in(a, b, i as int, entries_model(changed@)) == changed_in(
                a,
                b,
                0,
                Seq::empty(),
            ),
        decreases old_context.len() - i,
    {
        match obj_get(&new_context, old_context[i].0.as_str()) {
            Some(v) => {
                let old_text = flatten_value(&old_context[i].1);
                let new_text = flatten_value(v);
                if !(old_text == new_text) {
                    obj_insert(
                        &mut changed,
                        old_context[i].0.clone(),
                        make_change(Value::Str(old_text), Value::Str(new_text)),
                    );
                }
            },
            None => {},
        }
        i += 1;
    }
    let bases = vec![get_or_null(&old_context, "@base"), get_or_null(&new_context, "@base")];
    assert(array_model(bases@) =~= seq![
        value_or_null(lookup(a, "@base"@)),
        value_or_null(lookup(b, "@base"@)),
    ]);
    let entries = vec![
        ("added_mappings".to_string(), Value::Object(added)),
        ("base_changes".to_string(), Value::Array(bases)),
        ("changed_mappings".to_string(), Value::Object(changed)),
        ("removed_mappings".to_string(), Value::Object(removed)),
    ];
    assert(entries_model(entries@) =~= seq![
        ("added_mappings"@, Json::Object(only_in(b, a, 0, Seq::empty()))),
        (
            "base_changes"@,
            Json::Array(
                seq![value_or_null(lookup(a, "@base"@)), value_or_null(lookup(b, "@base"@))],
            ),
        ),
        ("changed_mappings"@, Json::Object(changed_in(a, b, 0, Seq::empty()))),
        ("removed_mappings"@, Json::Object(only_in(a, b, 0, Seq::empty()))),
    ]);
    Value::Object(entries)
}

/// The difference of two contexts that were not compared.
pub fn make_no_context_changes() -> (r: Value)
    ensures
        r@ == no_context_changes(),
{
    let bases = vec![Value::Null, Value::Null];
    assert(array_model(bases@) =~= seq![Json::Null, Json::Null]);
    let entries = vec![
        ("added_mappings".to_string(), Value::empty_object()),
        ("base_changes".to_string(), Value::Array(bases)),
        ("changed_mappings".to_string(), Value::empty_object()),
        ("removed_mappings".to_string(), Value::empty_object()),
    ];
    assert(entries_model(entries@) =~= seq![
        ("added_mappings"@, Json::Object(Seq::empty())),
        ("base_changes"@, Json::Array(seq![Json::Null, Json::Null])),
        ("changed_mappings"@, Json::Object(Seq::empty())),
        ("removed_mappings"@, Json::Object(Seq::empty())),
    ]);
    Value::Object(entries)
}

} // verus!
