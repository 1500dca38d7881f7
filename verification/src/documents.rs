//! Helpers on whole documents: merging, pruning, flattening, compacting,
//! framing and matching.

use crate::value::{
    array_model, entries_model, find_key, insert_entry, lookup, obj_get, obj_insert, same_model,
    Entries, Json, Value,
};
use crate::text::{chars_of, slice_chars, string_of};
use vstd::prelude::*;

verus! {

/// The target merged with the source. Two objects merge key by key: a key
/// of both merges its two values, a key of the source alone is taken over.
/// Any other target stays as it is.
pub open spec fn merged(target: Json, source: Json) -> Json
    decreases source, 0nat,
{
    match (target, source) {
        (Json::Object(t), Json::Object(s)) => Json::Object(merged_entries(t, s, 0)),
        _ => target,
    }
}

/// The entries of the target merged with those of the source from position
/// `i` on.
pub open spec fn merged_entries(t: Entries, s: Entries, i: int) -> Entries
    decreases s, s.len() - i,
{
    if i < 0 || i >= s.len() {
        t
    } else {
        merged_entries(
            match lookup(t, s[i].0) {
                Some(existing) => insert_entry(t, s[i].0, merged(existing, s[i].1)),
                None => insert_entry(t, s[i].0, s[i].1),
            },
            s,
            i + 1,
        )
    }
}

/// Merges the source into the target.
#[verifier::loop_isolation(false)]
pub fn merge_json(target: &mut Value, source: &Value)
    ensures
        final(target)@ == merged(old(target)@, source@),
    decreases source,
{
    match source {
        Value::Object(source_obj) => {
            let ghost s = entries_model(source_obj@);
            match target {
                Value::Object(target_obj) => {
                    let ghost start = entries_model(target_obj@);
                    let mut i: usize = 0;
                    while i < source_obj.len()
                        invariant
                            i <= source_obj.len(),
                            merged_entries(entries_model(target_obj@), s, i as int)
                                == merged_entries(start, s, 0),
                        decreases source_obj.len() - i,
                    {
                        let key = &source_obj[i].0;
                        let value = &source_obj[i].1;
                        let ghost before = entries_model(target_obj@);
                        match find_key(target_obj, key.as_str()) {
                            Some(k) => {
                                merge_json(&mut target_obj[k].1, value);
                                assert(entries_model(target_obj@) =~= before.update(
                                    k as int,
                                    (before[k as int].0, merged(before[k as int].1, value@)),
                                ));
                                proof {
                                    crate::value::lemma_key_index_from(before, key@, 0);
                                    assert(before[k as int].0 == key@);
                                }
                            },
                            None => {
                                obj_insert(target_obj, key.clone(), value.deep_clone());
                            },
                        }
                        i += 1;
                    }
                },
                _ => {},
            }
        },
        _ => {},
    }
}

/// The empty object with the documents from position `i` on merged into
/// `acc`, one after the other.
pub open spec fn merged_all(docs: Seq<Json>, i: int, acc: Json) -> Json
    decreases docs.len() - i,
{
    if i < 0 || i >= docs.len() {
        acc
    } else {
        merged_all(docs, i + 1, merged(acc, docs[i]))
    }
}

/// The merge of the documents into an empty object, one after the other.
pub fn merge_documents(documents: &Vec<Value>) -> (r: Value)
    ensures
        r@ == merged_all(array_model(documents@), 0, Json::Object(Seq::empty())),
{
    let ghost docs = array_model(documents@);
    let mut result = Value::empty_object();
    let mut i: usize = 0;
    while i < documents.len()
        invariant
            i <= documents.len(),
            docs == array_model(documents@),
            merged_all(docs, i as int, result@) == merged_all(docs, 0, Json::Object(Seq::empty())),
        decreases documents.len() - i,
    {
        assert(documents[i as int]@ == docs[i as int]);
        merge_json(&mut result, &documents[i]);
        i += 1;
    }
    result
}

/// A document without the null values of its objects: an object loses its
/// entries with the value null and keeps the others pruned; an array keeps
/// its items pruned.
pub open spec fn pruned(v: Json) -> Json
    decreases v, 0nat,
{
    match v {
        Json::Object(e) => Json::Object(pruned_entries(e, 0)),
        Json::Array(items) => Json::Array(pruned_items(items)),
        _ => v,
    }
}

/// The entries from position `i` on that are not null, pruned.
pub open spec fn pruned_entries(e: Entries, i: int) -> Entries
    decreases e, e.len() - i,
{
    if i < 0 || i >= e.len() {
        Seq::empty()
    } else if e[i].1 is Null {
        pruned_entries(e, i + 1)
    } else {
        seq![(e[i].0, pruned(e[i].1))] + pruned_entries(e, i + 1)
    }
}

/// The items of an array, pruned.
pub open spec fn pruned_items(items: Seq<Json>) -> Seq<Json>
    decreases items, 0nat,
{
    Seq::new(items.len(), |i: int| if 0 <= i < items.len() { pruned(items[i]) } else { Json::Null })
}

/// Takes the null values of its objects out of the document.
pub fn optimize_json(value: &mut Value)
    ensures
        final(value)@ == pruned(old(value)@),
{
    let r = pruned_copy(value);
    *value = r;
}

/// A copy of the document without the null values of its objects.
#[verifier::loop_isolation(false)]
pub fn pruned_copy(value: &Value) -> (r: Value)
    ensures
        r@ == pruned(value@),
    decreases value,
{
    match value {
        Value::Object(obj) => {
            let ghost e = entries_model(obj@);
            let mut out: Vec<(String, Value)> = Vec::new();
            assert(entries_model(out@) =~= Seq::empty());
            let mut i: usize = 0;
            while i < obj.len()
                invariant
                    i <= obj.len(),
                    entries_model(out@) + pruned_entries(e, i as int) == pruned_entries(e, 0),
                decreases obj.len() - i,
            {
                let ghost before = entries_model(out@);
                let is_null = match &obj[i].1 {
                    Value::Null => true,
                    _ => false,
                };
                if !is_null {
                    let child = pruned_copy(&obj[i].1);
                    out.push((obj[i].0.clone(), child));
                    proof {
                        let one = seq![(e[i as int].0, pruned(e[i as int].1))];
                        let next = pruned_entries(e, i + 1);
                        assert(entries_model(out@) =~= before + one);
                        assert(before + (one + next) =~= (before + one) + next);
                    }
                }
                i += 1;
            }
            assert(entries_model(out@) + Seq::<(Seq<char>, Json)>::empty() =~= entries_model(out@));
            Value::Object(out)
        },
        Value::Array(arr) => {
            let mut out: Vec<Value> = Vec::new();
            let mut i: usize = 0;
            while i < arr.len()
                invariant
                    i <= arr.len(),
                    out.len() == i,
                    forall|j: int| 0 <= j < i ==> (#[trigger] out[j])@ == pruned(arr[j]@),
                decreases arr.len() - i,
            {
                out.push(pruned_copy(&arr[i]));
                i += 1;
            }
            assert(array_model(out@) =~= pruned_items(array_model(arr@)));
            Value::Array(out)
        },
        _ => value.deep_clone(),
    }
}

/// The nodes of a document: every object with an `@id`, an object before
/// the nodes inside it, in the order of the entries and of the items.
pub open spec fn nodes_of(v: Json) -> Seq<Json>
    decreases v, 0nat,
{
    match v {
        Json::Object(e) => (if lookup(e, "@id"@) is Some {
            seq![v]
        } else {
            Seq::empty()
        }) + nodes_of_entries(e, 0),
        Json::Array(items) => nodes_of_items(items, 0),
        _ => Seq::empty(),
    }
}

/// The nodes of the values of the entries from position `i` on.
pub open spec fn nodes_of_entries(e: Entries, i: int) -> Seq<Json>
    decreases e, e.len() - i,
{
    if i < 0 || i >= e.len() {
        Seq::empty()
    } else {
        nodes_of(e[i].1) + nodes_of_entries(e, i + 1)
    }
}

/// The nodes of the items from position `i` on.
pub open spec fn nodes_of_items(items: Seq<Json>, i: int) -> Seq<Json>
    decreases items, items.len() - i,
{
    if i < 0 || i >= items.len() {
        Seq::empty()
    } else {
        nodes_of(items[i]) + nodes_of_items(items, i + 1)
    }
}

/// Appends the nodes of a document to `nodes`.
#[verifier::loop_isolation(false)]
pub fn extract_nodes(value: &Value, nodes: &mut Vec<Value>)
    ensures
        array_model(final(nodes)@) == array_model(old(nodes)@) + nodes_of(value@),
    decreases value,
{
    let ghost start = array_model(nodes@);
    match value {
        Value::Object(obj) => {
            let ghost e = entries_model(obj@);
            let has_id = match obj_get(obj, "@id") {
                Some(_) => true,
                None => false,
            };
            if has_id {
                nodes.push(value.deep_clone());
                assert(array_model(nodes@) =~= start + seq![value@]);
            } else {
                assert(start + Seq::<Json>::empty() =~= start);
            }
            let ghost head = array_model(nodes@);
            let mut i: usize = 0;
            while i < obj.len()
                invariant
                    i <= obj.len(),
                    array_model(nodes@) + nodes_of_entries(e, i as int) == head + nodes_of_entries(
                        e,
                        0,
                    ),
                decreases obj.len() - i,
            {
                let ghost before = array_model(nodes@);
                extract_nodes(&obj[i].1, nodes);
                proof {
                    let one = nodes_of(e[i as int].1);
                    let next = nodes_of_entries(e, i + 1);
                    assert(before + (one + next) =~= (before + one) + next);
                }
                i += 1;
            }
            proof {
                let first = if lookup(e, "@id"@) is Some {
                    seq![value@]
                } else {
                    Seq::empty()
                };
                assert(array_model(nodes@) + Seq::<Json>::empty() =~= array_model(nodes@));
                assert((start + first) + nodes_of_entries(e, 0) =~= start + (first
                    + nodes_of_entries(e, 0)));
            }
        },
        Value::Array(arr) => {
            let ghost items = array_model(arr@);
            let mut i: usize = 0;
            while i < arr.len()
                invariant
                    i <= arr.len(),
                    array_model(nodes@) + nodes_of_items(items, i as int) == start + nodes_of_items(
                        items,
                        0,
                    ),
                decreases arr.len() - i,
            {
                let ghost before = array_model(nodes@);
                extract_nodes(&arr[i], nodes);
                proof {
                    let one = nodes_of(items[i as int]);
                    let next = nodes_of_items(items, i + 1);
                    assert(before + (one + next) =~= (before + one) + next);
                }
                i += 1;
            }
            assert(array_model(nodes@) + Seq::<Json>::empty() =~= array_model(nodes@));
        },
        _ => {
            assert(start + Seq::<Json>::empty() =~= start);
        },
    }
}

/// The flattened form of a document: its nodes under `@graph`, and with
/// them the context where one is given.
pub open spec fn flattened_document(input: Json, context: Option<Json>) -> Json {
    match context {
        Some(c) => Json::Object(seq![("@context"@, c), ("@graph"@, Json::Array(nodes_of(input)))]),
        None => Json::Object(seq![("@graph"@, Json::Array(nodes_of(input)))]),
    }
}

/// The model of a value that may be missing.
pub open spec fn owned_model(v: Option<Value>) -> Option<Json> {
    match v {
        Some(x) => Some(x@),
        None => None,
    }
}

/// The flattened form of a document.
pub fn simple_flatten(input: &Value, context: Option<Value>) -> (r: Value)
    ensures
        r@ == flattened_document(input@, owned_model(context)),
{
    let mut nodes: Vec<Value> = Vec::new();
    assert(array_model(nodes@) =~= Seq::empty());
    extract_nodes(input, &mut nodes);
    assert(array_model(nodes@) =~= nodes_of(input@));
    match context {
        Some(c) => {
            let entries = vec![
                ("@context".to_string(), c),
                ("@graph".to_string(), Value::Array(nodes)),
            ];
            assert(entries_model(entries@) =~= seq![
                ("@context"@, c@),
                ("@graph"@, Json::Array(nodes_of(input@))),
            ]);
            Value::Object(entries)
        },
        None => {
            let entries = vec![("@graph".to_string(), Value::Array(nodes))];
            assert(entries_model(entries@) =~= seq![("@graph"@, Json::Array(nodes_of(input@)))]);
            Value::Object(entries)
        },
    }
}

/// The position after the last `/` before position `n`, or 0.
pub open spec fn after_last_slash(s: Seq<char>, n: int) -> int
    decreases n,
{
    if n <= 0 || n > s.len() {
        0
    } else if s[n - 1] == '/' {
        n
    } else {
        after_last_slash(s, n - 1)
    }
}

/// The compact form of a key: what follows its last `/`.
pub open spec fn compact_key(key: Seq<char>) -> Seq<char> {
    key.subrange(after_last_slash(key, key.len() as int), key.len() as int)
}

/// The compact form of a key.
pub fn make_compact_key(key: &str) -> (r: String)
    ensures
        r@ == compact_key(key@),
{
    let s = chars_of(key);
    let mut n: usize = s.len();
    let mut found = false;
    while !found && n > 0
        invariant
            n <= s.len(),
            found ==> n > 0 && s[n - 1] == '/',
            after_last_slash(s@, n as int) == after_last_slash(s@, s.len() as int),
        decreases n + if found { 0int } else { 1int },
    {
        if s[n - 1] == '/' {
            found = true;
        } else {
            n -= 1;
        }
    }
    let part = slice_chars(&s, n, s.len());
    string_of(&part)
}

/// The entries `acc` with those from position `i` on under their compact
/// keys.
pub open spec fn compacted_entries(e: Entries, i: int, acc: Entries) -> Entries
    decreases e.len() - i,
{
    if i < 0 || i >= e.len() {
        acc
    } else {
        compacted_entries(e, i + 1, insert_entry(acc, compact_key(e[i].0), e[i].1))
    }
}

/// The compact form of an expanded document: the context, and with it the
/// entries of the first item of the document, where the document is an
/// array that begins with an object, under their compact keys.
pub open spec fn compacted(input: Json, context: Json) -> Json {
    let start = seq![("@context"@, context)];
    match input {
        Json::Array(items) => if items.len() > 0 {
            match items[0] {
                Json::Object(first) => Json::Object(compacted_entries(first, 0, start)),
                _ => Json::Object(start),
            }
        } else {
            Json::Object(start)
        },
        _ => Json::Object(start),
    }
}

/// The compact form of an expanded document.
pub fn simple_compact(input: &Value, context: Value) -> (r: Value)
    ensures
        r@ == compacted(input@, context@),
{
    let mut obj = vec![("@context".to_string(), context)];
    assert(entries_model(obj@) =~= seq![("@context"@, context@)]);
    match input {
        Value::Array(arr) => {
            if arr.len() > 0 {
                assert(array_model(arr@)[0] == arr[0]@);
                match &arr[0] {
                    Value::Object(first) => {
                        let ghost e = entries_model(first@);
                        let ghost start = entries_model(obj@);
                        let mut i: usize = 0;
                        while i < first.len()
                            invariant
                                i <= first.len(),
                                e == entries_model(first@),
                                compacted_entries(e, i as int, entries_model(obj@))
                                    == compacted_entries(e, 0, start),
                            decreases first.len() - i,
                        {
                            obj_insert(
                                &mut obj,
                                make_compact_key(first[i].0.as_str()),
                                first[i].1.deep_clone(),
                            );
                            i += 1;
                        }
                    },
                    _ => {
                        assert(!(array_model(arr@)[0] is Object));
                    },
                }
            }
        },
        _ => {},
    }
    Value::Object(obj)
}

/// The entries `acc` with those of the input whose keys the frame has from
/// position `i` on.
pub open spec fn framed_entries(input: Entries, frame: Entries, i: int, acc: Entries) -> Entries
    decreases frame.len() - i,
{
    if i < 0 || i >= frame.len() {
        acc
    } else {
        framed_entries(
            input,
            frame,
            i + 1,
            match lookup(input, frame[i].0) {
                Some(v) => insert_entry(acc, frame[i].0, v),
                None => acc,
            },
        )
    }
}

/// The document framed: of an object, the entries whose keys the frame, an
/// object too, has; the empty object in any other case.
pub open spec fn framed(input: Json, frame: Json) -> Json {
    match (input, frame) {
        (Json::Object(i), Json::Object(f)) => Json::Object(framed_entries(i, f, 0, Seq::empty())),
        _ => Json::Object(Seq::empty()),
    }
}

/// The document framed.
pub fn simple_frame(input: &Value, frame: &Value) -> (r: Value)
    ensures
        r@ == framed(input@, frame@),
{
    let mut result: Vec<(String, Value)> = Vec::new();
    assert(entries_model(result@) =~= Seq::empty());
    match (input, frame) {
        (Value::Object(input_obj), Value::Object(frame_obj)) => {
            let ghost a = entries_model(input_obj@);
            let ghost f = entries_model(frame_obj@);
            let mut i: usize = 0;
            while i < frame_obj.len()
                invariant
                    i <= frame_obj.len(),
                    a == entries_model(input_obj@),
                    f == entries_model(frame_obj@),
                    framed_entries(a, f, i as int, entries_model(result@)) == framed_entries(
                        a,
                        f,
                        0,
                        Seq::empty(),
                    ),
                decreases frame_obj.len() - i,
            {
                match obj_get(input_obj, frame_obj[i].0.as_str()) {
                    Some(v) => {
                        obj_insert(&mut result, frame_obj[i].0.clone(), v.deep_clone());
                    },
                    None => {},
                }
                i += 1;
            }
        },
        _ => {
            assert(!(input@ is Object && frame@ is Object));
        },
    }
    Value::Object(result)
}

/// Whether a value matches a pattern: an object matches an object where
/// it has, under every key of the pattern, a value that matches; any other
/// value matches the pattern that it is equal to.
pub open spec fn matches_model(value: Json, pattern: Json) -> bool
    decreases pattern, 0nat,
{
    match (value, pattern) {
        (Json::Object(v), Json::Object(p)) => entries_match(v, p, 0),
        _ => value == pattern,
    }
}

/// Whether an object matches the entries of a pattern from position `i`
/// on.
pub open spec fn entries_match(v: Entries, p: Entries, i: int) -> bool
    decreases p, p.len() - i,
{
    if i < 0 || i >= p.len() {
        true
    } else {
        (match lookup(v, p[i].0) {
            Some(x) => matches_model(x, p[i].1),
            None => false,
        }) && entries_match(v, p, i + 1)
    }
}

/// Whether a value matches a pattern.
#[verifier::loop_isolation(false)]
pub fn matches_pattern(value: &Value, pattern: &Value) -> (r: bool)
    ensures
        r == matches_model(value@, pattern@),
    decreases pattern,
{
    match (value, pattern) {
        (Value::Object(v_obj), Value::Object(p_obj)) => {
            let ghost v = entries_model(v_obj@);
            let ghost p = entries_model(p_obj@);
            let mut i: usize = 0;
            while i < p_obj.len()
                invariant
                    i <= p_obj.len(),
                    entries_match(v, p, i as int) == entries_match(v, p, 0),
                decreases p_obj.len() - i,
            {
                let ok = match obj_get(v_obj, p_obj[i].0.as_str()) {
                    Some(x) => matches_pattern(x, &p_obj[i].1),
                    None => false,
                };
                if !ok {
                    return false;
                }
                i += 1;
            }
            true
        },
        _ => {
            assert(!(value@ is Object && pattern@ is Object));
            same_model(value, pattern)
        },
    }
}

/// The values inside a document that match a pattern: the document itself
/// first where it matches, then those inside its entries or its items.
pub open spec fn matching_nodes(v: Json, pattern: Json) -> Seq<Json>
    decreases v, 0nat,
{
    (if matches_model(v, pattern) {
        seq![v]
    } else {
        Seq::empty()
    }) + (match v {
        Json::Object(e) => matching_in_entries(e, pattern, 0),
        Json::Array(items) => matching_in_items(items, pattern, 0),
        _ => Seq::empty(),
    })
}

/// The matching values inside the entries from position `i` on.
pub open spec fn matching_in_entries(e: Entries, pattern: Json, i: int) -> Seq<Json>
    decreases e, e.len() - i,
{
    if i < 0 || i >= e.len() {
        Seq::empty()
    } else {
        matching_nodes(e[i].1, pattern) + matching_in_entries(e, pattern, i + 1)
    }
}

/// The matching values inside the items from position `i` on.
pub open spec fn matching_in_items(items: Seq<Json>, pattern: Json, i: int) -> Seq<Json>
    decreases items, items.len() - i,
{
    if i < 0 || i >= items.len() {
        Seq::empty()
    } else {
        matching_nodes(items[i], pattern) + matching_in_items(items, pattern, i + 1)
    }
}

/// Appends the values inside a document that match a pattern.
#[verifier::loop_isolation(false)]
pub fn find_nodes_recursive(value: &Value, pattern: &Value, matches: &mut Vec<Value>)
    ensures
        array_model(final(matches)@) == array_model(old(matches)@) + matching_nodes(
            value@,
            pattern@,
        ),
    decreases value,
{
    let ghost start = array_model(matches@);
    if matches_pattern(value, pattern) {
        matches.push(value.deep_clone());
        assert(array_model(matches@) =~= start + seq![value@]);
    } else {
        assert(start + Seq::<Json>::empty() =~= start);
    }
    let ghost head = array_model(matches@);
    let ghost first = if matches_model(value@, pattern@) {
        seq![value@]
    } else {
        Seq::empty()
    };
    match value {
        Value::Object(obj) => {
            let ghost e = entries_model(obj@);
            let mut i: usize = 0;
            while i < obj.len()
                invariant
                    i <= obj.len(),
                    array_model(matches@) + matching_in_entries(e, pattern@, i as int) == head
                        + matching_in_entries(e, pattern@, 0),
                decreases obj.len() - i,
            {
                let ghost before = array_model(matches@);
                find_nodes_recursive(&obj[i].1, pattern, matches);
                proof {
                    let one = matching_nodes(e[i as int].1, pattern@);
                    let next = matching_in_entries(e, pattern@, i + 1);
                    assert(before + (one + next) =~= (before + one) + next);
                }
                i += 1;
            }
            proof {
                let rest = matching_in_entries(e, pattern@, 0);
                assert(array_model(matches@) + Seq::<Json>::empty() =~= array_model(matches@));
                assert((start + first) + rest =~= start + (first + rest));
            }
        },
        Value::Array(arr) => {
            let ghost items = array_model(arr@);
            let mut i: usize = 0;
            while i < arr.len()
                invariant
                    i <= arr.len(),
                    array_model(matches@) + matching_in_items(items, pattern@, i as int) == head
                        + matching_in_items(items, pattern@, 0),
                decreases arr.len() - i,
            {
                let ghost before = array_model(matches@);
                find_nodes_recursive(&arr[i], pattern, matches);
                proof {
                    let one = matching_nodes(items[i as int], pattern@);
                    let next = matching_in_items(items, pattern@, i + 1);
                    assert(before + (one + next) =~= (before + one) + next);
                }
                i += 1;
            }
            proof {
                let rest = matching_in_items(items, pattern@, 0);
                assert(array_model(matches@) + Seq::<Json>::empty() =~= array_model(matches@));
                assert((start + first) + rest =~= start + (first + rest));
            }
        },
        _ => {
            assert((start + first) + Seq::<Json>::empty() =~= start + (first + Seq::<Json>::empty()));
        },
    }
}

/// The values inside a document that match a pattern.
pub fn find_matching_nodes(doc: &Value, pattern: &Value) -> (r: Vec<Value>)
    ensures
        array_model(r@) == matching_nodes(doc@, pattern@),
{
    let mut matches: Vec<Value> = Vec::new();
    assert(array_model(matches@) =~= Seq::empty());
    find_nodes_recursive(doc, pattern, &mut matches);
    assert(array_model(matches@) =~= matching_nodes(doc@, pattern@));
    matches
}

} // verus!
