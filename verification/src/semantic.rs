//! The semantic delta: the difference of the sets of triples that two
//! documents denote.

use crate::contexts::{
    compare_contexts_fast, context_changes, make_no_context_changes, no_context_changes,
    value_or_null,
};
use crate::key_set::{key_set_contains, key_set_insert, key_set_new, keys_in, KeySet};
use crate::options::{flag_from, pairs_model, parse_flag};
use crate::patch::text_or_empty;
use crate::text::{
    decimal, find_text, has_prefix, insert_text, lemma_with_text, push_padded_decimal, push_str,
    str_starts_with, string_of, text_index, texts_ascending, texts_model, with_text, zero_padded,
};
use crate::triples::{extract_triples_node_fast, node_triples};
use crate::value_index::{
    empty_index, index_buckets, index_of, indexed_contains, indexes, push_indexed,
};
use crate::canonical::{canonical, sorted_json_value};
use crate::value::{
    array_model, entries_model, find_key, json_get, key_index, same_text, wf_json, Json, Value,
};
use vstd::prelude::*;

verus! {

/// How blank nodes are named.
#[derive(Debug, Clone, Copy, PartialEq, Eq, Structural)]
pub enum BlankNodeStrategy {
    Uuid,
    Hash,
    Preserve,
}

/// The options of a semantic diff.
#[derive(Debug, Clone, Copy, PartialEq, Eq, Structural)]
pub struct SemanticOptions {
    pub normalize: bool,
    /// Whether the context mappings of the two documents are compared.
    pub context_aware: bool,
    pub expand_contexts: bool,
    /// Recorded with the delta.
    pub blank_node_strategy: BlankNodeStrategy,
}

/// The options of a semantic diff for which none were given.
pub open spec fn default_semantic_options() -> SemanticOptions {
    SemanticOptions {
        normalize: true,
        context_aware: true,
        expand_contexts: true,
        blank_node_strategy: BlankNodeStrategy::Uuid,
    }
}

/// The options after one more pair: a known key sets its option, to the
/// default where the value is malformed; an unknown key changes nothing.
pub open spec fn semantic_option_step(o: SemanticOptions, key: Seq<char>, value: Seq<char>) -> SemanticOptions {
    if key == "normalize"@ {
        SemanticOptions { normalize: flag_from(value, true), ..o }
    } else if key == "context_aware"@ {
        SemanticOptions { context_aware: flag_from(value, true), ..o }
    } else if key == "expand_contexts"@ {
        SemanticOptions { expand_contexts: flag_from(value, true), ..o }
    } else if key == "blank_node_strategy"@ {
        SemanticOptions {
            blank_node_strategy: if value == "hash"@ {
                BlankNodeStrategy::Hash
            } else if value == "preserve"@ {
                BlankNodeStrategy::Preserve
            } else {
                BlankNodeStrategy::Uuid
            },
            ..o
        }
    } else {
        o
    }
}

/// The options after the pairs from position `i`, taken in order.
pub open spec fn semantic_options_from(
    opts: Seq<(Seq<char>, Seq<char>)>,
    i: int,
    o: SemanticOptions,
) -> SemanticOptions
    decreases opts.len() - i,
{
    if i < 0 || i >= opts.len() {
        o
    } else {
        semantic_options_from(opts, i + 1, semantic_option_step(o, opts[i].0, opts[i].1))
    }
}

/// Reads the options of a semantic diff from pairs of key and value,
/// starting from the defaults.
pub fn parse_semantic_options(opts: &Vec<(String, String)>) -> (r: SemanticOptions)
    ensures
        r == semantic_options_from(pairs_model(opts@), 0, default_semantic_options()),
{
    let mut options = SemanticOptions {
        normalize: true,
        context_aware: true,
        expand_contexts: true,
        blank_node_strategy: BlankNodeStrategy::Uuid,
    };
    let ghost model = pairs_model(opts@);
    let mut i: usize = 0;
    while i < opts.len()
        invariant
            i <= opts.len(),
            model == pairs_model(opts@),
            semantic_options_from(model, i as int, options) == semantic_options_from(
                model,
                0,
                default_semantic_options(),
            ),
        decreases opts.len() - i,
    {
        let key = opts[i].0.as_str();
        let value = opts[i].1.as_str();
        if same_text(key, "normalize") {
            options.normalize = parse_flag(value, true);
        } else if same_text(key, "context_aware") {
            options.context_aware = parse_flag(value, true);
        } else if same_text(key, "expand_contexts") {
            options.expand_contexts = parse_flag(value, true);
        } else if same_text(key, "blank_node_strategy") {
            options.blank_node_strategy = if same_text(value, "hash") {
                BlankNodeStrategy::Hash
            } else if same_text(value, "preserve") {
                BlankNodeStrategy::Preserve
            } else {
                BlankNodeStrategy::Uuid
            };
        }
        i += 1;
    }
    options
}

/// Whether a text is the identifier of a blank node: it begins with `_:`.
pub open spec fn is_blank(s: Seq<char>) -> bool {
    has_prefix(s, "_:"@)
}

/// The text under a key of a triple where that is a string.
pub open spec fn triple_text(t: Json, key: Seq<char>) -> Option<Seq<char>> {
    match json_get(t, key) {
        Some(Json::Str(s)) => Some(s),
        _ => None,
    }
}

/// The identifiers with the one under a key of a triple, where that is the
/// identifier of a blank node.
pub open spec fn with_blank(ids: Seq<Seq<char>>, t: Json, key: Seq<char>) -> Seq<Seq<char>> {
    match triple_text(t, key) {
        Some(s) => if is_blank(s) {
            with_text(ids, s)
        } else {
            ids
        },
        None => ids,
    }
}

/// The identifiers with those of the blank nodes that stand as subject or
/// object in the triples from position `i` on.
pub open spec fn blank_ids_from(triples: Seq<Json>, i: int, ids: Seq<Seq<char>>) -> Seq<Seq<char>>
    decreases triples.len() - i,
{
    if i < 0 || i >= triples.len() {
        ids
    } else {
        blank_ids_from(
            triples,
            i + 1,
            with_blank(with_blank(ids, triples[i], "subject"@), triples[i], "object"@),
        )
    }
}

/// The identifiers of the blank nodes of the triples, in ascending order,
/// each once.
pub open spec fn blank_ids(triples: Seq<Json>) -> Seq<Seq<char>> {
    blank_ids_from(triples, 0, Seq::empty())
}

/// The canonical identifier of the blank node at position `k` of the
/// sorted identifiers: `_:h` and the numeral of `k` with zeros before it
/// up to eight digits.
pub open spec fn canonical_label(k: nat) -> Seq<char> {
    "_:h"@ + zero_padded(decimal(k), 8)
}

/// A triple with what stands under `key` renamed, where that is one of the
/// identifiers.
pub open spec fn relabeled(t: Json, key: Seq<char>, ids: Seq<Seq<char>>) -> Json {
    match t {
        Json::Object(e) => match key_index(e, key) {
            Some(i) => match e[i].1 {
                Json::Str(s) => match text_index(ids, s) {
                    Some(k) => Json::Object(
                        e.update(i, (e[i].0, Json::Str(canonical_label(k as nat)))),
                    ),
                    None => t,
                },
                _ => t,
            },
            None => t,
        },
        _ => t,
    }
}

/// The triples with their blank nodes renamed, in order.
pub open spec fn normalized_with(triples: Seq<Json>, ids: Seq<Seq<char>>) -> Seq<Json> {
    Seq::new(
        triples.len(),
        |i: int| relabeled(relabeled(triples[i], "subject"@, ids), "object"@, ids),
    )
}

/// The triples with canonical identifiers for their blank nodes: the
/// identifiers in use are sorted and numbered from 0 in that order, so
/// that the names depend on the set of identifiers in use alone.
pub open spec fn normalized(triples: Seq<Json>) -> Seq<Json> {
    normalized_with(triples, blank_ids(triples))
}

/// Whether a set holds exactly the texts of a list.
pub open spec fn holds_texts(seen: KeySet, ids: Seq<Seq<char>>) -> bool {
    forall|k: Seq<char>| keys_in(seen).contains(k) <==> ids.contains(k)
}

/// Adds to the identifiers the one under `key` of a triple, where that is
/// the identifier of a blank node that the set of the identifiers does
/// not hold yet.
pub fn add_blank_id(ids: &mut Vec<String>, seen: &mut KeySet, t: &Value, key: &str)
    requires
        texts_ascending(texts_model(old(ids)@)),
        holds_texts(*old(seen), texts_model(old(ids)@)),
    ensures
        texts_model(final(ids)@) == with_blank(texts_model(old(ids)@), t@, key@),
        texts_ascending(texts_model(final(ids)@)),
        holds_texts(*final(seen), texts_model(final(ids)@)),
{
    let ghost before = texts_model(ids@);
    match t.get(key) {
        Some(Value::Str(s)) => {
            assert(json_get(t@, key@) == Some(Json::Str(s@)));
            if str_starts_with(s.as_str(), "_:") {
                proof {
                    lemma_with_text(before, s@);
                }
                if !key_set_contains(seen, s.as_str()) {
                    key_set_insert(seen, s.as_str());
                    insert_text(ids, s.as_str());
                    assert forall|k: Seq<char>| keys_in(*seen).contains(k) <==> texts_model(
                        ids@,
                    ).contains(k) by {
                        assert(keys_in(*old(seen)).contains(k) <==> before.contains(k));
                    }
                } else {
                    assert(before.contains(s@));
                }
            }
        },
        Some(other) => {
            assert(json_get(t@, key@) == Some(other@));
            assert(!(other@ is Str));
        },
        None => {},
    }
}

/// The canonical identifier of the blank node at position `k`.
pub fn make_canonical_label(k: usize) -> (r: String)
    ensures
        r@ == canonical_label(k as nat),
{
    let mut out: Vec<char> = Vec::new();
    push_str(&mut out, "_:h");
    push_padded_decimal(&mut out, k as u64, 8);
    assert(out@ =~= canonical_label(k as nat));
    string_of(&out)
}

/// Renames what stands under `key` of a triple, where that is one of the
/// identifiers.
pub fn relabel(t: &mut Value, key: &str, ids: &Vec<String>)
    ensures
        final(t)@ == relabeled(old(t)@, key@, texts_model(ids@)),
{
    match t {
        Value::Object(entries) => {
            let ghost e = entries_model(entries@);
            match find_key(entries, key) {
                Some(i) => {
                    let found: Option<usize> = match &entries[i].1 {
                        Value::Str(s) => {
                            assert(e[i as int].1 == Json::Str(s@));
                            find_text(ids, s.as_str())
                        },
                        _ => {
                            assert(!(e[i as int].1 is Str));
                            None
                        },
                    };
                    match found {
                        Some(k) => {
                            entries[i].1 = Value::Str(make_canonical_label(k));
                            assert(entries_model(entries@) =~= e.update(
                                i as int,
                                (e[i as int].0, Json::Str(canonical_label(k as nat))),
                            ));
                        },
                        None => {},
                    }
                },
                None => {},
            }
        },
        _ => {},
    }
}

/// The triples with canonical identifiers for their blank nodes.
pub fn normalize_blank_nodes_fast(triples: &Vec<Value>) -> (r: Vec<Value>)
    ensures
        array_model(r@) == normalized(array_model(triples@)),
{
    let ghost model = array_model(triples@);
    let mut ids: Vec<String> = Vec::new();
    let mut seen = key_set_new();
    assert(texts_model(ids@) =~= Seq::empty());
    let mut i: usize = 0;
    while i < triples.len()
        invariant
            i <= triples.len(),
            model == array_model(triples@),
            texts_ascending(texts_model(ids@)),
            holds_texts(seen, texts_model(ids@)),
            blank_ids_from(model, i as int, texts_model(ids@)) == blank_ids(model),
        decreases triples.len() - i,
    {
        assert(triples[i as int]@ == model[i as int]);
        add_blank_id(&mut ids, &mut seen, &triples[i], "subject");
        add_blank_id(&mut ids, &mut seen, &triples[i], "object");
        i += 1;
    }
    let mut out: Vec<Value> = Vec::new();
    let mut k: usize = 0;
    while k < triples.len()
        invariant
            k <= triples.len(),
            out.len() == k,
            model == array_model(triples@),
            texts_model(ids@) == blank_ids(model),
            forall|x: int|
                0 <= x < k ==> (#[trigger] out[x])@ == relabeled(
                    relabeled(model[x], "subject"@, blank_ids(model)),
                    "object"@,
                    blank_ids(model),
                ),
        decreases triples.len() - k,
    {
        let mut t = triples[k].deep_clone();
        assert(t@ == model[k as int]);
        relabel(&mut t, "subject", &ids);
        relabel(&mut t, "object", &ids);
        out.push(t);
        k += 1;
    }
    assert(array_model(out@) =~= normalized(model));
    out
}

/// The triples that a document denotes, with canonical identifiers for its
/// blank nodes.
pub open spec fn document_triples(doc: Json) -> Seq<Json> {
    normalized(node_triples(doc, None).0)
}

/// The triples that a document denotes.
pub fn document_to_triples_fast(document: &Value) -> (r: Vec<Value>)
    ensures
        array_model(r@) == document_triples(document@),
{
    let mut triples: Vec<Value> = Vec::new();
    assert(array_model(triples@) =~= Seq::empty());
    let _ = extract_triples_node_fast(document, None, &mut triples);
    assert(array_model(triples@) =~= node_triples(document@, None).0);
    normalize_blank_nodes_fast(&triples)
}

/// The list `acc` with the triples of `xs` from position `i` on that are
/// neither in `ys` nor already in the list, in order.
pub open spec fn difference_from(xs: Seq<Json>, ys: Seq<Json>, i: int, acc: Seq<Json>) -> Seq<Json>
    decreases xs.len() - i,
{
    if i < 0 || i >= xs.len() {
        acc
    } else if !ys.contains(xs[i]) && !acc.contains(xs[i]) {
        difference_from(xs, ys, i + 1, acc.push(xs[i]))
    } else {
        difference_from(xs, ys, i + 1, acc)
    }
}

/// The triples of `xs` that are not in `ys`, each once, in the order in
/// which they first stand in `xs`.
pub open spec fn difference(xs: Seq<Json>, ys: Seq<Json>) -> Seq<Json> {
    difference_from(xs, ys, 0, Seq::empty())
}

/// The triples of `xs` that are not in `ys`.
pub fn triples_difference(xs: &Vec<Value>, ys: &Vec<Value>) -> (r: Vec<Value>)
    ensures
        array_model(r@) == difference(array_model(xs@), array_model(ys@)),
{
    let ghost a = array_model(xs@);
    let ghost b = array_model(ys@);
    let other = index_of(ys);
    let mut out: Vec<Value> = Vec::new();
    let mut seen = empty_index();
    assert(array_model(out@) =~= Seq::empty());
    let mut i: usize = 0;
    while i < xs.len()
        invariant
            i <= xs.len(),
            a == array_model(xs@),
            b == array_model(ys@),
            indexes(index_buckets(other), b),
            indexes(index_buckets(seen), array_model(out@)),
            difference_from(a, b, i as int, array_model(out@)) == difference(a, b),
        decreases xs.len() - i,
    {
        assert(xs[i as int]@ == a[i as int]);
        if !indexed_contains(ys, &other, &xs[i]) && !indexed_contains(&out, &seen, &xs[i]) {
            push_indexed(&mut out, &mut seen, xs[i].deep_clone());
        }
        i += 1;
    }
    out
}

/// The subject of a triple: the text under `subject`, or the empty text.
pub open spec fn subject_text(t: Json) -> Seq<char> {
    text_or_empty(json_get(t, "subject"@))
}

/// The predicate of a triple: the text under `predicate`, or the empty
/// text.
pub open spec fn predicate_text(t: Json) -> Seq<char> {
    text_or_empty(json_get(t, "predicate"@))
}

/// The object of a triple, or null.
pub open spec fn object_or_null(t: Json) -> Json {
    value_or_null(json_get(t, "object"@))
}

/// The text under a key of a triple, or the empty text.
pub fn text_under(t: &Value, key: &str) -> (r: String)
    ensures
        r@ == text_or_empty(json_get(t@, key@)),
{
    match t.get(key) {
        Some(Value::Str(s)) => {
            assert(json_get(t@, key@) == Some(Json::Str(s@)));
            s.clone()
        },
        Some(other) => {
            assert(json_get(t@, key@) == Some(other@));
            assert(!(other@ is Str));
            String::new()
        },
        None => String::new(),
    }
}

/// The subjects with those of the triples from position `i` on.
pub open spec fn subjects_from(triples: Seq<Json>, i: int, set: Seq<Seq<char>>) -> Seq<Seq<char>>
    decreases triples.len() - i,
{
    if i < 0 || i >= triples.len() {
        set
    } else {
        subjects_from(triples, i + 1, with_text(set, subject_text(triples[i])))
    }
}

/// The predicates with those of the triples from position `i` on that have
/// the given subject.
pub open spec fn predicates_from(
    triples: Seq<Json>,
    subject: Seq<char>,
    i: int,
    set: Seq<Seq<char>>,
) -> Seq<Seq<char>>
    decreases triples.len() - i,
{
    if i < 0 || i >= triples.len() {
        set
    } else if subject_text(triples[i]) == subject {
        predicates_from(triples, subject, i + 1, with_text(set, predicate_text(triples[i])))
    } else {
        predicates_from(triples, subject, i + 1, set)
    }
}

/// The list `acc` with the objects of the triples from position `i` on
/// that have the given subject and predicate, in order.
pub open spec fn objects_from(
    triples: Seq<Json>,
    subject: Seq<char>,
    predicate: Seq<char>,
    i: int,
    acc: Seq<Json>,
) -> Seq<Json>
    decreases triples.len() - i,
{
    if i < 0 || i >= triples.len() {
        acc
    } else if subject_text(triples[i]) == subject && predicate_text(triples[i]) == predicate {
        objects_from(triples, subject, predicate, i + 1, acc.push(object_or_null(triples[i])))
    } else {
        objects_from(triples, subject, predicate, i + 1, acc)
    }
}

/// The report of a value that a property gained.
pub open spec fn added_property(predicate: Seq<char>, v: Json) -> Json {
    Json::Object(
        seq![
            ("change_type"@, Json::Str("value"@)),
            ("new_value"@, v),
            ("property"@, Json::Str(predicate)),
        ],
    )
}

/// The report of a value that a property lost.
pub open spec fn removed_property(predicate: Seq<char>, v: Json) -> Json {
    Json::Object(
        seq![
            ("change_type"@, Json::Str("value"@)),
            ("old_value"@, v),
            ("property"@, Json::Str(predicate)),
        ],
    )
}

/// The report of a value of a property that gave way to another.
pub open spec fn modified_property(predicate: Seq<char>, old_value: Json, new_value: Json) -> Json {
    Json::Object(
        seq![
            ("change_type"@, Json::Str("value"@)),
            ("new_value"@, new_value),
            ("old_value"@, old_value),
            ("property"@, Json::Str(predicate)),
        ],
    )
}

/// What changed of one node: the values its properties gained, those they
/// lost, and those that gave way to another.
pub struct NodeChanges {
    pub added: Seq<Json>,
    pub removed: Seq<Json>,
    pub modified: Seq<Json>,
}

/// The list `acc` with the reports of the values from position `i` on as
/// gained, or as lost.
pub open spec fn reports_from(
    predicate: Seq<char>,
    values: Seq<Json>,
    i: int,
    gained: bool,
    acc: Seq<Json>,
) -> Seq<Json>
    decreases values.len() - i,
{
    if i < 0 || i >= values.len() {
        acc
    } else {
        reports_from(
            predicate,
            values,
            i + 1,
            gained,
            acc.push(
                if gained {
                    added_property(predicate, values[i])
                } else {
                    removed_property(predicate, values[i])
                },
            ),
        )
    }
}

/// The changes of a node with those of one property. Where the property
/// both gained and lost values, the first lost value gave way to the first
/// gained one, and the others are listed as gained and as lost.
pub open spec fn with_property(
    c: NodeChanges,
    predicate: Seq<char>,
    gained: Seq<Json>,
    lost: Seq<Json>,
) -> NodeChanges {
    if gained.len() > 0 && lost.len() > 0 {
        NodeChanges {
            added: reports_from(predicate, gained, 1, true, c.added),
            removed: reports_from(predicate, lost, 1, false, c.removed),
            modified: c.modified.push(modified_property(predicate, lost[0], gained[0])),
        }
    } else {
        NodeChanges {
            added: reports_from(predicate, gained, 0, true, c.added),
            removed: reports_from(predicate, lost, 0, false, c.removed),
            modified: c.modified,
        }
    }
}

/// The changes of a node with those of the properties from position `i`
/// on.
pub open spec fn node_changes_from(
    subject: Seq<char>,
    predicates: Seq<Seq<char>>,
    i: int,
    added: Seq<Json>,
    removed: Seq<Json>,
    c: NodeChanges,
) -> NodeChanges
    decreases predicates.len() - i,
{
    if i < 0 || i >= predicates.len() {
        c
    } else {
        node_changes_from(
            subject,
            predicates,
            i + 1,
            added,
            removed,
            with_property(
                c,
                predicates[i],
                objects_from(added, subject, predicates[i], 0, Seq::empty()),
                objects_from(removed, subject, predicates[i], 0, Seq::empty()),
            ),
        )
    }
}

/// The predicates of a subject in the added and the removed triples, in
/// ascending order, each once.
pub open spec fn predicates_of(subject: Seq<char>, added: Seq<Json>, removed: Seq<Json>) -> Seq<Seq<char>> {
    predicates_from(removed, subject, 0, predicates_from(added, subject, 0, Seq::empty()))
}

/// The report of what changed of one node.
pub open spec fn node_report(subject: Seq<char>, added: Seq<Json>, removed: Seq<Json>) -> Json {
    let c = node_changes_from(
        subject,
        predicates_of(subject, added, removed),
        0,
        added,
        removed,
        NodeChanges { added: Seq::empty(), removed: Seq::empty(), modified: Seq::empty() },
    );
    Json::Object(
        seq![
            ("added_properties"@, Json::Array(c.added)),
            ("modified_properties"@, Json::Array(c.modified)),
            ("node_id"@, Json::Str(subject)),
            ("removed_properties"@, Json::Array(c.removed)),
        ],
    )
}

/// The subjects of the added and the removed triples, in ascending order,
/// each once.
pub open spec fn changed_subjects(added: Seq<Json>, removed: Seq<Json>) -> Seq<Seq<char>> {
    subjects_from(removed, 0, subjects_from(added, 0, Seq::empty()))
}

/// The added and the removed triples by node: one report for each subject,
/// in ascending order of the subjects, with its properties in ascending
/// order of the predicates.
pub open spec fn grouped(added: Seq<Json>, removed: Seq<Json>) -> Seq<Json> {
    Seq::new(
        changed_subjects(added, removed).len(),
        |k: int| node_report(changed_subjects(added, removed)[k], added, removed),
    )
}

/// Adds the subjects of the triples to the set.
pub fn add_subjects(set: &mut Vec<String>, triples: &Vec<Value>)
    ensures
        texts_model(final(set)@) == subjects_from(array_model(triples@), 0, texts_model(old(set)@)),
{
    let ghost model = array_model(triples@);
    let ghost goal = subjects_from(model, 0, texts_model(set@));
    let mut i: usize = 0;
    while i < triples.len()
        invariant
            i <= triples.len(),
            model == array_model(triples@),
            subjects_from(model, i as int, texts_model(set@)) == goal,
        decreases triples.len() - i,
    {
        assert(triples[i as int]@ == model[i as int]);
        let s = text_under(&triples[i], "subject");
        insert_text(set, s.as_str());
        i += 1;
    }
}

/// Adds the predicates of the triples with the given subject to the set.
pub fn add_predicates(set: &mut Vec<String>, triples: &Vec<Value>, subject: &str)
    ensures
        texts_model(final(set)@) == predicates_from(
            array_model(triples@),
            subject@,
            0,
            texts_model(old(set)@),
        ),
{
    let ghost model = array_model(triples@);
    let ghost goal = predicates_from(model, subject@, 0, texts_model(set@));
    let mut i: usize = 0;
    while i < triples.len()
        invariant
            i <= triples.len(),
            model == array_model(triples@),
            predicates_from(model, subject@, i as int, texts_model(set@)) == goal,
        decreases triples.len() - i,
    {
        assert(triples[i as int]@ == model[i as int]);
        let s = text_under(&triples[i], "subject");
        if same_text(s.as_str(), subject) {
            let p = text_under(&triples[i], "predicate");
            insert_text(set, p.as_str());
        }
        i += 1;
    }
}

/// The objects of the triples with the given subject and predicate.
pub fn matching_objects(triples: &Vec<Value>, subject: &str, predicate: &str) -> (r: Vec<Value>)
    ensures
        array_model(r@) == objects_from(array_model(triples@), subject@, predicate@, 0, Seq::empty()),
{
    let ghost model = array_model(triples@);
    let mut out: Vec<Value> = Vec::new();
    assert(array_model(out@) =~= Seq::empty());
    let mut i: usize = 0;
    while i < triples.len()
        invariant
            i <= triples.len(),
            model == array_model(triples@),
            objects_from(model, subject@, predicate@, i as int, array_model(out@)) == objects_from(
                model,
                subject@,
                predicate@,
                0,
                Seq::empty(),
            ),
        decreases triples.len() - i,
    {
        assert(triples[i as int]@ == model[i as int]);
        let s = text_under(&triples[i], "subject");
        let p = text_under(&triples[i], "predicate");
        if same_text(s.as_str(), subject) && same_text(p.as_str(), predicate) {
            let v = match triples[i].get("object") {
                Some(o) => o.deep_clone(),
                None => Value::Null,
            };
            let ghost before = array_model(out@);
            out.push(v);
            assert(array_model(out@) =~= before.push(object_or_null(model[i as int])));
        }
        i += 1;
    }
    out
}

/// The report of a value that a property gained, or lost.
pub fn make_property_report(predicate: &str, v: Value, gained: bool) -> (r: Value)
    ensures
        r@ == if gained {
            added_property(predicate@, v@)
        } else {
            removed_property(predicate@, v@)
        },
{
    let entries = if gained {
        vec![
            ("change_type".to_string(), Value::text("value")),
            ("new_value".to_string(), v),
            ("property".to_string(), Value::text(predicate)),
        ]
    } else {
        vec![
            ("change_type".to_string(), Value::text("value")),
            ("old_value".to_string(), v),
            ("property".to_string(), Value::text(predicate)),
        ]
    };
    proof {
        if gained {
            assert(entries_model(entries@) =~= seq![
                ("change_type"@, Json::Str("value"@)),
                ("new_value"@, v@),
                ("property"@, Json::Str(predicate@)),
            ]);
        } else {
            assert(entries_model(entries@) =~= seq![
                ("change_type"@, Json::Str("value"@)),
                ("old_value"@, v@),
                ("property"@, Json::Str(predicate@)),
            ]);
        }
    }
    Value::Object(entries)
}

/// Appends the reports of the values from position `from` on.
pub fn push_reports(out: &mut Vec<Value>, predicate: &str, values: &Vec<Value>, from: usize, gained: bool)
    ensures
        array_model(final(out)@) == reports_from(
            predicate@,
            array_model(values@),
            from as int,
            gained,
            array_model(old(out)@),
        ),
{
    let ghost model = array_model(values@);
    let ghost goal = reports_from(predicate@, model, from as int, gained, array_model(out@));
    let mut i: usize = from;
    while i < values.len()
        invariant
            from <= i,
            model == array_model(values@),
            reports_from(predicate@, model, i as int, gained, array_model(out@)) == goal,
        decreases values.len() - i,
    {
        let r = make_property_report(predicate, values[i].deep_clone(), gained);
        let ghost before = array_model(out@);
        out.push(r);
        assert(array_model(out@) =~= before.push(r@));
        assert(values[i as int]@ == model[i as int]);
        i += 1;
    }
}

/// The added and the removed triples by node.
pub fn group_changes_by_node_fast(added: &Vec<Value>, removed: &Vec<Value>) -> (r: Vec<Value>)
    ensures
        array_model(r@) == grouped(array_model(added@), array_model(removed@)),
{
    let ghost a = array_model(added@);
    let ghost b = array_model(removed@);
    let mut subjects: Vec<String> = Vec::new();
    assert(texts_model(subjects@) =~= Seq::empty());
    add_subjects(&mut subjects, added);
    add_subjects(&mut subjects, removed);
    let ghost names = changed_subjects(a, b);
    let mut result: Vec<Value> = Vec::new();
    let mut k: usize = 0;
    while k < subjects.len()
        invariant
            k <= subjects.len(),
            result.len() == k,
            a == array_model(added@),
            b == array_model(removed@),
            texts_model(subjects@) == names,
            forall|x: int| 0 <= x < k ==> (#[trigger] result[x])@ == node_report(names[x], a, b),
        decreases subjects.len() - k,
    {
        let subject = subjects[k].as_str();
        assert(subject@ == names[k as int]);
        let mut predicates: Vec<String> = Vec::new();
        assert(texts_model(predicates@) =~= Seq::empty());
        add_predicates(&mut predicates, added, subject);
        add_predicates(&mut predicates, removed, subject);
        let ghost preds = predicates_of(subject@, a, b);
        let mut added_props: Vec<Value> = Vec::new();
        let mut removed_props: Vec<Value> = Vec::new();
        let mut modified_props: Vec<Value> = Vec::new();
        assert(array_model(added_props@) =~= Seq::empty());
        assert(array_model(removed_props@) =~= Seq::empty());
        assert(array_model(modified_props@) =~= Seq::empty());
        let ghost none = NodeChanges {
            added: Seq::empty(),
            removed: Seq::empty(),
            modified: Seq::empty(),
        };
        let mut p: usize = 0;
        while p < predicates.len()
            invariant
                p <= predicates.len(),
                a == array_model(added@),
                b == array_model(removed@),
                texts_model(predicates@) == preds,
                node_changes_from(
                    subject@,
                    preds,
                    p as int,
                    a,
                    b,
                    NodeChanges {
                        added: array_model(added_props@),
                        removed: array_model(removed_props@),
                        modified: array_model(modified_props@),
                    },
                ) == node_changes_from(subject@, preds, 0, a, b, none),
            decreases predicates.len() - p,
        {
            let pred = predicates[p].as_str();
            assert(pred@ == preds[p as int]);
            let gained = matching_objects(added, subject, pred);
            let lost = matching_objects(removed, subject, pred);
            let ghost before = NodeChanges {
                added: array_model(added_props@),
                removed: array_model(removed_props@),
                modified: array_model(modified_props@),
            };
            if gained.len() > 0 && lost.len() > 0 {
                let entries = vec![
                    ("change_type".to_string(), Value::text("value")),
                    ("new_value".to_string(), gained[0].deep_clone()),
                    ("old_value".to_string(), lost[0].deep_clone()),
                    ("property".to_string(), Value::text(pred)),
                ];
                assert(entries_model(entries@) =~= seq![
                    ("change_type"@, Json::Str("value"@)),
                    ("new_value"@, gained[0]@),
                    ("old_value"@, lost[0]@),
                    ("property"@, Json::Str(pred@)),
                ]);
                let ghost m = array_model(modified_props@);
                modified_props.push(Value::Object(entries));
                assert(array_model(modified_props@) =~= m.push(
                    modified_property(pred@, lost[0]@, gained[0]@),
                ));
                push_reports(&mut added_props, pred, &gained, 1, true);
                push_reports(&mut removed_props, pred, &lost, 1, false);
            } else {
                push_reports(&mut added_props, pred, &gained, 0, true);
                push_reports(&mut removed_props, pred, &lost, 0, false);
            }
            assert(NodeChanges {
                added: array_model(added_props@),
                removed: array_model(removed_props@),
                modified: array_model(modified_props@),
            } == with_property(
                before,
                pred@,
                array_model(gained@),
                array_model(lost@),
            ));
            p += 1;
        }
        let entries = vec![
            ("added_properties".to_string(), Value::Array(added_props)),
            ("modified_properties".to_string(), Value::Array(modified_props)),
            ("node_id".to_string(), Value::text(subject)),
            ("removed_properties".to_string(), Value::Array(removed_props)),
        ];
        proof {
            let c = node_changes_from(subject@, preds, 0, a, b, none);
            assert(entries_model(entries@) =~= seq![
                ("added_properties"@, Json::Array(c.added)),
                ("modified_properties"@, Json::Array(c.modified)),
                ("node_id"@, Json::Str(subject@)),
                ("removed_properties"@, Json::Array(c.removed)),
            ]);
        }
        result.push(Value::Object(entries));
        k += 1;
    }
    assert(array_model(result@) =~= grouped(a, b));
    result
}

/// The text that names a way to name blank nodes.
pub open spec fn strategy_text(s: BlankNodeStrategy) -> Seq<char> {
    match s {
        BlankNodeStrategy::Uuid => "uuid"@,
        BlankNodeStrategy::Hash => "hash"@,
        BlankNodeStrategy::Preserve => "preserve"@,
    }
}

/// The triples that the new document denotes and the old one does not.
pub open spec fn added_triples(old: Json, new: Json) -> Seq<Json> {
    difference(document_triples(new), document_triples(old))
}

/// The triples that the old document denotes and the new one does not.
pub open spec fn removed_triples(old: Json, new: Json) -> Seq<Json> {
    difference(document_triples(old), document_triples(new))
}

/// The semantic delta from `old` to `new`: the triples added and removed,
/// the same by node, the difference of the two contexts where the options
/// ask for it, and whether the two documents denote the same triples.
pub open spec fn semantic_delta(old: Json, new: Json, o: SemanticOptions) -> Json {
    let added = added_triples(old, new);
    let removed = removed_triples(old, new);
    Json::Object(
        seq![
            ("added_triples"@, Json::Array(added)),
            (
                "context_changes"@,
                if o.context_aware {
                    context_changes(old, new)
                } else {
                    no_context_changes()
                },
            ),
            (
                "metadata"@,
                Json::Object(
                    seq![
                        ("blank_node_handling"@, Json::Str(strategy_text(o.blank_node_strategy))),
                        ("normalization_algorithm"@, Json::Str("urdna2015"@)),
                        ("semantic_equivalence"@, Json::Bool(added.len() == 0 && removed.len() == 0)),
                    ],
                ),
            ),
            ("modified_nodes"@, Json::Array(grouped(added, removed))),
            ("removed_triples"@, Json::Array(removed)),
        ],
    )
}

/// The semantic delta from one document to another. Objects count by
/// their keys: the delta is that of the canonical forms of the two
/// documents, which for documents in canonical form are the documents
/// themselves.
pub fn compute_semantic_diff(old_doc: &Value, new_doc: &Value, options: &SemanticOptions) -> (r: Value)
    ensures
        r@ == semantic_delta(canonical(old_doc@), canonical(new_doc@), *options),
        wf_json(old_doc@) && wf_json(new_doc@) ==> r@ == semantic_delta(
            old_doc@,
            new_doc@,
            *options,
        ),
{
    proof {
        if wf_json(old_doc@) && wf_json(new_doc@) {
            crate::canonical::lemma_canonical_of_wf(old_doc@);
            crate::canonical::lemma_canonical_of_wf(new_doc@);
        }
    }
    let old_doc = &sorted_json_value(old_doc);
    let new_doc = &sorted_json_value(new_doc);
    let old_triples = document_to_triples_fast(old_doc);
    let new_triples = document_to_triples_fast(new_doc);
    let added = triples_difference(&new_triples, &old_triples);
    let removed = triples_difference(&old_triples, &new_triples);
    let changes = if options.context_aware {
        compare_contexts_fast(old_doc, new_doc)
    } else {
        make_no_context_changes()
    };
    let modified_nodes = group_changes_by_node_fast(&added, &removed);
    let equivalent = added.len() == 0 && removed.len() == 0;
    let strategy = match options.blank_node_strategy {
        BlankNodeStrategy::Uuid => Value::text("uuid"),
        BlankNodeStrategy::Hash => Value::text("hash"),
        BlankNodeStrategy::Preserve => Value::text("preserve"),
    };
    let metadata = vec![
        ("blank_node_handling".to_string(), strategy),
        ("normalization_algorithm".to_string(), Value::text("urdna2015")),
        ("semantic_equivalence".to_string(), Value::Bool(equivalent)),
    ];
    let ghost a = added_triples(old_doc@, new_doc@);
    let ghost b = removed_triples(old_doc@, new_doc@);
    assert(entries_model(metadata@) =~= seq![
        ("blank_node_handling"@, Json::Str(strategy_text(options.blank_node_strategy))),
        ("normalization_algorithm"@, Json::Str("urdna2015"@)),
        ("semantic_equivalence"@, Json::Bool(a.len() == 0 && b.len() == 0)),
    ]);
    let entries = vec![
        ("added_triples".to_string(), Value::Array(added)),
        ("context_changes".to_string(), changes),
        ("metadata".to_string(), Value::Object(metadata)),
        ("modified_nodes".to_string(), Value::Array(modified_nodes)),
        ("removed_triples".to_string(), Value::Array(removed)),
    ];
    assert(entries_model(entries@) =~= seq![
        ("added_triples"@, Json::Array(a)),
        (
            "context_changes"@,
            if options.context_aware {
                context_changes(old_doc@, new_doc@)
            } else {
                no_context_changes()
            },
        ),
        ("metadata"@, Json::Object(entries_model(metadata@))),
        ("modified_nodes"@, Json::Array(grouped(a, b))),
        ("removed_triples"@, Json::Array(b)),
    ]);
    Value::Object(entries)
}

/// Semantic equivalence: two documents whose triples are the same set have
/// no added and no removed triples, whatever their shapes.
pub proof fn lemma_semantic_equivalence(old: Json, new: Json)
    requires
        forall|t: Json| document_triples(old).contains(t) <==> document_triples(new).contains(t),
    ensures
        added_triples(old, new) == Seq::<Json>::empty(),
        removed_triples(old, new) == Seq::<Json>::empty(),
{
    lemma_difference_of_subset(document_triples(new), document_triples(old), 0);
    lemma_difference_of_subset(document_triples(old), document_triples(new), 0);
}

/// Nothing is left of a list of which every triple is in the other.
pub proof fn lemma_difference_of_subset(xs: Seq<Json>, ys: Seq<Json>, i: int)
    requires
        0 <= i,
        forall|t: Json| xs.contains(t) ==> ys.contains(t),
    ensures
        difference_from(xs, ys, i, Seq::empty()) == Seq::<Json>::empty(),
    decreases xs.len() - i,
{
    if i < xs.len() {
        assert(xs.contains(xs[i]));
        lemma_difference_of_subset(xs, ys, i + 1);
    }
}

} // verus!
