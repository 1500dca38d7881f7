//! Small reports and documents that the entry points of a binding hand
//! out: validation errors, a dependency graph, the text of a document as
//! triples, edit scripts as documents, and cache keys.

use crate::delta::{myers_char_ops, myers_edit_script, range_json, uint_json, EditOp};
use crate::json_text::{json_text, pretty_text, push_json_text, push_pretty_text};
use crate::text::{
    chars_of, decimal, has_prefix, insert_text, push_chars, push_decimal, push_str, slice_chars,
    str_starts_with, string_of, texts_model, with_text,
};
use crate::triples::{is_keyword, key_is_keyword};
use crate::value::{array_model, entries_model, lookup, obj_get, Entries, Json, Value};
use vstd::prelude::*;

verus! {

/// What is wrong with a document: an object must have an `@context`, and
/// an `@type` or an `@id`; anything else is no document.
pub open spec fn validation_problems(doc: Json) -> Seq<Seq<char>> {
    match doc {
        Json::Object(e) => (if lookup(e, "@context"@) is None {
            seq!["Missing @context"@]
        } else {
            Seq::empty()
        }) + (if lookup(e, "@type"@) is None && lookup(e, "@id"@) is None {
            seq!["Missing @type or @id"@]
        } else {
            Seq::empty()
        }),
        _ => seq!["Document must be an object"@],
    }
}

/// What is wrong with a document; nothing for a valid one.
pub fn validation_errors(document: &Value) -> (r: Vec<String>)
    ensures
        texts_model(r@) == validation_problems(document@),
{
    let mut errors: Vec<String> = Vec::new();
    match document {
        Value::Object(obj) => {
            let no_context = match obj_get(obj, "@context") {
                Some(_) => false,
                None => true,
            };
            let no_type = match obj_get(obj, "@type") {
                Some(_) => false,
                None => true,
            };
            let no_id = match obj_get(obj, "@id") {
                Some(_) => false,
                None => true,
            };
            if no_context {
                errors.push("Missing @context".to_string());
            }
            if no_type && no_id {
                errors.push("Missing @type or @id".to_string());
            }
        },
        _ => {
            errors.push("Document must be an object".to_string());
        },
    }
    assert(texts_model(errors@) =~= validation_problems(document@));
    errors
}

/// The models of a list of documents of which some are missing.
pub open spec fn optional_model(v: Seq<Option<Value>>) -> Seq<Option<Json>> {
    Seq::new(
        v.len(),
        |i: int|
            match v[i] {
                Some(x) => Some(x@),
                None => None,
            },
    )
}

/// A node of the dependency graph.
pub open spec fn graph_node(id: u64, name: Seq<char>) -> Json {
    Json::Object(seq![("id"@, uint_json(id)), ("name"@, Json::Str(name))])
}

/// The nodes for the blueprints from position `i` on: one for each that is
/// an object with a string under `name`, with its position as its id.
pub open spec fn graph_nodes(blueprints: Seq<Option<Json>>, i: int) -> Seq<Json>
    decreases blueprints.len() - i,
{
    if i < 0 || i >= blueprints.len() {
        Seq::empty()
    } else {
        (match blueprints[i] {
            Some(Json::Object(e)) => match lookup(e, "name"@) {
                Some(Json::Str(name)) => seq![graph_node(i as u64, name)],
                _ => Seq::empty(),
            },
            _ => Seq::empty(),
        }) + graph_nodes(blueprints, i + 1)
    }
}

/// The dependency graph of blueprints: its nodes, and no edges.
pub open spec fn dependency_graph(blueprints: Seq<Option<Json>>) -> Json {
    Json::Object(
        seq![
            ("edges"@, Json::Array(Seq::empty())),
            ("nodes"@, Json::Array(graph_nodes(blueprints, 0))),
        ],
    )
}

/// The dependency graph of blueprints, of which those that could not be
/// read are missing.
pub fn build_dependency_graph(blueprints: &Vec<Option<Value>>) -> (r: Value)
    ensures
        r@ == dependency_graph(optional_model(blueprints@)),
{
    let ghost model = optional_model(blueprints@);
    let mut nodes: Vec<Value> = Vec::new();
    assert(array_model(nodes@) =~= Seq::empty());
    let mut i: usize = 0;
    while i < blueprints.len()
        invariant
            i <= blueprints.len(),
            model == optional_model(blueprints@),
            array_model(nodes@) + graph_nodes(model, i as int) == graph_nodes(model, 0),
        decreases blueprints.len() - i,
    {
        let ghost before = array_model(nodes@);
        let ghost next = graph_nodes(model, i + 1);
        match &blueprints[i] {
            Some(Value::Object(obj)) => {
                assert(model[i as int] == Some(Json::Object(entries_model(obj@))));
                match obj_get(obj, "name") {
                    Some(Value::Str(name)) => {
                        assert(lookup(entries_model(obj@), "name"@) == Some(Json::Str(name@)));
                        let entries = vec![
                            ("id".to_string(), Value::uint(i as u64)),
                            ("name".to_string(), Value::Str(name.clone())),
                        ];
                        assert(entries_model(entries@) =~= seq![
                            ("id"@, uint_json(i as u64)),
                            ("name"@, Json::Str(name@)),
                        ]);
                        nodes.push(Value::Object(entries));
                        proof {
                            let one = seq![graph_node(i as u64, name@)];
                            assert(array_model(nodes@) =~= before + one);
                            assert(before + (one + next) =~= (before + one) + next);
                        }
                    },
                    Some(other) => {
                        assert(lookup(entries_model(obj@), "name"@) == Some(other@));
                        assert(!(other@ is Str));
                        assert(before + (Seq::<Json>::empty() + next) =~= before + next);
                    },
                    None => {
                        assert(before + (Seq::<Json>::empty() + next) =~= before + next);
                    },
                }
            },
            Some(other) => {
                assert(model[i as int] == Some(other@));
                assert(!(other@ is Object));
                assert(before + (Seq::<Json>::empty() + next) =~= before + next);
            },
            None => {
                assert(model[i as int] is None);
                assert(before + (Seq::<Json>::empty() + next) =~= before + next);
            },
        }
        i += 1;
    }
    assert(array_model(nodes@) + Seq::<Json>::empty() =~= array_model(nodes@));
    let edges: Vec<Value> = Vec::new();
    assert(array_model(edges@) =~= Seq::empty());
    let entries = vec![
        ("edges".to_string(), Value::Array(edges)),
        ("nodes".to_string(), Value::Array(nodes)),
    ];
    assert(entries_model(entries@) =~= seq![
        ("edges"@, Json::Array(Seq::empty())),
        ("nodes"@, Json::Array(graph_nodes(model, 0))),
    ]);
    Value::Object(entries)
}

/// A term of the blueprint context that holds a set.
pub open spec fn set_term(id: Seq<char>) -> Json {
    Json::Object(seq![("@container"@, Json::Str("@set"@)), ("@id"@, Json::Str(id))])
}

/// The context of blueprints.
pub open spec fn blueprint_context() -> Json {
    Json::Object(
        seq![
            (
                "@context"@,
                Json::Object(
                    seq![
                        ("@vocab"@, Json::Str("https://blueprints.ash-hq.org/vocab/"@)),
                        ("ash"@, Json::Str("https://ash-hq.org/ontology/"@)),
                        ("attributes"@, set_term("ash:attributes"@)),
                        ("name"@, Json::Str("ash:name"@)),
                        ("relationships"@, set_term("ash:relationships"@)),
                        ("type"@, Json::Str("ash:type"@)),
                    ],
                ),
            ),
        ],
    )
}

/// A term of the blueprint context that holds a set.
pub fn make_set_term(id: &str) -> (r: Value)
    ensures
        r@ == set_term(id@),
{
    let entries = vec![
        ("@container".to_string(), Value::text("@set")),
        ("@id".to_string(), Value::text(id)),
    ];
    assert(entries_model(entries@) =~= seq![
        ("@container"@, Json::Str("@set"@)),
        ("@id"@, Json::Str(id@)),
    ]);
    Value::Object(entries)
}

/// The context of blueprints.
pub fn generate_blueprint_context() -> (r: Value)
    ensures
        r@ == blueprint_context(),
{
    let terms = vec![
        ("@vocab".to_string(), Value::text("https://blueprints.ash-hq.org/vocab/")),
        ("ash".to_string(), Value::text("https://ash-hq.org/ontology/")),
        ("attributes".to_string(), make_set_term("ash:attributes")),
        ("name".to_string(), Value::text("ash:name")),
        ("relationships".to_string(), make_set_term("ash:relationships")),
        ("type".to_string(), Value::text("ash:type")),
    ];
    assert(entries_model(terms@) =~= seq![
        ("@vocab"@, Json::Str("https://blueprints.ash-hq.org/vocab/"@)),
        ("ash"@, Json::Str("https://ash-hq.org/ontology/"@)),
        ("attributes"@, set_term("ash:attributes"@)),
        ("name"@, Json::Str("ash:name"@)),
        ("relationships"@, set_term("ash:relationships"@)),
        ("type"@, Json::Str("ash:type"@)),
    ]);
    let entries = vec![("@context".to_string(), Value::Object(terms))];
    assert(entries_model(entries@) =~= seq![("@context"@, Json::Object(entries_model(terms@)))]);
    Value::Object(entries)
}

/// The document that stands for an RDF dataset read back: an empty context
/// and an empty graph.
pub open spec fn empty_graph_document() -> Json {
    Json::Object(
        seq![("@context"@, Json::Object(Seq::empty())), ("@graph"@, Json::Array(Seq::empty()))],
    )
}

/// The document that stands for an RDF dataset read back.
pub fn from_rdf() -> (r: Value)
    ensures
        r@ == empty_graph_document(),
{
    let graph: Vec<Value> = Vec::new();
    assert(array_model(graph@) =~= Seq::empty());
    let entries = vec![
        ("@context".to_string(), Value::empty_object()),
        ("@graph".to_string(), Value::Array(graph)),
    ];
    assert(entries_model(entries@) =~= seq![
        ("@context"@, Json::Object(Seq::empty())),
        ("@graph"@, Json::Array(Seq::empty())),
    ]);
    Value::Object(entries)
}

/// The subject of the simple triples of an object: its `@id` where that is
/// a string, else `_:blank`.
pub open spec fn simple_subject(e: Entries) -> Seq<char> {
    match lookup(e, "@id"@) {
        Some(Json::Str(id)) => id,
        _ => "_:blank"@,
    }
}

/// One line of simple triples: subject and predicate in angle brackets, the
/// JSON text of the object between quotation marks, and a full stop.
pub open spec fn simple_triple_line(subject: Seq<char>, predicate: Seq<char>, object: Json) -> Seq<char> {
    seq!['<'] + subject + "> <"@ + predicate + "> \""@ + json_text(object) + "\" ."@
}

/// The lines for the entries from position `i` on that are no keywords,
/// with line feeds between them; `first` says whether no line has been
/// written yet.
pub open spec fn simple_triple_lines(subject: Seq<char>, e: Entries, i: int, first: bool) -> Seq<char>
    decreases e.len() - i,
{
    if i < 0 || i >= e.len() {
        Seq::empty()
    } else if is_keyword(e[i].0) {
        simple_triple_lines(subject, e, i + 1, first)
    } else {
        (if first {
            Seq::empty()
        } else {
            seq!['\n']
        }) + simple_triple_line(subject, e[i].0, e[i].1) + simple_triple_lines(
            subject,
            e,
            i + 1,
            false,
        )
    }
}

/// The entries of an object as simple triples, one on each line; nothing
/// for any other document.
pub open spec fn simple_rdf(input: Json) -> Seq<char> {
    match input {
        Json::Object(e) => simple_triple_lines(simple_subject(e), e, 0, true),
        _ => Seq::empty(),
    }
}

/// The entries of an object as simple triples.
pub fn convert_to_rdf_simple(input: &Value) -> (r: String)
    ensures
        r@ == simple_rdf(input@),
{
    let mut out: Vec<char> = Vec::new();
    match input {
        Value::Object(obj) => {
            let ghost e = entries_model(obj@);
            let subject: Vec<char> = match obj_get(obj, "@id") {
                Some(Value::Str(id)) => {
                    assert(lookup(e, "@id"@) == Some(Json::Str(id@)));
                    chars_of(id.as_str())
                },
                Some(other) => {
                    assert(lookup(e, "@id"@) == Some(other@));
                    assert(!(other@ is Str));
                    chars_of("_:blank")
                },
                None => chars_of("_:blank"),
            };
            assert(subject@ == simple_subject(e));
            let mut first = true;
            let mut i: usize = 0;
            assert(out@ =~= Seq::<char>::empty());
            while i < obj.len()
                invariant
                    i <= obj.len(),
                    e == entries_model(obj@),
                    out@ + simple_triple_lines(subject@, e, i as int, first) == simple_triple_lines(
                        subject@,
                        e,
                        0,
                        true,
                    ),
                decreases obj.len() - i,
            {
                if !key_is_keyword(obj[i].0.as_str()) {
                    let ghost before = out@;
                    let ghost was_first = first;
                    if !first {
                        out.push('\n');
                    }
                    let ghost lead = out@;
                    out.push('<');
                    push_chars(&mut out, &subject);
                    push_str(&mut out, "> <");
                    push_str(&mut out, obj[i].0.as_str());
                    push_str(&mut out, "> \"");
                    push_json_text(&mut out, &obj[i].1);
                    push_str(&mut out, "\" .");
                    first = false;
                    proof {
                        let line = simple_triple_line(subject@, e[i as int].0, e[i as int].1);
                        let next = simple_triple_lines(subject@, e, i + 1, false);
                        assert(out@ =~= lead + line);
                        let sep = if was_first {
                            Seq::<char>::empty()
                        } else {
                            seq!['\n']
                        };
                        assert(lead =~= before + sep);
                        assert(before + (sep + line + next) =~= (before + sep + line) + next);
                    }
                }
                i += 1;
            }
            assert(out@ + Seq::<char>::empty() =~= out@);
        },
        _ => {
            assert(out@ =~= Seq::<char>::empty());
        },
    }
    string_of(&out)
}

/// The operation that deletes the item at a place.
pub open spec fn lcs_delete(i: u64) -> Json {
    Json::Object(seq![("index"@, uint_json(i)), ("type"@, Json::Str("delete"@))])
}

/// The operation that inserts an item at a place.
pub open spec fn lcs_insert(i: u64, item: Json) -> Json {
    Json::Object(
        seq![("index"@, uint_json(i)), ("type"@, Json::Str("insert"@)), ("value"@, item)],
    )
}

/// The operations that delete the places below `n`, the highest first.
pub open spec fn lcs_deletes(n: nat) -> Seq<Json>
    decreases n,
{
    if n == 0 {
        Seq::empty()
    } else {
        seq![lcs_delete((n - 1) as u64)] + lcs_deletes((n - 1) as nat)
    }
}

/// The operations that insert the items from place `i` on.
pub open spec fn lcs_inserts(items: Seq<Json>, i: int) -> Seq<Json>
    decreases items.len() - i,
{
    if i < 0 || i >= items.len() {
        Seq::empty()
    } else {
        seq![lcs_insert(i as u64, items[i])] + lcs_inserts(items, i + 1)
    }
}

/// The operations that lead from one array to another: every old item is
/// deleted, the last first, and every new item inserted, the first first.
pub fn compute_lcs_operations(old_items: &Vec<Value>, new_items: &Vec<Value>) -> (r: Vec<Value>)
    ensures
        array_model(r@) == lcs_deletes(old_items.len() as nat) + lcs_inserts(
            array_model(new_items@),
            0,
        ),
{
    let ghost b = array_model(new_items@);
    let mut operations: Vec<Value> = Vec::new();
    assert(array_model(operations@) =~= Seq::empty());
    let mut n: usize = old_items.len();
    while n > 0
        invariant
            n <= old_items.len(),
            array_model(operations@) + lcs_deletes(n as nat) == lcs_deletes(old_items.len() as nat),
        decreases n,
    {
        let ghost before = array_model(operations@);
        let entries = vec![
            ("index".to_string(), Value::uint((n - 1) as u64)),
            ("type".to_string(), Value::text("delete")),
        ];
        assert(entries_model(entries@) =~= seq![
            ("index"@, uint_json((n - 1) as u64)),
            ("type"@, Json::Str("delete"@)),
        ]);
        operations.push(Value::Object(entries));
        proof {
            let one = seq![lcs_delete((n - 1) as u64)];
            let next = lcs_deletes((n - 1) as nat);
            assert(array_model(operations@) =~= before + one);
            assert(before + (one + next) =~= (before + one) + next);
        }
        n -= 1;
    }
    let ghost middle = array_model(operations@);
    assert(middle + Seq::<Json>::empty() =~= middle);
    let mut i: usize = 0;
    while i < new_items.len()
        invariant
            i <= new_items.len(),
            b == array_model(new_items@),
            array_model(operations@) + lcs_inserts(b, i as int) == middle + lcs_inserts(b, 0),
        decreases new_items.len() - i,
    {
        let ghost before = array_model(operations@);
        let entries = vec![
            ("index".to_string(), Value::uint(i as u64)),
            ("type".to_string(), Value::text("insert")),
            ("value".to_string(), new_items[i].deep_clone()),
        ];
        assert(entries_model(entries@) =~= seq![
            ("index"@, uint_json(i as u64)),
            ("type"@, Json::Str("insert"@)),
            ("value"@, b[i as int]),
        ]);
        operations.push(Value::Object(entries));
        proof {
            let one = seq![lcs_insert(i as u64, b[i as int])];
            let next = lcs_inserts(b, i + 1);
            assert(array_model(operations@) =~= before + one);
            assert(before + (one + next) =~= (before + one) + next);
        }
        i += 1;
    }
    assert(array_model(operations@) + Seq::<Json>::empty() =~= array_model(operations@));
    operations
}

/// The text that names the kind of an edit step.
pub open spec fn tag_text(op: EditOp) -> Seq<char> {
    match op {
        EditOp::Equal { .. } => "equal"@,
        EditOp::Delete { .. } => "delete"@,
        EditOp::Insert { .. } => "insert"@,
        EditOp::Replace { .. } => "replace"@,
    }
}

/// The end of a run, or the largest number where the end does not fit.
pub open spec fn run_end(start: usize, len: usize) -> u64 {
    if start + len <= u64::MAX {
        (start + len) as u64
    } else {
        u64::MAX
    }
}

/// The range of an edit step in the old sequence.
pub open spec fn old_range_of(op: EditOp) -> Json {
    match op {
        EditOp::Equal { old_index, new_index, len } => range_json(
            old_index as u64,
            run_end(old_index, len),
        ),
        EditOp::Delete { old_index, old_len, new_index } => range_json(
            old_index as u64,
            run_end(old_index, old_len),
        ),
        EditOp::Insert { old_index, new_index, new_len } => range_json(
            old_index as u64,
            old_index as u64,
        ),
        EditOp::Replace { old_index, old_len, new_index, new_len } => range_json(
            old_index as u64,
            run_end(old_index, old_len),
        ),
    }
}

/// The range of an edit step in the new sequence.
pub open spec fn new_range_of(op: EditOp) -> Json {
    match op {
        EditOp::Equal { old_index, new_index, len } => range_json(
            new_index as u64,
            run_end(new_index, len),
        ),
        EditOp::Delete { old_index, old_len, new_index } => range_json(
            new_index as u64,
            new_index as u64,
        ),
        EditOp::Insert { old_index, new_index, new_len } => range_json(
            new_index as u64,
            run_end(new_index, new_len),
        ),
        EditOp::Replace { old_index, old_len, new_index, new_len } => range_json(
            new_index as u64,
            run_end(new_index, new_len),
        ),
    }
}

/// An edit step as a document: its kind and its two ranges.
pub open spec fn edit_step_json(op: EditOp) -> Json {
    Json::Object(
        seq![
            ("new_range"@, new_range_of(op)),
            ("old_range"@, old_range_of(op)),
            ("tag"@, Json::Str(tag_text(op))),
        ],
    )
}

/// The steps of an edit script as documents.
pub open spec fn edit_steps_json(ops: Seq<EditOp>) -> Seq<Json> {
    Seq::new(ops.len(), |i: int| edit_step_json(ops[i]))
}

/// The report of a character diff: the steps, the two texts as the parts
/// that differ, and no common prefix or suffix.
pub open spec fn text_diff_report(old: Seq<char>, new: Seq<char>, ops: Seq<EditOp>) -> Json {
    Json::Object(
        seq![
            ("common_prefix"@, Json::Str(Seq::empty())),
            ("common_suffix"@, Json::Str(Seq::empty())),
            ("new_middle"@, Json::Str(new)),
            ("old_middle"@, Json::Str(old)),
            ("operations"@, Json::Array(edit_steps_json(ops))),
        ],
    )
}

/// The end of a run.
pub fn end_of_run(start: usize, len: usize) -> (r: u64)
    ensures
        r == run_end(start, len),
{
    let a = start as u64;
    let b = len as u64;
    if b <= u64::MAX - a {
        a + b
    } else {
        u64::MAX
    }
}

/// A range as a document.
pub fn make_range_u64(start: u64, end: u64) -> (r: Value)
    ensures
        r@ == range_json(start, end),
{
    let items = vec![Value::uint(start), Value::uint(end)];
    assert(array_model(items@) =~= seq![uint_json(start), uint_json(end)]);
    Value::Array(items)
}

/// An edit step as a document.
pub fn make_edit_step(op: EditOp) -> (r: Value)
    ensures
        r@ == edit_step_json(op),
{
    let (tag, old_range, new_range) = match op {
        EditOp::Equal { old_index, new_index, len } => (
            Value::text("equal"),
            make_range_u64(old_index as u64, end_of_run(old_index, len)),
            make_range_u64(new_index as u64, end_of_run(new_index, len)),
        ),
        EditOp::Delete { old_index, old_len, new_index } => (
            Value::text("delete"),
            make_range_u64(old_index as u64, end_of_run(old_index, old_len)),
            make_range_u64(new_index as u64, new_index as u64),
        ),
        EditOp::Insert { old_index, new_index, new_len } => (
            Value::text("insert"),
            make_range_u64(old_index as u64, old_index as u64),
            make_range_u64(new_index as u64, end_of_run(new_index, new_len)),
        ),
        EditOp::Replace { old_index, old_len, new_index, new_len } => (
            Value::text("replace"),
            make_range_u64(old_index as u64, end_of_run(old_index, old_len)),
            make_range_u64(new_index as u64, end_of_run(new_index, new_len)),
        ),
    };
    let entries = vec![
        ("new_range".to_string(), new_range),
        ("old_range".to_string(), old_range),
        ("tag".to_string(), tag),
    ];
    assert(entries_model(entries@) =~= seq![
        ("new_range"@, new_range_of(op)),
        ("old_range"@, old_range_of(op)),
        ("tag"@, Json::Str(tag_text(op))),
    ]);
    Value::Object(entries)
}

/// The report of a character diff for a given edit script.
pub fn text_diff_report_from_ops(old_text: &str, new_text: &str, ops: &Vec<EditOp>) -> (r: Value)
    ensures
        r@ == text_diff_report(old_text@, new_text@, ops@),
{
    let mut operations: Vec<Value> = Vec::new();
    let mut i: usize = 0;
    while i < ops.len()
        invariant
            i <= ops.len(),
            operations.len() == i,
            forall|j: int| 0 <= j < i ==> (#[trigger] operations[j])@ == edit_step_json(ops[j]),
        decreases ops.len() - i,
    {
        operations.push(make_edit_step(ops[i]));
        i += 1;
    }
    assert(array_model(operations@) =~= edit_steps_json(ops@));
    let entries = vec![
        ("common_prefix".to_string(), Value::Str(String::new())),
        ("common_suffix".to_string(), Value::Str(String::new())),
        ("new_middle".to_string(), Value::text(new_text)),
        ("old_middle".to_string(), Value::text(old_text)),
        ("operations".to_string(), Value::Array(operations)),
    ];
    assert(entries_model(entries@) =~= seq![
        ("common_prefix"@, Json::Str(Seq::empty())),
        ("common_suffix"@, Json::Str(Seq::empty())),
        ("new_middle"@, Json::Str(new_text@)),
        ("old_middle"@, Json::Str(old_text@)),
        ("operations"@, Json::Array(edit_steps_json(ops@))),
    ]);
    Value::Object(entries)
}

/// The report of the character diff of two texts by the Myers algorithm.
pub fn text_diff_myers(old_text: &str, new_text: &str) -> (r: Value)
    ensures
        r@ == text_diff_report(old_text@, new_text@, myers_edit_script(old_text@, new_text@)),
{
    let ops = myers_char_ops(old_text, new_text);
    text_diff_report_from_ops(old_text, new_text, &ops)
}

/// The normalized representation of a document: two comment lines, then
/// the JSON text of the document on several lines.
pub open spec fn normalized_representation(doc: Json) -> Seq<char> {
    "# Normalized representation of document\n# Algorithm: URDNA2015\n"@ + pretty_text(doc)
}

/// The normalized representation of a document.
pub fn normalize_document_simple(document: &Value) -> (r: String)
    ensures
        r@ == normalized_representation(document@),
{
    let mut out: Vec<char> = Vec::new();
    push_str(&mut out, "# Normalized representation of document\n# Algorithm: URDNA2015\n");
    push_pretty_text(&mut out, document);
    assert(out@ =~= normalized_representation(document@));
    string_of(&out)
}

/// The requirement in the form that the version matcher reads: a leading
/// caret goes, anything else stays.
pub open spec fn npm_requirement(req: Seq<char>) -> Seq<char> {
    if req.len() > 0 && req[0] == '^' {
        req.skip(1)
    } else {
        req
    }
}

/// The requirement in the form that the version matcher reads.
pub fn convert_npm_requirement(req: &str) -> (r: String)
    ensures
        r@ == npm_requirement(req@),
{
    let c = chars_of(req);
    if c.len() > 0 && c[0] == '^' {
        let rest = slice_chars(&c, 1, c.len());
        assert(rest@ =~= req@.skip(1));
        string_of(&rest)
    } else {
        string_of(&c)
    }
}

/// The non-keyword keys with those of the entries from position `i` on.
pub open spec fn plain_keys_from(e: Entries, i: int, set: Seq<Seq<char>>) -> Seq<Seq<char>>
    decreases e.len() - i,
{
    if i < 0 || i >= e.len() {
        set
    } else if is_keyword(e[i].0) {
        plain_keys_from(e, i + 1, set)
    } else {
        plain_keys_from(e, i + 1, with_text(set, e[i].0))
    }
}

/// The texts from position `i` on with commas between them.
pub open spec fn comma_joined(texts: Seq<Seq<char>>, i: int) -> Seq<char>
    decreases texts.len() - i,
{
    if i < 0 || i >= texts.len() {
        Seq::empty()
    } else if i == texts.len() - 1 {
        texts[i]
    } else {
        texts[i] + seq![','] + comma_joined(texts, i + 1)
    }
}

/// The length of a text in bytes, in UTF-8.
pub open spec fn byte_len(s: Seq<char>) -> usize {
    vstd::utf8::encode_utf8(s).len() as usize
}

/// The key under which the expansion of a document is remembered: for an
/// object whether it has a context and a type, and its keys that are no
/// keywords, sorted; for an array its length; for a string that begins
/// with `http` its length in bytes; `val` for anything else.
pub open spec fn cache_key(input: Json) -> Seq<char> {
    match input {
        Json::Object(e) => "obj:"@ + (if lookup(e, "@context"@) is Some {
            "ctx"@
        } else {
            Seq::empty()
        }) + seq![':'] + (if lookup(e, "@type"@) is Some {
            "typ"@
        } else {
            Seq::empty()
        }) + seq![':'] + comma_joined(plain_keys_from(e, 0, Seq::empty()), 0),
        Json::Array(items) => "arr:"@ + decimal(items.len()),
        Json::Str(s) => if has_prefix(s, "http"@) {
            "iri:"@ + decimal(byte_len(s) as nat)
        } else {
            "val"@
        },
        _ => "val"@,
    }
}

/// The key under which the expansion of a document is remembered.
pub fn generate_json_ld_cache_key(input: &Value) -> (r: String)
    ensures
        r@ == cache_key(input@),
{
    let mut out: Vec<char> = Vec::new();
    match input {
        Value::Object(obj) => {
            let ghost e = entries_model(obj@);
            push_str(&mut out, "obj:");
            let has_context = match obj_get(obj, "@context") {
                Some(_) => true,
                None => false,
            };
            let has_type = match obj_get(obj, "@type") {
                Some(_) => true,
                None => false,
            };
            if has_context {
                push_str(&mut out, "ctx");
            }
            out.push(':');
            if has_type {
                push_str(&mut out, "typ");
            }
            out.push(':');
            let ghost head = out@;
            let mut keys: Vec<String> = Vec::new();
            assert(texts_model(keys@) =~= Seq::empty());
            let mut i: usize = 0;
            while i < obj.len()
                invariant
                    i <= obj.len(),
                    e == entries_model(obj@),
                    plain_keys_from(e, i as int, texts_model(keys@)) == plain_keys_from(
                        e,
                        0,
                        Seq::empty(),
                    ),
                decreases obj.len() - i,
            {
                if !key_is_keyword(obj[i].0.as_str()) {
                    insert_text(&mut keys, obj[i].0.as_str());
                }
                i += 1;
            }
            let ghost list = texts_model(keys@);
            let mut k: usize = 0;
            while k < keys.len()
                invariant
                    k <= keys.len(),
                    list == texts_model(keys@),
                    out@ + comma_joined(list, k as int) == head + comma_joined(list, 0),
                decreases keys.len() - k,
            {
                let ghost before = out@;
                push_str(&mut out, keys[k].as_str());
                if k + 1 < keys.len() {
                    out.push(',');
                    proof {
                        let one = list[k as int] + seq![','];
                        assert(out@ =~= before + one);
                        assert(before + (one + comma_joined(list, k + 1)) =~= (before + one)
                            + comma_joined(list, k + 1));
                    }
                } else {
                    assert(comma_joined(list, k + 1) =~= Seq::<char>::empty());
                    assert(out@ + Seq::<char>::empty() =~= out@);
                }
                k += 1;
            }
            assert(out@ + Seq::<char>::empty() =~= out@);
            assert(out@ =~= cache_key(input@));
        },
        Value::Array(arr) => {
            push_str(&mut out, "arr:");
            push_decimal(&mut out, arr.len() as u64);
            assert(out@ =~= "arr:"@ + decimal(array_model(arr@).len()));
        },
        Value::Str(s) => {
            if str_starts_with(s.as_str(), "http") {
                push_str(&mut out, "iri:");
                push_decimal(&mut out, s.as_str().len() as u64);
                assert(out@ =~= "iri:"@ + decimal(byte_len(s@) as nat));
            } else {
                push_str(&mut out, "val");
                assert(out@ =~= "val"@);
            }
        },
        _ => {
            push_str(&mut out, "val");
            assert(out@ =~= "val"@);
        },
    }
    string_of(&out)
}

/// The result of one operation of a batch, as text: the JSON text of the
/// expanded document for `expand` and `expand_binary`, an error for an
/// input that could not be read, and an error for any other operation.
pub open spec fn batch_result(op_type: Seq<char>, input: Option<Json>) -> Seq<char> {
    if op_type == "expand"@ || op_type == "expand_binary"@ {
        match input {
            Some(doc) => json_text(crate::expand::expanded(
                doc,
                crate::expand::default_context_model(),
                None,
            )),
            None => "{\"error\": \"Invalid input\"}"@,
        }
    } else {
        "{\"error\": \"Unknown operation\"}"@
    }
}

/// The result of one operation of a batch; the input is missing where it
/// could not be read.
pub fn batch_process_item(op_type: &str, input: Option<&Value>) -> (r: String)
    ensures
        r@ == batch_result(op_type@, crate::semantic_patch::value_model(input)),
{
    if crate::value::same_text(op_type, "expand") || crate::value::same_text(
        op_type,
        "expand_binary",
    ) {
        match input {
            Some(doc) => crate::json_text::to_json_text(&crate::expand::simple_expand(doc)),
            None => "{\"error\": \"Invalid input\"}".to_string(),
        }
    } else {
        "{\"error\": \"Unknown operation\"}".to_string()
    }
}

/// The result of expanding one document of a batch, as text: the JSON text
/// of the expanded document, or an error for a document that could not be
/// read.
pub open spec fn batch_expansion(input: Option<Json>) -> Seq<char> {
    match input {
        Some(doc) => json_text(crate::expand::expanded(
            doc,
            crate::expand::default_context_model(),
            None,
        )),
        None => "{\"error\": \"Invalid JSON\"}"@,
    }
}

/// The result of expanding one document of a batch.
pub fn batch_expand_item(input: Option<&Value>) -> (r: String)
    ensures
        r@ == batch_expansion(crate::semantic_patch::value_model(input)),
{
    match input {
        Some(doc) => crate::json_text::to_json_text(&crate::expand::simple_expand(doc)),
        None => "{\"error\": \"Invalid JSON\"}".to_string(),
    }
}

} // verus!
