//! The operational delta: a log of operations addressed by path, each with
//! a timestamp and an actor, and its replay on a document.

use crate::delta::uint_json;
use crate::options::pairs_model;
use crate::patch::{clone_items, text_or_empty};
use crate::text::{
    chars_of, has_prefix, parse_u64, parse_u64_model, push_str, str_lt, string_of, text_lt,
};
use crate::canonical::{canonical, sorted_json_value};
use crate::value::{
    array_model, entries_model, find_key, insert_entry, json_get, key_index, lookup, obj_insert,
    obj_remove, optional_model, remove_entry, same_model, same_text, wf_json, Entries, Json,
    NumberModel, Value,
};
use vstd::prelude::*;

verus! {

/// How two operations on one place are reconciled.
#[derive(Debug, Clone, Copy, PartialEq, Eq, Structural)]
pub enum ConflictResolution {
    LastWriteWins,
    Merge,
}

/// The options of an operational diff.
#[derive(Debug)]
pub struct OperationalOptions {
    /// Who makes the operations.
    pub actor_id: String,
    /// The timestamp of the first operation.
    pub base_timestamp: u64,
    /// Recorded with the log; replay is always last-write-wins.
    pub conflict_resolution: ConflictResolution,
}

/// The model of the options of an operational diff.
pub struct OperationalOptionsModel {
    pub actor_id: Seq<char>,
    pub base_timestamp: u64,
    pub conflict_resolution: ConflictResolution,
}

impl View for OperationalOptions {
    type V = OperationalOptionsModel;

    open spec fn view(&self) -> OperationalOptionsModel {
        OperationalOptionsModel {
            actor_id: self.actor_id@,
            base_timestamp: self.base_timestamp,
            conflict_resolution: self.conflict_resolution,
        }
    }
}

/// The options after one more pair: `actor_id` sets the actor, `timestamp`
/// the first timestamp where its value is a numeral, `conflict_resolution`
/// the way to reconcile, last-write-wins unless the value is `merge`.
pub open spec fn operational_option_step(
    o: OperationalOptionsModel,
    key: Seq<char>,
    value: Seq<char>,
) -> OperationalOptionsModel {
    if key == "actor_id"@ {
        OperationalOptionsModel { actor_id: value, ..o }
    } else if key == "timestamp"@ {
        match parse_u64_model(value) {
            Some(t) => OperationalOptionsModel { base_timestamp: t, ..o },
            None => o,
        }
    } else if key == "conflict_resolution"@ {
        OperationalOptionsModel {
            conflict_resolution: if value == "merge"@ {
                ConflictResolution::Merge
            } else {
                ConflictResolution::LastWriteWins
            },
            ..o
        }
    } else {
        o
    }
}

/// The options after the pairs from position `i`, taken in order.
pub open spec fn operational_options_from(
    opts: Seq<(Seq<char>, Seq<char>)>,
    i: int,
    o: OperationalOptionsModel,
) -> OperationalOptionsModel
    decreases opts.len() - i,
{
    if i < 0 || i >= opts.len() {
        o
    } else {
        operational_options_from(
            opts,
            i + 1,
            operational_option_step(o, opts[i].0, opts[i].1),
        )
    }
}

/// The options with which reading starts: the given actor and first
/// timestamp, and last-write-wins.
pub open spec fn initial_operational_options(actor: Seq<char>, timestamp: u64) -> OperationalOptionsModel {
    OperationalOptionsModel {
        actor_id: actor,
        base_timestamp: timestamp,
        conflict_resolution: ConflictResolution::LastWriteWins,
    }
}

/// Reads the options of an operational diff from pairs of key and value,
/// starting from the given actor and first timestamp.
pub fn parse_operational_options_from(
    opts: &Vec<(String, String)>,
    actor: String,
    timestamp: u64,
) -> (r: OperationalOptions)
    ensures
        r@ == operational_options_from(
            pairs_model(opts@),
            0,
            initial_operational_options(actor@, timestamp),
        ),
{
    let mut options = OperationalOptions {
        actor_id: actor,
        base_timestamp: timestamp,
        conflict_resolution: ConflictResolution::LastWriteWins,
    };
    let ghost model = pairs_model(opts@);
    let ghost goal = operational_options_from(
        model,
        0,
        initial_operational_options(actor@, timestamp),
    );
    let mut i: usize = 0;
    while i < opts.len()
        invariant
            i <= opts.len(),
            model == pairs_model(opts@),
            operational_options_from(model, i as int, options@) == goal,
        decreases opts.len() - i,
    {
        let key = opts[i].0.as_str();
        let value = opts[i].1.as_str();
        let ghost before = options@;
        if same_text(key, "actor_id") {
            options.actor_id = opts[i].1.clone();
        } else if same_text(key, "timestamp") {
            match parse_u64(&chars_of(value)) {
                Some(t) => {
                    options.base_timestamp = t;
                },
                None => {},
            }
        } else if same_text(key, "conflict_resolution") {
            options.conflict_resolution = if same_text(value, "merge") {
                ConflictResolution::Merge
            } else {
                ConflictResolution::LastWriteWins
            };
        }
        assert(options@ == operational_option_step(before, model[i as int].0, model[i as int].1));
        i += 1;
    }
    options
}

/// `Uuid::new_v4().simple()` of the crate `uuid`, as text: a fresh random
/// identifier. Nothing is claimed of it.
#[verifier::external_body]
pub(crate) fn random_identifier() -> String {
    uuid::Uuid::new_v4().simple().to_string()
}

/// A fresh actor id: `actor_` and a random identifier.
pub fn generate_actor_id() -> (r: String)
    ensures
        has_prefix(r@, "actor_"@),
{
    let id = random_identifier();
    let mut out: Vec<char> = Vec::new();
    push_str(&mut out, "actor_");
    let ghost head = out@;
    push_str(&mut out, id.as_str());
    proof {
        assert(head =~= "actor_"@);
        assert(out@.subrange(0, head.len() as int) =~= head);
    }
    string_of(&out)
}

/// `SystemTime::now().duration_since(UNIX_EPOCH)` of the standard library,
/// as nanoseconds cut to 64 bits, or 0 for a clock before the epoch. The
/// result is whatever the clock says: nothing is claimed of it.
#[verifier::external_body]
pub(crate) fn current_timestamp_nanos() -> u64 {
    match std::time::SystemTime::now().duration_since(std::time::UNIX_EPOCH) {
        Ok(d) => d.as_nanos() as u64,
        Err(_) => 0,
    }
}

/// Reads the options of an operational diff from pairs of key and value. An
/// actor that no pair gives is a fresh random one, a first timestamp that
/// no pair gives is the time of the call.
pub fn parse_operational_options(opts: &Vec<(String, String)>) -> (r: OperationalOptions)
    ensures
        exists|actor: Seq<char>, timestamp: u64|
            has_prefix(actor, "actor_"@) && r@ == operational_options_from(
                pairs_model(opts@),
                0,
                #[trigger] initial_operational_options(actor, timestamp),
            ),
{
    let actor = generate_actor_id();
    let timestamp = current_timestamp_nanos();
    let ghost a = actor@;
    let r = parse_operational_options_from(opts, actor, timestamp);
    assert(has_prefix(a, "actor_"@) && r@ == operational_options_from(
        pairs_model(opts@),
        0,
        initial_operational_options(a, timestamp),
    ));
    r
}

/// The document with `value` at the end of `path` from segment `idx` on. A
/// string segment names a key of an object, an integer segment a place of
/// an array. The last segment sets the key, or the place where the array
/// has it; a segment that leads nowhere leaves the document as it is.
pub open spec fn set_rec(cur: Json, path: Seq<Json>, idx: int, value: Json) -> Json
    decreases path.len() - idx,
{
    if idx < 0 || idx >= path.len() {
        cur
    } else {
        let last = idx == path.len() - 1;
        match (cur, path[idx]) {
            (Json::Object(e), Json::Str(k)) => if last {
                Json::Object(insert_entry(e, k, value))
            } else {
                match key_index(e, k) {
                    Some(i) => Json::Object(
                        e.update(i, (e[i].0, set_rec(e[i].1, path, idx + 1, value))),
                    ),
                    None => cur,
                }
            },
            (Json::Array(items), Json::Number(NumberModel::PosInt(n))) => if n < items.len() {
                if last {
                    Json::Array(items.update(n as int, value))
                } else {
                    Json::Array(
                        items.update(n as int, set_rec(items[n as int], path, idx + 1, value)),
                    )
                }
            } else {
                cur
            },
            _ => cur,
        }
    }
}

/// Sets `value` at the end of `path` from segment `index` on.
pub fn set_value_at_path_recursive(current: &mut Value, path: &Vec<Value>, index: usize, value: Value)
    ensures
        final(current)@ == set_rec(old(current)@, array_model(path@), index as int, value@),
    decreases path.len() - index,
{
    if index >= path.len() {
        return;
    }
    let last = index == path.len() - 1;
    let ghost p = array_model(path@);
    assert(p[index as int] == path[index as int]@);
    match current {
        Value::Object(entries) => {
            match &path[index] {
                Value::Str(k) => {
                    if last {
                        obj_insert(entries, k.clone(), value);
                    } else {
                        match find_key(entries, k.as_str()) {
                            Some(i) => {
                                let ghost before = entries_model(entries@);
                                set_value_at_path_recursive(&mut entries[i].1, path, index + 1, value);
                                assert(entries_model(entries@) =~= before.update(
                                    i as int,
                                    (before[i as int].0, set_rec(before[i as int].1, p, index + 1, value@)),
                                ));
                            },
                            None => {},
                        }
                    }
                },
                _ => {
                    assert(!(path[index as int]@ is Str));
                },
            }
        },
        Value::Array(items) => {
            match path[index].as_u64() {
                Some(n) => {
                    if n < items.len() as u64 {
                        let at = n as usize;
                        let ghost before = array_model(items@);
                        if last {
                            items[at] = value;
                            assert(array_model(items@) =~= before.update(at as int, value@));
                        } else {
                            set_value_at_path_recursive(&mut items[at], path, index + 1, value);
                            assert(array_model(items@) =~= before.update(
                                at as int,
                                set_rec(before[at as int], p, index + 1, value@),
                            ));
                        }
                    }
                },
                None => {},
            }
        },
        _ => {},
    }
}

/// The document with `value` at `path`: the value itself for the empty
/// path.
pub open spec fn set_at(doc: Json, path: Seq<Json>, value: Json) -> Json {
    if path.len() == 0 {
        value
    } else {
        set_rec(doc, path, 0, value)
    }
}

/// Sets `value` at `path`.
pub fn set_value_at_path(document: &mut Value, path: &Vec<Value>, value: Value)
    ensures
        final(document)@ == set_at(old(document)@, array_model(path@), value@),
{
    if path.len() == 0 {
        *document = value;
        return;
    }
    set_value_at_path_recursive(document, path, 0, value);
}

/// The document without what stands at the end of `path` from segment
/// `idx` on: the last segment removes the key from an object, or the place
/// from an array that has it; a segment that leads nowhere leaves the
/// document as it is.
pub open spec fn delete_rec(cur: Json, path: Seq<Json>, idx: int) -> Json
    decreases path.len() - idx,
{
    if idx < 0 || idx >= path.len() {
        cur
    } else {
        let last = idx == path.len() - 1;
        match (cur, path[idx]) {
            (Json::Object(e), Json::Str(k)) => if last {
                Json::Object(remove_entry(e, k))
            } else {
                match key_index(e, k) {
                    Some(i) => Json::Object(e.update(i, (e[i].0, delete_rec(e[i].1, path, idx + 1)))),
                    None => cur,
                }
            },
            (Json::Array(items), Json::Number(NumberModel::PosInt(n))) => if n < items.len() {
                if last {
                    Json::Array(items.remove(n as int))
                } else {
                    Json::Array(items.update(n as int, delete_rec(items[n as int], path, idx + 1)))
                }
            } else {
                cur
            },
            _ => cur,
        }
    }
}

/// The document without what stands at `path`: null for the empty path.
pub open spec fn delete_at(doc: Json, path: Seq<Json>) -> Json {
    if path.len() == 0 {
        Json::Null
    } else {
        delete_rec(doc, path, 0)
    }
}

/// Deletes what stands at the end of `path` from segment `index` on.
pub fn delete_value_at_path_recursive(current: &mut Value, path: &Vec<Value>, index: usize)
    ensures
        final(current)@ == delete_rec(old(current)@, array_model(path@), index as int),
    decreases path.len() - index,
{
    if index >= path.len() {
        return;
    }
    let last = index == path.len() - 1;
    let ghost p = array_model(path@);
    assert(p[index as int] == path[index as int]@);
    match current {
        Value::Object(entries) => {
            match &path[index] {
                Value::Str(k) => {
                    if last {
                        obj_remove(entries, k.as_str());
                    } else {
                        match find_key(entries, k.as_str()) {
                            Some(i) => {
                                let ghost before = entries_model(entries@);
                                delete_value_at_path_recursive(&mut entries[i].1, path, index + 1);
                                assert(entries_model(entries@) =~= before.update(
                                    i as int,
                                    (before[i as int].0, delete_rec(before[i as int].1, p, index + 1)),
                                ));
                            },
                            None => {},
                        }
                    }
                },
                _ => {
                    assert(!(path[index as int]@ is Str));
                },
            }
        },
        Value::Array(items) => {
            match path[index].as_u64() {
                Some(n) => {
                    if n < items.len() as u64 {
                        let at = n as usize;
                        let ghost before = array_model(items@);
                        if last {
                            items.remove(at);
                            assert(array_model(items@) =~= before.remove(at as int));
                        } else {
                            delete_value_at_path_recursive(&mut items[at], path, index + 1);
                            assert(array_model(items@) =~= before.update(
                                at as int,
                                delete_rec(before[at as int], p, index + 1),
                            ));
                        }
                    }
                },
                None => {},
            }
        },
        _ => {},
    }
}

/// Deletes what stands at `path`.
pub fn delete_value_at_path(document: &mut Value, path: &Vec<Value>)
    ensures
        final(document)@ == delete_at(old(document)@, array_model(path@)),
{
    if path.len() == 0 {
        *document = Value::Null;
        return;
    }
    delete_value_at_path_recursive(document, path, 0);
}

/// The document with `value` put in at the end of `path` from segment
/// `idx` on: the last segment inserts at the place of an array, or at its
/// end where the place lies beyond it, and sets the key of an object; a
/// segment that leads nowhere leaves the document as it is.
pub open spec fn insert_rec(cur: Json, path: Seq<Json>, idx: int, value: Json) -> Json
    decreases path.len() - idx,
{
    if idx < 0 || idx >= path.len() {
        cur
    } else {
        let last = idx == path.len() - 1;
        match (cur, path[idx]) {
            (Json::Array(items), Json::Number(NumberModel::PosInt(n))) => if n <= usize::MAX {
                if last {
                    Json::Array(
                        items.insert(
                            if n <= items.len() {
                                n as int
                            } else {
                                items.len() as int
                            },
                            value,
                        ),
                    )
                } else if n < items.len() {
                    Json::Array(
                        items.update(n as int, insert_rec(items[n as int], path, idx + 1, value)),
                    )
                } else {
                    cur
                }
            } else {
                cur
            },
            (Json::Object(e), Json::Str(k)) => if last {
                Json::Object(insert_entry(e, k, value))
            } else {
                match key_index(e, k) {
                    Some(i) => Json::Object(
                        e.update(i, (e[i].0, insert_rec(e[i].1, path, idx + 1, value))),
                    ),
                    None => cur,
                }
            },
            _ => cur,
        }
    }
}

/// The document with `value` put in at `path`: the value itself for the
/// empty path.
pub open spec fn insert_at(doc: Json, path: Seq<Json>, value: Json) -> Json {
    if path.len() == 0 {
        value
    } else {
        insert_rec(doc, path, 0, value)
    }
}

/// Puts `value` in at the end of `path` from segment `index` on.
pub fn insert_value_at_path_recursive(current: &mut Value, path: &Vec<Value>, index: usize, value: Value)
    ensures
        final(current)@ == insert_rec(old(current)@, array_model(path@), index as int, value@),
    decreases path.len() - index,
{
    if index >= path.len() {
        return;
    }
    let last = index == path.len() - 1;
    let ghost p = array_model(path@);
    assert(p[index as int] == path[index as int]@);
    match current {
        Value::Object(entries) => {
            match &path[index] {
                Value::Str(k) => {
                    if last {
                        obj_insert(entries, k.clone(), value);
                    } else {
                        match find_key(entries, k.as_str()) {
                            Some(i) => {
                                let ghost before = entries_model(entries@);
                                insert_value_at_path_recursive(&mut entries[i].1, path, index + 1, value);
                                assert(entries_model(entries@) =~= before.update(
                                    i as int,
                                    (before[i as int].0, insert_rec(before[i as int].1, p, index + 1, value@)),
                                ));
                            },
                            None => {},
                        }
                    }
                },
                _ => {
                    assert(!(path[index as int]@ is Str));
                },
            }
        },
        Value::Array(items) => {
            match path[index].as_u64() {
                Some(n) => {
                    if n <= usize::MAX as u64 {
                        let ghost before = array_model(items@);
                        if last {
                            let at = if n <= items.len() as u64 {
                                n as usize
                            } else {
                                items.len()
                            };
                            items.insert(at, value);
                            assert(array_model(items@) =~= before.insert(at as int, value@));
                        } else if n < items.len() as u64 {
                            let at = n as usize;
                            insert_value_at_path_recursive(&mut items[at], path, index + 1, value);
                            assert(array_model(items@) =~= before.update(
                                at as int,
                                insert_rec(before[at as int], p, index + 1, value@),
                            ));
                        }
                    }
                },
                None => {},
            }
        },
        _ => {},
    }
}

/// Puts `value` in at `path`.
pub fn insert_value_at_path(document: &mut Value, path: &Vec<Value>, value: Value)
    ensures
        final(document)@ == insert_at(old(document)@, array_model(path@), value@),
{
    if path.len() == 0 {
        *document = value;
        return;
    }
    insert_value_at_path_recursive(document, path, 0, value);
}

/// The path of an operation: the items of its `path`, or no segments.
pub open spec fn op_path(op: Json) -> Seq<Json> {
    match json_get(op, "path"@) {
        Some(Json::Array(p)) => p,
        _ => Seq::empty(),
    }
}

/// The document after one operation: `set` and `insert` need a value,
/// `delete` needs none, and any other kind does nothing.
pub open spec fn apply_op(doc: Json, op: Json) -> Json {
    let kind = text_or_empty(json_get(op, "type"@));
    if kind == "set"@ {
        match json_get(op, "value"@) {
            Some(v) => set_at(doc, op_path(op), v),
            None => doc,
        }
    } else if kind == "delete"@ {
        delete_at(doc, op_path(op))
    } else if kind == "insert"@ {
        match json_get(op, "value"@) {
            Some(v) => insert_at(doc, op_path(op), v),
            None => doc,
        }
    } else {
        doc
    }
}

/// Applies one operation to the document.
pub fn apply_single_operation(document: &mut Value, op: &Value)
    ensures
        final(document)@ == apply_op(old(document)@, op@),
{
    let kind = op.get("type");
    let is_set = match kind {
        Some(Value::Str(k)) => same_text(k.as_str(), "set"),
        _ => same_text("", "set"),
    };
    let is_delete = match kind {
        Some(Value::Str(k)) => same_text(k.as_str(), "delete"),
        _ => same_text("", "delete"),
    };
    let is_insert = match kind {
        Some(Value::Str(k)) => same_text(k.as_str(), "insert"),
        _ => same_text("", "insert"),
    };
    proof {
        assert(""@ =~= Seq::<char>::empty()) by {
            reveal_strlit("");
        }
        let k = text_or_empty(json_get(op@, "type"@));
        assert(is_set == (k == "set"@));
        assert(is_delete == (k == "delete"@));
        assert(is_insert == (k == "insert"@));
    }
    let empty_path: Vec<Value> = Vec::new();
    assert(array_model(empty_path@) =~= Seq::empty());
    let path: &Vec<Value> = match op.get("path") {
        Some(Value::Array(p)) => {
            assert(json_get(op@, "path"@) == Some(Json::Array(array_model(p@))));
            p
        },
        Some(other) => {
            assert(json_get(op@, "path"@) == Some(other@));
            assert(!(other@ is Array));
            &empty_path
        },
        None => &empty_path,
    };
    assert(array_model(path@) == op_path(op@));
    if is_set {
        match op.get("value") {
            Some(v) => {
                set_value_at_path(document, path, v.deep_clone());
            },
            None => {},
        }
    } else if is_delete {
        delete_value_at_path(document, path);
    } else if is_insert {
        match op.get("value") {
            Some(v) => {
                insert_value_at_path(document, path, v.deep_clone());
            },
            None => {},
        }
    }
}

/// The timestamp of an operation: its `timestamp` where that is a
/// non-negative integer, else 0.
pub open spec fn op_timestamp(op: Json) -> u64 {
    match json_get(op, "timestamp"@) {
        Some(Json::Number(NumberModel::PosInt(n))) => n,
        _ => 0,
    }
}

/// The timestamp of an operation.
pub fn timestamp_of(op: &Value) -> (r: u64)
    ensures
        r == op_timestamp(op@),
{
    match op.get("timestamp") {
        Some(v) => match v.as_u64() {
            Some(n) => n,
            None => 0,
        },
        None => 0,
    }
}

/// The first position at or after `from` that holds an operation with a
/// later timestamp than `t`, or the length of the list.
pub open spec fn time_position(s: Seq<Json>, t: u64, from: int) -> int
    decreases s.len() - from,
{
    if from < 0 || from >= s.len() {
        s.len() as int
    } else if op_timestamp(s[from]) > t {
        from
    } else {
        time_position(s, t, from + 1)
    }
}

/// The list with `op` put after every operation whose timestamp is not
/// later than its own.
pub open spec fn time_insert(s: Seq<Json>, op: Json) -> Seq<Json> {
    s.insert(time_position(s, op_timestamp(op), 0), op)
}

/// The list `acc` with the operations from position `i` on put in, one
/// after the other.
pub open spec fn sort_from(ops: Seq<Json>, i: int, acc: Seq<Json>) -> Seq<Json>
    decreases ops.len() - i,
{
    if i < 0 || i >= ops.len() {
        acc
    } else {
        sort_from(ops, i + 1, time_insert(acc, ops[i]))
    }
}

/// The operations in ascending order of their timestamps; operations with
/// one timestamp stay in the order in which they came.
pub open spec fn sorted_by_time(ops: Seq<Json>) -> Seq<Json> {
    sort_from(ops, 0, Seq::empty())
}

/// The models of a list of references to values.
pub open spec fn refs_model(s: Seq<&Value>) -> Seq<Json> {
    Seq::new(s.len(), |i: int| s[i]@)
}

/// The operations in ascending order of their timestamps.
pub fn sort_by_timestamp<'a>(operations: &'a Vec<Value>) -> (r: Vec<&'a Value>)
    ensures
        refs_model(r@) == sorted_by_time(array_model(operations@)),
{
    let ghost ops = array_model(operations@);
    let mut sorted: Vec<&Value> = Vec::new();
    assert(refs_model(sorted@) =~= Seq::empty());
    let mut i: usize = 0;
    while i < operations.len()
        invariant
            i <= operations.len(),
            ops == array_model(operations@),
            sort_from(ops, i as int, refs_model(sorted@)) == sorted_by_time(ops),
        decreases operations.len() - i,
    {
        let op = &operations[i];
        let t = timestamp_of(op);
        let ghost acc = refs_model(sorted@);
        let mut k: usize = 0;
        let mut found = false;
        while !found && k < sorted.len()
            invariant
                k <= sorted.len(),
                acc == refs_model(sorted@),
                found ==> k < sorted.len() && op_timestamp(acc[k as int]) > t,
                time_position(acc, t, 0) == time_position(acc, t, k as int),
            decreases sorted.len() - k + if found { 0int } else { 1int },
        {
            if timestamp_of(sorted[k]) > t {
                found = true;
            } else {
                k += 1;
            }
        }
        sorted.insert(k, op);
        assert(refs_model(sorted@) =~= time_insert(acc, ops[i as int]));
        i += 1;
    }
    sorted
}

/// The document after the operations from position `i` on, in order.
pub open spec fn replay_from_op(doc: Json, ops: Seq<Json>, i: int) -> Json
    decreases ops.len() - i,
{
    if i < 0 || i >= ops.len() {
        doc
    } else {
        replay_from_op(apply_op(doc, ops[i]), ops, i + 1)
    }
}

/// The document after a log: its operations in ascending order of their
/// timestamps, one after the other.
pub open spec fn replay_log(doc: Json, ops: Seq<Json>) -> Json {
    replay_from_op(doc, sorted_by_time(ops), 0)
}

/// Replays a log on the document: sorts the operations by timestamp,
/// keeping the order of those with one timestamp, and applies them in turn.
pub fn apply_operational_operations(document: &mut Value, operations: &Vec<Value>)
    ensures
        final(document)@ == replay_log(old(document)@, array_model(operations@)),
{
    let sorted = sort_by_timestamp(operations);
    let ghost list = refs_model(sorted@);
    let mut i: usize = 0;
    while i < sorted.len()
        invariant
            i <= sorted.len(),
            list == refs_model(sorted@),
            replay_from_op(document@, list, i as int) == replay_from_op(old(document)@, list, 0),
        decreases sorted.len() - i,
    {
        apply_single_operation(document, sorted[i]);
        i += 1;
    }
}

/// The document after the log that a patch holds under `operations`; a
/// patch without such a list changes nothing.
pub open spec fn patched_operational(doc: Json, patch: Json) -> Json {
    match json_get(patch, "operations"@) {
        Some(Json::Array(ops)) => replay_log(doc, ops),
        _ => doc,
    }
}

/// Applies an operational patch to the document.
pub fn patch_operational(document: &mut Value, patch: &Value)
    ensures
        final(document)@ == patched_operational(old(document)@, patch@),
{
    match patch.get("operations") {
        Some(Value::Array(ops)) => {
            assert(json_get(patch@, "operations"@) == Some(Json::Array(array_model(ops@))));
            apply_operational_operations(document, ops);
        },
        Some(other) => {
            assert(json_get(patch@, "operations"@) == Some(other@));
            assert(!(other@ is Array));
        },
        None => {},
    }
}

/// The kind of an operation.
#[derive(Debug, Clone, Copy, PartialEq, Eq, Structural)]
pub enum OpKind {
    SetValue,
    DeleteValue,
    InsertValue,
}

/// An operation before it has its timestamp and actor: its kind, the path
/// it speaks of, and its value (null for a deletion).
#[derive(Debug)]
pub struct RawOp {
    pub kind: OpKind,
    pub path: Vec<Value>,
    pub value: Value,
}

/// The model of an operation before it has its timestamp and actor.
pub struct RawOpModel {
    pub kind: OpKind,
    pub path: Seq<Json>,
    pub value: Json,
}

impl View for RawOp {
    type V = RawOpModel;

    open spec fn view(&self) -> RawOpModel {
        RawOpModel { kind: self.kind, path: array_model(self.path@), value: self.value@ }
    }
}

/// The models of a list of operations.
pub open spec fn raw_model(s: Seq<RawOp>) -> Seq<RawOpModel> {
    Seq::new(s.len(), |i: int| s[i]@)
}

/// The operations that delete the places of an array of length `n`, the
/// highest first.
pub open spec fn array_delete_ops(path: Seq<Json>, n: nat) -> Seq<RawOpModel>
    decreases n,
{
    if n == 0 {
        Seq::empty()
    } else {
        seq![
            RawOpModel {
                kind: OpKind::DeleteValue,
                path: path.push(uint_json((n - 1) as u64)),
                value: Json::Null,
            },
        ] + array_delete_ops(path, (n - 1) as nat)
    }
}

/// The operations that insert the items of an array from place `i` on, in
/// ascending order.
pub open spec fn array_insert_ops(path: Seq<Json>, b: Seq<Json>, i: int) -> Seq<RawOpModel>
    decreases b.len() - i,
{
    if i < 0 || i >= b.len() {
        Seq::empty()
    } else {
        seq![RawOpModel { kind: OpKind::InsertValue, path: path.push(uint_json(i as u64)), value: b[i] }]
            + array_insert_ops(path, b, i + 1)
    }
}

/// The operations that lead from `old` to `new`, both standing at `path`.
/// Equal documents need none. Two objects are compared key by key; two
/// arrays are replaced item by item, the old items deleted from the last
/// to the first and the new ones inserted from the first to the last; any
/// other pair is one `set` of the new document.
pub open spec fn raw_ops(old: Json, new: Json, path: Seq<Json>) -> Seq<RawOpModel>
    decreases old, 0nat,
{
    if old == new {
        Seq::empty()
    } else {
        match (old, new) {
            (Json::Object(a), Json::Object(b)) => object_raw_ops(a, b, 0, 0, path),
            (Json::Array(a), Json::Array(b)) => array_delete_ops(path, a.len()) + array_insert_ops(
                path,
                b,
                0,
            ),
            _ => seq![RawOpModel { kind: OpKind::SetValue, path: path, value: new }],
        }
    }
}

/// The operations that lead from one object to another, from the entries
/// at `i` and `j` on, both taken in key order: a key of the old object
/// alone is deleted, a key of the new one alone is set, and a key of both
/// has the operations that lead from its old value to its new one.
pub open spec fn object_raw_ops(a: Entries, b: Entries, i: int, j: int, path: Seq<Json>) -> Seq<RawOpModel>
    decreases a, (if i < a.len() { a.len() - i } else { 0 }) + (if j < b.len() { b.len() - j } else { 0 }),
{
    if i < 0 || j < 0 || (i >= a.len() && j >= b.len()) {
        Seq::empty()
    } else if j >= b.len() || (i < a.len() && text_lt(a[i].0, b[j].0)) {
        seq![
            RawOpModel {
                kind: OpKind::DeleteValue,
                path: path.push(Json::Str(a[i].0)),
                value: Json::Null,
            },
        ] + object_raw_ops(a, b, i + 1, j, path)
    } else if i >= a.len() || text_lt(b[j].0, a[i].0) {
        seq![RawOpModel { kind: OpKind::SetValue, path: path.push(Json::Str(b[j].0)), value: b[j].1 }]
            + object_raw_ops(a, b, i, j + 1, path)
    } else {
        raw_ops(a[i].1, b[j].1, path.push(Json::Str(a[i].0))) + object_raw_ops(
            a,
            b,
            i + 1,
            j + 1,
            path,
        )
    }
}

/// The path with one more segment.
pub fn extend_path(path: &Vec<Value>, segment: Value) -> (r: Vec<Value>)
    ensures
        array_model(r@) == array_model(path@).push(segment@),
{
    let mut out = clone_items(path);
    let ghost before = array_model(out@);
    out.push(segment);
    assert(array_model(out@) =~= before.push(segment@));
    out
}

/// Appends to `operations` the operations that lead from `old` to `new`,
/// both standing at `path`.
pub fn diff_values_operational(
    old_value: &Value,
    new_value: &Value,
    path: &Vec<Value>,
    operations: &mut Vec<RawOp>,
)
    ensures
        raw_model(final(operations)@) == raw_model(old(operations)@) + raw_ops(
            old_value@,
            new_value@,
            array_model(path@),
        ),
    decreases old_value, 0nat,
{
    let ghost before = raw_model(operations@);
    if same_model(old_value, new_value) {
        assert(before + Seq::<RawOpModel>::empty() =~= before);
        return;
    }
    match (old_value, new_value) {
        (Value::Object(old_obj), Value::Object(new_obj)) => {
            diff_objects_operational(old_obj, new_obj, path, operations);
            assert(old_value@ == Json::Object(entries_model(old_obj@)));
            assert(new_value@ == Json::Object(entries_model(new_obj@)));
        },
        (Value::Array(old_arr), Value::Array(new_arr)) => {
            diff_arrays_operational(old_arr, new_arr, path, operations);
            assert(old_value@ == Json::Array(array_model(old_arr@)));
            assert(new_value@ == Json::Array(array_model(new_arr@)));
        },
        _ => {
            operations.push(
                RawOp { kind: OpKind::SetValue, path: clone_items(path), value: new_value.deep_clone() },
            );
            assert(raw_model(operations@) =~= before + seq![
                RawOpModel { kind: OpKind::SetValue, path: array_model(path@), value: new_value@ },
            ]);
            assert(!(old_value@ is Object && new_value@ is Object));
            assert(!(old_value@ is Array && new_value@ is Array));
            assert(raw_ops(old_value@, new_value@, array_model(path@)) == seq![
                RawOpModel { kind: OpKind::SetValue, path: array_model(path@), value: new_value@ },
            ]);
        },
    }
}

/// Appends the operations that lead from one object to another.
#[verifier::loop_isolation(false)]
pub fn diff_objects_operational(
    old_obj: &Vec<(String, Value)>,
    new_obj: &Vec<(String, Value)>,
    path: &Vec<Value>,
    operations: &mut Vec<RawOp>,
)
    ensures
        raw_model(final(operations)@) == raw_model(old(operations)@) + object_raw_ops(
            entries_model(old_obj@),
            entries_model(new_obj@),
            0,
            0,
            array_model(path@),
        ),
    decreases old_obj, old_obj.len() + new_obj.len(),
{
    let ghost a = entries_model(old_obj@);
    let ghost b = entries_model(new_obj@);
    let ghost p = array_model(path@);
    let ghost start = raw_model(operations@);
    let mut i: usize = 0;
    let mut j: usize = 0;
    while i < old_obj.len() || j < new_obj.len()
        invariant
            i <= old_obj.len(),
            j <= new_obj.len(),
            raw_model(operations@) + object_raw_ops(a, b, i as int, j as int, p) == start
                + object_raw_ops(a, b, 0, 0, p),
        decreases (old_obj.len() - i) + (new_obj.len() - j),
    {
        let ghost before = raw_model(operations@);
        if j >= new_obj.len() || (i < old_obj.len() && str_lt(
            old_obj[i].0.as_str(),
            new_obj[j].0.as_str(),
        )) {
            let segment = Value::Str(old_obj[i].0.clone());
            operations.push(
                RawOp { kind: OpKind::DeleteValue, path: extend_path(path, segment), value: Value::Null },
            );
            proof {
                let e = RawOpModel {
                    kind: OpKind::DeleteValue,
                    path: p.push(Json::Str(a[i as int].0)),
                    value: Json::Null,
                };
                let next = object_raw_ops(a, b, i + 1, j as int, p);
                assert(raw_model(operations@) =~= before + seq![e]);
                assert(before + (seq![e] + next) =~= (before + seq![e]) + next);
            }
            i += 1;
        } else if i >= old_obj.len() || str_lt(new_obj[j].0.as_str(), old_obj[i].0.as_str()) {
            let segment = Value::Str(new_obj[j].0.clone());
            operations.push(
                RawOp {
                    kind: OpKind::SetValue,
                    path: extend_path(path, segment),
                    value: new_obj[j].1.deep_clone(),
                },
            );
            proof {
                let e = RawOpModel {
                    kind: OpKind::SetValue,
                    path: p.push(Json::Str(b[j as int].0)),
                    value: b[j as int].1,
                };
                let next = object_raw_ops(a, b, i as int, j + 1, p);
                assert(raw_model(operations@) =~= before + seq![e]);
                assert(before + (seq![e] + next) =~= (before + seq![e]) + next);
            }
            j += 1;
        } else {
            let segment = Value::Str(old_obj[i].0.clone());
            let sub_path = extend_path(path, segment);
            diff_values_operational(&old_obj[i].1, &new_obj[j].1, &sub_path, operations);
            proof {
                let sub = raw_ops(a[i as int].1, b[j as int].1, p.push(Json::Str(a[i as int].0)));
                let next = object_raw_ops(a, b, i + 1, j + 1, p);
                assert(before + (sub + next) =~= (before + sub) + next);
            }
            i += 1;
            j += 1;
        }
    }
    assert(object_raw_ops(a, b, i as int, j as int, p) =~= Seq::empty());
    assert(raw_model(operations@) + Seq::<RawOpModel>::empty() =~= raw_model(operations@));
}

/// Appends the operations that replace one array by another.
pub fn diff_arrays_operational(
    old_arr: &Vec<Value>,
    new_arr: &Vec<Value>,
    path: &Vec<Value>,
    operations: &mut Vec<RawOp>,
)
    ensures
        raw_model(final(operations)@) == raw_model(old(operations)@) + (array_delete_ops(
            array_model(path@),
            old_arr.len() as nat,
        ) + array_insert_ops(array_model(path@), array_model(new_arr@), 0)),
{
    let ghost p = array_model(path@);
    let ghost b = array_model(new_arr@);
    let ghost start = raw_model(operations@);
    let mut n: usize = old_arr.len();
    while n > 0
        invariant
            n <= old_arr.len(),
            p == array_model(path@),
            raw_model(operations@) + array_delete_ops(p, n as nat) == start + array_delete_ops(
                p,
                old_arr.len() as nat,
            ),
        decreases n,
    {
        let ghost before = raw_model(operations@);
        operations.push(
            RawOp {
                kind: OpKind::DeleteValue,
                path: extend_path(path, Value::uint((n - 1) as u64)),
                value: Value::Null,
            },
        );
        proof {
            let e = RawOpModel {
                kind: OpKind::DeleteValue,
                path: p.push(uint_json((n - 1) as u64)),
                value: Json::Null,
            };
            let next = array_delete_ops(p, (n - 1) as nat);
            assert(raw_model(operations@) =~= before + seq![e]);
            assert(before + (seq![e] + next) =~= (before + seq![e]) + next);
        }
        n -= 1;
    }
    let ghost middle = raw_model(operations@);
    assert(middle + Seq::<RawOpModel>::empty() =~= middle);
    let mut i: usize = 0;
    while i < new_arr.len()
        invariant
            i <= new_arr.len(),
            p == array_model(path@),
            b == array_model(new_arr@),
            raw_model(operations@) + array_insert_ops(p, b, i as int) == middle
                + array_insert_ops(p, b, 0),
        decreases new_arr.len() - i,
    {
        let ghost before = raw_model(operations@);
        operations.push(
            RawOp {
                kind: OpKind::InsertValue,
                path: extend_path(path, Value::uint(i as u64)),
                value: new_arr[i].deep_clone(),
            },
        );
        proof {
            let e = RawOpModel {
                kind: OpKind::InsertValue,
                path: p.push(uint_json(i as u64)),
                value: b[i as int],
            };
            let next = array_insert_ops(p, b, i + 1);
            assert(raw_model(operations@) =~= before + seq![e]);
            assert(before + (seq![e] + next) =~= (before + seq![e]) + next);
        }
        i += 1;
    }
    proof {
        assert(raw_model(operations@) + Seq::<RawOpModel>::empty() =~= raw_model(operations@));
        let d = array_delete_ops(p, old_arr.len() as nat);
        let ins = array_insert_ops(p, b, 0);
        assert((start + d) + ins =~= start + (d + ins));
    }
}

/// The text that names a kind of operation.
pub open spec fn kind_text(kind: OpKind) -> Seq<char> {
    match kind {
        OpKind::SetValue => "set"@,
        OpKind::DeleteValue => "delete"@,
        OpKind::InsertValue => "insert"@,
    }
}

/// An operation as a document.
pub open spec fn operation_json(op: RawOpModel, timestamp: u64, actor: Seq<char>) -> Json {
    Json::Object(
        seq![
            ("actor_id"@, Json::Str(actor)),
            ("path"@, Json::Array(op.path)),
            ("timestamp"@, uint_json(timestamp)),
            ("type"@, Json::Str(kind_text(op.kind))),
            ("value"@, op.value),
        ],
    )
}

/// The operations as documents: the one at position `k` has the timestamp
/// `base + k`.
pub open spec fn stamped(raw: Seq<RawOpModel>, base: u64, actor: Seq<char>) -> Seq<Json> {
    Seq::new(raw.len(), |k: int| operation_json(raw[k], (base + k) as u64, actor))
}

/// The text that names a way to reconcile.
pub open spec fn resolution_text(r: ConflictResolution) -> Seq<char> {
    match r {
        ConflictResolution::LastWriteWins => "last_write_wins"@,
        ConflictResolution::Merge => "merge"@,
    }
}

/// The log of an operational diff as a document: the operations, and with
/// them the actor, the range of timestamps from the first one to the one
/// after the last, and the way to reconcile.
pub open spec fn operational_log(raw: Seq<RawOpModel>, o: OperationalOptionsModel) -> Json {
    Json::Object(
        seq![
            (
                "metadata"@,
                Json::Object(
                    seq![
                        ("actors"@, Json::Array(seq![Json::Str(o.actor_id)])),
                        ("conflict_resolution"@, Json::Str(resolution_text(o.conflict_resolution))),
                        (
                            "timestamp_range"@,
                            Json::Array(
                                seq![
                                    uint_json(o.base_timestamp),
                                    uint_json((o.base_timestamp + raw.len()) as u64),
                                ],
                            ),
                        ),
                    ],
                ),
            ),
            ("operations"@, Json::Array(stamped(raw, o.base_timestamp, o.actor_id))),
        ],
    )
}

/// An operation as a document.
pub fn make_operation(op: &RawOp, timestamp: u64, actor: &String) -> (r: Value)
    ensures
        r@ == operation_json(op@, timestamp, actor@),
{
    let kind = match op.kind {
        OpKind::SetValue => Value::text("set"),
        OpKind::DeleteValue => Value::text("delete"),
        OpKind::InsertValue => Value::text("insert"),
    };
    let entries = vec![
        ("actor_id".to_string(), Value::Str(actor.clone())),
        ("path".to_string(), Value::Array(clone_items(&op.path))),
        ("timestamp".to_string(), Value::uint(timestamp)),
        ("type".to_string(), kind),
        ("value".to_string(), op.value.deep_clone()),
    ];
    assert(entries_model(entries@) =~= seq![
        ("actor_id"@, Json::Str(actor@)),
        ("path"@, Json::Array(op@.path)),
        ("timestamp"@, uint_json(timestamp)),
        ("type"@, Json::Str(kind_text(op.kind))),
        ("value"@, op@.value),
    ]);
    Value::Object(entries)
}

/// The operational delta of two documents in canonical form: the log of
/// the operations that lead from one to the other, with timestamps that
/// count up from the first one; none where the timestamps would pass the
/// largest 64-bit number.
pub open spec fn log_of(old: Json, new: Json, options: OperationalOptionsModel) -> Option<Json> {
    if options.base_timestamp + raw_ops(old, new, Seq::empty()).len() <= u64::MAX {
        Some(operational_log(raw_ops(old, new, Seq::empty()), options))
    } else {
        None
    }
}

/// The operational delta from `old` to `new`: the log of the operations
/// that lead from one to the other, with timestamps that count up from the
/// first one. There is none where the timestamps would pass the largest
/// 64-bit number. Objects count by their keys: the delta is that of the
/// canonical forms of the two documents, which for documents in canonical
/// form are the documents themselves.
pub fn compute_operational_diff(old: &Value, new: &Value, options: &OperationalOptions) -> (r: Option<Value>)
    ensures
        optional_model(r) == log_of(canonical(old@), canonical(new@), options@),
        wf_json(old@) && wf_json(new@) ==> optional_model(r) == log_of(
            old@,
            new@,
            options@,
        ),
{
    proof {
        if wf_json(old@) && wf_json(new@) {
            crate::canonical::lemma_canonical_of_wf(old@);
            crate::canonical::lemma_canonical_of_wf(new@);
        }
    }
    let old = &sorted_json_value(old);
    let new = &sorted_json_value(new);
    let mut raw: Vec<RawOp> = Vec::new();
    let root: Vec<Value> = Vec::new();
    assert(array_model(root@) =~= Seq::empty());
    assert(raw_model(raw@) =~= Seq::empty());
    diff_values_operational(old, new, &root, &mut raw);
    let ghost model = raw_ops(old@, new@, Seq::empty());
    assert(raw_model(raw@) =~= model);
    let base = options.base_timestamp;
    if raw.len() as u64 > u64::MAX - base {
        return None;
    }
    let end: u64 = base + raw.len() as u64;
    let mut operations: Vec<Value> = Vec::new();
    let mut k: usize = 0;
    while k < raw.len()
        invariant
            k <= raw.len(),
            base + raw.len() <= u64::MAX,
            raw_model(raw@) == model,
            operations.len() == k,
            forall|x: int|
                0 <= x < k ==> (#[trigger] operations[x])@ == operation_json(
                    model[x],
                    (base + x) as u64,
                    options.actor_id@,
                ),
        decreases raw.len() - k,
    {
        let op = make_operation(&raw[k], base + k as u64, &options.actor_id);
        assert(raw[k as int]@ == model[k as int]);
        operations.push(op);
        k += 1;
    }
    assert(array_model(operations@) =~= stamped(model, base, options.actor_id@));
    let resolution = match options.conflict_resolution {
        ConflictResolution::LastWriteWins => Value::text("last_write_wins"),
        ConflictResolution::Merge => Value::text("merge"),
    };
    let actors = vec![Value::Str(options.actor_id.clone())];
    assert(array_model(actors@) =~= seq![Json::Str(options.actor_id@)]);
    let range = vec![Value::uint(base), Value::uint(end)];
    assert(array_model(range@) =~= seq![uint_json(base), uint_json(end)]);
    let metadata = vec![
        ("actors".to_string(), Value::Array(actors)),
        ("conflict_resolution".to_string(), resolution),
        ("timestamp_range".to_string(), Value::Array(range)),
    ];
    assert(entries_model(metadata@) =~= seq![
        ("actors"@, Json::Array(seq![Json::Str(options.actor_id@)])),
        ("conflict_resolution"@, Json::Str(resolution_text(options.conflict_resolution))),
        ("timestamp_range"@, Json::Array(seq![uint_json(base), uint_json(end)])),
    ]);
    let entries = vec![
        ("metadata".to_string(), Value::Object(metadata)),
        ("operations".to_string(), Value::Array(operations)),
    ];
    assert(entries_model(entries@) =~= seq![
        ("metadata"@, Json::Object(entries_model(metadata@))),
        ("operations"@, Json::Array(stamped(model, base, options.actor_id@))),
    ]);
    Some(Value::Object(entries))
}

/// The operations of a log: the items of its `operations`, or none.
pub open spec fn diff_operations(diff: Json) -> Seq<Json> {
    match json_get(diff, "operations"@) {
        Some(Json::Array(ops)) => ops,
        _ => Seq::empty(),
    }
}

/// The operations of the logs from position `i` on, one log after the
/// other.
pub open spec fn all_operations(diffs: Seq<Json>, i: int) -> Seq<Json>
    decreases diffs.len() - i,
{
    if i < 0 || i >= diffs.len() {
        Seq::empty()
    } else {
        diff_operations(diffs[i]) + all_operations(diffs, i + 1)
    }
}

/// The actors that a log names: the items of `actors` in its `metadata`,
/// or none.
pub open spec fn diff_actors(diff: Json) -> Seq<Json> {
    match json_get(diff, "metadata"@) {
        Some(Json::Object(m)) => match lookup(m, "actors"@) {
            Some(Json::Array(actors)) => actors,
            _ => Seq::empty(),
        },
        _ => Seq::empty(),
    }
}

/// The actors `acc` with those of the list from position `i` on that are
/// strings and not yet among them, in order.
pub open spec fn add_actors(acc: Seq<Json>, actors: Seq<Json>, i: int) -> Seq<Json>
    decreases actors.len() - i,
{
    if i < 0 || i >= actors.len() {
        acc
    } else if actors[i] is Str && !acc.contains(actors[i]) {
        add_actors(acc.push(actors[i]), actors, i + 1)
    } else {
        add_actors(acc, actors, i + 1)
    }
}

/// The actors `acc` with those of the logs from position `i` on.
pub open spec fn all_actors(diffs: Seq<Json>, i: int, acc: Seq<Json>) -> Seq<Json>
    decreases diffs.len() - i,
{
    if i < 0 || i >= diffs.len() {
        acc
    } else {
        all_actors(diffs, i + 1, add_actors(acc, diff_actors(diffs[i]), 0))
    }
}

/// The operations of a merged log: those of all the logs, in ascending
/// order of their timestamps.
pub open spec fn merged_operations(diffs: Seq<Json>) -> Seq<Json> {
    sorted_by_time(all_operations(diffs, 0))
}

/// The log that merges the given logs: their operations in ascending order
/// of their timestamps, and their actors, each once.
pub open spec fn merged_log(diffs: Seq<Json>) -> Json {
    Json::Object(
        seq![
            (
                "metadata"@,
                Json::Object(
                    seq![
                        ("actors"@, Json::Array(all_actors(diffs, 0, Seq::empty()))),
                        ("conflict_resolution"@, Json::Str("last_write_wins"@)),
                    ],
                ),
            ),
            ("operations"@, Json::Array(merged_operations(diffs))),
        ],
    )
}

/// Whether one of the values is equal to `v`.
pub fn contains_value(list: &Vec<Value>, v: &Value) -> (r: bool)
    ensures
        r == array_model(list@).contains(v@),
{
    let mut i: usize = 0;
    while i < list.len()
        invariant
            i <= list.len(),
            forall|j: int| 0 <= j < i ==> array_model(list@)[j] != v@,
        decreases list.len() - i,
    {
        if same_model(&list[i], v) {
            assert(array_model(list@)[i as int] == v@);
            return true;
        }
        i += 1;
    }
    false
}

/// Merges operation logs.
pub fn merge_operational_diffs(diffs: &Vec<Value>) -> (r: Value)
    ensures
        r@ == merged_log(array_model(diffs@)),
{
    let ghost logs = array_model(diffs@);
    let mut all_ops: Vec<Value> = Vec::new();
    let mut actors: Vec<Value> = Vec::new();
    assert(array_model(all_ops@) =~= Seq::empty());
    assert(array_model(actors@) =~= Seq::empty());
    let mut i: usize = 0;
    while i < diffs.len()
        invariant
            i <= diffs.len(),
            logs == array_model(diffs@),
            array_model(all_ops@) + all_operations(logs, i as int) == all_operations(logs, 0),
            all_actors(logs, i as int, array_model(actors@)) == all_actors(logs, 0, Seq::empty()),
        decreases diffs.len() - i,
    {
        let diff = &diffs[i];
        assert(diff@ == logs[i as int]);
        let ghost ops_before = array_model(all_ops@);
        match diff.get("operations") {
            Some(Value::Array(ops)) => {
                assert(json_get(diff@, "operations"@) == Some(Json::Array(array_model(ops@))));
                let mut k: usize = 0;
                while k < ops.len()
                    invariant
                        k <= ops.len(),
                        array_model(all_ops@) == ops_before + array_model(ops@).take(k as int),
                    decreases ops.len() - k,
                {
                    let ghost prev = array_model(all_ops@);
                    all_ops.push(ops[k].deep_clone());
                    assert(array_model(all_ops@) =~= prev.push(ops[k as int]@));
                    assert(array_model(ops@).take(k as int).push(ops[k as int]@) =~= array_model(
                        ops@,
                    ).take(k + 1));
                    assert(array_model(all_ops@) =~= ops_before + array_model(ops@).take(k + 1));
                    k += 1;
                }
                assert(array_model(ops@).take(ops.len() as int) =~= array_model(ops@));
            },
            Some(other) => {
                assert(json_get(diff@, "operations"@) == Some(other@));
                assert(!(other@ is Array));
                assert(ops_before + Seq::<Json>::empty() =~= ops_before);
            },
            None => {
                assert(ops_before + Seq::<Json>::empty() =~= ops_before);
            },
        }
        proof {
            let mine = diff_operations(logs[i as int]);
            let rest = all_operations(logs, i + 1);
            assert(array_model(all_ops@) == ops_before + mine);
            assert(ops_before + (mine + rest) =~= (ops_before + mine) + rest);
        }
        let ghost actors_before = array_model(actors@);
        match diff.get("metadata") {
            Some(Value::Object(m)) => {
                assert(json_get(diff@, "metadata"@) == Some(Json::Object(entries_model(m@))));
                match crate::value::obj_get(m, "actors") {
                    Some(Value::Array(named)) => {
                        assert(lookup(entries_model(m@), "actors"@) == Some(
                            Json::Array(array_model(named@)),
                        ));
                        let ghost list = array_model(named@);
                        let mut k: usize = 0;
                        while k < named.len()
                            invariant
                                k <= named.len(),
                                list == array_model(named@),
                                add_actors(array_model(actors@), list, k as int) == add_actors(
                                    actors_before,
                                    list,
                                    0,
                                ),
                            decreases named.len() - k,
                        {
                            let actor = &named[k];
                            assert(actor@ == list[k as int]);
                            let is_text = match actor {
                                Value::Str(_) => true,
                                _ => false,
                            };
                            if is_text && !contains_value(&actors, actor) {
                                let ghost prev = array_model(actors@);
                                actors.push(actor.deep_clone());
                                assert(array_model(actors@) =~= prev.push(actor@));
                            }
                            k += 1;
                        }
                    },
                    Some(other) => {
                        assert(lookup(entries_model(m@), "actors"@) == Some(other@));
                        assert(!(other@ is Array));
                    },
                    None => {},
                }
            },
            Some(other) => {
                assert(json_get(diff@, "metadata"@) == Some(other@));
                assert(!(other@ is Object));
            },
            None => {},
        }
        assert(array_model(actors@) == add_actors(actors_before, diff_actors(logs[i as int]), 0));
        i += 1;
    }
    assert(array_model(all_ops@) + Seq::<Json>::empty() =~= array_model(all_ops@));
    let sorted = sort_by_timestamp(&all_ops);
    let mut operations: Vec<Value> = Vec::new();
    let mut k: usize = 0;
    while k < sorted.len()
        invariant
            k <= sorted.len(),
            operations.len() == k,
            forall|x: int| 0 <= x < k ==> (#[trigger] operations[x])@ == sorted[x]@,
        decreases sorted.len() - k,
    {
        operations.push(sorted[k].deep_clone());
        k += 1;
    }
    assert(array_model(operations@) =~= refs_model(sorted@));
    let metadata = vec![
        ("actors".to_string(), Value::Array(actors)),
        ("conflict_resolution".to_string(), Value::text("last_write_wins")),
    ];
    assert(entries_model(metadata@) =~= seq![
        ("actors"@, Json::Array(all_actors(logs, 0, Seq::empty()))),
        ("conflict_resolution"@, Json::Str("last_write_wins"@)),
    ]);
    let entries = vec![
        ("metadata".to_string(), Value::Object(metadata)),
        ("operations".to_string(), Value::Array(operations)),
    ];
    assert(entries_model(entries@) =~= seq![
        ("metadata"@, Json::Object(entries_model(metadata@))),
        ("operations"@, Json::Array(merged_operations(logs))),
    ]);
    Value::Object(entries)
}

} // verus!
