use jsonld_diff::json_text::to_json_text;
use jsonld_diff::operational::{
    apply_operational_operations, apply_single_operation, compute_operational_diff,
    delete_value_at_path, insert_value_at_path, merge_operational_diffs,
    parse_operational_options, parse_operational_options_from, patch_operational,
    set_value_at_path, ConflictResolution, OperationalOptions,
};
use jsonld_diff::value::{object_of, Number, Value};

fn from_serde(v: &serde_json::Value) -> Value {
    match v {
        serde_json::Value::Null => Value::Null,
        serde_json::Value::Bool(b) => Value::Bool(*b),
        serde_json::Value::Number(n) => {
            if let Some(u) = n.as_u64() {
                Value::Number(Number::PosInt(u))
            } else if let Some(i) = n.as_i64() {
                Value::Number(Number::NegInt(i))
            } else {
                Value::Number(Number::Float(n.to_string()))
            }
        }
        serde_json::Value::String(s) => Value::Str(s.clone()),
        serde_json::Value::Array(a) => Value::Array(a.iter().map(from_serde).collect()),
        serde_json::Value::Object(m) => {
            object_of(m.iter().map(|(k, x)| (k.clone(), from_serde(x))).collect())
        }
    }
}

fn doc(text: &str) -> Value {
    from_serde(&serde_json::from_str::<serde_json::Value>(text).unwrap())
}

fn items(text: &str) -> Vec<Value> {
    match doc(text) {
        Value::Array(v) => v,
        _ => panic!("not an array"),
    }
}

fn options(actor: &str, base: u64) -> OperationalOptions {
    OperationalOptions {
        actor_id: actor.to_string(),
        base_timestamp: base,
        conflict_resolution: ConflictResolution::LastWriteWins,
    }
}

#[test]
fn log_counts_timestamps_up_from_the_base() {
    let old = doc(r#"{"a":1,"b":{"c":true},"gone":0}"#);
    let new = doc(r#"{"a":2,"b":{"c":false},"new":"x"}"#);
    let log = compute_operational_diff(&old, &new, &options("me", 100)).unwrap();
    assert_eq!(
        to_json_text(&log),
        [
            r#"{"metadata":{"actors":["me"],"conflict_resolution":"last_write_wins","timestamp_range":[100,104]},"#,
            r#""operations":["#,
            r#"{"actor_id":"me","path":["a"],"timestamp":100,"type":"set","value":2},"#,
            r#"{"actor_id":"me","path":["b","c"],"timestamp":101,"type":"set","value":false},"#,
            r#"{"actor_id":"me","path":["gone"],"timestamp":102,"type":"delete","value":null},"#,
            r#"{"actor_id":"me","path":["new"],"timestamp":103,"type":"set","value":"x"}"#,
            r#"]}"#,
        ]
        .concat()
    );
}

#[test]
fn arrays_are_deleted_from_the_end_and_inserted_from_the_start() {
    let old = doc(r#"{"l":[1,2]}"#);
    let new = doc(r#"{"l":[3,4,5]}"#);
    let log = compute_operational_diff(&old, &new, &options("a", 0)).unwrap();
    let ops = match log.get("operations") {
        Some(Value::Array(ops)) => ops.clone(),
        _ => panic!("no operations"),
    };
    let kinds: Vec<String> = ops
        .iter()
        .map(|op| format!("{}{}", to_json_text(op.get("type").unwrap()), to_json_text(op.get("path").unwrap())))
        .collect();
    assert_eq!(
        kinds,
        vec![
            r#""delete"["l",1]"#,
            r#""delete"["l",0]"#,
            r#""insert"["l",0]"#,
            r#""insert"["l",1]"#,
            r#""insert"["l",2]"#,
        ]
    );
    let mut replayed = old.clone();
    patch_operational(&mut replayed, &log);
    assert_eq!(replayed, new);
}

#[test]
fn equal_documents_need_no_operation() {
    let d = doc(r#"{"a":[1,{"b":2}]}"#);
    let log = compute_operational_diff(&d, &d, &options("a", 7)).unwrap();
    assert_eq!(
        to_json_text(&log),
        r#"{"metadata":{"actors":["a"],"conflict_resolution":"last_write_wins","timestamp_range":[7,7]},"operations":[]}"#
    );
}

#[test]
fn timestamps_that_do_not_fit_give_no_log() {
    let old = doc(r#"{"a":1}"#);
    let new = doc(r#"{"a":2}"#);
    assert!(compute_operational_diff(&old, &new, &options("a", u64::MAX)).is_none());
    assert!(compute_operational_diff(&old, &new, &options("a", u64::MAX - 1)).is_some());
    assert!(compute_operational_diff(&old, &old, &options("a", u64::MAX)).is_some());
}

#[test]
fn replay_sorts_by_timestamp_and_keeps_ties_in_order() {
    let ops = items(
        r#"[
        {"type":"set","path":["a"],"value":3,"timestamp":5},
        {"type":"set","path":["a"],"value":1,"timestamp":2},
        {"type":"set","path":["b"],"value":"first","timestamp":9},
        {"type":"set","path":["b"],"value":"second","timestamp":9},
        {"type":"delete","path":["c"],"timestamp":1}
    ]"#,
    );
    let mut d = doc(r#"{"a":0,"c":true}"#);
    apply_operational_operations(&mut d, &ops);
    assert_eq!(to_json_text(&d), r#"{"a":3,"b":"second"}"#);
    let mut again = doc(r#"{"a":0,"c":true}"#);
    apply_operational_operations(&mut again, &ops);
    assert_eq!(d, again);
}

#[test]
fn paths_that_lead_nowhere_change_nothing() {
    let start = doc(r#"{"a":[1,2],"b":{"c":1}}"#);
    let mut d = start.clone();
    set_value_at_path(&mut d, &items(r#"["a",5]"#), Value::uint(9));
    assert_eq!(d, start);
    set_value_at_path(&mut d, &items(r#"["a","x"]"#), Value::uint(9));
    assert_eq!(d, start);
    set_value_at_path(&mut d, &items(r#"["zz","x"]"#), Value::uint(9));
    assert_eq!(d, start);
    delete_value_at_path(&mut d, &items(r#"["a",2]"#));
    assert_eq!(d, start);
    delete_value_at_path(&mut d, &items(r#"["b","c","d"]"#));
    assert_eq!(d, start);
}

#[test]
fn set_delete_and_insert_follow_the_path() {
    let mut d = doc(r#"{"a":[1,2],"b":{"c":1}}"#);
    set_value_at_path(&mut d, &items(r#"["a",1]"#), Value::uint(9));
    assert_eq!(to_json_text(&d), r#"{"a":[1,9],"b":{"c":1}}"#);
    set_value_at_path(&mut d, &items(r#"["b","d"]"#), Value::Null);
    assert_eq!(to_json_text(&d), r#"{"a":[1,9],"b":{"c":1,"d":null}}"#);
    insert_value_at_path(&mut d, &items(r#"["a",0]"#), Value::uint(0));
    assert_eq!(to_json_text(&d), r#"{"a":[0,1,9],"b":{"c":1,"d":null}}"#);
    insert_value_at_path(&mut d, &items(r#"["a",99]"#), Value::uint(7));
    assert_eq!(to_json_text(&d), r#"{"a":[0,1,9,7],"b":{"c":1,"d":null}}"#);
    delete_value_at_path(&mut d, &items(r#"["a",1]"#));
    assert_eq!(to_json_text(&d), r#"{"a":[0,9,7],"b":{"c":1,"d":null}}"#);
    delete_value_at_path(&mut d, &items(r#"["b","c"]"#));
    assert_eq!(to_json_text(&d), r#"{"a":[0,9,7],"b":{"d":null}}"#);
    set_value_at_path(&mut d, &items("[]"), Value::uint(1));
    assert_eq!(to_json_text(&d), "1");
    delete_value_at_path(&mut d, &items("[]"));
    assert_eq!(d, Value::Null);
    insert_value_at_path(&mut d, &items("[]"), Value::Bool(true));
    assert_eq!(d, Value::Bool(true));
}

#[test]
fn unknown_operations_and_missing_values_do_nothing() {
    let start = doc(r#"{"a":1}"#);
    let mut d = start.clone();
    apply_single_operation(&mut d, &doc(r#"{"type":"rename","path":["a"],"value":2}"#));
    assert_eq!(d, start);
    apply_single_operation(&mut d, &doc(r#"{"type":"set","path":["a"]}"#));
    assert_eq!(d, start);
    apply_single_operation(&mut d, &doc(r#"{"type":"insert","path":["a"]}"#));
    assert_eq!(d, start);
    apply_single_operation(&mut d, &doc(r#"{"path":["a"],"value":2}"#));
    assert_eq!(d, start);
    apply_single_operation(&mut d, &doc(r#"{"type":"set","path":"a","value":2}"#));
    assert_eq!(d, Value::uint(2));
    let mut e = start.clone();
    patch_operational(&mut e, &doc(r#"{"operations":"none"}"#));
    assert_eq!(e, start);
}

#[test]
fn merged_logs_replay_alike_in_either_order() {
    let base = doc(r#"{"title":"t","count":1}"#);
    let first = compute_operational_diff(&base, &doc(r#"{"title":"new","count":1}"#), &options("ann", 10)).unwrap();
    let second = compute_operational_diff(&base, &doc(r#"{"title":"t","count":2,"extra":[1]}"#), &options("bob", 20)).unwrap();
    let one = merge_operational_diffs(&vec![first.clone(), second.clone()]);
    let other = merge_operational_diffs(&vec![second.clone(), first.clone()]);
    assert_eq!(one.get("operations"), other.get("operations"));
    assert_eq!(
        to_json_text(one.get("metadata").unwrap()),
        r#"{"actors":["ann","bob"],"conflict_resolution":"last_write_wins"}"#
    );
    assert_eq!(
        to_json_text(other.get("metadata").unwrap()),
        r#"{"actors":["bob","ann"],"conflict_resolution":"last_write_wins"}"#
    );
    let mut a = base.clone();
    patch_operational(&mut a, &one);
    let mut b = base.clone();
    patch_operational(&mut b, &other);
    assert_eq!(a, b);
    assert_eq!(to_json_text(&a), r#"{"count":2,"extra":[1],"title":"new"}"#);
}

#[test]
fn merging_names_each_actor_once_and_sorts_the_operations() {
    let logs = items(
        r#"[
        {"operations":[{"timestamp":5,"type":"set","path":["a"],"value":1}],"metadata":{"actors":["x","y",3]}},
        {"operations":[{"timestamp":2,"type":"set","path":["a"],"value":2}],"metadata":{"actors":["y","z"]}},
        {"metadata":{"actors":"w"}},
        17
    ]"#,
    );
    let merged = merge_operational_diffs(&logs);
    assert_eq!(
        to_json_text(&merged),
        [
            r#"{"metadata":{"actors":["x","y","z"],"conflict_resolution":"last_write_wins"},"#,
            r#""operations":[{"path":["a"],"timestamp":2,"type":"set","value":2},{"path":["a"],"timestamp":5,"type":"set","value":1}]}"#,
        ]
        .concat()
    );
}

#[test]
fn options_are_read_over_the_given_actor_and_time() {
    let o = parse_operational_options_from(
        &vec![
            ("timestamp".to_string(), "42".to_string()),
            ("conflict_resolution".to_string(), "merge".to_string()),
            ("other".to_string(), "x".to_string()),
        ],
        "fallback".to_string(),
        7,
    );
    assert_eq!(o.actor_id, "fallback");
    assert_eq!(o.base_timestamp, 42);
    assert_eq!(o.conflict_resolution, ConflictResolution::Merge);
    let o = parse_operational_options_from(
        &vec![
            ("actor_id".to_string(), "me".to_string()),
            ("timestamp".to_string(), "soon".to_string()),
            ("conflict_resolution".to_string(), "whatever".to_string()),
        ],
        "fallback".to_string(),
        7,
    );
    assert_eq!(o.actor_id, "me");
    assert_eq!(o.base_timestamp, 7);
    assert_eq!(o.conflict_resolution, ConflictResolution::LastWriteWins);
}

#[test]
fn a_fresh_actor_and_the_clock_fill_in_what_no_pair_gives() {
    let a = parse_operational_options(&vec![]);
    let b = parse_operational_options(&vec![]);
    assert!(a.actor_id.starts_with("actor_"));
    assert_eq!(a.actor_id.len(), 38);
    assert_ne!(a.actor_id, b.actor_id);
    assert!(a.base_timestamp > 1_600_000_000_000_000_000);
    let c = parse_operational_options(&vec![("actor_id".to_string(), "me".to_string())]);
    assert_eq!(c.actor_id, "me");
}

#[test]
fn a_fresh_actor_id_is_a_prefix_and_a_random_identifier() {
    let first = jsonld_diff::operational::generate_actor_id();
    let second = jsonld_diff::operational::generate_actor_id();
    assert!(first.starts_with("actor_"));
    assert_eq!(first.len(), 6 + 32);
    assert!(first[6..].chars().all(|c| c.is_ascii_hexdigit()));
    assert_ne!(first, second);
    let o = jsonld_diff::operational::parse_operational_options(&vec![]);
    assert!(o.actor_id.starts_with("actor_"));
    assert_eq!(o.actor_id.len(), 6 + 32);
}
