use jsonld_diff::diff::compute_structural_diff;
use jsonld_diff::json_text::to_json_text;
use jsonld_diff::options::{parse_diff_options, ArrayDiffAlgorithm, DiffOptions};
use jsonld_diff::patch::apply_structural_patch;
use jsonld_diff::value::{object_of, Number, Value};

fn from_serde(v: &serde_json::Value) -> Value {
    match v {
        serde_json::Value::Null => Value::Null,
        serde_json::Value::Bool(b) => Value::Bool(*b),
        serde_json::Value::Number(n) => {
            if let Some(u) = n.as_u64() {
                Value::Number(Number::PosInt(u))
            } else if let Some(i) = n.as_i64() {
                Value::Number(Number::NegInt(i))
            } else {
                Value::Number(Number::Float(n.to_string()))
            }
        }
        serde_json::Value::String(s) => Value::Str(s.clone()),
        serde_json::Value::Array(a) => Value::Array(a.iter().map(from_serde).collect()),
        serde_json::Value::Object(m) => {
            object_of(m.iter().map(|(k, x)| (k.clone(), from_serde(x))).collect())
        }
    }
}

fn doc(text: &str) -> Value {
    from_serde(&serde_json::from_str::<serde_json::Value>(text).unwrap())
}

fn text(v: &Value) -> String {
    to_json_text(v)
}

fn defaults() -> DiffOptions {
    DiffOptions::default()
}

fn without_moves() -> DiffOptions {
    parse_diff_options(&vec![("include_moves".to_string(), "false".to_string())])
}

#[test]
fn changed_value_is_a_pair() {
    let d = compute_structural_diff(&doc(r#"{"a":1}"#), &doc(r#"{"a":2}"#), &defaults());
    assert_eq!(text(&d), r#"{"a":[1,2]}"#);
    let p = apply_structural_patch(&doc(r#"{"a":1}"#), &doc(r#"{"a":[1,2]}"#));
    assert_eq!(text(&p), r#"{"a":2}"#);
}

#[test]
fn removed_key_is_a_deletion() {
    let d = compute_structural_diff(&doc(r#"{"a":1}"#), &doc(r#"{}"#), &defaults());
    assert_eq!(text(&d), r#"{"a":[1,0,0]}"#);
    let p = apply_structural_patch(&doc(r#"{"a":1}"#), &d);
    assert_eq!(text(&p), r#"{}"#);
}

#[test]
fn moved_items_are_marked() {
    let old = doc(r#"["a","b","c"]"#);
    let new = doc(r#"["c","a","b"]"#);
    let d = compute_structural_diff(&old, &new, &defaults());
    assert_eq!(text(&d), r#"{"_0":["",2,3],"_1":["",0,3],"_2":["",1,3]}"#);
    let d = compute_structural_diff(&old, &new, &without_moves());
    assert_eq!(text(&d), r#"{"_0":["a","c"],"_1":["b","a"],"_2":["c","b"]}"#);
}

#[test]
fn moved_items_come_to_stand_at_their_new_places() {
    let old = doc(r#"["a","b","c"]"#);
    let new = doc(r#"["c","a","b"]"#);
    let d = doc(r#"{"_0":["",2,3],"_1":["",0,3],"_2":["",1,3]}"#);
    assert_eq!(apply_structural_patch(&old, &d), new);
    let pairs = [
        (r#"["a","b","c"]"#, r#"["c","a","b"]"#),
        (r#"["a","b","c"]"#, r#"["b","c","a"]"#),
        (r#"["a","b","c","d"]"#, r#"["d","c","b","a"]"#),
        (r#"["a","b","c","d"]"#, r#"["b","a","c","d","e"]"#),
        (r#"["p","q","r"]"#, r#"["n","p","r","q"]"#),
        (r#"[1,2,3,4,5]"#, r#"[5,1,2,3,4,6,7]"#),
        (r#"[{"k":1},"x","y"]"#, r#"[{"k":2},"y","x"]"#),
        (r#"["a","a","b"]"#, r#"["b","a","a"]"#),
    ];
    for (old, new) in pairs {
        let (old, new) = (doc(old), doc(new));
        let d = compute_structural_diff(&old, &new, &defaults());
        assert_eq!(apply_structural_patch(&old, &d), new, "{}", text(&d));
    }
}

#[test]
fn a_property_name_may_begin_with_an_underscore() {
    let old = doc(r#"{"_a":1,"_gone":[1],"keep":{"_x":"y"},"_0":0}"#);
    let new = doc(r#"{"_a":2,"_new":{"_n":null},"keep":{"_x":"z","_0":[1,2]},"_0":0}"#);
    let d = compute_structural_diff(&old, &new, &defaults());
    assert_eq!(
        text(&d),
        r#"{"_a":[1,2],"_gone":[[1],0,0],"_new":[{"_n":null}],"keep":{"_0":[[1,2]],"_x":["y","z"]}}"#
    );
    assert_eq!(apply_structural_patch(&old, &d), new);
    let back = compute_structural_diff(&new, &old, &defaults());
    assert_eq!(apply_structural_patch(&new, &back), old);
    let d = compute_structural_diff(&doc(r#"{"_a":1}"#), &doc(r#"{"_a":2}"#), &defaults());
    assert_eq!(text(&apply_structural_patch(&doc(r#"{"_a":1}"#), &d)), r#"{"_a":2}"#);
}

#[test]
fn additions_in_arrays_stand_under_the_bare_index() {
    let old = doc(r#"["a","b"]"#);
    let new = doc(r#"["a","x","c","d"]"#);
    let d = compute_structural_diff(&old, &new, &without_moves());
    assert_eq!(text(&d), r#"{"2":["c"],"3":["d"],"_1":["b","x"]}"#);
    assert_eq!(apply_structural_patch(&old, &d), new);
    let d = compute_structural_diff(&old, &new, &defaults());
    assert_eq!(text(&d), r#"{"2":["c"],"3":["d"],"_1":["b","x"]}"#);
    assert_eq!(apply_structural_patch(&old, &d), new);
    let old = doc(r#"["p","q","r"]"#);
    let new = doc(r#"["n","p","r","q"]"#);
    let d = compute_structural_diff(&old, &new, &defaults());
    assert_eq!(text(&d), r#"{"0":["n"],"_1":["",0,3],"_3":["",1,3]}"#);
    assert_eq!(apply_structural_patch(&old, &d), new);
}

#[test]
fn a_deleted_place_that_receives_a_moved_item_keeps_one_entry() {
    let old = doc(r#"["x","y","z"]"#);
    let new = doc(r#"["z","y"]"#);
    let d = compute_structural_diff(&old, &new, &defaults());
    assert_eq!(text(&d), r#"{"_0":["x",0,0]}"#);
    assert_eq!(text(&apply_structural_patch(&old, &d)), r#"["y","z"]"#);
    let d = compute_structural_diff(&old, &new, &without_moves());
    assert_eq!(apply_structural_patch(&old, &d), new);
}

#[test]
fn inserted_characters_round_trip() {
    let old: String = "x".repeat(70);
    let new: String = "x".repeat(35) + "Y" + &"x".repeat(35);
    let d = compute_structural_diff(&Value::Str(old.clone()), &Value::Str(new.clone()), &defaults());
    assert_eq!(text(&d), r#"[{"text_diff":[{"op":"insert","range":[35,36],"text":"Y"}]},0,2]"#);
    assert_eq!(apply_structural_patch(&Value::Str(old.clone()), &d), Value::Str(new.clone()));
    let d = compute_structural_diff(&Value::Str(new.clone()), &Value::Str(old.clone()), &defaults());
    assert_eq!(apply_structural_patch(&Value::Str(new), &d), Value::Str(old));
}

#[test]
fn long_strings_get_a_character_diff() {
    let old: String = "a".repeat(50) + "X" + &"b".repeat(49);
    let new: String = "a".repeat(50) + "Y" + &"b".repeat(49);
    let d = compute_structural_diff(&Value::Str(old.clone()), &Value::Str(new.clone()), &defaults());
    assert_eq!(
        text(&d),
        r#"[{"text_diff":[{"new_range":[50,51],"new_text":"Y","old_range":[50,51],"old_text":"X","op":"replace"}]},0,2]"#
    );
    let back = apply_structural_patch(&Value::Str(old), &d);
    assert_eq!(back, Value::Str(new));
}

#[test]
fn short_strings_are_replaced_whole() {
    let d = compute_structural_diff(&doc(r#""abcdXfghij""#), &doc(r#""abcdYfghij""#), &defaults());
    assert_eq!(text(&d), r#"["abcdXfghij","abcdYfghij"]"#);
}

#[test]
fn equal_documents_have_the_empty_delta() {
    let d0 = doc(r#"{"b":[1,2,{"c":null}],"a":"x"}"#);
    let d = compute_structural_diff(&d0, &d0, &defaults());
    assert_eq!(text(&d), "{}");
    assert_eq!(apply_structural_patch(&d0, &d), d0);
}

#[test]
fn delta_applies_back_to_the_new_document() {
    let old = doc(r#"{"a":1,"b":[1,2,3,{"x":true}],"c":{"d":"e","f":[1]},"gone":null}"#);
    let new = doc(r#"{"a":2,"b":[1,5,3,{"x":false},7,8],"c":{"d":"e","f":[],"g":1.5},"new":-3}"#);
    let d = compute_structural_diff(&old, &new, &without_moves());
    assert_eq!(apply_structural_patch(&old, &d), new);
    let d = compute_structural_diff(&new, &old, &without_moves());
    assert_eq!(apply_structural_patch(&new, &d), old);
}

#[test]
fn array_keys_sort_as_text() {
    let old = doc(r#"[0,1,2,3,4,5,6,7,8,9,10,11]"#);
    let new = doc(r#"[0,1,9,3,4,5,6,7,8,9,0,11,12]"#);
    let d = compute_structural_diff(&old, &new, &without_moves());
    assert_eq!(text(&d), r#"{"12":[12],"_10":[10,0],"_2":[2,9]}"#);
    assert_eq!(apply_structural_patch(&old, &d), new);
}

#[test]
fn options_are_read_from_pairs() {
    let o = parse_diff_options(&vec![
        ("include_moves".to_string(), "false".to_string()),
        ("array_diff".to_string(), "myers".to_string()),
        ("text_diff".to_string(), "nonsense".to_string()),
        ("text_diff_threshold".to_string(), "12".to_string()),
        ("unknown".to_string(), "x".to_string()),
    ]);
    assert!(!o.include_moves);
    assert_eq!(o.array_diff_algorithm, ArrayDiffAlgorithm::Myers);
    assert!(o.text_diff);
    assert_eq!(o.text_diff_threshold, 12);
    assert_eq!(o.object_hash_depth, 3);
    let d = DiffOptions::default();
    assert!(d.include_moves && d.text_diff);
    assert_eq!(d.text_diff_threshold, 60);
    assert_eq!(d.array_diff_algorithm, ArrayDiffAlgorithm::Lcs);
}

#[test]
fn objects_count_by_their_keys_whatever_the_order_of_their_entries() {
    let pair = |k: &str, n: u64| (k.to_string(), Value::Number(Number::PosInt(n)));
    let sorted = Value::Object(vec![pair("a", 1), pair("b", 2), pair("c", 3)]);
    let turned = Value::Object(vec![pair("c", 3), pair("a", 1), pair("b", 2)]);
    let other = Value::Object(vec![pair("c", 4), pair("d", 0), pair("a", 1)]);
    assert_eq!(text(&compute_structural_diff(&sorted, &turned, &defaults())), "{}");
    assert_eq!(text(&compute_structural_diff(&turned, &sorted, &defaults())), "{}");
    let d = compute_structural_diff(&turned, &other, &defaults());
    assert_eq!(text(&d), r#"{"b":[2,0,0],"c":[3,4],"d":[0]}"#);
    assert_eq!(d, compute_structural_diff(&sorted, &other, &defaults()));
    let nested_old = Value::Array(vec![turned.clone(), Value::Null]);
    let nested_new = Value::Array(vec![other.clone(), Value::Null]);
    assert_eq!(
        text(&compute_structural_diff(&nested_old, &nested_new, &without_moves())),
        r#"{"_0":{"b":[2,0,0],"c":[3,4],"d":[0]}}"#
    );
}

#[test]
fn many_keys_are_diffed_whatever_the_order_in_which_they_are_walked() {
    let old = object_of((0..200u64).map(|n| (format!("k{n}"), Value::Number(Number::PosInt(n)))).collect());
    let new = object_of(
        (100..300u64).map(|n| (format!("k{n}"), Value::Number(Number::PosInt(n + n % 2)))).collect(),
    );
    let d = compute_structural_diff(&old, &new, &defaults());
    let entries = match &d {
        Value::Object(e) => e.clone(),
        _ => panic!("no object"),
    };
    assert_eq!(entries.len(), 100 + 50 + 100);
    assert!(entries.windows(2).all(|w| w[0].0 < w[1].0));
    assert_eq!(d.get("k0"), Some(&doc("[0,0,0]")));
    assert_eq!(d.get("k101"), Some(&doc("[101,102]")));
    assert_eq!(d.get("k100"), None);
    assert_eq!(d.get("k299"), Some(&doc("[300]")));
    assert_eq!(apply_structural_patch(&old, &d), new);
    for _ in 0..5 {
        assert_eq!(compute_structural_diff(&old, &new, &defaults()), d);
    }
}
