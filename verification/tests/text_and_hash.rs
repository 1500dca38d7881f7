use jsonld_diff::canonical::{is_canonical, sorted_json_value};
use jsonld_diff::delta::{
    check_op_in_bounds, check_replayable, diff_text_simd, make_index_key, text_delta_checked,
    text_delta_from_ops, EditOp,
};
use jsonld_diff::hash::{compute_value_hash_fast, hash_str};
use jsonld_diff::json_text::{number_to_text, to_json_text};
use jsonld_diff::nquads::canonicalize_nquads;
use jsonld_diff::patch::{apply_array_delta, apply_array_patch, apply_object_patch, apply_structural_patch, apply_text_diff_ops};
use jsonld_diff::text::{
    chars_of, contains_char, decimal_chars, find_char, iri_local_name, parse_i64, parse_index,
    parse_u64, slice_chars, starts_with, str_starts_with,
};
use jsonld_diff::value::{
    array_of, obj_get, obj_insert, obj_remove, object_of, values_equal, Number, Value,
};

fn from_serde(v: &serde_json::Value) -> Value {
    match v {
        serde_json::Value::Null => Value::Null,
        serde_json::Value::Bool(b) => Value::Bool(*b),
        serde_json::Value::Number(n) => {
            if let Some(u) = n.as_u64() {
                Value::Number(Number::PosInt(u))
            } else if let Some(i) = n.as_i64() {
                Value::Number(Number::NegInt(i))
            } else {
                Value::Number(Number::Float(n.to_string()))
            }
        }
        serde_json::Value::String(s) => Value::Str(s.clone()),
        serde_json::Value::Array(a) => Value::Array(a.iter().map(from_serde).collect()),
        serde_json::Value::Object(m) => {
            object_of(m.iter().map(|(k, x)| (k.clone(), from_serde(x))).collect())
        }
    }
}

fn doc(text: &str) -> Value {
    from_serde(&serde_json::from_str::<serde_json::Value>(text).unwrap())
}

fn text(v: &Value) -> String {
    to_json_text(v)
}

fn entries(text: &str) -> Vec<(String, Value)> {
    match doc(text) {
        Value::Object(e) => e,
        _ => panic!("not an object"),
    }
}

fn delta_items(delta: &Value) -> Vec<Value> {
    match delta {
        Value::Array(items) => items.clone(),
        _ => panic!("no leaf"),
    }
}

fn items(text: &str) -> Vec<Value> {
    match doc(text) {
        Value::Array(v) => v,
        _ => panic!("not an array"),
    }
}

#[test]
fn numerals_are_read_and_written() {
    let c = |s: &str| chars_of(s);
    assert_eq!(decimal_chars(0), c("0"));
    assert_eq!(decimal_chars(7), c("7"));
    assert_eq!(decimal_chars(1203), c("1203"));
    assert_eq!(decimal_chars(u64::MAX), c("18446744073709551615"));
    assert_eq!(parse_u64(&c("0")), Some(0));
    assert_eq!(parse_u64(&c("007")), Some(7));
    assert_eq!(parse_u64(&c("+15")), Some(15));
    assert_eq!(parse_u64(&c("18446744073709551615")), Some(u64::MAX));
    assert_eq!(parse_u64(&c("18446744073709551616")), None);
    assert_eq!(parse_u64(&c("99999999999999999999999")), None);
    assert_eq!(parse_u64(&c("")), None);
    assert_eq!(parse_u64(&c("+")), None);
    assert_eq!(parse_u64(&c("-1")), None);
    assert_eq!(parse_u64(&c("1 ")), None);
    assert_eq!(parse_u64(&c("１")), None);
    assert_eq!(parse_index(&c("12")), Some(12));
    assert_eq!(parse_i64(&c("-12")), Some(-12));
    assert_eq!(parse_i64(&c("-+1")), None);
    assert_eq!(parse_i64(&c("+-1")), None);
    assert_eq!(make_index_key(0), "_0");
    assert_eq!(make_index_key(1234), "_1234");
}

#[test]
fn texts_are_searched_by_scalar_value() {
    let s = chars_of("héllo/wörld#x");
    assert_eq!(s.len(), 13);
    assert!(starts_with(&s, "hé") && !starts_with(&s, "he") && starts_with(&s, ""));
    assert!(!starts_with(&chars_of("h"), "hé"));
    assert!(str_starts_with("_:b0", "_:") && !str_starts_with("_", "_:"));
    assert!(contains_char(&s, 'ö') && !contains_char(&s, 'z'));
    assert_eq!(find_char(&s, '/'), 5);
    assert_eq!(find_char(&s, 'z'), 13);
    assert_eq!(slice_chars(&s, 1, 3), chars_of("él"));
    assert_eq!(slice_chars(&s, 4, 4), chars_of(""));
    assert_eq!(iri_local_name("héllo/wörld#x"), "x");
    assert_eq!(iri_local_name("a#b/c"), "c");
    assert_eq!(iri_local_name("none"), "none");
    assert_eq!(iri_local_name(""), "");
}

#[test]
fn objects_keep_their_keys_in_order() {
    let mut e: Vec<(String, Value)> = Vec::new();
    for k in ["m", "b", "z", "a", "é", "ab", "", "B", "m"] {
        obj_insert(&mut e, k.to_string(), Value::text(k));
    }
    let keys: Vec<&str> = e.iter().map(|(k, _)| k.as_str()).collect();
    assert_eq!(keys, vec!["", "B", "a", "ab", "b", "m", "z", "é"]);
    assert_eq!(obj_get(&e, "ab"), Some(&Value::text("ab")));
    assert_eq!(obj_get(&e, "c"), None);
    obj_insert(&mut e, "ab".to_string(), Value::uint(1));
    assert_eq!(obj_get(&e, "ab"), Some(&Value::uint(1)));
    assert_eq!(e.len(), 8);
    obj_remove(&mut e, "a");
    obj_remove(&mut e, "nothing");
    assert_eq!(e.len(), 7);
    assert_eq!(obj_get(&e, "a"), None);
    let o = object_of(vec![
        ("b".to_string(), Value::uint(1)),
        ("a".to_string(), Value::uint(2)),
        ("b".to_string(), Value::uint(3)),
    ]);
    assert_eq!(text(&o), r#"{"a":2,"b":3}"#);
    assert_eq!(text(&array_of(vec![Value::Null, Value::Bool(false)])), "[null,false]");
}

#[test]
fn equality_is_deep_and_keeps_integers_and_floats_apart() {
    assert!(values_equal(&doc(r#"{"a":[1,{"b":null}],"c":"x"}"#), &doc(r#"{"c":"x","a":[1,{"b":null}]}"#)));
    assert!(!values_equal(&doc("[1,2]"), &doc("[2,1]")));
    assert!(!values_equal(&doc("1"), &doc("1.0")));
    assert!(values_equal(&doc("1.50"), &doc("1.5")));
    assert!(!values_equal(&doc("0"), &doc("false")));
    assert!(!values_equal(&doc(r#"{"a":1}"#), &doc(r#"{"a":1,"b":2}"#)));
    assert!(!values_equal(&doc("-1"), &doc("1")));
    assert_eq!(doc("[1]").clone(), doc("[1]"));
}

#[test]
fn equal_documents_hash_alike() {
    let a = doc(r#"{"k":[1,-2,3.5,"s",true,null,{"n":{}}],"z":"é"}"#);
    let b = doc(r#"{"z":"é","k":[1,-2,3.5,"s",true,null,{"n":{}}]}"#);
    assert_eq!(compute_value_hash_fast(&a), compute_value_hash_fast(&b));
    let unsorted = Value::Object(vec![
        ("z".to_string(), Value::uint(1)),
        ("a".to_string(), Value::uint(2)),
    ]);
    assert_eq!(compute_value_hash_fast(&unsorted), compute_value_hash_fast(&doc(r#"{"a":2,"z":1}"#)));
    let different = [
        "null", "true", "false", "0", "1", "-1", "1.0", r#""""#, r#""1""#, r#""a""#, r#""b""#, "[]", "[1]", "[[1]]", "[1,2]", "[2,1]", "{}",
        r#"{"a":1}"#, r#"{"a":2}"#, r#"{"b":1}"#, r#"{"a":{"a":1}}"#,
    ];
    for (i, x) in different.iter().enumerate() {
        for y in &different[i + 1..] {
            assert_ne!(compute_value_hash_fast(&doc(x)), compute_value_hash_fast(&doc(y)), "{x} and {y}");
        }
    }
    assert_ne!(hash_str("a"), hash_str("b"));
    assert_eq!(hash_str("same"), hash_str("same"));
    assert_eq!(compute_value_hash_fast(&Value::text("a")), hash_str("a"));
}

#[test]
fn json_text_escapes_and_numbers() {
    assert_eq!(text(&Value::text("a\"b\\c\nd\re\tf\u{8}g\u{c}h\u{1}i\u{1f}j\u{7f}é/")), "\"a\\\"b\\\\c\\nd\\re\\tf\\bg\\fh\\u0001i\\u001fj\u{7f}é/\"");
    assert_eq!(number_to_text(&Number::PosInt(0)), "0");
    assert_eq!(number_to_text(&Number::NegInt(-1)), "-1");
    assert_eq!(number_to_text(&Number::NegInt(i64::MIN)), "-9223372036854775808");
    assert_eq!(number_to_text(&Number::NegInt(5)), "5");
    assert_eq!(number_to_text(&Number::Float("1e-7".to_string())), "1e-7");
    let d = doc(r#"{"k\n":[true,null,-1.5e10,"s",{"":[]}],"o":{}}"#);
    let expected = serde_json::to_string(&serde_json::from_str::<serde_json::Value>(r#"{"k\n":[true,null,-1.5e10,"s",{"":[]}],"o":{}}"#).unwrap()).unwrap();
    assert_eq!(text(&d), expected);
}

#[test]
fn canonical_form_sorts_and_checks() {
    let messy = Value::Object(vec![
        ("b".to_string(), Value::Array(vec![Value::Object(vec![
            ("y".to_string(), Value::Number(Number::NegInt(3))),
            ("x".to_string(), Value::Null),
            ("y".to_string(), Value::Number(Number::NegInt(-3))),
        ])])),
        ("a".to_string(), Value::Bool(true)),
    ]);
    assert!(!is_canonical(&messy));
    let tidy = sorted_json_value(&messy);
    assert!(is_canonical(&tidy));
    assert_eq!(text(&tidy), r#"{"a":true,"b":[{"x":null,"y":-3}]}"#);
    assert_eq!(sorted_json_value(&tidy), tidy);
    assert!(is_canonical(&doc(r#"{"a":{"b":[{"c":1,"d":2}]}}"#)));
    assert!(!is_canonical(&Value::Number(Number::NegInt(0))));
    assert_eq!(sorted_json_value(&Value::Number(Number::NegInt(4))), Value::uint(4));
    assert!(!is_canonical(&Value::Object(vec![
        ("a".to_string(), Value::Null),
        ("a".to_string(), Value::Null),
    ])));
}

#[test]
fn nquads_are_sorted_lines() {
    assert_eq!(
        canonicalize_nquads("<b> <p> <o> .  \n# comment\n\n<a> <p> \"é\" .\t\n<a> <p> <o> .\n   \n<b> <p> <o> ."),
        Ok("<a> <p> \"é\" .\n<a> <p> <o> .\n<b> <p> <o> .\n<b> <p> <o> .\n".to_string())
    );
    assert_eq!(canonicalize_nquads(""), Ok(String::new()));
    assert_eq!(canonicalize_nquads("\n\n# only\n"), Ok(String::new()));
    assert_eq!(canonicalize_nquads("  lead\u{a0}\u{3000}"), Ok("  lead\n".to_string()));
    assert_eq!(canonicalize_nquads("x\r\ny"), Ok("x\ny\n".to_string()));
    assert_eq!(canonicalize_nquads("ab\na\nabc\nB"), Ok("B\na\nab\nabc\n".to_string()));
}

#[test]
fn character_diffs_are_built_from_edit_scripts() {
    let old = chars_of("héllo wörld");
    let new = chars_of("hallo wörlds!");
    let ops = vec![
        EditOp::Equal { old_index: 0, new_index: 0, len: 1 },
        EditOp::Replace { old_index: 1, old_len: 1, new_index: 1, new_len: 1 },
        EditOp::Equal { old_index: 2, new_index: 2, len: 9 },
        EditOp::Insert { old_index: 11, new_index: 11, new_len: 2 },
    ];
    assert!(check_replayable(&ops, &old, &new));
    assert_eq!(
        text(&text_delta_from_ops(&old, &new, &ops)),
        r#"[{"text_diff":[{"new_range":[1,2],"new_text":"a","old_range":[1,2],"old_text":"é","op":"replace"},{"op":"insert","range":[11,13],"text":"s!"}]},0,2]"#
    );
    let del = vec![
        EditOp::Equal { old_index: 0, new_index: 0, len: 3 },
        EditOp::Delete { old_index: 3, old_len: 2, new_index: 3 },
    ];
    assert_eq!(
        text(&text_delta_checked("héllo", "hél", &del)),
        r#"[{"text_diff":[{"op":"delete","range":[3,5],"text":"lo"}]},0,2]"#
    );
    let wild = vec![EditOp::Delete { old_index: 3, old_len: 9, new_index: 0 }];
    assert!(!check_op_in_bounds(wild[0], 5, 3));
    assert!(!check_op_in_bounds(EditOp::Insert { old_index: 0, new_index: usize::MAX, new_len: 2 }, 5, 3));
    assert!(check_op_in_bounds(EditOp::Insert { old_index: 5, new_index: 1, new_len: 2 }, 5, 3));
    assert_eq!(text(&text_delta_checked("héllo", "hél", &wild)), r#"["héllo","hél"]"#);
}

#[test]
fn only_scripts_that_lead_to_the_new_text_become_character_diffs() {
    let old = chars_of("héllo");
    let new = chars_of("hél");
    let whole = r#"["héllo","hél"]"#;
    let good = vec![
        EditOp::Equal { old_index: 0, new_index: 0, len: 3 },
        EditOp::Delete { old_index: 3, old_len: 2, new_index: 3 },
    ];
    assert!(check_replayable(&good, &old, &new));
    // a script that does not begin at the beginning
    let late = vec![EditOp::Delete { old_index: 3, old_len: 2, new_index: 3 }];
    assert!(!check_replayable(&late, &old, &new));
    assert_eq!(text(&text_delta_checked("héllo", "hél", &late)), whole);
    // a script with a gap between its steps
    let gap = vec![
        EditOp::Equal { old_index: 0, new_index: 0, len: 2 },
        EditOp::Delete { old_index: 3, old_len: 2, new_index: 3 },
    ];
    assert!(!check_replayable(&gap, &old, &new));
    assert_eq!(text(&text_delta_checked("héllo", "hél", &gap)), whole);
    // a script that stops before the end
    let short = vec![EditOp::Equal { old_index: 0, new_index: 0, len: 3 }];
    assert!(!check_replayable(&short, &old, &new));
    assert_eq!(text(&text_delta_checked("héllo", "hél", &short)), whole);
    // a script that calls different runs equal
    let wrong = vec![EditOp::Equal { old_index: 0, new_index: 0, len: 3 }];
    assert!(!check_replayable(&wrong, &chars_of("abc"), &chars_of("abd")));
    assert_eq!(text(&text_delta_checked("abc", "abd", &wrong)), r#"["abc","abd"]"#);
    // no script at all
    assert!(!check_replayable(&vec![], &old, &new));
    assert!(check_replayable(&vec![], &vec![], &vec![]));
    assert_eq!(text(&text_delta_checked("héllo", "hél", &vec![])), whole);
}

#[test]
fn character_diffs_with_insertions_replay_to_the_new_text() {
    assert_eq!(
        text(&diff_text_simd("abc", "abXc")),
        r#"[{"text_diff":[{"op":"insert","range":[2,3],"text":"X"}]},0,2]"#
    );
    assert_eq!(apply_text_diff_ops("abc", &items(r#"[{"op":"insert","range":[2,3],"text":"X"}]"#)), "abXc");
    assert_eq!(apply_text_diff_ops("abc", &items(r#"[{"op":"insert","range":[9,10],"text":"X"}]"#)), "abcX");
    assert_eq!(apply_text_diff_ops("abc", &items(r#"[{"op":"insert","range":[0,1],"text":"X"}]"#)), "Xabc");
    let pairs = [
        ("abc", "abXc"),
        ("", "new"),
        ("old", ""),
        ("héllo wörld", "hallo wörlds!"),
        ("the quick brown fox", "a quick brown dog jumps"),
        ("aaaa", "aabaa"),
        ("xyz", "xyz"),
    ];
    for (old, new) in pairs {
        let delta = diff_text_simd(old, new);
        assert_eq!(apply_array_patch(&Value::text(old), &delta_items(&delta)), Value::text(new), "{old} -> {new}");
    }
    let long_old = "x".repeat(70);
    let long_new = [&"x".repeat(35), "Y", &"x".repeat(35)].concat();
    let delta = diff_text_simd(&long_old, &long_new);
    assert_eq!(apply_array_patch(&Value::text(&long_old), &delta_items(&delta)), Value::text(&long_new));
    assert_eq!(
        text(&diff_text_simd("abcdef", "abXdef")),
        r#"[{"text_diff":[{"new_range":[2,3],"new_text":"X","old_range":[2,3],"old_text":"c","op":"replace"}]},0,2]"#
    );
    assert_eq!(text(&diff_text_simd("same", "same")), r#"[{"text_diff":[]},0,2]"#);
}

#[test]
fn character_diffs_are_replayed() {
    let ops = items(
        r#"[
        {"op":"replace","old_range":[1,2],"new_range":[1,2],"old_text":"é","new_text":"a"},
        {"op":"delete","range":[4,6],"text":"o "},
        {"op":"unknown"},
        {"op":"replace","old_range":[7,8]},
        {"op":"delete","range":[9]},
        {"op":"insert","range":[0,1],"text":"!"},
        {"op":"insert","text":5},
        5
    ]"#,
    );
    assert_eq!(apply_text_diff_ops("héllo wörld", &ops), "hallw!rld");
    assert_eq!(apply_text_diff_ops("abc", &vec![]), "abc");
    assert_eq!(apply_text_diff_ops("abc", &items(r#"[{"op":"delete","range":[1,99]}]"#)), "a");
    assert_eq!(apply_text_diff_ops("abc", &items(r#"[{"op":"delete","range":[2,1]}]"#)), "abbc");
    assert_eq!(apply_text_diff_ops("abc", &items(r#"[{"op":"delete","range":["x",-1]}]"#)), "abc");
}

#[test]
fn leaves_of_a_delta_apply() {
    assert_eq!(text(&apply_array_patch(&doc("1"), &items("[2]"))), "2");
    assert_eq!(text(&apply_array_patch(&doc("1"), &items("[1,0,0]"))), "null");
    assert_eq!(text(&apply_array_patch(&doc("1"), &items("[1,2]"))), "2");
    assert_eq!(text(&apply_array_patch(&doc("1"), &items("[1,2,3]"))), "1");
    assert_eq!(text(&apply_array_patch(&doc("1"), &items("[]"))), "1");
    assert_eq!(text(&apply_array_patch(&doc("1"), &items(r#"[{"text_diff":[]},0,2]"#))), "1");
    assert_eq!(text(&apply_array_patch(&doc(r#""s""#), &items(r#"[{"other":[]},0,2]"#))), r#""s""#);
    assert_eq!(text(&apply_array_patch(&doc(r#""abc""#), &items(r#"[{"text_diff":[{"op":"delete","range":[0,1]}]},0,2]"#))), r#""bc""#);
    assert_eq!(text(&apply_structural_patch(&doc("1"), &doc(r#""new""#))), r#""new""#);
    assert_eq!(text(&apply_structural_patch(&doc("1"), &doc(r#"{"a":[2]}"#))), "1");
}

#[test]
fn object_deltas_apply_entry_by_entry() {
    let d = doc(r#"{"a":1,"b":{"c":1},"l":[1,2,3],"_skip":1,"_gone":true,"s":"text"}"#);
    let p = entries(
        r#"{"a":[1,2],"b":{"c":[1,0,0],"d":[5]},"l":{"_0":[1,9],"_2":[3,0,0]},"_skip":[1,2],"_new":[1],"_gone":[true,0,0],
            "n":{"deep":[1]},"s":[{"text_diff":[{"op":"insert","text":">"}]},0,2],"gone":[0,0,0],"odd":[1,2,3,4]}"#,
    );
    assert_eq!(
        text(&apply_object_patch(&d, &p)),
        r#"{"_new":1,"_skip":2,"a":2,"b":{"d":5},"l":[9,2],"n":{"deep":[1]},"odd":[1,2,3,4],"s":">text"}"#
    );
    assert_eq!(text(&apply_object_patch(&doc("5"), &p)), "5");
    assert_eq!(text(&apply_object_patch(&doc("[1,2]"), &entries(r#"{"_0":[1,0,0]}"#))), "[2]");
}

#[test]
fn array_deltas_delete_move_change_and_insert() {
    let a = items(r#"["a","b","c","d","e"]"#);
    let apply = |delta: &str| text(&apply_array_delta(&a, &entries(delta)));
    assert_eq!(apply("{}"), r#"["a","b","c","d","e"]"#);
    assert_eq!(apply(r#"{"_1":["b",0,0],"_3":["d",0,0],"_9":["x",0,0]}"#), r#"["a","c","e"]"#);
    assert_eq!(apply(r#"{"_0":["",4,3]}"#), r#"["e","a","b","c","d"]"#);
    assert_eq!(apply(r#"{"_9":["",0,3]}"#), r#"["b","c","d","e","a"]"#);
    assert_eq!(apply(r#"{"_0":["",9,3]}"#), r#"["a","b","c","d","e"]"#);
    assert_eq!(apply(r#"{"_0":["",-1,3],"_1":["","x",3]}"#), r#"["a","b","c","d","e"]"#);
    assert_eq!(apply(r#"{"_2":["",0,3],"_0":["",4,3]}"#), r#"["e","b","a","c","d"]"#);
    assert_eq!(apply(r#"{"_0":["",4,3],"_1":["",0,3],"_2":["",1,3],"_3":["",2,3],"_4":["",3,3]}"#), r#"["e","a","b","c","d"]"#);
    assert_eq!(apply(r#"{"_0":["",1,3],"_1":["",0,3]}"#), r#"["b","a","c","d","e"]"#);
    assert_eq!(apply(r#"{"_0":["new"],"_1":["",0,3],"_3":["",1,3],"_4":["e","E"]}"#), r#"["new","a","c","b","d","E"]"#);
    assert_eq!(apply(r#"{"_1":["b","B"],"_7":["x","y"]}"#), r#"["a","B","c","d","e"]"#);
    assert_eq!(apply(r#"{"_1":["new"],"0":["first"],"99":["last"],"x":["no"],"2":["a","b"]}"#), r#"["first","new","a","b","c","d","e","last"]"#);
    assert_eq!(apply(r#"{"_+1":["b","B"],"_01":["b",0,0]}"#), r#"["a","c","d","e"]"#);
    assert_eq!(apply(r#"{"_":["b","B"],"_x":["b",0,0],"_-1":["z"]}"#), r#"["a","b","c","d","e"]"#);
    assert_eq!(apply(r#"{"_0":["a",0,0],"_1":["b","B"],"_4":["",2,3],"_2":["in"]}"#), r#"["B","d","in","e","c"]"#);
    let nested = items(r#"[{"k":1},[1,2],"text"]"#);
    assert_eq!(
        text(&apply_array_delta(&nested, &entries(r#"{"_0":{"k":[1,2]},"_1":{"_0":[1,0,0]},"_2":[{"text_diff":[{"op":"insert","text":"con"}]},0,2],"_5":{"k":[1]}}"#))),
        r#"[{"k":2},[2],"context"]"#
    );
}

#[test]
fn equality_compares_objects_by_key() {
    let pair = |k: &str, n: u64| (k.to_string(), Value::uint(n));
    let sorted = Value::Object(vec![pair("a", 1), pair("b", 2)]);
    let turned = Value::Object(vec![pair("b", 2), pair("a", 1)]);
    assert!(values_equal(&sorted, &turned));
    assert!(values_equal(&turned, &sorted));
    assert!(values_equal(&Value::Array(vec![turned.clone()]), &Value::Array(vec![sorted.clone()])));
    assert!(!values_equal(&sorted, &Value::Object(vec![pair("b", 1), pair("a", 2)])));
    assert!(!values_equal(&sorted, &Value::Object(vec![pair("a", 1)])));
    // of two entries with one key the later one counts
    let twice = Value::Object(vec![pair("a", 9), pair("b", 2), pair("a", 1)]);
    assert!(values_equal(&twice, &sorted));
    // arrays keep their order
    assert!(!values_equal(&doc("[1,2]"), &doc("[2,1]")));
    assert_eq!(compute_value_hash_fast(&sorted), compute_value_hash_fast(&turned));
    assert_eq!(sorted_json_value(&turned), sorted);
    assert!(is_canonical(&sorted) && !is_canonical(&turned));
}

#[test]
fn white_space_is_the_unicode_property() {
    let listed = |c: char| {
        matches!(c,
            '\u{9}'..='\u{D}' | ' ' | '\u{85}' | '\u{A0}' | '\u{1680}' | '\u{2000}'..='\u{200A}'
            | '\u{2028}' | '\u{2029}' | '\u{202F}' | '\u{205F}' | '\u{3000}')
    };
    let mut count = 0;
    for n in 0..=0x10FFFFu32 {
        if let Some(c) = char::from_u32(n) {
            assert_eq!(c.is_whitespace(), listed(c), "U+{n:04X}");
            if listed(c) {
                count += 1;
                let line: String = ["a .", &c.to_string(), "\n"].concat();
                assert_eq!(canonicalize_nquads(&line), Ok("a .\n".to_string()), "U+{n:04X}");
            }
        }
    }
    assert_eq!(count, 25);
    assert_eq!(canonicalize_nquads("a ."), Ok("a .\n".to_string()));
    assert_eq!(canonicalize_nquads("a .\u{200B}"), Ok("a .\u{200B}\n".to_string()));
}

#[test]
fn canonical_nquads_are_a_fixed_point_in_ascending_order() {
    let texts = [
        "",
        "\n\n",
        "b .\na .\n# note\n\n  \nc . \t\na .",
        "<s> <p> \"o\" .\r\n<a> <b> <c> .\r\n",
        "z\ny\nx\nx\n#x\n x \n",
        "no line feed at the end",
    ];
    for t in texts {
        let once = canonicalize_nquads(t).unwrap();
        assert_eq!(canonicalize_nquads(&once).unwrap(), once, "{t:?}");
        let lines: Vec<&str> = once.lines().collect();
        assert!(lines.windows(2).all(|w| w[0] <= w[1]), "{once:?}");
        assert!(lines.iter().all(|l| !l.is_empty() && !l.starts_with('#')));
        assert!(lines.iter().all(|l| !l.ends_with(char::is_whitespace)));
    }
    assert_eq!(canonicalize_nquads("b .\na .\n# note\n\n  \nc . \t\na ."), Ok("a .\na .\nb .\nc .\n".to_string()));
}
