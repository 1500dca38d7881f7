use jsonld_diff::cache::{cache_context, cached_context, expand_with_cache, new_cache};
use jsonld_diff::diff::plan_moves;
use jsonld_diff::hash::compute_value_hash_fast;
use jsonld_diff::hash_list::{build_value_hash_map, hash_list_of, hash_list_to_vec};
use jsonld_diff::json_text::to_json_text;
use jsonld_diff::semantic::triples_difference;
use jsonld_diff::value::{object_of, Value};
use jsonld_diff::value_index::{empty_index, index_of, indexed_contains, push_indexed};

fn obj(pairs: Vec<(&str, Value)>) -> Value {
    object_of(pairs.into_iter().map(|(k, v)| (k.to_string(), v)).collect())
}

#[test]
fn the_cache_gives_up_what_was_used_least_recently() {
    let mut c = new_cache(2);
    assert_eq!(cache_context(&mut c, "first".to_string(), "a".to_string()), "a");
    cache_context(&mut c, "second".to_string(), "b".to_string());
    assert_eq!(cached_context(&mut c, "a"), Some(Value::text("first")));
    cache_context(&mut c, "third".to_string(), "c".to_string());
    assert_eq!(cached_context(&mut c, "b"), None);
    assert_eq!(cached_context(&mut c, "a"), Some(Value::text("first")));
    assert_eq!(cached_context(&mut c, "c"), Some(Value::text("third")));
    cache_context(&mut c, "again".to_string(), "a".to_string());
    assert_eq!(cached_context(&mut c, "a"), Some(Value::text("again")));
    assert_eq!(cached_context(&mut c, "c"), Some(Value::text("third")));
    let mut wide = new_cache(usize::MAX);
    cache_context(&mut wide, "x".to_string(), "k".to_string());
    assert_eq!(wide.cap().get(), jsonld_diff::cache::MAX_CACHED);
    assert_eq!(new_cache(7).cap().get(), 7);
    let mut one = new_cache(0);
    assert_eq!(one.cap().get(), 1);
    cache_context(&mut one, "x".to_string(), "k".to_string());
    cache_context(&mut one, "y".to_string(), "l".to_string());
    assert_eq!(cached_context(&mut one, "k"), None);
    assert_eq!(cached_context(&mut one, "l"), Some(Value::text("y")));
}

#[test]
fn the_cache_never_changes_an_expansion() {
    let mut c = new_cache(10);
    let first = obj(vec![("name", Value::text("n"))]);
    let same_key = obj(vec![("name", Value::text("other"))]);
    let other_key = obj(vec![("title", Value::text("t"))]);
    let expanded = expand_with_cache(&first, &mut c);
    assert_eq!(to_json_text(&expanded), r#"[{"http://example.org/name":{"@value":"n"}}]"#);
    // remembered with its document under the key of the document
    assert_eq!(
        cached_context(&mut c, "obj:::name"),
        Some(Value::Array(vec![first.clone(), expanded.clone()]))
    );
    assert_eq!(expand_with_cache(&first, &mut c), expanded);
    // another document with the same key gets its own expansion
    assert_eq!(
        to_json_text(&expand_with_cache(&same_key, &mut c)),
        r#"[{"http://example.org/name":{"@value":"other"}}]"#
    );
    assert_eq!(expand_with_cache(&first, &mut c), expanded);
    assert_eq!(
        to_json_text(&expand_with_cache(&other_key, &mut c)),
        r#"[{"http://example.org/title":{"@value":"t"}}]"#
    );
    for d in [&first, &same_key, &other_key, &first] {
        assert_eq!(expand_with_cache(d, &mut c), jsonld_diff::expand::simple_expand(d));
    }
}

#[test]
fn an_index_finds_the_documents_of_its_list() {
    let list = vec![Value::uint(1), Value::text("a"), obj(vec![("k", Value::Null)]), Value::uint(1)];
    let ix = index_of(&list);
    assert!(indexed_contains(&list, &ix, &Value::uint(1)));
    assert!(indexed_contains(&list, &ix, &obj(vec![("k", Value::Null)])));
    assert!(!indexed_contains(&list, &ix, &Value::uint(2)));
    assert!(!indexed_contains(&list, &ix, &Value::text("1")));
    let mut grown: Vec<Value> = Vec::new();
    let mut seen = empty_index();
    assert!(!indexed_contains(&grown, &seen, &Value::Null));
    push_indexed(&mut grown, &mut seen, Value::Null);
    push_indexed(&mut grown, &mut seen, Value::Bool(true));
    assert!(indexed_contains(&grown, &seen, &Value::Null));
    assert!(indexed_contains(&grown, &seen, &Value::Bool(true)));
    assert!(!indexed_contains(&grown, &seen, &Value::Bool(false)));
    assert_eq!(grown, vec![Value::Null, Value::Bool(true)]);
}

#[test]
fn the_difference_keeps_each_triple_once_in_order() {
    let xs = vec![Value::uint(3), Value::uint(1), Value::uint(3), Value::uint(2), Value::uint(1), Value::uint(5)];
    let ys = vec![Value::uint(1), Value::uint(4)];
    assert_eq!(triples_difference(&xs, &ys), vec![Value::uint(3), Value::uint(2), Value::uint(5)]);
    assert_eq!(triples_difference(&ys, &xs), vec![Value::uint(4)]);
    assert_eq!(triples_difference(&xs, &xs), Vec::<Value>::new());
    assert_eq!(triples_difference(&vec![], &xs), Vec::<Value>::new());
}

fn numbers(ns: &[u64]) -> Vec<Value> {
    ns.iter().map(|n| Value::uint(*n)).collect()
}

#[test]
fn moves_are_planned_between_equal_items() {
    let plan = plan_moves(&numbers(&[1, 1, 2]), &numbers(&[1, 2, 1, 3])).unwrap();
    assert_eq!(to_json_text(&plan.marks), r#"{"_1":["",2,3],"_2":["",1,3]}"#);
    assert_eq!(plan.used_old, vec![true, true, true]);
    assert_eq!(plan.used_new, vec![true, true, true, false]);
    let same = plan_moves(&numbers(&[7, 8]), &numbers(&[7, 8])).unwrap();
    assert_eq!(to_json_text(&same.marks), "{}");
    assert_eq!(same.used_old, vec![true, true]);
    let none = plan_moves(&numbers(&[1, 2]), &numbers(&[3])).unwrap();
    assert_eq!(to_json_text(&none.marks), "{}");
    assert_eq!(none.used_old, vec![false, false]);
    assert_eq!(none.used_new, vec![false]);
    let empty = plan_moves(&vec![], &vec![]).unwrap();
    assert!(empty.used_old.is_empty() && empty.used_new.is_empty());
    let twelve: Vec<u64> = (0..12).collect();
    let mut turned = twelve.clone();
    turned.rotate_left(1);
    let plan = plan_moves(&numbers(&twelve), &numbers(&turned)).unwrap();
    assert_eq!(
        to_json_text(&plan.marks),
        r#"{"_0":["",1,3],"_1":["",2,3],"_10":["",11,3],"_11":["",0,3],"_2":["",3,3],"_3":["",4,3],"_4":["",5,3],"_5":["",6,3],"_6":["",7,3],"_7":["",8,3],"_8":["",9,3],"_9":["",10,3]}"#
    );
    // every marker names an item of the old array equal to the one at its place
    let old = vec![Value::text("a"), obj(vec![("k", Value::uint(1))]), Value::text("a"), Value::Null];
    let new = vec![Value::Null, Value::text("a"), Value::text("a"), obj(vec![("k", Value::uint(1))])];
    let plan = plan_moves(&old, &new).unwrap();
    assert_eq!(to_json_text(&plan.marks), r#"{"_0":["",3,3],"_1":["",0,3],"_3":["",1,3]}"#);
    match &plan.marks {
        Value::Object(marks) => {
            for (key, mark) in marks {
                let to: usize = key[1..].parse().unwrap();
                let from = match mark {
                    Value::Array(m) => m[1].as_u64().unwrap() as usize,
                    _ => panic!("no marker"),
                };
                assert_ne!(to, from);
                assert_eq!(old[from], new[to]);
            }
        }
        _ => panic!("no object"),
    }
}

#[test]
fn hash_lists_hold_what_was_put_in() {
    let hashes: Vec<u64> = (0..40).map(|i| i * 3).collect();
    assert_eq!(hash_list_to_vec(&hash_list_of(&hashes)), hashes);
    assert_eq!(hash_list_to_vec(&hash_list_of(&vec![])), Vec::<u64>::new());
    let docs = vec![Value::uint(1), Value::text("a"), Value::uint(1)];
    let list = hash_list_to_vec(&build_value_hash_map(&docs));
    assert_eq!(list.len(), 3);
    assert_eq!(list[0], list[2]);
    assert_ne!(list[0], list[1]);
    assert_eq!(list[1], compute_value_hash_fast(&Value::text("a")));
}
