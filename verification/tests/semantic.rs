use jsonld_diff::contexts::{compare_contexts_fast, extract_context_fast, flatten_context_fast};
use jsonld_diff::json_text::to_json_text;
use jsonld_diff::semantic::{
    compute_semantic_diff, document_to_triples_fast, group_changes_by_node_fast,
    normalize_blank_nodes_fast, parse_semantic_options, BlankNodeStrategy, SemanticOptions,
};
use jsonld_diff::semantic_patch::{
    apply_context_changes_fast, apply_triple_additions, apply_triple_removals,
    object_to_json_value, object_to_type_local, patch_semantic,
};
use jsonld_diff::triples::{
    emit_triple_for_value, expand_property_iri_fast, extract_triples_node_fast, is_iri,
    serialize_object_for_rdf,
};
use jsonld_diff::value::{object_of, Number, Value};

fn from_serde(v: &serde_json::Value) -> Value {
    match v {
        serde_json::Value::Null => Value::Null,
        serde_json::Value::Bool(b) => Value::Bool(*b),
        serde_json::Value::Number(n) => {
            if let Some(u) = n.as_u64() {
                Value::Number(Number::PosInt(u))
            } else if let Some(i) = n.as_i64() {
                Value::Number(Number::NegInt(i))
            } else {
                Value::Number(Number::Float(n.to_string()))
            }
        }
        serde_json::Value::String(s) => Value::Str(s.clone()),
        serde_json::Value::Array(a) => Value::Array(a.iter().map(from_serde).collect()),
        serde_json::Value::Object(m) => {
            object_of(m.iter().map(|(k, x)| (k.clone(), from_serde(x))).collect())
        }
    }
}

fn doc(text: &str) -> Value {
    from_serde(&serde_json::from_str::<serde_json::Value>(text).unwrap())
}

fn items(text: &str) -> Vec<Value> {
    match doc(text) {
        Value::Array(v) => v,
        _ => panic!("not an array"),
    }
}

fn texts(vs: &Vec<Value>) -> Vec<String> {
    vs.iter().map(to_json_text).collect()
}

fn defaults() -> SemanticOptions {
    parse_semantic_options(&vec![])
}

#[test]
fn property_names_expand_to_iris() {
    assert_eq!(expand_property_iri_fast("http://x.org/p"), "http://x.org/p");
    assert_eq!(expand_property_iri_fast("https://x.org/p"), "https://x.org/p");
    assert_eq!(expand_property_iri_fast("schema:name"), "http://schema.org/name");
    assert_eq!(expand_property_iri_fast("rdf:type"), "http://www.w3.org/1999/02/22-rdf-syntax-ns#type");
    assert_eq!(expand_property_iri_fast("rdfs:label"), "http://www.w3.org/2000/01/rdf-schema#label");
    assert_eq!(expand_property_iri_fast("foaf:name"), "foaf:name");
    assert_eq!(expand_property_iri_fast("schema:a:b"), "http://schema.org/a:b");
    assert_eq!(expand_property_iri_fast("name"), "http://example.org/name");
    assert_eq!(expand_property_iri_fast(""), "http://example.org/");
    assert!(is_iri("http://a") && is_iri("https://a"));
    assert!(!is_iri("ftp://a") && !is_iri("http:/a") && !is_iri(""));
}

#[test]
fn values_become_rdf_objects() {
    let cases = [
        (r#""http://x.org/a""#, r#""http://x.org/a""#),
        (r#""plain""#, r#"{"type":"http://www.w3.org/2001/XMLSchema#string","value":"plain"}"#),
        ("42", r#"{"type":"http://www.w3.org/2001/XMLSchema#integer","value":"42"}"#),
        ("-7", r#"{"type":"http://www.w3.org/2001/XMLSchema#integer","value":"-7"}"#),
        ("1.5", r#"{"type":"http://www.w3.org/2001/XMLSchema#double","value":"1.5"}"#),
        ("true", r#"{"type":"http://www.w3.org/2001/XMLSchema#boolean","value":"true"}"#),
        (r#"{"@id":"http://x.org/n","@value":1}"#, r#""http://x.org/n""#),
        (r#"{"@value":"hi","@language":"en","@type":"t"}"#, r#"{"language":"en","value":"hi"}"#),
        (r#"{"@value":5,"@type":"http://t"}"#, r#"{"type":"http://t","value":5}"#),
        (r#"{"@value":"v"}"#, r#"{"type":"http://www.w3.org/2001/XMLSchema#string","value":"v"}"#),
        (r#"{"a":1}"#, r#"{"a":1}"#),
        ("null", "null"),
        ("[1]", "[1]"),
    ];
    for (input, expected) in cases {
        assert_eq!(to_json_text(&serialize_object_for_rdf(&doc(input))), expected);
    }
}

#[test]
fn a_document_denotes_its_triples() {
    let d = doc(
        r#"{"@id":"http://x.org/me","@type":["Person","schema:Thing",7],"name":"Ann","age":30,
            "schema:knows":{"@id":"http://x.org/you"},"tags":["a",null,"http://t.org/b"],"@context":{}}"#,
    );
    assert_eq!(
        texts(&document_to_triples_fast(&d)),
        vec![
            r#"{"object":"http://example.org/Person","predicate":"http://www.w3.org/1999/02/22-rdf-syntax-ns#type","subject":"http://x.org/me"}"#,
            r#"{"object":"http://schema.org/Thing","predicate":"http://www.w3.org/1999/02/22-rdf-syntax-ns#type","subject":"http://x.org/me"}"#,
            r#"{"object":{"type":"http://www.w3.org/2001/XMLSchema#integer","value":"30"},"predicate":"http://example.org/age","subject":"http://x.org/me"}"#,
            r#"{"object":{"type":"http://www.w3.org/2001/XMLSchema#string","value":"Ann"},"predicate":"http://example.org/name","subject":"http://x.org/me"}"#,
            r#"{"object":"http://x.org/you","predicate":"http://schema.org/knows","subject":"http://x.org/me"}"#,
            r#"{"object":{"type":"http://www.w3.org/2001/XMLSchema#string","value":"a"},"predicate":"http://example.org/tags","subject":"http://x.org/me"}"#,
            r#"{"object":"http://t.org/b","predicate":"http://example.org/tags","subject":"http://x.org/me"}"#,
        ]
    );
}

#[test]
fn nested_objects_become_blank_nodes_with_canonical_names() {
    let d = doc(r#"{"@id":"http://x.org/a","p":{"q":1},"r":{"q":1},"s":{"q":2}}"#);
    let triples = document_to_triples_fast(&d);
    let subjects: Vec<String> = triples.iter().map(|t| to_json_text(t.get("subject").unwrap())).collect();
    let objects: Vec<String> = triples.iter().map(|t| to_json_text(t.get("object").unwrap())).collect();
    assert_eq!(triples.len(), 6);
    assert_eq!(subjects[0], subjects[2]);
    assert_ne!(subjects[0], subjects[4]);
    assert_eq!(objects[1], subjects[0]);
    assert_eq!(objects[3], subjects[2]);
    assert_eq!(objects[5], subjects[4]);
    let mut names = vec![subjects[0].clone(), subjects[4].clone()];
    names.sort();
    assert_eq!(names, vec![r#""_:h00000000""#, r#""_:h00000001""#]);
    assert_eq!(subjects[1], r#""http://x.org/a""#);
}

#[test]
fn blank_nodes_are_numbered_in_the_order_of_their_names() {
    let triples = items(
        r#"[
        {"subject":"_:zz","predicate":"p","object":"_:aa"},
        {"subject":"http://s","predicate":"p","object":"_:mm"},
        {"subject":"_:aa","predicate":"p","object":{"value":"_:zz"}},
        {"subject":5,"predicate":"p","object":"_:aa"},
        "_:aa"
    ]"#,
    );
    assert_eq!(
        texts(&normalize_blank_nodes_fast(&triples)),
        vec![
            r#"{"object":"_:h00000000","predicate":"p","subject":"_:h00000002"}"#,
            r#"{"object":"_:h00000001","predicate":"p","subject":"http://s"}"#,
            r#"{"object":{"value":"_:zz"},"predicate":"p","subject":"_:h00000000"}"#,
            r#"{"object":"_:h00000000","predicate":"p","subject":5}"#,
            r#""_:aa""#,
        ]
    );
}

#[test]
fn reshaped_documents_are_semantically_equal() {
    let old = doc(r#"{"@id":"http://x.org/a","name":"n","tags":["x","y"],"@type":"T"}"#);
    let new = doc(r#"{"@type":["T"],"tags":["y","x","x"],"name":"n","@id":"http://x.org/a"}"#);
    let d = compute_semantic_diff(&old, &new, &defaults());
    assert_eq!(to_json_text(d.get("added_triples").unwrap()), "[]");
    assert_eq!(to_json_text(d.get("removed_triples").unwrap()), "[]");
    assert_eq!(to_json_text(d.get("modified_nodes").unwrap()), "[]");
    assert_eq!(
        to_json_text(d.get("metadata").unwrap()),
        r#"{"blank_node_handling":"uuid","normalization_algorithm":"urdna2015","semantic_equivalence":true}"#
    );
}

#[test]
fn a_set_denotes_what_the_bare_array_denotes() {
    let old = doc(r#"{"@id":"http://ex.org/a","name":{"@set":["x","y"]}}"#);
    let new = doc(r#"{"@id":"http://ex.org/a","name":["x","y"]}"#);
    assert_eq!(
        texts(&document_to_triples_fast(&old)),
        texts(&document_to_triples_fast(&new))
    );
    assert_eq!(document_to_triples_fast(&old).len(), 2);
    for (a, b) in [(&old, &new), (&new, &old)] {
        let d = compute_semantic_diff(a, b, &defaults());
        assert_eq!(to_json_text(d.get("added_triples").unwrap()), "[]");
        assert_eq!(to_json_text(d.get("removed_triples").unwrap()), "[]");
        assert_eq!(
            to_json_text(d.get("metadata").unwrap().get("semantic_equivalence").unwrap()),
            "true"
        );
    }
    let single = doc(r#"{"@id":"http://ex.org/a","name":{"@set":"x"}}"#);
    let bare = doc(r#"{"@id":"http://ex.org/a","name":"x"}"#);
    assert_eq!(
        texts(&document_to_triples_fast(&single)),
        texts(&document_to_triples_fast(&bare))
    );
    let other = doc(r#"{"@id":"http://ex.org/a","name":{"@set":["x","z"]}}"#);
    let d = compute_semantic_diff(&other, &new, &defaults());
    assert_eq!(
        to_json_text(d.get("metadata").unwrap().get("semantic_equivalence").unwrap()),
        "false"
    );
}

#[test]
fn changed_values_are_paired_by_node_and_property() {
    let old = doc(r#"{"@id":"http://x.org/a","name":"old","keep":1,"gone":true,"@context":{"a":"http://a","b":"http://b","@base":"http://base/"}}"#);
    let new = doc(r#"{"@id":"http://x.org/a","name":"new","keep":1,"more":["p","q"],"@context":{"a":"http://changed","c":{"@id":"x"}}}"#);
    let d = compute_semantic_diff(&old, &new, &defaults());
    assert_eq!(
        to_json_text(&d),
        [
            r#"{"added_triples":["#,
            r#"{"object":{"type":"http://www.w3.org/2001/XMLSchema#string","value":"p"},"predicate":"http://example.org/more","subject":"http://x.org/a"},"#,
            r#"{"object":{"type":"http://www.w3.org/2001/XMLSchema#string","value":"q"},"predicate":"http://example.org/more","subject":"http://x.org/a"},"#,
            r#"{"object":{"type":"http://www.w3.org/2001/XMLSchema#string","value":"new"},"predicate":"http://example.org/name","subject":"http://x.org/a"}],"#,
            r#""context_changes":{"added_mappings":{"c":"{\"@id\":\"x\"}"},"base_changes":["http://base/",null],"#,
            r#""changed_mappings":{"a":["http://a","http://changed"]},"removed_mappings":{"@base":"http://base/","b":"http://b"}},"#,
            r#""metadata":{"blank_node_handling":"uuid","normalization_algorithm":"urdna2015","semantic_equivalence":false},"#,
            r#""modified_nodes":[{"added_properties":["#,
            r#"{"change_type":"value","new_value":{"type":"http://www.w3.org/2001/XMLSchema#string","value":"p"},"property":"http://example.org/more"},"#,
            r#"{"change_type":"value","new_value":{"type":"http://www.w3.org/2001/XMLSchema#string","value":"q"},"property":"http://example.org/more"}],"#,
            r#""modified_properties":[{"change_type":"value","new_value":{"type":"http://www.w3.org/2001/XMLSchema#string","value":"new"},"#,
            r#""old_value":{"type":"http://www.w3.org/2001/XMLSchema#string","value":"old"},"property":"http://example.org/name"}],"#,
            r#""node_id":"http://x.org/a","removed_properties":["#,
            r#"{"change_type":"value","old_value":{"type":"http://www.w3.org/2001/XMLSchema#boolean","value":"true"},"property":"http://example.org/gone"}]}],"#,
            r#""removed_triples":["#,
            r#"{"object":{"type":"http://www.w3.org/2001/XMLSchema#boolean","value":"true"},"predicate":"http://example.org/gone","subject":"http://x.org/a"},"#,
            r#"{"object":{"type":"http://www.w3.org/2001/XMLSchema#string","value":"old"},"predicate":"http://example.org/name","subject":"http://x.org/a"}]}"#,
        ]
        .concat()
    );
}

#[test]
fn contexts_are_compared_only_on_request() {
    let old = doc(r#"{"@context":{"a":"1"}}"#);
    let new = doc(r#"{"@context":{"a":"2"}}"#);
    let o = parse_semantic_options(&vec![
        ("context_aware".to_string(), "false".to_string()),
        ("blank_node_strategy".to_string(), "hash".to_string()),
        ("normalize".to_string(), "maybe".to_string()),
    ]);
    assert!(!o.context_aware && o.normalize && o.expand_contexts);
    assert_eq!(o.blank_node_strategy, BlankNodeStrategy::Hash);
    let d = compute_semantic_diff(&old, &new, &o);
    assert_eq!(
        to_json_text(d.get("context_changes").unwrap()),
        r#"{"added_mappings":{},"base_changes":[null,null],"changed_mappings":{},"removed_mappings":{}}"#
    );
    assert_eq!(
        to_json_text(&compare_contexts_fast(&old, &new)),
        r#"{"added_mappings":{},"base_changes":[null,null],"changed_mappings":{"a":["1","2"]},"removed_mappings":{}}"#
    );
    let p = parse_semantic_options(&vec![("blank_node_strategy".to_string(), "preserve".to_string())]);
    assert_eq!(p.blank_node_strategy, BlankNodeStrategy::Preserve);
    assert_eq!(defaults().blank_node_strategy, BlankNodeStrategy::Uuid);
}

#[test]
fn contexts_flatten_to_texts() {
    let ctx = extract_context_fast(&doc(r#"{"@context":{"s":"str","n":5,"o":{"k":[1,"a\n"]},"z":null}}"#));
    let flat = flatten_context_fast(&ctx);
    assert_eq!(
        flat,
        vec![
            ("n".to_string(), "5".to_string()),
            ("o".to_string(), r#"{"k":[1,"a\n"]}"#.to_string()),
            ("s".to_string(), "str".to_string()),
            ("z".to_string(), "null".to_string()),
        ]
    );
    assert!(extract_context_fast(&doc(r#"{"@context":"http://x"}"#)).is_empty());
    assert!(extract_context_fast(&doc("[]")).is_empty());
}

#[test]
fn grouping_orders_nodes_and_properties() {
    let added = items(
        r#"[
        {"subject":"b","predicate":"q","object":1},
        {"subject":"a","predicate":"z","object":2},
        {"subject":"a","predicate":"y","object":3},
        {"subject":"a","predicate":"z","object":4}
    ]"#,
    );
    let removed = items(
        r#"[
        {"subject":"a","predicate":"z","object":5},
        {"predicate":"q"}
    ]"#,
    );
    assert_eq!(
        texts(&group_changes_by_node_fast(&added, &removed)),
        vec![
            r#"{"added_properties":[],"modified_properties":[],"node_id":"","removed_properties":[{"change_type":"value","old_value":null,"property":"q"}]}"#,
            r#"{"added_properties":[{"change_type":"value","new_value":3,"property":"y"},{"change_type":"value","new_value":4,"property":"z"}],"modified_properties":[{"change_type":"value","new_value":2,"old_value":5,"property":"z"}],"node_id":"a","removed_properties":[]}"#,
            r#"{"added_properties":[{"change_type":"value","new_value":1,"property":"q"}],"modified_properties":[],"node_id":"b","removed_properties":[]}"#,
        ]
    );
}

#[test]
fn literals_decode_by_their_datatype() {
    let int = "http://www.w3.org/2001/XMLSchema#integer";
    let dbl = "http://www.w3.org/2001/XMLSchema#double";
    let boo = "http://www.w3.org/2001/XMLSchema#boolean";
    let lit = |value: &str, datatype: &str| {
        object_of(vec![
            ("value".to_string(), Value::text(value)),
            ("type".to_string(), Value::text(datatype)),
        ])
    };
    let decode = |v: &Value| to_json_text(&object_to_json_value(Some(v)));
    assert_eq!(decode(&lit("42", int)), "42");
    assert_eq!(decode(&lit("-42", int)), "-42");
    assert_eq!(decode(&lit("+7", int)), "7");
    assert_eq!(decode(&lit("-0", int)), "0");
    assert_eq!(decode(&lit("9223372036854775807", int)), "9223372036854775807");
    assert_eq!(decode(&lit("-9223372036854775808", int)), "-9223372036854775808");
    assert_eq!(decode(&lit("9223372036854775808", int)), r#""9223372036854775808""#);
    assert_eq!(decode(&lit("4x", int)), r#""4x""#);
    assert_eq!(decode(&lit("", int)), r#""""#);
    assert_eq!(decode(&lit("-", int)), r#""-""#);
    assert_eq!(decode(&lit("1.5", dbl)), "1.5");
    assert_eq!(decode(&lit("1e2", dbl)), "100.0");
    assert_eq!(decode(&lit("3", dbl)), "3.0");
    assert_eq!(decode(&lit("inf", dbl)), "0");
    assert_eq!(decode(&lit("one", dbl)), r#""one""#);
    assert_eq!(decode(&lit("true", boo)), "true");
    assert_eq!(decode(&lit("false", boo)), "false");
    assert_eq!(decode(&lit("yes", boo)), r#""yes""#);
    assert_eq!(decode(&lit("x", "http://other")), r#""x""#);
    assert_eq!(decode(&doc(r#"{"value":5,"type":"http://www.w3.org/2001/XMLSchema#integer"}"#)), "5");
    assert_eq!(decode(&doc(r#"{"value":"v","language":"en"}"#)), r#""v""#);
    assert_eq!(decode(&doc(r#"{"@id":"http://n","value":"v"}"#)), r#""http://n""#);
    assert_eq!(decode(&doc(r#"{"type":"t"}"#)), "null");
    assert_eq!(decode(&doc(r#""s""#)), r#""s""#);
    assert_eq!(decode(&doc("[1]")), "[1]");
    assert_eq!(to_json_text(&object_to_json_value(None)), "null");
}

#[test]
fn type_names_are_local_names() {
    assert_eq!(object_to_type_local(Some(&doc(r#""http://x.org/vocab#Person""#))), Some("Person".to_string()));
    assert_eq!(object_to_type_local(Some(&doc(r#""http://x.org/a/b""#))), Some("b".to_string()));
    assert_eq!(object_to_type_local(Some(&doc(r#""http://x.org/a#b/c""#))), Some("c".to_string()));
    assert_eq!(object_to_type_local(Some(&doc(r#""Plain""#))), Some("Plain".to_string()));
    assert_eq!(object_to_type_local(Some(&doc(r#""ends/""#))), Some("".to_string()));
    assert_eq!(object_to_type_local(Some(&doc(r#"{"@id":"http://x.org/T"}"#))), Some("T".to_string()));
    assert_eq!(object_to_type_local(Some(&doc(r#"{"@id":5}"#))), None);
    assert_eq!(object_to_type_local(Some(&doc("5"))), None);
    assert_eq!(object_to_type_local(None), None);
}

#[test]
fn added_triples_of_the_root_are_merged_in() {
    let root = r#"{"@id":"http://x.org/a","@type":"T","name":"n","tags":["x"]}"#;
    let t = "http://www.w3.org/1999/02/22-rdf-syntax-ns#type";
    let added = items(&format!(
        r#"[
        {{"subject":"http://x.org/a","predicate":"{t}","object":"http://v.org/T"}},
        {{"subject":"http://x.org/a","predicate":"{t}","object":"http://v.org/U"}},
        {{"subject":"http://x.org/a","predicate":"{t}","object":{{"@id":"http://v.org#W"}}}},
        {{"subject":"http://x.org/a","predicate":"{t}","object":"http://v.org/U"}},
        {{"subject":"http://x.org/a","predicate":"{t}","object":5}},
        {{"subject":"http://x.org/other","predicate":"http://example.org/name","object":"no"}},
        {{"subject":"http://x.org/a","predicate":"http://example.org/name","object":{{"value":"n","type":"http://www.w3.org/2001/XMLSchema#string"}}}},
        {{"subject":"http://x.org/a","predicate":"http://example.org/name","object":{{"value":"m","type":"http://www.w3.org/2001/XMLSchema#string"}}}},
        {{"subject":"http://x.org/a","predicate":"http://example.org/tags","object":{{"value":"x"}}}},
        {{"subject":"http://x.org/a","predicate":"http://example.org/tags","object":{{"value":"7","type":"http://www.w3.org/2001/XMLSchema#integer"}}}},
        {{"subject":"http://x.org/a","predicate":"http://example.org/fresh","object":"http://o"}},
        {{"subject":"http://x.org/a","object":"http://o"}}
    ]"#
    ));
    assert_eq!(
        to_json_text(&apply_triple_additions(doc(root), &added)),
        r#"{"@id":"http://x.org/a","@type":["T","U","W"],"fresh":"http://o","name":["n","m"],"tags":["x",7]}"#
    );
    assert_eq!(to_json_text(&apply_triple_additions(doc(r#"{"name":"n"}"#), &added)), r#"{"name":"n"}"#);
    assert_eq!(to_json_text(&apply_triple_additions(doc("[1]"), &added)), "[1]");
    let no_type = doc(r#"{"@id":"http://x.org/a"}"#);
    assert_eq!(
        to_json_text(&apply_triple_additions(no_type, &added[..1].to_vec())),
        r#"{"@id":"http://x.org/a","@type":"T"}"#
    );
}

#[test]
fn removed_triples_of_the_root_are_taken_out() {
    let t = "http://www.w3.org/1999/02/22-rdf-syntax-ns#type";
    let gone = |predicate: &str, object: &str| {
        items(&format!(r#"[{{"subject":"http://x.org/a","predicate":"{predicate}","object":{object}}}]"#))
    };
    let take = |root: &str, predicate: &str, object: &str| {
        to_json_text(&apply_triple_removals(doc(root), &gone(predicate, object)))
    };
    assert_eq!(take(r#"{"@id":"http://x.org/a","@type":"T"}"#, t, r#""http://v/T""#), r#"{"@id":"http://x.org/a"}"#);
    assert_eq!(take(r#"{"@id":"http://x.org/a","@type":"T"}"#, t, r#""http://v/U""#), r#"{"@id":"http://x.org/a","@type":"T"}"#);
    assert_eq!(take(r#"{"@id":"http://x.org/a","@type":["T","U","V"]}"#, t, r#""http://v/U""#), r#"{"@id":"http://x.org/a","@type":["T","V"]}"#);
    assert_eq!(take(r#"{"@id":"http://x.org/a","@type":["T","U"]}"#, t, r#""http://v/U""#), r#"{"@id":"http://x.org/a","@type":"T"}"#);
    assert_eq!(take(r#"{"@id":"http://x.org/a","@type":["T"]}"#, t, r#""http://v/T""#), r#"{"@id":"http://x.org/a","@type":[]}"#);
    let p = "http://example.org/p";
    assert_eq!(take(r#"{"@id":"http://x.org/a","p":[1,2,1,3]}"#, p, "1"), r#"{"@id":"http://x.org/a","p":[2,3]}"#);
    assert_eq!(take(r#"{"@id":"http://x.org/a","p":[1,2]}"#, p, "1"), r#"{"@id":"http://x.org/a","p":2}"#);
    assert_eq!(take(r#"{"@id":"http://x.org/a","p":[1,1]}"#, p, "1"), r#"{"@id":"http://x.org/a"}"#);
    assert_eq!(take(r#"{"@id":"http://x.org/a","p":"v"}"#, p, r#"{"value":"v"}"#), r#"{"@id":"http://x.org/a"}"#);
    assert_eq!(take(r#"{"@id":"http://x.org/a","p":"v"}"#, p, r#"{"value":"w"}"#), r#"{"@id":"http://x.org/a","p":"v"}"#);
    assert_eq!(take(r#"{"@id":"http://x.org/a"}"#, p, "1"), r#"{"@id":"http://x.org/a"}"#);
    assert_eq!(take(r#"{"@id":"http://x.org/b","p":1}"#, p, "1"), r#"{"@id":"http://x.org/b","p":1}"#);
}

#[test]
fn context_changes_are_applied_to_the_context() {
    let changes = match doc(
        r#"{"added_mappings":{"n":"http://n","a":"http://replaced"},
            "removed_mappings":{"gone":"x","never":"y"},
            "changed_mappings":{"c":["old","new"],"bad":["one"],"worse":"text"}}"#,
    ) {
        Value::Object(e) => e,
        _ => panic!("not an object"),
    };
    let d = doc(r#"{"@context":{"a":"http://a","gone":"x","c":"old"},"k":1}"#);
    assert_eq!(
        to_json_text(&apply_context_changes_fast(d, &changes)),
        r#"{"@context":{"a":"http://replaced","c":"new","n":"http://n"},"k":1}"#
    );
    assert_eq!(
        to_json_text(&apply_context_changes_fast(doc(r#"{"@context":"http://remote"}"#), &changes)),
        r#"{"@context":{"a":"http://replaced","c":"new","n":"http://n"}}"#
    );
    assert_eq!(to_json_text(&apply_context_changes_fast(doc("[1]"), &changes)), "[1]");
}

#[test]
fn a_semantic_delta_patches_the_root() {
    let old = doc(r#"{"@id":"http://x.org/a","@type":"T","name":"old","n":1,"@context":{"a":"http://a"}}"#);
    let new = doc(r#"{"@id":"http://x.org/a","@type":"T","name":"new","n":1,"m":2,"@context":{"a":"http://b"}}"#);
    let delta = compute_semantic_diff(&old, &new, &defaults());
    assert_eq!(
        to_json_text(&patch_semantic(&old, &delta)),
        r#"{"@context":{"a":"http://b"},"@id":"http://x.org/a","@type":"T","m":2,"n":1,"name":"new"}"#
    );
    assert_eq!(patch_semantic(&old, &doc("{}")), old);
    assert_eq!(patch_semantic(&old, &doc(r#"{"added_triples":5,"removed_triples":{},"context_changes":[]}"#)), old);
}

#[test]
fn extraction_returns_the_subject_of_the_node() {
    let mut triples = Vec::new();
    let s = extract_triples_node_fast(&doc(r#"{"@id":"http://x.org/a"}"#), None, &mut triples);
    assert_eq!(s, Some("http://x.org/a".to_string()));
    let s = extract_triples_node_fast(&doc(r#"[{"@id":"http://x.org/a"},{"@id":"http://x.org/b"}]"#), None, &mut triples);
    assert_eq!(s, Some("http://x.org/b".to_string()));
    let s = extract_triples_node_fast(&doc("[]"), Some("hint".to_string()), &mut triples);
    assert_eq!(s, None);
    let s = extract_triples_node_fast(&doc("3"), Some("hint".to_string()), &mut triples);
    assert_eq!(s, Some("hint".to_string()));
    let s = extract_triples_node_fast(&doc(r#"{"a":1}"#), None, &mut triples).unwrap();
    assert!(s.starts_with("_:h"));
    assert!(s[3..].chars().all(|c| c.is_ascii_digit()));
    assert_eq!(triples.len(), 1);
    emit_triple_for_value("s", "p", &doc("null"), &mut triples);
    emit_triple_for_value("s", "p", &doc("[1]"), &mut triples);
    assert_eq!(triples.len(), 1);
    emit_triple_for_value("s", "p", &doc(r#"{"@value":1}"#), &mut triples);
    assert_eq!(
        to_json_text(&triples[1]),
        r#"{"object":{"type":"http://www.w3.org/2001/XMLSchema#string","value":1},"predicate":"p","subject":"s"}"#
    );
}
