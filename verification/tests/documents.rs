use jsonld_diff::bytes::{find_colon_simd, is_likely_iri_simd, strings_equal_simd, turbo_process_json_string};
use jsonld_diff::documents::{
    extract_nodes, find_matching_nodes, matches_pattern, merge_documents, merge_json,
    optimize_json, simple_compact, simple_flatten, simple_frame,
};
use jsonld_diff::expand::{
    default_context, expand_iri, expand_property_iri, expand_type_value, expand_value,
    expand_value_object, simple_expand, turbo_expand, turbo_expand_iri, Context, ExpandOptions,
    LanguageMapping, TermDefinition,
};
use jsonld_diff::json_text::{to_json_text, to_pretty_text};
use jsonld_diff::reports::{
    batch_expand_item, batch_process_item, build_dependency_graph, compute_lcs_operations, convert_npm_requirement,
    convert_to_rdf_simple, from_rdf, generate_blueprint_context, generate_json_ld_cache_key,
    normalize_document_simple, text_diff_myers, validation_errors,
};
use jsonld_diff::value::{object_of, Number, Value};
use jsonld_diff::versions::{
    compare_versions, parse_semantic_version, satisfies_requirement, VersionOrder,
};

fn from_serde(v: &serde_json::Value) -> Value {
    match v {
        serde_json::Value::Null => Value::Null,
        serde_json::Value::Bool(b) => Value::Bool(*b),
        serde_json::Value::Number(n) => {
            if let Some(u) = n.as_u64() {
                Value::Number(Number::PosInt(u))
            } else if let Some(i) = n.as_i64() {
                Value::Number(Number::NegInt(i))
            } else {
                Value::Number(Number::Float(n.to_string()))
            }
        }
        serde_json::Value::String(s) => Value::Str(s.clone()),
        serde_json::Value::Array(a) => Value::Array(a.iter().map(from_serde).collect()),
        serde_json::Value::Object(m) => {
            object_of(m.iter().map(|(k, x)| (k.clone(), from_serde(x))).collect())
        }
    }
}

fn doc(text: &str) -> Value {
    from_serde(&serde_json::from_str::<serde_json::Value>(text).unwrap())
}

fn text(v: &Value) -> String {
    to_json_text(v)
}

#[test]
fn merging_takes_over_new_keys_and_merges_common_objects() {
    let mut t = doc(r#"{"a":1,"b":{"c":1,"d":{"e":1}},"f":[1]}"#);
    merge_json(&mut t, &doc(r#"{"a":2,"b":{"c":2,"d":{"g":2},"h":3},"f":{"x":1},"n":null}"#));
    assert_eq!(text(&t), r#"{"a":1,"b":{"c":1,"d":{"e":1,"g":2},"h":3},"f":[1],"n":null}"#);
    let mut s = doc("5");
    merge_json(&mut s, &doc(r#"{"a":1}"#));
    assert_eq!(text(&s), "5");
    let mut o = doc(r#"{"a":1}"#);
    merge_json(&mut o, &doc("[1]"));
    assert_eq!(text(&o), r#"{"a":1}"#);
    let all = merge_documents(&vec![doc(r#"{"a":{"x":1}}"#), doc("7"), doc(r#"{"a":{"y":2},"b":1}"#)]);
    assert_eq!(text(&all), r#"{"a":{"x":1,"y":2},"b":1}"#);
    assert_eq!(text(&merge_documents(&vec![])), "{}");
}

#[test]
fn pruning_drops_null_entries_but_keeps_null_items() {
    let mut d = doc(r#"{"a":null,"b":{"c":null,"d":[null,{"e":null,"f":1}]},"g":0}"#);
    optimize_json(&mut d);
    assert_eq!(text(&d), r#"{"b":{"d":[null,{"f":1}]},"g":0}"#);
    let mut n = Value::Null;
    optimize_json(&mut n);
    assert_eq!(n, Value::Null);
}

#[test]
fn flattening_collects_the_nodes() {
    let d = doc(r#"{"@id":"a","p":{"@id":"b","q":[{"@id":"c"},{"r":{"@id":"d"}}]},"s":1}"#);
    let mut nodes = Vec::new();
    extract_nodes(&d, &mut nodes);
    let ids: Vec<String> = nodes.iter().map(|n| text(n.get("@id").unwrap())).collect();
    assert_eq!(ids, vec![r#""a""#, r#""b""#, r#""c""#, r#""d""#]);
    assert_eq!(text(&simple_flatten(&doc(r#"[{"@id":"x"},3]"#), None)), r#"{"@graph":[{"@id":"x"}]}"#);
    assert_eq!(
        text(&simple_flatten(&doc(r#"{"a":1}"#), Some(doc(r#"{"v":"http://v"}"#)))),
        r#"{"@context":{"v":"http://v"},"@graph":[]}"#
    );
}

#[test]
fn compacting_shortens_the_keys_of_the_first_item() {
    let input = doc(r#"[{"http://x.org/a/name":"n","http://y.org/name":"m","plain":1,"http://x.org/":2},{"http://x.org/skipped":1}]"#);
    assert_eq!(
        text(&simple_compact(&input, doc(r#"{"c":1}"#))),
        r#"{"":2,"@context":{"c":1},"name":"m","plain":1}"#
    );
    assert_eq!(text(&simple_compact(&doc(r#"{"a":1}"#), doc("null"))), r#"{"@context":null}"#);
    assert_eq!(text(&simple_compact(&doc("[]"), doc("1"))), r#"{"@context":1}"#);
    assert_eq!(text(&simple_compact(&doc("[5]"), doc("1"))), r#"{"@context":1}"#);
}

#[test]
fn framing_keeps_the_keys_of_the_frame() {
    let input = doc(r#"{"a":1,"b":2,"c":3}"#);
    assert_eq!(text(&simple_frame(&input, &doc(r#"{"c":{},"a":null,"z":1}"#))), r#"{"a":1,"c":3}"#);
    assert_eq!(text(&simple_frame(&input, &doc("[]"))), "{}");
    assert_eq!(text(&simple_frame(&doc("1"), &doc(r#"{"a":1}"#))), "{}");
}

#[test]
fn patterns_match_by_their_keys() {
    let d = doc(r#"{"type":"T","n":{"type":"T","k":[{"type":"T","x":1},{"type":"U"}]},"x":1}"#);
    assert!(matches_pattern(&d, &doc(r#"{"type":"T"}"#)));
    assert!(matches_pattern(&d, &doc(r#"{"n":{"type":"T"}}"#)));
    assert!(!matches_pattern(&d, &doc(r#"{"type":"U"}"#)));
    assert!(!matches_pattern(&d, &doc(r#"{"missing":1}"#)));
    assert!(matches_pattern(&d, &doc("{}")));
    assert!(matches_pattern(&doc("[1,2]"), &doc("[1,2]")));
    assert!(!matches_pattern(&doc("[1,2]"), &doc("[1]")));
    assert!(!matches_pattern(&doc("1"), &doc("{}")));
    let found = find_matching_nodes(&d, &doc(r#"{"type":"T"}"#));
    assert_eq!(found.len(), 3);
    assert_eq!(found[0], d);
    assert_eq!(text(&found[2]), r#"{"type":"T","x":1}"#);
    assert_eq!(find_matching_nodes(&d, &doc("1")).len(), 2);
}

#[test]
fn validation_names_what_is_missing() {
    assert_eq!(validation_errors(&doc(r#"{"@context":{},"@id":"x"}"#)), Vec::<String>::new());
    assert_eq!(validation_errors(&doc(r#"{"@context":{},"@type":"x"}"#)), Vec::<String>::new());
    assert_eq!(validation_errors(&doc(r#"{"@id":"x"}"#)), vec!["Missing @context"]);
    assert_eq!(validation_errors(&doc(r#"{"@context":1}"#)), vec!["Missing @type or @id"]);
    assert_eq!(validation_errors(&doc("{}")), vec!["Missing @context", "Missing @type or @id"]);
    assert_eq!(validation_errors(&doc("[]")), vec!["Document must be an object"]);
}

#[test]
fn the_dependency_graph_lists_named_blueprints() {
    let g = build_dependency_graph(&vec![
        Some(doc(r#"{"name":"first"}"#)),
        None,
        Some(doc(r#"{"name":5}"#)),
        Some(doc(r#"["name"]"#)),
        Some(doc(r#"{"name":"last","x":1}"#)),
    ]);
    assert_eq!(text(&g), r#"{"edges":[],"nodes":[{"id":0,"name":"first"},{"id":4,"name":"last"}]}"#);
}

#[test]
fn constant_documents() {
    assert_eq!(
        text(&generate_blueprint_context()),
        r#"{"@context":{"@vocab":"https://blueprints.ash-hq.org/vocab/","ash":"https://ash-hq.org/ontology/","attributes":{"@container":"@set","@id":"ash:attributes"},"name":"ash:name","relationships":{"@container":"@set","@id":"ash:relationships"},"type":"ash:type"}}"#
    );
    assert_eq!(text(&from_rdf()), r#"{"@context":{},"@graph":[]}"#);
}

#[test]
fn simple_triples_are_lines() {
    assert_eq!(
        convert_to_rdf_simple(&doc(r#"{"@id":"http://s","@type":"T","a":"x","b":[1,{"c":null}]}"#)),
        "<http://s> <a> \"\"x\"\" .\n<http://s> <b> \"[1,{\"c\":null}]\" ."
    );
    assert_eq!(convert_to_rdf_simple(&doc(r#"{"a":1}"#)), "<_:blank> <a> \"1\" .");
    assert_eq!(convert_to_rdf_simple(&doc(r#"{"@id":5,"a":1}"#)), "<_:blank> <a> \"1\" .");
    assert_eq!(convert_to_rdf_simple(&doc(r#"{"@id":"s"}"#)), "");
    assert_eq!(convert_to_rdf_simple(&doc("[1]")), "");
}

#[test]
fn edit_scripts_as_documents() {
    let ops = compute_lcs_operations(&vec![doc("1"), doc("2")], &vec![doc(r#""a""#)]);
    assert_eq!(
        ops.iter().map(text).collect::<Vec<_>>(),
        vec![
            r#"{"index":1,"type":"delete"}"#,
            r#"{"index":0,"type":"delete"}"#,
            r#"{"index":0,"type":"insert","value":"a"}"#,
        ]
    );
    assert!(compute_lcs_operations(&vec![], &vec![]).is_empty());
    assert_eq!(
        text(&text_diff_myers("abc", "abXc")),
        r#"{"common_prefix":"","common_suffix":"","new_middle":"abXc","old_middle":"abc","operations":[{"new_range":[0,2],"old_range":[0,2],"tag":"equal"},{"new_range":[2,3],"old_range":[2,2],"tag":"insert"},{"new_range":[3,4],"old_range":[2,3],"tag":"equal"}]}"#
    );
    assert_eq!(
        text(&text_diff_myers("héllo", "hllo")),
        r#"{"common_prefix":"","common_suffix":"","new_middle":"hllo","old_middle":"héllo","operations":[{"new_range":[0,1],"old_range":[0,1],"tag":"equal"},{"new_range":[1,1],"old_range":[1,2],"tag":"delete"},{"new_range":[1,4],"old_range":[2,5],"tag":"equal"}]}"#
    );
}

#[test]
fn the_normalized_representation_is_pretty() {
    assert_eq!(
        normalize_document_simple(&doc(r#"{"a":[1,{"b":"c\"d"},[]],"e":{}}"#)),
        "# Normalized representation of document\n# Algorithm: URDNA2015\n{\n  \"a\": [\n    1,\n    {\n      \"b\": \"c\\\"d\"\n    },\n    []\n  ],\n  \"e\": {}\n}"
    );
    assert_eq!(to_pretty_text(&doc("[]")), "[]");
    assert_eq!(to_pretty_text(&doc("null")), "null");
    let d = doc(r#"{"k":[true,null,-1.5e10,"s"],"o":{"p":{"q":[{}]}}}"#);
    let expected = serde_json::to_string_pretty(&serde_json::from_str::<serde_json::Value>(&text(&d)).unwrap()).unwrap();
    assert_eq!(to_pretty_text(&d), expected);
}

#[test]
fn cache_keys_describe_the_shape() {
    assert_eq!(generate_json_ld_cache_key(&doc(r#"{"@context":1,"@type":"T","b":1,"a":2,"@id":"x"}"#)), "obj:ctx:typ:a,b");
    assert_eq!(generate_json_ld_cache_key(&doc(r#"{"x":1}"#)), "obj:::x");
    assert_eq!(generate_json_ld_cache_key(&doc("{}")), "obj:::");
    assert_eq!(generate_json_ld_cache_key(&doc(r#"{"@type":1}"#)), "obj::typ:");
    assert_eq!(generate_json_ld_cache_key(&doc("[1,2,3]")), "arr:3");
    assert_eq!(generate_json_ld_cache_key(&doc(r#""http://é""#)), "iri:9");
    assert_eq!(generate_json_ld_cache_key(&doc(r#""ftp://x""#)), "val");
    assert_eq!(generate_json_ld_cache_key(&doc("5")), "val");
}

#[test]
fn requirements_lose_their_caret() {
    assert_eq!(convert_npm_requirement("^1.2.3"), "1.2.3");
    assert_eq!(convert_npm_requirement("~1.2.3"), "~1.2.3");
    assert_eq!(convert_npm_requirement(">=1.0"), ">=1.0");
    assert_eq!(convert_npm_requirement(""), "");
    assert_eq!(convert_npm_requirement("^"), "");
}

#[test]
fn versions_are_read_ordered_and_matched() {
    assert_eq!(
        text(&parse_semantic_version("1.2.3-beta.1+build.5").unwrap()),
        r#"{"@context":{"@vocab":"https://semver.org/spec/v2.0.0/"},"@type":"Version","build":"build.5","full_version":"1.2.3-beta.1+build.5","major":1,"minor":2,"patch":3,"prerelease":"beta.1"}"#
    );
    assert_eq!(
        text(&parse_semantic_version("10.0.7").unwrap()),
        r#"{"@context":{"@vocab":"https://semver.org/spec/v2.0.0/"},"@type":"Version","build":null,"full_version":"10.0.7","major":10,"minor":0,"patch":7,"prerelease":null}"#
    );
    assert!(parse_semantic_version("1.2").is_err());
    assert_eq!(compare_versions("1.2.3", "1.10.0"), Ok(VersionOrder::Less));
    assert_eq!(compare_versions("2.0.0", "2.0.0"), Ok(VersionOrder::Equal));
    assert_eq!(compare_versions("2.0.0", "2.0.0-rc.1"), Ok(VersionOrder::Greater));
    let first = compare_versions("x", "y").unwrap_err();
    assert_eq!(first, parse_semantic_version("x").unwrap_err());
    let second = compare_versions("1.0.0", "1.0").unwrap_err();
    assert_eq!(second, parse_semantic_version("1.0").unwrap_err());
    assert_eq!(satisfies_requirement("1.4.0", "^1.2.3"), Ok(true));
    assert_eq!(satisfies_requirement("2.0.0", "^1.2.3"), Ok(false));
    assert_eq!(satisfies_requirement("1.2.9", "~1.2.3"), Ok(true));
    assert_eq!(satisfies_requirement("1.3.0", "~1.2.3"), Ok(false));
    assert_eq!(satisfies_requirement("1.3.0", ">=1.2.3, <2.0.0"), Ok(true));
    assert_eq!(satisfies_requirement("bad", "^1").unwrap_err(), parse_semantic_version("bad").unwrap_err());
    assert!(satisfies_requirement("1.0.0", "not a requirement").is_err());
}

#[test]
fn byte_searches() {
    assert_eq!(find_colon_simd(b"schema:name"), Some(6));
    assert_eq!(find_colon_simd(b"a:b:c"), Some(1));
    assert_eq!(find_colon_simd(b"name"), None);
    assert_eq!(find_colon_simd(b""), None);
    let long = "x".repeat(70) + ":" + &"y".repeat(70) + ":";
    assert_eq!(find_colon_simd(long.as_bytes()), Some(70));
    assert!(is_likely_iri_simd(b"a://b"));
    assert!(is_likely_iri_simd(b"://x"));
    assert!(!is_likely_iri_simd(b"://"));
    assert!(!is_likely_iri_simd(b"http:/x"));
    assert!(is_likely_iri_simd(("x".repeat(100) + "://").as_bytes()));
    assert!(strings_equal_simd(b"", b""));
    assert!(strings_equal_simd("é".repeat(40).as_bytes(), "é".repeat(40).as_bytes()));
    assert!(!strings_equal_simd(b"abc", b"abd"));
    assert!(!strings_equal_simd(b"abc", b"ab"));
    let ctx = default_context();
    assert_eq!(text(&turbo_process_json_string("https://x.org/a", &ctx)), r#""https://x.org/a""#);
    assert_eq!(text(&turbo_process_json_string("plain", &ctx)), r#"{"@value":"plain"}"#);
}

fn under(property: &str) -> ExpandOptions {
    ExpandOptions { active_property: Some(property.to_string()), active_graph: String::new() }
}

#[test]
fn iris_expand_against_the_context() {
    let ctx = default_context();
    assert_eq!(expand_property_iri("http://a/b", &ctx), "http://a/b");
    assert_eq!(expand_property_iri("https://a/b", &ctx), "https://a/b");
    assert_eq!(expand_property_iri("schema", &ctx), "http://schema.org/");
    assert_eq!(expand_property_iri("schema:name", &ctx), "http://schema.org/name");
    assert_eq!(expand_property_iri("xsd:int", &ctx), "http://www.w3.org/2001/XMLSchema#int");
    assert_eq!(expand_property_iri("foaf:name", &ctx), "foaf:name");
    assert_eq!(expand_property_iri("name", &ctx), "http://example.org/name");
    assert_eq!(text(&expand_iri("rdfs:label", &ctx)), r#""http://www.w3.org/2000/01/rdf-schema#label""#);
    assert_eq!(text(&turbo_expand_iri("https://a/b", &ctx)), r#""https://a/b""#);
    assert_eq!(text(&turbo_expand_iri("http://a/b", &ctx)), r#""http://example.org/http://a/b""#);
    assert_eq!(text(&turbo_expand_iri("schema:name", &ctx)), r#""http://schema.org/name""#);
    assert_eq!(text(&turbo_expand_iri("foaf:name", &ctx)), r#""http://example.org/foaf:name""#);
    assert_eq!(text(&turbo_expand_iri("schema", &ctx)), r#""http://example.org/schema""#);
    assert_eq!(
        text(&expand_type_value(&doc(r#"["T",5,"schema:U"]"#), &ctx)),
        r#"["http://example.org/T",5,"http://schema.org/U"]"#
    );
    assert_eq!(text(&expand_type_value(&doc("7"), &ctx)), "7");
}

#[test]
fn documents_expand() {
    let d = doc(
        r#"{"@context":{"x":"y"},"@id":"thing","@type":["A","schema:B"],"name":"n","count":3,"ratio":0.5,"ok":true,
            "none":null,"tags":["a",["b",null],[]],"schema:knows":{"@id":"http://other","@index":"i"},
            "@graph":[{"@id":"g"}],"@list":[1,null],"@reverse":{"parent":"p"},"@custom":"kept",
            "lit":{"@value":"v","@type":"xsd:string","@language":"EN-us","@direction":"ltr","@index":"i","junk":1}}"#,
    );
    assert_eq!(
        text(&simple_expand(&d)),
        [
            r#"[{"@custom":"kept","#,
            r#""@graph":[{"@id":"http://example.org/g"}],"#,
            r#""@id":"http://example.org/thing","#,
            r#""@list":[1,null],"#,
            r#""@reverse":{"http://example.org/parent":{"@value":"p"}},"#,
            r#""@type":["http://example.org/A","http://schema.org/B"],"#,
            r#""http://example.org/count":{"@type":"http://www.w3.org/2001/XMLSchema#integer","@value":3},"#,
            r#""http://example.org/lit":{"@direction":"ltr","@index":"i","@language":"en-us","@type":"http://www.w3.org/2001/XMLSchema#string","@value":"v"},"#,
            r#""http://example.org/name":{"@value":"n"},"#,
            r#""http://example.org/ok":{"@type":"http://www.w3.org/2001/XMLSchema#boolean","@value":true},"#,
            r#""http://example.org/ratio":{"@type":"http://www.w3.org/2001/XMLSchema#double","@value":0.5},"#,
            r#""http://example.org/tags":[{"@value":"a"},{"@value":"b"}],"#,
            r#""http://schema.org/knows":{"@id":"http://other","@index":"i"}}]"#,
        ]
        .concat()
    );
    assert_eq!(text(&simple_expand(&doc(r#""s""#))), r#""s""#);
    assert_eq!(text(&simple_expand(&doc("5"))), "5");
    assert_eq!(text(&simple_expand(&doc("[1,[2,[3]],null,{}]"))), "[1,2,3,{}]");
    assert_eq!(text(&simple_expand(&doc(r#"{"@set":["a",{"b":1}],"ignored":1}"#))), r#"["a",{"http://example.org/b":{"@type":"http://www.w3.org/2001/XMLSchema#integer","@value":1}}]"#);
    assert_eq!(text(&simple_expand(&doc(r#"{"@list":"one","@id":7,"@reverse":3}"#))), r#"[{"@list":["one"]}]"#);
    assert_eq!(text(&turbo_expand(&doc(r#"[1,[2,null],null,"s",{"a":null}]"#))), r#"[1,[2],"s",[{}]]"#);
}

#[test]
fn strings_take_their_language_from_term_or_context() {
    let mut ctx: Context = default_context();
    ctx.language = Some("de".to_string());
    ctx.terms = vec![
        (
            "http://example.org/title".to_string(),
            TermDefinition { iri: None, language_mapping: Some(LanguageMapping::Language("fr".to_string())) },
        ),
        (
            "http://example.org/code".to_string(),
            TermDefinition { iri: None, language_mapping: Some(LanguageMapping::NoLanguage) },
        ),
        ("http://example.org/plain".to_string(), TermDefinition { iri: None, language_mapping: None }),
    ];
    let s = doc(r#""x""#);
    assert_eq!(text(&expand_value(&s, &ctx, &under("http://example.org/title"))), r#"{"@language":"fr","@value":"x"}"#);
    assert_eq!(text(&expand_value(&s, &ctx, &under("http://example.org/code"))), r#"{"@value":"x"}"#);
    assert_eq!(text(&expand_value(&s, &ctx, &under("http://example.org/plain"))), r#"{"@language":"de","@value":"x"}"#);
    assert_eq!(text(&expand_value(&s, &ctx, &under("http://example.org/other"))), r#"{"@language":"de","@value":"x"}"#);
    assert_eq!(text(&expand_value(&s, &ctx, &under("@id"))), r#""http://example.org/x""#);
    assert_eq!(text(&expand_value(&s, &ctx, &ExpandOptions::default())), r#""x""#);
    assert_eq!(text(&expand_value(&doc(r#"{"a":1}"#), &ctx, &under("p"))), r#"{"http://example.org/a":{"@type":"http://www.w3.org/2001/XMLSchema#integer","@value":1}}"#);
    let lit = match doc(r#"{"@value":1,"@language":"","@direction":"up","@type":5,"@index":6}"#) {
        Value::Object(e) => e,
        _ => panic!("not an object"),
    };
    assert_eq!(text(&expand_value_object(&lit, &ctx)), r#"{"@value":1}"#);
}

#[test]
fn batch_items_give_text() {
    let d = doc(r#"{"name":"n"}"#);
    assert_eq!(batch_process_item("expand", Some(&d)), r#"[{"http://example.org/name":{"@value":"n"}}]"#);
    assert_eq!(batch_process_item("expand_binary", Some(&d)), r#"[{"http://example.org/name":{"@value":"n"}}]"#);
    assert_eq!(batch_process_item("expand", None), r#"{"error": "Invalid input"}"#);
    assert_eq!(batch_process_item("compact", Some(&d)), r#"{"error": "Unknown operation"}"#);
    assert_eq!(batch_process_item("", None), r#"{"error": "Unknown operation"}"#);
    assert_eq!(batch_expand_item(Some(&d)), r#"[{"http://example.org/name":{"@value":"n"}}]"#);
    assert_eq!(batch_expand_item(None), r#"{"error": "Invalid JSON"}"#);
}
